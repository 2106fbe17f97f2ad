//! The container source adapter: engine command lines and listing parser.

use std::collections::BTreeMap;
use vstd::prelude::*;

use crate::container::{Container, ContainerView, views_of};
use crate::strutil::{chars_of, string_from_chars};

verus! {

/// The kind of engine command a completion event correlates with.
#[derive(Debug, Clone, Copy, PartialEq, Eq, Structural)]
pub enum CommandTag {
    /// List all containers.
    Ps,
    /// Start the named container.
    Start,
    /// Stop the named container.
    Stop,
    /// Remove the named container.
    Delete,
}

impl CommandTag {
    /// The value stored under the correlation context's `"command"` key.
    pub open spec fn spec_name(self) -> Seq<char> {
        match self {
            CommandTag::Ps => "ps"@,
            CommandTag::Start => "start"@,
            CommandTag::Stop => "stop"@,
            CommandTag::Delete => "delete"@,
        }
    }

    /// Returns the correlation value naming this command kind.
    pub fn name(&self) -> (r: String)
        ensures
            r@ == self.spec_name(),
    {
        match self {
            CommandTag::Ps => "ps".to_owned(),
            CommandTag::Start => "start".to_owned(),
            CommandTag::Stop => "stop".to_owned(),
            CommandTag::Delete => "delete".to_owned(),
        }
    }

    /// The tag a correlation value names, if any.
    pub open spec fn spec_of_name(s: Seq<char>) -> Option<CommandTag> {
        if s == "ps"@ {
            Some(CommandTag::Ps)
        } else if s == "start"@ {
            Some(CommandTag::Start)
        } else if s == "stop"@ {
            Some(CommandTag::Stop)
        } else if s == "delete"@ {
            Some(CommandTag::Delete)
        } else {
            None
        }
    }

    /// Recovers a tag from a correlation value.
    pub fn from_name(s: &str) -> (r: Option<CommandTag>)
        ensures
            r == CommandTag::spec_of_name(s@),
    {
        let owned = s.to_owned();
        if owned == "ps".to_owned() {
            Some(CommandTag::Ps)
        } else if owned == "start".to_owned() {
            Some(CommandTag::Start)
        } else if owned == "stop".to_owned() {
            Some(CommandTag::Stop)
        } else if owned == "delete".to_owned() {
            Some(CommandTag::Delete)
        } else {
            None
        }
    }
}

/// An engine invocation for the host shell to run, with its correlation tag.
#[derive(Debug, Clone, PartialEq, Eq)]
pub struct DockerCommand {
    pub argv: Vec<String>,
    pub tag: CommandTag,
}

/// View of an argument vector as a sequence of character sequences.
pub open spec fn argv_view(v: Seq<String>) -> Seq<Seq<char>> {
    v.map_values(|s: String| s@)
}

/// The argv that lists all containers in line-delimited JSON.
pub open spec fn spec_list_argv() -> Seq<Seq<char>> {
    seq!["docker"@, "ps"@, "--format"@, "json"@, "-a"@]
}

/// Builds the command that lists all containers, stopped ones included.
pub fn request_docker_containers() -> (c: DockerCommand)
    ensures
        argv_view(c.argv@) == spec_list_argv(),
        c.tag == CommandTag::Ps,
{
    let mut argv: Vec<String> = Vec::new();
    argv.push("docker".to_owned());
    argv.push("ps".to_owned());
    argv.push("--format".to_owned());
    argv.push("json".to_owned());
    argv.push("-a".to_owned());
    proof {
        assert(argv_view(argv@) =~= spec_list_argv());
    }
    DockerCommand { argv, tag: CommandTag::Ps }
}

/// Builds the command that starts the named container.
pub fn start_container(container: &str) -> (c: DockerCommand)
    ensures
        argv_view(c.argv@) == seq!["docker"@, "start"@, container@],
        c.tag == CommandTag::Start,
{
    let mut argv: Vec<String> = Vec::new();
    argv.push("docker".to_owned());
    argv.push("start".to_owned());
    argv.push(container.to_owned());
    proof {
        assert(argv_view(argv@) =~= seq!["docker"@, "start"@, container@]);
    }
    DockerCommand { argv, tag: CommandTag::Start }
}

/// Builds the command that removes the named container.
pub fn delete_container(container: &str) -> (c: DockerCommand)
    ensures
        argv_view(c.argv@) == seq!["docker"@, "rm"@, container@],
        c.tag == CommandTag::Delete,
{
    let mut argv: Vec<String> = Vec::new();
    argv.push("docker".to_owned());
    argv.push("rm".to_owned());
    argv.push(container.to_owned());
    proof {
        assert(argv_view(argv@) =~= seq!["docker"@, "rm"@, container@]);
    }
    DockerCommand { argv, tag: CommandTag::Delete }
}

/// Builds the command that stops the named container.
pub fn close_container(container: &str) -> (c: DockerCommand)
    ensures
        argv_view(c.argv@) == seq!["docker"@, "stop"@, container@],
        c.tag == CommandTag::Stop,
{
    let mut argv: Vec<String> = Vec::new();
    argv.push("docker".to_owned());
    argv.push("stop".to_owned());
    argv.push(container.to_owned());
    proof {
        assert(argv_view(argv@) =~= seq!["docker"@, "stop"@, container@]);
    }
    DockerCommand { argv, tag: CommandTag::Stop }
}

/// The argv that follows the named container's logs in an interactive pane.
///
/// The attach runs in a separate surface and never reports a completion, so
/// it carries no correlation tag.
pub fn open_container(container: &str) -> (argv: Vec<String>)
    ensures
        argv_view(argv@) == seq!["docker"@, "logs"@, "-f"@, container@],
{
    let mut argv: Vec<String> = Vec::new();
    argv.push("docker".to_owned());
    argv.push("logs".to_owned());
    argv.push("-f".to_owned());
    argv.push(container.to_owned());
    proof {
        assert(argv_view(argv@) =~= seq!["docker"@, "logs"@, "-f"@, container@]);
    }
    argv
}

/// Why a listing refresh could not be parsed.  Either failure is fatal for
/// the whole refresh: no partial list is ever installed.
#[derive(Debug, Clone, Copy, PartialEq, Eq, Structural)]
pub enum ParseError {
    /// A non-empty line was not one JSON object of string fields.
    InvalidJson,
    /// A line lacked one of the required keys `Names`, `State`.
    MissingKey,
}

/// What the JSON reader yields for one line: the key/value pairs of a JSON
/// object whose values are all strings, in ascending key order, or nothing
/// when the line is not such an object.
pub uninterp spec fn json_object_of(line: Seq<char>) -> Option<Seq<(Seq<char>, Seq<char>)>>;

/// View of a vector of owned string pairs.
pub open spec fn pairs_view(v: Seq<(String, String)>) -> Seq<(Seq<char>, Seq<char>)> {
    v.map_values(|p: (String, String)| (p.0@, p.1@))
}

/// Relies on `serde_json::from_str::<BTreeMap<String, String>>`: it accepts a
/// line exactly when it is one JSON object with only string values, and the
/// map iterates its entries in ascending key order — in either case a
/// function of the line alone.
#[verifier::external_body]
fn parse_json_line(line: &str) -> (r: Option<Vec<(String, String)>>)
    ensures
        (match r {
            Some(v) => json_object_of(line@) == Some(pairs_view(v@)),
            None => json_object_of(line@) is None,
        }),
{
    match serde_json::from_str::<BTreeMap<String, String>>(line) {
        Ok(m) => Some(m.into_iter().collect()),
        Err(_) => None,
    }
}

/// The first value stored under `key` in an ordered pair list.
pub open spec fn spec_lookup(pairs: Seq<(Seq<char>, Seq<char>)>, key: Seq<char>) -> Option<
    Seq<char>,
>
    decreases pairs.len(),
{
    if pairs.len() == 0 {
        None
    } else if pairs[0].0 == key {
        Some(pairs[0].1)
    } else {
        spec_lookup(pairs.drop_first(), key)
    }
}

proof fn lemma_lookup_skip(pairs: Seq<(Seq<char>, Seq<char>)>, key: Seq<char>, i: int)
    requires
        0 <= i <= pairs.len(),
        forall|j: int| 0 <= j < i ==> (#[trigger] pairs[j]).0 != key,
    ensures
        spec_lookup(pairs, key) == spec_lookup(pairs.skip(i), key),
    decreases i,
{
    if i > 0 {
        assert forall|j: int| 0 <= j < i - 1 implies (#[trigger] pairs.drop_first()[j]).0
            != key by {
            assert(pairs.drop_first()[j] == pairs[j + 1]);
        }
        lemma_lookup_skip(pairs.drop_first(), key, i - 1);
        assert(pairs.drop_first().skip(i - 1) =~= pairs.skip(i));
    } else {
        assert(pairs.skip(0) =~= pairs);
    }
}

/// Finds the first value stored under `key`.
fn lookup(pairs: &Vec<(String, String)>, key: &str) -> (r: Option<String>)
    ensures
        (match r {
            Some(v) => spec_lookup(pairs_view(pairs@), key@) == Some(v@),
            None => spec_lookup(pairs_view(pairs@), key@) is None,
        }),
{
    let owned_key = key.to_owned();
    let mut i: usize = 0;
    while i < pairs.len()
        invariant
            i <= pairs@.len(),
            owned_key@ == key@,
            forall|j: int| 0 <= j < i ==> (#[trigger] pairs_view(pairs@)[j]).0 != key@,
        decreases pairs@.len() - i,
    {
        proof {
            assert(pairs_view(pairs@)[i as int] == (pairs@[i as int].0@, pairs@[i as int].1@));
        }
        if pairs[i].0 == owned_key {
            proof {
                lemma_lookup_skip(pairs_view(pairs@), key@, i as int);
                assert(pairs_view(pairs@).skip(i as int)[0] == pairs_view(pairs@)[i as int]);
                assert(pairs_view(pairs@).skip(i as int).drop_first() =~= pairs_view(
                    pairs@,
                ).skip(i as int + 1));
            }
            return Some(pairs[i].1.clone());
        }
        i = i + 1;
    }
    proof {
        lemma_lookup_skip(pairs_view(pairs@), key@, pairs@.len() as int);
        assert(pairs_view(pairs@).skip(pairs@.len() as int) =~= Seq::<(Seq<char>, Seq<
            char,
        >)>::empty());
    }
    None
}

/// Whether a parsed line holds the required keys `Names` and `State`.
pub open spec fn pairs_have_required(pairs: Seq<(Seq<char>, Seq<char>)>) -> bool {
    &&& spec_lookup(pairs, "Names"@) is Some
    &&& spec_lookup(pairs, "State"@) is Some
}

/// Empty text when the optional key is absent.
pub open spec fn opt_text(v: Option<Seq<char>>) -> Seq<char> {
    match v {
        Some(s) => s,
        None => Seq::empty(),
    }
}

/// The record a parsed line's pairs denote.  `running` holds exactly when
/// the reported state string is `"running"`.
pub open spec fn spec_record_of(pairs: Seq<(Seq<char>, Seq<char>)>) -> ContainerView {
    ContainerView {
        id: opt_text(spec_lookup(pairs, "ID"@)),
        name: opt_text(spec_lookup(pairs, "Names"@)),
        image: opt_text(spec_lookup(pairs, "Image"@)),
        running: opt_text(spec_lookup(pairs, "State"@)) == "running"@,
        status: opt_text(spec_lookup(pairs, "Status"@)),
    }
}

/// Builds the record for one line's pairs; fails when a required key is
/// absent.
fn record_of_pairs(pairs: &Vec<(String, String)>) -> (r: Result<Container, ParseError>)
    ensures
        r is Ok <==> pairs_have_required(pairs_view(pairs@)),
        (r matches Ok(c) ==> c@ == spec_record_of(pairs_view(pairs@))),
        (r matches Err(e) ==> e == ParseError::MissingKey),
{
    let name = match lookup(pairs, "Names") {
        Some(v) => v,
        None => {
            return Err(ParseError::MissingKey);
        },
    };
    let state = match lookup(pairs, "State") {
        Some(v) => v,
        None => {
            return Err(ParseError::MissingKey);
        },
    };
    let id = match lookup(pairs, "ID") {
        Some(v) => v,
        None => String::new(),
    };
    let image = match lookup(pairs, "Image") {
        Some(v) => v,
        None => String::new(),
    };
    let status = match lookup(pairs, "Status") {
        Some(v) => v,
        None => String::new(),
    };
    let running = state == "running".to_owned();
    Ok(Container { id, name, image, running, status })
}

/// Raw split of `s` on newline characters, `cur` being the line read so far.
pub open spec fn split_acc(s: Seq<char>, cur: Seq<char>) -> Seq<Seq<char>>
    decreases s.len(),
{
    if s.len() == 0 {
        seq![cur]
    } else if s[0] == '\n' {
        seq![cur] + split_acc(s.drop_first(), Seq::empty())
    } else {
        split_acc(s.drop_first(), cur.push(s[0]))
    }
}

/// One trailing carriage return removed.
pub open spec fn strip_cr(l: Seq<char>) -> Seq<char> {
    if l.len() > 0 && l.last() == '\r' {
        l.drop_last()
    } else {
        l
    }
}

/// The content lines of the listing output: split on newlines, one trailing
/// carriage return removed from each, empty lines dropped.
pub open spec fn spec_content_lines(s: Seq<char>) -> Seq<Seq<char>> {
    split_acc(s, Seq::empty()).map_values(|l: Seq<char>| strip_cr(l)).filter(
        |l: Seq<char>| l.len() > 0,
    )
}

/// View of a vector of character-vector lines.
pub open spec fn lines_view(v: Seq<Vec<char>>) -> Seq<Seq<char>> {
    v.map_values(|l: Vec<char>| l@)
}

fn split_raw(output: &str) -> (raw: Vec<Vec<char>>)
    ensures
        lines_view(raw@) == split_acc(output@, Seq::<char>::empty()),
{
    let cs = chars_of(output);
    let mut raw: Vec<Vec<char>> = Vec::new();
    let mut cur: Vec<char> = Vec::new();
    let mut i: usize = 0;
    proof {
        assert(output@.skip(0) =~= output@);
    }
    while i < cs.len()
        invariant
            i <= cs@.len(),
            cs@ == output@,
            split_acc(output@, Seq::<char>::empty()) == lines_view(raw@) + split_acc(
                output@.skip(i as int),
                cur@,
            ),
        decreases cs@.len() - i,
    {
        let ghost prev_raw = raw@;
        let ghost prev_cur = cur@;
        let c = cs[i];
        if c == '\n' {
            raw.push(cur);
            cur = Vec::new();
        } else {
            cur.push(c);
        }
        i = i + 1;
        proof {
            let rest = output@.skip(i as int - 1);
            assert(rest[0] == output@[i as int - 1]);
            assert(rest.drop_first() =~= output@.skip(i as int));
            if c == '\n' {
                assert(lines_view(raw@) =~= lines_view(prev_raw).push(prev_cur));
                assert(lines_view(prev_raw) + (seq![prev_cur] + split_acc(
                    output@.skip(i as int),
                    Seq::empty(),
                )) =~= lines_view(raw@) + split_acc(output@.skip(i as int), cur@));
            } else {
                assert(split_acc(rest, prev_cur) == split_acc(
                    output@.skip(i as int),
                    prev_cur.push(c),
                ));
            }
        }
    }
    proof {
        assert(output@.skip(output@.len() as int) =~= Seq::<char>::empty());
    }
    raw.push(cur);
    proof {
        assert(lines_view(raw@) =~= split_acc(output@, Seq::<char>::empty()));
    }
    raw
}

/// Copies a character vector.
fn copy_chars(v: &Vec<char>) -> (r: Vec<char>)
    ensures
        r@ == v@,
{
    let mut r: Vec<char> = Vec::new();
    let mut i: usize = 0;
    while i < v.len()
        invariant
            i <= v@.len(),
            r@ == v@.take(i as int),
        decreases v@.len() - i,
    {
        r.push(v[i]);
        i = i + 1;
        proof {
            assert(r@ =~= v@.take(i as int));
        }
    }
    proof {
        assert(r@ =~= v@);
    }
    r
}

/// Splits the raw output into its content lines.
fn content_lines(output: &str) -> (lines: Vec<Vec<char>>)
    ensures
        lines_view(lines@) == spec_content_lines(output@),
{
    let raw = split_raw(output);
    let ghost raw_views = lines_view(raw@);
    let mut lines: Vec<Vec<char>> = Vec::new();
    let mut i: usize = 0;
    while i < raw.len()
        invariant
            i <= raw@.len(),
            raw_views == lines_view(raw@),
            lines_view(lines@) == raw_views.take(i as int).map_values(
                |l: Seq<char>| strip_cr(l),
            ).filter(|l: Seq<char>| l.len() > 0),
        decreases raw@.len() - i,
    {
        let ghost prev_lines = lines@;
        let mut line = copy_chars(&raw[i]);
        if line.len() > 0 && line[line.len() - 1] == '\r' {
            line.pop();
        }
        proof {
            assert(line@ =~= strip_cr(raw_views[i as int]));
        }
        let keep = line.len() > 0;
        if keep {
            lines.push(line);
        }
        i = i + 1;
        proof {
            let stripped = |l: Seq<char>| strip_cr(l);
            let nonempty = |l: Seq<char>| l.len() > 0;
            let prev_mapped = raw_views.take(i as int - 1).map_values(stripped);
            let mapped = raw_views.take(i as int).map_values(stripped);
            assert(mapped.drop_last() =~= prev_mapped);
            assert(mapped.last() == strip_cr(raw_views[i as int - 1]));
            reveal(Seq::filter);
            if keep {
                assert(lines_view(lines@) =~= lines_view(prev_lines).push(
                    strip_cr(raw_views[i as int - 1]),
                ));
            }
            assert(lines_view(lines@) =~= mapped.filter(nonempty));
        }
    }
    proof {
        assert(raw_views.take(raw_views.len() as int) =~= raw_views);
    }
    lines
}

/// Running records before stopped ones, relative order otherwise kept.
pub open spec fn spec_sort_running(s: Seq<ContainerView>) -> Seq<ContainerView> {
    s.filter(|c: ContainerView| c.running) + s.filter(|c: ContainerView| !c.running)
}

proof fn lemma_filter_partition_len(s: Seq<ContainerView>)
    ensures
        s.filter(|c: ContainerView| c.running).len() + s.filter(
            |c: ContainerView| !c.running,
        ).len() == s.len(),
    decreases s.len(),
{
    reveal(Seq::filter);
    if s.len() > 0 {
        lemma_filter_partition_len(s.drop_last());
    }
}

/// The sorted listing keeps every record, lists the running ones as a prefix
/// and the stopped ones as a suffix, and keeps the relative order within
/// each group: the prefix is the running records in listing order and the
/// suffix the stopped ones.
pub proof fn lemma_sort_running_shape(s: Seq<ContainerView>)
    ensures
        spec_sort_running(s).len() == s.len(),
        forall|k: int|
            0 <= k < s.filter(|c: ContainerView| c.running).len() ==> (#[trigger] spec_sort_running(
                s,
            )[k]).running,
        forall|k: int|
            s.filter(|c: ContainerView| c.running).len() <= k < s.len() ==> !(
            #[trigger] spec_sort_running(s)[k]).running,
        forall|i: int, j: int|
            0 <= i < j < s.len() ==> ((#[trigger] spec_sort_running(s)[i]).running || !(
            #[trigger] spec_sort_running(s)[j]).running),
{
    broadcast use vstd::seq_lib::group_seq_properties;

    let run = s.filter(|c: ContainerView| c.running);
    let stop = s.filter(|c: ContainerView| !c.running);
    lemma_filter_partition_len(s);
    assert forall|k: int| 0 <= k < run.len() implies (#[trigger] spec_sort_running(
        s,
    )[k]).running by {
        s.lemma_filter_pred(|c: ContainerView| c.running, k);
        assert(spec_sort_running(s)[k] == run[k]);
    }
    assert forall|k: int| run.len() <= k < s.len() implies !(#[trigger] spec_sort_running(
        s,
    )[k]).running by {
        s.lemma_filter_pred(|c: ContainerView| !c.running, k - run.len());
        assert(spec_sort_running(s)[k] == stop[k - run.len()]);
    }
}

/// Stable partition of the records: running containers first, stopped ones
/// after, relative order preserved within each group.
fn sort_running(v: &Vec<Container>) -> (r: Vec<Container>)
    ensures
        views_of(r@) == spec_sort_running(views_of(v@)),
{
    let mut run: Vec<Container> = Vec::new();
    let mut stop: Vec<Container> = Vec::new();
    let mut i: usize = 0;
    while i < v.len()
        invariant
            i <= v@.len(),
            views_of(run@) == views_of(v@).take(i as int).filter(|c: ContainerView| c.running),
            views_of(stop@) == views_of(v@).take(i as int).filter(|c: ContainerView| !c.running),
        decreases v@.len() - i,
    {
        let ghost prev_run = run@;
        let ghost prev_stop = stop@;
        let c = v[i].duplicate();
        let is_running = c.running;
        if is_running {
            run.push(c);
        } else {
            stop.push(c);
        }
        i = i + 1;
        proof {
            let taken = views_of(v@).take(i as int);
            assert(taken.drop_last() =~= views_of(v@).take(i as int - 1));
            assert(taken.last() == views_of(v@)[i as int - 1]);
            reveal(Seq::filter);
            if is_running {
                assert(views_of(run@) =~= views_of(prev_run).push(views_of(v@)[i as int - 1]));
                assert(views_of(stop@) =~= views_of(prev_stop));
            } else {
                assert(views_of(run@) =~= views_of(prev_run));
                assert(views_of(stop@) =~= views_of(prev_stop).push(views_of(v@)[i as int - 1]));
            }
        }
    }
    proof {
        assert(views_of(v@).take(v@.len() as int) =~= views_of(v@));
    }
    let ghost run_views = views_of(run@);
    let ghost stop_views = views_of(stop@);
    run.append(&mut stop);
    proof {
        assert(views_of(run@) =~= run_views + stop_views);
    }
    run
}

/// Whether one content line parses and holds the required keys.
pub open spec fn line_ok(l: Seq<char>) -> bool {
    &&& json_object_of(l) is Some
    &&& pairs_have_required(json_object_of(l)->Some_0)
}

/// Whether every content line of the output is parseable.
pub open spec fn all_lines_ok(s: Seq<char>) -> bool {
    forall|i: int|
        0 <= i < spec_content_lines(s).len() ==> line_ok(#[trigger] spec_content_lines(s)[i])
}

/// The record one content line denotes.
pub open spec fn spec_line_record(l: Seq<char>) -> ContainerView {
    spec_record_of(json_object_of(l)->Some_0)
}

/// The records of the content lines, in listing order.
pub open spec fn spec_records(s: Seq<char>) -> Seq<ContainerView> {
    spec_content_lines(s).map_values(|l: Seq<char>| spec_line_record(l))
}

/// What a successful parse returns: one record per content line, running
/// containers sorted stably before stopped ones.
pub open spec fn spec_parse(s: Seq<char>) -> Seq<ContainerView> {
    spec_sort_running(spec_records(s))
}

/// The failure of one unparseable line.
pub open spec fn spec_line_err(l: Seq<char>) -> ParseError {
    if json_object_of(l) is None {
        ParseError::InvalidJson
    } else {
        ParseError::MissingKey
    }
}

/// The failure of the first unparseable line, scanning in order.
pub open spec fn spec_parse_err(lines: Seq<Seq<char>>) -> ParseError
    decreases lines.len(),
{
    if lines.len() == 0 {
        ParseError::InvalidJson
    } else if !line_ok(lines[0]) {
        spec_line_err(lines[0])
    } else {
        spec_parse_err(lines.drop_first())
    }
}

proof fn lemma_parse_err_at(lines: Seq<Seq<char>>, i: int)
    requires
        0 <= i < lines.len(),
        forall|j: int| 0 <= j < i ==> line_ok(#[trigger] lines[j]),
        !line_ok(lines[i]),
    ensures
        spec_parse_err(lines) == spec_line_err(lines[i]),
    decreases i,
{
    if i > 0 {
        assert forall|j: int| 0 <= j < i - 1 implies line_ok(#[trigger] lines.drop_first()[j]) by {
            assert(lines.drop_first()[j] == lines[j + 1]);
        }
        assert(lines.drop_first()[i - 1] == lines[i]);
        lemma_parse_err_at(lines.drop_first(), i - 1);
    }
}

/// Parses the engine's line-delimited JSON listing.
///
/// Succeeds exactly when every content line is one JSON object of string
/// fields holding the required keys `Names` and `State`; the result then has
/// one record per line, running containers sorted stably before stopped
/// ones.  On any bad line the whole refresh fails with that line's error: no
/// partial list is ever produced.
pub fn parse_docker_containers(output: &str) -> (r: Result<Vec<Container>, ParseError>)
    ensures
        r is Ok <==> all_lines_ok(output@),
        (r matches Ok(v) ==> views_of(v@) == spec_parse(output@)),
        (r matches Err(e) ==> e == spec_parse_err(spec_content_lines(output@))),
{
    let lines = content_lines(output);
    let ghost line_seq = spec_content_lines(output@);
    let mut records: Vec<Container> = Vec::new();
    let mut i: usize = 0;
    while i < lines.len()
        invariant
            i <= lines@.len(),
            lines_view(lines@) == line_seq,
            line_seq == spec_content_lines(output@),
            forall|j: int| 0 <= j < i ==> line_ok(#[trigger] line_seq[j]),
            views_of(records@) == line_seq.take(i as int).map_values(
                |l: Seq<char>| spec_line_record(l),
            ),
        decreases lines@.len() - i,
    {
        let ghost prev_records = records@;
        let line_str = string_from_chars(&lines[i]);
        proof {
            assert(line_str@ == line_seq[i as int]);
        }
        match parse_json_line(line_str.as_str()) {
            None => {
                proof {
                    lemma_parse_err_at(line_seq, i as int);
                }
                return Err(ParseError::InvalidJson);
            },
            Some(pairs) => {
                match record_of_pairs(&pairs) {
                    Err(_) => {
                        proof {
                            lemma_parse_err_at(line_seq, i as int);
                        }
                        return Err(ParseError::MissingKey);
                    },
                    Ok(c) => {
                        proof {
                            assert(json_object_of(line_seq[i as int])->Some_0 == pairs_view(
                                pairs@,
                            ));
                            assert(c@ == spec_line_record(line_seq[i as int]));
                        }
                        records.push(c);
                        proof {
                            assert(views_of(records@) =~= views_of(prev_records).push(
                                spec_line_record(line_seq[i as int]),
                            ));
                        }
                    },
                }
            },
        }
        i = i + 1;
        proof {
            let rec_of = |l: Seq<char>| spec_line_record(l);
            let mapped = line_seq.take(i as int).map_values(rec_of);
            let prev_mapped = line_seq.take(i as int - 1).map_values(rec_of);
            assert forall|j: int| 0 <= j < i as int implies mapped[j] == spec_line_record(
                line_seq[j],
            ) by {
                assert(line_seq.take(i as int)[j] == line_seq[j]);
            }
            assert forall|j: int| 0 <= j < i as int - 1 implies views_of(prev_records)[j]
                == spec_line_record(line_seq[j]) by {
                assert(views_of(prev_records)[j] == prev_mapped[j]);
                assert(line_seq.take(i as int - 1)[j] == line_seq[j]);
            }
            assert(views_of(records@) =~= mapped);
        }
    }
    proof {
        assert(line_seq.take(line_seq.len() as int) =~= line_seq);
        assert(views_of(records@) =~= spec_records(output@));
    }
    Ok(sort_running(&records))
}

} // verus!
