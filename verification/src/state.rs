//! The interactive list controller: one state machine over the authoritative
//! container list, the search query, the derived filtered view and the
//! selection, driven by key input and command-completion events.

use vstd::prelude::*;

use crate::container::{Container, ContainerView, views_of};
use crate::docker::{
    self, all_lines_ok, argv_view, spec_content_lines, spec_list_argv, spec_parse, spec_parse_err,
    CommandTag, DockerCommand, ParseError,
};
use crate::search::{filtered_containers, spec_filtered};

verus! {

/// A key press, as the host delivers it.
#[derive(Debug, Clone, Copy, PartialEq, Eq)]
pub enum KeyInput {
    /// Move the selection to the previous entry.
    Up,
    /// Move the selection to the next entry.
    Down,
    /// Re-issue the listing command.
    Refresh,
    /// Start the selected container.
    Start,
    /// Remove the selected container.
    Delete,
    /// Stop the selected container.
    Stop,
    /// Delete the last query character.
    Backspace,
    /// Follow the selected container's logs in a new pane.
    Enter,
    /// Append a printable character to the query.
    Char(char),
    /// Close the plugin surface.
    Close,
    /// Any other key: no state change.
    Other,
}

/// A completed engine command, as the host delivers it.  An output stream is
/// `None` when its bytes were not valid text.
#[derive(Debug, Clone, PartialEq, Eq)]
pub struct CommandResult {
    pub exit_code: Option<i32>,
    pub stdout: Option<String>,
    pub stderr: Option<String>,
    pub tag: Option<CommandTag>,
}

/// The value of a completion event.
pub struct CommandResultView {
    pub exit_code: Option<i32>,
    pub stdout: Option<Seq<char>>,
    pub stderr: Option<Seq<char>>,
    pub tag: Option<CommandTag>,
}

/// View of an optional owned string.
pub open spec fn opt_str_view(s: Option<String>) -> Option<Seq<char>> {
    match s {
        Some(x) => Some(x@),
        None => None,
    }
}

impl View for CommandResult {
    type V = CommandResultView;

    open spec fn view(&self) -> CommandResultView {
        CommandResultView {
            exit_code: self.exit_code,
            stdout: opt_str_view(self.stdout),
            stderr: opt_str_view(self.stderr),
            tag: self.tag,
        }
    }
}

/// An inbound event for the controller.
pub enum PluginEvent {
    /// A key press.
    Key(KeyInput),
    /// A command completion.
    CommandResult(CommandResult),
}

/// The value of an inbound event.
pub enum PluginEventView {
    Key(KeyInput),
    CommandResult(CommandResultView),
}

impl View for PluginEvent {
    type V = PluginEventView;

    open spec fn view(&self) -> PluginEventView {
        match self {
            PluginEvent::Key(k) => PluginEventView::Key(*k),
            PluginEvent::CommandResult(c) => PluginEventView::CommandResult(c@),
        }
    }
}

/// What the controller asks the host shell to do in response to an event.
#[derive(Debug, Clone, PartialEq, Eq)]
pub enum Action {
    /// Run the command and report its completion later.
    Run(DockerCommand),
    /// Open an interactive pane running the argv.
    OpenPane(Vec<String>),
    /// Close the plugin surface.
    Close,
}

/// The value of a requested action.
pub enum ActionView {
    Run(Seq<Seq<char>>, CommandTag),
    OpenPane(Seq<Seq<char>>),
    Close,
}

impl View for Action {
    type V = ActionView;

    open spec fn view(&self) -> ActionView {
        match self {
            Action::Run(c) => ActionView::Run(argv_view(c.argv@), c.tag),
            Action::OpenPane(argv) => ActionView::OpenPane(argv_view(argv@)),
            Action::Close => ActionView::Close,
        }
    }
}

/// View of an optional action.
pub open spec fn opt_action_view(a: Option<Action>) -> Option<ActionView> {
    match a {
        Some(x) => Some(x@),
        None => None,
    }
}

/// The outcome of one event: whether a re-render is warranted, and what the
/// host should do.
pub struct Outcome {
    pub should_render: bool,
    pub action: Option<Action>,
}

/// The interactive list controller's state.
pub struct State {
    /// When set, fully replaces normal rendering until the next success.
    pub error_message: Option<String>,
    /// Whether the initial listing request has been issued.
    pub init: bool,
    /// The authoritative list, replaced wholesale on each successful refresh.
    pub containers: Vec<Container>,
    /// The derived filtered view, recomputed every render pass.
    pub filtered_containers: Vec<Container>,
    /// The free-text search query, edited character by character.
    pub search_query: Vec<char>,
    /// Guards against overlapping initial-load requests.
    pub containers_loading: bool,
    /// The highlighted container, tracked by name.
    pub selected_container: Option<String>,
}

/// The value of the controller's state.
#[verifier::ext_equal]
pub struct StateView {
    pub error_message: Option<Seq<char>>,
    pub init: bool,
    pub containers: Seq<ContainerView>,
    pub filtered: Seq<ContainerView>,
    pub query: Seq<char>,
    pub loading: bool,
    pub selected: Option<Seq<char>>,
}

impl View for State {
    type V = StateView;

    open spec fn view(&self) -> StateView {
        StateView {
            error_message: opt_str_view(self.error_message),
            init: self.init,
            containers: views_of(self.containers@),
            filtered: views_of(self.filtered_containers@),
            query: self.search_query@,
            loading: self.containers_loading,
            selected: opt_str_view(self.selected_container),
        }
    }
}

/// The first position bearing the name, if any.
pub open spec fn spec_first_match(filtered: Seq<ContainerView>, name: Seq<char>) -> Option<int>
    decreases filtered.len(),
{
    if filtered.len() == 0 {
        None
    } else if filtered[0].name == name {
        Some(0)
    } else {
        match spec_first_match(filtered.drop_first(), name) {
            Some(i) => Some(i + 1),
            None => None,
        }
    }
}

/// The selection's position in the filtered view: the first entry bearing
/// the selected name, position 0 when nothing is selected or the name is
/// gone.
pub open spec fn spec_position(filtered: Seq<ContainerView>, sel: Option<Seq<char>>) -> int {
    match sel {
        None => 0,
        Some(name) => match spec_first_match(filtered, name) {
            Some(i) => i,
            None => 0,
        },
    }
}

pub proof fn lemma_first_match_bounds(filtered: Seq<ContainerView>, name: Seq<char>)
    ensures
        (match spec_first_match(filtered, name) {
            Some(i) => 0 <= i < filtered.len() && filtered[i].name == name,
            None => true,
        }),
    decreases filtered.len(),
{
    if filtered.len() > 0 && filtered[0].name != name {
        lemma_first_match_bounds(filtered.drop_first(), name);
    }
}

/// The position is always in range when the view is non-empty, and 0 else.
pub proof fn lemma_position_bounds(filtered: Seq<ContainerView>, sel: Option<Seq<char>>)
    ensures
        0 <= spec_position(filtered, sel),
        spec_position(filtered, sel) > 0 ==> spec_position(filtered, sel) < filtered.len(),
{
    match sel {
        None => {},
        Some(name) => {
            lemma_first_match_bounds(filtered, name);
        },
    }
}

proof fn lemma_first_match_at(filtered: Seq<ContainerView>, name: Seq<char>, j: int)
    requires
        0 <= j < filtered.len(),
        filtered[j].name == name,
        forall|k: int| 0 <= k < j ==> (#[trigger] filtered[k]).name != name,
    ensures
        spec_first_match(filtered, name) == Some(j),
    decreases j,
{
    if j > 0 {
        assert forall|k: int| 0 <= k < j - 1 implies (#[trigger] filtered.drop_first()[k]).name
            != name by {
            assert(filtered.drop_first()[k] == filtered[k + 1]);
        }
        assert(filtered.drop_first()[j - 1] == filtered[j]);
        lemma_first_match_at(filtered.drop_first(), name, j - 1);
    }
}

proof fn lemma_first_match_none(filtered: Seq<ContainerView>, name: Seq<char>)
    requires
        forall|k: int| 0 <= k < filtered.len() ==> (#[trigger] filtered[k]).name != name,
    ensures
        spec_first_match(filtered, name) is None,
    decreases filtered.len(),
{
    if filtered.len() > 0 {
        assert forall|k: int|
            0 <= k < filtered.drop_first().len() implies (#[trigger] filtered.drop_first()[k]).name
            != name by {
            assert(filtered.drop_first()[k] == filtered[k + 1]);
        }
        lemma_first_match_none(filtered.drop_first(), name);
    }
}

/// Finds the selection's position in the filtered view.
fn position_of(filtered: &Vec<Container>, sel: &Option<String>) -> (p: usize)
    ensures
        p as int == spec_position(views_of(filtered@), opt_str_view(*sel)),
{
    broadcast use crate::container::lemma_views_of_len, crate::container::lemma_views_of_index;

    let ghost fv = views_of(filtered@);
    let name = match sel {
        None => {
            return 0;
        },
        Some(n) => n,
    };
    let mut j: usize = 0;
    while j < filtered.len()
        invariant
            j <= filtered@.len(),
            fv == views_of(filtered@),
            opt_str_view(*sel) == Some(name@),
            forall|k: int| 0 <= k < j ==> (#[trigger] fv[k]).name != name@,
        decreases filtered@.len() - j,
    {
        if filtered[j].name == *name {
            proof {
                lemma_first_match_at(fv, name@, j as int);
            }
            return j;
        }
        j = j + 1;
    }
    proof {
        lemma_first_match_none(fv, name@);
    }
    0
}

/// Whether some entry of the filtered view bears the name.
pub open spec fn spec_has_name(filtered: Seq<ContainerView>, name: Seq<char>) -> bool {
    exists|k: int| 0 <= k < filtered.len() && (#[trigger] filtered[k]).name == name
}

/// The first entry's name, if the view is non-empty.
pub open spec fn spec_first_name(filtered: Seq<ContainerView>) -> Option<Seq<char>> {
    if filtered.len() > 0 {
        Some(filtered[0].name)
    } else {
        None
    }
}

/// The reconciled selection: kept when its name is still listed, else the
/// first entry's name, else nothing.
pub open spec fn spec_reconcile(filtered: Seq<ContainerView>, sel: Option<Seq<char>>) -> Option<
    Seq<char>,
> {
    match sel {
        Some(name) => if spec_has_name(filtered, name) {
            Some(name)
        } else {
            spec_first_name(filtered)
        },
        None => spec_first_name(filtered),
    }
}

/// Reconciles a prior selection against a freshly filtered view.
pub fn get_selected_container(
    selected_container: &Option<String>,
    filtered_containers: &Vec<Container>,
) -> (r: Option<String>)
    ensures
        opt_str_view(r) == spec_reconcile(
            views_of(filtered_containers@),
            opt_str_view(*selected_container),
        ),
{
    broadcast use crate::container::lemma_views_of_len, crate::container::lemma_views_of_index;

    let ghost fv = views_of(filtered_containers@);
    let name = match selected_container {
        None => {
            if filtered_containers.len() > 0 {
                return Some(filtered_containers[0].name.clone());
            }
            return None;
        },
        Some(n) => n,
    };
    let mut j: usize = 0;
    while j < filtered_containers.len()
        invariant
            j <= filtered_containers@.len(),
            fv == views_of(filtered_containers@),
            opt_str_view(*selected_container) == Some(name@),
            forall|k: int| 0 <= k < j ==> (#[trigger] fv[k]).name != name@,
        decreases filtered_containers@.len() - j,
    {
        if filtered_containers[j].name == *name {
            proof {
                assert(fv[j as int].name == name@);
                assert(spec_has_name(fv, name@));
            }
            return Some(name.clone());
        }
        j = j + 1;
    }
    proof {
        assert(!spec_has_name(fv, name@));
    }
    if filtered_containers.len() > 0 {
        Some(filtered_containers[0].name.clone())
    } else {
        None
    }
}

/// The error text a failed completion displays: the captured standard error,
/// or a fixed note when its bytes were not text.
pub open spec fn spec_error_text(stderr: Option<Seq<char>>) -> Seq<char> {
    match stderr {
        Some(s) => s,
        None => "command produced undecodable output"@,
    }
}

/// The error text an unparseable listing displays.
pub open spec fn spec_parse_error_text(e: ParseError) -> Seq<char> {
    match e {
        ParseError::InvalidJson => "container list was not valid line-delimited JSON"@,
        ParseError::MissingKey => "container list line was missing a required key"@,
    }
}

/// The state machine's answer to a key press.
pub open spec fn spec_update_key(o: StateView, k: KeyInput) -> (StateView, bool, Option<
    ActionView,
>) {
    match k {
        KeyInput::Up => {
            let p = spec_position(o.filtered, o.selected);
            if p == 0 {
                (o, false, None)
            } else {
                (
                    StateView { selected: Some(o.filtered[p - 1].name), ..o },
                    true,
                    None,
                )
            }
        },
        KeyInput::Down => {
            let p = spec_position(o.filtered, o.selected);
            if o.filtered.len() == 0 || p == o.filtered.len() - 1 {
                (o, false, None)
            } else {
                (
                    StateView { selected: Some(o.filtered[p + 1].name), ..o },
                    true,
                    None,
                )
            }
        },
        KeyInput::Refresh => (
            StateView { loading: true, ..o },
            false,
            Some(ActionView::Run(spec_list_argv(), CommandTag::Ps)),
        ),
        KeyInput::Start => (
            o,
            false,
            match o.selected {
                Some(n) => Some(
                    ActionView::Run(seq!["docker"@, "start"@, n], CommandTag::Start),
                ),
                None => None,
            },
        ),
        KeyInput::Delete => (
            o,
            false,
            match o.selected {
                Some(n) => Some(ActionView::Run(seq!["docker"@, "rm"@, n], CommandTag::Delete)),
                None => None,
            },
        ),
        KeyInput::Stop => (
            o,
            false,
            match o.selected {
                Some(n) => Some(ActionView::Run(seq!["docker"@, "stop"@, n], CommandTag::Stop)),
                None => None,
            },
        ),
        KeyInput::Backspace => {
            if o.query.len() == 0 {
                (o, false, None)
            } else {
                (StateView { query: o.query.drop_last(), ..o }, true, None)
            }
        },
        KeyInput::Enter => (
            o,
            false,
            match o.selected {
                Some(n) => Some(ActionView::OpenPane(seq!["docker"@, "logs"@, "-f"@, n])),
                None => None,
            },
        ),
        KeyInput::Char(c) => (StateView { query: o.query.push(c), ..o }, true, None),
        KeyInput::Close => (o, false, Some(ActionView::Close)),
        KeyInput::Other => (o, false, None),
    }
}

/// The state machine's answer to a command completion.  A non-zero or
/// missing exit code always wins and displays the captured standard error; a
/// success clears any displayed error; a successful lifecycle command asks
/// for a follow-up refresh; a successful listing replaces the authoritative
/// list when it parses and displays the parse failure when it does not.
pub open spec fn spec_update_result(o: StateView, c: CommandResultView) -> (StateView, bool, Option<
    ActionView,
>) {
    if c.exit_code != Some(0i32) {
        (StateView { error_message: Some(spec_error_text(c.stderr)), ..o }, true, None)
    } else {
        match c.tag {
            Some(CommandTag::Start) | Some(CommandTag::Stop) | Some(CommandTag::Delete) => (
                StateView { error_message: None, ..o },
                o.error_message is Some,
                Some(ActionView::Run(spec_list_argv(), CommandTag::Ps)),
            ),
            Some(CommandTag::Ps) => match c.stdout {
                None => (
                    StateView {
                        error_message: Some("command produced undecodable output"@),
                        ..o
                    },
                    true,
                    None,
                ),
                Some(out) => {
                    if all_lines_ok(out) {
                        (
                            StateView {
                                containers: spec_parse(out),
                                loading: false,
                                error_message: None,
                                ..o
                            },
                            true,
                            None,
                        )
                    } else {
                        (
                            StateView {
                                error_message: Some(
                                    spec_parse_error_text(spec_parse_err(spec_content_lines(out))),
                                ),
                                ..o
                            },
                            true,
                            None,
                        )
                    }
                },
            },
            None => (StateView { error_message: None, ..o }, o.error_message is Some, None),
        }
    }
}

/// The state machine: one event in, the next state, the re-render flag and
/// the requested host action out.
pub open spec fn spec_update(o: StateView, e: PluginEventView) -> (StateView, bool, Option<
    ActionView,
>) {
    match e {
        PluginEventView::Key(k) => spec_update_key(o, k),
        PluginEventView::CommandResult(c) => spec_update_result(o, c),
    }
}

/// Navigation boundary: "previous" at the top, and "next" at the bottom or
/// on an empty view, leave the state unchanged, ask for nothing, and signal
/// no re-render.
pub proof fn lemma_navigation_boundary(o: StateView)
    ensures
        spec_position(o.filtered, o.selected) == 0 ==> spec_update(
            o,
            PluginEventView::Key(KeyInput::Up),
        ) == (o, false, None::<ActionView>),
        (o.filtered.len() == 0 || spec_position(o.filtered, o.selected) == o.filtered.len() - 1)
            ==> spec_update(o, PluginEventView::Key(KeyInput::Down)) == (
            o,
            false,
            None::<ActionView>,
        ),
{
}

impl Default for State {
    /// A fresh controller: empty list and query, nothing selected, nothing
    /// loading, no error.
    fn default() -> (s: State)
        ensures
            s@ == (StateView {
                error_message: None,
                init: false,
                containers: Seq::empty(),
                filtered: Seq::empty(),
                query: Seq::empty(),
                loading: false,
                selected: None,
            }),
    {
        let s = State {
            error_message: None,
            init: false,
            containers: Vec::new(),
            filtered_containers: Vec::new(),
            search_query: Vec::new(),
            containers_loading: false,
            selected_container: None,
        };
        proof {
            assert(views_of(s.containers@) =~= Seq::<ContainerView>::empty());
            assert(views_of(s.filtered_containers@) =~= Seq::<ContainerView>::empty());
        }
        s
    }
}

impl State {
    /// Resets the list, the query and the load flags, as plugin start does;
    /// a displayed error and the selection are left for reconciliation.
    pub fn load(&mut self)
        ensures
            final(self)@ == (StateView {
                containers: Seq::empty(),
                filtered: Seq::empty(),
                query: Seq::empty(),
                loading: false,
                init: false,
                ..old(self)@
            }),
    {
        self.containers = Vec::new();
        self.containers_loading = false;
        self.init = false;
        self.search_query = Vec::new();
        self.filtered_containers = Vec::new();
        proof {
            assert(views_of(self.containers@) =~= Seq::<ContainerView>::empty());
            assert(views_of(self.filtered_containers@) =~= Seq::<ContainerView>::empty());
            assert(self@ =~= (StateView {
                containers: Seq::empty(),
                filtered: Seq::empty(),
                query: Seq::empty(),
                loading: false,
                init: false,
                ..old(self)@
            }));
        }
    }

    /// Reacts to one inbound event, as the state machine prescribes.
    pub fn update(&mut self, event: PluginEvent) -> (r: Outcome)
        ensures
            final(self)@ == spec_update(old(self)@, event@).0,
            r.should_render == spec_update(old(self)@, event@).1,
            opt_action_view(r.action) == spec_update(old(self)@, event@).2,
    {
        let ghost o = self@;
        let ghost ev = event@;
        match event {
            PluginEvent::CommandResult(result) => self.update_result(result),
            PluginEvent::Key(key) => self.update_key(key),
        }
    }

    fn update_key(&mut self, key: KeyInput) -> (r: Outcome)
        ensures
            final(self)@ == spec_update_key(old(self)@, key).0,
            r.should_render == spec_update_key(old(self)@, key).1,
            opt_action_view(r.action) == spec_update_key(old(self)@, key).2,
    {
        broadcast use crate::container::lemma_views_of_len, crate::container::lemma_views_of_index;

        let ghost o = self@;
        match key {
            KeyInput::Up => {
                let p = position_of(&self.filtered_containers, &self.selected_container);
                proof {
                    lemma_position_bounds(o.filtered, o.selected);
                }
                if p == 0 {
                    return Outcome { should_render: false, action: None };
                }
                self.selected_container = Some(self.filtered_containers[p - 1].name.clone());
                proof {
                    assert(self@ =~= spec_update_key(o, key).0);
                }
                Outcome { should_render: true, action: None }
            },
            KeyInput::Down => {
                let p = position_of(&self.filtered_containers, &self.selected_container);
                proof {
                    lemma_position_bounds(o.filtered, o.selected);
                }
                if self.filtered_containers.len() == 0 || p == self.filtered_containers.len() - 1 {
                    return Outcome { should_render: false, action: None };
                }
                self.selected_container = Some(self.filtered_containers[p + 1].name.clone());
                proof {
                    assert(self@ =~= spec_update_key(o, key).0);
                }
                Outcome { should_render: true, action: None }
            },
            KeyInput::Refresh => {
                self.containers_loading = true;
                proof {
                    assert(self@ =~= spec_update_key(o, key).0);
                }
                Outcome {
                    should_render: false,
                    action: Some(Action::Run(docker::request_docker_containers())),
                }
            },
            KeyInput::Start => {
                let action = match &self.selected_container {
                    Some(name) => Some(Action::Run(docker::start_container(name.as_str()))),
                    None => None,
                };
                Outcome { should_render: false, action }
            },
            KeyInput::Delete => {
                let action = match &self.selected_container {
                    Some(name) => Some(Action::Run(docker::delete_container(name.as_str()))),
                    None => None,
                };
                Outcome { should_render: false, action }
            },
            KeyInput::Stop => {
                let action = match &self.selected_container {
                    Some(name) => Some(Action::Run(docker::close_container(name.as_str()))),
                    None => None,
                };
                Outcome { should_render: false, action }
            },
            KeyInput::Backspace => {
                if self.search_query.len() == 0 {
                    return Outcome { should_render: false, action: None };
                }
                self.search_query.pop();
                proof {
                    assert(self@ =~= spec_update_key(o, key).0);
                }
                Outcome { should_render: true, action: None }
            },
            KeyInput::Enter => {
                let action = match &self.selected_container {
                    Some(name) => Some(Action::OpenPane(docker::open_container(name.as_str()))),
                    None => None,
                };
                Outcome { should_render: false, action }
            },
            KeyInput::Char(c) => {
                self.search_query.push(c);
                proof {
                    assert(self@ =~= spec_update_key(o, key).0);
                }
                Outcome { should_render: true, action: None }
            },
            KeyInput::Close => Outcome { should_render: false, action: Some(Action::Close) },
            KeyInput::Other => Outcome { should_render: false, action: None },
        }
    }

    fn update_result(&mut self, result: CommandResult) -> (r: Outcome)
        ensures
            final(self)@ == spec_update_result(old(self)@, result@).0,
            r.should_render == spec_update_result(old(self)@, result@).1,
            opt_action_view(r.action) == spec_update_result(old(self)@, result@).2,
    {
        let ghost o = self@;
        let ghost rv = result@;
        let ok = match result.exit_code {
            Some(code) => code == 0,
            None => false,
        };
        if !ok {
            let message = match result.stderr {
                Some(s) => s,
                None => "command produced undecodable output".to_owned(),
            };
            self.error_message = Some(message);
            proof {
                assert(self@ =~= spec_update_result(o, rv).0);
            }
            return Outcome { should_render: true, action: None };
        }
        let had_error = self.error_message.is_some();
        match result.tag {
            Some(CommandTag::Start) | Some(CommandTag::Stop) | Some(CommandTag::Delete) => {
                self.error_message = None;
                proof {
                    assert(self@ =~= spec_update_result(o, rv).0);
                }
                Outcome {
                    should_render: had_error,
                    action: Some(Action::Run(docker::request_docker_containers())),
                }
            },
            Some(CommandTag::Ps) => {
                let out = match result.stdout {
                    Some(s) => s,
                    None => {
                        self.error_message = Some(
                            "command produced undecodable output".to_owned(),
                        );
                        proof {
                            assert(self@ =~= spec_update_result(o, rv).0);
                        }
                        return Outcome { should_render: true, action: None };
                    },
                };
                match docker::parse_docker_containers(out.as_str()) {
                    Ok(list) => {
                        self.containers = list;
                        self.containers_loading = false;
                        self.error_message = None;
                        proof {
                            assert(self@ =~= spec_update_result(o, rv).0);
                        }
                        Outcome { should_render: true, action: None }
                    },
                    Err(e) => {
                        let message = match e {
                            ParseError::InvalidJson => {
                                "container list was not valid line-delimited JSON".to_owned()
                            },
                            ParseError::MissingKey => {
                                "container list line was missing a required key".to_owned()
                            },
                        };
                        self.error_message = Some(message);
                        proof {
                            assert(self@ =~= spec_update_result(o, rv).0);
                        }
                        Outcome { should_render: true, action: None }
                    },
                }
            },
            None => {
                self.error_message = None;
                proof {
                    assert(self@ =~= spec_update_result(o, rv).0);
                }
                Outcome { should_render: had_error, action: None }
            },
        }
    }

    /// What a render pass computes before drawing: the filtered view and
    /// the reconciled selection, plus the one-time initial listing request.
    pub open spec fn spec_prepare(o: StateView) -> (StateView, bool) {
        if o.error_message is Some {
            (o, false)
        } else {
            let f = spec_filtered(o.containers, o.query);
            let run = !o.init && !o.loading;
            (
                StateView {
                    filtered: f,
                    selected: spec_reconcile(f, o.selected),
                    init: o.init || run,
                    loading: o.loading || run,
                    ..o
                },
                run,
            )
        }
    }

    /// Recomputes the filtered view and reconciles the selection; returns
    /// the initial listing command the first time through.  A displayed
    /// error suspends all of it.
    pub fn prepare_render(&mut self) -> (r: Option<DockerCommand>)
        ensures
            final(self)@ == State::spec_prepare(old(self)@).0,
            r is Some <==> State::spec_prepare(old(self)@).1,
            (r matches Some(c) ==> argv_view(c.argv@) == spec_list_argv() && c.tag
                == CommandTag::Ps),
    {
        let ghost o = self@;
        if self.error_message.is_some() {
            return None;
        }
        self.filtered_containers = filtered_containers(&self.containers, &self.search_query);
        let mut request: Option<DockerCommand> = None;
        if !self.init && !self.containers_loading {
            request = Some(docker::request_docker_containers());
            self.containers_loading = true;
            self.init = true;
        }
        self.selected_container = get_selected_container(
            &self.selected_container,
            &self.filtered_containers,
        );
        proof {
            assert(self@ =~= State::spec_prepare(o).0);
        }
        request
    }
}

} // verus!

