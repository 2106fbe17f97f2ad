//! Pure computation of everything a render pass draws: the search line, the
//! two container tables with their counts, the help footer and the error
//! line.  Placing the pieces on screen is left to the host shell.

use vstd::prelude::*;

use crate::container::{spec_row, Container, ContainerView, views_of};
use crate::strutil::{push_chars_of, string_from_chars};

verus! {

/// One table row: its cells and whether it is the highlighted entry.
pub struct TableRow {
    pub cells: Vec<String>,
    pub selected: bool,
}

/// The value of a table row.
pub struct TableRowView {
    pub cells: Seq<Seq<char>>,
    pub selected: bool,
}

impl View for TableRow {
    type V = TableRowView;

    open spec fn view(&self) -> TableRowView {
        TableRowView { cells: self.cells@.map_values(|s: String| s@), selected: self.selected }
    }
}

/// The views of a sequence of table rows.
pub open spec fn rows_view(s: Seq<TableRow>) -> Seq<TableRowView> {
    s.map_values(|r: TableRow| r@)
}

/// A row sequence's views index as the sequence does.
pub broadcast proof fn lemma_rows_view_len(s: Seq<TableRow>)
    ensures
        (#[trigger] rows_view(s)).len() == s.len(),
{
}

/// The view at an index is the index's row's view.
pub broadcast proof fn lemma_rows_view_index(s: Seq<TableRow>, k: int)
    requires
        0 <= k < s.len(),
    ensures
        (#[trigger] rows_view(s)[k]) == s[k]@,
{
}

/// The header cells of a containers table.
pub open spec fn spec_header_row() -> TableRowView {
    TableRowView {
        cells: seq!["ID"@, " "@, "Name"@, " "@, "Image"@, " "@, "Status"@],
        selected: false,
    }
}

/// Whether the entry is the highlighted one.
pub open spec fn spec_selected(c: ContainerView, sel: Option<Seq<char>>) -> bool {
    sel == Some(c.name)
}

/// Whether an entry belongs to the table of the given running state.
pub open spec fn spec_run_pred(active: bool) -> spec_fn(ContainerView) -> bool {
    |c: ContainerView| c.running == active
}

/// The row an entry renders to, under the given selection.
pub open spec fn spec_row_of(sel: Option<Seq<char>>) -> spec_fn(ContainerView) -> TableRowView {
    |c: ContainerView| TableRowView { cells: spec_row(c), selected: spec_selected(c, sel) }
}

/// The rows of the table for entries of the given running state: the header
/// first, then one row per matching entry, in filtered order, each flagged
/// when it carries the selected name.
pub open spec fn spec_table(
    filtered: Seq<ContainerView>,
    sel: Option<Seq<char>>,
    active: bool,
) -> Seq<TableRowView> {
    seq![spec_header_row()] + filtered.filter(spec_run_pred(active)).map_values(spec_row_of(sel))
}

fn header_row() -> (r: TableRow)
    ensures
        r@ == spec_header_row(),
{
    let mut cells: Vec<String> = Vec::new();
    cells.push("ID".to_owned());
    cells.push(" ".to_owned());
    cells.push("Name".to_owned());
    cells.push(" ".to_owned());
    cells.push("Image".to_owned());
    cells.push(" ".to_owned());
    cells.push("Status".to_owned());
    let r = TableRow { cells, selected: false };
    proof {
        assert(r@.cells =~= spec_header_row().cells);
    }
    r
}

/// Builds the table of the filtered entries whose running state equals
/// `active`, and the number of its entries (the header not counted).
pub fn get_running_table_with_size(
    filtered_containers: &Vec<Container>,
    selected_container: &Option<String>,
    active: bool,
) -> (r: (Vec<TableRow>, usize))
    ensures
        rows_view(r.0@) == spec_table(
            views_of(filtered_containers@),
            crate::state::opt_str_view(*selected_container),
            active,
        ),
        r.1 as int == views_of(filtered_containers@).filter(spec_run_pred(active)).len(),
{
    broadcast use
        crate::container::lemma_views_of_len,
        crate::container::lemma_views_of_index,
        lemma_rows_view_len,
        lemma_rows_view_index;

    let ghost fv = views_of(filtered_containers@);
    let ghost sel = crate::state::opt_str_view(*selected_container);
    let ghost pred = spec_run_pred(active);
    let ghost to_row = spec_row_of(sel);
    let mut rows: Vec<TableRow> = Vec::new();
    rows.push(header_row());
    let mut count: usize = 0;
    let mut i: usize = 0;
    proof {
        assert(fv.take(0).filter(pred) =~= Seq::<ContainerView>::empty());
        assert(rows_view(rows@) =~= seq![spec_header_row()] + fv.take(0).filter(pred).map_values(
            to_row,
        ));
    }
    while i < filtered_containers.len()
        invariant
            i <= filtered_containers@.len(),
            fv == views_of(filtered_containers@),
            sel == crate::state::opt_str_view(*selected_container),
            pred == spec_run_pred(active),
            to_row == spec_row_of(sel),
            count as int == fv.take(i as int).filter(pred).len(),
            rows_view(rows@) == seq![spec_header_row()] + fv.take(i as int).filter(pred).map_values(
                to_row,
            ),
        decreases filtered_containers@.len() - i,
    {
        let ghost prev_rows = rows@;
        let c = &filtered_containers[i];
        let included = c.running == active;
        if included {
            let cells = c.to_table_row();
            let is_sel = match selected_container {
                Some(name) => c.name == *name,
                None => false,
            };
            let row = TableRow { cells, selected: is_sel };
            proof {
                assert(row@ == to_row(fv[i as int]));
            }
            rows.push(row);
            count = count + 1;
        }
        i = i + 1;
        proof {
            reveal(Seq::filter);
            let taken = fv.take(i as int);
            assert(taken.drop_last() =~= fv.take(i as int - 1));
            assert(taken.last() == fv[i as int - 1]);
            if included {
                assert(rows_view(rows@) =~= rows_view(prev_rows).push(to_row(fv[i as int - 1])));
                assert(taken.filter(pred) == fv.take(i as int - 1).filter(pred).push(
                    fv[i as int - 1],
                ));
                assert(taken.filter(pred).map_values(to_row).drop_last() =~= fv.take(
                    i as int - 1,
                ).filter(pred).map_values(to_row));
                assert(rows_view(rows@) =~= seq![spec_header_row()] + taken.filter(pred).map_values(
                    to_row,
                ));
            } else {
                assert(taken.filter(pred) == fv.take(i as int - 1).filter(pred));
                assert(rows_view(rows@) =~= seq![spec_header_row()] + taken.filter(pred).map_values(
                    to_row,
                ));
            }
        }
    }
    proof {
        assert(fv.take(fv.len() as int) =~= fv);
    }
    (rows, count)
}

/// The search prompt line: the prompt, the query, a cursor mark.
pub open spec fn spec_search_line(query: Seq<char>) -> Seq<char> {
    "Search > "@ + query + "\u{2502}"@
}

/// Renders the search prompt line.
pub fn search_line(search_query: &Vec<char>) -> (r: String)
    ensures
        r@ == spec_search_line(search_query@),
{
    let mut cs: Vec<char> = Vec::new();
    push_chars_of(&mut cs, "Search > ");
    let mut i: usize = 0;
    while i < search_query.len()
        invariant
            i <= search_query@.len(),
            cs@ == "Search > "@ + search_query@.take(i as int),
        decreases search_query@.len() - i,
    {
        cs.push(search_query[i]);
        i = i + 1;
        proof {
            assert(cs@ =~= "Search > "@ + search_query@.take(i as int));
        }
    }
    proof {
        assert(cs@ =~= "Search > "@ + search_query@);
    }
    push_chars_of(&mut cs, "\u{2502}");
    string_from_chars(&cs)
}

/// The error line shown in place of everything else.
pub open spec fn spec_error_line(message: Seq<char>) -> Seq<char> {
    "Error: "@ + message
}

/// Renders the error line.
pub fn error_line(message: &String) -> (r: String)
    ensures
        r@ == spec_error_line(message@),
{
    let mut cs: Vec<char> = Vec::new();
    push_chars_of(&mut cs, "Error: ");
    push_chars_of(&mut cs, message.as_str());
    string_from_chars(&cs)
}

/// The decimal digits of a number, most significant first.
pub open spec fn spec_decimal(n: int) -> Seq<char>
    decreases n,
{
    if n < 10 {
        seq![spec_digit(n)]
    } else {
        spec_decimal(n / 10).push(spec_digit(n % 10))
    }
}

/// The digit character of one decimal digit.
pub open spec fn spec_digit(d: int) -> char {
    if d == 0 {
        '0'
    } else if d == 1 {
        '1'
    } else if d == 2 {
        '2'
    } else if d == 3 {
        '3'
    } else if d == 4 {
        '4'
    } else if d == 5 {
        '5'
    } else if d == 6 {
        '6'
    } else if d == 7 {
        '7'
    } else if d == 8 {
        '8'
    } else {
        '9'
    }
}

fn digit_char(d: usize) -> (c: char)
    requires
        d < 10,
    ensures
        c == spec_digit(d as int),
{
    match d {
        0 => '0',
        1 => '1',
        2 => '2',
        3 => '3',
        4 => '4',
        5 => '5',
        6 => '6',
        7 => '7',
        8 => '8',
        _ => '9',
    }
}

fn push_decimal(dst: &mut Vec<char>, n: usize)
    ensures
        final(dst)@ == old(dst)@ + spec_decimal(n as int),
    decreases n,
{
    if n < 10 {
        dst.push(digit_char(n));
    } else {
        proof {
            assert(n / 10 < n && n / 10 >= 1) by (nonlinear_arith)
                requires
                    n >= 10,
            ;
        }
        push_decimal(dst, n / 10);
        dst.push(digit_char(n % 10));
    }
}

/// The heading above one containers table.
pub open spec fn spec_count_header(active: bool, count: int) -> Seq<char> {
    (if active {
        "Containers ("@
    } else {
        "Stopped Containers ("@
    }) + spec_decimal(count) + ")"@
}

/// Renders the heading above one containers table.
pub fn count_header(active: bool, count: usize) -> (r: String)
    ensures
        r@ == spec_count_header(active, count as int),
{
    let mut cs: Vec<char> = Vec::new();
    if active {
        push_chars_of(&mut cs, "Containers (");
    } else {
        push_chars_of(&mut cs, "Stopped Containers (");
    }
    push_decimal(&mut cs, count);
    push_chars_of(&mut cs, ")");
    string_from_chars(&cs)
}

/// One help entry: the key in angle brackets, then its description.
pub open spec fn spec_help_entry(key: Seq<char>, desc: Seq<char>) -> Seq<char> {
    "<"@ + key + "> => "@ + desc + ". "@
}

/// The help footer's text.
pub open spec fn spec_help_text() -> Seq<char> {
    "Help: "@ + spec_help_entry("Ctrl-r"@, "Refresh"@) + spec_help_entry("Enter"@, "Follow Logs"@)
        + spec_help_entry("Ctrl-c"@, "Stop"@) + spec_help_entry("Ctrl-e"@, "Start"@)
        + spec_help_entry("Ctrl-d"@, "Delete"@) + spec_help_entry("Esc"@, "Close"@)
}

/// The inclusive character ranges of the key names inside the help text,
/// for highlighting.
pub open spec fn spec_help_ranges() -> Seq<(int, int)> {
    let p0 = "Help: "@.len() as int;
    let p1 = p0 + spec_help_entry("Ctrl-r"@, "Refresh"@).len();
    let p2 = p1 + spec_help_entry("Enter"@, "Follow Logs"@).len();
    let p3 = p2 + spec_help_entry("Ctrl-c"@, "Stop"@).len();
    let p4 = p3 + spec_help_entry("Ctrl-e"@, "Start"@).len();
    let p5 = p4 + spec_help_entry("Ctrl-d"@, "Delete"@).len();
    seq![
        (p0 + 1, p0 + "Ctrl-r"@.len()),
        (p1 + 1, p1 + "Enter"@.len()),
        (p2 + 1, p2 + "Ctrl-c"@.len()),
        (p3 + 1, p3 + "Ctrl-e"@.len()),
        (p4 + 1, p4 + "Ctrl-d"@.len()),
        (p5 + 1, p5 + "Esc"@.len()),
    ]
}

/// Appends one help entry; returns the inclusive range of the key name.
fn push_help_entry(dst: &mut Vec<char>, key: &str, desc: &str) -> (range: (usize, usize))
    ensures
        final(dst)@ == old(dst)@ + spec_help_entry(key@, desc@),
        range.0 as int == old(dst)@.len() + 1,
        range.1 as int == old(dst)@.len() + key@.len(),
{
    proof {
        reveal_strlit("<");
    }
    push_chars_of(dst, "<");
    push_chars_of(dst, key);
    let p1 = dst.len();
    push_chars_of(dst, "> => ");
    push_chars_of(dst, desc);
    push_chars_of(dst, ". ");
    let start = p1 - key.unicode_len();
    (start, p1 - 1)
}

/// Renders the help footer: its text and the inclusive ranges of the key
/// names, for highlighting.
pub fn help_line() -> (r: (String, Vec<(usize, usize)>))
    ensures
        r.0@ == spec_help_text(),
        r.1@.map_values(|p: (usize, usize)| (p.0 as int, p.1 as int)) == spec_help_ranges(),
{
    proof {
        reveal_strlit("<");
    }
    let mut cs: Vec<char> = Vec::new();
    push_chars_of(&mut cs, "Help: ");
    let mut ranges: Vec<(usize, usize)> = Vec::new();
    let r0 = push_help_entry(&mut cs, "Ctrl-r", "Refresh");
    let r1 = push_help_entry(&mut cs, "Enter", "Follow Logs");
    let r2 = push_help_entry(&mut cs, "Ctrl-c", "Stop");
    let r3 = push_help_entry(&mut cs, "Ctrl-e", "Start");
    let r4 = push_help_entry(&mut cs, "Ctrl-d", "Delete");
    let r5 = push_help_entry(&mut cs, "Esc", "Close");
    ranges.push(r0);
    ranges.push(r1);
    ranges.push(r2);
    ranges.push(r3);
    ranges.push(r4);
    ranges.push(r5);
    proof {
        assert(cs@ =~= spec_help_text());
        assert(ranges@.map_values(|p: (usize, usize)| (p.0 as int, p.1 as int))
            =~= spec_help_ranges());
    }
    (string_from_chars(&cs), ranges)
}

} // verus!
