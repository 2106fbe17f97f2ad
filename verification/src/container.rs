//! The container record: one entry of the engine's listing.

use vstd::prelude::*;

use crate::strutil::{push_chars_of, string_from_chars};

verus! {

/// A single inspected container as reported by the engine's listing.
///
/// `name` doubles as the selection key: the controller tracks the highlighted
/// entry by name, accepting first-match semantics when names collide.
#[derive(Debug, Clone, PartialEq, Eq)]
pub struct Container {
    pub id: String,
    pub name: String,
    pub image: String,
    /// True exactly when the engine reported the state string `"running"`.
    pub running: bool,
    pub status: String,
}

/// The mathematical value of a record: its text fields as character
/// sequences.
pub struct ContainerView {
    pub id: Seq<char>,
    pub name: Seq<char>,
    pub image: Seq<char>,
    pub running: bool,
    pub status: Seq<char>,
}

impl View for Container {
    type V = ContainerView;

    open spec fn view(&self) -> ContainerView {
        ContainerView {
            id: self.id@,
            name: self.name@,
            image: self.image@,
            running: self.running,
            status: self.status@,
        }
    }
}

/// The views of a sequence of records.
pub open spec fn views_of(s: Seq<Container>) -> Seq<ContainerView> {
    s.map_values(|c: Container| c@)
}

/// A record sequence's views index as the sequence does.
pub broadcast proof fn lemma_views_of_len(s: Seq<Container>)
    ensures
        (#[trigger] views_of(s)).len() == s.len(),
{
}

/// The view at an index is the index's record's view.
pub broadcast proof fn lemma_views_of_index(s: Seq<Container>, k: int)
    requires
        0 <= k < s.len(),
    ensures
        (#[trigger] views_of(s)[k]) == s[k]@,
{
}

/// The one-line rendering of a record.
pub open spec fn spec_line(c: ContainerView) -> Seq<char> {
    c.id + " "@ + c.name + "     "@ + c.image + " ("@ + c.status + ")"@
}

/// The cells of a record's table row: the text fields separated by single
/// spaces.
pub open spec fn spec_row(c: ContainerView) -> Seq<Seq<char>> {
    seq![c.id, " "@, c.name, " "@, c.image, " "@, c.status]
}

impl Container {
    /// A copy of the record, field for field.
    pub fn duplicate(&self) -> (c: Container)
        ensures
            c@ == self@,
    {
        Container {
            id: self.id.clone(),
            name: self.name.clone(),
            image: self.image.clone(),
            running: self.running,
            status: self.status.clone(),
        }
    }

    /// Renders the record as a single line of text.
    pub fn to_string(&self) -> (r: String)
        ensures
            r@ == spec_line(self@),
    {
        let mut cs: Vec<char> = Vec::new();
        push_chars_of(&mut cs, self.id.as_str());
        push_chars_of(&mut cs, " ");
        push_chars_of(&mut cs, self.name.as_str());
        push_chars_of(&mut cs, "     ");
        push_chars_of(&mut cs, self.image.as_str());
        push_chars_of(&mut cs, " (");
        push_chars_of(&mut cs, self.status.as_str());
        push_chars_of(&mut cs, ")");
        string_from_chars(&cs)
    }

    /// Returns the row cells for the tabular listing.
    pub fn to_table_row(&self) -> (r: Vec<String>)
        ensures
            r@.map_values(|s: String| s@) == spec_row(self@),
    {
        let mut v: Vec<String> = Vec::new();
        v.push(self.id.clone());
        v.push(" ".to_owned());
        v.push(self.name.clone());
        v.push(" ".to_owned());
        v.push(self.image.clone());
        v.push(" ".to_owned());
        v.push(self.status.clone());
        proof {
            assert(v@.map_values(|s: String| s@) =~= spec_row(self@));
        }
        v
    }
}

impl Default for Container {
    /// The empty record: all text fields empty, not running.
    fn default() -> (c: Self)
        ensures
            c.id@ == Seq::<char>::empty(),
            c.name@ == Seq::<char>::empty(),
            c.image@ == Seq::<char>::empty(),
            c.status@ == Seq::<char>::empty(),
            !c.running,
    {
        Container {
            id: String::new(),
            name: String::new(),
            image: String::new(),
            running: false,
            status: String::new(),
        }
    }
}

} // verus!
