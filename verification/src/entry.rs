use vstd::prelude::*;

verus! {

/// A value of the settings document, as far as this tool reads one: a JSON
/// string, or any other JSON value, kept as its JSON text.
#[derive(Debug)]
pub enum Entry {
    Text(String),
    Other(String),
}

/// What an [`Entry`] holds.
pub enum EntryView {
    Text(Seq<char>),
    Other(Seq<char>),
}

impl View for Entry {
    type V = EntryView;

    open spec fn view(&self) -> EntryView {
        match self {
            Entry::Text(s) => EntryView::Text(s@),
            Entry::Other(s) => EntryView::Other(s@),
        }
    }
}

impl Entry {
    /// Whether the entry is a JSON string.
    pub fn is_text(&self) -> (r: bool)
        ensures
            r == (self@ is Text),
    {
        match self {
            Entry::Text(_) => true,
            Entry::Other(_) => false,
        }
    }

    /// A copy of the entry.
    pub fn duplicate(&self) -> (r: Entry)
        ensures
            r@ == self@,
    {
        match self {
            Entry::Text(s) => Entry::Text(s.clone()),
            Entry::Other(s) => Entry::Other(s.clone()),
        }
    }

    /// Whether two entries hold the same value.
    pub fn same_as(&self, other: &Entry) -> (r: bool)
        ensures
            r == (self@ == other@),
    {
        match (self, other) {
            (Entry::Text(a), Entry::Text(b)) => *a == *b,
            (Entry::Other(a), Entry::Other(b)) => *a == *b,
            _ => false,
        }
    }

    /// Whether the entry is the JSON string `name`.
    pub fn is_text_of(&self, name: &String) -> (r: bool)
        ensures
            r == (self@ == EntryView::Text(name@)),
    {
        match self {
            Entry::Text(a) => *a == *name,
            Entry::Other(_) => false,
        }
    }
}

/// The views of a sequence of entries.
pub open spec fn entries_view(s: Seq<Entry>) -> Seq<EntryView> {
    s.map_values(|e: Entry| e@)
}

} // verus!
