use vstd::prelude::*;

use crate::alias_table::AliasTable;
use crate::entry::{Entry, EntryView};

verus! {

/// A key of the settings document: absent, holding a value of another kind
/// than the tool expects (kept as its JSON text), or holding what it expects.
#[derive(Debug)]
pub enum Slot<T> {
    Absent,
    Mismatched(String),
    Present(T),
}

/// The settings document, as far as the tool reads it: the `rc_file` key,
/// the `aliases` object and the `monikers` array.
#[derive(Debug)]
pub struct Settings {
    pub rc_file: Option<Entry>,
    pub aliases: Slot<AliasTable>,
    pub monikers: Slot<Vec<Entry>>,
}

/// None of the keys the tool keeps is there, so setup has to run first.
pub open spec fn spec_needs_setup(s: Settings) -> bool {
    &&& s.rc_file is None
    &&& s.aliases is Absent
    &&& s.monikers is Absent
}

/// What setup makes of the settings: `rc_file` set to the relative path of
/// the shell rc file, `aliases` and `monikers` added empty where absent and
/// otherwise left as they are.
pub open spec fn setup_post(old: Settings, new: Settings, rc_file: Seq<char>) -> bool {
    &&& new.rc_file matches Some(e) && e@ == EntryView::Text(rc_file)
    &&& match old.aliases {
        Slot::Absent => new.aliases matches Slot::Present(t) && t@ == Map::<Seq<char>, EntryView>::empty(),
        _ => new.aliases == old.aliases,
    }
    &&& match old.monikers {
        Slot::Absent => new.monikers matches Slot::Present(v) && v@.len() == 0,
        _ => new.monikers == old.monikers,
    }
}

impl Settings {
    /// Settings of an empty document.
    pub fn empty() -> (r: Settings)
        ensures
            spec_needs_setup(r),
    {
        Settings { rc_file: None, aliases: Slot::Absent, monikers: Slot::Absent }
    }

    /// Whether none of the keys the tool keeps is there yet.
    pub fn needs_setup(&self) -> (r: bool)
        ensures
            r == spec_needs_setup(*self),
    {
        self.rc_file.is_none() && matches!(self.aliases, Slot::Absent) && matches!(self.monikers, Slot::Absent)
    }

    /// Records the shell rc file and makes sure the alias and moniker
    /// collections exist.
    pub fn setup(&mut self, rc_file: String)
        ensures
            setup_post(*old(self), *final(self), rc_file@),
            !spec_needs_setup(*final(self)),
    {
        self.rc_file = Some(Entry::Text(rc_file));
        if matches!(self.aliases, Slot::Absent) {
            self.aliases = Slot::Present(AliasTable::new());
        }
        if matches!(self.monikers, Slot::Absent) {
            self.monikers = Slot::Present(Vec::new());
        }
    }
}

} // verus!
