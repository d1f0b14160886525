use vstd::prelude::*;

use crate::alias_table::{keep_text, keys_sorted, opt_entry_view, text_only, AliasTable};
use crate::args::{
    ActionType, AliasSubCommand, CarapaceArgs, CreateAlias, CreateMoniker, MonikerSubCommand,
    RemoveAlias, RemoveMoniker,
};
use crate::entry::{entries_view, Entry, EntryView};
use crate::monikers::{clean_monikers, cleaned, contains_moniker, remove_moniker, without};
use crate::path_ext::{extension_of, is_lua_file, path_file_name};
use crate::settings::{Settings, Slot};

verus! {

/// Why a command was refused.
#[derive(Debug, Clone, Copy, PartialEq, Eq)]
pub enum CommandError {
    /// The settings have no `aliases` key; setup has to run.
    AliasesKeyMissing,
    /// The `aliases` key holds something other than an object.
    AliasesNotObject,
    /// The settings have no `monikers` key; setup has to run.
    MonikersKeyMissing,
    /// The `monikers` key holds something other than an array.
    MonikersNotArray,
    /// A moniker must be a `.lua` file.
    NotLuaFile,
    /// `moniker execute` is run before the settings are read, never here.
    ExecuteAfterParsing,
    /// `setup` is run before the settings are read, never here.
    SetupAfterSetup,
}

/// What a command did, for the user to be told.
#[derive(Debug)]
pub enum Outcome {
    /// The alias was set; `replaced` is what it stood for before, if anything.
    AliasAdded { alias: String, old_command: String, replaced: Option<Entry> },
    /// The alias was removed; it stood for `old_command`.
    AliasDeleted { alias: String, command: Entry },
    /// There was no such alias.
    AliasNotFound { alias: String },
    /// The aliases and what they stand for, in key order.
    AliasList { aliases: Vec<(String, String)> },
    /// The moniker was recorded; `already_present` tells whether it was there already.
    /// Its script is still to be linked into the moniker directory.
    MonikerCreated { moniker: String, moniker_path: String, already_present: bool },
    /// The moniker was dropped; its script is still to be removed.
    MonikerRemoved { moniker: String },
    /// There was no such moniker.
    MonikerNotFound { moniker: String },
    /// The monikers, in order.
    MonikerList { monikers: Vec<String> },
}

/// The settings apart from the aliases are left as they are.
pub open spec fn aliases_only_changed(old: Settings, new: Settings) -> bool {
    new.rc_file == old.rc_file && new.monikers == old.monikers
}

/// The settings apart from the monikers are left as they are.
pub open spec fn monikers_only_changed(old: Settings, new: Settings) -> bool {
    new.rc_file == old.rc_file && new.aliases == old.aliases
}

/// The answer to an alias command whose `aliases` key is not an object.
pub open spec fn aliases_refused(old: Settings, new: Settings, r: Result<Outcome, CommandError>) -> bool {
    &&& new == old
    &&& match old.aliases {
        Slot::Absent => r == Err::<Outcome, CommandError>(CommandError::AliasesKeyMissing),
        Slot::Mismatched(_) => r == Err::<Outcome, CommandError>(CommandError::AliasesNotObject),
        Slot::Present(_) => false,
    }
}

/// The answer to a moniker command whose `monikers` key is not an array.
pub open spec fn monikers_refused(old: Settings, new: Settings, r: Result<Outcome, CommandError>) -> bool {
    &&& new == old
    &&& match old.monikers {
        Slot::Absent => r == Err::<Outcome, CommandError>(CommandError::MonikersKeyMissing),
        Slot::Mismatched(_) => r == Err::<Outcome, CommandError>(CommandError::MonikersNotArray),
        Slot::Present(_) => false,
    }
}

/// `alias add`: the aliases whose value is not a JSON string are dropped,
/// then `alias` is set to `cmd`; the answer carries what it stood for before.
pub open spec fn alias_add_post(
    old: Settings,
    new: Settings,
    alias: Seq<char>,
    cmd: Seq<char>,
    r: Result<Outcome, CommandError>,
) -> bool {
    match old.aliases {
        Slot::Present(t) => {
            let kept = text_only(t@);
            &&& aliases_only_changed(old, new)
            &&& new.aliases matches Slot::Present(n) && n@ == kept.insert(alias, EntryView::Text(cmd))
                && keys_sorted(n.pairs())
            &&& r matches Ok(Outcome::AliasAdded { alias: a, old_command: c, replaced }) && a@ == alias
                && c@ == cmd && opt_entry_view(replaced) == (if kept.contains_key(alias) {
                Some(kept[alias])
            } else {
                None
            })
        },
        _ => aliases_refused(old, new, r),
    }
}

/// `alias del`: the aliases whose value is not a JSON string are dropped,
/// then `alias` is removed; the answer tells whether it was there.
pub open spec fn alias_del_post(old: Settings, new: Settings, alias: Seq<char>, r: Result<Outcome, CommandError>) -> bool {
    match old.aliases {
        Slot::Present(t) => {
            let kept = text_only(t@);
            &&& aliases_only_changed(old, new)
            &&& new.aliases matches Slot::Present(n) && n@ == kept.remove(alias) && keys_sorted(
                n.pairs(),
            )
            &&& if kept.contains_key(alias) {
                r matches Ok(Outcome::AliasDeleted { alias: a, command: e }) && a@ == alias && e@
                    == kept[alias]
            } else {
                r matches Ok(Outcome::AliasNotFound { alias: a }) && a@ == alias
            }
        },
        _ => aliases_refused(old, new, r),
    }
}

/// `alias list`: the aliases whose value is not a JSON string are dropped,
/// and the others are listed in key order.
pub open spec fn alias_list_post(old: Settings, new: Settings, r: Result<Outcome, CommandError>) -> bool {
    match old.aliases {
        Slot::Present(t) => {
            &&& aliases_only_changed(old, new)
            &&& match new.aliases {
                Slot::Present(n) => {
                    &&& n@ == text_only(t@)
                    &&& n.pairs() == keep_text(t.pairs())
                    &&& keys_sorted(n.pairs())
                    &&& match r {
                        Ok(Outcome::AliasList { aliases: l }) => {
                            &&& l@.len() == n.pairs().len()
                            &&& forall|i: int|
                                0 <= i < l@.len() ==> (#[trigger] l@[i]).0@ == n.pairs()[i].0
                                    && EntryView::Text(l@[i].1@) == n.pairs()[i].1
                        },
                        _ => false,
                    }
                },
                _ => false,
            }
        },
        _ => aliases_refused(old, new, r),
    }
}

/// The monikers as every moniker command leaves them before acting: the values
/// that are not JSON strings and the repetitions dropped.
pub open spec fn cleaned_monikers(v: Vec<Entry>) -> Seq<EntryView> {
    cleaned(entries_view(v@))
}

/// `moniker create`: after cleaning, a path that is not a `.lua` file is
/// refused; otherwise the moniker is appended (again, if it was there).
pub open spec fn moniker_create_post(
    old: Settings,
    new: Settings,
    name: Seq<char>,
    path: Seq<char>,
    r: Result<Outcome, CommandError>,
) -> bool {
    match old.monikers {
        Slot::Present(v) => {
            let c = cleaned_monikers(v);
            &&& monikers_only_changed(old, new)
            &&& if extension_of(path_file_name(path)) != "lua"@ {
                &&& new.monikers matches Slot::Present(n) && entries_view(n@) == c
                &&& r == Err::<Outcome, CommandError>(CommandError::NotLuaFile)
            } else {
                &&& new.monikers matches Slot::Present(n) && entries_view(n@) == c.push(
                    EntryView::Text(name),
                )
                &&& r matches Ok(Outcome::MonikerCreated { moniker: m, moniker_path: p, already_present })
                    && m@ == name && p@ == path && already_present == c.contains(EntryView::Text(name))
            }
        },
        _ => monikers_refused(old, new, r),
    }
}

/// `moniker remove`: after cleaning, the moniker is dropped if it is there.
pub open spec fn moniker_remove_post(old: Settings, new: Settings, name: Seq<char>, r: Result<Outcome, CommandError>) -> bool {
    match old.monikers {
        Slot::Present(v) => {
            let c = cleaned_monikers(v);
            &&& monikers_only_changed(old, new)
            &&& if c.contains(EntryView::Text(name)) {
                &&& new.monikers matches Slot::Present(n) && entries_view(n@) == without(
                    c,
                    EntryView::Text(name),
                )
                &&& r matches Ok(Outcome::MonikerRemoved { moniker: m }) && m@ == name
            } else {
                &&& new.monikers matches Slot::Present(n) && entries_view(n@) == c
                &&& r matches Ok(Outcome::MonikerNotFound { moniker: m }) && m@ == name
            }
        },
        _ => monikers_refused(old, new, r),
    }
}

/// `moniker list`: after cleaning, the monikers are listed in order.
pub open spec fn moniker_list_post(old: Settings, new: Settings, r: Result<Outcome, CommandError>) -> bool {
    match old.monikers {
        Slot::Present(v) => {
            let c = cleaned_monikers(v);
            &&& monikers_only_changed(old, new)
            &&& new.monikers matches Slot::Present(n) && entries_view(n@) == c
            &&& match r {
                Ok(Outcome::MonikerList { monikers: l }) => {
                    &&& l@.len() == c.len()
                    &&& forall|i: int| 0 <= i < l@.len() ==> EntryView::Text((#[trigger] l@[i])@) == c[i]
                },
                _ => false,
            }
        },
        _ => monikers_refused(old, new, r),
    }
}

/// `moniker execute` does not reach the settings: after cleaning it is refused.
pub open spec fn moniker_execute_post(old: Settings, new: Settings, r: Result<Outcome, CommandError>) -> bool {
    match old.monikers {
        Slot::Present(v) => {
            &&& monikers_only_changed(old, new)
            &&& new.monikers matches Slot::Present(n) && entries_view(n@) == cleaned_monikers(v)
            &&& r == Err::<Outcome, CommandError>(CommandError::ExecuteAfterParsing)
        },
        _ => monikers_refused(old, new, r),
    }
}

/// Sets an alias.
pub fn alias_add(settings: &mut Settings, request: CreateAlias) -> (r: Result<Outcome, CommandError>)
    ensures
        alias_add_post(*old(settings), *final(settings), request.alias@, request.old_command@, r),
{
    match &mut settings.aliases {
        Slot::Absent => Err(CommandError::AliasesKeyMissing),
        Slot::Mismatched(_) => Err(CommandError::AliasesNotObject),
        Slot::Present(t) => {
            t.retain_text();
            let replaced = t.insert(request.alias.clone(), Entry::Text(request.old_command.clone()));
            Ok(Outcome::AliasAdded { alias: request.alias, old_command: request.old_command, replaced })
        },
    }
}

/// Removes an alias.
pub fn alias_del(settings: &mut Settings, request: RemoveAlias) -> (r: Result<Outcome, CommandError>)
    ensures
        alias_del_post(*old(settings), *final(settings), request.alias@, r),
{
    match &mut settings.aliases {
        Slot::Absent => Err(CommandError::AliasesKeyMissing),
        Slot::Mismatched(_) => Err(CommandError::AliasesNotObject),
        Slot::Present(t) => {
            t.retain_text();
            match t.remove(&request.alias) {
                Some(e) => Ok(Outcome::AliasDeleted { alias: request.alias, command: e }),
                None => Ok(Outcome::AliasNotFound { alias: request.alias }),
            }
        },
    }
}

/// The aliases of a table whose values are all JSON strings, as text pairs.
fn text_pairs(t: &AliasTable) -> (r: Vec<(String, String)>)
    requires
        forall|i: int| 0 <= i < t.pairs().len() ==> (#[trigger] t.pairs()[i]).1 is Text,
    ensures
        keys_sorted(t.pairs()),
        r@.len() == t.pairs().len(),
        forall|i: int|
            0 <= i < r@.len() ==> (#[trigger] r@[i]).0@ == t.pairs()[i].0 && EntryView::Text(r@[i].1@)
                == t.pairs()[i].1,
{
    let entries = t.entries();
    let mut out: Vec<(String, String)> = Vec::new();
    let mut i: usize = 0;
    while i < entries.len()
        invariant
            i <= entries.len(),
            crate::alias_table::pairs_view(entries@) == t.pairs(),
            forall|k: int| 0 <= k < t.pairs().len() ==> (#[trigger] t.pairs()[k]).1 is Text,
            out@.len() == i,
            forall|k: int|
                0 <= k < i ==> (#[trigger] out@[k]).0@ == t.pairs()[k].0 && EntryView::Text(out@[k].1@)
                    == t.pairs()[k].1,
        decreases entries.len() - i,
    {
        assert(t.pairs()[i as int] == (entries@[i as int].0@, entries@[i as int].1@));
        let text = match &entries[i].1 {
            Entry::Text(s) => s.clone(),
            Entry::Other(s) => {
                proof {
                    assert(t.pairs()[i as int].1 is Text);
                }
                s.clone()
            },
        };
        out.push((entries[i].0.clone(), text));
        i = i + 1;
    }
    out
}

/// Lists the aliases.
pub fn alias_list(settings: &mut Settings) -> (r: Result<Outcome, CommandError>)
    ensures
        alias_list_post(*old(settings), *final(settings), r),
{
    match &mut settings.aliases {
        Slot::Absent => Err(CommandError::AliasesKeyMissing),
        Slot::Mismatched(_) => Err(CommandError::AliasesNotObject),
        Slot::Present(t) => {
            let ghost before = t.pairs();
            t.retain_text();
            proof {
                assert forall|i: int| 0 <= i < t.pairs().len() implies (#[trigger] t.pairs()[i]).1 is Text by {
                    crate::alias_table::lemma_keep_text_contains(before, t.pairs()[i]);
                    assert(t.pairs().contains(t.pairs()[i]));
                }
            }
            let aliases = text_pairs(t);
            Ok(Outcome::AliasList { aliases })
        },
    }
}

/// Records a moniker whose script is a `.lua` file.
pub fn moniker_create(settings: &mut Settings, request: CreateMoniker) -> (r: Result<Outcome, CommandError>)
    ensures
        moniker_create_post(*old(settings), *final(settings), request.moniker@, request.moniker_path@, r),
{
    match &mut settings.monikers {
        Slot::Absent => Err(CommandError::MonikersKeyMissing),
        Slot::Mismatched(_) => Err(CommandError::MonikersNotArray),
        Slot::Present(v) => {
            clean_monikers(v);
            if !is_lua_file(request.moniker_path.as_str()) {
                return Err(CommandError::NotLuaFile);
            }
            let replaced = contains_moniker(v, &request.moniker);
            let ghost before = entries_view(v@);
            v.push(Entry::Text(request.moniker.clone()));
            proof {
                assert(entries_view(v@) =~= before.push(EntryView::Text(request.moniker@)));
            }
            Ok(Outcome::MonikerCreated {
                moniker: request.moniker,
                moniker_path: request.moniker_path,
                already_present: replaced,
            })
        },
    }
}


/// Drops a moniker.
pub fn moniker_remove(settings: &mut Settings, request: RemoveMoniker) -> (r: Result<Outcome, CommandError>)
    ensures
        moniker_remove_post(*old(settings), *final(settings), request.moniker@, r),
{
    match &mut settings.monikers {
        Slot::Absent => Err(CommandError::MonikersKeyMissing),
        Slot::Mismatched(_) => Err(CommandError::MonikersNotArray),
        Slot::Present(v) => {
            clean_monikers(v);
            if contains_moniker(v, &request.moniker) {
                remove_moniker(v, &request.moniker);
                Ok(Outcome::MonikerRemoved { moniker: request.moniker })
            } else {
                Ok(Outcome::MonikerNotFound { moniker: request.moniker })
            }
        },
    }
}

/// The names of a list of monikers that are all JSON strings.
fn text_names(v: &Vec<Entry>) -> (r: Vec<String>)
    requires
        forall|i: int| 0 <= i < v@.len() ==> (#[trigger] v@[i])@ is Text,
    ensures
        r@.len() == v@.len(),
        forall|i: int| 0 <= i < r@.len() ==> EntryView::Text((#[trigger] r@[i])@) == v@[i]@,
{
    let mut out: Vec<String> = Vec::new();
    let mut i: usize = 0;
    while i < v.len()
        invariant
            i <= v.len(),
            forall|k: int| 0 <= k < v@.len() ==> (#[trigger] v@[k])@ is Text,
            out@.len() == i,
            forall|k: int| 0 <= k < i ==> EntryView::Text((#[trigger] out@[k])@) == v@[k]@,
        decreases v.len() - i,
    {
        let name = match &v[i] {
            Entry::Text(s) => s.clone(),
            Entry::Other(s) => {
                proof {
                    assert(v@[i as int]@ is Text);
                }
                s.clone()
            },
        };
        out.push(name);
        i = i + 1;
    }
    out
}

/// Lists the monikers.
pub fn moniker_list(settings: &mut Settings) -> (r: Result<Outcome, CommandError>)
    ensures
        moniker_list_post(*old(settings), *final(settings), r),
{
    match &mut settings.monikers {
        Slot::Absent => Err(CommandError::MonikersKeyMissing),
        Slot::Mismatched(_) => Err(CommandError::MonikersNotArray),
        Slot::Present(v) => {
            let ghost before = entries_view(v@);
            clean_monikers(v);
            proof {
                crate::monikers::lemma_cleaned_shape(before);
                assert forall|i: int| 0 <= i < v@.len() implies (#[trigger] v@[i])@ is Text by {
                    assert(entries_view(v@)[i] == v@[i]@);
                }
            }
            let monikers = text_names(v);
            Ok(Outcome::MonikerList { monikers })
        },
    }
}

/// Cleans the monikers and refuses `moniker execute`, which runs before the
/// settings are read.
fn moniker_execute(settings: &mut Settings) -> (r: Result<Outcome, CommandError>)
    ensures
        moniker_execute_post(*old(settings), *final(settings), r),
{
    match &mut settings.monikers {
        Slot::Absent => Err(CommandError::MonikersKeyMissing),
        Slot::Mismatched(_) => Err(CommandError::MonikersNotArray),
        Slot::Present(v) => {
            clean_monikers(v);
            Err(CommandError::ExecuteAfterParsing)
        },
    }
}

/// Carries out an alias or moniker command on the settings, and tells what
/// it did. `clean` is not implemented and is not taken.
pub fn parse_args(args: CarapaceArgs, settings: &mut Settings) -> (r: Result<Outcome, CommandError>)
    requires
        !(args.command is Clean),
    ensures
        match args.command {
            ActionType::Alias(c) => match c.subcommand {
                AliasSubCommand::Add(x) => alias_add_post(
                    *old(settings),
                    *final(settings),
                    x.alias@,
                    x.old_command@,
                    r,
                ),
                AliasSubCommand::Del(x) => alias_del_post(*old(settings), *final(settings), x.alias@, r),
                AliasSubCommand::List => alias_list_post(*old(settings), *final(settings), r),
            },
            ActionType::Moniker(c) => match c.subcommand {
                MonikerSubCommand::Create(x) => moniker_create_post(
                    *old(settings),
                    *final(settings),
                    x.moniker@,
                    x.moniker_path@,
                    r,
                ),
                MonikerSubCommand::Remove(x) => moniker_remove_post(
                    *old(settings),
                    *final(settings),
                    x.moniker@,
                    r,
                ),
                MonikerSubCommand::List => moniker_list_post(*old(settings), *final(settings), r),
                MonikerSubCommand::Execute(_) => moniker_execute_post(*old(settings), *final(settings), r),
            },
            ActionType::Setup => r == Err::<Outcome, CommandError>(CommandError::SetupAfterSetup)
                && *final(settings) == *old(settings),
            ActionType::Clean => false,
        },
{
    match args.command {
        ActionType::Alias(c) => match c.subcommand {
            AliasSubCommand::Add(x) => alias_add(settings, x),
            AliasSubCommand::Del(x) => alias_del(settings, x),
            AliasSubCommand::List => alias_list(settings),
        },
        ActionType::Moniker(c) => match c.subcommand {
            MonikerSubCommand::Create(x) => moniker_create(settings, x),
            MonikerSubCommand::Remove(x) => moniker_remove(settings, x),
            MonikerSubCommand::List => moniker_list(settings),
            MonikerSubCommand::Execute(_) => moniker_execute(settings),
        },
        ActionType::Setup => Err(CommandError::SetupAfterSetup),
        ActionType::Clean => {
            proof {
                assert(false);
            }
            Err(CommandError::SetupAfterSetup)
        },
    }
}

} // verus!
