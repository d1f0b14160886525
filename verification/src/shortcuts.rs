use vstd::prelude::*;

use crate::alias_table::{pairs_view, AliasTable};
use crate::entry::{entries_view, Entry, EntryView};
use crate::monikers::contains_moniker;
use crate::settings::{Settings, Slot};

verus! {

/// The lower-case hexadecimal digit of `d`, for `d` below 16.
pub open spec fn hex_digit(d: int) -> char {
    seq!['0', '1', '2', '3', '4', '5', '6', '7', '8', '9', 'a', 'b', 'c', 'd', 'e', 'f'][d]
}

/// How `serde_json` writes one character inside a JSON string: the quote and
/// the backslash after a backslash, backspace, tab, line feed, form feed and
/// carriage return as `\b \t \n \f \r`, the other control characters below
/// 0x20 as `\u00XX` in lower-case hexadecimal, every other character as itself.
pub open spec fn json_char_text(c: char) -> Seq<char> {
    let u = c as u32;
    if c == '"' {
        seq!['\\', '"']
    } else if c == '\\' {
        seq!['\\', '\\']
    } else if u == 8 {
        seq!['\\', 'b']
    } else if u == 9 {
        seq!['\\', 't']
    } else if u == 10 {
        seq!['\\', 'n']
    } else if u == 12 {
        seq!['\\', 'f']
    } else if u == 13 {
        seq!['\\', 'r']
    } else if u < 0x20 {
        seq!['\\', 'u', '0', '0', hex_digit((u / 16) as int), hex_digit((u % 16) as int)]
    } else {
        seq![c]
    }
}

/// The characters of `s`, each written as inside a JSON string.
pub open spec fn json_escaped(s: Seq<char>) -> Seq<char>
    decreases s.len(),
{
    if s.len() == 0 {
        Seq::empty()
    } else {
        json_char_text(s[0]) + json_escaped(s.drop_first())
    }
}

/// The JSON text of the string `s`, quoted and escaped, as `serde_json` writes it.
pub open spec fn json_string_text(s: Seq<char>) -> Seq<char> {
    seq!['"'] + json_escaped(s) + seq!['"']
}

/// Calls `serde_json::to_string` on a string. The contract claims what
/// serde_json's source shows: the string between double quotes, with its
/// characters escaped by serde_json's table (`json_char_text`). Serialising a
/// `str` into memory cannot fail.
#[verifier::external_body]
fn json_string(s: &str) -> (r: String)
    ensures
        r@ == json_string_text(s@),
{
    serde_json::to_string(s).unwrap_or_default()
}

/// How a value of the settings document is written out: a string as JSON
/// text, anything else as the JSON text it already is.
pub open spec fn value_text(v: EntryView) -> Seq<char> {
    match v {
        EntryView::Text(s) => json_string_text(s),
        EntryView::Other(j) => j,
    }
}

/// The shortcuts-file line of one alias.
pub open spec fn alias_line(name: Seq<char>, value: EntryView) -> Seq<char> {
    "alias "@ + name + "="@ + value_text(value) + "\n"@
}

/// The lines of the aliases, in order.
pub open spec fn alias_lines(s: Seq<(Seq<char>, EntryView)>) -> Seq<char>
    decreases s.len(),
{
    if s.len() == 0 {
        Seq::empty()
    } else {
        alias_line(s[0].0, s[0].1) + alias_lines(s.drop_first())
    }
}

/// The shortcuts-file line of one moniker: an alias that runs it.
pub open spec fn moniker_line(name: Seq<char>) -> Seq<char> {
    "alias "@ + name + "='csc moniker execute "@ + name + "'\n"@
}

/// The text of the monikers, in order, up to the first one that is not a JSON string.
pub open spec fn moniker_lines(s: Seq<EntryView>) -> Seq<char>
    decreases s.len(),
{
    if s.len() == 0 {
        Seq::empty()
    } else {
        match s[0] {
            EntryView::Text(n) => moniker_line(n) + moniker_lines(s.drop_first()),
            EntryView::Other(_) => Seq::empty(),
        }
    }
}

/// Every moniker is a JSON string.
pub open spec fn all_monikers_text(s: Seq<EntryView>) -> bool {
    forall|i: int| 0 <= i < s.len() ==> (#[trigger] s[i]) is Text
}

/// Why the settings could not be written out.
#[derive(Debug, Clone, Copy, PartialEq, Eq)]
pub enum SyncError {
    /// There is no `aliases` key; setup has to run.
    AliasesKeyMissing,
    /// The `aliases` key holds something other than an object.
    AliasesNotObject,
    /// There is no `monikers` key; setup has to run.
    MonikersKeyMissing,
    /// The `monikers` key holds something other than an array.
    MonikersNotArray,
}

/// The shortcuts file to write. Where `complete` is false a moniker is not a
/// JSON string: `text` is what is written before that is found, and the
/// writing then fails.
#[derive(Debug)]
pub struct Shortcuts {
    pub text: String,
    pub complete: bool,
}

/// The shortcuts file of a set of aliases and monikers.
pub fn render_shortcuts(aliases: &AliasTable, monikers: &Vec<Entry>) -> (r: Shortcuts)
    ensures
        r.text@ == alias_lines(aliases.pairs()) + moniker_lines(entries_view(monikers@)),
        r.complete == all_monikers_text(entries_view(monikers@)),
{
    let entries = aliases.entries();
    let ghost ps = aliases.pairs();
    let mut out = String::new();
    let mut i: usize = 0;
    proof {
        assert(ps.skip(0) =~= ps);
        assert(out@ + alias_lines(ps) =~= alias_lines(ps));
    }
    while i < entries.len()
        invariant
            i <= entries.len(),
            ps == pairs_view(entries@),
            alias_lines(ps) == out@ + alias_lines(ps.skip(i as int)),
        decreases entries.len() - i,
    {
        let ghost rest = ps.skip(i as int);
        out.append("alias ");
        out.append(entries[i].0.as_str());
        out.append("=");
        match &entries[i].1 {
            Entry::Text(s) => {
                let quoted = json_string(s.as_str());
                out.append(quoted.as_str());
            },
            Entry::Other(j) => {
                out.append(j.as_str());
            },
        }
        out.append("\n");
        proof {
            assert(rest[0] == ps[i as int]);
            assert(rest.drop_first() =~= ps.skip(i + 1));
            assert(out@ =~= (out@.subrange(0, 0) + out@));
        }
        i = i + 1;
    }
    let ghost aliases_text = out@;
    proof {
        assert(ps.skip(entries.len() as int) =~= Seq::<(Seq<char>, EntryView)>::empty());
        assert(aliases_text == alias_lines(ps));
    }
    let ghost ms = entries_view(monikers@);
    let mut k: usize = 0;
    proof {
        assert(ms.skip(0) =~= ms);
    }
    while k < monikers.len()
        invariant
            k <= monikers.len(),
            ms == entries_view(monikers@),
            aliases_text == alias_lines(ps),
            ps == aliases.pairs(),
            forall|j: int| 0 <= j < k ==> (#[trigger] ms[j]) is Text,
            aliases_text + moniker_lines(ms) == out@ + moniker_lines(ms.skip(k as int)),
        decreases monikers.len() - k,
    {
        let ghost rest = ms.skip(k as int);
        proof {
            assert(rest[0] == ms[k as int]);
            assert(rest.drop_first() =~= ms.skip(k + 1));
        }
        match &monikers[k] {
            Entry::Text(name) => {
                out.append("alias ");
                out.append(name.as_str());
                out.append("='csc moniker execute ");
                out.append(name.as_str());
                out.append("'\n");
            },
            Entry::Other(_) => {
                proof {
                    assert(!(ms[k as int] is Text));
                    assert(moniker_lines(rest) == Seq::<char>::empty());
                    assert(out@ + Seq::<char>::empty() =~= out@);
                }
                return Shortcuts { text: out, complete: false };
            },
        }
        k = k + 1;
    }
    proof {
        assert(ms.skip(monikers.len() as int) =~= Seq::<EntryView>::empty());
    }
    Shortcuts { text: out, complete: true }
}

/// The shortcuts file of the settings, once they hold an `aliases` object and
/// a `monikers` array.
pub fn plan_sync(settings: &Settings) -> (r: Result<Shortcuts, SyncError>)
    ensures
        match (settings.aliases, settings.monikers) {
            (Slot::Absent, _) => r == Err::<Shortcuts, SyncError>(SyncError::AliasesKeyMissing),
            (Slot::Mismatched(_), _) => r == Err::<Shortcuts, SyncError>(SyncError::AliasesNotObject),
            (Slot::Present(_), Slot::Absent) => r == Err::<Shortcuts, SyncError>(SyncError::MonikersKeyMissing),
            (Slot::Present(_), Slot::Mismatched(_)) => r == Err::<Shortcuts, SyncError>(SyncError::MonikersNotArray),
            (Slot::Present(t), Slot::Present(v)) => r matches Ok(s)
                && s.text@ == alias_lines(t.pairs()) + moniker_lines(entries_view(v@))
                && s.complete == all_monikers_text(entries_view(v@)),
        },
{
    match &settings.aliases {
        Slot::Absent => Err(SyncError::AliasesKeyMissing),
        Slot::Mismatched(_) => Err(SyncError::AliasesNotObject),
        Slot::Present(t) => match &settings.monikers {
            Slot::Absent => Err(SyncError::MonikersKeyMissing),
            Slot::Mismatched(_) => Err(SyncError::MonikersNotArray),
            Slot::Present(v) => Ok(render_shortcuts(t, v)),
        },
    }
}

/// Whether a script file of the moniker directory, named `stem` without its
/// extension, belongs to no moniker and is to be removed.
pub fn moniker_file_is_orphan(monikers: &Vec<Entry>, stem: &String) -> (r: bool)
    ensures
        r == !entries_view(monikers@).contains(EntryView::Text(stem@)),
{
    !contains_moniker(monikers, stem)
}

} // verus!
