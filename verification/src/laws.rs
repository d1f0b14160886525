use vstd::prelude::*;

use crate::alias_table::{has_key_at, lemma_pairs_map_at, opt_entry_view, text_only};
use crate::shortcuts::{alias_line, alias_lines};
use crate::text::contains_seq;
use crate::commands::{
    alias_add_post, alias_del_post, cleaned_monikers, moniker_create_post, moniker_execute_post, moniker_list_post,
    moniker_remove_post, CommandError, Outcome,
};
use crate::entry::{entries_view, EntryView};
use crate::monikers::{
    all_text, cleaned, lemma_cleaned_contains, lemma_cleaned_shape, lemma_without_contains,
    no_repeats, without,
};
use crate::path_ext::{extension_of, path_file_name};
use crate::settings::{setup_post, spec_needs_setup, Settings, Slot};
use crate::setup::{needs_source_line, rc_after_setup, shell_path, source_line};
use crate::shell_string::{escaped, is_shell_special};
use crate::text::occurs_at;
use crate::shell_rc::shell_rc_for;
use crate::shell_string::relative_to_home;
use crate::setup::{is_white_space, trim_end, trim_start, trimmed};
use crate::shortcuts::{moniker_line, moniker_lines};

verus! {

/// The text a shell reads back from escaped text: a backslash makes the
/// character after it literal.
pub open spec fn unescaped(s: Seq<char>) -> Seq<char>
    decreases s.len(),
{
    if s.len() == 0 {
        Seq::empty()
    } else if s[0] == '\\' && s.len() >= 2 {
        seq![s[1]] + unescaped(s.skip(2))
    } else {
        seq![s[0]] + unescaped(s.drop_first())
    }
}

/// Escaping loses nothing: the shell reads the escaped text back as the
/// original text.
pub proof fn law_escape_round_trip(s: Seq<char>)
    ensures
        unescaped(escaped(s)) == s,
    decreases s.len(),
{
    if s.len() > 0 {
        let rest = escaped(s.drop_first());
        law_escape_round_trip(s.drop_first());
        if is_shell_special(s[0]) {
            let e = seq!['\\', s[0]] + rest;
            assert(e.skip(2) =~= rest);
        } else {
            let e = seq![s[0]] + rest;
            assert(e.drop_first() =~= rest);
        }
        assert(seq![s[0]] + s.drop_first() =~= s);
    }
}

/// Text without special characters is left as it is by escaping.
pub proof fn law_escape_plain_text_unchanged(s: Seq<char>)
    requires
        forall|i: int| 0 <= i < s.len() ==> !is_shell_special(#[trigger] s[i]),
    ensures
        escaped(s) == s,
    decreases s.len(),
{
    if s.len() > 0 {
        assert(!is_shell_special(s[0]));
        law_escape_plain_text_unchanged(s.drop_first());
        assert(seq![s[0]] + s.drop_first() =~= s);
    }
}

/// What `alias add` stored, `alias del` of the same alias gives back, and the
/// aliases are then those before, without that alias.
pub proof fn law_alias_add_then_del(
    s0: Settings,
    s1: Settings,
    s2: Settings,
    alias: Seq<char>,
    cmd: Seq<char>,
    r1: Result<Outcome, CommandError>,
    r2: Result<Outcome, CommandError>,
)
    requires
        s0.aliases is Present,
        alias_add_post(s0, s1, alias, cmd, r1),
        alias_del_post(s1, s2, alias, r2),
    ensures
        r2 matches Ok(Outcome::AliasDeleted { alias: a, command: e }) && a@ == alias && e@
            == EntryView::Text(cmd),
        s2.aliases matches Slot::Present(t2) && s0.aliases matches Slot::Present(t0) && t2@
            == text_only(t0@).remove(alias),
        s2.rc_file == s0.rc_file,
        s2.monikers == s0.monikers,
{
    let t0 = s0.aliases->Present_0;
    let t1 = s1.aliases->Present_0;
    let t2 = s2.aliases->Present_0;
    let kept = text_only(t0@);
    assert(text_only(t1@) =~= t1@);
    assert(t2@ =~= kept.remove(alias));
}

/// Setting an alias twice to the same command is the same as setting it once.
pub proof fn law_alias_add_idempotent(
    s0: Settings,
    s1: Settings,
    s2: Settings,
    alias: Seq<char>,
    cmd: Seq<char>,
    r1: Result<Outcome, CommandError>,
    r2: Result<Outcome, CommandError>,
)
    requires
        alias_add_post(s0, s1, alias, cmd, r1),
        alias_add_post(s1, s2, alias, cmd, r2),
    ensures
        s2.rc_file == s1.rc_file,
        s2.monikers == s1.monikers,
        s1.aliases matches Slot::Present(t1) ==> s2.aliases matches Slot::Present(t2) && t2@ == t1@,
        s1.aliases matches Slot::Present(_) ==> r2 matches Ok(Outcome::AliasAdded { replaced, .. })
            && opt_entry_view(replaced) == Some(EntryView::Text(cmd)),
{
    if s0.aliases is Present {
        let t1 = s1.aliases->Present_0;
        let t2 = s2.aliases->Present_0;
        assert(text_only(t1@) =~= t1@);
        assert(t2@ =~= t1@);
    }
}

/// After `moniker create` and then `moniker remove` of the same name, the
/// moniker is gone, and the others are those left by cleaning.
pub proof fn law_moniker_create_then_remove(
    s0: Settings,
    s1: Settings,
    s2: Settings,
    name: Seq<char>,
    path: Seq<char>,
    r1: Result<Outcome, CommandError>,
    r2: Result<Outcome, CommandError>,
)
    requires
        s0.monikers is Present,
        extension_of(path_file_name(path)) == "lua"@,
        moniker_create_post(s0, s1, name, path, r1),
        moniker_remove_post(s1, s2, name, r2),
    ensures
        r2 matches Ok(Outcome::MonikerRemoved { moniker: m }) && m@ == name,
        s2.monikers matches Slot::Present(v2) && s0.monikers matches Slot::Present(v0)
            && entries_view(v2@) == without(cleaned_monikers(v0), EntryView::Text(name)),
        s2.monikers matches Slot::Present(v2) && !entries_view(v2@).contains(EntryView::Text(name)),
        !cleaned_monikers(s0.monikers->Present_0).contains(EntryView::Text(name)) ==> entries_view(
            s2.monikers->Present_0@,
        ) == cleaned_monikers(s0.monikers->Present_0),
{
    let x = EntryView::Text(name);
    let c0 = cleaned_monikers(s0.monikers->Present_0);
    let v1 = entries_view(s1.monikers->Present_0@);
    let v2 = entries_view(s2.monikers->Present_0@);
    assert(v1 == c0.push(x));
    lemma_cleaned_shape(c0.drop_last());
    lemma_cleaned_shape(entries_view(s0.monikers->Present_0@));
    crate::monikers::lemma_cleaned_idempotent(entries_view(s0.monikers->Present_0@));
    let c1 = cleaned(v1);
    assert(c0.push(x).drop_last() =~= c0);
    if c0.contains(x) {
        assert(c1 == c0);
    } else {
        assert(c1 == c0.push(x));
    }
    assert(c1.contains(x)) by {
        lemma_cleaned_contains(v1, x);
        assert(v1[v1.len() - 1] == x);
    }
    if !c0.contains(x) {
        assert(without(c0.push(x), x) == without(c0, x)) by {
            assert(c0.push(x).drop_last() =~= c0);
        }
    }
    lemma_without_contains(c0, x, x);
    if !c0.contains(x) {
        crate::monikers::lemma_without_absent(c0, x);
    }
}

/// After `moniker remove`, the monikers are JSON strings, none twice.
pub proof fn law_moniker_remove_leaves_clean(
    s0: Settings,
    s1: Settings,
    name: Seq<char>,
    r: Result<Outcome, CommandError>,
)
    requires
        s0.monikers is Present,
        moniker_remove_post(s0, s1, name, r),
    ensures
        s1.monikers matches Slot::Present(v1) && all_text(entries_view(v1@)) && no_repeats(
            entries_view(v1@),
        ),
{
    let c = cleaned_monikers(s0.monikers->Present_0);
    lemma_cleaned_shape(entries_view(s0.monikers->Present_0@));
    crate::monikers::lemma_without_shape(c, EntryView::Text(name));
}

/// After `moniker create`, the monikers are JSON strings, none twice, except
/// where the name was already there: then it is appended a second time.
pub proof fn law_moniker_create_leaves_clean(
    s0: Settings,
    s1: Settings,
    name: Seq<char>,
    path: Seq<char>,
    r: Result<Outcome, CommandError>,
)
    requires
        s0.monikers is Present,
        moniker_create_post(s0, s1, name, path, r),
    ensures
        s1.monikers matches Slot::Present(v1) && all_text(entries_view(v1@)),
        s1.monikers matches Slot::Present(v1) && s0.monikers matches Slot::Present(v0) && no_repeats(
            entries_view(v1@),
        ) == (r is Err || !cleaned_monikers(v0).contains(EntryView::Text(name))),
{
    let x = EntryView::Text(name);
    let c = cleaned_monikers(s0.monikers->Present_0);
    lemma_cleaned_shape(entries_view(s0.monikers->Present_0@));
    let v1 = entries_view(s1.monikers->Present_0@);
    if r is Ok {
        assert(v1 == c.push(x));
        assert forall|i: int| 0 <= i < v1.len() implies (#[trigger] v1[i]) is Text by {
            if i < c.len() {
                assert(v1[i] == c[i]);
            }
        }
        if c.contains(x) {
            let i = choose|i: int| 0 <= i < c.len() && c[i] == x;
            assert(v1[i] == v1[c.len() as int]);
        } else {
            assert forall|i: int, j: int| 0 <= i < j < v1.len() implies v1[i] != v1[j] by {
                if j == c.len() {
                    assert(v1[i] == c[i]);
                    assert(c.contains(c[i]));
                } else {
                    assert(v1[i] == c[i] && v1[j] == c[j]);
                }
            }
        }
    }
}

/// After `moniker execute` reaches the settings, the monikers are JSON strings, none twice.
pub proof fn law_moniker_execute_leaves_clean(s0: Settings, s1: Settings, r: Result<Outcome, CommandError>)
    requires
        s0.monikers is Present,
        moniker_execute_post(s0, s1, r),
    ensures
        s1.monikers matches Slot::Present(v1) && all_text(entries_view(v1@)) && no_repeats(
            entries_view(v1@),
        ),
{
    lemma_cleaned_shape(entries_view(s0.monikers->Present_0@));
}

/// The monikers that `moniker list` leaves are JSON strings, none twice, and
/// a name is listed exactly when it was a JSON string of the list before.
pub proof fn law_moniker_list_clean(
    s0: Settings,
    s1: Settings,
    r: Result<Outcome, CommandError>,
    name: Seq<char>,
)
    requires
        s0.monikers is Present,
        moniker_list_post(s0, s1, r),
    ensures
        s1.monikers matches Slot::Present(v1) && all_text(entries_view(v1@)) && no_repeats(
            entries_view(v1@),
        ),
        s1.monikers matches Slot::Present(v1) && s0.monikers matches Slot::Present(v0)
            && entries_view(v1@).contains(EntryView::Text(name)) == entries_view(v0@).contains(
            EntryView::Text(name),
        ),
{
    let v0 = entries_view(s0.monikers->Present_0@);
    lemma_cleaned_shape(v0);
    lemma_cleaned_contains(v0, EntryView::Text(name));
}

/// Setup done twice with the same rc file leaves the settings as setup done once,
/// and afterwards setup is no longer needed.
pub proof fn law_setup_idempotent(s0: Settings, s1: Settings, s2: Settings, rc: Seq<char>)
    requires
        setup_post(s0, s1, rc),
        setup_post(s1, s2, rc),
    ensures
        s2.aliases == s1.aliases,
        s2.monikers == s1.monikers,
        s2.rc_file matches Some(e2) && s1.rc_file matches Some(e1) && e2@ == e1@,
        !spec_needs_setup(s2),
{
}

/// Once setup has run, the rc file mentions the shortcuts file, so a second
/// setup with the same paths finds the source line and leaves the rc file as
/// it is.
pub proof fn law_second_setup_keeps_rc_file(rc_contents: Seq<char>, path: Seq<char>, home: Seq<char>)
    ensures
        !needs_source_line(rc_after_setup(rc_contents, path, home), path, home),
        rc_after_setup(rc_after_setup(rc_contents, path, home), path, home) == rc_after_setup(
            rc_contents,
            path,
            home,
        ),
{
    if needs_source_line(rc_contents, path, home) {
        reveal_strlit(". ");
        let t = shell_path(path, home);
        let all = rc_contents + source_line(path, home);
        let start = rc_contents.len() as int + 2;
        assert(all.subrange(start, start + t.len()) =~= t);
        assert(occurs_at(all, t, start));
    }
}


/// The line of the pair at position `j` occurs in the alias lines.
proof fn lemma_alias_lines_hold(s: Seq<(Seq<char>, EntryView)>, j: int)
    requires
        0 <= j < s.len(),
    ensures
        contains_seq(alias_lines(s), alias_line(s[j].0, s[j].1)),
    decreases s.len(),
{
    let first = alias_line(s[0].0, s[0].1);
    let rest = alias_lines(s.drop_first());
    let l = alias_line(s[j].0, s[j].1);
    if j == 0 {
        assert((first + rest).subrange(0, first.len() as int) =~= first);
        assert(occurs_at(alias_lines(s), l, 0));
    } else {
        lemma_alias_lines_hold(s.drop_first(), j - 1);
        assert(s.drop_first()[j - 1] == s[j]);
        let k = choose|k: int| occurs_at(rest, l, k);
        assert((first + rest).subrange(first.len() + k, first.len() + k + l.len()) =~= rest.subrange(
            k,
            k + l.len(),
        ));
        assert(occurs_at(alias_lines(s), l, first.len() + k));
    }
}

/// After `alias add`, the table holds the alias with its command, and the
/// shortcuts file written from it holds the alias's line.
pub proof fn law_alias_add_rendered(
    s0: Settings,
    s1: Settings,
    alias: Seq<char>,
    cmd: Seq<char>,
    r: Result<Outcome, CommandError>,
)
    requires
        s0.aliases is Present,
        alias_add_post(s0, s1, alias, cmd, r),
    ensures
        s1.aliases matches Slot::Present(n) && (exists|i: int|
            0 <= i < n.pairs().len() && n.pairs()[i] == (alias, EntryView::Text(cmd))),
        s1.aliases matches Slot::Present(n) && contains_seq(
            alias_lines(n.pairs()),
            alias_line(alias, EntryView::Text(cmd)),
        ),
{
    let n = s1.aliases->Present_0;
    let ps = n.pairs();
    assert(n@.contains_key(alias));
    let j = choose|j: int| has_key_at(ps, alias, j);
    lemma_pairs_map_at(ps, j);
    assert(ps[j] == (alias, EntryView::Text(cmd)));
    lemma_alias_lines_hold(ps, j);
}


/// The shell recognised first wins: a `SHELL` path containing `/bash` gives
/// `.bashrc`; otherwise one containing `fish` gives fish's config file.
pub proof fn law_shell_rc_bash_and_fish(shell: Seq<char>, exists: Seq<bool>)
    ensures
        contains_seq(shell, "/bash"@) ==> shell_rc_for(shell, exists) == Some(".bashrc"@),
        !contains_seq(shell, "/bash"@) && contains_seq(shell, "fish"@) ==> shell_rc_for(shell, exists)
            == Some(".config/fish/config.fish"@),
        !contains_seq(shell, "/bash"@) && !contains_seq(shell, "fish"@) && !contains_seq(
            shell,
            "/zsh"@,
        ) ==> shell_rc_for(shell, exists) is None,
{
}

/// For a zsh (a `SHELL` path containing `/zsh`, and neither `/bash` nor
/// `fish`), the rc file is the first that exists of `.zshrc`,
/// `.config/.zshrc` and `.config/zsh/.zshrc`, whatever the later ones are;
/// where none exists there is none.
pub proof fn law_shell_rc_zsh(shell: Seq<char>, exists: Seq<bool>, i: int)
    requires
        exists.len() == 3,
        contains_seq(shell, "/zsh"@),
        !contains_seq(shell, "/bash"@),
        !contains_seq(shell, "fish"@),
    ensures
        0 <= i < 3 && exists[i] && (forall|k: int| 0 <= k < i ==> !exists[k]) ==> shell_rc_for(
            shell,
            exists,
        ) == Some(seq![".zshrc"@, ".config/.zshrc"@, ".config/zsh/.zshrc"@][i]),
        (forall|k: int| 0 <= k < 3 ==> !exists[k]) ==> shell_rc_for(shell, exists) is None,
{
    if 0 <= i < 3 && exists[i] && (forall|k: int| 0 <= k < i ==> !exists[k]) {
        if i == 1 {
            assert(!exists[0]);
        } else if i == 2 {
            assert(!exists[0] && !exists[1]);
        }
    }
    if forall|k: int| 0 <= k < 3 ==> !exists[k] {
        assert(!exists[0] && !exists[1] && !exists[2]);
    }
}

/// The rc file needs the source line exactly when it does not yet mention the
/// shortcuts file, written escaped for the shell and relative to the home
/// directory; nothing else in the rc file matters.
pub proof fn law_needs_source_line(rc: Seq<char>, path: Seq<char>, home: Seq<char>)
    ensures
        needs_source_line(rc, path, home) == !contains_seq(rc, relative_to_home(escaped(path), home)),
{
}

/// A single alias gives its own line, and the alias lines of two runs of pairs
/// are the lines of the first followed by the lines of the second.
pub proof fn law_alias_lines_concat(s1: Seq<(Seq<char>, EntryView)>, s2: Seq<(Seq<char>, EntryView)>)
    ensures
        alias_lines(s1 + s2) == alias_lines(s1) + alias_lines(s2),
        s1.len() == 1 ==> alias_lines(s1) == alias_line(s1[0].0, s1[0].1),
    decreases s1.len(),
{
    if s1.len() == 0 {
        assert(s1 + s2 =~= s2);
        assert(alias_lines(s1) + alias_lines(s2) =~= alias_lines(s2));
    } else {
        law_alias_lines_concat(s1.drop_first(), s2);
        assert((s1 + s2).drop_first() =~= s1.drop_first() + s2);
        assert((s1 + s2)[0] == s1[0]);
        if s1.len() == 1 {
            assert(s1.drop_first() =~= Seq::<(Seq<char>, EntryView)>::empty());
            assert(alias_line(s1[0].0, s1[0].1) + Seq::<char>::empty() =~= alias_line(s1[0].0, s1[0].1));
        }
        let a = alias_line(s1[0].0, s1[0].1);
        assert(a + (alias_lines(s1.drop_first()) + alias_lines(s2)) =~= (a + alias_lines(
            s1.drop_first(),
        )) + alias_lines(s2));
    }
}

/// A moniker that is a JSON string gives its own line; the moniker lines of a
/// run of JSON strings followed by more monikers are the lines of the run
/// followed by the lines of the rest; and the lines stop at the first moniker
/// that is not a JSON string.
pub proof fn law_moniker_lines_concat(s1: Seq<EntryView>, s2: Seq<EntryView>)
    ensures
        (forall|i: int| 0 <= i < s1.len() ==> (#[trigger] s1[i]) is Text) ==> moniker_lines(s1 + s2)
            == moniker_lines(s1) + moniker_lines(s2),
        s1.len() == 1 && s1[0] is Text ==> moniker_lines(s1) == moniker_line(s1[0]->Text_0),
        s1.len() > 0 && s1[0] is Other ==> moniker_lines(s1 + s2) == Seq::<char>::empty(),
    decreases s1.len(),
{
    if s1.len() == 0 {
        assert(s1 + s2 =~= s2);
        assert(moniker_lines(s1) + moniker_lines(s2) =~= moniker_lines(s2));
    } else {
        law_moniker_lines_concat(s1.drop_first(), s2);
        assert((s1 + s2).drop_first() =~= s1.drop_first() + s2);
        assert((s1 + s2)[0] == s1[0]);
        if forall|i: int| 0 <= i < s1.len() ==> (#[trigger] s1[i]) is Text {
            assert(s1[0] is Text);
            assert forall|i: int| 0 <= i < s1.drop_first().len() implies (#[trigger] s1.drop_first()[i]) is Text by {
                assert(s1.drop_first()[i] == s1[i + 1]);
            }
            let a = moniker_line(s1[0]->Text_0);
            assert(a + (moniker_lines(s1.drop_first()) + moniker_lines(s2)) =~= (a + moniker_lines(
                s1.drop_first(),
            )) + moniker_lines(s2));
        }
        if s1.len() == 1 && s1[0] is Text {
            assert(s1.drop_first() =~= Seq::<EntryView>::empty());
            assert(moniker_line(s1[0]->Text_0) + Seq::<char>::empty() =~= moniker_line(s1[0]->Text_0));
        }
    }
}

/// Every moniker up to the first that is not a JSON string has its line in
/// the shortcuts text.
pub proof fn law_moniker_lines_hold(s: Seq<EntryView>, i: int)
    requires
        0 <= i < s.len(),
        forall|k: int| 0 <= k <= i ==> (#[trigger] s[k]) is Text,
    ensures
        contains_seq(moniker_lines(s), moniker_line(s[i]->Text_0)),
    decreases s.len(),
{
    let first = moniker_line(s[0]->Text_0);
    let rest = moniker_lines(s.drop_first());
    let l = moniker_line(s[i]->Text_0);
    assert(s[0] is Text);
    if i == 0 {
        assert((first + rest).subrange(0, first.len() as int) =~= first);
        assert(occurs_at(moniker_lines(s), l, 0));
    } else {
        assert forall|k: int| 0 <= k <= i - 1 implies (#[trigger] s.drop_first()[k]) is Text by {
            assert(s.drop_first()[k] == s[k + 1]);
        }
        assert(s.drop_first()[i - 1] == s[i]);
        law_moniker_lines_hold(s.drop_first(), i - 1);
        let k = choose|k: int| occurs_at(rest, l, k);
        assert((first + rest).subrange(first.len() + k, first.len() + k + l.len()) =~= rest.subrange(
            k,
            k + l.len(),
        ));
        assert(occurs_at(moniker_lines(s), l, first.len() + k));
    }
}

proof fn lemma_trim_start(s: Seq<char>) -> (a: int)
    ensures
        0 <= a <= s.len(),
        trim_start(s) == s.skip(a),
        forall|k: int| 0 <= k < a ==> is_white_space(#[trigger] s[k]),
        a < s.len() ==> !is_white_space(s[a]),
    decreases s.len(),
{
    if s.len() > 0 && is_white_space(s[0]) {
        let b = lemma_trim_start(s.drop_first());
        assert(s.drop_first().skip(b) =~= s.skip(b + 1));
        assert forall|k: int| 0 <= k < b + 1 implies is_white_space(#[trigger] s[k]) by {
            if k > 0 {
                assert(s[k] == s.drop_first()[k - 1]);
            }
        }
        b + 1
    } else {
        assert(s.skip(0) =~= s);
        0
    }
}

proof fn lemma_trim_end(s: Seq<char>) -> (b: int)
    ensures
        0 <= b <= s.len(),
        trim_end(s) == s.take(b),
        forall|k: int| b <= k < s.len() ==> is_white_space(#[trigger] s[k]),
        b > 0 ==> !is_white_space(s[b - 1]),
    decreases s.len(),
{
    if s.len() > 0 && is_white_space(s.last()) {
        let b = lemma_trim_end(s.drop_last());
        assert(s.drop_last().take(b) =~= s.take(b));
        assert forall|k: int| b <= k < s.len() implies is_white_space(#[trigger] s[k]) by {
            if k < s.len() - 1 {
                assert(s[k] == s.drop_last()[k]);
            }
        }
        b
    } else {
        assert(s.take(s.len() as int) =~= s);
        s.len() as int
    }
}

/// Trimming takes away white space at both ends and nothing else: the result
/// is a contiguous piece of the text, everything outside it is white space,
/// and where it is not empty it neither begins nor ends with white space.
pub proof fn law_trimmed(s: Seq<char>)
    ensures
        trimmed(s).len() > 0 ==> !is_white_space(trimmed(s)[0]) && !is_white_space(trimmed(s).last()),
        exists|a: int, b: int|
            0 <= a <= b <= s.len() && trimmed(s) == s.subrange(a, b) && (forall|k: int|
                0 <= k < s.len() && (k < a || k >= b) ==> is_white_space(#[trigger] s[k])),
{
    let a = lemma_trim_start(s);
    let t = s.skip(a);
    let c = lemma_trim_end(t);
    assert(trimmed(s) == t.take(c));
    assert(t.take(c) =~= s.subrange(a, a + c));
    assert forall|k: int| 0 <= k < s.len() && (k < a || k >= a + c) implies is_white_space(#[trigger] s[k]) by {
        if k >= a + c {
            assert(s[k] == t[k - a]);
        }
    }
    if c > 0 {
        assert(trimmed(s)[0] == s[a]);
        assert(trimmed(s).last() == t[c - 1]);
    }
    assert(0 <= a <= a + c <= s.len() && trimmed(s) == s.subrange(a, a + c));
}

} // verus!
