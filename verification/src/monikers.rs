use vstd::prelude::*;

use crate::entry::{entries_view, Entry, EntryView};

verus! {

/// The moniker list with every value that is not a JSON string dropped, and
/// every later repetition of a value dropped, the first occurrences kept in order.
pub open spec fn cleaned(s: Seq<EntryView>) -> Seq<EntryView>
    decreases s.len(),
{
    if s.len() == 0 {
        Seq::empty()
    } else {
        let r = cleaned(s.drop_last());
        if s.last() is Text && !r.contains(s.last()) {
            r.push(s.last())
        } else {
            r
        }
    }
}

/// The list with every occurrence of `x` dropped.
pub open spec fn without(s: Seq<EntryView>, x: EntryView) -> Seq<EntryView>
    decreases s.len(),
{
    if s.len() == 0 {
        Seq::empty()
    } else if s.last() == x {
        without(s.drop_last(), x)
    } else {
        without(s.drop_last(), x).push(s.last())
    }
}

/// No value occurs twice.
pub open spec fn no_repeats(s: Seq<EntryView>) -> bool {
    forall|i: int, j: int| 0 <= i < j < s.len() ==> s[i] != s[j]
}

/// Every value is a JSON string.
pub open spec fn all_text(s: Seq<EntryView>) -> bool {
    forall|i: int| 0 <= i < s.len() ==> (#[trigger] s[i]) is Text
}

/// A value is in the cleaned list exactly when it is a JSON string of the list.
pub proof fn lemma_cleaned_contains(s: Seq<EntryView>, x: EntryView)
    ensures
        cleaned(s).contains(x) == (s.contains(x) && x is Text),
    decreases s.len(),
{
    if s.len() > 0 {
        let t = s.drop_last();
        lemma_cleaned_contains(t, x);
        let r = cleaned(t);
        if s.contains(x) {
            let i = choose|i: int| 0 <= i < s.len() && s[i] == x;
            if i < s.len() - 1 {
                assert(t[i] == x);
            }
        }
        if t.contains(x) {
            let i = choose|i: int| 0 <= i < t.len() && t[i] == x;
            assert(s[i] == x);
        }
        if s.last() is Text && !r.contains(s.last()) {
            if r.contains(x) {
                let i = choose|i: int| 0 <= i < r.len() && r[i] == x;
                assert(r.push(s.last())[i] == x);
            }
            if x == s.last() {
                assert(r.push(s.last())[r.len() as int] == x);
            }
            if r.push(s.last()).contains(x) && x != s.last() {
                let i = choose|i: int| 0 <= i < r.len() + 1 && r.push(s.last())[i] == x;
                assert(r[i] == x);
            }
        }
    }
}

/// The cleaned list holds JSON strings only, none twice.
pub proof fn lemma_cleaned_shape(s: Seq<EntryView>)
    ensures
        all_text(cleaned(s)),
        no_repeats(cleaned(s)),
    decreases s.len(),
{
    if s.len() > 0 {
        let t = s.drop_last();
        lemma_cleaned_shape(t);
        let r = cleaned(t);
        if s.last() is Text && !r.contains(s.last()) {
            let n = r.push(s.last());
            assert forall|i: int, j: int| 0 <= i < j < n.len() implies n[i] != n[j] by {
                if j == r.len() {
                    assert(n[i] == r[i]);
                    assert(r.contains(r[i]));
                } else {
                    assert(n[i] == r[i] && n[j] == r[j]);
                }
            }
            assert forall|i: int| 0 <= i < n.len() implies (#[trigger] n[i]) is Text by {
                if i < r.len() {
                    assert(n[i] == r[i]);
                }
            }
        }
    }
}

/// Cleaning a cleaned list changes nothing.
pub proof fn lemma_cleaned_idempotent(s: Seq<EntryView>)
    ensures
        cleaned(cleaned(s)) == cleaned(s),
{
    lemma_cleaned_shape(s);
    lemma_cleaned_of_clean(cleaned(s));
}

/// A list of distinct JSON strings is already clean.
pub proof fn lemma_cleaned_of_clean(s: Seq<EntryView>)
    requires
        all_text(s),
        no_repeats(s),
    ensures
        cleaned(s) == s,
    decreases s.len(),
{
    if s.len() > 0 {
        let t = s.drop_last();
        assert(all_text(t)) by {
            assert forall|i: int| 0 <= i < t.len() implies (#[trigger] t[i]) is Text by {
                assert(t[i] == s[i]);
            }
        }
        assert(no_repeats(t)) by {
            assert forall|i: int, j: int| 0 <= i < j < t.len() implies t[i] != t[j] by {
                assert(t[i] == s[i] && t[j] == s[j]);
            }
        }
        lemma_cleaned_of_clean(t);
        assert(s[s.len() - 1] is Text);
        if t.contains(s.last()) {
            let i = choose|i: int| 0 <= i < t.len() && t[i] == s.last();
            assert(s[i] == s[s.len() - 1]);
        }
        assert(t.push(s.last()) =~= s);
    }
}

/// A value is in the list without `x` exactly when it is in the list and is not `x`.
pub proof fn lemma_without_contains(s: Seq<EntryView>, x: EntryView, y: EntryView)
    ensures
        without(s, x).contains(y) == (s.contains(y) && y != x),
    decreases s.len(),
{
    if s.len() > 0 {
        let t = s.drop_last();
        lemma_without_contains(t, x, y);
        let r = without(t, x);
        if s.contains(y) {
            let i = choose|i: int| 0 <= i < s.len() && s[i] == y;
            if i < s.len() - 1 {
                assert(t[i] == y);
            }
        }
        if t.contains(y) {
            let i = choose|i: int| 0 <= i < t.len() && t[i] == y;
            assert(s[i] == y);
        }
        if s.last() != x {
            if r.contains(y) {
                let i = choose|i: int| 0 <= i < r.len() && r[i] == y;
                assert(r.push(s.last())[i] == y);
            }
            if y == s.last() {
                assert(r.push(s.last())[r.len() as int] == y);
            }
            if r.push(s.last()).contains(y) && y != s.last() {
                let i = choose|i: int| 0 <= i < r.len() + 1 && r.push(s.last())[i] == y;
                assert(r[i] == y);
            }
        }
    }
}

/// Dropping a value the list does not hold changes nothing.
pub proof fn lemma_without_absent(s: Seq<EntryView>, x: EntryView)
    requires
        !s.contains(x),
    ensures
        without(s, x) == s,
    decreases s.len(),
{
    if s.len() > 0 {
        let t = s.drop_last();
        assert(!t.contains(x)) by {
            if t.contains(x) {
                let i = choose|i: int| 0 <= i < t.len() && t[i] == x;
                assert(s[i] == x);
            }
        }
        assert(s[s.len() - 1] != x);
        lemma_without_absent(t, x);
        assert(t.push(s.last()) =~= s);
    }
}

/// Dropping a value keeps a list of distinct JSON strings so.
pub proof fn lemma_without_shape(s: Seq<EntryView>, x: EntryView)
    requires
        all_text(s),
        no_repeats(s),
    ensures
        all_text(without(s, x)),
        no_repeats(without(s, x)),
    decreases s.len(),
{
    if s.len() > 0 {
        let t = s.drop_last();
        assert(all_text(t)) by {
            assert forall|i: int| 0 <= i < t.len() implies (#[trigger] t[i]) is Text by {
                assert(t[i] == s[i]);
            }
        }
        assert(no_repeats(t)) by {
            assert forall|i: int, j: int| 0 <= i < j < t.len() implies t[i] != t[j] by {
                assert(t[i] == s[i] && t[j] == s[j]);
            }
        }
        lemma_without_shape(t, x);
        let r = without(t, x);
        if s.last() != x {
            let n = r.push(s.last());
            assert(!t.contains(s.last())) by {
                if t.contains(s.last()) {
                    let i = choose|i: int| 0 <= i < t.len() && t[i] == s.last();
                    assert(s[i] == s[s.len() - 1]);
                }
            }
            lemma_without_contains(t, x, s.last());
            assert forall|i: int, j: int| 0 <= i < j < n.len() implies n[i] != n[j] by {
                if j == r.len() {
                    assert(n[i] == r[i]);
                    assert(r.contains(r[i]));
                } else {
                    assert(n[i] == r[i] && n[j] == r[j]);
                }
            }
            assert forall|i: int| 0 <= i < n.len() implies (#[trigger] n[i]) is Text by {
                if i < r.len() {
                    assert(n[i] == r[i]);
                } else {
                    assert(s[s.len() - 1] is Text);
                }
            }
        }
    }
}

/// Whether the list holds the JSON string `name`.
pub fn contains_moniker(v: &Vec<Entry>, name: &String) -> (r: bool)
    ensures
        r == entries_view(v@).contains(EntryView::Text(name@)),
{
    let ghost s = entries_view(v@);
    let mut i: usize = 0;
    while i < v.len()
        invariant
            i <= v.len(),
            s == entries_view(v@),
            forall|j: int| 0 <= j < i ==> s[j] != EntryView::Text(name@),
        decreases v.len() - i,
    {
        if v[i].is_text_of(name) {
            proof {
                assert(s[i as int] == EntryView::Text(name@));
            }
            return true;
        }
        i = i + 1;
    }
    false
}

/// Drops the values that are not JSON strings, and the repetitions.
pub fn clean_monikers(v: &mut Vec<Entry>)
    ensures
        entries_view(final(v)@) == cleaned(entries_view(old(v)@)),
{
    let ghost s = entries_view(v@);
    let mut out: Vec<Entry> = Vec::new();
    let mut i: usize = 0;
    proof {
        assert(s.take(0) =~= Seq::<EntryView>::empty());
        assert(entries_view(out@) =~= Seq::<EntryView>::empty());
    }
    while i < v.len()
        invariant
            i <= v.len(),
            s == entries_view(v@),
            entries_view(out@) == cleaned(s.take(i as int)),
        decreases v.len() - i,
    {
        proof {
            assert(s.take(i + 1).drop_last() =~= s.take(i as int));
            assert(s.take(i + 1).last() == s[i as int]);
        }
        let keep = match &v[i] {
            Entry::Text(name) => !contains_moniker(&out, name),
            Entry::Other(_) => false,
        };
        if keep {
            out.push(v[i].duplicate());
            proof {
                assert(entries_view(out@) =~= cleaned(s.take(i as int)).push(s[i as int]));
            }
        }
        i = i + 1;
    }
    proof {
        assert(s.take(v.len() as int) =~= s);
    }
    *v = out;
}

/// Drops every occurrence of the JSON string `name`.
pub fn remove_moniker(v: &mut Vec<Entry>, name: &String)
    ensures
        entries_view(final(v)@) == without(entries_view(old(v)@), EntryView::Text(name@)),
{
    let ghost s = entries_view(v@);
    let ghost x = EntryView::Text(name@);
    let mut out: Vec<Entry> = Vec::new();
    let mut i: usize = 0;
    proof {
        assert(s.take(0) =~= Seq::<EntryView>::empty());
        assert(entries_view(out@) =~= Seq::<EntryView>::empty());
    }
    while i < v.len()
        invariant
            i <= v.len(),
            s == entries_view(v@),
            x == EntryView::Text(name@),
            entries_view(out@) == without(s.take(i as int), x),
        decreases v.len() - i,
    {
        proof {
            assert(s.take(i + 1).drop_last() =~= s.take(i as int));
            assert(s.take(i + 1).last() == s[i as int]);
        }
        if !v[i].is_text_of(name) {
            out.push(v[i].duplicate());
            proof {
                assert(entries_view(out@) =~= without(s.take(i as int), x).push(s[i as int]));
            }
        }
        i = i + 1;
    }
    proof {
        assert(s.take(v.len() as int) =~= s);
    }
    *v = out;
}

} // verus!
