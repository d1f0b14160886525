use vstd::prelude::*;

use crate::entry::{Entry, EntryView};
use crate::key_order::{
    compare_keys, key_lt, lemma_key_lt_asymmetric, lemma_key_lt_irreflexive,
    lemma_key_lt_transitive, KeyOrder,
};
use crate::text::chars_of;

verus! {

/// The view of one (key, value) pair.
pub open spec fn pair_view(p: (String, Entry)) -> (Seq<char>, EntryView) {
    (p.0@, p.1@)
}

/// The views of a sequence of (key, value) pairs.
pub open spec fn pairs_view(s: Seq<(String, Entry)>) -> Seq<(Seq<char>, EntryView)> {
    s.map_values(|p: (String, Entry)| pair_view(p))
}

/// The keys come in strictly increasing order, so no key occurs twice.
pub open spec fn keys_sorted(s: Seq<(Seq<char>, EntryView)>) -> bool {
    forall|i: int, j: int| 0 <= i < j < s.len() ==> key_lt(#[trigger] s[i].0, #[trigger] s[j].0)
}

/// The pair at position `i` has key `k`.
pub open spec fn has_key_at(s: Seq<(Seq<char>, EntryView)>, k: Seq<char>, i: int) -> bool {
    0 <= i < s.len() && s[i].0 == k
}

/// The map that a sequence of pairs with distinct keys stands for.
pub open spec fn pairs_map(s: Seq<(Seq<char>, EntryView)>) -> Map<Seq<char>, EntryView> {
    Map::new(
        |k: Seq<char>| exists|i: int| has_key_at(s, k, i),
        |k: Seq<char>| s[choose|i: int| has_key_at(s, k, i)].1,
    )
}

/// The entries of `m` that are JSON strings.
pub open spec fn text_only(m: Map<Seq<char>, EntryView>) -> Map<Seq<char>, EntryView> {
    Map::new(|k: Seq<char>| m.contains_key(k) && m[k] is Text, |k: Seq<char>| m[k])
}

/// The pairs of `s` whose value is a JSON string, in their order.
pub open spec fn keep_text(s: Seq<(Seq<char>, EntryView)>) -> Seq<(Seq<char>, EntryView)>
    decreases s.len(),
{
    if s.len() == 0 {
        Seq::empty()
    } else if s.last().1 is Text {
        keep_text(s.drop_last()).push(s.last())
    } else {
        keep_text(s.drop_last())
    }
}

/// The value of an optional entry.
pub open spec fn opt_entry_view(o: Option<Entry>) -> Option<EntryView> {
    match o {
        Some(e) => Some(e@),
        None => None,
    }
}

/// In a sorted sequence, each pair is what the map holds at its key.
pub proof fn lemma_pairs_map_at(s: Seq<(Seq<char>, EntryView)>, j: int)
    requires
        keys_sorted(s),
        0 <= j < s.len(),
    ensures
        pairs_map(s).contains_key(s[j].0),
        pairs_map(s)[s[j].0] == s[j].1,
{
    assert(has_key_at(s, s[j].0, j));
    let c = choose|i: int| has_key_at(s, s[j].0, i);
    if c < j {
        assert(key_lt(s[c].0, s[j].0));
        lemma_key_lt_irreflexive(s[j].0);
    } else if c > j {
        assert(key_lt(s[j].0, s[c].0));
        lemma_key_lt_irreflexive(s[j].0);
    }
}

proof fn lemma_insert_sorted(s: Seq<(Seq<char>, EntryView)>, p: int, x: (Seq<char>, EntryView))
    requires
        keys_sorted(s),
        0 <= p <= s.len(),
        forall|i: int| 0 <= i < p ==> key_lt(#[trigger] s[i].0, x.0),
        p < s.len() ==> key_lt(x.0, s[p].0),
    ensures
        keys_sorted(s.insert(p, x)),
{
    let n = s.insert(p, x);
    assert forall|i: int, j: int| 0 <= i < j < n.len() implies key_lt(#[trigger] n[i].0, #[trigger] n[j].0) by {
        if j < p {
            assert(n[i] == s[i] && n[j] == s[j]);
        } else if j == p {
            assert(n[i] == s[i]);
        } else if i < p {
            assert(n[i] == s[i] && n[j] == s[j - 1]);
            if j - 1 > p {
                assert(key_lt(s[p].0, s[j - 1].0));
                lemma_key_lt_transitive(x.0, s[p].0, s[j - 1].0);
            }
            lemma_key_lt_transitive(s[i].0, x.0, s[j - 1].0);
        } else if i == p {
            assert(n[j] == s[j - 1]);
            if j - 1 > p {
                assert(key_lt(s[p].0, s[j - 1].0));
                lemma_key_lt_transitive(x.0, s[p].0, s[j - 1].0);
            }
        } else {
            assert(n[i] == s[i - 1] && n[j] == s[j - 1]);
        }
    }
}

proof fn lemma_pairs_map_insert(s: Seq<(Seq<char>, EntryView)>, p: int, x: (Seq<char>, EntryView))
    requires
        keys_sorted(s),
        keys_sorted(s.insert(p, x)),
        0 <= p <= s.len(),
    ensures
        pairs_map(s.insert(p, x)) == pairs_map(s).insert(x.0, x.1),
{
    let n = s.insert(p, x);
    let m = pairs_map(s).insert(x.0, x.1);
    assert forall|q: Seq<char>| pairs_map(n).contains_key(q) == m.contains_key(q) by {
        if pairs_map(n).contains_key(q) {
            let i = choose|i: int| has_key_at(n, q, i);
            if i < p {
                assert(has_key_at(s, q, i));
            } else if i > p {
                assert(has_key_at(s, q, i - 1));
            }
        }
        if pairs_map(s).contains_key(q) {
            let j = choose|j: int| has_key_at(s, q, j);
            if j < p {
                assert(has_key_at(n, q, j));
            } else {
                assert(has_key_at(n, q, j + 1));
            }
        }
        if q == x.0 {
            assert(has_key_at(n, q, p));
        }
    }
    assert forall|q: Seq<char>| #[trigger] m.contains_key(q) implies pairs_map(n)[q] == m[q] by {
        if q == x.0 {
            lemma_pairs_map_at(n, p);
        } else {
            let j = choose|j: int| has_key_at(s, q, j);
            lemma_pairs_map_at(s, j);
            if j < p {
                lemma_pairs_map_at(n, j);
            } else {
                lemma_pairs_map_at(n, j + 1);
            }
        }
    }
    assert(pairs_map(n) =~= m);
}

proof fn lemma_pairs_map_update(s: Seq<(Seq<char>, EntryView)>, p: int, x: (Seq<char>, EntryView))
    requires
        keys_sorted(s),
        0 <= p < s.len(),
        s[p].0 == x.0,
    ensures
        keys_sorted(s.update(p, x)),
        pairs_map(s.update(p, x)) == pairs_map(s).insert(x.0, x.1),
{
    let n = s.update(p, x);
    assert forall|i: int, j: int| 0 <= i < j < n.len() implies key_lt(#[trigger] n[i].0, #[trigger] n[j].0) by {
        assert(n[i].0 == s[i].0 && n[j].0 == s[j].0);
    }
    let m = pairs_map(s).insert(x.0, x.1);
    assert forall|q: Seq<char>| pairs_map(n).contains_key(q) == m.contains_key(q) by {
        if pairs_map(n).contains_key(q) {
            let i = choose|i: int| has_key_at(n, q, i);
            assert(has_key_at(s, q, i));
        }
        if pairs_map(s).contains_key(q) {
            let j = choose|j: int| has_key_at(s, q, j);
            assert(has_key_at(n, q, j));
        }
        if q == x.0 {
            assert(has_key_at(n, q, p));
        }
    }
    assert forall|q: Seq<char>| #[trigger] m.contains_key(q) implies pairs_map(n)[q] == m[q] by {
        if q == x.0 {
            lemma_pairs_map_at(n, p);
        } else {
            let j = choose|j: int| has_key_at(s, q, j);
            lemma_pairs_map_at(s, j);
            lemma_pairs_map_at(n, j);
        }
    }
    assert(pairs_map(n) =~= m);
}

proof fn lemma_pairs_map_remove(s: Seq<(Seq<char>, EntryView)>, p: int)
    requires
        keys_sorted(s),
        0 <= p < s.len(),
    ensures
        keys_sorted(s.remove(p)),
        pairs_map(s.remove(p)) == pairs_map(s).remove(s[p].0),
{
    let n = s.remove(p);
    assert forall|i: int, j: int| 0 <= i < j < n.len() implies key_lt(#[trigger] n[i].0, #[trigger] n[j].0) by {
        if j < p {
            assert(n[i] == s[i] && n[j] == s[j]);
        } else if i < p {
            assert(n[i] == s[i] && n[j] == s[j + 1]);
        } else {
            assert(n[i] == s[i + 1] && n[j] == s[j + 1]);
        }
    }
    let k = s[p].0;
    let m = pairs_map(s).remove(k);
    assert forall|q: Seq<char>| pairs_map(n).contains_key(q) == m.contains_key(q) by {
        if pairs_map(n).contains_key(q) {
            let i = choose|i: int| has_key_at(n, q, i);
            if i < p {
                assert(has_key_at(s, q, i));
                assert(key_lt(s[i].0, s[p].0));
                lemma_key_lt_irreflexive(q);
            } else {
                assert(has_key_at(s, q, i + 1));
                assert(key_lt(s[p].0, s[i + 1].0));
                lemma_key_lt_irreflexive(q);
            }
        }
        if pairs_map(s).contains_key(q) && q != k {
            let j = choose|j: int| has_key_at(s, q, j);
            if j < p {
                assert(has_key_at(n, q, j));
            } else {
                assert(j != p);
                assert(has_key_at(n, q, j - 1));
            }
        }
    }
    assert forall|q: Seq<char>| #[trigger] m.contains_key(q) implies pairs_map(n)[q] == m[q] by {
        let j = choose|j: int| has_key_at(s, q, j);
        lemma_pairs_map_at(s, j);
        if j < p {
            lemma_pairs_map_at(n, j);
        } else {
            assert(j != p);
            lemma_pairs_map_at(n, j - 1);
        }
    }
    assert(pairs_map(n) =~= m);
}

/// Two sequences of pairs in key order that stand for the same map are the
/// same sequence: the order of a table's pairs follows from its map.
pub proof fn lemma_pairs_fixed_by_map(s1: Seq<(Seq<char>, EntryView)>, s2: Seq<(Seq<char>, EntryView)>)
    requires
        keys_sorted(s1),
        keys_sorted(s2),
        pairs_map(s1) == pairs_map(s2),
    ensures
        s1 == s2,
    decreases s1.len(),
{
    if s1.len() == 0 {
        if s2.len() > 0 {
            lemma_pairs_map_at(s2, 0);
            assert(!pairs_map(s1).contains_key(s2[0].0));
        }
        assert(s1 =~= s2);
    } else {
        lemma_pairs_map_at(s1, 0);
        assert(s2.len() > 0) by {
            if s2.len() == 0 {
                assert(!pairs_map(s2).contains_key(s1[0].0));
            }
        }
        lemma_pairs_map_at(s2, 0);
        let j = choose|j: int| has_key_at(s2, s1[0].0, j);
        let i = choose|i: int| has_key_at(s1, s2[0].0, i);
        if j > 0 {
            assert(key_lt(s2[0].0, s2[j].0));
            if i > 0 {
                assert(key_lt(s1[0].0, s1[i].0));
                lemma_key_lt_asymmetric(s1[0].0, s2[0].0);
            } else {
                lemma_key_lt_irreflexive(s1[0].0);
            }
        }
        assert(s1[0].0 == s2[0].0);
        lemma_pairs_map_at(s2, 0);
        assert(s1[0] == s2[0]);
        lemma_pairs_map_remove(s1, 0);
        lemma_pairs_map_remove(s2, 0);
        assert(s1.remove(0) =~= s1.drop_first());
        assert(s2.remove(0) =~= s2.drop_first());
        lemma_pairs_fixed_by_map(s1.drop_first(), s2.drop_first());
        assert(s1 =~= seq![s1[0]] + s1.drop_first());
        assert(s2 =~= seq![s2[0]] + s2.drop_first());
    }
}

/// A pair is kept by `keep_text` exactly when it is in `s` and its value is text.
pub proof fn lemma_keep_text_contains(s: Seq<(Seq<char>, EntryView)>, x: (Seq<char>, EntryView))
    ensures
        keep_text(s).contains(x) == (s.contains(x) && x.1 is Text),
    decreases s.len(),
{
    if s.len() > 0 {
        let t = s.drop_last();
        lemma_keep_text_contains(t, x);
        if s.contains(x) {
            let i = choose|i: int| 0 <= i < s.len() && s[i] == x;
            if i < s.len() - 1 {
                assert(t[i] == x);
            }
        }
        if t.contains(x) {
            let i = choose|i: int| 0 <= i < t.len() && t[i] == x;
            assert(s[i] == x);
        }
        if s.last().1 is Text {
            let r = keep_text(t);
            if r.contains(x) {
                let i = choose|i: int| 0 <= i < r.len() && r[i] == x;
                assert(r.push(s.last())[i] == x);
            }
            if x == s.last() {
                assert(r.push(s.last())[r.len() as int] == x);
            }
            if r.push(s.last()).contains(x) && x != s.last() {
                let i = choose|i: int| 0 <= i < r.len() + 1 && r.push(s.last())[i] == x;
                assert(r[i] == x);
            }
        }
    }
}

proof fn lemma_keep_text_sorted(s: Seq<(Seq<char>, EntryView)>)
    requires
        keys_sorted(s),
    ensures
        keys_sorted(keep_text(s)),
    decreases s.len(),
{
    if s.len() > 0 {
        let t = s.drop_last();
        assert(keys_sorted(t)) by {
            assert forall|i: int, j: int| 0 <= i < j < t.len() implies key_lt(#[trigger] t[i].0, #[trigger] t[j].0) by {
                assert(t[i] == s[i] && t[j] == s[j]);
            }
        }
        lemma_keep_text_sorted(t);
        if s.last().1 is Text {
            let r = keep_text(t);
            let n = r.push(s.last());
            assert forall|i: int, j: int| 0 <= i < j < n.len() implies key_lt(#[trigger] n[i].0, #[trigger] n[j].0) by {
                if j < r.len() {
                    assert(n[i] == r[i] && n[j] == r[j]);
                } else {
                    assert(n[i] == r[i]);
                    assert(r.contains(r[i]));
                    lemma_keep_text_contains(t, r[i]);
                    let k = choose|k: int| 0 <= k < t.len() && t[k] == r[i];
                    assert(s[k] == t[k]);
                    assert(key_lt(s[k].0, s[s.len() - 1].0));
                }
            }
        }
    }
}

proof fn lemma_keep_text_map(s: Seq<(Seq<char>, EntryView)>)
    requires
        keys_sorted(s),
    ensures
        keys_sorted(keep_text(s)),
        pairs_map(keep_text(s)) == text_only(pairs_map(s)),
{
    lemma_keep_text_sorted(s);
    let n = keep_text(s);
    let m = text_only(pairs_map(s));
    assert forall|q: Seq<char>| pairs_map(n).contains_key(q) == m.contains_key(q) by {
        if pairs_map(n).contains_key(q) {
            let i = choose|i: int| has_key_at(n, q, i);
            assert(n.contains(n[i]));
            lemma_keep_text_contains(s, n[i]);
            let j = choose|j: int| 0 <= j < s.len() && s[j] == n[i];
            assert(has_key_at(s, q, j));
            lemma_pairs_map_at(s, j);
        }
        if m.contains_key(q) {
            let j = choose|j: int| has_key_at(s, q, j);
            lemma_pairs_map_at(s, j);
            assert(s.contains(s[j]));
            lemma_keep_text_contains(s, s[j]);
            let i = choose|i: int| 0 <= i < n.len() && n[i] == s[j];
            assert(has_key_at(n, q, i));
        }
    }
    assert forall|q: Seq<char>| #[trigger] m.contains_key(q) implies pairs_map(n)[q] == m[q] by {
        let j = choose|j: int| has_key_at(s, q, j);
        lemma_pairs_map_at(s, j);
        assert(s.contains(s[j]));
        lemma_keep_text_contains(s, s[j]);
        let i = choose|i: int| 0 <= i < n.len() && n[i] == s[j];
        lemma_pairs_map_at(n, i);
    }
    assert(pairs_map(n) =~= m);
}

/// The aliases of the settings document: a map from alias names to what
/// they stand for, kept in key order as the document's object keeps them.
#[derive(Debug)]
pub struct AliasTable {
    entries: Vec<(String, Entry)>,
}

impl View for AliasTable {
    type V = Map<Seq<char>, EntryView>;

    open spec fn view(&self) -> Map<Seq<char>, EntryView> {
        pairs_map(self.pairs())
    }
}

impl AliasTable {
    /// The (key, value) pairs of the table, in key order.
    pub closed spec fn pairs(&self) -> Seq<(Seq<char>, EntryView)> {
        pairs_view(self.entries@)
    }

    #[verifier::type_invariant]
    spec fn sorted(&self) -> bool {
        keys_sorted(self.pairs())
    }

    /// An empty table.
    pub fn new() -> (r: AliasTable)
        ensures
            r.pairs() == Seq::<(Seq<char>, EntryView)>::empty(),
            r@ == Map::<Seq<char>, EntryView>::empty(),
            keys_sorted(r.pairs()),
    {
        let r = AliasTable { entries: Vec::new() };
        proof {
            assert(r.pairs() =~= Seq::<(Seq<char>, EntryView)>::empty());
            assert(r@ =~= Map::<Seq<char>, EntryView>::empty());
        }
        r
    }

    /// The pairs of the table, in key order.
    pub fn entries(&self) -> (r: &Vec<(String, Entry)>)
        ensures
            pairs_view(r@) == self.pairs(),
            keys_sorted(self.pairs()),
    {
        proof {
            use_type_invariant(self);
        }
        &self.entries
    }

    /// Whether the table has no entry.
    pub fn is_empty(&self) -> (r: bool)
        ensures
            r == (self.pairs().len() == 0),
            r == (self@.dom() =~= Set::<Seq<char>>::empty()),
    {
        proof {
            use_type_invariant(self);
            if self.pairs().len() > 0 {
                lemma_pairs_map_at(self.pairs(), 0);
            }
        }
        self.entries.len() == 0
    }

    /// Where `k` stands or would stand among the pairs, and whether it is there.
    fn position(v: &Vec<(String, Entry)>, k: &Vec<char>) -> (r: (usize, bool))
        requires
            keys_sorted(pairs_view(v@)),
        ensures
            r.0 <= v.len(),
            forall|i: int| 0 <= i < r.0 ==> key_lt(#[trigger] pairs_view(v@)[i].0, k@),
            r.1 ==> r.0 < v.len() && pairs_view(v@)[r.0 as int].0 == k@,
            !r.1 ==> (r.0 < v.len() ==> key_lt(k@, pairs_view(v@)[r.0 as int].0)),
            !r.1 ==> forall|i: int| 0 <= i < v.len() ==> #[trigger] pairs_view(v@)[i].0 != k@,
    {
        let ghost s = pairs_view(v@);
        let mut i: usize = 0;
        while i < v.len()
            invariant
                i <= v.len(),
                s == pairs_view(v@),
                keys_sorted(s),
                forall|j: int| 0 <= j < i ==> key_lt(#[trigger] s[j].0, k@),
            decreases v.len() - i,
        {
            let key_chars = chars_of(v[i].0.as_str());
            assert(s[i as int].0 == key_chars@);
            match compare_keys(&key_chars, k) {
                KeyOrder::Less => {
                    i = i + 1;
                },
                KeyOrder::Equal => {
                    return (i, true);
                },
                KeyOrder::Greater => {
                    proof {
                        assert forall|j: int| 0 <= j < v.len() implies #[trigger] s[j].0 != k@ by {
                            if j < i {
                                lemma_key_lt_irreflexive(k@);
                            } else if j == i {
                                lemma_key_lt_irreflexive(k@);
                            } else {
                                assert(key_lt(s[i as int].0, s[j].0));
                                lemma_key_lt_transitive(k@, s[i as int].0, s[j].0);
                                lemma_key_lt_irreflexive(k@);
                            }
                        }
                    }
                    return (i, false);
                },
            }
        }
        proof {
            assert forall|j: int| 0 <= j < v.len() implies #[trigger] s[j].0 != k@ by {
                lemma_key_lt_irreflexive(k@);
            }
        }
        (i, false)
    }

    /// Sets the alias `key` to `value`, and gives back what it stood for before.
    pub fn insert(&mut self, key: String, value: Entry) -> (r: Option<Entry>)
        ensures
            final(self)@ == old(self)@.insert(key@, value@),
            keys_sorted(final(self).pairs()),
            opt_entry_view(r) == (if old(self)@.contains_key(key@) {
                Some(old(self)@[key@])
            } else {
                None
            }),
    {
        proof {
            use_type_invariant(&*self);
        }
        let mut v: Vec<(String, Entry)> = Vec::new();
        std::mem::swap(&mut v, &mut self.entries);
        let ghost s = pairs_view(v@);
        let k = chars_of(key.as_str());
        let (p, found) = Self::position(&v, &k);
        let ghost x = (key@, value@);
        if found {
            let old_pair = v.remove(p);
            v.insert(p, (key, value));
            proof {
                assert(pairs_view(v@) =~= s.update(p as int, x));
                lemma_pairs_map_update(s, p as int, x);
                lemma_pairs_map_at(s, p as int);
                assert(old_pair.1@ == s[p as int].1);
            }
            self.entries = v;
            Some(old_pair.1)
        } else {
            v.insert(p, (key, value));
            proof {
                assert(pairs_view(v@) =~= s.insert(p as int, x));
                lemma_insert_sorted(s, p as int, x);
                lemma_pairs_map_insert(s, p as int, x);
            }
            self.entries = v;
            None
        }
    }

    /// Removes the alias `key`, and gives back what it stood for.
    pub fn remove(&mut self, key: &String) -> (r: Option<Entry>)
        ensures
            final(self)@ == old(self)@.remove(key@),
            keys_sorted(final(self).pairs()),
            opt_entry_view(r) == (if old(self)@.contains_key(key@) {
                Some(old(self)@[key@])
            } else {
                None
            }),
    {
        proof {
            use_type_invariant(&*self);
        }
        let mut v: Vec<(String, Entry)> = Vec::new();
        std::mem::swap(&mut v, &mut self.entries);
        let ghost s = pairs_view(v@);
        let k = chars_of(key.as_str());
        let (p, found) = Self::position(&v, &k);
        if found {
            let old_pair = v.remove(p);
            proof {
                assert(pairs_view(v@) =~= s.remove(p as int));
                lemma_pairs_map_remove(s, p as int);
                lemma_pairs_map_at(s, p as int);
            }
            self.entries = v;
            Some(old_pair.1)
        } else {
            proof {
                assert(pairs_map(s) =~= pairs_map(s).remove(key@));
            }
            self.entries = v;
            None
        }
    }

    /// Drops every alias whose value is not a JSON string.
    pub fn retain_text(&mut self)
        ensures
            final(self)@ == text_only(old(self)@),
            final(self).pairs() == keep_text(old(self).pairs()),
            keys_sorted(final(self).pairs()),
    {
        proof {
            use_type_invariant(&*self);
        }
        let mut v: Vec<(String, Entry)> = Vec::new();
        std::mem::swap(&mut v, &mut self.entries);
        let ghost s = pairs_view(v@);
        let mut out: Vec<(String, Entry)> = Vec::new();
        let mut i: usize = 0;
        proof {
            assert(s.take(0) =~= Seq::<(Seq<char>, EntryView)>::empty());
            assert(pairs_view(out@) =~= Seq::<(Seq<char>, EntryView)>::empty());
        }
        while i < v.len()
            invariant
                i <= v.len(),
                s == pairs_view(v@),
                pairs_view(out@) == keep_text(s.take(i as int)),
            decreases v.len() - i,
        {
            proof {
                assert(s.take(i + 1).drop_last() =~= s.take(i as int));
                assert(s.take(i + 1).last() == s[i as int]);
            }
            if v[i].1.is_text() {
                let key = v[i].0.clone();
                let value = v[i].1.duplicate();
                out.push((key, value));
                proof {
                    assert(pairs_view(out@) =~= keep_text(s.take(i as int)).push(s[i as int]));
                }
            }
            i = i + 1;
        }
        proof {
            assert(s.take(v.len() as int) =~= s);
            lemma_keep_text_map(s);
        }
        self.entries = out;
    }
}

} // verus!
