//! Maps and sets keyed by text, kept in ascending key order.
use vstd::prelude::*;

use crate::text::{lemma_lex_irreflexive, lemma_lex_total, lemma_lex_transitive, lex_lt, str_eq, str_lt};

verus! {

/// The keys of `pairs` ascend strictly.
pub open spec fn ascending<V>(pairs: Seq<(String, V)>) -> bool {
    forall|i: int, j: int|
        0 <= i < j < pairs.len() ==> lex_lt(#[trigger] pairs[i].0@, #[trigger] pairs[j].0@)
}

/// `k` is the key of the pair at `i`.
pub open spec fn key_at<V>(pairs: Seq<(String, V)>, k: Seq<char>, i: int) -> bool {
    0 <= i < pairs.len() && pairs[i].0@ == k
}

/// `k` is a key of `pairs`.
pub open spec fn has_key<V>(pairs: Seq<(String, V)>, k: Seq<char>) -> bool {
    exists|i: int| key_at(pairs, k, i)
}

/// The map that `pairs` holds.
pub open spec fn map_of<V>(pairs: Seq<(String, V)>) -> Map<Seq<char>, V> {
    Map::new(
        |k: Seq<char>| has_key(pairs, k),
        |k: Seq<char>| pairs[choose|i: int| key_at(pairs, k, i)].1,
    )
}

/// Each pair of an ascending sequence is what the map holds under its key.
pub proof fn lemma_map_of<V>(pairs: Seq<(String, V)>, i: int)
    requires
        ascending(pairs),
        0 <= i < pairs.len(),
    ensures
        map_of(pairs).dom().contains(pairs[i].0@),
        map_of(pairs)[pairs[i].0@] == pairs[i].1,
{
    let k = pairs[i].0@;
    assert(key_at(pairs, k, i));
    let j = choose|j: int| key_at(pairs, k, j);
    if j != i {
        lemma_lex_irreflexive(k);
        if i < j {
            assert(lex_lt(pairs[i].0@, pairs[j].0@));
        } else {
            assert(lex_lt(pairs[j].0@, pairs[i].0@));
        }
    }
}

/// The texts of `s` ascend strictly.
pub open spec fn strictly_ascending(s: Seq<Seq<char>>) -> bool {
    forall|i: int, j: int| 0 <= i < j < s.len() ==> lex_lt(#[trigger] s[i], #[trigger] s[j])
}

/// `s` lists the members of `d` in ascending order.
pub open spec fn lists_sorted(s: Seq<Seq<char>>, d: Set<Seq<char>>) -> bool {
    strictly_ascending(s) && forall|x: Seq<char>| #[trigger] s.contains(x) == d.contains(x)
}

/// The members of `d`, which is finite, in ascending order.
pub open spec fn sorted_keys(d: Set<Seq<char>>) -> Seq<Seq<char>> {
    choose|s: Seq<Seq<char>>| lists_sorted(s, d)
}

/// An ascending sequence is determined by its members.
pub proof fn lemma_ascending_unique(s: Seq<Seq<char>>, t: Seq<Seq<char>>)
    requires
        strictly_ascending(s),
        strictly_ascending(t),
        forall|x: Seq<char>| #[trigger] s.contains(x) == t.contains(x),
    ensures
        s == t,
    decreases s.len(),
{
    if s.len() == 0 {
        if t.len() > 0 {
            assert(t.contains(t[0]));
            assert(s.contains(t[0]));
        }
        assert(s =~= t);
    } else {
        assert(s.contains(s[0]));
        assert(t.contains(s[0]));
        let j = choose|j: int| 0 <= j < t.len() && t[j] == s[0];
        assert(t.contains(t[0]));
        assert(s.contains(t[0]));
        let i = choose|i: int| 0 <= i < s.len() && s[i] == t[0];
        if i > 0 {
            assert(lex_lt(s[0], s[i]));
            if j > 0 {
                assert(lex_lt(t[0], t[j]));
                lemma_lex_transitive(s[0], t[0], s[0]);
                lemma_lex_irreflexive(s[0]);
            } else {
                lemma_lex_irreflexive(s[0]);
            }
        }
        assert(s[0] == t[0]);
        let s1 = s.subrange(1, s.len() as int);
        let t1 = t.subrange(1, t.len() as int);
        assert forall|x: Seq<char>| #[trigger] s1.contains(x) == t1.contains(x) by {
            if s1.contains(x) {
                let k = choose|k: int| 0 <= k < s1.len() && s1[k] == x;
                assert(s[k + 1] == x);
                assert(lex_lt(s[0], s[k + 1]));
                assert(s.contains(x));
                let l = choose|l: int| 0 <= l < t.len() && t[l] == x;
                lemma_lex_irreflexive(x);
                assert(l > 0);
                assert(t1[l - 1] == x);
            }
            if t1.contains(x) {
                let k = choose|k: int| 0 <= k < t1.len() && t1[k] == x;
                assert(t[k + 1] == x);
                assert(lex_lt(t[0], t[k + 1]));
                assert(t.contains(x));
                assert(s.contains(x));
                let l = choose|l: int| 0 <= l < s.len() && s[l] == x;
                lemma_lex_irreflexive(x);
                assert(l > 0);
                assert(s1[l - 1] == x);
            }
        }
        lemma_ascending_unique(s1, t1);
        assert(s =~= seq![s[0]] + s1);
        assert(t =~= seq![t[0]] + t1);
    }
}

/// A finite set of texts that is not empty has a least member.
pub proof fn lemma_least(d: Set<Seq<char>>) -> (least: Seq<char>)
    requires
        d.finite(),
        d.len() > 0,
    ensures
        d.contains(least),
        forall|x: Seq<char>| d.contains(x) ==> !#[trigger] lex_lt(x, least),
    decreases d.len(),
{
    let x = d.choose();
    let rest = d.remove(x);
    if rest.len() == 0 {
        assert forall|y: Seq<char>| d.contains(y) implies !#[trigger] lex_lt(y, x) by {
            if y != x {
                assert(rest.contains(y));
            }
            lemma_lex_irreflexive(x);
        }
        x
    } else {
        let m = lemma_least(rest);
        let least = if lex_lt(x, m) { x } else { m };
        assert forall|y: Seq<char>| d.contains(y) implies !#[trigger] lex_lt(y, least) by {
            lemma_lex_irreflexive(x);
            if y != x {
                assert(rest.contains(y));
                if least == x && lex_lt(y, x) {
                    lemma_lex_transitive(y, x, m);
                }
            }
        }
        least
    }
}

/// A finite set of texts can be listed in ascending order.
pub proof fn lemma_sortable(d: Set<Seq<char>>)
    requires
        d.finite(),
    ensures
        lists_sorted(sorted_keys(d), d),
    decreases d.len(),
{
    if d.len() == 0 {
        let none = Seq::<Seq<char>>::empty();
        assert(d =~= Set::empty());
        assert(lists_sorted(none, d));
    } else {
        let least = lemma_least(d);
        let rest = d.remove(least);
        lemma_sortable(rest);
        let tail = sorted_keys(rest);
        let s = seq![least] + tail;
        assert forall|i: int, j: int| 0 <= i < j < s.len() implies lex_lt(
            #[trigger] s[i],
            #[trigger] s[j],
        ) by {
            assert(s[j] == tail[j - 1]);
            assert(tail.contains(s[j]));
            if i == 0 {
                lemma_lex_total(least, s[j]);
            } else {
                assert(s[i] == tail[i - 1]);
            }
        }
        assert forall|x: Seq<char>| #[trigger] s.contains(x) == d.contains(x) by {
            if s.contains(x) {
                let i = choose|i: int| 0 <= i < s.len() && s[i] == x;
                if i > 0 {
                    assert(tail[i - 1] == x);
                    assert(tail.contains(x));
                }
            }
            if d.contains(x) {
                if x == least {
                    assert(s[0] == x);
                } else {
                    assert(rest.contains(x));
                    assert(tail.contains(x));
                    let i = choose|i: int| 0 <= i < tail.len() && tail[i] == x;
                    assert(s[i + 1] == x);
                }
            }
        }
        assert(lists_sorted(s, d));
    }
}

/// The keys of `pairs`.
pub open spec fn key_views<V>(pairs: Seq<(String, V)>) -> Seq<Seq<char>> {
    pairs.map_values(|p: (String, V)| p.0@)
}

/// The keys of an ascending sequence of pairs are the sorted domain.
pub proof fn lemma_sorted_keys<V>(pairs: Seq<(String, V)>)
    requires
        ascending(pairs),
    ensures
        sorted_keys(map_of(pairs).dom()) == key_views(pairs),
{
    let s = key_views(pairs);
    let d = map_of(pairs).dom();
    assert forall|i: int, j: int| 0 <= i < j < s.len() implies lex_lt(
        #[trigger] s[i],
        #[trigger] s[j],
    ) by {
        assert(lex_lt(pairs[i].0@, pairs[j].0@));
    }
    assert forall|x: Seq<char>| #[trigger] s.contains(x) == d.contains(x) by {
        if s.contains(x) {
            let i = choose|i: int| 0 <= i < s.len() && s[i] == x;
            assert(key_at(pairs, x, i));
        }
        if d.contains(x) {
            let i = choose|i: int| key_at(pairs, x, i);
            assert(s[i] == x);
        }
    }
    assert(lists_sorted(s, d));
    lemma_ascending_unique(sorted_keys(d), s);
}

/// A map holds as many keys as there are pairs.
pub proof fn lemma_len<V>(pairs: Seq<(String, V)>)
    requires
        ascending(pairs),
    ensures
        map_of(pairs).dom().finite(),
        map_of(pairs).dom().len() == pairs.len(),
{
    let s = key_views(pairs);
    assert(s.no_duplicates()) by {
        assert forall|i: int, j: int| 0 <= i < j < s.len() implies s[i] != s[j] by {
            assert(lex_lt(pairs[i].0@, pairs[j].0@));
            lemma_lex_irreflexive(s[i]);
        }
    }
    s.unique_seq_to_set();
    assert forall|k: Seq<char>| s.to_set().contains(k) == map_of(pairs).dom().contains(k) by {
        if s.contains(k) {
            let i = choose|i: int| 0 <= i < s.len() && s[i] == k;
            assert(key_at(pairs, k, i));
        }
        if has_key(pairs, k) {
            let i = choose|i: int| key_at(pairs, k, i);
            assert(s[i] == k);
        }
    }
    assert(s.to_set() =~= map_of(pairs).dom());
}

/// A map from text to `V`.
#[derive(Debug, PartialEq, Eq)]
pub struct StrMap<V> {
    entries: Vec<(String, V)>,
}

impl<V> View for StrMap<V> {
    type V = Map<Seq<char>, V>;

    open spec fn view(&self) -> Map<Seq<char>, V> {
        map_of(self.pairs())
    }
}

impl<V> StrMap<V> {
    /// The entries in ascending key order.
    pub closed spec fn pairs(&self) -> Seq<(String, V)> {
        self.entries@
    }

    #[verifier::type_invariant]
    spec fn inv(self) -> bool {
        ascending(self.entries@)
    }

    pub fn new() -> (m: StrMap<V>)
        ensures
            m.pairs() == Seq::<(String, V)>::empty(),
            m@ == Map::<Seq<char>, V>::empty(),
    {
        let m = StrMap { entries: Vec::new() };
        assert(m@ =~= Map::<Seq<char>, V>::empty());
        m
    }

    pub fn len(&self) -> (n: usize)
        ensures
            n == self.pairs().len(),
            ascending(self.pairs()),
    {
        proof {
            use_type_invariant(self);
        }
        self.entries.len()
    }

    pub fn is_empty(&self) -> (r: bool)
        ensures
            r == (self.pairs().len() == 0),
            r == (self@ == Map::<Seq<char>, V>::empty()),
    {
        let r = self.entries.len() == 0;
        proof {
            use_type_invariant(self);
            if r {
                assert(self@ =~= Map::<Seq<char>, V>::empty());
            } else {
                lemma_map_of(self.pairs(), 0);
            }
        }
        r
    }

    /// The key of entry `i`.
    pub fn key(&self, i: usize) -> (k: &String)
        requires
            i < self.pairs().len(),
        ensures
            *k == self.pairs()[i as int].0,
            self@.dom().contains(k@),
    {
        proof {
            use_type_invariant(self);
            lemma_map_of(self.pairs(), i as int);
        }
        &self.entries[i].0
    }

    /// The value of entry `i`.
    pub fn value(&self, i: usize) -> (v: &V)
        requires
            i < self.pairs().len(),
        ensures
            *v == self.pairs()[i as int].1,
            self@[self.pairs()[i as int].0@] == *v,
    {
        proof {
            use_type_invariant(self);
            lemma_map_of(self.pairs(), i as int);
        }
        &self.entries[i].1
    }

    /// The keys in ascending order.
    pub fn keys(&self) -> (out: Vec<String>)
        ensures
            out@ == self.pairs().map_values(|p: (String, V)| p.0),
            ascending(self.pairs()),
    {
        proof {
            use_type_invariant(self);
        }
        let mut out: Vec<String> = Vec::new();
        let mut i: usize = 0;
        while i < self.entries.len()
            invariant
                i <= self.entries.len(),
                out@ == self.entries@.take(i as int).map_values(|p: (String, V)| p.0),
            decreases self.entries.len() - i,
        {
            out.push(self.entries[i].0.clone());
            proof {
                assert(self.entries@.take(i + 1) =~= self.entries@.take(i as int).push(
                    self.entries@[i as int],
                ));
            }
            i += 1;
            assert(out@ =~= self.entries@.take(i as int).map_values(|p: (String, V)| p.0));
        }
        assert(self.entries@.take(i as int) =~= self.entries@);
        out
    }

    /// The position of `k`, or where it would stand.
    fn find(&self, k: &str) -> (r: (bool, usize))
        ensures
            r.0 == self@.dom().contains(k@),
            r.1 <= self.pairs().len(),
            r.0 ==> key_at(self.pairs(), k@, r.1 as int),
            !r.0 ==> forall|i: int| 0 <= i < r.1 ==> lex_lt(#[trigger] self.pairs()[i].0@, k@),
            !r.0 ==> forall|i: int|
                r.1 <= i < self.pairs().len() ==> lex_lt(k@, #[trigger] self.pairs()[i].0@),
    {
        proof {
            use_type_invariant(self);
        }
        let mut i: usize = 0;
        while i < self.entries.len()
            invariant
                i <= self.entries.len(),
                ascending(self.entries@),
                forall|j: int| 0 <= j < i ==> lex_lt(#[trigger] self.entries@[j].0@, k@),
            decreases self.entries.len() - i,
        {
            if str_eq(self.entries[i].0.as_str(), k) {
                assert(key_at(self.pairs(), k@, i as int));
                return (true, i);
            }
            if str_lt(k, self.entries[i].0.as_str()) {
                proof {
                    assert forall|j: int| i <= j < self.pairs().len() implies lex_lt(
                        k@,
                        #[trigger] self.pairs()[j].0@,
                    ) by {
                        if j > i {
                            lemma_lex_transitive(k@, self.pairs()[i as int].0@, self.pairs()[j].0@);
                        }
                    }
                    if has_key(self.pairs(), k@) {
                        let j = choose|j: int| key_at(self.pairs(), k@, j);
                        lemma_lex_irreflexive(k@);
                        assert(false);
                    }
                }
                return (false, i);
            }
            proof {
                lemma_lex_total(k@, self.entries@[i as int].0@);
            }
            i += 1;
        }
        proof {
            if has_key(self.pairs(), k@) {
                let j = choose|j: int| key_at(self.pairs(), k@, j);
                lemma_lex_irreflexive(k@);
                assert(false);
            }
        }
        (false, i)
    }

    pub fn contains_key(&self, k: &str) -> (r: bool)
        ensures
            r == self@.dom().contains(k@),
    {
        self.find(k).0
    }

    pub fn get(&self, k: &str) -> (r: Option<&V>)
        ensures
            r is Some == self@.dom().contains(k@),
            r matches Some(v) ==> *v == self@[k@],
    {
        let (found, i) = self.find(k);
        if found {
            proof {
                use_type_invariant(self);
                lemma_map_of(self.pairs(), i as int);
            }
            Some(&self.entries[i].1)
        } else {
            None
        }
    }

    /// Puts `v` under `k`, in place of what stood there.
    pub fn insert(&mut self, k: String, v: V)
        ensures
            final(self)@ == old(self)@.insert(k@, v),
    {
        let (found, i) = self.find(k.as_str());
        proof {
            use_type_invariant(&*self);
        }
        let ghost before = self.entries@;
        let mut entries: Vec<(String, V)> = Vec::new();
        std::mem::swap(&mut entries, &mut self.entries);
        if found {
            entries[i].1 = v;
            proof {
                let after = entries@;
                assert forall|x: int, y: int| 0 <= x < y < after.len() implies lex_lt(
                    #[trigger] after[x].0@,
                    #[trigger] after[y].0@,
                ) by {
                    assert(after[x].0 == before[x].0);
                    assert(after[y].0 == before[y].0);
                    assert(lex_lt(before[x].0@, before[y].0@));
                }
                lemma_update(before, after, i as int, k@, v);
            }
        } else {
            let ghost kv = k@;
            entries.insert(i, (k, v));
            proof {
                let after = entries@;
                assert forall|x: int, y: int| 0 <= x < y < after.len() implies lex_lt(
                    #[trigger] after[x].0@,
                    #[trigger] after[y].0@,
                ) by {
                    let bx = if x < i { x } else { x - 1 };
                    let by = if y < i { y } else { y - 1 };
                    if x == i {
                        assert(lex_lt(kv, before[by].0@));
                    } else if y == i {
                        assert(lex_lt(before[bx].0@, kv));
                    } else {
                        assert(lex_lt(before[bx].0@, before[by].0@));
                    }
                }
                lemma_added(before, after, i as int, kv, v);
            }
        }
        self.entries = entries;
    }

    /// Removes `k`.
    pub fn remove(&mut self, k: &str) -> (r: Option<V>)
        ensures
            final(self)@ == old(self)@.remove(k@),
            r is Some == old(self)@.dom().contains(k@),
            r matches Some(v) ==> v == old(self)@[k@],
    {
        let (found, i) = self.find(k);
        if !found {
            assert(self@ =~= self@.remove(k@));
            return None;
        }
        proof {
            use_type_invariant(&*self);
        }
        let ghost before = self.entries@;
        let mut entries: Vec<(String, V)> = Vec::new();
        std::mem::swap(&mut entries, &mut self.entries);
        let gone = entries.remove(i);
        proof {
            let after = entries@;
            assert forall|x: int, y: int| 0 <= x < y < after.len() implies lex_lt(
                #[trigger] after[x].0@,
                #[trigger] after[y].0@,
            ) by {
                let bx = if x < i { x } else { x + 1 };
                let by = if y < i { y } else { y + 1 };
                assert(lex_lt(before[bx].0@, before[by].0@));
            }
            lemma_added(after, before, i as int, k@, gone.1);
            lemma_map_of(before, i as int);
            if has_key(after, k@) {
                let x = choose|x: int| key_at(after, k@, x);
                let bx = if x < i { x } else { x + 1 };
                lemma_lex_irreflexive(k@);
                if bx < i {
                    assert(lex_lt(before[bx].0@, before[i as int].0@));
                } else {
                    assert(lex_lt(before[i as int].0@, before[bx].0@));
                }
            }
            assert(map_of(after) =~= map_of(before).remove(k@));
        }
        self.entries = entries;
        Some(gone.1)
    }

    /// The entries in ascending key order.
    pub fn into_entries(self) -> (out: Vec<(String, V)>)
        ensures
            out@ == self.pairs(),
            ascending(out@),
    {
        proof {
            use_type_invariant(&self);
        }
        self.entries
    }

    /// The map of the given entries, which ascend.
    pub fn from_sorted(entries: Vec<(String, V)>) -> (m: StrMap<V>)
        requires
            ascending(entries@),
        ensures
            m.pairs() == entries@,
    {
        StrMap { entries }
    }
}

impl<V: Clone> Clone for StrMap<V> {
    fn clone(&self) -> (r: Self)
        ensures
            r.pairs().len() == self.pairs().len(),
            forall|i: int|
                #![trigger r.pairs()[i]]
                0 <= i < r.pairs().len() ==> r.pairs()[i].0 == self.pairs()[i].0 && cloned::<V>(
                    self.pairs()[i].1,
                    r.pairs()[i].1,
                ),
    {
        proof {
            use_type_invariant(self);
        }
        let mut entries: Vec<(String, V)> = Vec::new();
        let mut i: usize = 0;
        while i < self.entries.len()
            invariant
                i <= self.entries.len(),
                entries.len() == i,
                forall|j: int|
                    #![trigger entries@[j]]
                    0 <= j < i ==> entries@[j].0 == self.entries@[j].0 && cloned::<V>(
                        self.entries@[j].1,
                        entries@[j].1,
                    ),
            decreases self.entries.len() - i,
        {
            entries.push((self.entries[i].0.clone(), self.entries[i].1.clone()));
            i += 1;
        }
        proof {
            assert forall|x: int, y: int| 0 <= x < y < entries@.len() implies lex_lt(
                #[trigger] entries@[x].0@,
                #[trigger] entries@[y].0@,
            ) by {
                assert(lex_lt(self.entries@[x].0@, self.entries@[y].0@));
            }
        }
        StrMap { entries }
    }
}

/// Replacing the value at `i` is inserting under its key.
proof fn lemma_update<V>(
    before: Seq<(String, V)>,
    after: Seq<(String, V)>,
    i: int,
    k: Seq<char>,
    v: V,
)
    requires
        ascending(before),
        ascending(after),
        key_at(before, k, i),
        after =~= before.update(i, (before[i].0, v)),
    ensures
        map_of(after) == map_of(before).insert(k, v),
{
    let m = map_of(after);
    let n = map_of(before).insert(k, v);
    assert forall|q: Seq<char>| m.dom().contains(q) == n.dom().contains(q) by {
        if has_key(after, q) {
            let x = choose|x: int| key_at(after, q, x);
            assert(key_at(before, q, x));
        }
        if has_key(before, q) {
            let x = choose|x: int| key_at(before, q, x);
            assert(key_at(after, q, x));
        }
        if q == k {
            assert(key_at(after, q, i));
        }
    }
    assert forall|q: Seq<char>| m.dom().contains(q) implies m[q] == n[q] by {
        let x = choose|x: int| key_at(after, q, x);
        lemma_map_of(after, x);
        lemma_map_of(before, x);
        if x == i {
            assert(q == k);
        } else if q == k {
            lemma_map_of(after, i);
            lemma_lex_irreflexive(k);
            if x < i {
                assert(lex_lt(after[x].0@, after[i].0@));
            } else {
                assert(lex_lt(after[i].0@, after[x].0@));
            }
        }
    }
    assert(m =~= n);
}

/// Adding a pair at `i` is inserting it.
proof fn lemma_added<V>(
    before: Seq<(String, V)>,
    after: Seq<(String, V)>,
    i: int,
    k: Seq<char>,
    v: V,
)
    requires
        ascending(before),
        ascending(after),
        0 <= i <= before.len(),
        after.len() == before.len() + 1,
        after[i].0@ == k,
        after[i].1 == v,
        forall|j: int| 0 <= j < i ==> after[j] == before[j],
        forall|j: int| i < j < after.len() ==> after[j] == before[j - 1],
    ensures
        map_of(after) == map_of(before).insert(k, v),
{
    let m = map_of(after);
    let n = map_of(before).insert(k, v);
    assert forall|q: Seq<char>| m.dom().contains(q) == n.dom().contains(q) by {
        if has_key(after, q) {
            let x = choose|x: int| key_at(after, q, x);
            if x < i {
                assert(key_at(before, q, x));
            } else if x > i {
                assert(key_at(before, q, x - 1));
            }
        }
        if has_key(before, q) {
            let x = choose|x: int| key_at(before, q, x);
            if x < i {
                assert(key_at(after, q, x));
            } else {
                assert(after[x + 1] == before[x]);
                assert(key_at(after, q, x + 1));
            }
        }
        if q == k {
            assert(key_at(after, q, i));
        }
    }
    assert forall|q: Seq<char>| m.dom().contains(q) implies m[q] == n[q] by {
        let x = choose|x: int| key_at(after, q, x);
        lemma_map_of(after, x);
        if x < i {
            lemma_map_of(before, x);
            assert(lex_lt(after[x].0@, after[i].0@));
            lemma_lex_irreflexive(k);
        } else if x > i {
            lemma_map_of(before, x - 1);
            assert(lex_lt(after[i].0@, after[x].0@));
            lemma_lex_irreflexive(k);
        }
    }
    assert(m =~= n);
}

// ---------------------------------------------------------------------------
// Sets
// ---------------------------------------------------------------------------

/// A set of texts, kept in ascending order.
#[derive(Debug, PartialEq, Eq)]
pub struct StrSet {
    items: StrMap<()>,
}

impl View for StrSet {
    type V = Set<Seq<char>>;

    closed spec fn view(&self) -> Set<Seq<char>> {
        self.items@.dom()
    }
}

impl Clone for StrSet {
    fn clone(&self) -> (r: Self)
        ensures
            r@ == self@,
    {
        let r = StrSet { items: self.items.clone() };
        proof {
            let a = self.items.pairs();
            let b = r.items.pairs();
            assert forall|n: Seq<char>| r@.contains(n) == self@.contains(n) by {
                if has_key(a, n) {
                    let i = choose|i: int| key_at(a, n, i);
                    assert(b[i].0 == a[i].0);
                    assert(key_at(b, n, i));
                }
                if has_key(b, n) {
                    let i = choose|i: int| key_at(b, n, i);
                    assert(b[i].0 == a[i].0);
                    assert(key_at(a, n, i));
                }
            }
            assert(r@ =~= self@);
        }
        r
    }
}

impl StrSet {
    pub fn new() -> (s: StrSet)
        ensures
            s@ == Set::<Seq<char>>::empty(),
    {
        let s = StrSet { items: StrMap::new() };
        assert(s@ =~= Set::<Seq<char>>::empty());
        s
    }

    pub fn insert(&mut self, name: String)
        ensures
            final(self)@ == old(self)@.insert(name@),
    {
        self.items.insert(name, ());
        assert(self@ =~= old(self)@.insert(name@));
    }

    pub fn contains(&self, name: &str) -> (r: bool)
        ensures
            r == self@.contains(name@),
    {
        self.items.contains_key(name)
    }

    /// The members in ascending order.
    pub fn names(&self) -> (out: Vec<String>)
        ensures
            forall|n: Seq<char>| self@.contains(n) == crate::text::listed(out@, n),
            forall|i: int, j: int| 0 <= i < j < out.len() ==> lex_lt(#[trigger] out@[i]@, #[trigger] out@[j]@),
    {
        let out = self.items.keys();
        proof {
            let pairs = self.items.pairs();
            assert forall|n: Seq<char>| self@.contains(n) == crate::text::listed(out@, n) by {
                if has_key(pairs, n) {
                    let i = choose|i: int| key_at(pairs, n, i);
                    assert(out@[i]@ == n);
                }
                if crate::text::listed(out@, n) {
                    let i = choose|i: int| 0 <= i < out@.len() && out@[i]@ == n;
                    assert(key_at(pairs, n, i));
                }
            }
            assert forall|i: int, j: int| 0 <= i < j < out.len() implies lex_lt(#[trigger] out@[i]@, #[trigger] out@[j]@) by {
                assert(lex_lt(pairs[i].0@, pairs[j].0@));
            }
        }
        out
    }

    /// The set of the texts in `names`.
    pub fn from_names(names: &Vec<String>) -> (s: StrSet)
        ensures
            forall|n: Seq<char>| s@.contains(n) == crate::text::listed(names@, n),
    {
        let mut s = StrSet::new();
        let mut i: usize = 0;
        while i < names.len()
            invariant
                i <= names.len(),
                forall|n: Seq<char>| s@.contains(n) == crate::text::listed(names@.take(i as int), n),
            decreases names.len() - i,
        {
            let ghost before = s@;
            s.insert(names[i].clone());
            proof {
                let a = names@.take(i as int);
                let b = names@.take(i + 1);
                assert forall|n: Seq<char>| s@.contains(n) == crate::text::listed(b, n) by {
                    if crate::text::listed(a, n) {
                        let k = choose|k: int| 0 <= k < a.len() && a[k]@ == n;
                        assert(b[k]@ == n);
                    }
                    if crate::text::listed(b, n) {
                        let k = choose|k: int| 0 <= k < b.len() && b[k]@ == n;
                        if k < i {
                            assert(a[k]@ == n);
                        }
                    }
                    if n == names@[i as int]@ {
                        assert(b[i as int]@ == n);
                    }
                }
            }
            i += 1;
        }
        assert(names@.take(i as int) =~= names@);
        s
    }
}

} // verus!
