//! Counting keys: how often each key occurs in a sequence, with the keys in
//! the order in which each was first seen.
use vstd::prelude::*;
use vstd::std_specs::cmp::PartialEqSpecImpl;

verus! {

/// How many times `k` occurs in `s`.
pub open spec fn count_in(s: Seq<Seq<char>>, k: Seq<char>) -> nat
    decreases s.len(),
{
    if s.len() == 0 {
        0
    } else {
        count_in(s.drop_last(), k) + if s.last() == k {
            1nat
        } else {
            0nat
        }
    }
}

/// The distinct keys of `s`, each once, in the order of their first occurrence.
pub open spec fn first_seen(s: Seq<Seq<char>>) -> Seq<Seq<char>>
    decreases s.len(),
{
    if s.len() == 0 {
        Seq::empty()
    } else {
        let p = first_seen(s.drop_last());
        if p.contains(s.last()) {
            p
        } else {
            p.push(s.last())
        }
    }
}

/// The tally of `s`: each distinct key of `s` in the order of its first
/// occurrence, with the number of times it occurs.
pub open spec fn tally_of(s: Seq<Seq<char>>) -> Seq<(Seq<char>, nat)> {
    first_seen(s).map_values(|k: Seq<char>| (k, count_in(s, k)))
}

/// No key appears twice among the entries.
pub open spec fn keys_distinct(t: Seq<(Seq<char>, nat)>) -> bool {
    forall|i: int, j: int| 0 <= i < j < t.len() ==> (#[trigger] t[i]).0 != (#[trigger] t[j]).0
}

/// Some entry holds the key `k`.
pub open spec fn has_key(t: Seq<(Seq<char>, nat)>, k: Seq<char>) -> bool {
    exists|i: int| 0 <= i < t.len() && (#[trigger] t[i]).0 == k
}

/// The position of an entry holding the key `k`.
pub open spec fn key_index(t: Seq<(Seq<char>, nat)>, k: Seq<char>) -> int {
    choose|i: int| 0 <= i < t.len() && (#[trigger] t[i]).0 == k
}

/// The entries after counting `k` once more: its entry grows by one, or a
/// new entry `(k, 1)` comes last.
pub open spec fn bumped(t: Seq<(Seq<char>, nat)>, k: Seq<char>) -> Seq<(Seq<char>, nat)> {
    if has_key(t, k) {
        let i = key_index(t, k);
        t.update(i, (k, t[i].1 + 1))
    } else {
        t.push((k, 1nat))
    }
}

proof fn lemma_contains_push(s: Seq<Seq<char>>, x: Seq<char>, y: Seq<char>)
    ensures
        s.push(y).contains(x) <==> (s.contains(x) || x == y),
{
    if s.push(y).contains(x) {
        let i = choose|i: int| 0 <= i < s.push(y).len() && s.push(y)[i] == x;
        if i < s.len() {
            assert(s[i] == x);
        }
    }
    if s.contains(x) {
        let i = choose|i: int| 0 <= i < s.len() && s[i] == x;
        assert(s.push(y)[i] == x);
    }
    if x == y {
        assert(s.push(y)[s.len() as int] == x);
    }
}

proof fn lemma_split_last(s: Seq<Seq<char>>)
    requires
        s.len() > 0,
    ensures
        s == s.drop_last().push(s.last()),
{
    assert(s =~= s.drop_last().push(s.last()));
}

/// The keys first seen in `s` are exactly the keys of `s`.
pub proof fn lemma_first_seen_contains(s: Seq<Seq<char>>, x: Seq<char>)
    ensures
        first_seen(s).contains(x) <==> s.contains(x),
    decreases s.len(),
{
    if s.len() > 0 {
        let d = s.drop_last();
        lemma_first_seen_contains(d, x);
        lemma_first_seen_contains(d, s.last());
        lemma_split_last(s);
        lemma_contains_push(d, x, s.last());
        lemma_contains_push(first_seen(d), x, s.last());
    }
}

/// The keys first seen in `s` are distinct.
pub proof fn lemma_first_seen_distinct(s: Seq<Seq<char>>)
    ensures
        forall|i: int, j: int|
            0 <= i < j < first_seen(s).len() ==> first_seen(s)[i] != first_seen(s)[j],
    decreases s.len(),
{
    if s.len() > 0 {
        let d = s.drop_last();
        lemma_first_seen_distinct(d);
        let p = first_seen(d);
        if !p.contains(s.last()) {
            assert forall|i: int, j: int|
                0 <= i < j < first_seen(s).len() implies first_seen(s)[i] != first_seen(s)[j] by {
                if j == p.len() {
                    assert(first_seen(s)[i] == p[i]);
                }
            }
        }
    }
}

/// A key that does not occur is counted zero times, one that occurs at least once.
pub proof fn lemma_count_positive(s: Seq<Seq<char>>, k: Seq<char>)
    ensures
        count_in(s, k) > 0 <==> s.contains(k),
        count_in(s, k) <= s.len(),
    decreases s.len(),
{
    if s.len() > 0 {
        let d = s.drop_last();
        lemma_count_positive(d, k);
        lemma_split_last(s);
        lemma_contains_push(d, k, s.last());
    }
}

/// Counting one more key.
pub proof fn lemma_count_push(s: Seq<Seq<char>>, x: Seq<char>, k: Seq<char>)
    ensures
        count_in(s.push(x), k) == count_in(s, k) + if x == k {
            1nat
        } else {
            0nat
        },
{
    assert(s.push(x).drop_last() =~= s);
}

/// Counting over two sequences one after the other adds the counts.
pub proof fn lemma_count_concat(s1: Seq<Seq<char>>, s2: Seq<Seq<char>>, k: Seq<char>)
    ensures
        count_in(s1 + s2, k) == count_in(s1, k) + count_in(s2, k),
    decreases s2.len(),
{
    if s2.len() == 0 {
        assert(s1 + s2 =~= s1);
    } else {
        lemma_count_concat(s1, s2.drop_last(), k);
        assert((s1 + s2).drop_last() =~= s1 + s2.drop_last());
    }
}

/// The tally of a sequence has distinct keys.
pub proof fn lemma_tally_distinct(s: Seq<Seq<char>>)
    ensures
        keys_distinct(tally_of(s)),
{
    lemma_first_seen_distinct(s);
}

/// Counting one more key in the tally of `s` gives the tally of `s` with that key added.
pub proof fn lemma_tally_push(s: Seq<Seq<char>>, k: Seq<char>)
    ensures
        bumped(tally_of(s), k) == tally_of(s.push(k)),
{
    let s2 = s.push(k);
    assert(s2.drop_last() =~= s);
    let p = first_seen(s);
    let t = tally_of(s);
    lemma_first_seen_distinct(s);
    lemma_first_seen_contains(s, k);
    assert forall|x: Seq<char>| #[trigger] count_in(s2, x) == count_in(s, x) + if x == k {
        1nat
    } else {
        0nat
    } by {
        lemma_count_push(s, k, x);
    }
    if p.contains(k) {
        let i0 = choose|i: int| 0 <= i < p.len() && p[i] == k;
        assert(t[i0].0 == k);
        assert(has_key(t, k));
        let i = key_index(t, k);
        assert(p[i] == k);
        assert(i == i0);
        assert(first_seen(s2) == p);
        assert(bumped(t, k) =~= tally_of(s2));
    } else {
        lemma_count_positive(s, k);
        assert(!has_key(t, k)) by {
            if has_key(t, k) {
                let i = choose|i: int| 0 <= i < t.len() && (#[trigger] t[i]).0 == k;
                assert(p[i] == k);
            }
        }
        assert(first_seen(s2) == p.push(k));
        assert forall|i: int| 0 <= i < p.len() implies p[i] != k by {
            if p[i] == k {
                assert(p.contains(k));
            }
        }
        assert(bumped(t, k) =~= tally_of(s2));
    }
}

/// The keys first seen in a prefix of `s` begin the keys first seen in `s`.
pub proof fn lemma_first_seen_prefix(s: Seq<Seq<char>>, n: int)
    requires
        0 <= n <= s.len(),
    ensures
        first_seen(s.take(n)).len() <= first_seen(s).len(),
        forall|i: int|
            0 <= i < first_seen(s.take(n)).len() ==> first_seen(s.take(n))[i] == first_seen(s)[i],
    decreases s.len(),
{
    if n == s.len() {
        assert(s.take(n) =~= s);
    } else {
        let d = s.drop_last();
        assert(s.take(n) =~= d.take(n));
        lemma_first_seen_prefix(d, n);
    }
}

/// What counting `k` after `s` needs: the tally of `s` has distinct keys, the
/// count of `k` in it stays below `u64::MAX`, and counting gives the tally of `s.push(k)`.
pub proof fn lemma_tally_step(s: Seq<Seq<char>>, k: Seq<char>)
    requires
        s.len() < u64::MAX,
    ensures
        keys_distinct(tally_of(s)),
        forall|i: int|
            0 <= i < tally_of(s).len() ==> (#[trigger] tally_of(s)[i]).0 == k ==> tally_of(s)[i].1
                < u64::MAX,
        bumped(tally_of(s), k) == tally_of(s.push(k)),
{
    lemma_tally_distinct(s);
    lemma_tally_push(s, k);
    assert forall|i: int| 0 <= i < tally_of(s).len() implies (#[trigger] tally_of(s)[i]).1
        < u64::MAX by {
        lemma_count_positive(s, first_seen(s)[i]);
    }
}

/// The sum of the counts of the entries.
pub open spec fn total_count(t: Seq<(Seq<char>, nat)>) -> nat
    decreases t.len(),
{
    if t.len() == 0 {
        0
    } else {
        total_count(t.drop_last()) + t.last().1
    }
}

proof fn lemma_total_update(t: Seq<(Seq<char>, nat)>, i: int, e: (Seq<char>, nat))
    requires
        0 <= i < t.len(),
    ensures
        total_count(t.update(i, e)) + t[i].1 == total_count(t) + e.1,
    decreases t.len(),
{
    let u = t.update(i, e);
    if i < t.len() - 1 {
        assert(u.drop_last() =~= t.drop_last().update(i, e));
        lemma_total_update(t.drop_last(), i, e);
    } else {
        assert(u.drop_last() =~= t.drop_last());
    }
}

/// Counting a key once more adds one to the total.
pub proof fn lemma_total_bumped(t: Seq<(Seq<char>, nat)>, k: Seq<char>)
    ensures
        total_count(bumped(t, k)) == total_count(t) + 1,
{
    if has_key(t, k) {
        let i = key_index(t, k);
        lemma_total_update(t, i, (k, t[i].1 + 1));
    } else {
        assert(t.push((k, 1nat)).drop_last() =~= t);

    }
}

/// The counts of a tally add up to the length of the sequence counted.
pub proof fn lemma_tally_total(s: Seq<Seq<char>>)
    ensures
        total_count(tally_of(s)) == s.len(),
    decreases s.len(),
{
    if s.len() == 0 {
        assert(tally_of(s) =~= Seq::<(Seq<char>, nat)>::empty());
    } else {
        let d = s.drop_last();
        lemma_tally_total(d);
        lemma_tally_push(d, s.last());
        lemma_total_bumped(tally_of(d), s.last());
        assert(d.push(s.last()) =~= s);
    }
}

/// The count of the first entry holding the key `k`, if any entry does.
pub open spec fn lookup(t: Seq<(Seq<char>, nat)>, k: Seq<char>) -> Option<nat>
    decreases t.len(),
{
    if t.len() == 0 {
        None
    } else {
        match lookup(t.drop_last(), k) {
            Some(c) => Some(c),
            None => if t.last().0 == k {
                Some(t.last().1)
            } else {
                None
            },
        }
    }
}

/// The count of the key `k`, zero when no entry holds it.
pub open spec fn count_or_zero(t: Seq<(Seq<char>, nat)>, k: Seq<char>) -> nat {
    match lookup(t, k) {
        Some(c) => c,
        None => 0,
    }
}

/// The first entry holding `k` is the one at `i`.
pub proof fn lemma_lookup_at(t: Seq<(Seq<char>, nat)>, k: Seq<char>, i: int)
    requires
        0 <= i < t.len(),
        t[i].0 == k,
        forall|j: int| 0 <= j < i ==> (#[trigger] t[j]).0 != k,
    ensures
        lookup(t, k) == Some(t[i].1),
    decreases t.len(),
{
    let d = t.drop_last();
    if i < t.len() - 1 {
        assert forall|j: int| 0 <= j < i implies (#[trigger] d[j]).0 != k by {
            assert(d[j] == t[j]);
        }
        lemma_lookup_at(d, k, i);
    } else {
        assert forall|j: int| 0 <= j < d.len() implies (#[trigger] d[j]).0 != k by {
            assert(d[j] == t[j]);
        }
        lemma_lookup_none(d, k);
    }
}

/// No entry holds `k`.
pub proof fn lemma_lookup_none(t: Seq<(Seq<char>, nat)>, k: Seq<char>)
    requires
        forall|j: int| 0 <= j < t.len() ==> (#[trigger] t[j]).0 != k,
    ensures
        lookup(t, k) is None,
    decreases t.len(),
{
    if t.len() > 0 {
        let d = t.drop_last();
        assert forall|j: int| 0 <= j < d.len() implies (#[trigger] d[j]).0 != k by {
            assert(d[j] == t[j]);
        }
        lemma_lookup_none(d, k);
    }
}

/// Two lists of entries hold the same keys with the same counts, in whatever order.
pub open spec fn same_counts(a: Seq<(Seq<char>, nat)>, b: Seq<(Seq<char>, nat)>) -> bool {
    &&& a.len() == b.len()
    &&& forall|i: int| 0 <= i < a.len() ==> lookup(b, (#[trigger] a[i]).0) == Some(a[i].1)
}

/// Counts of keys, in the order in which each key was first counted.
///
/// Its value is a sequence of `(key, count)` entries; it is well formed when
/// no key has two entries.
#[derive(Debug, Clone)]
pub struct Tally {
    pub entries: Vec<(String, u64)>,
}

impl View for Tally {
    type V = Seq<(Seq<char>, nat)>;

    open spec fn view(&self) -> Seq<(Seq<char>, nat)> {
        self.entries@.map_values(|e: (String, u64)| (e.0@, e.1 as nat))
    }
}

impl Tally {
    /// No key has two entries.
    pub open spec fn wf(&self) -> bool {
        keys_distinct(self@)
    }

    /// A tally that has counted nothing.
    pub fn new() -> (r: Tally)
        ensures
            r@ == Seq::<(Seq<char>, nat)>::empty(),
            r.wf(),
    {
        let r = Tally { entries: Vec::new() };
        assert(r@ =~= Seq::<(Seq<char>, nat)>::empty());
        r
    }

    /// The number of distinct keys counted.
    pub fn len(&self) -> (r: usize)
        ensures
            r == self@.len(),
    {
        self.entries.len()
    }

    /// Nothing has been counted.
    pub fn is_empty(&self) -> (r: bool)
        ensures
            r == (self@.len() == 0),
    {
        self.entries.len() == 0
    }

    /// The `i`-th key and its count.
    pub fn entry(&self, i: usize) -> (r: (&str, u64))
        requires
            i < self@.len(),
        ensures
            r.0@ == self@[i as int].0,
            r.1 == self@[i as int].1,
    {
        let e = &self.entries[i];
        (e.0.as_str(), e.1)
    }

    /// The count of `key`, if it has been counted.
    pub fn get(&self, key: &str) -> (r: Option<&u64>)
        ensures
            r is None <==> !has_key(self@, key@),
            r matches Some(c) ==> exists|i: int|
                0 <= i < self@.len() && (#[trigger] self@[i]).0 == key@ && self@[i].1 == *c,
            match r {
                None => lookup(self@, key@) is None,
                Some(c) => lookup(self@, key@) == Some(*c as nat),
            },
    {
        let k = key.to_owned();
        let mut i: usize = 0;
        while i < self.entries.len()
            invariant
                i <= self.entries.len(),
                k@ == key@,
                forall|j: int| 0 <= j < i ==> (#[trigger] self@[j]).0 != key@,
            decreases self.entries.len() - i,
        {
            if self.entries[i].0 == k {
                assert(self@[i as int].0 == key@);
                proof {
                    lemma_lookup_at(self@, key@, i as int);
                }
                return Some(&self.entries[i].1);
            }
            i = i + 1;
        }
        proof {
            lemma_lookup_none(self@, key@);
        }
        None
    }

    /// Counts `key` once more.
    pub(crate) fn bump(&mut self, key: String)
        requires
            old(self).wf(),
            forall|i: int| 0 <= i < old(self)@.len() ==> (#[trigger] old(self)@[i]).0 == key@ ==> old(self)@[i].1 < u64::MAX,
        ensures
            final(self)@ == bumped(old(self)@, key@),
            final(self).wf(),
    {
        let mut i: usize = 0;
        while i < self.entries.len()
            invariant
                i <= self.entries.len(),
                self@ == old(self)@,
                keys_distinct(old(self)@),
                forall|j: int| 0 <= j < old(self)@.len() ==> (#[trigger] old(self)@[j]).0 == key@ ==> old(self)@[j].1 < u64::MAX,
                forall|j: int| 0 <= j < i ==> (#[trigger] self@[j]).0 != key@,
            decreases self.entries.len() - i,
        {
            if self.entries[i].0 == key {
                let ghost t = self@;
                assert(t[i as int].0 == key@);
                assert(has_key(t, key@));
                assert(t[i as int].1 < u64::MAX);
                let c = self.entries[i].1;
                self.entries[i].1 = c + 1;
                proof {
                    assert(key_index(t, key@) == i);
                    assert(self@ =~= bumped(t, key@));
                }
                return;
            }
            i = i + 1;
        }
        let ghost t = self@;
        self.entries.push((key, 1));
        assert(self@ =~= bumped(t, key@));
    }
}

impl PartialEq for Tally {
    fn eq(&self, other: &Self) -> (r: bool) {
        if self.entries.len() != other.entries.len() {
            return false;
        }
        let mut i: usize = 0;
        while i < self.entries.len()
            invariant
                i <= self.entries.len(),
                self@.len() == other@.len(),
                forall|j: int|
                    0 <= j < i ==> lookup(other@, (#[trigger] self@[j]).0) == Some(self@[j].1),
            decreases self.entries.len() - i,
        {
            let (k, c) = self.entry(i);
            match other.get(k) {
                Some(d) => {
                    if *d != c {
                        return false;
                    }
                },
                None => {
                    return false;
                },
            }
            i = i + 1;
        }
        true
    }
}

impl PartialEqSpecImpl for Tally {
    open spec fn obeys_eq_spec() -> bool {
        true
    }

    open spec fn eq_spec(&self, other: &Self) -> bool {
        same_counts(self@, other@)
    }
}

} // verus!
