//! A map keyed by text that remembers the order in which its keys came.

use crate::text::same;
use vstd::prelude::*;

verus! {

/// A map from text to values. No key occurs twice, and what came first stays first.
pub struct TextMap<V> {
    entries: Vec<(String, V)>,
}

/// The keys of a list of entries.
pub open spec fn keys_of<V>(s: Seq<(Seq<char>, V)>) -> Seq<Seq<char>> {
    Seq::new(s.len(), |i: int| s[i].0)
}

/// The index of the first entry for `key` in `s`, or the length of `s` where there is none.
pub open spec fn key_index<V>(s: Seq<(Seq<char>, V)>, key: Seq<char>) -> int
    decreases s.len(),
{
    if s.len() == 0 {
        0
    } else if s[0].0 == key {
        0
    } else {
        1 + key_index(s.skip(1), key)
    }
}

/// `s` with `value` put at `key`: in place of the value there, or behind all others.
pub open spec fn put<V>(s: Seq<(Seq<char>, V)>, key: Seq<char>, value: V) -> Seq<
    (Seq<char>, V),
> {
    if key_index(s, key) < s.len() {
        s.update(key_index(s, key), (key, value))
    } else {
        s.push((key, value))
    }
}

/// The entries that come of putting `pairs` one after the other.
pub open spec fn put_all<V>(pairs: Seq<(Seq<char>, V)>) -> Seq<(Seq<char>, V)>
    decreases pairs.len(),
{
    if pairs.len() == 0 {
        pairs
    } else {
        put(put_all(pairs.drop_last()), pairs.last().0, pairs.last().1)
    }
}

/// The entries of a list of pairs, with the keys by their views.
pub open spec fn pairs_view<V>(s: Seq<(String, V)>) -> Seq<(Seq<char>, V)> {
    Seq::new(s.len(), |i: int| (s[i].0@, s[i].1))
}

/// Where `key` is found.
pub proof fn lemma_key_index<V>(s: Seq<(Seq<char>, V)>, key: Seq<char>)
    ensures
        0 <= key_index(s, key) <= s.len(),
        key_index(s, key) < s.len() ==> s[key_index(s, key)].0 == key,
        forall|i: int| 0 <= i < key_index(s, key) ==> (#[trigger] s[i]).0 != key,
        keys_of(s).contains(key) <==> key_index(s, key) < s.len(),
    decreases s.len(),
{
    if s.len() > 0 && s[0].0 != key {
        lemma_key_index(s.skip(1), key);
        assert forall|i: int| 0 <= i < key_index(s, key) implies (#[trigger] s[i]).0 != key by {
            if i > 0 {
                assert(s.skip(1)[i - 1] == s[i]);
            }
        }
        if keys_of(s).contains(key) {
            let i = choose|i: int| 0 <= i < keys_of(s).len() && keys_of(s)[i] == key;
            assert(keys_of(s.skip(1))[i - 1] == key);
        }
    }
    if key_index(s, key) < s.len() {
        assert(keys_of(s)[key_index(s, key)] == key);
    }
}

/// Putting a value keeps the keys distinct, and the value is then found at its key.
pub proof fn put_is_found<V>(s: Seq<(Seq<char>, V)>, key: Seq<char>, value: V)
    requires
        keys_of(s).no_duplicates(),
    ensures
        keys_of(put(s, key, value)).no_duplicates(),
        key_index(put(s, key, value), key) < put(s, key, value).len(),
        put(s, key, value)[key_index(put(s, key, value), key)] == (key, value),
        forall|other: Seq<char>| #![trigger keys_of(put(s, key, value)).contains(other)]
            keys_of(put(s, key, value)).contains(other) <==> (other == key || keys_of(s).contains(
                other,
            )),
{
    let r = put(s, key, value);
    lemma_key_index(s, key);
    lemma_key_index(r, key);
    let n = key_index(s, key);
    assert forall|i: int| 0 <= i < s.len() && i != n implies keys_of(s)[i] != key by {
        if n < s.len() {
            assert(keys_of(s)[n] == key);
        } else {
            assert(s[i].0 != key);
        }
    }
    assert forall|a: int, b: int|
        0 <= a < r.len() && 0 <= b < r.len() && a != b implies keys_of(r)[a] != keys_of(r)[b] by {
        if a < s.len() {
            assert(a == n || keys_of(r)[a] == keys_of(s)[a]);
        }
        if b < s.len() {
            assert(b == n || keys_of(r)[b] == keys_of(s)[b]);
        }
    }
    assert(keys_of(r)[n] == key);
    assert forall|other: Seq<char>| #![trigger keys_of(r).contains(other)]
        keys_of(r).contains(other) <==> (other == key || keys_of(s).contains(other)) by {
        if keys_of(r).contains(other) {
            let i = choose|i: int| 0 <= i < keys_of(r).len() && keys_of(r)[i] == other;
            if i < s.len() && i != n {
                assert(keys_of(s)[i] == other);
            }
        }
        if keys_of(s).contains(other) {
            let i = choose|i: int| 0 <= i < keys_of(s).len() && keys_of(s)[i] == other;
            assert(i == n || keys_of(r)[i] == other);
        }
    }
    let m = key_index(r, key);
    if m != n {
        assert(keys_of(r)[m] == keys_of(r)[n]);
    }
}

/// `s` without what stands at `key`.
pub open spec fn taken_out<V>(s: Seq<(Seq<char>, V)>, key: Seq<char>) -> Seq<(Seq<char>, V)> {
    if key_index(s, key) < s.len() {
        s.remove(key_index(s, key))
    } else {
        s
    }
}

/// What was taken out is gone, and all other keys stay.
pub proof fn taken_out_is_gone<V>(s: Seq<(Seq<char>, V)>, key: Seq<char>)
    requires
        keys_of(s).no_duplicates(),
    ensures
        keys_of(taken_out(s, key)).no_duplicates(),
        forall|other: Seq<char>| #![trigger keys_of(taken_out(s, key)).contains(other)]
            keys_of(taken_out(s, key)).contains(other) <==> (other != key && keys_of(s).contains(
                other,
            )),
{
    lemma_key_index(s, key);
    let i = key_index(s, key);
    let k = keys_of(s);
    let t = keys_of(taken_out(s, key));
    if i < s.len() {
        assert forall|a: int| 0 <= a < t.len() implies #[trigger] t[a] == (if a < i {
            k[a]
        } else {
            k[a + 1]
        }) by {}
        assert(k[i] == key);
        assert forall|other: Seq<char>| #![trigger t.contains(other)]
            t.contains(other) <==> (other != key && k.contains(other)) by {
            if t.contains(other) {
                let a = choose|a: int| 0 <= a < t.len() && t[a] == other;
                let b = if a < i {
                    a
                } else {
                    a + 1
                };
                assert(k[b] == other);
                assert(b != i);
            }
            if other != key && k.contains(other) {
                let b = choose|b: int| 0 <= b < k.len() && k[b] == other;
                let a = if b < i {
                    b
                } else {
                    b - 1
                };
                assert(t[a] == other);
            }
        }
    } else {
        assert(!k.contains(key));
    }
}

impl<V: View> View for TextMap<V> {
    type V = Seq<(Seq<char>, V::V)>;

    /// The entries by their views, in the order in which their keys came.
    open spec fn view(&self) -> Seq<(Seq<char>, V::V)> {
        Seq::new(self.list().len(), |i: int| (self.list()[i].0, self.list()[i].1@))
    }
}

impl<V> TextMap<V> {
    /// The entries, in the order in which their keys came.
    pub closed spec fn list(self) -> Seq<(Seq<char>, V)> {
        pairs_view(self.entries@)
    }

    /// No key occurs twice.
    pub open spec fn wf(self) -> bool {
        keys_of(self.list()).no_duplicates()
    }

    /// Whether there is a value for `key`.
    pub open spec fn has(self, key: Seq<char>) -> bool {
        keys_of(self.list()).contains(key)
    }

    /// The value for `key`.
    pub open spec fn at(self, key: Seq<char>) -> V {
        self.list()[key_index(self.list(), key)].1
    }

    /// A map without entries.
    pub fn new() -> (r: Self)
        ensures
            r.wf(),
            r.list() == Seq::<(Seq<char>, V)>::empty(),
    {
        let r = TextMap { entries: Vec::new() };
        assert(r.list() =~= Seq::<(Seq<char>, V)>::empty());
        r
    }

    /// How many keys there are.
    pub fn len(&self) -> (n: usize)
        ensures
            n == self.list().len(),
    {
        self.entries.len()
    }

    /// Whether there are no keys.
    pub fn is_empty(&self) -> (r: bool)
        ensures
            r == (self.list().len() == 0),
    {
        self.entries.len() == 0
    }

    /// The key that came at place `i`.
    pub fn key(&self, i: usize) -> (r: &String)
        requires
            i < self.list().len(),
        ensures
            r@ == self.list()[i as int].0,
    {
        &self.entries[i].0
    }

    /// The value of the key that came at place `i`.
    pub fn value(&self, i: usize) -> (r: &V)
        requires
            i < self.list().len(),
        ensures
            *r == self.list()[i as int].1,
    {
        &self.entries[i].1
    }

    /// The place of `key`, or the number of entries where it is not there.
    pub fn place(&self, key: &str) -> (i: usize)
        ensures
            i == key_index(self.list(), key@),
            i <= self.list().len(),
            i < self.list().len() <==> self.has(key@),
    {
        let mut i: usize = 0;
        let ghost s = self.list();
        proof {
            lemma_key_index(s, key@);
        }
        assert(s.skip(0) =~= s);
        while i < self.entries.len() && !same(self.entries[i].0.as_str(), key)
            invariant
                i <= self.entries.len(),
                s == self.list(),
                key_index(s, key@) == i + key_index(s.skip(i as int), key@),
            decreases self.entries.len() - i,
        {
            assert(s.skip(i as int)[0] == s[i as int]);
            assert(s.skip(i as int).skip(1) =~= s.skip(i + 1));
            i = i + 1;
        }
        if i < self.entries.len() {
            assert(s.skip(i as int)[0] == s[i as int]);
        }
        i
    }

    /// The value for `key`.
    pub fn get(&self, key: &str) -> (r: Option<&V>)
        ensures
            match r {
                Some(v) => self.has(key@) && *v == self.at(key@),
                None => !self.has(key@),
            },
    {
        let i: usize = self.place(key);
        if i < self.entries.len() {
            Some(&self.entries[i].1)
        } else {
            None
        }
    }

    /// Puts `value` at `key`: in place of the value there, or behind all others.
    pub fn insert(&mut self, key: String, value: V)
        requires
            old(self).wf(),
        ensures
            final(self).wf(),
            final(self).list() == put(old(self).list(), key@, value),
    {
        let i: usize = self.place(key.as_str());
        proof {
            put_is_found(self.list(), key@, value);
        }
        if i < self.entries.len() {
            self.entries.set(i, (key, value));
        } else {
            self.entries.push((key, value));
        }
        assert(self.list() =~= put(old(self).list(), key@, value));
    }

    /// Takes out what stands at `key`; what came after it moves up.
    pub fn remove(&mut self, key: &str)
        requires
            old(self).wf(),
        ensures
            final(self).wf(),
            final(self).list() == taken_out(old(self).list(), key@),
    {
        let i: usize = self.place(key);
        proof {
            taken_out_is_gone(self.list(), key@);
        }
        if i < self.entries.len() {
            let _ = self.entries.remove(i);
        }
        assert(self.list() =~= taken_out(old(self).list(), key@));
    }

    /// A map that holds `pairs`; of two pairs with one key the later counts.
    pub fn from_pairs(pairs: Vec<(String, V)>) -> (r: Self)
        ensures
            r.wf(),
            r.list() == put_all(pairs_view(pairs@)),
    {
        let mut r: Self = TextMap::new();
        let ghost all = pairs_view(pairs@);
        assert(all.take(0) =~= Seq::empty());
        for p in it: pairs
            invariant
                it.seq() == pairs@,
                all == pairs_view(pairs@),
                r.wf(),
                r.list() == put_all(all.take(it.index() as int)),
        {
            proof {
                let n = it.index() as int;
                assert(all.take(n + 1).drop_last() =~= all.take(n));
                assert(all.take(n + 1).last() == (pairs@[n].0@, pairs@[n].1));
            }
            r.insert(p.0, p.1);
        }
        assert(all.take(all.len() as int) =~= all);
        r
    }
}

/// Putting a value is putting its view into the entries by their views.
pub proof fn lemma_put_view<V: View>(m: TextMap<V>, n: TextMap<V>, key: Seq<char>, value: V)
    requires
        n.list() == put(m.list(), key, value),
    ensures
        n@ == put(m@, key, value@),
{
    let (a, b) = (m.list(), m@);
    lemma_key_index(a, key);
    lemma_key_index(b, key);
    let (i, j) = (key_index(a, key), key_index(b, key));
    if i < j {
        assert(b[i].0 == a[i].0);
    } else if j < i {
        assert(a[j].0 == b[j].0);
    }
    assert(n@ =~= put(b, key, value@));
}

/// Putting a value changes nothing at another key: what was found there is found there still,
/// and where nothing was, nothing is.
pub proof fn put_leaves_other_keys_alone<V>(
    s: Seq<(Seq<char>, V)>,
    key: Seq<char>,
    value: V,
    other: Seq<char>,
)
    requires
        other != key,
    ensures
        key_index(s, other) < s.len() ==> key_index(put(s, key, value), other) == key_index(s, other)
            && put(s, key, value)[key_index(s, other)] == s[key_index(s, other)],
        key_index(s, other) >= s.len() ==> key_index(put(s, key, value), other) >= put(
            s,
            key,
            value,
        ).len(),
{
    let t = put(s, key, value);
    lemma_key_index(s, key);
    lemma_key_index(s, other);
    lemma_key_index(t, other);
    let i = key_index(s, other);
    let j = key_index(t, other);
    let n = key_index(s, key);
    assert forall|a: int| 0 <= a < s.len() && a != n implies t[a] == s[a] by {
    }
    assert(t[n] == (key, value));
    if i < s.len() {
        assert(t[i] == s[i]);
        if j < i {
            assert(t[j] == s[j]);
        }
    } else if j < t.len() {
        assert(t[j].0 == other);
        if j != n {
            assert(t[j] == s[j]);
        }
    }
}

/// Of pairs put one after the other the last for a key is found there, and keys stay distinct.
pub proof fn the_last_pair_for_a_key_is_found<V>(
    pairs: Seq<(Seq<char>, V)>,
    key: Seq<char>,
    value: V,
)
    ensures
        keys_of(put_all(pairs)).no_duplicates(),
        ({
            let r = put_all(pairs.push((key, value)));
            key_index(r, key) < r.len() && r[key_index(r, key)] == (key, value)
        }),
        put_all(pairs.push((key, value))) == put(put_all(pairs), key, value),
    decreases pairs.len(),
{
    assert(pairs.push((key, value)).drop_last() =~= pairs);
    if pairs.len() > 0 {
        let (k, v) = pairs.last();
        the_last_pair_for_a_key_is_found(pairs.drop_last(), k, v);
        put_is_found(put_all(pairs.drop_last()), k, v);
    }
    put_is_found(put_all(pairs), key, value);
}

} // verus!
