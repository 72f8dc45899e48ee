//! A mapping from character-sequence keys to values, kept as a vector
//! of pairs with pairwise-distinct keys.  Inserting an existing key
//! replaces its value in place, so the later binding wins; the view
//! of the whole structure is the finite map the pairs denote.

use vstd::prelude::*;

use crate::eq_chars;

verus! {

/// The finite map denoted by a sequence of key-value pairs, later
/// pairs overriding earlier ones.
pub open spec fn map_of<V>(s: Seq<(Seq<char>, V)>) -> Map<Seq<char>, V>
    decreases s.len(),
{
    if s.len() == 0 {
        Map::<Seq<char>, V>::empty()
    } else {
        map_of(s.drop_last()).insert(s.last().0, s.last().1)
    }
}

/// No two pairs share a key.
pub open spec fn keys_distinct<V>(s: Seq<(Seq<char>, V)>) -> bool {
    forall|i: int, j: int| 0 <= i < j < s.len() ==> s[i].0 != s[j].0
}

/// A key lies in the map of a pair sequence exactly when some pair
/// carries it.
pub proof fn lemma_map_of_contains<V>(s: Seq<(Seq<char>, V)>, k: Seq<char>)
    ensures
        map_of(s).contains_key(k) <==> exists|i: int| 0 <= i < s.len() && s[i].0 == k,
    decreases s.len(),
{
    if s.len() > 0 {
        lemma_map_of_contains(s.drop_last(), k);
        if s.last().0 == k {
            assert(s[s.len() - 1].0 == k);
        } else {
            if map_of(s).contains_key(k) {
                let i = choose|i: int| 0 <= i < s.drop_last().len() && s.drop_last()[i].0 == k;
                assert(s[i].0 == k);
            }
            if exists|i: int| 0 <= i < s.len() && s[i].0 == k {
                let i = choose|i: int| 0 <= i < s.len() && s[i].0 == k;
                assert(s.drop_last()[i].0 == k);
            }
        }
    }
}

/// With distinct keys, the map of a pair sequence sends each key to
/// the value paired with it.
pub proof fn lemma_map_of_get<V>(s: Seq<(Seq<char>, V)>, i: int)
    requires
        keys_distinct(s),
        0 <= i < s.len(),
    ensures
        map_of(s).contains_key(s[i].0),
        map_of(s)[s[i].0] == s[i].1,
    decreases s.len(),
{
    if i == s.len() - 1 {
    } else {
        assert(s.drop_last()[i] == s[i]);
        lemma_map_of_get(s.drop_last(), i);
        assert(s[i].0 != s.last().0);
    }
}

/// With distinct keys, replacing the value of the pair at `i` changes
/// the map as one insertion of the new value at that pair's key.
pub proof fn lemma_map_of_update<V>(s: Seq<(Seq<char>, V)>, i: int, v: V)
    requires
        keys_distinct(s),
        0 <= i < s.len(),
    ensures
        map_of(s.update(i, (s[i].0, v))) == map_of(s).insert(s[i].0, v),
    decreases s.len(),
{
    let k = s[i].0;
    let s2 = s.update(i, (k, v));
    if i == s.len() - 1 {
        assert(s2.drop_last() =~= s.drop_last());
        assert(s2.last() == (k, v));
        assert(map_of(s.drop_last()).insert(k, v) =~= map_of(s.drop_last()).insert(
            k,
            s.last().1,
        ).insert(k, v));
    } else {
        assert(s2.drop_last() =~= s.drop_last().update(i, (k, v)));
        assert(s.drop_last()[i] == s[i]);
        lemma_map_of_update(s.drop_last(), i, v);
        assert(s2.last() == s.last());
        assert(s.last().0 != k);
        assert(map_of(s.drop_last()).insert(k, v).insert(s.last().0, s.last().1)
            =~= map_of(s.drop_last()).insert(s.last().0, s.last().1).insert(k, v));
    }
}

/// Appending a fresh pair changes the map as one insertion.
pub proof fn lemma_map_of_push<V>(s: Seq<(Seq<char>, V)>, k: Seq<char>, v: V)
    ensures
        map_of(s.push((k, v))) == map_of(s).insert(k, v),
{
    assert(s.push((k, v)).drop_last() =~= s);
    assert(s.push((k, v)).last() == (k, v));
}

/// A mapping from character-sequence keys to values in which each key
/// is bound at most once and a repeated insertion overwrites.
pub struct StrMap<V> {
    entries: Vec<(Vec<char>, V)>,
}

impl<V: DeepView> StrMap<V> {
    /// The pairs held, in insertion order, as their models.
    pub closed spec fn entry_model(&self) -> Seq<(Seq<char>, V::V)> {
        self.entries.deep_view()
    }

    /// The pairs held, in insertion order, as the values themselves.
    pub closed spec fn entries_raw(&self) -> Seq<(Vec<char>, V)> {
        self.entries@
    }

    /// Each key is bound at most once.
    pub open spec fn wf(&self) -> bool {
        keys_distinct(self.entry_model())
    }

    /// The empty mapping.
    pub fn new() -> (r: Self)
        ensures
            r@ == Map::<Seq<char>, V::V>::empty(),
            r.wf(),
            r.entry_model() == Seq::<(Seq<char>, V::V)>::empty(),
    {
        let r = StrMap { entries: Vec::new() };
        proof {
            assert(r.entry_model() =~= Seq::<(Seq<char>, V::V)>::empty());
        }
        r
    }

    /// Binds `key` to `value`; an earlier binding of the same key is
    /// replaced, so the later insertion wins.
    pub fn insert(&mut self, key: Vec<char>, value: V)
        requires
            old(self).wf(),
        ensures
            final(self).wf(),
            final(self)@ == old(self)@.insert(key@, value.deep_view()),
    {
        let ghost k0 = key@;
        let ghost v0 = value.deep_view();
        let n = self.entries.len();
        let mut i: usize = 0;
        while i < n
            invariant
                n == self.entries.len(),
                0 <= i <= n,
                *self == *old(self),
                old(self).wf(),
                k0 == key@,
                v0 == value.deep_view(),
                forall|j: int| 0 <= j < i ==> self.entry_model()[j].0 != k0,
            decreases n - i,
        {
            proof {
                assert(self.entry_model()[i as int] == self.entries@[i as int].deep_view());
                assert(self.entry_model()[i as int].0 =~= self.entries@[i as int].0@);
            }
            if eq_chars(&self.entries[i].0, &key) {
                let ghost before = self.entry_model();
                let ghost olde = self.entries@;
                proof {
                    assert(before[i as int].0 == k0);
                    lemma_map_of_update(before, i as int, v0);
                }
                self.entries.remove(i);
                self.entries.insert(i, (key, value));
                proof {
                    let fm = self.entry_model();
                    assert(self.entries@ =~= olde.update(i as int, self.entries@[i as int]));
                    assert(fm[i as int] == self.entries@[i as int].deep_view());
                    assert(fm[i as int].0 =~= k0);
                    assert(fm[i as int].1 == v0);
                    assert forall|j: int| 0 <= j < fm.len() implies fm[j] == before.update(
                        i as int,
                        (before[i as int].0, v0),
                    )[j] by {
                        if j != i {
                            assert(self.entries@[j] == olde[j]);
                        } else {
                            assert(fm[j] == (k0, v0));
                        }
                    }
                    assert(fm =~= before.update(i as int, (before[i as int].0, v0)));
                    assert forall|a: int, b: int| 0 <= a < b < fm.len() implies fm[a].0
                        != fm[b].0 by {
                        assert(before[a].0 != before[b].0);
                        assert(fm[a].0 == before[a].0 && fm[b].0 == before[b].0);
                    }
                }
                return ;
            }
            i = i + 1;
        }
        let ghost before = self.entry_model();
        let ghost olde = self.entries@;
        proof {
            lemma_map_of_push(before, k0, v0);
        }
        self.entries.push((key, value));
        proof {
            let fm = self.entry_model();
            assert(fm[before.len() as int] == self.entries@[before.len() as int].deep_view());
            assert(fm[before.len() as int].0 =~= k0);
            assert(fm[before.len() as int].1 == v0);
            assert forall|j: int| 0 <= j < fm.len() implies fm[j] == before.push((k0, v0))[j] by {
                if j < before.len() {
                    assert(self.entries@[j] == olde[j]);
                } else {
                    assert(fm[j] == (k0, v0));
                }
            }
            assert(fm =~= before.push((k0, v0)));
            assert forall|a: int, b: int| 0 <= a < b < fm.len() implies fm[a].0 != fm[b].0 by {
                if b < before.len() {
                    assert(before[a].0 != before[b].0);
                    assert(fm[a].0 == before[a].0 && fm[b].0 == before[b].0);
                } else {
                    assert(fm[a].0 == before[a].0 && before[a].0 != k0);
                }
            }
        }
    }

    /// The value bound to `key`, if any.
    pub fn get(&self, key: &Vec<char>) -> (r: Option<&V>)
        requires
            self.wf(),
        ensures
            match r {
                Some(v) => self@.contains_key(key@) && v.deep_view() == self@[key@],
                None => !self@.contains_key(key@),
            },
    {
        proof {
            lemma_map_of_contains(self.entry_model(), key@);
        }
        let n = self.entries.len();
        let mut i: usize = 0;
        while i < n
            invariant
                n == self.entries.len(),
                0 <= i <= n,
                self.wf(),
                forall|j: int| 0 <= j < i ==> self.entry_model()[j].0 != key@,
            decreases n - i,
        {
            proof {
                assert(self.entry_model()[i as int] == self.entries@[i as int].deep_view());
                assert(self.entry_model()[i as int].0 =~= self.entries@[i as int].0@);
            }
            if eq_chars(&self.entries[i].0, &key) {
                proof {
                    assert(self.entry_model()[i as int].0 == key@);
                    lemma_map_of_get(self.entry_model(), i as int);
                }
                return Some(&self.entries[i].1);
            }
            i = i + 1;
        }
        None
    }

    /// How many keys are bound.
    pub fn len(&self) -> (n: usize)
        ensures
            n == self.entry_model().len(),
            n == self.entries_raw().len(),
    {
        self.entries.len()
    }

    /// The pair at position `i`, in insertion order.
    pub fn pair_at(&self, i: usize) -> (r: (&Vec<char>, &V))
        requires
            i < self.entry_model().len(),
        ensures
            r.0@ == self.entry_model()[i as int].0,
            r.1.deep_view() == self.entry_model()[i as int].1,
            *r.0 == self.entries_raw()[i as int].0,
            *r.1 == self.entries_raw()[i as int].1,
    {
        let p = &self.entries[i];
        (&p.0, &p.1)
    }
}

impl<V: DeepView> View for StrMap<V> {
    type V = Map<Seq<char>, V::V>;

    closed spec fn view(&self) -> Map<Seq<char>, V::V> {
        map_of(self.entries.deep_view())
    }
}

impl<V: DeepView> DeepView for StrMap<V> {
    type V = Map<Seq<char>, V::V>;

    open spec fn deep_view(&self) -> Map<Seq<char>, V::V> {
        self@
    }
}

} // verus!
