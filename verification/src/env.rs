//! The persistent variable environment: a mapping from variable names to
//! entries with unique keys, overwritten on reassignment.  One instance maps
//! names to current values, a parallel one maps names to declared types.

use vstd::prelude::*;
use crate::strings::str_eq;

verus! {

/// A mapping from variable names to entries, modelled as a `Map` from the
/// name's characters to the entry's model.
pub struct StrMap<V> {
    pairs: Vec<(String, V)>,
}

/// The mapping a pair sequence denotes: later pairs overwrite earlier ones.
pub open spec fn map_of<V: DeepView>(pairs: Seq<(String, V)>) -> Map<Seq<char>, V::V>
    decreases pairs.len(),
{
    if pairs.len() == 0 {
        Map::empty()
    } else {
        map_of(pairs.drop_last()).insert(pairs.last().0@, pairs.last().1.deep_view())
    }
}

impl<V: DeepView> View for StrMap<V> {
    type V = Map<Seq<char>, V::V>;

    closed spec fn view(&self) -> Map<Seq<char>, V::V> {
        map_of(self.pairs@)
    }
}

proof fn lemma_absent<V: DeepView>(pairs: Seq<(String, V)>, k: Seq<char>)
    requires
        forall|i: int| 0 <= i < pairs.len() ==> (#[trigger] pairs[i]).0@ != k,
    ensures
        !map_of(pairs).contains_key(k),
    decreases pairs.len(),
{
    if pairs.len() > 0 {
        assert forall|i: int| 0 <= i < pairs.drop_last().len() implies (#[trigger] pairs.drop_last()[i]).0@
            != k by {
            assert(pairs.drop_last()[i] == pairs[i]);
        }
        lemma_absent(pairs.drop_last(), k);
        assert(pairs[pairs.len() - 1].0@ != k);
    }
}

proof fn lemma_found<V: DeepView>(pairs: Seq<(String, V)>, i: int)
    requires
        0 <= i < pairs.len(),
        forall|j: int| i < j < pairs.len() ==> (#[trigger] pairs[j]).0@ != pairs[i].0@,
    ensures
        map_of(pairs).contains_key(pairs[i].0@),
        map_of(pairs)[pairs[i].0@] == pairs[i].1.deep_view(),
    decreases pairs.len(),
{
    if i == pairs.len() - 1 {
    } else {
        assert forall|j: int| i < j < pairs.drop_last().len() implies (#[trigger] pairs.drop_last()[j]).0@
            != pairs.drop_last()[i].0@ by {
            assert(pairs.drop_last()[j] == pairs[j]);
            assert(pairs.drop_last()[i] == pairs[i]);
        }
        assert(pairs.drop_last()[i] == pairs[i]);
        lemma_found(pairs.drop_last(), i);
        assert(pairs[pairs.len() - 1].0@ != pairs[i].0@);
    }
}

proof fn lemma_update<V: DeepView>(pairs: Seq<(String, V)>, i: int, p: (String, V))
    requires
        0 <= i < pairs.len(),
        p.0@ == pairs[i].0@,
        forall|j: int| i < j < pairs.len() ==> (#[trigger] pairs[j]).0@ != pairs[i].0@,
    ensures
        map_of(pairs.update(i, p)) =~= map_of(pairs).insert(p.0@, p.1.deep_view()),
    decreases pairs.len(),
{
    let up = pairs.update(i, p);
    if i == pairs.len() - 1 {
        assert(up.drop_last() =~= pairs.drop_last());
        assert(up.last() == p);
    } else {
        assert(up.drop_last() =~= pairs.drop_last().update(i, p));
        assert(up.last() == pairs.last());
        assert(pairs.drop_last()[i] == pairs[i]);
        assert forall|j: int| i < j < pairs.drop_last().len() implies (#[trigger] pairs.drop_last()[j]).0@
            != pairs.drop_last()[i].0@ by {
            assert(pairs.drop_last()[j] == pairs[j]);
        }
        lemma_update(pairs.drop_last(), i, p);
        assert(pairs[pairs.len() - 1].0@ != pairs[i].0@);
        assert(map_of(up) =~= map_of(pairs).insert(p.0@, p.1.deep_view()));
    }
}

impl<V> StrMap<V> {
    /// Well-formedness: entry names are pairwise distinct.
    pub closed spec fn wf(self) -> bool {
        forall|i: int, j: int|
            0 <= i < j < self.pairs@.len() ==> (#[trigger] self.pairs@[i]).0@ != (
            #[trigger] self.pairs@[j]).0@
    }
}

impl<V: DeepView> StrMap<V> {
    /// An empty mapping.
    pub fn new() -> (r: Self)
        ensures
            r@ == Map::<Seq<char>, V::V>::empty(),
            r.wf(),
    {
        let r = StrMap { pairs: Vec::new() };
        proof {
            assert(r@ =~= Map::<Seq<char>, V::V>::empty());
        }
        r
    }

    /// Look a name up; the entry is present exactly when the name was ever
    /// inserted.
    pub fn get(&self, name: &str) -> (r: Option<&V>)
        requires
            self.wf(),
        ensures
            r is Some <==> self@.contains_key(name@),
            r matches Some(v) ==> v.deep_view() == self@[name@],
    {
        let n = self.pairs.len();
        let mut i: usize = 0;
        while i < n
            invariant
                self.wf(),
                n == self.pairs@.len(),
                i <= n,
                forall|j: int| 0 <= j < i ==> (#[trigger] self.pairs@[j]).0@ != name@,
            decreases n - i,
        {
            if str_eq(self.pairs[i].0.as_str(), name) {
                proof {
                    lemma_found(self.pairs@, i as int);
                }
                return Some(&self.pairs[i].1);
            }
            i = i + 1;
        }
        proof {
            lemma_absent(self.pairs@, name@);
        }
        None
    }

    /// Whether a name has an entry.
    pub fn contains(&self, name: &str) -> (r: bool)
        requires
            self.wf(),
        ensures
            r == self@.contains_key(name@),
    {
        self.get(name).is_some()
    }

    /// Insert an entry, overwriting any prior entry of the same name.
    pub fn insert(&mut self, name: String, value: V)
        requires
            old(self).wf(),
        ensures
            final(self)@ == old(self)@.insert(name@, value.deep_view()),
            final(self).wf(),
    {
        let n = self.pairs.len();
        let mut i: usize = 0;
        while i < n
            invariant
                self.wf(),
                n == self.pairs@.len(),
                i <= n,
                self.pairs@ == old(self).pairs@,
                forall|j: int| 0 <= j < i ==> (#[trigger] self.pairs@[j]).0@ != name@,
            decreases n - i,
        {
            if str_eq(self.pairs[i].0.as_str(), name.as_str()) {
                proof {
                    lemma_update(self.pairs@, i as int, (name, value));
                }
                let ghost before = self.pairs@;
                self.pairs.set(i, (name, value));
                proof {
                    assert(self@ =~= old(self)@.insert(name@, value.deep_view()));
                    assert forall|a: int, b: int|
                        0 <= a < b < self.pairs@.len() implies (#[trigger] self.pairs@[a]).0@ != (
                    #[trigger] self.pairs@[b]).0@ by {
                        assert(before[a].0@ != before[b].0@);
                    }
                }
                return ;
            }
            i = i + 1;
        }
        self.pairs.push((name, value));
        proof {
            assert(self.pairs@.drop_last() =~= old(self).pairs@);
            assert(self@ =~= old(self)@.insert(name@, value.deep_view()));
        }
    }

    /// The names that have entries, each exactly once.
    pub fn entries(&self) -> (r: Vec<String>)
        requires
            self.wf(),
        ensures
            forall|i: int, j: int|
                0 <= i < j < r@.len() ==> (#[trigger] r@[i])@ != (#[trigger] r@[j])@,
            forall|i: int| 0 <= i < r@.len() ==> self@.contains_key((#[trigger] r@[i])@),
            forall|k: Seq<char>|
                self@.contains_key(k) ==> exists|i: int| 0 <= i < r@.len() && (#[trigger] r@[i])@
                    == k,
    {
        let n = self.pairs.len();
        let mut r: Vec<String> = Vec::new();
        let mut i: usize = 0;
        while i < n
            invariant
                self.wf(),
                n == self.pairs@.len(),
                i <= n,
                r@.len() == i,
                forall|j: int| 0 <= j < i ==> (#[trigger] r@[j])@ == self.pairs@[j].0@,
            decreases n - i,
        {
            r.push(self.pairs[i].0.clone());
            i = i + 1;
        }
        proof {
            assert forall|i2: int| 0 <= i2 < r@.len() implies self@.contains_key(
                (#[trigger] r@[i2])@,
            ) by {
                lemma_found(self.pairs@, i2);
            }
            assert forall|k: Seq<char>| self@.contains_key(k) implies exists|i2: int|
                0 <= i2 < r@.len() && (#[trigger] r@[i2])@ == k by {
                if forall|i2: int| 0 <= i2 < self.pairs@.len() ==> (#[trigger] self.pairs@[i2]).0@
                    != k {
                    lemma_absent(self.pairs@, k);
                } else {
                    let w = choose|i2: int|
                        0 <= i2 < self.pairs@.len() && (#[trigger] self.pairs@[i2]).0@ == k;
                    assert(r@[w]@ == k);
                }
            }
        }
        r
    }
}

} // verus!
