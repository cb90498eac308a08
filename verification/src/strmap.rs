//! A name-to-value mapping backed by a vector of pairs with distinct keys,
//! viewed as a `Map` from character sequences to values.

use vstd::prelude::*;

verus! {

/// The map a pair sequence denotes; later pairs win, though well-formed
/// maps never hold a key twice.
pub open spec fn pairs_as_map<V>(s: Seq<(String, V)>) -> Map<Seq<char>, V>
    decreases s.len(),
{
    if s.len() == 0 {
        Map::empty()
    } else {
        pairs_as_map(s.drop_last()).insert(s.last().0@, s.last().1)
    }
}

pub struct StrMap<V> {
    pairs: Vec<(String, V)>,
}

impl<V> View for StrMap<V> {
    type V = Map<Seq<char>, V>;

    closed spec fn view(&self) -> Map<Seq<char>, V> {
        pairs_as_map(self.pairs@)
    }
}

proof fn lemma_pairs_as_map_props<V>(s: Seq<(String, V)>)
    requires
        forall|i: int, j: int| 0 <= i < j < s.len() ==> s[i].0@ != s[j].0@,
    ensures
        forall|k: Seq<char>|
            pairs_as_map(s).contains_key(k) <==> exists|i: int|
                0 <= i < s.len() && (#[trigger] s[i]).0@ == k,
        forall|i: int|
            0 <= i < s.len() ==> pairs_as_map(s).contains_key(#[trigger] s[i].0@) && pairs_as_map(
                s,
            )[s[i].0@] == s[i].1,
    decreases s.len(),
{
    if s.len() > 0 {
        let pre = s.drop_last();
        lemma_pairs_as_map_props(pre);
        assert(forall|i: int| 0 <= i < pre.len() ==> pre[i] == #[trigger] s[i]);
        assert forall|i: int| 0 <= i < s.len() implies pairs_as_map(s).contains_key(
            #[trigger] s[i].0@,
        ) && pairs_as_map(s)[s[i].0@] == s[i].1 by {
            if i < s.len() - 1 {
                assert(pairs_as_map(pre).contains_key(s[i].0@));
                assert(s[i].0@ != s.last().0@);
            }
        }
        assert forall|k: Seq<char>| pairs_as_map(s).contains_key(k) implies exists|i: int|
            0 <= i < s.len() && (#[trigger] s[i]).0@ == k by {
            if k != s.last().0@ {
                assert(pairs_as_map(pre).contains_key(k));
                let i = choose|i: int| 0 <= i < pre.len() && (#[trigger] pre[i]).0@ == k;
                assert(s[i].0@ == k);
            } else {
                assert(s[s.len() - 1].0@ == k);
            }
        }
    }
}

impl<V> StrMap<V> {
    /// Keys are pairwise distinct.
    pub closed spec fn wf(&self) -> bool {
        forall|i: int, j: int| 0 <= i < j < self.pairs@.len() ==> self.pairs@[i].0@
            != self.pairs@[j].0@
    }

    /// The keys in insertion order.
    pub closed spec fn spec_keys(&self) -> Seq<Seq<char>> {
        self.pairs@.map_values(|p: (String, V)| p.0@)
    }

    pub proof fn lemma_keys(&self)
        requires
            self.wf(),
        ensures
            forall|k: Seq<char>| self@.contains_key(k) <==> self.spec_keys().contains(k),
            forall|i: int, j: int|
                0 <= i < j < self.spec_keys().len() ==> self.spec_keys()[i] != self.spec_keys()[j],
            forall|i: int|
                0 <= i < self.spec_keys().len() ==> self@.contains_key(
                    #[trigger] self.spec_keys()[i],
                ),
    {
        lemma_pairs_as_map_props(self.pairs@);
        assert forall|k: Seq<char>| self@.contains_key(k) implies self.spec_keys().contains(k) by {
            let i = choose|i: int| 0 <= i < self.pairs@.len() && (#[trigger] self.pairs@[i]).0@ == k;
            assert(self.spec_keys()[i] == k);
        }
        assert forall|k: Seq<char>| self.spec_keys().contains(k) implies self@.contains_key(k) by {
            let i = choose|i: int|
                0 <= i < self.spec_keys().len() && #[trigger] self.spec_keys()[i] == k;
            assert(self.pairs@[i].0@ == k);
        }
    }

    pub fn new() -> (r: StrMap<V>)
        ensures
            r@ == Map::<Seq<char>, V>::empty(),
            r.wf(),
            r.spec_keys() == Seq::<Seq<char>>::empty(),
    {
        let r = StrMap { pairs: Vec::new() };
        proof {
            assert(r.spec_keys() =~= Seq::<Seq<char>>::empty());
        }
        r
    }

    fn find_index(&self, name: &str) -> (r: Option<usize>)
        ensures
            match r {
                Some(i) => i < self.pairs@.len() && self.pairs@[i as int].0@ == name@,
                None => forall|i: int| 0 <= i < self.pairs@.len() ==> self.pairs@[i].0@ != name@,
            },
    {
        let mut i: usize = 0;
        while i < self.pairs.len()
            invariant
                i <= self.pairs@.len(),
                forall|j: int| 0 <= j < i ==> self.pairs@[j].0@ != name@,
            decreases self.pairs@.len() - i,
        {
            if crate::text::str_eq(self.pairs[i].0.as_str(), name) {
                return Some(i);
            }
            i = i + 1;
        }
        None
    }

    pub fn contains(&self, name: &str) -> (r: bool)
        requires
            self.wf(),
        ensures
            r == self@.contains_key(name@),
    {
        proof {
            lemma_pairs_as_map_props(self.pairs@);
        }
        match self.find_index(name) {
            Some(_) => true,
            None => {
                proof {
                    if self@.contains_key(name@) {
                        let i = choose|i: int|
                            0 <= i < self.pairs@.len() && (#[trigger] self.pairs@[i]).0@ == name@;
                        assert(false);
                    }
                }
                false
            },
        }
    }

    pub fn get(&self, name: &str) -> (r: Option<&V>)
        requires
            self.wf(),
        ensures
            match r {
                Some(v) => self@.contains_key(name@) && *v == self@[name@],
                None => !self@.contains_key(name@),
            },
    {
        proof {
            lemma_pairs_as_map_props(self.pairs@);
        }
        match self.find_index(name) {
            Some(i) => Some(&self.pairs[i].1),
            None => {
                proof {
                    if self@.contains_key(name@) {
                        let i = choose|i: int|
                            0 <= i < self.pairs@.len() && (#[trigger] self.pairs@[i]).0@ == name@;
                        assert(false);
                    }
                }
                None
            },
        }
    }

    pub fn insert(&mut self, name: &str, v: V)
        requires
            old(self).wf(),
        ensures
            final(self).wf(),
            final(self)@ == old(self)@.insert(name@, v),
            old(self)@.contains_key(name@) ==> final(self).spec_keys() == old(self).spec_keys(),
            !old(self)@.contains_key(name@) ==> final(self).spec_keys() == old(
                self,
            ).spec_keys().push(name@),
    {
        proof {
            lemma_pairs_as_map_props(self.pairs@);
        }
        match self.find_index(name) {
            Some(i) => {
                let owned = name.to_owned();
                let ghost old_pairs = self.pairs@;
                self.pairs[i] = (owned, v);
                proof {
                    let new_pairs = self.pairs@;
                    assert(forall|j: int|
                        0 <= j < new_pairs.len() ==> (#[trigger] new_pairs[j]).0@
                            == old_pairs[j].0@);
                    assert(final(self).wf());
                    lemma_pairs_as_map_props(new_pairs);
                    assert(final(self).spec_keys() =~= old(self).spec_keys());
                    assert forall|k: Seq<char>|
                        final(self)@.contains_key(k) == old(self)@.insert(name@, v).contains_key(
                        k,
                    ) by {
                        if final(self)@.contains_key(k) {
                            let j = choose|j: int|
                                0 <= j < new_pairs.len() && (#[trigger] new_pairs[j]).0@ == k;
                            assert(old_pairs[j].0@ == k);
                        }
                        if old(self)@.insert(name@, v).contains_key(k) {
                            if k == name@ {
                                assert(new_pairs[i as int].0@ == k);
                            } else {
                                let j = choose|j: int|
                                    0 <= j < old_pairs.len() && (#[trigger] old_pairs[j]).0@ == k;
                                assert(new_pairs[j].0@ == k);
                            }
                        }
                    }
                    assert forall|k: Seq<char>| final(self)@.contains_key(k)
                        implies final(self)@[k] == old(self)@.insert(name@, v)[k] by {
                        if k == name@ {
                            assert(new_pairs[i as int].0@ == k);
                            assert(final(self)@[new_pairs[i as int].0@] == new_pairs[i as int].1);
                        } else {
                            let j = choose|j: int|
                                0 <= j < new_pairs.len() && (#[trigger] new_pairs[j]).0@ == k;
                            assert(final(self)@[new_pairs[j].0@] == new_pairs[j].1);
                            assert(j != i);
                            assert(new_pairs[j].1 == old_pairs[j].1);
                            assert(old(self)@[old_pairs[j].0@] == old_pairs[j].1);
                        }
                    }
                    assert(final(self)@ =~= old(self)@.insert(name@, v));
                }
            },
            None => {
                let owned = name.to_owned();
                self.pairs.push((owned, v));
                proof {
                    let ghost old_pairs = old(self).pairs@;
                    assert(self.pairs@.drop_last() =~= old_pairs);
                    assert(final(self).spec_keys() =~= old(self).spec_keys().push(name@));
                    if old(self)@.contains_key(name@) {
                        let i = choose|i: int|
                            0 <= i < old_pairs.len() && (#[trigger] old_pairs[i]).0@ == name@;
                        assert(false);
                    }
                }
            },
        }
    }

    pub fn remove(&mut self, name: &str) -> (r: Option<V>)
        requires
            old(self).wf(),
        ensures
            final(self).wf(),
            final(self)@ == old(self)@.remove(name@),
            match r {
                Some(v) => old(self)@.contains_key(name@) && v == old(self)@[name@],
                None => !old(self)@.contains_key(name@),
            },
    {
        proof {
            lemma_pairs_as_map_props(self.pairs@);
        }
        match self.find_index(name) {
            Some(i) => {
                let ghost old_pairs = self.pairs@;
                let (_, v) = self.pairs.remove(i);
                proof {
                    let new_pairs = self.pairs@;
                    assert(forall|j: int| 0 <= j < i ==> #[trigger] new_pairs[j] == old_pairs[j]);
                    assert(forall|j: int|
                        i <= j < new_pairs.len() ==> #[trigger] new_pairs[j] == old_pairs[j + 1]);
                    assert(final(self).wf());
                    lemma_pairs_as_map_props(new_pairs);
                    assert forall|k: Seq<char>|
                        final(self)@.contains_key(k) == old(self)@.remove(name@).contains_key(
                        k,
                    ) by {
                        if final(self)@.contains_key(k) {
                            let j = choose|j: int|
                                0 <= j < new_pairs.len() && (#[trigger] new_pairs[j]).0@ == k;
                            if j < i {
                                assert(old_pairs[j].0@ == k);
                                assert(k != name@);
                            } else {
                                assert(old_pairs[j + 1].0@ == k);
                                assert(k != name@);
                            }
                        }
                        if old(self)@.remove(name@).contains_key(k) {
                            let j = choose|j: int|
                                0 <= j < old_pairs.len() && (#[trigger] old_pairs[j]).0@ == k;
                            assert(j != i);
                            if j < i {
                                assert(new_pairs[j].0@ == k);
                            } else {
                                assert(new_pairs[j - 1].0@ == k);
                            }
                        }
                    }
                    assert forall|k: Seq<char>| final(self)@.contains_key(k)
                        implies final(self)@[k] == old(self)@.remove(name@)[k] by {
                        let j = choose|j: int|
                            0 <= j < new_pairs.len() && (#[trigger] new_pairs[j]).0@ == k;
                        assert(final(self)@[new_pairs[j].0@] == new_pairs[j].1);
                        if j < i {
                            assert(old_pairs[j].0@ == k);
                            assert(old(self)@[old_pairs[j].0@] == old_pairs[j].1);
                        } else {
                            assert(old_pairs[j + 1].0@ == k);
                            assert(old(self)@[old_pairs[j + 1].0@] == old_pairs[j + 1].1);
                        }
                    }
                    assert(final(self)@ =~= old(self)@.remove(name@));
                }
                Some(v)
            },
            None => {
                proof {
                    if old(self)@.contains_key(name@) {
                        let i = choose|i: int|
                            0 <= i < self.pairs@.len() && (#[trigger] self.pairs@[i]).0@ == name@;
                        assert(false);
                    }
                    assert(final(self)@ =~= old(self)@.remove(name@));
                }
                None
            },
        }
    }

    /// How many entries the map holds.
    pub fn entry_count(&self) -> (r: usize)
        ensures
            r == self.spec_keys().len(),
    {
        self.pairs.len()
    }

    pub fn key_at(&self, i: usize) -> (r: &String)
        requires
            i < self.spec_keys().len(),
        ensures
            r@ == self.spec_keys()[i as int],
    {
        &self.pairs[i].0
    }

    pub fn value_at(&self, i: usize) -> (r: &V)
        requires
            self.wf(),
            i < self.spec_keys().len(),
        ensures
            self@.contains_key(self.spec_keys()[i as int]),
            *r == self@[self.spec_keys()[i as int]],
    {
        proof {
            lemma_pairs_as_map_props(self.pairs@);
        }
        &self.pairs[i].1
    }
}

} // verus!
