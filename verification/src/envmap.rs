//! The environment map: variable names to values, keys unique, insertion
//! order irrelevant. Its mathematical model is a `Map<Seq<char>, Seq<char>>`
//! built by inserting name/value pairs in order, so that a later pair for the
//! same name overrides an earlier one.
use vstd::prelude::*;

verus! {

/// The map denoted by a sequence of name/value pairs: each pair is inserted
/// in order, so the last pair for a name gives that name's value.
pub open spec fn map_of_pairs(ps: Seq<(Seq<char>, Seq<char>)>) -> Map<Seq<char>, Seq<char>>
    decreases ps.len(),
{
    if ps.len() == 0 {
        Map::<Seq<char>, Seq<char>>::empty()
    } else {
        map_of_pairs(ps.drop_last()).insert(ps.last().0, ps.last().1)
    }
}

/// The names of a sequence of name/value pairs, in order.
pub open spec fn keys_of_pairs(ps: Seq<(Seq<char>, Seq<char>)>) -> Seq<Seq<char>> {
    ps.map_values(|p: (Seq<char>, Seq<char>)| p.0)
}

/// The domain of the map of a pair sequence is exactly the set of its names.
pub proof fn lemma_map_of_pairs_dom(ps: Seq<(Seq<char>, Seq<char>)>)
    ensures
        forall|k: Seq<char>|
            #![trigger map_of_pairs(ps).dom().contains(k)]
            #![trigger keys_of_pairs(ps).contains(k)]
            map_of_pairs(ps).dom().contains(k) <==> keys_of_pairs(ps).contains(k),
    decreases ps.len(),
{
    if ps.len() == 0 {
    } else {
        lemma_map_of_pairs_dom(ps.drop_last());
        let kd = keys_of_pairs(ps.drop_last());
        let kf = keys_of_pairs(ps);
        assert forall|k: Seq<char>|
            map_of_pairs(ps).dom().contains(k) <==> keys_of_pairs(ps).contains(k) by {
            if map_of_pairs(ps).dom().contains(k) {
                if k == ps.last().0 {
                    assert(kf[ps.len() - 1] == k);
                } else {
                    assert(map_of_pairs(ps.drop_last()).dom().contains(k));
                    assert(kd.contains(k));
                    let i = choose|i: int| 0 <= i < kd.len() && kd[i] == k;
                    assert(kd[i] == ps.drop_last()[i].0);
                    assert(ps.drop_last()[i] == ps[i]);
                    assert(kf[i] == k);
                }
            }
            if keys_of_pairs(ps).contains(k) {
                let i = choose|i: int| 0 <= i < kf.len() && kf[i] == k;
                assert(kf[i] == ps[i].0);
                if i < ps.len() - 1 {
                    assert(ps.drop_last()[i] == ps[i]);
                    assert(kd[i] == k);
                    assert(kd.contains(k));
                    assert(map_of_pairs(ps.drop_last()).dom().contains(k));
                } else {
                    assert(k == ps.last().0);
                }
            }
        }
    }
}

/// Law: in the map of a pair sequence, each name that occurs is present, and
/// its value is the one from the last pair that carries that name.
pub proof fn lemma_last_write_wins(ps: Seq<(Seq<char>, Seq<char>)>, i: int)
    requires
        0 <= i < ps.len(),
        forall|j: int| i < j < ps.len() ==> (#[trigger] ps[j]).0 != ps[i].0,
    ensures
        map_of_pairs(ps).dom().contains(ps[i].0),
        map_of_pairs(ps)[ps[i].0] == ps[i].1,
    decreases ps.len(),
{
    if i == ps.len() - 1 {
    } else {
        assert forall|j: int| i < j < ps.drop_last().len() implies (#[trigger] ps.drop_last()[j]).0
            != ps.drop_last()[i].0 by {
            assert(ps.drop_last()[j] == ps[j]);
        }
        lemma_last_write_wins(ps.drop_last(), i);
        assert(ps.last() == ps[ps.len() - 1]);
        assert(ps.last().0 != ps[i].0);
    }
}

/// The map of a pair sequence with pairwise-distinct names has exactly one
/// entry per pair.
pub proof fn lemma_map_of_pairs_len(ps: Seq<(Seq<char>, Seq<char>)>)
    requires
        forall|i: int, j: int|
            0 <= i < j < ps.len() ==> (#[trigger] ps[i]).0 != (#[trigger] ps[j]).0,
    ensures
        map_of_pairs(ps).dom().finite(),
        map_of_pairs(ps).dom().len() == ps.len(),
    decreases ps.len(),
{
    if ps.len() == 0 {
        assert(map_of_pairs(ps).dom() =~= Set::<Seq<char>>::empty());
    } else {
        lemma_map_of_pairs_len(ps.drop_last());
        lemma_map_of_pairs_dom(ps.drop_last());
        let k = ps.last().0;
        if keys_of_pairs(ps.drop_last()).contains(k) {
            let i = choose|i: int|
                0 <= i < keys_of_pairs(ps.drop_last()).len() && keys_of_pairs(ps.drop_last())[i]
                    == k;
            assert((ps[i]).0 == (ps[ps.len() - 1]).0);
            assert(false);
        }
        assert(map_of_pairs(ps).dom() =~= map_of_pairs(ps.drop_last()).dom().insert(k));
    }
}

/// Removing the pair at `i`, when no other pair carries its name, removes
/// exactly that name's entry from the denoted map.
proof fn lemma_map_of_pairs_remove(ps: Seq<(Seq<char>, Seq<char>)>, i: int)
    requires
        0 <= i < ps.len(),
        forall|j: int| 0 <= j < ps.len() && j != i ==> (#[trigger] ps[j]).0 != ps[i].0,
    ensures
        map_of_pairs(ps.remove(i)) =~= map_of_pairs(ps).remove(ps[i].0),
    decreases ps.len(),
{
    let k = ps[i].0;
    if i == ps.len() - 1 {
        assert(ps.remove(i) =~= ps.drop_last());
        lemma_map_of_pairs_dom(ps.drop_last());
        if keys_of_pairs(ps.drop_last()).contains(k) {
            let j = choose|j: int|
                0 <= j < keys_of_pairs(ps.drop_last()).len() && keys_of_pairs(ps.drop_last())[j]
                    == k;
            assert((ps[j]).0 == k);
            assert(false);
        }
        assert(map_of_pairs(ps.drop_last()) =~= map_of_pairs(ps).remove(k));
    } else {
        assert forall|j: int|
            0 <= j < ps.drop_last().len() && j != i implies (#[trigger] ps.drop_last()[j]).0
            != ps.drop_last()[i].0 by {
            assert(ps.drop_last()[j] == ps[j]);
        }
        lemma_map_of_pairs_remove(ps.drop_last(), i);
        assert(ps.remove(i).drop_last() =~= ps.drop_last().remove(i));
        assert(ps.remove(i).last() == ps.last());
        assert(ps.last().0 != k);
    }
}

/// A mapping from environment-variable names to values. Names are unique;
/// inserting an existing name overrides its value (last write wins).
pub struct EnvironmentMap {
    entries: Vec<(String, String)>,
}

/// The name/value pairs of a stored entry sequence, as character sequences.
pub open spec fn entry_pairs(es: Seq<(String, String)>) -> Seq<(Seq<char>, Seq<char>)> {
    es.map_values(|e: (String, String)| (e.0@, e.1@))
}

impl View for EnvironmentMap {
    type V = Map<Seq<char>, Seq<char>>;

    closed spec fn view(&self) -> Map<Seq<char>, Seq<char>> {
        map_of_pairs(entry_pairs(self.entries@))
    }
}

impl EnvironmentMap {
    /// Well-formed: no two stored entries carry the same name.
    pub closed spec fn wf(&self) -> bool {
        forall|i: int, j: int|
            0 <= i < j < self.entries@.len() ==> (#[trigger] self.entries@[i]).0@ != (
            #[trigger] self.entries@[j]).0@
    }

    /// An empty environment.
    pub fn new() -> (m: Self)
        ensures
            m@ == Map::<Seq<char>, Seq<char>>::empty(),
            m.wf(),
    {
        let m = (EnvironmentMap { entries: Vec::new() });
        proof {
            assert(entry_pairs(m.entries@) =~= Seq::<(Seq<char>, Seq<char>)>::empty());
        }
        m
    }

    /// The index of the entry that carries `key`, if one does.
    fn find_key(&self, key: &String) -> (r: Option<usize>)
        ensures
            match r {
                Some(i) => i < self.entries@.len() && self.entries@[i as int].0@ == key@,
                None => forall|j: int|
                    0 <= j < self.entries@.len() ==> (#[trigger] self.entries@[j]).0@ != key@,
            },
    {
        let mut i: usize = 0;
        while i < self.entries.len()
            invariant
                i <= self.entries@.len(),
                forall|j: int| 0 <= j < i ==> (#[trigger] self.entries@[j]).0@ != key@,
            decreases self.entries@.len() - i,
        {
            if self.entries[i].0 == *key {
                return Some(i);
            }
            i = i + 1;
        }
        None
    }

    /// The number of variables held.
    pub fn len(&self) -> (n: usize)
        requires
            self.wf(),
        ensures
            n == self@.dom().len(),
    {
        proof {
            lemma_map_of_pairs_len(entry_pairs(self.entries@));
        }
        self.entries.len()
    }

    /// Inserts a variable: a later value for the same name overrides an
    /// earlier one.
    pub fn insert(&mut self, key: String, value: String)
        requires
            old(self).wf(),
        ensures
            final(self).wf(),
            final(self)@ == old(self)@.insert(key@, value@),
    {
        let ghost es0 = self.entries@;
        let ghost ps0 = entry_pairs(es0);
        match self.find_key(&key) {
            Some(i) => {
                proof {
                    assert(ps0[i as int].0 == key@);
                    assert forall|j: int|
                        0 <= j < ps0.len() && j != i implies (#[trigger] ps0[j]).0
                        != ps0[i as int].0 by {
                        if j < i {
                            assert(es0[j].0@ != es0[i as int].0@);
                        } else {
                            assert(es0[i as int].0@ != es0[j].0@);
                        }
                    }
                    lemma_map_of_pairs_remove(ps0, i as int);
                }
                self.entries.remove(i);
                self.entries.push((key, value));
                proof {
                    let es1 = self.entries@;
                    assert(es1 =~= es0.remove(i as int).push((es1.last().0, es1.last().1)));
                    assert(entry_pairs(es1).drop_last() =~= entry_pairs(es0.remove(i as int)));
                    assert(entry_pairs(es0.remove(i as int)) =~= ps0.remove(i as int));
                    assert(entry_pairs(es1).last() == (key@, value@));
                    assert(self@ =~= old(self)@.insert(key@, value@));
                    assert forall|p: int, q: int|
                        0 <= p < q < es1.len() implies (#[trigger] es1[p]).0@ != (
                    #[trigger] es1[q]).0@ by {
                        let pp = if p < i { p } else { p + 1 };
                        if q == es1.len() - 1 {
                            assert(es1[p] == es0[pp]);
                            if pp < i {
                                assert(es0[pp].0@ != es0[i as int].0@);
                            } else {
                                assert(es0[i as int].0@ != es0[pp].0@);
                            }
                        } else {
                            let qq = if q < i { q } else { q + 1 };
                            assert(es1[p] == es0[pp]);
                            assert(es1[q] == es0[qq]);
                            assert(es0[pp].0@ != es0[qq].0@);
                        }
                    }
                }
            },
            None => {
                self.entries.push((key, value));
                proof {
                    let es1 = self.entries@;
                    assert(entry_pairs(es1).drop_last() =~= ps0);
                    assert(entry_pairs(es1).last() == (key@, value@));
                    assert(self@ =~= old(self)@.insert(key@, value@));
                    assert forall|p: int, q: int|
                        0 <= p < q < es1.len() implies (#[trigger] es1[p]).0@ != (
                    #[trigger] es1[q]).0@ by {
                        assert(es1[p] == es0[p]);
                        if q < es1.len() - 1 {
                            assert(es1[q] == es0[q]);
                        }
                    }
                }
            },
        }
    }

    /// Looks a variable up by name.
    pub fn get(&self, key: &String) -> (r: Option<&String>)
        requires
            self.wf(),
        ensures
            match r {
                Some(v) => self@.dom().contains(key@) && v@ == self@[key@],
                None => !self@.dom().contains(key@),
            },
    {
        let ghost ps = entry_pairs(self.entries@);
        match self.find_key(key) {
            Some(i) => {
                proof {
                    assert forall|j: int| i < j < ps.len() implies (#[trigger] ps[j]).0
                        != ps[i as int].0 by {
                        assert(self.entries@[i as int].0@ != self.entries@[j].0@);
                    }
                    lemma_last_write_wins(ps, i as int);
                }
                Some(&self.entries[i].1)
            },
            None => {
                proof {
                    lemma_map_of_pairs_dom(ps);
                    if keys_of_pairs(ps).contains(key@) {
                        let j = choose|j: int|
                            0 <= j < keys_of_pairs(ps).len() && keys_of_pairs(ps)[j] == key@;
                        assert(self.entries@[j].0@ == key@);
                        assert(false);
                    }
                }
                None
            },
        }
    }

    /// Merges two environments under the policy that this map — in the
    /// pipeline, the harvested login environment — always wins: every
    /// variable of `self` keeps its value, and only variables absent from
    /// `self` are taken from `defaults`.
    pub fn merged_over(&self, defaults: EnvironmentMap) -> (r: EnvironmentMap)
        requires
            self.wf(),
            defaults.wf(),
        ensures
            r.wf(),
            r@ == defaults@.union_prefer_right(self@),
    {
        let ghost ps = entry_pairs(self.entries@);
        let ghost d = defaults@;
        let mut base = defaults;
        proof {
            assert(ps.take(0) =~= Seq::<(Seq<char>, Seq<char>)>::empty());
            assert(d.union_prefer_right(map_of_pairs(ps.take(0))) =~= d);
        }
        let mut i: usize = 0;
        while i < self.entries.len()
            invariant
                i <= self.entries@.len(),
                ps == entry_pairs(self.entries@),
                base.wf(),
                base@ == d.union_prefer_right(map_of_pairs(ps.take(i as int))),
            decreases self.entries@.len() - i,
        {
            let key = self.entries[i].0.clone();
            let value = self.entries[i].1.clone();
            proof {
                assert(ps.take(i + 1).drop_last() =~= ps.take(i as int));
                assert(ps.take(i + 1).last() == ps[i as int]);
                assert(ps[i as int].0 == key@ && ps[i as int].1 == value@);
                assert(d.union_prefer_right(map_of_pairs(ps.take(i as int))).insert(key@, value@)
                    =~= d.union_prefer_right(map_of_pairs(ps.take(i + 1))));
            }
            base.insert(key, value);
            i = i + 1;
        }
        proof {
            assert(ps.take(i as int) =~= ps);
        }
        base
    }

    /// The stored name/value pairs; each is an entry of the map, and each
    /// entry of the map is stored once.
    pub fn pairs(&self) -> (r: &Vec<(String, String)>)
        requires
            self.wf(),
        ensures
            forall|i: int|
                0 <= i < r@.len() ==> self@.dom().contains((#[trigger] r@[i]).0@) && self@[r@[i].0@]
                    == r@[i].1@,
            r@.len() == self@.dom().len(),
    {
        proof {
            lemma_map_of_pairs_len(entry_pairs(self.entries@));
            let ps = entry_pairs(self.entries@);
            assert forall|i: int| 0 <= i < self.entries@.len() implies self@.dom().contains(
                (#[trigger] self.entries@[i]).0@,
            ) && self@[self.entries@[i].0@] == self.entries@[i].1@ by {
                assert forall|j: int| i < j < ps.len() implies (#[trigger] ps[j]).0 != ps[i].0 by {
                    assert(self.entries@[i].0@ != self.entries@[j].0@);
                }
                lemma_last_write_wins(ps, i);
            }
        }
        &self.entries
    }
}

} // verus!
