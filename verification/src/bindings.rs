use vstd::prelude::*;
use crate::strutil::str_eq;

verus! {

/// The views of a sequence of owned key/value pairs.
pub open spec fn pair_views(s: Seq<(String, String)>) -> Seq<(Seq<char>, Seq<char>)> {
    s.map_values(|p: (String, String)| (p.0@, p.1@))
}

/// The mapping that a sequence of pairs denotes when read left to right,
/// later pairs overwriting earlier ones.
pub open spec fn map_of_pairs(s: Seq<(Seq<char>, Seq<char>)>) -> Map<Seq<char>, Seq<char>>
    decreases s.len(),
{
    if s.len() == 0 {
        Map::<Seq<char>, Seq<char>>::empty()
    } else {
        map_of_pairs(s.drop_last()).insert(s.last().0, s.last().1)
    }
}

/// No two pairs share a key.
pub open spec fn distinct_keys(s: Seq<(Seq<char>, Seq<char>)>) -> bool {
    forall|i: int, j: int| 0 <= i < j < s.len() ==> (#[trigger] s[i]).0 != (#[trigger] s[j]).0
}

/// With distinct keys, the denoted mapping has exactly the stored keys, each
/// bound to its stored value, and as many entries as there are pairs.
pub proof fn lemma_map_of_pairs_props(s: Seq<(Seq<char>, Seq<char>)>)
    requires
        distinct_keys(s),
    ensures
        forall|k: Seq<char>|
            map_of_pairs(s).contains_key(k) <==> exists|i: int|
                0 <= i < s.len() && (#[trigger] s[i]).0 == k,
        forall|i: int|
            0 <= i < s.len() ==> map_of_pairs(s).contains_key((#[trigger] s[i]).0)
                && map_of_pairs(s)[s[i].0] == s[i].1,
        map_of_pairs(s).dom().finite(),
        map_of_pairs(s).dom().len() == s.len(),
    decreases s.len(),
{
    if s.len() > 0 {
        lemma_map_of_pairs_props(s.drop_last());
        assert forall|i: int|
            0 <= i < s.len() implies map_of_pairs(s).contains_key((#[trigger] s[i]).0)
            && map_of_pairs(s)[s[i].0] == s[i].1 by {
            if i < s.len() - 1 {
                assert(s.drop_last()[i] == s[i]);
                assert(s[i].0 != s.last().0);
            }
        }
        assert forall|k: Seq<char>| map_of_pairs(s).contains_key(k) implies exists|i: int|
            0 <= i < s.len() && (#[trigger] s[i]).0 == k by {
            if k == s.last().0 {
                assert((s[s.len() - 1]).0 == k);
            } else {
                let i: int = choose|i: int| 0 <= i < s.drop_last().len() && (#[trigger] s.drop_last()[
                    i
                ]).0 == k;
                assert((s[i]).0 == k);
            }
        }
        assert(!map_of_pairs(s.drop_last()).contains_key(s.last().0));
        assert(map_of_pairs(s).dom() =~= map_of_pairs(s.drop_last()).dom().insert(s.last().0));
        vstd::set::axiom_set_insert_len(map_of_pairs(s.drop_last()).dom(), s.last().0);
    }
}

/// Overwriting the value of the pair that holds a key denotes the same
/// mapping as inserting that key afresh.
proof fn lemma_map_of_pairs_update(s: Seq<(Seq<char>, Seq<char>)>, i: int, v: Seq<char>)
    requires
        distinct_keys(s),
        0 <= i < s.len(),
    ensures
        map_of_pairs(s.update(i, (s[i].0, v))) == map_of_pairs(s).insert(s[i].0, v),
    decreases s.len(),
{
    let t = s.update(i, (s[i].0, v));
    if i == s.len() - 1 {
        assert(t.drop_last() =~= s.drop_last());
        assert(map_of_pairs(s.drop_last()).insert(s[i].0, s[i].1).insert(s[i].0, v)
            =~= map_of_pairs(s.drop_last()).insert(s[i].0, v));
    } else {
        assert(t.drop_last() =~= s.drop_last().update(i, (s[i].0, v)));
        assert(s.drop_last()[i] == s[i]);
        lemma_map_of_pairs_update(s.drop_last(), i, v);
        assert(t.last() == s.last());
        assert(s[i].0 != s.last().0);
        assert(map_of_pairs(s.drop_last()).insert(s[i].0, v).insert(s.last().0, s.last().1)
            =~= map_of_pairs(s.drop_last()).insert(s.last().0, s.last().1).insert(s[i].0, v));
    }
}

/// The result mapping of a parse: variable names to their most recently
/// assigned values, each key held once.
#[derive(Debug)]
pub struct Bindings {
    pairs: Vec<(String, String)>,
}

impl View for Bindings {
    type V = Map<Seq<char>, Seq<char>>;

    closed spec fn view(&self) -> Map<Seq<char>, Seq<char>> {
        map_of_pairs(pair_views(self.pairs@))
    }
}

impl Bindings {
    /// Every stored key appears once.
    pub closed spec fn wf(&self) -> bool {
        distinct_keys(pair_views(self.pairs@))
    }

    pub fn new() -> (b: Self)
        ensures
            b.wf(),
            b@ == Map::<Seq<char>, Seq<char>>::empty(),
    {
        proof {
            assert(pair_views(Seq::<(String, String)>::empty()) =~= Seq::<(
                Seq<char>,
                Seq<char>,
            )>::empty());
        }
        Bindings { pairs: Vec::new() }
    }

    /// Binds `key` to `value`, overwriting any earlier value of the same key.
    pub fn insert(&mut self, key: String, value: String)
        requires
            old(self).wf(),
        ensures
            final(self).wf(),
            final(self)@ == old(self)@.insert(key@, value@),
    {
        let n: usize = self.pairs.len();
        let mut idx: usize = 0;
        let mut found = false;
        loop
            invariant_except_break
                idx <= n,
                n == self.pairs@.len(),
                *self == *old(self),
                !found,
                forall|j: int| 0 <= j < idx ==> pair_views(self.pairs@)[j].0 != key@,
            ensures
                n == self.pairs@.len(),
                *self == *old(self),
                found ==> idx < n && pair_views(self.pairs@)[idx as int].0 == key@,
                !found ==> forall|j: int| 0 <= j < n ==> pair_views(self.pairs@)[j].0 != key@,
            decreases n - idx,
        {
            if idx == n {
                break;
            }
            if str_eq(self.pairs[idx].0.as_str(), key.as_str()) {
                found = true;
                break;
            }
            idx = idx + 1;
        }
        if found {
            let ghost before = pair_views(self.pairs@);
            let pair = self.pairs.remove(idx);
            self.pairs.insert(idx, (pair.0, value));
            proof {
                assert(self.pairs@ =~= old(self).pairs@.update(
                    idx as int,
                    (pair.0, value),
                ));
                assert(pair_views(self.pairs@) =~= before.update(
                    idx as int,
                    (before[idx as int].0, value@),
                ));
                lemma_map_of_pairs_update(before, idx as int, value@);
            }
        } else {
            self.pairs.push((key, value));
            proof {
                assert(pair_views(self.pairs@) =~= pair_views(old(self).pairs@).push(
                    (key@, value@),
                ));
                assert(pair_views(self.pairs@).drop_last() =~= pair_views(old(self).pairs@));
            }
        }
    }

    /// Looks a key up: the current value where the key is bound, nothing
    /// where it is not.
    pub fn get(&self, key: &str) -> (r: Option<&String>)
        requires
            self.wf(),
        ensures
            match r {
                Some(v) => self@.contains_key(key@) && v@ == self@[key@],
                None => !self@.contains_key(key@),
            },
    {
        proof {
            lemma_map_of_pairs_props(pair_views(self.pairs@));
        }
        let n: usize = self.pairs.len();
        let mut idx: usize = 0;
        while idx < n
            invariant
                self.wf(),
                idx <= n,
                n == self.pairs@.len(),
                forall|j: int| 0 <= j < idx ==> pair_views(self.pairs@)[j].0 != key@,
            decreases n - idx,
        {
            if str_eq(self.pairs[idx].0.as_str(), key) {
                proof {
                    lemma_map_of_pairs_props(pair_views(self.pairs@));
                    assert(pair_views(self.pairs@)[idx as int].0 == key@);
                    assert(self@[key@] == pair_views(self.pairs@)[idx as int].1);
                }
                return Some(&self.pairs[idx].1);
            }
            idx = idx + 1;
        }
        proof {
            assert(forall|i: int|
                0 <= i < pair_views(self.pairs@).len() ==> (#[trigger] pair_views(self.pairs@)[
                    i
                ]).0 != key@);
        }
        None
    }

    /// The number of bound names.
    pub fn len(&self) -> (n: usize)
        requires
            self.wf(),
        ensures
            n == self@.dom().len(),
    {
        proof {
            lemma_map_of_pairs_props(pair_views(self.pairs@));
        }
        self.pairs.len()
    }

    /// The bound pairs, one per name, each name with its current value.
    pub fn entries(&self) -> (r: &Vec<(String, String)>)
        requires
            self.wf(),
        ensures
            distinct_keys(pair_views(r@)),
            map_of_pairs(pair_views(r@)) == self@,
            r@.len() == self@.dom().len(),
    {
        proof {
            lemma_map_of_pairs_props(pair_views(self.pairs@));
        }
        &self.pairs
    }
}

} // verus!
