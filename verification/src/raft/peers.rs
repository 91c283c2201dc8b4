//! Per-peer counters of a leader (next index, match index), keyed by peer id.

use vstd::prelude::*;

use crate::text::text_eq;

verus! {

/// The map that a sequence of (peer, value) pairs stands for: a later pair
/// for the same peer overrides an earlier one.
pub open spec fn pairs_to_map(s: Seq<(String, u64)>) -> Map<Seq<char>, u64>
    decreases s.len(),
{
    if s.len() == 0 {
        Map::empty()
    } else {
        pairs_to_map(s.drop_last()).insert(s.last().0@, s.last().1)
    }
}

/// Whether position `p` is the last pair for `key`.
pub open spec fn last_pair_for(s: Seq<(String, u64)>, p: int, key: Seq<char>) -> bool {
    &&& 0 <= p < s.len()
    &&& s[p].0@ == key
    &&& forall|j: int| p < j < s.len() ==> (#[trigger] s[j]).0@ != key
}

proof fn lemma_no_pair_for(s: Seq<(String, u64)>, key: Seq<char>)
    requires
        forall|j: int| 0 <= j < s.len() ==> (#[trigger] s[j]).0@ != key,
    ensures
        !pairs_to_map(s).contains_key(key),
    decreases s.len(),
{
    if s.len() > 0 {
        lemma_no_pair_for(s.drop_last(), key);
    }
}

proof fn lemma_last_pair_value(s: Seq<(String, u64)>, p: int, key: Seq<char>)
    requires
        last_pair_for(s, p, key),
    ensures
        pairs_to_map(s).contains_key(key),
        pairs_to_map(s)[key] == s[p].1,
    decreases s.len(),
{
    if p < s.len() - 1 {
        lemma_last_pair_value(s.drop_last(), p, key);
    }
}

proof fn lemma_update_last_pair(s: Seq<(String, u64)>, p: int, key: Seq<char>, pair: (String, u64))
    requires
        last_pair_for(s, p, key),
        pair.0@ == key,
    ensures
        pairs_to_map(s.update(p, pair)) == pairs_to_map(s).insert(key, pair.1),
    decreases s.len(),
{
    let u = s.update(p, pair);
    if p == s.len() - 1 {
        assert(u.drop_last() =~= s.drop_last());
        assert(pairs_to_map(u) =~= pairs_to_map(s).insert(key, pair.1));
    } else {
        let d = s.drop_last();
        assert(u.drop_last() =~= d.update(p, pair));
        lemma_update_last_pair(d, p, key, pair);
        assert(pairs_to_map(u) =~= pairs_to_map(s).insert(key, pair.1));
    }
}

/// A map from peer id to a log index.
pub struct PeerIndex {
    pairs: Vec<(String, u64)>,
}

impl View for PeerIndex {
    type V = Map<Seq<char>, u64>;

    closed spec fn view(&self) -> Map<Seq<char>, u64> {
        pairs_to_map(self.pairs@)
    }
}

impl PeerIndex {
    /// An empty map.
    pub fn new() -> (m: PeerIndex)
        ensures
            m@ == Map::<Seq<char>, u64>::empty(),
    {
        PeerIndex { pairs: Vec::new() }
    }

    /// Position of the last pair for `peer`, if any.
    fn find(&self, peer: &str) -> (p: Option<usize>)
        ensures
            match p {
                Some(i) => last_pair_for(self.pairs@, i as int, peer@),
                None => forall|j: int| 0 <= j < self.pairs@.len() ==> (#[trigger] self.pairs@[j]).0@ != peer@,
            },
    {
        let mut k = self.pairs.len();
        while k > 0
            invariant
                k <= self.pairs@.len(),
                forall|j: int| k <= j < self.pairs@.len() ==> (#[trigger] self.pairs@[j]).0@ != peer@,
            decreases k,
        {
            k = k - 1;
            if text_eq(self.pairs[k].0.as_str(), peer) {
                return Some(k);
            }
        }
        None
    }

    /// The value for `peer`, if it has one.
    pub fn get(&self, peer: &str) -> (v: Option<u64>)
        ensures
            v == (if self@.contains_key(peer@) {
                Some(self@[peer@])
            } else {
                None::<u64>
            }),
    {
        match self.find(peer) {
            Some(i) => {
                proof {
                    lemma_last_pair_value(self.pairs@, i as int, peer@);
                }
                Some(self.pairs[i].1)
            },
            None => {
                proof {
                    lemma_no_pair_for(self.pairs@, peer@);
                }
                None
            },
        }
    }

    /// Sets the value for `peer`.
    pub fn insert(&mut self, peer: String, value: u64)
        ensures
            final(self)@ == old(self)@.insert(peer@, value),
    {
        match self.find(peer.as_str()) {
            Some(i) => {
                proof {
                    lemma_update_last_pair(self.pairs@, i as int, peer@, (peer, value));
                }
                self.pairs.set(i, (peer, value));
            },
            None => {
                let ghost key = peer@;
                self.pairs.push((peer, value));
                proof {
                    assert(self.pairs@.drop_last() =~= old(self).pairs@);
                }
            },
        }
    }
}

} // verus!
