//! The key-value metadata mapping decoded from info and status responses.
//!
//! The grammar does not guarantee unique keys, so the pairs are kept in
//! encounter order, duplicates included; a lookup returns the value of the
//! last pair with the key, which is what inserting the pairs into a mapping
//! in order would leave there.

use vstd::prelude::*;

use crate::parse::pairs_view;

verus! {

/// The mapping that inserting the pairs in order builds: the last
/// occurrence of a key wins.
pub open spec fn map_of_pairs(ps: Seq<(Seq<u8>, Seq<u8>)>) -> Map<Seq<u8>, Seq<u8>>
    decreases ps.len(),
{
    if ps.len() == 0 {
        Map::empty()
    } else {
        map_of_pairs(ps.drop_last()).insert(ps.last().0, ps.last().1)
    }
}

/// The value of the last pair whose key is `key`, if any.
pub open spec fn spec_lookup(ps: Seq<(Seq<u8>, Seq<u8>)>, key: Seq<u8>) -> Option<Seq<u8>>
    decreases ps.len(),
{
    if ps.len() == 0 {
        None
    } else if ps.last().0 == key {
        Some(ps.last().1)
    } else {
        spec_lookup(ps.drop_last(), key)
    }
}

/// Law: searching the pairs from the back agrees with the last-wins
/// mapping, key by key.
pub proof fn lemma_lookup_matches_map(ps: Seq<(Seq<u8>, Seq<u8>)>, key: Seq<u8>)
    ensures
        map_of_pairs(ps).contains_key(key) <==> spec_lookup(ps, key) is Some,
        spec_lookup(ps, key) is Some ==> map_of_pairs(ps)[key] == spec_lookup(ps, key)->Some_0,
    decreases ps.len(),
{
    if ps.len() > 0 {
        lemma_lookup_matches_map(ps.drop_last(), key);
    }
}

/// `a` and `b` hold the same bytes.
pub fn bytes_eq(a: &[u8], b: &[u8]) -> (r: bool)
    ensures
        r == (a@ == b@),
{
    let alen = a.len();
    if alen != b.len() {
        return false;
    }
    let mut k: usize = 0;
    while k < alen
        invariant
            alen == a@.len() == b@.len(),
            0 <= k <= alen,
            forall|j: int| 0 <= j < k ==> a@[j] == b@[j],
        decreases alen - k,
    {
        if a[k] != b[k] {
            return false;
        }
        k += 1;
    }
    proof {
        assert(a@ =~= b@);
    }
    true
}

/// The decoded key-value metadata of an info or status response.
#[derive(Debug, Clone)]
pub struct KeyValues {
    /// The decoded pairs in encounter order, duplicates kept.
    pub entries: Vec<(Vec<u8>, Vec<u8>)>,
}

impl View for KeyValues {
    type V = Map<Seq<u8>, Seq<u8>>;

    open spec fn view(&self) -> Map<Seq<u8>, Seq<u8>> {
        map_of_pairs(pairs_view(self.entries@))
    }
}

impl KeyValues {
    /// The pairs in encounter order, as byte sequences.
    pub open spec fn spec_pairs(self) -> Seq<(Seq<u8>, Seq<u8>)> {
        pairs_view(self.entries@)
    }

    /// Wraps decoded pairs, keeping their order.
    pub fn from_pairs(entries: Vec<(Vec<u8>, Vec<u8>)>) -> (r: KeyValues)
        ensures
            r.spec_pairs() == pairs_view(entries@),
            r@ == map_of_pairs(pairs_view(entries@)),
    {
        KeyValues { entries }
    }

    /// The number of stored pairs.
    pub fn len(&self) -> (r: usize)
        ensures
            r == self.spec_pairs().len(),
    {
        self.entries.len()
    }

    /// The value mapped to `key`: the value of the last pair carrying it.
    pub fn get(&self, key: &[u8]) -> (r: Option<&Vec<u8>>)
        ensures
            match r {
                Some(v) => self@.contains_key(key@) && v@ == self@[key@],
                None => !self@.contains_key(key@),
            },
    {
        proof {
            lemma_lookup_matches_map(pairs_view(self.entries@), key@);
            assert(pairs_view(self.entries@).take(self.entries@.len() as int) =~= pairs_view(
                self.entries@,
            ));
        }
        let n = self.entries.len();
        let mut idx: usize = n;
        while idx > 0
        invariant
            idx <= n == self.entries@.len(),
            spec_lookup(pairs_view(self.entries@), key@) == spec_lookup(
                pairs_view(self.entries@).take(idx as int),
                key@,
            ),
        decreases idx,
        {
            let hit = bytes_eq(self.entries[idx - 1].0.as_slice(), key);
            proof {
                let ps = pairs_view(self.entries@);
                assert(ps[idx as int - 1] == (
                    self.entries@[idx as int - 1].0@,
                    self.entries@[idx as int - 1].1@,
                ));
                assert(ps.take(idx as int).last() == ps[idx as int - 1]);
                assert(ps.take(idx as int).drop_last() =~= ps.take(idx as int - 1));
            }
            if hit {
                proof {
                    let ps = pairs_view(self.entries@);
                    assert(spec_lookup(ps.take(idx as int), key@) == Some(
                        ps[idx as int - 1].1,
                    ));
                    lemma_lookup_matches_map(ps, key@);
                }
                return Some(&self.entries[idx - 1].1);
            }
            idx -= 1;
        }
        proof {
            assert(pairs_view(self.entries@).take(0).len() == 0);
        }
        None
    }
}

} // verus!
