//! A small string-keyed map with an exact lookup contract.
//!
//! Stored as a vector of pairs with a scan from the back, so that a
//! later insert of the same key wins — the overwrite behaviour a
//! configuration reader needs.

use vstd::prelude::*;
use crate::text::str_eq;

verus! {

/// The value for `key` among `pairs`, latest entry winning.
pub open spec fn assoc_get(pairs: Seq<(Seq<char>, Seq<char>)>, key: Seq<char>) -> Option<
    Seq<char>,
>
    decreases pairs.len(),
{
    if pairs.len() == 0 {
        None
    } else if pairs.last().0 == key {
        Some(pairs.last().1)
    } else {
        assoc_get(pairs.drop_last(), key)
    }
}

/// String-to-string map; later inserts shadow earlier ones.
pub struct StrMap {
    pub pairs: Vec<(String, String)>,
}

impl StrMap {
    /// The pairs as view sequences.
    pub open spec fn view_pairs(&self) -> Seq<(Seq<char>, Seq<char>)> {
        self.pairs@.map_values(|p: (String, String)| (p.0@, p.1@))
    }

    pub fn new() -> (r: StrMap)
        ensures
            r.view_pairs() == Seq::<(Seq<char>, Seq<char>)>::empty(),
    {
        let m = StrMap { pairs: Vec::new() };
        proof {
            assert(m.view_pairs() =~= Seq::<(Seq<char>, Seq<char>)>::empty());
        }
        m
    }

    pub fn len(&self) -> (r: usize)
        ensures
            r == self.view_pairs().len(),
    {
        self.pairs.len()
    }

    /// Record `key = value`, shadowing any earlier entry for `key`.
    pub fn insert(&mut self, key: String, value: String)
        ensures
            final(self).view_pairs() == old(self).view_pairs().push((key@, value@)),
    {
        let ghost before = self.view_pairs();
        let ghost gk = key@;
        let ghost gv = value@;
        self.pairs.push((key, value));
        proof {
            assert(self.view_pairs() =~= before.push((gk, gv)));
        }
    }

    /// The value stored for `key`, if any.
    pub fn get(&self, key: &str) -> (r: Option<&String>)
        ensures
            match r {
                Some(v) => assoc_get(self.view_pairs(), key@) == Some(v@),
                None => assoc_get(self.view_pairs(), key@) is None,
            },
    {
        let n = self.pairs.len();
        proof {
            assert(self.view_pairs().take(n as int) =~= self.view_pairs());
        }
        let mut i: usize = n;
        while i > 0
            invariant
                0 <= i <= n,
                n == self.pairs@.len(),
                assoc_get(self.view_pairs(), key@)
                    == assoc_get(self.view_pairs().take(i as int), key@),
            decreases i,
        {
            proof {
                let vw = self.view_pairs();
                assert(vw.take(i as int).last() == vw[i - 1]);
                assert(vw.take(i as int).drop_last() =~= vw.take(i - 1));
                assert(vw[i - 1] == (self.pairs@[i - 1].0@, self.pairs@[i - 1].1@));
            }
            let pair = &self.pairs[i - 1];
            if str_eq(pair.0.as_str(), key) {
                return Some(&pair.1);
            }
            i = i - 1;
        }
        proof {
            assert(self.view_pairs().take(0) =~= Seq::<(Seq<char>, Seq<char>)>::empty());
        }
        None
    }
}

} // verus!
