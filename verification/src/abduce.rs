//! Abductive hypothesis generation: search-space configuration.

use vstd::prelude::*;
use crate::query::QueryConfig;

verus! {

/// Search-space and beam knobs for abduction.
#[derive(Debug, Clone)]
pub struct AbduceConfig {
    /// Anchor entities to consider for hypothesis atoms; `None` = all.
    pub anchors: Option<Vec<usize>>,
    /// Maximum conjuncts per hypothesis (1 = atoms only, 2 = pairs). Values
    /// above 2 are treated as 2.
    pub max_conjuncts: usize,
    /// Atoms kept for conjunction pairing, and hypotheses returned.
    pub beam: usize,
    /// Evaluation knobs for scoring hypotheses.
    pub query: QueryConfig,
}

impl Default for AbduceConfig {
    fn default() -> (r: Self)
        ensures
            r.anchors is None,
            r.max_conjuncts == 2,
            r.beam == 16,
            r.query.beam_k == 128,
    {
        AbduceConfig { anchors: None, max_conjuncts: 2, beam: 16, query: QueryConfig::default() }
    }
}

impl AbduceConfig {
    /// The anchors the atom sweep visits over `n` entities: the configured
    /// list as given, or every entity `0..n` when none is configured.
    pub fn anchor_pool(&self, n: usize) -> (r: Vec<usize>)
        ensures
            self.anchors matches Some(a) ==> r@ == a@,
            self.anchors is None ==> r@ == Seq::new(n as nat, |i: int| i as usize),
    {
        let mut r: Vec<usize> = Vec::new();
        match &self.anchors {
            Some(a) => {
                let mut i: usize = 0;
                while i < a.len()
                    invariant
                        i <= a.len(),
                        r@ == a@.subrange(0, i as int),
                    decreases a.len() - i,
                {
                    r.push(a[i]);
                    i = i + 1;
                }
                assert(a@.subrange(0, a.len() as int) =~= a@);
            },
            None => {
                let mut i: usize = 0;
                while i < n
                    invariant
                        i <= n,
                        r@ == Seq::new(i as nat, |k: int| k as usize),
                    decreases n - i,
                {
                    r.push(i);
                    i = i + 1;
                    assert(r@ =~= Seq::new(i as nat, |k: int| k as usize));
                }
            },
        }
        r
    }

}

} // verus!
