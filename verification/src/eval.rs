//! Query-answering evaluation: the easy/hard answer split.

use std::collections::BTreeSet;
use vstd::prelude::*;

verus! {

broadcast use vstd::laws_cmp::group_laws_cmp, vstd::std_specs::btree::group_btree_axioms;

/// The easy/hard answer split for one query.
#[derive(Debug, Clone, Default, PartialEq, Eq)]
pub struct QueryAnswers {
    /// Answers derivable from the train graph by traversal.
    pub easy: BTreeSet<usize>,
    /// Answers that hold in the full graph but not by train-graph traversal.
    pub hard: BTreeSet<usize>,
}

/// Split crisp answers into easy and hard: `easy_hits` are the entities the
/// train graph derives, `full_hits` those the full graph derives. Easy
/// answers are the train hits; hard answers are full hits that are not easy.
pub fn split_crisp_answers(easy_hits: &Vec<usize>, full_hits: &Vec<usize>) -> (r: QueryAnswers)
    ensures
        r.easy@ == easy_hits@.to_set(),
        r.hard@ == full_hits@.to_set().difference(easy_hits@.to_set()),
{
    let mut easy: BTreeSet<usize> = BTreeSet::new();
    let mut i: usize = 0;
    while i < easy_hits.len()
        invariant
            i <= easy_hits.len(),
            easy@ == easy_hits@.subrange(0, i as int).to_set(),
        decreases easy_hits.len() - i,
    {
        easy.insert(easy_hits[i]);
        proof {
            assert(easy_hits@.subrange(0, i + 1) =~= easy_hits@.subrange(0, i as int).push(easy_hits@[i as int]));
            easy_hits@.subrange(0, i as int).lemma_push_to_set_commute(easy_hits@[i as int]);
        }
        i = i + 1;
    }
    assert(easy_hits@.subrange(0, easy_hits.len() as int) =~= easy_hits@);
    let mut hard: BTreeSet<usize> = BTreeSet::new();
    let mut j: usize = 0;
    while j < full_hits.len()
        invariant
            j <= full_hits.len(),
            easy@ == easy_hits@.to_set(),
            hard@ == full_hits@.subrange(0, j as int).to_set().difference(easy_hits@.to_set()),
        decreases full_hits.len() - j,
    {
        let e = full_hits[j];
        proof {
            assert(full_hits@.subrange(0, j + 1) =~= full_hits@.subrange(0, j as int).push(e));
            full_hits@.subrange(0, j as int).lemma_push_to_set_commute(e);
        }
        if !easy.contains(&e) {
            hard.insert(e);
        }
        assert(hard@ =~= full_hits@.subrange(0, j + 1).to_set().difference(easy_hits@.to_set()));
        j = j + 1;
    }
    assert(full_hits@.subrange(0, full_hits.len() as int) =~= full_hits@);
    QueryAnswers { easy, hard }
}


/// The split is a partition of the derived answers: no answer is both easy
/// and hard, and together they are exactly what either graph derives.
pub proof fn law_split_partitions_answers(easy_hits: Seq<usize>, full_hits: Seq<usize>)
    ensures
        easy_hits.to_set().intersect(full_hits.to_set().difference(easy_hits.to_set())) == Set::<usize>::empty(),
        easy_hits.to_set().union(full_hits.to_set().difference(easy_hits.to_set()))
            == easy_hits.to_set().union(full_hits.to_set()),
{
    assert(easy_hits.to_set().intersect(full_hits.to_set().difference(easy_hits.to_set())) =~= Set::<usize>::empty());
    assert(easy_hits.to_set().union(full_hits.to_set().difference(easy_hits.to_set()))
        =~= easy_hits.to_set().union(full_hits.to_set()));
}

} // verus!
