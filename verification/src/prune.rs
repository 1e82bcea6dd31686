//! Candidate-pruned evaluation: the retrieval-backend seam.

use vstd::prelude::*;

verus! {

/// Proposes candidate answers for atomic hops; the serving-index seam.
pub trait CandidateSource {
    /// Candidate answer entities for the atomic hop `(anchor, relation, ?)`,
    /// or `None` to score that hop densely. Order and duplicates are
    /// irrelevant; a missing true answer is a recall loss, so over-propose.
    fn candidates(&self, anchor: usize, relation: usize) -> Option<Vec<usize>>;
}

/// Every element is smaller than the next: sorted without duplicates.
pub open spec fn strictly_increasing(s: Seq<usize>) -> bool {
    forall|i: int, j: int| 0 <= i < j < s.len() ==> s[i] < s[j]
}

/// A hop's proposed candidates in canonical form: sorted ascending with
/// duplicates removed, holding exactly the proposed entities.
pub fn normalize_candidates(candidates: &Vec<usize>) -> (r: Vec<usize>)
    ensures
        strictly_increasing(r@),
        forall|e: usize| r@.contains(e) <==> candidates@.contains(e),
{
    let mut r: Vec<usize> = Vec::new();
    let mut i: usize = 0;
    while i < candidates.len()
        invariant
            i <= candidates.len(),
            strictly_increasing(r@),
            forall|e: usize| r@.contains(e) <==> exists|j: int| 0 <= j < i && candidates@[j] == e,
        decreases candidates.len() - i,
    {
        let x = candidates[i];
        let mut p: usize = 0;
        while p < r.len() && r[p] < x
            invariant
                p <= r.len(),
                forall|q: int| 0 <= q < p ==> r@[q] < x,
            decreases r.len() - p,
        {
            p = p + 1;
        }
        let ghost prev = r@;
        if p < r.len() && r[p] == x {
            assert(prev[p as int] == x);
            assert(prev.contains(x));
            assert forall|e: usize| r@.contains(e) <==> (prev.contains(e) || e == x) by {
                if e == x {
                    assert(r@[p as int] == x);
                }
            }
        } else {
            r.insert(p, x);
            proof {
                assert forall|a: int, b: int| 0 <= a < b < r.len() implies r@[a] < r@[b] by {
                    if b < p {
                    } else if b == p {
                    } else if a < p {
                        assert(r@[b] == prev[b - 1]);
                    } else if a == p {
                        assert(r@[b] == prev[b - 1]);
                        assert(prev[p as int] > x);
                        assert(prev[p as int] <= prev[b - 1]);
                    } else {
                        assert(r@[a] == prev[a - 1]);
                        assert(r@[b] == prev[b - 1]);
                    }
                }
                assert forall|e: usize| r@.contains(e) <==> (prev.contains(e) || e == x) by {
                    if r@.contains(e) {
                        let k = choose|k: int| 0 <= k < r.len() && r@[k] == e;
                        if k < p {
                            assert(prev[k] == e);
                        } else if k > p {
                            assert(prev[k - 1] == e);
                        }
                    }
                    if prev.contains(e) {
                        let k = choose|k: int| 0 <= k < prev.len() && prev[k] == e;
                        if k < p {
                            assert(r@[k] == e);
                        } else {
                            assert(r@[k + 1] == e);
                        }
                    }
                    if e == x {
                        assert(r@[p as int] == x);
                    }
                }
            }
        }
        proof {
            assert forall|e: usize|
                r@.contains(e) <==> exists|j: int| 0 <= j < i + 1 && candidates@[j] == e by {
                assert(prev.contains(e) <==> exists|j: int| 0 <= j < i && candidates@[j] == e);
                if e == x {
                    assert(candidates@[i as int] == e);
                }
                if exists|j: int| 0 <= j < i + 1 && candidates@[j] == e {
                    let j = choose|j: int| 0 <= j < i + 1 && candidates@[j] == e;
                    if j < i {
                        assert(exists|j: int| 0 <= j < i && candidates@[j] == e);
                    }
                }
            }
        }
        i = i + 1;
    }
    assert forall|e: usize| r@.contains(e) <==> candidates@.contains(e) by {
        if candidates@.contains(e) {
            let j = choose|j: int| 0 <= j < candidates.len() && candidates@[j] == e;
            assert(exists|j: int| 0 <= j < candidates.len() && candidates@[j] == e);
        }
    }
    r
}


proof fn lemma_increasing_seqs_with_same_members_are_equal(x: Seq<usize>, y: Seq<usize>)
    requires
        strictly_increasing(x),
        strictly_increasing(y),
        forall|e: usize| x.contains(e) <==> y.contains(e),
    ensures
        x == y,
    decreases x.len(),
{
    if x.len() == 0 {
        if y.len() > 0 {
            assert(y.contains(y[0]));
        }
        assert(x =~= y);
    } else if y.len() == 0 {
        assert(x.contains(x[0]));
    } else {
        assert(x.contains(x[0]));
        assert(y.contains(y[0]));
        let j = choose|j: int| 0 <= j < y.len() && y[j] == x[0];
        let i = choose|i: int| 0 <= i < x.len() && x[i] == y[0];
        if j > 0 {
            assert(y[0] < y[j]);
        }
        if i > 0 {
            assert(x[0] < x[i]);
        }
        assert(x[0] == y[0]);
        let x1 = x.drop_first();
        let y1 = y.drop_first();
        assert forall|e: usize| x1.contains(e) <==> y1.contains(e) by {
            if x1.contains(e) {
                let a = choose|a: int| 0 <= a < x1.len() && x1[a] == e;
                assert(x[a + 1] == e);
                assert(y.contains(e));
                let b = choose|b: int| 0 <= b < y.len() && y[b] == e;
                if b == 0 {
                    assert(x[0] < x[a + 1]);
                }
                assert(y1[b - 1] == e);
            }
            if y1.contains(e) {
                let b = choose|b: int| 0 <= b < y1.len() && y1[b] == e;
                assert(y[b + 1] == e);
                assert(x.contains(e));
                let a = choose|a: int| 0 <= a < x.len() && x[a] == e;
                if a == 0 {
                    assert(y[0] < y[b + 1]);
                }
                assert(x1[a - 1] == e);
            }
        }
        lemma_increasing_seqs_with_same_members_are_equal(x1, y1);
        assert(x.len() == y.len());
        assert forall|k: int| 0 <= k < x.len() implies x[k] == y[k] by {
            if k > 0 {
                assert(x[k] == x1[k - 1]);
                assert(y[k] == y1[k - 1]);
            }
        }
        assert(x =~= y);
    }
}

/// Order and duplicates in a proposal are irrelevant: two proposals with the
/// same entities normalize to the same candidate list.
pub proof fn law_normalization_ignores_order_and_duplicates(
    a: Seq<usize>,
    b: Seq<usize>,
    normalized_a: Seq<usize>,
    normalized_b: Seq<usize>,
)
    requires
        strictly_increasing(normalized_a),
        forall|e: usize| normalized_a.contains(e) <==> a.contains(e),
        strictly_increasing(normalized_b),
        forall|e: usize| normalized_b.contains(e) <==> b.contains(e),
        forall|e: usize| a.contains(e) <==> b.contains(e),
    ensures
        normalized_a == normalized_b,
{
    lemma_increasing_seqs_with_same_members_are_equal(normalized_a, normalized_b);
}

} // verus!
