//! An in-memory knowledge graph store: weighted `(head, relation, tail)`
//! edges indexed by `(head, relation)`, each marked positive or not, so that
//! the tails of a hop are exactly its positively weighted edges.

use std::collections::BTreeMap;
use vstd::prelude::*;

verus! {

broadcast use vstd::laws_cmp::group_laws_cmp, vstd::std_specs::btree::group_btree_axioms;

/// The `(tail, weight, positive)` entries logged under `(anchor, relation)`,
/// in the order they were added.
pub open spec fn hop_edges<W>(log: Seq<(usize, usize, usize, W, bool)>, anchor: usize, relation: usize) -> Seq<(usize, W, bool)>
    decreases log.len(),
{
    if log.len() == 0 {
        Seq::empty()
    } else {
        let prev = hop_edges(log.drop_last(), anchor, relation);
        let e = log.last();
        if e.0 == anchor && e.1 == relation {
            prev.push((e.2, e.3, e.4))
        } else {
            prev
        }
    }
}

/// The tails of the positive entries of a hop, in order.
pub open spec fn positive_tails<W>(hop: Seq<(usize, W, bool)>) -> Seq<usize> {
    hop.filter(|e: (usize, W, bool)| e.2).map_values(|e: (usize, W, bool)| e.0)
}

/// The tails of the positive edges logged under `(anchor, relation)`, in the
/// order they were added.
pub open spec fn hop_tails<W>(log: Seq<(usize, usize, usize, W, bool)>, anchor: usize, relation: usize) -> Seq<usize> {
    positive_tails(hop_edges(log, anchor, relation))
}

proof fn lemma_positive_tails_push<W>(hop: Seq<(usize, W, bool)>, e: (usize, W, bool))
    ensures
        positive_tails(hop.push(e)) == (if e.2 {
            positive_tails(hop).push(e.0)
        } else {
            positive_tails(hop)
        }),
{
    let pred = |x: (usize, W, bool)| x.2;
    hop.lemma_filter_push(e, pred);
    if e.2 {
        assert(positive_tails(hop.push(e)) =~= positive_tails(hop).push(e.0));
    }
}

proof fn lemma_hop_edges_in_range<W>(log: Seq<(usize, usize, usize, W, bool)>, anchor: usize, relation: usize, n: usize)
    requires
        forall|i: int| #![trigger log[i]] 0 <= i < log.len() ==> log[i].2 < n,
    ensures
        forall|j: int| 0 <= j < hop_edges(log, anchor, relation).len() ==> #[trigger] hop_edges(log, anchor, relation)[j].0 < n,
    decreases log.len(),
{
    if log.len() > 0 {
        let prev = log.drop_last();
        assert forall|i: int| #![trigger prev[i]] 0 <= i < prev.len() implies prev[i].2 < n by {
            assert(prev[i] == log[i]);
        }
        lemma_hop_edges_in_range(prev, anchor, relation, n);
        let h = hop_edges(log, anchor, relation);
        let hp = hop_edges(prev, anchor, relation);
        let last = log[log.len() - 1];
        assert(last.2 < n);
        assert forall|j: int| 0 <= j < h.len() implies #[trigger] h[j].0 < n by {
            if last.0 == anchor && last.1 == relation {
                assert(h == hp.push((last.2, last.3, last.4)));
                if j < hp.len() {
                    assert(h[j] == hp[j]);
                }
            } else {
                assert(h == hp);
            }
        }
    }
}

/// Weighted edges over entities `0..n_entities`, looked up by `(head,
/// relation)`. Each edge carries a flag saying whether its weight is
/// positive; only positive edges count as tails. Parallel edges are kept;
/// edges naming an entity off the axis are ignored.
#[derive(Clone)]
pub struct EdgeIndex<W> {
    n_entities: usize,
    edges: BTreeMap<(usize, usize), Vec<(usize, W, bool)>>,
    n_edges: usize,
    log: Ghost<Seq<(usize, usize, usize, W, bool)>>,
}

impl<W> EdgeIndex<W> {
    /// Every stored edge `(head, relation, tail, weight, positive)`, in the
    /// order added.
    pub closed spec fn edges(&self) -> Seq<(usize, usize, usize, W, bool)> {
        self.log@
    }

    /// The entity axis size.
    pub closed spec fn entity_count(&self) -> nat {
        self.n_entities as nat
    }

    /// The index agrees with the edge log, and every edge is on the axis.
    pub closed spec fn wf(&self) -> bool {
        &&& self.n_edges == self.log@.len()
        &&& forall|a: usize, r: usize| #[trigger] hop_edges(self.log@, a, r) == (if self.edges@.contains_key((a, r)) {
            self.edges@[(a, r)]@
        } else {
            Seq::<(usize, W, bool)>::empty()
        })
        &&& forall|i: int| #![trigger self.log@[i]] 0 <= i < self.log@.len() ==> self.log@[i].0 < self.n_entities && self.log@[i].2 < self.n_entities
    }

    /// An empty graph over `n_entities` entities.
    pub fn new(n_entities: usize) -> (g: Self)
        ensures
            g.wf(),
            g.entity_count() == n_entities,
            g.edges() == Seq::<(usize, usize, usize, W, bool)>::empty(),
    {
        let g = EdgeIndex { n_entities, edges: BTreeMap::new(), n_edges: 0, log: Ghost(Seq::empty()) };
        assert forall|a: usize, r: usize| #[trigger] hop_edges(g.log@, a, r) == Seq::<(usize, W, bool)>::empty() by {}
        g
    }

    /// Add an edge `(head, relation, tail)` with `weight`, marked `positive`
    /// when the weight counts as nonzero; ignored when `head` or `tail` is not
    /// an entity.
    pub fn add_edge(&mut self, head: usize, relation: usize, tail: usize, weight: W, positive: bool)
        requires
            old(self).wf(),
            old(self).edges().len() < usize::MAX,
        ensures
            final(self).wf(),
            final(self).entity_count() == old(self).entity_count(),
            head < old(self).entity_count() && tail < old(self).entity_count() ==> final(self).edges() == old(self).edges().push((head, relation, tail, weight, positive)),
            !(head < old(self).entity_count() && tail < old(self).entity_count()) ==> final(self).edges() == old(self).edges(),
    {
        if head >= self.n_entities || tail >= self.n_entities {
            return;
        }
        let key = (head, relation);
        let ghost old_log = self.log@;
        let ghost old_map = self.edges@;
        let mut hop: Vec<(usize, W, bool)> = match self.edges.remove(&key) {
            Some(v) => v,
            None => Vec::new(),
        };
        assert(hop@ == hop_edges(old_log, head, relation));
        hop.push((tail, weight, positive));
        self.edges.insert(key, hop);
        self.n_edges = self.n_edges + 1;
        self.log = Ghost(old_log.push((head, relation, tail, weight, positive)));
        proof {
            let new_log = self.log@;
            assert(new_log.drop_last() =~= old_log);
            assert forall|a: usize, r: usize| #[trigger] hop_edges(new_log, a, r) == (if self.edges@.contains_key((a, r)) {
                self.edges@[(a, r)]@
            } else {
                Seq::<(usize, W, bool)>::empty()
            }) by {
                assert(hop_edges(old_log, a, r) == (if old_map.contains_key((a, r)) {
                    old_map[(a, r)]@
                } else {
                    Seq::<(usize, W, bool)>::empty()
                }));
            }
            assert forall|i: int| #![trigger new_log[i]] 0 <= i < new_log.len() implies new_log[i].0 < self.n_entities && new_log[i].2 < self.n_entities by {
                if i < old_log.len() {
                    assert(new_log[i] == old_log[i]);
                }
            }
        }
    }

    /// Number of entities.
    pub fn num_entities(&self) -> (r: usize)
        ensures
            r == self.entity_count(),
    {
        self.n_entities
    }

    /// Number of stored edges.
    pub fn num_edges(&self) -> (r: usize)
        requires
            self.wf(),
        ensures
            r == self.edges().len(),
    {
        self.n_edges
    }

    /// The `(tail, weight, positive)` edges of the hop `(anchor, relation, ?)`,
    /// in the order added, or `None` when the hop has no edge.
    pub fn hop(&self, anchor: usize, relation: usize) -> (r: Option<&Vec<(usize, W, bool)>>)
        requires
            self.wf(),
        ensures
            r matches Some(v) ==> v@ == hop_edges(self.edges(), anchor, relation) && v@.len() > 0,
            r is None ==> hop_edges(self.edges(), anchor, relation).len() == 0,
    {
        let r = self.edges.get(&(anchor, relation));
        proof {
            assert(hop_edges(self.log@, anchor, relation) == (if self.edges@.contains_key((anchor, relation)) {
                self.edges@[(anchor, relation)]@
            } else {
                Seq::<(usize, W, bool)>::empty()
            }));
        }
        match r {
            Some(v) => {
                if v.len() == 0 {
                    None
                } else {
                    Some(v)
                }
            },
            None => None,
        }
    }

    /// Tail entities with a positive edge `(anchor, relation, tail)`, in the
    /// order added (a tail appears once per positive parallel edge): the
    /// nonzero support of the hop. Every tail is an entity.
    pub fn tails(&self, anchor: usize, relation: usize) -> (r: Vec<usize>)
        requires
            self.wf(),
        ensures
            r@ == hop_tails(self.edges(), anchor, relation),
            forall|i: int| 0 <= i < r.len() ==> r@[i] < self.entity_count(),
    {
        let mut r: Vec<usize> = Vec::new();
        proof {
            lemma_hop_edges_in_range(self.log@, anchor, relation, self.n_entities);
        }
        match self.hop(anchor, relation) {
            Some(v) => {
                let mut i: usize = 0;
                while i < v.len()
                    invariant
                        i <= v.len(),
                        v@ == hop_edges(self.log@, anchor, relation),
                        r@ == positive_tails(v@.take(i as int)),
                        forall|j: int| 0 <= j < v.len() ==> #[trigger] v@[j].0 < self.n_entities,
                        forall|j: int| 0 <= j < r.len() ==> #[trigger] r@[j] < self.n_entities,
                    decreases v.len() - i,
                {
                    proof {
                        assert(v@.take(i + 1) =~= v@.take(i as int).push(v@[i as int]));
                        lemma_positive_tails_push(v@.take(i as int), v@[i as int]);
                    }
                    if v[i].2 {
                        r.push(v[i].0);
                    }
                    i = i + 1;
                }
                assert(v@.take(v.len() as int) =~= v@);
            },
            None => {
                assert(hop_edges(self.log@, anchor, relation) =~= Seq::<(usize, W, bool)>::empty());
                assert(hop_tails(self.log@, anchor, relation) =~= Seq::<usize>::empty());
            },
        }
        r
    }
}

/// What a write puts in, a read of the same hop gives back: adding an edge
/// appends its `(tail, weight, positive)` to its hop, after the earlier ones.
pub proof fn law_hop_reads_back_add<W>(
    log: Seq<(usize, usize, usize, W, bool)>,
    head: usize,
    relation: usize,
    tail: usize,
    weight: W,
    positive: bool,
)
    ensures
        hop_edges(log.push((head, relation, tail, weight, positive)), head, relation) == hop_edges(log, head, relation).push((tail, weight, positive)),
{
    assert(log.push((head, relation, tail, weight, positive)).drop_last() =~= log);
}

/// The tails of a hop are its nonzero support: adding a positive edge lists
/// its tail after the earlier ones, and adding an edge that is not positive
/// leaves the tails unchanged.
pub proof fn law_tails_are_positive_support<W>(
    log: Seq<(usize, usize, usize, W, bool)>,
    head: usize,
    relation: usize,
    tail: usize,
    weight: W,
    positive: bool,
)
    ensures
        positive ==> hop_tails(log.push((head, relation, tail, weight, positive)), head, relation) == hop_tails(log, head, relation).push(tail),
        !positive ==> hop_tails(log.push((head, relation, tail, weight, positive)), head, relation) == hop_tails(log, head, relation),
{
    law_hop_reads_back_add(log, head, relation, tail, weight, positive);
    lemma_positive_tails_push(hop_edges(log, head, relation), (tail, weight, positive));
}

/// Adding an edge leaves every other hop unchanged.
pub proof fn law_add_leaves_other_hops<W>(
    log: Seq<(usize, usize, usize, W, bool)>,
    head: usize,
    relation: usize,
    tail: usize,
    weight: W,
    positive: bool,
    anchor: usize,
    other: usize,
)
    requires
        anchor != head || other != relation,
    ensures
        hop_edges(log.push((head, relation, tail, weight, positive)), anchor, other) == hop_edges(log, anchor, other),
{
    assert(log.push((head, relation, tail, weight, positive)).drop_last() =~= log);
}

} // verus!
