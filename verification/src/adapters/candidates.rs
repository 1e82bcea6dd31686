//! Candidate-source adapters: turning an index's hit ids into entity ids.

use vstd::prelude::*;

verus! {

/// The entity a retrieval hit names, unless it is the anchor and anchors are
/// excluded from their own candidate sets.
pub open spec fn hit_entity(anchor: usize, exclude_anchor: bool) -> spec_fn(u32) -> Option<usize> {
    |id: u32| if exclude_anchor && id as usize == anchor { None } else { Some(id as usize) }
}

/// Entity ids for an index's hits, in hit order: index ids are entity ids,
/// and with `exclude_anchor` the anchor itself is dropped.
pub fn hit_candidates(hit_ids: &Vec<u32>, anchor: usize, exclude_anchor: bool) -> (r: Vec<usize>)
    ensures
        r@ == hit_ids@.filter_map(hit_entity(anchor, exclude_anchor)),
{
    let mut r: Vec<usize> = Vec::new();
    let mut i: usize = 0;
    while i < hit_ids.len()
        invariant
            i <= hit_ids.len(),
            r@ == hit_ids@.take(i as int).filter_map(hit_entity(anchor, exclude_anchor)),
        decreases hit_ids.len() - i,
    {
        let id = hit_ids[i] as usize;
        proof {
            assert(hit_ids@.take(i + 1).drop_last() =~= hit_ids@.take(i as int));
            assert(hit_ids@.take(i + 1).last() == hit_ids@[i as int]);
        }
        if !(exclude_anchor && id == anchor) {
            r.push(id);
        }
        assert(r@ =~= hit_ids@.take(i + 1).filter_map(hit_entity(anchor, exclude_anchor)));
        i = i + 1;
    }
    assert(hit_ids@.take(hit_ids.len() as int) =~= hit_ids@);
    r
}

proof fn lemma_filter_map_keeps<A, B>(s: Seq<A>, f: spec_fn(A) -> Option<B>, x: A, y: B)
    requires
        s.contains(x),
        f(x) == Some(y),
    ensures
        s.filter_map(f).contains(y),
    decreases s.len(),
{
    let rest = s.drop_last();
    let out = s.filter_map(f);
    if s.last() == x {
        assert(out == rest.filter_map(f) + seq![y]);
        assert(out[out.len() - 1] == y);
    } else {
        let k = choose|k: int| 0 <= k < s.len() && s[k] == x;
        assert(k < s.len() - 1);
        assert(rest[k] == x);
        lemma_filter_map_keeps(rest, f, x, y);
        let j = choose|j: int| 0 <= j < rest.filter_map(f).len() && rest.filter_map(f)[j] == y;
        match f(s.last()) {
            Some(z) => {
                assert(out == rest.filter_map(f) + seq![z]);
                assert(out[j] == y);
            },
            None => {},
        }
    }
}

/// Every hit is proposed as a candidate, except the anchor itself when
/// anchors are excluded.
pub proof fn law_every_other_hit_is_proposed(hit_ids: Seq<u32>, anchor: usize, exclude_anchor: bool, id: u32)
    requires
        hit_ids.contains(id),
        !(exclude_anchor && id as usize == anchor),
    ensures
        hit_ids.filter_map(hit_entity(anchor, exclude_anchor)).contains(id as usize),
{
    lemma_filter_map_keeps(hit_ids, hit_entity(anchor, exclude_anchor), id, id as usize);
}

/// With the anchor excluded, an anchor's candidate set never names the
/// anchor itself, and every candidate comes from a hit.
pub proof fn law_excluded_anchor_is_never_proposed(hit_ids: Seq<u32>, anchor: usize, e: usize)
    requires
        hit_ids.filter_map(hit_entity(anchor, true)).contains(e),
    ensures
        e != anchor,
        hit_ids.contains(e as u32),
    decreases hit_ids.len(),
{
    let rest = hit_ids.drop_last();
    if hit_ids.len() > 0 {
        let last = hit_ids.last();
        if rest.filter_map(hit_entity(anchor, true)).contains(e) {
            law_excluded_anchor_is_never_proposed(rest, anchor, e);
            let k = choose|k: int| 0 <= k < rest.len() && rest[k] == e as u32;
            assert(hit_ids[k] == e as u32);
        } else {
            let f = hit_entity(anchor, true);
            let out = hit_ids.filter_map(f);
            assert(out == (match f(last) {
                Some(s) => rest.filter_map(f) + seq![s],
                None => rest.filter_map(f),
            }));
            let k = choose|k: int| 0 <= k < out.len() && out[k] == e;
            assert(f(last) is Some);
            assert(k == out.len() - 1);
            assert(e == last as usize);
            assert(hit_ids[hit_ids.len() - 1] == e as u32);
        }
    }
}

} // verus!
