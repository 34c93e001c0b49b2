//! The swap-cost oracle: combines the controller/qubit index and the
//! feedback-pair index into exact incremental scoring of candidate swaps.

use vstd::prelude::*;
use crate::DqcMapError;
use crate::cif_pairs::{
    CifPair, CifPairs, lemma_touching_seq_len, pairs_in, relabel_map, relabel_seq, swap_cif_pair,
    touching_seq,
};
use crate::ctrl_to_pq::Ctrl2Pq;

verus! {

/// Whether a pair's two members resolve to exactly the controllers c0 and c1,
/// in either order; pairs with an unmapped member never count.
pub open spec fn crossing(owner: Map<i32, i32>, p: CifPair, c0: i32, c1: i32) -> bool {
    &&& owner.contains_key(p.a)
    &&& owner.contains_key(p.b)
    &&& ((owner[p.a] == c0 && owner[p.b] == c1) || (owner[p.a] == c1 && owner[p.b] == c0))
}

/// How many pairs of s cross exactly between controllers c0 and c1.
pub open spec fn count_crossing(owner: Map<i32, i32>, s: Seq<CifPair>, c0: i32, c1: i32) -> int
    decreases s.len(),
{
    if s.len() == 0 {
        0
    } else {
        count_crossing(owner, s.drop_last(), c0, c1) + (if crossing(owner, s.last(), c0, c1) {
            1int
        } else {
            0int
        })
    }
}

/// A fresh copy of the given pairs with the swap's two indices transposed in
/// every pair; the input is left untouched.
pub fn swap_involved_pairs(involved_pairs: &Vec<CifPair>, swap: &Vec<i32>) -> (r: Vec<CifPair>)
    requires
        swap@.len() == 2,
    ensures
        r@ == relabel_seq(involved_pairs@, swap@[0], swap@[1]),
{
    let x: i32 = swap[0];
    let y: i32 = swap[1];
    let mut swapped_pairs: Vec<CifPair> = Vec::new();
    let mut i: usize = 0;
    while i < involved_pairs.len()
        invariant
            0 <= i <= involved_pairs@.len(),
            x == swap@[0],
            y == swap@[1],
            swapped_pairs@ == relabel_seq(involved_pairs@.take(i as int), x, y),
        decreases involved_pairs@.len() - i,
    {
        let p: CifPair = involved_pairs[i];
        let na: i32 = if p.a == x { y } else if p.a == y { x } else { p.a };
        let nb: i32 = if p.b == x { y } else if p.b == y { x } else { p.b };
        swapped_pairs.push(CifPair { a: na, b: nb });
        proof {
            assert(swapped_pairs@ =~= relabel_seq(involved_pairs@.take(i + 1 as int), x, y));
        }
        i = i + 1;
    }
    proof {
        assert(involved_pairs@.take(involved_pairs@.len() as int) =~= involved_pairs@);
    }
    swapped_pairs
}

/// How many of the given pairs cross exactly between ctrl0 and ctrl1; pairs
/// with a member unmapped to any controller are skipped, not counted.
fn count_ctrl_pairs(involved_pairs: &Vec<CifPair>, ctrl2pq: &Ctrl2Pq, ctrl0: i32, ctrl1: i32) -> (r:
    i32)
    requires
        involved_pairs@.len() <= i32::MAX as int,
    ensures
        r == count_crossing(ctrl2pq.owner_map(), involved_pairs@, ctrl0, ctrl1),
        0 <= r <= involved_pairs@.len(),
{
    let mut count: i32 = 0;
    let mut i: usize = 0;
    while i < involved_pairs.len()
        invariant
            0 <= i <= involved_pairs@.len(),
            involved_pairs@.len() <= i32::MAX as int,
            count == count_crossing(ctrl2pq.owner_map(), involved_pairs@.take(i as int), ctrl0, ctrl1),
            0 <= count <= i,
        decreases involved_pairs@.len() - i,
    {
        let p: CifPair = involved_pairs[i];
        let c_a: Option<&i32> = ctrl2pq.get_controller_by_qubit(p.a);
        let c_b: Option<&i32> = ctrl2pq.get_controller_by_qubit(p.b);
        match (c_a, c_b) {
            (Some(ca), Some(cb)) => {
                // only crossings between the two controllers involved by the
                // swap are counted: all other crossings are invariant under it
                if (*ca == ctrl0 && *cb == ctrl1) || (*ca == ctrl1 && *cb == ctrl0) {
                    count = count + 1;
                }
            },
            _ => {},
        }
        proof {
            let post = involved_pairs@.take(i + 1 as int);
            assert(post.drop_last() =~= involved_pairs@.take(i as int));
            assert(post.last() == p);
        }
        i = i + 1;
    }
    proof {
        assert(involved_pairs@.take(involved_pairs@.len() as int) =~= involved_pairs@);
    }
    count
}

/// The swap-cost oracle. Either index may be absent: such an oracle is valid
/// but reports no score.
pub struct DqcMapState {
    pub ctrl2pq: Option<Ctrl2Pq>,
    pub cif_pairs: Option<CifPairs>,
}

/// What `score` returns for a well-formed swap: no opinion when an index or a
/// swapped qubit's controller is missing, zero when both members share one
/// controller, and otherwise the exact drop in cross-controller feedback
/// pairs between the two controllers the swap involves.
pub open spec fn score_spec(st: DqcMapState, swap: Seq<i32>, active: Seq<usize>) -> Option<int>
    recommends
        swap.len() == 2,
{
    match (st.ctrl2pq, st.cif_pairs) {
        (Some(c2p), Some(cp)) => {
            let owner = c2p.owner_map();
            if !owner.contains_key(swap[0]) || !owner.contains_key(swap[1]) {
                None
            } else if owner[swap[0]] == owner[swap[1]] {
                Some(0)
            } else {
                let c0 = owner[swap[0]];
                let c1 = owner[swap[1]];
                let touched = touching_seq(cp.contents(), active, swap[0], swap[1]);
                let relabeled = relabel_seq(touched, swap[0], swap[1]);
                Some(
                    count_crossing(owner, touched, c0, c1) - count_crossing(
                        owner,
                        relabeled,
                        c0,
                        c1,
                    ),
                )
            }
        },
        _ => None,
    }
}

impl DqcMapState {
    /// An oracle over the given indexes; either may be absent.
    pub fn new(ctrl2pq: Option<Ctrl2Pq>, cif_pairs: Option<CifPairs>) -> (r: DqcMapState)
        ensures
            r.ctrl2pq == ctrl2pq,
            r.cif_pairs == cif_pairs,
    {
        DqcMapState { ctrl2pq, cif_pairs }
    }

    /// The exact change in cross-controller feedback-pair count this swap
    /// would cause under the active nodes: positive means the swap removes
    /// cross-controller feedback, negative that it introduces more. Absent
    /// whenever either index is missing, and when a swap member has no
    /// controller; exactly zero whenever both indexes are present and both
    /// members share one controller. Read-only. Fails exactly when the swap
    /// does not name two qubit indices. The pairs the active nodes store must
    /// fit the i32 counters the scoring uses.
    pub fn score(&self, swap: &Vec<i32>, active_nodes: &Vec<usize>) -> (r: Result<
        Option<i32>,
        DqcMapError,
    >)
        requires
            active_nodes@.no_duplicates(),
            self.cif_pairs matches Some(cp)
                ==> pairs_in(cp.contents(), active_nodes@) <= i32::MAX as int,
        ensures
            r is Err <==> swap@.len() != 2,
            r matches Err(e) ==> e == DqcMapError::MalformedSwap,
            r matches Ok(s) ==> match score_spec(*self, swap@, active_nodes@) {
                Some(v) => s matches Some(sv) && sv == v,
                None => s is None,
            },
            // an oracle missing either index has no opinion
            swap@.len() == 2 && (self.ctrl2pq is None || self.cif_pairs is None)
                ==> r == Ok::<Option<i32>, DqcMapError>(None),
            // a swap inside one controller never changes cross-controller cost
            swap@.len() == 2 && self.cif_pairs is Some && (self.ctrl2pq matches Some(c2p)
                && c2p.owner_map().contains_key(swap@[0])
                && c2p.owner_map().contains_key(swap@[1])
                && c2p.owner_map()[swap@[0]] == c2p.owner_map()[swap@[1]])
                ==> r == Ok::<Option<i32>, DqcMapError>(Some(0i32)),
            // a swap naming a qubit no controller owns has no defined score
            swap@.len() == 2 && self.cif_pairs is Some && (self.ctrl2pq matches Some(c2p)
                && !(c2p.owner_map().contains_key(swap@[0])
                    && c2p.owner_map().contains_key(swap@[1])))
                ==> r == Ok::<Option<i32>, DqcMapError>(None),
    {
        if swap.len() != 2 {
            return Err(DqcMapError::MalformedSwap);
        }
        // an oracle missing either index reports no score at all
        let ctrl2pq: &Ctrl2Pq = match &self.ctrl2pq {
            Some(c) => c,
            None => {
                return Ok(None);
            },
        };
        let cif_pairs: &CifPairs = match &self.cif_pairs {
            Some(cp) => cp,
            None => {
                return Ok(None);
            },
        };
        let ctrl0: i32 = match ctrl2pq.get_controller_by_qubit(swap[0]) {
            Some(c) => *c,
            None => {
                return Ok(None);
            },
        };
        let ctrl1: i32 = match ctrl2pq.get_controller_by_qubit(swap[1]) {
            Some(c) => *c,
            None => {
                return Ok(None);
            },
        };
        if ctrl0 != ctrl1 {
            // the swap moves state between two controllers: count the
            // feedback pairs crossing exactly those two, before and after
            let involved_pairs: Vec<CifPair> = match cif_pairs.get_swap_involved_pairs(
                swap,
                active_nodes,
            ) {
                Ok(v) => v,
                Err(e) => {
                    return Err(e);
                },
            };
            proof {
                lemma_touching_seq_len(
                    cif_pairs.contents(),
                    active_nodes@,
                    swap@[0],
                    swap@[1],
                );
            }
            let swapped_pairs: Vec<CifPair> = swap_involved_pairs(&involved_pairs, swap);
            let count_inv: i32 = count_ctrl_pairs(&involved_pairs, ctrl2pq, ctrl0, ctrl1);
            let count_swapped: i32 = count_ctrl_pairs(&swapped_pairs, ctrl2pq, ctrl0, ctrl1);
            Ok(Some(count_inv - count_swapped))
        } else {
            Ok(Some(0))
        }
    }

    /// Commits the swap: relabels the feedback-pair index in place under the
    /// active nodes, when that index is present. The controller index never
    /// changes. Fails exactly when the swap does not name two qubit indices,
    /// changing nothing.
    pub fn apply_swap(&mut self, swap: &Vec<i32>, active_nodes: &Vec<usize>) -> (r: Result<
        (),
        DqcMapError,
    >)
        requires
            active_nodes@.no_duplicates(),
        ensures
            r is Ok <==> swap@.len() == 2,
            r matches Err(e) ==> e == DqcMapError::MalformedSwap && *final(self) == *old(self),
            final(self).ctrl2pq == old(self).ctrl2pq,
            old(self).cif_pairs is None ==> final(self).cif_pairs is None,
            r is Ok ==> (old(self).cif_pairs matches Some(cp)
                ==> (final(self).cif_pairs matches Some(cp2) && cp2.contents() == relabel_map(
                    cp.contents(),
                    active_nodes@,
                    swap@[0],
                    swap@[1],
                ))),
    {
        if swap.len() != 2 {
            return Err(DqcMapError::MalformedSwap);
        }
        match &mut self.cif_pairs {
            Some(cif_pairs) => {
                let applied = cif_pairs.apply_swap(swap, active_nodes);
                proof {
                    assert(applied is Ok);
                }
            },
            None => {},
        }
        Ok(())
    }
}

} // verus!
