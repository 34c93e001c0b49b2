//! The feedback-pair index: classically-conditioned qubit pairs grouped by
//! the node that owns them, with node-scoped querying and relabeling.

use vstd::prelude::*;
use crate::DqcMapError;
use crate::tables::{PairTable, pair_table, pair_table_get, pair_table_insert, pair_table_new};

verus! {

/// Two physical qubit indices with a classical conditioning dependency
/// between their operations. Direction is not tracked.
#[derive(Clone, Copy, Debug, PartialEq, Eq, Structural)]
pub struct CifPair {
    pub a: i32,
    pub b: i32,
}

/// The index a qubit slot carries after transposing x and y.
pub open spec fn swap_qubit(q: i32, x: i32, y: i32) -> i32 {
    if q == x {
        y
    } else if q == y {
        x
    } else {
        q
    }
}

/// A feedback pair after transposing x and y in both members.
pub open spec fn swap_cif_pair(p: CifPair, x: i32, y: i32) -> CifPair {
    CifPair { a: swap_qubit(p.a, x, y), b: swap_qubit(p.b, x, y) }
}

/// Whether the pair references either of the two swapped qubit indices.
pub open spec fn touches(p: CifPair, x: i32, y: i32) -> bool {
    p.a == x || p.a == y || p.b == x || p.b == y
}

/// A pair sequence after transposing x and y in every pair.
pub open spec fn relabel_seq(s: Seq<CifPair>, x: i32, y: i32) -> Seq<CifPair> {
    s.map_values(|p: CifPair| swap_cif_pair(p, x, y))
}

/// The pairs of s that reference x or y, in storage order.
pub open spec fn touching_in(s: Seq<CifPair>, x: i32, y: i32) -> Seq<CifPair>
    decreases s.len(),
{
    if s.len() == 0 {
        Seq::empty()
    } else if touches(s.last(), x, y) {
        touching_in(s.drop_last(), x, y).push(s.last())
    } else {
        touching_in(s.drop_last(), x, y)
    }
}

/// The pairs under node n that reference x or y; empty when n stores none.
pub open spec fn node_touching(m: Map<usize, Seq<CifPair>>, n: usize, x: i32, y: i32) -> Seq<CifPair> {
    if m.contains_key(n) {
        touching_in(m[n], x, y)
    } else {
        Seq::empty()
    }
}

/// Every stored pair referencing x or y under the given nodes, in node order,
/// then storage order within a node.
pub open spec fn touching_seq(
    m: Map<usize, Seq<CifPair>>,
    active: Seq<usize>,
    x: i32,
    y: i32,
) -> Seq<CifPair>
    decreases active.len(),
{
    if active.len() == 0 {
        Seq::empty()
    } else {
        touching_seq(m, active.drop_last(), x, y) + node_touching(m, active.last(), x, y)
    }
}

/// How many pairs the given nodes store in all.
pub open spec fn pairs_in(m: Map<usize, Seq<CifPair>>, active: Seq<usize>) -> int
    decreases active.len(),
{
    if active.len() == 0 {
        0
    } else {
        pairs_in(m, active.drop_last()) + (if m.contains_key(active.last()) {
            m[active.last()].len() as int
        } else {
            0
        })
    }
}

/// The whole stored table after relabeling under a transposition of x and y,
/// restricted to the active nodes.
pub open spec fn relabel_map(
    m: Map<usize, Seq<CifPair>>,
    active: Seq<usize>,
    x: i32,
    y: i32,
) -> Map<usize, Seq<CifPair>> {
    Map::new(
        |n: usize| m.contains_key(n),
        |n: usize| if active.contains(n) {
            relabel_seq(m[n], x, y)
        } else {
            m[n]
        },
    )
}

/// At most as many pairs reference a swap as are stored under the nodes read.
pub proof fn lemma_touching_in_len(s: Seq<CifPair>, x: i32, y: i32)
    ensures
        touching_in(s, x, y).len() <= s.len(),
    decreases s.len(),
{
    if s.len() > 0 {
        lemma_touching_in_len(s.drop_last(), x, y);
    }
}

/// The pairs a swap touches under some nodes are no more than those nodes store.
pub proof fn lemma_touching_seq_len(m: Map<usize, Seq<CifPair>>, active: Seq<usize>, x: i32, y: i32)
    ensures
        0 <= touching_seq(m, active, x, y).len() <= pairs_in(m, active),
    decreases active.len(),
{
    if active.len() > 0 {
        lemma_touching_seq_len(m, active.drop_last(), x, y);
        if m.contains_key(active.last()) {
            lemma_touching_in_len(m[active.last()], x, y);
        }
    }
}

/// Relabeling a pair sequence twice under the same swap restores it exactly.
pub proof fn lemma_relabel_seq_involution(s: Seq<CifPair>, x: i32, y: i32)
    ensures
        relabel_seq(relabel_seq(s, x, y), x, y) == s,
{
    assert(relabel_seq(relabel_seq(s, x, y), x, y) =~= s);
}

/// Applying the same swap relabeling twice, over the same active nodes,
/// restores the stored table exactly: swap application is self-inverse.
pub proof fn lemma_relabel_map_involution(
    m: Map<usize, Seq<CifPair>>,
    active: Seq<usize>,
    x: i32,
    y: i32,
)
    ensures
        relabel_map(relabel_map(m, active, x, y), active, x, y) == m,
{
    assert forall|n: usize| #[trigger] m.contains_key(n)
        implies relabel_map(relabel_map(m, active, x, y), active, x, y)[n] == m[n] by {
        if active.contains(n) {
            lemma_relabel_seq_involution(m[n], x, y);
        }
    }
    assert(relabel_map(relabel_map(m, active, x, y), active, x, y) =~= m);
}

/// Relabeling never adds, drops, or merges pairs: every node keeps exactly
/// as many pairs as it stored.
pub proof fn lemma_relabel_map_conserves(
    m: Map<usize, Seq<CifPair>>,
    active: Seq<usize>,
    x: i32,
    y: i32,
)
    ensures
        relabel_map(m, active, x, y).dom() == m.dom(),
        forall|n: usize| #[trigger] m.contains_key(n)
            ==> relabel_map(m, active, x, y)[n].len() == m[n].len(),
{
    assert(relabel_map(m, active, x, y).dom() =~= m.dom());
}

/// All classically-conditioned (feedback) qubit pairs, grouped by the node
/// that owns them.
pub struct CifPairs {
    pairs: PairTable,
}

impl CifPairs {
    /// The pair sequence each node currently holds.
    pub closed spec fn contents(self) -> Map<usize, Seq<CifPair>> {
        pair_table(self.pairs)
    }

    /// Builds the index from one entry per node; the entries' node ids must
    /// be distinct, as they come from a mapping.
    pub fn new(entries: &Vec<(usize, Vec<CifPair>)>) -> (r: CifPairs)
        requires
            forall|i: int, j: int|
                0 <= i < j < entries@.len() ==> (#[trigger] entries@[i]).0 != (#[trigger] entries@[j]).0,
        ensures
            forall|k: int|
                0 <= k < entries@.len()
                    ==> r.contents().contains_key((#[trigger] entries@[k]).0)
                        && r.contents()[entries@[k].0] == entries@[k].1@,
            forall|n: usize|
                #[trigger] r.contents().contains_key(n)
                    ==> exists|k: int| 0 <= k < entries@.len() && (#[trigger] entries@[k]).0 == n,
    {
        let mut pairs = pair_table_new();
        let mut i: usize = 0;
        while i < entries.len()
            invariant
                0 <= i <= entries@.len(),
                forall|i1: int, j1: int|
                    0 <= i1 < j1 < entries@.len()
                        ==> (#[trigger] entries@[i1]).0 != (#[trigger] entries@[j1]).0,
                forall|k: int|
                    0 <= k < i
                        ==> pair_table(pairs).contains_key((#[trigger] entries@[k]).0)
                            && pair_table(pairs)[entries@[k].0] == entries@[k].1@,
                forall|n: usize|
                    #[trigger] pair_table(pairs).contains_key(n)
                        ==> exists|k: int| 0 <= k < i && (#[trigger] entries@[k]).0 == n,
            decreases entries@.len() - i,
        {
            let node: usize = entries[i].0;
            pair_table_insert(&mut pairs, node, crate::copy_vec(&entries[i].1));
            i = i + 1;
        }
        CifPairs { pairs }
    }

    /// The pairs stored under the given node, if it stores any. Read-only.
    pub fn get_node_pairs(&self, node: usize) -> (r: Option<&Vec<CifPair>>)
        ensures
            match r {
                Some(v) => self.contents().contains_key(node) && v@ == self.contents()[node],
                None => !self.contents().contains_key(node),
            },
    {
        pair_table_get(&self.pairs, node)
    }

    /// Every pair stored under an active node that references either member
    /// of the swap, in node order, then storage order. The active nodes form
    /// a set, so no node id repeats. Read-only; fails exactly when the swap
    /// does not name two qubit indices.
    pub fn get_swap_involved_pairs(&self, swap: &Vec<i32>, active_nodes: &Vec<usize>) -> (r: Result<
        Vec<CifPair>,
        DqcMapError,
    >)
        requires
            active_nodes@.no_duplicates(),
        ensures
            r matches Ok(v) ==> swap@.len() == 2
                && v@ == touching_seq(self.contents(), active_nodes@, swap@[0], swap@[1]),
            r is Err <==> swap@.len() != 2,
            r matches Err(e) ==> e == DqcMapError::MalformedSwap,
    {
        if swap.len() != 2 {
            return Err(DqcMapError::MalformedSwap);
        }
        let x: i32 = swap[0];
        let y: i32 = swap[1];
        let mut involved: Vec<CifPair> = Vec::new();
        let mut k: usize = 0;
        while k < active_nodes.len()
            invariant
                0 <= k <= active_nodes@.len(),
                swap@.len() == 2,
                x == swap@[0],
                y == swap@[1],
                involved@ == touching_seq(self.contents(), active_nodes@.take(k as int), x, y),
            decreases active_nodes@.len() - k,
        {
            let node: usize = active_nodes[k];
            match pair_table_get(&self.pairs, node) {
                Some(stored) => {
                    let mut j: usize = 0;
                    while j < stored.len()
                        invariant
                            0 <= j <= stored@.len(),
                            stored@ == self.contents()[node as usize],
                            self.contents().contains_key(node as usize),
                            involved@ == touching_seq(
                                self.contents(),
                                active_nodes@.take(k as int),
                                x,
                                y,
                            ) + touching_in(stored@.take(j as int), x, y),
                        decreases stored@.len() - j,
                    {
                        let p: CifPair = stored[j];
                        if p.a == x || p.a == y || p.b == x || p.b == y {
                            involved.push(p);
                        }
                        proof {
                            let pre = stored@.take(j as int);
                            let post = stored@.take(j + 1 as int);
                            assert(post.drop_last() =~= pre);
                            assert(post.last() == p);
                        }
                        j = j + 1;
                    }
                    proof {
                        assert(stored@.take(stored@.len() as int) =~= stored@);
                        lemma_touching_take_succ(self.contents(), active_nodes@, k as int, x, y);
                    }
                },
                None => {
                    proof {
                        lemma_touching_take_succ(self.contents(), active_nodes@, k as int, x, y);
                        assert(involved@ + Seq::<CifPair>::empty() =~= involved@);
                    }
                },
            }
            k = k + 1;
        }
        proof {
            assert(active_nodes@.take(active_nodes@.len() as int) =~= active_nodes@);
        }
        Ok(involved)
    }

    /// Rewrites, in place and only under the active nodes, every occurrence
    /// of either swap member with the other. Fails exactly when the swap does
    /// not name two qubit indices, leaving the index untouched. Only the
    /// cardinality is checked: a swap naming one qubit twice is legal and
    /// relabels nothing.
    pub fn apply_swap(&mut self, swap: &Vec<i32>, active_nodes: &Vec<usize>) -> (r: Result<
        (),
        DqcMapError,
    >)
        requires
            active_nodes@.no_duplicates(),
        ensures
            r is Ok <==> swap@.len() == 2,
            r matches Err(e) ==> e == DqcMapError::MalformedSwap && *final(self) == *old(self),
            r is Ok ==> final(self).contents() == relabel_map(
                old(self).contents(),
                active_nodes@,
                swap@[0],
                swap@[1],
            ),
            // conservation: relabeling never adds or removes pairs anywhere
            r is Ok ==> forall|n: usize| #[trigger] old(self).contents().contains_key(n)
                ==> final(self).contents().contains_key(n)
                    && final(self).contents()[n].len() == old(self).contents()[n].len(),
            r is Ok ==> forall|n: usize| #[trigger] final(self).contents().contains_key(n)
                ==> old(self).contents().contains_key(n),
            // locality: nodes outside the active set keep their pairs verbatim
            r is Ok ==> forall|n: usize|
                #[trigger] old(self).contents().contains_key(n) && !active_nodes@.contains(n)
                    ==> final(self).contents()[n] == old(self).contents()[n],
    {
        if swap.len() != 2 {
            return Err(DqcMapError::MalformedSwap);
        }
        let x: i32 = swap[0];
        let y: i32 = swap[1];
        let ghost orig: Map<usize, Seq<CifPair>> = self.contents();
        let mut k: usize = 0;
        while k < active_nodes.len()
            invariant
                0 <= k <= active_nodes@.len(),
                active_nodes@.no_duplicates(),
                swap@.len() == 2,
                x == swap@[0],
                y == swap@[1],
                forall|n: usize|
                    #[trigger] self.contents().contains_key(n) <==> orig.contains_key(n),
                forall|n: usize|
                    orig.contains_key(n) && active_nodes@.take(k as int).contains(n)
                        ==> #[trigger] self.contents()[n] == relabel_seq(orig[n], x, y),
                forall|n: usize|
                    orig.contains_key(n) && !active_nodes@.take(k as int).contains(n)
                        ==> #[trigger] self.contents()[n] == orig[n],
            decreases active_nodes@.len() - k,
        {
            let node: usize = active_nodes[k];
            proof {
                // this node has not been relabeled yet: it is not in the
                // processed prefix, since the active nodes are distinct
                assert(!active_nodes@.take(k as int).contains(node)) by {
                    if active_nodes@.take(k as int).contains(node) {
                        let jj = choose|jj: int|
                            0 <= jj < k && active_nodes@.take(k as int)[jj] == node;
                        assert(active_nodes@[jj] == active_nodes@[k as int]);
                    }
                }
            }
            let relabeled: Option<Vec<CifPair>> = match pair_table_get(&self.pairs, node) {
                Some(stored) => Some(crate::state::swap_involved_pairs(stored, swap)),
                None => None,
            };
            let ghost prev: Map<usize, Seq<CifPair>> = self.contents();
            match relabeled {
                Some(nv) => {
                    pair_table_insert(&mut self.pairs, node, nv);
                    proof {
                        assert(prev.contains_key(node));
                        assert(orig.contains_key(node));
                        assert(prev[node] == orig[node]);
                        assert(self.contents() == prev.insert(node, nv@));
                        assert(self.contents()[node] == relabel_seq(orig[node], x, y));
                        assert(forall|n: usize|
                            n != node ==> (#[trigger] self.contents().contains_key(n)
                                <==> prev.contains_key(n)));
                        assert(forall|n: usize|
                            n != node && prev.contains_key(n)
                                ==> #[trigger] self.contents()[n] == prev[n]);
                    }
                },
                None => {},
            }
            proof {
                assert(active_nodes@.take(k + 1 as int) =~= active_nodes@.take(k as int).push(
                    active_nodes@[k as int],
                ));
                assert forall|n: usize|
                    orig.contains_key(n) && !active_nodes@.take(k + 1 as int).contains(n)
                        implies #[trigger] self.contents()[n] == orig[n] by {
                    assert(!active_nodes@.take(k as int).contains(n)) by {
                        if active_nodes@.take(k as int).contains(n) {
                            let jj = choose|jj: int|
                                0 <= jj < k && active_nodes@.take(k as int)[jj] == n;
                            assert(active_nodes@.take(k + 1 as int)[jj] == n);
                        }
                    }
                    assert(n != node) by {
                        assert(active_nodes@.take(k + 1 as int)[k as int] == node);
                    }
                }
            }
            k = k + 1;
        }
        proof {
            assert(active_nodes@.take(active_nodes@.len() as int) =~= active_nodes@);
            assert(self.contents() =~= relabel_map(orig, active_nodes@, x, y));
        }
        Ok(())
    }
}

/// Reading one more active node appends exactly that node's touching pairs.
proof fn lemma_touching_take_succ(
    m: Map<usize, Seq<CifPair>>,
    active: Seq<usize>,
    k: int,
    x: i32,
    y: i32,
)
    requires
        0 <= k < active.len(),
    ensures
        touching_seq(m, active.take(k + 1), x, y) == touching_seq(m, active.take(k), x, y)
            + node_touching(m, active[k], x, y),
{
    assert(active.take(k + 1).drop_last() =~= active.take(k));
    assert(active.take(k + 1).last() == active[k]);
}

} // verus!
