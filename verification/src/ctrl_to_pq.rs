//! The controller/qubit ownership index: a bidirectional mapping between
//! controller identifiers and the physical qubit indices they connect to,
//! built once from raw wiring data and never mutated afterwards.

use vstd::prelude::*;
use crate::DqcMapError;
use crate::copy_vec;
use crate::tables::{
    CtrlQubitsTable, QubitOwnerTable, ctrl_qubits_get, ctrl_qubits_insert, ctrl_qubits_new,
    ctrl_qubits_table, qubit_owner_get, qubit_owner_insert, qubit_owner_new, qubit_owner_table,
};

verus! {

/// Whether the wiring entries list qubit q under controller c.
pub open spec fn lists_qubit(entries: Seq<(i32, Vec<i32>)>, c: i32, q: i32) -> bool {
    exists|i: int| 0 <= i < entries.len() && (#[trigger] entries[i]).0 == c && entries[i].1@.contains(q)
}

/// Whether no qubit is claimed by two different controllers.
pub open spec fn unambiguous(entries: Seq<(i32, Vec<i32>)>) -> bool {
    forall|c1: i32, c2: i32, q: i32|
        #![trigger lists_qubit(entries, c1, q), lists_qubit(entries, c2, q)]
        lists_qubit(entries, c1, q) && lists_qubit(entries, c2, q) ==> c1 == c2
}

/// The bidirectional controller/qubit index.
pub struct Ctrl2Pq {
    map: CtrlQubitsTable,
    reverse_map: QubitOwnerTable,
}

impl Ctrl2Pq {
    /// The forward mapping: the qubit indices each controller connects to.
    pub closed spec fn qubits_map(self) -> Map<i32, Seq<i32>> {
        ctrl_qubits_table(self.map)
    }

    /// The reverse mapping: the controller that owns each qubit index.
    pub closed spec fn owner_map(self) -> Map<i32, i32> {
        qubit_owner_table(self.reverse_map)
    }

    /// Builds both directions of the index from wiring entries, one entry per
    /// controller. Fails exactly when some qubit is claimed by two different
    /// controllers.
    pub fn new(entries: &Vec<(i32, Vec<i32>)>) -> (r: Result<Ctrl2Pq, DqcMapError>)
        requires
            forall|i: int, j: int|
                0 <= i < j < entries@.len() ==> (#[trigger] entries@[i]).0 != (#[trigger] entries@[j]).0,
        ensures
            r is Ok <==> unambiguous(entries@),
            r matches Err(e) ==> e == DqcMapError::AmbiguousQubit,
            r matches Ok(c2p) ==> {
                &&& forall|c: i32, q: i32|
                    #[trigger] lists_qubit(entries@, c, q)
                        ==> c2p.owner_map().contains_key(q) && c2p.owner_map()[q] == c
                &&& forall|q: i32|
                    #[trigger] c2p.owner_map().contains_key(q)
                        ==> lists_qubit(entries@, c2p.owner_map()[q], q)
                &&& forall|k: int|
                    0 <= k < entries@.len()
                        ==> c2p.qubits_map().contains_key((#[trigger] entries@[k]).0)
                            && c2p.qubits_map()[entries@[k].0] == entries@[k].1@
                &&& forall|c: i32|
                    #[trigger] c2p.qubits_map().contains_key(c)
                        ==> exists|k: int| 0 <= k < entries@.len() && (#[trigger] entries@[k]).0 == c
            },
    {
        let mut map = ctrl_qubits_new();
        let mut reverse_map = qubit_owner_new();
        let mut i: usize = 0;
        while i < entries.len()
            invariant
                0 <= i <= entries@.len(),
                forall|i1: int, j1: int|
                    0 <= i1 < j1 < entries@.len()
                        ==> (#[trigger] entries@[i1]).0 != (#[trigger] entries@[j1]).0,
                forall|c: i32, q: i32|
                    #[trigger] lists_qubit(entries@.take(i as int), c, q)
                        ==> qubit_owner_table(reverse_map).contains_key(q)
                            && qubit_owner_table(reverse_map)[q] == c,
                forall|q: i32|
                    #[trigger] qubit_owner_table(reverse_map).contains_key(q)
                        ==> lists_qubit(entries@.take(i as int), qubit_owner_table(reverse_map)[q], q),
                forall|k: int|
                    0 <= k < i
                        ==> ctrl_qubits_table(map).contains_key((#[trigger] entries@[k]).0)
                            && ctrl_qubits_table(map)[entries@[k].0] == entries@[k].1@,
                forall|c: i32|
                    #[trigger] ctrl_qubits_table(map).contains_key(c)
                        ==> exists|k: int| 0 <= k < i && (#[trigger] entries@[k]).0 == c,
            decreases entries@.len() - i,
        {
            let ctrl: i32 = entries[i].0;
            let qubits: &Vec<i32> = &entries[i].1;
            let mut j: usize = 0;
            while j < qubits.len()
                invariant
                    0 <= j <= qubits@.len(),
                    0 <= i < entries@.len(),
                    ctrl == entries@[i as int].0,
                    qubits@ == entries@[i as int].1@,
                    forall|c: i32, q: i32|
                        #[trigger] lists_qubit(entries@.take(i as int), c, q)
                            ==> qubit_owner_table(reverse_map).contains_key(q)
                                && qubit_owner_table(reverse_map)[q] == c,
                    forall|q: i32|
                        #[trigger] qubit_owner_table(reverse_map).contains_key(q)
                            ==> lists_qubit(entries@.take(i as int), qubit_owner_table(reverse_map)[q], q)
                                || (qubit_owner_table(reverse_map)[q] == ctrl
                                    && exists|jj: int| 0 <= jj < j && qubits@[jj] == q),
                    forall|jj: int|
                        0 <= jj < j
                            ==> qubit_owner_table(reverse_map).contains_key(#[trigger] qubits@[jj])
                                && qubit_owner_table(reverse_map)[qubits@[jj]] == ctrl,
                decreases qubits@.len() - j,
            {
                let q: i32 = qubits[j];
                match qubit_owner_get(&reverse_map, q) {
                    Some(c_old) => {
                        if *c_old != ctrl {
                            proof {
                                let c_prev = qubit_owner_table(reverse_map)[q];
                                // the previous claim cannot come from this entry's
                                // processed prefix, whose qubits all map to ctrl
                                assert(lists_qubit(entries@.take(i as int), c_prev, q));
                                let k = choose|k: int|
                                    0 <= k < entries@.take(i as int).len()
                                        && (#[trigger] entries@.take(i as int)[k]).0 == c_prev
                                        && entries@.take(i as int)[k].1@.contains(q);
                                assert(entries@[k] == entries@.take(i as int)[k]);
                                assert(lists_qubit(entries@, c_prev, q));
                                assert(lists_qubit(entries@, ctrl, q));
                                assert(!unambiguous(entries@));
                            }
                            return Err(DqcMapError::AmbiguousQubit);
                        }
                    },
                    None => {},
                }
                qubit_owner_insert(&mut reverse_map, q, ctrl);
                j = j + 1;
            }
            ctrl_qubits_insert(&mut map, ctrl, copy_vec(qubits));
            proof {
                lemma_lists_qubit_take_succ(entries@, i as int);
                assert forall|c: i32, q: i32| #[trigger] lists_qubit(entries@.take(i + 1), c, q)
                    implies qubit_owner_table(reverse_map).contains_key(q)
                        && qubit_owner_table(reverse_map)[q] == c by {
                    if !lists_qubit(entries@.take(i as int), c, q) {
                        let jj = choose|jj: int| 0 <= jj < qubits@.len() && qubits@[jj] == q;
                        assert(qubit_owner_table(reverse_map).contains_key(qubits@[jj]));
                    }
                }
            }
            i = i + 1;
        }
        proof {
            assert(entries@.take(entries@.len() as int) =~= entries@);
        }
        let c2p = Ctrl2Pq { map, reverse_map };
        proof {
            assert forall|c1: i32, c2: i32, q: i32|
                lists_qubit(entries@, c1, q) && lists_qubit(entries@, c2, q) implies c1 == c2 by {
                assert(c2p.owner_map()[q] == c1);
                assert(c2p.owner_map()[q] == c2);
            }
        }
        Ok(c2p)
    }

    /// The controller that owns the given qubit index, if any. Read-only.
    pub fn get_controller_by_qubit(&self, qubit_idx: i32) -> (r: Option<&i32>)
        ensures
            match r {
                Some(c) => self.owner_map().contains_key(qubit_idx) && *c == self.owner_map()[qubit_idx],
                None => !self.owner_map().contains_key(qubit_idx),
            },
    {
        qubit_owner_get(&self.reverse_map, qubit_idx)
    }

    /// The qubit indices the given controller connects to, if it is known.
    pub fn get_qubits_by_controller(&self, ctrl: i32) -> (r: Option<&Vec<i32>>)
        ensures
            match r {
                Some(v) => self.qubits_map().contains_key(ctrl) && v@ == self.qubits_map()[ctrl],
                None => !self.qubits_map().contains_key(ctrl),
            },
    {
        ctrl_qubits_get(&self.map, ctrl)
    }
}

/// Extending the processed wiring prefix by one entry lists exactly that
/// entry's qubits in addition.
proof fn lemma_lists_qubit_take_succ(entries: Seq<(i32, Vec<i32>)>, i: int)
    requires
        0 <= i < entries.len(),
    ensures
        forall|c: i32, q: i32|
            #[trigger] lists_qubit(entries.take(i + 1), c, q)
                <==> (lists_qubit(entries.take(i), c, q)
                    || (entries[i].0 == c && entries[i].1@.contains(q))),
{
    assert forall|c: i32, q: i32| #[trigger] lists_qubit(entries.take(i + 1), c, q)
        implies (lists_qubit(entries.take(i), c, q)
            || (entries[i].0 == c && entries[i].1@.contains(q))) by {
        let k = choose|k: int|
            0 <= k < entries.take(i + 1).len()
                && (#[trigger] entries.take(i + 1)[k]).0 == c
                && entries.take(i + 1)[k].1@.contains(q);
        if k < i {
            assert(entries.take(i)[k] == entries.take(i + 1)[k]);
            assert(lists_qubit(entries.take(i), c, q));
        } else {
            assert(entries.take(i + 1)[k] == entries[i]);
        }
    }
    assert forall|c: i32, q: i32|
        (lists_qubit(entries.take(i), c, q) || (entries[i].0 == c && entries[i].1@.contains(q)))
        implies #[trigger] lists_qubit(entries.take(i + 1), c, q) by {
        if lists_qubit(entries.take(i), c, q) {
            let k = choose|k: int|
                0 <= k < entries.take(i).len()
                    && (#[trigger] entries.take(i)[k]).0 == c
                    && entries.take(i)[k].1@.contains(q);
            assert(entries.take(i + 1)[k] == entries.take(i)[k]);
            assert(lists_qubit(entries.take(i + 1), c, q));
        } else {
            assert(entries.take(i + 1)[i] == entries[i]);
            assert(lists_qubit(entries.take(i + 1), c, q));
        }
    }
}

} // verus!
