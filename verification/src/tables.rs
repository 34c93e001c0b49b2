//! The trusted boundary around `hashbrown::HashMap`. Each table type holds
//! one map of the outside crate in a field the verifier does not see; an
//! uninterpreted contents function names what the table holds, and every
//! wrapper states its effect on those contents.
//!
//! `hashbrown::HashMap` itself cannot be declared to the verifier: its
//! allocator type parameter is bound by a trait the crate does not export.

use vstd::prelude::*;
use crate::cif_pairs::CifPair;

verus! {

/// Feedback pairs keyed by their owning node, in a `hashbrown::HashMap`.
#[verifier::external_body]
pub struct PairTable {
    inner: hashbrown::HashMap<usize, Vec<CifPair>>,
}

/// The contents of a `PairTable`: the pair sequence each node holds.
pub uninterp spec fn pair_table(t: PairTable) -> Map<usize, Seq<CifPair>>;

/// Relies on `hashbrown::HashMap::new`: a fresh map holds no key.
#[verifier::external_body]
pub fn pair_table_new() -> (t: PairTable)
    ensures
        forall|n: usize| !(#[trigger] pair_table(t).contains_key(n)),
{
    PairTable { inner: hashbrown::HashMap::new() }
}

/// Relies on `hashbrown::HashMap::insert`: binds the key to the new value
/// and leaves every other key unchanged.
#[verifier::external_body]
pub fn pair_table_insert(t: &mut PairTable, node: usize, pairs: Vec<CifPair>)
    ensures
        pair_table(*final(t)) == pair_table(*old(t)).insert(node, pairs@),
{
    t.inner.insert(node, pairs);
}

/// Relies on `hashbrown::HashMap::get`: returns the value bound to the key,
/// or nothing when the key is absent.
#[verifier::external_body]
pub fn pair_table_get<'a>(t: &'a PairTable, node: usize) -> (r: Option<&'a Vec<CifPair>>)
    ensures
        match r {
            Some(v) => pair_table(*t).contains_key(node) && v@ == pair_table(*t)[node],
            None => !pair_table(*t).contains_key(node),
        },
{
    t.inner.get(&node)
}

/// The controller that owns each qubit index, in a `hashbrown::HashMap`.
#[verifier::external_body]
pub struct QubitOwnerTable {
    inner: hashbrown::HashMap<i32, i32>,
}

/// The contents of a `QubitOwnerTable`: which controller each qubit maps to.
pub uninterp spec fn qubit_owner_table(t: QubitOwnerTable) -> Map<i32, i32>;

/// Relies on `hashbrown::HashMap::new`: a fresh map holds no key.
#[verifier::external_body]
pub fn qubit_owner_new() -> (t: QubitOwnerTable)
    ensures
        forall|q: i32| !(#[trigger] qubit_owner_table(t).contains_key(q)),
{
    QubitOwnerTable { inner: hashbrown::HashMap::new() }
}

/// Relies on `hashbrown::HashMap::insert`: binds the key to the new value
/// and leaves every other key unchanged.
#[verifier::external_body]
pub fn qubit_owner_insert(t: &mut QubitOwnerTable, qubit: i32, ctrl: i32)
    ensures
        qubit_owner_table(*final(t)) == qubit_owner_table(*old(t)).insert(qubit, ctrl),
{
    t.inner.insert(qubit, ctrl);
}

/// Relies on `hashbrown::HashMap::get`: returns the value bound to the key,
/// or nothing when the key is absent.
#[verifier::external_body]
pub fn qubit_owner_get<'a>(t: &'a QubitOwnerTable, qubit: i32) -> (r: Option<&'a i32>)
    ensures
        match r {
            Some(c) => qubit_owner_table(*t).contains_key(qubit) && *c == qubit_owner_table(*t)[qubit],
            None => !qubit_owner_table(*t).contains_key(qubit),
        },
{
    t.inner.get(&qubit)
}

/// The qubit indices each controller connects to, in a `hashbrown::HashMap`.
#[verifier::external_body]
pub struct CtrlQubitsTable {
    inner: hashbrown::HashMap<i32, Vec<i32>>,
}

/// The contents of a `CtrlQubitsTable`: the qubit list each controller holds.
pub uninterp spec fn ctrl_qubits_table(t: CtrlQubitsTable) -> Map<i32, Seq<i32>>;

/// Relies on `hashbrown::HashMap::new`: a fresh map holds no key.
#[verifier::external_body]
pub fn ctrl_qubits_new() -> (t: CtrlQubitsTable)
    ensures
        forall|c: i32| !(#[trigger] ctrl_qubits_table(t).contains_key(c)),
{
    CtrlQubitsTable { inner: hashbrown::HashMap::new() }
}

/// Relies on `hashbrown::HashMap::insert`: binds the key to the new value
/// and leaves every other key unchanged.
#[verifier::external_body]
pub fn ctrl_qubits_insert(t: &mut CtrlQubitsTable, ctrl: i32, qubits: Vec<i32>)
    ensures
        ctrl_qubits_table(*final(t)) == ctrl_qubits_table(*old(t)).insert(ctrl, qubits@),
{
    t.inner.insert(ctrl, qubits);
}

/// Relies on `hashbrown::HashMap::get`: returns the value bound to the key,
/// or nothing when the key is absent.
#[verifier::external_body]
pub fn ctrl_qubits_get<'a>(t: &'a CtrlQubitsTable, ctrl: i32) -> (r: Option<&'a Vec<i32>>)
    ensures
        match r {
            Some(v) => ctrl_qubits_table(*t).contains_key(ctrl) && v@ == ctrl_qubits_table(*t)[ctrl],
            None => !ctrl_qubits_table(*t).contains_key(ctrl),
        },
{
    t.inner.get(&ctrl)
}

} // verus!
