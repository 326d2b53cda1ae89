//! Index words that the debug probe reads and writes behind the program's back.
//!
//! The words live in `vcell::VolatileCell`, so every access is a volatile load or
//! store that the compiler can neither drop nor merge. The probe's own accesses
//! happen outside the program; in this library they are the `host_*` operations of
//! the channels.
use vcell::VolatileCell;
use vstd::prelude::*;

verus! {

#[verifier::external_type_specification]
#[verifier::external_body]
#[verifier::reject_recursive_types(T)]
pub struct ExVolatileCell<T>(VolatileCell<T>);

/// The word that the program last stored in the cell. The host may have stored
/// another since, so a load promises nothing of it.
pub uninterp spec fn cell_word(c: VolatileCell<usize>) -> usize;

/// Relies on `VolatileCell::new`: the new cell holds `v`.
#[verifier::external_body]
pub(crate) fn new_word(v: usize) -> (c: VolatileCell<usize>)
    ensures
        cell_word(c) == v,
{
    VolatileCell::new(v)
}

/// Relies on `VolatileCell::get`: a volatile load of whatever word memory holds
/// at that moment, which the host may have stored; nothing is promised of it.
#[verifier::external_body]
pub(crate) fn load_word(c: &VolatileCell<usize>) -> (r: usize) {
    c.get()
}

/// Relies on `VolatileCell::set`: a volatile store, after which the cell holds `v`.
#[verifier::external_body]
pub(crate) fn store_word(c: &mut VolatileCell<usize>, v: usize)
    ensures
        cell_word(*final(c)) == v,
{
    c.set(v)
}

/// Relies on `core::sync::atomic::compiler_fence`: the compiler moves no memory
/// access across it, so bytes copied into a ring are in memory before the index
/// store that hands them to the host. It changes no value.
#[verifier::external_body]
pub(crate) fn ordering_fence() {
    core::sync::atomic::compiler_fence(core::sync::atomic::Ordering::SeqCst)
}

} // verus!
