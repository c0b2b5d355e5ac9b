use vstd::prelude::*;

verus! {

/// The document id that marks the end of a document set.
pub open spec fn spec_terminated() -> u32 {
    0x7fff_ffffu32
}

/// Reads `tantivy::TERMINATED`, the sentinel that a `DocSet` returns once
/// it is exhausted. tantivy defines it as `i32::MAX as u32`.
#[verifier::external_body]
pub(crate) fn terminated() -> (r: u32)
    ensures
        r == spec_terminated(),
{
    tantivy::TERMINATED
}

} // verus!
