use vstd::prelude::*;

verus! {

/// The most bytes the process may hold allocated at once: 1780 MiB.
pub const TOTAL_MEM_LIMIT_BYTES: usize = (1024 + 756) * 1024 * 1024;

/// Whether an allocation of `len` bytes may proceed when `allocated` bytes
/// are already held: it may not exceed the limit on its own, nor push the
/// total over it.
pub fn allocation_fits(allocated: usize, len: usize) -> (r: bool)
    ensures
        r == (len <= TOTAL_MEM_LIMIT_BYTES && allocated + len <= TOTAL_MEM_LIMIT_BYTES),
{
    if len > TOTAL_MEM_LIMIT_BYTES {
        return false;
    }
    allocated <= TOTAL_MEM_LIMIT_BYTES - len
}

} // verus!
