//! The worker pool's construction rule: a pool needs at least one worker.

use vstd::prelude::*;

verus! {

/// The error reported when a worker pool is asked for with an invalid
/// worker count.
#[derive(Debug)]
pub struct PoolCreationError;

/// Decide whether a pool may be built with `size` workers: any count of
/// at least one is accepted, zero is refused.
pub fn validate_pool_size(size: usize) -> (r: Result<(), PoolCreationError>)
    ensures
        r is Ok <==> size >= 1,
{
    if size >= 1 {
        Ok(())
    } else {
        Err(PoolCreationError)
    }
}

} // verus!
