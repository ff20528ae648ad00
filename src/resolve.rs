//! The resolved address set of the target host.

use crate::addr::SocketAddress;
use crate::errors::AppError;
use vstd::prelude::*;

verus! {

/// Accepts the addresses the target host resolved to, in order; a host that
/// resolved to none gives `NoDns`, and no knock may run.
pub fn check_resolved(addrs: Vec<SocketAddress>) -> (r: Result<Vec<SocketAddress>, AppError>)
    ensures
        addrs@.len() == 0 <==> r is Err,
        addrs@.len() == 0 ==> r matches Err(AppError::NoDns),
        r matches Ok(v) ==> v@ == addrs@,
{
    if addrs.len() == 0 {
        Err(AppError::NoDns)
    } else {
        Ok(addrs)
    }
}

} // verus!
