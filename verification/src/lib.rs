//! A concurrent HTTP load-generation core.
//!
//! Given a set of request templates, an execution configuration and a seed
//! map of variables, the library drives independent simulated clients
//! ("workers") that repeatedly render and issue the requests, honouring a
//! staggered start schedule, terminating by iteration count or wall-clock
//! deadline, and recording one outcome record per executed request.

use vstd::prelude::*;

pub mod cmd;
pub mod errors;
pub mod executor;
pub mod json;
pub mod stats;
pub mod template;
pub mod varmap;

verus! {

/// Status code recorded for a request that failed at the transport level.
pub const FAILURE_STATUS: u16 = 0;

} // verus!
