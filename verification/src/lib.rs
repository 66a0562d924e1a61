//! Verified decision logic of the incremental search for erasure-coding schedules
//! (source packets `k`, parity packets `p`, and a parity schedule over ARQ cycles)
//! under a residual-erasure target and a delay budget.
//!
//! Real-valued quantities (erasure rates, redundancy information) are computed by
//! the caller and handed to the search as order keys (see [`keys`]); every decision
//! the search takes on them is verified here.

pub mod keys;
pub mod timing;
pub mod outcome;
pub mod p_fail;
pub mod fec;
pub mod arq;
pub mod search;
pub mod determinism;
