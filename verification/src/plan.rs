//! The transfer plan: the strategy and tuning parameters for one upload,
//! derived once from the payload size and fixed thresholds.

use vstd::prelude::*;

verus! {

/// Payloads at most this many bytes are sent with one direct upload
/// request; anything larger goes through a multipart transfer.
pub const SINGLE_SHOT_THRESHOLD: usize = 100 * 1024 * 1024;

/// Default size of one multipart chunk.
pub const DEFAULT_CHUNK_SIZE: usize = 16 * 1024 * 1024;

/// Default number of concurrent upload workers.
pub const DEFAULT_WORKER_COUNT: usize = 8;

/// Default capacity of the bounded work queue feeding the workers.
pub const DEFAULT_QUEUE_CAPACITY: usize = 8;

/// The transfer strategy chosen for a payload.
#[derive(Clone, Copy, Debug, PartialEq, Eq, Structural)]
pub enum Strategy {
    Single,
    Multipart,
}

/// The immutable plan for one transfer.
pub struct TransferPlan {
    pub payload_size: usize,
    pub chunk_size: usize,
    pub worker_count: usize,
    pub strategy: Strategy,
}

/// Derives the plan from the payload size: multipart exactly when the
/// payload is strictly larger than the single-shot threshold.
pub fn plan_transfer(payload_size: usize, chunk_size: usize, worker_count: usize) -> (p:
    TransferPlan)
    requires
        chunk_size >= 1,
        worker_count >= 1,
        payload_size <= chunk_size * 0xFFFF,
    ensures
        p.payload_size == payload_size,
        p.chunk_size == chunk_size,
        p.worker_count == worker_count,
        p.strategy == Strategy::Multipart <==> payload_size > SINGLE_SHOT_THRESHOLD,
{
    let strategy = if payload_size > SINGLE_SHOT_THRESHOLD {
        Strategy::Multipart
    } else {
        Strategy::Single
    };
    TransferPlan { payload_size, chunk_size, worker_count, strategy }
}

} // verus!
