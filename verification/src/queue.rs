//! The gateway's identify queue: which bucket a shard waits in, and which
//! kind of queue the shard concurrency asks for.

use vstd::prelude::*;
use crate::text::{parse_u64, parse_usize, parsed_unsigned};

verus! {

/// The bucket that a shard waits in: its identifier modulo the number of
/// buckets, as a `u32`.
pub open spec fn bucket_index(shard_id: u32, buckets: usize) -> int {
    (shard_id as int) % ((buckets as u32) as int)
}

/// The bucket that a shard waits in (`LargeBotQueue::enqueue`); the number
/// of buckets, taken as a `u32`, is not zero.
pub fn bucket_of(shard_id: u32, buckets: usize) -> (r: usize)
    requires
        buckets as u32 != 0,
    ensures
        r == bucket_index(shard_id, buckets),
        r < buckets,
{
    let count: u32 = buckets as u32;
    assert(count <= buckets) by (bit_vector)
        requires
            count == buckets as u32;
    (shard_id % count) as usize
}

/// The kind of identify queue.
pub enum QueueKind {
    /// One queue: shards identify one at a time.
    Local,
    /// One queue per bucket.
    LargeBot { buckets: usize },
}

/// The queue for a shard concurrency: a single local queue for a
/// concurrency of 1, else one bucket per unit of concurrency.
pub open spec fn queue_kind_for(concurrency: usize) -> QueueKind {
    if concurrency == 1 {
        QueueKind::Local
    } else {
        QueueKind::LargeBot { buckets: concurrency }
    }
}

/// The queue for a shard concurrency.
pub fn queue_kind(concurrency: usize) -> (r: QueueKind)
    ensures
        r == queue_kind_for(concurrency),
{
    if concurrency == 1 {
        QueueKind::Local
    } else {
        QueueKind::LargeBot { buckets: concurrency }
    }
}

/// The identify queue to build: its kind and the seconds waited between
/// two identifies.
pub struct QueuePlan {
    pub kind: QueueKind,
    pub wait_seconds: u64,
}

/// Which setting could not be read.
pub enum QueueSettingError {
    /// `SHARD_CONCURRENCY` is not an unsigned integer.
    Concurrency,
    /// `SHARD_CONCURRENCY_WAIT_SECONDS` is not an unsigned integer.
    WaitSeconds,
}

/// Obtain the queue to use for the startup of the bot from the texts of the
/// shard concurrency and of the seconds to wait: the concurrency is read
/// first, then the wait.
pub fn obtain(concurrency: &str, wait_seconds: &str) -> (r: Result<QueuePlan, QueueSettingError>)
    ensures
        match r {
            Ok(plan) => parsed_unsigned(concurrency@, usize::MAX as nat) matches Some(c)
                && plan.kind == queue_kind_for(c as usize)
                && parsed_unsigned(wait_seconds@, u64::MAX as nat) == Some(plan.wait_seconds as nat),
            Err(QueueSettingError::Concurrency) => parsed_unsigned(concurrency@, usize::MAX as nat) is None,
            Err(QueueSettingError::WaitSeconds) => parsed_unsigned(concurrency@, usize::MAX as nat) is Some
                && parsed_unsigned(wait_seconds@, u64::MAX as nat) is None,
        },
{
    let concurrency = match parse_usize(concurrency) {
        Some(c) => c,
        None => return Err(QueueSettingError::Concurrency),
    };
    let wait = match parse_u64(wait_seconds) {
        Some(w) => w,
        None => return Err(QueueSettingError::WaitSeconds),
    };
    Ok(QueuePlan { kind: queue_kind(concurrency), wait_seconds: wait })
}

} // verus!
