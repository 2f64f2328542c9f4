//! A bounded multi-producer / multi-consumer ring of atomic words.

//!
//! Producers and consumers each keep a private context with a sticky slot
//! hint; every call probes at most two cells, a bounded number of times each,
//! so no call waits on another.

#![allow(deprecated)]

mod padded;
mod queue;
pub mod ring;
mod word;

pub use queue::{
    advisory_len, fill_probes, hint_after, hint_in_range, is_empty_of, is_full_of, len_of, next_hint, succeeded,
    take_probes, DequeueCtx, EnqueueCtx, Index, WfQueue, MAX_TRY,
};
pub use word::NonZeroWord;
