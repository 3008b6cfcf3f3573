//! The host side of the search: where the next launch starts, what a launch's
//! result means, and when the watcher of the challenge gives up.
use vstd::prelude::*;
use crate::kernel::{join_nonce, work_item_nonce, ResultBuffer};

verus! {

/// Number of nonces tried by one launch of the kernel.
pub const BATCH_SIZE: u64 = 16_777_216;

/// The progress of the search on one challenge.
#[derive(Clone, Copy, Debug, PartialEq, Eq)]
pub struct SearchState {
    /// The nonce of work item 0 of the next launch.
    pub base_nonce: u64,
    /// The number of nonces tried so far.
    pub total_hashes: u64,
    /// The number of nonces tried by each launch.
    pub batch_size: u64,
}

/// What the host does after reading a launch's result.
#[derive(Clone, Copy, Debug, PartialEq, Eq)]
pub enum BatchOutcome {
    /// A solving nonce was found: submit it.
    Found(u64),
    /// Nothing was found: launch again from the next base nonce.
    Continue,
}

/// What the challenge watcher does after one of its checks.
#[derive(Clone, Copy, Debug, PartialEq, Eq)]
pub enum WatchAction {
    /// The search has ended: stop watching.
    Stop,
    /// The challenge on chain differs from the one being mined: tell the search.
    ChallengeChanged,
    /// Check again later.
    KeepWatching,
}

impl SearchState {
    /// The state at the start of a search: nothing tried yet.
    pub fn new(start_nonce: u64, batch_size: u64) -> (s: SearchState)
        ensures
            s.base_nonce == start_nonce,
            s.total_hashes == 0,
            s.batch_size == batch_size,
    {
        SearchState { base_nonce: start_nonce, total_hashes: 0, batch_size }
    }

    /// Reads the result of the launch made at `base_nonce`.  A buffer whose
    /// `found` flag is 1 gives its nonce and leaves the state as it was;
    /// otherwise the next launch starts `batch_size` nonces further on
    /// (wrapping at 2^64) and the count of tried nonces grows by `batch_size`.
    pub fn after_batch(&mut self, result: &ResultBuffer) -> (o: BatchOutcome)
        requires
            result.found != 1 ==> old(self).total_hashes + old(self).batch_size <= u64::MAX,
        ensures
            result.found == 1 ==> {
                &&& o == BatchOutcome::Found(
                    (result.nonce_hi as int * 0x1_0000_0000 + result.nonce_lo as int) as u64,
                )
                &&& *final(self) == *old(self)
            },
            result.found != 1 ==> {
                &&& o == BatchOutcome::Continue
                &&& final(self).base_nonce == work_item_nonce(
                    old(self).base_nonce,
                    old(self).batch_size,
                )
                &&& final(self).base_nonce as int == (old(self).base_nonce as int + old(
                    self,
                ).batch_size as int) % 0x1_0000_0000_0000_0000
                &&& final(self).total_hashes == old(self).total_hashes + old(self).batch_size
                &&& final(self).batch_size == old(self).batch_size
            },
    {
        if result.found == 1 {
            BatchOutcome::Found(join_nonce(result.nonce_lo, result.nonce_hi))
        } else {
            self.base_nonce = self.base_nonce.wrapping_add(self.batch_size);
            self.total_hashes = self.total_hashes + self.batch_size;
            BatchOutcome::Continue
        }
    }
}

/// One check of the challenge watcher: it stops once the search has ended,
/// reports a change when the challenge it fetched differs from the one being
/// mined, and otherwise (a failed fetch, or the same challenge) keeps watching.
pub fn watch_decision(search_ended: bool, fetched: Option<&[u8; 32]>, current: &[u8; 32]) -> (a:
    WatchAction)
    ensures
        search_ended ==> a == WatchAction::Stop,
        !search_ended ==> match fetched {
            Some(f) => if f@ != current@ {
                a == WatchAction::ChallengeChanged
            } else {
                a == WatchAction::KeepWatching
            },
            None => a == WatchAction::KeepWatching,
        },
{
    if search_ended {
        return WatchAction::Stop;
    }
    match fetched {
        Some(f) => {
            let mut same = true;
            for i in 0..32
                invariant
                    same == (forall|j: int| 0 <= j < i ==> f[j] == current[j]),
            {
                if f[i] != current[i] {
                    same = false;
                }
            }
            if same {
                assert(f@ =~= current@);
                WatchAction::KeepWatching
            } else {
                WatchAction::ChallengeChanged
            }
        },
        None => WatchAction::KeepWatching,
    }
}

/// Successive launches cover consecutive nonces: work item `g` of the launch
/// that starts `batch` nonces after `base` tries the same nonce as work item
/// `batch + g` of the launch at `base`, wrapping at 2^64 alike.
pub proof fn lemma_launches_are_contiguous(base: u64, batch: u64, g: u64)
    requires
        batch + g <= u64::MAX,
    ensures
        work_item_nonce(work_item_nonce(base, batch), g) == work_item_nonce(base, (batch + g) as u64),
{
}

} // verus!
