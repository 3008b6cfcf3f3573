use hash256_miner::kernel::ResultBuffer;
use hash256_miner::search::{watch_decision, BatchOutcome, SearchState, WatchAction, BATCH_SIZE};

#[test]
fn batch_without_result_advances() {
    let mut s = SearchState::new(1_000, BATCH_SIZE);
    let o = s.after_batch(&ResultBuffer::cleared());
    assert_eq!(o, BatchOutcome::Continue);
    assert_eq!(s.base_nonce, 1_000 + 16_777_216);
    assert_eq!(s.total_hashes, 16_777_216);
    let o = s.after_batch(&ResultBuffer::cleared());
    assert_eq!(o, BatchOutcome::Continue);
    assert_eq!(s.base_nonce, 1_000 + 2 * 16_777_216);
    assert_eq!(s.total_hashes, 2 * 16_777_216);
}

#[test]
fn batch_base_wraps() {
    let mut s = SearchState::new(u64::MAX - 10, BATCH_SIZE);
    s.after_batch(&ResultBuffer::cleared());
    assert_eq!(s.base_nonce, BATCH_SIZE - 11);
}

#[test]
fn batch_with_result_gives_nonce() {
    let mut s = SearchState::new(5, BATCH_SIZE);
    let mut r = ResultBuffer::cleared();
    r.found = 1;
    r.nonce_lo = 0x89ab_cdef;
    r.nonce_hi = 0x0123_4567;
    let before = s;
    assert_eq!(s.after_batch(&r), BatchOutcome::Found(0x0123_4567_89ab_cdef));
    assert_eq!(s, before);
}

#[test]
fn watcher_decisions() {
    let a = [1u8; 32];
    let mut b = [1u8; 32];
    b[31] = 2;
    assert_eq!(watch_decision(true, Some(&b), &a), WatchAction::Stop);
    assert_eq!(watch_decision(false, Some(&b), &a), WatchAction::ChallengeChanged);
    assert_eq!(watch_decision(false, Some(&a), &a), WatchAction::KeepWatching);
    assert_eq!(watch_decision(false, None, &a), WatchAction::KeepWatching);
}
