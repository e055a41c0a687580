use coyote::challenge::{
    advance, Challenge, ChallengeError, ChallengeStatus, Challenger, ValidationKind,
};
use coyote::store::ChallengeStore;

fn challenger_with(id: u64, domain: &str, now: u64) -> Challenger {
    let mut c = Challenger::new(60, 3);
    assert_eq!(
        c.create(id, 7, domain.to_string(), ValidationKind::Http, "tok".to_string(), now),
        Ok(())
    );
    c
}

#[test]
fn create_makes_pending_challenge() {
    let c = challenger_with(1, "example.com", 100);
    assert_eq!(c.status(1), Ok(ChallengeStatus::Pending));
    let ch = &c.challenges()[0];
    assert_eq!(ch.expires_at, 160);
    assert_eq!(ch.attempts, 0);
    assert_eq!(ch.domain, "example.com");
    assert_eq!(ch.token, "tok");
    assert_eq!(ch.order_ref, 7);
    assert_eq!(ch.kind, ValidationKind::Http);
    assert_eq!(c.ttl(), 60);
    assert_eq!(c.max_attempts(), 3);
}

#[test]
fn duplicate_challenge_id_refused() {
    let mut c = challenger_with(1, "example.com", 100);
    assert_eq!(
        c.create(1, 8, "other.org".to_string(), ValidationKind::Dns, "t2".to_string(), 100),
        Err(ChallengeError::DuplicateId)
    );
    assert_eq!(c.challenges().len(), 1);
}

#[test]
fn unknown_challenge_not_found() {
    let c = challenger_with(1, "example.com", 100);
    assert_eq!(c.status(2), Err(ChallengeError::NotFound));
}

#[test]
fn failing_attempts_end_invalid() {
    let mut c = challenger_with(1, "example.com", 100);
    c.tick(101, &|_c: &Challenge| false);
    assert_eq!(c.status(1), Ok(ChallengeStatus::Processing));
    c.tick(102, &|_c: &Challenge| false);
    assert_eq!(c.status(1), Ok(ChallengeStatus::Processing));
    c.tick(103, &|_c: &Challenge| false);
    assert_eq!(c.status(1), Ok(ChallengeStatus::Invalid));
    assert_eq!(c.challenges()[0].attempts, 3);
    c.tick(104, &|_c: &Challenge| true);
    assert_eq!(c.status(1), Ok(ChallengeStatus::Invalid));
}

#[test]
fn successful_attempt_makes_valid() {
    let mut c = challenger_with(1, "example.com", 100);
    c.tick(101, &|ch: &Challenge| ch.domain == "example.com");
    assert_eq!(c.status(1), Ok(ChallengeStatus::Valid));
    assert_eq!(c.challenges()[0].attempts, 1);
    c.tick(102, &|_c: &Challenge| false);
    assert_eq!(c.status(1), Ok(ChallengeStatus::Valid));
}

#[test]
fn challenge_expires_regardless_of_outcome() {
    let mut c = challenger_with(1, "example.com", 100);
    c.tick(161, &|_c: &Challenge| true);
    assert_eq!(c.status(1), Ok(ChallengeStatus::Expired));
    assert_eq!(c.challenges()[0].attempts, 0);
}

#[test]
fn attempt_not_called_for_terminal_or_expired() {
    let mut c = challenger_with(1, "example.com", 100);
    assert_eq!(
        c.create(2, 7, "b.org".to_string(), ValidationKind::Dns, "t".to_string(), 0),
        Ok(())
    );
    let calls = std::cell::Cell::new(0u32);
    c.tick(100, &|_c: &Challenge| {
        calls.set(calls.get() + 1);
        true
    });
    assert_eq!(calls.get(), 1);
    assert_eq!(c.status(1), Ok(ChallengeStatus::Valid));
    assert_eq!(c.status(2), Ok(ChallengeStatus::Expired));
}

#[test]
fn advance_counts_attempts() {
    let c = challenger_with(1, "example.com", 100);
    let ch = &c.challenges()[0];
    let next = advance(ch, 120, 3, false);
    assert_eq!(next.status, ChallengeStatus::Processing);
    assert_eq!(next.attempts, 1);
    let last = advance(&next, 121, 2, false);
    assert_eq!(last.status, ChallengeStatus::Invalid);
    assert_eq!(last.attempts, 2);
    assert_eq!(last.domain, "example.com");
    assert!(last.status.is_terminal());
    assert!(!next.status.is_terminal());
}

#[test]
fn reconcile_persists_and_loads_other_instances() {
    let mut store = ChallengeStore::new();
    let mut a = challenger_with(1, "a.example.com", 100);
    let mut b = challenger_with(2, "b.example.com", 100);
    a.reconcile(&mut store);
    b.reconcile(&mut store);
    assert_eq!(store.rows().len(), 2);
    assert_eq!(b.challenges().len(), 2);
    assert_eq!(b.status(1), Ok(ChallengeStatus::Pending));
    a.reconcile(&mut store);
    assert_eq!(a.status(2), Ok(ChallengeStatus::Pending));
}

#[test]
fn reconcile_twice_is_idempotent() {
    let mut store = ChallengeStore::new();
    let mut a = challenger_with(1, "example.com", 100);
    a.tick(101, &|_c: &Challenge| false);
    a.reconcile(&mut store);
    let first = store.snapshot();
    a.reconcile(&mut store);
    let second = store.snapshot();
    assert_eq!(first, second);
    assert_eq!(a.challenges(), &second);
}

#[test]
fn first_terminal_write_wins() {
    let mut store = ChallengeStore::new();
    let mut a = challenger_with(1, "example.com", 100);
    a.reconcile(&mut store);
    let mut b = Challenger::new(60, 3);
    b.reconcile(&mut store);
    assert_eq!(b.status(1), Ok(ChallengeStatus::Pending));

    a.tick(101, &|_c: &Challenge| true);
    b.tick(101, &|_c: &Challenge| false);
    b.tick(102, &|_c: &Challenge| false);
    b.tick(103, &|_c: &Challenge| false);
    assert_eq!(a.status(1), Ok(ChallengeStatus::Valid));
    assert_eq!(b.status(1), Ok(ChallengeStatus::Invalid));

    a.reconcile(&mut store);
    b.reconcile(&mut store);
    assert_eq!(store.rows()[0].status, ChallengeStatus::Valid);
    assert_eq!(b.status(1), Ok(ChallengeStatus::Valid));
}

#[test]
fn store_refuses_write_over_terminal_row() {
    let mut store = ChallengeStore::new();
    let mut a = challenger_with(1, "example.com", 100);
    a.tick(101, &|_c: &Challenge| true);
    let valid = a.challenges()[0].duplicate();
    assert_eq!(store.write(&valid), Ok(true));
    let mut invalid = valid.duplicate();
    invalid.status = ChallengeStatus::Invalid;
    assert_eq!(store.write(&invalid), Err(ChallengeError::AlreadyTerminal));
    assert_eq!(store.rows()[0].status, ChallengeStatus::Valid);
}

#[test]
fn store_ignores_backward_write() {
    let mut store = ChallengeStore::new();
    let mut a = challenger_with(1, "example.com", 100);
    let pending = a.challenges()[0].duplicate();
    a.tick(101, &|_c: &Challenge| false);
    let processing = a.challenges()[0].duplicate();
    assert_eq!(store.write(&processing), Ok(true));
    assert_eq!(store.write(&pending), Ok(false));
    assert_eq!(store.rows()[0].status, ChallengeStatus::Processing);
    assert_eq!(store.rows()[0].attempts, 1);
}

#[test]
fn status_paths() {
    assert!(ChallengeStatus::Pending.advances_to(ChallengeStatus::Processing));
    assert!(ChallengeStatus::Pending.advances_to(ChallengeStatus::Expired));
    assert!(ChallengeStatus::Processing.advances_to(ChallengeStatus::Valid));
    assert!(ChallengeStatus::Processing.advances_to(ChallengeStatus::Invalid));
    assert!(ChallengeStatus::Processing.advances_to(ChallengeStatus::Expired));
    assert!(!ChallengeStatus::Processing.advances_to(ChallengeStatus::Pending));
    assert!(!ChallengeStatus::Valid.advances_to(ChallengeStatus::Invalid));
    assert!(!ChallengeStatus::Invalid.advances_to(ChallengeStatus::Valid));
    assert!(!ChallengeStatus::Expired.advances_to(ChallengeStatus::Pending));
    assert!(ChallengeStatus::Valid.advances_to(ChallengeStatus::Valid));
}
