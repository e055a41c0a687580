use vstd::prelude::*;

use crate::store::{write_all, ChallengeStore};

verus! {

/// Where a challenge stands; valid, invalid and expired are terminal.
#[derive(Debug, Clone, Copy, PartialEq, Eq, Structural)]
pub enum ChallengeStatus {
    Pending,
    Processing,
    Valid,
    Invalid,
    Expired,
}

/// How control of the domain is proved.
#[derive(Debug, Clone, Copy, PartialEq, Eq, Structural)]
pub enum ValidationKind {
    Http,
    Dns,
}

/// Why a challenge operation was refused.
#[derive(Debug, Clone, Copy, PartialEq, Eq, Structural)]
pub enum ChallengeError {
    NotFound,
    AlreadyTerminal,
    DuplicateId,
}

/// One domain-validation attempt.
#[derive(Debug, PartialEq, Eq)]
pub struct Challenge {
    pub id: u64,
    pub order_ref: u64,
    pub domain: String,
    pub kind: ValidationKind,
    pub token: String,
    pub status: ChallengeStatus,
    pub expires_at: u64,
    pub attempts: u64,
}

pub open spec fn is_terminal(s: ChallengeStatus) -> bool {
    s == ChallengeStatus::Valid || s == ChallengeStatus::Invalid || s == ChallengeStatus::Expired
}

/// `b` can be observed after `a` on some path of the state machine:
/// pending -> processing -> {valid | invalid}, and pending/processing -> expired.
/// Terminal states only lead to themselves.
pub open spec fn status_advances(a: ChallengeStatus, b: ChallengeStatus) -> bool {
    ||| a == b
    ||| (a == ChallengeStatus::Pending && b != ChallengeStatus::Pending)
    ||| (a == ChallengeStatus::Processing && is_terminal(b))
}

impl ChallengeStatus {
    pub fn is_terminal(&self) -> (r: bool)
        ensures
            r == is_terminal(*self),
    {
        match self {
            ChallengeStatus::Valid | ChallengeStatus::Invalid | ChallengeStatus::Expired => true,
            _ => false,
        }
    }

    /// `next` can be observed after this status on the state machine.
    pub fn advances_to(&self, next: ChallengeStatus) -> (r: bool)
        ensures
            r == status_advances(*self, next),
    {
        *self == next || (*self == ChallengeStatus::Pending) || (*self
            == ChallengeStatus::Processing && next.is_terminal())
    }
}

/// The challenge with its status and attempt count replaced.
pub open spec fn with_progress(c: Challenge, status: ChallengeStatus, attempts: u64) -> Challenge {
    Challenge {
        id: c.id,
        order_ref: c.order_ref,
        domain: c.domain,
        kind: c.kind,
        token: c.token,
        status,
        expires_at: c.expires_at,
        attempts,
    }
}

/// A tick calls the attempt function for this challenge.
pub open spec fn attempt_due(c: Challenge, now: u64) -> bool {
    !is_terminal(c.status) && now <= c.expires_at
}

/// One tick of the state machine on `c`, where `success` is what the attempt reported.
pub open spec fn stepped(c: Challenge, now: u64, max_attempts: u64, success: bool) -> Challenge {
    if is_terminal(c.status) {
        c
    } else if now > c.expires_at {
        with_progress(c, ChallengeStatus::Expired, c.attempts)
    } else {
        let n = c.attempts.saturating_add(1);
        if success {
            with_progress(c, ChallengeStatus::Valid, n)
        } else if n >= max_attempts {
            with_progress(c, ChallengeStatus::Invalid, n)
        } else {
            with_progress(c, ChallengeStatus::Processing, n)
        }
    }
}

pub open spec fn has_id(s: Seq<Challenge>, id: u64) -> bool {
    exists|i: int| 0 <= i < s.len() && (#[trigger] s[i]).id == id
}

pub open spec fn unique_ids(s: Seq<Challenge>) -> bool {
    forall|i: int, j: int| 0 <= i < s.len() && 0 <= j < s.len() && i != j ==> s[i].id != s[j].id
}

/// A challenge as `create` makes it.
pub open spec fn fresh_challenge(
    id: u64,
    order_ref: u64,
    domain: String,
    kind: ValidationKind,
    token: String,
    now: u64,
    ttl: u64,
) -> Challenge {
    Challenge {
        id,
        order_ref,
        domain,
        kind,
        token,
        status: ChallengeStatus::Pending,
        expires_at: now.saturating_add(ttl),
        attempts: 0,
    }
}

impl Challenge {
    /// A copy field by field.
    pub fn duplicate(&self) -> (r: Challenge)
        ensures
            r == *self,
    {
        Challenge {
            id: self.id,
            order_ref: self.order_ref,
            domain: self.domain.clone(),
            kind: self.kind,
            token: self.token.clone(),
            status: self.status,
            expires_at: self.expires_at,
            attempts: self.attempts,
        }
    }
}

/// The tick of one challenge, given the attempt's outcome.
pub fn advance(c: &Challenge, now: u64, max_attempts: u64, success: bool) -> (r: Challenge)
    ensures
        r == stepped(*c, now, max_attempts, success),
        status_advances(c.status, r.status),
{
    let mut r = c.duplicate();
    if c.status.is_terminal() {
        return r;
    }
    if now > c.expires_at {
        r.status = ChallengeStatus::Expired;
        return r;
    }
    let n = c.attempts.saturating_add(1);
    r.attempts = n;
    if success {
        r.status = ChallengeStatus::Valid;
    } else if n >= max_attempts {
        r.status = ChallengeStatus::Invalid;
    } else {
        r.status = ChallengeStatus::Processing;
    }
    r
}

/// The position of the challenge with identifier `id` in `v`.
pub(crate) fn position_of(v: &Vec<Challenge>, id: u64) -> (r: Option<usize>)
    ensures
        match r {
            Some(i) => i < v@.len() && v@[i as int].id == id,
            None => !has_id(v@, id),
        },
{
    let mut i: usize = 0;
    while i < v.len()
        invariant
            i <= v@.len(),
            forall|k: int| 0 <= k < i ==> v@[k].id != id,
        decreases v@.len() - i,
    {
        if v[i].id == id {
            return Some(i);
        }
        i = i + 1;
    }
    None
}

/// The in-flight challenges of one service instance.
pub struct Challenger {
    challenges: Vec<Challenge>,
    ttl: u64,
    max_attempts: u64,
}

impl View for Challenger {
    type V = Seq<Challenge>;

    closed spec fn view(&self) -> Seq<Challenge> {
        self.challenges@
    }
}

impl Challenger {
    pub closed spec fn spec_ttl(&self) -> u64 {
        self.ttl
    }

    pub closed spec fn spec_max_attempts(&self) -> u64 {
        self.max_attempts
    }

    pub open spec fn wf(&self) -> bool {
        unique_ids(self@)
    }

    /// No challenges yet; each will live `ttl` seconds and fail after `max_attempts`
    /// unsuccessful attempts.
    pub fn new(ttl: u64, max_attempts: u64) -> (r: Challenger)
        ensures
            r.wf(),
            r@ == Seq::<Challenge>::empty(),
            r.spec_ttl() == ttl,
            r.spec_max_attempts() == max_attempts,
    {
        Challenger { challenges: Vec::new(), ttl, max_attempts }
    }

    pub fn ttl(&self) -> (r: u64)
        ensures
            r == self.spec_ttl(),
    {
        self.ttl
    }

    pub fn max_attempts(&self) -> (r: u64)
        ensures
            r == self.spec_max_attempts(),
    {
        self.max_attempts
    }

    pub fn challenges(&self) -> (r: &Vec<Challenge>)
        ensures
            r@ == self@,
    {
        &self.challenges
    }

    /// Adds a pending challenge that expires `ttl` seconds after `now`. The identifier
    /// and the proof token come from the caller's random source; a known identifier is
    /// refused.
    pub fn create(
        &mut self,
        id: u64,
        order_ref: u64,
        domain: String,
        kind: ValidationKind,
        token: String,
        now: u64,
    ) -> (r: Result<(), ChallengeError>)
        requires
            old(self).wf(),
        ensures
            final(self).wf(),
            final(self).spec_ttl() == old(self).spec_ttl(),
            final(self).spec_max_attempts() == old(self).spec_max_attempts(),
            r is Err <==> has_id(old(self)@, id),
            r is Err ==> r == Err::<(), ChallengeError>(ChallengeError::DuplicateId),
            r is Err ==> final(self)@ == old(self)@,
            r is Ok ==> final(self)@ == old(self)@.push(
                fresh_challenge(id, order_ref, domain, kind, token, now, old(self).spec_ttl()),
            ),
    {
        if position_of(&self.challenges, id).is_some() {
            return Err(ChallengeError::DuplicateId);
        }
        let c = Challenge {
            id,
            order_ref,
            domain,
            kind,
            token,
            status: ChallengeStatus::Pending,
            expires_at: now.saturating_add(self.ttl),
            attempts: 0,
        };
        self.challenges.push(c);
        Ok(())
    }

    /// The status of challenge `id`.
    pub fn status(&self, id: u64) -> (r: Result<ChallengeStatus, ChallengeError>)
        requires
            self.wf(),
        ensures
            r is Err <==> !has_id(self@, id),
            r is Err ==> r == Err::<ChallengeStatus, ChallengeError>(ChallengeError::NotFound),
            forall|i: int|
                0 <= i < self@.len() && (#[trigger] self@[i]).id == id ==> r == Ok::<
                    ChallengeStatus,
                    ChallengeError,
                >(self@[i].status),
    {
        match position_of(&self.challenges, id) {
            Some(i) => Ok(self.challenges[i].status),
            None => Err(ChallengeError::NotFound),
        }
    }

    /// One round of the background driver at `now`: every challenge past its expiry
    /// becomes expired; every other non-terminal one counts an attempt, made by
    /// `attempt`, and becomes valid on success, invalid once the attempts reach the
    /// maximum, processing otherwise.
    pub fn tick<F: Fn(&Challenge) -> bool>(&mut self, now: u64, attempt: &F)
        requires
            old(self).wf(),
            forall|c: &Challenge| attempt.requires((c,)),
        ensures
            final(self).wf(),
            final(self).spec_ttl() == old(self).spec_ttl(),
            final(self).spec_max_attempts() == old(self).spec_max_attempts(),
            final(self)@.len() == old(self)@.len(),
            forall|i: int|
                0 <= i < old(self)@.len() ==> {
                    &&& #[trigger] final(self)@[i] == stepped(
                        old(self)@[i],
                        now,
                        old(self).spec_max_attempts(),
                        final(self)@[i].status == ChallengeStatus::Valid,
                    )
                    &&& status_advances(old(self)@[i].status, final(self)@[i].status)
                    &&& attempt_due(old(self)@[i], now) ==> attempt.ensures(
                        (&old(self)@[i],),
                        final(self)@[i].status == ChallengeStatus::Valid,
                    )
                },
    {
        let ghost start = self@;
        let mut i: usize = 0;
        while i < self.challenges.len()
            invariant
                self.max_attempts == old(self).max_attempts,
                self.ttl == old(self).ttl,
                self@.len() == start.len(),
                i <= start.len(),
                forall|k: int| i <= k < start.len() ==> self@[k] == start[k],
                forall|k: int|
                    0 <= k < i ==> {
                        &&& #[trigger] self@[k] == stepped(
                            start[k],
                            now,
                            self.max_attempts,
                            self@[k].status == ChallengeStatus::Valid,
                        )
                        &&& status_advances(start[k].status, self@[k].status)
                        &&& attempt_due(start[k], now) ==> attempt.ensures(
                            (&start[k],),
                            self@[k].status == ChallengeStatus::Valid,
                        )
                    },
                forall|c: &Challenge| attempt.requires((c,)),
            decreases start.len() - i,
        {
            let c = &self.challenges[i];
            let success = if !c.status.is_terminal() && now <= c.expires_at {
                attempt(c)
            } else {
                false
            };
            let next = advance(c, now, self.max_attempts, success);
            self.challenges[i] = next;
            i = i + 1;
        }
        proof {
            assert forall|a: int, b: int|
                0 <= a < self@.len() && 0 <= b < self@.len() && a != b implies self@[a].id
                != self@[b].id by {
                assert(self@[a].id == start[a].id);
                assert(self@[b].id == start[b].id);
            }
        }
    }

    /// Writes every local challenge into `store` with its status-aware merge, in
    /// order, then reloads all stored rows, those created by other instances included.
    pub fn reconcile(&mut self, store: &mut ChallengeStore)
        requires
            old(self).wf(),
            old(store).wf(),
        ensures
            final(store).wf(),
            final(store)@ == write_all(old(store)@, old(self)@),
            final(self)@ == final(store)@,
            final(self).wf(),
            final(self).spec_ttl() == old(self).spec_ttl(),
            final(self).spec_max_attempts() == old(self).spec_max_attempts(),
    {
        let ghost s0 = store@;
        let mut i: usize = 0;
        while i < self.challenges.len()
            invariant
                store.wf(),
                i <= self@.len(),
                store@ == write_all(s0, self@.take(i as int)),
            decreases self@.len() - i,
        {
            let _ = store.write(&self.challenges[i]);
            proof {
                assert(self@.take(i + 1).drop_last() =~= self@.take(i as int));
            }
            i = i + 1;
        }
        assert(self@.take(self@.len() as int) =~= self@);
        self.challenges = store.snapshot();
    }
}

/// Observations along the state machine compose: a status seen after one seen after
/// `a` is itself reachable from `a`, and a terminal status is never left.
pub proof fn lemma_status_path(a: ChallengeStatus, b: ChallengeStatus, c: ChallengeStatus)
    requires
        status_advances(a, b),
        status_advances(b, c),
    ensures
        status_advances(a, c),
        is_terminal(a) ==> a == b && b == c,
{
}

} // verus!
