use vstd::prelude::*;

use crate::ca::{sign_outcome, CACollector, CAError, Certificate, CertificateRequest};
use crate::challenge::{
    fresh_challenge, has_id, Challenge, ChallengeError, Challenger, ValidationKind,
};
use crate::nonce::NonceStore;
use crate::store::ChallengeStore;

verus! {

/// The composition root: the service's base URL, the durable challenge rows, this
/// instance's challenger, the signing authority and the nonce store, built once at
/// startup and shared by request handlers and background loops.
pub struct ServiceState {
    pub base_url: String,
    pub store: ChallengeStore,
    pub challenger: Challenger,
    pub ca: CACollector,
    pub nonces: NonceStore,
}

impl ServiceState {
    pub open spec fn wf(&self) -> bool {
        &&& self.store.wf()
        &&& self.challenger.wf()
        &&& self.nonces.wf()
    }

    /// Empty stores, no authority yet.
    pub fn new(base_url: String, nonce_ttl: u64, challenge_ttl: u64, max_attempts: u64) -> (r:
        ServiceState)
        ensures
            r.wf(),
            r.base_url@ == base_url@,
            r.store@ == Seq::<Challenge>::empty(),
            r.challenger@ == Seq::<Challenge>::empty(),
            r.challenger.spec_ttl() == challenge_ttl,
            r.challenger.spec_max_attempts() == max_attempts,
            r.ca.spec_active() is None,
            r.nonces@ == Map::<Seq<char>, crate::nonce::NonceState>::empty(),
            r.nonces.spec_ttl() == nonce_ttl,
    {
        ServiceState {
            base_url,
            store: ChallengeStore::new(),
            challenger: Challenger::new(challenge_ttl, max_attempts),
            ca: CACollector::new(),
            nonces: NonceStore::new(nonce_ttl),
        }
    }

    /// Creates a pending challenge and persists it at once. An identifier known to
    /// this instance or to the durable rows is refused and nothing changes.
    pub fn create_challenge(
        &mut self,
        id: u64,
        order_ref: u64,
        domain: String,
        kind: ValidationKind,
        token: String,
        now: u64,
    ) -> (r: Result<(), ChallengeError>)
        requires
            old(self).wf(),
        ensures
            final(self).wf(),
            r is Err <==> has_id(old(self).challenger@, id) || has_id(old(self).store@, id),
            r is Err ==> r == Err::<(), ChallengeError>(ChallengeError::DuplicateId),
            r is Err ==> final(self).challenger@ == old(self).challenger@,
            r is Err ==> final(self).store@ == old(self).store@,
            r is Ok ==> final(self).challenger@ == old(self).challenger@.push(
                fresh_challenge(id, order_ref, domain, kind, token, now, old(self).challenger.spec_ttl()),
            ),
            r is Ok ==> final(self).store@ == old(self).store@.push(
                fresh_challenge(id, order_ref, domain, kind, token, now, old(self).challenger.spec_ttl()),
            ),
            final(self).challenger.spec_ttl() == old(self).challenger.spec_ttl(),
            final(self).challenger.spec_max_attempts() == old(self).challenger.spec_max_attempts(),
            final(self).ca == old(self).ca,
            final(self).nonces == old(self).nonces,
            final(self).base_url == old(self).base_url,
    {
        if self.store.contains(id) {
            return Err(ChallengeError::DuplicateId);
        }
        let r = self.challenger.create(id, order_ref, domain, kind, token, now);
        if r.is_ok() {
            let n = self.challenger.challenges().len();
            let _ = self.store.write(&self.challenger.challenges()[n - 1]);
        }
        r
    }

    /// One reconciliation of this instance's challenges with the durable rows.
    pub fn reconcile(&mut self)
        requires
            old(self).wf(),
        ensures
            final(self).wf(),
            final(self).store@ == crate::store::write_all(
                old(self).store@,
                old(self).challenger@,
            ),
            final(self).challenger@ == final(self).store@,
            final(self).ca == old(self).ca,
            final(self).nonces == old(self).nonces,
    {
        self.challenger.reconcile(&mut self.store);
    }

    /// Signs `request` against the durable rows, which are the source of truth on
    /// which domains have been validated.
    pub fn sign(&self, request: &CertificateRequest, serial: u64, now: u64) -> (r: Result<
        Certificate,
        CAError,
    >)
        ensures
            r is Ok <==> sign_outcome(
                self.ca.spec_active(),
                self.store@,
                request.domains@,
                now,
            ) is Ok,
            r is Err ==> r->Err_0 == sign_outcome(
                self.ca.spec_active(),
                self.store@,
                request.domains@,
                now,
            )->Err_0,
            r is Ok ==> {
                &&& r->Ok_0.serial == serial
                &&& r->Ok_0.domains@ == request.domains@
                &&& r->Ok_0.issuer == self.ca.spec_active()->Some_0.id
            },
    {
        self.ca.sign(self.store.rows(), request, serial, now)
    }
}

} // verus!
