use vstd::prelude::*;

use crate::challenge::{Challenge, ChallengeStatus};

verus! {

/// One immutable snapshot of a signing authority: which key pair and root
/// certificate it is, and the window in which it may sign.
#[derive(Debug, Clone, Copy, PartialEq, Eq, Structural)]
pub struct CertificateAuthority {
    pub id: u64,
    pub not_before: u64,
    pub not_after: u64,
}

/// A failed collection (the previous authority stays in force) or a refused signing.
#[derive(Debug, Clone, Copy, PartialEq, Eq, Structural)]
pub enum CAError {
    ProviderFailure,
    SigningFailure,
    DomainNotAuthorized,
}

/// The domains a client asks a certificate for.
pub struct CertificateRequest {
    pub domains: Vec<String>,
}

/// An issued certificate; `issuer` is the authority whose root certificate heads
/// its chain.
#[derive(Debug, PartialEq, Eq)]
pub struct Certificate {
    pub serial: u64,
    pub domains: Vec<String>,
    pub issuer: u64,
    pub not_before: u64,
    pub not_after: u64,
}

/// Some challenge for `d` has reached `valid`.
pub open spec fn domain_authorized(chs: Seq<Challenge>, d: Seq<char>) -> bool {
    exists|i: int|
        0 <= i < chs.len() && (#[trigger] chs[i]).domain@ == d && chs[i].status
            == ChallengeStatus::Valid
}

/// The request names at least one domain and every one of them is authorized.
pub open spec fn request_authorized(chs: Seq<Challenge>, ds: Seq<String>) -> bool {
    &&& ds.len() > 0
    &&& forall|j: int| 0 <= j < ds.len() ==> domain_authorized(chs, (#[trigger] ds[j])@)
}

/// An authority is in force and may sign at `now`.
pub open spec fn usable(active: Option<CertificateAuthority>, now: u64) -> bool {
    &&& active is Some
    &&& active->Some_0.not_before <= now <= active->Some_0.not_after
}

/// Whether signing succeeds, and the error when it does not.
pub open spec fn sign_outcome(
    active: Option<CertificateAuthority>,
    chs: Seq<Challenge>,
    ds: Seq<String>,
    now: u64,
) -> Result<(), CAError> {
    if !request_authorized(chs, ds) {
        Err(CAError::DomainNotAuthorized)
    } else if !usable(active, now) {
        Err(CAError::SigningFailure)
    } else {
        Ok(())
    }
}

/// The active authority after one collection whose provider returned `provided`
/// (`None` for a failure): a success replaces it whole, a failure keeps it.
pub open spec fn after_collect(
    active: Option<CertificateAuthority>,
    provided: Option<CertificateAuthority>,
) -> Option<CertificateAuthority> {
    if provided is Some {
        provided
    } else {
        active
    }
}

/// The active authority after a run of collections, in order.
pub open spec fn collect_all(
    active: Option<CertificateAuthority>,
    outcomes: Seq<Option<CertificateAuthority>>,
) -> Option<CertificateAuthority>
    decreases outcomes.len(),
{
    if outcomes.len() == 0 {
        active
    } else {
        after_collect(collect_all(active, outcomes.drop_last()), outcomes.last())
    }
}

/// Once an authority is active, no run of collections leaves the service without one.
pub proof fn lemma_collect_keeps_some(
    active: Option<CertificateAuthority>,
    outcomes: Seq<Option<CertificateAuthority>>,
)
    requires
        active is Some,
    ensures
        collect_all(active, outcomes) is Some,
    decreases outcomes.len(),
{
    if outcomes.len() > 0 {
        lemma_collect_keeps_some(active, outcomes.drop_last());
    }
}

/// However many collections fail in a row, the last good authority stays active,
/// and a request that it could sign before is still signed, by it.
pub proof fn lemma_failed_collections_keep_signing(
    ca: CertificateAuthority,
    outcomes: Seq<Option<CertificateAuthority>>,
    chs: Seq<Challenge>,
    ds: Seq<String>,
    now: u64,
)
    requires
        forall|i: int| 0 <= i < outcomes.len() ==> (#[trigger] outcomes[i]) is None,
    ensures
        collect_all(Some(ca), outcomes) == Some(ca),
        sign_outcome(collect_all(Some(ca), outcomes), chs, ds, now) == sign_outcome(
            Some(ca),
            chs,
            ds,
            now,
        ),
        request_authorized(chs, ds) && ca.not_before <= now <= ca.not_after ==> sign_outcome(
            collect_all(Some(ca), outcomes),
            chs,
            ds,
            now,
        ) is Ok,
    decreases outcomes.len(),
{
    if outcomes.len() > 0 {
        assert(outcomes.last() is None);
        lemma_failed_collections_keep_signing(ca, outcomes.drop_last(), chs, ds, now);
    }
}

fn is_domain_authorized(chs: &Vec<Challenge>, d: &String) -> (r: bool)
    ensures
        r == domain_authorized(chs@, d@),
{
    let mut i: usize = 0;
    while i < chs.len()
        invariant
            i <= chs@.len(),
            forall|k: int|
                0 <= k < i ==> !((#[trigger] chs@[k]).domain@ == d@ && chs@[k].status
                    == ChallengeStatus::Valid),
        decreases chs@.len() - i,
    {
        if chs[i].status == ChallengeStatus::Valid && chs[i].domain == *d {
            return true;
        }
        i = i + 1;
    }
    false
}

/// Every domain of `ds`, and at least one, has a valid challenge among `chs`.
pub fn is_request_authorized(chs: &Vec<Challenge>, ds: &Vec<String>) -> (r: bool)
    ensures
        r == request_authorized(chs@, ds@),
{
    if ds.len() == 0 {
        return false;
    }
    let mut j: usize = 0;
    while j < ds.len()
        invariant
            j <= ds@.len(),
            forall|k: int| 0 <= k < j ==> domain_authorized(chs@, (#[trigger] ds@[k])@),
        decreases ds@.len() - j,
    {
        if !is_domain_authorized(chs, &ds[j]) {
            return false;
        }
        j = j + 1;
    }
    true
}

fn copy_domains(ds: &Vec<String>) -> (r: Vec<String>)
    ensures
        r@ == ds@,
{
    let mut out: Vec<String> = Vec::new();
    let mut i: usize = 0;
    while i < ds.len()
        invariant
            i <= ds@.len(),
            out@ == ds@.take(i as int),
        decreases ds@.len() - i,
    {
        out.push(ds[i].clone());
        i = i + 1;
        assert(out@ =~= ds@.take(i as int));
    }
    assert(ds@.take(ds@.len() as int) =~= ds@);
    out
}

/// Holds the active signing authority and replaces it, whole, when a periodic
/// collection brings a new one.
pub struct CACollector {
    active: Option<CertificateAuthority>,
}

impl CACollector {
    pub closed spec fn spec_active(&self) -> Option<CertificateAuthority> {
        self.active
    }

    /// A collector with no authority yet.
    pub fn new() -> (r: CACollector)
        ensures
            r.spec_active() is None,
    {
        CACollector { active: None }
    }

    pub fn active(&self) -> (r: Option<CertificateAuthority>)
        ensures
            r == self.spec_active(),
    {
        self.active
    }

    /// One collection: `provided` is what the provider returned this round, `None`
    /// when it failed. A failure keeps the current authority and is reported as
    /// `ProviderFailure`.
    pub fn collect(&mut self, provided: Option<CertificateAuthority>) -> (r: Result<(), CAError>)
        ensures
            final(self).spec_active() == after_collect(old(self).spec_active(), provided),
            r is Ok <==> provided is Some,
            r is Err ==> r == Err::<(), CAError>(CAError::ProviderFailure),
    {
        match provided {
            Some(ca) => {
                self.active = Some(ca);
                Ok(())
            },
            None => Err(CAError::ProviderFailure),
        }
    }

    /// Issues a certificate with serial `serial` at `now` for the request's domains,
    /// signed by the active authority. Every domain needs a valid challenge among
    /// `challenges` (`DomainNotAuthorized`), and the authority must be in force at
    /// `now` (`SigningFailure`).
    pub fn sign(
        &self,
        challenges: &Vec<Challenge>,
        request: &CertificateRequest,
        serial: u64,
        now: u64,
    ) -> (r: Result<Certificate, CAError>)
        ensures
            r is Ok <==> sign_outcome(self.spec_active(), challenges@, request.domains@, now) is Ok,
            r is Err ==> r->Err_0 == sign_outcome(
                self.spec_active(),
                challenges@,
                request.domains@,
                now,
            )->Err_0,
            r is Ok ==> {
                &&& r->Ok_0.serial == serial
                &&& r->Ok_0.domains@ == request.domains@
                &&& r->Ok_0.issuer == self.spec_active()->Some_0.id
                &&& r->Ok_0.not_before == now
                &&& r->Ok_0.not_after == self.spec_active()->Some_0.not_after
            },
    {
        if !is_request_authorized(challenges, &request.domains) {
            return Err(CAError::DomainNotAuthorized);
        }
        match self.active {
            Some(ca) => {
                if ca.not_before <= now && now <= ca.not_after {
                    Ok(
                        Certificate {
                            serial,
                            domains: copy_domains(&request.domains),
                            issuer: ca.id,
                            not_before: now,
                            not_after: ca.not_after,
                        },
                    )
                } else {
                    Err(CAError::SigningFailure)
                }
            },
            None => Err(CAError::SigningFailure),
        }
    }
}

} // verus!
