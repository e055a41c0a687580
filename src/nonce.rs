use vstd::prelude::*;

verus! {

/// Why a nonce could not be consumed.
#[derive(Debug, Clone, Copy, PartialEq, Eq, Structural)]
pub enum NonceError {
    NotFound,
    Expired,
    AlreadyConsumed,
}

/// What the store records for one issued token.
#[derive(Debug, Clone, Copy, PartialEq, Eq, Structural)]
pub struct NonceState {
    pub expires_at: u64,
    pub consumed: bool,
}

struct NonceEntry {
    token: String,
    state: NonceState,
}

/// Single-use anti-replay tokens. Every token maps to its expiry and whether
/// it has been consumed; consumption is one step that checks and flips the flag.
pub struct NonceStore {
    entries: Vec<NonceEntry>,
    ttl: u64,
    model: Ghost<Map<Seq<char>, NonceState>>,
}

/// A token stays usable until this instant (inclusive).
pub open spec fn expiry_of(now: u64, ttl: u64) -> u64 {
    now.saturating_add(ttl)
}

/// The store's contents after issuing `t` at `now`; an already known token is left alone.
pub open spec fn after_issue(m: Map<Seq<char>, NonceState>, t: Seq<char>, now: u64, ttl: u64) -> Map<
    Seq<char>,
    NonceState,
> {
    if m.contains_key(t) {
        m
    } else {
        m.insert(t, NonceState { expires_at: expiry_of(now, ttl), consumed: false })
    }
}

/// The outcome of presenting `t` at `now`.
pub open spec fn validate_result(m: Map<Seq<char>, NonceState>, t: Seq<char>, now: u64) -> Result<
    (),
    NonceError,
> {
    if !m.contains_key(t) {
        Err(NonceError::NotFound)
    } else if m[t].consumed {
        Err(NonceError::AlreadyConsumed)
    } else if now > m[t].expires_at {
        Err(NonceError::Expired)
    } else {
        Ok(())
    }
}

/// The store's contents after presenting `t` at `now`: only a success changes it.
pub open spec fn after_validate(m: Map<Seq<char>, NonceState>, t: Seq<char>, now: u64) -> Map<
    Seq<char>,
    NonceState,
> {
    if validate_result(m, t, now) is Ok {
        m.insert(t, NonceState { expires_at: m[t].expires_at, consumed: true })
    } else {
        m
    }
}

/// An entry that a batch cleanup at `now` keeps.
pub open spec fn is_live(s: NonceState, now: u64) -> bool {
    !s.consumed && now <= s.expires_at
}

pub open spec fn after_cleanup(m: Map<Seq<char>, NonceState>, now: u64) -> Map<
    Seq<char>,
    NonceState,
> {
    Map::new(|t: Seq<char>| m.contains_key(t) && is_live(m[t], now), |t: Seq<char>| m[t])
}

impl View for NonceStore {
    type V = Map<Seq<char>, NonceState>;

    closed spec fn view(&self) -> Map<Seq<char>, NonceState> {
        self.model@
    }
}

impl NonceStore {
    pub closed spec fn spec_ttl(&self) -> u64 {
        self.ttl
    }

    pub closed spec fn wf(&self) -> bool {
        &&& forall|i: int|
            0 <= i < self.entries@.len() ==> {
                &&& #[trigger] self.model@.contains_key(self.entries@[i].token@)
                &&& self.model@[self.entries@[i].token@] == self.entries@[i].state
            }
        &&& forall|t: Seq<char>|
            #[trigger] self.model@.contains_key(t) ==> exists|i: int|
                0 <= i < self.entries@.len() && (#[trigger] self.entries@[i].token@) == t
        &&& forall|i: int, j: int|
            0 <= i < self.entries@.len() && 0 <= j < self.entries@.len() && i != j
                ==> self.entries@[i].token@ != self.entries@[j].token@
    }

    /// An empty store whose tokens live for `ttl` seconds.
    pub fn new(ttl: u64) -> (r: NonceStore)
        ensures
            r.wf(),
            r@ == Map::<Seq<char>, NonceState>::empty(),
            r.spec_ttl() == ttl,
    {
        NonceStore { entries: Vec::new(), ttl, model: Ghost(Map::empty()) }
    }

    pub fn ttl(&self) -> (r: u64)
        ensures
            r == self.spec_ttl(),
    {
        self.ttl
    }

    pub fn len(&self) -> (r: usize)
        requires
            self.wf(),
        ensures
            r == self@.len(),
    {
        proof {
            self.lemma_len();
        }
        self.entries.len()
    }

    proof fn lemma_len(&self)
        requires
            self.wf(),
        ensures
            self@.len() == self.entries@.len(),
            self@.dom().finite(),
        decreases self.entries@.len(),
    {
        let toks = Seq::new(self.entries@.len(), |i: int| self.entries@[i].token@);
        assert forall|i: int, j: int| 0 <= i < toks.len() && 0 <= j < toks.len() && i != j implies
            toks[i] != toks[j] by {}
        toks.unique_seq_to_set();
        assert(toks.to_set() =~= self@.dom()) by {
            assert forall|t: Seq<char>| self@.dom().contains(t) implies toks.to_set().contains(t) by {
                let i = choose|i: int|
                    0 <= i < self.entries@.len() && (#[trigger] self.entries@[i].token@) == t;
                assert(toks[i] == t);
            }
        }
    }

    fn find(&self, token: &String) -> (r: Option<usize>)
        requires
            self.wf(),
        ensures
            match r {
                Some(i) => i < self.entries@.len() && self.entries@[i as int].token@ == token@,
                None => !self@.contains_key(token@),
            },
    {
        let mut i: usize = 0;
        while i < self.entries.len()
            invariant
                self.wf(),
                i <= self.entries@.len(),
                forall|k: int| 0 <= k < i ==> self.entries@[k].token@ != token@,
            decreases self.entries@.len() - i,
        {
            if self.entries[i].token == *token {
                return Some(i);
            }
            i = i + 1;
        }
        None
    }

    /// Records `token`, issued at `now`, as unconsumed. A token already known is
    /// refused (`false`) and nothing changes.
    pub fn issue(&mut self, token: String, now: u64) -> (r: bool)
        requires
            old(self).wf(),
        ensures
            final(self).wf(),
            final(self).spec_ttl() == old(self).spec_ttl(),
            r == !old(self)@.contains_key(token@),
            final(self)@ == after_issue(old(self)@, token@, now, old(self).spec_ttl()),
    {
        match self.find(&token) {
            Some(_) => false,
            None => {
                let st = NonceState { expires_at: now.saturating_add(self.ttl), consumed: false };
                let ghost t = token@;
                let ghost old_entries = self.entries@;
                self.entries.push(NonceEntry { token, state: st });
                self.model = Ghost(self.model@.insert(t, st));
                assert forall|u: Seq<char>| #[trigger] self.model@.contains_key(u) implies exists|
                    i: int,
                | 0 <= i < self.entries@.len() && (#[trigger] self.entries@[i].token@) == u by {
                    if u == t {
                        assert(self.entries@[old_entries.len() as int].token@ == u);
                    } else {
                        let i = choose|i: int|
                            0 <= i < old_entries.len() && (#[trigger] old_entries[i].token@) == u;
                        assert(self.entries@[i].token@ == u);
                    }
                }
                assert forall|i: int|
                    0 <= i < self.entries@.len() implies #[trigger] self.model@.contains_key(
                    self.entries@[i].token@,
                ) && self.model@[self.entries@[i].token@] == self.entries@[i].state by {
                    if i < old_entries.len() {
                        assert(old_entries[i] == self.entries@[i]);
                    }
                }
                true
            },
        }
    }

    /// Checks that `token` is known, unconsumed and unexpired at `now`, and in the
    /// same step marks it consumed.
    pub fn validate_and_consume(&mut self, token: &String, now: u64) -> (r: Result<(), NonceError>)
        requires
            old(self).wf(),
        ensures
            final(self).wf(),
            final(self).spec_ttl() == old(self).spec_ttl(),
            r == validate_result(old(self)@, token@, now),
            final(self)@ == after_validate(old(self)@, token@, now),
    {
        match self.find(token) {
            None => Err(NonceError::NotFound),
            Some(i) => {
                let st = self.entries[i].state;
                if st.consumed {
                    Err(NonceError::AlreadyConsumed)
                } else if now > st.expires_at {
                    Err(NonceError::Expired)
                } else {
                    let ghost old_entries = self.entries@;
                    let nst = NonceState { expires_at: st.expires_at, consumed: true };
                    let tok = self.entries[i].token.clone();
                    self.entries[i] = NonceEntry { token: tok, state: nst };
                    self.model = Ghost(self.model@.insert(token@, nst));
                    assert forall|u: Seq<char>| #[trigger] self.model@.contains_key(u) implies exists|
                        j: int,
                    | 0 <= j < self.entries@.len() && (#[trigger] self.entries@[j].token@) == u by {
                        if u == token@ {
                            assert(self.entries@[i as int].token@ == u);
                        } else {
                            let j = choose|j: int|
                                0 <= j < old_entries.len() && (#[trigger] old_entries[j].token@)
                                    == u;
                            assert(self.entries@[j].token@ == u);
                        }
                    }
                    assert forall|j: int|
                        0 <= j < self.entries@.len() implies #[trigger] self.model@.contains_key(
                        self.entries@[j].token@,
                    ) && self.model@[self.entries@[j].token@] == self.entries@[j].state by {
                        if j != i {
                            assert(old_entries[j] == self.entries@[j]);
                        }
                    }
                    Ok(())
                }
            },
        }
    }

    /// Batch deletion: drops every entry that is consumed or expired at `now`.
    pub fn cleanup(&mut self, now: u64)
        requires
            old(self).wf(),
        ensures
            final(self).wf(),
            final(self).spec_ttl() == old(self).spec_ttl(),
            final(self)@ == after_cleanup(old(self)@, now),
    {
        let mut kept: Vec<NonceEntry> = Vec::new();
        let ghost mut nm: Map<Seq<char>, NonceState> = Map::empty();
        let mut i: usize = 0;
        while i < self.entries.len()
            invariant
                self.wf(),
                i <= self.entries@.len(),
                forall|j: int|
                    0 <= j < kept@.len() ==> {
                        &&& #[trigger] nm.contains_key(kept@[j].token@)
                        &&& nm[kept@[j].token@] == kept@[j].state
                    },
                forall|t: Seq<char>|
                    #[trigger] nm.contains_key(t) ==> exists|j: int|
                        0 <= j < kept@.len() && (#[trigger] kept@[j].token@) == t,
                forall|j: int, k: int|
                    0 <= j < kept@.len() && 0 <= k < kept@.len() && j != k
                        ==> kept@[j].token@ != kept@[k].token@,
                forall|t: Seq<char>|
                    #[trigger] nm.contains_key(t) ==> {
                        &&& self@.contains_key(t)
                        &&& is_live(self@[t], now)
                        &&& nm[t] == self@[t]
                        &&& exists|k: int| 0 <= k < i && (#[trigger] self.entries@[k].token@) == t
                    },
                forall|k: int|
                    0 <= k < i && is_live(self.entries@[k].state, now) ==> nm.contains_key(
                        #[trigger] self.entries@[k].token@,
                    ),
            decreases self.entries@.len() - i,
        {
            let st = self.entries[i].state;
            if !st.consumed && now <= st.expires_at {
                let tok = self.entries[i].token.clone();
                let ghost t = tok@;
                assert forall|j: int| 0 <= j < kept@.len() implies kept@[j].token@ != t by {
                    if kept@[j].token@ == t {
                        assert(nm.contains_key(kept@[j].token@));
                        let k = choose|k: int|
                            0 <= k < i && (#[trigger] self.entries@[k].token@) == t;
                        assert(k != i);
                    }
                }
                let ghost old_kept = kept@;
                kept.push(NonceEntry { token: tok, state: st });
                proof {
                    assert(self@.contains_key(self.entries@[i as int].token@));
                    assert(self@[t] == st);
                    nm = nm.insert(t, st);
                    assert forall|u: Seq<char>| #[trigger] nm.contains_key(u) implies exists|j: int|
                        0 <= j < kept@.len() && (#[trigger] kept@[j].token@) == u by {
                        if u == t {
                            assert(kept@[old_kept.len() as int].token@ == u);
                        } else {
                            let j = choose|j: int|
                                0 <= j < old_kept.len() && (#[trigger] old_kept[j].token@) == u;
                            assert(kept@[j].token@ == u);
                        }
                    }
                    assert forall|j: int|
                        0 <= j < kept@.len() implies #[trigger] nm.contains_key(kept@[j].token@)
                        && nm[kept@[j].token@] == kept@[j].state by {
                        if j < old_kept.len() {
                            assert(old_kept[j] == kept@[j]);
                        }
                    }
                    assert forall|u: Seq<char>| #[trigger] nm.contains_key(u) implies exists|k: int|
                        0 <= k < i + 1 && (#[trigger] self.entries@[k].token@) == u by {
                        if u == t {
                            assert(self.entries@[i as int].token@ == u);
                        } else {
                            let k = choose|k: int|
                                0 <= k < i && (#[trigger] self.entries@[k].token@) == u;
                            assert(self.entries@[k].token@ == u);
                        }
                    }
                }
            }
            i = i + 1;
        }
        proof {
            assert forall|t: Seq<char>| after_cleanup(self@, now).contains_key(t) implies #[trigger] nm.contains_key(t) by {
                let k = choose|k: int|
                    0 <= k < self.entries@.len() && (#[trigger] self.entries@[k].token@) == t;
                assert(self.entries@[k].token@ == t);
            }
            assert(nm =~= after_cleanup(self@, now));
        }
        self.entries = kept;
        self.model = Ghost(nm);
        assert(self.wf());
    }
}

/// A freshly issued token, presented within its lifetime, is accepted once; every
/// later presentation, at any time, is refused as already consumed and changes nothing.
pub proof fn lemma_nonce_single_use(
    m: Map<Seq<char>, NonceState>,
    t: Seq<char>,
    issued: u64,
    ttl: u64,
    first: u64,
    later: u64,
)
    requires
        !m.contains_key(t),
        first <= issued + ttl,
    ensures
        validate_result(after_issue(m, t, issued, ttl), t, first) == Ok::<(), NonceError>(()),
        validate_result(after_validate(after_issue(m, t, issued, ttl), t, first), t, later)
            == Err::<(), NonceError>(NonceError::AlreadyConsumed),
        after_validate(after_validate(after_issue(m, t, issued, ttl), t, first), t, later)
            == after_validate(after_issue(m, t, issued, ttl), t, first),
{
}

/// A token that was never consumed is refused as expired once its lifetime has passed.
pub proof fn lemma_nonce_expires(
    m: Map<Seq<char>, NonceState>,
    t: Seq<char>,
    issued: u64,
    ttl: u64,
    later: u64,
)
    requires
        !m.contains_key(t),
        later > issued + ttl,
    ensures
        validate_result(after_issue(m, t, issued, ttl), t, later) == Err::<(), NonceError>(
            NonceError::Expired,
        ),
{
}

} // verus!
