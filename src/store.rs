use vstd::prelude::*;

use crate::challenge::{
    has_id, is_terminal, position_of, status_advances, unique_ids, Challenge, ChallengeError,
};

verus! {

/// The stored row is replaced by the incoming one: it is not terminal yet and the
/// incoming status follows it on the state machine.
pub open spec fn accepts(stored: Challenge, incoming: Challenge) -> bool {
    !is_terminal(stored.status) && status_advances(stored.status, incoming.status)
}

pub open spec fn merged(stored: Challenge, incoming: Challenge) -> Challenge {
    if accepts(stored, incoming) {
        incoming
    } else {
        stored
    }
}

/// The position of the row with identifier `id`.
pub open spec fn index_of(s: Seq<Challenge>, id: u64) -> int {
    choose|i: int| 0 <= i < s.len() && (#[trigger] s[i]).id == id
}

/// The rows after one status-aware write of `c`: a new identifier is appended, a
/// known one is merged in place.
pub open spec fn write_row(s: Seq<Challenge>, c: Challenge) -> Seq<Challenge> {
    if has_id(s, c.id) {
        s.update(index_of(s, c.id), merged(s[index_of(s, c.id)], c))
    } else {
        s.push(c)
    }
}

/// The rows after writing each of `cs`, in order.
pub open spec fn write_all(s: Seq<Challenge>, cs: Seq<Challenge>) -> Seq<Challenge>
    decreases cs.len(),
{
    if cs.len() == 0 {
        s
    } else {
        write_row(write_all(s, cs.drop_last()), cs.last())
    }
}

/// Shared durable storage of challenge rows, one per identifier, with writes that
/// never move a row backwards on the state machine nor out of a terminal status.
pub struct ChallengeStore {
    rows: Vec<Challenge>,
}

impl View for ChallengeStore {
    type V = Seq<Challenge>;

    closed spec fn view(&self) -> Seq<Challenge> {
        self.rows@
    }
}

proof fn lemma_index_of(s: Seq<Challenge>, i: int)
    requires
        unique_ids(s),
        0 <= i < s.len(),
    ensures
        has_id(s, s[i].id),
        index_of(s, s[i].id) == i,
{
    assert(s[i].id == s[i].id);
}

/// A status-aware write keeps identifiers unique.
pub proof fn lemma_write_row_unique(s: Seq<Challenge>, c: Challenge)
    requires
        unique_ids(s),
    ensures
        unique_ids(write_row(s, c)),
{
    if has_id(s, c.id) {
        let k = index_of(s, c.id);
        let t = write_row(s, c);
        assert forall|i: int, j: int|
            0 <= i < t.len() && 0 <= j < t.len() && i != j implies t[i].id != t[j].id by {
            assert(t[k].id == s[k].id);
        }
    }
}

pub proof fn lemma_write_all_unique(s: Seq<Challenge>, cs: Seq<Challenge>)
    requires
        unique_ids(s),
    ensures
        unique_ids(write_all(s, cs)),
    decreases cs.len(),
{
    if cs.len() > 0 {
        lemma_write_all_unique(s, cs.drop_last());
        lemma_write_row_unique(write_all(s, cs.drop_last()), cs.last());
    }
}

/// Writing a row that is already stored changes nothing.
pub proof fn lemma_write_row_present(s: Seq<Challenge>, i: int)
    requires
        unique_ids(s),
        0 <= i < s.len(),
    ensures
        write_row(s, s[i]) == s,
{
    lemma_index_of(s, i);
    assert(write_row(s, s[i]) =~= s);
}

/// Writing rows that are all already stored changes nothing.
pub proof fn lemma_write_all_present(s: Seq<Challenge>, cs: Seq<Challenge>)
    requires
        unique_ids(s),
        forall|j: int| 0 <= j < cs.len() ==> s.contains(#[trigger] cs[j]),
    ensures
        write_all(s, cs) == s,
    decreases cs.len(),
{
    if cs.len() > 0 {
        assert forall|j: int| 0 <= j < cs.drop_last().len() implies s.contains(
            #[trigger] cs.drop_last()[j],
        ) by {
            assert(cs.drop_last()[j] == cs[j]);
        }
        lemma_write_all_present(s, cs.drop_last());
        assert(s.contains(cs[cs.len() - 1]));
        let i = choose|i: int| 0 <= i < s.len() && s[i] == cs.last();
        lemma_write_row_present(s, i);
    }
}

/// Reconciliation is idempotent: once an instance has written its challenges and
/// reloaded the stored rows, writing that reloaded view again leaves the rows as
/// they are.
pub proof fn lemma_reconcile_idempotent(stored: Seq<Challenge>, local: Seq<Challenge>)
    requires
        unique_ids(stored),
    ensures
        write_all(write_all(stored, local), write_all(stored, local)) == write_all(
            stored,
            local,
        ),
{
    let s1 = write_all(stored, local);
    lemma_write_all_unique(stored, local);
    assert forall|j: int| 0 <= j < s1.len() implies s1.contains(#[trigger] s1[j]) by {}
    lemma_write_all_present(s1, s1);
}

/// Every stored row keeps its identifier across a write and its status only moves
/// forward on the state machine; a terminal row is never changed.
pub proof fn lemma_write_row_advances(s: Seq<Challenge>, c: Challenge, i: int)
    requires
        unique_ids(s),
        0 <= i < s.len(),
    ensures
        write_row(s, c).len() >= s.len(),
        write_row(s, c)[i].id == s[i].id,
        status_advances(s[i].status, write_row(s, c)[i].status),
        is_terminal(s[i].status) ==> write_row(s, c)[i] == s[i],
{
}

/// Of two writes of a terminal status for one challenge, the first to commit wins:
/// the second leaves the rows unchanged.
pub proof fn lemma_first_terminal_write_wins(s: Seq<Challenge>, a: Challenge, b: Challenge)
    requires
        unique_ids(s),
        a.id == b.id,
        is_terminal(a.status),
        has_id(s, a.id) ==> accepts(s[index_of(s, a.id)], a),
    ensures
        has_id(write_row(s, a), a.id),
        write_row(s, a)[index_of(write_row(s, a), a.id)] == a,
        write_row(write_row(s, a), b) == write_row(s, a),
{
    let t = write_row(s, a);
    lemma_write_row_unique(s, a);
    let k = if has_id(s, a.id) {
        index_of(s, a.id)
    } else {
        s.len() as int
    };
    assert(t[k] == a);
    lemma_index_of(t, k);
}

impl ChallengeStore {
    pub open spec fn wf(&self) -> bool {
        unique_ids(self@)
    }

    pub fn new() -> (r: ChallengeStore)
        ensures
            r.wf(),
            r@ == Seq::<Challenge>::empty(),
    {
        ChallengeStore { rows: Vec::new() }
    }

    pub fn rows(&self) -> (r: &Vec<Challenge>)
        ensures
            r@ == self@,
    {
        &self.rows
    }

    /// A row with identifier `id` is stored.
    pub fn contains(&self, id: u64) -> (r: bool)
        ensures
            r == has_id(self@, id),
    {
        position_of(&self.rows, id).is_some()
    }

    /// One status-aware write. A row in a terminal status refuses it
    /// (`AlreadyTerminal`); otherwise `Ok(true)` when `c` was stored and `Ok(false)`
    /// when its status would move the row backwards and it was ignored.
    pub fn write(&mut self, c: &Challenge) -> (r: Result<bool, ChallengeError>)
        requires
            old(self).wf(),
        ensures
            final(self).wf(),
            final(self)@ == write_row(old(self)@, *c),
            r == (if !has_id(old(self)@, c.id) {
                Ok::<bool, ChallengeError>(true)
            } else if is_terminal(old(self)@[index_of(old(self)@, c.id)].status) {
                Err(ChallengeError::AlreadyTerminal)
            } else {
                Ok(accepts(old(self)@[index_of(old(self)@, c.id)], *c))
            }),
    {
        proof {
            lemma_write_row_unique(self@, *c);
        }
        match position_of(&self.rows, c.id) {
            None => {
                self.rows.push(c.duplicate());
                Ok(true)
            },
            Some(i) => {
                proof {
                    lemma_index_of(self@, i as int);
                }
                let st = self.rows[i].status;
                if st.is_terminal() {
                    Err(ChallengeError::AlreadyTerminal)
                } else if st.advances_to(c.status) {
                    self.rows[i] = c.duplicate();
                    Ok(true)
                } else {
                    Ok(false)
                }
            },
        }
    }

    /// A copy of every row, in order.
    pub fn snapshot(&self) -> (r: Vec<Challenge>)
        ensures
            r@ == self@,
    {
        let mut out: Vec<Challenge> = Vec::new();
        let mut i: usize = 0;
        while i < self.rows.len()
            invariant
                i <= self@.len(),
                out@ == self@.take(i as int),
            decreases self@.len() - i,
        {
            out.push(self.rows[i].duplicate());
            i = i + 1;
            assert(out@ =~= self@.take(i as int));
        }
        assert(self@.take(self@.len() as int) =~= self@);
        out
    }
}

} // verus!
