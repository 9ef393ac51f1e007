//! The correlation store: a pending result waits under a random token until
//! the identity callback redeems it, once, within the time to live.
use rand::TryRngCore;
use std::collections::HashMap;
use vstd::std_specs::iter::IteratorSpec;
use vstd::prelude::*;

use crate::grading::QuizResult;

verus! {

broadcast use vstd::std_specs::hash::group_hash_axioms;

/// How long a pending result may wait, in milliseconds (five minutes).
pub const SESSION_TTL_MS: u64 = 300_000;

/// Why a token was not redeemed: unknown, already used, or expired.
#[derive(Debug, Clone, Copy, PartialEq, Eq, Structural)]
pub enum CorrelationError {
    Unauthorized,
}

/// A result waiting for its identity, with the time it was issued.
pub struct PendingEntry {
    pub issued_at: u64,
    pub result: QuizResult,
}

/// Whether an entry issued at `issued_at` is past the time to live at `now`;
/// a clock reading before the issue counts as no time elapsed.
pub open spec fn expired(issued_at: u64, now: u64) -> bool {
    now > issued_at && now - issued_at > SESSION_TTL_MS
}

/// What redeeming `token` at `now` yields from a store holding `m`: the
/// pending result if the entry is there and not expired, else `Unauthorized`.
pub open spec fn redeem_outcome(m: Map<u128, PendingEntry>, token: u128, now: u64) -> Result<
    QuizResult,
    CorrelationError,
> {
    if m.contains_key(token) && !expired(m[token].issued_at, now) {
        Ok(m[token].result)
    } else {
        Err(CorrelationError::Unauthorized)
    }
}

/// Redeeming a token right after issuing it yields the stored result; the
/// redemption removes the entry, so a second one, at any time, is refused.
pub proof fn lemma_issue_then_redeem(
    m: Map<u128, PendingEntry>,
    token: u128,
    now: u64,
    later: u64,
    result: QuizResult,
)
    ensures
        redeem_outcome(m.insert(token, PendingEntry { issued_at: now, result }), token, now) == Ok::<
            QuizResult,
            CorrelationError,
        >(result),
        redeem_outcome(
            m.insert(token, PendingEntry { issued_at: now, result }).remove(token),
            token,
            later,
        ) == Err::<QuizResult, CorrelationError>(CorrelationError::Unauthorized),
{
}

/// Redeeming a token after the time to live has passed is refused, and the
/// entry is gone afterwards.
pub proof fn lemma_redeem_after_ttl(
    m: Map<u128, PendingEntry>,
    token: u128,
    issued_at: u64,
    now: u64,
    result: QuizResult,
)
    requires
        now > issued_at,
        now - issued_at > SESSION_TTL_MS,
    ensures
        redeem_outcome(m.insert(token, PendingEntry { issued_at, result }), token, now) == Err::<
            QuizResult,
            CorrelationError,
        >(CorrelationError::Unauthorized),
        !m.insert(token, PendingEntry { issued_at, result }).remove(token).contains_key(token),
{
}

/// A token that the store does not hold is refused.
pub proof fn lemma_unknown_token(m: Map<u128, PendingEntry>, token: u128, now: u64)
    requires
        !m.contains_key(token),
    ensures
        redeem_outcome(m, token, now) == Err::<QuizResult, CorrelationError>(
            CorrelationError::Unauthorized,
        ),
{
}

/// The tokens whose entries are still live at `now`.
pub open spec fn live_keys(m: Map<u128, PendingEntry>, now: u64) -> Set<u128> {
    m.dom().filter(|k: u128| !expired(m[k].issued_at, now))
}

/// Maps each token to its pending entry.
pub struct SessionStore {
    entries: HashMap<u128, PendingEntry>,
}

impl View for SessionStore {
    type V = Map<u128, PendingEntry>;

    closed spec fn view(&self) -> Map<u128, PendingEntry> {
        self.entries@
    }
}

/// Relies on `rand::rngs::OsRng::try_fill_bytes`: sixteen bytes from the
/// operating system, or `None` where it has none to give.
#[verifier::external_body]
fn random_token() -> (r: Option<u128>) {
    let mut bytes = [0u8; 16];
    match rand::rngs::OsRng.try_fill_bytes(&mut bytes) {
        Ok(()) => Some(u128::from_le_bytes(bytes)),
        Err(_) => None,
    }
}

impl SessionStore {
    pub fn new() -> (r: SessionStore)
        ensures
            r@ == Map::<u128, PendingEntry>::empty(),
    {
        SessionStore { entries: HashMap::new() }
    }

    pub fn len(&self) -> (r: usize)
        ensures
            r == self@.len(),
    {
        self.entries.len()
    }

    pub fn contains(&self, token: u128) -> (r: bool)
        ensures
            r == self@.contains_key(token),
    {
        self.entries.contains_key(&token)
    }

    /// Records `result` under `token`, issued at `now`.
    pub fn issue_with(&mut self, token: u128, now: u64, result: QuizResult)
        ensures
            final(self)@ == old(self)@.insert(token, PendingEntry { issued_at: now, result }),
    {
        self.entries.insert(token, PendingEntry { issued_at: now, result });
    }

    /// Records `result` under a fresh random token and returns the token;
    /// `None`, with the store unchanged, where no randomness is available.
    pub fn issue(&mut self, now: u64, result: QuizResult) -> (r: Option<u128>)
        ensures
            r matches Some(t) ==> final(self)@ == old(self)@.insert(
                t,
                PendingEntry { issued_at: now, result },
            ),
            r is None ==> final(self)@ == old(self)@,
    {
        match random_token() {
            Some(token) => {
                self.issue_with(token, now, result);
                Some(token)
            },
            None => None,
        }
    }

    /// Takes the entry for `token` out of the store; its result comes back
    /// only if the entry was there and is not past the time to live at `now`.
    pub fn redeem(&mut self, token: u128, now: u64) -> (r: Result<QuizResult, CorrelationError>)
        ensures
            final(self)@ == old(self)@.remove(token),
            r == redeem_outcome(old(self)@, token, now),
    {
        match self.entries.remove(&token) {
            None => Err(CorrelationError::Unauthorized),
            Some(entry) => {
                if now > entry.issued_at && now - entry.issued_at > SESSION_TTL_MS {
                    Err(CorrelationError::Unauthorized)
                } else {
                    Ok(entry.result)
                }
            },
        }
    }

    /// Drops every entry that is past the time to live at `now`.
    pub fn sweep(&mut self, now: u64)
        ensures
            final(self)@ == old(self)@.restrict(live_keys(old(self)@, now)),
    {
        let ghost start = self@;
        let mut stale: Vec<u128> = Vec::new();
        proof {
            vstd::std_specs::hash::axiom_spec_keys_iter(&self.entries);
            let r = vstd::std_specs::hash::spec_keys_iter(&self.entries).remaining();
            assert forall|x: u128| start.contains_key(x) implies exists|j: int| 0 <= j < r.len() && *r[j] == x by {
                assert(r.unref().to_set().contains(x));
                assert(r.unref().contains(x));
                let j = choose|j: int| 0 <= j < r.unref().len() && r.unref()[j] == x;
                assert(*r[j] == x);
            }
        }
        let keys = self.entries.keys();
        for k in it: keys
            invariant
                self@ == start,
                forall|j: int|
                    0 <= j < stale@.len() ==> start.contains_key(#[trigger] stale@[j]) && expired(
                        start[stale@[j]].issued_at,
                        now,
                    ),
                forall|x: u128|
                    #![trigger start.contains_key(x)]
                    start.contains_key(x) && expired(start[x].issued_at, now) ==> stale@.contains(x)
                        || exists|j: int| it.index() <= j < it.seq().len() && *it.seq()[j] == x,
        {
            let ghost before = stale@;
            match self.entries.get(k) {
                Some(entry) => {
                    if now > entry.issued_at && now - entry.issued_at > SESSION_TTL_MS {
                        stale.push(*k);
                    }
                },
                None => {},
            }
            proof {
                assert forall|x: u128|
                    #![trigger start.contains_key(x)]
                    start.contains_key(x) && expired(start[x].issued_at, now) implies stale@.contains(x)
                        || exists|j: int| it.index() + 1 <= j < it.seq().len() && *it.seq()[j] == x by {
                    if before.contains(x) {
                        let jj = choose|jj: int| 0 <= jj < before.len() && before[jj] == x;
                        assert(stale@[jj] == x);
                    } else {
                        let j = choose|j: int| it.index() <= j < it.seq().len() && *it.seq()[j] == x;
                        if j == it.index() {
                            assert(*k == x);
                            assert(stale@[stale@.len() - 1] == x);
                        }
                    }
                }
            }
        }
        assert forall|x: u128| start.contains_key(x) && expired(start[x].issued_at, now) implies stale@.contains(x) by {
        }
        let mut i: usize = 0;
        while i < stale.len()
            invariant
                i <= stale@.len(),
                forall|j: int|
                    0 <= j < stale@.len() ==> start.contains_key(#[trigger] stale@[j]) && expired(
                        start[stale@[j]].issued_at,
                        now,
                    ),
                forall|x: u128| start.contains_key(x) && expired(start[x].issued_at, now) ==> stale@.contains(x),
                forall|x: u128|
                    #[trigger] self@.contains_key(x) <==> start.contains_key(x) && !stale@.subrange(
                        0,
                        i as int,
                    ).contains(x),
                forall|x: u128| #[trigger] self@.contains_key(x) ==> self@[x] == start[x],
            decreases stale.len() - i,
        {
            let key = stale[i];
            let ghost prev = self@;
            self.entries.remove(&key);
            assert(self@ == prev.remove(key));
            assert forall|x: u128| #[trigger] self@.contains_key(x) implies self@[x] == start[x] by {
                assert(prev.contains_key(x));
            }
            assert(stale@.subrange(0, i + 1) =~= stale@.subrange(0, i as int).push(key));
            assert forall|x: u128| stale@.subrange(0, i + 1).contains(x) <==> stale@.subrange(0, i as int).contains(x) || x == key by {
                let p = stale@.subrange(0, i as int);
                if p.push(key).contains(x) && x != key {
                    let j = choose|j: int| 0 <= j < p.len() + 1 && #[trigger] p.push(key)[j] == x;
                    assert(p[j] == x);
                }
                if p.contains(x) {
                    let j = choose|j: int| 0 <= j < p.len() && #[trigger] p[j] == x;
                    assert(p.push(key)[j] == x);
                }
                if x == key {
                    assert(p.push(key)[p.len() as int] == x);
                }
            }
            i += 1;
        }
        assert(stale@.subrange(0, stale@.len() as int) =~= stale@);
        assert forall|x: u128| stale@.contains(x) implies start.contains_key(x) && expired(start[x].issued_at, now) by {
            let j = choose|j: int| 0 <= j < stale@.len() && #[trigger] stale@[j] == x;
        }
        assert(self@ =~= start.restrict(live_keys(start, now)));
    }
}

} // verus!
