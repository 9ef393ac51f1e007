//! Where a finished result goes: the in-memory leaderboard, last write wins,
//! and an append-only record file per identity. The two writes are
//! independent; a failure of one does not undo the other.
use vstd::prelude::*;

use crate::grading::QuizResult;

verus! {

/// The two places a result is written to.
#[derive(Debug, Clone, Copy, PartialEq, Eq, Structural)]
pub enum Sink {
    Leaderboard,
    DurableRecord,
}

/// A write that did not go through; the other write's effect stays.
#[derive(Debug, Clone, Copy, PartialEq, Eq, Structural)]
pub enum PersistError {
    PartialFailure { which: Sink },
}

/// Maps each identity to its most recent result. The entries are a list
/// with unique identities, since a `HashMap` keyed by `String` comes with no
/// usable specification of what it holds.
pub struct Leaderboard {
    entries: Vec<(String, QuizResult)>,
}

/// Whether `k` is the identity of entry `i`.
pub open spec fn key_at(s: Seq<(String, QuizResult)>, i: int, k: Seq<char>) -> bool {
    0 <= i < s.len() && s[i].0@ == k
}

impl Leaderboard {
    spec fn keys_unique(&self) -> bool {
        forall|i: int, j: int|
            0 <= i < self.entries@.len() && 0 <= j < self.entries@.len() && #[trigger] self.entries@[i].0@
                == #[trigger] self.entries@[j].0@ ==> i == j
    }

    #[verifier::type_invariant]
    spec fn well_formed(&self) -> bool {
        self.keys_unique()
    }
}

impl View for Leaderboard {
    type V = Map<Seq<char>, QuizResult>;

    closed spec fn view(&self) -> Map<Seq<char>, QuizResult> {
        Map::new(
            |k: Seq<char>| exists|i: int| key_at(self.entries@, i, k),
            |k: Seq<char>| self.entries@[choose|i: int| key_at(self.entries@, i, k)].1,
        )
    }
}

impl Leaderboard {
    pub fn new() -> (r: Leaderboard)
        ensures
            r@ == Map::<Seq<char>, QuizResult>::empty(),
    {
        let r = Leaderboard { entries: Vec::new() };
        assert(r@ =~= Map::<Seq<char>, QuizResult>::empty());
        r
    }

    pub fn len(&self) -> (r: usize)
        ensures
            r == self@.len(),
    {
        proof {
            use_type_invariant(self);
            self.lemma_dom_len();
        }
        self.entries.len()
    }

    proof fn lemma_dom_len(&self)
        requires
            self.keys_unique(),
        ensures
            self@.dom().finite(),
            self@.dom().len() == self.entries@.len(),
    {
        let s = self.entries@;
        let keys = s.map_values(|e: (String, QuizResult)| e.0@);
        assert forall|i: int, j: int| 0 <= i < keys.len() && 0 <= j < keys.len() && i != j implies keys[i] != keys[j] by {
            assert(s[i].0@ == keys[i] && s[j].0@ == keys[j]);
        }
        assert(keys.no_duplicates());
        assert(self@.dom() =~= keys.to_set()) by {
            assert forall|k: Seq<char>| self@.dom().contains(k) implies keys.to_set().contains(k) by {
                let i = choose|i: int| key_at(s, i, k);
                assert(keys[i] == k);
            }
            assert forall|k: Seq<char>| keys.to_set().contains(k) implies self@.dom().contains(k) by {
                let i = choose|i: int| 0 <= i < keys.len() && keys[i] == k;
                assert(key_at(s, i, k));
            }
        }
        keys.unique_seq_to_set();
    }

    fn find(&self, identity: &String) -> (r: Option<usize>)
        ensures
            match r {
                Some(i) => key_at(self.entries@, i as int, identity@),
                None => !self@.contains_key(identity@),
            },
    {
        let mut i: usize = 0;
        while i < self.entries.len()
            invariant
                i <= self.entries@.len(),
                forall|j: int| 0 <= j < i ==> !key_at(self.entries@, j, identity@),
            decreases self.entries.len() - i,
        {
            if self.entries[i].0 == *identity {
                return Some(i);
            }
            i += 1;
        }
        None
    }

    /// The result recorded for `identity`, if any.
    pub fn get(&self, identity: &String) -> (r: Option<&QuizResult>)
        ensures
            match r {
                Some(v) => self@.contains_key(identity@) && *v == self@[identity@],
                None => !self@.contains_key(identity@),
            },
    {
        proof {
            use_type_invariant(self);
        }
        match self.find(identity) {
            Some(i) => {
                proof {
                    let k = identity@;
                    let j = choose|j: int| key_at(self.entries@, j, k);
                    assert(self.entries@[j].0@ == self.entries@[i as int].0@);
                }
                Some(&self.entries[i].1)
            },
            None => None,
        }
    }

    /// Records `result` for `identity`, replacing what was there.
    pub fn record(&mut self, identity: String, result: QuizResult)
        ensures
            final(self)@ == old(self)@.insert(identity@, result),
    {
        proof {
            use_type_invariant(&*self);
        }
        let ghost old_entries = self.entries@;
        let ghost k = identity@;
        let ghost old_view = self@;
        let found = self.find(&identity);
        let mut entries: Vec<(String, QuizResult)> = Vec::new();
        std::mem::swap(&mut self.entries, &mut entries);
        match found {
            Some(i) => {
                entries.set(i, (identity, result));
            },
            None => {
                entries.push((identity, result));
            },
        }
        proof {
            let s = entries@;
            assert forall|i: int, j: int|
                0 <= i < s.len() && 0 <= j < s.len() && #[trigger] s[i].0@ == #[trigger] s[j].0@ implies i == j by {
                match found {
                    Some(f) => {
                        if i != f && j != f {
                            assert(old_entries[i].0@ == s[i].0@ && old_entries[j].0@ == s[j].0@);
                        } else if i != f {
                            assert(old_entries[i].0@ == k);
                            assert(old_entries[f as int].0@ == k);
                        } else if j != f {
                            assert(old_entries[j].0@ == k);
                            assert(old_entries[f as int].0@ == k);
                        }
                    },
                    None => {
                        let n = old_entries.len() as int;
                        if i < n && j < n {
                            assert(old_entries[i].0@ == s[i].0@ && old_entries[j].0@ == s[j].0@);
                        } else if i < n {
                            assert(key_at(old_entries, i, k));
                        } else if j < n {
                            assert(key_at(old_entries, j, k));
                        }
                    },
                }
            }
        }
        std::mem::swap(&mut self.entries, &mut entries);
        proof {
            let s = self.entries@;
            assert forall|i: int, j: int|
                0 <= i < s.len() && 0 <= j < s.len() && #[trigger] s[i].0@ == #[trigger] s[j].0@ implies i == j by {
                if s[i].0@ != k {
                    assert(old_entries[i].0@ == s[i].0@ && old_entries[j].0@ == s[j].0@);
                }
            }
            let w: int = match found {
                Some(f) => f as int,
                None => old_entries.len() as int,
            };
            assert(key_at(s, w, k));
            assert(s[w].1 == result);
            assert forall|x: Seq<char>| #[trigger] self@.contains_key(x) <==> old_view.insert(k, result).contains_key(x) by {
                if self@.contains_key(x) && x != k {
                    let i = choose|i: int| key_at(s, i, x);
                    assert(key_at(old_entries, i, x));
                }
                if old_view.contains_key(x) {
                    let i = choose|i: int| key_at(old_entries, i, x);
                    if x != k {
                        assert(key_at(s, i, x));
                    }
                }
            }
            assert forall|x: Seq<char>| #[trigger] self@.contains_key(x) implies self@[x] == old_view.insert(k, result)[x] by {
                let i = choose|i: int| key_at(s, i, x);
                if x == k {
                    assert(s[i].0@ == s[w].0@);
                } else {
                    assert(key_at(old_entries, i, x));
                    let j = choose|j: int| key_at(old_entries, j, x);
                    assert(old_entries[i].0@ == old_entries[j].0@);
                }
            }
            assert(self@ =~= old_view.insert(k, result));
        }
    }
}

/// The overall outcome of the two writes: a failed record write is reported
/// first, then a failed leaderboard write.
pub open spec fn outcome(leaderboard_ok: bool, durable_ok: bool) -> Result<(), PersistError> {
    if !durable_ok {
        Err(PersistError::PartialFailure { which: Sink::DurableRecord })
    } else if !leaderboard_ok {
        Err(PersistError::PartialFailure { which: Sink::Leaderboard })
    } else {
        Ok(())
    }
}

/// Combines the outcomes of the two writes.
pub fn combine_outcomes(leaderboard_ok: bool, durable_ok: bool) -> (r: Result<(), PersistError>)
    ensures
        r == outcome(leaderboard_ok, durable_ok),
{
    if !durable_ok {
        Err(PersistError::PartialFailure { which: Sink::DurableRecord })
    } else if !leaderboard_ok {
        Err(PersistError::PartialFailure { which: Sink::Leaderboard })
    } else {
        Ok(())
    }
}

/// Finishes a submission once its identity is known: the leaderboard entry
/// is written whatever became of the record write (`durable_ok`), and the
/// outcome says which write failed.
pub fn finalize(board: &mut Leaderboard, identity: String, result: QuizResult, durable_ok: bool) -> (r: Result<(), PersistError>)
    ensures
        final(board)@ == old(board)@.insert(identity@, result),
        r == outcome(true, durable_ok),
{
    board.record(identity, result);
    combine_outcomes(true, durable_ok)
}

/// A record write that fails does not hold back the leaderboard: the entry
/// for the identity is the new result, and the failure of the record write
/// is what the caller is told.
pub proof fn lemma_durable_fault_keeps_leaderboard(
    board: Map<Seq<char>, QuizResult>,
    identity: Seq<char>,
    result: QuizResult,
)
    ensures
        board.insert(identity, result).contains_key(identity),
        board.insert(identity, result)[identity] == result,
        outcome(true, false) == Err::<(), PersistError>(
            PersistError::PartialFailure { which: Sink::DurableRecord },
        ),
{
}

} // verus!
