//! Turning a learner's submission into a result for the record.
use vstd::prelude::*;

use crate::digits::{
    digit_value, digits_of, lemma_digits_of_value, lemma_parse_digits_round_trip,
    parse_unsigned, parse_unsigned_spec,
};
use crate::question::{answer_key_of, Answer, ChoiceText, Question};
use crate::text::{chars_of, string_of};

verus! {

/// Why a submission was not accepted.
#[derive(Debug, Clone, Copy, PartialEq, Eq, Structural)]
pub enum SubmitError {
    /// Arrays of different lengths, an unknown question, or an answer that
    /// does not decode against its question.
    MalformedSubmission,
    /// No random token could be drawn for it.
    TokenUnavailable,
}

/// What the learner's browser hands in: the order the questions were shown
/// in, the raw answer for each, and whether each was answered correctly.
pub struct UserCookie {
    pub correct: Vec<bool>,
    pub sequence: Vec<usize>,
    pub submitted: Vec<String>,
}

/// One graded submission: `(question name, answer text)` pairs in the order
/// shown, and the score `correct / total`. The correctness flags are taken as
/// the learner's browser reports them; `Question::test` is the check that
/// the server itself can make of an answer.
#[derive(Debug)]
pub struct QuizResult {
    pub answers: Vec<(String, String)>,
    pub correct: usize,
    pub total: usize,
}

/// The number of `true` entries.
pub open spec fn count_true(s: Seq<bool>) -> nat
    decreases s.len(),
{
    if s.len() == 0 {
        0
    } else {
        count_true(s.drop_last()) + if s.last() {
            1nat
        } else {
            0nat
        }
    }
}

/// The position of the first space at or after `i`.
pub open spec fn first_space_from(s: Seq<char>, i: int) -> Option<int>
    decreases s.len() - i,
{
    if i >= s.len() {
        None
    } else if s[i] == ' ' {
        Some(i)
    } else {
        first_space_from(s, i + 1)
    }
}

/// The answer text that a raw entry stands for: what follows its first space,
/// or else the label of the fixed choice whose decimal index it is.
pub open spec fn resolve_entry(q: Question, entry: Seq<char>) -> Option<Seq<char>> {
    match first_space_from(entry, 0) {
        Some(p) => Some(entry.skip(p + 1)),
        None => match parse_unsigned_spec(entry, 10, usize::MAX as nat) {
            Some(i) => if i < q.choices_view().len() {
                match q.choices_view()[i as int]@ {
                    ChoiceText::Fixed { label } => Some(label),
                    ChoiceText::Open { .. } => None,
                }
            } else {
                None
            },
            None => None,
        },
    }
}

/// Whether entry `i` of the submission names a question and decodes against it.
pub open spec fn entry_ok(bank: Seq<Question>, c: UserCookie, i: int) -> bool {
    c.sequence@[i] < bank.len() && resolve_entry(bank[c.sequence@[i] as int], c.submitted@[i]@) is Some
}

/// Whether a submission can be graded against `bank`.
pub open spec fn submission_ok(bank: Seq<Question>, c: UserCookie) -> bool {
    &&& c.sequence@.len() == c.submitted@.len()
    &&& c.correct@.len() == c.sequence@.len()
    &&& forall|i: int| 0 <= i < c.sequence@.len() ==> #[trigger] entry_ok(bank, c, i)
}

/// Whether `res` is the grading of `c`: each shown question's name with its
/// decoded answer, in order, and the count of correct flags out of all.
pub open spec fn graded_as(bank: Seq<Question>, c: UserCookie, res: QuizResult) -> bool {
    &&& res.answers@.len() == c.sequence@.len()
    &&& res.correct == count_true(c.correct@)
    &&& res.total == c.correct@.len()
    &&& forall|i: int|
        0 <= i < res.answers@.len() ==> {
            &&& (#[trigger] res.answers@[i]).0@ == bank[c.sequence@[i] as int].name_view()
            &&& res.answers@[i].1@ == resolve_entry(bank[c.sequence@[i] as int], c.submitted@[i]@)->Some_0
        }
}

proof fn lemma_first_space_at(s: Seq<char>, j: int, p: int)
    requires
        0 <= j <= p <= s.len(),
        forall|i: int| j <= i < p ==> s[i] != ' ',
        p == s.len() || s[p] == ' ',
    ensures
        first_space_from(s, j) == if p == s.len() {
            None::<int>
        } else {
            Some(p)
        },
    decreases p - j,
{
    if j < p {
        lemma_first_space_at(s, j + 1, p);
    }
}

/// The answer key of a question decodes, as a submitted entry, to the
/// correct choice's label or, for a free-text choice, to its value.
pub proof fn lemma_answer_key_resolves(q: Question)
    requires
        q.answer_view() < q.choices_view().len(),
        q.choices_view().len() <= usize::MAX,
    ensures
        resolve_entry(q, answer_key_of(q)) == match q.choices_view()[q.answer_view() as int]@ {
            ChoiceText::Fixed { label } => Some(label),
            ChoiceText::Open { value, .. } => Some(value),
        },
{
    let a = q.answer_view();
    let d = digits_of(a, 10);
    lemma_digits_of_value(a, 10);
    assert forall|i: int| 0 <= i < d.len() implies d[i] != ' ' by {
        assert(digit_value(d[i], 10) is Some);
    }
    match q.choices_view()[a as int]@ {
        ChoiceText::Fixed { label } => {
            lemma_first_space_at(d, 0, d.len() as int);
            lemma_parse_digits_round_trip(a, 10, usize::MAX as nat);
        },
        ChoiceText::Open { value, .. } => {
            let k = d.push(' ') + value;
            assert forall|i: int| 0 <= i < d.len() implies k[i] != ' ' by {
                assert(k[i] == d[i]);
            }
            lemma_first_space_at(k, 0, d.len() as int);
            assert(k.skip(d.len() as int + 1) =~= value);
        },
    }
}

fn first_space(s: &Vec<char>) -> (r: Option<usize>)
    ensures
        match first_space_from(s@, 0) {
            Some(p) => r is Some && r->Some_0 as int == p,
            None => r is None,
        },
        r matches Some(p) ==> p < s@.len(),
{
    let mut i: usize = 0;
    while i < s.len()
        invariant
            i <= s.len(),
            first_space_from(s@, 0) == first_space_from(s@, i as int),
        decreases s.len() - i,
    {
        if s[i] == ' ' {
            return Some(i);
        }
        i += 1;
    }
    None
}

/// Decodes one raw entry against its question.
pub fn resolve_answer(question: &Question, entry: &str) -> (r: Option<String>)
    ensures
        match resolve_entry(*question, entry@) {
            Some(t) => r is Some && r->Some_0@ == t,
            None => r is None,
        },
{
    let s = chars_of(entry);
    match first_space(&s) {
        Some(p) => {
            let rest = vstd::slice::slice_subrange(s.as_slice(), p + 1, s.len());
            assert(rest@ =~= s@.skip(p + 1));
            let t = string_of(rest);
            Some(t)
        },
        None => {
            let index = match parse_unsigned(s.as_slice(), 10, usize::MAX as u128) {
                Some(v) => v as usize,
                None => {
                    return None;
                },
            };
            let choices = question.choices();
            if index >= choices.len() {
                return None;
            }
            assert(choices@[index as int] == question.choices_view()[index as int]);
            match &choices[index] {
                Answer::Choice { label } => {
                    Some(label.clone())
                },
                Answer::Subjective { .. } => None,
            }
        },
    }
}

/// Counts the `true` entries.
pub fn count_correct(flags: &[bool]) -> (r: usize)
    ensures
        r == count_true(flags@),
{
    let mut n: usize = 0;
    let mut i: usize = 0;
    while i < flags.len()
        invariant
            i <= flags.len(),
            n == count_true(flags@.subrange(0, i as int)),
            n <= i,
        decreases flags.len() - i,
    {
        assert(flags@.subrange(0, i + 1).drop_last() =~= flags@.subrange(0, i as int));
        if flags[i] {
            n += 1;
        }
        i += 1;
    }
    assert(flags@.subrange(0, flags.len() as int) =~= flags@);
    n
}

/// Grades a submission against the bank: each shown question's name with the
/// decoded answer text, and the score from the correctness flags.
pub fn resolve_submission(bank: &[Question], cookie: &UserCookie) -> (r: Result<QuizResult, SubmitError>)
    ensures
        r is Ok <==> submission_ok(bank@, *cookie),
        r is Err ==> r == Err::<QuizResult, SubmitError>(SubmitError::MalformedSubmission),
        r matches Ok(res) ==> graded_as(bank@, *cookie, res),
{
    let n = cookie.sequence.len();
    if cookie.submitted.len() != n || cookie.correct.len() != n {
        return Err(SubmitError::MalformedSubmission);
    }
    let mut answers: Vec<(String, String)> = Vec::new();
    let mut i: usize = 0;
    while i < n
        invariant
            n == cookie.sequence@.len(),
            n == cookie.submitted@.len(),
            i <= n,
            answers@.len() == i,
            forall|j: int| 0 <= j < i ==> #[trigger] entry_ok(bank@, *cookie, j),
            forall|j: int|
                0 <= j < i ==> {
                    &&& (#[trigger] answers@[j]).0@ == bank@[cookie.sequence@[j] as int].name_view()
                    &&& answers@[j].1@ == resolve_entry(
                        bank@[cookie.sequence@[j] as int],
                        cookie.submitted@[j]@,
                    )->Some_0
                },
        decreases n - i,
    {
        let index = cookie.sequence[i];
        if index >= bank.len() {
            assert(!entry_ok(bank@, *cookie, i as int));
            return Err(SubmitError::MalformedSubmission);
        }
        let question = &bank[index];
        let value = match resolve_answer(question, cookie.submitted[i].as_str()) {
            Some(v) => v,
            None => {
                assert(!entry_ok(bank@, *cookie, i as int));
                return Err(SubmitError::MalformedSubmission);
            },
        };
        let name = string_of(chars_of(question.name()).as_slice());
        answers.push((name, value));
        i += 1;
    }
    let correct = count_correct(cookie.correct.as_slice());
    Ok(QuizResult { answers, correct, total: n })
}

} // verus!
