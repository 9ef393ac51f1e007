//! The question document format and its parser.
//!
//! A document is read line by line (lines end at `\n`, and a `\r` before that
//! `\n` is dropped). It starts with a `# ` title line, then free description
//! lines, an optional code block fenced by a line starting with three backticks
//! and `rs` and a closing line of three backticks, then the choices: one per
//! line, each starting with `- [ ] ` or, for the one correct choice, `- [x] `.
//! A choice line ending in `: [value]` is a free-text choice.
use vstd::prelude::*;

use crate::question::{Answer, ChoiceText, Question};
use crate::text::{chars_of, string_of};

verus! {

/// Why a document is not a valid question.
#[derive(Debug, Clone, Copy, PartialEq, Eq, Structural)]
pub enum ParseError {
    TitleMissing,
    AnswerMissing,
    DuplicateAnswer,
    InvalidChoiceLine,
}

/// Which part of the document the scan is in.
#[derive(Debug, Clone, Copy, PartialEq, Eq, Structural)]
pub enum Mode {
    Title,
    Description,
    Code,
    Choices,
}

/// What the scan has gathered so far.
pub struct ParseModel {
    pub mode: Mode,
    pub title: Option<Seq<char>>,
    pub description: Seq<char>,
    pub code: Seq<char>,
    pub choices: Seq<ChoiceText>,
    /// For each choice, whether its line carried the checked marker.
    pub marks: Seq<bool>,
    pub answer: Option<nat>,
}

pub open spec fn title_marker() -> Seq<char> {
    seq!['#', ' ']
}

pub open spec fn code_open_marker() -> Seq<char> {
    seq!['`', '`', '`', 'r', 's']
}

pub open spec fn code_fence() -> Seq<char> {
    seq!['`', '`', '`']
}

pub open spec fn choice_start() -> Seq<char> {
    seq!['-', ' ', '[']
}

pub open spec fn unchecked_marker() -> Seq<char> {
    seq!['-', ' ', '[', ' ', ']', ' ']
}

pub open spec fn checked_marker() -> Seq<char> {
    seq!['-', ' ', '[', 'x', ']', ' ']
}

/// Both choice markers have this many characters.
pub open spec fn marker_len() -> int {
    6
}

pub open spec fn starts_with(l: Seq<char>, p: Seq<char>) -> bool {
    p.len() <= l.len() && forall|i: int| 0 <= i < p.len() ==> #[trigger] l[i] == p[i]
}

/// Whether `: [` starts at position `p` of `l`.
pub open spec fn is_sep_at(l: Seq<char>, p: int) -> bool {
    0 <= p && p + 3 <= l.len() && l[p] == ':' && l[p + 1] == ' ' && l[p + 2] == '['
}

/// The last position at or after the marker where `: [` starts and ends by `end`.
pub open spec fn last_sep_before(l: Seq<char>, end: int) -> Option<int>
    decreases end,
{
    if end < marker_len() + 3 {
        None
    } else if is_sep_at(l, end - 3) {
        Some(end - 3)
    } else {
        last_sep_before(l, end - 1)
    }
}

/// The choice that a marked line describes, if it is well formed.
pub open spec fn choice_of(l: Seq<char>) -> Option<ChoiceText> {
    if l.len() > 0 && l.last() == ']' {
        match last_sep_before(l, l.len() - 1) {
            Some(p) => Some(
                ChoiceText::Open {
                    label: l.subrange(marker_len(), p),
                    value: l.subrange(p + 3, l.len() - 1),
                },
            ),
            None => None,
        }
    } else {
        Some(ChoiceText::Fixed { label: l.skip(marker_len()) })
    }
}

pub open spec fn add_choice(m: ParseModel, l: Seq<char>, checked: bool) -> Result<ParseModel, ParseError> {
    match choice_of(l) {
        Some(c) => Ok(ParseModel { choices: m.choices.push(c), marks: m.marks.push(checked), ..m }),
        None => Err(ParseError::InvalidChoiceLine),
    }
}

pub open spec fn choice_step(m: ParseModel, l: Seq<char>) -> Result<ParseModel, ParseError> {
    if starts_with(l, unchecked_marker()) {
        add_choice(m, l, false)
    } else if starts_with(l, checked_marker()) {
        if m.answer is Some {
            Err(ParseError::DuplicateAnswer)
        } else {
            add_choice(ParseModel { answer: Some(m.choices.len()), ..m }, l, true)
        }
    } else {
        Err(ParseError::InvalidChoiceLine)
    }
}

/// How one line changes the scan.
pub open spec fn step(m: ParseModel, l: Seq<char>) -> Result<ParseModel, ParseError> {
    match m.mode {
        Mode::Title => if l.len() == 0 {
            Ok(m)
        } else if starts_with(l, title_marker()) {
            Ok(ParseModel { mode: Mode::Description, title: Some(l.skip(2)), ..m })
        } else {
            Err(ParseError::TitleMissing)
        },
        Mode::Description => if l.len() == 0 {
            Ok(m)
        } else if starts_with(l, code_open_marker()) {
            Ok(ParseModel { mode: Mode::Code, ..m })
        } else if l == code_fence() {
            Ok(ParseModel { mode: Mode::Choices, ..m })
        } else if starts_with(l, choice_start()) {
            choice_step(ParseModel { mode: Mode::Choices, ..m }, l)
        } else {
            Ok(ParseModel { description: m.description + l.push('\n'), ..m })
        },
        Mode::Code => if l == code_fence() {
            Ok(ParseModel { mode: Mode::Choices, ..m })
        } else {
            Ok(ParseModel { code: m.code + l.push('\n'), ..m })
        },
        Mode::Choices => if l.len() == 0 {
            Ok(m)
        } else {
            choice_step(m, l)
        },
    }
}

/// The position of the first `\n` at or after `start`, or the length of `s`.
pub open spec fn line_end(s: Seq<char>, start: int) -> int
    decreases s.len() - start,
{
    if start >= s.len() {
        s.len() as int
    } else if s[start] == '\n' {
        start
    } else {
        line_end(s, start + 1)
    }
}

/// The line from `start` to `end`, without a `\r` that precedes its `\n`.
pub open spec fn line_at(s: Seq<char>, start: int, end: int) -> Seq<char> {
    let l = s.subrange(start, end);
    if end < s.len() && l.len() > 0 && l.last() == '\r' {
        l.drop_last()
    } else {
        l
    }
}

/// Runs the scan over the lines of `s` from `start` on.
pub open spec fn scan_from(s: Seq<char>, start: int, m: ParseModel) -> Result<ParseModel, ParseError>
    decreases s.len() + 1 - start,
{
    if start >= s.len() {
        Ok(m)
    } else {
        let e = line_end(s, start);
        proof {
            lemma_line_end_bounds(s, start);
        }
        match step(m, line_at(s, start, e)) {
            Ok(next) => scan_from(s, e + 1, next),
            Err(err) => Err(err),
        }
    }
}

pub proof fn lemma_line_end_bounds(s: Seq<char>, start: int)
    ensures
        start <= s.len() ==> start <= line_end(s, start) <= s.len(),
        0 <= start && line_end(s, start) < s.len() ==> s[line_end(s, start)] == '\n',
    decreases s.len() - start,
{
    if start < s.len() && s[start] != '\n' {
        lemma_line_end_bounds(s, start + 1);
    }
}

proof fn lemma_line_end_at(s: Seq<char>, start: int, i: int)
    requires
        0 <= start <= i <= s.len(),
        forall|k: int| start <= k < i ==> s[k] != '\n',
        i == s.len() || s[i] == '\n',
    ensures
        line_end(s, start) == i,
    decreases i - start,
{
    if start < i {
        lemma_line_end_at(s, start + 1, i);
    }
}

/// Whether a line of `s` begins at `p` with `marker`.
pub open spec fn line_starts_with(s: Seq<char>, p: int, marker: Seq<char>) -> bool {
    &&& 0 <= p
    &&& (p == 0 || s[p - 1] == '\n')
    &&& p + marker.len() <= s.len()
    &&& forall|i: int| 0 <= i < marker.len() ==> s[p + i] == #[trigger] marker[i]
}

/// Whether some line of `s` is a title line.
pub open spec fn has_title_line(s: Seq<char>) -> bool {
    exists|p: int| line_starts_with(s, p, title_marker())
}

/// Whether some line of `s` starts with the checked marker.
pub open spec fn has_checked_line(s: Seq<char>) -> bool {
    exists|p: int| line_starts_with(s, p, checked_marker())
}

/// Where a scan may stand: the start of the text, just after a line break,
/// or past the end.
pub open spec fn at_line_start(s: Seq<char>, start: int) -> bool {
    start == 0 || start > s.len() || (0 < start <= s.len() && s[start - 1] == '\n')
}

/// Every choice is marked unchecked but the one at `answer`, if any.
pub open spec fn marks_agree(m: ParseModel) -> bool {
    &&& m.marks.len() == m.choices.len()
    &&& match m.answer {
        Some(a) => a < m.marks.len() && m.marks[a as int] && forall|j: int|
            0 <= j < m.marks.len() && j != a ==> !#[trigger] m.marks[j],
        None => forall|j: int| 0 <= j < m.marks.len() ==> !#[trigger] m.marks[j],
    }
}

proof fn lemma_line_prefix(s: Seq<char>, start: int, marker: Seq<char>)
    requires
        0 <= start < s.len(),
        at_line_start(s, start),
        starts_with(line_at(s, start, line_end(s, start)), marker),
    ensures
        line_starts_with(s, start, marker),
{
    lemma_line_end_bounds(s, start);
    let e = line_end(s, start);
    let l = line_at(s, start, e);
    assert forall|i: int| 0 <= i < marker.len() implies s[start + i] == #[trigger] marker[i] by {
        assert(l[i] == marker[i]);
        assert(l[i] == s.subrange(start, e)[i]);
    }
}

proof fn lemma_step_marks(m: ParseModel, l: Seq<char>)
    requires
        marks_agree(m),
    ensures
        step(m, l) matches Ok(next) ==> marks_agree(next),
{
    if step(m, l) is Ok {
        let next = step(m, l)->Ok_0;
        if next.marks.len() > m.marks.len() {
            assert(next.marks.drop_last() =~= m.marks);
            assert forall|j: int| 0 <= j < m.marks.len() implies next.marks[j] == m.marks[j] by {
                assert(next.marks.drop_last()[j] == next.marks[j]);
            }
        } else {
            assert(next.marks == m.marks);
        }
    }
}

proof fn lemma_scan_marks(s: Seq<char>, start: int, m: ParseModel)
    requires
        marks_agree(m),
    ensures
        scan_from(s, start, m) matches Ok(end) ==> marks_agree(end),
    decreases s.len() + 1 - start,
{
    if start < s.len() {
        lemma_line_end_bounds(s, start);
        let e = line_end(s, start);
        lemma_step_marks(m, line_at(s, start, e));
        if step(m, line_at(s, start, e)) is Ok {
            lemma_scan_marks(s, e + 1, step(m, line_at(s, start, e))->Ok_0);
        }
    }
}

/// A parsed question's correct choice is the one whose line carries the
/// checked marker: exactly one choice is marked, and the answer index is its
/// position among all choices.
pub proof fn lemma_answer_is_marked_choice(s: Seq<char>)
    ensures
        parse_document(s) matches Ok(m) ==> {
            &&& m.answer matches Some(a)
            &&& m.marks.len() == m.choices.len()
            &&& m.answer->0 < m.choices.len()
            &&& m.marks[m.answer->0 as int]
            &&& forall|j: int| 0 <= j < m.marks.len() && j != m.answer->0 ==> !#[trigger] m.marks[j]
        },
{
    assert(marks_agree(initial_model()));
    lemma_scan_marks(s, 0, initial_model());
}

proof fn lemma_scan_untitled(s: Seq<char>, start: int, m: ParseModel)
    requires
        !has_title_line(s),
        m.mode == Mode::Title,
        m.title is None,
        0 <= start,
        at_line_start(s, start),
    ensures
        match scan_from(s, start, m) {
            Ok(end) => end.title is None,
            Err(e) => e == ParseError::TitleMissing,
        },
    decreases s.len() + 1 - start,
{
    if start < s.len() {
        lemma_line_end_bounds(s, start);
        let e = line_end(s, start);
        let l = line_at(s, start, e);
        if l.len() != 0 && starts_with(l, title_marker()) {
            lemma_line_prefix(s, start, title_marker());
            assert(line_starts_with(s, start, title_marker()));
        }
        if l.len() == 0 {
            lemma_scan_untitled(s, e + 1, m);
        }
    }
}

/// A document without a title line fails with `TitleMissing`.
pub proof fn lemma_untitled_document(s: Seq<char>)
    requires
        !has_title_line(s),
    ensures
        parse_document(s) == Err::<ParseModel, ParseError>(ParseError::TitleMissing),
{
    lemma_scan_untitled(s, 0, initial_model());
}

proof fn lemma_scan_unchecked(s: Seq<char>, start: int, m: ParseModel)
    requires
        !has_checked_line(s),
        m.answer is None,
        0 <= start,
        at_line_start(s, start),
    ensures
        scan_from(s, start, m) matches Ok(end) ==> end.answer is None,
    decreases s.len() + 1 - start,
{
    if start < s.len() {
        lemma_line_end_bounds(s, start);
        let e = line_end(s, start);
        let l = line_at(s, start, e);
        if starts_with(l, checked_marker()) {
            lemma_line_prefix(s, start, checked_marker());
            assert(line_starts_with(s, start, checked_marker()));
        }
        if step(m, l) is Ok {
            lemma_scan_unchecked(s, e + 1, step(m, l)->Ok_0);
        }
    }
}

/// A document without a checked choice line never parses; one that is
/// otherwise complete, with its title, fails with `AnswerMissing`.
pub proof fn lemma_unchecked_document(s: Seq<char>)
    requires
        !has_checked_line(s),
    ensures
        parse_document(s) is Err,
        scan_from(s, 0, initial_model()) matches Ok(m) && m.title is Some ==> parse_document(s)
            == Err::<ParseModel, ParseError>(ParseError::AnswerMissing),
{
    lemma_scan_unchecked(s, 0, initial_model());
}

/// Once a choice is checked, a further checked choice line fails with
/// `DuplicateAnswer`.
pub proof fn lemma_second_checked_line(s: Seq<char>, start: int, m: ParseModel)
    requires
        0 <= start < s.len(),
        m.answer is Some,
        m.mode == Mode::Choices || m.mode == Mode::Description,
        starts_with(line_at(s, start, line_end(s, start)), checked_marker()),
    ensures
        scan_from(s, start, m) == Err::<ParseModel, ParseError>(ParseError::DuplicateAnswer),
{
    let l = line_at(s, start, line_end(s, start));
    assert(l[0] == '-');
    assert(!starts_with(l, unchecked_marker())) by {
        assert(l[3] == 'x');
    }
    assert(l != code_fence()) by {
        assert(code_fence()[0] == '`');
    }
    assert(!starts_with(l, code_open_marker())) by {
        assert(code_open_marker()[0] == '`');
    }
    assert(starts_with(l, choice_start())) by {
        assert forall|i: int| 0 <= i < choice_start().len() implies l[i] == #[trigger] choice_start()[i] by {
            assert(checked_marker()[i] == choice_start()[i]);
        }
    }
}

/// Lines joined into a text, each followed by a line break.
pub open spec fn join_lines(ls: Seq<Seq<char>>) -> Seq<char>
    decreases ls.len(),
{
    if ls.len() == 0 {
        seq![]
    } else {
        ls[0] + seq!['\n'] + join_lines(ls.skip(1))
    }
}

/// A line as a text can hold it: no line break in it and no carriage return
/// at its end.
pub open spec fn plain_line(l: Seq<char>) -> bool {
    &&& forall|i: int| 0 <= i < l.len() ==> #[trigger] l[i] != '\n'
    &&& !(l.len() > 0 && l.last() == '\r')
}

/// The scan run over a list of lines.
pub open spec fn steps(ls: Seq<Seq<char>>, m: ParseModel) -> Result<ParseModel, ParseError>
    decreases ls.len(),
{
    if ls.len() == 0 {
        Ok(m)
    } else {
        match step(m, ls[0]) {
            Ok(next) => steps(ls.skip(1), next),
            Err(e) => Err(e),
        }
    }
}

/// A well-formed choice line: a marker, then a label, or a label and a
/// `: [value]`.
pub open spec fn is_choice_line(l: Seq<char>) -> bool {
    &&& starts_with(l, unchecked_marker()) || starts_with(l, checked_marker())
    &&& choice_of(l) is Some
}

/// How many of the lines carry the checked marker.
pub open spec fn checked_count(cs: Seq<Seq<char>>) -> nat
    decreases cs.len(),
{
    if cs.len() == 0 {
        0
    } else {
        (if starts_with(cs[0], checked_marker()) {
            1nat
        } else {
            0nat
        }) + checked_count(cs.skip(1))
    }
}

/// The position of the first line that carries the checked marker.
pub open spec fn first_checked(cs: Seq<Seq<char>>) -> Option<nat>
    decreases cs.len(),
{
    if cs.len() == 0 {
        None
    } else if starts_with(cs[0], checked_marker()) {
        Some(0)
    } else {
        match first_checked(cs.skip(1)) {
            Some(j) => Some(j + 1),
            None => None,
        }
    }
}

proof fn lemma_first_checked(cs: Seq<Seq<char>>)
    ensures
        checked_count(cs) >= 1 <==> first_checked(cs) is Some,
        first_checked(cs) matches Some(j) ==> j < cs.len() && starts_with(cs[j as int], checked_marker()),
    decreases cs.len(),
{
    if cs.len() > 0 {
        lemma_first_checked(cs.skip(1));
        if let Some(j) = first_checked(cs.skip(1)) {
            assert(cs.skip(1)[j as int] == cs[j as int + 1]);
        }
    }
}

proof fn lemma_scan_joined(p: Seq<char>, ls: Seq<Seq<char>>, m: ParseModel)
    requires
        forall|i: int| 0 <= i < ls.len() ==> plain_line(#[trigger] ls[i]),
    ensures
        scan_from(p + join_lines(ls), p.len() as int, m) == steps(ls, m),
    decreases ls.len(),
{
    let s = p + join_lines(ls);
    if ls.len() == 0 {
        assert(s =~= p);
    } else {
        let l = ls[0];
        let rest = ls.skip(1);
        assert(plain_line(l));
        let q = p + l + seq!['\n'];
        assert(s =~= q + join_lines(rest));
        let e = (p.len() + l.len()) as int;
        assert forall|k: int| p.len() <= k < e implies s[k] != '\n' by {
            assert(s[k] == l[k - p.len()]);
        }
        assert(s[e] == '\n');
        lemma_line_end_at(s, p.len() as int, e);
        assert(s.subrange(p.len() as int, e) =~= l);
        assert(line_at(s, p.len() as int, e) == l);
        assert forall|i: int| 0 <= i < rest.len() implies plain_line(#[trigger] rest[i]) by {
            assert(rest[i] == ls[i + 1]);
        }
        if step(m, l) is Ok {
            lemma_scan_joined(q, rest, step(m, l)->Ok_0);
        }
    }
}

proof fn lemma_choice_step(m: ParseModel, l: Seq<char>)
    requires
        m.mode == Mode::Choices || m.mode == Mode::Description,
        is_choice_line(l),
    ensures
        step(m, l) == choice_step(ParseModel { mode: Mode::Choices, ..m }, l),
        starts_with(l, checked_marker()) ==> !starts_with(l, unchecked_marker()),
{
    assert(l[0] == '-');
    assert(starts_with(l, checked_marker()) ==> !starts_with(l, unchecked_marker())) by {
        if starts_with(l, checked_marker()) {
            assert(l[3] == 'x');
        }
    }
    assert(!starts_with(l, code_open_marker())) by {
        assert(code_open_marker()[0] == '`');
    }
    assert(l != code_fence()) by {
        assert(code_fence()[0] == '`');
    }
    if m.mode == Mode::Description {
        assert(starts_with(l, choice_start())) by {
            assert forall|i: int| 0 <= i < choice_start().len() implies l[i] == #[trigger] choice_start()[i] by {
                assert(unchecked_marker()[i] == choice_start()[i]);
                assert(checked_marker()[i] == choice_start()[i]);
            }
        }
    } else {
        assert(ParseModel { mode: Mode::Choices, ..m } == m);
    }
}

proof fn lemma_steps_choices(cs: Seq<Seq<char>>, m: ParseModel)
    requires
        m.mode == Mode::Choices || m.mode == Mode::Description,
        forall|i: int| 0 <= i < cs.len() ==> is_choice_line(#[trigger] cs[i]),
        checked_count(cs) <= 1,
        m.answer is Some ==> checked_count(cs) == 0,
    ensures
        steps(cs, m) is Ok,
        steps(cs, m)->Ok_0.title == m.title,
        steps(cs, m)->Ok_0.choices.len() == m.choices.len() + cs.len(),
        steps(cs, m)->Ok_0.answer == match first_checked(cs) {
            Some(j) => Some(m.choices.len() + j),
            None => m.answer,
        },
    decreases cs.len(),
{
    if cs.len() > 0 {
        let l = cs[0];
        let rest = cs.skip(1);
        lemma_choice_step(m, l);
        assert forall|i: int| 0 <= i < rest.len() implies is_choice_line(#[trigger] rest[i]) by {
            assert(rest[i] == cs[i + 1]);
        }
        let next = step(m, l)->Ok_0;
        lemma_steps_choices(rest, next);
        lemma_first_checked(rest);
        assert(next.choices.len() == m.choices.len() + 1);
        if starts_with(l, checked_marker()) {
            assert(next.answer == Some(m.choices.len()));
        } else {
            assert(next.answer == m.answer);
        }
    }
}

proof fn lemma_steps_duplicate(cs: Seq<Seq<char>>, m: ParseModel)
    requires
        m.mode == Mode::Choices || m.mode == Mode::Description,
        forall|i: int| 0 <= i < cs.len() ==> is_choice_line(#[trigger] cs[i]),
        checked_count(cs) >= 2 || (m.answer is Some && checked_count(cs) >= 1),
    ensures
        steps(cs, m) == Err::<ParseModel, ParseError>(ParseError::DuplicateAnswer),
    decreases cs.len(),
{
    let l = cs[0];
    let rest = cs.skip(1);
    lemma_choice_step(m, l);
    assert forall|i: int| 0 <= i < rest.len() implies is_choice_line(#[trigger] rest[i]) by {
        assert(rest[i] == cs[i + 1]);
    }
    if !(starts_with(l, checked_marker()) && m.answer is Some) {
        lemma_steps_duplicate(rest, step(m, l)->Ok_0);
    }
}

proof fn lemma_title_then_choices(title: Seq<char>, cs: Seq<Seq<char>>)
    requires
        plain_line(title),
        starts_with(title, title_marker()),
        forall|i: int| 0 <= i < cs.len() ==> plain_line(#[trigger] cs[i]),
    ensures
        parse_document(join_lines(seq![title] + cs)) == match steps(
            cs,
            ParseModel { mode: Mode::Description, title: Some(title.skip(2)), ..initial_model() },
        ) {
            Ok(m) => finish(m),
            Err(e) => Err(e),
        },
{
    let ls = seq![title] + cs;
    assert forall|i: int| 0 <= i < ls.len() implies plain_line(#[trigger] ls[i]) by {
        if i > 0 {
            assert(ls[i] == cs[i - 1]);
        }
    }
    lemma_scan_joined(seq![], ls, initial_model());
    assert(seq![] + join_lines(ls) =~= join_lines(ls));
    assert(ls.skip(1) =~= cs);
    assert(title.len() > 0);
}

/// A document of a title line and well-formed choice lines, exactly one of
/// them checked, parses: it has one choice per choice line, and its answer
/// index is the position of the checked line among them.
pub proof fn lemma_well_formed_document_parses(title: Seq<char>, cs: Seq<Seq<char>>)
    requires
        plain_line(title),
        starts_with(title, title_marker()),
        forall|i: int| 0 <= i < cs.len() ==> plain_line(#[trigger] cs[i]) && is_choice_line(cs[i]),
        checked_count(cs) == 1,
    ensures
        parse_document(join_lines(seq![title] + cs)) is Ok,
        parse_document(join_lines(seq![title] + cs))->Ok_0.choices.len() == cs.len(),
        parse_document(join_lines(seq![title] + cs))->Ok_0.answer == first_checked(cs),
        starts_with(cs[first_checked(cs)->0 as int], checked_marker()),
{
    lemma_title_then_choices(title, cs);
    lemma_first_checked(cs);
    lemma_steps_choices(cs, ParseModel { mode: Mode::Description, title: Some(title.skip(2)), ..initial_model() });
}

/// A document of a title line and well-formed choice lines, none of them
/// checked, fails with `AnswerMissing`.
pub proof fn lemma_document_without_checked_line(title: Seq<char>, cs: Seq<Seq<char>>)
    requires
        plain_line(title),
        starts_with(title, title_marker()),
        forall|i: int| 0 <= i < cs.len() ==> plain_line(#[trigger] cs[i]) && is_choice_line(cs[i]),
        checked_count(cs) == 0,
    ensures
        parse_document(join_lines(seq![title] + cs)) == Err::<ParseModel, ParseError>(
            ParseError::AnswerMissing,
        ),
{
    lemma_title_then_choices(title, cs);
    lemma_first_checked(cs);
    lemma_steps_choices(cs, ParseModel { mode: Mode::Description, title: Some(title.skip(2)), ..initial_model() });
}

/// A document of a title line and well-formed choice lines, two or more of
/// them checked, fails with `DuplicateAnswer`.
pub proof fn lemma_document_with_two_checked_lines(title: Seq<char>, cs: Seq<Seq<char>>)
    requires
        plain_line(title),
        starts_with(title, title_marker()),
        forall|i: int| 0 <= i < cs.len() ==> plain_line(#[trigger] cs[i]) && is_choice_line(cs[i]),
        checked_count(cs) >= 2,
    ensures
        parse_document(join_lines(seq![title] + cs)) == Err::<ParseModel, ParseError>(
            ParseError::DuplicateAnswer,
        ),
{
    lemma_title_then_choices(title, cs);
    lemma_steps_duplicate(cs, ParseModel { mode: Mode::Description, title: Some(title.skip(2)), ..initial_model() });
}

pub open spec fn initial_model() -> ParseModel {
    ParseModel {
        mode: Mode::Title,
        title: None,
        description: seq![],
        code: seq![],
        choices: seq![],
        marks: seq![],
        answer: None,
    }
}

pub open spec fn finish(m: ParseModel) -> Result<ParseModel, ParseError> {
    if m.title is None {
        Err(ParseError::TitleMissing)
    } else if m.answer is None {
        Err(ParseError::AnswerMissing)
    } else {
        Ok(m)
    }
}

/// The outcome of reading a whole document.
pub open spec fn parse_document(s: Seq<char>) -> Result<ParseModel, ParseError> {
    match scan_from(s, 0, initial_model()) {
        Ok(m) => finish(m),
        Err(e) => Err(e),
    }
}

/// Whether a question holds what a finished scan gathered.
pub open spec fn question_matches(q: Question, m: ParseModel) -> bool {
    &&& m.title == Some(q.name_view())
    &&& q.description_view() == m.description
    &&& q.code_view() == m.code
    &&& q.choices_view().map_values(|a: Answer| a@) == m.choices
    &&& m.answer == Some(q.answer_view())
}

struct Scan {
    mode: Mode,
    title: Option<Vec<char>>,
    description: Vec<char>,
    code: Vec<char>,
    choices: Vec<Answer>,
    marks: Ghost<Seq<bool>>,
    answer: Option<usize>,
}

impl Scan {
    spec fn model(&self) -> ParseModel {
        ParseModel {
            mode: self.mode,
            title: match self.title {
                Some(t) => Some(t@),
                None => None,
            },
            description: self.description@,
            code: self.code@,
            choices: self.choices@.map_values(|a: Answer| a@),
            marks: self.marks@,
            answer: match self.answer {
                Some(a) => Some(a as nat),
                None => None,
            },
        }
    }

    spec fn answer_in_range(&self) -> bool {
        self.answer matches Some(a) ==> a < self.choices.len()
    }

    fn add_choice(&mut self, line: &Vec<char>, checked: bool) -> (r: Result<(), ParseError>)
        requires
            line.len() >= marker_len(),
            old(self).answer matches Some(a) ==> a <= old(self).choices.len(),
        ensures
            match add_choice(old(self).model(), line@, checked) {
                Ok(m) => r is Ok && final(self).model() == m && final(self).choices.len()
                    == old(self).choices.len() + 1,
                Err(e) => r == Err::<(), ParseError>(e),
            },
            final(self).answer == old(self).answer,
            final(self).choices.len() >= old(self).choices.len(),
            r is Ok ==> final(self).answer_in_range(),
    {
        match choice_from_line(line) {
            None => Err(ParseError::InvalidChoiceLine),
            Some(c) => {
                let ghost before = self.model();
                let ghost cv = c@;
                self.choices.push(c);
                self.marks = Ghost(self.marks@.push(checked));
                proof {
                    assert(self.model().choices =~= before.choices.push(cv));
                    assert(self.model() == ParseModel {
                        choices: before.choices.push(cv),
                        marks: before.marks.push(checked),
                        ..before
                    });
                }
                Ok(())
            },
        }
    }

    fn choice_step(&mut self, line: &Vec<char>) -> (r: Result<(), ParseError>)
        requires
            old(self).answer_in_range(),
        ensures
            match choice_step(old(self).model(), line@) {
                Ok(m) => r is Ok && final(self).model() == m,
                Err(e) => r == Err::<(), ParseError>(e),
            },
            final(self).answer_in_range(),
    {
        let unchecked = vec!['-', ' ', '[', ' ', ']', ' '];
        let checked = vec!['-', ' ', '[', 'x', ']', ' '];
        assert(unchecked@ =~= unchecked_marker());
        assert(checked@ =~= checked_marker());
        if has_prefix(line, &unchecked) {
            self.add_choice(line, false)
        } else if has_prefix(line, &checked) {
            if self.answer.is_some() {
                return Err(ParseError::DuplicateAnswer);
            }
            let ghost before = self.model();
            self.answer = Some(self.choices.len());
            assert(self.model() == ParseModel { answer: Some(before.choices.len()), ..before });
            let r = self.add_choice(line, true);
            if r.is_err() {
                self.answer = None;
            }
            r
        } else {
            Err(ParseError::InvalidChoiceLine)
        }
    }

    fn step(&mut self, line: &Vec<char>) -> (r: Result<(), ParseError>)
        requires
            old(self).answer_in_range(),
        ensures
            match step(old(self).model(), line@) {
                Ok(m) => r is Ok && final(self).model() == m,
                Err(e) => r == Err::<(), ParseError>(e),
            },
            final(self).answer_in_range(),
    {
        let ghost before = self.model();
        match self.mode {
            Mode::Title => {
                if line.len() == 0 {
                    return Ok(());
                }
                let title = vec!['#', ' '];
                assert(title@ =~= title_marker());
                if has_prefix(line, &title) {
                    let t = copy_range(line, 2, line.len());
                    self.title = Some(t);
                    self.mode = Mode::Description;
                    assert(self.model().title->0 =~= line@.skip(2));
                    assert(self.model() == ParseModel {
                        mode: Mode::Description,
                        title: Some(line@.skip(2)),
                        ..before
                    });
                    Ok(())
                } else {
                    Err(ParseError::TitleMissing)
                }
            },
            Mode::Description => {
                if line.len() == 0 {
                    return Ok(());
                }
                let open = vec!['`', '`', '`', 'r', 's'];
                assert(open@ =~= code_open_marker());
                let start = vec!['-', ' ', '['];
                assert(start@ =~= choice_start());
                if has_prefix(line, &open) {
                    self.mode = Mode::Code;
                    Ok(())
                } else if is_fence(line) {
                    self.mode = Mode::Choices;
                    Ok(())
                } else if has_prefix(line, &start) {
                    self.mode = Mode::Choices;
                    self.choice_step(line)
                } else {
                    append_line(&mut self.description, line);
                    assert(self.model() == ParseModel {
                        description: before.description + line@.push('\n'),
                        ..before
                    });
                    Ok(())
                }
            },
            Mode::Code => {
                if is_fence(line) {
                    self.mode = Mode::Choices;
                    Ok(())
                } else {
                    append_line(&mut self.code, line);
                    assert(self.model() == ParseModel {
                        code: before.code + line@.push('\n'),
                        ..before
                    });
                    Ok(())
                }
            },
            Mode::Choices => {
                if line.len() == 0 {
                    return Ok(());
                }
                self.choice_step(line)
            },
        }
    }
}

fn has_prefix(l: &Vec<char>, p: &Vec<char>) -> (r: bool)
    ensures
        r == starts_with(l@, p@),
{
    if p.len() > l.len() {
        return false;
    }
    let mut i: usize = 0;
    while i < p.len()
        invariant
            p.len() <= l.len(),
            i <= p.len(),
            forall|k: int| 0 <= k < i ==> l@[k] == p@[k],
        decreases p.len() - i,
    {
        if l[i] != p[i] {
            return false;
        }
        i += 1;
    }
    true
}

/// Whether the line is exactly three backticks.
fn is_fence(l: &Vec<char>) -> (r: bool)
    ensures
        r == (l@ == code_fence()),
{
    let r = l.len() == 3 && l[0] == '`' && l[1] == '`' && l[2] == '`';
    if r {
        assert(l@ =~= code_fence());
    }
    r
}

fn append_line(dst: &mut Vec<char>, line: &Vec<char>)
    ensures
        final(dst)@ == old(dst)@ + line@.push('\n'),
{
    let mut i: usize = 0;
    while i < line.len()
        invariant
            i <= line.len(),
            dst@ == old(dst)@ + line@.subrange(0, i as int),
        decreases line.len() - i,
    {
        dst.push(line[i]);
        i += 1;
        assert(dst@ =~= old(dst)@ + line@.subrange(0, i as int));
    }
    dst.push('\n');
    assert(dst@ =~= old(dst)@ + line@.push('\n'));
}

fn copy_range(l: &Vec<char>, from: usize, to: usize) -> (r: Vec<char>)
    requires
        from <= to <= l.len(),
    ensures
        r@ == l@.subrange(from as int, to as int),
{
    let mut r: Vec<char> = Vec::new();
    let mut i: usize = from;
    while i < to
        invariant
            from <= i <= to <= l.len(),
            r@ == l@.subrange(from as int, i as int),
        decreases to - i,
    {
        r.push(l[i]);
        i += 1;
        assert(r@ =~= l@.subrange(from as int, i as int));
    }
    r
}

fn text_range(l: &Vec<char>, from: usize, to: usize) -> (r: String)
    requires
        from <= to <= l.len(),
    ensures
        r@ == l@.subrange(from as int, to as int),
{
    let v = copy_range(l, from, to);
    string_of(v.as_slice())
}

/// The choice that a marked line describes, if it is well formed.
fn choice_from_line(l: &Vec<char>) -> (r: Option<Answer>)
    requires
        l.len() >= marker_len(),
    ensures
        match choice_of(l@) {
            Some(c) => r is Some && r->Some_0@ == c,
            None => r is None,
        },
{
    let n = l.len();
    assert(l@.last() == l@[n - 1]);
    if l[n - 1] != ']' {
        let label = text_range(l, 6, n);
        assert(label@ =~= l@.skip(marker_len()));
        return Some(Answer::Choice { label });
    }
    let mut end: usize = n - 1;
    while end >= 9
        invariant
            end <= n - 1,
            n == l.len(),
            l@.last() == ']',
            last_sep_before(l@, n - 1) == last_sep_before(l@, end as int),
        decreases end,
    {
        if l[end - 3] == ':' && l[end - 2] == ' ' && l[end - 1] == '[' {
            let label = text_range(l, 6, end - 3);
            let value = text_range(l, end, n - 1);
            assert(is_sep_at(l@, end - 3));
            assert(last_sep_before(l@, end as int) == Some(end - 3));
            return Some(Answer::Subjective { label, value });
        }
        end -= 1;
    }
    None
}

/// Reads the line that starts at `start`, and where it ends.
fn read_line(s: &Vec<char>, start: usize) -> (r: (Vec<char>, usize))
    requires
        start < s.len(),
    ensures
        r.1 == line_end(s@, start as int),
        r.0@ == line_at(s@, start as int, r.1 as int),
        start <= r.1 <= s.len(),
{
    let mut line: Vec<char> = Vec::new();
    let mut i: usize = start;
    while i < s.len() && s[i] != '\n'
        invariant
            start <= i <= s.len(),
            line@ == s@.subrange(start as int, i as int),
            forall|k: int| start <= k < i ==> s@[k] != '\n',
        decreases s.len() - i,
    {
        line.push(s[i]);
        i += 1;
        assert(line@ =~= s@.subrange(start as int, i as int));
    }
    proof {
        lemma_line_end_at(s@, start as int, i as int);
    }
    if i < s.len() && line.len() > 0 && line[line.len() - 1] == '\r' {
        line.pop();
        assert(line@ =~= s@.subrange(start as int, i as int).drop_last());
    }
    (line, i)
}

/// Parses one question document.
pub fn parse(document: &str) -> (r: Result<Question, ParseError>)
    ensures
        match parse_document(document@) {
            Ok(m) => r is Ok && question_matches(r->Ok_0, m),
            Err(e) => r == Err::<Question, ParseError>(e),
        },
{
    let s = chars_of(document);
    let mut scan = Scan {
        mode: Mode::Title,
        title: None,
        description: Vec::new(),
        code: Vec::new(),
        choices: Vec::new(),
        marks: Ghost(Seq::empty()),
        answer: None,
    };
    assert(scan.model().choices =~= seq![]);
    assert(scan.model() == initial_model());
    let mut start: usize = 0;
    while start < s.len()
        invariant
            start <= s.len(),
            s@ == document@,
            scan.answer_in_range(),
            scan_from(s@, 0, initial_model()) == scan_from(s@, start as int, scan.model()),
        decreases s.len() - start,
    {
        let (line, e) = read_line(&s, start);
        let ghost before = scan.model();
        let r = scan.step(&line);
        assert(scan_from(s@, start as int, before) == match step(before, line@) {
            Ok(next) => scan_from(s@, e + 1, next),
            Err(err) => Err(err),
        });
        if let Err(err) = r {
            assert(step(before, line@) == Err::<ParseModel, ParseError>(err));
            return Err(err);
        }
        if e >= s.len() {
            assert(scan_from(s@, e + 1, scan.model()) == scan_from(s@, s.len() as int, scan.model()));
            start = s.len();
        } else {
            start = e + 1;
        }
    }
    let ghost m = scan.model();
    let title = match scan.title {
        None => {
            return Err(ParseError::TitleMissing);
        },
        Some(t) => t,
    };
    let answer = match scan.answer {
        None => {
            return Err(ParseError::AnswerMissing);
        },
        Some(a) => a,
    };
    let name = string_of(title.as_slice());
    let description = string_of(scan.description.as_slice());
    let code = string_of(scan.code.as_slice());
    Ok(Question::new(name, description, code, scan.choices, answer))
}

} // verus!
