//! Questions, their choices, learner answers, and the equivalence between them.
use vstd::prelude::*;

use crate::digits::{digits_of, format_unsigned};
use crate::text::{chars_of, same_answer_text, same_text, string_of};

verus! {

/// One option of a question, in presentation order.
pub enum Answer {
    /// A choice picked by its label alone.
    Choice { label: String },
    /// A choice that also asks for a free-text value.
    Subjective { label: String, value: String },
}

/// The text of a choice, as the document wrote it.
pub enum ChoiceText {
    Fixed { label: Seq<char> },
    Open { label: Seq<char>, value: Seq<char> },
}

impl View for Answer {
    type V = ChoiceText;

    open spec fn view(&self) -> ChoiceText {
        match self {
            Answer::Choice { label } => ChoiceText::Fixed { label: label@ },
            Answer::Subjective { label, value } => ChoiceText::Open { label: label@, value: value@ },
        }
    }
}

/// What a learner submitted for one question; shaped like `Answer`, but
/// never trusted to match the question it is checked against.
pub enum SubmittedAnswer {
    Choice { label: String },
    Subjective { label: String, value: String },
}

/// A validated question: its choices are never empty and `answer` is the
/// position of the correct one.
pub struct Question {
    name: String,
    description: String,
    code: String,
    choices: Vec<Answer>,
    answer: usize,
}

/// Whether a submitted answer is equivalent to a canonical choice: labels (and,
/// for free-text choices, values) agree after trimming, ignoring ASCII case;
/// answers of the other kind never agree.
pub open spec fn answers_match(c: Answer, s: SubmittedAnswer) -> bool {
    match c {
        Answer::Choice { label } => match s {
            SubmittedAnswer::Choice { label: other } => same_text(label@, other@),
            SubmittedAnswer::Subjective { .. } => false,
        },
        Answer::Subjective { label, value } => match s {
            SubmittedAnswer::Choice { .. } => false,
            SubmittedAnswer::Subjective { label: other, value: other_value } => same_text(
                label@,
                other@,
            ) && same_text(value@, other_value@),
        },
    }
}

impl Answer {
    /// Decides whether `other` is equivalent to this choice.
    pub fn equivalent(&self, other: &SubmittedAnswer) -> (r: bool)
        ensures
            r == answers_match(*self, *other),
    {
        match self {
            Answer::Choice { label } => match other {
                SubmittedAnswer::Choice { label: other_label } => same_answer_text(
                    label.as_str(),
                    other_label.as_str(),
                ),
                SubmittedAnswer::Subjective { .. } => false,
            },
            Answer::Subjective { label, value } => match other {
                SubmittedAnswer::Choice { .. } => false,
                SubmittedAnswer::Subjective { label: other_label, value: other_value } => {
                    same_answer_text(label.as_str(), other_label.as_str()) && same_answer_text(
                        value.as_str(),
                        other_value.as_str(),
                    )
                },
            },
        }
    }
}

/// The answer key of a question: the correct choice's index in decimal,
/// followed for a free-text choice by a space and its value.
pub open spec fn answer_key_of(q: Question) -> Seq<char> {
    let index = digits_of(q.answer_view(), 10);
    match q.choices_view()[q.answer_view() as int]@ {
        ChoiceText::Fixed { .. } => index,
        ChoiceText::Open { value, .. } => index.push(' ') + value,
    }
}

impl PartialEq<SubmittedAnswer> for Answer {
    fn eq(&self, other: &SubmittedAnswer) -> (r: bool) {
        self.equivalent(other)
    }
}

impl vstd::std_specs::cmp::PartialEqSpecImpl<SubmittedAnswer> for Answer {
    open spec fn obeys_eq_spec() -> bool {
        true
    }

    open spec fn eq_spec(&self, other: &SubmittedAnswer) -> bool {
        answers_match(*self, *other)
    }
}

impl Question {
    #[verifier::type_invariant]
    spec fn well_formed(&self) -> bool {
        self.answer < self.choices.len()
    }

    pub closed spec fn name_view(&self) -> Seq<char> {
        self.name@
    }

    pub closed spec fn description_view(&self) -> Seq<char> {
        self.description@
    }

    pub closed spec fn code_view(&self) -> Seq<char> {
        self.code@
    }

    pub closed spec fn choices_view(&self) -> Seq<Answer> {
        self.choices@
    }

    pub closed spec fn answer_view(&self) -> nat {
        self.answer as nat
    }

    /// Builds a question from its parts; `answer` must point into `choices`.
    pub fn new(name: String, description: String, code: String, choices: Vec<Answer>, answer: usize) -> (q: Question)
        requires
            answer < choices.len(),
        ensures
            q.name_view() == name@,
            q.description_view() == description@,
            q.code_view() == code@,
            q.choices_view() == choices@,
            q.answer_view() == answer,
    {
        Question { name, description, code, choices, answer }
    }

    pub fn name(&self) -> (r: &str)
        ensures
            r@ == self.name_view(),
    {
        self.name.as_str()
    }

    pub fn description(&self) -> (r: &str)
        ensures
            r@ == self.description_view(),
    {
        self.description.as_str()
    }

    pub fn code(&self) -> (r: &str)
        ensures
            r@ == self.code_view(),
    {
        self.code.as_str()
    }

    pub fn choices(&self) -> (r: &[Answer])
        ensures
            r@ == self.choices_view(),
    {
        self.choices.as_slice()
    }

    /// The position of the correct choice.
    pub fn answer_index(&self) -> (r: usize)
        ensures
            r == self.answer_view(),
            r < self.choices_view().len(),
    {
        proof {
            use_type_invariant(self);
        }
        self.answer
    }

    /// The answer key that a question page checks against.
    pub fn answer_key(&self) -> (r: String)
        ensures
            r@ == answer_key_of(*self),
    {
        proof {
            use_type_invariant(self);
        }
        let mut v = format_unsigned(self.answer as u128, 10);
        match &self.choices[self.answer] {
            Answer::Choice { .. } => {},
            Answer::Subjective { value, .. } => {
                let ghost head = v@;
                v.push(' ');
                let w = chars_of(value.as_str());
                let mut i: usize = 0;
                while i < w.len()
                    invariant
                        i <= w.len(),
                        v@ == head.push(' ') + w@.subrange(0, i as int),
                    decreases w.len() - i,
                {
                    v.push(w[i]);
                    i += 1;
                    assert(v@ =~= head.push(' ') + w@.subrange(0, i as int));
                }
                assert(w@.subrange(0, w@.len() as int) =~= w@);
            },
        }
        string_of(v.as_slice())
    }

    /// Whether `answer` is equivalent to this question's correct choice.
    pub fn test(&self, answer: &SubmittedAnswer) -> (r: bool)
        ensures
            r == answers_match(self.choices_view()[self.answer_view() as int], *answer),
    {
        proof {
            use_type_invariant(self);
        }
        self.choices[self.answer].eq(answer)
    }
}

} // verus!
