//! The question bank: every document parsed once, in the order given, or none.
use vstd::prelude::*;

use crate::parser::{parse, parse_document, question_matches, ParseError};
use crate::question::Question;

verus! {

/// The first document that did not parse, and why.
#[derive(Debug, Clone, Copy, PartialEq, Eq, Structural)]
pub struct BankError {
    pub index: usize,
    pub error: ParseError,
}

/// An ordered, read-only table of questions.
pub struct QuestionBank {
    questions: Vec<Question>,
}

impl View for QuestionBank {
    type V = Seq<Question>;

    closed spec fn view(&self) -> Seq<Question> {
        self.questions@
    }
}

/// Whether every document of `docs` parses.
pub open spec fn all_parse(docs: Seq<String>) -> bool {
    forall|i: int| 0 <= i < docs.len() ==> #[trigger] parse_document(docs[i]@) is Ok
}

impl QuestionBank {
    /// Parses every document, keeping their order; the first failure aborts.
    pub fn build(documents: &[String]) -> (r: Result<QuestionBank, BankError>)
        ensures
            r is Ok <==> all_parse(documents@),
            r matches Ok(b) ==> b@.len() == documents@.len() && forall|i: int|
                0 <= i < documents@.len() ==> question_matches(
                    #[trigger] b@[i],
                    parse_document(documents@[i]@)->Ok_0,
                ),
            r matches Err(e) ==> {
                &&& e.index < documents@.len()
                &&& parse_document(documents@[e.index as int]@) == Err::<
                    crate::parser::ParseModel,
                    ParseError,
                >(e.error)
                &&& forall|j: int| 0 <= j < e.index ==> #[trigger] parse_document(documents@[j]@) is Ok
            },
    {
        let mut questions: Vec<Question> = Vec::new();
        let mut i: usize = 0;
        while i < documents.len()
            invariant
                i <= documents.len(),
                questions@.len() == i,
                forall|j: int| 0 <= j < i ==> #[trigger] parse_document(documents@[j]@) is Ok,
                forall|j: int|
                    0 <= j < i ==> question_matches(
                        #[trigger] questions@[j],
                        parse_document(documents@[j]@)->Ok_0,
                    ),
            decreases documents.len() - i,
        {
            match parse(documents[i].as_str()) {
                Ok(q) => {
                    questions.push(q);
                },
                Err(error) => {
                    return Err(BankError { index: i, error });
                },
            }
            i += 1;
        }
        Ok(QuestionBank { questions })
    }

    pub fn size(&self) -> (r: usize)
        ensures
            r == self@.len(),
    {
        self.questions.len()
    }

    /// The question at `index`, if there is one.
    pub fn by_index(&self, index: usize) -> (r: Option<&Question>)
        ensures
            index < self@.len() ==> r == Some(&self@[index as int]),
            index >= self@.len() ==> r is None,
    {
        if index < self.questions.len() {
            Some(&self.questions[index])
        } else {
            None
        }
    }

    /// All questions, in bank order.
    pub fn all(&self) -> (r: &[Question])
        ensures
            r@ == self@,
    {
        self.questions.as_slice()
    }
}

} // verus!
