//! The one error type of the crate: a refusal, told in a sentence.

use vstd::prelude::*;

verus! {

/// A refusal. Its view is the text that is shown to the operator.
#[derive(Debug)]
pub struct Failure {
    pub message: String,
}

impl View for Failure {
    type V = Seq<char>;

    open spec fn view(&self) -> Seq<char> {
        self.message@
    }
}

impl Failure {
    /// The text that is shown to the operator.
    pub fn message(&self) -> (text: &str)
        ensures
            text@ == self@,
    {
        self.message.as_str()
    }

    /// Another refusal with the same text.
    pub fn again(&self) -> (copy: Self)
        ensures
            copy@ == self@,
    {
        failure(self.message.as_str())
    }
}

/// A refusal with the given text.
pub fn failure(message: &str) -> (refusal: Failure)
    ensures
        refusal@ == message@,
{
    Failure { message: message.to_string() }
}

/// A result with its refusal replaced by the refusal's text.
pub open spec fn outcome<T>(result: Result<T, Failure>) -> Result<T, Seq<char>> {
    match result {
        Ok(value) => Ok(value),
        Err(refusal) => Err(refusal@),
    }
}

/// As `outcome`, with the accepted string replaced by its characters.
pub open spec fn text_outcome(result: Result<String, Failure>) -> Result<Seq<char>, Seq<char>> {
    match result {
        Ok(value) => Ok(value@),
        Err(refusal) => Err(refusal@),
    }
}

} // verus!
