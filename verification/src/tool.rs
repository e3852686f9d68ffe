//! A small text processor: it turns its input into upper case, and in its
//! strict form refuses empty input.

use vstd::prelude::*;
use crate::text::{from_chars, push_str, text_of};

verus! {

/// Options of the processor.
#[derive(Debug, Clone)]
pub struct Config {
    /// Whether the caller wants diagnostics.
    pub verbose: bool,
}

impl Default for Config {
    fn default() -> (r: Self)
        ensures
            !r.verbose,
    {
        Config { verbose: false }
    }
}

/// Why input was not processed.
#[derive(Debug, Clone, PartialEq, Eq)]
pub enum ProcessError {
    /// The input was empty where it must not be.
    EmptyInput,
    /// The input holds what it must not.
    InvalidInput(String),
}

/// The mathematical value of a `ProcessError`.
pub enum Refusal {
    EmptyInput,
    InvalidInput(Seq<char>),
}

impl View for ProcessError {
    type V = Refusal;

    open spec fn view(&self) -> Refusal {
        match *self {
            ProcessError::EmptyInput => Refusal::EmptyInput,
            ProcessError::InvalidInput(s) => Refusal::InvalidInput(s@),
        }
    }
}

/// The one-line description of a refusal.
pub open spec fn refusal_text(r: Refusal) -> Seq<char> {
    match r {
        Refusal::EmptyInput => "Input cannot be empty"@,
        Refusal::InvalidInput(s) => "Invalid input: "@ + s,
    }
}

impl ProcessError {
    /// The one-line description of the error.
    pub fn to_string(&self) -> (r: String)
        ensures
            r@ == refusal_text(self@),
    {
        match self {
            ProcessError::EmptyInput => text_of("Input cannot be empty"),
            ProcessError::InvalidInput(s) => {
                let mut out: Vec<char> = Vec::new();
                push_str(&mut out, "Invalid input: ");
                assert(out@ == "Invalid input: "@);
                push_str(&mut out, s.as_str());
                from_chars(&out)
            },
        }
    }
}

/// The upper-case form of a text, as `str::to_uppercase` computes it from
/// the Unicode case mappings.
pub uninterp spec fn uppercase(s: Seq<char>) -> Seq<char>;

/// `str::to_uppercase`: the result is a function of the characters alone.
#[verifier::external_body]
fn raised(s: &str) -> (r: String)
    ensures
        r@ == uppercase(s@),
{
    s.to_uppercase()
}

/// The view of the result of processing.
pub open spec fn processed(r: Result<String, ProcessError>) -> Result<Seq<char>, Refusal> {
    match r {
        Ok(s) => Ok(s@),
        Err(e) => Err(e@),
    }
}

/// The input in upper case.
pub fn process(input: &str, config: &Config) -> (r: Result<String, ProcessError>)
    ensures
        processed(r) == Ok::<Seq<char>, Refusal>(uppercase(input@)),
{
    Ok(raised(input))
}

/// The input in upper case, unless it is empty.
pub fn process_strict(input: &str, config: &Config) -> (r: Result<String, ProcessError>)
    ensures
        processed(r) == (if input@.len() == 0 {
            Err::<Seq<char>, Refusal>(Refusal::EmptyInput)
        } else {
            Ok::<Seq<char>, Refusal>(uppercase(input@))
        }),
{
    if input.is_empty() {
        return Err(ProcessError::EmptyInput);
    }
    process(input, config)
}

/// The input after the words `Processed: `.
pub fn experiment(input: &str) -> (r: String)
    ensures
        r@ == "Processed: "@ + input@,
{
    let mut out: Vec<char> = Vec::new();
    push_str(&mut out, "Processed: ");
    assert(out@ == "Processed: "@);
    push_str(&mut out, input);
    from_chars(&out)
}

} // verus!
