//! The two kinds of failure: at compile time and at run time.

use vstd::prelude::*;
use vstd::string::StringExecFns;

verus! {

#[derive(Debug)]
pub enum InterpretError {
    /// The source could not be compiled, or a chunk is broken.
    CompileError(String),
    /// A value had the wrong type for an operator, or the stack overflowed.
    RuntimeError(String),
}

pub type InterpretResult<T> = Result<T, InterpretError>;

/// The decimal digits of `n`.
pub open spec fn decimal(n: nat) -> Seq<char>
    decreases n,
{
    if n < 10 {
        seq![(48 + n) as char]
    } else {
        decimal(n / 10).push((48 + n % 10) as char)
    }
}

/// The decimal digits of a line number, by `ToString::to_string`, which
/// writes an unsigned integer in base ten without sign or leading zeros.
#[verifier::external_body]
pub(crate) fn line_text(line: usize) -> (text: String)
    ensures
        text@ == decimal(line as nat),
{
    line.to_string()
}

/// The words that tell the source line of a runtime error with `message`.
pub open spec fn located_text(line: usize, message: Seq<char>) -> Seq<char> {
    "[line "@ + decimal(line as nat) + "] "@ + message
}

/// The report of a runtime error with `message` at line `line`.
pub fn located(line: usize, message: &str) -> (text: String)
    ensures
        text@ == located_text(line, message@),
{
    let mut text = String::from_str("[line ");
    text.append(line_text(line).as_str());
    text.append("] ");
    text.append(message);
    text
}

impl InterpretError {
    /// The message that the error carries.
    pub open spec fn details(&self) -> Seq<char> {
        match self {
            InterpretError::CompileError(details) => details@,
            InterpretError::RuntimeError(details) => details@,
        }
    }

    /// The words that introduce the message when the error is displayed.
    pub open spec fn heading(&self) -> Seq<char> {
        match self {
            InterpretError::CompileError(_) => "Compile error: "@,
            InterpretError::RuntimeError(_) => "Runtime error: "@,
        }
    }

    /// A compile error that carries `message`.
    pub open spec fn is_compile_error(&self, message: Seq<char>) -> bool {
        self is CompileError && self.details() == message
    }

    /// A runtime error that carries `message`.
    pub open spec fn is_runtime_error(&self, message: Seq<char>) -> bool {
        self is RuntimeError && self.details() == message
    }

    /// The message without its heading.
    pub fn description(&self) -> (details: &str)
        ensures
            details@ == self.details(),
    {
        match self {
            InterpretError::CompileError(details) => details.as_str(),
            InterpretError::RuntimeError(details) => details.as_str(),
        }
    }

    /// The error as shown to a user: heading, then message.
    pub fn to_display_string(&self) -> (text: String)
        ensures
            text@ == self.heading() + self.details(),
    {
        match self {
            InterpretError::CompileError(details) => String::from_str("Compile error: ").concat(
                details.as_str(),
            ),
            InterpretError::RuntimeError(details) => String::from_str("Runtime error: ").concat(
                details.as_str(),
            ),
        }
    }
}

} // verus!
