use vstd::prelude::*;

verus! {

/// Signals an error on the interpreter.
#[derive(Debug, Clone, Copy, PartialEq, Eq)]
pub enum Error {
    /// The output sink refused a byte.
    Output,
    /// A closing `]` was reached while no loop was open.
    MissingOpenLoop,
    /// The byte is neither an instruction nor ASCII whitespace.
    UnexpectedByte(u8),
    /// The end of the program was reached with loops still open, or in the
    /// middle of skipping one. More instructions may be appended and the run
    /// resumed.
    OpenLoopsRemain,
    /// A bounded run used up its steps before the end of the program. The
    /// run may be resumed.
    StepLimit,
}

/// The decimal digit for `d`, which is less than ten.
pub open spec fn digit(d: nat) -> char {
    (0x30 + d) as char
}

/// The decimal digits of `n`, without leading zeros.
pub open spec fn decimal(n: nat) -> Seq<char>
    decreases n,
{
    if n < 10 {
        seq![digit(n)]
    } else {
        decimal(n / 10).push(digit(n % 10))
    }
}

/// The message for a byte that is no instruction: the byte as a character
/// between quotes, then as a number between brackets.
pub open spec fn unexpected_instruction_text(byte: u8) -> Seq<char> {
    "Got unexpected instruction '"@ + seq![byte as char] + "' ("@ + decimal(byte as nat) + ")"@
}

/// `format!`: writes the byte as the character with that code, and as a
/// decimal number, into the message for a byte that is no instruction.
#[verifier::external_body]
fn unexpected_instruction_message(byte: u8) -> (text: String)
    ensures
        text@ == unexpected_instruction_text(byte),
{
    format!("Got unexpected instruction '{}' ({byte})", byte as char)
}

impl Error {
    /// The text that describes this error.
    pub open spec fn message_text(self) -> Seq<char> {
        match self {
            Error::UnexpectedByte(byte) => unexpected_instruction_text(byte),
            Error::Output => "Error writing to output"@,
            Error::MissingOpenLoop => "Missing open '[' for ']'"@,
            Error::OpenLoopsRemain => "EOF reached with loops still open"@,
            Error::StepLimit => "Step limit reached with instructions left"@,
        }
    }

    /// Describes this error in words.
    pub fn message(&self) -> (text: String)
        ensures
            text@ == self.message_text(),
    {
        match self {
            Error::UnexpectedByte(byte) => unexpected_instruction_message(*byte),
            Error::Output => "Error writing to output".to_owned(),
            Error::MissingOpenLoop => "Missing open '[' for ']'".to_owned(),
            Error::OpenLoopsRemain => "EOF reached with loops still open".to_owned(),
            Error::StepLimit => "Step limit reached with instructions left".to_owned(),
        }
    }
}

} // verus!
