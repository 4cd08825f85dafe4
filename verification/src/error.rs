//! The errors that the library reports.

use vstd::prelude::*;
use crate::text::append_chars;

verus! {

/// What went wrong in an operation on a whole document or file.
#[derive(Debug)]
pub enum IgnoreError {
    /// A file could not be read or written; the text says why.
    Io(String),
    /// The document's structure is broken at the given line, counted from 1.
    Parse { line: usize, message: String },
    /// The name of a legacy file tells neither of the known formats.
    UnsupportedFormat(String),
    /// The file at this path does not exist.
    FileNotFound(String),
    /// Any other failure, as text.
    Other(String),
}


/// The character of a decimal digit.
pub open spec fn digit_char(d: nat) -> char
    recommends
        d < 10,
{
    ((0x30 + d) as u8) as char
}

/// The decimal digits of a number, without leading zeros.
pub open spec fn decimal_digits(n: nat) -> Seq<char>
    decreases n,
{
    if n < 10 {
        seq![digit_char(n)]
    } else {
        decimal_digits(n / 10).push(digit_char(n % 10))
    }
}

/// Executable form of [`decimal_digits`].
pub fn render_decimal(n: usize) -> (r: Vec<char>)
    ensures
        r@ == decimal_digits(n as nat),
    decreases n,
{
    let digit = ((0x30 + n % 10) as u8) as char;
    if n < 10 {
        let mut r: Vec<char> = Vec::new();
        r.push(digit);
        assert(r@ =~= seq![digit_char(n as nat)]);
        r
    } else {
        let mut r = render_decimal(n / 10);
        r.push(digit);
        r
    }
}

/// The text that describes an error.
pub open spec fn error_text(e: IgnoreError) -> Seq<char> {
    match e {
        IgnoreError::Io(text) => "IO error: "@ + text@,
        IgnoreError::Parse { line, message } => message@ + " at line "@ + decimal_digits(
            line as nat,
        ),
        IgnoreError::UnsupportedFormat(name) => "Unsupported format: "@ + name@,
        IgnoreError::FileNotFound(path) => "File not found: "@ + path@,
        IgnoreError::Other(text) => "Other error: "@ + text@,
    }
}

impl IgnoreError {
    /// The text that describes the error, for a human reader.
    pub fn message(&self) -> (text: String)
        ensures
            text@ == error_text(*self),
    {
        match self {
            IgnoreError::Io(text) => {
                let mut out = "IO error: ".to_owned();
                out.append(text.as_str());
                out
            },
            IgnoreError::Parse { line, message } => {
                let mut out = message.clone();
                out.append(" at line ");
                append_chars(&mut out, render_decimal(*line).as_slice());
                out
            },
            IgnoreError::UnsupportedFormat(name) => {
                let mut out = "Unsupported format: ".to_owned();
                out.append(name.as_str());
                out
            },
            IgnoreError::FileNotFound(path) => {
                let mut out = "File not found: ".to_owned();
                out.append(path.as_str());
                out
            },
            IgnoreError::Other(text) => {
                let mut out = "Other error: ".to_owned();
                out.append(text.as_str());
                out
            },
        }
    }
}

} // verus!
