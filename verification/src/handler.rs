//! Reading a number from a line of input.

use vstd::prelude::*;
use vstd::string::StringExecFns;
use crate::decimal::{parse_u64, parsed_u64};

verus! {

/// `text` without the white space at its start and at its end.
pub uninterp spec fn trimmed(text: Seq<char>) -> Seq<char>;

/// Calls `str::trim`. The contract claims that the string returned is the
/// text without its leading and trailing white space, a function of the
/// text alone.
#[verifier::external_body]
fn trim_text(text: &str) -> (inner: String)
    ensures
        inner@ == trimmed(text@),
{
    text.trim().to_string()
}

/// What `to_u64` answers to text that writes no number.
pub open spec fn not_a_number() -> Seq<char> {
    "please input correct number"@
}

/// A line of input, trimmed.
pub struct Scanner {
    pub input: String,
}

impl Scanner {
    /// The scanner of the line `s`: it holds the line without the white
    /// space around it.
    pub fn new(s: String) -> (scanner: Scanner)
        ensures
            scanner.input@ == trimmed(s@),
    {
        Scanner { input: trim_text(s.as_str()) }
    }

    /// The number that the input writes in decimal: an optional plus sign,
    /// then digits, with a value that fits 64 bits. Other input is refused.
    pub fn to_u64(self) -> (res: Result<u64, String>)
        ensures
            match parsed_u64(vstd::utf8::encode_utf8(self.input@)) {
                Some(n) => res == Ok::<u64, String>(n),
                None => res matches Err(message) && message@ == not_a_number(),
            },
    {
        match parse_u64(self.input.as_str().as_bytes()) {
            Some(n) => Ok(n),
            None => Err(String::from_str("please input correct number")),
        }
    }
}

} // verus!
