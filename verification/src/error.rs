//! The generation pass's error type.
//!
//! Every failure is fatal to the pass: an underlying read failure (carrying
//! the system error text), a directory entry whose name could not be decoded
//! as text (carrying the raw name), or a directory with no eligible source
//! files at all.

use crate::names::push_char;
use vstd::prelude::*;
use vstd::string::{StrSliceExecFns, StringExecFns};

verus! {

/// All-encompassing error type of the generation pass.
#[derive(Debug, PartialEq, Eq)]
pub enum Error {
    /// An underlying directory read failed; holds the system error text.
    IO(String),
    /// An entry's name could not be decoded as text; holds the raw name.
    Utf8(Vec<u8>),
    /// The directory contained no eligible source files.
    Empty,
}

/// A raw name rendered best-effort: ASCII bytes as themselves, others as `?`.
pub open spec fn lossy_chars(b: Seq<u8>) -> Seq<char> {
    b.map_values(|x: u8| if x < 128 { x as char } else { '?' })
}

/// The diagnostic text of an error.
pub open spec fn error_message(e: Error) -> Seq<char> {
    match e {
        Error::IO(m) => m@,
        Error::Utf8(b) => "unsupported non-UTF-8 file name: "@ + lossy_chars(b@),
        Error::Empty => "no source files found"@,
    }
}

impl Error {
    /// Renders the error as the diagnostic text attached to the invocation site.
    pub fn message(&self) -> (r: String)
        ensures
            r@ == error_message(*self),
    {
        match self {
            Error::IO(m) => m.clone(),
            Error::Utf8(b) => {
                let mut out = String::from_str("unsupported non-UTF-8 file name: ");
                let ghost prefix = out@;
                let mut i: usize = 0;
                while i < b.len()
                    invariant
                        i <= b@.len(),
                        out@ =~= prefix + lossy_chars(b@).take(i as int),
                    decreases b@.len() - i,
                {
                    let x = b[i];
                    if x < 128 {
                        push_char(&mut out, x as char);
                    } else {
                        push_char(&mut out, '?');
                    }
                    proof {
                        assert(out@ =~= prefix + lossy_chars(b@).take(i + 1));
                    }
                    i += 1;
                }
                proof {
                    assert(lossy_chars(b@).take(b@.len() as int) =~= lossy_chars(b@));
                }
                out
            },
            Error::Empty => String::from_str("no source files found"),
        }
    }
}

} // verus!
