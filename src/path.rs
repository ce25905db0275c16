//! Paths written for a POSIX shell.
use crate::cmdline::{decode_bytes, lossy_of, lossy_string};
use crate::text::chars_of;
use vstd::prelude::*;
use vstd::utf8::{decode_utf8, valid_utf8};

verus! {

/// What `char::is_alphanumeric` says of `c`.
pub uninterp spec fn alphanumeric(c: char) -> bool;

/// What `shlex::bytes::try_quote` makes of `b` when it succeeds.
pub uninterp spec fn shell_quoted(b: Seq<u8>) -> Seq<u8>;

/// Relies on `char::is_alphanumeric` (Unicode `Alphabetic` or `Numeric`): on
/// ASCII exactly the letters and digits.
#[verifier::external_body]
fn is_alphanumeric(c: char) -> (r: bool)
    ensures
        r == alphanumeric(c),
        (c as u32) < 128 ==> (r <==> ('a' <= c && c <= 'z') || ('A' <= c && c <= 'Z') || ('0' <= c
            && c <= '9')),
{
    c.is_alphanumeric()
}

/// Relies on `shlex::bytes::try_quote`: it fails only on a non-empty input
/// that holds a NUL byte.
#[verifier::external_body]
fn try_quote(b: &[u8]) -> (r: Option<Vec<u8>>)
    ensures
        r is None <==> (b@.len() > 0 && b@.contains(0u8)),
        r matches Some(q) ==> q@ == shell_quoted(b@),
{
    shlex::bytes::try_quote(b).ok().map(|q| q.into_owned())
}

/// Characters that need no quoting: common in file names and arguments.
pub open spec fn shellsafe(c: char) -> bool {
    c == '/' || c == '.' || c == '-' || c == '_' || c == ',' || c == '=' || c == ':' || alphanumeric(c)
}

/// Whether `c` can stand unquoted.
pub fn is_shellsafe(c: char) -> (r: bool)
    ensures
        r == shellsafe(c),
{
    c == '/' || c == '.' || c == '-' || c == '_' || c == ',' || c == '=' || c == ':' || is_alphanumeric(c)
}

/// A path that cannot be quoted for a shell: it holds a NUL byte.
#[derive(Debug, PartialEq, Eq)]
pub struct QuoteError;

/// A path, shown as a POSIX shell would read it.
#[derive(Debug)]
pub struct PathQuotedDisplay {
    pub path: Vec<u8>,
}

/// The text that stands for `p`: itself when it is UTF-8 made of safe
/// characters only, else its shell quoting.
pub open spec fn quoted_path(p: Seq<u8>) -> Result<Seq<char>, QuoteError> {
    if valid_utf8(p) && forall|i: int| 0 <= i < decode_utf8(p).len() ==> shellsafe(#[trigger] decode_utf8(p)[i]) {
        Ok(decode_utf8(p))
    } else if p.len() > 0 && p.contains(0u8) {
        Err(QuoteError)
    } else {
        Ok(lossy_of(shell_quoted(p)))
    }
}

impl PathQuotedDisplay {
    pub open spec fn view(&self) -> Seq<u8> {
        self.path@
    }

    /// Wraps the path (its bytes).
    pub fn new(path: &[u8]) -> (r: PathQuotedDisplay)
        ensures
            r@ == path@,
    {
        PathQuotedDisplay { path: crate::text::copy_bytes(path, 0, path.len()) }
    }

    /// The path as a shell would read it back.
    pub fn to_string(&self) -> (r: Result<String, QuoteError>)
        ensures
            r matches Ok(s) ==> quoted_path(self@) == Ok::<Seq<char>, QuoteError>(s@),
            r is Err ==> quoted_path(self@) == Err::<Seq<char>, QuoteError>(QuoteError),
    {
        match decode_bytes(self.path.as_slice()) {
            Some(s) => {
                let cs = chars_of(s.as_str());
                let mut i: usize = 0;
                let mut safe = true;
                while i < cs.len()
                    invariant
                        cs@ == decode_utf8(self@),
                        i <= cs@.len(),
                        safe == forall|j: int| 0 <= j < i ==> shellsafe(#[trigger] cs@[j]),
                    decreases cs@.len() - i,
                {
                    if !is_shellsafe(cs[i]) {
                        safe = false;
                    }
                    i = i + 1;
                }
                if safe {
                    return Ok(s);
                }
            },
            None => {},
        }
        match try_quote(self.path.as_slice()) {
            Some(q) => Ok(lossy_string(q.as_slice())),
            None => Err(QuoteError),
        }
    }
}

} // verus!
