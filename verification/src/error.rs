//! The ways in which answering a mock request fails.

use vstd::prelude::*;
use vstd::string::StringExecFns;
use bstr::ByteSlice;

verus! {

/// Why a mock request got no scripted answer.
#[derive(Debug)]
pub enum Error {
    /// No entry matches at some depth; holds the path that was looked for.
    NotFound(Vec<u8>),
    /// A directory or a script could not be read; holds the description of
    /// the failure.
    Io(String),
    /// The script did not run to its end, or left a value of the wrong type;
    /// holds the interpreter's description.
    Lua(String),
    /// What the script left is no HTTP response; holds the description of
    /// what was refused.
    Http(String),
    /// The worker that ran the script did not report back.
    TokioBlockJoin,
}

/// The text of a byte string in which every ill-formed UTF-8 sequence is
/// replaced by U+FFFD.
pub uninterp spec fn lossy_text(bytes: Seq<u8>) -> Seq<char>;

/// `bstr`'s `Display` for a byte string, with no width or precision: the
/// text of the bytes, each maximal ill-formed sequence replaced by one
/// U+FFFD. The text is a function of the bytes alone. That is taken from
/// `bstr` as it is written, and not proved here.
#[verifier::external_body]
fn path_text(bytes: &Vec<u8>) -> (r: String)
    ensures
        r@ == lossy_text(bytes@),
{
    format!("{}", bytes.as_bstr())
}

impl Error {
    /// The description that is sent in place of an answer.
    pub open spec fn text(&self) -> Seq<char> {
        match *self {
            Error::NotFound(path) => "mock path:"@ + lossy_text(path@) + " not found"@,
            Error::Io(description) => description@,
            Error::Lua(description) => description@,
            Error::Http(description) => description@,
            Error::TokioBlockJoin => "tokio join lua script error"@,
        }
    }

    /// The description that is sent in place of an answer.
    pub fn message(&self) -> (r: String)
        ensures
            r@ == self.text(),
    {
        match self {
            Error::NotFound(path) => {
                let mut r = String::from_str("mock path:");
                let shown = path_text(path);
                r.append(shown.as_str());
                r.append(" not found");
                r
            },
            Error::Io(description) => description.clone(),
            Error::Lua(description) => description.clone(),
            Error::Http(description) => description.clone(),
            Error::TokioBlockJoin => String::from_str("tokio join lua script error"),
        }
    }
}

} // verus!
