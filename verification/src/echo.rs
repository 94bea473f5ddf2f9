//! The echo endpoint: a request shown back as text.

use vstd::prelude::*;
use vstd::string::StringExecFns;
use crate::text::{lossy, utf8_lossy};
use crate::Reply;

verus! {

/// The text that shows a request: its path, its query and headers as they
/// are rendered for the reader, and its body read as UTF-8.
pub open spec fn echo_text(
    path: Seq<char>,
    query: Seq<char>,
    headers: Seq<char>,
    body: Seq<u8>,
) -> Seq<char> {
    "path: "@ + path + "\n\nquery: "@ + query + "\n\nheaders: "@ + headers + "\n\nbody:\n"@
        + utf8_lossy(body) + "\n\n"@
}

/// Shows a request back: `query` and `headers` are the renderings of the
/// query parameters and of the headers, `body` the bytes of the body.
pub fn echo(path: &str, query: &str, headers: &str, body: &[u8]) -> (reply: Reply)
    ensures
        reply matches Reply::UTF8(text) && text@ == echo_text(path@, query@, headers@, body@),
{
    let mut text = String::from_str("path: ");
    text.append(path);
    text.append("\n\nquery: ");
    text.append(query);
    text.append("\n\nheaders: ");
    text.append(headers);
    text.append("\n\nbody:\n");
    let shown = lossy(body);
    text.append(shown.as_str());
    text.append("\n\n");
    Reply::UTF8(text)
}

} // verus!
