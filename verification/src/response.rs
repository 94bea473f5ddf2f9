//! What a script leaves of a response, and the HTTP response that it makes.

use vstd::prelude::*;
use hyper::http::header::{HeaderName, HeaderValue};
use hyper::http::StatusCode;
use crate::error::Error;

verus! {

/// The status of a response whose script sets none.
pub const DEFAULT_STATUS: u16 = 200;

/// What a script has left behind: each part is `None` where the script set
/// nothing.
#[derive(Debug)]
pub struct ResponseBindings {
    pub status: Option<u16>,
    pub header: Option<Vec<(String, Vec<u8>)>>,
    pub body: Option<Vec<u8>>,
}

/// An HTTP response: a status, header lines in their order, and a body.
#[derive(Debug)]
pub struct HttpResponse {
    pub status: u16,
    pub headers: Vec<(String, Vec<u8>)>,
    pub body: Vec<u8>,
}

/// A status code is one of three digits.
pub open spec fn status_accepted(code: u16) -> bool {
    100 <= code <= 999
}

/// Whether `name` can be the name of a header.
pub uninterp spec fn name_accepted(name: Seq<char>) -> bool;

/// A byte of a header value is a tab or any byte from 32 on but 127.
pub open spec fn value_byte_accepted(byte: u8) -> bool {
    (byte >= 32 && byte != 127) || byte == 9
}

/// Whether `value` can be the value of a header.
pub open spec fn value_accepted(value: Seq<u8>) -> bool {
    forall|i: int| 0 <= i < value.len() ==> value_byte_accepted(#[trigger] value[i])
}

/// `http`'s `StatusCode::from_u16`: it takes the codes from 100 to 999 and
/// refuses the others, of which it says "invalid status code". That is taken
/// from `http` as it is written, and not proved here.
#[verifier::external_body]
fn status_refusal(code: u16) -> (r: Option<String>)
    ensures
        r is None <==> status_accepted(code),
        r matches Some(said) ==> said@ == "invalid status code"@,
{
    match StatusCode::from_u16(code) {
        Ok(_) => None,
        Err(e) => Some(e.to_string()),
    }
}

/// `http`'s `HeaderName::from_bytes` on the bytes of `name`: whether it
/// takes a name depends on the name alone; of one that it refuses it says
/// "invalid HTTP header name". That is taken from `http` as it is written,
/// and not proved here.
#[verifier::external_body]
fn name_refusal(name: &str) -> (r: Option<String>)
    ensures
        r is None <==> name_accepted(name@),
        r matches Some(said) ==> said@ == "invalid HTTP header name"@,
{
    match HeaderName::from_bytes(name.as_bytes()) {
        Ok(_) => None,
        Err(e) => Some(e.to_string()),
    }
}

/// `http`'s `HeaderValue::from_bytes`: it takes a value of which every byte
/// is a tab or at least 32 and not 127, and says of any other "failed to
/// parse header value". That is taken from `http` as it is written, and not
/// proved here.
#[verifier::external_body]
fn value_refusal(value: &[u8]) -> (r: Option<String>)
    ensures
        r is None <==> value_accepted(value@),
        r matches Some(said) ==> said@ == "failed to parse header value"@,
{
    match HeaderValue::from_bytes(value) {
        Ok(_) => None,
        Err(e) => Some(e.to_string()),
    }
}

/// What is said of a header line that cannot stand in a response: of its
/// name before its value.
pub open spec fn header_refusal(header: (String, Vec<u8>)) -> Option<Seq<char>> {
    if !name_accepted(header.0@) {
        Some("invalid HTTP header name"@)
    } else if !value_accepted(header.1@) {
        Some("failed to parse header value"@)
    } else {
        None
    }
}

/// What is said of the first header line that cannot stand in a response.
pub open spec fn headers_refusal(headers: Seq<(String, Vec<u8>)>) -> Option<Seq<char>>
    decreases headers.len(),
{
    if headers.len() == 0 {
        None
    } else {
        match headers_refusal(headers.drop_last()) {
            Some(said) => Some(said),
            None => header_refusal(headers.last()),
        }
    }
}

/// Why a status and header lines make no response: what is said of the
/// status, else of the first header line that cannot stand; `None` where
/// they make one.
pub open spec fn refusal(status: u16, headers: Seq<(String, Vec<u8>)>) -> Option<Seq<char>> {
    if !status_accepted(status) {
        Some("invalid status code"@)
    } else {
        headers_refusal(headers)
    }
}

impl ResponseBindings {
    /// The status that the script set, or 200.
    pub open spec fn status_or_default(&self) -> u16 {
        match self.status {
            Some(code) => code,
            None => DEFAULT_STATUS,
        }
    }

    /// The header lines that the script set, or none.
    pub open spec fn header_or_default(&self) -> Seq<(String, Vec<u8>)> {
        match self.header {
            Some(lines) => lines@,
            None => Seq::empty(),
        }
    }

    /// The body that the script set, or the empty body.
    pub open spec fn body_or_default(&self) -> Seq<u8> {
        match self.body {
            Some(bytes) => bytes@,
            None => Seq::empty(),
        }
    }

    /// What a script leaves that sets nothing.
    pub fn unset() -> (r: Self)
        ensures
            r.status is None,
            r.header is None,
            r.body is None,
    {
        ResponseBindings { status: None, header: None, body: None }
    }
}

impl HttpResponse {
    /// The status and every header line can stand in an HTTP response.
    pub open spec fn wf(&self) -> bool {
        refusal(self.status, self.headers@) is None
    }

    /// Makes the response that a script has left: its status or 200, one
    /// header line for each pair that it set, each value as it is, and its
    /// body or the empty one. Fails with `Http` where the status or a header
    /// line cannot stand in a response.
    #[verifier::loop_isolation(false)]
    pub fn build(bindings: ResponseBindings) -> (r: Result<HttpResponse, Error>)
        ensures
            match refusal(bindings.status_or_default(), bindings.header_or_default()) {
                Some(said) => r matches Err(Error::Http(description)) && description@ == said,
                None => {
                    &&& r matches Ok(response)
                    &&& response.wf()
                    &&& response.status == bindings.status_or_default()
                    &&& response.headers@ == bindings.header_or_default()
                    &&& response.body@ == bindings.body_or_default()
                },
            },
            bindings.status is None && bindings.header is None && bindings.body is None ==> {
                &&& r matches Ok(response)
                &&& response.status == 200
                &&& response.headers@.len() == 0
                &&& response.body@.len() == 0
            },
    {
        let ResponseBindings { status, header, body } = bindings;
        let status = match status {
            Some(code) => code,
            None => DEFAULT_STATUS,
        };
        let headers = match header {
            Some(lines) => lines,
            None => Vec::new(),
        };
        let body = match body {
            Some(bytes) => bytes,
            None => Vec::new(),
        };
        if let Some(said) = status_refusal(status) {
            return Err(Error::Http(said));
        }
        let mut i: usize = 0;
        while i < headers.len()
            invariant
                i <= headers.len(),
                headers_refusal(headers@.take(i as int)) is None,
            decreases headers.len() - i,
        {
            proof {
                assert(headers@.take(i + 1).drop_last() =~= headers@.take(i as int));
            }
            if let Some(said) = name_refusal(headers[i].0.as_str()) {
                proof {
                    lemma_refusal_stays(headers@, i + 1);
                }
                return Err(Error::Http(said));
            }
            if let Some(said) = value_refusal(headers[i].1.as_slice()) {
                proof {
                    lemma_refusal_stays(headers@, i + 1);
                }
                return Err(Error::Http(said));
            }
            i += 1;
        }
        proof {
            assert(headers@.take(headers.len() as int) =~= headers@);
        }
        Ok(HttpResponse { status, headers, body })
    }
}

/// What is said of the first `n` header lines is said of all of them.
proof fn lemma_refusal_stays(headers: Seq<(String, Vec<u8>)>, n: int)
    requires
        0 <= n <= headers.len(),
        headers_refusal(headers.take(n)) is Some,
    ensures
        headers_refusal(headers) == headers_refusal(headers.take(n)),
    decreases headers.len() - n,
{
    if n < headers.len() {
        assert(headers.take(n + 1).drop_last() =~= headers.take(n));
        lemma_refusal_stays(headers, n + 1);
    } else {
        assert(headers.take(n) =~= headers);
    }
}

/// A script that sets nothing is answered with status 200, no header line
/// and an empty body.
pub proof fn theorem_unset_bindings(bindings: ResponseBindings)
    requires
        bindings.status is None,
        bindings.header is None,
        bindings.body is None,
    ensures
        refusal(bindings.status_or_default(), bindings.header_or_default()) is None,
        bindings.status_or_default() == 200,
        bindings.header_or_default().len() == 0,
        bindings.body_or_default().len() == 0,
{
}

} // verus!
