//! The mock responder: the names under which a script finds the request and
//! leaves the response, the run of a script, and the reply that a request
//! ends with.

use vstd::prelude::*;
use vstd::utf8::encode_utf8;
use crate::error::Error;
use crate::octets::copy;
use crate::request::{route_segments, split, RequestBindings, ROUTE_SEGMENTS};
use crate::resolver::{find_mock, resolve, start, Resolution};
use crate::tree::DirTree;
use crate::response::{refusal, HttpResponse, ResponseBindings};
use crate::table::{content, ByteMap};
use crate::Reply;

verus! {

/// The directory under which the scripts lie.
pub const MOCK_DIR: &'static str = "./mock";

/// The table in which a script finds the request.
pub const LUA_REQ_TABLE: &'static str = "req";

/// In the request table: the full path of the request.
pub const LUA_REQ_PATH: &'static str = "path";

/// In the request table: the parameters that the path has bound.
pub const LUA_REQ_PATH_PARAM: &'static str = "path_param";

/// In the request table: the query parameters.
pub const LUA_REQ_QUERY: &'static str = "query";

/// In the request table: the headers.
pub const LUA_REQ_HEADER: &'static str = "header";

/// In the request table: the body.
pub const LUA_REQ_BODY: &'static str = "body";

/// The table in which a script leaves the response.
pub const LUA_RESP_TABLE: &'static str = "resp";

/// In the response table: the status code.
pub const LUA_RESP_STATUS: &'static str = "status";

/// In the response table: the headers.
pub const LUA_RESP_HEADER: &'static str = "header";

/// In the response table: the body.
pub const LUA_RESP_BODY: &'static str = "body";

/// Whether `r` is what a script run that ended as `left` is answered with:
/// the failure of the run; else the failure to make a response of what the
/// script left; else that response.
pub open spec fn answers(left: Result<ResponseBindings, Error>, r: Result<Reply, Error>) -> bool {
    match left {
        Err(e) => r == Err::<Reply, Error>(e),
        Ok(bindings) => match refusal(
            bindings.status_or_default(),
            bindings.header_or_default(),
        ) {
            Some(said) => r matches Err(Error::Http(description)) && description@ == said,
            None => {
                &&& r matches Ok(Reply::HttpBinary(response))
                &&& response.wf()
                &&& response.status == bindings.status_or_default()
                &&& response.headers@ == bindings.header_or_default()
                &&& response.body@ == bindings.body_or_default()
            },
        },
    }
}

/// The answer to a script run that ended as `left`.
pub fn respond(left: Result<ResponseBindings, Error>) -> (r: Result<Reply, Error>)
    ensures
        answers(left, r),
{
    match left {
        Err(e) => Err(e),
        Ok(bindings) => match HttpResponse::build(bindings) {
            Err(e) => Err(e),
            Ok(response) => Ok(Reply::HttpBinary(response)),
        },
    }
}

/// Whether `r` answers a request on which `run` was handed `script` and the
/// bindings of the request.
pub open spec fn executed<F>(
    script: Vec<u8>,
    path: Seq<char>,
    path_param: Map<Seq<u8>, Seq<u8>>,
    query: Seq<(Vec<u8>, Vec<u8>)>,
    headers: Seq<(Vec<u8>, Vec<u8>)>,
    body: Seq<u8>,
    run: F,
    r: Result<Reply, Error>,
) -> bool where F: FnOnce(Vec<u8>, RequestBindings) -> Result<ResponseBindings, Error> {
    exists|given: RequestBindings, left: Result<ResponseBindings, Error>|
        {
            &&& given.marshals(path, query, headers, path_param, body)
            &&& #[trigger] call_ensures(run, (script, given), left)
            &&& answers(left, r)
        }
}

/// Runs a script on a request and answers with what it leaves. `run` is the
/// interpreter: it is handed the script and the bindings of the request, and
/// gives back what the script left or why it did not run to its end.
pub fn execute_mock<F>(
    script: Vec<u8>,
    path: String,
    path_param: ByteMap,
    query: Vec<(Vec<u8>, Vec<u8>)>,
    headers: &Vec<(Vec<u8>, Vec<u8>)>,
    body: Vec<u8>,
    run: F,
) -> (r: Result<Reply, Error>) where
    F: FnOnce(Vec<u8>, RequestBindings) -> Result<ResponseBindings, Error>,

    requires
        path_param.wf(),
        forall|given: RequestBindings| given.wf() ==> call_requires(run, (script, given)),
    ensures
        executed(script, path@, content(path_param@), query@, headers@, body@, run, r),
{
    let given = RequestBindings::new(path, query, headers, path_param, body);
    let ghost handed = given;
    let left = run(script, given);
    let r = respond(left);
    proof {
        assert(call_ensures(run, (script, handed), left));
    }
    r
}

/// The segments of a request path that address a script.
pub open spec fn script_segments(path: Seq<char>) -> Seq<Seq<u8>> {
    split(encode_utf8(path)).skip(ROUTE_SEGMENTS as int)
}

/// Answers a request from a tree held in memory: resolves the path below
/// `MOCK_DIR`, has `read` fetch the script found, and has `run` run it on
/// the bindings of the request. The first stage that fails ends the request
/// with its failure.
pub fn mock_inner<R, X>(
    tree: &DirTree,
    path: String,
    query: Vec<(Vec<u8>, Vec<u8>)>,
    headers: &Vec<(Vec<u8>, Vec<u8>)>,
    body: Vec<u8>,
    read: R,
    run: X,
) -> (r: Result<Reply, Error>) where
    R: FnOnce(Vec<u8>) -> Result<Vec<u8>, Error>,
    X: FnOnce(Vec<u8>, RequestBindings) -> Result<ResponseBindings, Error>,

    requires
        tree.wf(),
        split(encode_utf8(path@)).len() > ROUTE_SEGMENTS,
        forall|at: Vec<u8>| call_requires(read, (at,)),
        forall|script: Vec<u8>, given: RequestBindings|
            given.wf() ==> call_requires(run, (script, given)),
    ensures
        match resolve(tree@, start(encode_utf8(MOCK_DIR@), script_segments(path@))) {
            Resolution::NotFound { path: missing } => {
                r matches Err(Error::NotFound(at)) && at@ == missing
            },
            Resolution::Unlisted { dir } => {
                r matches Err(Error::Io(description)) && description@ == tree.failure()
            },
            Resolution::Found { script, params } => {
                exists|at: Vec<u8>, source: Result<Vec<u8>, Error>|
                    {
                        &&& at@ == script
                        &&& #[trigger] call_ensures(read, (at,), source)
                        &&& match source {
                            Err(e) => r == Err::<Reply, Error>(e),
                            Ok(bytes) => {
                                executed(bytes, path@, params, query@, headers@, body@, run, r)
                            },
                        }
                    }
            },
        },
{
    let segments = route_segments(path.as_str().as_bytes());
    let root = copy(MOCK_DIR.as_bytes());
    let (at, path_param) = match find_mock(tree, root, segments) {
        Ok(found) => found,
        Err(e) => {
            return Err(e);
        },
    };
    let ghost asked = at;
    let source = read(at);
    proof {
        assert(call_ensures(read, (asked,), source));
    }
    match source {
        Err(e) => Err(e),
        Ok(bytes) => execute_mock(bytes, path, path_param, query, headers, body, run),
    }
}

/// Whether `reply` is the reply to a request that ended as `outcome`: what
/// its script made, or the description of the failure as a text.
pub open spec fn replies(outcome: Result<Reply, Error>, reply: Reply) -> bool {
    match outcome {
        Ok(made) => reply == made,
        Err(e) => reply matches Reply::UTF8(said) && said@ == e.text(),
    }
}

/// A script that does not run to its end is answered with a text: the
/// description of its failure.
pub proof fn theorem_failed_run_is_a_text(
    left: Result<ResponseBindings, Error>,
    r: Result<Reply, Error>,
    reply: Reply,
)
    requires
        left is Err,
        answers(left, r),
        replies(r, reply),
    ensures
        reply matches Reply::UTF8(said) && said@ == left->Err_0.text(),
{
}

/// The reply that a mock request ends with: what its script made, or, where
/// any stage failed, the description of the failure as a text.
pub fn mock(outcome: Result<Reply, Error>) -> (reply: Reply)
    ensures
        replies(outcome, reply),
{
    match outcome {
        Err(e) => Reply::UTF8(e.message()),
        Ok(made) => made,
    }
}

} // verus!
