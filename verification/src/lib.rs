//! A file-system-driven HTTP mock responder and the helpers of a small
//! developer-testing server: resolution of a request path against a tree of
//! script files, the binding surface of a script run, and the reply built from
//! what a script leaves behind.

use vstd::prelude::*;

pub mod args;
pub mod command;
pub mod echo;
pub mod entry;
pub mod error;
pub mod mock;
pub mod octets;
pub mod pieces;
pub mod request;
pub mod resolver;
pub mod response;
pub mod table;
pub mod template;
pub mod text;
pub mod tree;
pub mod walk;

pub use command::command;
pub use echo::echo;
pub use mock::mock;

verus! {

/// What an endpoint of the server answers with.
#[derive(Debug)]
pub enum Reply {
    /// A text.
    UTF8(String),
    /// Bytes as they are.
    Binary(Vec<u8>),
    /// A whole HTTP response.
    HttpBinary(response::HttpResponse),
}

} // verus!
