use vstd::prelude::*;
use crate::codec::Node;
use crate::error::CoreError;

verus! {

/// A query the application defines: how to build its request tree and how
/// to read the response tree into a typed result. Sending, correlation and
/// timeouts are the caller's business.
pub trait IqSpec {
    /// What a successful response is read into.
    type Response;

    /// The request tree.
    fn build_iq(&self) -> Node;

    /// Reads the response tree.
    fn parse_response(&self, response: &Node) -> Result<Self::Response, CoreError>;
}

} // verus!
