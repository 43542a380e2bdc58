//! Checks the RPC service applies to client parameters.

use vstd::prelude::*;

use crate::text::{trim, trimmed};
use vstd::string::StrSliceExecFns;

verus! {

/// The protocol errors the service answers with.
#[derive(Debug, Clone, PartialEq, Eq)]
pub enum ProtocolError {
    /// The request's parameters are not acceptable.
    InvalidParams(String),
    /// No session has the requested id.
    SessionNotFound(String),
    /// The runtime is not available.
    RuntimeUnavailable(String),
    /// The store is not available.
    StoreUnavailable(String),
    /// Anything else went wrong inside the service.
    Internal(String),
}

/// The text of the error for a blank title.
pub open spec fn blank_title_text() -> Seq<char> {
    "title must not be blank"@
}

/// Checks an optional session title: an absent title stays absent, a present one is trimmed
/// and must not be empty.
pub fn validate_title(title: Option<&str>) -> (r: Result<Option<String>, ProtocolError>)
    ensures
        title is None ==> r matches Ok(None),
        title matches Some(t) ==> if trimmed(t@).len() == 0 {
            r matches Err(ProtocolError::InvalidParams(m)) && m@ == blank_title_text()
        } else {
            r matches Ok(Some(s)) && s@ == trimmed(t@)
        },
{
    let title = match title {
        Some(t) => t,
        None => {
            return Ok(None);
        },
    };
    let title = trim(title);
    if title.unicode_len() == 0 {
        return Err(ProtocolError::InvalidParams("title must not be blank".to_owned()));
    }
    Ok(Some(title.to_owned()))
}

} // verus!
