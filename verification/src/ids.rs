//! Identifiers of sessions, turns, tool calls and approvals.
//!
//! Turn, tool-call and approval ids are random version-4 UUIDs, held as their 128-bit value;
//! a session id is the text the client chose.

use vstd::prelude::*;

verus! {

/// Whether `value` is the 128-bit form of a version-4 (random) UUID of the RFC 4122 variant:
/// its version nibble (bits 76 to 79) is 4 and its variant bits (63 and 62) are `10`.
pub open spec fn is_version4_uuid(value: u128) -> bool {
    &&& value & 0xF000_0000_0000_0000_0000u128 == 0x4000_0000_0000_0000_0000u128
    &&& value & 0xC000_0000_0000_0000u128 == 0x8000_0000_0000_0000u128
}

/// A fresh random UUID, from `uuid::Uuid::new_v4`, as its 128-bit value. `new_v4` masks random
/// bits and sets the version nibble to 4 and the variant bits to `10`; that is all that is
/// claimed of the value, the rest comes from the random number generator.
#[verifier::external_body]
fn random_uuid() -> (r: u128)
    ensures
        is_version4_uuid(r),
{
    uuid::Uuid::new_v4().as_u128()
}

/// The id of a session, as the client named it.
#[derive(Debug, Clone, PartialEq, Eq, Hash)]
pub struct SessionId {
    value: String,
}

impl View for SessionId {
    type V = Seq<char>;

    closed spec fn view(&self) -> Seq<char> {
        self.value@
    }
}

impl SessionId {
    /// The session id with the text `value`.
    pub fn new(value: &str) -> (r: SessionId)
        ensures
            r@ == value@,
    {
        SessionId { value: value.to_owned() }
    }

    /// The text of the id.
    pub fn as_str(&self) -> (r: &str)
        ensures
            r@ == self@,
    {
        self.value.as_str()
    }

    /// Whether both ids have the same text.
    pub fn same_as(&self, other: &SessionId) -> (r: bool)
        ensures
            r == (self@ == other@),
    {
        crate::json::str_equal(self.value.as_str(), other.value.as_str())
    }

    /// A copy of the id.
    pub fn duplicate(&self) -> (r: SessionId)
        ensures
            r@ == self@,
    {
        SessionId { value: self.value.as_str().to_owned() }
    }
}

/// The id of one turn of a session.
#[derive(Debug, Clone, Copy, PartialEq, Eq, Structural, Hash)]
pub struct TurnId {
    pub value: u128,
}

impl TurnId {
    /// A fresh random turn id: a version-4 UUID.
    pub fn new() -> (r: TurnId)
        ensures
            is_version4_uuid(r.value),
    {
        TurnId { value: random_uuid() }
    }
}

/// The id of one tool call.
#[derive(Debug, Clone, Copy, PartialEq, Eq, Structural, Hash)]
pub struct ToolCallId {
    pub value: u128,
}

impl ToolCallId {
    /// A fresh random tool call id: a version-4 UUID.
    pub fn new() -> (r: ToolCallId)
        ensures
            is_version4_uuid(r.value),
    {
        ToolCallId { value: random_uuid() }
    }
}

/// The id of one approval request.
#[derive(Debug, Clone, Copy, PartialEq, Eq, Structural, Hash)]
pub struct ApprovalId {
    pub value: u128,
}

impl ApprovalId {
    /// A fresh random approval id: a version-4 UUID.
    pub fn new() -> (r: ApprovalId)
        ensures
            is_version4_uuid(r.value),
    {
        ApprovalId { value: random_uuid() }
    }
}

} // verus!
