//! Identifiers of connections, users and rooms.

use vstd::prelude::*;

verus! {

/// A connection's id: a random UUID, as its 128-bit value.
#[derive(Clone, Copy, PartialEq, Eq, Structural, Debug, Hash)]
pub struct ClientId(pub u128);

/// A user's id: a random UUID, as its 128-bit value.
#[derive(Clone, Copy, PartialEq, Eq, Structural, Debug, Hash)]
pub struct UserId(pub u128);

/// A room's id: a random UUID, as its 128-bit value.
#[derive(Clone, Copy, PartialEq, Eq, Structural, Debug, Hash)]
pub struct RoomId(pub u128);

/// The bits of a UUID that hold its version.
pub const VERSION_MASK: u128 = 0xF000_0000_0000_0000_0000;

/// The version bits of a random (version 4) UUID.
pub const VERSION_4: u128 = 0x4000_0000_0000_0000_0000;

/// Relies on uuid::Uuid::new_v4 (read back with Uuid::as_u128): a random
/// UUID whose version bits say version 4.
#[verifier::external_body]
fn random_uuid() -> (r: u128)
    ensures
        r & VERSION_MASK == VERSION_4,
{
    uuid::Uuid::new_v4().as_u128()
}

impl ClientId {
    /// Draws a new random id.
    pub fn new() -> (r: Self)
        ensures
            r.0 & VERSION_MASK == VERSION_4,
    {
        ClientId(random_uuid())
    }
}

impl UserId {
    /// Draws a new random id.
    pub fn new() -> (r: Self)
        ensures
            r.0 & VERSION_MASK == VERSION_4,
    {
        UserId(random_uuid())
    }
}

impl RoomId {
    /// Draws a new random id.
    pub fn new() -> (r: Self)
        ensures
            r.0 & VERSION_MASK == VERSION_4,
    {
        RoomId(random_uuid())
    }
}

} // verus!
