//! The bodies of the requests that the bot sends to the event's backend and
//! of the replies it gets back.
use vstd::prelude::*;

verus! {

/// The credentials with which the bot signs in to the backend.
pub struct LoginRequest {
    pub email: String,
    pub password: String,
}

/// The backend's answer to a sign-in: the token for later requests.
pub struct LoginReply {
    pub jwt: String,
}

/// Asks the backend who a Discord user is, given the association code that
/// the user received by email.
pub struct AssociationRequest {
    pub discord_association_code: String,
    pub discord_id: String,
}

/// What the backend says a user is at the event.
#[derive(PartialEq, Eq, Structural, Clone, Copy, Debug)]
pub enum UserType {
    Staff,
    Empresa,
    Participante,
    Orador,
}

/// The backend's answer when a request fails.
pub struct ErrorReply {
    pub error: String,
}

/// The backend's id of an attendee.
pub struct SafiraIdResponse {
    pub id: String,
}

/// Asks the backend to give a badge.
pub struct BadgeGiveRequest {
    pub redeem: SmolBoyRequest,
}

/// Which badge goes to which attendee.
pub struct SmolBoyRequest {
    pub attendee_id: String,
    pub badge_id: u32,
}

} // verus!
