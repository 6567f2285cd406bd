//! The bot's settings.
use vstd::prelude::*;

verus! {

/// Where the backend is, the key that the HTTP endpoints expect, where the
/// guild tables are saved, and the badge that participants get on
/// association.
pub struct Config {
    pub backend_ip: String,
    pub wakey: Option<String>,
    pub roles_location: String,
    pub acred_badge: Option<u32>,
}

} // verus!
