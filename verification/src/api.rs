//! The bodies and the key check of the bot's HTTP endpoints.
use vstd::prelude::*;
use crate::names::str_eq;

verus! {

/// Body of the request that starts a company's spotlight.
pub struct SpotlightReq {
    pub company: String,
}

/// A user in a voice channel: Discord id, avatar address and name.
pub struct VoiceUser {
    pub discord_id: u64,
    pub image: String,
    pub name: String,
}

/// Answer of the voice endpoint: the users in the company's voice channel.
pub struct CompanyVCResponse {
    pub users: Vec<VoiceUser>,
}

impl CompanyVCResponse {
    /// The answer listing the members of the voice channel, each given as
    /// (Discord id, avatar address, name), in the order given.
    pub fn from_members(members: &Vec<(u64, String, String)>) -> (r: CompanyVCResponse)
        ensures
            r.users@.len() == members@.len(),
            forall|i: int|
                0 <= i < members@.len() ==> {
                    &&& (#[trigger] r.users@[i]).discord_id == members@[i].0
                    &&& r.users@[i].image@ == members@[i].1@
                    &&& r.users@[i].name@ == members@[i].2@
                },
    {
        let mut users: Vec<VoiceUser> = Vec::new();
        let n = members.len();
        let mut i: usize = 0;
        while i < n
            invariant
                n == members@.len(),
                i <= n,
                users@.len() == i,
                forall|j: int|
                    0 <= j < i ==> {
                        &&& (#[trigger] users@[j]).discord_id == members@[j].0
                        &&& users@[j].image@ == members@[j].1@
                        &&& users@[j].name@ == members@[j].2@
                    },
            decreases n - i,
        {
            let m = &members[i];
            users.push(VoiceUser { discord_id: m.0, image: m.1.clone(), name: m.2.clone() });
            i = i + 1;
        }
        CompanyVCResponse { users }
    }
}

/// Proof that a request carried the right key; holds the key it carried, or
/// none when no key is configured.
pub struct ApiKey(Option<String>);

/// Why a request was refused.
#[derive(PartialEq, Eq, Structural, Clone, Copy, Debug)]
pub enum AuthError {
    Unauthorized,
}

impl View for ApiKey {
    type V = Option<Seq<char>>;

    closed spec fn view(&self) -> Option<Seq<char>> {
        match self.0 {
            Some(k) => Some(k@),
            None => None,
        }
    }
}

impl ApiKey {
    /// Checks the `token` header of a request against the configured key
    /// `wakey`: with no key configured every request passes; with one, the
    /// request passes only if it carries that very key.
    pub fn authorize(wakey: &Option<String>, token: Option<&str>) -> (r: Result<ApiKey, AuthError>)
        ensures
            match wakey {
                None => r matches Ok(k) && k@ is None,
                Some(key) => match token {
                    Some(t) => if key@ == t@ {
                        r matches Ok(k) && k@ == Some(t@)
                    } else {
                        r == Err::<ApiKey, AuthError>(AuthError::Unauthorized)
                    },
                    None => r == Err::<ApiKey, AuthError>(AuthError::Unauthorized),
                },
            },
    {
        match wakey {
            Some(key) => match token {
                Some(t) => {
                    if str_eq(key.as_str(), t) {
                        Ok(ApiKey(Some(t.to_owned())))
                    } else {
                        Err(AuthError::Unauthorized)
                    }
                },
                None => Err(AuthError::Unauthorized),
            },
            None => Ok(ApiKey(None)),
        }
    }

    /// The key that the request carried, if a key is configured.
    pub fn key(&self) -> (r: &Option<String>)
        ensures
            match r {
                Some(k) => self@ == Some(k@),
                None => self@ is None,
            },
    {
        &self.0
    }
}

} // verus!
