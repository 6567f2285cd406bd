//! The decisions of the bot's event handler: how a direct message with an
//! association code is answered, which roles a user gets, and the requests
//! that the bot sends to the event's backend.
use vstd::prelude::*;
use crate::guild::{Guild, GuildView};
use crate::assoc::{has_key, lookup};
use crate::requests::{AssociationRequest, BadgeGiveRequest, SmolBoyRequest, UserType};
use crate::text::{decimal, decimal_string, trim, trimmed};

verus! {

/// The guild of the event.
pub const GUILD_ID: u64 = 793533219865755648;

/// The role of the event's staff.
pub const STAFF_ROLE: u64 = 793534104339349534;

/// The role of company representatives.
pub const EMPRESA_ROLE: u64 = 813053096158298122;

/// The role of speakers.
pub const ORADOR_ROLE: u64 = 793537618138234912;

/// The role of participants.
pub const PARTICIPANTE_ROLE: u64 = 793536131458531389;

/// The role that goes with each kind of user.
pub open spec fn role_of(t: UserType) -> u64 {
    match t {
        UserType::Staff => STAFF_ROLE,
        UserType::Empresa => EMPRESA_ROLE,
        UserType::Orador => ORADOR_ROLE,
        UserType::Participante => PARTICIPANTE_ROLE,
    }
}

impl UserType {
    /// The Discord role of this kind of user.
    pub fn as_role(&self) -> (r: u64)
        ensures
            r == role_of(*self),
    {
        match self {
            UserType::Staff => STAFF_ROLE,
            UserType::Empresa => EMPRESA_ROLE,
            UserType::Orador => ORADOR_ROLE,
            UserType::Participante => PARTICIPANTE_ROLE,
        }
    }
}

/// Law: different kinds of users get different roles.
pub proof fn law_roles_are_distinct(a: UserType, b: UserType)
    ensures
        role_of(a) == role_of(b) <==> a == b,
{
}

/// Where a member who writes to the bot stands.
#[derive(PartialEq, Eq, Structural, Clone, Copy, Debug)]
pub enum Standing {
    /// Neither a company representative nor a participant yet: the message is
    /// taken as an association code.
    Unassociated,
    /// A company representative: the message is taken as the company's name.
    CompanyMember,
    /// Anyone else, or a member whose roles are unknown.
    Other,
}

/// Where a member stands, given the member's roles if they are known.
pub open spec fn standing_of(roles: Option<Seq<u64>>) -> Standing {
    match roles {
        Some(rs) => if !rs.contains(EMPRESA_ROLE) && !rs.contains(PARTICIPANTE_ROLE) {
            Standing::Unassociated
        } else if rs.contains(EMPRESA_ROLE) {
            Standing::CompanyMember
        } else {
            Standing::Other
        },
        None => Standing::Other,
    }
}

fn has_role(roles: &Vec<u64>, role: u64) -> (r: bool)
    ensures
        r == roles@.contains(role),
{
    let n = roles.len();
    let mut i: usize = 0;
    while i < n
        invariant
            n == roles@.len(),
            i <= n,
            forall|j: int| 0 <= j < i ==> roles@[j] != role,
        decreases n - i,
    {
        if roles[i] == role {
            assert(roles@[i as int] == role);
            return true;
        }
        i = i + 1;
    }
    false
}

/// Where a member stands, given the member's roles if they are known.
pub fn standing(roles: &Option<Vec<u64>>) -> (r: Standing)
    ensures
        r == standing_of(
            match roles {
                Some(v) => Some(v@),
                None => None,
            },
        ),
{
    match roles {
        Some(rs) => {
            let empresa = has_role(rs, EMPRESA_ROLE);
            let participante = has_role(rs, PARTICIPANTE_ROLE);
            if !empresa && !participante {
                Standing::Unassociated
            } else if empresa {
                Standing::CompanyMember
            } else {
                Standing::Other
            }
        },
        None => Standing::Other,
    }
}

/// A hexadecimal digit, in either case.
pub open spec fn is_hex_digit(c: char) -> bool {
    let v = c as int;
    ||| 48 <= v <= 57
    ||| 97 <= v <= 102
    ||| 65 <= v <= 70
}

/// 32 hexadecimal digits.
pub open spec fn is_simple_uuid(s: Seq<char>) -> bool {
    s.len() == 32 && forall|i: int| 0 <= i < 32 ==> is_hex_digit(#[trigger] s[i])
}

/// Hexadecimal digits in groups of 8, 4, 4, 4 and 12, separated by hyphens.
pub open spec fn is_hyphenated_uuid(s: Seq<char>) -> bool {
    &&& s.len() == 36
    &&& forall|i: int|
        0 <= i < 36 ==> if i == 8 || i == 13 || i == 18 || i == 23 {
            #[trigger] s[i] == '-'
        } else {
            is_hex_digit(s[i])
        }
}

/// The strings that `uuid::Uuid::parse_str` accepts: the simple form, the
/// hyphenated form, or `urn:uuid:` followed by the hyphenated form.
pub open spec fn uuid_shape(s: Seq<char>) -> bool {
    ||| is_simple_uuid(s)
    ||| is_hyphenated_uuid(s)
    ||| (s.len() == 45 && s.subrange(0, 9) == "urn:uuid:"@ && is_hyphenated_uuid(
        s.subrange(9, 45),
    ))
}

/// Calls `uuid::Uuid::parse_str` and tells whether it succeeded, which it
/// does exactly on the three shapes of `uuid_shape`.
#[verifier::external_body]
fn uuid_parses(s: &str) -> (r: bool)
    ensures
        r == uuid_shape(s@),
{
    uuid::Uuid::parse_str(s).is_ok()
}

/// Whether a direct message has the shape of an association code (a UUID);
/// only then does the bot ask the backend about it.
pub fn is_association_code(content: &str) -> (r: bool)
    ensures
        r == uuid_shape(content@),
{
    uuid_parses(content)
}

/// The reply to a code that is not valid.
pub open spec fn invalid_code_text() -> Seq<char> {
    "Código inválido, tenta de novo"@
}

/// The reply once a participant, speaker or staff member is associated.
pub open spec fn validated_text() -> Seq<char> {
    "O teu id foi validado, vais agora ter acesso aos canais da SEI."@
}

/// The reply once a company representative has picked a company.
pub open spec fn company_validated_text() -> Seq<char> {
    "O seu id foi validado, terá agora acesso aos canais da SEI."@
}

/// The reply when the company that a representative named does not exist.
pub open spec fn company_not_found_text() -> Seq<char> {
    "Emprsa não encontrada"@
}

/// The reply to a code that is not valid.
pub fn invalid_code_reply() -> (r: String)
    ensures
        r@ == invalid_code_text(),
{
    "Código inválido, tenta de novo".to_owned()
}

/// The reply to a company representative after the bot tried to give the
/// roles of the company they named.
pub fn company_choice_reply(found: bool) -> (r: String)
    ensures
        r@ == if found {
            company_validated_text()
        } else {
            company_not_found_text()
        },
{
    if found {
        "O seu id foi validado, terá agora acesso aos canais da SEI.".to_owned()
    } else {
        "Emprsa não encontrada".to_owned()
    }
}

/// The company name in a representative's message: the message without
/// surrounding white space.
pub fn company_choice(content: &str) -> (r: &str)
    ensures
        r@ == trimmed(content@),
{
    trim(content)
}

/// What the bot does once the backend answered about an association code.
pub struct AssociationOutcome {
    /// The role to give the user.
    pub add_role: Option<u64>,
    /// Whether to send the user the list of companies to pick from.
    pub send_company_list: bool,
    /// The badge to give the user.
    pub give_badge: Option<u32>,
    /// The direct message to send the user; none when the company list is
    /// sent instead.
    pub reply: Option<String>,
}

/// What the bot does once the backend said what the user is (`role`), or
/// that the code is unknown (`None`); `acred_badge` is the badge that
/// participants get on association, if one is configured.
pub fn association_outcome(role: Option<UserType>, acred_badge: Option<u32>) -> (r:
    AssociationOutcome)
    ensures
        match role {
            None => {
                &&& r.add_role is None
                &&& !r.send_company_list
                &&& r.give_badge is None
                &&& r.reply matches Some(t) && t@ == invalid_code_text()
            },
            Some(t) => {
                &&& r.add_role == Some(role_of(t))
                &&& r.send_company_list == (t == UserType::Empresa)
                &&& r.give_badge == if t == UserType::Participante {
                    acred_badge
                } else {
                    None
                }
                &&& if t == UserType::Empresa {
                    r.reply is None
                } else {
                    r.reply matches Some(m) && m@ == validated_text()
                }
            },
        },
{
    match role {
        None => AssociationOutcome {
            add_role: None,
            send_company_list: false,
            give_badge: None,
            reply: Some(invalid_code_reply()),
        },
        Some(t) => {
            let role_id = t.as_role();
            match t {
                UserType::Empresa => AssociationOutcome {
                    add_role: Some(role_id),
                    send_company_list: true,
                    give_badge: None,
                    reply: None,
                },
                UserType::Participante => AssociationOutcome {
                    add_role: Some(role_id),
                    send_company_list: false,
                    give_badge: acred_badge,
                    reply: Some(
                        "O teu id foi validado, vais agora ter acesso aos canais da SEI.".to_owned(),
                    ),
                },
                _ => AssociationOutcome {
                    add_role: Some(role_id),
                    send_company_list: false,
                    give_badge: None,
                    reply: Some(
                        "O teu id foi validado, vais agora ter acesso aos canais da SEI.".to_owned(),
                    ),
                },
            }
        },
    }
}

/// The backend address followed by a path.
fn url(backend_ip: &str, path: &str) -> (r: String)
    ensures
        r@ == backend_ip@ + path@,
{
    let mut s = backend_ip.to_owned();
    s.append(path);
    s
}

/// Where the bot signs in to the backend.
pub fn sign_in_url(backend_ip: &str) -> (r: String)
    ensures
        r@ == backend_ip@ + "/api/auth/sign_in"@,
{
    url(backend_ip, "/api/auth/sign_in")
}

/// Where the bot asks the backend about an association code.
pub fn association_url(backend_ip: &str) -> (r: String)
    ensures
        r@ == backend_ip@ + "/api/v1/association"@,
{
    url(backend_ip, "/api/v1/association")
}

/// Where the bot asks the backend for the attendee behind a Discord user.
pub fn attendee_url(backend_ip: &str, user_id: u64) -> (r: String)
    ensures
        r@ == backend_ip@ + "/api/v1/association/"@ + decimal(user_id as nat),
{
    let mut s = url(backend_ip, "/api/v1/association/");
    let id = decimal_string(user_id);
    s.append(id.as_str());
    s
}

/// Where the bot asks the backend to give a badge.
pub fn redeems_url(backend_ip: &str) -> (r: String)
    ensures
        r@ == backend_ip@ + "/api/v1/redeems"@,
{
    url(backend_ip, "/api/v1/redeems")
}

/// The request about the association code that user `user_id` sent.
pub fn association_request(code: &str, user_id: u64) -> (r: AssociationRequest)
    ensures
        r.discord_association_code@ == code@,
        r.discord_id@ == decimal(user_id as nat),
{
    AssociationRequest {
        discord_association_code: code.to_owned(),
        discord_id: decimal_string(user_id),
    }
}

/// The request that gives badge `badge_id` to attendee `attendee_id`.
pub fn badge_request(attendee_id: String, badge_id: u32) -> (r: BadgeGiveRequest)
    ensures
        r.redeem.attendee_id@ == attendee_id@,
        r.redeem.badge_id == badge_id,
{
    BadgeGiveRequest { redeem: SmolBoyRequest { attendee_id, badge_id } }
}

/// What the bot tries for one tier when a company representative names a
/// company: the tier's role in the tier's guild, then, if the tier has the
/// company, the company's role in the company's guild.
#[derive(PartialEq, Eq, Structural, Clone, Copy, Debug)]
pub struct Grant {
    pub tier_guild: u64,
    pub tier_role: u64,
    pub company: Option<RoleGrant>,
}

/// A role of a guild.
#[derive(PartialEq, Eq, Structural, Clone, Copy, Debug)]
pub struct RoleGrant {
    pub guild: u64,
    pub role: u64,
}

/// The grant of one tier for the company `name`.
pub open spec fn grant_of(t: crate::tier::TierView, name: Seq<char>) -> Grant {
    Grant {
        tier_guild: t.guild_id,
        tier_role: t.role_id,
        company: match lookup(t.companies, name) {
            Some(c) => Some(RoleGrant { guild: c.guild_id, role: c.role_id }),
            None => None,
        },
    }
}

/// The grants that the bot tries, tier by tier in order, for the company
/// `name`.
pub open spec fn company_grants(g: GuildView, name: Seq<char>) -> Seq<Grant> {
    g.tiers.map_values(|t: (Seq<char>, crate::tier::TierView)| grant_of(t.1, name))
}

impl Guild {
    /// The grants that the bot tries, tier by tier in order, when a company
    /// representative names the company `name`.
    pub fn company_grants(&self, name: &str) -> (r: Vec<Grant>)
        ensures
            r@ == company_grants(self@, name@),
    {
        let tiers = self.iter();
        let ghost tv = self@.tiers;
        let n = tiers.len();
        let mut out: Vec<Grant> = Vec::new();
        let mut i: usize = 0;
        while i < n
            invariant
                n == tv.len(),
                tv == crate::guild::tiers_view(tiers@),
                i <= n,
                out@ =~= company_grants(self@, name@).take(i as int),
                tv == self@.tiers,
            decreases n - i,
        {
            assert(tv[i as int] == crate::guild::tier_entry_view(tiers@[i as int]));
            let tier = &tiers[i].1;
            let company = match tier.company(name) {
                Some(c) => Some(RoleGrant { guild: c.guild_id(), role: c.role_id() }),
                None => None,
            };
            out.push(Grant { tier_guild: tier.guild_id(), tier_role: tier.role_id(), company });
            assert(company_grants(self@, name@).take(i + 1) =~= company_grants(self@, name@).take(
                i as int,
            ).push(company_grants(self@, name@)[i as int]));
            i = i + 1;
        }
        assert(company_grants(self@, name@).take(n as int) =~= company_grants(self@, name@));
        out
    }
}

/// Law: a tier's company role is offered exactly where that tier has the
/// company, and the tier's own role always is.
pub proof fn law_grants_follow_tiers(g: GuildView, name: Seq<char>, i: int)
    requires
        0 <= i < g.tiers.len(),
    ensures
        company_grants(g, name)[i].tier_role == g.tiers[i].1.role_id,
        company_grants(g, name)[i].tier_guild == g.tiers[i].1.guild_id,
        company_grants(g, name)[i].company is Some <==> has_key(g.tiers[i].1.companies, name),
{
    crate::assoc::lemma_key_pos_facts(g.tiers[i].1.companies, name);
}

/// How far the bot got in giving a company representative the roles of the
/// company they named: the tier it is at, whether the tier's role was given
/// and the company's role is next, and whether it is done with success.
#[derive(PartialEq, Eq, Structural, Clone, Copy, Debug)]
pub struct GrantState {
    pub index: usize,
    pub at_company: bool,
    pub granted: bool,
}

/// What the bot does next.
#[derive(PartialEq, Eq, Structural, Clone, Copy, Debug)]
pub enum GrantAction {
    /// Give role `role` of guild `guild` to the user.
    Give { guild: u64, role: u64 },
    /// Stop: the roles were given (`true`) or no tier is left (`false`).
    Finished(bool),
}

/// Where the bot starts: at the first tier, with nothing given.
pub open spec fn grant_start() -> GrantState {
    GrantState { index: 0, at_company: false, granted: false }
}

/// What the bot does in state `st`.
pub open spec fn grant_action_of(gs: Seq<Grant>, st: GrantState) -> GrantAction {
    if st.granted {
        GrantAction::Finished(true)
    } else if st.index >= gs.len() {
        GrantAction::Finished(false)
    } else if st.at_company {
        match gs[st.index as int].company {
            Some(c) => GrantAction::Give { guild: c.guild, role: c.role },
            None => GrantAction::Finished(false),
        }
    } else {
        GrantAction::Give { guild: gs[st.index as int].tier_guild, role: gs[st.index as int].tier_role }
    }
}

/// The state after the action of `st` succeeded (`ok`) or failed: a tier's
/// role given leads to the company's role where the tier has the company, a
/// company's role given ends with success, and anything else moves on to the
/// next tier.
pub open spec fn grant_next(gs: Seq<Grant>, st: GrantState, ok: bool) -> GrantState {
    if st.granted || st.index >= gs.len() {
        st
    } else if !st.at_company {
        if ok && gs[st.index as int].company is Some {
            GrantState { at_company: true, ..st }
        } else {
            GrantState { index: (st.index + 1) as usize, at_company: false, granted: false }
        }
    } else if ok {
        GrantState { granted: true, ..st }
    } else {
        GrantState { index: (st.index + 1) as usize, at_company: false, granted: false }
    }
}

impl GrantState {
    /// The first tier, with nothing given.
    pub fn start() -> (r: GrantState)
        ensures
            r == grant_start(),
    {
        GrantState { index: 0, at_company: false, granted: false }
    }

    /// What the bot does next.
    pub fn action(&self, grants: &Vec<Grant>) -> (r: GrantAction)
        ensures
            r == grant_action_of(grants@, *self),
    {
        if self.granted {
            GrantAction::Finished(true)
        } else if self.index >= grants.len() {
            GrantAction::Finished(false)
        } else if self.at_company {
            match grants[self.index].company {
                Some(c) => GrantAction::Give { guild: c.guild, role: c.role },
                None => GrantAction::Finished(false),
            }
        } else {
            GrantAction::Give {
                guild: grants[self.index].tier_guild,
                role: grants[self.index].tier_role,
            }
        }
    }

    /// The state after the last action succeeded (`ok`) or failed.
    pub fn next(&self, grants: &Vec<Grant>, ok: bool) -> (r: GrantState)
        ensures
            r == grant_next(grants@, *self, ok),
    {
        if self.granted || self.index >= grants.len() {
            *self
        } else if !self.at_company {
            if ok && grants[self.index].company.is_some() {
                GrantState { index: self.index, at_company: true, granted: false }
            } else {
                GrantState { index: self.index + 1, at_company: false, granted: false }
            }
        } else if ok {
            GrantState { index: self.index, at_company: true, granted: true }
        } else {
            GrantState { index: self.index + 1, at_company: false, granted: false }
        }
    }
}

/// Law: the bot ends with success only from a company's role that was given,
/// and every step either finishes or moves forward, so the exchange ends.
pub proof fn law_grant_progress(gs: Seq<Grant>, st: GrantState, ok: bool)
    requires
        !st.granted,
        st.index < gs.len() <= usize::MAX,
        st.at_company ==> gs[st.index as int].company is Some,
    ensures
        grant_next(gs, st, ok).granted ==> (st.at_company && ok),
        grant_next(gs, st, ok).at_company ==> gs[grant_next(gs, st, ok).index as int].company is Some,
        grant_next(gs, st, ok).index > st.index || (grant_next(gs, st, ok).index == st.index
            && !st.at_company && grant_next(gs, st, ok).at_company) || grant_next(gs, st, ok).granted,
{
}

} // verus!
