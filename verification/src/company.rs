//! A company of the event as the bot keeps it: its role, its category, the
//! channels paired with it and whether it is in the spotlight.  Discord ids
//! are kept as the plain integers that Discord gives them.
use vstd::prelude::*;

verus! {

/// The state of a company.
pub struct CompanyView {
    pub guild_id: u64,
    pub role_id: u64,
    pub cat_id: u64,
    pub spotlight: bool,
    pub default_voice: u64,
    pub channels: Seq<u64>,
    pub users: Seq<u64>,
}

/// A company: the guild it belongs to, its role, its category, whether its
/// channels sit in the spotlight category, its voice channel, the channels
/// paired with it and its users.
pub struct Company {
    pub guild_id: u64,
    role_id: u64,
    cat_id: u64,
    spotlight: bool,
    default_voice: u64,
    channels: Vec<u64>,
    users: Vec<u64>,
}

impl View for Company {
    type V = CompanyView;

    closed spec fn view(&self) -> CompanyView {
        CompanyView {
            guild_id: self.guild_id,
            role_id: self.role_id,
            cat_id: self.cat_id,
            spotlight: self.spotlight,
            default_voice: self.default_voice,
            channels: self.channels@,
            users: self.users@,
        }
    }
}

/// Where each channel of a company goes: to the spotlight category when the
/// spotlight starts, back to the company's own category when it ends.
pub open spec fn spotlight_moves(c: CompanyView, spotlight: Option<u64>) -> Seq<(u64, u64)> {
    let target = match spotlight {
        Some(s) => s,
        None => c.cat_id,
    };
    c.channels.map_values(|ch: u64| (ch, target))
}

impl Company {
    /// The company that the bot records once it has created, in guild
    /// `guild_id`, the role `role_id`, the category `cat_id`, the text channel
    /// `text_id` and the voice channel `voice_id`: not in the spotlight, with
    /// its voice and text channels paired, and no users.
    pub fn from_created(guild_id: u64, role_id: u64, cat_id: u64, text_id: u64, voice_id: u64) -> (r:
        Company)
        ensures
            r@ == (CompanyView {
                guild_id,
                role_id,
                cat_id,
                spotlight: false,
                default_voice: voice_id,
                channels: seq![voice_id, text_id],
                users: Seq::empty(),
            }),
    {
        let mut channels: Vec<u64> = Vec::new();
        channels.push(voice_id);
        channels.push(text_id);
        let r = Company {
            guild_id,
            role_id,
            cat_id,
            spotlight: false,
            default_voice: voice_id,
            channels,
            users: Vec::new(),
        };
        assert(r@.channels =~= seq![voice_id, text_id]);
        r
    }

    /// A company with the given state, as read back from the bot's saved file.
    pub fn from_parts(
        guild_id: u64,
        role_id: u64,
        cat_id: u64,
        spotlight: bool,
        default_voice: u64,
        channels: Vec<u64>,
        users: Vec<u64>,
    ) -> (r: Company)
        ensures
            r@ == (CompanyView {
                guild_id,
                role_id,
                cat_id,
                spotlight,
                default_voice,
                channels: channels@,
                users: users@,
            }),
    {
        Company { guild_id, role_id, cat_id, spotlight, default_voice, channels, users }
    }

    /// The company's guild.
    pub fn guild_id(&self) -> (r: u64)
        ensures
            r == self@.guild_id,
    {
        self.guild_id
    }

    /// The company's role.
    pub fn role_id(&self) -> (r: u64)
        ensures
            r == self@.role_id,
    {
        self.role_id
    }

    /// The company's own category.
    pub fn cat_id(&self) -> (r: u64)
        ensures
            r == self@.cat_id,
    {
        self.cat_id
    }

    /// Whether the company's channels are in the spotlight category.
    pub fn spotlight(&self) -> (r: bool)
        ensures
            r == self@.spotlight,
    {
        self.spotlight
    }

    /// The company's voice channel.
    pub fn default_voice(&self) -> (r: u64)
        ensures
            r == self@.default_voice,
    {
        self.default_voice
    }

    /// The channels paired with the company, in the order they were paired.
    pub fn channels(&self) -> (r: &Vec<u64>)
        ensures
            r@ == self@.channels,
    {
        &self.channels
    }

    /// The company's users.
    pub fn users(&self) -> (r: &Vec<u64>)
        ensures
            r@ == self@.users,
    {
        &self.users
    }

    /// Pairs a channel with the company, after those already paired.
    pub fn addch(&mut self, channel: u64)
        ensures
            final(self)@ == (CompanyView { channels: old(self)@.channels.push(channel), ..old(self)@ }),
    {
        self.channels.push(channel);
    }

    /// Unpairs a channel: its first occurrence leaves the list; a channel that
    /// is not paired changes nothing.
    pub fn rmch(&mut self, channel: u64)
        ensures
            final(self)@ == (CompanyView {
                channels: old(self)@.channels.remove_value(channel),
                ..old(self)@
            }),
    {
        let ghost pre = self@;
        let n = self.channels.len();
        let mut i: usize = 0;
        while i < n
            invariant
                self@ == pre,
                pre == old(self)@,
                n == self.channels@.len(),
                i <= n,
                forall|j: int| 0 <= j < i ==> self.channels@[j] != channel,
            decreases n - i,
        {
            if self.channels[i] == channel {
                proof {
                    self.channels@.index_of_first_ensures(channel);
                    let p = self.channels@.index_of_first(channel)->0;
                    assert(self.channels@.contains(channel)) by {
                        assert(self.channels@[i as int] == channel);
                    }
                    assert(p == i) by {
                        if p < i {
                        } else if p > i {
                        }
                    }
                }
                self.channels.remove(i);
                assert(self@.channels =~= pre.channels.remove_value(channel));
                return;
            }
            i = i + 1;
        }
        proof {
            self.channels@.index_of_first_ensures(channel);
            assert(!self.channels@.contains(channel));
        }
    }

    /// The category moves of a spotlight change: with `Some(spotlight)` every
    /// paired channel goes to the spotlight category; with `None` every one
    /// goes back to the company's own category.
    pub fn spotlight_plan(&self, spotlight: Option<u64>) -> (r: Vec<(u64, u64)>)
        ensures
            r@ == spotlight_moves(self@, spotlight),
    {
        let target = match spotlight {
            Some(s) => s,
            None => self.cat_id,
        };
        let mut moves: Vec<(u64, u64)> = Vec::new();
        let n = self.channels.len();
        let mut i: usize = 0;
        while i < n
            invariant
                n == self.channels@.len(),
                i <= n,
                target == (match spotlight {
                    Some(s) => s,
                    None => self.cat_id,
                }),
                moves@ =~= self.channels@.take(i as int).map_values(|ch: u64| (ch, target)),
            decreases n - i,
        {
            moves.push((self.channels[i], target));
            assert(self.channels@.take(i + 1) =~= self.channels@.take(i as int).push(
                self.channels@[i as int],
            ));
            i = i + 1;
        }
        assert(self.channels@.take(n as int) =~= self.channels@);
        moves
    }

    /// Records that every channel was moved: into the spotlight category
    /// (`on`) or back to the company's category (`!on`).
    pub fn set_spotlight(&mut self, on: bool)
        ensures
            final(self)@ == (CompanyView { spotlight: on, ..old(self)@ }),
    {
        self.spotlight = on;
    }
}

/// Law: pairing a channel that was not paired and unpairing it again leaves
/// the company as it was.
pub proof fn law_rmch_undoes_addch(c: CompanyView, channel: u64)
    requires
        !c.channels.contains(channel),
    ensures
        c.channels.push(channel).remove_value(channel) == c.channels,
{
    let s = c.channels.push(channel);
    s.index_of_first_ensures(channel);
    assert(s[c.channels.len() as int] == channel);
    let p = s.index_of_first(channel)->0;
    assert(p == c.channels.len()) by {
        if p < c.channels.len() {
            assert(c.channels[p] == channel);
        }
    }
    assert(s.remove(p) =~= c.channels);
}

/// Law: unpairing a channel removes exactly one occurrence of it, and no
/// other channel.
pub proof fn law_rmch_removes_one(c: CompanyView, channel: u64)
    ensures
        c.channels.contains(channel) ==> c.channels.remove_value(channel).len() + 1
            == c.channels.len(),
        !c.channels.contains(channel) ==> c.channels.remove_value(channel) == c.channels,
        forall|x: u64|
            x != channel ==> (#[trigger] c.channels.remove_value(channel).contains(x)
                <==> c.channels.contains(x)),
{
    let s = c.channels;
    s.index_of_first_ensures(channel);
    match s.index_of_first(channel) {
        Some(p) => {
            let t = s.remove(p);
            assert forall|x: u64| x != channel implies (#[trigger] t.contains(x) <==> s.contains(x)) by {
                if t.contains(x) {
                    let i = choose|i: int| 0 <= i < t.len() && t[i] == x;
                    if i < p {
                        assert(s[i] == x);
                    } else {
                        assert(s[i + 1] == x);
                    }
                }
                if s.contains(x) {
                    let i = choose|i: int| 0 <= i < s.len() && s[i] == x;
                    assert(i != p);
                    if i < p {
                        assert(t[i] == x);
                    } else {
                        assert(t[i - 1] == x);
                    }
                }
            }
        },
        None => {},
    }
}

/// Law: starting and then ending the spotlight sends every channel first to
/// the spotlight category and then back to the company's category, and leaves
/// the paired channels as they were.
pub proof fn law_spotlight_round_trip(c: CompanyView, spotlight: u64)
    ensures
        spotlight_moves(c, Some(spotlight)).len() == c.channels.len(),
        forall|i: int|
            0 <= i < c.channels.len() ==> #[trigger] spotlight_moves(c, Some(spotlight))[i] == (
            c.channels[i],
            spotlight,
        ) && spotlight_moves(CompanyView { spotlight: true, ..c }, None)[i] == (
            c.channels[i],
            c.cat_id,
        ),
{
}

} // verus!
