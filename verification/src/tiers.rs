//! Everything the bot keeps, guild by guild, and the decisions of the
//! spotlight and voice endpoints and of the commands that set a guild's
//! spotlight category and news channel.
use vstd::prelude::*;
use crate::assoc::{
    has_key, key_pos, keys_of, keys_unique, lemma_first_index_at, lemma_first_index_none,
    lemma_key_pos_at, lemma_key_pos_facts, lemma_key_pos_none,
};
use crate::company::CompanyView;
use crate::guild::{Guild, GuildView};
use crate::names::{normalize_name, normalized};
use crate::tier::TierView;

verus! {

/// All guilds that the bot keeps, each under its id, in the order in which the
/// bot first saw them.
pub struct Tiers {
    guilds: Vec<(u64, Guild)>,
}

/// The state of a (guild id, guild) entry.
pub open spec fn guild_entry_view(p: (u64, Guild)) -> (u64, GuildView) {
    (p.0, p.1@)
}

/// The state of a list of (guild id, guild) entries.
pub open spec fn guilds_view(s: Seq<(u64, Guild)>) -> Seq<(u64, GuildView)> {
    s.map_values(|p: (u64, Guild)| guild_entry_view(p))
}

/// The state of a guild that the bot has never configured.
pub open spec fn default_guild() -> GuildView {
    GuildView { tiers: Seq::empty(), spotlight: None, news_channel: None, spotlight_company: None }
}

/// No guild id occurs twice and every guild is well formed.
pub open spec fn tiers_wf(gs: Seq<(u64, GuildView)>) -> bool {
    &&& keys_unique(gs)
    &&& forall|i: int| 0 <= i < gs.len() ==> (#[trigger] gs[i]).1.wf()
}

/// The guild table once `gid` has an entry: unchanged if it had one, else
/// with a default guild appended.
pub open spec fn with_guild(gs: Seq<(u64, GuildView)>, gid: u64) -> Seq<(u64, GuildView)> {
    if has_key(gs, gid) {
        gs
    } else {
        gs.push((gid, default_guild()))
    }
}

/// The guild table with the guild `gid` (made if missing) replaced by `g`.
pub open spec fn update_guild(
    gs: Seq<(u64, GuildView)>,
    gid: u64,
    g: GuildView,
) -> Seq<(u64, GuildView)> {
    let base = with_guild(gs, gid);
    base.update(key_pos(base, gid)->0, (gid, g))
}

/// The guild `gid` as it stands in the table once it has an entry.
pub open spec fn guild_of(gs: Seq<(u64, GuildView)>, gid: u64) -> GuildView {
    let base = with_guild(gs, gid);
    base[key_pos(base, gid)->0].1
}

/// For each guild, whether the spotlight can start there for the company
/// `name`: the guild has the company and a spotlight category.
pub open spec fn start_candidates(gs: Seq<(u64, GuildView)>, name: Seq<char>) -> Seq<bool> {
    gs.map_values(|g: (u64, GuildView)| g.1.company(name) is Some && g.1.spotlight is Some)
}

/// For each guild, whether its spotlight can end there: it has a company in
/// the spotlight and still has that company.
pub open spec fn end_candidates(gs: Seq<(u64, GuildView)>) -> Seq<bool> {
    gs.map_values(
        |g: (u64, GuildView)|
            match g.1.spotlight_company {
                Some(n) => g.1.company(n) is Some,
                None => false,
            },
    )
}

/// For each guild, whether it has the company `name`.
pub open spec fn having(gs: Seq<(u64, GuildView)>, name: Seq<char>) -> Seq<bool> {
    gs.map_values(|g: (u64, GuildView)| g.1.company(name) is Some)
}

/// The guild, company name and spotlight category where the spotlight
/// endpoint starts the spotlight of the company typed as `raw`: the first
/// guild, in order, that has the company and a spotlight category.
pub open spec fn start_target(gs: Seq<(u64, GuildView)>, raw: Seq<char>) -> Option<
    (u64, Seq<char>, u64),
> {
    let name = normalized(raw);
    match start_candidates(gs, name).index_of_first(true) {
        Some(i) => match gs[i].1.spotlight {
            Some(s) => Some((gs[i].0, name, s)),
            None => None,
        },
        None => None,
    }
}

/// The guild and company where the spotlight endpoint ends the spotlight: the
/// first guild, in order, whose company in the spotlight it still has.
pub open spec fn end_target(gs: Seq<(u64, GuildView)>) -> Option<(u64, Seq<char>)> {
    match end_candidates(gs).index_of_first(true) {
        Some(i) => match gs[i].1.spotlight_company {
            Some(n) => Some((gs[i].0, n)),
            None => None,
        },
        None => None,
    }
}

/// The voice channel of the company typed as `raw`, from the first guild, in
/// order, that has it.
pub open spec fn voice_of(gs: Seq<(u64, GuildView)>, raw: Seq<char>) -> Option<u64> {
    let name = normalized(raw);
    match having(gs, name).index_of_first(true) {
        Some(i) => match gs[i].1.company(name) {
            Some(p) => Some(p.0.default_voice),
            None => None,
        },
        None => None,
    }
}

/// The guild table after the spotlight of company `name` in guild `gid`
/// started (`on`) or ended (`!on`): the company records it, and the guild
/// records the company in the spotlight (or none).  Nothing changes if the
/// guild or the company is missing.
pub open spec fn mark_spotlight(
    gs: Seq<(u64, GuildView)>,
    gid: u64,
    name: Seq<char>,
    on: bool,
) -> Seq<(u64, GuildView)> {
    match key_pos(gs, gid) {
        Some(i) => match gs[i].1.company(name) {
            Some(p) => gs.update(
                i,
                (
                    gid,
                    GuildView {
                        spotlight_company: if on {
                            Some(name)
                        } else {
                            None
                        },
                        ..gs[i].1.replace_company(name, CompanyView { spotlight: on, ..p.0 })
                    },
                ),
            ),
            None => gs,
        },
        None => gs,
    }
}

/// Where the spotlight endpoint starts a company's spotlight.
pub struct SpotlightStart {
    pub guild_id: u64,
    pub company: String,
    pub spotlight: u64,
}

/// Where the spotlight endpoint ends a company's spotlight.
pub struct SpotlightEnd {
    pub guild_id: u64,
    pub company: String,
}

impl View for Tiers {
    type V = Seq<(u64, GuildView)>;

    closed spec fn view(&self) -> Seq<(u64, GuildView)> {
        guilds_view(self.guilds@)
    }
}

proof fn lemma_with_guild(gs: Seq<(u64, GuildView)>, gid: u64)
    ensures
        has_key(with_guild(gs, gid), gid),
        key_pos(with_guild(gs, gid), gid) is Some,
        0 <= key_pos(with_guild(gs, gid), gid)->0 < with_guild(gs, gid).len(),
        with_guild(gs, gid)[key_pos(with_guild(gs, gid), gid)->0].0 == gid,
        tiers_wf(gs) ==> tiers_wf(with_guild(gs, gid)),
        keys_of(with_guild(gs, gid).update(key_pos(with_guild(gs, gid), gid)->0, (gid, default_guild())))
            == keys_of(with_guild(gs, gid)),
{
    lemma_key_pos_facts(gs, gid);
    let base = with_guild(gs, gid);
    if !has_key(gs, gid) {
        assert forall|j: int| 0 <= j < gs.len() implies base[j].0 != gid by {}
        lemma_key_pos_at(base, gid, gs.len() as int);
        if tiers_wf(gs) {
            let kb = keys_of(base);
            let kg = keys_of(gs);
            assert forall|a: int, b: int| 0 <= a < kb.len() && 0 <= b < kb.len() && a != b implies kb[a]
                != kb[b] by {
                if a < gs.len() {
                    assert(kg[a] == gs[a].0);
                }
                if b < gs.len() {
                    assert(kg[b] == gs[b].0);
                }
            }
            assert(default_guild().tiers =~= Seq::<(Seq<char>, TierView)>::empty());
            assert(keys_of(default_guild().tiers) =~= Seq::<Seq<char>>::empty());
            assert forall|k: int| 0 <= k < base.len() implies (#[trigger] base[k]).1.wf() by {
                if k < gs.len() {
                    assert(base[k] == gs[k]);
                }
            }
        }
    }
    lemma_key_pos_facts(base, gid);
    let i = key_pos(base, gid)->0;
    assert(keys_of(base.update(i, (gid, default_guild()))) =~= keys_of(base));
}

impl Tiers {
    /// Which entry holds the guild `gid`.
    fn find_guild(&self, gid: u64) -> (r: Option<usize>)
        ensures
            match r {
                Some(i) => key_pos(self@, gid) == Some(i as int) && i < self@.len(),
                None => key_pos(self@, gid) == None::<int>,
            },
    {
        let n = self.guilds.len();
        let mut i: usize = 0;
        while i < n
            invariant
                n == self@.len(),
                i <= n,
                forall|j: int| 0 <= j < i ==> self@[j].0 != gid,
            decreases n - i,
        {
            assert(self@[i as int] == guild_entry_view(self.guilds@[i as int]));
            if self.guilds[i].0 == gid {
                proof {
                    lemma_key_pos_at(self@, gid, i as int);
                }
                return Some(i);
            }
            i = i + 1;
        }
        proof {
            lemma_key_pos_none(self@, gid);
        }
        None
    }

    /// The guilds with their ids, in order.
    pub fn guilds(&self) -> (r: &Vec<(u64, Guild)>)
        ensures
            guilds_view(r@) == self@,
    {
        &self.guilds
    }

    /// The guild `gid`, made with default settings if the bot did not have
    /// it yet, to be changed in place.
    pub fn guild(&mut self, gid: u64) -> (r: &mut Guild)
        ensures
            r@ == guild_of(old(self)@, gid),
            tiers_wf(old(self)@) ==> r@.wf(),
            final(self)@ == update_guild(old(self)@, gid, final(r)@),
            (tiers_wf(old(self)@) && final(r)@.wf()) ==> tiers_wf(final(self)@),
    {
        let ghost v0 = self@;
        proof {
            lemma_with_guild(v0, gid);
        }
        let i = match self.find_guild(gid) {
            Some(i) => i,
            None => {
                let ghost pre = self.guilds@;
                self.guilds.push((gid, Guild::default()));
                assert(self@ =~= v0.push((gid, default_guild())));
                proof {
                    lemma_key_pos_facts(v0, gid);
                }
                self.guilds.len() - 1
            },
        };
        let ghost base = self@;
        proof {
            lemma_key_pos_facts(v0, gid);
            assert(base == with_guild(v0, gid));
            lemma_key_pos_facts(base, gid);
            assert(base[i as int].0 == gid);
            if i as int != key_pos(base, gid)->0 {
                lemma_key_pos_at(base, gid, i as int);
            }
            assert(key_pos(base, gid) == Some(i as int)) by {
                if has_key(v0, gid) {
                } else {
                    assert forall|j: int| 0 <= j < i implies base[j].0 != gid by {}
                    lemma_key_pos_at(base, gid, i as int);
                }
            }
            let pre = self.guilds@;
            assert(self@[i as int] == guild_entry_view(pre[i as int]));
            if tiers_wf(v0) {
                assert(tiers_wf(base));
                assert(base[i as int].1.wf());
            }
            assert forall|x: Guild|
                #[trigger] guilds_view(pre.update(i as int, (pre[i as int].0, x))) == base.update(
                    i as int,
                    (gid, x@),
                ) by {
                assert(guilds_view(pre.update(i as int, (pre[i as int].0, x))) =~= base.update(
                    i as int,
                    (gid, x@),
                ));
            }
            assert forall|x: GuildView| tiers_wf(v0) && x.wf() implies #[trigger] tiers_wf(
                base.update(i as int, (gid, x)),
            ) by {
                let b2 = base.update(i as int, (gid, x));
                assert(keys_of(b2) =~= keys_of(base));
                assert forall|k: int| 0 <= k < b2.len() implies (#[trigger] b2[k]).1.wf() by {
                    if k != i {
                        assert(b2[k] == base[k]);
                    }
                }
            }
        }
        &mut self.guilds[i].1
    }

    /// Sets the spotlight category of guild `gid`, making the guild if the
    /// bot did not have it.
    pub fn set_spotlight(&mut self, gid: u64, category: u64)
        ensures
            final(self)@ == update_guild(
                old(self)@,
                gid,
                GuildView { spotlight: Some(category), ..guild_of(old(self)@, gid) },
            ),
            tiers_wf(old(self)@) ==> tiers_wf(final(self)@),
    {
        let g = self.guild(gid);
        g.set_spotlight(Some(category));
    }

    /// Sets the news channel of guild `gid`, making the guild if the bot did
    /// not have it.
    pub fn set_news_channel(&mut self, gid: u64, channel: u64)
        ensures
            final(self)@ == update_guild(
                old(self)@,
                gid,
                GuildView { news_channel: Some(channel), ..guild_of(old(self)@, gid) },
            ),
            tiers_wf(old(self)@) ==> tiers_wf(final(self)@),
    {
        let g = self.guild(gid);
        g.set_news_channel(Some(channel));
    }

    /// Where the spotlight endpoint starts the spotlight of the company typed
    /// as `company_name`.
    pub fn spotlight_start_target(&self, company_name: &str) -> (r: Option<SpotlightStart>)
        ensures
            match r {
                Some(t) => start_target(self@, company_name@) == Some(
                    (t.guild_id, t.company@, t.spotlight),
                ),
                None => start_target(self@, company_name@) is None,
            },
    {
        let name = normalize_name(company_name);
        let ghost c = start_candidates(self@, name@);
        let n = self.guilds.len();
        let mut i: usize = 0;
        while i < n
            invariant
                n == self@.len(),
                i <= n,
                c == start_candidates(self@, name@),
                name@ == normalized(company_name@),
                forall|j: int| 0 <= j < i ==> c[j] != true,
            decreases n - i,
        {
            assert(self@[i as int] == guild_entry_view(self.guilds@[i as int]));
            let g = &self.guilds[i].1;
            let spot = g.spotlight();
            if g.find_company(name.as_str()).is_some() {
                match spot {
                    Some(s) => {
                        proof {
                            lemma_first_index_at(c, true, i as int);
                        }
                        return Some(
                            SpotlightStart { guild_id: self.guilds[i].0, company: name, spotlight: s },
                        );
                    },
                    None => {},
                }
            }
            i = i + 1;
        }
        proof {
            lemma_first_index_none(c, true);
        }
        None
    }

    /// Records the outcome of moving the channels of a company into the
    /// spotlight and gives the endpoint's answer: when every move succeeded,
    /// the company is in the spotlight, its guild says so, and the answer is
    /// success; otherwise nothing changes and the answer is an error.
    pub fn finish_spotlight_start(&mut self, target: &SpotlightStart, moved: bool) -> (r: Option<()>)
        ensures
            final(self)@ == if moved {
                mark_spotlight(old(self)@, target.guild_id, target.company@, true)
            } else {
                old(self)@
            },
            r is Some <==> moved,
            tiers_wf(old(self)@) ==> tiers_wf(final(self)@),
    {
        if moved {
            self.mark(target.guild_id, &target.company, true);
            Some(())
        } else {
            None
        }
    }

    /// Where the spotlight endpoint ends the spotlight.
    pub fn spotlight_end_target(&self) -> (r: Option<SpotlightEnd>)
        ensures
            match r {
                Some(t) => end_target(self@) == Some((t.guild_id, t.company@)),
                None => end_target(self@) is None,
            },
    {
        let ghost c = end_candidates(self@);
        let n = self.guilds.len();
        let mut i: usize = 0;
        while i < n
            invariant
                n == self@.len(),
                i <= n,
                c == end_candidates(self@),
                forall|j: int| 0 <= j < i ==> c[j] != true,
            decreases n - i,
        {
            assert(self@[i as int] == guild_entry_view(self.guilds@[i as int]));
            let g = &self.guilds[i].1;
            match g.spotlight_company() {
                Some(name) => {
                    if g.find_company(name.as_str()).is_some() {
                        proof {
                            lemma_first_index_at(c, true, i as int);
                        }
                        return Some(SpotlightEnd { guild_id: self.guilds[i].0, company: name.clone() });
                    }
                },
                None => {},
            }
            i = i + 1;
        }
        proof {
            lemma_first_index_none(c, true);
        }
        None
    }

    /// Records the outcome of moving the channels of a company back out of
    /// the spotlight and gives the endpoint's answer: when every move
    /// succeeded, the company is out of the spotlight, its guild has no
    /// company in the spotlight, and the answer is success; otherwise nothing
    /// changes and the answer is an error.
    pub fn finish_spotlight_end(&mut self, target: &SpotlightEnd, moved: bool) -> (r: Option<()>)
        ensures
            final(self)@ == if moved {
                mark_spotlight(old(self)@, target.guild_id, target.company@, false)
            } else {
                old(self)@
            },
            r is Some <==> moved,
            tiers_wf(old(self)@) ==> tiers_wf(final(self)@),
    {
        if moved {
            self.mark(target.guild_id, &target.company, false);
            Some(())
        } else {
            None
        }
    }

    fn mark(&mut self, gid: u64, name: &String, on: bool)
        ensures
            final(self)@ == mark_spotlight(old(self)@, gid, name@, on),
            tiers_wf(old(self)@) ==> tiers_wf(final(self)@),
    {
        let ghost v0 = self@;
        match self.find_guild(gid) {
            Some(i) => {
                assert(self@[i as int] == guild_entry_view(self.guilds@[i as int]));
                let ghost pre = self.guilds@;
                let ghost g0 = v0[i as int].1;
                proof {
                    lemma_key_pos_facts(v0, gid);
                    assert forall|x: Guild|
                        #[trigger] guilds_view(pre.update(i as int, (pre[i as int].0, x)))
                            == v0.update(i as int, (gid, x@)) by {
                        assert(guilds_view(pre.update(i as int, (pre[i as int].0, x))) =~= v0.update(
                            i as int,
                            (gid, x@),
                        ));
                    }
                    assert forall|x: GuildView| tiers_wf(v0) && x.wf() implies #[trigger] tiers_wf(
                        v0.update(i as int, (gid, x)),
                    ) by {
                        let b2 = v0.update(i as int, (gid, x));
                        assert(keys_of(b2) =~= keys_of(v0));
                        assert forall|k: int| 0 <= k < b2.len() implies (#[trigger] b2[k]).1.wf() by {
                            if k != i {
                                assert(b2[k] == v0[k]);
                            }
                        }
                    }
                }
                let g = &mut self.guilds[i].1;
                match g.find_company_mut(name.as_str()) {
                    Some(c) => {
                        c.set_spotlight(on);
                    },
                    None => {
                        return;
                    },
                }
                if on {
                    g.set_spotlight_company(Some(name.clone()));
                } else {
                    g.set_spotlight_company(None);
                }
            },
            None => {},
        }
    }

    /// The voice channel of the company typed as `company_name`, from the
    /// first guild that has it.
    pub fn company_voice(&self, company_name: &str) -> (r: Option<u64>)
        ensures
            r == voice_of(self@, company_name@),
    {
        let name = normalize_name(company_name);
        let ghost c = having(self@, name@);
        let n = self.guilds.len();
        let mut i: usize = 0;
        while i < n
            invariant
                n == self@.len(),
                i <= n,
                c == having(self@, name@),
                name@ == normalized(company_name@),
                forall|j: int| 0 <= j < i ==> c[j] != true,
            decreases n - i,
        {
            assert(self@[i as int] == guild_entry_view(self.guilds@[i as int]));
            match self.guilds[i].1.find_company(name.as_str()) {
                Some(p) => {
                    proof {
                        lemma_first_index_at(c, true, i as int);
                    }
                    return Some(p.0.default_voice());
                },
                None => {},
            }
            i = i + 1;
        }
        proof {
            lemma_first_index_none(c, true);
        }
        None
    }
}

/// Law: the guild written back under an id is what a later read of that id
/// gives, and no other guild changes.
pub proof fn law_guild_after_update(gs: Seq<(u64, GuildView)>, gid: u64, g: GuildView, other: u64)
    ensures
        guild_of(update_guild(gs, gid, g), gid) == g,
        other != gid ==> crate::assoc::lookup(update_guild(gs, gid, g), other)
            == crate::assoc::lookup(gs, other),
{
    lemma_with_guild(gs, gid);
    let base = with_guild(gs, gid);
    let i = key_pos(base, gid)->0;
    let t = base.update(i, (gid, g));
    lemma_key_pos_facts(base, gid);
    assert forall|j: int| 0 <= j < i implies t[j].0 != gid by {}
    lemma_key_pos_at(t, gid, i);
    assert(with_guild(t, gid) == t);
    if other != gid {
        lemma_key_pos_facts(gs, other);
        lemma_key_pos_facts(base, other);
        lemma_key_pos_facts(t, other);
        match key_pos(gs, other) {
            Some(p) => {
                assert forall|j: int| 0 <= j < p implies base[j].0 != other by {}
                lemma_key_pos_at(base, other, p);
                assert forall|j: int| 0 <= j < p implies t[j].0 != other by {}
                assert(t[p] == base[p]);
                lemma_key_pos_at(t, other, p);
            },
            None => {
                assert forall|j: int| 0 <= j < t.len() implies t[j].0 != other by {
                    if j != i && j < gs.len() {
                        assert(t[j] == gs[j]);
                    }
                }
                lemma_key_pos_none(t, other);
            },
        }
    }
}

/// Law: ending a company's spotlight right after starting it, both with every
/// channel moved, gives back the guild table as it was, when the company was
/// not in the spotlight and its guild had no company in the spotlight.
pub proof fn law_spotlight_end_undoes_start(
    gs: Seq<(u64, GuildView)>,
    gid: u64,
    name: Seq<char>,
    before: CompanyView,
    role: u64,
)
    requires
        crate::assoc::lookup(gs, gid) matches Some(g) && g.company(name) == Some((before, role))
            && g.spotlight_company is None,
        !before.spotlight,
    ensures
        mark_spotlight(mark_spotlight(gs, gid, name, true), gid, name, false) == gs,
{
    lemma_key_pos_facts(gs, gid);
    let i = key_pos(gs, gid)->0;
    let g = gs[i].1;
    let on = CompanyView { spotlight: true, ..before };
    let g1 = GuildView { spotlight_company: Some(name), ..g.replace_company(name, on) };
    let gs1 = mark_spotlight(gs, gid, name, true);
    assert(gs1 == gs.update(i, (gid, g1)));
    crate::guild::law_find_after_replace(g, name, before, role, on);
    assert(g1.company(name) == Some((on, role)));
    assert forall|j: int| 0 <= j < i implies gs1[j].0 != gid by {}
    lemma_key_pos_at(gs1, gid, i);
    let off = CompanyView { spotlight: false, ..on };
    assert(off == before);
    crate::guild::law_replace_company_twice(g, name, before, role, on, off);
    let g2 = GuildView { spotlight_company: None, ..g1.replace_company(name, off) };
    assert(g1.replace_company(name, off) == GuildView {
        spotlight_company: Some(name),
        ..g.replace_company(name, on).replace_company(name, off)
    });
    assert(g2 == g);
    assert(gs1.update(i, (gid, g2)) =~= gs);
}

/// Law: the spotlight endpoint starts the spotlight in a guild that has the
/// company and a spotlight category, and in no guild before it does the
/// company have both; it answers "not found" exactly when no guild has both.
pub proof fn law_start_target_is_first_ready_guild(gs: Seq<(u64, GuildView)>, raw: Seq<char>)
    ensures
        match start_target(gs, raw) {
            Some(t) => exists|i: int|
                0 <= i < gs.len() && #[trigger] gs[i].0 == t.0 && t.1 == normalized(raw)
                    && gs[i].1.company(t.1) is Some && gs[i].1.spotlight == Some(t.2) && forall|
                    j: int,
                | 0 <= j < i ==> !(gs[j].1.company(t.1) is Some && gs[j].1.spotlight is Some),
            None => forall|i: int|
                0 <= i < gs.len() ==> !((#[trigger] gs[i]).1.company(normalized(raw)) is Some
                    && gs[i].1.spotlight is Some),
        },
{
    let name = normalized(raw);
    let c = start_candidates(gs, name);
    c.index_of_first_ensures(true);
    match c.index_of_first(true) {
        Some(i) => {
            assert(c[i] == (gs[i].1.company(name) is Some && gs[i].1.spotlight is Some));
            assert forall|j: int| 0 <= j < i implies !(gs[j].1.company(name) is Some
                && gs[j].1.spotlight is Some) by {
                assert(c[j] == (gs[j].1.company(name) is Some && gs[j].1.spotlight is Some));
            }
        },
        None => {
            assert forall|i: int| 0 <= i < gs.len() implies !((#[trigger] gs[i]).1.company(name) is Some
                && gs[i].1.spotlight is Some) by {
                assert(c[i] == (gs[i].1.company(name) is Some && gs[i].1.spotlight is Some));
                if c[i] {
                    assert(c.contains(true));
                }
            }
        },
    }
}

/// Law: the voice endpoint finds a company exactly when some guild has it.
pub proof fn law_voice_found_iff_some_guild_has_company(gs: Seq<(u64, GuildView)>, raw: Seq<char>)
    ensures
        voice_of(gs, raw) is Some <==> exists|i: int|
            0 <= i < gs.len() && (#[trigger] gs[i]).1.company(normalized(raw)) is Some,
{
    let name = normalized(raw);
    let c = having(gs, name);
    c.index_of_first_ensures(true);
    match c.index_of_first(true) {
        Some(i) => {
            assert(c[i] == (gs[i].1.company(name) is Some));
        },
        None => {
            if exists|i: int| 0 <= i < gs.len() && (#[trigger] gs[i]).1.company(name) is Some {
                let i = choose|i: int| 0 <= i < gs.len() && (#[trigger] gs[i]).1.company(name) is Some;
                assert(c[i] == (gs[i].1.company(name) is Some));
                assert(c.contains(true));
            }
        },
    }
}

/// Law: the voice endpoint gives the default voice channel of the company
/// typed, taken from the first guild, in order, that has the company; it
/// gives nothing exactly when no guild has it.
pub proof fn law_voice_is_default_voice(gs: Seq<(u64, GuildView)>, raw: Seq<char>)
    ensures
        match voice_of(gs, raw) {
            Some(v) => exists|i: int|
                0 <= i < gs.len() && (forall|j: int|
                    0 <= j < i ==> gs[j].1.company(normalized(raw)) is None) && ((
                #[trigger] gs[i]).1.company(normalized(raw)) matches Some(p)
                    && p.0.default_voice == v),
            None => forall|i: int|
                0 <= i < gs.len() ==> (#[trigger] gs[i]).1.company(normalized(raw)) is None,
        },
{
    let name = normalized(raw);
    let c = having(gs, name);
    c.index_of_first_ensures(true);
    match c.index_of_first(true) {
        Some(i) => {
            assert(c[i] == (gs[i].1.company(name) is Some));
            assert forall|j: int| 0 <= j < i implies gs[j].1.company(name) is None by {
                assert(c[j] == (gs[j].1.company(name) is Some));
            }
            assert(gs[i].1.company(name) is Some);
        },
        None => {
            assert forall|i: int| 0 <= i < gs.len() implies (#[trigger] gs[i]).1.company(name) is None by {
                assert(c[i] == (gs[i].1.company(name) is Some));
                if c[i] {
                    assert(c.contains(true));
                }
            }
        },
    }
}

/// Law: a successful spotlight start (`on`) or end of company `name` in guild
/// `gid` records, whatever was recorded before, that this company is (or no
/// company is) in the spotlight; the company's flag follows, its other state
/// and its tier's role stay, the guild's categories and channel stay, and no
/// other guild changes.  Without that guild or company nothing changes.
pub proof fn law_mark_records_company(
    gs: Seq<(u64, GuildView)>,
    gid: u64,
    name: Seq<char>,
    on: bool,
    other: u64,
)
    ensures
        match crate::assoc::lookup(gs, gid) {
            Some(g) => match g.company(name) {
                Some(p) => match crate::assoc::lookup(mark_spotlight(gs, gid, name, on), gid) {
                    Some(g2) => {
                        &&& g2.spotlight_company == if on {
                            Some(name)
                        } else {
                            None::<Seq<char>>
                        }
                        &&& g2.company(name) == Some((CompanyView { spotlight: on, ..p.0 }, p.1))
                        &&& g2.spotlight == g.spotlight
                        &&& g2.news_channel == g.news_channel
                    },
                    None => false,
                },
                None => mark_spotlight(gs, gid, name, on) == gs,
            },
            None => mark_spotlight(gs, gid, name, on) == gs,
        },
        other != gid ==> crate::assoc::lookup(mark_spotlight(gs, gid, name, on), other)
            == crate::assoc::lookup(gs, other),
{
    lemma_key_pos_facts(gs, gid);
    match key_pos(gs, gid) {
        Some(i) => {
            let g = gs[i].1;
            match g.company(name) {
                Some(p) => {
                    let c2 = CompanyView { spotlight: on, ..p.0 };
                    let g2 = GuildView {
                        spotlight_company: if on {
                            Some(name)
                        } else {
                            None
                        },
                        ..g.replace_company(name, c2)
                    };
                    assert(mark_spotlight(gs, gid, name, on) == gs.update(i, (gid, g2)));
                    assert(gs.update(i, (gid, g2)) == crate::assoc::insert_entry(gs, gid, g2));
                    crate::assoc::law_lookup_after_insert(gs, gid, g2);
                    if other != gid {
                        crate::assoc::law_lookup_other_after_insert(gs, gid, g2, other);
                    }
                    crate::guild::law_find_after_replace(g, name, p.0, p.1, c2);
                    assert(g2.tiers == g.replace_company(name, c2).tiers);
                    assert(g2.company(name) == g.replace_company(name, c2).company(name));
                },
                None => {},
            }
        },
        None => {},
    }
}

impl Default for Tiers {
    /// No guild at all.
    fn default() -> (r: Tiers)
        ensures
            r@ == Seq::<(u64, GuildView)>::empty(),
            tiers_wf(r@),
    {
        let r = Tiers { guilds: Vec::new() };
        assert(r@ =~= Seq::<(u64, GuildView)>::empty());
        r
    }
}

} // verus!
