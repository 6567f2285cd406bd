//! What the bot keeps of one Discord guild: its tiers by name, its spotlight
//! category, its news channel and the company in the spotlight.
use vstd::prelude::*;
use crate::assoc::{
    has_key, insert_entry, key_pos, keys_of, keys_unique, law_insert_keeps_unique,
    law_remove_keeps_unique, lemma_first_index_at, lemma_first_index_none, lemma_key_pos_at,
    lemma_key_pos_facts, lemma_key_pos_none, lookup, remove_entry,
};
use crate::company::{Company, CompanyView};
use crate::names::str_eq;
use crate::tier::{Tier, TierView};

verus! {

/// The state of a guild.
pub struct GuildView {
    pub tiers: Seq<(Seq<char>, TierView)>,
    pub spotlight: Option<u64>,
    pub news_channel: Option<u64>,
    pub spotlight_company: Option<Seq<char>>,
}

/// A guild: its tiers by name, the category where companies in the spotlight
/// are moved, the channel where news are posted, and the company in the
/// spotlight.
pub struct Guild {
    tiers: Vec<(String, Tier)>,
    spotlight: Option<u64>,
    news_channel: Option<u64>,
    spotlight_company: Option<String>,
}

/// The state of a (name, tier) entry.
pub open spec fn tier_entry_view(p: (String, Tier)) -> (Seq<char>, TierView) {
    (p.0@, p.1@)
}

/// The state of a list of (name, tier) entries.
pub open spec fn tiers_view(s: Seq<(String, Tier)>) -> Seq<(Seq<char>, TierView)> {
    s.map_values(|p: (String, Tier)| tier_entry_view(p))
}

/// The state of an optional string.
pub open spec fn opt_string_view(s: Option<String>) -> Option<Seq<char>> {
    match s {
        Some(x) => Some(x@),
        None => None,
    }
}

/// For each tier, whether it has a company called `name`.
pub open spec fn holders(tiers: Seq<(Seq<char>, TierView)>, name: Seq<char>) -> Seq<bool> {
    tiers.map_values(|t: (Seq<char>, TierView)| has_key(t.1.companies, name))
}

/// The first tier, in order, that has a company called `name`.
pub open spec fn company_tier(tiers: Seq<(Seq<char>, TierView)>, name: Seq<char>) -> Option<int> {
    holders(tiers, name).index_of_first(true)
}

impl View for Guild {
    type V = GuildView;

    closed spec fn view(&self) -> GuildView {
        GuildView {
            tiers: tiers_view(self.tiers@),
            spotlight: self.spotlight,
            news_channel: self.news_channel,
            spotlight_company: opt_string_view(self.spotlight_company),
        }
    }
}

impl GuildView {
    /// No tier name occurs twice, and every tier is well formed.
    pub open spec fn wf(self) -> bool {
        &&& keys_unique(self.tiers)
        &&& forall|i: int| 0 <= i < self.tiers.len() ==> (#[trigger] self.tiers[i]).1.wf()
    }

    /// The company called `name`, with the role of its tier: it is looked up
    /// in the tiers in order, and the first tier that has it wins.
    pub open spec fn company(self, name: Seq<char>) -> Option<(CompanyView, u64)> {
        match company_tier(self.tiers, name) {
            Some(i) => match lookup(self.tiers[i].1.companies, name) {
                Some(c) => Some((c, self.tiers[i].1.role_id)),
                None => None,
            },
            None => None,
        }
    }

    /// The guild with the company that `company(name)` finds replaced by `c`.
    pub open spec fn replace_company(self, name: Seq<char>, c: CompanyView) -> GuildView {
        match company_tier(self.tiers, name) {
            Some(i) => {
                let t = self.tiers[i].1;
                match key_pos(t.companies, name) {
                    Some(j) => GuildView {
                        tiers: self.tiers.update(
                            i,
                            (
                                self.tiers[i].0,
                                TierView { companies: t.companies.update(j, (name, c)), ..t },
                            ),
                        ),
                        ..self
                    },
                    None => self,
                }
            },
            None => self,
        }
    }

    /// The guild with the company called `name` taken out of the first tier
    /// that has it.
    pub open spec fn without_company(self, name: Seq<char>) -> GuildView {
        match company_tier(self.tiers, name) {
            Some(i) => {
                let t = self.tiers[i].1;
                GuildView {
                    tiers: self.tiers.update(
                        i,
                        (
                            self.tiers[i].0,
                            TierView { companies: remove_entry(t.companies, name), ..t },
                        ),
                    ),
                    ..self
                }
            },
            None => self,
        }
    }
}

/// What `company_tier` tells of the tiers.
pub proof fn lemma_company_tier_facts(tiers: Seq<(Seq<char>, TierView)>, name: Seq<char>)
    ensures
        match company_tier(tiers, name) {
            Some(i) => 0 <= i < tiers.len() && has_key(tiers[i].1.companies, name) && (forall|
                j: int,
            | 0 <= j < i ==> !has_key(tiers[j].1.companies, name)),
            None => forall|j: int| 0 <= j < tiers.len() ==> !has_key(tiers[j].1.companies, name),
        },
{
    let h = holders(tiers, name);
    h.index_of_first_ensures(true);
    match company_tier(tiers, name) {
        Some(i) => {
            assert(h[i] == has_key(tiers[i].1.companies, name));
            assert forall|j: int| 0 <= j < i implies !has_key(tiers[j].1.companies, name) by {
                assert(h[j] == has_key(tiers[j].1.companies, name));
            }
        },
        None => {
            assert forall|j: int| 0 <= j < tiers.len() implies !has_key(
                tiers[j].1.companies,
                name,
            ) by {
                assert(h[j] == has_key(tiers[j].1.companies, name));
                if h[j] {
                    assert(h.contains(true));
                }
            }
        },
    }
}

impl Guild {
    /// A guild with all its parts given, as read back from the bot's saved
    /// file: no tiers yet, which `put` then adds.
    pub fn from_settings(
        spotlight: Option<u64>,
        news_channel: Option<u64>,
        spotlight_company: Option<String>,
    ) -> (r: Guild)
        ensures
            r@ == (GuildView {
                tiers: Seq::empty(),
                spotlight,
                news_channel,
                spotlight_company: opt_string_view(spotlight_company),
            }),
            r@.wf(),
    {
        let r = Guild { tiers: Vec::new(), spotlight, news_channel, spotlight_company };
        assert(r@.tiers =~= Seq::<(Seq<char>, TierView)>::empty());
        r
    }

    /// The category where companies in the spotlight are moved.
    pub fn spotlight(&self) -> (r: Option<u64>)
        ensures
            r == self@.spotlight,
    {
        self.spotlight
    }

    /// The channel where news are posted.
    pub fn news_channel(&self) -> (r: Option<u64>)
        ensures
            r == self@.news_channel,
    {
        self.news_channel
    }

    /// The company in the spotlight.
    pub fn spotlight_company(&self) -> (r: &Option<String>)
        ensures
            opt_string_view(*r) == self@.spotlight_company,
    {
        &self.spotlight_company
    }

    /// Sets the spotlight category.
    pub fn set_spotlight(&mut self, category: Option<u64>)
        ensures
            final(self)@ == (GuildView { spotlight: category, ..old(self)@ }),
    {
        self.spotlight = category;
    }

    /// Sets the news channel.
    pub fn set_news_channel(&mut self, channel: Option<u64>)
        ensures
            final(self)@ == (GuildView { news_channel: channel, ..old(self)@ }),
    {
        self.news_channel = channel;
    }

    /// Sets the company in the spotlight.
    pub fn set_spotlight_company(&mut self, company: Option<String>)
        ensures
            final(self)@ == (GuildView {
                spotlight_company: opt_string_view(company),
                ..old(self)@
            }),
    {
        self.spotlight_company = company;
    }

    /// The tiers with their names, in order.
    pub fn iter(&self) -> (r: &Vec<(String, Tier)>)
        ensures
            tiers_view(r@) == self@.tiers,
    {
        &self.tiers
    }

    /// Where the tier called `name` is kept.
    fn find_tier(&self, name: &str) -> (r: Option<usize>)
        ensures
            match r {
                Some(i) => key_pos(self@.tiers, name@) == Some(i as int) && i
                    < self@.tiers.len(),
                None => key_pos(self@.tiers, name@) == None::<int>,
            },
    {
        let n = self.tiers.len();
        let mut i: usize = 0;
        while i < n
            invariant
                n == self@.tiers.len(),
                i <= n,
                forall|j: int| 0 <= j < i ==> self@.tiers[j].0 != name@,
            decreases n - i,
        {
            assert(self@.tiers[i as int] == tier_entry_view(self.tiers@[i as int]));
            if str_eq(self.tiers[i].0.as_str(), name) {
                proof {
                    lemma_key_pos_at(self@.tiers, name@, i as int);
                }
                return Some(i);
            }
            i = i + 1;
        }
        proof {
            lemma_key_pos_none(self@.tiers, name@);
        }
        None
    }

    /// The tier called `name`, to be changed in place.
    pub fn tier(&mut self, name: &str) -> (r: Option<&mut Tier>)
        ensures
            match r {
                Some(t) => {
                    let i = key_pos(old(self)@.tiers, name@)->0;
                    &&& lookup(old(self)@.tiers, name@) == Some(t@)
                    &&& final(self)@ == (GuildView {
                        tiers: old(self)@.tiers.update(i, (name@, final(t)@)),
                        ..old(self)@
                    })
                    &&& (old(self)@.wf() && final(t)@.wf()) ==> final(self)@.wf()
                },
                None => {
                    &&& lookup(old(self)@.tiers, name@) == None::<TierView>
                    &&& final(self)@ == old(self)@
                },
            },
    {
        match self.find_tier(name) {
            Some(i) => {
                assert(self@.tiers[i as int] == tier_entry_view(self.tiers@[i as int]));
                let ghost pre = self.tiers@;
                let ghost v = self@;
                proof {
                    lemma_key_pos_facts(v.tiers, name@);
                    assert(v.tiers[i as int].0 == name@);
                    assert(pre[i as int].0@ == name@);
                    assert forall|x: Tier|
                        #[trigger] tiers_view(pre.update(i as int, (pre[i as int].0, x)))
                            == v.tiers.update(i as int, (name@, x@)) by {
                        assert(tiers_view(pre.update(i as int, (pre[i as int].0, x)))
                            =~= v.tiers.update(i as int, (name@, x@)));
                    }
                    assert forall|x: TierView|
                        v.wf() && x.wf() implies #[trigger] (GuildView {
                            tiers: v.tiers.update(i as int, (name@, x)),
                            ..v
                        }).wf() by {
                        let t2 = v.tiers.update(i as int, (name@, x));
                        assert(keys_of(t2) =~= keys_of(v.tiers));
                        assert forall|k: int| 0 <= k < t2.len() implies (#[trigger] t2[k]).1.wf() by {
                            if k != i {
                                assert(t2[k] == v.tiers[k]);
                            }
                        }
                    }
                }
                Some(&mut self.tiers[i].1)
            },
            None => None,
        }
    }

    /// Whether the guild has a tier called `name`.
    pub fn has_tier(&self, name: &str) -> (r: bool)
        ensures
            r == has_key(self@.tiers, name@),
    {
        proof {
            lemma_key_pos_facts(self@.tiers, name@);
        }
        self.find_tier(name).is_some()
    }

    /// Keeps `tier` under `name`, replacing a tier of that name.
    pub fn put(&mut self, name: String, tier: Tier)
        ensures
            final(self)@ == (GuildView { tiers: insert_entry(old(self)@.tiers, name@, tier@), ..old(self)@ }),
            (old(self)@.wf() && tier@.wf()) ==> final(self)@.wf(),
    {
        let ghost old_view = self@;
        let ghost entry = (name@, tier@);
        let ghost both = old_view.wf() && tier@.wf();
        proof {
            if both {
                law_insert_keeps_unique(old_view.tiers, name@, tier@);
            }
        }
        match self.find_tier(name.as_str()) {
            Some(i) => {
                self.tiers.set(i, (name, tier));
                assert(self@.tiers =~= old_view.tiers.update(i as int, entry));
            },
            None => {
                self.tiers.push((name, tier));
                assert(self@.tiers =~= old_view.tiers.push(entry));
            },
        }
        assert forall|k: int| both && 0 <= k < self@.tiers.len() implies (
        #[trigger] self@.tiers[k]).1.wf() by {
            if k < old_view.tiers.len() && self@.tiers[k] != entry {
                assert(self@.tiers[k] == old_view.tiers[k]);
            }
        }
    }

    /// Takes the tier called `to_rm` out of the guild, if it has one.
    pub fn rm(&mut self, to_rm: &str) -> (r: Option<Tier>)
        ensures
            final(self)@ == (GuildView { tiers: remove_entry(old(self)@.tiers, to_rm@), ..old(self)@ }),
            old(self)@.wf() ==> final(self)@.wf(),
            match r {
                Some(t) => lookup(old(self)@.tiers, to_rm@) == Some(t@) && (old(self)@.wf()
                    ==> t@.wf()),
                None => lookup(old(self)@.tiers, to_rm@) == None::<TierView>,
            },
    {
        let ghost old_view = self@;
        proof {
            if old_view.wf() {
                law_remove_keeps_unique(old_view.tiers, to_rm@);
            }
        }
        match self.find_tier(to_rm) {
            Some(i) => {
                assert(self@.tiers[i as int] == tier_entry_view(self.tiers@[i as int]));
                let (_name, tier) = self.tiers.remove(i);
                assert(self@.tiers =~= old_view.tiers.remove(i as int));
                assert forall|k: int| old_view.wf() && 0 <= k < self@.tiers.len() implies (
                #[trigger] self@.tiers[k]).1.wf() by {
                    if k < i {
                        assert(self@.tiers[k] == old_view.tiers[k]);
                    } else {
                        assert(self@.tiers[k] == old_view.tiers[k + 1]);
                    }
                }
                Some(tier)
            },
            None => None,
        }
    }

    /// Which tier, first in order, has a company called `name`.
    fn find_company_tier(&self, name: &str) -> (r: Option<usize>)
        ensures
            match r {
                Some(i) => company_tier(self@.tiers, name@) == Some(i as int) && i
                    < self@.tiers.len(),
                None => company_tier(self@.tiers, name@) == None::<int>,
            },
    {
        let n = self.tiers.len();
        let mut i: usize = 0;
        while i < n
            invariant
                n == self@.tiers.len(),
                i <= n,
                forall|j: int| 0 <= j < i ==> !has_key(#[trigger] self@.tiers[j].1.companies, name@),
            decreases n - i,
        {
            assert(self@.tiers[i as int] == tier_entry_view(self.tiers@[i as int]));
            if self.tiers[i].1.has_company(name) {
                proof {
                    let h = holders(self@.tiers, name@);
                    assert forall|j: int| 0 <= j < i implies h[j] != true by {
                        assert(!has_key(self@.tiers[j].1.companies, name@));
                    }
                    lemma_first_index_at(h, true, i as int);
                }
                return Some(i);
            }
            i = i + 1;
        }
        proof {
            let h = holders(self@.tiers, name@);
            assert forall|j: int| 0 <= j < h.len() implies h[j] != true by {
                assert(!has_key(self@.tiers[j].1.companies, name@));
            }
            lemma_first_index_none(h, true);
        }
        None
    }

    /// The company called `name` and the role of its tier; the tiers are
    /// searched in order.
    pub fn find_company(&self, name: &str) -> (r: Option<(&Company, u64)>)
        ensures
            match r {
                Some(p) => self@.company(name@) == Some((p.0@, p.1)),
                None => self@.company(name@) == None::<(CompanyView, u64)>,
            },
    {
        match self.find_company_tier(name) {
            Some(i) => {
                assert(self@.tiers[i as int] == tier_entry_view(self.tiers@[i as int]));
                let tier = &self.tiers[i].1;
                proof {
                    lemma_key_pos_facts(tier@.companies, name@);
                }
                match tier.company(name) {
                    Some(c) => Some((c, tier.role_id())),
                    None => None,
                }
            },
            None => None,
        }
    }

    /// The company called `name`, to be changed in place; the tiers are
    /// searched in order.
    pub fn find_company_mut(&mut self, name: &str) -> (r: Option<&mut Company>)
        ensures
            match r {
                Some(c) => {
                    &&& old(self)@.company(name@) matches Some(p) && p.0 == c@
                    &&& final(self)@ == old(self)@.replace_company(name@, final(c)@)
                    &&& old(self)@.wf() ==> final(self)@.wf()
                },
                None => {
                    &&& old(self)@.company(name@) == None::<(CompanyView, u64)>
                    &&& final(self)@ == old(self)@
                },
            },
    {
        match self.find_company_tier(name) {
            Some(i) => {
                assert(self@.tiers[i as int] == tier_entry_view(self.tiers@[i as int]));
                let ghost pre = self.tiers@;
                let ghost v = self@;
                let ghost tv = v.tiers[i as int].1;
                proof {
                    lemma_company_tier_facts(v.tiers, name@);
                    lemma_key_pos_facts(tv.companies, name@);
                    assert(pre.len() == v.tiers.len());
                    assert forall|x: Tier|
                        #[trigger] tiers_view(pre.update(i as int, (pre[i as int].0, x)))
                            == v.tiers.update(i as int, (v.tiers[i as int].0, x@)) by {
                        assert(tiers_view(pre.update(i as int, (pre[i as int].0, x)))
                            =~= v.tiers.update(i as int, (v.tiers[i as int].0, x@)));
                    }
                    let j = key_pos(tv.companies, name@)->0;
                    assert forall|x: CompanyView| v.wf() implies #[trigger] v.replace_company(
                        name@,
                        x,
                    ).wf() by {
                        let t2 = tv.companies.update(j, (name@, x));
                        assert(keys_of(t2) =~= keys_of(tv.companies));
                        let g2 = v.replace_company(name@, x);
                        assert(keys_of(g2.tiers) =~= keys_of(v.tiers));
                        assert forall|k: int| 0 <= k < g2.tiers.len() implies (
                        #[trigger] g2.tiers[k]).1.wf() by {
                            if k != i {
                                assert(g2.tiers[k] == v.tiers[k]);
                            } else {
                                assert(g2.tiers[k].1.companies == t2);
                            }
                        }
                    }
                }
                let tier = &mut self.tiers[i].1;
                match tier.company_mut(name) {
                    Some(c) => Some(c),
                    None => {
                        proof {
                            assert(false);
                        }
                        None
                    },
                }
            },
            None => None,
        }
    }

    /// Takes the company called `name` out of the first tier that has it.
    pub fn remove_company(&mut self, name: &str) -> (r: Option<Company>)
        ensures
            final(self)@ == old(self)@.without_company(name@),
            old(self)@.wf() ==> final(self)@.wf(),
            match r {
                Some(c) => old(self)@.company(name@) matches Some(p) && p.0 == c@,
                None => old(self)@.company(name@) == None::<(CompanyView, u64)>,
            },
    {
        match self.find_company_tier(name) {
            Some(i) => {
                assert(self@.tiers[i as int] == tier_entry_view(self.tiers@[i as int]));
                let ghost pre = self.tiers@;
                let ghost v = self@;
                let ghost tv = v.tiers[i as int].1;
                proof {
                    lemma_key_pos_facts(tv.companies, name@);
                    if v.wf() {
                        assert(tv.wf());
                        law_remove_keeps_unique(tv.companies, name@);
                    }
                    assert forall|x: Tier|
                        #[trigger] tiers_view(pre.update(i as int, (pre[i as int].0, x)))
                            == v.tiers.update(i as int, (v.tiers[i as int].0, x@)) by {
                        assert(tiers_view(pre.update(i as int, (pre[i as int].0, x)))
                            =~= v.tiers.update(i as int, (v.tiers[i as int].0, x@)));
                    }
                }
                let tier = &mut self.tiers[i].1;
                let r = tier.rm(name);
                proof {
                    let g2 = v.without_company(name@);
                    assert(keys_of(g2.tiers) =~= keys_of(v.tiers));
                    assert forall|k: int| v.wf() && 0 <= k < g2.tiers.len() implies (
                    #[trigger] g2.tiers[k]).1.wf() by {
                        if k != i {
                            assert(g2.tiers[k] == v.tiers[k]);
                        }
                    }
                }
                r
            },
            None => None,
        }
    }
}

impl Default for Guild {
    /// A guild with no tiers, no spotlight category, no news channel and no
    /// company in the spotlight.
    fn default() -> (r: Guild)
        ensures
            r@ == (GuildView {
                tiers: Seq::empty(),
                spotlight: None,
                news_channel: None,
                spotlight_company: None,
            }),
            r@.wf(),
    {
        Guild::from_settings(None, None, None)
    }
}

/// Law: in a guild, the company found under a name is one that the first tier
/// holding that name has, with that tier's role.
pub proof fn law_company_comes_from_first_tier(g: GuildView, name: Seq<char>)
    ensures
        match g.company(name) {
            Some(p) => exists|i: int|
                0 <= i < g.tiers.len() && lookup(#[trigger] g.tiers[i].1.companies, name) == Some(
                    p.0,
                ) && g.tiers[i].1.role_id == p.1 && forall|j: int|
                    0 <= j < i ==> !has_key(g.tiers[j].1.companies, name),
            None => forall|i: int|
                0 <= i < g.tiers.len() ==> !has_key(#[trigger] g.tiers[i].1.companies, name),
        },
{
    lemma_company_tier_facts(g.tiers, name);
    match company_tier(g.tiers, name) {
        Some(i) => {
            lemma_key_pos_facts(g.tiers[i].1.companies, name);
        },
        None => {},
    }
}

/// Law: a company changed in place is what a later search under its name
/// finds, with its tier's role unchanged.
pub proof fn law_find_after_replace(
    g: GuildView,
    name: Seq<char>,
    before: CompanyView,
    role: u64,
    c: CompanyView,
)
    requires
        g.company(name) == Some((before, role)),
    ensures
        g.replace_company(name, c).company(name) == Some((c, role)),
{
    lemma_company_tier_facts(g.tiers, name);
    let i = company_tier(g.tiers, name)->0;
    let t = g.tiers[i].1;
    lemma_key_pos_facts(t.companies, name);
    let j = key_pos(t.companies, name)->0;
    let g2 = g.replace_company(name, c);
    let t2 = g2.tiers[i].1;
    assert(t2.companies == t.companies.update(j, (name, c)));
    assert forall|k: int| 0 <= k < j implies t2.companies[k].0 != name by {}
    lemma_key_pos_at(t2.companies, name, j);
    lemma_company_tier_facts(g2.tiers, name);
    let h2 = holders(g2.tiers, name);
    assert forall|k: int| 0 <= k < i implies h2[k] != true by {
        assert(g2.tiers[k] == g.tiers[k]);
    }
    assert(has_key(t2.companies, name));
    lemma_first_index_at(h2, true, i);
}

/// Law: changing the same company twice in place is changing it once to the
/// second value; changing it to what it already is changes nothing.
pub proof fn law_replace_company_twice(
    g: GuildView,
    name: Seq<char>,
    before: CompanyView,
    role: u64,
    c1: CompanyView,
    c2: CompanyView,
)
    requires
        g.company(name) == Some((before, role)),
    ensures
        g.replace_company(name, c1).replace_company(name, c2) == g.replace_company(name, c2),
        g.replace_company(name, before) == g,
{
    lemma_company_tier_facts(g.tiers, name);
    let i = company_tier(g.tiers, name)->0;
    let t = g.tiers[i].1;
    lemma_key_pos_facts(t.companies, name);
    let j = key_pos(t.companies, name)->0;
    let g1 = g.replace_company(name, c1);
    law_find_after_replace(g, name, before, role, c1);
    lemma_company_tier_facts(g1.tiers, name);
    let h1 = holders(g1.tiers, name);
    assert forall|k: int| 0 <= k < i implies h1[k] != true by {
        assert(g1.tiers[k] == g.tiers[k]);
    }
    let t1 = g1.tiers[i].1;
    assert(has_key(t1.companies, name)) by {
        assert(t1.companies == t.companies.update(j, (name, c1)));
        assert forall|k: int| 0 <= k < j implies t1.companies[k].0 != name by {}
        lemma_key_pos_at(t1.companies, name, j);
    }
    lemma_first_index_at(h1, true, i);
    assert forall|k: int| 0 <= k < j implies t1.companies[k].0 != name by {}
    lemma_key_pos_at(t1.companies, name, j);
    assert(company_tier(g1.tiers, name) == Some(i));
    assert(key_pos(t1.companies, name) == Some(j));
    assert(t1.companies.update(j, (name, c2)) =~= t.companies.update(j, (name, c2)));
    assert(g1.tiers[i].0 == g.tiers[i].0);
    assert(g1.replace_company(name, c2).tiers =~= g.replace_company(name, c2).tiers);
    assert(t.companies[j] == (name, before));
    assert(t.companies.update(j, (name, before)) =~= t.companies);
    assert(g.replace_company(name, before).tiers =~= g.tiers);
}

/// Law: after a company is taken out of a well-formed guild, the tier that
/// held it no longer has a company of that name.
pub proof fn law_remove_company_forgets(g: GuildView, name: Seq<char>)
    requires
        g.wf(),
        g.company(name) is Some,
    ensures
        !has_key(g.without_company(name).tiers[company_tier(g.tiers, name)->0].1.companies, name),
{
    lemma_company_tier_facts(g.tiers, name);
    let i = company_tier(g.tiers, name)->0;
    assert(g.tiers[i].1.wf());
    law_remove_keeps_unique(g.tiers[i].1.companies, name);
}

/// Law: taking a company out of a guild takes out that company only.  The
/// guild keeps its tiers, in order, with their names, guilds and roles, and
/// its other settings; in every tier every other company name keeps the
/// company it had; and every tier but the first that held the company keeps
/// all of its companies.
pub proof fn law_remove_company_keeps_others(g: GuildView, name: Seq<char>, i: int, n: Seq<char>)
    requires
        0 <= i < g.tiers.len(),
    ensures
        g.without_company(name).tiers.len() == g.tiers.len(),
        g.without_company(name).tiers[i].0 == g.tiers[i].0,
        g.without_company(name).tiers[i].1.guild_id == g.tiers[i].1.guild_id,
        g.without_company(name).tiers[i].1.role_id == g.tiers[i].1.role_id,
        g.without_company(name).spotlight == g.spotlight,
        g.without_company(name).news_channel == g.news_channel,
        g.without_company(name).spotlight_company == g.spotlight_company,
        n != name ==> lookup(g.without_company(name).tiers[i].1.companies, n) == lookup(
            g.tiers[i].1.companies,
            n,
        ),
        company_tier(g.tiers, name) != Some(i) ==> g.without_company(name).tiers[i] == g.tiers[i],
{
    match company_tier(g.tiers, name) {
        Some(j) => {
            lemma_company_tier_facts(g.tiers, name);
            if i == j && n != name {
                crate::assoc::law_lookup_other_after_remove(g.tiers[i].1.companies, name, n);
            }
        },
        None => {},
    }
}

/// Law: in a well-formed guild that has the company, taking it out leaves no
/// company of that name in the tier that held it, and the tier keeps one
/// company fewer.
pub proof fn law_remove_company_drops_one(g: GuildView, name: Seq<char>)
    requires
        g.wf(),
        g.company(name) is Some,
    ensures
        company_tier(g.tiers, name) matches Some(j) && !has_key(
            g.without_company(name).tiers[j].1.companies,
            name,
        ) && g.without_company(name).tiers[j].1.companies.len() + 1 == g.tiers[j].1.companies.len(),
{
    lemma_company_tier_facts(g.tiers, name);
    let j = company_tier(g.tiers, name)->0;
    assert(g.tiers[j].1.wf());
    law_remove_keeps_unique(g.tiers[j].1.companies, name);
    lemma_key_pos_facts(g.tiers[j].1.companies, name);
}

} // verus!
