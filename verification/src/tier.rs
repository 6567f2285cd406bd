//! A sponsorship tier: a role of its own and the companies of that tier, kept
//! under their normalised names in the order they were added.
use vstd::prelude::*;
use crate::assoc::{
    has_key, insert_entry, keys_of, keys_unique, law_insert_keeps_unique,
    law_lookup_after_insert, law_lookup_other_after_insert, law_lookup_other_after_remove,
    law_remove_keeps_unique, law_remove_undoes_insert, lemma_key_pos_at, lemma_key_pos_facts,
    lemma_key_pos_none, lookup, remove_entry, key_pos,
};
use crate::company::{Company, CompanyView};
use crate::names::str_eq;

verus! {

/// The state of a tier.
pub struct TierView {
    pub guild_id: u64,
    pub role_id: u64,
    pub companies: Seq<(Seq<char>, CompanyView)>,
}

/// A tier: its guild, its role and its companies by name.
pub struct Tier {
    guild_id: u64,
    role_id: u64,
    companies: Vec<(String, Company)>,
}

/// The state of a (name, company) entry.
pub open spec fn company_entry_view(p: (String, Company)) -> (Seq<char>, CompanyView) {
    (p.0@, p.1@)
}

/// The state of a list of (name, company) entries.
pub open spec fn entries_view(s: Seq<(String, Company)>) -> Seq<(Seq<char>, CompanyView)> {
    s.map_values(|p: (String, Company)| company_entry_view(p))
}

impl View for Tier {
    type V = TierView;

    closed spec fn view(&self) -> TierView {
        TierView {
            guild_id: self.guild_id,
            role_id: self.role_id,
            companies: entries_view(self.companies@),
        }
    }
}

impl TierView {
    /// No company name occurs twice.
    pub open spec fn wf(self) -> bool {
        keys_unique(self.companies)
    }
}

impl Tier {
    /// The tier that the bot records once it has created the role `role_id`
    /// in guild `guild_id`: it has no companies yet.
    pub fn from_created(guild_id: u64, role_id: u64) -> (r: Tier)
        ensures
            r@ == (TierView { guild_id, role_id, companies: Seq::empty() }),
            r@.wf(),
    {
        let r = Tier { guild_id, role_id, companies: Vec::new() };
        assert(r@.companies =~= Seq::<(Seq<char>, CompanyView)>::empty());
        r
    }

    /// The tier's guild.
    pub fn guild_id(&self) -> (r: u64)
        ensures
            r == self@.guild_id,
    {
        self.guild_id
    }

    /// The tier's role.
    pub fn role_id(&self) -> (r: u64)
        ensures
            r == self@.role_id,
    {
        self.role_id
    }

    /// The companies of the tier with their names, in order.
    pub fn entries(&self) -> (r: &Vec<(String, Company)>)
        ensures
            entries_view(r@) == self@.companies,
    {
        &self.companies
    }

    /// Where the company called `name` is kept.
    fn find(&self, name: &str) -> (r: Option<usize>)
        ensures
            match r {
                Some(i) => key_pos(self@.companies, name@) == Some(i as int) && i
                    < self@.companies.len(),
                None => key_pos(self@.companies, name@) == None::<int>,
            },
    {
        let n = self.companies.len();
        let mut i: usize = 0;
        while i < n
            invariant
                n == self@.companies.len(),
                i <= n,
                forall|j: int| 0 <= j < i ==> self@.companies[j].0 != name@,
            decreases n - i,
        {
            assert(self@.companies[i as int] == company_entry_view(self.companies@[i as int]));
            if str_eq(self.companies[i].0.as_str(), name) {
                proof {
                    lemma_key_pos_at(self@.companies, name@, i as int);
                }
                return Some(i);
            }
            i = i + 1;
        }
        proof {
            lemma_key_pos_none(self@.companies, name@);
        }
        None
    }

    /// The company called `name`, if the tier has one.
    pub fn company(&self, name: &str) -> (r: Option<&Company>)
        ensures
            match r {
                Some(c) => lookup(self@.companies, name@) == Some(c@),
                None => lookup(self@.companies, name@) == None::<CompanyView>,
            },
    {
        match self.find(name) {
            Some(i) => {
                assert(self@.companies[i as int] == company_entry_view(self.companies@[i as int]));
                Some(&self.companies[i].1)
            },
            None => None,
        }
    }

    /// The company called `name`, to be changed in place.
    pub fn company_mut(&mut self, name: &str) -> (r: Option<&mut Company>)
        ensures
            match r {
                Some(c) => {
                    let i = key_pos(old(self)@.companies, name@)->0;
                    &&& lookup(old(self)@.companies, name@) == Some(c@)
                    &&& final(self)@ == (TierView {
                        companies: old(self)@.companies.update(i, (name@, final(c)@)),
                        ..old(self)@
                    })
                },
                None => {
                    &&& lookup(old(self)@.companies, name@) == None::<CompanyView>
                    &&& final(self)@ == old(self)@
                },
            },
    {
        match self.find(name) {
            Some(i) => {
                proof {
                    lemma_key_pos_facts(self@.companies, name@);
                }
                assert(self@.companies[i as int] == company_entry_view(self.companies@[i as int]));
                let ghost pre = self.companies@;
                proof {
                    assert forall|x: Company|
                        #[trigger] entries_view(pre.update(i as int, (pre[i as int].0, x)))
                            == old(self)@.companies.update(i as int, (name@, x@)) by {
                        assert(entries_view(pre.update(i as int, (pre[i as int].0, x)))
                            =~= old(self)@.companies.update(i as int, (name@, x@)));
                    }
                }
                let r = &mut self.companies[i].1;
                Some(r)
            },
            None => None,
        }
    }

    /// Whether the tier has a company called `name`.
    pub fn has_company(&self, name: &str) -> (r: bool)
        ensures
            r == has_key(self@.companies, name@),
    {
        proof {
            lemma_key_pos_facts(self@.companies, name@);
        }
        self.find(name).is_some()
    }

    /// Keeps `company` under `name`, replacing a company of that name.
    pub fn put(&mut self, name: String, company: Company)
        ensures
            final(self)@ == (TierView {
                companies: insert_entry(old(self)@.companies, name@, company@),
                ..old(self)@
            }),
            old(self)@.wf() ==> final(self)@.wf(),
    {
        let ghost old_view = self@;
        let ghost entry = (name@, company@);
        proof {
            if old_view.wf() {
                law_insert_keeps_unique(old_view.companies, name@, company@);
            }
        }
        match self.find(name.as_str()) {
            Some(i) => {
                self.companies.set(i, (name, company));
                assert(self@.companies =~= old_view.companies.update(i as int, entry));
            },
            None => {
                self.companies.push((name, company));
                assert(self@.companies =~= old_view.companies.push(entry));
            },
        }
    }

    /// Takes the company called `to_rm` out of the tier, if it has one.
    pub fn rm(&mut self, to_rm: &str) -> (r: Option<Company>)
        ensures
            final(self)@ == (TierView {
                companies: remove_entry(old(self)@.companies, to_rm@),
                ..old(self)@
            }),
            old(self)@.wf() ==> final(self)@.wf(),
            match r {
                Some(c) => lookup(old(self)@.companies, to_rm@) == Some(c@),
                None => lookup(old(self)@.companies, to_rm@) == None::<CompanyView>,
            },
    {
        let ghost old_view = self@;
        proof {
            if old_view.wf() {
                law_remove_keeps_unique(old_view.companies, to_rm@);
            }
        }
        match self.find(to_rm) {
            Some(i) => {
                assert(self@.companies[i as int] == company_entry_view(self.companies@[i as int]));
                let (_name, company) = self.companies.remove(i);
                assert(self@.companies =~= old_view.companies.remove(i as int));
                Some(company)
            },
            None => None,
        }
    }

    /// The names of the tier's companies, in order.
    pub fn company_names(&self) -> (r: Vec<String>)
        ensures
            r@.map_values(|s: String| s@) == keys_of(self@.companies),
    {
        let n = self.companies.len();
        let mut names: Vec<String> = Vec::new();
        let mut i: usize = 0;
        while i < n
            invariant
                n == self@.companies.len(),
                i <= n,
                names@.map_values(|s: String| s@) =~= keys_of(self@.companies).take(i as int),
            decreases n - i,
        {
            assert(self@.companies[i as int] == company_entry_view(self.companies@[i as int]));
            names.push(self.companies[i].0.clone());
            assert(keys_of(self@.companies).take(i + 1) =~= keys_of(self@.companies).take(
                i as int,
            ).push(self@.companies[i as int].0));
            assert(names@.map_values(|s: String| s@) =~= keys_of(self@.companies).take(i + 1));
            i = i + 1;
        }
        assert(keys_of(self@.companies).take(n as int) =~= keys_of(self@.companies));
        names
    }
}

/// Law: a company put in a tier under a name is what the tier gives back for
/// that name, and the other names keep their companies.
pub proof fn law_tier_company_after_put(t: TierView, name: Seq<char>, c: CompanyView, other: Seq<char>)
    ensures
        lookup(insert_entry(t.companies, name, c), name) == Some(c),
        other != name ==> lookup(insert_entry(t.companies, name, c), other) == lookup(
            t.companies,
            other,
        ),
{
    law_lookup_after_insert(t.companies, name, c);
    if other != name {
        law_lookup_other_after_insert(t.companies, name, c, other);
    }
}

/// Law: after a company is taken out of a well-formed tier, the tier no
/// longer has a company of that name, and the other names keep theirs.
pub proof fn law_tier_rm_forgets(t: TierView, name: Seq<char>, other: Seq<char>)
    requires
        t.wf(),
    ensures
        !has_key(remove_entry(t.companies, name), name),
        other != name ==> lookup(remove_entry(t.companies, name), other) == lookup(
            t.companies,
            other,
        ),
{
    law_remove_keeps_unique(t.companies, name);
    if other != name {
        law_lookup_other_after_remove(t.companies, name, other);
    }
}

/// Law: putting a company under a new name and taking it out again leaves the
/// tier as it was.
pub proof fn law_tier_rm_undoes_put(t: TierView, name: Seq<char>, c: CompanyView)
    requires
        !has_key(t.companies, name),
    ensures
        remove_entry(insert_entry(t.companies, name, c), name) == t.companies,
{
    law_remove_undoes_insert(t.companies, name, c);
}

/// Law: a tier has a company called `name` exactly when looking the name up
/// finds one.
pub proof fn law_tier_exists_iff_company(t: TierView, name: Seq<char>)
    ensures
        has_key(t.companies, name) <==> lookup(t.companies, name) is Some,
{
    lemma_key_pos_facts(t.companies, name);
}

} // verus!
