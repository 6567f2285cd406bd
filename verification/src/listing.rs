//! The list of companies that the bot sends to a new company representative:
//! one entry per tier, by tier name in ascending order, with the names of the
//! tier's companies one per line.
use vstd::prelude::*;
use crate::assoc::keys_of;
use crate::guild::{Guild, GuildView, tier_entry_view, tiers_view};
use crate::names::str_eq;
use crate::text::{join, joined, law_joined_contains_each_word, occurs_at};

verus! {

/// `a` comes strictly before `b` in the order of `String`: character by
/// character by code point, a proper prefix first.
pub open spec fn name_lt(a: Seq<char>, b: Seq<char>) -> bool
    decreases a.len(),
{
    if a.len() == 0 {
        b.len() > 0
    } else if b.len() == 0 {
        false
    } else if a[0] != b[0] {
        (a[0] as int) < (b[0] as int)
    } else {
        name_lt(a.drop_first(), b.drop_first())
    }
}

/// No name comes before itself.
pub proof fn lemma_name_lt_irreflexive(a: Seq<char>)
    ensures
        !name_lt(a, a),
    decreases a.len(),
{
    if a.len() > 0 {
        lemma_name_lt_irreflexive(a.drop_first());
    }
}

/// Of two different names, one comes before the other.
pub proof fn lemma_name_lt_total(a: Seq<char>, b: Seq<char>)
    ensures
        a == b || name_lt(a, b) || name_lt(b, a),
    decreases a.len(),
{
    if a.len() > 0 && b.len() > 0 {
        if a[0] == b[0] {
            lemma_name_lt_total(a.drop_first(), b.drop_first());
            if a.drop_first() == b.drop_first() {
                assert(a =~= seq![a[0]] + a.drop_first());
                assert(b =~= seq![b[0]] + b.drop_first());
            }
        } else {
            assert((a[0] as int) != (b[0] as int));
        }
    } else if a.len() == 0 && b.len() == 0 {
        assert(a =~= b);
    }
}

/// The order is transitive.
pub proof fn lemma_name_lt_transitive(a: Seq<char>, b: Seq<char>, c: Seq<char>)
    requires
        name_lt(a, b),
        name_lt(b, c),
    ensures
        name_lt(a, c),
    decreases a.len(),
{
    if a.len() > 0 && b.len() > 0 && c.len() > 0 {
        if a[0] == b[0] && b[0] == c[0] {
            lemma_name_lt_transitive(a.drop_first(), b.drop_first(), c.drop_first());
        }
    }
}

proof fn lemma_name_lt_skip(a: Seq<char>, b: Seq<char>, i: int)
    requires
        0 <= i <= a.len(),
        i <= b.len(),
        forall|j: int| 0 <= j < i ==> a[j] == b[j],
    ensures
        name_lt(a, b) == name_lt(a.subrange(i, a.len() as int), b.subrange(i, b.len() as int)),
    decreases i,
{
    if i > 0 {
        let a1 = a.drop_first();
        let b1 = b.drop_first();
        assert forall|j: int| 0 <= j < i - 1 implies a1[j] == b1[j] by {
            assert(a[j + 1] == b[j + 1]);
        }
        lemma_name_lt_skip(a1, b1, i - 1);
        assert(a1.subrange(i - 1, a1.len() as int) =~= a.subrange(i, a.len() as int));
        assert(b1.subrange(i - 1, b1.len() as int) =~= b.subrange(i, b.len() as int));
        assert(a[0] == b[0]);
    } else {
        assert(a.subrange(0, a.len() as int) =~= a);
        assert(b.subrange(0, b.len() as int) =~= b);
    }
}

/// Whether `a` comes strictly before `b`.
pub fn name_less(a: &str, b: &str) -> (r: bool)
    ensures
        r == name_lt(a@, b@),
{
    let na = a.unicode_len();
    let nb = b.unicode_len();
    let mut i: usize = 0;
    while i < na && i < nb
        invariant
            na == a@.len(),
            nb == b@.len(),
            i <= na,
            i <= nb,
            forall|j: int| 0 <= j < i ==> a@[j] == b@[j],
        decreases na - i,
    {
        let ca = a.get_char(i);
        let cb = b.get_char(i);
        if ca != cb {
            proof {
                lemma_name_lt_skip(a@, b@, i as int);
                let ra = a@.subrange(i as int, na as int);
                let rb = b@.subrange(i as int, nb as int);
                assert(ra[0] == ca);
                assert(rb[0] == cb);
            }
            return ca < cb;
        }
        i = i + 1;
    }
    proof {
        lemma_name_lt_skip(a@, b@, i as int);
    }
    i == na && i < nb
}

/// One listing entry per tier: the tier's name and its companies' names, one
/// per line.
pub open spec fn listing_entries(g: GuildView) -> Seq<(Seq<char>, Seq<char>)> {
    g.tiers.map_values(
        |t: (Seq<char>, crate::tier::TierView)| (t.0, joined(keys_of(t.1.companies), "\n"@)),
    )
}

/// The entries are in strictly ascending order of name.
pub open spec fn sorted_by_name(s: Seq<(Seq<char>, Seq<char>)>) -> bool {
    forall|i: int, j: int| 0 <= i < j < s.len() ==> name_lt(#[trigger] s[i].0, #[trigger] s[j].0)
}

/// The state of a list of (name, text) pairs.
pub open spec fn pairs_view(v: Seq<(String, String)>) -> Seq<(Seq<char>, Seq<char>)> {
    v.map_values(|p: (String, String)| (p.0@, p.1@))
}

/// Adds an entry to a list sorted by name, replacing the entry of the same
/// name, as a `BTreeMap` insert does.
fn insert_sorted(list: &mut Vec<(String, String)>, name: String, text: String)
    requires
        sorted_by_name(pairs_view(old(list)@)),
    ensures
        sorted_by_name(pairs_view(final(list)@)),
        pairs_view(final(list)@).contains((name@, text@)),
        forall|e: (Seq<char>, Seq<char>)|
            #[trigger] pairs_view(final(list)@).contains(e) ==> e == (name@, text@) || (
            pairs_view(old(list)@).contains(e) && e.0 != name@),
        forall|e: (Seq<char>, Seq<char>)|
            #[trigger] pairs_view(old(list)@).contains(e) && e.0 != name@ ==> pairs_view(
                final(list)@,
            ).contains(e),
{
    let ghost old_v = pairs_view(list@);
    let n = list.len();
    let mut p: usize = 0;
    while p < n && name_less(list[p].0.as_str(), name.as_str())
        invariant
            n == list@.len(),
            p <= n,
            old_v == pairs_view(list@),
            forall|j: int| 0 <= j < p ==> name_lt(#[trigger] old_v[j].0, name@),
        decreases n - p,
    {
        p = p + 1;
    }
    let ghost entry = (name@, text@);
    if p < n && str_eq(list[p].0.as_str(), name.as_str()) {
        list.set(p, (name, text));
        proof {
            let nv = pairs_view(list@);
            assert(nv =~= old_v.update(p as int, entry));
            assert forall|i: int, j: int| 0 <= i < j < nv.len() implies name_lt(
                #[trigger] nv[i].0,
                #[trigger] nv[j].0,
            ) by {
                assert(nv[i].0 == old_v[i].0);
                assert(nv[j].0 == old_v[j].0);
            }
            assert(nv[p as int] == entry);
            assert forall|e: (Seq<char>, Seq<char>)| #[trigger] nv.contains(e) implies e == entry || (
            old_v.contains(e) && e.0 != name@) by {
                let k = choose|k: int| 0 <= k < nv.len() && nv[k] == e;
                if k != p {
                    assert(old_v[k] == e);
                    if k < p {
                        lemma_name_lt_irreflexive(name@);
                    } else {
                        lemma_name_lt_irreflexive(name@);
                    }
                }
            }
            assert forall|e: (Seq<char>, Seq<char>)|
                #[trigger] old_v.contains(e) && e.0 != name@ implies nv.contains(e) by {
                let k = choose|k: int| 0 <= k < old_v.len() && old_v[k] == e;
                assert(k != p);
                assert(nv[k] == e);
            }
        }
    } else {
        proof {
            if p < n {
                lemma_name_lt_total(old_v[p as int].0, name@);
                assert(name_lt(name@, old_v[p as int].0));
            }
        }
        list.insert(p, (name, text));
        proof {
            let nv = pairs_view(list@);
            assert(nv =~= old_v.insert(p as int, entry));
            assert forall|j: int| p < j < nv.len() implies name_lt(name@, #[trigger] nv[j].0) by {
                assert(nv[j] == old_v[j - 1]);
                if j - 1 > p {
                    lemma_name_lt_transitive(name@, old_v[p as int].0, old_v[j - 1].0);
                }
            }
            assert forall|i: int, j: int| 0 <= i < j < nv.len() implies name_lt(
                #[trigger] nv[i].0,
                #[trigger] nv[j].0,
            ) by {
                if i < p && j < p {
                    assert(nv[i] == old_v[i]);
                    assert(nv[j] == old_v[j]);
                } else if i < p && j == p {
                    assert(nv[i] == old_v[i]);
                } else if i < p && j > p {
                    assert(nv[i] == old_v[i]);
                    lemma_name_lt_transitive(nv[i].0, name@, nv[j].0);
                } else if i == p {
                } else {
                    assert(nv[i] == old_v[i - 1]);
                    assert(nv[j] == old_v[j - 1]);
                }
            }
            assert(nv[p as int] == entry);
            assert forall|e: (Seq<char>, Seq<char>)| #[trigger] nv.contains(e) implies e == entry || (
            old_v.contains(e) && e.0 != name@) by {
                let k = choose|k: int| 0 <= k < nv.len() && nv[k] == e;
                if k < p {
                    assert(old_v[k] == e);
                    lemma_name_lt_irreflexive(name@);
                } else if k > p {
                    assert(old_v[k - 1] == e);
                    lemma_name_lt_irreflexive(name@);
                }
            }
            assert forall|e: (Seq<char>, Seq<char>)|
                #[trigger] old_v.contains(e) && e.0 != name@ implies nv.contains(e) by {
                let k = choose|k: int| 0 <= k < old_v.len() && old_v[k] == e;
                if k < p {
                    assert(nv[k] == e);
                } else {
                    assert(nv[k + 1] == e);
                }
            }
        }
    }
}

impl Guild {
    /// The list of companies sent to a new company representative: one entry
    /// per tier, in ascending order of tier name, with the tier's company
    /// names one per line.  In a well-formed guild every tier has exactly one
    /// entry.
    pub fn company_listing(&self) -> (r: Vec<(String, String)>)
        ensures
            sorted_by_name(pairs_view(r@)),
            self@.wf() ==> (forall|e: (Seq<char>, Seq<char>)|
                #[trigger] pairs_view(r@).contains(e) <==> listing_entries(self@).contains(e)),
            self@.wf() ==> r@.len() == self@.tiers.len(),
    {
        let tiers = self.iter();
        let ghost tv = self@.tiers;
        let ghost es = listing_entries(self@);
        let mut list: Vec<(String, String)> = Vec::new();
        let n = tiers.len();
        let mut i: usize = 0;
        while i < n
            invariant
                n == tv.len(),
                tv == tiers_view(tiers@),
                tv == self@.tiers,
                es == listing_entries(self@),
                i <= n,
                sorted_by_name(pairs_view(list@)),
                self@.wf() ==> (forall|e: (Seq<char>, Seq<char>)|
                    #[trigger] pairs_view(list@).contains(e) <==> es.take(i as int).contains(e)),
                self@.wf() ==> list@.len() == i,
            decreases n - i,
        {
            assert(tv[i as int] == tier_entry_view(tiers@[i as int]));
            let tier = &tiers[i].1;
            let names = tier.company_names();
            let text = join(&names, "\n");
            let ghost before = pairs_view(list@);
            let ghost entry = es[i as int];
            assert(entry == (tiers@[i as int].0@, text@));
            insert_sorted(&mut list, tiers[i].0.clone(), text);
            proof {
                if self@.wf() {
                    let after = pairs_view(list@);
                    let t1 = es.take(i + 1);
                    let t0 = es.take(i as int);
                    assert(t1 =~= t0.push(entry));
                    assert forall|k: int| 0 <= k < i implies (#[trigger] es[k]).0 != entry.0 by {
                        assert(crate::assoc::keys_of(tv)[k] == tv[k].0);
                        assert(crate::assoc::keys_of(tv)[i as int] == tv[i as int].0);
                    }
                    assert forall|e: (Seq<char>, Seq<char>)|
                        #[trigger] after.contains(e) <==> t1.contains(e) by {
                        if after.contains(e) {
                            if e == entry {
                                assert(t1[i as int] == entry);
                            } else {
                                assert(before.contains(e));
                                let k = choose|k: int| 0 <= k < i && t0[k] == e;
                                assert(t1[k] == e);
                            }
                        }
                        if t1.contains(e) {
                            let k = choose|k: int| 0 <= k < i + 1 && t1[k] == e;
                            if k < i {
                                assert(t0[k] == e);
                                assert(before.contains(e));
                                assert(e.0 != entry.0);
                            } else {
                                assert(e == entry);
                            }
                        }
                    }
                    // every earlier entry has another name, so nothing was replaced
                    assert forall|e: (Seq<char>, Seq<char>)| before.contains(e) implies e.0
                        != entry.0 by {
                        let k = choose|k: int| 0 <= k < i && es.take(i as int)[k] == e;
                        assert(es[k] == e);
                    }
                    lemma_len_after_fresh_insert(before, after, entry);
                }
            }
            i = i + 1;
        }
        assert(es.take(n as int) =~= es);
        list
    }
}

proof fn lemma_len_after_fresh_insert(
    before: Seq<(Seq<char>, Seq<char>)>,
    after: Seq<(Seq<char>, Seq<char>)>,
    entry: (Seq<char>, Seq<char>),
)
    requires
        sorted_by_name(before),
        sorted_by_name(after),
        forall|e: (Seq<char>, Seq<char>)| before.contains(e) ==> e.0 != entry.0,
        forall|e: (Seq<char>, Seq<char>)|
            #[trigger] after.contains(e) <==> (before.contains(e) || e == entry),
    ensures
        after.len() == before.len() + 1,
{
    lemma_sorted_no_dup(before);
    lemma_sorted_no_dup(after);
    let b2 = before.push(entry);
    assert(b2.no_duplicates()) by {
        assert forall|i: int, j: int| 0 <= i < b2.len() && 0 <= j < b2.len() && i != j implies b2[i]
            != b2[j] by {
            if i < before.len() && j < before.len() {
            } else if i < before.len() {
                assert(before.contains(b2[i]));
            } else if j < before.len() {
                assert(before.contains(b2[j]));
            }
        }
    }
    assert(b2.to_set() =~= after.to_set()) by {
        assert forall|e| b2.to_set().contains(e) <==> after.to_set().contains(e) by {
            if b2.contains(e) {
                let k = choose|k: int| 0 <= k < b2.len() && b2[k] == e;
                if k < before.len() {
                    assert(before[k] == e);
                    assert(before.contains(e));
                }
            }
            if after.contains(e) {
                if e == entry {
                    assert(b2[before.len() as int] == e);
                } else {
                    let k = choose|k: int| 0 <= k < before.len() && before[k] == e;
                    assert(b2[k] == e);
                }
            }
        }
    }
    b2.unique_seq_to_set();
    after.unique_seq_to_set();
}

proof fn lemma_sorted_no_dup(s: Seq<(Seq<char>, Seq<char>)>)
    requires
        sorted_by_name(s),
    ensures
        s.no_duplicates(),
{
    assert forall|i: int, j: int| 0 <= i < s.len() && 0 <= j < s.len() && i != j implies s[i]
        != s[j] by {
        if i < j {
            assert(name_lt(s[i].0, s[j].0));
            lemma_name_lt_irreflexive(s[i].0);
        } else {
            assert(name_lt(s[j].0, s[i].0));
            lemma_name_lt_irreflexive(s[j].0);
        }
    }
}

/// Law: the listing has one entry per tier, in the tiers' order before
/// sorting, named after the tier, whose text is all of the tier's company
/// names in the tier's order, one per line; so every company of a tier is
/// named in that tier's entry.
pub proof fn law_listing_names_every_company(g: GuildView, i: int, k: int)
    requires
        0 <= i < g.tiers.len(),
        0 <= k < g.tiers[i].1.companies.len(),
    ensures
        listing_entries(g).len() == g.tiers.len(),
        listing_entries(g)[i] == (g.tiers[i].0, joined(keys_of(g.tiers[i].1.companies), "\n"@)),
        listing_entries(g).contains(listing_entries(g)[i]),
        exists|p: int| #[trigger] occurs_at(listing_entries(g)[i].1, g.tiers[i].1.companies[k].0, p),
{
    let ks = keys_of(g.tiers[i].1.companies);
    assert(ks[k] == g.tiers[i].1.companies[k].0);
    law_joined_contains_each_word(ks, "\n"@, k);
    let e = listing_entries(g)[i];
    assert(e.1 == joined(ks, "\n"@));
}

} // verus!
