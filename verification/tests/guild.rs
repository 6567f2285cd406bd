use sei_bot::commands::{spotlight_replies, Reply, SpotlightCommand};
use sei_bot::company::Company;
use sei_bot::guild::Guild;
use sei_bot::handler::{Grant, RoleGrant};
use sei_bot::tier::Tier;

fn company(role: u64) -> Company {
    Company::from_created(1, role, 100 + role, 200 + role, 300 + role)
}

fn guild() -> Guild {
    let mut g = Guild::default();
    let mut gold = Tier::from_created(1, 50);
    gold.put("acme".to_string(), company(10));
    let mut silver = Tier::from_created(1, 60);
    silver.put("acme".to_string(), company(20));
    silver.put("beta".to_string(), company(30));
    g.put("gold".to_string(), gold);
    g.put("silver".to_string(), silver);
    g
}

#[test]
fn default_guild_is_empty() {
    let g = Guild::default();
    assert!(g.iter().is_empty());
    assert_eq!(g.spotlight(), None);
    assert_eq!(g.news_channel(), None);
    assert_eq!(g.spotlight_company(), &None);
}

#[test]
fn tier_lookup_and_mutation() {
    let mut g = guild();
    assert!(g.has_tier("gold"));
    assert!(!g.has_tier("bronze"));
    g.tier("gold").unwrap().put("gamma".to_string(), company(40));
    assert!(g.find_company("gamma").is_some());
    assert!(g.tier("bronze").is_none());
}

#[test]
fn find_company_takes_first_tier() {
    let g = guild();
    let (c, role) = g.find_company("acme").unwrap();
    assert_eq!(c.role_id(), 10);
    assert_eq!(role, 50);
    let (c, role) = g.find_company("beta").unwrap();
    assert_eq!(c.role_id(), 30);
    assert_eq!(role, 60);
    assert!(g.find_company("nope").is_none());
}

#[test]
fn find_company_mut_changes_the_found_company() {
    let mut g = guild();
    g.find_company_mut("beta").unwrap().addch(5);
    assert_eq!(g.find_company("beta").unwrap().0.channels(), &vec![330, 230, 5]);
}

#[test]
fn remove_company_takes_from_first_tier_only() {
    let mut g = guild();
    let c = g.remove_company("acme").unwrap();
    assert_eq!(c.role_id(), 10);
    let (c, role) = g.find_company("acme").unwrap();
    assert_eq!(c.role_id(), 20);
    assert_eq!(role, 60);
    assert!(g.remove_company("nope").is_none());
}

#[test]
fn rm_tier() {
    let mut g = guild();
    let t = g.rm("gold").unwrap();
    assert_eq!(t.role_id(), 50);
    assert!(!g.has_tier("gold"));
    assert!(g.rm("gold").is_none());
}

#[test]
fn company_listing_is_sorted_by_tier_name() {
    let mut g = Guild::default();
    let mut zeta = Tier::from_created(1, 1);
    zeta.put("z1".to_string(), company(1));
    zeta.put("z2".to_string(), company(2));
    g.put("Zeta".to_string(), zeta);
    g.put("Alpha".to_string(), Tier::from_created(1, 2));
    let mut b = Tier::from_created(1, 3);
    b.put("bee".to_string(), company(3));
    g.put("Beta".to_string(), b);
    assert_eq!(
        g.company_listing(),
        vec![
            ("Alpha".to_string(), "".to_string()),
            ("Beta".to_string(), "bee".to_string()),
            ("Zeta".to_string(), "z1\nz2".to_string()),
        ]
    );
}

#[test]
fn company_listing_orders_uppercase_before_lowercase() {
    let mut g = Guild::default();
    g.put("b".to_string(), Tier::from_created(1, 1));
    g.put("B".to_string(), Tier::from_created(1, 2));
    g.put("ab".to_string(), Tier::from_created(1, 3));
    g.put("a".to_string(), Tier::from_created(1, 4));
    let names: Vec<String> = g.company_listing().into_iter().map(|(k, _)| k).collect();
    assert_eq!(names, vec!["B", "a", "ab", "b"]);
}

#[test]
fn company_grants_offer_each_tier() {
    let g = guild();
    assert_eq!(
        g.company_grants("beta"),
        vec![
            Grant { tier_guild: 1, tier_role: 50, company: None },
            Grant { tier_guild: 1, tier_role: 60, company: Some(RoleGrant { guild: 1, role: 30 }) },
        ]
    );
    assert_eq!(g.company_grants("acme")[0].company, Some(RoleGrant { guild: 1, role: 10 }));
}

#[test]
fn company_grants_use_each_tier_and_company_guild() {
    let mut g = Guild::default();
    let mut t = Tier::from_created(7, 70);
    t.put("x".to_string(), Company::from_created(8, 80, 0, 0, 0));
    g.put("t".to_string(), t);
    assert_eq!(
        g.company_grants("x"),
        vec![Grant { tier_guild: 7, tier_role: 70, company: Some(RoleGrant { guild: 8, role: 80 }) }]
    );
}

#[test]
fn spotlight_command_without_category() {
    let g = guild();
    assert!(matches!(g.spotlight_command("Acme", true), SpotlightCommand::NoCategory));
}

#[test]
fn spotlight_command_cases() {
    let mut g = guild();
    g.set_spotlight(Some(777));
    g.set_news_channel(Some(888));
    match g.spotlight_command("\"ACME\"", true) {
        SpotlightCommand::Start { company, spotlight, news } => {
            assert_eq!(company, "acme");
            assert_eq!(spotlight, 777);
            assert_eq!(news, Some(888));
        }
        _ => panic!("expected a start"),
    }
    match g.spotlight_command("Beta", false) {
        SpotlightCommand::End { company, news } => {
            assert_eq!(company, "beta");
            assert_eq!(news, Some(888));
        }
        _ => panic!("expected an end"),
    }
    match g.spotlight_command("No Such", true) {
        SpotlightCommand::UnknownCompany(n) => assert_eq!(n, "no-such"),
        _ => panic!("expected an unknown company"),
    }
}

#[test]
fn finish_spotlight_sets_flag_only_when_moved() {
    let mut g = guild();
    g.finish_spotlight("acme", true, false);
    assert!(!g.find_company("acme").unwrap().0.spotlight());
    g.finish_spotlight("acme", true, true);
    assert!(g.find_company("acme").unwrap().0.spotlight());
    g.finish_spotlight("acme", false, true);
    assert!(!g.find_company("acme").unwrap().0.spotlight());
}

#[test]
fn spotlight_replies_follow_outcome() {
    let name = "acme".to_string();
    let r = spotlight_replies(&name, true, true, Some(9));
    assert_eq!(r.reply.text(), "Spotlight enabled for acme");
    let (ch, post) = r.news.unwrap();
    assert_eq!(ch, 9);
    assert_eq!(post.text(), "A empresa **acme** acabou de ativar o spotlight");
    let r = spotlight_replies(&name, true, false, Some(9));
    assert_eq!(r.reply.text(), "Spotlight enabling failed for acme");
    assert!(r.news.is_none());
    let r = spotlight_replies(&name, false, true, Some(9));
    assert_eq!(r.reply.text(), "Spotlight disabled for acme");
    assert_eq!(r.news.unwrap().1.text(), "O spotlight da empresa **acme** acabou");
    let r = spotlight_replies(&name, false, false, None);
    assert_eq!(r.reply.text(), "Spotlight disabling failed for acme");
    let r = spotlight_replies(&name, false, true, None);
    assert!(r.news.is_none());
    assert!(matches!(r.reply, Reply::SpotlightDisabled(_)));
}
