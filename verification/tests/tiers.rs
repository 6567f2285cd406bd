use sei_bot::company::Company;
use sei_bot::tier::Tier;
use sei_bot::tiers::Tiers;

fn company(role: u64) -> Company {
    Company::from_created(1, role, 100 + role, 200 + role, 300 + role)
}

fn tiers() -> Tiers {
    let mut t = Tiers::default();
    let mut gold = Tier::from_created(1, 50);
    gold.put("acme".to_string(), company(10));
    t.guild(1).put("gold".to_string(), gold);
    let mut gold2 = Tier::from_created(2, 51);
    gold2.put("acme".to_string(), company(11));
    t.guild(2).put("gold".to_string(), gold2);
    t
}

#[test]
fn default_tiers_have_no_guilds() {
    let t = Tiers::default();
    assert!(t.guilds().is_empty());
}

#[test]
fn guild_is_made_on_first_use_and_kept() {
    let mut t = Tiers::default();
    t.guild(7).set_news_channel(Some(3));
    assert_eq!(t.guilds().len(), 1);
    assert_eq!(t.guild(7).news_channel(), Some(3));
    assert_eq!(t.guilds().len(), 1);
}

#[test]
fn set_spotlight_and_news_channel() {
    let mut t = Tiers::default();
    t.set_spotlight(7, 40);
    t.set_news_channel(7, 41);
    t.set_spotlight(8, 42);
    assert_eq!(t.guild(7).spotlight(), Some(40));
    assert_eq!(t.guild(7).news_channel(), Some(41));
    assert_eq!(t.guild(8).spotlight(), Some(42));
    assert_eq!(t.guild(8).news_channel(), None);
}

#[test]
fn spotlight_start_target_skips_guilds_without_category() {
    let mut t = tiers();
    assert!(t.spotlight_start_target("ACME").is_none());
    t.set_spotlight(2, 900);
    let target = t.spotlight_start_target("ACME").unwrap();
    assert_eq!(target.guild_id, 2);
    assert_eq!(target.company, "acme");
    assert_eq!(target.spotlight, 900);
    t.set_spotlight(1, 800);
    assert_eq!(t.spotlight_start_target("acme").unwrap().guild_id, 1);
    assert!(t.spotlight_start_target("nope").is_none());
}

#[test]
fn spotlight_start_and_end_round_trip() {
    let mut t = tiers();
    t.set_spotlight(1, 800);
    assert!(t.spotlight_end_target().is_none());
    let start = t.spotlight_start_target("acme").unwrap();
    assert_eq!(t.finish_spotlight_start(&start, true), Some(()));
    assert_eq!(t.guild(1).spotlight_company(), &Some("acme".to_string()));
    assert!(t.guild(1).find_company("acme").unwrap().0.spotlight());
    let end = t.spotlight_end_target().unwrap();
    assert_eq!(end.guild_id, 1);
    assert_eq!(end.company, "acme");
    assert_eq!(t.finish_spotlight_end(&end, true), Some(()));
    assert_eq!(t.guild(1).spotlight_company(), &None);
    assert!(!t.guild(1).find_company("acme").unwrap().0.spotlight());
    assert!(t.spotlight_end_target().is_none());
}

#[test]
fn failed_moves_change_nothing() {
    let mut t = tiers();
    t.set_spotlight(1, 800);
    let start = t.spotlight_start_target("acme").unwrap();
    assert_eq!(t.finish_spotlight_start(&start, false), None);
    assert_eq!(t.guild(1).spotlight_company(), &None);
    assert!(!t.guild(1).find_company("acme").unwrap().0.spotlight());
    assert_eq!(t.finish_spotlight_start(&start, true), Some(()));
    let end = t.spotlight_end_target().unwrap();
    assert_eq!(t.finish_spotlight_end(&end, false), None);
    assert_eq!(t.guild(1).spotlight_company(), &Some("acme".to_string()));
    assert!(t.guild(1).find_company("acme").unwrap().0.spotlight());
}

#[test]
fn company_voice_from_first_guild() {
    let t = tiers();
    assert_eq!(t.company_voice("Acme"), Some(310));
    assert_eq!(t.company_voice("nope"), None);
}
