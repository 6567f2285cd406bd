use sei_bot::company::Company;
use sei_bot::tier::Tier;

fn company(role: u64) -> Company {
    Company::from_created(1, role, 100 + role, 200 + role, 300 + role)
}

#[test]
fn new_tier_is_empty() {
    let t = Tier::from_created(1, 5);
    assert_eq!(t.guild_id(), 1);
    assert_eq!(t.role_id(), 5);
    assert!(t.entries().is_empty());
    assert!(t.company("acme").is_none());
}

#[test]
fn put_then_company_gives_it_back() {
    let mut t = Tier::from_created(1, 5);
    t.put("acme".to_string(), company(10));
    assert_eq!(t.company("acme").unwrap().role_id(), 10);
    assert!(t.has_company("acme"));
    assert!(!t.has_company("other"));
}

#[test]
fn put_overwrites_in_place() {
    let mut t = Tier::from_created(1, 5);
    t.put("a".to_string(), company(10));
    t.put("b".to_string(), company(11));
    t.put("a".to_string(), company(12));
    assert_eq!(t.company_names(), vec!["a".to_string(), "b".to_string()]);
    assert_eq!(t.company("a").unwrap().role_id(), 12);
}

#[test]
fn rm_takes_the_company_out() {
    let mut t = Tier::from_created(1, 5);
    t.put("a".to_string(), company(10));
    t.put("b".to_string(), company(11));
    let c = t.rm("a").unwrap();
    assert_eq!(c.role_id(), 10);
    assert!(!t.has_company("a"));
    assert_eq!(t.company_names(), vec!["b".to_string()]);
    assert!(t.rm("a").is_none());
}

#[test]
fn company_mut_changes_in_place() {
    let mut t = Tier::from_created(1, 5);
    t.put("a".to_string(), company(10));
    t.company_mut("a").unwrap().addch(999);
    assert_eq!(t.company("a").unwrap().channels(), &vec![310, 210, 999]);
    assert!(t.company_mut("zzz").is_none());
}
