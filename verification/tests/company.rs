use sei_bot::company::Company;

fn sample() -> Company {
    Company::from_created(1, 10, 20, 31, 32)
}

#[test]
fn created_company_pairs_voice_then_text() {
    let c = sample();
    assert_eq!(c.guild_id, 1);
    assert_eq!(c.role_id(), 10);
    assert_eq!(c.cat_id(), 20);
    assert_eq!(c.default_voice(), 32);
    assert_eq!(c.channels(), &vec![32, 31]);
    assert!(c.users().is_empty());
    assert!(!c.spotlight());
}

#[test]
fn from_parts_keeps_every_field() {
    let c = Company::from_parts(2, 3, 4, true, 5, vec![6, 7], vec![8]);
    assert_eq!(c.guild_id, 2);
    assert_eq!(c.role_id(), 3);
    assert_eq!(c.cat_id(), 4);
    assert!(c.spotlight());
    assert_eq!(c.default_voice(), 5);
    assert_eq!(c.channels(), &vec![6, 7]);
    assert_eq!(c.users(), &vec![8]);
}

#[test]
fn addch_appends() {
    let mut c = sample();
    c.addch(40);
    c.addch(32);
    assert_eq!(c.channels(), &vec![32, 31, 40, 32]);
}

#[test]
fn rmch_removes_first_occurrence_only() {
    let mut c = sample();
    c.addch(32);
    c.rmch(32);
    assert_eq!(c.channels(), &vec![31, 32]);
}

#[test]
fn rmch_of_unpaired_channel_changes_nothing() {
    let mut c = sample();
    c.rmch(99);
    assert_eq!(c.channels(), &vec![32, 31]);
}

#[test]
fn rmch_undoes_addch_of_a_new_channel() {
    let mut c = sample();
    c.addch(77);
    c.rmch(77);
    assert_eq!(c.channels(), &vec![32, 31]);
}

#[test]
fn spotlight_plan_moves_every_channel() {
    let c = sample();
    assert_eq!(c.spotlight_plan(Some(500)), vec![(32, 500), (31, 500)]);
    assert_eq!(c.spotlight_plan(None), vec![(32, 20), (31, 20)]);
}

#[test]
fn set_spotlight_changes_only_the_flag() {
    let mut c = sample();
    c.set_spotlight(true);
    assert!(c.spotlight());
    assert_eq!(c.channels(), &vec![32, 31]);
    c.set_spotlight(false);
    assert!(!c.spotlight());
}
