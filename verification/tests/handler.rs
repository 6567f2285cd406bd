use sei_bot::handler::{
    association_outcome, association_request, association_url, attendee_url, badge_request,
    company_choice, company_choice_reply, invalid_code_reply, is_association_code, redeems_url,
    sign_in_url, standing, Standing, EMPRESA_ROLE, GUILD_ID, ORADOR_ROLE, PARTICIPANTE_ROLE,
    STAFF_ROLE,
};
use sei_bot::handler::{Grant, GrantAction, GrantState, RoleGrant};
use sei_bot::requests::UserType;

#[test]
fn roles_of_user_types() {
    assert_eq!(UserType::Staff.as_role(), 793534104339349534);
    assert_eq!(UserType::Empresa.as_role(), 813053096158298122);
    assert_eq!(UserType::Orador.as_role(), 793537618138234912);
    assert_eq!(UserType::Participante.as_role(), 793536131458531389);
    assert_eq!(GUILD_ID, 793533219865755648);
}

#[test]
fn roles_are_distinct() {
    let all = [UserType::Staff, UserType::Empresa, UserType::Orador, UserType::Participante];
    for a in all.iter() {
        for b in all.iter() {
            assert_eq!(a.as_role() == b.as_role(), a == b);
        }
    }
}

#[test]
fn standing_cases() {
    assert_eq!(standing(&Some(vec![])), Standing::Unassociated);
    assert_eq!(standing(&Some(vec![STAFF_ROLE, 5])), Standing::Unassociated);
    assert_eq!(standing(&Some(vec![5, EMPRESA_ROLE])), Standing::CompanyMember);
    assert_eq!(standing(&Some(vec![EMPRESA_ROLE, PARTICIPANTE_ROLE])), Standing::CompanyMember);
    assert_eq!(standing(&Some(vec![PARTICIPANTE_ROLE])), Standing::Other);
    assert_eq!(standing(&Some(vec![ORADOR_ROLE])), Standing::Unassociated);
    assert_eq!(standing(&None), Standing::Other);
}

#[test]
fn association_codes_are_uuids() {
    assert!(is_association_code("67e55044-10b1-426f-9247-bb680e5fe0c8"));
    assert!(is_association_code("67e5504410b1426f9247bb680e5fe0c8"));
    assert!(!is_association_code("hello"));
    assert!(!is_association_code(""));
    assert!(!is_association_code("67e55044-10b1-426f-9247-bb680e5fe0cz"));
    assert!(is_association_code("urn:uuid:67E55044-10B1-426F-9247-BB680E5FE0C8"));
    assert!(!is_association_code("urn:uuid:67e5504410b1426f9247bb680e5fe0c8"));
    assert!(!is_association_code("67e5504-410b1-426f-9247-bb680e5fe0c8"));
    assert!(!is_association_code("67e55044-10b1-426f-9247-bb680e5fe0c8-"));
    assert!(!is_association_code("{67e55044-10b1-426f-9247-bb680e5fe0c8}"));
}

#[test]
fn grant_state_machine_stops_at_first_full_grant() {
    let grants = vec![
        Grant { tier_guild: 1, tier_role: 50, company: None },
        Grant { tier_guild: 1, tier_role: 60, company: Some(RoleGrant { guild: 2, role: 30 }) },
        Grant { tier_guild: 1, tier_role: 70, company: Some(RoleGrant { guild: 2, role: 40 }) },
    ];
    let mut s = GrantState::start();
    assert_eq!(s.action(&grants), GrantAction::Give { guild: 1, role: 50 });
    s = s.next(&grants, true);
    assert_eq!(s.action(&grants), GrantAction::Give { guild: 1, role: 60 });
    s = s.next(&grants, true);
    assert_eq!(s.action(&grants), GrantAction::Give { guild: 2, role: 30 });
    s = s.next(&grants, false);
    assert_eq!(s.action(&grants), GrantAction::Give { guild: 1, role: 70 });
    s = s.next(&grants, false);
    assert_eq!(s.action(&grants), GrantAction::Finished(false));
    let mut s = GrantState::start();
    s = s.next(&grants, false);
    s = s.next(&grants, true);
    s = s.next(&grants, true);
    assert_eq!(s.action(&grants), GrantAction::Finished(true));
    assert_eq!(s.next(&grants, false), s);
}

#[test]
fn outcome_of_unknown_code() {
    let o = association_outcome(None, Some(3));
    assert_eq!(o.add_role, None);
    assert!(!o.send_company_list);
    assert_eq!(o.give_badge, None);
    assert_eq!(o.reply.unwrap(), "Código inválido, tenta de novo");
    assert_eq!(invalid_code_reply(), "Código inválido, tenta de novo");
}

#[test]
fn outcome_of_company_representative() {
    let o = association_outcome(Some(UserType::Empresa), Some(3));
    assert_eq!(o.add_role, Some(EMPRESA_ROLE));
    assert!(o.send_company_list);
    assert_eq!(o.give_badge, None);
    assert!(o.reply.is_none());
}

#[test]
fn outcome_of_participant() {
    let o = association_outcome(Some(UserType::Participante), Some(3));
    assert_eq!(o.add_role, Some(PARTICIPANTE_ROLE));
    assert!(!o.send_company_list);
    assert_eq!(o.give_badge, Some(3));
    assert_eq!(o.reply.unwrap(), "O teu id foi validado, vais agora ter acesso aos canais da SEI.");
    let o = association_outcome(Some(UserType::Participante), None);
    assert_eq!(o.give_badge, None);
}

#[test]
fn outcome_of_speaker_and_staff() {
    for t in [UserType::Orador, UserType::Staff].iter() {
        let o = association_outcome(Some(*t), Some(3));
        assert_eq!(o.add_role, Some(t.as_role()));
        assert!(!o.send_company_list);
        assert_eq!(o.give_badge, None);
        assert_eq!(o.reply.unwrap(), "O teu id foi validado, vais agora ter acesso aos canais da SEI.");
    }
}

#[test]
fn company_choice_is_trimmed() {
    assert_eq!(company_choice("  acme \n"), "acme");
    assert_eq!(company_choice("acme labs"), "acme labs");
    assert_eq!(company_choice(" \t "), "");
    assert_eq!(company_choice_reply(true), "O seu id foi validado, terá agora acesso aos canais da SEI.");
    assert_eq!(company_choice_reply(false), "Emprsa não encontrada");
}

#[test]
fn backend_urls() {
    assert_eq!(sign_in_url("http://b"), "http://b/api/auth/sign_in");
    assert_eq!(association_url("http://b"), "http://b/api/v1/association");
    assert_eq!(attendee_url("http://b", 193043741676797952), "http://b/api/v1/association/193043741676797952");
    assert_eq!(redeems_url("http://b"), "http://b/api/v1/redeems");
}

#[test]
fn backend_requests() {
    let r = association_request("code", 42);
    assert_eq!(r.discord_association_code, "code");
    assert_eq!(r.discord_id, "42");
    let b = badge_request("att".to_string(), 7);
    assert_eq!(b.redeem.attendee_id, "att");
    assert_eq!(b.redeem.badge_id, 7);
}
