use sei_bot::api::{ApiKey, AuthError, CompanyVCResponse};

#[test]
fn no_key_configured_lets_everyone_in() {
    let k = ApiKey::authorize(&None, None).ok().unwrap();
    assert_eq!(k.key(), &None);
    let k = ApiKey::authorize(&None, Some("anything")).ok().unwrap();
    assert_eq!(k.key(), &None);
}

#[test]
fn right_key_passes() {
    let k = ApiKey::authorize(&Some("s3cret".to_string()), Some("s3cret")).ok().unwrap();
    assert_eq!(k.key(), &Some("s3cret".to_string()));
}

#[test]
fn wrong_or_missing_key_is_unauthorized() {
    assert_eq!(
        ApiKey::authorize(&Some("s3cret".to_string()), Some("guess")).err(),
        Some(AuthError::Unauthorized)
    );
    assert_eq!(
        ApiKey::authorize(&Some("s3cret".to_string()), None).err(),
        Some(AuthError::Unauthorized)
    );
}

#[test]
fn voice_response_lists_members() {
    let members = vec![
        (777892521262841908u64, "https://cdn.example/a.gif".to_string(), "CeSIUM".to_string()),
        (5, "img".to_string(), "x".to_string()),
    ];
    let r = CompanyVCResponse::from_members(&members);
    assert_eq!(r.users.len(), 2);
    assert_eq!(r.users[0].discord_id, 777892521262841908);
    assert_eq!(r.users[0].image, "https://cdn.example/a.gif");
    assert_eq!(r.users[0].name, "CeSIUM");
    assert_eq!(r.users[1].discord_id, 5);
    assert!(CompanyVCResponse::from_members(&vec![]).users.is_empty());
}
