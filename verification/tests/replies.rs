use sei_bot::commands::Reply;

#[test]
fn reply_texts() {
    assert_eq!(Reply::SpotlightSet(12).text(), "Spotlight category set to 12");
    assert_eq!(Reply::NewsSet(13).text(), "News channel set to 13");
    assert_eq!(Reply::BadgeGiven.text(), "Badge given with success");
    assert_eq!(Reply::BadgeFailed.text(), "Badge attribution failed");
    assert_eq!(Reply::BadgesGiven.text(), "Badges given with some success");
    assert_eq!(
        Reply::CompaniesCreated(vec!["a".to_string(), "b".to_string()]).text(),
        "Created companies: a b"
    );
    assert_eq!(Reply::CompaniesRemoved(vec![]).text(), "Removed companies: ");
    assert_eq!(Reply::ChannelsPaired(vec![1, 2]).text(), "Paired channels: 1 2");
    assert_eq!(Reply::CompanyMissing("x".to_string()).text(), "Company x doesnt exist");
    assert_eq!(Reply::NoSpotlightCategory.text(), "No spotlight category set");
    assert_eq!(Reply::UserAdded("x".to_string()).text(), "User added to x");
    assert_eq!(Reply::UserRemoved("x".to_string()).text(), "User removed from x");
    assert_eq!(Reply::CompanyNotFound("x".to_string()).text(), "Company x not found");
    assert_eq!(Reply::TierNotFound("X".to_string()).text(), "Tier X not found");
    assert_eq!(
        Reply::TiersCreated(vec!["gold".to_string()]).text(),
        "Foram criados os tiers: gold"
    );
    assert_eq!(
        Reply::TiersRemoved(vec!["gold".to_string(), "silver".to_string()]).text(),
        "Foram removidos os tiers: gold silver"
    );
}
