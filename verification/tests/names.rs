use sei_bot::names::{company_names, dash_spaces, normalize_name, strip_quotes, upper_name};

#[test]
fn normalize_lowercases_strips_quotes_and_dashes_spaces() {
    assert_eq!(normalize_name("\"Big Corp\" Inc"), "big-corp-inc");
}

#[test]
fn normalize_handles_non_ascii_letters() {
    assert_eq!(normalize_name("ÉCOLE Técnica"), "école-técnica");
}

#[test]
fn normalize_of_empty_name_is_empty() {
    assert_eq!(normalize_name(""), "");
}

#[test]
fn normalized_names_have_no_quotes_or_spaces() {
    let n = normalize_name("  \"a\" \"b c\"  ");
    assert!(!n.contains('"'));
    assert!(!n.contains(' '));
    assert_eq!(n, "--a-b-c--");
}

#[test]
fn normalizing_twice_changes_nothing_for_lowercase_names() {
    let once = normalize_name("Acme \"Labs\"");
    assert_eq!(normalize_name(&once), once);
}

#[test]
fn company_names_follow_the_company_name() {
    let n = company_names("\"Acme Labs\"");
    assert_eq!(n.role, "acme labs");
    assert_eq!(n.category, "acme-labs");
    assert_eq!(n.text, "acme-labs-text");
    assert_eq!(n.voice, "acme-labs-voice");
}

#[test]
fn strip_and_dash() {
    assert_eq!(strip_quotes("a\"b\"c"), "abc");
    assert_eq!(strip_quotes("\"\""), "");
    assert_eq!(dash_spaces("a b  c"), "a-b--c");
    assert_eq!(dash_spaces(""), "");
}

#[test]
fn upper_name_uppercases() {
    assert_eq!(upper_name("gold"), "GOLD");
    assert_eq!(upper_name("Prata"), "PRATA");
}
