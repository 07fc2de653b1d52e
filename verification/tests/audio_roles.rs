use sound_switch::audio::{find_endpoint_by_keyword, keyword_matches, parse_role, role_name, AudioEndpoint, Role};

fn ep(id: &str, name: &str) -> AudioEndpoint {
    AudioEndpoint { id: id.to_string(), name: name.to_string() }
}

#[test]
fn role_names_are_read_ignoring_case() {
    assert_eq!(parse_role("console"), Some(Role::Console));
    assert_eq!(parse_role("MultiMedia"), Some(Role::Multimedia));
    assert_eq!(parse_role("COMMUNICATIONS"), Some(Role::Communications));
    assert_eq!(parse_role("speaker"), None);
    assert_eq!(parse_role(" console"), None);
    assert_eq!(parse_role(""), None);
}

#[test]
fn role_names_round_trip() {
    for role in [Role::Console, Role::Multimedia, Role::Communications] {
        assert_eq!(parse_role(role_name(&role)), Some(role));
    }
    assert_eq!(role_name(&Role::Communications), "communications");
}

#[test]
fn keyword_match_ignores_case() {
    assert!(keyword_matches(
        "扬声器 (HyperX Cloud Stinger Core Wireless DTS)",
        "hyperx cloud stinger core wireless"
    ));
    assert!(keyword_matches("Speakers (HYPERX)", "HyperX"));
    assert!(!keyword_matches("Realtek Audio", "HyperX"));
    assert!(keyword_matches("anything", ""));
}

#[test]
fn first_matching_endpoint_is_chosen() {
    let eps = vec![
        ep("{0.0.0.1}", "Realtek(R) Audio"),
        ep("{0.0.0.2}", "扬声器 (HyperX Cloud Stinger Core Wireless DTS)"),
        ep("{0.0.0.3}", "HyperX Cloud Stinger Core Wireless mirror"),
    ];
    let found = find_endpoint_by_keyword(eps, "HyperX Cloud Stinger Core Wireless");
    assert_eq!(found, Some(ep("{0.0.0.2}", "扬声器 (HyperX Cloud Stinger Core Wireless DTS)")));
}

#[test]
fn no_matching_endpoint_gives_none() {
    let eps = vec![ep("{0.0.0.1}", "Realtek(R) Audio")];
    assert_eq!(find_endpoint_by_keyword(eps, "HyperX"), None);
    assert_eq!(find_endpoint_by_keyword(Vec::new(), "HyperX"), None);
}
