use oredash::bootstrap::{resolve_identifier, round_robin_endpoints};

#[test]
fn round_robin_cycles_through_pool() {
    let urls = vec![String::from("http://a"), String::from("http://b")];
    let assigned = round_robin_endpoints(&urls, 5);
    assert_eq!(
        assigned,
        vec![
            String::from("http://a"),
            String::from("http://b"),
            String::from("http://a"),
            String::from("http://b"),
            String::from("http://a"),
        ]
    );
}

#[test]
fn round_robin_empty_assignment() {
    let urls = vec![String::from("http://a")];
    let assigned = round_robin_endpoints(&urls, 0);
    assert!(assigned.is_empty());
}

#[test]
fn resolved_identifier_is_trimmed() {
    assert_eq!(resolve_identifier(true, "  ABCdef123\n"), "ABCdef123");
    assert_eq!(resolve_identifier(true, "plain"), "plain");
    assert_eq!(resolve_identifier(true, " \n\t "), "");
}

#[test]
fn failed_resolution_gives_empty_identifier() {
    assert_eq!(resolve_identifier(false, "whatever"), "");
}
