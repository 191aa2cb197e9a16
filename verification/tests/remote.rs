use namplay::remote::{parse_actions, route_request, RemoteReply};

#[test]
fn parse_actions_reads_action_values() {
    assert_eq!(parse_actions("/?mode=toggle&action=pedal-bypass"), vec!["pedal-bypass".to_string()]);
    assert_eq!(parse_actions("/?action=amp-next"), vec!["amp-next".to_string()]);
    assert_eq!(
        parse_actions("/?action=a&x=1&action=b"),
        vec!["a".to_string(), "b".to_string()]
    );
}

#[test]
fn parse_actions_without_query_is_empty() {
    assert!(parse_actions("/").is_empty());
    assert!(parse_actions("").is_empty());
}

#[test]
fn parse_actions_edge_cases() {
    assert!(parse_actions("/?action").is_empty());
    assert_eq!(parse_actions("/?action="), vec!["".to_string()]);
    assert_eq!(parse_actions("/?action=a=b"), vec!["a=b".to_string()]);
    assert_eq!(parse_actions("/?a?action=x"), vec!["x".to_string()]);
    assert_eq!(parse_actions("/?q&action=x?y"), vec!["x".to_string()]);
    assert!(parse_actions("/?&&").is_empty());
    assert!(parse_actions("/?Action=x").is_empty());
}

#[test]
fn route_request_post_triggers_actions() {
    match route_request("POST /?action=amp-next HTTP/1.1\r\n") {
        RemoteReply::Trigger(a) => assert_eq!(a, vec!["amp-next".to_string()]),
        RemoteReply::Page => panic!("expected actions"),
    }
}

#[test]
fn route_request_other_methods_get_page() {
    assert!(matches!(route_request("GET /?action=amp-next HTTP/1.1\r\n"), RemoteReply::Page));
    assert!(matches!(route_request(""), RemoteReply::Page));
    assert!(matches!(route_request("post / HTTP/1.1"), RemoteReply::Page));
}

#[test]
fn route_request_handles_odd_whitespace() {
    match route_request("  POST\t/?action=x   HTTP/1.1") {
        RemoteReply::Trigger(a) => assert_eq!(a, vec!["x".to_string()]),
        RemoteReply::Page => panic!("expected actions"),
    }
    match route_request("POST") {
        RemoteReply::Trigger(a) => assert!(a.is_empty()),
        RemoteReply::Page => panic!("expected actions"),
    }
}

#[test]
fn parse_actions_readme_links() {
    assert_eq!(
        parse_actions("/?mode=toggle?action=pedal-bypass"),
        vec!["pedal-bypass".to_string()]
    );
    assert_eq!(parse_actions("/?action=amp-next"), vec!["amp-next".to_string()]);
}
