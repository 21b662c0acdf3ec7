use rolling_reboot::fleet::{parse_servers, ServerListError};
use rolling_reboot::server::{Server, ServerStatus};

fn entry(s: &Server) -> (String, u16) {
    (s.name.clone(), s.port)
}

#[test]
fn sort_order_lists_failures_first_and_pending_last() {
    assert_eq!(ServerStatus::Failed("x".to_string()).sort_order(), 0);
    assert_eq!(ServerStatus::Rebooting.sort_order(), 1);
    assert_eq!(ServerStatus::Verifying.sort_order(), 2);
    assert_eq!(ServerStatus::Success.sort_order(), 3);
    assert_eq!(ServerStatus::Pending.sort_order(), 4);
}

#[test]
fn new_server_waits() {
    let s = Server::new("web01".to_string(), 2222);
    assert_eq!(s.name, "web01");
    assert_eq!(s.port, 2222);
    assert_eq!(s.status, ServerStatus::Pending);
    assert!(s.started_at.is_none());
}

#[test]
fn parse_host_only_takes_default_port() {
    let s = Server::parse("web01", 22);
    assert_eq!(entry(&s), ("web01".to_string(), 22));
    assert_eq!(s.status, ServerStatus::Pending);
    assert!(s.started_at.is_none());
}

#[test]
fn parse_host_and_port() {
    assert_eq!(entry(&Server::parse("web03:2222", 22)), ("web03".to_string(), 2222));
    assert_eq!(entry(&Server::parse("db01:2200", 2000)), ("db01".to_string(), 2200));
}

#[test]
fn parse_trims_white_space() {
    assert_eq!(entry(&Server::parse("  web02 \t", 22)), ("web02".to_string(), 22));
    assert_eq!(entry(&Server::parse("\u{a0}web02:80\r\n", 22)), ("web02".to_string(), 80));
}

#[test]
fn parse_keeps_entry_whose_port_does_not_read() {
    assert_eq!(entry(&Server::parse("host:abc", 22)), ("host:abc".to_string(), 22));
    assert_eq!(entry(&Server::parse("host:", 7)), ("host:".to_string(), 7));
    assert_eq!(entry(&Server::parse("host:65536", 22)), ("host:65536".to_string(), 22));
    assert_eq!(entry(&Server::parse("host:-1", 22)), ("host:-1".to_string(), 22));
    assert_eq!(entry(&Server::parse("host:+", 22)), ("host:+".to_string(), 22));
}

#[test]
fn parse_port_edge_values() {
    assert_eq!(entry(&Server::parse("host:65535", 22)), ("host".to_string(), 65535));
    assert_eq!(entry(&Server::parse("host:0", 22)), ("host".to_string(), 0));
    assert_eq!(entry(&Server::parse("host:+80", 22)), ("host".to_string(), 80));
    assert_eq!(entry(&Server::parse("host:0080", 22)), ("host".to_string(), 80));
}

#[test]
fn parse_splits_at_last_colon() {
    assert_eq!(entry(&Server::parse("[::1]:2222", 22)), ("[::1]".to_string(), 2222));
    assert_eq!(entry(&Server::parse("a:b:5", 22)), ("a:b".to_string(), 5));
    assert_eq!(entry(&Server::parse(":9", 22)), ("".to_string(), 9));
}

#[test]
fn parse_empty_entry() {
    assert_eq!(entry(&Server::parse("   ", 22)), ("".to_string(), 22));
}

#[test]
fn parse_servers_inline_then_file() {
    let items = vec!["db01".to_string(), " db02:2200 ".to_string(), "   ".to_string()];
    let file = "# Production web servers\nweb01\n\n  web02\r\nweb03:2222\n   # indented comment\nweb04";
    let servers = parse_servers(&items, Some(file), 22).unwrap();
    let entries: Vec<(String, u16)> = servers.iter().map(entry).collect();
    assert_eq!(
        entries,
        vec![
            ("db01".to_string(), 22),
            ("db02".to_string(), 2200),
            ("web01".to_string(), 22),
            ("web02".to_string(), 22),
            ("web03".to_string(), 2222),
            ("web04".to_string(), 22),
        ]
    );
    assert!(servers.iter().all(|s| s.status == ServerStatus::Pending && s.started_at.is_none()));
}

#[test]
fn parse_servers_inline_hash_is_a_host() {
    let items = vec!["#web".to_string()];
    let servers = parse_servers(&items, None, 22).unwrap();
    assert_eq!(servers.len(), 1);
    assert_eq!(servers[0].name, "#web");
}

#[test]
fn parse_servers_file_with_final_newline() {
    let servers = parse_servers(&Vec::new(), Some("a\nb:23\n"), 2022).unwrap();
    let entries: Vec<(String, u16)> = servers.iter().map(entry).collect();
    assert_eq!(entries, vec![("a".to_string(), 2022), ("b".to_string(), 23)]);
}

#[test]
fn parse_servers_none_given() {
    assert_eq!(parse_servers(&Vec::new(), None, 22).unwrap_err(), ServerListError::NoServers);
    let items = vec![" ".to_string(), "".to_string()];
    assert_eq!(
        parse_servers(&items, Some("# only a comment\n\n"), 22).unwrap_err(),
        ServerListError::NoServers
    );
}
