use vynkor_plugins::network::ssrf::{
    check_host_reachable, check_literal_ip_host, filter_allowed_addrs, is_blocked_ip,
    reachable_addrs, Allowlist, Blocklist, HostEntry, Ip,
};
use vynkor_plugins::fields::comma_items;

fn octets(s: &str) -> Option<Ip> {
    let parts: Vec<u8> = s.split('.').filter_map(|p| p.parse().ok()).collect();
    if parts.len() == 4 && s.split('.').count() == 4 {
        Some(Ip::v4(parts[0], parts[1], parts[2], parts[3]))
    } else {
        None
    }
}

fn entries(raw: &str) -> Vec<HostEntry> {
    comma_items(raw)
        .into_iter()
        .map(|text| {
            let ip = octets(&text);
            HostEntry { text, ip }
        })
        .collect()
}

fn localhost() -> Result<Vec<Ip>, String> {
    Ok(vec![Ip::v4(127, 0, 0, 1), Ip::V6(1)])
}

#[test]
fn blocks_loopback() {
    assert!(is_blocked_ip(Ip::v4(127, 0, 0, 1)));
}

#[test]
fn blocks_rfc1918_10() {
    assert!(is_blocked_ip(Ip::v4(10, 0, 0, 1)));
}

#[test]
fn blocks_rfc1918_172() {
    assert!(is_blocked_ip(Ip::v4(172, 16, 0, 1)));
}

#[test]
fn blocks_rfc1918_192() {
    assert!(is_blocked_ip(Ip::v4(192, 168, 1, 1)));
}

#[test]
fn blocks_link_local() {
    assert!(is_blocked_ip(Ip::v4(169, 254, 1, 1)));
}

#[test]
fn blocks_cloud_metadata() {
    assert!(is_blocked_ip(Ip::v4(169, 254, 169, 254)));
}

#[test]
fn allows_public_ip() {
    assert!(!is_blocked_ip(Ip::v4(8, 8, 8, 8)));
}

#[test]
fn allows_another_public_ip() {
    assert!(!is_blocked_ip(Ip::v4(1, 1, 1, 1)));
}

#[test]
fn blocks_the_edges_of_each_range() {
    assert!(!is_blocked_ip(Ip::v4(9, 255, 255, 255)));
    assert!(is_blocked_ip(Ip::v4(10, 255, 255, 255)));
    assert!(!is_blocked_ip(Ip::v4(172, 15, 255, 255)));
    assert!(is_blocked_ip(Ip::v4(172, 31, 255, 255)));
    assert!(!is_blocked_ip(Ip::v4(172, 32, 0, 0)));
    assert!(is_blocked_ip(Ip::V6(1)));
    assert!(is_blocked_ip(Ip::V6(0xfd00_0000_0000_0000_0000_0000_0000_0001)));
    assert!(!is_blocked_ip(Ip::V6(0x2001_4860_4860_0000_0000_0000_0000_8888)));
}

#[test]
fn blocklist_parses_ips_and_hosts() {
    let bl = Blocklist::parse(&entries("8.8.8.8, internal.corp , 1.1.1.1"));
    assert!(bl.blocks_ip(Ip::v4(8, 8, 8, 8)));
    assert!(bl.blocks_ip(Ip::v4(1, 1, 1, 1)));
    assert!(bl.blocks_host("internal.corp"));
    assert!(bl.blocks_host("Internal.Corp"));
}

#[test]
fn blocklist_ignores_blank_entries() {
    let bl = Blocklist::parse(&entries(" , ,"));
    assert_eq!(bl, Blocklist::default());
}

#[test]
fn blocklist_does_not_block_unlisted() {
    let bl = Blocklist::parse(&entries("8.8.8.8,internal.corp"));
    assert!(!bl.blocks_ip(Ip::v4(9, 9, 9, 9)));
    assert!(!bl.blocks_host("example.com"));
}

#[test]
fn blocklist_from_env_empty_when_unset() {
    assert_eq!(Blocklist::parse(&entries("")), Blocklist::default());
}

#[test]
fn check_host_reachable_blocks_loopback() {
    let err = check_host_reachable(
        "localhost",
        &localhost(),
        &Blocklist::default(),
        &Allowlist::default(),
    )
    .unwrap_err();
    assert!(err.contains("blocked"), "error was: {err}");
}

#[test]
fn check_host_reachable_allowlist_permits_loopback() {
    let allowlist = Allowlist::parse(&entries("localhost"));
    assert!(
        check_host_reachable("localhost", &localhost(), &Blocklist::default(), &allowlist).is_ok()
    );
}

#[test]
fn check_host_reachable_honors_extra_blocklist() {
    let blocklist = Blocklist::parse(&entries("localhost"));
    let err = check_host_reachable("localhost", &localhost(), &blocklist, &Allowlist::default())
        .unwrap_err();
    assert!(err.contains("operator blocklist"), "error was: {err}");
}

#[test]
fn upper_case_hosts_match_the_lists() {
    let blocklist = Blocklist::parse(&entries("LOCALHOST"));
    let err = check_host_reachable("LocalHost", &localhost(), &blocklist, &Allowlist::default())
        .unwrap_err();
    assert!(err.contains("operator blocklist"), "error was: {err}");
    let allowlist = Allowlist::parse(&entries("LocalHost"));
    assert!(
        check_host_reachable("LOCALHOST", &localhost(), &Blocklist::default(), &allowlist).is_ok()
    );
}

#[test]
fn failed_resolution_is_an_error() {
    let err = check_host_reachable(
        "nowhere.invalid",
        &Err("no such host".to_string()),
        &Blocklist::default(),
        &Allowlist::default(),
    )
    .unwrap_err();
    assert!(err.contains("no such host"), "error was: {err}");
}

#[test]
fn filter_keeps_only_permitted_addresses() {
    let addrs = vec![Ip::v4(10, 0, 0, 1), Ip::v4(8, 8, 8, 8), Ip::v4(1, 1, 1, 1)];
    let bl = Blocklist::parse(&entries("1.1.1.1"));
    assert_eq!(
        filter_allowed_addrs("example.com", &addrs, &bl, &Allowlist::default()),
        vec![Ip::v4(8, 8, 8, 8)]
    );
    assert_eq!(
        reachable_addrs("example.com", "example.com", &Ok(addrs), &bl, &Allowlist::default()),
        Ok(vec![Ip::v4(8, 8, 8, 8)])
    );
}

#[test]
fn literal_addresses_are_checked_without_resolution() {
    let ip = Ip::v4(169, 254, 169, 254);
    let err = check_literal_ip_host(
        "169.254.169.254",
        Some(ip),
        &Blocklist::default(),
        &Allowlist::default(),
    )
    .unwrap_err();
    assert_eq!(err, "address 169.254.169.254 is blocked by SSRF policy");
    assert!(check_literal_ip_host(
        "example.com",
        None,
        &Blocklist::default(),
        &Allowlist::default()
    )
    .is_ok());
}
