use subrut::models::host::Host;
use subrut::models::ip::Ip;
use subrut::models::scan::Scan;

fn s(x: &str) -> String {
    x.to_string()
}

#[test]
fn new_scan_is_fully_qualified_and_empty() {
    let scan = Scan::new(s("domain.com"));
    assert_eq!(scan.domain, "domain.com.");
    assert_eq!(scan.hosts.len(), 0);
    assert_eq!(scan.ticks, 0);
}

#[test]
fn host_new_has_no_addresses() {
    let host = Host::new(s("subdomain.domain.com."));
    assert_eq!(host.name, "subdomain.domain.com.");
    assert!(host.ips.is_empty());
}

#[test]
fn ip_v4_from_octets() {
    assert_eq!(Ip::v4(1, 1, 1, 1), Ip::V4(0x0101_0101));
    assert_eq!(Ip::v4(192, 168, 0, 255), Ip::V4(0xC0A8_00FF));
}

#[test]
fn inc_tick_adds() {
    let mut scan = Scan::new(s("domain.com"));
    scan.inc_tick(1);
    scan.inc_tick(2);
    assert_eq!(scan.ticks, 3);
}

#[test]
fn tick_available_only_below_count() {
    let mut scan = Scan::new(s("domain.com"));
    assert!(scan.is_tick_available(&1));
    assert!(!scan.is_tick_available(&0));
    scan.inc_tick(1);
    assert!(!scan.is_tick_available(&1));
    assert!(scan.is_tick_available(&2));
}

#[test]
fn contains_host_after_add() {
    let mut scan = Scan::new(s("domain.com"));
    assert!(!scan.contains_host(&s("sub.domain.com")));
    scan.add_host(s("sub.domain.com"));
    assert!(scan.contains_host(&s("sub.domain.com")));
    assert!(!scan.contains_host(&s("other.domain.com")));
}

#[test]
fn add_host_once_per_name() {
    let mut scan = Scan::new(s("domain.com"));
    assert_eq!(scan.hosts.len(), 0);
    scan.add_host(s("sub.domain.com"));
    assert_eq!(scan.hosts.len(), 1);
    scan.add_host(s("sub.domain.com"));
    assert_eq!(scan.hosts.len(), 1);
    scan.add_host(s("www.domain.com"));
    assert_eq!(scan.hosts.len(), 2);
}

#[test]
fn add_ip_for_host_skips_duplicates() {
    let mut scan = Scan::new(s("domain.com"));
    scan.add_host(s("sub.domain.com"));
    scan.add_ip_for_host(&s("sub.domain.com"), Ip::v4(0, 0, 0, 0));
    assert_eq!(scan.hosts[0].ips.len(), 1);
    scan.add_ip_for_host(&s("sub.domain.com"), Ip::v4(0, 0, 0, 0));
    assert_eq!(scan.hosts[0].ips.len(), 1);
    scan.add_ip_for_host(&s("sub.domain.com"), Ip::V6(1));
    assert_eq!(scan.hosts[0].ips, vec![Ip::v4(0, 0, 0, 0), Ip::V6(1)]);
}

#[test]
fn add_ip_for_unknown_host_changes_nothing() {
    let mut scan = Scan::new(s("domain.com"));
    scan.add_host(s("sub.domain.com"));
    scan.add_ip_for_host(&s("www.domain.com"), Ip::v4(1, 2, 3, 4));
    assert_eq!(scan.hosts.len(), 1);
    assert!(scan.hosts[0].ips.is_empty());
}

#[test]
fn get_host_by_name_finds_it() {
    let mut scan = Scan::new(s("domain.com"));
    scan.add_host(s("a.domain.com"));
    scan.add_host(s("sub.domain.com"));
    let host = scan.get_host_by_name(&s("sub.domain.com"));
    assert_eq!(host.name, "sub.domain.com");
}

#[test]
fn host_contains_ip_after_add() {
    let mut scan = Scan::new(s("domain.com"));
    scan.add_host(s("sub.domain.com"));
    scan.add_ip_for_host(&s("sub.domain.com"), Ip::v4(0, 0, 0, 0));
    assert!(scan.host_contains_ip(&s("sub.domain.com"), &Ip::v4(0, 0, 0, 0)));
    assert!(!scan.host_contains_ip(&s("sub.domain.com"), &Ip::v4(0, 0, 0, 1)));
}

#[test]
fn merge_answer_creates_host_and_dedups() {
    let mut scan = Scan::new(s("example.com"));
    let ips = vec![Ip::v4(2, 2, 2, 2), Ip::v4(2, 2, 2, 3), Ip::v4(2, 2, 2, 2)];
    scan.merge_answer(s("c.example.com"), &ips);
    assert_eq!(scan.hosts.len(), 1);
    assert_eq!(scan.hosts[0].name, "c.example.com");
    assert_eq!(scan.hosts[0].ips, vec![Ip::v4(2, 2, 2, 2), Ip::v4(2, 2, 2, 3)]);
    assert_eq!(scan.ticks, 0);
}

#[test]
fn merge_empty_answer_creates_no_host() {
    let mut scan = Scan::new(s("example.com"));
    scan.merge_answer(s("b.example.com"), &vec![]);
    assert!(scan.hosts.is_empty());
}

#[test]
fn merge_same_answer_twice_is_idempotent() {
    let mut scan = Scan::new(s("example.com"));
    let ips = vec![Ip::v4(1, 1, 1, 1), Ip::V6(42)];
    scan.merge_answer(s("a.example.com"), &ips);
    scan.merge_answer(s("a.example.com"), &ips);
    assert_eq!(scan.hosts.len(), 1);
    assert_eq!(scan.hosts[0].ips.len(), 2);
}

#[test]
fn record_failed_lookup_counts_progress_only() {
    let mut scan = Scan::new(s("example.com"));
    scan.record_lookup(s("x.example.com"), None);
    assert!(scan.hosts.is_empty());
    assert_eq!(scan.ticks, 1);
}

#[test]
fn record_lookup_merges_then_counts() {
    let mut scan = Scan::new(s("example.com"));
    scan.record_lookup(s("a.example.com"), Some(vec![Ip::v4(1, 1, 1, 1)]));
    scan.record_lookup(s("a.example.com"), Some(vec![Ip::v4(1, 1, 1, 2)]));
    assert_eq!(scan.hosts.len(), 1);
    assert_eq!(scan.hosts[0].ips, vec![Ip::v4(1, 1, 1, 1), Ip::v4(1, 1, 1, 2)]);
    assert_eq!(scan.ticks, 2);
}
