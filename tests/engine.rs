use subrut::models::ip::Ip;
use subrut::models::scan::Scan;
use subrut::wordlist::candidate_names;

/// Runs a scan sequentially against a fixed table of answers; names the
/// table does not hold fail.
fn scan_with(wordlist: &str, domain: &str, table: &[(&str, Vec<Ip>)]) -> Scan {
    let names = candidate_names(wordlist, domain);
    let mut scan = Scan::new(domain.to_string());
    for name in names {
        let answer = table
            .iter()
            .find(|(n, _)| *n == name)
            .map(|(_, ips)| ips.clone());
        scan.record_lookup(name, answer);
    }
    scan
}

#[test]
fn three_candidates_lose_no_update() {
    let table = vec![
        ("a.example.com", vec![Ip::v4(1, 1, 1, 1)]),
        ("b.example.com", vec![]),
        ("c.example.com", vec![Ip::v4(2, 2, 2, 2), Ip::v4(2, 2, 2, 3)]),
    ];
    let scan = scan_with("a\nb\nc", "example.com", &table);
    assert_eq!(scan.ticks, 3);
    assert_eq!(scan.hosts.len(), 2);
    assert_eq!(scan.hosts[0].name, "a.example.com");
    assert_eq!(scan.hosts[0].ips, vec![Ip::v4(1, 1, 1, 1)]);
    assert_eq!(scan.hosts[1].name, "c.example.com");
    assert_eq!(scan.hosts[1].ips.len(), 2);
    assert!(scan.hosts[1].ips.contains(&Ip::v4(2, 2, 2, 2)));
    assert!(scan.hosts[1].ips.contains(&Ip::v4(2, 2, 2, 3)));
    assert!(!scan.is_tick_available(&3));
}

#[test]
fn completion_order_does_not_matter() {
    let mut scan = Scan::new("example.com".to_string());
    scan.record_lookup("c.example.com".to_string(), Some(vec![Ip::v4(2, 2, 2, 3), Ip::v4(2, 2, 2, 2)]));
    scan.record_lookup("b.example.com".to_string(), Some(vec![]));
    scan.record_lookup("a.example.com".to_string(), Some(vec![Ip::v4(1, 1, 1, 1)]));
    assert_eq!(scan.ticks, 3);
    assert_eq!(scan.hosts.len(), 2);
    assert!(scan.contains_host(&"a.example.com".to_string()));
    assert!(scan.contains_host(&"c.example.com".to_string()));
    assert!(!scan.contains_host(&"b.example.com".to_string()));
}

#[test]
fn empty_wordlist_completes_at_once() {
    let scan = scan_with("", "example.com", &[]);
    assert!(scan.hosts.is_empty());
    assert_eq!(scan.ticks, 0);
    assert!(!scan.is_tick_available(&candidate_names("", "example.com").len()));
}

#[test]
fn duplicate_words_give_one_host() {
    let table = vec![("admin.example.com", vec![Ip::v4(9, 9, 9, 9)])];
    let scan = scan_with("admin\nadmin", "example.com", &table);
    assert_eq!(scan.ticks, 2);
    assert_eq!(scan.hosts.len(), 1);
    assert_eq!(scan.hosts[0].name, "admin.example.com");
    assert_eq!(scan.hosts[0].ips, vec![Ip::v4(9, 9, 9, 9)]);
}

#[test]
fn addresses_are_the_union_over_lookups() {
    let mut scan = Scan::new("example.com".to_string());
    scan.record_lookup("w.example.com".to_string(), Some(vec![Ip::v4(1, 0, 0, 1), Ip::v4(1, 0, 0, 2)]));
    scan.record_lookup("w.example.com".to_string(), None);
    scan.record_lookup("w.example.com".to_string(), Some(vec![Ip::v4(1, 0, 0, 2), Ip::V6(3)]));
    assert_eq!(scan.hosts.len(), 1);
    assert_eq!(
        scan.hosts[0].ips,
        vec![Ip::v4(1, 0, 0, 1), Ip::v4(1, 0, 0, 2), Ip::V6(3)]
    );
    assert_eq!(scan.ticks, 3);
}

#[test]
fn all_lookups_failing_is_a_valid_outcome() {
    let scan = scan_with("x\ny\nz\n", "example.com", &[]);
    assert!(scan.hosts.is_empty());
    assert_eq!(scan.ticks, 3);
}

#[test]
fn progress_counts_non_empty_lines() {
    let scan = scan_with("a\n\nb\r\n\n", "example.com", &[]);
    assert_eq!(scan.ticks, 2);
}
