use subrut::models::ip::Ip;
use subrut::models::scan::Scan;
use subrut::output::{join_rows, rows_to_csv};

fn row(a: &str, b: &str) -> (String, String) {
    (a.to_string(), b.to_string())
}

#[test]
fn pairs_flatten_hosts() {
    let mut scan = Scan::new("domain.com".to_string());
    scan.merge_answer("a.domain.com".to_string(), &vec![Ip::v4(1, 1, 1, 1), Ip::v4(1, 1, 1, 2)]);
    scan.merge_answer("b.domain.com".to_string(), &vec![Ip::V6(7)]);
    assert_eq!(
        scan.pairs(),
        vec![
            ("a.domain.com".to_string(), Ip::v4(1, 1, 1, 1)),
            ("a.domain.com".to_string(), Ip::v4(1, 1, 1, 2)),
            ("b.domain.com".to_string(), Ip::V6(7)),
        ]
    );
}

#[test]
fn pairs_of_empty_scan() {
    assert!(Scan::new("domain.com".to_string()).pairs().is_empty());
}

#[test]
fn join_rows_with_separator() {
    let rows = vec![row("sub.domain.com", "0.0.0.0")];
    assert_eq!(join_rows(&rows, " || "), "sub.domain.com || 0.0.0.0");
    let rows = vec![row("a", "1"), row("b", "2")];
    assert_eq!(join_rows(&rows, " "), "a 1\nb 2");
    assert_eq!(join_rows(&vec![], " "), "");
}

#[test]
fn csv_has_header() {
    let rows = vec![row("sub.domain.com", "0.0.0.0")];
    assert_eq!(
        rows_to_csv(&rows),
        vec!["Subdomain,Ip".to_string(), "sub.domain.com,0.0.0.0".to_string()].join("\n")
    );
    assert_eq!(rows_to_csv(&vec![]), "Subdomain,Ip\n");
}
