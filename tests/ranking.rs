use top_crates::model::RankedPackage;
use top_crates::ranking::{order_ranking, RANKING_LIMIT};

fn ranked(name: &str, version: &str, rank: u64) -> RankedPackage {
    RankedPackage { name: name.to_string(), version: version.to_string(), rank, features: vec![] }
}

fn listed(v: &[RankedPackage]) -> Vec<(String, u64)> {
    v.iter().map(|p| (p.name.clone(), p.rank)).collect()
}

#[test]
fn most_popular_first_ties_by_name() {
    let snapshot = vec![
        ranked("rand", "0.8.5", 3),
        ranked("serde", "1.0.200", 1),
        ranked("libc", "0.2.154", 2),
        ranked("bitflags", "2.5.0", 2),
    ];
    let out = order_ranking(snapshot, 10);
    assert_eq!(
        listed(&out),
        vec![
            ("serde".to_string(), 1),
            ("bitflags".to_string(), 2),
            ("libc".to_string(), 2),
            ("rand".to_string(), 3),
        ]
    );
}

#[test]
fn keeps_at_most_limit() {
    let snapshot = vec![ranked("c", "1", 3), ranked("a", "1", 1), ranked("b", "1", 2)];
    let out = order_ranking(snapshot, 2);
    assert_eq!(listed(&out), vec![("a".to_string(), 1), ("b".to_string(), 2)]);
    let out = order_ranking(vec![ranked("a", "1", 1)], 0);
    assert!(out.is_empty());
    assert_eq!(RANKING_LIMIT, 100);
}

#[test]
fn equal_packages_keep_snapshot_order() {
    let snapshot = vec![ranked("base64", "0.22.1", 5), ranked("base64", "0.21.0", 5), ranked("a", "1", 9)];
    let out = order_ranking(snapshot, 3);
    assert_eq!(out[0].version, "0.22.1");
    assert_eq!(out[1].version, "0.21.0");
    assert_eq!(out[2].name, "a");
}

#[test]
fn empty_snapshot_orders_to_empty() {
    assert!(order_ranking(vec![], 5).is_empty());
}
