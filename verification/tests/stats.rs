use bombardier::stats::{Stat, StatsCollector};
use bombardier::FAILURE_STATUS;

#[test]
fn stat_carries_its_fields() {
    let s = Stat::new("login".to_string(), 200, 35);
    assert_eq!(s.name, "login");
    assert_eq!(s.status, 200);
    assert_eq!(s.latency, 35);
}

#[test]
fn failure_marker_status() {
    let s = Stat::new("login".to_string(), FAILURE_STATUS, 0);
    assert_eq!(s.status, 0);
}

#[test]
fn collector_appends_in_order() {
    let mut c = StatsCollector::new();
    assert_eq!(c.len(), 0);
    c.append(Stat::new("a".to_string(), 200, 1));
    c.append(Stat::new("b".to_string(), 404, 2));
    assert_eq!(c.len(), 2);
    let all = c.into_vec();
    assert_eq!(all[0].name, "a");
    assert_eq!(all[1].name, "b");
}

#[test]
fn collector_append_all_keeps_worker_order() {
    let mut c = StatsCollector::new();
    c.append(Stat::new("first".to_string(), 200, 1));
    c.append_all(vec![
        Stat::new("w1".to_string(), 200, 1),
        Stat::new("w2".to_string(), 200, 2),
    ]);
    let all = c.into_vec();
    assert_eq!(all.len(), 3);
    assert_eq!(all[0].name, "first");
    assert_eq!(all[1].name, "w1");
    assert_eq!(all[2].name, "w2");
}
