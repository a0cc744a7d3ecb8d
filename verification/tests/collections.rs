use simple_redis::metrics::ametrics::{create_key, AmapMetrics, MOVE_KEY};
use simple_redis::metrics::{Metrics, MetricsError};
use simple_redis::ordered_map::OrderedMap;
use simple_redis::resp::frame::{RespFrame, RespMap, RespSet, SimpleString};

#[test]
fn test_insert() {
    let mut m = OrderedMap::new();
    m.insert("lily", 18);
    m.insert("green", 19);
    m.insert("white", 17);

    for item in m.to_vec() {
        println!("{:?}", item);
    }
    assert_eq!(m.to_vec(), vec![&18, &19, &17]);
}

#[test]
fn a_name_that_comes_again_keeps_its_place() {
    let mut m = OrderedMap::new();
    assert_eq!(m.len(), 0);
    m.insert("lily", 18);
    m.insert("green", 19);
    m.insert("lily", 20);
    assert_eq!(m.len(), 2);
    assert_eq!(m.to_vec(), vec![&20, &19]);
    assert_eq!(m.get("lily"), Some(&20));
    assert_eq!(m.get("green"), Some(&19));
    assert_eq!(m.get("white"), None);
    assert_eq!(m.entry(0), Some(("lily", &20)));
    assert_eq!(m.entry(1), Some(("green", &19)));
    assert_eq!(m.entry(2), None);
}

#[test]
fn counters_start_at_zero_and_move_by_one() {
    let mut metrics = Metrics::new();
    assert_eq!(metrics.get("req"), 0);
    assert_eq!(metrics.inc("req"), Ok(()));
    assert_eq!(metrics.inc("req"), Ok(()));
    assert_eq!(metrics.dec("err"), Ok(()));
    assert_eq!(metrics.dec("req"), Ok(()));
    assert_eq!(metrics.get("req"), 1);
    assert_eq!(metrics.get("err"), -1);
    assert_eq!(
        metrics.snapshot(),
        vec![("req".to_string(), 1), ("err".to_string(), -1)]
    );
}

#[test]
fn fixed_counters_wrap_round_and_know_their_names() {
    let mut metrics = AmapMetrics::new(&["create/api/v1/0", "create/api/v1/1", "move/api/v1", "move/api/v1"]);
    assert_eq!(metrics.get("move/api/v1"), Some(0));
    assert_eq!(metrics.get("other"), None);
    assert_eq!(metrics.inc("other"), Err(MetricsError::KeyNotFound));
    assert_eq!(metrics.dec("other"), Err(MetricsError::KeyNotFound));
    assert_eq!(metrics.inc("move/api/v1"), Ok(()));
    assert_eq!(metrics.inc("move/api/v1"), Ok(()));
    assert_eq!(metrics.get("move/api/v1"), Some(2));
    assert_eq!(metrics.dec("create/api/v1/0"), Ok(()));
    assert_eq!(metrics.get("create/api/v1/0"), Some(u16::MAX));
    assert_eq!(metrics.inc("create/api/v1/0"), Ok(()));
    assert_eq!(metrics.get("create/api/v1/0"), Some(0));
    assert_eq!(metrics.get("create/api/v1/1"), Some(0));
}

#[test]
fn a_map_of_frames_keeps_one_value_for_each_key() {
    let key = || RespFrame::SimpleString(SimpleString::new("k"));
    let mut map = RespMap::new();
    assert_eq!(map.len(), 0);
    assert_eq!(map.insert(key(), RespFrame::Integer(1)), None);
    assert_eq!(map.insert(RespFrame::Integer(1), RespFrame::Boolean(true)), None);
    assert_eq!(map.insert(key(), RespFrame::Integer(2)), Some(RespFrame::Integer(1)));
    assert_eq!(map.len(), 2);
    assert_eq!(map.get(&key()), Some(&RespFrame::Integer(2)));
    assert_eq!(map.get(&RespFrame::Integer(1)), Some(&RespFrame::Boolean(true)));
    assert_eq!(map.get(&RespFrame::Integer(2)), None);
}

#[test]
fn a_set_of_frames_takes_each_member_once() {
    let mut set = RespSet::new();
    assert!(set.insert(RespFrame::Array(vec![RespFrame::Integer(1)])));
    assert!(!set.insert(RespFrame::Array(vec![RespFrame::Integer(1)])));
    assert!(set.insert(RespFrame::Array(vec![RespFrame::Integer(2)])));
    assert!(set.contains(&RespFrame::Array(vec![RespFrame::Integer(2)])));
    assert!(!set.contains(&RespFrame::Integer(2)));
    assert_eq!(set.len(), 2);
}

#[test]
fn counters_are_written_one_to_a_line() {
    let mut metrics = Metrics::new();
    assert_eq!(metrics.render(), "");
    metrics.inc("req").unwrap();
    metrics.dec("err").unwrap();
    for _ in 0..120 {
        metrics.dec("err").unwrap();
    }
    assert_eq!(metrics.render(), "req: 1\nerr: -121\n");

    let mut fixed = AmapMetrics::new(&["a", "b"]);
    fixed.dec("b").unwrap();
    assert_eq!(fixed.render(), "a: 0\nb: 65535\n\n");
}

#[test]
fn each_worker_has_its_counter() {
    assert_eq!(create_key(0), "create/api/v1/0");
    assert_eq!(create_key(17), "create/api/v1/17");
    let mut metrics = AmapMetrics::new(&["create/api/v1/0", MOVE_KEY]);
    assert_eq!(metrics.inc(&create_key(0)), Ok(()));
    assert_eq!(metrics.inc(MOVE_KEY), Ok(()));
    assert_eq!(metrics.inc(&create_key(1)), Err(MetricsError::KeyNotFound));
}
