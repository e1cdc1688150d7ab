use appengine::kv::KvStore;
use appengine::txlog::{replay_ops, BufferedRead, Trx};
use appengine::jsonio::parse_op_list;
use appengine::ops::WasmDbOp;

#[test]
fn put_then_get_returns_value_before_any_commit() {
    let mut t = Trx::new();
    t.put("k".to_string(), "v".to_string());
    let got = t.get("k".to_string(), None);
    assert_eq!(got, "v");
}

#[test]
fn put_then_get_ignores_stale_durable_value() {
    let mut t = Trx::new();
    t.put("k".to_string(), "fresh".to_string());
    let got = t.get("k".to_string(), Some("stale".to_string()));
    assert_eq!(got, "fresh");
}

#[test]
fn del_then_get_is_empty_even_with_stale_durable_value() {
    let mut t = Trx::new();
    t.put("k".to_string(), "v".to_string());
    t.del("k".to_string());
    let got = t.get("k".to_string(), Some("stale".to_string()));
    assert_eq!(got, "");
}

#[test]
fn tombstone_blocks_durable_consultation() {
    let mut t = Trx::new();
    t.del("gone".to_string());
    match t.lookup_buffered(&"gone".to_string()) {
        BufferedRead::Tombstoned => {}
        _ => panic!("a deleted key must read as tombstoned"),
    }
}

#[test]
fn miss_memoizes_durable_read() {
    let mut t = Trx::new();
    let first = t.get("k".to_string(), Some("durable".to_string()));
    assert_eq!(first, "durable");
    let second = t.get("k".to_string(), None);
    assert_eq!(second, "durable");
}

#[test]
fn missing_durable_value_reads_empty() {
    let mut t = Trx::new();
    let got = t.get("absent".to_string(), None);
    assert_eq!(got, "");
}

#[test]
fn prefix_read_never_resurrects_tombstoned_key() {
    let mut t = Trx::new();
    t.put("p:a".to_string(), "1".to_string());
    t.del("p:b".to_string());
    let scanned = vec![
        ("p:b".to_string(), "stale".to_string()),
        ("p:c".to_string(), "2".to_string()),
    ];
    let got = t.get_by_prefix(&"p:".to_string(), &scanned);
    assert_eq!(got, vec!["1".to_string(), "2".to_string()]);
}

#[test]
fn prefix_read_skips_shadowed_durable_pairs() {
    let mut t = Trx::new();
    t.put("p:a".to_string(), "new".to_string());
    let scanned = vec![("p:a".to_string(), "old".to_string())];
    let got = t.get_by_prefix(&"p:".to_string(), &scanned);
    assert_eq!(got, vec!["new".to_string()]);
}

#[test]
fn replay_reflects_ops_in_order_later_wins() {
    let mut t = Trx::new();
    t.put("a".to_string(), "1".to_string());
    t.put("a".to_string(), "2".to_string());
    t.put("b".to_string(), "x".to_string());
    t.del("b".to_string());
    let ops = t.ops_snapshot();
    assert_eq!(ops.len(), 4);
    let mut durable = KvStore::new();
    durable.set("b".to_string(), "durable-old".to_string());
    durable.set("c".to_string(), "untouched".to_string());
    replay_ops(&mut durable, &ops);
    assert_eq!(durable.get(&"a".to_string()), Some(&"2".to_string()));
    assert_eq!(durable.get(&"b".to_string()), None);
    assert_eq!(durable.get(&"c".to_string()), Some(&"untouched".to_string()));
}

#[test]
fn op_list_round_trips_through_wire_shape() {
    let text = "[{\"opType\":\"put\",\"key\":\"m::a\",\"val\":\"1\"},{\"opType\":\"del\",\"key\":\"m::b\",\"val\":\"\"}]";
    let ops = parse_op_list(text).expect("a well-formed op list parses");
    assert_eq!(ops.len(), 2);
    assert_eq!(ops[0].type_, "put");
    assert_eq!(ops[0].key, "m::a");
    assert_eq!(ops[0].val, "1");
    assert_eq!(ops[1].type_, "del");
    assert_eq!(ops[1].key, "m::b");
    let mut durable = KvStore::new();
    durable.set("m::b".to_string(), "old".to_string());
    replay_ops(&mut durable, &ops);
    assert_eq!(durable.get(&"m::a".to_string()), Some(&"1".to_string()));
    assert_eq!(durable.get(&"m::b".to_string()), None);
}

#[test]
fn op_list_rejects_non_json() {
    assert!(parse_op_list("not json").is_none());
}

#[test]
fn op_list_drops_unknown_op_types() {
    let text = "[{\"opType\":\"merge\",\"key\":\"k\",\"val\":\"v\"}]";
    let ops = parse_op_list(text).expect("an array parses");
    assert_eq!(ops.len(), 0);
}

#[test]
fn nul_terminated_bytes_are_string_bytes_plus_zero() {
    let t = Trx::new();
    assert_eq!(t.get_bytes_of_str("ab".to_string()), vec![97u8, 98, 0]);
    assert_eq!(t.get_bytes_of_str("".to_string()), vec![0u8]);
}

#[test]
fn db_op_constructor_is_empty() {
    let op = WasmDbOp::new();
    assert_eq!(op.type_, "");
    assert_eq!(op.key, "");
    assert_eq!(op.val, "");
}
