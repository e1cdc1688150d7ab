use appengine::machine::{TaskAction, WasmMac};
use appengine::hostmsg::{pack_mem_ref, parse_trx_meta};
use appengine::jsonio::{parse_gas_limit, parse_sync_task_decl};
use appengine::strutil::{namespaced_key, str_starts_with};
use appengine::txlog::BufferedRead;

fn onchain_mac() -> WasmMac {
    WasmMac::new_onchain("m1".to_string(), "0".to_string(), 0, "/store/m1/module".to_string())
}

#[test]
fn zero_gas_budget_short_circuits_the_applet() {
    let mut vm = onchain_mac();
    let req = vm.begin_validation("owner".to_string(), "tok".to_string());
    assert_eq!(req.token_owner_id, "owner");
    assert_eq!(req.token_id, "tok");
    let proceed = vm.on_validity_response(0);
    assert!(!proceed);
    assert!(!vm.is_token_valid);
    assert!(!vm.has_output);
    assert_eq!(vm.execution_result, "");
}

#[test]
fn positive_gas_budget_proceeds_to_running() {
    let mut vm = onchain_mac();
    vm.begin_validation("owner".to_string(), "tok".to_string());
    let proceed = vm.on_validity_response(7);
    assert!(proceed);
    assert!(vm.is_token_valid);
}

#[test]
fn storage_keys_are_namespaced_by_machine_id() {
    let mut vm = onchain_mac();
    vm.host_put("k".to_string(), "v".to_string());
    // The raw key is not visible; the namespaced key is.
    match vm.trx.lookup_buffered(&"k".to_string()) {
        BufferedRead::Miss => {}
        _ => panic!("the raw key must not be stored"),
    }
    match vm.trx.lookup_buffered(&"m1::k".to_string()) {
        BufferedRead::Hit(v) => assert_eq!(v, "v"),
        _ => panic!("the namespaced key must be stored"),
    }
    assert_eq!(vm.host_get("k".to_string(), None), "v");
}

#[test]
fn deleted_namespaced_key_reads_empty() {
    let mut vm = onchain_mac();
    vm.host_put("k".to_string(), "v".to_string());
    vm.host_del("k".to_string());
    assert_eq!(vm.host_get("k".to_string(), Some("stale".to_string())), "");
}

#[test]
fn namespaced_key_shape() {
    assert_eq!(namespaced_key(&"m1".to_string(), &"k".to_string()), "m1::k");
    assert_eq!(namespaced_key(&"".to_string(), &"k".to_string()), "::k");
}

#[test]
fn prefix_test_matches_exactly() {
    assert!(str_starts_with("lock_a", "lock_"));
    assert!(!str_starts_with("loc", "lock_"));
    assert!(!str_starts_with("alock_", "lock_"));
    assert!(str_starts_with("anything", ""));
}

#[test]
fn trx_meta_decodes_markers_and_tag() {
    let m = parse_trx_meta("11abc");
    assert!(m.is_base);
    assert!(m.is_file);
    assert_eq!(m.tag, "abc");
    let m2 = parse_trx_meta("01t");
    assert!(!m2.is_base);
    assert!(m2.is_file);
    assert_eq!(m2.tag, "t");
    let m3 = parse_trx_meta("");
    assert!(!m3.is_base);
    assert!(!m3.is_file);
    assert_eq!(m3.tag, "");
    let m4 = parse_trx_meta("1");
    assert!(m4.is_base);
    assert!(!m4.is_file);
    assert_eq!(m4.tag, "");
}

#[test]
fn base_submission_clears_target_machine() {
    let vm = onchain_mac();
    let r = vm.submit_trx_request(
        "key".to_string(),
        "payload".to_string(),
        "10tag",
        "other-machine".to_string(),
    );
    assert!(r.is_base);
    assert!(!r.is_file);
    assert_eq!(r.tag, "tag");
    assert_eq!(r.target_machine_id, "");
    assert_eq!(r.machine_id, "m1");
    assert!(r.is_requester_onchain);
    let r2 = vm.submit_trx_request(
        "key".to_string(),
        "payload".to_string(),
        "00",
        "other-machine".to_string(),
    );
    assert_eq!(r2.target_machine_id, "other-machine");
}

#[test]
fn mem_ref_packs_offset_and_length() {
    assert_eq!(pack_mem_ref(1, 5), (1i64 << 32) | 5);
    assert_eq!(pack_mem_ref(0, 0), 0);
    let packed = pack_mem_ref(70000, 123);
    assert_eq!(packed >> 32, 70000);
    assert_eq!(packed & 0xFFFF_FFFF, 123);
}

#[test]
fn task_queue_drains_before_exit() {
    let mut vm = onchain_mac();
    vm.enqueue_task("t1".to_string());
    vm.stop();
    match vm.next_task_action() {
        TaskAction::Run(name) => assert_eq!(name, "t1"),
        _ => panic!("queued work runs before the stop"),
    }
    match vm.next_task_action() {
        TaskAction::Exit => {}
        _ => panic!("a stopped, drained queue exits"),
    }
}

#[test]
fn idle_queue_waits_until_stopped() {
    let mut vm = onchain_mac();
    match vm.next_task_action() {
        TaskAction::Wait => {}
        _ => panic!("an idle, unstopped queue waits"),
    }
}

#[test]
fn onchain_finalize_performs_no_durable_mutation() {
    let mut vm = onchain_mac();
    vm.host_put("k".to_string(), "v".to_string());
    let ops_before = vm.trx.ops_snapshot();
    let changes = vm.finalize();
    // The op list is reported upward, and the log itself is untouched: no
    // durable engine was involved at all.
    assert_eq!(changes.len(), 1);
    assert_eq!(changes[0].type_, "put");
    assert_eq!(changes[0].key, "m1::k");
    assert_eq!(changes[0].val, "v");
    let ops_after = vm.trx.ops_snapshot();
    assert_eq!(ops_before.len(), ops_after.len());
    assert_eq!(ops_after[0].key, "m1::k");
}

#[test]
fn recorded_failure_drops_the_output() {
    let mut vm = onchain_mac();
    vm.record_output("partial".to_string());
    vm.record_failure("sandbox trap".to_string());
    assert!(!vm.has_output);
    assert_eq!(vm.execution_result, "");
    assert_eq!(vm.run_error, Some("sandbox trap".to_string()));
}

#[test]
fn decimal_ids_match_their_numbers() {
    assert_eq!(appengine::strutil::usize_to_decimal(0), "0");
    assert_eq!(appengine::strutil::usize_to_decimal(9), "9");
    assert_eq!(appengine::strutil::usize_to_decimal(10), "10");
    assert_eq!(appengine::strutil::usize_to_decimal(907), "907");
}

#[test]
fn gas_limit_parses_from_validity_answer() {
    assert_eq!(parse_gas_limit("{\"gasLimit\":42}"), 42);
    assert_eq!(parse_gas_limit("{\"gasLimit\":0}"), 0);
    assert_eq!(parse_gas_limit("{}"), 0);
    assert_eq!(parse_gas_limit("garbage"), 0);
}

#[test]
fn sync_task_declaration_parses_name_and_deps() {
    let (name, deps) = parse_sync_task_decl("{\"name\":\"t\",\"deps\":[\"r\",\"lock_a\"]}");
    assert_eq!(name, "t");
    assert_eq!(deps, vec!["r".to_string(), "lock_a".to_string()]);
    let (name2, deps2) = parse_sync_task_decl("{}");
    assert_eq!(name2, "");
    assert!(deps2.is_empty());
    let (name3, deps3) = parse_sync_task_decl("broken");
    assert_eq!(name3, "");
    assert!(deps3.is_empty());
}
