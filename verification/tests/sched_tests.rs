use appengine::ops::{ChainTrx, SyncTask};
use appengine::pool::{PoolAction, WasmThreadPool};
use appengine::correlator::RequestCorrelator;
use appengine::sched::{run_round, AppletOutcome, ConcurrentRunner, CriticalAction};

fn trx(machine: &str, cb: &str) -> ChainTrx {
    ChainTrx::new(
        machine.to_string(),
        format!("{machine}-token"),
        "{}".to_string(),
        "user".to_string(),
        cb.to_string(),
    )
}

fn outcome(gas: u64, output: &str, declared: Vec<SyncTask>) -> AppletOutcome {
    AppletOutcome {
        gas_limit: gas,
        token_id: "tok".to_string(),
        output: output.to_string(),
        cost: 3,
        declared,
        error: None,
    }
}

fn task(name: &str, deps: &[&str]) -> SyncTask {
    SyncTask { deps: deps.iter().map(|d| d.to_string()).collect(), name: name.to_string() }
}

#[test]
fn one_result_per_invocation_exactly_once() {
    let trxs = vec![trx("m1", "cb1"), trx("m2", "cb2"), trx("m3", "cb3")];
    let outcomes = vec![
        outcome(5, "out1", vec![]),
        outcome(5, "out2", vec![]),
        outcome(5, "out3", vec![]),
    ];
    let (responses, _) = run_round("/store".to_string(), trxs, outcomes);
    assert_eq!(responses.len(), 3);
    assert_eq!(responses[0].callback_id, "cb1");
    assert_eq!(responses[1].callback_id, "cb2");
    assert_eq!(responses[2].callback_id, "cb3");
    assert_eq!(responses[0].packet, "out1");
    assert_eq!(responses[1].packet, "out2");
    assert_eq!(responses[2].packet, "out3");
    assert_eq!(responses[0].res_code, 1);
    assert_eq!(responses[0].error, "");
}

#[test]
fn zero_gas_applet_reports_empty_output_and_still_counts() {
    let trxs = vec![trx("m1", "cb1"), trx("m2", "cb2")];
    let outcomes = vec![outcome(0, "ignored", vec![]), outcome(9, "ran", vec![])];
    let (responses, _) = run_round("/store".to_string(), trxs, outcomes);
    // The zero-budget applet still participates in the barrier and in the
    // report: two results, the first with empty output and zero cost.
    assert_eq!(responses.len(), 2);
    assert_eq!(responses[0].packet, "");
    assert_eq!(responses[0].cost, 0);
    assert_eq!(responses[1].packet, "ran");
    assert_eq!(responses[1].cost, 3);
}

#[test]
fn round_without_sync_tasks_collects_immediately() {
    let trxs = vec![trx("m1", "cb1"), trx("m2", "cb2")];
    let outcomes = vec![outcome(5, "a", vec![]), outcome(5, "b", vec![])];
    let (responses, trace) = run_round("/store".to_string(), trxs, outcomes);
    assert_eq!(responses.len(), 2);
    // No declared tasks: no resolution phase ran at all.
    assert!(trace.is_empty());
}

#[test]
fn cross_applet_chain_resolves_in_declaration_order() {
    let trxs = vec![trx("ma", "cba"), trx("mb", "cbb")];
    let outcomes = vec![
        outcome(5, "a", vec![task("a1", &["r"])]),
        outcome(5, "b", vec![task("b1", &["r"])]),
    ];
    let (responses, trace) = run_round("/store".to_string(), trxs, outcomes);
    assert_eq!(responses.len(), 2);
    assert_eq!(trace, vec![1u32, 2]);
}

#[test]
fn failed_applet_reports_non_success_code() {
    let trxs = vec![trx("m1", "cb1"), trx("m2", "cb2")];
    let mut failing = outcome(9, "partial", vec![]);
    failing.error = Some("cost budget exceeded".to_string());
    let outcomes = vec![failing, outcome(9, "ran", vec![])];
    let (responses, _) = run_round("/store".to_string(), trxs, outcomes);
    assert_eq!(responses.len(), 2);
    // The failed applet still participates, with empty output, its metered
    // cost, a non-success code and the error message.
    assert_eq!(responses[0].packet, "");
    assert_eq!(responses[0].res_code, 0);
    assert_eq!(responses[0].error, "cost budget exceeded");
    assert_eq!(responses[0].cost, 3);
    assert_eq!(responses[1].res_code, 1);
    assert_eq!(responses[1].error, "");
}

#[test]
fn context_id_is_the_batch_index_string() {
    let r = ConcurrentRunner::init(
        "/s".to_string(),
        vec![trx("m1", "c1"), trx("m2", "c2")],
    );
    assert_eq!(r.make_context(0).id, "0");
    assert_eq!(r.make_context(1).id, "1");
}

#[test]
fn barrier_admits_exactly_one_completion() {
    let mut r = ConcurrentRunner::init("/s".to_string(), vec![trx("m1", "c1"), trx("m2", "c2")]);
    r.prepare_context(2);
    assert!(!r.applet_finished());
    assert!(r.applet_finished());
    assert!(r.critical_entered);
}

#[test]
fn critical_phase_without_start_points_collects_now() {
    let mut r = ConcurrentRunner::init("/s".to_string(), vec![trx("m1", "c1")]);
    r.prepare_context(1);
    let vm = r.make_context(0);
    assert_eq!(vm.mod_path, "/s/m1/module");
    r.register_wasm_mac(vm);
    match r.wasm_do_critical() {
        CriticalAction::CollectNow(g) => {
            assert_eq!(g.nodes.len(), 0);
            assert_eq!(g.start_points.len(), 0);
        }
        CriticalAction::Resolve(_) => panic!("no declarations means nothing to resolve"),
    }
}

#[test]
fn pool_drains_queued_work_before_exiting() {
    let mut p = WasmThreadPool::generate(Some(2));
    assert_eq!(p.worker_count, 2);
    p.enqueue(7);
    p.enqueue(8);
    p.stop_pool();
    match p.next_action() {
        PoolAction::Run(t) => assert_eq!(t, 7),
        _ => panic!("queued work runs first"),
    }
    match p.next_action() {
        PoolAction::Run(t) => assert_eq!(t, 8),
        _ => panic!("queued work runs first"),
    }
    match p.next_action() {
        PoolAction::Exit => {}
        _ => panic!("a stopped, drained pool exits"),
    }
}

#[test]
fn idle_pool_waits_until_stopped() {
    let mut p = WasmThreadPool::generate(None);
    assert_eq!(p.worker_count, 1);
    match p.next_action() {
        PoolAction::Wait => {}
        _ => panic!("an idle, unstopped pool waits"),
    }
}

#[test]
fn correlator_round_trips_a_response() {
    let mut c = RequestCorrelator::new();
    let id1 = c.begin_call();
    let id2 = c.begin_call();
    assert_eq!(id1, 0);
    assert_eq!(id2, 1);
    c.deposit_response(id1, "answer".to_string());
    assert!(c.has_response(id1));
    assert!(!c.has_response(id2));
    let got = c.finish_call(id1);
    assert_eq!(got, "answer");
    // The tables forget the finished request.
    assert!(!c.has_response(id1));
    assert!(!c.waiters.contains(&id1));
}

#[test]
fn finishing_without_a_response_reads_empty() {
    let mut c = RequestCorrelator::new();
    let id = c.begin_call();
    let got = c.finish_call(id);
    assert_eq!(got, "");
    assert!(c.waiters.is_empty());
}

#[test]
fn deposited_response_overwrites_earlier_one() {
    let mut c = RequestCorrelator::new();
    let id = c.begin_call();
    c.deposit_response(id, "first".to_string());
    c.deposit_response(id, "second".to_string());
    assert_eq!(c.finish_call(id), "second");
}
