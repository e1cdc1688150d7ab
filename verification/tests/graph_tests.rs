use appengine::graph::{build_task_graph, record_completion, try_start, TaskDecl, WasmLock,
    WasmTask};
use appengine::resolve::resolve_round;

fn decl(vm: u32, name: &str, deps: &[&str]) -> TaskDecl {
    TaskDecl {
        vm_index: vm,
        name: name.to_string(),
        deps: deps.iter().map(|d| d.to_string()).collect(),
    }
}

#[test]
fn shared_resource_forms_a_chain_with_one_start_point() {
    // Applet A declares a1 on resource r, applet B declares b1 on r:
    // the chain is a1 -> b1 and a1 is the sole start point.
    let decls = vec![decl(0, "a1", &["r"]), decl(1, "b1", &["r"])];
    let g = build_task_graph(&decls);
    assert_eq!(g.nodes.len(), 2);
    assert_eq!(g.chain_count, 1);
    assert_eq!(g.start_points, vec![1u32]);
    assert_eq!(g.nodes[0].name, "a1");
    assert_eq!(g.nodes[0].outputs, vec![2u32]);
    assert_eq!(g.nodes[1].name, "b1");
    assert_eq!(g.nodes[1].inputs, vec![(1u32, false)]);
}

#[test]
fn chain_runs_in_declaration_order() {
    let decls = vec![
        decl(0, "a1", &["r"]),
        decl(1, "b1", &["r"]),
        decl(2, "c1", &["r"]),
    ];
    let mut g = build_task_graph(&decls);
    let trace = resolve_round(&mut g);
    assert_eq!(trace, vec![1u32, 2, 3]);
}

#[test]
fn every_node_runs_exactly_once() {
    let decls = vec![
        decl(0, "a", &["r", "s"]),
        decl(0, "b", &["r"]),
        decl(1, "c", &["s"]),
        decl(1, "d", &[]),
    ];
    let mut g = build_task_graph(&decls);
    let n = g.nodes.len();
    let mut trace = resolve_round(&mut g);
    assert_eq!(trace.len(), n);
    trace.sort();
    assert_eq!(trace, vec![1u32, 2, 3, 4]);
}

#[test]
fn task_reference_orders_within_one_applet() {
    // "lock_a" is declared first; the later task waits for it by name.
    let decls = vec![decl(0, "lock_a", &["r"]), decl(0, "b", &["lock_a"])];
    let g = build_task_graph(&decls);
    assert_eq!(g.nodes[1].inputs, vec![(1u32, false)]);
    assert_eq!(g.nodes[0].outputs, vec![2u32]);
}

#[test]
fn dangling_task_reference_adds_no_edge() {
    let decls = vec![decl(0, "b", &["lock_missing"])];
    let g = build_task_graph(&decls);
    assert_eq!(g.nodes[0].inputs.len(), 0);
    // A node without predecessors is still a start point, so it cannot
    // stall the round.
    assert_eq!(g.start_points, vec![1u32]);
}

#[test]
fn task_reference_never_links_a_node_to_itself() {
    let decls = vec![decl(0, "lock_a", &["lock_a"])];
    let g = build_task_graph(&decls);
    assert_eq!(g.nodes[0].inputs.len(), 0);
    assert_eq!(g.nodes[0].outputs.len(), 0);
}

#[test]
fn empty_round_has_empty_graph() {
    let decls: Vec<TaskDecl> = Vec::new();
    let g = build_task_graph(&decls);
    assert_eq!(g.nodes.len(), 0);
    assert_eq!(g.start_points.len(), 0);
    assert_eq!(g.chain_count, 0);
}

#[test]
fn start_is_refused_while_a_flag_is_down_and_taken_once() {
    let decls = vec![decl(0, "a1", &["r"]), decl(1, "b1", &["r"])];
    let g = build_task_graph(&decls);
    let mut nodes = g.nodes;
    // b1 is not ready before a1's completion is observed.
    assert!(!try_start(&mut nodes, 1));
    assert!(try_start(&mut nodes, 0));
    // A second start of a1 is refused: started flips at most once.
    assert!(!try_start(&mut nodes, 0));
    let ready = record_completion(&mut nodes, 0);
    assert_eq!(ready, vec![2u32]);
    assert!(try_start(&mut nodes, 1));
    assert!(!try_start(&mut nodes, 1));
}

#[test]
fn node_and_lock_constructors_are_virgin() {
    let t = WasmTask::new();
    assert_eq!(t.id, 0);
    assert_eq!(t.name, "");
    assert!(t.inputs.is_empty());
    assert!(t.outputs.is_empty());
    assert!(!t.started);
    let l = WasmLock::generate();
    assert!(!l.engaged);
}
