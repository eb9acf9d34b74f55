use workflow_graph::{GraphBuilder, WorkflowGraph, WorkflowGraphManifest};

fn ids(g: &WorkflowGraph) -> Vec<String> {
    g.nodes.iter().map(|n| n.id.clone()).collect()
}

fn edge_pairs(g: &WorkflowGraph) -> Vec<(String, String)> {
    g.edges.iter().map(|e| (e.source.clone(), e.target.clone())).collect()
}

fn order_manifest() -> WorkflowGraphManifest {
    let mut b = GraphBuilder::new();
    b.start_workflow("Order", "order.ts", "wf1");
    b.add_step_node("Validate", "s1", 10);
    b.add_step_node("Charge", "s2", 20);
    b.finish_workflow();
    b.to_manifest()
}

#[test]
fn order_example_nodes_positions_edges() {
    let m = order_manifest();
    let g = m.get("Order").unwrap();
    assert_eq!(ids(g), vec!["start", "node_0", "node_1", "end"]);
    let ys: Vec<u64> = g.nodes.iter().map(|n| n.position.y).collect();
    assert_eq!(ys, vec![0, 100, 200, 300]);
    assert!(g.nodes.iter().all(|n| n.position.x == 250));
    assert_eq!(
        edge_pairs(g),
        vec![
            ("start".to_string(), "node_0".to_string()),
            ("node_0".to_string(), "node_1".to_string()),
            ("node_1".to_string(), "end".to_string()),
        ]
    );
}

#[test]
fn order_example_fields() {
    let m = order_manifest();
    assert_eq!(m.version, "1.0.0");
    assert_eq!(m.workflows.len(), 1);
    let g = m.get("Order").unwrap();
    assert_eq!(g.workflow_id, "wf1");
    assert_eq!(g.workflow_name, "Order");
    assert_eq!(g.file_path, "order.ts");

    let start = &g.nodes[0];
    assert_eq!(start.node_type, "workflowStart");
    assert_eq!(start.data.label, "Start: Order");
    assert_eq!(start.data.node_kind, "workflow_start");
    assert_eq!(start.data.step_id, None);
    assert_eq!(start.data.line, 0);

    let step = &g.nodes[1];
    assert_eq!(step.node_type, "step");
    assert_eq!(step.data.label, "Validate");
    assert_eq!(step.data.node_kind, "step");
    assert_eq!(step.data.step_id, Some("s1".to_string()));
    assert_eq!(step.data.line, 10);
    assert_eq!(g.nodes[2].data.line, 20);

    let end = &g.nodes[3];
    assert_eq!(end.node_type, "workflowEnd");
    assert_eq!(end.data.label, "Return");
    assert_eq!(end.data.node_kind, "workflow_end");
    assert_eq!(end.data.step_id, None);
    assert_eq!(end.data.line, 0);
}

#[test]
fn edge_ids_and_types() {
    let m = order_manifest();
    let g = m.get("Order").unwrap();
    let edge_ids: Vec<&str> = g.edges.iter().map(|e| e.id.as_str()).collect();
    assert_eq!(edge_ids, vec!["e_start_node_0", "e_node_0_node_1", "e_node_1_end"]);
    assert!(g.edges.iter().all(|e| e.edge_type == "default"));
}

#[test]
fn workflow_call_node() {
    let mut b = GraphBuilder::new();
    b.start_workflow("Parent", "p.ts", "wfp");
    b.add_workflow_node("Child", "wfc", 7);
    b.finish_workflow();
    let m = b.to_manifest();
    let g = m.get("Parent").unwrap();
    let call = &g.nodes[1];
    assert_eq!(call.id, "node_0");
    assert_eq!(call.node_type, "workflowCall");
    assert_eq!(call.data.label, "Child");
    assert_eq!(call.data.node_kind, "workflow");
    assert_eq!(call.data.step_id, Some("wfc".to_string()));
    assert_eq!(call.data.line, 7);
    assert!(m.get("Child").is_none());
}

#[test]
fn empty_workflow_is_start_then_end() {
    let mut b = GraphBuilder::new();
    b.start_workflow("Empty", "e.ts", "wf0");
    b.finish_workflow();
    let m = b.to_manifest();
    let g = m.get("Empty").unwrap();
    assert_eq!(ids(g), vec!["start", "end"]);
    assert_eq!(edge_pairs(g), vec![("start".to_string(), "end".to_string())]);
    assert_eq!(g.nodes[1].position.y, 100);
}

#[test]
fn k_adds_give_k_plus_two_nodes_on_one_path() {
    for k in 0..15usize {
        let mut b = GraphBuilder::new();
        b.start_workflow("W", "w.ts", "id");
        for i in 0..k {
            if i % 2 == 0 {
                b.add_step_node("s", "sid", i);
            } else {
                b.add_workflow_node("c", "cid", i);
            }
        }
        b.finish_workflow();
        let m = b.to_manifest();
        let g = m.get("W").unwrap();
        assert_eq!(g.nodes.len(), k + 2);
        assert_eq!(g.edges.len(), k + 1);
        for (j, e) in g.edges.iter().enumerate() {
            assert_eq!(e.source, g.nodes[j].id);
            assert_eq!(e.target, g.nodes[j + 1].id);
        }
        assert_eq!(g.nodes[0].id, "start");
        assert_eq!(g.nodes[k + 1].id, "end");
    }
}

#[test]
fn generated_ids_count_up_and_are_unique() {
    let mut b = GraphBuilder::new();
    b.start_workflow("Long", "l.ts", "wfl");
    for i in 0..12usize {
        b.add_step_node("s", "sid", i);
    }
    b.finish_workflow();
    let m = b.to_manifest();
    let g = m.get("Long").unwrap();
    for j in 0..12usize {
        assert_eq!(g.nodes[j + 1].id, format!("node_{}", j));
    }
    assert_eq!(g.nodes[11].id, "node_10");
    assert_eq!(g.nodes[12].id, "node_11");
    let all = ids(g);
    for i in 0..all.len() {
        for j in 0..all.len() {
            if i != j {
                assert_ne!(all[i], all[j]);
            }
        }
    }
}

#[test]
fn adds_and_finish_without_workflow_are_noops() {
    let mut b = GraphBuilder::new();
    b.add_step_node("s", "sid", 1);
    b.add_workflow_node("c", "cid", 2);
    b.finish_workflow();
    assert!(!b.has_workflows());
    let m = b.to_manifest();
    assert!(m.workflows.is_empty());
}

#[test]
fn adds_after_finish_are_noops() {
    let mut b = GraphBuilder::new();
    b.start_workflow("Order", "order.ts", "wf1");
    b.add_step_node("Validate", "s1", 10);
    b.finish_workflow();
    b.add_step_node("Late", "s9", 99);
    b.add_workflow_node("LateCall", "w9", 98);
    b.finish_workflow();
    let m = b.to_manifest();
    let g = m.get("Order").unwrap();
    assert_eq!(ids(g), vec!["start", "node_0", "end"]);
    assert_eq!(g.edges.len(), 2);
}

#[test]
fn restart_same_name_discards_first_graph() {
    let mut b = GraphBuilder::new();
    b.start_workflow("Dup", "a.ts", "first");
    b.add_step_node("A", "sa", 1);
    b.add_step_node("B", "sb", 2);
    b.finish_workflow();
    b.start_workflow("Dup", "b.ts", "second");
    b.add_workflow_node("C", "wc", 3);
    b.finish_workflow();
    let m = b.to_manifest();
    assert_eq!(m.workflows.len(), 1);
    let g = m.get("Dup").unwrap();
    assert_eq!(g.workflow_id, "second");
    assert_eq!(g.file_path, "b.ts");
    assert_eq!(ids(g), vec!["start", "node_0", "end"]);
    assert_eq!(g.nodes[1].data.label, "C");
    assert_eq!(g.edges.len(), 2);
}

#[test]
fn restart_while_recording_abandons_previous() {
    let mut b = GraphBuilder::new();
    b.start_workflow("First", "f.ts", "wf1");
    b.add_step_node("A", "sa", 1);
    b.start_workflow("Second", "s.ts", "wf2");
    b.add_step_node("B", "sb", 2);
    b.finish_workflow();
    let m = b.to_manifest();
    assert_eq!(m.workflows.len(), 2);
    let first = m.get("First").unwrap();
    assert_eq!(ids(first), vec!["start", "node_0"]);
    assert_eq!(first.edges.len(), 1);
    let second = m.get("Second").unwrap();
    assert_eq!(ids(second), vec!["start", "node_0", "end"]);
    let ys: Vec<u64> = second.nodes.iter().map(|n| n.position.y).collect();
    assert_eq!(ys, vec![0, 100, 200]);
}

#[test]
fn several_workflows_kept_apart() {
    let mut b = GraphBuilder::new();
    b.start_workflow("One", "x.ts", "w1");
    b.add_step_node("A", "sa", 1);
    b.finish_workflow();
    b.start_workflow("Two", "x.ts", "w2");
    b.add_step_node("B", "sb", 2);
    b.add_step_node("C", "sc", 3);
    b.finish_workflow();
    let m = b.to_manifest();
    assert_eq!(m.workflows.len(), 2);
    assert_eq!(ids(m.get("One").unwrap()), vec!["start", "node_0", "end"]);
    assert_eq!(ids(m.get("Two").unwrap()), vec!["start", "node_0", "node_1", "end"]);
    assert_eq!(m.get("Two").unwrap().nodes[3].position.y, 300);
    assert!(m.get("Three").is_none());
}

#[test]
fn has_workflows_false_then_true() {
    let mut b = GraphBuilder::new();
    assert!(!b.has_workflows());
    b.start_workflow("W", "w.ts", "id");
    assert!(b.has_workflows());
    b.finish_workflow();
    b.finish_workflow();
    b.add_step_node("s", "sid", 1);
    assert!(b.has_workflows());
}

#[test]
fn has_workflows_true_for_unfinished() {
    let mut b = GraphBuilder::new();
    b.start_workflow("Open", "o.ts", "id");
    assert!(b.has_workflows());
    let m = b.to_manifest();
    assert_eq!(ids(m.get("Open").unwrap()), vec!["start"]);
    assert!(m.get("Open").unwrap().edges.is_empty());
}

#[test]
fn empty_strings_accepted() {
    let mut b = GraphBuilder::new();
    b.start_workflow("", "", "");
    b.add_step_node("", "", 0);
    b.finish_workflow();
    let m = b.to_manifest();
    let g = m.get("").unwrap();
    assert_eq!(g.nodes[0].data.label, "Start: ");
    assert_eq!(g.nodes[1].data.step_id, Some(String::new()));
}

#[test]
fn large_line_numbers_kept() {
    let mut b = GraphBuilder::new();
    b.start_workflow("W", "w.ts", "id");
    b.add_step_node("s", "sid", usize::MAX);
    b.finish_workflow();
    let m = b.to_manifest();
    assert_eq!(m.get("W").unwrap().nodes[1].data.line, usize::MAX);
}
