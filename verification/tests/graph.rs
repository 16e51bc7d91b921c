use border_sim::node::{GameNode, NextNode, NodeType};
use border_sim::tree::{airport_security_scenario, GameTree};

fn node(id: &str, transcript: &str, node_type: NodeType) -> GameNode {
    GameNode { id: id.to_string(), transcript: transcript.to_string(), node_type, system_context: None }
}

fn decision(targets: &[&str]) -> NodeType {
    NodeType::Decision(
        targets
            .iter()
            .map(|t| NextNode { id: t.to_string(), description: String::new() })
            .collect(),
    )
}

#[test]
fn airport_security_scenario_is_well_formed() {
    let t = airport_security_scenario();
    assert!(t.validate());
    assert_eq!(t.start_node_id, "START");
    assert_eq!(t.nodes.len(), 8);
    assert!(t.get("START").is_some());
    assert!(t.get("CLEARED").is_some());
    assert!(t.get("NO_SUCH_NODE").is_none());
    assert_eq!(t.start_node().id, "START");
    assert!(!t.start_node().is_terminal());
    assert!(t.get("CLEARED").unwrap().is_terminal());
}

#[test]
fn airport_security_scenario_has_four_steps() {
    let t = airport_security_scenario();
    assert_eq!(t.total_steps(), 4);
    assert_eq!(t.longest_path("LUGGAGE_CHECK"), 1);
    assert_eq!(t.longest_path("CLEARED"), 0);
}

#[test]
fn longest_path_takes_the_longer_branch() {
    // START branches into a short arm (one decision) and a long arm (two).
    let t = GameTree {
        nodes: vec![
            node("START", "s", decision(&["SHORT", "LONG"])),
            node("SHORT", "s", decision(&["END"])),
            node("LONG", "l", decision(&["LONG2"])),
            node("LONG2", "l", decision(&["END"])),
            node("END", "e", NodeType::Terminal(true)),
        ],
        start_node_id: "START".to_string(),
    };
    assert!(t.validate());
    assert_eq!(t.total_steps(), 3);
}

#[test]
fn validate_rejects_dangling_option() {
    let t = GameTree {
        nodes: vec![
            node("START", "s", decision(&["MISSING"])),
        ],
        start_node_id: "START".to_string(),
    };
    assert!(!t.validate());
}

#[test]
fn validate_rejects_duplicate_ids() {
    let t = GameTree {
        nodes: vec![
            node("START", "a", NodeType::Terminal(true)),
            node("START", "b", NodeType::Terminal(false)),
        ],
        start_node_id: "START".to_string(),
    };
    assert!(!t.validate());
}

#[test]
fn validate_rejects_missing_start() {
    let t = GameTree {
        nodes: vec![node("A", "a", NodeType::Terminal(true))],
        start_node_id: "START".to_string(),
    };
    assert!(!t.validate());
}

#[test]
fn validate_rejects_decision_without_options() {
    let t = GameTree {
        nodes: vec![node("START", "s", decision(&[]))],
        start_node_id: "START".to_string(),
    };
    assert!(!t.validate());
}
