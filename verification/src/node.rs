//! Nodes of the scenario graph.

use vstd::prelude::*;

verus! {

/// One selectable next step of a decision node.
#[derive(Debug)]
pub struct NextNode {
    /// Id of an existing node of the graph.
    pub id: String,
    /// Short description of the step, used in the judge's system prompt.
    pub description: String,
}

/// What a node is: an end of the session carrying a success flag, or a
/// decision point with an ordered list of options.  By authoring convention
/// the first option of a decision node is the favorable one; it doubles as
/// the deterministic fallback target.
#[derive(Debug)]
pub enum NodeType {
    Terminal(bool),
    Decision(Vec<NextNode>),
}

/// A single node of the scenario graph.
#[derive(Debug)]
pub struct GameNode {
    /// Unique identifier of this node.
    pub id: String,
    /// The line the guard speaks when the node is entered.
    pub transcript: String,
    pub node_type: NodeType,
    /// Extra judging criteria injected when the node is current.
    pub system_context: Option<String>,
}

impl GameNode {
    /// Whether this node ends the session.
    pub fn is_terminal(&self) -> (r: bool)
        ensures
            r == (self.node_type is Terminal),
    {
        match self.node_type {
            NodeType::Terminal(_) => true,
            NodeType::Decision(_) => false,
        }
    }
}

} // verus!
