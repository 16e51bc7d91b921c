//! The scenario graph: a set of uniquely named nodes and a start node.

use vstd::prelude::*;

use crate::node::{GameNode, NextNode, NodeType};

verus! {

/// The full scenario graph, read-only during play.
#[derive(Debug)]
pub struct GameTree {
    pub nodes: Vec<GameNode>,
    pub start_node_id: String,
}

/// Whether a node's options are sound with respect to the graph `t`: a
/// decision node has at least one option and every option points at an
/// existing node.
pub open spec fn options_ok(t: GameTree, n: GameNode) -> bool {
    match n.node_type {
        NodeType::Terminal(_) => true,
        NodeType::Decision(opts) => opts@.len() >= 1 && (forall|m: int|
            0 <= m < opts@.len() ==> #[trigger] t.spec_has(opts@[m].id@)),
    }
}

impl GameTree {
    /// Whether some node carries the id.
    pub open spec fn spec_has(self, id: Seq<char>) -> bool {
        exists|k: int| 0 <= k < self.nodes@.len() && self.nodes@[k].id@ == id
    }

    /// The node carrying the id; meaningful under `ids_unique`.
    pub open spec fn spec_node(self, id: Seq<char>) -> GameNode {
        self.nodes@[choose|k: int|
            0 <= k < self.nodes@.len() && self.nodes@[k].id@ == id]
    }

    /// No two nodes share an id.
    pub open spec fn ids_unique(self) -> bool {
        forall|k1: int, k2: int|
            0 <= k1 < k2 < self.nodes@.len() ==> self.nodes@[k1].id@ != self.nodes@[k2].id@
    }

    /// The structural invariant of a playable graph: unique ids, an existing
    /// start node, and sound options everywhere.
    pub open spec fn wf(self) -> bool {
        &&& self.ids_unique()
        &&& self.spec_has(self.start_node_id@)
        &&& forall|k: int|
            0 <= k < self.nodes@.len() ==> options_ok(self, #[trigger] self.nodes@[k])
    }

    /// Looks a node up by id.
    pub fn get(&self, id: &str) -> (r: Option<&GameNode>)
        ensures
            r is Some <==> self.spec_has(id@),
            r matches Some(n) ==> n.id@ == id@,
            self.ids_unique() ==> match r {
                Some(n) => *n == self.spec_node(id@),
                None => true,
            },
    {
        let q = id.to_owned();
        let mut k: usize = 0;
        while k < self.nodes.len()
            invariant
                k <= self.nodes.len(),
                q@ == id@,
                forall|m: int| 0 <= m < k ==> self.nodes@[m].id@ != id@,
            decreases self.nodes.len() - k,
        {
            if self.nodes[k].id == q {
                let n = &self.nodes[k];
                assert(self.spec_has(id@));
                proof {
                    if self.ids_unique() {
                        let k0 = choose|k0: int|
                            0 <= k0 < self.nodes@.len() && self.nodes@[k0].id@ == id@;
                        assert(self.nodes@[k0].id@ == id@);
                        assert(k0 == k as int);
                    }
                }
                return Some(n);
            }
            k = k + 1;
        }
        None
    }

    /// The start node.
    pub fn start_node(&self) -> (r: &GameNode)
        requires
            self.wf(),
        ensures
            *r == self.spec_node(self.start_node_id@),
            r.id@ == self.start_node_id@,
    {
        match self.get(self.start_node_id.as_str()) {
            Some(n) => n,
            None => {
                assert(false);
                unreached()
            },
        }
    }

    /// Whether the graph satisfies its structural invariant.
    pub fn validate(&self) -> (r: bool)
        ensures
            r == self.wf(),
    {
        let n = self.nodes.len();
        let mut k: usize = 0;
        while k < n
            invariant
                n == self.nodes.len(),
                k <= n,
                forall|m1: int, m2: int|
                    0 <= m1 < m2 < n && m1 < k ==> self.nodes@[m1].id@ != self.nodes@[m2].id@,
            decreases n - k,
        {
            let mut k2: usize = k + 1;
            while k2 < n
                invariant
                    n == self.nodes.len(),
                    k < k2 <= n,
                    k < n,
                    forall|m2: int| k < m2 < k2 ==> self.nodes@[k as int].id@ != self.nodes@[m2].id@,
                decreases n - k2,
            {
                if self.nodes[k].id == self.nodes[k2].id {
                    return false;
                }
                k2 = k2 + 1;
            }
            k = k + 1;
        }
        if self.get(self.start_node_id.as_str()).is_none() {
            return false;
        }
        let mut k: usize = 0;
        while k < n
            invariant
                n == self.nodes.len(),
                k <= n,
                self.ids_unique(),
                self.spec_has(self.start_node_id@),
                forall|m: int| 0 <= m < k ==> options_ok(*self, #[trigger] self.nodes@[m]),
            decreases n - k,
        {
            match &self.nodes[k].node_type {
                NodeType::Terminal(_) => {},
                NodeType::Decision(opts) => {
                    if opts.len() == 0 {
                        return false;
                    }
                    let mut m: usize = 0;
                    while m < opts.len()
                        invariant
                            self.nodes@[k as int].node_type is Decision,
                            opts@ == self.nodes@[k as int].node_type->Decision_0@,
                            k < n == self.nodes.len(),
                            m <= opts@.len(),
                            forall|j: int|
                                0 <= j < m ==> #[trigger] self.spec_has(opts@[j].id@),
                        decreases opts@.len() - m,
                    {
                        if self.get(opts[m].id.as_str()).is_none() {
                            assert(!options_ok(*self, self.nodes@[k as int]));
                            return false;
                        }
                        m = m + 1;
                    }
                },
            }
            k = k + 1;
        }
        true
    }
}

pub open spec fn nat_max(a: nat, b: nat) -> nat {
    if a >= b {
        a
    } else {
        b
    }
}

/// The number of decision nodes on the longest path from `id`, walking at
/// most `fuel` decision steps.  On a graph whose decision edges are acyclic,
/// any fuel of at least the node count gives the true longest-path length.
pub open spec fn spec_longest_from(t: GameTree, id: Seq<char>, fuel: nat) -> nat
    decreases fuel, 0int,
{
    if !t.spec_has(id) {
        0
    } else {
        match t.spec_node(id).node_type {
            NodeType::Terminal(_) => 0,
            NodeType::Decision(opts) => if fuel == 0 {
                0
            } else {
                1 + spec_longest_opts(t, opts@, 0, (fuel - 1) as nat)
            },
        }
    }
}

/// The longest-path length over the options from index `i` on.
pub open spec fn spec_longest_opts(t: GameTree, opts: Seq<NextNode>, i: int, fuel: nat) -> nat
    decreases fuel, opts.len() - i + 1,
{
    if i < 0 || i >= opts.len() {
        0
    } else {
        nat_max(
            spec_longest_from(t, opts[i].id@, fuel),
            spec_longest_opts(t, opts, i + 1, fuel),
        )
    }
}

pub proof fn lemma_longest_from_le(t: GameTree, id: Seq<char>, fuel: nat)
    ensures
        spec_longest_from(t, id, fuel) <= fuel,
    decreases fuel, 0int,
{
    if t.spec_has(id) {
        match t.spec_node(id).node_type {
            NodeType::Terminal(_) => {},
            NodeType::Decision(opts) => {
                if fuel > 0 {
                    lemma_longest_opts_le(t, opts@, 0, (fuel - 1) as nat);
                }
            },
        }
    }
}

pub proof fn lemma_longest_opts_le(t: GameTree, opts: Seq<NextNode>, i: int, fuel: nat)
    ensures
        spec_longest_opts(t, opts, i, fuel) <= fuel,
    decreases fuel, opts.len() - i + 1,
{
    if 0 <= i < opts.len() {
        lemma_longest_from_le(t, opts[i].id@, fuel);
        lemma_longest_opts_le(t, opts, i + 1, fuel);
    }
}

impl GameTree {
    /// The longest-path length from the start node, with fuel equal to the
    /// node count.
    pub open spec fn spec_total_steps(self) -> nat {
        spec_longest_from(self, self.start_node_id@, self.nodes@.len() as nat)
    }

    fn longest_path_fuel(&self, id: &str, fuel: usize) -> (r: usize)
        requires
            self.wf(),
        ensures
            r as nat == spec_longest_from(*self, id@, fuel as nat),
            r <= fuel,
        decreases fuel,
    {
        proof {
            lemma_longest_from_le(*self, id@, fuel as nat);
        }
        match self.get(id) {
            None => 0,
            Some(node) => {
                let ghost nd = *node;
                match &node.node_type {
                    NodeType::Terminal(_) => 0,
                    NodeType::Decision(opts) => {
                        if fuel == 0 {
                            return 0;
                        }
                        let ghost f1 = (fuel - 1) as nat;
                        let mut acc: usize = 0;
                        let mut m: usize = 0;
                        while m < opts.len()
                            invariant
                                self.wf(),
                                nd == self.spec_node(id@),
                                nd.node_type is Decision,
                                opts@ == nd.node_type->Decision_0@,
                                1 <= fuel,
                                f1 == (fuel - 1) as nat,
                                m <= opts@.len(),
                                acc <= f1,
                                spec_longest_opts(*self, opts@, 0, f1) == nat_max(
                                    acc as nat,
                                    spec_longest_opts(*self, opts@, m as int, f1),
                                ),
                            decreases opts@.len() - m,
                        {
                            let c = self.longest_path_fuel(opts[m].id.as_str(), fuel - 1);
                            if c > acc {
                                acc = c;
                            }
                            m = m + 1;
                        }
                        1 + acc
                    },
                }
            },
        }
    }

    /// The longest-path length from the node `node_id`, the number of
    /// decision nodes a player can pass through from there.
    pub fn longest_path(&self, node_id: &str) -> (r: usize)
        requires
            self.wf(),
        ensures
            r as nat == spec_longest_from(*self, node_id@, self.nodes@.len() as nat),
    {
        self.longest_path_fuel(node_id, self.nodes.len())
    }

    /// The maximum number of decision steps a player can complete, from the
    /// start node to a terminal: the scoring denominator.
    pub fn total_steps(&self) -> (r: usize)
        requires
            self.wf(),
        ensures
            r as nat == self.spec_total_steps(),
    {
        self.longest_path_fuel(self.start_node_id.as_str(), self.nodes.len())
    }
}

fn option_to(id: &str, description: &str) -> (r: NextNode)
    ensures
        r.id@ == id@,
        r.description@ == description@,
{
    NextNode { id: id.to_owned(), description: description.to_owned() }
}

/// The built-in airport border-control scenario.  The favorable option of
/// every decision node is listed first, both to frame the judge prompt and
/// to serve as the fallback target.
pub fn airport_security_scenario() -> (t: GameTree)
    ensures
        t.wf(),
        t.start_node_id@ == "START"@,
        t.nodes@.len() == 8,
{
    let mut nodes: Vec<GameNode> = Vec::new();
    let mut opts: Vec<NextNode> = Vec::new();
    opts.push(option_to("PASSPORT_CHECK", "User proceeds to get his passport checked"));
    opts.push(option_to("FAILED", "User failed the border inspection"));
    nodes.push(
        GameNode {
            id: "START".to_owned(),
            transcript: "Hello. Passport please.".to_owned(),
            node_type: NodeType::Decision(opts),
            system_context: Some(
                "## CRITERIA: \n\
                 - **PASSPORT_CHECK**: Choose this if the traveller hands over the passport peacefully.\n\
                 - **FAILED**: Choose this if the traveller refuses, ignores, or answers inappropriately.\n".to_owned(),
            ),
        },
    );
    let mut opts: Vec<NextNode> = Vec::new();
    opts.push(option_to("QUESTION_PURPOSE", "User answered appropriately. Proceeding with the questioning."));
    opts.push(option_to("FAILED", "User failed the questioning."));
    nodes.push(
        GameNode {
            id: "PASSPORT_CHECK".to_owned(),
            transcript: "Thank you. Let me take a look... Where are you travelling from today?".to_owned(),
            node_type: NodeType::Decision(opts),
            system_context: Some(
                "## CRITERIA: \n\
                 - **QUESTION_PURPOSE**: traveller names a real place. It may be a country or city name. \n\
                 - **FAILED** traveller is evasive, vague, or contradictory. \n\
                 EXAMPLES FOR PROPER RESPONSES:\n\
                     - From Texas.\n\
                     - I'm travelling from Frankfurt.\n\
                     - From Atlanta, Georgia.\n".to_owned(),
            ),
        },
    );
    let mut opts: Vec<NextNode> = Vec::new();
    opts.push(option_to("LUGGAGE_CHECK", "traveller gives a normal reason (tourism, business, family, etc.)."));
    opts.push(option_to("FAILED_SUSPICIOUS", "traveller refuses, mentions something illegal, or is evasive."));
    nodes.push(
        GameNode {
            id: "QUESTION_PURPOSE".to_owned(),
            transcript: "And what is the purpose of your visit?".to_owned(),
            node_type: NodeType::Decision(opts),
            system_context: Some(
                "The guard asked the purpose of the visit.\n\
                 LUGGAGE_CHECK = traveller gives a normal reason (tourism, business, family, etc.).\n\
                 FAILED_SUSPICIOUS = traveller refuses, mentions something illegal, or is evasive.".to_owned(),
            ),
        },
    );
    let mut opts: Vec<NextNode> = Vec::new();
    opts.push(option_to("CLEARED", "traveller says nothing to declare or lists normal items."));
    opts.push(option_to("FAILED_CONTRABAND", "traveller mentions illegal items, acts nervous, or is suspicious."));
    nodes.push(
        GameNode {
            id: "LUGGAGE_CHECK".to_owned(),
            transcript: "Alright. Do you have anything to declare?".to_owned(),
            node_type: NodeType::Decision(opts),
            system_context: Some(
                "The guard asked about declarations.\n\
                 CLEARED = traveller says nothing to declare or lists normal items.\n\
                 FAILED_CONTRABAND = traveller mentions illegal items, acts nervous, or is suspicious.".to_owned(),
            ),
        },
    );
    nodes.push(
        GameNode {
            id: "CLEARED".to_owned(),
            transcript: "Everything checks out. Welcome, and enjoy your stay!".to_owned(),
            node_type: NodeType::Terminal(true),
            system_context: None,
        },
    );
    nodes.push(
        GameNode {
            id: "FAILED".to_owned(),
            transcript: "Sir/Ma'am, I'm going to have to ask you to step aside. Security!".to_owned(),
            node_type: NodeType::Terminal(false),
            system_context: None,
        },
    );
    nodes.push(
        GameNode {
            id: "FAILED_SUSPICIOUS".to_owned(),
            transcript: "Your answers don't add up. Please follow me to secondary screening.".to_owned(),
            node_type: NodeType::Terminal(false),
            system_context: None,
        },
    );
    nodes.push(
        GameNode {
            id: "FAILED_CONTRABAND".to_owned(),
            transcript: "I'm going to need you to open your bags. Security has been notified.".to_owned(),
            node_type: NodeType::Terminal(false),
            system_context: None,
        },
    );
    let t = GameTree { nodes, start_node_id: "START".to_owned() };
    proof {
        reveal_strlit("START");
        reveal_strlit("PASSPORT_CHECK");
        reveal_strlit("QUESTION_PURPOSE");
        reveal_strlit("LUGGAGE_CHECK");
        reveal_strlit("CLEARED");
        reveal_strlit("FAILED");
        reveal_strlit("FAILED_SUSPICIOUS");
        reveal_strlit("FAILED_CONTRABAND");
        assert(t.nodes@.len() == 8);
        assert(t.spec_has("START"@)) by {
            assert(t.nodes@[0].id@ == "START"@);
        }
        assert(t.spec_has("PASSPORT_CHECK"@)) by {
            assert(t.nodes@[1].id@ == "PASSPORT_CHECK"@);
        }
        assert(t.spec_has("QUESTION_PURPOSE"@)) by {
            assert(t.nodes@[2].id@ == "QUESTION_PURPOSE"@);
        }
        assert(t.spec_has("LUGGAGE_CHECK"@)) by {
            assert(t.nodes@[3].id@ == "LUGGAGE_CHECK"@);
        }
        assert(t.spec_has("CLEARED"@)) by {
            assert(t.nodes@[4].id@ == "CLEARED"@);
        }
        assert(t.spec_has("FAILED"@)) by {
            assert(t.nodes@[5].id@ == "FAILED"@);
        }
        assert(t.spec_has("FAILED_SUSPICIOUS"@)) by {
            assert(t.nodes@[6].id@ == "FAILED_SUSPICIOUS"@);
        }
        assert(t.spec_has("FAILED_CONTRABAND"@)) by {
            assert(t.nodes@[7].id@ == "FAILED_CONTRABAND"@);
        }
        assert forall|k1: int, k2: int|
            0 <= k1 < k2 < t.nodes@.len() implies t.nodes@[k1].id@ != t.nodes@[k2].id@ by {
            assert(t.nodes@[0].id@ == "START"@);
            assert(t.nodes@[1].id@ == "PASSPORT_CHECK"@);
            assert(t.nodes@[2].id@ == "QUESTION_PURPOSE"@);
            assert(t.nodes@[3].id@ == "LUGGAGE_CHECK"@);
            assert(t.nodes@[4].id@ == "CLEARED"@);
            assert(t.nodes@[5].id@ == "FAILED"@);
            assert(t.nodes@[6].id@ == "FAILED_SUSPICIOUS"@);
            assert(t.nodes@[7].id@ == "FAILED_CONTRABAND"@);
            assert("FAILED_SUSPICIOUS"@ != "FAILED_CONTRABAND"@) by {
                assert("FAILED_SUSPICIOUS"@[7] != "FAILED_CONTRABAND"@[7]);
            }
        }
        assert(t.ids_unique());
        assert forall|k: int| 0 <= k < t.nodes@.len() implies options_ok(
            t,
            #[trigger] t.nodes@[k],
        ) by {
            if k == 0 {
                assert(options_ok(t, t.nodes@[0]));
            } else if k == 1 {
                assert(options_ok(t, t.nodes@[1]));
            } else if k == 2 {
                assert(options_ok(t, t.nodes@[2]));
            } else if k == 3 {
                assert(options_ok(t, t.nodes@[3]));
            } else {
                assert(t.nodes@[k].node_type is Terminal);
            }
        }
    }
    t
}

} // verus!
