//! The judge protocol: composing the system instruction for a decision
//! node, assembling the message list, and validating the parsed choice.

use vstd::prelude::*;
use vstd::string::*;

use crate::chat::{ChatMessage, Role};
use crate::decision::{parse_decision, spec_parse_decision, LlmDecision, ParseError};
use crate::node::{GameNode, NextNode, NodeType};
use crate::session::GameState;

verus! {

/// Why a judge call produced no validated transition.
#[derive(Debug, Clone, Copy, PartialEq, Eq, Structural)]
pub enum JudgeError {
    /// The generation engine itself failed (template, tokenizer or decode).
    GenerationFailed,
    /// The raw completion held no readable decision object.
    ParseFailed(ParseError),
    /// The decision named a choice outside the allowed set.
    InvalidChoice,
}

/// The fixed role preamble of every judge call.
pub open spec fn spec_system_prompt() -> Seq<char> {
    "You are a border security guard at an airport. You are having a conversation with a traveller. Your job is to categorize the Traveller's last response based on the following rules:"@
}

pub fn system_prompt() -> (r: &'static str)
    ensures
        r@ == spec_system_prompt(),
{
    "You are a border security guard at an airport. You are having a conversation with a traveller. Your job is to categorize the Traveller's last response based on the following rules:"
}

/// The strict output-format instruction closing every judge prompt.
pub open spec fn spec_format_line() -> Seq<char> {
    "\nReply with JSON only: {\"decision\": \"<PICK>\", \"reason\": \"<why>\"}. JSON must be valid."@
}

fn format_line() -> (r: &'static str)
    ensures
        r@ == spec_format_line(),
{
    "\nReply with JSON only: {\"decision\": \"<PICK>\", \"reason\": \"<why>\"}. JSON must be valid."
}

/// The option ids from index `i` on, each with a leading `", "` separator.
pub open spec fn spec_sep_join(opts: Seq<NextNode>, i: int) -> Seq<char>
    decreases opts.len() - i,
{
    if i < 0 || i >= opts.len() {
        Seq::empty()
    } else {
        ", "@ + opts[i].id@ + spec_sep_join(opts, i + 1)
    }
}

/// The option ids joined with `", "`, favorable option first.
pub open spec fn spec_join_ids(opts: Seq<NextNode>) -> Seq<char> {
    if opts.len() == 0 {
        Seq::empty()
    } else {
        opts[0].id@ + spec_sep_join(opts, 1)
    }
}

/// The complete judge instruction for a node: its optional criteria, the
/// enumerated choices, and the output-format line.
pub open spec fn spec_judge_instruction(n: GameNode) -> Seq<char> {
    let ctx = match n.system_context {
        Some(c) => c@ + "\n\n"@,
        None => Seq::empty(),
    };
    let opts = match n.node_type {
        NodeType::Decision(opts) => opts@,
        NodeType::Terminal(_) => Seq::empty(),
    };
    ctx + "Pick one: "@ + spec_join_ids(opts) + spec_format_line()
}

/// Builds the judge instruction for a decision node: criteria first, then
/// the enumerated valid choices, then the strict format line.
pub fn build_judge_instruction(node: &GameNode) -> (s: String)
    ensures
        s@ == spec_judge_instruction(*node),
{
    let mut s = String::new();
    match &node.system_context {
        Some(c) => {
            s.append(c.as_str());
            s.append("\n\n");
        },
        None => {},
    }
    s.append("Pick one: ");
    match &node.node_type {
        NodeType::Decision(opts) => {
            let ghost base = s@;
            if opts.len() > 0 {
                s.append(opts[0].id.as_str());
                let mut m: usize = 1;
                while m < opts.len()
                    invariant
                        1 <= m <= opts@.len(),
                        base + spec_join_ids(opts@) == s@ + spec_sep_join(opts@, m as int),
                    decreases opts@.len() - m,
                {
                    let ghost before = s@;
                    s.append(", ");
                    s.append(opts[m].id.as_str());
                    assert(s@ =~= before + ", "@ + opts@[m as int].id@);
                    assert(before + (", "@ + opts@[m as int].id@ + spec_sep_join(
                        opts@,
                        m + 1 as int,
                    )) =~= s@ + spec_sep_join(opts@, m + 1 as int));
                    m = m + 1;
                }
                assert(base + spec_join_ids(opts@) =~= s@);
            }
        },
        NodeType::Terminal(_) => {},
    }
    s.append(format_line());
    assert(s@ =~= spec_judge_instruction(*node));
    s
}

/// What a correctly assembled judge message list looks like: one fresh
/// system message holding the role preamble and the node's instruction,
/// followed by the prior conversation, order kept, with no earlier system
/// turns carried forward.
pub open spec fn spec_judge_messages_ok(
    msgs: Seq<ChatMessage>,
    conv: Seq<ChatMessage>,
    node: GameNode,
) -> bool {
    &&& msgs.len() == 1 + conv.len()
    &&& msgs[0].role == Role::System
    &&& msgs[0].content@ == spec_system_prompt() + " \n "@ + spec_judge_instruction(node)
    &&& forall|i: int|
        0 <= i < conv.len() ==> (#[trigger] msgs[i + 1]).role == conv[i].role && msgs[
            i + 1
        ].content@ == conv[i].content@
}

/// Assembles the message list for a judge call: the system message for this
/// node, then the whole prior conversation.
pub fn build_judge_messages(state: &GameState, node: &GameNode) -> (r: Vec<ChatMessage>)
    ensures
        spec_judge_messages_ok(r@, state.conversation@, *node),
{
    let mut r: Vec<ChatMessage> = Vec::new();
    let mut sys = String::from_str(system_prompt());
    sys.append(" \n ");
    let instr = build_judge_instruction(node);
    sys.append(instr.as_str());
    r.push(ChatMessage { role: Role::System, content: sys });
    let mut i: usize = 0;
    while i < state.conversation.len()
        invariant
            i <= state.conversation@.len(),
            r@.len() == 1 + i,
            r@[0].role == Role::System,
            r@[0].content@ == spec_system_prompt() + " \n "@ + spec_judge_instruction(*node),
            forall|j: int|
                0 <= j < i ==> (#[trigger] r@[j + 1]).role == state.conversation@[j].role && r@[
                    j + 1
                ].content@ == state.conversation@[j].content@,
        decreases state.conversation@.len() - i,
    {
        r.push(state.conversation[i].duplicate());
        i = i + 1;
    }
    r
}

/// Whether `id` is among the valid choice ids.
pub open spec fn spec_choice_in(choices: Seq<String>, id: Seq<char>) -> bool {
    exists|k: int| 0 <= k < choices.len() && choices[k]@ == id
}

/// Parses raw model output and validates the decision against the allowed
/// choices.  Fails with `ParseFailed` exactly when the parser fails, and
/// with `InvalidChoice` exactly when the parsed decision is not among
/// `valid_choices`.
pub fn judge_validate(raw: &str, valid_choices: &Vec<String>) -> (r: Result<
    LlmDecision,
    JudgeError,
>)
    ensures
        r matches Ok(d) ==> spec_parse_decision(raw@) matches Ok(p) && d.decision@ == p.0
            && d.reason@ == p.1 && spec_choice_in(valid_choices@, p.0),
        r matches Err(e) ==> match e {
            JudgeError::ParseFailed(pe) => spec_parse_decision(raw@) == Err::<
                (Seq<char>, Seq<char>),
                ParseError,
            >(pe),
            JudgeError::InvalidChoice => spec_parse_decision(raw@) matches Ok(p)
                && !spec_choice_in(valid_choices@, p.0),
            JudgeError::GenerationFailed => false,
        },
{
    match parse_decision(raw) {
        Err(e) => Err(JudgeError::ParseFailed(e)),
        Ok(d) => {
            let mut k: usize = 0;
            while k < valid_choices.len()
                invariant
                    k <= valid_choices@.len(),
                    spec_parse_decision(raw@) matches Ok(p) && d.decision@ == p.0 && d.reason@
                        == p.1,
                    forall|m: int| 0 <= m < k ==> valid_choices@[m]@ != d.decision@,
                decreases valid_choices@.len() - k,
            {
                if valid_choices[k] == d.decision {
                    return Ok(d);
                }
                k = k + 1;
            }
            Err(JudgeError::InvalidChoice)
        },
    }
}

} // verus!
