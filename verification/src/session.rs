//! The scenario walker: one session's position, conversation and score,
//! and the per-turn transitions the game loop drives.
//!
//! The surrounding loop owns the terminal I/O and the generation engine; it
//! calls `begin_turn` when a node is entered, hands the player's line to
//! `submit_input`, runs the judge on the returned messages, and applies the
//! result with `apply_judge_result`.

use vstd::prelude::*;

use crate::chat::{ChatMessage, Role};
use crate::decision::LlmDecision;
use crate::judge::{build_judge_messages, spec_judge_messages_ok, JudgeError};
use crate::node::{GameNode, NextNode, NodeType};
use crate::tree::{options_ok, GameTree};

verus! {

/// Outcome of a single game round.
#[derive(Debug)]
pub enum GameOutcome {
    /// The player reached a terminal node.
    Finished { success: bool, steps_completed: usize, total_steps: usize, terminal_node_id: String },
    /// The player typed a quit keyword mid-game.
    Quit,
}

/// What the walker asks of its driver after one line of player input.
#[derive(Debug)]
pub enum InputStep {
    /// Empty input: show the prompt again; the node's line was taken back
    /// so it is not duplicated in the conversation.
    Reprompt,
    /// A quit keyword: end the session now, without any judge call.
    Quit,
    /// Run the judge on these messages and validate against these choices,
    /// then hand the result to `apply_judge_result`.
    Judge { messages: Vec<ChatMessage>, valid_choices: Vec<String> },
}

/// Whether `cs` lists exactly the ids of `opts`, in order.
pub open spec fn choices_match(cs: Seq<String>, opts: Seq<NextNode>) -> bool {
    cs.len() == opts.len() && (forall|k: int| 0 <= k < cs.len() ==> (#[trigger] cs[k])@ == opts[k].id@)
}

/// Whether `m` carries the given role and text.
pub open spec fn msg_like(m: ChatMessage, role: Role, content: Seq<char>) -> bool {
    m.role == role && m.content@ == content
}

/// One session's mutable state.  Created fresh at round start and discarded
/// at round end; only the walker mutates it.
pub struct GameState {
    pub tree: GameTree,
    pub current_node_id: String,
    /// Conversation turns only (assistant and user): system messages are
    /// composed at judge time and never stored, so stale instructions from
    /// earlier turns cannot confuse the model.
    pub conversation: Vec<ChatMessage>,
    /// Number of non-terminal steps the player has completed.
    pub steps_completed: usize,
}

impl GameState {
    /// The session invariant: a well-formed graph and a current node that
    /// exists in it.
    pub open spec fn inv(self) -> bool {
        &&& self.tree.wf()
        &&& self.tree.spec_has(self.current_node_id@)
    }

    /// The node the session currently stands on.
    pub open spec fn spec_current(self) -> GameNode {
        self.tree.spec_node(self.current_node_id@)
    }

    /// A fresh session at the start node with an empty conversation.
    pub fn new(tree: GameTree) -> (s: GameState)
        requires
            tree.wf(),
        ensures
            s.inv(),
            s.tree == tree,
            s.current_node_id@ == tree.start_node_id@,
            s.conversation@ == Seq::<ChatMessage>::empty(),
            s.steps_completed == 0,
    {
        let start_id = tree.start_node_id.clone();
        GameState { tree, current_node_id: start_id, conversation: Vec::new(), steps_completed: 0 }
    }

    /// The current node, looked up in the graph.
    pub fn current_node(&self) -> (r: &GameNode)
        requires
            self.inv(),
        ensures
            *r == self.spec_current(),
            r.id@ == self.current_node_id@,
    {
        match self.tree.get(self.current_node_id.as_str()) {
            Some(n) => n,
            None => {
                assert(false);
                unreached()
            },
        }
    }

    /// Enters the current node: appends its transcript to the conversation
    /// as an assistant turn, and reports the outcome if the node is
    /// terminal.  A terminal node ends the round without consuming input.
    pub fn begin_turn(&mut self) -> (r: Option<GameOutcome>)
        requires
            old(self).inv(),
        ensures
            final(self).inv(),
            final(self).tree == old(self).tree,
            final(self).current_node_id == old(self).current_node_id,
            final(self).steps_completed == old(self).steps_completed,
            final(self).conversation@.len() == old(self).conversation@.len() + 1,
            final(self).conversation@.take(old(self).conversation@.len() as int) == old(
                self,
            ).conversation@,
            msg_like(
                final(self).conversation@.last(),
                Role::Assistant,
                old(self).spec_current().transcript@,
            ),
            r is Some <==> old(self).spec_current().node_type is Terminal,
            r matches Some(o) ==> o matches GameOutcome::Finished {
                success,
                steps_completed,
                total_steps,
                terminal_node_id,
            } && success == old(self).spec_current().node_type->Terminal_0 && steps_completed
                == old(self).steps_completed && total_steps as nat
                == old(self).tree.spec_total_steps() && terminal_node_id@ == old(
                self,
            ).current_node_id@,
    {
        let (transcript, term) = {
            let n = self.current_node();
            let term: Option<bool> = match &n.node_type {
                NodeType::Terminal(b) => Some(*b),
                NodeType::Decision(_) => None,
            };
            (n.transcript.clone(), term)
        };
        self.conversation.push(ChatMessage { role: Role::Assistant, content: transcript });
        assert(self.conversation@.take(old(self).conversation@.len() as int) =~= old(
            self,
        ).conversation@);
        match term {
            Some(b) => {
                let total = self.tree.total_steps();
                Some(
                    GameOutcome::Finished {
                        success: b,
                        steps_completed: self.steps_completed,
                        total_steps: total,
                        terminal_node_id: self.current_node_id.clone(),
                    },
                )
            },
            None => None,
        }
    }

    /// Takes one line of player input at a decision node.  Empty input
    /// takes the just-spoken line back and asks for a re-prompt; a quit
    /// keyword (case-insensitive `quit` or `exit`) ends the session with no
    /// judge call; anything else joins the conversation as a user turn and
    /// comes back as a judge request.
    pub fn submit_input(&mut self, input: &str) -> (r: InputStep)
        requires
            old(self).inv(),
            old(self).spec_current().node_type is Decision,
            old(self).conversation@.len() >= 1,
        ensures
            final(self).inv(),
            final(self).tree == old(self).tree,
            final(self).current_node_id == old(self).current_node_id,
            final(self).steps_completed == old(self).steps_completed,
            input@.len() == 0 ==> r is Reprompt && final(self).conversation@ == old(
                self,
            ).conversation@.drop_last(),
            input@.len() > 0 && is_quit_word(input@) ==> r is Quit && final(self).conversation
                == old(self).conversation,
            input@.len() > 0 && !is_quit_word(input@) ==> {
                &&& final(self).conversation@.len() == old(self).conversation@.len() + 1
                &&& final(self).conversation@.take(old(self).conversation@.len() as int) == old(
                    self,
                ).conversation@
                &&& msg_like(final(self).conversation@.last(), Role::User, input@)
                &&& r matches InputStep::Judge { messages, valid_choices }
                    && spec_judge_messages_ok(
                    messages@,
                    final(self).conversation@,
                    old(self).spec_current(),
                ) && choices_match(
                    valid_choices@,
                    old(self).spec_current().node_type->Decision_0@,
                )
            },
    {
        if input.is_empty() {
            self.conversation.pop();
            return InputStep::Reprompt;
        }
        if crate::strutil::eq_ignore_ascii_case(input, "quit") || crate::strutil::eq_ignore_ascii_case(
            input,
            "exit",
        ) {
            return InputStep::Quit;
        }
        self.conversation.push(ChatMessage { role: Role::User, content: input.to_owned() });
        assert(self.conversation@.take(old(self).conversation@.len() as int) =~= old(
            self,
        ).conversation@);
        let (messages, valid_choices) = {
            let n = self.current_node();
            let messages = build_judge_messages(self, n);
            let mut valid_choices: Vec<String> = Vec::new();
            match &n.node_type {
                NodeType::Decision(opts) => {
                    let mut k: usize = 0;
                    while k < opts.len()
                        invariant
                            k <= opts@.len(),
                            valid_choices@.len() == k,
                            forall|m: int|
                                0 <= m < k ==> (#[trigger] valid_choices@[m])@ == opts@[m].id@,
                        decreases opts@.len() - k,
                    {
                        valid_choices.push(opts[k].id.clone());
                        k = k + 1;
                    }
                },
                NodeType::Terminal(_) => {
                    assert(false);
                },
            }
            (messages, valid_choices)
        };
        InputStep::Judge { messages, valid_choices }
    }

    /// Applies a judge result at a decision node: a decision naming one of
    /// the node's options moves there; anything else — a generation
    /// failure, a parse failure, or a choice outside the allowed set —
    /// falls back deterministically to the first (favorable) option.
    /// Either way the player survived the turn, so the step count grows by
    /// one.
    pub fn apply_judge_result(&mut self, judged: &Result<LlmDecision, JudgeError>)
        requires
            old(self).inv(),
            old(self).spec_current().node_type is Decision,
            old(self).steps_completed < usize::MAX,
        ensures
            final(self).inv(),
            final(self).tree == old(self).tree,
            final(self).conversation == old(self).conversation,
            final(self).steps_completed == old(self).steps_completed + 1,
            (judged matches Ok(d) && choice_among(
                old(self).spec_current().node_type->Decision_0@,
                d.decision@,
            )) ==> final(self).current_node_id@ == judged->Ok_0.decision@,
            !(judged matches Ok(d) && choice_among(
                old(self).spec_current().node_type->Decision_0@,
                d.decision@,
            )) ==> final(self).current_node_id@ == old(
                self,
            ).spec_current().node_type->Decision_0@[0].id@,
    {
        let new_id = {
            let n = self.current_node();
            match &n.node_type {
                NodeType::Decision(opts) => {
                    let mut hit: Option<usize> = None;
                    match judged {
                        Ok(d) => {
                            let mut k: usize = 0;
                            while k < opts.len()
                                invariant
                                    k <= opts@.len(),
                                    hit is None ==> forall|m: int|
                                        0 <= m < k ==> opts@[m].id@ != d.decision@,
                                    hit matches Some(h) ==> h < opts@.len() && opts@[
                                        h as int
                                    ].id@ == d.decision@,
                                decreases opts@.len() - k,
                            {
                                if hit.is_none() && opts[k].id == d.decision {
                                    hit = Some(k);
                                }
                                k = k + 1;
                            }
                        },
                        Err(_) => {},
                    }
                    proof {
                        let t = self.tree;
                        let k0 = choose|k0: int|
                            0 <= k0 < t.nodes@.len() && t.nodes@[k0].id@
                                == self.current_node_id@;
                        assert(options_ok(t, t.nodes@[k0]));
                    }
                    match hit {
                        Some(h) => opts[h].id.clone(),
                        None => opts[0].id.clone(),
                    }
                },
                NodeType::Terminal(_) => {
                    assert(false);
                    unreached()
                },
            }
        };
        self.current_node_id = new_id;
        self.steps_completed = self.steps_completed + 1;
    }
}

/// Whether `s` is a quit keyword, up to ASCII case.
pub open spec fn is_quit_word(s: Seq<char>) -> bool {
    crate::strutil::spec_eq_ignore_ascii_case(s, "quit"@) || crate::strutil::spec_eq_ignore_ascii_case(
        s,
        "exit"@,
    )
}

/// Whether `id` names one of the options.
pub open spec fn choice_among(opts: Seq<NextNode>, id: Seq<char>) -> bool {
    exists|k: int| 0 <= k < opts.len() && opts[k].id@ == id
}

} // verus!
