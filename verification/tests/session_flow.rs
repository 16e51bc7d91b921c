use border_sim::chat::{ChatMessage, Role};
use border_sim::decision::LlmDecision;
use border_sim::engine::{DecodeLoop, ModelConfig};
use border_sim::judge::{judge_validate, JudgeError};
use border_sim::node::{GameNode, NextNode, NodeType};
use border_sim::session::{GameOutcome, GameState, InputStep};
use border_sim::tree::GameTree;

/// The two-node scenario: one decision at START, then terminal success or
/// failure.
fn tiny_tree() -> GameTree {
    GameTree {
        nodes: vec![
            GameNode {
                id: "START".to_string(),
                transcript: "Hello. Passport please.".to_string(),
                node_type: NodeType::Decision(vec![
                    NextNode { id: "PASSPORT_CHECK".to_string(), description: "pass".to_string() },
                    NextNode { id: "FAILED".to_string(), description: "fail".to_string() },
                ]),
                system_context: None,
            },
            GameNode {
                id: "PASSPORT_CHECK".to_string(),
                transcript: "Welcome through.".to_string(),
                node_type: NodeType::Terminal(true),
                system_context: None,
            },
            GameNode {
                id: "FAILED".to_string(),
                transcript: "Step aside.".to_string(),
                node_type: NodeType::Terminal(false),
                system_context: None,
            },
        ],
        start_node_id: "START".to_string(),
    }
}

#[test]
fn judged_pass_reaches_success_terminal() {
    let tree = tiny_tree();
    assert!(tree.validate());
    let mut state = GameState::new(tree);
    assert!(state.begin_turn().is_none());
    let step = state.submit_input("Here is my passport, officer.");
    let (messages, valid_choices) = match step {
        InputStep::Judge { messages, valid_choices } => (messages, valid_choices),
        _ => panic!("expected a judge request"),
    };
    assert_eq!(valid_choices, vec!["PASSPORT_CHECK".to_string(), "FAILED".to_string()]);
    assert_eq!(messages.len(), 1 + state.conversation.len());
    // A mocked engine answers with a clean wire object.
    let judged = judge_validate("{\"decision\":\"PASSPORT_CHECK\",\"reason\":\"ok\"}", &valid_choices);
    let d = judged.as_ref().unwrap();
    assert_eq!(d.decision, "PASSPORT_CHECK");
    state.apply_judge_result(&judged);
    assert_eq!(state.current_node_id, "PASSPORT_CHECK");
    assert_eq!(state.steps_completed, 1);
    match state.begin_turn() {
        Some(GameOutcome::Finished { success, steps_completed, total_steps, terminal_node_id }) => {
            assert!(success);
            assert_eq!(steps_completed, 1);
            assert_eq!(total_steps, 1);
            assert_eq!(terminal_node_id, "PASSPORT_CHECK");
        },
        _ => panic!("expected a finished round"),
    }
}

#[test]
fn invalid_choice_falls_back_to_first_option() {
    let mut state = GameState::new(tiny_tree());
    assert!(state.begin_turn().is_none());
    let step = state.submit_input("hmm");
    let valid_choices = match step {
        InputStep::Judge { valid_choices, .. } => valid_choices,
        _ => panic!("expected a judge request"),
    };
    // The model picks a choice outside {PASSPORT_CHECK, FAILED}.
    let judged = judge_validate("{\"decision\":\"ESCAPE\",\"reason\":\"nope\"}", &valid_choices);
    assert!(matches!(judged, Err(JudgeError::InvalidChoice)));
    state.apply_judge_result(&judged);
    assert_eq!(state.current_node_id, "PASSPORT_CHECK");
    assert_eq!(state.steps_completed, 1);
}

#[test]
fn parse_failure_falls_back_to_first_option() {
    let mut state = GameState::new(tiny_tree());
    assert!(state.begin_turn().is_none());
    let valid_choices = match state.submit_input("mumble") {
        InputStep::Judge { valid_choices, .. } => valid_choices,
        _ => panic!("expected a judge request"),
    };
    let judged = judge_validate("no json here at all", &valid_choices);
    assert!(matches!(judged, Err(JudgeError::ParseFailed(_))));
    state.apply_judge_result(&judged);
    assert_eq!(state.current_node_id, "PASSPORT_CHECK");
    assert_eq!(state.steps_completed, 1);
}

#[test]
fn generation_failure_falls_back_to_first_option() {
    let mut state = GameState::new(tiny_tree());
    assert!(state.begin_turn().is_none());
    match state.submit_input("anything") {
        InputStep::Judge { .. } => {},
        _ => panic!("expected a judge request"),
    }
    let judged: Result<LlmDecision, JudgeError> = Err(JudgeError::GenerationFailed);
    state.apply_judge_result(&judged);
    assert_eq!(state.current_node_id, "PASSPORT_CHECK");
    assert_eq!(state.steps_completed, 1);
}

#[test]
fn quit_keyword_ends_the_session_without_judging() {
    let mut state = GameState::new(tiny_tree());
    assert!(state.begin_turn().is_none());
    // The walker answers Quit directly: no judge request, hence no
    // generation call is ever made on this path.
    assert!(matches!(state.submit_input("QUIT"), InputStep::Quit));
    assert!(matches!(state.submit_input("exit"), InputStep::Quit));
    assert_eq!(state.current_node_id, "START");
    assert_eq!(state.steps_completed, 0);
}

#[test]
fn empty_input_reprompts_without_duplicating_the_line() {
    let mut state = GameState::new(tiny_tree());
    assert!(state.begin_turn().is_none());
    assert_eq!(state.conversation.len(), 1);
    assert!(matches!(state.submit_input(""), InputStep::Reprompt));
    assert_eq!(state.current_node_id, "START");
    assert_eq!(state.steps_completed, 0);
    assert_eq!(state.conversation.len(), 0);
    // Re-entering the node speaks the line again: it appears exactly once.
    assert!(state.begin_turn().is_none());
    let line = "Hello. Passport please.";
    let count = state.conversation.iter().filter(|m| m.content == line).count();
    assert_eq!(count, 1);
}

#[test]
fn judge_messages_carry_system_then_conversation() {
    let mut state = GameState::new(tiny_tree());
    assert!(state.begin_turn().is_none());
    let messages = match state.submit_input("From Texas.") {
        InputStep::Judge { messages, .. } => messages,
        _ => panic!("expected a judge request"),
    };
    assert_eq!(messages.len(), 3);
    assert_eq!(messages[0].role, Role::System);
    assert!(messages[0].content.contains("border security guard"));
    assert!(messages[0].content.contains("Pick one: PASSPORT_CHECK, FAILED"));
    assert!(messages[0].content.contains("Reply with JSON only"));
    assert_eq!(messages[1].role, Role::Assistant);
    assert_eq!(messages[1].content, "Hello. Passport please.");
    assert_eq!(messages[2].role, Role::User);
    assert_eq!(messages[2].content, "From Texas.");
}

#[test]
fn full_scenario_walkthrough_to_cleared() {
    let tree = border_sim::tree::airport_security_scenario();
    assert!(tree.validate());
    let total = tree.total_steps();
    let mut state = GameState::new(tree);
    let replies = [
        ("Here you go, officer.", "PASSPORT_CHECK"),
        ("From Frankfurt.", "QUESTION_PURPOSE"),
        ("Tourism, a week at the coast.", "LUGGAGE_CHECK"),
        ("Nothing to declare.", "CLEARED"),
    ];
    for (reply, choice) in replies {
        assert!(state.begin_turn().is_none());
        let valid_choices = match state.submit_input(reply) {
            InputStep::Judge { valid_choices, .. } => valid_choices,
            _ => panic!("expected a judge request"),
        };
        let raw = format!("<think>weighing it</think> {{\"decision\":\"{choice}\",\"reason\":\"fine\"}}");
        let judged = judge_validate(&raw, &valid_choices);
        assert!(judged.is_ok());
        state.apply_judge_result(&judged);
        assert_eq!(state.current_node_id, choice);
    }
    match state.begin_turn() {
        Some(GameOutcome::Finished { success, steps_completed, total_steps, terminal_node_id }) => {
            assert!(success);
            assert_eq!(steps_completed, 4);
            assert_eq!(total_steps, total);
            assert_eq!(total_steps, 4);
            assert_eq!(terminal_node_id, "CLEARED");
        },
        _ => panic!("expected a finished round"),
    }
}

#[test]
fn judge_instruction_includes_node_criteria() {
    let tree = border_sim::tree::airport_security_scenario();
    let mut state = GameState::new(tree);
    assert!(state.begin_turn().is_none());
    let messages = match state.submit_input("Sure, here.") {
        InputStep::Judge { messages, .. } => messages,
        _ => panic!("expected a judge request"),
    };
    // The START node carries judging criteria; they go into the system
    // message, right before the enumerated choices.
    assert!(messages[0].content.contains("CRITERIA"));
    assert!(messages[0].content.contains("Pick one: PASSPORT_CHECK, FAILED"));
}

#[test]
fn chat_message_constructors_and_display() {
    let m = ChatMessage::system("hello");
    assert_eq!(m.role, Role::System);
    assert_eq!(m.content, "hello");
    assert_eq!(m.to_display_string(), "[system]: hello");
    assert_eq!(ChatMessage::user("x").to_display_string(), "[user]: x");
    assert_eq!(ChatMessage::assistant("y").to_display_string(), "[assistant]: y");
    assert_eq!(ChatMessage::assistant("y").role_name(), "assistant");
}

#[test]
fn model_config_default_values() {
    let c = ModelConfig::default();
    assert_eq!(c.n_gpu_layers, 0);
    assert_eq!(c.n_ctx, 8092);
    assert_eq!(c.max_tokens, 1024);
}

#[test]
fn decode_loop_accumulates_and_respects_budget() {
    let mut d = DecodeLoop::new(3);
    assert!(d.wants_more());
    d.accept_piece("Hel");
    d.accept_piece("lo");
    assert!(d.wants_more());
    d.accept_piece("!");
    assert!(!d.wants_more());
    assert_eq!(d.steps, 3);
    assert_eq!(d.into_output(), "Hello!");
}
