use hellcall_core::ai::{ChatToolCall, ChatToolFunction};
use hellcall_core::chat_flow::{chat_step, ChatAction, ChatEvent, ChatSettings, ChatTurn};

fn settings(llm: bool, reply: bool, auto: bool, debug: bool) -> ChatSettings {
    ChatSettings { llm_enabled: llm, reply_enabled: reply, auto_execute: auto, debug }
}

fn call(id: &str, name: &str) -> ChatToolCall {
    ChatToolCall {
        id: id.to_string(),
        call_type: "function".to_string(),
        function: ChatToolFunction { name: name.to_string(), arguments: "{}".to_string() },
    }
}

#[test]
fn disabled_language_model_ends_the_turn_at_once() {
    let (turn, action) = chat_step(ChatTurn::Start, ChatEvent::Begin, &settings(false, true, true, false));
    assert!(matches!(turn, ChatTurn::Finished));
    assert!(matches!(action, ChatAction::Finish(ref t) if t.is_empty()));
}

#[test]
fn a_full_turn_runs_the_tool_and_asks_for_a_reply() {
    let s = settings(true, true, true, false);
    let (turn, action) = chat_step(ChatTurn::Start, ChatEvent::Begin, &s);
    assert!(matches!(action, ChatAction::AskDecision));
    let (turn, action) = chat_step(turn, ChatEvent::DecisionReturned(vec![call("c1", "list_stratagems")]), &s);
    match action {
        ChatAction::RunTool(c) => assert_eq!(c.id, "c1"),
        other => panic!("unexpected {:?}", other),
    }
    let (turn, action) = chat_step(turn, ChatEvent::ToolFinished(Ok("[]".to_string())), &s);
    match action {
        ChatAction::RecordTools { calls, results, then_reply } => {
            assert_eq!(calls.len(), 1);
            assert_eq!(results, vec![("c1".to_string(), "success: []".to_string())]);
            assert!(then_reply);
        }
        other => panic!("unexpected {:?}", other),
    }
    assert!(matches!(turn, ChatTurn::AwaitingReply));
    let (turn, action) = chat_step(
        turn,
        ChatEvent::ReplyReturned { content: "  ".to_string(), streamed: "Done.".to_string() },
        &s,
    );
    assert!(matches!(turn, ChatTurn::Finished));
    assert!(matches!(action, ChatAction::Finish(ref t) if t == "Done."));
}

#[test]
fn failed_tools_and_skipped_tools_are_reported() {
    let s = settings(true, false, true, false);
    let (turn, _) = chat_step(ChatTurn::AwaitingDecision, ChatEvent::DecisionReturned(vec![call("c", "send_key_sequence")]), &s);
    let (turn, action) = chat_step(turn, ChatEvent::ToolFinished(Err("bad".to_string())), &s);
    assert!(matches!(turn, ChatTurn::Finished));
    match action {
        ChatAction::RecordTools { results, then_reply, .. } => {
            assert_eq!(results[0].1, "failed: bad");
            assert!(!then_reply);
        }
        other => panic!("unexpected {:?}", other),
    }
    let manual = settings(true, true, false, false);
    let (_, action) = chat_step(ChatTurn::AwaitingDecision, ChatEvent::DecisionReturned(vec![call("c", "send_key_sequence")]), &manual);
    match action {
        ChatAction::RecordTools { results, .. } => assert_eq!(results[0].1, "skipped: auto execution is disabled"),
        other => panic!("unexpected {:?}", other),
    }
}

#[test]
fn reply_and_debug_turns_run_no_tool() {
    let s = settings(true, true, true, false);
    let (_, action) = chat_step(ChatTurn::AwaitingDecision, ChatEvent::DecisionReturned(vec![call("r", "reply")]), &s);
    match action {
        ChatAction::RecordTools { results, .. } => assert_eq!(results[0].1, "reply requested"),
        other => panic!("unexpected {:?}", other),
    }
    let debug = settings(true, true, true, true);
    let (_, action) = chat_step(ChatTurn::AwaitingDecision, ChatEvent::DecisionReturned(vec![call("d", "get_key_mappings")]), &debug);
    match action {
        ChatAction::ReplyWithTools { results, .. } => {
            assert_eq!(results[0].1, "skipped in debug: would_call_tool 'get_key_mappings'")
        }
        other => panic!("unexpected {:?}", other),
    }
}

#[test]
fn a_debug_run_keeps_nothing() {
    let s = settings(false, true, true, true);
    let (turn, action) = chat_step(ChatTurn::Start, ChatEvent::Begin, &s);
    assert!(matches!(action, ChatAction::AskDecision));
    let (turn, action) = chat_step(turn, ChatEvent::DecisionReturned(vec![call("r", "reply")]), &s);
    match action {
        ChatAction::ReplyWithTools { calls, results } => {
            assert_eq!(calls[0].id, "r");
            assert_eq!(results, vec![("r".to_string(), "reply requested".to_string())]);
        }
        other => panic!("unexpected {:?}", other),
    }
    let (turn, action) = chat_step(
        turn,
        ChatEvent::ReplyReturned { content: "  ".to_string(), streamed: "streamed".to_string() },
        &s,
    );
    assert!(matches!(turn, ChatTurn::Finished));
    assert!(matches!(action, ChatAction::EndDebug(ref t) if t == "  "));
    let quiet = settings(true, false, true, true);
    let (turn, action) = chat_step(ChatTurn::AwaitingDecision, ChatEvent::DecisionReturned(vec![call("d", "list_stratagems")]), &quiet);
    assert!(matches!(turn, ChatTurn::Finished));
    assert!(matches!(action, ChatAction::EndDebug(ref t) if t.is_empty()));
}

#[test]
fn decisions_must_choose_exactly_one_tool() {
    let s = settings(true, true, true, false);
    let (turn, action) = chat_step(ChatTurn::AwaitingDecision, ChatEvent::DecisionReturned(vec![]), &s);
    assert!(matches!(turn, ChatTurn::Finished));
    assert!(matches!(action, ChatAction::Fail(ref m) if m == "Decision model returned 0 tool calls; expected exactly one."));
    let (_, action) = chat_step(
        ChatTurn::AwaitingDecision,
        ChatEvent::DecisionReturned(vec![call("a", "reply"), call("b", "reply")]),
        &s,
    );
    assert!(matches!(action, ChatAction::Fail(ref m) if m == "Decision model returned 2 tool calls; expected exactly one."));
}

#[test]
fn events_out_of_turn_change_nothing() {
    let s = settings(true, true, true, false);
    let (turn, action) = chat_step(ChatTurn::Finished, ChatEvent::Begin, &s);
    assert!(matches!(turn, ChatTurn::Finished));
    assert!(matches!(action, ChatAction::Wait));
    let (turn, action) = chat_step(ChatTurn::AwaitingReply, ChatEvent::ToolFinished(Ok(String::new())), &s);
    assert!(matches!(turn, ChatTurn::AwaitingReply));
    assert!(matches!(action, ChatAction::Wait));
}
