use hellcall_core::ai::{
    agent_skills, build_system_messages, check_decision_call_count, context_window,
    current_ai_agent, debug_tool_result_text, decimal_text, default_ai_session_record, event_id,
    event_payload, final_reply_text, find_stratagem, format_keys, frame_pending_events,
    key_sequence_report, list_stratagems, local_key_name, parse_local_key, plan_context_messages,
    plan_stratagem_call, request_api_key, tts_input_text, check_llm_debug_input,
    check_tts_debug_input,
    stratagem_keys, stratagem_report, take_interrupted_reply, tool_call_name, tool_request,
    tool_request_from_members, tool_result_text, tool_step, AiDebugStage, JsonMember, AiSessionEvent, ChatDelta, ChatToolCall,
    ChatToolFunction, ContextEvent, ContextMessage, DebugStages, Skill, StreamAccumulator,
    ToolCallDelta, ToolRequest, ToolStep,
};
use hellcall_core::keys::LocalKey;
use hellcall_core::stratagems::Stratagem;

fn strs(v: &[&str]) -> Vec<String> {
    v.iter().map(|s| s.to_string()).collect()
}

fn call(name: &str, arguments: &str) -> ChatToolCall {
    ChatToolCall {
        id: "call-1".to_string(),
        call_type: "function".to_string(),
        function: ChatToolFunction { name: name.to_string(), arguments: arguments.to_string() },
    }
}

fn event(kind: &str, text: Option<&str>) -> AiSessionEvent {
    AiSessionEvent { id: "e".to_string(), kind: kind.to_string(), text: text.map(|t| t.to_string()), created_at_ms: 1 }
}

fn item(id: &str, name: &str) -> Stratagem {
    Stratagem {
        id: id.to_string(),
        section: "Current Stratagems".to_string(),
        category: "Offensive".to_string(),
        name: name.to_string(),
        icon_url: String::new(),
        command: strs(&["UP", "DOWN"]),
    }
}

#[test]
fn local_key_names() {
    assert_eq!(parse_local_key(" up "), Some(LocalKey::UP));
    assert_eq!(parse_local_key("Throw"), Some(LocalKey::THROW));
    assert_eq!(parse_local_key("occ"), Some(LocalKey::OCC));
    assert_eq!(parse_local_key("jump"), None);
    assert_eq!(local_key_name(LocalKey::RESEND), "RESEND");
    assert_eq!(format_keys(&vec![]), "[]");
    assert_eq!(format_keys(&vec![LocalKey::UP, LocalKey::DOWN]), "[UP, DOWN]");
}

#[test]
fn reports_of_executed_sequences() {
    let keys = vec![LocalKey::OPEN, LocalKey::UP, LocalKey::THROW];
    assert_eq!(key_sequence_report(&keys), "Executed key sequence: [OPEN, UP, THROW]");
    assert_eq!(stratagem_report("Strike", &keys), "Executed stratagem 'Strike' with sequence [OPEN, UP, THROW]");
}

#[test]
fn only_one_debug_test_runs_at_a_time() {
    let mut d = DebugStages::new();
    assert_eq!(d.start(AiDebugStage::Llm), Ok(()));
    assert!(d.is_active(AiDebugStage::Llm));
    d.request_cancel();
    assert!(d.cancel_requested);
    assert_eq!(d.start(AiDebugStage::Tts), Err("AI debug llm test is already running.".to_string()));
    d.finish(AiDebugStage::Tts);
    assert!(d.is_active(AiDebugStage::Llm));
    d.finish(AiDebugStage::Llm);
    assert!(!d.is_active(AiDebugStage::Llm));
    assert_eq!(d.start(AiDebugStage::Stt), Ok(()));
    assert!(!d.cancel_requested);
    assert_eq!(AiDebugStage::Stt.as_str(), "stt");
}

#[test]
fn session_record_counts_events() {
    let mut r = default_ai_session_record(100);
    assert_eq!(r.summary.id, "default-session");
    assert_eq!(r.summary.title, "Current Session");
    assert_eq!(r.summary.message_count, 0);
    r.append_event(event("user_transcript", Some("hi")), 150);
    r.append_event(event("assistant_final", Some("hello")), 175);
    assert_eq!(r.summary.message_count, 2);
    assert_eq!(r.summary.updated_at_ms, 175);
    assert_eq!(r.summary.created_at_ms, 100);
    assert_eq!(r.events[1].kind, "assistant_final");
}

#[test]
fn interrupted_reply_is_taken_for_its_session() {
    let mut partial = Some(("s1".to_string(), "  half a reply ".to_string()));
    assert_eq!(take_interrupted_reply(&mut partial, "s2"), None);
    assert!(partial.is_some());
    assert_eq!(take_interrupted_reply(&mut partial, "s1"), Some("half a reply".to_string()));
    assert!(partial.is_none());
    let mut blank = Some(("s1".to_string(), " ".to_string()));
    assert_eq!(take_interrupted_reply(&mut blank, "s1"), None);
    assert!(blank.is_none());
}

#[test]
fn decimal_ids() {
    assert_eq!(decimal_text(0), "0");
    assert_eq!(decimal_text(1234567890), "1234567890");
    assert_eq!(decimal_text(u64::MAX), "18446744073709551615");
    assert_eq!(event_id(42), "event-42");
}

#[test]
fn send_key_sequence_requests() {
    match tool_request(&call("send_key_sequence", r#"{"keys":["up"," Down ",3,"jump"]}"#)) {
        Ok(ToolRequest::SendKeys(keys)) => assert_eq!(keys, vec![LocalKey::UP, LocalKey::DOWN]),
        other => panic!("unexpected {:?}", other),
    }
    assert_eq!(
        tool_request(&call("send_key_sequence", r#"{"keys":["jump"]}"#)).unwrap_err(),
        "No valid local keys were provided."
    );
    assert_eq!(
        tool_request(&call("send_key_sequence", r#"{"keys":"up"}"#)).unwrap_err(),
        "send_key_sequence requires a keys array."
    );
}

#[test]
fn invalid_tool_arguments_are_refused_first() {
    let err = tool_request(&call("unknown_tool", "{not json")).unwrap_err();
    assert!(err.starts_with("Failed to parse tool arguments for unknown_tool: "), "{}", err);
    assert_eq!(tool_request(&call("unknown_tool", "{}")).unwrap_err(), "Unsupported tool 'unknown_tool'.");
}

#[test]
fn other_tool_requests() {
    match tool_request(&call("execute_stratagem", r#"{"id":"VVA=","name":7}"#)) {
        Ok(ToolRequest::ExecuteStratagem { id, name }) => {
            assert_eq!(id, Some("VVA=".to_string()));
            assert_eq!(name, None);
        },
        other => panic!("unexpected {:?}", other),
    }
    match tool_request(&call("list_stratagems", r#"{"query":"eagle"}"#)) {
        Ok(ToolRequest::ListStratagems { query }) => assert_eq!(query, Some("eagle".to_string())),
        other => panic!("unexpected {:?}", other),
    }
    assert!(matches!(tool_request(&call("get_key_mappings", "[]")), Ok(ToolRequest::GetKeyMappings)));
}

#[test]
fn stratagems_are_found_by_id_or_name() {
    let items = vec![item("a", "Eagle Strike"), item("b", "Orbital Laser"), item("c", "EAGLE STRIKE")];
    assert_eq!(find_stratagem(&items, &Some("b".to_string()), &None), Some(1));
    assert_eq!(find_stratagem(&items, &None, &Some("eagle strike".to_string())), Some(0));
    assert_eq!(find_stratagem(&items, &Some("zz".to_string()), &Some("orbital laser".to_string())), Some(1));
    assert_eq!(find_stratagem(&items, &None, &None), None);
    assert_eq!(
        stratagem_keys(&strs(&["UP", "down", "sideways"])),
        vec![LocalKey::OPEN, LocalKey::UP, LocalKey::DOWN, LocalKey::THROW]
    );
}

#[test]
fn listing_is_filtered_and_capped() {
    let items: Vec<Stratagem> = (0..30).map(|i| item(&i.to_string(), &format!("Eagle {}", i))).collect();
    let all = list_stratagems(&items, &None);
    assert_eq!(all, (0..20).collect::<Vec<usize>>());
    let some = list_stratagems(&items, &Some("EAGLE 2".to_string()));
    assert_eq!(some, vec![2, 20, 21, 22, 23, 24, 25, 26, 27, 28, 29]);
    assert!(list_stratagems(&items, &Some("laser".to_string())).is_empty());
}

#[test]
fn agent_selection_and_prompts() {
    assert_eq!(
        agent_skills(&strs(&["list_stratagems", "fly", "send_key_sequence"])),
        vec![Skill::ListStratagems, Skill::SendKeySequence]
    );
    assert_eq!(build_system_messages("Decide.", "  "), strs(&["Decide."]));
    assert_eq!(build_system_messages("Decide.", "Calm"), strs(&["Decide.", "Persona:\nCalm"]));
    assert_eq!(current_ai_agent(&strs(&["a", "b"]), "b"), Ok(1));
    assert_eq!(current_ai_agent(&strs(&["a", "b"]), "z"), Ok(0));
    assert_eq!(current_ai_agent(&vec![], "a"), Err("No AI agent is configured.".to_string()));
}

#[test]
fn tool_steps_and_results() {
    assert_eq!(tool_step("reply", false), ToolStep::Reply);
    assert_eq!(tool_step("list_stratagems", true), ToolStep::Execute);
    assert_eq!(tool_step("list_stratagems", false), ToolStep::Skip);
    assert_eq!(tool_result_text(ToolStep::Execute, &Ok("done".to_string())), "success: done");
    assert_eq!(tool_result_text(ToolStep::Execute, &Err("bad".to_string())), "failed: bad");
    assert_eq!(tool_result_text(ToolStep::Skip, &Ok(String::new())), "skipped: auto execution is disabled");
    assert_eq!(tool_result_text(ToolStep::Reply, &Ok(String::new())), "reply requested");
    assert_eq!(debug_tool_result_text("reply"), "reply requested");
    assert_eq!(debug_tool_result_text("list_stratagems"), "skipped in debug: would_call_tool 'list_stratagems'");
    assert_eq!(check_decision_call_count(1), Ok(()));
    assert_eq!(
        check_decision_call_count(2),
        Err("Decision model returned 2 tool calls; expected exactly one.".to_string())
    );
    assert_eq!(final_reply_text(" ".to_string(), "streamed".to_string()), "streamed");
    assert_eq!(final_reply_text("full".to_string(), "streamed".to_string()), "full");
    let calls = vec![call("list_stratagems", "{}")];
    assert_eq!(tool_call_name(&calls, "call-1"), "list_stratagems");
    assert_eq!(tool_call_name(&calls, "call-2"), "");
}

#[test]
fn context_window_keeps_recent_events() {
    let events: Vec<AiSessionEvent> = (0..5).map(|i| event("user_transcript", Some(&i.to_string()))).collect();
    let w = context_window(&events, 2);
    assert_eq!(w.len(), 2);
    assert_eq!(w[0].text, Some("3".to_string()));
    assert_eq!(context_window(&events, 0).len(), 1);
    assert_eq!(context_window(&events, 50).len(), 5);
}

#[test]
fn context_messages_pair_tool_calls_with_results() {
    let window = vec![
        ContextEvent { event: event("user_transcript", Some("fire")), tool_call_ids: None },
        ContextEvent { event: event("assistant_tool_calls", Some("[...]")), tool_call_ids: Some(strs(&["c1"])) },
        ContextEvent { event: event("tool_result", Some(r#"{"tool_call_id":"c1","content":"ok"}"#)), tool_call_ids: None },
        ContextEvent { event: event("tool_result", Some(r#"{"tool_call_id":"c1","content":"again"}"#)), tool_call_ids: None },
        ContextEvent { event: event("assistant_tool_calls", Some("[...]")), tool_call_ids: Some(strs(&["c2"])) },
        ContextEvent { event: event("assistant_partial", Some("  ")), tool_call_ids: None },
        ContextEvent { event: event("assistant_final", Some("done")), tool_call_ids: None },
    ];
    let messages = plan_context_messages(&window);
    let shape: Vec<String> = messages
        .iter()
        .map(|m| match m {
            ContextMessage::User(t) => format!("user:{}", t),
            ContextMessage::Assistant(t) => format!("assistant:{}", t),
            ContextMessage::ToolCalls(i) => format!("calls:{}", i),
            ContextMessage::ToolResult(i) => format!("result:{}", i),
        })
        .collect();
    assert_eq!(shape, strs(&["user:fire", "calls:1", "result:2", "assistant:done"]));
}

#[test]
fn sse_frames_and_payloads() {
    let pending: Vec<char> = "data: a\n\ndata: b\n\ndata: c".chars().collect();
    let (events, rest) = frame_pending_events(&pending);
    assert_eq!(events, strs(&["data: a", "data: b"]));
    assert_eq!(rest.iter().collect::<String>(), "data: c");
    assert_eq!(event_payload("data: {\"x\":1}"), Some("{\"x\":1}".to_string()));
    assert_eq!(event_payload("event: ping\ndata: one\ndata:two"), Some("one\ntwo".to_string()));
    assert_eq!(event_payload("data: [DONE]"), None);
    assert_eq!(event_payload(": comment"), None);
}

#[test]
fn stream_accumulator_frames_text_and_assembles_calls() {
    let mut acc = StreamAccumulator::new();
    assert!(acc.push_text("data: one\r\n\r\ndata: tw").len() == 1);
    let events = acc.push_text("o\n\n");
    assert_eq!(events, strs(&["data: two"]));
    let texts = acc.apply_chunk(&vec![ChatDelta {
        content: Some("Hel".to_string()),
        tool_calls: Some(vec![
            ToolCallDelta { index: 1, id: Some("b".to_string()), call_type: None, name: Some("list_".to_string()), arguments: None },
            ToolCallDelta { index: 0, id: Some("a".to_string()), call_type: Some("function".to_string()), name: Some("get_key".to_string()), arguments: Some("{".to_string()) },
        ]),
    }]);
    assert_eq!(texts, strs(&["Hel"]));
    acc.apply_chunk(&vec![
        ChatDelta { content: Some("lo".to_string()), tool_calls: None },
        ChatDelta {
            content: None,
            tool_calls: Some(vec![
                ToolCallDelta { index: 1, id: None, call_type: None, name: Some("stratagems".to_string()), arguments: Some("{}".to_string()) },
                ToolCallDelta { index: 0, id: None, call_type: None, name: Some("_mappings".to_string()), arguments: Some("}".to_string()) },
            ]),
        },
    ]);
    acc.push_text("data: tail");
    assert_eq!(acc.take_remainder(), Some("data: tail".to_string()));
    assert_eq!(acc.take_remainder(), None);
    let result = acc.finish();
    assert_eq!(result.content, "Hello");
    assert_eq!(result.tool_calls.len(), 2);
    assert_eq!(result.tool_calls[0].id, "a");
    assert_eq!(result.tool_calls[0].function.name, "get_key_mappings");
    assert_eq!(result.tool_calls[0].function.arguments, "{}");
    assert_eq!(result.tool_calls[1].id, "b");
    assert_eq!(result.tool_calls[1].call_type, "function");
    assert_eq!(result.tool_calls[1].function.name, "list_stratagems");
}

#[test]
fn framing_loses_nothing() {
    let text = "data: a\n\n\n\ndata: b\n\nrest";
    let pending: Vec<char> = text.chars().collect();
    let (events, rest) = frame_pending_events(&pending);
    let mut rebuilt = String::new();
    for e in &events {
        rebuilt.push_str(e);
        rebuilt.push_str("\n\n");
    }
    rebuilt.extend(rest.iter());
    assert_eq!(rebuilt, text);
    assert_eq!(events, strs(&["data: a", "", "data: b"]));
}

#[test]
fn speech_and_debug_inputs_are_checked() {
    assert_eq!(tts_input_text("  hello "), Ok("hello".to_string()));
    assert_eq!(tts_input_text(" \n"), Err("AI TTS input text is empty.".to_string()));
    assert_eq!(check_llm_debug_input("hi"), Ok(()));
    assert_eq!(check_llm_debug_input("  "), Err("LLM debug input text is empty.".to_string()));
    assert_eq!(check_tts_debug_input("hi", true), Ok(()));
    assert_eq!(check_tts_debug_input("", false), Err("TTS debug input text is empty.".to_string()));
    assert_eq!(check_tts_debug_input("hi", false), Err("TTS is disabled in AI speech settings.".to_string()));
}

#[test]
fn stratagem_calls_resolve_to_a_macro() {
    let items = vec![item("a", "Eagle Strike"), item("b", "Orbital Laser")];
    let (k, keys) = plan_stratagem_call(&items, &None, &Some("ORBITAL LASER".to_string())).expect("found");
    assert_eq!(k, 1);
    assert_eq!(keys, vec![LocalKey::OPEN, LocalKey::UP, LocalKey::DOWN, LocalKey::THROW]);
    assert_eq!(
        plan_stratagem_call(&items, &Some("zz".to_string()), &None).unwrap_err(),
        "Requested stratagem was not found in the local catalog."
    );
}

#[test]
fn blank_api_keys_are_refused() {
    assert_eq!(request_api_key("  sk-123 "), Ok("sk-123".to_string()));
    assert_eq!(
        request_api_key(" "),
        Err("AI API key is empty. Please fill it in Global Settings.".to_string())
    );
}

#[test]
fn tool_requests_are_read_from_argument_members() {
    let r = tool_request_from_members(
        "send_key_sequence",
        JsonMember::Items(vec![Some("UP".to_string()), None, Some("bogus".to_string()), Some("OPEN".to_string())]),
        JsonMember::Absent,
        JsonMember::Absent,
        JsonMember::Absent,
    );
    assert!(matches!(r, Ok(ToolRequest::SendKeys(ref k)) if *k == vec![LocalKey::UP, LocalKey::OPEN]));
    let r = tool_request_from_members("send_key_sequence", JsonMember::Text("UP".to_string()), JsonMember::Absent, JsonMember::Absent, JsonMember::Absent);
    assert_eq!(r.err(), Some("send_key_sequence requires a keys array.".to_string()));
    let r = tool_request_from_members("execute_stratagem", JsonMember::Absent, JsonMember::Text("id1".to_string()), JsonMember::Other, JsonMember::Absent);
    assert!(matches!(r, Ok(ToolRequest::ExecuteStratagem { ref id, ref name }) if *id == Some("id1".to_string()) && name.is_none()));
    let r = tool_request_from_members("list_stratagems", JsonMember::Invalid("bad".to_string()), JsonMember::Absent, JsonMember::Absent, JsonMember::Absent);
    assert_eq!(r.err(), Some("Failed to parse tool arguments for list_stratagems: bad".to_string()));
    let r = tool_request_from_members("dance", JsonMember::Absent, JsonMember::Absent, JsonMember::Absent, JsonMember::Absent);
    assert_eq!(r.err(), Some("Unsupported tool 'dance'.".to_string()));
}
