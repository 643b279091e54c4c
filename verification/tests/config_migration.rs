use hellcall_core::config::{
    llm_provider_to_stage, sanitize_ai_context_event_count, sanitize_ai_provider_id,
    AiLlmConfig, AiLlmProviderConfig, AiLlmProviderKind, AiLlmStageConfig, AppMode,
    MicrophoneConfig, TalkMode, TriggerConfig,
};
use hellcall_core::migration::{
    decode_provider_value, legacy_agent_chat_model, migrate_legacy_ai_config,
    load_config_document, migrate_legacy_microphone_config, provider_from_legacy_llm,
    upgrade_config_document,
};
use hellcall_core::toml_tree::{
    merge_toml_values, parse_toml_document, str_eq, TomlArray, TomlTable, TomlValue,
};

fn s(v: &str) -> TomlValue {
    TomlValue::String(v.to_string())
}

fn tbl(entries: Vec<(&str, TomlValue)>) -> TomlValue {
    TomlValue::Table(table(entries))
}

fn table(entries: Vec<(&str, TomlValue)>) -> TomlTable {
    let mut t = TomlTable::Nil;
    for (k, v) in entries {
        t = t.set(k.to_string(), v);
    }
    t
}

fn arr(items: Vec<TomlValue>) -> TomlValue {
    let mut a = TomlArray::Nil;
    for v in items.into_iter().rev() {
        a = TomlArray::Cons(Box::new(v), Box::new(a));
    }
    TomlValue::Array(a)
}

fn at<'a>(v: &'a TomlValue, path: &[&str]) -> Option<&'a TomlValue> {
    let mut cur = v;
    for key in path {
        match cur {
            TomlValue::Table(t) => cur = t.get(key)?,
            _ => return None,
        }
    }
    Some(cur)
}

fn text_at(v: &TomlValue, path: &[&str]) -> Option<String> {
    match at(v, path) {
        Some(TomlValue::String(x)) => Some(x.clone()),
        _ => None,
    }
}

fn flag_at(v: &TomlValue, path: &[&str]) -> Option<bool> {
    match at(v, path) {
        Some(TomlValue::Boolean(b)) => Some(*b),
        _ => None,
    }
}

fn int_at(v: &TomlValue, path: &[&str]) -> Option<i64> {
    match at(v, path) {
        Some(TomlValue::Integer(i)) => Some(*i),
        _ => None,
    }
}

fn items_at<'a>(v: &'a TomlValue, path: &[&str]) -> Vec<&'a TomlValue> {
    let mut out = Vec::new();
    if let Some(TomlValue::Array(a)) = at(v, path) {
        let mut cur = a;
        while let TomlArray::Cons(x, rest) = cur {
            out.push(&**x);
            cur = &**rest;
        }
    }
    out
}

fn provider(id: &str, model: &str) -> TomlValue {
    tbl(vec![
        ("id", s(id)),
        ("name", s(id)),
        ("kind", s("openai_compatible")),
        ("base_url", s("https://example.test/v1")),
        ("api_key", s("k")),
        ("chat_model", s(model)),
        ("is_builtin", TomlValue::Boolean(false)),
    ])
}

#[test]
fn defaults_of_settings() {
    assert_eq!(AppMode::default(), AppMode::VoiceCommand);
    assert_eq!(TalkMode::default(), TalkMode::VoiceActivation);
    assert_eq!(AiLlmProviderKind::default(), AiLlmProviderKind::SiliconFlow);
    assert!(!MicrophoneConfig::default().enable_denoise);
    let t = TriggerConfig::default();
    assert!(t.hit_word.is_none() && t.hit_word_grammar.is_none());
    let llm = AiLlmConfig::default();
    assert!(llm.enabled && llm.reply_enabled);
    assert_eq!(llm.context_event_count, 12);
    assert_eq!(llm.decision.base_url, "https://api.siliconflow.cn/v1");
    assert_eq!(llm.reply.chat_model, "deepseek-ai/DeepSeek-V3.2");
}

#[test]
fn builtin_provider_values() {
    let p = AiLlmProviderConfig::builtin_siliconflow();
    assert_eq!(p.id, "siliconflow");
    assert_eq!(p.name, "SiliconFlow");
    assert_eq!(p.kind, AiLlmProviderKind::SiliconFlow);
    assert_eq!(p.base_url, "https://api.siliconflow.cn/v1");
    assert_eq!(p.api_key, "");
    assert_eq!(p.chat_model, "deepseek-ai/DeepSeek-V3.2");
    assert!(p.is_builtin);
    assert_eq!(AiLlmProviderConfig::default().id, "siliconflow");
}

#[test]
fn runtime_provider_uses_builtin_url_for_siliconflow() {
    let stage = AiLlmStageConfig {
        kind: AiLlmProviderKind::SiliconFlow,
        base_url: "https://elsewhere.test".to_string(),
        api_key: "key".to_string(),
        chat_model: "  ".to_string(),
    };
    let p = stage.runtime_provider("decision", "Decision");
    assert_eq!(p.id, "decision");
    assert_eq!(p.name, "Decision");
    assert_eq!(p.base_url, "https://api.siliconflow.cn/v1");
    assert_eq!(p.chat_model, "deepseek-ai/DeepSeek-V3.2");
    assert_eq!(p.api_key, "key");
    assert!(!p.is_builtin);

    let custom = AiLlmStageConfig {
        kind: AiLlmProviderKind::OpenAiCompatible,
        base_url: "https://elsewhere.test".to_string(),
        api_key: String::new(),
        chat_model: "m".to_string(),
    };
    let q = custom.runtime_provider("reply", "Reply");
    assert_eq!(q.base_url, "https://elsewhere.test");
    assert_eq!(q.chat_model, "m");
}

#[test]
fn provider_to_stage_overrides_model_unless_blank() {
    let stage = llm_provider_to_stage(AiLlmProviderConfig::builtin_siliconflow(), Some("x".to_string()));
    assert_eq!(stage.chat_model, "x");
    let stage = llm_provider_to_stage(AiLlmProviderConfig::builtin_siliconflow(), Some(" \t".to_string()));
    assert_eq!(stage.chat_model, "deepseek-ai/DeepSeek-V3.2");
    let stage = llm_provider_to_stage(AiLlmProviderConfig::builtin_siliconflow(), None);
    assert_eq!(stage.chat_model, "deepseek-ai/DeepSeek-V3.2");
    assert_eq!(stage.kind, AiLlmProviderKind::SiliconFlow);
}

#[test]
fn context_event_count_is_sanitized() {
    for v in [4usize, 8, 12, 20, 50] {
        assert_eq!(sanitize_ai_context_event_count(v), v);
    }
    assert_eq!(sanitize_ai_context_event_count(0), 12);
    assert_eq!(sanitize_ai_context_event_count(13), 12);
    assert_eq!(sanitize_ai_context_event_count(usize::MAX), 12);
}

#[test]
fn provider_id_is_sanitized() {
    assert_eq!(sanitize_ai_provider_id("My Provider!"), "my-provider");
    assert_eq!(sanitize_ai_provider_id("--Open_AI--"), "open_ai");
    assert_eq!(sanitize_ai_provider_id("中文"), "");
    assert_eq!(sanitize_ai_provider_id("a.b"), "a-b");
}

#[test]
fn merge_keeps_base_entries_and_takes_old_values_of_same_type() {
    let base = tbl(vec![
        ("a", TomlValue::Integer(1)),
        ("b", s("x")),
        ("list", arr(vec![TomlValue::Integer(1), TomlValue::Integer(2)])),
        ("nested", tbl(vec![("keep", TomlValue::Boolean(true))])),
    ]);
    let old = tbl(vec![
        ("a", TomlValue::Integer(2)),
        ("b", TomlValue::Integer(3)),
        ("c", TomlValue::Boolean(true)),
        ("list", arr(vec![TomlValue::Integer(9)])),
        ("nested", tbl(vec![("extra", s("e"))])),
    ]);
    let merged = merge_toml_values(base, &old);
    assert_eq!(int_at(&merged, &["a"]), Some(2));
    assert_eq!(text_at(&merged, &["b"]), Some("x".to_string()));
    assert_eq!(flag_at(&merged, &["c"]), Some(true));
    assert_eq!(items_at(&merged, &["list"]).len(), 1);
    assert_eq!(flag_at(&merged, &["nested", "keep"]), Some(true));
    assert_eq!(text_at(&merged, &["nested", "extra"]), Some("e".to_string()));
}

#[test]
fn merge_of_different_kinds_keeps_base() {
    let merged = merge_toml_values(TomlValue::Integer(1), &s("x"));
    assert!(matches!(merged, TomlValue::Integer(1)));
    let merged = merge_toml_values(TomlValue::Float(7), &TomlValue::Float(9));
    assert!(matches!(merged, TomlValue::Float(9)));
}

#[test]
fn table_get_and_set() {
    let t = table(vec![("a", TomlValue::Integer(1)), ("b", TomlValue::Integer(2))]);
    let t = t.set("a".to_string(), TomlValue::Integer(5));
    assert!(matches!(t.get("a"), Some(TomlValue::Integer(5))));
    assert!(matches!(t.get("b"), Some(TomlValue::Integer(2))));
    assert!(t.get("c").is_none());
    assert!(str_eq("abc", "abc"));
    assert!(!str_eq("abc", "abd"));
}

#[test]
fn legacy_denoise_moves_to_microphone() {
    let mut base = tbl(vec![("other", TomlValue::Integer(1))]);
    let old = tbl(vec![("recognizer", tbl(vec![("enable_denoise", TomlValue::Boolean(true))]))]);
    migrate_legacy_microphone_config(&mut base, &old);
    assert_eq!(flag_at(&base, &["microphone", "enable_denoise"]), Some(true));
    assert_eq!(int_at(&base, &["other"]), Some(1));
}

#[test]
fn legacy_denoise_does_not_switch_off_microphone_denoise() {
    let mut base = tbl(vec![("microphone", tbl(vec![("enable_denoise", TomlValue::Boolean(true))]))]);
    let old = tbl(vec![("recognizer", tbl(vec![("enable_denoise", TomlValue::Boolean(false))]))]);
    migrate_legacy_microphone_config(&mut base, &old);
    assert_eq!(flag_at(&base, &["microphone", "enable_denoise"]), Some(true));

    let mut off = tbl(vec![("microphone", tbl(vec![("enable_denoise", TomlValue::Boolean(false))]))]);
    let on = tbl(vec![("recognizer", tbl(vec![("enable_denoise", TomlValue::Boolean(true))]))]);
    migrate_legacy_microphone_config(&mut off, &on);
    assert_eq!(flag_at(&off, &["microphone", "enable_denoise"]), Some(true));
}

#[test]
fn microphone_migration_without_legacy_switch_changes_nothing() {
    let mut base = tbl(vec![("microphone", tbl(vec![]))]);
    let old = tbl(vec![("recognizer", tbl(vec![("enable_denoise", s("yes"))]))]);
    migrate_legacy_microphone_config(&mut base, &old);
    assert_eq!(flag_at(&base, &["microphone", "enable_denoise"]), None);
}

#[test]
fn agent_model_prefers_the_default_agent() {
    let old_ai = table(vec![
        ("default_agent_id", s("b")),
        (
            "agents",
            arr(vec![
                tbl(vec![("id", s("a")), ("reply_chat_model", s("m1"))]),
                tbl(vec![("id", s("b")), ("reply_chat_model", s("  m2 "))]),
            ]),
        ),
    ]);
    assert_eq!(legacy_agent_chat_model(&old_ai, "reply_chat_model"), Some("m2".to_string()));
    assert_eq!(legacy_agent_chat_model(&old_ai, "decision_chat_model"), None);
}

#[test]
fn agent_model_falls_back_to_first_agent_naming_one() {
    let old_ai = table(vec![
        ("default_agent_id", s("b")),
        (
            "agents",
            arr(vec![
                tbl(vec![("id", s("a")), ("reply_chat_model", s(" "))]),
                tbl(vec![("id", s("c")), ("reply_chat_model", s("m3"))]),
                tbl(vec![("id", s("b"))]),
            ]),
        ),
    ]);
    assert_eq!(legacy_agent_chat_model(&old_ai, "reply_chat_model"), Some("m3".to_string()));
}

#[test]
fn provider_is_decoded_from_a_table_with_defaults() {
    let p = decode_provider_value(&tbl(vec![("id", s("custom"))])).expect("decodes");
    assert_eq!(p.id, "custom");
    assert_eq!(p.name, "SiliconFlow");
    assert_eq!(p.kind, AiLlmProviderKind::SiliconFlow);
    assert!(p.is_builtin);
    assert!(decode_provider_value(&tbl(vec![("id", TomlValue::Integer(3))])).is_none());
    assert!(decode_provider_value(&tbl(vec![("kind", s("other"))])).is_none());
    assert!(decode_provider_value(&TomlValue::Integer(1)).is_none());
    let q = decode_provider_value(&arr(vec![s("x"), s("X"), s("openai_compatible")])).expect("decodes");
    assert_eq!(q.id, "x");
    assert_eq!(q.kind, AiLlmProviderKind::OpenAiCompatible);
    let unit_kind = tbl(vec![("kind", tbl(vec![("openai_compatible", tbl(vec![]))]))]);
    assert_eq!(decode_provider_value(&unit_kind).expect("decodes").kind, AiLlmProviderKind::OpenAiCompatible);
}

#[test]
fn legacy_llm_provider_selection() {
    let llm = table(vec![
        ("providers", arr(vec![provider("p1", "m1"), provider("p2", "m2")])),
        ("decision_provider_id", s("p2")),
        ("selected_provider_id", s("p1")),
    ]);
    assert_eq!(provider_from_legacy_llm(&llm, "decision_provider_id").expect("found").id, "p2");
    assert_eq!(provider_from_legacy_llm(&llm, "reply_provider_id").expect("found").id, "p1");
    let unknown = table(vec![
        ("providers", arr(vec![provider("p1", "m1"), provider("p2", "m2")])),
        ("decision_provider_id", s("zz")),
    ]);
    assert_eq!(provider_from_legacy_llm(&unknown, "decision_provider_id").expect("first").id, "p1");
    assert!(provider_from_legacy_llm(&table(vec![]), "decision_provider_id").is_none());
}

#[test]
fn flat_legacy_ai_fields_become_llm_stages() {
    let mut base = tbl(vec![]);
    let old = tbl(vec![(
        "ai",
        tbl(vec![
            ("provider", s("My Provider")),
            ("base_url", s(" https://legacy.test/v1 ")),
            ("api_key", s("secret")),
            ("default_chat_model", s("legacy-model")),
            ("agents", arr(vec![tbl(vec![("decision_chat_model", s("decider"))])])),
        ]),
    )]);
    migrate_legacy_ai_config(&mut base, &old);
    assert_eq!(text_at(&base, &["ai", "llm", "decision", "kind"]), Some("openai_compatible".to_string()));
    assert_eq!(text_at(&base, &["ai", "llm", "decision", "base_url"]), Some("https://legacy.test/v1".to_string()));
    assert_eq!(text_at(&base, &["ai", "llm", "decision", "api_key"]), Some("secret".to_string()));
    assert_eq!(text_at(&base, &["ai", "llm", "decision", "chat_model"]), Some("decider".to_string()));
    assert_eq!(text_at(&base, &["ai", "llm", "reply", "chat_model"]), Some("legacy-model".to_string()));
    assert_eq!(int_at(&base, &["ai", "llm", "context_event_count"]), Some(12));
    assert_eq!(flag_at(&base, &["ai", "llm", "enabled"]), Some(true));
}

#[test]
fn legacy_llm_section_selects_stage_providers_and_sanitizes_count() {
    let mut base = tbl(vec![(
        "ai",
        tbl(vec![("llm", tbl(vec![("context_event_count", TomlValue::Integer(7))]))]),
    )]);
    let old = tbl(vec![(
        "ai",
        tbl(vec![(
            "llm",
            tbl(vec![
                ("providers", arr(vec![provider("p1", "m1"), provider("p2", "m2")])),
                ("reply_provider_id", s("p2")),
            ]),
        )]),
    )]);
    migrate_legacy_ai_config(&mut base, &old);
    assert_eq!(int_at(&base, &["ai", "llm", "context_event_count"]), Some(12));
    assert_eq!(text_at(&base, &["ai", "llm", "reply", "chat_model"]), Some("m2".to_string()));
    assert_eq!(text_at(&base, &["ai", "llm", "decision", "chat_model"]), Some("m1".to_string()));
}

#[test]
fn legacy_agent_prompts_and_tts_switch_are_migrated() {
    let mut base = tbl(vec![(
        "ai",
        tbl(vec![(
            "agents",
            arr(vec![tbl(vec![("system_prompt", s("be brief")), ("chat_model", s("cm"))])]),
        )]),
    )]);
    let old = tbl(vec![("ai", tbl(vec![("tts_enabled", TomlValue::Boolean(true))]))]);
    migrate_legacy_ai_config(&mut base, &old);
    let agents = items_at(&base, &["ai", "agents"]);
    assert_eq!(agents.len(), 1);
    assert_eq!(text_at(agents[0], &["persona_prompt"]), Some("be brief".to_string()));
    assert_eq!(text_at(agents[0], &["reply_chat_model"]), Some("cm".to_string()));
    assert_eq!(flag_at(&base, &["ai", "speech", "tts", "enabled"]), Some(true));
    assert_eq!(text_at(&base, &["ai", "speech", "tts", "model_id"]), Some("vits-melo-tts-zh_en".to_string()));
}

#[test]
fn ai_migration_without_legacy_ai_table_changes_nothing() {
    let mut base = tbl(vec![("ai", tbl(vec![("x", TomlValue::Integer(1))]))]);
    migrate_legacy_ai_config(&mut base, &tbl(vec![("ai", s("not a table"))]));
    assert_eq!(int_at(&base, &["ai", "x"]), Some(1));
    assert!(at(&base, &["ai", "llm"]).is_none());
}

#[test]
fn upgrade_merges_then_migrates() {
    let default_doc = tbl(vec![
        ("microphone", tbl(vec![("enable_denoise", TomlValue::Boolean(false))])),
        ("version", TomlValue::Integer(2)),
    ]);
    let old = tbl(vec![
        ("recognizer", tbl(vec![("enable_denoise", TomlValue::Boolean(true))])),
        ("version", TomlValue::Integer(1)),
        ("ai", tbl(vec![("tts_enabled", TomlValue::Boolean(false))])),
    ]);
    let doc = upgrade_config_document(default_doc, &old);
    assert_eq!(flag_at(&doc, &["microphone", "enable_denoise"]), Some(true));
    assert_eq!(int_at(&doc, &["version"]), Some(1));
    assert_eq!(flag_at(&doc, &["ai", "speech", "tts", "enabled"]), Some(false));
}

#[test]
fn merge_keeps_user_values_of_matching_type_for_every_shared_key() {
    let base = tbl(vec![
        ("volume", TomlValue::Integer(50)),
        ("name", s("default")),
        ("enabled", TomlValue::Boolean(true)),
        ("mode", s("VoiceActivation")),
    ]);
    let old = tbl(vec![
        ("volume", TomlValue::Integer(80)),
        ("name", TomlValue::Boolean(false)),
        ("enabled", TomlValue::Boolean(false)),
        ("mode", s("PushToTalk")),
    ]);
    let merged = merge_toml_values(base, &old);
    assert_eq!(int_at(&merged, &["volume"]), Some(80));
    assert_eq!(text_at(&merged, &["name"]), Some("default".to_string()));
    assert_eq!(flag_at(&merged, &["enabled"]), Some(false));
    assert_eq!(text_at(&merged, &["mode"]), Some("PushToTalk".to_string()));
}

#[test]
fn provider_id_sanitized_twice_is_unchanged() {
    let once = sanitize_ai_provider_id("  My Provider!! ");
    assert_eq!(once, "my-provider");
    assert_eq!(sanitize_ai_provider_id(&once), once);
    let other = sanitize_ai_provider_id("Silicon_Flow-2");
    assert_eq!(other, "silicon_flow-2");
    assert_eq!(sanitize_ai_provider_id(&other), other);
}

#[test]
fn context_event_count_sanitized_twice_is_unchanged() {
    for value in [0usize, 4, 7, 12, 50, 51, usize::MAX] {
        let once = sanitize_ai_context_event_count(value);
        assert_eq!(sanitize_ai_context_event_count(once), once);
    }
    assert_eq!(sanitize_ai_context_event_count(7), 12);
    assert_eq!(sanitize_ai_context_event_count(50), 50);
}

#[test]
fn toml_text_is_parsed_into_the_tree() {
    let doc = parse_toml_document("a = 5\nname = \"x\"\n[section]\nflag = true\nlist = [1, 2]\n").unwrap();
    assert_eq!(int_at(&doc, &["a"]), Some(5));
    assert_eq!(text_at(&doc, &["name"]), Some("x".to_string()));
    assert_eq!(flag_at(&doc, &["section", "flag"]), Some(true));
    assert_eq!(items_at(&doc, &["section", "list"]).len(), 2);
    assert!(parse_toml_document("a = = 1").is_none());
    assert!(parse_toml_document("a = 1\na = 2\n").is_none());
}

#[test]
fn settings_text_is_merged_and_migrated() {
    let defaults = || {
        tbl(vec![
            ("a", TomlValue::Integer(1)),
            ("b", s("x")),
            ("ai", tbl(vec![("agents", arr(vec![]))])),
        ])
    };
    assert!(load_config_document(defaults(), "not toml [").is_none());
    let doc = load_config_document(
        defaults(),
        "a = 7\nb = 3\n[ai]\nagents = [{ system_prompt = \"be brief\", chat_model = \"cm\" }]\n",
    )
    .unwrap();
    assert_eq!(int_at(&doc, &["a"]), Some(7));
    assert_eq!(text_at(&doc, &["b"]), Some("x".to_string()));
    let agents = items_at(&doc, &["ai", "agents"]);
    assert_eq!(agents.len(), 1);
    assert_eq!(text_at(agents[0], &["persona_prompt"]), Some("be brief".to_string()));
    assert_eq!(text_at(agents[0], &["reply_chat_model"]), Some("cm".to_string()));
}

#[test]
fn merging_twice_changes_nothing() {
    let base = || {
        tbl(vec![
            ("a", TomlValue::Integer(1)),
            ("nested", tbl(vec![("keep", TomlValue::Boolean(true)), ("n", TomlValue::Integer(1))])),
        ])
    };
    let old = tbl(vec![
        ("a", s("wrong kind")),
        ("nested", tbl(vec![("n", TomlValue::Integer(4)), ("extra", s("e"))])),
        ("new", TomlValue::Integer(9)),
    ]);
    let once = merge_toml_values(base(), &old);
    let twice = merge_toml_values(merge_toml_values(base(), &old), &old);
    assert_eq!(render(&once), render(&twice));
    assert_eq!(int_at(&twice, &["a"]), Some(1));
    assert_eq!(int_at(&twice, &["nested", "n"]), Some(4));
    assert_eq!(int_at(&twice, &["new"]), Some(9));
}

#[test]
fn agent_migration_keeps_existing_keys() {
    let mut base = tbl(vec![(
        "ai",
        tbl(vec![(
            "agents",
            arr(vec![tbl(vec![
                ("system_prompt", s("old")),
                ("persona_prompt", s("kept")),
                ("chat_model", s("cm")),
            ])]),
        )]),
    )]);
    let old = tbl(vec![("ai", tbl(vec![("tts_enabled", TomlValue::Boolean(false))]))]);
    migrate_legacy_ai_config(&mut base, &old);
    let agents = items_at(&base, &["ai", "agents"]);
    assert_eq!(text_at(agents[0], &["persona_prompt"]), Some("kept".to_string()));
    assert_eq!(text_at(agents[0], &["system_prompt"]), Some("old".to_string()));
    assert_eq!(text_at(agents[0], &["reply_chat_model"]), Some("cm".to_string()));
}

fn render(v: &TomlValue) -> String {
    match v {
        TomlValue::String(x) => format!("{:?}", x),
        TomlValue::Integer(i) => i.to_string(),
        TomlValue::Float(f) => format!("f{}", f),
        TomlValue::Boolean(b) => b.to_string(),
        TomlValue::Datetime(d) => format!("d{}", d),
        TomlValue::Array(a) => {
            let mut out = String::from("[");
            let mut cur = a;
            while let TomlArray::Cons(item, rest) = cur {
                out.push_str(&render(item));
                out.push(',');
                cur = rest;
            }
            out + "]"
        }
        TomlValue::Table(t) => {
            let mut out = String::from("{");
            let mut cur = t;
            while let TomlTable::Cons(k, item, rest) = cur {
                out.push_str(&format!("{}={},", k, render(item)));
                cur = rest;
            }
            out + "}"
        }
    }
}
