use std::cell::Cell;

use hellcall_core::config::TriggerConfig;
use hellcall_core::keys::{LocalKey, MacroError};
use hellcall_core::recognition::{
    arrow_keys, build_recognition_grammar, check_commands, command_effect, command_text_of,
    engine_setup_error_message,
    normalize_hit_word,
    resolve_audio_dir, resolve_input_device_name, shortcuts_of, Command, CommandEntry,
    CommandIndex, EngineSetupError, LevenshteinMatcher,
};

fn entry(command: &str, grammar: Option<&str>, keys: Vec<LocalKey>, shortcut: Option<u64>) -> CommandEntry {
    CommandEntry {
        command: command.to_string(),
        grammar: grammar.map(|g| g.to_string()),
        keys,
        audio_files: vec![],
        shortcut,
    }
}

#[test]
fn command_runs_the_last_action_bound_to_a_name() {
    let hits = Cell::new(0u32);
    let first = || hits.set(hits.get() + 1);
    let second = || hits.set(hits.get() + 10);
    let cmds: Command<&dyn Fn()> = Command::new(vec![
        ("fire".to_string(), &first as &dyn Fn()),
        ("fire".to_string(), &second as &dyn Fn()),
    ]);
    assert_eq!(cmds.names(), vec!["fire".to_string()]);
    assert!(cmds.execute("fire"));
    assert_eq!(hits.get(), 10);
    assert!(!cmds.execute("reload"));
    assert_eq!(hits.get(), 10);
}

#[test]
fn matcher_cache_remembers_the_latest_match() {
    let mut m = LevenshteinMatcher::new(vec!["open fire".to_string(), "reload".to_string()]);
    assert_eq!(m.dict().len(), 2);
    assert_eq!(m.cached("openfire"), None);
    m.remember("openfire", "open fire".to_string());
    m.remember("openfire", "reload".to_string());
    assert_eq!(m.cached("openfire"), Some("reload".to_string()));
    assert_eq!(m.cached("other"), None);
}

#[test]
fn recognition_grammar_collects_command_and_wake_word_phrases() {
    let cmds = vec![
        entry("快速开火", None, vec![LocalKey::UP], None),
        entry("open fire", Some("  open   fire "), vec![LocalKey::UP], None),
        entry("  ", Some(" "), vec![LocalKey::UP], None),
    ];
    let trigger = TriggerConfig { hit_word: Some("指挥官".to_string()), hit_word_grammar: None };
    assert_eq!(
        build_recognition_grammar(&cmds, &trigger),
        vec!["快 速 开 火".to_string(), "open fire".to_string(), "指 挥 官".to_string()]
    );
    let own = TriggerConfig { hit_word: Some("x".to_string()), hit_word_grammar: Some("hey  there".to_string()) };
    assert_eq!(build_recognition_grammar(&vec![], &own), vec!["hey there".to_string()]);
    assert_eq!(build_recognition_grammar(&vec![], &TriggerConfig::default()), Vec::<String>::new());
}

#[test]
fn command_index_leads_keys_back_to_the_first_name() {
    let names = vec!["Open Fire".to_string(), "open  fire".to_string(), "  ".to_string(), "Reload".to_string()];
    let index = CommandIndex::new(&names);
    assert_eq!(
        index.dict(),
        vec!["openfire".to_string(), "openfire".to_string(), "reload".to_string()]
    );
    assert_eq!(index.original("openfire"), Some("Open Fire".to_string()));
    assert_eq!(index.original("reload"), Some("Reload".to_string()));
    assert_eq!(index.original(""), None);
    assert_eq!(index.original("missing"), None);
}

#[test]
fn wake_word_is_normalized() {
    assert_eq!(normalize_hit_word(&Some(" Hey  Commander ".to_string())), Some("heycommander".to_string()));
    assert_eq!(normalize_hit_word(&Some("   ".to_string())), None);
    assert_eq!(normalize_hit_word(&None), None);
}

#[test]
fn command_text_follows_the_last_wake_word() {
    assert_eq!(command_text_of("  ", &None), None);
    assert_eq!(command_text_of(" Open Fire ", &None), Some("openfire".to_string()));
    let hit = Some("hey".to_string());
    assert_eq!(command_text_of("Hey reload hey Open Fire", &hit), Some("openfire".to_string()));
    assert_eq!(command_text_of("open fire", &hit), None);
    assert_eq!(command_text_of("open fire hey", &hit), Some(String::new()));
}

#[test]
fn command_checks_report_the_first_problem() {
    assert_eq!(check_commands(&vec![]), Err(EngineSetupError::NoCommands));
    assert_eq!(
        check_commands(&vec![entry("", None, vec![LocalKey::UP], None)]),
        Err(EngineSetupError::EmptyCommand)
    );
    assert_eq!(
        check_commands(&vec![
            entry("a", None, vec![LocalKey::UP], None),
            entry("b", None, vec![], None),
            entry("", None, vec![LocalKey::UP], None),
        ]),
        Err(EngineSetupError::InvalidMacro(MacroError::Empty))
    );
    assert_eq!(
        check_commands(&vec![entry("a", None, vec![LocalKey::OPEN, LocalKey::UP, LocalKey::THROW], None)]),
        Ok(())
    );
}

#[test]
fn shortcuts_keep_command_order() {
    let cmds = vec![
        entry("a", None, vec![LocalKey::UP], Some(5)),
        entry("b", None, vec![LocalKey::DOWN], None),
        entry("c", None, vec![LocalKey::LEFT], Some(5)),
    ];
    let s = shortcuts_of(&cmds);
    assert_eq!(s.entries, vec![(5, vec![LocalKey::UP]), (5, vec![LocalKey::LEFT])]);
    assert_eq!(s.lookup(5), Some(vec![LocalKey::LEFT]));
}

#[test]
fn audio_dir_and_input_device_defaults() {
    assert_eq!(resolve_audio_dir(None), "audio");
    assert_eq!(resolve_audio_dir(Some(String::new())), "audio");
    assert_eq!(resolve_audio_dir(Some("sounds".to_string())), "sounds");
    assert_eq!(resolve_input_device_name(None), None);
    assert_eq!(resolve_input_device_name(Some(" \t".to_string())), None);
    assert_eq!(resolve_input_device_name(Some(" Mic 1".to_string())), Some(" Mic 1".to_string()));
}

#[test]
fn arrow_names_become_direction_keys() {
    let names = vec!["UP".to_string(), "left".to_string(), "RIGHT".to_string(), "DOWN".to_string()];
    assert_eq!(arrow_keys(&names), vec![LocalKey::UP, LocalKey::RIGHT, LocalKey::DOWN]);
}

#[test]
fn command_effect_sends_the_macro_and_picks_a_sound() {
    let mut cmd = entry("fire", None, vec![LocalKey::OPEN, LocalKey::UP, LocalKey::THROW], None);
    let (keys, sound) = command_effect(&cmd);
    assert_eq!(keys, vec![LocalKey::OPEN, LocalKey::UP, LocalKey::THROW]);
    assert_eq!(sound, None);
    cmd.audio_files = vec!["normal_reply.wav".to_string()];
    assert_eq!(command_effect(&cmd).1, Some("normal_reply.wav".to_string()));
    cmd.audio_files = vec!["a.wav".to_string(), "b.wav".to_string()];
    for _ in 0..20 {
        let picked = command_effect(&cmd).1.expect("a sound is picked");
        assert!(picked == "a.wav" || picked == "b.wav");
    }
}

#[test]
fn commands_keep_exactly_the_names_they_were_given() {
    let noop = || {};
    let cmds: Command<&dyn Fn()> = Command::new(vec![
        ("fire".to_string(), &noop as &dyn Fn()),
        ("reload".to_string(), &noop as &dyn Fn()),
        ("fire".to_string(), &noop as &dyn Fn()),
    ]);
    let mut names = cmds.names();
    names.sort();
    assert_eq!(names, vec!["fire".to_string(), "reload".to_string()]);
}

#[test]
fn engine_setup_errors_have_their_messages() {
    assert_eq!(engine_setup_error_message(EngineSetupError::NoCommands), "at least one command must be configured");
    assert_eq!(engine_setup_error_message(EngineSetupError::EmptyCommand), "command must not be empty");
    assert_eq!(
        engine_setup_error_message(EngineSetupError::InvalidMacro(hellcall_core::keys::MacroError::OpenNotFirst)),
        "OPEN key must be the first key"
    );
}
