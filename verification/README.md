# hellcall_core

The logic of Hellcall Desktop, a voice-controlled macro tool for calling
stratagems in Helldivers 2, written in Verus with its behaviour stated in
`requires`/`ensures` contracts and proved.

## Layout

- `src/text.rs`: words, recognition grammars and matching keys of phrases.
- `src/keys.rs`: logical keys, key maps, macro validity, the key press plan
  of a macro and the queue of macros waiting for the stratagem menu.
- `src/toml_tree.rs`, `src/migration.rs`: the settings document as a TOML
  tree parsed from the settings file's text, merging an older document
  into the current defaults, and the migration of legacy settings.
- `src/config.rs`: settings types, their defaults and sanitizing rules.
- `src/recognition.rs`: voice commands, the recognition grammar, the
  command dictionary of the fuzzy matcher and what a recognized phrase
  triggers.
- `src/speech.rs`: voice activity, push-to-talk, the audio kept from before
  speech, and sample buffers.
- `src/stratagems.rs`: reading the stratagem catalog from the wiki's
  content and the ids of stratagems.
- `src/wiki_dom.rs`: the parsed HTML page as a list of nodes, and the
  content blocks the stratagem catalog is read from.
- `src/download_flow.rs`: the download of an asset as a state machine
  from stage and event to next stage and action.
- `src/assets.rs`: model lists, download requests and addresses, progress,
  and archive entry paths.
- `src/ai.rs`, `src/sessions.rs`: the assistant's tool calls, prompts,
  streamed replies and sessions.
- `src/chat_flow.rs`: the assistant's turn as a state machine from state
  and event to next state and action.
- `src/vision.rs`: the pixel and class handling around the arrow detector.
- `app/`: file and network I/O, serde shapes of the files, and the parts
  that compute in floating point.
- `tests/`: tests of the library on concrete values.
