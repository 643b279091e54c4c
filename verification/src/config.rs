use vstd::prelude::*;
use vstd::string::StringExecFns;
use crate::text::{
    is_blank, is_blank_str, is_white_space, leading_count, lemma_strip_ends_run,
    lemma_strip_ends_unchanged, strip_ends, trimmed,
};

verus! {

/// What the application does with recognized speech.
#[derive(Clone, Copy, Debug, PartialEq, Eq, Structural, Hash)]
pub enum AppMode {
    /// Spoken commands trigger key macros.
    VoiceCommand,
    /// Speech goes to the AI agent.
    AiAgent,
}

impl Default for AppMode {
    fn default() -> (r: Self)
        ensures
            r == AppMode::VoiceCommand,
    {
        AppMode::VoiceCommand
    }
}

/// When the recognizer listens.
#[derive(Clone, Copy, Debug, PartialEq, Eq, Structural, Hash)]
pub enum TalkMode {
    /// Only while the push-to-talk key is held.
    PushToTalk,
    /// Whenever voice activity is detected.
    VoiceActivation,
}

impl Default for TalkMode {
    fn default() -> (r: Self)
        ensures
            r == TalkMode::VoiceActivation,
    {
        TalkMode::VoiceActivation
    }
}

/// The protocol family of a language model provider.
#[derive(Clone, Copy, Debug, PartialEq, Eq, Structural, Hash)]
pub enum AiLlmProviderKind {
    SiliconFlow,
    OpenAiCompatible,
}

impl Default for AiLlmProviderKind {
    fn default() -> (r: Self)
        ensures
            r == AiLlmProviderKind::SiliconFlow,
    {
        AiLlmProviderKind::SiliconFlow
    }
}

/// A language model provider.
#[derive(Debug)]
pub struct AiLlmProviderConfig {
    pub id: String,
    pub name: String,
    pub kind: AiLlmProviderKind,
    pub base_url: String,
    pub api_key: String,
    pub chat_model: String,
    pub is_builtin: bool,
}

/// The fields of a provider as plain values.
pub struct ProviderModel {
    pub id: Seq<char>,
    pub name: Seq<char>,
    pub kind: AiLlmProviderKind,
    pub base_url: Seq<char>,
    pub api_key: Seq<char>,
    pub chat_model: Seq<char>,
    pub is_builtin: bool,
}

impl View for AiLlmProviderConfig {
    type V = ProviderModel;

    open spec fn view(&self) -> ProviderModel {
        ProviderModel {
            id: self.id@,
            name: self.name@,
            kind: self.kind,
            base_url: self.base_url@,
            api_key: self.api_key@,
            chat_model: self.chat_model@,
            is_builtin: self.is_builtin,
        }
    }
}

/// The fields of a stage as plain values.
pub struct StageModel {
    pub kind: AiLlmProviderKind,
    pub base_url: Seq<char>,
    pub api_key: Seq<char>,
    pub chat_model: Seq<char>,
}

impl View for AiLlmStageConfig {
    type V = StageModel;

    open spec fn view(&self) -> StageModel {
        StageModel {
            kind: self.kind,
            base_url: self.base_url@,
            api_key: self.api_key@,
            chat_model: self.chat_model@,
        }
    }
}

/// The provider settings of one stage (decision or reply) of the agent.
#[derive(Debug)]
pub struct AiLlmStageConfig {
    pub kind: AiLlmProviderKind,
    pub base_url: String,
    pub api_key: String,
    pub chat_model: String,
}

/// Language model settings of the agent.
#[derive(Debug)]
pub struct AiLlmConfig {
    pub enabled: bool,
    pub reply_enabled: bool,
    /// How many recent session events the prompts carry.
    pub context_event_count: usize,
    pub decision: AiLlmStageConfig,
    pub reply: AiLlmStageConfig,
}

/// Speech recognition settings of the agent.
#[derive(Debug)]
pub struct AiSpeechSttConfig {
    pub model_id: String,
    pub language: String,
    pub use_itn: bool,
}

/// Microphone settings.
#[derive(Clone, Copy, Debug, PartialEq, Eq, Structural)]
pub struct MicrophoneConfig {
    pub enable_denoise: bool,
}

/// The optional wake word that has to precede a spoken command.
#[derive(Debug)]
pub struct TriggerConfig {
    pub hit_word: Option<String>,
    pub hit_word_grammar: Option<String>,
}

/// An identical copy of `s`.
pub fn copy_string(s: &String) -> (r: String)
    ensures
        r == *s,
{
    s.clone()
}

/// An identical copy of an optional string.
pub fn copy_opt_string(s: &Option<String>) -> (r: Option<String>)
    ensures
        r == *s,
{
    match s {
        Some(v) => Some(copy_string(v)),
        None => None,
    }
}

impl Clone for AiLlmProviderConfig {
    fn clone(&self) -> (r: Self)
        ensures
            r == *self,
    {
        AiLlmProviderConfig {
            id: copy_string(&self.id),
            name: copy_string(&self.name),
            kind: self.kind,
            base_url: copy_string(&self.base_url),
            api_key: copy_string(&self.api_key),
            chat_model: copy_string(&self.chat_model),
            is_builtin: self.is_builtin,
        }
    }
}

impl Clone for AiLlmStageConfig {
    fn clone(&self) -> (r: Self)
        ensures
            r == *self,
    {
        AiLlmStageConfig {
            kind: self.kind,
            base_url: copy_string(&self.base_url),
            api_key: copy_string(&self.api_key),
            chat_model: copy_string(&self.chat_model),
        }
    }
}

impl Clone for AiLlmConfig {
    fn clone(&self) -> (r: Self)
        ensures
            r == *self,
    {
        AiLlmConfig {
            enabled: self.enabled,
            reply_enabled: self.reply_enabled,
            context_event_count: self.context_event_count,
            decision: self.decision.clone(),
            reply: self.reply.clone(),
        }
    }
}

impl Clone for AiSpeechSttConfig {
    fn clone(&self) -> (r: Self)
        ensures
            r == *self,
    {
        AiSpeechSttConfig {
            model_id: copy_string(&self.model_id),
            language: copy_string(&self.language),
            use_itn: self.use_itn,
        }
    }
}

impl Clone for TriggerConfig {
    fn clone(&self) -> (r: Self)
        ensures
            r == *self,
    {
        TriggerConfig {
            hit_word: copy_opt_string(&self.hit_word),
            hit_word_grammar: copy_opt_string(&self.hit_word_grammar),
        }
    }
}

/// The id of the built-in provider.
pub open spec fn spec_default_provider_id() -> Seq<char> {
    seq!['s', 'i', 'l', 'i', 'c', 'o', 'n', 'f', 'l', 'o', 'w']
}

/// The base URL of the built-in provider.
pub open spec fn spec_default_base_url() -> Seq<char> {
    "https://api.siliconflow.cn/v1"@
}

/// The chat model used when none is chosen.
pub open spec fn spec_default_chat_model() -> Seq<char> {
    "deepseek-ai/DeepSeek-V3.2"@
}

/// Whether local playback of macro audio is awaited by default.
pub fn default_speaker_sleep_until_end() -> (r: bool)
    ensures
        r,
{
    true
}

/// Whether macro audio is played locally by default.
pub fn default_monitor_local_playback() -> (r: bool)
    ensures
        r,
{
    true
}

/// Whether the virtual microphone is on by default.
pub fn default_virtual_mic_enabled() -> (r: bool)
    ensures
        !r,
{
    false
}

/// Whether microphone denoising is on by default.
pub fn default_microphone_enable_denoise() -> (r: bool)
    ensures
        !r,
{
    false
}

/// The id of the built-in provider.
pub fn default_ai_llm_provider_id() -> (r: String)
    ensures
        r@ == spec_default_provider_id(),
{
    let r = String::from_str("siliconflow");
    proof {
        reveal_strlit("siliconflow");
    }
    r
}

/// The base URL of the built-in provider.
pub fn default_ai_base_url() -> (r: String)
    ensures
        r@ == spec_default_base_url(),
{
    String::from_str("https://api.siliconflow.cn/v1")
}

/// The chat model used when none is chosen.
pub fn default_ai_chat_model() -> (r: String)
    ensures
        r@ == spec_default_chat_model(),
{
    String::from_str("deepseek-ai/DeepSeek-V3.2")
}

/// Whether the language model is on by default.
pub fn default_ai_llm_enabled() -> (r: bool)
    ensures
        r,
{
    true
}

/// Whether reply generation is on by default.
pub fn default_ai_reply_enabled() -> (r: bool)
    ensures
        r,
{
    true
}

/// The default number of session events in a prompt.
pub fn default_ai_context_event_count() -> (r: usize)
    ensures
        r == 12,
{
    12
}

/// The speech recognition model used by default.
pub fn default_ai_stt_model_id() -> (r: String)
    ensures
        r@ == "sherpa-onnx-sense-voice-zh-en-ja-ko-yue-int8-2024-07-17"@,
{
    String::from_str("sherpa-onnx-sense-voice-zh-en-ja-ko-yue-int8-2024-07-17")
}

/// Whether speech synthesis is on by default.
pub fn default_ai_tts_enabled() -> (r: bool)
    ensures
        r,
{
    true
}

/// The speech synthesis model used by default.
pub fn default_ai_tts_model_id() -> (r: String)
    ensures
        r@ == "vits-melo-tts-zh_en"@,
{
    String::from_str("vits-melo-tts-zh_en")
}

/// The recognition language used by default.
pub fn default_ai_stt_language() -> (r: String)
    ensures
        r@ == "auto"@,
{
    String::from_str("auto")
}

/// The agent chosen by default.
pub fn default_ai_agent_id() -> (r: String)
    ensures
        r@ == "tactical-assistant"@,
{
    String::from_str("tactical-assistant")
}

/// Whether the agent runs its tools without asking, by default.
pub fn default_ai_auto_execute_skills() -> (r: bool)
    ensures
        r,
{
    true
}

/// The numbers of session events a prompt may carry.
pub open spec fn context_event_count_options() -> Seq<usize> {
    seq![4usize, 8, 12, 20, 50]
}

/// The number of context events that `value` is sanitized to: a supported
/// one is kept; any other becomes 12.
pub open spec fn context_event_count_of(value: usize) -> usize {
    if context_event_count_options().contains(value) {
        value
    } else {
        12
    }
}

/// A supported number of context events is kept; any other becomes 12.
pub fn sanitize_ai_context_event_count(value: usize) -> (r: usize)
    ensures
        r == context_event_count_of(value),
{
    let options: [usize; 5] = [4, 8, 12, 20, 50];
    assert(options@ == context_event_count_options());
    let mut i: usize = 0;
    while i < 5
        invariant
            i <= 5,
            options@ == context_event_count_options(),
            forall|j: int| 0 <= j < i ==> options@[j] != value,
        decreases 5 - i,
    {
        if options[i] == value {
            assert(options@[i as int] == value);
            return value;
        }
        i += 1;
    }
    default_ai_context_event_count()
}

impl AiLlmProviderConfig {
    /// The built-in SiliconFlow provider without an API key.
    pub fn builtin_siliconflow() -> (r: Self)
        ensures
            r.id@ == spec_default_provider_id(),
            r.name@ == "SiliconFlow"@,
            r.kind == AiLlmProviderKind::SiliconFlow,
            r.base_url@ == spec_default_base_url(),
            r.api_key@ == Seq::<char>::empty(),
            r.chat_model@ == spec_default_chat_model(),
            r.is_builtin,
    {
        AiLlmProviderConfig {
            id: default_ai_llm_provider_id(),
            name: String::from_str("SiliconFlow"),
            kind: AiLlmProviderKind::SiliconFlow,
            base_url: default_ai_base_url(),
            api_key: String::new(),
            chat_model: default_ai_chat_model(),
            is_builtin: true,
        }
    }
}

impl Default for AiLlmProviderConfig {
    fn default() -> (r: Self)
        ensures
            r.id@ == spec_default_provider_id(),
            r.name@ == "SiliconFlow"@,
            r.kind == AiLlmProviderKind::SiliconFlow,
            r.base_url@ == spec_default_base_url(),
            r.api_key@ == Seq::<char>::empty(),
            r.chat_model@ == spec_default_chat_model(),
            r.is_builtin,
    {
        Self::builtin_siliconflow()
    }
}

impl AiLlmStageConfig {
    /// The provider a stage runs against: the built-in base URL for
    /// SiliconFlow, the stage's own for other providers, and the default chat
    /// model when the stage names none.
    pub fn runtime_provider(&self, id: &str, name: &str) -> (r: AiLlmProviderConfig)
        ensures
            r.id@ == id@,
            r.name@ == name@,
            r.kind == self.kind,
            r.base_url@ == match self.kind {
                AiLlmProviderKind::SiliconFlow => spec_default_base_url(),
                AiLlmProviderKind::OpenAiCompatible => self.base_url@,
            },
            r.api_key == self.api_key,
            r.chat_model@ == if is_blank(self.chat_model@) {
                spec_default_chat_model()
            } else {
                self.chat_model@
            },
            !r.is_builtin,
    {
        AiLlmProviderConfig {
            id: String::from_str(id),
            name: String::from_str(name),
            kind: self.kind,
            base_url: match self.kind {
                AiLlmProviderKind::SiliconFlow => default_ai_base_url(),
                AiLlmProviderKind::OpenAiCompatible => copy_string(&self.base_url),
            },
            api_key: copy_string(&self.api_key),
            chat_model: if is_blank_str(self.chat_model.as_str()) {
                default_ai_chat_model()
            } else {
                copy_string(&self.chat_model)
            },
            is_builtin: false,
        }
    }
}

impl Default for AiLlmStageConfig {
    fn default() -> (r: Self)
        ensures
            r.kind == AiLlmProviderKind::SiliconFlow,
            r.base_url@ == spec_default_base_url(),
            r.api_key@ == Seq::<char>::empty(),
            r.chat_model@ == spec_default_chat_model(),
    {
        AiLlmStageConfig {
            kind: AiLlmProviderKind::SiliconFlow,
            base_url: default_ai_base_url(),
            api_key: String::new(),
            chat_model: default_ai_chat_model(),
        }
    }
}

/// Whether a stage has the default settings.
pub open spec fn is_default_stage(s: AiLlmStageConfig) -> bool {
    &&& s.kind == AiLlmProviderKind::SiliconFlow
    &&& s.base_url@ == spec_default_base_url()
    &&& s.api_key@ == Seq::<char>::empty()
    &&& s.chat_model@ == spec_default_chat_model()
}

impl Default for AiLlmConfig {
    fn default() -> (r: Self)
        ensures
            r.enabled,
            r.reply_enabled,
            r.context_event_count == 12,
            is_default_stage(r.decision),
            is_default_stage(r.reply),
    {
        AiLlmConfig {
            enabled: default_ai_llm_enabled(),
            reply_enabled: default_ai_reply_enabled(),
            context_event_count: default_ai_context_event_count(),
            decision: AiLlmStageConfig::default(),
            reply: AiLlmStageConfig::default(),
        }
    }
}

impl Default for AiSpeechSttConfig {
    fn default() -> (r: Self)
        ensures
            r.model_id@ == "sherpa-onnx-sense-voice-zh-en-ja-ko-yue-int8-2024-07-17"@,
            r.language@ == "auto"@,
            r.use_itn,
    {
        AiSpeechSttConfig {
            model_id: default_ai_stt_model_id(),
            language: default_ai_stt_language(),
            use_itn: true,
        }
    }
}

impl Default for MicrophoneConfig {
    fn default() -> (r: Self)
        ensures
            !r.enable_denoise,
    {
        MicrophoneConfig { enable_denoise: false }
    }
}

impl Default for TriggerConfig {
    fn default() -> (r: Self)
        ensures
            r.hit_word is None,
            r.hit_word_grammar is None,
    {
        TriggerConfig { hit_word: None, hit_word_grammar: None }
    }
}

/// The stage settings of a provider, with `chat_model` overriding the
/// provider's model unless it is absent or blank.
pub fn llm_provider_to_stage(provider: AiLlmProviderConfig, chat_model: Option<String>) -> (r:
    AiLlmStageConfig)
    ensures
        r.kind == provider.kind,
        r.base_url == provider.base_url,
        r.api_key == provider.api_key,
        r.chat_model == match chat_model {
            Some(m) => if is_blank(m@) {
                provider.chat_model
            } else {
                m
            },
            None => provider.chat_model,
        },
{
    let model = match chat_model {
        Some(m) => if is_blank_str(m.as_str()) {
            provider.chat_model
        } else {
            m
        },
        None => provider.chat_model,
    };
    AiLlmStageConfig {
        kind: provider.kind,
        base_url: provider.base_url,
        api_key: provider.api_key,
        chat_model: model,
    }
}

/// Whether `c` may stay in a provider id: ASCII letters and digits, `-`, `_`.
pub open spec fn is_id_char(c: char) -> bool {
    ('a' <= c <= 'z') || ('A' <= c <= 'Z') || ('0' <= c <= '9') || c == '-' || c == '_'
}

/// A provider id character: kept and lowercased when allowed, else `-`.
pub open spec fn id_char(c: char) -> char {
    if 'A' <= c <= 'Z' {
        ((c as u32) + 32) as char
    } else if is_id_char(c) {
        c
    } else {
        '-'
    }
}

/// The provider id derived from `s`: each character mapped by `id_char`,
/// then `-` stripped from both ends.
pub open spec fn provider_id_of(s: Seq<char>) -> Seq<char> {
    strip_ends(s.map_values(|c: char| id_char(c)), |c: char| c == '-')
}

/// The provider id derived from a name.
pub fn sanitize_ai_provider_id(value: &str) -> (r: String)
    ensures
        r@ == provider_id_of(value@),
{
    let chars = crate::text::chars_of(value);
    let mut mapped: Vec<char> = Vec::new();
    let n = chars.len();
    let mut i: usize = 0;
    while i < n
        invariant
            n == chars@.len(),
            i <= n,
            mapped@ == chars@.take(i as int).map_values(|c: char| id_char(c)),
        decreases n - i,
    {
        let c = chars[i];
        let m = if 'A' <= c && c <= 'Z' {
            ascii_lower(c)
        } else if ('a' <= c && c <= 'z') || ('0' <= c && c <= '9') || c == '-' || c == '_' {
            c
        } else {
            '-'
        };
        mapped.push(m);
        assert(mapped@ =~= chars@.take(i as int + 1).map_values(|c: char| id_char(c)));
        i += 1;
    }
    assert(chars@.take(n as int) == chars@);
    let stripped = crate::text::strip_char_ends(&mapped, '-');
    crate::text::string_of(&stripped)
}

/// A character that a provider id can hold is kept as it is.
proof fn lemma_id_char_stable(c: char)
    ensures
        id_char(id_char(c)) == id_char(c),
{
    if 'A' <= c <= 'Z' {
        let l = ((c as u32) + 32) as char;
        assert('a' <= l <= 'z');
    }
}

/// A provider id derived once is derived again unchanged: sanitizing the
/// settings a second time leaves every provider id as it was.
pub proof fn lemma_provider_id_stable(name: Seq<char>)
    ensures
        provider_id_of(provider_id_of(name)) == provider_id_of(name),
{
    let p = |c: char| c == '-';
    let m = name.map_values(|c: char| id_char(c));
    let r = provider_id_of(name);
    lemma_strip_ends_run(m, p);
    let a = leading_count(m, p);
    assert forall|i: int| 0 <= i < r.len() implies id_char(#[trigger] r[i]) == r[i] by {
        assert(r[i] == m[a + i]);
        lemma_id_char_stable(name[a + i]);
    }
    assert(r.map_values(|c: char| id_char(c)) =~= r);
    lemma_strip_ends_unchanged(r, p);
}

/// A sanitized number of context events is sanitized again unchanged.
pub proof fn lemma_context_event_count_stable(value: usize)
    ensures
        context_event_count_of(context_event_count_of(value)) == context_event_count_of(value),
{
    assert(context_event_count_options()[2] == 12);
}

/// The lowercase of an ASCII upper-case letter.
pub fn ascii_lower(c: char) -> (r: char)
    requires
        'A' <= c <= 'Z',
    ensures
        r == ((c as u32) + 32) as char,
{
    let u = (c as u32) + 32;
    let b = u as u8;
    b as char
}

} // verus!
