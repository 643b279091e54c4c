use vstd::prelude::*;
use vstd::string::StringExecFns;
use crate::config::copy_string;
use crate::keys::{key_name, LocalKey};
use crate::stratagems::{ascii_lower, ascii_upper, items_view, to_ascii_lower, to_ascii_upper, Stratagem, StratagemModel};
use crate::text::{has_prefix, has_substring, join_with, occurs_at, str_contains};
use crate::assets::lines_of;
use crate::migration::text_view;
use crate::text::{chars_of, is_blank, is_blank_str, string_of, trim_str, trimmed};
use crate::toml_tree::str_eq;

verus! {

/// The transcript of a recording.
#[derive(Debug)]
pub struct AiTranscriptionResult {
    pub session_id: String,
    pub transcript: String,
    pub audio_path: String,
}

/// The function a tool call invokes, with its arguments as JSON text.
#[derive(Debug)]
pub struct ChatToolFunction {
    pub name: String,
    pub arguments: String,
}

/// A tool call requested by the language model.
#[derive(Debug)]
pub struct ChatToolCall {
    pub id: String,
    /// The call's type, `function` unless the model said otherwise.
    pub call_type: String,
    pub function: ChatToolFunction,
}

/// The text and tool calls of a streamed chat completion.
#[derive(Debug)]
pub struct ChatStreamResult {
    pub content: String,
    pub tool_calls: Vec<ChatToolCall>,
}

impl Clone for ChatToolFunction {
    fn clone(&self) -> (r: Self)
        ensures
            r == *self,
    {
        ChatToolFunction { name: copy_string(&self.name), arguments: copy_string(&self.arguments) }
    }
}

impl Clone for ChatToolCall {
    fn clone(&self) -> (r: Self)
        ensures
            r == *self,
    {
        ChatToolCall {
            id: copy_string(&self.id),
            call_type: copy_string(&self.call_type),
            function: self.function.clone(),
        }
    }
}

/// An event of an assistant session: what the user said, what the
/// assistant replied, the tool calls it made and their results.
#[derive(Debug)]
pub struct AiSessionEvent {
    pub id: String,
    /// `user_transcript`, `assistant_final`, `assistant_partial`,
    /// `assistant_tool_calls` or `tool_result`.
    pub kind: String,
    pub text: Option<String>,
    pub created_at_ms: u64,
}

/// The header of an assistant session.
#[derive(Debug)]
pub struct AiSessionSummary {
    pub id: String,
    pub title: String,
    pub created_at_ms: u64,
    pub updated_at_ms: u64,
    pub message_count: usize,
}

/// An assistant session with its events.
#[derive(Debug)]
pub struct AiSessionRecord {
    pub summary: AiSessionSummary,
    pub events: Vec<AiSessionEvent>,
}

impl Clone for AiSessionEvent {
    fn clone(&self) -> (r: Self)
        ensures
            r == *self,
    {
        AiSessionEvent {
            id: copy_string(&self.id),
            kind: copy_string(&self.kind),
            text: crate::config::copy_opt_string(&self.text),
            created_at_ms: self.created_at_ms,
        }
    }
}

/// The logical key a name stands for, ignoring surrounding white space and
/// ASCII case.
pub open spec fn local_key_named(name: Seq<char>) -> Option<LocalKey> {
    let u = ascii_upper(trimmed(name));
    if u == "UP"@ {
        Some(LocalKey::UP)
    } else if u == "DOWN"@ {
        Some(LocalKey::DOWN)
    } else if u == "LEFT"@ {
        Some(LocalKey::LEFT)
    } else if u == "RIGHT"@ {
        Some(LocalKey::RIGHT)
    } else if u == "OPEN"@ {
        Some(LocalKey::OPEN)
    } else if u == "THROW"@ {
        Some(LocalKey::THROW)
    } else if u == "RESEND"@ {
        Some(LocalKey::RESEND)
    } else if u == "PTT"@ {
        Some(LocalKey::PTT)
    } else if u == "OCC"@ {
        Some(LocalKey::OCC)
    } else {
        None
    }
}

/// Reading a key's name gives the key back: for every logical key `k`,
/// its name as `local_key_name` writes it is read as `k`, so every
/// direction of a stratagem code is dialed.
pub proof fn lemma_key_names_read_back(k: LocalKey)
    ensures
        local_key_named(key_name(k)) == Some(k),
{
    let n = key_name(k);
    assert(n.len() > 0);
    crate::text::lemma_strip_ends_unchanged(n, |c: char| crate::text::is_white_space(c));
    assert(trimmed(n) == n);
    assert(ascii_upper(n) =~= n);
    reveal_strlit("UP");
    reveal_strlit("DOWN");
    reveal_strlit("LEFT");
    reveal_strlit("RIGHT");
    reveal_strlit("OPEN");
    reveal_strlit("THROW");
    reveal_strlit("RESEND");
    reveal_strlit("PTT");
    reveal_strlit("OCC");
    assert(n =~= match k {
        LocalKey::UP => "UP"@,
        LocalKey::DOWN => "DOWN"@,
        LocalKey::LEFT => "LEFT"@,
        LocalKey::RIGHT => "RIGHT"@,
        LocalKey::OPEN => "OPEN"@,
        LocalKey::THROW => "THROW"@,
        LocalKey::RESEND => "RESEND"@,
        LocalKey::PTT => "PTT"@,
        LocalKey::OCC => "OCC"@,
    });
}

/// The logical key a name stands for.
pub fn parse_local_key(name: &str) -> (r: Option<LocalKey>)
    ensures
        r == local_key_named(name@),
{
    let t = trim_str(name);
    let u = string_of(&to_ascii_upper(&chars_of(t.as_str())));
    let s = u.as_str();
    if str_eq(s, "UP") {
        Some(LocalKey::UP)
    } else if str_eq(s, "DOWN") {
        Some(LocalKey::DOWN)
    } else if str_eq(s, "LEFT") {
        Some(LocalKey::LEFT)
    } else if str_eq(s, "RIGHT") {
        Some(LocalKey::RIGHT)
    } else if str_eq(s, "OPEN") {
        Some(LocalKey::OPEN)
    } else if str_eq(s, "THROW") {
        Some(LocalKey::THROW)
    } else if str_eq(s, "RESEND") {
        Some(LocalKey::RESEND)
    } else if str_eq(s, "PTT") {
        Some(LocalKey::PTT)
    } else if str_eq(s, "OCC") {
        Some(LocalKey::OCC)
    } else {
        None
    }
}

/// The name of a logical key.
pub fn local_key_name(k: LocalKey) -> (r: &'static str)
    ensures
        r@ == key_name(k),
{
    proof {
        reveal_strlit("UP");
        reveal_strlit("DOWN");
        reveal_strlit("LEFT");
        reveal_strlit("RIGHT");
        reveal_strlit("OPEN");
        reveal_strlit("THROW");
        reveal_strlit("RESEND");
        reveal_strlit("PTT");
        reveal_strlit("OCC");
    }
    match k {
        LocalKey::UP => "UP",
        LocalKey::DOWN => "DOWN",
        LocalKey::LEFT => "LEFT",
        LocalKey::RIGHT => "RIGHT",
        LocalKey::OPEN => "OPEN",
        LocalKey::THROW => "THROW",
        LocalKey::RESEND => "RESEND",
        LocalKey::PTT => "PTT",
        LocalKey::OCC => "OCC",
    }
}

/// A key sequence written as a list, as in `[OPEN, UP, THROW]`.
pub open spec fn keys_listing(keys: Seq<LocalKey>) -> Seq<char>
    decreases keys.len(),
{
    if keys.len() == 0 {
        "[]"@
    } else {
        "["@ + keys_joined(keys) + "]"@
    }
}

/// The names of keys joined with `, `.
pub open spec fn keys_joined(keys: Seq<LocalKey>) -> Seq<char>
    decreases keys.len(),
{
    if keys.len() == 0 {
        Seq::empty()
    } else if keys.len() == 1 {
        key_name(keys[0])
    } else {
        keys_joined(keys.drop_last()) + ", "@ + key_name(keys.last())
    }
}

/// A key sequence written as a list.
pub fn format_keys(keys: &Vec<LocalKey>) -> (r: String)
    ensures
        r@ == keys_listing(keys@),
{
    if keys.len() == 0 {
        return String::from_str("[]");
    }
    let mut joined = String::from_str(local_key_name(keys[0]));
    assert(keys@.take(1) =~= seq![keys@[0]]);
    let n = keys.len();
    let mut i: usize = 1;
    while i < n
        invariant
            n == keys@.len(),
            1 <= i <= n,
            joined@ == keys_joined(keys@.take(i as int)),
        decreases n - i,
    {
        assert(keys@.take(i as int + 1).drop_last() == keys@.take(i as int));
        joined = joined.concat(", ").concat(local_key_name(keys[i]));
        i += 1;
    }
    assert(keys@.take(n as int) == keys@);
    String::from_str("[").concat(joined.as_str()).concat("]")
}

/// A test of one stage of the assistant, run from the debug panel.
#[derive(Clone, Copy, Debug, PartialEq, Eq, Structural)]
pub enum AiDebugStage {
    Stt,
    Llm,
    Tts,
}

impl AiDebugStage {
    /// The short name of the stage.
    pub open spec fn name(self) -> Seq<char> {
        match self {
            AiDebugStage::Stt => "stt"@,
            AiDebugStage::Llm => "llm"@,
            AiDebugStage::Tts => "tts"@,
        }
    }

    /// The short name of the stage.
    pub fn as_str(self) -> (r: &'static str)
        ensures
            r@ == self.name(),
    {
        match self {
            AiDebugStage::Stt => "stt",
            AiDebugStage::Llm => "llm",
            AiDebugStage::Tts => "tts",
        }
    }
}

/// The debug test that runs, at most one at a time, and whether it was
/// asked to stop.
#[derive(Clone, Copy, Debug)]
pub struct DebugStages {
    pub active: Option<AiDebugStage>,
    pub cancel_requested: bool,
}

impl DebugStages {
    /// No test running.
    pub fn new() -> (r: Self)
        ensures
            r.active is None,
            !r.cancel_requested,
    {
        DebugStages { active: None, cancel_requested: false }
    }

    /// Starts a test unless one runs; a started test has no stop request.
    pub fn start(&mut self, stage: AiDebugStage) -> (r: Result<(), String>)
        ensures
            match old(self).active {
                Some(running) => *final(self) == *old(self) && (r matches Err(m) && m@
                    == "AI debug "@ + running.name() + " test is already running."@),
                None => r is Ok && final(self).active == Some(stage) && !final(self).cancel_requested,
            },
    {
        match self.active {
            Some(running) => Err(String::from_str("AI debug ").concat(running.as_str()).concat(
                " test is already running.",
            )),
            None => {
                self.active = Some(stage);
                self.cancel_requested = false;
                Ok(())
            },
        }
    }

    /// Ends a test when it is the one running.
    pub fn finish(&mut self, stage: AiDebugStage)
        ensures
            final(self).active == if old(self).active == Some(stage) {
                None
            } else {
                old(self).active
            },
            final(self).cancel_requested == old(self).cancel_requested,
    {
        if self.active == Some(stage) {
            self.active = None;
        }
    }

    /// Whether the test `stage` runs.
    pub fn is_active(&self, stage: AiDebugStage) -> (r: bool)
        ensures
            r == (self.active == Some(stage)),
    {
        self.active == Some(stage)
    }

    /// Asks the running test to stop.
    pub fn request_cancel(&mut self)
        ensures
            final(self).active == old(self).active,
            final(self).cancel_requested,
    {
        self.cancel_requested = true;
    }
}

/// The id of the assistant's in-memory session.
pub open spec fn default_session_id() -> Seq<char> {
    "default-session"@
}

/// A fresh in-memory session, created at `now_ms`.
pub fn default_ai_session_record(now_ms: u64) -> (r: AiSessionRecord)
    ensures
        r.summary.id@ == default_session_id(),
        r.summary.title@ == "Current Session"@,
        r.summary.created_at_ms == now_ms,
        r.summary.updated_at_ms == now_ms,
        r.summary.message_count == 0,
        r.events@.len() == 0,
{
    AiSessionRecord {
        summary: AiSessionSummary {
            id: String::from_str("default-session"),
            title: String::from_str("Current Session"),
            created_at_ms: now_ms,
            updated_at_ms: now_ms,
            message_count: 0,
        },
        events: Vec::new(),
    }
}

impl AiSessionRecord {
    /// Appends an event at `now_ms`; the count and update time follow.
    pub fn append_event(&mut self, event: AiSessionEvent, now_ms: u64)
        ensures
            final(self).events@ == old(self).events@.push(event),
            final(self).summary.message_count == final(self).events@.len(),
            final(self).summary.updated_at_ms == now_ms,
            final(self).summary.id == old(self).summary.id,
            final(self).summary.title == old(self).summary.title,
            final(self).summary.created_at_ms == old(self).summary.created_at_ms,
    {
        self.events.push(event);
        self.summary.message_count = self.events.len();
        self.summary.updated_at_ms = now_ms;
    }
}

/// What an interrupted reply leaves: the partial reply still waiting (for
/// another session) and the text to record for this session, if any.
pub open spec fn interrupted_reply(partial: Option<(Seq<char>, Seq<char>)>, session_id: Seq<char>) -> (
    Option<(Seq<char>, Seq<char>)>,
    Option<Seq<char>>,
) {
    match partial {
        None => (None, None),
        Some((stored, text)) => if stored != session_id {
            (partial, None)
        } else if is_blank(text) {
            (None, None)
        } else {
            (None, Some(trimmed(text)))
        },
    }
}

/// The views of an optional partial reply.
pub open spec fn partial_view(p: Option<(String, String)>) -> Option<(Seq<char>, Seq<char>)> {
    match p {
        Some((a, b)) => Some((a@, b@)),
        None => None,
    }
}

/// Takes the partial reply of `session_id` when the reply is interrupted:
/// its trimmed text, unless blank, becomes a partial assistant event; a
/// partial reply of another session stays.
pub fn take_interrupted_reply(partial: &mut Option<(String, String)>, session_id: &str) -> (r: Option<
    String,
>)
    ensures
        (partial_view(*final(partial)), crate::migration::text_view(r)) == interrupted_reply(
            partial_view(*old(partial)),
            session_id@,
        ),
{
    let taken = partial.take();
    match taken {
        None => None,
        Some((stored, text)) => {
            if !str_eq(stored.as_str(), session_id) {
                *partial = Some((stored, text));
                return None;
            }
            if is_blank_str(text.as_str()) {
                None
            } else {
                Some(trim_str(text.as_str()))
            }
        },
    }
}

/// The id of an event recorded at `now_ms`.
pub fn event_id(now_ms: u64) -> (r: String)
    ensures
        r@ == "event-"@ + crate::ai::decimal(now_ms as nat),
{
    String::from_str("event-").concat(decimal_text(now_ms).as_str())
}

/// The decimal digits of a number.
pub open spec fn decimal(n: nat) -> Seq<char>
    decreases n,
{
    if n < 10 {
        seq![digit_char(n)]
    } else {
        decimal(n / 10).push(digit_char(n % 10))
    }
}

/// The digit character of a number below ten.
pub open spec fn digit_char(d: nat) -> char {
    ((d + 48) as u32) as char
}

/// The decimal digits of a number.
pub fn decimal_text(n: u64) -> (r: String)
    ensures
        r@ == decimal(n as nat),
    decreases n,
{
    if n < 10 {
        let c = ((n + 48) as u8) as char;
        let v = vec![c];
        string_of(&v)
    } else {
        let head = decimal_text(n / 10);
        let c = ((n % 10 + 48) as u8) as char;
        let mut chars = chars_of(head.as_str());
        chars.push(c);
        string_of(&chars)
    }
}


/// A member of a JSON object as the assistant reads it.
#[derive(Debug)]
pub enum JsonMember {
    /// The document is not valid JSON; the parser's message.
    Invalid(String),
    /// The document is no object, or has no such member.
    Absent,
    /// The member is a string.
    Text(String),
    /// The member is an array; each item's text when it is a string.
    Items(Vec<Option<String>>),
    /// The member is some other value.
    Other,
}

/// The plain values of a JSON member.
pub enum JsonMemberView {
    Invalid(Seq<char>),
    Absent,
    Text(Seq<char>),
    Items(Seq<Option<Seq<char>>>),
    Other,
}

/// The plain values of a JSON member.
pub open spec fn member_view(m: JsonMember) -> JsonMemberView {
    match m {
        JsonMember::Invalid(e) => JsonMemberView::Invalid(e@),
        JsonMember::Absent => JsonMemberView::Absent,
        JsonMember::Text(t) => JsonMemberView::Text(t@),
        JsonMember::Items(items) => JsonMemberView::Items(
            items@.map_values(|o: Option<String>| text_view(o)),
        ),
        JsonMember::Other => JsonMemberView::Other,
    }
}

/// What `serde_json` reads as the member `key` of the JSON document
/// `document`.
pub uninterp spec fn json_member_of(document: Seq<char>, key: Seq<char>) -> JsonMemberView;

/// Reads the member `key` of a JSON document.
///
/// Parses the document with `serde_json::from_str` into a
/// `serde_json::Value` and picks the member with `Value::get`; the
/// contract names the outcome as a function of the document and the key,
/// and claims nothing more of it.
#[verifier::external_body]
fn json_member(document: &str, key: &str) -> (r: JsonMember)
    ensures
        member_view(r) == json_member_of(document@, key@),
{
    match serde_json::from_str::<serde_json::Value>(document) {
        Err(e) => JsonMember::Invalid(e.to_string()),
        Ok(v) => match v.get(key) {
            None => JsonMember::Absent,
            Some(serde_json::Value::String(s)) => JsonMember::Text(s.clone()),
            Some(serde_json::Value::Array(items)) => JsonMember::Items(
                items.iter().map(|item| item.as_str().map(String::from)).collect(),
            ),
            Some(_) => JsonMember::Other,
        },
    }
}

/// The text of a string member.
pub open spec fn member_text(m: JsonMemberView) -> Option<Seq<char>> {
    match m {
        JsonMemberView::Text(s) => Some(s),
        _ => None,
    }
}

/// The logical keys that string items name, other items skipped.
pub open spec fn keys_from_items(items: Seq<Option<Seq<char>>>) -> Seq<LocalKey>
    decreases items.len(),
{
    if items.len() == 0 {
        Seq::empty()
    } else {
        let rest = keys_from_items(items.drop_last());
        match items.last() {
            Some(s) => match local_key_named(s) {
                Some(k) => rest.push(k),
                None => rest,
            },
            None => rest,
        }
    }
}

/// A tool call the assistant can carry out.
#[derive(Debug)]
pub enum ToolRequest {
    /// Press these keys now.
    SendKeys(Vec<LocalKey>),
    /// Dial the stratagem with this id or this name.
    ExecuteStratagem { id: Option<String>, name: Option<String> },
    /// List the stratagems whose name contains the query.
    ListStratagems { query: Option<String> },
    /// Report the key mappings.
    GetKeyMappings,
}

/// The plain values of a tool request.
pub enum ToolRequestView {
    SendKeys(Seq<LocalKey>),
    ExecuteStratagem(Option<Seq<char>>, Option<Seq<char>>),
    ListStratagems(Option<Seq<char>>),
    GetKeyMappings,
}

/// The plain values of a tool request.
pub open spec fn request_view(r: ToolRequest) -> ToolRequestView {
    match r {
        ToolRequest::SendKeys(keys) => ToolRequestView::SendKeys(keys@),
        ToolRequest::ExecuteStratagem { id, name } => ToolRequestView::ExecuteStratagem(
            text_view(id),
            text_view(name),
        ),
        ToolRequest::ListStratagems { query } => ToolRequestView::ListStratagems(text_view(query)),
        ToolRequest::GetKeyMappings => ToolRequestView::GetKeyMappings,
    }
}

/// What a tool call asks for, from the members `keys`, `id`, `name` and
/// `query` of its arguments: arguments that are no JSON are refused first;
/// then the tool decides what it needs from them; an unknown tool is
/// refused.
pub open spec fn request_from_members(
    name: Seq<char>,
    keys_member: JsonMemberView,
    id_member: JsonMemberView,
    name_member: JsonMemberView,
    query_member: JsonMemberView,
) -> Result<ToolRequestView, Seq<char>> {
    match keys_member {
        JsonMemberView::Invalid(e) => Err("Failed to parse tool arguments for "@ + name + ": "@ + e),
        keys_member => if name == "send_key_sequence"@ {
            match keys_member {
                JsonMemberView::Items(items) => {
                    let keys = keys_from_items(items);
                    if keys.len() == 0 {
                        Err("No valid local keys were provided."@)
                    } else {
                        Ok(ToolRequestView::SendKeys(keys))
                    }
                },
                _ => Err("send_key_sequence requires a keys array."@),
            }
        } else if name == "execute_stratagem"@ {
            Ok(ToolRequestView::ExecuteStratagem(member_text(id_member), member_text(name_member)))
        } else if name == "list_stratagems"@ {
            Ok(ToolRequestView::ListStratagems(member_text(query_member)))
        } else if name == "get_key_mappings"@ {
            Ok(ToolRequestView::GetKeyMappings)
        } else {
            Err("Unsupported tool '"@ + name + "'."@)
        },
    }
}

/// What a tool call asks for, from its name and its JSON arguments.
pub open spec fn tool_request_of(name: Seq<char>, arguments: Seq<char>) -> Result<ToolRequestView, Seq<char>> {
    request_from_members(
        name,
        json_member_of(arguments, "keys"@),
        json_member_of(arguments, "id"@),
        json_member_of(arguments, "name"@),
        json_member_of(arguments, "query"@),
    )
}

fn text_of_member(m: JsonMember) -> (r: Option<String>)
    ensures
        text_view(r) == member_text(member_view(m)),
{
    match m {
        JsonMember::Text(s) => Some(s),
        _ => None,
    }
}

/// What a tool call named `name` asks for, from the members `keys`, `id`,
/// `name` and `query` of its arguments, or why it cannot be carried out.
pub fn tool_request_from_members(
    name: &str,
    keys_member: JsonMember,
    id_member: JsonMember,
    name_member: JsonMember,
    query_member: JsonMember,
) -> (r: Result<ToolRequest, String>)
    ensures
        match r {
            Ok(q) => request_from_members(
                name@,
                member_view(keys_member),
                member_view(id_member),
                member_view(name_member),
                member_view(query_member),
            ) == Ok::<ToolRequestView, Seq<char>>(request_view(q)),
            Err(e) => request_from_members(
                name@,
                member_view(keys_member),
                member_view(id_member),
                member_view(name_member),
                member_view(query_member),
            ) == Err::<ToolRequestView, Seq<char>>(e@),
        },
{
    match keys_member {
        JsonMember::Invalid(e) => {
            return Err(String::from_str("Failed to parse tool arguments for ").concat(name).concat(
                ": ",
            ).concat(e.as_str()));
        },
        _ => {},
    }
    if str_eq(name, "send_key_sequence") {
        match keys_member {
            JsonMember::Items(items) => {
                let ghost iv = items@.map_values(|o: Option<String>| text_view(o));
                let mut keys: Vec<LocalKey> = Vec::new();
                let n = items.len();
                let mut i: usize = 0;
                while i < n
                    invariant
                        n == items@.len(),
                        i <= n,
                        iv == items@.map_values(|o: Option<String>| text_view(o)),
                        keys@ == keys_from_items(iv.take(i as int)),
                    decreases n - i,
                {
                    assert(iv.take(i as int + 1).drop_last() == iv.take(i as int));
                    assert(iv.take(i as int + 1).last() == text_view(items@[i as int]));
                    match &items[i] {
                        Some(s) => match parse_local_key(s.as_str()) {
                            Some(k) => keys.push(k),
                            None => {},
                        },
                        None => {},
                    }
                    i += 1;
                }
                assert(iv.take(n as int) == iv);
                if keys.len() == 0 {
                    Err(String::from_str("No valid local keys were provided."))
                } else {
                    Ok(ToolRequest::SendKeys(keys))
                }
            },
            _ => Err(String::from_str("send_key_sequence requires a keys array.")),
        }
    } else if str_eq(name, "execute_stratagem") {
        let id = text_of_member(id_member);
        let wanted = text_of_member(name_member);
        Ok(ToolRequest::ExecuteStratagem { id, name: wanted })
    } else if str_eq(name, "list_stratagems") {
        Ok(ToolRequest::ListStratagems { query: text_of_member(query_member) })
    } else if str_eq(name, "get_key_mappings") {
        Ok(ToolRequest::GetKeyMappings)
    } else {
        Err(String::from_str("Unsupported tool '").concat(name).concat("'."))
    }
}

/// What a tool call asks for, or why it cannot be carried out.
pub fn tool_request(call: &ChatToolCall) -> (r: Result<ToolRequest, String>)
    ensures
        match r {
            Ok(q) => tool_request_of(call.function.name@, call.function.arguments@) == Ok::<
                ToolRequestView,
                Seq<char>,
            >(request_view(q)),
            Err(e) => tool_request_of(call.function.name@, call.function.arguments@) == Err::<
                ToolRequestView,
                Seq<char>,
            >(e@),
        },
{
    let args = call.function.arguments.as_str();
    tool_request_from_members(
        call.function.name.as_str(),
        json_member(args, "keys"),
        json_member(args, "id"),
        json_member(args, "name"),
        json_member(args, "query"),
    )
}


/// Whether a stratagem is the one wanted: by id, or by name ignoring ASCII
/// case.
pub open spec fn stratagem_wanted(item: StratagemModel, id: Option<Seq<char>>, name: Option<Seq<char>>) -> bool {
    (id matches Some(i) && item.id == i) || (name matches Some(n) && ascii_lower(item.name)
        == ascii_lower(n))
}

/// The position of the first wanted stratagem of a catalog.
pub open spec fn wanted_position(items: Seq<StratagemModel>, id: Option<Seq<char>>, name: Option<Seq<char>>) -> Option<
    nat,
>
    decreases items.len(),
{
    if items.len() == 0 {
        None
    } else if stratagem_wanted(items[0], id, name) {
        Some(0)
    } else {
        match wanted_position(items.drop_first(), id, name) {
            Some(k) => Some(k + 1),
            None => None,
        }
    }
}

/// The position of the first stratagem of the catalog with the id `id` or
/// the name `name`.
pub fn find_stratagem(items: &Vec<Stratagem>, id: &Option<String>, name: &Option<String>) -> (r: Option<usize>)
    ensures
        match r {
            Some(k) => wanted_position(items_view(*items), text_view(*id), text_view(*name)) == Some(
                k as nat,
            ),
            None => wanted_position(items_view(*items), text_view(*id), text_view(*name)) is None,
        },
{
    let ghost all = items_view(*items);
    let lowered_name = match name {
        Some(n) => Some(to_ascii_lower(n.as_str())),
        None => None,
    };
    let n = items.len();
    let mut i: usize = 0;
    assert(all.skip(0) == all);
    while i < n
        invariant
            n == items@.len(),
            all == items_view(*items),
            i <= n,
            match lowered_name {
                Some(l) => name matches Some(x) && l@ == ascii_lower(x@),
                None => name is None,
            },
            wanted_position(all, text_view(*id), text_view(*name)) == match wanted_position(
                all.skip(i as int),
                text_view(*id),
                text_view(*name),
            ) {
                Some(k) => Some((k + i) as nat),
                None => None,
            },
        decreases n - i,
    {
        assert(all.skip(i as int)[0] == items@[i as int]@);
        assert(all.skip(i as int).drop_first() == all.skip(i as int + 1));
        let item = &items[i];
        let by_id = match id {
            Some(x) => str_eq(item.id.as_str(), x.as_str()),
            None => false,
        };
        let by_name = match &lowered_name {
            Some(l) => {
                let item_name = to_ascii_lower(item.name.as_str());
                str_eq(item_name.as_str(), l.as_str())
            },
            None => false,
        };
        if by_id || by_name {
            return Some(i);
        }
        i += 1;
    }
    None
}

/// The logical keys that command steps name, other steps skipped.
pub open spec fn keys_of_steps(steps: Seq<Seq<char>>) -> Seq<LocalKey>
    decreases steps.len(),
{
    if steps.len() == 0 {
        Seq::empty()
    } else {
        let rest = keys_of_steps(steps.drop_last());
        match local_key_named(steps.last()) {
            Some(k) => rest.push(k),
            None => rest,
        }
    }
}

/// The macro that dials a stratagem: OPEN, its directions, THROW.
pub fn stratagem_keys(command: &Vec<String>) -> (r: Vec<LocalKey>)
    ensures
        r@ == seq![LocalKey::OPEN] + keys_of_steps(command@.map_values(|s: String| s@)) + seq![
            LocalKey::THROW,
        ],
{
    let ghost steps = command@.map_values(|s: String| s@);
    let mut keys: Vec<LocalKey> = vec![LocalKey::OPEN];
    let n = command.len();
    let mut i: usize = 0;
    while i < n
        invariant
            n == command@.len(),
            i <= n,
            steps == command@.map_values(|s: String| s@),
            keys@ == seq![LocalKey::OPEN] + keys_of_steps(steps.take(i as int)),
        decreases n - i,
    {
        assert(steps.take(i as int + 1).drop_last() == steps.take(i as int));
        assert(steps.take(i as int + 1).last() == command@[i as int]@);
        match parse_local_key(command[i].as_str()) {
            Some(k) => {
                keys.push(k);
                assert(keys@ =~= seq![LocalKey::OPEN] + keys_of_steps(steps.take(i as int + 1)));
            },
            None => {},
        }
        i += 1;
    }
    assert(steps.take(n as int) == steps);
    keys.push(LocalKey::THROW);
    keys
}

/// The stratagem a call to dial one asks for and the macro that dials it;
/// an error when the catalog has no such stratagem.
pub fn plan_stratagem_call(items: &Vec<Stratagem>, id: &Option<String>, name: &Option<String>) -> (r: Result<
    (usize, Vec<LocalKey>),
    String,
>)
    ensures
        match r {
            Ok((k, keys)) => wanted_position(items_view(*items), text_view(*id), text_view(*name))
                == Some(k as nat) && k < items@.len() && keys@ == seq![LocalKey::OPEN] + keys_of_steps(
                items@[k as int].command@.map_values(|s: String| s@),
            ) + seq![LocalKey::THROW],
            Err(m) => wanted_position(items_view(*items), text_view(*id), text_view(*name)) is None
                && m@ == "Requested stratagem was not found in the local catalog."@,
        },
{
    match find_stratagem(items, id, name) {
        Some(k) => {
            proof {
                lemma_wanted_position_bound(items_view(*items), text_view(*id), text_view(*name));
            }
            let keys = stratagem_keys(&items[k].command);
            Ok((k, keys))
        },
        None => Err(String::from_str("Requested stratagem was not found in the local catalog.")),
    }
}

proof fn lemma_wanted_position_bound(items: Seq<StratagemModel>, id: Option<Seq<char>>, name: Option<Seq<char>>)
    ensures
        wanted_position(items, id, name) matches Some(k) ==> k < items.len(),
    decreases items.len(),
{
    if items.len() > 0 {
        lemma_wanted_position_bound(items.drop_first(), id, name);
    }
}

/// Whether a stratagem matches a listing query: every stratagem without a
/// query, else those whose name contains it, ignoring ASCII case.
pub open spec fn listed(item: StratagemModel, query: Option<Seq<char>>) -> bool {
    match query {
        None => true,
        Some(q) => has_substring(ascii_lower(item.name), ascii_lower(q)),
    }
}

/// The positions of the stratagems that match a query, in order.
pub open spec fn listed_positions(items: Seq<StratagemModel>, query: Option<Seq<char>>) -> Seq<nat>
    decreases items.len(),
{
    if items.len() == 0 {
        Seq::empty()
    } else {
        let rest = listed_positions(items.drop_last(), query);
        if listed(items.last(), query) {
            rest.push((items.len() - 1) as nat)
        } else {
            rest
        }
    }
}

/// Whether a stratagem's name contains `query` anywhere, ignoring ASCII
/// case; every stratagem does when there is no query.
pub open spec fn name_contains_query(item: StratagemModel, query: Option<Seq<char>>) -> bool {
    match query {
        None => true,
        Some(q) => has_substring(ascii_lower(item.name), ascii_lower(q)),
    }
}

/// The listing is a substring search: it lists, in increasing order, the
/// positions of the stratagems whose name contains the query anywhere
/// (ignoring ASCII case), every one of them and no other.
pub proof fn lemma_listing_finds_substrings(items: Seq<StratagemModel>, query: Option<Seq<char>>)
    ensures
        forall|j: int|
            0 <= j < listed_positions(items, query).len() ==> #[trigger] listed_positions(items, query)[j]
                < items.len() && name_contains_query(items[listed_positions(items, query)[j] as int], query),
        forall|j1: int, j2: int|
            0 <= j1 < j2 < listed_positions(items, query).len() ==> #[trigger] listed_positions(items, query)[j1]
                < #[trigger] listed_positions(items, query)[j2],
        forall|i: int|
            0 <= i < items.len() && #[trigger] name_contains_query(items[i], query) ==> listed_positions(
                items,
                query,
            ).contains(i as nat),
    decreases items.len(),
{
    if items.len() > 0 {
        let init = items.drop_last();
        lemma_listing_finds_substrings(init, query);
        let rest = listed_positions(init, query);
        let ps = listed_positions(items, query);
        assert forall|j: int| 0 <= j < rest.len() implies #[trigger] rest[j] < init.len() by {
            assert(rest[j] < init.len() && name_contains_query(init[rest[j] as int], query));
        }
        assert forall|i: int| 0 <= i < init.len() implies init[i] == items[i] by {}
        assert forall|j: int| 0 <= j < ps.len() implies #[trigger] ps[j] < items.len() && name_contains_query(
            items[ps[j] as int],
            query,
        ) by {
            if j < rest.len() {
                assert(ps[j] == rest[j]);
                assert(rest[j] < init.len() && name_contains_query(init[rest[j] as int], query));
            }
        }
        assert forall|j1: int, j2: int| 0 <= j1 < j2 < ps.len() implies #[trigger] ps[j1] < #[trigger] ps[j2] by {
            assert(ps[j1] == rest[j1]);
            if j2 < rest.len() {
                assert(ps[j2] == rest[j2]);
                assert(rest[j1] < rest[j2]);
            } else {
                assert(rest[j1] < init.len());
            }
        }
        assert forall|i: int| 0 <= i < items.len() && #[trigger] name_contains_query(items[i], query) implies ps.contains(
            i as nat,
        ) by {
            if i < init.len() {
                assert(name_contains_query(init[i], query));
                assert(rest.contains(i as nat));
                let t = choose|t: int| 0 <= t < rest.len() && rest[t] == i as nat;
                assert(ps[t] == rest[t]);
            } else {
                assert(ps[ps.len() - 1] == i as nat);
            }
        }
    }
}

/// The positions of the first twenty stratagems that match a query.
pub fn list_stratagems(items: &Vec<Stratagem>, query: &Option<String>) -> (r: Vec<usize>)
    ensures
        r@.map_values(|k: usize| k as nat) == listed_positions(items_view(*items), text_view(*query)).take(
            if listed_positions(items_view(*items), text_view(*query)).len() > 20 {
                20
            } else {
                listed_positions(items_view(*items), text_view(*query)).len() as int
            },
        ),
        r@.len() <= 20,
        forall|j: int|
            0 <= j < r@.len() ==> #[trigger] r@[j] < items@.len() && name_contains_query(
                items_view(*items)[r@[j] as int],
                text_view(*query),
            ),
        forall|j1: int, j2: int| 0 <= j1 < j2 < r@.len() ==> #[trigger] r@[j1] < #[trigger] r@[j2],
        forall|i: int|
            0 <= i < items@.len() && #[trigger] name_contains_query(items_view(*items)[i], text_view(*query)) && (
            r@.len() < 20 || i < r@[r@.len() - 1]) ==> r@.contains(i as usize),
{
    let ghost all = items_view(*items);
    let lowered = match query {
        Some(q) => Some(to_ascii_lower(q.as_str())),
        None => None,
    };
    let mut out: Vec<usize> = Vec::new();
    let n = items.len();
    let mut i: usize = 0;
    while i < n && out.len() < 20
        invariant
            n == items@.len(),
            all == items_view(*items),
            i <= n,
            out@.len() <= 20,
            match lowered {
                Some(l) => query matches Some(x) && l@ == ascii_lower(x@),
                None => query is None,
            },
            out@.map_values(|k: usize| k as nat) == listed_positions(all.take(i as int), text_view(*query)),
        decreases n - i,
    {
        assert(all.take(i as int + 1).drop_last() == all.take(i as int));
        assert(all.take(i as int + 1).last() == items@[i as int]@);
        let keep = match &lowered {
            None => true,
            Some(l) => {
                let name = to_ascii_lower(items[i].name.as_str());
                str_contains(name.as_str(), l.as_str())
            },
        };
        if keep {
            let ghost before = out@;
            out.push(i);
            assert(out@.map_values(|k: usize| k as nat) =~= before.map_values(|k: usize| k as nat).push(
                i as nat,
            ));
        }
        i += 1;
    }
    proof {
        lemma_listed_prefix(all, text_view(*query), i as int);
        if i < n {
            assert(out@.len() == 20);
        } else {
            assert(all.take(n as int) == all);
        }
        let q = text_view(*query);
        let ps = listed_positions(all, q);
        let m = if ps.len() > 20 {
            20
        } else {
            ps.len() as int
        };
        lemma_listing_finds_substrings(all, q);
        assert(out@.map_values(|k: usize| k as nat) == ps.take(m));
        assert(out@.len() == m);
        assert forall|j: int| 0 <= j < out@.len() implies out@[j] as nat == ps[j] by {
            assert(out@.map_values(|k: usize| k as nat)[j] == ps.take(m)[j]);
        }
        assert forall|j: int| 0 <= j < out@.len() implies #[trigger] out@[j] < items@.len() && name_contains_query(
            all[out@[j] as int],
            q,
        ) by {
            assert(out@[j] as nat == ps[j]);
            assert(ps[j] < all.len() && name_contains_query(all[ps[j] as int], q));
        }
        assert forall|j1: int, j2: int| 0 <= j1 < j2 < out@.len() implies #[trigger] out@[j1] < #[trigger] out@[j2] by {
            assert(out@[j1] as nat == ps[j1]);
            assert(out@[j2] as nat == ps[j2]);
            assert(ps[j1] < ps[j2]);
        }
        assert forall|k: int|
            0 <= k < items@.len() && #[trigger] name_contains_query(all[k], q) && (out@.len() < 20 || k < out@[out@.len()
                - 1]) implies out@.contains(k as usize) by {
            assert(ps.contains(k as nat));
            let t = choose|t: int| 0 <= t < ps.len() && ps[t] == k as nat;
            if out@.len() < 20 {
                assert(m == ps.len());
            } else {
                let last = out@.len() - 1;
                assert(out@[last] as nat == ps[last]);
                if t >= out@.len() {
                    if t > last {
                        assert(ps[last] < ps[t]);
                    }
                }
            }
            assert(t < out@.len());
            assert(out@[t] as nat == ps[t]);
            assert(out@[t] == k as usize);
        }
    }
    out
}

proof fn lemma_listed_prefix(items: Seq<StratagemModel>, query: Option<Seq<char>>, i: int)
    requires
        0 <= i <= items.len(),
    ensures
        listed_positions(items, query).take(listed_positions(items.take(i), query).len() as int)
            == listed_positions(items.take(i), query),
        listed_positions(items.take(i), query).len() <= listed_positions(items, query).len(),
    decreases items.len() - i,
{
    if i < items.len() {
        lemma_listed_prefix(items, query, i + 1);
        let a = listed_positions(items.take(i), query);
        let b = listed_positions(items.take(i + 1), query);
        assert(items.take(i + 1).drop_last() == items.take(i));
        assert(b.take(a.len() as int) == a);
    } else {
        assert(items.take(i) == items);
    }
}


/// The report of a key sequence that was sent.
pub fn key_sequence_report(keys: &Vec<LocalKey>) -> (r: String)
    ensures
        r@ == "Executed key sequence: "@ + keys_listing(keys@),
{
    String::from_str("Executed key sequence: ").concat(format_keys(keys).as_str())
}

/// The report of a stratagem that was dialed.
pub fn stratagem_report(name: &str, keys: &Vec<LocalKey>) -> (r: String)
    ensures
        r@ == "Executed stratagem '"@ + name@ + "' with sequence "@ + keys_listing(keys@),
{
    String::from_str("Executed stratagem '").concat(name).concat("' with sequence ").concat(
        format_keys(keys).as_str(),
    )
}

/// The skills an agent may offer the model.
#[derive(Clone, Copy, Debug, PartialEq, Eq, Structural)]
pub enum Skill {
    SendKeySequence,
    ExecuteStratagem,
    ListStratagems,
    GetKeyMappings,
}

/// The skill a skill id names.
pub open spec fn skill_named(id: Seq<char>) -> Option<Skill> {
    if id == "send_key_sequence"@ {
        Some(Skill::SendKeySequence)
    } else if id == "execute_stratagem"@ {
        Some(Skill::ExecuteStratagem)
    } else if id == "list_stratagems"@ {
        Some(Skill::ListStratagems)
    } else if id == "get_key_mappings"@ {
        Some(Skill::GetKeyMappings)
    } else {
        None
    }
}

/// The skills that skill ids name, in order, unknown ids skipped.
pub open spec fn skills_named(ids: Seq<Seq<char>>) -> Seq<Skill>
    decreases ids.len(),
{
    if ids.len() == 0 {
        Seq::empty()
    } else {
        let rest = skills_named(ids.drop_last());
        match skill_named(ids.last()) {
            Some(k) => rest.push(k),
            None => rest,
        }
    }
}

/// The skills of an agent's skill ids.
pub fn agent_skills(skill_ids: &Vec<String>) -> (r: Vec<Skill>)
    ensures
        r@ == skills_named(skill_ids@.map_values(|s: String| s@)),
{
    let ghost ids = skill_ids@.map_values(|s: String| s@);
    let mut out: Vec<Skill> = Vec::new();
    let n = skill_ids.len();
    let mut i: usize = 0;
    while i < n
        invariant
            n == skill_ids@.len(),
            i <= n,
            ids == skill_ids@.map_values(|s: String| s@),
            out@ == skills_named(ids.take(i as int)),
        decreases n - i,
    {
        assert(ids.take(i as int + 1).drop_last() == ids.take(i as int));
        assert(ids.take(i as int + 1).last() == skill_ids@[i as int]@);
        let id = skill_ids[i].as_str();
        if str_eq(id, "send_key_sequence") {
            out.push(Skill::SendKeySequence);
        } else if str_eq(id, "execute_stratagem") {
            out.push(Skill::ExecuteStratagem);
        } else if str_eq(id, "list_stratagems") {
            out.push(Skill::ListStratagems);
        } else if str_eq(id, "get_key_mappings") {
            out.push(Skill::GetKeyMappings);
        }
        i += 1;
    }
    assert(ids.take(n as int) == ids);
    out
}

/// The system messages of a prompt: the stage's instructions, then the
/// agent's persona when it is not blank.
pub open spec fn system_messages(instructions: Seq<char>, persona: Seq<char>) -> Seq<Seq<char>> {
    if is_blank(persona) {
        seq![instructions]
    } else {
        seq![instructions, "Persona:\n"@ + persona]
    }
}

/// The system messages of a prompt.
pub fn build_system_messages(instructions: &str, persona: &str) -> (r: Vec<String>)
    ensures
        r@.map_values(|s: String| s@) == system_messages(instructions@, persona@),
{
    let mut out: Vec<String> = Vec::new();
    out.push(String::from_str(instructions));
    if !is_blank_str(persona) {
        out.push(String::from_str("Persona:\n").concat(persona));
    }
    assert(out@.map_values(|s: String| s@) =~= system_messages(instructions@, persona@));
    out
}

/// The position of the agent to use: the default agent when there is one,
/// else the first.
pub open spec fn agent_position(ids: Seq<Seq<char>>, default_id: Seq<char>) -> Option<nat> {
    match first_position(ids, default_id) {
        Some(k) => Some(k),
        None => if ids.len() > 0 {
            Some(0)
        } else {
            None
        },
    }
}

/// The first position of `x` in `s`.
pub open spec fn first_position(s: Seq<Seq<char>>, x: Seq<char>) -> Option<nat>
    decreases s.len(),
{
    if s.len() == 0 {
        None
    } else if s[0] == x {
        Some(0)
    } else {
        match first_position(s.drop_first(), x) {
            Some(k) => Some(k + 1),
            None => None,
        }
    }
}

/// The position of the agent to use among agents with the ids `agent_ids`.
pub fn current_ai_agent(agent_ids: &Vec<String>, default_agent_id: &str) -> (r: Result<usize, String>)
    ensures
        match r {
            Ok(k) => agent_position(agent_ids@.map_values(|s: String| s@), default_agent_id@) == Some(
                k as nat,
            ),
            Err(m) => agent_position(agent_ids@.map_values(|s: String| s@), default_agent_id@) is None
                && m@ == "No AI agent is configured."@,
        },
{
    let ghost ids = agent_ids@.map_values(|s: String| s@);
    let n = agent_ids.len();
    let mut i: usize = 0;
    assert(ids.skip(0) == ids);
    while i < n
        invariant
            n == agent_ids@.len(),
            ids == agent_ids@.map_values(|s: String| s@),
            i <= n,
            first_position(ids, default_agent_id@) == match first_position(
                ids.skip(i as int),
                default_agent_id@,
            ) {
                Some(k) => Some((k + i) as nat),
                None => None,
            },
        decreases n - i,
    {
        assert(ids.skip(i as int)[0] == agent_ids@[i as int]@);
        assert(ids.skip(i as int).drop_first() == ids.skip(i as int + 1));
        if str_eq(agent_ids[i].as_str(), default_agent_id) {
            return Ok(i);
        }
        i += 1;
    }
    if n > 0 {
        Ok(0)
    } else {
        Err(String::from_str("No AI agent is configured."))
    }
}

/// What happens to the tool call the decision model chose.
#[derive(Clone, Copy, Debug, PartialEq, Eq, Structural)]
pub enum ToolStep {
    /// The model asked for a reply; nothing runs.
    Reply,
    /// The tool runs.
    Execute,
    /// Automatic execution is off; the tool is skipped.
    Skip,
}

/// What happens to a tool call.
pub fn tool_step(tool_name: &str, auto_execute: bool) -> (r: ToolStep)
    ensures
        r == if tool_name@ == "reply"@ {
            ToolStep::Reply
        } else if auto_execute {
            ToolStep::Execute
        } else {
            ToolStep::Skip
        },
{
    if str_eq(tool_name, "reply") {
        ToolStep::Reply
    } else if auto_execute {
        ToolStep::Execute
    } else {
        ToolStep::Skip
    }
}

/// The result recorded for a tool call: the step's outcome as the reply
/// model reads it.
pub fn tool_result_text(step: ToolStep, outcome: &Result<String, String>) -> (r: String)
    ensures
        r@ == match step {
            ToolStep::Reply => "reply requested"@,
            ToolStep::Skip => "skipped: auto execution is disabled"@,
            ToolStep::Execute => match outcome {
                Ok(o) => "success: "@ + o@,
                Err(e) => "failed: "@ + e@,
            },
        },
{
    match step {
        ToolStep::Reply => String::from_str("reply requested"),
        ToolStep::Skip => String::from_str("skipped: auto execution is disabled"),
        ToolStep::Execute => match outcome {
            Ok(o) => String::from_str("success: ").concat(o.as_str()),
            Err(e) => String::from_str("failed: ").concat(e.as_str()),
        },
    }
}

/// The result a debug run records for the tool call it does not run.
pub fn debug_tool_result_text(tool_name: &str) -> (r: String)
    ensures
        r@ == if tool_name@ == "reply"@ {
            "reply requested"@
        } else {
            "skipped in debug: would_call_tool '"@ + tool_name@ + "'"@
        },
{
    if str_eq(tool_name, "reply") {
        String::from_str("reply requested")
    } else {
        String::from_str("skipped in debug: would_call_tool '").concat(tool_name).concat("'")
    }
}

/// The decision model must choose exactly one tool call.
pub fn check_decision_call_count(count: usize) -> (r: Result<(), String>)
    ensures
        count == 1 <==> r is Ok,
        r matches Err(m) ==> m@ == "Decision model returned "@ + decimal(count as nat)
            + " tool calls; expected exactly one."@,
{
    if count == 1 {
        Ok(())
    } else {
        Err(String::from_str("Decision model returned ").concat(
            decimal_text(count as u64).as_str(),
        ).concat(" tool calls; expected exactly one."))
    }
}

/// The reply to keep: the completion's text, or what was streamed when
/// that is blank.
pub fn final_reply_text(content: String, streamed: String) -> (r: String)
    ensures
        r@ == if is_blank(content@) {
            streamed@
        } else {
            content@
        },
{
    if is_blank_str(content.as_str()) {
        streamed
    } else {
        content
    }
}

/// The API key a request is sent with: the key trimmed; a blank key is
/// refused.
pub fn request_api_key(api_key: &str) -> (r: Result<String, String>)
    ensures
        match r {
            Ok(k) => !is_blank(api_key@) && k@ == trimmed(api_key@),
            Err(m) => is_blank(api_key@) && m@ == "AI API key is empty. Please fill it in Global Settings."@,
        },
{
    if is_blank_str(api_key) {
        Err(String::from_str("AI API key is empty. Please fill it in Global Settings."))
    } else {
        Ok(trim_str(api_key))
    }
}

/// The text handed to speech synthesis: the input trimmed; blank input is
/// refused.
pub fn tts_input_text(text: &str) -> (r: Result<String, String>)
    ensures
        match r {
            Ok(t) => !is_blank(text@) && t@ == trimmed(text@),
            Err(m) => is_blank(text@) && m@ == "AI TTS input text is empty."@,
        },
{
    if is_blank_str(text) {
        Err(String::from_str("AI TTS input text is empty."))
    } else {
        Ok(trim_str(text))
    }
}

/// Checks the input of a language model test: it must not be blank.
pub fn check_llm_debug_input(input_text: &str) -> (r: Result<(), String>)
    ensures
        r is Ok <==> !is_blank(input_text@),
        r matches Err(m) ==> m@ == "LLM debug input text is empty."@,
{
    if is_blank_str(input_text) {
        Err(String::from_str("LLM debug input text is empty."))
    } else {
        Ok(())
    }
}

/// Checks a speech synthesis test: the input must not be blank, and
/// synthesis must be switched on.
pub fn check_tts_debug_input(input_text: &str, tts_enabled: bool) -> (r: Result<(), String>)
    ensures
        r is Ok <==> !is_blank(input_text@) && tts_enabled,
        r matches Err(m) ==> m@ == if is_blank(input_text@) {
            "TTS debug input text is empty."@
        } else {
            "TTS is disabled in AI speech settings."@
        },
{
    if is_blank_str(input_text) {
        Err(String::from_str("TTS debug input text is empty."))
    } else if !tts_enabled {
        Err(String::from_str("TTS is disabled in AI speech settings."))
    } else {
        Ok(())
    }
}

/// The name of the tool call with the id `id`, empty when there is none.
pub open spec fn tool_name_for(calls: Seq<ChatToolCall>, id: Seq<char>) -> Seq<char>
    decreases calls.len(),
{
    if calls.len() == 0 {
        Seq::empty()
    } else if calls[0].id@ == id {
        calls[0].function.name@
    } else {
        tool_name_for(calls.drop_first(), id)
    }
}

/// The name of the tool call with the id `id`, empty when there is none.
pub fn tool_call_name(calls: &Vec<ChatToolCall>, id: &str) -> (r: String)
    ensures
        r@ == tool_name_for(calls@, id@),
{
    let n = calls.len();
    let mut i: usize = 0;
    assert(calls@.skip(0) == calls@);
    while i < n
        invariant
            n == calls@.len(),
            i <= n,
            tool_name_for(calls@, id@) == tool_name_for(calls@.skip(i as int), id@),
        decreases n - i,
    {
        assert(calls@.skip(i as int)[0] == calls@[i as int]);
        assert(calls@.skip(i as int).drop_first() == calls@.skip(i as int + 1));
        if str_eq(calls[i].id.as_str(), id) {
            return copy_string(&calls[i].function.name);
        }
        i += 1;
    }
    String::new()
}


/// The most recent events of a session that a prompt carries: the last
/// `count` of them, and at least the last one.
pub open spec fn window_start(len: nat, count: nat) -> int {
    let keep: nat = if count > 1 {
        count
    } else {
        1
    };
    if len > keep {
        len - keep
    } else {
        0
    }
}

/// The most recent events of a session, oldest first.
pub fn context_window(events: &Vec<AiSessionEvent>, context_event_count: usize) -> (r: Vec<AiSessionEvent>)
    ensures
        r@ == events@.skip(window_start(events@.len(), context_event_count as nat)),
{
    let keep = if context_event_count > 1 {
        context_event_count
    } else {
        1
    };
    let n = events.len();
    let start = if n > keep {
        n - keep
    } else {
        0
    };
    let mut out: Vec<AiSessionEvent> = Vec::new();
    let mut i = start;
    while i < n
        invariant
            n == events@.len(),
            start <= i <= n,
            out@ == events@.subrange(start as int, i as int),
        decreases n - i,
    {
        out.push(events[i].clone());
        i += 1;
    }
    assert(out@ =~= events@.skip(start as int));
    out
}

/// An event of the context window with the ids of the tool calls it
/// records, when it records tool calls that could be read.
#[derive(Debug)]
pub struct ContextEvent {
    pub event: AiSessionEvent,
    pub tool_call_ids: Option<Vec<String>>,
}

/// The tool call a result event answers.
pub open spec fn result_id(e: ContextEvent) -> Option<Seq<char>> {
    if e.event.kind@ == "tool_result"@ {
        match e.event.text {
            Some(t) => member_text(json_member_of(t@, "tool_call_id"@)),
            None => None,
        }
    } else {
        None
    }
}

/// The tool call ids of an event that records tool calls.
pub open spec fn calls_of(e: ContextEvent) -> Option<Seq<Seq<char>>> {
    if e.event.kind@ == "assistant_tool_calls"@ && e.event.text is Some {
        match e.tool_call_ids {
            Some(v) => Some(v@.map_values(|s: String| s@)),
            None => None,
        }
    } else {
        None
    }
}

/// The answered call of each event of a window.
pub open spec fn result_ids_of(w: Seq<ContextEvent>) -> Seq<Option<Seq<char>>> {
    Seq::new(w.len(), |j: int| result_id(w[j]))
}

/// Whether `j` is the first event after `i` that answers the call `id`.
pub open spec fn is_first_result(rid: Seq<Option<Seq<char>>>, i: int, id: Seq<char>, j: int) -> bool {
    &&& i < j < rid.len()
    &&& rid[j] == Some(id)
    &&& forall|m: int| i < m < j ==> rid[m] != Some(id)
}

/// Whether a later event than `i` answers the call `id`.
pub open spec fn answered(w: Seq<ContextEvent>, i: int, id: Seq<char>) -> bool {
    exists|j: int| is_first_result(result_ids_of(w), i, id, j)
}

/// Whether the tool calls of event `i` are kept: each of them is answered
/// by a later event.
pub open spec fn call_event_kept(w: Seq<ContextEvent>, i: int) -> bool {
    match calls_of(w[i]) {
        Some(c) => c.len() > 0 && forall|k: int| 0 <= k < c.len() ==> answered(w, i, #[trigger] c[k]),
        None => false,
    }
}

/// Whether result event `j` is kept: it is the first answer to a call of a
/// kept event.
pub open spec fn result_event_kept(w: Seq<ContextEvent>, j: int) -> bool {
    exists|i: int| 0 <= i < j && #[trigger] answers_kept_call(w, i, j)
}

/// Whether event `j` is the first answer to one of the calls of the kept
/// event `i`.
pub open spec fn answers_kept_call(w: Seq<ContextEvent>, i: int, j: int) -> bool {
    &&& call_event_kept(w, i)
    &&& exists|k: int|
        0 <= k < calls_of(w[i])->0.len() && #[trigger] is_first_result(
            result_ids_of(w),
            i,
            calls_of(w[i])->0[k],
            j,
        )
}

/// A message of the prompt built from a session's events.
#[derive(Debug)]
pub enum ContextMessage {
    User(String),
    Assistant(String),
    /// The tool calls recorded by the event at this position of the window.
    ToolCalls(usize),
    /// The tool result recorded by the event at this position of the window.
    ToolResult(usize),
}

/// The plain values of a prompt message.
pub enum ContextEntry {
    User(Seq<char>),
    Assistant(Seq<char>),
    ToolCalls(nat),
    ToolResult(nat),
}

/// The plain values of prompt messages.
pub open spec fn entries_view(v: Seq<ContextMessage>) -> Seq<ContextEntry> {
    v.map_values(
        |m: ContextMessage|
            match m {
                ContextMessage::User(t) => ContextEntry::User(t@),
                ContextMessage::Assistant(t) => ContextEntry::Assistant(t@),
                ContextMessage::ToolCalls(i) => ContextEntry::ToolCalls(i as nat),
                ContextMessage::ToolResult(i) => ContextEntry::ToolResult(i as nat),
            },
    )
}

/// The message, if any, event `i` of the window contributes: user and
/// assistant texts that are not blank, and tool calls and results that are
/// paired with each other.
pub open spec fn entry_for(w: Seq<ContextEvent>, i: int) -> Option<ContextEntry> {
    let e = w[i].event;
    if e.kind@ == "user_transcript"@ {
        match e.text {
            Some(t) => if is_blank(t@) {
                None
            } else {
                Some(ContextEntry::User(t@))
            },
            None => None,
        }
    } else if e.kind@ == "assistant_final"@ || e.kind@ == "assistant_partial"@ {
        match e.text {
            Some(t) => if is_blank(t@) {
                None
            } else {
                Some(ContextEntry::Assistant(t@))
            },
            None => None,
        }
    } else if e.kind@ == "assistant_tool_calls"@ {
        if call_event_kept(w, i) {
            Some(ContextEntry::ToolCalls(i as nat))
        } else {
            None
        }
    } else if e.kind@ == "tool_result"@ {
        if result_event_kept(w, i) && e.text is Some {
            Some(ContextEntry::ToolResult(i as nat))
        } else {
            None
        }
    } else {
        None
    }
}

/// The messages of the first `n` events of the window, in order.
pub open spec fn context_entries(w: Seq<ContextEvent>, n: nat) -> Seq<ContextEntry>
    decreases n,
{
    if n == 0 {
        Seq::empty()
    } else {
        let rest = context_entries(w, (n - 1) as nat);
        match entry_for(w, n - 1) {
            Some(m) => rest.push(m),
            None => rest,
        }
    }
}

/// Each user transcript and each assistant reply, final or interrupted
/// and saved as partial, whose text is not blank adds one message carrying
/// that text right after the messages of the events before it; without a
/// text, or with a blank one, it adds nothing.
pub proof fn lemma_chat_events_carry_their_text(w: Seq<ContextEvent>, i: int)
    requires
        0 <= i < w.len(),
    ensures
        ({
            let e = w[i].event;
            let before = context_entries(w, i as nat);
            let after = context_entries(w, (i + 1) as nat);
            &&& e.kind@ == "user_transcript"@ ==> after == match e.text {
                Some(t) => if is_blank(t@) {
                    before
                } else {
                    before.push(ContextEntry::User(t@))
                },
                None => before,
            }
            &&& (e.kind@ == "assistant_final"@ || e.kind@ == "assistant_partial"@) ==> after == match e.text {
                Some(t) => if is_blank(t@) {
                    before
                } else {
                    before.push(ContextEntry::Assistant(t@))
                },
                None => before,
            }
        }),
{
    reveal_strlit("user_transcript");
    reveal_strlit("assistant_final");
    reveal_strlit("assistant_partial");
    assert("user_transcript"@[0] != "assistant_final"@[0]);
    assert("user_transcript"@ != "assistant_final"@);
    assert("user_transcript"@ != "assistant_partial"@);
}

fn result_ids(window: &Vec<ContextEvent>) -> (r: Vec<Option<String>>)
    ensures
        r@.map_values(|o: Option<String>| text_view(o)) == result_ids_of(window@),
{
    let mut out: Vec<Option<String>> = Vec::new();
    let n = window.len();
    let mut i: usize = 0;
    while i < n
        invariant
            n == window@.len(),
            i <= n,
            out@.len() == i,
            forall|j: int| 0 <= j < i ==> text_view(#[trigger] out@[j]) == result_id(window@[j]),
        decreases n - i,
    {
        let e = &window[i].event;
        let id = if str_eq(e.kind.as_str(), "tool_result") {
            match &e.text {
                Some(t) => text_of_member(json_member(t.as_str(), "tool_call_id")),
                None => None,
            }
        } else {
            None
        };
        out.push(id);
        i += 1;
    }
    assert(out@.map_values(|o: Option<String>| text_view(o)) =~= result_ids_of(window@));
    out
}

fn first_result_after(ids: &Vec<Option<String>>, i: usize, id: &str) -> (r: Option<usize>)
    ensures
        match r {
            Some(j) => is_first_result(ids@.map_values(|o: Option<String>| text_view(o)), i as int, id@, j as int),
            None => forall|j: int|
                i < j < ids@.len() ==> #[trigger] text_view(ids@[j]) != Some(id@),
        },
{
    let ghost rid = ids@.map_values(|o: Option<String>| text_view(o));
    let n = ids.len();
    if i >= n {
        return None;
    }
    let mut j = i + 1;
    while j < n
        invariant
            n == ids@.len(),
            rid == ids@.map_values(|o: Option<String>| text_view(o)),
            i < j <= n,
            forall|m: int| i < m < j ==> #[trigger] text_view(ids@[m]) != Some(id@),
        decreases n - j,
    {
        let hit = match &ids[j] {
            Some(x) => str_eq(x.as_str(), id),
            None => false,
        };
        if hit {
            assert forall|m: int| i < m < j implies rid[m] != Some(id@) by {
                assert(rid[m] == text_view(ids@[m]));
            }
            return Some(j);
        }
        j += 1;
    }
    None
}

proof fn lemma_first_result_unique(rid: Seq<Option<Seq<char>>>, i: int, id: Seq<char>, a: int, b: int)
    requires
        is_first_result(rid, i, id, a),
        is_first_result(rid, i, id, b),
    ensures
        a == b,
{
    if a < b {
        assert(rid[a] != Some(id));
    } else if b < a {
        assert(rid[b] != Some(id));
    }
}


/// The prompt messages of a context window: user and assistant texts that
/// are not blank, tool calls whose every call is answered later, and the
/// first answers to those calls; everything else is left out.
pub fn plan_context_messages(window: &Vec<ContextEvent>) -> (r: Vec<ContextMessage>)
    ensures
        entries_view(r@) == context_entries(window@, window@.len()),
{
    let ghost w = window@;
    let ghost rid = result_ids_of(w);
    let ids = result_ids(window);
    let n = window.len();
    let mut call_kept: Vec<bool> = Vec::new();
    let mut result_kept: Vec<bool> = Vec::new();
    let mut z: usize = 0;
    while z < n
        invariant
            z <= n,
            call_kept@.len() == z,
            result_kept@.len() == z,
            forall|a: int| 0 <= a < z ==> !(#[trigger] call_kept@[a]),
            forall|a: int| 0 <= a < z ==> !(#[trigger] result_kept@[a]),
        decreases n - z,
    {
        call_kept.push(false);
        result_kept.push(false);
        z += 1;
    }
    let mut i: usize = 0;
    while i < n
        invariant
            n == w.len(),
            w == window@,
            rid == result_ids_of(w),
            ids@.map_values(|o: Option<String>| text_view(o)) == rid,
            i <= n,
            call_kept@.len() == n,
            result_kept@.len() == n,
            forall|a: int| 0 <= a < i ==> (#[trigger] call_kept@[a]) == call_event_kept(w, a),
            forall|j: int|
                0 <= j < n ==> ((#[trigger] result_kept@[j]) <==> exists|a: int|
                    0 <= a < i && a < j && #[trigger] answers_kept_call(w, a, j)),
        decreases n - i,
    {
        let e = &window[i];
        let is_calls = str_eq(e.event.kind.as_str(), "assistant_tool_calls") && e.event.text.is_some();
        let mut kept = false;
        if is_calls {
            match &e.tool_call_ids {
                Some(c) => {
                    let ghost cv = c@.map_values(|s: String| s@);
                    assert(calls_of(w[i as int]) == Some(cv));
                    let mut found: Vec<usize> = Vec::new();
                    let mut ok = true;
                    let mut k: usize = 0;
                    while k < c.len() && ok
                        invariant
                            cv == c@.map_values(|s: String| s@),
                            ids@.map_values(|o: Option<String>| text_view(o)) == rid,
                            rid == result_ids_of(w),
                            k <= c@.len(),
                            ok ==> found@.len() == k,
                            ok ==> forall|t: int|
                                0 <= t < k ==> is_first_result(rid, i as int, cv[t], #[trigger] found@[t] as int),
                            !ok ==> exists|t: int| 0 <= t < c@.len() && !answered(w, i as int, #[trigger] cv[t]),
                        decreases c@.len() - k,
                    {
                        match first_result_after(&ids, i, c[k].as_str()) {
                            Some(j) => {
                                found.push(j);
                            },
                            None => {
                                proof {
                                    assert(cv[k as int] == c@[k as int]@);
                                    assert forall|j: int| !is_first_result(rid, i as int, cv[k as int], j) by {
                                        if i < j < rid.len() {
                                            assert(rid[j] == text_view(ids@[j]));
                                        }
                                    }
                                    assert(!answered(w, i as int, cv[k as int]));
                                }
                                ok = false;
                            },
                        }
                        k += 1;
                    }
                    if ok && c.len() > 0 {
                        proof {
                            assert forall|t: int| 0 <= t < cv.len() implies answered(w, i as int, #[trigger] cv[t]) by {
                                assert(is_first_result(rid, i as int, cv[t], found@[t] as int));
                            }
                        }
                        kept = true;
                        let ghost before = result_kept@;
                        let mut t: usize = 0;
                        while t < found.len()
                            invariant
                                found@.len() == cv.len(),
                                result_kept@.len() == n,
                                t <= found@.len(),
                                forall|q: int| 0 <= q < found@.len() ==> (#[trigger] found@[q]) < n,
                                forall|j: int|
                                    0 <= j < n ==> ((#[trigger] result_kept@[j]) <==> (before[j] || exists|q: int|
                                        0 <= q < t && #[trigger] found@[q] == j)),
                            decreases found@.len() - t,
                        {
                            let j = found[t];
                            result_kept.set(j, true);
                            t += 1;
                        }
                        proof {
                            assert(call_event_kept(w, i as int));
                            assert forall|j: int| 0 <= j < n implies ((#[trigger] result_kept@[j]) <==> exists|a: int|
                                0 <= a < i + 1 && a < j && #[trigger] answers_kept_call(w, a, j)) by {
                                if result_kept@[j] && !before[j] {
                                    let q = choose|q: int| 0 <= q < t && #[trigger] found@[q] == j;
                                    assert(is_first_result(rid, i as int, cv[q], j));
                                    assert(answers_kept_call(w, i as int, j));
                                }
                                if exists|a: int| 0 <= a < i + 1 && a < j && #[trigger] answers_kept_call(w, a, j) {
                                    let a = choose|a: int| 0 <= a < i + 1 && a < j && #[trigger] answers_kept_call(w, a, j);
                                    if a == i {
                                        let kk = choose|kk: int| 0 <= kk < cv.len() && #[trigger] is_first_result(rid, i as int, cv[kk], j);
                                        assert(is_first_result(rid, i as int, cv[kk], found@[kk] as int));
                                        lemma_first_result_unique(rid, i as int, cv[kk], j, found@[kk] as int);
                                        assert(found@[kk] == j);
                                    }
                                }
                            }
                        }
                    }
                },
                None => {},
            }
        }
        if !kept {
            proof {
                assert(!call_event_kept(w, i as int));
                assert forall|j: int| 0 <= j < n implies ((#[trigger] result_kept@[j]) <==> exists|a: int|
                    0 <= a < i + 1 && a < j && #[trigger] answers_kept_call(w, a, j)) by {
                    if exists|a: int| 0 <= a < i + 1 && a < j && #[trigger] answers_kept_call(w, a, j) {
                        let a = choose|a: int| 0 <= a < i + 1 && a < j && #[trigger] answers_kept_call(w, a, j);
                        assert(a != i);
                    }
                }
            }
        }
        call_kept.set(i, kept);
        i += 1;
    }
    let mut out: Vec<ContextMessage> = Vec::new();
    let mut i: usize = 0;
    while i < n
        invariant
            n == w.len(),
            w == window@,
            i <= n,
            call_kept@.len() == n,
            result_kept@.len() == n,
            forall|a: int| 0 <= a < n ==> (#[trigger] call_kept@[a]) == call_event_kept(w, a),
            forall|j: int| 0 <= j < n ==> (#[trigger] result_kept@[j]) == result_event_kept(w, j),
            entries_view(out@) == context_entries(w, i as nat),
        decreases n - i,
    {
        let e = &window[i].event;
        let kind = e.kind.as_str();
        let ghost before = out@;
        let msg: Option<ContextMessage> = if str_eq(kind, "user_transcript") {
            match &e.text {
                Some(t) => if is_blank_str(t.as_str()) {
                    None
                } else {
                    Some(ContextMessage::User(copy_string(t)))
                },
                None => None,
            }
        } else if str_eq(kind, "assistant_final") || str_eq(kind, "assistant_partial") {
            match &e.text {
                Some(t) => if is_blank_str(t.as_str()) {
                    None
                } else {
                    Some(ContextMessage::Assistant(copy_string(t)))
                },
                None => None,
            }
        } else if str_eq(kind, "assistant_tool_calls") {
            if call_kept[i] {
                Some(ContextMessage::ToolCalls(i))
            } else {
                None
            }
        } else if str_eq(kind, "tool_result") {
            if result_kept[i] && e.text.is_some() {
                Some(ContextMessage::ToolResult(i))
            } else {
                None
            }
        } else {
            None
        };
        match msg {
            Some(m) => {
                out.push(m);
                assert(entries_view(out@) =~= entries_view(before).push(entries_view(out@).last()));
            },
            None => {},
        }
        i += 1;
    }
    out
}


/// A text with each `\r\n` replaced by `\n`, left to right.
pub open spec fn crlf_to_lf(s: Seq<char>) -> Seq<char>
    decreases s.len(),
{
    if s.len() >= 2 && s[0] == '\r' && s[1] == '\n' {
        seq!['\n'] + crlf_to_lf(s.skip(2))
    } else if s.len() > 0 {
        seq![s[0]] + crlf_to_lf(s.skip(1))
    } else {
        s
    }
}

/// The position of the first blank line separator `\n\n` in `s`.
pub open spec fn first_separator(s: Seq<char>) -> Option<nat>
    decreases s.len(),
{
    if s.len() < 2 {
        None
    } else if s[0] == '\n' && s[1] == '\n' {
        Some(0)
    } else {
        match first_separator(s.skip(1)) {
            Some(b) => Some(b + 1),
            None => None,
        }
    }
}

/// The complete events of a server-sent event stream's pending text, in
/// order, and the text left after them: each event ends at the first
/// `\n\n`.
pub open spec fn frame_events(s: Seq<char>) -> (Seq<Seq<char>>, Seq<char>)
    decreases s.len(),
{
    match first_separator(s) {
        Some(b) => if b + 2 <= s.len() {
            let (rest_events, rest) = frame_events(s.skip(b as int + 2));
            (seq![s.take(b as int)] + rest_events, rest)
        } else {
            (Seq::empty(), s)
        },
        None => (Seq::empty(), s),
    }
}

/// The data of an event line: what follows `data:` on the trimmed line,
/// trimmed.
pub open spec fn data_of_line(line: Seq<char>) -> Option<Seq<char>> {
    let t = trimmed(line);
    if has_prefix(t, "data:"@) {
        Some(trimmed(t.skip(5)))
    } else {
        None
    }
}

/// The data of the lines of an event, in order.
pub open spec fn data_lines(lines: Seq<Seq<char>>) -> Seq<Seq<char>>
    decreases lines.len(),
{
    if lines.len() == 0 {
        Seq::empty()
    } else {
        let rest = data_lines(lines.drop_last());
        match data_of_line(lines.last()) {
            Some(d) => rest.push(d),
            None => rest,
        }
    }
}

/// The payload of an event: its data lines joined by `\n`; nothing when it
/// has none or when it is the end marker `[DONE]`.
pub open spec fn event_payload_of(event: Seq<char>) -> Option<Seq<char>> {
    let d = data_lines(lines_of(event));
    if d.len() == 0 {
        None
    } else if join_with(d, seq!['\n']) == "[DONE]"@ {
        None
    } else {
        Some(join_with(d, seq!['\n']))
    }
}


fn crlf_to_lf_chars(s: &Vec<char>) -> (r: Vec<char>)
    ensures
        r@ == crlf_to_lf(s@),
{
    let mut out: Vec<char> = Vec::new();
    let n = s.len();
    let mut i: usize = 0;
    assert(s@.skip(0) == s@);
    while i < n
        invariant
            n == s@.len(),
            i <= n,
            crlf_to_lf(s@) == out@ + crlf_to_lf(s@.skip(i as int)),
        decreases n - i,
    {
        let ghost rest = s@.skip(i as int);
        assert(rest[0] == s@[i as int]);
        if i + 1 < n && s[i] == '\r' && s[i + 1] == '\n' {
            assert(rest[1] == s@[i + 1]);
            assert(rest.skip(2) == s@.skip(i + 2));
            out.push('\n');
            assert(out@ + crlf_to_lf(s@.skip(i + 2)) =~= (out@.drop_last() + (seq!['\n']
                + crlf_to_lf(rest.skip(2)))));
            i += 2;
        } else {
            assert(rest.skip(1) == s@.skip(i + 1));
            out.push(s[i]);
            assert(out@ + crlf_to_lf(s@.skip(i + 1)) =~= (out@.drop_last() + (seq![rest[0]]
                + crlf_to_lf(rest.skip(1)))));
            i += 1;
        }
    }
    assert(s@.skip(n as int).len() == 0);
    assert(out@ + crlf_to_lf(s@.skip(n as int)) =~= out@);
    out
}

fn find_separator(s: &Vec<char>) -> (r: Option<usize>)
    ensures
        match r {
            Some(b) => first_separator(s@) == Some(b as nat) && b + 2 <= s@.len(),
            None => first_separator(s@) is None,
        },
{
    let n = s.len();
    if n < 2 {
        return None;
    }
    let mut j: usize = 0;
    assert(s@.skip(0) == s@);
    while j + 1 < n
        invariant
            n == s@.len(),
            n >= 2,
            j + 1 <= n,
            first_separator(s@) == match first_separator(s@.skip(j as int)) {
                Some(b) => Some((b + j) as nat),
                None => None,
            },
        decreases n - j,
    {
        let ghost rest = s@.skip(j as int);
        assert(rest[0] == s@[j as int]);
        assert(rest[1] == s@[j + 1]);
        assert(rest.skip(1) == s@.skip(j + 1));
        if s[j] == '\n' && s[j + 1] == '\n' {
            return Some(j);
        }
        j += 1;
    }
    assert(s@.skip(j as int).len() < 2);
    None
}

/// The complete events of a pending text and what is left after them.
pub fn frame_pending_events(pending: &Vec<char>) -> (r: (Vec<String>, Vec<char>))
    ensures
        (r.0@.map_values(|e: String| e@), r.1@) == frame_events(pending@),
{
    let mut events: Vec<String> = Vec::new();
    let mut cur: Vec<char> = crate::text::slice_chars(pending, 0, pending.len());
    assert(cur@ == pending@.subrange(0, pending@.len() as int));
    assert(cur@ =~= pending@);
    loop
        invariant
            frame_events(pending@) == (events@.map_values(|e: String| e@) + frame_events(cur@).0, frame_events(
                cur@,
            ).1),
        decreases cur@.len(),
    {
        match find_separator(&cur) {
            Some(b) => {
                let n = cur.len();
                let event = crate::text::slice_chars(&cur, 0, b);
                let rest = crate::text::slice_chars(&cur, b + 2, n);
                assert(event@ == cur@.take(b as int));
                assert(rest@ == cur@.skip(b + 2));
                let ghost before = events@.map_values(|e: String| e@);
                events.push(string_of(&event));
                assert(events@.map_values(|e: String| e@) =~= before.push(cur@.take(b as int)));
                assert(frame_events(cur@).0 == seq![cur@.take(b as int)] + frame_events(rest@).0);
                assert(before + (seq![cur@.take(b as int)] + frame_events(rest@).0) =~= before.push(
                    cur@.take(b as int),
                ) + frame_events(rest@).0);
                cur = rest;
            },
            None => {
                assert(frame_events(cur@) == (Seq::<Seq<char>>::empty(), cur@));
                assert(events@.map_values(|e: String| e@) + Seq::<Seq<char>>::empty() =~= events@.map_values(
                    |e: String| e@,
                ));
                return (events, cur);
            },
        }
    }
}

fn data_of_line_chars(line: &Vec<char>) -> (r: Option<Vec<char>>)
    ensures
        match r {
            Some(d) => data_of_line(line@) == Some(d@),
            None => data_of_line(line@) is None,
        },
{
    let t = crate::text::trim_chars(line);
    let prefix = vec!['d', 'a', 't', 'a', ':'];
    proof {
        reveal_strlit("data:");
    }
    assert(prefix@ =~= "data:"@);
    if t.len() < 5 {
        return None;
    }
    let head = crate::text::slice_chars(&t, 0, 5);
    let mut same = true;
    let mut k: usize = 0;
    while k < 5
        invariant
            head@.len() == 5,
            prefix@.len() == 5,
            k <= 5,
            same <==> forall|q: int| 0 <= q < k ==> head@[q] == prefix@[q],
        decreases 5 - k,
    {
        if head[k] != prefix[k] {
            same = false;
        }
        k += 1;
    }
    if !same {
        assert(head@ != prefix@);
        assert(t@.take(5) == head@);
        return None;
    }
    assert(head@ =~= prefix@);
    let n = t.len();
    let rest = crate::text::slice_chars(&t, 5, n);
    assert(rest@ == t@.skip(5));
    Some(crate::text::trim_chars(&rest))
}

/// The payload of a server-sent event.
pub fn event_payload(event: &str) -> (r: Option<String>)
    ensures
        text_view(r) == event_payload_of(event@),
{
    let lines = crate::assets::split_lines(&chars_of(event));
    let ghost lv = lines.deep_view();
    let mut data: Vec<Vec<char>> = Vec::new();
    let n = lines.len();
    let mut i: usize = 0;
    while i < n
        invariant
            n == lines@.len(),
            lv == lines.deep_view(),
            i <= n,
            data.deep_view() == data_lines(lv.take(i as int)),
        decreases n - i,
    {
        assert(lv.take(i as int + 1).drop_last() == lv.take(i as int));
        assert(lv.take(i as int + 1).last() == lines@[i as int]@);
        match data_of_line_chars(&lines[i]) {
            Some(d) => crate::text::push_word(&mut data, d),
            None => {},
        }
        i += 1;
    }
    assert(lv.take(n as int) == lv);
    if data.len() == 0 {
        return None;
    }
    let newline = vec!['\n'];
    assert(newline@ == seq!['\n']);
    let joined = string_of(&crate::text::join_chars(&data, &newline));
    if str_eq(joined.as_str(), "[DONE]") {
        None
    } else {
        Some(joined)
    }
}


/// A piece of a tool call streamed by the model.
#[derive(Debug)]
pub struct ToolCallDelta {
    /// Which tool call of the reply the piece belongs to.
    pub index: usize,
    pub id: Option<String>,
    pub call_type: Option<String>,
    /// A piece of the function's name.
    pub name: Option<String>,
    /// A piece of the function's arguments.
    pub arguments: Option<String>,
}

/// What one choice of a streamed chunk adds.
#[derive(Debug)]
pub struct ChatDelta {
    pub content: Option<String>,
    pub tool_calls: Option<Vec<ToolCallDelta>>,
}

/// A tool call being assembled from streamed pieces.
#[derive(Debug)]
pub struct PartialToolCall {
    pub id: String,
    pub call_type: String,
    pub function_name: String,
    pub arguments: String,
}

/// The plain values of a tool call being assembled.
pub struct PartialModel {
    pub id: Seq<char>,
    pub call_type: Seq<char>,
    pub name: Seq<char>,
    pub arguments: Seq<char>,
}

/// The plain values of a tool call being assembled.
pub open spec fn partial_model(p: PartialToolCall) -> PartialModel {
    PartialModel { id: p.id@, call_type: p.call_type@, name: p.function_name@, arguments: p.arguments@ }
}

/// The text of an optional piece, empty when absent.
pub open spec fn piece(o: Option<String>) -> Seq<char> {
    match o {
        Some(s) => s@,
        None => Seq::empty(),
    }
}

/// A tool call with a streamed piece applied: a given id or type replaces
/// the old one; name and arguments pieces are appended.
pub open spec fn merge_delta(p: PartialModel, d: ToolCallDelta) -> PartialModel {
    PartialModel {
        id: match d.id {
            Some(x) => x@,
            None => p.id,
        },
        call_type: match d.call_type {
            Some(x) => x@,
            None => p.call_type,
        },
        name: p.name + piece(d.name),
        arguments: p.arguments + piece(d.arguments),
    }
}

/// A tool call with nothing assembled yet.
pub open spec fn empty_partial() -> PartialModel {
    PartialModel { id: Seq::empty(), call_type: Seq::empty(), name: Seq::empty(), arguments: Seq::empty() }
}

/// The first position of the assembled calls whose index is at least `idx`.
pub open spec fn slot_for(parts: Seq<(usize, PartialModel)>, idx: usize) -> nat
    decreases parts.len(),
{
    if parts.len() == 0 {
        0
    } else if parts[0].0 >= idx {
        0
    } else {
        1 + slot_for(parts.drop_first(), idx)
    }
}

/// The assembled calls, kept in index order, with a piece applied to the
/// call of its index (started when new).
pub open spec fn upsert(parts: Seq<(usize, PartialModel)>, d: ToolCallDelta) -> Seq<(usize, PartialModel)> {
    let p = slot_for(parts, d.index);
    if p < parts.len() && parts[p as int].0 == d.index {
        parts.update(p as int, (d.index, merge_delta(parts[p as int].1, d)))
    } else {
        parts.insert(p as int, (d.index, merge_delta(empty_partial(), d)))
    }
}

/// The assembled calls after a run of pieces.
pub open spec fn apply_deltas(parts: Seq<(usize, PartialModel)>, ds: Seq<ToolCallDelta>) -> Seq<
    (usize, PartialModel),
>
    decreases ds.len(),
{
    if ds.len() == 0 {
        parts
    } else {
        upsert(apply_deltas(parts, ds.drop_last()), ds.last())
    }
}

/// The assembled calls after the choices of a chunk.
pub open spec fn apply_choices(parts: Seq<(usize, PartialModel)>, cs: Seq<ChatDelta>) -> Seq<
    (usize, PartialModel),
>
    decreases cs.len(),
{
    if cs.len() == 0 {
        parts
    } else {
        let before = apply_choices(parts, cs.drop_last());
        match cs.last().tool_calls {
            Some(ds) => apply_deltas(before, ds@),
            None => before,
        }
    }
}

/// The texts the choices of a chunk add, in order.
pub open spec fn choice_texts(cs: Seq<ChatDelta>) -> Seq<Seq<char>>
    decreases cs.len(),
{
    if cs.len() == 0 {
        Seq::empty()
    } else {
        let rest = choice_texts(cs.drop_last());
        match cs.last().content {
            Some(t) => rest.push(t@),
            None => rest,
        }
    }
}

/// Texts concatenated.
pub open spec fn concat_all(ts: Seq<Seq<char>>) -> Seq<char>
    decreases ts.len(),
{
    if ts.len() == 0 {
        Seq::empty()
    } else {
        concat_all(ts.drop_last()) + ts.last()
    }
}

/// Whether assembled calls are in strictly increasing index order.
pub open spec fn sorted_indices(parts: Seq<(usize, PartialModel)>) -> bool {
    forall|i: int, j: int| 0 <= i < j < parts.len() ==> parts[i].0 < parts[j].0
}

/// A streamed chat completion being read: the text not yet framed into
/// events, the content so far and the tool calls being assembled.
pub struct StreamAccumulator {
    pending: Vec<char>,
    content: String,
    partial: Vec<(usize, PartialToolCall)>,
}

/// The plain values of assembled calls.
pub open spec fn parts_view(v: Seq<(usize, PartialToolCall)>) -> Seq<(usize, PartialModel)> {
    v.map_values(|e: (usize, PartialToolCall)| (e.0, partial_model(e.1)))
}

proof fn lemma_slot_bounds(parts: Seq<(usize, PartialModel)>, idx: usize)
    requires
        sorted_indices(parts),
    ensures
        slot_for(parts, idx) <= parts.len(),
        forall|i: int| 0 <= i < slot_for(parts, idx) ==> parts[i].0 < idx,
        forall|i: int| slot_for(parts, idx) <= i < parts.len() ==> parts[i].0 >= idx,
    decreases parts.len(),
{
    if parts.len() > 0 {
        let rest = parts.drop_first();
        assert(sorted_indices(rest)) by {
            assert forall|i: int, j: int| 0 <= i < j < rest.len() implies rest[i].0 < rest[j].0 by {
                assert(rest[i] == parts[i + 1]);
                assert(rest[j] == parts[j + 1]);
            }
        }
        lemma_slot_bounds(rest, idx);
        if parts[0].0 < idx {
            assert forall|i: int| 0 <= i < slot_for(parts, idx) implies parts[i].0 < idx by {
                if i > 0 {
                    assert(parts[i] == rest[i - 1]);
                }
            }
            assert forall|i: int| slot_for(parts, idx) <= i < parts.len() implies parts[i].0 >= idx by {
                assert(parts[i] == rest[i - 1]);
            }
        } else {
            assert forall|i: int| 0 <= i < parts.len() implies parts[i].0 >= idx by {
                if i > 0 {
                    assert(parts[0].0 < parts[i].0);
                }
            }
        }
    }
}

proof fn lemma_upsert_sorted(parts: Seq<(usize, PartialModel)>, d: ToolCallDelta)
    requires
        sorted_indices(parts),
    ensures
        sorted_indices(upsert(parts, d)),
{
    lemma_slot_bounds(parts, d.index);
    let p = slot_for(parts, d.index) as int;
    let r = upsert(parts, d);
    if p < parts.len() && parts[p].0 == d.index {
        assert forall|i: int, j: int| 0 <= i < j < r.len() implies r[i].0 < r[j].0 by {
            assert(r[i].0 == parts[i].0);
            assert(r[j].0 == parts[j].0);
        }
    } else {
        assert forall|i: int, j: int| 0 <= i < j < r.len() implies r[i].0 < r[j].0 by {
            if j < p {
                assert(r[i] == parts[i] && r[j] == parts[j]);
            } else if j == p {
                assert(r[i] == parts[i]);
            } else if i < p {
                assert(r[i] == parts[i] && r[j] == parts[j - 1]);
            } else if i == p {
                assert(r[j] == parts[j - 1]);
            } else {
                assert(r[i] == parts[i - 1] && r[j] == parts[j - 1]);
            }
        }
    }
}

fn optional_piece(o: &Option<String>) -> (r: &str)
    ensures
        r@ == piece(*o),
{
    proof {
        reveal_strlit("");
    }
    match o {
        Some(s) => s.as_str(),
        None => "",
    }
}

fn merge_partial(p: &PartialToolCall, d: &ToolCallDelta) -> (r: PartialToolCall)
    ensures
        partial_model(r) == merge_delta(partial_model(*p), *d),
{
    proof {
        reveal_strlit("");
    }
    PartialToolCall {
        id: match &d.id {
            Some(x) => copy_string(x),
            None => copy_string(&p.id),
        },
        call_type: match &d.call_type {
            Some(x) => copy_string(x),
            None => copy_string(&p.call_type),
        },
        function_name: copy_string(&p.function_name).concat(optional_piece(&d.name)),
        arguments: copy_string(&p.arguments).concat(optional_piece(&d.arguments)),
    }
}

impl StreamAccumulator {
    /// The text not yet framed into events.
    pub closed spec fn pending_view(&self) -> Seq<char> {
        self.pending@
    }

    /// The content streamed so far.
    pub closed spec fn content_view(&self) -> Seq<char> {
        self.content@
    }

    /// The tool calls being assembled, in index order.
    pub closed spec fn parts(&self) -> Seq<(usize, PartialModel)> {
        parts_view(self.partial@)
    }

    /// Whether the calls being assembled are in strictly increasing index
    /// order.
    pub closed spec fn well_formed(&self) -> bool {
        sorted_indices(self.parts())
    }

    /// Nothing read yet.
    pub fn new() -> (r: Self)
        ensures
            r.well_formed(),
            r.pending_view() == Seq::<char>::empty(),
            r.content_view() == Seq::<char>::empty(),
            r.parts() == Seq::<(usize, PartialModel)>::empty(),
    {
        let r = StreamAccumulator { pending: Vec::new(), content: String::new(), partial: Vec::new() };
        assert(r.parts() =~= Seq::<(usize, PartialModel)>::empty());
        r
    }

    /// Takes a chunk of the response body, decoded as text: line ends
    /// `\r\n` become `\n`, and the events completed by it are returned in
    /// order.
    pub fn push_text(&mut self, chunk: &str) -> (events: Vec<String>)
        requires
            old(self).well_formed(),
        ensures
            final(self).well_formed(),
            (events@.map_values(|e: String| e@), final(self).pending_view()) == frame_events(
                old(self).pending_view() + crlf_to_lf(chunk@),
            ),
            final(self).content_view() == old(self).content_view(),
            final(self).parts() == old(self).parts(),
    {
        let converted = crlf_to_lf_chars(&chars_of(chunk));
        let mut all = crate::text::slice_chars(&self.pending, 0, self.pending.len());
        assert(all@ =~= self.pending@);
        crate::text::append_chars(&mut all, &converted);
        let (events, rest) = frame_pending_events(&all);
        self.pending = rest;
        events
    }

    /// The text left when the response ends, when it is not blank.
    pub fn take_remainder(&mut self) -> (r: Option<String>)
        requires
            old(self).well_formed(),
        ensures
            final(self).well_formed(),
            match r {
                Some(t) => !is_blank(old(self).pending_view()) && t@ == old(self).pending_view(),
                None => is_blank(old(self).pending_view()),
            },
            final(self).pending_view() == Seq::<char>::empty(),
            final(self).content_view() == old(self).content_view(),
            final(self).parts() == old(self).parts(),
    {
        let text = string_of(&self.pending);
        self.pending = Vec::new();
        if is_blank_str(text.as_str()) {
            None
        } else {
            Some(text)
        }
    }

    fn apply_delta(&mut self, d: &ToolCallDelta)
        requires
            old(self).well_formed(),
        ensures
            final(self).well_formed(),
            final(self).parts() == upsert(old(self).parts(), *d),
            final(self).pending_view() == old(self).pending_view(),
            final(self).content_view() == old(self).content_view(),
    {
        proof {
            lemma_slot_bounds(self.parts(), d.index);
            lemma_upsert_sorted(self.parts(), *d);
        }
        let ghost pv = self.parts();
        let n = self.partial.len();
        let mut p: usize = 0;
        assert(pv.skip(0) == pv);
        while p < n && self.partial[p].0 < d.index
            invariant
                n == self.partial@.len(),
                pv == parts_view(self.partial@),
                p <= n,
                slot_for(pv, d.index) == p + slot_for(pv.skip(p as int), d.index),
            decreases n - p,
        {
            assert(pv.skip(p as int)[0] == pv[p as int]);
            assert(pv.skip(p as int).drop_first() == pv.skip(p + 1));
            p += 1;
        }
        assert(slot_for(pv, d.index) == p) by {
            if p < n {
                assert(pv.skip(p as int)[0] == pv[p as int]);
            }
        }
        if p < n && self.partial[p].0 == d.index {
            let merged = merge_partial(&self.partial[p].1, d);
            let ghost before = self.partial@;
            self.partial.set(p, (d.index, merged));
            assert(parts_view(self.partial@) =~= pv.update(
                p as int,
                (d.index, merge_delta(pv[p as int].1, *d)),
            ));
        } else {
            let fresh = PartialToolCall {
                id: String::new(),
                call_type: String::new(),
                function_name: String::new(),
                arguments: String::new(),
            };
            let started = merge_partial(&fresh, d);
            assert(partial_model(fresh) == empty_partial());
            let ghost before = self.partial@;
            self.partial.insert(p, (d.index, started));
            assert(parts_view(self.partial@) =~= pv.insert(
                p as int,
                (d.index, merge_delta(empty_partial(), *d)),
            ));
        }
    }

    /// Applies the choices of a parsed chunk: content is appended and
    /// returned in order, tool call pieces are assembled.
    pub fn apply_chunk(&mut self, choices: &Vec<ChatDelta>) -> (texts: Vec<String>)
        requires
            old(self).well_formed(),
        ensures
            final(self).well_formed(),
            texts@.map_values(|t: String| t@) == choice_texts(choices@),
            final(self).content_view() == old(self).content_view() + concat_all(choice_texts(choices@)),
            final(self).parts() == apply_choices(old(self).parts(), choices@),
            final(self).pending_view() == old(self).pending_view(),
    {
        let mut texts: Vec<String> = Vec::new();
        let ghost start_parts = self.parts();
        let ghost start_content = self.content_view();
        let n = choices.len();
        let mut i: usize = 0;
        while i < n
            invariant
                n == choices@.len(),
                i <= n,
                self.well_formed(),
                self.pending_view() == old(self).pending_view(),
                start_parts == old(self).parts(),
                start_content == old(self).content_view(),
                texts@.map_values(|t: String| t@) == choice_texts(choices@.take(i as int)),
                self.content_view() == start_content + concat_all(choice_texts(choices@.take(i as int))),
                self.parts() == apply_choices(start_parts, choices@.take(i as int)),
            decreases n - i,
        {
            assert(choices@.take(i as int + 1).drop_last() == choices@.take(i as int));
            assert(choices@.take(i as int + 1).last() == choices@[i as int]);
            let c = &choices[i];
            match &c.content {
                Some(t) => {
                    let ghost before_texts = texts@.map_values(|t: String| t@);
                    let ghost before_content = self.content@;
                    let old_content = copy_string(&self.content);
                    self.content = old_content.concat(t.as_str());
                    texts.push(copy_string(t));
                    assert(texts@.map_values(|t: String| t@) =~= before_texts.push(t@));
                    let ghost prev = choice_texts(choices@.take(i as int));
                    assert(choice_texts(choices@.take(i as int + 1)) == prev.push(t@));
                    assert(prev.push(t@).drop_last() == prev);
                    assert(concat_all(prev.push(t@)) == concat_all(prev) + t@);
                    assert(start_content + concat_all(choice_texts(choices@.take(i as int + 1))) =~= before_content + t@);
                },
                None => {},
            }
            match &c.tool_calls {
                Some(ds) => {
                    let ghost base = self.parts();
                    let m = ds.len();
                    let mut k: usize = 0;
                    while k < m
                        invariant
                            m == ds@.len(),
                            k <= m,
                            self.well_formed(),
                            self.pending_view() == old(self).pending_view(),
                            self.parts() == apply_deltas(base, ds@.take(k as int)),
                            self.content_view() == start_content + concat_all(choice_texts(choices@.take(i as int + 1))),
                        decreases m - k,
                    {
                        assert(ds@.take(k as int + 1).drop_last() == ds@.take(k as int));
                        assert(ds@.take(k as int + 1).last() == ds@[k as int]);
                        self.apply_delta(&ds[k]);
                        k += 1;
                    }
                    assert(ds@.take(m as int) == ds@);
                },
                None => {},
            }
            i += 1;
        }
        assert(choices@.take(n as int) == choices@);
        texts
    }

    /// The result of the completion: the content, and the assembled tool
    /// calls in index order, of type `function` where none was given.
    pub fn finish(self) -> (r: ChatStreamResult)
        requires
            self.well_formed(),
        ensures
            r.content@ == self.content_view(),
            r.tool_calls@.len() == self.parts().len(),
            forall|i: int|
                0 <= i < r.tool_calls@.len() ==> {
                    let c = #[trigger] r.tool_calls@[i];
                    let p = self.parts()[i].1;
                    &&& c.id@ == p.id
                    &&& c.call_type@ == (if p.call_type.len() == 0 {
                        "function"@
                    } else {
                        p.call_type
                    })
                    &&& c.function.name@ == p.name
                    &&& c.function.arguments@ == p.arguments
                },
    {
        let ghost pv = self.parts();
        let mut calls: Vec<ChatToolCall> = Vec::new();
        let n = self.partial.len();
        let mut i: usize = 0;
        while i < n
            invariant
                n == self.partial@.len(),
                pv == parts_view(self.partial@),
                i <= n,
                calls@.len() == i,
                forall|q: int|
                    0 <= q < i ==> {
                        let c = #[trigger] calls@[q];
                        let p = pv[q].1;
                        &&& c.id@ == p.id
                        &&& c.call_type@ == (if p.call_type.len() == 0 {
                            "function"@
                        } else {
                            p.call_type
                        })
                        &&& c.function.name@ == p.name
                        &&& c.function.arguments@ == p.arguments
                    },
            decreases n - i,
        {
            let p = &self.partial[i].1;
            let ty = if p.call_type.as_str().is_empty() {
                String::from_str("function")
            } else {
                copy_string(&p.call_type)
            };
            calls.push(
                ChatToolCall {
                    id: copy_string(&p.id),
                    call_type: ty,
                    function: ChatToolFunction {
                        name: copy_string(&p.function_name),
                        arguments: copy_string(&p.arguments),
                    },
                },
            );
            i += 1;
        }
        ChatStreamResult { content: self.content, tool_calls: calls }
    }
}


/// Events written back with their separators.
pub open spec fn unframe(events: Seq<Seq<char>>) -> Seq<char>
    decreases events.len(),
{
    if events.len() == 0 {
        Seq::empty()
    } else {
        events[0] + seq!['\n', '\n'] + unframe(events.drop_first())
    }
}

proof fn lemma_first_separator_at(s: Seq<char>)
    ensures
        first_separator(s) matches Some(b) ==> b + 2 <= s.len() && s[b as int] == '\n' && s[b as int + 1]
            == '\n',
    decreases s.len(),
{
    if s.len() >= 2 && !(s[0] == '\n' && s[1] == '\n') {
        lemma_first_separator_at(s.skip(1));
        if let Some(b) = first_separator(s.skip(1)) {
            assert(s.skip(1)[b as int] == s[b as int + 1]);
            assert(s.skip(1)[b as int + 1] == s[b as int + 2]);
        }
    }
}

/// Framing loses nothing: the events, each followed by `\n\n`, and then
/// the text left over give back the pending text.
pub proof fn lemma_framing_is_lossless(s: Seq<char>)
    ensures
        unframe(frame_events(s).0) + frame_events(s).1 == s,
    decreases s.len(),
{
    lemma_first_separator_at(s);
    match first_separator(s) {
        Some(b) => {
            if b + 2 <= s.len() {
                let rest = s.skip(b as int + 2);
                lemma_framing_is_lossless(rest);
                let (re, rr) = frame_events(rest);
                let evs = seq![s.take(b as int)] + re;
                assert(evs[0] == s.take(b as int));
                assert(evs.drop_first() == re);
                assert(unframe(evs) == s.take(b as int) + seq!['\n', '\n'] + unframe(re));
                assert(s.take(b as int) + seq!['\n', '\n'] + unframe(re) + rr =~= s.take(b as int)
                    + seq!['\n', '\n'] + rest);
                assert(s.take(b as int) + seq!['\n', '\n'] + rest =~= s);
            }
        },
        None => {
            assert(unframe(Seq::<Seq<char>>::empty()) + s =~= s);
        },
    }
}

} // verus!
