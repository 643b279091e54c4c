use vstd::prelude::*;
use vstd::string::StringExecFns;
use crate::config::{
    context_event_count_options, default_ai_base_url, default_ai_chat_model,
    default_ai_llm_provider_id, default_ai_stt_language, default_ai_stt_model_id,
    default_ai_tts_enabled, default_ai_tts_model_id, llm_provider_to_stage, provider_id_of,
    sanitize_ai_context_event_count, sanitize_ai_provider_id, spec_default_base_url,
    spec_default_chat_model, spec_default_provider_id, AiLlmConfig, AiLlmProviderConfig,
    AiLlmProviderKind, AiLlmStageConfig, ProviderModel, StageModel,
};
use crate::text::{is_blank, is_blank_str, trim_str, trimmed};
use crate::toml_tree::{
    merge_toml_values, merge_value, parse_toml_document, toml_document, well_keyed, array_view, as_array_view, as_flag, as_table_view, as_text, str_eq, table_view, tv_get,
    tv_set, value_view, view_get, lemma_tv_get_set, ArrayView, TableView, TomlArray, TomlTable, TomlValue, TomlView,
};

verus! {

/// The views of an optional reference to a value.
pub open spec fn view_of(o: Option<&TomlValue>) -> Option<TomlView> {
    match o {
        Some(v) => Some(value_view(*v)),
        None => None,
    }
}

/// The views of an optional string.
pub open spec fn text_view(o: Option<String>) -> Option<Seq<char>> {
    match o {
        Some(s) => Some(s@),
        None => None,
    }
}

/// The value under `key` when `v` is a table.
fn value_get<'a>(v: &'a TomlValue, key: &str) -> (r: Option<&'a TomlValue>)
    ensures
        view_of(r) == view_get(value_view(*v), key@),
{
    match v {
        TomlValue::Table(t) => t.get(key),
        _ => None,
    }
}

/// The flag of a boolean value.
fn flag_of(v: Option<&TomlValue>) -> (r: Option<bool>)
    ensures
        r == as_flag(view_of(v)),
{
    match v {
        Some(TomlValue::Boolean(b)) => Some(*b),
        _ => None,
    }
}

/// A table key.
fn key_string(s: &str) -> (r: String)
    ensures
        r@ == s@,
{
    String::from_str(s)
}

/// The configuration with the denoise switch, which older versions kept
/// under `recognizer`, moved to `microphone`: it is taken over unless the
/// microphone section already has it switched on.
pub open spec fn migrate_microphone(base: TomlView, old_value: TomlView) -> TomlView {
    let old_denoise = match view_get(old_value, "recognizer"@) {
        Some(r) => as_flag(view_get(r, "enable_denoise"@)),
        None => None,
    };
    match (old_denoise, base) {
        (Some(d), TomlView::Table(t)) => match tv_get(t, "microphone"@) {
            None => TomlView::Table(
                tv_set(
                    t,
                    "microphone"@,
                    TomlView::Table(tv_set(TableView::Nil, "enable_denoise"@, TomlView::Bool(d))),
                ),
            ),
            Some(TomlView::Table(m)) => if as_flag(tv_get(m, "enable_denoise"@)) == Some(true) {
                base
            } else {
                TomlView::Table(
                    tv_set(
                        t,
                        "microphone"@,
                        TomlView::Table(tv_set(m, "enable_denoise"@, TomlView::Bool(d))),
                    ),
                )
            },
            Some(_) => base,
        },
        _ => base,
    }
}

/// Moves the legacy denoise switch of `old_value` into the microphone
/// section of `base`.
pub fn migrate_legacy_microphone_config(base: &mut TomlValue, old_value: &TomlValue)
    ensures
        value_view(*final(base)) == migrate_microphone(value_view(*old(base)), value_view(*old_value)),
{
    let old_denoise = match value_get(old_value, "recognizer") {
        Some(r) => flag_of(value_get(r, "enable_denoise")),
        None => None,
    };
    let d = match old_denoise {
        Some(d) => d,
        None => return ,
    };
    let mut taken = TomlValue::Boolean(false);
    std::mem::swap(&mut taken, base);
    let result = match taken {
        TomlValue::Table(t) => {
            let current = match t.get("microphone") {
                None => Some(TomlTable::Nil),
                Some(TomlValue::Table(m)) => {
                    if flag_of(m.get("enable_denoise")) == Some(true) {
                        None
                    } else {
                        Some(m.duplicate())
                    }
                },
                Some(_) => None,
            };
            match current {
                Some(m) => {
                    let updated = m.set(key_string("enable_denoise"), TomlValue::Boolean(d));
                    TomlValue::Table(t.set(key_string("microphone"), TomlValue::Table(updated)))
                },
                None => TomlValue::Table(t),
            }
        },
        other => other,
    };
    *base = result;
}


/// The bit pattern of the floating-point number 1.0, the default speech speed.
pub const UNIT_SPEED_BITS: u64 = 0x3FF0_0000_0000_0000u64;

/// A table view with the entry `k = v` in front of `rest`.
pub open spec fn tv_entry(k: Seq<char>, v: TomlView, rest: TableView) -> TableView {
    TableView::Cons(k, Box::new(v), Box::new(rest))
}

/// A table with the entry `k = v` in front of `rest`.
fn entry(k: &str, v: TomlValue, rest: TomlTable) -> (r: TomlTable)
    ensures
        table_view(r) == tv_entry(k@, value_view(v), table_view(rest)),
{
    TomlTable::Cons(key_string(k), Box::new(v), Box::new(rest))
}

/// The text of a string entry.
pub open spec fn text_at(t: TableView, k: Seq<char>) -> Option<Seq<char>> {
    as_text(tv_get(t, k))
}

/// A text with its surrounding white space removed; absent when blank.
pub open spec fn filled(o: Option<Seq<char>>) -> Option<Seq<char>> {
    match o {
        Some(s) => if is_blank(s) {
            None
        } else {
            Some(trimmed(s))
        },
        None => None,
    }
}

/// The text, or `d` when absent.
pub open spec fn or_default(o: Option<Seq<char>>, d: Seq<char>) -> Seq<char> {
    match o {
        Some(s) => s,
        None => d,
    }
}

/// The text of the string entry `key`, if there is one.
fn text_field(t: &TomlTable, key: &str) -> (r: Option<String>)
    ensures
        text_view(r) == text_at(table_view(*t), key@),
{
    match t.get(key) {
        Some(TomlValue::String(s)) => Some(s.clone()),
        _ => None,
    }
}

/// The text trimmed, or nothing when it is blank.
fn filled_text(o: Option<String>) -> (r: Option<String>)
    ensures
        text_view(r) == filled(text_view(o)),
{
    match o {
        Some(s) => if is_blank_str(s.as_str()) {
            None
        } else {
            Some(trim_str(s.as_str()))
        },
        None => None,
    }
}

/// The non-blank chat model that an agent entry names under `key`.
pub open spec fn agent_model(agent: TomlView, key: Seq<char>) -> Option<Seq<char>> {
    match agent {
        TomlView::Table(t) => filled(text_at(t, key)),
        _ => None,
    }
}

/// Whether an agent entry is the wanted one: any entry when no agent is
/// wanted, else a table whose `id` is the wanted id.
pub open spec fn agent_selected(agent: TomlView, wanted: Option<Seq<char>>) -> bool {
    match wanted {
        None => true,
        Some(id) => match agent {
            TomlView::Table(t) => text_at(t, "id"@) == Some(id),
            _ => false,
        },
    }
}

/// The model of the first selected agent entry that names one.
pub open spec fn first_agent_model(items: ArrayView, wanted: Option<Seq<char>>, key: Seq<char>) -> Option<
    Seq<char>,
>
    decreases items,
{
    match items {
        ArrayView::Nil => None,
        ArrayView::Cons(a, rest) => if agent_selected(*a, wanted) && agent_model(*a, key) is Some {
            agent_model(*a, key)
        } else {
            first_agent_model(*rest, wanted, key)
        },
    }
}

/// The chat model that a legacy AI section names under `key` in its
/// agents: that of the default agent when it names one, else that of the
/// first agent that does.
pub open spec fn legacy_agent_model(old_ai: TableView, key: Seq<char>) -> Option<Seq<char>> {
    match as_array_view(tv_get(old_ai, "agents"@)) {
        None => None,
        Some(items) => match first_agent_model(items, text_at(old_ai, "default_agent_id"@), key) {
            Some(m) => Some(m),
            None => first_agent_model(items, None, key),
        },
    }
}

fn first_agent_model_in(items: &TomlArray, wanted: &Option<String>, key: &str) -> (r: Option<String>)
    ensures
        text_view(r) == first_agent_model(array_view(*items), text_view(*wanted), key@),
    decreases *items,
{
    match items {
        TomlArray::Nil => None,
        TomlArray::Cons(a, rest) => {
            assert(array_view(*items) == ArrayView::Cons(
                Box::new(value_view(**a)),
                Box::new(array_view(**rest)),
            ));
            let found = match &**a {
                TomlValue::Table(t) => {
                    let selected = match wanted {
                        None => true,
                        Some(id) => match text_field(t, "id") {
                            Some(x) => str_eq(x.as_str(), id.as_str()),
                            None => false,
                        },
                    };
                    if selected {
                        filled_text(text_field(t, key))
                    } else {
                        None
                    }
                },
                _ => None,
            };
            match found {
                Some(m) => Some(m),
                None => first_agent_model_in(&**rest, wanted, key),
            }
        },
    }
}

/// The chat model that the agents of a legacy AI section name under `key`.
pub fn legacy_agent_chat_model(old_ai: &TomlTable, key: &str) -> (r: Option<String>)
    ensures
        text_view(r) == legacy_agent_model(table_view(*old_ai), key@),
{
    let default_agent_id = text_field(old_ai, "default_agent_id");
    match old_ai.get("agents") {
        Some(TomlValue::Array(items)) => match first_agent_model_in(items, &default_agent_id, key) {
            Some(m) => Some(m),
            None => first_agent_model_in(items, &None, key),
        },
        _ => None,
    }
}


/// The text a string field takes from a value: a string, or the text of a
/// date-time.
pub open spec fn decode_text(v: TomlView) -> Option<Seq<char>> {
    match v {
        TomlView::Str(s) => Some(s),
        TomlView::Datetime(s) => Some(s),
        _ => None,
    }
}

/// The flag a boolean field takes from a value.
pub open spec fn decode_flag(v: TomlView) -> Option<bool> {
    match v {
        TomlView::Bool(b) => Some(b),
        _ => None,
    }
}

/// The provider kind a variant name stands for.
pub open spec fn kind_named(name: Seq<char>) -> Option<AiLlmProviderKind> {
    if name == "siliconflow"@ {
        Some(AiLlmProviderKind::SiliconFlow)
    } else if name == "openai_compatible"@ {
        Some(AiLlmProviderKind::OpenAiCompatible)
    } else {
        None
    }
}

/// An empty array or an empty table: the payload of a variant without data.
pub open spec fn is_unit_payload(v: TomlView) -> bool {
    v == TomlView::Array(ArrayView::Nil) || v == TomlView::Table(TableView::Nil)
}

/// The provider kind a value names: the variant name as a string, or a
/// table of exactly one entry from the variant name to an empty payload.
pub open spec fn decode_kind(v: TomlView) -> Option<AiLlmProviderKind> {
    match v {
        TomlView::Str(s) => kind_named(s),
        TomlView::Table(TableView::Cons(name, payload, rest)) => if *rest == TableView::Nil
            && is_unit_payload(*payload) {
            kind_named(name)
        } else {
            None
        },
        _ => None,
    }
}

/// A text field: its default when absent, else its decoded text.
pub open spec fn text_or(v: Option<TomlView>, d: Seq<char>) -> Option<Seq<char>> {
    match v {
        None => Some(d),
        Some(x) => decode_text(x),
    }
}

/// A boolean field: its default when absent, else its decoded flag.
pub open spec fn flag_or(v: Option<TomlView>, d: bool) -> Option<bool> {
    match v {
        None => Some(d),
        Some(x) => decode_flag(x),
    }
}

/// A kind field: SiliconFlow when absent, else its decoded kind.
pub open spec fn kind_or(v: Option<TomlView>) -> Option<AiLlmProviderKind> {
    match v {
        None => Some(AiLlmProviderKind::SiliconFlow),
        Some(x) => decode_kind(x),
    }
}

/// The built-in provider as plain values: the default of every field.
pub open spec fn builtin_provider_model() -> ProviderModel {
    ProviderModel {
        id: spec_default_provider_id(),
        name: "SiliconFlow"@,
        kind: AiLlmProviderKind::SiliconFlow,
        base_url: spec_default_base_url(),
        api_key: Seq::empty(),
        chat_model: spec_default_chat_model(),
        is_builtin: true,
    }
}

/// A provider from its decoded fields, when every one decoded.
pub open spec fn provider_from_fields(
    id: Option<Seq<char>>,
    name: Option<Seq<char>>,
    kind: Option<AiLlmProviderKind>,
    base_url: Option<Seq<char>>,
    api_key: Option<Seq<char>>,
    chat_model: Option<Seq<char>>,
    is_builtin: Option<bool>,
) -> Option<ProviderModel> {
    match (id, name, kind, base_url, api_key, chat_model, is_builtin) {
        (Some(i), Some(n), Some(k), Some(b), Some(a), Some(c), Some(f)) => Some(
            ProviderModel { id: i, name: n, kind: k, base_url: b, api_key: a, chat_model: c, is_builtin: f },
        ),
        _ => None,
    }
}

/// A provider read from a table: each field from the entry of its name,
/// the built-in provider's value where there is none; other entries are
/// ignored.
pub open spec fn provider_from_table(t: TableView) -> Option<ProviderModel> {
    let d = builtin_provider_model();
    provider_from_fields(
        text_or(tv_get(t, "id"@), d.id),
        text_or(tv_get(t, "name"@), d.name),
        kind_or(tv_get(t, "kind"@)),
        text_or(tv_get(t, "base_url"@), d.base_url),
        text_or(tv_get(t, "api_key"@), d.api_key),
        text_or(tv_get(t, "chat_model"@), d.chat_model),
        flag_or(tv_get(t, "is_builtin"@), d.is_builtin),
    )
}

/// The item at position `i` of an array.
pub open spec fn item_at(a: ArrayView, i: nat) -> Option<TomlView>
    decreases a,
{
    match a {
        ArrayView::Nil => None,
        ArrayView::Cons(v, rest) => if i == 0 {
            Some(*v)
        } else {
            item_at(*rest, (i - 1) as nat)
        },
    }
}

/// The number of items of an array.
pub open spec fn array_len(a: ArrayView) -> nat
    decreases a,
{
    match a {
        ArrayView::Nil => 0,
        ArrayView::Cons(_, rest) => 1 + array_len(*rest),
    }
}

/// A provider read from an array of at most seven items, the fields in
/// declaration order, the built-in provider's value for missing ones.
pub open spec fn provider_from_items(a: ArrayView) -> Option<ProviderModel> {
    let d = builtin_provider_model();
    if array_len(a) > 7 {
        None
    } else {
        provider_from_fields(
            text_or(item_at(a, 0), d.id),
            text_or(item_at(a, 1), d.name),
            kind_or(item_at(a, 2)),
            text_or(item_at(a, 3), d.base_url),
            text_or(item_at(a, 4), d.api_key),
            text_or(item_at(a, 5), d.chat_model),
            flag_or(item_at(a, 6), d.is_builtin),
        )
    }
}

/// The provider a value holds, read as a table or as an array of fields.
pub open spec fn decode_provider(v: TomlView) -> Option<ProviderModel> {
    match v {
        TomlView::Table(t) => provider_from_table(t),
        TomlView::Array(a) => provider_from_items(a),
        _ => None,
    }
}

/// The plain values of an optional provider.
pub open spec fn provider_view(o: Option<AiLlmProviderConfig>) -> Option<ProviderModel> {
    match o {
        Some(p) => Some(p@),
        None => None,
    }
}

fn decode_text_value(v: Option<&TomlValue>, d: String) -> (r: Option<String>)
    ensures
        text_view(r) == text_or(view_of(v), d@),
{
    match v {
        None => Some(d),
        Some(TomlValue::String(s)) => Some(s.clone()),
        Some(TomlValue::Datetime(s)) => Some(s.clone()),
        Some(_) => None,
    }
}

fn decode_flag_value(v: Option<&TomlValue>, d: bool) -> (r: Option<bool>)
    ensures
        r == flag_or(view_of(v), d),
{
    match v {
        None => Some(d),
        Some(TomlValue::Boolean(b)) => Some(*b),
        Some(_) => None,
    }
}

fn kind_from_name(name: &str) -> (r: Option<AiLlmProviderKind>)
    ensures
        r == kind_named(name@),
{
    if str_eq(name, "siliconflow") {
        Some(AiLlmProviderKind::SiliconFlow)
    } else if str_eq(name, "openai_compatible") {
        Some(AiLlmProviderKind::OpenAiCompatible)
    } else {
        None
    }
}

fn is_unit_payload_value(v: &TomlValue) -> (r: bool)
    ensures
        r == is_unit_payload(value_view(*v)),
{
    match v {
        TomlValue::Array(TomlArray::Nil) => true,
        TomlValue::Table(TomlTable::Nil) => true,
        TomlValue::Array(TomlArray::Cons(x, rest)) => {
            assert(value_view(*v) != TomlView::Table(TableView::Nil));
            false
        },
        TomlValue::Table(TomlTable::Cons(k, x, rest)) => {
            assert(value_view(*v) != TomlView::Array(ArrayView::Nil));
            false
        },
        _ => false,
    }
}

fn decode_kind_value(v: Option<&TomlValue>) -> (r: Option<AiLlmProviderKind>)
    ensures
        r == kind_or(view_of(v)),
{
    match v {
        None => Some(AiLlmProviderKind::SiliconFlow),
        Some(TomlValue::String(s)) => kind_from_name(s.as_str()),
        Some(TomlValue::Table(TomlTable::Cons(name, payload, rest))) => {
            assert(table_view(TomlTable::Cons(*name, *payload, *rest)) == TableView::Cons(
                name@,
                Box::new(value_view(**payload)),
                Box::new(table_view(**rest)),
            ));
            match &**rest {
                TomlTable::Nil => if is_unit_payload_value(&**payload) {
                    kind_from_name(name.as_str())
                } else {
                    None
                },
                TomlTable::Cons(..) => None,
            }
        },
        Some(_) => None,
    }
}

fn provider_of_fields(
    id: Option<String>,
    name: Option<String>,
    kind: Option<AiLlmProviderKind>,
    base_url: Option<String>,
    api_key: Option<String>,
    chat_model: Option<String>,
    is_builtin: Option<bool>,
) -> (r: Option<AiLlmProviderConfig>)
    ensures
        provider_view(r) == provider_from_fields(
            text_view(id),
            text_view(name),
            kind,
            text_view(base_url),
            text_view(api_key),
            text_view(chat_model),
            is_builtin,
        ),
{
    match (id, name, kind, base_url, api_key, chat_model, is_builtin) {
        (Some(i), Some(n), Some(k), Some(b), Some(a), Some(c), Some(f)) => Some(
            AiLlmProviderConfig {
                id: i,
                name: n,
                kind: k,
                base_url: b,
                api_key: a,
                chat_model: c,
                is_builtin: f,
            },
        ),
        _ => None,
    }
}

fn provider_from_table_value(t: &TomlTable) -> (r: Option<AiLlmProviderConfig>)
    ensures
        provider_view(r) == provider_from_table(table_view(*t)),
{
    let d = AiLlmProviderConfig::builtin_siliconflow();
    provider_of_fields(
        decode_text_value(t.get("id"), d.id),
        decode_text_value(t.get("name"), d.name),
        decode_kind_value(t.get("kind")),
        decode_text_value(t.get("base_url"), d.base_url),
        decode_text_value(t.get("api_key"), d.api_key),
        decode_text_value(t.get("chat_model"), d.chat_model),
        decode_flag_value(t.get("is_builtin"), d.is_builtin),
    )
}

/// The item at position `i` of an array.
fn array_item(a: &TomlArray, i: usize) -> (r: Option<&TomlValue>)
    ensures
        view_of(r) == item_at(array_view(*a), i as nat),
    decreases *a,
{
    match a {
        TomlArray::Nil => None,
        TomlArray::Cons(v, rest) => if i == 0 {
            Some(&**v)
        } else {
            array_item(&**rest, i - 1)
        },
    }
}

/// Whether an array has more than `n` items.
fn array_longer_than(a: &TomlArray, n: usize) -> (r: bool)
    ensures
        r == (array_len(array_view(*a)) > n),
    decreases *a,
{
    match a {
        TomlArray::Nil => false,
        TomlArray::Cons(_, rest) => if n == 0 {
            true
        } else {
            array_longer_than(&**rest, n - 1)
        },
    }
}

fn provider_from_items_value(a: &TomlArray) -> (r: Option<AiLlmProviderConfig>)
    ensures
        provider_view(r) == provider_from_items(array_view(*a)),
{
    if array_longer_than(a, 7) {
        return None;
    }
    let d = AiLlmProviderConfig::builtin_siliconflow();
    provider_of_fields(
        decode_text_value(array_item(a, 0), d.id),
        decode_text_value(array_item(a, 1), d.name),
        decode_kind_value(array_item(a, 2)),
        decode_text_value(array_item(a, 3), d.base_url),
        decode_text_value(array_item(a, 4), d.api_key),
        decode_text_value(array_item(a, 5), d.chat_model),
        decode_flag_value(array_item(a, 6), d.is_builtin),
    )
}

/// The provider a configuration value holds, if it holds one.
pub fn decode_provider_value(v: &TomlValue) -> (r: Option<AiLlmProviderConfig>)
    ensures
        provider_view(r) == decode_provider(value_view(*v)),
{
    match v {
        TomlValue::Table(t) => provider_from_table_value(t),
        TomlValue::Array(a) => provider_from_items_value(a),
        _ => None,
    }
}


/// The first provider among `items` that decodes and carries `id`.
pub open spec fn find_provider(items: ArrayView, id: Seq<char>) -> Option<ProviderModel>
    decreases items,
{
    match items {
        ArrayView::Nil => None,
        ArrayView::Cons(p, rest) => match decode_provider(*p) {
            Some(c) => if c.id == id {
                Some(c)
            } else {
                find_provider(*rest, id)
            },
            None => find_provider(*rest, id),
        },
    }
}

/// The provider a legacy LLM section selects for a stage: the one whose id
/// the entry `key` (or else `selected_provider_id`) names, or else the
/// first provider when it decodes.
pub open spec fn legacy_llm_provider(llm: TableView, key: Seq<char>) -> Option<ProviderModel> {
    match as_array_view(tv_get(llm, "providers"@)) {
        None => None,
        Some(items) => {
            let selected = match text_at(llm, key) {
                Some(s) => Some(s),
                None => text_at(llm, "selected_provider_id"@),
            };
            let found = match selected {
                Some(id) => find_provider(items, id),
                None => None,
            };
            match found {
                Some(c) => Some(c),
                None => match items {
                    ArrayView::Nil => None,
                    ArrayView::Cons(p, _) => decode_provider(*p),
                },
            }
        },
    }
}

fn find_provider_in(items: &TomlArray, id: &str) -> (r: Option<AiLlmProviderConfig>)
    ensures
        provider_view(r) == find_provider(array_view(*items), id@),
    decreases *items,
{
    match items {
        TomlArray::Nil => None,
        TomlArray::Cons(p, rest) => {
            assert(array_view(*items) == ArrayView::Cons(
                Box::new(value_view(**p)),
                Box::new(array_view(**rest)),
            ));
            match decode_provider_value(&**p) {
                Some(c) => if str_eq(c.id.as_str(), id) {
                    Some(c)
                } else {
                    find_provider_in(&**rest, id)
                },
                None => find_provider_in(&**rest, id),
            }
        },
    }
}

/// The provider that a legacy LLM section selects with the entry
/// `provider_id_key`.
pub fn provider_from_legacy_llm(old_llm: &TomlTable, provider_id_key: &str) -> (r: Option<
    AiLlmProviderConfig,
>)
    ensures
        provider_view(r) == legacy_llm_provider(table_view(*old_llm), provider_id_key@),
{
    let providers = match old_llm.get("providers") {
        Some(TomlValue::Array(a)) => a,
        _ => return None,
    };
    let selected = match text_field(old_llm, provider_id_key) {
        Some(s) => Some(s),
        None => text_field(old_llm, "selected_provider_id"),
    };
    let found = match selected {
        Some(id) => find_provider_in(providers, id.as_str()),
        None => None,
    };
    match found {
        Some(c) => Some(c),
        None => match providers {
            TomlArray::Nil => None,
            TomlArray::Cons(p, _) => decode_provider_value(&**p),
        },
    }
}

/// The variant name of a provider kind.
pub open spec fn kind_name(k: AiLlmProviderKind) -> Seq<char> {
    match k {
        AiLlmProviderKind::SiliconFlow => "siliconflow"@,
        AiLlmProviderKind::OpenAiCompatible => "openai_compatible"@,
    }
}

/// A stage written as a table.
pub open spec fn stage_toml(s: StageModel) -> TomlView {
    TomlView::Table(
        tv_entry(
            "kind"@,
            TomlView::Str(kind_name(s.kind)),
            tv_entry(
                "base_url"@,
                TomlView::Str(s.base_url),
                tv_entry(
                    "api_key"@,
                    TomlView::Str(s.api_key),
                    tv_entry("chat_model"@, TomlView::Str(s.chat_model), TableView::Nil),
                ),
            ),
        ),
    )
}

/// LLM settings written as a table.
pub open spec fn llm_toml(
    enabled: bool,
    reply_enabled: bool,
    count: i64,
    decision: StageModel,
    reply: StageModel,
) -> TomlView {
    TomlView::Table(
        tv_entry(
            "enabled"@,
            TomlView::Bool(enabled),
            tv_entry(
                "reply_enabled"@,
                TomlView::Bool(reply_enabled),
                tv_entry(
                    "context_event_count"@,
                    TomlView::Int(count),
                    tv_entry(
                        "decision"@,
                        stage_toml(decision),
                        tv_entry("reply"@, stage_toml(reply), TableView::Nil),
                    ),
                ),
            ),
        ),
    )
}

/// The LLM settings written as a table; an empty table when the number of
/// context events does not fit a TOML integer.
pub open spec fn llm_config_toml(c: AiLlmConfig) -> TomlView {
    if c.context_event_count <= i64::MAX {
        llm_toml(c.enabled, c.reply_enabled, c.context_event_count as i64, c.decision@, c.reply@)
    } else {
        TomlView::Table(TableView::Nil)
    }
}

/// The default stage as plain values.
pub open spec fn default_stage_model() -> StageModel {
    StageModel {
        kind: AiLlmProviderKind::SiliconFlow,
        base_url: spec_default_base_url(),
        api_key: Seq::empty(),
        chat_model: spec_default_chat_model(),
    }
}

/// The default LLM settings written as a table.
pub open spec fn default_llm_toml() -> TomlView {
    llm_toml(true, true, 12, default_stage_model(), default_stage_model())
}

fn kind_value(k: AiLlmProviderKind) -> (r: TomlValue)
    ensures
        value_view(r) == TomlView::Str(kind_name(k)),
{
    match k {
        AiLlmProviderKind::SiliconFlow => TomlValue::String(key_string("siliconflow")),
        AiLlmProviderKind::OpenAiCompatible => TomlValue::String(key_string("openai_compatible")),
    }
}

/// A stage as a configuration value.
pub fn stage_value(s: &AiLlmStageConfig) -> (r: TomlValue)
    ensures
        value_view(r) == stage_toml(s@),
{
    let t = entry("chat_model", TomlValue::String(s.chat_model.clone()), TomlTable::Nil);
    let t = entry("api_key", TomlValue::String(s.api_key.clone()), t);
    let t = entry("base_url", TomlValue::String(s.base_url.clone()), t);
    let t = entry("kind", kind_value(s.kind), t);
    TomlValue::Table(t)
}

/// LLM settings as a configuration value.
pub fn llm_config_value(c: &AiLlmConfig) -> (r: TomlValue)
    ensures
        value_view(r) == llm_config_toml(*c),
{
    if (c.context_event_count as u64) > (i64::MAX as u64) {
        return TomlValue::Table(TomlTable::Nil);
    }
    let t = entry("reply", stage_value(&c.reply), TomlTable::Nil);
    let t = entry("decision", stage_value(&c.decision), t);
    let t = entry("context_event_count", TomlValue::Integer(c.context_event_count as i64), t);
    let t = entry("reply_enabled", TomlValue::Boolean(c.reply_enabled), t);
    let t = entry("enabled", TomlValue::Boolean(c.enabled), t);
    TomlValue::Table(t)
}

fn default_llm_value() -> (r: TomlValue)
    ensures
        value_view(r) == default_llm_toml(),
{
    let c = AiLlmConfig::default();
    assert(c.decision@ == default_stage_model());
    assert(c.reply@ == default_stage_model());
    llm_config_value(&c)
}

/// The default text-to-speech settings written as a table.
pub open spec fn default_tts_toml() -> TomlView {
    TomlView::Table(
        tv_entry(
            "enabled"@,
            TomlView::Bool(true),
            tv_entry(
                "model_id"@,
                TomlView::Str("vits-melo-tts-zh_en"@),
                tv_entry(
                    "speaker_id"@,
                    TomlView::Int(0),
                    tv_entry("speed"@, TomlView::Float(UNIT_SPEED_BITS), TableView::Nil),
                ),
            ),
        ),
    )
}

/// The default speech settings written as a table.
pub open spec fn default_speech_toml() -> TomlView {
    TomlView::Table(
        tv_entry(
            "stt"@,
            TomlView::Table(
                tv_entry(
                    "model_id"@,
                    TomlView::Str("sherpa-onnx-sense-voice-zh-en-ja-ko-yue-int8-2024-07-17"@),
                    tv_entry(
                        "language"@,
                        TomlView::Str("auto"@),
                        tv_entry("use_itn"@, TomlView::Bool(true), TableView::Nil),
                    ),
                ),
            ),
            tv_entry("tts"@, default_tts_toml(), TableView::Nil),
        ),
    )
}

fn default_tts_value() -> (r: TomlValue)
    ensures
        value_view(r) == default_tts_toml(),
{
    let t = entry("speed", TomlValue::Float(UNIT_SPEED_BITS), TomlTable::Nil);
    let t = entry("speaker_id", TomlValue::Integer(0), t);
    let t = entry("model_id", TomlValue::String(default_ai_tts_model_id()), t);
    let t = entry("enabled", TomlValue::Boolean(default_ai_tts_enabled()), t);
    TomlValue::Table(t)
}

fn default_speech_value() -> (r: TomlValue)
    ensures
        value_view(r) == default_speech_toml(),
{
    let stt = entry("use_itn", TomlValue::Boolean(true), TomlTable::Nil);
    let stt = entry("language", TomlValue::String(default_ai_stt_language()), stt);
    let stt = entry("model_id", TomlValue::String(default_ai_stt_model_id()), stt);
    let t = entry("tts", default_tts_value(), TomlTable::Nil);
    let t = entry("stt", TomlValue::Table(stt), t);
    TomlValue::Table(t)
}


/// The provider kind a legacy provider name selects: SiliconFlow when the
/// name is absent or `siliconflow`, an OpenAI-compatible one otherwise.
pub open spec fn legacy_kind(provider: Option<Seq<char>>) -> AiLlmProviderKind {
    match provider {
        None => AiLlmProviderKind::SiliconFlow,
        Some(p) => if p == "siliconflow"@ {
            AiLlmProviderKind::SiliconFlow
        } else {
            AiLlmProviderKind::OpenAiCompatible
        },
    }
}

/// The provider that the flat fields of a legacy AI section describe.
pub open spec fn legacy_provider_model(old_ai: TableView) -> ProviderModel {
    let provider = filled(text_at(old_ai, "provider"@));
    let kind = legacy_kind(provider);
    ProviderModel {
        id: match provider {
            Some(p) => if provider_id_of(p).len() > 0 {
                provider_id_of(p)
            } else {
                spec_default_provider_id()
            },
            None => spec_default_provider_id(),
        },
        name: match kind {
            AiLlmProviderKind::SiliconFlow => "SiliconFlow"@,
            AiLlmProviderKind::OpenAiCompatible => "Custom Provider"@,
        },
        kind,
        base_url: or_default(filled(text_at(old_ai, "base_url"@)), spec_default_base_url()),
        api_key: or_default(text_at(old_ai, "api_key"@), Seq::empty()),
        chat_model: or_default(
            filled(text_at(old_ai, "default_chat_model"@)),
            spec_default_chat_model(),
        ),
        is_builtin: false,
    }
}

/// Whether a legacy AI section has one of the flat provider fields.
pub open spec fn has_legacy_llm_fields(old_ai: TableView) -> bool {
    ||| filled(text_at(old_ai, "provider"@)) is Some
    ||| filled(text_at(old_ai, "base_url"@)) is Some
    ||| text_at(old_ai, "api_key"@) is Some
    ||| filled(text_at(old_ai, "default_chat_model"@)) is Some
}

/// The stage a provider gives, with `model` overriding its chat model
/// unless absent or blank.
pub open spec fn stage_for(p: ProviderModel, model: Option<Seq<char>>) -> StageModel {
    StageModel {
        kind: p.kind,
        base_url: p.base_url,
        api_key: p.api_key,
        chat_model: match model {
            Some(m) => if is_blank(m) {
                p.chat_model
            } else {
                m
            },
            None => p.chat_model,
        },
    }
}

fn legacy_provider_of(old_ai: &TomlTable) -> (r: AiLlmProviderConfig)
    ensures
        r@ == legacy_provider_model(table_view(*old_ai)),
{
    let provider = filled_text(text_field(old_ai, "provider"));
    let kind = match &provider {
        None => AiLlmProviderKind::SiliconFlow,
        Some(p) => if str_eq(p.as_str(), "siliconflow") {
            AiLlmProviderKind::SiliconFlow
        } else {
            AiLlmProviderKind::OpenAiCompatible
        },
    };
    let id = match &provider {
        Some(p) => {
            let sanitized = sanitize_ai_provider_id(p.as_str());
            if sanitized.as_str().is_empty() {
                default_ai_llm_provider_id()
            } else {
                sanitized
            }
        },
        None => default_ai_llm_provider_id(),
    };
    let name = match kind {
        AiLlmProviderKind::SiliconFlow => key_string("SiliconFlow"),
        AiLlmProviderKind::OpenAiCompatible => key_string("Custom Provider"),
    };
    let base_url = match filled_text(text_field(old_ai, "base_url")) {
        Some(u) => u,
        None => default_ai_base_url(),
    };
    let api_key = match text_field(old_ai, "api_key") {
        Some(k) => k,
        None => String::new(),
    };
    let chat_model = match filled_text(text_field(old_ai, "default_chat_model")) {
        Some(m) => m,
        None => default_ai_chat_model(),
    };
    AiLlmProviderConfig { id, name, kind, base_url, api_key, chat_model, is_builtin: false }
}

/// The AI section with LLM settings built from the flat provider fields of
/// a legacy section, when it has any.
pub open spec fn with_legacy_llm(ai: TableView, old_ai: TableView) -> TableView {
    if has_legacy_llm_fields(old_ai) {
        let p = legacy_provider_model(old_ai);
        tv_set(
            ai,
            "llm"@,
            llm_toml(
                true,
                true,
                12,
                stage_for(p, legacy_agent_model(old_ai, "decision_chat_model"@)),
                stage_for(p, legacy_agent_model(old_ai, "reply_chat_model"@)),
            ),
        )
    } else {
        ai
    }
}

fn with_legacy_llm_of(ai: TomlTable, old_ai: &TomlTable) -> (r: TomlTable)
    ensures
        table_view(r) == with_legacy_llm(table_view(ai), table_view(*old_ai)),
{
    let provider = filled_text(text_field(old_ai, "provider"));
    let base_url = filled_text(text_field(old_ai, "base_url"));
    let api_key = text_field(old_ai, "api_key");
    let chat_model = filled_text(text_field(old_ai, "default_chat_model"));
    if provider.is_some() || base_url.is_some() || api_key.is_some() || chat_model.is_some() {
        let p = legacy_provider_of(old_ai);
        let decision = llm_provider_to_stage(
            p.clone(),
            legacy_agent_chat_model(old_ai, "decision_chat_model"),
        );
        let reply = llm_provider_to_stage(p, legacy_agent_chat_model(old_ai, "reply_chat_model"));
        let llm = AiLlmConfig {
            enabled: true,
            reply_enabled: true,
            context_event_count: 12,
            decision,
            reply,
        };
        ai.set(key_string("llm"), llm_config_value(&llm))
    } else {
        ai
    }
}


/// A context event count that fits the platform's `usize`, sanitized.
pub open spec fn sanitized_count(i: i64) -> i64 {
    if context_event_count_options().contains(i as usize) {
        i
    } else {
        12
    }
}

/// LLM settings with an integer context event count that fits `usize`
/// replaced by its sanitized value.
pub open spec fn with_sanitized_count(llm: TableView) -> TableView {
    match tv_get(llm, "context_event_count"@) {
        Some(TomlView::Int(i)) => if 0 <= i && i <= usize::MAX {
            tv_set(llm, "context_event_count"@, TomlView::Int(sanitized_count(i)))
        } else {
            llm
        },
        _ => llm,
    }
}

/// LLM settings with the stage `key` replaced when one is given.
pub open spec fn with_stage(llm: TableView, key: Seq<char>, stage: Option<StageModel>) -> TableView {
    match stage {
        Some(s) => tv_set(llm, key, stage_toml(s)),
        None => llm,
    }
}

/// The stage that a legacy LLM section selects with the entry
/// `provider_key`, with the model its agents name under `model_key`.
pub open spec fn stage_from_llm(
    old_ai: TableView,
    llm_old: TableView,
    provider_key: Seq<char>,
    model_key: Seq<char>,
) -> Option<StageModel> {
    match legacy_llm_provider(llm_old, provider_key) {
        Some(p) => Some(stage_for(p, legacy_agent_model(old_ai, model_key))),
        None => None,
    }
}

/// The AI section with its LLM settings brought up to date: when the legacy
/// section has an LLM table, the stages its providers select are written
/// over the current (or default) settings; in any case the context event
/// count is sanitized.
pub open spec fn with_llm_section(ai: TableView, old_ai: TableView) -> TableView {
    match as_table_view(tv_get(old_ai, "llm"@)) {
        Some(llm_old) => {
            let current = match tv_get(ai, "llm"@) {
                None => default_llm_toml(),
                Some(v) => v,
            };
            match current {
                TomlView::Table(lt) => tv_set(
                    ai,
                    "llm"@,
                    TomlView::Table(
                        with_stage(
                            with_stage(
                                with_sanitized_count(lt),
                                "decision"@,
                                stage_from_llm(
                                    old_ai,
                                    llm_old,
                                    "decision_provider_id"@,
                                    "decision_chat_model"@,
                                ),
                            ),
                            "reply"@,
                            stage_from_llm(
                                old_ai,
                                llm_old,
                                "reply_provider_id"@,
                                "reply_chat_model"@,
                            ),
                        ),
                    ),
                ),
                _ => ai,
            }
        },
        None => match tv_get(ai, "llm"@) {
            Some(TomlView::Table(lt)) => tv_set(
                ai,
                "llm"@,
                TomlView::Table(with_sanitized_count(lt)),
            ),
            _ => ai,
        },
    }
}

/// The plain values of an optional stage.
pub open spec fn stage_view(o: Option<AiLlmStageConfig>) -> Option<StageModel> {
    match o {
        Some(s) => Some(s@),
        None => None,
    }
}

fn with_sanitized_count_of(llm: TomlTable) -> (r: TomlTable)
    ensures
        table_view(r) == with_sanitized_count(table_view(llm)),
{
    let count = match llm.get("context_event_count") {
        Some(TomlValue::Integer(i)) => Some(*i),
        _ => None,
    };
    match count {
        Some(i) => if i >= 0 && (i as u64) <= (usize::MAX as u64) {
            let sanitized = sanitize_ai_context_event_count(i as usize);
            llm.set(key_string("context_event_count"), TomlValue::Integer(sanitized as i64))
        } else {
            llm
        },
        None => llm,
    }
}

fn with_stage_of(llm: TomlTable, key: &str, stage: Option<AiLlmStageConfig>) -> (r: TomlTable)
    ensures
        table_view(r) == with_stage(table_view(llm), key@, stage_view(stage)),
{
    match stage {
        Some(s) => llm.set(key_string(key), stage_value(&s)),
        None => llm,
    }
}

fn stage_from_llm_of(
    old_ai: &TomlTable,
    llm_old: &TomlTable,
    provider_key: &str,
    model_key: &str,
) -> (r: Option<AiLlmStageConfig>)
    ensures
        stage_view(r) == stage_from_llm(
            table_view(*old_ai),
            table_view(*llm_old),
            provider_key@,
            model_key@,
        ),
{
    let model = legacy_agent_chat_model(old_ai, model_key);
    match provider_from_legacy_llm(llm_old, provider_key) {
        Some(p) => Some(llm_provider_to_stage(p, model)),
        None => None,
    }
}

fn with_llm_section_of(ai: TomlTable, old_ai: &TomlTable) -> (r: TomlTable)
    ensures
        table_view(r) == with_llm_section(table_view(ai), table_view(*old_ai)),
{
    match old_ai.get("llm") {
        Some(TomlValue::Table(llm_old)) => {
            let decision = stage_from_llm_of(
                old_ai,
                llm_old,
                "decision_provider_id",
                "decision_chat_model",
            );
            let reply = stage_from_llm_of(old_ai, llm_old, "reply_provider_id", "reply_chat_model");
            let current = match ai.get("llm") {
                None => default_llm_value(),
                Some(v) => v.duplicate(),
            };
            match current {
                TomlValue::Table(lt) => {
                    let lt = with_sanitized_count_of(lt);
                    let lt = with_stage_of(lt, "decision", decision);
                    let lt = with_stage_of(lt, "reply", reply);
                    ai.set(key_string("llm"), TomlValue::Table(lt))
                },
                _ => ai,
            }
        },
        _ => {
            let current = match ai.get("llm") {
                Some(TomlValue::Table(lt)) => Some(lt.duplicate()),
                _ => None,
            };
            match current {
                Some(lt) => ai.set(key_string("llm"), TomlValue::Table(with_sanitized_count_of(lt))),
                None => ai,
            }
        },
    }
}

/// A table with `dst` copied from `src` when it lacks `dst` and has `src`.
pub open spec fn copy_if_missing(t: TableView, dst: Seq<char>, src: Seq<char>) -> TableView {
    if tv_get(t, dst) is Some {
        t
    } else {
        match tv_get(t, src) {
            Some(v) => tv_set(t, dst, v),
            None => t,
        }
    }
}

/// An agent entry with the persona prompt and reply model that older
/// versions called `system_prompt` and `chat_model`.
pub open spec fn migrate_agent(a: TomlView) -> TomlView {
    match a {
        TomlView::Table(t) => TomlView::Table(
            copy_if_missing(
                copy_if_missing(t, "persona_prompt"@, "system_prompt"@),
                "reply_chat_model"@,
                "chat_model"@,
            ),
        ),
        _ => a,
    }
}

/// Every agent entry migrated.
pub open spec fn migrate_agents(items: ArrayView) -> ArrayView
    decreases items,
{
    match items {
        ArrayView::Nil => ArrayView::Nil,
        ArrayView::Cons(a, rest) => ArrayView::Cons(
            Box::new(migrate_agent(*a)),
            Box::new(migrate_agents(*rest)),
        ),
    }
}

/// The AI section with its agent entries migrated.
pub open spec fn with_agent_prompts(ai: TableView) -> TableView {
    match tv_get(ai, "agents"@) {
        Some(TomlView::Array(items)) => tv_set(ai, "agents"@, TomlView::Array(migrate_agents(items))),
        _ => ai,
    }
}

fn copy_if_missing_of(t: TomlTable, dst: &str, src: &str) -> (r: TomlTable)
    ensures
        table_view(r) == copy_if_missing(table_view(t), dst@, src@),
{
    if t.get(dst).is_some() {
        return t;
    }
    let found = match t.get(src) {
        Some(v) => Some(v.duplicate()),
        None => None,
    };
    match found {
        Some(v) => t.set(key_string(dst), v),
        None => t,
    }
}

fn migrate_agent_value(a: TomlValue) -> (r: TomlValue)
    ensures
        value_view(r) == migrate_agent(value_view(a)),
{
    match a {
        TomlValue::Table(t) => {
            let t = copy_if_missing_of(t, "persona_prompt", "system_prompt");
            TomlValue::Table(copy_if_missing_of(t, "reply_chat_model", "chat_model"))
        },
        other => other,
    }
}

fn migrate_agent_list(items: TomlArray) -> (r: TomlArray)
    ensures
        array_view(r) == migrate_agents(array_view(items)),
    decreases items,
{
    match items {
        TomlArray::Nil => TomlArray::Nil,
        TomlArray::Cons(a, rest) => TomlArray::Cons(
            Box::new(migrate_agent_value(*a)),
            Box::new(migrate_agent_list(*rest)),
        ),
    }
}

fn with_agent_prompts_of(ai: TomlTable) -> (r: TomlTable)
    ensures
        table_view(r) == with_agent_prompts(table_view(ai)),
{
    let found = match ai.get("agents") {
        Some(TomlValue::Array(items)) => Some(items.duplicate()),
        _ => None,
    };
    match found {
        Some(items) => ai.set(key_string("agents"), TomlValue::Array(migrate_agent_list(items))),
        None => ai,
    }
}

/// The AI section with the legacy text-to-speech switch written into the
/// speech settings (created with their defaults where missing).
pub open spec fn with_tts_switch(ai: TableView, old_ai: TableView) -> TableView {
    match as_flag(tv_get(old_ai, "tts_enabled"@)) {
        None => ai,
        Some(e) => {
            let speech = match tv_get(ai, "speech"@) {
                None => default_speech_toml(),
                Some(s) => s,
            };
            match speech {
                TomlView::Table(st) => {
                    let tts = match tv_get(st, "tts"@) {
                        None => default_tts_toml(),
                        Some(t) => t,
                    };
                    match tts {
                        TomlView::Table(tt) => tv_set(
                            ai,
                            "speech"@,
                            TomlView::Table(
                                tv_set(
                                    st,
                                    "tts"@,
                                    TomlView::Table(tv_set(tt, "enabled"@, TomlView::Bool(e))),
                                ),
                            ),
                        ),
                        _ => ai,
                    }
                },
                _ => ai,
            }
        },
    }
}

fn with_tts_switch_of(ai: TomlTable, old_ai: &TomlTable) -> (r: TomlTable)
    ensures
        table_view(r) == with_tts_switch(table_view(ai), table_view(*old_ai)),
{
    let enabled = match flag_of(old_ai.get("tts_enabled")) {
        Some(e) => e,
        None => return ai,
    };
    let speech = match ai.get("speech") {
        None => default_speech_value(),
        Some(s) => s.duplicate(),
    };
    match speech {
        TomlValue::Table(st) => {
            let tts = match st.get("tts") {
                None => default_tts_value(),
                Some(t) => t.duplicate(),
            };
            match tts {
                TomlValue::Table(tt) => {
                    let tt = tt.set(key_string("enabled"), TomlValue::Boolean(enabled));
                    let st = st.set(key_string("tts"), TomlValue::Table(tt));
                    ai.set(key_string("speech"), TomlValue::Table(st))
                },
                _ => ai,
            }
        },
        _ => ai,
    }
}

/// An AI section brought up to date from a legacy one, step by step.
pub open spec fn migrate_ai_table(ai: TableView, old_ai: TableView) -> TableView {
    with_tts_switch(
        with_agent_prompts(with_llm_section(with_legacy_llm(ai, old_ai), old_ai)),
        old_ai,
    )
}

/// The configuration with the AI section of `old_value` migrated into it:
/// when the old configuration has an AI table and the current one is a
/// table, its AI section (created empty when missing) is brought up to
/// date; otherwise nothing changes.
pub open spec fn migrate_ai(base: TomlView, old_value: TomlView) -> TomlView {
    match (as_table_view(view_get(old_value, "ai"@)), base) {
        (Some(old_ai), TomlView::Table(bt)) => match tv_get(bt, "ai"@) {
            None => TomlView::Table(
                tv_set(bt, "ai"@, TomlView::Table(migrate_ai_table(TableView::Nil, old_ai))),
            ),
            Some(TomlView::Table(a)) => TomlView::Table(
                tv_set(bt, "ai"@, TomlView::Table(migrate_ai_table(a, old_ai))),
            ),
            Some(_) => base,
        },
        _ => base,
    }
}

fn migrate_ai_table_of(ai: TomlTable, old_ai: &TomlTable) -> (r: TomlTable)
    ensures
        table_view(r) == migrate_ai_table(table_view(ai), table_view(*old_ai)),
{
    let ai = with_legacy_llm_of(ai, old_ai);
    let ai = with_llm_section_of(ai, old_ai);
    let ai = with_agent_prompts_of(ai);
    with_tts_switch_of(ai, old_ai)
}

/// Brings the AI section of `base` up to date with the settings that older
/// versions kept in the AI section of `old_value`.
pub fn migrate_legacy_ai_config(base: &mut TomlValue, old_value: &TomlValue)
    ensures
        value_view(*final(base)) == migrate_ai(value_view(*old(base)), value_view(*old_value)),
{
    let old_ai = match value_get(old_value, "ai") {
        Some(TomlValue::Table(t)) => t,
        _ => return ,
    };
    let mut taken = TomlValue::Boolean(false);
    std::mem::swap(&mut taken, base);
    let result = match taken {
        TomlValue::Table(bt) => {
            let current = match bt.get("ai") {
                None => Some(TomlTable::Nil),
                Some(TomlValue::Table(a)) => Some(a.duplicate()),
                Some(_) => None,
            };
            match current {
                Some(a) => TomlValue::Table(
                    bt.set(key_string("ai"), TomlValue::Table(migrate_ai_table_of(a, old_ai))),
                ),
                None => TomlValue::Table(bt),
            }
        },
        other => other,
    };
    *base = result;
}


/// The configuration document of an older file brought up to date: the old
/// document merged into the current default one, then the legacy microphone
/// and AI settings migrated.
pub fn upgrade_config_document(default_doc: TomlValue, old_value: &TomlValue) -> (r: TomlValue)
    ensures
        value_view(r) == migrate_ai(
            migrate_microphone(
                value_view(merge_value(default_doc, *old_value)),
                value_view(*old_value),
            ),
            value_view(*old_value),
        ),
{
    let mut doc = merge_toml_values(default_doc, old_value);
    migrate_legacy_microphone_config(&mut doc, old_value);
    migrate_legacy_ai_config(&mut doc, old_value);
    doc
}


/// The settings document that a settings file's text gives: none when
/// the text is no valid TOML (the file is then replaced by the defaults);
/// else the parsed document merged into the default one and migrated, as
/// `upgrade_config_document` brings it up to date.
pub fn load_config_document(default_doc: TomlValue, file_content: &str) -> (r: Option<TomlValue>)
    ensures
        r is None <==> toml_document(file_content@) is None,
        r matches Some(d) ==> exists|old: TomlValue|
            toml_document(file_content@) == Some(value_view(old)) && well_keyed(old) && value_view(d)
                == migrate_ai(
                migrate_microphone(value_view(merge_value(default_doc, old)), value_view(old)),
                value_view(old),
            ),
{
    match parse_toml_document(file_content) {
        Some(old_value) => Some(upgrade_config_document(default_doc, &old_value)),
        None => None,
    }
}

/// The denoise switch of a configuration's microphone section.
pub open spec fn microphone_denoise(v: TomlView) -> Option<bool> {
    match view_get(v, "microphone"@) {
        Some(m) => as_flag(view_get(m, "enable_denoise"@)),
        None => None,
    }
}

/// Denoising is on after the migration exactly when the old recognizer
/// section or the current microphone section had it on.
pub proof fn lemma_migrated_denoise(base: TomlView, old_value: TomlView, d: bool)
    requires
        base is Table,
        view_get(base, "microphone"@) is None || view_get(base, "microphone"@) matches Some(
            TomlView::Table(_),
        ),
        match view_get(old_value, "recognizer"@) {
            Some(r) => as_flag(view_get(r, "enable_denoise"@)) == Some(d),
            None => false,
        },
    ensures
        microphone_denoise(migrate_microphone(base, old_value)) == Some(
            d || microphone_denoise(base) == Some(true),
        ),
{
    let t = base->Table_0;
    let m = tv_get(t, "microphone"@);
    lemma_tv_get_set(TableView::Nil, "enable_denoise"@, TomlView::Bool(d), "enable_denoise"@);
    match m {
        None => {
            lemma_tv_get_set(
                t,
                "microphone"@,
                TomlView::Table(tv_set(TableView::Nil, "enable_denoise"@, TomlView::Bool(d))),
                "microphone"@,
            );
        },
        Some(TomlView::Table(mt)) => {
            lemma_tv_get_set(mt, "enable_denoise"@, TomlView::Bool(d), "enable_denoise"@);
            lemma_tv_get_set(
                t,
                "microphone"@,
                TomlView::Table(tv_set(mt, "enable_denoise"@, TomlView::Bool(d))),
                "microphone"@,
            );
        },
        Some(_) => {},
    }
}


/// Whether a context event count that fits `usize` is a supported one.
pub open spec fn count_supported(llm: TableView) -> bool {
    match tv_get(llm, "context_event_count"@) {
        Some(TomlView::Int(i)) => (0 <= i && i <= usize::MAX) ==> context_event_count_options().contains(
            i as usize,
        ),
        _ => true,
    }
}

/// Whether the LLM settings of an AI section have a supported count.
pub open spec fn llm_count_supported(ai: TableView) -> bool {
    match tv_get(ai, "llm"@) {
        Some(TomlView::Table(l)) => count_supported(l),
        _ => true,
    }
}

/// Whether the AI section of `old_value` is a table and that of `base` can
/// take the migration.
pub open spec fn ai_migration_applies(base: TomlView, old_value: TomlView) -> bool {
    &&& as_table_view(view_get(old_value, "ai"@)) is Some
    &&& base is Table
    &&& (view_get(base, "ai"@) is None || view_get(base, "ai"@) matches Some(TomlView::Table(_)))
}

proof fn lemma_sanitized_count(llm: TableView)
    ensures
        count_supported(with_sanitized_count(llm)),
{
    assert(context_event_count_options()[2] == 12usize);
    match tv_get(llm, "context_event_count"@) {
        Some(TomlView::Int(i)) => {
            if 0 <= i && i <= usize::MAX {
                lemma_tv_get_set(
                    llm,
                    "context_event_count"@,
                    TomlView::Int(sanitized_count(i)),
                    "context_event_count"@,
                );
            }
        },
        _ => {},
    }
}

proof fn lemma_distinct_keys()
    ensures
        "llm"@ != "speech"@,
        "llm"@ != "agents"@,
        "context_event_count"@ != "decision"@,
        "context_event_count"@ != "reply"@,
        "speech"@ != "llm"@,
        "speech"@ != "agents"@,
{
    reveal_strlit("llm");
    reveal_strlit("speech");
    reveal_strlit("agents");
    reveal_strlit("context_event_count");
    reveal_strlit("decision");
    reveal_strlit("reply");
    assert("llm"@.len() != "speech"@.len());
    assert("llm"@.len() != "agents"@.len());
    assert("context_event_count"@.len() != "decision"@.len());
    assert("context_event_count"@.len() != "reply"@.len());
    assert("speech"@[0] != "agents"@[0]);
}

proof fn lemma_stage_keeps_count(llm: TableView, key: Seq<char>, stage: Option<StageModel>)
    requires
        key != "context_event_count"@,
    ensures
        tv_get(with_stage(llm, key, stage), "context_event_count"@) == tv_get(
            llm,
            "context_event_count"@,
        ),
{
    if let Some(st) = stage {
        lemma_tv_get_set(llm, key, stage_toml(st), "context_event_count"@);
    }
}

proof fn lemma_llm_section_count(ai: TableView, old_ai: TableView)
    ensures
        llm_count_supported(with_llm_section(ai, old_ai)),
{
    lemma_distinct_keys();
    match as_table_view(tv_get(old_ai, "llm"@)) {
        Some(llm_old) => {
            let current = match tv_get(ai, "llm"@) {
                None => default_llm_toml(),
                Some(v) => v,
            };
            match current {
                TomlView::Table(lt) => {
                    let ds = stage_from_llm(
                        old_ai,
                        llm_old,
                        "decision_provider_id"@,
                        "decision_chat_model"@,
                    );
                    let rs = stage_from_llm(old_ai, llm_old, "reply_provider_id"@, "reply_chat_model"@);
                    let s0 = with_sanitized_count(lt);
                    let s1 = with_stage(s0, "decision"@, ds);
                    let s2 = with_stage(s1, "reply"@, rs);
                    lemma_sanitized_count(lt);
                    lemma_stage_keeps_count(s0, "decision"@, ds);
                    lemma_stage_keeps_count(s1, "reply"@, rs);
                    lemma_tv_get_set(ai, "llm"@, TomlView::Table(s2), "llm"@);
                },
                _ => {},
            }
        },
        None => {
            if let Some(TomlView::Table(lt)) = tv_get(ai, "llm"@) {
                lemma_sanitized_count(lt);
                lemma_tv_get_set(ai, "llm"@, TomlView::Table(with_sanitized_count(lt)), "llm"@);
            }
        },
    }
}

proof fn lemma_agents_keep(ai: TableView, k: Seq<char>)
    requires
        k != "agents"@,
    ensures
        tv_get(with_agent_prompts(ai), k) == tv_get(ai, k),
{
    if let Some(TomlView::Array(items)) = tv_get(ai, "agents"@) {
        lemma_tv_get_set(ai, "agents"@, TomlView::Array(migrate_agents(items)), k);
    }
}

proof fn lemma_tts_keeps(ai: TableView, old_ai: TableView, k: Seq<char>)
    requires
        k != "speech"@,
    ensures
        tv_get(with_tts_switch(ai, old_ai), k) == tv_get(ai, k),
{
    if let Some(e) = as_flag(tv_get(old_ai, "tts_enabled"@)) {
        let speech = match tv_get(ai, "speech"@) {
            None => default_speech_toml(),
            Some(s) => s,
        };
        if let TomlView::Table(st) = speech {
            let tts = match tv_get(st, "tts"@) {
                None => default_tts_toml(),
                Some(t) => t,
            };
            if let TomlView::Table(tt) = tts {
                lemma_tv_get_set(
                    ai,
                    "speech"@,
                    TomlView::Table(
                        tv_set(st, "tts"@, TomlView::Table(tv_set(tt, "enabled"@, TomlView::Bool(e)))),
                    ),
                    k,
                );
            }
        }
    }
}

/// The context event count of a configuration's LLM settings.
pub open spec fn llm_context_count(v: TomlView) -> Option<i64> {
    match view_get(v, "ai"@) {
        Some(a) => match view_get(a, "llm"@) {
            Some(l) => match view_get(l, "context_event_count"@) {
                Some(TomlView::Int(i)) => Some(i),
                _ => None,
            },
            None => None,
        },
        None => None,
    }
}

/// After the AI section is migrated, its context event count, when it is
/// an integer that fits `usize`, is one of the supported values.
pub proof fn lemma_migrated_count_supported(base: TomlView, old_value: TomlView)
    requires
        ai_migration_applies(base, old_value),
    ensures
        match llm_context_count(migrate_ai(base, old_value)) {
            Some(i) => (0 <= i && i <= usize::MAX) ==> context_event_count_options().contains(
                i as usize,
            ),
            None => true,
        },
{
    lemma_distinct_keys();
    let old_ai = as_table_view(view_get(old_value, "ai"@))->0;
    let bt = base->Table_0;
    let a = match tv_get(bt, "ai"@) {
        Some(TomlView::Table(x)) => x,
        _ => TableView::Nil,
    };
    let la = with_legacy_llm(a, old_ai);
    let l = with_llm_section(la, old_ai);
    let g = with_agent_prompts(l);
    let m = with_tts_switch(g, old_ai);
    lemma_llm_section_count(la, old_ai);
    lemma_agents_keep(l, "llm"@);
    lemma_tts_keeps(g, old_ai, "llm"@);
    assert(m == migrate_ai_table(a, old_ai));
    lemma_tv_get_set(bt, "ai"@, TomlView::Table(m), "ai"@);
}


proof fn lemma_llm_steps_keep(ai: TableView, old_ai: TableView, k: Seq<char>)
    requires
        k != "llm"@,
    ensures
        tv_get(with_llm_section(with_legacy_llm(ai, old_ai), old_ai), k) == tv_get(ai, k),
{
    let la = with_legacy_llm(ai, old_ai);
    if has_legacy_llm_fields(old_ai) {
        let p = legacy_provider_model(old_ai);
        lemma_tv_get_set(
            ai,
            "llm"@,
            llm_toml(
                true,
                true,
                12,
                stage_for(p, legacy_agent_model(old_ai, "decision_chat_model"@)),
                stage_for(p, legacy_agent_model(old_ai, "reply_chat_model"@)),
            ),
            k,
        );
    }
    let l = with_llm_section(la, old_ai);
    match as_table_view(tv_get(old_ai, "llm"@)) {
        Some(llm_old) => {
            let current = match tv_get(la, "llm"@) {
                None => default_llm_toml(),
                Some(v) => v,
            };
            if let TomlView::Table(lt) = current {
                let ds = stage_from_llm(
                    old_ai,
                    llm_old,
                    "decision_provider_id"@,
                    "decision_chat_model"@,
                );
                let rs = stage_from_llm(old_ai, llm_old, "reply_provider_id"@, "reply_chat_model"@);
                lemma_tv_get_set(
                    la,
                    "llm"@,
                    TomlView::Table(
                        with_stage(with_stage(with_sanitized_count(lt), "decision"@, ds), "reply"@, rs),
                    ),
                    k,
                );
            }
        },
        None => {
            if let Some(TomlView::Table(lt)) = tv_get(la, "llm"@) {
                lemma_tv_get_set(la, "llm"@, TomlView::Table(with_sanitized_count(lt)), k);
            }
        },
    }
}

/// The text-to-speech switch of a configuration.
pub open spec fn tts_switch(v: TomlView) -> Option<bool> {
    match view_get(v, "ai"@) {
        Some(a) => match view_get(a, "speech"@) {
            Some(sp) => match view_get(sp, "tts"@) {
                Some(t) => as_flag(view_get(t, "enabled"@)),
                None => None,
            },
            None => None,
        },
        None => None,
    }
}

/// Whether the speech settings of a configuration, where present, are a
/// table whose text-to-speech part, where present, is a table.
pub open spec fn speech_is_open(v: TomlView) -> bool {
    match view_get(v, "ai"@) {
        Some(a) => match view_get(a, "speech"@) {
            None => true,
            Some(TomlView::Table(st)) => match tv_get(st, "tts"@) {
                None => true,
                Some(TomlView::Table(_)) => true,
                Some(_) => false,
            },
            Some(_) => false,
        },
        None => true,
    }
}

/// A legacy text-to-speech switch is what the migrated speech settings say.
pub proof fn lemma_migrated_tts_switch(base: TomlView, old_value: TomlView, e: bool)
    requires
        ai_migration_applies(base, old_value),
        as_flag(tv_get(as_table_view(view_get(old_value, "ai"@))->0, "tts_enabled"@)) == Some(e),
        speech_is_open(base),
    ensures
        tts_switch(migrate_ai(base, old_value)) == Some(e),
{
    lemma_distinct_keys();
    let old_ai = as_table_view(view_get(old_value, "ai"@))->0;
    let bt = base->Table_0;
    let a = match tv_get(bt, "ai"@) {
        Some(TomlView::Table(x)) => x,
        _ => TableView::Nil,
    };
    let l = with_llm_section(with_legacy_llm(a, old_ai), old_ai);
    let g = with_agent_prompts(l);
    lemma_llm_steps_keep(a, old_ai, "speech"@);
    lemma_agents_keep(l, "speech"@);
    let m = with_tts_switch(g, old_ai);
    let speech = match tv_get(g, "speech"@) {
        None => default_speech_toml(),
        Some(sp) => sp,
    };
    reveal_strlit("tts");
    reveal_strlit("stt");
    assert("stt"@[0] != "tts"@[0]);
    assert(tv_get(g, "speech"@) == tv_get(a, "speech"@));
    assert(tv_get(default_speech_toml()->Table_0, "tts"@) == Some(default_tts_toml())) by {
        reveal_with_fuel(tv_get, 2);
    }
    let st = speech->Table_0;
    let tts = match tv_get(st, "tts"@) {
        None => default_tts_toml(),
        Some(t) => t,
    };
    let tt = tts->Table_0;
    lemma_tv_get_set(tt, "enabled"@, TomlView::Bool(e), "enabled"@);
    let tt2 = tv_set(tt, "enabled"@, TomlView::Bool(e));
    lemma_tv_get_set(st, "tts"@, TomlView::Table(tt2), "tts"@);
    let st2 = tv_set(st, "tts"@, TomlView::Table(tt2));
    lemma_tv_get_set(g, "speech"@, TomlView::Table(st2), "speech"@);
    assert(m == migrate_ai_table(a, old_ai));
    lemma_tv_get_set(bt, "ai"@, TomlView::Table(m), "ai"@);
}

proof fn lemma_copy_if_missing_get(t: TableView, dst: Seq<char>, src: Seq<char>, k: Seq<char>)
    ensures
        tv_get(copy_if_missing(t, dst, src), k) == if k == dst && tv_get(t, dst) is None {
            tv_get(t, src)
        } else {
            tv_get(t, k)
        },
{
    if tv_get(t, dst) is None {
        if let Some(v) = tv_get(t, src) {
            lemma_tv_get_set(t, dst, v, k);
        }
    }
}

/// Migrating an agent entry never overwrites what it holds: every key it
/// has keeps its value; a missing persona prompt is taken from the older
/// system prompt and a missing reply model from the older chat model, and
/// no other key is added.
pub proof fn lemma_agent_migration_keeps_keys(t: TableView, k: Seq<char>)
    ensures
        view_get(migrate_agent(TomlView::Table(t)), k) == if k == "persona_prompt"@ && tv_get(
            t,
            k,
        ) is None {
            tv_get(t, "system_prompt"@)
        } else if k == "reply_chat_model"@ && tv_get(t, k) is None {
            tv_get(t, "chat_model"@)
        } else {
            tv_get(t, k)
        },
{
    let t1 = copy_if_missing(t, "persona_prompt"@, "system_prompt"@);
    lemma_copy_if_missing_get(t, "persona_prompt"@, "system_prompt"@, k);
    lemma_copy_if_missing_get(t1, "reply_chat_model"@, "chat_model"@, k);
    lemma_copy_if_missing_get(t, "persona_prompt"@, "system_prompt"@, "reply_chat_model"@);
    lemma_copy_if_missing_get(t, "persona_prompt"@, "system_prompt"@, "chat_model"@);
    assert("persona_prompt"@ != "reply_chat_model"@) by {
        reveal_strlit("persona_prompt");
        reveal_strlit("reply_chat_model");
        assert("persona_prompt"@.len() != "reply_chat_model"@.len());
    }
    assert("persona_prompt"@ != "chat_model"@) by {
        reveal_strlit("persona_prompt");
        reveal_strlit("chat_model");
        assert("persona_prompt"@.len() != "chat_model"@.len());
    }
}

} // verus!
