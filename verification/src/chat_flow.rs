use vstd::prelude::*;
use crate::ai::{
    check_decision_call_count, debug_tool_result_text, decimal, final_reply_text, tool_result_text,
    tool_step, ChatToolCall, ToolStep,
};
use crate::config::copy_string;
use crate::text::is_blank;

verus! {

/// The settings a chat turn runs with.
#[derive(Clone, Copy, Debug)]
pub struct ChatSettings {
    /// Whether the language model answers at all.
    pub llm_enabled: bool,
    /// Whether a reply is generated after the decision.
    pub reply_enabled: bool,
    /// Whether the chosen tool is carried out.
    pub auto_execute: bool,
    /// A test run from the debug panel: no tool is carried out.
    pub debug: bool,
}

/// Where a chat turn stands.
#[derive(Debug)]
pub enum ChatTurn {
    /// Nothing has been asked yet.
    Start,
    /// The decision model has been asked which tool to use.
    AwaitingDecision,
    /// The tool the decision model chose is being carried out.
    AwaitingTool(ChatToolCall),
    /// The reply model has been asked.
    AwaitingReply,
    /// The turn is over.
    Finished,
}

/// What happened in a chat turn.
#[derive(Debug)]
pub enum ChatEvent {
    /// The turn begins.
    Begin,
    /// The decision model answered with these tool calls.
    DecisionReturned(Vec<ChatToolCall>),
    /// The tool was carried out, with this report or error.
    ToolFinished(Result<String, String>),
    /// The reply model answered: its content and the text streamed.
    ReplyReturned { content: String, streamed: String },
}

/// What the caller does next.
#[derive(Debug)]
pub enum ChatAction {
    /// Nothing: the event does not belong to this stage of the turn.
    Wait,
    /// Ask the decision model, offering the agent's tools.
    AskDecision,
    /// Carry out this tool call and report how it went.
    RunTool(ChatToolCall),
    /// Keep the tool calls with their results (by call id); then ask the
    /// reply model when `then_reply`, else end the turn without a reply.
    RecordTools { calls: Vec<ChatToolCall>, results: Vec<(String, String)>, then_reply: bool },
    /// In a debug run: ask the reply model with these tool calls and their
    /// results (by call id) in its prompt, keeping nothing.
    ReplyWithTools { calls: Vec<ChatToolCall>, results: Vec<(String, String)> },
    /// End the turn with this text; a text that is not blank is the reply.
    Finish(String),
    /// End a debug run with this reply text, to be shown and not kept.
    EndDebug(String),
    /// End the turn with this error.
    Fail(String),
}

/// A tool call as plain values.
pub struct CallView {
    pub id: Seq<char>,
    pub call_type: Seq<char>,
    pub name: Seq<char>,
    pub arguments: Seq<char>,
}

/// The plain values of a tool call.
pub open spec fn call_view(c: ChatToolCall) -> CallView {
    CallView {
        id: c.id@,
        call_type: c.call_type@,
        name: c.function.name@,
        arguments: c.function.arguments@,
    }
}

/// A chat turn's stage as plain values.
pub enum TurnView {
    Start,
    AwaitingDecision,
    AwaitingTool(CallView),
    AwaitingReply,
    Finished,
}

/// A chat event as plain values.
pub enum EventView {
    Begin,
    DecisionReturned(Seq<CallView>),
    ToolFinished(Result<Seq<char>, Seq<char>>),
    ReplyReturned(Seq<char>, Seq<char>),
}

/// A chat action as plain values.
pub enum ActionView {
    Wait,
    AskDecision,
    RunTool(CallView),
    RecordTools(Seq<CallView>, Seq<(Seq<char>, Seq<char>)>, bool),
    ReplyWithTools(Seq<CallView>, Seq<(Seq<char>, Seq<char>)>),
    Finish(Seq<char>),
    EndDebug(Seq<char>),
    Fail(Seq<char>),
}

/// The plain values of a turn's stage.
pub open spec fn turn_view(t: ChatTurn) -> TurnView {
    match t {
        ChatTurn::Start => TurnView::Start,
        ChatTurn::AwaitingDecision => TurnView::AwaitingDecision,
        ChatTurn::AwaitingTool(c) => TurnView::AwaitingTool(call_view(c)),
        ChatTurn::AwaitingReply => TurnView::AwaitingReply,
        ChatTurn::Finished => TurnView::Finished,
    }
}

/// The plain values of an event.
pub open spec fn event_view(e: ChatEvent) -> EventView {
    match e {
        ChatEvent::Begin => EventView::Begin,
        ChatEvent::DecisionReturned(calls) => EventView::DecisionReturned(
            calls@.map_values(|c: ChatToolCall| call_view(c)),
        ),
        ChatEvent::ToolFinished(o) => EventView::ToolFinished(
            match o {
                Ok(x) => Ok(x@),
                Err(x) => Err(x@),
            },
        ),
        ChatEvent::ReplyReturned { content, streamed } => EventView::ReplyReturned(content@, streamed@),
    }
}

/// The plain values of an action.
pub open spec fn action_view(a: ChatAction) -> ActionView {
    match a {
        ChatAction::Wait => ActionView::Wait,
        ChatAction::AskDecision => ActionView::AskDecision,
        ChatAction::RunTool(c) => ActionView::RunTool(call_view(c)),
        ChatAction::RecordTools { calls, results, then_reply } => ActionView::RecordTools(
            calls@.map_values(|c: ChatToolCall| call_view(c)),
            results@.map_values(|r: (String, String)| (r.0@, r.1@)),
            then_reply,
        ),
        ChatAction::ReplyWithTools { calls, results } => ActionView::ReplyWithTools(
            calls@.map_values(|c: ChatToolCall| call_view(c)),
            results@.map_values(|r: (String, String)| (r.0@, r.1@)),
        ),
        ChatAction::Finish(t) => ActionView::Finish(t@),
        ChatAction::EndDebug(t) => ActionView::EndDebug(t@),
        ChatAction::Fail(m) => ActionView::Fail(m@),
    }
}

/// The tool call `c` kept with its result; the reply model is asked next
/// when replies are on.
pub open spec fn recorded(c: CallView, result: Seq<char>, s: ChatSettings) -> (TurnView, ActionView) {
    (
        if s.reply_enabled {
            TurnView::AwaitingReply
        } else {
            TurnView::Finished
        },
        ActionView::RecordTools(seq![c], seq![(c.id, result)], s.reply_enabled),
    )
}

/// In a debug run, the tool call `c` and its result go into the reply
/// prompt when replies are on, and nothing is kept; with replies off the
/// run ends.
pub open spec fn debug_reported(c: CallView, result: Seq<char>, s: ChatSettings) -> (TurnView, ActionView) {
    if s.reply_enabled {
        (TurnView::AwaitingReply, ActionView::ReplyWithTools(seq![c], seq![(c.id, result)]))
    } else {
        (TurnView::Finished, ActionView::EndDebug(Seq::empty()))
    }
}

/// One step of a chat turn: with the language model off an ordinary turn
/// ends at once, while a debug run asks the decision model all the same;
/// the decision model must choose exactly one tool; `reply` runs nothing,
/// a debug run runs no tool and keeps nothing, and otherwise the tool runs
/// only when automatic execution is on; after the tool results the reply
/// model is asked when replies are on; the reply is the completion's
/// content, or in an ordinary turn the streamed text when the content is
/// blank. An event that does not belong to the turn's stage changes
/// nothing.
pub open spec fn chat_next(t: TurnView, e: EventView, s: ChatSettings) -> (TurnView, ActionView) {
    match (t, e) {
        (TurnView::Start, EventView::Begin) => if !s.llm_enabled && !s.debug {
            (TurnView::Finished, ActionView::Finish(Seq::empty()))
        } else {
            (TurnView::AwaitingDecision, ActionView::AskDecision)
        },
        (TurnView::AwaitingDecision, EventView::DecisionReturned(calls)) => if calls.len() != 1 {
            (
                TurnView::Finished,
                ActionView::Fail(
                    "Decision model returned "@ + decimal(calls.len()) + " tool calls; expected exactly one."@,
                ),
            )
        } else {
            let c = calls[0];
            if s.debug {
                if c.name == "reply"@ {
                    debug_reported(c, "reply requested"@, s)
                } else {
                    debug_reported(c, "skipped in debug: would_call_tool '"@ + c.name + "'"@, s)
                }
            } else if c.name == "reply"@ {
                recorded(c, "reply requested"@, s)
            } else if s.auto_execute {
                (TurnView::AwaitingTool(c), ActionView::RunTool(c))
            } else {
                recorded(c, "skipped: auto execution is disabled"@, s)
            }
        },
        (TurnView::AwaitingTool(c), EventView::ToolFinished(o)) => {
            let result = match o {
                Ok(x) => "success: "@ + x,
                Err(x) => "failed: "@ + x,
            };
            if s.debug {
                debug_reported(c, result, s)
            } else {
                recorded(c, result, s)
            }
        },
        (TurnView::AwaitingReply, EventView::ReplyReturned(content, streamed)) => if s.debug {
            (TurnView::Finished, ActionView::EndDebug(content))
        } else {
            (
                TurnView::Finished,
                ActionView::Finish(
                    if is_blank(content) {
                        streamed
                    } else {
                        content
                    },
                ),
            )
        },
        _ => (t, ActionView::Wait),
    }
}

/// The call and its result, kept.
fn record_one(call: ChatToolCall, result: String, settings: &ChatSettings) -> (r: (ChatTurn, ChatAction))
    ensures
        (turn_view(r.0), action_view(r.1)) == recorded(call_view(call), result@, *settings),
{
    let id = copy_string(&call.id);
    let calls = vec![call];
    let results = vec![(id, result)];
    let next = if settings.reply_enabled {
        ChatTurn::AwaitingReply
    } else {
        ChatTurn::Finished
    };
    let r = (next, ChatAction::RecordTools { calls, results, then_reply: settings.reply_enabled });
    assert(calls@.map_values(|c: ChatToolCall| call_view(c)) =~= seq![call_view(call)]);
    assert(results@.map_values(|x: (String, String)| (x.0@, x.1@)) =~= seq![(call_view(call).id, result@)]);
    r
}

/// In a debug run, the call and its result, reported to the reply model.
fn report_one(call: ChatToolCall, result: String, settings: &ChatSettings) -> (r: (ChatTurn, ChatAction))
    requires
        settings.debug,
    ensures
        (turn_view(r.0), action_view(r.1)) == debug_reported(call_view(call), result@, *settings),
{
    if settings.reply_enabled {
        let id = copy_string(&call.id);
        let calls = vec![call];
        let results = vec![(id, result)];
        assert(calls@.map_values(|c: ChatToolCall| call_view(c)) =~= seq![call_view(call)]);
        assert(results@.map_values(|x: (String, String)| (x.0@, x.1@)) =~= seq![(call_view(call).id, result@)]);
        (ChatTurn::AwaitingReply, ChatAction::ReplyWithTools { calls, results })
    } else {
        (ChatTurn::Finished, ChatAction::EndDebug(String::new()))
    }
}

/// Takes one step of a chat turn.
pub fn chat_step(turn: ChatTurn, event: ChatEvent, settings: &ChatSettings) -> (r: (ChatTurn, ChatAction))
    ensures
        (turn_view(r.0), action_view(r.1)) == chat_next(turn_view(turn), event_view(event), *settings),
{
    match (turn, event) {
        (ChatTurn::Start, ChatEvent::Begin) => {
            if !settings.llm_enabled && !settings.debug {
                (ChatTurn::Finished, ChatAction::Finish(String::new()))
            } else {
                (ChatTurn::AwaitingDecision, ChatAction::AskDecision)
            }
        },
        (ChatTurn::AwaitingDecision, ChatEvent::DecisionReturned(calls)) => {
            let ghost cv = calls@.map_values(|c: ChatToolCall| call_view(c));
            match check_decision_call_count(calls.len()) {
                Err(m) => (ChatTurn::Finished, ChatAction::Fail(m)),
                Ok(()) => {
                    let mut calls = calls;
                    let call = calls.pop().unwrap();
                    assert(call_view(call) == cv[0]);
                    match tool_step(call.function.name.as_str(), settings.auto_execute) {
                        ToolStep::Reply => {
                            let result = tool_result_text(ToolStep::Reply, &Ok(String::new()));
                            if settings.debug {
                                report_one(call, result, settings)
                            } else {
                                record_one(call, result, settings)
                            }
                        },
                        _ => {
                            if settings.debug {
                                let result = debug_tool_result_text(call.function.name.as_str());
                                report_one(call, result, settings)
                            } else if settings.auto_execute {
                                let c = call.clone();
                                (ChatTurn::AwaitingTool(call), ChatAction::RunTool(c))
                            } else {
                                let result = tool_result_text(ToolStep::Skip, &Ok(String::new()));
                                record_one(call, result, settings)
                            }
                        },
                    }
                },
            }
        },
        (ChatTurn::AwaitingTool(call), ChatEvent::ToolFinished(outcome)) => {
            let result = tool_result_text(ToolStep::Execute, &outcome);
            if settings.debug {
                report_one(call, result, settings)
            } else {
                record_one(call, result, settings)
            }
        },
        (ChatTurn::AwaitingReply, ChatEvent::ReplyReturned { content, streamed }) => {
            if settings.debug {
                (ChatTurn::Finished, ChatAction::EndDebug(content))
            } else {
                (ChatTurn::Finished, ChatAction::Finish(final_reply_text(content, streamed)))
            }
        },
        (turn, _) => (turn, ChatAction::Wait),
    }
}

/// How many steps a turn at this stage has at most left.
pub open spec fn stages_left(t: TurnView) -> nat {
    match t {
        TurnView::Start => 4,
        TurnView::AwaitingDecision => 3,
        TurnView::AwaitingTool(_) => 2,
        TurnView::AwaitingReply => 1,
        TurnView::Finished => 0,
    }
}

/// Every step that does something moves the turn forward, so a turn ends
/// after at most four such steps; a finished turn stays finished.
pub proof fn lemma_turn_moves_forward(t: TurnView, e: EventView, s: ChatSettings)
    ensures
        !(chat_next(t, e, s).1 is Wait) ==> stages_left(chat_next(t, e, s).0) < stages_left(t),
        t is Finished ==> chat_next(t, e, s).0 is Finished && chat_next(t, e, s).1 is Wait,
{
}

/// A tool is carried out only when automatic execution is on, the turn is
/// no debug run, and the decision model chose exactly one tool that is not
/// `reply`.
pub proof fn lemma_tools_run_only_when_allowed(t: TurnView, e: EventView, s: ChatSettings)
    ensures
        chat_next(t, e, s).1 matches ActionView::RunTool(c) ==> {
            &&& s.auto_execute
            &&& !s.debug
            &&& t is AwaitingDecision
            &&& e matches EventView::DecisionReturned(calls) && calls.len() == 1 && calls[0] == c
            &&& c.name != "reply"@
        },
{
}

/// A debug run keeps nothing: no step of it asks the caller to keep tool
/// calls or a reply, or to run a tool; and it asks the decision model
/// whether or not the language model is switched on.
pub proof fn lemma_debug_run_keeps_nothing(t: TurnView, e: EventView, s: ChatSettings)
    requires
        s.debug,
    ensures
        !(chat_next(t, e, s).1 is RecordTools),
        !(chat_next(t, e, s).1 is Finish),
        !(chat_next(t, e, s).1 is RunTool),
        t is Start && e is Begin ==> chat_next(t, e, s) == (TurnView::AwaitingDecision, ActionView::AskDecision),
{
}

/// An ordinary turn never takes the debug actions.
pub proof fn lemma_ordinary_turn_reports_nothing(t: TurnView, e: EventView, s: ChatSettings)
    requires
        !s.debug,
    ensures
        !(chat_next(t, e, s).1 is ReplyWithTools),
        !(chat_next(t, e, s).1 is EndDebug),
{
}

} // verus!
