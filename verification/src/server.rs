//! The request loop of the server as a state machine.
//!
//! The machine decides; its driver acts. The driver hands `step` the state
//! and what just happened, does what the returned action asks for, and comes
//! back with the outcome. Receiving, running a query, sending and sleeping
//! are the driver's business; which of them comes next, and what is sent, is
//! decided here.
//!
//! A round goes `Idle`, `AwaitingRequest`, `Processing`, `Responding` and
//! back to `Idle`. The cancellation flag is read at the top of each round
//! and between two attempts to receive, and only there: a set flag leads
//! from `AwaitingRequest` to `Draining` and on to `Terminated`, and never
//! cuts a round short.

use crate::encode::{empty_response, encode_response, response_encodable};
use crate::format::{parts_bytes, response_parts, sentinel};
use crate::model::{rows_have_width, QueryResult, ResultModel, TypedValue, ValueModel};
use crate::text::string_from_utf8;
use vstd::prelude::*;
use vstd::utf8::{decode_utf8, valid_utf8};

verus! {

/// The pause between two attempts to receive, in milliseconds. With polling
/// a set cancellation flag is seen after about this long.
pub const POLL_INTERVAL_MS: u64 = 1;

/// How the driver waits for a request.
#[derive(Debug, Clone, Copy, PartialEq, Eq, Structural)]
pub enum ReceiveMode {
    /// The receive blocks until a request is there.
    Blocking,
    /// The receive returns at once, and is tried again after a short pause.
    Polling,
}

/// Where the loop stands.
#[derive(Debug, Clone, Copy, PartialEq, Eq, Structural)]
pub enum ServerState {
    /// Between two rounds.
    Idle,
    /// At the top of a round, or waiting for a request.
    AwaitingRequest,
    /// A query is with the engine.
    Processing,
    /// A reply is with the transport.
    Responding,
    /// Shutdown was asked for; the transport is being released.
    Draining,
    /// The loop has ended.
    Terminated,
}

/// What the driver reports.
#[derive(Debug, Clone, PartialEq, Eq)]
pub enum ServerEvent {
    /// The action asked for is done and has nothing to report.
    Completed,
    /// The cancellation flag, as it was just read.
    ShutdownFlag(bool),
    /// A request arrived; these are its raw bytes.
    Request(Vec<u8>),
    /// No request is pending.
    NoRequest,
    /// The engine could not prepare the query.
    QueryRejected,
    /// The engine ran the query: the rows in order, and the column names as
    /// they were read after the last row.
    QueryFinished { rows: Vec<Vec<TypedValue>>, columns: Vec<String> },
    /// The transport took the reply, or failed to.
    ReplyDone { sent: bool },
}

/// What the driver is asked to do next.
#[derive(Debug, Clone, PartialEq, Eq)]
pub enum ServerAction {
    /// Begin the next round, and report `Completed`.
    Resume,
    /// Read the cancellation flag, and report `ShutdownFlag`.
    ReadShutdownFlag,
    /// Take a request from the transport, and report `Request` or
    /// `NoRequest`.
    Receive,
    /// Sleep for `POLL_INTERVAL_MS`, and report `Completed`.
    Pause,
    /// Run this query, and report `QueryFinished` or `QueryRejected`.
    Execute(String),
    /// Send these message parts as the one reply to the request, and report
    /// `ReplyDone`.
    Reply(Vec<Vec<u8>>),
    /// Release the transport, and report `Completed`.
    Close,
    /// Leave the loop.
    Exit,
}

/// The model of a `ServerEvent`.
pub enum EventModel {
    Completed,
    ShutdownFlag(bool),
    Request(Seq<u8>),
    NoRequest,
    QueryRejected,
    QueryFinished { rows: Seq<Seq<ValueModel>>, columns: Seq<Seq<char>> },
    ReplyDone { sent: bool },
}

/// The model of a `ServerAction`.
pub enum ActionModel {
    Resume,
    ReadShutdownFlag,
    Receive,
    Pause,
    Execute(Seq<char>),
    Reply(Seq<Seq<u8>>),
    Close,
    Exit,
}

impl View for ServerEvent {
    type V = EventModel;

    open spec fn view(&self) -> EventModel {
        match self {
            ServerEvent::Completed => EventModel::Completed,
            ServerEvent::ShutdownFlag(set) => EventModel::ShutdownFlag(*set),
            ServerEvent::Request(payload) => EventModel::Request(payload@),
            ServerEvent::NoRequest => EventModel::NoRequest,
            ServerEvent::QueryRejected => EventModel::QueryRejected,
            ServerEvent::QueryFinished { rows, columns } => EventModel::QueryFinished {
                rows: rows.deep_view(),
                columns: columns.deep_view(),
            },
            ServerEvent::ReplyDone { sent } => EventModel::ReplyDone { sent: *sent },
        }
    }
}

impl View for ServerAction {
    type V = ActionModel;

    open spec fn view(&self) -> ActionModel {
        match self {
            ServerAction::Resume => ActionModel::Resume,
            ServerAction::ReadShutdownFlag => ActionModel::ReadShutdownFlag,
            ServerAction::Receive => ActionModel::Receive,
            ServerAction::Pause => ActionModel::Pause,
            ServerAction::Execute(query) => ActionModel::Execute(query@),
            ServerAction::Reply(parts) => ActionModel::Reply(parts_bytes(parts@)),
            ServerAction::Close => ActionModel::Close,
            ServerAction::Exit => ActionModel::Exit,
        }
    }
}

/// The reply that says "no result": one part, the empty response.
pub open spec fn empty_reply() -> Seq<Seq<u8>> {
    seq![sentinel()]
}

/// The reply to a query that the engine ran. Rows that do not all have one
/// cell for each column name, or a segment too long for one buffer, leave no
/// result to speak of, and the reply is the empty one.
pub open spec fn reply_parts(rows: Seq<Seq<ValueModel>>, columns: Seq<Seq<char>>) -> Seq<Seq<u8>> {
    let result = ResultModel::assemble(rows, columns);
    if rows_have_width(rows, columns.len()) && response_encodable(result) {
        response_parts(result)
    } else {
        empty_reply()
    }
}

/// What the loop does in `AwaitingRequest`.
pub open spec fn awaiting_transition(mode: ReceiveMode, event: EventModel) -> (
    ServerState,
    ActionModel,
) {
    match event {
        EventModel::ShutdownFlag(set) => if set {
            (ServerState::Draining, ActionModel::Close)
        } else {
            (ServerState::AwaitingRequest, ActionModel::Receive)
        },
        EventModel::NoRequest => match mode {
            ReceiveMode::Polling => (ServerState::AwaitingRequest, ActionModel::Pause),
            ReceiveMode::Blocking => (ServerState::AwaitingRequest, ActionModel::ReadShutdownFlag),
        },
        EventModel::Request(payload) => if valid_utf8(payload) {
            (ServerState::Processing, ActionModel::Execute(decode_utf8(payload)))
        } else {
            (ServerState::Responding, ActionModel::Reply(empty_reply()))
        },
        _ => (ServerState::AwaitingRequest, ActionModel::ReadShutdownFlag),
    }
}

/// The state that follows `state` on `event`, and the action that goes with
/// the move.
///
/// Every state answers every event. In `Processing` whatever is not a
/// finished query counts as a failed one; elsewhere an event that the state
/// does not wait for moves the loop on as `Completed` would.
pub open spec fn transition(mode: ReceiveMode, state: ServerState, event: EventModel) -> (
    ServerState,
    ActionModel,
) {
    match state {
        ServerState::Idle => (ServerState::AwaitingRequest, ActionModel::ReadShutdownFlag),
        ServerState::AwaitingRequest => awaiting_transition(mode, event),
        ServerState::Processing => match event {
            EventModel::QueryFinished { rows, columns } => (
                ServerState::Responding,
                ActionModel::Reply(reply_parts(rows, columns)),
            ),
            _ => (ServerState::Responding, ActionModel::Reply(empty_reply())),
        },
        ServerState::Responding => (ServerState::Idle, ActionModel::Resume),
        ServerState::Draining => (ServerState::Terminated, ActionModel::Exit),
        ServerState::Terminated => (ServerState::Terminated, ActionModel::Exit),
    }
}

/// The message parts of the empty reply.
fn empty_reply_parts() -> (parts: Vec<Vec<u8>>)
    ensures
        parts_bytes(parts@) == empty_reply(),
{
    let mut parts: Vec<Vec<u8>> = Vec::new();
    parts.push(empty_response());
    assert(parts_bytes(parts@) =~= empty_reply());
    parts
}

/// The message parts of the reply to a query that the engine ran.
pub fn query_reply(rows: Vec<Vec<TypedValue>>, columns: Vec<String>) -> (parts: Vec<Vec<u8>>)
    ensures
        parts_bytes(parts@) == reply_parts(rows.deep_view(), columns.deep_view()),
{
    match QueryResult::assemble(rows, columns) {
        None => empty_reply_parts(),
        Some(result) => match encode_response(&result) {
            Some(parts) => parts,
            None => empty_reply_parts(),
        },
    }
}

/// What the loop does in `AwaitingRequest`.
fn awaiting_step(mode: ReceiveMode, event: ServerEvent) -> (next: (ServerState, ServerAction))
    ensures
        (next.0, next.1@) == awaiting_transition(mode, event@),
{
    match event {
        ServerEvent::ShutdownFlag(set) => {
            if set {
                (ServerState::Draining, ServerAction::Close)
            } else {
                (ServerState::AwaitingRequest, ServerAction::Receive)
            }
        },
        ServerEvent::NoRequest => match mode {
            ReceiveMode::Polling => (ServerState::AwaitingRequest, ServerAction::Pause),
            ReceiveMode::Blocking => (ServerState::AwaitingRequest, ServerAction::ReadShutdownFlag),
        },
        ServerEvent::Request(payload) => match string_from_utf8(payload) {
            Some(query) => (ServerState::Processing, ServerAction::Execute(query)),
            None => (ServerState::Responding, ServerAction::Reply(empty_reply_parts())),
        },
        _ => (ServerState::AwaitingRequest, ServerAction::ReadShutdownFlag),
    }
}

/// One move of the loop: the state that follows `state` on `event`, and what
/// the driver is to do next.
///
/// A request always gets a reply, and only one: a request that is not UTF-8
/// is answered with the empty response at once, a query that the engine
/// rejects is answered with the empty response, and a query that it ran is
/// answered with its result. After the reply, sent or not, the loop is back
/// in `Idle`. Shutdown is taken up in `AwaitingRequest` alone, on a set
/// flag.
pub fn step(mode: ReceiveMode, state: ServerState, event: ServerEvent) -> (next: (
    ServerState,
    ServerAction,
))
    ensures
        (next.0, next.1@) == transition(mode, state, event@),
        state is Processing ==> next.0 is Responding && next.1 is Reply,
        next.1 is Reply ==> next.0 is Responding,
        next.0 is Draining <==> state is AwaitingRequest && event@ == EventModel::ShutdownFlag(
            true,
        ),
{
    match state {
        ServerState::Idle => (ServerState::AwaitingRequest, ServerAction::ReadShutdownFlag),
        ServerState::AwaitingRequest => awaiting_step(mode, event),
        ServerState::Processing => match event {
            ServerEvent::QueryFinished { rows, columns } => (
                ServerState::Responding,
                ServerAction::Reply(query_reply(rows, columns)),
            ),
            _ => (ServerState::Responding, ServerAction::Reply(empty_reply_parts())),
        },
        ServerState::Responding => (ServerState::Idle, ServerAction::Resume),
        ServerState::Draining => (ServerState::Terminated, ServerAction::Exit),
        ServerState::Terminated => (ServerState::Terminated, ServerAction::Exit),
    }
}

/// Whether the event is a request whose bytes are not UTF-8.
pub open spec fn is_malformed_request(event: EventModel) -> bool {
    match event {
        EventModel::Request(payload) => !valid_utf8(payload),
        _ => false,
    }
}

/// One reply for each request: a reply is asked for on a request that is
/// not UTF-8 and on the outcome of a query, and nowhere else; and once a
/// query is with the engine, the next move asks for the reply, whatever the
/// engine made of the query.
pub proof fn lemma_one_reply_per_request(mode: ReceiveMode, state: ServerState, event: EventModel)
    ensures
        transition(mode, state, event).1 is Reply <==> state is Processing || (state
            is AwaitingRequest && is_malformed_request(event)),
        transition(mode, state, event).1 is Reply ==> transition(mode, state, event).0
            is Responding,
        state is Responding ==> transition(mode, state, event) == (
            ServerState::Idle,
            ActionModel::Resume,
        ),
{
}

/// A request that is not UTF-8 is answered with the empty response, and the
/// loop then serves the next request: whether the reply was sent or not, it
/// comes back to the top of a round and, with the flag down, receives again.
pub proof fn lemma_malformed_request_is_answered(mode: ReceiveMode, payload: Seq<u8>, sent: bool)
    requires
        !valid_utf8(payload),
    ensures
        transition(mode, ServerState::AwaitingRequest, EventModel::Request(payload)) == (
            ServerState::Responding,
            ActionModel::Reply(empty_reply()),
        ),
        transition(mode, ServerState::Responding, EventModel::ReplyDone { sent }) == (
            ServerState::Idle,
            ActionModel::Resume,
        ),
        transition(mode, ServerState::Idle, EventModel::Completed) == (
            ServerState::AwaitingRequest,
            ActionModel::ReadShutdownFlag,
        ),
        transition(mode, ServerState::AwaitingRequest, EventModel::ShutdownFlag(false)) == (
            ServerState::AwaitingRequest,
            ActionModel::Receive,
        ),
{
}

/// A query that the engine rejects is answered with the empty response.
pub proof fn lemma_rejected_query_is_answered(mode: ReceiveMode)
    ensures
        transition(mode, ServerState::Processing, EventModel::QueryRejected) == (
            ServerState::Responding,
            ActionModel::Reply(empty_reply()),
        ),
{
}

/// A query that gave no rows is answered with the empty response, whatever
/// its columns are.
pub proof fn lemma_no_rows_is_empty_reply(columns: Seq<Seq<char>>)
    ensures
        reply_parts(Seq::empty(), columns) == empty_reply(),
{
}

/// Shutdown is cooperative: the loop starts to drain only on a set flag
/// while it awaits a request, it ends only after draining, and once ended
/// it stays so.
pub proof fn lemma_shutdown_is_cooperative(mode: ReceiveMode, state: ServerState, event: EventModel)
    ensures
        transition(mode, state, event).0 is Draining <==> state is AwaitingRequest && event
            == EventModel::ShutdownFlag(true),
        transition(mode, state, event).0 is Terminated <==> state is Draining || state
            is Terminated,
        transition(mode, state, event).1 is Exit <==> state is Draining || state is Terminated,
{
}

} // verus!
