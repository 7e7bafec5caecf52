//! The Sway/i3 IPC protocol: frames, replies, events, and the life of a
//! connection.

use crate::json::json_of_texts;
use crate::text::{decimal, same_text};
use vstd::prelude::*;
use vstd::string::*;

verus! {

pub const HEADER_LEN: usize = 14;

/// Frames with a longer payload are refused.
pub const MAX_FRAME_BYTES: usize = 16777216;

pub const EVENT_BIT: u32 = 0x8000_0000;

pub const RUN_COMMAND: u32 = 0;

pub const GET_WORKSPACES: u32 = 1;

pub const SUBSCRIBE: u32 = 2;

pub const GET_INPUTS: u32 = 100;

pub const WORKSPACE_EVENT: u32 = 0x8000_0000;

pub const MODE_EVENT: u32 = 0x8000_0002;

pub const INPUT_EVENT: u32 = 0x8000_0015;

pub const RECONNECT_INITIAL_MILLIS: u64 = 100;

pub const RECONNECT_MAX_MILLIS: u64 = 5000;

pub const REQUEST_TIMEOUT_MILLIS: u64 = 2000;

pub const SUBSCRIPTION_ACK_TIMEOUT_MILLIS: u64 = 2000;

/// What can go wrong between the bar and the compositor.
#[derive(Debug)]
pub enum Error {
    MissingSocket,
    /// The path is given as it is shown, in quotes.
    Connect { path: String, source: String },
    Io(String),
    InvalidMagic,
    FrameTooLarge { length: usize, max: usize },
    UnexpectedMessageType { expected: u32, actual: u32 },
    InvalidJson { context: &'static str, source: String },
    CommandRejected { reason: String },
    SubscriptionRejected { reason: String },
    RequestTimeout { operation: &'static str, millis: u64 },
}

/// A workspace as the compositor lists it.
#[derive(Debug, Clone, PartialEq, Eq)]
pub struct Workspace {
    pub id: i64,
    pub num: i64,
    pub name: String,
    pub output: String,
    pub visible: bool,
    pub focused: bool,
}

/// The part of a compositor node that the workspace widget uses.
#[derive(Debug, Clone, PartialEq, Eq)]
pub struct Node {
    pub id: i64,
    pub num: Option<i64>,
    pub name: Option<String>,
    pub output: Option<String>,
    pub visible: Option<bool>,
    pub focused: bool,
    pub urgent: bool,
}

#[derive(Debug, Clone, PartialEq, Eq)]
pub struct Input {
    pub identifier: String,
    pub xkb_active_layout_name: Option<String>,
}

#[derive(Debug, Clone, Copy, PartialEq, Eq, Structural)]
pub enum WorkspaceChange {
    Init,
    Empty,
    Focus,
    Move,
    Rename,
    Urgent,
    Unknown,
}

#[derive(Debug, Clone, PartialEq, Eq)]
pub struct WorkspaceEvent {
    pub change: WorkspaceChange,
    pub current: Option<Node>,
    pub old: Option<Node>,
}

#[derive(Debug, Clone, Copy, PartialEq, Eq, Structural)]
pub enum InputChange {
    XkbLayout,
    XkbKeymap,
    Unknown,
}

#[derive(Debug, Clone, PartialEq, Eq)]
pub struct InputEvent {
    pub change: InputChange,
    pub input: Input,
}

#[derive(Debug, Clone, PartialEq, Eq)]
pub struct ModeEvent {
    pub change: String,
    pub pango_markup: bool,
}

/// What a workspace listener receives.
#[derive(Debug)]
pub enum WorkspaceMessage {
    Snapshot(Vec<Workspace>),
    Event(WorkspaceEvent),
}

/// What an input listener receives.
#[derive(Debug)]
pub enum InputMessage {
    Snapshot(Vec<Input>),
    Event(InputEvent),
}

/// What a binding-mode listener receives.
#[derive(Debug)]
pub enum ModeMessage {
    Snapshot(ModeEvent),
    Event(ModeEvent),
}

impl WorkspaceChange {
    /// The change that a wire word names; any other word is `Unknown`.
    pub fn from_wire(word: &str) -> (r: Self)
        ensures
            r is Init <==> word@ == "init"@,
            r is Empty <==> word@ == "empty"@,
            r is Focus <==> word@ == "focus"@,
            r is Move <==> word@ == "move"@,
            r is Rename <==> word@ == "rename"@,
            r is Urgent <==> word@ == "urgent"@,
    {
        proof {
            reveal_strlit("init");
            reveal_strlit("empty");
            reveal_strlit("focus");
            reveal_strlit("move");
            reveal_strlit("rename");
            reveal_strlit("urgent");
            assert("init"@[0] != "move"@[0]);
            assert("empty"@[0] != "focus"@[0]);
            assert("rename"@[0] != "urgent"@[0]);
        }
        if same_text(word, "init") {
            WorkspaceChange::Init
        } else if same_text(word, "empty") {
            WorkspaceChange::Empty
        } else if same_text(word, "focus") {
            WorkspaceChange::Focus
        } else if same_text(word, "move") {
            WorkspaceChange::Move
        } else if same_text(word, "rename") {
            WorkspaceChange::Rename
        } else if same_text(word, "urgent") {
            WorkspaceChange::Urgent
        } else {
            WorkspaceChange::Unknown
        }
    }
}

impl InputChange {
    /// The change that a wire word names; any other word is `Unknown`.
    pub fn from_wire(word: &str) -> (r: Self)
        ensures
            r is XkbLayout <==> word@ == "xkb_layout"@,
            r is XkbKeymap <==> word@ == "xkb_keymap"@,
    {
        proof {
            reveal_strlit("xkb_layout");
            reveal_strlit("xkb_keymap");
            assert("xkb_layout"@[4] != "xkb_keymap"@[4]);
        }
        if same_text(word, "xkb_layout") {
            InputChange::XkbLayout
        } else if same_text(word, "xkb_keymap") {
            InputChange::XkbKeymap
        } else {
            InputChange::Unknown
        }
    }
}

/// One message of the protocol.
#[derive(Debug)]
pub struct Frame {
    pub message_type: u32,
    pub payload: Vec<u8>,
}

/// An event that some listener may want.
#[derive(Debug)]
pub enum Event {
    Workspace(WorkspaceEvent),
    Input(InputEvent),
    Mode(ModeEvent),
}

#[derive(Debug, Clone, Copy, PartialEq, Eq, Structural)]
pub enum EventType {
    Workspace,
    Input,
    Mode,
}

impl EventType {
    /// The name under which the compositor knows the event type.
    pub open spec fn name(self) -> Seq<char> {
        match self {
            EventType::Workspace => "workspace"@,
            EventType::Input => "input"@,
            EventType::Mode => "mode"@,
        }
    }

    pub fn wire_name(self) -> (r: &'static str)
        ensures
            r@ == self.name(),
    {
        match self {
            EventType::Workspace => "workspace",
            EventType::Input => "input",
            EventType::Mode => "mode",
        }
    }

    /// The slot of this type's subscription.
    pub fn index(self) -> (r: usize)
        ensures
            r == (match self {
                EventType::Workspace => 0usize,
                EventType::Input => 1usize,
                EventType::Mode => 2usize,
            }),
    {
        match self {
            EventType::Workspace => 0,
            EventType::Input => 1,
            EventType::Mode => 2,
        }
    }
}

impl Event {
    pub open spec fn kind(self) -> EventType {
        match self {
            Event::Workspace(_) => EventType::Workspace,
            Event::Input(_) => EventType::Input,
            Event::Mode(_) => EventType::Mode,
        }
    }
}

/// The four little-endian bytes of a number below 2^32.
pub open spec fn le32(x: int) -> Seq<u8> {
    seq![
        (x % 256) as u8,
        ((x / 256) % 256) as u8,
        ((x / 65536) % 256) as u8,
        ((x / 16777216) % 256) as u8,
    ]
}

/// The number with these four little-endian bytes.
pub open spec fn from_le32(b: Seq<u8>) -> int {
    b[0] + 256 * b[1] + 65536 * b[2] + 16777216 * b[3]
}

/// The bytes `i3-ipc` that start every frame.
pub open spec fn ipc_magic() -> Seq<u8> {
    seq![105u8, 51u8, 45u8, 105u8, 112u8, 99u8]
}

/// The header of a frame.
pub open spec fn header_bytes(payload_length: int, message_type: int) -> Seq<u8> {
    ipc_magic() + le32(payload_length) + le32(message_type)
}

/// The header of a frame with this payload length and message type.
pub fn frame_header(payload_length: usize, message_type: u32) -> (r: Result<[u8; 14], Error>)
    ensures
        match r {
            Ok(header) => payload_length <= MAX_FRAME_BYTES && header@ == header_bytes(
                payload_length as int,
                message_type as int,
            ),
            Err(e) => payload_length > MAX_FRAME_BYTES && e == (Error::FrameTooLarge {
                length: payload_length,
                max: MAX_FRAME_BYTES,
            }),
        },
        r is Ok <==> payload_length <= 16777216,
{
    if payload_length > MAX_FRAME_BYTES {
        return Err(Error::FrameTooLarge { length: payload_length, max: MAX_FRAME_BYTES });
    }
    let n: u32 = payload_length as u32;
    let t: u32 = message_type;
    let header: [u8; 14] = [
        105,
        51,
        45,
        105,
        112,
        99,
        (n % 256) as u8,
        ((n / 256) % 256) as u8,
        ((n / 65536) % 256) as u8,
        ((n / 16777216) % 256) as u8,
        (t % 256) as u8,
        ((t / 256) % 256) as u8,
        ((t / 65536) % 256) as u8,
        ((t / 16777216) % 256) as u8,
    ];
    assert(header@ =~= header_bytes(payload_length as int, message_type as int));
    Ok(header)
}

/// The message type and payload length that a header announces.
pub fn parse_header(header: &[u8; 14]) -> (r: Result<(u32, usize), Error>)
    ensures
        ({
            let magic = header@.subrange(0, 6) == ipc_magic();
            let length = from_le32(header@.subrange(6, 10));
            match r {
                Ok((message_type, n)) => {
                    &&& magic
                    &&& length <= MAX_FRAME_BYTES
                    &&& n == length
                    &&& message_type == from_le32(header@.subrange(10, 14))
                },
                Err(e) => if !magic {
                    e == Error::InvalidMagic
                } else {
                    &&& length > MAX_FRAME_BYTES
                    &&& e == (Error::FrameTooLarge { length: length as usize, max: MAX_FRAME_BYTES })
                },
            }
        }),
{
    let magic_matches = header[0] == 105 && header[1] == 51 && header[2] == 45 && header[3] == 105
        && header[4] == 112 && header[5] == 99;
    proof {
        if magic_matches {
            assert(header@.subrange(0, 6) =~= ipc_magic());
        } else {
            let m = ipc_magic();
            let h = header@.subrange(0, 6);
            assert(h[0] != m[0] || h[1] != m[1] || h[2] != m[2] || h[3] != m[3] || h[4] != m[4]
                || h[5] != m[5]);
        }
    }
    if !magic_matches {
        return Err(Error::InvalidMagic);
    }
    let length: u32 = header[6] as u32 + 256 * (header[7] as u32) + 65536 * (header[8] as u32)
        + 16777216 * (header[9] as u32);
    if length > 16777216 {
        return Err(Error::FrameTooLarge { length: length as usize, max: MAX_FRAME_BYTES });
    }
    let message_type: u32 = header[10] as u32 + 256 * (header[11] as u32) + 65536 * (
    header[12] as u32) + 16777216 * (header[13] as u32);
    Ok((message_type, length as usize))
}

proof fn le32_reads_back(x: int)
    requires
        0 <= x < 0x1_0000_0000,
    ensures
        from_le32(le32(x)) == x,
{
    let a = x / 256;
    let b = a / 256;
    let c = b / 256;
    assert(x / 65536 == b);
    assert(x / 16777216 == c);
    assert(c < 256);
    let bytes = le32(x);
    assert(bytes[0] == x - 256 * a);
    assert(bytes[1] == a - 256 * b);
    assert(bytes[2] == b - 256 * c);
    assert(bytes[3] == c);
}

/// A header that was written reads back as the same length and type.
pub proof fn header_round_trips(payload_length: int, message_type: int)
    requires
        0 <= payload_length < 0x1_0000_0000,
        0 <= message_type < 0x1_0000_0000,
    ensures
        ({
            let h = header_bytes(payload_length, message_type);
            &&& h.len() == HEADER_LEN
            &&& h.subrange(0, 6) == ipc_magic()
            &&& from_le32(h.subrange(6, 10)) == payload_length
            &&& from_le32(h.subrange(10, 14)) == message_type
        }),
{
    let h = header_bytes(payload_length, message_type);
    le32_reads_back(payload_length);
    le32_reads_back(message_type);
    assert(h.subrange(0, 6) =~= ipc_magic());
    assert(h.subrange(6, 10) =~= le32(payload_length));
    assert(h.subrange(10, 14) =~= le32(message_type));
}

/// The payload of a reply, if it answers the request that was sent.
pub fn reply_payload(expected: u32, frame: Frame) -> (r: Result<Vec<u8>, Error>)
    ensures
        match r {
            Ok(payload) => frame.message_type == expected && payload == frame.payload,
            Err(e) => frame.message_type != expected && e == (Error::UnexpectedMessageType {
                expected,
                actual: frame.message_type,
            }),
        },
{
    if frame.message_type != expected {
        return Err(Error::UnexpectedMessageType { expected, actual: frame.message_type });
    }
    Ok(frame.payload)
}

/// The event type that a message type announces.
pub open spec fn announced(message_type: u32) -> Option<EventType> {
    if message_type == WORKSPACE_EVENT {
        Some(EventType::Workspace)
    } else if message_type == INPUT_EVENT {
        Some(EventType::Input)
    } else if message_type == MODE_EVENT {
        Some(EventType::Mode)
    } else {
        None
    }
}

/// Which kind of event a frame holds; none means that the frame is ignored
/// without looking at its payload.
pub fn event_type_of(message_type: u32) -> (r: Option<EventType>)
    ensures
        r == announced(message_type),
{
    if message_type == WORKSPACE_EVENT {
        Some(EventType::Workspace)
    } else if message_type == INPUT_EVENT {
        Some(EventType::Input)
    } else if message_type == MODE_EVENT {
        Some(EventType::Mode)
    } else {
        None
    }
}

/// What a payload of an event type is called.
pub open spec fn event_context(kind: EventType) -> Seq<char> {
    match kind {
        EventType::Workspace => "workspace event"@,
        EventType::Input => "input event"@,
        EventType::Mode => "mode event"@,
    }
}

/// The event of a frame, from its message type and what its payload decoded to.
/// A frame of another message type is passed over, whatever it holds.
pub fn decode_event(message_type: u32, decoded: Result<Event, String>) -> (r: Result<
    Option<Event>,
    Error,
>)
    requires
        announced(message_type) is Some && decoded is Ok ==> decoded->Ok_0.kind() == announced(
            message_type,
        )->0,
    ensures
        match announced(message_type) {
            None => r == Ok::<Option<Event>, Error>(None),
            Some(kind) => match decoded {
                Ok(event) => r == Ok::<Option<Event>, Error>(Some(event)),
                Err(complaint) => match r {
                    Err(Error::InvalidJson { context, source }) => context@ == event_context(kind)
                        && source == complaint,
                    _ => false,
                },
            },
        },
{
    let kind = match event_type_of(message_type) {
        None => {
            return Ok(None);
        },
        Some(kind) => kind,
    };
    match decoded {
        Ok(event) => Ok(Some(event)),
        Err(source) => {
            let context = match kind {
                EventType::Workspace => "workspace event",
                EventType::Input => "input event",
                EventType::Mode => "mode event",
            };
            Err(Error::InvalidJson { context, source })
        },
    }
}

/// One command's outcome in a reply.
#[derive(Debug)]
pub struct CommandOutcome {
    pub success: bool,
    pub parse_error: bool,
    pub error: Option<String>,
}

/// The reason that a failed outcome gives.
pub open spec fn failure_reason(outcome: CommandOutcome) -> Seq<char> {
    match outcome.error {
        Some(reason) => reason@,
        None => if outcome.parse_error {
            "command parse error"@
        } else {
            "command rejected"@
        },
    }
}

/// The reasons of the failed outcomes, in order.
pub open spec fn failure_reasons(outcomes: Seq<CommandOutcome>) -> Seq<Seq<char>>
    decreases outcomes.len(),
{
    if outcomes.len() == 0 {
        Seq::empty()
    } else {
        let before = failure_reasons(outcomes.drop_last());
        if outcomes.last().success {
            before
        } else {
            before.push(failure_reason(outcomes.last()))
        }
    }
}

/// A command succeeds when every outcome in the reply does.
pub fn command_result(outcomes: &Vec<CommandOutcome>) -> (r: Result<(), Error>)
    ensures
        match r {
            Ok(()) => failure_reasons(outcomes@).len() == 0,
            Err(Error::CommandRejected { reason }) => {
                &&& failure_reasons(outcomes@).len() > 0
                &&& reason@ == crate::text::joined(failure_reasons(outcomes@), "; "@)
            },
            Err(_) => false,
        },
{
    let mut failures: Vec<String> = Vec::new();
    let mut i: usize = 0;
    while i < outcomes.len()
        invariant
            i <= outcomes.len(),
            crate::text::texts(failures@) == failure_reasons(outcomes@.take(i as int)),
        decreases outcomes.len() - i,
    {
        assert(outcomes@.take(i + 1).drop_last() =~= outcomes@.take(i as int));
        let outcome = &outcomes[i];
        if !outcome.success {
            let reason = match &outcome.error {
                Some(reason) => reason.clone(),
                None => if outcome.parse_error {
                    "command parse error".to_owned()
                } else {
                    "command rejected".to_owned()
                },
            };
            let ghost before = failures@;
            failures.push(reason);
            assert(crate::text::texts(failures@) =~= crate::text::texts(before).push(
                failure_reason(*outcome),
            ));
        }
        i = i + 1;
    }
    assert(outcomes@.take(i as int) =~= outcomes@);
    if failures.len() == 0 {
        Ok(())
    } else {
        assert(crate::text::texts(failures@).len() == failures@.len());
        Err(Error::CommandRejected { reason: crate::text::join(&failures, "; ") })
    }
}

/// The wire names of the event types.
pub open spec fn wire_names(types: Seq<EventType>) -> Seq<Seq<char>> {
    Seq::new(types.len(), |i: int| types[i].name())
}

/// The payload that subscribes to the event types.
pub fn subscription_request(types: &Vec<EventType>) -> (r: Result<Vec<u8>, Error>)
    ensures
        r is Ok,
        r->Ok_0@ == vstd::utf8::encode_utf8(crate::json::json_text_array(wire_names(types@))),
{
    let mut names: Vec<String> = Vec::new();
    let mut i: usize = 0;
    while i < types.len()
        invariant
            i <= types.len(),
            names.len() == i,
            forall|k: int| 0 <= k < i ==> names@[k]@ == types@[k].name(),
        decreases types.len() - i,
    {
        names.push(types[i].wire_name().to_owned());
        i = i + 1;
    }
    assert(crate::text::texts(names@) =~= wire_names(types@));
    match json_of_texts(&names) {
        Ok(payload) => Ok(payload),
        Err(source) => Err(Error::InvalidJson { context: "subscription request", source }),
    }
}

/// The answer to a subscription.
pub fn subscription_result(success: bool, error: Option<String>) -> (r: Result<(), Error>)
    ensures
        match r {
            Ok(()) => success,
            Err(Error::SubscriptionRejected { reason }) => !success && reason@ == (match error {
                Some(text) => text@,
                None => "subscription rejected"@,
            }),
            Err(_) => false,
        },
{
    if success {
        return Ok(());
    }
    let reason = match error {
        Some(text) => text,
        None => "subscription rejected".to_owned(),
    };
    Err(Error::SubscriptionRejected { reason })
}

impl Error {
    /// The error in words.
    pub open spec fn text(self) -> Seq<char> {
        match self {
            Error::MissingSocket => "SWAYSOCK is not set"@,
            Error::Connect { path, source } => "failed to connect to Sway IPC socket "@ + path@
                + ": "@ + source@,
            Error::Io(source) => "Sway IPC I/O failed: "@ + source@,
            Error::InvalidMagic => "Sway IPC frame has invalid magic"@,
            Error::FrameTooLarge { length, max } => "Sway IPC frame is "@
                + crate::text::decimal_text(length as nat) + " bytes; the limit is "@
                + crate::text::decimal_text(max as nat),
            Error::UnexpectedMessageType { expected, actual } =>
                "Sway IPC replied with message type "@ + crate::text::decimal_text(actual as nat)
                    + ", expected "@ + crate::text::decimal_text(expected as nat),
            Error::InvalidJson { context, source } => "invalid "@ + context@
                + " JSON from Sway: "@ + source@,
            Error::CommandRejected { reason } => "Sway rejected command: "@ + reason@,
            Error::SubscriptionRejected { reason } => "Sway rejected event subscription: "@
                + reason@,
            Error::RequestTimeout { operation, millis } => "Sway IPC "@ + operation@
                + " timed out after "@ + crate::text::decimal_text(millis as nat) + " ms"@,
        }
    }

    /// The error in words.
    pub fn message(&self) -> (r: String)
        ensures
            r@ == self.text(),
    {
        let mut out = String::new();
        match self {
            Error::MissingSocket => {
                out.append("SWAYSOCK is not set");
                assert(out@ =~= self.text());
            },
            Error::Connect { path, source } => {
                out.append("failed to connect to Sway IPC socket ");
                out.append(path.as_str());
                out.append(": ");
                out.append(source.as_str());
                assert(out@ =~= self.text());
            },
            Error::Io(source) => {
                out.append("Sway IPC I/O failed: ");
                out.append(source.as_str());
                assert(out@ =~= self.text());
            },
            Error::InvalidMagic => {
                out.append("Sway IPC frame has invalid magic");
                assert(out@ =~= self.text());
            },
            Error::FrameTooLarge { length, max } => {
                out.append("Sway IPC frame is ");
                out.append(decimal(*length as u128).as_str());
                out.append(" bytes; the limit is ");
                out.append(decimal(*max as u128).as_str());
                assert(out@ =~= self.text());
            },
            Error::UnexpectedMessageType { expected, actual } => {
                out.append("Sway IPC replied with message type ");
                out.append(decimal(*actual as u128).as_str());
                out.append(", expected ");
                out.append(decimal(*expected as u128).as_str());
                assert(out@ =~= self.text());
            },
            Error::InvalidJson { context, source } => {
                out.append("invalid ");
                out.append(context);
                out.append(" JSON from Sway: ");
                out.append(source.as_str());
                assert(out@ =~= self.text());
            },
            Error::CommandRejected { reason } => {
                out.append("Sway rejected command: ");
                out.append(reason.as_str());
                assert(out@ =~= self.text());
            },
            Error::SubscriptionRejected { reason } => {
                out.append("Sway rejected event subscription: ");
                out.append(reason.as_str());
                assert(out@ =~= self.text());
            },
            Error::RequestTimeout { operation, millis } => {
                out.append("Sway IPC ");
                out.append(operation);
                out.append(" timed out after ");
                out.append(decimal(*millis as u128).as_str());
                out.append(" ms");
                assert(out@ =~= self.text());
            },
        }
        out
    }

    /// Every error but a rejected command leaves the request connection in an
    /// unknown state, so the connection is dropped and never used again.
    pub fn breaks_request_connection(&self) -> (r: bool)
        ensures
            r == !(self is CommandRejected),
    {
        !matches!(self, Error::CommandRejected { .. })
    }
}

/// Whether a connection survives a finished request. The failed request itself
/// is never sent again: it may have been accepted before its reply was lost.
pub fn keeps_connection<T>(result: &Result<T, Error>) -> (r: bool)
    ensures
        r == (match result {
            Ok(_) => true,
            Err(e) => e is CommandRejected,
        }),
{
    match result {
        Ok(_) => true,
        Err(e) => !e.breaks_request_connection(),
    }
}

/// The wait after one more failed attempt.
pub fn next_retry(current_millis: u64) -> (r: u64)
    ensures
        r == (if 2 * current_millis <= RECONNECT_MAX_MILLIS {
            2 * current_millis
        } else {
            RECONNECT_MAX_MILLIS as int
        }),
{
    if current_millis > RECONNECT_MAX_MILLIS / 2 {
        RECONNECT_MAX_MILLIS
    } else {
        current_millis * 2
    }
}

/// What happened to a subscription.
#[derive(Debug, Clone, Copy, PartialEq, Eq, Structural)]
pub enum SubscriptionEvent {
    /// An event was read and handed to the listeners.
    Delivered,
    /// A whole frame was read that holds no event for a listener, or whose
    /// payload did not decode.
    Ignored,
    /// Reading failed.
    Disconnected,
    /// The wait is over, and connecting and subscribing worked.
    Reconnected,
    /// The wait is over, and connecting or subscribing failed.
    ReconnectFailed,
}

/// What a subscription does next.
#[derive(Debug, Clone, Copy, PartialEq, Eq, Structural)]
pub enum SubscriptionAction {
    ReadEvent,
    WaitThenReconnect { millis: u64 },
}

/// A subscription: whether it is connected, and the wait before the next
/// attempt to connect.
#[derive(Debug, Clone, Copy, PartialEq, Eq, Structural)]
pub struct Subscription {
    pub connected: bool,
    pub retry_millis: u64,
    pub initial_millis: u64,
}

impl Subscription {
    pub fn start(connected: bool, initial_millis: u64) -> (r: Self)
        ensures
            r == (Subscription { connected, retry_millis: initial_millis, initial_millis }),
    {
        Subscription { connected, retry_millis: initial_millis, initial_millis }
    }

    /// The step after the present state.
    pub fn action(&self) -> (r: SubscriptionAction)
        ensures
            r == (if self.connected {
                SubscriptionAction::ReadEvent
            } else {
                SubscriptionAction::WaitThenReconnect { millis: self.retry_millis }
            }),
    {
        if self.connected {
            SubscriptionAction::ReadEvent
        } else {
            SubscriptionAction::WaitThenReconnect { millis: self.retry_millis }
        }
    }

    /// The state after an event.
    pub open spec fn after(self, event: SubscriptionEvent) -> Subscription {
        match event {
            SubscriptionEvent::Delivered => Subscription {
                retry_millis: self.initial_millis,
                ..self
            },
            SubscriptionEvent::Ignored => self,
            SubscriptionEvent::Disconnected => Subscription { connected: false, ..self },
            SubscriptionEvent::Reconnected => Subscription {
                connected: true,
                retry_millis: self.initial_millis,
                ..self
            },
            SubscriptionEvent::ReconnectFailed => Subscription {
                retry_millis: if 2 * self.retry_millis <= RECONNECT_MAX_MILLIS {
                    (2 * self.retry_millis) as u64
                } else {
                    RECONNECT_MAX_MILLIS
                },
                ..self
            },
        }
    }

    pub fn step(&mut self, event: SubscriptionEvent)
        ensures
            *final(self) == old(self).after(event),
    {
        match event {
            SubscriptionEvent::Delivered => {
                self.retry_millis = self.initial_millis;
            },
            SubscriptionEvent::Ignored => {},
            SubscriptionEvent::Disconnected => {
                self.connected = false;
            },
            SubscriptionEvent::Reconnected => {
                self.connected = true;
                self.retry_millis = self.initial_millis;
            },
            SubscriptionEvent::ReconnectFailed => {
                self.retry_millis = next_retry(self.retry_millis);
            },
        }
    }
}

/// The wait between attempts never exceeds the maximum, whatever happens, once
/// it started within it.
pub proof fn retry_stays_bounded(s: Subscription, event: SubscriptionEvent)
    requires
        s.retry_millis <= RECONNECT_MAX_MILLIS,
        s.initial_millis <= RECONNECT_MAX_MILLIS,
    ensures
        s.after(event).retry_millis <= RECONNECT_MAX_MILLIS,
        s.after(event).initial_millis == s.initial_millis,
{
}

/// A malformed or unsupported event neither drops the connection nor changes
/// the wait.
pub proof fn ignored_event_changes_nothing(s: Subscription)
    ensures
        s.after(SubscriptionEvent::Ignored) == s,
{
}

/// The socket of the compositor: the value of `SWAYSOCK`, or that of
/// `SCROLLSOCK` where the first is missing or empty.
pub fn sway_socket_path(scrollsock: Option<String>, swaysock: Option<String>) -> (r: Result<
    String,
    Error,
>)
    ensures
        match r {
            Ok(path) => {
                &&& path@.len() > 0
                &&& Some(path) == (if crate::compositor::is_set(swaysock) {
                    swaysock
                } else {
                    scrollsock
                })
            },
            Err(e) => {
                &&& e == Error::MissingSocket
                &&& !crate::compositor::is_set(swaysock)
                &&& !crate::compositor::is_set(scrollsock)
            },
        },
{
    if let Some(path) = swaysock {
        if !path.as_str().is_empty() {
            return Ok(path);
        }
    }
    if let Some(path) = scrollsock {
        if !path.as_str().is_empty() {
            return Ok(path);
        }
    }
    Err(Error::MissingSocket)
}

/// Whether a listener needs a new subscription: one that runs for its event
/// type is shared by every listener of that type.
pub fn needs_subscription(running: &[bool; 3], event_type: EventType) -> (r: bool)
    ensures
        r == !running@[(match event_type {
            EventType::Workspace => 0int,
            EventType::Input => 1int,
            EventType::Mode => 2int,
        })],
{
    !running[event_type.index()]
}

/// A frame begins with `i3-ipc`; the length of its payload follows, and then the
/// type of the message, each with its lowest byte first.
pub proof fn header_layout(payload_length: int, message_type: int)
    requires
        0 <= payload_length < 0x1_0000_0000,
        0 <= message_type < 0x1_0000_0000,
    ensures
        ({
            let h = header_bytes(payload_length, message_type);
            &&& h.len() == 14
            &&& h[0] == 'i' as u32 && h[1] == '3' as u32 && h[2] == '-' as u32 && h[3]
                == 'i' as u32 && h[4] == 'p' as u32 && h[5] == 'c' as u32
            &&& payload_length == h[6] + 0x100 * h[7] + 0x1_0000 * h[8] + 0x100_0000 * h[9]
            &&& message_type == h[10] + 0x100 * h[11] + 0x1_0000 * h[12] + 0x100_0000 * h[13]
        }),
{
    header_round_trips(payload_length, message_type);
    let h = header_bytes(payload_length, message_type);
    assert(h.subrange(6, 10)[0] == h[6] && h.subrange(6, 10)[1] == h[7] && h.subrange(6, 10)[2]
        == h[8] && h.subrange(6, 10)[3] == h[9]);
    assert(h.subrange(10, 14)[0] == h[10] && h.subrange(10, 14)[1] == h[11] && h.subrange(
        10,
        14,
    )[2] == h[12] && h.subrange(10, 14)[3] == h[13]);
}

/// Each kind of event has the number that the compositor sends it under, and no
/// other number announces one.
pub proof fn event_numbers(message_type: u32)
    ensures
        announced(message_type) == Some(EventType::Workspace) <==> message_type == 0x8000_0000,
        announced(message_type) == Some(EventType::Mode) <==> message_type == 0x8000_0002,
        announced(message_type) == Some(EventType::Input) <==> message_type == 0x8000_0015,
        announced(message_type) is None <==> message_type != 0x8000_0000 && message_type
            != 0x8000_0002 && message_type != 0x8000_0015,
{
}

/// A lost connection is waited for, and a new one ends the waiting. Each failure
/// to connect doubles the wait up to five seconds; an event or a new connection
/// brings it back to where it began.
pub proof fn waits_double_until_connected(s: Subscription)
    ensures
        s.after(SubscriptionEvent::Disconnected) == (Subscription {
            connected: false,
            retry_millis: s.retry_millis,
            initial_millis: s.initial_millis,
        }),
        s.after(SubscriptionEvent::Reconnected) == (Subscription {
            connected: true,
            retry_millis: s.initial_millis,
            initial_millis: s.initial_millis,
        }),
        s.after(SubscriptionEvent::Delivered) == (Subscription {
            connected: s.connected,
            retry_millis: s.initial_millis,
            initial_millis: s.initial_millis,
        }),
        s.after(SubscriptionEvent::ReconnectFailed).connected == s.connected,
        s.after(SubscriptionEvent::ReconnectFailed).initial_millis == s.initial_millis,
        s.retry_millis <= 2500 ==> s.after(
            SubscriptionEvent::ReconnectFailed,
        ).retry_millis == s.retry_millis + s.retry_millis,
        s.retry_millis > 2500 ==> s.after(
            SubscriptionEvent::ReconnectFailed,
        ).retry_millis == 5000,
{
}

/// A command is refused exactly if one of its parts is, and every part that is
/// refused is told, with its reason.
pub proof fn every_refusal_is_told(outcomes: Seq<CommandOutcome>)
    ensures
        failure_reasons(outcomes).len() == 0 <==> forall|i: int|
            0 <= i < outcomes.len() ==> (#[trigger] outcomes[i]).success,
        forall|i: int|
            0 <= i < outcomes.len() && !(#[trigger] outcomes[i]).success && outcomes[i].error
                is Some ==> failure_reasons(outcomes).contains(outcomes[i].error->0@),
        forall|i: int|
            0 <= i < outcomes.len() && !(#[trigger] outcomes[i]).success && outcomes[i].error
                is None && outcomes[i].parse_error ==> failure_reasons(outcomes).contains(
                "command parse error"@,
            ),
        forall|i: int|
            0 <= i < outcomes.len() && !(#[trigger] outcomes[i]).success && outcomes[i].error
                is None && !outcomes[i].parse_error ==> failure_reasons(outcomes).contains(
                "command rejected"@,
            ),
    decreases outcomes.len(),
{
    if outcomes.len() > 0 {
        let fewer = outcomes.drop_last();
        every_refusal_is_told(fewer);
        let before = failure_reasons(fewer);
        let all = failure_reasons(outcomes);
        let last = outcomes.last();
        assert(outcomes[outcomes.len() - 1] == last);
        assert forall|i: int| 0 <= i < fewer.len() implies #[trigger] outcomes[i] == fewer[i] by {}
        if !last.success {
            assert(all[before.len() as int] == failure_reason(last));
            assert(all.contains(failure_reason(last)));
            assert forall|reason: Seq<char>| #[trigger] before.contains(reason) implies all.contains(
                reason,
            ) by {
                let k = choose|k: int| 0 <= k < before.len() && before[k] == reason;
                assert(all[k] == reason);
            }
        } else {
            assert(all == before);
        }
        if all.len() == 0 {
            assert forall|i: int| 0 <= i < outcomes.len() implies (#[trigger] outcomes[i]).success by {
                if i < fewer.len() {
                    assert(fewer[i].success);
                }
            }
        }
        if forall|i: int| 0 <= i < outcomes.len() ==> (#[trigger] outcomes[i]).success {
            assert forall|i: int| 0 <= i < fewer.len() implies (#[trigger] fewer[i]).success by {
                assert(outcomes[i].success);
            }
        }
    }
}

/// The names under which the kinds of events are asked for, in order.
pub proof fn wire_names_in_order(types: Seq<EventType>, i: int)
    requires
        0 <= i < types.len(),
    ensures
        wire_names(types).len() == types.len(),
        types[i] is Workspace ==> wire_names(types)[i] == "workspace"@,
        types[i] is Input ==> wire_names(types)[i] == "input"@,
        types[i] is Mode ==> wire_names(types)[i] == "mode"@,
{
}

/// What is said of an event that cannot be read names its kind.
pub proof fn kinds_of_events_are_named()
    ensures
        event_context(EventType::Workspace) == "workspace event"@,
        event_context(EventType::Input) == "input event"@,
        event_context(EventType::Mode) == "mode event"@,
{
}

/// Refusals are told in the order of the commands.
pub proof fn refusals_in_order(outcomes: Seq<CommandOutcome>, outcome: CommandOutcome)
    ensures
        failure_reasons(Seq::empty()).len() == 0,
        outcome.success ==> failure_reasons(outcomes.push(outcome)) == failure_reasons(outcomes),
        !outcome.success ==> failure_reasons(outcomes.push(outcome)).drop_last()
            == failure_reasons(outcomes),
        !outcome.success && outcome.error is Some ==> failure_reasons(
            outcomes.push(outcome),
        ).last() == outcome.error->0@,
{
    assert(outcomes.push(outcome).drop_last() =~= outcomes);
    if !outcome.success {
        assert(failure_reasons(outcomes.push(outcome)).drop_last() =~= failure_reasons(outcomes));
    }
}

/// What is said of an error names what it is about: the socket, the sizes, the types of
/// messages, the reason.
pub proof fn errors_are_told_in_full(e: Error)
    ensures
        match e {
            Error::MissingSocket => e.text() == "SWAYSOCK is not set"@,
            Error::Connect { path, source } => e.text() ==
                "failed to connect to Sway IPC socket "@ + path@ + ": "@ + source@,
            Error::Io(source) => e.text() == "Sway IPC I/O failed: "@ + source@,
            Error::InvalidMagic => e.text() == "Sway IPC frame has invalid magic"@,
            Error::FrameTooLarge { length, max } => e.text() == "Sway IPC frame is "@
                + crate::text::decimal_text(length as nat) + " bytes; the limit is "@
                + crate::text::decimal_text(max as nat),
            Error::UnexpectedMessageType { expected, actual } => e.text() ==
                "Sway IPC replied with message type "@ + crate::text::decimal_text(actual as nat)
                + ", expected "@ + crate::text::decimal_text(expected as nat),
            Error::InvalidJson { context, source } => e.text() == "invalid "@ + context@
                + " JSON from Sway: "@ + source@,
            Error::CommandRejected { reason } => e.text() == "Sway rejected command: "@ + reason@,
            Error::SubscriptionRejected { reason } => e.text() ==
                "Sway rejected event subscription: "@ + reason@,
            Error::RequestTimeout { operation, millis } => e.text() == "Sway IPC "@ + operation@
                + " timed out after "@ + crate::text::decimal_text(millis as nat) + " ms"@,
        },
{
}

} // verus!
