//! Debug Adapter Protocol client logic: the messages a client exchanges with
//! a debug adapter, the lifecycle of a debug session and the guard that each
//! request passes, and the `Content-Length` framing of the wire protocol.
//!
//! The adapter process, its pipes and the waiting for replies belong to the
//! host program; it asks this module what a request is allowed to do, what
//! state follows, and how bytes are framed and unframed.

use vstd::prelude::*;
use vstd::utf8::encode_utf8;
use crate::fields::{is_whitespace, split_on, split_text, text3, texts, trim, trim_chars};
use crate::strmap::str_eq;
use crate::text::{chars_of, digit_char, nat_decimal, push_str, push_u64_decimal, string_of};

verus! {

// ---------------------------------------------------------------- messages

/// Arguments of the `initialize` request.
pub struct InitializeArgs {
    pub client_id: String,
    pub client_name: String,
    pub adapter_id: String,
    pub locale: String,
    pub lines_start_at1: bool,
    pub columns_start_at1: bool,
    /// Either "path" or "uri".
    pub path_format: String,
    pub supports_variable_type: bool,
    pub supports_run_in_terminal_request: bool,
}

impl Default for InitializeArgs {
    fn default() -> (r: Self)
        ensures
            r.client_id@ == "bitcode"@,
            r.client_name@ == "Bit Code"@,
            r.adapter_id@ == "bitcode"@,
            r.locale@ == "en-US"@,
            r.lines_start_at1,
            r.columns_start_at1,
            r.path_format@ == "path"@,
            r.supports_variable_type,
            !r.supports_run_in_terminal_request,
    {
        InitializeArgs {
            client_id: "bitcode".to_string(),
            client_name: "Bit Code".to_string(),
            adapter_id: "bitcode".to_string(),
            locale: "en-US".to_string(),
            lines_start_at1: true,
            columns_start_at1: true,
            path_format: "path".to_string(),
            supports_variable_type: true,
            supports_run_in_terminal_request: false,
        }
    }
}

/// Capabilities an adapter reports in its `initialize` response.
#[derive(Default)]
pub struct Capabilities {
    pub supports_configuration_done_request: Option<bool>,
    pub supports_function_breakpoints: Option<bool>,
    pub supports_conditional_breakpoints: Option<bool>,
    pub supports_evaluate_for_hovers: Option<bool>,
    pub supports_set_variable: Option<bool>,
    pub supports_restart_request: Option<bool>,
    pub supports_exception_info_request: Option<bool>,
    pub supports_value_formatting_options: Option<bool>,
    pub supports_terminate_request: Option<bool>,
}

/// A reference to a source file, by path or by reference number.
#[derive(Default)]
pub struct Source {
    pub name: Option<String>,
    pub path: Option<String>,
    pub source_reference: Option<u64>,
}

/// The last piece that names something: neither empty nor `.`.
pub open spec fn last_named(pieces: Seq<Seq<char>>) -> Option<Seq<char>>
    decreases pieces.len(),
{
    if pieces.len() == 0 {
        None
    } else if pieces.last().len() > 0 && pieces.last() != "."@ {
        Some(pieces.last())
    } else {
        last_named(pieces.drop_last())
    }
}

/// The final component of a `/`-separated path, as `Path::file_name` gives
/// it: none when the path has no named component or ends in `..`.
pub open spec fn file_name(path: Seq<char>) -> Option<Seq<char>> {
    match last_named(split_on(path, '/')) {
        Some(n) => if n == ".."@ {
            None
        } else {
            Some(n)
        },
        None => None,
    }
}

/// The text of an optional string.
pub open spec fn opt_text(o: Option<String>) -> Option<Seq<char>> {
    match o {
        Some(s) => Some(s@),
        None => None,
    }
}

/// True when a path piece names something: it is neither empty nor `.`.
fn names_something(p: &str) -> (r: bool)
    ensures
        r == (p@.len() > 0 && p@ != "."@),
{
    proof {
        reveal_strlit("");
        if p@.len() == 0 {
            assert(p@ =~= ""@);
        }
    }
    !(str_eq(p, "") || str_eq(p, "."))
}

impl Source {
    /// The source at `path`, named by the path's final component.
    pub fn from_path(path: String) -> (r: Self)
        ensures
            opt_text(r.name) == file_name(path@),
            opt_text(r.path) == Some(path@),
            r.source_reference is None,
    {
        let pieces = split_text(path.as_str(), '/');
        let mut k = pieces.len();
        proof {
            reveal_strlit("");
            assert(texts(pieces@).take(pieces@.len() as int) =~= texts(pieces@));
        }
        while k > 0 && !names_something(pieces[k - 1].as_str())
            invariant
                k <= pieces@.len(),
                texts(pieces@) == split_on(path@, '/'),
                last_named(texts(pieces@)) == last_named(texts(pieces@).take(k as int)),
            decreases k,
        {
            assert(texts(pieces@).take(k as int).drop_last() =~= texts(pieces@).take(k - 1));
            assert(texts(pieces@).take(k as int).last() == pieces@[k - 1]@);
            proof {
                reveal_strlit("");
            }
            k = k - 1;
        }
        let name = if k == 0 {
            assert(texts(pieces@).take(0) =~= Seq::<Seq<char>>::empty());
            None
        } else {
            assert(texts(pieces@).take(k as int).last() == pieces@[k - 1]@);
            proof {
                reveal_strlit("");
            }
            if str_eq(pieces[k - 1].as_str(), "..") {
                None
            } else {
                Some(pieces[k - 1].clone())
            }
        };
        assert(opt_text(name) == file_name(path@)) by {
            if k > 0 {
                assert(last_named(texts(pieces@).take(k as int)) == Some(pieces@[k - 1]@));
            }
        }
        Source { name, path: Some(path), source_reference: None }
    }
}

/// A breakpoint to set, described by its line and an optional condition.
pub struct SourceBreakpoint {
    pub line: u32,
    pub column: Option<u32>,
    pub condition: Option<String>,
    pub log_message: Option<String>,
}

impl SourceBreakpoint {
    /// A plain breakpoint on `line`, with no column, condition or log message.
    pub fn at_line(line: u32) -> (r: Self)
        ensures
            r.line == line,
            r.column is None,
            r.condition is None,
            r.log_message is None,
    {
        SourceBreakpoint { line, column: None, condition: None, log_message: None }
    }
}

/// A breakpoint as the adapter confirmed it.
#[derive(Default)]
pub struct Breakpoint {
    pub id: Option<u64>,
    pub verified: bool,
    pub message: Option<String>,
    pub source: Option<Source>,
    pub line: Option<u32>,
    pub column: Option<u32>,
}

/// One frame of a call stack.
pub struct StackFrame {
    pub id: u64,
    pub name: String,
    pub source: Option<Source>,
    pub line: u32,
    pub column: u32,
}

/// A variable, or a member of an object.
#[derive(Default)]
pub struct Variable {
    pub name: String,
    pub value: String,
    pub type_: Option<String>,
    /// Non-zero when the variable has children.
    pub variables_reference: u64,
    pub named_variables: Option<u64>,
    pub indexed_variables: Option<u64>,
}

/// A thread of the debuggee.
pub struct Thread {
    pub id: u64,
    pub name: String,
}

/// Body of the `stopped` event: execution paused.
#[derive(Default)]
pub struct StoppedEvent {
    /// "breakpoint", "step", "exception", "pause", "entry", ...
    pub reason: String,
    pub description: Option<String>,
    pub thread_id: Option<u64>,
    pub preserve_focus_hint: Option<bool>,
    pub all_threads_stopped: Option<bool>,
    pub hit_breakpoint_ids: Option<Vec<u64>>,
}

/// Body of the `exited` event.
pub struct ExitedEvent {
    pub exit_code: i32,
}

/// Body of the `output` event: text the debuggee wrote.
#[derive(Default)]
pub struct OutputEvent {
    /// "console", "stdout", "stderr" or "telemetry".
    pub category: Option<String>,
    pub output: String,
    pub source: Option<Source>,
    pub line: Option<u32>,
}

/// A JSON value, carried through unread.
#[verifier::external_type_specification]
#[verifier::external_body]
pub struct ExJsonValue(serde_json::Value);

/// A request envelope.
pub struct DapRequest {
    pub seq: u64,
    /// Always "request".
    pub msg_type: String,
    pub command: String,
    pub arguments: serde_json::Value,
}

/// A response envelope.
pub struct DapResponse {
    pub seq: u64,
    /// Always "response".
    pub msg_type: String,
    pub request_seq: u64,
    pub success: bool,
    pub command: String,
    pub message: Option<String>,
    pub body: serde_json::Value,
}

/// An event envelope.
pub struct DapEvent {
    pub seq: u64,
    /// Always "event".
    pub msg_type: String,
    pub event: String,
    pub body: serde_json::Value,
}

// ---------------------------------------------------------------- sessions

/// Identifies one debug session among those a host manages.
#[derive(Debug, Clone, Copy, PartialEq, Eq, Hash, Structural)]
pub struct SessionId(pub u64);

/// The displayed form of a session id.
pub open spec fn session_text(id: u64) -> Seq<char> {
    "session#"@ + nat_decimal(id as nat)
}

impl SessionId {
    /// The id as displayed: `session#` and the number.
    pub fn to_string(&self) -> (r: String)
        ensures
            r@ == session_text(self.0),
    {
        let mut s = String::new();
        push_str(&mut s, "session#");
        push_u64_decimal(&mut s, self.0);
        s
    }
}

/// What went wrong in the protocol layer.
#[derive(Debug)]
pub enum DapError {
    /// The JSON value could not be written out.
    Json(String),
    Protocol(String),
    RequestFailed { command: String, message: String },
    AdapterExited,
    Timeout,
    WrongState(String),
    SessionNotFound(SessionId),
}

/// The meaning of a [`DapError`].
pub enum DapFault {
    Json(Seq<char>),
    Protocol(Seq<char>),
    RequestFailed(Seq<char>, Seq<char>),
    AdapterExited,
    Timeout,
    WrongState(Seq<char>),
    SessionNotFound(u64),
}

impl View for DapError {
    type V = DapFault;

    open spec fn view(&self) -> DapFault {
        match self {
            DapError::Json(m) => DapFault::Json(m@),
            DapError::Protocol(m) => DapFault::Protocol(m@),
            DapError::RequestFailed { command, message } => DapFault::RequestFailed(command@, message@),
            DapError::AdapterExited => DapFault::AdapterExited,
            DapError::Timeout => DapFault::Timeout,
            DapError::WrongState(m) => DapFault::WrongState(m@),
            DapError::SessionNotFound(id) => DapFault::SessionNotFound(id.0),
        }
    }
}

/// The displayed text of a protocol-layer error.
pub open spec fn dap_fault_text(f: DapFault) -> Seq<char> {
    match f {
        DapFault::Json(m) => "json: "@ + m,
        DapFault::Protocol(m) => "protocol: "@ + m,
        DapFault::RequestFailed(c, m) => "request '"@ + c + "' failed: "@ + m,
        DapFault::AdapterExited => "adapter process exited unexpectedly"@,
        DapFault::Timeout => "timed out waiting for adapter response"@,
        DapFault::WrongState(m) => "session in wrong state for this operation: "@ + m,
        DapFault::SessionNotFound(id) => "session "@ + session_text(id) + " not found"@,
    }
}

impl DapError {
    /// The error as displayed to a user.
    pub fn message(&self) -> (r: String)
        ensures
            r@ == dap_fault_text(self@),
    {
        let mut s = String::new();
        match self {
            DapError::Json(m) => {
                push_str(&mut s, "json: ");
                push_str(&mut s, m.as_str());
            },
            DapError::Protocol(m) => {
                push_str(&mut s, "protocol: ");
                push_str(&mut s, m.as_str());
            },
            DapError::RequestFailed { command, message } => {
                push_str(&mut s, "request '");
                push_str(&mut s, command.as_str());
                push_str(&mut s, "' failed: ");
                push_str(&mut s, message.as_str());
            },
            DapError::AdapterExited => {
                push_str(&mut s, "adapter process exited unexpectedly");
            },
            DapError::Timeout => {
                push_str(&mut s, "timed out waiting for adapter response");
            },
            DapError::WrongState(m) => {
                push_str(&mut s, "session in wrong state for this operation: ");
                push_str(&mut s, m.as_str());
            },
            DapError::SessionNotFound(id) => {
                push_str(&mut s, "session ");
                let t = id.to_string();
                push_str(&mut s, t.as_str());
                push_str(&mut s, " not found");
            },
        }
        assert(s@ =~= dap_fault_text(self@));
        s
    }
}

/// Fails with `RequestFailed` when the adapter reports that `command` did
/// not succeed, carrying the adapter's message (empty when it gave none).
pub fn check_response(r: &DapResponse, command: &str) -> (res: Result<(), DapError>)
    ensures
        res is Ok <==> r.success,
        !r.success ==> res->Err_0@ == DapFault::RequestFailed(
            command@,
            match r.message {
                Some(m) => m@,
                None => Seq::<char>::empty(),
            },
        ),
{
    if r.success {
        Ok(())
    } else {
        let message = match &r.message {
            Some(m) => m.clone(),
            None => String::new(),
        };
        Err(DapError::RequestFailed { command: command.to_string(), message })
    }
}

/// The lifecycle state of a debug session.
#[derive(Debug)]
pub enum SessionState {
    /// No adapter message exchanged yet.
    Created,
    /// `initialize` sent; waiting for the capabilities.
    Initializing,
    /// Capabilities exchanged; ready to launch or attach.
    Ready,
    /// Launch or attach under way and `initialized` received: breakpoints
    /// are configured now.
    Configuring,
    /// The debuggee is executing.
    Running,
    /// Execution paused, for the reason given ("breakpoint", "step", ...).
    Stopped(String),
    /// The session has ended.
    Terminated,
}

/// The meaning of a [`SessionState`].
pub enum Phase {
    Created,
    Initializing,
    Ready,
    Configuring,
    Running,
    Stopped(Seq<char>),
    Terminated,
}

impl View for SessionState {
    type V = Phase;

    open spec fn view(&self) -> Phase {
        match self {
            SessionState::Created => Phase::Created,
            SessionState::Initializing => Phase::Initializing,
            SessionState::Ready => Phase::Ready,
            SessionState::Configuring => Phase::Configuring,
            SessionState::Running => Phase::Running,
            SessionState::Stopped(r) => Phase::Stopped(r@),
            SessionState::Terminated => Phase::Terminated,
        }
    }
}

impl PartialEq for SessionState {
    fn eq(&self, other: &Self) -> (r: bool) {
        match (self, other) {
            (SessionState::Created, SessionState::Created) => true,
            (SessionState::Initializing, SessionState::Initializing) => true,
            (SessionState::Ready, SessionState::Ready) => true,
            (SessionState::Configuring, SessionState::Configuring) => true,
            (SessionState::Running, SessionState::Running) => true,
            (SessionState::Stopped(a), SessionState::Stopped(b)) => str_eq(a.as_str(), b.as_str()),
            (SessionState::Terminated, SessionState::Terminated) => true,
            _ => false,
        }
    }
}

impl vstd::std_specs::cmp::PartialEqSpecImpl for SessionState {
    open spec fn obeys_eq_spec() -> bool {
        true
    }

    open spec fn eq_spec(&self, other: &SessionState) -> bool {
        self@ == other@
    }
}

/// The `Debug` rendering of a string: quoted, with escapes.
pub uninterp spec fn debug_quoted(s: Seq<char>) -> Seq<char>;

/// `<str as Debug>::fmt`: the string in double quotes with its special
/// characters escaped; the result depends on the characters alone.
#[verifier::external_body]
pub(crate) fn quoted(s: &str) -> (r: String)
    ensures
        r@ == debug_quoted(s@),
{
    format!("{:?}", s)
}

/// The `Debug` rendering of a state.
pub open spec fn phase_text(p: Phase) -> Seq<char> {
    match p {
        Phase::Created => "Created"@,
        Phase::Initializing => "Initializing"@,
        Phase::Ready => "Ready"@,
        Phase::Configuring => "Configuring"@,
        Phase::Running => "Running"@,
        Phase::Stopped(r) => "Stopped("@ + debug_quoted(r) + ")"@,
        Phase::Terminated => "Terminated"@,
    }
}

/// The `Debug` rendering of a list of states: `[A, B]`.
pub open spec fn phases_text(ps: Seq<Phase>) -> Seq<char> {
    "["@ + phases_joined(ps) + "]"@
}

/// The renderings of the states, separated by `, `.
pub open spec fn phases_joined(ps: Seq<Phase>) -> Seq<char>
    decreases ps.len(),
{
    if ps.len() == 0 {
        seq![]
    } else if ps.len() == 1 {
        phase_text(ps[0])
    } else {
        phases_joined(ps.drop_last()) + ", "@ + phase_text(ps.last())
    }
}

/// Two states match when they are equal, or both stopped for any reason.
pub open spec fn same_phase(a: Phase, b: Phase) -> bool {
    match (a, b) {
        (Phase::Stopped(_), Phase::Stopped(_)) => true,
        _ => a == b,
    }
}

/// The refusal of `op` in state `current` where state `expected` is needed.
pub open spec fn requires_state_text(op: Seq<char>, expected: Phase, current: Phase) -> Seq<char> {
    "'"@ + op + "' requires state "@ + phase_text(expected) + ", current: "@ + phase_text(current)
}

/// The refusal of `op` in state `current` where one of `allowed` is needed.
pub open spec fn requires_any_text(op: Seq<char>, allowed: Seq<Phase>, current: Phase) -> Seq<char> {
    "'"@ + op + "' requires one of "@ + phases_text(allowed) + ", current: "@ + phase_text(current)
}

/// The refusal of `op` in state `current` where a stopped session is needed.
pub open spec fn requires_stopped_text(op: Seq<char>, current: Phase) -> Seq<char> {
    "'"@ + op + "' requires Stopped, current: "@ + phase_text(current)
}

/// The views of a list of states.
pub open spec fn phases(v: Seq<SessionState>) -> Seq<Phase> {
    v.map_values(|s: SessionState| s@)
}

impl SessionState {
    /// A copy of this state.
    pub fn duplicate(&self) -> (r: SessionState)
        ensures
            r@ == self@,
    {
        match self {
            SessionState::Created => SessionState::Created,
            SessionState::Initializing => SessionState::Initializing,
            SessionState::Ready => SessionState::Ready,
            SessionState::Configuring => SessionState::Configuring,
            SessionState::Running => SessionState::Running,
            SessionState::Stopped(r) => SessionState::Stopped(r.clone()),
            SessionState::Terminated => SessionState::Terminated,
        }
    }

    /// The `Debug` rendering of this state.
    pub fn debug_text(&self) -> (r: String)
        ensures
            r@ == phase_text(self@),
    {
        let mut s = String::new();
        match self {
            SessionState::Created => push_str(&mut s, "Created"),
            SessionState::Initializing => push_str(&mut s, "Initializing"),
            SessionState::Ready => push_str(&mut s, "Ready"),
            SessionState::Configuring => push_str(&mut s, "Configuring"),
            SessionState::Running => push_str(&mut s, "Running"),
            SessionState::Stopped(r) => {
                push_str(&mut s, "Stopped(");
                let q = quoted(r.as_str());
                push_str(&mut s, q.as_str());
                push_str(&mut s, ")");
            },
            SessionState::Terminated => push_str(&mut s, "Terminated"),
        }
        assert(s@ =~= phase_text(self@));
        s
    }

    /// Accepts when this state matches `expected` (any stop reason matches
    /// any other), and refuses `op` with `WrongState` otherwise.
    pub fn require_state(&self, expected: &SessionState, op: &str) -> (r: Result<(), DapError>)
        ensures
            r is Ok <==> same_phase(self@, expected@),
            r is Err ==> r->Err_0@ == DapFault::WrongState(requires_state_text(op@, expected@, self@)),
    {
        let ok = match (self, expected) {
            (SessionState::Stopped(_), SessionState::Stopped(_)) => true,
            (a, b) => a == b,
        };
        if !ok {
            let mut m = String::new();
            push_str(&mut m, "'");
            push_str(&mut m, op);
            push_str(&mut m, "' requires state ");
            let e = expected.debug_text();
            push_str(&mut m, e.as_str());
            push_str(&mut m, ", current: ");
            let c = self.debug_text();
            push_str(&mut m, c.as_str());
            assert(m@ =~= requires_state_text(op@, expected@, self@));
            Err(DapError::WrongState(m))
        } else {
            Ok(())
        }
    }

    /// Accepts when this state matches one of `allowed`, and refuses `op`
    /// with `WrongState` otherwise.
    pub fn require_any(&self, allowed: &[SessionState], op: &str) -> (r: Result<(), DapError>)
        ensures
            r is Ok <==> exists|i: int| 0 <= i < allowed@.len() && same_phase(self@, #[trigger] allowed@[i]@),
            r is Err ==> r->Err_0@ == DapFault::WrongState(requires_any_text(op@, phases(allowed@), self@)),
    {
        let mut i: usize = 0;
        while i < allowed.len()
            invariant
                i <= allowed@.len(),
                forall|j: int| 0 <= j < i ==> !same_phase(self@, #[trigger] allowed@[j]@),
            decreases allowed@.len() - i,
        {
            let ok = match (self, &allowed[i]) {
                (SessionState::Stopped(_), SessionState::Stopped(_)) => true,
                (a, b) => a == b,
            };
            if ok {
                assert(same_phase(self@, allowed@[i as int]@));
                return Ok(());
            }
            i = i + 1;
        }
        let mut list = String::new();
        push_str(&mut list, "[");
        let mut k: usize = 0;
        while k < allowed.len()
            invariant
                k <= allowed@.len(),
                list@ == "["@ + phases_joined(phases(allowed@).take(k as int)),
            decreases allowed@.len() - k,
        {
            assert(phases(allowed@).take(k + 1).drop_last() =~= phases(allowed@).take(k as int));
            if k > 0 {
                push_str(&mut list, ", ");
            }
            let t = allowed[k].debug_text();
            push_str(&mut list, t.as_str());
            assert(list@ =~= "["@ + phases_joined(phases(allowed@).take(k + 1)));
            k = k + 1;
        }
        push_str(&mut list, "]");
        assert(phases(allowed@).take(allowed@.len() as int) =~= phases(allowed@));
        let mut m = String::new();
        push_str(&mut m, "'");
        push_str(&mut m, op);
        push_str(&mut m, "' requires one of ");
        push_str(&mut m, list.as_str());
        push_str(&mut m, ", current: ");
        let c = self.debug_text();
        push_str(&mut m, c.as_str());
        assert(m@ =~= requires_any_text(op@, phases(allowed@), self@));
        Err(DapError::WrongState(m))
    }

    /// Accepts a stopped session, and refuses `op` with `WrongState`
    /// otherwise.
    pub fn require_stopped(&self, op: &str) -> (r: Result<(), DapError>)
        ensures
            r is Ok <==> self@ is Stopped,
            r is Err ==> r->Err_0@ == DapFault::WrongState(requires_stopped_text(op@, self@)),
    {
        match self {
            SessionState::Stopped(_) => Ok(()),
            _ => {
                let mut m = String::new();
                push_str(&mut m, "'");
                push_str(&mut m, op);
                push_str(&mut m, "' requires Stopped, current: ");
                let c = self.debug_text();
                push_str(&mut m, c.as_str());
                assert(m@ =~= requires_stopped_text(op@, self@));
                Err(DapError::WrongState(m))
            },
        }
    }
}

/// A request whose sending is guarded by the session state.
#[derive(Debug, Clone, Copy, PartialEq, Eq, Structural)]
pub enum SessionRequest {
    Initialize,
    SetBreakpoints,
    ConfigurationDone,
    Launch,
    Attach,
    Continue,
    Next,
    StepIn,
    StepOut,
    Pause,
}

/// The protocol command that carries a request.
pub open spec fn command_of(r: SessionRequest) -> Seq<char> {
    match r {
        SessionRequest::Initialize => "initialize"@,
        SessionRequest::SetBreakpoints => "setBreakpoints"@,
        SessionRequest::ConfigurationDone => "configurationDone"@,
        SessionRequest::Launch => "launch"@,
        SessionRequest::Attach => "attach"@,
        SessionRequest::Continue => "continue"@,
        SessionRequest::Next => "next"@,
        SessionRequest::StepIn => "stepIn"@,
        SessionRequest::StepOut => "stepOut"@,
        SessionRequest::Pause => "pause"@,
    }
}

/// The states in which a request may be sent.
pub open spec fn allowed_in(s: Phase, r: SessionRequest) -> bool {
    match r {
        SessionRequest::Initialize => s == Phase::Created,
        SessionRequest::SetBreakpoints => s == Phase::Configuring || s == Phase::Running,
        SessionRequest::ConfigurationDone => s == Phase::Configuring,
        SessionRequest::Launch | SessionRequest::Attach => s == Phase::Ready,
        SessionRequest::Continue | SessionRequest::Next | SessionRequest::StepIn
        | SessionRequest::StepOut => s is Stopped,
        SessionRequest::Pause => s == Phase::Running,
    }
}

/// Why a request is refused in state `s`.
pub open spec fn refusal(s: Phase, r: SessionRequest) -> Seq<char> {
    let op = command_of(r);
    match r {
        SessionRequest::Initialize => requires_state_text(op, Phase::Created, s),
        SessionRequest::SetBreakpoints => requires_any_text(
            op,
            seq![Phase::Configuring, Phase::Running],
            s,
        ),
        SessionRequest::ConfigurationDone => requires_state_text(op, Phase::Configuring, s),
        SessionRequest::Launch | SessionRequest::Attach => requires_state_text(op, Phase::Ready, s),
        SessionRequest::Continue => requires_state_text(op, Phase::Stopped(seq![]), s),
        SessionRequest::Next | SessionRequest::StepIn | SessionRequest::StepOut =>
            requires_stopped_text(op, s),
        SessionRequest::Pause => requires_state_text(op, Phase::Running, s),
    }
}

/// The state while an admitted request awaits its reply.
pub open spec fn pending_phase(s: Phase, r: SessionRequest) -> Phase {
    match r {
        SessionRequest::Initialize => Phase::Initializing,
        _ => s,
    }
}

/// The state once the adapter has accepted an admitted request (for launch
/// and attach: once the adapter announced `initialized`).
pub open spec fn accepted_phase(s: Phase, r: SessionRequest) -> Phase {
    match r {
        SessionRequest::Initialize => Phase::Ready,
        SessionRequest::Launch | SessionRequest::Attach => Phase::Configuring,
        SessionRequest::ConfigurationDone | SessionRequest::Continue | SessionRequest::Next
        | SessionRequest::StepIn | SessionRequest::StepOut => Phase::Running,
        SessionRequest::SetBreakpoints | SessionRequest::Pause => s,
    }
}

/// The state once an admitted request failed: a launch or attach whose
/// adapter never announced `initialized` ends the session; any other
/// failure leaves the state the request was sent in.
pub open spec fn failed_phase(s: Phase, r: SessionRequest) -> Phase {
    match r {
        SessionRequest::Launch | SessionRequest::Attach => Phase::Terminated,
        _ => pending_phase(s, r),
    }
}

impl SessionRequest {
    /// The protocol command that carries this request.
    pub fn command(&self) -> (r: &'static str)
        ensures
            r@ == command_of(*self),
    {
        match self {
            SessionRequest::Initialize => "initialize",
            SessionRequest::SetBreakpoints => "setBreakpoints",
            SessionRequest::ConfigurationDone => "configurationDone",
            SessionRequest::Launch => "launch",
            SessionRequest::Attach => "attach",
            SessionRequest::Continue => "continue",
            SessionRequest::Next => "next",
            SessionRequest::StepIn => "stepIn",
            SessionRequest::StepOut => "stepOut",
            SessionRequest::Pause => "pause",
        }
    }
}

impl SessionState {
    /// The guard a request passes before it is sent: `Ok` with the state
    /// to hold while the reply is awaited, or the `WrongState` refusal.
    pub fn guard(&self, request: SessionRequest) -> (r: Result<SessionState, DapError>)
        ensures
            r is Ok <==> allowed_in(self@, request),
            r is Ok ==> r->Ok_0@ == pending_phase(self@, request),
            r is Err ==> r->Err_0@ == DapFault::WrongState(refusal(self@, request)),
    {
        let op = request.command();
        let checked = match request {
            SessionRequest::Initialize => self.require_state(&SessionState::Created, op),
            SessionRequest::SetBreakpoints => {
                let allowed = vec![SessionState::Configuring, SessionState::Running];
                let r = self.require_any(allowed.as_slice(), op);
                proof {
                    assert(phases(allowed@) =~= seq![Phase::Configuring, Phase::Running]);
                    if self@ == Phase::Configuring {
                        assert(same_phase(self@, allowed@[0]@));
                    }
                    if self@ == Phase::Running {
                        assert(same_phase(self@, allowed@[1]@));
                    }
                }
                r
            },
            SessionRequest::ConfigurationDone => self.require_state(&SessionState::Configuring, op),
            SessionRequest::Launch | SessionRequest::Attach => self.require_state(&SessionState::Ready, op),
            SessionRequest::Continue => {
                let stopped = SessionState::Stopped(String::new());
                self.require_state(&stopped, op)
            },
            SessionRequest::Next | SessionRequest::StepIn | SessionRequest::StepOut => self.require_stopped(op),
            SessionRequest::Pause => self.require_state(&SessionState::Running, op),
        };
        match checked {
            Ok(()) => match request {
                SessionRequest::Initialize => Ok(SessionState::Initializing),
                _ => Ok(self.duplicate()),
            },
            Err(e) => Err(e),
        }
    }

    /// The state once the adapter accepted `request`.
    pub fn accepted(&self, request: SessionRequest) -> (r: SessionState)
        ensures
            r@ == accepted_phase(self@, request),
    {
        match request {
            SessionRequest::Initialize => SessionState::Ready,
            SessionRequest::Launch | SessionRequest::Attach => SessionState::Configuring,
            SessionRequest::ConfigurationDone | SessionRequest::Continue | SessionRequest::Next
            | SessionRequest::StepIn | SessionRequest::StepOut => SessionState::Running,
            SessionRequest::SetBreakpoints | SessionRequest::Pause => self.duplicate(),
        }
    }

    /// The state once `request` failed after it was admitted.
    pub fn failed(&self, request: SessionRequest) -> (r: SessionState)
        ensures
            r@ == failed_phase(self@, request),
    {
        match request {
            SessionRequest::Launch | SessionRequest::Attach => SessionState::Terminated,
            SessionRequest::Initialize => SessionState::Initializing,
            _ => self.duplicate(),
        }
    }
}

/// Stepping or continuing is admitted from every stop, whatever its reason,
/// and leaves the debuggee running.
pub proof fn law_stepping_resumes_from_any_stop(reason: Seq<char>, request: SessionRequest)
    requires
        request == SessionRequest::Continue || request == SessionRequest::Next
            || request == SessionRequest::StepIn || request == SessionRequest::StepOut,
    ensures
        allowed_in(Phase::Stopped(reason), request),
        accepted_phase(Phase::Stopped(reason), request) == Phase::Running,
{
}

/// A terminated session refuses every request.
pub proof fn law_terminated_refuses_every_request(request: SessionRequest)
    ensures
        !allowed_in(Phase::Terminated, request),
{
}

/// The documented lifecycle: created, initialized, launched or attached,
/// configured, running, stopped for any reason, and running again; each
/// step is admitted in the state the previous one left.
pub proof fn law_documented_lifecycle(start: SessionRequest, reason: Seq<char>)
    requires
        start == SessionRequest::Launch || start == SessionRequest::Attach,
    ensures
        allowed_in(Phase::Created, SessionRequest::Initialize),
        accepted_phase(Phase::Created, SessionRequest::Initialize) == Phase::Ready,
        allowed_in(Phase::Ready, start),
        accepted_phase(Phase::Ready, start) == Phase::Configuring,
        allowed_in(Phase::Configuring, SessionRequest::SetBreakpoints),
        allowed_in(Phase::Configuring, SessionRequest::ConfigurationDone),
        accepted_phase(Phase::Configuring, SessionRequest::ConfigurationDone) == Phase::Running,
        allowed_in(Phase::Running, SessionRequest::Pause),
        allowed_in(Phase::Stopped(reason), SessionRequest::Continue),
        accepted_phase(Phase::Stopped(reason), SessionRequest::Continue) == Phase::Running,
{
}

// ---------------------------------------------------------------- framing

/// The header line that announces a body of `n` bytes, with its line end.
pub open spec fn length_line(n: nat) -> Seq<char> {
    "Content-Length: "@ + nat_decimal(n) + "\r\n"@
}

/// A complete frame: the length header, a blank line, then the body.
pub open spec fn frame_of(body: Seq<u8>) -> Seq<u8> {
    encode_utf8(length_line(body.len()) + "\r\n"@) + body
}

/// Frames a message body.
pub fn frame(body: &[u8]) -> (r: Vec<u8>)
    ensures
        r@ == frame_of(body@),
{
    let mut header = String::new();
    push_str(&mut header, "Content-Length: ");
    push_u64_decimal(&mut header, body.len() as u64);
    push_str(&mut header, "\r\n\r\n");
    proof {
        reveal_strlit("\r\n\r\n");
        reveal_strlit("\r\n");
        assert(header@ =~= length_line(body@.len()) + "\r\n"@);
    }
    let head = header.as_str().as_bytes();
    let mut out: Vec<u8> = Vec::new();
    let mut i: usize = 0;
    while i < head.len()
        invariant
            i <= head@.len(),
            out@ == head@.take(i as int),
        decreases head@.len() - i,
    {
        out.push(head[i]);
        i = i + 1;
        assert(out@ =~= head@.take(i as int));
    }
    let mut j: usize = 0;
    while j < body.len()
        invariant
            i == head@.len(),
            j <= body@.len(),
            out@ == head@ + body@.take(j as int),
        decreases body@.len() - j,
    {
        out.push(body[j]);
        j = j + 1;
        assert(out@ =~= head@ + body@.take(j as int));
    }
    assert(body@.take(body@.len() as int) =~= body@);
    out
}

/// The compact JSON text `serde_json::to_string` writes for a value.
pub uninterp spec fn value_text(v: serde_json::Value) -> Seq<char>;

/// `serde_json::to_string` on a JSON value: its compact JSON text. Writing
/// a `Value` cannot fail (its map keys are strings and it writes to memory),
/// so the result is always `Ok`; the error arm only converts the type.
///
/// Claimed of the outside code: the text depends on the value alone (named
/// `value_text`).
#[verifier::external_body]
fn json_text(value: &serde_json::Value) -> (r: Result<String, String>)
    ensures
        r is Ok,
        r->Ok_0@ == value_text(*value),
{
    match serde_json::to_string(value) {
        Ok(t) => Ok(t),
        Err(e) => Err(e.to_string()),
    }
}

/// Encodes a JSON value as one complete frame.
pub fn encode(value: &serde_json::Value) -> (r: Result<Vec<u8>, DapError>)
    ensures
        r is Ok,
        r->Ok_0@ == frame_of(encode_utf8(value_text(*value))),
{
    match json_text(value) {
        Ok(t) => {
            let f = frame(t.as_str().as_bytes());
            assert(f@ == frame_of(encode_utf8(t@)));
            Ok(f)
        },
        Err(m) => Err(DapError::Json(m)),
    }
}

/// `s` without its trailing run of `\r` and `\n`.
pub open spec fn strip_line_end(s: Seq<char>) -> Seq<char>
    decreases s.len(),
{
    if s.len() > 0 && (s.last() == '\r' || s.last() == '\n') {
        strip_line_end(s.drop_last())
    } else {
        s
    }
}

/// An ASCII decimal digit.
pub open spec fn is_digit_char(c: char) -> bool {
    '0' <= c && c <= '9'
}

/// The number written by decimal digits.
pub open spec fn decimal_value(s: Seq<char>) -> nat
    decreases s.len(),
{
    if s.len() == 0 {
        0
    } else {
        decimal_value(s.drop_last()) * 10 + ((s.last() as int) - ('0' as int)) as nat
    }
}

/// The digits of an unsigned number: the text without one leading `+`.
pub open spec fn unsigned_digits(s: Seq<char>) -> Seq<char> {
    if s.len() > 0 && s[0] == '+' {
        s.drop_first()
    } else {
        s
    }
}

/// What `str::parse::<usize>` gives: the value of a nonempty run of
/// decimal digits, after an optional `+`, when it fits.
pub open spec fn parse_usize(s: Seq<char>) -> Option<usize> {
    let d = unsigned_digits(s);
    if d.len() > 0 && (forall|i: int| 0 <= i < d.len() ==> is_digit_char(#[trigger] d[i]))
        && decimal_value(d) <= usize::MAX {
        Some(decimal_value(d) as usize)
    } else {
        None
    }
}

/// The value of a longer run of digits is never smaller.
proof fn lemma_decimal_value_grows(s: Seq<char>, k: int)
    requires
        0 <= k <= s.len(),
        forall|i: int| 0 <= i < s.len() ==> is_digit_char(#[trigger] s[i]),
    ensures
        decimal_value(s.take(k)) <= decimal_value(s),
    decreases s.len(),
{
    if k < s.len() {
        assert(s.drop_last().take(k) =~= s.take(k));
        lemma_decimal_value_grows(s.drop_last(), k);
    } else {
        assert(s.take(k) =~= s);
    }
}

/// Parses an unsigned decimal number as `str::parse::<usize>` does.
pub fn parse_usize_text(s: &str) -> (r: Option<usize>)
    ensures
        r == parse_usize(s@),
{
    let cs = chars_of(s);
    let n = cs.len();
    let start: usize = if n > 0 && cs[0] == '+' { 1 } else { 0 };
    let ghost d = unsigned_digits(s@);
    assert(d =~= cs@.subrange(start as int, n as int));
    if start == n {
        return None;
    }
    let mut acc: usize = 0;
    let mut i: usize = start;
    while i < n
        invariant
            n == cs@.len(),
            cs@ == s@,
            d == cs@.subrange(start as int, n as int),
            d == unsigned_digits(s@),
            start <= i <= n,
            forall|j: int| 0 <= j < i - start ==> is_digit_char(#[trigger] d[j]),
            acc == decimal_value(d.take(i - start)),
        decreases n - i,
    {
        let c = cs[i];
        if !('0' <= c && c <= '9') {
            assert(!is_digit_char(d[i - start]));
            return None;
        }
        let dv = ((c as u32) - ('0' as u32)) as usize;
        assert(d.take(i - start + 1).drop_last() =~= d.take(i - start));
        assert(d.take(i - start + 1).last() == c);
        match acc.checked_mul(10) {
            None => {
                proof {
                    if forall|j: int| 0 <= j < d.len() ==> is_digit_char(#[trigger] d[j]) {
                        lemma_decimal_value_grows(d, i - start + 1);
                    }
                }
                return None;
            },
            Some(m) => match m.checked_add(dv) {
                None => {
                    proof {
                        if forall|j: int| 0 <= j < d.len() ==> is_digit_char(#[trigger] d[j]) {
                            lemma_decimal_value_grows(d, i - start + 1);
                        }
                    }
                    return None;
                },
                Some(v) => {
                    acc = v;
                },
            },
        }
        i = i + 1;
    }
    assert(d.take(n - start) =~= d);
    Some(acc)
}

/// What one header line does to the announced body length: the blank line
/// ends the headers; a `Content-Length: ` line sets the length, or is
/// refused when its value is no number; any other header is skipped.
pub open spec fn header_step(length: Option<usize>, line: Seq<char>) -> Result<(Option<usize>, bool), Seq<char>> {
    let t = strip_line_end(line);
    if t.len() == 0 {
        Ok((length, true))
    } else if "Content-Length: "@.is_prefix_of(t) {
        let rest = t.skip(16);
        match parse_usize(trim(rest)) {
            Some(n) => Ok((Some(n), false)),
            None => Err("invalid Content-Length: '"@ + rest + "'"@),
        }
    } else {
        Ok((length, false))
    }
}

/// The headers of a frame read so far.
pub struct FrameHeaders {
    pub content_length: Option<usize>,
}

impl FrameHeaders {
    /// Nothing read yet.
    pub fn new() -> (r: Self)
        ensures
            r.content_length is None,
    {
        FrameHeaders { content_length: None }
    }

    /// Takes one header line as read, line end included: `Ok(true)` at the
    /// blank line that ends the headers, `Ok(false)` before it, or the
    /// protocol error of a malformed length.
    #[verifier::loop_isolation(false)]
    pub fn take_line(&mut self, line: &str) -> (r: Result<bool, DapError>)
        ensures
            match header_step(old(self).content_length, line@) {
                Ok((length, done)) => r == Ok::<bool, DapError>(done) && final(self).content_length == length,
                Err(m) => r is Err && r->Err_0@ == DapFault::Protocol(m)
                    && final(self).content_length == old(self).content_length,
            },
    {
        let cs = chars_of(line);
        let mut end = cs.len();
        assert(cs@.take(end as int) =~= cs@);
        while end > 0 && (cs[end - 1] == '\r' || cs[end - 1] == '\n')
            invariant
                end <= cs@.len(),
                cs@ == line@,
                strip_line_end(line@) == strip_line_end(cs@.take(end as int)),
            decreases end,
        {
            assert(cs@.take(end as int).drop_last() =~= cs@.take(end - 1));
            end = end - 1;
        }
        let ghost t = cs@.take(end as int);
        assert(strip_line_end(t) == t);
        if end == 0 {
            return Ok(true);
        }
        let prefix = chars_of("Content-Length: ");
        proof {
            reveal_strlit("Content-Length: ");
        }
        if end < prefix.len() {
            return Ok(false);
        }
        let mut k: usize = 0;
        while k < prefix.len()
            invariant
                prefix@ == "Content-Length: "@,
                t == cs@.take(end as int),
                prefix@.len() <= end <= cs@.len(),
                k <= prefix@.len(),
                forall|j: int| 0 <= j < k ==> cs@[j] == prefix@[j],
            decreases prefix@.len() - k,
        {
            if cs[k] != prefix[k] {
                assert(!"Content-Length: "@.is_prefix_of(t)) by {
                    assert(t[k as int] != "Content-Length: "@[k as int]);
                }
                return Ok(false);
            }
            k = k + 1;
        }
        assert("Content-Length: "@.is_prefix_of(t)) by {
            assert(t.subrange(0, 16) =~= "Content-Length: "@);
        }
        let mut rest: Vec<char> = Vec::new();
        let mut q: usize = prefix.len();
        while q < end
            invariant
                prefix@.len() == 16,
                16 <= q <= end <= cs@.len(),
                rest@ == cs@.subrange(16, q as int),
            decreases end - q,
        {
            rest.push(cs[q]);
            q = q + 1;
            assert(rest@ =~= cs@.subrange(16, q as int));
        }
        assert(rest@ =~= t.skip(16));
        let trimmed = trim_chars(&rest);
        match parse_usize_text(trimmed.as_str()) {
            Some(n) => {
                self.content_length = Some(n);
                Ok(false)
            },
            None => {
                let raw = string_of(rest.as_slice());
                let m = text3("invalid Content-Length: '", raw.as_str(), "'");
                Err(DapError::Protocol(m))
            },
        }
    }

    /// The announced body length, or the protocol error of a frame that
    /// announced none.
    pub fn body_length(&self) -> (r: Result<usize, DapError>)
        ensures
            match self.content_length {
                Some(n) => r == Ok::<usize, DapError>(n),
                None => r is Err && r->Err_0@ == DapFault::Protocol("message missing Content-Length header"@),
            },
    {
        match self.content_length {
            Some(n) => Ok(n),
            None => Err(DapError::Protocol("message missing Content-Length header".to_string())),
        }
    }
}

/// The decimal rendering of a number is a nonempty run of digits whose
/// value is the number.
proof fn lemma_decimal_reads_back(n: nat)
    ensures
        nat_decimal(n).len() > 0,
        forall|i: int| 0 <= i < nat_decimal(n).len() ==> is_digit_char(#[trigger] nat_decimal(n)[i]),
        decimal_value(nat_decimal(n)) == n,
    decreases n,
{
    let d = (n % 10) as int;
    assert(is_digit_char(digit_char(d)) && (digit_char(d) as int) - ('0' as int) == d) by {
        assert(0 <= d < 10);
    }
    if n < 10 {
        assert(nat_decimal(n).drop_last() =~= Seq::<char>::empty());
        assert(decimal_value(Seq::<char>::empty()) == 0);
        assert(n % 10 == n);
        assert(nat_decimal(n).last() == digit_char(d));
    } else {
        lemma_decimal_reads_back(n / 10);
        let s = nat_decimal(n);
        assert(s.drop_last() =~= nat_decimal(n / 10));
        assert(s.last() == digit_char(d));
        assert((n / 10) * 10 + n % 10 == n) by (nonlinear_arith);
        assert(decimal_value(s) == decimal_value(s.drop_last()) * 10 + ((s.last() as int) - ('0' as int)) as nat);
        assert forall|i: int| 0 <= i < s.len() implies is_digit_char(#[trigger] s[i]) by {
            if i < s.len() - 1 {
                assert(s[i] == nat_decimal(n / 10)[i]);
            }
        }
    }
}

/// A run of digits has no whitespace to trim.
proof fn lemma_trim_digits(s: Seq<char>)
    requires
        s.len() > 0,
        forall|i: int| 0 <= i < s.len() ==> is_digit_char(#[trigger] s[i]),
    ensures
        trim(s) == s,
{
    assert(is_digit_char(s[0]) && is_digit_char(s[s.len() - 1]));
    assert(!is_whitespace(s.last()));
    assert(!is_whitespace(s[0]));
}

/// Reading back the headers of a frame: the length line of a body of `n`
/// bytes announces `n`, whatever was announced before, and the blank line
/// after it ends the headers with that length.
pub proof fn law_frame_headers_read_back(body: Seq<u8>, earlier: Option<usize>)
    requires
        body.len() <= usize::MAX,
    ensures
        header_step(earlier, length_line(body.len())) == Ok::<(Option<usize>, bool), Seq<char>>(
            (Some(body.len() as usize), false),
        ),
        header_step(Some(body.len() as usize), "\r\n"@) == Ok::<(Option<usize>, bool), Seq<char>>(
            (Some(body.len() as usize), true),
        ),
        frame_of(body) == encode_utf8(length_line(body.len()) + "\r\n"@) + body,
{
    let n = body.len();
    let digits = nat_decimal(n);
    lemma_decimal_reads_back(n);
    reveal_strlit("\r\n");
    reveal_strlit("Content-Length: ");
    let line = length_line(n);
    let t = "Content-Length: "@ + digits;
    assert(line.drop_last() =~= t + seq!['\r']);
    assert((t + seq!['\r']).drop_last() =~= t);
    assert(t.last() == digits.last());
    assert(is_digit_char(digits[digits.len() - 1]));
    assert(strip_line_end(t) == t);
    assert(strip_line_end(t + seq!['\r']) == t);
    assert(strip_line_end(line) == t);
    assert(t.subrange(0, 16) =~= "Content-Length: "@);
    assert(t.skip(16) =~= digits);
    lemma_trim_digits(digits);
    assert(is_digit_char(digits[0]));
    assert(unsigned_digits(digits) == digits);
    let crlf = "\r\n"@;
    assert(crlf.drop_last() =~= seq!['\r']);
    assert(seq!['\r'].drop_last() =~= Seq::<char>::empty());
    assert(strip_line_end(Seq::<char>::empty()) == Seq::<char>::empty());
    assert(strip_line_end(seq!['\r']) == Seq::<char>::empty());
    assert(strip_line_end(crlf) == Seq::<char>::empty());
}

} // verus!
