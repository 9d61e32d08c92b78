//! View- and transport-independent domain logic: error codes, the screen and phase
//! state, the command allow-list and the at-most-once command service.
use vstd::prelude::*;
use std::collections::BTreeMap;
use crate::strmap::{StrMap, ascending, keys_of, map_of};
use crate::text::{blank, is_blank, seq_lt};

verus! {

/// Protocol error codes.
#[derive(Debug, Clone, Copy, PartialEq, Eq)]
pub enum ErrorCode {
    InvalidToken,
    MalformedMessage,
    CommandNotAllowed,
    RevisionConflict,
    AdapterFailure,
    InternalError,
}

/// The wire name of an error code.
pub open spec fn error_code_text(c: ErrorCode) -> Seq<char> {
    match c {
        ErrorCode::InvalidToken => "INVALID_TOKEN"@,
        ErrorCode::MalformedMessage => "MALFORMED_MESSAGE"@,
        ErrorCode::CommandNotAllowed => "COMMAND_NOT_ALLOWED"@,
        ErrorCode::RevisionConflict => "REVISION_CONFLICT"@,
        ErrorCode::AdapterFailure => "ADAPTER_FAILURE"@,
        ErrorCode::InternalError => "INTERNAL_ERROR"@,
    }
}

impl ErrorCode {
    /// The wire name of this code.
    pub fn as_str(self) -> (r: &'static str)
        ensures
            r@ == error_code_text(self),
    {
        match self {
            ErrorCode::InvalidToken => "INVALID_TOKEN",
            ErrorCode::MalformedMessage => "MALFORMED_MESSAGE",
            ErrorCode::CommandNotAllowed => "COMMAND_NOT_ALLOWED",
            ErrorCode::RevisionConflict => "REVISION_CONFLICT",
            ErrorCode::AdapterFailure => "ADAPTER_FAILURE",
            ErrorCode::InternalError => "INTERNAL_ERROR",
        }
    }
}

/// Which screen is shown.
#[derive(Debug, Clone, Copy, PartialEq, Eq)]
pub enum ScreenState {
    Idle,
    Editor,
}

impl ScreenState {
    /// The wire name of this screen state.
    pub fn as_str(self) -> (r: &'static str)
        ensures
            r@ == (match self {
                ScreenState::Idle => "idle"@,
                ScreenState::Editor => "editor"@,
            }),
    {
        match self {
            ScreenState::Idle => "idle",
            ScreenState::Editor => "editor",
        }
    }
}

/// Whether the edited document has unsaved changes.
#[derive(Debug, Clone, Copy, PartialEq, Eq)]
pub enum PhaseState {
    Editing,
    Saved,
}

impl PhaseState {
    /// The wire name of this phase state.
    pub fn as_str(self) -> (r: &'static str)
        ensures
            r@ == (match self {
                PhaseState::Editing => "editing"@,
                PhaseState::Saved => "saved"@,
            }),
    {
        match self {
            PhaseState::Editing => "editing",
            PhaseState::Saved => "saved",
        }
    }
}

/// Both state dimensions at one moment. The dimensions are separate: neither setter
/// reads or changes the other one.
#[derive(Debug, Clone, Copy, PartialEq, Eq)]
pub struct StateSnapshot {
    pub screen_state: ScreenState,
    pub phase_state: PhaseState,
}

/// The screen state and the phase state.
#[derive(Debug, Clone, Copy, PartialEq, Eq)]
pub struct HubState {
    screen_state: ScreenState,
    phase_state: PhaseState,
}

impl View for HubState {
    type V = StateSnapshot;

    closed spec fn view(&self) -> StateSnapshot {
        StateSnapshot { screen_state: self.screen_state, phase_state: self.phase_state }
    }
}

impl Default for HubState {
    /// The idle screen, editing.
    fn default() -> (r: Self)
        ensures
            r@ == (StateSnapshot { screen_state: ScreenState::Idle, phase_state: PhaseState::Editing }),
    {
        HubState { screen_state: ScreenState::Idle, phase_state: PhaseState::Editing }
    }
}

impl HubState {
    /// A state showing `screen_state` in phase `phase_state`.
    pub fn new(screen_state: ScreenState, phase_state: PhaseState) -> (r: Self)
        ensures
            r@ == (StateSnapshot { screen_state, phase_state }),
    {
        HubState { screen_state, phase_state }
    }

    /// Both dimensions at this moment.
    pub fn snapshot(&self) -> (r: StateSnapshot)
        ensures
            r == self@,
    {
        StateSnapshot { screen_state: self.screen_state, phase_state: self.phase_state }
    }

    /// Sets the screen state; the phase state stays as it is.
    pub fn set_screen_state(&mut self, state: ScreenState)
        ensures
            final(self)@ == (StateSnapshot { screen_state: state, ..old(self)@ }),
    {
        self.screen_state = state;
    }

    /// Sets the phase state; the screen state stays as it is.
    pub fn set_phase_state(&mut self, state: PhaseState)
        ensures
            final(self)@ == (StateSnapshot { phase_state: state, ..old(self)@ }),
    {
        self.phase_state = state;
    }
}

// ---------------------------------------------------------------------------
// Command allow-list
// ---------------------------------------------------------------------------

/// The command ids that may run. Ids are opaque: they are never read as shell
/// commands or key strings.
pub struct CommandRegistry {
    allowed: StrMap<()>,
}

/// The characters of each string of `v`.
pub open spec fn id_set(v: Seq<String>) -> Set<Seq<char>> {
    Set::new(|k: Seq<char>| exists|i: int| 0 <= i < v.len() && (#[trigger] v[i])@ == k)
}

impl View for CommandRegistry {
    type V = Set<Seq<char>>;

    closed spec fn view(&self) -> Set<Seq<char>> {
        self.allowed@.dom()
    }
}

impl CommandRegistry {
    /// The registry stays ordered.
    pub closed spec fn wf(&self) -> bool {
        self.allowed.wf()
    }

    fn build(command_ids: Vec<String>) -> (r: StrMap<()>)
        ensures
            r.wf(),
            r@.dom() == id_set(command_ids@),
    {
        let mut m: StrMap<()> = StrMap::new();
        let ghost ids = command_ids@;
        let mut rest = command_ids;
        let mut taken: usize = 0;
        let n = rest.len();
        let mut i: usize = 0;
        while i < n
            invariant
                n == ids.len(),
                rest@ == ids,
                i <= n,
                m.wf(),
                m@.dom() == id_set(ids.take(i as int)),
            decreases n - i,
        {
            let id = rest[i].clone();
            m.insert(id, ());
            proof {
                assert(id_set(ids.take(i + 1)) =~= id_set(ids.take(i as int)).insert(ids[i as int]@)) by {
                    assert forall|k: Seq<char>| #[trigger] id_set(ids.take(i + 1)).contains(k) <==> id_set(ids.take(i as int)).insert(ids[i as int]@).contains(k) by {
                        if id_set(ids.take(i + 1)).contains(k) {
                            let j = choose|j: int| 0 <= j < i + 1 && (#[trigger] ids.take(i + 1)[j])@ == k;
                            if j < i {
                                assert(ids.take(i as int)[j] == ids[j]);
                            }
                        }
                        if id_set(ids.take(i as int)).contains(k) {
                            let j = choose|j: int| 0 <= j < i && (#[trigger] ids.take(i as int)[j])@ == k;
                            assert(ids.take(i + 1)[j] == ids[j]);
                        }
                        if k == ids[i as int]@ {
                            assert(ids.take(i + 1)[i as int] == ids[i as int]);
                        }
                    }
                }
            }
            i = i + 1;
        }
        assert(ids.take(n as int) =~= ids);
        m
    }

    /// A registry allowing exactly `command_ids`.
    pub fn new(command_ids: Vec<String>) -> (r: Self)
        ensures
            r.wf(),
            r@ == id_set(command_ids@),
    {
        CommandRegistry { allowed: Self::build(command_ids) }
    }

    /// Whether `command_id` may run.
    pub fn is_allowed(&self, command_id: &str) -> (r: bool)
        requires
            self.wf(),
        ensures
            r == self@.contains(command_id@),
    {
        self.allowed.contains_key(command_id)
    }

    /// The allowed ids in ascending order, each once.
    pub fn allowed_command_ids(&self) -> (r: Vec<String>)
        requires
            self.wf(),
        ensures
            forall|i: int, j: int| 0 <= i < j < r@.len() ==> seq_lt((#[trigger] r@[i])@, (#[trigger] r@[j])@),
            id_set(r@) == self@,
    {
        let n = self.allowed.len();
        let mut r: Vec<String> = Vec::new();
        proof {
            self.allowed.lemma_keys();
        }
        for i in 0..n
            invariant
                n == self.allowed.entries().len(),
                self.allowed.wf(),
                r@.len() == i,
                forall|j: int| 0 <= j < i ==> (#[trigger] r@[j])@ == self.allowed.entries()[j].0@,
        {
            r.push(self.allowed.key_at(i).clone());
        }
        proof {
            let e = self.allowed.entries();
            assert forall|i: int, j: int| 0 <= i < j < r@.len() implies seq_lt((#[trigger] r@[i])@, (#[trigger] r@[j])@) by {
                assert(seq_lt(e[i].0@, e[j].0@));
            }
            assert(id_set(r@) =~= self@) by {
                assert forall|k: Seq<char>| #[trigger] id_set(r@).contains(k) <==> self@.contains(k) by {
                    if id_set(r@).contains(k) {
                        let j = choose|j: int| 0 <= j < r@.len() && (#[trigger] r@[j])@ == k;
                        assert(self.allowed.keys()[j] == k);
                    }
                    if self@.contains(k) {
                        assert(self.allowed.keys().contains(k));
                        let j = choose|j: int| 0 <= j < self.allowed.keys().len() && self.allowed.keys()[j] == k;
                        assert(r@[j]@ == k);
                    }
                }
            }
        }
        r
    }

    /// Allows exactly `command_ids` from now on.
    pub fn replace(&mut self, command_ids: Vec<String>)
        ensures
            final(self).wf(),
            final(self)@ == id_set(command_ids@),
    {
        self.allowed = Self::build(command_ids);
    }
}

// ---------------------------------------------------------------------------
// Command service
// ---------------------------------------------------------------------------

/// A request to run command `command_id`, identified by `request_id`.
#[derive(Debug, Clone, PartialEq, Eq)]
pub struct CommandInvocation {
    pub request_id: String,
    pub command_id: String,
    pub args: BTreeMap<String, String>,
}

impl CommandInvocation {
    /// A request without arguments.
    pub fn new(request_id: &str, command_id: &str) -> (r: Self)
        ensures
            r.request_id@ == request_id@,
            r.command_id@ == command_id@,
            r.args@ == Map::<String, String>::empty(),
    {
        CommandInvocation {
            request_id: request_id.to_owned(),
            command_id: command_id.to_owned(),
            args: BTreeMap::new(),
        }
    }
}

/// The boundary that adapters implement: runs an allowed, first-seen invocation.
/// Each implementation says, through `answers`, which answers and which next states
/// one run may give.
pub trait CommandExecutor {
    /// One run of `invocation`, starting from this executor, may answer `answer` and
    /// leave the executor as `after`. An implementation that does not say allows any
    /// answer and any next state.
    open spec fn answers(&self, invocation: CommandInvocation, answer: Result<String, HubError>, after: &Self) -> bool {
        true
    }

    /// Runs `invocation` once.
    fn execute(&mut self, invocation: &CommandInvocation) -> (r: Result<String, HubError>)
        ensures
            old(self).answers(*invocation, r, final(self)),
    ;
}

/// An error with its protocol code and a readable message.
#[derive(Debug, Clone, PartialEq, Eq)]
pub struct HubError {
    pub code: ErrorCode,
    pub message: String,
}

impl HubError {
    /// The error with code `code` and message `message`.
    pub fn new(code: ErrorCode, message: &str) -> (r: Self)
        ensures
            r.code == code,
            r.message@ == message@,
    {
        HubError { code, message: message.to_owned() }
    }
}

/// How a command request ended: run, refused before running, or run and failed.
#[derive(Debug, Clone, Copy, PartialEq, Eq)]
pub enum CommandStatus {
    Success,
    Rejected,
    Failed,
}

/// The result of a command: its status, the error code unless it succeeded, and a message.
#[derive(Debug, Clone, PartialEq, Eq)]
pub struct CommandResult {
    pub status: CommandStatus,
    pub error_code: Option<ErrorCode>,
    pub message: String,
}

/// A command result with its message taken as characters.
pub ghost struct CommandResultView {
    pub status: CommandStatus,
    pub error_code: Option<ErrorCode>,
    pub message: Seq<char>,
}

impl View for CommandResult {
    type V = CommandResultView;

    open spec fn view(&self) -> CommandResultView {
        CommandResultView { status: self.status, error_code: self.error_code, message: self.message@ }
    }
}

/// A rejection with code `code` and message `message`.
pub open spec fn rejection(code: ErrorCode, message: Seq<char>) -> CommandResultView {
    CommandResultView { status: CommandStatus::Rejected, error_code: Some(code), message }
}

/// The result that an executor's answer gives: its message on success, its error's
/// code and message on failure.
pub open spec fn execution_result(r: Result<String, HubError>) -> CommandResultView {
    match r {
        Ok(m) => CommandResultView { status: CommandStatus::Success, error_code: None, message: m@ },
        Err(e) => CommandResultView { status: CommandStatus::Failed, error_code: Some(e.code), message: e.message@ },
    }
}

impl CommandResult {
    fn success(message: String) -> (r: Self)
        ensures
            r@ == execution_result(Ok(message)),
    {
        CommandResult { status: CommandStatus::Success, error_code: None, message }
    }

    fn rejected(code: ErrorCode, message: String) -> (r: Self)
        ensures
            r@ == rejection(code, message@),
    {
        CommandResult { status: CommandStatus::Rejected, error_code: Some(code), message }
    }

    fn failed(error: HubError) -> (r: Self)
        ensures
            r@ == execution_result(Err(error)),
    {
        CommandResult { status: CommandStatus::Failed, error_code: Some(error.code), message: error.message }
    }

    /// The result that an executor's answer gives.
    pub fn from_execution(answer: Result<String, HubError>) -> (r: Self)
        ensures
            r@ == execution_result(answer),
    {
        match answer {
            Ok(message) => CommandResult::success(message),
            Err(error) => CommandResult::failed(error),
        }
    }

    /// A copy of this result.
    pub fn copy(&self) -> (r: Self)
        ensures
            r@ == self@,
    {
        CommandResult { status: self.status, error_code: self.error_code, message: self.message.clone() }
    }
}

/// What an invocation came to. `executed` is false both for a rejection and for a
/// replay; `replayed` tells a repeated request id from a first rejection.
#[derive(Debug, Clone, PartialEq, Eq)]
pub struct CommandOutcome {
    pub result: CommandResult,
    pub executed: bool,
    pub replayed: bool,
}

/// Runs allowed commands at most once per request id and remembers every result.
pub struct CommandService {
    registry: CommandRegistry,
    completed_requests: StrMap<CommandResult>,
}

/// The allowed command ids and the remembered result of every request id seen.
pub ghost struct ServiceView {
    pub allowed: Set<Seq<char>>,
    pub completed: Map<Seq<char>, CommandResultView>,
}

impl View for CommandService {
    type V = ServiceView;

    closed spec fn view(&self) -> ServiceView {
        ServiceView {
            allowed: self.registry@,
            completed: self.completed_requests@.map_values(|r: CommandResult| r@),
        }
    }
}

/// What an invocation of request `req` for command `cmd` does in service state `s`:
/// a known request id replays its result and runs nothing; an empty (or blank) id is
/// rejected as malformed; a command off the allow-list is rejected as not allowed;
/// otherwise the executor runs once and its answer is the result. Every new result
/// is remembered under its request id.
pub open spec fn invocation_step(s: ServiceView, req: Seq<char>, cmd: Seq<char>, o: CommandOutcomeView, t: ServiceView) -> bool {
    if s.completed.contains_key(req) {
        o == (CommandOutcomeView { result: s.completed[req], executed: false, replayed: true }) && t == s
    } else {
        &&& t.allowed == s.allowed
        &&& t.completed == s.completed.insert(req, o.result)
        &&& !o.replayed
        &&& if is_blank(req) || is_blank(cmd) {
            o.result == rejection(ErrorCode::MalformedMessage, "requestId and commandId must not be empty"@) && !o.executed
        } else if !s.allowed.contains(cmd) {
            o.result == rejection(ErrorCode::CommandNotAllowed, "command is not allowed: "@ + cmd) && !o.executed
        } else {
            o.executed && exists|answer: Result<String, HubError>| o.result == #[trigger] execution_result(answer)
        }
    }
}

/// A command outcome with its result taken by its view.
pub ghost struct CommandOutcomeView {
    pub result: CommandResultView,
    pub executed: bool,
    pub replayed: bool,
}

impl View for CommandOutcome {
    type V = CommandOutcomeView;

    open spec fn view(&self) -> CommandOutcomeView {
        CommandOutcomeView { result: self.result@, executed: self.executed, replayed: self.replayed }
    }
}

impl CommandService {
    /// The service's parts stay ordered.
    pub closed spec fn wf(&self) -> bool {
        self.registry.wf() && self.completed_requests.wf()
    }

    /// A service with `registry` that has seen no request yet.
    pub fn new(registry: CommandRegistry) -> (r: Self)
        requires
            registry.wf(),
        ensures
            r.wf(),
            r@.allowed == registry@,
            r@.completed == Map::<Seq<char>, CommandResultView>::empty(),
            r@.completed.dom().finite(),
    {
        let r = CommandService { registry, completed_requests: StrMap::new() };
        assert(r@.completed =~= Map::<Seq<char>, CommandResultView>::empty());
        r
    }

    /// The allow-list.
    pub fn registry(&self) -> (r: &CommandRegistry)
        requires
            self.wf(),
        ensures
            r.wf(),
            r@ == self@.allowed,
    {
        &self.registry
    }

    /// Replaces the allow-list; the remembered results stay.
    pub fn replace_registry(&mut self, registry: CommandRegistry)
        requires
            old(self).wf(),
            registry.wf(),
        ensures
            final(self).wf(),
            final(self)@ == (ServiceView { allowed: registry@, ..old(self)@ }),
    {
        self.registry = registry;
    }

    /// The remembered request ids are finitely many.
    pub proof fn lemma_completed_finite(&self)
        requires
            self.wf(),
        ensures
            self@.completed.dom().finite(),
    {
        lemma_entry_count(self.completed_requests.entries());
        assert(self@.completed.dom() =~= self.completed_requests@.dom());
    }

    /// The number of request ids whose result is remembered.
    pub fn completed_request_count(&self) -> (r: usize)
        requires
            self.wf(),
        ensures
            r == self@.completed.dom().len(),
    {
        proof {
            self.completed_requests.lemma_keys();
            lemma_entry_count(self.completed_requests.entries());
            assert(self@.completed.dom() =~= self.completed_requests@.dom());
        }
        self.completed_requests.len()
    }

    /// Validates an invocation, runs it at most once and remembers its result by
    /// request id. An allowed, first-seen invocation is handed to the executor exactly
    /// once, unchanged, and the executor's answer becomes the result; otherwise the
    /// executor is not touched. Sending the same request id again returns the first
    /// result without reaching the executor, also where that result was a rejection or
    /// a failure.
    pub fn invoke<E: CommandExecutor>(&mut self, invocation: CommandInvocation, executor: &mut E) -> (r: CommandOutcome)
        requires
            old(self).wf(),
        ensures
            final(self).wf(),
            invocation_step(old(self)@, invocation.request_id@, invocation.command_id@, r@, final(self)@),
            !r.executed ==> *final(executor) == *old(executor),
            r.executed ==> exists|answer: Result<String, HubError>|
                #[trigger] old(executor).answers(invocation, answer, final(executor))
                    && r@.result == execution_result(answer),
            final(self)@.completed.dom().finite(),
            !old(self)@.completed.contains_key(invocation.request_id@) ==> final(self)@.completed.dom().len()
                == old(self)@.completed.dom().len() + 1,
            old(self)@.completed.contains_key(invocation.request_id@) ==> final(self)@.completed.dom().len()
                == old(self)@.completed.dom().len(),
    {
        proof {
            self.lemma_completed_finite();
        }
        match self.completed_requests.get(invocation.request_id.as_str()) {
            Some(result) => {
                return CommandOutcome { result: result.copy(), executed: false, replayed: true };
            },
            None => {},
        }
        let (result, executed) = if blank(invocation.request_id.as_str()) || blank(invocation.command_id.as_str()) {
            (CommandResult::rejected(ErrorCode::MalformedMessage, "requestId and commandId must not be empty".to_owned()), false)
        } else if !self.registry.is_allowed(invocation.command_id.as_str()) {
            let mut message = "command is not allowed: ".to_owned();
            message.append(invocation.command_id.as_str());
            (CommandResult::rejected(ErrorCode::CommandNotAllowed, message), false)
        } else {
            let answer = executor.execute(&invocation);
            (CommandResult::from_execution(answer), true)
        };
        let ghost before = self.completed_requests@;
        self.completed_requests.insert(invocation.request_id, result.copy());
        proof {
            assert(self.completed_requests@.map_values(|r: CommandResult| r@) =~= before.map_values(|r: CommandResult| r@).insert(invocation.request_id@, result@));
            self.lemma_completed_finite();
        }
        CommandOutcome { result, executed, replayed: false }
    }
}

proof fn lemma_entry_count<V>(s: Seq<(String, V)>)
    requires
        ascending(s),
    ensures
        map_of(s).dom().len() == s.len(),
        map_of(s).dom().finite(),
    decreases s.len(),
{
    if s.len() == 0 {
        assert(map_of(s).dom() =~= Set::<Seq<char>>::empty());
    } else {
        let d = s.drop_last();
        lemma_entry_count(d);
        let k = s.last().0@;
        assert(map_of(s).dom() =~= map_of(d).dom().insert(k)) by {
            assert forall|x: Seq<char>| #[trigger] map_of(s).dom().contains(x) <==> map_of(d).dom().insert(k).contains(x) by {
                if map_of(s).dom().contains(x) {
                    let c = choose|c: int| 0 <= c < s.len() && (#[trigger] s[c]).0@ == x;
                    if c < s.len() - 1 {
                        assert(d[c] == s[c]);
                    }
                }
                if map_of(d).dom().contains(x) {
                    let c = choose|c: int| 0 <= c < d.len() && (#[trigger] d[c]).0@ == x;
                    assert(s[c] == d[c]);
                }
            }
        }
        if map_of(d).dom().contains(k) {
            let c = choose|c: int| 0 <= c < d.len() && (#[trigger] d[c]).0@ == k;
            assert(seq_lt(s[c].0@, s[s.len() - 1].0@));
            crate::text::lemma_seq_lt_total(k, k);
        }
    }
}

// ---------------------------------------------------------------------------
// Laws of the command service
// ---------------------------------------------------------------------------

/// Sending a request id a second time replays the first outcome's result, runs
/// nothing and changes nothing, whatever the first outcome was and whatever command
/// the second request names.
pub proof fn lemma_repeated_request_replays(
    s0: ServiceView,
    req: Seq<char>,
    cmd1: Seq<char>,
    o1: CommandOutcomeView,
    s1: ServiceView,
    cmd2: Seq<char>,
    o2: CommandOutcomeView,
    s2: ServiceView,
)
    requires
        invocation_step(s0, req, cmd1, o1, s1),
        invocation_step(s1, req, cmd2, o2, s2),
    ensures
        o2.result == o1.result,
        !o2.executed,
        o2.replayed,
        s2 == s1,
{
}

/// Every request id has its result remembered once it has been invoked, and no
/// remembered result ever changes: the executor runs at most once per request id.
pub proof fn lemma_results_are_kept(s0: ServiceView, req: Seq<char>, cmd: Seq<char>, o: CommandOutcomeView, s1: ServiceView)
    requires
        invocation_step(s0, req, cmd, o, s1),
    ensures
        s1.completed.contains_key(req),
        s1.completed[req] == o.result,
        forall|k: Seq<char>| #[trigger] s0.completed.contains_key(k) ==> s1.completed.contains_key(k) && s1.completed[k] == s0.completed[k],
        s1.allowed == s0.allowed,
{
}

/// Only an allowed, well-formed, first-seen request runs the executor; a rejection
/// never does.
pub proof fn lemma_execution_needs_allowed_command(s0: ServiceView, req: Seq<char>, cmd: Seq<char>, o: CommandOutcomeView, s1: ServiceView)
    requires
        invocation_step(s0, req, cmd, o, s1),
        o.executed,
    ensures
        s0.allowed.contains(cmd),
        !s0.completed.contains_key(req),
        !is_blank(req),
        !is_blank(cmd),
        o.result.status != CommandStatus::Rejected,
{
}

} // verus!
