//! The decisions of a control connection: what each control-mode event
//! means for the queue of commands awaiting replies, and the ssh command
//! lines that set the connection up.

use vstd::prelude::*;
use crate::cc_parser::{strings_view as event_strings_view, ControlEvent, ControlEventView};
use crate::commands::{parse_session_rows, parse_sessions};
use crate::probe::{classify_spec, classify_ssh_error};
use crate::remote_hosts::{strings_view, RemoteHost, RemoteHostView};
use crate::ssh_args::{target_args, target_args_spec};
use crate::types::{
    sessions_view, HostError, HostErrorView, RemoteTmuxSession, RemoteTmuxSessionView,
};

verus! {

/// How often the control connection sends a keep-alive.
pub struct ConnectionConfig {
    pub heartbeat_interval: std::time::Duration,
}

/// The `Duration` of `secs` whole seconds, as `std::time::Duration::from_secs`
/// makes it.
pub uninterp spec fn duration_of_secs(secs: u64) -> std::time::Duration;

/// `std::time::Duration::from_secs`. Claimed: the result is
/// [`duration_of_secs`] of the argument; `from_secs` depends on its argument
/// alone. What that `Duration` holds is not stated here (`Duration` is opaque
/// to the library).
#[verifier::external_body]
fn duration_from_secs(secs: u64) -> (d: std::time::Duration)
    ensures
        d == duration_of_secs(secs),
{
    std::time::Duration::from_secs(secs)
}

impl ConnectionConfig {
    /// A heartbeat every `seconds` seconds.
    pub fn from_heartbeat_seconds(seconds: u32) -> (r: ConnectionConfig)
        ensures
            r.heartbeat_interval == duration_of_secs(seconds as u64),
    {
        ConnectionConfig { heartbeat_interval: duration_from_secs(seconds as u64) }
    }
}

/// What a control connection reports to the model.
#[derive(Debug)]
pub enum ConnectionEvent {
    Sessions(Vec<RemoteTmuxSession>),
    Exit(Option<String>),
    Error(HostError),
}

pub enum ConnectionEventView {
    Sessions(Seq<RemoteTmuxSessionView>),
    Exit(Option<Seq<char>>),
    Error(HostErrorView),
}

impl View for ConnectionEvent {
    type V = ConnectionEventView;

    open spec fn view(&self) -> ConnectionEventView {
        match self {
            ConnectionEvent::Sessions(s) => ConnectionEventView::Sessions(sessions_view(s@)),
            ConnectionEvent::Exit(r) => ConnectionEventView::Exit(
                match r {
                    Some(s) => Some(s@),
                    None => None,
                },
            ),
            ConnectionEvent::Error(e) => ConnectionEventView::Error(e@),
        }
    }
}

/// A command written to the control connection whose reply has not come
/// back: a user command, known by a ticket, or a session list refresh.
#[derive(Clone, Copy, Debug, PartialEq, Eq, Structural)]
pub enum Pending {
    UserCommand(u64),
    Refresh,
}

/// What the reader does with an event.
#[derive(Debug)]
pub enum ReaderAction {
    /// Nothing.
    Nothing,
    /// Hand the reply to the user command with this ticket.
    Reply { ticket: u64, result: Result<Vec<String>, String> },
    /// Report the host's sessions.
    EmitSessions(Vec<RemoteTmuxSession>),
    /// Ask for the session list again.
    Refresh,
    /// Report that the connection ended, and stop reading.
    Exit(Option<String>),
}

pub enum ReaderActionView {
    Nothing,
    Reply { ticket: u64, result: Result<Seq<Seq<char>>, Seq<char>> },
    EmitSessions(Seq<RemoteTmuxSessionView>),
    Refresh,
    Exit(Option<Seq<char>>),
}

impl View for ReaderAction {
    type V = ReaderActionView;

    open spec fn view(&self) -> ReaderActionView {
        match self {
            ReaderAction::Nothing => ReaderActionView::Nothing,
            ReaderAction::Reply { ticket, result } => ReaderActionView::Reply {
                ticket: *ticket,
                result: match result {
                    Ok(v) => Ok(strings_view(v@)),
                    Err(m) => Err(m@),
                },
            },
            ReaderAction::EmitSessions(s) => ReaderActionView::EmitSessions(sessions_view(s@)),
            ReaderAction::Refresh => ReaderActionView::Refresh,
            ReaderAction::Exit(r) => ReaderActionView::Exit(
                match r {
                    Some(s) => Some(s@),
                    None => None,
                },
            ),
        }
    }
}

/// The reader's state: the queue of commands awaiting replies, oldest first;
/// whether the reply to the connection's own opening command has been seen;
/// and the id of the control session itself, once tmux has named it.
pub struct ReaderState {
    pending: Vec<Pending>,
    handshake_done: bool,
    own_session_id: Option<String>,
}

pub struct ReaderStateView {
    pub pending: Seq<Pending>,
    pub handshake_done: bool,
    pub own_session_id: Option<Seq<char>>,
}

impl View for ReaderState {
    type V = ReaderStateView;

    closed spec fn view(&self) -> ReaderStateView {
        ReaderStateView {
            pending: self.pending@,
            handshake_done: self.handshake_done,
            own_session_id: match self.own_session_id {
                Some(s) => Some(s@),
                None => None,
            },
        }
    }
}

/// `output` joined with line breaks.
pub open spec fn joined_lines(output: Seq<Seq<char>>) -> Seq<char>
    decreases output.len(),
{
    if output.len() == 0 {
        Seq::<char>::empty()
    } else if output.len() == 1 {
        output[0]
    } else {
        joined_lines(output.drop_last()) + seq!['\n'] + output.last()
    }
}

/// The reader's state after an event, and what it does about it.
///
/// A block's end answers the oldest pending command: a user command gets the
/// block's lines (or, for an error block, the lines joined), a refresh turns
/// into the session list (empty after an error). The first end with nothing
/// pending is the reply to the connection's opening and asks for the session
/// list. Changes to sessions or clients ask for it too; tmux's naming of the
/// control session is remembered; an exit ends the connection.
pub open spec fn reader_step(s: ReaderStateView, e: ControlEventView) -> (ReaderStateView, ReaderActionView) {
    match e {
        ControlEventView::End { output, .. } => if s.pending.len() > 0 {
            let rest = ReaderStateView { pending: s.pending.drop_first(), ..s };
            match s.pending[0] {
                Pending::UserCommand(t) => (rest, ReaderActionView::Reply { ticket: t, result: Ok(output) }),
                Pending::Refresh => (
                    rest,
                    ReaderActionView::EmitSessions(parse_session_rows(output, s.own_session_id)),
                ),
            }
        } else if !s.handshake_done {
            (ReaderStateView { handshake_done: true, ..s }, ReaderActionView::Refresh)
        } else {
            (s, ReaderActionView::Nothing)
        },
        ControlEventView::Error { output, .. } => if s.pending.len() > 0 {
            let rest = ReaderStateView { pending: s.pending.drop_first(), ..s };
            match s.pending[0] {
                Pending::UserCommand(t) => (
                    rest,
                    ReaderActionView::Reply { ticket: t, result: Err(joined_lines(output)) },
                ),
                Pending::Refresh => (rest, ReaderActionView::EmitSessions(Seq::<RemoteTmuxSessionView>::empty())),
            }
        } else {
            (s, ReaderActionView::Nothing)
        },
        ControlEventView::SessionChanged { session_id, .. } => if s.own_session_id is None {
            (ReaderStateView { own_session_id: Some(session_id), ..s }, ReaderActionView::Nothing)
        } else {
            (s, ReaderActionView::Nothing)
        },
        ControlEventView::SessionsChanged
        | ControlEventView::ClientSessionChanged { .. }
        | ControlEventView::ClientDetached { .. }
        | ControlEventView::SessionRenamed { .. }
        | ControlEventView::SessionWindowChanged { .. } => (s, ReaderActionView::Refresh),
        ControlEventView::Exit { reason } => (s, ReaderActionView::Exit(reason)),
        _ => (s, ReaderActionView::Nothing),
    }
}

/// Every notification that sessions or clients changed (the session list,
/// a client's session, a detached client, a renamed session, a session's
/// window) asks for the session list again and leaves the reader's state as
/// it was, whatever that state is.
pub proof fn lemma_changes_ask_for_refresh(s: ReaderStateView, e: ControlEventView)
    requires
        e is SessionsChanged || e is ClientSessionChanged || e is ClientDetached || e is SessionRenamed
            || e is SessionWindowChanged,
    ensures
        reader_step(s, e) == (s, ReaderActionView::Refresh),
{
}

/// tmux's exit ends the connection with tmux's reason, and the first
/// naming of the control session is remembered (later ones are not), in any
/// reader state; neither asks anything of tmux.
pub proof fn lemma_exit_and_own_session(
    s: ReaderStateView,
    reason: Option<Seq<char>>,
    session_id: Seq<char>,
    name: Seq<char>,
)
    ensures
        reader_step(s, ControlEventView::Exit { reason }) == (s, ReaderActionView::Exit(reason)),
        reader_step(s, ControlEventView::SessionChanged { session_id, name }) == (
            ReaderStateView {
                own_session_id: if s.own_session_id is None {
                    Some(session_id)
                } else {
                    s.own_session_id
                },
                ..s
            },
            ReaderActionView::Nothing,
        ),
{
}

/// The reader's state after a run of events, and what it did for each.
pub open spec fn run_reader(s: ReaderStateView, events: Seq<ControlEventView>) -> (ReaderStateView, Seq<ReaderActionView>)
    decreases events.len(),
{
    if events.len() == 0 {
        (s, Seq::<ReaderActionView>::empty())
    } else {
        let (s1, a) = reader_step(s, events[0]);
        let (s2, rest) = run_reader(s1, events.drop_first());
        (s2, seq![a] + rest)
    }
}

/// Replies go to user commands in the order the commands were written: with
/// commands waiting under `tickets`, oldest first, the next block ends hand
/// their lines to those tickets, one each, in order, and leave nothing
/// waiting.
pub proof fn lemma_replies_in_order(s: ReaderStateView, tickets: Seq<u64>, events: Seq<ControlEventView>)
    requires
        s.pending == tickets.map_values(|t: u64| Pending::UserCommand(t)),
        events.len() == tickets.len(),
        forall|i: int| 0 <= i < events.len() ==> #[trigger] events[i] is End,
    ensures
        run_reader(s, events).0 == (ReaderStateView { pending: Seq::<Pending>::empty(), ..s }),
        run_reader(s, events).1 == Seq::new(
            events.len(),
            |i: int| ReaderActionView::Reply { ticket: tickets[i], result: Ok(events[i]->End_output) },
        ),
    decreases tickets.len(),
{
    let expected = Seq::new(
        events.len(),
        |i: int| ReaderActionView::Reply { ticket: tickets[i], result: Ok(events[i]->End_output) },
    );
    if tickets.len() == 0 {
        assert(s.pending =~= Seq::<Pending>::empty());
        assert(expected =~= Seq::<ReaderActionView>::empty());
    } else {
        assert(s.pending[0] == Pending::UserCommand(tickets[0]));
        assert(events[0] is End);
        let (s1, a) = reader_step(s, events[0]);
        assert(s1.pending =~= tickets.drop_first().map_values(|t: u64| Pending::UserCommand(t)));
        let rest_events = events.drop_first();
        assert forall|i: int| 0 <= i < rest_events.len() implies #[trigger] rest_events[i] is End by {
            assert(rest_events[i] == events[i + 1]);
        }
        lemma_replies_in_order(s1, tickets.drop_first(), rest_events);
        let rest = run_reader(s1, rest_events).1;
        assert(seq![a] + rest =~= expected);
    }
}

fn join_lines(output: &Vec<String>) -> (r: String)
    ensures
        r@ == joined_lines(strings_view(output@)),
{
    let mut r = String::new();
    let mut i: usize = 0;
    while i < output.len()
        invariant
            i <= output.len(),
            r@ == joined_lines(strings_view(output@).take(i as int)),
        decreases output.len() - i,
    {
        let ghost v = strings_view(output@);
        assert(v.take(i + 1).drop_last() =~= v.take(i as int));
        if i > 0 {
            crate::text::push_char(&mut r, '\n');
        }
        r.append(output[i].as_str());
        proof {
            if i == 0 {
                assert(v.take(1) =~= seq![v[0]]);
                assert(r@ =~= joined_lines(v.take(1)));
            } else {
                assert(r@ =~= joined_lines(v.take(i + 1)));
            }
        }
        i += 1;
    }
    assert(strings_view(output@).take(output.len() as int) =~= strings_view(output@));
    r
}

impl ReaderState {
    /// A reader with nothing pending, before the opening reply.
    pub fn new() -> (r: Self)
        ensures
            r@.pending.len() == 0,
            !r@.handshake_done,
            r@.own_session_id is None,
    {
        ReaderState { pending: Vec::new(), handshake_done: false, own_session_id: None }
    }

    /// The commands awaiting replies, oldest first.
    pub fn pending(&self) -> (r: &Vec<Pending>)
        ensures
            r@ == self@.pending,
    {
        &self.pending
    }

    /// Records a command just written, at the back of the queue.
    pub fn push_pending(&mut self, p: Pending)
        ensures
            final(self)@ == (ReaderStateView { pending: old(self)@.pending.push(p), ..old(self)@ }),
    {
        self.pending.push(p);
    }

    /// Forgets the command most recently recorded, whose write failed.
    pub fn cancel_last(&mut self)
        ensures
            final(self)@ == (ReaderStateView {
                pending: if old(self)@.pending.len() > 0 {
                    old(self)@.pending.drop_last()
                } else {
                    old(self)@.pending
                },
                ..old(self)@
            }),
    {
        if self.pending.len() > 0 {
            self.pending.pop();
        }
    }

    /// Takes in one event; see [`reader_step`].
    pub fn on_event(&mut self, event: ControlEvent) -> (r: ReaderAction)
        ensures
            (final(self)@, r@) == reader_step(old(self)@, event@),
    {
        match event {
            ControlEvent::End { id: _, output } => {
                if self.pending.len() > 0 {
                    let p = self.pending.remove(0);
                    match p {
                        Pending::UserCommand(t) => {
                            assert(strings_view(output@) == event_strings_view(output@));
                            ReaderAction::Reply { ticket: t, result: Ok(output) }
                        },
                        Pending::Refresh => {
                            let own = match &self.own_session_id {
                                Some(s) => Some(s.as_str()),
                                None => None,
                            };
                            let sessions = parse_sessions(output.as_slice(), own);
                            ReaderAction::EmitSessions(sessions)
                        },
                    }
                } else if !self.handshake_done {
                    self.handshake_done = true;
                    ReaderAction::Refresh
                } else {
                    ReaderAction::Nothing
                }
            },
            ControlEvent::Error { id: _, output } => {
                if self.pending.len() > 0 {
                    let p = self.pending.remove(0);
                    match p {
                        Pending::UserCommand(t) => {
                            let joined = join_lines(&output);
                            ReaderAction::Reply { ticket: t, result: Err(joined) }
                        },
                        Pending::Refresh => {
                            let v: Vec<RemoteTmuxSession> = Vec::new();
                            assert(sessions_view(v@) =~= Seq::<RemoteTmuxSessionView>::empty());
                            ReaderAction::EmitSessions(v)
                        },
                    }
                } else {
                    ReaderAction::Nothing
                }
            },
            ControlEvent::SessionChanged { session_id, name: _ } => {
                if self.own_session_id.is_none() {
                    self.own_session_id = Some(session_id);
                }
                ReaderAction::Nothing
            },
            ControlEvent::SessionsChanged => ReaderAction::Refresh,
            ControlEvent::ClientSessionChanged { .. } => ReaderAction::Refresh,
            ControlEvent::ClientDetached { .. } => ReaderAction::Refresh,
            ControlEvent::SessionRenamed { .. } => ReaderAction::Refresh,
            ControlEvent::SessionWindowChanged { .. } => ReaderAction::Refresh,
            ControlEvent::Exit { reason } => ReaderAction::Exit(reason),
            _ => ReaderAction::Nothing,
        }
    }
}

/// A user command's result from what came back: its lines, tmux's error
/// text, or "command response lost" when no reply arrived in time.
pub open spec fn reply_spec(reply: Option<Result<Seq<Seq<char>>, Seq<char>>>) -> Result<Seq<Seq<char>>, HostErrorView> {
    match reply {
        Some(Ok(v)) => Ok(v),
        Some(Err(m)) => Err(HostErrorView::Other(m)),
        None => Err(HostErrorView::Other("command response lost"@)),
    }
}

/// A user command's result; see [`reply_spec`].
pub fn command_result(reply: Option<Result<Vec<String>, String>>) -> (r: Result<Vec<String>, HostError>)
    ensures
        match reply_spec(match reply {
            Some(Ok(v)) => Some(Ok(strings_view(v@))),
            Some(Err(m)) => Some(Err(m@)),
            None => None,
        }) {
            Ok(v) => r matches Ok(x) && strings_view(x@) == v,
            Err(e) => r matches Err(x) && x@ == e,
        },
{
    match reply {
        Some(Ok(v)) => Ok(v),
        Some(Err(m)) => Err(HostError::Other(m)),
        None => Err(HostError::Other(String::from_str("command response lost"))),
    }
}

/// How many times the control master is checked for before giving up.
pub const MASTER_PROBE_ATTEMPTS: u32 = 20;

/// What to do after one check of a starting control master.
#[derive(Debug, Clone, Copy, PartialEq, Eq, Structural)]
pub enum MasterProbeStep {
    /// The master answers: the connection can go on.
    Ready,
    /// The master process has ended: fail with what it wrote (see
    /// [`crate::probe::classify_ssh_error`]).
    Exited,
    /// Wait and check again.
    Retry,
    /// Out of attempts: stop the master and fail (see
    /// [`master_handshake_error`]).
    GiveUp,
}

/// The step after check number `attempt` (from 0): ready when the master
/// answers, failed when its process has ended, otherwise another check until
/// [`MASTER_PROBE_ATTEMPTS`] checks have been made.
pub open spec fn master_probe_spec(attempt: u32, up: bool, exited: bool) -> MasterProbeStep {
    if up {
        MasterProbeStep::Ready
    } else if exited {
        MasterProbeStep::Exited
    } else if attempt + 1 >= MASTER_PROBE_ATTEMPTS {
        MasterProbeStep::GiveUp
    } else {
        MasterProbeStep::Retry
    }
}

/// Decides what follows one check of a starting control master; see
/// [`master_probe_spec`].
pub fn master_probe_step(attempt: u32, up: bool, exited: bool) -> (r: MasterProbeStep)
    ensures
        r == master_probe_spec(attempt, up, exited),
{
    if up {
        MasterProbeStep::Ready
    } else if exited {
        MasterProbeStep::Exited
    } else if attempt >= MASTER_PROBE_ATTEMPTS - 1 {
        MasterProbeStep::GiveUp
    } else {
        MasterProbeStep::Retry
    }
}

/// Checking a master that never answers nor ends gives up after exactly
/// [`MASTER_PROBE_ATTEMPTS`] checks: every earlier check retries.
pub proof fn lemma_master_probe_bounded(attempt: u32)
    ensures
        attempt + 1 < MASTER_PROBE_ATTEMPTS ==> master_probe_spec(attempt, false, false) == MasterProbeStep::Retry,
        attempt + 1 == MASTER_PROBE_ATTEMPTS ==> master_probe_spec(attempt, false, false) == MasterProbeStep::GiveUp,
{
}

/// The error for a control master that did not come up, from what ssh wrote
/// to its error output.
pub open spec fn master_error_spec(detail: Seq<char>) -> HostErrorView {
    if detail.len() == 0 {
        HostErrorView::HostUnreachable("ControlMaster handshake timed out"@)
    } else {
        classify_spec(detail)
    }
}

/// The error for a control master that did not come up; see
/// [`master_error_spec`].
pub fn master_handshake_error(detail: &str) -> (e: HostError)
    ensures
        e@ == master_error_spec(detail@),
{
    if detail.unicode_len() == 0 {
        HostError::HostUnreachable(String::from_str("ControlMaster handshake timed out"))
    } else {
        classify_ssh_error(detail)
    }
}

// ---------------------------------------------------------------------------
// ssh command lines
// ---------------------------------------------------------------------------

/// The arguments of the ssh process that opens the control-mode client over
/// the shared master connection.
pub open spec fn control_client_args_spec(h: RemoteHostView, socket_path: Seq<char>) -> Seq<Seq<char>> {
    seq!["-tt"@, "-o"@, "ControlMaster=no"@, "-o"@, "ControlPath="@ + socket_path, "-o"@, "BatchMode=yes"@]
        + target_args_spec(h) + seq!["tmux -CC new-session -A -s __warp_ctrl"@]
}

fn control_path_arg(socket_path: &str) -> (r: String)
    ensures
        r@ == "ControlPath="@ + socket_path@,
{
    let mut r = String::from_str("ControlPath=");
    r.append(socket_path);
    r
}

pub fn control_client_args(host: &RemoteHost, socket_path: &str) -> (r: Vec<String>)
    ensures
        strings_view(r@) == control_client_args_spec(host@, socket_path@),
{
    let mut args: Vec<String> = Vec::new();
    args.push(String::from_str("-tt"));
    args.push(String::from_str("-o"));
    args.push(String::from_str("ControlMaster=no"));
    args.push(String::from_str("-o"));
    args.push(control_path_arg(socket_path));
    args.push(String::from_str("-o"));
    args.push(String::from_str("BatchMode=yes"));
    let ghost head = args@;
    let mut tail = target_args(host);
    let ghost t = tail@;
    args.append(&mut tail);
    args.push(String::from_str("tmux -CC new-session -A -s __warp_ctrl"));
    assert(strings_view(args@) =~= strings_view(head) + strings_view(t) + seq![
        "tmux -CC new-session -A -s __warp_ctrl"@,
    ]);
    args
}

/// The arguments of the ssh process that keeps the shared master connection.
pub open spec fn master_args_spec(h: RemoteHostView, socket_path: Seq<char>) -> Seq<Seq<char>> {
    seq![
        "-N"@,
        "-o"@,
        "ControlMaster=yes"@,
        "-o"@,
        "ControlPath="@ + socket_path,
        "-o"@,
        "ControlPersist=60"@,
        "-o"@,
        "ServerAliveInterval=30"@,
        "-o"@,
        "ServerAliveCountMax=3"@,
        "-o"@,
        "BatchMode=yes"@,
        "-o"@,
        "ConnectTimeout=10"@,
    ] + target_args_spec(h)
}

pub fn master_args(host: &RemoteHost, socket_path: &str) -> (r: Vec<String>)
    ensures
        strings_view(r@) == master_args_spec(host@, socket_path@),
{
    let mut args: Vec<String> = Vec::new();
    args.push(String::from_str("-N"));
    args.push(String::from_str("-o"));
    args.push(String::from_str("ControlMaster=yes"));
    args.push(String::from_str("-o"));
    args.push(control_path_arg(socket_path));
    args.push(String::from_str("-o"));
    args.push(String::from_str("ControlPersist=60"));
    args.push(String::from_str("-o"));
    args.push(String::from_str("ServerAliveInterval=30"));
    args.push(String::from_str("-o"));
    args.push(String::from_str("ServerAliveCountMax=3"));
    args.push(String::from_str("-o"));
    args.push(String::from_str("BatchMode=yes"));
    args.push(String::from_str("-o"));
    args.push(String::from_str("ConnectTimeout=10"));
    let ghost head = args@;
    let mut tail = target_args(host);
    let ghost t = tail@;
    args.append(&mut tail);
    assert(strings_view(args@) =~= strings_view(head) + strings_view(t));
    args
}

/// The arguments that send a control command (`check` or `exit`) to the
/// master connection of `host_name`.
pub open spec fn master_control_args_spec(op: Seq<char>, host_name: Seq<char>, socket_path: Seq<char>) -> Seq<Seq<char>> {
    seq!["-O"@, op, "-o"@, "ControlPath="@ + socket_path, host_name]
}

pub fn master_control_args(op: &str, host_name: &str, socket_path: &str) -> (r: Vec<String>)
    ensures
        strings_view(r@) == master_control_args_spec(op@, host_name@, socket_path@),
{
    let mut args: Vec<String> = Vec::new();
    args.push(String::from_str("-O"));
    args.push(String::from_str(op));
    args.push(String::from_str("-o"));
    args.push(control_path_arg(socket_path));
    args.push(String::from_str(host_name));
    assert(strings_view(args@) =~= master_control_args_spec(op@, host_name@, socket_path@));
    args
}

} // verus!
