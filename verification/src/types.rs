//! The data that describes a remote host and its tmux sessions.

use vstd::prelude::*;

verus! {

/// What a probe of a remote host found out about it.
#[derive(Debug, PartialEq)]
pub struct HostCapabilities {
    pub tmux_bin: String,
    pub tmux_version: String,
    pub tmux_supported: bool,
    pub passthrough: bool,
    pub shell_integration: bool,
    pub os: String,
    pub pkg: String,
    pub root_access: RootAccess,
}

#[derive(Clone, Copy, Debug, PartialEq, Eq, Structural)]
pub enum RootAccess {
    IsRoot,
    CanRunSudo,
    NoRootAccess,
}

pub struct HostCapabilitiesView {
    pub tmux_bin: Seq<char>,
    pub tmux_version: Seq<char>,
    pub tmux_supported: bool,
    pub passthrough: bool,
    pub shell_integration: bool,
    pub os: Seq<char>,
    pub pkg: Seq<char>,
    pub root_access: RootAccess,
}

impl View for HostCapabilities {
    type V = HostCapabilitiesView;

    open spec fn view(&self) -> HostCapabilitiesView {
        HostCapabilitiesView {
            tmux_bin: self.tmux_bin@,
            tmux_version: self.tmux_version@,
            tmux_supported: self.tmux_supported,
            passthrough: self.passthrough,
            shell_integration: self.shell_integration,
            os: self.os@,
            pkg: self.pkg@,
            root_access: self.root_access,
        }
    }
}

impl Clone for HostCapabilities {
    fn clone(&self) -> (r: Self)
        ensures
            r@ == self@,
    {
        HostCapabilities {
            tmux_bin: self.tmux_bin.clone(),
            tmux_version: self.tmux_version.clone(),
            tmux_supported: self.tmux_supported,
            passthrough: self.passthrough,
            shell_integration: self.shell_integration,
            os: self.os.clone(),
            pkg: self.pkg.clone(),
            root_access: self.root_access,
        }
    }
}

/// Why a host could not be reached or used.
#[derive(Debug, PartialEq)]
pub enum HostError {
    SshAuthFailed(String),
    HostUnreachable(String),
    ProbeTimedOut,
    ProbeMalformed(String),
    TmuxFailedToStart(String),
    MasterDied,
    Other(String),
}

pub enum HostErrorView {
    SshAuthFailed(Seq<char>),
    HostUnreachable(Seq<char>),
    ProbeTimedOut,
    ProbeMalformed(Seq<char>),
    TmuxFailedToStart(Seq<char>),
    MasterDied,
    Other(Seq<char>),
}

impl View for HostError {
    type V = HostErrorView;

    open spec fn view(&self) -> HostErrorView {
        match self {
            HostError::SshAuthFailed(d) => HostErrorView::SshAuthFailed(d@),
            HostError::HostUnreachable(d) => HostErrorView::HostUnreachable(d@),
            HostError::ProbeTimedOut => HostErrorView::ProbeTimedOut,
            HostError::ProbeMalformed(d) => HostErrorView::ProbeMalformed(d@),
            HostError::TmuxFailedToStart(d) => HostErrorView::TmuxFailedToStart(d@),
            HostError::MasterDied => HostErrorView::MasterDied,
            HostError::Other(d) => HostErrorView::Other(d@),
        }
    }
}

impl Clone for HostError {
    fn clone(&self) -> (r: Self)
        ensures
            r@ == self@,
    {
        match self {
            HostError::SshAuthFailed(d) => HostError::SshAuthFailed(d.clone()),
            HostError::HostUnreachable(d) => HostError::HostUnreachable(d.clone()),
            HostError::ProbeTimedOut => HostError::ProbeTimedOut,
            HostError::ProbeMalformed(d) => HostError::ProbeMalformed(d.clone()),
            HostError::TmuxFailedToStart(d) => HostError::TmuxFailedToStart(d.clone()),
            HostError::MasterDied => HostError::MasterDied,
            HostError::Other(d) => HostError::Other(d.clone()),
        }
    }
}

/// The text shown for an error: a fixed phrase for the kind of failure, with
/// the detail after a colon when there is one.
pub open spec fn host_error_message(e: HostErrorView) -> Seq<char> {
    match e {
        HostErrorView::SshAuthFailed(d) => if d.len() > 0 {
            "SSH authentication failed: "@ + d
        } else {
            "SSH authentication failed"@
        },
        HostErrorView::HostUnreachable(d) => if d.len() > 0 {
            "Host unreachable: "@ + d
        } else {
            "Host unreachable"@
        },
        HostErrorView::ProbeTimedOut => "Probe timed out"@,
        HostErrorView::ProbeMalformed(d) => "Probe response malformed: "@ + d,
        HostErrorView::TmuxFailedToStart(d) => if d.len() > 0 {
            "tmux failed to start: "@ + d
        } else {
            "tmux failed to start"@
        },
        HostErrorView::MasterDied => "Control connection died"@,
        HostErrorView::Other(d) => d,
    }
}

fn prefixed(prefix: &str, detail: &String) -> (s: String)
    ensures
        s@ == prefix@ + detail@,
{
    let mut s = String::from_str(prefix);
    s.append(detail.as_str());
    s
}

impl HostError {
    /// The message shown to the user for this error.
    pub fn to_string(&self) -> (s: String)
        ensures
            s@ == host_error_message(self@),
    {
        match self {
            HostError::SshAuthFailed(d) => if d.as_str().unicode_len() > 0 {
                prefixed("SSH authentication failed: ", d)
            } else {
                String::from_str("SSH authentication failed")
            },
            HostError::HostUnreachable(d) => if d.as_str().unicode_len() > 0 {
                prefixed("Host unreachable: ", d)
            } else {
                String::from_str("Host unreachable")
            },
            HostError::ProbeTimedOut => String::from_str("Probe timed out"),
            HostError::ProbeMalformed(d) => prefixed("Probe response malformed: ", d),
            HostError::TmuxFailedToStart(d) => if d.as_str().unicode_len() > 0 {
                prefixed("tmux failed to start: ", d)
            } else {
                String::from_str("tmux failed to start")
            },
            HostError::MasterDied => String::from_str("Control connection died"),
            HostError::Other(d) => d.clone(),
        }
    }
}

/// The connection state of a host.
#[derive(Debug, PartialEq)]
pub enum HostStatus {
    Disconnected,
    Connecting,
    Connected,
    Error(HostError),
    Unsupported(String),
}

pub enum HostStatusView {
    Disconnected,
    Connecting,
    Connected,
    Error(HostErrorView),
    Unsupported(Seq<char>),
}

impl View for HostStatus {
    type V = HostStatusView;

    open spec fn view(&self) -> HostStatusView {
        match self {
            HostStatus::Disconnected => HostStatusView::Disconnected,
            HostStatus::Connecting => HostStatusView::Connecting,
            HostStatus::Connected => HostStatusView::Connected,
            HostStatus::Error(e) => HostStatusView::Error(e@),
            HostStatus::Unsupported(s) => HostStatusView::Unsupported(s@),
        }
    }
}

impl Clone for HostStatus {
    fn clone(&self) -> (r: Self)
        ensures
            r@ == self@,
    {
        match self {
            HostStatus::Disconnected => HostStatus::Disconnected,
            HostStatus::Connecting => HostStatus::Connecting,
            HostStatus::Connected => HostStatus::Connected,
            HostStatus::Error(e) => HostStatus::Error(e.clone()),
            HostStatus::Unsupported(s) => HostStatus::Unsupported(s.clone()),
        }
    }
}

/// One tmux session on a remote host.
#[derive(Debug, PartialEq)]
pub struct RemoteTmuxSession {
    pub session_id: String,
    pub name: String,
    pub created_unix: i64,
    pub attached_count: u32,
    pub current_command: String,
}

pub struct RemoteTmuxSessionView {
    pub session_id: Seq<char>,
    pub name: Seq<char>,
    pub created_unix: i64,
    pub attached_count: u32,
    pub current_command: Seq<char>,
}

impl View for RemoteTmuxSession {
    type V = RemoteTmuxSessionView;

    open spec fn view(&self) -> RemoteTmuxSessionView {
        RemoteTmuxSessionView {
            session_id: self.session_id@,
            name: self.name@,
            created_unix: self.created_unix,
            attached_count: self.attached_count,
            current_command: self.current_command@,
        }
    }
}

impl Clone for RemoteTmuxSession {
    fn clone(&self) -> (r: Self)
        ensures
            r@ == self@,
    {
        RemoteTmuxSession {
            session_id: self.session_id.clone(),
            name: self.name.clone(),
            created_unix: self.created_unix,
            attached_count: self.attached_count,
            current_command: self.current_command.clone(),
        }
    }
}

/// The views of a list of sessions.
pub open spec fn sessions_view(v: Seq<RemoteTmuxSession>) -> Seq<RemoteTmuxSessionView> {
    v.map_values(|s: RemoteTmuxSession| s@)
}

/// Copies a list of sessions.
pub fn clone_sessions(v: &Vec<RemoteTmuxSession>) -> (r: Vec<RemoteTmuxSession>)
    ensures
        sessions_view(r@) == sessions_view(v@),
{
    let mut r: Vec<RemoteTmuxSession> = Vec::new();
    let mut i: usize = 0;
    while i < v.len()
        invariant
            i <= v.len(),
            sessions_view(r@) == sessions_view(v@.take(i as int)),
        decreases v.len() - i,
    {
        let c = v[i].clone();
        let ghost old_r = r@;
        r.push(c);
        assert(v@.take(i + 1) =~= v@.take(i as int).push(v@[i as int]));
        assert(sessions_view(v@.take(i as int).push(v@[i as int])) =~= sessions_view(v@.take(i as int)).push(v@[i as int]@));
        assert(sessions_view(r@) =~= sessions_view(old_r).push(c@));
        i += 1;
    }
    assert(v@.take(v.len() as int) =~= v@);
    r
}

/// Everything the panel knows about one configured host.
#[derive(Debug)]
pub struct HostState {
    pub local_host_key: String,
    pub status: HostStatus,
    pub capabilities: Option<HostCapabilities>,
    pub sessions: Vec<RemoteTmuxSession>,
    pub last_error_detail: Option<String>,
}

pub struct HostStateView {
    pub local_host_key: Seq<char>,
    pub status: HostStatusView,
    pub capabilities: Option<HostCapabilitiesView>,
    pub sessions: Seq<RemoteTmuxSessionView>,
    pub last_error_detail: Option<Seq<char>>,
}

pub open spec fn opt_string_view(o: Option<String>) -> Option<Seq<char>> {
    match o {
        Some(s) => Some(s@),
        None => None,
    }
}

impl View for HostState {
    type V = HostStateView;

    open spec fn view(&self) -> HostStateView {
        HostStateView {
            local_host_key: self.local_host_key@,
            status: self.status@,
            capabilities: match self.capabilities {
                Some(c) => Some(c@),
                None => None,
            },
            sessions: sessions_view(self.sessions@),
            last_error_detail: opt_string_view(self.last_error_detail),
        }
    }
}

pub fn clone_opt_string(o: &Option<String>) -> (r: Option<String>)
    ensures
        opt_string_view(r) == opt_string_view(*o),
{
    match o {
        Some(s) => Some(s.clone()),
        None => None,
    }
}

impl Clone for HostState {
    fn clone(&self) -> (r: Self)
        ensures
            r@ == self@,
    {
        HostState {
            local_host_key: self.local_host_key.clone(),
            status: self.status.clone(),
            capabilities: match &self.capabilities {
                Some(c) => Some(c.clone()),
                None => None,
            },
            sessions: clone_sessions(&self.sessions),
            last_error_detail: clone_opt_string(&self.last_error_detail),
        }
    }
}

} // verus!
