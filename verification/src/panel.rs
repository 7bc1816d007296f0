//! The decisions of the remote sessions panel: which rows it lists, what
//! each row says and offers, and what each panel action does.

use vstd::prelude::*;
use crate::text::{
    chars_of, decimal, decimal_chars, push_chars, string_from_chars, trim, trim_chars, words,
};
use crate::types::{
    sessions_view, HostState, HostStateView, HostStatus, HostStatusView, RemoteTmuxSessionView,
};
use crate::remote_hosts::{
    find_host, str_eq, strings_view, RemoteHost, RemoteHostView, RemoteSessionsSettings,
};
use crate::model::{state_of, RemoteSessionsModel};

verus! {

/// What the user did in the panel.
#[derive(Clone, Debug)]
pub enum RemoteSessionsPanelAction {
    Refresh,
    ConnectHost { key: String },
    DisconnectHost { key: String },
    ToggleHostExpanded { key: String },
    CreateDefaultSession { key: String },
    AttachSession { key: String, name: String },
    KillSession { key: String, name: String },
    OpenAddHostSettings,
    RequestRemoveHost { key: String },
    ConfirmRemoveHost,
    CancelRemoveHost,
}

// ---------------------------------------------------------------------------
// Session names
// ---------------------------------------------------------------------------

/// `session-N`.
pub open spec fn default_session_name(n: nat) -> Seq<char> {
    "session-"@ + decimal(n)
}

/// The name a new session gets: `session-N` for the smallest N from 1 whose
/// name is not taken (N below `u32::MAX`), or `session-1` when all are.
pub open spec fn next_name_spec(existing: Seq<Seq<char>>) -> Seq<char> {
    if exists|n: nat| 1 <= n < 0xffff_ffff && !existing.contains(#[trigger] default_session_name(n)) {
        let n = choose|n: nat|
            1 <= n < 0xffff_ffff && !existing.contains(#[trigger] default_session_name(n)) && forall|m: nat|
                1 <= m < n ==> existing.contains(#[trigger] default_session_name(m));
        default_session_name(n)
    } else {
        default_session_name(1)
    }
}

fn name_taken(existing: &[String], candidate: &String) -> (r: bool)
    ensures
        r == strings_view(existing@).contains(candidate@),
{
    let mut i: usize = 0;
    while i < existing.len()
        invariant
            i <= existing.len(),
            forall|j: int| 0 <= j < i ==> strings_view(existing@)[j] != candidate@,
        decreases existing.len() - i,
    {
        if str_eq(existing[i].as_str(), candidate.as_str()) {
            assert(strings_view(existing@)[i as int] == candidate@);
            return true;
        }
        i += 1;
    }
    proof {
        if strings_view(existing@).contains(candidate@) {
            let k = choose|k: int| 0 <= k < strings_view(existing@).len() && strings_view(existing@)[k] == candidate@;
            assert(strings_view(existing@)[k] != candidate@);
        }
    }
    false
}

fn make_default_name(n: u32) -> (r: String)
    ensures
        r@ == default_session_name(n as nat),
{
    let mut r = String::from_str("session-");
    let digits = decimal_chars(n as u64);
    push_chars(&mut r, &digits);
    r
}

/// The name for a new session among `existing` ones; see [`next_name_spec`].
pub fn next_default_session_name(existing: &[String]) -> (r: String)
    ensures
        r@ == next_name_spec(strings_view(existing@)),
{
    let ghost ex = strings_view(existing@);
    let mut i: u32 = 1;
    while i < u32::MAX
        invariant
            1 <= i <= u32::MAX,
            ex == strings_view(existing@),
            forall|m: nat| 1 <= m < i ==> ex.contains(#[trigger] default_session_name(m)),
        decreases u32::MAX - i,
    {
        let candidate = make_default_name(i);
        if !name_taken(existing, &candidate) {
            proof {
                let n = i as nat;
                assert(!ex.contains(default_session_name(n)));
                let c = choose|c: nat|
                    1 <= c < 0xffff_ffff && !ex.contains(#[trigger] default_session_name(c)) && forall|m: nat|
                        1 <= m < c ==> ex.contains(#[trigger] default_session_name(m));
                if c < n {
                    assert(ex.contains(default_session_name(c)));
                } else if c > n {
                    assert(ex.contains(default_session_name(n)));
                }
            }
            return candidate;
        }
        i += 1;
    }
    make_default_name(1)
}

// ---------------------------------------------------------------------------
// The list
// ---------------------------------------------------------------------------

/// One row of the panel's list.
#[derive(Clone, Debug)]
pub enum ListItem {
    Host(String),
    Session { host_key: String, session_index: usize },
    NewSessionRow { host_key: String },
}

pub enum ListItemView {
    Host(Seq<char>),
    Session { host_key: Seq<char>, session_index: usize },
    NewSessionRow { host_key: Seq<char> },
}

impl View for ListItem {
    type V = ListItemView;

    open spec fn view(&self) -> ListItemView {
        match self {
            ListItem::Host(k) => ListItemView::Host(k@),
            ListItem::Session { host_key, session_index } => ListItemView::Session {
                host_key: host_key@,
                session_index: *session_index,
            },
            ListItem::NewSessionRow { host_key } => ListItemView::NewSessionRow { host_key: host_key@ },
        }
    }
}

pub open spec fn items_view(v: Seq<ListItem>) -> Seq<ListItemView> {
    v.map_values(|i: ListItem| i@)
}

/// The rows under an expanded, connected host: one per session, then the
/// new-session row.
pub open spec fn session_rows(key: Seq<char>, count: nat) -> Seq<ListItemView>
    decreases count,
{
    if count == 0 {
        seq![ListItemView::NewSessionRow { host_key: key }]
    } else {
        session_rows(key, (count - 1) as nat).take(count - 1).push(
            ListItemView::Session { host_key: key, session_index: (count - 1) as usize },
        ).push(ListItemView::NewSessionRow { host_key: key })
    }
}

/// The rows of one host: its own row, then, when it is expanded and
/// connected, its sessions and the new-session row.
pub open spec fn host_rows(key: Seq<char>, expanded: Seq<Seq<char>>, states: Seq<HostStateView>) -> Seq<ListItemView> {
    seq![ListItemView::Host(key)] + if expanded.contains(key) && (state_of(states, key) matches Some(s)
        && s.status is Connected) {
        session_rows(key, state_of(states, key)->0.sessions.len())
    } else {
        Seq::<ListItemView>::empty()
    }
}

/// The panel's rows for the configured hosts, in their order.
pub open spec fn list_items_spec(keys: Seq<Seq<char>>, expanded: Seq<Seq<char>>, states: Seq<HostStateView>) -> Seq<ListItemView>
    decreases keys.len(),
{
    if keys.len() == 0 {
        Seq::<ListItemView>::empty()
    } else {
        list_items_spec(keys.drop_last(), expanded, states) + host_rows(keys.last(), expanded, states)
    }
}

fn contains_key(keys: &Vec<String>, key: &str) -> (r: bool)
    ensures
        r == strings_view(keys@).contains(key@),
{
    let mut i: usize = 0;
    while i < keys.len()
        invariant
            i <= keys.len(),
            forall|j: int| 0 <= j < i ==> strings_view(keys@)[j] != key@,
        decreases keys.len() - i,
    {
        if str_eq(keys[i].as_str(), key) {
            assert(strings_view(keys@)[i as int] == key@);
            return true;
        }
        i += 1;
    }
    proof {
        if strings_view(keys@).contains(key@) {
            let k = choose|k: int| 0 <= k < strings_view(keys@).len() && strings_view(keys@)[k] == key@;
            assert(strings_view(keys@)[k] != key@);
        }
    }
    false
}

proof fn lemma_session_rows(key: Seq<char>, count: nat)
    ensures
        session_rows(key, count).len() == count + 1,
        forall|j: int| 0 <= j < count ==> #[trigger] session_rows(key, count)[j] == (ListItemView::Session {
            host_key: key,
            session_index: j as usize,
        }),
        session_rows(key, count)[count as int] == (ListItemView::NewSessionRow { host_key: key }),
    decreases count,
{
    if count > 0 {
        lemma_session_rows(key, (count - 1) as nat);
    }
}

pub open spec fn host_keys_of(hosts: Seq<RemoteHost>) -> Seq<Seq<char>> {
    hosts.map_values(|h: RemoteHost| h.local_host_key@)
}

/// The panel's rows; see [`list_items_spec`].
pub fn build_list_items(
    hosts: &[RemoteHost],
    expanded: &Vec<String>,
    model: &RemoteSessionsModel,
) -> (r: Vec<ListItem>)
    ensures
        items_view(r@) == list_items_spec(host_keys_of(hosts@), strings_view(expanded@), model@.hosts),
{
    let ghost keys = host_keys_of(hosts@);
    let ghost ex = strings_view(expanded@);
    let mut items: Vec<ListItem> = Vec::new();
    let mut i: usize = 0;
    while i < hosts.len()
        invariant
            i <= hosts.len(),
            keys == host_keys_of(hosts@),
            ex == strings_view(expanded@),
            items_view(items@) == list_items_spec(keys.take(i as int), ex, model@.hosts),
        decreases hosts.len() - i,
    {
        let key = &hosts[i].local_host_key;
        assert(keys.take(i + 1).drop_last() =~= keys.take(i as int));
        assert(keys.take(i + 1).last() == key@);
        let ghost before = items_view(items@);
        items.push(ListItem::Host(key.clone()));
        let mut extra = false;
        if contains_key(expanded, key.as_str()) {
            match model.host_state(key.as_str()) {
                Some(state) => {
                    match state.status {
                        HostStatus::Connected => {
                            extra = true;
                            let n = state.sessions.len();
                            let mut idx: usize = 0;
                            while idx < n
                                invariant
                                    idx <= n,
                                    n == state@.sessions.len(),
                                    items_view(items@) == before + seq![ListItemView::Host(key@)] + session_rows(key@, n as nat).take(idx as int),
                                decreases n - idx,
                            {
                                proof {
                                    lemma_session_rows(key@, n as nat);
                                }
                                let ghost prev = items_view(items@);
                                items.push(ListItem::Session { host_key: key.clone(), session_index: idx });
                                assert(items_view(items@) =~= prev.push(ListItemView::Session { host_key: key@, session_index: idx }));
                                assert(session_rows(key@, n as nat).take(idx + 1) =~= session_rows(key@, n as nat).take(idx as int).push(
                                    ListItemView::Session { host_key: key@, session_index: idx },
                                ));
                                idx += 1;
                            }
                            proof {
                                lemma_session_rows(key@, n as nat);
                            }
                            let ghost prev = items_view(items@);
                            items.push(ListItem::NewSessionRow { host_key: key.clone() });
                            assert(items_view(items@) =~= prev.push(ListItemView::NewSessionRow { host_key: key@ }));
                            assert(session_rows(key@, n as nat) =~= session_rows(key@, n as nat).take(n as int).push(
                                ListItemView::NewSessionRow { host_key: key@ },
                            ));
                            assert(items_view(items@) =~= before + host_rows(key@, ex, model@.hosts));
                        },
                        _ => {},
                    }
                },
                None => {},
            }
        }
        if !extra {
            assert(items_view(items@) =~= before + host_rows(key@, ex, model@.hosts));
        }
        i += 1;
    }
    assert(keys.take(hosts.len() as int) =~= keys);
    items
}

// ---------------------------------------------------------------------------
// Host rows
// ---------------------------------------------------------------------------

/// How a host is shown: `host`, or `host:port` when the port is not 22.
pub open spec fn host_target_spec(h: RemoteHostView) -> Seq<char> {
    if h.port == 22 {
        h.host
    } else {
        h.host + seq![':'] + decimal(h.port as nat)
    }
}

pub fn host_target(host: &RemoteHost) -> (r: String)
    ensures
        r@ == host_target_spec(host@),
{
    if host.port == 22 {
        host.host.clone()
    } else {
        let mut r = host.host.clone();
        crate::text::push_char(&mut r, ':');
        let digits = decimal_chars(host.port as u64);
        push_chars(&mut r, &digits);
        r
    }
}

/// The number of sessions with at least one client attached.
pub open spec fn attached_sessions(sessions: Seq<RemoteTmuxSessionView>) -> nat
    decreases sessions.len(),
{
    if sessions.len() == 0 {
        0
    } else {
        attached_sessions(sessions.drop_last()) + if sessions.last().attached_count > 0 {
            1nat
        } else {
            0nat
        }
    }
}

proof fn lemma_attached_at_most(sessions: Seq<RemoteTmuxSessionView>)
    ensures
        attached_sessions(sessions) <= sessions.len(),
    decreases sessions.len(),
{
    if sessions.len() > 0 {
        lemma_attached_at_most(sessions.drop_last());
    }
}

/// The second line of a host row: the target, then what the host is doing.
pub open spec fn subtitle_spec(state: HostStateView, target: Seq<char>) -> Seq<char> {
    match state.status {
        HostStatusView::Disconnected => target,
        HostStatusView::Connecting => target + " · connecting…"@,
        HostStatusView::Connected => target + " · "@ + decimal(attached_sessions(state.sessions)) + "/"@
            + decimal(state.sessions.len()) + " attached"@ + match state.capabilities {
            Some(c) => " · tmux "@ + c.tmux_version,
            None => Seq::<char>::empty(),
        },
        HostStatusView::Error(_) => target + " · error"@,
        HostStatusView::Unsupported(msg) => target + " · unsupported: "@ + msg,
    }
}

pub fn subtitle_summary(state: &HostState, host_target: &str) -> (r: String)
    ensures
        r@ == subtitle_spec(state@, host_target@),
{
    let mut r = String::from_str(host_target);
    match &state.status {
        HostStatus::Disconnected => {},
        HostStatus::Connecting => {
            r.append(" · connecting…");
        },
        HostStatus::Connected => {
            let total = state.sessions.len();
            let mut attached: u64 = 0;
            let mut i: usize = 0;
            while i < total
                invariant
                    i <= total == state.sessions.len(),
                    attached == attached_sessions(sessions_view(state.sessions@).take(i as int)),
                    attached <= i,
                decreases total - i,
            {
                let ghost sv = sessions_view(state.sessions@);
                assert(sv.take(i + 1).drop_last() =~= sv.take(i as int));
                assert(sv.take(i + 1).last() == state.sessions@[i as int]@);
                if state.sessions[i].attached_count > 0 {
                    attached = attached + 1;
                }
                i += 1;
            }
            assert(sessions_view(state.sessions@).take(total as int) =~= sessions_view(state.sessions@));
            r.append(" · ");
            push_chars(&mut r, &decimal_chars(attached));
            r.append("/");
            push_chars(&mut r, &decimal_chars(total as u64));
            r.append(" attached");
            match &state.capabilities {
                Some(c) => {
                    r.append(" · tmux ");
                    r.append(c.tmux_version.as_str());
                },
                None => {},
            }
        },
        HostStatus::Error(_) => {
            r.append(" · error");
        },
        HostStatus::Unsupported(msg) => {
            r.append(" · unsupported: ");
            r.append(msg.as_str());
        },
    }
    r
}

/// The error detail a host row shows: the last error, only while the host
/// is in error.
pub fn error_detail_shown(state: &HostState) -> (r: Option<String>)
    ensures
        match r {
            Some(d) => state@.status is Error && state@.last_error_detail == Some(d@),
            None => !(state@.status is Error) || state@.last_error_detail is None,
        },
{
    match state.status {
        HostStatus::Error(_) => match &state.last_error_detail {
            Some(d) => Some(d.clone()),
            None => None,
        },
        _ => None,
    }
}

/// A control at the end of a host row.
#[derive(Clone, Copy, Debug, PartialEq, Eq, Structural)]
pub enum HostRowControl {
    /// Disconnect the host.
    Disconnect,
    /// Ask to remove the host.
    Remove,
    /// The expand chevron, pointing down when expanded.
    Chevron { expanded: bool },
    /// The "Connect" label.
    ConnectLabel,
    /// The ellipsis shown while connecting.
    Progress,
    /// Retry the connection.
    Retry,
}

/// The controls at the end of a host row, left to right.
pub open spec fn row_controls_spec(status: HostStatusView, expanded: bool, hovered: bool) -> Seq<HostRowControl> {
    match status {
        HostStatusView::Connected => (if hovered {
            seq![HostRowControl::Disconnect, HostRowControl::Remove]
        } else {
            Seq::<HostRowControl>::empty()
        }) + seq![HostRowControl::Chevron { expanded }],
        HostStatusView::Disconnected => (if hovered {
            seq![HostRowControl::Remove]
        } else {
            Seq::<HostRowControl>::empty()
        }) + seq![HostRowControl::ConnectLabel],
        HostStatusView::Connecting => seq![HostRowControl::Progress],
        HostStatusView::Error(_) => seq![HostRowControl::Retry] + if hovered {
            seq![HostRowControl::Remove]
        } else {
            Seq::<HostRowControl>::empty()
        },
        HostStatusView::Unsupported(_) => if hovered {
            seq![HostRowControl::Remove]
        } else {
            Seq::<HostRowControl>::empty()
        },
    }
}

pub fn host_row_controls(status: &HostStatus, expanded: bool, hovered: bool) -> (r: Vec<HostRowControl>)
    ensures
        r@ == row_controls_spec(status@, expanded, hovered),
{
    let mut v: Vec<HostRowControl> = Vec::new();
    match status {
        HostStatus::Connected => {
            if hovered {
                v.push(HostRowControl::Disconnect);
                v.push(HostRowControl::Remove);
            }
            v.push(HostRowControl::Chevron { expanded });
        },
        HostStatus::Disconnected => {
            if hovered {
                v.push(HostRowControl::Remove);
            }
            v.push(HostRowControl::ConnectLabel);
        },
        HostStatus::Connecting => {
            v.push(HostRowControl::Progress);
        },
        HostStatus::Error(_) => {
            v.push(HostRowControl::Retry);
            if hovered {
                v.push(HostRowControl::Remove);
            }
        },
        HostStatus::Unsupported(_) => {
            if hovered {
                v.push(HostRowControl::Remove);
            }
        },
    }
    assert(v@ =~= row_controls_spec(status@, expanded, hovered));
    v
}

/// What clicking a host row does: expand or collapse a connected host,
/// connect a disconnected one, nothing otherwise.
pub fn host_row_click(status: &HostStatus, key: &str) -> (r: Option<RemoteSessionsPanelAction>)
    ensures
        match status@ {
            HostStatusView::Connected => r matches Some(RemoteSessionsPanelAction::ToggleHostExpanded { key: k }) && k@ == key@,
            HostStatusView::Disconnected => r matches Some(RemoteSessionsPanelAction::ConnectHost { key: k }) && k@ == key@,
            _ => r is None,
        },
{
    match status {
        HostStatus::Connected => Some(RemoteSessionsPanelAction::ToggleHostExpanded { key: String::from_str(key) }),
        HostStatus::Disconnected => Some(RemoteSessionsPanelAction::ConnectHost { key: String::from_str(key) }),
        _ => None,
    }
}

// ---------------------------------------------------------------------------
// Session rows
// ---------------------------------------------------------------------------

/// The second line of a session row: the running command (or "(no
/// command)"), then whether clients are attached.
pub open spec fn session_subtitle_spec(current_command: Seq<char>, is_attached: bool, attached_count: u32) -> Seq<char> {
    let trimmed = trim(current_command);
    let suffix = if is_attached {
        if attached_count == 1 {
            " · live"@
        } else {
            " · "@ + decimal(attached_count as nat) + "× live"@
        }
    } else {
        " · idle"@
    };
    if trimmed.len() == 0 {
        "(no command)"@ + suffix
    } else {
        trimmed + suffix
    }
}

pub fn format_subtitle(current_command: &str, is_attached: bool, attached_count: u32) -> (r: String)
    ensures
        r@ == session_subtitle_spec(current_command@, is_attached, attached_count),
{
    let trimmed = trim_chars(&chars_of(current_command));
    let mut suffix = String::new();
    if is_attached {
        if attached_count == 1 {
            suffix.append(" · live");
        } else {
            suffix.append(" · ");
            push_chars(&mut suffix, &decimal_chars(attached_count as u64));
            suffix.append("× live");
        }
    } else {
        suffix.append(" · idle");
    }
    let mut r = if trimmed.len() == 0 {
        String::from_str("(no command)")
    } else {
        string_from_chars(&trimmed)
    };
    r.append(suffix.as_str());
    r
}

/// The text after the last `/`, or all of it when there is none.
pub open spec fn after_last_slash(s: Seq<char>) -> Seq<char>
    decreases s.len(),
{
    if s.len() == 0 {
        s
    } else if s.last() == '/' {
        Seq::<char>::empty()
    } else {
        after_last_slash(s.drop_last()).push(s.last())
    }
}

/// The program a session runs: the base name of the first word of its
/// command; nothing for a blank command.
pub open spec fn command_basename_spec(current_command: Seq<char>) -> Option<Seq<char>> {
    let cmd = trim(current_command);
    if cmd.len() == 0 {
        None
    } else {
        Some(
            after_last_slash(
                if words(cmd).len() > 0 {
                    words(cmd)[0]
                } else {
                    Seq::<char>::empty()
                },
            ),
        )
    }
}

pub fn command_basename(current_command: &str) -> (r: Option<String>)
    ensures
        match command_basename_spec(current_command@) {
            Some(b) => r matches Some(x) && x@ == b,
            None => r is None,
        },
{
    let cmd = trim_chars(&chars_of(current_command));
    if cmd.len() == 0 {
        return None;
    }
    let (first, _second) = crate::text::first_two_words(&cmd);
    let token = match first {
        Some(t) => t,
        None => Vec::new(),
    };
    assert(token@ == if words(cmd@).len() > 0 {
        words(cmd@)[0]
    } else {
        Seq::<char>::empty()
    });
    let mut start: usize = 0;
    let mut i: usize = 0;
    while i < token.len()
        invariant
            start <= i <= token.len(),
            after_last_slash(token@.take(i as int)) == token@.subrange(start as int, i as int),
        decreases token.len() - i,
    {
        assert(token@.take(i + 1).drop_last() =~= token@.take(i as int));
        if token[i] == '/' {
            start = i + 1;
            assert(token@.subrange(start as int, i + 1) =~= Seq::<char>::empty());
        } else {
            assert(token@.subrange(start as int, i + 1) =~= token@.subrange(start as int, i as int).push(token@[i as int]));
        }
        i += 1;
    }
    assert(token@.take(token.len() as int) =~= token@);
    Some(crate::text::slice_string(&token, start, token.len()))
}

/// The first agent, among those known by their command prefixes, whose
/// non-empty prefix is the session's program.
pub open spec fn detect_agent_spec(current_command: Seq<char>, prefixes: Seq<Seq<char>>) -> Option<int> {
    match command_basename_spec(current_command) {
        None => None,
        Some(b) => if exists|i: int| 0 <= i < prefixes.len() && prefixes[i].len() > 0 && prefixes[i] == b {
            Some(choose|i: int| 0 <= i < prefixes.len() && prefixes[i].len() > 0 && prefixes[i] == b && forall|j: int|
                0 <= j < i ==> !(prefixes[j].len() > 0 && prefixes[j] == b))
        } else {
            None
        },
    }
}

/// The position in `prefixes` of the agent a session runs; see
/// [`detect_agent_spec`].
pub fn detect_cli_agent(current_command: &str, prefixes: &[String]) -> (r: Option<usize>)
    ensures
        match detect_agent_spec(current_command@, strings_view(prefixes@)) {
            Some(i) => r == Some(i as usize),
            None => r is None,
        },
{
    let ghost ps = strings_view(prefixes@);
    let base = match command_basename(current_command) {
        Some(b) => b,
        None => return None,
    };
    let mut i: usize = 0;
    while i < prefixes.len()
        invariant
            i <= prefixes.len(),
            ps == strings_view(prefixes@),
            command_basename_spec(current_command@) == Some(base@),
            forall|j: int| 0 <= j < i ==> !(ps[j].len() > 0 && ps[j] == base@),
        decreases prefixes.len() - i,
    {
        assert(ps[i as int] == prefixes@[i as int]@);
        if prefixes[i].as_str().unicode_len() > 0 && str_eq(prefixes[i].as_str(), base.as_str()) {
            proof {
                let c = choose|c: int| 0 <= c < ps.len() && ps[c].len() > 0 && ps[c] == base@ && forall|j: int|
                    0 <= j < c ==> !(ps[j].len() > 0 && ps[j] == base@);
                if c < i {
                } else if c > i {
                    assert(ps[i as int].len() > 0 && ps[i as int] == base@);
                }
            }
            return Some(i);
        }
        i += 1;
    }
    None
}

// ---------------------------------------------------------------------------
// Panel actions
// ---------------------------------------------------------------------------

/// What the panel asks its surroundings to do, in order.
#[derive(Clone, Debug)]
pub enum PanelEffect {
    /// Take the configured hosts into the model.
    IngestSettings,
    /// Rebuild the list of rows.
    RebuildList,
    /// Redraw.
    Notify,
    /// Connect to a configured host.
    Connect { key: String },
    /// Disconnect a host.
    Disconnect { key: String },
    /// Create a session on a host.
    CreateSession { key: String, name: String },
    /// Kill a session on a host.
    KillSession { key: String, name: String },
    /// Open a tab attached to a session.
    OpenAttachTab { key: String, name: String },
    /// Close the tabs attached to a session.
    CloseAttachTab { key: String, name: String },
    /// Show the settings page where hosts are added.
    ShowHostSettings,
    /// Remove a host from the settings.
    RemoveHost { key: String },
}

pub enum PanelEffectView {
    IngestSettings,
    RebuildList,
    Notify,
    Connect { key: Seq<char> },
    Disconnect { key: Seq<char> },
    CreateSession { key: Seq<char>, name: Seq<char> },
    KillSession { key: Seq<char>, name: Seq<char> },
    OpenAttachTab { key: Seq<char>, name: Seq<char> },
    CloseAttachTab { key: Seq<char>, name: Seq<char> },
    ShowHostSettings,
    RemoveHost { key: Seq<char> },
}

impl View for PanelEffect {
    type V = PanelEffectView;

    open spec fn view(&self) -> PanelEffectView {
        match self {
            PanelEffect::IngestSettings => PanelEffectView::IngestSettings,
            PanelEffect::RebuildList => PanelEffectView::RebuildList,
            PanelEffect::Notify => PanelEffectView::Notify,
            PanelEffect::Connect { key } => PanelEffectView::Connect { key: key@ },
            PanelEffect::Disconnect { key } => PanelEffectView::Disconnect { key: key@ },
            PanelEffect::CreateSession { key, name } => PanelEffectView::CreateSession { key: key@, name: name@ },
            PanelEffect::KillSession { key, name } => PanelEffectView::KillSession { key: key@, name: name@ },
            PanelEffect::OpenAttachTab { key, name } => PanelEffectView::OpenAttachTab { key: key@, name: name@ },
            PanelEffect::CloseAttachTab { key, name } => PanelEffectView::CloseAttachTab { key: key@, name: name@ },
            PanelEffect::ShowHostSettings => PanelEffectView::ShowHostSettings,
            PanelEffect::RemoveHost { key } => PanelEffectView::RemoveHost { key: key@ },
        }
    }
}

pub open spec fn effects_view(v: Seq<PanelEffect>) -> Seq<PanelEffectView> {
    v.map_values(|e: PanelEffect| e@)
}

/// The panel's own state: the hosts shown expanded, and the host whose
/// removal waits for confirmation.
pub struct PanelState {
    expanded_hosts: Vec<String>,
    pending_remove: Option<String>,
}

pub struct PanelStateView {
    pub expanded: Set<Seq<char>>,
    pub pending_remove: Option<Seq<char>>,
}

impl View for PanelState {
    type V = PanelStateView;

    closed spec fn view(&self) -> PanelStateView {
        PanelStateView {
            expanded: strings_view(self.expanded_hosts@).to_set(),
            pending_remove: match self.pending_remove {
                Some(k) => Some(k@),
                None => None,
            },
        }
    }
}

/// The names of a host's sessions, as the model knows them.
pub open spec fn session_names(states: Seq<HostStateView>, key: Seq<char>) -> Seq<Seq<char>> {
    match state_of(states, key) {
        Some(s) => s.sessions.map_values(|x: RemoteTmuxSessionView| x.name),
        None => Seq::<Seq<char>>::empty(),
    }
}

/// The state after an action and the effects it asks for.
pub open spec fn panel_step(
    s: PanelStateView,
    action: RemoteSessionsPanelActionView,
    configured: Seq<RemoteHostView>,
    states: Seq<HostStateView>,
) -> (PanelStateView, Seq<PanelEffectView>) {
    match action {
        RemoteSessionsPanelActionView::Refresh => (
            s,
            seq![PanelEffectView::IngestSettings, PanelEffectView::RebuildList, PanelEffectView::Notify],
        ),
        RemoteSessionsPanelActionView::ConnectHost { key } => if find_host(configured, key) is Some {
            (s, seq![PanelEffectView::Connect { key }])
        } else {
            (s, Seq::<PanelEffectView>::empty())
        },
        RemoteSessionsPanelActionView::ToggleHostExpanded { key } => (
            PanelStateView {
                expanded: if s.expanded.contains(key) {
                    s.expanded.remove(key)
                } else {
                    s.expanded.insert(key)
                },
                ..s
            },
            seq![PanelEffectView::RebuildList, PanelEffectView::Notify],
        ),
        RemoteSessionsPanelActionView::CreateDefaultSession { key } => (
            s,
            seq![
                PanelEffectView::CreateSession { key, name: next_name_spec(session_names(states, key)) },
                PanelEffectView::RebuildList,
                PanelEffectView::Notify,
            ],
        ),
        RemoteSessionsPanelActionView::AttachSession { key, name } => (s, seq![PanelEffectView::OpenAttachTab { key, name }]),
        RemoteSessionsPanelActionView::KillSession { key, name } => (
            s,
            seq![PanelEffectView::KillSession { key, name }, PanelEffectView::CloseAttachTab { key, name }],
        ),
        RemoteSessionsPanelActionView::OpenAddHostSettings => (s, seq![PanelEffectView::ShowHostSettings]),
        RemoteSessionsPanelActionView::DisconnectHost { key } => (s, seq![PanelEffectView::Disconnect { key }]),
        RemoteSessionsPanelActionView::RequestRemoveHost { key } => (
            PanelStateView { pending_remove: Some(key), ..s },
            seq![PanelEffectView::Notify],
        ),
        RemoteSessionsPanelActionView::CancelRemoveHost => (
            PanelStateView { pending_remove: None, ..s },
            seq![PanelEffectView::Notify],
        ),
        RemoteSessionsPanelActionView::ConfirmRemoveHost => match s.pending_remove {
            Some(key) => (
                PanelStateView { pending_remove: None, ..s },
                seq![PanelEffectView::Disconnect { key }, PanelEffectView::RemoveHost { key }, PanelEffectView::Notify],
            ),
            None => (s, seq![PanelEffectView::Notify]),
        },
    }
}

/// Clicking Disconnect on a host always asks for that host's connection to
/// be dropped, and nothing else, whatever the panel, the configured hosts
/// and the hosts' states are; the panel itself does not change.
pub proof fn lemma_disconnect_asks_disconnect(
    s: PanelStateView,
    key: Seq<char>,
    configured: Seq<RemoteHostView>,
    states: Seq<HostStateView>,
)
    ensures
        panel_step(s, RemoteSessionsPanelActionView::DisconnectHost { key }, configured, states) == (
            s,
            seq![PanelEffectView::Disconnect { key }],
        ),
{
}

/// Attaching to a session opens a tab on exactly that session, and killing
/// a session kills it and closes its tab; neither changes the panel.
pub proof fn lemma_session_actions(
    s: PanelStateView,
    key: Seq<char>,
    name: Seq<char>,
    configured: Seq<RemoteHostView>,
    states: Seq<HostStateView>,
)
    ensures
        panel_step(s, RemoteSessionsPanelActionView::AttachSession { key, name }, configured, states) == (
            s,
            seq![PanelEffectView::OpenAttachTab { key, name }],
        ),
        panel_step(s, RemoteSessionsPanelActionView::KillSession { key, name }, configured, states) == (
            s,
            seq![PanelEffectView::KillSession { key, name }, PanelEffectView::CloseAttachTab { key, name }],
        ),
{
}

/// Connecting asks for a connection to a configured host, and to nothing
/// else; a key that no configured host has asks for nothing.
pub proof fn lemma_connect_configured_only(
    s: PanelStateView,
    key: Seq<char>,
    configured: Seq<RemoteHostView>,
    states: Seq<HostStateView>,
)
    ensures
        panel_step(s, RemoteSessionsPanelActionView::ConnectHost { key }, configured, states) == (
            s,
            if find_host(configured, key) is Some {
                seq![PanelEffectView::Connect { key }]
            } else {
                Seq::<PanelEffectView>::empty()
            },
        ),
{
}

/// Expanding a host and then toggling it again leaves the panel as it was.
pub proof fn lemma_toggle_twice(
    s: PanelStateView,
    key: Seq<char>,
    configured: Seq<RemoteHostView>,
    states: Seq<HostStateView>,
)
    ensures
        panel_step(
            panel_step(s, RemoteSessionsPanelActionView::ToggleHostExpanded { key }, configured, states).0,
            RemoteSessionsPanelActionView::ToggleHostExpanded { key },
            configured,
            states,
        ).0 == s,
{
    let a = RemoteSessionsPanelActionView::ToggleHostExpanded { key };
    let s1 = panel_step(s, a, configured, states).0;
    let s2 = panel_step(s1, a, configured, states).0;
    if s.expanded.contains(key) {
        assert(s1.expanded =~= s.expanded.remove(key));
        assert(s2.expanded =~= s.expanded);
    } else {
        assert(s1.expanded =~= s.expanded.insert(key));
        assert(s2.expanded =~= s.expanded);
    }
}

/// A removal asked for and then confirmed disconnects and removes that host,
/// and leaves nothing waiting for confirmation.
pub proof fn lemma_request_then_confirm(
    s: PanelStateView,
    key: Seq<char>,
    configured: Seq<RemoteHostView>,
    states: Seq<HostStateView>,
)
    ensures
        ({
            let s1 = panel_step(s, RemoteSessionsPanelActionView::RequestRemoveHost { key }, configured, states).0;
            panel_step(s1, RemoteSessionsPanelActionView::ConfirmRemoveHost, configured, states) == (
                PanelStateView { pending_remove: None, ..s },
                seq![PanelEffectView::Disconnect { key }, PanelEffectView::RemoveHost { key }, PanelEffectView::Notify],
            )
        }),
{
}

/// A removal asked for and then cancelled removes nothing and leaves nothing
/// waiting for confirmation.
pub proof fn lemma_request_then_cancel(
    s: PanelStateView,
    key: Seq<char>,
    configured: Seq<RemoteHostView>,
    states: Seq<HostStateView>,
)
    ensures
        ({
            let s1 = panel_step(s, RemoteSessionsPanelActionView::RequestRemoveHost { key }, configured, states).0;
            panel_step(s1, RemoteSessionsPanelActionView::CancelRemoveHost, configured, states) == (
                PanelStateView { pending_remove: None, ..s },
                seq![PanelEffectView::Notify],
            )
        }),
{
}

pub enum RemoteSessionsPanelActionView {
    Refresh,
    ConnectHost { key: Seq<char> },
    DisconnectHost { key: Seq<char> },
    ToggleHostExpanded { key: Seq<char> },
    CreateDefaultSession { key: Seq<char> },
    AttachSession { key: Seq<char>, name: Seq<char> },
    KillSession { key: Seq<char>, name: Seq<char> },
    OpenAddHostSettings,
    RequestRemoveHost { key: Seq<char> },
    ConfirmRemoveHost,
    CancelRemoveHost,
}

impl View for RemoteSessionsPanelAction {
    type V = RemoteSessionsPanelActionView;

    open spec fn view(&self) -> RemoteSessionsPanelActionView {
        match self {
            RemoteSessionsPanelAction::Refresh => RemoteSessionsPanelActionView::Refresh,
            RemoteSessionsPanelAction::ConnectHost { key } => RemoteSessionsPanelActionView::ConnectHost { key: key@ },
            RemoteSessionsPanelAction::DisconnectHost { key } => RemoteSessionsPanelActionView::DisconnectHost { key: key@ },
            RemoteSessionsPanelAction::ToggleHostExpanded { key } => RemoteSessionsPanelActionView::ToggleHostExpanded { key: key@ },
            RemoteSessionsPanelAction::CreateDefaultSession { key } => RemoteSessionsPanelActionView::CreateDefaultSession { key: key@ },
            RemoteSessionsPanelAction::AttachSession { key, name } => RemoteSessionsPanelActionView::AttachSession {
                key: key@,
                name: name@,
            },
            RemoteSessionsPanelAction::KillSession { key, name } => RemoteSessionsPanelActionView::KillSession {
                key: key@,
                name: name@,
            },
            RemoteSessionsPanelAction::OpenAddHostSettings => RemoteSessionsPanelActionView::OpenAddHostSettings,
            RemoteSessionsPanelAction::RequestRemoveHost { key } => RemoteSessionsPanelActionView::RequestRemoveHost { key: key@ },
            RemoteSessionsPanelAction::ConfirmRemoveHost => RemoteSessionsPanelActionView::ConfirmRemoveHost,
            RemoteSessionsPanelAction::CancelRemoveHost => RemoteSessionsPanelActionView::CancelRemoveHost,
        }
    }
}

fn session_name_list(model: &RemoteSessionsModel, key: &str) -> (r: Vec<String>)
    ensures
        strings_view(r@) == session_names(model@.hosts, key@),
{
    let mut names: Vec<String> = Vec::new();
    match model.host_state(key) {
        Some(st) => {
            let ghost sv = st@.sessions;
            let mut i: usize = 0;
            while i < st.sessions.len()
                invariant
                    i <= st.sessions.len(),
                    sv == st@.sessions,
                    sv.len() == st.sessions.len(),
                    strings_view(names@) == sv.take(i as int).map_values(|x: RemoteTmuxSessionView| x.name),
                decreases st.sessions.len() - i,
            {
                assert(sv[i as int] == st.sessions@[i as int]@);
                let n = st.sessions[i].name.clone();
                let ghost old_names = names@;
                names.push(n);
                assert(sv.take(i + 1) =~= sv.take(i as int).push(sv[i as int]));
                assert(strings_view(names@) =~= strings_view(old_names).push(sv[i as int].name));
                assert(sv.take(i + 1).map_values(|x: RemoteTmuxSessionView| x.name) =~= sv.take(i as int).map_values(
                    |x: RemoteTmuxSessionView| x.name,
                ).push(sv[i as int].name));
                i += 1;
            }
            assert(sv.take(st.sessions.len() as int) =~= sv);
        },
        None => {
            assert(strings_view(names@) =~= Seq::<Seq<char>>::empty());
        },
    }
    names
}

impl PanelState {
    /// No host expanded, nothing waiting for confirmation.
    pub fn new() -> (r: Self)
        ensures
            r@.expanded == Set::<Seq<char>>::empty(),
            r@.pending_remove is None,
    {
        let r = PanelState { expanded_hosts: Vec::new(), pending_remove: None };
        assert(r@.expanded =~= Set::<Seq<char>>::empty());
        r
    }

    /// The hosts shown expanded.
    pub fn expanded_hosts(&self) -> (r: &Vec<String>)
        ensures
            strings_view(r@).to_set() == self@.expanded,
    {
        &self.expanded_hosts
    }

    /// The host whose removal waits for confirmation.
    pub fn pending_remove(&self) -> (r: Option<&String>)
        ensures
            match r {
                Some(k) => self@.pending_remove == Some(k@),
                None => self@.pending_remove is None,
            },
    {
        match &self.pending_remove {
            Some(k) => Some(k),
            None => None,
        }
    }

    /// Forgets a pending removal whose host is no longer configured.
    pub fn forget_removed_host(&mut self, hosts: &[RemoteHost])
        ensures
            final(self)@.expanded == old(self)@.expanded,
            final(self)@.pending_remove == match old(self)@.pending_remove {
                Some(k) => if host_keys_of(hosts@).contains(k) {
                    Some(k)
                } else {
                    None
                },
                None => None,
            },
    {
        let keep = match &self.pending_remove {
            Some(k) => {
                let mut found = false;
                let mut i: usize = 0;
                while i < hosts.len()
                    invariant
                        i <= hosts.len(),
                        found == exists|j: int| 0 <= j < i && host_keys_of(hosts@)[j] == k@,
                    decreases hosts.len() - i,
                {
                    if str_eq(hosts[i].local_host_key.as_str(), k.as_str()) {
                        found = true;
                        assert(host_keys_of(hosts@)[i as int] == k@);
                    }
                    i += 1;
                }
                found
            },
            None => true,
        };
        if !keep {
            self.pending_remove = None;
        }
    }

    fn toggle(&mut self, key: &String)
        ensures
            final(self)@.pending_remove == old(self)@.pending_remove,
            final(self)@.expanded == if old(self)@.expanded.contains(key@) {
                old(self)@.expanded.remove(key@)
            } else {
                old(self)@.expanded.insert(key@)
            },
    {
        let ghost old_set = self@.expanded;
        let ghost old_v = strings_view(self.expanded_hosts@);
        let present = contains_key(&self.expanded_hosts, key.as_str());
        assert(present == old_set.contains(key@));
        if present {
            let mut kept: Vec<String> = Vec::new();
            let mut i: usize = 0;
            while i < self.expanded_hosts.len()
                invariant
                    i <= self.expanded_hosts.len(),
                    old_v == strings_view(self.expanded_hosts@),
                    forall|k: Seq<char>|
                        #[trigger] strings_view(kept@).contains(k) <==> (old_v.take(i as int).contains(k) && k != key@),
                decreases self.expanded_hosts.len() - i,
            {
                let ghost t = old_v.take(i as int);
                let ghost t1 = old_v.take(i + 1);
                assert(t1 =~= t.push(old_v[i as int]));
                assert(old_v[i as int] == self.expanded_hosts@[i as int]@);
                let ghost old_kept = strings_view(kept@);
                if !str_eq(self.expanded_hosts[i].as_str(), key.as_str()) {
                    kept.push(self.expanded_hosts[i].clone());
                    assert(strings_view(kept@) =~= old_kept.push(old_v[i as int]));
                }
                assert forall|k: Seq<char>| #[trigger] strings_view(kept@).contains(k) <==> (t1.contains(k) && k != key@) by {
                    let kv = strings_view(kept@);
                    if t1.contains(k) && !t.contains(k) {
                        let w = choose|w: int| 0 <= w < t1.len() && t1[w] == k;
                        if w < i {
                            assert(t[w] == k);
                        }
                    }
                    if t.contains(k) {
                        let w = choose|w: int| 0 <= w < t.len() && t[w] == k;
                        assert(t1[w] == k);
                    }
                    if k == old_v[i as int] {
                        assert(t1[i as int] == k);
                    }
                    if kv.contains(k) && !old_kept.contains(k) {
                        let w = choose|w: int| 0 <= w < kv.len() && kv[w] == k;
                        assert(w == old_kept.len());
                    }
                    if old_kept.contains(k) {
                        let w = choose|w: int| 0 <= w < old_kept.len() && old_kept[w] == k;
                        assert(kv[w] == k);
                    }
                    if kv.len() > old_kept.len() {
                        assert(kv[old_kept.len() as int] == old_v[i as int]);
                    }
                }
                i += 1;
            }
            assert(old_v.take(self.expanded_hosts.len() as int) =~= old_v);
            self.expanded_hosts = kept;
            assert(self@.expanded =~= old_set.remove(key@));
        } else {
            let ghost before = strings_view(self.expanded_hosts@);
            self.expanded_hosts.push(key.clone());
            let ghost after = strings_view(self.expanded_hosts@);
            assert(after =~= before.push(key@));
            assert forall|k: Seq<char>| #[trigger] after.contains(k) <==> old_set.insert(key@).contains(k) by {
                if before.contains(k) {
                    let w = choose|w: int| 0 <= w < before.len() && before[w] == k;
                    assert(after[w] == k);
                }
                if after.contains(k) && k != key@ {
                    let w = choose|w: int| 0 <= w < after.len() && after[w] == k;
                    assert(before[w] == k);
                }
                if k == key@ {
                    assert(after[before.len() as int] == k);
                }
            }
            assert(self@.expanded =~= old_set.insert(key@));
        }
    }

    /// Takes in an action; see [`panel_step`].
    pub fn handle_action(
        &mut self,
        action: &RemoteSessionsPanelAction,
        settings: &RemoteSessionsSettings,
        model: &RemoteSessionsModel,
    ) -> (effects: Vec<PanelEffect>)
        ensures
            (final(self)@, effects_view(effects@)) == panel_step(old(self)@, action@, settings@.hosts, model@.hosts),
    {
        let mut effects: Vec<PanelEffect> = Vec::new();
        match action {
            RemoteSessionsPanelAction::Refresh => {
                effects.push(PanelEffect::IngestSettings);
                effects.push(PanelEffect::RebuildList);
                effects.push(PanelEffect::Notify);
            },
            RemoteSessionsPanelAction::ConnectHost { key } => {
                if settings.host_by_key(key.as_str()).is_some() {
                    effects.push(PanelEffect::Connect { key: key.clone() });
                }
            },
            RemoteSessionsPanelAction::ToggleHostExpanded { key } => {
                self.toggle(key);
                effects.push(PanelEffect::RebuildList);
                effects.push(PanelEffect::Notify);
            },
            RemoteSessionsPanelAction::CreateDefaultSession { key } => {
                let existing = session_name_list(model, key.as_str());
                let name = next_default_session_name(existing.as_slice());
                effects.push(PanelEffect::CreateSession { key: key.clone(), name });
                effects.push(PanelEffect::RebuildList);
                effects.push(PanelEffect::Notify);
            },
            RemoteSessionsPanelAction::AttachSession { key, name } => {
                effects.push(PanelEffect::OpenAttachTab { key: key.clone(), name: name.clone() });
            },
            RemoteSessionsPanelAction::KillSession { key, name } => {
                effects.push(PanelEffect::KillSession { key: key.clone(), name: name.clone() });
                effects.push(PanelEffect::CloseAttachTab { key: key.clone(), name: name.clone() });
            },
            RemoteSessionsPanelAction::OpenAddHostSettings => {
                effects.push(PanelEffect::ShowHostSettings);
            },
            RemoteSessionsPanelAction::DisconnectHost { key } => {
                effects.push(PanelEffect::Disconnect { key: key.clone() });
            },
            RemoteSessionsPanelAction::RequestRemoveHost { key } => {
                self.pending_remove = Some(key.clone());
                effects.push(PanelEffect::Notify);
            },
            RemoteSessionsPanelAction::CancelRemoveHost => {
                self.pending_remove = None;
                effects.push(PanelEffect::Notify);
            },
            RemoteSessionsPanelAction::ConfirmRemoveHost => {
                if let Some(key) = self.pending_remove.take() {
                    effects.push(PanelEffect::Disconnect { key: key.clone() });
                    effects.push(PanelEffect::RemoveHost { key });
                }
                effects.push(PanelEffect::Notify);
            },
        }
        assert(effects_view(effects@) =~= panel_step(old(self)@, action@, settings@.hosts, model@.hosts).1);
        effects
    }
}

} // verus!
