//! The state of the remote sessions panel's hosts, and how it follows the
//! configured hosts, connection attempts and connection events.

use vstd::prelude::*;
use crate::text::{chars_of, contains_chars, contains_seq, lower_ascii_seq, lower_chars};
use crate::types::{
    clone_sessions, host_error_message, sessions_view, HostCapabilities,
    HostError, HostErrorView, HostState, HostStateView, HostStatus, HostStatusView,
    RemoteTmuxSessionView,
};
use crate::remote_hosts::{str_eq, RemoteHost};
use crate::connection::{ConnectionEvent, ConnectionEventView};
use crate::commands::{kill_session_cmd, new_session_text, new_session_cmd, shell_escaped};

verus! {

/// What changed in the model, for its observers.
#[derive(Clone, Debug, PartialEq, Eq)]
pub enum RemoteSessionsEvent {
    HostAdded(String),
    HostRemoved(String),
    HostStatusChanged(String),
    HostCapabilitiesUpdated(String),
    HostSessionsUpdated(String),
}

pub enum RemoteSessionsEventView {
    HostAdded(Seq<char>),
    HostRemoved(Seq<char>),
    HostStatusChanged(Seq<char>),
    HostCapabilitiesUpdated(Seq<char>),
    HostSessionsUpdated(Seq<char>),
}

impl View for RemoteSessionsEvent {
    type V = RemoteSessionsEventView;

    open spec fn view(&self) -> RemoteSessionsEventView {
        match self {
            RemoteSessionsEvent::HostAdded(k) => RemoteSessionsEventView::HostAdded(k@),
            RemoteSessionsEvent::HostRemoved(k) => RemoteSessionsEventView::HostRemoved(k@),
            RemoteSessionsEvent::HostStatusChanged(k) => RemoteSessionsEventView::HostStatusChanged(k@),
            RemoteSessionsEvent::HostCapabilitiesUpdated(k) => RemoteSessionsEventView::HostCapabilitiesUpdated(k@),
            RemoteSessionsEvent::HostSessionsUpdated(k) => RemoteSessionsEventView::HostSessionsUpdated(k@),
        }
    }
}

pub open spec fn events_view(v: Seq<RemoteSessionsEvent>) -> Seq<RemoteSessionsEventView> {
    v.map_values(|e: RemoteSessionsEvent| e@)
}

pub open spec fn states_view(v: Seq<HostState>) -> Seq<HostStateView> {
    v.map_values(|s: HostState| s@)
}

/// The hosts the panel knows, one state per key, and the keys that have a
/// live control connection.
pub struct RemoteSessionsModel {
    hosts: Vec<HostState>,
    connected: Vec<String>,
}

pub struct RemoteSessionsModelView {
    pub hosts: Seq<HostStateView>,
    pub connected: Seq<Seq<char>>,
}

impl View for RemoteSessionsModel {
    type V = RemoteSessionsModelView;

    closed spec fn view(&self) -> RemoteSessionsModelView {
        RemoteSessionsModelView {
            hosts: states_view(self.hosts@),
            connected: self.connected@.map_values(|s: String| s@),
        }
    }
}

/// The position of the state for `key`.
pub open spec fn state_index(hosts: Seq<HostStateView>, key: Seq<char>) -> Option<int>
    decreases hosts.len(),
{
    if hosts.len() == 0 {
        None
    } else {
        match state_index(hosts.drop_last(), key) {
            Some(i) => Some(i),
            None => if hosts.last().local_host_key == key {
                Some(hosts.len() - 1)
            } else {
                None
            },
        }
    }
}

/// The state for `key`, if the host is known.
pub open spec fn state_of(hosts: Seq<HostStateView>, key: Seq<char>) -> Option<HostStateView> {
    match state_index(hosts, key) {
        Some(i) => Some(hosts[i]),
        None => None,
    }
}

/// No two states share a key.
pub open spec fn unique_keys(hosts: Seq<HostStateView>) -> bool {
    forall|i: int, j: int|
        0 <= i < hosts.len() && 0 <= j < hosts.len() && i != j ==> hosts[i].local_host_key
            != hosts[j].local_host_key
}

pub proof fn lemma_state_index(hosts: Seq<HostStateView>, key: Seq<char>)
    ensures
        match state_index(hosts, key) {
            Some(i) => 0 <= i < hosts.len() && hosts[i].local_host_key == key && forall|j: int|
                0 <= j < i ==> hosts[j].local_host_key != key,
            None => forall|j: int| 0 <= j < hosts.len() ==> hosts[j].local_host_key != key,
        },
    decreases hosts.len(),
{
    if hosts.len() > 0 {
        lemma_state_index(hosts.drop_last(), key);
        match state_index(hosts.drop_last(), key) {
            Some(i) => {
                assert forall|j: int| 0 <= j < i implies hosts[j].local_host_key != key by {
                    assert(hosts.drop_last()[j] == hosts[j]);
                }
                assert(hosts.drop_last()[i] == hosts[i]);
            },
            None => {
                assert forall|j: int| 0 <= j < hosts.len() - 1 implies hosts[j].local_host_key != key by {
                    assert(hosts.drop_last()[j] == hosts[j]);
                }
            },
        }
    }
}

/// `hosts` with the state for `key` changed by `f`; unchanged when the key
/// is not known.
pub open spec fn update_state(
    hosts: Seq<HostStateView>,
    key: Seq<char>,
    f: spec_fn(HostStateView) -> HostStateView,
) -> Seq<HostStateView> {
    match state_index(hosts, key) {
        Some(i) => hosts.update(i, f(hosts[i])),
        None => hosts,
    }
}

/// The state of a host that has just been configured.
pub open spec fn fresh_state(key: Seq<char>) -> HostStateView {
    HostStateView {
        local_host_key: key,
        status: HostStatusView::Disconnected,
        capabilities: None,
        sessions: Seq::<RemoteTmuxSessionView>::empty(),
        last_error_detail: None,
    }
}

/// The keys of `input` that are not in `known` and not earlier in `input`,
/// in order.
pub open spec fn new_keys(known: Seq<Seq<char>>, input: Seq<Seq<char>>) -> Seq<Seq<char>>
    decreases input.len(),
{
    if input.len() == 0 {
        Seq::<Seq<char>>::empty()
    } else {
        let prev = new_keys(known, input.drop_last());
        if (known + prev).contains(input.last()) {
            prev
        } else {
            prev.push(input.last())
        }
    }
}

pub open spec fn state_keys(hosts: Seq<HostStateView>) -> Seq<Seq<char>> {
    hosts.map_values(|s: HostStateView| s.local_host_key)
}

/// The states whose key is in `input`, in order.
pub open spec fn kept_states(hosts: Seq<HostStateView>, input: Seq<Seq<char>>) -> Seq<HostStateView>
    decreases hosts.len(),
{
    if hosts.len() == 0 {
        hosts
    } else {
        let init = kept_states(hosts.drop_last(), input);
        if input.contains(hosts.last().local_host_key) {
            init.push(hosts.last())
        } else {
            init
        }
    }
}

/// The keys of the states whose key is not in `input`, in order.
pub open spec fn dropped_keys(hosts: Seq<HostStateView>, input: Seq<Seq<char>>) -> Seq<Seq<char>>
    decreases hosts.len(),
{
    if hosts.len() == 0 {
        Seq::<Seq<char>>::empty()
    } else {
        let init = dropped_keys(hosts.drop_last(), input);
        if input.contains(hosts.last().local_host_key) {
            init
        } else {
            init.push(hosts.last().local_host_key)
        }
    }
}

/// After the configured hosts are taken in: the states of the hosts still
/// configured, as they were, then a fresh state for each newly configured
/// key.
pub open spec fn ingested_hosts(hosts: Seq<HostStateView>, input: Seq<Seq<char>>) -> Seq<HostStateView> {
    kept_states(hosts, input) + new_keys(state_keys(hosts), input).map_values(
        |k: Seq<char>| fresh_state(k),
    )
}

/// The events of taking in the configured hosts: one `HostAdded` per new key,
/// in order, then one `HostRemoved` per state no longer configured.
pub open spec fn ingest_events(hosts: Seq<HostStateView>, input: Seq<Seq<char>>) -> Seq<RemoteSessionsEventView> {
    new_keys(state_keys(hosts), input).map_values(|k: Seq<char>| RemoteSessionsEventView::HostAdded(k))
        + dropped_keys(hosts, input).map_values(|k: Seq<char>| RemoteSessionsEventView::HostRemoved(k))
}

/// The lower-case hex digit for `d`.
pub open spec fn hex_char(d: nat) -> char {
    if d < 10 {
        ((48 + d) as u32) as char
    } else {
        ((87 + d) as u32) as char
    }
}

/// The last `width` hex digits of `n`, in lower case, with leading zeros.
pub open spec fn hex_fixed(n: nat, width: nat) -> Seq<char>
    decreases width,
{
    if width == 0 {
        Seq::<char>::empty()
    } else {
        hex_fixed(n / 16, (width - 1) as nat).push(hex_char(n % 16))
    }
}

fn push_hex_fixed(out: &mut Vec<char>, n: u64, width: u32)
    ensures
        final(out)@ == old(out)@ + hex_fixed(n as nat, width as nat),
    decreases width,
{
    if width > 0 {
        push_hex_fixed(out, n / 16, width - 1);
        let d = n % 16;
        let c: char = if d < 10 {
            ((48 + d) as u8) as char
        } else {
            ((87 + d) as u8) as char
        };
        out.push(c);
    }
}

/// The name of the control socket for a host whose key hashes to `hash`:
/// the hash as 16 lower-case hex digits, then `.sock`.
pub fn socket_file_name(hash: u64) -> (r: String)
    ensures
        r@ == hex_fixed(hash as nat, 16) + ".sock"@,
{
    let mut digits: Vec<char> = Vec::new();
    push_hex_fixed(&mut digits, hash, 16);
    assert(digits@ =~= hex_fixed(hash as nat, 16));
    let mut r = crate::text::string_from_chars(&digits);
    r.append(".sock");
    r
}

pub open spec fn host_keys(hosts: Seq<RemoteHost>) -> Seq<Seq<char>> {
    hosts.map_values(|h: RemoteHost| h.local_host_key@)
}

/// The error text a failed connection leaves, and the status it leads to:
/// a generic error that mentions tmux means the host cannot be used.
pub open spec fn failed_status(e: HostErrorView) -> HostStatusView {
    match e {
        HostErrorView::Other(s) => if contains_seq(lower_ascii_seq(s), "tmux"@) {
            HostStatusView::Unsupported(s)
        } else {
            HostStatusView::Error(e)
        },
        _ => HostStatusView::Error(e),
    }
}

impl RemoteSessionsModel {
    /// No two host states share a key.
    #[verifier::type_invariant]
    spec fn wf(&self) -> bool {
        unique_keys(states_view(self.hosts@))
    }

    /// A model with no hosts.
    pub fn new() -> (r: Self)
        ensures
            r@.hosts.len() == 0,
            r@.connected.len() == 0,
    {
        let r = RemoteSessionsModel { hosts: Vec::new(), connected: Vec::new() };
        assert(r@.connected =~= Seq::<Seq<char>>::empty());
        r
    }

    fn index_of_key(&self, key: &str) -> (r: Option<usize>)
        ensures
            r is None <==> state_index(self@.hosts, key@) is None,
            r matches Some(i) ==> state_index(self@.hosts, key@) == Some(i as int) && i < self.hosts.len(),
    {
        let mut i: usize = 0;
        while i < self.hosts.len()
            invariant
                i <= self.hosts.len(),
                forall|j: int| 0 <= j < i ==> self@.hosts[j].local_host_key != key@,
            decreases self.hosts.len() - i,
        {
            assert(self@.hosts[i as int] == self.hosts@[i as int]@);
            if str_eq(self.hosts[i].local_host_key.as_str(), key) {
                proof {
                    lemma_state_index(self@.hosts, key@);
                    if state_index(self@.hosts, key@) is Some {
                        let k = state_index(self@.hosts, key@)->0;
                        if k > i {
                            assert(self@.hosts[i as int].local_host_key == key@);
                        }
                    }
                }
                return Some(i);
            }
            i += 1;
        }
        proof {
            lemma_state_index(self@.hosts, key@);
            if state_index(self@.hosts, key@) is Some {
                let k = state_index(self@.hosts, key@)->0;
                assert(self@.hosts[k].local_host_key == key@);
            }
        }
        None
    }

    /// The state of the host with key `key`.
    pub fn host_state(&self, key: &str) -> (r: Option<&HostState>)
        ensures
            match state_of(self@.hosts, key@) {
                Some(s) => r matches Some(x) && x@ == s,
                None => r is None,
            },
    {
        match self.index_of_key(key) {
            Some(i) => Some(&self.hosts[i]),
            None => None,
        }
    }

    /// Whether the host has a live control connection.
    pub fn is_connected(&self, key: &str) -> (r: bool)
        ensures
            r == self@.connected.contains(key@),
    {
        let mut i: usize = 0;
        while i < self.connected.len()
            invariant
                i <= self.connected.len(),
                forall|j: int| 0 <= j < i ==> self@.connected[j] != key@,
            decreases self.connected.len() - i,
        {
            assert(self@.connected[i as int] == self.connected@[i as int]@);
            if str_eq(self.connected[i].as_str(), key) {
                return true;
            }
            i += 1;
        }
        proof {
            if self@.connected.contains(key@) {
                let k = choose|k: int| 0 <= k < self@.connected.len() && self@.connected[k] == key@;
                assert(self@.connected[k] != key@);
            }
        }
        false
    }

    fn add_connected(&mut self, key: &str)
        ensures
            final(self)@.hosts == old(self)@.hosts,
            final(self)@.connected == if old(self)@.connected.contains(key@) {
                old(self)@.connected
            } else {
                old(self)@.connected.push(key@)
            },
    {
        proof {
            use_type_invariant(&*self);
        }
        if !self.is_connected(key) {
            let ghost old_c = self.connected@;
            let mut c: Vec<String> = Vec::new();
            std::mem::swap(&mut c, &mut self.connected);
            c.push(String::from_str(key));
            self.connected = c;
            assert(self@.connected =~= old_c.map_values(|s: String| s@).push(key@));
        }
    }

    fn remove_connected(&mut self, key: &str)
        ensures
            final(self)@.hosts == old(self)@.hosts,
            forall|k: Seq<char>|
                final(self)@.connected.contains(k) <==> (old(self)@.connected.contains(k) && k != key@),
    {
        proof {
            use_type_invariant(&*self);
        }
        let ghost old_view = self@.connected;
        let mut kept: Vec<String> = Vec::new();
        let mut i: usize = 0;
        while i < self.connected.len()
            invariant
                i <= self.connected.len(),
                old_view == self@.connected,
                forall|k: Seq<char>|
                    kept@.map_values(|s: String| s@).contains(k) <==> (old_view.take(i as int).contains(k)
                        && k != key@),
            decreases self.connected.len() - i,
        {
            assert(old_view.take(i + 1) =~= old_view.take(i as int).push(old_view[i as int]));
            assert(old_view[i as int] == self.connected@[i as int]@);
            let ghost old_kept = kept@.map_values(|s: String| s@);
            if !str_eq(self.connected[i].as_str(), key) {
                kept.push(self.connected[i].clone());
                assert(kept@.map_values(|s: String| s@) =~= old_kept.push(old_view[i as int]));
            }
            let ghost kv = kept@.map_values(|s: String| s@);
            assert forall|k: Seq<char>|
                #[trigger] kv.contains(k) <==> (old_view.take(i + 1).contains(k) && k != key@) by {
                let t = old_view.take(i as int);
                let t1 = old_view.take(i + 1);
                if t1.contains(k) && !t.contains(k) {
                    let w = choose|w: int| 0 <= w < t1.len() && t1[w] == k;
                    if w < i {
                        assert(t[w] == k);
                    }
                }
                if t.contains(k) {
                    let w = choose|w: int| 0 <= w < i && t[w] == k;
                    assert(old_view.take(i + 1)[w] == k);
                }
                if k == old_view[i as int] {
                    assert(old_view.take(i + 1)[i as int] == k);
                }
                if kv.contains(k) && !old_kept.contains(k) {
                    let w = choose|w: int| 0 <= w < kv.len() && kv[w] == k;
                    assert(w == old_kept.len());
                }
                if old_kept.contains(k) {
                    let w = choose|w: int| 0 <= w < old_kept.len() && old_kept[w] == k;
                    assert(kv[w] == k);
                }
                if kv.len() > old_kept.len() {
                    assert(kv[old_kept.len() as int] == old_view[i as int]);
                }
            }
            i += 1;
        }
        assert(old_view.take(self.connected.len() as int) =~= old_view);
        let ghost kv = kept@.map_values(|s: String| s@);
        self.connected = kept;
        assert(self@.connected =~= kv);
        assert forall|k: Seq<char>|
            #[trigger] self@.connected.contains(k) <==> (old_view.contains(k) && k != key@) by {
            assert(kv.contains(k) <==> (old_view.contains(k) && k != key@));
        }
    }

    /// Sets a host's status. The status-changed event is reported whether or
    /// not the host is known.
    fn set_status(&mut self, key: &str, status: HostStatus) -> (e: RemoteSessionsEvent)
        ensures
            final(self)@.hosts == update_state(
                old(self)@.hosts,
                key@,
                |s: HostStateView| HostStateView { status: status@, ..s },
            ),
            final(self)@.connected == old(self)@.connected,
            e@ == RemoteSessionsEventView::HostStatusChanged(key@),
    {
        proof {
            use_type_invariant(&*self);
        }
        if let Some(i) = self.index_of_key(key) {
            let ghost old_hosts = self@.hosts;
            let mut st = self.hosts[i].clone();
            st.status = status;
            let mut hosts: Vec<HostState> = Vec::new();
            std::mem::swap(&mut hosts, &mut self.hosts);
            hosts.set(i, st);
            assert(states_view(hosts@) =~= update_state(
                old_hosts,
                key@,
                |s: HostStateView| HostStateView { status: status@, ..s },
            ));
            self.hosts = hosts;
        }
        RemoteSessionsEvent::HostStatusChanged(String::from_str(key))
    }

    /// Takes in the configured hosts: a fresh disconnected state for each new
    /// key, and the states (and connections) of hosts no longer configured
    /// dropped; see [`ingested_hosts`] and [`ingest_events`].
    pub fn ingest_hosts(&mut self, hosts: &[RemoteHost]) -> (events: Vec<RemoteSessionsEvent>)
        ensures
            final(self)@.hosts == ingested_hosts(old(self)@.hosts, host_keys(hosts@)),
            forall|k: Seq<char>|
                final(self)@.connected.contains(k) <==> (old(self)@.connected.contains(k)
                    && !dropped_keys(old(self)@.hosts, host_keys(hosts@)).contains(k)),
            events_view(events@) == ingest_events(old(self)@.hosts, host_keys(hosts@)),
    {
        proof {
            use_type_invariant(&*self);
        }
        let ghost old_hosts = self@.hosts;
        let ghost input = host_keys(hosts@);
        let ghost known = state_keys(old_hosts);
        let mut events: Vec<RemoteSessionsEvent> = Vec::new();
        let mut i: usize = 0;
        assert(input.take(0) =~= Seq::<Seq<char>>::empty());
        assert(self@.hosts =~= old_hosts + Seq::<Seq<char>>::empty().map_values(|k: Seq<char>| fresh_state(k)));
        assert(events_view(events@) =~= Seq::<Seq<char>>::empty().map_values(|k: Seq<char>| RemoteSessionsEventView::HostAdded(k)));
        while i < hosts.len()
            invariant
                i <= hosts.len(),
                input == host_keys(hosts@),
                known == state_keys(old_hosts),
                unique_keys(old_hosts),
                self@.connected == old(self)@.connected,
                self@.hosts == old_hosts + new_keys(known, input.take(i as int)).map_values(
                    |k: Seq<char>| fresh_state(k),
                ),
                events_view(events@) == new_keys(known, input.take(i as int)).map_values(
                    |k: Seq<char>| RemoteSessionsEventView::HostAdded(k),
                ),
                unique_keys(self@.hosts),
            decreases hosts.len() - i,
        {
            let key = &hosts[i].local_host_key;
            let ghost prev = new_keys(known, input.take(i as int));
            assert(input.take(i + 1).drop_last() =~= input.take(i as int));
            assert(input.take(i + 1).last() == key@);
            assert(state_keys(self@.hosts) =~= known + prev) by {
                assert forall|j: int| 0 <= j < self@.hosts.len() implies #[trigger] state_keys(self@.hosts)[j] == (known + prev)[j] by {
                    if j >= old_hosts.len() {
                        assert(self@.hosts[j] == fresh_state(prev[j - old_hosts.len()]));
                    }
                }
            }
            let found = self.index_of_key(key.as_str());
            proof {
                lemma_state_index(self@.hosts, key@);
            }
            if found.is_none() {
                assert(!(known + prev).contains(key@)) by {
                    if (known + prev).contains(key@) {
                        let j = choose|j: int| 0 <= j < (known + prev).len() && (known + prev)[j] == key@;
                        assert(state_keys(self@.hosts)[j] == key@);
                    }
                }
                let ghost before = self@.hosts;
                let st = HostState {
                    local_host_key: key.clone(),
                    status: HostStatus::Disconnected,
                    capabilities: None,
                    sessions: Vec::new(),
                    last_error_detail: None,
                };
                assert(st@ =~= fresh_state(key@)) by {
                    assert(sessions_view(st.sessions@) =~= Seq::<RemoteTmuxSessionView>::empty());
                }
                let mut grown: Vec<HostState> = Vec::new();
                std::mem::swap(&mut grown, &mut self.hosts);
                grown.push(st);
                let ghost after = states_view(grown@);
                assert(after =~= before.push(fresh_state(key@)));
                assert(unique_keys(after)) by {
                    assert forall|a: int, b: int|
                        0 <= a < after.len() && 0 <= b < after.len() && a != b implies after[a].local_host_key
                            != after[b].local_host_key by {
                        if a == before.len() as int {
                            assert(before[b].local_host_key != key@);
                        } else if b == before.len() as int {
                            assert(before[a].local_host_key != key@);
                        } else {
                            assert(after[a] == before[a]);
                            assert(after[b] == before[b]);
                        }
                    }
                }
                self.hosts = grown;
                let ghost old_events = events@;
                let added_key = key.clone();
                events.push(RemoteSessionsEvent::HostAdded(added_key));
                assert(events_view(events@) =~= events_view(old_events).push(RemoteSessionsEventView::HostAdded(key@)));
                assert(new_keys(known, input.take(i + 1)) == prev.push(key@));
                assert(self@.hosts =~= old_hosts + prev.push(key@).map_values(|k: Seq<char>| fresh_state(k)));
                assert(events_view(events@) =~= prev.push(key@).map_values(
                    |k: Seq<char>| RemoteSessionsEventView::HostAdded(k),
                ));
            } else {
                assert((known + prev).contains(key@)) by {
                    let j = state_index(self@.hosts, key@)->0;
                    assert(state_keys(self@.hosts)[j] == key@);
                }
                assert(new_keys(known, input.take(i + 1)) == prev);
            }
            i += 1;
        }
        assert(input.take(hosts.len() as int) =~= input);
        let ghost added = new_keys(known, input);
        let ghost all = self@.hosts;
        proof {
            lemma_new_keys_in_input(known, input);
        }
        // Drop the states of hosts no longer configured.
        let mut kept: Vec<HostState> = Vec::new();
        let mut j: usize = 0;
        let ghost old_connected = self@.connected;
        let ghost removed_so_far: Seq<Seq<char>> = Seq::<Seq<char>>::empty();
        assert(all.take(0) =~= Seq::<HostStateView>::empty());
        while j < self.hosts.len()
            invariant
                j <= self.hosts.len(),
                all == states_view(self.hosts@),
                self.hosts.len() == all.len(),
                all == old_hosts + added.map_values(|k: Seq<char>| fresh_state(k)),
                added == new_keys(known, input),
                input == host_keys(hosts@),
                forall|a: int| 0 <= a < added.len() ==> input.contains(#[trigger] added[a]),
                states_view(kept@) == kept_states(all.take(j as int), input),
                removed_so_far == dropped_keys(all.take(j as int), input),
                forall|k: Seq<char>|
                    self@.connected.contains(k) <==> (old_connected.contains(k) && !removed_so_far.contains(k)),
                events_view(events@) == added.map_values(|k: Seq<char>| RemoteSessionsEventView::HostAdded(k))
                    + removed_so_far.map_values(|k: Seq<char>| RemoteSessionsEventView::HostRemoved(k)),
                unique_keys(all),
            decreases self.hosts.len() - j,
        {
            assert(all.take(j + 1).drop_last() =~= all.take(j as int));
            assert(all.take(j + 1).last() == all[j as int]);
            let st = self.hosts[j].clone();
            let wanted = key_in_hosts(hosts, st.local_host_key.as_str());
            if wanted {
                let ghost old_kept = kept@;
                kept.push(st);
                assert(states_view(kept@) =~= states_view(old_kept).push(all[j as int]));
            } else {
                let k = st.local_host_key.clone();
                self.remove_connected(k.as_str());
                let ghost old_events = events@;
                events.push(RemoteSessionsEvent::HostRemoved(k));
                proof {
                    let r0 = removed_so_far;
                    removed_so_far = r0.push(all[j as int].local_host_key);
                    assert(events_view(events@) =~= events_view(old_events).push(
                        RemoteSessionsEventView::HostRemoved(all[j as int].local_host_key),
                    ));
                    assert(removed_so_far.map_values(|k: Seq<char>| RemoteSessionsEventView::HostRemoved(k))
                        =~= r0.map_values(|k: Seq<char>| RemoteSessionsEventView::HostRemoved(k)).push(
                        RemoteSessionsEventView::HostRemoved(all[j as int].local_host_key),
                    ));
                    assert(events_view(events@) =~= added.map_values(|k: Seq<char>| RemoteSessionsEventView::HostAdded(k))
                        + removed_so_far.map_values(|k: Seq<char>| RemoteSessionsEventView::HostRemoved(k)));
                    assert forall|k2: Seq<char>|
                        self@.connected.contains(k2) <==> (old_connected.contains(k2) && !removed_so_far.contains(k2)) by {
                        if removed_so_far.contains(k2) && !r0.contains(k2) {
                            assert(k2 == all[j as int].local_host_key);
                        }
                        if r0.contains(k2) {
                            let w = choose|w: int| 0 <= w < r0.len() && r0[w] == k2;
                            assert(removed_so_far[w] == k2);
                        }
                        if k2 == all[j as int].local_host_key {
                            assert(removed_so_far[r0.len() as int] == k2);
                        }
                    }
                }
            }
            j += 1;
        }
        assert(all.take(self.hosts.len() as int) =~= all);
        proof {
            lemma_kept_after_added(old_hosts, added, input);
            lemma_dropped_after_added(old_hosts, added, input);
            lemma_kept_unique(all, input);
        }
        self.hosts = kept;
        events
    }

    fn update_host<F>(&mut self, key: &str, f: F, Ghost(g): Ghost<spec_fn(HostStateView) -> HostStateView>)
        where
            F: Fn(HostState) -> HostState,
        requires
            forall|st: HostState| call_requires(f, (st,)),
            forall|st: HostState, r: HostState| call_ensures(f, (st,), r) ==> r@ == g(st@),
            forall|v: HostStateView| (#[trigger] g(v)).local_host_key == v.local_host_key,
        ensures
            final(self)@.hosts == update_state(old(self)@.hosts, key@, g),
            final(self)@.connected == old(self)@.connected,
    {
        proof {
            use_type_invariant(&*self);
        }
        if let Some(i) = self.index_of_key(key) {
            let ghost old_hosts = self@.hosts;
            let st = self.hosts[i].clone();
            let st2 = f(st);
            let mut hosts: Vec<HostState> = Vec::new();
            std::mem::swap(&mut hosts, &mut self.hosts);
            hosts.set(i, st2);
            assert(states_view(hosts@) =~= update_state(old_hosts, key@, g));
            self.hosts = hosts;
        }
    }

    /// Starts connecting to a host, unless it is connected or already
    /// connecting: gives the status-changed event when it starts, nothing
    /// otherwise.
    pub fn begin_connect(&mut self, key: &str) -> (r: Option<RemoteSessionsEvent>)
        ensures
            final(self)@.connected == old(self)@.connected,
            if old(self)@.connected.contains(key@) || (state_of(old(self)@.hosts, key@) matches Some(s)
                && s.status is Connecting) {
                r is None && final(self)@.hosts == old(self)@.hosts
            } else {
                &&& r matches Some(e) && e@ == RemoteSessionsEventView::HostStatusChanged(key@)
                &&& final(self)@.hosts == update_state(
                    old(self)@.hosts,
                    key@,
                    |s: HostStateView| HostStateView { status: HostStatusView::Connecting, ..s },
                )
            },
    {
        proof {
            use_type_invariant(&*self);
        }
        if self.is_connected(key) {
            return None;
        }
        let connecting = match self.host_state(key) {
            Some(st) => match st.status {
                HostStatus::Connecting => true,
                _ => false,
            },
            None => false,
        };
        if connecting {
            return None;
        }
        Some(self.set_status(key, HostStatus::Connecting))
    }

    /// Records the outcome of a connection attempt. On success the host has
    /// its capabilities, no error, a live connection and the connected
    /// status; on failure the error's message and a failed status (see
    /// [`failed_status`]).
    pub fn finish_connect(&mut self, key: &str, result: Result<HostCapabilities, HostError>) -> (events: Vec<
        RemoteSessionsEvent,
    >)
        ensures
            match result {
                Ok(caps) => {
                    &&& final(self)@.hosts == update_state(
                        old(self)@.hosts,
                        key@,
                        |s: HostStateView|
                            HostStateView {
                                capabilities: Some(caps@),
                                last_error_detail: None,
                                status: HostStatusView::Connected,
                                ..s
                            },
                    )
                    &&& final(self)@.connected == if old(self)@.connected.contains(key@) {
                        old(self)@.connected
                    } else {
                        old(self)@.connected.push(key@)
                    }
                    &&& events_view(events@) == seq![
                        RemoteSessionsEventView::HostCapabilitiesUpdated(key@),
                        RemoteSessionsEventView::HostStatusChanged(key@),
                    ]
                },
                Err(e) => {
                    &&& final(self)@.hosts == update_state(
                        old(self)@.hosts,
                        key@,
                        |s: HostStateView|
                            HostStateView {
                                last_error_detail: Some(host_error_message(e@)),
                                status: failed_status(e@),
                                ..s
                            },
                    )
                    &&& final(self)@.connected == old(self)@.connected
                    &&& events_view(events@) == seq![RemoteSessionsEventView::HostStatusChanged(key@)]
                },
            },
    {
        proof {
            use_type_invariant(&*self);
        }
        let mut events: Vec<RemoteSessionsEvent> = Vec::new();
        match result {
            Ok(caps) => {
                let ghost cv = caps@;
                let ghost g = |s: HostStateView|
                    HostStateView {
                        capabilities: Some(cv),
                        last_error_detail: None,
                        status: HostStatusView::Connected,
                        ..s
                    };
                let upd = move |st: HostState| -> (r: HostState)
                    ensures
                        r@ == g(st@),
                    {
                        HostState {
                            local_host_key: st.local_host_key,
                            status: HostStatus::Connected,
                            capabilities: Some(caps.clone()),
                            sessions: st.sessions,
                            last_error_detail: None,
                        }
                    };
                self.update_host(key, upd, Ghost(g));
                events.push(RemoteSessionsEvent::HostCapabilitiesUpdated(String::from_str(key)));
                self.add_connected(key);
                events.push(RemoteSessionsEvent::HostStatusChanged(String::from_str(key)));
                assert(events_view(events@) =~= seq![
                    RemoteSessionsEventView::HostCapabilitiesUpdated(key@),
                    RemoteSessionsEventView::HostStatusChanged(key@),
                ]);
            },
            Err(e) => {
                let detail = e.to_string();
                let status = failed_status_exec(e);
                let ghost dv = detail@;
                let ghost sv = status@;
                let ghost g = |s: HostStateView|
                    HostStateView { last_error_detail: Some(dv), status: sv, ..s };
                let upd = move |st: HostState| -> (r: HostState)
                    ensures
                        r@ == g(st@),
                    {
                        HostState {
                            local_host_key: st.local_host_key,
                            status: status.clone(),
                            capabilities: st.capabilities,
                            sessions: st.sessions,
                            last_error_detail: Some(detail.clone()),
                        }
                    };
                self.update_host(key, upd, Ghost(g));
                events.push(RemoteSessionsEvent::HostStatusChanged(String::from_str(key)));
                assert(events_view(events@) =~= seq![RemoteSessionsEventView::HostStatusChanged(key@)]);
            },
        }
        events
    }

    /// Drops a host's connection: it keeps no sessions and is disconnected.
    pub fn disconnect(&mut self, key: &str) -> (e: RemoteSessionsEvent)
        ensures
            final(self)@.hosts == update_state(
                old(self)@.hosts,
                key@,
                |s: HostStateView|
                    HostStateView {
                        sessions: Seq::<RemoteTmuxSessionView>::empty(),
                        status: HostStatusView::Disconnected,
                        ..s
                    },
            ),
            forall|k: Seq<char>|
                final(self)@.connected.contains(k) <==> (old(self)@.connected.contains(k) && k != key@),
            e@ == RemoteSessionsEventView::HostStatusChanged(key@),
    {
        proof {
            use_type_invariant(&*self);
        }
        self.remove_connected(key);
        let ghost g = |s: HostStateView|
            HostStateView {
                sessions: Seq::<RemoteTmuxSessionView>::empty(),
                status: HostStatusView::Disconnected,
                ..s
            };
        let upd = |st: HostState| -> (r: HostState)
            ensures
                r@ == g(st@),
            {
                let v: Vec<crate::types::RemoteTmuxSession> = Vec::new();
                assert(sessions_view(v@) =~= Seq::<RemoteTmuxSessionView>::empty());
                HostState {
                    local_host_key: st.local_host_key,
                    status: HostStatus::Disconnected,
                    capabilities: st.capabilities,
                    sessions: v,
                    last_error_detail: st.last_error_detail,
                }
            };
        self.update_host(key, upd, Ghost(g));
        RemoteSessionsEvent::HostStatusChanged(String::from_str(key))
    }

    /// Applies what a host's connection reported: a new session list; or the
    /// end of the connection, cleanly (disconnected, with the exit reason as
    /// the detail) or with an error (the error's status and message); either
    /// end drops the connection and the sessions.
    pub fn handle_connection_event(&mut self, key: &str, event: ConnectionEvent) -> (e: RemoteSessionsEvent)
        ensures
            match event@ {
                ConnectionEventView::Sessions(list) => {
                    &&& final(self)@.hosts == update_state(
                        old(self)@.hosts,
                        key@,
                        |s: HostStateView| HostStateView { sessions: list, ..s },
                    )
                    &&& final(self)@.connected == old(self)@.connected
                    &&& e@ == RemoteSessionsEventView::HostSessionsUpdated(key@)
                },
                ConnectionEventView::Exit(reason) => {
                    &&& final(self)@.hosts == update_state(
                        old(self)@.hosts,
                        key@,
                        |s: HostStateView|
                            HostStateView {
                                sessions: Seq::<RemoteTmuxSessionView>::empty(),
                                last_error_detail: reason,
                                status: HostStatusView::Disconnected,
                                ..s
                            },
                    )
                    &&& forall|k: Seq<char>|
                        final(self)@.connected.contains(k) <==> (old(self)@.connected.contains(k) && k != key@)
                    &&& e@ == RemoteSessionsEventView::HostStatusChanged(key@)
                },
                ConnectionEventView::Error(err) => {
                    &&& final(self)@.hosts == update_state(
                        old(self)@.hosts,
                        key@,
                        |s: HostStateView|
                            HostStateView {
                                sessions: Seq::<RemoteTmuxSessionView>::empty(),
                                last_error_detail: Some(host_error_message(err)),
                                status: HostStatusView::Error(err),
                                ..s
                            },
                    )
                    &&& forall|k: Seq<char>|
                        final(self)@.connected.contains(k) <==> (old(self)@.connected.contains(k) && k != key@)
                    &&& e@ == RemoteSessionsEventView::HostStatusChanged(key@)
                },
            },
    {
        proof {
            use_type_invariant(&*self);
        }
        match event {
            ConnectionEvent::Sessions(list) => {
                let ghost lv = sessions_view(list@);
                let ghost g = |s: HostStateView| HostStateView { sessions: lv, ..s };
                let upd = move |st: HostState| -> (r: HostState)
                    ensures
                        r@ == g(st@),
                    {
                        HostState {
                            local_host_key: st.local_host_key,
                            status: st.status,
                            capabilities: st.capabilities,
                            sessions: clone_sessions(&list),
                            last_error_detail: st.last_error_detail,
                        }
                    };
                self.update_host(key, upd, Ghost(g));
                RemoteSessionsEvent::HostSessionsUpdated(String::from_str(key))
            },
            ConnectionEvent::Exit(reason) => {
                self.remove_connected(key);
                let ghost rv = crate::types::opt_string_view(reason);
                let ghost g = |s: HostStateView|
                    HostStateView {
                        sessions: Seq::<RemoteTmuxSessionView>::empty(),
                        last_error_detail: rv,
                        status: HostStatusView::Disconnected,
                        ..s
                    };
                let upd = move |st: HostState| -> (r: HostState)
                    ensures
                        r@ == g(st@),
                    {
                        let v: Vec<crate::types::RemoteTmuxSession> = Vec::new();
                        assert(sessions_view(v@) =~= Seq::<RemoteTmuxSessionView>::empty());
                        HostState {
                            local_host_key: st.local_host_key,
                            status: HostStatus::Disconnected,
                            capabilities: st.capabilities,
                            sessions: v,
                            last_error_detail: crate::types::clone_opt_string(&reason),
                        }
                    };
                self.update_host(key, upd, Ghost(g));
                RemoteSessionsEvent::HostStatusChanged(String::from_str(key))
            },
            ConnectionEvent::Error(err) => {
                self.remove_connected(key);
                let detail = err.to_string();
                let ghost dv = detail@;
                let ghost ev = err@;
                let ghost g = |s: HostStateView|
                    HostStateView {
                        sessions: Seq::<RemoteTmuxSessionView>::empty(),
                        last_error_detail: Some(dv),
                        status: HostStatusView::Error(ev),
                        ..s
                    };
                let upd = move |st: HostState| -> (r: HostState)
                    ensures
                        r@ == g(st@),
                    {
                        let v: Vec<crate::types::RemoteTmuxSession> = Vec::new();
                        assert(sessions_view(v@) =~= Seq::<RemoteTmuxSessionView>::empty());
                        HostState {
                            local_host_key: st.local_host_key,
                            status: HostStatus::Error(err.clone()),
                            capabilities: st.capabilities,
                            sessions: v,
                            last_error_detail: Some(detail.clone()),
                        }
                    };
                self.update_host(key, upd, Ghost(g));
                RemoteSessionsEvent::HostStatusChanged(String::from_str(key))
            },
        }
    }

    /// The command that creates a session on a connected host; nothing when
    /// the host has no live connection.
    pub fn create_session_command(&self, key: &str, name: &str, command: Option<&str>) -> (r: Option<String>)
        ensures
            match r {
                Some(c) => self@.connected.contains(key@) && c@ == new_session_text(
                    name@,
                    match command {
                        Some(x) => Some(x@),
                        None => None,
                    },
                ),
                None => !self@.connected.contains(key@),
            },
    {
        if self.is_connected(key) {
            Some(new_session_cmd(name, command))
        } else {
            None
        }
    }

    /// The command that kills a session on a connected host; nothing when
    /// the host has no live connection.
    pub fn kill_session_command(&self, key: &str, name: &str) -> (r: Option<String>)
        ensures
            match r {
                Some(c) => self@.connected.contains(key@) && c@ == "kill-session -t "@ + shell_escaped(name@),
                None => !self@.connected.contains(key@),
            },
    {
        if self.is_connected(key) {
            Some(kill_session_cmd(name))
        } else {
            None
        }
    }
}

fn failed_status_exec(e: HostError) -> (r: HostStatus)
    ensures
        r@ == failed_status(e@),
{
    match e {
        HostError::Other(s) => {
            let lower = lower_chars(&chars_of(s.as_str()));
            let tmux = chars_of("tmux");
            if contains_chars(&lower, &tmux) {
                HostStatus::Unsupported(s)
            } else {
                HostStatus::Error(HostError::Other(s))
            }
        },
        other => HostStatus::Error(other),
    }
}

fn key_in_hosts(hosts: &[RemoteHost], key: &str) -> (r: bool)
    ensures
        r == host_keys(hosts@).contains(key@),
{
    let mut i: usize = 0;
    while i < hosts.len()
        invariant
            i <= hosts.len(),
            forall|j: int| 0 <= j < i ==> host_keys(hosts@)[j] != key@,
        decreases hosts.len() - i,
    {
        if str_eq(hosts[i].local_host_key.as_str(), key) {
            assert(host_keys(hosts@)[i as int] == key@);
            return true;
        }
        i += 1;
    }
    proof {
        if host_keys(hosts@).contains(key@) {
            let k = choose|k: int| 0 <= k < host_keys(hosts@).len() && host_keys(hosts@)[k] == key@;
            assert(host_keys(hosts@)[k] != key@);
        }
    }
    false
}

proof fn lemma_new_keys_in_input(known: Seq<Seq<char>>, input: Seq<Seq<char>>)
    ensures
        forall|a: int| 0 <= a < new_keys(known, input).len() ==> input.contains(#[trigger] new_keys(known, input)[a]),
        forall|a: int| 0 <= a < new_keys(known, input).len() ==> !known.contains(#[trigger] new_keys(known, input)[a]),
    decreases input.len(),
{
    if input.len() > 0 {
        lemma_new_keys_in_input(known, input.drop_last());
        let prev = new_keys(known, input.drop_last());
        assert forall|a: int| 0 <= a < new_keys(known, input).len() implies input.contains(#[trigger] new_keys(known, input)[a]) by {
            if a < prev.len() {
                let w = choose|w: int| 0 <= w < input.drop_last().len() && input.drop_last()[w] == prev[a];
                assert(input[w] == prev[a]);
            } else {
                assert(input[input.len() - 1] == input.last());
            }
        }
        assert forall|a: int| 0 <= a < new_keys(known, input).len() implies !known.contains(#[trigger] new_keys(known, input)[a]) by {
            if a >= prev.len() {
                if known.contains(input.last()) {
                    let w = choose|w: int| 0 <= w < known.len() && known[w] == input.last();
                    assert((known + prev)[w] == input.last());
                }
            }
        }
    }
}

proof fn lemma_kept_after_added(hosts: Seq<HostStateView>, added: Seq<Seq<char>>, input: Seq<Seq<char>>)
    requires
        forall|a: int| 0 <= a < added.len() ==> input.contains(#[trigger] added[a]),
    ensures
        kept_states(hosts + added.map_values(|k: Seq<char>| fresh_state(k)), input) == kept_states(hosts, input)
            + added.map_values(|k: Seq<char>| fresh_state(k)),
    decreases added.len(),
{
    let f = added.map_values(|k: Seq<char>| fresh_state(k));
    if added.len() == 0 {
        assert(hosts + f =~= hosts);
        assert(kept_states(hosts, input) + f =~= kept_states(hosts, input));
    } else {
        let init = added.drop_last();
        lemma_kept_after_added(hosts, init, input);
        let fi = init.map_values(|k: Seq<char>| fresh_state(k));
        assert((hosts + f).drop_last() =~= hosts + fi);
        assert((hosts + f).last() == fresh_state(added.last()));
        assert(input.contains(added[added.len() - 1]));
        assert(f =~= fi.push(fresh_state(added.last())));
    }
}

proof fn lemma_dropped_after_added(hosts: Seq<HostStateView>, added: Seq<Seq<char>>, input: Seq<Seq<char>>)
    requires
        forall|a: int| 0 <= a < added.len() ==> input.contains(#[trigger] added[a]),
    ensures
        dropped_keys(hosts + added.map_values(|k: Seq<char>| fresh_state(k)), input) == dropped_keys(hosts, input),
    decreases added.len(),
{
    let f = added.map_values(|k: Seq<char>| fresh_state(k));
    if added.len() == 0 {
        assert(hosts + f =~= hosts);
    } else {
        let init = added.drop_last();
        lemma_dropped_after_added(hosts, init, input);
        let fi = init.map_values(|k: Seq<char>| fresh_state(k));
        assert((hosts + f).drop_last() =~= hosts + fi);
        assert((hosts + f).last() == fresh_state(added.last()));
        assert(input.contains(added[added.len() - 1]));
    }
}

proof fn lemma_kept_members(hosts: Seq<HostStateView>, input: Seq<Seq<char>>)
    ensures
        forall|a: int| 0 <= a < kept_states(hosts, input).len() ==> exists|b: int|
            0 <= b < hosts.len() && #[trigger] kept_states(hosts, input)[a] == #[trigger] hosts[b],
    decreases hosts.len(),
{
    if hosts.len() > 0 {
        lemma_kept_members(hosts.drop_last(), input);
        let init = kept_states(hosts.drop_last(), input);
        let k = kept_states(hosts, input);
        assert forall|a: int| 0 <= a < k.len() implies exists|b: int| 0 <= b < hosts.len() && #[trigger] k[a] == #[trigger] hosts[b] by {
            if a < init.len() {
                let b = choose|b: int| 0 <= b < hosts.drop_last().len() && #[trigger] init[a] == #[trigger] hosts.drop_last()[b];
                assert(k[a] == hosts[b]);
            } else {
                assert(k[a] == hosts[hosts.len() - 1]);
            }
        }
    }
}

proof fn lemma_kept_unique(hosts: Seq<HostStateView>, input: Seq<Seq<char>>)
    requires
        unique_keys(hosts),
    ensures
        unique_keys(kept_states(hosts, input)),
    decreases hosts.len(),
{
    if hosts.len() > 0 {
        let init_h = hosts.drop_last();
        assert(unique_keys(init_h)) by {
            assert forall|i: int, j: int|
                0 <= i < init_h.len() && 0 <= j < init_h.len() && i != j implies init_h[i].local_host_key
                    != init_h[j].local_host_key by {
                assert(init_h[i] == hosts[i] && init_h[j] == hosts[j]);
            }
        }
        lemma_kept_unique(init_h, input);
        lemma_kept_members(init_h, input);
        let init = kept_states(init_h, input);
        if input.contains(hosts.last().local_host_key) {
            let k = init.push(hosts.last());
            assert forall|i: int, j: int|
                0 <= i < k.len() && 0 <= j < k.len() && i != j implies k[i].local_host_key != k[j].local_host_key by {
                if i == init.len() as int && j < init.len() {
                    let b = choose|b: int| 0 <= b < init_h.len() && #[trigger] init[j] == #[trigger] init_h[b];
                    assert(hosts[b] == init_h[b]);
                    assert(hosts[hosts.len() - 1].local_host_key != hosts[b].local_host_key);
                } else if j == init.len() as int && i < init.len() {
                    let b = choose|b: int| 0 <= b < init_h.len() && #[trigger] init[i] == #[trigger] init_h[b];
                    assert(hosts[b] == init_h[b]);
                    assert(hosts[hosts.len() - 1].local_host_key != hosts[b].local_host_key);
                } else {
                    assert(k[i] == init[i] && k[j] == init[j]);
                }
            }
        }
    }
}


proof fn lemma_state_of_push(s: Seq<HostStateView>, x: HostStateView, k: Seq<char>)
    ensures
        state_of(s.push(x), k) == match state_of(s, k) {
            Some(v) => Some(v),
            None => if x.local_host_key == k {
                Some(x)
            } else {
                None
            },
        },
{
    assert(s.push(x).drop_last() =~= s);
    lemma_state_index(s, k);
    match state_index(s, k) {
        Some(i) => {
            assert(s.push(x)[i] == s[i]);
        },
        None => {},
    }
}

proof fn lemma_state_of_concat(a: Seq<HostStateView>, b: Seq<HostStateView>, k: Seq<char>)
    ensures
        state_of(a + b, k) == match state_of(a, k) {
            Some(v) => Some(v),
            None => state_of(b, k),
        },
    decreases b.len(),
{
    if b.len() == 0 {
        assert(a + b =~= a);
    } else {
        let init = b.drop_last();
        lemma_state_of_concat(a, init, k);
        assert(a + b =~= (a + init).push(b.last()));
        assert(b =~= init.push(b.last()));
        lemma_state_of_push(a + init, b.last(), k);
        lemma_state_of_push(init, b.last(), k);
    }
}

proof fn lemma_state_of_fresh(keys: Seq<Seq<char>>, k: Seq<char>)
    ensures
        state_of(keys.map_values(|x: Seq<char>| fresh_state(x)), k) == if keys.contains(k) {
            Some(fresh_state(k))
        } else {
            None
        },
    decreases keys.len(),
{
    let f = keys.map_values(|x: Seq<char>| fresh_state(x));
    if keys.len() == 0 {
        assert(f =~= Seq::<HostStateView>::empty());
        lemma_state_index(f, k);
    } else {
        let init = keys.drop_last();
        lemma_state_of_fresh(init, k);
        assert(f =~= init.map_values(|x: Seq<char>| fresh_state(x)).push(fresh_state(keys.last())));
        lemma_state_of_push(init.map_values(|x: Seq<char>| fresh_state(x)), fresh_state(keys.last()), k);
        if init.contains(k) {
            let w = choose|w: int| 0 <= w < init.len() && init[w] == k;
            assert(keys[w] == k);
        }
        if keys.contains(k) && !init.contains(k) {
            let w = choose|w: int| 0 <= w < keys.len() && keys[w] == k;
            if w < init.len() {
                assert(init[w] == k);
            }
        }
        if keys.last() == k {
            assert(keys[keys.len() - 1] == k);
        }
    }
}

proof fn lemma_state_of_kept(h: Seq<HostStateView>, input: Seq<Seq<char>>, k: Seq<char>)
    ensures
        state_of(kept_states(h, input), k) == if input.contains(k) {
            state_of(h, k)
        } else {
            None
        },
    decreases h.len(),
{
    if h.len() == 0 {
        lemma_state_index(h, k);
    } else {
        let init = h.drop_last();
        lemma_state_of_kept(init, input, k);
        assert(h =~= init.push(h.last()));
        lemma_state_of_push(init, h.last(), k);
        if input.contains(h.last().local_host_key) {
            lemma_state_of_push(kept_states(init, input), h.last(), k);
        }
    }
}

proof fn lemma_new_keys_members(known: Seq<Seq<char>>, input: Seq<Seq<char>>, k: Seq<char>)
    ensures
        new_keys(known, input).contains(k) <==> (input.contains(k) && !known.contains(k)),
    decreases input.len(),
{
    lemma_new_keys_in_input(known, input);
    if input.len() > 0 {
        let init = input.drop_last();
        let prev = new_keys(known, init);
        lemma_new_keys_members(known, init, k);
        let nk = new_keys(known, input);
        if nk.contains(k) {
            let w = choose|w: int| 0 <= w < nk.len() && nk[w] == k;
            assert(input.contains(nk[w]));
            assert(!known.contains(nk[w]));
        }
        if input.contains(k) && !known.contains(k) {
            let w = choose|w: int| 0 <= w < input.len() && input[w] == k;
            if w < init.len() {
                assert(init[w] == k);
                let v = choose|v: int| 0 <= v < prev.len() && prev[v] == k;
                if (known + prev).contains(input.last()) {
                    assert(nk[v] == k);
                } else {
                    assert(nk[v] == k);
                }
            } else {
                assert(input.last() == k);
                if (known + prev).contains(k) {
                    let v = choose|v: int| 0 <= v < (known + prev).len() && (known + prev)[v] == k;
                    if v < known.len() {
                        assert(known[v] == k);
                    } else {
                        assert(prev[v - known.len()] == k);
                    }
                } else {
                    assert(nk[prev.len() as int] == k);
                }
            }
        }
    }
}

proof fn lemma_kept_keys_in_input(h: Seq<HostStateView>, input: Seq<Seq<char>>)
    ensures
        forall|i: int|
            0 <= i < kept_states(h, input).len() ==> input.contains(#[trigger] kept_states(h, input)[i].local_host_key),
    decreases h.len(),
{
    if h.len() > 0 {
        lemma_kept_keys_in_input(h.drop_last(), input);
    }
}

proof fn lemma_kept_all(h: Seq<HostStateView>, input: Seq<Seq<char>>)
    requires
        forall|i: int| 0 <= i < h.len() ==> input.contains(#[trigger] h[i].local_host_key),
    ensures
        kept_states(h, input) == h,
        dropped_keys(h, input) == Seq::<Seq<char>>::empty(),
    decreases h.len(),
{
    if h.len() > 0 {
        let init = h.drop_last();
        assert forall|i: int| 0 <= i < init.len() implies input.contains(#[trigger] init[i].local_host_key) by {
            assert(init[i] == h[i]);
        }
        lemma_kept_all(init, input);
        assert(input.contains(h[h.len() - 1].local_host_key));
        assert(init.push(h.last()) =~= h);
    }
}

/// Taking in the configured hosts leaves exactly one state per configured
/// key: the state the model already had for it, or a fresh disconnected one
/// for a key it did not know; hosts no longer configured have no state.
pub proof fn lemma_ingest_matches_config(hosts: Seq<HostStateView>, input: Seq<Seq<char>>, k: Seq<char>)
    ensures
        state_of(ingested_hosts(hosts, input), k) is Some <==> input.contains(k),
        input.contains(k) ==> state_of(ingested_hosts(hosts, input), k) == Some(
            match state_of(hosts, k) {
                Some(s) => s,
                None => fresh_state(k),
            },
        ),
{
    let kept = kept_states(hosts, input);
    let added = new_keys(state_keys(hosts), input);
    lemma_state_of_concat(kept, added.map_values(|x: Seq<char>| fresh_state(x)), k);
    lemma_state_of_kept(hosts, input, k);
    lemma_state_of_fresh(added, k);
    lemma_new_keys_members(state_keys(hosts), input, k);
    lemma_state_index(hosts, k);
    if input.contains(k) && state_of(hosts, k) is None {
        if state_keys(hosts).contains(k) {
            let w = choose|w: int| 0 <= w < state_keys(hosts).len() && state_keys(hosts)[w] == k;
            assert(hosts[w].local_host_key == k);
        }
    }
}

/// Taking in the same configured hosts a second time changes nothing and
/// reports nothing.
pub proof fn lemma_ingest_idempotent(hosts: Seq<HostStateView>, input: Seq<Seq<char>>)
    ensures
        ingested_hosts(ingested_hosts(hosts, input), input) == ingested_hosts(hosts, input),
        ingest_events(ingested_hosts(hosts, input), input) == Seq::<RemoteSessionsEventView>::empty(),
{
    let ing = ingested_hosts(hosts, input);
    let kept = kept_states(hosts, input);
    let added = new_keys(state_keys(hosts), input);
    let af = added.map_values(|x: Seq<char>| fresh_state(x));
    lemma_kept_keys_in_input(hosts, input);
    lemma_new_keys_in_input(state_keys(hosts), input);
    assert forall|i: int| 0 <= i < ing.len() implies input.contains(#[trigger] ing[i].local_host_key) by {
        if i < kept.len() {
            assert(ing[i] == kept[i]);
        } else {
            assert(ing[i] == af[i - kept.len()]);
            assert(af[i - kept.len()].local_host_key == added[i - kept.len()]);
        }
    }
    lemma_kept_all(ing, input);
    let again = new_keys(state_keys(ing), input);
    if again.len() > 0 {
        let k = again[0];
        lemma_new_keys_members(state_keys(ing), input, k);
        lemma_ingest_matches_config(hosts, input, k);
        lemma_state_index(ing, k);
        let i = state_index(ing, k)->0;
        assert(state_keys(ing)[i] == k);
    }
    assert(again =~= Seq::<Seq<char>>::empty());
    assert(ingested_hosts(ing, input) =~= ing);
    assert(ingest_events(ing, input) =~= Seq::<RemoteSessionsEventView>::empty());
}


/// Changing a known host's state by a function that keeps its key leaves the
/// host found under that key, with the changed state.
pub proof fn lemma_update_state_found(
    hosts: Seq<HostStateView>,
    key: Seq<char>,
    g: spec_fn(HostStateView) -> HostStateView,
)
    requires
        state_of(hosts, key) is Some,
        forall|v: HostStateView| (#[trigger] g(v)).local_host_key == v.local_host_key,
    ensures
        state_of(update_state(hosts, key, g), key) == Some(g(state_of(hosts, key)->0)),
{
    lemma_state_index(hosts, key);
    let i = state_index(hosts, key)->0;
    let u = update_state(hosts, key, g);
    assert(u == hosts.update(i, g(hosts[i])));
    lemma_state_index(u, key);
    let j = state_index(u, key)->0;
    if j < i {
        assert(u[j] == hosts[j]);
    }
    if state_index(u, key) is None {
        assert(u[i].local_host_key == key);
    }
    if j > i {
        assert(u[i].local_host_key == key);
    }
}

/// Once a connection to a configured host has begun, asking to connect again
/// does nothing until it has finished.
pub proof fn lemma_connect_not_repeated(hosts: Seq<HostStateView>, key: Seq<char>)
    requires
        state_of(hosts, key) is Some,
    ensures
        ({
            let after = update_state(
                hosts,
                key,
                |s: HostStateView| HostStateView { status: HostStatusView::Connecting, ..s },
            );
            state_of(after, key) matches Some(s) && s.status is Connecting
        }),
{
    lemma_update_state_found(
        hosts,
        key,
        |s: HostStateView| HostStateView { status: HostStatusView::Connecting, ..s },
    );
}

} // verus!
