//! The configured SSH hosts and the operations that keep that list.

use vstd::prelude::*;
use crate::text::chars_of;
use crate::commands::chars_eq;
use crate::model::hex_char;

verus! {

/// One SSH host the user has configured.
#[derive(Debug, PartialEq)]
pub struct RemoteHost {
    pub local_host_key: String,
    pub alias: String,
    pub host: String,
    pub port: u16,
    pub identity_file: Option<String>,
    pub ssh_options: Vec<String>,
    pub created_at: i64,
}

pub struct RemoteHostView {
    pub local_host_key: Seq<char>,
    pub alias: Seq<char>,
    pub host: Seq<char>,
    pub port: u16,
    pub identity_file: Option<Seq<char>>,
    pub ssh_options: Seq<Seq<char>>,
    pub created_at: i64,
}

pub open spec fn strings_view(v: Seq<String>) -> Seq<Seq<char>> {
    v.map_values(|s: String| s@)
}

impl View for RemoteHost {
    type V = RemoteHostView;

    open spec fn view(&self) -> RemoteHostView {
        RemoteHostView {
            local_host_key: self.local_host_key@,
            alias: self.alias@,
            host: self.host@,
            port: self.port,
            identity_file: match self.identity_file {
                Some(s) => Some(s@),
                None => None,
            },
            ssh_options: strings_view(self.ssh_options@),
            created_at: self.created_at,
        }
    }
}

/// Copies a list of strings.
pub fn clone_strings(v: &Vec<String>) -> (r: Vec<String>)
    ensures
        strings_view(r@) == strings_view(v@),
{
    let mut r: Vec<String> = Vec::new();
    let mut i: usize = 0;
    while i < v.len()
        invariant
            i <= v.len(),
            strings_view(r@) == strings_view(v@.take(i as int)),
        decreases v.len() - i,
    {
        let c = v[i].clone();
        let ghost old_r = r@;
        r.push(c);
        assert(v@.take(i + 1) =~= v@.take(i as int).push(v@[i as int]));
        assert(strings_view(v@.take(i as int).push(v@[i as int])) =~= strings_view(v@.take(i as int)).push(v@[i as int]@));
        assert(strings_view(r@) =~= strings_view(old_r).push(c@));
        i += 1;
    }
    assert(v@.take(v.len() as int) =~= v@);
    r
}

impl Clone for RemoteHost {
    fn clone(&self) -> (r: Self)
        ensures
            r@ == self@,
    {
        RemoteHost {
            local_host_key: self.local_host_key.clone(),
            alias: self.alias.clone(),
            host: self.host.clone(),
            port: self.port,
            identity_file: match &self.identity_file {
                Some(s) => Some(s.clone()),
                None => None,
            },
            ssh_options: clone_strings(&self.ssh_options),
            created_at: self.created_at,
        }
    }
}

impl Default for RemoteHost {
    fn default() -> (r: Self)
        ensures
            r@.local_host_key.len() == 0,
            r@.alias.len() == 0,
            r@.host.len() == 0,
            r@.port == 0,
            r@.identity_file is None,
            r@.ssh_options.len() == 0,
            r@.created_at == 0,
    {
        RemoteHost {
            local_host_key: String::new(),
            alias: String::new(),
            host: String::new(),
            port: 0,
            identity_file: None,
            ssh_options: Vec::new(),
            created_at: 0,
        }
    }
}

/// A string in the hyphenated lower-case form of a UUID:
/// `xxxxxxxx-xxxx-xxxx-xxxx-xxxxxxxxxxxx` with lower-case hex digits.
pub open spec fn is_hyphenated_uuid(s: Seq<char>) -> bool {
    &&& s.len() == 36
    &&& forall|i: int|
        0 <= i < 36 ==> if i == 8 || i == 13 || i == 18 || i == 23 {
            #[trigger] s[i] == '-'
        } else {
            ('0' <= s[i] && s[i] <= '9') || ('a' <= s[i] && s[i] <= 'f')
        }
}

/// Byte `i` of a version-4 UUID made from the random bytes `b`: byte 6
/// carries the version (4) in its high nibble, byte 8 the RFC 4122 variant in
/// its two high bits, the others are `b`'s.
pub open spec fn v4_byte(b: Seq<u8>, i: int) -> u8 {
    if i == 6 {
        (b[6] & 0x0fu8) | 0x40u8
    } else if i == 8 {
        (b[8] & 0x3fu8) | 0x80u8
    } else {
        b[i]
    }
}

/// The number of hyphens before position `p` of a hyphenated UUID.
pub open spec fn hyphens_before(p: int) -> int {
    if p < 8 {
        0
    } else if p < 13 {
        1
    } else if p < 18 {
        2
    } else if p < 23 {
        3
    } else {
        4
    }
}

/// The hyphenated lower-case text of the version-4 UUID made from the random
/// bytes `b`: each byte as two hex digits, high nibble first, in groups of
/// 4, 2, 2, 2 and 6 bytes joined by `-`.
pub open spec fn v4_uuid_text(b: Seq<u8>) -> Seq<char> {
    Seq::new(
        36,
        |p: int|
            if p == 8 || p == 13 || p == 18 || p == 23 {
                '-'
            } else {
                let k = p - hyphens_before(p);
                let byte = v4_byte(b, k / 2);
                if k % 2 == 0 {
                    hex_char((byte / 16) as nat)
                } else {
                    hex_char((byte % 16) as nat)
                }
            },
    )
}

proof fn lemma_hex_char(d: nat)
    requires
        d < 16,
    ensures
        ('0' <= hex_char(d) && hex_char(d) <= '9') || ('a' <= hex_char(d) && hex_char(d) <= 'f'),
        d == 4 ==> hex_char(d) == '4',
{
}

/// The text of a version-4 UUID is a hyphenated lower-case UUID whose
/// version digit is `4`.
proof fn lemma_v4_uuid_text(b: Seq<u8>)
    requires
        b.len() == 16,
    ensures
        is_hyphenated_uuid(v4_uuid_text(b)),
        v4_uuid_text(b)[14] == '4',
{
    let t = v4_uuid_text(b);
    assert forall|p: int| 0 <= p < 36 implies if p == 8 || p == 13 || p == 18 || p == 23 {
        #[trigger] t[p] == '-'
    } else {
        ('0' <= t[p] && t[p] <= '9') || ('a' <= t[p] && t[p] <= 'f')
    } by {
        if !(p == 8 || p == 13 || p == 18 || p == 23) {
            let k = p - hyphens_before(p);
            let byte = v4_byte(b, k / 2);
            lemma_hex_char((byte / 16) as nat);
            lemma_hex_char((byte % 16) as nat);
        }
    }
    let b6 = b[6];
    assert(((b6 & 0x0fu8) | 0x40u8) / 16 == 4) by (bit_vector);
    lemma_hex_char(4);
}

/// Sixteen bytes from the operating system's random source:
/// `getrandom::fill`. Nothing is claimed of the bytes, which are random;
/// `None` when the random source fails.
#[verifier::external_body]
fn random_bytes() -> (r: Option<[u8; 16]>) {
    let mut bytes = [0u8; 16];
    match getrandom::fill(&mut bytes) {
        Ok(()) => Some(bytes),
        Err(_) => None,
    }
}

/// `uuid::Builder::from_random_bytes(bytes).into_uuid()` written with its
/// `Display` impl. Claimed: the text is [`v4_uuid_text`] of the bytes, which
/// is what the crate's source (1.29.0) does: `with_variant` and
/// `with_version` set the bits of bytes 8 and 6, and `Display` writes the
/// hyphenated form in lower-case hex.
#[verifier::external_body]
fn uuid_text(bytes: [u8; 16]) -> (s: String)
    ensures
        s@ == v4_uuid_text(bytes@),
{
    uuid::Builder::from_random_bytes(bytes).into_uuid().to_string()
}

#[verifier::external_type_specification]
#[verifier::external_body]
pub struct ExSystemTime(std::time::SystemTime);

/// `std::time::SystemTime::now`. Nothing is claimed: the time is the
/// clock's.
#[verifier::external_body]
fn system_now() -> std::time::SystemTime {
    std::time::SystemTime::now()
}

/// `SystemTime::duration_since(UNIX_EPOCH)`: the time since the epoch,
/// `None` when `t` is before it. Nothing is claimed of the `Duration`, which
/// is opaque to the library.
#[verifier::external_body]
fn duration_since_epoch(t: &std::time::SystemTime) -> Option<std::time::Duration> {
    t.duration_since(std::time::UNIX_EPOCH).ok()
}

/// `Duration::as_secs`: the whole seconds of `d`. Nothing is claimed: `d`
/// is opaque to the library.
#[verifier::external_body]
fn whole_seconds(d: &std::time::Duration) -> u64 {
    d.as_secs()
}

/// The current time in whole seconds since the Unix epoch; `None` when the
/// clock reads before the epoch, or too far after it for an `i64`.
pub fn current_unix_time() -> (r: Option<i64>)
    ensures
        r matches Some(t) ==> t >= 0,
{
    let now = system_now();
    match duration_since_epoch(&now) {
        Some(d) => {
            let secs = whole_seconds(&d);
            if secs <= i64::MAX as u64 {
                Some(secs as i64)
            } else {
                None
            }
        },
        None => None,
    }
}

impl RemoteHost {
    /// A fresh key for a newly added host: the text of a random version-4
    /// UUID; `None` when the random source fails.
    pub fn new_local_host_key() -> (r: Option<String>)
        ensures
            r matches Some(s) ==> is_hyphenated_uuid(s@) && s@[14] == '4',
    {
        match random_bytes() {
            Some(bytes) => {
                let s = uuid_text(bytes);
                proof {
                    lemma_v4_uuid_text(bytes@);
                }
                Some(s)
            },
            None => None,
        }
    }

    /// The identity file to pass to ssh, if one is set and not empty.
    pub fn identity_file_arg(&self) -> (r: Option<&str>)
        ensures
            match self@.identity_file {
                Some(f) => if f.len() > 0 {
                    r matches Some(x) && x@ == f
                } else {
                    r is None
                },
                None => r is None,
            },
    {
        match &self.identity_file {
            Some(f) => {
                if f.as_str().unicode_len() > 0 {
                    Some(f.as_str())
                } else {
                    None
                }
            },
            None => None,
        }
    }
}

// ---------------------------------------------------------------------------
// The host list
// ---------------------------------------------------------------------------

pub open spec fn hosts_view(v: Seq<RemoteHost>) -> Seq<RemoteHostView> {
    v.map_values(|h: RemoteHost| h@)
}

/// The first position of a host with key `key`.
pub open spec fn key_index(hosts: Seq<RemoteHostView>, key: Seq<char>) -> Option<int>
    decreases hosts.len(),
{
    if hosts.len() == 0 {
        None
    } else {
        match key_index(hosts.drop_last(), key) {
            Some(i) => Some(i),
            None => if hosts.last().local_host_key == key {
                Some(hosts.len() - 1)
            } else {
                None
            },
        }
    }
}

/// The host with key `key`, if any.
pub open spec fn find_host(hosts: Seq<RemoteHostView>, key: Seq<char>) -> Option<RemoteHostView> {
    match key_index(hosts, key) {
        Some(i) => Some(hosts[i]),
        None => None,
    }
}

/// `hosts` with `h` stored: in place of the host with the same key, or at the
/// end when there is none.
pub open spec fn upserted(hosts: Seq<RemoteHostView>, h: RemoteHostView) -> Seq<RemoteHostView> {
    match key_index(hosts, h.local_host_key) {
        Some(i) => hosts.update(i, h),
        None => hosts.push(h),
    }
}

/// `hosts` without any host whose key is `key`, in the same order.
pub open spec fn without_key(hosts: Seq<RemoteHostView>, key: Seq<char>) -> Seq<RemoteHostView>
    decreases hosts.len(),
{
    if hosts.len() == 0 {
        hosts
    } else {
        let init = without_key(hosts.drop_last(), key);
        if hosts.last().local_host_key == key {
            init
        } else {
            init.push(hosts.last())
        }
    }
}

/// No two hosts share a key.
pub open spec fn keys_unique(hosts: Seq<RemoteHostView>) -> bool {
    forall|i: int, j: int|
        0 <= i < hosts.len() && 0 <= j < hosts.len() && i != j ==> hosts[i].local_host_key
            != hosts[j].local_host_key
}

pub proof fn lemma_key_index(hosts: Seq<RemoteHostView>, key: Seq<char>)
    ensures
        match key_index(hosts, key) {
            Some(i) => 0 <= i < hosts.len() && hosts[i].local_host_key == key && forall|j: int|
                0 <= j < i ==> hosts[j].local_host_key != key,
            None => forall|j: int| 0 <= j < hosts.len() ==> hosts[j].local_host_key != key,
        },
    decreases hosts.len(),
{
    if hosts.len() > 0 {
        lemma_key_index(hosts.drop_last(), key);
        match key_index(hosts.drop_last(), key) {
            Some(i) => {
                assert forall|j: int| 0 <= j < i implies hosts[j].local_host_key != key by {
                    assert(hosts.drop_last()[j] == hosts[j]);
                }
                assert(hosts.drop_last()[i] == hosts[i]);
            },
            None => {
                assert forall|j: int| 0 <= j < hosts.len() - 1 implies hosts[j].local_host_key != key by {
                    assert(hosts.drop_last()[j] == hosts[j]);
                }
            },
        }
    }
}

/// The settings of the remote sessions feature: the configured hosts and the
/// heartbeat interval of the control connection.
pub struct RemoteSessionsSettings {
    pub hosts: Vec<RemoteHost>,
    pub heartbeat_interval_seconds: u32,
}

pub struct RemoteSessionsSettingsView {
    pub hosts: Seq<RemoteHostView>,
    pub heartbeat_interval_seconds: u32,
}

impl View for RemoteSessionsSettings {
    type V = RemoteSessionsSettingsView;

    open spec fn view(&self) -> RemoteSessionsSettingsView {
        RemoteSessionsSettingsView {
            hosts: hosts_view(self.hosts@),
            heartbeat_interval_seconds: self.heartbeat_interval_seconds,
        }
    }
}

/// Whether two strings hold the same text.
pub fn str_eq(a: &str, b: &str) -> (r: bool)
    ensures
        r == (a@ == b@),
{
    let x = chars_of(a);
    let y = chars_of(b);
    chars_eq(&x, &y)
}

impl Default for RemoteSessionsSettings {
    /// No hosts, and a heartbeat every 30 seconds.
    fn default() -> (r: Self)
        ensures
            r@.hosts.len() == 0,
            r@.heartbeat_interval_seconds == 30,
    {
        RemoteSessionsSettings { hosts: Vec::new(), heartbeat_interval_seconds: 30 }
    }
}

impl RemoteSessionsSettings {
    /// The position of the host with key `key`.
    pub fn position_of(&self, key: &str) -> (r: Option<usize>)
        ensures
            r is None <==> key_index(self@.hosts, key@) is None,
            r matches Some(i) ==> key_index(self@.hosts, key@) == Some(i as int) && i < self.hosts.len(),
    {
        let mut i: usize = 0;
        while i < self.hosts.len()
            invariant
                i <= self.hosts.len(),
                forall|j: int| 0 <= j < i ==> self@.hosts[j].local_host_key != key@,
            decreases self.hosts.len() - i,
        {
            if str_eq(self.hosts[i].local_host_key.as_str(), key) {
                proof {
                    lemma_key_index(self@.hosts, key@);
                    match key_index(self@.hosts, key@) {
                        Some(k) => {
                            if k < i {
                            } else if k > i {
                                assert(self@.hosts[i as int].local_host_key == key@);
                            }
                        },
                        None => {
                            assert(self@.hosts[i as int].local_host_key == key@);
                        },
                    }
                }
                return Some(i);
            }
            i += 1;
        }
        proof {
            lemma_key_index(self@.hosts, key@);
            if key_index(self@.hosts, key@) is Some {
                let k = key_index(self@.hosts, key@)->0;
                assert(self@.hosts[k].local_host_key == key@);
            }
        }
        None
    }

    /// The host with key `key`, if one is configured.
    pub fn host_by_key(&self, key: &str) -> (r: Option<&RemoteHost>)
        ensures
            match find_host(self@.hosts, key@) {
                Some(h) => r matches Some(x) && x@ == h,
                None => r is None,
            },
    {
        match self.position_of(key) {
            Some(i) => Some(&self.hosts[i]),
            None => None,
        }
    }

    /// Stores `host`: it replaces the host with the same key, or is added at
    /// the end when there is none.
    pub fn upsert_host(&mut self, host: RemoteHost)
        ensures
            final(self)@.hosts == upserted(old(self)@.hosts, host@),
            final(self)@.heartbeat_interval_seconds == old(self)@.heartbeat_interval_seconds,
    {
        let ghost old_hosts = self@.hosts;
        let ghost h = host@;
        match self.position_of(host.local_host_key.as_str()) {
            Some(idx) => {
                self.hosts.set(idx, host);
                assert(self@.hosts =~= old_hosts.update(idx as int, h));
            },
            None => {
                self.hosts.push(host);
                assert(self@.hosts =~= old_hosts.push(h));
            },
        }
    }

    /// Removes every host whose key is `local_host_key`.
    pub fn remove_host(&mut self, local_host_key: &str)
        ensures
            final(self)@.hosts == without_key(old(self)@.hosts, local_host_key@),
            final(self)@.heartbeat_interval_seconds == old(self)@.heartbeat_interval_seconds,
    {
        let ghost old_hosts = self@.hosts;
        let mut kept: Vec<RemoteHost> = Vec::new();
        let mut rest: Vec<RemoteHost> = Vec::new();
        std::mem::swap(&mut rest, &mut self.hosts);
        let ghost all = hosts_view(rest@);
        assert(all == old_hosts);
        let n = rest.len();
        assert(all.take(0) =~= Seq::<RemoteHostView>::empty());
        assert(all.skip(0) =~= all);
        while rest.len() > 0
            invariant
                rest.len() <= n,
                n == all.len(),
                hosts_view(rest@) == all.skip(n - rest.len()),
                hosts_view(kept@) == without_key(all.take(n - rest.len()), local_host_key@),
            decreases rest.len(),
        {
            let ghost k = n - rest.len();
            let ghost old_rest = rest@;
            let h = rest.remove(0);
            assert(h@ == hosts_view(old_rest)[0]);
            assert(h@ == all[k]);
            assert(rest@ == old_rest.remove(0));
            assert forall|j: int| 0 <= j < rest@.len() implies #[trigger] hosts_view(rest@)[j] == all.skip(k + 1)[j] by {
                assert(rest@[j] == old_rest[j + 1]);
                assert(hosts_view(old_rest)[j + 1] == all.skip(k)[j + 1]);
            }
            assert(hosts_view(rest@) =~= all.skip(k + 1));
            assert(all.take(k + 1).drop_last() =~= all.take(k));
            if !str_eq(h.local_host_key.as_str(), local_host_key) {
                let ghost old_kept = kept@;
                kept.push(h);
                assert(hosts_view(kept@) =~= hosts_view(old_kept).push(all[k]));
            }
        }
        assert(all.take(n as int) =~= all);
        self.hosts = kept;
    }
}

// ---------------------------------------------------------------------------
// Laws of the host list
// ---------------------------------------------------------------------------

/// After a host is stored, looking its key up gives that host.
pub proof fn lemma_upsert_then_find(hosts: Seq<RemoteHostView>, h: RemoteHostView)
    ensures
        find_host(upserted(hosts, h), h.local_host_key) == Some(h),
{
    lemma_key_index(hosts, h.local_host_key);
    let u = upserted(hosts, h);
    lemma_key_index(u, h.local_host_key);
    match key_index(hosts, h.local_host_key) {
        Some(i) => {
            let k = key_index(u, h.local_host_key);
            if k != Some(i) {
                assert(u[i].local_host_key == h.local_host_key);
            }
        },
        None => {
            let k = key_index(u, h.local_host_key);
            if k != Some(hosts.len() as int) {
                assert(u[hosts.len() as int].local_host_key == h.local_host_key);
                if k is Some {
                    assert(u[k->0] == hosts[k->0]);
                }
            }
        },
    }
}

/// Storing a host leaves every other key's host as it was.
pub proof fn lemma_upsert_keeps_others(hosts: Seq<RemoteHostView>, h: RemoteHostView, key: Seq<char>)
    requires
        key != h.local_host_key,
    ensures
        find_host(upserted(hosts, h), key) == find_host(hosts, key),
{
    lemma_key_index(hosts, key);
    lemma_key_index(hosts, h.local_host_key);
    let u = upserted(hosts, h);
    lemma_key_index(u, key);
    match key_index(hosts, key) {
        Some(i) => {
            let k = key_index(u, key);
            if k != Some(i) {
                assert(u[i] == hosts[i]);
                if k is Some {
                    assert(u[k->0] == hosts[k->0]);
                }
            }
        },
        None => {
            if key_index(u, key) is Some {
                let k = key_index(u, key)->0;
                if k < hosts.len() {
                    assert(u[k] == hosts[k] || u[k] == h);
                }
            }
        },
    }
}

/// Storing a host keeps the keys of the list distinct.
pub proof fn lemma_upsert_keeps_keys_unique(hosts: Seq<RemoteHostView>, h: RemoteHostView)
    requires
        keys_unique(hosts),
    ensures
        keys_unique(upserted(hosts, h)),
{
    lemma_key_index(hosts, h.local_host_key);
}

/// Storing the same host twice is the same as storing it once.
pub proof fn lemma_upsert_idempotent(hosts: Seq<RemoteHostView>, h: RemoteHostView)
    ensures
        upserted(upserted(hosts, h), h) == upserted(hosts, h),
{
    lemma_key_index(hosts, h.local_host_key);
    let u = upserted(hosts, h);
    lemma_key_index(u, h.local_host_key);
    match key_index(hosts, h.local_host_key) {
        Some(i) => {
            if key_index(u, h.local_host_key) != Some(i) {
                assert(u[i].local_host_key == h.local_host_key);
                let k = key_index(u, h.local_host_key)->0;
                assert(u[k] == hosts[k]);
            }
            assert(u.update(i, h) =~= u);
        },
        None => {
            let k = hosts.len() as int;
            if key_index(u, h.local_host_key) != Some(k) {
                assert(u[k].local_host_key == h.local_host_key);
                let k2 = key_index(u, h.local_host_key)->0;
                assert(u[k2] == hosts[k2]);
            }
            assert(u.update(k, h) =~= u);
        },
    }
}

proof fn lemma_without_key_members(hosts: Seq<RemoteHostView>, key: Seq<char>)
    ensures
        forall|j: int| 0 <= j < without_key(hosts, key).len() ==>
            #[trigger] without_key(hosts, key)[j].local_host_key != key,
    decreases hosts.len(),
{
    if hosts.len() > 0 {
        lemma_without_key_members(hosts.drop_last(), key);
    }
}

/// After a key is removed, no host has it.
pub proof fn lemma_remove_then_find(hosts: Seq<RemoteHostView>, key: Seq<char>)
    ensures
        find_host(without_key(hosts, key), key) is None,
{
    lemma_without_key_members(hosts, key);
    lemma_key_index(without_key(hosts, key), key);
}

/// Removing a key leaves every other key's host as it was, as long as the
/// keys are distinct.
pub proof fn lemma_remove_keeps_others(hosts: Seq<RemoteHostView>, key: Seq<char>, other: Seq<char>)
    requires
        other != key,
    ensures
        find_host(without_key(hosts, key), other) == find_host(hosts, other),
    decreases hosts.len(),
{
    if hosts.len() > 0 {
        let init = hosts.drop_last();
        lemma_remove_keeps_others(init, key, other);
        lemma_key_index(init, other);
        lemma_key_index(hosts, other);
        let w = without_key(init, key);
        lemma_key_index(w, other);
        if hosts.last().local_host_key != key {
            let w2 = w.push(hosts.last());
            lemma_key_index(w2, other);
            match key_index(w, other) {
                Some(i) => {
                    assert(w2[i] == w[i]);
                    if key_index(w2, other) != Some(i) {
                        let k = key_index(w2, other)->0;
                        assert(w2[k] == w[k]);
                    }
                },
                None => {
                    if key_index(w2, other) is Some {
                        let k = key_index(w2, other)->0;
                        if k < w.len() {
                            assert(w2[k] == w[k]);
                        }
                    }
                },
            }
        }
    }
}

} // verus!
