//! The logic of the remote hosts settings page: reading the host form,
//! filling it from a host, and saving what it holds.

use vstd::prelude::*;
use crate::text::{
    chars_of, decimal, decimal_chars, is_ascii_digit, is_ws, lemma_decimal_digits,
    lemma_parse_decimal, parse_u16_chars, parse_u32_chars, parse_unsigned, starts_with,
    starts_with_chars, string_from_chars, trim, trim_chars, trim_end, trim_start,
};
use crate::types::{HostCapabilities, HostError, host_error_message, opt_string_view};
use crate::remote_hosts::{
    clone_strings, find_host, is_hyphenated_uuid, strings_view, upserted, RemoteHost,
    RemoteHostView, RemoteSessionsSettings,
};

verus! {

/// The port used when the form leaves it empty.
pub const DEFAULT_PORT: u16 = 22;

/// The smallest heartbeat interval the page accepts, in seconds.
pub const MIN_HEARTBEAT: u32 = 10;

/// The largest heartbeat interval the page accepts, in seconds.
pub const MAX_HEARTBEAT: u32 = 120;

/// A validated host form.
#[derive(Debug)]
pub struct HostSubmission {
    alias: String,
    host: String,
    port: u16,
    identity_file: Option<String>,
    ssh_options: Vec<String>,
}

pub struct HostSubmissionView {
    pub alias: Seq<char>,
    pub host: Seq<char>,
    pub port: u16,
    pub identity_file: Option<Seq<char>>,
    pub ssh_options: Seq<Seq<char>>,
}

impl View for HostSubmission {
    type V = HostSubmissionView;

    closed spec fn view(&self) -> HostSubmissionView {
        HostSubmissionView {
            alias: self.alias@,
            host: self.host@,
            port: self.port,
            identity_file: match self.identity_file {
                Some(s) => Some(s@),
                None => None,
            },
            ssh_options: strings_view(self.ssh_options@),
        }
    }
}

impl Clone for HostSubmission {
    fn clone(&self) -> (r: Self)
        ensures
            r@ == self@,
    {
        HostSubmission {
            alias: self.alias.clone(),
            host: self.host.clone(),
            port: self.port,
            identity_file: match &self.identity_file {
                Some(s) => Some(s.clone()),
                None => None,
            },
            ssh_options: clone_strings(&self.ssh_options),
        }
    }
}

/// The text of the form's fields, as typed.
#[derive(Debug)]
pub struct HostFormFields {
    pub alias: String,
    pub host: String,
    pub port: String,
    pub identity_file: String,
    pub ssh_options: String,
}

pub struct HostFormFieldsView {
    pub alias: Seq<char>,
    pub host: Seq<char>,
    pub port: Seq<char>,
    pub identity_file: Seq<char>,
    pub ssh_options: Seq<char>,
}

impl View for HostFormFields {
    type V = HostFormFieldsView;

    open spec fn view(&self) -> HostFormFieldsView {
        HostFormFieldsView {
            alias: self.alias@,
            host: self.host@,
            port: self.port@,
            identity_file: self.identity_file@,
            ssh_options: self.ssh_options@,
        }
    }
}

// ---------------------------------------------------------------------------
// Reading the form
// ---------------------------------------------------------------------------

pub open spec fn is_option_separator(c: char) -> bool {
    c == ',' || c == '\n'
}

/// The SSH options text split at commas and line breaks.
pub open spec fn option_pieces(s: Seq<char>) -> Seq<Seq<char>>
    decreases s.len(),
{
    if s.len() == 0 {
        seq![Seq::<char>::empty()]
    } else {
        let init = option_pieces(s.drop_last());
        if is_option_separator(s.last()) {
            init.push(Seq::<char>::empty())
        } else {
            init.update(init.len() - 1, init.last().push(s.last()))
        }
    }
}

/// The pieces trimmed, without the empty ones.
pub open spec fn nonblank_trimmed(pieces: Seq<Seq<char>>) -> Seq<Seq<char>>
    decreases pieces.len(),
{
    if pieces.len() == 0 {
        Seq::<Seq<char>>::empty()
    } else {
        let init = nonblank_trimmed(pieces.drop_last());
        if trim(pieces.last()).len() > 0 {
            init.push(trim(pieces.last()))
        } else {
            init
        }
    }
}

/// The SSH options a form text gives: split at commas and line breaks,
/// trimmed, empty ones dropped.
pub open spec fn parse_ssh_options(s: Seq<char>) -> Seq<Seq<char>> {
    nonblank_trimmed(option_pieces(s))
}

/// The form read into a submission, or the message that says what is wrong:
/// alias and host are required, the port defaults to 22 and must be a number
/// from 1 to 65535, an empty identity file means none.
pub open spec fn submission_spec(f: HostFormFieldsView) -> Result<HostSubmissionView, Seq<char>> {
    let alias = trim(f.alias);
    let host = trim(f.host);
    let port_text = trim(f.port);
    let identity = trim(f.identity_file);
    if alias.len() == 0 {
        Err("Alias is required."@)
    } else if host.len() == 0 {
        Err("Host is required."@)
    } else if port_text.len() > 0 && !(parse_unsigned(port_text, 0xffff) matches Some(p) && p > 0) {
        Err("Port must be a number between 1 and 65535."@)
    } else {
        Ok(HostSubmissionView {
            alias,
            host,
            port: if port_text.len() == 0 {
                22u16
            } else {
                parse_unsigned(port_text, 0xffff)->0 as u16
            },
            identity_file: if identity.len() == 0 {
                None
            } else {
                Some(identity)
            },
            ssh_options: parse_ssh_options(f.ssh_options),
        })
    }
}

proof fn lemma_option_pieces_nonempty(s: Seq<char>)
    ensures
        option_pieces(s).len() >= 1,
    decreases s.len(),
{
    if s.len() > 0 {
        lemma_option_pieces_nonempty(s.drop_last());
    }
}

fn parse_ssh_options_exec(text: &String) -> (r: Vec<String>)
    ensures
        strings_view(r@) == parse_ssh_options(text@),
{
    let s = chars_of(text.as_str());
    let mut out: Vec<String> = Vec::new();
    let mut cur: Vec<char> = Vec::new();
    let mut i: usize = 0;
    assert(s@.take(0) =~= Seq::<char>::empty());
    while i < s.len()
        invariant
            i <= s.len(),
            option_pieces(s@.take(i as int)).len() >= 1,
            option_pieces(s@.take(i as int)).last() == cur@,
            strings_view(out@) == nonblank_trimmed(option_pieces(s@.take(i as int)).drop_last()),
        decreases s.len() - i,
    {
        let c = s[i];
        let ghost prev = option_pieces(s@.take(i as int));
        assert(s@.take(i + 1).drop_last() =~= s@.take(i as int));
        if c == ',' || c == '\n' {
            let t = trim_chars(&cur);
            let ghost old_out = out@;
            if t.len() > 0 {
                out.push(string_from_chars(&t));
                assert(strings_view(out@) =~= strings_view(old_out).push(t@));
            }
            assert(option_pieces(s@.take(i + 1)).drop_last() =~= prev);
            assert(prev.drop_last().push(prev.last()) =~= prev);
            cur = Vec::new();
        } else {
            cur.push(c);
            assert(option_pieces(s@.take(i + 1)).drop_last() =~= prev.drop_last());
        }
        i += 1;
    }
    assert(s@.take(s.len() as int) =~= s@);
    proof {
        lemma_option_pieces_nonempty(s@);
    }
    let ghost pieces = option_pieces(s@);
    assert(pieces.drop_last().push(pieces.last()) =~= pieces);
    let t = trim_chars(&cur);
    if t.len() > 0 {
        let ghost old_out = out@;
        out.push(string_from_chars(&t));
        assert(strings_view(out@) =~= strings_view(old_out).push(t@));
    }
    out
}

/// Reads the form; see [`submission_spec`].
pub fn build_submission(fields: &HostFormFields) -> (r: Result<HostSubmission, String>)
    ensures
        match submission_spec(fields@) {
            Ok(s) => r matches Ok(x) && x@ == s,
            Err(m) => r matches Err(x) && x@ == m,
        },
{
    let alias = trim_chars(&chars_of(fields.alias.as_str()));
    let host = trim_chars(&chars_of(fields.host.as_str()));
    let port_text = trim_chars(&chars_of(fields.port.as_str()));
    let identity = trim_chars(&chars_of(fields.identity_file.as_str()));
    if alias.len() == 0 {
        return Err(String::from_str("Alias is required."));
    }
    if host.len() == 0 {
        return Err(String::from_str("Host is required."));
    }
    let port: u16 = if port_text.len() == 0 {
        DEFAULT_PORT
    } else {
        match parse_u16_chars(&port_text) {
            Some(p) => {
                if p > 0 {
                    p
                } else {
                    return Err(String::from_str("Port must be a number between 1 and 65535."));
                }
            },
            None => return Err(String::from_str("Port must be a number between 1 and 65535.")),
        }
    };
    let ssh_options = parse_ssh_options_exec(&fields.ssh_options);
    let identity_file = if identity.len() == 0 {
        None
    } else {
        Some(string_from_chars(&identity))
    };
    Ok(HostSubmission {
        alias: string_from_chars(&alias),
        host: string_from_chars(&host),
        port,
        identity_file,
        ssh_options,
    })
}

/// The form field a validation message is about.
#[derive(Debug, Clone, Copy, PartialEq, Eq, Structural)]
pub enum FormField {
    Alias,
    Host,
    Port,
}

pub open spec fn focus_spec(message: Seq<char>) -> Option<FormField> {
    if starts_with(message, "Alias"@) {
        Some(FormField::Alias)
    } else if starts_with(message, "Host"@) {
        Some(FormField::Host)
    } else if starts_with(message, "Port"@) {
        Some(FormField::Port)
    } else {
        None
    }
}

/// The field to focus after a failed submission: the one whose name starts
/// the message.
pub fn focus_for_error(message: &str) -> (r: Option<FormField>)
    ensures
        r == focus_spec(message@),
{
    let m = chars_of(message);
    let alias = chars_of("Alias");
    let host = chars_of("Host");
    let port = chars_of("Port");
    if starts_with_chars(&m, &alias) {
        Some(FormField::Alias)
    } else if starts_with_chars(&m, &host) {
        Some(FormField::Host)
    } else if starts_with_chars(&m, &port) {
        Some(FormField::Port)
    } else {
        None
    }
}

// ---------------------------------------------------------------------------
// Filling the form
// ---------------------------------------------------------------------------

/// The options written back into the form: joined with `", "`.
pub open spec fn joined_options(opts: Seq<Seq<char>>) -> Seq<char>
    decreases opts.len(),
{
    if opts.len() == 0 {
        Seq::<char>::empty()
    } else if opts.len() == 1 {
        opts[0]
    } else {
        joined_options(opts.drop_last()) + ", "@ + opts.last()
    }
}

/// The form as it opens: for a new host only the default port, for an
/// existing one its alias, host, port, identity file and options.
pub open spec fn form_fields_spec(h: Option<RemoteHostView>) -> HostFormFieldsView {
    match h {
        Some(h) => HostFormFieldsView {
            alias: h.alias,
            host: h.host,
            port: decimal(h.port as nat),
            identity_file: match h.identity_file {
                Some(f) => f,
                None => Seq::<char>::empty(),
            },
            ssh_options: joined_options(h.ssh_options),
        },
        None => HostFormFieldsView {
            alias: Seq::<char>::empty(),
            host: Seq::<char>::empty(),
            port: "22"@,
            identity_file: Seq::<char>::empty(),
            ssh_options: Seq::<char>::empty(),
        },
    }
}

fn join_options(opts: &Vec<String>) -> (r: String)
    ensures
        r@ == joined_options(strings_view(opts@)),
{
    let mut r = String::new();
    let mut i: usize = 0;
    while i < opts.len()
        invariant
            i <= opts.len(),
            r@ == joined_options(strings_view(opts@).take(i as int)),
        decreases opts.len() - i,
    {
        let ghost v = strings_view(opts@);
        assert(v.take(i + 1).drop_last() =~= v.take(i as int));
        if i > 0 {
            r.append(", ");
        }
        r.append(opts[i].as_str());
        proof {
            if i == 0 {
                assert(v.take(1) =~= seq![v[0]]);
                assert(r@ =~= joined_options(v.take(1)));
            } else {
                assert(r@ =~= joined_options(v.take(i + 1)));
            }
        }
        i += 1;
    }
    assert(strings_view(opts@).take(opts.len() as int) =~= strings_view(opts@));
    r
}

/// The form's text for `host`; see [`form_fields_spec`].
pub fn form_fields_for(host: Option<&RemoteHost>) -> (r: HostFormFields)
    ensures
        r@ == form_fields_spec(match host {
            Some(h) => Some(h@),
            None => None,
        }),
{
    match host {
        Some(h) => {
            let port = decimal_chars(h.port as u64);
            HostFormFields {
                alias: h.alias.clone(),
                host: h.host.clone(),
                port: string_from_chars(&port),
                identity_file: match &h.identity_file {
                    Some(f) => f.clone(),
                    None => String::new(),
                },
                ssh_options: join_options(&h.ssh_options),
            }
        },
        None => HostFormFields {
            alias: String::new(),
            host: String::new(),
            port: String::from_str("22"),
            identity_file: String::new(),
            ssh_options: String::new(),
        },
    }
}

/// Non-empty, with no whitespace at either end.
pub open spec fn is_trimmed(s: Seq<char>) -> bool {
    s.len() > 0 && !is_ws(s[0]) && !is_ws(s.last())
}

proof fn lemma_trim_trimmed(s: Seq<char>)
    requires
        is_trimmed(s),
    ensures
        trim(s) == s,
{
}

proof fn lemma_trim_space_prefix(s: Seq<char>)
    requires
        is_trimmed(s),
    ensures
        trim(seq![' '] + s) == s,
{
    let t = seq![' '] + s;
    assert(t.last() == s.last());
    assert(t[0] == ' ');
    assert(t.drop_first() =~= s);
    assert(trim_end(t) == t);
    assert(trim_start(t) == trim_start(t.drop_first()));
    assert(trim_start(s) == s);
}

proof fn lemma_pieces_append(s: Seq<char>, t: Seq<char>)
    requires
        forall|j: int| 0 <= j < t.len() ==> !is_option_separator(#[trigger] t[j]),
    ensures
        option_pieces(s + t) == option_pieces(s).update(
            option_pieces(s).len() - 1,
            option_pieces(s).last() + t,
        ),
    decreases t.len(),
{
    lemma_option_pieces_nonempty(s);
    let p = option_pieces(s);
    if t.len() == 0 {
        assert(s + t =~= s);
        assert(p.last() + t =~= p.last());
        assert(p.update(p.len() - 1, p.last()) =~= p);
    } else {
        let t0 = t.drop_last();
        assert forall|j: int| 0 <= j < t0.len() implies !is_option_separator(#[trigger] t0[j]) by {
            assert(t0[j] == t[j]);
        }
        lemma_pieces_append(s, t0);
        assert((s + t).drop_last() =~= s + t0);
        assert((s + t).last() == t.last());
        assert(!is_option_separator(t[t.len() - 1]));
        let q = option_pieces(s + t0);
        assert(q.len() == p.len());
        assert(q.last() == p.last() + t0);
        assert(q.update(q.len() - 1, q.last().push(t.last())) =~= p.update(p.len() - 1, p.last() + t)) by {
            assert((p.last() + t0).push(t.last()) =~= p.last() + t);
        }
    }
}

/// The pieces of joined options: the first option, then each later one
/// behind the space that follows its comma.
proof fn lemma_pieces_of_joined(opts: Seq<Seq<char>>)
    requires
        opts.len() >= 1,
        forall|i: int, j: int|
            0 <= i < opts.len() && 0 <= j < opts[i].len() ==> !is_option_separator(#[trigger] opts[i][j]),
    ensures
        option_pieces(joined_options(opts)) == Seq::new(
            opts.len(),
            |i: int| if i == 0 { opts[0] } else { seq![' '] + opts[i] },
        ),
    decreases opts.len(),
{
    let expected = Seq::new(opts.len(), |i: int| if i == 0 { opts[0] } else { seq![' '] + opts[i] });
    if opts.len() == 1 {
        lemma_pieces_append(Seq::<char>::empty(), opts[0]);
        assert(Seq::<char>::empty() + opts[0] =~= opts[0]);
        assert(option_pieces(Seq::<char>::empty()) == seq![Seq::<char>::empty()]);
        assert(option_pieces(opts[0]) =~= expected);
    } else {
        reveal_strlit(", ");
        let init = opts.drop_last();
        let last = opts.last();
        assert forall|i: int, j: int|
            0 <= i < init.len() && 0 <= j < init[i].len() implies !is_option_separator(#[trigger] init[i][j]) by {
            assert(init[i] == opts[i]);
        }
        lemma_pieces_of_joined(init);
        let j0 = joined_options(init);
        let tail = seq![' '] + last;
        assert forall|j: int| 0 <= j < tail.len() implies !is_option_separator(#[trigger] tail[j]) by {
            if j > 0 {
                assert(tail[j] == opts[opts.len() - 1][j - 1]);
            }
        }
        assert(joined_options(opts) =~= j0.push(',') + tail);
        assert(j0.push(',').drop_last() =~= j0);
        lemma_option_pieces_nonempty(j0);
        let pj = option_pieces(j0.push(','));
        assert(pj == option_pieces(j0).push(Seq::<char>::empty()));
        lemma_pieces_append(j0.push(','), tail);
        assert(Seq::<char>::empty() + tail =~= tail);
        assert(option_pieces(joined_options(opts)) =~= expected);
    }
}

proof fn lemma_nonblank_of_pieces(opts: Seq<Seq<char>>)
    requires
        opts.len() >= 1,
        forall|i: int| 0 <= i < opts.len() ==> is_trimmed(#[trigger] opts[i]),
    ensures
        nonblank_trimmed(Seq::new(opts.len(), |i: int| if i == 0 { opts[0] } else { seq![' '] + opts[i] }))
            == opts,
    decreases opts.len(),
{
    let pieces = Seq::new(opts.len(), |i: int| if i == 0 { opts[0] } else { seq![' '] + opts[i] });
    let n = opts.len();
    if n == 1 {
        lemma_trim_trimmed(opts[0]);
        assert(pieces.drop_last() =~= Seq::<Seq<char>>::empty());
        assert(nonblank_trimmed(pieces.drop_last()) == Seq::<Seq<char>>::empty());
        assert(pieces.last() == opts[0]);
        assert(nonblank_trimmed(pieces) =~= opts);
    } else {
        let init = opts.drop_last();
        assert forall|i: int| 0 <= i < init.len() implies is_trimmed(#[trigger] init[i]) by {
            assert(init[i] == opts[i]);
        }
        lemma_nonblank_of_pieces(init);
        let init_pieces = Seq::new(init.len(), |i: int| if i == 0 { init[0] } else { seq![' '] + init[i] });
        assert(pieces.drop_last() =~= init_pieces);
        assert(is_trimmed(opts[n - 1]));
        lemma_trim_space_prefix(opts[n - 1]);
        assert(pieces.last() == seq![' '] + opts[n - 1]);
        assert(nonblank_trimmed(pieces) =~= init.push(opts[n - 1]));
        assert(init.push(opts[n - 1]) =~= opts);
    }
}

/// Options written into the form read back as the same options, as long as
/// each is non-empty, has no whitespace at its ends and holds no comma or
/// line break.
proof fn lemma_options_round_trip(opts: Seq<Seq<char>>)
    requires
        forall|i: int| 0 <= i < opts.len() ==> is_trimmed(#[trigger] opts[i]),
        forall|i: int, j: int|
            0 <= i < opts.len() && 0 <= j < opts[i].len() ==> !is_option_separator(#[trigger] opts[i][j]),
    ensures
        parse_ssh_options(joined_options(opts)) == opts,
{
    if opts.len() == 0 {
        assert(option_pieces(Seq::<char>::empty()) == seq![Seq::<char>::empty()]);
        let p = seq![Seq::<char>::empty()];
        assert(p.drop_last() =~= Seq::<Seq<char>>::empty());
        assert(nonblank_trimmed(p.drop_last()) == Seq::<Seq<char>>::empty());
        assert(trim_end(p.last()) == p.last());
        assert(trim(p.last()).len() == 0);
        assert(nonblank_trimmed(p) =~= opts);
    } else {
        lemma_pieces_of_joined(opts);
        lemma_nonblank_of_pieces(opts);
    }
}

/// Opening the form on a host and saving it unchanged gives the host back:
/// the form reads as the host's alias, target, port, identity file and
/// options, and saved under the host's key and creation time it is the
/// host. This holds when the texts are as the form would have made them:
/// alias, host, identity file and each option non-empty with no whitespace
/// at their ends, no option holding a comma or a line break, and the port
/// not zero.
pub proof fn lemma_form_round_trip(h: RemoteHostView)
    requires
        is_trimmed(h.alias),
        is_trimmed(h.host),
        h.port > 0,
        h.identity_file matches Some(f) ==> is_trimmed(f),
        forall|i: int| 0 <= i < h.ssh_options.len() ==> is_trimmed(#[trigger] h.ssh_options[i]),
        forall|i: int, j: int|
            0 <= i < h.ssh_options.len() && 0 <= j < h.ssh_options[i].len() ==> !is_option_separator(
                #[trigger] h.ssh_options[i][j],
            ),
    ensures
        submission_spec(form_fields_spec(Some(h))) == Ok::<HostSubmissionView, Seq<char>>(
            HostSubmissionView {
                alias: h.alias,
                host: h.host,
                port: h.port,
                identity_file: h.identity_file,
                ssh_options: h.ssh_options,
            },
        ),
        host_from_submission(submission_spec(form_fields_spec(Some(h)))->Ok_0, h.local_host_key, h.created_at)
            == h,
{
    lemma_trim_trimmed(h.alias);
    lemma_trim_trimmed(h.host);
    lemma_decimal_digits(h.port as nat);
    let d = decimal(h.port as nat);
    assert(is_ascii_digit(d[0]) && is_ascii_digit(d[d.len() - 1]));
    lemma_trim_trimmed(d);
    lemma_parse_decimal(h.port as nat, 0xffff);
    match h.identity_file {
        Some(f) => lemma_trim_trimmed(f),
        None => {},
    }
    lemma_options_round_trip(h.ssh_options);
}

// ---------------------------------------------------------------------------
// Saving
// ---------------------------------------------------------------------------

/// The host a submission describes, under `key` and created at `created_at`.
pub open spec fn host_from_submission(s: HostSubmissionView, key: Seq<char>, created_at: i64) -> RemoteHostView {
    RemoteHostView {
        local_host_key: key,
        alias: s.alias,
        host: s.host,
        port: s.port,
        identity_file: s.identity_file,
        ssh_options: s.ssh_options,
        created_at,
    }
}

/// Why a submitted form could not be saved.
#[derive(Debug, Clone, Copy, PartialEq, Eq, Structural)]
pub enum SaveError {
    /// A new host needs a fresh key and the random source failed.
    KeyUnavailable,
    /// A new host needs its creation time and the clock could not be read.
    ClockUnavailable,
}

/// What saving a submission with the drawn values `fresh_key` and `now`
/// does: the key is the edited host's, else the fresh one; the creation time
/// is the edited host's when it is configured, else now. Without a value it
/// needs, saving fails.
pub open spec fn save_spec(
    hosts: Seq<RemoteHostView>,
    editing_key: Option<Seq<char>>,
    submission: HostSubmissionView,
    fresh_key: Option<Seq<char>>,
    now: Option<i64>,
) -> Result<Seq<RemoteHostView>, SaveError> {
    let key = match editing_key {
        Some(k) => Some(k),
        None => fresh_key,
    };
    let created_at = match editing_key {
        Some(k) => match find_host(hosts, k) {
            Some(existing) => Some(existing.created_at),
            None => now,
        },
        None => now,
    };
    match key {
        None => Err(SaveError::KeyUnavailable),
        Some(key) => match created_at {
            None => Err(SaveError::ClockUnavailable),
            Some(t) => Ok(upserted(hosts, host_from_submission(submission, key, t))),
        },
    }
}

impl RemoteSessionsSettings {
    /// Saves a submitted form with the key and time already drawn; see
    /// [`save_spec`]. On failure nothing changes.
    pub fn save_with(
        &mut self,
        editing_key: Option<String>,
        submission: HostSubmission,
        fresh_key: Option<String>,
        now: Option<i64>,
    ) -> (r: Result<(), SaveError>)
        ensures
            final(self)@.heartbeat_interval_seconds == old(self)@.heartbeat_interval_seconds,
            match save_spec(
                old(self)@.hosts,
                match editing_key {
                    Some(k) => Some(k@),
                    None => None,
                },
                submission@,
                match fresh_key {
                    Some(k) => Some(k@),
                    None => None,
                },
                now,
            ) {
                Ok(hosts) => r is Ok && final(self)@.hosts == hosts,
                Err(e) => r == Err::<(), SaveError>(e) && final(self)@ == old(self)@,
            },
    {
        let existing_created_at: Option<i64> = match &editing_key {
            Some(k) => match self.host_by_key(k.as_str()) {
                Some(h) => Some(h.created_at),
                None => None,
            },
            None => None,
        };
        let key = match editing_key {
            Some(k) => k,
            None => match fresh_key {
                Some(k) => k,
                None => return Err(SaveError::KeyUnavailable),
            },
        };
        let created_at = match existing_created_at {
            Some(t) => t,
            None => match now {
                Some(t) => t,
                None => return Err(SaveError::ClockUnavailable),
            },
        };
        let ghost kv = key@;
        let host = RemoteHost {
            local_host_key: key,
            alias: submission.alias,
            host: submission.host,
            port: submission.port,
            identity_file: submission.identity_file,
            ssh_options: submission.ssh_options,
            created_at,
        };
        assert(host@ == host_from_submission(submission@, kv, created_at));
        self.upsert_host(host);
        Ok(())
    }

    /// Saves a submitted form. Editing a configured host keeps its key and
    /// its creation time, and always succeeds; otherwise a fresh key is drawn
    /// for a new host and the clock is read for the creation time, and saving
    /// fails, changing nothing, when either cannot be had.
    pub fn save_submission(&mut self, editing_key: Option<String>, submission: HostSubmission) -> (r: Result<
        (),
        SaveError,
    >)
        ensures
            final(self)@.heartbeat_interval_seconds == old(self)@.heartbeat_interval_seconds,
            r is Err ==> final(self)@ == old(self)@,
            (editing_key matches Some(k) && find_host(old(self)@.hosts, k@) is Some) ==> r is Ok,
            r is Ok ==> exists|key: Seq<char>, created_at: i64|
                {
                    &&& final(self)@.hosts == upserted(
                        old(self)@.hosts,
                        host_from_submission(submission@, key, created_at),
                    )
                    &&& match editing_key {
                        Some(k) => key == k@ && match find_host(old(self)@.hosts, k@) {
                            Some(existing) => created_at == existing.created_at,
                            None => created_at >= 0,
                        },
                        None => is_hyphenated_uuid(key) && created_at >= 0,
                    }
                },
    {
        let needs_time = match &editing_key {
            Some(k) => self.host_by_key(k.as_str()).is_none(),
            None => true,
        };
        let fresh_key = match &editing_key {
            Some(_) => None,
            None => RemoteHost::new_local_host_key(),
        };
        let now = if needs_time && (editing_key.is_some() || fresh_key.is_some()) {
            crate::remote_hosts::current_unix_time()
        } else {
            None
        };
        let ghost ek = opt_string_view(editing_key);
        let ghost fk = opt_string_view(fresh_key);
        let ghost old_hosts = self@.hosts;
        let r = self.save_with(editing_key, submission, fresh_key, now);
        proof {
            if r is Ok {
                let key = match ek {
                    Some(k) => k,
                    None => fk->0,
                };
                let created_at = match ek {
                    Some(k) => match find_host(old_hosts, k) {
                        Some(existing) => existing.created_at,
                        None => now->0,
                    },
                    None => now->0,
                };
                assert(self@.hosts == upserted(old_hosts, host_from_submission(submission@, key, created_at)));
            }
        }
        r
    }
}

// ---------------------------------------------------------------------------
// Heartbeat interval
// ---------------------------------------------------------------------------

/// The interval the heartbeat field sets: its text read as a number and
/// clamped to 10..=120; nothing when the text is not a number.
pub open spec fn heartbeat_spec(text: Seq<char>) -> Option<u32> {
    match parse_unsigned(text, 0xffff_ffff) {
        Some(v) => Some(
            if v < MIN_HEARTBEAT {
                MIN_HEARTBEAT
            } else if v > MAX_HEARTBEAT {
                MAX_HEARTBEAT
            } else {
                v as u32
            },
        ),
        None => None,
    }
}

/// Reads the heartbeat field; see [`heartbeat_spec`].
pub fn heartbeat_from_text(text: &str) -> (r: Option<u32>)
    ensures
        r == heartbeat_spec(text@),
        r matches Some(v) ==> MIN_HEARTBEAT <= v <= MAX_HEARTBEAT,
{
    let v = chars_of(text);
    match parse_u32_chars(&v) {
        Some(n) => Some(
            if n < MIN_HEARTBEAT {
                MIN_HEARTBEAT
            } else if n > MAX_HEARTBEAT {
                MAX_HEARTBEAT
            } else {
                n
            },
        ),
        None => None,
    }
}

/// The new heartbeat interval to store when the field is applied: the
/// clamped value, unless it equals the current one.
pub fn heartbeat_update(text: &str, current: u32) -> (r: Option<u32>)
    ensures
        r == match heartbeat_spec(text@) {
            Some(v) => if v == current {
                None
            } else {
                Some(v)
            },
            None => None,
        },
{
    match heartbeat_from_text(text) {
        Some(v) => if v == current {
            None
        } else {
            Some(v)
        },
        None => None,
    }
}

// ---------------------------------------------------------------------------
// Test connection
// ---------------------------------------------------------------------------

/// The state of the form's connection test. A finished test is `Succeeded`
/// or `Failed`, with the text to show.
#[derive(Debug, Default)]
pub enum TestConnectionState {
    #[default]
    Idle,
    Running,
    Succeeded(String),
    Failed(String),
}

pub enum TestConnectionStateView {
    Idle,
    Running,
    Succeeded(Seq<char>),
    Failed(Seq<char>),
}

impl View for TestConnectionState {
    type V = TestConnectionStateView;

    open spec fn view(&self) -> TestConnectionStateView {
        match self {
            TestConnectionState::Idle => TestConnectionStateView::Idle,
            TestConnectionState::Running => TestConnectionStateView::Running,
            TestConnectionState::Succeeded(s) => TestConnectionStateView::Succeeded(s@),
            TestConnectionState::Failed(s) => TestConnectionStateView::Failed(s@),
        }
    }
}

/// What a finished connection test shows: the tmux version and the OS, or
/// the error's message.
pub fn test_connection_outcome(result: &Result<HostCapabilities, HostError>) -> (r: TestConnectionState)
    ensures
        r@ == match result {
            Ok(c) => TestConnectionStateView::Succeeded("tmux "@ + c@.tmux_version + " on "@ + c@.os),
            Err(e) => TestConnectionStateView::Failed(host_error_message(e@)),
        },
{
    match result {
        Ok(caps) => {
            let mut s = String::from_str("tmux ");
            s.append(caps.tmux_version.as_str());
            s.append(" on ");
            s.append(caps.os.as_str());
            TestConnectionState::Succeeded(s)
        },
        Err(e) => TestConnectionState::Failed(e.to_string()),
    }
}

// ---------------------------------------------------------------------------
// Page actions and events
// ---------------------------------------------------------------------------

#[derive(Clone, Debug)]
pub enum RemoteHostsPageAction {
    ShowAddModal,
    ShowEditModal(String),
    RequestRemoveHost(String),
    ConfirmRemoveHost,
    CancelRemoveHost,
}

#[derive(PartialEq, Eq, Debug, Structural)]
pub enum RemoteHostsPageEvent {
    FocusModal,
    ShowModal,
    HideModal,
}

#[derive(Debug)]
pub enum HostFormEvent {
    Cancel,
    Submit(HostSubmission),
}

#[derive(Debug)]
pub enum HostFormAction {
    Cancel,
    Submit,
    TestConnection,
}


// ---------------------------------------------------------------------------
// The form's own state
// ---------------------------------------------------------------------------

/// The message under the form, if any, and the state of its connection test.
pub struct HostFormState {
    validation_error: Option<String>,
    test_state: TestConnectionState,
}

pub struct HostFormStateView {
    pub validation_error: Option<Seq<char>>,
    pub test_state: TestConnectionStateView,
}

impl View for HostFormState {
    type V = HostFormStateView;

    closed spec fn view(&self) -> HostFormStateView {
        HostFormStateView {
            validation_error: match self.validation_error {
                Some(m) => Some(m@),
                None => None,
            },
            test_state: self.test_state@,
        }
    }
}

/// What submitting the form leads to.
#[derive(Debug)]
pub enum SubmitOutcome {
    /// The form is valid: hand the submission on.
    Submit(HostSubmission),
    /// The form is not valid; the field to focus, if the message names one.
    Invalid(Option<FormField>),
}

impl HostFormState {
    /// No message, no test run.
    pub fn new() -> (r: Self)
        ensures
            r@.validation_error is None,
            r@.test_state is Idle,
    {
        HostFormState { validation_error: None, test_state: TestConnectionState::Idle }
    }

    /// The message under the form.
    pub fn validation_error(&self) -> (r: Option<&String>)
        ensures
            match r {
                Some(m) => self@.validation_error == Some(m@),
                None => self@.validation_error is None,
            },
    {
        match &self.validation_error {
            Some(m) => Some(m),
            None => None,
        }
    }

    /// The state of the connection test.
    pub fn test_state(&self) -> (r: &TestConnectionState)
        ensures
            r@ == self@.test_state,
    {
        &self.test_state
    }

    /// Forgets the message and the test, as when the form is loaded or
    /// closed.
    pub fn reset(&mut self)
        ensures
            final(self)@.validation_error is None,
            final(self)@.test_state is Idle,
    {
        self.validation_error = None;
        self.test_state = TestConnectionState::Idle;
    }

    /// A field was edited: the message goes away. Says whether there was one
    /// (and so whether the form needs redrawing).
    pub fn field_edited(&mut self) -> (changed: bool)
        ensures
            changed == old(self)@.validation_error is Some,
            final(self)@.validation_error is None,
            final(self)@.test_state == old(self)@.test_state,
    {
        let changed = self.validation_error.is_some();
        self.validation_error = None;
        changed
    }

    /// Submits the form: the submission when it is valid, else the message
    /// is kept and the field it names is to be focused.
    pub fn submit(&mut self, fields: &HostFormFields) -> (r: SubmitOutcome)
        ensures
            final(self)@.test_state == old(self)@.test_state,
            match submission_spec(fields@) {
                Ok(sub) => r matches SubmitOutcome::Submit(x) && x@ == sub && final(self)@.validation_error is None,
                Err(m) => r == SubmitOutcome::Invalid(focus_spec(m)) && final(self)@.validation_error == Some(m),
            },
    {
        match build_submission(fields) {
            Ok(sub) => {
                self.validation_error = None;
                SubmitOutcome::Submit(sub)
            },
            Err(msg) => {
                let focus = focus_for_error(msg.as_str());
                self.validation_error = Some(msg);
                SubmitOutcome::Invalid(focus)
            },
        }
    }

    /// Starts a connection test: the host to probe, built from the form with
    /// no key and no creation time. Nothing while a test runs; when the form
    /// is not valid, nothing, and the message is kept.
    pub fn begin_test(&mut self, fields: &HostFormFields) -> (r: Option<RemoteHost>)
        ensures
            if old(self)@.test_state is Running {
                r is None && final(self)@ == old(self)@
            } else {
                match submission_spec(fields@) {
                    Ok(sub) => {
                        &&& r matches Some(h) && h@ == host_from_submission(sub, Seq::<char>::empty(), 0)
                        &&& final(self)@.test_state is Running
                        &&& final(self)@.validation_error is None
                    },
                    Err(m) => {
                        &&& r is None
                        &&& final(self)@.validation_error == Some(m)
                        &&& final(self)@.test_state == old(self)@.test_state
                    },
                }
            },
    {
        if let TestConnectionState::Running = self.test_state {
            return None;
        }
        match build_submission(fields) {
            Ok(sub) => {
                self.test_state = TestConnectionState::Running;
                self.validation_error = None;
                Some(
                    RemoteHost {
                        local_host_key: String::new(),
                        alias: sub.alias,
                        host: sub.host,
                        port: sub.port,
                        identity_file: sub.identity_file,
                        ssh_options: sub.ssh_options,
                        created_at: 0,
                    },
                )
            },
            Err(msg) => {
                self.validation_error = Some(msg);
                None
            },
        }
    }

    /// Takes in the result of the connection test; see
    /// [`test_connection_outcome`].
    pub fn finish_test(&mut self, result: &Result<HostCapabilities, HostError>)
        ensures
            final(self)@.validation_error == old(self)@.validation_error,
            final(self)@.test_state == match result {
                Ok(c) => TestConnectionStateView::Succeeded("tmux "@ + c@.tmux_version + " on "@ + c@.os),
                Err(e) => TestConnectionStateView::Failed(host_error_message(e@)),
            },
    {
        self.test_state = test_connection_outcome(result);
    }
}


/// How the message under the form is shown.
#[derive(Debug, Clone, Copy, PartialEq, Eq, Structural)]
pub enum FeedbackTone {
    Muted,
    Success,
    Failure,
}

/// The message under the form: the validation message first, else what the
/// connection test says.
pub open spec fn feedback_spec(s: HostFormStateView) -> Option<(Seq<char>, FeedbackTone)> {
    match s.validation_error {
        Some(m) => Some((m, FeedbackTone::Failure)),
        None => match s.test_state {
            TestConnectionStateView::Idle => None,
            TestConnectionStateView::Running => Some(("Testing connection…"@, FeedbackTone::Muted)),
            TestConnectionStateView::Succeeded(d) => Some(("Connection OK · "@ + d, FeedbackTone::Success)),
            TestConnectionStateView::Failed(d) => Some(("Connection failed: "@ + d, FeedbackTone::Failure)),
        },
    }
}

impl HostFormState {
    /// The message under the form; see [`feedback_spec`].
    pub fn feedback(&self) -> (r: Option<(String, FeedbackTone)>)
        ensures
            match feedback_spec(self@) {
                Some((text, tone)) => r matches Some((t, k)) && t@ == text && k == tone,
                None => r is None,
            },
    {
        match &self.validation_error {
            Some(m) => Some((m.clone(), FeedbackTone::Failure)),
            None => match &self.test_state {
                TestConnectionState::Idle => None,
                TestConnectionState::Running => Some((String::from_str("Testing connection…"), FeedbackTone::Muted)),
                TestConnectionState::Succeeded(d) => {
                    let mut t = String::from_str("Connection OK · ");
                    t.append(d.as_str());
                    Some((t, FeedbackTone::Success))
                },
                TestConnectionState::Failed(d) => {
                    let mut t = String::from_str("Connection failed: ");
                    t.append(d.as_str());
                    Some((t, FeedbackTone::Failure))
                },
            },
        }
    }

    /// The label of the test button: "Testing…" while a test runs.
    pub fn test_button_label(&self) -> (r: &'static str)
        ensures
            r@ == if self@.test_state is Running {
                "Testing…"@
            } else {
                "Test connection"@
            },
    {
        match self.test_state {
            TestConnectionState::Running => "Testing…",
            _ => "Test connection",
        }
    }
}

} // verus!
