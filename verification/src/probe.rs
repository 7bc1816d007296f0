//! Making sense of what probing a host over ssh returns.

use vstd::prelude::*;
use crate::text::{
    chars_of, chars_view, contains_chars, contains_seq, find_chars, find_seq, lower_ascii_seq, lower_chars,
    slice_chars, split_chars, split_on, string_from_chars, trim, trim_chars,
};
use crate::types::{HostCapabilities, HostCapabilitiesView, HostError, HostErrorView};
use crate::remote_hosts::{strings_view, RemoteHost, RemoteHostView};
use crate::ssh_args::{target_args, target_args_spec};

verus! {

/// The line the probe script prints before its JSON report.
pub const BEGIN_MARKER: &'static str = "__WARP_REMOTE_SESSIONS_PROBE_BEGIN__";

/// The line the probe script prints after its JSON report.
pub const END_MARKER: &'static str = "__WARP_REMOTE_SESSIONS_PROBE_END__";

// ---------------------------------------------------------------------------
// ssh error classification
// ---------------------------------------------------------------------------

/// `s` without one `\r` at its end.
pub open spec fn strip_cr(s: Seq<char>) -> Seq<char> {
    if s.len() > 0 && s.last() == '\r' {
        s.drop_last()
    } else {
        s
    }
}

/// std's `str::lines`: the text split at `\n`, each line that had a `\n`
/// losing one `\r` before it, and no empty last line after a final `\n`.
pub open spec fn lines_of(s: Seq<char>) -> Seq<Seq<char>> {
    let pieces = split_on(s, '\n');
    let ended = pieces.drop_last().map_values(|p: Seq<char>| strip_cr(p));
    if pieces.last().len() > 0 {
        ended.push(pieces.last())
    } else {
        ended
    }
}

/// The first line of `lines` that is not blank, trimmed; empty when all are
/// blank.
pub open spec fn first_nonblank(lines: Seq<Seq<char>>) -> Seq<char>
    decreases lines.len(),
{
    if lines.len() == 0 {
        Seq::<char>::empty()
    } else if trim(lines[0]).len() > 0 {
        trim(lines[0])
    } else {
        first_nonblank(lines.drop_first())
    }
}

/// A phrase in ssh's error output that means the host could not be reached.
pub open spec fn mentions_unreachable(lower: Seq<char>) -> bool {
    ||| contains_seq(lower, "could not resolve"@)
    ||| contains_seq(lower, "no route to host"@)
    ||| contains_seq(lower, "connection refused"@)
    ||| contains_seq(lower, "connection timed out"@)
    ||| contains_seq(lower, "operation timed out"@)
    ||| contains_seq(lower, "network is unreachable"@)
}

/// The error that ssh's error output stands for: an authentication failure
/// when it mentions a denied permission or authentication, an unreachable
/// host when it names one of the network failures, and otherwise a generic
/// error; the detail is the first non-blank line ("ssh failed" for the
/// generic error when there is none).
pub open spec fn classify_spec(stderr: Seq<char>) -> HostErrorView {
    let lower = lower_ascii_seq(stderr);
    let detail = first_nonblank(lines_of(stderr));
    if contains_seq(lower, "permission denied"@) || contains_seq(lower, "authentication"@) {
        HostErrorView::SshAuthFailed(detail)
    } else if mentions_unreachable(lower) {
        HostErrorView::HostUnreachable(detail)
    } else if detail.len() == 0 {
        HostErrorView::Other("ssh failed"@)
    } else {
        HostErrorView::Other(detail)
    }
}

fn mentions(lower: &Vec<char>, phrase: &str) -> (r: bool)
    ensures
        r == contains_seq(lower@, phrase@),
{
    let p = chars_of(phrase);
    contains_chars(lower, &p)
}

fn first_nonblank_line(s: &Vec<char>) -> (r: Vec<char>)
    ensures
        r@ == first_nonblank(lines_of(s@)),
{
    let pieces = split_chars(s, '\n');
    let ghost ps = split_on(s@, '\n');
    proof {
        crate::text::lemma_split_on_nonempty(s@, '\n');
    }
    assert(chars_view(pieces@) == ps);
    let ghost lines = lines_of(s@);
    let n = pieces.len();
    let mut i: usize = 0;
    assert(lines.skip(0) =~= lines);
    while i < n
        invariant
            n == pieces.len() == ps.len() >= 1,
            chars_view(pieces@) == ps,
            lines == lines_of(s@),
            ps == split_on(s@, '\n'),
            i <= n,
            first_nonblank(lines) == first_nonblank(lines.skip(i as int)),
            lines.len() == if ps.last().len() > 0 { n as int } else { n - 1 },
            forall|k: int| 0 <= k < n - 1 ==> #[trigger] lines[k] == strip_cr(ps[k]),
            ps.last().len() > 0 ==> lines[n - 1] == ps.last(),
            i < n || lines.len() == n,
        decreases n - i,
    {
        assert(chars_view(pieces@)[i as int] == pieces@[i as int]@);
        let p = &pieces[i];
        let is_last = i + 1 == n;
        if is_last && p.len() == 0 {
            assert(lines.skip(i as int) =~= Seq::<Seq<char>>::empty());
            return Vec::new();
        }
        let line = if !is_last && p.len() > 0 && p[p.len() - 1] == '\r' {
            slice_chars(p, 0, p.len() - 1)
        } else {
            slice_chars(p, 0, p.len())
        };
        assert(line@ == lines[i as int]) by {
            if !is_last {
                assert(lines[i as int] == strip_cr(ps[i as int]));
            }
        }
        let t = trim_chars(&line);
        assert(lines.skip(i as int)[0] == lines[i as int]);
        if t.len() > 0 {
            return t;
        }
        assert(lines.skip(i as int).drop_first() =~= lines.skip(i + 1));
        i += 1;
    }
    assert(lines.skip(i as int) =~= Seq::<Seq<char>>::empty());
    Vec::new()
}

/// The error that ssh's error output stands for; see [`classify_spec`].
pub fn classify_ssh_error(stderr_text: &str) -> (e: HostError)
    ensures
        e@ == classify_spec(stderr_text@),
{
    let s = chars_of(stderr_text);
    let lower = lower_chars(&s);
    let detail_chars = first_nonblank_line(&s);
    let detail = string_from_chars(&detail_chars);
    if mentions(&lower, "permission denied") || mentions(&lower, "authentication") {
        HostError::SshAuthFailed(detail)
    } else if mentions(&lower, "could not resolve") || mentions(&lower, "no route to host")
        || mentions(&lower, "connection refused") || mentions(&lower, "connection timed out")
        || mentions(&lower, "operation timed out") || mentions(&lower, "network is unreachable") {
        HostError::HostUnreachable(detail)
    } else if detail_chars.len() == 0 {
        HostError::Other(String::from_str("ssh failed"))
    } else {
        HostError::Other(detail)
    }
}

proof fn lemma_split_on_no_sep(a: Seq<char>, sep: char)
    requires
        forall|i: int| 0 <= i < a.len() ==> a[i] != sep,
    ensures
        split_on(a, sep) == seq![a],
    decreases a.len(),
{
    if a.len() > 0 {
        lemma_split_on_no_sep(a.drop_last(), sep);
        assert(a.drop_last().push(a.last()) =~= a);
        assert(seq![a.drop_last()].update(0, a.drop_last().push(a.last())) =~= seq![a]);
    } else {
        assert(a =~= Seq::<char>::empty());
    }
}

proof fn lemma_split_on_first(a: Seq<char>, b: Seq<char>, sep: char)
    requires
        forall|i: int| 0 <= i < a.len() ==> a[i] != sep,
    ensures
        split_on(a + seq![sep] + b, sep) == seq![a] + split_on(b, sep),
    decreases b.len(),
{
    let s = a + seq![sep] + b;
    if b.len() == 0 {
        assert(s.drop_last() =~= a);
        lemma_split_on_no_sep(a, sep);
        assert(split_on(s, sep) =~= seq![a] + split_on(b, sep));
    } else {
        lemma_split_on_first(a, b.drop_last(), sep);
        assert(s.drop_last() =~= a + seq![sep] + b.drop_last());
        crate::text::lemma_split_on_nonempty(b.drop_last(), sep);
        assert(s.last() == b.last());
        assert(split_on(s, sep) =~= seq![a] + split_on(b, sep));
    }
}

/// The detail of the error is the error output's first line, trimmed, when
/// that line is not blank, whatever the kind of error and whatever follows.
pub proof fn lemma_detail_is_first_line(first: Seq<char>, rest: Seq<char>)
    requires
        forall|i: int| 0 <= i < first.len() ==> first[i] != '\n' && first[i] != '\r',
        trim(first).len() > 0,
    ensures
        match classify_spec(first + seq!['\n'] + rest) {
            HostErrorView::SshAuthFailed(d) => d == trim(first),
            HostErrorView::HostUnreachable(d) => d == trim(first),
            HostErrorView::Other(d) => d == trim(first),
            _ => false,
        },
{
    let s = first + seq!['\n'] + rest;
    lemma_split_on_first(first, rest, '\n');
    crate::text::lemma_split_on_nonempty(rest, '\n');
    let pieces = split_on(s, '\n');
    assert(pieces.drop_last()[0] == first);
    assert(strip_cr(first) == first);
    let lines = lines_of(s);
    assert(lines.len() > 0);
    assert(lines[0] == first);
}

/// An authentication phrase anywhere in ssh's error output, in any line and
/// in any letter case, makes the error an authentication failure.
pub proof fn lemma_auth_phrase_anywhere(before: Seq<char>, phrase: Seq<char>, after: Seq<char>)
    requires
        lower_ascii_seq(phrase) == "permission denied"@ || lower_ascii_seq(phrase) == "authentication"@,
    ensures
        classify_spec(before + phrase + after) is SshAuthFailed,
{
    let s = before + phrase + after;
    let lower = lower_ascii_seq(s);
    let at = before.len() as int;
    assert(lower.subrange(at, at + phrase.len()) =~= lower_ascii_seq(phrase));
    if lower_ascii_seq(phrase) == "permission denied"@ {
        assert(crate::text::occurs_at(lower, "permission denied"@, at));
    } else {
        assert(crate::text::occurs_at(lower, "authentication"@, at));
    }
}

/// A network-failure phrase anywhere in ssh's error output, in any line and
/// in any letter case, makes the error an unreachable host, unless the
/// output also speaks of authentication.
pub proof fn lemma_unreachable_phrase_anywhere(before: Seq<char>, phrase: Seq<char>, after: Seq<char>)
    requires
        lower_ascii_seq(phrase) == "could not resolve"@ || lower_ascii_seq(phrase) == "no route to host"@
            || lower_ascii_seq(phrase) == "connection refused"@ || lower_ascii_seq(phrase)
            == "connection timed out"@ || lower_ascii_seq(phrase) == "operation timed out"@
            || lower_ascii_seq(phrase) == "network is unreachable"@,
        !contains_seq(lower_ascii_seq(before + phrase + after), "permission denied"@),
        !contains_seq(lower_ascii_seq(before + phrase + after), "authentication"@),
    ensures
        classify_spec(before + phrase + after) is HostUnreachable,
{
    let s = before + phrase + after;
    let lower = lower_ascii_seq(s);
    let at = before.len() as int;
    assert(lower.subrange(at, at + phrase.len()) =~= lower_ascii_seq(phrase));
    assert(crate::text::occurs_at(lower, lower_ascii_seq(phrase), at));
}

/// Without an authentication or network-failure phrase anywhere in the
/// output, the error is a generic one.
pub proof fn lemma_no_phrase_is_other(stderr: Seq<char>)
    requires
        !contains_seq(lower_ascii_seq(stderr), "permission denied"@),
        !contains_seq(lower_ascii_seq(stderr), "authentication"@),
        !contains_seq(lower_ascii_seq(stderr), "could not resolve"@),
        !contains_seq(lower_ascii_seq(stderr), "no route to host"@),
        !contains_seq(lower_ascii_seq(stderr), "connection refused"@),
        !contains_seq(lower_ascii_seq(stderr), "connection timed out"@),
        !contains_seq(lower_ascii_seq(stderr), "operation timed out"@),
        !contains_seq(lower_ascii_seq(stderr), "network is unreachable"@),
    ensures
        classify_spec(stderr) is Other,
{
}

// ---------------------------------------------------------------------------
// The probe report
// ---------------------------------------------------------------------------

/// The JSON report between the markers of the probe's output, trimmed; a
/// malformed-probe error when a marker is missing.
pub open spec fn payload_spec(out: Seq<char>) -> Result<Seq<char>, HostErrorView> {
    match find_seq(out, BEGIN_MARKER@) {
        None => Err(HostErrorView::ProbeMalformed("no begin marker"@)),
        Some(b) => {
            let rest = out.skip(b + BEGIN_MARKER@.len());
            match find_seq(rest, END_MARKER@) {
                None => Err(HostErrorView::ProbeMalformed("no end marker"@)),
                Some(e) => Ok(trim(rest.take(e))),
            }
        },
    }
}

/// The JSON report in the probe's output; see [`payload_spec`].
#[verifier::rlimit(60)]
pub fn extract_capabilities_payload(out: &str) -> (r: Result<String, HostError>)
    ensures
        match payload_spec(out@) {
            Ok(p) => r matches Ok(s) && s@ == p,
            Err(e) => r matches Err(x) && x@ == e,
        },
{
    let v = chars_of(out);
    let begin_marker = chars_of(BEGIN_MARKER);
    let b = match find_chars(&v, &begin_marker) {
        Some(b) => b,
        None => {
            assert(find_seq(out@, BEGIN_MARKER@) is None);
            return Err(HostError::ProbeMalformed(String::from_str("no begin marker")));
        },
    };
    assert(find_seq(out@, BEGIN_MARKER@) == Some(b as int));
    assert(b + begin_marker.len() <= v.len());
    let rest = slice_chars(&v, b + begin_marker.len(), v.len());
    assert(rest@ =~= v@.skip(b + BEGIN_MARKER@.len()));
    let end_marker = chars_of(END_MARKER);
    let e = match find_chars(&rest, &end_marker) {
        Some(e) => e,
        None => {
            assert(find_seq(rest@, END_MARKER@) is None);
            return Err(HostError::ProbeMalformed(String::from_str("no end marker")));
        },
    };
    assert(find_seq(rest@, END_MARKER@) == Some(e as int));
    let body = slice_chars(&rest, 0, e);
    assert(body@ =~= rest@.take(e as int));
    let json = trim_chars(&body);
    Ok(string_from_chars(&json))
}

/// What the probe gives once its JSON report has been decoded: the
/// capabilities, or a malformed-probe error naming the decoder's complaint and
/// the report.
pub open spec fn decoded_capabilities(
    payload: Seq<char>,
    decoded: Result<HostCapabilitiesView, Seq<char>>,
) -> Result<HostCapabilitiesView, HostErrorView> {
    match decoded {
        Ok(c) => Ok(c),
        Err(msg) => Err(HostErrorView::ProbeMalformed(msg + ": "@ + payload)),
    }
}

/// Turns the decoding of the probe report into the probe's result; see
/// [`decoded_capabilities`].
pub fn capabilities_from_payload(
    payload: &str,
    decoded: Result<HostCapabilities, String>,
) -> (r: Result<HostCapabilities, HostError>)
    ensures
        match decoded_capabilities(
            payload@,
            match decoded {
                Ok(c) => Ok(c@),
                Err(m) => Err(m@),
            },
        ) {
            Ok(c) => r matches Ok(x) && x@ == c,
            Err(e) => r matches Err(x) && x@ == e,
        },
{
    match decoded {
        Ok(c) => Ok(c),
        Err(msg) => {
            let mut detail = msg;
            detail.append(": ");
            detail.append(payload);
            Err(HostError::ProbeMalformed(detail))
        },
    }
}

/// The capabilities, unless the host's tmux is too old to use.
pub open spec fn supported_spec(caps: HostCapabilitiesView) -> Result<HostCapabilitiesView, HostErrorView> {
    if caps.tmux_supported {
        Ok(caps)
    } else {
        Err(HostErrorView::Other("tmux "@ + caps.tmux_version + " not supported (need 3.2+)"@))
    }
}

/// Refuses a host whose tmux is not supported; see [`supported_spec`].
pub fn check_tmux_supported(caps: HostCapabilities) -> (r: Result<HostCapabilities, HostError>)
    ensures
        match supported_spec(caps@) {
            Ok(c) => r matches Ok(x) && x@ == c,
            Err(e) => r matches Err(x) && x@ == e,
        },
{
    if caps.tmux_supported {
        Ok(caps)
    } else {
        let mut msg = String::from_str("tmux ");
        msg.append(caps.tmux_version.as_str());
        msg.append(" not supported (need 3.2+)");
        Err(HostError::Other(msg))
    }
}

/// The arguments of the ssh command that runs the probe script, read from
/// standard input, on `host`.
pub open spec fn probe_args_spec(h: RemoteHostView) -> Seq<Seq<char>> {
    seq![
        "-o"@,
        "BatchMode=yes"@,
        "-o"@,
        "ConnectTimeout=8"@,
        "-o"@,
        "StrictHostKeyChecking=accept-new"@,
    ] + target_args_spec(h) + seq!["bash -s"@]
}

pub fn probe_ssh_args(host: &RemoteHost) -> (r: Vec<String>)
    ensures
        strings_view(r@) == probe_args_spec(host@),
{
    let mut args: Vec<String> = Vec::new();
    args.push(String::from_str("-o"));
    args.push(String::from_str("BatchMode=yes"));
    args.push(String::from_str("-o"));
    args.push(String::from_str("ConnectTimeout=8"));
    args.push(String::from_str("-o"));
    args.push(String::from_str("StrictHostKeyChecking=accept-new"));
    let ghost head = args@;
    let mut tail = target_args(host);
    let ghost t = tail@;
    args.append(&mut tail);
    args.push(String::from_str("bash -s"));
    assert(strings_view(args@) =~= strings_view(head) + strings_view(t) + seq!["bash -s"@]);
    args
}

} // verus!
