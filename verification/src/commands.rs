//! The tmux commands sent over the control connection, and the parsing of
//! `list-sessions` output.

use vstd::prelude::*;
use crate::text::{
    chars_of, chars_view, is_ascii_alnum, lemma_split_on_nonempty, parse_i64_chars,
    parse_i64_spec, parse_u32_chars, parse_unsigned, slice_chars, split_chars, split_on,
    string_from_chars,
};
use crate::types::{sessions_view, RemoteTmuxSession, RemoteTmuxSessionView};

verus! {

/// The `list-sessions -F` format: one `|`-separated row per session.
pub const SESSIONS_FORMAT: &'static str =
    "#{session_id}|#{session_name}|#{session_created}|#{session_attached}|#{pane_pid}|#{pane_current_command}";

/// The name of the tmux session that carries the control connection itself.
pub const CONTROL_SESSION_NAME: &'static str = "__warp_ctrl";

// ---------------------------------------------------------------------------
// Shell quoting
// ---------------------------------------------------------------------------

/// A character that can stand unquoted in a session name or command word.
pub open spec fn is_plain_char(c: char) -> bool {
    is_ascii_alnum(c) || c == '_' || c == '-' || c == '.'
}

pub open spec fn all_plain(s: Seq<char>) -> bool {
    forall|i: int| 0 <= i < s.len() ==> is_plain_char(#[trigger] s[i])
}

/// What one character becomes inside single quotes: a quote closes the
/// quoting, is written escaped, and reopens it.
pub open spec fn quoted_chunk(c: char) -> Seq<char> {
    if c == '\'' {
        seq!['\'', '\\', '\'', '\'']
    } else {
        seq![c]
    }
}

/// The characters of `s` as they stand between single quotes.
pub open spec fn quoted_body(s: Seq<char>) -> Seq<char>
    decreases s.len(),
{
    if s.len() == 0 {
        Seq::<char>::empty()
    } else {
        quoted_chunk(s[0]) + quoted_body(s.drop_first())
    }
}

/// `s` wrapped in single quotes, each single quote inside written as `'\''`.
pub open spec fn single_quoted(s: Seq<char>) -> Seq<char> {
    seq!['\''] + quoted_body(s) + seq!['\'']
}

/// How a name or command is written into a tmux command line: unchanged when
/// it is non-empty and made only of ASCII letters, digits, `_`, `-` and `.`;
/// single-quoted otherwise.
pub open spec fn shell_escaped(s: Seq<char>) -> Seq<char> {
    if s.len() > 0 && all_plain(s) {
        s
    } else {
        single_quoted(s)
    }
}

pub proof fn lemma_quoted_body_push(s: Seq<char>, c: char)
    ensures
        quoted_body(s.push(c)) == quoted_body(s) + quoted_chunk(c),
    decreases s.len(),
{
    if s.len() == 0 {
        assert(s.push(c).drop_first() =~= Seq::<char>::empty());
        assert(quoted_body(s.push(c)) == quoted_chunk(c) + quoted_body(Seq::<char>::empty()));
        assert(quoted_chunk(c) + Seq::<char>::empty() =~= quoted_chunk(c));
        assert(Seq::<char>::empty() + quoted_chunk(c) =~= quoted_chunk(c));
    } else {
        assert(s.push(c).drop_first() =~= s.drop_first().push(c));
        lemma_quoted_body_push(s.drop_first(), c);
        assert(quoted_body(s.push(c)) =~= quoted_body(s) + quoted_chunk(c));
    }
}

fn is_plain_char_exec(c: char) -> (r: bool)
    ensures
        r == is_plain_char(c),
{
    ('0' <= c && c <= '9') || ('a' <= c && c <= 'z') || ('A' <= c && c <= 'Z') || c == '_' || c == '-'
        || c == '.'
}

fn shell_escape_chars(v: &Vec<char>) -> (r: Vec<char>)
    ensures
        r@ == shell_escaped(v@),
{
    let mut plain = v.len() > 0;
    let mut i: usize = 0;
    while i < v.len()
        invariant
            i <= v.len(),
            plain == (v.len() > 0 && forall|j: int| 0 <= j < i ==> is_plain_char(#[trigger] v@[j])),
        decreases v.len() - i,
    {
        if !is_plain_char_exec(v[i]) {
            plain = false;
        }
        i += 1;
    }
    if plain {
        return slice_chars(v, 0, v.len());
    }
    let mut r: Vec<char> = Vec::new();
    r.push('\'');
    let mut i: usize = 0;
    assert(v@.take(0) =~= Seq::<char>::empty());
    while i < v.len()
        invariant
            i <= v.len(),
            r@ == seq!['\''] + quoted_body(v@.take(i as int)),
        decreases v.len() - i,
    {
        let c = v[i];
        proof {
            assert(v@.take(i + 1) =~= v@.take(i as int).push(c));
            lemma_quoted_body_push(v@.take(i as int), c);
        }
        if c == '\'' {
            r.push('\'');
            r.push('\\');
            r.push('\'');
            r.push('\'');
        } else {
            r.push(c);
        }
        i += 1;
        assert(r@ =~= seq!['\''] + quoted_body(v@.take(i as int)));
    }
    r.push('\'');
    assert(v@.take(v.len() as int) =~= v@);
    assert(r@ =~= single_quoted(v@));
    r
}

/// Quotes `s` for a tmux command line; see [`shell_escaped`].
pub fn shell_escape(s: &str) -> (r: String)
    ensures
        r@ == shell_escaped(s@),
{
    let v = chars_of(s);
    let e = shell_escape_chars(&v);
    string_from_chars(&e)
}

/// The value a POSIX shell gives to a word made of unquoted characters,
/// single-quoted spans and backslash escapes, when `quoting` says whether the
/// word starts inside single quotes. `None` when the word is cut off inside
/// quotes, ends in a lone backslash, or holds an unquoted blank, quote-free
/// special character or `"`.
pub open spec fn shell_word_value(w: Seq<char>, quoting: bool) -> Option<Seq<char>>
    decreases w.len(),
{
    if w.len() == 0 {
        if quoting {
            None
        } else {
            Some(Seq::<char>::empty())
        }
    } else if quoting {
        if w[0] == '\'' {
            shell_word_value(w.drop_first(), false)
        } else {
            match shell_word_value(w.drop_first(), true) {
                Some(r) => Some(seq![w[0]] + r),
                None => None,
            }
        }
    } else if w[0] == '\'' {
        shell_word_value(w.drop_first(), true)
    } else if w[0] == '\\' {
        if w.len() >= 2 {
            match shell_word_value(w.subrange(2, w.len() as int), false) {
                Some(r) => Some(seq![w[1]] + r),
                None => None,
            }
        } else {
            None
        }
    } else if is_plain_char(w[0]) {
        match shell_word_value(w.drop_first(), false) {
            Some(r) => Some(seq![w[0]] + r),
            None => None,
        }
    } else {
        None
    }
}

proof fn lemma_quoted_body_value(s: Seq<char>, t: Seq<char>)
    ensures
        shell_word_value(quoted_body(s) + t, true) == match shell_word_value(t, true) {
            Some(r) => Some(s + r),
            None => None::<Seq<char>>,
        },
    decreases s.len(),
{
    if s.len() == 0 {
        assert(quoted_body(s) + t =~= t);
        match shell_word_value(t, true) {
            Some(r) => {
                assert(s + r =~= r);
            },
            None => {},
        }
    } else {
        let c = s[0];
        let rest = quoted_body(s.drop_first()) + t;
        lemma_quoted_body_value(s.drop_first(), t);
        assert(quoted_body(s) + t =~= quoted_chunk(c) + rest);
        let w = quoted_chunk(c) + rest;
        if c == '\'' {
            let w1 = w.drop_first();
            assert(w1 =~= seq!['\\', '\'', '\''] + rest);
            let w2 = w1.subrange(2, w1.len() as int);
            assert(w2 =~= seq!['\''] + rest);
            assert(w2.drop_first() =~= rest);
            assert(w[0] == '\'');
            assert(shell_word_value(w, true) == shell_word_value(w1, false));
            assert(w1[0] == '\\' && w1[1] == '\'');
            assert(shell_word_value(w1, false) == match shell_word_value(w2, false) {
                Some(r) => Some(seq!['\''] + r),
                None => None::<Seq<char>>,
            });
            assert(w2[0] == '\'');
            assert(shell_word_value(w2, false) == shell_word_value(rest, true));
        } else {
            assert(w.drop_first() =~= rest);
            assert(w[0] == c);
            assert(shell_word_value(w, true) == match shell_word_value(rest, true) {
                Some(r) => Some(seq![c] + r),
                None => None::<Seq<char>>,
            });
        }
        match shell_word_value(t, true) {
            Some(r) => {
                assert(seq![c] + (s.drop_first() + r) =~= s + r);
            },
            None => {},
        }
    }
}

proof fn lemma_plain_value(s: Seq<char>)
    requires
        all_plain(s),
    ensures
        shell_word_value(s, false) == Some(s),
    decreases s.len(),
{
    if s.len() > 0 {
        lemma_plain_value(s.drop_first());
        assert(seq![s[0]] + s.drop_first() =~= s);
    }
}

/// A quoted value reads back, in a POSIX shell, as the original text: every
/// string survives [`shell_escape`] unchanged.
pub proof fn lemma_shell_escape_round_trip(s: Seq<char>)
    ensures
        shell_word_value(shell_escaped(s), false) == Some(s),
{
    if s.len() > 0 && all_plain(s) {
        lemma_plain_value(s);
    } else {
        let w = single_quoted(s);
        assert(w.drop_first() =~= quoted_body(s) + seq!['\'']);
        assert(w[0] == '\'');
        assert(shell_word_value(w, false) == shell_word_value(w.drop_first(), true));
        lemma_quoted_body_value(s, seq!['\'']);
        assert(seq!['\''].drop_first() =~= Seq::<char>::empty());
        assert(shell_word_value(seq!['\''], true) == shell_word_value(Seq::<char>::empty(), false));
        assert(s + Seq::<char>::empty() =~= s);
    }
}

// ---------------------------------------------------------------------------
// Commands
// ---------------------------------------------------------------------------

/// `list-sessions -F '<SESSIONS_FORMAT>'`.
pub fn list_sessions_cmd() -> (r: String)
    ensures
        r@ == "list-sessions -F '"@ + SESSIONS_FORMAT@ + "'"@,
{
    let mut r = String::from_str("list-sessions -F '");
    r.append(SESSIONS_FORMAT);
    r.append("'");
    r
}

/// The command that creates a detached session named `name`, running
/// `command` when one is given and it is not empty.
pub open spec fn new_session_text(name: Seq<char>, command: Option<Seq<char>>) -> Seq<char> {
    match command {
        Some(c) if c.len() > 0 => "new-session -d -s "@ + shell_escaped(name) + " "@ + shell_escaped(c),
        _ => "new-session -d -s "@ + shell_escaped(name),
    }
}

pub fn new_session_cmd(name: &str, command: Option<&str>) -> (r: String)
    ensures
        r@ == new_session_text(name@, match command {
            Some(c) => Some(c@),
            None => None,
        }),
{
    let mut r = String::from_str("new-session -d -s ");
    let n = shell_escape(name);
    r.append(n.as_str());
    match command {
        Some(c) => {
            if c.unicode_len() > 0 {
                r.append(" ");
                let e = shell_escape(c);
                r.append(e.as_str());
            }
        },
        None => {},
    }
    r
}

pub fn kill_session_cmd(name: &str) -> (r: String)
    ensures
        r@ == "kill-session -t "@ + shell_escaped(name@),
{
    let mut r = String::from_str("kill-session -t ");
    let n = shell_escape(name);
    r.append(n.as_str());
    r
}

/// The command sent as a keep-alive on the control connection.
pub fn heartbeat_cmd() -> (r: &'static str)
    ensures
        r@ == "display-message -p '#{client_pid}'"@,
{
    "display-message -p '#{client_pid}'"
}

// ---------------------------------------------------------------------------
// list-sessions output
// ---------------------------------------------------------------------------

/// The session a `list-sessions` row describes, or `None` when the row is
/// malformed, names the control session, or has the excluded session id.
///
/// A row is `id|name|created|attached|pid|command`; a row of four fields has
/// an empty command, and a row of five fields carries the command in its last
/// field.
pub open spec fn parse_session_row(
    row: Seq<char>,
    exclude_session_id: Option<Seq<char>>,
) -> Option<RemoteTmuxSessionView> {
    let parts = split_on(row, '|');
    if exclude_session_id == Some(parts[0]) {
        None
    } else if parts.len() < 2 || parts[1] == CONTROL_SESSION_NAME@ || parts.len() < 4 {
        None
    } else {
        match (parse_i64_spec(parts[2]), parse_unsigned(parts[3], 0xffff_ffff)) {
            (Some(created), Some(attached)) => Some(
                RemoteTmuxSessionView {
                    session_id: parts[0],
                    name: parts[1],
                    created_unix: created as i64,
                    attached_count: attached as u32,
                    current_command: if parts.len() >= 6 {
                        parts[5]
                    } else if parts.len() == 5 {
                        parts[4]
                    } else {
                        Seq::<char>::empty()
                    },
                },
            ),
            _ => None,
        }
    }
}

/// The sessions described by `rows`, in order, skipping the rows that
/// [`parse_session_row`] rejects.
pub open spec fn parse_session_rows(
    rows: Seq<Seq<char>>,
    exclude_session_id: Option<Seq<char>>,
) -> Seq<RemoteTmuxSessionView>
    decreases rows.len(),
{
    if rows.len() == 0 {
        Seq::<RemoteTmuxSessionView>::empty()
    } else {
        let init = parse_session_rows(rows.drop_last(), exclude_session_id);
        match parse_session_row(rows.last(), exclude_session_id) {
            Some(s) => init.push(s),
            None => init,
        }
    }
}

/// No session read from `list-sessions` output is the control session, none
/// has the excluded id, and there are never more sessions than rows.
pub proof fn lemma_parsed_sessions_are_filtered(rows: Seq<Seq<char>>, exclude_session_id: Option<Seq<char>>)
    ensures
        parse_session_rows(rows, exclude_session_id).len() <= rows.len(),
        forall|i: int|
            0 <= i < parse_session_rows(rows, exclude_session_id).len() ==> {
                &&& (#[trigger] parse_session_rows(rows, exclude_session_id)[i]).name != CONTROL_SESSION_NAME@
                &&& exclude_session_id != Some(parse_session_rows(rows, exclude_session_id)[i].session_id)
            },
    decreases rows.len(),
{
    if rows.len() > 0 {
        lemma_parsed_sessions_are_filtered(rows.drop_last(), exclude_session_id);
    }
}

pub fn chars_eq(a: &Vec<char>, b: &Vec<char>) -> (r: bool)
    ensures
        r == (a@ == b@),
{
    if a.len() != b.len() {
        return false;
    }
    let mut i: usize = 0;
    while i < a.len()
        invariant
            i <= a.len() == b.len(),
            forall|j: int| 0 <= j < i ==> a@[j] == b@[j],
        decreases a.len() - i,
    {
        if a[i] != b[i] {
            return false;
        }
        i += 1;
    }
    assert(a@ =~= b@);
    true
}

fn parse_row(
    row: &String,
    exclude: &Option<Vec<char>>,
    control: &Vec<char>,
) -> (r: Option<RemoteTmuxSession>)
    requires
        control@ == CONTROL_SESSION_NAME@,
    ensures
        match parse_session_row(row@, match exclude {
            Some(e) => Some(e@),
            None => None,
        }) {
            Some(s) => r matches Some(x) && x@ == s,
            None => r is None,
        },
{
    let v = chars_of(row.as_str());
    let parts = split_chars(&v, '|');
    proof {
        lemma_split_on_nonempty(v@, '|');
        assert(parts@.len() == chars_view(parts@).len());
    }
    assert(chars_view(parts@)[0] == parts@[0]@);
    match exclude {
        Some(e) => {
            if chars_eq(&parts[0], e) {
                return None;
            }
        },
        None => {},
    }
    if parts.len() < 2 {
        return None;
    }
    assert(chars_view(parts@)[1] == parts@[1]@);
    if chars_eq(&parts[1], control) {
        return None;
    }
    if parts.len() < 4 {
        return None;
    }
    assert(chars_view(parts@)[2] == parts@[2]@);
    assert(chars_view(parts@)[3] == parts@[3]@);
    let created = match parse_i64_chars(&parts[2]) {
        Some(c) => c,
        None => return None,
    };
    let attached = match parse_u32_chars(&parts[3]) {
        Some(a) => a,
        None => return None,
    };
    let cur = if parts.len() >= 6 {
        assert(chars_view(parts@)[5] == parts@[5]@);
        string_from_chars(&parts[5])
    } else if parts.len() == 5 {
        assert(chars_view(parts@)[4] == parts@[4]@);
        string_from_chars(&parts[4])
    } else {
        String::new()
    };
    Some(RemoteTmuxSession {
        session_id: string_from_chars(&parts[0]),
        name: string_from_chars(&parts[1]),
        created_unix: created,
        attached_count: attached,
        current_command: cur,
    })
}

/// The sessions listed in the rows of a `list-sessions` reply, leaving out
/// the control session, the session `exclude_session_id` names, and rows that
/// do not parse.
pub fn parse_sessions(lines: &[String], exclude_session_id: Option<&str>) -> (r: Vec<
    RemoteTmuxSession,
>)
    ensures
        sessions_view(r@) == parse_session_rows(
            lines@.map_values(|l: String| l@),
            match exclude_session_id {
                Some(e) => Some(e@),
                None => None,
            },
        ),
{
    let ghost ex = match exclude_session_id {
        Some(e) => Some(e@),
        None => None::<Seq<char>>,
    };
    let ghost rows = lines@.map_values(|l: String| l@);
    let exclude: Option<Vec<char>> = match exclude_session_id {
        Some(e) => Some(chars_of(e)),
        None => None,
    };
    let control = chars_of(CONTROL_SESSION_NAME);
    let mut out: Vec<RemoteTmuxSession> = Vec::new();
    let mut i: usize = 0;
    while i < lines.len()
        invariant
            i <= lines.len(),
            rows == lines@.map_values(|l: String| l@),
            control@ == CONTROL_SESSION_NAME@,
            ex == match exclude {
                Some(e) => Some(e@),
                None => None::<Seq<char>>,
            },
            sessions_view(out@) == parse_session_rows(rows.take(i as int), ex),
        decreases lines.len() - i,
    {
        let parsed = parse_row(&lines[i], &exclude, &control);
        proof {
            assert(rows.take(i + 1).drop_last() =~= rows.take(i as int));
            assert(rows.take(i + 1).last() == lines@[i as int]@);
        }
        match parsed {
            Some(s) => {
                let ghost old_out = out@;
                out.push(s);
                assert(sessions_view(out@) =~= sessions_view(old_out).push(out@.last()@));
            },
            None => {},
        }
        i += 1;
    }
    assert(rows.take(lines.len() as int) =~= rows);
    out
}

} // verus!
