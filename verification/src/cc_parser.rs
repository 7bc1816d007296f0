//! Parsing of tmux control-mode (`tmux -CC`) output, one line at a time.

use vstd::prelude::*;
use crate::text::{
    chars_of, first_two_words, index_of, index_of_chars, lemma_index_of_range, parse_u32_chars,
    parse_unsigned, slice_chars, slice_string, split_once, split_once_chars, starts_with,
    strip_prefix, strip_prefix_chars, string_from_chars, trim, trim_chars, words,
};

verus! {

/// A notification or command reply read from a control-mode connection.
#[derive(Clone, Debug, PartialEq)]
pub enum ControlEvent {
    Begin { id: u32 },
    End { id: u32, output: Vec<String> },
    Error { id: u32, output: Vec<String> },
    SessionsChanged,
    SessionChanged { session_id: String, name: String },
    ClientSessionChanged { tty: String, session_id: String, name: String },
    ClientDetached { tty: String },
    SessionRenamed { session_id: String, new_name: String },
    SessionWindowChanged { session_id: String },
    Exit { reason: Option<String> },
    ConfigError { line: String },
    Unknown(String),
}

pub enum ControlEventView {
    Begin { id: u32 },
    End { id: u32, output: Seq<Seq<char>> },
    Error { id: u32, output: Seq<Seq<char>> },
    SessionsChanged,
    SessionChanged { session_id: Seq<char>, name: Seq<char> },
    ClientSessionChanged { tty: Seq<char>, session_id: Seq<char>, name: Seq<char> },
    ClientDetached { tty: Seq<char> },
    SessionRenamed { session_id: Seq<char>, new_name: Seq<char> },
    SessionWindowChanged { session_id: Seq<char> },
    Exit { reason: Option<Seq<char>> },
    ConfigError { line: Seq<char> },
    Unknown(Seq<char>),
}

pub open spec fn strings_view(v: Seq<String>) -> Seq<Seq<char>> {
    v.map_values(|s: String| s@)
}

impl View for ControlEvent {
    type V = ControlEventView;

    open spec fn view(&self) -> ControlEventView {
        match self {
            ControlEvent::Begin { id } => ControlEventView::Begin { id: *id },
            ControlEvent::End { id, output } => ControlEventView::End {
                id: *id,
                output: strings_view(output@),
            },
            ControlEvent::Error { id, output } => ControlEventView::Error {
                id: *id,
                output: strings_view(output@),
            },
            ControlEvent::SessionsChanged => ControlEventView::SessionsChanged,
            ControlEvent::SessionChanged { session_id, name } => ControlEventView::SessionChanged {
                session_id: session_id@,
                name: name@,
            },
            ControlEvent::ClientSessionChanged {
                tty,
                session_id,
                name,
            } => ControlEventView::ClientSessionChanged {
                tty: tty@,
                session_id: session_id@,
                name: name@,
            },
            ControlEvent::ClientDetached { tty } => ControlEventView::ClientDetached { tty: tty@ },
            ControlEvent::SessionRenamed {
                session_id,
                new_name,
            } => ControlEventView::SessionRenamed {
                session_id: session_id@,
                new_name: new_name@,
            },
            ControlEvent::SessionWindowChanged {
                session_id,
            } => ControlEventView::SessionWindowChanged { session_id: session_id@ },
            ControlEvent::Exit { reason } => ControlEventView::Exit {
                reason: match reason {
                    Some(r) => Some(r@),
                    None => None,
                },
            },
            ControlEvent::ConfigError { line } => ControlEventView::ConfigError { line: line@ },
            ControlEvent::Unknown(l) => ControlEventView::Unknown(l@),
        }
    }
}

pub open spec fn events_view(v: Seq<ControlEvent>) -> Seq<ControlEventView> {
    v.map_values(|e: ControlEvent| e@)
}

/// What reading one line leads to.
pub enum LineOutcome {
    /// The line completes an event.
    Event(ControlEvent),
    /// The line produces no event; reading goes on.
    Continue,
    /// The line is malformed in a way that ends the stream.
    Stop,
}

pub enum LineOutcomeView {
    Event(ControlEventView),
    Continue,
    Stop,
}

impl View for LineOutcome {
    type V = LineOutcomeView;

    open spec fn view(&self) -> LineOutcomeView {
        match self {
            LineOutcome::Event(e) => LineOutcomeView::Event(e@),
            LineOutcome::Continue => LineOutcomeView::Continue,
            LineOutcome::Stop => LineOutcomeView::Stop,
        }
    }
}

/// A `%begin` block whose `%end` or `%error` has not arrived yet: its id and
/// the lines read inside it so far.
pub type PendingBlockView = Option<(u32, Seq<Seq<char>>)>;

/// `s` without the copies of `c` that end it.
pub open spec fn strip_trailing(s: Seq<char>, c: char) -> Seq<char>
    decreases s.len(),
{
    if s.len() > 0 && s.last() == c {
        strip_trailing(s.drop_last(), c)
    } else {
        s
    }
}

/// A line as read, without its line terminator: trailing `\n`s, then
/// trailing `\r`s, removed.
pub open spec fn line_content(raw: Seq<char>) -> Seq<char> {
    strip_trailing(strip_trailing(raw, '\n'), '\r')
}

/// The command number in the header of a `%begin`, `%end` or `%error` line:
/// the second whitespace-separated word after the keyword.
pub open spec fn header_id(rest: Seq<char>) -> Option<u32> {
    if words(rest).len() >= 2 {
        match parse_unsigned(words(rest)[1], 0xffff_ffff) {
            Some(v) => Some(v as u32),
            None => None,
        }
    } else {
        None
    }
}

/// The text after the first space, or nothing when there is no space.
pub open spec fn after_space(s: Seq<char>) -> Seq<char> {
    match split_once(s, ' ').1 {
        Some(r) => r,
        None => Seq::<char>::empty(),
    }
}

/// The event for a line read outside any `%begin` block, as far as the line
/// is a notification; `None` for other lines.
pub open spec fn notification(t: Seq<char>) -> Option<LineOutcomeView> {
    if t == "%sessions-changed"@ {
        Some(LineOutcomeView::Event(ControlEventView::SessionsChanged))
    } else if strip_prefix(t, "%session-changed "@) is Some {
        let rest = strip_prefix(t, "%session-changed "@)->0;
        Some(LineOutcomeView::Event(ControlEventView::SessionChanged {
            session_id: split_once(rest, ' ').0,
            name: after_space(rest),
        }))
    } else if strip_prefix(t, "%client-session-changed "@) is Some {
        let rest = strip_prefix(t, "%client-session-changed "@)->0;
        match split_once(rest, ' ').1 {
            Some(r1) => Some(LineOutcomeView::Event(ControlEventView::ClientSessionChanged {
                tty: split_once(rest, ' ').0,
                session_id: split_once(r1, ' ').0,
                name: after_space(r1),
            })),
            None => Some(LineOutcomeView::Stop),
        }
    } else if strip_prefix(t, "%client-detached "@) is Some {
        Some(LineOutcomeView::Event(ControlEventView::ClientDetached {
            tty: strip_prefix(t, "%client-detached "@)->0,
        }))
    } else if strip_prefix(t, "%session-renamed "@) is Some {
        let rest = strip_prefix(t, "%session-renamed "@)->0;
        Some(LineOutcomeView::Event(ControlEventView::SessionRenamed {
            session_id: split_once(rest, ' ').0,
            new_name: after_space(rest),
        }))
    } else if strip_prefix(t, "%session-window-changed "@) is Some {
        Some(LineOutcomeView::Event(ControlEventView::SessionWindowChanged {
            session_id: strip_prefix(t, "%session-window-changed "@)->0,
        }))
    } else if strip_prefix(t, "%exit"@) is Some {
        let reason = trim(strip_prefix(t, "%exit"@)->0);
        Some(LineOutcomeView::Event(ControlEventView::Exit {
            reason: if reason.len() == 0 {
                None
            } else {
                Some(reason)
            },
        }))
    } else if strip_prefix(t, "%config-error "@) is Some {
        Some(LineOutcomeView::Event(ControlEventView::ConfigError {
            line: strip_prefix(t, "%config-error "@)->0,
        }))
    } else if t.len() > 0 && t[0] == '%' {
        Some(LineOutcomeView::Event(ControlEventView::Unknown(t)))
    } else {
        None
    }
}

/// Splitting at the first space of a text whose first word has no space in
/// it gives that word and everything after the space.
proof fn lemma_split_once_at_space(a: Seq<char>, b: Seq<char>)
    requires
        forall|i: int| 0 <= i < a.len() ==> a[i] != ' ',
    ensures
        split_once(a + seq![' '] + b, ' ') == (a, Some(b)),
{
    let s = a + seq![' '] + b;
    crate::text::lemma_index_of_some(s, ' ', a.len() as int);
    assert(s.take(a.len() as int) =~= a);
    assert(s.skip(a.len() as int + 1) =~= b);
}

/// A `%client-session-changed` line names the client's tty, then the
/// session's id, then the session's name, which is all the rest of the line,
/// spaces included.
pub proof fn lemma_client_session_changed_fields(tty: Seq<char>, id: Seq<char>, name: Seq<char>)
    requires
        forall|i: int| 0 <= i < tty.len() ==> tty[i] != ' ',
        forall|i: int| 0 <= i < id.len() ==> id[i] != ' ',
    ensures
        notification("%client-session-changed "@ + tty + seq![' '] + id + seq![' '] + name) == Some(
            LineOutcomeView::Event(ControlEventView::ClientSessionChanged { tty, session_id: id, name }),
        ),
{
    reveal_strlit("%client-session-changed ");
    reveal_strlit("%sessions-changed");
    reveal_strlit("%session-changed ");
    let p = "%client-session-changed "@;
    let t = p + tty + seq![' '] + id + seq![' '] + name;
    assert(t != "%sessions-changed"@) by {
        assert(t.len() != "%sessions-changed"@.len());
    }
    assert(t.take(17)[1] != "%session-changed "@[1]);
    assert(t.take(24) =~= p);
    let rest = t.skip(24);
    let r1 = id + seq![' '] + name;
    assert(rest =~= tty + seq![' '] + r1);
    lemma_split_once_at_space(tty, r1);
    lemma_split_once_at_space(id, name);
}

/// A `%session-changed` line names the session's id, then its name, which is
/// all the rest of the line, spaces included.
pub proof fn lemma_session_changed_fields(id: Seq<char>, name: Seq<char>)
    requires
        forall|i: int| 0 <= i < id.len() ==> id[i] != ' ',
    ensures
        notification("%session-changed "@ + id + seq![' '] + name) == Some(
            LineOutcomeView::Event(ControlEventView::SessionChanged { session_id: id, name }),
        ),
{
    reveal_strlit("%sessions-changed");
    reveal_strlit("%session-changed ");
    let p = "%session-changed "@;
    let t = p + id + seq![' '] + name;
    assert(t != "%sessions-changed"@) by {
        assert(t.len() != "%sessions-changed"@.len());
    }
    assert(t.take(17) =~= p);
    assert(t.skip(17) =~= id + seq![' '] + name);
    lemma_split_once_at_space(id, name);
}

/// A `%session-renamed` line names the session's id, then its new name,
/// which is all the rest of the line, spaces included.
pub proof fn lemma_session_renamed_fields(id: Seq<char>, name: Seq<char>)
    requires
        forall|i: int| 0 <= i < id.len() ==> id[i] != ' ',
    ensures
        notification("%session-renamed "@ + id + seq![' '] + name) == Some(
            LineOutcomeView::Event(ControlEventView::SessionRenamed { session_id: id, new_name: name }),
        ),
{
    reveal_strlit("%sessions-changed");
    reveal_strlit("%session-changed ");
    reveal_strlit("%client-session-changed ");
    reveal_strlit("%client-detached ");
    reveal_strlit("%session-renamed ");
    let p = "%session-renamed "@;
    let t = p + id + seq![' '] + name;
    assert(t != "%sessions-changed"@) by {
        assert(t.len() != "%sessions-changed"@.len());
    }
    assert(t.take(17)[9] != "%session-changed "@[9]);
    assert(!starts_with(t, "%client-session-changed "@)) by {
        if "%client-session-changed "@.len() <= t.len() {
            assert(t.take(24)[1] != "%client-session-changed "@[1]);
        }
    }
    assert(t.take(17)[1] != "%client-detached "@[1]);
    assert(t.take(17) =~= p);
    assert(t.skip(17) =~= id + seq![' '] + name);
    lemma_split_once_at_space(id, name);
}

/// Reading one raw line in state `pending`: the next state and what the line
/// leads to.
///
/// `%begin` opens a block, `%end` and `%error` close it and carry its lines
/// (none when no block was open); inside a block every other line is
/// collected; outside, notifications become events and other lines are
/// skipped. A block header without a readable id ends the stream.
pub open spec fn line_step(pending: PendingBlockView, raw: Seq<char>) -> (PendingBlockView, LineOutcomeView) {
    let t = line_content(raw);
    let (open_id, collected) = match pending {
        Some((id, out)) => (id, out),
        None => (0u32, Seq::<Seq<char>>::empty()),
    };
    if strip_prefix(t, "%begin "@) is Some {
        match header_id(strip_prefix(t, "%begin "@)->0) {
            Some(id) => (Some((id, Seq::<Seq<char>>::empty())), LineOutcomeView::Event(ControlEventView::Begin { id })),
            None => (pending, LineOutcomeView::Stop),
        }
    } else if strip_prefix(t, "%end "@) is Some {
        match header_id(strip_prefix(t, "%end "@)->0) {
            Some(id) => (None, LineOutcomeView::Event(ControlEventView::End { id, output: collected })),
            None => (pending, LineOutcomeView::Stop),
        }
    } else if strip_prefix(t, "%error "@) is Some {
        match header_id(strip_prefix(t, "%error "@)->0) {
            Some(id) => (None, LineOutcomeView::Event(ControlEventView::Error { id, output: collected })),
            None => (pending, LineOutcomeView::Stop),
        }
    } else if pending is Some {
        (Some((open_id, collected.push(t))), LineOutcomeView::Continue)
    } else {
        match notification(t) {
            Some(o) => (pending, o),
            None => (pending, LineOutcomeView::Continue),
        }
    }
}

/// The lines of `s` as a buffered reader hands them out: each up to and
/// including its `\n`, the last one without it when `s` does not end in `\n`.
pub open spec fn stream_lines(s: Seq<char>) -> Seq<Seq<char>>
    decreases s.len(),
{
    if s.len() == 0 {
        Seq::<Seq<char>>::empty()
    } else {
        match index_of(s, '\n') {
            Some(i) => {
                proof {
                    lemma_index_of_range(s, '\n');
                }
                seq![s.take(i + 1)] + stream_lines(s.skip(i + 1))
            },
            None => seq![s],
        }
    }
}

/// The events read from `lines` starting in state `pending`, up to the end or
/// to a line that ends the stream.
pub open spec fn run_lines(pending: PendingBlockView, lines: Seq<Seq<char>>) -> Seq<ControlEventView>
    decreases lines.len(),
{
    if lines.len() == 0 {
        Seq::<ControlEventView>::empty()
    } else {
        let (next, outcome) = line_step(pending, lines[0]);
        match outcome {
            LineOutcomeView::Event(e) => seq![e] + run_lines(next, lines.drop_first()),
            LineOutcomeView::Continue => run_lines(next, lines.drop_first()),
            LineOutcomeView::Stop => Seq::<ControlEventView>::empty(),
        }
    }
}

/// A line that opens or closes a `%begin` block.
pub open spec fn is_block_header(t: Seq<char>) -> bool {
    ||| strip_prefix(t, "%begin "@) is Some
    ||| strip_prefix(t, "%end "@) is Some
    ||| strip_prefix(t, "%error "@) is Some
}

/// Inside an open block, lines that are not block headers are collected in
/// order, without their line terminators, and produce no event.
pub proof fn lemma_block_collects_lines(id: u32, before: Seq<Seq<char>>, body: Seq<Seq<char>>, rest: Seq<Seq<char>>)
    requires
        forall|i: int| 0 <= i < body.len() ==> !is_block_header(#[trigger] line_content(body[i])),
    ensures
        run_lines(Some((id, before)), body + rest) == run_lines(
            Some((id, before + body.map_values(|l: Seq<char>| line_content(l)))),
            rest,
        ),
    decreases body.len(),
{
    if body.len() == 0 {
        assert(body + rest =~= rest);
        assert(before + body.map_values(|l: Seq<char>| line_content(l)) =~= before);
    } else {
        let l0 = body[0];
        assert(!is_block_header(line_content(body[0])));
        let (next, outcome) = line_step(Some((id, before)), l0);
        assert(next == Some((id, before.push(line_content(l0)))));
        assert(outcome == LineOutcomeView::Continue);
        assert((body + rest)[0] == l0);
        assert((body + rest).drop_first() =~= body.drop_first() + rest);
        let tail = body.drop_first();
        assert forall|i: int| 0 <= i < tail.len() implies !is_block_header(#[trigger] line_content(tail[i])) by {
            assert(tail[i] == body[i + 1]);
        }
        lemma_block_collects_lines(id, before.push(line_content(l0)), tail, rest);
        assert(before.push(line_content(l0)) + tail.map_values(|l: Seq<char>| line_content(l)) =~= before
            + body.map_values(|l: Seq<char>| line_content(l)));
    }
}

/// The reply to a closing line read inside an open block.
proof fn lemma_close_step(id: u32, output: Seq<Seq<char>>, close_line: Seq<char>, ok: bool)
    requires
        ok ==> strip_prefix(line_content(close_line), "%end "@) is Some,
        !ok ==> strip_prefix(line_content(close_line), "%error "@) is Some,
    ensures
        ({
            let kw = if ok { "%end "@ } else { "%error "@ };
            let t = line_content(close_line);
            header_id(strip_prefix(t, kw)->0) matches Some(close_id) ==> line_step(Some((id, output)), close_line) == (
            None::<(u32, Seq<Seq<char>>)>,
            LineOutcomeView::Event(
                if ok {
                    ControlEventView::End { id: close_id, output }
                } else {
                    ControlEventView::Error { id: close_id, output }
                },
            ),
            )
        }),
{
    reveal_strlit("%begin ");
    reveal_strlit("%end ");
    reveal_strlit("%error ");
    let t = line_content(close_line);
    if ok {
        assert(t.take(5)[1] == 'e');
        if starts_with(t, "%begin "@) {
            assert(t.take(7)[1] == 'b');
        }
    } else {
        assert(t.take(7)[1] == 'e');
        if starts_with(t, "%begin "@) {
            assert(t.take(7)[1] == 'b');
        }
        if starts_with(t, "%end "@) {
            assert(t.take(5)[2] == 'n');
            assert(t.take(7)[2] == 'r');
        }
    }
}

/// A `%begin` block read from a fresh reader gives a `Begin` event, then,
/// at its `%end`, an `End` event that carries every line of the block, in
/// order and without line terminators; reading then goes on outside any
/// block. At an `%error` the block's lines come back in an `Error` event.
pub proof fn lemma_block_round_trip(
    begin_line: Seq<char>,
    body: Seq<Seq<char>>,
    close_line: Seq<char>,
    ok: bool,
    rest: Seq<Seq<char>>,
)
    requires
        strip_prefix(line_content(begin_line), "%begin "@) is Some,
        header_id(strip_prefix(line_content(begin_line), "%begin "@)->0) is Some,
        forall|i: int| 0 <= i < body.len() ==> !is_block_header(#[trigger] line_content(body[i])),
        ok ==> strip_prefix(line_content(close_line), "%end "@) is Some,
        !ok ==> strip_prefix(line_content(close_line), "%error "@) is Some,
        header_id(strip_prefix(line_content(close_line), if ok { "%end "@ } else { "%error "@ })->0) is Some,
    ensures
        ({
            let id = header_id(strip_prefix(line_content(begin_line), "%begin "@)->0)->0;
            let close_id = header_id(
                strip_prefix(line_content(close_line), if ok { "%end "@ } else { "%error "@ })->0,
            )->0;
            let output = body.map_values(|l: Seq<char>| line_content(l));
            run_lines(None, seq![begin_line] + body + seq![close_line] + rest) == seq![
                ControlEventView::Begin { id },
                if ok {
                    ControlEventView::End { id: close_id, output }
                } else {
                    ControlEventView::Error { id: close_id, output }
                },
            ] + run_lines(None, rest)
        }),
{
    let id = header_id(strip_prefix(line_content(begin_line), "%begin "@)->0)->0;
    let close_id = header_id(strip_prefix(line_content(close_line), if ok { "%end "@ } else { "%error "@ })->0)->0;
    let output = body.map_values(|l: Seq<char>| line_content(l));
    let e = if ok {
        ControlEventView::End { id: close_id, output }
    } else {
        ControlEventView::Error { id: close_id, output }
    };
    let all = seq![begin_line] + body + seq![close_line] + rest;
    assert(all[0] == begin_line);
    assert(all.drop_first() =~= body + (seq![close_line] + rest));
    lemma_block_collects_lines(id, Seq::<Seq<char>>::empty(), body, seq![close_line] + rest);
    assert(Seq::<Seq<char>>::empty() + output =~= output);
    let after = seq![close_line] + rest;
    assert(after[0] == close_line);
    assert(after.drop_first() =~= rest);
    lemma_close_step(id, output, close_line, ok);
    assert(run_lines(Some((id, output)), after) == seq![e] + run_lines(None, rest));
    assert(seq![ControlEventView::Begin { id }] + (seq![e] + run_lines(None, rest)) =~= seq![
        ControlEventView::Begin { id },
        e,
    ] + run_lines(None, rest));
}

struct PendingBlock {
    id: u32,
    output: Vec<String>,
}

/// The state of a control-mode reader between lines.
pub struct ControlParser {
    pending_block: Option<PendingBlock>,
}

impl View for ControlParser {
    type V = PendingBlockView;

    closed spec fn view(&self) -> PendingBlockView {
        match self.pending_block {
            Some(b) => Some((b.id, strings_view(b.output@))),
            None => None,
        }
    }
}

fn content_chars(raw: &Vec<char>) -> (r: Vec<char>)
    ensures
        r@ == line_content(raw@),
{
    let mut hi: usize = raw.len();
    assert(raw@.take(hi as int) =~= raw@);
    while hi > 0 && raw[hi - 1] == '\n'
        invariant
            hi <= raw.len(),
            strip_trailing(raw@, '\n') == strip_trailing(raw@.take(hi as int), '\n'),
        decreases hi,
    {
        assert(raw@.take(hi as int).drop_last() =~= raw@.take(hi - 1));
        hi -= 1;
    }
    let ghost u = raw@.take(hi as int);
    assert(strip_trailing(raw@, '\n') == u);
    let mut hi2: usize = hi;
    assert(u.take(hi2 as int) =~= u);
    while hi2 > 0 && raw[hi2 - 1] == '\r'
        invariant
            hi2 <= hi <= raw.len(),
            u == raw@.take(hi as int),
            strip_trailing(u, '\r') == strip_trailing(u.take(hi2 as int), '\r'),
        decreases hi2,
    {
        assert(u.take(hi2 as int).drop_last() =~= u.take(hi2 - 1));
        hi2 -= 1;
    }
    assert(u.take(hi2 as int) =~= raw@.take(hi2 as int));
    let r = slice_chars(raw, 0, hi2);
    assert(r@ =~= raw@.take(hi2 as int));
    r
}

fn parse_block_header_id(rest: &Vec<char>) -> (r: Option<u32>)
    ensures
        r == header_id(rest@),
{
    let (_first, second) = first_two_words(rest);
    match second {
        Some(w) => parse_u32_chars(&w),
        None => None,
    }
}

fn take_output(pending: &mut Option<PendingBlock>) -> (r: Vec<String>)
    ensures
        *final(pending) is None,
        strings_view(r@) == match *old(pending) {
            Some(b) => strings_view(b.output@),
            None => Seq::<Seq<char>>::empty(),
        },
{
    match pending.take() {
        Some(b) => b.output,
        None => {
            let v: Vec<String> = Vec::new();
            assert(strings_view(v@) =~= Seq::<Seq<char>>::empty());
            v
        },
    }
}

/// The text before the first space and the text after it ("" when there is
/// no space).
fn split_pair(rest: &Vec<char>) -> (r: (String, String))
    ensures
        r.0@ == split_once(rest@, ' ').0,
        r.1@ == after_space(rest@),
{
    let (a, b) = split_once_chars(rest, ' ');
    let second = match b {
        Some(v) => string_from_chars(&v),
        None => String::new(),
    };
    (string_from_chars(&a), second)
}

fn notification_exec(t: &Vec<char>) -> (r: Option<LineOutcome>)
    ensures
        match notification(t@) {
            Some(o) => r matches Some(x) && x@ == o,
            None => r is None,
        },
{
    let lit = chars_of("%sessions-changed");
    if crate::commands::chars_eq(t, &lit) {
        return Some(LineOutcome::Event(ControlEvent::SessionsChanged));
    }
    let p = chars_of("%session-changed ");
    if let Some(rest) = strip_prefix_chars(t, &p) {
        let (sid, name) = split_pair(&rest);
        return Some(LineOutcome::Event(ControlEvent::SessionChanged { session_id: sid, name }));
    }
    let p = chars_of("%client-session-changed ");
    if let Some(rest) = strip_prefix_chars(t, &p) {
        let (tty, r1) = split_once_chars(&rest, ' ');
        match r1 {
            Some(r1) => {
                let (sid, name) = split_pair(&r1);
                return Some(
                    LineOutcome::Event(
                        ControlEvent::ClientSessionChanged {
                            tty: string_from_chars(&tty),
                            session_id: sid,
                            name,
                        },
                    ),
                );
            },
            None => {
                return Some(LineOutcome::Stop);
            },
        }
    }
    let p = chars_of("%client-detached ");
    if let Some(rest) = strip_prefix_chars(t, &p) {
        return Some(LineOutcome::Event(ControlEvent::ClientDetached { tty: string_from_chars(&rest) }));
    }
    let p = chars_of("%session-renamed ");
    if let Some(rest) = strip_prefix_chars(t, &p) {
        let (sid, name) = split_pair(&rest);
        return Some(LineOutcome::Event(ControlEvent::SessionRenamed { session_id: sid, new_name: name }));
    }
    let p = chars_of("%session-window-changed ");
    if let Some(rest) = strip_prefix_chars(t, &p) {
        return Some(
            LineOutcome::Event(ControlEvent::SessionWindowChanged { session_id: string_from_chars(&rest) }),
        );
    }
    let p = chars_of("%exit");
    if let Some(rest) = strip_prefix_chars(t, &p) {
        let reason = trim_chars(&rest);
        let r = if reason.len() == 0 {
            None
        } else {
            Some(string_from_chars(&reason))
        };
        return Some(LineOutcome::Event(ControlEvent::Exit { reason: r }));
    }
    let p = chars_of("%config-error ");
    if let Some(rest) = strip_prefix_chars(t, &p) {
        return Some(LineOutcome::Event(ControlEvent::ConfigError { line: string_from_chars(&rest) }));
    }
    if t.len() > 0 && t[0] == '%' {
        return Some(LineOutcome::Event(ControlEvent::Unknown(string_from_chars(t))));
    }
    None
}

impl ControlParser {
    /// A reader that has not seen any line yet.
    pub fn new() -> (r: Self)
        ensures
            r@ is None,
    {
        ControlParser { pending_block: None }
    }

    /// Reads one raw line (with its terminator, as a buffered reader returns
    /// it); see [`line_step`].
    pub fn feed_line(&mut self, raw: &str) -> (r: LineOutcome)
        ensures
            (final(self)@, r@) == line_step(old(self)@, raw@),
    {
        let rv = chars_of(raw);
        let t = content_chars(&rv);
        let p = chars_of("%begin ");
        if let Some(rest) = strip_prefix_chars(&t, &p) {
            return match parse_block_header_id(&rest) {
                Some(id) => {
                    let v: Vec<String> = Vec::new();
                    assert(strings_view(v@) =~= Seq::<Seq<char>>::empty());
                    self.pending_block = Some(PendingBlock { id, output: v });
                    LineOutcome::Event(ControlEvent::Begin { id })
                },
                None => LineOutcome::Stop,
            };
        }
        let p = chars_of("%end ");
        if let Some(rest) = strip_prefix_chars(&t, &p) {
            return match parse_block_header_id(&rest) {
                Some(id) => {
                    let output = take_output(&mut self.pending_block);
                    LineOutcome::Event(ControlEvent::End { id, output })
                },
                None => LineOutcome::Stop,
            };
        }
        let p = chars_of("%error ");
        if let Some(rest) = strip_prefix_chars(&t, &p) {
            return match parse_block_header_id(&rest) {
                Some(id) => {
                    let output = take_output(&mut self.pending_block);
                    LineOutcome::Event(ControlEvent::Error { id, output })
                },
                None => LineOutcome::Stop,
            };
        }
        if let Some(block) = &mut self.pending_block {
            let ghost old_out = block.output@;
            block.output.push(string_from_chars(&t));
            assert(strings_view(block.output@) =~= strings_view(old_out).push(t@));
            return LineOutcome::Continue;
        }
        match notification_exec(&t) {
            Some(o) => o,
            None => LineOutcome::Continue,
        }
    }
}

/// All events of a complete control-mode transcript, read line by line from
/// a fresh reader; see [`run_lines`].
pub fn parse_control_output(input: &str) -> (r: Vec<ControlEvent>)
    ensures
        events_view(r@) == run_lines(None, stream_lines(input@)),
{
    let v = chars_of(input);
    let mut parser = ControlParser::new();
    let mut events: Vec<ControlEvent> = Vec::new();
    let mut pos: usize = 0;
    assert(v@.skip(0) =~= v@);
    while pos < v.len()
        invariant
            pos <= v.len(),
            v@ == input@,
            run_lines(None, stream_lines(v@)) == events_view(events@) + run_lines(
                parser@,
                stream_lines(v@.skip(pos as int)),
            ),
        decreases v.len() - pos,
    {
        let rest = slice_chars(&v, pos, v.len());
        assert(rest@ =~= v@.skip(pos as int));
        let (end, next) = match index_of_chars(&rest, '\n') {
            Some(i) => {
                assert(rest@.skip(i + 1) =~= v@.skip(pos + i + 1));
                (pos + i + 1, pos + i + 1)
            },
            None => (v.len(), v.len()),
        };
        let line = slice_string(&v, pos, end);
        let ghost lines = stream_lines(rest@);
        proof {
            assert(lines[0] == line@) by {
                assert(v@.subrange(pos as int, end as int) =~= rest@.take(end - pos));
            }
            if end < v.len() {
                assert(lines.drop_first() =~= stream_lines(v@.skip(end as int)));
            } else {
                assert(lines.drop_first() =~= Seq::<Seq<char>>::empty());
                assert(v@.skip(end as int) =~= Seq::<char>::empty());
            }
        }
        let ghost st = parser@;
        let outcome = parser.feed_line(line.as_str());
        match outcome {
            LineOutcome::Event(e) => {
                let ghost old_events = events@;
                events.push(e);
                assert(events_view(events@) =~= events_view(old_events).push(e@));
                assert(events_view(old_events).push(e@) + run_lines(parser@, stream_lines(v@.skip(next as int)))
                    =~= events_view(old_events) + (seq![e@] + run_lines(parser@, stream_lines(v@.skip(next as int)))));
            },
            LineOutcome::Continue => {},
            LineOutcome::Stop => {
                assert(run_lines(st, lines) == Seq::<ControlEventView>::empty());
                assert(stream_lines(v@.skip(pos as int)) == lines);
                assert(events_view(events@) + Seq::<ControlEventView>::empty() =~= events_view(events@));
                return events;
            },
        }
        pos = next;
    }
    assert(v@.skip(pos as int) =~= Seq::<char>::empty());
    assert(events_view(events@) + Seq::<ControlEventView>::empty() =~= events_view(events@));
    events
}

} // verus!
