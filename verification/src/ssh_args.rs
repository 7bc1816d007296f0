//! The host-targeting arguments of an ssh invocation.

use vstd::prelude::*;
use crate::text::{decimal, decimal_chars, string_from_chars};
use crate::commands::single_quoted;
use crate::remote_hosts::{clone_strings, strings_view, RemoteHost, RemoteHostView};

verus! {

/// The `-i` argument a host gets: its identity file, when set and not empty.
pub open spec fn identity_arg(h: RemoteHostView) -> Option<Seq<char>> {
    match h.identity_file {
        Some(f) => if f.len() > 0 {
            Some(f)
        } else {
            None
        },
        None => None,
    }
}

/// `[-p PORT, -i IDENTITY?, OPTIONS..., HOST]`.
pub open spec fn target_args_spec(h: RemoteHostView) -> Seq<Seq<char>> {
    seq!["-p"@, decimal(h.port as nat)] + match identity_arg(h) {
        Some(f) => seq!["-i"@, f],
        None => Seq::<Seq<char>>::empty(),
    } + h.ssh_options + seq![h.host]
}

/// The port comes first, as `-p` and its decimal digits; the user's ssh
/// options always reach ssh, whole and in order, right before the host,
/// which comes last, whether or not an identity file is set; between the
/// port and the options stands `-i` with the identity file when one is set
/// and not empty, and nothing otherwise.
pub proof fn lemma_target_args_layout(h: RemoteHostView)
    ensures
        ({
            let r = target_args_spec(h);
            let n = r.len();
            let k = h.ssh_options.len();
            let id_len: int = match h.identity_file {
                Some(f) => if f.len() > 0 { 2 } else { 0 },
                None => 0,
            };
            &&& n == 3 + id_len + k
            &&& r[0] == "-p"@
            &&& r[1] == decimal(h.port as nat)
            &&& (id_len == 2 ==> r[2] == "-i"@ && Some(r[3]) == h.identity_file)
            &&& r.subrange(n - 1 - k, n - 1) == h.ssh_options
            &&& r[n - 1] == h.host
        }),
{
    let r = target_args_spec(h);
    let n = r.len();
    let k = h.ssh_options.len();
    assert(r.subrange(n - 1 - k, n - 1) =~= h.ssh_options);
}

/// With no identity file the arguments are exactly the port, the user's ssh
/// options and the host.
pub proof fn lemma_target_args_without_identity(h: RemoteHostView)
    requires
        h.identity_file is None,
    ensures
        target_args_spec(h) == seq!["-p"@, decimal(h.port as nat)] + h.ssh_options + seq![h.host],
{
    assert(target_args_spec(h) =~= seq!["-p"@, decimal(h.port as nat)] + h.ssh_options + seq![h.host]);
}

/// A character the POSIX shell gives a meaning to, as `shell_words` lists
/// them.
pub open spec fn is_shell_special(c: char) -> bool {
    c == '\n' || c == '\'' || c == '|' || c == '&' || c == ';' || c == '<' || c == '>' || c == '('
        || c == ')' || c == '$' || c == '`' || c == '\\' || c == '"' || c == ' ' || c == '\t' || c
        == '*' || c == '?' || c == '[' || c == '#' || c == '~' || c == '=' || c == '%'
}

/// What `shell_words::quote` makes of `s`: `s` itself when it is not empty
/// and holds no special character, `s` in single quotes (each `'` written as
/// `'\''`) otherwise.
pub open spec fn shell_words_quoted(s: Seq<char>) -> Seq<char> {
    if s.len() > 0 && forall|i: int| 0 <= i < s.len() ==> !is_shell_special(#[trigger] s[i]) {
        s
    } else {
        single_quoted(s)
    }
}

/// `shell_words::quote`, owned. Claimed: the result is as
/// [`shell_words_quoted`] states, which is what the crate's source (1.1.1)
/// does: `escape_style` picks no quoting for a non-empty string without
/// special characters, and single quotes with `'\''` for each quote
/// otherwise (its quote-free `SingleQuoted` style writes the same text).
#[verifier::external_body]
fn shell_quote(s: &str) -> (r: String)
    ensures
        r@ == shell_words_quoted(s@),
{
    shell_words::quote(s).into_owned()
}

/// `[-p PORT, -i IDENTITY?, OPTIONS..., HOST]`: the host-targeting tail of an
/// ssh invocation.
pub fn target_args(host: &RemoteHost) -> (r: Vec<String>)
    ensures
        strings_view(r@) == target_args_spec(host@),
{
    let mut args: Vec<String> = Vec::new();
    args.push(String::from_str("-p"));
    let port = decimal_chars(host.port as u64);
    args.push(string_from_chars(&port));
    let ghost head = strings_view(args@);
    match host.identity_file_arg() {
        Some(id) => {
            args.push(String::from_str("-i"));
            args.push(String::from_str(id));
        },
        None => {},
    }
    let ghost with_id = strings_view(args@);
    let mut opts = clone_strings(&host.ssh_options);
    let ghost before = args@;
    let ghost o = opts@;
    args.append(&mut opts);
    assert(strings_view(before + o) =~= strings_view(before) + strings_view(o));
    assert(strings_view(args@) =~= with_id + strings_view(host.ssh_options@));
    args.push(host.host.clone());
    assert(strings_view(args@) =~= target_args_spec(host@));
    args
}

/// The same as [`target_args`], with each value the user controls quoted by
/// `shell_words::quote`, for embedding in a shell command line.
pub fn target_args_shell_quoted(host: &RemoteHost) -> (r: Vec<String>)
    ensures
        strings_view(r@) == seq!["-p"@, decimal(host@.port as nat)] + match identity_arg(host@) {
            Some(f) => seq!["-i"@, shell_words_quoted(f)],
            None => Seq::<Seq<char>>::empty(),
        } + host@.ssh_options.map_values(|o: Seq<char>| shell_words_quoted(o)) + seq![
            shell_words_quoted(host@.host),
        ],
{
    let mut args: Vec<String> = Vec::new();
    args.push(String::from_str("-p"));
    let port = decimal_chars(host.port as u64);
    args.push(string_from_chars(&port));
    match host.identity_file_arg() {
        Some(id) => {
            args.push(String::from_str("-i"));
            args.push(shell_quote(id));
        },
        None => {},
    }
    let ghost head = strings_view(args@);
    let mut i: usize = 0;
    while i < host.ssh_options.len()
        invariant
            i <= host.ssh_options.len(),
            strings_view(args@) == head + host@.ssh_options.take(i as int).map_values(
                |o: Seq<char>| shell_words_quoted(o),
            ),
        decreases host.ssh_options.len() - i,
    {
        let q = shell_quote(host.ssh_options[i].as_str());
        let ghost old_args = args@;
        args.push(q);
        assert(host@.ssh_options[i as int] == host.ssh_options@[i as int]@);
        assert(host@.ssh_options.take(i + 1) =~= host@.ssh_options.take(i as int).push(host@.ssh_options[i as int]));
        let ghost f = |o: Seq<char>| shell_words_quoted(o);
        assert(host@.ssh_options.take(i + 1).map_values(f) =~= host@.ssh_options.take(i as int).map_values(f).push(q@));
        assert(strings_view(args@) =~= strings_view(old_args).push(q@));
        assert(strings_view(args@) =~= head + host@.ssh_options.take(i + 1).map_values(f));
        i += 1;
    }
    assert(host@.ssh_options.take(host.ssh_options.len() as int) =~= host@.ssh_options);
    args.push(shell_quote(host.host.as_str()));
    let ghost body = host@.ssh_options.map_values(|o: Seq<char>| shell_words_quoted(o));
    assert(strings_view(args@) =~= head + body + seq![shell_words_quoted(host@.host)]);
    args
}

} // verus!
