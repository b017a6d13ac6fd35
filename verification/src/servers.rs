//! code-server lifecycle decisions: which transport a project uses, the
//! command line that starts its backend, the deterministic remote port of an
//! SSH tab, shell quoting, and when to stop waiting for a backend's port.
//!
//! Every spawn uses a per-tab `--user-data-dir`, so each tab keeps its own
//! VS Code state, and removes VS Code's IPC variables, which would otherwise
//! send code-server into "open in existing instance" mode. Starting the
//! process, allocating the local port and probing it are left to the caller.

use vstd::prelude::*;
use crate::project::Project;
use crate::text::{decimal, push_decimal, push_str};

verus! {

#[verifier::external_type_specification]
#[verifier::external_body]
pub struct ExIoError(std::io::Error);

/// Why a backend could not be started.
#[derive(Debug)]
pub enum SpawnError {
    UnsupportedEnv(String),
    MissingDistro,
    MissingSshHost,
    Io(std::io::Error),
}

/// The text of an I/O error.
///
/// Trusted: calls `ToString::to_string` on `std::io::Error`, whose text
/// comes from the operating system; nothing is stated of it.
#[verifier::external_body]
fn io_error_text(e: &std::io::Error) -> String {
    e.to_string()
}

impl SpawnError {
    /// The message shown to the user.
    pub fn to_string(&self) -> (s: String)
        ensures
            match self {
                SpawnError::UnsupportedEnv(env) => s@ == "unsupported env: "@ + env@,
                SpawnError::MissingDistro => s@ == "missing wsl_distro for wsl project"@,
                SpawnError::MissingSshHost => s@ == "missing ssh_host for ssh project"@,
                SpawnError::Io(_) => "io error: "@.is_prefix_of(s@),
            },
    {
        match self {
            SpawnError::UnsupportedEnv(env) => {
                let mut s = String::from_str("unsupported env: ");
                push_str(&mut s, env.as_str());
                s
            },
            SpawnError::MissingDistro => String::from_str("missing wsl_distro for wsl project"),
            SpawnError::MissingSshHost => String::from_str("missing ssh_host for ssh project"),
            SpawnError::Io(e) => {
                let mut s = String::from_str("io error: ");
                let t = io_error_text(e);
                push_str(&mut s, t.as_str());
                assert("io error: "@.is_prefix_of(s@)) by {
                    assert(s@.subrange(0, "io error: "@.len() as int) =~= "io error: "@);
                }
                s
            },
        }
    }
}

// ---- remote port -----------------------------------------------------------

/// The 31-multiplier rolling hash, modulo 2^32, of a byte sequence.
pub open spec fn tab_hash(bytes: Seq<u8>) -> u32
    decreases bytes.len(),
{
    if bytes.len() == 0 {
        0
    } else {
        tab_hash(bytes.drop_last()).wrapping_mul(31).wrapping_add(bytes.last() as u32)
    }
}

/// The remote port of an SSH tab: 8090 plus the hash of the UTF-8 bytes of
/// its id, modulo 1000.
pub open spec fn remote_port_for(tab_id: Seq<char>) -> u16 {
    (8090 + tab_hash(vstd::utf8::encode_utf8(tab_id)) % 1000) as u16
}

/// The deterministic remote port of an SSH tab, so that re-spawns of one tab
/// reuse one remote port. It lies in 8090..=9089.
pub fn derive_remote_port(tab_id: &str) -> (p: u16)
    ensures
        p == remote_port_for(tab_id@),
        8090 <= p <= 9089,
{
    let bytes = tab_id.as_bytes();
    let mut h: u32 = 0;
    let mut i: usize = 0;
    while i < bytes.len()
        invariant
            i <= bytes@.len(),
            bytes@ == vstd::utf8::encode_utf8(tab_id@),
            h == tab_hash(bytes@.take(i as int)),
        decreases bytes.len() - i,
    {
        let b = bytes[i];
        assert(bytes@.take(i + 1).drop_last() =~= bytes@.take(i as int));
        h = h.wrapping_mul(31).wrapping_add(b as u32);
        i = i + 1;
    }
    assert(bytes@.take(i as int) =~= bytes@);
    8090u16.saturating_add((h % 1000) as u16)
}

/// 31 to the power `e`.
pub open spec fn pow31(e: nat) -> int
    decreases e,
{
    if e == 0 {
        1
    } else {
        31 * pow31((e - 1) as nat)
    }
}

/// The value of the bytes `b` read as digits in base 31, first byte most
/// significant: the sum of `b[i] * 31^(n - 1 - i)`.
pub open spec fn base31_value(b: Seq<u8>) -> int
    decreases b.len(),
{
    if b.len() == 0 {
        0
    } else {
        b[0] as int * pow31((b.len() - 1) as nat) + base31_value(b.drop_first())
    }
}

proof fn lemma_base31_push(b: Seq<u8>, x: u8)
    ensures
        base31_value(b.push(x)) == base31_value(b) * 31 + x,
    decreases b.len(),
{
    let t = b.push(x);
    if b.len() == 0 {
        assert(t.drop_first() =~= Seq::<u8>::empty());
        assert(t[0] == x);
        assert(pow31(0) == 1);
        assert(base31_value(t.drop_first()) == 0);
        assert(base31_value(t) == x as int * pow31(0) + base31_value(t.drop_first()));
        assert(base31_value(b) == 0);
    } else {
        assert(t[0] == b[0]);
        assert(t.drop_first() =~= b.drop_first().push(x));
        lemma_base31_push(b.drop_first(), x);
        let n = b.len();
        assert(pow31(n as nat) == 31 * pow31((n - 1) as nat));
        let b0 = b[0] as int;
        let p = pow31((n - 1) as nat);
        let r = base31_value(b.drop_first());
        assert(b0 * (31 * p) + (r * 31 + x) == (b0 * p + r) * 31 + x) by (nonlinear_arith);
        assert(base31_value(t) == b0 * pow31(n as nat) + base31_value(t.drop_first()));
        assert(base31_value(b) == b0 * p + r);
    }
}

/// The hash of a tab id is the base-31 value of all of its bytes, modulo
/// 2^32: every byte counts, in order.
pub proof fn law_tab_hash_is_base31(b: Seq<u8>)
    ensures
        tab_hash(b) as int == base31_value(b) % 0x1_0000_0000,
    decreases b.len(),
{
    if b.len() > 0 {
        let init = b.drop_last();
        let x = b.last();
        assert(b =~= init.push(x));
        law_tab_hash_is_base31(init);
        lemma_base31_push(init, x);
        let m: int = 0x1_0000_0000;
        let h = tab_hash(init) as int;
        let v = base31_value(init);
        let y = tab_hash(init).wrapping_mul(31);
        assert(y as int == (h * 31) % m);
        vstd::arithmetic::div_mod::lemma_mul_mod_noop_left(v, 31, m);
        assert(y as int == (v * 31) % m);
        vstd::arithmetic::div_mod::lemma_add_mod_noop(v * 31, x as int, m);
        assert((x as int) % m == x as int);
        assert(((y as int) + x as int) % m == (v * 31 + x) % m);
        assert(tab_hash(b) == y.wrapping_add(x as u32));
    }
}

/// The remote port of a tab is 8090 plus the base-31 value, modulo 2^32, of
/// the whole UTF-8 encoding of its id, modulo 1000.
pub proof fn law_remote_port_uses_every_byte(tab_id: Seq<char>)
    ensures
        remote_port_for(tab_id) as int == 8090 + (base31_value(vstd::utf8::encode_utf8(tab_id))
            % 0x1_0000_0000) % 1000,
{
    law_tab_hash_is_base31(vstd::utf8::encode_utf8(tab_id));
}

// ---- shell quoting ---------------------------------------------------------

/// How one character appears between single quotes: a quote becomes `'\''`.
pub open spec fn quoted_char(c: char) -> Seq<char> {
    if c == '\'' {
        seq!['\'', '\\', '\'', '\'']
    } else {
        seq![c]
    }
}

/// The characters of `s`, each as `quoted_char` writes it.
pub open spec fn quote_body(s: Seq<char>) -> Seq<char>
    decreases s.len(),
{
    if s.len() == 0 {
        Seq::<char>::empty()
    } else {
        quote_body(s.drop_last()) + quoted_char(s.last())
    }
}

/// `s` as one single-quoted POSIX shell word.
pub open spec fn shell_quote_spec(s: Seq<char>) -> Seq<char> {
    seq!['\''] + quote_body(s) + seq!['\'']
}

/// Quotes `s` for a POSIX shell: wraps it in single quotes and writes each
/// single quote inside as `'\''`.
pub fn shell_quote(s: &str) -> (r: String)
    ensures
        r@ == shell_quote_spec(s@),
{
    let v = crate::text::chars_of(s);
    let mut r = String::new();
    crate::text::push_char(&mut r, '\'');
    let mut i: usize = 0;
    while i < v.len()
        invariant
            i <= v.len(),
            v@ == s@,
            r@ == seq!['\''] + quote_body(v@.take(i as int)),
        decreases v.len() - i,
    {
        let c = v[i];
        let ghost before = r@;
        if c == '\'' {
            crate::text::push_char(&mut r, '\'');
            crate::text::push_char(&mut r, '\\');
            crate::text::push_char(&mut r, '\'');
            crate::text::push_char(&mut r, '\'');
        } else {
            crate::text::push_char(&mut r, c);
        }
        proof {
            let t = v@.take(i + 1);
            assert(t.drop_last() =~= v@.take(i as int));
            assert(t.last() == c);
            assert(r@ =~= before + quoted_char(c));
            assert(r@ =~= seq!['\''] + quote_body(t));
        }
        i = i + 1;
    }
    crate::text::push_char(&mut r, '\'');
    assert(v@.take(i as int) =~= v@);
    r
}

/// Characters that a POSIX shell treats specially when they stand unquoted:
/// blanks and newlines split words, the others are operators, expansions or
/// patterns.
pub open spec fn shell_special(c: char) -> bool {
    ||| c == ' ' || c == '\t' || c == '\n'
    ||| c == ';' || c == '&' || c == '|' || c == '<' || c == '>' || c == '(' || c == ')'
    ||| c == '$' || c == '`' || c == '"' || c == '*' || c == '?' || c == '['
}

/// What a POSIX shell makes of the characters `q` read as part of one word,
/// starting inside single quotes when `quoted`: quotes open and close,
/// a backslash outside quotes takes the next character literally, and an
/// unquoted special character, which would split the word or be expanded,
/// makes it `None`, as does an unclosed quote.
pub open spec fn shell_word_value(quoted: bool, q: Seq<char>) -> Option<Seq<char>>
    decreases q.len(),
{
    if q.len() == 0 {
        if quoted {
            None
        } else {
            Some(Seq::<char>::empty())
        }
    } else if quoted {
        if q[0] == '\'' {
            shell_word_value(false, q.drop_first())
        } else {
            match shell_word_value(true, q.drop_first()) {
                Some(rest) => Some(seq![q[0]] + rest),
                None => None,
            }
        }
    } else if q[0] == '\'' {
        shell_word_value(true, q.drop_first())
    } else if q[0] == '\\' {
        if q.len() < 2 {
            None
        } else {
            match shell_word_value(false, q.skip(2)) {
                Some(rest) => Some(seq![q[1]] + rest),
                None => None,
            }
        }
    } else if shell_special(q[0]) {
        None
    } else {
        match shell_word_value(false, q.drop_first()) {
            Some(rest) => Some(seq![q[0]] + rest),
            None => None,
        }
    }
}

proof fn lemma_quoted_body_read(s: Seq<char>, tail: Seq<char>)
    ensures
        shell_word_value(true, quote_body(s) + tail) == match shell_word_value(true, tail) {
            Some(rest) => Some(s + rest),
            None => None::<Seq<char>>,
        },
    decreases s.len(),
{
    if s.len() == 0 {
        assert(quote_body(s) + tail =~= tail);
        match shell_word_value(true, tail) {
            Some(rest) => {
                assert(s + rest =~= rest);
            },
            None => {},
        }
    } else {
        let c = s.last();
        let init = s.drop_last();
        let mid = quoted_char(c) + tail;
        assert(quote_body(s) + tail =~= quote_body(init) + mid);
        lemma_quoted_body_read(init, mid);
        // reading `quoted_char(c)` inside quotes yields `c`
        if c == '\'' {
            assert(mid[0] == '\'');
            let a = mid.drop_first();
            assert(a =~= seq!['\\', '\'', '\''] + tail);
            assert(a[0] == '\\' && a[1] == '\'' && a.len() >= 2);
            let b = a.skip(2);
            assert(b =~= seq!['\''] + tail);
            assert(b[0] == '\'');
            assert(b.drop_first() =~= tail);
            assert(shell_word_value(false, b) == shell_word_value(true, tail));
            assert(shell_word_value(true, mid) == shell_word_value(false, a));
        } else {
            assert(mid[0] == c);
            assert(mid.drop_first() =~= tail);
        }
        assert(shell_word_value(true, mid) == match shell_word_value(true, tail) {
            Some(rest) => Some(seq![c] + rest),
            None => None::<Seq<char>>,
        });
        match shell_word_value(true, tail) {
            Some(rest) => {
                assert(init + (seq![c] + rest) =~= s + rest);
            },
            None => {},
        }
    }
}

/// A POSIX shell reads the quoted word back as the given text, whatever
/// quotes, backslashes or whitespace it holds.
pub proof fn lemma_shell_quote_round_trip(s: Seq<char>)
    ensures
        shell_word_value(false, shell_quote_spec(s)) == Some(s),
{
    let q = shell_quote_spec(s);
    assert(q[0] == '\'');
    assert(q.drop_first() =~= quote_body(s) + seq!['\'']);
    lemma_quoted_body_read(s, seq!['\'']);
    let e = Seq::<char>::empty();
    assert(seq!['\''].drop_first() =~= e);
    assert(shell_word_value(false, e) == Some(e));
    assert(shell_word_value(true, seq!['\'']) == Some(e));
    assert(s + e =~= s);
}

// ---- transports and command lines ------------------------------------------

/// How a project's backend is reached.
#[derive(Debug)]
pub enum Transport {
    /// code-server on this host.
    Local,
    /// code-server inside a WSL distribution.
    Wsl { distro: String },
    /// code-server on an SSH host, behind a local port forward to
    /// `remote_port` there.
    Ssh { host: String, remote_port: u16 },
}

/// Chooses the transport of `project`. On a host that is not Windows a
/// `"wsl"` project runs locally.
pub fn select_transport(project: &Project, windows_host: bool) -> (r: Result<Transport, SpawnError>)
    ensures
        project.env@ == "wsl"@ ==> if windows_host {
            match project.wsl_distro {
                Some(d) => (r matches Ok(Transport::Wsl { distro }) && distro@ == d@),
                None => r matches Err(SpawnError::MissingDistro),
            }
        } else {
            r matches Ok(Transport::Local)
        },
        project.env@ == "local"@ ==> r matches Ok(Transport::Local),
        project.env@ == "ssh"@ ==> match project.ssh_host {
            Some(h) => (r matches Ok(Transport::Ssh { host, remote_port }) && host@ == h@
                && remote_port == remote_port_for(project.id@)),
            None => r matches Err(SpawnError::MissingSshHost),
        },
        project.env@ != "wsl"@ && project.env@ != "local"@ && project.env@ != "ssh"@
            ==> (r matches Err(SpawnError::UnsupportedEnv(e)) && e@ == project.env@),
{
    proof {
        reveal_strlit("wsl");
        reveal_strlit("local");
        reveal_strlit("ssh");
        assert("wsl"@.len() != "local"@.len());
        assert("wsl"@[0] != "ssh"@[0]);
        assert("local"@.len() != "ssh"@.len());
    }
    if project.env == String::from_str("wsl") {
        if windows_host {
            match &project.wsl_distro {
                Some(d) => Ok(Transport::Wsl { distro: d.clone() }),
                None => Err(SpawnError::MissingDistro),
            }
        } else {
            Ok(Transport::Local)
        }
    } else if project.env == String::from_str("local") {
        Ok(Transport::Local)
    } else if project.env == String::from_str("ssh") {
        match &project.ssh_host {
            Some(h) => Ok(
                Transport::Ssh { host: h.clone(), remote_port: derive_remote_port(project.id.as_str()) },
            ),
            None => Err(SpawnError::MissingSshHost),
        }
    } else {
        Err(SpawnError::UnsupportedEnv(project.env.clone()))
    }
}

/// A process to start: program, arguments, environment variables to remove,
/// and whether its standard input is a pipe held open (otherwise null).
/// Standard output and error are always discarded.
#[derive(Debug)]
pub struct CommandSpec {
    pub program: String,
    pub args: Vec<String>,
    pub env_remove: Vec<String>,
    pub stdin_piped: bool,
}

/// The views of a list of strings.
pub open spec fn views(v: Seq<String>) -> Seq<Seq<char>> {
    v.map_values(|s: String| s@)
}

/// The VS Code IPC variables removed before a local spawn.
pub open spec fn ipc_vars_spec() -> Seq<Seq<char>> {
    seq!["VSCODE_IPC_HOOK_CLI"@, "VSCODE_IPC_HOOK"@, "VSCODE_PID"@, "VSCODE_CWD"@]
}

/// `127.0.0.1:{port}`.
pub open spec fn loopback_addr(port: u16) -> Seq<char> {
    "127.0.0.1:"@ + decimal(port as nat)
}

/// The arguments of a local code-server.
pub open spec fn local_args_spec(port: u16, user_data_dir: Seq<char>) -> Seq<Seq<char>> {
    seq![
        "--bind-addr"@,
        loopback_addr(port),
        "--auth"@,
        "none"@,
        "--user-data-dir"@,
        user_data_dir,
    ]
}

/// The user-data directory of a tab inside WSL or on an SSH host, relative
/// to the home directory there.
pub open spec fn remote_user_data_rel(tab_id: Seq<char>) -> Seq<char> {
    ".local/share/vstabs/backends/"@ + tab_id
}

/// A shell word that names `rel` under the home directory: an unquoted `~/`,
/// which the shell expands to the home directory, then `rel` quoted.
pub open spec fn home_word(rel: Seq<char>) -> Seq<char> {
    seq!['~', '/'] + shell_quote_spec(rel)
}

/// What a POSIX shell makes of a word that starts with the tilde-prefix
/// `~/`: the path, relative to the home directory, that the rest of the word
/// reads as. `None` for a word without that prefix or that does not read as
/// one word.
pub open spec fn home_relative_value(w: Seq<char>) -> Option<Seq<char>> {
    if w.len() >= 2 && w[0] == '~' && w[1] == '/' {
        shell_word_value(false, w.skip(2))
    } else {
        None
    }
}

/// The user-data word of a WSL or SSH tab names the per-tab directory
/// `.local/share/vstabs/backends/{id}` under the home directory, whatever
/// characters the id holds.
pub proof fn law_home_word_names_tab_dir(tab_id: Seq<char>)
    ensures
        home_relative_value(home_word(remote_user_data_rel(tab_id))) == Some(
            remote_user_data_rel(tab_id),
        ),
{
    let rel = remote_user_data_rel(tab_id);
    let w = home_word(rel);
    assert(w.skip(2) =~= shell_quote_spec(rel));
    lemma_shell_quote_round_trip(rel);
}

/// The `bash -c` script that starts code-server inside WSL.
pub open spec fn wsl_script_spec(port: u16, tab_id: Seq<char>) -> Seq<char> {
    let w = home_word(remote_user_data_rel(tab_id));
    "mkdir -p "@ + w
        + " && env -u VSCODE_IPC_HOOK_CLI -u VSCODE_IPC_HOOK -u VSCODE_PID -u VSCODE_CWD ~/.local/bin/code-server --bind-addr "@
        + loopback_addr(port) + " --auth none --user-data-dir "@ + w
}

/// The script that `bash -c` runs on an SSH host: code-server in the
/// background under a trap that takes the whole process group down when the
/// SSH client goes away.
pub open spec fn ssh_inner_spec(remote_port: u16, tab_id: Seq<char>) -> Seq<char> {
    let w = home_word(remote_user_data_rel(tab_id));
    "mkdir -p "@ + w
        + "; trap \"kill -TERM 0\" SIGTERM SIGHUP SIGINT; ~/.local/bin/code-server --bind-addr "@
        + loopback_addr(remote_port) + " --auth none --user-data-dir "@ + w
        + " & CSPID=$!; wait $CSPID"@
}

/// The remote command of an SSH tab: the inner script, quoted as one word,
/// run by `bash -c` without the VS Code IPC variables.
pub open spec fn ssh_script_spec(remote_port: u16, tab_id: Seq<char>) -> Seq<char> {
    "exec env -u VSCODE_IPC_HOOK_CLI -u VSCODE_IPC_HOOK -u VSCODE_PID -u VSCODE_CWD bash -c "@
        + shell_quote_spec(ssh_inner_spec(remote_port, tab_id))
}

/// The remote shell hands `bash -c` exactly the inner script: its quoting
/// survives any tab id.
pub proof fn law_ssh_script_reaches_bash_intact(remote_port: u16, tab_id: Seq<char>)
    ensures
        shell_word_value(false, shell_quote_spec(ssh_inner_spec(remote_port, tab_id))) == Some(
            ssh_inner_spec(remote_port, tab_id),
        ),
{
    lemma_shell_quote_round_trip(ssh_inner_spec(remote_port, tab_id));
}

/// The `-L` forward of an SSH tab.
pub open spec fn ssh_forward_spec(local_port: u16, remote_port: u16) -> Seq<char> {
    loopback_addr(local_port) + ":"@ + loopback_addr(remote_port)
}

/// Backends are reachable on the loopback interface only: a local
/// code-server binds `127.0.0.1`, and an SSH tab's forward listens on
/// `127.0.0.1` locally and reaches `127.0.0.1` on the remote host.
pub proof fn law_loopback_only(port: u16, local_port: u16, remote_port: u16, user_data_dir: Seq<char>)
    ensures
        local_args_spec(port, user_data_dir)[0] == "--bind-addr"@,
        "127.0.0.1:"@.is_prefix_of(local_args_spec(port, user_data_dir)[1]),
        ssh_forward_spec(local_port, remote_port) == "127.0.0.1:"@ + decimal(local_port as nat)
            + ":"@ + "127.0.0.1:"@ + decimal(remote_port as nat),
{
    let a = local_args_spec(port, user_data_dir)[1];
    assert(a.subrange(0, "127.0.0.1:"@.len() as int) =~= "127.0.0.1:"@);
    assert(ssh_forward_spec(local_port, remote_port) =~= "127.0.0.1:"@ + decimal(local_port as nat)
        + ":"@ + "127.0.0.1:"@ + decimal(remote_port as nat));
}

fn tab_home_word(tab_id: &str) -> (w: String)
    ensures
        w@ == home_word(remote_user_data_rel(tab_id@)),
{
    let mut rel = String::from_str(".local/share/vstabs/backends/");
    push_str(&mut rel, tab_id);
    let q = shell_quote(rel.as_str());
    let mut w = String::new();
    crate::text::push_char(&mut w, '~');
    crate::text::push_char(&mut w, '/');
    push_str(&mut w, q.as_str());
    w
}

fn loopback(port: u16) -> (s: String)
    ensures
        s@ == loopback_addr(port),
{
    let mut s = String::from_str("127.0.0.1:");
    push_decimal(&mut s, port as u32);
    s
}

fn ipc_vars() -> (v: Vec<String>)
    ensures
        views(v@) == ipc_vars_spec(),
{
    let mut v: Vec<String> = Vec::new();
    v.push(String::from_str("VSCODE_IPC_HOOK_CLI"));
    v.push(String::from_str("VSCODE_IPC_HOOK"));
    v.push(String::from_str("VSCODE_PID"));
    v.push(String::from_str("VSCODE_CWD"));
    assert(views(v@) =~= ipc_vars_spec());
    v
}

/// The command that starts code-server on this host, bound to
/// `127.0.0.1:{port}`, with its own user-data directory and without the VS
/// Code IPC variables.
pub fn local_command(code_server_bin: &str, port: u16, user_data_dir: &str) -> (c: CommandSpec)
    ensures
        c.program@ == code_server_bin@,
        views(c.args@) == local_args_spec(port, user_data_dir@),
        views(c.env_remove@) == ipc_vars_spec(),
        !c.stdin_piped,
{
    let mut args: Vec<String> = Vec::new();
    args.push(String::from_str("--bind-addr"));
    args.push(loopback(port));
    args.push(String::from_str("--auth"));
    args.push(String::from_str("none"));
    args.push(String::from_str("--user-data-dir"));
    args.push(String::from_str(user_data_dir));
    assert(views(args@) =~= local_args_spec(port, user_data_dir@));
    CommandSpec {
        program: String::from_str(code_server_bin),
        args,
        env_remove: ipc_vars(),
        stdin_piped: false,
    }
}

/// The command that starts code-server inside the WSL distribution
/// `distro`: `wsl -d {distro} bash -c {script}`.
pub fn wsl_command(distro: &str, port: u16, tab_id: &str) -> (c: CommandSpec)
    ensures
        c.program@ == "wsl"@,
        views(c.args@) == seq!["-d"@, distro@, "bash"@, "-c"@, wsl_script_spec(port, tab_id@)],
        c.env_remove@.len() == 0,
        !c.stdin_piped,
{
    let w = tab_home_word(tab_id);
    let mut inner = String::from_str("mkdir -p ");
    push_str(&mut inner, w.as_str());
    push_str(
        &mut inner,
        " && env -u VSCODE_IPC_HOOK_CLI -u VSCODE_IPC_HOOK -u VSCODE_PID -u VSCODE_CWD ~/.local/bin/code-server --bind-addr ",
    );
    let addr = loopback(port);
    push_str(&mut inner, addr.as_str());
    push_str(&mut inner, " --auth none --user-data-dir ");
    push_str(&mut inner, w.as_str());
    let mut args: Vec<String> = Vec::new();
    args.push(String::from_str("-d"));
    args.push(String::from_str(distro));
    args.push(String::from_str("bash"));
    args.push(String::from_str("-c"));
    args.push(inner);
    assert(views(args@) =~= seq!["-d"@, distro@, "bash"@, "-c"@, wsl_script_spec(port, tab_id@)]);
    CommandSpec {
        program: String::from_str("wsl"),
        args,
        env_remove: Vec::new(),
        stdin_piped: false,
    }
}

/// The arguments of the SSH client of a tab.
pub open spec fn ssh_args_spec(host: Seq<char>, local_port: u16, remote_port: u16, tab_id: Seq<char>) -> Seq<Seq<char>> {
    seq![
        "-L"@,
        ssh_forward_spec(local_port, remote_port),
        "-tt"@,
        "-o"@,
        "ServerAliveInterval=30"@,
        "-o"@,
        "ServerAliveCountMax=3"@,
        "-o"@,
        "StrictHostKeyChecking=accept-new"@,
        host,
        ssh_script_spec(remote_port, tab_id),
    ]
}

/// The SSH client command of a tab: forwards `127.0.0.1:{local_port}` to
/// `127.0.0.1:{remote_port}` on `host` and runs code-server there. Its
/// standard input stays an open pipe, since OpenSSH on Windows exits on EOF.
pub fn ssh_command(host: &str, local_port: u16, remote_port: u16, tab_id: &str) -> (c: CommandSpec)
    ensures
        c.program@ == "ssh"@,
        views(c.args@) == ssh_args_spec(host@, local_port, remote_port, tab_id@),
        c.env_remove@.len() == 0,
        c.stdin_piped,
{
    let w = tab_home_word(tab_id);
    let mut script = String::from_str("mkdir -p ");
    push_str(&mut script, w.as_str());
    push_str(
        &mut script,
        "; trap \"kill -TERM 0\" SIGTERM SIGHUP SIGINT; ~/.local/bin/code-server --bind-addr ",
    );
    let raddr = loopback(remote_port);
    push_str(&mut script, raddr.as_str());
    push_str(&mut script, " --auth none --user-data-dir ");
    push_str(&mut script, w.as_str());
    push_str(&mut script, " & CSPID=$!; wait $CSPID");
    let quoted = shell_quote(script.as_str());
    let mut inner = String::from_str(
        "exec env -u VSCODE_IPC_HOOK_CLI -u VSCODE_IPC_HOOK -u VSCODE_PID -u VSCODE_CWD bash -c ",
    );
    push_str(&mut inner, quoted.as_str());
    let mut forward = loopback(local_port);
    push_str(&mut forward, ":");
    push_str(&mut forward, raddr.as_str());
    let mut args: Vec<String> = Vec::new();
    args.push(String::from_str("-L"));
    args.push(forward);
    args.push(String::from_str("-tt"));
    args.push(String::from_str("-o"));
    args.push(String::from_str("ServerAliveInterval=30"));
    args.push(String::from_str("-o"));
    args.push(String::from_str("ServerAliveCountMax=3"));
    args.push(String::from_str("-o"));
    args.push(String::from_str("StrictHostKeyChecking=accept-new"));
    args.push(String::from_str(host));
    args.push(inner);
    assert(views(args@) =~= ssh_args_spec(host@, local_port, remote_port, tab_id@));
    CommandSpec {
        program: String::from_str("ssh"),
        args,
        env_remove: Vec::new(),
        stdin_piped: true,
    }
}

/// The command that starts the backend of tab `tab_id` over `transport`,
/// reached locally on `local_port`. A local backend runs `code_server_bin`
/// with `user_data_dir`; the others use their own remote paths.
pub fn command_for(
    transport: &Transport,
    tab_id: &str,
    local_port: u16,
    code_server_bin: &str,
    user_data_dir: &str,
) -> (c: CommandSpec)
    ensures
        match transport {
            Transport::Local => c.program@ == code_server_bin@ && views(c.args@)
                == local_args_spec(local_port, user_data_dir@) && views(c.env_remove@)
                == ipc_vars_spec() && !c.stdin_piped,
            Transport::Wsl { distro } => c.program@ == "wsl"@ && views(c.args@) == seq![
                "-d"@,
                distro@,
                "bash"@,
                "-c"@,
                wsl_script_spec(local_port, tab_id@),
            ] && c.env_remove@.len() == 0 && !c.stdin_piped,
            Transport::Ssh { host, remote_port } => c.program@ == "ssh"@ && views(c.args@)
                == ssh_args_spec(host@, local_port, *remote_port, tab_id@) && c.env_remove@.len()
                == 0 && c.stdin_piped,
        },
{
    match transport {
        Transport::Local => local_command(code_server_bin, local_port, user_data_dir),
        Transport::Wsl { distro } => wsl_command(distro.as_str(), local_port, tab_id),
        Transport::Ssh { host, remote_port } => ssh_command(
            host.as_str(),
            local_port,
            *remote_port,
            tab_id,
        ),
    }
}

/// The user-data directory of a local backend when no configuration
/// directory is known.
pub open spec fn fallback_user_data_spec(tab_id: Seq<char>) -> Seq<char> {
    "./vstabs-backends/"@ + tab_id
}

/// A path component that joins plainly on every platform: not empty, not
/// `.` or `..`, and without `/`, `\\` or `:` (so neither a root nor a
/// Windows prefix).
pub open spec fn plain_path_part(s: Seq<char>) -> bool {
    &&& s.len() > 0
    &&& !s.contains('/')
    &&& !s.contains('\\')
    &&& !s.contains(':')
    &&& s != seq!['.']
    &&& s != seq!['.', '.']
}

/// A Windows verbatim path (`\\?\...`), which `PathBuf::push` normalizes.
pub open spec fn verbatim_path(s: Seq<char>) -> bool {
    s.len() >= 3 && s[0] == '\\' && s[1] == '\\' && s[2] == '?'
}

/// Nothing, or one path separator (`/`, or `\\` on Windows).
pub open spec fn separator_or_nothing(s: Seq<char>) -> bool {
    s.len() == 0 || (s.len() == 1 && (s[0] == '/' || s[0] == '\\'))
}

/// `r` is `base` followed by at most one separator and then `part`.
pub open spec fn joined_path(base: Seq<char>, part: Seq<char>, r: Seq<char>) -> bool {
    exists|sep: Seq<char>| separator_or_nothing(sep) && r == base + sep + part
}

/// `base` joined with `part` as a file-system path.
///
/// Trusted: calls `Path::join` and converts the result with
/// `to_string_lossy`, which loses nothing on a path made from a `&str`. std
/// documents joining as extending `base` with `part`, adding the platform's
/// separator (`/`, or `\\` on Windows) between them, except that a rooted or
/// prefixed `part` replaces `base` and that a verbatim `base` is
/// normalized. For a plain `part` and a `base` that is not verbatim, the
/// result is `base`, at most one separator, then `part`; which separator,
/// and whether there is one, depends on the platform and is left unsaid.
#[verifier::external_body]
fn join_path(base: &str, part: &str) -> (r: String)
    ensures
        plain_path_part(part@) && !verbatim_path(base@) ==> joined_path(base@, part@, r@),
{
    std::path::Path::new(base).join(part).to_string_lossy().into_owned()
}

/// The user-data directory of a local backend under the configuration
/// directory `base`: `base`, `vstabs`, `backends` and the tab id, each pair
/// joined by at most one separator.
pub open spec fn config_user_data_spec(base: Seq<char>, tab_id: Seq<char>, r: Seq<char>) -> bool {
    exists|s1: Seq<char>, s2: Seq<char>, s3: Seq<char>|
        separator_or_nothing(s1) && separator_or_nothing(s2) && separator_or_nothing(s3) && r
            == base + s1 + "vstabs"@ + s2 + "backends"@ + s3 + tab_id
}

proof fn lemma_join_keeps_not_verbatim(base: Seq<char>, sep: Seq<char>, part: Seq<char>)
    requires
        !verbatim_path(base),
        separator_or_nothing(sep),
        part.len() > 0,
        part[0] != '\\' && part[0] != '?',
    ensures
        !verbatim_path(base + sep + part),
{
    let r = base + sep + part;
    if verbatim_path(r) {
        if base.len() >= 3 {
            assert(r[0] == base[0] && r[1] == base[1] && r[2] == base[2]);
        } else if base.len() == 2 {
            assert(r[0] == base[0] && r[1] == base[1]);
            if sep.len() == 1 {
                assert(r[2] == sep[0]);
            } else {
                assert(r[2] == part[0]);
            }
        } else if base.len() == 1 {
            assert(r[0] == base[0]);
            if sep.len() == 1 {
                assert(r[1] == sep[0]);
                assert(r[2] == part[0]);
            } else {
                assert(r[1] == part[0]);
            }
        } else {
            if sep.len() == 1 {
                assert(r[0] == sep[0]);
                assert(r[1] == part[0]);
            } else {
                assert(r[0] == part[0]);
            }
        }
    }
}

/// The user-data directory of a local backend: `{config}/vstabs/backends/{tab}`
/// under the user's configuration directory, or `./vstabs-backends/{tab}`
/// when there is none. Under a configuration directory that is not a
/// verbatim path, and for a plain tab id, the result is the directory, then
/// `vstabs`, `backends` and the id, so it ends with the id.
pub fn local_user_data_dir(config_dir: Option<&str>, tab_id: &str) -> (r: String)
    ensures
        config_dir is None ==> r@ == fallback_user_data_spec(tab_id@),
        match config_dir {
            Some(b) => !verbatim_path(b@) && plain_path_part(tab_id@) ==> config_user_data_spec(
                b@,
                tab_id@,
                r@,
            ) && tab_id@.is_suffix_of(r@),
            None => true,
        },
{
    match config_dir {
        Some(base) => {
            let a = join_path(base, "vstabs");
            let b = join_path(a.as_str(), "backends");
            let r = join_path(b.as_str(), tab_id);
            proof {
                reveal_strlit("vstabs");
                reveal_strlit("backends");
                let v = "vstabs"@;
                let k = "backends"@;
                assert(plain_path_part(v)) by {
                    assert forall|i: int| 0 <= i < v.len() implies v[i] != '/' && v[i] != '\\'
                        && v[i] != ':' by {}
                    assert(v.len() != 1 && v.len() != 2);
                }
                assert(plain_path_part(k)) by {
                    assert forall|i: int| 0 <= i < k.len() implies k[i] != '/' && k[i] != '\\'
                        && k[i] != ':' by {}
                    assert(k.len() != 1 && k.len() != 2);
                }
                if !verbatim_path(base@) && plain_path_part(tab_id@) {
                    let s1 = choose|sep: Seq<char>|
                        separator_or_nothing(sep) && a@ == base@ + sep + v;
                    lemma_join_keeps_not_verbatim(base@, s1, v);
                    let s2 = choose|sep: Seq<char>|
                        separator_or_nothing(sep) && b@ == a@ + sep + k;
                    lemma_join_keeps_not_verbatim(a@, s2, k);
                    let s3 = choose|sep: Seq<char>|
                        separator_or_nothing(sep) && r@ == b@ + sep + tab_id@;
                    assert(r@ =~= base@ + s1 + v + s2 + k + s3 + tab_id@);
                    assert(config_user_data_spec(base@, tab_id@, r@));
                    assert(r@.subrange(r@.len() - tab_id@.len(), r@.len() as int) =~= tab_id@);
                }
            }
            r
        },
        None => {
            let mut r = String::from_str("./vstabs-backends/");
            push_str(&mut r, tab_id);
            r
        },
    }
}

/// The view of an optional string.
pub open spec fn opt_view(o: Option<&str>) -> Option<Seq<char>> {
    match o {
        Some(s) => Some(s@),
        None => None,
    }
}

/// The code-server program to run: what `which code-server` printed,
/// trimmed, when it succeeded with a non-blank answer; else
/// `~/.local/bin/code-server` when that file exists; else `code-server`,
/// left to the search path.
pub open spec fn code_server_choice(which_out: Option<Seq<char>>, home_bin: Option<Seq<char>>) -> Seq<
    char,
> {
    match which_out {
        Some(o) if crate::text::trim_spec(o).len() > 0 => crate::text::trim_spec(o),
        _ => match home_bin {
            Some(p) => p,
            None => "code-server"@,
        },
    }
}

/// What `which` printed decides the program whenever it holds a character
/// that is not whitespace: the program is then that output with only its
/// leading and trailing whitespace removed, so inner spaces stay and the
/// result neither starts nor ends with whitespace. An output of whitespace
/// only, or none, leaves the choice to `home_bin`, then `code-server`.
pub proof fn law_code_server_from_which(o: Seq<char>, home: Option<Seq<char>>)
    ensures
        (exists|k: int| 0 <= k < o.len() && !crate::text::is_ws(o[k])) ==> ({
            let r = code_server_choice(Some(o), home);
            &&& r.len() > 0
            &&& !crate::text::is_ws(r[0])
            &&& !crate::text::is_ws(r.last())
            &&& exists|a: int, b: int|
                0 <= a <= b <= o.len() && r == o.subrange(a, b) && (forall|j: int|
                    0 <= j < a ==> crate::text::is_ws(#[trigger] o[j])) && (forall|j: int|
                    b <= j < o.len() ==> crate::text::is_ws(#[trigger] o[j]))
        }),
        (forall|k: int| 0 <= k < o.len() ==> crate::text::is_ws(#[trigger] o[k])) ==> code_server_choice(
            Some(o),
            home,
        ) == match home {
            Some(p) => p,
            None => "code-server"@,
        },
        code_server_choice(None, home) == match home {
            Some(p) => p,
            None => "code-server"@,
        },
{
    let (a, b) = crate::text::lemma_trim_split(o);
    let t = crate::text::trim_spec(o);
    if exists|k: int| 0 <= k < o.len() && !crate::text::is_ws(o[k]) {
        assert(a < b);
        assert(t.len() > 0);
        assert(t[0] == o[a]);
        assert(t.last() == o[b - 1]);
    }
    if forall|k: int| 0 <= k < o.len() ==> crate::text::is_ws(#[trigger] o[k]) {
        if a < b {
            assert(crate::text::is_ws(o[a]));
        }
        assert(t.len() == 0);
    }
}

/// Picks the code-server program. `which_out` is the output of a
/// successful `which code-server`, `home_bin` the path of
/// `~/.local/bin/code-server` when that file exists.
pub fn pick_code_server(which_out: Option<&str>, home_bin: Option<&str>) -> (r: String)
    ensures
        r@ == code_server_choice(opt_view(which_out), opt_view(home_bin)),
{
    if let Some(out) = which_out {
        let v = crate::text::chars_of(out);
        let (a, b) = crate::text::trim_range(&v, 0, v.len());
        assert(v@.subrange(0, v@.len() as int) =~= v@);
        if a < b {
            return crate::text::string_of_range(&v, a, b);
        }
    }
    match home_bin {
        Some(p) => String::from_str(p),
        None => String::from_str("code-server"),
    }
}

// ---- waiting for a backend -------------------------------------------------

/// How long a spawned backend is given to accept connections.
pub const READY_TIMEOUT_MS: u64 = 20000;

/// How long one connection attempt may take.
pub const PROBE_TIMEOUT_MS: u64 = 300;

/// The pause between failed connection attempts.
pub const RETRY_PAUSE_MS: u64 = 200;

/// What the waiting loop does next.
#[derive(Debug, Clone, Copy, PartialEq, Eq)]
pub enum WaitAction {
    /// Try to connect to the port, for at most `PROBE_TIMEOUT_MS`.
    Probe,
    /// Pause for `RETRY_PAUSE_MS`.
    Pause,
    /// Stop: `true` when the port accepted a connection.
    Finish(bool),
}

/// One step of waiting until `127.0.0.1:{port}` accepts a connection or the
/// time is up. `last_probe` is the outcome of the attempt just made, or
/// `None` at the start of a round. A round starts only while
/// `elapsed_ms < timeout_ms`; a successful attempt ends the wait with `true`,
/// a failed one is followed by a pause.
pub fn wait_step(elapsed_ms: u64, timeout_ms: u64, last_probe: Option<bool>) -> (a: WaitAction)
    ensures
        last_probe == Some(true) ==> a == WaitAction::Finish(true),
        last_probe == Some(false) ==> a == WaitAction::Pause,
        last_probe is None ==> a == (if elapsed_ms < timeout_ms {
            WaitAction::Probe
        } else {
            WaitAction::Finish(false)
        }),
{
    match last_probe {
        Some(true) => WaitAction::Finish(true),
        Some(false) => WaitAction::Pause,
        None => if elapsed_ms < timeout_ms {
            WaitAction::Probe
        } else {
            WaitAction::Finish(false)
        },
    }
}

/// The error reported when a backend's port did not open in time.
pub open spec fn not_ready_message(port: u16) -> Seq<char> {
    "backend port "@ + decimal(port as nat) + " did not become reachable within 20s"@
}

/// The outcome of a spawn once the wait is over: the running status of the
/// project's backend on `port`, or the timeout message.
pub fn spawn_outcome(project_id: String, port: u16, ready: bool) -> (r: Result<
    crate::project::ServerStatus,
    String,
>)
    ensures
        ready ==> (r matches Ok(st) && st.project_id@ == project_id@ && st.port == port
            && st.running),
        !ready ==> (r matches Err(m) && m@ == not_ready_message(port)),
{
    if ready {
        Ok(crate::project::ServerStatus { project_id, port, running: true })
    } else {
        let mut m = String::from_str("backend port ");
        push_decimal(&mut m, port as u32);
        push_str(&mut m, " did not become reachable within 20s");
        Err(m)
    }
}

} // verus!
