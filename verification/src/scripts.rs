//! Scripts from `package.json#scripts` and lifecycle hooks.
//!
//! Scripts run through the system shell, `sh -c "<line>"`, in the project
//! directory, with the given directories (such as `node_modules/.bin`)
//! first on `PATH`, as npm and pnpm do. Any non-zero exit status is a
//! failure. Spawning the process is the caller's part: `run_in` says what to
//! spawn, and `script_outcome` what its exit means.
use crate::error::{GurokuError, Result};
use crate::git::{append_strings, args_view};
use crate::text::{concat2, contains_char, push_char, split, split_char};
use vstd::prelude::*;

verus! {

/// Characters that need no quoting in a shell word.
pub open spec fn plain_char(c: char) -> bool {
    ||| ('a' <= c && c <= 'z')
    ||| ('A' <= c && c <= 'Z')
    ||| ('0' <= c && c <= '9')
    ||| c == '_' || c == '-' || c == '.' || c == '/' || c == '=' || c == ':' || c == ',' || c == '@'
}

/// Each character inside single quotes, with `'` written as `'\''`.
pub open spec fn quoted_body(s: Seq<char>) -> Seq<char>
    decreases s.len(),
{
    if s.len() == 0 {
        Seq::empty()
    } else if s.last() == '\'' {
        quoted_body(s.drop_last()) + seq!['\'', '\\', '\'', '\'']
    } else {
        quoted_body(s.drop_last()).push(s.last())
    }
}

/// A word the shell reads back as `s`: `s` itself when it is not empty and
/// every character is plain, else `s` in single quotes (so the empty string
/// is `''`).
pub open spec fn shell_quote_spec(s: Seq<char>) -> Seq<char> {
    if s.len() > 0 && forall|i: int| 0 <= i < s.len() ==> plain_char(#[trigger] s[i]) {
        s
    } else {
        seq!['\''] + quoted_body(s) + seq!['\'']
    }
}

/// No argument vanishes from a script line: every quoted word, the empty
/// argument included, is a non-empty word.
pub proof fn lemma_quote_nonempty(s: Seq<char>)
    ensures
        shell_quote_spec(s).len() > 0,
{
}

fn is_plain(c: char) -> (b: bool)
    ensures
        b == plain_char(c),
{
    ('a' <= c && c <= 'z') || ('A' <= c && c <= 'Z') || ('0' <= c && c <= '9') || c == '_' || c
        == '-' || c == '.' || c == '/' || c == '=' || c == ':' || c == ',' || c == '@'
}

pub fn shell_quote(s: &str) -> (r: String)
    ensures
        r@ == shell_quote_spec(s@),
{
    let n = s.unicode_len();
    let mut all_plain = true;
    let mut i: usize = 0;
    while i < n
        invariant
            n == s@.len(),
            i <= n,
            all_plain == forall|j: int| 0 <= j < i ==> plain_char(#[trigger] s@[j]),
        decreases n - i,
    {
        if !is_plain(s.get_char(i)) {
            all_plain = false;
        }
        i = i + 1;
    }
    if n > 0 && all_plain {
        return s.to_owned();
    }
    let mut out = String::new();
    push_char(&mut out, '\'');
    let mut k: usize = 0;
    while k < n
        invariant
            n == s@.len(),
            k <= n,
            out@ == seq!['\''] + quoted_body(s@.take(k as int)),
        decreases n - k,
    {
        let c = s.get_char(k);
        proof {
            assert(s@.take(k + 1).drop_last() =~= s@.take(k as int));
            assert(s@.take(k + 1).last() == c);
        }
        if c == '\'' {
            push_char(&mut out, '\'');
            push_char(&mut out, '\\');
            push_char(&mut out, '\'');
            push_char(&mut out, '\'');
            assert(out@ =~= seq!['\''] + quoted_body(s@.take(k + 1)));
        } else {
            push_char(&mut out, c);
            assert(out@ =~= seq!['\''] + quoted_body(s@.take(k + 1)));
        }
        k = k + 1;
    }
    push_char(&mut out, '\'');
    assert(s@.take(n as int) =~= s@);
    out
}

/// The script line with extra arguments: each quoted and appended after a
/// space (`guroku run <script> -- <args>`).
pub open spec fn with_args(body: Seq<char>, args: Seq<Seq<char>>) -> Seq<char>
    decreases args.len(),
{
    if args.len() == 0 {
        body
    } else {
        with_args(body, args.drop_last()) + seq![' '] + shell_quote_spec(args.last())
    }
}

pub fn script_line(body: &str, extra_args: &Vec<String>) -> (r: String)
    ensures
        r@ == with_args(body@, args_view(extra_args@)),
{
    let n = extra_args.len();
    let mut full = body.to_owned();
    let mut i: usize = 0;
    while i < n
        invariant
            n == extra_args@.len(),
            i <= n,
            full@ == with_args(body@, args_view(extra_args@.take(i as int))),
        decreases n - i,
    {
        proof {
            assert(args_view(extra_args@.take(i + 1)).drop_last() =~= args_view(
                extra_args@.take(i as int),
            ));
            assert(args_view(extra_args@.take(i + 1)).last() == extra_args@[i as int]@);
        }
        push_char(&mut full, ' ');
        let q = shell_quote(extra_args[i].as_str());
        full = concat2(full.as_str(), q.as_str());
        i = i + 1;
    }
    assert(extra_args@.take(n as int) =~= extra_args@);
    full
}

/// A process to spawn: the program, its arguments, the working directory,
/// and the `PATH` entries to put first.
#[derive(Debug)]
pub struct ShellCommand {
    pub program: String,
    pub args: Vec<String>,
    pub cwd: String,
    pub path_prefix: Vec<String>,
    /// Purely cosmetic: used in log lines and error messages.
    pub script_name: String,
}

/// The command that runs a script body in `cwd`: `sh -c <body>`, with the
/// given directories first on `PATH`.
pub fn run_in(cwd: &str, script_name: &str, body: &str, env_path_extra: &Vec<String>) -> (c: ShellCommand)
    ensures
        c.program@ == "sh"@,
        args_view(c.args@) == seq!["-c"@, body@],
        c.cwd@ == cwd@,
        args_view(c.path_prefix@) == args_view(env_path_extra@),
        c.script_name@ == script_name@,
{
    let mut args: Vec<String> = Vec::new();
    args.push("-c".to_owned());
    args.push(body.to_owned());
    assert(args_view(args@) =~= seq!["-c"@, body@]);
    let mut prefix: Vec<String> = Vec::new();
    append_strings(&mut prefix, env_path_extra);
    assert(args_view(prefix@) =~= args_view(env_path_extra@));
    ShellCommand {
        program: "sh".to_owned(),
        args,
        cwd: cwd.to_owned(),
        path_prefix: prefix,
        script_name: script_name.to_owned(),
    }
}

/// Like `run_in`, with the user's extra arguments quoted and appended to the
/// body.
pub fn run_in_with_args(
    cwd: &str,
    script_name: &str,
    body: &str,
    extra_args: &Vec<String>,
    env_path_extra: &Vec<String>,
) -> (c: ShellCommand)
    ensures
        c.program@ == "sh"@,
        args_view(c.args@) == seq!["-c"@, with_args(body@, args_view(extra_args@))],
        c.cwd@ == cwd@,
        args_view(c.path_prefix@) == args_view(env_path_extra@),
        c.script_name@ == script_name@,
{
    if extra_args.len() == 0 {
        assert(args_view(extra_args@) =~= Seq::<Seq<char>>::empty());
        return run_in(cwd, script_name, body, env_path_extra);
    }
    let full = script_line(body, extra_args);
    run_in(cwd, script_name, full.as_str(), env_path_extra)
}

/// The `PATH` value: the extra directories, then the entries of the current
/// `PATH` (when it is not empty), joined by `:`. None when an entry holds a
/// `:` (it cannot be joined), in which case `PATH` is left as it is.
/// The extra directories, then the entries of the current `PATH` when it is
/// not empty.
pub open spec fn path_entries(extras: Seq<Seq<char>>, existing: Seq<char>) -> Seq<Seq<char>> {
    if existing.len() > 0 {
        extras + split(existing, ':')
    } else {
        extras
    }
}

pub open spec fn path_value(extras: Seq<Seq<char>>, existing: Seq<char>) -> Option<Seq<char>> {
    let entries = path_entries(extras, existing);
    if exists|i: int| 0 <= i < entries.len() && #[trigger] entries[i].contains(':') {
        None
    } else {
        Some(crate::scripts::colon_joined(entries))
    }
}

pub open spec fn colon_joined(args: Seq<Seq<char>>) -> Seq<char>
    decreases args.len(),
{
    if args.len() == 0 {
        Seq::empty()
    } else if args.len() == 1 {
        args[0]
    } else {
        colon_joined(args.drop_last()) + seq![':'] + args.last()
    }
}

pub fn search_path(extras: &Vec<String>, existing: &str) -> (r: Option<String>)
    ensures
        match r {
            Some(p) => path_value(args_view(extras@), existing@) == Some(p@),
            None => path_value(args_view(extras@), existing@) is None,
        },
{
    let mut entries: Vec<String> = Vec::new();
    append_strings(&mut entries, extras);
    assert(args_view(entries@) =~= args_view(extras@));
    if existing.unicode_len() > 0 {
        let parts = split_char(existing, ':');
        assert(args_view(parts@) =~= split(existing@, ':'));
        append_strings(&mut entries, &parts);
    }
    let ghost es = args_view(entries@);
    assert(es == path_entries(args_view(extras@), existing@));
    let k = entries.len();
    let mut out = String::new();
    let mut t: usize = 0;
    while t < k
        invariant
            k == entries@.len(),
            es == args_view(entries@),
            es == path_entries(args_view(extras@), existing@),
            t <= k,
            forall|q: int| 0 <= q < t ==> !(#[trigger] es[q]).contains(':'),
            out@ == colon_joined(es.take(t as int)),
        decreases k - t,
    {
        if contains_char(entries[t].as_str(), ':') {
            assert(es[t as int].contains(':'));
            return None;
        }
        proof {
            assert(es.take(t + 1).drop_last() =~= es.take(t as int));
            assert(es.take(t + 1).last() == entries@[t as int]@);
        }
        if t > 0 {
            push_char(&mut out, ':');
        }
        out = concat2(out.as_str(), entries[t].as_str());
        proof {
            if t == 0 {
                assert(es.take(1) =~= seq![es[0]]);
            }
        }
        t = t + 1;
    }
    assert(es.take(k as int) =~= es);
    Some(out)
}

/// How a spawned script ended.
#[derive(Debug)]
pub enum ScriptExit {
    /// The process ran; `code` is its exit code, none when killed by a
    /// signal.
    Exited { success: bool, code: Option<i32> },
    /// The process could not be spawned.
    SpawnFailed(String),
}

/// What a script's exit means: success, `ScriptFailed` with the exit code
/// (or -1), or `ScriptSpawnFailed`.
pub fn script_outcome(script_name: &str, exit: ScriptExit) -> (r: Result<()>)
    ensures
        match exit {
            ScriptExit::Exited { success, code } => if success {
                r is Ok
            } else {
                r matches Err(GurokuError::ScriptFailed { script, status }) && script@
                    == script_name@ && status == match code {
                    Some(c) => c,
                    None => -1i32,
                }
            },
            ScriptExit::SpawnFailed(d) => r matches Err(GurokuError::ScriptSpawnFailed { script, detail })
                && script@ == script_name@ && detail@ == d@,
        },
{
    match exit {
        ScriptExit::Exited { success, code } => {
            if success {
                Ok(())
            } else {
                let status = match code {
                    Some(c) => c,
                    None => -1,
                };
                Err(GurokuError::ScriptFailed { script: script_name.to_owned(), status })
            }
        },
        ScriptExit::SpawnFailed(d) => Err(
            GurokuError::ScriptSpawnFailed { script: script_name.to_owned(), detail: d },
        ),
    }
}

} // verus!
