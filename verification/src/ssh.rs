//! What is sent to the remote side over ssh: quoting, the remote project
//! path, and the remote command lines.

use vstd::prelude::*;
use crate::config::{Server, login_shell};
use crate::paths::{path_join, join_path};
use crate::project::Project;
use crate::shell_words::{
    quote_body, quote_piece, quoted, quote_all, quoted_command_line, lemma_quote_body_plain,
    lemma_quote_body_concat, lemma_lex_quoted, lex_run, lex_start, shell_words, LexState,
    LexMode, lemma_lex_run_concat, all_inert, lemma_lex_inert_word, lemma_lex_command_line_words,
    lemma_verb_quoted_flag_quoted,
};
use crate::text::{trim, trim_spaces, trim_end_char, trim_end_matches, has_prefix, strip_prefix, concat, join, views, lemma_views_push};

verus! {

/// Quotes `s` as one single-quoted shell word.
pub fn shell_quote(s: &str) -> (r: String)
    ensures
        r@ == quoted(s@),
{
    let len = s.unicode_len();
    let mut r = String::from_str("'");
    proof {
        reveal_strlit("'");
        reveal_strlit("'\\''");
    }
    let mut start: usize = 0;
    let mut i: usize = 0;
    for c in it: s.chars()
        invariant
            it.seq() == s@,
            len == s@.len(),
            i == it.index(),
            start <= i <= len,
            r@ == seq!['\''] + quote_body(s@.subrange(0, start as int)),
            forall|k: int| start <= k < i ==> s@[k] != '\'',
    {
        assert(c == s@[i as int]);
        if c == '\'' {
            let run = s.substring_char(start, i);
            let ghost r0 = r@;
            r.append(run);
            r.append("'\\''");
            proof {
                reveal_strlit("'\\''");
                assert("'\\''"@.len() == 4);
                assert("'\\''"@[1] == '\\');
                assert("'\\''"@ =~= quote_piece('\''));
                assert(r@ == r0 + run@ + quote_piece('\''));
                let pre = s@.subrange(0, start as int);
                lemma_quote_body_plain(run@);
                lemma_quote_body_concat(pre, run@);
                assert(pre + run@ =~= s@.subrange(0, i as int));
                assert(s@.subrange(0, i + 1).drop_last() =~= s@.subrange(0, i as int));
                assert(quote_body(s@.subrange(0, i + 1)) == quote_body(s@.subrange(0, i as int))
                    + quote_piece('\''));
                assert(r@ =~= seq!['\''] + quote_body(s@.subrange(0, i + 1)));
            }
            start = i + 1;
        }
        i = i + 1;
    }
    let run = s.substring_char(start, len);
    r.append(run);
    r.append("'");
    proof {
        let pre = s@.subrange(0, start as int);
        lemma_quote_body_plain(run@);
        lemma_quote_body_concat(pre, run@);
        assert(pre + run@ =~= s@);
        assert(r@ =~= quoted(s@));
    }
    r
}

/// The remote project directory: `root` without trailing slashes, then the
/// project name, then the relative directory when there is one.
pub open spec fn remote_path(root: Seq<char>, name: Seq<char>, rel: Seq<char>) -> Seq<char> {
    let base = trim_end_char(root, '/') + seq!['/'] + name;
    if rel.len() > 0 {
        base + seq!['/'] + rel
    } else {
        base
    }
}

/// A trailing slash on the workspace root changes neither whether it is
/// accepted nor the remote project directory.
pub proof fn law_root_trailing_slash(root: Seq<char>, name: Seq<char>, rel: Seq<char>)
    ensures
        crate::config::root_is_valid(root.push('/')) == crate::config::root_is_valid(root),
        remote_path(root.push('/'), name, rel) == remote_path(root, name, rel),
{
    crate::text::lemma_trim_end_char_push(root, '/');
}

/// A path as one shell word; a leading `~/` stays unquoted so that the
/// remote shell expands it to the home directory.
pub open spec fn shell_path_word(p: Seq<char>) -> Seq<char> {
    if has_prefix(p, seq!['~', '/']) {
        seq!['~', '/'] + quoted(p.skip(2))
    } else {
        quoted(p)
    }
}

/// The remote project directory as one shell word.
pub fn shell_path(root: &str, name: &str, rel: &str) -> (r: String)
    ensures
        r@ == shell_path_word(remote_path(root@, name@, rel@)),
{
    proof {
        reveal_strlit("/");
        reveal_strlit("~/");
        assert("/"@ =~= seq!['/']);
        assert("~/"@.len() == 2);
        assert("~/"@ =~= seq!['~', '/']);
    }
    let mut p = concat(trim_end_matches(root, '/'), "/");
    p.append(name);
    if !rel.is_empty() {
        p.append("/");
        p.append(rel);
    }
    assert(p@ =~= remote_path(root@, name@, rel@));
    match strip_prefix(p.as_str(), "~/") {
        Some(rest) => {
            let q = shell_quote(rest);
            concat("~/", q.as_str())
        },
        None => shell_quote(p.as_str()),
    }
}

/// The remote shell reads the path word as exactly the path (a leading `~/`
/// then undergoes tilde expansion).
pub proof fn law_shell_path_is_one_word(p: Seq<char>)
    ensures
        shell_words(shell_path_word(p)) == Some(seq![p]),
{
    if has_prefix(p, seq!['~', '/']) {
        let tp = seq!['~', '/'];
        let st1 = lex_run(tp, lex_start());
        assert(tp.drop_last() =~= seq!['~']);
        assert(tp.drop_last().drop_last() =~= Seq::<char>::empty());
        reveal_with_fuel(lex_run, 3);
        assert(st1 == (LexState { words: Seq::empty(), cur: Some(seq!['~', '/']), mode: LexMode::Plain })) by {
            assert(seq![] .push('~') =~= seq!['~']);
            assert(seq!['~'].push('/') =~= seq!['~', '/']);
        }
        lemma_lex_run_concat(tp, quoted(p.skip(2)), lex_start());
        lemma_lex_quoted(p.skip(2), Seq::empty(), Some(tp));
        assert(tp + p.skip(2) =~= p);
        assert(Seq::<Seq<char>>::empty().push(p) =~= seq![p]);
    } else {
        crate::shell_words::law_quoted_is_one_word(p);
    }
}

/// The argument list that runs `remote` on `host` over ssh: the
/// connection-sharing options, `-t` when a terminal is wanted, the host and
/// the remote command.
pub open spec fn ssh_arg_list(control: Seq<Seq<char>>, host: Seq<char>, tty: bool, remote: Seq<char>) -> Seq<Seq<char>> {
    control + (if tty { seq!["-t"@] } else { Seq::empty() }) + seq![host] + seq![remote]
}

/// The ssh arguments that run `remote` on `host`.
pub fn ssh_args(control: &Vec<String>, host: &str, tty: bool, remote: &str) -> (r: Vec<String>)
    ensures
        views(r@) == ssh_arg_list(views(control@), host@, tty, remote@),
{
    let mut r: Vec<String> = Vec::new();
    let mut i: usize = 0;
    while i < control.len()
        invariant
            i <= control@.len(),
            views(r@) == views(control@).subrange(0, i as int),
        decreases control.len() - i,
    {
        let ghost r0 = r@;
        r.push(control[i].clone());
        proof {
            lemma_views_push(r0, control@[i as int]);
            assert(views(r@) =~= views(control@).subrange(0, i + 1));
        }
        i = i + 1;
    }
    if tty {
        let ghost r2 = r@;
        r.push(String::from_str("-t"));
        proof { lemma_views_push(r2, r@.last()); }
    }
    let ghost r1 = r@;
    r.push(String::from_str(host));
    proof { lemma_views_push(r1, r@.last()); }
    let ghost r3 = r@;
    r.push(String::from_str(remote));
    proof {
        lemma_views_push(r3, r@.last());
        assert(views(control@).subrange(0, control@.len() as int) =~= views(control@));
        assert(views(r@) =~= ssh_arg_list(views(control@), host@, tty, remote@));
    }
    r
}

/// The directory that holds the shared ssh connections, inside the user's
/// cache directory.
pub fn control_dir(cache_dir: &str) -> (r: String)
    ensures
        r@ == path_join(cache_dir@, "rdev"@),
{
    join_path(cache_dir, "rdev")
}

/// The ssh options that share one connection per host, kept open for ten
/// minutes, with sockets in `dir`.
pub open spec fn control_arg_list(dir: Seq<char>) -> Seq<Seq<char>> {
    seq!["-o"@, "ControlMaster=auto"@, "-o"@, "ControlPath="@ + dir + "/cm-%C"@, "-o"@, "ControlPersist=10m"@]
}

/// The connection-sharing ssh options.
pub fn control_args(dir: &str) -> (r: Vec<String>)
    ensures
        views(r@) == control_arg_list(dir@),
{
    let mut path = concat("ControlPath=", dir);
    path.append("/cm-%C");
    let mut r: Vec<String> = Vec::new();
    r.push(String::from_str("-o"));
    r.push(String::from_str("ControlMaster=auto"));
    r.push(String::from_str("-o"));
    r.push(path);
    r.push(String::from_str("-o"));
    r.push(String::from_str("ControlPersist=10m"));
    assert(views(r@) =~= control_arg_list(dir@));
    r
}

/// The command run in the login shell: the quoted arguments, wrapped for
/// mise when the project uses it.
pub open spec fn inner_command(args: Seq<Seq<char>>, uses_mise: bool) -> Seq<char> {
    if uses_mise {
        "export PATH=\"$HOME/.local/bin:$PATH\"; "@ + mise_command(args)
    } else {
        quoted_command_line(args)
    }
}

/// The quoted arguments run by mise with the project's tools.
pub open spec fn mise_command(args: Seq<Seq<char>>) -> Seq<char> {
    "exec mise x -- "@ + quoted_command_line(args)
}

/// With mise, the command after the path setup hands mise exactly the
/// arguments given, in order, whatever characters they hold.
pub proof fn law_mise_receives_args(args: Seq<Seq<char>>)
    ensures
        shell_words(mise_command(args)) == Some(seq!["exec"@, "mise"@, "x"@, "--"@] + args),
{
    reveal_strlit("exec mise x -- ");
    reveal_strlit("exec");
    reveal_strlit("mise");
    reveal_strlit("x");
    reveal_strlit("--");
    let w1 = seq!['e', 'x', 'e', 'c'];
    let w2 = seq!['m', 'i', 's', 'e'];
    let w3 = seq!['x'];
    let w4 = seq!['-', '-'];
    assert("exec mise x -- "@.len() == 15);
    assert("exec mise x -- "@ =~= w1 + seq![' '] + (w2 + seq![' ']) + (w3 + seq![' ']) + (w4 + seq![' ']));
    assert("exec"@ =~= w1);
    assert("mise"@ =~= w2);
    assert("x"@ =~= w3);
    assert("--"@ =~= w4);
    let e = Seq::<Seq<char>>::empty();
    let s0 = lex_start();
    assert(all_inert(w1) && all_inert(w2) && all_inert(w3) && all_inert(w4));
    lemma_lex_inert_word(w1, e);
    lemma_lex_inert_word(w2, e.push(w1));
    lemma_lex_inert_word(w3, e.push(w1).push(w2));
    lemma_lex_inert_word(w4, e.push(w1).push(w2).push(w3));
    let p1 = w1 + seq![' '];
    let p2 = w2 + seq![' '];
    let p3 = w3 + seq![' '];
    let p4 = w4 + seq![' '];
    lemma_lex_run_concat(p1, p2, s0);
    lemma_lex_run_concat(p1 + p2, p3, s0);
    lemma_lex_run_concat(p1 + p2 + p3, p4, s0);
    let words = e.push(w1).push(w2).push(w3).push(w4);
    assert(words =~= seq![w1, w2, w3, w4]);
    lemma_lex_run_concat(p1 + p2 + p3 + p4, quoted_command_line(args), s0);
    lemma_lex_command_line_words(args, words);
    assert(mise_command(args) =~= p1 + p2 + p3 + p4 + quoted_command_line(args));
}

/// The remote project directory of `proj` on `server`, as a shell word.
pub open spec fn project_dir(server: Server, proj: Project) -> Seq<char> {
    shell_path_word(remote_path(server.root@, proj.name@, proj.rel_cwd@))
}

/// Without mise, the login shell receives exactly the arguments given,
/// in order, whatever characters they hold.
pub proof fn law_login_shell_receives_args(args: Seq<Seq<char>>)
    ensures
        shell_words(inner_command(args, false)) == Some(args),
{
    crate::shell_words::law_quoted_command_line(args);
}

/// Create and enter the project directory, then go on.
pub open spec fn enter_project(dir: Seq<char>) -> Seq<char> {
    "mkdir -p "@ + dir + " && cd "@ + dir + " && "@
}

/// Replace the shell with the login shell running `inner`.
pub open spec fn run_command(shell: Seq<char>, inner: Seq<char>) -> Seq<char> {
    "exec "@ + quoted(shell) + " -lc "@ + quoted(inner)
}

/// The remote script of a run: create and enter the project directory, then
/// replace the shell with the login shell running the command.
pub open spec fn exec_script(dir: Seq<char>, shell: Seq<char>, inner: Seq<char>) -> Seq<char> {
    enter_project(dir) + run_command(shell, inner)
}

/// The last command of a run hands the login shell exactly `-lc` and the
/// command, whatever characters the shell's path and the command hold.
pub proof fn law_run_command_words(shell: Seq<char>, inner: Seq<char>)
    ensures
        shell_words(run_command(shell, inner)) == Some(seq!["exec"@, shell, "-lc"@, inner]),
{
    reveal_strlit("exec ");
    reveal_strlit(" -lc ");
    reveal_strlit("exec");
    reveal_strlit("-lc");
    let verb = seq!['e', 'x', 'e', 'c'];
    let flag = seq!['-', 'l', 'c'];
    assert("exec "@.len() == 5);
    assert(" -lc "@.len() == 5);
    assert("exec "@ =~= verb + seq![' ']);
    assert(" -lc "@ =~= seq![' '] + flag + seq![' ']);
    assert("exec"@ =~= verb);
    assert("-lc"@ =~= flag);
    assert(all_inert(verb) && all_inert(flag));
    assert(run_command(shell, inner) =~= verb + seq![' '] + quoted(shell) + seq![' '] + flag + seq![' '] + quoted(inner));
    lemma_verb_quoted_flag_quoted(verb, shell, flag, inner);
}

/// The arguments quoted one by one and joined with spaces.
pub fn quote_args(args: &Vec<String>) -> (r: String)
    ensures
        r@ == quoted_command_line(views(args@)),
{
    let mut q: Vec<String> = Vec::new();
    let mut i: usize = 0;
    while i < args.len()
        invariant
            i <= args@.len(),
            views(q@) == quote_all(views(args@).subrange(0, i as int)),
        decreases args.len() - i,
    {
        let ghost q0 = q@;
        q.push(shell_quote(args[i].as_str()));
        proof {
            lemma_views_push(q0, q@.last());
            assert(views(q@) =~= quote_all(views(args@).subrange(0, i + 1)));
        }
        i = i + 1;
    }
    proof {
        assert(views(args@).subrange(0, args@.len() as int) =~= views(args@));
        reveal_strlit(" ");
        assert(" "@ =~= seq![' ']);
    }
    join(&q, " ")
}

/// The remote script that runs `args` in the project directory.
pub fn exec(server: &Server, proj: &Project, args: &Vec<String>, uses_mise: bool) -> (r: String)
    ensures
        r@ == exec_script(project_dir(*server, *proj), login_shell(*server), inner_command(views(args@), uses_mise)),
{
    let dir = shell_path(server.root.as_str(), proj.name.as_str(), proj.rel_cwd.as_str());
    let cmdline = quote_args(args);
    let inner = if uses_mise {
        let mut m = concat("export PATH=\"$HOME/.local/bin:$PATH\"; ", "exec mise x -- ");
        m.append(cmdline.as_str());
        m
    } else {
        cmdline
    };
    let sh = shell_quote(server.shell());
    let qi = shell_quote(inner.as_str());
    let mut script = concat("mkdir -p ", dir.as_str());
    script.append(" && cd ");
    script.append(dir.as_str());
    script.append(" && ");
    script.append("exec ");
    script.append(sh.as_str());
    script.append(" -lc ");
    script.append(qi.as_str());
    proof {
        assert(inner@ == inner_command(views(args@), uses_mise));
        assert(script@ =~= exec_script(dir@, login_shell(*server), inner@));
    }
    script
}

/// The remote script of an interactive login shell in the project directory.
pub open spec fn shell_script(dir: Seq<char>, shell: Seq<char>) -> Seq<char> {
    enter_project(dir) + "exec "@ + quoted(shell) + " -l"@
}

/// The remote script that opens a login shell in the project directory.
pub fn shell(server: &Server, proj: &Project) -> (r: String)
    ensures
        r@ == shell_script(project_dir(*server, *proj), login_shell(*server)),
{
    let dir = shell_path(server.root.as_str(), proj.name.as_str(), proj.rel_cwd.as_str());
    let sh = shell_quote(server.shell());
    let mut script = concat("mkdir -p ", dir.as_str());
    script.append(" && cd ");
    script.append(dir.as_str());
    script.append(" && ");
    script.append("exec ");
    script.append(sh.as_str());
    script.append(" -l");
    script
}

/// The ssh arguments of an interactive shell in the project directory: a
/// terminal is always asked for.
pub fn shell_args(control: &Vec<String>, server: &Server, proj: &Project) -> (r: Vec<String>)
    ensures
        views(r@) == ssh_arg_list(views(control@), server.host@, true, shell_script(project_dir(*server, *proj), login_shell(*server))),
{
    let script = shell(server, proj);
    ssh_args(control, server.host.as_str(), true, script.as_str())
}

/// The ssh arguments of a quick, non-interactive check on `host`: no
/// password prompt, and five seconds to connect.
pub open spec fn check_arg_list(host: Seq<char>, remote: Seq<char>) -> Seq<Seq<char>> {
    seq!["-o"@, "BatchMode=yes"@, "-o"@, "ConnectTimeout=5"@, host, remote]
}

fn check_args(host: &str, remote: &str) -> (r: Vec<String>)
    ensures
        views(r@) == check_arg_list(host@, remote@),
{
    let mut r: Vec<String> = Vec::new();
    r.push(String::from_str("-o"));
    r.push(String::from_str("BatchMode=yes"));
    r.push(String::from_str("-o"));
    r.push(String::from_str("ConnectTimeout=5"));
    r.push(String::from_str(host));
    r.push(String::from_str(remote));
    assert(views(r@) =~= check_arg_list(host@, remote@));
    r
}

/// The ssh arguments that check that `host` is reachable.
pub fn probe(host: &str) -> (r: Vec<String>)
    ensures
        views(r@) == check_arg_list(host@, "true"@),
{
    check_args(host, "true")
}

/// The ssh arguments that check that `cmd` exists on `host`.
pub fn remote_has(host: &str, cmd: &str) -> (r: Vec<String>)
    ensures
        views(r@) == check_arg_list(host@, "command -v "@ + cmd@),
{
    let remote = concat("command -v ", cmd);
    check_args(host, remote.as_str())
}

/// The ssh arguments that print the login shell of `host`.
pub fn detect_shell_args(host: &str) -> (r: Vec<String>)
    ensures
        views(r@) == check_arg_list(host@, "echo $SHELL"@),
{
    check_args(host, "echo $SHELL")
}

/// The login shell reported by `host`: the trimmed output of a successful
/// check, unless it is empty.
pub open spec fn reported_shell(success: bool, stdout: Seq<char>) -> Option<Seq<char>> {
    if success && trim_spaces(stdout).len() > 0 {
        Some(trim_spaces(stdout))
    } else {
        None
    }
}

/// Reads the login shell out of the output of the `detect_shell_args` run.
pub fn detect_shell(success: bool, stdout: &str) -> (r: Option<String>)
    ensures
        match r {
            Some(s) => reported_shell(success, stdout@) == Some(s@),
            None => reported_shell(success, stdout@) is None,
        },
{
    if !success {
        return None;
    }
    let t = trim(stdout);
    if t.is_empty() {
        None
    } else {
        Some(t.to_owned())
    }
}

/// A remote command that has `sh` run `script`, whatever the login shell.
pub open spec fn sh_command_line(script: Seq<char>) -> Seq<char> {
    "sh -c "@ + quoted(script)
}

/// The remote command that runs a POSIX script.
pub fn sh_command(script: &str) -> (r: String)
    ensures
        r@ == sh_command_line(script@),
{
    let q = shell_quote(script);
    concat("sh -c ", q.as_str())
}

/// The remote shell runs `sh` with exactly two arguments, `-c` and the
/// script.
pub proof fn law_sh_command_words(script: Seq<char>)
    ensures
        shell_words(sh_command_line(script)) == Some(seq!["sh"@, "-c"@, script]),
{
    let pre = "sh -c "@;
    reveal_strlit("sh -c ");
    reveal_strlit("sh");
    reveal_strlit("-c");
    assert(pre =~= seq!['s', 'h', ' ', '-', 'c', ' ']);
    assert("sh"@ =~= seq!['s', 'h']);
    assert("-c"@ =~= seq!['-', 'c']);
    let words = seq![seq!['s', 'h'], seq!['-', 'c']];
    assert(lex_run(pre, lex_start()) == (LexState { words, cur: None, mode: LexMode::Plain })) by {
        reveal_with_fuel(lex_run, 7);
        assert(pre.drop_last() =~= seq!['s', 'h', ' ', '-', 'c']);
        assert(pre.drop_last().drop_last() =~= seq!['s', 'h', ' ', '-']);
        assert(pre.drop_last().drop_last().drop_last() =~= seq!['s', 'h', ' ']);
        assert(pre.drop_last().drop_last().drop_last().drop_last() =~= seq!['s', 'h']);
        assert(pre.drop_last().drop_last().drop_last().drop_last().drop_last() =~= seq!['s']);
        assert(pre.drop_last().drop_last().drop_last().drop_last().drop_last().drop_last() =~= Seq::<char>::empty());
        assert(Seq::<char>::empty().push('s') =~= seq!['s']);
        assert(seq!['s'].push('h') =~= seq!['s', 'h']);
        assert(Seq::<char>::empty().push('-') =~= seq!['-']);
        assert(seq!['-'].push('c') =~= seq!['-', 'c']);
        assert(Seq::<Seq<char>>::empty().push(seq!['s', 'h']) =~= seq![seq!['s', 'h']]);
        assert(seq![seq!['s', 'h']].push(seq!['-', 'c']) =~= words);
    }
    lemma_lex_run_concat(pre, quoted(script), lex_start());
    lemma_lex_quoted(script, words, None);
    assert(Seq::<char>::empty() + script =~= script);
    assert(words.push(script) =~= seq!["sh"@, "-c"@, script]);
}

} // verus!
