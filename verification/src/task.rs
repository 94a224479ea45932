//! One background task per remote project, with its state kept in the
//! `.rdev` directory of the remote project directory.

use vstd::prelude::*;
use crate::config::{Server, login_shell};
use crate::project::Project;
use crate::shell_words::{
    quoted, quoted_command_line, shell_words, law_quoted_command_line, lemma_quote_body_plain, all_inert,
    lex_start, lemma_lex_inert_word, lemma_lex_quoted_word, lemma_lex_quoted, lemma_lex_run_concat,
    lemma_verb_quoted_flag_quoted,
};
use crate::ssh::{shell_path, shell_path_word, remote_path, shell_quote, quote_args};
use crate::text::{concat, ends_with, has_suffix, views, decimal, decimal_string};

verus! {

/// The remote project directory of `proj` on `server`, as a shell word.
pub open spec fn task_dir_word(server: Server, proj: Project) -> Seq<char> {
    shell_path_word(remote_path(server.root@, proj.name@, Seq::empty()))
}

/// The remote project directory.
fn remote_dir(server: &Server, proj: &Project) -> (r: String)
    ensures
        r@ == task_dir_word(*server, *proj),
{
    proof {
        reveal_strlit("");
        assert(""@ =~= Seq::<char>::empty());
    }
    shell_path(server.root.as_str(), proj.name.as_str(), "")
}

/// What records the task's exit code once it ends; fish has neither `$?`
/// nor `VAR=value`.
pub open spec fn exit_epilogue(shell: Seq<char>) -> Seq<char> {
    if has_suffix(shell, "fish"@) {
        "set code $status; echo $code > .rdev/task.exit"@
    } else {
        "code=$?; echo $code > .rdev/task.exit"@
    }
}

/// The command the task's login shell runs: the quoted arguments (after
/// putting mise's directory on the path when the project uses mise), then
/// the epilogue.
pub open spec fn task_command(args: Seq<Seq<char>>, uses_mise: bool, shell: Seq<char>) -> Seq<char> {
    task_env(uses_mise) + quoted_command_line(args) + "; "@ + exit_epilogue(shell)
}

/// What precedes the task's command: mise's directory put on the path when
/// the project uses mise, else nothing.
pub open spec fn task_env(uses_mise: bool) -> Seq<char> {
    if uses_mise { "export PATH=\"$HOME/.local/bin:$PATH\"; "@ } else { Seq::empty() }
}

/// The command that records the task's command line in the task directory.
pub open spec fn record_command(cmdline: Seq<char>) -> Seq<char> {
    "printf '%s\\n' "@ + quoted(cmdline)
}

/// The command that runs the task in the login shell, detached.
pub open spec fn launch_command(shell: Seq<char>, inner: Seq<char>) -> Seq<char> {
    "nohup "@ + quoted(shell) + " -lc "@ + quoted(inner)
}

/// The remote script that starts a task, unless one is still running: it
/// records the command line, runs it detached with its output in the log,
/// and records its pid.
pub open spec fn start_script(dir: Seq<char>, cmdline: Seq<char>, shell: Seq<char>, inner: Seq<char>) -> Seq<char> {
    "cd "@ + dir
        + " || exit 1\nmkdir -p .rdev\nif [ -f .rdev/task.pid ] && kill -0 \"$(cat .rdev/task.pid)\" 2>/dev/null; then\necho \"task already running (pid $(cat .rdev/task.pid))\"\nexit 2\nfi\nrm -f .rdev/task.exit\n"@
        + record_command(cmdline) + " > .rdev/task.cmd\n"@ + launch_command(shell, inner)
        + " > .rdev/task.log 2>&1 < /dev/null &\necho $! > .rdev/task.pid\necho \"started (pid $(cat .rdev/task.pid)), log: .rdev/task.log\"\n"@
}

/// The remote script that starts `args` as the project's background task.
pub fn start(server: &Server, proj: &Project, args: &Vec<String>, uses_mise: bool) -> (r: String)
    ensures
        r@ == start_script(
            task_dir_word(*server, *proj),
            quoted_command_line(views(args@)),
            login_shell(*server),
            task_command(views(args@), uses_mise, login_shell(*server)),
        ),
{
    let dir = remote_dir(server, proj);
    let cmdline = quote_args(args);
    let base = if uses_mise {
        concat("export PATH=\"$HOME/.local/bin:$PATH\"; ", cmdline.as_str())
    } else {
        cmdline.clone()
    };
    proof {
        assert(base@ =~= task_env(uses_mise) + cmdline@);
    }
    let epilogue = if ends_with(server.shell(), "fish") {
        "set code $status; echo $code > .rdev/task.exit"
    } else {
        "code=$?; echo $code > .rdev/task.exit"
    };
    let mut inner = concat(base.as_str(), "; ");
    inner.append(epilogue);
    let sh = shell_quote(server.shell());
    let mut script = concat("cd ", dir.as_str());
    script.append(" || exit 1\nmkdir -p .rdev\nif [ -f .rdev/task.pid ] && kill -0 \"$(cat .rdev/task.pid)\" 2>/dev/null; then\necho \"task already running (pid $(cat .rdev/task.pid))\"\nexit 2\nfi\nrm -f .rdev/task.exit\n");
    script.append("printf '%s\\n' ");
    script.append(shell_quote(cmdline.as_str()).as_str());
    script.append(" > .rdev/task.cmd\n");
    script.append("nohup ");
    script.append(sh.as_str());
    script.append(" -lc ");
    script.append(shell_quote(inner.as_str()).as_str());
    script.append(" > .rdev/task.log 2>&1 < /dev/null &\necho $! > .rdev/task.pid\necho \"started (pid $(cat .rdev/task.pid)), log: .rdev/task.log\"\n");
    script
}

/// The epilogue follows the login shell: for any path ending in `fish` the
/// task's command ends with the fish form, which reads `$status`; for any
/// other shell it ends with the POSIX form, which reads `$?`. What comes
/// before is the same either way.
pub proof fn law_task_epilogue_by_shell(args: Seq<Seq<char>>, uses_mise: bool, dir: Seq<char>, shell: Seq<char>)
    ensures
        task_command(args, uses_mise, dir + "fish"@)
            == task_env(uses_mise) + quoted_command_line(args) + "; set code $status; echo $code > .rdev/task.exit"@,
        !(shell.len() >= 4 && shell.subrange(shell.len() - 4, shell.len() as int) == seq!['f', 'i', 's', 'h'])
            ==> task_command(args, uses_mise, shell)
                == task_env(uses_mise) + quoted_command_line(args) + "; code=$?; echo $code > .rdev/task.exit"@,
{
    reveal_strlit("fish");
    reveal_strlit("; ");
    reveal_strlit("set code $status; echo $code > .rdev/task.exit");
    reveal_strlit("code=$?; echo $code > .rdev/task.exit");
    reveal_strlit("; set code $status; echo $code > .rdev/task.exit");
    reveal_strlit("; code=$?; echo $code > .rdev/task.exit");
    let f = dir + "fish"@;
    assert("fish"@ =~= seq!['f', 'i', 's', 'h']);
    assert(f.subrange(f.len() - 4, f.len() as int) =~= "fish"@);
    assert("; "@ + "set code $status; echo $code > .rdev/task.exit"@ =~= "; set code $status; echo $code > .rdev/task.exit"@);
    assert("; "@ + "code=$?; echo $code > .rdev/task.exit"@ =~= "; code=$?; echo $code > .rdev/task.exit"@);
    let base = task_env(uses_mise) + quoted_command_line(args);
    assert(base + "; "@ + "set code $status; echo $code > .rdev/task.exit"@
        =~= base + "; set code $status; echo $code > .rdev/task.exit"@);
    assert(base + "; "@ + "code=$?; echo $code > .rdev/task.exit"@
        =~= base + "; code=$?; echo $code > .rdev/task.exit"@);
}

/// The task's arguments, its recorded command line and its launch reach
/// the remote side intact: the command part of the task is exactly the
/// arguments, `printf` gets the format and the command line as its two
/// arguments, and `nohup` gets the shell, `-lc` and the task's command.
pub proof fn law_task_words(args: Seq<Seq<char>>, uses_mise: bool, shell: Seq<char>)
    ensures
        shell_words(quoted_command_line(args)) == Some(args),
        shell_words(record_command(quoted_command_line(args)))
            == Some(seq!["printf"@, seq!['%', 's', '\\', 'n'], quoted_command_line(args)]),
        shell_words(launch_command(shell, task_command(args, uses_mise, shell)))
            == Some(seq!["nohup"@, shell, "-lc"@, task_command(args, uses_mise, shell)]),
{
    law_quoted_command_line(args);
    let c = quoted_command_line(args);
    let fmt = seq!['%', 's', '\\', 'n'];
    let verb = seq!['p', 'r', 'i', 'n', 't', 'f'];
    reveal_strlit("printf '%s\\n' ");
    reveal_strlit("printf");
    assert("printf '%s\\n' "@.len() == 14);
    assert("printf"@ =~= verb);
    lemma_quote_body_plain(fmt);
    assert("printf '%s\\n' "@ =~= verb + seq![' '] + quoted(fmt) + seq![' ']);
    assert(all_inert(verb));
    let e = Seq::<Seq<char>>::empty();
    let s0 = lex_start();
    lemma_lex_inert_word(verb, e);
    lemma_lex_quoted_word(fmt, e.push(verb));
    lemma_lex_quoted(c, e.push(verb).push(fmt), None);
    lemma_lex_run_concat(verb + seq![' '], quoted(fmt) + seq![' '], s0);
    lemma_lex_run_concat(verb + seq![' '] + (quoted(fmt) + seq![' ']), quoted(c), s0);
    assert(record_command(c) =~= verb + seq![' '] + (quoted(fmt) + seq![' ']) + quoted(c));
    assert(Seq::<char>::empty() + c =~= c);
    assert(e.push(verb).push(fmt).push(c) =~= seq!["printf"@, fmt, c]);

    let inner = task_command(args, uses_mise, shell);
    let nv = seq!['n', 'o', 'h', 'u', 'p'];
    let flag = seq!['-', 'l', 'c'];
    reveal_strlit("nohup ");
    reveal_strlit(" -lc ");
    reveal_strlit("nohup");
    reveal_strlit("-lc");
    assert("nohup "@.len() == 6);
    assert(" -lc "@.len() == 5);
    assert("nohup "@ =~= nv + seq![' ']);
    assert(" -lc "@ =~= seq![' '] + flag + seq![' ']);
    assert("nohup"@ =~= nv);
    assert("-lc"@ =~= flag);
    assert(all_inert(nv) && all_inert(flag));
    assert(launch_command(shell, inner) =~= nv + seq![' '] + quoted(shell) + seq![' '] + flag + seq![' '] + quoted(inner));
    lemma_verb_quoted_flag_quoted(nv, shell, flag, inner);
}

/// The remote script that reports the latest task and exits with its code
/// when it is done, 2 while it runs, 3 when there is none, and 1 when it
/// ended without an exit record.
pub open spec fn status_script(dir: Seq<char>) -> Seq<char> {
    "cd "@ + dir
        + " || exit 1\nif [ ! -f .rdev/task.pid ]; then\necho \"no task\"\nexit 3\nfi\npid=$(cat .rdev/task.pid)\ncmd=$(cat .rdev/task.cmd 2>/dev/null)\nif [ -f .rdev/task.exit ]; then\ncode=$(cat .rdev/task.exit)\necho \"done (exit $code): $cmd\"\nexit \"$code\"\nelif kill -0 \"$pid\" 2>/dev/null; then\necho \"running (pid $pid): $cmd\"\nexit 2\nelse\necho \"finished without exit record (pid $pid gone): $cmd\"\nexit 1\nfi\n"@
}

/// The remote script that reports the project's latest task.
pub fn status(server: &Server, proj: &Project) -> (r: String)
    ensures
        r@ == status_script(task_dir_word(*server, *proj)),
{
    let dir = remote_dir(server, proj);
    let mut script = concat("cd ", dir.as_str());
    script.append(" || exit 1\nif [ ! -f .rdev/task.pid ]; then\necho \"no task\"\nexit 3\nfi\npid=$(cat .rdev/task.pid)\ncmd=$(cat .rdev/task.cmd 2>/dev/null)\nif [ -f .rdev/task.exit ]; then\ncode=$(cat .rdev/task.exit)\necho \"done (exit $code): $cmd\"\nexit \"$code\"\nelif kill -0 \"$pid\" 2>/dev/null; then\necho \"running (pid $pid): $cmd\"\nexit 2\nelse\necho \"finished without exit record (pid $pid gone): $cmd\"\nexit 1\nfi\n");
    script
}

/// The remote script that shows the last `lines` lines of the task log,
/// following it when asked.
pub open spec fn logs_script(dir: Seq<char>, lines: nat, follow: bool) -> Seq<char> {
    "cd "@ + dir + " || exit 1\nif [ ! -f .rdev/task.log ]; then\necho \"no task log\"\nexit 1\nfi\ntail -n "@
        + decimal(lines) + (if follow { " -f"@ } else { ""@ }) + " .rdev/task.log\n"@
}

/// The remote script that shows the task log.
pub fn logs(server: &Server, proj: &Project, lines: u32, follow: bool) -> (r: String)
    ensures
        r@ == logs_script(task_dir_word(*server, *proj), lines as nat, follow),
{
    let dir = remote_dir(server, proj);
    let f = if follow { " -f" } else { "" };
    let mut script = concat("cd ", dir.as_str());
    script.append(" || exit 1\nif [ ! -f .rdev/task.log ]; then\necho \"no task log\"\nexit 1\nfi\ntail -n ");
    script.append(decimal_string(lines).as_str());
    script.append(f);
    script.append(" .rdev/task.log\n");
    script
}

} // verus!
