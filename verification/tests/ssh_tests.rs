use rdev::config::Server;
use rdev::project::Project;
use rdev::ssh::{
    control_args, control_dir, detect_shell, detect_shell_args, exec, probe, quote_args, remote_has,
    sh_command, shell, shell_args, shell_path, shell_quote, ssh_args,
};

const EXEC: &str = "mkdir -p ~/'rdev/app' && cd ~/'rdev/app' && exec 'bash' -lc ''\\''go'\\'' '\\''build'\\'' '\\''./...'\\'''";
const EXEC_MISE: &str = "mkdir -p ~/'rdev/app' && cd ~/'rdev/app' && exec '/usr/bin/zsh' -lc 'export PATH=\"$HOME/.local/bin:$PATH\"; exec mise x -- '\\''go'\\'' '\\''build'\\'' '\\''./...'\\'''";
const SHELL: &str = "mkdir -p ~/'rdev/app' && cd ~/'rdev/app' && exec 'bash' -l";

fn server(root: &str, shell: Option<&str>) -> Server {
    Server { host: "dev".to_string(), root: root.to_string(), shell: shell.map(|s| s.to_string()) }
}

fn project(name: &str, rel: &str) -> Project {
    Project { root: "/home/u/app".to_string(), rel_cwd: rel.to_string(), name: name.to_string() }
}

fn strings(v: &[&str]) -> Vec<String> {
    v.iter().map(|s| s.to_string()).collect()
}

#[test]
fn quote_plain_word() {
    assert_eq!(shell_quote("abc"), "'abc'");
}

#[test]
fn quote_empty_word() {
    assert_eq!(shell_quote(""), "''");
}

#[test]
fn quote_single_quotes_are_escaped() {
    assert_eq!(shell_quote("it's"), "'it'\\''s'");
    assert_eq!(shell_quote("''"), "''\\'''\\'''");
}

#[test]
fn quote_leaves_specials_inert() {
    assert_eq!(shell_quote("$(rm -rf /); `x` \"y\" \\ *"), "'$(rm -rf /); `x` \"y\" \\ *'");
}

#[test]
fn quoted_args_joined_with_spaces() {
    assert_eq!(quote_args(&strings(&["a b", "c'd", ""])), "'a b' 'c'\\''d' ''");
    assert_eq!(quote_args(&Vec::new()), "");
}

#[test]
fn shell_path_keeps_tilde_unquoted() {
    assert_eq!(shell_path("~/rdev", "app", ""), "~/'rdev/app'");
}

#[test]
fn shell_path_trims_root_slashes_and_adds_rel() {
    assert_eq!(shell_path("/srv//", "my app", "sub/dir"), "'/srv/my app/sub/dir'");
}

#[test]
fn shell_path_bare_tilde_root() {
    assert_eq!(shell_path("~", "app", ""), "~/'app'");
}

#[test]
fn exec_script_runs_quoted_args_in_login_shell() {
    let args = strings(&["go", "build", "./..."]);
    assert_eq!(exec(&server("~/rdev", None), &project("app", ""), &args, false), EXEC);
}

#[test]
fn exec_script_wraps_for_mise() {
    let args = strings(&["go", "build", "./..."]);
    assert_eq!(exec(&server("~/rdev", Some("/usr/bin/zsh")), &project("app", ""), &args, true), EXEC_MISE);
}

#[test]
fn exec_script_enters_relative_dir() {
    let args = strings(&["ls"]);
    let s = exec(&server("/srv", None), &project("app", "a/b"), &args, false);
    assert!(s.starts_with("mkdir -p '/srv/app/a/b' && cd '/srv/app/a/b' && exec 'bash' -lc "));
}

#[test]
fn shell_script_opens_login_shell() {
    assert_eq!(shell(&server("~/rdev", None), &project("app", "")), SHELL);
}

#[test]
fn control_options() {
    assert_eq!(control_dir("/home/u/.cache"), "/home/u/.cache/rdev");
    assert_eq!(control_dir("/home/u/.cache/"), "/home/u/.cache/rdev");
    assert_eq!(
        control_args("/home/u/.cache/rdev"),
        strings(&["-o", "ControlMaster=auto", "-o", "ControlPath=/home/u/.cache/rdev/cm-%C", "-o", "ControlPersist=10m"])
    );
}

#[test]
fn ssh_args_order() {
    let control = strings(&["-o", "X=1"]);
    assert_eq!(ssh_args(&control, "dev", true, "echo"), strings(&["-o", "X=1", "-t", "dev", "echo"]));
    assert_eq!(ssh_args(&control, "dev", false, "echo"), strings(&["-o", "X=1", "dev", "echo"]));
}

#[test]
fn quick_checks() {
    assert_eq!(probe("dev"), strings(&["-o", "BatchMode=yes", "-o", "ConnectTimeout=5", "dev", "true"]));
    assert_eq!(
        remote_has("dev", "rsync"),
        strings(&["-o", "BatchMode=yes", "-o", "ConnectTimeout=5", "dev", "command -v rsync"])
    );
    assert_eq!(
        detect_shell_args("u@h"),
        strings(&["-o", "BatchMode=yes", "-o", "ConnectTimeout=5", "u@h", "echo $SHELL"])
    );
}

#[test]
fn detected_shell_is_trimmed_output() {
    assert_eq!(detect_shell(true, "/usr/bin/fish\n"), Some("/usr/bin/fish".to_string()));
    assert_eq!(detect_shell(true, "  \n"), None);
    assert_eq!(detect_shell(false, "/bin/bash\n"), None);
    assert_eq!(detect_shell(true, "\u{a0}/bin/zsh\r\n"), Some("/bin/zsh".to_string()));
}

#[test]
fn sh_command_quotes_script() {
    assert_eq!(sh_command("echo 'hi'"), "sh -c 'echo '\\''hi'\\'''");
}

#[test]
fn root_trailing_slash_does_not_matter() {
    assert_eq!(shell_path("~/rdev/", "app", "x"), shell_path("~/rdev", "app", "x"));
    assert_eq!(shell_path("/srv/", "app", ""), shell_path("/srv", "app", ""));
}

#[test]
fn interactive_shell_always_gets_a_terminal() {
    let control = strings(&["-o", "X=1"]);
    let srv = server("~/rdev", Some("/usr/bin/fish"));
    let proj = project("app", "src");
    assert_eq!(
        shell_args(&control, &srv, &proj),
        strings(&[
            "-o",
            "X=1",
            "-t",
            "dev",
            "mkdir -p ~/'rdev/app/src' && cd ~/'rdev/app/src' && exec '/usr/bin/fish' -l",
        ])
    );
}
