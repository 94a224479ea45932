use rdev::config::Server;
use rdev::project::Project;
use rdev::setup::{setup, setup_script};
use rdev::sync::{excludes, pull, push, transport};
use rdev::task::{logs, start, status};
use rdev::text::decimal_string;

const START: &str = "cd ~/'rdev/app' || exit 1\nmkdir -p .rdev\nif [ -f .rdev/task.pid ] && kill -0 \"$(cat .rdev/task.pid)\" 2>/dev/null; then\necho \"task already running (pid $(cat .rdev/task.pid))\"\nexit 2\nfi\nrm -f .rdev/task.exit\nprintf '%s\\n' ''\\''go'\\'' '\\''build'\\'' '\\''./...'\\''' > .rdev/task.cmd\nnohup 'bash' -lc ''\\''go'\\'' '\\''build'\\'' '\\''./...'\\''; code=$?; echo $code > .rdev/task.exit' > .rdev/task.log 2>&1 < /dev/null &\necho $! > .rdev/task.pid\necho \"started (pid $(cat .rdev/task.pid)), log: .rdev/task.log\"\n";
const START_FISH: &str = "cd ~/'rdev/app' || exit 1\nmkdir -p .rdev\nif [ -f .rdev/task.pid ] && kill -0 \"$(cat .rdev/task.pid)\" 2>/dev/null; then\necho \"task already running (pid $(cat .rdev/task.pid))\"\nexit 2\nfi\nrm -f .rdev/task.exit\nprintf '%s\\n' ''\\''go'\\'' '\\''build'\\'' '\\''./...'\\''' > .rdev/task.cmd\nnohup '/usr/bin/fish' -lc 'export PATH=\"$HOME/.local/bin:$PATH\"; '\\''go'\\'' '\\''build'\\'' '\\''./...'\\''; set code $status; echo $code > .rdev/task.exit' > .rdev/task.log 2>&1 < /dev/null &\necho $! > .rdev/task.pid\necho \"started (pid $(cat .rdev/task.pid)), log: .rdev/task.log\"\n";
const STATUS: &str = "cd ~/'rdev/app' || exit 1\nif [ ! -f .rdev/task.pid ]; then\necho \"no task\"\nexit 3\nfi\npid=$(cat .rdev/task.pid)\ncmd=$(cat .rdev/task.cmd 2>/dev/null)\nif [ -f .rdev/task.exit ]; then\ncode=$(cat .rdev/task.exit)\necho \"done (exit $code): $cmd\"\nexit \"$code\"\nelif kill -0 \"$pid\" 2>/dev/null; then\necho \"running (pid $pid): $cmd\"\nexit 2\nelse\necho \"finished without exit record (pid $pid gone): $cmd\"\nexit 1\nfi\n";
const LOGS: &str = "cd ~/'rdev/app' || exit 1\nif [ ! -f .rdev/task.log ]; then\necho \"no task log\"\nexit 1\nfi\ntail -n 100 -f .rdev/task.log\n";
const LOGS0: &str = "cd ~/'rdev/app' || exit 1\nif [ ! -f .rdev/task.log ]; then\necho \"no task log\"\nexit 1\nfi\ntail -n 7 .rdev/task.log\n";
const TRANSPORT: &str = "'ssh' '-o' 'ControlMaster=auto' '-o' 'ControlPath=/home/u/.cache/rdev/cm-%C' '-o' 'ControlPersist=10m'";

fn server(root: &str, shell: Option<&str>) -> Server {
    Server { host: "dev".to_string(), root: root.to_string(), shell: shell.map(|s| s.to_string()) }
}

fn project() -> Project {
    Project { root: "/home/u/app".to_string(), rel_cwd: "src".to_string(), name: "app".to_string() }
}

fn strings(v: &[&str]) -> Vec<String> {
    v.iter().map(|s| s.to_string()).collect()
}

fn control() -> Vec<String> {
    strings(&["-o", "ControlMaster=auto", "-o", "ControlPath=/home/u/.cache/rdev/cm-%C", "-o", "ControlPersist=10m"])
}

#[test]
fn builtin_excludes_without_gitignore() {
    assert_eq!(
        excludes(None),
        strings(&[".git/", "target/", "node_modules/", "build/", "dist/", "__pycache__/"])
    );
}

#[test]
fn gitignore_patterns_are_added() {
    let text = "# comment\n*.log\n\n  /out  \r\n!keep.log\n\tvendor/\nlast";
    let mut want = strings(&[".git/", "target/", "node_modules/", "build/", "dist/", "__pycache__/"]);
    want.extend(strings(&["*.log", "/out", "vendor/", "last"]));
    assert_eq!(excludes(Some(text)), want);
}

#[test]
fn empty_gitignore_adds_nothing() {
    assert_eq!(excludes(Some("")).len(), 6);
    assert_eq!(excludes(Some("\n\n")).len(), 6);
}

#[test]
fn transport_quotes_each_word() {
    assert_eq!(transport(&control()), TRANSPORT);
}

#[test]
fn push_arguments() {
    let excl = strings(&[".git/", "*.log"]);
    let plan = push(&server("~/rdev", None), &project(), &excl, &control());
    assert_eq!(
        plan.args,
        strings(&[
            "-az",
            "--exclude=.git/",
            "--exclude=*.log",
            "-e",
            TRANSPORT,
            "--rsync-path=mkdir -p ~/'rdev/app' && rsync",
            "/home/u/app/",
            "dev:~/'rdev/app'/",
        ])
    );
    assert_eq!(plan.target, "dev:~/'rdev/app'/");
    assert_eq!(plan.local, "/home/u/app/");
}

#[test]
fn push_never_deletes() {
    let excl = strings(&["--delete", "-e"]);
    let plan = push(&server("/", Some("--delete")), &project(), &excl, &strings(&["--delete"]));
    assert!(!plan.args.iter().any(|a| a == "--delete"));
}

#[test]
fn pull_default_destination() {
    let plan = pull(&server("~/rdev", None), &project(), "out/app.bin", None, &control());
    assert_eq!(plan.target, "dev:~/'rdev/app/out/app.bin'");
    assert_eq!(plan.local, "/home/u/app/out/app.bin");
    assert_eq!(plan.args, strings(&["-az", "-e", TRANSPORT, "dev:~/'rdev/app/out/app.bin'", "/home/u/app/out/app.bin"]));
}

#[test]
fn pull_explicit_destination() {
    let plan = pull(&server("/srv", None), &project(), "a.txt", Some("/tmp/b.txt"), &control());
    assert_eq!(plan.target, "dev:'/srv/app/a.txt'");
    assert_eq!(plan.local, "/tmp/b.txt");
}

#[test]
fn task_start_script() {
    let args = strings(&["go", "build", "./..."]);
    assert_eq!(start(&server("~/rdev", None), &project(), &args, false), START);
}

#[test]
fn task_start_script_fish_and_mise() {
    let args = strings(&["go", "build", "./..."]);
    assert_eq!(start(&server("~/rdev", Some("/usr/bin/fish")), &project(), &args, true), START_FISH);
}

#[test]
fn task_status_script() {
    assert_eq!(status(&server("~/rdev", None), &project()), STATUS);
}

#[test]
fn task_logs_script() {
    assert_eq!(logs(&server("~/rdev", None), &project(), 100, true), LOGS);
    assert_eq!(logs(&server("~/rdev", None), &project(), 7, false), LOGS0);
}

#[test]
fn decimal_numbers() {
    assert_eq!(decimal_string(0), "0");
    assert_eq!(decimal_string(9), "9");
    assert_eq!(decimal_string(10), "10");
    assert_eq!(decimal_string(4294967295), "4294967295");
}

#[test]
fn setup_arguments() {
    let script = setup_script();
    assert!(script.contains("have rsync"));
    assert!(!script.contains('\''));
    let args = setup(&strings(&["-o", "X=1"]), "dev", true);
    assert_eq!(args[..3], strings(&["-o", "X=1", "-t"])[..]);
    assert_eq!(args[3], "dev");
    assert_eq!(args[4], format!("sh -c '{}'", script));
    assert_eq!(setup(&Vec::new(), "dev", false).len(), 2);
}
