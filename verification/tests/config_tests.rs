use rdev::commands::{
    after_add, after_setup, require_command, server_add, server_ls, server_rm, server_use, setup_target,
};
use rdev::config::{default_root, validate_root, Config, Server, ServerMap};
use rdev::error::RdevError;
use rdev::names::{compare_names, NameOrder};

fn server(host: &str) -> Server {
    Server { host: host.to_string(), root: "~/rdev".to_string(), shell: None }
}

fn message<T>(r: Result<T, RdevError>) -> String {
    match r {
        Ok(_) => panic!("expected an error"),
        Err(e) => e.message(),
    }
}

#[test]
fn shell_falls_back_to_bash() {
    let mut s = server("h");
    assert_eq!(s.shell(), "bash");
    s.shell = Some("/usr/bin/fish".to_string());
    assert_eq!(s.shell(), "/usr/bin/fish");
}

#[test]
fn default_root_value() {
    assert_eq!(default_root(), "~/rdev");
}

#[test]
fn broad_roots_are_refused() {
    for r in ["", "/", "//", "~", "~/", "~//"] {
        assert_eq!(message(validate_root(r)), format!("invalid root \"{r}\": too broad"));
    }
}

#[test]
fn ordinary_roots_are_accepted() {
    for r in ["~/rdev", "/srv/build/", "rdev", "~x", "/a"] {
        assert!(validate_root(r).is_ok(), "{r}");
    }
}

#[test]
fn map_insert_get_remove() {
    let mut m = ServerMap::new();
    assert!(m.is_empty());
    assert!(m.insert("b".to_string(), server("hb")).is_none());
    assert!(m.insert("a".to_string(), server("ha")).is_none());
    assert_eq!(m.get("a").unwrap().host, "ha");
    let old = m.insert("a".to_string(), server("ha2")).unwrap();
    assert_eq!(old.host, "ha");
    assert_eq!(m.get("a").unwrap().host, "ha2");
    assert_eq!(m.len(), 2);
    assert!(m.contains_key("b"));
    assert_eq!(m.remove("b").unwrap().host, "hb");
    assert!(m.remove("b").is_none());
    assert!(!m.contains_key("b"));
    assert_eq!(m.len(), 1);
}

#[test]
fn map_keeps_name_order() {
    let mut m = ServerMap::new();
    for n in ["prod", "dev", "Dev", "dev2", "d", "ü"] {
        m.insert(n.to_string(), server(n));
    }
    let names: Vec<String> = (0..m.len()).map(|i| m.entry(i).0.clone()).collect();
    let mut sorted = names.clone();
    sorted.sort();
    assert_eq!(names, sorted);
    assert_eq!(names, vec!["Dev", "d", "dev", "dev2", "prod", "ü"]);
}

#[test]
fn set_shell_updates_only_that_server() {
    let mut m = ServerMap::new();
    m.insert("a".to_string(), server("ha"));
    assert!(m.set_shell("a", "/bin/zsh".to_string()));
    assert_eq!(m.get("a").unwrap().shell.as_deref(), Some("/bin/zsh"));
    assert_eq!(m.get("a").unwrap().host, "ha");
    assert!(!m.set_shell("b", "/bin/zsh".to_string()));
}

#[test]
fn names_compare_by_scalar_value() {
    assert!(matches!(compare_names("a", "b"), NameOrder::Before));
    assert!(matches!(compare_names("ab", "a"), NameOrder::After));
    assert!(matches!(compare_names("x", "x"), NameOrder::Same));
    assert!(matches!(compare_names("", "a"), NameOrder::Before));
    assert!(matches!(compare_names("Z", "a"), NameOrder::Before));
}

#[test]
fn no_current_server() {
    let cfg = Config::default();
    assert_eq!(message(cfg.current_server()), "no server selected; run: rdev server add <name> <host>");
}

#[test]
fn current_server_missing_from_map() {
    let mut cfg = Config::default();
    cfg.current = Some("gone".to_string());
    assert_eq!(message(cfg.current_server()), "server \"gone\" not found; run: rdev server ls");
}

#[test]
fn first_added_server_becomes_current() {
    let mut cfg = Config::default();
    assert_eq!(server_add(&mut cfg, "dev".to_string(), "u@h".to_string(), None, false).unwrap(), true);
    assert_eq!(cfg.current.as_deref(), Some("dev"));
    let s = cfg.current_server().unwrap();
    assert_eq!(s.host, "u@h");
    assert_eq!(s.root, "~/rdev");
    assert_eq!(s.shell, None);
    assert_eq!(server_add(&mut cfg, "mac".to_string(), "m".to_string(), Some("~/build".to_string()), false).unwrap(), false);
    assert_eq!(cfg.current.as_deref(), Some("dev"));
    assert_eq!(cfg.servers.get("mac").unwrap().root, "~/build");
}

#[test]
fn duplicate_server_needs_force() {
    let mut cfg = Config::default();
    server_add(&mut cfg, "dev".to_string(), "h1".to_string(), None, false).unwrap();
    assert_eq!(
        message(server_add(&mut cfg, "dev".to_string(), "h2".to_string(), None, false)),
        "server \"dev\" already exists; use --force to overwrite"
    );
    assert_eq!(cfg.servers.get("dev").unwrap().host, "h1");
    assert_eq!(server_add(&mut cfg, "dev".to_string(), "h2".to_string(), None, true).unwrap(), false);
    assert_eq!(cfg.servers.get("dev").unwrap().host, "h2");
}

#[test]
fn add_with_broad_root_is_refused() {
    let mut cfg = Config::default();
    assert_eq!(
        message(server_add(&mut cfg, "dev".to_string(), "h".to_string(), Some("~/".to_string()), false)),
        "invalid root \"~/\": too broad"
    );
    assert!(cfg.servers.is_empty());
    assert!(cfg.current.is_none());
}

#[test]
fn use_switches_current() {
    let mut cfg = Config::default();
    server_add(&mut cfg, "a".to_string(), "ha".to_string(), None, false).unwrap();
    server_add(&mut cfg, "b".to_string(), "hb".to_string(), None, false).unwrap();
    server_use(&mut cfg, "b".to_string()).unwrap();
    assert_eq!(cfg.current_server().unwrap().host, "hb");
    assert_eq!(message(server_use(&mut cfg, "c".to_string())), "server \"c\" not found; run: rdev server ls");
    assert_eq!(cfg.current.as_deref(), Some("b"));
}

#[test]
fn removing_current_clears_it() {
    let mut cfg = Config::default();
    server_add(&mut cfg, "a".to_string(), "ha".to_string(), None, false).unwrap();
    server_add(&mut cfg, "b".to_string(), "hb".to_string(), None, false).unwrap();
    assert_eq!(server_rm(&mut cfg, "b".to_string()).unwrap(), false);
    assert_eq!(cfg.current.as_deref(), Some("a"));
    assert_eq!(server_rm(&mut cfg, "a".to_string()).unwrap(), true);
    assert!(cfg.current.is_none());
    assert_eq!(message(server_rm(&mut cfg, "a".to_string())), "server \"a\" not found");
}

#[test]
fn ls_lists_in_order_and_marks_current() {
    let mut cfg = Config::default();
    assert_eq!(server_ls(&cfg), vec!["no servers; run: rdev server add <name> <host>".to_string()]);
    server_add(&mut cfg, "prod".to_string(), "admin@prod.example".to_string(), Some("/srv".to_string()), false).unwrap();
    server_add(&mut cfg, "dev".to_string(), "dev".to_string(), None, false).unwrap();
    assert_eq!(
        server_ls(&cfg),
        vec![
            format!("  {:<16} {:<24} {}", "dev", "dev", "~/rdev"),
            format!("* {:<16} {:<24} {}", "prod", "admin@prod.example", "/srv"),
        ]
    );
    assert_eq!(server_ls(&cfg)[0], "  dev              dev                      ~/rdev");
}

#[test]
fn ls_does_not_cut_long_names() {
    let mut cfg = Config::default();
    let long = "a-very-long-server-name";
    server_add(&mut cfg, long.to_string(), "h".to_string(), None, false).unwrap();
    assert_eq!(server_ls(&cfg)[0], format!("* {} {:<24} ~/rdev", long, "h"));
}

#[test]
fn setup_target_defaults_to_current() {
    let mut cfg = Config::default();
    assert_eq!(message(setup_target(&cfg, None)), "no server selected; run: rdev server add <name> <host>");
    server_add(&mut cfg, "a".to_string(), "ha".to_string(), None, false).unwrap();
    server_add(&mut cfg, "b".to_string(), "hb".to_string(), None, false).unwrap();
    let (k, s) = setup_target(&cfg, None).unwrap();
    assert_eq!((k.as_str(), s.host.as_str()), ("a", "ha"));
    let (k, s) = setup_target(&cfg, Some("b".to_string())).unwrap();
    assert_eq!((k.as_str(), s.host.as_str()), ("b", "hb"));
    assert_eq!(message(setup_target(&cfg, Some("z".to_string()))), "server \"z\" not found; run: rdev server ls");
}

#[test]
fn run_needs_a_command() {
    assert_eq!(message(require_command(&Vec::new())), "no command given");
    assert!(require_command(&vec!["ls".to_string()]).is_ok());
}

#[test]
fn config_file_location() {
    assert_eq!(Config::path(Some("/x/cfg"), Some("/home/u")).unwrap(), "/x/cfg/rdev/config.toml");
    assert_eq!(Config::path(Some(""), Some("/home/u")).unwrap(), "/home/u/.config/rdev/config.toml");
    assert_eq!(Config::path(None, Some("/home/u/")).unwrap(), "/home/u/.config/rdev/config.toml");
    assert_eq!(message(Config::path(None, None)), "cannot locate config dir");
    assert_eq!(Config::legacy_path("/Users/u/Library/Application Support"), "/Users/u/Library/Application Support/rdev/config.toml");
}

#[test]
fn legacy_config_used_only_when_alone() {
    let p = || "/new".to_string();
    let l = || Some("/old".to_string());
    assert_eq!(Config::pick_path(p(), true, l(), true), "/new");
    assert_eq!(Config::pick_path(p(), false, l(), true), "/old");
    assert_eq!(Config::pick_path(p(), false, l(), false), "/new");
    assert_eq!(Config::pick_path(p(), false, None, true), "/new");
}

#[test]
fn every_error_has_its_message() {
    let cases = vec![
        (RdevError::NoServerSelected, "no server selected; run: rdev server add <name> <host>"),
        (RdevError::UnknownServer("x".to_string()), "server \"x\" not found; run: rdev server ls"),
        (RdevError::NoSuchServer("x".to_string()), "server \"x\" not found"),
        (RdevError::ServerExists("x".to_string()), "server \"x\" already exists; use --force to overwrite"),
        (RdevError::InvalidRoot("/".to_string()), "invalid root \"/\": too broad"),
        (RdevError::NoCommand, "no command given"),
        (RdevError::NoProjectName, "cannot determine project name from current dir"),
        (RdevError::NoConfigDir, "cannot locate config dir"),
    ];
    for (e, m) in cases {
        assert_eq!(e.message(), m);
    }
}

#[test]
fn shell_recorded_after_add_only_when_reachable() {
    let mut cfg = Config::default();
    server_add(&mut cfg, "dev".to_string(), "u@h".to_string(), None, false).unwrap();
    assert!(!after_add(&mut cfg, "dev", false, Some("/bin/zsh".to_string())));
    assert_eq!(cfg.servers.get("dev").unwrap().shell, None);
    assert!(!after_add(&mut cfg, "dev", true, None));
    assert_eq!(cfg.servers.get("dev").unwrap().shell, None);
    assert!(after_add(&mut cfg, "dev", true, Some("/bin/zsh".to_string())));
    assert_eq!(cfg.servers.get("dev").unwrap().shell.as_deref(), Some("/bin/zsh"));
    assert_eq!(cfg.current.as_deref(), Some("dev"));
}

#[test]
fn shell_recorded_after_setup_only_on_success() {
    let mut cfg = Config::default();
    server_add(&mut cfg, "dev".to_string(), "u@h".to_string(), None, false).unwrap();
    assert!(!after_setup(&mut cfg, "dev", 1, Some("/usr/bin/fish".to_string())));
    assert_eq!(cfg.servers.get("dev").unwrap().shell, None);
    assert!(!after_setup(&mut cfg, "dev", 0, None));
    assert_eq!(cfg.servers.get("dev").unwrap().shell, None);
    assert!(after_setup(&mut cfg, "dev", 0, Some("/usr/bin/fish".to_string())));
    assert_eq!(cfg.servers.get("dev").unwrap().shell.as_deref(), Some("/usr/bin/fish"));
    assert_eq!(cfg.servers.get("dev").unwrap().host, "u@h");
}
