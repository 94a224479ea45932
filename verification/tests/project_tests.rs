use rdev::error::RdevError;
use rdev::paths::{join_path, path_components, split_at_char};
use rdev::project::{ancestors, detect, make};
use rdev::text::{lines, trim};

fn strings(v: &[&str]) -> Vec<String> {
    v.iter().map(|s| s.to_string()).collect()
}

#[test]
fn project_at_repository_root() {
    let p = make("/home/u/app", "/home/u/app").unwrap();
    assert_eq!((p.root.as_str(), p.name.as_str(), p.rel_cwd.as_str()), ("/home/u/app", "app", ""));
}

#[test]
fn project_from_subdirectory() {
    let p = make("/home/u/app", "/home/u/app/src/bin").unwrap();
    assert_eq!(p.name, "app");
    assert_eq!(p.rel_cwd, "src/bin");
}

#[test]
fn project_root_must_have_a_name() {
    assert!(matches!(make("/", "/"), Err(RdevError::NoProjectName)));
    assert!(matches!(make("/a/..", "/a/.."), Err(RdevError::NoProjectName)));
    assert!(matches!(make("", ""), Err(RdevError::NoProjectName)));
}

#[test]
fn unrelated_cwd_gives_empty_relative_dir() {
    let p = make("/a/b", "/c/d").unwrap();
    assert_eq!(p.rel_cwd, "");
    let p = make("/a/b/", "/a/bc").unwrap();
    assert_eq!(p.name, "b");
    assert_eq!(p.rel_cwd, "");
}

#[test]
fn ancestors_of_absolute_and_relative_paths() {
    assert_eq!(ancestors("/a/b"), strings(&["/a/b", "/a", "/"]));
    assert_eq!(ancestors("/"), strings(&["/"]));
    assert_eq!(ancestors("a/b"), strings(&["a/b", "a", ""]));
    assert_eq!(ancestors("./a"), strings(&["./a", ".", ""]));
}

#[test]
fn detect_picks_nearest_repository() {
    let p = detect("/home/u/app/src", &vec![false, true, false, false, false]).unwrap();
    assert_eq!((p.root.as_str(), p.name.as_str(), p.rel_cwd.as_str()), ("/home/u/app", "app", "src"));
    let p = detect("/home/u/app/src", &vec![true, true]).unwrap();
    assert_eq!((p.root.as_str(), p.name.as_str(), p.rel_cwd.as_str()), ("/home/u/app/src", "src", ""));
}

#[test]
fn detect_without_repository_uses_cwd() {
    let p = detect("/tmp/scratch", &vec![false, false, false]).unwrap();
    assert_eq!((p.root.as_str(), p.name.as_str(), p.rel_cwd.as_str()), ("/tmp/scratch", "scratch", ""));
    assert!(matches!(detect("/", &vec![false]), Err(RdevError::NoProjectName)));
}

#[test]
fn mise_declarations() {
    let p = make("/w/app", "/w/app").unwrap();
    assert_eq!(p.mise_files(), strings(&["/w/app/mise.toml", "/w/app/.mise.toml", "/w/app/.tool-versions"]));
    assert!(!p.uses_mise(&vec![false, false, false]));
    assert!(p.uses_mise(&vec![false, false, true]));
}

#[test]
fn path_components_like_std() {
    assert_eq!(path_components("/a//b/./c/"), strings(&["/", "a", "b", "c"]));
    assert_eq!(path_components("./a/."), strings(&[".", "a"]));
    assert_eq!(path_components("a/../b"), strings(&["a", "..", "b"]));
    assert_eq!(path_components(""), Vec::<String>::new());
    for p in ["/a//b/./c/", "./a/.", "a/../b", "/", "x"] {
        let want: Vec<String> = std::path::Path::new(p)
            .components()
            .map(|c| c.as_os_str().to_string_lossy().into_owned())
            .collect();
        assert_eq!(path_components(p), want, "{p}");
    }
}

#[test]
fn join_like_std() {
    for (b, s) in [("/a", "b"), ("/a/", "b"), ("", "b"), ("/a", "/c"), ("a", "")] {
        let want = std::path::Path::new(b).join(s).to_string_lossy().into_owned();
        assert_eq!(join_path(b, s), want, "{b} + {s}");
    }
}

#[test]
fn split_and_lines() {
    assert_eq!(split_at_char("a/b//", '/'), strings(&["a", "b", "", ""]));
    for t in ["a\nb", "a\r\nb\r\n", "\n", "", "x\r", "a\n\nb"] {
        let want: Vec<String> = t.lines().map(|l| l.to_string()).collect();
        assert_eq!(lines(t), want, "{t:?}");
    }
}

#[test]
fn trim_like_std() {
    for t in ["  a b \t", "\u{3000}x\u{2029}", "", "   ", "\u{85}y"] {
        assert_eq!(trim(t), t.trim(), "{t:?}");
    }
}

#[test]
fn relative_dir_keeps_the_text_after_the_root() {
    assert_eq!(make("a", "a/b//c").unwrap().rel_cwd, "b//c");
    assert_eq!(make("/a", "/a/b/./c").unwrap().rel_cwd, "b/./c");
    assert_eq!(make("/a", "/a/b/").unwrap().rel_cwd, "b");
    assert_eq!(make("/a", "/a//./b/.").unwrap().rel_cwd, "b");
    assert_eq!(make("/a/", "/a/").unwrap().rel_cwd, "");
    assert_eq!(make("./a", "./a/b").unwrap().rel_cwd, "b");
}

#[test]
fn ancestors_like_std() {
    for p in ["/a//b/./c/", "./a/.", "a/b/", "/x", "/", "a", "/a/../b"] {
        let want: Vec<String> =
            std::path::Path::new(p).ancestors().map(|a| a.to_string_lossy().into_owned()).collect();
        assert_eq!(ancestors(p), want, "{p}");
    }
}

#[test]
fn relative_dir_like_std() {
    for (root, cwd) in [("/a", "/a//b/./c/"), ("a", "a/b//c"), ("/a/", "/a"), ("./a", "a/b"), ("/a/b", "/a/bc")] {
        let want = std::path::Path::new(cwd)
            .strip_prefix(root)
            .map(|r| r.to_string_lossy().into_owned())
            .unwrap_or_default();
        assert_eq!(make(root, cwd).unwrap().rel_cwd, want, "{root} {cwd}");
    }
}
