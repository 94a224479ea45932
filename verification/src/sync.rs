//! Transfers with rsync: the project to the remote directory, and a path
//! back from it.

use vstd::prelude::*;
use crate::config::Server;
use crate::paths::{path_join, join_path};
use crate::project::Project;
use crate::shell_words::{quoted, quote_all, quoted_command_line};
use crate::ssh::{shell_path, shell_path_word, remote_path, quote_args};
use crate::text::{trim_spaces, text_lines, trim, lines, views, lemma_views_push, concat, join_with};

verus! {

/// What is never sent: version control data, build output and caches.
pub open spec fn builtin_excludes() -> Seq<Seq<char>> {
    seq![".git/"@, "target/"@, "node_modules/"@, "build/"@, "dist/"@, "__pycache__/"@]
}

/// A trimmed `.gitignore` line that is a pattern: not empty, not a comment,
/// not a negation.
pub open spec fn is_pattern(t: Seq<char>) -> bool {
    t.len() > 0 && t[0] != '#' && t[0] != '!'
}

/// The patterns of a `.gitignore`, trimmed, in order.
pub open spec fn patterns_of(ls: Seq<Seq<char>>) -> Seq<Seq<char>>
    decreases ls.len(),
{
    if ls.len() == 0 {
        Seq::empty()
    } else {
        let r = patterns_of(ls.drop_last());
        let t = trim_spaces(ls.last());
        if is_pattern(t) {
            r.push(t)
        } else {
            r
        }
    }
}

/// The exclusions of a sync: the built-in ones, then the patterns of the
/// project's `.gitignore` when it could be read.
pub open spec fn exclude_list(gitignore: Option<Seq<char>>) -> Seq<Seq<char>> {
    builtin_excludes() + match gitignore {
        Some(t) => patterns_of(text_lines(t)),
        None => Seq::empty(),
    }
}

/// Every trimmed line of `ls` that is not empty and does not start with `#`
/// or `!` is kept.
proof fn lemma_patterns_complete(ls: Seq<Seq<char>>)
    ensures
        forall|i: int| 0 <= i < ls.len() && trim_spaces(ls[i]).len() > 0 && trim_spaces(ls[i])[0] != '#'
            && trim_spaces(ls[i])[0] != '!' ==> patterns_of(ls).contains(#[trigger] trim_spaces(ls[i])),
    decreases ls.len(),
{
    if ls.len() > 0 {
        let d = ls.drop_last();
        lemma_patterns_complete(d);
        let r = patterns_of(d);
        assert forall|i: int| 0 <= i < ls.len() && trim_spaces(ls[i]).len() > 0 && trim_spaces(ls[i])[0] != '#'
            && trim_spaces(ls[i])[0] != '!' implies patterns_of(ls).contains(#[trigger] trim_spaces(ls[i])) by {
            if i < ls.len() - 1 {
                assert(ls[i] == d[i]);
                let k = choose|k: int| 0 <= k < r.len() && r[k] == trim_spaces(d[i]);
                assert(patterns_of(ls)[k] == r[k]);
            } else {
                assert(patterns_of(ls).last() == trim_spaces(ls.last()));
            }
        }
    }
}

/// The `k`-th kept pattern is a trimmed line of `ls` that is not empty and
/// does not start with `#` or `!`.
proof fn lemma_pattern_source(ls: Seq<Seq<char>>, k: int)
    requires
        0 <= k < patterns_of(ls).len(),
    ensures
        exists|i: int| #![trigger ls[i]] 0 <= i < ls.len() && patterns_of(ls)[k] == trim_spaces(ls[i])
            && trim_spaces(ls[i]).len() > 0 && trim_spaces(ls[i])[0] != '#' && trim_spaces(ls[i])[0] != '!',
    decreases ls.len(),
{
    let d = ls.drop_last();
    let r = patterns_of(d);
    let t = trim_spaces(ls.last());
    if k < r.len() {
        lemma_pattern_source(d, k);
        assert(patterns_of(ls)[k] == r[k]);
        let i = choose|i: int| #![trigger d[i]] 0 <= i < d.len() && r[k] == trim_spaces(d[i])
            && trim_spaces(d[i]).len() > 0 && trim_spaces(d[i])[0] != '#' && trim_spaces(d[i])[0] != '!';
        assert(ls[i] == d[i]);
    } else {
        let j = ls.len() - 1;
        assert(ls[j] == ls.last());
        assert(is_pattern(t) && patterns_of(ls)[k] == t);
    }
}

/// The exclusions are the built-in ones, followed by exactly the lines of
/// the `.gitignore` that are patterns: every line that, trimmed, is not
/// empty and does not start with `#` (a comment) or `!` (a negation) is
/// excluded, whatever else it starts with; and nothing else is added.
pub proof fn law_gitignore_patterns_excluded(text: Seq<char>)
    ensures
        exclude_list(Some(text)).subrange(0, 6) == seq![".git/"@, "target/"@, "node_modules/"@, "build/"@, "dist/"@, "__pycache__/"@],
        forall|i: int| 0 <= i < text_lines(text).len() && trim_spaces(text_lines(text)[i]).len() > 0
            && trim_spaces(text_lines(text)[i])[0] != '#' && trim_spaces(text_lines(text)[i])[0] != '!'
            ==> exclude_list(Some(text)).subrange(6, exclude_list(Some(text)).len() as int).contains(
                #[trigger] trim_spaces(text_lines(text)[i])),
        forall|k: int| #![trigger exclude_list(Some(text))[k]] 6 <= k < exclude_list(Some(text)).len() ==> exists|i: int| #![trigger text_lines(text)[i]] 0 <= i < text_lines(text).len()
            && exclude_list(Some(text))[k] == trim_spaces(text_lines(text)[i])
            && trim_spaces(text_lines(text)[i]).len() > 0
            && trim_spaces(text_lines(text)[i])[0] != '#' && trim_spaces(text_lines(text)[i])[0] != '!',
{
    let ls = text_lines(text);
    lemma_patterns_complete(ls);
    let e = exclude_list(Some(text));
    let p = patterns_of(ls);
    assert(e.subrange(6, e.len() as int) =~= p);
    assert(e.subrange(0, 6) =~= builtin_excludes());
    assert forall|k: int| #![trigger e[k]] 6 <= k < e.len() implies exists|i: int| #![trigger ls[i]] 0 <= i < ls.len()
        && e[k] == trim_spaces(ls[i]) && trim_spaces(ls[i]).len() > 0
        && trim_spaces(ls[i])[0] != '#' && trim_spaces(ls[i])[0] != '!' by {
        assert(e[k] == p[k - 6]);
        lemma_pattern_source(ls, k - 6);
        let i = choose|i: int| #![trigger ls[i]] 0 <= i < ls.len() && p[k - 6] == trim_spaces(ls[i])
            && trim_spaces(ls[i]).len() > 0 && trim_spaces(ls[i])[0] != '#' && trim_spaces(ls[i])[0] != '!';
        assert(0 <= i < ls.len() && e[k] == trim_spaces(ls[i]));
    }
}

/// The exclusions of a sync, given the text of the project's `.gitignore`.
pub fn excludes(gitignore: Option<&str>) -> (r: Vec<String>)
    ensures
        views(r@) == exclude_list(match gitignore { Some(t) => Some(t@), None => None }),
{
    let mut v: Vec<String> = Vec::new();
    v.push(String::from_str(".git/"));
    v.push(String::from_str("target/"));
    v.push(String::from_str("node_modules/"));
    v.push(String::from_str("build/"));
    v.push(String::from_str("dist/"));
    v.push(String::from_str("__pycache__/"));
    assert(views(v@) =~= builtin_excludes());
    match gitignore {
        None => {
            assert(views(v@) =~= exclude_list(None));
            v
        },
        Some(text) => {
            let ls = lines(text);
            let ghost lv = views(ls@);
            let mut i: usize = 0;
            while i < ls.len()
                invariant
                    lv == views(ls@),
                    lv == text_lines(text@),
                    i <= ls@.len(),
                    views(v@) == builtin_excludes() + patterns_of(lv.subrange(0, i as int)),
                decreases ls.len() - i,
            {
                let t = trim(ls[i].as_str());
                proof {
                    assert(lv.subrange(0, i + 1).drop_last() =~= lv.subrange(0, i as int));
                    assert(lv.subrange(0, i + 1).last() == ls@[i as int]@);
                }
                let n = t.unicode_len();
                if n > 0 && t.get_char(0) != '#' && t.get_char(0) != '!' {
                    let ghost v0 = v@;
                    v.push(t.to_owned());
                    proof {
                        lemma_views_push(v0, v@.last());
                        assert(views(v@) =~= builtin_excludes() + patterns_of(lv.subrange(0, i + 1)));
                    }
                }
                i = i + 1;
            }
            proof {
                assert(lv.subrange(0, ls@.len() as int) =~= lv);
            }
            v
        },
    }
}

/// The command rsync uses to reach the remote side: ssh with the
/// connection-sharing options, each argument quoted.
pub open spec fn transport_command(control: Seq<Seq<char>>) -> Seq<char> {
    quoted_command_line(seq!["ssh"@] + control)
}

/// The rsync transport command.
pub fn transport(control: &Vec<String>) -> (r: String)
    ensures
        r@ == transport_command(views(control@)),
{
    let mut all: Vec<String> = Vec::new();
    all.push(String::from_str("ssh"));
    let mut i: usize = 0;
    while i < control.len()
        invariant
            i <= control@.len(),
            views(all@) == seq!["ssh"@] + views(control@).subrange(0, i as int),
        decreases control.len() - i,
    {
        let ghost a0 = all@;
        all.push(control[i].clone());
        proof {
            lemma_views_push(a0, control@[i as int]);
            assert(views(all@) =~= seq!["ssh"@] + views(control@).subrange(0, i + 1));
        }
        i = i + 1;
    }
    proof {
        assert(views(control@).subrange(0, control@.len() as int) =~= views(control@));
    }
    quote_args(&all)
}

/// An rsync run: its arguments, the remote side and the local side.
#[derive(Debug)]
pub struct RsyncPlan {
    pub args: Vec<String>,
    pub target: String,
    pub local: String,
}

/// `host:dir`, the remote side of a transfer.
pub open spec fn remote_target(host: Seq<char>, dir: Seq<char>) -> Seq<char> {
    host + ":"@ + dir
}

/// `host:dir/`, the remote side of a sync: the contents of the project
/// root go into the remote directory.
pub open spec fn push_destination(host: Seq<char>, dir: Seq<char>) -> Seq<char> {
    remote_target(host, dir) + "/"@
}

/// The arguments of a sync: archive mode with compression, the exclusions,
/// the transport, a remote rsync that first creates the directory, and the
/// contents of the project root sent to the remote project directory. There
/// is no `--delete`: files present only remotely stay.
pub open spec fn push_arg_list(root: Seq<char>, host: Seq<char>, dir: Seq<char>, excl: Seq<Seq<char>>, transport: Seq<char>) -> Seq<Seq<char>> {
    seq!["-az"@] + excl.map_values(|p: Seq<char>| "--exclude="@ + p) + seq![
        "-e"@,
        transport,
        "--rsync-path=mkdir -p "@ + dir + " && rsync"@,
        root + "/"@,
        push_destination(host, dir),
    ]
}

/// No argument of a sync is `--delete`, whatever the names, paths and
/// patterns are: the remote directory only ever gains or updates files.
pub proof fn law_push_never_deletes(root: Seq<char>, host: Seq<char>, dir: Seq<char>, excl: Seq<Seq<char>>, control: Seq<Seq<char>>)
    ensures
        !push_arg_list(root, host, dir, excl, transport_command(control)).contains("--delete"@),
{
    let transport = transport_command(control);
    let qs = quote_all(seq!["ssh"@] + control);
    assert(qs[0] == quoted("ssh"@));
    crate::text::lemma_join_with_starts(qs, seq![' ']);
    assert(transport[0] == join_with(qs, seq![' ']).subrange(0, qs[0].len() as int)[0]);
    let a = push_arg_list(root, host, dir, excl, transport);
    let d = "--delete"@;
    reveal_strlit("--delete");
    reveal_strlit("-az");
    reveal_strlit("--exclude=");
    reveal_strlit("-e");
    reveal_strlit("--rsync-path=mkdir -p ");
    reveal_strlit("/");
    reveal_strlit(":");
    assert(d.len() == 8 && d[0] == '-' && d[2] == 'd' && d[7] == 'e');
    assert("-az"@.len() == 3);
    assert("-e"@.len() == 2);
    assert("--exclude="@.len() == 10 && "--exclude="@[2] == 'e');
    assert("--rsync-path=mkdir -p "@.len() == 22 && "--rsync-path=mkdir -p "@[2] == 'r');
    assert("/"@.len() == 1 && "/"@[0] == '/');
    if a.contains(d) {
        let i = choose|i: int| 0 <= i < a.len() && a[i] == d;
        let n = excl.len();
        if i == 0 {
        } else if i <= n {
            let x = "--exclude="@ + excl[i - 1];
            assert(a[i] == x);
            assert(x[2] == 'e');
        } else if i == n + 1 {
        } else if i == n + 2 {
            assert(a[i][0] == '\'');
        } else if i == n + 3 {
            let x = "--rsync-path=mkdir -p "@ + dir + " && rsync"@;
            assert(a[i] == x);
            assert(x[2] == 'r');
        } else if i == n + 4 {
            let x = root + "/"@;
            assert(a[i] == x);
            assert(x.last() == '/');
        } else {
            let x = push_destination(host, dir);
            assert(a[i] == x);
            assert(x.last() == '/');
        }
    }
}

/// The rsync run that sends the project to its remote directory.
pub fn push(server: &Server, proj: &Project, excl: &Vec<String>, control: &Vec<String>) -> (r: RsyncPlan)
    ensures
        views(r.args@) == push_arg_list(
            proj.root@,
            server.host@,
            shell_path_word(remote_path(server.root@, proj.name@, Seq::empty())),
            views(excl@),
            transport_command(views(control@)),
        ),
        r.target@ == push_destination(server.host@, shell_path_word(remote_path(server.root@, proj.name@, Seq::empty()))),
        r.local@ == proj.root@ + "/"@,
        !views(r.args@).contains("--delete"@),
{
    let dir = shell_path(server.root.as_str(), proj.name.as_str(), "");
    proof {
        reveal_strlit("");
        assert(""@ =~= Seq::<char>::empty());
    }
    let mut target = concat(server.host.as_str(), ":");
    target.append(dir.as_str());
    target.append("/");
    let mut args: Vec<String> = Vec::new();
    args.push(String::from_str("-az"));
    let ghost ev = views(excl@).map_values(|p: Seq<char>| "--exclude="@ + p);
    let mut i: usize = 0;
    while i < excl.len()
        invariant
            i <= excl@.len(),
            ev == views(excl@).map_values(|p: Seq<char>| "--exclude="@ + p),
            views(args@) == seq!["-az"@] + ev.subrange(0, i as int),
        decreases excl.len() - i,
    {
        let ghost a0 = args@;
        args.push(concat("--exclude=", excl[i].as_str()));
        proof {
            lemma_views_push(a0, args@.last());
            assert(views(args@) =~= seq!["-az"@] + ev.subrange(0, i + 1));
        }
        i = i + 1;
    }
    args.push(String::from_str("-e"));
    args.push(transport(control));
    let mut rp = concat("--rsync-path=mkdir -p ", dir.as_str());
    rp.append(" && rsync");
    args.push(rp);
    let local = concat(proj.root.as_str(), "/");
    args.push(local.clone());
    args.push(target.clone());
    proof {
        assert(ev.subrange(0, excl@.len() as int) =~= ev);
        assert(views(args@) =~= push_arg_list(
            proj.root@,
            server.host@,
            dir@,
            views(excl@),
            transport_command(views(control@)),
        ));
        law_push_never_deletes(proj.root@, server.host@, dir@, views(excl@), views(control@));
    }
    RsyncPlan { args, target, local }
}

/// The arguments of a pull: the remote path, taken as is (no exclusions),
/// copied to the local destination.
pub open spec fn pull_arg_list(target: Seq<char>, dest: Seq<char>, transport: Seq<char>) -> Seq<Seq<char>> {
    seq!["-az"@, "-e"@, transport, target, dest]
}

/// Where a pulled path lands: the destination given, else the same path
/// inside the local project.
pub open spec fn pull_dest(root: Seq<char>, path: Seq<char>, dest: Option<Seq<char>>) -> Seq<char> {
    match dest {
        Some(d) => d,
        None => path_join(root, path),
    }
}

/// The rsync run that copies `path` from the remote project directory.
pub fn pull(server: &Server, proj: &Project, path: &str, dest: Option<&str>, control: &Vec<String>) -> (r: RsyncPlan)
    ensures
        r.target@ == remote_target(server.host@, shell_path_word(remote_path(server.root@, proj.name@, path@))),
        r.local@ == pull_dest(proj.root@, path@, match dest { Some(d) => Some(d@), None => None }),
        views(r.args@) == pull_arg_list(r.target@, r.local@, transport_command(views(control@))),
{
    let remote = shell_path(server.root.as_str(), proj.name.as_str(), path);
    let mut target = concat(server.host.as_str(), ":");
    target.append(remote.as_str());
    let local = match dest {
        Some(d) => String::from_str(d),
        None => join_path(proj.root.as_str(), path),
    };
    let mut args: Vec<String> = Vec::new();
    args.push(String::from_str("-az"));
    args.push(String::from_str("-e"));
    args.push(transport(control));
    args.push(target.clone());
    args.push(local.clone());
    assert(views(args@) =~= pull_arg_list(target@, local@, transport_command(views(control@))));
    RsyncPlan { args, target, local }
}

} // verus!
