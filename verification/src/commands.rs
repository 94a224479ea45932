//! The decisions of the `server` subcommands and of the run commands; the
//! caller saves the configuration and prints the outcome.

use vstd::prelude::*;
use crate::config::{Config, Server, default_root, validate_root, root_is_valid};
use crate::error::RdevError;
use crate::text::same_text;

verus! {

/// The root a new server gets: the one given, else the default.
pub open spec fn chosen_root(root: Option<String>) -> Seq<char> {
    match root {
        Some(r) => r@,
        None => "~/rdev"@,
    }
}

/// `server add`: adds (with `force`, replaces) the server `name`; the first
/// server added becomes current. Returns whether it became current.
pub fn server_add(cfg: &mut Config, name: String, host: String, root: Option<String>, force: bool) -> (r: Result<bool, RdevError>)
    ensures
        old(cfg).servers@.dom().contains(name@) && !force ==> {
            &&& r matches Err(RdevError::ServerExists(n)) && n@ == name@
            &&& final(cfg).current == old(cfg).current
            &&& final(cfg).servers@ == old(cfg).servers@
        },
        !(old(cfg).servers@.dom().contains(name@) && !force) && !root_is_valid(chosen_root(root)) ==> {
            &&& r matches Err(RdevError::InvalidRoot(x)) && x@ == chosen_root(root)
            &&& final(cfg).current == old(cfg).current
            &&& final(cfg).servers@ == old(cfg).servers@
        },
        !(old(cfg).servers@.dom().contains(name@) && !force) && root_is_valid(chosen_root(root)) ==> {
            &&& r == Ok::<bool, RdevError>(old(cfg).current is None)
            &&& final(cfg).servers@.dom().contains(name@)
            &&& final(cfg).servers@[name@].host == host
            &&& final(cfg).servers@[name@].root@ == chosen_root(root)
            &&& final(cfg).servers@[name@].shell is None
            &&& final(cfg).servers@.remove(name@) == old(cfg).servers@.remove(name@)
            &&& final(cfg).current == if old(cfg).current is None { Some(name) } else { old(cfg).current }
        },
{
    if cfg.servers.contains_key(name.as_str()) && !force {
        return Err(RdevError::ServerExists(name));
    }
    let root = match root {
        Some(r) => r,
        None => default_root(),
    };
    match validate_root(root.as_str()) {
        Ok(()) => {},
        Err(e) => {
            return Err(e);
        },
    }
    let key = name.clone();
    let ghost before = cfg.servers@;
    let _ = cfg.servers.insert(name, Server { host, root, shell: None });
    proof {
        assert(cfg.servers@.remove(key@) =~= before.remove(key@));
    }
    let switched = cfg.current.is_none();
    if switched {
        cfg.current = Some(key);
    }
    Ok(switched)
}

/// `server use`: makes `name` the current server.
pub fn server_use(cfg: &mut Config, name: String) -> (r: Result<(), RdevError>)
    ensures
        final(cfg).servers@ == old(cfg).servers@,
        old(cfg).servers@.dom().contains(name@) ==> r is Ok && final(cfg).current == Some(name),
        !old(cfg).servers@.dom().contains(name@) ==> {
            &&& r matches Err(RdevError::UnknownServer(n)) && n@ == name@
            &&& final(cfg).current == old(cfg).current
        },
{
    if !cfg.servers.contains_key(name.as_str()) {
        return Err(RdevError::UnknownServer(name));
    }
    cfg.current = Some(name);
    Ok(())
}

/// Whether `current` names `name`.
pub open spec fn is_current(current: Option<String>, name: Seq<char>) -> bool {
    current matches Some(c) && c@ == name
}

/// `server rm`: removes `name`; removing the current server leaves none
/// current. Returns whether it was the current one.
pub fn server_rm(cfg: &mut Config, name: String) -> (r: Result<bool, RdevError>)
    ensures
        final(cfg).servers@ == old(cfg).servers@.remove(name@),
        !old(cfg).servers@.dom().contains(name@) ==> {
            &&& r matches Err(RdevError::NoSuchServer(n)) && n@ == name@
            &&& final(cfg).current == old(cfg).current
        },
        old(cfg).servers@.dom().contains(name@) ==> {
            &&& r == Ok::<bool, RdevError>(is_current(old(cfg).current, name@))
            &&& final(cfg).current == if is_current(old(cfg).current, name@) { None } else { old(cfg).current }
        },
{
    match cfg.servers.remove(name.as_str()) {
        None => Err(RdevError::NoSuchServer(name)),
        Some(_) => {
            let was_current = match &cfg.current {
                Some(c) => same_text(c.as_str(), name.as_str()),
                None => false,
            };
            if was_current {
                cfg.current = None;
            }
            Ok(was_current)
        },
    }
}

/// `n` spaces.
pub open spec fn spaces(n: int) -> Seq<char> {
    Seq::new(if n > 0 { n as nat } else { 0 }, |i: int| ' ')
}

/// `s` left-aligned in a field of `width` characters.
pub open spec fn pad_right(s: Seq<char>, width: int) -> Seq<char> {
    s + spaces(width - s.len())
}

/// One line of `server ls`: a `*` for the current server, the name, the
/// host and the root.
pub open spec fn ls_line(current: bool, name: Seq<char>, s: Server) -> Seq<char> {
    (if current { "*"@ } else { " "@ }) + " "@ + pad_right(name, 16) + " "@ + pad_right(s.host@, 24) + " "@ + s.root@
}

/// At most one name is current, and it is the current server's own name:
/// removing a server with any other name leaves the current server in
/// place (`server rm` answers `false`), and `server ls` marks one line only.
pub proof fn law_current_by_exact_name(current: Option<String>, a: Seq<char>, b: Seq<char>)
    ensures
        is_current(current, a) && is_current(current, b) ==> a == b,
        current matches Some(c) ==> is_current(current, c@),
        current is None ==> !is_current(current, a),
{
}

/// A line of `server ls` shows every field whole, at fixed places: the
/// mark, then the name from the third character, the host after the name's
/// column (at least 16 wide), and the root after the host's column (at
/// least 24 wide) at the end. Nothing is cut, however long.
pub proof fn law_ls_line_fields(current: bool, name: Seq<char>, s: Server)
    ensures
        ({
            let l = ls_line(current, name, s);
            let w: int = if name.len() > 16 { name.len() as int } else { 16 };
            let hw: int = if s.host@.len() > 24 { s.host@.len() as int } else { 24 };
            &&& l.len() == 2 + w + 1 + hw + 1 + s.root@.len()
            &&& l[0] == (if current { '*' } else { ' ' })
            &&& l.subrange(2, 2 + name.len() as int) == name
            &&& l.subrange(3 + w, 3 + w + s.host@.len()) == s.host@
            &&& l.subrange(4 + w + hw, l.len() as int) == s.root@
        }),
{
    reveal_strlit("*");
    reveal_strlit(" ");
    let l = ls_line(current, name, s);
    let mark = if current { "*"@ } else { " "@ };
    let pn = pad_right(name, 16);
    let ph = pad_right(s.host@, 24);
    let w: int = if name.len() > 16 { name.len() as int } else { 16 };
    let hw: int = if s.host@.len() > 24 { s.host@.len() as int } else { 24 };
    assert(mark.len() == 1);
    assert(" "@.len() == 1);
    assert(pn.len() == w);
    assert(ph.len() == hw);
    assert(l =~= mark + " "@ + pn + " "@ + ph + " "@ + s.root@);
    assert(l.subrange(2, 2 + name.len() as int) =~= name) by {
        assert forall|k: int| 0 <= k < name.len() implies l[2 + k] == name[k] by {
            assert(pn[k] == name[k]);
        }
    }
    assert(l.subrange(3 + w, 3 + w + s.host@.len()) =~= s.host@) by {
        assert forall|k: int| 0 <= k < s.host@.len() implies l[3 + w + k] == s.host@[k] by {
            assert(ph[k] == s.host@[k]);
        }
    }
    assert(l.subrange(4 + w + hw, l.len() as int) =~= s.root@);
}

/// The output of `server ls` when no server is configured.
pub open spec fn no_servers_line() -> Seq<char> {
    "no servers; run: rdev server add <name> <host>"@
}

/// `s` left-aligned in a field of `width` characters.
fn pad(s: &str, width: usize) -> (r: String)
    ensures
        r@ == pad_right(s@, width as int),
{
    let mut r = String::from_str(s);
    let mut n = s.unicode_len();
    proof {
        reveal_strlit(" ");
        assert(s@ + spaces(0) =~= s@);
    }
    while n < width
        invariant
            s@.len() <= n <= width || (n == s@.len() && n >= width),
            r@ == s@ + spaces(n - s@.len()),
        decreases width - n,
    {
        r.append(" ");
        proof {
            reveal_strlit(" ");
            assert(" "@ =~= seq![' ']);
            assert(s@ + spaces(n + 1 - s@.len()) =~= s@ + spaces(n - s@.len()) + seq![' ']);
        }
        n = n + 1;
    }
    proof {
        assert(spaces(n - s@.len()) =~= spaces(width - s@.len()));
    }
    r
}

/// `server ls`: one line per server in name order, or a hint when there
/// is none.
pub fn server_ls(cfg: &Config) -> (r: Vec<String>)
    ensures
        cfg.servers.names().len() == 0 ==> r@.len() == 1 && r@[0]@ == no_servers_line(),
        cfg.servers.names().len() > 0 ==> {
            &&& r@.len() == cfg.servers.names().len()
            &&& forall|i: int| 0 <= i < r@.len() ==> #[trigger] r@[i]@ == ls_line(
                is_current(cfg.current, cfg.servers.names()[i]),
                cfg.servers.names()[i],
                cfg.servers@[cfg.servers.names()[i]],
            )
        },
{
    let mut lines: Vec<String> = Vec::new();
    if cfg.servers.is_empty() {
        lines.push(String::from_str("no servers; run: rdev server add <name> <host>"));
        return lines;
    }
    let n = cfg.servers.len();
    let mut i: usize = 0;
    while i < n
        invariant
            n == cfg.servers.names().len(),
            i <= n,
            lines@.len() == i,
            forall|k: int| 0 <= k < i ==> #[trigger] lines@[k]@ == ls_line(
                is_current(cfg.current, cfg.servers.names()[k]),
                cfg.servers.names()[k],
                cfg.servers@[cfg.servers.names()[k]],
            ),
        decreases n - i,
    {
        let (name, s) = cfg.servers.entry(i);
        let current = match &cfg.current {
            Some(c) => same_text(c.as_str(), name.as_str()),
            None => false,
        };
        let mut line = String::from_str(if current { "*" } else { " " });
        line.append(" ");
        let p = pad(name.as_str(), 16);
        line.append(p.as_str());
        line.append(" ");
        let h = pad(s.host.as_str(), 24);
        line.append(h.as_str());
        line.append(" ");
        line.append(s.root.as_str());
        proof {
            assert(current == is_current(cfg.current, name@));
        }
        lines.push(line);
        i = i + 1;
    }
    lines
}

/// `server setup [name]`: the server to provision, by name or else the
/// current one, with the name it is configured under.
pub fn setup_target(cfg: &Config, name: Option<String>) -> (r: Result<(String, Server), RdevError>)
    ensures
        name is None && cfg.current is None ==> r == Err::<(String, Server), RdevError>(RdevError::NoServerSelected),
        ({
            let key = match name {
                Some(n) => Some(n),
                None => cfg.current,
            };
            key matches Some(k) ==> {
                if cfg.servers@.dom().contains(k@) {
                    r matches Ok((n, s)) && n == k && s == cfg.servers@[k@]
                } else {
                    r matches Err(RdevError::UnknownServer(m)) && m@ == k@
                }
            }
        }),
{
    let key = match name {
        Some(n) => n,
        None => match &cfg.current {
            Some(c) => c.clone(),
            None => {
                return Err(RdevError::NoServerSelected);
            },
        },
    };
    match cfg.servers.get(key.as_str()) {
        Some(s) => Ok((key, s.clone())),
        None => Err(RdevError::UnknownServer(key)),
    }
}

/// The servers after recording `shell` as the login shell of `name`, when
/// `name` is configured.
pub open spec fn with_shell(m: Map<Seq<char>, Server>, name: Seq<char>, shell: String) -> Map<Seq<char>, Server> {
    if m.dom().contains(name) {
        m.insert(name, Server { shell: Some(shell), ..m[name] })
    } else {
        m
    }
}

fn record_shell(cfg: &mut Config, name: &str, detected: Option<String>) -> (save: bool)
    ensures
        save == detected is Some,
        final(cfg).current == old(cfg).current,
        detected matches Some(sh) ==> final(cfg).servers@ == with_shell(old(cfg).servers@, name@, sh),
        detected is None ==> final(cfg).servers@ == old(cfg).servers@,
{
    match detected {
        Some(sh) => {
            let _ = cfg.servers.set_shell(name, sh);
            true
        },
        None => false,
    }
}

/// After `server add`: the login shell that the host reported is recorded,
/// but only when the host answered the connection check. Returns whether the
/// configuration must be saved again.
pub fn after_add(cfg: &mut Config, name: &str, reachable: bool, detected: Option<String>) -> (save: bool)
    ensures
        save == (reachable && detected is Some),
        final(cfg).current == old(cfg).current,
        save ==> final(cfg).servers@ == with_shell(old(cfg).servers@, name@, detected->0),
        !save ==> final(cfg).servers@ == old(cfg).servers@,
{
    if reachable {
        record_shell(cfg, name, detected)
    } else {
        false
    }
}

/// After `server setup`: the login shell that the host reported is
/// recorded, but only when the provisioning exited with 0. Returns whether the
/// configuration must be saved again.
pub fn after_setup(cfg: &mut Config, key: &str, code: i32, detected: Option<String>) -> (save: bool)
    ensures
        save == (code == 0 && detected is Some),
        final(cfg).current == old(cfg).current,
        save ==> final(cfg).servers@ == with_shell(old(cfg).servers@, key@, detected->0),
        !save ==> final(cfg).servers@ == old(cfg).servers@,
{
    if code == 0 {
        record_shell(cfg, key, detected)
    } else {
        false
    }
}

/// A remote run needs a command.
pub fn require_command(args: &Vec<String>) -> (r: Result<(), RdevError>)
    ensures
        args@.len() == 0 ==> r == Err::<(), RdevError>(RdevError::NoCommand),
        args@.len() > 0 ==> r is Ok,
{
    if args.len() == 0 {
        Err(RdevError::NoCommand)
    } else {
        Ok(())
    }
}

} // verus!
