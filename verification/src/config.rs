//! Configured servers: named ssh targets, one of them current.

use vstd::prelude::*;
use crate::error::RdevError;
use crate::names::{name_lt, compare_names, NameOrder, lemma_name_lt_transitive, lemma_name_lt_irreflexive};
use crate::text::{trim_end_char, trim_end_matches};
use crate::paths::{path_join, join_path};

verus! {

/// One remote server.
#[derive(Debug)]
pub struct Server {
    /// ssh host: an alias of the ssh config or `user@host`
    pub host: String,
    /// remote workspace root; projects live in `root/<project name>`
    pub root: String,
    /// remote login shell, when it was detected
    pub shell: Option<String>,
}

impl Clone for Server {
    fn clone(&self) -> (r: Self)
        ensures
            r == *self,
    {
        Server {
            host: self.host.clone(),
            root: self.root.clone(),
            shell: match &self.shell {
                Some(s) => Some(s.clone()),
                None => None,
            },
        }
    }
}

/// The shell that runs remote commands: the detected one, else bash.
pub open spec fn login_shell(s: Server) -> Seq<char> {
    match s.shell {
        Some(sh) => sh@,
        None => "bash"@,
    }
}

impl Server {
    /// The remote login shell, falling back to bash.
    pub fn shell(&self) -> (r: &str)
        ensures
            r@ == login_shell(*self),
    {
        match &self.shell {
            Some(s) => s.as_str(),
            None => "bash",
        }
    }
}

/// The default remote workspace root.
pub fn default_root() -> (r: String)
    ensures
        r@ == "~/rdev"@,
{
    String::from_str("~/rdev")
}

/// A root is accepted unless, without its trailing slashes, it is empty,
/// `/` or `~`.
pub open spec fn root_is_valid(root: Seq<char>) -> bool {
    let r = trim_end_char(root, '/');
    !(r.len() == 0 || r == seq!['/'] || r == seq!['~'])
}

/// Refuses workspace roots that would cover the whole remote disk or home.
pub fn validate_root(root: &str) -> (r: Result<(), RdevError>)
    ensures
        r is Ok <==> root_is_valid(root@),
        r matches Err(e) ==> (e matches RdevError::InvalidRoot(s) && s@ == root@),
{
    let t = trim_end_matches(root, '/');
    let n = t.unicode_len();
    if n == 0 || (n == 1 && (t.get_char(0) == '/' || t.get_char(0) == '~')) {
        proof {
            if n == 1 {
                if t@[0] == '/' {
                    assert(t@ =~= seq!['/']);
                } else {
                    assert(t@ =~= seq!['~']);
                }
            }
        }
        return Err(RdevError::InvalidRoot(String::from_str(root)));
    }
    Ok(())
}

/// The names of `e`, in order.
pub open spec fn entry_names(e: Seq<(String, Server)>) -> Seq<Seq<char>> {
    e.map_values(|x: (String, Server)| x.0@)
}

/// The names of `e` are strictly increasing.
pub open spec fn entries_sorted(e: Seq<(String, Server)>) -> bool {
    forall|i: int, j: int| 0 <= i < j < e.len() ==> name_lt(#[trigger] e[i].0@, #[trigger] e[j].0@)
}

/// Whether `k` is one of the names of `e`.
pub open spec fn has_name(e: Seq<(String, Server)>, k: Seq<char>) -> bool {
    exists|i: int| 0 <= i < e.len() && #[trigger] e[i].0@ == k
}

/// The position of the name `k` in `e`.
pub open spec fn name_pos(e: Seq<(String, Server)>, k: Seq<char>) -> int {
    choose|i: int| 0 <= i < e.len() && #[trigger] e[i].0@ == k
}

/// The servers of `e` by name.
pub open spec fn entries_map(e: Seq<(String, Server)>) -> Map<Seq<char>, Server> {
    Map::new(|k: Seq<char>| has_name(e, k), |k: Seq<char>| e[name_pos(e, k)].1)
}

/// In sorted entries, the entry at `i` is the one found under its name.
pub proof fn lemma_entries_map_at(e: Seq<(String, Server)>, i: int)
    requires
        entries_sorted(e),
        0 <= i < e.len(),
    ensures
        entries_map(e).dom().contains(e[i].0@),
        entries_map(e)[e[i].0@] == e[i].1,
        name_pos(e, e[i].0@) == i,
{
    assert(has_name(e, e[i].0@));
    let j = name_pos(e, e[i].0@);
    if j < i {
        lemma_name_lt_irreflexive(e[i].0@);
        assert(name_lt(e[j].0@, e[i].0@));
    } else if j > i {
        lemma_name_lt_irreflexive(e[i].0@);
        assert(name_lt(e[i].0@, e[j].0@));
    }
}

/// Inserting an entry where its name belongs keeps the order and adds the
/// entry to the map.
pub proof fn lemma_insert_at(e: Seq<(String, Server)>, pos: int, x: (String, Server))
    requires
        entries_sorted(e),
        0 <= pos <= e.len(),
        forall|i: int| 0 <= i < pos ==> name_lt(#[trigger] e[i].0@, x.0@),
        pos < e.len() ==> name_lt(x.0@, e[pos].0@),
    ensures
        entries_sorted(e.insert(pos, x)),
        entries_map(e.insert(pos, x)) == entries_map(e).insert(x.0@, x.1),
{
    let f = e.insert(pos, x);
    assert forall|i: int, j: int| 0 <= i < j < f.len() implies name_lt(#[trigger] f[i].0@, #[trigger] f[j].0@) by {
        if j < pos {
            assert(f[i] == e[i] && f[j] == e[j]);
        } else if j == pos {
            assert(f[i] == e[i]);
        } else if i == pos {
            assert(f[j] == e[j - 1]);
            if j - 1 > pos {
                lemma_name_lt_transitive(x.0@, e[pos].0@, e[j - 1].0@);
            }
        } else if i < pos {
            assert(f[i] == e[i] && f[j] == e[j - 1]);
            if j - 1 >= pos {
                assert(name_lt(e[i].0@, x.0@));
                lemma_name_lt_transitive(e[i].0@, x.0@, e[pos].0@);
                if j - 1 > pos {
                    lemma_name_lt_transitive(e[i].0@, e[pos].0@, e[j - 1].0@);
                }
            }
        } else {
            assert(f[i] == e[i - 1] && f[j] == e[j - 1]);
        }
    }
    let m = entries_map(e).insert(x.0@, x.1);
    assert forall|k: Seq<char>| entries_map(f).dom().contains(k) <==> m.dom().contains(k) by {
        if has_name(f, k) {
            let i = choose|i: int| 0 <= i < f.len() && #[trigger] f[i].0@ == k;
            if i < pos {
                assert(e[i].0@ == k);
            } else if i > pos {
                assert(e[i - 1].0@ == k);
            }
        }
        if has_name(e, k) {
            let i = choose|i: int| 0 <= i < e.len() && #[trigger] e[i].0@ == k;
            if i < pos {
                assert(f[i].0@ == k);
            } else {
                assert(f[i + 1].0@ == k);
            }
        }
        if k == x.0@ {
            assert(f[pos].0@ == k);
        }
    }
    assert forall|k: Seq<char>| #[trigger] entries_map(f).dom().contains(k) implies entries_map(f)[k] == m[k] by {
        let i = name_pos(f, k);
        lemma_entries_map_at(f, i);
        if i < pos {
            lemma_entries_map_at(e, i);
            lemma_name_lt_irreflexive(x.0@);
        } else if i > pos {
            lemma_entries_map_at(e, i - 1);
            lemma_name_lt_irreflexive(x.0@);
            if i - 1 > pos {
                lemma_name_lt_transitive(x.0@, e[pos].0@, e[i - 1].0@);
            }
        }
    }
    assert(entries_map(f) =~= m);
}

/// Removing the entry at `pos` keeps the order and removes its name from
/// the map.
pub proof fn lemma_remove_at(e: Seq<(String, Server)>, pos: int)
    requires
        entries_sorted(e),
        0 <= pos < e.len(),
    ensures
        entries_sorted(e.remove(pos)),
        entries_map(e.remove(pos)) == entries_map(e).remove(e[pos].0@),
{
    let f = e.remove(pos);
    let x = e[pos];
    assert forall|i: int, j: int| 0 <= i < j < f.len() implies name_lt(#[trigger] f[i].0@, #[trigger] f[j].0@) by {
        if j < pos {
            assert(f[i] == e[i] && f[j] == e[j]);
        } else if i < pos {
            assert(f[i] == e[i] && f[j] == e[j + 1]);
        } else {
            assert(f[i] == e[i + 1] && f[j] == e[j + 1]);
        }
    }
    let m = entries_map(e).remove(x.0@);
    assert forall|k: Seq<char>| entries_map(f).dom().contains(k) <==> m.dom().contains(k) by {
        if has_name(f, k) {
            let i = choose|i: int| 0 <= i < f.len() && #[trigger] f[i].0@ == k;
            lemma_name_lt_irreflexive(k);
            if i < pos {
                assert(e[i].0@ == k);
            } else {
                assert(e[i + 1].0@ == k);
            }
        }
        if has_name(e, k) && k != x.0@ {
            let i = choose|i: int| 0 <= i < e.len() && #[trigger] e[i].0@ == k;
            if i < pos {
                assert(f[i].0@ == k);
            } else {
                assert(f[i - 1].0@ == k);
            }
        }
    }
    assert forall|k: Seq<char>| #[trigger] entries_map(f).dom().contains(k) implies entries_map(f)[k] == m[k] by {
        let i = name_pos(f, k);
        assert(f[i].0@ == k);
        lemma_entries_map_at(f, i);
        lemma_name_lt_irreflexive(k);
        if i < pos {
            assert(f[i] == e[i]);
            lemma_entries_map_at(e, i);
            assert(name_lt(e[i].0@, x.0@));
        } else {
            assert(f[i] == e[i + 1]);
            lemma_entries_map_at(e, i + 1);
            assert(name_lt(x.0@, e[i + 1].0@));
        }
        assert(k != x.0@);
    }
    assert(entries_map(f) =~= m);
}

/// The configured servers, kept in name order.
#[derive(Debug)]
pub struct ServerMap {
    entries: Vec<(String, Server)>,
}

impl View for ServerMap {
    type V = Map<Seq<char>, Server>;

    /// The servers by name.
    closed spec fn view(&self) -> Map<Seq<char>, Server> {
        if entries_sorted(self.entries@) {
            entries_map(self.entries@)
        } else {
            Map::empty()
        }
    }
}

impl ServerMap {
    #[verifier::type_invariant]
    spec fn sorted(self) -> bool {
        entries_sorted(self.entries@)
    }

    /// The names, in the order `ls` lists them.
    pub closed spec fn names(self) -> Seq<Seq<char>> {
        if entries_sorted(self.entries@) {
            entry_names(self.entries@)
        } else {
            Seq::empty()
        }
    }

    /// Listed names are strictly increasing (so each appears once), and they
    /// are exactly the names of the configured servers.
    pub proof fn law_listing_sorted_and_complete(&self)
        ensures
            forall|i: int, j: int| 0 <= i < j < self.names().len() ==> name_lt(#[trigger] self.names()[i], #[trigger] self.names()[j]),
            forall|k: Seq<char>| self@.dom().contains(k) <==> self.names().contains(k),
            forall|i: int| 0 <= i < self.names().len() ==> self@.dom().contains(#[trigger] self.names()[i]),
    {
        let e = self.entries@;
        if !entries_sorted(e) {
            assert(self@ =~= Map::<Seq<char>, Server>::empty());
        } else {
            assert forall|k: Seq<char>| self@.dom().contains(k) <==> self.names().contains(k) by {
                if self@.dom().contains(k) {
                    let i = name_pos(e, k);
                    assert(self.names()[i] == k);
                }
                if self.names().contains(k) {
                    let i = choose|i: int| 0 <= i < self.names().len() && self.names()[i] == k;
                    assert(e[i].0@ == k);
                }
            }
            assert forall|i: int| 0 <= i < self.names().len() implies self@.dom().contains(#[trigger] self.names()[i]) by {
                assert(e[i].0@ == self.names()[i]);
            }
        }
    }

    /// No servers.
    pub fn new() -> (r: Self)
        ensures
            r.view() == Map::<Seq<char>, Server>::empty(),
            r.names() == Seq::<Seq<char>>::empty(),
    {
        let r = ServerMap { entries: Vec::new() };
        assert(r.view() =~= Map::<Seq<char>, Server>::empty());
        assert(r.names() =~= Seq::<Seq<char>>::empty());
        r
    }

    /// The number of servers.
    pub fn len(&self) -> (r: usize)
        ensures
            r == self.names().len(),
    {
        proof { use_type_invariant(self); }
        self.entries.len()
    }

    /// Whether no server is configured.
    pub fn is_empty(&self) -> (r: bool)
        ensures
            r == (self@.dom() =~= Set::<Seq<char>>::empty()),
            r == (self.names().len() == 0),
    {
        proof {
            use_type_invariant(self);
            if self.entries@.len() > 0 {
                lemma_entries_map_at(self.entries@, 0);
            }
        }
        self.entries.len() == 0
    }

    /// Where `name` is, or would go: every name before `pos` comes before
    /// `name`, and the name at `pos`, if any, does not.
    fn find(&self, name: &str) -> (r: (bool, usize))
        ensures
            r.1 <= self.entries@.len(),
            forall|i: int| 0 <= i < r.1 ==> name_lt(#[trigger] self.entries@[i].0@, name@),
            r.0 ==> r.1 < self.entries@.len() && self.entries@[r.1 as int].0@ == name@,
            !r.0 ==> (r.1 < self.entries@.len() ==> name_lt(name@, self.entries@[r.1 as int].0@)),
            r.0 <==> has_name(self.entries@, name@),
    {
        proof { use_type_invariant(self); }
        let mut i: usize = 0;
        while i < self.entries.len()
            invariant
                i <= self.entries@.len(),
                entries_sorted(self.entries@),
                forall|k: int| 0 <= k < i ==> name_lt(#[trigger] self.entries@[k].0@, name@),
            decreases self.entries.len() - i,
        {
            match compare_names(self.entries[i].0.as_str(), name) {
                NameOrder::Before => {},
                NameOrder::Same => {
                    return (true, i);
                },
                NameOrder::After => {
                    proof {
                        assert forall|k: int| 0 <= k < self.entries@.len() implies #[trigger] self.entries@[k].0@ != name@ by {
                            if k < i {
                                lemma_name_lt_irreflexive(name@);
                            } else if k > i {
                                lemma_name_lt_transitive(name@, self.entries@[i as int].0@, self.entries@[k].0@);
                                lemma_name_lt_irreflexive(name@);
                            } else {
                                lemma_name_lt_irreflexive(name@);
                            }
                        }
                    }
                    return (false, i);
                },
            }
            i = i + 1;
        }
        proof {
            assert forall|k: int| 0 <= k < self.entries@.len() implies #[trigger] self.entries@[k].0@ != name@ by {
                lemma_name_lt_irreflexive(name@);
            }
        }
        (false, i)
    }

    /// Whether a server is configured under `name`.
    pub fn contains_key(&self, name: &str) -> (r: bool)
        ensures
            r == self@.dom().contains(name@),
    {
        proof { use_type_invariant(self); }
        let (found, _) = self.find(name);
        found
    }

    /// The server configured under `name`.
    pub fn get(&self, name: &str) -> (r: Option<&Server>)
        ensures
            r matches Some(s) ==> self@.dom().contains(name@) && self@[name@] == *s,
            r is None ==> !self@.dom().contains(name@),
    {
        let (found, pos) = self.find(name);
        if found {
            proof {
                use_type_invariant(self);
                lemma_entries_map_at(self.entries@, pos as int);
            }
            Some(&self.entries[pos].1)
        } else {
            None
        }
    }

    /// Adds `server` under `name`, replacing and returning the server that
    /// was there.
    pub fn insert(&mut self, name: String, server: Server) -> (r: Option<Server>)
        ensures
            final(self)@ == old(self)@.insert(name@, server),
            r matches Some(s) ==> old(self)@.dom().contains(name@) && old(self)@[name@] == s,
            r is None ==> !old(self)@.dom().contains(name@),
    {
        proof { use_type_invariant(&*self); }
        let (found, pos) = self.find(name.as_str());
        let mut e: Vec<(String, Server)> = Vec::new();
        std::mem::swap(&mut e, &mut self.entries);
        let ghost e0 = e@;
        if found {
            let (_, prev) = e.remove(pos);
            proof {
                lemma_entries_map_at(e0, pos as int);
                lemma_remove_at(e0, pos as int);
                assert(e@ == e0.remove(pos as int));
                assert forall|i: int| 0 <= i < pos implies name_lt(#[trigger] e@[i].0@, name@) by {
                    assert(e@[i] == e0[i]);
                }
                if pos < e@.len() {
                    assert(e@[pos as int] == e0[pos + 1]);
                }
                lemma_insert_at(e@, pos as int, (name, server));
                assert(entries_map(e0).remove(name@).insert(name@, server) =~= entries_map(e0).insert(name@, server));
            }
            e.insert(pos, (name, server));
            self.entries = e;
            Some(prev)
        } else {
            proof {
                lemma_insert_at(e0, pos as int, (name, server));
            }
            e.insert(pos, (name, server));
            self.entries = e;
            None
        }
    }

    /// Removes the server configured under `name`, returning it.
    pub fn remove(&mut self, name: &str) -> (r: Option<Server>)
        ensures
            final(self)@ == old(self)@.remove(name@),
            r matches Some(s) ==> old(self)@.dom().contains(name@) && old(self)@[name@] == s,
            r is None ==> !old(self)@.dom().contains(name@),
    {
        proof { use_type_invariant(&*self); }
        let (found, pos) = self.find(name);
        if found {
            let mut e: Vec<(String, Server)> = Vec::new();
            std::mem::swap(&mut e, &mut self.entries);
            let ghost e0 = e@;
            proof {
                lemma_entries_map_at(e0, pos as int);
                lemma_remove_at(e0, pos as int);
            }
            let (_, prev) = e.remove(pos);
            self.entries = e;
            Some(prev)
        } else {
            proof {
                assert(old(self)@.remove(name@) =~= old(self)@);
            }
            None
        }
    }

    /// Records the detected login shell of the server under `name`; nothing
    /// changes when no server has that name.
    pub fn set_shell(&mut self, name: &str, shell: String) -> (r: bool)
        ensures
            r == old(self)@.dom().contains(name@),
            r ==> final(self)@ == old(self)@.insert(
                name@,
                Server { shell: Some(shell), ..old(self)@[name@] },
            ),
            !r ==> final(self)@ == old(self)@,
    {
        proof { use_type_invariant(&*self); }
        let (found, pos) = self.find(name);
        if found {
            let mut e: Vec<(String, Server)> = Vec::new();
            std::mem::swap(&mut e, &mut self.entries);
            let ghost e0 = e@;
            let (n, s) = e.remove(pos);
            let updated = Server { host: s.host, root: s.root, shell: Some(shell) };
            proof {
                lemma_entries_map_at(e0, pos as int);
                lemma_remove_at(e0, pos as int);
                assert(e@ == e0.remove(pos as int));
                assert forall|i: int| 0 <= i < pos implies name_lt(#[trigger] e@[i].0@, n@) by {
                    assert(e@[i] == e0[i]);
                }
                if pos < e@.len() {
                    assert(e@[pos as int] == e0[pos + 1]);
                }
                lemma_insert_at(e@, pos as int, (n, updated));
                assert(entries_map(e0).remove(name@).insert(name@, updated) =~= entries_map(e0).insert(name@, updated));
            }
            e.insert(pos, (n, updated));
            self.entries = e;
            true
        } else {
            false
        }
    }

    /// The name and server at position `i` of the listing order.
    pub fn entry(&self, i: usize) -> (r: (&String, &Server))
        requires
            i < self.names().len(),
        ensures
            r.0@ == self.names()[i as int],
            self@[r.0@] == *r.1,
    {
        proof {
            use_type_invariant(self);
            lemma_entries_map_at(self.entries@, i as int);
        }
        (&self.entries[i].0, &self.entries[i].1)
    }
}

/// The whole configuration: the servers and the current one.
#[derive(Debug)]
pub struct Config {
    /// the server that project commands run on
    pub current: Option<String>,
    /// all configured servers
    pub servers: ServerMap,
}

impl Default for Config {
    fn default() -> (r: Self)
        ensures
            r.current is None,
            r.servers@ == Map::<Seq<char>, Server>::empty(),
    {
        Config { current: None, servers: ServerMap::new() }
    }
}

impl Config {
    /// The server that project commands run on.
    pub fn current_server(&self) -> (r: Result<&Server, RdevError>)
        ensures
            self.current is None ==> r == Err::<&Server, RdevError>(RdevError::NoServerSelected),
            self.current matches Some(n) ==> {
                if self.servers@.dom().contains(n@) {
                    r matches Ok(s) && *s == self.servers@[n@]
                } else {
                    r matches Err(RdevError::UnknownServer(m)) && m@ == n@
                }
            },
    {
        match &self.current {
            None => Err(RdevError::NoServerSelected),
            Some(name) => match self.servers.get(name.as_str()) {
                Some(s) => Ok(s),
                None => Err(RdevError::UnknownServer(name.clone())),
            },
        }
    }
}

/// The directory that holds the configuration directory: the XDG config
/// home when it is set and not empty, else `.config` in the home directory.
pub open spec fn config_base(xdg: Option<Seq<char>>, home: Option<Seq<char>>) -> Option<Seq<char>> {
    if xdg is Some && xdg->0.len() > 0 {
        xdg
    } else {
        match home {
            Some(h) => Some(path_join(h, ".config"@)),
            None => None,
        }
    }
}

/// The configuration file inside `base`.
pub open spec fn config_file_in(base: Seq<char>) -> Seq<char> {
    path_join(path_join(base, "rdev"@), "config.toml"@)
}

/// The configuration file path in `dir`.
fn config_file(dir: &str) -> (r: String)
    ensures
        r@ == config_file_in(dir@),
{
    let d = join_path(dir, "rdev");
    join_path(d.as_str(), "config.toml")
}

impl Config {
    /// The configuration file, from the XDG config home and the home
    /// directory.
    pub fn path(xdg_config_home: Option<&str>, home: Option<&str>) -> (r: Result<String, RdevError>)
        ensures
            ({
                let base = config_base(
                    match xdg_config_home { Some(x) => Some(x@), None => None },
                    match home { Some(h) => Some(h@), None => None },
                );
                match base {
                    Some(b) => r matches Ok(p) && p@ == config_file_in(b),
                    None => r == Err::<String, RdevError>(RdevError::NoConfigDir),
                }
            }),
    {
        match xdg_config_home {
            Some(x) => {
                if !x.is_empty() {
                    return Ok(config_file(x));
                }
            },
            None => {},
        }
        match home {
            Some(h) => {
                let base = join_path(h, ".config");
                Ok(config_file(base.as_str()))
            },
            None => Err(RdevError::NoConfigDir),
        }
    }

    /// Where older versions kept the configuration: in the platform's
    /// configuration directory.
    pub fn legacy_path(config_dir: &str) -> (r: String)
        ensures
            r@ == config_file_in(config_dir@),
    {
        config_file(config_dir)
    }

    /// The file to use: the usual one, unless only the legacy one exists.
    pub fn pick_path(primary: String, primary_exists: bool, legacy: Option<String>, legacy_exists: bool) -> (r: String)
        ensures
            r == if !primary_exists && legacy is Some && legacy_exists { legacy->0 } else { primary },
    {
        if !primary_exists {
            match legacy {
                Some(l) => {
                    if legacy_exists {
                        return l;
                    }
                },
                None => {},
            }
        }
        primary
    }
}

} // verus!
