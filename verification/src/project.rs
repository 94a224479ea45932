//! The local project: the directory tree that is synced, its name, and
//! where the current directory lies inside it.

use vstd::prelude::*;
use crate::error::RdevError;
use crate::paths::{
    components, comp_positions, comp_lead, file_name, path_join, path_components, path_parts, join_path, split_on,
    split_at_char, is_named, is_named_segment, lemma_comp_positions,
};
use crate::text::{join_with, views, join, same_text, starts_with, lemma_views_push};

verus! {

/// The local project.
#[derive(Debug)]
pub struct Project {
    /// the directory that is synced: the repository root, or the current
    /// directory outside a repository
    pub root: String,
    /// the current directory relative to `root` (empty at the root)
    pub rel_cwd: String,
    /// the name of `root`, which is also the remote directory's name
    pub name: String,
}

/// Where the first named segment of `segs` at or after `i` stands
/// (`segs.len()` when there is none).
pub open spec fn first_named_from(segs: Seq<Seq<char>>, i: int) -> int
    decreases segs.len() - i,
{
    if i >= segs.len() {
        segs.len() as int
    } else if is_named(segs[i]) {
        i
    } else {
        first_named_from(segs, i + 1)
    }
}

/// One past the last named segment of `segs` between `lo` and `j` (`lo`
/// when there is none).
pub open spec fn end_named_before(segs: Seq<Seq<char>>, j: int, lo: int) -> int
    decreases j - lo,
{
    if j <= lo {
        lo
    } else if is_named(segs[j - 1]) {
        j
    } else {
        end_named_before(segs, j - 1, lo)
    }
}

/// The current directory `cwd` relative to `root`, as std's `strip_prefix`
/// gives it: when the components of `root` begin those of `cwd`, the text of
/// `cwd` after the segment that holds the last of them, without the unnamed
/// segments (empty or `.`) at either end; otherwise empty.
pub open spec fn relative_part(root: Seq<char>, cwd: Seq<char>) -> Seq<char> {
    let rc = components(root);
    let cc = components(cwd);
    if 0 < rc.len() <= cc.len() && cc.subrange(0, rc.len() as int) == rc {
        let segs = split_on(cwd, '/');
        let lo = first_named_from(segs, comp_positions(cwd)[rc.len() - 1] + 1);
        join_with(segs.subrange(lo, end_named_before(segs, segs.len() as int, lo)), seq!['/'])
    } else {
        Seq::empty()
    }
}

/// `r` is what `make` gives for the project rooted at `root`.
pub open spec fn made_from(r: Result<Project, RdevError>, root: Seq<char>, cwd: Seq<char>) -> bool {
    match file_name(root) {
        Some(name) => r matches Ok(p) && p.root@ == root && p.name@ == name && p.rel_cwd@ == relative_part(root, cwd),
        None => r == Err::<Project, RdevError>(RdevError::NoProjectName),
    }
}

/// The project rooted at `root`, seen from the current directory `cwd`.
pub fn make(root: &str, cwd: &str) -> (r: Result<Project, RdevError>)
    ensures
        made_from(r, root@, cwd@),
{
    let rc = path_components(root);
    let (cc, cpos) = path_parts(cwd);
    let n = rc.len();
    if n == 0 {
        return Err(RdevError::NoProjectName);
    }
    let last = rc[n - 1].as_str();
    let bad = same_text(last, "/") || same_text(last, ".") || same_text(last, "..");
    proof {
        reveal_strlit("/");
        reveal_strlit(".");
        reveal_strlit("..");
        assert("/"@ =~= seq!['/']);
        assert("."@ =~= seq!['.']);
        assert(".."@ =~= seq!['.', '.']);
        assert(views(rc@).last() == last@);
    }
    if bad {
        return Err(RdevError::NoProjectName);
    }
    let name = rc[n - 1].clone();
    let mut is_prefix = n <= cc.len();
    let mut i: usize = 0;
    while is_prefix && i < n
        invariant
            views(rc@) == components(root@),
            views(cc@) == components(cwd@),
            n == rc@.len(),
            i <= n,
            is_prefix ==> n <= cc@.len(),
            is_prefix ==> views(cc@).subrange(0, i as int) == views(rc@).subrange(0, i as int),
            !is_prefix ==> !(n <= cc@.len() && views(cc@).subrange(0, n as int) == views(rc@)),
        decreases n - i + if is_prefix { 1int } else { 0int },
    {
        if same_text(rc[i].as_str(), cc[i].as_str()) {
            proof {
                assert(views(cc@).subrange(0, i + 1) =~= views(cc@).subrange(0, i as int).push(cc@[i as int]@));
                assert(views(rc@).subrange(0, i + 1) =~= views(rc@).subrange(0, i as int).push(rc@[i as int]@));
            }
            i = i + 1;
        } else {
            proof {
                if n <= cc@.len() && views(cc@).subrange(0, n as int) == views(rc@) {
                    assert(views(cc@).subrange(0, n as int)[i as int] == views(rc@)[i as int]);
                }
            }
            is_prefix = false;
        }
    }
    proof {
        if is_prefix {
            assert(views(rc@).subrange(0, n as int) =~= views(rc@));
        }
    }
    let rel = if is_prefix {
        let segs = split_at_char(cwd, '/');
        proof {
            lemma_comp_positions(cwd@);
            assert(cpos@[n - 1] as int == comp_positions(cwd@)[n - 1]);
        }
        let len = segs.len();
        let start = cpos[n - 1] + 1;
        let ghost sv = views(segs@);
        let mut lo: usize = start;
        while lo < len && !is_named_segment(segs[lo].as_str())
            invariant
                start <= lo <= len,
                len == segs@.len(),
                sv == views(segs@),
                first_named_from(sv, start as int) == first_named_from(sv, lo as int),
            decreases len - lo,
        {
            lo = lo + 1;
        }
        let mut hi: usize = len;
        while hi > lo && !is_named_segment(segs[hi - 1].as_str())
            invariant
                lo <= hi <= len,
                len == segs@.len(),
                sv == views(segs@),
                end_named_before(sv, len as int, lo as int) == end_named_before(sv, hi as int, lo as int),
            decreases hi,
        {
            hi = hi - 1;
        }
        let mut rest: Vec<String> = Vec::new();
        let mut k: usize = lo;
        while k < hi
            invariant
                lo <= k <= hi <= len,
                len == segs@.len(),
                views(rest@) == views(segs@).subrange(lo as int, k as int),
            decreases hi - k,
        {
            let ghost r0 = rest@;
            rest.push(segs[k].clone());
            proof {
                lemma_views_push(r0, segs@[k as int]);
                assert(views(rest@) =~= views(segs@).subrange(lo as int, k + 1));
            }
            k = k + 1;
        }
        proof {
            reveal_strlit("/");
            assert("/"@ =~= seq!['/']);
        }
        join(&rest, "/")
    } else {
        String::new()
    };
    Ok(Project { root: String::from_str(root), rel_cwd: rel, name })
}

/// With no named segment from `i` on, there is no first one.
proof fn lemma_first_named_none(segs: Seq<Seq<char>>, i: int)
    requires
        0 <= i <= segs.len(),
        forall|j: int| i <= j < segs.len() ==> !is_named(#[trigger] segs[j]),
    ensures
        first_named_from(segs, i) == segs.len(),
    decreases segs.len() - i,
{
    if i < segs.len() {
        lemma_first_named_none(segs, i + 1);
    }
}

/// Seen from its own root, a project's relative directory is empty.
pub proof fn law_relative_part_at_root(root: Seq<char>)
    ensures
        relative_part(root, root) == Seq::<char>::empty(),
{
    let c = components(root);
    assert(c.subrange(0, c.len() as int) =~= c);
    if c.len() > 0 {
        lemma_comp_positions(root);
        let segs = split_on(root, '/');
        let start = comp_positions(root)[c.len() - 1] + 1;
        assert(comp_positions(root).last() == comp_positions(root)[c.len() - 1]);
        lemma_first_named_none(segs, start);
        assert(segs.subrange(segs.len() as int, segs.len() as int) =~= Seq::<Seq<char>>::empty());
    }
}

/// The text of `cwd` that holds its first `k` components, as std's `parent`
/// leaves it: `/` for the root alone, else the segments up to the one the
/// `k`-th component was read from (empty for no component).
pub open spec fn leading_text(cwd: Seq<char>, k: int) -> Seq<char> {
    if k <= 0 {
        Seq::empty()
    } else if k == 1 && cwd.len() > 0 && cwd[0] == '/' {
        seq!['/']
    } else {
        join_with(split_on(cwd, '/').subrange(0, comp_positions(cwd)[k - 1] + 1), seq!['/'])
    }
}

/// The directories from `cwd` up to the top: `cwd` itself, then the text
/// that holds each shorter run of its components, down to `/` for an
/// absolute path and to the empty path for a relative one.
pub open spec fn ancestor_list(cwd: Seq<char>) -> Seq<Seq<char>> {
    let c = components(cwd);
    let m: int = if cwd.len() > 0 && cwd[0] == '/' { 1 } else { 0 };
    Seq::new((c.len() - m + 1) as nat, |i: int| if i == 0 { cwd } else { leading_text(cwd, c.len() - i) })
}

/// The directories where the project root is looked for, nearest first.
pub fn ancestors(cwd: &str) -> (r: Vec<String>)
    ensures
        views(r@) == ancestor_list(cwd@),
{
    let (c, cpos) = path_parts(cwd);
    let segs = split_at_char(cwd, '/');
    let absolute = starts_with(cwd, "/");
    proof {
        reveal_strlit("/");
        assert("/"@ =~= seq!['/']);
        if cwd@.len() > 0 && cwd@[0] == '/' {
            assert(cwd@.subrange(0, 1) =~= seq!['/']);
        }
        if absolute {
            assert(cwd@[0] == cwd@.subrange(0, 1)[0]);
            assert(c@.len() >= 1) by {
                assert(views(c@)[0] == seq!['/']);
            }
        }
        lemma_comp_positions(cwd@);
    }
    let m: usize = if absolute { 1 } else { 0 };
    let mut r: Vec<String> = Vec::new();
    r.push(String::from_str(cwd));
    let ghost target = ancestor_list(cwd@);
    proof {
        assert(views(r@) =~= target.subrange(0, 1));
    }
    let mut k: usize = c.len();
    while k > m
        invariant
            views(c@) == components(cwd@),
            views(segs@) == split_on(cwd@, '/'),
            cpos@.len() == c@.len(),
            forall|j: int| 0 <= j < cpos@.len() ==> #[trigger] cpos@[j] as int == comp_positions(cwd@)[j],
            forall|j: int| 0 <= j < comp_positions(cwd@).len() ==>
                0 <= #[trigger] comp_positions(cwd@)[j] < split_on(cwd@, '/').len(),
            comp_positions(cwd@).len() == components(cwd@).len(),
            m <= k <= c@.len(),
            absolute == (cwd@.len() > 0 && cwd@[0] == '/'),
            m == (if absolute { 1int } else { 0int }),
            target == ancestor_list(cwd@),
            views(r@) == target.subrange(0, (c@.len() - k + 1) as int),
        decreases k,
    {
        k = k - 1;
        proof {
            reveal_strlit("/");
            assert("/"@ =~= seq!['/']);
        }
        let p = if k == 0 {
            String::new()
        } else if k == 1 && absolute {
            String::from_str("/")
        } else {
            assert(cpos@[k - 1] as int == comp_positions(cwd@)[k - 1]);
            assert(0 <= comp_positions(cwd@)[k - 1] < split_on(cwd@, '/').len());
            assert(views(segs@).len() == segs@.len());
            let ns = segs.len();
            assert(cpos@[k - 1] < ns);
            let end = cpos[k - 1] + 1;
            let mut prefix: Vec<String> = Vec::new();
            let mut j: usize = 0;
            while j < end
                invariant
                    j <= end <= segs@.len(),
                    views(prefix@) == views(segs@).subrange(0, j as int),
                decreases end - j,
            {
                let ghost p0 = prefix@;
                prefix.push(segs[j].clone());
                proof {
                    lemma_views_push(p0, segs@[j as int]);
                    assert(views(prefix@) =~= views(segs@).subrange(0, j + 1));
                }
                j = j + 1;
            }
            join(&prefix, "/")
        };
        let ghost r0 = r@;
        r.push(p);
        proof {
            lemma_views_push(r0, p);
            let idx = c@.len() - k;
            assert(target[idx] == leading_text(cwd@, k as int));
            assert(p@ == leading_text(cwd@, k as int));
            assert(views(r@) =~= target.subrange(0, (c@.len() - k + 1) as int));
        }
    }
    proof {
        assert(target.len() == c@.len() - m + 1);
        assert(views(r@) =~= target);
    }
    r
}

/// The first of `dirs` (from position `i` on) whose flag is set.
pub open spec fn first_flagged(dirs: Seq<Seq<char>>, flags: Seq<bool>, i: int) -> Option<Seq<char>>
    decreases dirs.len() - i,
{
    if i < 0 || i >= dirs.len() || i >= flags.len() {
        None
    } else if flags[i] {
        Some(dirs[i])
    } else {
        first_flagged(dirs, flags, i + 1)
    }
}

/// The project root: the nearest ancestor of `cwd` that holds a repository
/// (`has_repo[i]` for the `i`-th of `ancestors(cwd)`), else `cwd` itself.
pub open spec fn detected_root(cwd: Seq<char>, has_repo: Seq<bool>) -> Seq<char> {
    match first_flagged(ancestor_list(cwd), has_repo, 0) {
        Some(d) => d,
        None => cwd,
    }
}

/// From position `k` on, the first flagged directory is the one at `i` when
/// none between them is flagged.
proof fn lemma_first_flagged_at(dirs: Seq<Seq<char>>, flags: Seq<bool>, k: int, i: int)
    requires
        0 <= k <= i < dirs.len(),
        i < flags.len(),
        flags[i],
        forall|j: int| k <= j < i ==> !#[trigger] flags[j],
    ensures
        first_flagged(dirs, flags, k) == Some(dirs[i]),
    decreases i - k,
{
    if k < i {
        lemma_first_flagged_at(dirs, flags, k + 1, i);
    }
}

/// From position `k` on, no flag gives no directory.
proof fn lemma_first_flagged_none(dirs: Seq<Seq<char>>, flags: Seq<bool>, k: int)
    requires
        0 <= k,
        forall|j: int| k <= j < dirs.len() && j < flags.len() ==> !#[trigger] flags[j],
    ensures
        first_flagged(dirs, flags, k) is None,
    decreases dirs.len() - k,
{
    if k < dirs.len() && k < flags.len() {
        lemma_first_flagged_none(dirs, flags, k + 1);
    }
}

/// The search for the repository goes all the way up: the ancestors are
/// `cwd` itself, then one directory per component above it, ending at `/`
/// for an absolute path and at the empty path for a relative one.
pub proof fn law_ancestors_reach_the_top(cwd: Seq<char>)
    ensures
        ancestor_list(cwd).len() == components(cwd).len() + 1 - (if cwd.len() > 0 && cwd[0] == '/' { 1int } else { 0int }),
        ancestor_list(cwd)[0] == cwd,
        ancestor_list(cwd).len() > 1 ==> ancestor_list(cwd).last()
            == (if cwd.len() > 0 && cwd[0] == '/' { seq!['/'] } else { Seq::<char>::empty() }),
{
    let c = components(cwd);
    if cwd.len() > 0 && cwd[0] == '/' {
        assert(comp_lead(cwd).len() == 1);
        assert(c.len() >= 1);
    }
}

/// The project root is the nearest ancestor holding a repository, however
/// far above the current directory it is; with none, it is the current
/// directory itself.
pub proof fn law_detect_nearest_repository(cwd: Seq<char>, has_repo: Seq<bool>, i: int)
    ensures
        0 <= i < ancestor_list(cwd).len() && i < has_repo.len() && has_repo[i]
            && (forall|j: int| 0 <= j < i ==> !#[trigger] has_repo[j])
            ==> detected_root(cwd, has_repo) == ancestor_list(cwd)[i],
        (forall|j: int| 0 <= j < ancestor_list(cwd).len() && j < has_repo.len() ==> !#[trigger] has_repo[j])
            ==> detected_root(cwd, has_repo) == cwd,
{
    let dirs = ancestor_list(cwd);
    if 0 <= i < dirs.len() && i < has_repo.len() && has_repo[i] && (forall|j: int| 0 <= j < i ==> !#[trigger] has_repo[j]) {
        lemma_first_flagged_at(dirs, has_repo, 0, i);
    }
    if forall|j: int| 0 <= j < dirs.len() && j < has_repo.len() ==> !#[trigger] has_repo[j] {
        lemma_first_flagged_none(dirs, has_repo, 0);
    }
}

/// The project seen from `cwd`, given which of its ancestors hold a
/// repository.
pub fn detect(cwd: &str, has_repo: &Vec<bool>) -> (r: Result<Project, RdevError>)
    ensures
        made_from(r, detected_root(cwd@, has_repo@), cwd@),
{
    let dirs = ancestors(cwd);
    let mut i: usize = 0;
    while i < dirs.len() && i < has_repo.len()
        invariant
            views(dirs@) == ancestor_list(cwd@),
            i <= dirs@.len(),
            first_flagged(ancestor_list(cwd@), has_repo@, 0) == first_flagged(ancestor_list(cwd@), has_repo@, i as int),
        decreases dirs.len() - i,
    {
        if has_repo[i] {
            proof {
                assert(views(dirs@)[i as int] == dirs@[i as int]@);
            }
            return make(dirs[i].as_str(), cwd);
        }
        i = i + 1;
    }
    make(cwd, cwd)
}

/// The files whose presence at the project root means that mise manages
/// the project's tools.
pub open spec fn mise_file_names() -> Seq<Seq<char>> {
    seq!["mise.toml"@, ".mise.toml"@, ".tool-versions"@]
}

impl Project {
    /// The paths of the mise declaration files this project may have.
    pub fn mise_files(&self) -> (r: Vec<String>)
        ensures
            r@.len() == 3,
            forall|i: int| 0 <= i < 3 ==> #[trigger] r@[i]@ == path_join(self.root@, mise_file_names()[i]),
    {
        let mut r: Vec<String> = Vec::new();
        r.push(join_path(self.root.as_str(), "mise.toml"));
        r.push(join_path(self.root.as_str(), ".mise.toml"));
        r.push(join_path(self.root.as_str(), ".tool-versions"));
        r
    }

    /// Whether mise manages the project: one of `mise_files` exists
    /// (`exists[i]` tells for the `i`-th).
    pub fn uses_mise(&self, exists: &Vec<bool>) -> (r: bool)
        ensures
            r == exists@.contains(true),
    {
        let mut i: usize = 0;
        while i < exists.len()
            invariant
                i <= exists@.len(),
                forall|k: int| 0 <= k < i ==> !exists@[k],
            decreases exists.len() - i,
        {
            if exists[i] {
                return true;
            }
            i = i + 1;
        }
        false
    }
}

} // verus!
