//! A model of slash-separated paths as std reads them on Unix: their
//! components, joining, and the name of the last component.

use vstd::prelude::*;
use crate::text::{views, lemma_views_push, starts_with, ends_with, concat};

verus! {

/// `s` cut at every `c`; there is always at least one segment.
pub open spec fn split_on(s: Seq<char>, c: char) -> Seq<Seq<char>>
    decreases s.len(),
{
    if s.len() == 0 {
        seq![Seq::<char>::empty()]
    } else {
        let r = split_on(s.drop_last(), c);
        if s.last() == c {
            r.push(Seq::empty())
        } else {
            r.update(r.len() - 1, r.last().push(s.last()))
        }
    }
}

/// Splitting always gives at least one segment.
pub proof fn lemma_split_on_nonempty(s: Seq<char>, c: char)
    ensures
        split_on(s, c).len() >= 1,
    decreases s.len(),
{
    if s.len() > 0 {
        lemma_split_on_nonempty(s.drop_last(), c);
    }
}

/// A segment that names a directory entry: not empty and not `.`.
pub open spec fn is_named(seg: Seq<char>) -> bool {
    seg.len() > 0 && seg != seq!['.']
}

/// The named segments of `segs` from position `from` on, in order.
pub open spec fn named_from(segs: Seq<Seq<char>>, from: int) -> Seq<Seq<char>>
    decreases segs.len(),
{
    if segs.len() == 0 || segs.len() <= from {
        Seq::empty()
    } else {
        let r = named_from(segs.drop_last(), from);
        if is_named(segs.last()) {
            r.push(segs.last())
        } else {
            r
        }
    }
}

/// Where the segments that `named_from(segs, from)` keeps stand in `segs`.
pub open spec fn named_positions(segs: Seq<Seq<char>>, from: int) -> Seq<int>
    decreases segs.len(),
{
    if segs.len() == 0 || segs.len() <= from {
        Seq::empty()
    } else {
        let r = named_positions(segs.drop_last(), from);
        if is_named(segs.last()) {
            r.push(segs.len() - 1)
        } else {
            r
        }
    }
}

/// Each kept segment stands at its position, the positions rise, and no
/// named segment follows the last of them.
pub proof fn lemma_named_positions(segs: Seq<Seq<char>>, from: int)
    requires
        from >= 0,
    ensures
        named_positions(segs, from).len() == named_from(segs, from).len(),
        forall|k: int| 0 <= k < named_positions(segs, from).len() ==>
            from <= #[trigger] named_positions(segs, from)[k] < segs.len()
            && segs[named_positions(segs, from)[k]] == named_from(segs, from)[k],
        forall|j: int| from <= j < segs.len()
            && (named_positions(segs, from).len() == 0 || j > named_positions(segs, from).last())
            ==> !is_named(#[trigger] segs[j]),
    decreases segs.len(),
{
    if segs.len() > from {
        let d = segs.drop_last();
        lemma_named_positions(d, from);
        assert forall|k: int| 0 <= k < named_positions(d, from).len() implies
            segs[#[trigger] named_positions(d, from)[k]] == d[named_positions(d, from)[k]] by {}
        assert forall|j: int| from <= j < segs.len()
            && (named_positions(segs, from).len() == 0 || j > named_positions(segs, from).last())
            implies !is_named(#[trigger] segs[j]) by {
            if j < segs.len() - 1 {
                assert(segs[j] == d[j]);
            }
        }
    }
}

/// Where the components of a path start to be read from its segments: `.`
/// as a first segment is a component of its own.
pub open spec fn comp_from(s: Seq<char>) -> int {
    if !(s.len() > 0 && s[0] == '/') && split_on(s, '/')[0] == seq!['.'] { 1 } else { 0 }
}

/// The component a path starts with, if any: `/` for an absolute path, `.`
/// for one that starts with the current directory.
pub open spec fn comp_lead(s: Seq<char>) -> Seq<Seq<char>> {
    if s.len() > 0 && s[0] == '/' {
        seq![seq!['/']]
    } else if split_on(s, '/')[0] == seq!['.'] {
        seq![seq!['.']]
    } else {
        Seq::empty()
    }
}

/// The components of a path: its leading component, then every named
/// segment.
pub open spec fn components(s: Seq<char>) -> Seq<Seq<char>> {
    comp_lead(s) + named_from(split_on(s, '/'), comp_from(s))
}

/// For each component of `s`, the segment of `s` it was read from (the
/// first one for a leading component).
pub open spec fn comp_positions(s: Seq<char>) -> Seq<int> {
    if comp_lead(s).len() > 0 {
        seq![0int] + named_positions(split_on(s, '/'), comp_from(s))
    } else {
        named_positions(split_on(s, '/'), comp_from(s))
    }
}

/// There is a position for each component, it names a segment, and no
/// named segment follows the last component.
pub proof fn lemma_comp_positions(s: Seq<char>)
    ensures
        comp_positions(s).len() == components(s).len(),
        forall|k: int| 0 <= k < comp_positions(s).len() ==>
            0 <= #[trigger] comp_positions(s)[k] < split_on(s, '/').len(),
        forall|j: int| 0 <= j < split_on(s, '/').len()
            && (comp_positions(s).len() == 0 || j > comp_positions(s).last())
            ==> !is_named(#[trigger] split_on(s, '/')[j]),
{
    let segs = split_on(s, '/');
    let from = comp_from(s);
    lemma_split_on_nonempty(s, '/');
    lemma_named_positions(segs, from);
    let np = named_positions(segs, from);
    let cp = comp_positions(s);
    assert forall|k: int| 0 <= k < cp.len() implies 0 <= #[trigger] cp[k] < segs.len() by {
        if comp_lead(s).len() > 0 && k > 0 {
            assert(cp[k] == np[k - 1]);
        }
    }
    assert forall|j: int| 0 <= j < segs.len() && (cp.len() == 0 || j > cp.last())
        implies !is_named(#[trigger] segs[j]) by {
        if comp_lead(s).len() > 0 {
            if np.len() > 0 {
                assert(cp.last() == np.last());
            }
            if from == 0 && j == 0 {
                assert(cp.len() > 0);
            }
        }
    }
}

/// The last component, when it names an entry (not `/`, `.` or `..`).
pub open spec fn file_name(s: Seq<char>) -> Option<Seq<char>> {
    let c = components(s);
    if c.len() > 0 && c.last() != seq!['/'] && c.last() != seq!['.'] && c.last() != seq!['.', '.'] {
        Some(c.last())
    } else {
        None
    }
}

/// `seg` appended to `base` as std does: an absolute `seg` replaces `base`,
/// and a separator is added unless `base` is empty or ends with one.
pub open spec fn path_join(base: Seq<char>, seg: Seq<char>) -> Seq<char> {
    if seg.len() > 0 && seg[0] == '/' {
        seg
    } else if base.len() == 0 || base.last() == '/' {
        base + seg
    } else {
        base + seq!['/'] + seg
    }
}

/// The segments of `s` between occurrences of `sep`.
pub fn split_at_char(s: &str, sep: char) -> (r: Vec<String>)
    ensures
        views(r@) == split_on(s@, sep),
{
    let len = s.unicode_len();
    let mut r: Vec<String> = Vec::new();
    let mut start: usize = 0;
    let mut i: usize = 0;
    proof {
        assert(s@.subrange(0, 0) =~= Seq::<char>::empty());
        assert(views(r@) =~= Seq::<Seq<char>>::empty());
        assert(views(r@).push(s@.subrange(0, 0)) =~= split_on(s@.subrange(0, 0), sep));
    }
    for c in it: s.chars()
        invariant
            it.seq() == s@,
            len == s@.len(),
            i == it.index(),
            start <= i <= len,
            views(r@).push(s@.subrange(start as int, i as int)) == split_on(s@.subrange(0, i as int), sep),
    {
        assert(c == s@[i as int]);
        let ghost prev = split_on(s@.subrange(0, i as int), sep);
        assert(s@.subrange(0, i + 1).drop_last() =~= s@.subrange(0, i as int));
        if c == sep {
            let seg = s.substring_char(start, i);
            let ghost r0 = r@;
            r.push(seg.to_owned());
            proof {
                lemma_views_push(r0, r@.last());
                assert(views(r@) =~= prev);
                assert(s@.subrange((i + 1) as int, (i + 1) as int) =~= Seq::<char>::empty());
            }
            start = i + 1;
        } else {
            proof {
                assert(s@.subrange(start as int, i + 1) =~= s@.subrange(start as int, i as int).push(c));
                assert(views(r@).push(s@.subrange(start as int, i + 1)) =~= prev.update(prev.len() - 1, prev.last().push(c)));
            }
        }
        i = i + 1;
    }
    let last = s.substring_char(start, len);
    let ghost r0 = r@;
    r.push(last.to_owned());
    proof {
        lemma_views_push(r0, r@.last());
        assert(s@.subrange(0, len as int) =~= s@);
        assert(views(r@) =~= split_on(s@, sep));
    }
    r
}

pub(crate) fn is_named_segment(seg: &str) -> (r: bool)
    ensures
        r == is_named(seg@),
{
    let n = seg.unicode_len();
    if n == 0 {
        return false;
    }
    if n == 1 && seg.get_char(0) == '.' {
        assert(seg@ =~= seq!['.']);
        return false;
    }
    proof {
        if seg@ == seq!['.'] {
            assert(seg@[0] == '.');
        }
    }
    true
}

/// The components of the path `s`, each with the position of the segment
/// it was read from.
pub fn path_parts(s: &str) -> (r: (Vec<String>, Vec<usize>))
    ensures
        views(r.0@) == components(s@),
        r.1@.len() == comp_positions(s@).len(),
        forall|k: int| 0 <= k < r.1@.len() ==> #[trigger] r.1@[k] as int == comp_positions(s@)[k],
{
    let segs = split_at_char(s, '/');
    proof { lemma_split_on_nonempty(s@, '/'); }
    let mut r: Vec<String> = Vec::new();
    let mut pos: Vec<usize> = Vec::new();
    let n = s.unicode_len();
    let mut from: usize = 0;
    if n > 0 && s.get_char(0) == '/' {
        r.push(String::from_str("/"));
        pos.push(0);
        proof {
            reveal_strlit("/");
            assert("/"@.len() == 1);
            assert(r@[0]@ =~= seq!['/']);
            assert(views(r@) =~= seq![seq!['/']]);
        }
    } else if segs[0].unicode_len() == 1 && segs[0].as_str().get_char(0) == '.' {
        r.push(String::from_str("."));
        pos.push(0);
        from = 1;
        proof {
            reveal_strlit(".");
            assert("."@.len() == 1);
            assert(r@[0]@ =~= seq!['.']);
            assert(views(segs@)[0] =~= seq!['.']);
            assert(views(r@) =~= seq![seq!['.']]);
        }
    } else {
        proof {
            if views(segs@)[0] == seq!['.'] {
                assert(segs@[0]@[0] == '.');
            }
        }
    }
    let ghost lead = views(r@);
    let ghost lead_pos = pos@.map_values(|p: usize| p as int);
    proof {
        assert(lead == comp_lead(s@));
        assert(from == comp_from(s@));
        if lead.len() > 0 {
            assert(lead_pos =~= seq![0int]);
        } else {
            assert(lead_pos =~= Seq::<int>::empty());
        }
        assert(views(segs@).subrange(0, from as int).len() <= from);
    }
    let mut i: usize = from;
    while i < segs.len()
        invariant
            from <= i <= segs@.len(),
            from == comp_from(s@),
            views(segs@) == split_on(s@, '/'),
            lead == comp_lead(s@),
            lead.len() <= 1,
            lead.len() > 0 ==> lead_pos == seq![0int],
            lead.len() == 0 ==> lead_pos == Seq::<int>::empty(),
            views(r@) == lead + named_from(views(segs@).subrange(0, i as int), from as int),
            pos@.map_values(|p: usize| p as int) == lead_pos + named_positions(views(segs@).subrange(0, i as int), from as int),
        decreases segs.len() - i,
    {
        let ghost before = views(r@);
        let ghost before_v = r@;
        let ghost before_p = pos@;
        let ghost sub = views(segs@).subrange(0, i + 1);
        proof {
            assert(sub.drop_last() =~= views(segs@).subrange(0, i as int));
            assert(sub.last() == segs@[i as int]@);
        }
        if is_named_segment(segs[i].as_str()) {
            r.push(segs[i].clone());
            pos.push(i);
            proof {
                lemma_views_push(before_v, segs@[i as int]);
                assert(views(r@) =~= before.push(segs@[i as int]@));
                assert(pos@.map_values(|p: usize| p as int) =~= before_p.map_values(|p: usize| p as int).push(i as int));
            }
        } else {
            proof {
                assert(views(r@) =~= before);
            }
        }
        i = i + 1;
    }
    proof {
        assert(views(segs@).subrange(0, segs@.len() as int) =~= views(segs@));
        let m = pos@.map_values(|p: usize| p as int);
        assert(m =~= comp_positions(s@));
        assert forall|k: int| 0 <= k < pos@.len() implies #[trigger] pos@[k] as int == comp_positions(s@)[k] by {
            assert(m[k] == pos@[k] as int);
        }
    }
    (r, pos)
}

/// The components of the path `s`.
pub fn path_components(s: &str) -> (r: Vec<String>)
    ensures
        views(r@) == components(s@),
{
    let (r, _pos) = path_parts(s);
    r
}

/// `seg` appended to the path `base`.
pub fn join_path(base: &str, seg: &str) -> (r: String)
    ensures
        r@ == path_join(base@, seg@),
{
    proof {
        reveal_strlit("/");
        assert("/"@ =~= seq!['/']);
    }
    if starts_with(seg, "/") {
        proof {
            assert(seg@[0] == seg@.subrange(0, 1)[0]);
        }
        return String::from_str(seg);
    }
    proof {
        if seg@.len() > 0 && seg@[0] == '/' {
            assert(seg@.subrange(0, 1) =~= seq!['/']);
        }
    }
    if base.unicode_len() == 0 || ends_with(base, "/") {
        proof {
            if base@.len() > 0 {
                assert(base@.last() == base@.subrange(base@.len() - 1, base@.len() as int)[0]);
            }
        }
        return concat(base, seg);
    }
    proof {
        if base@.len() > 0 && base@.last() == '/' {
            assert(base@.subrange(base@.len() - 1, base@.len() as int) =~= seq!['/']);
        }
    }
    let mut r = concat(base, "/");
    r.append(seg);
    r
}

} // verus!
