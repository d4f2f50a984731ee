//! The segment matcher: one compiled component program against one name.
//!
//! The meaning of a program is the recursive predicate [`am`]; the
//! executable matcher implements it by backtracking over split points.
//! Matching is defined on whole characters; a class range compares code
//! points.

use vstd::prelude::*;
use crate::pattern::Atom;
use crate::pattern::ClassItem;
use crate::pattern::CompiledPattern;
use crate::pattern::GroupOp;
use crate::pattern::SPat;

verus! {

/// One class item matches a code point.
pub open spec fn item_match(it: ClassItem, c: u32) -> bool {
    match it {
        ClassItem::Ch(d) => c == d,
        ClassItem::Between(a, b) => a <= c && c <= b,
    }
}

/// Some item of the class range matches the code point.
pub open spec fn class_has(p: SPat, start: int, len: int, c: u32) -> bool {
    exists|j: int| start <= j < start + len && item_match(#[trigger] p.items[j], c)
}

/// The atoms of program `q`, from relative index `ai` on, match the whole
/// of `name`.
///
/// A `*` consumes any run; a group consumes a span that one of its
/// alternative programs (named by an absolute index `t` into the
/// alternative arena) matches, with the repetition or exclusion its
/// operator asks for; each repetition of a `*( )` or `+( )` group
/// consumes at least one character.
pub open spec fn am(p: SPat, q: int, ai: int, name: Seq<char>) -> bool
    decreases name.len(), q, p.progs[q].len - ai, 1int,
        when p.wf() && 0 <= q < p.progs.len() && 0 <= ai <= p.progs[q].len
        via am_decreases
{
    let rng = p.progs[q];
    if ai == rng.len {
        name.len() == 0
    } else {
        match p.atoms[rng.start + ai] {
            Atom::Lit(code) => name.len() > 0 && (name[0] as u32) == code && am(
                p,
                q,
                ai + 1,
                name.drop_first(),
            ),
            Atom::Any => name.len() > 0 && am(p, q, ai + 1, name.drop_first()),
            Atom::Star => am(p, q, ai + 1, name) || (name.len() > 0 && am(
                p,
                q,
                ai,
                name.drop_first(),
            )),
            Atom::Class { start, len, negated } => name.len() > 0 && (class_has(
                p,
                start as int,
                len as int,
                name[0] as u32,
            ) != negated) && am(p, q, ai + 1, name.drop_first()),
            Atom::Group { op, start, len } => match op {
                GroupOp::Alts | GroupOp::One => exists|k: int, t: int|
                    #![trigger p.alts[t], name.take(k)]
                    0 <= k <= name.len() && start <= t < start + len && am(
                        p,
                        p.alts[t] as int,
                        0,
                        name.take(k),
                    ) && am(p, q, ai + 1, name.skip(k)),
                GroupOp::ZeroOne => am(p, q, ai + 1, name) || (exists|k: int, t: int|
                    #![trigger p.alts[t], name.take(k)]
                    0 <= k <= name.len() && start <= t < start + len && am(
                        p,
                        p.alts[t] as int,
                        0,
                        name.take(k),
                    ) && am(p, q, ai + 1, name.skip(k))),
                GroupOp::ZeroMore => am_rep(p, q, ai, name),
                GroupOp::OneMore => exists|k: int, t: int|
                    #![trigger p.alts[t], name.take(k)]
                    1 <= k <= name.len() && start <= t < start + len && am(
                        p,
                        p.alts[t] as int,
                        0,
                        name.take(k),
                    ) && am_rep(p, q, ai, name.skip(k)),
                GroupOp::Not => exists|k: int|
                    0 <= k <= name.len() && (forall|t: int|
                        start <= t < start + len ==> !am(
                            p,
                            (#[trigger] p.alts[t]) as int,
                            0,
                            name.take(k),
                        )) && am(p, q, ai + 1, #[trigger] name.skip(k)),
            },
        }
    }
}

/// Zero or more further repetitions of the group at `ai`, then the rest
/// of the program from `ai + 1`, match the whole of `name`.
pub open spec fn am_rep(p: SPat, q: int, ai: int, name: Seq<char>) -> bool
    decreases name.len(), q, p.progs[q].len - ai, 0int,
        when p.wf() && 0 <= q < p.progs.len() && 0 <= ai < p.progs[q].len
        via am_rep_decreases
{
    match p.atoms[p.progs[q].start + ai] {
        Atom::Group { op, start, len } => am(p, q, ai + 1, name) || (exists|k: int, t: int|
            #![trigger p.alts[t], name.take(k)]
            1 <= k <= name.len() && start <= t < start + len && am(
                p,
                p.alts[t] as int,
                0,
                name.take(k),
            ) && am_rep(p, q, ai, name.skip(k))),
        _ => false,
    }
}

#[via_fn]
proof fn am_decreases(p: SPat, q: int, ai: int, name: Seq<char>) {
    if p.wf() && 0 <= q < p.progs.len() && 0 <= ai <= p.progs[q].len {
        assert(p.prog_wf(q));
        if ai < p.progs[q].len {
            assert(p.atom_wf(p.atoms[p.progs[q].start + ai], q));
        }
    }
}

#[via_fn]
proof fn am_rep_decreases(p: SPat, q: int, ai: int, name: Seq<char>) {
    if p.wf() && 0 <= q < p.progs.len() && 0 <= ai < p.progs[q].len {
        assert(p.prog_wf(q));
        assert(p.atom_wf(p.atoms[p.progs[q].start + ai], q));
    }
}

/// The program begins with a `*`, `?` or class wildcard, which may not
/// match a leading dot unless the period option is on.
pub open spec fn first_wild(p: SPat, q: int) -> bool {
    p.progs[q].len > 0 && match p.atoms[p.progs[q].start as int] {
        Atom::Any => true,
        Atom::Star => true,
        Atom::Class { start, len, negated } => true,
        _ => false,
    }
}

/// Program `q` matches the entry name, under the leading-dot rule: a name
/// starting with `.` is matched by a program whose first atom is a
/// wildcard only when `period` is on; a literal `.` always may.
pub open spec fn comp_match(p: SPat, q: int, name: Seq<char>, period: bool) -> bool {
    if !period && name.len() > 0 && name[0] == '.' && first_wild(p, q) {
        false
    } else {
        am(p, q, 0, name)
    }
}

/// Subrange arithmetic: taking or skipping within a subrange.
proof fn sub_split(name: Seq<char>, lo: int, hi: int, k: int)
    requires
        0 <= lo <= hi <= name.len(),
        lo <= k <= hi,
    ensures
        name.subrange(lo, hi).take(k - lo) == name.subrange(lo, k),
        name.subrange(lo, hi).skip(k - lo) == name.subrange(k, hi),
{
    assert(name.subrange(lo, hi).take(k - lo) =~= name.subrange(lo, k));
    assert(name.subrange(lo, hi).skip(k - lo) =~= name.subrange(k, hi));
}

/// Subrange arithmetic: the head and tail of a nonempty subrange.
proof fn sub_first(name: Seq<char>, lo: int, hi: int)
    requires
        0 <= lo < hi <= name.len(),
    ensures
        name.subrange(lo, hi).len() == hi - lo,
        name.subrange(lo, hi)[0] == name[lo],
        name.subrange(lo, hi).drop_first() == name.subrange(lo + 1, hi),
{
    assert(name.subrange(lo, hi).drop_first() =~= name.subrange(lo + 1, hi));
}

/// Alternative `t` matches `name[lo..k]` and the rest of the program
/// matches `name[k..hi]`.
pub open spec fn split_ok(
    p: SPat,
    q: int,
    ai: int,
    t: int,
    name: Seq<char>,
    lo: int,
    k: int,
    hi: int,
) -> bool {
    &&& am(p, p.alts[t] as int, 0, name.subrange(lo, k))
    &&& am(p, q, ai + 1, name.subrange(k, hi))
}

/// Alternative `t` matches `name[lo..k]` and further repetitions plus the
/// rest of the program match `name[k..hi]`.
pub open spec fn rep_split_ok(
    p: SPat,
    q: int,
    ai: int,
    t: int,
    name: Seq<char>,
    lo: int,
    k: int,
    hi: int,
) -> bool {
    &&& am(p, p.alts[t] as int, 0, name.subrange(lo, k))
    &&& am_rep(p, q, ai, name.subrange(k, hi))
}

/// No alternative of the range matches `name[lo..k]`, and the rest of the
/// program matches `name[k..hi]`.
pub open spec fn not_split_ok(
    p: SPat,
    q: int,
    ai: int,
    gs: int,
    gl: int,
    name: Seq<char>,
    lo: int,
    k: int,
    hi: int,
) -> bool {
    &&& (forall|t: int|
        gs <= t < gs + gl ==> !am(p, (#[trigger] p.alts[t]) as int, 0, name.subrange(lo, k)))
    &&& am(p, q, ai + 1, name.subrange(k, hi))
}

/// The common context of a group search: a well-formed pattern, a group
/// of `gl` alternatives at `gs` inside program `q`, and a span of `name`.
pub open spec fn grp_ctx(
    p: SPat,
    q: int,
    ai: int,
    gs: int,
    gl: int,
    name: Seq<char>,
    lo: int,
    hi: int,
) -> bool {
    &&& p.wf()
    &&& 0 <= q < p.progs.len()
    &&& 0 <= ai < p.progs[q].len
    &&& gs + gl <= p.alts.len()
    &&& (forall|t: int| gs <= t < gs + gl ==> (#[trigger] p.alts[t]) < q)
    &&& 0 <= lo <= hi <= name.len()
}

/// The atom at `ai` of program `q` is a group with this alternative range.
pub open spec fn grp_atom(p: SPat, q: int, ai: int, gs: int, gl: int) -> bool {
    match p.atoms[p.progs[q].start + ai] {
        Atom::Group { op, start, len } => start == gs && len == gl,
        _ => false,
    }
}

/// Does some item of the class range match the code point?
fn class_match(p: &CompiledPattern, start: usize, len: usize, c: u32) -> (r: bool)
    requires
        start + len <= p@.items.len(),
    ensures
        r == class_has(p@, start as int, len as int, c),
{
    proof {
        broadcast use vstd::std_specs::vec::group_vec_axioms;

        assert(p.items.len() == p@.items.len());
    }
    let mut j: usize = 0;
    while j < len
        invariant
            start + len <= p@.items.len(),
            p@.items.len() <= usize::MAX,
            0 <= j <= len,
            forall|j2: int| start <= j2 < start + j ==> !item_match(#[trigger] p@.items[j2], c),
        decreases len - j,
    {
        let hit = match p.items[start + j] {
            ClassItem::Ch(d) => c == d,
            ClassItem::Between(a, b) => a <= c && c <= b,
        };
        if hit {
            return true;
        }
        j = j + 1;
    }
    false
}

/// Does no alternative of the group match `name[lo..k]`?
fn none_match(
    p: &CompiledPattern,
    q: usize,
    gs: usize,
    gl: usize,
    name: &Vec<char>,
    lo: usize,
    k: usize,
) -> (r: bool)
    requires
        p@.wf(),
        q < p@.progs.len(),
        gs + gl <= p@.alts.len(),
        forall|t: int| gs <= t < gs + gl ==> (#[trigger] p@.alts[t]) < q,
        lo <= k,
        k <= name@.len(),
    ensures
        r == (forall|t: int|
            gs <= t < gs + gl ==> !am(p@, (#[trigger] p@.alts[t]) as int, 0, name@.subrange(
                lo as int,
                k as int,
            ))),
    decreases k - lo, q, 0int, 0int,
{
    proof {
        broadcast use vstd::std_specs::vec::group_vec_axioms;

        assert(p.alts.len() == p@.alts.len());
    }
    let mut j: usize = 0;
    while j < gl
        invariant
            p@.wf(),
            q < p@.progs.len(),
            gs + gl <= p@.alts.len(),
            p@.alts.len() <= usize::MAX,
            forall|t: int| gs <= t < gs + gl ==> (#[trigger] p@.alts[t]) < q,
            lo <= k <= name@.len(),
            0 <= j <= gl,
            forall|t: int|
                gs <= t < gs + j ==> !am(p@, (#[trigger] p@.alts[t]) as int, 0, name@.subrange(
                    lo as int,
                    k as int,
                )),
        decreases gl - j,
    {
        let aq = p.alts[gs + j];
        if match_at(p, aq, 0, name, lo, k) {
            return false;
        }
        j = j + 1;
    }
    true
}

/// Search a split point `k` and an alternative `t` such that the
/// alternative matches `name[lo..k]` and the rest of the program matches
/// `name[k..hi]`.
fn group_search(
    p: &CompiledPattern,
    q: usize,
    ai: usize,
    gs: usize,
    gl: usize,
    name: &Vec<char>,
    lo: usize,
    hi: usize,
) -> (r: bool)
    requires
        grp_ctx(p@, q as int, ai as int, gs as int, gl as int, name@, lo as int, hi as int),
    ensures
        r == (exists|k: int, t: int|
            lo <= k <= hi && gs <= t < gs + gl && #[trigger] split_ok(
                p@,
                q as int,
                ai as int,
                t,
                name@,
                lo as int,
                k,
                hi as int,
            )),
    decreases hi - lo, q, p@.progs[q as int].len - ai, 0int,
{
    proof {
        broadcast use vstd::std_specs::vec::group_vec_axioms;

        assert(p.alts.len() == p@.alts.len());
    }
    let mut k = lo;
    loop
        invariant
            grp_ctx(p@, q as int, ai as int, gs as int, gl as int, name@, lo as int, hi as int),
            p@.alts.len() <= usize::MAX,
            lo <= k <= hi,
            forall|k2: int, t2: int|
                lo <= k2 < k && gs <= t2 < gs + gl ==> !(#[trigger] split_ok(
                    p@,
                    q as int,
                    ai as int,
                    t2,
                    name@,
                    lo as int,
                    k2,
                    hi as int,
                )),
        decreases hi - k,
    {
        if match_at(p, q, ai + 1, name, k, hi) {
            let mut j: usize = 0;
            while j < gl
                invariant
                    grp_ctx(
                        p@,
                        q as int,
                        ai as int,
                        gs as int,
                        gl as int,
                        name@,
                        lo as int,
                        hi as int,
                    ),
                    p@.alts.len() <= usize::MAX,
                    lo <= k <= hi,
                    0 <= j <= gl,
                    am(p@, q as int, ai + 1, name@.subrange(k as int, hi as int)),
                    forall|t2: int|
                        gs <= t2 < gs + j ==> !am(
                            p@,
                            (#[trigger] p@.alts[t2]) as int,
                            0,
                            name@.subrange(lo as int, k as int),
                        ),
                decreases gl - j,
            {
                let aq = p.alts[gs + j];
                if match_at(p, aq, 0, name, lo, k) {
                    proof {
                        assert(split_ok(
                            p@,
                            q as int,
                            ai as int,
                            gs + j,
                            name@,
                            lo as int,
                            k as int,
                            hi as int,
                        ));
                    }
                    return true;
                }
                j = j + 1;
            }
        }
        if k == hi {
            return false;
        }
        k = k + 1;
    }
}

/// Search a split point for zero or more further group repetitions: the
/// group atom sits at `ai`, with alternatives `gs .. gs + gl`.
fn match_rep(
    p: &CompiledPattern,
    q: usize,
    ai: usize,
    gs: usize,
    gl: usize,
    name: &Vec<char>,
    lo: usize,
    hi: usize,
) -> (r: bool)
    requires
        grp_ctx(p@, q as int, ai as int, gs as int, gl as int, name@, lo as int, hi as int),
        grp_atom(p@, q as int, ai as int, gs as int, gl as int),
    ensures
        r == am_rep(p@, q as int, ai as int, name@.subrange(lo as int, hi as int)),
    decreases hi - lo, q, p@.progs[q as int].len - ai, 0int,
{
    let ghost sub = name@.subrange(lo as int, hi as int);
    proof {
        broadcast use vstd::std_specs::vec::group_vec_axioms;

        assert(p.alts.len() == p@.alts.len());
        assert(sub.len() == hi - lo);
    }
    if match_at(p, q, ai + 1, name, lo, hi) {
        return true;
    }
    if lo == hi {
        return false;
    }
    let mut k = lo + 1;
    loop
        invariant
            grp_ctx(p@, q as int, ai as int, gs as int, gl as int, name@, lo as int, hi as int),
            grp_atom(p@, q as int, ai as int, gs as int, gl as int),
            p@.alts.len() <= usize::MAX,
            lo < k <= hi,
            sub == name@.subrange(lo as int, hi as int),
            !am(p@, q as int, ai + 1, name@.subrange(lo as int, hi as int)),
            forall|k2: int, t2: int|
                lo < k2 < k && gs <= t2 < gs + gl ==> !(#[trigger] rep_split_ok(
                    p@,
                    q as int,
                    ai as int,
                    t2,
                    name@,
                    lo as int,
                    k2,
                    hi as int,
                )),
        decreases hi - k,
    {
        let mut j: usize = 0;
        while j < gl
            invariant
                grp_ctx(p@, q as int, ai as int, gs as int, gl as int, name@, lo as int, hi as int),
                grp_atom(p@, q as int, ai as int, gs as int, gl as int),
                p@.alts.len() <= usize::MAX,
                lo < k <= hi,
                sub == name@.subrange(lo as int, hi as int),
                0 <= j <= gl,
                forall|t2: int|
                    gs <= t2 < gs + j ==> !(#[trigger] rep_split_ok(
                        p@,
                        q as int,
                        ai as int,
                        t2,
                        name@,
                        lo as int,
                        k as int,
                        hi as int,
                    )),
            decreases gl - j,
        {
            let aq = p.alts[gs + j];
            if match_at(p, aq, 0, name, lo, k) {
                if match_rep(p, q, ai, gs, gl, name, k, hi) {
                    proof {
                        sub_split(name@, lo as int, hi as int, k as int);
                        assert(am(p@, (p@.alts[gs + j]) as int, 0, sub.take(k - lo)));
                        assert(am_rep(p@, q as int, ai as int, sub.skip(k - lo)));
                        assert(1 <= k - lo <= sub.len());
                        assert(am_rep(p@, q as int, ai as int, sub));
                    }
                    return true;
                }
            }
            j = j + 1;
        }
        if k == hi {
            proof {
                assert forall|k0: int, t0: int|
                    1 <= k0 <= sub.len() && gs <= t0 < gs + gl implies !(am(
                    p@,
                    (#[trigger] p@.alts[t0]) as int,
                    0,
                    #[trigger] sub.take(k0),
                ) && am_rep(p@, q as int, ai as int, sub.skip(k0))) by {
                    sub_split(name@, lo as int, hi as int, lo + k0);
                    assert(!rep_split_ok(
                        p@,
                        q as int,
                        ai as int,
                        t0,
                        name@,
                        lo as int,
                        lo + k0,
                        hi as int,
                    ));
                }
                assert(!am_rep(p@, q as int, ai as int, sub));
            }
            return false;
        }
        k = k + 1;
    }
}

/// Search a first repetition for a `+( )` group: an alternative matching
/// a nonempty `name[lo..k]`, with further repetitions and the rest of the
/// program matching `name[k..hi]`.
fn one_more_search(
    p: &CompiledPattern,
    q: usize,
    ai: usize,
    gs: usize,
    gl: usize,
    name: &Vec<char>,
    lo: usize,
    hi: usize,
) -> (r: bool)
    requires
        grp_ctx(p@, q as int, ai as int, gs as int, gl as int, name@, lo as int, hi as int),
        grp_atom(p@, q as int, ai as int, gs as int, gl as int),
    ensures
        r == (exists|k: int, t: int|
            lo < k <= hi && gs <= t < gs + gl && #[trigger] rep_split_ok(
                p@,
                q as int,
                ai as int,
                t,
                name@,
                lo as int,
                k,
                hi as int,
            )),
    decreases hi - lo, q, p@.progs[q as int].len - ai, 0int,
{
    proof {
        broadcast use vstd::std_specs::vec::group_vec_axioms;

        assert(p.alts.len() == p@.alts.len());
    }
    if lo == hi {
        return false;
    }
    let mut k = lo + 1;
    loop
        invariant
            grp_ctx(p@, q as int, ai as int, gs as int, gl as int, name@, lo as int, hi as int),
            grp_atom(p@, q as int, ai as int, gs as int, gl as int),
            p@.alts.len() <= usize::MAX,
            lo < k <= hi,
            forall|k2: int, t2: int|
                lo < k2 < k && gs <= t2 < gs + gl ==> !(#[trigger] rep_split_ok(
                    p@,
                    q as int,
                    ai as int,
                    t2,
                    name@,
                    lo as int,
                    k2,
                    hi as int,
                )),
        decreases hi - k,
    {
        let mut j: usize = 0;
        while j < gl
            invariant
                grp_ctx(p@, q as int, ai as int, gs as int, gl as int, name@, lo as int, hi as int),
                grp_atom(p@, q as int, ai as int, gs as int, gl as int),
                p@.alts.len() <= usize::MAX,
                lo < k <= hi,
                0 <= j <= gl,
                forall|t2: int|
                    gs <= t2 < gs + j ==> !(#[trigger] rep_split_ok(
                        p@,
                        q as int,
                        ai as int,
                        t2,
                        name@,
                        lo as int,
                        k as int,
                        hi as int,
                    )),
            decreases gl - j,
        {
            let aq = p.alts[gs + j];
            if match_at(p, aq, 0, name, lo, k) {
                if match_rep(p, q, ai, gs, gl, name, k, hi) {
                    proof {
                        assert(rep_split_ok(
                            p@,
                            q as int,
                            ai as int,
                            gs + j,
                            name@,
                            lo as int,
                            k as int,
                            hi as int,
                        ));
                    }
                    return true;
                }
            }
            j = j + 1;
        }
        if k == hi {
            return false;
        }
        k = k + 1;
    }
}

/// Search a split point for a `!( )` group: a span that no alternative
/// matches, with the rest of the program matching what follows.
fn not_search(
    p: &CompiledPattern,
    q: usize,
    ai: usize,
    gs: usize,
    gl: usize,
    name: &Vec<char>,
    lo: usize,
    hi: usize,
) -> (r: bool)
    requires
        grp_ctx(p@, q as int, ai as int, gs as int, gl as int, name@, lo as int, hi as int),
    ensures
        r == (exists|k: int|
            lo <= k <= hi && #[trigger] not_split_ok(
                p@,
                q as int,
                ai as int,
                gs as int,
                gl as int,
                name@,
                lo as int,
                k,
                hi as int,
            )),
    decreases hi - lo, q, p@.progs[q as int].len - ai, 0int,
{
    let mut k = lo;
    loop
        invariant
            grp_ctx(p@, q as int, ai as int, gs as int, gl as int, name@, lo as int, hi as int),
            lo <= k <= hi,
            forall|k2: int|
                lo <= k2 < k ==> !(#[trigger] not_split_ok(
                    p@,
                    q as int,
                    ai as int,
                    gs as int,
                    gl as int,
                    name@,
                    lo as int,
                    k2,
                    hi as int,
                )),
        decreases hi - k,
    {
        if none_match(p, q, gs, gl, name, lo, k) {
            if match_at(p, q, ai + 1, name, k, hi) {
                proof {
                    assert(not_split_ok(
                        p@,
                        q as int,
                        ai as int,
                        gs as int,
                        gl as int,
                        name@,
                        lo as int,
                        k as int,
                        hi as int,
                    ));
                }
                return true;
            }
        }
        if k == hi {
            return false;
        }
        k = k + 1;
    }
}

/// Does the program `q`, from atom `ai` on, match `name[lo..hi]`?
pub fn match_at(
    p: &CompiledPattern,
    q: usize,
    ai: usize,
    name: &Vec<char>,
    lo: usize,
    hi: usize,
) -> (r: bool)
    requires
        p@.wf(),
        q < p@.progs.len(),
        ai <= p@.progs[q as int].len,
        lo <= hi,
        hi <= name@.len(),
    ensures
        r == am(p@, q as int, ai as int, name@.subrange(lo as int, hi as int)),
    decreases hi - lo, q, p@.progs[q as int].len - ai, 1int,
{
    let ghost sub = name@.subrange(lo as int, hi as int);
    proof {
        broadcast use vstd::std_specs::vec::group_vec_axioms;

        assert(p@.prog_wf(q as int));
        assert(p.progs.len() == p@.progs.len());
        assert(p.atoms.len() == p@.atoms.len());
        assert(p.alts.len() == p@.alts.len());
        assert(sub.len() == hi - lo);
    }
    let rng = p.progs[q];
    if ai == rng.len {
        return lo == hi;
    }
    proof {
        assert(p@.atom_wf(p@.atoms[rng.start + ai], q as int));
    }
    let a = p.atoms[rng.start + ai];
    match a {
        Atom::Lit(code) => {
            if lo < hi {
                proof {
                    sub_first(name@, lo as int, hi as int);
                }
                if (name[lo] as u32) == code {
                    match_at(p, q, ai + 1, name, lo + 1, hi)
                } else {
                    false
                }
            } else {
                false
            }
        },
        Atom::Any => {
            if lo < hi {
                proof {
                    sub_first(name@, lo as int, hi as int);
                }
                match_at(p, q, ai + 1, name, lo + 1, hi)
            } else {
                false
            }
        },
        Atom::Star => {
            if match_at(p, q, ai + 1, name, lo, hi) {
                true
            } else if lo < hi {
                proof {
                    sub_first(name@, lo as int, hi as int);
                }
                match_at(p, q, ai, name, lo + 1, hi)
            } else {
                false
            }
        },
        Atom::Class { start, len, negated } => {
            if lo < hi {
                proof {
                    sub_first(name@, lo as int, hi as int);
                }
                let inc = class_match(p, start, len, name[lo] as u32);
                if inc != negated {
                    match_at(p, q, ai + 1, name, lo + 1, hi)
                } else {
                    false
                }
            } else {
                false
            }
        },
        Atom::Group { op, start, len } => {
            let gs = start;
            let gl = len;
            match op {
                GroupOp::ZeroMore => match_rep(p, q, ai, gs, gl, name, lo, hi),
                GroupOp::OneMore => {
                    let r = one_more_search(p, q, ai, gs, gl, name, lo, hi);
                    proof {
                        if r {
                            let (k, t) = choose|k: int, t: int|
                                lo < k <= hi && gs <= t < gs + gl && #[trigger] rep_split_ok(
                                    p@,
                                    q as int,
                                    ai as int,
                                    t,
                                    name@,
                                    lo as int,
                                    k,
                                    hi as int,
                                );
                            sub_split(name@, lo as int, hi as int, k);
                            assert(am(p@, (p@.alts[t]) as int, 0, sub.take(k - lo)));
                            assert(am_rep(p@, q as int, ai as int, sub.skip(k - lo)));
                            assert(am(p@, q as int, ai as int, sub));
                        } else {
                            assert forall|k0: int, t0: int|
                                1 <= k0 <= sub.len() && gs <= t0 < gs + gl implies !(am(
                                p@,
                                (#[trigger] p@.alts[t0]) as int,
                                0,
                                #[trigger] sub.take(k0),
                            ) && am_rep(p@, q as int, ai as int, sub.skip(k0))) by {
                                sub_split(name@, lo as int, hi as int, lo + k0);
                                assert(!rep_split_ok(
                                    p@,
                                    q as int,
                                    ai as int,
                                    t0,
                                    name@,
                                    lo as int,
                                    lo + k0,
                                    hi as int,
                                ));
                            }
                            assert(!am(p@, q as int, ai as int, sub));
                        }
                    }
                    r
                },
                GroupOp::Not => {
                    let r = not_search(p, q, ai, gs, gl, name, lo, hi);
                    proof {
                        if r {
                            let k = choose|k: int|
                                lo <= k <= hi && #[trigger] not_split_ok(
                                    p@,
                                    q as int,
                                    ai as int,
                                    gs as int,
                                    gl as int,
                                    name@,
                                    lo as int,
                                    k,
                                    hi as int,
                                );
                            sub_split(name@, lo as int, hi as int, k);
                            assert forall|t: int| gs <= t < gs + gl implies !am(
                                p@,
                                (#[trigger] p@.alts[t]) as int,
                                0,
                                sub.take(k - lo),
                            ) by {
                                assert(!am(
                                    p@,
                                    (p@.alts[t]) as int,
                                    0,
                                    name@.subrange(lo as int, k),
                                ));
                            }
                            assert(am(p@, q as int, ai + 1, sub.skip(k - lo)));
                            assert(am(p@, q as int, ai as int, sub));
                        } else {
                            assert forall|k0: int| 0 <= k0 <= sub.len() implies !((forall|t: int|
                                gs <= t < gs + gl ==> !am(
                                    p@,
                                    (#[trigger] p@.alts[t]) as int,
                                    0,
                                    sub.take(k0),
                                )) && am(p@, q as int, ai + 1, #[trigger] sub.skip(k0))) by {
                                sub_split(name@, lo as int, hi as int, lo + k0);
                                assert(!not_split_ok(
                                    p@,
                                    q as int,
                                    ai as int,
                                    gs as int,
                                    gl as int,
                                    name@,
                                    lo as int,
                                    lo + k0,
                                    hi as int,
                                ));
                            }
                            assert(!am(p@, q as int, ai as int, sub));
                        }
                    }
                    r
                },
                _ => {
                    // `{a,b}`, `@( )` and the group part of `?( )`
                    let mut r = false;
                    let zero_one = matches!(op, GroupOp::ZeroOne);
                    if zero_one && match_at(p, q, ai + 1, name, lo, hi) {
                        r = true;
                    }
                    if !r {
                        r = group_search(p, q, ai, gs, gl, name, lo, hi);
                        proof {
                            if r {
                                let (k, t) = choose|k: int, t: int|
                                    lo <= k <= hi && gs <= t < gs + gl && #[trigger] split_ok(
                                        p@,
                                        q as int,
                                        ai as int,
                                        t,
                                        name@,
                                        lo as int,
                                        k,
                                        hi as int,
                                    );
                                sub_split(name@, lo as int, hi as int, k);
                                assert(am(p@, (p@.alts[t]) as int, 0, sub.take(k - lo)));
                                assert(am(p@, q as int, ai + 1, sub.skip(k - lo)));
                            } else {
                                assert forall|k0: int, t0: int|
                                    0 <= k0 <= sub.len() && gs <= t0 < gs + gl implies !(am(
                                    p@,
                                    (#[trigger] p@.alts[t0]) as int,
                                    0,
                                    #[trigger] sub.take(k0),
                                ) && am(p@, q as int, ai + 1, sub.skip(k0))) by {
                                    sub_split(name@, lo as int, hi as int, lo + k0);
                                    assert(!split_ok(
                                        p@,
                                        q as int,
                                        ai as int,
                                        t0,
                                        name@,
                                        lo as int,
                                        lo + k0,
                                        hi as int,
                                    ));
                                }
                            }
                        }
                    }
                    r
                },
            }
        },
    }
}

} // verus!
