//! Properties of the engine that relate several operations, stated and
//! proved once and for all.

use vstd::prelude::*;
use crate::flags::ZlobFlags;
use crate::matcher::am;
use crate::matcher::am_rep;
use crate::matcher::class_has;
use crate::matcher::comp_match;
use crate::matcher::first_wild;
use crate::matcher::item_match;
use crate::pattern::GroupOp;
use crate::paths::path_str_match;
use crate::paths::pm;
use crate::paths::star2_may;
use crate::paths::lemma_split_len;
use crate::paths::spec_split;
use crate::paths::strip_dot;
use crate::pattern::Atom;
use crate::pattern::Comp;
use crate::pattern::SPat;
use crate::pattern::p_init;
use crate::pattern::p_run;
use crate::pattern::p_step;
use crate::pattern::sp_end_comp;
use crate::pattern::spec_compile;
use crate::pattern::SPst;

verus! {

/// Compiling the same pattern under the same flags twice yields matchers
/// that agree on every input: compilation is a function of the pattern
/// text and the flags alone.
pub proof fn lemma_compile_idempotent(
    pattern: Seq<char>,
    flags: ZlobFlags,
    split_slash: bool,
    c1: SPat,
    c2: SPat,
    path: Seq<char>,
    period: bool,
)
    requires
        spec_compile(pattern, flags, split_slash) == Some(c1),
        spec_compile(pattern, flags, split_slash) == Some(c2),
    ensures
        c1 == c2,
        path_str_match(c1, path, period) == path_str_match(c2, path, period),
{
}

/// A pattern prefixed with `./` filters a list relative to a base exactly
/// as the bare pattern does: the base-relative matcher strips one leading
/// `./` before compiling, so both compile the same text. The bare pattern
/// must not itself begin with `./`, since only one prefix is stripped.
pub proof fn lemma_dot_slash_round_trip(pattern: Seq<char>)
    requires
        !(pattern.len() >= 2 && pattern[0] == '.' && pattern[1] == '/'),
    ensures
        strip_dot(seq!['.', '/'] + pattern) == strip_dot(pattern),
{
    let pref = seq!['.', '/'] + pattern;
    assert(pref.skip(2) =~= pattern);
    assert(strip_dot(pattern) == pattern);
}

/// Matching with the component lists from some index on depends only on
/// the components from that index on.
proof fn lemma_pm_suffix(p1: SPat, p2: SPat, ci: int, parts: Seq<Seq<char>>, period: bool)
    requires
        p1.wf(),
        p2.wf(),
        p2.progs == p1.progs,
        p2.atoms == p1.atoms,
        p2.items == p1.items,
        p2.alts == p1.alts,
        p2.comps.len() == p1.comps.len(),
        0 <= ci <= p1.comps.len(),
        forall|z: int| ci <= z < p1.comps.len() ==> p2.comps[z] == p1.comps[z],
    ensures
        pm(p1, ci, parts, period) == pm(p2, ci, parts, period),
    decreases parts.len(), p1.comps.len() - ci,
{
    if ci < p1.comps.len() {
        match p1.comps[ci] {
            Comp::Star2 => {
                lemma_pm_suffix(p1, p2, ci + 1, parts, period);
                if parts.len() > 0 {
                    lemma_pm_suffix(p1, p2, ci, parts.drop_first(), period);
                }
            },
            Comp::Prog(q) => {
                if parts.len() > 0 {
                    lemma_pm_suffix(p1, p2, ci + 1, parts.drop_first(), period);
                    assert(comp_match(p1, q as int, parts[0], period) == comp_match(
                        p2,
                        q as int,
                        parts[0],
                        period,
                    )) by {
                        lemma_am_same_progs(p1, p2, q as int, 0, parts[0]);
                    }
                }
            },
        }
    }
}

/// A class test depends only on the item arena.
proof fn lemma_class_same(p1: SPat, p2: SPat, start: int, len: int, c: u32)
    requires
        p2.items == p1.items,
    ensures
        class_has(p1, start, len, c) == class_has(p2, start, len, c),
{
    if class_has(p1, start, len, c) {
        let j = choose|j: int| start <= j < start + len && item_match(#[trigger] p1.items[j], c);
        assert(item_match(p2.items[j], c));
    }
    if class_has(p2, start, len, c) {
        let j = choose|j: int| start <= j < start + len && item_match(#[trigger] p2.items[j], c);
        assert(item_match(p1.items[j], c));
    }
}

/// Segment matching depends only on the program arenas, never on the
/// component list or the metacharacter flag.
proof fn lemma_am_same_progs(p1: SPat, p2: SPat, q: int, ai: int, name: Seq<char>)
    requires
        p1.wf(),
        p2.wf(),
        p2.progs == p1.progs,
        p2.atoms == p1.atoms,
        p2.items == p1.items,
        p2.alts == p1.alts,
        0 <= q < p1.progs.len(),
        0 <= ai <= p1.progs[q].len,
    ensures
        am(p1, q, ai, name) == am(p2, q, ai, name),
    decreases name.len(), q, p1.progs[q].len - ai, 1int,
{
    assert(p1.prog_wf(q));
    let rng = p1.progs[q];
    if ai < rng.len {
        assert(p1.atom_wf(p1.atoms[rng.start + ai], q));
        match p1.atoms[rng.start + ai] {
            Atom::Lit(code) => {
                if name.len() > 0 {
                    lemma_am_same_progs(p1, p2, q, ai + 1, name.drop_first());
                }
            },
            Atom::Any => {
                if name.len() > 0 {
                    lemma_am_same_progs(p1, p2, q, ai + 1, name.drop_first());
                }
            },
            Atom::Star => {
                lemma_am_same_progs(p1, p2, q, ai + 1, name);
                if name.len() > 0 {
                    lemma_am_same_progs(p1, p2, q, ai, name.drop_first());
                }
            },
            Atom::Class { start, len, negated } => {
                if name.len() > 0 {
                    lemma_class_same(p1, p2, start as int, len as int, name[0] as u32);
                    lemma_am_same_progs(p1, p2, q, ai + 1, name.drop_first());
                }
            },
            Atom::Group { op, start, len } => {
                assert forall|k: int, t: int|
                    #![trigger p1.alts[t], name.take(k)]
                    0 <= k <= name.len() && start <= t < start + len implies (am(
                    p1,
                    p1.alts[t] as int,
                    0,
                    name.take(k),
                ) == am(p2, p2.alts[t] as int, 0, name.take(k))) && (am(
                    p1,
                    q,
                    ai + 1,
                    name.skip(k),
                ) == am(p2, q, ai + 1, name.skip(k))) by {
                    lemma_am_same_progs(p1, p2, p1.alts[t] as int, 0, name.take(k));
                    lemma_am_same_progs(p1, p2, q, ai + 1, name.skip(k));
                }
                match op {
                    GroupOp::ZeroMore => {
                        lemma_am_rep_same_progs(p1, p2, q, ai, name);
                        assert(am(p1, q, ai, name) == am(p2, q, ai, name));
                    },
                    GroupOp::OneMore => {
                        assert forall|k: int, t: int|
                            #![trigger p1.alts[t], name.take(k)]
                            1 <= k <= name.len() && start <= t < start + len implies am_rep(
                            p1,
                            q,
                            ai,
                            name.skip(k),
                        ) == am_rep(p2, q, ai, name.skip(k)) by {
                            lemma_am_rep_same_progs(p1, p2, q, ai, name.skip(k));
                        }
                        assert(am(p1, q, ai, name) == am(p2, q, ai, name));
                    },
                    GroupOp::ZeroOne => {
                        lemma_am_same_progs(p1, p2, q, ai + 1, name);
                        assert(am(p1, q, ai, name) == am(p2, q, ai, name));
                    },
                    GroupOp::Alts => {
                        assert(am(p1, q, ai, name) == am(p2, q, ai, name));
                    },
                    GroupOp::One => {
                        assert(am(p1, q, ai, name) == am(p2, q, ai, name));
                    },
                    GroupOp::Not => {
                        assert forall|k: int|
                            0 <= k <= name.len() implies ((forall|t: int|
                                start <= t < start + len ==> !am(
                                    p1,
                                    (#[trigger] p1.alts[t]) as int,
                                    0,
                                    #[trigger] name.take(k),
                                )) == (forall|t: int|
                                start <= t < start + len ==> !am(
                                    p2,
                                    (#[trigger] p2.alts[t]) as int,
                                    0,
                                    name.take(k),
                                ))) by {}
                        assert forall|k: int| 0 <= k <= name.len() implies am(
                            p1,
                            q,
                            ai + 1,
                            #[trigger] name.skip(k),
                        ) == am(p2, q, ai + 1, name.skip(k)) by {
                            lemma_am_same_progs(p1, p2, q, ai + 1, name.skip(k));
                        }
                        assert(am(p1, q, ai, name) == am(p2, q, ai, name));
                    },
                }
            },
        }
    }
}

/// Group repetition depends only on the program arenas.
proof fn lemma_am_rep_same_progs(p1: SPat, p2: SPat, q: int, ai: int, name: Seq<char>)
    requires
        p1.wf(),
        p2.wf(),
        p2.progs == p1.progs,
        p2.atoms == p1.atoms,
        p2.items == p1.items,
        p2.alts == p1.alts,
        0 <= q < p1.progs.len(),
        0 <= ai < p1.progs[q].len,
    ensures
        am_rep(p1, q, ai, name) == am_rep(p2, q, ai, name),
    decreases name.len(), q, p1.progs[q].len - ai, 0int,
{
    assert(p1.prog_wf(q));
    assert(p1.atom_wf(p1.atoms[p1.progs[q].start + ai], q));
    match p1.atoms[p1.progs[q].start + ai] {
        Atom::Group { op, start, len } => {
            lemma_am_same_progs(p1, p2, q, ai + 1, name);
            assert forall|k: int, t: int|
                #![trigger p1.alts[t], name.take(k)]
                1 <= k <= name.len() && start <= t < start + len implies (am(
                p1,
                p1.alts[t] as int,
                0,
                name.take(k),
            ) == am(p2, p2.alts[t] as int, 0, name.take(k))) && (am_rep(p1, q, ai, name.skip(k))
                == am_rep(p2, q, ai, name.skip(k))) by {
                lemma_am_same_progs(p1, p2, p1.alts[t] as int, 0, name.take(k));
                lemma_am_rep_same_progs(p1, p2, q, ai, name.skip(k));
            }
        },
        _ => {},
    }
}

/// With directory recursion enabled, a leading `**` accepts every path
/// that the degraded one-level `*` in its place accepts: the `**` may
/// consume exactly one directory level like the `*` does, and both
/// patterns agree from the second component on.
pub proof fn lemma_star2_superset(
    sp1: SPat,
    sp2: SPat,
    q: usize,
    parts: Seq<Seq<char>>,
    period: bool,
)
    requires
        sp1.wf(),
        sp2.wf(),
        sp2 == (SPat { comps: sp1.comps.update(0, Comp::Prog(q)), ..sp1 }),
        sp1.comps.len() > 0,
        sp1.comps[0] == Comp::Star2,
        q < sp1.progs.len(),
        sp1.progs[q as int].len == 1,
        sp1.atoms[sp1.progs[q as int].start as int] == Atom::Star,
    ensures
        pm(sp2, 0, parts, period) ==> pm(sp1, 0, parts, period),
{
    if pm(sp2, 0, parts, period) {
        assert(parts.len() > 0);
        assert(comp_match(sp2, q as int, parts[0], period));
        assert(first_wild(sp2, q as int));
        assert(star2_may(parts[0], period)) by {
            if !period && parts[0].len() > 0 && parts[0][0] == '.' {
                assert(!comp_match(sp2, q as int, parts[0], period));
            }
        }
        assert(pm(sp2, 1, parts.drop_first(), period));
        lemma_pm_suffix(sp1, sp2, 1, parts.drop_first(), period);
        assert(pm(sp1, 1, parts.drop_first(), period));
        assert(pm(sp1, 0, parts.drop_first(), period));
        assert(pm(sp1, 0, parts, period));
    }
}

} // verus!

verus! {

/// A pattern whose atoms are all literals and whose components are all
/// plain programs.
pub open spec fn lit_only(p: SPat) -> bool {
    &&& (forall|k: int| 0 <= k < p.atoms.len() ==> (#[trigger] p.atoms[k]) is Lit)
    &&& (forall|ci: int| 0 <= ci < p.comps.len() ==> (#[trigger] p.comps[ci]) is Prog)
}

/// The code points of a character sequence.
pub open spec fn cseq(s: Seq<char>) -> Seq<u32> {
    s.map_values(|c: char| c as u32)
}

/// The code points of each component.
pub open spec fn parts_codes(ps: Seq<Seq<char>>) -> Seq<Seq<u32>> {
    ps.map_values(|s: Seq<char>| cseq(s))
}

/// An all-literal program matches at most one name, up to code points.
proof fn lemma_am_lit_unique(p: SPat, q: int, ai: int, n1: Seq<char>, n2: Seq<char>)
    requires
        p.wf(),
        lit_only(p),
        0 <= q < p.progs.len(),
        0 <= ai <= p.progs[q].len,
        am(p, q, ai, n1),
        am(p, q, ai, n2),
    ensures
        cseq(n1) == cseq(n2),
    decreases p.progs[q].len - ai,
{
    assert(p.prog_wf(q));
    let rng = p.progs[q];
    if ai == rng.len {
        assert(cseq(n1) =~= cseq(n2));
    } else {
        assert(p.atoms[rng.start + ai] is Lit);
        match p.atoms[rng.start + ai] {
            Atom::Lit(code) => {
                lemma_am_lit_unique(p, q, ai + 1, n1.drop_first(), n2.drop_first());
                assert(cseq(n1.drop_first()).len() == n1.len() - 1);
                assert(cseq(n2.drop_first()).len() == n2.len() - 1);
                assert(cseq(n1) =~= cseq(n2)) by {
                    assert(n1.len() == n2.len());
                    assert forall|z: int| 0 <= z < n1.len() implies cseq(n1)[z] == cseq(
                        n2,
                    )[z] by {
                        if z == 0 {
                            assert(cseq(n1)[0] == code);
                            assert(cseq(n2)[0] == code);
                        } else {
                            assert(cseq(n1.drop_first())[z - 1] == cseq(n2.drop_first())[z - 1]);
                            assert(cseq(n1.drop_first())[z - 1] == (n1[z] as u32));
                            assert(cseq(n2.drop_first())[z - 1] == (n2[z] as u32));
                        }
                    }
                }
            },
            _ => {},
        }
    }
}

/// An all-literal pattern matches at most one component list, up to code
/// points.
proof fn lemma_pm_lit_unique(
    p: SPat,
    ci: int,
    parts1: Seq<Seq<char>>,
    parts2: Seq<Seq<char>>,
    period: bool,
)
    requires
        p.wf(),
        lit_only(p),
        0 <= ci <= p.comps.len(),
        pm(p, ci, parts1, period),
        pm(p, ci, parts2, period),
    ensures
        parts_codes(parts1) == parts_codes(parts2),
    decreases p.comps.len() - ci,
{
    if ci == p.comps.len() {
        assert(parts_codes(parts1) =~= parts_codes(parts2));
    } else {
        assert(p.comps[ci] is Prog);
        match p.comps[ci] {
            Comp::Prog(q) => {
                lemma_am_lit_unique(p, q as int, 0, parts1[0], parts2[0]);
                lemma_pm_lit_unique(p, ci + 1, parts1.drop_first(), parts2.drop_first(), period);
                assert(parts_codes(parts1.drop_first()).len() == parts1.len() - 1);
                assert(parts_codes(parts2.drop_first()).len() == parts2.len() - 1);
                assert(parts_codes(parts1) =~= parts_codes(parts2)) by {
                    assert(parts1.len() == parts2.len());
                    assert forall|z: int| 0 <= z < parts1.len() implies parts_codes(parts1)[z]
                        == parts_codes(parts2)[z] by {
                        if z == 0 {
                        } else {
                            assert(parts_codes(parts1.drop_first())[z - 1] == parts_codes(
                                parts2.drop_first(),
                            )[z - 1]);
                            assert(parts_codes(parts1.drop_first())[z - 1] == cseq(parts1[z]));
                            assert(parts_codes(parts2.drop_first())[z - 1] == cseq(parts2[z]));
                        }
                    }
                }
            },
            _ => {},
        }
    }
}

} // verus!

verus! {

/// Paths whose splits agree component by component, up to code points,
/// agree as whole strings, up to code points: splitting on `/` loses no
/// information.
proof fn lemma_split_codes(p1: Seq<char>, p2: Seq<char>)
    requires
        parts_codes(spec_split(p1)) == parts_codes(spec_split(p2)),
    ensures
        cseq(p1) == cseq(p2),
    decreases p1.len() + p2.len(),
{
    lemma_split_len(p1);
    lemma_split_len(p2);
    let s1 = spec_split(p1);
    let s2 = spec_split(p2);
    assert(parts_codes(s1).len() == s1.len());
    assert(parts_codes(s2).len() == s2.len());
    assert(parts_codes(s1)[0] == cseq(s1[0]));
    assert(parts_codes(s2)[0] == cseq(s2[0]));
    if p1.len() == 0 {
        // the other side must also split into one empty component
        assert(s1 =~= seq![Seq::<char>::empty()]);
        assert(cseq(s2[0]).len() == 0);
        if p2.len() > 0 {
            if p2[0] == '/' {
                lemma_split_len(p2.drop_first());
                assert(s2 =~= seq![Seq::<char>::empty()] + spec_split(p2.drop_first()));
                assert(s2.len() >= 2);
            } else {
                assert(s2[0] == seq![p2[0]] + spec_split(p2.drop_first())[0]) by {
                    lemma_split_len(p2.drop_first());
                }
                assert(s2[0].len() > 0);
            }
        }
        assert(p2.len() == 0);
        assert(cseq(p1) =~= cseq(p2));
    } else if p1[0] == '/' {
        assert(s1 =~= seq![Seq::<char>::empty()] + spec_split(p1.drop_first()));
        assert(cseq(s1[0]).len() == 0);
        // p2 must also begin with a separator
        assert(p2.len() > 0) by {
            if p2.len() == 0 {
                assert(s2.len() == 1);
                assert(s1.len() >= 2) by {
                    lemma_split_len(p1.drop_first());
                }
            }
        }
        assert(p2[0] == '/') by {
            if p2[0] != '/' {
                assert(s2[0] == seq![p2[0]] + spec_split(p2.drop_first())[0]) by {
                    lemma_split_len(p2.drop_first());
                }
                assert(s2[0].len() > 0);
                assert(cseq(s2[0]).len() > 0);
            }
        }
        assert(s2 =~= seq![Seq::<char>::empty()] + spec_split(p2.drop_first()));
        assert(parts_codes(spec_split(p1.drop_first())) =~= parts_codes(
            spec_split(p2.drop_first()),
        )) by {
            assert forall|z: int| 0 <= z < spec_split(p1.drop_first()).len() implies parts_codes(
                spec_split(p1.drop_first()),
            )[z] == parts_codes(spec_split(p2.drop_first()))[z] by {
                assert(parts_codes(s1)[z + 1] == parts_codes(s2)[z + 1]);
                assert(s1[z + 1] == spec_split(p1.drop_first())[z]);
                assert(s2[z + 1] == spec_split(p2.drop_first())[z]);
            }
        }
        lemma_split_codes(p1.drop_first(), p2.drop_first());
        assert(cseq(p1) =~= cseq(p2)) by {
            assert(cseq(p1.drop_first()).len() == p1.len() - 1);
            assert(cseq(p2.drop_first()).len() == p2.len() - 1);
            assert forall|z: int| 0 <= z < p1.len() implies cseq(p1)[z] == cseq(p2)[z] by {
                if z > 0 {
                    assert(cseq(p1.drop_first())[z - 1] == cseq(p2.drop_first())[z - 1]);
                    assert(cseq(p1.drop_first())[z - 1] == (p1[z] as u32));
                    assert(cseq(p2.drop_first())[z - 1] == (p2[z] as u32));
                } else {
                    assert(('/' as u32) == ('/' as u32));
                }
            }
        }
    } else {
        let r1 = spec_split(p1.drop_first());
        lemma_split_len(p1.drop_first());
        assert(s1 =~= seq![seq![p1[0]] + r1[0]] + r1.drop_first());
        assert(s1[0].len() > 0);
        assert(cseq(s1[0]).len() > 0);
        // p2 is also nonempty and does not begin with a separator
        assert(p2.len() > 0) by {
            if p2.len() == 0 {
                assert(cseq(s2[0]).len() == 0);
            }
        }
        assert(p2[0] != '/') by {
            if p2[0] == '/' {
                assert(s2 =~= seq![Seq::<char>::empty()] + spec_split(p2.drop_first()));
                assert(cseq(s2[0]).len() == 0);
            }
        }
        let r2 = spec_split(p2.drop_first());
        lemma_split_len(p2.drop_first());
        assert(s2 =~= seq![seq![p2[0]] + r2[0]] + r2.drop_first());
        assert((p1[0] as u32) == (p2[0] as u32)) by {
            assert(cseq(s1[0])[0] == (s1[0][0] as u32));
            assert(cseq(s2[0])[0] == (s2[0][0] as u32));
            assert(s1[0][0] == p1[0]);
            assert(s2[0][0] == p2[0]);
        }
        assert(parts_codes(r1) =~= parts_codes(r2)) by {
            assert(r1.len() == s1.len());
            assert(r2.len() == s2.len());
            assert forall|z: int| 0 <= z < r1.len() implies parts_codes(r1)[z] == parts_codes(
                r2,
            )[z] by {
                if z == 0 {
                    assert(cseq(s1[0]) =~= seq![p1[0] as u32] + cseq(r1[0])) by {
                        assert(cseq(s1[0]).len() == 1 + r1[0].len());
                        assert(cseq(r1[0]).len() == r1[0].len());
                        assert forall|y: int| 0 <= y < cseq(s1[0]).len() implies cseq(s1[0])[y]
                            == (seq![p1[0] as u32] + cseq(r1[0]))[y] by {
                            if y > 0 {
                                assert(s1[0][y] == r1[0][y - 1]);
                            }
                        }
                    }
                    assert(cseq(s2[0]) =~= seq![p2[0] as u32] + cseq(r2[0])) by {
                        assert(cseq(s2[0]).len() == 1 + r2[0].len());
                        assert(cseq(r2[0]).len() == r2[0].len());
                        assert forall|y: int| 0 <= y < cseq(s2[0]).len() implies cseq(s2[0])[y]
                            == (seq![p2[0] as u32] + cseq(r2[0]))[y] by {
                            if y > 0 {
                                assert(s2[0][y] == r2[0][y - 1]);
                            }
                        }
                    }
                    assert(cseq(r1[0]) =~= cseq(r2[0])) by {
                        assert(cseq(s1[0]) == cseq(s2[0]));
                        assert(cseq(r1[0]).len() == cseq(r2[0]).len());
                        assert forall|y: int| 0 <= y < cseq(r1[0]).len() implies cseq(r1[0])[y]
                            == cseq(r2[0])[y] by {
                            assert(cseq(s1[0])[y + 1] == cseq(r1[0])[y]);
                            assert(cseq(s2[0])[y + 1] == cseq(r2[0])[y]);
                        }
                    }
                } else {
                    assert(parts_codes(s1)[z] == parts_codes(s2)[z]);
                    assert(s1[z] == r1.drop_first()[z - 1]);
                    assert(s2[z] == r2.drop_first()[z - 1]);
                    assert(r1.drop_first()[z - 1] == r1[z]);
                    assert(r2.drop_first()[z - 1] == r2[z]);
                }
            }
        }
        lemma_split_codes(p1.drop_first(), p2.drop_first());
        assert(cseq(p1) =~= cseq(p2)) by {
            assert(cseq(p1.drop_first()).len() == p1.len() - 1);
            assert(cseq(p2.drop_first()).len() == p2.len() - 1);
            assert forall|z: int| 0 <= z < p1.len() implies cseq(p1)[z] == cseq(p2)[z] by {
                if z > 0 {
                    assert(cseq(p1.drop_first())[z - 1] == cseq(p2.drop_first())[z - 1]);
                    assert(cseq(p1.drop_first())[z - 1] == (p1[z] as u32));
                    assert(cseq(p2.drop_first())[z - 1] == (p2[z] as u32));
                }
            }
        }
    }
}

/// A pattern compiled to plain literals accepts at most one path: the
/// primary matcher then behaves as an exact existence or equality test,
/// two accepted paths agreeing code point for code point.
pub proof fn lemma_literal_exact(
    sp: SPat,
    p1: Seq<char>,
    p2: Seq<char>,
    period: bool,
)
    requires
        sp.wf(),
        lit_only(sp),
        path_str_match(sp, p1, period),
        path_str_match(sp, p2, period),
    ensures
        cseq(p1) == cseq(p2),
{
    lemma_pm_lit_unique(sp, 0, spec_split(p1), spec_split(p2), period);
    lemma_split_codes(p1, p2);
}

} // verus!

verus! {

/// A parser state that has seen no metacharacter holds only literal
/// atoms, closed groups, and plain components.
pub open spec fn lit_st(st: SPst) -> bool {
    !st.magic ==> {
        &&& (forall|k: int| 0 <= k < st.atoms.len() ==> (#[trigger] st.atoms[k]) is Lit)
        &&& (forall|k: int| 0 <= k < st.cur.len() ==> (#[trigger] st.cur[k]) is Lit)
        &&& st.stack.len() == 0
        &&& (forall|ci: int| 0 <= ci < st.comps.len() ==> (#[trigger] st.comps[ci]) is Prog)
    }
}

/// Every parser step keeps the literal-state property.
proof fn lemma_step_lit(st: SPst, c: char, nxt: Option<char>, flags: ZlobFlags, mode: bool)
    requires
        lit_st(st),
    ensures
        (match p_step(st, c, nxt, flags, mode) {
            Some((st2, two)) => lit_st(st2),
            None => true,
        }),
{
    match p_step(st, c, nxt, flags, mode) {
        Some((st2, two)) => {
            if !st2.magic {
                assert(!st.magic);
                assert forall|k: int| 0 <= k < st2.cur.len() implies (#[trigger] st2.cur[k])
                    is Lit by {
                    if k < st.cur.len() {
                        assert(st.cur[k] is Lit);
                    }
                }
                assert forall|k: int| 0 <= k < st2.atoms.len() implies (#[trigger] st2.atoms[k])
                    is Lit by {
                    if k < st.atoms.len() {
                        assert(st.atoms[k] is Lit);
                    } else {
                        assert(st2.atoms[k] == st.cur[k - st.atoms.len()]);
                    }
                }
                assert forall|ci: int| 0 <= ci < st2.comps.len() implies (#[trigger] st2.comps[ci])
                    is Prog by {
                    if ci < st.comps.len() {
                        assert(st.comps[ci] is Prog);
                    }
                }
            }
        },
        None => {},
    }
}

/// A run from a literal state yields a literal pattern whenever the
/// metacharacter flag stays clear.
proof fn lemma_run_lit(s: Seq<char>, i: int, st: SPst, flags: ZlobFlags, mode: bool)
    requires
        lit_st(st),
    ensures
        (match p_run(s, i, st, flags, mode) {
            Some(sp) => !sp.magic ==> lit_only(sp),
            None => true,
        }),
    decreases s.len() - i,
{
    if i < 0 || i >= s.len() {
        match p_run(s, i, st, flags, mode) {
            Some(sp) => {
                if !sp.magic {
                    assert(!st.magic);
                    let st1 = sp_end_comp(st, flags);
                    assert forall|k: int| 0 <= k < st1.atoms.len() implies (#[trigger] st1.atoms[k])
                        is Lit by {
                        if k < st.atoms.len() {
                            assert(st.atoms[k] is Lit);
                        } else {
                            assert(st1.atoms[k] == st.cur[k - st.atoms.len()]);
                        }
                    }
                    assert forall|ci: int| 0 <= ci < st1.comps.len() implies (
                    #[trigger] st1.comps[ci]) is Prog by {
                        if ci < st.comps.len() {
                            assert(st.comps[ci] is Prog);
                        }
                    }
                }
            },
            None => {},
        }
    } else {
        let nxt = if i + 1 < s.len() {
            Some(s[i + 1])
        } else {
            None
        };
        lemma_step_lit(st, s[i], nxt, flags, mode);
        match p_step(st, s[i], nxt, flags, mode) {
            Some((st2, two)) => {
                let k: int = if two && i + 2 <= s.len() {
                    2
                } else {
                    1
                };
                lemma_run_lit(s, i + k, st2, flags, mode);
            },
            None => {},
        }
    }
}

/// A pattern that reports no metacharacters compiled to plain literals,
/// so the primary matcher treats it as an exact existence test.
pub proof fn lemma_no_magic_literal(pattern: Seq<char>, flags: ZlobFlags, mode: bool, sp: SPat)
    requires
        spec_compile(pattern, flags, mode) == Some(sp),
        !sp.magic,
    ensures
        lit_only(sp),
{
    lemma_run_lit(pattern, 0, p_init(), flags, mode);
}

} // verus!
