//! The pattern compiler: glob pattern text to a compiled, segment-oriented
//! program.
//!
//! A compiled pattern is arena-shaped: all atoms live in one flat table, a
//! program is an index range into that table, group alternatives are ranges
//! of program ids, and character-class members are ranges into an item
//! table. Programs are registered innermost first, so every group refers
//! only to programs with a smaller id than the program that holds the
//! group; matching recurses along that strictly decreasing order.

use vstd::prelude::*;
use crate::error::ZlobError;
use crate::flags::ZlobFlags;
use crate::flags::BRACE_BIT;
use crate::flags::DOUBLESTAR_RECURSIVE_BIT;
use crate::flags::EXTGLOB_BIT;
use crate::flags::NOESCAPE_BIT;

verus! {

/// One member of a character class: a single character or an inclusive range.
#[derive(Clone, Copy, PartialEq, Eq, Structural, Debug)]
pub enum ClassItem {
    Ch(u32),
    Between(u32, u32),
}

/// The operator of a group of alternatives.
#[derive(Clone, Copy, PartialEq, Eq, Structural, Debug)]
pub enum GroupOp {
    /// `{a,b}`: one of the alternatives matches.
    Alts,
    /// `?(a|b)`: zero or one occurrence.
    ZeroOne,
    /// `*(a|b)`: zero or more occurrences.
    ZeroMore,
    /// `+(a|b)`: one or more occurrences.
    OneMore,
    /// `@(a|b)`: exactly one occurrence.
    One,
    /// `!(a|b)`: any span that none of the alternatives matches.
    Not,
}

/// One atom of a component program. Class members and group alternatives
/// live in the pattern's arenas and are referenced by index ranges.
#[derive(Clone, Copy, PartialEq, Eq, Structural, Debug)]
pub enum Atom {
    /// Exactly the character with this code point.
    Lit(u32),
    /// `?`: any single character.
    Any,
    /// `*`: any run of characters, possibly empty.
    Star,
    /// `[...]`: one character tested against `len` items starting at
    /// `start` in the item arena.
    Class { start: usize, len: usize, negated: bool },
    /// A group holding `len` alternative program ids starting at `start`
    /// in the alternative arena.
    Group { op: GroupOp, start: usize, len: usize },
}

/// A range of `len` entries starting at `start` in an arena.
#[derive(Clone, Copy, PartialEq, Eq, Structural, Debug)]
pub struct Span {
    pub start: usize,
    pub len: usize,
}

/// One `/`-separated component of a compiled pattern.
#[derive(Clone, Copy, PartialEq, Eq, Structural, Debug)]
pub enum Comp {
    /// `**`: zero or more whole directory levels.
    Star2,
    /// An ordinary component: the id of its program.
    Prog(usize),
}

/// The mathematical shape of a compiled pattern.
#[verifier::ext_equal]
pub ghost struct SPat {
    pub comps: Seq<Comp>,
    pub progs: Seq<Span>,
    pub atoms: Seq<Atom>,
    pub items: Seq<ClassItem>,
    pub alts: Seq<usize>,
    pub magic: bool,
}

/// A compiled, immutable glob pattern. It owns no filesystem state and is
/// never mutated after construction.
pub struct CompiledPattern {
    pub comps: Vec<Comp>,
    pub progs: Vec<Span>,
    pub atoms: Vec<Atom>,
    pub items: Vec<ClassItem>,
    pub alts: Vec<usize>,
    /// Output: the source pattern contained metacharacters.
    pub magic: bool,
}

impl View for CompiledPattern {
    type V = SPat;

    open spec fn view(&self) -> SPat {
        SPat {
            comps: self.comps@,
            progs: self.progs@,
            atoms: self.atoms@,
            items: self.items@,
            alts: self.alts@,
            magic: self.magic,
        }
    }
}

/// One atom is well formed relative to arenas of the given sizes, with
/// every group alternative naming a program of id below `bound`.
pub open spec fn atom_ok(a: Atom, items_len: int, alts: Seq<usize>, bound: int) -> bool {
    match a {
        Atom::Class { start, len, negated } => start + len <= items_len,
        Atom::Group { op, start, len } => {
            &&& start + len <= alts.len()
            &&& forall|j: int| start <= j < start + len ==> (#[trigger] alts[j]) < bound
        },
        _ => true,
    }
}

/// Every atom of the sequence is well formed.
pub open spec fn atoms_ok(atoms: Seq<Atom>, items_len: int, alts: Seq<usize>, bound: int) -> bool {
    forall|k: int| 0 <= k < atoms.len() ==> atom_ok(#[trigger] atoms[k], items_len, alts, bound)
}

impl SPat {
    /// One atom is well formed relative to the arenas, with every group
    /// alternative naming a program of id below `bound`.
    pub open spec fn atom_wf(self, a: Atom, bound: int) -> bool {
        atom_ok(a, self.items.len() as int, self.alts, bound)
    }

    /// Program `q` is well formed: its range lies in the atom arena and its
    /// group atoms only name programs registered before `q`.
    pub open spec fn prog_wf(self, q: int) -> bool {
        &&& self.progs[q].start + self.progs[q].len <= self.atoms.len()
        &&& forall|k: int|
            self.progs[q].start <= k < self.progs[q].start + self.progs[q].len ==> self.atom_wf(
                #[trigger] self.atoms[k],
                q,
            )
    }

    /// The whole pattern is well formed.
    pub open spec fn wf(self) -> bool {
        &&& forall|q: int| 0 <= q < self.progs.len() ==> #[trigger] self.prog_wf(q)
        &&& forall|ci: int|
            0 <= ci < self.comps.len() ==> match #[trigger] self.comps[ci] {
                Comp::Prog(q) => q < self.progs.len(),
                Comp::Star2 => true,
            }
    }
}

/// An open group during parsing: its operator, the program ids of its
/// finished alternatives, and the atoms of the enclosing alternative.
#[verifier::ext_equal]
pub ghost struct SFrame {
    pub op: GroupOp,
    pub alt_ids: Seq<usize>,
    pub outer: Seq<Atom>,
}

/// A bracket expression being parsed: the start of its members in the item
/// arena, its negation, whether the very next character may negate it,
/// whether no member was seen yet (a leading `]` is then a member), the
/// last single member not yet committed, and whether a range dash is open.
#[verifier::ext_equal]
pub ghost struct SCls {
    pub start: usize,
    pub negated: bool,
    pub begin: bool,
    pub first: bool,
    pub prev: Option<u32>,
    pub dash: bool,
}

/// The full parser state.
#[verifier::ext_equal]
pub ghost struct SPst {
    pub comps: Seq<Comp>,
    pub progs: Seq<Span>,
    pub atoms: Seq<Atom>,
    pub items: Seq<ClassItem>,
    pub alts: Seq<usize>,
    pub stack: Seq<SFrame>,
    pub cur: Seq<Atom>,
    pub magic: bool,
    pub cls: Option<SCls>,
    /// Characters of the current component, capped at 3: only the value 2
    /// matters, for recognizing a component that is exactly `**`.
    pub comp_chars: nat,
    /// The current component consisted only of unescaped `*` so far.
    pub stars_only: bool,
}

/// The pattern that a parser state denotes.
pub open spec fn st_pat(st: SPst) -> SPat {
    SPat {
        comps: st.comps,
        progs: st.progs,
        atoms: st.atoms,
        items: st.items,
        alts: st.alts,
        magic: st.magic,
    }
}

/// Parser-state well-formedness: the registered part of the pattern is
/// well formed, and so is every atom still being built, relative to the
/// next program id to be assigned.
pub open spec fn swf(st: SPst) -> bool {
    &&& st_pat(st).wf()
    &&& atoms_ok(st.cur, st.items.len() as int, st.alts, st.progs.len() as int)
    &&& forall|fi: int|
        0 <= fi < st.stack.len() ==> atoms_ok(
            (#[trigger] st.stack[fi]).outer,
            st.items.len() as int,
            st.alts,
            st.progs.len() as int,
        )
    &&& forall|fi: int, j: int|
        0 <= fi < st.stack.len() && 0 <= j < st.stack[fi].alt_ids.len() ==> (#[trigger] st.stack[fi].alt_ids[j])
            < st.progs.len()
    &&& (st.cls matches Some(cl) ==> cl.start <= st.items.len())
}

/// The state before the first character.
pub open spec fn p_init() -> SPst {
    SPst {
        comps: Seq::empty(),
        progs: Seq::empty(),
        atoms: Seq::empty(),
        items: Seq::empty(),
        alts: Seq::empty(),
        stack: Seq::empty(),
        cur: Seq::empty(),
        magic: false,
        cls: None,
        comp_chars: 0,
        stars_only: true,
    }
}

/// Count one or two source characters toward the current component.
pub open spec fn sp_count(n: nat, k: nat) -> nat {
    if n + k > 3 {
        3
    } else {
        n + k
    }
}

/// Close the current alternative: append its atoms to the arena and
/// register it as a new program, returning the new state and the id.
pub open spec fn sp_register(st: SPst) -> (SPst, usize) {
    (
        SPst {
            progs: st.progs.push(
                Span { start: st.atoms.len() as usize, len: st.cur.len() as usize },
            ),
            atoms: st.atoms + st.cur,
            cur: Seq::empty(),
            ..st
        },
        st.progs.len() as usize,
    )
}

/// Append one literal character.
pub open spec fn sp_lit(st: SPst, c: char, two: bool) -> SPst {
    SPst {
        cur: st.cur.push(Atom::Lit(c as u32)),
        comp_chars: sp_count(st.comp_chars, if two { 2 } else { 1 }),
        stars_only: false,
        ..st
    }
}

/// Append a `*` wildcard; consecutive runs collapse into one atom.
pub open spec fn sp_star(st: SPst) -> SPst {
    SPst {
        cur: if st.cur.len() > 0 && st.cur.last() == Atom::Star {
            st.cur
        } else {
            st.cur.push(Atom::Star)
        },
        magic: true,
        comp_chars: sp_count(st.comp_chars, 1),
        ..st
    }
}

/// Append a `?` wildcard.
pub open spec fn sp_any(st: SPst) -> SPst {
    SPst {
        cur: st.cur.push(Atom::Any),
        magic: true,
        comp_chars: sp_count(st.comp_chars, 1),
        stars_only: false,
        ..st
    }
}

/// Open a group of alternatives.
pub open spec fn sp_open_group(st: SPst, op: GroupOp, two: bool) -> SPst {
    SPst {
        stack: st.stack.push(SFrame { op, alt_ids: Seq::empty(), outer: st.cur }),
        cur: Seq::empty(),
        magic: true,
        comp_chars: sp_count(st.comp_chars, if two { 2 } else { 1 }),
        stars_only: false,
        ..st
    }
}

/// Finish the current group alternative and start the next one.
pub open spec fn sp_next_alt(st: SPst) -> SPst {
    let (st1, id) = sp_register(st);
    let f = st1.stack.last();
    SPst {
        stack: st1.stack.update(
            st1.stack.len() - 1,
            SFrame { alt_ids: f.alt_ids.push(id), ..f },
        ),
        comp_chars: sp_count(st1.comp_chars, 1),
        ..st1
    }
}

/// Close the innermost group: register the last alternative, store the
/// alternative ids in the arena, and append the group atom.
pub open spec fn sp_close_group(st: SPst) -> SPst {
    let (st1, id) = sp_register(st);
    let f = st1.stack.last();
    let ids = f.alt_ids.push(id);
    let g = Atom::Group {
        op: f.op,
        start: st1.alts.len() as usize,
        len: ids.len() as usize,
    };
    SPst {
        alts: st1.alts + ids,
        stack: st1.stack.drop_last(),
        cur: f.outer.push(g),
        comp_chars: sp_count(st1.comp_chars, 1),
        ..st1
    }
}

/// End the current `/`-separated component. A component that was exactly
/// `**` becomes a directory-recursion marker when that option is enabled;
/// any other component is registered as a program.
pub open spec fn sp_end_comp(st: SPst, flags: ZlobFlags) -> SPst {
    if flags.has(DOUBLESTAR_RECURSIVE_BIT) && st.stars_only && st.comp_chars == 2 {
        SPst {
            comps: st.comps.push(Comp::Star2),
            cur: Seq::empty(),
            magic: true,
            comp_chars: 0,
            stars_only: true,
            ..st
        }
    } else {
        let (st1, id) = sp_register(st);
        SPst {
            comps: st1.comps.push(Comp::Prog(id)),
            comp_chars: 0,
            stars_only: true,
            ..st1
        }
    }
}

/// Open a bracket expression.
pub open spec fn sp_open_class(st: SPst) -> SPst {
    SPst {
        cls: Some(
            SCls {
                start: st.items.len() as usize,
                negated: false,
                begin: true,
                first: true,
                prev: None,
                dash: false,
            },
        ),
        comp_chars: sp_count(st.comp_chars, 1),
        stars_only: false,
        ..st
    }
}

/// Add one member character to the open bracket expression.
pub open spec fn sp_cls_member(st: SPst, cl: SCls, c: char, two: bool) -> SPst {
    let n = sp_count(st.comp_chars, if two { 2 } else { 1 });
    if cl.dash {
        SPst {
            items: st.items.push(
                match cl.prev {
                    Some(p) => ClassItem::Between(p, c as u32),
                    None => ClassItem::Ch(c as u32),
                },
            ),
            cls: Some(SCls { begin: false, first: false, prev: None, dash: false, ..cl }),
            comp_chars: n,
            ..st
        }
    } else if c == '-' && cl.prev is Some {
        SPst {
            cls: Some(SCls { begin: false, first: false, dash: true, ..cl }),
            comp_chars: n,
            ..st
        }
    } else {
        SPst {
            items: match cl.prev {
                Some(p) => st.items.push(ClassItem::Ch(p)),
                None => st.items,
            },
            cls: Some(SCls { begin: false, first: false, prev: Some(c as u32), dash: false, ..cl }),
            comp_chars: n,
            ..st
        }
    }
}

/// Close the open bracket expression and append the class atom.
pub open spec fn sp_close_class(st: SPst, cl: SCls) -> SPst {
    let items1 = match cl.prev {
        Some(p) => st.items.push(ClassItem::Ch(p)),
        None => st.items,
    };
    let items2 = if cl.dash {
        items1.push(ClassItem::Ch('-' as u32))
    } else {
        items1
    };
    SPst {
        items: items2,
        cur: st.cur.push(
            Atom::Class {
                start: cl.start,
                len: (items2.len() - cl.start) as usize,
                negated: cl.negated,
            },
        ),
        cls: None,
        magic: true,
        comp_chars: sp_count(st.comp_chars, 1),
        ..st
    }
}

/// The extended-group operator of a character, if any.
pub open spec fn ext_op_of(c: char) -> Option<GroupOp> {
    if c == '?' {
        Some(GroupOp::ZeroOne)
    } else if c == '*' {
        Some(GroupOp::ZeroMore)
    } else if c == '+' {
        Some(GroupOp::OneMore)
    } else if c == '@' {
        Some(GroupOp::One)
    } else if c == '!' {
        Some(GroupOp::Not)
    } else {
        None
    }
}

/// One parser step on character `c` with one character of lookahead.
/// `None` is a compile error; otherwise the new state and whether two
/// characters were consumed.
pub open spec fn p_step(
    st: SPst,
    c: char,
    nxt: Option<char>,
    flags: ZlobFlags,
    split_slash: bool,
) -> Option<(SPst, bool)> {
    let noescape = flags.has(NOESCAPE_BIT);
    match st.cls {
        Some(cl) => {
            if c == '\\' && !noescape {
                match nxt {
                    Some(d) => Some((sp_cls_member(st, cl, d, true), true)),
                    None => None,
                }
            } else if c == ']' && !cl.first {
                Some((sp_close_class(st, cl), false))
            } else if cl.begin && (c == '!' || c == '^') {
                Some(
                    (
                        SPst {
                            cls: Some(SCls { negated: true, begin: false, ..cl }),
                            comp_chars: sp_count(st.comp_chars, 1),
                            ..st
                        },
                        false,
                    ),
                )
            } else {
                Some((sp_cls_member(st, cl, c, false), false))
            }
        },
        None => {
            if c == '\\' && !noescape {
                match nxt {
                    Some(d) => Some((sp_lit(st, d, true), true)),
                    None => Some((sp_lit(st, '\\', false), false)),
                }
            } else if flags.has(EXTGLOB_BIT) && nxt == Some('(') && ext_op_of(c) is Some {
                Some((sp_open_group(st, ext_op_of(c).unwrap(), true), true))
            } else if c == '*' {
                Some((sp_star(st), false))
            } else if c == '?' {
                Some((sp_any(st), false))
            } else if c == '[' {
                Some((sp_open_class(st), false))
            } else if c == '{' && flags.has(BRACE_BIT) {
                Some((sp_open_group(st, GroupOp::Alts, false), false))
            } else if c == ',' && st.stack.len() > 0 && st.stack.last().op == GroupOp::Alts {
                Some((sp_next_alt(st), false))
            } else if c == '|' && st.stack.len() > 0 && st.stack.last().op != GroupOp::Alts {
                Some((sp_next_alt(st), false))
            } else if c == '}' && st.stack.len() > 0 && st.stack.last().op == GroupOp::Alts {
                Some((sp_close_group(st), false))
            } else if c == ')' && st.stack.len() > 0 && st.stack.last().op != GroupOp::Alts {
                Some((sp_close_group(st), false))
            } else if c == '/' && split_slash {
                if st.stack.len() > 0 {
                    None
                } else {
                    Some((sp_end_comp(st, flags), false))
                }
            } else {
                Some((sp_lit(st, c, false), false))
            }
        },
    }
}

/// Finish parsing: an open bracket expression or group is a compile
/// error; otherwise the final component is closed and the pattern built.
pub open spec fn p_finish(st: SPst, flags: ZlobFlags) -> Option<SPat> {
    if st.cls is Some || st.stack.len() > 0 {
        None
    } else {
        Some(st_pat(sp_end_comp(st, flags)))
    }
}

/// Run the parser from position `i`.
pub open spec fn p_run(
    s: Seq<char>,
    i: int,
    st: SPst,
    flags: ZlobFlags,
    split_slash: bool,
) -> Option<SPat>
    decreases s.len() - i,
{
    if i < 0 || i >= s.len() {
        p_finish(st, flags)
    } else {
        let nxt = if i + 1 < s.len() {
            Some(s[i + 1])
        } else {
            None
        };
        match p_step(st, s[i], nxt, flags, split_slash) {
            None => None,
            Some((st2, two)) => {
                let k: int = if two && i + 2 <= s.len() {
                    2
                } else {
                    1
                };
                p_run(s, i + k, st2, flags, split_slash)
            },
        }
    }
}

/// The compiled form of a pattern, or `None` when the pattern is
/// malformed (an unterminated bracket expression or group, or a group
/// spanning a `/`).
pub open spec fn spec_compile(s: Seq<char>, flags: ZlobFlags, split_slash: bool) -> Option<SPat> {
    p_run(s, 0, p_init(), flags, split_slash)
}

/// An open group during parsing.
pub struct Frame {
    pub op: GroupOp,
    pub alt_ids: Vec<usize>,
    pub outer: Vec<Atom>,
}

impl View for Frame {
    type V = SFrame;

    open spec fn view(&self) -> SFrame {
        SFrame { op: self.op, alt_ids: self.alt_ids@, outer: self.outer@ }
    }
}

/// A bracket expression being parsed.
#[derive(Clone, Copy)]
pub struct ClsAcc {
    pub start: usize,
    pub negated: bool,
    pub begin: bool,
    pub first: bool,
    pub prev: Option<u32>,
    pub dash: bool,
}

impl View for ClsAcc {
    type V = SCls;

    open spec fn view(&self) -> SCls {
        SCls {
            start: self.start,
            negated: self.negated,
            begin: self.begin,
            first: self.first,
            prev: self.prev,
            dash: self.dash,
        }
    }
}

/// The parser's working state.
pub struct PBuild {
    pub comps: Vec<Comp>,
    pub progs: Vec<Span>,
    pub atoms: Vec<Atom>,
    pub items: Vec<ClassItem>,
    pub alts: Vec<usize>,
    pub stack: Vec<Frame>,
    pub cur: Vec<Atom>,
    pub magic: bool,
    pub cls: Option<ClsAcc>,
    pub comp_chars: u8,
    pub stars_only: bool,
}

impl View for PBuild {
    type V = SPst;

    open spec fn view(&self) -> SPst {
        SPst {
            comps: self.comps@,
            progs: self.progs@,
            atoms: self.atoms@,
            items: self.items@,
            alts: self.alts@,
            stack: self.stack@.map_values(|f: Frame| f@),
            cur: self.cur@,
            magic: self.magic,
            cls: match self.cls {
                Some(c) => Some(c@),
                None => None,
            },
            comp_chars: self.comp_chars as nat,
            stars_only: self.stars_only,
        }
    }
}

/// Atom well-formedness is monotone in the arena sizes and the bound.
proof fn lemma_atoms_ok_mono(
    atoms: Seq<Atom>,
    il1: int,
    il2: int,
    alts1: Seq<usize>,
    alts2: Seq<usize>,
    b1: int,
    b2: int,
)
    requires
        atoms_ok(atoms, il1, alts1, b1),
        il1 <= il2,
        b1 <= b2,
        alts1.len() <= alts2.len(),
        forall|j: int| 0 <= j < alts1.len() ==> alts2[j] == alts1[j],
    ensures
        atoms_ok(atoms, il2, alts2, b2),
{
    assert forall|k: int| 0 <= k < atoms.len() implies atom_ok(
        #[trigger] atoms[k],
        il2,
        alts2,
        b2,
    ) by {
        assert(atom_ok(atoms[k], il1, alts1, b1));
        match atoms[k] {
            Atom::Group { op, start, len } => {
                assert forall|j: int| start <= j < start + len implies (#[trigger] alts2[j])
                    < b2 by {
                    assert(alts1[j] < b1);
                }
            },
            _ => {},
        }
    }
}

/// A well-formed atom may be appended to a well-formed sequence.
proof fn lemma_atoms_ok_push(atoms: Seq<Atom>, a: Atom, il: int, alts: Seq<usize>, b: int)
    requires
        atoms_ok(atoms, il, alts, b),
        atom_ok(a, il, alts, b),
    ensures
        atoms_ok(atoms.push(a), il, alts, b),
{
    assert forall|k: int| 0 <= k < atoms.push(a).len() implies atom_ok(
        #[trigger] atoms.push(a)[k],
        il,
        alts,
        b,
    ) by {
        if k < atoms.len() {
            assert(atoms.push(a)[k] == atoms[k]);
        } else {
            assert(atoms.push(a)[k] == a);
        }
    }
}

/// Registering the current alternative as a new program keeps the state
/// well formed.
proof fn lemma_register_swf(st: SPst)
    requires
        swf(st),
        st.atoms.len() + st.cur.len() <= usize::MAX,
        st.progs.len() < usize::MAX,
    ensures
        swf(sp_register(st).0),
        sp_register(st).1 == st.progs.len(),
{
    let n = sp_register(st).0;
    let q2 = st.progs.len() as int;
    assert forall|q: int| 0 <= q < n.progs.len() implies #[trigger] st_pat(n).prog_wf(q) by {
        if q < q2 {
            assert(st_pat(st).prog_wf(q));
            let lo = st.progs[q].start as int;
            let hi = lo + st.progs[q].len;
            assert forall|k: int| lo <= k < hi implies atom_ok(
                #[trigger] n.atoms[k],
                n.items.len() as int,
                n.alts,
                q,
            ) by {
                assert(n.atoms[k] == st.atoms[k]);
            }
        } else {
            let lo = st.atoms.len() as int;
            assert forall|k: int| lo <= k < lo + st.cur.len() implies atom_ok(
                #[trigger] n.atoms[k],
                n.items.len() as int,
                n.alts,
                q,
            ) by {
                assert(n.atoms[k] == st.cur[k - lo]);
                assert(atom_ok(st.cur[k - lo], st.items.len() as int, st.alts, q2));
            }
        }
    }
    assert forall|fi: int| 0 <= fi < n.stack.len() implies atoms_ok(
        (#[trigger] n.stack[fi]).outer,
        n.items.len() as int,
        n.alts,
        n.progs.len() as int,
    ) by {
        lemma_atoms_ok_mono(
            n.stack[fi].outer,
            st.items.len() as int,
            n.items.len() as int,
            st.alts,
            n.alts,
            st.progs.len() as int,
            n.progs.len() as int,
        );
    }
}

/// Growing the item arena (and adjusting only the open bracket state)
/// keeps the state well formed.
proof fn lemma_swf_items_grow(st: SPst, n: SPst)
    requires
        swf(st),
        n.comps == st.comps,
        n.progs == st.progs,
        n.atoms == st.atoms,
        n.alts == st.alts,
        n.stack == st.stack,
        n.cur == st.cur,
        st.items.len() <= n.items.len(),
        (n.cls matches Some(cl) ==> cl.start <= n.items.len()),
    ensures
        swf(n),
{
    assert forall|q: int| 0 <= q < n.progs.len() implies #[trigger] st_pat(n).prog_wf(q) by {
        assert(st_pat(st).prog_wf(q));
        let lo = n.progs[q].start as int;
        let hi = lo + n.progs[q].len;
        assert forall|k: int| lo <= k < hi implies atom_ok(
            #[trigger] n.atoms[k],
            n.items.len() as int,
            n.alts,
            q,
        ) by {
            assert(atom_ok(st.atoms[k], st.items.len() as int, st.alts, q));
            lemma_atom_ok_items_grow(st.atoms[k], st.items.len() as int, n.items.len() as int, st.alts, q);
        }
    }
    lemma_atoms_ok_mono(
        n.cur,
        st.items.len() as int,
        n.items.len() as int,
        st.alts,
        n.alts,
        st.progs.len() as int,
        n.progs.len() as int,
    );
    assert forall|fi: int| 0 <= fi < n.stack.len() implies atoms_ok(
        (#[trigger] n.stack[fi]).outer,
        n.items.len() as int,
        n.alts,
        n.progs.len() as int,
    ) by {
        lemma_atoms_ok_mono(
            n.stack[fi].outer,
            st.items.len() as int,
            n.items.len() as int,
            st.alts,
            n.alts,
            st.progs.len() as int,
            n.progs.len() as int,
        );
    }
}

/// Well-formedness is kept when only the component list is extended with
/// entries that name registered programs.
proof fn lemma_wf_same_fields_comps(p1: SPat, p2: SPat)
    requires
        p1.wf(),
        p2.progs == p1.progs,
        p2.atoms == p1.atoms,
        p2.items == p1.items,
        p2.alts == p1.alts,
        p2.comps.len() == p1.comps.len() + 1,
        forall|ci: int| 0 <= ci < p1.comps.len() ==> p2.comps[ci] == p1.comps[ci],
        (match p2.comps.last() {
            Comp::Prog(q) => q < p2.progs.len(),
            Comp::Star2 => true,
        }),
    ensures
        p2.wf(),
{
    assert forall|q: int| 0 <= q < p2.progs.len() implies #[trigger] p2.prog_wf(q) by {
        assert(p1.prog_wf(q));
        assert forall|k: int|
            p2.progs[q].start <= k < p2.progs[q].start + p2.progs[q].len implies p2.atom_wf(
            #[trigger] p2.atoms[k],
            q,
        ) by {
            assert(p1.atom_wf(p1.atoms[k], q));
        }
    }
    assert forall|ci: int| 0 <= ci < p2.comps.len() implies (match #[trigger] p2.comps[ci] {
        Comp::Prog(q) => q < p2.progs.len(),
        Comp::Star2 => true,
    }) by {
        if ci < p1.comps.len() {
            assert(p2.comps[ci] == p1.comps[ci]);
        } else {
            assert(p2.comps[ci] == p2.comps.last());
        }
    }
}

/// Well-formedness depends only on the structural fields.
proof fn lemma_wf_same_fields(p1: SPat, p2: SPat)
    requires
        p1.wf(),
        p2.comps == p1.comps,
        p2.progs == p1.progs,
        p2.atoms == p1.atoms,
        p2.items == p1.items,
        p2.alts == p1.alts,
    ensures
        p2.wf(),
{
    assert forall|q: int| 0 <= q < p2.progs.len() implies #[trigger] p2.prog_wf(q) by {
        assert(p1.prog_wf(q));
        assert forall|k: int|
            p2.progs[q].start <= k < p2.progs[q].start + p2.progs[q].len implies p2.atom_wf(
            #[trigger] p2.atoms[k],
            q,
        ) by {
            assert(p1.atom_wf(p1.atoms[k], q));
        }
    }
}

/// One atom stays well formed when the item arena grows.
proof fn lemma_atom_ok_items_grow(a: Atom, il1: int, il2: int, alts: Seq<usize>, b: int)
    requires
        atom_ok(a, il1, alts, b),
        il1 <= il2,
    ensures
        atom_ok(a, il2, alts, b),
{
}

/// The extended-group operator of a character.
fn ext_op(c: char) -> (r: Option<GroupOp>)
    ensures
        r == ext_op_of(c),
{
    if c == '?' {
        Some(GroupOp::ZeroOne)
    } else if c == '*' {
        Some(GroupOp::ZeroMore)
    } else if c == '+' {
        Some(GroupOp::OneMore)
    } else if c == '@' {
        Some(GroupOp::One)
    } else if c == '!' {
        Some(GroupOp::Not)
    } else {
        None
    }
}

impl PBuild {
    fn new() -> (r: Self)
        ensures
            r@ == p_init(),
    {
        let r = PBuild {
            comps: Vec::new(),
            progs: Vec::new(),
            atoms: Vec::new(),
            items: Vec::new(),
            alts: Vec::new(),
            stack: Vec::new(),
            cur: Vec::new(),
            magic: false,
            cls: None,
            comp_chars: 0,
            stars_only: true,
        };
        proof {
            assert(r@ =~= p_init());
        }
        r
    }

    /// Count `k` source characters toward the current component.
    fn bump(&mut self, k: u8)
        requires
            k <= 2,
        ensures
            final(self)@ == (SPst {
                comp_chars: sp_count(old(self)@.comp_chars, k as nat),
                ..old(self)@
            }),
            swf(old(self)@) ==> swf(final(self)@),
    {
        if self.comp_chars as u32 + k as u32 > 3 {
            self.comp_chars = 3;
        } else {
            self.comp_chars = self.comp_chars + k;
        }
        proof {
            assert(self@ =~= SPst {
                comp_chars: sp_count(old(self)@.comp_chars, k as nat),
                ..old(self)@
            });
        }
    }

    /// Close the current alternative and register it as a program.
    fn register(&mut self) -> (id: usize)
        ensures
            final(self)@ == sp_register(old(self)@).0,
            id == sp_register(old(self)@).1,
            swf(old(self)@) ==> swf(final(self)@),
    {
        let id = self.progs.len();
        let sp = Span { start: self.atoms.len(), len: self.cur.len() };
        self.progs.push(sp);
        self.atoms.append(&mut self.cur);
        proof {
            assert(self@ =~= sp_register(old(self)@).0);
            if swf(old(self)@) {
                assert(self.atoms.len() == old(self)@.atoms.len() + old(self)@.cur.len());
                assert(self.progs.len() == old(self)@.progs.len() + 1);
                lemma_register_swf(old(self)@);
            }
        }
        id
    }

    fn push_lit(&mut self, c: char, two: bool)
        ensures
            final(self)@ == sp_lit(old(self)@, c, two),
            swf(old(self)@) ==> swf(final(self)@),
    {
        self.cur.push(Atom::Lit(c as u32));
        self.bump(if two { 2 } else { 1 });
        self.stars_only = false;
        proof {
            assert(self@ =~= sp_lit(old(self)@, c, two));
            if swf(old(self)@) {
                let o = old(self)@;
                lemma_atoms_ok_push(
                    o.cur,
                    Atom::Lit(c as u32),
                    o.items.len() as int,
                    o.alts,
                    o.progs.len() as int,
                );
            }
        }
    }

    fn push_star(&mut self)
        ensures
            final(self)@ == sp_star(old(self)@),
            swf(old(self)@) ==> swf(final(self)@),
    {
        let n = self.cur.len();
        let collapse = n > 0 && matches!(self.cur[n - 1], Atom::Star);
        if !collapse {
            self.cur.push(Atom::Star);
        }
        self.magic = true;
        self.bump(1);
        proof {
            assert(self@ =~= sp_star(old(self)@));
            if swf(old(self)@) {
                let o = old(self)@;
                lemma_atoms_ok_push(
                    o.cur,
                    Atom::Star,
                    o.items.len() as int,
                    o.alts,
                    o.progs.len() as int,
                );
                lemma_wf_same_fields(st_pat(o), st_pat(self@));
            }
        }
    }

    fn push_any(&mut self)
        ensures
            final(self)@ == sp_any(old(self)@),
            swf(old(self)@) ==> swf(final(self)@),
    {
        self.cur.push(Atom::Any);
        self.magic = true;
        self.bump(1);
        self.stars_only = false;
        proof {
            assert(self@ =~= sp_any(old(self)@));
            if swf(old(self)@) {
                let o = old(self)@;
                lemma_atoms_ok_push(
                    o.cur,
                    Atom::Any,
                    o.items.len() as int,
                    o.alts,
                    o.progs.len() as int,
                );
                lemma_wf_same_fields(st_pat(o), st_pat(self@));
            }
        }
    }

    fn open_group(&mut self, op: GroupOp, two: bool)
        ensures
            final(self)@ == sp_open_group(old(self)@, op, two),
            swf(old(self)@) ==> swf(final(self)@),
    {
        let mut outer: Vec<Atom> = Vec::new();
        outer.append(&mut self.cur);
        self.stack.push(Frame { op, alt_ids: Vec::new(), outer });
        self.magic = true;
        self.bump(if two { 2 } else { 1 });
        self.stars_only = false;
        proof {
            assert(self@.stack =~= sp_open_group(old(self)@, op, two).stack);
            assert(self@ =~= sp_open_group(old(self)@, op, two));
            if swf(old(self)@) {
                let o = old(self)@;
                let n = self@;
                lemma_wf_same_fields(st_pat(o), st_pat(n));
                assert forall|fi: int| 0 <= fi < n.stack.len() implies atoms_ok(
                    (#[trigger] n.stack[fi]).outer,
                    n.items.len() as int,
                    n.alts,
                    n.progs.len() as int,
                ) by {
                    if fi < o.stack.len() {
                        assert(n.stack[fi] == o.stack[fi]);
                    } else {
                        assert(n.stack[fi].outer == o.cur);
                    }
                }
                assert forall|fi: int, j: int|
                    0 <= fi < n.stack.len() && 0 <= j < n.stack[fi].alt_ids.len() implies (
                #[trigger] n.stack[fi].alt_ids[j]) < n.progs.len() by {
                    if fi < o.stack.len() {
                        assert(n.stack[fi] == o.stack[fi]);
                    }
                }
            }
        }
    }

    fn next_alt(&mut self)
        requires
            old(self).stack.len() > 0,
        ensures
            final(self)@ == sp_next_alt(old(self)@),
            swf(old(self)@) ==> swf(final(self)@),
    {
        let ghost o = self@;
        let id = self.register();
        let ghost mid = self@;
        let mut f = self.stack.pop().unwrap();
        f.alt_ids.push(id);
        self.stack.push(f);
        self.bump(1);
        proof {
            assert(self@.stack =~= sp_next_alt(old(self)@).stack);
            assert(self@ =~= sp_next_alt(old(self)@));
            if swf(o) {
                let n = self@;
                assert(swf(mid));
                lemma_wf_same_fields(st_pat(mid), st_pat(n));
                assert forall|fi: int| 0 <= fi < n.stack.len() implies atoms_ok(
                    (#[trigger] n.stack[fi]).outer,
                    n.items.len() as int,
                    n.alts,
                    n.progs.len() as int,
                ) by {
                    assert(n.stack[fi].outer == mid.stack[fi].outer);
                }
                assert forall|fi: int, j: int|
                    0 <= fi < n.stack.len() && 0 <= j < n.stack[fi].alt_ids.len() implies (
                #[trigger] n.stack[fi].alt_ids[j]) < n.progs.len() by {
                    if fi == n.stack.len() - 1 && j == n.stack[fi].alt_ids.len() - 1 {
                        assert(n.stack[fi].alt_ids[j] == id);
                    } else {
                        assert(n.stack[fi].alt_ids[j] == mid.stack[fi].alt_ids[j]);
                    }
                }
            }
        }
    }

    fn close_group(&mut self)
        requires
            old(self).stack.len() > 0,
        ensures
            final(self)@ == sp_close_group(old(self)@),
            swf(old(self)@) ==> swf(final(self)@),
    {
        let ghost o = self@;
        let id = self.register();
        let ghost mid = self@;
        let mut f = self.stack.pop().unwrap();
        f.alt_ids.push(id);
        let g = Atom::Group { op: f.op, start: self.alts.len(), len: f.alt_ids.len() };
        let ghost ids = f.alt_ids@;
        self.alts.append(&mut f.alt_ids);
        self.cur = f.outer;
        self.cur.push(g);
        self.bump(1);
        proof {
            assert(self@.stack =~= sp_close_group(old(self)@).stack);
            assert(self@ =~= sp_close_group(old(self)@));
            if swf(o) {
                let n = self@;
                assert(swf(mid));
                // the registered programs stay well formed under the longer
                // alternative arena
                assert forall|q: int| 0 <= q < n.progs.len() implies #[trigger] st_pat(
                    n,
                ).prog_wf(q) by {
                    assert(st_pat(mid).prog_wf(q));
                    let lo = n.progs[q].start as int;
                    let hi = lo + n.progs[q].len;
                    assert forall|k: int| lo <= k < hi implies atom_ok(
                        #[trigger] n.atoms[k],
                        n.items.len() as int,
                        n.alts,
                        q,
                    ) by {
                        lemma_atoms_ok_mono(
                            seq![mid.atoms[k]],
                            mid.items.len() as int,
                            n.items.len() as int,
                            mid.alts,
                            n.alts,
                            q,
                            q,
                        );
                        assert(atom_ok(mid.atoms[k], mid.items.len() as int, mid.alts, q));
                        assert(seq![mid.atoms[k]][0] == mid.atoms[k]);
                    }
                }
                // the new group atom is well formed
                let gs = mid.alts.len() as int;
                assert forall|j: int| gs <= j < gs + ids.len() implies (
                #[trigger] n.alts[j]) < n.progs.len() by {
                    assert(n.alts[j] == ids[j - mid.alts.len()]);
                    if j - mid.alts.len() < ids.len() - 1 {
                        assert(ids[j - mid.alts.len()] == mid.stack.last().alt_ids[j - mid.alts.len()]);
                    } else {
                        assert(ids[j - mid.alts.len()] == id);
                    }
                }
                assert(atom_ok(g, n.items.len() as int, n.alts, n.progs.len() as int));
                lemma_atoms_ok_mono(
                    mid.stack.last().outer,
                    mid.items.len() as int,
                    n.items.len() as int,
                    mid.alts,
                    n.alts,
                    mid.progs.len() as int,
                    n.progs.len() as int,
                );
                lemma_atoms_ok_push(
                    mid.stack.last().outer,
                    g,
                    n.items.len() as int,
                    n.alts,
                    n.progs.len() as int,
                );
                // remaining frames
                assert forall|fi: int| 0 <= fi < n.stack.len() implies atoms_ok(
                    (#[trigger] n.stack[fi]).outer,
                    n.items.len() as int,
                    n.alts,
                    n.progs.len() as int,
                ) by {
                    assert(n.stack[fi] == mid.stack[fi]);
                    lemma_atoms_ok_mono(
                        mid.stack[fi].outer,
                        mid.items.len() as int,
                        n.items.len() as int,
                        mid.alts,
                        n.alts,
                        mid.progs.len() as int,
                        n.progs.len() as int,
                    );
                }
                assert forall|fi: int, j: int|
                    0 <= fi < n.stack.len() && 0 <= j < n.stack[fi].alt_ids.len() implies (
                #[trigger] n.stack[fi].alt_ids[j]) < n.progs.len() by {
                    assert(n.stack[fi] == mid.stack[fi]);
                }
            }
        }
    }

    fn end_comp(&mut self, flags: ZlobFlags)
        ensures
            final(self)@ == sp_end_comp(old(self)@, flags),
            swf(old(self)@) ==> swf(final(self)@),
    {
        if flags.test(DOUBLESTAR_RECURSIVE_BIT) && self.stars_only && self.comp_chars == 2 {
            self.comps.push(Comp::Star2);
            self.cur.clear();
            self.magic = true;
            self.comp_chars = 0;
            self.stars_only = true;
            proof {
                assert(self@ =~= sp_end_comp(old(self)@, flags));
                if swf(old(self)@) {
                    let o = old(self)@;
                    let n = self@;
                    lemma_wf_same_fields_comps(st_pat(o), st_pat(n));
                }
            }
        } else {
            let ghost o = self@;
            let id = self.register();
            let ghost mid = self@;
            self.comps.push(Comp::Prog(id));
            self.comp_chars = 0;
            self.stars_only = true;
            proof {
                assert(self@ =~= sp_end_comp(old(self)@, flags));
                if swf(o) {
                    let n = self@;
                    assert(swf(mid));
                    lemma_wf_same_fields_comps(st_pat(mid), st_pat(n));
                }
            }
        }
    }

    fn open_class(&mut self)
        ensures
            final(self)@ == sp_open_class(old(self)@),
            swf(old(self)@) ==> swf(final(self)@),
    {
        self.cls = Some(
            ClsAcc {
                start: self.items.len(),
                negated: false,
                begin: true,
                first: true,
                prev: None,
                dash: false,
            },
        );
        self.bump(1);
        self.stars_only = false;
        proof {
            assert(self@ =~= sp_open_class(old(self)@));
            if swf(old(self)@) {
                lemma_wf_same_fields(st_pat(old(self)@), st_pat(self@));
            }
        }
    }

    fn cls_member(&mut self, c: char, two: bool)
        requires
            (old(self).cls is Some),
        ensures
            final(self)@ == sp_cls_member(old(self)@, old(self).cls.unwrap()@, c, two),
            swf(old(self)@) ==> swf(final(self)@),
    {
        let cl = self.cls.unwrap();
        if cl.dash {
            let it = match cl.prev {
                Some(p) => ClassItem::Between(p, c as u32),
                None => ClassItem::Ch(c as u32),
            };
            self.items.push(it);
            self.cls = Some(
                ClsAcc { begin: false, first: false, prev: None, dash: false, ..cl },
            );
        } else if c == '-' && cl.prev.is_some() {
            self.cls = Some(ClsAcc { begin: false, first: false, dash: true, ..cl });
        } else {
            match cl.prev {
                Some(p) => self.items.push(ClassItem::Ch(p)),
                None => (),
            }
            self.cls = Some(
                ClsAcc { begin: false, first: false, prev: Some(c as u32), dash: false, ..cl },
            );
        }
        self.bump(if two { 2 } else { 1 });
        proof {
            assert(self@ =~= sp_cls_member(old(self)@, old(self).cls.unwrap()@, c, two));
            if swf(old(self)@) {
                assert(self.items@.len() >= old(self)@.items.len());
                lemma_swf_items_grow(old(self)@, self@);
            }
        }
    }

    fn close_class(&mut self)
        requires
            (old(self).cls is Some),
            old(self).cls.unwrap().start <= old(self).items.len(),
        ensures
            final(self)@ == sp_close_class(old(self)@, old(self).cls.unwrap()@),
            swf(old(self)@) ==> swf(final(self)@),
    {
        let cl = self.cls.unwrap();
        if let Some(p) = cl.prev {
            self.items.push(ClassItem::Ch(p));
        }
        if cl.dash {
            self.items.push(ClassItem::Ch('-' as u32));
        }
        assert(cl.start <= self.items.len());
        let a = Atom::Class {
            start: cl.start,
            len: self.items.len() - cl.start,
            negated: cl.negated,
        };
        self.cur.push(a);
        self.cls = None;
        self.magic = true;
        self.bump(1);
        proof {
            assert(self@ =~= sp_close_class(old(self)@, old(self).cls.unwrap()@));
            if swf(old(self)@) {
                let o = old(self)@;
                let n = self@;
                let grown = SPst { items: n.items, cls: None, ..o };
                lemma_swf_items_grow(o, grown);
                assert(atom_ok(
                    Atom::Class {
                        start: o.cls.unwrap().start,
                        len: (n.items.len() - o.cls.unwrap().start) as usize,
                        negated: o.cls.unwrap().negated,
                    },
                    n.items.len() as int,
                    n.alts,
                    n.progs.len() as int,
                ));
                lemma_atoms_ok_push(
                    o.cur,
                    Atom::Class {
                        start: o.cls.unwrap().start,
                        len: (n.items.len() - o.cls.unwrap().start) as usize,
                        negated: o.cls.unwrap().negated,
                    },
                    n.items.len() as int,
                    n.alts,
                    n.progs.len() as int,
                );
                lemma_wf_same_fields(st_pat(grown), st_pat(n));
            }
        }
    }
}

/// A parser step keeps the open bracket expression's start inside the
/// item arena.
proof fn lemma_step_cls(st: SPst, c: char, nxt: Option<char>, flags: ZlobFlags, split_slash: bool)
    requires
        (st.cls matches Some(cl) ==> cl.start <= st.items.len()),
        st.items.len() <= usize::MAX,
    ensures
        (match p_step(st, c, nxt, flags, split_slash) {
            Some((st2, two)) => (st2.cls matches Some(cl2) ==> cl2.start <= st2.items.len()),
            None => true,
        }),
{
    assert(forall|x: ClassItem| #[trigger] st.items.push(x).len() == st.items.len() + 1);
}

/// Compile a glob pattern into its segment-oriented program.
///
/// Fails exactly on malformed patterns: an unterminated bracket
/// expression or group, or a group spanning a `/`.
#[verifier::rlimit(100)]
pub fn compile(pattern: &Vec<char>, flags: ZlobFlags, split_slash: bool) -> (r: Result<
    CompiledPattern,
    ZlobError,
>)
    ensures
        (match spec_compile(pattern@, flags, split_slash) {
            Some(sp) => r matches Ok(cp) && cp@ == sp,
            None => r == Err::<CompiledPattern, ZlobError>(ZlobError::Aborted),
        }),
        (r matches Ok(cp) ==> cp@.wf()),
{
    let n = pattern.len();
    let mut st = PBuild::new();
    let mut i: usize = 0;
    while i < n
        invariant
            n == pattern.len(),
            i <= n,
            p_run(pattern@, i as int, st@, flags, split_slash) == spec_compile(pattern@, flags, split_slash),
            (st@.cls matches Some(cl) ==> cl.start <= st@.items.len()),
            swf(st@),
        decreases n - i,
    {
        let c = pattern[i];
        let two_avail = i + 1 < n;
        let nxt: Option<char> = if two_avail {
            Some(pattern[i + 1])
        } else {
            None
        };
        let ghost pre = st@;
        proof {
            broadcast use vstd::std_specs::vec::group_vec_axioms;
            assert(st.items.len() == pre.items.len());
            assert(pre.items.len() <= usize::MAX);
        }
        let noescape = flags.test(NOESCAPE_BIT);
        let mut consumed: usize = 1;
        if st.cls.is_some() {
            let cl = st.cls.unwrap();
            if c == '\\' && !noescape {
                match nxt {
                    Some(d) => {
                        st.cls_member(d, true);
                        consumed = 2;
                    },
                    None => {
                        proof {
                            assert(p_step(pre, c, nxt, flags, split_slash) is None);
                        }
                        return Err(ZlobError::Aborted);
                    },
                }
            } else if c == ']' && !cl.first {
                st.close_class();
            } else if cl.begin && (c == '!' || c == '^') {
                st.cls = Some(ClsAcc { negated: true, begin: false, ..cl });
                st.bump(1);
                proof {
                    assert(st@ =~= (SPst {
                        cls: Some(SCls { negated: true, begin: false, ..pre.cls.unwrap() }),
                        comp_chars: sp_count(pre.comp_chars, 1),
                        ..pre
                    }));
                    assert(st_pat(st@) == st_pat(pre));
                    assert(swf(st@));
                }
            } else {
                st.cls_member(c, false);
            }
        } else {
            let eop = ext_op(c);
            let nxt_lparen = match nxt {
                Some(d) => d == '(',
                None => false,
            };
            if c == '\\' && !noescape {
                match nxt {
                    Some(d) => {
                        st.push_lit(d, true);
                        consumed = 2;
                    },
                    None => {
                        st.push_lit('\\', false);
                    },
                }
            } else if flags.test(EXTGLOB_BIT) && nxt_lparen && eop.is_some() {
                st.open_group(eop.unwrap(), true);
                consumed = 2;
            } else if c == '*' {
                st.push_star();
            } else if c == '?' {
                st.push_any();
            } else if c == '[' {
                st.open_class();
            } else if c == '{' && flags.test(BRACE_BIT) {
                st.open_group(GroupOp::Alts, false);
            } else if c == ','
                && st.stack.len() > 0
                && matches!(st.stack[st.stack.len() - 1].op, GroupOp::Alts)
            {
                st.next_alt();
            } else if c == '|'
                && st.stack.len() > 0
                && !matches!(st.stack[st.stack.len() - 1].op, GroupOp::Alts)
            {
                st.next_alt();
            } else if c == '}'
                && st.stack.len() > 0
                && matches!(st.stack[st.stack.len() - 1].op, GroupOp::Alts)
            {
                st.close_group();
            } else if c == ')'
                && st.stack.len() > 0
                && !matches!(st.stack[st.stack.len() - 1].op, GroupOp::Alts)
            {
                st.close_group();
            } else if c == '/' && split_slash {
                if st.stack.len() > 0 {
                    proof {
                        assert(p_step(pre, c, nxt, flags, split_slash) is None);
                    }
                    return Err(ZlobError::Aborted);
                }
                st.end_comp(flags);
            } else {
                st.push_lit(c, false);
            }
        }
        proof {
            assert(p_step(pre, c, nxt, flags, split_slash) == Some((st@, consumed == 2)));
            lemma_step_cls(pre, c, nxt, flags, split_slash);
            assert(p_run(pattern@, i as int, pre, flags, split_slash) == p_run(
                pattern@,
                i + consumed,
                st@,
                flags,
                split_slash,
            ));
        }
        i = i + consumed;
    }
    proof {
        assert(p_run(pattern@, n as int, st@, flags, split_slash) == p_finish(st@, flags));
    }
    if st.cls.is_some() || st.stack.len() > 0 {
        return Err(ZlobError::Aborted);
    }
    let ghost fin_pre = st@;
    st.end_comp(flags);
    let ghost stv = st@;
    let cp = CompiledPattern {
        comps: st.comps,
        progs: st.progs,
        atoms: st.atoms,
        items: st.items,
        alts: st.alts,
        magic: st.magic,
    };
    proof {
        assert(stv == sp_end_comp(fin_pre, flags));
        assert(p_finish(fin_pre, flags) == Some(cp@)) by {
            assert(cp@ =~= p_finish(fin_pre, flags).unwrap());
        }
        assert(cp@.wf()) by {
            assert(swf(stv));
            assert(cp@ =~= st_pat(stv));
        }
    }
    Ok(cp)
}

} // verus!
