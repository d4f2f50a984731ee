//! Path matching and the path-list matcher.
//!
//! For the walker, a path is split on `/` into components and the
//! compiled pattern's components are matched against them one level at a
//! time, a `**` marker consuming zero or more whole levels. The list
//! matcher filters an in-memory list of path strings with no filesystem
//! access; there a pattern is one program over the whole string, its
//! wildcards free to run across `/`.

use vstd::prelude::*;
use crate::error::ZlobError;
use crate::flags::ZlobFlags;
use vstd::string::StringSliceAdditionalSpecFns;
use crate::flags::DOUBLESTAR_RECURSIVE_BIT;
use crate::flags::PERIOD_BIT;
use crate::matcher::comp_match;
use crate::matcher::first_wild;
use crate::matcher::match_at;
use crate::pattern::compile;
use crate::pattern::Atom;
use crate::pattern::Comp;
use crate::pattern::CompiledPattern;
use crate::pattern::SPat;
use crate::pattern::spec_compile;

verus! {

/// The characters of a string, one by one.
pub fn to_chars(s: &str) -> (r: Vec<char>)
    ensures
        r@ == s@,
{
    let n = s.unicode_len();
    let mut r: Vec<char> = Vec::new();
    let mut i: usize = 0;
    while i < n
        invariant
            n == s@.len(),
            0 <= i <= n,
            r@ == s@.subrange(0, i as int),
        decreases n - i,
    {
        let c = s.get_char(i);
        r.push(c);
        proof {
            assert(r@ =~= s@.subrange(0, i + 1));
        }
        i = i + 1;
    }
    proof {
        assert(r@ =~= s@);
    }
    r
}

/// The `/`-separated components of a path. The empty path has one empty
/// component; a separator at either end contributes an empty component.
pub open spec fn spec_split(s: Seq<char>) -> Seq<Seq<char>>
    decreases s.len(),
{
    if s.len() == 0 {
        seq![Seq::<char>::empty()]
    } else if s[0] == '/' {
        seq![Seq::<char>::empty()] + spec_split(s.drop_first())
    } else {
        let rest = spec_split(s.drop_first());
        seq![seq![s[0]] + rest[0]] + rest.drop_first()
    }
}

/// A split always yields at least one component.
pub proof fn lemma_split_len(s: Seq<char>)
    ensures
        spec_split(s).len() >= 1,
    decreases s.len(),
{
    if s.len() > 0 {
        lemma_split_len(s.drop_first());
    }
}

/// The views of a vector of character vectors.
pub open spec fn parts_view(v: Seq<Vec<char>>) -> Seq<Seq<char>> {
    v.map_values(|x: Vec<char>| x@)
}

/// The first component prefixed to the remaining ones.
pub open spec fn glue(cur: Seq<char>, rest: Seq<Seq<char>>) -> Seq<Seq<char>> {
    seq![cur + rest[0]] + rest.drop_first()
}

/// Split a path into its `/`-separated components.
pub fn split_path(path: &Vec<char>) -> (r: Vec<Vec<char>>)
    ensures
        parts_view(r@) == spec_split(path@),
{
    let n = path.len();
    let mut out: Vec<Vec<char>> = Vec::new();
    let mut cur: Vec<char> = Vec::new();
    let mut i: usize = 0;
    proof {
        lemma_split_len(path@);
        assert(path@.skip(0) =~= path@);
        assert(glue(cur@, spec_split(path@)) =~~= spec_split(path@));
        assert(parts_view(out@) + glue(cur@, spec_split(path@)) =~~= glue(
            cur@,
            spec_split(path@),
        ));
    }
    while i < n
        invariant
            n == path@.len(),
            0 <= i <= n,
            spec_split(path@) == parts_view(out@) + glue(cur@, spec_split(path@.skip(i as int))),
        decreases n - i,
    {
        let ghost ssi = spec_split(path@.skip(i as int));
        let ghost ssn = spec_split(path@.skip(i + 1));
        let ghost out0 = out@;
        let ghost cur0 = cur@;
        proof {
            lemma_split_len(path@.skip(i + 1));
            assert(path@.skip(i as int).drop_first() =~= path@.skip(i + 1));
            assert(path@.skip(i as int)[0] == path@[i as int]);
        }
        let c = path[i];
        if c == '/' {
            let mut done: Vec<char> = Vec::new();
            done.append(&mut cur);
            out.push(done);
            proof {
                assert(ssi =~~= seq![Seq::<char>::empty()] + ssn);
                assert(glue(cur0, ssi) =~~= seq![cur0] + ssn);
                assert(glue(cur@, ssn) =~~= ssn);
                assert(parts_view(out@) =~~= parts_view(out0) + seq![cur0]);
                assert(parts_view(out@) + glue(cur@, ssn) =~~= parts_view(out0) + glue(
                    cur0,
                    ssi,
                ));
            }
        } else {
            cur.push(c);
            proof {
                assert(ssi =~~= seq![seq![path@[i as int]] + ssn[0]] + ssn.drop_first());
                assert(cur0 + ssi[0] =~= cur@ + ssn[0]);
                assert(glue(cur0, ssi) =~~= glue(cur@, ssn));
                assert(parts_view(out@) + glue(cur@, ssn) =~~= parts_view(out0) + glue(
                    cur0,
                    ssi,
                ));
            }
        }
        i = i + 1;
    }
    let ghost out0 = out@;
    let ghost cur0 = cur@;
    out.push(cur);
    proof {
        assert(path@.skip(n as int) =~= Seq::<char>::empty());
        assert(glue(cur0, spec_split(Seq::<char>::empty())) =~~= seq![cur0]);
        assert(parts_view(out@) =~~= parts_view(out0) + seq![cur0]);
        assert(parts_view(out@) =~~= spec_split(path@));
    }
    out
}

/// A `**` marker may consume this directory level: a hidden one only when
/// the period option is on.
pub open spec fn star2_may(name: Seq<char>, period: bool) -> bool {
    period || name.len() == 0 || name[0] != '.'
}

/// The pattern's components from `ci` on match the path components.
pub open spec fn pm(p: SPat, ci: int, parts: Seq<Seq<char>>, period: bool) -> bool
    decreases parts.len(), p.comps.len() - ci,
        when p.wf() && 0 <= ci <= p.comps.len()
{
    if ci == p.comps.len() {
        parts.len() == 0
    } else {
        match p.comps[ci] {
            Comp::Star2 => pm(p, ci + 1, parts, period) || (parts.len() > 0 && star2_may(
                parts[0],
                period,
            ) && pm(p, ci, parts.drop_first(), period)),
            Comp::Prog(q) => parts.len() > 0 && comp_match(p, q as int, parts[0], period) && pm(
                p,
                ci + 1,
                parts.drop_first(),
                period,
            ),
        }
    }
}

/// The whole pattern matches the whole path string.
pub open spec fn path_str_match(p: SPat, path: Seq<char>, period: bool) -> bool {
    pm(p, 0, spec_split(path), period)
}

/// Does program `q` match this entry name, under the leading-dot rule?
pub fn comp_matches(p: &CompiledPattern, q: usize, name: &Vec<char>, period: bool) -> (r: bool)
    requires
        p@.wf(),
        q < p@.progs.len(),
    ensures
        r == comp_match(p@, q as int, name@, period),
{
    proof {
        broadcast use vstd::std_specs::vec::group_vec_axioms;

        assert(p@.prog_wf(q as int));
        assert(p.progs.len() == p@.progs.len());
        assert(p.atoms.len() == p@.atoms.len());
    }
    if !period && name.len() > 0 {
        let rng = p.progs[q];
        if rng.len > 0 {
            let first = name[0];
            if first == '.' {
                let wild = match p.atoms[rng.start] {
                    Atom::Any => true,
                    Atom::Star => true,
                    Atom::Class { start, len, negated } => true,
                    _ => false,
                };
                if wild {
                    proof {
                        assert(first_wild(p@, q as int));
                    }
                    return false;
                }
            }
        }
    }
    let r = match_at(p, q, 0, name, 0, name.len());
    proof {
        assert(name@.subrange(0, name@.len() as int) =~= name@);
    }
    r
}

/// Do the pattern components from `ci` on match the path components from
/// `pi` on?
pub fn match_parts(
    p: &CompiledPattern,
    ci: usize,
    parts: &Vec<Vec<char>>,
    pi: usize,
    period: bool,
) -> (r: bool)
    requires
        p@.wf(),
        ci <= p@.comps.len(),
        pi <= parts@.len(),
    ensures
        r == pm(p@, ci as int, parts_view(parts@).skip(pi as int), period),
    decreases parts@.len() - pi, p@.comps.len() - ci,
{
    let ghost sub = parts_view(parts@).skip(pi as int);
    proof {
        broadcast use vstd::std_specs::vec::group_vec_axioms;

        assert(p.comps.len() == p@.comps.len());
        assert(parts.len() == parts@.len());
        assert(parts_view(parts@).len() == parts@.len());
        assert(sub.len() == parts@.len() - pi);
    }
    if ci == p.comps.len() {
        return pi == parts.len();
    }
    let c = p.comps[ci];
    proof {
        if pi < parts@.len() {
            assert(sub[0] == parts_view(parts@)[pi as int]);
            assert(sub[0] == parts@[pi as int]@);
            assert(sub.drop_first() =~= parts_view(parts@).skip(pi + 1));
        }
    }
    match c {
        Comp::Star2 => {
            if match_parts(p, ci + 1, parts, pi, period) {
                return true;
            }
            if pi < parts.len() {
                let head = &parts[pi];
                let may = period || head.len() == 0 || head[0] != '.';
                proof {
                    assert(may == star2_may(sub[0], period));
                }
                if may {
                    return match_parts(p, ci, parts, pi + 1, period);
                }
            }
            false
        },
        Comp::Prog(q) => {
            if pi < parts.len() {
                if comp_matches(p, q, &parts[pi], period) {
                    return match_parts(p, ci + 1, parts, pi + 1, period);
                }
                false
            } else {
                false
            }
        },
    }
}

/// Does the compiled pattern match the whole path, given as characters?
pub fn path_matches_chars(p: &CompiledPattern, chars: &Vec<char>, period: bool) -> (r: bool)
    requires
        p@.wf(),
    ensures
        r == path_str_match(p@, chars@, period),
{
    let parts = split_path(chars);
    proof {
        assert(parts_view(parts@).skip(0) =~= parts_view(parts@));
    }
    match_parts(p, 0, &parts, 0, period)
}

/// Does the compiled pattern match the whole path string?
pub fn path_matches(p: &CompiledPattern, path: &str, period: bool) -> (r: bool)
    requires
        p@.wf(),
    ensures
        r == path_str_match(p@, path@, period),
{
    let chars = to_chars(path);
    path_matches_chars(p, &chars, period)
}

/// The flags a list-matching pattern is compiled under: as given, with
/// directory recursion masked off, since list matching never walks
/// directory levels — its wildcards range over the whole string.
pub open spec fn list_flags(flags: ZlobFlags) -> ZlobFlags {
    ZlobFlags { bits: flags.bits & !DOUBLESTAR_RECURSIVE_BIT }
}

/// List matching: the pattern, compiled as one program with `/` an
/// ordinary character, matches the whole candidate string.
pub open spec fn whole_match(p: SPat, path: Seq<char>, period: bool) -> bool {
    pm(p, 0, seq![path], period)
}

/// Does the compiled list pattern match the whole candidate string?
pub fn whole_matches(p: &CompiledPattern, chars: &Vec<char>, period: bool) -> (r: bool)
    requires
        p@.wf(),
    ensures
        r == whole_match(p@, chars@, period),
{
    let mut single: Vec<char> = Vec::new();
    let n = chars.len();
    let mut i: usize = 0;
    while i < n
        invariant
            n == chars@.len(),
            0 <= i <= n,
            single@ == chars@.take(i as int),
        decreases n - i,
    {
        single.push(chars[i]);
        proof {
            assert(single@ =~= chars@.take(i + 1));
        }
        i = i + 1;
    }
    proof {
        assert(single@ =~= chars@);
    }
    let mut parts: Vec<Vec<char>> = Vec::new();
    parts.push(single);
    proof {
        assert(parts_view(parts@) =~= seq![chars@]);
        assert(parts_view(parts@).skip(0) =~= parts_view(parts@));
    }
    match_parts(p, 0, &parts, 0, period)
}

} // verus!

verus! {

/// The paths of the list that the pattern accepts, in input order.
pub open spec fn list_matched(paths: Seq<&str>, sp: SPat, period: bool) -> Seq<&str>
    decreases paths.len(),
{
    if paths.len() == 0 {
        Seq::empty()
    } else {
        let prefix = list_matched(paths.drop_last(), sp, period);
        if whole_match(sp, paths.last()@, period) {
            prefix.push(paths.last())
        } else {
            prefix
        }
    }
}

/// The result of matching a list of paths: borrowed references to the
/// input strings that matched, each with its byte length, and the output
/// flag recording whether the pattern contained metacharacters.
pub struct ZlobMatch<'a> {
    pub paths: Vec<&'a str>,
    pub lens: Vec<usize>,
    pub magic: bool,
}

impl<'a> ZlobMatch<'a> {
    /// The number of matched paths.
    pub fn len(&self) -> (r: usize)
        ensures
            r == self.paths@.len(),
    {
        self.paths.len()
    }

    /// True when no path matched.
    pub fn is_empty(&self) -> (r: bool)
        ensures
            r == (self.paths@.len() == 0),
    {
        self.paths.len() == 0
    }

    /// The matched path at the given index, or `None` past the end.
    pub fn get(&self, index: usize) -> (r: Option<&'a str>)
        ensures
            index < self.paths@.len() ==> r == Some(self.paths@[index as int]),
            index >= self.paths@.len() ==> (r is None),
    {
        if index < self.paths.len() {
            Some(self.paths[index])
        } else {
            None
        }
    }

    /// The byte length of the matched path at the given index, or `None`
    /// past the end.
    pub fn get_len(&self, index: usize) -> (r: Option<usize>)
        ensures
            index < self.lens@.len() ==> r == Some(self.lens@[index as int]),
            index >= self.lens@.len() ==> (r is None),
    {
        if index < self.lens.len() {
            Some(self.lens[index])
        } else {
            None
        }
    }

    /// The output flag: the source pattern contained metacharacters.
    pub fn magchar(&self) -> (r: bool)
        ensures
            r == self.magic,
    {
        self.magic
    }

    /// An iterator over the matched paths.
    pub fn iter<'b>(&'b self) -> (r: ZlobMatchIter<'a, 'b>)
        ensures
            r.inner == self,
            r.front == 0,
            r.back == self.paths@.len(),
    {
        ZlobMatchIter { inner: self, front: 0, back: self.paths.len() }
    }

    /// All matched paths, as borrowed slices.
    pub fn as_strs(&self) -> (r: Vec<&'a str>)
        ensures
            r@ == self.paths@,
    {
        let mut out: Vec<&'a str> = Vec::new();
        let mut i: usize = 0;
        let n = self.paths.len();
        while i < n
            invariant
                n == self.paths@.len(),
                0 <= i <= n,
                out@ == self.paths@.take(i as int),
            decreases n - i,
        {
            out.push(self.paths[i]);
            proof {
                assert(out@ =~= self.paths@.take(i + 1));
            }
            i = i + 1;
        }
        proof {
            assert(out@ =~= self.paths@);
        }
        out
    }

    /// All matched paths, copied into owned strings.
    pub fn to_strings(&self) -> (r: Vec<String>)
        ensures
            r@.len() == self.paths@.len(),
            forall|i: int| 0 <= i < r@.len() ==> (#[trigger] r@[i])@ == self.paths@[i]@,
    {
        let mut out: Vec<String> = Vec::new();
        let mut i: usize = 0;
        let n = self.paths.len();
        while i < n
            invariant
                n == self.paths@.len(),
                0 <= i <= n,
                out@.len() == i,
                forall|j: int| 0 <= j < i ==> (#[trigger] out@[j])@ == self.paths@[j]@,
            decreases n - i,
        {
            out.push(self.paths[i].to_owned());
            i = i + 1;
        }
        out
    }
}

/// An iterator over the matched paths of a [`ZlobMatch`], from either end.
pub struct ZlobMatchIter<'a, 'b> {
    pub inner: &'b ZlobMatch<'a>,
    pub front: usize,
    pub back: usize,
}

impl<'a, 'b> ZlobMatchIter<'a, 'b> {
    /// The iterator's bounds lie within the match list.
    pub open spec fn wf(self) -> bool {
        self.front <= self.back <= self.inner.paths@.len()
    }

    /// The number of paths not yet yielded.
    pub fn remaining(&self) -> (r: usize)
        requires
            self.wf(),
        ensures
            r == self.back - self.front,
    {
        self.back - self.front
    }

    /// The next path from the front, or `None` when the ends meet.
    pub fn next(&mut self) -> (r: Option<&'a str>)
        requires
            old(self).wf(),
        ensures
            final(self).wf(),
            final(self).inner == old(self).inner,
            final(self).back == old(self).back,
            old(self).front < old(self).back ==> r == Some(
                old(self).inner.paths@[old(self).front as int],
            ) && final(self).front == old(self).front + 1,
            old(self).front >= old(self).back ==> (r is None) && final(self).front == old(
                self,
            ).front,
    {
        if self.front < self.back {
            let item = self.inner.paths[self.front];
            self.front = self.front + 1;
            Some(item)
        } else {
            None
        }
    }

    /// The next path from the back, or `None` when the ends meet.
    pub fn next_back(&mut self) -> (r: Option<&'a str>)
        requires
            old(self).wf(),
        ensures
            final(self).wf(),
            final(self).inner == old(self).inner,
            final(self).front == old(self).front,
            old(self).front < old(self).back ==> r == Some(
                old(self).inner.paths@[old(self).back - 1],
            ) && final(self).back == old(self).back - 1,
            old(self).front >= old(self).back ==> (r is None) && final(self).back == old(
                self,
            ).back,
    {
        if self.front < self.back {
            self.back = self.back - 1;
            let item = self.inner.paths[self.back];
            Some(item)
        } else {
            None
        }
    }
}

/// Does the pattern contain metacharacters under these flags? A malformed
/// pattern always does: only a metacharacter can open an unterminated
/// bracket expression or group.
pub fn zlob_has_wildcards(pattern: &str, flags: ZlobFlags) -> (r: bool)
    ensures
        (match spec_compile(pattern@, flags, true) {
            Some(sp) => r == sp.magic,
            None => r == true,
        }),
{
    let pchars = to_chars(pattern);
    match compile(&pchars, flags, true) {
        Ok(cp) => cp.magic,
        Err(_) => true,
    }
}

/// Filter a list of paths against a glob pattern, with no filesystem
/// access. The matches borrow the input strings and keep their input
/// order. `Ok(None)` is the no-match outcome; an error is raised exactly
/// on a malformed pattern.
pub fn zlob_match_paths<'a>(pattern: &str, paths: &'a [&str], flags: ZlobFlags) -> (r: Result<
    Option<ZlobMatch<'a>>,
    ZlobError,
>)
    ensures
        (match spec_compile(pattern@, list_flags(flags), false) {
            None => r == Err::<Option<ZlobMatch<'a>>, ZlobError>(ZlobError::Aborted),
            Some(sp) => match r {
                Ok(None) => list_matched(paths@, sp, flags.has(PERIOD_BIT)).len() == 0,
                Ok(Some(m)) => {
                    let want = list_matched(paths@, sp, flags.has(PERIOD_BIT));
                    &&& want.len() > 0
                    &&& m.paths@ == want
                    &&& m.magic == sp.magic
                    &&& m.lens@.len() == want.len()
                    &&& (forall|i: int|
                        0 <= i < want.len() ==> m.lens@[i] == (#[trigger] want[i]).spec_bytes().len() as usize)
                },
                Err(e) => false,
            },
        }),
{
    let pchars = to_chars(pattern);
    let lf = ZlobFlags { bits: flags.bits() & !DOUBLESTAR_RECURSIVE_BIT };
    proof {
        assert(lf == list_flags(flags));
    }
    let cp = match compile(&pchars, lf, false) {
        Ok(c) => c,
        Err(e) => {
            return Err(e);
        },
    };
    let ghost sp = cp@;
    let period = flags.test(PERIOD_BIT);
    let mut out: Vec<&'a str> = Vec::new();
    let mut lens: Vec<usize> = Vec::new();
    let n = paths.len();
    let mut i: usize = 0;
    while i < n
        invariant
            n == paths@.len(),
            0 <= i <= n,
            cp@ == sp,
            sp.wf(),
            out@ == list_matched(paths@.take(i as int), sp, period),
            lens@.len() == out@.len(),
            forall|z: int|
                0 <= z < out@.len() ==> lens@[z] == (#[trigger] out@[z]).spec_bytes().len() as usize,
        decreases n - i,
    {
        let p: &str = paths[i];
        proof {
            assert(paths@.take(i + 1).drop_last() =~= paths@.take(i as int));
            assert(paths@.take(i + 1).last() == paths@[i as int]);
        }
        let chars = to_chars(p);
        if whole_matches(&cp, &chars, period) {
            out.push(p);
            lens.push(p.len());
        }
        i = i + 1;
    }
    proof {
        assert(paths@.take(n as int) =~= paths@);
    }
    if out.len() == 0 {
        Ok(None)
    } else {
        Ok(Some(ZlobMatch { paths: out, lens, magic: cp.magic }))
    }
}

} // verus!

verus! {

/// A pattern expressed relative to a logical root: a leading `./` is
/// dropped before compilation.
pub open spec fn strip_dot(pat: Seq<char>) -> Seq<char> {
    if pat.len() >= 2 && pat[0] == '.' && pat[1] == '/' {
        pat.skip(2)
    } else {
        pat
    }
}

/// The base path without one trailing `/`, if it carries one.
pub open spec fn base_norm(base: Seq<char>) -> Seq<char> {
    if base.len() > 0 && base.last() == '/' {
        base.drop_last()
    } else {
        base
    }
}

/// The candidate lies under the base directory and its remainder after
/// the base and one separator matches the pattern.
pub open spec fn rel_match(sp: SPat, base: Seq<char>, p: Seq<char>, period: bool) -> bool {
    let b = base_norm(base);
    &&& p.len() > b.len()
    &&& p.take(b.len() as int) == b
    &&& p[b.len() as int] == '/'
    &&& whole_match(sp, p.skip(b.len() as int + 1), period)
}

/// The paths of the list whose remainder under the base the pattern
/// accepts, in input order.
pub open spec fn list_matched_at(
    paths: Seq<&str>,
    sp: SPat,
    base: Seq<char>,
    period: bool,
) -> Seq<&str>
    decreases paths.len(),
{
    if paths.len() == 0 {
        Seq::empty()
    } else {
        let prefix = list_matched_at(paths.drop_last(), sp, base, period);
        if rel_match(sp, base, paths.last()@, period) {
            prefix.push(paths.last())
        } else {
            prefix
        }
    }
}

/// Do the first `blen` characters of the two vectors agree?
fn prefix_eq(a: &Vec<char>, b: &Vec<char>, blen: usize) -> (r: bool)
    requires
        blen <= a@.len(),
        blen <= b@.len(),
    ensures
        r == (a@.take(blen as int) == b@.take(blen as int)),
{
    let mut y: usize = 0;
    while y < blen
        invariant
            blen <= a@.len(),
            blen <= b@.len(),
            0 <= y <= blen,
            forall|z: int| 0 <= z < y ==> a@[z] == b@[z],
        decreases blen - y,
    {
        if a[y] != b[y] {
            proof {
                assert(a@.take(blen as int)[y as int] != b@.take(blen as int)[y as int]);
            }
            return false;
        }
        y = y + 1;
    }
    proof {
        assert(a@.take(blen as int) =~= b@.take(blen as int));
    }
    true
}

/// Filter a list of absolute paths against a pattern relative to a base
/// directory, with no filesystem access. The emitted matches are the
/// original full strings, in input order.
pub fn zlob_match_paths_at<'a>(
    base_path: &str,
    pattern: &str,
    paths: &'a [&str],
    flags: ZlobFlags,
) -> (r: Result<Option<ZlobMatch<'a>>, ZlobError>)
    ensures
        (match spec_compile(strip_dot(pattern@), list_flags(flags), false) {
            None => r == Err::<Option<ZlobMatch<'a>>, ZlobError>(ZlobError::Aborted),
            Some(sp) => match r {
                Ok(None) => list_matched_at(paths@, sp, base_path@, flags.has(PERIOD_BIT)).len()
                    == 0,
                Ok(Some(m)) => {
                    let want = list_matched_at(paths@, sp, base_path@, flags.has(PERIOD_BIT));
                    &&& want.len() > 0
                    &&& m.paths@ == want
                    &&& m.magic == sp.magic
                    &&& m.lens@.len() == want.len()
                    &&& (forall|i: int|
                        0 <= i < want.len() ==> m.lens@[i] == (#[trigger] want[i]).spec_bytes().len() as usize)
                },
                Err(e) => false,
            },
        }),
{
    let pchars_all = to_chars(pattern);
    let strip = pchars_all.len() >= 2 && pchars_all[0] == '.' && pchars_all[1] == '/';
    let s0: usize = if strip {
        2
    } else {
        0
    };
    let mut pchars: Vec<char> = Vec::new();
    let mut x: usize = s0;
    while x < pchars_all.len()
        invariant
            s0 <= x <= pchars_all.len(),
            pchars@ == pchars_all@.subrange(s0 as int, x as int),
        decreases pchars_all.len() - x,
    {
        pchars.push(pchars_all[x]);
        proof {
            assert(pchars@ =~= pchars_all@.subrange(s0 as int, x + 1));
        }
        x = x + 1;
    }
    proof {
        assert(pchars@ =~= strip_dot(pattern@));
    }
    let lf = ZlobFlags { bits: flags.bits() & !DOUBLESTAR_RECURSIVE_BIT };
    proof {
        assert(lf == list_flags(flags));
    }
    let cp = match compile(&pchars, lf, false) {
        Ok(c) => c,
        Err(e) => {
            return Err(e);
        },
    };
    let ghost sp = cp@;
    let period = flags.test(PERIOD_BIT);
    let bchars = to_chars(base_path);
    let blen: usize = if bchars.len() > 0 && bchars[bchars.len() - 1] == '/' {
        bchars.len() - 1
    } else {
        bchars.len()
    };
    proof {
        assert(base_norm(base_path@) =~= bchars@.take(blen as int));
    }
    let mut out: Vec<&'a str> = Vec::new();
    let mut lens: Vec<usize> = Vec::new();
    let n = paths.len();
    let mut i: usize = 0;
    while i < n
        invariant
            n == paths@.len(),
            0 <= i <= n,
            cp@ == sp,
            sp.wf(),
            blen <= bchars@.len(),
            bchars@ == base_path@,
            base_norm(base_path@) == bchars@.take(blen as int),
            out@ == list_matched_at(paths@.take(i as int), sp, base_path@, period),
            lens@.len() == out@.len(),
            forall|z: int|
                0 <= z < out@.len() ==> lens@[z] == (#[trigger] out@[z]).spec_bytes().len() as usize,
        decreases n - i,
    {
        let p: &str = paths[i];
        proof {
            assert(paths@.take(i + 1).drop_last() =~= paths@.take(i as int));
            assert(paths@.take(i + 1).last() == paths@[i as int]);
        }
        let chars = to_chars(p);
        let mut under = chars.len() > blen;
        if under {
            under = prefix_eq(&chars, &bchars, blen);
            if under && chars[blen] != '/' {
                under = false;
            }
        }
        if under {
            let mut rel: Vec<char> = Vec::new();
            let mut z = blen + 1;
            while z < chars.len()
                invariant
                    blen + 1 <= z <= chars@.len(),
                    rel@ == chars@.subrange(blen + 1, z as int),
                decreases chars@.len() - z,
            {
                rel.push(chars[z]);
                proof {
                    assert(rel@ =~= chars@.subrange(blen + 1, z + 1));
                }
                z = z + 1;
            }
            proof {
                assert(rel@ =~= p@.skip(blen + 1));
            }
            if whole_matches(&cp, &rel, period) {
                proof {
                    assert(rel_match(sp, base_path@, p@, period));
                }
                out.push(p);
                lens.push(p.len());
            } else {
                proof {
                    assert(!rel_match(sp, base_path@, p@, period));
                }
            }
        } else {
            proof {
                assert(!rel_match(sp, base_path@, p@, period));
            }
        }
        i = i + 1;
    }
    proof {
        assert(paths@.take(n as int) =~= paths@);
    }
    if out.len() == 0 {
        Ok(None)
    } else {
        Ok(Some(ZlobMatch { paths: out, lens, magic: cp.magic }))
    }
}

} // verus!
