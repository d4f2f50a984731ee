//! The directory walker: enumerate a directory tree handed in as a value,
//! match every entry path against a compiled pattern, and collect the
//! results.
//!
//! The tree is the walker's entry source: a caller builds it from the real
//! filesystem or from any virtual source, so the traversal itself is pure.
//! An unreadable directory is skipped, or aborts the whole walk when the
//! abort-on-error option is set. Each directory may carry the lines of its
//! own exclusion-rule file; the walk layers them under the ancestors'
//! rules for everything below that directory.

use vstd::prelude::*;
use vstd::multiset::Multiset;
use crate::error::ZlobError;
use crate::flags::ZlobFlags;
use crate::flags::ERR_BIT;
use crate::flags::GITIGNORE_BIT;
use crate::flags::MARK_BIT;
use crate::flags::NOCHECK_BIT;
use crate::flags::NOMAGIC_BIT;
use crate::flags::NOSORT_BIT;
use crate::flags::ONLYDIR_BIT;
use crate::flags::PERIOD_BIT;
use crate::gitignore::is_ignored_layered_chars;
use crate::gitignore::layers_view;
use crate::gitignore::layers_wf;
use crate::gitignore::GitignoreLayer;
use crate::gitignore::rules_wf;
use crate::gitignore::GitignoreRules;
use crate::gitignore::SLayer;
use crate::gitignore::spec_layered;
use crate::gitignore::spec_rules;
use crate::paths::path_matches_chars;
use crate::paths::path_str_match;
use crate::paths::to_chars;
use crate::pattern::compile;
use crate::pattern::SPat;
use crate::pattern::spec_compile;

verus! {

/// The coarse type of one directory entry.
#[derive(Clone, Copy, PartialEq, Eq, Structural, Debug)]
pub enum EntryKind {
    Unknown,
    Directory,
    Regular,
    Symlink,
}

/// One entry of a virtual directory tree.
pub struct VEntry {
    pub name: String,
    pub kind: EntryKind,
    /// A directory that could not be read: its children are not visited.
    pub readable: bool,
    /// The exclusion-rule lines of this directory's own rule file, layered
    /// under its ancestors' rules for everything below it.
    pub ignore: Vec<String>,
    pub children: Vec<VEntry>,
}

/// A directory tree handed to the walker, with the exclusion-rule lines
/// found at its root.
pub struct VTree {
    pub entries: Vec<VEntry>,
    pub ignore: Vec<String>,
}

/// One visited path: whether it names a directory, and whether the
/// exclusion rules in scope at its directory ignore it.
#[verifier::ext_equal]
pub ghost struct SHit {
    pub path: Seq<char>,
    pub dir: bool,
    pub ign: bool,
}

/// The rule layer a directory contributes: its rules judge paths relative
/// to the directory, so they skip its own path and the separator.
pub open spec fn layer_of(e: VEntry, dir_path: Seq<char>) -> SLayer {
    SLayer {
        skip: (dir_path.len() + 1) as usize,
        rules: spec_rules(e.ignore@.map_values(|l: String| l@)),
    }
}

/// The visit list of one entry: the entry itself, then, for a readable
/// directory, every descendant, depth first, under the directory's own
/// rule layer.
pub open spec fn dfs_entry(e: VEntry, prefix: Seq<char>, layers: Seq<SLayer>) -> Seq<SHit>
    decreases e,
{
    let path = prefix + e.name@;
    let hit = SHit {
        path,
        dir: e.kind is Directory,
        ign: spec_layered(layers, path, e.kind is Directory),
    };
    if e.kind is Directory && e.readable {
        seq![hit] + dfs_list(e.children@, path.push('/'), layers.push(layer_of(e, path)))
    } else {
        seq![hit]
    }
}

/// The visit list of a directory's entries, in order.
pub open spec fn dfs_list(es: Seq<VEntry>, prefix: Seq<char>, layers: Seq<SLayer>) -> Seq<SHit>
    decreases es,
{
    if es.len() == 0 {
        Seq::empty()
    } else {
        dfs_entry(es[0], prefix, layers) + dfs_list(es.drop_first(), prefix, layers)
    }
}

/// Some directory at or below these entries is unreadable.
pub open spec fn has_unreadable(es: Seq<VEntry>) -> bool
    decreases es,
{
    es.len() > 0 && (entry_unreadable(es[0]) || has_unreadable(es.drop_first()))
}

/// This entry is an unreadable directory, or holds one below it.
pub open spec fn entry_unreadable(e: VEntry) -> bool
    decreases e,
{
    e.kind is Directory && (!e.readable || has_unreadable(e.children@))
}

/// Does the walk keep this visited path?
pub open spec fn keep_hit(h: SHit, sp: SPat, flags: ZlobFlags) -> bool {
    &&& path_str_match(sp, h.path, flags.has(PERIOD_BIT))
    &&& (flags.has(ONLYDIR_BIT) ==> h.dir)
    &&& (flags.has(GITIGNORE_BIT) ==> !h.ign)
}

/// The path as reported: directory matches carry a trailing `/` under the
/// mark option.
pub open spec fn marked(h: SHit, flags: ZlobFlags) -> Seq<char> {
    if flags.has(MARK_BIT) && h.dir {
        h.path.push('/')
    } else {
        h.path
    }
}

/// The kept paths of a visit list, in visit order, marked.
pub open spec fn selected(hits: Seq<SHit>, sp: SPat, flags: ZlobFlags) -> Seq<Seq<char>>
    decreases hits.len(),
{
    if hits.len() == 0 {
        Seq::empty()
    } else {
        let prefix = selected(hits.drop_last(), sp, flags);
        if keep_hit(hits.last(), sp, flags) {
            prefix.push(marked(hits.last(), flags))
        } else {
            prefix
        }
    }
}

/// Character-sequence order: the shorter of an equal pair first, else by
/// the first differing code point.
pub open spec fn lex_le(a: Seq<char>, b: Seq<char>) -> bool
    decreases a.len(),
{
    if a.len() == 0 {
        true
    } else if b.len() == 0 {
        false
    } else if (a[0] as u32) != (b[0] as u32) {
        (a[0] as u32) < (b[0] as u32)
    } else {
        lex_le(a.drop_first(), b.drop_first())
    }
}

/// The order is reflexive.
pub proof fn lemma_lex_refl(a: Seq<char>)
    ensures
        lex_le(a, a),
    decreases a.len(),
{
    if a.len() > 0 {
        lemma_lex_refl(a.drop_first());
    }
}

/// The order is total.
pub proof fn lemma_lex_total(a: Seq<char>, b: Seq<char>)
    ensures
        lex_le(a, b) || lex_le(b, a),
    decreases a.len(),
{
    if a.len() > 0 && b.len() > 0 && (a[0] as u32) == (b[0] as u32) {
        lemma_lex_total(a.drop_first(), b.drop_first());
    }
}

/// The order is transitive.
pub proof fn lemma_lex_trans(a: Seq<char>, b: Seq<char>, c: Seq<char>)
    requires
        lex_le(a, b),
        lex_le(b, c),
    ensures
        lex_le(a, c),
    decreases a.len(),
{
    if a.len() > 0 && b.len() > 0 && c.len() > 0 && (a[0] as u32) == (b[0] as u32) && (b[0] as u32)
        == (c[0] as u32) {
        lemma_lex_trans(a.drop_first(), b.drop_first(), c.drop_first());
    }
}

/// The views of a vector of character vectors (a working match list).
pub open spec fn cv_view(v: Seq<Vec<char>>) -> Seq<Seq<char>> {
    v.map_values(|x: Vec<char>| x@)
}

/// Compare two character vectors in `lex_le` order.
fn chars_le(a: &Vec<char>, b: &Vec<char>) -> (r: bool)
    ensures
        r == lex_le(a@, b@),
{
    let na = a.len();
    let nb = b.len();
    let mut i: usize = 0;
    proof {
        assert(a@.skip(0) =~= a@);
        assert(b@.skip(0) =~= b@);
    }
    while i < na && i < nb
        invariant
            na == a@.len(),
            nb == b@.len(),
            0 <= i <= na,
            i <= nb,
            lex_le(a@, b@) == lex_le(a@.skip(i as int), b@.skip(i as int)),
        decreases na - i,
    {
        let ghost ai = a@.skip(i as int);
        let ghost bi = b@.skip(i as int);
        proof {
            assert(ai.len() == a@.len() - i);
            assert(bi.len() == b@.len() - i);
            assert(ai[0] == a@[i as int]);
            assert(bi[0] == b@[i as int]);
            assert(ai.drop_first() =~= a@.skip(i + 1));
            assert(bi.drop_first() =~= b@.skip(i + 1));
        }
        let ca = a[i] as u32;
        let cb = b[i] as u32;
        if ca != cb {
            return ca < cb;
        }
        i = i + 1;
    }
    proof {
        assert(a@.skip(i as int).len() == a@.len() - i);
        assert(b@.skip(i as int).len() == b@.len() - i);
    }
    na <= nb
}


/// One visited path, as collected.
pub struct Hit {
    pub path: Vec<char>,
    pub dir: bool,
    pub ign: bool,
}

impl View for Hit {
    type V = SHit;

    open spec fn view(&self) -> SHit {
        SHit { path: self.path@, dir: self.dir, ign: self.ign }
    }
}

/// The views of a vector of hits.
pub open spec fn hits_view(v: Seq<Hit>) -> Seq<SHit> {
    v.map_values(|h: Hit| h@)
}

/// Splitting a visit list after one more entry appends that entry's
/// visits.
proof fn lemma_dfs_take(es: Seq<VEntry>, prefix: Seq<char>, layers: Seq<SLayer>, i: int)
    requires
        0 <= i < es.len(),
    ensures
        dfs_list(es.take(i + 1), prefix, layers) == dfs_list(es.take(i), prefix, layers)
            + dfs_entry(es[i], prefix, layers),
    decreases i,
{
    if i == 0 {
        assert(es.take(1).drop_first() =~= es.take(0));
        assert(es.take(0).len() == 0);
        assert(dfs_list(es.take(1), prefix, layers) =~~= dfs_list(es.take(0), prefix, layers)
            + dfs_entry(es[0], prefix, layers));
    } else {
        lemma_dfs_take(es.drop_first(), prefix, layers, i - 1);
        assert(es.take(i + 1).drop_first() =~= es.drop_first().take(i));
        assert(es.take(i as int).drop_first() =~= es.drop_first().take(i - 1));
        assert(es.take(i + 1)[0] == es[0]);
        assert(es.take(i as int)[0] == es[0]);
        assert(es.drop_first()[i - 1] == es[i]);
        assert(dfs_list(es.take(i + 1), prefix, layers) =~~= dfs_list(
            es.take(i as int),
            prefix,
            layers,
        ) + dfs_entry(es[i], prefix, layers));
    }
}

/// Visit one entry and everything below it, appending to `out`. The
/// layered rule sets in scope are extended with the entry's own rule file
/// while its children are visited, and restored afterwards.
fn collect_entry(e: &VEntry, prefix: &Vec<char>, layers: &mut Vec<GitignoreLayer>, out: &mut Vec<
    Hit,
>)
    requires
        layers_wf(layers_view(old(layers)@)),
    ensures
        layers_view(final(layers)@) == layers_view(old(layers)@),
        layers_wf(layers_view(final(layers)@)),
        hits_view(final(out)@) == hits_view(old(out)@) + dfs_entry(
            *e,
            prefix@,
            layers_view(old(layers)@),
        ),
    decreases *e,
{
    let mut path: Vec<char> = Vec::new();
    let np = prefix.len();
    let mut x: usize = 0;
    while x < np
        invariant
            np == prefix@.len(),
            0 <= x <= np,
            path@ == prefix@.take(x as int),
        decreases np - x,
    {
        path.push(prefix[x]);
        proof {
            assert(path@ =~= prefix@.take(x + 1));
        }
        x = x + 1;
    }
    proof {
        assert(path@ =~= prefix@);
    }
    let name = to_chars(e.name.as_str());
    let mut y: usize = 0;
    let nn = name.len();
    while y < nn
        invariant
            nn == name@.len(),
            0 <= y <= nn,
            path@ == prefix@ + name@.take(y as int),
        decreases nn - y,
    {
        path.push(name[y]);
        proof {
            assert(path@ =~= prefix@ + name@.take(y + 1));
        }
        y = y + 1;
    }
    proof {
        assert(path@ =~= prefix@ + e.name@);
    }
    let dir = matches!(e.kind, EntryKind::Directory);
    let descend = dir && e.readable;
    let ign = is_ignored_layered_chars(layers, &path, dir);
    let ghost hit = SHit {
        path: prefix@ + e.name@,
        dir: e.kind is Directory,
        ign: spec_layered(layers_view(layers@), prefix@ + e.name@, e.kind is Directory),
    };
    if descend {
        let mut copy: Vec<char> = Vec::new();
        let mut z: usize = 0;
        let nc = path.len();
        while z < nc
            invariant
                nc == path@.len(),
                0 <= z <= nc,
                copy@ == path@.take(z as int),
            decreases nc - z,
        {
            copy.push(path[z]);
            proof {
                assert(copy@ =~= path@.take(z + 1));
            }
            z = z + 1;
        }
        proof {
            assert(copy@ =~= path@);
        }
        let ghost mid0 = out@;
        out.push(Hit { path: copy, dir, ign });
        proof {
            assert(hits_view(out@) =~= hits_view(mid0).push(hit));
        }
        path.push('/');
        let skip = path.len();
        let rules = GitignoreRules::parse(&e.ignore);
        let ghost lay0 = layers@;
        layers.push(GitignoreLayer { skip, rules });
        proof {
            assert(layers_view(layers@) =~= layers_view(lay0).push(
                layer_of(*e, prefix@ + e.name@),
            ));
            assert forall|z2: int| 0 <= z2 < layers_view(layers@).len() implies rules_wf(
                (#[trigger] layers_view(layers@)[z2]).rules,
            ) by {
                if z2 < lay0.len() {
                    assert(layers_view(layers@)[z2] == layers_view(lay0)[z2]);
                }
            }
        }
        collect_list(&e.children, &path, layers, out);
        let ghost lay1 = layers@;
        proof {
            assert(layers_view(lay1) == layers_view(lay0).push(layer_of(*e, prefix@ + e.name@)));
            assert(layers_view(lay1).len() == lay1.len());
            assert(lay1.len() == lay0.len() + 1);
        }
        let popped = layers.pop();
        proof {
            assert(layers_view(layers@) =~= layers_view(old(layers)@)) by {
                assert(layers@ =~= lay1.subrange(0, lay1.len() - 1));
                assert forall|z2: int| 0 <= z2 < layers@.len() implies layers_view(layers@)[z2]
                    == layers_view(old(layers)@)[z2] by {
                    assert(layers_view(layers@)[z2] == layers@[z2]@);
                    assert(layers@[z2] == lay1[z2]);
                    assert(layers_view(lay1)[z2] == layers_view(lay0)[z2]);
                }
            }
            assert(hits_view(out@) =~= hits_view(old(out)@) + dfs_entry(
                *e,
                prefix@,
                layers_view(old(layers)@),
            ));
        }
    } else {
        let ghost mid0 = out@;
        out.push(Hit { path, dir, ign });
        proof {
            assert(hits_view(out@) =~= hits_view(mid0).push(hit));
            assert(hits_view(out@) =~= hits_view(old(out)@) + dfs_entry(
                *e,
                prefix@,
                layers_view(old(layers)@),
            ));
        }
    }
}

/// Visit a list of entries in order, appending to `out`.
fn collect_list(es: &Vec<VEntry>, prefix: &Vec<char>, layers: &mut Vec<GitignoreLayer>, out: &mut
    Vec<Hit>)
    requires
        layers_wf(layers_view(old(layers)@)),
    ensures
        layers_view(final(layers)@) == layers_view(old(layers)@),
        layers_wf(layers_view(final(layers)@)),
        hits_view(final(out)@) == hits_view(old(out)@) + dfs_list(
            es@,
            prefix@,
            layers_view(old(layers)@),
        ),
    decreases *es,
{
    let n = es.len();
    let mut i: usize = 0;
    let ghost lv = layers_view(layers@);
    proof {
        assert(es@.take(0).len() == 0);
        assert(hits_view(out@) =~~= hits_view(old(out)@) + dfs_list(es@.take(0), prefix@, lv));
    }
    while i < n
        invariant
            n == es@.len(),
            0 <= i <= n,
            layers_view(layers@) == lv,
            lv == layers_view(old(layers)@),
            layers_wf(lv),
            hits_view(out@) == hits_view(old(out)@) + dfs_list(es@.take(i as int), prefix@, lv),
        decreases n - i,
    {
        proof {
            broadcast use vstd::std_specs::vec::group_vec_axioms;

            assert(decreases_to!(es => es@));
            assert(decreases_to!(es@ => es@[i as int]));
        }
        let e = &es[i];
        collect_entry(e, prefix, layers, out);
        proof {
            lemma_dfs_take(es@, prefix@, lv, i as int);
            assert(hits_view(out@) =~~= hits_view(old(out)@) + dfs_list(
                es@.take(i + 1),
                prefix@,
                lv,
            ));
        }
        i = i + 1;
    }
    proof {
        assert(es@.take(n as int) =~= es@);
    }
}

/// Is some directory at or below these entries unreadable?
fn check_unreadable(es: &Vec<VEntry>) -> (r: bool)
    ensures
        r == has_unreadable(es@),
    decreases *es,
{
    let n = es.len();
    let mut i: usize = 0;
    while i < n
        invariant
            n == es@.len(),
            0 <= i <= n,
            !has_unreadable(es@.take(i as int)),
        decreases n - i,
    {
        proof {
            broadcast use vstd::std_specs::vec::group_vec_axioms;

            assert(decreases_to!(es => es@));
            assert(decreases_to!(es@ => es@[i as int]));
        }
        let e = &es[i];
        let bad = if matches!(e.kind, EntryKind::Directory) {
            if !e.readable {
                true
            } else {
                check_unreadable(&e.children)
            }
        } else {
            false
        };
        if bad {
            proof {
                lemma_unreadable_index(es@, i as int);
            }
            return true;
        }
        proof {
            lemma_unreadable_take(es@, i as int);
        }
        i = i + 1;
    }
    proof {
        assert(es@.take(n as int) =~= es@);
    }
    false
}

/// An unreadable entry anywhere makes the whole list unreadable.
proof fn lemma_unreadable_index(es: Seq<VEntry>, i: int)
    requires
        0 <= i < es.len(),
        entry_unreadable(es[i]),
    ensures
        has_unreadable(es),
    decreases i,
{
    if i > 0 {
        assert(es.drop_first()[i - 1] == es[i]);
        lemma_unreadable_index(es.drop_first(), i - 1);
    }
}

/// One more entry extends the unreadable test by that entry.
proof fn lemma_unreadable_take(es: Seq<VEntry>, i: int)
    requires
        0 <= i < es.len(),
    ensures
        has_unreadable(es.take(i + 1)) == (has_unreadable(es.take(i)) || entry_unreadable(es[i])),
    decreases i,
{
    if i == 0 {
        assert(es.take(1).drop_first() =~= es.take(0));
        assert(es.take(1)[0] == es[0]);
    } else {
        lemma_unreadable_take(es.drop_first(), i - 1);
        assert(es.take(i + 1).drop_first() =~= es.drop_first().take(i));
        assert(es.take(i as int).drop_first() =~= es.drop_first().take(i - 1));
        assert(es.take(i + 1)[0] == es[0]);
        assert(es.take(i as int)[0] == es[0]);
        assert(es.drop_first()[i - 1] == es[i]);
    }
}

} // verus!

verus! {

/// Every element of the list is ordered before every later one.
pub open spec fn sorted_paths(s: Seq<Seq<char>>) -> bool {
    forall|i: int, j: int| 0 <= i < j < s.len() ==> lex_le(#[trigger] s[i], #[trigger] s[j])
}

/// Sort a list of paths into `lex_le` order, keeping exactly the same
/// paths.
fn sort_paths(v: Vec<Vec<char>>) -> (r: Vec<Vec<char>>)
    ensures
        cv_view(r@).to_multiset() == cv_view(v@).to_multiset(),
        sorted_paths(cv_view(r@)),
{
    broadcast use vstd::seq_lib::group_to_multiset_ensures;

    let mut work = v;
    let mut out: Vec<Vec<char>> = Vec::new();
    proof {
        assert(cv_view(out@).to_multiset() =~= Multiset::<Seq<char>>::empty());
        assert(cv_view(out@).to_multiset().add(cv_view(work@).to_multiset()) =~= cv_view(
            v@,
        ).to_multiset());
    }
    while work.len() > 0
        invariant
            cv_view(out@).to_multiset().add(cv_view(work@).to_multiset()) == cv_view(
                v@,
            ).to_multiset(),
            sorted_paths(cv_view(out@)),
            forall|oi: int, wi: int|
                0 <= oi < out@.len() && 0 <= wi < work@.len() ==> lex_le(
                    #[trigger] cv_view(out@)[oi],
                    #[trigger] cv_view(work@)[wi],
                ),
        decreases work.len(),
    {
        let n = work.len();
        let mut m: usize = 0;
        let mut k: usize = 1;
        proof {
            lemma_lex_refl(work@[0]@);
        }
        while k < n
            invariant
                n == work@.len(),
                0 <= m < n,
                1 <= k <= n,
                forall|z: int| 0 <= z < k ==> lex_le(work@[m as int]@, (#[trigger] work@[z])@),
            decreases n - k,
        {
            if chars_le(&work[k], &work[m]) {
                proof {
                    assert forall|z: int| 0 <= z < k implies lex_le(
                        work@[k as int]@,
                        (#[trigger] work@[z])@,
                    ) by {
                        lemma_lex_trans(work@[k as int]@, work@[m as int]@, work@[z]@);
                    }
                    lemma_lex_refl(work@[k as int]@);
                }
                m = k;
            } else {
                proof {
                    lemma_lex_total(work@[k as int]@, work@[m as int]@);
                }
            }
            k = k + 1;
        }
        let ghost work0 = work@;
        let ghost out0 = out@;
        let x = work.remove(m);
        out.push(x);
        proof {
            cv_view(out0).to_multiset_ensures();
            cv_view(work0).to_multiset_ensures();
            assert(cv_view(out@) =~= cv_view(out0).push(x@));
            assert(cv_view(work@) =~= cv_view(work0).remove(m as int));
            assert(cv_view(work0).remove(m as int).to_multiset() =~= cv_view(
                work0,
            ).to_multiset().remove(x@));
            assert(cv_view(out0).push(x@).to_multiset() =~= cv_view(out0).to_multiset().insert(
                x@,
            ));
            assert(cv_view(work0).to_multiset().count(x@) >= 1) by {
                assert(cv_view(work0)[m as int] == x@);
                assert(cv_view(work0).contains(x@));
            }
            assert(cv_view(out@).to_multiset().add(cv_view(work@).to_multiset()) =~= cv_view(
                v@,
            ).to_multiset());
            // the new element keeps the output sorted and below the rest
            assert forall|oi: int, wi: int|
                0 <= oi < out@.len() && 0 <= wi < work@.len() implies lex_le(
                #[trigger] cv_view(out@)[oi],
                #[trigger] cv_view(work@)[wi],
            ) by {
                let w = cv_view(work@)[wi];
                if wi < m {
                    assert(w == work0[wi]@);
                } else {
                    assert(w == work0[wi + 1]@);
                }
                if oi < out0.len() {
                    assert(cv_view(out@)[oi] == cv_view(out0)[oi]);
                } else {
                    assert(cv_view(out@)[oi] == x@);
                }
            }
            assert forall|i: int, j: int|
                0 <= i < j < cv_view(out@).len() implies lex_le(
                #[trigger] cv_view(out@)[i],
                #[trigger] cv_view(out@)[j],
            ) by {
                if j < out0.len() {
                    assert(cv_view(out@)[i] == cv_view(out0)[i]);
                    assert(cv_view(out@)[j] == cv_view(out0)[j]);
                } else {
                    assert(cv_view(out@)[j] == x@);
                    assert(cv_view(out@)[i] == cv_view(out0)[i]);
                    assert(lex_le(cv_view(out0)[i], cv_view(work0)[m as int]));
                    assert(cv_view(work0)[m as int] == x@);
                }
            }
        }
    }
    proof {
        assert(work@.len() == 0);
        assert(cv_view(work@).to_multiset() =~= Multiset::<Seq<char>>::empty());
        assert(cv_view(out@).to_multiset() =~= cv_view(v@).to_multiset());
    }
    out
}

} // verus!

verus! {

/// The views of a vector of strings.
pub open spec fn strs_view(v: Seq<String>) -> Seq<Seq<char>> {
    v.map_values(|s: String| s@)
}

/// Relies on `String`'s `FromIterator` over characters: collecting the
/// characters of a vector yields exactly that string.
#[verifier::external_body]
fn chars_to_string(v: &Vec<char>) -> (r: String)
    ensures
        r@ == v@,
{
    v.iter().collect()
}

/// The result of one walk: matched paths in their final order, each with
/// its byte length, the count of reserved leading slots, and the output
/// flag recording whether the pattern contained metacharacters.
pub struct Zlob {
    pub paths: Vec<String>,
    pub lens: Vec<usize>,
    pub offs: usize,
    pub magic: bool,
}

impl Zlob {
    /// The number of matched paths.
    pub fn len(&self) -> (r: usize)
        ensures
            r == self.paths@.len(),
    {
        self.paths.len()
    }

    /// True when no path matched.
    pub fn is_empty(&self) -> (r: bool)
        ensures
            r == (self.paths@.len() == 0),
    {
        self.paths.len() == 0
    }

    /// The matched path at the given index, or `None` past the end.
    pub fn get(&self, index: usize) -> (r: Option<&str>)
        ensures
            index < self.paths@.len() ==> (r matches Some(s) && s@ == self.paths@[index as int]@),
            index >= self.paths@.len() ==> (r is None),
    {
        if index < self.paths.len() {
            Some(self.paths[index].as_str())
        } else {
            None
        }
    }

    /// The byte length of the matched path at the given index, or `None`
    /// past the end.
    pub fn get_len(&self, index: usize) -> (r: Option<usize>)
        ensures
            index < self.lens@.len() ==> r == Some(self.lens@[index as int]),
            index >= self.lens@.len() ==> (r is None),
    {
        if index < self.lens.len() {
            Some(self.lens[index])
        } else {
            None
        }
    }

    /// The output flag: the source pattern contained metacharacters.
    pub fn magchar(&self) -> (r: bool)
        ensures
            r == self.magic,
    {
        self.magic
    }

    /// An iterator over the matched paths.
    pub fn iter<'z>(&'z self) -> (r: ZlobIter<'z>)
        ensures
            r.inner == self,
            r.front == 0,
            r.back == self.paths@.len(),
    {
        ZlobIter { inner: self, front: 0, back: self.paths.len() }
    }

    /// All matched paths, as borrowed slices.
    pub fn as_strs<'z>(&'z self) -> (r: Vec<&'z str>)
        ensures
            r@.len() == self.paths@.len(),
            forall|i: int| 0 <= i < r@.len() ==> (#[trigger] r@[i])@ == self.paths@[i]@,
    {
        let mut out: Vec<&'z str> = Vec::new();
        let n = self.paths.len();
        let mut i: usize = 0;
        while i < n
            invariant
                n == self.paths@.len(),
                0 <= i <= n,
                out@.len() == i,
                forall|j: int| 0 <= j < i ==> (#[trigger] out@[j])@ == self.paths@[j]@,
            decreases n - i,
        {
            out.push(self.paths[i].as_str());
            i = i + 1;
        }
        out
    }

    /// All matched paths, copied into owned strings.
    pub fn to_strings(&self) -> (r: Vec<String>)
        ensures
            r@.len() == self.paths@.len(),
            forall|i: int| 0 <= i < r@.len() ==> (#[trigger] r@[i])@ == self.paths@[i]@,
    {
        let mut out: Vec<String> = Vec::new();
        let n = self.paths.len();
        let mut i: usize = 0;
        while i < n
            invariant
                n == self.paths@.len(),
                0 <= i <= n,
                out@.len() == i,
                forall|j: int| 0 <= j < i ==> (#[trigger] out@[j])@ == self.paths@[j]@,
            decreases n - i,
        {
            out.push(self.paths[i].clone());
            i = i + 1;
        }
        out
    }
}

/// An iterator over the matched paths of a [`Zlob`], from either end.
pub struct ZlobIter<'z> {
    pub inner: &'z Zlob,
    pub front: usize,
    pub back: usize,
}

impl<'z> ZlobIter<'z> {
    /// The iterator's bounds lie within the match list.
    pub open spec fn wf(self) -> bool {
        self.front <= self.back <= self.inner.paths@.len()
    }

    /// The number of paths not yet yielded.
    pub fn remaining(&self) -> (r: usize)
        requires
            self.wf(),
        ensures
            r == self.back - self.front,
    {
        self.back - self.front
    }

    /// The next path from the front, or `None` when the ends meet.
    pub fn next(&mut self) -> (r: Option<&'z str>)
        requires
            old(self).wf(),
        ensures
            final(self).wf(),
            final(self).inner == old(self).inner,
            final(self).back == old(self).back,
            old(self).front < old(self).back ==> (r matches Some(s) && s@ == old(
                self,
            ).inner.paths@[old(self).front as int]@) && final(self).front == old(self).front + 1,
            old(self).front >= old(self).back ==> (r is None) && final(self).front == old(
                self,
            ).front,
    {
        if self.front < self.back {
            let item = self.inner.paths[self.front].as_str();
            self.front = self.front + 1;
            Some(item)
        } else {
            None
        }
    }

    /// The next path from the back, or `None` when the ends meet.
    pub fn next_back(&mut self) -> (r: Option<&'z str>)
        requires
            old(self).wf(),
        ensures
            final(self).wf(),
            final(self).inner == old(self).inner,
            final(self).front == old(self).front,
            old(self).front < old(self).back ==> (r matches Some(s) && s@ == old(
                self,
            ).inner.paths@[old(self).back - 1]@) && final(self).back == old(self).back - 1,
            old(self).front >= old(self).back ==> (r is None) && final(self).back == old(
                self,
            ).back,
    {
        if self.front < self.back {
            self.back = self.back - 1;
            let item = self.inner.paths[self.back].as_str();
            Some(item)
        } else {
            None
        }
    }
}

} // verus!

verus! {

/// The rule layer in scope at the tree's root.
pub open spec fn root_layers(tree: &VTree) -> Seq<SLayer> {
    seq![
        SLayer { skip: 0, rules: spec_rules(tree.ignore@.map_values(|l: String| l@)) },
    ]
}

/// Walk a directory tree against a glob pattern and collect the matches.
///
/// Every entry of the tree is visited depth first (an unreadable
/// directory's contents are skipped) and its path is matched against the
/// compiled pattern. Kept matches honor the directory-only, mark and
/// period options, and the gitignore option drops every path that the
/// rule sets layered along its directories ignore; the result is sorted
/// unless the no-sort
/// option is set. When nothing matches, the pattern itself is the sole
/// result under the no-magic option (for a pattern without
/// metacharacters; this is checked first) or the no-check option;
/// otherwise the no-match outcome is returned. A malformed pattern fails
/// before the traversal; an unreadable directory fails the whole walk
/// only under the abort-on-error option.
#[verifier::rlimit(80)]
pub fn zlob_walk(tree: &VTree, pattern: &str, flags: ZlobFlags) -> (r: Result<
    Option<Zlob>,
    ZlobError,
>)
    ensures
        (match spec_compile(pattern@, flags, true) {
            None => r == Err::<Option<Zlob>, ZlobError>(ZlobError::Aborted),
            Some(sp) => {
                if flags.has(ERR_BIT) && has_unreadable(tree.entries@) {
                    r == Err::<Option<Zlob>, ZlobError>(ZlobError::Aborted)
                } else {
                    let sel = selected(
                        dfs_list(tree.entries@, Seq::empty(), root_layers(tree)),
                        sp,
                        flags,
                    );
                    match r {
                        Err(e) => false,
                        Ok(None) => sel.len() == 0 && !flags.has(NOCHECK_BIT) && !(flags.has(
                            NOMAGIC_BIT,
                        ) && !sp.magic),
                        Ok(Some(z)) => {
                            &&& z.magic == sp.magic
                            &&& z.offs == 0
                            &&& z.lens@.len() == z.paths@.len()
                            &&& if sel.len() > 0 {
                                if flags.has(NOSORT_BIT) {
                                    strs_view(z.paths@) == sel
                                } else {
                                    strs_view(z.paths@).to_multiset() == sel.to_multiset()
                                        && sorted_paths(strs_view(z.paths@))
                                }
                            } else {
                                &&& ((flags.has(NOMAGIC_BIT) && !sp.magic) || flags.has(
                                    NOCHECK_BIT,
                                ))
                                &&& strs_view(z.paths@) == seq![pattern@]
                            }
                        },
                    }
                }
            },
        }),
{
    let pchars = to_chars(pattern);
    let cp = match compile(&pchars, flags, true) {
        Ok(c) => c,
        Err(e) => {
            return Err(e);
        },
    };
    let ghost sp = cp@;
    if flags.test(ERR_BIT) && check_unreadable(&tree.entries) {
        return Err(ZlobError::Aborted);
    }
    let mut hits: Vec<Hit> = Vec::new();
    let root: Vec<char> = Vec::new();
    let mut layers: Vec<GitignoreLayer> = Vec::new();
    layers.push(GitignoreLayer { skip: 0, rules: GitignoreRules::parse(&tree.ignore) });
    proof {
        assert forall|z: int| 0 <= z < layers_view(layers@).len() implies rules_wf(
            (#[trigger] layers_view(layers@)[z]).rules,
        ) by {}
        assert(layers_view(layers@) =~= root_layers(tree));
    }
    collect_list(&tree.entries, &root, &mut layers, &mut hits);
    proof {
        assert(hits_view(hits@) =~~= dfs_list(tree.entries@, Seq::empty(), root_layers(tree)));
    }
    let period = flags.test(PERIOD_BIT);
    let onlydir = flags.test(ONLYDIR_BIT);
    let mark = flags.test(MARK_BIT);
    let gitig = flags.test(GITIGNORE_BIT);
    let mut acc: Vec<Vec<char>> = Vec::new();
    let n = hits.len();
    let mut i: usize = 0;
    proof {
        assert(hits_view(hits@).take(0).len() == 0);
        assert(cv_view(acc@) =~~= selected(hits_view(hits@).take(0), sp, flags));
    }
    while i < n
        invariant
            n == hits@.len(),
            0 <= i <= n,
            cp@ == sp,
            sp.wf(),
            period == flags.has(PERIOD_BIT),
            onlydir == flags.has(ONLYDIR_BIT),
            mark == flags.has(MARK_BIT),
            gitig == flags.has(GITIGNORE_BIT),
            cv_view(acc@) == selected(hits_view(hits@).take(i as int), sp, flags),
        decreases n - i,
    {
        let ghost hv = hits_view(hits@);
        proof {
            assert(hv.take(i + 1).drop_last() =~= hv.take(i as int));
            assert(hv.take(i + 1).last() == hv[i as int]);
            assert(hv[i as int] == hits@[i as int]@);
        }
        let hit = &hits[i];
        let mut keep = path_matches_chars(&cp, &hit.path, period);
        if keep && onlydir && !hit.dir {
            keep = false;
        }
        if keep && gitig && hit.ign {
            keep = false;
        }
        proof {
            assert(keep == keep_hit(hv[i as int], sp, flags));
        }
        if keep {
            let mut path: Vec<char> = Vec::new();
            let m = hit.path.len();
            let mut z: usize = 0;
            while z < m
                invariant
                    m == hit.path@.len(),
                    0 <= z <= m,
                    path@ == hit.path@.take(z as int),
                decreases m - z,
            {
                path.push(hit.path[z]);
                proof {
                    assert(path@ =~= hit.path@.take(z + 1));
                }
                z = z + 1;
            }
            proof {
                assert(path@ =~= hit.path@);
            }
            if mark && hit.dir {
                path.push('/');
            }
            proof {
                assert(path@ == marked(hv[i as int], flags));
            }
            let ghost acc0 = acc@;
            acc.push(path);
            proof {
                assert(cv_view(acc@) =~= cv_view(acc0).push(marked(hv[i as int], flags)));
                assert(cv_view(acc@) =~~= selected(hv.take(i + 1), sp, flags));
            }
        } else {
            proof {
                assert(cv_view(acc@) =~~= selected(hv.take(i + 1), sp, flags));
            }
        }
        i = i + 1;
    }
    proof {
        assert(hits_view(hits@).take(n as int) =~= hits_view(hits@));
    }
    let ghost sel = selected(hits_view(hits@), sp, flags);
    if acc.len() == 0 {
        let literal = (flags.test(NOMAGIC_BIT) && !cp.magic) || flags.test(NOCHECK_BIT);
        if literal {
            let mut paths: Vec<String> = Vec::new();
            let mut lens: Vec<usize> = Vec::new();
            paths.push(pattern.to_owned());
            lens.push(pattern.len());
            proof {
                assert(strs_view(paths@) =~= seq![pattern@]);
            }
            return Ok(Some(Zlob { paths, lens, offs: 0, magic: cp.magic }));
        }
        return Ok(None);
    }
    let finalv = if flags.test(NOSORT_BIT) {
        acc
    } else {
        sort_paths(acc)
    };
    let mut paths: Vec<String> = Vec::new();
    let mut lens: Vec<usize> = Vec::new();
    let nf = finalv.len();
    let mut j: usize = 0;
    while j < nf
        invariant
            nf == finalv@.len(),
            0 <= j <= nf,
            strs_view(paths@) == cv_view(finalv@).take(j as int),
            lens@.len() == paths@.len(),
        decreases nf - j,
    {
        let s = chars_to_string(&finalv[j]);
        lens.push(s.as_str().len());
        proof {
            assert(s@ == cv_view(finalv@)[j as int]);
        }
        let ghost paths0 = paths@;
        paths.push(s);
        proof {
            assert(strs_view(paths@) =~= strs_view(paths0).push(paths@.last()@));
            assert(strs_view(paths@) =~= cv_view(finalv@).take(j + 1));
        }
        j = j + 1;
    }
    proof {
        assert(strs_view(paths@) =~= cv_view(finalv@));
    }
    Ok(Some(Zlob { paths, lens, offs: 0, magic: cp.magic }))
}

} // verus!
