//! Gitignore-style exclusion rules.
//!
//! A rule file is a list of lines: empty lines and `#` comments carry no
//! rule; a leading `!` negates (re-includes); a trailing `/` restricts the
//! rule to directories; a pattern containing `/` is anchored to the rule
//! set's root, any other pattern matches a single path component at any
//! depth. Rules use the plain glob grammar, with wildcards free to match
//! a leading dot. The last matching rule wins; rule sets layered by depth
//! are consulted shallowest first, so a deeper set overrides.

use vstd::prelude::*;
use crate::flags::ZlobFlags;
use crate::flags::PERIOD_BIT;
use crate::paths::match_parts;
use crate::paths::parts_view;
use crate::paths::path_str_match;
use crate::paths::pm;
use crate::paths::spec_split;
use crate::paths::split_path;
use crate::paths::to_chars;
use crate::pattern::compile;
use crate::pattern::CompiledPattern;
use crate::pattern::SPat;
use crate::pattern::spec_compile;

verus! {

/// The flag set rules are compiled under: plain glob grammar, with
/// wildcards free to match a leading dot.
pub open spec fn rule_flags() -> ZlobFlags {
    ZlobFlags { bits: PERIOD_BIT }
}

/// The mathematical shape of one exclusion rule.
#[verifier::ext_equal]
pub ghost struct SRule {
    pub sp: SPat,
    pub neg: bool,
    pub dir_only: bool,
    pub anchored: bool,
}

/// One parsed exclusion rule.
pub struct Rule {
    pub cp: CompiledPattern,
    pub neg: bool,
    pub dir_only: bool,
    pub anchored: bool,
}

impl View for Rule {
    type V = SRule;

    open spec fn view(&self) -> SRule {
        SRule { sp: self.cp@, neg: self.neg, dir_only: self.dir_only, anchored: self.anchored }
    }
}

/// The sequence holds a `/` somewhere.
pub open spec fn has_slash(s: Seq<char>) -> bool {
    exists|i: int| 0 <= i < s.len() && s[i] == '/'
}

/// The rule of one line, or `None` for an empty line, a comment, or a
/// malformed pattern (which is skipped, as an ignore file keeps working
/// around a bad line).
pub open spec fn spec_rule(line: Seq<char>) -> Option<SRule> {
    if line.len() == 0 || line[0] == '#' {
        None
    } else {
        let neg = line[0] == '!';
        let body0 = if neg {
            line.drop_first()
        } else {
            line
        };
        let dir_only = body0.len() > 0 && body0.last() == '/';
        let body = if dir_only {
            body0.drop_last()
        } else {
            body0
        };
        if body.len() == 0 {
            None
        } else {
            let anchored = has_slash(body);
            match spec_compile(body, rule_flags(), true) {
                None => None,
                Some(sp) => Some(SRule { sp, neg, dir_only, anchored }),
            }
        }
    }
}

/// The rules of a list of lines, in order, bad lines skipped.
pub open spec fn spec_rules(lines: Seq<Seq<char>>) -> Seq<SRule>
    decreases lines.len(),
{
    if lines.len() == 0 {
        Seq::empty()
    } else {
        let prefix = spec_rules(lines.drop_last());
        match spec_rule(lines.last()) {
            Some(r) => prefix.push(r),
            None => prefix,
        }
    }
}

/// The views of a vector of rules.
pub open spec fn rules_view(v: Seq<Rule>) -> Seq<SRule> {
    v.map_values(|r: Rule| r@)
}

/// Every rule's pattern is well formed.
pub open spec fn rules_wf(rs: Seq<SRule>) -> bool {
    forall|i: int| 0 <= i < rs.len() ==> (#[trigger] rs[i]).sp.wf()
}

/// Does one rule match the path (given relative to the rule set's root)?
pub open spec fn rule_hits(r: SRule, rel: Seq<char>, is_dir: bool) -> bool {
    if r.anchored {
        (is_dir || !r.dir_only) && path_str_match(r.sp, rel, true)
    } else {
        exists|i: int|
            0 <= i < spec_split(rel).len() && pm(r.sp, 0, seq![#[trigger] spec_split(rel)[i]], true)
                && (!r.dir_only || i < spec_split(rel).len() - 1 || is_dir)
    }
}

/// The verdict of an ordered rule list: the last matching rule decides,
/// and a path is ignored unless that rule is a negation.
pub open spec fn spec_ignored(rs: Seq<SRule>, rel: Seq<char>, is_dir: bool) -> bool
    decreases rs.len(),
{
    if rs.len() == 0 {
        false
    } else if rule_hits(rs.last(), rel, is_dir) {
        !rs.last().neg
    } else {
        spec_ignored(rs.drop_last(), rel, is_dir)
    }
}

/// An ordered set of exclusion rules, as parsed from one rule file.
pub struct GitignoreRules {
    pub rules: Vec<Rule>,
}

impl GitignoreRules {
    /// Every rule's pattern is well formed.
    pub open spec fn wf(&self) -> bool {
        rules_wf(rules_view(self.rules@))
    }

    /// Parse the lines of a rule file, skipping empty lines, comments and
    /// malformed patterns.
    pub fn parse(lines: &Vec<String>) -> (r: GitignoreRules)
        ensures
            rules_view(r.rules@) == spec_rules(lines@.map_values(|l: String| l@)),
            r.wf(),
    {
        let ghost linesv = lines@.map_values(|l: String| l@);
        let mut rules: Vec<Rule> = Vec::new();
        let n = lines.len();
        let mut i: usize = 0;
        while i < n
            invariant
                n == lines@.len(),
                0 <= i <= n,
                linesv == lines@.map_values(|l: String| l@),
                rules_view(rules@) == spec_rules(linesv.take(i as int)),
                rules_wf(rules_view(rules@)),
            decreases n - i,
        {
            proof {
                assert(linesv.take(i + 1).drop_last() =~= linesv.take(i as int));
                assert(linesv.take(i + 1).last() == linesv[i as int]);
                assert(linesv[i as int] == lines@[i as int]@);
            }
            let ghost rules0 = rules@;
            let line = to_chars(lines[i].as_str());
            let empty_or_comment = line.len() == 0 || line[0] == '#';
            if !empty_or_comment {
                let neg = line[0] == '!';
                let s0: usize = if neg {
                    1
                } else {
                    0
                };
                let dir_only = line.len() > s0 && line[line.len() - 1] == '/';
                let e0: usize = if dir_only {
                    line.len() - 1
                } else {
                    line.len()
                };
                let ghost body = if dir_only {
                    (if neg {
                        line@.drop_first()
                    } else {
                        line@
                    }).drop_last()
                } else {
                    (if neg {
                        line@.drop_first()
                    } else {
                        line@
                    })
                };
                if e0 > s0 {
                    let mut pat: Vec<char> = Vec::new();
                    let mut anchored = false;
                    let mut x = s0;
                    while x < e0
                        invariant
                            s0 <= x <= e0 <= line@.len(),
                            pat@ == line@.subrange(s0 as int, x as int),
                            anchored == (exists|z: int|
                                s0 <= z < x && line@[z] == '/'),
                        decreases e0 - x,
                    {
                        let c = line[x];
                        if c == '/' {
                            anchored = true;
                        }
                        pat.push(c);
                        proof {
                            assert(pat@ =~= line@.subrange(s0 as int, x + 1));
                        }
                        x = x + 1;
                    }
                    proof {
                        assert(pat@ =~= body);
                        assert(anchored == has_slash(body)) by {
                            if anchored {
                                let z = choose|z: int| s0 <= z < e0 && line@[z] == '/';
                                assert(body[z - s0] == '/');
                            } else {
                                if has_slash(body) {
                                    let z = choose|z: int| 0 <= z < body.len() && body[z] == '/';
                                    assert(line@[z + s0] == '/');
                                }
                            }
                        }
                    }
                    match compile(&pat, ZlobFlags { bits: PERIOD_BIT }, true) {
                        Ok(cp) => {
                            rules.push(Rule { cp, neg, dir_only, anchored });
                            proof {
                                assert(rules_view(rules@) =~= rules_view(rules0).push(
                                    rules@.last()@,
                                ));
                                let lv = linesv[i as int];
                                let negs = lv[0] == '!';
                                let body0 = if negs {
                                    lv.drop_first()
                                } else {
                                    lv
                                };
                                assert(negs == neg);
                                assert(body0.len() == lv.len() - s0);
                                assert(dir_only == (body0.len() > 0 && body0.last() == '/'));
                                let bodys = if dir_only {
                                    body0.drop_last()
                                } else {
                                    body0
                                };
                                assert(bodys =~= body);
                                assert(ZlobFlags { bits: PERIOD_BIT } == rule_flags());
                                assert(cp@ == spec_compile(bodys, rule_flags(), true).unwrap());
                                assert(spec_rule(lv) is Some);
                                let sr = spec_rule(lv).unwrap();
                                assert(sr.neg == neg);
                                assert(sr.dir_only == dir_only);
                                assert(sr.anchored == anchored);
                                assert(sr.sp == cp@);
                                assert(rules@.last()@ =~~= spec_rule(lv).unwrap());
                                assert(rules_view(rules@) =~= spec_rules(linesv.take(i + 1)));
                                assert(rules_wf(rules_view(rules@)));
                            }
                        },
                        Err(_) => {
                            proof {
                                assert(spec_rule(linesv[i as int]) is None);
                                assert(rules_view(rules@) =~= spec_rules(linesv.take(i + 1)));
                            }
                        },
                    }
                } else {
                    proof {
                        assert(spec_rule(linesv[i as int]) is None);
                        assert(rules_view(rules@) =~= spec_rules(linesv.take(i + 1)));
                    }
                }
            } else {
                proof {
                    assert(spec_rule(linesv[i as int]) is None);
                    assert(rules_view(rules@) =~= spec_rules(linesv.take(i + 1)));
                }
            }
            i = i + 1;
        }
        proof {
            assert(linesv.take(n as int) =~= linesv);
        }
        GitignoreRules { rules }
    }

    /// Is the path (relative to the rule set's root) ignored? The last
    /// matching rule decides; a negation re-includes.
    pub fn is_ignored(&self, rel: &str, is_dir: bool) -> (r: bool)
        requires
            self.wf(),
        ensures
            r == spec_ignored(rules_view(self.rules@), rel@, is_dir),
    {
        let chars = to_chars(rel);
        self.is_ignored_chars(&chars, is_dir)
    }

    /// Is the path, given as characters, ignored?
    pub fn is_ignored_chars(&self, rel: &Vec<char>, is_dir: bool) -> (r: bool)
        requires
            self.wf(),
        ensures
            r == spec_ignored(rules_view(self.rules@), rel@, is_dir),
    {
        let parts = split_path(rel);
        let n = self.rules.len();
        let mut i: usize = n;
        proof {
            broadcast use vstd::std_specs::vec::group_vec_axioms;

            assert(rules_view(self.rules@).take(n as int) =~= rules_view(self.rules@));
        }
        while i > 0
            invariant
                n == self.rules@.len(),
                0 <= i <= n,
                self.wf(),
                parts_view(parts@) == spec_split(rel@),
                spec_ignored(rules_view(self.rules@), rel@, is_dir) == spec_ignored(
                    rules_view(self.rules@).take(i as int),
                    rel@,
                    is_dir,
                ),
            decreases i,
        {
            let rule = &self.rules[i - 1];
            proof {
                assert(rules_view(self.rules@)[i - 1] == rule@);
                assert(rules_view(self.rules@).take(i as int).last() == rule@);
                assert(rules_view(self.rules@).take(i as int).drop_last() =~= rules_view(
                    self.rules@,
                ).take(i - 1));
                assert(rule@.sp.wf());
            }
            let hit = rule_matches(rule, &parts, is_dir);
            proof {
                assert(hit == rule_hits(rule@, rel@, is_dir));
            }
            if hit {
                return !rule.neg;
            }
            i = i - 1;
        }
        proof {
            assert(rules_view(self.rules@).take(0) =~= Seq::<SRule>::empty());
        }
        false
    }
}

/// Does one rule match the split path?
fn rule_matches(rule: &Rule, parts: &Vec<Vec<char>>, is_dir: bool) -> (r: bool)
    requires
        rule@.sp.wf(),
    ensures
        (forall|rel: Seq<char>|
            parts_view(parts@) == spec_split(rel) ==> r == rule_hits(rule@, rel, is_dir)),
{
    let n = parts.len();
    proof {
        broadcast use vstd::std_specs::vec::group_vec_axioms;

        assert(parts.len() == parts@.len());
        assert(parts_view(parts@).len() == parts@.len());
    }
    if rule.anchored {
        if rule.dir_only && !is_dir {
            return false;
        }
        proof {
            assert(parts_view(parts@).skip(0) =~= parts_view(parts@));
        }
        let r = match_parts(&rule.cp, 0, parts, 0, true);
        return r;
    }
    let mut i: usize = 0;
    while i < n
        invariant
            n == parts@.len(),
            0 <= i <= n,
            rule@.sp.wf(),
            !rule.anchored,
            forall|i2: int|
                0 <= i2 < i ==> !(pm(rule@.sp, 0, seq![#[trigger] parts_view(parts@)[i2]], true)
                    && (!rule@.dir_only || i2 < parts_view(parts@).len() - 1 || is_dir)),
        decreases n - i,
    {
        let allowed = !rule.dir_only || i + 1 < n || is_dir;
        if allowed {
            let mut single: Vec<Vec<char>> = Vec::new();
            let mut tmp: Vec<char> = Vec::new();
            let comp = &parts[i];
            let m = comp.len();
            let mut y: usize = 0;
            while y < m
                invariant
                    m == comp@.len(),
                    0 <= y <= m,
                    tmp@ == comp@.take(y as int),
                decreases m - y,
            {
                tmp.push(comp[y]);
                proof {
                    assert(tmp@ =~= comp@.take(y + 1));
                }
                y = y + 1;
            }
            proof {
                assert(tmp@ =~= comp@);
            }
            single.push(tmp);
            proof {
                assert(parts_view(single@) =~= seq![parts_view(parts@)[i as int]]);
                assert(parts_view(single@).skip(0) =~= parts_view(single@));
            }
            if match_parts(&rule.cp, 0, &single, 0, true) {
                return true;
            }
        }
        i = i + 1;
    }
    false
}

} // verus!

verus! {

/// The verdict of an ordered rule list, if any rule matches: the last
/// matching rule decides, `true` meaning ignored.
pub open spec fn spec_verdict(rs: Seq<SRule>, rel: Seq<char>, is_dir: bool) -> Option<bool>
    decreases rs.len(),
{
    if rs.len() == 0 {
        None
    } else if rule_hits(rs.last(), rel, is_dir) {
        Some(!rs.last().neg)
    } else {
        spec_verdict(rs.drop_last(), rel, is_dir)
    }
}

/// One rule set layered at a directory: paths are judged relative to that
/// directory, after `skip` leading characters.
pub struct GitignoreLayer {
    pub skip: usize,
    pub rules: GitignoreRules,
}

/// The shape of one layer.
#[verifier::ext_equal]
pub ghost struct SLayer {
    pub skip: usize,
    pub rules: Seq<SRule>,
}

impl View for GitignoreLayer {
    type V = SLayer;

    open spec fn view(&self) -> SLayer {
        SLayer { skip: self.skip, rules: rules_view(self.rules.rules@) }
    }
}

/// The views of a vector of layers.
pub open spec fn layers_view(v: Seq<GitignoreLayer>) -> Seq<SLayer> {
    v.map_values(|l: GitignoreLayer| l@)
}

/// Every layer's rules are well formed.
pub open spec fn layers_wf(ls: Seq<SLayer>) -> bool {
    forall|i: int| 0 <= i < ls.len() ==> rules_wf((#[trigger] ls[i]).rules)
}

/// The verdict of rule sets layered by depth, shallowest first: the
/// deepest applicable set with a matching rule decides, so a deeper set
/// overrides a shallower one; with no matching rule anywhere the path is
/// not ignored.
pub open spec fn spec_layered(ls: Seq<SLayer>, path: Seq<char>, is_dir: bool) -> bool
    decreases ls.len(),
{
    if ls.len() == 0 {
        false
    } else {
        let l = ls.last();
        if l.skip <= path.len() {
            match spec_verdict(l.rules, path.skip(l.skip as int), is_dir) {
                Some(v) => v,
                None => spec_layered(ls.drop_last(), path, is_dir),
            }
        } else {
            spec_layered(ls.drop_last(), path, is_dir)
        }
    }
}

impl GitignoreRules {
    /// The verdict of this rule set on a relative path, if any rule
    /// matches.
    pub fn verdict_chars(&self, rel: &Vec<char>, is_dir: bool) -> (r: Option<bool>)
        requires
            self.wf(),
        ensures
            r == spec_verdict(rules_view(self.rules@), rel@, is_dir),
    {
        let parts = split_path(rel);
        let n = self.rules.len();
        let mut i: usize = n;
        proof {
            broadcast use vstd::std_specs::vec::group_vec_axioms;

            assert(rules_view(self.rules@).take(n as int) =~= rules_view(self.rules@));
        }
        while i > 0
            invariant
                n == self.rules@.len(),
                0 <= i <= n,
                self.wf(),
                parts_view(parts@) == spec_split(rel@),
                spec_verdict(rules_view(self.rules@), rel@, is_dir) == spec_verdict(
                    rules_view(self.rules@).take(i as int),
                    rel@,
                    is_dir,
                ),
            decreases i,
        {
            let rule = &self.rules[i - 1];
            proof {
                assert(rules_view(self.rules@)[i - 1] == rule@);
                assert(rules_view(self.rules@).take(i as int).last() == rule@);
                assert(rules_view(self.rules@).take(i as int).drop_last() =~= rules_view(
                    self.rules@,
                ).take(i - 1));
                assert(rule@.sp.wf());
            }
            let hit = rule_matches(rule, &parts, is_dir);
            proof {
                assert(hit == rule_hits(rule@, rel@, is_dir));
            }
            if hit {
                return Some(!rule.neg);
            }
            i = i - 1;
        }
        proof {
            assert(rules_view(self.rules@).take(0) =~= Seq::<SRule>::empty());
        }
        None
    }
}

/// Is the path ignored under rule sets layered by depth, shallowest
/// first? Each set judges the path relative to its own directory.
pub fn is_ignored_layered(layers: &Vec<GitignoreLayer>, path: &str, is_dir: bool) -> (r: bool)
    requires
        layers_wf(layers_view(layers@)),
    ensures
        r == spec_layered(layers_view(layers@), path@, is_dir),
{
    let chars = to_chars(path);
    is_ignored_layered_chars(layers, &chars, is_dir)
}

/// Is the path, given as characters, ignored under the layered rule sets?
pub fn is_ignored_layered_chars(
    layers: &Vec<GitignoreLayer>,
    chars: &Vec<char>,
    is_dir: bool,
) -> (r: bool)
    requires
        layers_wf(layers_view(layers@)),
    ensures
        r == spec_layered(layers_view(layers@), chars@, is_dir),
{
    let ghost path = chars@;
    let n = layers.len();
    let mut i: usize = n;
    proof {
        broadcast use vstd::std_specs::vec::group_vec_axioms;

        assert(layers_view(layers@).take(n as int) =~= layers_view(layers@));
    }
    while i > 0
        invariant
            n == layers@.len(),
            0 <= i <= n,
            layers_wf(layers_view(layers@)),
            chars@ == path,
            spec_layered(layers_view(layers@), path, is_dir) == spec_layered(
                layers_view(layers@).take(i as int),
                path,
                is_dir,
            ),
        decreases i,
    {
        let layer = &layers[i - 1];
        proof {
            assert(layers_view(layers@)[i - 1] == layer@);
            assert(layers_view(layers@).take(i as int).last() == layer@);
            assert(layers_view(layers@).take(i as int).drop_last() =~= layers_view(layers@).take(
                i - 1,
            ));
            assert(rules_wf(layer@.rules));
        }
        if layer.skip <= chars.len() {
            let mut rel: Vec<char> = Vec::new();
            let m = chars.len();
            let mut z = layer.skip;
            while z < m
                invariant
                    layer.skip <= z <= m,
                    m == chars@.len(),
                    rel@ == chars@.subrange(layer.skip as int, z as int),
                decreases m - z,
            {
                rel.push(chars[z]);
                proof {
                    assert(rel@ =~= chars@.subrange(layer.skip as int, z + 1));
                }
                z = z + 1;
            }
            proof {
                assert(rel@ =~= path.skip(layer.skip as int));
            }
            match layer.rules.verdict_chars(&rel, is_dir) {
                Some(v) => {
                    return v;
                },
                None => {},
            }
        }
        i = i - 1;
    }
    proof {
        assert(layers_view(layers@).take(0) =~= Seq::<SLayer>::empty());
    }
    false
}

} // verus!
