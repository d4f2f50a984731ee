//! Option bits controlling one matching operation.

use vstd::prelude::*;

verus! {

/// Abort the whole operation when a directory cannot be read.
pub const ERR_BIT: u32 = 0x0001;
/// Append `/` to every directory match in the final result.
pub const MARK_BIT: u32 = 0x0002;
/// Skip the byte-lexicographic sort of the results.
pub const NOSORT_BIT: u32 = 0x0004;
/// Reserve leading null slots in the result array.
pub const DOOFFS_BIT: u32 = 0x0008;
/// Return the pattern itself as the sole match when nothing matched.
pub const NOCHECK_BIT: u32 = 0x0010;
/// Add matches to a prior result instead of replacing it.
pub const APPEND_BIT: u32 = 0x0020;
/// Treat backslash as a literal character, not an escape.
pub const NOESCAPE_BIT: u32 = 0x0040;
/// Let wildcards match a leading `.` in an entry name.
pub const PERIOD_BIT: u32 = 0x0080;
/// Output bit: the pattern contained metacharacters.
pub const MAGCHAR_BIT: u32 = 0x0100;
/// Use a caller-supplied directory entry source.
pub const ALTDIRFUNC_BIT: u32 = 0x0200;
/// Enable `{a,b,c}` brace alternation.
pub const BRACE_BIT: u32 = 0x0400;
/// Return the pattern literally when it holds no metacharacters and nothing matched.
pub const NOMAGIC_BIT: u32 = 0x0800;
/// Enable `~` and `~user` expansion.
pub const TILDE_BIT: u32 = 0x1000;
/// Match directories only.
pub const ONLYDIR_BIT: u32 = 0x2000;
/// Like `~` expansion, but fail when the user cannot be resolved.
pub const TILDE_CHECK_BIT: u32 = 0x4000;
/// Filter matches through gitignore rules found along the traversal.
pub const GITIGNORE_BIT: u32 = 0x1000000;
/// Let a `**` component match zero or more directory levels.
pub const DOUBLESTAR_RECURSIVE_BIT: u32 = 0x2000000;
/// Enable the extended `?() *() +() @() !()` group operators.
pub const EXTGLOB_BIT: u32 = 0x4000000;
/// Recommended defaults: brace alternation, recursive `**`, no sorting,
/// tilde expansion, and strict `~user` resolution.
pub const RECOMMENDED_BITS: u32 = BRACE_BIT | DOUBLESTAR_RECURSIVE_BIT | NOSORT_BIT | TILDE_BIT
    | TILDE_CHECK_BIT;

/// An immutable set of option bits, fixed for one matching operation.
///
/// The numeric bit assignments are a compatibility contract and are never
/// renumbered.
#[derive(Clone, Copy, PartialEq, Eq, Structural, Debug, Hash)]
pub struct ZlobFlags {
    pub bits: u32,
}

impl ZlobFlags {
    /// True when every bit of `bit` is set in this flag set.
    pub open spec fn has(self, bit: u32) -> bool {
        self.bits & bit == bit
    }

    /// The flag set with no bit set.
    pub fn empty() -> (r: Self)
        ensures
            r.bits == 0,
    {
        ZlobFlags { bits: 0 }
    }

    /// The flag set holding exactly the given bits.
    pub fn from_bits(bits: u32) -> (r: Self)
        ensures
            r.bits == bits,
    {
        ZlobFlags { bits }
    }

    /// True when every bit of `bit` is set.
    pub fn test(&self, bit: u32) -> (r: bool)
        ensures
            r == self.has(bit),
    {
        self.bits & bit == bit
    }

    /// The raw bits of this flag set.
    pub fn bits(&self) -> (r: u32)
        ensures
            r == self.bits,
    {
        self.bits
    }

    /// True when every bit of `other` is set in `self`.
    pub fn contains(&self, other: Self) -> (r: bool)
        ensures
            r == (self.bits & other.bits == other.bits),
    {
        self.bits & other.bits == other.bits
    }

    /// The union of the two flag sets.
    pub fn or(self, other: Self) -> (r: Self)
        ensures
            r.bits == (self.bits | other.bits),
    {
        ZlobFlags { bits: self.bits | other.bits }
    }

    /// Abort on unreadable directories.
    pub fn err() -> (r: Self)
        ensures
            r.bits == ERR_BIT,
    {
        ZlobFlags { bits: ERR_BIT }
    }

    /// Append `/` to directory matches.
    pub fn mark() -> (r: Self)
        ensures
            r.bits == MARK_BIT,
    {
        ZlobFlags { bits: MARK_BIT }
    }

    /// Skip sorting the results.
    pub fn nosort() -> (r: Self)
        ensures
            r.bits == NOSORT_BIT,
    {
        ZlobFlags { bits: NOSORT_BIT }
    }

    /// Reserve leading null slots.
    pub fn dooffs() -> (r: Self)
        ensures
            r.bits == DOOFFS_BIT,
    {
        ZlobFlags { bits: DOOFFS_BIT }
    }

    /// Return the pattern literally when nothing matched.
    pub fn nocheck() -> (r: Self)
        ensures
            r.bits == NOCHECK_BIT,
    {
        ZlobFlags { bits: NOCHECK_BIT }
    }

    /// Append to a prior result.
    pub fn append() -> (r: Self)
        ensures
            r.bits == APPEND_BIT,
    {
        ZlobFlags { bits: APPEND_BIT }
    }

    /// Backslash is a literal character.
    pub fn noescape() -> (r: Self)
        ensures
            r.bits == NOESCAPE_BIT,
    {
        ZlobFlags { bits: NOESCAPE_BIT }
    }

    /// Wildcards may match a leading dot.
    pub fn period() -> (r: Self)
        ensures
            r.bits == PERIOD_BIT,
    {
        ZlobFlags { bits: PERIOD_BIT }
    }

    /// Output bit: metacharacters were present.
    pub fn magchar() -> (r: Self)
        ensures
            r.bits == MAGCHAR_BIT,
    {
        ZlobFlags { bits: MAGCHAR_BIT }
    }

    /// Use a caller-supplied entry source.
    pub fn altdirfunc() -> (r: Self)
        ensures
            r.bits == ALTDIRFUNC_BIT,
    {
        ZlobFlags { bits: ALTDIRFUNC_BIT }
    }

    /// Enable brace alternation.
    pub fn brace() -> (r: Self)
        ensures
            r.bits == BRACE_BIT,
    {
        ZlobFlags { bits: BRACE_BIT }
    }

    /// Return the pattern literally when it has no metacharacters.
    pub fn nomagic() -> (r: Self)
        ensures
            r.bits == NOMAGIC_BIT,
    {
        ZlobFlags { bits: NOMAGIC_BIT }
    }

    /// Enable tilde expansion.
    pub fn tilde() -> (r: Self)
        ensures
            r.bits == TILDE_BIT,
    {
        ZlobFlags { bits: TILDE_BIT }
    }

    /// Match directories only.
    pub fn onlydir() -> (r: Self)
        ensures
            r.bits == ONLYDIR_BIT,
    {
        ZlobFlags { bits: ONLYDIR_BIT }
    }

    /// Tilde expansion that fails on an unknown user.
    pub fn tilde_check() -> (r: Self)
        ensures
            r.bits == TILDE_CHECK_BIT,
    {
        ZlobFlags { bits: TILDE_CHECK_BIT }
    }

    /// Filter matches through gitignore rules.
    pub fn gitignore() -> (r: Self)
        ensures
            r.bits == GITIGNORE_BIT,
    {
        ZlobFlags { bits: GITIGNORE_BIT }
    }

    /// `**` matches zero or more directory levels.
    pub fn doublestar_recursive() -> (r: Self)
        ensures
            r.bits == DOUBLESTAR_RECURSIVE_BIT,
    {
        ZlobFlags { bits: DOUBLESTAR_RECURSIVE_BIT }
    }

    /// Enable the extended group operators.
    pub fn extglob() -> (r: Self)
        ensures
            r.bits == EXTGLOB_BIT,
    {
        ZlobFlags { bits: EXTGLOB_BIT }
    }

    /// The recommended default combination.
    pub fn recommended() -> (r: Self)
        ensures
            r.bits == RECOMMENDED_BITS,
    {
        ZlobFlags { bits: RECOMMENDED_BITS }
    }
}

impl Default for ZlobFlags {
    /// The default flag set is empty.
    fn default() -> (r: Self)
        ensures
            r.bits == 0,
    {
        ZlobFlags { bits: 0 }
    }
}

} // verus!
