//! Tilde expansion: resolving a leading `~` or `~user` against a home
//! directory that the caller looked up.

use vstd::prelude::*;
use crate::error::ZlobError;
use crate::flags::ZlobFlags;
use crate::flags::TILDE_BIT;
use crate::flags::TILDE_CHECK_BIT;

verus! {

/// The index of the first `/` at or after `i`, or the length.
pub open spec fn first_slash_from(s: Seq<char>, i: int) -> int
    decreases s.len() - i,
        when 0 <= i <= s.len()
{
    if i == s.len() {
        i
    } else if s[i] == '/' {
        i
    } else {
        first_slash_from(s, i + 1)
    }
}

/// The first-slash index lies between `i` and the length.
pub proof fn lemma_first_slash_bounds(s: Seq<char>, i: int)
    requires
        0 <= i <= s.len(),
    ensures
        i <= first_slash_from(s, i) <= s.len(),
    decreases s.len() - i,
{
    if i < s.len() && s[i] != '/' {
        lemma_first_slash_bounds(s, i + 1);
    }
}

/// Tilde expansion applies: the option is on and the pattern starts with `~`.
pub open spec fn tilde_applies(pat: Seq<char>, flags: ZlobFlags) -> bool {
    flags.has(TILDE_BIT) && pat.len() > 0 && pat[0] == '~'
}

/// The user name between `~` and the first `/` (empty for a plain `~`).
pub open spec fn tilde_user(pat: Seq<char>) -> Seq<char> {
    pat.subrange(1, first_slash_from(pat, 1))
}

/// The pattern from the first `/` on (empty when there is none).
pub open spec fn tilde_rest(pat: Seq<char>) -> Seq<char> {
    pat.skip(first_slash_from(pat, 1))
}

/// The user name a caller must resolve before expansion, or `None` when
/// no expansion applies.
pub fn tilde_prefix(pattern: &str, flags: ZlobFlags) -> (r: Option<String>)
    ensures
        tilde_applies(pattern@, flags) ==> (r matches Some(u) && u@ == tilde_user(pattern@)),
        !tilde_applies(pattern@, flags) ==> (r is None),
{
    let n = pattern.unicode_len();
    if !flags.test(TILDE_BIT) || n == 0 || pattern.get_char(0) != '~' {
        return None;
    }
    let k = find_slash(pattern, 1);
    Some(pattern.substring_char(1, k).to_owned())
}

/// The index of the first `/` at or after `i`, or the length.
fn find_slash(pattern: &str, i: usize) -> (r: usize)
    requires
        i <= pattern@.len(),
    ensures
        r == first_slash_from(pattern@, i as int),
        i <= r <= pattern@.len(),
{
    let n = pattern.unicode_len();
    let mut x = i;
    while x < n
        invariant
            n == pattern@.len(),
            i <= x <= n,
            first_slash_from(pattern@, i as int) == first_slash_from(pattern@, x as int),
        decreases n - x,
    {
        if pattern.get_char(x) == '/' {
            return x;
        }
        x = x + 1;
    }
    x
}

/// Expand a leading `~` or `~user` to the home directory the caller
/// resolved. With no resolution, the strict option fails the call and the
/// plain option leaves the pattern unchanged; a pattern without a tilde
/// (or with the option off) is returned unchanged.
pub fn expand_tilde(pattern: &str, home: Option<&str>, flags: ZlobFlags) -> (r: Result<
    String,
    ZlobError,
>)
    ensures
        !tilde_applies(pattern@, flags) ==> (r matches Ok(s) && s@ == pattern@),
        tilde_applies(pattern@, flags) && (home matches Some(h)) ==> (r matches Ok(s) && s@ == home.unwrap()@
            + tilde_rest(pattern@)),
        tilde_applies(pattern@, flags) && (home is None) && flags.has(TILDE_CHECK_BIT) ==> r == Err::<
            String,
            ZlobError,
        >(ZlobError::Aborted),
        tilde_applies(pattern@, flags) && (home is None) && !flags.has(TILDE_CHECK_BIT) ==> (
        r matches Ok(s) && s@ == pattern@),
{
    let n = pattern.unicode_len();
    if !flags.test(TILDE_BIT) || n == 0 || pattern.get_char(0) != '~' {
        return Ok(pattern.to_owned());
    }
    match home {
        Some(h) => {
            let k = find_slash(pattern, 1);
            let mut out = h.to_owned();
            out.append(pattern.substring_char(k, n));
            Ok(out)
        },
        None => {
            if flags.test(TILDE_CHECK_BIT) {
                Err(ZlobError::Aborted)
            } else {
                Ok(pattern.to_owned())
            }
        },
    }
}

} // verus!
