//! Byte-level helpers: ASCII case folding and byte-sequence comparisons.
#![allow(unused_imports)]
use vstd::prelude::*;

verus! {

/// Byte values that the matcher cares about, named because Verus does not
/// accept byte literals.
pub const UPPER_A: u8 = 65;

pub const UPPER_Z: u8 = 90;

pub const LOWER_A: u8 = 97;

pub const LOWER_Z: u8 = 122;

pub const SLASH: u8 = 47;

pub const STAR: u8 = 42;

pub const QMARK: u8 = 63;

pub const LBRACK: u8 = 91;

pub const RBRACK: u8 = 93;

pub const BSLASH: u8 = 92;

pub const BANG: u8 = 33;

pub const CARET: u8 = 94;

pub const DASH: u8 = 45;

/// Lower-case an ASCII letter byte; leave every other byte unchanged.
pub open spec fn fold_byte(b: u8) -> u8 {
    if UPPER_A <= b && b <= UPPER_Z {
        (b + 32) as u8
    } else {
        b
    }
}

/// Upper-case an ASCII letter byte; leave every other byte unchanged.
pub open spec fn upper_byte(b: u8) -> u8 {
    if LOWER_A <= b && b <= LOWER_Z {
        (b - 32) as u8
    } else {
        b
    }
}

/// Swap the case of an ASCII letter byte; leave every other byte unchanged.
pub open spec fn swap_byte(b: u8) -> u8 {
    if UPPER_A <= b && b <= UPPER_Z {
        (b + 32) as u8
    } else if LOWER_A <= b && b <= LOWER_Z {
        (b - 32) as u8
    } else {
        b
    }
}

/// Fold a byte to lower case only when `ignore_case` is set.
pub open spec fn fold_if(b: u8, ignore_case: bool) -> u8 {
    if ignore_case {
        fold_byte(b)
    } else {
        b
    }
}

/// `n` bytes of `a` starting at `i` equal `n` bytes of `b` starting at `j`,
/// each pair compared after optional ASCII case folding.
pub open spec fn eq_fold_range(
    a: Seq<u8>,
    i: int,
    b: Seq<u8>,
    j: int,
    n: int,
    ignore_case: bool,
) -> bool {
    forall|k: int|
        0 <= k < n ==> #[trigger] fold_if(a[i + k], ignore_case) == fold_if(b[j + k], ignore_case)
}

/// `pre` is a byte-exact prefix of `s`.
pub open spec fn is_prefix(pre: Seq<u8>, s: Seq<u8>) -> bool {
    pre.len() <= s.len() && eq_fold_range(pre, 0, s, 0, pre.len() as int, false)
}

/// `s[from..]` contains the byte `b`.
pub open spec fn has_byte_from(s: Seq<u8>, b: u8, from: int) -> bool {
    exists|k: int| from <= k < s.len() && s[k] == b
}

/// Compare two bytes, optionally folding ASCII case.
pub fn byte_eq_fold(a: u8, b: u8, ignore_case: bool) -> (r: bool)
    ensures
        r == (fold_if(a, ignore_case) == fold_if(b, ignore_case)),
{
    if ignore_case {
        let fa: u8 = if UPPER_A <= a && a <= UPPER_Z {
            a + 32
        } else {
            a
        };
        let fb: u8 = if UPPER_A <= b && b <= UPPER_Z {
            b + 32
        } else {
            b
        };
        fa == fb
    } else {
        a == b
    }
}

/// Compare `a[ai..ai + n]` against `b[bi..bi + n]`, optionally case folded.
pub fn range_eq_fold(a: &[u8], ai: usize, b: &[u8], bi: usize, n: usize, ignore_case: bool) -> (r:
    bool)
    requires
        ai + n <= a@.len(),
        bi + n <= b@.len(),
    ensures
        r == eq_fold_range(a@, ai as int, b@, bi as int, n as int, ignore_case),
{
    let a_len: usize = a.len();
    let b_len: usize = b.len();
    let mut k: usize = 0;
    while k < n
        invariant
            0 <= k <= n,
            ai + n <= a_len == a@.len(),
            bi + n <= b_len == b@.len(),
            forall|m: int|
                0 <= m < k ==> #[trigger] fold_if(a@[ai + m], ignore_case) == fold_if(
                    b@[bi + m],
                    ignore_case,
                ),
        decreases n - k,
    {
        if !byte_eq_fold(a[ai + k], b[bi + k], ignore_case) {
            assert(fold_if(a@[ai + k as int], ignore_case) != fold_if(
                b@[bi + k as int],
                ignore_case,
            ));
            return false;
        }
        k += 1;
    }
    true
}

/// Does `s` start with the byte-exact prefix `pre`?
pub fn starts_with(s: &[u8], pre: &[u8]) -> (r: bool)
    ensures
        r == is_prefix(pre@, s@),
{
    if pre.len() > s.len() {
        return false;
    }
    range_eq_fold(pre, 0, s, 0, pre.len(), false)
}

/// Does `s[from..]` contain the byte `b`?
pub fn contains_byte_from(s: &[u8], b: u8, from: usize) -> (r: bool)
    requires
        from <= s@.len(),
    ensures
        r == has_byte_from(s@, b, from as int),
{
    let mut k: usize = from;
    while k < s.len()
        invariant
            from <= k <= s@.len(),
            forall|m: int| from <= m < k ==> s@[m] != b,
        decreases s@.len() - k,
    {
        if s[k] == b {
            assert(has_byte_from(s@, b, from as int));
            return true;
        }
        k += 1;
    }
    false
}

} // verus!
