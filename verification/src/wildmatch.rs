//! The general glob matcher: shell-style wildcard matching over bytes.
//!
//! Syntax: `*` matches zero or more bytes, `?` matches exactly one byte, and a
//! bracket expression `[...]` matches one byte out of a set. A set may start
//! with `!` or `^` to negate it, may contain `lo-hi` ranges, and may name `]`
//! as its first member; a `[` without a closing bracket matches a literal `[`.
//! A backslash makes the following pattern byte literal. With `slash_literal`
//! set, no wildcard consumes the path separator `/`. Case folding is ASCII
//! only.
//!
//! [`glob_match`] is the mathematical definition; [`wildmatch`] computes it.
#![allow(unused_imports)]
use crate::ascii::{
    byte_eq_fold, eq_fold_range, fold_if, swap_byte, upper_byte, BANG, BSLASH, CARET, DASH, LBRACK,
    LOWER_A, LOWER_Z, QMARK, RBRACK, SLASH, STAR, UPPER_A, UPPER_Z,
};
use vstd::prelude::*;

verus! {

/// A byte that begins a wildcard construct (or an escape) in a pattern.
pub open spec fn is_wild(b: u8) -> bool {
    b == STAR || b == QMARK || b == LBRACK || b == BSLASH
}

/// No wildcard byte occurs in `s[i..j]`.
pub open spec fn no_wild(s: Seq<u8>, i: int, j: int) -> bool {
    forall|k: int| i <= k < j ==> !is_wild(s[k])
}

/// Index of the first occurrence of `b` in `s` at an index `>= from`, or `-1`.
pub open spec fn find_from(s: Seq<u8>, b: u8, from: int) -> int
    decreases s.len() - from,
{
    if from < 0 || from >= s.len() {
        -1
    } else if s[from] == b {
        from
    } else {
        find_from(s, b, from + 1)
    }
}

/// The byte `b` lies in the range `lo-hi`; under `ignore_case` a byte also
/// counts when its case-swapped form lies in the range.
pub open spec fn in_range(lo: u8, hi: u8, b: u8, ignore_case: bool) -> bool {
    (lo <= b && b <= hi) || (ignore_case && lo <= swap_byte(b) && swap_byte(b) <= hi)
}

/// The byte `b` is a member of the bracket-set body `pat[i..end]`: equal
/// (after optional folding) to a plain member, or inside an `lo-hi` range.
pub open spec fn class_member(pat: Seq<u8>, i: int, end: int, b: u8, ignore_case: bool) -> bool
    decreases end - i,
{
    if i < 0 || i >= end || end > pat.len() {
        false
    } else if i + 2 < end && pat[i + 1] == DASH {
        in_range(pat[i], pat[i + 2], b, ignore_case) || class_member(pat, i + 3, end, b, ignore_case)
    } else {
        fold_if(pat[i], ignore_case) == fold_if(b, ignore_case) || class_member(
            pat,
            i + 1,
            end,
            b,
            ignore_case,
        )
    }
}

/// Start of the bracket-set body for a `[` at `p`: negation markers skipped.
pub open spec fn class_body(pat: Seq<u8>, p: int) -> int {
    if p + 1 < pat.len() && (pat[p + 1] == BANG || pat[p + 1] == CARET) {
        p + 2
    } else {
        p + 1
    }
}

/// Whether the bracket set opened at `p` is negated.
pub open spec fn class_negated(pat: Seq<u8>, p: int) -> bool {
    p + 1 < pat.len() && (pat[p + 1] == BANG || pat[p + 1] == CARET)
}

/// Position of the `]` closing a bracket set opened at `p`, or `-1`. A `]`
/// standing first in the body is a member, not the closing bracket.
pub open spec fn class_close(pat: Seq<u8>, p: int) -> int {
    let body = class_body(pat, p);
    let search = if body < pat.len() && pat[body] == RBRACK {
        body + 1
    } else {
        body
    };
    find_from(pat, RBRACK, search)
}

/// Does the pattern tail `pat[p..]` match the value tail `val[v..]`?
///
/// This is the reference semantics every matching operation of this crate is
/// specified against. Out-of-range indices never match.
pub open spec fn glob_match_from(
    pat: Seq<u8>,
    p: int,
    val: Seq<u8>,
    v: int,
    slash_literal: bool,
    ignore_case: bool,
) -> bool
    decreases val.len() - v, pat.len() - p,
{
    if p < 0 || v < 0 || p > pat.len() || v > val.len() {
        false
    } else if p == pat.len() {
        v == val.len()
    } else if pat[p] == STAR {
        ||| glob_match_from(pat, p + 1, val, v, slash_literal, ignore_case)
        ||| (v < val.len() && !(slash_literal && val[v] == SLASH) && glob_match_from(
            pat,
            p,
            val,
            v + 1,
            slash_literal,
            ignore_case,
        ))
    } else if pat[p] == QMARK {
        v < val.len() && !(slash_literal && val[v] == SLASH) && glob_match_from(
            pat,
            p + 1,
            val,
            v + 1,
            slash_literal,
            ignore_case,
        )
    } else if pat[p] == LBRACK {
        let close = class_close(pat, p);
        if close < 0 || close >= pat.len() {
            // no closing bracket: `[` stands for itself
            v < val.len() && fold_if(pat[p], ignore_case) == fold_if(val[v], ignore_case)
                && glob_match_from(pat, p + 1, val, v + 1, slash_literal, ignore_case)
        } else {
            v < val.len() && !(slash_literal && val[v] == SLASH) && (class_member(
                pat,
                class_body(pat, p),
                close,
                val[v],
                ignore_case,
            ) != class_negated(pat, p)) && glob_match_from(
                pat,
                close + 1,
                val,
                v + 1,
                slash_literal,
                ignore_case,
            )
        }
    } else if pat[p] == BSLASH {
        p + 1 < pat.len() && v < val.len() && fold_if(pat[p + 1], ignore_case) == fold_if(
            val[v],
            ignore_case,
        ) && glob_match_from(pat, p + 2, val, v + 1, slash_literal, ignore_case)
    } else {
        v < val.len() && fold_if(pat[p], ignore_case) == fold_if(val[v], ignore_case)
            && glob_match_from(pat, p + 1, val, v + 1, slash_literal, ignore_case)
    }
}

/// Does `pat` match `val` under the given flags?
pub open spec fn glob_match(pat: Seq<u8>, val: Seq<u8>, slash_literal: bool, ignore_case: bool) -> bool {
    glob_match_from(pat, 0, val, 0, slash_literal, ignore_case)
}

/// Exec search for the closing bracket, mirroring [`find_from`].
fn find_close(pat: &[u8], from: usize) -> (r: Option<usize>)
    requires
        from <= pat@.len(),
    ensures
        match r {
            Some(k) => from <= k < pat@.len() && find_from(pat@, RBRACK, from as int) == k as int,
            None => find_from(pat@, RBRACK, from as int) == -1,
        },
    decreases pat@.len() - from,
{
    if from == pat.len() {
        None
    } else if pat[from] == RBRACK {
        Some(from)
    } else {
        find_close(pat, from + 1)
    }
}

/// Exec test whether `b` lies in the range `lo-hi`, per [`in_range`].
fn in_range_exec(lo: u8, hi: u8, b: u8, ignore_case: bool) -> (r: bool)
    ensures
        r == in_range(lo, hi, b, ignore_case),
{
    if lo <= b && b <= hi {
        true
    } else if ignore_case {
        let s: u8 = if UPPER_A <= b && b <= UPPER_Z {
            b + 32
        } else if LOWER_A <= b && b <= LOWER_Z {
            b - 32
        } else {
            b
        };
        lo <= s && s <= hi
    } else {
        false
    }
}

/// Exec bracket-set membership, mirroring [`class_member`].
fn class_member_exec(pat: &[u8], i: usize, end: usize, b: u8, ignore_case: bool) -> (r: bool)
    requires
        i <= end <= pat@.len(),
    ensures
        r == class_member(pat@, i as int, end as int, b, ignore_case),
    decreases end - i,
{
    if i >= end {
        false
    } else if end - i >= 3 && pat[i + 1] == DASH {
        if in_range_exec(pat[i], pat[i + 2], b, ignore_case) {
            true
        } else {
            class_member_exec(pat, i + 3, end, b, ignore_case)
        }
    } else {
        if byte_eq_fold(pat[i], b, ignore_case) {
            true
        } else {
            class_member_exec(pat, i + 1, end, b, ignore_case)
        }
    }
}

/// Exec matcher for the tails `pat[p..]` and `val[v..]`.
fn wildmatch_from(pat: &[u8], p: usize, val: &[u8], v: usize, slash_literal: bool, ignore_case: bool) -> (r: bool)
    requires
        p <= pat@.len(),
        v <= val@.len(),
    ensures
        r == glob_match_from(pat@, p as int, val@, v as int, slash_literal, ignore_case),
    decreases val@.len() - v, pat@.len() - p,
{
    if p == pat.len() {
        return v == val.len();
    }
    let c = pat[p];
    if c == STAR {
        if wildmatch_from(pat, p + 1, val, v, slash_literal, ignore_case) {
            return true;
        }
        if v < val.len() && !(slash_literal && val[v] == SLASH) {
            return wildmatch_from(pat, p, val, v + 1, slash_literal, ignore_case);
        }
        false
    } else if c == QMARK {
        if v < val.len() && !(slash_literal && val[v] == SLASH) {
            wildmatch_from(pat, p + 1, val, v + 1, slash_literal, ignore_case)
        } else {
            false
        }
    } else if c == LBRACK {
        let negated = p + 1 < pat.len() && (pat[p + 1] == BANG || pat[p + 1] == CARET);
        let body: usize = if negated {
            p + 2
        } else {
            p + 1
        };
        let search: usize = if body < pat.len() && pat[body] == RBRACK {
            body + 1
        } else {
            body
        };
        match find_close(pat, search) {
            None => {
                if v < val.len() && byte_eq_fold(c, val[v], ignore_case) {
                    wildmatch_from(pat, p + 1, val, v + 1, slash_literal, ignore_case)
                } else {
                    false
                }
            },
            Some(close) => {
                if v < val.len() && !(slash_literal && val[v] == SLASH) {
                    let member = class_member_exec(pat, body, close, val[v], ignore_case);
                    if member != negated {
                        wildmatch_from(pat, close + 1, val, v + 1, slash_literal, ignore_case)
                    } else {
                        false
                    }
                } else {
                    false
                }
            },
        }
    } else if c == BSLASH {
        if p + 1 < pat.len() && v < val.len() && byte_eq_fold(pat[p + 1], val[v], ignore_case) {
            wildmatch_from(pat, p + 2, val, v + 1, slash_literal, ignore_case)
        } else {
            false
        }
    } else {
        if v < val.len() && byte_eq_fold(c, val[v], ignore_case) {
            wildmatch_from(pat, p + 1, val, v + 1, slash_literal, ignore_case)
        } else {
            false
        }
    }
}

/// The general glob matcher.
///
/// Returns exactly what the reference semantics [`glob_match`] gives, for
/// every pattern and value.
pub fn wildmatch(pattern: &[u8], value: &[u8], slash_literal: bool, ignore_case: bool) -> (r: bool)
    ensures
        r == glob_match(pattern@, value@, slash_literal, ignore_case),
{
    wildmatch_from(pattern, 0, value, 0, slash_literal, ignore_case)
}

/// A wildcard-free pattern tail matches exactly the equally long value tail
/// whose bytes agree with it under the requested folding.
pub proof fn lemma_literal_match(pat: Seq<u8>, p: int, val: Seq<u8>, v: int, sl: bool, ic: bool)
    requires
        0 <= p <= pat.len(),
        0 <= v <= val.len(),
        no_wild(pat, p, pat.len() as int),
    ensures
        glob_match_from(pat, p, val, v, sl, ic) == (pat.len() - p == val.len() - v
            && eq_fold_range(pat, p, val, v, pat.len() - p, ic)),
    decreases pat.len() - p,
{
    let n = pat.len() - p;
    if p == pat.len() {
        assert(eq_fold_range(pat, p, val, v, 0, ic));
    } else {
        assert(!is_wild(pat[p]));
        if v == val.len() {
            // the literal branch needs a value byte, and the lengths differ
            assert(!glob_match_from(pat, p, val, v, sl, ic));
            assert(n != val.len() - v);
        } else {
            lemma_literal_match(pat, p + 1, val, v + 1, sl, ic);
            if fold_if(pat[p], ic) == fold_if(val[v], ic) {
                if eq_fold_range(pat, p + 1, val, v + 1, n - 1, ic) {
                    assert forall|k: int| 0 <= k < n implies #[trigger] fold_if(pat[p + k], ic)
                        == fold_if(val[v + k], ic) by {
                        if k > 0 {
                            assert(fold_if(pat[(p + 1) + (k - 1)], ic) == fold_if(
                                val[(v + 1) + (k - 1)],
                                ic,
                            ));
                        }
                    }
                }
                if eq_fold_range(pat, p, val, v, n, ic) {
                    assert forall|k: int| 0 <= k < n - 1 implies #[trigger] fold_if(
                        pat[(p + 1) + k],
                        ic,
                    ) == fold_if(val[(v + 1) + k], ic) by {
                        assert(fold_if(pat[p + (k + 1)], ic) == fold_if(val[v + (k + 1)], ic));
                    }
                }
            } else {
                assert(!eq_fold_range(pat, p, val, v, n, ic)) by {
                    assert(fold_if(pat[p + 0], ic) != fold_if(val[v + 0], ic));
                }
            }
        }
    }
}

/// A pattern tail `*suffix`, with a wildcard-free suffix, matches a value
/// tail without separators exactly when that tail ends with the suffix.
pub proof fn lemma_star_suffix_match(pat: Seq<u8>, p: int, val: Seq<u8>, v: int, sl: bool, ic: bool)
    requires
        0 <= p < pat.len(),
        pat[p] == STAR,
        no_wild(pat, p + 1, pat.len() as int),
        0 <= v <= val.len(),
        forall|k: int| v <= k < val.len() ==> val[k] != SLASH,
    ensures
        glob_match_from(pat, p, val, v, sl, ic) == (val.len() - v >= pat.len() - p - 1
            && eq_fold_range(pat, p + 1, val, val.len() - (pat.len() - p - 1), pat.len() - p - 1, ic)),
    decreases val.len() - v,
{
    let m = pat.len() - p - 1;
    lemma_literal_match(pat, p + 1, val, v, sl, ic);
    if v < val.len() {
        assert(val[v] != SLASH);
        lemma_star_suffix_match(pat, p, val, v + 1, sl, ic);
    }
}

/// A value that does not carry the wildcard-free prefix `pat[p..p + n]` of a
/// pattern (folded as requested) cannot match that pattern.
pub proof fn lemma_literal_prefix_mismatch(
    pat: Seq<u8>,
    p: int,
    val: Seq<u8>,
    v: int,
    n: int,
    sl: bool,
    ic: bool,
)
    requires
        0 <= p,
        0 <= n,
        p + n <= pat.len(),
        0 <= v <= val.len(),
        no_wild(pat, p, p + n),
        !(val.len() - v >= n && eq_fold_range(pat, p, val, v, n, ic)),
    ensures
        !glob_match_from(pat, p, val, v, sl, ic),
    decreases n,
{
    if n == 0 {
        assert(eq_fold_range(pat, p, val, v, 0, ic));
    } else {
        assert(!is_wild(pat[p]));
        if v < val.len() && fold_if(pat[p], ic) == fold_if(val[v], ic) {
            assert(!(val.len() - (v + 1) >= n - 1 && eq_fold_range(pat, p + 1, val, v + 1, n - 1, ic)))
                by {
                if val.len() - (v + 1) >= n - 1 && eq_fold_range(pat, p + 1, val, v + 1, n - 1, ic) {
                    assert forall|k: int| 0 <= k < n implies #[trigger] fold_if(pat[p + k], ic)
                        == fold_if(val[v + k], ic) by {
                        if k > 0 {
                            assert(fold_if(pat[(p + 1) + (k - 1)], ic) == fold_if(
                                val[(v + 1) + (k - 1)],
                                ic,
                            ));
                        }
                    }
                    assert(eq_fold_range(pat, p, val, v, n, ic));
                }
            }
            lemma_literal_prefix_mismatch(pat, p + 1, val, v + 1, n - 1, sl, ic);
        } else {
            if v < val.len() {
                assert(fold_if(pat[p + 0], ic) != fold_if(val[v + 0], ic));
            }
        }
    }
}

/// The value of `s` with every ASCII letter upper-cased.
pub open spec fn seq_upper(s: Seq<u8>) -> Seq<u8> {
    Seq::new(s.len(), |i: int| upper_byte(s[i]))
}

proof fn lemma_class_member_upper(pat: Seq<u8>, i: int, end: int, b: u8)
    ensures
        class_member(pat, i, end, upper_byte(b), true) == class_member(pat, i, end, b, true),
    decreases end - i,
{
    if i < 0 || i >= end || end > pat.len() {
    } else if i + 2 < end && pat[i + 1] == DASH {
        lemma_class_member_upper(pat, i + 3, end, b);
    } else {
        lemma_class_member_upper(pat, i + 1, end, b);
    }
}

/// Case-fold symmetry: under ASCII case folding, upper-casing the value
/// cannot change the outcome of a match.
pub proof fn lemma_case_fold_from(pat: Seq<u8>, p: int, val: Seq<u8>, v: int, sl: bool)
    ensures
        glob_match_from(pat, p, seq_upper(val), v, sl, true) == glob_match_from(
            pat,
            p,
            val,
            v,
            sl,
            true,
        ),
    decreases val.len() - v, pat.len() - p,
{
    let uval = seq_upper(val);
    assert(uval.len() == val.len());
    if p < 0 || v < 0 || p > pat.len() || v > val.len() {
    } else if p == pat.len() {
    } else {
        if v < val.len() {
            assert(uval[v] == upper_byte(val[v]));
        }
        if pat[p] == STAR {
            lemma_case_fold_from(pat, p + 1, val, v, sl);
            if v < val.len() {
                lemma_case_fold_from(pat, p, val, v + 1, sl);
            }
        } else if pat[p] == QMARK {
            if v < val.len() {
                lemma_case_fold_from(pat, p + 1, val, v + 1, sl);
            }
        } else if pat[p] == LBRACK {
            let close = class_close(pat, p);
            if close < 0 || close >= pat.len() {
                if v < val.len() {
                    lemma_case_fold_from(pat, p + 1, val, v + 1, sl);
                }
            } else {
                if v < val.len() {
                    lemma_class_member_upper(pat, class_body(pat, p), close, val[v]);
                    lemma_case_fold_from(pat, close + 1, val, v + 1, sl);
                }
            }
        } else if pat[p] == BSLASH {
            if v < val.len() {
                lemma_case_fold_from(pat, p + 2, val, v + 1, sl);
            }
        } else {
            if v < val.len() {
                lemma_case_fold_from(pat, p + 1, val, v + 1, sl);
            }
        }
    }
}

/// Case-fold symmetry for whole values: matching with `ignore_case` set is
/// insensitive to upper-casing the candidate value beforehand.
pub proof fn lemma_case_fold_symmetry(pat: Seq<u8>, val: Seq<u8>, slash_literal: bool)
    ensures
        glob_match(pat, seq_upper(val), slash_literal, true) == glob_match(
            pat,
            val,
            slash_literal,
            true,
        ),
{
    lemma_case_fold_from(pat, 0, val, 0, slash_literal);
}

} // verus!
