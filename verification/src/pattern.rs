//! Pattern flags and the matching entry points.
#![allow(unused_imports)]
use crate::ascii::{
    contains_byte_from, has_byte_from, is_prefix, range_eq_fold, starts_with, SLASH, STAR,
};
use crate::wildmatch::{
    glob_match, is_wild, lemma_literal_match, lemma_literal_prefix_mismatch,
    lemma_star_suffix_match, no_wild, wildmatch,
};
use vstd::prelude::*;
use vstd::slice::slice_subrange;

verus! {

/// Information about a [`crate::Pattern`].
///
/// Its main purpose is to accelerate pattern matching, to negate the match
/// result, or to keep special rules only applicable when matching paths.
/// Each flag is set independently by the compiler in [`crate::parse`].
#[derive(Clone, Copy, Debug, PartialEq, Eq, Structural)]
pub struct Mode {
    /// The pattern does not contain a sub-directory: after removing a trailing
    /// slash and skipping a leading one, no slash remains. Such a pattern is
    /// compared against the basename of a path, at any depth.
    pub no_sub_dir: bool,
    /// The pattern is `*literal`: a single leading wildcard followed by
    /// wildcard-free text, enabling a suffix-comparison shortcut.
    pub ends_with: bool,
    /// The pattern must match a directory, and not a file.
    pub must_be_dir: bool,
    /// The pattern matches, but should be negated. This flag has to be
    /// checked and applied by the caller; matching itself never negates.
    pub negative: bool,
    /// The pattern starts with a slash and thus matches only from the
    /// beginning of its scope.
    pub absolute: bool,
}

/// Describes whether to match a path case sensitively or not.
///
/// Used in [`crate::Pattern::matches_repo_relative_path`].
#[derive(Debug, PartialOrd, PartialEq, Copy, Clone, Hash, Ord, Eq, Structural)]
pub enum Case {
    /// The case affects the match.
    Sensitive,
    /// Ignore the case of ASCII characters.
    Fold,
}

/// `pos` is the position of the first wildcard byte of `text`, or `None` if
/// `text` is a pure literal.
pub open spec fn valid_wildcard_pos(text: Seq<u8>, pos: Option<usize>) -> bool {
    match pos {
        Some(k) => k < text.len() && no_wild(text, 0, k as int) && is_wild(text[k as int]),
        None => no_wild(text, 0, text.len() as int),
    }
}

/// `pos` is the index one past the last slash of `path`, or `None` if `path`
/// carries no slash.
pub open spec fn valid_basename_pos(path: Seq<u8>, pos: Option<usize>) -> bool {
    match pos {
        Some(s) => 1 <= s <= path.len() && path[s as int - 1] == SLASH && !has_byte_from(
            path,
            SLASH,
            s as int,
        ),
        None => !has_byte_from(path, SLASH, 0),
    }
}

/// Index one past the last slash of `path`; `0` if `path` has none.
pub open spec fn basename_start(path: Seq<u8>) -> int
    decreases path.len(),
{
    if path.len() == 0 {
        0
    } else if path[path.len() - 1] == SLASH {
        path.len() as int
    } else {
        basename_start(path.drop_last())
    }
}

pub proof fn lemma_basename_start(path: Seq<u8>)
    ensures
        0 <= basename_start(path) <= path.len(),
        basename_start(path) > 0 ==> path[basename_start(path) - 1] == SLASH,
        !has_byte_from(path, SLASH, basename_start(path)),
    decreases path.len(),
{
    let bs = basename_start(path);
    if path.len() == 0 {
    } else if path[path.len() - 1] == SLASH {
    } else {
        lemma_basename_start(path.drop_last());
        if bs > 0 {
            assert(path.drop_last()[bs - 1] == path[bs - 1]);
        }
        assert forall|k: int| bs <= k < path.len() implies path[k] != SLASH by {
            if k < path.len() - 1 {
                assert(path.drop_last()[k] == path[k]);
                if path[k] == SLASH {
                    assert(has_byte_from(path.drop_last(), SLASH, bs));
                }
            }
        }
        assert(!has_byte_from(path, SLASH, bs));
    }
}

/// A cached basename position that satisfies [`valid_basename_pos`] is the
/// one [`basename_start`] denotes.
pub proof fn lemma_basename_pos_start(path: Seq<u8>, pos: Option<usize>)
    requires
        valid_basename_pos(path, pos),
    ensures
        basename_start(path) == (match pos {
            Some(s) => s as int,
            None => 0int,
        }),
{
    lemma_basename_start(path);
    let bs = basename_start(path);
    match pos {
        Some(s) => {
            if (s as int) < bs {
                assert(s as int <= bs - 1 < path.len() && path[bs - 1] == SLASH);
                assert(has_byte_from(path, SLASH, s as int));
            } else if (s as int) > bs {
                assert(bs <= s as int - 1 < path.len() && path[s as int - 1] == SLASH);
                assert(has_byte_from(path, SLASH, bs));
            }
        },
        None => {
            if bs > 0 {
                assert(0 <= bs - 1 < path.len() && path[bs - 1] == SLASH);
                assert(has_byte_from(path, SLASH, 0));
            }
        },
    }
}

/// The meaning of matching a repository-relative path: the directory gate,
/// the scope check, anchoring, and single-segment basename extraction, with
/// all remaining work handed to the general matcher [`glob_match`].
pub open spec fn spec_repo_match(
    p: crate::Pattern,
    path: Seq<u8>,
    base: Option<Seq<u8>>,
    is_dir: bool,
    ignore_case: bool,
) -> bool {
    if p.mode.must_be_dir && !is_dir {
        false
    } else if (match base {
        Some(b) => !is_prefix(b, path),
        None => false,
    }) {
        false
    } else {
        let text = if p.mode.absolute {
            p.text@.skip(1)
        } else {
            p.text@
        };
        let value = if p.mode.no_sub_dir {
            if p.mode.absolute {
                match base {
                    Some(b) => path.skip(b.len() as int),
                    None => path,
                }
            } else {
                path.skip(basename_start(path))
            }
        } else {
            match base {
                Some(b) => path.skip(b.len() as int),
                None => path,
            }
        };
        glob_match(text, value, true, ignore_case)
    }
}

impl crate::Pattern {
    /// What [`crate::Pattern::from_bytes`] establishes and every matching
    /// operation relies on: the text is non-empty, `first_wildcard_pos` is
    /// truthful, and the shape flags say what they promise.
    pub open spec fn wf(&self) -> bool {
        &&& self.text@.len() > 0
        &&& valid_wildcard_pos(self.text@, self.first_wildcard_pos)
        &&& (self.mode.ends_with ==> self.text@[0] == STAR && no_wild(
            self.text@,
            1,
            self.text@.len() as int,
        ))
        &&& (self.mode.absolute ==> self.text@[0] == SLASH)
    }

    /// Parse the given `text` as pattern, or return `None` if no pattern
    /// text remains.
    pub fn from_bytes(text: &[u8]) -> (r: Option<Self>)
        ensures
            match r {
                Some(p) => crate::parse::spec_parseable(text@) && p.wf() && p.text@
                    == crate::parse::spec_text(text@) && p.mode == crate::parse::spec_mode(text@),
                None => !crate::parse::spec_parseable(text@),
            },
    {
        match crate::parse::pattern(text) {
            Some((t, mode, first_wildcard_pos)) => Some(
                crate::Pattern { text: t, mode, first_wildcard_pos },
            ),
            None => None,
        }
    }

    /// Return true if a match is negated.
    pub fn is_negative(&self) -> (r: bool)
        ensures
            r == self.mode.negative,
    {
        self.mode.negative
    }

    /// The match dispatcher: decide by pattern shape between literal
    /// equality, the `*literal` suffix shortcut, and a literal-prefix
    /// pre-filter followed by the general matcher. Whatever the shortcut,
    /// the result is exactly the general matcher's on `(text, value)`.
    fn matches_inner(
        &self,
        text: &[u8],
        first_wildcard_pos: Option<usize>,
        value: &[u8],
        slash_literal: bool,
        ignore_case: bool,
    ) -> (r: bool)
        requires
            valid_wildcard_pos(text@, first_wildcard_pos),
            (self.mode.ends_with && first_wildcard_pos is Some) ==> text@.len() > 0 && text@[0]
                == STAR && no_wild(text@, 1, text@.len() as int),
        ensures
            r == glob_match(text@, value@, slash_literal, ignore_case),
    {
        match first_wildcard_pos {
            Some(pos) => {
                if self.mode.ends_with && !contains_byte_from(value, SLASH, 0) {
                    // `*literal`: compare the value's tail against the suffix
                    proof {
                        lemma_star_suffix_match(text@, 0, value@, 0, slash_literal, ignore_case);
                    }
                    let suffix_len = text.len() - 1;
                    if value.len() < suffix_len {
                        false
                    } else {
                        let start = value.len() - suffix_len;
                        range_eq_fold(text, 1, value, start, suffix_len, ignore_case)
                    }
                } else {
                    // any literal prefix must match as-is; beyond it only the
                    // general matcher decides
                    if value.len() < pos {
                        proof {
                            lemma_literal_prefix_mismatch(
                                text@,
                                0,
                                value@,
                                0,
                                pos as int,
                                slash_literal,
                                ignore_case,
                            );
                        }
                        false
                    } else if !range_eq_fold(text, 0, value, 0, pos, ignore_case) {
                        proof {
                            lemma_literal_prefix_mismatch(
                                text@,
                                0,
                                value@,
                                0,
                                pos as int,
                                slash_literal,
                                ignore_case,
                            );
                        }
                        false
                    } else {
                        wildmatch(text, value, slash_literal, ignore_case)
                    }
                }
            },
            None => {
                // pure literal: byte (in)equality decides
                proof {
                    lemma_literal_match(text@, 0, value@, 0, slash_literal, ignore_case);
                }
                if value.len() != text.len() {
                    false
                } else {
                    range_eq_fold(text, 0, value, 0, text.len(), ignore_case)
                }
            },
        }
    }

    /// See if `value` matches this pattern. `slash_literal` keeps a wildcard
    /// from consuming a path separator; `ignore_case` folds ASCII case.
    ///
    /// Uses shortcuts to accelerate simple patterns; the result is always
    /// exactly what the general matcher returns on the pattern text.
    pub fn matches(&self, value: &[u8], slash_literal: bool, ignore_case: bool) -> (r: bool)
        requires
            self.wf(),
        ensures
            r == glob_match(self.text@, value@, slash_literal, ignore_case),
    {
        self.matches_inner(
            self.text.as_slice(),
            self.first_wildcard_pos,
            value,
            slash_literal,
            ignore_case,
        )
    }

    /// Match the given `path`, which takes slashes (and only slashes)
    /// literally and is relative to the repository root. `base_path`, if
    /// present, scopes the pattern: it must end with a slash, and a path
    /// outside it never matches. `basename_start_pos` is the cached index at
    /// which the path's basename starts. Case folding is set by `case`.
    ///
    /// Uses shortcuts to accelerate simple patterns; the outcome is exactly
    /// the resolution semantics [`spec_repo_match`].
    pub fn matches_repo_relative_path(
        &self,
        path: &[u8],
        basename_start_pos: Option<usize>,
        base_path: Option<&[u8]>,
        is_dir: bool,
        case: Case,
    ) -> (r: bool)
        requires
            self.wf(),
            valid_basename_pos(path@, basename_start_pos),
            (match base_path {
                Some(b) => b@.len() > 0 && b@[b@.len() - 1] == SLASH,
                None => true,
            }),
            path@.len() > 0 ==> path@[0] != SLASH,
        ensures
            r == spec_repo_match(
                *self,
                path@,
                match base_path {
                    Some(b) => Some(b@),
                    None => None,
                },
                is_dir,
                case == Case::Fold,
            ),
    {
        if self.mode.must_be_dir && !is_dir {
            return false;
        }
        let ignore_case = match case {
            Case::Fold => true,
            Case::Sensitive => false,
        };
        match base_path {
            Some(b) => {
                if !starts_with(path, b) {
                    // outside this pattern's scope
                    return false;
                }
            },
            None => {},
        }
        let text_len = self.text.len();
        let (text, fw): (&[u8], Option<usize>) = if self.mode.absolute {
            proof {
                match self.first_wildcard_pos {
                    Some(k) => {
                        if k == 0 {
                            // the leading anchor slash is no wildcard
                            assert(is_wild(self.text@[0]));
                        }
                    },
                    None => {},
                }
            }
            let t = slice_subrange(self.text.as_slice(), 1, text_len);
            let f: Option<usize> = match self.first_wildcard_pos {
                Some(k) => Some(k - 1),
                None => None,
            };
            (t, f)
        } else {
            (self.text.as_slice(), self.first_wildcard_pos)
        };
        proof {
            if self.mode.absolute {
                assert(text@ =~= self.text@.skip(1));
                match fw {
                    Some(j) => {
                        assert forall|m: int| 0 <= m < j implies !is_wild(text@[m]) by {
                            assert(!is_wild(self.text@[m + 1]));
                        }
                    },
                    None => {
                        assert forall|m: int| 0 <= m < text@.len() implies !is_wild(text@[m]) by {
                            assert(!is_wild(self.text@[m + 1]));
                        }
                    },
                }
                if self.mode.ends_with {
                    // an anchored text starts with a slash, never with a star
                    assert(self.text@[0] == STAR);
                }
            }
        }
        if self.mode.no_sub_dir {
            let value: &[u8] = if self.mode.absolute {
                match base_path {
                    Some(b) => slice_subrange(path, b.len(), path.len()),
                    None => path,
                }
            } else {
                proof {
                    lemma_basename_pos_start(path@, basename_start_pos);
                }
                let s: usize = match basename_start_pos {
                    Some(s) => s,
                    None => 0,
                };
                slice_subrange(path, s, path.len())
            };
            proof {
                match base_path {
                    Some(b) => {
                        if self.mode.absolute {
                            assert(value@ =~= path@.skip(b@.len() as int));
                        } else {
                            assert(value@ =~= path@.skip(basename_start(path@)));
                        }
                    },
                    None => {
                        if !self.mode.absolute {
                            assert(value@ =~= path@.skip(basename_start(path@)));
                        }
                    },
                }
            }
            self.matches_inner(text, fw, value, true, ignore_case)
        } else {
            let value: &[u8] = match base_path {
                Some(b) => slice_subrange(path, b.len(), path.len()),
                None => path,
            };
            proof {
                match base_path {
                    Some(b) => {
                        assert(value@ =~= path@.skip(b@.len() as int));
                    },
                    None => {},
                }
            }
            self.matches_inner(text, fw, value, true, ignore_case)
        }
    }

    /// Compute the index one past the last slash of `path`, if any.
    fn basename_pos_of(path: &[u8]) -> (r: Option<usize>)
        ensures
            valid_basename_pos(path@, r),
    {
        let mut k = path.len();
        while k > 0
            invariant
                k <= path@.len(),
                !has_byte_from(path@, SLASH, k as int),
            decreases k,
        {
            if path[k - 1] == SLASH {
                return Some(k);
            }
            k -= 1;
        }
        None
    }

    /// Like [`crate::Pattern::matches_repo_relative_path`], but validates the
    /// path-context invariants instead of assuming them: `None` reports an
    /// invalid input, `Some` carries the match outcome.
    pub fn matches_repo_relative_path_checked(
        &self,
        path: &[u8],
        basename_start_pos: Option<usize>,
        base_path: Option<&[u8]>,
        is_dir: bool,
        case: Case,
    ) -> (r: Option<bool>)
        requires
            self.wf(),
        ensures
            match r {
                Some(m) => valid_basename_pos(path@, basename_start_pos) && (match base_path {
                    Some(b) => b@.len() > 0 && b@[b@.len() - 1] == SLASH,
                    None => true,
                }) && (path@.len() > 0 ==> path@[0] != SLASH) && m == spec_repo_match(
                    *self,
                    path@,
                    match base_path {
                        Some(b) => Some(b@),
                        None => None,
                    },
                    is_dir,
                    case == Case::Fold,
                ),
                None => !(valid_basename_pos(path@, basename_start_pos) && (match base_path {
                    Some(b) => b@.len() > 0 && b@[b@.len() - 1] == SLASH,
                    None => true,
                }) && (path@.len() > 0 ==> path@[0] != SLASH)),
            },
    {
        let computed = Self::basename_pos_of(path);
        proof {
            lemma_basename_pos_start(path@, computed);
            if valid_basename_pos(path@, basename_start_pos) {
                lemma_basename_pos_start(path@, basename_start_pos);
            }
        }
        let pos_ok = match (basename_start_pos, computed) {
            (Some(a), Some(b)) => a == b,
            (None, None) => true,
            _ => false,
        };
        let base_ok = match base_path {
            Some(b) => b.len() > 0 && b[b.len() - 1] == SLASH,
            None => true,
        };
        let rel_ok = path.len() == 0 || path[0] != SLASH;
        if pos_ok && base_ok && rel_ok {
            Some(self.matches_repo_relative_path(path, basename_start_pos, base_path, is_dir, case))
        } else {
            None
        }
    }
}

/// Directory gate: a pattern restricted to directories never matches when
/// the candidate is not a directory.
pub proof fn lemma_directory_gate(
    p: crate::Pattern,
    path: Seq<u8>,
    base: Option<Seq<u8>>,
    ignore_case: bool,
)
    requires
        p.mode.must_be_dir,
    ensures
        !spec_repo_match(p, path, base, false, ignore_case),
{
}

/// Depth independence: a relative single-segment pattern sees only the
/// basename of the candidate path, so two paths with the same basename
/// match alike, at any directory depth.
pub proof fn lemma_depth_independence(
    p: crate::Pattern,
    path1: Seq<u8>,
    path2: Seq<u8>,
    is_dir: bool,
    ignore_case: bool,
)
    requires
        p.mode.no_sub_dir,
        !p.mode.absolute,
        path1.skip(basename_start(path1)) == path2.skip(basename_start(path2)),
    ensures
        spec_repo_match(p, path1, None, is_dir, ignore_case) == spec_repo_match(
            p,
            path2,
            None,
            is_dir,
            ignore_case,
        ),
{
}

/// Scoping: a candidate path that does not lie under the pattern's base
/// path never matches, whatever the pattern.
pub proof fn lemma_out_of_scope(
    p: crate::Pattern,
    path: Seq<u8>,
    base: Seq<u8>,
    is_dir: bool,
    ignore_case: bool,
)
    requires
        !is_prefix(base, path),
    ensures
        !spec_repo_match(p, path, Some(base), is_dir, ignore_case),
{
}

} // verus!
