//! The pattern compiler: turns a raw pattern line into normalized text, mode
//! flags, and the position of the first wildcard.
//!
//! Grammar handled here: a leading `!` marks negation and is stripped; a
//! trailing `/` restricts the pattern to directories and is stripped; a
//! leading `/` (kept in the text) anchors the pattern to its scope. What
//! remains must be non-empty, or there is no pattern.
#![allow(unused_imports)]
use crate::ascii::{contains_byte_from, has_byte_from, BANG, BSLASH, LBRACK, QMARK, SLASH, STAR};
use crate::pattern::{valid_wildcard_pos, Mode};
use crate::wildmatch::{is_wild, no_wild};
use vstd::prelude::*;
use vstd::slice::{slice_subrange, slice_to_vec};

verus! {

/// The raw line asks for negation: it starts with `!`.
pub open spec fn spec_negative(input: Seq<u8>) -> bool {
    input.len() > 0 && input[0] == BANG
}

/// The raw line with any negation marker removed.
pub open spec fn after_neg(input: Seq<u8>) -> Seq<u8> {
    if spec_negative(input) {
        input.skip(1)
    } else {
        input
    }
}

/// The raw line asks for directories only: a trailing `/` after negation.
pub open spec fn spec_must_be_dir(input: Seq<u8>) -> bool {
    after_neg(input).len() > 0 && after_neg(input)[after_neg(input).len() - 1] == SLASH
}

/// The normalized pattern text: negation marker and trailing slash removed.
pub open spec fn spec_text(input: Seq<u8>) -> Seq<u8> {
    if spec_must_be_dir(input) {
        after_neg(input).take(after_neg(input).len() - 1)
    } else {
        after_neg(input)
    }
}

/// A line compiles to a pattern exactly when some text remains.
pub open spec fn spec_parseable(input: Seq<u8>) -> bool {
    spec_text(input).len() > 0
}

/// The pattern is anchored: its text keeps a leading slash.
pub open spec fn spec_absolute(input: Seq<u8>) -> bool {
    spec_text(input).len() > 0 && spec_text(input)[0] == SLASH
}

/// No slash remains in the text once a leading anchor slash is skipped.
pub open spec fn spec_no_sub_dir(input: Seq<u8>) -> bool {
    !has_byte_from(
        spec_text(input),
        SLASH,
        if spec_absolute(input) {
            1int
        } else {
            0int
        },
    )
}

/// The text is a single leading `*` followed by wildcard-free literal bytes.
pub open spec fn spec_ends_with(input: Seq<u8>) -> bool {
    spec_text(input).len() > 0 && spec_text(input)[0] == STAR && no_wild(
        spec_text(input),
        1,
        spec_text(input).len() as int,
    )
}

/// The mode a raw line compiles to.
pub open spec fn spec_mode(input: Seq<u8>) -> Mode {
    Mode {
        no_sub_dir: spec_no_sub_dir(input),
        ends_with: spec_ends_with(input),
        must_be_dir: spec_must_be_dir(input),
        negative: spec_negative(input),
        absolute: spec_absolute(input),
    }
}

/// First wildcard byte in `t` at an index `>= from`, if any.
fn first_wild_from_exec(t: &[u8], from: usize) -> (r: Option<usize>)
    requires
        from <= t@.len(),
    ensures
        match r {
            Some(k) => from <= k < t@.len() && no_wild(t@, from as int, k as int) && is_wild(
                t@[k as int],
            ),
            None => no_wild(t@, from as int, t@.len() as int),
        },
{
    let mut k = from;
    while k < t.len()
        invariant
            from <= k <= t@.len(),
            no_wild(t@, from as int, k as int),
        decreases t@.len() - k,
    {
        let b = t[k];
        if b == STAR || b == QMARK || b == LBRACK || b == BSLASH {
            return Some(k);
        }
        k += 1;
    }
    None
}

/// Parse the given raw `input` line into normalized pattern text, mode flags,
/// and the position of the first wildcard, or return `None` if no pattern
/// text remains.
pub fn pattern(input: &[u8]) -> (r: Option<(Vec<u8>, Mode, Option<usize>)>)
    ensures
        match r {
            Some(parts) => spec_parseable(input@) && parts.0@ == spec_text(input@) && parts.1
                == spec_mode(input@) && valid_wildcard_pos(parts.0@, parts.2),
            None => !spec_parseable(input@),
        },
{
    if input.len() == 0 {
        return None;
    }
    let negative = input[0] == BANG;
    let start: usize = if negative {
        1
    } else {
        0
    };
    let mut end: usize = input.len();
    let must_be_dir = end > start && input[end - 1] == SLASH;
    if must_be_dir {
        end = end - 1;
    }
    if end <= start {
        proof {
            assert(spec_text(input@).len() == 0);
        }
        return None;
    }
    let text = slice_subrange(input, start, end);
    proof {
        assert(text@ =~= spec_text(input@));
    }
    let absolute = text[0] == SLASH;
    let skip: usize = if absolute {
        1
    } else {
        0
    };
    let no_sub_dir = !contains_byte_from(text, SLASH, skip);
    let fw = first_wild_from_exec(text, 0);
    let mut ends_with = false;
    if text[0] == STAR {
        match first_wild_from_exec(text, 1) {
            None => {
                ends_with = true;
            },
            Some(k) => {
                proof {
                    assert(is_wild(text@[k as int]));
                }
            },
        }
    }
    let mode = Mode { no_sub_dir, ends_with, must_be_dir, negative, absolute };
    proof {
        assert(mode == spec_mode(input@));
    }
    Some((slice_to_vec(text), mode, fw))
}

} // verus!
