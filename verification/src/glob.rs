//! Wildcard matching for command and argument patterns.
//!
//! A pattern is a byte string in which `*` matches any run of bytes
//! (including the empty run); every other byte matches only itself.
//! There are no character classes and no anchors beyond the implicit
//! start and end of the text.

use vstd::prelude::*;

verus! {

/// The star wildcard, `*`.
pub const STAR: u8 = 42;

/// Does pattern `p` match the whole text `t`?
pub open spec fn glob_matches(p: Seq<u8>, t: Seq<u8>) -> bool
    decreases p.len() + t.len(),
{
    if p.len() == 0 {
        t.len() == 0
    } else if p[0] == STAR {
        glob_matches(p.skip(1), t) || (t.len() > 0 && glob_matches(p, t.skip(1)))
    } else {
        t.len() > 0 && p[0] == t[0] && glob_matches(p.skip(1), t.skip(1))
    }
}

/// Matches `pattern` from position `i` against `text` from position `j`.
fn glob_match_at(pattern: &Vec<u8>, text: &Vec<u8>, i: usize, j: usize) -> (r: bool)
    requires
        i <= pattern.len(),
        j <= text.len(),
    ensures
        r == glob_matches(pattern@.skip(i as int), text@.skip(j as int)),
    decreases pattern.len() - i + text.len() - j,
{
    proof {
        assert(pattern@.skip(i as int).len() == pattern@.len() - i);
        assert(text@.skip(j as int).len() == text@.len() - j);
    }
    if i == pattern.len() {
        j == text.len()
    } else if pattern[i] == STAR {
        proof {
            assert(pattern@.skip(i as int)[0] == pattern@[i as int]);
            assert(pattern@.skip(i as int).skip(1) =~= pattern@.skip(i as int + 1));
        }
        if glob_match_at(pattern, text, i + 1, j) {
            true
        } else if j < text.len() {
            proof {
                assert(text@.skip(j as int).skip(1) =~= text@.skip(j as int + 1));
            }
            glob_match_at(pattern, text, i, j + 1)
        } else {
            false
        }
    } else {
        proof {
            assert(pattern@.skip(i as int)[0] == pattern@[i as int]);
            assert(pattern@.skip(i as int).skip(1) =~= pattern@.skip(i as int + 1));
        }
        if j < text.len() && pattern[i] == text[j] {
            proof {
                assert(text@.skip(j as int)[0] == text@[j as int]);
                assert(text@.skip(j as int).skip(1) =~= text@.skip(j as int + 1));
            }
            glob_match_at(pattern, text, i + 1, j + 1)
        } else {
            false
        }
    }
}

/// Does the wildcard `pattern` match the whole of `text`?
pub fn glob_match(pattern: &Vec<u8>, text: &Vec<u8>) -> (r: bool)
    ensures
        r == glob_matches(pattern@, text@),
{
    proof {
        assert(pattern@.skip(0) =~= pattern@);
        assert(text@.skip(0) =~= text@);
    }
    glob_match_at(pattern, text, 0, 0)
}

} // verus!
