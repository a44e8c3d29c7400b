//! The digest validator.
//!
//! A command digest is written as an algorithm keyword and a hex
//! literal. The literal must decode to exactly the algorithm's byte
//! count: an odd length, a non-hex character, or a length mismatch is a
//! parse-time error, never deferred to evaluation.

use crate::ast::{DigestAlg, ErrorKind, Sha2};
use vstd::prelude::*;

verus! {

/// Is `b` the ASCII code of a hex digit?
pub open spec fn is_hex_digit(b: u8) -> bool {
    (48 <= b <= 57) || (97 <= b <= 102) || (65 <= b <= 70)
}

/// The value of one hex digit.
pub open spec fn hex_val(b: u8) -> u8 {
    if 48 <= b <= 57 {
        (b - 48) as u8
    } else if 97 <= b <= 102 {
        (b - 87) as u8
    } else if 65 <= b <= 70 {
        (b - 55) as u8
    } else {
        0
    }
}

/// Is `s` a well-formed hex literal: even length, hex digits only?
pub open spec fn hex_ok(s: Seq<u8>) -> bool {
    s.len() % 2 == 0 && forall|i: int| 0 <= i < s.len() ==> is_hex_digit(s[i])
}

/// The bytes a well-formed hex literal decodes to.
pub open spec fn hex_decoded(s: Seq<u8>) -> Seq<u8> {
    Seq::new((s.len() / 2) as nat, |i: int| (hex_val(s[2 * i]) * 16 + hex_val(s[2 * i + 1])) as u8)
}

/// The value of one hex digit, or `None` for any other byte.
fn hex_digit(b: u8) -> (r: Option<u8>)
    ensures
        r is Some <==> is_hex_digit(b),
        r matches Some(v) ==> v == hex_val(b) && v <= 15,
{
    if 48 <= b && b <= 57 {
        Some(b - 48)
    } else if 97 <= b && b <= 102 {
        Some(b - 87)
    } else if 65 <= b && b <= 70 {
        Some(b - 55)
    } else {
        None
    }
}

/// Decode a hex literal, or report that it is malformed.
pub fn decode_hex(s: &Vec<u8>) -> (r: Option<Vec<u8>>)
    ensures
        r is Some <==> hex_ok(s@),
        r matches Some(v) ==> v@ == hex_decoded(s@),
{
    if s.len() % 2 != 0 {
        return None;
    }
    let mut out: Vec<u8> = Vec::new();
    let mut i: usize = 0;
    while i + 1 < s.len()
        invariant
            i % 2 == 0,
            i <= s.len(),
            s.len() % 2 == 0,
            out@.len() == i / 2,
            forall|k: int| 0 <= k < i ==> is_hex_digit(s@[k]),
            forall|k: int|
                0 <= k < out@.len() ==> out@[k] == (hex_val(s@[2 * k]) * 16 + hex_val(
                    s@[2 * k + 1],
                )) as u8,
        decreases s.len() - i,
    {
        let hi = match hex_digit(s[i]) {
            Some(v) => v,
            None => {
                return None;
            },
        };
        let lo = match hex_digit(s[i + 1]) {
            Some(v) => v,
            None => {
                return None;
            },
        };
        out.push(hi * 16 + lo);
        i += 2;
    }
    proof {
        assert(i == s.len());
        assert(out@ =~= hex_decoded(s@));
    }
    Some(out)
}

/// Construct a digest from its algorithm and hex literal; the decoded
/// length must equal the algorithm's byte count exactly.
pub fn parse_digest(alg: DigestAlg, hex: &Vec<u8>) -> (r: Result<Sha2, ErrorKind>)
    ensures
        r is Ok <==> (hex_ok(hex@) && hex@.len() == 2 * alg.spec_digest_len()),
        r matches Ok(d) ==> d.alg == alg && d.bytes@ == hex_decoded(hex@) && d.wf(),
        r matches Err(k) ==> if hex_ok(hex@) {
            k == ErrorKind::DigestLength
        } else {
            k == ErrorKind::BadHex
        },
{
    match decode_hex(hex) {
        Some(bytes) => {
            if bytes.len() == alg.digest_len() {
                proof {
                    assert(hex@.len() == 2 * alg.spec_digest_len());
                }
                Ok(Sha2 { alg, bytes })
            } else {
                Err(ErrorKind::DigestLength)
            }
        },
        None => Err(ErrorKind::BadHex),
    }
}

/// The ASCII lower-casing of one byte.
pub open spec fn lower(b: u8) -> u8 {
    if 65 <= b <= 90 {
        (b + 32) as u8
    } else {
        b
    }
}

/// The digest algorithm named by a keyword, compared case-insensitively:
/// `sha224`, `sha256`, `sha384` or `sha512`.
pub open spec fn alg_keyword(s: Seq<u8>) -> Option<DigestAlg> {
    if s.len() == 6 && lower(s[0]) == 115 && lower(s[1]) == 104 && lower(s[2]) == 97 {
        if s[3] == 50 && s[4] == 50 && s[5] == 52 {
            Some(DigestAlg::Sha224)
        } else if s[3] == 50 && s[4] == 53 && s[5] == 54 {
            Some(DigestAlg::Sha256)
        } else if s[3] == 51 && s[4] == 56 && s[5] == 52 {
            Some(DigestAlg::Sha384)
        } else if s[3] == 53 && s[4] == 49 && s[5] == 50 {
            Some(DigestAlg::Sha512)
        } else {
            None
        }
    } else {
        None
    }
}

/// Recognize a digest algorithm keyword.
pub fn parse_alg(s: &Vec<u8>) -> (r: Option<DigestAlg>)
    ensures
        r == alg_keyword(s@),
{
    if s.len() != 6 {
        return None;
    }
    let c0 = if 65 <= s[0] && s[0] <= 90 {
        s[0] + 32
    } else {
        s[0]
    };
    let c1 = if 65 <= s[1] && s[1] <= 90 {
        s[1] + 32
    } else {
        s[1]
    };
    let c2 = if 65 <= s[2] && s[2] <= 90 {
        s[2] + 32
    } else {
        s[2]
    };
    if !(c0 == 115 && c1 == 104 && c2 == 97) {
        return None;
    }
    if s[3] == 50 && s[4] == 50 && s[5] == 52 {
        Some(DigestAlg::Sha224)
    } else if s[3] == 50 && s[4] == 53 && s[5] == 54 {
        Some(DigestAlg::Sha256)
    } else if s[3] == 51 && s[4] == 56 && s[5] == 52 {
        Some(DigestAlg::Sha384)
    } else if s[3] == 53 && s[4] == 49 && s[5] == 50 {
        Some(DigestAlg::Sha512)
    } else {
        None
    }
}

} // verus!
