//! UTF-8 validity, specified byte by byte and checked by a verified scanner.
//!
//! Manifest paths travel as raw bytes; the decoder rejects any path that is
//! not well-formed UTF-8. The specification below follows the standard
//! encoding table: one-byte sequences up to 0x7F, two-byte leads 0xC2..=0xDF,
//! three-byte leads 0xE0..=0xEF with the restricted second bytes that rule
//! out overlong forms and surrogates, and four-byte leads 0xF0..=0xF4 with
//! the restricted second bytes that rule out overlong forms and code points
//! past 0x10FFFF.

use vstd::prelude::*;

verus! {

/// A continuation byte: high bits `10`.
pub open spec fn is_cont(b: u8) -> bool {
    0x80 <= b && b <= 0xbf
}

/// Well-formedness of the byte suffix starting at index `i`.
pub open spec fn is_utf8_from(s: Seq<u8>, i: int) -> bool
    decreases s.len() - i,
{
    if i >= s.len() {
        true
    } else {
        let b0 = s[i];
        if b0 <= 0x7f {
            is_utf8_from(s, i + 1)
        } else if 0xc2 <= b0 && b0 <= 0xdf {
            &&& i + 1 < s.len()
            &&& is_cont(s[i + 1])
            &&& is_utf8_from(s, i + 2)
        } else if b0 == 0xe0 {
            &&& i + 2 < s.len()
            &&& 0xa0 <= s[i + 1] && s[i + 1] <= 0xbf
            &&& is_cont(s[i + 2])
            &&& is_utf8_from(s, i + 3)
        } else if 0xe1 <= b0 && b0 <= 0xec {
            &&& i + 2 < s.len()
            &&& is_cont(s[i + 1])
            &&& is_cont(s[i + 2])
            &&& is_utf8_from(s, i + 3)
        } else if b0 == 0xed {
            &&& i + 2 < s.len()
            &&& 0x80 <= s[i + 1] && s[i + 1] <= 0x9f
            &&& is_cont(s[i + 2])
            &&& is_utf8_from(s, i + 3)
        } else if 0xee <= b0 && b0 <= 0xef {
            &&& i + 2 < s.len()
            &&& is_cont(s[i + 1])
            &&& is_cont(s[i + 2])
            &&& is_utf8_from(s, i + 3)
        } else if b0 == 0xf0 {
            &&& i + 3 < s.len()
            &&& 0x90 <= s[i + 1] && s[i + 1] <= 0xbf
            &&& is_cont(s[i + 2])
            &&& is_cont(s[i + 3])
            &&& is_utf8_from(s, i + 4)
        } else if 0xf1 <= b0 && b0 <= 0xf3 {
            &&& i + 3 < s.len()
            &&& is_cont(s[i + 1])
            &&& is_cont(s[i + 2])
            &&& is_cont(s[i + 3])
            &&& is_utf8_from(s, i + 4)
        } else if b0 == 0xf4 {
            &&& i + 3 < s.len()
            &&& 0x80 <= s[i + 1] && s[i + 1] <= 0x8f
            &&& is_cont(s[i + 2])
            &&& is_cont(s[i + 3])
            &&& is_utf8_from(s, i + 4)
        } else {
            false
        }
    }
}

/// The whole byte sequence is well-formed UTF-8.
pub open spec fn is_utf8(s: Seq<u8>) -> bool {
    is_utf8_from(s, 0)
}

/// Checks a continuation byte.
fn cont(b: u8) -> (r: bool)
    ensures
        r == is_cont(b),
{
    0x80 <= b && b <= 0xbf
}

/// Verified UTF-8 scanner: decides `is_utf8` of the input bytes.
pub fn is_valid_utf8(s: &[u8]) -> (r: bool)
    ensures
        r == is_utf8(s@),
{
    let n = s.len();
    let mut i: usize = 0;
    loop
        invariant
            i <= n,
            n == s@.len(),
            is_utf8(s@) <==> is_utf8_from(s@, i as int),
        decreases n - i,
    {
        if i >= n {
            return true;
        }
        let b0 = s[i];
        if b0 <= 0x7f {
            i = i + 1;
        } else if 0xc2 <= b0 && b0 <= 0xdf {
            if !(n - i > 1 && cont(s[i + 1])) {
                return false;
            }
            i = i + 2;
        } else if b0 == 0xe0 {
            if !(n - i > 2 && 0xa0 <= s[i + 1] && s[i + 1] <= 0xbf && cont(s[i + 2])) {
                return false;
            }
            i = i + 3;
        } else if 0xe1 <= b0 && b0 <= 0xec {
            if !(n - i > 2 && cont(s[i + 1]) && cont(s[i + 2])) {
                return false;
            }
            i = i + 3;
        } else if b0 == 0xed {
            if !(n - i > 2 && 0x80 <= s[i + 1] && s[i + 1] <= 0x9f && cont(s[i + 2])) {
                return false;
            }
            i = i + 3;
        } else if 0xee <= b0 && b0 <= 0xef {
            if !(n - i > 2 && cont(s[i + 1]) && cont(s[i + 2])) {
                return false;
            }
            i = i + 3;
        } else if b0 == 0xf0 {
            if !(n - i > 3 && 0x90 <= s[i + 1] && s[i + 1] <= 0xbf && cont(s[i + 2])
                && cont(s[i + 3])) {
                return false;
            }
            i = i + 4;
        } else if 0xf1 <= b0 && b0 <= 0xf3 {
            if !(n - i > 3 && cont(s[i + 1]) && cont(s[i + 2]) && cont(s[i + 3])) {
                return false;
            }
            i = i + 4;
        } else if b0 == 0xf4 {
            if !(n - i > 3 && 0x80 <= s[i + 1] && s[i + 1] <= 0x8f && cont(s[i + 2])
                && cont(s[i + 3])) {
                return false;
            }
            i = i + 4;
        } else {
            return false;
        }
    }
}

} // verus!
