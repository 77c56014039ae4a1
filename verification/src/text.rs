//! UTF-8 validation for console text.
//!
//! The print instruction only writes its payload to the console when the
//! payload is valid UTF-8; otherwise the payload is discarded.  The checker
//! here is verified against vstd's model of UTF-8 well-formedness.

use vstd::prelude::*;
use vstd::utf8::*;

verus! {

/// Decides whether `bytes` is a valid UTF-8 encoding.
///
/// Checks one encoded scalar per iteration: a leading byte determines the
/// width, the continuation bytes must carry the continuation bit pattern,
/// and the decoded codepoint must be neither an overlong encoding nor a
/// surrogate.
pub fn utf8_ok(bytes: &Vec<u8>) -> (r: bool)
    ensures
        r == valid_utf8(bytes@),
{
    let n = bytes.len();
    let mut i: usize = 0;
    assert(bytes@.skip(0) =~= bytes@);
    while i < n
        invariant
            i <= n,
            n == bytes@.len(),
            valid_utf8(bytes@) == valid_utf8(bytes@.skip(i as int)),
        decreases n - i,
    {
        let ghost rest = bytes@.skip(i as int);
        let b0 = bytes[i];
        assert(rest.len() == n - i);
        assert(rest[0] == bytes@[i as int]);
        if b0 <= 0x7f {
            // one-byte scalar: never overlong, never a surrogate
            assert(valid_first_scalar(rest));
            assert(length_of_first_scalar(rest) == 1);
            assert(pop_first_scalar(rest) =~= bytes@.skip(i + 1));
            i = i + 1;
        } else if 0xc0 <= b0 && b0 <= 0xdf {
            if n - i < 2 {
                assert(!valid_leading_and_continuation_bytes_first_codepoint(rest));
                return false;
            }
            let b1 = bytes[i + 1];
            assert(rest[1] == bytes@[i + 1]);
            if !(0x80 <= b1 && b1 <= 0xbf) {
                assert(!valid_leading_and_continuation_bytes_first_codepoint(rest));
                return false;
            }
            let cp: u32 = (((b0 & 0x1f) as u32) << 6u32) | ((b1 & 0x3f) as u32);
            assert(cp == codepoint_width_2(b0, b1));
            if cp < 0x80 {
                assert(!valid_first_scalar(rest));
                return false;
            }
            assert(cp <= 0x7ff) by (bit_vector)
                requires
                    cp == (((b0 & 0x1f) as u32) << 6u32) | ((b1 & 0x3f) as u32),
            ;
            assert(valid_first_scalar(rest));
            assert(length_of_first_scalar(rest) == 2);
            assert(pop_first_scalar(rest) =~= bytes@.skip(i + 2));
            i = i + 2;
        } else if 0xe0 <= b0 && b0 <= 0xef {
            if n - i < 3 {
                assert(!valid_leading_and_continuation_bytes_first_codepoint(rest));
                return false;
            }
            let b1 = bytes[i + 1];
            let b2 = bytes[i + 2];
            assert(rest[1] == bytes@[i + 1]);
            assert(rest[2] == bytes@[i + 2]);
            if !(0x80 <= b1 && b1 <= 0xbf) || !(0x80 <= b2 && b2 <= 0xbf) {
                assert(!valid_leading_and_continuation_bytes_first_codepoint(rest));
                return false;
            }
            let cp: u32 = (((b0 & 0x0f) as u32) << 12u32) | (((b1 & 0x3f) as u32) << 6u32) | ((b2
                & 0x3f) as u32);
            assert(cp == codepoint_width_3(b0, b1, b2));
            if cp < 0x800 || (0xd800 <= cp && cp <= 0xdfff) {
                assert(!valid_first_scalar(rest));
                return false;
            }
            assert(valid_first_scalar(rest));
            assert(length_of_first_scalar(rest) == 3);
            assert(pop_first_scalar(rest) =~= bytes@.skip(i + 3));
            i = i + 3;
        } else if 0xf0 <= b0 && b0 <= 0xf7 {
            if n - i < 4 {
                assert(!valid_leading_and_continuation_bytes_first_codepoint(rest));
                return false;
            }
            let b1 = bytes[i + 1];
            let b2 = bytes[i + 2];
            let b3 = bytes[i + 3];
            assert(rest[1] == bytes@[i + 1]);
            assert(rest[2] == bytes@[i + 2]);
            assert(rest[3] == bytes@[i + 3]);
            if !(0x80 <= b1 && b1 <= 0xbf) || !(0x80 <= b2 && b2 <= 0xbf) || !(0x80 <= b3 && b3
                <= 0xbf) {
                assert(!valid_leading_and_continuation_bytes_first_codepoint(rest));
                return false;
            }
            let cp: u32 = (((b0 & 0x07) as u32) << 18u32) | (((b1 & 0x3f) as u32) << 12u32) | (((b2
                & 0x3f) as u32) << 6u32) | ((b3 & 0x3f) as u32);
            assert(cp == codepoint_width_4(b0, b1, b2, b3));
            if cp < 0x10000 || cp > 0x10ffff || (0xd800 <= cp && cp <= 0xdfff) {
                assert(!valid_first_scalar(rest));
                return false;
            }
            assert(valid_first_scalar(rest));
            assert(length_of_first_scalar(rest) == 4);
            assert(pop_first_scalar(rest) =~= bytes@.skip(i + 4));
            i = i + 4;
        } else {
            // 0x80..=0xbf: stray continuation byte; 0xf8..=0xff: no such leading byte
            assert(!valid_leading_and_continuation_bytes_first_codepoint(rest));
            return false;
        }
    }
    assert(bytes@.skip(n as int) =~= Seq::<u8>::empty());
    true
}

} // verus!
