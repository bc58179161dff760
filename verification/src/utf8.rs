//! A UTF-8 validity checker, proved against the byte-level UTF-8 predicate
//! that vstd defines.
//!
//! Text payloads and close reasons arrive from the wire as raw bytes; the
//! message layer admits them only when this check passes.

use vstd::prelude::*;
use vstd::utf8::*;

verus! {

/// One accepted scalar of width `w` at the front of `s`: validity of the
/// whole suffix reduces to validity past it.
proof fn lemma_pop_step(s: Seq<u8>, w: int)
    requires
        valid_first_scalar(s),
        length_of_first_scalar(s) == w,
        w <= s.len(),
    ensures
        valid_utf8(s) == valid_utf8(s.skip(w)),
{
    assert(pop_first_scalar(s) =~= s.skip(w));
}

/// A one-byte scalar: any byte below 0x80.
proof fn lemma_accept1(s: Seq<u8>, b0: u8)
    requires
        s.len() >= 1,
        s[0] == b0,
        b0 < 0x80,
    ensures
        valid_utf8(s) == valid_utf8(s.skip(1)),
{
    assert((b0 & 0x7F) as u32 <= 0x7F) by (bit_vector)
        requires
            b0 < 0x80,
    ;
    assert(valid_first_scalar(s));
    assert(length_of_first_scalar(s) == 1);
    lemma_pop_step(s, 1);
}

/// A two-byte scalar: leading byte 0xC2..=0xDF, one continuation byte.
proof fn lemma_accept2(s: Seq<u8>, b0: u8, b1: u8)
    requires
        s.len() >= 2,
        s[0] == b0,
        s[1] == b1,
        0xC2 <= b0 <= 0xDF,
        0x80 <= b1 <= 0xBF,
    ensures
        valid_utf8(s) == valid_utf8(s.skip(2)),
{
    assert(!is_leading_byte_width_1(b0));
    assert(0x80 <= codepoint_width_2(b0, b1) <= 0x7FF) by (bit_vector)
        requires
            0xC2 <= b0 <= 0xDF && 0x80 <= b1 <= 0xBF,
    ;
    assert(valid_first_scalar(s));
    assert(length_of_first_scalar(s) == 2);
    lemma_pop_step(s, 2);
}

/// A three-byte scalar: leading byte 0xE0..=0xEF with the first
/// continuation byte constrained so that the codepoint is neither an
/// overlong encoding nor a surrogate.
proof fn lemma_accept3(s: Seq<u8>, b0: u8, b1: u8, b2: u8)
    requires
        s.len() >= 3,
        s[0] == b0,
        s[1] == b1,
        s[2] == b2,
        0xE0 <= b0 <= 0xEF,
        0x80 <= b1 <= 0xBF,
        0x80 <= b2 <= 0xBF,
        b0 == 0xE0 ==> b1 >= 0xA0,
        b0 == 0xED ==> b1 <= 0x9F,
    ensures
        valid_utf8(s) == valid_utf8(s.skip(3)),
{
    assert(!is_leading_byte_width_1(b0) && !is_leading_byte_width_2(b0));
    assert(0x800 <= codepoint_width_3(b0, b1, b2) && !(0xD800 <= codepoint_width_3(b0, b1, b2)
        <= 0xDFFF) && codepoint_width_3(b0, b1, b2) <= 0xFFFF) by (bit_vector)
        requires
            0xE0 <= b0 <= 0xEF && 0x80 <= b1 <= 0xBF && 0x80 <= b2 <= 0xBF && (b0 == 0xE0 ==> b1
                >= 0xA0) && (b0 == 0xED ==> b1 <= 0x9F),
    ;
    assert(valid_first_scalar(s));
    assert(length_of_first_scalar(s) == 3);
    lemma_pop_step(s, 3);
}

/// A four-byte scalar: leading byte 0xF0..=0xF4 with the first
/// continuation byte constrained so that the codepoint lies in
/// 0x10000..=0x10FFFF.
proof fn lemma_accept4(s: Seq<u8>, b0: u8, b1: u8, b2: u8, b3: u8)
    requires
        s.len() >= 4,
        s[0] == b0,
        s[1] == b1,
        s[2] == b2,
        s[3] == b3,
        0xF0 <= b0 <= 0xF4,
        0x80 <= b1 <= 0xBF,
        0x80 <= b2 <= 0xBF,
        0x80 <= b3 <= 0xBF,
        b0 == 0xF0 ==> b1 >= 0x90,
        b0 == 0xF4 ==> b1 <= 0x8F,
    ensures
        valid_utf8(s) == valid_utf8(s.skip(4)),
{
    assert(!is_leading_byte_width_1(b0) && !is_leading_byte_width_2(b0) && !is_leading_byte_width_3(
        b0,
    ));
    assert(0x10000 <= codepoint_width_4(b0, b1, b2, b3) <= 0x10FFFF) by (bit_vector)
        requires
            0xF0 <= b0 <= 0xF4 && 0x80 <= b1 <= 0xBF && 0x80 <= b2 <= 0xBF && 0x80 <= b3 <= 0xBF
                && (b0 == 0xF0 ==> b1 >= 0x90) && (b0 == 0xF4 ==> b1 <= 0x8F),
    ;
    assert(valid_first_scalar(s));
    assert(length_of_first_scalar(s) == 4);
    lemma_pop_step(s, 4);
}

/// A byte that can open no scalar: a bare continuation byte, an overlong
/// two-byte lead (0xC0, 0xC1), or a lead beyond 0xF4.
proof fn lemma_reject_lead(s: Seq<u8>, b0: u8)
    requires
        s.len() >= 1,
        s[0] == b0,
        0x80 <= b0 <= 0xC1 || 0xF5 <= b0,
    ensures
        !valid_utf8(s),
{
    if valid_leading_and_continuation_bytes_first_codepoint(s) {
        if 0xC0 <= b0 <= 0xC1 {
            let b1 = s[1];
            assert(codepoint_width_2(b0, b1) < 0x80) by (bit_vector)
                requires
                    0xC0 <= b0 <= 0xC1,
            ;
            assert(!not_overlong_encoding(
                decode_first_codepoint(s),
                length_of_first_codepoint(s),
            ));
        } else if 0xF5 <= b0 <= 0xF7 {
            let b1 = s[1];
            let b2 = s[2];
            let b3 = s[3];
            assert(codepoint_width_4(b0, b1, b2, b3) > 0x10FFFF) by (bit_vector)
                requires
                    0xF5 <= b0 <= 0xF7 && 0x80 <= b1 <= 0xBF,
            ;
            assert(!not_overlong_encoding(
                decode_first_codepoint(s),
                length_of_first_codepoint(s),
            ));
        }
    }
    assert(!valid_first_scalar(s));
}

/// A three-byte lead whose first continuation byte makes the codepoint
/// overlong (0xE0 followed by less than 0xA0) or a surrogate (0xED
/// followed by 0xA0 or more), or any lead whose continuation byte is
/// missing or malformed.
proof fn lemma_reject3(s: Seq<u8>, b0: u8, b1: u8, b2: u8)
    requires
        s.len() >= 3,
        s[0] == b0,
        s[1] == b1,
        s[2] == b2,
        0xE0 <= b0 <= 0xEF,
        0x80 <= b1 <= 0xBF,
        0x80 <= b2 <= 0xBF,
        (b0 == 0xE0 && b1 < 0xA0) || (b0 == 0xED && b1 > 0x9F),
    ensures
        !valid_utf8(s),
{
    assert(!is_leading_byte_width_1(b0) && !is_leading_byte_width_2(b0));
    assert((b0 == 0xE0 && 0x80 <= b1 < 0xA0 ==> codepoint_width_3(b0, b1, b2) < 0x800) && (b0
        == 0xED && 0x9F < b1 <= 0xBF ==> 0xD800 <= codepoint_width_3(b0, b1, b2) <= 0xDFFF))
        by (bit_vector);
    assert(!valid_first_scalar(s));
}

/// A four-byte lead whose first continuation byte pushes the codepoint
/// outside 0x10000..=0x10FFFF.
proof fn lemma_reject4(s: Seq<u8>, b0: u8, b1: u8, b2: u8, b3: u8)
    requires
        s.len() >= 4,
        s[0] == b0,
        s[1] == b1,
        s[2] == b2,
        s[3] == b3,
        0xF0 <= b0 <= 0xF4,
        0x80 <= b1 <= 0xBF,
        0x80 <= b2 <= 0xBF,
        0x80 <= b3 <= 0xBF,
        (b0 == 0xF0 && b1 < 0x90) || (b0 == 0xF4 && b1 > 0x8F),
    ensures
        !valid_utf8(s),
{
    assert(!is_leading_byte_width_1(b0) && !is_leading_byte_width_2(b0) && !is_leading_byte_width_3(
        b0,
    ));
    assert((b0 == 0xF0 && 0x80 <= b1 < 0x90 ==> codepoint_width_4(b0, b1, b2, b3) < 0x10000) && (b0
        == 0xF4 && 0x8F < b1 <= 0xBF ==> codepoint_width_4(b0, b1, b2, b3) > 0x10FFFF))
        by (bit_vector);
    assert(!valid_first_scalar(s));
}

/// A multi-byte lead whose continuation bytes run past the end of the
/// input or break the continuation bit pattern.
proof fn lemma_reject_cont(s: Seq<u8>, b0: u8)
    requires
        s.len() >= 1,
        s[0] == b0,
        0xC2 <= b0 <= 0xF4,
        0xC2 <= b0 <= 0xDF ==> s.len() < 2 || !(0x80 <= s[1] <= 0xBF),
        0xE0 <= b0 <= 0xEF ==> s.len() < 3 || !(0x80 <= s[1] <= 0xBF) || !(0x80 <= s[2] <= 0xBF),
        0xF0 <= b0 <= 0xF4 ==> s.len() < 4 || !(0x80 <= s[1] <= 0xBF) || !(0x80 <= s[2] <= 0xBF)
            || !(0x80 <= s[3] <= 0xBF),
    ensures
        !valid_utf8(s),
{
    assert(!valid_leading_and_continuation_bytes_first_codepoint(s));
    assert(!valid_first_scalar(s));
}

/// True exactly when the bytes of `v` from position `start` on form valid
/// UTF-8.
pub fn is_utf8_from(v: &Vec<u8>, start: usize) -> (r: bool)
    requires
        start <= v.len(),
    ensures
        r == valid_utf8(v@.skip(start as int)),
{
    let n = v.len();
    let mut i: usize = start;
    while i < n
        invariant
            start <= i <= n,
            n == v@.len(),
            valid_utf8(v@.skip(start as int)) == valid_utf8(v@.skip(i as int)),
        decreases n - i,
    {
        let ghost s = v@.skip(i as int);
        let b0 = v[i];
        assert(s[0] == b0);
        if b0 < 0x80 {
            proof {
                lemma_accept1(s, b0);
                assert(s.skip(1) =~= v@.skip(i + 1));
            }
            i = i + 1;
        } else if b0 < 0xC2 {
            proof {
                lemma_reject_lead(s, b0);
            }
            return false;
        } else if b0 <= 0xDF {
            if n - i < 2 {
                proof {
                    lemma_reject_cont(s, b0);
                }
                return false;
            }
            let b1 = v[i + 1];
            assert(s[1] == b1);
            if !(0x80 <= b1 && b1 <= 0xBF) {
                proof {
                    lemma_reject_cont(s, b0);
                }
                return false;
            }
            proof {
                lemma_accept2(s, b0, b1);
                assert(s.skip(2) =~= v@.skip(i + 2));
            }
            i = i + 2;
        } else if b0 <= 0xEF {
            if n - i < 3 {
                proof {
                    lemma_reject_cont(s, b0);
                }
                return false;
            }
            let b1 = v[i + 1];
            let b2 = v[i + 2];
            assert(s[1] == b1 && s[2] == b2);
            if !(0x80 <= b1 && b1 <= 0xBF) || !(0x80 <= b2 && b2 <= 0xBF) {
                proof {
                    lemma_reject_cont(s, b0);
                }
                return false;
            }
            if b0 == 0xE0 && b1 < 0xA0 {
                proof {
                    lemma_reject3(s, b0, b1, b2);
                }
                return false;
            }
            if b0 == 0xED && b1 > 0x9F {
                proof {
                    lemma_reject3(s, b0, b1, b2);
                }
                return false;
            }
            proof {
                lemma_accept3(s, b0, b1, b2);
                assert(s.skip(3) =~= v@.skip(i + 3));
            }
            i = i + 3;
        } else if b0 <= 0xF4 {
            if n - i < 4 {
                proof {
                    lemma_reject_cont(s, b0);
                }
                return false;
            }
            let b1 = v[i + 1];
            let b2 = v[i + 2];
            let b3 = v[i + 3];
            assert(s[1] == b1 && s[2] == b2 && s[3] == b3);
            if !(0x80 <= b1 && b1 <= 0xBF) || !(0x80 <= b2 && b2 <= 0xBF) || !(0x80 <= b3 && b3
                <= 0xBF) {
                proof {
                    lemma_reject_cont(s, b0);
                }
                return false;
            }
            if b0 == 0xF0 && b1 < 0x90 {
                proof {
                    lemma_reject4(s, b0, b1, b2, b3);
                }
                return false;
            }
            if b0 == 0xF4 && b1 > 0x8F {
                proof {
                    lemma_reject4(s, b0, b1, b2, b3);
                }
                return false;
            }
            proof {
                lemma_accept4(s, b0, b1, b2, b3);
                assert(s.skip(4) =~= v@.skip(i + 4));
            }
            i = i + 4;
        } else {
            proof {
                lemma_reject_lead(s, b0);
            }
            return false;
        }
    }
    proof {
        assert(v@.skip(n as int) =~= Seq::<u8>::empty());
    }
    true
}

} // verus!
