//! Fixed-width hexadecimal rendering of fingerprints.
//!
//! The cache file stores each 128-bit fingerprint as exactly 32 lowercase
//! hexadecimal digits; rendering and reading are verified inverses.

use vstd::prelude::*;

verus! {

/// The lowercase hexadecimal digit for a value below 16.
pub open spec fn hex_digit(v: u8) -> u8 {
    if v < 10 {
        (0x30 + v) as u8
    } else {
        (0x57 + v) as u8
    }
}

/// Whether `b` is an ASCII hexadecimal digit, either case.
pub open spec fn is_hex_digit(b: u8) -> bool {
    (0x30 <= b && b <= 0x39) || (0x61 <= b && b <= 0x66) || (0x41 <= b && b <= 0x46)
}

/// The value of a hexadecimal digit byte.
pub open spec fn hex_val(b: u8) -> int {
    if 0x30 <= b && b <= 0x39 {
        b - 0x30
    } else if 0x61 <= b && b <= 0x66 {
        b - 0x57
    } else {
        b - 0x37
    }
}

/// The number a big-endian string of hexadecimal digits denotes.
pub open spec fn hex_value(s: Seq<u8>) -> int
    decreases s.len(),
{
    if s.len() == 0 {
        0
    } else {
        hex_value(s.drop_last()) * 16 + hex_val(s.last())
    }
}

/// A string of exactly 32 hexadecimal digits.
pub open spec fn valid_hex128(s: Seq<u8>) -> bool {
    s.len() == 32 && forall|i: int| 0 <= i < 32 ==> is_hex_digit(#[trigger] s[i])
}

/// The last `width` hexadecimal digits of `x`, most significant first,
/// zero padded.
pub open spec fn hex_of(x: int, width: nat) -> Seq<u8>
    decreases width,
{
    if width == 0 {
        seq![]
    } else {
        hex_of(x / 16, (width - 1) as nat) + seq![hex_digit((x % 16) as u8)]
    }
}

/// 16 to the power `n`.
pub open spec fn pow16(n: nat) -> int
    decreases n,
{
    if n == 0 {
        1
    } else {
        16 * pow16((n - 1) as nat)
    }
}

proof fn lemma_pow16_32()
    ensures
        pow16(32) == 0x100000000000000000000000000000000,
{
    reveal_with_fuel(pow16, 33);
}

/// Renders a fingerprint as 32 lowercase hexadecimal digits.
pub fn u128_to_hex(x: u128) -> (r: Vec<u8>)
    ensures
        r@ == hex_of(x as int, 32),
{
    let mut r: Vec<u8> = Vec::new();
    let mut v: u128 = x;
    let mut done: usize = 0;
    while done < 32
        invariant
            0 <= done <= 32,
            r@.len() == done,
            hex_of(x as int, 32) == hex_of(v as int, (32 - done) as nat) + r@,
        decreases 32 - done,
    {
        let d: u8 = (v % 16) as u8;
        let c: u8 = if d < 10 {
            0x30 + d
        } else {
            0x57 + d
        };
        assert(c == hex_digit((v as int % 16) as u8));
        let ghost r_before = r@;
        r.insert(0, c);
        proof {
            assert(hex_of(v as int, (32 - done) as nat) == hex_of(
                v as int / 16,
                (31 - done) as nat,
            ) + seq![hex_digit((v as int % 16) as u8)]);
            assert(r@ =~= seq![c] + r_before);
            assert(hex_of(v as int, (32 - done) as nat) + r_before =~= hex_of(
                v as int / 16,
                (31 - done) as nat,
            ) + r@);
        }
        v = v / 16;
        done = done + 1;
    }
    proof {
        assert(hex_of(v as int, 0) =~= Seq::<u8>::empty());
        assert(hex_of(x as int, 32) =~= r@);
    }
    r
}

/// Reads exactly 32 hexadecimal digits as a fingerprint; anything else is
/// rejected.
pub fn parse_hex128(s: &[u8]) -> (r: Option<u128>)
    ensures
        match r {
            Some(v) => valid_hex128(s@) && v == hex_value(s@),
            None => !valid_hex128(s@),
        },
{
    if s.len() != 32 {
        return None;
    }
    let mut acc: u128 = 0;
    let mut i: usize = 0;
    proof {
        assert(s@.take(0) =~= Seq::<u8>::empty());
    }
    while i < 32
        invariant
            0 <= i <= 32,
            s@.len() == 32,
            acc == hex_value(s@.take(i as int)),
            acc < pow16(i as nat),
            forall|j: int| 0 <= j < i ==> is_hex_digit(#[trigger] s@[j]),
        decreases 32 - i,
    {
        let b = s[i];
        let d: u8 = if 0x30 <= b && b <= 0x39 {
            b - 0x30
        } else if 0x61 <= b && b <= 0x66 {
            b - 0x57
        } else if 0x41 <= b && b <= 0x46 {
            b - 0x37
        } else {
            return None;
        };
        proof {
            assert(is_hex_digit(b) && d == hex_val(b));
            lemma_pow16_32();
            assert(pow16(i as nat) * 16 == pow16((i + 1) as nat));
            assert(pow16((i + 1) as nat) <= pow16(32)) by {
                lemma_pow16_monotonic((i + 1) as nat, 32);
            }
            assert(acc * 16 + d < pow16((i + 1) as nat)) by (nonlinear_arith)
                requires
                    acc < pow16(i as nat),
                    d < 16,
                    pow16(i as nat) * 16 == pow16((i + 1) as nat),
            ;
        }
        acc = acc * 16 + (d as u128);
        proof {
            assert(s@.take(i + 1).drop_last() =~= s@.take(i as int));
            assert(s@.take(i + 1).last() == s@[i as int]);
        }
        i = i + 1;
    }
    proof {
        assert(s@.take(32) =~= s@);
    }
    Some(acc)
}

proof fn lemma_pow16_monotonic(a: nat, b: nat)
    requires
        a <= b,
    ensures
        pow16(a) <= pow16(b),
        pow16(a) >= 1,
    decreases b,
{
    if b == 0 {
    } else if a == b {
        lemma_pow16_monotonic((a - 1) as nat, (b - 1) as nat);
    } else {
        lemma_pow16_monotonic(a, (b - 1) as nat);
    }
}

/// Law: reading back the 32-digit rendering of any fingerprint returns
/// that fingerprint, and the rendering is well formed.
pub proof fn lemma_hex_round_trip(x: u128)
    ensures
        valid_hex128(hex_of(x as int, 32)),
        hex_value(hex_of(x as int, 32)) == x,
{
    lemma_pow16_32();
    lemma_hex_round_trip_rec(x as int, 32);
}

proof fn lemma_hex_round_trip_rec(x: int, width: nat)
    requires
        0 <= x < pow16(width),
    ensures
        hex_of(x, width).len() == width,
        forall|i: int| 0 <= i < width ==> is_hex_digit(#[trigger] hex_of(x, width)[i]),
        hex_value(hex_of(x, width)) == x,
    decreases width,
{
    if width == 0 {
    } else {
        let q = x / 16;
        let m = x % 16;
        assert(0 <= m < 16);
        assert(0 <= q < pow16((width - 1) as nat)) by (nonlinear_arith)
            requires
                0 <= x < pow16(width),
                q == x / 16,
                pow16(width) == 16 * pow16((width - 1) as nat),
        ;
        lemma_hex_round_trip_rec(q, (width - 1) as nat);
        let digits = hex_of(x, width);
        assert(digits == hex_of(q, (width - 1) as nat) + seq![hex_digit(m as u8)]);
        assert(digits.drop_last() =~= hex_of(q, (width - 1) as nat));
        assert(digits.last() == hex_digit(m as u8));
        assert(is_hex_digit(hex_digit(m as u8)) && hex_val(hex_digit(m as u8)) == m);
        assert(hex_value(digits) == q * 16 + m);
        assert(q * 16 + m == x) by (nonlinear_arith)
            requires
                0 <= x,
                q == x / 16,
                m == x % 16,
        ;
        assert forall|i: int| 0 <= i < width implies is_hex_digit(#[trigger] digits[i]) by {
            if i < width - 1 {
                assert(digits[i] == hex_of(q, (width - 1) as nat)[i]);
            } else {
                assert(digits[i] == hex_digit(m as u8));
            }
        }
    }
}

} // verus!
