//! Fixed-width lowercase hexadecimal, as used by the journal filename
//! scheme: a machine or file-sequence identifier is written as 32 hex
//! digits, a sequence number or timestamp as 16 hex digits, most
//! significant digit first.  Decoding accepts upper-case digits too.

use vstd::prelude::*;

verus! {

/// The lowercase hex digit byte for a nibble value below 16.
pub open spec fn hex_digit(n: u8) -> u8 {
    if n < 10 {
        (0x30 + n) as u8
    } else {
        (0x57 + n) as u8
    }
}

/// Whether `b` is a hex digit byte, either case.
pub open spec fn is_hex_digit(b: u8) -> bool {
    (0x30 <= b && b <= 0x39) || (0x61 <= b && b <= 0x66) || (0x41 <= b && b <= 0x46)
}

/// The value of a hex digit byte, either case.
pub open spec fn hex_digit_value(b: u8) -> u8
    recommends
        is_hex_digit(b),
{
    if 0x30 <= b && b <= 0x39 {
        (b - 0x30) as u8
    } else if 0x61 <= b && b <= 0x66 {
        (b - 0x57) as u8
    } else {
        (b - 0x37) as u8
    }
}

/// `v` written as exactly `digits` hex digits, most significant first.
/// High bits beyond the width are dropped.
pub open spec fn hex_seq(v: nat, digits: nat) -> Seq<u8>
    decreases digits,
{
    if digits == 0 {
        Seq::empty()
    } else {
        hex_seq(v / 16, (digits - 1) as nat).push(hex_digit((v % 16) as u8))
    }
}

/// The value of a sequence of hex digit bytes, most significant first.
pub open spec fn hex_value(s: Seq<u8>) -> nat
    decreases s.len(),
{
    if s.len() == 0 {
        0
    } else {
        hex_value(s.drop_last()) * 16 + hex_digit_value(s.last()) as nat
    }
}

/// Whether every byte of `s` is a hex digit.
pub open spec fn all_hex_digits(s: Seq<u8>) -> bool {
    forall|i: int| 0 <= i < s.len() ==> is_hex_digit(s[i])
}

/// 16 to the power `d`.
pub open spec fn pow16(d: nat) -> nat
    decreases d,
{
    if d == 0 {
        1nat
    } else {
        16 * pow16((d - 1) as nat)
    }
}

/// A fixed-width hex rendering has exactly the asked-for length and
/// consists of hex digits only (all lowercase, so in particular no
/// separator byte of the filename scheme).
pub proof fn lemma_hex_seq_digits(v: nat, digits: nat)
    ensures
        hex_seq(v, digits).len() == digits,
        all_hex_digits(hex_seq(v, digits)),
    decreases digits,
{
    if digits > 0 {
        lemma_hex_seq_digits(v / 16, (digits - 1) as nat);
        let s = hex_seq(v, digits);
        let t = hex_seq(v / 16, (digits - 1) as nat);
        assert forall|i: int| 0 <= i < s.len() implies is_hex_digit(s[i]) by {
            if i < digits - 1 {
                assert(s[i] == t[i]);
            } else {
                assert(s[i] == hex_digit((v % 16) as u8));
            }
        }
    }
}

/// Decoding a fixed-width hex rendering gives back the value, as long as
/// the value fits the width.
pub proof fn lemma_hex_roundtrip(v: nat, digits: nat)
    requires
        v < pow16(digits),
    ensures
        hex_value(hex_seq(v, digits)) == v,
    decreases digits,
{
    if digits == 0 {
        assert(v == 0);
    } else {
        let s = hex_seq(v, digits);
        let t = hex_seq(v / 16, (digits - 1) as nat);
        lemma_hex_seq_digits(v / 16, (digits - 1) as nat);
        assert(s.drop_last() =~= t);
        assert(v / 16 < pow16((digits - 1) as nat)) by {
            assert(pow16(digits) == 16 * pow16((digits - 1) as nat));
        }
        lemma_hex_roundtrip(v / 16, (digits - 1) as nat);
        assert(hex_digit_value(hex_digit((v % 16) as u8)) == v % 16);
        assert(hex_value(s) == (v / 16) * 16 + v % 16);
        assert((v / 16) * 16 + v % 16 == v) by (nonlinear_arith);
    }
}

/// The value of a hex digit string fits its width.
pub proof fn lemma_hex_value_bound(s: Seq<u8>)
    requires
        all_hex_digits(s),
    ensures
        hex_value(s) < pow16(s.len()),
    decreases s.len(),
{
    if s.len() > 0 {
        assert(all_hex_digits(s.drop_last())) by {
            assert(forall|i: int|
                0 <= i < s.len() - 1 ==> s.drop_last()[i] == s[i] && is_hex_digit(s[i]));
        }
        lemma_hex_value_bound(s.drop_last());
        assert(pow16(s.len()) == 16 * pow16((s.len() - 1) as nat));
        assert(hex_digit_value(s.last()) < 16);
        assert(hex_value(s.drop_last()) * 16 + 16 <= 16 * pow16((s.len() - 1) as nat))
            by (nonlinear_arith)
            requires
                hex_value(s.drop_last()) < pow16((s.len() - 1) as nat),
        ;
    }
}

/// The lowercase hex digit byte for a nibble value.
pub fn hex_digit_byte(n: u8) -> (r: u8)
    requires
        n < 16,
    ensures
        r == hex_digit(n),
{
    if n < 10 {
        0x30 + n
    } else {
        0x57 + n
    }
}

/// Append `v` to `out` as exactly `digits` lowercase hex digits, most
/// significant first.
pub fn push_hex(out: &mut Vec<u8>, v: u128, digits: usize)
    requires
        digits <= 32,
        old(out)@.len() + digits <= usize::MAX,
    ensures
        final(out)@ == old(out)@ + hex_seq(v as nat, digits as nat),
        final(out)@.len() == old(out)@.len() + digits,
{
    proof {
        lemma_hex_seq_digits(v as nat, digits as nat);
    }
    let mut buf: Vec<u8> = Vec::new();
    let mut k: usize = 0;
    while k < digits
        invariant
            k <= digits,
            buf@.len() == k,
        decreases digits - k,
    {
        buf.push(0);
        k += 1;
    }
    let mut i: usize = digits;
    let mut x: u128 = v;
    while i > 0
        invariant
            i <= digits,
            digits <= 32,
            buf@.len() == digits,
            hex_seq(x as nat, i as nat) + buf@.subrange(i as int, digits as int) =~= hex_seq(
                v as nat,
                digits as nat,
            ),
        decreases i,
    {
        i = i - 1;
        let ghost old_buf = buf@;
        let ghost old_x = x;
        buf.set(i, hex_digit_byte((x % 16) as u8));
        x = x / 16;
        proof {
            assert(hex_seq(old_x as nat, (i + 1) as nat) == hex_seq(x as nat, i as nat).push(
                hex_digit((old_x % 16) as u8),
            ));
            assert(hex_seq(x as nat, i as nat) + buf@.subrange(i as int, digits as int) =~= hex_seq(
                old_x as nat,
                (i + 1) as nat,
            ) + old_buf.subrange(i + 1, digits as int));
        }
    }
    assert(buf@ =~= hex_seq(v as nat, digits as nat));
    let mut j: usize = 0;
    let ghost base = out@;
    while j < digits
        invariant
            j <= digits,
            buf@.len() == digits,
            buf@ == hex_seq(v as nat, digits as nat),
            out@ =~= base + buf@.subrange(0, j as int),
            base.len() + digits <= usize::MAX,
        decreases digits - j,
    {
        let b = buf[j];
        out.push(b);
        j += 1;
        proof {
            assert(out@ =~= base + buf@.subrange(0, j as int));
        }
    }
    assert(out@ =~= base + buf@);
}

/// Decode a hex digit string of at most 32 digits; `None` if any byte is
/// not a hex digit.
pub fn parse_hex(s: &[u8]) -> (r: Option<u128>)
    requires
        s@.len() <= 32,
    ensures
        match r {
            Some(v) => all_hex_digits(s@) && v as nat == hex_value(s@),
            None => !all_hex_digits(s@),
        },
{
    let n = s.len();
    let mut acc: u128 = 0;
    let mut i: usize = 0;
    proof {
        assert(s@.take(0) =~= Seq::<u8>::empty());
    }
    while i < n
        invariant
            i <= n,
            n == s@.len() <= 32,
            all_hex_digits(s@.take(i as int)),
            acc as nat == hex_value(s@.take(i as int)),
            (acc as nat) < pow16(i as nat),
        decreases n - i,
    {
        let b = s[i];
        let d: u8 = if 0x30 <= b && b <= 0x39 {
            b - 0x30
        } else if 0x61 <= b && b <= 0x66 {
            b - 0x57
        } else if 0x41 <= b && b <= 0x46 {
            b - 0x37
        } else {
            proof {
                assert(!is_hex_digit(s@[i as int]));
            }
            return None;
        };
        proof {
            assert(pow16((i + 1) as nat) == 16 * pow16(i as nat));
            assert(pow16(32nat) == 0x100000000000000000000000000000000nat) by {
                reveal_with_fuel(pow16, 33);
            }
            lemma_pow16_monotonic((i + 1) as nat, 32nat);
            assert((acc as nat) * 16 + d < pow16((i + 1) as nat)) by (nonlinear_arith)
                requires
                    (acc as nat) < pow16(i as nat),
                    d < 16,
                    pow16((i + 1) as nat) == 16 * pow16(i as nat),
            ;
        }
        acc = acc * 16 + (d as u128);
        i += 1;
        proof {
            assert(s@.take(i as int).drop_last() =~= s@.take(i - 1));
            assert(s@.take(i as int).last() == s@[i - 1]);
        }
    }
    proof {
        assert(s@.take(n as int) =~= s@);
    }
    Some(acc)
}

/// `pow16` grows with the exponent.
proof fn lemma_pow16_monotonic(a: nat, b: nat)
    requires
        a <= b,
    ensures
        pow16(a) <= pow16(b),
    decreases b,
{
    if a < b {
        lemma_pow16_monotonic(a, (b - 1) as nat);
        assert(pow16(b) == 16 * pow16((b - 1) as nat));
    }
}

} // verus!
