//! Re-serialization of a frame's fields into Pronto Hex text, at the
//! specification level only, and the proof that decoding such text gives the
//! fields back: the round-trip law.

use vstd::prelude::*;
use vstd::arithmetic::div_mod::{lemma_fundamental_div_mod, lemma_multiply_divide_lt};

use crate::parse::{
    all_hex_digits, hex_digit_value, hex_nat, is_hex_digit, is_space, lemma_consume_token,
    suffix_from, token_ok, values_of,
};
use crate::{frame_of, spec_decode, FrameView};

verus! {

/// 16 to the power `k`.
pub open spec fn pow16(k: nat) -> nat
    decreases k,
{
    if k == 0 {
        1
    } else {
        16 * pow16((k - 1) as nat)
    }
}

/// The lower-case base-16 digit for a value below 16.
pub open spec fn hex_digit_char(d: nat) -> u8 {
    if d < 10 {
        (0x30 + d) as u8
    } else {
        (0x61 + d - 10) as u8
    }
}

/// The `k` lower-case base-16 digits of `v`, most significant first.
pub open spec fn hex_digits(v: nat, k: nat) -> Seq<u8>
    decreases k,
{
    if k == 0 {
        Seq::empty()
    } else {
        hex_digits(v / 16, (k - 1) as nat).push(hex_digit_char(v % 16))
    }
}

/// A 16-bit value as a 4-hex-digit group.
pub open spec fn hex4(v: u16) -> Seq<u8> {
    hex_digits(v as nat, 4)
}

/// The values as whitespace-separated 4-hex-digit groups, each followed by a
/// single space.
pub open spec fn encode_values(vs: Seq<u16>) -> Seq<u8>
    decreases vs.len(),
{
    if vs.len() == 0 {
        Seq::empty()
    } else {
        hex4(vs[0]) + seq![0x20u8] + encode_values(vs.drop_first())
    }
}

/// A whole frame as Pronto Hex text: the four header values (a zero format
/// tag, the carrier scale, and the two burst pair counts) followed by the two
/// burst sequences.
pub open spec fn encode_frame(
    carrier_scale: u16,
    p1: u16,
    p2: u16,
    burst1: Seq<u16>,
    burst2: Seq<u16>,
) -> Seq<u8> {
    encode_values(seq![0u16, carrier_scale, p1, p2] + burst1 + burst2)
}

proof fn lemma_hex_digit_char(d: nat)
    requires
        d < 16,
    ensures
        is_hex_digit(hex_digit_char(d)),
        hex_digit_value(hex_digit_char(d)) == d,
        !is_space(hex_digit_char(d)),
{
}

proof fn lemma_hex_digits(v: nat, k: nat)
    requires
        v < pow16(k),
    ensures
        hex_digits(v, k).len() == k,
        all_hex_digits(hex_digits(v, k)),
        hex_nat(hex_digits(v, k)) == v,
        forall|i: int| 0 <= i < k ==> !is_space(#[trigger] hex_digits(v, k)[i]),
    decreases k,
{
    if k == 0 {
        assert(hex_digits(v, k) =~= Seq::<u8>::empty());
    } else {
        let km1 = (k - 1) as nat;
        assert(pow16(k) == 16 * pow16(km1));
        lemma_multiply_divide_lt(v as int, 16, pow16(km1) as int);
        lemma_hex_digits(v / 16, km1);
        assert(v % 16 < 16);
        lemma_hex_digit_char(v % 16);
        let s = hex_digits(v / 16, km1);
        let c = hex_digit_char(v % 16);
        assert(hex_digits(v, k) == s.push(c));
        assert(s.push(c).drop_last() =~= s);
        assert(s.push(c).last() == c);
        lemma_fundamental_div_mod(v as int, 16);
        assert(hex_nat(s.push(c)) == v);
        assert forall|i: int| 0 <= i < k implies is_hex_digit(#[trigger] s.push(c)[i]) by {
            if i < k - 1 {
                assert(s.push(c)[i] == s[i]);
            }
        }
        assert forall|i: int| 0 <= i < k implies !is_space(#[trigger] s.push(c)[i]) by {
            if i < k - 1 {
                assert(s.push(c)[i] == s[i]);
            }
        }
    }
}

proof fn lemma_hex4(v: u16)
    ensures
        hex4(v).len() == 4,
        all_hex_digits(hex4(v)),
        hex_nat(hex4(v)) == v,
        forall|i: int| 0 <= i < 4 ==> !is_space(#[trigger] hex4(v)[i]),
{
    assert(pow16(0) == 1);
    assert(pow16(1) == 16);
    assert(pow16(2) == 256);
    assert(pow16(3) == 4096);
    assert(pow16(4) == 65536);
    lemma_hex_digits(v as nat, 4);
}

/// Re-serialized values read back as themselves.
proof fn lemma_encode_values(vs: Seq<u16>)
    ensures
        values_of(encode_values(vs)) == Some(vs),
    decreases vs.len(),
{
    if vs.len() == 0 {
        assert(vs =~= Seq::<u16>::empty());
        assert(values_of(encode_values(vs)) == Some(Seq::<u16>::empty()));
    } else {
        let v = vs[0];
        let rest = vs.drop_first();
        lemma_encode_values(rest);
        lemma_hex4(v);
        let h = hex4(v);
        let s = encode_values(vs);
        assert(s == h + seq![0x20u8] + encode_values(rest));
        assert forall|k: int| 0 <= k < 4 implies !is_space(#[trigger] s[k]) by {
            assert(s[k] == h[k]);
        }
        assert(s[4] == 0x20);
        assert(is_space(0x20));
        lemma_consume_token(s, 0, 4);
        let tok = s.subrange(0, 4);
        assert(tok =~= h);
        assert(token_ok(tok));
        let tail = suffix_from(s, 4);
        assert(tail[0] == 0x20);
        assert(tail.drop_first() =~= encode_values(rest));
        assert(values_of(tail) == Some(rest));
        assert(suffix_from(s, 0) =~= s);
        assert(values_of(s) == Some(seq![v] + rest));
        assert(seq![v] + rest =~= vs);
    }
}

/// The round-trip law: write any zero-tagged header and burst sequences whose
/// lengths match its declared pair counts as Pronto Hex text, and decoding
/// that text yields exactly those fields back.
pub proof fn lemma_round_trip(
    carrier_scale: u16,
    p1: u16,
    p2: u16,
    burst1: Seq<u16>,
    burst2: Seq<u16>,
)
    requires
        burst1.len() == 2 * p1,
        burst2.len() == 2 * p2,
    ensures
        spec_decode(encode_frame(carrier_scale, p1, p2, burst1, burst2)) matches Ok(m)
            && m.carrier_scale == carrier_scale && m.burst1 == burst1 && m.burst2 == burst2,
{
    let vs = seq![0u16, carrier_scale, p1, p2] + burst1 + burst2;
    lemma_encode_values(vs);
    assert(vs[0] == 0u16);
    assert(vs[1] == carrier_scale);
    assert(vs[2] == p1);
    assert(vs[3] == p2);
    assert(vs.len() == 4 + burst1.len() + burst2.len());
    let b1len = 2 * (vs[2] as int);
    assert(vs.subrange(4, 4 + b1len) =~= burst1);
    assert(vs.subrange(4 + b1len, vs.len() as int) =~= burst2);
    assert(frame_of(vs) matches Ok(m) && m.carrier_scale == carrier_scale && m.burst1 == burst1
        && m.burst2 == burst2);
}

} // verus!
