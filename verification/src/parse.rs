//! Splitting a byte string into whitespace-separated tokens and reading each
//! token as a base-16 unsigned 16-bit integer.

use vstd::prelude::*;

verus! {

/// ASCII whitespace: the token separators of the format.
pub open spec fn is_space(b: u8) -> bool {
    b == 0x20 || (0x09 <= b && b <= 0x0d)
}

/// A base-16 digit, either case.
pub open spec fn is_hex_digit(b: u8) -> bool {
    (0x30 <= b && b <= 0x39) || (0x41 <= b && b <= 0x46) || (0x61 <= b && b <= 0x66)
}

/// The numeric value of a base-16 digit; meaningful only under `is_hex_digit`.
pub open spec fn hex_digit_value(b: u8) -> nat {
    if 0x30 <= b && b <= 0x39 {
        (b - 0x30) as nat
    } else if 0x41 <= b && b <= 0x46 {
        (b - 0x41 + 10) as nat
    } else {
        (b - 0x61 + 10) as nat
    }
}

/// Length of the leading run of non-whitespace bytes.
pub open spec fn token_len(s: Seq<u8>) -> nat
    decreases s.len(),
{
    if s.len() == 0 || is_space(s[0]) {
        0
    } else {
        (1 + token_len(s.drop_first())) as nat
    }
}

/// Every byte of the token is a base-16 digit.
pub open spec fn all_hex_digits(tok: Seq<u8>) -> bool {
    forall|i: int| 0 <= i < tok.len() ==> is_hex_digit(#[trigger] tok[i])
}

/// The number a sequence of base-16 digits denotes, most significant first.
pub open spec fn hex_nat(tok: Seq<u8>) -> nat
    decreases tok.len(),
{
    if tok.len() == 0 {
        0
    } else {
        (hex_nat(tok.drop_last()) * 16 + hex_digit_value(tok.last())) as nat
    }
}

/// A token parses as a 16-bit value: nonempty, all base-16 digits, in range.
pub open spec fn token_ok(tok: Seq<u8>) -> bool {
    tok.len() > 0 && all_hex_digits(tok) && hex_nat(tok) < 0x10000
}

/// The 16-bit values of the whitespace-separated tokens of `s`, in order,
/// or `None` if some token is not a base-16 unsigned 16-bit integer.
pub open spec fn values_of(s: Seq<u8>) -> Option<Seq<u16>>
    decreases s.len(),
    via values_of_decreases
{
    if s.len() == 0 {
        Some(Seq::empty())
    } else if is_space(s[0]) {
        values_of(s.drop_first())
    } else {
        let t = token_len(s) as int;
        let tok = s.subrange(0, t);
        if token_ok(tok) {
            match values_of(s.subrange(t, s.len() as int)) {
                Some(rest) => Some(seq![hex_nat(tok) as u16] + rest),
                None => None,
            }
        } else {
            None
        }
    }
}

#[via_fn]
proof fn values_of_decreases(s: Seq<u8>) {
    if s.len() > 0 && !is_space(s[0]) {
        lemma_token_len_bounds(s);
        assert(token_len(s) == 1 + token_len(s.drop_first()));
    }
}

/// The leading token is non-whitespace throughout, lies within `s`, and ends
/// at the first whitespace byte (or at the end of `s`).
proof fn lemma_token_len_bounds(s: Seq<u8>)
    ensures
        token_len(s) <= s.len(),
        forall|i: int| 0 <= i < token_len(s) ==> !is_space(#[trigger] s[i]),
        token_len(s) < s.len() ==> is_space(s[token_len(s) as int]),
    decreases s.len(),
{
    if s.len() > 0 && !is_space(s[0]) {
        lemma_token_len_bounds(s.drop_first());
        assert forall|i: int| 0 <= i < token_len(s) implies !is_space(#[trigger] s[i]) by {
            if i > 0 {
                assert(s.drop_first()[i - 1] == s[i]);
            }
        }
        if token_len(s) < s.len() {
            assert(s.drop_first()[token_len(s) - 1] == s[token_len(s) as int]);
        }
    }
}

/// The leading token ends exactly at `j`, the first whitespace position.
proof fn lemma_token_len_eq(s: Seq<u8>, j: int)
    requires
        0 <= j <= s.len(),
        forall|i: int| 0 <= i < j ==> !is_space(#[trigger] s[i]),
        j == s.len() || is_space(s[j]),
    ensures
        token_len(s) == j,
    decreases j,
{
    if j > 0 {
        assert(!is_space(s[0]));
        assert forall|i: int| 0 <= i < j - 1 implies !is_space(#[trigger] s.drop_first()[i]) by {
            assert(s.drop_first()[i] == s[i + 1]);
        }
        if j - 1 < s.drop_first().len() {
            assert(s.drop_first()[j - 1] == s[j]);
        }
        lemma_token_len_eq(s.drop_first(), j - 1);
    }
}

/// The suffix of `s` from position `i` on.
pub open spec fn suffix_from(s: Seq<u8>, i: int) -> Seq<u8> {
    s.subrange(i, s.len() as int)
}

/// The values already produced, together with those of the unread suffix,
/// account for the values of the whole input.
spec fn partial_parse(s: Seq<u8>, done: Seq<u16>, i: int) -> bool {
    match values_of(suffix_from(s, i)) {
        Some(rest) => values_of(s) == Some(done + rest),
        None => values_of(s) is None,
    }
}

/// Skipping one whitespace byte does not change the values of the suffix.
proof fn lemma_skip_space(s: Seq<u8>, i: int)
    requires
        0 <= i < s.len(),
        is_space(s[i]),
    ensures
        values_of(suffix_from(s, i)) == values_of(suffix_from(s, i + 1)),
{
    assert(suffix_from(s, i)[0] == s[i]);
    assert(suffix_from(s, i).drop_first() =~= suffix_from(s, i + 1));
}

/// Reading the leading token of the suffix at `i`, which runs up to the first
/// whitespace byte at `j`, unfolds the values of that suffix.
pub(crate) proof fn lemma_consume_token(s: Seq<u8>, i: int, j: int)
    requires
        0 <= i < j <= s.len(),
        forall|k: int| i <= k < j ==> !is_space(#[trigger] s[k]),
        j == s.len() || is_space(s[j]),
    ensures
        values_of(suffix_from(s, i)) == ({
            let tok = s.subrange(i, j);
            if token_ok(tok) {
                match values_of(suffix_from(s, j)) {
                    Some(rest) => Some(seq![hex_nat(tok) as u16] + rest),
                    None => None::<Seq<u16>>,
                }
            } else {
                None::<Seq<u16>>
            }
        }),
{
    let suf = suffix_from(s, i);
    assert forall|k: int| 0 <= k < j - i implies !is_space(#[trigger] suf[k]) by {
        assert(suf[k] == s[i + k]);
    }
    if j - i < suf.len() {
        assert(suf[j - i] == s[j]);
    }
    lemma_token_len_eq(suf, j - i);
    assert(suf.subrange(0, j - i) =~= s.subrange(i, j));
    assert(suf.subrange(j - i, suf.len() as int) =~= suffix_from(s, j));
    assert(!is_space(suf[0]));
}

/// The value of a prefix of a digit string never exceeds the whole string's.
proof fn lemma_hex_nat_prefix(tok: Seq<u8>, k: int)
    requires
        0 <= k <= tok.len(),
    ensures
        hex_nat(tok.subrange(0, k)) <= hex_nat(tok),
    decreases tok.len() - k,
{
    if k == tok.len() {
        assert(tok.subrange(0, k) =~= tok);
    } else {
        assert(tok.subrange(0, k + 1).drop_last() =~= tok.subrange(0, k));
        assert(tok.subrange(0, k + 1).last() == tok[k]);
        lemma_hex_nat_prefix(tok, k + 1);
    }
}

/// Whether `b` is an ASCII whitespace byte.
fn is_space_byte(b: u8) -> (r: bool)
    ensures
        r == is_space(b),
{
    b == 0x20 || (0x09 <= b && b <= 0x0d)
}

/// The numeric value of `b` as a base-16 digit, or `None` if it is not one.
fn hex_digit_of(b: u8) -> (r: Option<u8>)
    ensures
        match r {
            Some(d) => is_hex_digit(b) && d == hex_digit_value(b),
            None => !is_hex_digit(b),
        },
{
    if 0x30 <= b && b <= 0x39 {
        Some(b - 0x30)
    } else if 0x41 <= b && b <= 0x46 {
        Some(b - 0x41 + 10)
    } else if 0x61 <= b && b <= 0x66 {
        Some(b - 0x61 + 10)
    } else {
        None
    }
}

/// Split `bytes` on whitespace and read every token as a base-16 unsigned
/// 16-bit integer, in order; `None` as soon as one token is not such a number.
pub fn parse_hex_values(bytes: &[u8]) -> (r: Option<Vec<u16>>)
    ensures
        match r {
            Some(vals) => values_of(bytes@) == Some(vals@),
            None => values_of(bytes@) is None,
        },
{
    let ghost s = bytes@;
    let n = bytes.len();
    let mut vals: Vec<u16> = Vec::new();
    let mut i: usize = 0;
    proof {
        assert(suffix_from(s, 0) =~= s);
        assert(vals@ + values_of(s).unwrap() =~= values_of(s).unwrap());
    }
    while i < n
        invariant
            n == s.len(),
            s == bytes@,
            i <= n,
            partial_parse(s, vals@, i as int),
        decreases n - i,
    {
        if is_space_byte(bytes[i]) {
            proof {
                lemma_skip_space(s, i as int);
            }
            i = i + 1;
        } else {
            // Find the end of the token.
            let start = i;
            let mut j = i;
            while j < n && !is_space_byte(bytes[j])
                invariant
                    n == s.len(),
                    s == bytes@,
                    start <= j <= n,
                    forall|k: int| start <= k < j ==> !is_space(#[trigger] s[k]),
                decreases n - j,
            {
                j = j + 1;
            }
            let ghost tok = s.subrange(start as int, j as int);
            proof {
                lemma_consume_token(s, start as int, j as int);
            }
            // Read the token as a base-16 number.
            let mut val: u32 = 0;
            let mut k = start;
            while k < j
                invariant
                    n == s.len(),
                    s == bytes@,
                    start <= k <= j <= n,
                    tok == s.subrange(start as int, j as int),
                    forall|m: int| start <= m < j ==> !is_space(#[trigger] s[m]),
                    all_hex_digits(tok.subrange(0, k - start)),
                    val == hex_nat(tok.subrange(0, k - start)),
                    val < 0x10000,
                    partial_parse(s, vals@, i as int),
                    i == start,
                    j == s.len() || is_space(s[j as int]),
                decreases j - k,
            {
                let ghost m = k - start;
                proof {
                    assert(tok[m] == s[k as int]);
                    assert(tok.subrange(0, m + 1).drop_last() =~= tok.subrange(0, m));
                    assert(tok.subrange(0, m + 1).last() == tok[m]);
                }
                match hex_digit_of(bytes[k]) {
                    Some(d) => {
                        let next = val * 16 + d as u32;
                        if next > 0xffff {
                            proof {
                                assert(hex_nat(tok.subrange(0, m + 1)) == next);
                                lemma_hex_nat_prefix(tok, m + 1);
                                assert(!token_ok(tok));
                                lemma_consume_token(s, start as int, j as int);
                                assert(values_of(s) is None);
                            }
                            return None;
                        }
                        val = next;
                        proof {
                            assert forall|q: int| 0 <= q < m + 1 implies is_hex_digit(
                                #[trigger] tok.subrange(0, m + 1)[q],
                            ) by {
                                assert(tok.subrange(0, m + 1)[q] == tok.subrange(0, m + 1)[q]);
                                if q < m {
                                    assert(tok.subrange(0, m + 1)[q] == tok.subrange(0, m)[q]);
                                }
                            }
                        }
                        k = k + 1;
                    },
                    None => {
                        proof {
                            assert(!is_hex_digit(tok[m]));
                            assert(!token_ok(tok));
                            lemma_consume_token(s, start as int, j as int);
                            assert(values_of(s) is None);
                        }
                        return None;
                    },
                }
            }
            proof {
                assert(tok.subrange(0, k - start) =~= tok);
                assert(token_ok(tok));
                assert(hex_nat(tok) == val);
                lemma_consume_token(s, start as int, j as int);
            }
            vals.push(val as u16);
            proof {
                let v = val as u16;
                if values_of(suffix_from(s, j as int)) is Some {
                    let rest = values_of(suffix_from(s, j as int)).unwrap();
                    assert(values_of(suffix_from(s, start as int)) == Some(seq![v] + rest));
                    assert(values_of(s) == Some(vals@.drop_last() + (seq![v] + rest)));
                    assert(vals@ + rest =~= (vals@.drop_last() + (seq![v] + rest)));
                    assert(values_of(s) == Some(vals@ + rest));
                } else {
                    assert(values_of(suffix_from(s, start as int)) is None);
                    assert(values_of(s) is None);
                }
                assert(partial_parse(s, vals@, j as int));
            }
            i = j;
        }
    }
    proof {
        assert(suffix_from(s, n as int) =~= Seq::<u8>::empty());
        assert(values_of(suffix_from(s, n as int)) == Some(Seq::<u16>::empty()));
        assert(vals@ + Seq::<u16>::empty() =~= vals@);
    }
    Some(vals)
}

} // verus!
