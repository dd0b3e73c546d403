use vstd::prelude::*;

use crate::bytes::{be_bytes, be_nat, min_be_len};
use num_bigint::BigUint;

verus! {

/// Whether `c` is one of the ASCII digits `0`..`9`.
pub open spec fn is_dec_digit(c: char) -> bool {
    '0' <= c && c <= '9'
}

/// The value of a digit character.
pub open spec fn digit_value(c: char) -> nat {
    (c as nat - '0' as nat) as nat
}

/// The number that a string of decimal digits denotes.
pub open spec fn dec_value(s: Seq<char>) -> nat
    decreases s.len(),
{
    if s.len() == 0 {
        0
    } else {
        dec_value(s.drop_last()) * 10 + digit_value(s.last())
    }
}

/// The digit character of `d < 10`.
pub open spec fn digit_char(d: nat) -> char {
    ((d + '0' as nat) as u32) as char
}

/// The shortest decimal writing of `n`: no leading zero, and "0" for zero.
pub open spec fn dec_string(n: nat) -> Seq<char>
    decreases n,
{
    if n < 10 {
        seq![digit_char(n)]
    } else {
        dec_string(n / 10).push(digit_char(n % 10))
    }
}

/// The decimal writing of `n` is made of digits and reads back as `n`.
pub proof fn lemma_dec_string(n: nat)
    ensures
        dec_string(n).len() > 0,
        forall|i: int| 0 <= i < dec_string(n).len() ==> is_dec_digit(#[trigger] dec_string(n)[i]),
        dec_value(dec_string(n)) == n,
    decreases n,
{
    if n < 10 {
        let c = digit_char(n);
        assert(c as nat == n + 48);
        assert(dec_string(n) == seq![c]);
        assert(seq![c].drop_last() =~= Seq::<char>::empty());
        assert(seq![c].last() == c);
        assert(dec_value(Seq::<char>::empty()) == 0);
        assert(digit_value(c) == n);
        assert(dec_value(seq![c]) == dec_value(seq![c].drop_last()) * 10 + digit_value(c));
    } else {
        lemma_dec_string(n / 10);
        let s = dec_string(n / 10);
        let c = digit_char(n % 10);
        assert(c as nat == n % 10 + 48);
        assert(s.push(c).drop_last() =~= s);
        assert(s.push(c).last() == c);
        assert(digit_value(c) == n % 10);
        assert(dec_value(s.push(c)) == dec_value(s) * 10 + digit_value(c));
        assert(n == (n / 10) * 10 + n % 10);
        assert forall|i: int| 0 <= i < s.push(c).len() implies is_dec_digit(#[trigger] s.push(c)[i]) by {
            if i < s.len() {
                assert(s.push(c)[i] == s[i]);
            }
        }
    }
}

/// Removing `_` from a string without any changes nothing.
pub proof fn lemma_filter_keeps_all(s: Seq<char>)
    requires
        forall|i: int| 0 <= i < s.len() ==> #[trigger] s[i] != '_',
    ensures
        s.filter(|c: char| c != '_') == s,
    decreases s.len(),
{
    reveal(Seq::filter);
    if s.len() > 0 {
        let t = s.drop_last();
        assert forall|i: int| 0 <= i < t.len() implies #[trigger] t[i] != '_' by {
            assert(t[i] == s[i]);
        }
        lemma_filter_keeps_all(t);
        assert(t.push(s.last()) =~= s);
    }
}

/// Whether every character of `t` is a decimal digit.
pub open spec fn all_dec_digits(t: Seq<char>) -> bool {
    forall|i: int| 0 <= i < t.len() ==> is_dec_digit(#[trigger] t[i])
}

/// What `u128::from_str` accepts: an optional `+` and then at least one digit,
/// with a value that fits in a `u128`.
pub open spec fn u128_from_str(s: Seq<char>) -> Option<u128> {
    let t = if s.len() > 0 && s[0] == '+' {
        s.drop_first()
    } else {
        s
    };
    if t.len() > 0 && all_dec_digits(t) && dec_value(t) <= u128::MAX {
        Some(dec_value(t) as u128)
    } else {
        None
    }
}

/// `s` without one leading `+`, unless a second `+` follows it.
pub open spec fn strip_plus(s: Seq<char>) -> Seq<char> {
    if s.len() > 0 && s[0] == '+' && !(s.len() > 1 && s[1] == '+') {
        s.drop_first()
    } else {
        s
    }
}

/// The value of a decimal numeral as `BigUint::parse_bytes` reads it in base
/// 10: an optional `+`, then a digit, then digits and `_` separators (which are
/// skipped); `None` for anything else.
pub open spec fn biguint_from_dec(s: Seq<char>) -> Option<nat> {
    let t = strip_plus(s);
    if t.len() > 0 && t[0] != '_' && (forall|i: int|
        0 <= i < t.len() ==> is_dec_digit(#[trigger] t[i]) || t[i] == '_') {
        Some(dec_value(t.filter(|c: char| c != '_')))
    } else {
        None
    }
}

/// Calls `num_bigint::BigUint::parse_bytes` on the UTF-8 bytes of `s` in base
/// 10, then `to_bytes_be` on the number. Trusted: the numeral is read as
/// `biguint_from_dec` says (the crate's `from_str_radix`), and the bytes are
/// the number's shortest big-endian writing, a single zero byte for zero.
#[verifier::external_body]
pub(crate) fn biguint_parse_decimal_be(s: &str) -> (res: Option<Vec<u8>>)
    ensures
        match biguint_from_dec(s@) {
            None => res is None,
            Some(n) => res is Some && res->Some_0@ == be_bytes(n, min_be_len(n)),
        },
{
    match BigUint::parse_bytes(s.as_bytes(), 10) {
        Some(n) => Some(n.to_bytes_be()),
        None => None,
    }
}

/// The digits before position `i` read no more than all of them.
proof fn lemma_dec_value_prefix(t: Seq<char>, i: int, j: int)
    requires
        0 <= i <= j <= t.len(),
    ensures
        dec_value(t.subrange(0, i)) <= dec_value(t.subrange(0, j)),
    decreases j - i,
{
    if i < j {
        lemma_dec_value_prefix(t, i, j - 1);
        let p = t.subrange(0, j);
        assert(p.drop_last() =~= t.subrange(0, j - 1));
    }
}

/// Reads a `u128` written in decimal, as `str::parse::<u128>` does: an
/// optional `+`, then at least one digit and nothing else, the value fitting
/// in a `u128`.
pub(crate) fn parse_u128(s: &str) -> (res: Option<u128>)
    ensures
        res == u128_from_str(s@),
{
    let n = s.unicode_len();
    let mut start: usize = 0;
    if n > 0 && s.get_char(0) == '+' {
        start = 1;
    }
    let ghost t = if s@.len() > 0 && s@[0] == '+' {
        s@.drop_first()
    } else {
        s@
    };
    proof {
        assert(t =~= s@.subrange(start as int, s@.len() as int));
        assert(u128_from_str(s@) == (if t.len() > 0 && all_dec_digits(t) && dec_value(t)
            <= u128::MAX {
            Some(dec_value(t) as u128)
        } else {
            None
        }));
    }
    if start == n {
        return None;
    }
    let mut acc: u128 = 0;
    let mut i: usize = start;
    while i < n
        invariant
            start <= i <= n,
            n == s@.len(),
            t == s@.subrange(start as int, n as int),
            forall|k: int| 0 <= k < i - start ==> is_dec_digit(#[trigger] t[k]),
            acc == dec_value(t.subrange(0, i - start)),
            u128_from_str(s@) == (if t.len() > 0 && all_dec_digits(t) && dec_value(t)
                <= u128::MAX {
                Some(dec_value(t) as u128)
            } else {
                None
            }),
        decreases n - i,
    {
        let c = s.get_char(i);
        assert(c == t[i - start]);
        if !('0' <= c && c <= '9') {
            proof {
                assert(!is_dec_digit(t[i - start]));
            }
            return None;
        }
        let d: u128 = (c as u32 - '0' as u32) as u128;
        let ghost p = t.subrange(0, i - start + 1);
        proof {
            assert(p.drop_last() =~= t.subrange(0, i - start));
            assert(p.last() == c);
            assert(dec_value(p) == acc * 10 + d);
        }
        if acc > (u128::MAX - d) / 10 {
            proof {
                assert(acc * 10 + d > u128::MAX) by (nonlinear_arith)
                    requires
                        acc > (u128::MAX - d) / 10,
                        d <= 9,
                ;
                lemma_dec_value_prefix(t, i - start + 1, t.len() as int);
                assert(t.subrange(0, t.len() as int) =~= t);
                assert(dec_value(t) > u128::MAX);
                assert(u128_from_str(s@) == None::<u128>);
            }
            return None;
        }
        proof {
            assert(acc * 10 + d <= u128::MAX) by (nonlinear_arith)
                requires
                    acc <= (u128::MAX - d) / 10,
                    d <= 9,
            ;
        }
        acc = acc * 10 + d;
        i += 1;
    }
    proof {
        assert(t.subrange(0, t.len() as int) =~= t);
    }
    Some(acc)
}

fn digit_text(d: u128) -> (res: &'static str)
    requires
        d < 10,
    ensures
        res@ == seq![digit_char(d as nat)],
{
    proof {
        reveal_strlit("0");
        reveal_strlit("1");
        reveal_strlit("2");
        reveal_strlit("3");
        reveal_strlit("4");
        reveal_strlit("5");
        reveal_strlit("6");
        reveal_strlit("7");
        reveal_strlit("8");
        reveal_strlit("9");
    }
    if d == 0 {
        "0"
    } else if d == 1 {
        "1"
    } else if d == 2 {
        "2"
    } else if d == 3 {
        "3"
    } else if d == 4 {
        "4"
    } else if d == 5 {
        "5"
    } else if d == 6 {
        "6"
    } else if d == 7 {
        "7"
    } else if d == 8 {
        "8"
    } else {
        "9"
    }
}

fn append_decimal(v: u128, out: &mut String)
    ensures
        final(out)@ == old(out)@ + dec_string(v as nat),
    decreases v,
{
    if v >= 10 {
        append_decimal(v / 10, out);
    }
    out.append(digit_text(v % 10));
    proof {
        if v >= 10 {
            assert(old(out)@ + dec_string((v / 10) as nat) + seq![digit_char((v % 10) as nat)]
                =~= old(out)@ + dec_string(v as nat));
        } else {
            assert(old(out)@ + seq![digit_char((v % 10) as nat)] =~= old(out)@ + dec_string(
                v as nat,
            ));
        }
    }
}

/// Writes a `u128` in decimal, as its `Display` does: the shortest digits.
pub(crate) fn u128_to_decimal(v: u128) -> (res: String)
    ensures
        res@ == dec_string(v as nat),
{
    let mut out = String::new();
    append_decimal(v, &mut out);
    proof {
        assert(Seq::<char>::empty() + dec_string(v as nat) =~= dec_string(v as nat));
    }
    out
}

/// Calls `num_bigint::BigUint::from_bytes_be` and `to_string`. Trusted: the
/// big-endian bytes are read as an unbounded integer and written in decimal,
/// which is `dec_string(be_nat(bytes))`.
#[verifier::external_body]
pub(crate) fn biguint_be_to_decimal(bytes: &[u8]) -> (res: String)
    ensures
        res@ == dec_string(be_nat(bytes@)),
{
    BigUint::from_bytes_be(bytes).to_string()
}

} // verus!
