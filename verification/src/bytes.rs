use vstd::prelude::*;
use vstd::arithmetic::div_mod::lemma_div_denominator;
use vstd::arithmetic::div_mod::lemma_basic_div;
use vstd::arithmetic::power::{pow, lemma_pow0, lemma_pow1, lemma_pow_increases, lemma_pow_positive};

verus! {

/// The `j`-th base-256 digit of `n`, counting from the least significant one.
pub open spec fn le_digit(n: nat, j: nat) -> u8 {
    ((n / (pow(256, j) as nat)) % 256) as u8
}

/// The `len`-byte big-endian encoding of `n` (truncated to its low `len` bytes).
pub open spec fn be_bytes(n: nat, len: nat) -> Seq<u8> {
    Seq::new(len, |i: int| le_digit(n, (len - 1 - i) as nat))
}

/// The number that a big-endian byte string denotes.
pub open spec fn be_nat(s: Seq<u8>) -> nat
    decreases s.len(),
{
    if s.len() == 0 {
        0
    } else {
        be_nat(s.drop_last()) * 256 + s.last() as nat
    }
}

/// The number of bytes of the shortest big-endian writing of `n` (one for zero).
pub open spec fn min_be_len(n: nat) -> nat
    decreases n,
{
    if n < 256 {
        1
    } else {
        1 + min_be_len(n / 256)
    }
}

/// `min_be_len(n)` bytes hold `n`, and one byte fewer would not.
pub proof fn lemma_min_be_len(n: nat)
    ensures
        min_be_len(n) >= 1,
        n < pow(256, min_be_len(n)),
        min_be_len(n) > 1 ==> pow(256, (min_be_len(n) - 1) as nat) <= n,
    decreases n,
{
    lemma_pow1(256);
    if n >= 256 {
        let q = n / 256;
        lemma_min_be_len(q);
        let l = min_be_len(q);
        assert(pow(256, l + 1) == 256 * pow(256, l)) by {
            reveal(pow);
        }
        assert(n < 256 * pow(256, l)) by (nonlinear_arith)
            requires
                q == n / 256,
                q < pow(256, l),
        ;
        if l > 1 {
            assert(pow(256, l) == 256 * pow(256, (l - 1) as nat)) by {
                reveal(pow);
            }
            assert(pow(256, l) <= n) by (nonlinear_arith)
                requires
                    q == n / 256,
                    pow(256, (l - 1) as nat) <= q,
                    pow(256, l) == 256 * pow(256, (l - 1) as nat),
            ;
        }
    }
}

/// A number below `256^len` written on 32 bytes is its `len`-byte writing
/// preceded by zeros.
pub proof fn lemma_be_bytes_pad(n: nat, len: nat)
    requires
        len <= 32,
        n < pow(256, len),
    ensures
        forall|p: int| 0 <= p < 32 - len ==> #[trigger] be_bytes(n, 32)[p] == 0u8,
        forall|q: int| 0 <= q < len ==> be_bytes(n, 32)[32 - len + q] == #[trigger] be_bytes(n, len)[q],
{
    assert forall|p: int| 0 <= p < 32 - len implies #[trigger] be_bytes(n, 32)[p] == 0u8 by {
        let e = (32 - 1 - p) as nat;
        lemma_pow_increases(256, len, e);
        lemma_basic_div(n as int, pow(256, e));
    }
}

proof fn lemma_next_quotient(v: nat, i: nat)
    ensures
        pow(256, i) > 0,
        pow(256, i + 1) == pow(256, i) * 256,
        (v / (pow(256, i) as nat)) / 256 == v / (pow(256, i + 1) as nat),
{
    lemma_pow_positive(256, i);
    assert(pow(256, i + 1) == 256 * pow(256, i)) by {
        reveal(pow);
    }
    lemma_div_denominator(v as int, pow(256, i), 256);
    assert(pow(256, i) * 256 == 256 * pow(256, i)) by (nonlinear_arith);
}

/// Reading back the `len`-byte writing of `n` gives `n` modulo `256^len`.
pub proof fn lemma_be_nat_be_bytes(n: nat, len: nat)
    ensures
        be_nat(be_bytes(n, len)) == n % (pow(256, len) as nat),
    decreases len,
{
    lemma_pow_positive(256, len);
    if len == 0 {
        lemma_pow0(256);
        assert(be_bytes(n, 0) =~= Seq::<u8>::empty());
    } else {
        let l1 = (len - 1) as nat;
        lemma_be_nat_be_bytes(n / 256, l1);
        assert forall|i: int| 0 <= i < l1 implies #[trigger] be_bytes(n, len).drop_last()[i]
            == be_bytes(n / 256, l1)[i] by {
            let k = (l1 - 1 - i) as nat;
            lemma_next_quotient(n, k);
            lemma_pow_positive(256, k);
            lemma_div_denominator(n as int, 256, pow(256, k));
            assert(pow(256, k) * 256 == 256 * pow(256, k)) by (nonlinear_arith);
        }
        assert(be_bytes(n, len).drop_last() =~= be_bytes(n / 256, l1));
        lemma_pow0(256);
        assert(be_bytes(n, len).last() == (n % 256) as u8) by {
            assert((n as int) / 1 == n) by (nonlinear_arith);
        }
        lemma_pow_positive(256, l1);
        assert(pow(256, len) == 256 * pow(256, l1)) by {
            reveal(pow);
        }
        let p = pow(256, l1) as nat;
        assert(((n / 256) % p) * 256 + n % 256 == n % (256 * p)) by (nonlinear_arith)
            requires
                p > 0,
        {
            vstd::arithmetic::div_mod::lemma_breakdown(n as int, 256, p as int);
        }
    }
}

/// A byte string is the writing of its own value on as many bytes, and that
/// value is below `256^len`.
pub proof fn lemma_be_bytes_be_nat(s: Seq<u8>)
    ensures
        be_nat(s) < pow(256, s.len()),
        be_bytes(be_nat(s), s.len()) == s,
    decreases s.len(),
{
    lemma_pow0(256);
    if s.len() == 0 {
        assert(be_bytes(0, 0) =~= s);
    } else {
        let t = s.drop_last();
        let n = be_nat(s);
        lemma_be_bytes_be_nat(t);
        let l1 = t.len();
        lemma_pow_positive(256, l1);
        assert(pow(256, l1 + 1) == 256 * pow(256, l1)) by {
            reveal(pow);
        }
        assert(n < pow(256, s.len())) by (nonlinear_arith)
            requires
                n == be_nat(t) * 256 + s.last() as nat,
                be_nat(t) < pow(256, l1),
                pow(256, l1 + 1) == 256 * pow(256, l1),
                s.len() == l1 + 1,
                s.last() < 256,
        ;
        assert(n / 256 == be_nat(t) && n % 256 == s.last() as nat) by (nonlinear_arith)
            requires
                n == be_nat(t) * 256 + s.last() as nat,
                s.last() < 256,
        ;
        assert forall|i: int| 0 <= i < s.len() implies #[trigger] be_bytes(n, s.len())[i] == s[i] by {
            if i == s.len() - 1 {
                assert((n as int) / 1 == n) by (nonlinear_arith);
            } else {
                let k = (l1 - 1 - i) as nat;
                lemma_next_quotient(n, k);
                lemma_pow_positive(256, k);
                lemma_div_denominator(n as int, 256, pow(256, k));
                assert(pow(256, k) * 256 == 256 * pow(256, k)) by (nonlinear_arith);
                assert(be_bytes(be_nat(t), l1)[i] == t[i]);
            }
        }
        assert(be_bytes(n, s.len()) =~= s);
    }
}

/// The value of two byte strings written one after the other.
pub proof fn lemma_be_nat_concat(a: Seq<u8>, b: Seq<u8>)
    ensures
        be_nat(a + b) == be_nat(a) * pow(256, b.len()) + be_nat(b),
    decreases b.len(),
{
    lemma_pow0(256);
    if b.len() == 0 {
        assert(a + b =~= a);
    } else {
        let b1 = b.drop_last();
        lemma_be_nat_concat(a, b1);
        assert((a + b).drop_last() =~= a + b1);
        assert((a + b).last() == b.last());
        assert(pow(256, b1.len() + 1) == 256 * pow(256, b1.len())) by {
            reveal(pow);
        }
        let p = pow(256, b1.len());
        assert((be_nat(a) * p + be_nat(b1)) * 256 + b.last() as nat == be_nat(a) * (256 * p) + (be_nat(
            b1,
        ) * 256 + b.last() as nat)) by (nonlinear_arith);
    }
}

/// Big-endian 32-byte encoding of `v` (the upper bytes are zero).
pub fn u128_be32(v: u128) -> (res: [u8; 32])
    ensures
        res@ == be_bytes(v as nat, 32),
{
    let mut out = [0u8; 32];
    let mut x: u128 = v;
    let mut i: usize = 0;
    proof {
        lemma_pow0(256);
        assert(pow(256, 0) == 1);
        assert((v as nat) / 1nat == v as nat) by (nonlinear_arith);
    }
    while i < 32
        invariant
            0 <= i <= 32,
            out@.len() == 32,
            x as nat == (v as nat) / (pow(256, i as nat) as nat),
            forall|p: int| 32 - i <= p < 32 ==> #[trigger] out@[p] == le_digit(v as nat, (32 - 1 - p) as nat),
        decreases 32 - i,
    {
        proof {
            lemma_next_quotient(v as nat, i as nat);
        }
        out[31 - i] = (x % 256) as u8;
        x = x / 256;
        i += 1;
    }
    assert(out@ =~= be_bytes(v as nat, 32));
    out
}

/// Big-endian encoding of `v` on `len` bytes (its low `len` bytes).
pub fn be_bytes_vec(v: u128, len: usize) -> (res: Vec<u8>)
    ensures
        res@ == be_bytes(v as nat, len as nat),
{
    let mut out: Vec<u8> = Vec::new();
    let mut k: usize = 0;
    while k < len
        invariant
            0 <= k <= len,
            out@.len() == k,
            forall|j: int| 0 <= j < k ==> out@[j] == le_digit(v as nat, (len - 1 - j) as nat),
        decreases len - k,
    {
        let shift_bytes: usize = len - 1 - k;
        let mut x: u128 = v;
        let mut t: usize = 0;
        proof {
            lemma_pow0(256);
            assert(pow(256, 0) == 1);
        assert((v as nat) / 1nat == v as nat) by (nonlinear_arith);
        }
        while t < shift_bytes
            invariant
                0 <= t <= shift_bytes,
                x as nat == (v as nat) / (pow(256, t as nat) as nat),
            decreases shift_bytes - t,
        {
            proof {
                lemma_next_quotient(v as nat, t as nat);
            }
            x = x / 256;
            t += 1;
        }
        out.push((x % 256) as u8);
        k += 1;
    }
    assert(out@ =~= be_bytes(v as nat, len as nat));
    out
}

} // verus!
