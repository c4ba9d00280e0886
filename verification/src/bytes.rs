//! Fixed-width big-endian encoding of timestamps.
//!
//! Reverse-index keys are the eight big-endian bytes of the expiry timestamp
//! followed by the entry's own key. The encoding is byte-order preserving:
//! lexicographic order on encoded keys equals numeric order on timestamps,
//! which is what makes a bounded range scan of the reverse index visit
//! exactly the entries that expire at or before a given time.

use vstd::prelude::*;
use vstd::arithmetic::div_mod::lemma_breakdown;
use vstd::arithmetic::div_mod::lemma_div_denominator;
use vstd::arithmetic::div_mod::lemma_div_multiples_vanish_fancy;
use vstd::arithmetic::div_mod::lemma_fundamental_div_mod;
use vstd::arithmetic::div_mod::lemma_mod_mod;
use vstd::arithmetic::div_mod::lemma_small_mod;

verus! {

/// 256 raised to the power `n`: the place value of a big-endian byte.
pub open spec fn pow256(n: nat) -> nat
    decreases n,
{
    if n == 0 {
        1
    } else {
        256 * pow256((n - 1) as nat)
    }
}

/// Strict byte-wise lexicographic order, the order an ordered byte-keyed
/// store keeps its keys in: a proper prefix sorts before its extensions.
pub open spec fn lex_lt(a: Seq<u8>, b: Seq<u8>) -> bool
    decreases b.len(),
{
    if b.len() == 0 {
        false
    } else if a.len() == 0 {
        true
    } else if a[0] < b[0] {
        true
    } else if a[0] > b[0] {
        false
    } else {
        lex_lt(a.skip(1), b.skip(1))
    }
}

/// The `n` big-endian bytes of `x` (of `x` modulo `pow256(n)`).
pub open spec fn be_digits(x: nat, n: nat) -> Seq<u8> {
    Seq::new(n, |i: int| ((x / pow256((n - 1 - i) as nat)) % 256) as u8)
}

/// The numeric value of a big-endian byte string.
pub open spec fn be_value(s: Seq<u8>) -> nat
    decreases s.len(),
{
    if s.len() == 0 {
        0
    } else {
        (256 * be_value(s.drop_last()) + s.last()) as nat
    }
}

pub proof fn lemma_pow256_pos(n: nat)
    ensures
        pow256(n) >= 1,
    decreases n,
{
    if n > 0 {
        lemma_pow256_pos((n - 1) as nat);
    }
}

pub proof fn lemma_be_value_bound(s: Seq<u8>)
    ensures
        be_value(s) < pow256(s.len()),
    decreases s.len(),
{
    if s.len() > 0 {
        lemma_be_value_bound(s.drop_last());
        assert(be_value(s.drop_last()) <= pow256((s.len() - 1) as nat) - 1);
        assert(256 * be_value(s.drop_last()) <= 256 * (pow256((s.len() - 1) as nat) - 1))
            by (nonlinear_arith)
            requires
                be_value(s.drop_last()) <= pow256((s.len() - 1) as nat) - 1,
        ;
    }
}

/// Prepending a byte adds its place value.
pub proof fn lemma_be_value_prepend(h: u8, t: Seq<u8>)
    ensures
        be_value(seq![h] + t) == h * pow256(t.len()) + be_value(t),
    decreases t.len(),
{
    if t.len() == 0 {
        assert(t =~= Seq::<u8>::empty());
        assert(pow256(0) == 1);
        assert((seq![h] + t) =~= seq![h]);
        assert(seq![h].drop_last() =~= Seq::<u8>::empty());
        assert(be_value(seq![h]) == 256 * be_value(seq![h].drop_last()) + seq![h].last());
        assert(seq![h].last() == h);
    } else {
        lemma_be_value_prepend(h, t.drop_last());
        assert((seq![h] + t).drop_last() =~= seq![h] + t.drop_last());
        assert((seq![h] + t).last() == t.last());
        assert(be_value(t) == 256 * be_value(t.drop_last()) + t.last());
        assert(be_value(seq![h] + t) == 256 * be_value(seq![h] + t.drop_last()) + t.last());
        assert(be_value(seq![h] + t) == 256 * (h * pow256((t.len() - 1) as nat) + be_value(
            t.drop_last(),
        )) + t.last());
        assert(256 * (h * pow256((t.len() - 1) as nat) + be_value(t.drop_last())) == h * (256
            * pow256((t.len() - 1) as nat)) + 256 * be_value(t.drop_last())) by (nonlinear_arith);
        assert(pow256(t.len()) == 256 * pow256((t.len() - 1) as nat));
    }
}

/// Dropping the last byte of an encoding encodes the value divided by 256.
pub proof fn lemma_be_digits_drop_last(x: nat, n: nat)
    requires
        n > 0,
    ensures
        be_digits(x, n).drop_last() =~= be_digits(x / 256, (n - 1) as nat),
{
    let s = be_digits(x, n);
    let t = be_digits(x / 256, (n - 1) as nat);
    assert forall|i: int| 0 <= i < n - 1 implies s[i] == t[i] by {
        let q = pow256((n - 2 - i) as nat);
        lemma_pow256_pos((n - 2 - i) as nat);
        lemma_div_denominator(x as int, 256, q as int);
        assert(pow256((n - 1 - i) as nat) == 256 * q);
        assert(x / (256 * q) == (x / 256) / q);
    }
}

/// Decoding inverts encoding: the value of the `n` big-endian bytes of `x`
/// is `x` modulo `pow256(n)`.
pub proof fn lemma_be_digits_value(x: nat, n: nat)
    ensures
        be_value(be_digits(x, n)) == x % pow256(n),
    decreases n,
{
    if n == 0 {
        assert(be_digits(x, 0) =~= Seq::<u8>::empty());
        assert(x % 1 == 0) by (nonlinear_arith);
    } else {
        let s = be_digits(x, n);
        let p = pow256((n - 1) as nat);
        lemma_pow256_pos((n - 1) as nat);
        lemma_be_digits_drop_last(x, n);
        lemma_be_digits_value(x / 256, (n - 1) as nat);
        assert(pow256(0) == 1);
        assert(x / 1 == x) by (nonlinear_arith);
        assert(s.last() == (x / pow256(0)) % 256);
        assert(s.last() == x % 256);
        assert(be_value(s) == 256 * be_value(s.drop_last()) + s.last());
        assert(be_value(s.drop_last()) == (x / 256) % p);
        lemma_breakdown(x as int, 256, p as int);
        assert(x % (256 * p) == 256 * ((x / 256) % p) + x % 256);
        assert(pow256(n) == 256 * p);
    }
}

/// For equal-length byte strings, lexicographic order is numeric order.
pub proof fn lemma_lex_lt_value(a: Seq<u8>, b: Seq<u8>)
    requires
        a.len() == b.len(),
    ensures
        lex_lt(a, b) <==> be_value(a) < be_value(b),
    decreases a.len(),
{
    if a.len() == 0 {
    } else {
        let p = pow256((a.len() - 1) as nat);
        assert(a =~= seq![a[0]] + a.skip(1));
        assert(b =~= seq![b[0]] + b.skip(1));
        lemma_be_value_prepend(a[0], a.skip(1));
        lemma_be_value_prepend(b[0], b.skip(1));
        lemma_be_value_bound(a.skip(1));
        lemma_be_value_bound(b.skip(1));
        lemma_lex_lt_value(a.skip(1), b.skip(1));
        if a[0] < b[0] {
            assert(a[0] * p + be_value(a.skip(1)) < b[0] * p + be_value(b.skip(1)))
                by (nonlinear_arith)
                requires
                    a[0] < b[0],
                    be_value(a.skip(1)) < p,
            ;
        } else if a[0] > b[0] {
            assert(b[0] * p + be_value(b.skip(1)) < a[0] * p + be_value(a.skip(1)))
                by (nonlinear_arith)
                requires
                    b[0] < a[0],
                    be_value(b.skip(1)) < p,
            ;
        }
    }
}

/// Appending a suffix does not change how a string compares against another
/// string of the original length: the first difference, if any, lies within
/// the common prefix, and a pure extension sorts at or after the original.
pub proof fn lemma_lex_lt_append(a: Seq<u8>, b: Seq<u8>, x: Seq<u8>)
    requires
        a.len() == b.len(),
    ensures
        lex_lt(a + x, b) <==> lex_lt(a, b),
    decreases a.len(),
{
    if a.len() == 0 {
        assert(a + x =~= x);
        assert(!lex_lt(a, b));
        assert(!lex_lt(x, b));
    } else {
        assert((a + x)[0] == a[0]);
        assert((a + x).skip(1) =~= a.skip(1) + x);
        lemma_lex_lt_append(a.skip(1), b.skip(1), x);
    }
}

pub proof fn lemma_pow256_table()
    ensures
        pow256(0) == 1,
        pow256(1) == 0x100,
        pow256(2) == 0x1_0000,
        pow256(3) == 0x100_0000,
        pow256(4) == 0x1_0000_0000,
        pow256(5) == 0x100_0000_0000,
        pow256(6) == 0x1_0000_0000_0000,
        pow256(7) == 0x100_0000_0000_0000,
        pow256(8) == 0x1_0000_0000_0000_0000,
{
    assert(pow256(0) == 1);
    assert(pow256(1) == 256);
    assert(pow256(2) == 0x1_0000);
    assert(pow256(3) == 0x100_0000);
    assert(pow256(4) == 0x1_0000_0000);
    assert(pow256(5) == 0x100_0000_0000);
    assert(pow256(6) == 0x1_0000_0000_0000);
    assert(pow256(7) == 0x100_0000_0000_0000);
}

/// Round trip: decoding the eight big-endian bytes of `x` yields `x`.
pub proof fn lemma_encode_decode(x: u64)
    ensures
        be_value(be_digits(x as nat, 8)) == x,
{
    lemma_pow256_table();
    lemma_be_digits_value(x as nat, 8);
    lemma_small_mod(x as nat, pow256(8));
}

/// Equal-length byte strings are totally ordered by `lex_lt`.
pub proof fn lemma_lex_trichotomy(a: Seq<u8>, b: Seq<u8>)
    requires
        a.len() == b.len(),
    ensures
        a == b || lex_lt(a, b) || lex_lt(b, a),
    decreases a.len(),
{
    if a.len() > 0 && a[0] == b[0] {
        lemma_lex_trichotomy(a.skip(1), b.skip(1));
        if a.skip(1) == b.skip(1) {
            assert forall|i: int| 0 <= i < a.len() implies a[i] == b[i] by {
                if i > 0 {
                    assert(a[i] == a.skip(1)[i - 1]);
                    assert(b[i] == b.skip(1)[i - 1]);
                }
            }
            assert(a =~= b);
        }
    }
}

/// Encoding the decoded value of an eight-byte string gives the string back.
pub proof fn lemma_decode_encode(s: Seq<u8>)
    requires
        s.len() == 8,
    ensures
        be_digits(be_value(s), 8) == s,
{
    lemma_be_value_bound(s);
    lemma_pow256_table();
    lemma_be_digits_value(be_value(s), 8);
    lemma_small_mod(be_value(s), pow256(8));
    let t = be_digits(be_value(s), 8);
    lemma_lex_trichotomy(t, s);
    if lex_lt(t, s) || lex_lt(s, t) {
        lemma_lex_lt_value(t, s);
        lemma_lex_lt_value(s, t);
    }
}

/// Order on extensions restricts to order on equal-length prefixes: if two
/// extended strings compare strictly, their prefixes are equal or compare
/// the same way.
pub proof fn lemma_lex_lt_prefix(a: Seq<u8>, b: Seq<u8>, x: Seq<u8>, y: Seq<u8>)
    requires
        a.len() == b.len(),
        lex_lt(a + x, b + y),
    ensures
        a == b || lex_lt(a, b),
    decreases a.len(),
{
    if a.len() == 0 {
        assert(a =~= b);
    } else {
        assert((a + x)[0] == a[0]);
        assert((b + y)[0] == b[0]);
        if a[0] == b[0] {
            assert((a + x).skip(1) =~= a.skip(1) + x);
            assert((b + y).skip(1) =~= b.skip(1) + y);
            lemma_lex_lt_prefix(a.skip(1), b.skip(1), x, y);
            if a.skip(1) == b.skip(1) {
                assert forall|i: int| 0 <= i < a.len() implies a[i] == b[i] by {
                    if i > 0 {
                        assert(a[i] == a.skip(1)[i - 1]);
                        assert(b[i] == b.skip(1)[i - 1]);
                    }
                }
                assert(a =~= b);
            }
        }
    }
}

/// The bound used by the sweep: a composite reverse-index key, eight
/// big-endian timestamp bytes followed by the entry key, sorts below the
/// encoded bound exactly when its timestamp is numerically below the bound.
pub proof fn lemma_composite_below_bound(ts: u64, key: Seq<u8>, bound: u64)
    ensures
        lex_lt(be_digits(ts as nat, 8) + key, be_digits(bound as nat, 8)) <==> ts < bound,
{
    lemma_lex_lt_append(be_digits(ts as nat, 8), be_digits(bound as nat, 8), key);
    lemma_lex_lt_value(be_digits(ts as nat, 8), be_digits(bound as nat, 8));
    lemma_encode_decode(ts);
    lemma_encode_decode(bound);
}

/// The powers of 256 below `pow256(8)`, as machine integers.
fn pow256_u64(n: usize) -> (r: u64)
    requires
        n < 8,
    ensures
        r == pow256(n as nat),
        r >= 1,
{
    proof {
        lemma_pow256_table();
    }
    match n {
        0 => 1,
        1 => 0x100,
        2 => 0x1_0000,
        3 => 0x100_0000,
        4 => 0x1_0000_0000,
        5 => 0x100_0000_0000,
        6 => 0x1_0000_0000_0000,
        _ => 0x100_0000_0000_0000,
    }
}

/// The eight big-endian bytes of `x`.
pub fn encode_be(x: u64) -> (r: Vec<u8>)
    ensures
        r@ == be_digits(x as nat, 8),
        r@.len() == 8,
{
    proof {
        lemma_pow256_table();
        lemma_small_mod(x as nat, pow256(8));
    }
    let mut out: Vec<u8> = Vec::new();
    let mut rem: u64 = x;
    let mut i: usize = 0;
    while i < 8
        invariant
            i <= 8,
            out@.len() == i,
            rem as nat == (x as nat) % pow256((8 - i) as nat),
            forall|j: int| 0 <= j < i ==> out@[j] == be_digits(x as nat, 8)[j],
        decreases 8 - i,
    {
        let p = pow256_u64(7 - i);
        let d = rem / p;
        proof {
            let xn = x as nat;
            let q = pow256((7 - i) as nat);
            lemma_pow256_pos((7 - i) as nat);
            assert(pow256((8 - i) as nat) == 256 * q);
            let a = (xn / q) % 256;
            let r = xn % q;
            lemma_breakdown(xn as int, q as int, 256);
            assert(xn % (q * 256) == q * ((xn / q) % 256) + xn % q);
            assert(q * 256 == 256 * q) by (nonlinear_arith);
            assert(rem as nat == q * a + r);
            lemma_div_multiples_vanish_fancy(a as int, r as int, q as int);
            assert((q * a + r) / q == a);
            assert(d as nat == a);
            lemma_mod_mod(xn as int, q as int, 256);
            assert((xn % (q * 256)) % q == xn % q);
            assert((rem as nat) % q == xn % q);
            assert(be_digits(xn, 8)[i as int] == ((xn / pow256((7 - i) as nat)) % 256) as u8);
        }
        out.push(d as u8);
        rem = rem % p;
        i = i + 1;
    }
    proof {
        assert(out@ =~= be_digits(x as nat, 8));
    }
    out
}

pub proof fn lemma_pow256_monotone(m: nat, n: nat)
    requires
        m <= n,
    ensures
        pow256(m) <= pow256(n),
    decreases n,
{
    if m < n {
        lemma_pow256_monotone(m, (n - 1) as nat);
        lemma_pow256_pos((n - 1) as nat);
        assert(pow256(n) == 256 * pow256((n - 1) as nat));
        assert(pow256((n - 1) as nat) <= 256 * pow256((n - 1) as nat)) by (nonlinear_arith)
            requires
                pow256((n - 1) as nat) >= 1,
        ;
    }
}

/// The numeric value of the first eight bytes, read big-endian.
pub fn decode_be_prefix(b: &Vec<u8>) -> (r: u64)
    requires
        b@.len() >= 8,
    ensures
        r as nat == be_value(b@.take(8)),
{
    proof {
        lemma_pow256_table();
    }
    let mut acc: u64 = 0;
    let mut i: usize = 0;
    while i < 8
        invariant
            i <= 8,
            b@.len() >= 8,
            acc as nat == be_value(b@.take(i as int)),
            (acc as nat) < pow256(i as nat),
        decreases 8 - i,
    {
        proof {
            lemma_pow256_table();
            lemma_pow256_monotone(i as nat, 7);
            assert(256 * (acc as nat) + 255 < 256 * pow256(7)) by (nonlinear_arith)
                requires
                    (acc as nat) < pow256(7),
            ;
            assert(b@.take(i + 1).drop_last() =~= b@.take(i as int));
            assert(b@.take(i + 1).last() == b@[i as int]);
        }
        acc = acc * 256 + (b[i] as u64);
        i = i + 1;
    }
    acc
}

/// The composite reverse-index key: eight big-endian timestamp bytes
/// followed by the entry's own key.
pub fn reverse_key(expiry: u64, key: &Vec<u8>) -> (r: Vec<u8>)
    ensures
        r@ == be_digits(expiry as nat, 8) + key@,
{
    let mut out = encode_be(expiry);
    let mut j: usize = 0;
    while j < key.len()
        invariant
            j <= key@.len(),
            out@ == be_digits(expiry as nat, 8) + key@.take(j as int),
        decreases key@.len() - j,
    {
        out.push(key[j]);
        j = j + 1;
        proof {
            assert(be_digits(expiry as nat, 8) + key@.take(j as int) =~= (be_digits(
                expiry as nat,
                8,
            ) + key@.take(j - 1)) + seq![key@[j - 1]]);
        }
    }
    proof {
        assert(be_digits(expiry as nat, 8) + key@.take(key@.len() as int) =~= be_digits(
            expiry as nat,
            8,
        ) + key@);
    }
    out
}

/// The bytes of `v` from `start` on.
pub fn tail_from(v: &Vec<u8>, start: usize) -> (r: Vec<u8>)
    requires
        start <= v@.len(),
    ensures
        r@ == v@.skip(start as int),
{
    let mut out: Vec<u8> = Vec::new();
    let mut j: usize = start;
    while j < v.len()
        invariant
            start <= j <= v@.len(),
            out@ == v@.subrange(start as int, j as int),
        decreases v@.len() - j,
    {
        out.push(v[j]);
        j = j + 1;
        proof {
            assert(v@.subrange(start as int, j as int) =~= v@.subrange(start as int, j - 1)
                + seq![v@[j - 1]]);
        }
    }
    proof {
        assert(v@.subrange(start as int, v@.len() as int) =~= v@.skip(start as int));
    }
    out
}

} // verus!
