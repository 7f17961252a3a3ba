//! Big-endian byte strings as unsigned integers: the value of a byte string,
//! fixed-width and minimal encodings, and the lemmas relating them.

use vstd::prelude::*;

verus! {

/// 256 raised to the power `k`.
pub open spec fn pow256(k: nat) -> nat
    decreases k,
{
    if k == 0 {
        1
    } else {
        256 * pow256((k - 1) as nat)
    }
}

/// The unsigned integer value of a big-endian byte string.
pub open spec fn be_val(s: Seq<u8>) -> nat
    decreases s.len(),
{
    if s.len() == 0 {
        0
    } else {
        be_val(s.drop_last()) * 256 + (s.last() as nat)
    }
}

/// The `len`-byte big-endian encoding of `n % pow256(len)`.
pub open spec fn be_fixed(n: nat, len: nat) -> Seq<u8>
    decreases len,
{
    if len == 0 {
        Seq::empty()
    } else {
        be_fixed(n / 256, (len - 1) as nat).push((n % 256) as u8)
    }
}

/// The minimal big-endian encoding of `n`: no leading zero byte, empty for 0.
pub open spec fn min_be(n: nat) -> Seq<u8>
    decreases n,
{
    if n == 0 {
        Seq::empty()
    } else {
        min_be(n / 256).push((n % 256) as u8)
    }
}

pub proof fn lemma_pow256_positive(k: nat)
    ensures
        pow256(k) >= 1,
    decreases k,
{
    if k > 0 {
        lemma_pow256_positive((k - 1) as nat);
    }
}

pub proof fn lemma_pow256_monotone(j: nat, k: nat)
    requires
        j <= k,
    ensures
        pow256(j) <= pow256(k),
    decreases k,
{
    if j < k {
        lemma_pow256_monotone(j, (k - 1) as nat);
        lemma_pow256_positive((k - 1) as nat);
    }
}

pub proof fn lemma_be_fixed_len(n: nat, len: nat)
    ensures
        be_fixed(n, len).len() == len,
    decreases len,
{
    if len > 0 {
        lemma_be_fixed_len(n / 256, (len - 1) as nat);
    }
}

pub proof fn lemma_be_val_bound(s: Seq<u8>)
    ensures
        be_val(s) < pow256(s.len()),
    decreases s.len(),
{
    if s.len() > 0 {
        lemma_be_val_bound(s.drop_last());
        assert(be_val(s.drop_last()) <= pow256((s.len() - 1) as nat) - 1);
        vstd::arithmetic::mul::lemma_mul_inequality(
            be_val(s.drop_last()) as int,
            pow256((s.len() - 1) as nat) - 1,
            256,
        );
    }
}

/// The value of a fixed-width encoding is the encoded number modulo the width.
pub proof fn lemma_be_fixed_val(n: nat, len: nat)
    ensures
        be_val(be_fixed(n, len)) == n % pow256(len),
    decreases len,
{
    if len == 0 {
        assert(n % 1 == 0) by (nonlinear_arith);
    } else {
        let p = pow256((len - 1) as nat);
        lemma_pow256_positive((len - 1) as nat);
        let prev = be_fixed(n / 256, (len - 1) as nat);
        lemma_be_fixed_val(n / 256, (len - 1) as nat);
        assert(be_fixed(n, len).drop_last() =~= prev);
        assert(be_val(be_fixed(n, len)) == be_val(prev) * 256 + n % 256);
        vstd::arithmetic::div_mod::lemma_breakdown(n as int, 256, p as int);
        assert(n % (256 * p) == 256 * ((n / 256) % p) + n % 256);
        assert(pow256(len) == 256 * p);
    }
}

/// A number below the width is encoded and recovered exactly.
pub proof fn lemma_be_fixed_val_small(n: nat, len: nat)
    requires
        n < pow256(len),
    ensures
        be_val(be_fixed(n, len)) == n,
{
    lemma_be_fixed_val(n, len);
    vstd::arithmetic::div_mod::lemma_small_mod(n, pow256(len));
}

/// The value of a concatenation: the left part shifted by the width of the right.
pub proof fn lemma_be_val_concat(a: Seq<u8>, b: Seq<u8>)
    ensures
        be_val(a + b) == be_val(a) * pow256(b.len()) + be_val(b),
    decreases b.len(),
{
    if b.len() == 0 {
        assert(a + b =~= a);
        assert(pow256(b.len()) == 1);
        assert(be_val(b) == 0);
        assert(be_val(a + b) == be_val(a));
        assert(be_val(a + b) == be_val(a) * pow256(b.len()) + be_val(b));
    } else {
        let b0 = b.drop_last();
        lemma_be_val_concat(a, b0);
        assert((a + b).drop_last() =~= a + b0);
        assert((a + b).last() == b.last());
        assert(be_val(a + b) == be_val(a + b0) * 256 + (b.last() as nat));
        assert(be_val(a + b) == (be_val(a) * pow256(b0.len()) + be_val(b0)) * 256 + (
        b.last() as nat));
        assert((be_val(a) * pow256(b0.len()) + be_val(b0)) * 256 == be_val(a) * (256 * pow256(
            b0.len(),
        )) + be_val(b0) * 256) by (nonlinear_arith);
        assert(pow256(b.len()) == 256 * pow256(b0.len()));
        assert(be_val(a) * (256 * pow256(b0.len())) == be_val(a) * pow256(b.len()));
        assert(be_val(b) == be_val(b0) * 256 + (b.last() as nat));
        assert(be_val(a + b) == be_val(a) * pow256(b.len()) + be_val(b));
    }
}

pub proof fn lemma_min_be_val(n: nat)
    ensures
        be_val(min_be(n)) == n,
        n > 0 ==> min_be(n).len() > 0 && min_be(n)[0] != 0,
        n > 0 ==> min_be(n).first() != 0,
    decreases n,
{
    if n > 0 {
        lemma_min_be_val(n / 256);
        let s = min_be(n);
        assert(s.drop_last() =~= min_be(n / 256));
        if n / 256 == 0 {
            assert(s.len() == 1);
            assert(s[0] == n % 256);
            assert(n % 256 != 0) by (nonlinear_arith)
                requires
                    n > 0,
                    n / 256 == 0,
            ;
        } else {
            assert(s[0] == min_be(n / 256)[0]);
        }
    }
}

/// A minimal encoding of a number below `pow256(k)` takes at most `k` bytes.
pub proof fn lemma_min_be_len(n: nat, k: nat)
    requires
        n < pow256(k),
    ensures
        min_be(n).len() <= k,
    decreases n,
{
    if n > 0 {
        if k == 0 {
        } else {
            assert(n / 256 < pow256((k - 1) as nat)) by (nonlinear_arith)
                requires
                    n < pow256(k),
                    pow256(k) == 256 * pow256((k - 1) as nat),
            ;
            lemma_min_be_len(n / 256, (k - 1) as nat);
        }
    }
}

/// A fixed-width encoding is the minimal one left-padded with zero bytes.
pub proof fn lemma_be_fixed_is_padded_min_be(n: nat, len: nat)
    requires
        n < pow256(len),
    ensures
        min_be(n).len() <= len,
        be_fixed(n, len) =~= Seq::new((len - min_be(n).len()) as nat, |i: int| 0u8) + min_be(n),
    decreases len,
{
    lemma_min_be_len(n, len);
    if len > 0 {
        lemma_pow256_positive((len - 1) as nat);
        assert(n / 256 < pow256((len - 1) as nat)) by (nonlinear_arith)
            requires
                n < pow256(len),
                pow256(len) == 256 * pow256((len - 1) as nat),
        ;
        lemma_be_fixed_is_padded_min_be(n / 256, (len - 1) as nat);
        if n == 0 {
            assert(min_be(n).len() == 0);
            assert(0nat / 256 == 0nat);
            assert(0nat % 256 == 0nat);
            assert(be_fixed(0, len) =~= Seq::new(len, |i: int| 0u8)) by {
                assert(be_fixed(0, (len - 1) as nat) =~= Seq::new((len - 1) as nat, |i: int| 0u8)
                    + min_be(0));
                assert(be_fixed(0, (len - 1) as nat) =~= Seq::new((len - 1) as nat, |i: int| 0u8));
            }
        } else {
            assert(min_be(n) =~= min_be(n / 256).push((n % 256) as u8));
        }
    }
}

/// Converts a `u64` to its 8-byte big-endian encoding.
pub fn u64_to_be8(x: u64) -> (r: Vec<u8>)
    ensures
        r@ == be_fixed(x as nat, 8),
        r@.len() == 8,
{
    proof {
        lemma_be_fixed_len(x as nat, 8);
        vstd::arithmetic::div_mod::lemma_div_basics(x as int);
    }
    let mut rev: Vec<u8> = Vec::new();
    let mut tmp: u64 = x;
    let mut i: usize = 0;
    while i < 8
        invariant
            i <= 8,
            be_fixed(x as nat, 8).len() == 8,
            rev@.len() == i,
            forall|j: int| 0 <= j < i ==> rev@[j] == be_fixed(x as nat, 8)[7 - j],
            tmp as nat == (x as nat) / pow256(i as nat),
        decreases 8 - i,
    {
        proof {
            lemma_be_fixed_index(x as nat, 8, i as nat);
            lemma_pow256_positive(i as nat);
            vstd::arithmetic::div_mod::lemma_div_denominator(x as int, pow256(i as nat) as int, 256);
            lemma_pow256_mul(i as nat);
        }
        rev.push((tmp % 256) as u8);
        tmp = tmp / 256;
        i = i + 1;
    }
    let mut r: Vec<u8> = Vec::new();
    let mut j: usize = 0;
    while j < 8
        invariant
            j <= 8,
            be_fixed(x as nat, 8).len() == 8,
            rev@.len() == 8,
            forall|k: int| 0 <= k < 8 ==> rev@[k] == be_fixed(x as nat, 8)[7 - k],
            r@.len() == j,
            forall|k: int| 0 <= k < j ==> r@[k] == be_fixed(x as nat, 8)[k],
        decreases 8 - j,
    {
        r.push(rev[8 - 1 - j]);
        j = j + 1;
    }
    proof {
        assert(r@ =~= be_fixed(x as nat, 8));
    }
    r
}

pub proof fn lemma_pow256_add(a: nat, b: nat)
    ensures
        pow256(a + b) == pow256(a) * pow256(b),
    decreases a,
{
    if a == 0 {
        assert(pow256(0) == 1);
    } else {
        lemma_pow256_add((a - 1) as nat, b);
        assert(pow256(a + b) == 256 * pow256((a - 1) as nat + b));
        assert(256 * (pow256((a - 1) as nat) * pow256(b)) == (256 * pow256((a - 1) as nat))
            * pow256(b)) by (nonlinear_arith);
        assert(pow256(a) == 256 * pow256((a - 1) as nat));
    }
}

/// Splitting off the most significant byte.
pub proof fn lemma_be_val_first(s: Seq<u8>)
    requires
        s.len() > 0,
    ensures
        be_val(s) == (s[0] as nat) * pow256((s.len() - 1) as nat) + be_val(
            s.subrange(1, s.len() as int),
        ),
{
    let head = s.take(1);
    let tail = s.subrange(1, s.len() as int);
    assert(s =~= head + tail);
    lemma_be_val_concat(head, tail);
    assert(head.drop_last() =~= Seq::<u8>::empty());
    assert(be_val(Seq::<u8>::empty()) == 0);
    assert(head.last() == s[0]);
    assert(be_val(head) == be_val(head.drop_last()) * 256 + (head.last() as nat));
    assert(be_val(head) == s[0] as nat);
}

/// Two byte strings of one length with one value are the same string.
pub proof fn lemma_be_val_injective(s: Seq<u8>, t: Seq<u8>)
    requires
        s.len() == t.len(),
        be_val(s) == be_val(t),
    ensures
        s =~= t,
    decreases s.len(),
{
    if s.len() > 0 {
        let vs = be_val(s.drop_last());
        let vt = be_val(t.drop_last());
        assert(vs * 256 + (s.last() as nat) == vt * 256 + (t.last() as nat));
        vstd::arithmetic::div_mod::lemma_fundamental_div_mod_converse(
            be_val(s) as int,
            256,
            vs as int,
            s.last() as int,
        );
        vstd::arithmetic::div_mod::lemma_fundamental_div_mod_converse(
            be_val(t) as int,
            256,
            vt as int,
            t.last() as int,
        );
        lemma_be_val_injective(s.drop_last(), t.drop_last());
        assert(s =~= s.drop_last().push(s.last()));
        assert(t =~= t.drop_last().push(t.last()));
    }
}

/// A byte string has value zero exactly when every byte is zero.
pub proof fn lemma_be_val_zero_iff(s: Seq<u8>)
    ensures
        (be_val(s) == 0) <==> (forall|i: int| 0 <= i < s.len() ==> s[i] == 0),
    decreases s.len(),
{
    if s.len() > 0 {
        lemma_be_val_zero_iff(s.drop_last());
        let prev = be_val(s.drop_last());
        assert(be_val(s) == prev * 256 + (s.last() as nat));
        if be_val(s) == 0 {
            assert(prev == 0 && s.last() == 0);
            assert(forall|i: int| 0 <= i < s.len() - 1 ==> s[i] == s.drop_last()[i]);
        } else {
            if forall|i: int| 0 <= i < s.len() ==> s[i] == 0 {
                assert(forall|i: int|
                    0 <= i < s.drop_last().len() ==> #[trigger] s.drop_last()[i] == s[i]);
                assert(prev == 0);
                assert(s.last() == 0);
                assert(false);
            }
        }
    }
}

/// Converts a `u64` to its minimal big-endian encoding: no leading zero
/// byte, and the empty string for zero.
pub fn u64_to_min_be(x: u64) -> (r: Vec<u8>)
    ensures
        r@ == min_be(x as nat),
        r@.len() <= 8,
{
    let full = u64_to_be8(x);
    proof {
        lemma_u64_bound_pow(x);
        lemma_be_fixed_is_padded_min_be(x as nat, 8);
        lemma_min_be_val(x as nat);
    }
    let ghost m = min_be(x as nat).len();
    let mut k: usize = 0;
    while k < 8 && full[k] == 0
        invariant
            k <= 8 - m,
            full@.len() == 8,
            full@ =~= Seq::new((8 - m) as nat, |i: int| 0u8) + min_be(x as nat),
            m == min_be(x as nat).len(),
            m <= 8,
            x > 0 ==> min_be(x as nat)[0] != 0,
        decreases 8 - k,
    {
        proof {
            if k + 1 > 8 - m {
                assert(k == 8 - m);
                assert(x > 0) by {
                    if x == 0 {
                        assert(min_be(0nat) =~= Seq::<u8>::empty());
                        assert(m == 0);
                        assert(k == 8);
                    }
                }
                assert(full@[k as int] == min_be(x as nat)[0]);
                assert(false);
            }
        }
        k = k + 1;
    }
    proof {
        if k < 8 {
            assert(k >= 8 - m) by {
                if k < 8 - m {
                    assert(full@[k as int] == 0);
                }
            }
            assert(k == 8 - m);
        } else {
            assert(m == 0) by {
                if m > 0 {
                    assert(x > 0) by {
                        if x == 0 {
                            assert(min_be(0nat) =~= Seq::<u8>::empty());
                        }
                    }
                    assert(full@[(8 - m) as int] == min_be(x as nat)[0]);
                    assert(full@[(8 - m) as int] == 0);
                }
            }
        }
        assert(k == 8 - m);
    }
    let mut r: Vec<u8> = Vec::new();
    let mut j: usize = k;
    while j < 8
        invariant
            k <= j <= 8,
            full@.len() == 8,
            k == 8 - m,
            m == min_be(x as nat).len(),
            full@ =~= Seq::new((8 - m) as nat, |i: int| 0u8) + min_be(x as nat),
            r@.len() == j - k,
            forall|t: int| 0 <= t < j - k ==> r@[t] == min_be(x as nat)[t],
        decreases 8 - j,
    {
        r.push(full[j]);
        j = j + 1;
    }
    proof {
        assert(r@ =~= min_be(x as nat));
    }
    r
}

/// A `u64` is below `pow256(8)`, which is two to the sixty-fourth power.
pub proof fn lemma_u64_bound_pow(x: u64)
    ensures
        (x as nat) < pow256(8),
        pow256(8) == 0x10000000000000000,
{
    assert(pow256(0) == 1);
    assert(pow256(1) == 256);
    assert(pow256(2) == 0x10000);
    assert(pow256(3) == 0x1000000);
    assert(pow256(4) == 0x100000000);
    assert(pow256(5) == 0x10000000000);
    assert(pow256(6) == 0x1000000000000);
    assert(pow256(7) == 0x100000000000000);
    assert(pow256(8) == 0x10000000000000000);
}

/// `pow256(k) * 256 == pow256(k + 1)`.
pub proof fn lemma_pow256_mul(k: nat)
    ensures
        pow256(k) * 256 == pow256((k + 1) as nat),
    decreases k,
{
    if k > 0 {
        lemma_pow256_mul((k - 1) as nat);
    }
}

/// Byte `i` (from the most significant end) of a fixed-width encoding.
pub proof fn lemma_be_fixed_index(n: nat, len: nat, i: nat)
    requires
        i < len,
    ensures
        be_fixed(n, len).len() == len,
        be_fixed(n, len)[(len - 1 - i) as int] == ((n / pow256(i)) % 256) as u8,
    decreases len,
{
    lemma_be_fixed_len(n, len);
    if i == 0 {
        vstd::arithmetic::div_mod::lemma_div_basics(n as int);
        assert(n / pow256(0) == n);
    } else {
        lemma_be_fixed_index(n / 256, (len - 1) as nat, (i - 1) as nat);
        lemma_be_fixed_len(n / 256, (len - 1) as nat);
        assert(be_fixed(n, len)[(len - 1 - i) as int] == be_fixed(n / 256, (len - 1) as nat)[(len
            - 2 - (i - 1)) as int]);
        lemma_pow256_positive((i - 1) as nat);
        vstd::arithmetic::div_mod::lemma_div_denominator(
            n as int,
            256,
            pow256((i - 1) as nat) as int,
        );
        assert(pow256(i) == 256 * pow256((i - 1) as nat));
    }
}

} // verus!
