//! A 256-bit unsigned value held as 32 big-endian bytes, with wrapping and
//! saturating arithmetic.

use vstd::prelude::*;

use crate::words::{
    be_fixed, be_val, lemma_be_fixed_is_padded_min_be, lemma_be_fixed_len, lemma_be_fixed_val,
    lemma_be_val_bound, lemma_be_val_first, lemma_be_val_injective, lemma_pow256_add,
    lemma_pow256_monotone, lemma_pow256_mul, lemma_pow256_positive, pow256, u64_to_be8,
};

verus! {

/// A 256-bit unsigned integer: exactly 32 raw bytes, big-endian, immutable.
#[derive(Debug)]
pub struct U256 {
    bytes: Vec<u8>,
}

impl View for U256 {
    type V = Seq<u8>;

    closed spec fn view(&self) -> Seq<u8> {
        self.bytes@
    }
}

impl U256 {
    /// The invariant: a `U256` always holds exactly 32 bytes.
    #[verifier::type_invariant]
    pub open spec fn wf(self) -> bool {
        self@.len() == 32
    }

    /// The mathematical value of this word: its bytes read in big-endian order.
    pub open spec fn value(self) -> nat {
        be_val(self@)
    }

    /// The largest representable value, `pow256(32) - 1`.
    pub open spec fn max_value() -> nat {
        (pow256(32) - 1) as nat
    }

    pub fn new(bytes: [u8; 32]) -> (r: Self)
        ensures
            r@ == bytes@,
            r@.len() == 32,
    {
        let mut v: Vec<u8> = Vec::new();
        let mut i: usize = 0;
        while i < 32
            invariant
                i <= 32,
                v@.len() == i,
            forall|j: int| 0 <= j < i ==> v@[j] == bytes@[j],
            decreases 32 - i,
        {
            v.push(bytes[i]);
            i = i + 1;
        }
        proof {
            assert(v@ =~= bytes@);
        }
        U256 { bytes: v }
    }

    pub fn zero() -> (r: Self)
        ensures
            r@ == be_fixed(0, 32),
            r.value() == 0,
            r@.len() == 32,
    {
        proof {
            lemma_be_fixed_len(0, 32);
        }
        let mut v: Vec<u8> = Vec::new();
        let mut i: usize = 0;
        while i < 32
            invariant
                i <= 32,
                v@ =~= be_fixed(0, 32).take(i as int),
                be_fixed(0, 32).len() == 32,
            decreases 32 - i,
        {
            proof {
                lemma_be_fixed_zero(32);
                assert(be_fixed(0, 32).take(i + 1) =~= be_fixed(0, 32).take(i as int).push(
                    be_fixed(0, 32)[i as int],
                ));
            }
            v.push(0u8);
            i = i + 1;
        }
        proof {
            lemma_be_fixed_len(0, 32);
            assert(v@ =~= be_fixed(0, 32));
            lemma_be_fixed_val(0, 32);
            lemma_pow256_positive(32);
            vstd::arithmetic::div_mod::lemma_small_mod(0, pow256(32));
        }
        U256 { bytes: v }
    }

    /// The word with all bits set.
    pub fn max() -> (r: Self)
        ensures
            r@ == all_ff(32),
            r.value() == Self::max_value(),
            r@.len() == 32,
    {
        let mut v: Vec<u8> = Vec::new();
        let mut i: usize = 0;
        while i < 32
            invariant
                i <= 32,
                v@.len() == i,
                forall|j: int| 0 <= j < i ==> v@[j] == 0xffu8,
            decreases 32 - i,
        {
            v.push(0xffu8);
            i = i + 1;
        }
        proof {
            assert(v@ =~= all_ff(32));
            lemma_all_ff_val(32);
        }
        U256 { bytes: v }
    }

    pub fn from_u64(value: u64) -> (r: Self)
        ensures
            r@ == be_fixed(value as nat, 32),
            r.value() == value,
            r@.len() == 32,
    {
        let mut v: Vec<u8> = Vec::new();
        let mut i: usize = 0;
        while i < 24
            invariant
                i <= 24,
                v@.len() == i,
                forall|j: int| 0 <= j < i ==> v@[j] == 0u8,
            decreases 24 - i,
        {
            v.push(0u8);
            i = i + 1;
        }
        let mut tail = u64_to_be8(value);
        let ghost zeros = v@;
        let ghost tail_view = tail@;
        v.append(&mut tail);
        proof {
            crate::words::lemma_u64_bound_pow(value);
            lemma_be_fixed_widen(value as nat, 8, 32);
            assert(v@ =~= zeros + tail_view);
            assert(zeros =~= Seq::new(24, |i: int| 0u8));
            assert(v@ =~= be_fixed(value as nat, 32));
            lemma_be_fixed_val(value as nat, 32);
            lemma_pow256_monotone(8, 32);
            vstd::arithmetic::div_mod::lemma_small_mod(value as nat, pow256(32));
        }
        U256 { bytes: v }
    }

    /// Left-pads with zeroes when fewer than 32 bytes are given, and keeps
    /// only the first 32 bytes when more are given.
    pub fn from_big_endian(bytes: &[u8]) -> (r: Self)
        ensures
            r@ == pad32(bytes@),
            r@.len() == 32,
    {
        let n = bytes.len();
        let mut v: Vec<u8> = Vec::new();
        if n >= 32 {
            let mut i: usize = 0;
            while i < 32
                invariant
                    i <= 32,
                    n == bytes@.len(),
                    n >= 32,
                    v@.len() == i,
                    forall|j: int| 0 <= j < i ==> v@[j] == bytes@[j],
                decreases 32 - i,
            {
                v.push(*vstd::slice::slice_index_get(bytes, i));
                i = i + 1;
            }
            proof {
                assert(v@ =~= pad32(bytes@));
            }
        } else {
            let pad = 32 - n;
            let mut i: usize = 0;
            while i < pad
                invariant
                    i <= pad,
                    v@.len() == i,
                    forall|j: int| 0 <= j < i ==> v@[j] == 0u8,
                decreases pad - i,
            {
                v.push(0u8);
                i = i + 1;
            }
            let mut i: usize = 0;
            while i < n
                invariant
                    i <= n,
                    n == bytes@.len(),
                    n < 32,
                    pad == 32 - n,
                    v@.len() == pad + i,
                    forall|j: int| 0 <= j < pad ==> v@[j] == 0u8,
                    forall|j: int| 0 <= j < i ==> v@[pad + j] == bytes@[j],
                decreases n - i,
            {
                v.push(*vstd::slice::slice_index_get(bytes, i));
                i = i + 1;
            }
            proof {
                assert(v@ =~= pad32(bytes@));
            }
        }
        U256 { bytes: v }
    }

    /// Byte-wise addition with carry over the 32 big-endian bytes; the second
    /// result is the final carry out of the most significant byte.
    fn add_with_carry(&self, other: &U256) -> (res: (Vec<u8>, bool))
        ensures
            res.0@.len() == 32,
            self.value() + other.value() == (if res.1 {
                pow256(32)
            } else {
                0
            }) + be_val(res.0@),
    {
        proof {
            use_type_invariant(self);
            use_type_invariant(other);
        }
        let mut r: Vec<u8> = Vec::new();
        let mut i: usize = 0;
        while i < 32
            invariant
                i <= 32,
                r@.len() == i,
            decreases 32 - i,
        {
            r.push(0u8);
            i = i + 1;
        }
        let mut carry: u16 = 0;
        let mut k: usize = 0;
        proof {
            assert(self@.subrange(32, 32) =~= Seq::<u8>::empty());
            assert(other@.subrange(32, 32) =~= Seq::<u8>::empty());
            assert(r@.subrange(32, 32) =~= Seq::<u8>::empty());
        }
        while k < 32
            invariant
                k <= 32,
                carry <= 1,
                self@.len() == 32,
                other@.len() == 32,
                r@.len() == 32,
                be_val(self@.subrange(32 - k, 32)) + be_val(other@.subrange(32 - k, 32)) == (
                carry as nat) * pow256(k as nat) + be_val(r@.subrange(32 - k, 32)),
            decreases 32 - k,
        {
            let i = 31 - k;
            let t: u16 = self.bytes[i] as u16 + other.bytes[i] as u16 + carry;
            let lo: u8 = (t % 256) as u8;
            let hi: u16 = t / 256;
            let ghost r_old = r@;
            r[i] = lo;
            proof {
                lemma_add_carry_step(self@, other@, r_old, r@, i as int, carry as nat, t as nat, k as nat);
            }
            carry = hi;
            k = k + 1;
        }
        proof {
            assert(self@.subrange(0, 32) =~= self@);
            assert(other@.subrange(0, 32) =~= other@);
            assert(r@.subrange(0, 32) =~= r@);
        }
        (r, carry == 1)
    }

    /// Addition modulo `pow256(32)`: the carry out of the top byte is dropped.
    pub fn add(&self, other: &U256) -> (r: U256)
        ensures
            r@ == be_fixed(self.value() + other.value(), 32),
            r.value() == (self.value() + other.value()) % pow256(32),
            r@.len() == 32,
    {
        let (sum, carry) = self.add_with_carry(other);
        proof {
            use_type_invariant(self);
            use_type_invariant(other);
            lemma_be_val_bound(self@);
            lemma_be_val_bound(other@);
            lemma_sum_bytes_are_wrapped(self.value(), other.value(), sum@, carry);
        }
        U256 { bytes: sum }
    }

    /// Addition that returns the largest representable value instead of
    /// wrapping when the true sum does not fit.
    pub fn saturating_add(&self, other: &U256) -> (r: U256)
        ensures
            r.value() == if self.value() + other.value() <= Self::max_value() {
                self.value() + other.value()
            } else {
                Self::max_value()
            },
            r@ == if self.value() + other.value() <= Self::max_value() {
                be_fixed(self.value() + other.value(), 32)
            } else {
                all_ff(32)
            },
            r@.len() == 32,
    {
        let (sum, carry) = self.add_with_carry(other);
        proof {
            use_type_invariant(self);
            use_type_invariant(other);
            lemma_be_val_bound(self@);
            lemma_be_val_bound(other@);
            lemma_be_val_bound(sum@);
            lemma_pow256_positive(32);
        }
        if carry {
            Self::max()
        } else {
            proof {
                lemma_sum_bytes_are_wrapped(self.value(), other.value(), sum@, carry);
                vstd::arithmetic::div_mod::lemma_small_mod(
                    self.value() + other.value(),
                    pow256(32),
                );
            }
            U256 { bytes: sum }
        }
    }

    /// Splits the word into four 64-bit limbs, least significant first.
    fn to_le_limbs(&self) -> (r: Vec<u64>)
        ensures
            r@.len() == 4,
            limbs_val(r@) == self.value(),
    {
        proof {
            use_type_invariant(self);
        }
        let mut limbs: Vec<u64> = Vec::new();
        let mut k: usize = 0;
        while k < 4
            invariant
                k <= 4,
                self@.len() == 32,
                limbs@.len() == k,
                forall|kk: int|
                    0 <= kk < k ==> (limbs@[kk] as nat) == be_val(
                        self@.subrange(24 - 8 * kk, 32 - 8 * kk),
                    ),
            decreases 4 - k,
        {
            let start = 24 - 8 * k;
            let mut acc: u64 = 0;
            let mut j: usize = 0;
            proof {
                assert(self@.subrange(start as int, start as int) =~= Seq::<u8>::empty());
                assert(be_val(Seq::<u8>::empty()) == 0);
                assert(pow256(0) == 1);
            }
            while j < 8
                invariant
                    j <= 8,
                    self@.len() == 32,
                    k < 4,
                    start == 24 - 8 * k,
                    (acc as nat) == be_val(self@.subrange(start as int, start + j)),
                    (acc as nat) < pow256(j as nat),
                decreases 8 - j,
            {
                proof {
                    let s = self@.subrange(start as int, start + j + 1);
                    assert(s.drop_last() =~= self@.subrange(start as int, start + j));
                    assert(s.last() == self@[start + j]);
                    lemma_pow256_monotone((j + 1) as nat, 8);
                    lemma_pow256_u64();
                    lemma_pow256_mul(j as nat);
                    vstd::arithmetic::mul::lemma_mul_inequality(
                        acc as int,
                        pow256(j as nat) - 1,
                        256,
                    );
                }
                acc = acc * 256 + (self.bytes[start + j] as u64);
                j = j + 1;
            }
            proof {
                assert(self@.subrange(start as int, start + 8) =~= self@.subrange(
                    24 - 8 * (k as int),
                    32 - 8 * (k as int),
                ));
            }
            limbs.push(acc);
            k = k + 1;
        }
        proof {
            lemma_le_limbs_of_bytes(self@, limbs@);
        }
        limbs
    }

    /// Multiplication that returns the largest representable value instead of
    /// wrapping when the true product does not fit. The product is formed
    /// limb by limb with 128-bit intermediates into an eight-limb result; a
    /// nonzero upper half means the product has overflowed 256 bits.
    pub fn saturating_mul(&self, other: &U256) -> (r: U256)
        ensures
            r.value() == if self.value() * other.value() <= Self::max_value() {
                self.value() * other.value()
            } else {
                Self::max_value()
            },
            r@ == if self.value() * other.value() <= Self::max_value() {
                be_fixed(self.value() * other.value(), 32)
            } else {
                all_ff(32)
            },
            r@.len() == 32,
    {
        proof {
            use_type_invariant(self);
            use_type_invariant(other);
            lemma_be_val_bound(self@);
            lemma_be_val_bound(other@);
            lemma_pow256_u64();
            lemma_pow256_add(32, 32);
        }
        let ghost va = self.value();
        let ghost vb = other.value();
        let la = self.to_le_limbs();
        let lb = other.to_le_limbs();
        let mut out: Vec<u64> = Vec::new();
        let mut z: usize = 0;
        while z < 8
            invariant
                z <= 8,
                out@.len() == z,
                forall|t: int| 0 <= t < z ==> out@[t] == 0u64,
            decreases 8 - z,
        {
            out.push(0u64);
            z = z + 1;
        }
        proof {
            lemma_limbs_val_zero_iff(out@);
            assert(la@.take(0) =~= Seq::<u64>::empty());
            assert(limbs_val(la@.take(0)) == 0);
            vstd::arithmetic::mul::lemma_mul_basics(limbs_val(lb@) as int);
        }
        let mut i: usize = 0;
        while i < 4
            invariant
                i <= 4,
                la@.len() == 4,
                lb@.len() == 4,
                out@.len() == 8,
                limbs_val(la@) == va,
                limbs_val(lb@) == vb,
                va < pow256(32),
                vb < pow256(32),
                limbs_val(out@) == limbs_val(la@.take(i as int)) * limbs_val(lb@),
            decreases 4 - i,
        {
            let mut j: usize = 0;
            proof {
                assert(lb@.take(0) =~= Seq::<u64>::empty());
                vstd::arithmetic::mul::lemma_mul_basics(la@[i as int] as int);
            }
            while j < 4
                invariant
                    i < 4,
                    j <= 4,
                    la@.len() == 4,
                    lb@.len() == 4,
                    out@.len() == 8,
                    limbs_val(la@) == va,
                    limbs_val(lb@) == vb,
                    va < pow256(32),
                    vb < pow256(32),
                    limbs_val(out@) == limbs_val(la@.take(i as int)) * limbs_val(lb@) + (
                    la@[i as int] as nat) * limbs_val(lb@.take(j as int)) * pow256(8 * i as nat),
                decreases 4 - j,
            {
                proof {
                    lemma_pow256_u64();
                    lemma_mul_step_bound(la@, lb@, i as nat, j as nat, limbs_val(out@));
                }
                let p: u128 = la[i] as u128 * lb[j] as u128;
                acc_add(&mut out, i + j, p);
                proof {
                    lemma_mul_step_after(la@, lb@, i as nat, j as nat, (p as nat), limbs_val(out@));
                }
                j = j + 1;
            }
            proof {
                assert(lb@.take(4) =~= lb@);
                lemma_limbs_val_take(la@, i as nat);
                vstd::arithmetic::mul::lemma_mul_is_distributive_add_other_way(
                    limbs_val(lb@) as int,
                    limbs_val(la@.take(i as int)) as int,
                    ((la@[i as int] as nat) * pow256(8 * i as nat)) as int,
                );
                vstd::arithmetic::mul::lemma_mul_is_associative(
                    la@[i as int] as int,
                    pow256(8 * i as nat) as int,
                    limbs_val(lb@) as int,
                );
                vstd::arithmetic::mul::lemma_mul_is_commutative(
                    pow256(8 * i as nat) as int,
                    limbs_val(lb@) as int,
                );
                vstd::arithmetic::mul::lemma_mul_is_associative(
                    la@[i as int] as int,
                    limbs_val(lb@) as int,
                    pow256(8 * i as nat) as int,
                );
            }
            i = i + 1;
        }
        proof {
            assert(la@.take(4) =~= la@);
            assert(limbs_val(out@) == va * vb);
        }
        let high_zero = out[4] == 0 && out[5] == 0 && out[6] == 0 && out[7] == 0;
        proof {
            assert(out@ =~= out@.take(4) + out@.skip(4));
            lemma_limbs_val_concat(out@.take(4), out@.skip(4));
            lemma_limbs_val_zero_iff(out@.skip(4));
            lemma_limbs_val_bound(out@.take(4));
            lemma_pow256_positive(32);
        }
        if high_zero {
            proof {
                assert(forall|t: int| 0 <= t < 4 ==> out@.skip(4)[t] == out@[t + 4]);
                assert(limbs_val(out@.skip(4)) == 0);
                assert(va * vb == limbs_val(out@.take(4)) + pow256(32) * 0);
                assert(va * vb < pow256(32));
            }
            let mut low: Vec<u64> = Vec::new();
            low.push(out[0]);
            low.push(out[1]);
            low.push(out[2]);
            low.push(out[3]);
            proof {
                assert(low@ =~= out@.take(4));
            }
            let bytes = Self::le_limbs_to_bytes(&low);
            proof {
                lemma_be_fixed_val(va * vb, 32);
                vstd::arithmetic::div_mod::lemma_small_mod(va * vb, pow256(32));
                lemma_be_fixed_len(va * vb, 32);
                lemma_be_val_injective(bytes@, be_fixed(va * vb, 32));
            }
            U256 { bytes }
        } else {
            proof {
                let high = limbs_val(out@.skip(4));
                assert(out@.skip(4).len() == 4);
                assert(exists|t: int| 0 <= t < 4 && out@.skip(4)[t] != 0) by {
                    if out@[4] != 0 {
                        assert(out@.skip(4)[0] != 0);
                    } else if out@[5] != 0 {
                        assert(out@.skip(4)[1] != 0);
                    } else if out@[6] != 0 {
                        assert(out@.skip(4)[2] != 0);
                    } else {
                        assert(out@.skip(4)[3] != 0);
                    }
                }
                assert(high != 0);
                assert(pow256(32) * high >= pow256(32)) by (nonlinear_arith)
                    requires
                        high >= 1,
                        pow256(32) >= 1,
                ;
                assert(va * vb >= pow256(32));
            }
            Self::max()
        }
    }

    /// Reassembles four little-endian limbs into 32 big-endian bytes.
    fn le_limbs_to_bytes(ls: &Vec<u64>) -> (r: Vec<u8>)
        requires
            ls@.len() == 4,
        ensures
            r@.len() == 32,
            be_val(r@) == limbs_val(ls@),
    {
        let mut r = u64_to_be8(ls[3]);
        let mut p2 = u64_to_be8(ls[2]);
        let mut p1 = u64_to_be8(ls[1]);
        let mut p0 = u64_to_be8(ls[0]);
        let ghost a3 = r@;
        let ghost a2 = p2@;
        let ghost a1 = p1@;
        let ghost a0 = p0@;
        r.append(&mut p2);
        r.append(&mut p1);
        r.append(&mut p0);
        proof {
            assert(r@ =~= a3 + a2 + a1 + a0);
            assert(r@.subrange(0, 8) =~= a3);
            assert(r@.subrange(8, 16) =~= a2);
            assert(r@.subrange(16, 24) =~= a1);
            assert(r@.subrange(24, 32) =~= a0);
            crate::words::lemma_u64_bound_pow(ls[3]);
            crate::words::lemma_u64_bound_pow(ls[2]);
            crate::words::lemma_u64_bound_pow(ls[1]);
            crate::words::lemma_u64_bound_pow(ls[0]);
            crate::words::lemma_be_fixed_val_small(ls@[3] as nat, 8);
            crate::words::lemma_be_fixed_val_small(ls@[2] as nat, 8);
            crate::words::lemma_be_fixed_val_small(ls@[1] as nat, 8);
            crate::words::lemma_be_fixed_val_small(ls@[0] as nat, 8);
            lemma_le_limbs_of_bytes(r@, ls@);
        }
        r
    }

    /// Division by a small positive divisor, byte by byte from the most
    /// significant end.
    pub fn div_by_u64(&self, divisor: u64) -> (r: U256)
        requires
            divisor >= 1,
        ensures
            r.value() == self.value() / (divisor as nat),
            r@ == be_fixed(self.value() / (divisor as nat), 32),
            r@.len() == 32,
    {
        proof {
            use_type_invariant(self);
            lemma_be_val_bound(self@);
            lemma_pow256_u64();
        }
        let mut q: Vec<u8> = Vec::new();
        let mut rem: u64 = 0;
        let mut i: usize = 0;
        proof {
            assert(self@.subrange(0, 0) =~= Seq::<u8>::empty());
            assert(be_val(Seq::<u8>::empty()) == 0);
        }
        while i < 32
            invariant
                i <= 32,
                self@.len() == 32,
                q@.len() == i,
                divisor >= 1,
                rem < divisor,
                be_val(self@.subrange(0, i as int)) == be_val(q@) * (divisor as nat) + rem,
            decreases 32 - i,
        {
            let cur: u128 = rem as u128 * 256 + self.bytes[i] as u128;
            let digit: u128 = cur / (divisor as u128);
            let new_rem: u128 = cur % (divisor as u128);
            proof {
                lemma_div_step(self@, q@, i as int, rem as nat, divisor as nat, cur as nat);
            }
            q.push(digit as u8);
            rem = new_rem as u64;
            i = i + 1;
        }
        proof {
            assert(self@.subrange(0, 32) =~= self@);
            vstd::arithmetic::div_mod::lemma_fundamental_div_mod_converse(
                be_val(self@) as int,
                divisor as int,
                be_val(q@) as int,
                rem as int,
            );
            lemma_be_fixed_val(self.value() / (divisor as nat), 32);
            vstd::arithmetic::div_mod::lemma_div_nonincreasing(be_val(self@) as int, divisor as int);
            vstd::arithmetic::div_mod::lemma_small_mod(
                self.value() / (divisor as nat),
                pow256(32),
            );
            lemma_be_fixed_len(self.value() / (divisor as nat), 32);
            lemma_be_val_injective(q@, be_fixed(self.value() / (divisor as nat), 32));
        }
        U256 { bytes: q }
    }

    /// Whether this word is zero.
    pub fn is_zero(&self) -> (r: bool)
        ensures
            r == (self.value() == 0),
    {
        proof {
            use_type_invariant(self);
            crate::words::lemma_be_val_zero_iff(self@);
        }
        let mut i: usize = 0;
        while i < 32
            invariant
                i <= 32,
                self@.len() == 32,
                forall|j: int| 0 <= j < i ==> self@[j] == 0,
            decreases 32 - i,
        {
            if self.bytes[i] != 0 {
                proof {
                    crate::words::lemma_be_val_zero_iff(self@);
                    if be_val(self@) == 0 {
                        assert(self@[i as int] == 0);
                        assert(false);
                    }
                }
                return false;
            }
            i = i + 1;
        }
        proof {
            crate::words::lemma_be_val_zero_iff(self@);
        }
        true
    }

    pub fn to_big_endian(&self) -> (r: Vec<u8>)
        ensures
            r@ == self@,
            r@.len() == 32,
    {
        proof {
            use_type_invariant(self);
        }
        let mut v: Vec<u8> = Vec::new();
        let mut i: usize = 0;
        while i < 32
            invariant
                i <= 32,
                self@.len() == 32,
                v@.len() == i,
                forall|j: int| 0 <= j < i ==> v@[j] == self@[j],
            decreases 32 - i,
        {
            v.push(self.bytes[i]);
            i = i + 1;
        }
        proof {
            assert(v@ =~= self@);
        }
        v
    }
}

impl Clone for U256 {
    fn clone(&self) -> (r: Self)
        ensures
            r@ == self@,
    {
        proof {
            use_type_invariant(self);
        }
        U256 { bytes: self.to_big_endian() }
    }
}

impl PartialEq for U256 {
    fn eq(&self, other: &Self) -> (r: bool) {
        let r = self.bytes == other.bytes;
        proof {
            if r {
                assert(self@ =~= other@);
            } else {
                if self@ == other@ {
                    assert(forall|i: int|
                        0 <= i < self.bytes@.len() ==> self.bytes@[i] == other.bytes@[i]);
                    assert(false);
                }
            }
        }
        r
    }
}

impl Eq for U256 {

}

impl vstd::std_specs::cmp::PartialEqSpecImpl for U256 {
    open spec fn obeys_eq_spec() -> bool {
        true
    }

    open spec fn eq_spec(&self, other: &Self) -> bool {
        self@ == other@
    }
}

/// The 32-byte image of a shorter-or-longer big-endian byte string: left-padded
/// with zeroes, or cut to its first 32 bytes.
pub open spec fn pad32(s: Seq<u8>) -> Seq<u8> {
    if s.len() >= 32 {
        s.take(32)
    } else {
        Seq::new((32 - s.len()) as nat, |i: int| 0u8) + s
    }
}

/// The all-`0xff` byte string of the given length.
pub open spec fn all_ff(len: nat) -> Seq<u8> {
    Seq::new(len, |i: int| 0xffu8)
}

pub proof fn lemma_all_ff_val(len: nat)
    ensures
        be_val(all_ff(len)) == pow256(len) - 1,
    decreases len,
{
    if len > 0 {
        lemma_all_ff_val((len - 1) as nat);
        assert(all_ff(len).drop_last() =~= all_ff((len - 1) as nat));
        assert(be_val(all_ff(len)) == (pow256((len - 1) as nat) - 1) * 256 + 0xff);
    }
}

pub proof fn lemma_be_fixed_zero(len: nat)
    ensures
        be_fixed(0, len) =~= Seq::new(len, |i: int| 0u8),
    decreases len,
{
    if len > 0 {
        lemma_be_fixed_zero((len - 1) as nat);
        assert(0nat / 256 == 0nat);
        assert(0nat % 256 == 0nat);
    }
}

/// Law: for any two 256-bit words, the saturating sum equals the wrapping
/// sum unless the true sum exceeds the largest representable value, in which
/// case it equals that largest value. The first two arguments are the
/// operands; the last two are what `add` and `saturating_add` return for
/// them, characterized by those functions' postconditions.
pub proof fn lemma_saturating_add_law(a: U256, b: U256, wrapped: U256, saturated: U256)
    requires
        wrapped.value() == (a.value() + b.value()) % pow256(32),
        saturated.value() == if a.value() + b.value() <= U256::max_value() {
            a.value() + b.value()
        } else {
            U256::max_value()
        },
    ensures
        a.value() + b.value() <= U256::max_value() ==> saturated.value() == wrapped.value(),
        a.value() + b.value() > U256::max_value() ==> saturated.value() == U256::max_value(),
{
    lemma_pow256_positive(32);
    if a.value() + b.value() <= U256::max_value() {
        vstd::arithmetic::div_mod::lemma_small_mod(a.value() + b.value(), pow256(32));
    }
}

/// Law: for any two 256-bit words, the saturating product equals the true
/// product (which is then also its value modulo `pow256(32)`) unless that
/// product exceeds the largest representable value, in which case it equals
/// that largest value. The last argument is what `saturating_mul` returns,
/// characterized by its postcondition.
pub proof fn lemma_saturating_mul_law(a: U256, b: U256, saturated: U256)
    requires
        saturated.value() == if a.value() * b.value() <= U256::max_value() {
            a.value() * b.value()
        } else {
            U256::max_value()
        },
    ensures
        a.value() * b.value() <= U256::max_value() ==> saturated.value() == (a.value() * b.value())
            % pow256(32),
        a.value() * b.value() > U256::max_value() ==> saturated.value() == U256::max_value(),
{
    lemma_pow256_positive(32);
    if a.value() * b.value() <= U256::max_value() {
        vstd::arithmetic::div_mod::lemma_small_mod(a.value() * b.value(), pow256(32));
    }
}

/// Adds `p * pow256(8 * pos)` into an eight-limb little-endian accumulator,
/// propagating the carry upward. The caller guarantees that the grown total
/// still fits in the accumulator.
fn acc_add(out: &mut Vec<u64>, pos: usize, p: u128)
    requires
        old(out)@.len() == 8,
        pos <= 6,
        (p as nat) <= ((pow256(8) - 1) * (pow256(8) - 1)),
        limbs_val(old(out)@) + (p as nat) * pow256(8 * pos as nat) < pow256(64),
    ensures
        final(out)@.len() == 8,
        limbs_val(final(out)@) == limbs_val(old(out)@) + (p as nat) * pow256(8 * pos as nat),
{
    proof {
        lemma_pow256_u64();
        lemma_pow256_add(8, 8);
        assert((pow256(8) - 1) * (pow256(8) - 1) <= pow256(8) * pow256(8) - pow256(8))
            by (nonlinear_arith)
            requires
                pow256(8) >= 1,
        ;
    }
    let ghost total = limbs_val(old(out)@) + (p as nat) * pow256(8 * pos as nat);
    let mut c: u128 = p;
    let mut k: usize = pos;
    while c > 0 && k < 8
        invariant
            out@.len() == 8,
            pos <= k <= 8,
            (c as nat) <= pow256(16) - pow256(8),
            total < pow256(64),
            limbs_val(out@) + (c as nat) * pow256(8 * k as nat) == total,
        decreases 8 - k,
    {
        proof {
            lemma_pow256_u64();
        }
        let cur: u128 = out[k] as u128 + c;
        let lo: u64 = (cur % 0x10000000000000000u128) as u64;
        let ghost out_old = out@;
        let ghost c_old = c as nat;
        out[k] = lo;
        c = cur / 0x10000000000000000u128;
        proof {
            lemma_pow256_u64();
            lemma_pow256_add(8, 8);
            let p8 = pow256(8);
            let pk = pow256(8 * k as nat);
            vstd::arithmetic::div_mod::lemma_fundamental_div_mod(
                cur as int,
                0x10000000000000000,
            );
            assert((cur as nat) == p8 * (c as nat) + (lo as nat));
            lemma_limbs_val_update(out_old, k as nat, lo);
            assert(limbs_val(out@) + (out_old[k as int] as nat) * pk == limbs_val(out_old) + (
            lo as nat) * pk);
            lemma_pow256_add(8, 8 * k as nat);
            assert(8 + 8 * (k as nat) == 8 * ((k + 1) as nat));
            assert(pow256(8 * ((k + 1) as nat)) == p8 * pk);
            assert((lo as nat) * pk + (c as nat) * (p8 * pk) == ((lo as nat) + (c as nat) * p8)
                * pk) by (nonlinear_arith);
            assert(((lo as nat) + (c as nat) * p8) == cur as nat);
            assert((cur as nat) * pk == (out_old[k as int] as nat) * pk + c_old * pk)
                by (nonlinear_arith)
                requires
                    (cur as nat) == (out_old[k as int] as nat) + c_old,
            ;
            vstd::arithmetic::div_mod::lemma_multiply_divide_lt(
                cur as int,
                p8 as int,
                p8 as int,
            );
        }
        k = k + 1;
    }
    proof {
        if c > 0 {
            assert(k == 8);
            assert((c as nat) * pow256(64) >= pow256(64)) by (nonlinear_arith)
                requires
                    (c as nat) >= 1,
                    pow256(64) >= 0,
            ;
            assert(false);
        }
        assert(limbs_val(out@) == total);
    }
}

/// The bound that lets one more limb product be added into the accumulator:
/// the running total plus the next product still fits below `pow256(64)`.
proof fn lemma_mul_step_bound(la: Seq<u64>, lb: Seq<u64>, i: nat, j: nat, cur: nat)
    requires
        la.len() == 4,
        lb.len() == 4,
        i < 4,
        j < 4,
        cur == limbs_val(la.take(i as int)) * limbs_val(lb) + (la[i as int] as nat) * limbs_val(
            lb.take(j as int),
        ) * pow256(8 * i),
    ensures
        (la[i as int] as nat) * (lb[j as int] as nat) <= (pow256(8) - 1) * (pow256(8) - 1),
        (la[i as int] as nat) * (lb[j as int] as nat) < pow256(16),
        cur + ((la[i as int] as nat) * (lb[j as int] as nat)) * pow256(8 * (i + j)) < pow256(64),
{
    lemma_pow256_u64();
    let ai = la[i as int] as nat;
    let bj = lb[j as int] as nat;
    let va = limbs_val(la);
    let vb = limbs_val(lb);
    let aa = limbs_val(la.take(i as int));
    let bb = limbs_val(lb.take(j as int));
    let pi = pow256(8 * i);
    let pj = pow256(8 * j);
    vstd::arithmetic::mul::lemma_mul_upper_bound(
        ai as int,
        pow256(8) - 1,
        bj as int,
        pow256(8) - 1,
    );
    lemma_pow256_add(8, 8);
    assert((pow256(8) - 1) * (pow256(8) - 1) < pow256(8) * pow256(8)) by (nonlinear_arith)
        requires
            pow256(8) >= 1,
    ;
    // the next partial sum is at most the full product, which fits
    lemma_limbs_val_take(lb, j);
    let bt = limbs_val(lb.take(j + 1 as int));
    assert(lb =~= lb.take(j + 1 as int) + lb.skip(j + 1 as int));
    lemma_limbs_val_concat(lb.take(j + 1 as int), lb.skip(j + 1 as int));
    vstd::arithmetic::mul::lemma_mul_nonnegative(
        pow256((8 * (j + 1)) as nat) as int,
        limbs_val(lb.skip(j + 1 as int)) as int,
    );
    assert(bt <= vb);
    lemma_limbs_val_take(la, i);
    let at = limbs_val(la.take(i + 1 as int));
    assert(la =~= la.take(i + 1 as int) + la.skip(i + 1 as int));
    lemma_limbs_val_concat(la.take(i + 1 as int), la.skip(i + 1 as int));
    vstd::arithmetic::mul::lemma_mul_nonnegative(
        pow256((8 * (i + 1)) as nat) as int,
        limbs_val(la.skip(i + 1 as int)) as int,
    );
    assert(at <= va);
    lemma_pow256_add(8 * i, 8 * j);
    assert(8 * i + 8 * j == 8 * (i + j));
    assert(pow256(8 * (i + j)) == pi * pj);
    assert(cur + (ai * bj) * (pi * pj) == aa * vb + ai * pi * (bb + bj * pj)) by (nonlinear_arith)
        requires
            cur == aa * vb + ai * bb * pi,
    ;
    assert(bt == bb + bj * pj);
    assert(ai * pi * bt <= ai * pi * vb) by (nonlinear_arith)
        requires
            bt <= vb,
            ai >= 0,
            pi >= 0,
    ;
    assert(aa * vb + ai * pi * vb == at * vb) by (nonlinear_arith)
        requires
            at == aa + ai * pi,
    ;
    assert(at * vb <= va * vb) by (nonlinear_arith)
        requires
            at <= va,
            vb >= 0,
    ;
    lemma_limbs_val_bound(la);
    lemma_limbs_val_bound(lb);
    assert(va * vb < pow256(32) * pow256(32)) by (nonlinear_arith)
        requires
            va < pow256(32),
            vb < pow256(32),
            pow256(32) >= 1,
    ;
    lemma_pow256_add(32, 32);
}

/// After the accumulator took in the product of limbs `i` and `j`, the inner
/// loop invariant holds for `j + 1`.
proof fn lemma_mul_step_after(la: Seq<u64>, lb: Seq<u64>, i: nat, j: nat, p: nat, new_val: nat)
    requires
        la.len() == 4,
        lb.len() == 4,
        i < 4,
        j < 4,
        p == (la[i as int] as nat) * (lb[j as int] as nat),
        new_val == limbs_val(la.take(i as int)) * limbs_val(lb) + (la[i as int] as nat)
            * limbs_val(lb.take(j as int)) * pow256(8 * i) + p * pow256(8 * (i + j)),
    ensures
        new_val == limbs_val(la.take(i as int)) * limbs_val(lb) + (la[i as int] as nat)
            * limbs_val(lb.take(j + 1 as int)) * pow256(8 * i),
{
    let ai = la[i as int] as nat;
    let bj = lb[j as int] as nat;
    let bb = limbs_val(lb.take(j as int));
    let pi = pow256(8 * i);
    let pj = pow256(8 * j);
    lemma_limbs_val_take(lb, j);
    let bt = limbs_val(lb.take(j + 1 as int));
    assert(bt == bb + bj * pj);
    lemma_pow256_add(8 * i, 8 * j);
    assert(8 * i + 8 * j == 8 * (i + j));
    assert(pow256(8 * (i + j)) == pi * pj);
    assert(ai * bb * pi + (ai * bj) * (pi * pj) == ai * (bb + bj * pj) * pi) by (nonlinear_arith);
}

/// One step of the byte-wise long division: taking in byte `i` extends the
/// quotient by one digit.
proof fn lemma_div_step(x: Seq<u8>, q: Seq<u8>, i: int, rem: nat, d: nat, cur: nat)
    requires
        x.len() == 32,
        q.len() == i,
        0 <= i < 32,
        d >= 1,
        rem < d,
        be_val(x.subrange(0, i)) == be_val(q) * d + rem,
        cur == rem * 256 + x[i],
    ensures
        cur / d < 256,
        cur % d < d,
        be_val(x.subrange(0, i + 1)) == be_val(q.push((cur / d) as u8)) * d + cur % d,
{
    let qv = be_val(q);
    assert(x.subrange(0, i + 1).drop_last() =~= x.subrange(0, i));
    assert(x.subrange(0, i + 1).last() == x[i]);
    assert(be_val(x.subrange(0, i + 1)) == (qv * d + rem) * 256 + (x[i] as nat));
    assert((qv * d + rem) * 256 + (x[i] as nat) == (qv * 256) * d + cur) by (nonlinear_arith)
        requires
            cur == rem * 256 + x[i],
    ;
    vstd::arithmetic::div_mod::lemma_fundamental_div_mod(cur as int, d as int);
    assert(cur == d * (cur / d) + cur % d);
    assert(cur < 256 * d) by (nonlinear_arith)
        requires
            cur == rem * 256 + x[i],
            rem < d,
            x[i] < 256,
    ;
    assert(256 * d == d * 256) by (nonlinear_arith);
    vstd::arithmetic::div_mod::lemma_multiply_divide_lt(cur as int, d as int, 256);
    vstd::arithmetic::div_mod::lemma_mod_division_less_than_divisor(cur as int, d as int);
    let digit = cur / d;
    assert(digit < 256);
    assert(((digit as u8) as nat) == digit);
    assert(q.push(digit as u8).drop_last() =~= q);
    assert(q.push(digit as u8).last() == digit as u8);
    assert(be_val(q.push(digit as u8)) == qv * 256 + digit);
    assert((qv * 256) * d + d * digit + cur % d == (qv * 256 + digit) * d + cur % d)
        by (nonlinear_arith);
}

/// The value of a little-endian sequence of 64-bit limbs.
pub open spec fn limbs_val(ls: Seq<u64>) -> nat
    decreases ls.len(),
{
    if ls.len() == 0 {
        0
    } else {
        (ls[0] as nat) + pow256(8) * limbs_val(ls.skip(1))
    }
}

proof fn lemma_limbs_val_concat(a: Seq<u64>, b: Seq<u64>)
    ensures
        limbs_val(a + b) == limbs_val(a) + pow256(8 * a.len()) * limbs_val(b),
    decreases a.len(),
{
    if a.len() == 0 {
        assert(a + b =~= b);
        assert(limbs_val(a) == 0);
        assert(pow256(0) == 1);
        assert(pow256(8 * a.len()) == 1);
    } else {
        assert((a + b).skip(1) =~= a.skip(1) + b);
        assert((a + b)[0] == a[0]);
        lemma_limbs_val_concat(a.skip(1), b);
        let p8 = pow256(8);
        let rest = pow256(8 * (a.len() - 1) as nat);
        assert(limbs_val(a + b) == (a[0] as nat) + p8 * limbs_val(a.skip(1) + b));
        assert(limbs_val(a) == (a[0] as nat) + p8 * limbs_val(a.skip(1)));
        assert(p8 * (limbs_val(a.skip(1)) + rest * limbs_val(b)) == p8 * limbs_val(a.skip(1)) + (p8
            * rest) * limbs_val(b)) by (nonlinear_arith);
        lemma_pow256_add(8, (8 * (a.len() - 1)) as nat);
        assert(8 + 8 * (a.len() - 1) == 8 * a.len());
        assert(pow256(8 * a.len()) == p8 * rest);
    }
}

proof fn lemma_limbs_val_take(ls: Seq<u64>, j: nat)
    requires
        j < ls.len(),
    ensures
        limbs_val(ls.take(j + 1 as int)) == limbs_val(ls.take(j as int)) + (ls[j as int] as nat)
            * pow256(8 * j),
{
    let a = ls.take(j as int);
    let one = seq![ls[j as int]];
    assert(ls.take(j + 1 as int) =~= a + one);
    lemma_limbs_val_concat(a, one);
    assert(one.skip(1) =~= Seq::<u64>::empty());
    assert(limbs_val(Seq::<u64>::empty()) == 0);
    assert(limbs_val(one) == (one[0] as nat) + pow256(8) * limbs_val(one.skip(1)));
    assert(limbs_val(one) == ls[j as int] + pow256(8) * 0);
    assert(pow256(8 * j) * (ls[j as int] as nat) == (ls[j as int] as nat) * pow256(8 * j))
        by (nonlinear_arith);
}

proof fn lemma_limbs_val_bound(ls: Seq<u64>)
    ensures
        limbs_val(ls) < pow256(8 * ls.len()),
    decreases ls.len(),
{
    if ls.len() == 0 {
    } else {
        lemma_limbs_val_bound(ls.skip(1));
        let p8 = pow256(8);
        let rest = pow256(8 * (ls.len() - 1) as nat);
        lemma_pow256_u64();
        assert(p8 * limbs_val(ls.skip(1)) <= p8 * (rest - 1)) by (nonlinear_arith)
            requires
                limbs_val(ls.skip(1)) <= rest - 1,
                p8 >= 0,
        ;
        lemma_pow256_add(8, (8 * (ls.len() - 1)) as nat);
        assert(8 + 8 * (ls.len() - 1) == 8 * ls.len());
        assert((ls[0] as nat) < p8);
    }
}

proof fn lemma_limbs_val_update(ls: Seq<u64>, k: nat, v: u64)
    requires
        k < ls.len(),
    ensures
        limbs_val(ls.update(k as int, v)) + (ls[k as int] as nat) * pow256(8 * k) == limbs_val(ls)
            + (v as nat) * pow256(8 * k),
    decreases k,
{
    let ls2 = ls.update(k as int, v);
    if k == 0 {
        assert(ls2.skip(1) =~= ls.skip(1));
        assert(pow256(0) == 1);
        assert(limbs_val(ls2) == (v as nat) + pow256(8) * limbs_val(ls2.skip(1)));
        assert(limbs_val(ls) == (ls[0] as nat) + pow256(8) * limbs_val(ls.skip(1)));
        assert(pow256(8 * k) == 1);
        assert(limbs_val(ls2) + (ls[0] as nat) * 1 == limbs_val(ls) + (v as nat) * 1);
    } else {
        assert(ls2.skip(1) =~= ls.skip(1).update(k - 1, v));
        assert(ls2[0] == ls[0]);
        assert(limbs_val(ls2) == (ls[0] as nat) + pow256(8) * limbs_val(ls2.skip(1)));
        assert(limbs_val(ls) == (ls[0] as nat) + pow256(8) * limbs_val(ls.skip(1)));
        lemma_limbs_val_update(ls.skip(1), (k - 1) as nat, v);
        let p8 = pow256(8);
        let pk1 = pow256((8 * (k - 1)) as nat);
        lemma_pow256_add(8, (8 * (k - 1)) as nat);
        assert(8 + 8 * (k - 1) == 8 * k);
        let a = limbs_val(ls.skip(1).update(k - 1, v));
        let b = limbs_val(ls.skip(1));
        let x = ls[k as int] as nat;
        assert(a + x * pk1 == b + (v as nat) * pk1);
        assert(p8 * a + x * (p8 * pk1) == p8 * b + (v as nat) * (p8 * pk1)) by (nonlinear_arith)
            requires
                a + x * pk1 == b + (v as nat) * pk1,
        ;
        assert(pow256(8 * k) == p8 * pk1);
        assert(limbs_val(ls2.skip(1)) == a);
        assert(limbs_val(ls.skip(1)) == b);
        assert(x * pow256(8 * k) == x * (p8 * pk1));
        assert((v as nat) * pow256(8 * k) == (v as nat) * (p8 * pk1));
        assert(limbs_val(ls2) + x * pow256(8 * k) == limbs_val(ls) + (v as nat) * pow256(8 * k));
    }
}

/// All-zero limbs have value zero, and conversely.
proof fn lemma_limbs_val_zero_iff(ls: Seq<u64>)
    ensures
        (limbs_val(ls) == 0) <==> (forall|k: int| 0 <= k < ls.len() ==> ls[k] == 0),
    decreases ls.len(),
{
    if ls.len() > 0 {
        lemma_limbs_val_zero_iff(ls.skip(1));
        lemma_pow256_positive(8);
        let rest = limbs_val(ls.skip(1));
        assert(pow256(8) * rest >= rest) by (nonlinear_arith)
            requires
                pow256(8) >= 1,
                rest >= 0,
        ;
        if limbs_val(ls) == 0 {
            assert(ls[0] == 0);
            assert(pow256(8) * rest == 0);
            assert(rest == 0) by (nonlinear_arith)
                requires
                    pow256(8) * rest == 0,
                    pow256(8) >= 1,
            ;
            assert(forall|k: int| 1 <= k < ls.len() ==> ls[k] == ls.skip(1)[k - 1]);
        } else {
            if forall|k: int| 0 <= k < ls.len() ==> ls[k] == 0 {
                assert(forall|k: int| 0 <= k < ls.skip(1).len() ==> ls.skip(1)[k] == ls[k + 1]);
                assert(rest == 0);
                assert(pow256(8) * 0 == 0) by (nonlinear_arith);
                assert(false);
            }
        }
    }
}

/// Little-endian limbs read off the big-endian bytes have the bytes' value.
proof fn lemma_le_limbs_of_bytes(bytes: Seq<u8>, ls: Seq<u64>)
    requires
        bytes.len() == 32,
        ls.len() == 4,
        forall|k: int|
            0 <= k < 4 ==> (ls[k] as nat) == be_val(bytes.subrange(24 - 8 * k, 32 - 8 * k)),
    ensures
        limbs_val(ls) == be_val(bytes),
{
    let s0 = bytes.subrange(24, 32);
    let s1 = bytes.subrange(16, 24);
    let s2 = bytes.subrange(8, 16);
    let s3 = bytes.subrange(0, 8);
    assert(bytes =~= s3 + s2 + s1 + s0);
    crate::words::lemma_be_val_concat(s3 + s2 + s1, s0);
    crate::words::lemma_be_val_concat(s3 + s2, s1);
    crate::words::lemma_be_val_concat(s3, s2);
    assert((s3 + s2 + s1).subrange(0, 16) == s3 + s2);
    let v0 = be_val(s0);
    let v1 = be_val(s1);
    let v2 = be_val(s2);
    let v3 = be_val(s3);
    let p8 = pow256(8);
    assert(be_val(bytes) == ((v3 * p8 + v2) * p8 + v1) * p8 + v0);
    assert(ls[0] as nat == v0);
    assert(ls[1] as nat == v1);
    assert(ls[2] as nat == v2);
    assert(ls[3] as nat == v3);
    let t1 = ls.skip(1);
    let t2 = t1.skip(1);
    let t3 = t2.skip(1);
    assert(t3.skip(1) =~= Seq::<u64>::empty());
    assert(t1[0] == ls[1]);
    assert(t2[0] == ls[2]);
    assert(t3[0] == ls[3]);
    assert(t1.len() == 3 && t2.len() == 2 && t3.len() == 1);
    assert(limbs_val(Seq::<u64>::empty()) == 0);
    assert(limbs_val(t3) == (t3[0] as nat) + p8 * limbs_val(t3.skip(1)));
    assert(limbs_val(t2) == (t2[0] as nat) + p8 * limbs_val(t2.skip(1)));
    assert(limbs_val(t1) == (t1[0] as nat) + p8 * limbs_val(t1.skip(1)));
    assert(limbs_val(ls) == (ls[0] as nat) + p8 * limbs_val(ls.skip(1)));
    assert(t2.skip(1) == t3 && t1.skip(1) == t2 && ls.skip(1) == t1);
    assert(limbs_val(ls) == v0 + p8 * (v1 + p8 * (v2 + p8 * (v3 + p8 * 0))));
    assert(((v3 * p8 + v2) * p8 + v1) * p8 + v0 == v0 + p8 * (v1 + p8 * (v2 + p8 * (v3 + p8 * 0))))
        by (nonlinear_arith);
}

/// One step of byte-wise addition: taking in byte `i` extends the suffix
/// equation by one byte and produces the next carry.
proof fn lemma_add_carry_step(
    a: Seq<u8>,
    b: Seq<u8>,
    r_old: Seq<u8>,
    r_new: Seq<u8>,
    i: int,
    carry: nat,
    t: nat,
    k: nat,
)
    requires
        a.len() == 32,
        b.len() == 32,
        r_old.len() == 32,
        r_new.len() == 32,
        k < 32,
        i == 31 - k,
        carry <= 1,
        t == a[i] + b[i] + carry,
        r_new == r_old.update(i, (t % 256) as u8),
        be_val(a.subrange(32 - k, 32)) + be_val(b.subrange(32 - k, 32)) == carry * pow256(k)
            + be_val(r_old.subrange(32 - k, 32)),
    ensures
        t / 256 <= 1,
        be_val(a.subrange(i, 32)) + be_val(b.subrange(i, 32)) == (t / 256) * pow256(k + 1)
            + be_val(r_new.subrange(i, 32)),
{
    let p = pow256(k);
    let sa = a.subrange(i, 32);
    let sb = b.subrange(i, 32);
    let sr = r_new.subrange(i, 32);
    lemma_be_val_first(sa);
    lemma_be_val_first(sb);
    lemma_be_val_first(sr);
    assert(sa.subrange(1, sa.len() as int) =~= a.subrange(32 - k, 32));
    assert(sb.subrange(1, sb.len() as int) =~= b.subrange(32 - k, 32));
    assert(sr.subrange(1, sr.len() as int) =~= r_new.subrange(32 - k, 32));
    assert(r_new.subrange(32 - k, 32) =~= r_old.subrange(32 - k, 32));
    let va = be_val(a.subrange(32 - k, 32));
    let vb = be_val(b.subrange(32 - k, 32));
    let vr = be_val(r_old.subrange(32 - k, 32));
    assert(be_val(sa) + be_val(sb) == (a[i] as nat) * p + (b[i] as nat) * p + va + vb);
    assert((a[i] as nat) * p + (b[i] as nat) * p + carry * p == t * p) by (nonlinear_arith)
        requires
            t == a[i] + b[i] + carry,
    ;
    vstd::arithmetic::div_mod::lemma_fundamental_div_mod(t as int, 256);
    assert(t == 256 * (t / 256) + t % 256);
    assert(t * p == (t / 256) * (256 * p) + (t % 256) * p) by (nonlinear_arith)
        requires
            t == 256 * (t / 256) + t % 256,
    ;
    lemma_pow256_mul(k);
    assert(256 * p == pow256(k + 1));
    assert(t / 256 <= 1) by (nonlinear_arith)
        requires
            t <= 511,
    ;
    assert(be_val(sr) == ((t % 256) as nat) * p + vr);
    assert(be_val(sa) + be_val(sb) == t * p + vr);
}

/// When a byte-wise sum leaves the loop, its bytes hold the wrapped sum.
proof fn lemma_sum_bytes_are_wrapped(va: nat, vb: nat, s: Seq<u8>, carry: bool)
    requires
        s.len() == 32,
        va < pow256(32),
        vb < pow256(32),
        va + vb == (if carry {
            pow256(32)
        } else {
            0
        }) + be_val(s),
    ensures
        be_val(s) == (va + vb) % pow256(32),
        s =~= be_fixed(va + vb, 32),
{
    lemma_be_val_bound(s);
    lemma_pow256_positive(32);
    let q: int = if carry {
        1
    } else {
        0
    };
    vstd::arithmetic::div_mod::lemma_fundamental_div_mod_converse(
        (va + vb) as int,
        pow256(32) as int,
        q,
        be_val(s) as int,
    );
    lemma_be_fixed_val(va + vb, 32);
    lemma_be_fixed_len(va + vb, 32);
    lemma_be_val_injective(s, be_fixed(va + vb, 32));
}

/// The concrete values of the small powers of 256 that the limb proofs use.
pub proof fn lemma_pow256_u64()
    ensures
        pow256(8) == 0x10000000000000000,
        pow256(16) == 0x100000000000000000000000000000000,
{
    assert(pow256(0) == 1);
    assert(pow256(1) == 256);
    assert(pow256(2) == 0x10000);
    assert(pow256(3) == 0x1000000);
    assert(pow256(4) == 0x100000000);
    assert(pow256(5) == 0x10000000000);
    assert(pow256(6) == 0x1000000000000);
    assert(pow256(7) == 0x100000000000000);
    assert(pow256(8) == 0x10000000000000000);
    assert(pow256(9) == 0x1000000000000000000);
    assert(pow256(10) == 0x100000000000000000000);
    assert(pow256(11) == 0x10000000000000000000000);
    assert(pow256(12) == 0x1000000000000000000000000);
    assert(pow256(13) == 0x100000000000000000000000000);
    assert(pow256(14) == 0x10000000000000000000000000000);
    assert(pow256(15) == 0x1000000000000000000000000000000);
    assert(pow256(16) == 0x100000000000000000000000000000000);
}

/// Widening a fixed-width encoding only adds leading zero bytes.
pub proof fn lemma_be_fixed_widen(n: nat, j: nat, len: nat)
    requires
        j <= len,
        n < pow256(j),
    ensures
        be_fixed(n, len) =~= Seq::new((len - j) as nat, |i: int| 0u8) + be_fixed(n, j),
{
    lemma_pow256_monotone(j, len);
    lemma_be_fixed_is_padded_min_be(n, j);
    lemma_be_fixed_is_padded_min_be(n, len);
    lemma_be_fixed_len(n, j);
    lemma_be_fixed_len(n, len);
}

} // verus!
