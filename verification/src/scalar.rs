//! Elements of the scalar field of BN254, held canonically as four 64-bit limbs.

use vstd::prelude::*;
use ark_ff::PrimeField;
use crate::bytes::{le_bytes, le_value, pow256, push_u64_le};

verus! {

/// The field prime `p`.
pub open spec fn modulus() -> nat {
    21888242871839275222246405745257275088548364400416034343698204186575808495617nat
}

/// The number spelled by four 64-bit limbs, least significant first.
pub open spec fn limbs_value(l0: u64, l1: u64, l2: u64, l3: u64) -> nat {
    (l0 as nat) + (l1 as nat) * 0x1_0000_0000_0000_0000nat + (l2 as nat)
        * 0x1_0000_0000_0000_0000_0000_0000_0000_0000nat + (l3 as nat)
        * 0x1_0000_0000_0000_0000_0000_0000_0000_0000_0000_0000_0000_0000nat
}

/// A field element. Every value of this type is reduced: its view is below `modulus()`.
#[derive(Clone, Copy, Debug, PartialEq, Eq, Structural)]
pub struct Scalar {
    l0: u64,
    l1: u64,
    l2: u64,
    l3: u64,
}

impl View for Scalar {
    type V = nat;

    closed spec fn view(&self) -> nat {
        limbs_value(self.l0, self.l1, self.l2, self.l3)
    }
}

impl Scalar {
    #[verifier::type_invariant]
    closed spec fn reduced(self) -> bool {
        limbs_value(self.l0, self.l1, self.l2, self.l3) < modulus()
    }

    /// The 32 bytes that store the element: its value, least significant byte first.
    pub open spec fn spec_bytes(self) -> Seq<u8> {
        le_bytes(self@, 32)
    }

    /// The element whose value is `v`, for `v` below `2^256`.
    pub closed spec fn spec_new(v: nat) -> Scalar {
        let w: nat = 0x1_0000_0000_0000_0000nat;
        Scalar {
            l0: (v % w) as u64,
            l1: ((v / w) % w) as u64,
            l2: (((v / w) / w) % w) as u64,
            l3: ((((v / w) / w) / w) % w) as u64,
        }
    }

    pub proof fn lemma_spec_new_view(v: nat)
        requires
            v < modulus(),
        ensures
            Scalar::spec_new(v)@ == v,
    {
        let w: nat = 0x1_0000_0000_0000_0000nat;
        let q1 = v / w;
        let q2 = q1 / w;
        let q3 = q2 / w;
        assert(v == w * q1 + v % w);
        assert(q1 == w * q2 + q1 % w);
        assert(q2 == w * q3 + q2 % w);
        assert(q3 < w);
        assert(v == v % w + (q1 % w) * w + (q2 % w) * (w * w) + (q3 % w) * (w * w * w))
            by (nonlinear_arith)
            requires
                v == w * q1 + v % w,
                q1 == w * q2 + q1 % w,
                q2 == w * q3 + q2 % w,
                q3 % w == q3,
        ;
    }

    pub proof fn lemma_spec_new_of_view(s: Scalar)
        requires
            s@ < modulus(),
        ensures
            Scalar::spec_new(s@) == s,
    {
        Scalar::lemma_spec_new_view(s@);
        Scalar::lemma_view_injective(Scalar::spec_new(s@), s);
    }

    /// The element that the bytes `bytes`, read least significant first, name
    /// modulo the prime.
    pub open spec fn spec_from_le(bytes: Seq<u8>) -> Scalar {
        Scalar::spec_new(le_value(bytes) % modulus())
    }

    /// An element is what its 32 bytes name.
    pub proof fn lemma_bytes_round_trip(x: Scalar)
        requires
            x@ < modulus(),
        ensures
            x.spec_bytes().len() == 32,
            le_value(x.spec_bytes()) == x@,
            Scalar::spec_from_le(x.spec_bytes()) == x,
    {
        crate::bytes::lemma_le_bytes_len(x@, 32);
        crate::bytes::lemma_pow256_32();
        crate::bytes::lemma_le_value_of_le_bytes(x@, 32);
        Scalar::lemma_spec_new_of_view(x);
    }

    /// Two elements with one value are one element.
    pub proof fn lemma_view_injective(a: Scalar, b: Scalar)
        requires
            a@ == b@,
        ensures
            a == b,
    {
        lemma_limbs_unique(a.l0, a.l1, a.l2, a.l3, b.l0, b.l1, b.l2, b.l3);
    }

    /// Whether the element is the one that `spec_new` makes of its value, as
    /// every element is that executable code holds.
    pub open spec fn canonical(self) -> bool {
        self == Scalar::spec_new(self@)
    }

    /// An element that executable code holds is what `spec_new` makes of its value.
    pub fn check_reduced_spec(&self)
        ensures
            self@ < modulus(),
            *self == Scalar::spec_new(self@),
    {
        proof {
            use_type_invariant(self);
            Scalar::lemma_spec_new_of_view(*self);
        }
    }

    /// Every element that executable code holds is reduced.
    pub fn check_reduced(&self)
        ensures
            self@ < modulus(),
    {
        proof {
            use_type_invariant(self);
        }
    }

    pub fn zero() -> (r: Scalar)
        ensures
            r@ == 0,
            r == Scalar::spec_new(0),
    {
        proof {
            Scalar::lemma_spec_new_of_view(Scalar { l0: 0, l1: 0, l2: 0, l3: 0 });
        }
        Scalar { l0: 0, l1: 0, l2: 0, l3: 0 }
    }

    pub fn one() -> (r: Scalar)
        ensures
            r@ == 1,
    {
        Scalar { l0: 1, l1: 0, l2: 0, l3: 0 }
    }

    pub fn from_u64(x: u64) -> (r: Scalar)
        ensures
            r@ == x,
    {
        Scalar { l0: x, l1: 0, l2: 0, l3: 0 }
    }

    pub fn is_zero(&self) -> (b: bool)
        ensures
            b == (self@ == 0),
    {
        self.l0 == 0 && self.l1 == 0 && self.l2 == 0 && self.l3 == 0
    }

    /// Whether `self` is the smaller number.
    pub fn lt(&self, other: &Scalar) -> (b: bool)
        ensures
            b == (self@ < other@),
    {
        if self.l3 != other.l3 {
            self.l3 < other.l3
        } else if self.l2 != other.l2 {
            self.l2 < other.l2
        } else if self.l1 != other.l1 {
            self.l1 < other.l1
        } else {
            self.l0 < other.l0
        }
    }

    /// Whether `self` is the larger number.
    pub fn gt(&self, other: &Scalar) -> (b: bool)
        ensures
            b == (self@ > other@),
    {
        other.lt(self)
    }

    /// The element as 32 little-endian bytes.
    pub fn to_le_bytes(&self) -> (out: Vec<u8>)
        ensures
            out@ == self.spec_bytes(),
            out@.len() == 32,
            le_value(out@) == self@,
            self@ < modulus(),
    {
        let mut out: Vec<u8> = Vec::new();
        push_u64_le(&mut out, self.l0);
        push_u64_le(&mut out, self.l1);
        push_u64_le(&mut out, self.l2);
        push_u64_le(&mut out, self.l3);
        proof {
            use_type_invariant(self);
            crate::bytes::lemma_le_bytes_len(self.l0 as nat, 8);
            crate::bytes::lemma_le_bytes_len(self.l1 as nat, 8);
            crate::bytes::lemma_le_bytes_len(self.l2 as nat, 8);
            crate::bytes::lemma_le_bytes_len(self.l3 as nat, 8);
            crate::bytes::lemma_pow256_32();
            crate::bytes::lemma_le_value_of_le_bytes(self@, 32);
            lemma_limbs_bytes(self.l0, self.l1, self.l2, self.l3);
            assert(out@ =~= le_bytes(self.l0 as nat, 8) + le_bytes(self.l1 as nat, 8) + le_bytes(
                self.l2 as nat,
                8,
            ) + le_bytes(self.l3 as nat, 8));
        }
        out
    }

    /// The element that `bytes`, read least significant byte first, name modulo `p`.
    pub fn from_le_bytes_mod_order(bytes: &Vec<u8>) -> (r: Scalar)
        ensures
            r@ == le_value(bytes@) % modulus(),
            r == Scalar::spec_from_le(bytes@),
    {
        let r = fr_from_le_bytes_mod_order(bytes);
        proof {
            Scalar::lemma_spec_new_of_view(r);
        }
        r
    }

    /// The element that `bytes`, read most significant byte first, name modulo `p`.
    pub fn from_be_bytes_mod_order(bytes: &Vec<u8>) -> (r: Scalar)
        ensures
            r@ == le_value(bytes@.reverse()) % modulus(),
    {
        fr_from_be_bytes_mod_order(bytes)
    }

    /// Field addition.
    pub fn add(&self, other: &Scalar) -> (r: Scalar)
        ensures
            r@ == (self@ + other@) % modulus(),
    {
        proof {
            use_type_invariant(self);
            use_type_invariant(other);
        }
        fr_add(self, other)
    }

    /// Field subtraction.
    pub fn sub(&self, other: &Scalar) -> (r: Scalar)
        ensures
            r@ == (self@ - other@) % (modulus() as int),
    {
        proof {
            use_type_invariant(self);
            use_type_invariant(other);
        }
        fr_sub(self, other)
    }

    /// The element raised to the power `exp`.
    pub fn pow(&self, exp: u64) -> (r: Scalar)
        ensures
            r@ == vstd::arithmetic::power::pow(self@ as int, exp as nat) % (modulus() as int),
    {
        proof {
            use_type_invariant(self);
        }
        fr_pow(self, exp)
    }

    /// The value in decimal digits, most significant first; zero has no digits.
    pub fn to_string(&self) -> (r: String)
        ensures
            r@ == decimal(self@),
    {
        proof {
            use_type_invariant(self);
        }
        fr_to_string(self)
    }

    /// The quotient of the two values as whole numbers, rounded down.
    pub fn div(&self, other: &Scalar) -> (r: Scalar)
        requires
            other@ != 0,
        ensures
            r@ == self@ / other@,
    {
        proof {
            use_type_invariant(self);
            use_type_invariant(other);
        }
        big_div(self, other)
    }

    /// The low 64 bits of the value.
    pub fn low_u64(&self) -> (r: u64)
        ensures
            r == self@ % 0x1_0000_0000_0000_0000,
    {
        proof {
            let w: int = 0x1_0000_0000_0000_0000int;
            let h: int = self.l1 + w * (self.l2 + w * self.l3);
            assert(self@ == h * w + self.l0) by (nonlinear_arith)
                requires
                    self@ == self.l0 + self.l1 * w + self.l2 * (w * w) + self.l3 * (w * w * w),
                    h == self.l1 + w * (self.l2 + w * self.l3),
            ;
            vstd::arithmetic::div_mod::lemma_fundamental_div_mod_converse(
                self@ as int,
                w,
                h,
                self.l0 as int,
            );
        }
        self.l0
    }

    /// Field multiplication.
    pub fn mul(&self, other: &Scalar) -> (r: Scalar)
        ensures
            r@ == (self@ * other@) % modulus(),
    {
        proof {
            use_type_invariant(self);
            use_type_invariant(other);
        }
        fr_mul(self, other)
    }
}

/// The decimal digit for a number below ten.
pub open spec fn digit(d: nat) -> char {
    if d == 0 {
        '0'
    } else if d == 1 {
        '1'
    } else if d == 2 {
        '2'
    } else if d == 3 {
        '3'
    } else if d == 4 {
        '4'
    } else if d == 5 {
        '5'
    } else if d == 6 {
        '6'
    } else if d == 7 {
        '7'
    } else if d == 8 {
        '8'
    } else {
        '9'
    }
}

/// The decimal digits of `v`, most significant first, with no leading zero:
/// zero has no digits at all.
pub open spec fn decimal(v: nat) -> Seq<char>
    decreases v,
{
    if v == 0 {
        Seq::empty()
    } else {
        decimal(v / 10).push(digit(v % 10))
    }
}

/// The decimal digits of `v` as integers print: zero is the digit `0`.
pub open spec fn spec_decimal_int(v: nat) -> Seq<char> {
    if v == 0 {
        seq!['0']
    } else {
        decimal(v)
    }
}

/// The number `x` in decimal digits.
pub fn usize_to_string(x: usize) -> (r: String)
    ensures
        r@ == spec_decimal_int(x as nat),
{
    int_to_string(x)
}

/// Calls `to_string` of std on an unsigned integer, which prints it in
/// decimal with no leading zero, and zero as `0`.
#[verifier::external_body]
fn int_to_string(x: usize) -> (r: String)
    ensures
        r@ == spec_decimal_int(x as nat),
{
    x.to_string()
}

/// Limbs are digits: one number has one spelling.
proof fn lemma_limbs_unique(a0: u64, a1: u64, a2: u64, a3: u64, b0: u64, b1: u64, b2: u64, b3: u64)
    requires
        limbs_value(a0, a1, a2, a3) == limbs_value(b0, b1, b2, b3),
    ensures
        a0 == b0,
        a1 == b1,
        a2 == b2,
        a3 == b3,
{
    let w: int = 0x1_0000_0000_0000_0000int;
    let ha: int = a1 + w * (a2 + w * a3);
    let hb: int = b1 + w * (b2 + w * b3);
    let v: int = limbs_value(a0, a1, a2, a3) as int;
    assert(v == ha * w + a0) by (nonlinear_arith)
        requires
            v == a0 + a1 * w + a2 * (w * w) + a3 * (w * w * w),
            ha == a1 + w * (a2 + w * a3),
    ;
    assert(v == hb * w + b0) by (nonlinear_arith)
        requires
            v == b0 + b1 * w + b2 * (w * w) + b3 * (w * w * w),
            hb == b1 + w * (b2 + w * b3),
    ;
    vstd::arithmetic::div_mod::lemma_fundamental_div_mod_converse(v, w, ha, a0 as int);
    vstd::arithmetic::div_mod::lemma_fundamental_div_mod_converse(v, w, hb, b0 as int);
    let ga: int = a2 + w * a3;
    let gb: int = b2 + w * b3;
    assert(ha == ga * w + a1) by (nonlinear_arith)
        requires
            ha == a1 + w * (a2 + w * a3),
            ga == a2 + w * a3,
    ;
    assert(hb == gb * w + b1) by (nonlinear_arith)
        requires
            hb == b1 + w * (b2 + w * b3),
            gb == b2 + w * b3,
    ;
    vstd::arithmetic::div_mod::lemma_fundamental_div_mod_converse(ha, w, ga, a1 as int);
    vstd::arithmetic::div_mod::lemma_fundamental_div_mod_converse(hb, w, gb, b1 as int);
    assert(ga == a3 * w + a2) by (nonlinear_arith)
        requires
            ga == a2 + w * a3,
    ;
    assert(gb == b3 * w + b2) by (nonlinear_arith)
        requires
            gb == b2 + w * b3,
    ;
    vstd::arithmetic::div_mod::lemma_fundamental_div_mod_converse(ga, w, a3 as int, a2 as int);
    vstd::arithmetic::div_mod::lemma_fundamental_div_mod_converse(gb, w, b3 as int, b2 as int);
}

/// The four limbs, each written as eight bytes, are the 32 bytes of their number.
proof fn lemma_limbs_bytes(l0: u64, l1: u64, l2: u64, l3: u64)
    ensures
        le_bytes(limbs_value(l0, l1, l2, l3), 32) =~= le_bytes(l0 as nat, 8) + le_bytes(
            l1 as nat,
            8,
        ) + le_bytes(l2 as nat, 8) + le_bytes(l3 as nat, 8),
{
    let b0 = le_bytes(l0 as nat, 8);
    let b1 = le_bytes(l1 as nat, 8);
    let b2 = le_bytes(l2 as nat, 8);
    let b3 = le_bytes(l3 as nat, 8);
    let all = b0 + b1 + b2 + b3;
    crate::bytes::lemma_pow256_8();
    crate::bytes::lemma_le_bytes_len(l0 as nat, 8);
    crate::bytes::lemma_le_bytes_len(l1 as nat, 8);
    crate::bytes::lemma_le_bytes_len(l2 as nat, 8);
    crate::bytes::lemma_le_bytes_len(l3 as nat, 8);
    crate::bytes::lemma_le_value_of_le_bytes(l0 as nat, 8);
    crate::bytes::lemma_le_value_of_le_bytes(l1 as nat, 8);
    crate::bytes::lemma_le_value_of_le_bytes(l2 as nat, 8);
    crate::bytes::lemma_le_value_of_le_bytes(l3 as nat, 8);
    crate::bytes::lemma_le_value_concat(b2, b3);
    crate::bytes::lemma_le_value_concat(b1, b2 + b3);
    crate::bytes::lemma_le_value_concat(b0, b1 + (b2 + b3));
    assert(all =~= b0 + (b1 + (b2 + b3)));
    assert(le_value(all) == limbs_value(l0, l1, l2, l3)) by (nonlinear_arith)
        requires
            le_value(all) == l0 as nat + 0x1_0000_0000_0000_0000nat * (l1 as nat
                + 0x1_0000_0000_0000_0000nat * (l2 as nat + 0x1_0000_0000_0000_0000nat * (
                l3 as nat))),
    ;
    crate::bytes::lemma_le_bytes_of_le_value(all);
}

/// Calls `Fr::from_le_bytes_mod_order` of ark-ff, which reads the bytes as a
/// little-endian integer and reduces it modulo the field prime, and hands back
/// the canonical limbs of the result.
#[verifier::external_body]
fn fr_from_le_bytes_mod_order(bytes: &Vec<u8>) -> (r: Scalar)
    ensures
        r@ == le_value(bytes@) % modulus(),
{
    let l = ark_bn254::Fr::from_le_bytes_mod_order(bytes.as_slice()).into_bigint().0;
    Scalar { l0: l[0], l1: l[1], l2: l[2], l3: l[3] }
}

/// Calls `Fr::from_be_bytes_mod_order` of ark-ff, which reads the bytes as a
/// big-endian integer and reduces it modulo the field prime.
#[verifier::external_body]
fn fr_from_be_bytes_mod_order(bytes: &Vec<u8>) -> (r: Scalar)
    ensures
        r@ == le_value(bytes@.reverse()) % modulus(),
{
    let l = ark_bn254::Fr::from_be_bytes_mod_order(bytes.as_slice()).into_bigint().0;
    Scalar { l0: l[0], l1: l[1], l2: l[2], l3: l[3] }
}

/// Calls the `+` of ark-ff on two field elements: their sum modulo the field prime.
#[verifier::external_body]
fn fr_add(a: &Scalar, b: &Scalar) -> (r: Scalar)
    requires
        a@ < modulus(),
        b@ < modulus(),
    ensures
        r@ == (a@ + b@) % modulus(),
{
    let x = ark_bn254::Fr::from(ark_ff::BigInt::new([a.l0, a.l1, a.l2, a.l3]));
    let y = ark_bn254::Fr::from(ark_ff::BigInt::new([b.l0, b.l1, b.l2, b.l3]));
    let l = (x + y).into_bigint().0;
    Scalar { l0: l[0], l1: l[1], l2: l[2], l3: l[3] }
}

/// Calls the `-` of ark-ff on two field elements: their difference modulo the field prime.
#[verifier::external_body]
fn fr_sub(a: &Scalar, b: &Scalar) -> (r: Scalar)
    requires
        a@ < modulus(),
        b@ < modulus(),
    ensures
        r@ == (a@ - b@) % (modulus() as int),
{
    let x = ark_bn254::Fr::from(ark_ff::BigInt::new([a.l0, a.l1, a.l2, a.l3]));
    let y = ark_bn254::Fr::from(ark_ff::BigInt::new([b.l0, b.l1, b.l2, b.l3]));
    let l = (x - y).into_bigint().0;
    Scalar { l0: l[0], l1: l[1], l2: l[2], l3: l[3] }
}

/// Calls the `*` of ark-ff on two field elements: their product modulo the field prime.
#[verifier::external_body]
fn fr_mul(a: &Scalar, b: &Scalar) -> (r: Scalar)
    requires
        a@ < modulus(),
        b@ < modulus(),
    ensures
        r@ == (a@ * b@) % modulus(),
{
    let x = ark_bn254::Fr::from(ark_ff::BigInt::new([a.l0, a.l1, a.l2, a.l3]));
    let y = ark_bn254::Fr::from(ark_ff::BigInt::new([b.l0, b.l1, b.l2, b.l3]));
    let l = (x * y).into_bigint().0;
    Scalar { l0: l[0], l1: l[1], l2: l[2], l3: l[3] }
}

/// Calls the `/` of num-bigint on the two values as unsigned integers: the
/// quotient rounded down. The values go into `BigUint` and the quotient comes
/// back through the conversions that ark-ff gives between its field elements
/// and `BigUint`.
#[verifier::external_body]
fn big_div(a: &Scalar, b: &Scalar) -> (r: Scalar)
    requires
        a@ < modulus(),
        b@ < modulus(),
        b@ != 0,
    ensures
        r@ == a@ / b@,
{
    let x: num_bigint::BigUint = ark_bn254::Fr::from(ark_ff::BigInt::new([a.l0, a.l1, a.l2, a.l3])).into();
    let y: num_bigint::BigUint = ark_bn254::Fr::from(ark_ff::BigInt::new([b.l0, b.l1, b.l2, b.l3])).into();
    let q: ark_bn254::Fr = (x / y).into();
    let l = q.into_bigint().0;
    Scalar { l0: l[0], l1: l[1], l2: l[2], l3: l[3] }
}

/// Calls `Field::pow` of ark-ff with the one-limb exponent `exp`: the
/// element multiplied by itself `exp` times, modulo the field prime.
#[verifier::external_body]
fn fr_pow(a: &Scalar, exp: u64) -> (r: Scalar)
    requires
        a@ < modulus(),
    ensures
        r@ == vstd::arithmetic::power::pow(a@ as int, exp as nat) % (modulus() as int),
{
    let x = ark_bn254::Fr::from(ark_ff::BigInt::new([a.l0, a.l1, a.l2, a.l3]));
    let l = ark_ff::Field::pow(&x, [exp]).into_bigint().0;
    Scalar { l0: l[0], l1: l[1], l2: l[2], l3: l[3] }
}

/// Calls the `Display` of ark-ff's field elements, which prints the
/// canonical integer in decimal and strips leading zeros, so that zero
/// prints as the empty string.
#[verifier::external_body]
fn fr_to_string(a: &Scalar) -> (r: String)
    requires
        a@ < modulus(),
    ensures
        r@ == decimal(a@),
{
    let x = ark_bn254::Fr::from(ark_ff::BigInt::new([a.l0, a.l1, a.l2, a.l3]));
    format!("{}", x)
}

} // verus!
