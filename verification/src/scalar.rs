//! The scalar field in which secrets and shares live: the integers modulo
//! the prime order of the pairing groups, with the polynomial evaluation
//! that deals the shares.

use vstd::prelude::*;
use vstd::arithmetic::div_mod::{
    lemma_add_mod_noop, lemma_fundamental_div_mod_converse, lemma_mod_bound, lemma_small_mod,
};
use vstd::arithmetic::power2::{lemma2_to64, lemma_pow2_unfold, pow2};

verus! {

/// A number below 2^256 as four 64-bit limbs, the least significant first.
pub type RawSecret = [u64; 4];

/// The limbs of the modulus, the least significant first.
pub const MODULUS_0: u64 = 0xffff_ffff_0000_0001;

pub const MODULUS_1: u64 = 0x53bd_a402_fffe_5bfe;

pub const MODULUS_2: u64 = 0x3339_d808_09a1_d805;

pub const MODULUS_3: u64 = 0x73ed_a753_299d_7d48;

/// The number that four limbs stand for.
pub open spec fn spec_limbs_value(l0: u64, l1: u64, l2: u64, l3: u64) -> nat {
    (l0 + 0x1_0000_0000_0000_0000 * (l1 + 0x1_0000_0000_0000_0000 * (l2 + 0x1_0000_0000_0000_0000
        * l3))) as nat
}

/// The number that a raw secret stands for.
pub open spec fn spec_raw_value(raw: RawSecret) -> nat {
    spec_limbs_value(raw[0], raw[1], raw[2], raw[3])
}

/// The order of the field: the prime
/// 0x73eda753299d7d483339d80809a1d80553bda402fffe5bfeffffffff00000001.
pub open spec fn spec_modulus() -> nat {
    spec_limbs_value(
        0xffff_ffff_0000_0001,
        0x53bd_a402_fffe_5bfe,
        0x3339_d808_09a1_d805,
        0x73ed_a753_299d_7d48,
    )
}

/// The number that eight bytes of `bytes` from position `at` on stand for,
/// the least significant byte first.
pub open spec fn spec_le_u64(bytes: Seq<u8>, at: int) -> nat {
    (bytes[at] + 0x100 * bytes[at + 1] + 0x1_0000 * bytes[at + 2] + 0x100_0000 * bytes[at + 3]
        + 0x1_0000_0000 * bytes[at + 4] + 0x100_0000_0000 * bytes[at + 5] + 0x1_0000_0000_0000
        * bytes[at + 6] + 0x100_0000_0000_0000 * bytes[at + 7]) as nat
}

/// The number that 32 bytes stand for, the least significant byte first.
pub open spec fn spec_bytes_value(bytes: Seq<u8>) -> nat {
    (spec_le_u64(bytes, 0) + 0x1_0000_0000_0000_0000 * (spec_le_u64(bytes, 8)
        + 0x1_0000_0000_0000_0000 * (spec_le_u64(bytes, 16) + 0x1_0000_0000_0000_0000
        * spec_le_u64(bytes, 24)))) as nat
}

/// Tells whether the number of the limbs is at least the modulus.
fn reaches_modulus(l: &RawSecret) -> (reaches: bool)
    ensures
        reaches == (spec_raw_value(*l) >= spec_modulus()),
{
    if l[3] != MODULUS_3 {
        return l[3] > MODULUS_3;
    }
    if l[2] != MODULUS_2 {
        return l[2] > MODULUS_2;
    }
    if l[1] != MODULUS_1 {
        return l[1] > MODULUS_1;
    }
    l[0] >= MODULUS_0
}

/// Takes the modulus off a number that is at least the modulus.
fn less_modulus(l: &RawSecret) -> (rest: RawSecret)
    requires
        spec_raw_value(*l) >= spec_modulus(),
    ensures
        spec_raw_value(rest) == spec_raw_value(*l) - spec_modulus(),
{
    let base: u128 = 0x1_0000_0000_0000_0000;
    let d0: u128 = base + l[0] as u128 - MODULUS_0 as u128;
    let r0: u64 = (d0 % base) as u64;
    let b0: u128 = 1 - d0 / base;
    let d1: u128 = base + l[1] as u128 - MODULUS_1 as u128 - b0;
    let r1: u64 = (d1 % base) as u64;
    let b1: u128 = 1 - d1 / base;
    let d2: u128 = base + l[2] as u128 - MODULUS_2 as u128 - b1;
    let r2: u64 = (d2 % base) as u64;
    let b2: u128 = 1 - d2 / base;
    let d3: u128 = base + l[3] as u128 - MODULUS_3 as u128 - b2;
    let r3: u64 = (d3 % base) as u64;
    assert(d3 / base == 1);
    [r0, r1, r2, r3]
}

/// Adds two numbers below the modulus, limb by limb.
fn sum_limbs(a: &RawSecret, b: &RawSecret) -> (sum: RawSecret)
    requires
        spec_raw_value(*a) < spec_modulus(),
        spec_raw_value(*b) < spec_modulus(),
    ensures
        spec_raw_value(sum) == spec_raw_value(*a) + spec_raw_value(*b),
{
    let base: u128 = 0x1_0000_0000_0000_0000;
    let s0: u128 = a[0] as u128 + b[0] as u128;
    let r0: u64 = (s0 % base) as u64;
    let c0: u128 = s0 / base;
    let s1: u128 = a[1] as u128 + b[1] as u128 + c0;
    let r1: u64 = (s1 % base) as u64;
    let c1: u128 = s1 / base;
    let s2: u128 = a[2] as u128 + b[2] as u128 + c1;
    let r2: u64 = (s2 % base) as u64;
    let c2: u128 = s2 / base;
    let s3: u128 = a[3] as u128 + b[3] as u128 + c2;
    assert(a[3] <= 0x73ed_a753_299d_7d48);
    assert(b[3] <= 0x73ed_a753_299d_7d48);
    let r3: u64 = s3 as u64;
    [r0, r1, r2, r3]
}

/// The number that the limbs from position `from` on stand for, the limb
/// at `from` being the least significant.
pub open spec fn spec_high_value(raw: RawSecret, from: int) -> nat {
    if from >= 4 {
        0
    } else if from == 3 {
        raw[3] as nat
    } else if from == 2 {
        (raw[2] + 0x1_0000_0000_0000_0000 * raw[3]) as nat
    } else if from == 1 {
        (raw[1] + 0x1_0000_0000_0000_0000 * (raw[2] + 0x1_0000_0000_0000_0000 * raw[3])) as nat
    } else {
        spec_raw_value(raw)
    }
}

/// An element of the field: a number below the modulus.
#[derive(Clone, Copy, Debug, PartialEq, Eq)]
pub struct Scalar {
    limbs: RawSecret,
}

impl View for Scalar {
    type V = nat;

    closed spec fn view(&self) -> nat {
        spec_raw_value(self.limbs) % spec_modulus()
    }
}

impl Scalar {
    #[verifier::type_invariant]
    spec fn canonical(&self) -> bool {
        spec_raw_value(self.limbs) < spec_modulus()
    }

    /// The number of a scalar is below the modulus.
    pub proof fn lemma_below_modulus(&self)
        ensures
            self@ < spec_modulus(),
    {
        lemma_mod_bound(spec_raw_value(self.limbs) as int, spec_modulus() as int);
    }

    /// Makes the scalar whose number the limbs hold.
    fn of_limbs(limbs: RawSecret) -> (scalar: Scalar)
        requires
            spec_raw_value(limbs) < spec_modulus(),
        ensures
            scalar@ == spec_raw_value(limbs),
            scalar.limbs == limbs,
    {
        proof {
            lemma_small_mod(spec_raw_value(limbs), spec_modulus());
        }
        Scalar { limbs }
    }

    /// Tells the verifier that the limbs hold the scalar's number itself.
    fn settle(&self)
        ensures
            self@ == spec_raw_value(self.limbs),
            self@ < spec_modulus(),
    {
        proof {
            use_type_invariant(self);
            lemma_small_mod(spec_raw_value(self.limbs), spec_modulus());
        }
    }

    /// The scalar zero.
    pub fn zero() -> (zero: Scalar)
        ensures
            zero@ == 0,
    {
        Scalar::of_limbs([0, 0, 0, 0])
    }

    /// The scalar of a small number.
    pub fn from_u64(x: u64) -> (scalar: Scalar)
        ensures
            scalar@ == x,
    {
        Scalar::of_limbs([x, 0, 0, 0])
    }

    /// The scalar of a raw secret: its number, reduced by the modulus.
    pub fn from_raw(raw: RawSecret) -> (scalar: Scalar)
        ensures
            scalar@ == spec_raw_value(raw) % spec_modulus(),
    {
        let mut limbs: RawSecret = raw;
        let ghost mut taken: int = 0;
        if reaches_modulus(&limbs) {
            limbs = less_modulus(&limbs);
            proof {
                taken = 1;
            }
        }
        if reaches_modulus(&limbs) {
            limbs = less_modulus(&limbs);
            proof {
                taken = taken + 1;
            }
        }
        proof {
            let m = spec_modulus() as int;
            assert(spec_raw_value(raw) == taken * m + spec_raw_value(limbs)) by (nonlinear_arith)
                requires
                    taken == 0 || taken == 1 || taken == 2,
                    spec_raw_value(raw) == spec_raw_value(limbs) + (if taken == 0 {
                        0
                    } else if taken == 1 {
                        m
                    } else {
                        m + m
                    }),
            ;
            lemma_fundamental_div_mod_converse(
                spec_raw_value(raw) as int,
                m,
                taken,
                spec_raw_value(limbs) as int,
            );
        }
        Scalar::of_limbs(limbs)
    }

    /// The limbs of the scalar's number.
    pub fn to_raw(&self) -> (raw: RawSecret)
        ensures
            spec_raw_value(raw) == self@,
    {
        self.settle();
        self.limbs
    }

    /// The sum of two scalars.
    pub fn plus(&self, other: &Scalar) -> (sum: Scalar)
        ensures
            sum@ == (self@ + other@) % spec_modulus(),
    {
        self.settle();
        other.settle();
        let mut limbs: RawSecret = sum_limbs(&self.limbs, &other.limbs);
        let ghost whole = spec_raw_value(limbs) as int;
        let ghost m = spec_modulus() as int;
        if reaches_modulus(&limbs) {
            limbs = less_modulus(&limbs);
            proof {
                lemma_fundamental_div_mod_converse(whole, m, 1, spec_raw_value(limbs) as int);
            }
        } else {
            proof {
                lemma_small_mod(whole as nat, m as nat);
            }
        }
        Scalar::of_limbs(limbs)
    }

    /// The product of two scalars.
    pub fn times(&self, other: &Scalar) -> (product: Scalar)
        ensures
            product@ == (self@ * other@) % spec_modulus(),
    {
        self.settle();
        other.settle();
        let ghost m = spec_modulus();
        let ghost a = self@;
        let mut acc: Scalar = Scalar::zero();
        let ghost mut pre: nat = 0;
        let mut i: usize = 4;
        proof {
            assert(a * 0 == 0) by (nonlinear_arith);
            lemma_small_mod(0, m);
        }
        while i > 0
            invariant
                i <= 4,
                m == spec_modulus(),
                a == self@,
                a < m,
                pre == spec_high_value(other.limbs, i as int),
                other@ == spec_raw_value(other.limbs),
                acc@ == (a * pre) % m,
            decreases i,
        {
            i = i - 1;
            let limb: u64 = other.limbs[i];
            let ghost start = pre;
            let mut weight: u128 = 0x1_0000_0000_0000_0000;
            let mut rest: u64 = limb;
            let mut j: usize = 0;
            proof {
                lemma2_to64();
            }
            while j < 64
                invariant
                    j <= 64,
                    m == spec_modulus(),
                    a == self@,
                    a < m,
                    weight == pow2((64 - j) as nat),
                    rest < weight,
                    pre * weight + rest == start * 0x1_0000_0000_0000_0000 + limb,
                    acc@ == (a * pre) % m,
                decreases 64 - j,
            {
                proof {
                    lemma_pow2_unfold((64 - j) as nat);
                }
                let half: u128 = weight / 2;
                let ghost before = acc@;
                acc = acc.plus(&acc);
                proof {
                    lemma_add_mod_noop((a * pre) as int, (a * pre) as int, m as int);
                    assert(a * pre + a * pre == a * (2 * pre)) by (nonlinear_arith);
                }
                let ghost mut bit: nat = 0;
                if rest as u128 >= half {
                    let ghost doubled = acc@;
                    acc = acc.plus(self);
                    rest = (rest as u128 - half) as u64;
                    proof {
                        bit = 1;
                        lemma_small_mod(a, m);
                        lemma_add_mod_noop((a * (2 * pre)) as int, a as int, m as int);
                        assert(a * (2 * pre) + a == a * (2 * pre + 1)) by (nonlinear_arith);
                    }
                }
                proof {
                    let next = 2 * pre + bit;
                    assert(next * half + rest == start * 0x1_0000_0000_0000_0000 + limb)
                        by (nonlinear_arith)
                        requires
                            weight == 2 * half,
                            bit == 0 || bit == 1,
                            rest + bit * half + pre * weight == start * 0x1_0000_0000_0000_0000
                                + limb,
                            next == 2 * pre + bit,
                    ;
                    pre = next;
                }
                weight = half;
                j = j + 1;
            }
            proof {
                assert(pow2(0) == 1) by {
                    lemma2_to64();
                }
                assert(pre * weight == pre) by (nonlinear_arith)
                    requires
                        weight == 1,
                ;
                assert(pre == start * 0x1_0000_0000_0000_0000 + limb);
            }
        }
        acc
    }

    /// The scalar whose number the 32 bytes stand for, the least
    /// significant byte first; none when that number is not below the
    /// modulus.
    pub fn from_bytes(bytes: &[u8; 32]) -> (scalar: Option<Scalar>)
        ensures
            scalar.is_some() == (spec_bytes_value(bytes@) < spec_modulus()),
            scalar matches Some(s) ==> s@ == spec_bytes_value(bytes@),
    {
        let raw: RawSecret = u8_array_to_raw_scalar(*bytes);
        if reaches_modulus(&raw) {
            None
        } else {
            Some(Scalar::of_limbs(raw))
        }
    }

    /// The 32 bytes of the scalar's number, the least significant byte
    /// first.
    pub fn to_bytes(&self) -> (bytes: [u8; 32])
        ensures
            spec_bytes_value(bytes@) == self@,
    {
        self.settle();
        let a: [u8; 8] = limb_bytes(self.limbs[0]);
        let b: [u8; 8] = limb_bytes(self.limbs[1]);
        let c: [u8; 8] = limb_bytes(self.limbs[2]);
        let d: [u8; 8] = limb_bytes(self.limbs[3]);
        let bytes: [u8; 32] = [
            a[0],
            a[1],
            a[2],
            a[3],
            a[4],
            a[5],
            a[6],
            a[7],
            b[0],
            b[1],
            b[2],
            b[3],
            b[4],
            b[5],
            b[6],
            b[7],
            c[0],
            c[1],
            c[2],
            c[3],
            c[4],
            c[5],
            c[6],
            c[7],
            d[0],
            d[1],
            d[2],
            d[3],
            d[4],
            d[5],
            d[6],
            d[7],
        ];
        assert(spec_le_u64(bytes@, 0) == self.limbs[0]);
        assert(spec_le_u64(bytes@, 8) == self.limbs[1]);
        assert(spec_le_u64(bytes@, 16) == self.limbs[2]);
        assert(spec_le_u64(bytes@, 24) == self.limbs[3]);
        bytes
    }
}

/// Splits a limb into its eight bytes, the least significant first.
fn limb_bytes(limb: u64) -> (bytes: [u8; 8])
    ensures
        spec_le_u64(bytes@, 0) == limb,
{
    let b0: u8 = (limb % 0x100) as u8;
    let r1: u64 = limb / 0x100;
    let b1: u8 = (r1 % 0x100) as u8;
    let r2: u64 = r1 / 0x100;
    let b2: u8 = (r2 % 0x100) as u8;
    let r3: u64 = r2 / 0x100;
    let b3: u8 = (r3 % 0x100) as u8;
    let r4: u64 = r3 / 0x100;
    let b4: u8 = (r4 % 0x100) as u8;
    let r5: u64 = r4 / 0x100;
    let b5: u8 = (r5 % 0x100) as u8;
    let r6: u64 = r5 / 0x100;
    let b6: u8 = (r6 % 0x100) as u8;
    let r7: u64 = r6 / 0x100;
    let b7: u8 = r7 as u8;
    assert(limb == b0 + 0x100 * r1);
    assert(r1 == b1 + 0x100 * r2);
    assert(r2 == b2 + 0x100 * r3);
    assert(r3 == b3 + 0x100 * r4);
    assert(r4 == b4 + 0x100 * r5);
    assert(r5 == b5 + 0x100 * r6);
    assert(r6 == b6 + 0x100 * r7);
    [b0, b1, b2, b3, b4, b5, b6, b7]
}

/// Reads eight bytes of `bytes` from position `at` on as one limb, the
/// least significant byte first.
fn limb_at(bytes: &[u8; 32], at: usize) -> (limb: u64)
    requires
        at + 8 <= 32,
    ensures
        limb == spec_le_u64(bytes@, at as int),
{
    bytes[at] as u64 + 0x100 * (bytes[at + 1] as u64) + 0x1_0000 * (bytes[at + 2] as u64)
        + 0x100_0000 * (bytes[at + 3] as u64) + 0x1_0000_0000 * (bytes[at + 4] as u64)
        + 0x100_0000_0000 * (bytes[at + 5] as u64) + 0x1_0000_0000_0000 * (bytes[at + 6] as u64)
        + 0x100_0000_0000_0000 * (bytes[at + 7] as u64)
}

/// Reads 32 bytes as four limbs: each run of eight bytes is one limb, the
/// least significant byte first, and the first run is the least
/// significant limb.
pub fn u8_array_to_raw_scalar(bytes: [u8; 32]) -> (raw: RawSecret)
    ensures
        raw[0] == spec_le_u64(bytes@, 0),
        raw[1] == spec_le_u64(bytes@, 8),
        raw[2] == spec_le_u64(bytes@, 16),
        raw[3] == spec_le_u64(bytes@, 24),
        spec_raw_value(raw) == spec_bytes_value(bytes@),
{
    [limb_at(&bytes, 0), limb_at(&bytes, 8), limb_at(&bytes, 16), limb_at(&bytes, 24)]
}

/// Makes a raw secret of the 32 random bytes that the host has drawn.
pub fn gen_raw_scalar(seed: [u8; 32]) -> (raw: RawSecret)
    ensures
        spec_raw_value(raw) == spec_bytes_value(seed@),
        raw[0] == spec_le_u64(seed@, 0),
        raw[1] == spec_le_u64(seed@, 8),
        raw[2] == spec_le_u64(seed@, 16),
        raw[3] == spec_le_u64(seed@, 24),
{
    u8_array_to_raw_scalar(seed)
}

/// Makes the coefficients of a polynomial, one of each seed that the host
/// has drawn: the polynomial's degree is one less than the number of
/// seeds.
pub fn gen_poly_coeffs(seeds: &Vec<[u8; 32]>) -> (coeffs: Vec<RawSecret>)
    ensures
        coeffs.len() == seeds.len(),
        forall|i: int|
            0 <= i < coeffs.len() ==> spec_raw_value(#[trigger] coeffs[i]) == spec_bytes_value(
                seeds[i]@,
            ),
{
    let mut coeffs: Vec<RawSecret> = Vec::new();
    let mut i: usize = 0;
    while i < seeds.len()
        invariant
            i <= seeds.len(),
            coeffs.len() == i,
            forall|k: int|
                0 <= k < i ==> spec_raw_value(#[trigger] coeffs[k]) == spec_bytes_value(seeds[k]@),
        decreases seeds.len() - i,
    {
        coeffs.push(gen_raw_scalar(seeds[i]));
        i = i + 1;
    }
    coeffs
}

/// The numbers of a sequence of scalars.
pub open spec fn spec_values(scalars: Seq<Scalar>) -> Seq<nat> {
    scalars.map_values(|s: Scalar| s@)
}

/// The value at `x` of the polynomial with coefficients `coeffs`, the
/// constant one first, in the field: the first coefficient, plus `x` times
/// the value of the polynomial that the other coefficients make.
pub open spec fn spec_poly_eval(coeffs: Seq<nat>, x: nat) -> nat
    decreases coeffs.len(),
{
    if coeffs.len() == 0 {
        0
    } else {
        (coeffs[0] + x * spec_poly_eval(coeffs.skip(1), x)) % spec_modulus()
    }
}

/// Evaluates the polynomial with coefficients `coeffs`, the constant one
/// first, at `x`.
pub fn poly_eval(coeffs: &Vec<Scalar>, x: &Scalar) -> (eval: Scalar)
    ensures
        eval@ == spec_poly_eval(spec_values(coeffs@), x@),
{
    let ghost values = spec_values(coeffs@);
    let ghost m = spec_modulus();
    let mut eval: Scalar = Scalar::zero();
    let mut i: usize = coeffs.len();
    assert(values.subrange(i as int, values.len() as int) =~= Seq::<nat>::empty());
    while i > 0
        invariant
            i <= coeffs.len(),
            values == spec_values(coeffs@),
            m == spec_modulus(),
            eval@ == spec_poly_eval(values.subrange(i as int, values.len() as int), x@),
        decreases i,
    {
        i = i - 1;
        let ghost tail = values.subrange(i + 1, values.len() as int);
        let ghost inner = spec_poly_eval(tail, x@);
        let shifted: Scalar = eval.times(x);
        eval = shifted.plus(&coeffs[i]);
        proof {
            let part = values.subrange(i as int, values.len() as int);
            assert(part.skip(1) =~= tail);
            assert(part[0] == coeffs@[i as int]@);
            coeffs@[i as int].lemma_below_modulus();
            lemma_small_mod(coeffs@[i as int]@, m);
            assert(inner * x@ == x@ * inner) by (nonlinear_arith);
            lemma_add_mod_noop((x@ * inner) as int, coeffs@[i as int]@ as int, m as int);
        }
    }
    assert(values.subrange(0, values.len() as int) =~= values);
    eval
}

/// The point at which the polynomials are evaluated for the member at
/// position `ix`: the position plus one, so that no member holds the
/// value at zero, which is the secret.
pub open spec fn spec_member_point(ix: nat) -> nat {
    ix + 1
}

/// Gives the point at which the polynomials are evaluated for the member
/// at position `ix`.
pub fn member_point(ix: u64) -> (point: Scalar)
    ensures
        point@ == spec_member_point(ix as nat),
{
    let point: Scalar = Scalar::from_u64(ix).plus(&Scalar::from_u64(1));
    proof {
        assert(spec_modulus() > 0x1_0000_0000_0000_0000);
        lemma_small_mod((ix + 1) as nat, spec_modulus());
    }
    point
}

} // verus!
