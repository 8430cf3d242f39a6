//! The prime field of the conversions, with its integer model.

use vstd::prelude::*;
use vstd::arithmetic::div_mod::*;
use rand::Rng;

verus! {

/// The field's prime modulus, 2^31 - 1.
pub const MODULUS: u64 = 2147483647;

/// The modulus as a mathematical integer.
pub open spec fn modulus() -> int {
    MODULUS as int
}

/// Addition in the field, on the integer model.
#[verifier::opaque]
pub open spec fn fadd(a: int, b: int) -> int {
    (a + b) % modulus()
}

/// Multiplication in the field, on the integer model.
#[verifier::opaque]
pub open spec fn fmul(a: int, b: int) -> int {
    (a * b) % modulus()
}

/// Negation in the field, on the integer model.
#[verifier::opaque]
pub open spec fn fneg(a: int) -> int {
    (-a) % modulus()
}

/// `(-c + d)` taken in the field is the field sum of `-c` and `d`.
proof fn lemma_sum_with_neg(u: int, c: int, d: int)
    ensures
        fadd(fadd(u, fneg(c)), d) == (u - c + d) % modulus(),
        fadd(fneg(c), d) == (-c + d) % modulus(),
{
    reveal(fadd);
    reveal(fneg);
    let p = modulus();
    let x = (u + (-c) % p) % p;
    lemma_add_mod_noop_right(u, -c, p);
    assert(x == (u - c) % p);
    lemma_add_mod_noop_right(d, u - c, p);
    assert((x + d) % p == (d + x) % p);
    assert(d + (u - c) == u - c + d);
    lemma_add_mod_noop_right(d, -c, p);
    assert(((-c) % p + d) % p == (d + (-c) % p) % p);
    assert(d + -c == -c + d);
}

/// Multiplying a share that carries the factor `ai` by an inverse `a` of `ai`
/// removes that factor: if `ai * y == -c + d`, then
/// `a * ((ai * x - c) + d) == x + y` in the field.
pub proof fn lemma_unmask(ai: int, a: int, x: int, y: int, c: int, d: int)
    requires
        fmul(ai, a) == 1,
        fmul(ai, y) == fadd(fneg(c), d),
    ensures
        fmul(a, fadd(fadd(fmul(ai, x), fneg(c)), d)) == fadd(x, y),
{
    reveal(fadd);
    reveal(fmul);
    reveal(fneg);
    let p = modulus();
    let b = fadd(fadd(fmul(ai, x), fneg(c)), d);
    lemma_sum_with_neg(fmul(ai, x), c, d);
    assert(b == ((ai * x) % p - c + d) % p);
    lemma_add_mod_noop_right(-c + d, ai * x, p);
    assert(((ai * x) % p + (-c + d)) % p == (ai * x + (-c + d)) % p);
    assert((ai * x) % p - c + d == (ai * x) % p + (-c + d));
    assert(b == (ai * x + (-c + d)) % p);
    lemma_add_mod_noop_right(ai * x, -c + d, p);
    lemma_add_mod_noop_right(ai * x, ai * y, p);
    assert((-c + d) % p == (ai * y) % p);
    assert(b == (ai * x + ai * y) % p);
    assert(ai * x + ai * y == ai * (x + y)) by (nonlinear_arith);
    assert(b == (ai * (x + y)) % p);
    lemma_mul_mod_noop_right(a, ai * (x + y), p);
    assert(a * (ai * (x + y)) == (a * ai) * (x + y)) by (nonlinear_arith);
    lemma_mul_mod_noop_left(a * ai, x + y, p);
    assert(a * ai == ai * a) by (nonlinear_arith);
    assert(1 * (x + y) == x + y);
}

/// Adding `c` to a product and then `-c` gives the product back:
/// `-c + (u * v + c) == u * v` in the field.
pub proof fn lemma_shift(u: int, v: int, c: int)
    ensures
        fadd(fneg(c), fadd(fmul(u, v), c)) == fmul(u, v),
{
    reveal(fadd);
    reveal(fmul);
    reveal(fneg);
    let m = modulus();
    let p = (u * v) % m;
    lemma_add_mod_noop(-c, p + c, m);
    lemma_mod_twice(-c, m);
    lemma_mod_twice(p + c, m);
    lemma_small_mod(p as nat, m as nat);
}

/// Whether `d` divides both `x` and `y`.
pub open spec fn common_divisor(d: int, x: int, y: int) -> bool {
    x % d == 0 && y % d == 0
}

/// Whether `p` is a prime.
pub open spec fn is_prime(p: int) -> bool {
    p > 1 && forall|d: int| 1 < d < p ==> #[trigger] (p % d) != 0
}

/// No integer from 2 to 2^16 times another from 2 to 2^30 gives `MODULUS`.
#[verifier::rlimit(100)]
proof fn lemma_no_small_factor(x: u64, y: u64)
    by (bit_vector)
    requires
        2 <= x < 65536,
        2 <= y < 1073741824,
    ensures
        x * y != 2147483647,
{
}

/// `MODULUS` is a prime, so every nonzero element is invertible.
pub proof fn lemma_modulus_prime()
    ensures
        is_prime(modulus()),
{
    let p = modulus();
    assert forall|d: int| 1 < d < p implies #[trigger] (p % d) != 0 by {
        if p % d == 0 {
            let q = p / d;
            lemma_fundamental_div_mod(p, d);
            assert(p == d * q);
            assert(q >= 2) by (nonlinear_arith)
                requires
                    p == d * q,
                    1 < d < p,
            ;
            assert(q < 1073741824) by (nonlinear_arith)
                requires
                    p == d * q,
                    d >= 2,
                    p == 2147483647,
            ;
            assert(d < 1073741824) by (nonlinear_arith)
                requires
                    p == d * q,
                    q >= 2,
                    p == 2147483647,
            ;
            if d < 65536 {
                lemma_no_small_factor(d as u64, q as u64);
            } else {
                assert(q < 65536) by (nonlinear_arith)
                    requires
                        p == d * q,
                        d >= 65536,
                        p == 2147483647,
                ;
                assert(q * d == p) by (nonlinear_arith)
                    requires
                        p == d * q,
                ;
                lemma_no_small_factor(q as u64, d as u64);
            }
        }
    }
}

/// A positive divisor of a positive integer is at most that integer.
proof fn lemma_divisor_le(d: int, a: int)
    requires
        d > 0,
        a > 0,
        a % d == 0,
    ensures
        d <= a,
{
    lemma_fundamental_div_mod(a, d);
    assert(d <= a) by (nonlinear_arith)
        requires
            a == d * (a / d),
            a > 0,
            d > 0,
    ;
}

/// A step of Euclid's algorithm keeps the common divisors:
/// those of `r1` and `r0 % r1` are those of `r0` and `r1`.
proof fn lemma_common_divisor_step(d: int, r0: int, r1: int)
    requires
        d > 0,
        r0 >= 0,
        r1 > 0,
    ensures
        common_divisor(d, r1, r0 % r1) == common_divisor(d, r0, r1),
{
    lemma_fundamental_div_mod(r0, r1);
    if r1 % d == 0 {
        lemma_fundamental_div_mod(r1, d);
        let k = (r1 / d) * (r0 / r1);
        assert(r0 == d * k + r0 % r1) by (nonlinear_arith)
            requires
                r0 == r1 * (r0 / r1) + r0 % r1,
                r1 == d * (r1 / d) + r1 % d,
                r1 % d == 0,
                k == (r1 / d) * (r0 / r1),
        ;
        lemma_mod_multiples_vanish(k, r0 % r1, d);
    }
}

/// A step of the extended Euclidean algorithm keeps each remainder
/// congruent to its coefficient times `a`, modulo `MODULUS`.
proof fn lemma_euclid_step(r0: int, r1: int, s0: int, s1: int, s2: int, q: int, a: int)
    requires
        r1 > 0,
        r0 >= 0,
        q == r0 / r1,
        0 <= s1 < modulus(),
        0 <= s0 < modulus(),
        s2 == (s0 + modulus() - (q * s1) % modulus()) % modulus(),
        r0 % modulus() == (s0 * a) % modulus(),
        r1 % modulus() == (s1 * a) % modulus(),
    ensures
        (r0 % r1) % modulus() == (s2 * a) % modulus(),
{
    let p = modulus();
    lemma_fundamental_div_mod(r0, r1);
    assert(r0 % r1 == r0 - q * r1) by (nonlinear_arith)
        requires
            r0 == r1 * (r0 / r1) + r0 % r1,
            q == r0 / r1,
    ;
    // s2 is congruent to s0 - q * s1.
    lemma_mod_twice(q * s1, p);
    lemma_sub_mod_noop_right(s0 + p, q * s1, p);
    lemma_mod_add_multiples_vanish(s0 - q * s1, p);
    assert(s0 + p - q * s1 == (s0 - q * s1) + p);
    assert(s2 % p == (s0 - q * s1) % p) by {
        lemma_mod_twice(s0 + p - (q * s1) % p, p);
    }
    lemma_mul_mod_noop_left(s2, a, p);
    lemma_mul_mod_noop_left(s0 - q * s1, a, p);
    assert((s0 - q * s1) * a == s0 * a - q * (s1 * a)) by (nonlinear_arith);
    lemma_sub_mod_noop(s0 * a, q * (s1 * a), p);
    lemma_mul_mod_noop_right(q, s1 * a, p);
    lemma_mul_mod_noop_right(q, r1, p);
    lemma_sub_mod_noop(r0, q * r1, p);
}

/// An element of the field, held as its canonical representative.
#[derive(Clone, Copy, Debug, PartialEq, Eq, Structural)]
pub struct Fp {
    val: u64,
}

impl View for Fp {
    type V = int;

    closed spec fn view(&self) -> int {
        self.val as int
    }
}

/// Relies on rand's thread-local generator and `Rng::gen_range`: a value drawn
/// from the half-open range `lo..hi`, which must not be empty.
#[verifier::external_body]
fn random_in_range(lo: u64, hi: u64) -> (r: u64)
    requires
        lo < hi,
    ensures
        lo <= r < hi,
{
    rand::thread_rng().gen_range(lo..hi)
}

impl Fp {
    #[verifier::type_invariant]
    spec fn canonical(self) -> bool {
        self.val < MODULUS
    }

    /// The additive identity.
    pub fn zero() -> (r: Fp)
        ensures
            r@ == 0,
    {
        Fp { val: 0 }
    }

    /// The multiplicative identity.
    pub fn one() -> (r: Fp)
        ensures
            r@ == 1,
    {
        Fp { val: 1 }
    }

    /// The element that an integer stands for, reduced modulo `MODULUS`.
    pub fn new(v: u64) -> (r: Fp)
        ensures
            r@ == v as int % modulus(),
    {
        Fp { val: v % MODULUS }
    }

    /// The canonical representative of the element.
    pub fn value(&self) -> (r: u64)
        ensures
            r as int == self@,
            r < MODULUS,
    {
        proof {
            use_type_invariant(self);
        }
        self.val
    }

    /// Whether this is the additive identity.
    pub fn is_zero(&self) -> (r: bool)
        ensures
            r == (self@ == 0),
    {
        self.val == 0
    }

    /// The sum of two elements.
    pub fn add(self, other: Fp) -> (r: Fp)
        ensures
            r@ == fadd(self@, other@),
    {
        reveal(fadd);
        proof {
            use_type_invariant(self);
            use_type_invariant(other);
        }
        let s: u64 = self.val + other.val;
        if s >= MODULUS {
            proof {
                lemma_fundamental_div_mod_converse(
                    s as int, modulus(), 1, s as int - modulus());
            }
            Fp { val: s - MODULUS }
        } else {
            proof {
                lemma_small_mod(s as nat, MODULUS as nat);
            }
            Fp { val: s }
        }
    }

    /// The additive inverse of an element.
    pub fn neg(self) -> (r: Fp)
        ensures
            r@ == fneg(self@),
    {
        reveal(fneg);
        proof {
            use_type_invariant(self);
        }
        if self.val == 0 {
            Fp { val: 0 }
        } else {
            proof {
                lemma_fundamental_div_mod_converse(
                    -(self.val as int), modulus(), -1, modulus() - self.val as int);
            }
            Fp { val: MODULUS - self.val }
        }
    }

    /// The product of two elements.
    pub fn mul(self, other: Fp) -> (r: Fp)
        ensures
            r@ == fmul(self@, other@),
    {
        reveal(fmul);
        proof {
            use_type_invariant(self);
            use_type_invariant(other);
            assert((self.val as int) * (other.val as int) < 0x1_0000_0000_0000_0000_0000_0000_0000_0000)
                by (nonlinear_arith)
                requires
                    self.val < MODULUS,
                    other.val < MODULUS,
            ;
        }
        let p: u128 = (self.val as u128) * (other.val as u128);
        let r: u128 = p % (MODULUS as u128);
        Fp { val: r as u64 }
    }

    /// The multiplicative inverse, found by the extended Euclidean
    /// algorithm: every nonzero element has one, and zero has none.
    pub fn inverse(self) -> (r: Option<Fp>)
        ensures
            r is Some <==> self@ != 0,
            r matches Some(i) ==> fmul(self@, i@) == 1,
    {
        proof {
            use_type_invariant(self);
        }
        if self.val == 0 {
            return None;
        }
        let a: u64 = self.val;
        let ghost p: int = modulus();
        let mut r0: u64 = MODULUS;
        let mut r1: u64 = a;
        let mut s0: u64 = 0;
        let mut s1: u64 = 1;
        proof {
            lemma_small_mod(1, MODULUS as nat);
            lemma_small_mod(a as nat, MODULUS as nat);
            lemma_mod_self_0(p);
            assert(0 * (a as int) == 0);
            assert(1 * (a as int) == a);
            lemma_small_mod(0, MODULUS as nat);
        }
        while r1 != 0
            invariant
                0 < a < MODULUS,
                p == modulus(),
                0 < r0 <= MODULUS,
                r1 < r0,
                s0 < MODULUS,
                s1 < MODULUS,
                (r0 as int) % p == (s0 as int * a as int) % p,
                (r1 as int) % p == (s1 as int * a as int) % p,
                forall|d: int| d > 0 ==> #[trigger] common_divisor(d, r0 as int, r1 as int) == common_divisor(d, a as int, p),
            decreases r1,
        {
            let q: u64 = r0 / r1;
            let r2: u64 = r0 % r1;
            proof {
                assert(q <= r0) by {
                    lemma_div_is_ordered_by_denominator(r0 as int, 1, r1 as int);
                }
                assert((q as int) * (s1 as int) < 0x1_0000_0000_0000_0000) by (nonlinear_arith)
                    requires
                        q <= MODULUS,
                        s1 < MODULUS,
                ;
            }
            let t: u64 = (q * s1) % MODULUS;
            let s2: u64 = (s0 + MODULUS - t) % MODULUS;
            proof {
                lemma_euclid_step(r0 as int, r1 as int, s0 as int, s1 as int, s2 as int, q as int, a as int);
                assert forall|d: int| d > 0 implies #[trigger] common_divisor(d, r1 as int, r2 as int) == common_divisor(d, a as int, p) by {
                    lemma_common_divisor_step(d, r0 as int, r1 as int);
                    assert(common_divisor(d, r0 as int, r1 as int) == common_divisor(d, a as int, p));
                }
            }
            r0 = r1;
            r1 = r2;
            s0 = s1;
            s1 = s2;
        }
        proof {
            assert(common_divisor(r0 as int, r0 as int, 0));
            assert(common_divisor(r0 as int, a as int, p));
            lemma_divisor_le(r0 as int, a as int);
            lemma_modulus_prime();
            if r0 > 1 {
                assert(p % (r0 as int) != 0);
            }
            assert(r0 == 1);
            reveal(fmul);
            lemma_small_mod(1, MODULUS as nat);
            assert((a as int) * (s0 as int) == (s0 as int) * (a as int)) by (nonlinear_arith);
        }
        Some(Fp { val: s0 })
    }

    /// A uniformly drawn element.
    pub fn rand() -> (r: Fp)
        ensures
            0 <= r@ < modulus(),
    {
        Fp { val: random_in_range(0, MODULUS) }
    }

    /// A uniformly drawn nonzero element: the distribution that drawing
    /// again on zero gives.
    pub fn rand_nonzero() -> (r: Fp)
        ensures
            0 < r@ < modulus(),
    {
        Fp { val: random_in_range(1, MODULUS) }
    }
}

} // verus!
