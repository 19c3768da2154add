use vstd::arithmetic::div_mod::{lemma_fundamental_div_mod, lemma_mod_bound};
use vstd::arithmetic::power::pow;
use vstd::prelude::*;

use crate::integer::{int_abs, trunc_div, Integer};
use crate::natural::Natural;

verus! {

/// `d` divides `x`.
pub open spec fn divides(d: int, x: int) -> bool {
    exists|k: int| #[trigger] (k * d) == x
}

/// The remainder of division rounded toward zero is smaller than the divisor,
/// and not negative for a non-negative dividend and a positive divisor.
pub proof fn lemma_trunc_rem(a: int, b: int)
    requires
        b != 0,
    ensures
        int_abs(a - trunc_div(a, b) * b) < int_abs(b),
        a >= 0 && b > 0 ==> a - trunc_div(a, b) * b >= 0,
{
    let (x, y) = (int_abs(a), int_abs(b));
    lemma_fundamental_div_mod(x, y);
    lemma_mod_bound(x, y);
    let q = x / y;
    let r = x % y;
    assert(x == y * q + r && 0 <= r < y);
    if a >= 0 && b > 0 {
        assert(a - q * b == r) by (nonlinear_arith)
            requires
                x == y * q + r,
                x == a,
                y == b,
        ;
    } else if a < 0 && b < 0 {
        assert(a - q * b == -r) by (nonlinear_arith)
            requires
                x == y * q + r,
                x == -a,
                y == -b,
        ;
    } else if a >= 0 && b < 0 {
        assert(a - (-q) * b == r) by (nonlinear_arith)
            requires
                x == y * q + r,
                x == a,
                y == -b,
        ;
    } else {
        assert(a - (-q) * b == -r) by (nonlinear_arith)
            requires
                x == y * q + r,
                x == -a,
                y == b,
        ;
    }
}

/// The iterative extended Euclidean algorithm from the remainders `r1, r2` and
/// their coefficient pairs `(s1, t1)`, `(s2, t2)`: the result `(s, t, g)` once the
/// remainder reaches zero, with quotients rounded toward zero.
pub open spec fn euclid(r1: int, r2: int, s1: int, s2: int, t1: int, t2: int) -> (int, int, int)
    decreases int_abs(r2),
{
    if r2 == 0 {
        (s1, t1, r1)
    } else {
        let q = trunc_div(r1, r2);
        let r3 = r1 - q * r2;
        if int_abs(r3) < int_abs(r2) {
            euclid(r2, r3, s2, s1 - q * s2, t2, t1 - q * t2)
        } else {
            (s1, t1, r1)
        }
    }
}

/// Extended Euclidean algorithm: `(s, t, g)` with `a*s + b*t == g`, where `g`
/// divides both `a` and `b`. When `a` or `b` is zero the result is
/// `(a + b, 0, 1)`, the first component being the other argument.
pub fn ext_euc(a: &Integer, b: &Integer) -> (r: (Integer, Integer, Integer))
    ensures
        (a@ == 0 || b@ == 0) ==> r.0@ == a@ + b@ && r.1@ == 0 && r.2@ == 1,
        (a@ != 0 && b@ != 0) ==> a@ * r.0@ + b@ * r.1@ == r.2@ && r.2@ != 0 && divides(r.2@, a@)
            && divides(r.2@, b@),
        (a@ > 0 && b@ > 0) ==> r.2@ > 0,
        (a@ != 0 && b@ != 0) ==> (r.0@, r.1@, r.2@) == euclid(a@, b@, 1, 0, 0, 1),
{
    if a.is_zero() {
        return (b.duplicate(), Integer::from_i64(0), Integer::from_i64(1));
    }
    if b.is_zero() {
        return (a.duplicate(), Integer::from_i64(0), Integer::from_i64(1));
    }
    let mut r1 = a.duplicate();
    let mut r2 = b.duplicate();
    let mut s1 = Integer::from_i64(1);
    let mut s2 = Integer::from_i64(0);
    let mut t1 = Integer::from_i64(0);
    let mut t2 = Integer::from_i64(1);
    let ghost mut u1: int = 1;
    let ghost mut u2: int = 0;
    let ghost mut v1: int = 0;
    let ghost mut v2: int = 1;
    proof {
        assert(a@ * 1 + b@ * 0 == a@) by (nonlinear_arith);
        assert(a@ * 0 + b@ * 1 == b@) by (nonlinear_arith);
        assert(a@ == 1 * a@ + 0 * b@) by (nonlinear_arith);
        assert(b@ == 0 * a@ + 1 * b@) by (nonlinear_arith);
    }
    while !r2.is_zero()
        invariant
            a@ * s1@ + b@ * t1@ == r1@,
            a@ * s2@ + b@ * t2@ == r2@,
            a@ == u1 * r1@ + u2 * r2@,
            b@ == v1 * r1@ + v2 * r2@,
            r1@ != 0,
            (a@ > 0 && b@ > 0) ==> r1@ > 0 && r2@ >= 0,
            euclid(r1@, r2@, s1@, s2@, t1@, t2@) == euclid(a@, b@, 1, 0, 0, 1),
        decreases int_abs(r2@),
    {
        let q = r1.div_trunc(&r2);
        let r_next = r1.minus(&q.times(&r2));
        let s_next = s1.minus(&q.times(&s2));
        let t_next = t1.minus(&q.times(&t2));
        proof {
            lemma_trunc_rem(r1@, r2@);
            let (qq, x1, x2, y1, y2, z1, z2) = (q@, r1@, r2@, s1@, s2@, t1@, t2@);
            let (aa, bb) = (a@, b@);
            assert(aa * (y1 - qq * y2) == aa * y1 - qq * (aa * y2)) by (nonlinear_arith);
            assert(bb * (z1 - qq * z2) == bb * z1 - qq * (bb * z2)) by (nonlinear_arith);
            assert(qq * (aa * y2) + qq * (bb * z2) == qq * (aa * y2 + bb * z2)) by (nonlinear_arith);
            assert(a@ == (u1 * qq + u2) * x2 + u1 * (x1 - qq * x2)) by (nonlinear_arith)
                requires
                    a@ == u1 * x1 + u2 * x2,
            ;
            assert(b@ == (v1 * qq + v2) * x2 + v1 * (x1 - qq * x2)) by (nonlinear_arith)
                requires
                    b@ == v1 * x1 + v2 * x2,
            ;
            let nu1 = u1 * qq + u2;
            u2 = u1;
            u1 = nu1;
            let nv1 = v1 * qq + v2;
            v2 = v1;
            v1 = nv1;
        }
        r1 = r2;
        r2 = r_next;
        s1 = s2;
        s2 = s_next;
        t1 = t2;
        t2 = t_next;
    }
    proof {
        assert(u1 * r1@ == a@);
        assert(v1 * r1@ == b@);
    }
    (s1, t1, r1)
}

/// Fermat's condition for `p` to base `a`: a^(p-1) = 1 (mod p).
pub open spec fn fermat_holds(p: nat, a: nat) -> bool {
    pow(a as int, (p - 1) as nat) % (p as int) == 1
}

/// The odd part of `m`: `m` with every factor 2 taken out.
pub open spec fn odd_part(m: nat) -> nat
    decreases m,
{
    if m > 0 && m % 2 == 0 {
        odd_part(m / 2)
    } else {
        m
    }
}

/// The number of factors 2 in `m`.
pub open spec fn two_exp(m: nat) -> nat
    decreases m,
{
    if m > 0 && m % 2 == 0 {
        1 + two_exp(m / 2)
    } else {
        0
    }
}

/// a^(d * 2^r) mod p, computed by repeated squaring.
pub open spec fn mr_x(p: nat, a: nat, d: nat, r: nat) -> int
    decreases r,
{
    if r == 0 {
        pow(a as int, d) % (p as int)
    } else {
        pow(mr_x(p, a, d, (r - 1) as nat), 2) % (p as int)
    }
}

/// `p` is a strong probable prime to base `a`: with p - 1 = d * 2^s and d odd,
/// a^d = 1 (mod p), or a^(d * 2^r) = -1 (mod p) for some r < s.
pub open spec fn strong_probable_prime(p: nat, a: nat) -> bool {
    let d = odd_part((p - 1) as nat);
    let s = two_exp((p - 1) as nat);
    mr_x(p, a, d, 0) == 1 || exists|r: nat| r < s && #[trigger] mr_x(p, a, d, r) == p - 1
}

/// Once the squaring sequence reaches 1 it stays there.
proof fn lemma_mr_stays_one(p: nat, a: nat, d: nat, j: nat, r: nat)
    requires
        p > 1,
        j <= r,
        mr_x(p, a, d, j) == 1,
    ensures
        mr_x(p, a, d, r) == 1,
    decreases r - j,
{
    if r > j {
        lemma_mr_stays_one(p, a, d, j, (r - 1) as nat);
        vstd::arithmetic::power::lemma_pow1(1);
        vstd::arithmetic::power::lemma_pow_adds(1, 1, 1);
        assert(pow(1, 2) == 1);
        assert(mr_x(p, a, d, (r - 1) as nat) == 1);
        vstd::arithmetic::div_mod::lemma_small_mod(1, p);
        assert(mr_x(p, a, d, r) == pow(1, 2) % (p as int));
    }
}

/// Fermat's condition for `p` to the given base.
pub fn fermat_check(p: &Natural, a: &Natural) -> (r: bool)
    requires
        p@ > 0,
    ensures
        r == fermat_holds(p@, a@),
{
    let one = Natural::from_u64(1);
    let e = p.minus(&one);
    let x = a.modpow(&e, p);
    x.equals(&one)
}

/// `m` split into its odd part and its number of factors 2.
fn split_twos(m: &Natural) -> (r: (Natural, Natural))
    requires
        m@ > 0,
    ensures
        r.0@ == odd_part(m@),
        r.1@ == two_exp(m@),
{
    let two = Natural::from_u64(2);
    let one = Natural::from_u64(1);
    let mut d = m.duplicate();
    let mut s = Natural::from_u64(0);
    while d.is_even()
        invariant
            d@ > 0,
            two@ == 2,
            one@ == 1,
            odd_part(d@) == odd_part(m@),
            two_exp(m@) == s@ + two_exp(d@),
        decreases d@,
    {
        d = d.div_floor(&two);
        s = s.plus(&one);
    }
    (d, s)
}

/// One Miller-Rabin round for odd `p > 2` with p - 1 = d * 2^s, to base `a`.
pub fn miller_rabin_round(p: &Natural, d: &Natural, s: &Natural, a: &Natural) -> (r: bool)
    requires
        p@ > 2,
        p@ % 2 == 1,
        d@ == odd_part((p@ - 1) as nat),
        s@ == two_exp((p@ - 1) as nat),
    ensures
        r == strong_probable_prime(p@, a@),
{
    let one = Natural::from_u64(1);
    let two = Natural::from_u64(2);
    let p1 = p.minus(&one);
    let mut x = a.modpow(d, p);
    if x.equals(&one) {
        return true;
    }
    if x.equals(&p1) {
        proof {
            assert(mr_x(p@, a@, d@, 0) == p@ - 1);
        }
        return true;
    }
    proof {
        assert(s@ >= 1);
    }
    let step = s.minus(&one);
    let mut i = Natural::from_u64(0);
    while !i.equals(&step)
        invariant
            i@ <= step@,
            step@ == s@ - 1,
            one@ == 1,
            two@ == 2,
            p1@ == p@ - 1,
            p@ > 2,
            d@ == odd_part((p@ - 1) as nat),
            s@ == two_exp((p@ - 1) as nat),
            x@ == mr_x(p@, a@, d@, i@),
            mr_x(p@, a@, d@, 0) != 1,
            forall|t: nat| t <= i@ ==> #[trigger] mr_x(p@, a@, d@, t) != p@ - 1,
        decreases step@ - i@,
    {
        let ghost prev = i@;
        x = x.modpow(&two, p);
        i = i.plus(&one);
        proof {
            assert((i@ - 1) as nat == prev);
            assert(x@ == mr_x(p@, a@, d@, i@));
        }
        if x.equals(&one) {
            proof {
                assert forall|t: nat| t < s@ implies #[trigger] mr_x(p@, a@, d@, t) != p@ - 1 by {
                    if t >= i@ {
                        lemma_mr_stays_one(p@, a@, d@, i@, t);
                    }
                }
            }
            return false;
        }
        if x.equals(&p1) {
            proof {
                assert(i@ < s@);
                assert(mr_x(p@, a@, d@, i@) == p@ - 1);
            }
            return true;
        }
    }
    proof {
        assert forall|t: nat| t < s@ implies #[trigger] mr_x(p@, a@, d@, t) != p@ - 1 by {
            assert(t <= i@);
        }
    }
    false
}

/// The odd primes below 256, used to discard most composite candidates before
/// the costlier Fermat and Miller-Rabin tests.
pub const SMALL_ODD_PRIMES: [u64; 53] = [
    3, 5, 7, 11, 13, 17, 19, 23, 29, 31, 37, 41, 43, 47, 53, 59, 61, 67, 71, 73, 79, 83, 89, 97, 101,
    103, 107, 109, 113, 127, 131, 137, 139, 149, 151, 157, 163, 167, 173, 179, 181, 191, 193, 197, 199,
    211, 223, 227, 229, 233, 239, 241, 251,
];

/// Rounds of the Miller-Rabin test that a candidate must pass.
pub const MILLER_RABIN_ROUNDS: u64 = 8;

/// `p` is a multiple of a small odd prime other than itself.
pub open spec fn small_factor(p: nat) -> bool {
    exists|j: int|
        0 <= j < 53 && p != SMALL_ODD_PRIMES[j] && #[trigger] (p % (SMALL_ODD_PRIMES[j] as nat)) == 0
}

/// The values of a sequence of numbers.
pub open spec fn values(s: Seq<Natural>) -> Seq<nat> {
    s.map_values(|b: Natural| b@)
}

/// `p` is a strong probable prime to every base in `bases`.
pub open spec fn all_strong(p: nat, bases: Seq<nat>) -> bool {
    forall|j: int| 0 <= j < bases.len() ==> strong_probable_prime(p, #[trigger] bases[j])
}

/// The outcome of the Miller-Rabin test for `p` with the given bases: 2 and 3
/// pass, 0, 1 and other even numbers fail, and an odd `p > 3` passes when it is
/// a strong probable prime to every base.
pub open spec fn miller_rabin_passes(p: nat, bases: Seq<nat>) -> bool {
    if p < 2 {
        false
    } else if p == 2 || p == 3 {
        true
    } else if p % 2 == 0 {
        false
    } else {
        all_strong(p, bases)
    }
}

/// The outcome of the full primality test for `p` with Fermat base `fermat_base`
/// and Miller-Rabin bases `bases`.
pub open spec fn prime_test_passes(p: nat, fermat_base: nat, bases: Seq<nat>) -> bool {
    &&& p >= 2
    &&& p == 2 || p % 2 == 1
    &&& !small_factor(p)
    &&& fermat_holds(p, fermat_base)
    &&& miller_rabin_passes(p, bases)
}

/// Every base lies in [2, p - 1).
pub open spec fn bases_in_range(p: nat, bases: Seq<nat>) -> bool {
    forall|j: int| 0 <= j < bases.len() ==> 2 <= #[trigger] bases[j] < p - 1
}

/// The number of Miller-Rabin bases drawn for `p`: none for 3 or less.
pub open spec fn rounds_for(p: nat) -> nat {
    if p > 3 {
        MILLER_RABIN_ROUNDS as nat
    } else {
        0
    }
}

/// The Miller-Rabin test for `proposal` with the given bases.
pub fn miller_rabin_with_bases(proposal: &Natural, bases: &[Natural]) -> (r: bool)
    ensures
        r == miller_rabin_passes(proposal@, values(bases@)),
{
    let one = Natural::from_u64(1);
    let two = Natural::from_u64(2);
    let three = Natural::from_u64(3);
    if proposal.is_zero() || proposal.equals(&one) {
        return false;
    } else if proposal.equals(&two) || proposal.equals(&three) {
        return true;
    } else if proposal.is_even() {
        return false;
    }
    let p1 = proposal.minus(&one);
    let (d, s) = split_twos(&p1);
    let mut k: usize = 0;
    while k < bases.len()
        invariant
            k <= bases@.len(),
            proposal@ > 3,
            proposal@ % 2 == 1,
            d@ == odd_part((proposal@ - 1) as nat),
            s@ == two_exp((proposal@ - 1) as nat),
            forall|j: int| 0 <= j < k ==> strong_probable_prime(proposal@, #[trigger] values(bases@)[j]),
        decreases bases@.len() - k,
    {
        if !miller_rabin_round(proposal, &d, &s, &bases[k]) {
            proof {
                assert(values(bases@)[k as int] == bases@[k as int]@);
            }
            return false;
        }
        proof {
            assert(values(bases@)[k as int] == bases@[k as int]@);
        }
        k += 1;
    }
    true
}

/// `count` random bases in [2, p - 1).
fn draw_bases(p: &Natural, count: u64) -> (r: Vec<Natural>)
    requires
        p@ > 3,
    ensures
        values(r@).len() == count,
        bases_in_range(p@, values(r@)),
{
    let one = Natural::from_u64(1);
    let two = Natural::from_u64(2);
    let p1 = p.minus(&one);
    let mut bases: Vec<Natural> = Vec::new();
    let mut k: u64 = 0;
    while k < count
        invariant
            k <= count,
            p@ > 3,
            bases@.len() == k,
            two@ == 2,
            p1@ == p@ - 1,
            bases_in_range(p@, values(bases@)),
        decreases count - k,
    {
        let a = Natural::random_range(&two, &p1);
        let ghost before = values(bases@);
        bases.push(a);
        proof {
            assert(values(bases@) =~= before.push(a@));
        }
        k += 1;
    }
    bases
}

/// The Miller-Rabin test for `proposal` with `threshold` random bases: the
/// result is that of the test with some `threshold` bases in [2, proposal - 1).
pub fn miller_rabin_test(proposal: &Natural, threshold: u64) -> (r: bool)
    ensures
        proposal@ <= 3 ==> r == miller_rabin_passes(proposal@, Seq::empty()),
        proposal@ > 3 ==> exists|bases: Seq<nat>|
            bases.len() == threshold && bases_in_range(proposal@, bases) && r == miller_rabin_passes(
                proposal@,
                bases,
            ),
{
    let three = Natural::from_u64(3);
    let mut small = proposal.is_zero() || proposal.equals(&three);
    let mut v: u64 = 1;
    while v < 3
        invariant
            1 <= v <= 3,
            small == (proposal@ < v || proposal@ == 3),
        decreases 3 - v,
    {
        small = small || proposal.equals(&Natural::from_u64(v));
        v += 1;
    }
    let bases = if small { Vec::new() } else { draw_bases(proposal, threshold) };
    proof {
        if small {
            assert(values(bases@) =~= Seq::<nat>::empty());
        }
    }
    miller_rabin_with_bases(proposal, bases.as_slice())
}

/// Whether `proposal` is a multiple of a small odd prime other than itself.
fn has_small_factor(proposal: &Natural) -> (r: bool)
    ensures
        r == small_factor(proposal@),
{
    let mut i: usize = 0;
    while i < 53
        invariant
            i <= 53,
            forall|j: int|
                0 <= j < i ==> !(proposal@ != SMALL_ODD_PRIMES[j] && #[trigger] (proposal@ % (
                SMALL_ODD_PRIMES[j] as nat)) == 0),
        decreases 53 - i,
    {
        let q = Natural::from_u64(SMALL_ODD_PRIMES[i]);
        if !proposal.equals(&q) && proposal.rem(&q).is_zero() {
            return true;
        }
        i += 1;
    }
    false
}

/// The primality test with the given Fermat base and Miller-Rabin bases: zero
/// and even numbers other than 2 fail, so do multiples of a small odd prime
/// other than that prime; the rest must pass Fermat's test to `fermat_base` and
/// the Miller-Rabin test to every base in `mr_bases`.
pub fn is_prime_with_bases(proposal: &Natural, fermat_base: &Natural, mr_bases: &[Natural]) -> (r: bool)
    ensures
        r == prime_test_passes(proposal@, fermat_base@, values(mr_bases@)),
{
    let one = Natural::from_u64(1);
    let two = Natural::from_u64(2);
    if proposal.is_zero() || proposal.equals(&one) || (!proposal.equals(&two) && proposal.is_even()) {
        return false;
    }
    if has_small_factor(proposal) {
        return false;
    }
    if !fermat_check(proposal, fermat_base) {
        return false;
    }
    miller_rabin_with_bases(proposal, mr_bases)
}

/// Probabilistic primality test: zero and even numbers other than 2 are
/// rejected, and so are multiples of a small odd prime other than that prime;
/// otherwise one Fermat base below `proposal` and, above 3, eight Miller-Rabin
/// bases in [2, proposal - 1) are drawn, and the result is that of
/// `is_prime_with_bases` on them.
pub fn is_prime(proposal: &Natural) -> (r: bool)
    ensures
        (proposal@ == 0 || (proposal@ != 2 && proposal@ % 2 == 0) || small_factor(proposal@)) ==> !r,
        !(proposal@ == 0 || (proposal@ != 2 && proposal@ % 2 == 0) || small_factor(proposal@)) ==> exists|
            fermat_base: nat,
            bases: Seq<nat>,
        |
            fermat_base < proposal@ && bases.len() == rounds_for(proposal@) && bases_in_range(proposal@, bases)
                && r == prime_test_passes(proposal@, fermat_base, bases),
{
    let two = Natural::from_u64(2);
    if proposal.is_zero() || (!proposal.equals(&two) && proposal.is_even()) {
        return false;
    }
    if has_small_factor(proposal) {
        return false;
    }
    let fermat_base = Natural::random_below(proposal);
    let three = Natural::from_u64(3);
    let above_three = !proposal.equals(&Natural::from_u64(1)) && !proposal.equals(&two) && !proposal.equals(&three);
    let bases = if above_three { draw_bases(proposal, MILLER_RABIN_ROUNDS) } else { Vec::new() };
    proof {
        if !above_three {
            assert(values(bases@) =~= Seq::<nat>::empty());
        }
    }
    is_prime_with_bases(proposal, &fermat_base, bases.as_slice())
}

} // verus!
