//! Exact representation of an angle that is a rational multiple of pi,
//! normalized into the half-open range [0, 2).

use vstd::arithmetic::div_mod::{
    lemma_fundamental_div_mod, lemma_fundamental_div_mod_converse, lemma_mod_bound,
    lemma_mod_multiples_vanish,
};
use vstd::prelude::*;

verus! {

/// Greatest common divisor, by Euclid's recurrence.
pub open spec fn gcd(a: nat, b: nat) -> nat
    decreases b,
{
    if b == 0 {
        a
    } else {
        gcd(b, a % b)
    }
}

/// `d` divides `a`.
pub open spec fn divides(d: int, a: int) -> bool {
    exists|k: int| a == #[trigger] (d * k)
}

pub proof fn lemma_gcd_pos(a: nat, b: nat)
    requires
        a > 0 || b > 0,
    ensures
        gcd(a, b) > 0,
    decreases b,
{
    if b > 0 {
        lemma_mod_bound(a as int, b as int);
        lemma_gcd_pos(b, a % b);
    }
}

pub proof fn lemma_gcd_divides(a: nat, b: nat)
    ensures
        divides(gcd(a, b) as int, a as int),
        divides(gcd(a, b) as int, b as int),
    decreases b,
{
    if b == 0 {
        assert(a as int == (a as int) * 1) by (nonlinear_arith);
        assert(divides(a as int, a as int));
        assert(0int == (a as int) * 0) by (nonlinear_arith);
        assert(divides(a as int, 0));
    } else {
        lemma_mod_bound(a as int, b as int);
        lemma_gcd_divides(b, a % b);
        let g = gcd(b, a % b) as int;
        let k1 = choose|k: int| b as int == #[trigger] (g * k);
        let k2 = choose|k: int| (a % b) as int == #[trigger] (g * k);
        lemma_fundamental_div_mod(a as int, b as int);
        let q = a as int / b as int;
        assert(a as int == b as int * q + (a % b) as int);
        assert(a as int == g * (k1 * q + k2)) by (nonlinear_arith)
            requires
                a as int == b as int * q + (a % b) as int,
                b as int == g * k1,
                (a % b) as int == g * k2,
        ;
        assert(divides(g, a as int));
    }
}

pub proof fn lemma_divides_gcd(d: int, a: nat, b: nat)
    requires
        divides(d, a as int),
        divides(d, b as int),
    ensures
        divides(d, gcd(a, b) as int),
    decreases b,
{
    if b == 0 {
    } else {
        lemma_mod_bound(a as int, b as int);
        let ka = choose|k: int| a as int == #[trigger] (d * k);
        let kb = choose|k: int| b as int == #[trigger] (d * k);
        lemma_fundamental_div_mod(a as int, b as int);
        let q = a as int / b as int;
        assert((a % b) as int == d * (ka - kb * q)) by (nonlinear_arith)
            requires
                a as int == b as int * q + (a % b) as int,
                a as int == d * ka,
                b as int == d * kb,
        ;
        assert(divides(d, (a % b) as int));
        lemma_divides_gcd(d, b, a % b);
    }
}

/// Dividing two numbers by their gcd leaves a coprime pair.
pub proof fn lemma_gcd_reduce_coprime(a: nat, b: nat)
    requires
        b > 0,
    ensures
        gcd(a / gcd(a, b), b / gcd(a, b)) == 1,
{
    let g = gcd(a, b);
    lemma_gcd_pos(a, b);
    lemma_gcd_divides(a, b);
    let ka = choose|k: int| a as int == #[trigger] (g as int * k);
    let kb = choose|k: int| b as int == #[trigger] (g as int * k);
    assert(ka >= 0 && kb >= 0) by (nonlinear_arith)
        requires
            a as int == g as int * ka,
            b as int == g as int * kb,
            g > 0,
            a >= 0,
            b > 0,
    ;
    assert(a as int / g as int == ka && b as int / g as int == kb) by (nonlinear_arith)
        requires
            a as int == g as int * ka,
            b as int == g as int * kb,
            g > 0,
    ;
    let p = a / g;
    let q = b / g;
    assert(p as int == ka && q as int == kb);
    assert(q > 0) by (nonlinear_arith)
        requires
            b as int == g as int * q,
            b > 0,
            g > 0,
            q >= 0,
    ;
    let h = gcd(p, q);
    lemma_gcd_pos(p, q);
    lemma_gcd_divides(p, q);
    let hp = choose|k: int| p as int == #[trigger] (h as int * k);
    let hq = choose|k: int| q as int == #[trigger] (h as int * k);
    assert(a as int == (g * h) as int * hp && b as int == (g * h) as int * hq)
        by (nonlinear_arith)
        requires
            a as int == g as int * (p as int),
            b as int == g as int * (q as int),
            p as int == h as int * hp,
            q as int == h as int * hq,
    ;
    assert(divides((g * h) as int, a as int));
    assert(divides((g * h) as int, b as int));
    lemma_divides_gcd((g * h) as int, a, b);
    let m = choose|k: int| g as int == #[trigger] ((g * h) as int * k);
    assert(h == 1) by (nonlinear_arith)
        requires
            g as int == (g * h) as int * m,
            g > 0,
            h > 0,
    ;
}

/// The canonical reduced representative, in [0, 2), of the angle `n / d`
/// (in units of pi), for a positive denominator `d`.
pub open spec fn canon_pos(n: int, d: int) -> (int, int) {
    let m = n % (2 * d);
    let g = gcd(m as nat, d as nat) as int;
    (m / g, d / g)
}

/// The canonical reduced representative for any nonzero denominator.
pub open spec fn canon(n: int, d: int) -> (int, int) {
    if d < 0 {
        canon_pos(-n, -d)
    } else {
        canon_pos(n, d)
    }
}

/// An angle that is a rational multiple of pi, stored as a reduced fraction
/// in units of pi and always normalized into the half-open range [0, 2).
#[derive(Debug, Clone, Copy, PartialEq, Eq, Structural)]
pub struct Phase {
    numer: u64,
    denom: u64,
}

impl View for Phase {
    type V = (nat, nat);

    closed spec fn view(&self) -> (nat, nat) {
        (self.numer as nat, self.denom as nat)
    }
}

impl Phase {
    /// The stored fraction is in lowest terms, has a positive denominator,
    /// and lies in [0, 2).
    pub open spec fn wf(self) -> bool {
        &&& self@.1 >= 1
        &&& self@.0 < 2 * self@.1
        &&& gcd(self@.0, self@.1) == 1
    }

    /// Two phases with the same normalized fraction are the same value.
    pub proof fn lemma_view_injective(a: Phase, b: Phase)
        requires
            a@ == b@,
        ensures
            a == b,
    {
    }

    /// Builds the phase `numer / denom` (in units of pi), reduced to lowest
    /// terms and normalized into [0, 2) by exact rational arithmetic.
    pub fn new(numer: i64, denom: i64) -> (r: Phase)
        requires
            denom != 0,
        ensures
            r.wf(),
            (r@.0 as int, r@.1 as int) == canon(numer as int, denom as int),
    {
        let mut n: i128 = numer as i128;
        let mut d: i128 = denom as i128;
        if d < 0 {
            n = -n;
            d = -d;
        }
        let two_d: u128 = (2 * d) as u128;
        let m: u128 = if n >= 0 {
            (n as u128) % two_d
        } else {
            let k: u128 = ((-n) as u128) % two_d;
            if k == 0 {
                0
            } else {
                two_d - k
            }
        };
        proof {
            lemma_mod_bound(n as int, two_d as int);
            if n >= 0 {
                assert((n as u128) as int == n as int);
                assert(m as int == (n as int) % (two_d as int));
            } else {
                let nn = -(n as int);
                lemma_fundamental_div_mod(nn, two_d as int);
                lemma_mod_bound(nn, two_d as int);
                let qq = nn / two_d as int;
                let k = nn % two_d as int;
                if k == 0 {
                    assert(n as int == (-qq) * two_d as int + 0) by (nonlinear_arith)
                        requires
                            nn == two_d as int * qq + k,
                            k == 0,
                            nn == -(n as int),
                    ;
                    lemma_fundamental_div_mod_converse(n as int, two_d as int, -qq, 0);
                } else {
                    assert(n as int == (-qq - 1) * two_d as int + (two_d as int - k))
                        by (nonlinear_arith)
                        requires
                            nn == two_d as int * qq + k,
                            nn == -(n as int),
                    ;
                    lemma_fundamental_div_mod_converse(
                        n as int,
                        two_d as int,
                        -qq - 1,
                        two_d as int - k,
                    );
                }
            }
            assert(m as int == (n as int) % (2 * d as int));
        }
        let du: u128 = d as u128;
        let g: u128 = gcd_u128(m, du);
        proof {
            lemma_gcd_pos(m as nat, du as nat);
            lemma_gcd_divides(m as nat, du as nat);
            lemma_gcd_reduce_coprime(m as nat, du as nat);
            let km = choose|k: int| m as int == #[trigger] (g as int * k);
            let kd = choose|k: int| du as int == #[trigger] (g as int * k);
            assert(km >= 0 && kd >= 1 && m as int / g as int == km && du as int / g as int == kd
                && km < 2 * kd) by (nonlinear_arith)
                requires
                    m as int == g as int * km,
                    du as int == g as int * kd,
                    g > 0,
                    m >= 0,
                    du > 0,
                    m < 2 * du as int,
            ;
        }
        let p: u128 = m / g;
        let q: u128 = du / g;
        Phase { numer: p as u64, denom: q as u64 }
    }

    /// The zero angle, at the specification level.
    pub closed spec fn spec_zero() -> Phase {
        Phase { numer: 0, denom: 1 }
    }

    /// What the zero angle looks like.
    pub proof fn lemma_spec_zero()
        ensures
            Phase::spec_zero()@ == (0nat, 1nat),
            Phase::spec_zero().wf(),
    {
        assert(gcd(0, 1) == 1) by {
            reveal_with_fuel(gcd, 3);
        }
    }

    /// The phase of angle zero.
    pub fn zero() -> (r: Phase)
        ensures
            r.wf(),
            r@ == (0nat, 1nat),
            r == Phase::spec_zero(),
    {
        proof {
            assert(gcd(0, 1) == 1) by {
                reveal_with_fuel(gcd, 3);
            }
        }
        Phase { numer: 0, denom: 1 }
    }

    /// The phase of angle pi.
    pub fn one() -> (r: Phase)
        ensures
            r.wf(),
            r@ == (1nat, 1nat),
    {
        proof {
            assert(gcd(1, 1) == 1) by {
                reveal_with_fuel(gcd, 3);
            }
        }
        Phase { numer: 1, denom: 1 }
    }

    /// The phase of angle pi / 2.
    pub fn plus() -> (r: Phase)
        ensures
            r.wf(),
            r@ == (1nat, 2nat),
    {
        proof {
            assert(gcd(1, 2) == 1) by {
                reveal_with_fuel(gcd, 4);
            }
        }
        Phase { numer: 1, denom: 2 }
    }

    /// The phase of angle -pi / 2, normalized to 3 pi / 2.
    pub fn minus() -> (r: Phase)
        ensures
            r.wf(),
            r@ == (3nat, 2nat),
    {
        proof {
            assert(gcd(3, 2) == 1) by {
                reveal_with_fuel(gcd, 4);
            }
        }
        Phase { numer: 3, denom: 2 }
    }

    /// Whether this phase is the zero angle.
    pub fn is_zero(&self) -> (b: bool)
        ensures
            b == (self@.0 == 0),
    {
        self.numer == 0
    }

    /// The normalized angle in units of pi, as a reduced fraction with a
    /// positive denominator.
    pub fn angle(&self) -> (r: (u64, u64))
        ensures
            r.0 as nat == self@.0,
            r.1 as nat == self@.1,
    {
        (self.numer, self.denom)
    }
}

fn gcd_u128(a0: u128, b0: u128) -> (g: u128)
    ensures
        g as nat == gcd(a0 as nat, b0 as nat),
{
    let mut a: u128 = a0;
    let mut b: u128 = b0;
    while b != 0
        invariant
            gcd(a as nat, b as nat) == gcd(a0 as nat, b0 as nat),
        decreases b,
    {
        let t: u128 = a % b;
        a = b;
        b = t;
    }
    a
}

/// Adding any whole number of full turns to the angle leaves its canonical
/// representative unchanged: the normalization of `n / d` and of
/// `(n + 2 k d) / d` agree for every integer `k`.
pub proof fn lemma_phase_full_turn(n: int, d: int, k: int)
    requires
        d != 0,
    ensures
        canon(n + 2 * k * d, d) == canon(n, d),
{
    if d > 0 {
        lemma_mod_multiples_vanish(k, n, 2 * d);
        assert((2 * d) * k + n == n + 2 * k * d) by (nonlinear_arith);
    } else {
        lemma_mod_multiples_vanish(k, -n, 2 * -d);
        assert((2 * -d) * k + (-n) == -(n + 2 * k * d)) by (nonlinear_arith);
    }
}

} // verus!
