use vstd::arithmetic::div_mod::{
    lemma_fundamental_div_mod, lemma_fundamental_div_mod_converse, lemma_mod_bound,
    lemma_mod_self_0, lemma_small_mod,
};
use vstd::math::abs;
use vstd::prelude::*;

verus! {

/// A double-precision value as the engine sees it. The engine never performs
/// floating-point arithmetic itself; it carries doubles as plain data and reads
/// only the facts recorded here.
#[derive(Clone, Copy, Debug, PartialEq, Eq)]
pub enum Flt {
    /// A native double, by its IEEE-754 bit pattern. `milli` records the
    /// snap rule's reading of the double: `Some(k)` exactly when the double
    /// multiplied natively by 1000 has zero fractional part and lies in
    /// `i128` range, `k` being that (rounded) product as an integer. The
    /// caller that owns the native value computes this alongside the bits,
    /// and normalization reads nothing else of the double.
    Native { bits: u64, milli: Option<i128> },
    /// The double obtained by dividing `num` by `denom` with floating-point
    /// division; produced when fraction entries are read in the float
    /// representation.
    Quotient { num: i128, denom: i128 },
}

/// A stack cell: a whole number, a double, or an exact rational.
#[derive(Clone, Copy, Debug, PartialEq, Eq)]
pub enum StackValue {
    Integer(i128),
    Float(Flt),
    Fraction((i128, i128)),
}

/// Greatest common divisor by the Euclidean algorithm, with `gcd(a, 0) == a`.
pub open spec fn gcd(a: nat, b: nat) -> nat
    decreases b,
{
    if b == 0 {
        a
    } else {
        gcd(b, a % b)
    }
}

/// The gcd used to reduce the fraction `n / d`.
pub open spec fn norm_g(n: int, d: int) -> nat {
    gcd(abs(n), abs(d))
}

/// The canonical form of the fraction `n / d`: both components divided by
/// their gcd, with the sign moved to the numerator so the denominator is
/// positive.
pub open spec fn norm_pair(n: int, d: int) -> (int, int)
    recommends
        d != 0,
{
    let g = norm_g(n, d) as int;
    let sn = n / g;
    let sd = d / g;
    if sd < 0 {
        (-sn, -sd)
    } else {
        (sn, sd)
    }
}

/// Both components of the canonical form of `n / d` fit in `i128`.
pub open spec fn frac_fits(n: int, d: int) -> bool {
    &&& i128::MIN <= norm_pair(n, d).0 <= i128::MAX
    &&& i128::MIN <= norm_pair(n, d).1 <= i128::MAX
}

/// The values the engine accepts for a push: a fraction must have a nonzero
/// denominator and a canonical form that the machine can represent.
pub open spec fn pushable(v: StackValue) -> bool {
    match v {
        StackValue::Fraction((n, d)) => d != 0 && frac_fits(n as int, d as int),
        _ => true,
    }
}

/// Normalization, as applied by every push: a double whose thousandfold
/// reading is the integer `k` becomes the reduced fraction `k / 1000`, a
/// whole number becomes a fraction over 1, and a fraction is reduced to
/// canonical form. Any other double is kept as it is.
pub open spec fn normalize_spec(v: StackValue) -> StackValue
    recommends
        pushable(v),
{
    match v {
        StackValue::Integer(i) => StackValue::Fraction((i, 1)),
        StackValue::Float(f) => match f {
            Flt::Native { bits, milli } => match milli {
                Some(k) => StackValue::Fraction(
                    ((norm_pair(k as int, 1000).0) as i128, (norm_pair(k as int, 1000).1) as i128),
                ),
                None => v,
            },
            Flt::Quotient { .. } => v,
        },
        StackValue::Fraction((n, d)) => StackValue::Fraction(
            ((norm_pair(n as int, d as int).0) as i128, (norm_pair(n as int, d as int).1) as i128),
        ),
    }
}

/// What may sit on the stack: never a bare integer (those become fractions
/// over 1), only canonical fractions, and only doubles that carry no pending
/// exactness fact.
pub open spec fn stored_wf(v: StackValue) -> bool {
    match v {
        StackValue::Integer(_) => false,
        StackValue::Float(f) => match f {
            Flt::Native { bits, milli } => milli is None,
            Flt::Quotient { .. } => true,
        },
        StackValue::Fraction((n, d)) => d > 0 && gcd(abs(n as int), abs(d as int)) == 1,
    }
}

/// Whether a double, as the engine carries it, encodes the number zero. A
/// native double is zero exactly when everything but its sign bit is clear.
/// A quotient of stack fractions is zero exactly when its numerator is: the
/// magnitude of such a quotient is at least `1 / 2^127`, far above the
/// smallest positive double, so the floating division never rounds a nonzero
/// quotient down to zero.
pub open spec fn flt_is_zero(f: Flt) -> bool {
    match f {
        Flt::Native { bits, milli } => bits & 0x7fff_ffff_ffff_ffff == 0,
        Flt::Quotient { num, denom } => num == 0,
    }
}

impl Flt {
    /// Whether this double encodes the number zero.
    pub fn is_zero(&self) -> (r: bool)
        ensures
            r == flt_is_zero(*self),
    {
        match self {
            Flt::Native { bits, milli } => *bits & 0x7fff_ffff_ffff_ffff == 0,
            Flt::Quotient { num, denom } => *num == 0,
        }
    }
}

pub proof fn lemma_gcd_divides(a: nat, b: nat)
    requires
        a > 0 || b > 0,
    ensures
        gcd(a, b) > 0,
        a % gcd(a, b) == 0,
        b % gcd(a, b) == 0,
    decreases b,
{
    let g = gcd(a, b);
    if b == 0 {
        lemma_mod_self_0(a as int);
        lemma_small_mod(0, a);
    } else {
        lemma_mod_bound(a as int, b as int);
        lemma_gcd_divides(b, a % b);
        // g divides b and a % b; a == b * (a / b) + a % b, so g divides a.
        lemma_fundamental_div_mod(a as int, b as int);
        lemma_fundamental_div_mod(b as int, g as int);
        lemma_fundamental_div_mod((a % b) as int, g as int);
        let q = a as int / b as int;
        let qb = b as int / g as int;
        let qr = (a % b) as int / g as int;
        assert(a as int == (qb * q + qr) * g as int) by (nonlinear_arith)
            requires
                a as int == b as int * q + (a % b) as int,
                b as int == g as int * qb,
                (a % b) as int == g as int * qr,
        ;
        assert(0 <= qb * q + qr) by (nonlinear_arith)
            requires
                a as int == (qb * q + qr) * g as int,
                a >= 0,
                g > 0,
        ;
        lemma_fundamental_div_mod_converse(a as int, g as int, qb * q + qr, 0);
    }
}

proof fn lemma_mod_scale(k: nat, a: nat, b: nat)
    requires
        k > 0,
        b > 0,
    ensures
        (k * a) % (k * b) == k * (a % b),
{
    let q = a / b;
    let r = a % b;
    lemma_fundamental_div_mod(a as int, b as int);
    lemma_mod_bound(a as int, b as int);
    assert((k * a) as int == (q as int) * ((k * b) as int) + (k * r) as int && 0 <= k * r && k * r
        < k * b && k * b > 0) by (nonlinear_arith)
        requires
            a == b * q + r,
            0 <= r < b,
            k > 0,
            b > 0,
            a >= 0,
            q >= 0,
    ;
    lemma_fundamental_div_mod_converse((k * a) as int, (k * b) as int, q as int, (k * r) as int);
}

proof fn lemma_gcd_scale(k: nat, a: nat, b: nat)
    requires
        k > 0,
    ensures
        gcd(k * a, k * b) == k * gcd(a, b),
    decreases b,
{
    if b == 0 {
        assert(k * b == 0) by (nonlinear_arith)
            requires
                b == 0,
        ;
    } else {
        assert(k * b > 0) by (nonlinear_arith)
            requires
                k > 0,
                b > 0,
        ;
        lemma_mod_scale(k, a, b);
        lemma_gcd_scale(k, b, a % b);
    }
}

pub proof fn lemma_gcd_divide_coprime(a: nat, b: nat)
    requires
        a > 0 || b > 0,
    ensures
        gcd(a / gcd(a, b), b / gcd(a, b)) == 1,
{
    let g = gcd(a, b);
    lemma_gcd_divides(a, b);
    lemma_fundamental_div_mod(a as int, g as int);
    lemma_fundamental_div_mod(b as int, g as int);
    assert(g * (a / g) == a && g * (b / g) == b);
    lemma_gcd_scale(g, a / g, b / g);
    assert(gcd(a, b) == g * gcd(a / g, b / g));
    assert(gcd(a / g, b / g) == 1) by (nonlinear_arith)
        requires
            g == g * gcd(a / g, b / g),
            g > 0,
    ;
}

pub proof fn lemma_gcd_with_one(a: nat)
    ensures
        gcd(a, 1) == 1,
{
    lemma_small_mod(0, 1);
    assert(a % 1 == 0) by {
        lemma_fundamental_div_mod(a as int, 1int);
        lemma_mod_bound(a as int, 1int);
    }
    assert(gcd(a, 1) == gcd(1, 0));
    assert(gcd(1, 0) == 1);
}

/// Division of an exact multiple distributes over negation.
proof fn lemma_exact_div_neg(m: nat, g: nat)
    requires
        g > 0,
        m % g == 0,
    ensures
        (-(m as int)) / (g as int) == -((m / g) as int),
{
    lemma_fundamental_div_mod(m as int, g as int);
    assert(-(m as int) == (-((m / g) as int)) * (g as int) + 0) by (nonlinear_arith)
        requires
            m as int == g as int * ((m / g) as int),
    ;
    lemma_fundamental_div_mod_converse(-(m as int), g as int, -((m / g) as int), 0);
}

/// The canonical form, piece by piece: a positive gcd, magnitudes divided
/// exactly, the denominator positive, numerator and denominator coprime, and
/// the value of the fraction preserved (`nn / nd == n / d` as rationals).
pub proof fn lemma_norm_pair_parts(n: int, d: int)
    requires
        d != 0,
    ensures
        norm_g(n, d) > 0,
        norm_pair(n, d).0 == if (n < 0) != (d < 0) {
            -((abs(n) / norm_g(n, d)) as int)
        } else {
            (abs(n) / norm_g(n, d)) as int
        },
        norm_pair(n, d).1 == (abs(d) / norm_g(n, d)) as int,
        norm_pair(n, d).1 > 0,
        gcd(abs(norm_pair(n, d).0), abs(norm_pair(n, d).1)) == 1,
        norm_pair(n, d).0 * d == n * norm_pair(n, d).1,
{
    let g = norm_g(n, d);
    lemma_gcd_divides(abs(n), abs(d));
    let qn = abs(n) / g;
    let qd = abs(d) / g;
    lemma_fundamental_div_mod(abs(n) as int, g as int);
    lemma_fundamental_div_mod(abs(d) as int, g as int);
    assert(g * qn == abs(n) && g * qd == abs(d));
    // Quotients of the signed values, via exactness.
    if n < 0 {
        lemma_exact_div_neg(abs(n), g);
        assert(n / g as int == -(qn as int));
    } else {
        assert(n / g as int == qn as int);
    }
    if d < 0 {
        lemma_exact_div_neg(abs(d), g);
        assert(d / g as int == -(qd as int));
    } else {
        assert(d / g as int == qd as int);
    }
    assert(qd > 0) by (nonlinear_arith)
        requires
            g * qd == abs(d),
            abs(d) > 0,
            g > 0,
            qd >= 0,
    ;
    // Coprimality.
    lemma_gcd_divide_coprime(abs(n), abs(d));
    // Value preservation: (±qn) * d == n * qd in every sign case.
    assert(qn as int * d == n * (qd as int) || qn as int * d == -(n * (qd as int)))
        by (nonlinear_arith)
        requires
            g * qn == abs(n),
            g * qd == abs(d),
            g > 0,
            abs(n) == if n < 0 { -n } else { n },
            abs(d) == if d < 0 { -d } else { d },
    ;
    assert(norm_pair(n, d).0 * d == n * norm_pair(n, d).1) by (nonlinear_arith)
        requires
            d != 0,
            g * qn == abs(n),
            g * qd == abs(d),
            g > 0,
            abs(n) == if n < 0 { -n } else { n },
            abs(d) == if d < 0 { -d } else { d },
            norm_pair(n, d).0 == if (n < 0) != (d < 0) {
                -(qn as int)
            } else {
                qn as int
            },
            norm_pair(n, d).1 == qd as int,
    ;
}

/// The law of canonical form: every normalized fraction has a positive
/// denominator, coprime components, and the same rational value as its input.
pub proof fn lemma_norm_canonical(n: int, d: int)
    requires
        d != 0,
    ensures
        norm_pair(n, d).1 > 0,
        gcd(abs(norm_pair(n, d).0), abs(norm_pair(n, d).1)) == 1,
        norm_pair(n, d).0 * d == n * norm_pair(n, d).1,
{
    lemma_norm_pair_parts(n, d);
}

/// The law of idempotence at the level of fraction pairs: normalizing a
/// canonical pair changes nothing.
pub proof fn lemma_norm_pair_idempotent(n: int, d: int)
    requires
        d != 0,
    ensures
        norm_pair(norm_pair(n, d).0, norm_pair(n, d).1) == norm_pair(n, d),
{
    lemma_norm_pair_parts(n, d);
    let (nn, nd) = norm_pair(n, d);
    assert(norm_g(nn, nd) == 1);
    lemma_div_by_one(nn);
    lemma_div_by_one(nd);
}

proof fn lemma_div_by_one(x: int)
    ensures
        x / 1 == x,
{
    lemma_fundamental_div_mod_converse(x, 1, x, 0);
}

/// A fraction with a positive denominator always has a representable
/// canonical form: reduction only shrinks magnitudes and no sign is flipped.
pub proof fn lemma_norm_fits_pos_denom(n: int, d: int)
    requires
        0 < d <= i128::MAX,
        i128::MIN <= n <= i128::MAX,
    ensures
        frac_fits(n, d),
{
    lemma_norm_pair_parts(n, d);
    lemma_gcd_divides(abs(n), abs(d));
    let g = norm_g(n, d);
    let qn = abs(n) / g;
    let qd = abs(d) / g;
    lemma_fundamental_div_mod(abs(n) as int, g as int);
    lemma_fundamental_div_mod(abs(d) as int, g as int);
    assert(g * qn == abs(n) && g * qd == abs(d));
    assert(qn <= abs(n) && qd <= abs(d)) by (nonlinear_arith)
        requires
            g * qn == abs(n),
            g * qd == abs(d),
            g >= 1,
            qn >= 0,
            qd >= 0,
    ;
}

/// Normalization always yields a value fit for the stack.
pub proof fn lemma_normalize_stored_wf(v: StackValue)
    requires
        pushable(v),
    ensures
        stored_wf(normalize_spec(v)),
{
    match v {
        StackValue::Integer(i) => {
            lemma_gcd_with_one(abs(i as int));
        },
        StackValue::Float(f) => match f {
            Flt::Native { bits, milli } => match milli {
                Some(k) => {
                    lemma_norm_fits_pos_denom(k as int, 1000);
                    lemma_norm_pair_parts(k as int, 1000);
                },
                None => {},
            },
            Flt::Quotient { .. } => {},
        },
        StackValue::Fraction((n, d)) => {
            lemma_norm_pair_parts(n as int, d as int);
        },
    }
}

/// A value already fit for the stack is its own normalization.
pub proof fn lemma_stored_normalize_identity(v: StackValue)
    requires
        stored_wf(v),
    ensures
        pushable(v),
        normalize_spec(v) == v,
{
    match v {
        StackValue::Fraction((n, d)) => {
            let g = norm_g(n as int, d as int);
            assert(g == 1);
            lemma_div_by_one(n as int);
            lemma_div_by_one(d as int);
        },
        _ => {},
    }
}

/// The law of idempotence: normalizing twice is normalizing once.
pub proof fn lemma_normalize_idempotent(v: StackValue)
    requires
        pushable(v),
    ensures
        pushable(normalize_spec(v)),
        normalize_spec(normalize_spec(v)) == normalize_spec(v),
{
    lemma_normalize_stored_wf(v);
    lemma_stored_normalize_identity(normalize_spec(v));
}

/// The magnitude of a signed value, exact even at the type's minimum.
pub(crate) fn mag_i128(x: i128) -> (m: u128)
    ensures
        m as nat == abs(x as int),
{
    if x >= 0 {
        x as u128
    } else {
        ((-(x + 1)) as u128) + 1
    }
}

/// A signed value from a magnitude and a sign.
fn signed_of_mag(m: u128, neg: bool) -> (x: i128)
    requires
        neg ==> m as int <= i128::MAX as int + 1,
        !neg ==> m as int <= i128::MAX as int,
    ensures
        x as int == if neg {
            -(m as int)
        } else {
            m as int
        },
{
    if neg {
        if m == (i128::MAX as u128) + 1 {
            i128::MIN
        } else {
            -(m as i128)
        }
    } else {
        m as i128
    }
}

/// Greatest common divisor, executably.
fn gcd_u128(a: u128, b: u128) -> (g: u128)
    ensures
        g as nat == gcd(a as nat, b as nat),
{
    let mut x = a;
    let mut y = b;
    while y != 0
        invariant
            gcd(x as nat, y as nat) == gcd(a as nat, b as nat),
        decreases y,
    {
        let t = y;
        y = x % y;
        x = t;
    }
    x
}

/// Reduce a fraction to canonical form.
pub(crate) fn normalize_fraction(n: i128, d: i128) -> (r: (i128, i128))
    requires
        d != 0,
        frac_fits(n as int, d as int),
    ensures
        r.0 as int == norm_pair(n as int, d as int).0,
        r.1 as int == norm_pair(n as int, d as int).1,
{
    proof {
        lemma_norm_pair_parts(n as int, d as int);
    }
    let mn = mag_i128(n);
    let md = mag_i128(d);
    let g = gcd_u128(mn, md);
    proof {
        lemma_gcd_divides(mn as nat, md as nat);
    }
    let qn = mn / g;
    let qd = md / g;
    let num_neg = (n < 0) != (d < 0);
    let num = signed_of_mag(qn, num_neg);
    let den = signed_of_mag(qd, false);
    (num, den)
}

/// Apply normalization to a value about to be pushed.
pub(crate) fn normalize(value: StackValue) -> (r: StackValue)
    requires
        pushable(value),
    ensures
        r == normalize_spec(value),
{
    match value {
        StackValue::Integer(i) => StackValue::Fraction((i, 1)),
        StackValue::Float(f) => match f {
            Flt::Native { bits, milli } => match milli {
                Some(k) => {
                    proof {
                        lemma_norm_fits_pos_denom(k as int, 1000);
                    }
                    let (a, b) = normalize_fraction(k, 1000);
                    StackValue::Fraction((a, b))
                },
                None => value,
            },
            Flt::Quotient { .. } => value,
        },
        StackValue::Fraction((n, d)) => {
            let (a, b) = normalize_fraction(n, d);
            StackValue::Fraction((a, b))
        },
    }
}

} // verus!
