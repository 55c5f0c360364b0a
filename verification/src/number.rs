use vstd::prelude::*;

use vstd::arithmetic::div_mod::{
    lemma_fundamental_div_mod, lemma_mod_division_less_than_divisor, lemma_mod_multiples_basic,
    lemma_mod_self_0, lemma_small_mod,
};

verus! {

/// The greatest common divisor, by Euclid's rule.
pub open spec fn gcd(a: nat, b: nat) -> nat
    decreases b,
{
    if b == 0 {
        a
    } else {
        gcd(b, a % b)
    }
}

/// `gcd(a, b)` is positive and divides both arguments whenever one of them
/// is positive.
pub proof fn lemma_gcd_divides(a: nat, b: nat)
    requires
        a > 0 || b > 0,
    ensures
        gcd(a, b) > 0,
        a % gcd(a, b) == 0,
        b % gcd(a, b) == 0,
    decreases b,
{
    let g = gcd(a, b);
    if b == 0 {
        assert(g == a);
        lemma_mod_self_0(a as int);
        lemma_small_mod(0, a);
    } else {
        let r = (a % b) as nat;
        lemma_mod_division_less_than_divisor(a as int, b as int);
        lemma_gcd_divides(b, r);
        assert(g == gcd(b, r));
        let ai = a as int;
        let bi = b as int;
        let ri = r as int;
        let gi = g as int;
        // a == (a / b) * b + r, and both b and r are multiples of g.
        lemma_fundamental_div_mod(ai, bi);
        lemma_fundamental_div_mod(bi, gi);
        lemma_fundamental_div_mod(ri, gi);
        assert(bi == gi * (bi / gi));
        assert(ri == gi * (ri / gi));
        let k = (ai / bi) * (bi / gi) + (ri / gi);
        assert(ai == k * gi) by (nonlinear_arith)
            requires
                ai == bi * (ai / bi) + ri,
                bi == gi * (bi / gi),
                ri == gi * (ri / gi),
                k == (ai / bi) * (bi / gi) + (ri / gi),
        ;
        lemma_mod_multiples_basic(k, gi);
        assert(ai % gi == 0);
    }
}

/// Dividing two naturals by their gcd keeps the exact ratio.
pub proof fn lemma_gcd_reduce(n: nat, d: nat)
    requires
        d > 0,
    ensures
        gcd(n, d) > 0,
        n % gcd(n, d) == 0,
        d % gcd(n, d) == 0,
        (n / gcd(n, d)) * (d as int) == (d / gcd(n, d)) * (n as int),
        d / gcd(n, d) > 0,
{
    let g = gcd(n, d);
    lemma_gcd_divides(n, d);
    let ni = n as int;
    let di = d as int;
    let gi = g as int;
    lemma_fundamental_div_mod(ni, gi);
    lemma_fundamental_div_mod(di, gi);
    assert(ni == gi * (ni / gi));
    assert(di == gi * (di / gi));
    assert((ni / gi) * di == (di / gi) * ni) by (nonlinear_arith)
        requires
            ni == gi * (ni / gi),
            di == gi * (di / gi),
    ;
    assert(di / gi > 0) by (nonlinear_arith)
        requires
            gi > 0,
            di > 0,
            di == gi * (di / gi),
    ;
    assert(n / g == ni / gi);
    assert(d / g == di / gi);
}

/// Whether an unbounded integer fits in `i64`.
pub open spec fn fits_i64(x: int) -> bool {
    i64::MIN <= x <= i64::MAX
}

/// The magnitude of an integer.
pub open spec fn abs_int(x: int) -> nat {
    if x < 0 {
        (-x) as nat
    } else {
        x as nat
    }
}

/// The pair `(n, d)` with both parts divided by their gcd.
pub open spec fn reduced(n: int, d: int) -> (int, int) {
    let g = gcd(abs_int(n), d as nat) as int;
    (n / g, d / g)
}

/// Reduces `n / d` to lowest terms, if the result fits in `i64`.
pub open spec fn spec_make(n: int, d: int) -> Option<Num> {
    let (rn, rd) = reduced(n, d);
    if fits_i64(rn) && fits_i64(rd) {
        Some(Num { n: rn as i64, d: rd as i64 })
    } else {
        None
    }
}

/// An exact rational number: numerator over a positive denominator.
/// Constructors keep values in lowest terms, so equal constructed values
/// are structurally equal.
#[derive(Clone, Copy, PartialEq, Eq, Structural, Debug)]
pub struct Num {
    pub n: i64,
    pub d: i64,
}

/// A well-formed rational: the denominator is positive.
pub open spec fn num_wf(a: Num) -> bool {
    a.d >= 1
}

/// Two well-formed rationals denote the same value when their cross
/// products agree.
pub open spec fn same_ratio(a: Num, n: int, d: int) -> bool {
    a.n * d == n * a.d
}

/// The sum `a + b` as an unreduced pair.
pub open spec fn spec_add(a: Num, b: Num) -> Option<Num> {
    spec_make(a.n * b.d + b.n * a.d, a.d * b.d)
}

/// The difference `a - b` as an unreduced pair.
pub open spec fn spec_sub(a: Num, b: Num) -> Option<Num> {
    spec_make(a.n * b.d - b.n * a.d, a.d * b.d)
}

/// The product `a * b`.
pub open spec fn spec_mul(a: Num, b: Num) -> Option<Num> {
    spec_make(a.n * b.n, a.d * b.d)
}

/// The quotient `a / b`, for `b` nonzero: multiply by the reciprocal and
/// move the sign into the numerator.
pub open spec fn spec_div(a: Num, b: Num) -> Option<Num> {
    if b.n >= 0 {
        spec_make(a.n * b.d, a.d * b.n)
    } else {
        spec_make(-(a.n * b.d), -(a.d * b.n))
    }
}

/// Whether `a` denotes a value strictly below `b`.
pub open spec fn spec_lt(a: Num, b: Num) -> bool {
    a.n * b.d < b.n * a.d
}

/// Whether `a` and `b` denote the same value.
pub open spec fn spec_eq_val(a: Num, b: Num) -> bool {
    a.n * b.d == b.n * a.d
}

impl Num {
    /// The rational with integer value `n`.
    pub fn from_int(n: i64) -> (r: Num)
        ensures
            r == (Num { n, d: 1 }),
            num_wf(r),
    {
        Num { n, d: 1 }
    }

    /// The rational `n / d`, reduced to lowest terms.
    pub fn ratio(n: i64, d: i64) -> (r: Option<Num>)
        requires
            d >= 1,
        ensures
            r == spec_make(n as int, d as int),
            r is Some ==> num_wf(r->0) && same_ratio(r->0, n as int, d as int),
    {
        make_num(n as i128, d as i128)
    }

    /// Whether this value is zero.
    pub fn is_zero(&self) -> (r: bool)
        ensures
            r == (self.n == 0),
    {
        self.n == 0
    }
}

/// The gcd of two machine naturals.
pub fn gcd_u128(a: u128, b: u128) -> (r: u128)
    ensures
        r == gcd(a as nat, b as nat),
{
    let mut x = a;
    let mut y = b;
    while y != 0
        invariant
            gcd(x as nat, y as nat) == gcd(a as nat, b as nat),
        decreases y,
    {
        let t = x % y;
        x = y;
        y = t;
    }
    x
}

/// The product of two `i64` values, computed without overflow in `i128`.
pub fn mul_i64(x: i64, y: i64) -> (r: i128)
    ensures
        r == x as int * y as int,
        -0x4000_0000_0000_0000_0000_0000_0000_0000 <= r
            <= 0x4000_0000_0000_0000_0000_0000_0000_0000,
{
    proof {
        assert(-0x4000_0000_0000_0000_0000_0000_0000_0000 <= (x as int) * (y as int)
            <= 0x4000_0000_0000_0000_0000_0000_0000_0000) by (nonlinear_arith)
            requires
                -0x8000_0000_0000_0000 <= x as int,
                x as int <= 0x7fff_ffff_ffff_ffff,
                -0x8000_0000_0000_0000 <= y as int,
                y as int <= 0x7fff_ffff_ffff_ffff,
        ;
    }
    (x as i128) * (y as i128)
}

/// The product of an `i64` value and a positive `i64` value; the tighter
/// range lets two such products be added without overflow.
pub fn mul_pos_i64(x: i64, y: i64) -> (r: i128)
    requires
        y >= 1,
    ensures
        r == x as int * y as int,
        -0x3fff_ffff_ffff_ffff_8000_0000_0000_0000 <= r
            <= 0x3fff_ffff_ffff_ffff_8000_0000_0000_0000,
{
    proof {
        assert(-0x3fff_ffff_ffff_ffff_8000_0000_0000_0000 <= (x as int) * (y as int)
            <= 0x3fff_ffff_ffff_ffff_8000_0000_0000_0000) by (nonlinear_arith)
            requires
                -0x8000_0000_0000_0000 <= x as int,
                x as int <= 0x7fff_ffff_ffff_ffff,
                1 <= y as int,
                y as int <= 0x7fff_ffff_ffff_ffff,
        ;
    }
    (x as i128) * (y as i128)
}

/// Builds the reduced rational `n / d`, if it fits in `i64`.
pub fn make_num(n: i128, d: i128) -> (r: Option<Num>)
    requires
        d >= 1,
        n > i128::MIN,
    ensures
        r == spec_make(n as int, d as int),
        r is Some ==> num_wf(r->0) && same_ratio(r->0, n as int, d as int),
{
    let neg = n < 0;
    let mag: u128 = if neg {
        (-n) as u128
    } else {
        n as u128
    };
    assert(mag as nat == abs_int(n as int));
    let du: u128 = d as u128;
    let g = gcd_u128(mag, du);
    proof {
        lemma_gcd_reduce(mag as nat, du as nat);
    }
    let rm = mag / g;
    let rd = du / g;
    proof {
        let gi = g as int;
        // Exact division in the spec's signed terms.
        assert(mag as int / gi == rm as int);
        assert(du as int / gi == rd as int);
        if neg {
            // n == -(mag) and g divides mag exactly, so n / g == -(mag / g).
            lemma_fundamental_div_mod(mag as int, gi);
            assert(n as int == (-(rm as int)) * gi) by (nonlinear_arith)
                requires
                    n as int == -(mag as int),
                    mag as int == (mag as int / gi) * gi,
                    rm as int == mag as int / gi,
                    gi > 0,
            ;
            vstd::arithmetic::div_mod::lemma_div_multiples_vanish(-(rm as int), gi);
            assert(n as int / gi == -(rm as int));
        }
    }
    if neg {
        if rm <= 0x8000_0000_0000_0000u128 && rd <= 0x7fff_ffff_ffff_ffffu128 {
            let rn: i64 = (-(rm as i128)) as i64;
            let rdd: i64 = rd as i64;
            let r = Num { n: rn, d: rdd };
            proof {
                assert((rn as int) * (d as int) == (n as int) * (rdd as int)) by (nonlinear_arith)
                    requires
                        rn as int == -(rm as int),
                        rdd as int == rd as int,
                        (rm as int) * (du as int) == (rd as int) * (mag as int),
                        n as int == -(mag as int),
                        d as int == du as int,
                ;
                assert(same_ratio(r, n as int, d as int));
            }
            Some(r)
        } else {
            None
        }
    } else {
        if rm <= 0x7fff_ffff_ffff_ffffu128 && rd <= 0x7fff_ffff_ffff_ffffu128 {
            let r = Num { n: rm as i64, d: rd as i64 };
            proof {
                assert((r.n as int) * (d as int) == (n as int) * (r.d as int)) by (nonlinear_arith)
                    requires
                        r.n as int == rm as int,
                        r.d as int == rd as int,
                        (rm as int) * (du as int) == (rd as int) * (mag as int),
                        n as int == mag as int,
                        d as int == du as int,
                ;
                assert(same_ratio(r, n as int, d as int));
            }
            Some(r)
        } else {
            None
        }
    }
}

/// The sum of two rationals, or `None` on `i64` overflow.
pub fn num_add(a: Num, b: Num) -> (r: Option<Num>)
    requires
        num_wf(a),
        num_wf(b),
    ensures
        r == spec_add(a, b),
        r is Some ==> num_wf(r->0),
    {
    let p1 = mul_pos_i64(a.n, b.d);
    let p2 = mul_pos_i64(b.n, a.d);
    let den = mul_pos_i64(a.d, b.d);
    proof {
        assert(den >= 1) by (nonlinear_arith)
            requires
                den == a.d as int * b.d as int,
                a.d >= 1,
                b.d >= 1,
        ;
    }
    make_num(p1 + p2, den)
}

/// The difference of two rationals, or `None` on `i64` overflow.
pub fn num_sub(a: Num, b: Num) -> (r: Option<Num>)
    requires
        num_wf(a),
        num_wf(b),
    ensures
        r == spec_sub(a, b),
        r is Some ==> num_wf(r->0),
{
    let p1 = mul_pos_i64(a.n, b.d);
    let p2 = mul_pos_i64(b.n, a.d);
    let den = mul_pos_i64(a.d, b.d);
    proof {
        assert(den >= 1) by (nonlinear_arith)
            requires
                den == a.d as int * b.d as int,
                a.d >= 1,
                b.d >= 1,
        ;
    }
    make_num(p1 - p2, den)
}

/// The product of two rationals, or `None` on `i64` overflow.
pub fn num_mul(a: Num, b: Num) -> (r: Option<Num>)
    requires
        num_wf(a),
        num_wf(b),
    ensures
        r == spec_mul(a, b),
        r is Some ==> num_wf(r->0),
{
    let p = mul_i64(a.n, b.n);
    let den = mul_pos_i64(a.d, b.d);
    proof {
        assert(den >= 1) by (nonlinear_arith)
            requires
                den == a.d as int * b.d as int,
                a.d >= 1,
                b.d >= 1,
        ;
    }
    make_num(p, den)
}

/// The quotient of two rationals, for a nonzero divisor, or `None` on
/// `i64` overflow.
pub fn num_div(a: Num, b: Num) -> (r: Option<Num>)
    requires
        num_wf(a),
        num_wf(b),
        b.n != 0,
    ensures
        r == spec_div(a, b),
        r is Some ==> num_wf(r->0),
{
    let p = mul_pos_i64(a.n, b.d);
    let den = mul_pos_i64(b.n, a.d);
    if b.n >= 0 {
        proof {
            assert(den >= 1) by (nonlinear_arith)
                requires
                    den == a.d as int * b.n as int,
                    a.d >= 1,
                    b.n >= 1,
            ;
        }
        make_num(p, den)
    } else {
        proof {
            assert(-den >= 1) by (nonlinear_arith)
                requires
                    den == a.d as int * b.n as int,
                    a.d >= 1,
                    b.n <= -1,
            ;
        }
        make_num(-p, -den)
    }
}

/// The negation of a rational, or `None` on `i64` overflow.
pub fn num_neg(a: Num) -> (r: Option<Num>)
    requires
        num_wf(a),
    ensures
        a.n == i64::MIN ==> r is None,
        a.n != i64::MIN ==> r is Some && r->0.d == a.d && r->0.n as int == -(a.n as int),
{
    if a.n == i64::MIN {
        None
    } else {
        Some(Num { n: -a.n, d: a.d })
    }
}

/// Whether `a` denotes a value strictly below `b`.
pub fn num_lt(a: Num, b: Num) -> (r: bool)
    requires
        num_wf(a),
        num_wf(b),
    ensures
        r == spec_lt(a, b),
{
    let p1 = mul_pos_i64(a.n, b.d);
    let p2 = mul_pos_i64(b.n, a.d);
    p1 < p2
}

/// Whether `a` and `b` denote the same value.
pub fn num_eq_val(a: Num, b: Num) -> (r: bool)
    requires
        num_wf(a),
        num_wf(b),
    ensures
        r == spec_eq_val(a, b),
{
    let p1 = mul_pos_i64(a.n, b.d);
    let p2 = mul_pos_i64(b.n, a.d);
    p1 == p2
}

/// The decimal digits after the point in the expansion of `r / d`, by long
/// division, stopping after `fuel` digits: `None` when the expansion has
/// not ended by then.  The expansion never ends in a zero digit, since a
/// zero last digit would mean the previous remainder was already zero.
pub open spec fn frac_digits(r: nat, d: nat, fuel: nat) -> Option<Seq<char>>
    decreases fuel,
{
    if r == 0 {
        Some(Seq::empty())
    } else if fuel == 0 {
        None
    } else {
        let r10 = r * 10;
        match frac_digits(r10 % d, d, (fuel - 1) as nat) {
            Some(rest) => Some(seq![crate::text::digit_char((r10 / d) as int)] + rest),
            None => None,
        }
    }
}

/// How many fraction digits the renderer is willing to expand before it
/// falls back to the exact `numerator/denominator` form.
pub open spec fn render_fuel() -> nat {
    100
}

/// The rendered text of the rational `n / d`: its exact decimal expansion
/// when that ends within `render_fuel()` digits (which covers every value
/// whose reduced denominator has only the prime factors 2 and 5), and the
/// exact form `numerator/denominator` otherwise.  Integers render without
/// a point.
pub open spec fn num_text(n: int, d: int) -> Seq<char> {
    if d < 1 {
        Seq::empty()
    } else {
        let mag = abs_int(n);
        let whole = mag / (d as nat);
        let r0 = mag % (d as nat);
        let sign: Seq<char> = if n < 0 {
            seq!['-']
        } else {
            Seq::empty()
        };
        if r0 == 0 {
            sign + crate::text::dec_digits(whole)
        } else {
            match frac_digits(r0, d as nat, render_fuel()) {
                Some(f) => sign + crate::text::dec_digits(whole) + seq!['.'] + f,
                None => sign + crate::text::dec_digits(mag) + seq!['/'] + crate::text::dec_digits(
                    d as nat,
                ),
            }
        }
    }
}

impl Num {
    /// Renders this rational as `num_text` describes.
    pub fn to_text(&self) -> (r: String)
        requires
            num_wf(*self),
        ensures
            r@ == num_text(self.n as int, self.d as int),
    {
        let neg = self.n < 0;
        let mag: u128 = if neg {
            (-(self.n as i128)) as u128
        } else {
            self.n as u128
        };
        let du: u128 = self.d as u128;
        assert(mag as nat == abs_int(self.n as int));
        let whole = mag / du;
        let r0 = mag % du;
        let mut s = String::new();
        if neg {
            crate::text::push_char(&mut s, '-');
        }
        if r0 == 0 {
            crate::text::push_uint_digits(&mut s, whole);
            assert(s@ =~= num_text(self.n as int, self.d as int));
            return s;
        }
        let mut frac = String::new();
        let mut r: u128 = r0;
        let mut fuel: u8 = 100;
        proof {
            lemma_mod_division_less_than_divisor(mag as int, du as int);
            assert(frac_digits(r0 as nat, du as nat, render_fuel()) == (match frac_digits(
                r as nat,
                du as nat,
                fuel as nat,
            ) {
                Some(rest) => Some(frac@ + rest),
                None => None::<Seq<char>>,
            })) by {
                if frac_digits(r as nat, du as nat, fuel as nat) is Some {
                    let rest = frac_digits(r as nat, du as nat, fuel as nat)->0;
                    assert(frac@ + rest =~= rest);
                }
            }
        }
        while r != 0 && fuel > 0
            invariant
                1 <= du <= 0x7fff_ffff_ffff_ffff,
                r < du,
                fuel <= 100,
                frac_digits(r0 as nat, du as nat, render_fuel()) == (match frac_digits(
                    r as nat,
                    du as nat,
                    fuel as nat,
                ) {
                    Some(rest) => Some(frac@ + rest),
                    None => None::<Seq<char>>,
                }),
            decreases fuel,
        {
            let r10 = r * 10;
            proof {
                lemma_fundamental_div_mod(r10 as int, du as int);
                lemma_mod_division_less_than_divisor(r10 as int, du as int);
                assert((r10 as int) / (du as int) < 10) by (nonlinear_arith)
                    requires
                        r10 as int == (du as int) * ((r10 as int) / (du as int)) + (r10 as int)
                            % (du as int),
                        0 <= (r10 as int) % (du as int),
                        (r10 as int) < 10 * (du as int),
                        du as int >= 1,
                ;
            }
            let dig: u8 = (r10 / du) as u8;
            let rn = r10 % du;
            let ghost old_frac = frac@;
            let ghost old_r = r as nat;
            let ghost old_fuel = fuel as nat;
            let c = crate::text::digit_to_char(dig);
            crate::text::push_char(&mut frac, c);
            r = rn;
            fuel = fuel - 1;
            proof {
                let fd = frac_digits(r as nat, du as nat, fuel as nat);
                assert(frac_digits(old_r, du as nat, old_fuel) == (match fd {
                    Some(rest2) => Some(seq![crate::text::digit_char(dig as int)] + rest2),
                    None => None::<Seq<char>>,
                }));
                if fd is Some {
                    assert(old_frac + (seq![crate::text::digit_char(dig as int)] + fd->0) =~= frac@
                        + fd->0);
                }
            }
        }
        if r == 0 {
            crate::text::push_uint_digits(&mut s, whole);
            crate::text::push_char(&mut s, '.');
            s.append(frac.as_str());
            proof {
                assert(frac_digits(r as nat, du as nat, fuel as nat) == Some(Seq::<char>::empty()));
                assert(frac@ + Seq::<char>::empty() =~= frac@);
                assert(s@ =~= num_text(self.n as int, self.d as int));
            }
            s
        } else {
            let mut s2 = String::new();
            if neg {
                crate::text::push_char(&mut s2, '-');
            }
            crate::text::push_uint_digits(&mut s2, mag);
            crate::text::push_char(&mut s2, '/');
            crate::text::push_uint_digits(&mut s2, du);
            assert(s2@ =~= num_text(self.n as int, self.d as int));
            s2
        }
    }
}

/// Sign and range facts about euclidean division by a positive divisor.
pub proof fn lemma_ediv_sign(n: int, d: int)
    requires
        d >= 1,
    ensures
        n >= 0 ==> 0 <= n / d <= n,
        n < 0 ==> n / d < 0,
        n >= d ==> n / d >= 1,
        0 <= n < d ==> n / d == 0,
{
    lemma_fundamental_div_mod(n, d);
    lemma_mod_division_less_than_divisor(n, d);
    let q = n / d;
    let r = n % d;
    assert((n >= 0 ==> 0 <= q <= n) && (n < 0 ==> q < 0) && (n >= d ==> q >= 1) && (0 <= n < d
        ==> q == 0)) by (nonlinear_arith)
        requires
            n == d * q + r,
            0 <= r < d,
            d >= 1,
    ;
}

/// Ten to the `k`.
pub open spec fn pow10(k: nat) -> nat
    decreases k,
{
    if k == 0 {
        1
    } else {
        10 * pow10((k - 1) as nat)
    }
}

/// Whether every character of `s` is an ASCII decimal digit.
pub open spec fn all_digits(s: Seq<char>) -> bool {
    forall|i: int| 0 <= i < s.len() ==> crate::text::is_digit_char(s[i])
}

/// The value of a digit string read as a decimal number.
pub open spec fn digits_val(s: Seq<char>) -> int
    decreases s.len(),
{
    if s.len() == 0 {
        0
    } else {
        digits_val(s.drop_last()) * 10 + crate::text::digit_value(s.last())
    }
}

/// The index of the first `.` in `s` at or after `i`, or `s.len()`.
pub open spec fn first_dot(s: Seq<char>, i: int) -> int
    decreases s.len() - i,
{
    if i < 0 || i >= s.len() {
        s.len() as int
    } else if s[i] == '.' {
        i
    } else {
        first_dot(s, i + 1)
    }
}

/// How long a number lexeme may be.  Longer literals are rejected rather
/// than silently rounded.
pub open spec fn max_literal_len() -> nat {
    19
}

/// The rational denoted by a number lexeme: a run of digits with at most
/// one embedded point and at least one digit after it, no longer than
/// `max_literal_len()` characters.  Anything else is `None`, as is a value
/// whose reduced form does not fit in `i64`.
pub open spec fn spec_num_from_lexeme(s: Seq<char>) -> Option<Num> {
    if s.len() > max_literal_len() {
        None
    } else {
        let p = first_dot(s, 0);
        if p == s.len() {
            if s.len() >= 1 && all_digits(s) {
                spec_make(digits_val(s), 1)
            } else {
                None
            }
        } else {
            let intpart = s.subrange(0, p);
            let fracpart = s.subrange(p + 1, s.len() as int);
            if fracpart.len() >= 1 && all_digits(intpart) && all_digits(fracpart) {
                spec_make(
                    digits_val(intpart) * pow10(fracpart.len()) + digits_val(fracpart),
                    pow10(fracpart.len()) as int,
                )
            } else {
                None
            }
        }
    }
}

/// `pow10` grows by factors of ten, so short digit strings have small
/// values.
pub proof fn lemma_digits_val_bound(s: Seq<char>)
    requires
        all_digits(s),
    ensures
        0 <= digits_val(s) < pow10(s.len()),
    decreases s.len(),
{
    if s.len() == 0 {
    } else {
        let t = s.drop_last();
        assert(all_digits(t));
        lemma_digits_val_bound(t);
        assert(pow10(s.len()) == 10 * pow10(t.len()));
        assert(0 <= crate::text::digit_value(s.last()) <= 9);
        assert(digits_val(t) * 10 + crate::text::digit_value(s.last()) < pow10(s.len()))
            by (nonlinear_arith)
            requires
                0 <= digits_val(t),
                digits_val(t) < pow10(t.len()),
                pow10(s.len()) == 10 * pow10(t.len()),
                0 <= crate::text::digit_value(s.last()) <= 9,
        ;
    }
}

/// `pow10(k)` for `k` up to the literal-length cap fits comfortably in a
/// machine word.
pub proof fn lemma_pow10_small(k: nat)
    requires
        k <= 19,
    ensures
        1 <= pow10(k) <= 10_000_000_000_000_000_000,
    decreases k,
{
    reveal_with_fuel(pow10, 21);
    if k == 0 {
    } else {
        lemma_pow10_small((k - 1) as nat);
        assert(pow10(19) == 10_000_000_000_000_000_000);
        if k < 19 {
            assert(pow10(k) <= pow10(19)) by {
                lemma_pow10_mono(k, 19);
            }
        }
    }
}

/// `pow10` is monotone.
pub proof fn lemma_pow10_mono(j: nat, k: nat)
    requires
        j <= k,
    ensures
        pow10(j) <= pow10(k),
    decreases k,
{
    if j < k {
        lemma_pow10_mono(j, (k - 1) as nat);
        assert(pow10(k) == 10 * pow10((k - 1) as nat));
        assert(pow10((k - 1) as nat) >= 0);
    }
}

/// Reads a run of digits from `s`, between the character positions `from`
/// and `to`.
fn digits_value_exec(s: &str, from: usize, to: usize) -> (r: Option<u64>)
    requires
        from <= to <= s@.len(),
        to - from <= 19,
    ensures
        r is Some <==> all_digits(s@.subrange(from as int, to as int)),
        r is Some ==> r->0 as int == digits_val(s@.subrange(from as int, to as int))
            && r->0 < pow10((to - from) as nat),
{
    let mut acc: u64 = 0;
    let mut i: usize = from;
    proof {
        lemma_pow10_small((to - from) as nat);
        assert(s@.subrange(from as int, from as int) =~= Seq::<char>::empty());
    }
    while i < to
        invariant
            from <= i <= to,
            to <= s@.len(),
            to - from <= 19,
            all_digits(s@.subrange(from as int, i as int)),
            acc as int == digits_val(s@.subrange(from as int, i as int)),
            acc < pow10((i - from) as nat),
            pow10((to - from) as nat) <= 10_000_000_000_000_000_000,
        decreases to - i,
    {
        let c = s.get_char(i);
        let d = match crate::text::char_digit(c) {
            Some(d) => d,
            None => {
                proof {
                    let part = s@.subrange(from as int, to as int);
                    assert(part[i - from] == s@[i as int]);
                    assert(!all_digits(part));
                }
                return None;
            },
        };
        proof {
            lemma_pow10_small((i - from) as nat);
            lemma_pow10_mono((i + 1 - from) as nat, (to - from) as nat);
            assert(acc * 10 + d < pow10((i + 1 - from) as nat)) by (nonlinear_arith)
                requires
                    0 <= acc,
                    (acc as int) < pow10((i - from) as nat),
                    pow10((i + 1 - from) as nat) == 10 * pow10((i - from) as nat),
                    0 <= d <= 9,
            ;
        }
        let acc2: u64 = acc * 10 + (d as u64);
        proof {
            let pref = s@.subrange(from as int, i as int);
            let pref2 = s@.subrange(from as int, i + 1);
            assert(pref2.drop_last() =~= pref);
            assert(pref2.last() == s@[i as int]);
            assert(all_digits(pref2)) by {
                assert(forall|j: int|
                    0 <= j < pref2.len() ==> pref2[j] == s@[from + j]
                        && (j < pref.len() ==> pref2[j] == pref[j]));
            }
            assert(acc2 as int == digits_val(pref2));
        }
        acc = acc2;
        i += 1;
    }
    Some(acc)
}

/// Reads a number lexeme as `spec_num_from_lexeme` describes.
pub fn num_from_lexeme(s: &str) -> (r: Option<Num>)
    ensures
        r == spec_num_from_lexeme(s@),
        r is Some ==> num_wf(r->0),
{
    let len = s.unicode_len();
    if len > 19 {
        return None;
    }
    // Find the first point.
    let mut dot: usize = 0;
    while dot < len && s.get_char(dot) != '.'
        invariant
            dot <= len,
            len == s@.len(),
            forall|j: int| 0 <= j < dot ==> s@[j] != '.',
        decreases len - dot,
    {
        dot += 1;
    }
    proof {
        lemma_first_dot(s@, 0, dot as int);
    }
    if dot == len {
        if len == 0 {
            return None;
        }
        match digits_value_exec(s, 0, len) {
            Some(v) => {
                proof {
                    assert(s@.subrange(0, len as int) =~= s@);
                }
                make_num(v as i128, 1)
            },
            None => {
                proof {
                    assert(s@.subrange(0, len as int) =~= s@);
                }
                None
            },
        }
    } else {
        let fl = len - dot - 1;
        if fl == 0 {
            return None;
        }
        let ip = digits_value_exec(s, 0, dot);
        let fp = digits_value_exec(s, dot + 1, len);
        match (ip, fp) {
            (Some(iv), Some(fv)) => {
                let mut q: u64 = 1;
                let mut k: usize = 0;
                proof {
                    lemma_pow10_small(fl as nat);
                }
                while k < fl
                    invariant
                        k <= fl,
                        fl <= 19,
                        q == pow10(k as nat),
                        pow10(fl as nat) <= 10_000_000_000_000_000_000,
                    decreases fl - k,
                {
                    proof {
                        lemma_pow10_mono((k + 1) as nat, fl as nat);
                        lemma_pow10_small(k as nat);
                    }
                    q = q * 10;
                    k += 1;
                }
                proof {
                    lemma_pow10_small((dot - 0) as nat);
                    lemma_pow10_small(fl as nat);
                    assert((iv as int) * (q as int) <= 10_000_000_000_000_000_000
                        * 10_000_000_000_000_000_000) by (nonlinear_arith)
                        requires
                            0 <= iv as int <= 10_000_000_000_000_000_000,
                            0 <= q as int <= 10_000_000_000_000_000_000,
                    ;
                    assert((iv as int) * (q as int) >= 0) by (nonlinear_arith)
                        requires
                            0 <= iv as int,
                            0 <= q as int,
                    ;
                }
                let p: i128 = (iv as i128) * (q as i128) + (fv as i128);
                make_num(p, q as i128)
            },
            _ => None,
        }
    }
}

/// If no character before `dot` is a point, and `dot` either is `s.len()`
/// or holds a point, then `dot` is the first point.
proof fn lemma_first_dot(s: Seq<char>, i: int, dot: int)
    requires
        0 <= i <= dot <= s.len(),
        forall|j: int| i <= j < dot ==> s[j] != '.',
        dot == s.len() || s[dot] == '.',
    ensures
        first_dot(s, i) == dot,
    decreases s.len() - i,
{
    if i < dot {
        lemma_first_dot(s, i + 1, dot);
    }
}

} // verus!
