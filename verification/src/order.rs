use vstd::prelude::*;

use crate::{DecValue, Decimal128, SIG_LIMIT, lemma_decode_bounds, spec_decode};
use crate::significand::{
    lemma_ten_pow_adds, lemma_ten_pow_increases, lemma_ten_pow_pos, ten_pow,
};
use vstd::arithmetic::mul::{
    lemma_mul_inequality, lemma_mul_left_inequality, lemma_mul_strict_inequality,
};

verus! {

/// Raises an exponent toward `goal`, dividing the significand by ten while
/// it stays divisible; a zero significand jumps to the goal at once.
pub open spec fn spec_increase(sig: int, exp: int, goal: int) -> (int, int)
    decreases goal - exp,
{
    if sig == 0 {
        (sig, goal)
    } else if exp < goal && sig % 10 == 0 {
        spec_increase(sig / 10, exp + 1, goal)
    } else {
        (sig, exp)
    }
}

/// Lowers an exponent toward `goal`, multiplying the significand by ten
/// while the product stays below the layout's significand limit of 2^114;
/// a zero significand jumps to the goal at once. The limit is wide enough
/// that a comparison stuck above its goal is decided correctly even for
/// the noncanonical significands the decoder admits.
pub open spec fn spec_decrease(sig: int, exp: int, goal: int) -> (int, int)
    decreases exp - goal,
{
    if sig == 0 {
        (sig, goal)
    } else if exp > goal && sig * 10 < SIG_LIMIT {
        spec_decrease(sig * 10, exp - 1, goal)
    } else {
        (sig, exp)
    }
}

/// Three-way comparison of two integers.
pub open spec fn spec_cmp(a: int, b: int) -> int {
    if a < b {
        -1
    } else if a == b {
        0
    } else {
        1
    }
}

/// Comparison of two magnitudes once the exponents were pushed together:
/// equal exponents compare the significands, unequal exponents order by
/// exponent.
pub open spec fn spec_pair_cmp(ea: int, sa: int, eb: int, sb: int) -> int {
    if ea == eb {
        spec_cmp(sa, sb)
    } else if ea < eb {
        -1
    } else {
        1
    }
}

/// Comparison of two finite magnitudes, given as true exponents and
/// significands. A zero significand compares as zero whatever its
/// exponent. Otherwise, within a 66-unit exponent window the exponents
/// are first pushed together, the smaller upward before the larger
/// downward; farther apart, the larger exponent wins, which is sound
/// because no significand the layout admits spans 35 decimal digits.
pub open spec fn spec_mag_cmp(ea: int, sa: int, eb: int, sb: int) -> int {
    if sa == 0 || sb == 0 {
        spec_cmp(sa, sb)
    } else if ea == eb {
        spec_cmp(sa, sb)
    } else if -66 <= ea - eb <= 66 {
        if ea < eb {
            let (sa2, ea2) = spec_increase(sa, ea, eb);
            let (sb2, eb2) = spec_decrease(sb, eb, ea2);
            spec_pair_cmp(ea2, sa2, eb2, sb2)
        } else {
            let (sb2, eb2) = spec_increase(sb, eb, ea);
            let (sa2, ea2) = spec_decrease(sa, ea, eb2);
            spec_pair_cmp(ea2, sa2, eb2, sb2)
        }
    } else if ea < eb {
        -1
    } else {
        1
    }
}

/// The total comparison of two decoded values: a set sign bit sorts first;
/// equal signs compare the magnitudes.
pub open spec fn spec_compare(a: DecValue, b: DecValue) -> int {
    if a.sign != b.sign {
        if a.sign {
            -1
        } else {
            1
        }
    } else {
        spec_mag_cmp(a.exp - 6176, a.sig, b.exp - 6176, b.sig)
    }
}

/// Raising an exponent keeps it between its start and the goal, never
/// grows the significand, and stops short of the goal only on a digit
/// that will not divide.
pub proof fn lemma_increase_range(sig: int, exp: int, goal: int)
    requires
        0 <= sig,
        exp <= goal,
    ensures
        ({
            let (s2, e2) = spec_increase(sig, exp, goal);
            &&& 0 <= s2 <= sig
            &&& exp <= e2 <= goal
            &&& (sig > 0 ==> s2 >= 1)
            &&& (e2 < goal ==> s2 % 10 != 0 && s2 > 0)
        }),
    decreases goal - exp,
{
    if sig != 0 && exp < goal && sig % 10 == 0 {
        lemma_increase_range(sig / 10, exp + 1, goal);
    }
}

/// Lowering an exponent keeps it between the goal and its start, never
/// shrinks the significand, keeps it below the layout limit, and stops
/// short of the goal only against that limit.
pub proof fn lemma_decrease_range(sig: int, exp: int, goal: int)
    requires
        0 <= sig,
        goal <= exp,
    ensures
        ({
            let (s2, e2) = spec_decrease(sig, exp, goal);
            &&& sig <= s2
            &&& goal <= e2 <= exp
            &&& (sig > 0 ==> s2 >= 1)
            &&& (sig < SIG_LIMIT ==> s2 < SIG_LIMIT)
            &&& (e2 > goal ==> s2 * 10 >= SIG_LIMIT)
        }),
    decreases exp - goal,
{
    if sig != 0 && exp > goal && sig * 10 < SIG_LIMIT {
        lemma_decrease_range(sig * 10, exp - 1, goal);
    }
}

/// The numeric magnitude a significand and true exponent stand for, scaled
/// by 10^6176 so that it stays an integer: sig * 10^(exp + 6176).
pub open spec fn spec_value(sig: int, exp: int) -> int
    recommends
        -6176 <= exp,
{
    sig * ten_pow((exp + 6176) as nat)
}

/// Comparing any decoded value with itself yields equality.
pub proof fn lemma_compare_reflexive(a: DecValue)
    ensures
        spec_compare(a, a) == 0,
{
}

/// Swapping the two magnitudes negates the comparison: both orders push
/// the same exponent upward first.
pub proof fn lemma_mag_cmp_antisymmetric(ea: int, sa: int, eb: int, sb: int)
    ensures
        spec_mag_cmp(ea, sa, eb, sb) == -spec_mag_cmp(eb, sb, ea, sa),
{
}

/// Swapping the operands negates the comparison.
pub proof fn lemma_compare_antisymmetric(a: DecValue, b: DecValue)
    ensures
        spec_compare(a, b) == -spec_compare(b, a),
{
    lemma_mag_cmp_antisymmetric(a.exp - 6176, a.sig, b.exp - 6176, b.sig);
}

/// Raising the exponent never changes the magnitude: the significand is
/// divided by ten exactly when it is divisible.
pub proof fn lemma_increase_value(sig: int, exp: int, goal: int)
    requires
        0 <= sig,
        -6176 <= exp <= goal,
    ensures
        spec_value(spec_increase(sig, exp, goal).0, spec_increase(sig, exp, goal).1)
            == spec_value(sig, exp),
    decreases goal - exp,
{
    if sig == 0 {
        assert(spec_value(0, goal) == 0);
        assert(spec_value(0, exp) == 0);
    } else if exp < goal && sig % 10 == 0 {
        lemma_increase_value(sig / 10, exp + 1, goal);
        let t = ten_pow((exp + 6176) as nat);
        assert(((exp + 1 + 6176) as nat) == ((exp + 6176) as nat) + 1);
        assert(ten_pow((exp + 1 + 6176) as nat) == 10 * t);
        let d = sig / 10;
        assert(sig == 10 * d);
        assert(d * (10 * t) == (d * 10) * t) by (nonlinear_arith);
        assert(spec_value(d, exp + 1) == d * (10 * t));
        assert(spec_value(spec_increase(sig, exp, goal).0, spec_increase(sig, exp, goal).1)
            == spec_value(sig, exp));
    }
}

/// Lowering the exponent never changes the magnitude: the significand is
/// multiplied by ten at each step.
pub proof fn lemma_decrease_value(sig: int, exp: int, goal: int)
    requires
        0 <= sig,
        -6176 <= goal <= exp,
    ensures
        spec_value(spec_decrease(sig, exp, goal).0, spec_decrease(sig, exp, goal).1)
            == spec_value(sig, exp),
    decreases exp - goal,
{
    if sig == 0 {
        assert(spec_value(0, goal) == 0);
        assert(spec_value(0, exp) == 0);
    } else if exp > goal && sig * 10 < SIG_LIMIT {
        lemma_decrease_value(sig * 10, exp - 1, goal);
        let t = ten_pow((exp - 1 + 6176) as nat);
        assert(((exp + 6176) as nat) == ((exp - 1 + 6176) as nat) + 1);
        assert(ten_pow((exp + 6176) as nat) == 10 * t);
        assert((sig * 10) * t == sig * (10 * t)) by (nonlinear_arith);
        assert(spec_value(sig * 10, exp - 1) == (sig * 10) * t);
        assert(spec_value(spec_decrease(sig, exp, goal).0, spec_decrease(sig, exp, goal).1)
            == spec_value(sig, exp));
    }
}

/// A positive significand stands for a positive magnitude.
proof fn lemma_value_positive(sig: int, exp: int)
    requires
        1 <= sig,
        -6176 <= exp,
    ensures
        spec_value(sig, exp) >= 1,
{
    let t = ten_pow((exp + 6176) as nat);
    lemma_ten_pow_pos((exp + 6176) as nat);
    lemma_mul_inequality(1, sig, t);
}

/// At a shared exponent, magnitudes compare as the significands do.
proof fn lemma_value_cmp_same_exp(ea: int, sa: int, sb: int)
    requires
        -6176 <= ea,
        0 <= sa,
        0 <= sb,
    ensures
        spec_cmp(spec_value(sa, ea), spec_value(sb, ea)) == spec_cmp(sa, sb),
{
    let t = ten_pow((ea + 6176) as nat);
    lemma_ten_pow_pos((ea + 6176) as nat);
    if sa < sb {
        lemma_mul_strict_inequality(sa, sb, t);
    } else if sb < sa {
        lemma_mul_strict_inequality(sb, sa, t);
    }
}

/// No significand the layout admits spans 35 decimal digits, so a positive
/// value sits strictly below any positive value whose exponent lies at
/// least 35 higher.
proof fn lemma_value_far(s_lo: int, e_lo: int, s_hi: int, e_hi: int)
    requires
        -6176 <= e_lo,
        e_lo + 35 <= e_hi,
        1 <= s_lo < SIG_LIMIT,
        1 <= s_hi,
    ensures
        spec_value(s_lo, e_lo) < spec_value(s_hi, e_hi),
{
    let el = (e_lo + 6176) as nat;
    let eh = (e_hi + 6176) as nat;
    let tl = ten_pow(el);
    let th = ten_pow(eh);
    lemma_ten_pow_pos(el);
    lemma_ten_pow_pos(eh);
    assert((SIG_LIMIT as int) <= ten_pow(35)) by {
        reveal_with_fuel(ten_pow, 36);
    }
    lemma_mul_strict_inequality(s_lo, SIG_LIMIT as int, tl);
    lemma_mul_inequality(SIG_LIMIT as int, ten_pow(35), tl);
    assert(ten_pow(35) * tl == ten_pow(35 + el)) by {
        lemma_ten_pow_adds(35, el);
    }
    lemma_ten_pow_increases(35 + el, eh);
    lemma_mul_inequality(1, s_hi, th);
}

/// Within the window, pushing the two exponents together preserves both
/// magnitudes; when they still fail to meet, the upper significand could
/// take no further factor of ten, so scaled one step down it already
/// clears the layout limit that bounds the lower side.
#[verifier::rlimit(50)]
proof fn lemma_mag_window(s_lo: int, e_lo: int, s_hi: int, e_hi: int)
    requires
        -6176 <= e_lo < e_hi <= 10207,
        1 <= s_lo < SIG_LIMIT,
        1 <= s_hi < SIG_LIMIT,
    ensures
        ({
            let (sl2, el2) = spec_increase(s_lo, e_lo, e_hi);
            let (sh2, eh2) = spec_decrease(s_hi, e_hi, el2);
            spec_pair_cmp(el2, sl2, eh2, sh2) == spec_cmp(
                spec_value(s_lo, e_lo),
                spec_value(s_hi, e_hi),
            )
        }),
{
    let (sl2, el2) = spec_increase(s_lo, e_lo, e_hi);
    let (sh2, eh2) = spec_decrease(s_hi, e_hi, el2);
    lemma_increase_range(s_lo, e_lo, e_hi);
    lemma_increase_value(s_lo, e_lo, e_hi);
    lemma_decrease_range(s_hi, e_hi, el2);
    lemma_decrease_value(s_hi, e_hi, el2);
    if el2 == eh2 {
        lemma_value_cmp_same_exp(el2, sl2, sh2);
    } else {
        // The upper side stopped above the goal: multiplying its
        // significand once more would reach the layout limit.
        let el = (el2 + 6176) as nat;
        let eh = (eh2 + 6176) as nat;
        let tl = ten_pow(el);
        let th = ten_pow(eh);
        lemma_ten_pow_pos(el);
        lemma_ten_pow_pos(eh);
        lemma_mul_strict_inequality(sl2, SIG_LIMIT as int, tl);
        lemma_mul_inequality(SIG_LIMIT as int, sh2 * 10, tl);
        assert((sh2 * 10) * tl == sh2 * (10 * tl)) by (nonlinear_arith);
        assert(((el2 + 1 + 6176) as nat) == el + 1);
        assert(ten_pow((el2 + 1 + 6176) as nat) == 10 * tl);
        lemma_ten_pow_increases((el2 + 1 + 6176) as nat, eh);
        lemma_mul_left_inequality(sh2, ten_pow((el2 + 1 + 6176) as nat), th);
        assert(spec_value(sl2, el2) < spec_value(sh2, eh2));
    }
}

/// The magnitude comparison agrees with the numeric order on every pair of
/// magnitudes the decoder can produce: a zero significand compares as
/// zero, pushing the exponents together preserves each magnitude, and
/// outside the 66-unit window no admissible significand bridges the gap.
pub proof fn lemma_mag_cmp_matches_value(ea: int, sa: int, eb: int, sb: int)
    requires
        -6176 <= ea <= 10207,
        -6176 <= eb <= 10207,
        0 <= sa < SIG_LIMIT,
        0 <= sb < SIG_LIMIT,
    ensures
        spec_mag_cmp(ea, sa, eb, sb) == spec_cmp(spec_value(sa, ea), spec_value(sb, eb)),
{
    if sa == 0 || sb == 0 {
        if sa == 0 {
            assert(spec_value(sa, ea) == 0);
        } else {
            lemma_value_positive(sa, ea);
        }
        if sb == 0 {
            assert(spec_value(sb, eb) == 0);
        } else {
            lemma_value_positive(sb, eb);
        }
    } else if ea == eb {
        lemma_value_cmp_same_exp(ea, sa, sb);
    } else if -66 <= ea - eb <= 66 {
        if ea < eb {
            lemma_mag_window(sa, ea, sb, eb);
        } else {
            lemma_mag_window(sb, eb, sa, ea);
        }
    } else if ea < eb {
        lemma_value_far(sa, ea, sb, eb);
    } else {
        lemma_value_far(sb, eb, sa, ea);
    }
}

/// For values of equal sign, the comparison agrees with the numeric order
/// of sig * 10^(exp - 6176), over the whole range the decoder produces:
/// any biased exponent of 14 bits and any significand below 2^114, zero
/// and the noncanonical magnitudes of the `11`-prefixed layout included.
pub proof fn lemma_compare_matches_value(a: DecValue, b: DecValue)
    requires
        a.sign == b.sign,
        0 <= a.exp <= 16383,
        0 <= b.exp <= 16383,
        0 <= a.sig < SIG_LIMIT,
        0 <= b.sig < SIG_LIMIT,
    ensures
        spec_compare(a, b) == spec_cmp(
            spec_value(a.sig, a.exp - 6176),
            spec_value(b.sig, b.exp - 6176),
        ),
{
    lemma_mag_cmp_matches_value(a.exp - 6176, a.sig, b.exp - 6176, b.sig);
}

/// The comparison is transitive over all values in the decoder's range:
/// within one sign it follows the numeric order, and a set sign bit
/// always sorts below a clear one. With reflexivity and antisymmetry this
/// makes it a total order over decoded values.
pub proof fn lemma_compare_transitive(a: DecValue, b: DecValue, c: DecValue)
    requires
        0 <= a.exp <= 16383,
        0 <= b.exp <= 16383,
        0 <= c.exp <= 16383,
        0 <= a.sig < SIG_LIMIT,
        0 <= b.sig < SIG_LIMIT,
        0 <= c.sig < SIG_LIMIT,
    ensures
        spec_compare(a, b) <= 0 && spec_compare(b, c) <= 0 ==> spec_compare(a, c) <= 0,
        spec_compare(a, b) == 0 && spec_compare(b, c) == 0 ==> spec_compare(a, c) == 0,
{
    if a.sign == b.sign {
        lemma_compare_matches_value(a, b);
    }
    if b.sign == c.sign {
        lemma_compare_matches_value(b, c);
    }
    if a.sign == c.sign {
        lemma_compare_matches_value(a, c);
    }
}

/// Transitivity for any three decoded buffers, with nothing assumed:
/// decoding bounds the fields, and the comparison is transitive there.
pub proof fn lemma_compare_transitive_decoded(b1: Seq<u8>, b2: Seq<u8>, b3: Seq<u8>)
    ensures
        spec_compare(spec_decode(b1), spec_decode(b2)) <= 0 && spec_compare(
            spec_decode(b2),
            spec_decode(b3),
        ) <= 0 ==> spec_compare(spec_decode(b1), spec_decode(b3)) <= 0,
        spec_compare(spec_decode(b1), spec_decode(b2)) == 0 && spec_compare(
            spec_decode(b2),
            spec_decode(b3),
        ) == 0 ==> spec_compare(spec_decode(b1), spec_decode(b3)) == 0,
{
    lemma_decode_bounds(b1);
    lemma_decode_bounds(b2);
    lemma_decode_bounds(b3);
    lemma_compare_transitive(spec_decode(b1), spec_decode(b2), spec_decode(b3));
}

impl Decimal128 {
    /// Raises `exp` toward `goal` while the significand divides evenly by
    /// ten, returning the significand and exponent reached.
    pub(crate) fn increase_exponent(sig: u128, exp: i16, goal: i16) -> (r: (u128, i16))
        requires
            exp <= goal,
        ensures
            (r.0 as int, r.1 as int) == spec_increase(sig as int, exp as int, goal as int),
    {
        if sig == 0 {
            return (sig, goal);
        }
        let mut s = sig;
        let mut e = exp;
        while e < goal && s % 10 == 0
            invariant
                exp <= e <= goal,
                s > 0,
                spec_increase(s as int, e as int, goal as int) == spec_increase(
                    sig as int,
                    exp as int,
                    goal as int,
                ),
            decreases goal - e,
        {
            s = s / 10;
            e = e + 1;
        }
        (s, e)
    }

    /// Lowers `exp` toward `goal` while the significand stays below the
    /// layout's significand limit under multiplication by ten, returning
    /// the significand and exponent reached.
    pub(crate) fn decrease_exponent(sig: u128, exp: i16, goal: i16) -> (r: (u128, i16))
        requires
            goal <= exp,
            sig < SIG_LIMIT,
        ensures
            (r.0 as int, r.1 as int) == spec_decrease(sig as int, exp as int, goal as int),
    {
        if sig == 0 {
            return (sig, goal);
        }
        let mut s = sig;
        let mut e = exp;
        while e > goal && s * 10 < SIG_LIMIT
            invariant
                goal <= e <= exp,
                0 < s < SIG_LIMIT,
                spec_decrease(s as int, e as int, goal as int) == spec_decrease(
                    sig as int,
                    exp as int,
                    goal as int,
                ),
            decreases e - goal,
        {
            s = s * 10;
            e = e - 1;
        }
        (s, e)
    }
}

} // verus!
