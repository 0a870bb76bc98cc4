use vstd::prelude::*;

verus! {

/// Largest significand magnitude a decimal128 value may carry in canonical
/// form: 34 decimal digits, 10^34 - 1.
pub const MAX_SIGNIFICAND: u128 = 9999999999999999999999999999999999;

/// Ten raised to the power `k`.
pub open spec fn ten_pow(k: nat) -> int
    decreases k,
{
    if k == 0 {
        1
    } else {
        10 * ten_pow((k - 1) as nat)
    }
}

pub proof fn lemma_ten_pow_pos(k: nat)
    ensures
        ten_pow(k) >= 1,
    decreases k,
{
    if k > 0 {
        lemma_ten_pow_pos((k - 1) as nat);
    }
}

pub proof fn lemma_ten_pow_adds(a: nat, b: nat)
    ensures
        ten_pow(a + b) == ten_pow(a) * ten_pow(b),
    decreases a,
{
    if a == 0 {
    } else {
        lemma_ten_pow_adds((a - 1) as nat, b);
        assert(ten_pow(a + b) == 10 * ten_pow((a + b - 1) as nat));
        assert(ten_pow(a) * ten_pow(b) == (10 * ten_pow((a - 1) as nat)) * ten_pow(b))
            by (nonlinear_arith)
            requires ten_pow(a) == 10 * ten_pow((a - 1) as nat),
        ;
        assert((10 * ten_pow((a - 1) as nat)) * ten_pow(b) == 10 * (ten_pow((a - 1) as nat)
            * ten_pow(b))) by (nonlinear_arith);
    }
}

pub proof fn lemma_ten_pow_increases(a: nat, b: nat)
    requires
        a <= b,
    ensures
        ten_pow(a) <= ten_pow(b),
    decreases b - a,
{
    if a < b {
        lemma_ten_pow_increases(a, (b - 1) as nat);
        lemma_ten_pow_pos((b - 1) as nat);
    }
}

/// The decimal digits of `n`, most significant first; zero is the single
/// digit 0.
pub open spec fn spec_digits(n: int) -> Seq<int>
    decreases n,
{
    if n < 10 {
        seq![n]
    } else {
        spec_digits(n / 10).push(n % 10)
    }
}

pub proof fn lemma_digits_bounds(n: int)
    requires
        0 <= n,
    ensures
        1 <= spec_digits(n).len(),
        forall|i: int| 0 <= i < spec_digits(n).len() ==> 0 <= #[trigger] spec_digits(n)[i] <= 9,
    decreases n,
{
    if n >= 10 {
        lemma_digits_bounds(n / 10);
    }
}

pub proof fn lemma_digits_len_le(n: int, k: nat)
    requires
        1 <= k,
        0 <= n < ten_pow(k),
    ensures
        spec_digits(n).len() <= k,
    decreases n,
{
    if n >= 10 {
        if k == 1 {
            assert(ten_pow(1) == 10 * ten_pow(0));
            assert(false);
        }
        assert(ten_pow(k) == 10 * ten_pow((k - 1) as nat));
        lemma_digits_len_le(n / 10, (k - 1) as nat);
    }
}

/// The digits of a vector, as mathematical integers.
pub open spec fn digit_view(s: Seq<u32>) -> Seq<int> {
    s.map_values(|d: u32| d as int)
}

/// Appends the decimal digits of `n`, most significant first, to `v`.
pub fn push_digits(v: &mut Vec<u32>, n: u128)
    ensures
        digit_view(final(v)@) == digit_view(old(v)@) + spec_digits(n as int),
    decreases n,
{
    if n < 10 {
        v.push(n as u32);
        proof {
            assert(digit_view(v@) =~= digit_view(old(v)@) + spec_digits(n as int));
        }
    } else {
        push_digits(v, n / 10);
        let ghost mid = v@;
        v.push((n % 10) as u32);
        proof {
            assert(digit_view(v@) =~= digit_view(mid).push((n % 10) as int));
            assert(digit_view(v@) =~= digit_view(old(v)@) + spec_digits(n as int));
        }
    }
}

/// Counts the decimal digits of `n`.
pub fn count_digits_u128(n: u128) -> (c: usize)
    ensures
        c as int == spec_digits(n as int).len(),
    decreases n,
{
    if n < 10 {
        1
    } else {
        proof {
            reveal_with_fuel(ten_pow, 41);
            assert((n as int) < ten_pow(39));
            lemma_digits_len_le(n as int, 39);
        }
        1 + count_digits_u128(n / 10)
    }
}

/// The coefficient of a decimal128 value: an integer magnitude of at most 34
/// decimal digits.
pub struct Significand {
    inner: u128,
}

impl Significand {
    /// The magnitude this coefficient holds.
    pub closed spec fn value(&self) -> int {
        self.inner as int
    }

    /// The held magnitude is never negative.
    pub proof fn lemma_value_nonnegative(&self)
        ensures
            0 <= self.value(),
    {
    }

    pub fn new() -> (r: Significand)
        ensures
            r.value() == 0,
    {
        Significand { inner: 0 }
    }

    /// The largest canonical coefficient magnitude, 10^34 - 1.
    pub fn max_value() -> (r: u128)
        ensures
            r == MAX_SIGNIFICAND,
    {
        9999999999999999999999999999999999
    }

    /// Counts the decimal digits of the coefficient.
    pub fn count_digits(&self) -> (r: i16)
        ensures
            r as int == spec_digits(self.value()).len(),
    {
        proof {
            reveal_with_fuel(ten_pow, 41);
            assert((self.inner as int) < ten_pow(39));
            lemma_digits_len_le(self.inner as int, 39);
        }
        count_digits_u128(self.inner) as i16
    }

    /// The decimal digits of the coefficient, most significant first.
    pub fn as_digit_vec(&self) -> (r: Vec<u32>)
        ensures
            digit_view(r@) == spec_digits(self.value()),
    {
        let mut v: Vec<u32> = Vec::new();
        push_digits(&mut v, self.inner);
        proof {
            assert(digit_view(v@) =~= spec_digits(self.value()));
        }
        v
    }
}

} // verus!
