use vstd::prelude::*;

use crate::significand::{digit_view, spec_digits, push_digits, lemma_digits_bounds};
use crate::{DecValue, spec_decode, decodes_nan, comb_field, lemma_tail_value_same, tail_value};
use vstd::string::StringExecFns;

verus! {

/// The character for one decimal digit.
pub open spec fn spec_digit_char(d: int) -> char {
    if d == 0 {
        '0'
    } else if d == 1 {
        '1'
    } else if d == 2 {
        '2'
    } else if d == 3 {
        '3'
    } else if d == 4 {
        '4'
    } else if d == 5 {
        '5'
    } else if d == 6 {
        '6'
    } else if d == 7 {
        '7'
    } else if d == 8 {
        '8'
    } else {
        '9'
    }
}

/// The characters for a sequence of decimal digits.
pub open spec fn spec_char_seq(ds: Seq<int>) -> Seq<char> {
    ds.map_values(|d: int| spec_digit_char(d))
}

/// The decimal rendering of a non-negative integer.
pub open spec fn spec_sig_chars(n: int) -> Seq<char> {
    spec_char_seq(spec_digits(n))
}

/// The decimal rendering of an integer, with a minus sign when negative.
pub open spec fn spec_int_chars(n: int) -> Seq<char> {
    if n < 0 {
        "-"@ + spec_sig_chars(-n)
    } else {
        spec_sig_chars(n)
    }
}

/// `k` zero characters.
pub open spec fn spec_zeros(k: nat) -> Seq<char> {
    Seq::new(k, |i: int| '0')
}

/// The true exponent of a stored biased exponent.
pub open spec fn spec_adjusted(exp: int) -> int {
    exp - 6176
}

/// The exponent rendered in scientific notation: the true exponent shifted
/// by one less than the digit count of the significand.
pub open spec fn spec_sci_exp(exp: int, sig: int) -> int {
    spec_digits(sig).len() - 1 + spec_adjusted(exp)
}

/// Scientific notation is chosen when the true exponent is positive or the
/// scientific exponent falls below -6.
pub open spec fn spec_use_sci(exp: int, sig: int) -> bool {
    spec_adjusted(exp) > 0 || spec_sci_exp(exp, sig) < -6
}

/// The exponent suffix of a scientific rendering: an explicit plus sign
/// exactly when the true exponent is non-negative, then the scientific
/// exponent with its own sign.
pub open spec fn spec_exp_chars(adjusted: int, sci: int) -> Seq<char> {
    (if adjusted >= 0 {
        "+"@
    } else {
        Seq::<char>::empty()
    }) + spec_int_chars(sci)
}

/// The rendering of a finite value, sign left aside.
pub open spec fn spec_body(exp: int, sig: int) -> Seq<char> {
    let cs = spec_sig_chars(sig);
    let n = cs.len() as int;
    let adjusted = spec_adjusted(exp);
    if spec_use_sci(exp, sig) {
        let epart = "E"@ + spec_exp_chars(adjusted, spec_sci_exp(exp, sig));
        if n > 1 {
            cs.subrange(0, 1) + "."@ + cs.subrange(1, n) + epart
        } else {
            cs + epart
        }
    } else if adjusted < 0 {
        if n > -adjusted {
            cs.subrange(0, n + adjusted) + "."@ + cs.subrange(n + adjusted, n)
        } else {
            "0."@ + spec_zeros((-(adjusted + n)) as nat) + cs
        }
    } else {
        cs
    }
}

/// The full rendering of a decoded value: NaN carries no sign, everything
/// else takes a leading minus when the sign bit was set.
pub open spec fn spec_to_string(v: DecValue) -> Seq<char> {
    if v.nan {
        "NaN"@
    } else {
        let body = if v.inf {
            "Infinity"@
        } else {
            spec_body(v.exp, v.sig)
        };
        if v.sign {
            "-"@ + body
        } else {
            body
        }
    }
}

/// Rendering is a function of the buffer alone: equal buffers decode and
/// render to equal strings.
pub proof fn lemma_render_deterministic(b1: Seq<u8>, b2: Seq<u8>)
    requires
        b1 == b2,
    ensures
        spec_to_string(spec_decode(b1)) == spec_to_string(spec_decode(b2)),
{
}

/// NaN renders without a sign: every buffer whose combination field reads
/// NaN renders to the same three characters, the sign bit notwithstanding.
pub proof fn lemma_nan_renders_unsigned(b: Seq<u8>)
    requires
        decodes_nan(b),
    ensures
        spec_to_string(spec_decode(b)) == "NaN"@,
{
}

/// The same buffer with the sign bit set.
pub open spec fn flip_sign(b: Seq<u8>) -> Seq<u8> {
    b.update(0, if b[0] >= 128 {
        (b[0] - 128) as u8
    } else {
        (b[0] + 128) as u8
    })
}

/// Setting only the sign bit leaves every decoded field unchanged but the
/// sign, so a non-NaN value renders with exactly one leading minus more.
pub proof fn lemma_sign_flip(b: Seq<u8>)
    requires
        b.len() == 16,
        b[0] < 128,
        !decodes_nan(b),
    ensures
        spec_decode(flip_sign(b)).sign,
        spec_to_string(spec_decode(flip_sign(b))) == "-"@ + spec_to_string(spec_decode(b)),
{
    let b2 = flip_sign(b);
    assert(b2[0] == b[0] + 128);
    assert(forall|i: int| 3 <= i < 16 ==> b[i] == b2[i]);
    lemma_tail_value_same(b, b2, 16);
    assert((b[0] as int + 128) / 4 == b[0] as int / 4 + 32);
    assert(comb_field(b2) == comb_field(b));
    assert(b2[0] as int % 32 == b[0] as int % 32);
    assert(b2[0] as int % 128 == b[0] as int % 128);
    assert(spec_decode(b2).exp == spec_decode(b).exp);
    assert(spec_decode(b2).sig == spec_decode(b).sig);
}

/// The one-character string for a decimal digit.
pub fn digit_str(d: u32) -> (r: &'static str)
    requires
        d < 10,
    ensures
        r@ == seq![spec_digit_char(d as int)],
{
    let r: &'static str = if d == 0 {
        "0"
    } else if d == 1 {
        "1"
    } else if d == 2 {
        "2"
    } else if d == 3 {
        "3"
    } else if d == 4 {
        "4"
    } else if d == 5 {
        "5"
    } else if d == 6 {
        "6"
    } else if d == 7 {
        "7"
    } else if d == 8 {
        "8"
    } else {
        "9"
    };
    proof {
        reveal_strlit("0");
        reveal_strlit("1");
        reveal_strlit("2");
        reveal_strlit("3");
        reveal_strlit("4");
        reveal_strlit("5");
        reveal_strlit("6");
        reveal_strlit("7");
        reveal_strlit("8");
        reveal_strlit("9");
        assert(r@ =~= seq![spec_digit_char(d as int)]);
    }
    r
}

/// Renders the digits of `v` between the indices `from` and `to`.
pub fn stringify_range(v: &Vec<u32>, from: usize, to: usize) -> (r: String)
    requires
        from <= to <= v@.len(),
        forall|i: int| 0 <= i < v@.len() ==> v@[i] < 10,
    ensures
        r@ == spec_char_seq(digit_view(v@).subrange(from as int, to as int)),
{
    let mut s = String::new();
    proof {
        assert(s@ =~= spec_char_seq(digit_view(v@).subrange(from as int, from as int)));
    }
    let mut i = from;
    while i < to
        invariant
            from <= i <= to <= v@.len(),
            forall|j: int| 0 <= j < v@.len() ==> v@[j] < 10,
            s@ == spec_char_seq(digit_view(v@).subrange(from as int, i as int)),
        decreases to - i,
    {
        s.append(digit_str(v[i]));
        i = i + 1;
        proof {
            assert(s@ =~= spec_char_seq(digit_view(v@).subrange(from as int, i as int)));
        }
    }
    s
}

/// Renders a whole vector of decimal digits.
pub fn stringify_vec(v: Vec<u32>) -> (r: String)
    requires
        forall|i: int| 0 <= i < v@.len() ==> v@[i] < 10,
    ensures
        r@ == spec_char_seq(digit_view(v@)),
{
    let len = v.len();
    let s = stringify_range(&v, 0, len);
    proof {
        assert(digit_view(v@).subrange(0, len as int) =~= digit_view(v@));
    }
    s
}

/// Renders a non-negative integer in decimal.
pub fn digits_string(n: u128) -> (r: String)
    ensures
        r@ == spec_sig_chars(n as int),
{
    let mut v: Vec<u32> = Vec::new();
    push_digits(&mut v, n);
    proof {
        assert(digit_view(v@) =~= spec_digits(n as int));
        lemma_digits_bounds(n as int);
        assert(forall|i: int| 0 <= i < v@.len() ==> v@[i] < 10) by {
            assert(forall|i: int| 0 <= i < v@.len() ==> digit_view(v@)[i] == v@[i] as int);
        }
    }
    let len = v.len();
    let s = stringify_range(&v, 0, len);
    proof {
        assert(digit_view(v@).subrange(0, len as int) =~= digit_view(v@));
    }
    s
}

} // verus!
