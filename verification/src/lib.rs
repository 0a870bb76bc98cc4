//! Decoder for the IEEE 754-2008 decimal128 interchange format with a
//! binary-encoded significand: a 16-byte big-endian buffer is split into a
//! sign bit, a 14-bit biased exponent and a significand magnitude, the
//! decoded value is rendered as a decimal string, and a total comparison
//! is defined over decoded values.

use vstd::prelude::*;

pub mod exponent;
pub mod format;
pub mod order;
pub mod significand;

use crate::format::{
    spec_body, spec_sci_exp, spec_to_string, spec_use_sci, spec_zeros, digits_string,
    stringify_range,
};
use crate::order::{lemma_increase_range, spec_compare};
use crate::significand::{
    digit_view, lemma_digits_bounds, lemma_digits_len_le, push_digits, spec_digits, ten_pow,
    count_digits_u128,
};
use vstd::math::abs;
use vstd::string::StringExecFns;

verus! {

/// 2^104: the weight of the significand bits that byte 2 contributes when
/// the combination field starts `00`, `01` or `10`.
pub const POW2_104: u128 = 0x1_0000_0000_0000_0000_0000_0000_00;

/// 2^112: the weight of the lowest bit of byte 1 in the significand when
/// the combination field starts `00`, `01` or `10`.
pub const POW2_112: u128 = 0x1_0000_0000_0000_0000_0000_0000_0000;

/// 2^113: the weight of the hidden `100` significand prefix when the
/// combination field starts `11`.
pub const POW2_113: u128 = 0x2_0000_0000_0000_0000_0000_0000_0000;

/// One more than the largest significand magnitude the 16-byte layout can
/// encode: 2^114.
pub const SIG_LIMIT: u128 = 0x4_0000_0000_0000_0000_0000_0000_0000;

/// The mathematical content of a decoded decimal128 value.
pub ghost struct DecValue {
    /// True when the sign bit is set.
    pub sign: bool,
    /// True when the combination field reads `11111`.
    pub nan: bool,
    /// True when the combination field reads `11110`.
    pub inf: bool,
    /// The biased exponent, 0..=16383; zero unless the value is finite.
    pub exp: int,
    /// The significand magnitude; zero unless the value is finite.
    pub sig: int,
    /// The buffer the value was decoded from.
    pub bytes: Seq<u8>,
}

/// The five-bit combination field: bits 1 to 5 of the first byte.
pub open spec fn comb_field(b: Seq<u8>) -> int {
    (b[0] as int / 4) % 32
}

/// The buffer decodes to NaN: all five combination bits are set.
pub open spec fn decodes_nan(b: Seq<u8>) -> bool {
    comb_field(b) == 31
}

/// The buffer decodes to an infinity: combination bits `11110`.
pub open spec fn decodes_infinity(b: Seq<u8>) -> bool {
    comb_field(b) == 30
}

/// The buffer holds a finite value in the `11`-prefixed layout: the first
/// two combination bits are set without reading as NaN or Infinity.
pub open spec fn high_layout(b: Seq<u8>) -> bool {
    24 <= comb_field(b) < 30
}

/// The value of bytes 3 to `k - 1` read as one big-endian integer.
pub open spec fn tail_value(b: Seq<u8>, k: int) -> int
    decreases k,
{
    if k <= 3 {
        0
    } else {
        tail_value(b, k - 1) * 256 + b[k - 1]
    }
}

/// An exclusive upper bound for `tail_value` at `k`: 256^(k - 3).
pub open spec fn tail_limit(k: int) -> int
    decreases k,
{
    if k <= 3 {
        1
    } else {
        256 * tail_limit(k - 1)
    }
}

pub proof fn lemma_tail_value_bound(b: Seq<u8>, k: int)
    ensures
        0 <= tail_value(b, k) < tail_limit(k),
    decreases k,
{
    if k > 3 {
        lemma_tail_value_bound(b, k - 1);
    }
}

/// The tail reads bytes 3 onward only: buffers that agree there share it.
pub proof fn lemma_tail_value_same(b1: Seq<u8>, b2: Seq<u8>, k: int)
    requires
        forall|i: int| 3 <= i < k ==> b1[i] == b2[i],
    ensures
        tail_value(b1, k) == tail_value(b2, k),
    decreases k,
{
    if k > 3 {
        lemma_tail_value_same(b1, b2, k - 1);
    }
}

pub proof fn lemma_tail_limit_increases(j: int, k: int)
    requires
        j <= k,
    ensures
        0 < tail_limit(j) <= tail_limit(k),
    decreases k - j,
{
    if j < k {
        lemma_tail_limit_increases(j, k - 1);
    } else {
        lemma_tail_limit_positive(j);
    }
}

pub proof fn lemma_tail_limit_positive(k: int)
    ensures
        tail_limit(k) > 0,
    decreases k,
{
    if k > 3 {
        lemma_tail_limit_positive(k - 1);
    }
}

/// The 14-bit biased exponent of a finite value.
pub open spec fn field_exp(b: Seq<u8>) -> int {
    if high_layout(b) {
        (b[0] as int % 32) * 512 + (b[1] as int) * 2 + b[2] as int / 128
    } else {
        (b[0] as int % 128) * 128 + b[1] as int / 2
    }
}

/// The significand magnitude of a finite value: the leading bits from the
/// first three bytes, then bytes 3 to 15 appended most significant first.
pub open spec fn field_sig(b: Seq<u8>) -> int {
    if high_layout(b) {
        POW2_113 + (b[2] as int % 128) * POW2_104 + tail_value(b, 16)
    } else {
        (b[1] as int % 2) * POW2_112 + (b[2] as int) * POW2_104 + tail_value(b, 16)
    }
}

/// The full decoding of a 16-byte buffer.
pub open spec fn spec_decode(b: Seq<u8>) -> DecValue {
    DecValue {
        sign: b[0] >= 128,
        nan: decodes_nan(b),
        inf: decodes_infinity(b),
        exp: if decodes_nan(b) || decodes_infinity(b) {
            0
        } else {
            field_exp(b)
        },
        sig: if decodes_nan(b) || decodes_infinity(b) {
            0
        } else {
            field_sig(b)
        },
        bytes: b,
    }
}

/// Whatever the buffer, the decoded exponent fits 14 bits and the decoded
/// significand fits below 2^114.
pub proof fn lemma_decode_bounds(b: Seq<u8>)
    ensures
        0 <= spec_decode(b).exp <= 16383,
        0 <= spec_decode(b).sig < SIG_LIMIT,
{
    lemma_tail_value_bound(b, 16);
    assert(tail_limit(16) == POW2_104) by {
        reveal_with_fuel(tail_limit, 15);
    }
}

/// Exactly one of the three classifications holds of a decoded value.
pub proof fn lemma_classification_exclusive(b: Seq<u8>)
    ensures
        !(spec_decode(b).nan && spec_decode(b).inf),
{
}

/// A significand below 2^114 has between 1 and 35 decimal digits.
pub proof fn lemma_sig_digit_count(sig: int)
    requires
        0 <= sig < SIG_LIMIT,
    ensures
        1 <= spec_digits(sig).len() <= 35,
{
    lemma_digits_bounds(sig);
    assert((SIG_LIMIT as int) < ten_pow(35)) by {
        reveal_with_fuel(ten_pow, 36);
    }
    lemma_digits_len_le(sig, 35);
}

/// The character for one hexadecimal digit, lower case.
pub open spec fn spec_hex_digit(d: int) -> char {
    if d == 0 {
        '0'
    } else if d == 1 {
        '1'
    } else if d == 2 {
        '2'
    } else if d == 3 {
        '3'
    } else if d == 4 {
        '4'
    } else if d == 5 {
        '5'
    } else if d == 6 {
        '6'
    } else if d == 7 {
        '7'
    } else if d == 8 {
        '8'
    } else if d == 9 {
        '9'
    } else if d == 10 {
        'a'
    } else if d == 11 {
        'b'
    } else if d == 12 {
        'c'
    } else if d == 13 {
        'd'
    } else if d == 14 {
        'e'
    } else {
        'f'
    }
}

/// Two lower-case hexadecimal digits for one byte.
pub open spec fn spec_byte_hex(b: u8) -> Seq<char> {
    seq![spec_hex_digit(b as int / 16), spec_hex_digit(b as int % 16)]
}

/// The first `k` bytes rendered in hexadecimal, last byte first.
pub open spec fn spec_hex_rev(b: Seq<u8>, k: int) -> Seq<char>
    decreases k,
{
    if k <= 0 {
        Seq::empty()
    } else {
        spec_byte_hex(b[k - 1]) + spec_hex_rev(b, k - 1)
    }
}

/// The two-character string for one byte in lower-case hexadecimal.
fn hex_digit_str(d: u8) -> (r: &'static str)
    requires
        d < 16,
    ensures
        r@ == seq![spec_hex_digit(d as int)],
{
    let r: &'static str = if d == 0 {
        "0"
    } else if d == 1 {
        "1"
    } else if d == 2 {
        "2"
    } else if d == 3 {
        "3"
    } else if d == 4 {
        "4"
    } else if d == 5 {
        "5"
    } else if d == 6 {
        "6"
    } else if d == 7 {
        "7"
    } else if d == 8 {
        "8"
    } else if d == 9 {
        "9"
    } else if d == 10 {
        "a"
    } else if d == 11 {
        "b"
    } else if d == 12 {
        "c"
    } else if d == 13 {
        "d"
    } else if d == 14 {
        "e"
    } else {
        "f"
    };
    proof {
        reveal_strlit("0");
        reveal_strlit("1");
        reveal_strlit("2");
        reveal_strlit("3");
        reveal_strlit("4");
        reveal_strlit("5");
        reveal_strlit("6");
        reveal_strlit("7");
        reveal_strlit("8");
        reveal_strlit("9");
        reveal_strlit("a");
        reveal_strlit("b");
        reveal_strlit("c");
        reveal_strlit("d");
        reveal_strlit("e");
        reveal_strlit("f");
        assert(r@ =~= seq![spec_hex_digit(d as int)]);
    }
    r
}

/// A decoded decimal128 value: sign, biased exponent, significand
/// magnitude, classification flags, and the original buffer.
#[derive(Clone)]
pub struct Decimal128 {
    sign: bool,
    exp: u16,
    sig: u128,
    bytes: [u8; 16],
    nan: bool,
    inf: bool,
}

impl View for Decimal128 {
    type V = DecValue;

    closed spec fn view(&self) -> DecValue {
        DecValue {
            sign: self.sign,
            nan: self.nan,
            inf: self.inf,
            exp: self.exp as int,
            sig: self.sig as int,
            bytes: self.bytes@,
        }
    }
}

impl Decimal128 {
    /// A well-formed value is exactly what its stored buffer decodes to.
    pub open spec fn wf(&self) -> bool {
        &&& self@.bytes.len() == 16
        &&& self@ == spec_decode(self@.bytes)
    }

    /// Decodes a 16-byte big-endian decimal128 buffer. Total: every buffer
    /// decodes to NaN, an infinity, or a finite value.
    pub fn from_raw_bytes(buffer: [u8; 16]) -> (r: Decimal128)
        ensures
            r.wf(),
            r@ == spec_decode(buffer@),
    {
        let b0 = buffer[0];
        let b1 = buffer[1];
        let b2 = buffer[2];
        let sign = b0 >= 128;

        // Bytes 3 to 15 always contribute the low 104 significand bits.
        let mut tail: u128 = 0;
        let mut i: usize = 3;
        while i < 16
            invariant
                3 <= i <= 16,
                tail == tail_value(buffer@, i as int),
            decreases 16 - i,
        {
            proof {
                lemma_tail_value_bound(buffer@, i as int);
                lemma_tail_limit_increases(i as int, 15);
                assert(tail_limit(15) == 0x1_0000_0000_0000_0000_0000_0000) by {
                    reveal_with_fuel(tail_limit, 14);
                }
            }
            tail = tail * 256 + (buffer[i] as u128);
            i = i + 1;
        }
        proof {
            lemma_tail_value_bound(buffer@, 16);
            assert(tail_limit(16) == POW2_104) by {
                reveal_with_fuel(tail_limit, 15);
            }
        }

        let comb = (b0 / 4) % 32;
        if comb == 31 {
            Decimal128 { sign, exp: 0, sig: 0, bytes: buffer, nan: true, inf: false }
        } else if comb == 30 {
            Decimal128 { sign, exp: 0, sig: 0, bytes: buffer, nan: false, inf: true }
        } else if comb >= 24 {
            // Combination bits `11cde`: two exponent bits come from the
            // field, the significand gains the hidden `100` prefix.
            let exp: u16 = ((b0 % 32) as u16) * 512 + (b1 as u16) * 2 + ((b2 / 128) as u16);
            let sig: u128 = POW2_113 + ((b2 % 128) as u128) * POW2_104 + tail;
            Decimal128 { sign, exp, sig, bytes: buffer, nan: false, inf: false }
        } else {
            // Combination bits `abcde` with `ab` in `00`, `01`, `10`: the
            // exponent takes the seven low bits of byte 0 and the seven
            // high bits of byte 1.
            let exp: u16 = ((b0 % 128) as u16) * 128 + ((b1 / 2) as u16);
            let sig: u128 = ((b1 % 2) as u128) * POW2_112 + (b2 as u128) * POW2_104 + tail;
            Decimal128 { sign, exp, sig, bytes: buffer, nan: false, inf: false }
        }
    }

    /// True when the buffer decoded to NaN.
    pub fn is_nan(&self) -> (r: bool)
        ensures
            r == self@.nan,
    {
        self.nan
    }

    /// True when the sign bit was set, NaN and infinities included.
    pub fn is_negative(&self) -> (r: bool)
        ensures
            r == self@.sign,
    {
        self.sign
    }

    /// True when the sign bit was clear.
    pub fn is_positive(&self) -> (r: bool)
        ensures
            r == !self@.sign,
    {
        !self.is_negative()
    }

    /// True when the value is a finite zero: neither NaN nor an infinity,
    /// with significand zero, whatever the exponent.
    pub fn is_zero(&self) -> (r: bool)
        ensures
            r == (!self@.nan && !self@.inf && self@.sig == 0),
    {
        !self.nan && !self.inf && self.sig == 0
    }

    /// The buffer the value was decoded from.
    pub fn to_raw_bytes(&self) -> (r: [u8; 16])
        ensures
            r@ == self@.bytes,
    {
        self.bytes
    }

    /// The buffer rendered in lower-case hexadecimal, least significant
    /// byte first.
    pub fn to_hex(&self) -> (r: String)
        ensures
            r@ == spec_hex_rev(self@.bytes, 16),
    {
        let mut s = String::new();
        let mut k: usize = 16;
        while k > 0
            invariant
                0 <= k <= 16,
                s@ + spec_hex_rev(self@.bytes, k as int) == spec_hex_rev(self@.bytes, 16),
            decreases k,
        {
            let b = self.bytes[k - 1];
            let ghost s_old = s@;
            s.append(hex_digit_str(b / 16));
            s.append(hex_digit_str(b % 16));
            k = k - 1;
            proof {
                assert(s@ =~= s_old + spec_byte_hex(self@.bytes[k as int]));
                assert(s@ + spec_hex_rev(self@.bytes, k as int) =~= s_old + spec_hex_rev(
                    self@.bytes,
                    k as int + 1,
                ));
            }
        }
        proof {
            assert(s@ =~= s@ + spec_hex_rev(self@.bytes, 0));
        }
        s
    }

    /// The true exponent: the stored biased exponent minus 6176.
    fn adjust_exponent(&self) -> (r: i16)
        requires
            self.wf(),
        ensures
            r as int == self@.exp - 6176,
    {
        proof {
            lemma_decode_bounds(self@.bytes);
        }
        self.exp as i16 - 6176
    }

    /// The decimal digits of the significand, most significant first.
    fn sig_as_digit_vec(&self) -> (r: Vec<u32>)
        ensures
            digit_view(r@) == spec_digits(self@.sig),
    {
        let mut v: Vec<u32> = Vec::new();
        push_digits(&mut v, self.sig);
        proof {
            assert(digit_view(v@) =~= spec_digits(self@.sig));
        }
        v
    }

    /// Counts the decimal digits of the significand.
    fn count_sig_digits(&self) -> (r: i16)
        requires
            self.wf(),
        ensures
            r as int == spec_digits(self@.sig).len(),
    {
        proof {
            lemma_decode_bounds(self@.bytes);
            lemma_sig_digit_count(self@.sig);
        }
        count_digits_u128(self.sig) as i16
    }

    /// The exponent of the scientific rendering: one less than the digit
    /// count, plus the true exponent.
    fn scientific_exponent(&self) -> (r: i16)
        requires
            self.wf(),
        ensures
            r as int == spec_sci_exp(self@.exp, self@.sig),
    {
        proof {
            lemma_decode_bounds(self@.bytes);
            lemma_sig_digit_count(self@.sig);
        }
        (self.count_sig_digits() - 1) + self.adjust_exponent()
    }

    /// True when the value renders in scientific notation.
    fn use_scientific_notation(&self) -> (r: bool)
        requires
            self.wf(),
        ensures
            r == spec_use_sci(self@.exp, self@.sig),
    {
        self.adjust_exponent() > 0 || self.scientific_exponent() < -6
    }

    /// Where the decimal point falls among the digits, counted from the
    /// left: the digit count less the magnitude of the true exponent.
    fn get_decimal_point_index(&self) -> (r: i16)
        requires
            self.wf(),
        ensures
            r as int == spec_digits(self@.sig).len() - abs(self@.exp - 6176),
    {
        proof {
            lemma_decode_bounds(self@.bytes);
            lemma_sig_digit_count(self@.sig);
        }
        let a = self.adjust_exponent();
        let m: i16 = if a >= 0 {
            a
        } else {
            -a
        };
        self.count_sig_digits() - m
    }

    /// The zeros that pad a small value: as many as the magnitude of the
    /// true exponent plus the digit count.
    fn get_zero_padding(&self) -> (r: String)
        requires
            self.wf(),
        ensures
            r@ == spec_zeros(abs(self@.exp - 6176 + spec_digits(self@.sig).len()) as nat),
    {
        proof {
            lemma_decode_bounds(self@.bytes);
            lemma_sig_digit_count(self@.sig);
        }
        let z = self.adjust_exponent() + self.count_sig_digits();
        let m: i16 = if z >= 0 {
            z
        } else {
            -z
        };
        let mut s = String::new();
        proof {
            assert(s@ =~= spec_zeros(0));
        }
        let mut j: i16 = 0;
        while j < m
            invariant
                0 <= j <= m,
                s@ == spec_zeros(j as nat),
            decreases m - j,
        {
            s.append("0");
            j = j + 1;
            proof {
                reveal_strlit("0");
                assert(s@ =~= spec_zeros(j as nat));
            }
        }
        s
    }

    /// Renders a finite value, sign left aside: plain digits, a pointed
    /// form, a zero-padded fraction, or scientific notation.
    fn create_string(&self) -> (r: String)
        requires
            self.wf(),
        ensures
            r@ == spec_body(self@.exp, self@.sig),
    {
        proof {
            lemma_decode_bounds(self@.bytes);
            lemma_sig_digit_count(self@.sig);
            lemma_digits_bounds(self@.sig);
        }
        let dv = self.sig_as_digit_vec();
        proof {
            assert(forall|i: int| 0 <= i < dv@.len() ==> dv@[i] < 10) by {
                assert(forall|i: int|
                    0 <= i < dv@.len() ==> digit_view(dv@)[i] == dv@[i] as int);
            }
        }
        let n = dv.len();
        let adjusted = self.adjust_exponent();
        if self.use_scientific_notation() {
            let sci = self.scientific_exponent();
            let mut s = stringify_range(&dv, 0, 1);
            if n > 1 {
                s.append(".");
                let rest = stringify_range(&dv, 1, n);
                s.append(rest.as_str());
            }
            s.append("E");
            if adjusted < 0 {
                // The scientific exponent is negative here and renders
                // with its own minus sign.
                s.append("-");
                let et = digits_string((-sci) as u128);
                s.append(et.as_str());
            } else {
                s.append("+");
                let et = digits_string(sci as u128);
                s.append(et.as_str());
            }
            proof {
                assert(s@ =~= spec_body(self@.exp, self@.sig));
            }
            s
        } else if adjusted < 0 {
            let count = self.count_sig_digits();
            let m: i16 = -adjusted;
            if count > m {
                let k = self.get_decimal_point_index();
                let mut s = stringify_range(&dv, 0, k as usize);
                s.append(".");
                let rest = stringify_range(&dv, k as usize, n);
                s.append(rest.as_str());
                proof {
                    assert(s@ =~= spec_body(self@.exp, self@.sig));
                }
                s
            } else {
                let mut s = String::from_str("0.");
                let zp = self.get_zero_padding();
                s.append(zp.as_str());
                let dstr = stringify_range(&dv, 0, n);
                s.append(dstr.as_str());
                proof {
                    assert(s@ =~= spec_body(self@.exp, self@.sig));
                }
                s
            }
        } else {
            let s = stringify_range(&dv, 0, n);
            proof {
                assert(s@ =~= spec_body(self@.exp, self@.sig));
            }
            s
        }
    }

    /// Renders the value: `NaN` without a sign, `Infinity` and finite
    /// values with a leading minus when the sign bit was set.
    pub fn to_string(&self) -> (r: String)
        requires
            self.wf(),
        ensures
            r@ == spec_to_string(self@),
    {
        if self.is_nan() {
            return String::from_str("NaN");
        }
        let body = if self.inf {
            String::from_str("Infinity")
        } else {
            self.create_string()
        };
        if !self.sign {
            body
        } else {
            let mut s = String::from_str("-");
            s.append(body.as_str());
            s
        }
    }

    /// Compares two decoded values: minus one, zero or one as `self` sorts
    /// below, with or above `other`. A set sign bit sorts first; equal
    /// signs compare the magnitudes: a zero significand counts as zero
    /// whatever its exponent, and nonzero magnitudes push their exponents
    /// together when within 66 units of each other, or order by exponent
    /// beyond that. The ordering lemmas beside `spec_compare` show this is
    /// a total order over decoded values, matching the numeric order
    /// within each sign.
    pub fn compare(&self, other: &Decimal128) -> (r: isize)
        requires
            self.wf(),
            other.wf(),
        ensures
            r as int == spec_compare(self@, other@),
            -1 <= r <= 1,
    {
        proof {
            lemma_decode_bounds(self@.bytes);
            lemma_decode_bounds(other@.bytes);
        }
        if self.sign != other.sign {
            return if self.sign {
                -1
            } else {
                1
            };
        }
        let ea = self.adjust_exponent();
        let eb = other.adjust_exponent();
        if self.sig == 0 || other.sig == 0 {
            // A zero magnitude is zero whatever its exponent.
            if self.sig < other.sig {
                -1
            } else if self.sig == other.sig {
                0
            } else {
                1
            }
        } else if ea == eb {
            if self.sig < other.sig {
                -1
            } else if self.sig == other.sig {
                0
            } else {
                1
            }
        } else {
            let diff: i16 = if ea >= eb {
                ea - eb
            } else {
                eb - ea
            };
            if diff <= 66 {
                if ea < eb {
                    proof {
                        lemma_increase_range(self@.sig, ea as int, eb as int);
                    }
                    let lo = Decimal128::increase_exponent(self.sig, ea, eb);
                    let hi = Decimal128::decrease_exponent(other.sig, eb, lo.1);
                    if lo.1 == hi.1 {
                        if lo.0 < hi.0 {
                            -1
                        } else if lo.0 == hi.0 {
                            0
                        } else {
                            1
                        }
                    } else if lo.1 < hi.1 {
                        -1
                    } else {
                        1
                    }
                } else {
                    proof {
                        lemma_increase_range(other@.sig, eb as int, ea as int);
                    }
                    let lo = Decimal128::increase_exponent(other.sig, eb, ea);
                    let hi = Decimal128::decrease_exponent(self.sig, ea, lo.1);
                    if hi.1 == lo.1 {
                        if hi.0 < lo.0 {
                            -1
                        } else if hi.0 == lo.0 {
                            0
                        } else {
                            1
                        }
                    } else if hi.1 < lo.1 {
                        -1
                    } else {
                        1
                    }
                }
            } else if ea < eb {
                -1
            } else {
                1
            }
        }
    }
}

} // verus!
