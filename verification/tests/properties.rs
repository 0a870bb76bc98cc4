use decimal128::Decimal128;
use decimal128::exponent::Exponent;
use decimal128::format::stringify_vec;
use decimal128::significand::Significand;

fn pad(prefix: &[u8]) -> [u8; 16] {
    let mut b = [0u8; 16];
    let mut i = 0;
    while i < prefix.len() {
        b[i] = prefix[i];
        i += 1;
    }
    b
}

fn tail(prefix: &[u8], last: &[u8]) -> [u8; 16] {
    let mut b = pad(prefix);
    let mut i = 0;
    while i < last.len() {
        b[16 - last.len() + i] = last[i];
        i += 1;
    }
    b
}

#[test]
fn decoding_is_deterministic() {
    let buf = tail(&[0x30, 0x34], &[0x04, 0xd2]);
    let first = Decimal128::from_raw_bytes(buf).to_string();
    let second = Decimal128::from_raw_bytes(buf).to_string();
    assert_eq!(first, second);
}

#[test]
fn sign_flip_prepends_minus() {
    let pos = tail(&[0x30, 0x34], &[0x04, 0xd2]);
    let mut neg = pos;
    neg[0] |= 0x80;
    let pos_str = Decimal128::from_raw_bytes(pos).to_string();
    let neg_str = Decimal128::from_raw_bytes(neg).to_string();
    assert_eq!(pos_str, "0.001234");
    assert_eq!(neg_str, "-0.001234");
    assert_eq!(neg_str, format!("-{}", pos_str));
}

#[test]
fn nan_formats_without_sign() {
    let plain = Decimal128::from_raw_bytes(pad(&[0x7c]));
    let signed = Decimal128::from_raw_bytes(pad(&[0xfc]));
    assert_eq!("NaN", plain.to_string());
    assert_eq!("NaN", signed.to_string());
    assert!(signed.is_negative());
}

#[test]
fn zero_of_least_exponent_renders_scientific() {
    let zero = Decimal128::from_raw_bytes([0u8; 16]);
    assert_eq!("0E-6176", zero.to_string());
    assert!(zero.is_zero());
    assert!(zero.is_positive());
}

#[test]
fn point_lands_inside_the_digits() {
    // 12345 at true exponent -2.
    let buf = tail(&[0x30, 0x3c], &[0x30, 0x39]);
    let dec = Decimal128::from_raw_bytes(buf);
    assert_eq!("123.45", dec.to_string());
}

#[test]
fn high_combination_layout_decodes() {
    // Combination bits `11000`: the significand gains the hidden `100`
    // prefix and reads 2^113.
    let dec = Decimal128::from_raw_bytes(pad(&[0x60]));
    assert_eq!(
        "1.0384593717069655257060992658440192E-6142",
        dec.to_string()
    );
}

#[test]
fn getters_follow_the_sign_and_fields() {
    let one = Decimal128::from_raw_bytes(tail(&[], &[0x01]));
    assert!(!one.is_nan());
    assert!(!one.is_negative());
    assert!(one.is_positive());
    assert!(!one.is_zero());
    let neg_inf = Decimal128::from_raw_bytes(pad(&[0xf8]));
    assert!(!neg_inf.is_nan());
    assert!(neg_inf.is_negative());
    assert!(!neg_inf.is_zero());
    let nan = Decimal128::from_raw_bytes(pad(&[0x7c]));
    assert!(nan.is_nan());
    assert!(!nan.is_zero());
    // A zero is a zero at every exponent.
    let zero_e0 = Decimal128::from_raw_bytes(pad(&[0x30, 0x40]));
    assert!(zero_e0.is_zero());
}

#[test]
fn raw_bytes_round_trip() {
    let buf: [u8; 16] = [
        9, 16, 3, 6, 7, 86, 76, 81, 89, 0, 3, 45, 12, 71, 52, 39,
    ];
    let dec = Decimal128::from_raw_bytes(buf);
    assert_eq!(buf, dec.to_raw_bytes());
}

#[test]
fn hex_renders_reversed_bytes() {
    let buf = tail(&[0x30, 0x34], &[0x04, 0xd2]);
    let dec = Decimal128::from_raw_bytes(buf);
    assert_eq!("d2040000000000000000000000003430", dec.to_hex());
}

#[test]
fn compare_is_reflexive_on_a_sample() {
    let sample = sample_values();
    for a in sample.iter() {
        assert_eq!(0, a.compare(a));
    }
}

#[test]
fn compare_is_antisymmetric_on_a_sample() {
    let sample = sample_values();
    for a in sample.iter() {
        for b in sample.iter() {
            assert_eq!(a.compare(b), -b.compare(a));
        }
    }
}

#[test]
fn compare_is_transitive_on_a_sample() {
    let sample = sample_values();
    for a in sample.iter() {
        for b in sample.iter() {
            for c in sample.iter() {
                if a.compare(b) <= 0 && b.compare(c) <= 0 {
                    assert!(a.compare(c) <= 0);
                }
                if a.compare(b) == 0 && b.compare(c) == 0 {
                    assert_eq!(0, a.compare(c));
                }
            }
        }
    }
}

#[test]
fn equal_magnitudes_across_exponents_compare_equal() {
    // 10 at true exponent 0 against 1 at true exponent 1.
    let ten = Decimal128::from_raw_bytes(tail(&[0x30, 0x40], &[0x0a]));
    let one_e1 = Decimal128::from_raw_bytes(tail(&[0x30, 0x42], &[0x01]));
    assert_eq!(0, ten.compare(&one_e1));
    assert_eq!(0, one_e1.compare(&ten));
}

#[test]
fn negative_sorts_before_positive() {
    let neg = Decimal128::from_raw_bytes(tail(&[0xb0, 0x34], &[0x04, 0xd2]));
    let pos = Decimal128::from_raw_bytes(tail(&[], &[0x01]));
    assert_eq!(-1, neg.compare(&pos));
    assert_eq!(1, pos.compare(&neg));
    let nan_neg = Decimal128::from_raw_bytes(pad(&[0xfc]));
    let nan_pos = Decimal128::from_raw_bytes(pad(&[0x7c]));
    assert_eq!(-1, nan_neg.compare(&nan_pos));
}

#[test]
fn zeros_compare_equal_across_any_exponent_gap() {
    // 0 at true exponents +102 and +100: 168 and 166 units above a zero
    // at the least exponent, far outside the equalization window.
    let zero_high = Decimal128::from_raw_bytes(pad(&[0x31, 0x0c]));
    let zero_lower = Decimal128::from_raw_bytes(pad(&[0x31, 0x08]));
    let zero_least = Decimal128::from_raw_bytes([0u8; 16]);
    assert_eq!(0, zero_high.compare(&zero_lower));
    assert_eq!(0, zero_lower.compare(&zero_high));
    assert_eq!(0, zero_high.compare(&zero_least));
    // 1 at true exponent +35 sits above every zero, however the
    // exponents relate.
    let one_e35 = Decimal128::from_raw_bytes(tail(&[0x30, 0x86], &[0x01]));
    assert_eq!(1, one_e35.compare(&zero_high));
    assert_eq!(1, one_e35.compare(&zero_lower));
    assert_eq!(-1, zero_high.compare(&one_e35));
}

#[test]
fn noncanonical_significand_orders_by_value() {
    // 2^113 at true exponent 0, about 1.038 * 10^34, against 1 * 10^34
    // written as 10^33 at true exponent +1.
    let big = Decimal128::from_raw_bytes(pad(&[0x6c, 0x10]));
    let ten_pow_34 = Decimal128::from_raw_bytes(pad(&[
        0x30, 0x42, 0x31, 0x4d, 0xc6, 0x44, 0x8d, 0x93, 0x38, 0xc1, 0x5b, 0x0a,
    ]));
    assert_eq!(1, big.compare(&ten_pow_34));
    assert_eq!(-1, ten_pow_34.compare(&big));
}

#[test]
fn far_apart_exponents_order_by_exponent() {
    let tiny = Decimal128::from_raw_bytes(tail(&[], &[0x01]));
    let ten = Decimal128::from_raw_bytes(tail(&[0x30, 0x40], &[0x0a]));
    let huge = Decimal128::from_raw_bytes(tail(
        &[0x5f, 0xfe, 0x31, 0x4d, 0xc6, 0x44, 0x8d, 0x93, 0x38, 0xc1, 0x5b, 0x0a],
        &[],
    ));
    assert_eq!(-1, tiny.compare(&ten));
    assert_eq!(-1, ten.compare(&huge));
    assert_eq!(-1, tiny.compare(&huge));
}

#[test]
fn exponent_starts_at_the_bias() {
    let e = Exponent::new();
    assert_eq!(-6176, e.to_adjusted());
}

#[test]
fn significand_starts_empty() {
    let s = Significand::new();
    assert_eq!(1, s.count_digits());
    assert_eq!(vec![0u32], s.as_digit_vec());
    assert_eq!(9999999999999999999999999999999999u128, Significand::max_value());
}

#[test]
fn digits_render_in_order() {
    assert_eq!("123", stringify_vec(vec![1, 2, 3]));
    assert_eq!("0", stringify_vec(vec![0]));
}

fn sample_values() -> Vec<Decimal128> {
    let buffers: Vec<[u8; 16]> = vec![
        pad(&[0xfc]),                                  // NaN, sign bit set
        pad(&[0x7c]),                                  // NaN
        pad(&[0xf8]),                                  // -Infinity
        pad(&[0x78]),                                  // Infinity
        pad(&[0x80]),                                  // -0 at the least exponent
        [0u8; 16],                                     // 0 at the least exponent
        tail(&[], &[0x01]),                            // 1E-6176
        tail(&[0xb0, 0x34], &[0x04, 0xd2]),            // -0.001234
        tail(&[0x30, 0x34], &[0x04, 0xd2]),            // 0.001234
        tail(&[0x30, 0x40], &[0x0a]),                  // 10
        tail(&[0x30, 0x42], &[0x01]),                  // 1E+1
        tail(&[0x30, 0x40], &[0x1c, 0xbe, 0x99, 0x1a, 0x14]), // 123456789012
        tail(
            &[0x5f, 0xfe, 0x31, 0x4d, 0xc6, 0x44, 0x8d, 0x93, 0x38, 0xc1, 0x5b, 0x0a],
            &[],
        ),                                             // 1E+6144
        pad(&[0x31, 0x0c]),                            // 0E+102
        pad(&[0x31, 0x08]),                            // 0E+100
        tail(&[0x30, 0x86], &[0x01]),                  // 1E+35
        pad(&[0x6c, 0x10]),                            // 2^113, noncanonical
        pad(&[0x30, 0x42, 0x31, 0x4d, 0xc6, 0x44, 0x8d, 0x93, 0x38, 0xc1, 0x5b, 0x0a]), // 1E+34
    ];
    let mut out = Vec::new();
    for b in buffers {
        out.push(Decimal128::from_raw_bytes(b));
    }
    out
}
