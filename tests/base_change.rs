use dev_utils::base_change::{can_convert, convert_base, BaseConversionError, FixedDecimal};
use dev_utils::biguint::BigUint;
use dev_utils::digits::{digit_to_val, val_to_digit};

#[test]
fn base_change_test_large_number_conversion() {
    assert_eq!(convert_base("1000000", 10, 16).unwrap(), "F4240");
    assert_eq!(convert_base("F4240", 16, 10).unwrap(), "1000000");
}

#[test]
fn base_change_test_base_62_conversion() {
    assert_eq!(
        convert_base("HelloWorld", 62, 10).unwrap(),
        "239032307299047885"
    );
    assert_eq!(
        convert_base("239032307299047885", 10, 62).unwrap(),
        "HelloWorld"
    );
}

#[test]
fn base_change_test_zero_conversion() {
    assert_eq!(convert_base("0", 2, 10).unwrap(), "0");
    assert_eq!(convert_base("0", 10, 16).unwrap(), "0");
    assert_eq!(convert_base("0.0", 2, 10).unwrap(), "0");
}

#[test]
fn base_change_test_error_handling() {
    assert!(convert_base("10", 1, 10).is_err());
    assert!(convert_base("10", 10, 63).is_err());
    assert!(convert_base("2", 2, 10).is_err());
    assert!(convert_base("G", 16, 10).is_err());
    assert!(convert_base("1.2.3", 10, 2).is_err());
}

#[test]
fn base_change_test_identity_conversion() {
    let number: &str = "1234567890";
    (2..=62).for_each(|base| {
        let converted = convert_base(number, 10, base).unwrap();
        let back_to_decimal = convert_base(&converted, base, 10).unwrap();
        assert_eq!(back_to_decimal, number);
    });
}

#[test]
fn test_base_conversion() {
    vec![
        (2, 10, "11011100", "220"),
        (2, 10, "110011", "51"),
        (2, 10, "11001100", "204"),
        (2, 10, "11110011", "243"),
        (2, 10, "1100111", "103"),
        (10, 2, "197", "11000101"),
        (10, 2, "253", "11111101"),
        (10, 2, "79", "1001111"),
        (10, 2, "297", "100101001"),
        (10, 2, "528", "1000010000"),
        (2, 16, "100111011", "13B"),
        (2, 16, "11011011", "DB"),
        (2, 16, "101111011", "17B"),
        (2, 16, "11011001", "D9"),
        (2, 16, "111011101", "1DD"),
        (16, 2, "9F", "10011111"),
        (16, 2, "9BAF", "1001101110101111"),
        (16, 2, "8BCD", "1000101111001101"),
        (16, 2, "72BA", "111001010111010"),
        (16, 2, "987", "100110000111"),
        (16, 2, "9F27", "1001111100100111"),
        (2, 8, "11011001", "331"),
        (2, 8, "100111001", "471"),
        (2, 8, "11100110", "346"),
        (2, 8, "11001100", "314"),
        (2, 8, "1101110", "156"),
        (8, 2, "245", "10100101"),
        (8, 2, "327", "11010111"),
        (8, 2, "651", "110101001"),
    ]
    .iter()
    .for_each(|(src_base, new_base, src, result)| {
        assert_eq!(convert_base(src, *src_base, *new_base).unwrap(), *result)
    });
}

#[test]
fn test_binary_to_decimal() {
    assert_eq!(convert_base("1010", 2, 10).unwrap(), "10");
    assert_eq!(convert_base("1111111111", 2, 10).unwrap(), "1023");
}

#[test]
fn test_decimal_to_binary() {
    assert_eq!(convert_base("10", 10, 2).unwrap(), "1010");
    assert_eq!(convert_base("1023", 10, 2).unwrap(), "1111111111");
}

#[test]
fn test_decimal_to_hex() {
    assert_eq!(convert_base("255", 10, 16).unwrap(), "FF");
    assert_eq!(convert_base("4080", 10, 16).unwrap(), "FF0");
}

#[test]
fn test_hex_to_decimal() {
    assert_eq!(convert_base("FF", 16, 10).unwrap(), "255");
    assert_eq!(convert_base("FF0", 16, 10).unwrap(), "4080");
}

#[test]
fn test_binary_to_hex() {
    assert_eq!(convert_base("1010", 2, 16).unwrap(), "A");
    assert_eq!(convert_base("11111111", 2, 16).unwrap(), "FF");
}

#[test]
fn test_hex_to_binary() {
    assert_eq!(convert_base("A", 16, 2).unwrap(), "1010");
    assert_eq!(convert_base("FF", 16, 2).unwrap(), "11111111");
}

#[test]
fn known_fixed_points() {
    assert_eq!(convert_base("1010", 2, 10).unwrap(), "10");
    assert_eq!(convert_base("FF", 16, 10).unwrap(), "255");
    assert_eq!(
        convert_base("HelloWorld", 62, 10).unwrap(),
        "239032307299047885"
    );
    assert_eq!(
        convert_base("239032307299047885", 10, 62).unwrap(),
        "HelloWorld"
    );
}

#[test]
fn error_kinds() {
    assert_eq!(
        convert_base("10", 1, 10),
        Err(BaseConversionError::InvalidBase)
    );
    assert_eq!(
        convert_base("10", 10, 63),
        Err(BaseConversionError::InvalidBase)
    );
    assert_eq!(
        convert_base("2", 2, 10),
        Err(BaseConversionError::InvalidDigit)
    );
    assert_eq!(
        convert_base("G", 16, 10),
        Err(BaseConversionError::InvalidDigit)
    );
    assert_eq!(
        convert_base("1.2.3", 10, 2),
        Err(BaseConversionError::InvalidInput)
    );
    assert_eq!(
        convert_base("1-2", 10, 2),
        Err(BaseConversionError::InvalidDigit)
    );
    assert_eq!(
        convert_base("1é", 16, 2),
        Err(BaseConversionError::InvalidDigit)
    );
}

#[test]
fn integer_round_trip_every_radix_pair() {
    for b1 in 2..=62u32 {
        let start = convert_base("987654321", 10, b1).unwrap();
        for b2 in 2..=62u32 {
            let there = convert_base(&start, b1, b2).unwrap();
            assert_eq!(convert_base(&there, b2, b1).unwrap(), start);
        }
    }
}

#[test]
fn identity_conversion_strips_leading_zeros() {
    assert_eq!(convert_base("00FF", 16, 16).unwrap(), "FF");
    assert_eq!(convert_base("zZ9a", 62, 62).unwrap(), "zZ9a");
    assert_eq!(convert_base("000", 7, 7).unwrap(), "0");
    assert_eq!(convert_base("", 10, 10).unwrap(), "0");
}

#[test]
fn fractions_render_the_scale_rounds() {
    // scale 1: 15 in radix 10 leaves 1 and the fraction 5, whose one round gives limb 50
    assert_eq!(convert_base("1.5", 10, 10).unwrap(), "1.o");
    assert_eq!(convert_base("0.5", 10, 2).unwrap(), "10.2");
    assert_eq!(convert_base("1.0", 10, 10).unwrap(), "1");
    assert_eq!(convert_base("5.", 10, 10).unwrap(), "5");
}

#[test]
fn can_convert_flags_digits_outside_the_alphabet() {
    assert!(can_convert("1.5", 10, 10));
    assert!(can_convert("123", 10, 2));
    assert!(can_convert("1.2.3", 10, 2));
    assert!(!can_convert("0.12345678901234567890", 10, 2));
}

#[test]
fn digit_codec() {
    assert_eq!(digit_to_val(b'0').unwrap(), 0);
    assert_eq!(digit_to_val(b'Z').unwrap(), 35);
    assert_eq!(digit_to_val(b'a').unwrap(), 36);
    assert_eq!(digit_to_val(b'z').unwrap(), 61);
    assert!(digit_to_val(b'.').is_err());
    assert_eq!(val_to_digit(0), '0');
    assert_eq!(val_to_digit(10), 'A');
    assert_eq!(val_to_digit(61), 'z');
}

#[test]
fn test_large_number_conversion() {
    assert_eq!(convert_base("1000000", 10, 16).unwrap(), "F4240");
    assert_eq!(convert_base("F4240", 16, 10).unwrap(), "1000000");
}

#[test]
fn test_base_62_conversion() {
    assert_eq!(
        convert_base("HelloWorld", 62, 10).unwrap(),
        "239032307299047885"
    );
    assert_eq!(
        convert_base("239032307299047885", 10, 62).unwrap(),
        "HelloWorld"
    );
}

#[test]
fn test_zero_conversion() {
    assert_eq!(convert_base("0", 2, 10).unwrap(), "0");
    assert_eq!(convert_base("0", 10, 16).unwrap(), "0");
    assert_eq!(convert_base("0.0", 2, 10).unwrap(), "0");
}

#[test]
fn test_error_handling() {
    assert!(convert_base("10", 1, 10).is_err());
    assert!(convert_base("10", 10, 63).is_err());
    assert!(convert_base("2", 2, 10).is_err());
    assert!(convert_base("G", 16, 10).is_err());
    assert!(convert_base("1.2.3", 10, 2).is_err());
}

#[test]
fn test_identity_conversion() {
    let number: &str = "1234567890";
    (2..=62).for_each(|base| {
        let converted = convert_base(number, 10, base).unwrap();
        let back_to_decimal = convert_base(&converted, base, 10).unwrap();
        assert_eq!(back_to_decimal, number);
    });
}

#[test]
fn it_works() {
    assert_eq!(4, 4);
}

#[test]
fn big_uint_arithmetic() {
    let mut n = BigUint::from_u8(200);
    n.mul_small(200);
    assert_eq!(n.digits, vec![64, 156]);
    n.add_small(200);
    assert_eq!(n.digits, vec![8, 157]);
    let r = n.div_mod_small(256);
    assert_eq!((r, n.digits.clone()), (8, vec![157]));
    let r = n.div_mod_small(10);
    assert_eq!((r, n.digits.clone()), (7, vec![15]));
    n.mul_small(0);
    assert_eq!(n.digits, vec![0]);
    assert!(n.is_zero());
    assert_eq!(n, BigUint::new());
    let mut m = BigUint::from_u8(255);
    m.add_small(1);
    assert_eq!(m.digits, vec![0, 1]);
    assert!(!m.is_zero());
    assert_ne!(m.clone(), BigUint::from_u8(0));
}

#[test]
fn fixed_decimal_reads_and_writes() {
    let d = FixedDecimal::from_str_radix("12.34", 10).unwrap();
    assert_eq!(d.scale, 2);
    assert_eq!(d.value.digits, vec![210, 4]);
    assert_eq!(d.clone(), d);
    assert!(!d.renders_in(16));
    assert!(!can_convert("12.34", 10, 16));
    let e = FixedDecimal::from_str_radix("12.3", 10).unwrap();
    assert!(e.renders_in(10));
    assert_eq!(e.to_string_radix(10), "12.U");
    let (left, fraction) = d.split_fraction(10);
    assert_eq!((left.digits, fraction.digits), (vec![12], vec![43]));
    let whole = FixedDecimal::from_str_radix("1234", 10).unwrap();
    assert_eq!(whole.to_string_radix(16), "4D2");
    assert_eq!(
        FixedDecimal::from_str_radix("1.2.3", 10),
        Err(BaseConversionError::InvalidInput)
    );
    assert_eq!(convert_base("10.2", 2, 10), Err(BaseConversionError::InvalidDigit));
}

#[test]
fn base_change_test_fractional_conversion() {
    assert_eq!(convert_base("0.5", 10, 2).unwrap(), "10.2");
    assert_eq!(convert_base("0.1", 10, 2).unwrap(), "0.2");
    assert_eq!(convert_base("0.1", 2, 10).unwrap(), "0.A");
}

#[test]
fn base_change_test_mixed_number_conversion() {
    assert_eq!(convert_base("10.5", 10, 2).unwrap(), "110100.2");
    assert_eq!(convert_base("1010.1", 2, 10).unwrap(), "2.A");
}

#[test]
fn test_fractional_conversion() {
    assert_eq!(convert_base("0.5", 10, 2).unwrap(), "10.2");
    assert_eq!(convert_base("0.1", 10, 2).unwrap(), "0.2");
    assert_eq!(convert_base("0.1", 2, 10).unwrap(), "0.A");
}

#[test]
fn test_mixed_number_conversion() {
    assert_eq!(convert_base("10.5", 10, 2).unwrap(), "110100.2");
    assert_eq!(convert_base("1010.1", 2, 10).unwrap(), "2.A");
}
