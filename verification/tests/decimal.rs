use contract::decimal::{parse_u128, parse_u64, u128_to_dec, u64_to_dec, DecError};
use contract::models::{u128_dec_format, u64_dec_format};
use contract::text::split;

#[test]
fn writes_decimal() {
    assert_eq!(u64_to_dec(0), "0");
    assert_eq!(u64_to_dec(7), "7");
    assert_eq!(u64_to_dec(1234567890), "1234567890");
    assert_eq!(u64_to_dec(u64::MAX), "18446744073709551615");
    assert_eq!(u128_to_dec(u128::MAX), u128::MAX.to_string());
    assert_eq!(u64_dec_format::serialize(&42), "42");
    assert_eq!(u128_dec_format::serialize(&1_000_000_000_000_000_000_000_000), "1000000000000000000000000");
}

#[test]
fn reads_decimal_like_std() {
    for s in ["", "+", "-", "0", "+5", "-5", "007", "12a", "a12", " 1", "1 ", "18446744073709551615",
        "18446744073709551616", "99999999999999999999x", "1x99999999999999999999", "٣"]
    {
        let ours = parse_u64(s);
        let std: Result<u64, _> = s.parse::<u64>();
        match (ours, std) {
            (Ok(a), Ok(b)) => assert_eq!(a, b, "{}", s),
            (Err(e), Err(f)) => {
                let kind = match f.kind() {
                    std::num::IntErrorKind::Empty => DecError::Empty,
                    std::num::IntErrorKind::InvalidDigit => DecError::InvalidDigit,
                    std::num::IntErrorKind::PosOverflow => DecError::PosOverflow,
                    _ => panic!("unexpected kind"),
                };
                assert_eq!(e, kind, "{}", s);
            },
            (a, b) => panic!("{}: {:?} vs {:?}", s, a, b),
        }
    }
    assert_eq!(parse_u128("340282366920938463463374607431768211455"), Ok(u128::MAX));
    assert_eq!(parse_u128("340282366920938463463374607431768211456"), Err(DecError::PosOverflow));
    assert_eq!(u128_dec_format::deserialize("+10"), Ok(10));
    assert_eq!(u64_dec_format::deserialize("x"), Err(DecError::InvalidDigit));
}

#[test]
fn decimal_round_trip() {
    for n in [0u64, 1, 9, 10, 99, 100, 65535, 1 << 40, u64::MAX] {
        assert_eq!(u64_dec_format::deserialize(&u64_dec_format::serialize(&n)), Ok(n));
    }
    for n in [0u128, 10, u64::MAX as u128 + 1, u128::MAX] {
        assert_eq!(u128_dec_format::deserialize(&u128_dec_format::serialize(&n)), Ok(n));
    }
}

#[test]
fn splits_like_std() {
    for s in ["", "_", "a", "a_b", "a__b", "_a_", "kenya_250_fine", "é_ü"] {
        let ours = split(&s.to_string(), '_');
        let std: Vec<String> = s.split('_').map(|p| p.to_string()).collect();
        assert_eq!(ours, std, "{}", s);
    }
}
