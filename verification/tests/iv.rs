use moget::hls::iv::{parse_iv, IvError};

#[test]
fn test_parse_iv() {
    assert!(parse_iv("").is_err());
    assert!(parse_iv("01234567890123456789012345678901234").is_err());
    assert_eq!(
        parse_iv("0x0123456789ABCDEF0123456789ABCDEF").unwrap(),
        &[
            0x01, 0x23, 0x45, 0x67, 0x89, 0xAB, 0xCD, 0xEF, //
            0x01, 0x23, 0x45, 0x67, 0x89, 0xAB, 0xCD, 0xEF,
        ]
    )
}

#[test]
fn iv_accepts_either_case() {
    let bytes: Vec<u8> = (0..16).map(|i| i * 0x11).collect();
    assert_eq!(parse_iv("0x00112233445566778899aabbccddeeff"), Ok(bytes));
    assert_eq!(
        parse_iv("0X00112233445566778899AABBCCDDEEFF"),
        parse_iv("0x00112233445566778899aabbccddeeff")
    );
}

#[test]
fn iv_round_trip() {
    let bytes: Vec<u8> = vec![
        0x00, 0xff, 0x10, 0x01, 0x7f, 0x80, 0x9a, 0xa9, 0x5c, 0xc5, 0x3e, 0xe3, 0x42, 0x24, 0xd6,
        0x6d,
    ];
    let lower: String = bytes.iter().map(|b| format!("{b:02x}")).collect();
    let upper: String = bytes.iter().map(|b| format!("{b:02X}")).collect();
    assert_eq!(parse_iv(&format!("0x{lower}")).unwrap(), bytes);
    assert_eq!(parse_iv(&format!("0X{lower}")).unwrap(), bytes);
    assert_eq!(parse_iv(&format!("0x{upper}")).unwrap(), bytes);
    assert_eq!(parse_iv(&format!("0X{upper}")).unwrap(), bytes);
    let mixed: String = lower
        .chars()
        .zip(upper.chars())
        .enumerate()
        .map(|(i, (l, u))| if i % 3 == 0 { u } else { l })
        .collect();
    assert_eq!(parse_iv(&format!("0x{mixed}")).unwrap(), bytes);
}

#[test]
fn iv_length_counts_bytes() {
    assert_eq!(parse_iv("0x0123"), Err(IvError::Length));
    // 33 characters, 34 bytes
    assert_eq!(parse_iv("0x0123456789ABCDEF0123456789ABCDé"), Err(IvError::Digit));
    // 34 characters, 35 bytes
    assert_eq!(parse_iv("0x0123456789ABCDEF0123456789ABCDEé"), Err(IvError::Length));
}

#[test]
fn iv_prefix_is_reported() {
    assert_eq!(
        parse_iv("1x0123456789ABCDEF0123456789ABCDEF"),
        Err(IvError::Prefix("1x".to_string()))
    );
    assert_eq!(
        parse_iv("é0123456789ABCDEF0123456789ABCDEF"),
        Err(IvError::Prefix("é".to_string()))
    );
}

#[test]
fn iv_digits() {
    assert_eq!(parse_iv("0x0123456789ABCDEF0123456789ABCDEG"), Err(IvError::Digit));
    assert_eq!(parse_iv("0x0123456789ABCDEF0123456789ABCDE "), Err(IvError::Digit));
    assert_eq!(parse_iv("0x-123456789ABCDEF0123456789ABCDEF"), Err(IvError::Digit));
    assert_eq!(parse_iv("0x++23456789ABCDEF0123456789ABCDEF"), Err(IvError::Digit));
    assert_eq!(parse_iv("0x1+23456789ABCDEF0123456789ABCDEF"), Err(IvError::Digit));
    // A sign may stand in front of a single digit.
    assert_eq!(parse_iv("0x+123456789ABCDEF0123456789ABCDEF").unwrap()[0], 1);
}

#[test]
fn iv_pair_inside_a_character() {
    assert_eq!(parse_iv("0é0123456789ABCDEF0123456789ABCDEF".get(..34).unwrap()), Err(IvError::SplitChar));
    assert_eq!(parse_iv("0x0é23456789ABCDEF0123456789ABCDE"), Err(IvError::SplitChar));
    // The first pair that is wrong decides.
    assert_eq!(parse_iv("0xzz0é456789ABCDEF0123456789ABCDE"), Err(IvError::Digit));
}
