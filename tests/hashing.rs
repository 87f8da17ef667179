use backup::hash::{data, metadata};
use backup::text::{encode_upper_hex, format_decimal, parse_decimal};
use backup::units::humanise_bytes;
use hmac::Mac;

const HELLO_HASH: &str = "E16C785B06B64CAD63C9F192986FB9B7EF65F6960573C47DB954596B8F953EAA214F03F46C5207534D5A0E09F31022C28F9B317B70C5616382F4D7AFF5833A5F";
const EMPTY_HASH: &str = "B0E9650C5FAF9CD8AE02276671545424104589B3656731EC193B25D01B07561C27637C2D4D68389D6CF5007A8632C26EC89BA80A01C77A6CDD389EC28DB43901";

#[test]
fn content_hash_of_hello() {
    assert_eq!(data(b"hello\n", "secret"), HELLO_HASH);
}

#[test]
fn content_hash_matches_hmac_of_bytes() {
    let bytes: Vec<u8> = (0u8..=255).cycle().take(5000).collect();
    let mut mac = hmac::Hmac::<sha2::Sha512>::new_from_slice(b"another secret").unwrap();
    mac.update(&bytes);
    let expected = format!("{:X}", mac.finalize().into_bytes());
    assert_eq!(data(&bytes, "another secret"), expected);
}

#[test]
fn content_hash_of_empty_file_is_fixed() {
    assert_eq!(data(b"", "secret"), EMPTY_HASH);
    assert_eq!(data(b"", "secret"), data(&[], "secret"));
    assert_ne!(data(b"", "secret"), data(b"", "other"));
}

#[test]
fn content_hash_depends_on_bytes() {
    assert_ne!(data(b"hello\n", "secret"), data(b"hello!", "secret"));
    assert_eq!(data(b"hello\n", "secret").len(), 128);
}

#[test]
fn fingerprint_known_value() {
    assert_eq!(
        metadata(6, 1700000000, b"/a.bin"),
        "146B7E2BABC34AE2F78E33F5C750165435338A98ADA880CAFB467FFB07B7C2C16E72A17012B19B1582FA341F6FD644703A76A2C7A29F704578D360F269FB00E4"
    );
    assert_eq!(
        metadata(0, -1, b"/"),
        "F22BC8AE620DA32774356F330C2452DC22DBC39560E7079D3971676E6628720042E7AC9278208B0076E9ED79DA1C55FB7BBFCE10195E24D5E2E47523DB30CF84"
    );
}

#[test]
fn fingerprint_is_stable_and_distinguishes_inputs() {
    let a = metadata(10, 5, b"/x");
    assert_eq!(a, metadata(10, 5, b"/x"));
    assert_ne!(a, metadata(11, 5, b"/x"));
    assert_ne!(a, metadata(10, 6, b"/x"));
    assert_ne!(a, metadata(10, 5, b"/y"));
}

#[test]
fn upper_hex_encoding() {
    assert_eq!(encode_upper_hex(&[0x00, 0x0f, 0xa5, 0xff]), "000FA5FF");
    assert_eq!(encode_upper_hex(&[]), "");
}

#[test]
fn decimal_round_trip() {
    assert_eq!(format_decimal(0), "0");
    assert_eq!(format_decimal(1234567890), "1234567890");
    assert_eq!(parse_decimal(&format_decimal(u64::MAX)), Some(u64::MAX));
    assert_eq!(parse_decimal("18446744073709551616"), None);
    assert_eq!(parse_decimal(""), None);
    assert_eq!(parse_decimal("12a"), None);
    assert_eq!(parse_decimal("007"), Some(7));
}

#[test]
fn humanise_small_counts() {
    assert_eq!(humanise_bytes(0), "0 bytes");
    assert_eq!(humanise_bytes(1024), "1024 bytes");
}

#[test]
fn humanise_scaled_counts() {
    assert_eq!(humanise_bytes(1025), "1.00KiB");
    assert_eq!(humanise_bytes(1536), "1.50KiB");
    assert_eq!(humanise_bytes(1408), "1.38KiB");
    assert_eq!(humanise_bytes(1152), "1.12KiB");
    assert_eq!(humanise_bytes(1024000), "1000.00KiB");
    assert_eq!(humanise_bytes(1048577), "1.00MiB");
    assert_eq!(humanise_bytes(1073741825), "1.00GiB");
    assert_eq!(humanise_bytes(5 * 1073741824), "5.00GiB");
    assert_eq!(humanise_bytes(u64::MAX), "17179869184.00GiB");
}

#[test]
fn humanise_agrees_with_float_formatting() {
    for b in [1025u64, 2047, 3000, 999_999, 1_048_577, 7_340_032, 123_456_789_012] {
        let s = humanise_bytes(b);
        let expected = if b > 1073741824 {
            format!("{:.2}GiB", b as f64 / 1073741824.0)
        } else if b > 1048576 {
            format!("{:.2}MiB", b as f64 / 1048576.0)
        } else {
            format!("{:.2}KiB", b as f64 / 1024.0)
        };
        assert_eq!(s, expected);
    }
}
