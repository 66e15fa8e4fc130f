use b64id::decode_fixed;
use b64id::encode;
use b64id::reverse_lookup;
use b64id::str_to_u64;
use b64id::to_text;
use b64id::to_text_lossy;
use b64id::u64_to_str;

#[test]
fn test_to_u64() {
    assert_eq!(&u64_to_str(650), "AAAAAAAAAKK");
    assert_eq!(str_to_u64("AAAAAAAAAKK"), Some(650));
    assert_eq!(str_to_u64("AAAAAAAAAKK".to_string().as_str()), Some(650));
    assert_eq!(str_to_u64("AAAAAAAAAAA".to_string().as_str()), Some(0));
    assert_eq!(&u64_to_str(0), "AAAAAAAAAAA");
    assert_eq!(&u64_to_str(u64::MAX), "P__________");
    assert_eq!(str_to_u64("P__________"), Some(u64::MAX));
    assert!(str_to_u64("🇽s🇰🏳️‍🐱⚧️").is_none());
}

#[test]
fn round_trip_fixed() {
    let values: [u64; 12] = [
        0,
        1,
        63,
        64,
        650,
        0x3f3f3f3f,
        1 << 60,
        u64::MAX,
        u64::MAX - 1,
        0x0123_4567_89ab_cdef,
        0xfedc_ba98_7654_3210,
        42_424_242_424_242,
    ];
    for v in values {
        let bytes = encode(v);
        assert_eq!(bytes.len(), 11);
        assert_eq!(decode_fixed(&bytes), v);
    }
}

#[test]
fn round_trip_text() {
    let values: [u64; 6] = [0, 1, 650, 1 << 33, u64::MAX / 3, u64::MAX];
    for v in values {
        assert_eq!(str_to_u64(&u64_to_str(v)), Some(v));
    }
}

#[test]
fn canonical_form() {
    assert_eq!(u64_to_str(650), "AAAAAAAAAKK");
    assert_eq!(to_text(&encode(650)), "AAAAAAAAAKK");
}

#[test]
fn zero_value() {
    assert_eq!(u64_to_str(0), "AAAAAAAAAAA");
    assert_eq!(encode(0), vec![b'A'; 11]);
}

#[test]
fn max_value() {
    let text = u64_to_str(u64::MAX);
    assert_eq!(text, "P__________");
    let bytes = encode(u64::MAX);
    assert_eq!(bytes[0], b'P');
    for i in 1..11 {
        assert_eq!(bytes[i], b'_');
    }
}

#[test]
fn first_symbol_in_first_sixteen() {
    let values: [u64; 5] = [0, 650, 1 << 60, u64::MAX, 0x8000_0000_0000_0000];
    for v in values {
        let first = encode(v)[0];
        assert!((b'A'..=b'P').contains(&first));
    }
}

#[test]
fn rejects_wide_characters() {
    assert!(str_to_u64("🇽s🇰🏳️‍🐱⚧️").is_none());
    assert!(str_to_u64("AAAAAAAAAK😀").is_none());
    assert!(str_to_u64("\u{0100}").is_none());
}

#[test]
fn rejects_non_alphabet_byte_domain() {
    assert!(str_to_u64(" ").is_none());
    assert!(str_to_u64("AAAAA AAAAA").is_none());
    assert!(str_to_u64("AAAAAAAAAK!").is_none());
    assert!(str_to_u64("A.AAAAAAAAA").is_none());
    assert!(str_to_u64("\u{00ff}").is_none());
}

#[test]
fn rejects_overlong_input() {
    assert!(str_to_u64("AAAAAAAAAAAA").is_none());
    assert!(str_to_u64("P__________A").is_none());
    assert!(str_to_u64("AAAAAAAAAAAAA").is_none());
}

#[test]
fn short_input_pads_low_groups_with_zero() {
    assert_eq!(str_to_u64(""), Some(0));
    assert_eq!(str_to_u64("B"), Some(1 << 60));
    assert_eq!(str_to_u64("AB"), Some(1 << 54));
    assert_eq!(str_to_u64("AAAAAAAAAK"), Some(640));
}

#[test]
fn text_conversion_idempotent() {
    for v in [0u64, 650, u64::MAX, 1 << 47] {
        let bytes = encode(v);
        let once = to_text(&bytes);
        let twice = to_text(&bytes);
        assert_eq!(once, twice);
        assert_eq!(to_text_lossy(&bytes), once);
    }
}

#[test]
fn lossy_text_replaces_foreign_bytes() {
    let bytes: [u8; 11] = [b'A', b' ', b'z', 0u8, b'9', 0xff, b'-', b'_', b'~', b'P', 128u8];
    assert_eq!(to_text_lossy(&bytes), "A?z?9?-_?P?");
    let good = encode(650);
    assert_eq!(to_text_lossy(&good), "AAAAAAAAAKK");
}

#[test]
fn decode_fixed_is_total_over_bytes() {
    let bytes: [u8; 11] = [0xff; 11];
    let _ = decode_fixed(&bytes);
    let mostly = *b"AAAAAAAAAK!";
    let _ = decode_fixed(&mostly);
}

#[test]
fn reverse_lookup_table_matches_alphabet() {
    let alphabet = b"ABCDEFGHIJKLMNOPQRSTUVWXYZabcdefghijklmnopqrstuvwxyz0123456789-_";
    let table = reverse_lookup();
    assert_eq!(table.len(), 256);
    for (i, &sym) in alphabet.iter().enumerate() {
        assert_eq!(table[sym as usize], i as u8);
    }
    for b in 0..=255u8 {
        if !alphabet.contains(&b) {
            assert_eq!(table[b as usize], 255);
        }
    }
}

#[test]
fn distinct_values_have_distinct_forms() {
    let values: [u64; 6] = [650, 0, u64::MAX, 1 << 60, 12345, u64::MAX / 2];
    for a in values {
        for b in values {
            if a != b {
                assert_ne!(u64_to_str(a), u64_to_str(b));
            }
        }
    }
}
