use gitclub::numfmt::{dec_chars, format_size, hex4_chars, parse_unsigned_chars};

/// The size text as the web API has always printed it, with floats.
fn reference_size(bytes: u64) -> String {
    let units = ["B", "KiB", "MiB", "GiB", "TiB"];
    if bytes == 0 {
        return "0 B".to_string();
    }
    let mut size = bytes as f64;
    let mut unit_idx = 0;
    while size >= 1024.0 && unit_idx < units.len() - 1 {
        size /= 1024.0;
        unit_idx += 1;
    }
    if unit_idx == 0 {
        format!("{} {}", bytes, units[unit_idx])
    } else {
        format!("{:.2} {}", size, units[unit_idx])
    }
}

#[test]
fn format_size_small_values() {
    assert_eq!(format_size(0), "0 B");
    assert_eq!(format_size(1), "1 B");
    assert_eq!(format_size(1023), "1023 B");
    assert_eq!(format_size(1024), "1.00 KiB");
    assert_eq!(format_size(1536), "1.50 KiB");
    assert_eq!(format_size(1048576), "1.00 MiB");
}

#[test]
fn format_size_rounds_half_to_even() {
    // 1152 bytes are exactly 1.125 KiB.
    assert_eq!(format_size(1152), reference_size(1152));
    assert_eq!(format_size(1152), "1.12 KiB");
    // 1160 bytes are 1.1328125 KiB.
    assert_eq!(format_size(1160), "1.13 KiB");
}

#[test]
fn format_size_largest_unit() {
    let pib: u64 = 1 << 50;
    assert_eq!(format_size(pib), "1024.00 TiB");
    assert_eq!(format_size(u64::MAX), reference_size(u64::MAX));
}

#[test]
fn format_size_matches_float_text() {
    let mut x: u64 = 0x9e3779b97f4a7c15;
    let mut checked = 0;
    for shift in 0..64u32 {
        for _ in 0..40 {
            x = x.wrapping_mul(6364136223846793005).wrapping_add(1442695040888963407);
            let b = x >> shift;
            assert_eq!(format_size(b), reference_size(b), "bytes = {}", b);
            checked += 1;
        }
    }
    for k in 0..50u32 {
        for d in [0u64, 1, 2, 3, 5, 7, 9, 10, 11, 512, 513] {
            if k < 64 {
                let b = (1u64 << k).wrapping_add(d);
                assert_eq!(format_size(b), reference_size(b), "bytes = {}", b);
                let c = (1u64 << k).wrapping_sub(d);
                assert_eq!(format_size(c), reference_size(c), "bytes = {}", c);
            }
        }
    }
    assert!(checked > 0);
}

#[test]
fn decimal_and_hex_text() {
    let s: String = dec_chars(0).into_iter().collect();
    assert_eq!(s, "0");
    let s: String = dec_chars(8080).into_iter().collect();
    assert_eq!(s, "8080");
    let s: String = dec_chars(u128::MAX).into_iter().collect();
    assert_eq!(s, u128::MAX.to_string());
    let h: String = hex4_chars(30).into_iter().collect();
    assert_eq!(h, "001e");
    let h: String = hex4_chars(0x1_2345).into_iter().collect();
    assert_eq!(h, "12345");
}

#[test]
fn parse_unsigned_like_str_parse() {
    let cases = ["8080", "+80", "", "+", "65535", "65536", "12a", " 1", "007", "-1"];
    for c in cases {
        let v: Vec<char> = c.chars().collect();
        let expected = c.parse::<u16>().ok().map(|x| x as u64);
        assert_eq!(parse_unsigned_chars(&v, 65535), expected, "text = {:?}", c);
    }
    let big: Vec<char> = "18446744073709551615".chars().collect();
    assert_eq!(parse_unsigned_chars(&big, u64::MAX), Some(u64::MAX));
    let over: Vec<char> = "18446744073709551616".chars().collect();
    assert_eq!(parse_unsigned_chars(&over, u64::MAX), None);
}

#[test]
fn printed_port_parses_back() {
    for p in [0u16, 1, 80, 443, 8080, 65535] {
        let text: Vec<char> = dec_chars(p as u128);
        assert_eq!(parse_unsigned_chars(&text, 65535), Some(p as u64));
    }
}
