use cpu_cache_info::text::{is_space_char, parse_trimmed_usize, same_text, to_chars};
use cpu_cache_info::units::{format_size, parse_size_with_unit};

#[test]
fn parse_size_plain_number() {
    assert_eq!(parse_size_with_unit("512"), 512);
    assert_eq!(parse_size_with_unit("0"), 0);
    assert_eq!(parse_size_with_unit("007"), 7);
}

#[test]
fn parse_size_with_each_suffix() {
    assert_eq!(parse_size_with_unit("32K"), 32768);
    assert_eq!(parse_size_with_unit("1M"), 1048576);
    assert_eq!(parse_size_with_unit("4M"), 4194304);
    assert_eq!(parse_size_with_unit("1G"), 1073741824);
    assert_eq!(parse_size_with_unit("3G"), 3221225472);
}

#[test]
fn parse_size_numeral_times_multiplier() {
    let suffixes: [(&str, usize); 4] = [("", 1), ("K", 1024), ("M", 1024 * 1024), ("G", 1024 * 1024 * 1024)];
    for n in [0usize, 1, 9, 10, 99, 1023, 1024, 65535, 1000000] {
        for (s, m) in suffixes {
            assert_eq!(parse_size_with_unit(&format!("{}{}", n, s)), n * m);
        }
    }
}

#[test]
fn parse_size_without_leading_digits_is_zero() {
    assert_eq!(parse_size_with_unit(""), 0);
    assert_eq!(parse_size_with_unit("K"), 0);
    assert_eq!(parse_size_with_unit("M"), 0);
    assert_eq!(parse_size_with_unit("G"), 0);
    assert_eq!(parse_size_with_unit("abc"), 0);
    assert_eq!(parse_size_with_unit(" 32K"), 0);
    assert_eq!(parse_size_with_unit("-5"), 0);
}

#[test]
fn parse_size_goes_by_the_last_character() {
    assert_eq!(parse_size_with_unit("12KM"), 12 * 1024 * 1024);
    assert_eq!(parse_size_with_unit("1K2"), 1);
    assert_eq!(parse_size_with_unit("8k"), 8);
    assert_eq!(parse_size_with_unit("16KB"), 16);
    assert_eq!(parse_size_with_unit("5 K"), 5 * 1024);
}

#[test]
fn parse_size_that_does_not_fit_is_zero() {
    assert_eq!(parse_size_with_unit("99999999999999999999999999"), 0);
    assert_eq!(parse_size_with_unit("18446744073709551615G"), 0);
    assert_eq!(parse_size_with_unit(&format!("{}", usize::MAX)), usize::MAX);
    assert_eq!(parse_size_with_unit(&format!("{}K", usize::MAX / 1024)), (usize::MAX / 1024) * 1024);
    assert_eq!(parse_size_with_unit(&format!("{}K", usize::MAX / 1024 + 1)), 0);
}

#[test]
fn format_size_zero_is_not_detected() {
    assert_eq!(format_size(0), "Not detected");
}

#[test]
fn format_size_at_the_unit_boundaries() {
    assert_eq!(format_size(512), "512 B");
    assert_eq!(format_size(2048), "2.00 KB");
    assert_eq!(format_size(1048576), "1.00 MB");
    assert_eq!(format_size(1073741824), "1.00 GB");
    assert_eq!(format_size(1), "1 B");
    assert_eq!(format_size(1023), "1023 B");
    assert_eq!(format_size(1024), "1.00 KB");
    assert_eq!(format_size(1048575), "1024.00 KB");
    assert_eq!(format_size(1073741823), "1024.00 MB");
}

#[test]
fn format_size_rounds_to_two_places() {
    assert_eq!(format_size(1536), "1.50 KB");
    assert_eq!(format_size(1034), "1.01 KB");
    assert_eq!(format_size(1029), "1.00 KB");
    assert_eq!(format_size(1030), "1.01 KB");
    assert_eq!(format_size(33554432 + 524288), "32.50 MB");
    assert_eq!(format_size(12 * 1024 * 1024), "12.00 MB");
    assert_eq!(format_size(8388608), "8.00 MB");
    assert_eq!(format_size(5 * 1073741824 + 805306368), "5.75 GB");
}

#[test]
fn format_size_tie_goes_to_even() {
    assert_eq!(format_size(1152), "1.12 KB");
    assert_eq!(format_size(1408), "1.38 KB");
    assert_eq!(format_size(1024 * 1024 + 128 * 1024), "1.12 MB");
    assert_eq!(format_size(1024 * 1024 + 384 * 1024), "1.38 MB");
}

#[test]
fn format_size_matches_float_formatting() {
    for size in [1025usize, 1500, 4097, 65536, 100000, 999999, 1234567, 98765432, 1073741825, 5000000000] {
        let expected = if size < 1024 * 1024 {
            format!("{:.2} KB", size as f64 / 1024.0)
        } else if size < 1024 * 1024 * 1024 {
            format!("{:.2} MB", size as f64 / (1024.0 * 1024.0))
        } else {
            format!("{:.2} GB", size as f64 / (1024.0 * 1024.0 * 1024.0))
        };
        assert_eq!(format_size(size), expected);
    }
}

#[test]
fn format_size_matches_float_formatting_on_many_sizes() {
    let mut state: u64 = 0x2545f4914f6cdd1d;
    for round in 0..20000 {
        state = state.wrapping_mul(6364136223846793005).wrapping_add(1442695040888963407);
        let size = ((state >> (11 + round % 43)) as usize).max(1024);
        let expected = if size < 1024 * 1024 {
            format!("{:.2} KB", size as f64 / 1024.0)
        } else if size < 1024 * 1024 * 1024 {
            format!("{:.2} MB", size as f64 / (1024.0 * 1024.0))
        } else {
            format!("{:.2} GB", size as f64 / (1024.0 * 1024.0 * 1024.0))
        };
        assert_eq!(format_size(size), expected);
    }
}

#[test]
fn format_size_is_exact_on_very_large_sizes() {
    assert_eq!(format_size(9007199270847119), "8388608.01 GB");
}

#[test]
fn format_size_of_the_largest_word() {
    assert_eq!(format_size(18446744073709551615), "17179869184.00 GB");
}

#[test]
fn parse_trimmed_accepts_sign_and_spaces() {
    assert_eq!(parse_trimmed_usize("42"), Some(42));
    assert_eq!(parse_trimmed_usize("  42\n"), Some(42));
    assert_eq!(parse_trimmed_usize("\u{a0}42\u{3000}"), Some(42));
    assert_eq!(parse_trimmed_usize("+5"), Some(5));
    assert_eq!(parse_trimmed_usize("000"), Some(0));
    assert_eq!(parse_trimmed_usize("18446744073709551615"), Some(18446744073709551615));
}

#[test]
fn parse_trimmed_rejects_what_is_no_number() {
    assert_eq!(parse_trimmed_usize(""), None);
    assert_eq!(parse_trimmed_usize("   "), None);
    assert_eq!(parse_trimmed_usize("+"), None);
    assert_eq!(parse_trimmed_usize("++1"), None);
    assert_eq!(parse_trimmed_usize("-1"), None);
    assert_eq!(parse_trimmed_usize("12a"), None);
    assert_eq!(parse_trimmed_usize("1 2"), None);
    assert_eq!(parse_trimmed_usize("abc"), None);
    assert_eq!(parse_trimmed_usize("18446744073709551616"), None);
}

#[test]
fn parse_trimmed_agrees_with_std() {
    for t in ["7", " 7 ", "+7", "+ 7", "7+", "", "٣", "1e3", "0x10", "\t65536\r\n"] {
        assert_eq!(parse_trimmed_usize(t), t.trim().parse::<usize>().ok());
    }
}

#[test]
fn white_space_agrees_with_std() {
    for code in 0u32..0x3100 {
        if let Some(c) = char::from_u32(code) {
            assert_eq!(is_space_char(c), c.is_whitespace());
        }
    }
}

#[test]
fn characters_come_out_in_order() {
    assert_eq!(to_chars("aé€"), vec!['a', 'é', '€']);
    assert!(to_chars("").is_empty());
    assert!(same_text("Data", "Data"));
    assert!(!same_text("Data", "Data "));
    assert!(!same_text("Data", "data"));
}
