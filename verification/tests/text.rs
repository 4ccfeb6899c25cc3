use magicpak::base::text::{ascii, bytes_equal, decimal, is_text, signed_decimal, text, trim};

#[test]
fn decimal_writes_digits_without_leading_zeros() {
    assert_eq!(decimal(0), b"0".to_vec());
    assert_eq!(decimal(7), b"7".to_vec());
    assert_eq!(decimal(10), b"10".to_vec());
    assert_eq!(decimal(1234567890), b"1234567890".to_vec());
    assert_eq!(decimal(u64::MAX), b"18446744073709551615".to_vec());
}

#[test]
fn signed_decimal_puts_a_minus_before_negative_numbers() {
    assert_eq!(signed_decimal(0), b"0".to_vec());
    assert_eq!(signed_decimal(42), b"42".to_vec());
    assert_eq!(signed_decimal(-1), b"-1".to_vec());
    assert_eq!(signed_decimal(i32::MIN), b"-2147483648".to_vec());
    assert_eq!(signed_decimal(i32::MAX), b"2147483647".to_vec());
}

#[test]
fn trim_cuts_blanks_off_both_ends() {
    assert_eq!(trim(b"  hi \n"), b"hi");
    assert_eq!(trim(b"hi"), b"hi");
    assert_eq!(trim(b"\t a b \r\n"), b"a b");
    assert_eq!(trim(b"/lib/x86_64-linux-gnu/libc.so.6\n"), b"/lib/x86_64-linux-gnu/libc.so.6");
    assert_eq!(trim(b" \n\t\x0b\x0c\r"), b"");
    assert_eq!(trim(b""), b"");
    assert_eq!(trim(b"\x00 x"), b"\x00 x");
}

#[test]
fn trim_takes_what_unicode_counts_as_white_space() {
    assert_eq!(trim("\u{a0}hi\u{2003}\u{3000}".as_bytes()), b"hi");
    assert_eq!(trim("\u{85}\u{1680} a\u{2028}b \u{205f}\u{202f}".as_bytes()), "a\u{2028}b".as_bytes());
    assert_eq!(trim("\u{200b}x\u{200b}".as_bytes()), "\u{200b}x\u{200b}".as_bytes());
    let mut blanks = 0;
    for code in 0..0x3100u32 {
        if let Some(c) = char::from_u32(code) {
            let text = format!("{}a{}b{}", c, c, c);
            assert_eq!(trim(text.as_bytes()), text.trim().as_bytes());
            let alone = c.to_string();
            assert_eq!(trim(alone.as_bytes()), alone.trim().as_bytes());
            if c.is_whitespace() {
                blanks += 1;
            }
        }
    }
    assert_eq!(blanks, 25);
}

#[test]
fn bytes_are_compared_by_content() {
    assert!(bytes_equal(b"abc", b"abc"));
    assert!(bytes_equal(b"", b""));
    assert!(!bytes_equal(b"abc", b"abd"));
    assert!(!bytes_equal(b"abc", b"ab"));
    assert!(is_text(b"ORIGIN", "ORIGIN"));
    assert!(!is_text(b"ORIGIN ", "ORIGIN"));
    assert_eq!(ascii("lib64"), b"lib64".to_vec());
    assert_eq!(text("-o"), b"-o".to_vec());
}
