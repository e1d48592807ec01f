use rtp_engine::bytes::{
    append_bytes, copy_range, push_be16, push_be32, push_le16, push_le32, read_be16, read_be32,
};
use rtp_engine::text::{
    chars_of, find_char, is_white, parse_octet, push_decimal, push_hex4, split_lines, split_words,
    text_of, trim,
};

fn strings(parts: Vec<Vec<char>>) -> Vec<String> {
    parts.iter().map(|p| text_of(p)).collect()
}

#[test]
fn white_space_is_that_of_char() {
    for c in (0..=0x10ffff).filter_map(char::from_u32) {
        assert_eq!(is_white(c), c.is_whitespace(), "{:x}", c as u32);
    }
}

#[test]
fn texts_are_cut_as_str_cuts_them() {
    for text in [
        "",
        "\n",
        "\r\n",
        "a",
        "a\n",
        "a\r\nb",
        "a\n\nb\r",
        "\r",
        " a  b\t\u{a0}c ",
        "a\r\r\n b",
        "\u{2003}x\u{3000}",
    ] {
        let chars = chars_of(text);
        assert_eq!(text_of(&chars), text);
        let lines: Vec<&str> = text.lines().collect();
        assert_eq!(strings(split_lines(&chars)), lines, "{text:?}");
        let words: Vec<&str> = text.split_whitespace().collect();
        assert_eq!(strings(split_words(&chars)), words, "{text:?}");
        assert_eq!(text_of(&trim(&chars)), text.trim(), "{text:?}");
    }
}

#[test]
fn octets_are_parsed_as_str_parses_them() {
    for text in [
        "", "0", "8", "255", "256", "+8", "-0", "-1", "007", "1000", "99999999999", "8a", " 8", "+",
        "\u{661}",
    ] {
        assert_eq!(parse_octet(&chars_of(text)), text.parse::<u8>().ok(), "{text:?}");
    }
    for n in 0..=300u32 {
        let text = format!("{n}");
        assert_eq!(parse_octet(&chars_of(&text)), text.parse::<u8>().ok());
    }
}

#[test]
fn numbers_are_written_as_format_writes_them() {
    for n in [0u64, 7, 10, 12345, u64::MAX] {
        let mut out = String::from("n=");
        push_decimal(&mut out, n);
        assert_eq!(out, format!("n={n}"));
    }
    for n in [0u16, 0x0101, 0xabcd, 0xffff] {
        let mut out = String::new();
        push_hex4(&mut out, n);
        assert_eq!(out, format!("{n:04x}"));
    }
}

#[test]
fn characters_are_found_or_the_end_is() {
    let chars = chars_of("a|b|c");
    assert_eq!(find_char(&chars, '|', 0), 1);
    assert_eq!(find_char(&chars, '|', 2), 3);
    assert_eq!(find_char(&chars, 'x', 0), 5);
}

#[test]
fn numbers_in_network_order_are_read_back() {
    let mut out = vec![9u8];
    push_be16(&mut out, 0x0102);
    push_be32(&mut out, 0x03040506);
    push_le16(&mut out, 0x0102);
    push_le32(&mut out, 0x03040506);
    assert_eq!(out, [9, 1, 2, 3, 4, 5, 6, 2, 1, 6, 5, 4, 3]);
    assert_eq!(read_be16(&out, 1), 0x0102);
    assert_eq!(read_be32(&out, 3), 0x03040506);
    append_bytes(&mut out, &[7, 7]);
    assert_eq!(copy_range(&out, 12, 15), [3, 7, 7]);
}
