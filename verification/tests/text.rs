use rust_tag_server::table::Table;
use rust_tag_server::text::{
    append_decimal, find, is_ascii_space_char, is_whitespace_char, parse_i32, slice_text,
    to_chars, trim_bounds,
};

#[test]
fn white_space_of_unicode_is_what_std_calls_white_space() {
    for n in 0u32..0x11_0000 {
        if let Some(c) = char::from_u32(n) {
            assert_eq!(is_whitespace_char(c), c.is_whitespace(), "{:x}", n);
        }
    }
}

#[test]
fn white_space_of_ascii_is_what_std_calls_ascii_white_space() {
    for n in 0u32..0x11_0000 {
        if let Some(c) = char::from_u32(n) {
            assert_eq!(is_ascii_space_char(c), c.is_ascii_whitespace(), "{:x}", n);
        }
    }
}

#[test]
fn a_decimal_number_of_32_bits_is_read_as_std_reads_it() {
    let samples = [
        "", "0", "7", "42", "-1", "+1", "-0", "+0", "007", "-007", "+", "-", "--1", "+-1", "1-",
        " 1", "1 ", "1_000", "0x10", "12a", "a12", "2147483647", "2147483648", "-2147483648",
        "-2147483649", "+2147483647", "+2147483648", "000000000000000000002147483647",
        "99999999999999999999999999", "-99999999999999999999999999", "1.0", "\u{661}",
        "4294967296", "21474836470", "0000", "-", "٣",
    ];
    for sample in samples {
        assert_eq!(parse_i32(sample), sample.parse::<i32>().ok(), "{:?}", sample);
    }
    for n in [i32::MIN, i32::MIN + 1, -10, -1, 0, 1, 9, 10, 11, 99, 100, i32::MAX - 1, i32::MAX] {
        assert_eq!(parse_i32(&n.to_string()), Some(n));
    }
}

#[test]
fn a_number_is_written_in_decimal() {
    for n in [0usize, 1, 9, 10, 11, 99, 100, 101, 1234567890, usize::MAX] {
        let mut out = String::from("n=");
        append_decimal(&mut out, n);
        assert_eq!(out, format!("n={}", n));
    }
}

#[test]
fn the_characters_of_a_text() {
    assert_eq!(to_chars("a\u{e9}\u{1F600}"), vec!['a', '\u{e9}', '\u{1F600}']);
    assert!(to_chars("").is_empty());
    assert_eq!(slice_text("a\u{e9}\u{1F600}z", 1, 3), "\u{e9}\u{1F600}");
    assert_eq!(slice_text("abc", 1, 1), "");
    assert_eq!(slice_text("abc", 0, 3), "abc");
}

#[test]
fn the_first_of_a_character_in_a_range() {
    let chars = to_chars("a=b=c");
    assert_eq!(find(&chars, 0, 5, '='), 1);
    assert_eq!(find(&chars, 2, 5, '='), 3);
    assert_eq!(find(&chars, 4, 5, '='), 5);
    assert_eq!(find(&chars, 0, 1, '='), 1);
    assert_eq!(find(&chars, 1, 1, '='), 1);
    assert_eq!(find(&chars, 0, 5, 'a'), 0);
}

#[test]
fn trimming_is_what_std_calls_trimming() {
    let samples = [
        "", " ", "a", " a", "a ", "  a b  ", "\t\r\n a\u{a0}", "\u{2003}\u{3000}x y\u{85}",
        "\u{200b}a\u{200b}", " \u{b}\u{c} ",
    ];
    for sample in samples {
        let chars = to_chars(sample);
        let (lo, hi) = trim_bounds(&chars, 0, chars.len());
        assert_eq!(slice_text(sample, lo, hi), sample.trim(), "{:?}", sample);
    }
    let chars = to_chars("ab  cd  ef");
    assert_eq!(trim_bounds(&chars, 2, 8), (4, 6));
    assert_eq!(trim_bounds(&chars, 2, 4), (4, 4));
}

#[test]
fn a_table_keeps_one_value_for_each_key() {
    let mut table: Table<u32> = Table::new();
    assert_eq!(table.len(), 0);
    assert_eq!(table.position(&String::from("a")), None);
    table.insert(String::from("a"), 1);
    table.insert(String::from("b"), 2);
    table.insert(String::from("a"), 3);
    assert_eq!(table.len(), 2);
    assert_eq!(table.position(&String::from("a")), Some(0));
    assert_eq!(table.position(&String::from("b")), Some(1));
    assert_eq!(table.get(&String::from("a")), Some(&3));
    assert_eq!(table.get(&String::from("c")), None);
    assert_eq!(table.key(1), "b");
    assert_eq!(*table.value(1), 2);
    *table.value_mut(1) = 5;
    assert_eq!(table.get(&String::from("b")), Some(&5));
    assert_eq!(table.push(String::from("c"), 7), 2);
    assert_eq!(table.get(&String::from("c")), Some(&7));
}
