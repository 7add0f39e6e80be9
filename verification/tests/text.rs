use netmon::net::{read_be, read_be_u16, read_be_u32};
use netmon::number::{decimal_text, push_decimal, read_digit, read_numeral};
use netmon::sort::{reorder, sorted_order, Triple};
use netmon::text::{
    chars_le, chars_of, contains_chars, ends_with_chars, find_last, followed_by, join_strings, lines_of,
    replace_char, same_text, split_chars_on, starts_with_chars, string_of, strings_of, trim_chars,
    words_of,
};

fn texts(pieces: Vec<Vec<char>>) -> Vec<String> {
    strings_of(&pieces)
}

#[test]
fn text_round_trips_through_characters() {
    for sample in ["", "netmon", "größe 網"] {
        assert_eq!(string_of(&chars_of(sample)), sample);
    }
    assert!(same_text("abc", "abc"));
    assert!(!same_text("abc", "abd"));
    assert_eq!(followed_by("net", "mon"), "netmon");
}

#[test]
fn splitting_agrees_with_the_standard_library() {
    for sample in ["", ":", "a:b", "a::b:", "root:x:0:0"] {
        let expected: Vec<String> = sample.split(':').map(|s| s.to_string()).collect();
        assert_eq!(texts(split_chars_on(&chars_of(sample), ':')), expected);
    }
    for sample in ["", "  ", " a  b\tc\u{a0}d ", "one"] {
        let expected: Vec<String> = sample.split_whitespace().map(|s| s.to_string()).collect();
        assert_eq!(texts(words_of(&chars_of(sample))), expected);
    }
    for sample in ["", "\n", "a\nb", "a\r\nb\n", "a\n\nb\r", "\r\n", "x\r\r\n"] {
        let expected: Vec<String> = sample.lines().map(|s| s.to_string()).collect();
        assert_eq!(texts(lines_of(&chars_of(sample))), expected);
    }
}

#[test]
fn trimming_agrees_with_the_standard_library() {
    for sample in ["", " ", " a b ", "\u{2003}x\n", "plain"] {
        assert_eq!(string_of(trim_chars(&chars_of(sample))), sample.trim());
    }
}

#[test]
fn searching_agrees_with_the_standard_library() {
    let pattern = chars_of("handle ");
    for sample in ["", "handle 7", "handle 1 handle 2", "han", "a handle "] {
        let chars = chars_of(sample);
        assert_eq!(contains_chars(&chars, &pattern), sample.contains("handle "));
        assert_eq!(find_last(&chars, &pattern), sample.rfind("handle "));
        assert_eq!(starts_with_chars(&chars, &pattern), sample.starts_with("handle "));
        assert_eq!(ends_with_chars(&chars, &pattern), sample.ends_with("handle "));
    }
}

#[test]
fn building_agrees_with_the_standard_library() {
    assert_eq!(replace_char("a\"b\"", '"', '_'), "a_b_");
    let parts = vec!["80".to_string(), "443".to_string(), "8080".to_string()];
    assert_eq!(join_strings(&parts, ", "), "80, 443, 8080");
    assert_eq!(join_strings(&Vec::new(), ", "), "");
}

#[test]
fn texts_are_ordered_like_strings() {
    let samples = ["", "a", "ab", "b", "B", "é", "z", "网"];
    for a in samples {
        for b in samples {
            assert_eq!(chars_le(&chars_of(a), &chars_of(b)), a <= b);
        }
    }
}

#[test]
fn decimal_numbers_read_back() {
    for n in [0u64, 9, 10, 65535, 4294967295, u64::MAX] {
        assert_eq!(decimal_text(n), n.to_string());
        assert_eq!(read_numeral(&chars_of(&decimal_text(n)), 10, u64::MAX), Some(n));
    }
    let mut text = "PID ".to_string();
    push_decimal(&mut text, 42);
    assert_eq!(text, "PID 42");
}

#[test]
fn numerals_agree_with_the_standard_library() {
    for sample in ["", "+", "+7", "-7", "007", "4294967295", "4294967296", "12a", "1_0", "٣"] {
        assert_eq!(
            read_numeral(&chars_of(sample), 10, u32::MAX as u64),
            sample.parse::<u32>().ok().map(u64::from)
        );
    }
    for sample in ["0F02000A", "+fF", "g", "FFFF", "10000"] {
        assert_eq!(
            read_numeral(&chars_of(sample), 16, u16::MAX as u64),
            u16::from_str_radix(sample, 16).ok().map(u64::from)
        );
    }
    assert_eq!(read_digit('f', 16), Some(15));
    assert_eq!(read_digit('f', 15), None);
}

#[test]
fn big_endian_numbers_are_read() {
    let bytes = [1u8, 2, 3, 4, 5, 6, 7, 8, 9, 10, 11, 12, 13, 14, 15, 16];
    assert_eq!(read_be(&bytes, 0, 16), u128::from_be_bytes(bytes));
    assert_eq!(read_be_u16(&bytes, 1), 0x0203);
    assert_eq!(read_be_u32(&bytes, 4), 0x05060708);
    assert_eq!(read_be(&bytes, 3, 0), 0);
}

#[test]
fn sorting_is_stable_in_both_directions() {
    let keys: Vec<u64> = vec![3, 1, 2, 1, 3, 2];
    assert_eq!(sorted_order(&keys, false), vec![1, 3, 2, 5, 0, 4]);
    assert_eq!(sorted_order(&keys, true), vec![0, 4, 2, 5, 1, 3]);
    let names: Vec<Vec<char>> = vec![chars_of("b"), chars_of("a"), chars_of("ab")];
    assert_eq!(sorted_order(&names, false), vec![1, 2, 0]);
    let triples = vec![
        Triple { first: 1, second: 2, third: 3 },
        Triple { first: 1, second: 2, third: 1 },
        Triple { first: 0, second: 9, third: 9 },
    ];
    let order = sorted_order(&triples, false);
    assert_eq!(order, vec![2, 1, 0]);
    assert_eq!(reorder(vec!["x", "y", "z"], &order), vec!["z", "y", "x"]);
    assert_eq!(sorted_order(&Vec::<u64>::new(), false), Vec::<usize>::new());
}

#[test]
fn sorting_agrees_with_the_standard_library() {
    let keys: Vec<u64> = (0..257u64).map(|i| (i * 7919) % 31).collect();
    let mut expected: Vec<usize> = (0..keys.len()).collect();
    expected.sort_by_key(|&i| keys[i]);
    assert_eq!(sorted_order(&keys, false), expected);
}
