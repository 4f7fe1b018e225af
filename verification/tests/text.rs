use yaw::text::{
    copy_range, digit, digit_char, find, holds, parse_u8, push_decimal, push_hex_pair, push_text,
    same_text, split_fields, split_lines, split_once, to_chars, to_text,
};

fn chars(s: &str) -> Vec<char> {
    s.chars().collect()
}

fn strings(lines: &[Vec<char>]) -> Vec<String> {
    lines.iter().map(|l| l.iter().collect()).collect()
}

/// Every text of up to `len` characters over `alphabet`.
fn texts_over(alphabet: &[char], len: usize) -> Vec<String> {
    let mut all = vec![String::new()];
    let mut last = vec![String::new()];
    for _ in 0..len {
        let mut next = Vec::new();
        for t in &last {
            for c in alphabet {
                let mut grown = t.clone();
                grown.push(*c);
                next.push(grown);
            }
        }
        all.extend(next.iter().cloned());
        last = next;
    }
    all
}

#[test]
fn to_chars_gives_the_characters_in_order() {
    assert_eq!(to_chars("a*é "), vec!['a', '*', 'é', ' ']);
    assert_eq!(to_chars(""), Vec::<char>::new());
}

#[test]
fn to_text_builds_the_string_character_by_character() {
    assert_eq!(to_text(&chars("wall.png")), "wall.png");
    assert_eq!(to_text(&chars("é/ü")), "é/ü");
    assert_eq!(to_text(&[]), "");
    assert_eq!(to_text(&['x']).len(), 1);
}

#[test]
fn find_stops_at_the_first_match_or_the_end() {
    let text = chars("ab,cd,e");
    assert_eq!(find(&text, ',', 0), 2);
    assert_eq!(find(&text, ',', 2), 2);
    assert_eq!(find(&text, ',', 3), 5);
    assert_eq!(find(&text, ',', 6), 7);
    assert_eq!(find(&text, ',', 7), 7);
    assert_eq!(find(&[], ',', 0), 0);
}

#[test]
fn copy_range_copies_the_half_open_range() {
    let text = chars("abcdef");
    assert_eq!(copy_range(&text, 1, 4), chars("bcd"));
    assert_eq!(copy_range(&text, 3, 3), chars(""));
    assert_eq!(copy_range(&text, 0, 6), text);
}

#[test]
fn same_text_compares_length_and_characters() {
    assert!(same_text(&chars("fog"), &chars("fog")));
    assert!(!same_text(&chars("fog"), &chars("fo")));
    assert!(!same_text(&chars("fog"), &chars("fox")));
    assert!(same_text(&[], &[]));
}

#[test]
fn holds_finds_a_whole_field_only() {
    let words = vec![chars("wall.png"), chars("collide"), chars("")];
    assert!(holds(&words, &chars("collide")));
    assert!(holds(&words, &chars("")));
    assert!(!holds(&words, &chars("coll")));
    assert!(!holds(&words, &chars("half_width")));
    assert!(!holds(&Vec::new(), &chars("collide")));
}

#[test]
fn lines_are_those_of_the_standard_library() {
    for text in texts_over(&['a', '\n', '\r'], 7) {
        let expected: Vec<String> = text.lines().map(|l| l.to_string()).collect();
        assert_eq!(strings(&split_lines(&chars(&text))), expected, "text {:?}", text);
    }
}

#[test]
fn lines_drop_line_feeds_and_the_carriage_return_before_one() {
    assert_eq!(strings(&split_lines(&chars("a\nb"))), vec!["a", "b"]);
    assert_eq!(strings(&split_lines(&chars("a\r\nb\n"))), vec!["a", "b"]);
    assert_eq!(strings(&split_lines(&chars("a\r"))), vec!["a\r"]);
    assert_eq!(strings(&split_lines(&chars("\n\n"))), vec!["", ""]);
    assert_eq!(strings(&split_lines(&chars("a\r\r\n"))), vec!["a\r"]);
    assert_eq!(split_lines(&chars("")).len(), 0);
}

#[test]
fn fields_are_those_of_the_standard_library() {
    for text in texts_over(&['a', ',', '='], 7) {
        let expected: Vec<String> = text.split(',').map(|l| l.to_string()).collect();
        assert_eq!(strings(&split_fields(&chars(&text), ',')), expected, "text {:?}", text);
    }
}

#[test]
fn fields_keep_empty_stretches() {
    assert_eq!(strings(&split_fields(&chars(""), ',')), vec![""]);
    assert_eq!(strings(&split_fields(&chars(","), ',')), vec!["", ""]);
    assert_eq!(strings(&split_fields(&chars("a,,b,"), ',')), vec!["a", "", "b", ""]);
}

#[test]
fn cutting_once_is_that_of_the_standard_library() {
    for text in texts_over(&['a', ',', '='], 6) {
        let expected = text.split_once('=').map(|(k, v)| (k.to_string(), v.to_string()));
        let got = split_once(&chars(&text), '=')
            .map(|(k, v)| (k.iter().collect::<String>(), v.iter().collect::<String>()));
        assert_eq!(got, expected, "text {:?}", text);
    }
}

#[test]
fn cutting_once_cuts_at_the_first_separator() {
    assert_eq!(split_once(&chars("dof=4"), '='), Some((chars("dof"), chars("4"))));
    assert_eq!(split_once(&chars("a=b=c"), '='), Some((chars("a"), chars("b=c"))));
    assert_eq!(split_once(&chars("="), '='), Some((chars(""), chars(""))));
    assert_eq!(split_once(&chars("dof"), '='), None);
}

#[test]
fn digits_have_their_value_below_the_radix() {
    assert_eq!(digit('0', 10), Some(0));
    assert_eq!(digit('9', 10), Some(9));
    assert_eq!(digit('a', 10), None);
    assert_eq!(digit('a', 16), Some(10));
    assert_eq!(digit('F', 16), Some(15));
    assert_eq!(digit('g', 16), None);
    assert_eq!(digit('z', 36), Some(35));
    assert_eq!(digit('2', 2), None);
    assert_eq!(digit('+', 16), None);
    for radix in 2..=36 {
        for c in ['0', '1', '7', '9', 'a', 'f', 'z', 'A', 'F', 'Z', '/', ':', '@', '[', '`', '{', 'é'] {
            assert_eq!(digit(c, radix), c.to_digit(radix), "digit {:?} base {}", c, radix);
        }
    }
}

#[test]
fn numbers_are_those_of_the_standard_library() {
    let alphabet = ['0', '1', '2', '5', '6', '9', 'a', 'f', 'F', 'g', '+', '-', ' '];
    for text in texts_over(&alphabet, 4) {
        for radix in [2, 10, 16, 36] {
            let expected = u8::from_str_radix(&text, radix).ok();
            assert_eq!(parse_u8(&chars(&text), radix), expected, "text {:?} base {}", text, radix);
        }
    }
}

#[test]
fn numbers_stop_at_255() {
    assert_eq!(parse_u8(&chars("255"), 10), Some(255));
    assert_eq!(parse_u8(&chars("256"), 10), None);
    assert_eq!(parse_u8(&chars("0000000255"), 10), Some(255));
    assert_eq!(parse_u8(&chars("+4"), 10), Some(4));
    assert_eq!(parse_u8(&chars("ff"), 16), Some(255));
    assert_eq!(parse_u8(&chars("100"), 16), None);
    assert_eq!(parse_u8(&chars("99999999999999999999999"), 10), None);
    assert_eq!(parse_u8(&chars(""), 10), None);
    assert_eq!(parse_u8(&chars("+"), 10), None);
    assert_eq!(parse_u8(&chars("-1"), 10), None);
    assert_eq!(parse_u8(&chars("1é"), 10), None);
}

#[test]
fn digits_are_written_in_lower_case() {
    let written: String = (0..16).map(digit_char).collect();
    assert_eq!(written, "0123456789abcdef");
    for value in 0..16u8 {
        assert_eq!(digit(digit_char(value), 16), Some(value as u32));
    }
    for value in 0..10u8 {
        assert_eq!(digit(digit_char(value), 10), Some(value as u32));
    }
}

#[test]
fn numbers_are_written_as_the_standard_library_writes_them() {
    for value in 0..=255u8 {
        let mut out = chars("dof=");
        push_decimal(&mut out, value);
        assert_eq!(out.iter().collect::<String>(), format!("dof={}", value));
        assert_eq!(parse_u8(&out[4..], 10), Some(value));

        let mut out = chars("#");
        push_hex_pair(&mut out, value);
        assert_eq!(out.iter().collect::<String>(), format!("#{:02x}", value));
        assert_eq!(parse_u8(&out[1..], 16), Some(value));
    }
}

#[test]
fn text_is_appended_at_the_end() {
    let mut out = chars("ab");
    push_text(&mut out, &chars("cd"));
    push_text(&mut out, &[]);
    push_text(&mut out, &chars("e"));
    assert_eq!(out, chars("abcde"));
}
