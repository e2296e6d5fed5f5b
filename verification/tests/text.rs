use request_cookies::text::{chars_of, find_from, is_whitespace, trim_bounds};

fn trimmed(s: &str) -> String {
    let chars: Vec<char> = s.chars().collect();
    let (lo, hi) = trim_bounds(&chars, 0, chars.len());
    chars[lo..hi].iter().collect()
}

#[test]
fn white_space_is_what_std_says() {
    let mut c: u32 = 0;
    while c <= 0x10FFFF {
        if let Some(ch) = char::from_u32(c) {
            assert_eq!(is_whitespace(ch), ch.is_whitespace(), "U+{:04X}", c);
        }
        c += 1;
    }
}

#[test]
fn white_space_examples() {
    assert!(is_whitespace(' '));
    assert!(is_whitespace('\t'));
    assert!(is_whitespace('\n'));
    assert!(is_whitespace('\u{0B}'));
    assert!(is_whitespace('\u{0C}'));
    assert!(is_whitespace('\r'));
    assert!(is_whitespace('\u{85}'));
    assert!(is_whitespace('\u{A0}'));
    assert!(is_whitespace('\u{1680}'));
    assert!(is_whitespace('\u{2000}'));
    assert!(is_whitespace('\u{200A}'));
    assert!(is_whitespace('\u{2028}'));
    assert!(is_whitespace('\u{2029}'));
    assert!(is_whitespace('\u{202F}'));
    assert!(is_whitespace('\u{205F}'));
    assert!(is_whitespace('\u{3000}'));
    assert!(!is_whitespace('a'));
    assert!(!is_whitespace('='));
    assert!(!is_whitespace(';'));
    assert!(!is_whitespace('\u{08}'));
    assert!(!is_whitespace('\u{0E}'));
    assert!(!is_whitespace('\u{180E}'));
    assert!(!is_whitespace('\u{200B}'));
    assert!(!is_whitespace('\u{FEFF}'));
}

#[test]
fn chars_of_gives_each_character() {
    assert_eq!(chars_of(""), Vec::<char>::new());
    assert_eq!(chars_of("a=1"), vec!['a', '=', '1']);
    assert_eq!(chars_of("é;\u{3000}z"), vec!['é', ';', '\u{3000}', 'z']);
}

#[test]
fn find_from_gives_the_first_place() {
    let chars = chars_of("a=1; b=2; c");
    assert_eq!(find_from(&chars, 0, ';'), 3);
    assert_eq!(find_from(&chars, 3, ';'), 3);
    assert_eq!(find_from(&chars, 4, ';'), 8);
    assert_eq!(find_from(&chars, 9, ';'), chars.len());
    assert_eq!(find_from(&chars, chars.len(), ';'), chars.len());
    assert_eq!(find_from(&chars, 0, '='), 1);
    assert_eq!(find_from(&chars, 0, '#'), chars.len());
}

#[test]
fn find_from_in_empty_text() {
    let chars: Vec<char> = Vec::new();
    assert_eq!(find_from(&chars, 0, ';'), 0);
}

#[test]
fn trim_bounds_agree_with_std_trim() {
    let samples = [
        "",
        " ",
        "   \t ",
        "a",
        " a",
        "a ",
        "  a b  ",
        "\t\na=1\r\n",
        "\u{3000}x\u{A0}",
        "x\u{200B}",
        " \u{2028}\u{2029} y = z \u{205F}",
    ];
    for sample in samples {
        assert_eq!(trimmed(sample), sample.trim(), "{:?}", sample);
    }
}

#[test]
fn trim_bounds_on_a_part_of_the_text() {
    let chars = chars_of("a=1 ;  b=2 ; ");
    assert_eq!(trim_bounds(&chars, 0, 4), (0, 3));
    assert_eq!(trim_bounds(&chars, 5, 11), (7, 10));
    assert_eq!(trim_bounds(&chars, 12, 13), (13, 13));
    assert_eq!(trim_bounds(&chars, 13, 13), (13, 13));
    assert_eq!(trim_bounds(&chars, 7, 10), (7, 10));
}
