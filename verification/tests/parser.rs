use cookie::CookieJar;
use request_cookies::jar::parse_from_header;
use request_cookies::pair::{Cookie, CookieParseError};

fn value_in(jar: &CookieJar, name: &str) -> Option<String> {
    jar.get(name).map(|cookie| cookie.value().to_owned())
}

fn names_in(jar: &CookieJar) -> Vec<String> {
    let mut names: Vec<String> = jar.iter().map(|cookie| cookie.name().to_owned()).collect();
    names.sort();
    names
}

fn pairs_in(jar: &CookieJar) -> Vec<(String, String)> {
    let mut pairs: Vec<(String, String)> =
        jar.iter().map(|cookie| (cookie.name().to_owned(), cookie.value().to_owned())).collect();
    pairs.sort();
    pairs
}

#[test]
fn two_pairs() {
    let jar = parse_from_header("a=1; b=2").unwrap();
    assert_eq!(value_in(&jar, "a"), Some("1".to_owned()));
    assert_eq!(value_in(&jar, "b"), Some("2".to_owned()));
    assert_eq!(value_in(&jar, "c"), None);
    assert_eq!(names_in(&jar), vec!["a".to_owned(), "b".to_owned()]);
}

#[test]
fn later_pair_of_one_name_wins() {
    let jar = parse_from_header("x=1; x=2").unwrap();
    assert_eq!(value_in(&jar, "x"), Some("2".to_owned()));
    assert_eq!(names_in(&jar), vec!["x".to_owned()]);
}

#[test]
fn later_pair_wins_with_others_between() {
    let jar = parse_from_header("x=1; y=7; x=2; z=9; x=3").unwrap();
    assert_eq!(
        pairs_in(&jar),
        vec![
            ("x".to_owned(), "3".to_owned()),
            ("y".to_owned(), "7".to_owned()),
            ("z".to_owned(), "9".to_owned()),
        ]
    );
}

#[test]
fn malformed_segment_fails_the_header() {
    assert_eq!(parse_from_header("good=1; ===bad").err(), Some(CookieParseError));
}

#[test]
fn malformed_segment_fails_wherever_it_stands() {
    assert!(parse_from_header("bad; good=1").is_err());
    assert!(parse_from_header("good=1; bad; other=2").is_err());
    assert!(parse_from_header("good=1; other=2; bad").is_err());
}

#[test]
fn segment_without_equals_sign_fails() {
    assert!(parse_from_header("novalue").is_err());
}

#[test]
fn segment_without_name_fails() {
    assert!(parse_from_header("=1").is_err());
    assert!(parse_from_header("  =1").is_err());
    assert!(parse_from_header("a=1; =").is_err());
}

#[test]
fn white_space_around_segments_is_ignored() {
    let padded = parse_from_header("  a=1 ;  b=2 ").unwrap();
    let plain = parse_from_header("a=1;b=2").unwrap();
    assert_eq!(pairs_in(&padded), pairs_in(&plain));
    assert_eq!(
        pairs_in(&plain),
        vec![("a".to_owned(), "1".to_owned()), ("b".to_owned(), "2".to_owned())]
    );
}

#[test]
fn white_space_around_equals_sign_is_ignored() {
    let jar = parse_from_header("a = 1;\tb\t=\t2").unwrap();
    assert_eq!(
        pairs_in(&jar),
        vec![("a".to_owned(), "1".to_owned()), ("b".to_owned(), "2".to_owned())]
    );
}

#[test]
fn white_space_of_other_scripts_is_ignored() {
    let jar = parse_from_header("\u{3000}a=1\u{A0};\u{2003}b\u{2009}=\u{202F}2").unwrap();
    assert_eq!(
        pairs_in(&jar),
        vec![("a".to_owned(), "1".to_owned()), ("b".to_owned(), "2".to_owned())]
    );
}

#[test]
fn white_space_inside_a_name_or_value_stays() {
    let jar = parse_from_header("my name=my value").unwrap();
    assert_eq!(value_in(&jar, "my name"), Some("my value".to_owned()));
}

#[test]
fn empty_header_gives_an_empty_jar() {
    let jar = parse_from_header("").unwrap();
    assert_eq!(jar.iter().count(), 0);
}

#[test]
fn white_space_header_gives_an_empty_jar() {
    let jar = parse_from_header("  \t ").unwrap();
    assert_eq!(jar.iter().count(), 0);
}

#[test]
fn trailing_semicolon_is_passed_over() {
    let jar = parse_from_header("a=1;").unwrap();
    assert_eq!(pairs_in(&jar), vec![("a".to_owned(), "1".to_owned())]);
}

#[test]
fn empty_segments_are_passed_over() {
    let jar = parse_from_header(";a=1; ;;b=2 ; ").unwrap();
    assert_eq!(
        pairs_in(&jar),
        vec![("a".to_owned(), "1".to_owned()), ("b".to_owned(), "2".to_owned())]
    );
    assert_eq!(parse_from_header(";").unwrap().iter().count(), 0);
    assert_eq!(parse_from_header(" ; ; ").unwrap().iter().count(), 0);
}

#[test]
fn value_may_be_empty() {
    let jar = parse_from_header("a=; b= ").unwrap();
    assert_eq!(
        pairs_in(&jar),
        vec![("a".to_owned(), "".to_owned()), ("b".to_owned(), "".to_owned())]
    );
}

#[test]
fn value_may_hold_equals_signs() {
    let jar = parse_from_header("token=abc==; q=a=b").unwrap();
    assert_eq!(value_in(&jar, "token"), Some("abc==".to_owned()));
    assert_eq!(value_in(&jar, "q"), Some("a=b".to_owned()));
}

#[test]
fn value_is_taken_out_of_double_quotes() {
    let jar = parse_from_header("a=\"1\"; b=\" 2 \"; c=\"\"; d= \"x y\" ").unwrap();
    assert_eq!(value_in(&jar, "a"), Some("1".to_owned()));
    assert_eq!(value_in(&jar, "b"), Some("2".to_owned()));
    assert_eq!(value_in(&jar, "c"), Some("".to_owned()));
    assert_eq!(value_in(&jar, "d"), Some("x y".to_owned()));
}

#[test]
fn lone_or_one_sided_quotes_stay() {
    let jar = parse_from_header("a=\"; b=\"1; c=2\"; d=\"\"\"").unwrap();
    assert_eq!(value_in(&jar, "a"), Some("\"".to_owned()));
    assert_eq!(value_in(&jar, "b"), Some("\"1".to_owned()));
    assert_eq!(value_in(&jar, "c"), Some("2\"".to_owned()));
    assert_eq!(value_in(&jar, "d"), Some("\"".to_owned()));
}

#[test]
fn quotes_around_a_name_stay() {
    let jar = parse_from_header("\"a\"=1").unwrap();
    assert_eq!(value_in(&jar, "\"a\""), Some("1".to_owned()));
    assert_eq!(value_in(&jar, "a"), None);
}

#[test]
fn names_differ_by_letter_case() {
    let jar = parse_from_header("Name=upper; name=lower").unwrap();
    assert_eq!(value_in(&jar, "Name"), Some("upper".to_owned()));
    assert_eq!(value_in(&jar, "name"), Some("lower".to_owned()));
    assert_eq!(value_in(&jar, "NAME"), None);
}

#[test]
fn text_beyond_ascii_is_read() {
    let jar = parse_from_header("clé=valeur; 名前=値").unwrap();
    assert_eq!(value_in(&jar, "clé"), Some("valeur".to_owned()));
    assert_eq!(value_in(&jar, "名前"), Some("値".to_owned()));
}

#[test]
fn written_again_and_read_again_gives_the_same() {
    let first = parse_from_header("b=2; a=1; b=3; c=").unwrap();
    let mut written = String::new();
    for (name, value) in pairs_in(&first) {
        if !written.is_empty() {
            written.push_str("; ");
        }
        written.push_str(&name);
        written.push('=');
        written.push_str(&value);
    }
    assert_eq!(written, "a=1; b=3; c=");
    let second = parse_from_header(&written).unwrap();
    assert_eq!(pairs_in(&second), pairs_in(&first));
}

#[test]
fn each_segment_is_read_as_the_cookie_crate_reads_it() {
    let headers = [
        "a=1; b=2",
        "a = 1 ;b= \"q\" ",
        "k=v=w; k2=\" \"",
        "session=abc123; theme=dark; lang=en-US",
    ];
    for header in headers {
        let jar = parse_from_header(header).unwrap();
        let mut expected: Vec<(String, String)> = Vec::new();
        for segment in header.split(';') {
            let read = cookie::Cookie::parse(segment.trim().to_owned()).unwrap();
            expected.retain(|(name, _)| name != read.name());
            expected.push((read.name().to_owned(), read.value().to_owned()));
        }
        expected.sort();
        assert_eq!(pairs_in(&jar), expected, "{:?}", header);
    }
}

#[test]
fn cookie_holds_its_name_and_value() {
    let cookie = Cookie::new("name".to_owned(), "value".to_owned());
    assert_eq!(cookie.name(), "name");
    assert_eq!(cookie.value(), "value");
    let copy = cookie.clone();
    assert_eq!(copy, cookie);
    assert_eq!(copy.name(), "name");
    assert_eq!(copy.value(), "value");
    assert_ne!(cookie, Cookie::new("name".to_owned(), "other".to_owned()));
    assert_ne!(cookie, Cookie::new("Name".to_owned(), "value".to_owned()));
}
