use tchat::text::{chars_of, chop_line, owned, pieces_of, string_of, strip_line_breaks, trim_chars, words_of, is_white_space};

fn words(s: &str) -> Vec<String> {
    words_of(&chars_of(s)).iter().map(|w| w.iter().collect()).collect()
}

fn parts(s: &str) -> Vec<String> {
    pieces_of(&chars_of(s)).iter().map(|w| w.iter().collect()).collect()
}

#[test]
fn words_skip_runs_of_white_space() {
    assert_eq!(words("  PROT 0.1\tCONNECT  NEW \r"), vec!["PROT", "0.1", "CONNECT", "NEW"]);
    assert_eq!(words(""), Vec::<String>::new());
    assert_eq!(words(" \t\n"), Vec::<String>::new());
}

#[test]
fn words_match_split_whitespace_on_unicode_spaces() {
    let line = "a\u{3000}b\u{85}c\u{a0}d\u{2009}e";
    let expected: Vec<String> = line.split_whitespace().map(String::from).collect();
    assert_eq!(words(line), expected);
    assert_eq!(words(line).len(), 5);
}

#[test]
fn pieces_keep_empty_parts() {
    assert_eq!(parts("FROM bob MSG  hi"), vec!["FROM", "bob", "MSG", "", "hi"]);
    assert_eq!(parts(""), vec![""]);
    assert_eq!(parts(" "), vec!["", ""]);
    let line = "a  b c ";
    let expected: Vec<String> = line.split(" ").map(String::from).collect();
    assert_eq!(parts(line), expected);
}

#[test]
fn trim_removes_white_space_at_both_ends() {
    let t: String = trim_chars(&chars_of("  \u{3000}bob the\t ")).iter().collect();
    assert_eq!(t, "bob the");
    let e: String = trim_chars(&chars_of(" \t ")).iter().collect();
    assert_eq!(e, "");
}

#[test]
fn white_space_follows_char_is_whitespace() {
    for c in ['\t', '\n', ' ', '\u{85}', '\u{a0}', '\u{1680}', '\u{2000}', '\u{200a}', '\u{2028}', '\u{3000}', 'a', '0', '\u{200b}', '\u{feff}'] {
        assert_eq!(is_white_space(c), c.is_whitespace(), "char {:?}", c);
    }
}

#[test]
fn line_breaks_are_stripped_everywhere() {
    assert_eq!(strip_line_breaks("hello\r\n"), "hello");
    assert_eq!(strip_line_breaks("a\nb\rc"), "abc");
    assert_eq!(strip_line_breaks(""), "");
}

#[test]
fn chop_line_drops_the_line_ending() {
    assert_eq!(chop_line("BYE\r\n"), "BYE");
    assert_eq!(chop_line("BYE\n"), "BYE");
    assert_eq!(chop_line("BYE"), "BYE");
    assert_eq!(chop_line("BYE\r"), "BYE");
    assert_eq!(chop_line("a\r\r\n"), "a\r");
    assert_eq!(chop_line("\r\n"), "");
    assert_eq!(chop_line(""), "");
}

#[test]
fn conversions_round_trip() {
    let s = "héllo wörld";
    assert_eq!(string_of(&chars_of(s)), s);
    assert_eq!(owned(s), s);
}
