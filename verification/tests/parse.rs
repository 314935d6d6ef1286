use rtfmt::parser::{expression, tokenize};
use rtfmt::text::chars_of;
use rtfmt::token::same_keys;
use rtfmt::{Generator, Key, ParseError, Token};

fn lit(text: &str) -> Token {
    Token::Literal(text.to_string())
}

fn name(text: &str) -> Key {
    Key::Name(text.to_string())
}

fn hole(path: &str, keys: Vec<Key>) -> Token {
    Token::Placeholder(path.to_string(), keys)
}

fn tokens_of(pattern: &str) -> Vec<Token> {
    Generator::new(pattern).unwrap().tokens().clone()
}

fn offset_of(pattern: &str) -> usize {
    match Generator::new(pattern) {
        Ok(_) => panic!("{:?} compiled", pattern),
        Err(e) => e.offset,
    }
}

#[test]
fn empty_pattern_has_no_tokens() {
    assert_eq!(Vec::<Token>::new(), tokens_of(""));
}

#[test]
fn doubled_open_brace_is_one_literal() {
    assert_eq!(vec![lit("{")], tokens_of("{{"));
}

#[test]
fn doubled_close_brace_is_one_literal() {
    assert_eq!(vec![lit("}")], tokens_of("}}"));
}

#[test]
fn adjacent_escapes_merge() {
    assert_eq!(vec![lit("}{")], tokens_of("}}{{"));
}

#[test]
fn escapes_merge_with_text() {
    assert_eq!(vec![lit("{surrounded}")], tokens_of("{{surrounded}}"));
}

#[test]
fn plain_text_is_one_literal() {
    assert_eq!(vec![lit("le message: !")], tokens_of("le message: !"));
}

#[test]
fn literal_placeholder_literal() {
    assert_eq!(
        vec![lit("a"), hole("b", vec![name("b")]), lit("c")],
        tokens_of("a{b}c")
    );
}

#[test]
fn adjacent_placeholders() {
    assert_eq!(
        vec![hole("a", vec![name("a")]), hole("0", vec![Key::Id(0)])],
        tokens_of("{a}{0}")
    );
}

#[test]
fn numeric_key_is_a_position() {
    assert_eq!(vec![hole("42", vec![Key::Id(42)])], tokens_of("{42}"));
}

#[test]
fn leading_zeros_keep_their_text() {
    assert_eq!(vec![hole("007", vec![Key::Id(7)])], tokens_of("{007}"));
}

#[test]
fn dotted_path_splits_into_keys() {
    assert_eq!(
        vec![hole("a1.2.b", vec![name("a1"), Key::Id(2), name("b")])],
        tokens_of("{a1.2.b}")
    );
}

#[test]
fn escaped_brace_after_placeholder() {
    assert_eq!(
        vec![hole("a", vec![name("a")]), lit("}")],
        tokens_of("{a}}}")
    );
}

#[test]
fn escaped_brace_before_placeholder() {
    assert_eq!(
        vec![lit("{"), hole("a", vec![name("a")])],
        tokens_of("{{{a}")
    );
}

#[test]
fn largest_position_fits() {
    let pattern = format!("{{{}}}", usize::MAX);
    assert_eq!(
        vec![hole(&usize::MAX.to_string(), vec![Key::Id(usize::MAX)])],
        tokens_of(&pattern)
    );
}

#[test]
fn position_past_the_largest_is_rejected() {
    let pattern = format!("x{{{}}}", usize::MAX as u128 + 1);
    assert_eq!(1, offset_of(&pattern));
}

#[test]
fn long_digit_run_is_rejected() {
    assert_eq!(0, offset_of("{99999999999999999999999999999999999999999}"));
}

#[test]
fn lone_open_brace_is_rejected() {
    assert_eq!(0, offset_of("{"));
    assert_eq!(2, offset_of("ab{"));
}

#[test]
fn lone_close_brace_is_rejected() {
    assert_eq!(0, offset_of("}"));
    assert_eq!(2, offset_of("ab}"));
    assert_eq!(3, offset_of("{a}}"));
    assert_eq!(3, offset_of("{{a}"));
}

#[test]
fn unterminated_placeholder_is_rejected() {
    assert_eq!(3, offset_of("abc{def"));
    assert_eq!(0, offset_of("{a.b"));
}

#[test]
fn empty_key_is_rejected() {
    assert_eq!(0, offset_of("{}"));
    assert_eq!(0, offset_of("{a.}"));
    assert_eq!(0, offset_of("{.a}"));
    assert_eq!(0, offset_of("{a..b}"));
}

#[test]
fn malformed_key_is_rejected() {
    assert_eq!(0, offset_of("{0a}"));
    assert_eq!(0, offset_of("{a b}"));
    assert_eq!(0, offset_of("{ a}"));
    assert_eq!(0, offset_of("{a_b}"));
    assert_eq!(0, offset_of("{-1}"));
    assert_eq!(0, offset_of("{+1}"));
    assert_eq!(0, offset_of("{a{b}"));
    assert_eq!(5, offset_of("hello{\u{e9}}"));
}

#[test]
fn offsets_count_characters() {
    assert_eq!(1, offset_of("\u{e9}}"));
    assert_eq!(vec![lit("\u{e9}\u{4e16}")], tokens_of("\u{e9}\u{4e16}"));
}

#[test]
fn second_placeholder_is_where_it_fails() {
    assert_eq!(4, offset_of("{a}-{b c}"));
}

#[test]
fn pattern_is_kept() {
    let pattern = "le message: {id}!";
    assert_eq!(pattern, Generator::new(pattern).unwrap().pattern());
    assert_eq!("", Generator::new("").unwrap().pattern());
}

#[test]
fn compiling_twice_gives_equal_tokens() {
    let pattern = "a{{b}}{c.0.d}e";
    let first = Generator::new(pattern).unwrap();
    let second = Generator::new(pattern).unwrap();
    assert_eq!(first.tokens(), second.tokens());
}

#[test]
fn expression_gives_the_tokens() {
    assert_eq!(
        vec![lit("x"), hole("y", vec![name("y")])],
        expression("x{y}").unwrap()
    );
    assert_eq!(Err(ParseError { offset: 1 }), expression("x}").map(|_| ()));
}

#[test]
fn tokenize_reads_characters() {
    let chars: Vec<char> = "{0}!".chars().collect();
    assert_eq!(
        vec![hole("0", vec![Key::Id(0)]), lit("!")],
        tokenize(&chars).unwrap()
    );
}

#[test]
fn characters_of_a_string() {
    assert_eq!(vec!['h', '\u{e9}', '{'], chars_of("h\u{e9}{"));
    assert_eq!(Vec::<char>::new(), chars_of(""));
}

#[test]
fn keys_and_tokens_compare_by_content() {
    assert_eq!(Key::Id(3), Key::Id(3));
    assert_ne!(Key::Id(3), Key::Id(4));
    assert_ne!(Key::Id(3), name("3"));
    assert_eq!(name("a"), name("a"));
    assert_ne!(name("a"), name("b"));
    assert_eq!(lit("a"), lit("a"));
    assert_ne!(lit("a"), lit("b"));
    assert_ne!(lit("a"), hole("a", vec![name("a")]));
    assert_eq!(hole("a", vec![name("a")]), hole("a", vec![name("a")]));
    assert_ne!(hole("7", vec![Key::Id(7)]), hole("07", vec![Key::Id(7)]));
    assert_ne!(hole("a", vec![name("a")]), hole("a", vec![Key::Id(0)]));
    assert!(same_keys(&vec![name("a"), Key::Id(1)], &vec![name("a"), Key::Id(1)]));
    assert!(!same_keys(&vec![name("a"), Key::Id(1)], &vec![name("a")]));
    assert!(!same_keys(&vec![name("a"), Key::Id(1)], &vec![name("a"), Key::Id(2)]));
    assert!(same_keys(&vec![], &vec![]));
}

#[test]
fn literal_run_ends_at_a_placeholder() {
    assert_eq!(
        vec![lit("a{b}c"), hole("d", vec![name("d")]), lit("e}")],
        tokens_of("a{{b}}c{d}e}}")
    );
}

#[test]
fn placeholder_ends_at_the_first_closing_brace() {
    assert_eq!(
        vec![hole("ab", vec![name("ab")]), lit("cd}")],
        tokens_of("{ab}cd}}")
    );
    assert_eq!(4, offset_of("{ab}{cd"));
}

#[test]
fn names_may_hold_digits_after_the_first_letter() {
    assert_eq!(
        vec![hole("ab12.Z9", vec![name("ab12"), name("Z9")])],
        tokens_of("{ab12.Z9}")
    );
    assert_eq!(0, offset_of("{12ab}"));
}

#[test]
fn text_between_braces_keeps_every_character() {
    assert_eq!(
        vec![lit("\u{e9}{"), hole("k", vec![name("k")]), lit(" \u{4e16}")],
        tokens_of("\u{e9}{{{k} \u{4e16}")
    );
}
