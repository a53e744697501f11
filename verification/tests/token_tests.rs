use crust::numeric::{int_to_text, parse_i32_digits};
use crust::token::{try_as_keyword, Token};

#[test]
fn keyword_lookup_matches_reserved_words() {
    assert_eq!(try_as_keyword(b"class"), Some(Token::Class));
    assert_eq!(try_as_keyword(b"if"), Some(Token::If));
    assert_eq!(try_as_keyword(b"else"), Some(Token::Else));
    assert_eq!(try_as_keyword(b"true"), Some(Token::True));
    assert_eq!(try_as_keyword(b"false"), Some(Token::False));
    assert_eq!(try_as_keyword(b"fn"), Some(Token::Fn));
    assert_eq!(try_as_keyword(b"for"), Some(Token::For));
    assert_eq!(try_as_keyword(b"mut"), Some(Token::Mut));
    assert_eq!(try_as_keyword(b"while"), Some(Token::While));
    assert_eq!(try_as_keyword(b"loop"), Some(Token::Loop));
    assert_eq!(try_as_keyword(b"break"), Some(Token::Break));
    assert_eq!(try_as_keyword(b"return"), Some(Token::Return));
    assert_eq!(try_as_keyword(b"this"), Some(Token::This));
    assert_eq!(try_as_keyword(b"super"), Some(Token::Super));
    assert_eq!(try_as_keyword(b"let"), Some(Token::Let));
}

#[test]
fn keyword_lookup_is_case_insensitive() {
    assert_eq!(try_as_keyword(b"CLASS"), Some(Token::Class));
    assert_eq!(try_as_keyword(b"If"), Some(Token::If));
    assert_eq!(try_as_keyword(b"WhIlE"), Some(Token::While));
}

#[test]
fn keyword_lookup_rejects_other_words() {
    assert_eq!(try_as_keyword(b"classes"), None);
    assert_eq!(try_as_keyword(b"cla"), None);
    assert_eq!(try_as_keyword(b"some_name_1"), None);
    assert_eq!(try_as_keyword(b""), None);
    // word operators are not reserved words
    assert_eq!(try_as_keyword(b"and"), None);
    assert_eq!(try_as_keyword(b"or"), None);
}

#[test]
fn digit_runs_parse_as_32_bit_integers() {
    assert_eq!(parse_i32_digits(b"0"), Some(0));
    assert_eq!(parse_i32_digits(b"25"), Some(25));
    assert_eq!(parse_i32_digits(b"0007"), Some(7));
    assert_eq!(parse_i32_digits(b"2147483647"), Some(2147483647));
    assert_eq!(parse_i32_digits(b"2147483648"), None);
    assert_eq!(parse_i32_digits(b"99999999999999999999"), None);
}

#[test]
fn integers_render_as_canonical_decimal_text() {
    assert_eq!(int_to_text(0), b"0".to_vec());
    assert_eq!(int_to_text(15), b"15".to_vec());
    assert_eq!(int_to_text(-12), b"-12".to_vec());
    assert_eq!(int_to_text(2147483647), b"2147483647".to_vec());
    assert_eq!(int_to_text(-2147483648), b"-2147483648".to_vec());
}
