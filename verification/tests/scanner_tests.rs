use crust::scanner::Scanner;
use crust::token::{SourceToken, Token};
use crust::util::CrustCoreErr;

#[test]
fn scan_basic_symbols() {
    let symbols = vec![
        Token::LeftParen,
        Token::RightParen,
        Token::LeftBrace,
        Token::RightBrace,
        Token::Comma,
        Token::Dot,
        Token::Minus,
        Token::Plus,
        Token::Semicolon,
        Token::Star,
    ];
    let scanner = Scanner::new("(){},.-+;*");
    let tokens = scanner.scan_tokens();

    tokens
        .unwrap()
        .iter()
        .map(|st| &st.token)
        .zip(symbols)
        .for_each(|(token, symbol)| assert_eq!(*token, symbol))
}

#[test]
fn scan_two_char_symbols() {
    let symbols = vec![
        Token::EqualEqual,
        Token::BangEqual,
        Token::Equal,
        Token::Bang,
        Token::LessEqual,
        Token::Less,
        Token::GreaterEqual,
        Token::Greater,
    ];
    let scanner = Scanner::new("==!==!<=<>=>");
    let tokens = scanner.scan_tokens();

    tokens
        .unwrap()
        .iter()
        .map(|st| &st.token)
        .zip(symbols)
        .for_each(|(token, symbol)| assert_eq!(*token, symbol))
}

#[test]
fn scan_whitespace() {
    let symbols = vec![
        Token::LeftParen,
        Token::RightParen,
        Token::LeftBrace,
        Token::RightBrace,
        Token::Comma,
        Token::Dot,
        Token::Minus,
        Token::Plus,
        Token::Semicolon,
        Token::Star,
    ];
    let scanner = Scanner::new("() {}\n,.-\t+;*");
    let tokens = scanner.scan_tokens();

    tokens
        .unwrap()
        .iter()
        .map(|st| &st.token)
        .zip(symbols)
        .for_each(|(token, symbol)| assert_eq!(*token, symbol))
}

#[test]
fn scan_comment() {
    let symbols = vec![Token::LeftParen, Token::RightParen, Token::Slash];
    let scanner = Scanner::new("(// this is ignored)\n)/");
    let tokens = scanner.scan_tokens();

    tokens
        .unwrap()
        .iter()
        .map(|st| &st.token)
        .zip(symbols)
        .for_each(|(token, symbol)| assert_eq!(*token, symbol))
}

#[test]
fn scan_float_literal_with_access() {
    let symbols = vec![
        Token::LeftParen,
        Token::Float(b"1.3".to_vec()),
        Token::Dot,
        Token::RightParen,
        Token::Integer(25),
        Token::Dot,
    ];
    let scanner = Scanner::new("(1.3.)25.");
    let tokens = scanner.scan_tokens();

    tokens
        .unwrap()
        .iter()
        .map(|st| &st.token)
        .zip(symbols)
        .for_each(|(token, symbol)| assert_eq!(*token, symbol))
}

#[test]
fn scan_number_literal() {
    let symbols = vec![
        Token::LeftParen,
        Token::Float(b"1.3".to_vec()),
        Token::RightParen,
        Token::Integer(25),
    ];
    let scanner = Scanner::new("(1.3)25");
    let tokens = scanner.scan_tokens();

    tokens
        .unwrap()
        .iter()
        .map(|st| &st.token)
        .zip(symbols)
        .for_each(|(token, symbol)| assert_eq!(*token, symbol))
}

#[test]
fn scan_string_literal() {
    let symbols = vec![
        SourceToken::new(Token::LeftParen, 0, 1, 1),
        SourceToken::new(Token::String(b"This is a string".to_vec()), 1, 1, 18),
        SourceToken::new(Token::RightParen, 19, 1, 1),
    ];
    let scanner = Scanner::new("(\"This is a string\")");
    let tokens = scanner.scan_tokens();

    tokens
        .unwrap()
        .iter()
        .zip(symbols)
        .for_each(|(token, symbol)| assert_eq!(*token, symbol))
}

#[test]
fn scan_identifiers() {
    let symbols = vec![
        Token::If,
        Token::Else,
        Token::For,
        Token::Class,
        Token::Super,
        Token::Fn,
        Token::Identifier(b"some_name_1".to_vec()),
        Token::True,
        Token::False,
        Token::Mut,
        Token::While,
        Token::Loop,
        Token::Break,
        Token::Return,
        Token::This,
        Token::Let,
    ];
    let scanner = Scanner::new(
        "if else for class super fn some_name_1 true false mut while loop break return this let",
    );
    let tokens = scanner.scan_tokens();

    tokens
        .unwrap()
        .iter()
        .map(|st| &st.token)
        .zip(symbols)
        .for_each(|(token, symbol)| assert_eq!(*token, symbol))
}

#[test]
fn scan_empty_source_gives_lone_eof() {
    let tokens = Scanner::new("").scan_tokens().unwrap();
    assert_eq!(tokens, vec![SourceToken::new(Token::Eof, 0, 1, 0)]);
}

#[test]
fn scan_ends_with_eof_at_source_length() {
    let tokens = Scanner::new("(1.3)25").scan_tokens().unwrap();
    let last = tokens.last().unwrap();
    assert_eq!(*last, SourceToken::new(Token::Eof, 7, 1, 0));
    // exactly one end-of-input token
    let eofs = tokens.iter().filter(|st| st.token == Token::Eof).count();
    assert_eq!(eofs, 1);
}

#[test]
fn scan_offsets_are_monotone() {
    let tokens = Scanner::new("let x = 1.5; // c\nwhile (x <= 2) { x }")
        .scan_tokens()
        .unwrap();
    let source_len = "let x = 1.5; // c\nwhile (x <= 2) { x }".len();
    let mut prev_end = 0usize;
    for st in &tokens {
        assert!(st.offset >= prev_end);
        assert!(st.offset + st.length <= source_len);
        prev_end = st.offset + st.length;
    }
}

#[test]
fn scan_double_equal_is_one_token() {
    let tokens = Scanner::new("==").scan_tokens().unwrap();
    assert_eq!(
        tokens,
        vec![
            SourceToken::new(Token::EqualEqual, 0, 1, 2),
            SourceToken::new(Token::Eof, 2, 1, 0),
        ]
    );
}

#[test]
fn scan_keyword_any_casing() {
    let tokens = Scanner::new("IF").scan_tokens().unwrap();
    assert_eq!(
        tokens,
        vec![
            SourceToken::new(Token::If, 0, 1, 2),
            SourceToken::new(Token::Eof, 2, 1, 0),
        ]
    );
    let mixed = Scanner::new("While").scan_tokens().unwrap();
    assert_eq!(mixed[0].token, Token::While);
}

#[test]
fn scan_comment_ends_at_newline() {
    let tokens = Scanner::new("(// x\n)").scan_tokens().unwrap();
    assert_eq!(
        tokens,
        vec![
            SourceToken::new(Token::LeftParen, 0, 1, 1),
            SourceToken::new(Token::RightParen, 6, 2, 1),
            SourceToken::new(Token::Eof, 7, 2, 0),
        ]
    );
}

#[test]
fn scan_literal_payloads_round_trip() {
    let tokens = Scanner::new("(1.3)25").scan_tokens().unwrap();
    assert_eq!(
        tokens,
        vec![
            SourceToken::new(Token::LeftParen, 0, 1, 1),
            SourceToken::new(Token::Float(b"1.3".to_vec()), 1, 1, 3),
            SourceToken::new(Token::RightParen, 4, 1, 1),
            SourceToken::new(Token::Integer(25), 5, 1, 2),
            SourceToken::new(Token::Eof, 7, 1, 0),
        ]
    );
    // the float lexeme decodes to the 32-bit value the source wrote
    if let Token::Float(text) = &tokens[1].token {
        let decoded: f32 = std::str::from_utf8(text).unwrap().parse().unwrap();
        assert_eq!(decoded, 1.3f32);
    } else {
        panic!();
    }
}

#[test]
fn scan_string_payload_excludes_quotes() {
    let tokens = Scanner::new("(\"abc\")").scan_tokens().unwrap();
    assert_eq!(
        tokens[1],
        SourceToken::new(Token::String(b"abc".to_vec()), 1, 1, 5)
    );
}

#[test]
fn scan_integer_then_dot_is_not_a_float() {
    let tokens = Scanner::new("25.").scan_tokens().unwrap();
    assert_eq!(
        tokens,
        vec![
            SourceToken::new(Token::Integer(25), 0, 1, 2),
            SourceToken::new(Token::Dot, 2, 1, 1),
            SourceToken::new(Token::Eof, 3, 1, 0),
        ]
    );
}

#[test]
fn scan_unrecognized_characters_aggregate() {
    let result = Scanner::new("$@").scan_tokens();
    match result {
        Err(CrustCoreErr::Multi { errors }) => {
            assert_eq!(
                errors,
                vec![
                    CrustCoreErr::Scan {
                        line: 1,
                        message: "Unexpected character".to_string(),
                    },
                    CrustCoreErr::Scan {
                        line: 1,
                        message: "Unexpected character".to_string(),
                    },
                ]
            );
        }
        _ => panic!(),
    }
}

#[test]
fn scan_unterminated_string() {
    let result = Scanner::new("\"abc").scan_tokens();
    match result {
        Err(CrustCoreErr::Multi { errors }) => {
            assert_eq!(
                errors,
                vec![CrustCoreErr::Scan {
                    line: 1,
                    message: "Unterminated string literal".to_string(),
                }]
            );
        }
        _ => panic!(),
    }
}

#[test]
fn scan_unterminated_string_cites_opening_line() {
    let result = Scanner::new("\n\n\"ab\nc").scan_tokens();
    match result {
        Err(CrustCoreErr::Multi { errors }) => {
            assert_eq!(
                errors,
                vec![CrustCoreErr::Scan {
                    line: 3,
                    message: "Unterminated string literal".to_string(),
                }]
            );
        }
        _ => panic!(),
    }
}

#[test]
fn scan_string_with_embedded_newline() {
    let tokens = Scanner::new("\"a\nb\")").scan_tokens().unwrap();
    assert_eq!(
        tokens,
        vec![
            SourceToken::new(Token::String(b"a\nb".to_vec()), 0, 1, 5),
            // the line counter advanced past the embedded newline
            SourceToken::new(Token::RightParen, 5, 2, 1),
            SourceToken::new(Token::Eof, 6, 2, 0),
        ]
    );
}

#[test]
fn scan_integer_overflow_is_an_error() {
    let result = Scanner::new("2147483648").scan_tokens();
    match result {
        Err(CrustCoreErr::Multi { errors }) => {
            assert_eq!(
                errors,
                vec![CrustCoreErr::Scan {
                    line: 1,
                    message: "Invalid integer value".to_string(),
                }]
            );
        }
        _ => panic!(),
    }
    let max = Scanner::new("2147483647").scan_tokens().unwrap();
    assert_eq!(max[0].token, Token::Integer(2147483647));
}

#[test]
fn scan_ampersand_and_pipe_are_unrecognized() {
    let result = Scanner::new("&|").scan_tokens();
    match result {
        Err(CrustCoreErr::Multi { errors }) => assert_eq!(errors.len(), 2),
        _ => panic!(),
    }
}

#[test]
fn scan_underscore_starts_an_identifier() {
    let tokens = Scanner::new("_name9").scan_tokens().unwrap();
    assert_eq!(tokens[0].token, Token::Identifier(b"_name9".to_vec()));
}

#[test]
fn scan_recovers_after_an_error() {
    // errors do not stop the pass: both problems of this source are found
    let result = Scanner::new("$ \"x").scan_tokens();
    match result {
        Err(CrustCoreErr::Multi { errors }) => {
            assert_eq!(
                errors,
                vec![
                    CrustCoreErr::Scan {
                        line: 1,
                        message: "Unexpected character".to_string(),
                    },
                    CrustCoreErr::Scan {
                        line: 1,
                        message: "Unterminated string literal".to_string(),
                    },
                ]
            );
        }
        _ => panic!(),
    }
}
