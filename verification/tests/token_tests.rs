use rust9cc::error::CompileError;
use rust9cc::token::{tokenize, InputReader, Loc, Token, TokenKind};

fn kinds(tokens: Vec<Token>) -> Vec<TokenKind> {
    tokens.into_iter().map(|token| token.kind).collect()
}

/// Remove loc from a given tokens.
fn remove_loc(tokens: Vec<Token>) -> Vec<Token> {
    tokens
        .into_iter()
        .map(|x| Token {
            kind: x.kind,
            loc: Loc { col: 0, line: 0 },
        })
        .collect()
}

#[test]
fn lib_test_reader() {
    let mut reader = InputReader::new("123abc");

    let head = reader.head(4);
    assert_eq!(head.unwrap(), "123a");

    let num = reader.consume_number().unwrap();
    assert_eq!(num, 123);

    let peek = reader.peek().expect("Not peekable");
    assert_eq!(peek, 'a');

    reader.advance(1).unwrap();
    let peek = reader.peek().expect("Not peekable");
    assert_eq!(peek, 'b');
}

#[test]
fn lib_test_tokenize() {
    assert_eq!(
        kinds(tokenize("  2 * (1+23) - 456 / 7").unwrap()),
        vec![
            TokenKind::Num(2),
            TokenKind::Mul,
            TokenKind::LParen,
            TokenKind::Num(1),
            TokenKind::Plus,
            TokenKind::Num(23),
            TokenKind::RParen,
            TokenKind::Minus,
            TokenKind::Num(456),
            TokenKind::Div,
            TokenKind::Num(7),
            TokenKind::Eof,
        ]
    );
}

#[test]
fn token_test_reader() {
    let mut reader = InputReader::new("123abc");

    let head = reader.head(4);
    assert_eq!(head.unwrap(), "123a");
    assert_eq!(reader.loc, Loc { line: 0, col: 0 });

    let head = reader.head(10);
    assert_eq!(head.is_none(), true);

    let num = reader.consume_number().unwrap();
    assert_eq!(num, 123);
    assert_eq!(reader.loc, Loc { line: 0, col: 3 });

    let peek = reader.peek().expect("Not peekable");
    assert_eq!(peek, 'a');

    reader.advance(1).unwrap();
    let peek = reader.peek().expect("Not peekable");
    assert_eq!(peek, 'b');
}

#[test]
fn test_multiline_reader() {
    let input = vec!["a", "bc"].join("\n");
    let mut reader = InputReader::new(input.as_str());

    reader.advance(1).unwrap();
    assert_eq!(reader.loc, Loc { line: 0, col: 1 });

    reader.advance(1).unwrap();
    assert_eq!(reader.peek().expect("Not peekable"), 'b');
    assert_eq!(reader.loc, Loc { line: 1, col: 0 });
}

#[test]
fn token_test_tokenize() {
    let loc = Loc { line: 0, col: 0 };
    assert_eq!(
        tokenize("(2)").unwrap(),
        vec![
            Token {
                kind: TokenKind::LParen,
                loc: Loc { line: 0, col: 0 },
            },
            Token {
                kind: TokenKind::Num(2),
                loc: Loc { line: 0, col: 1 },
            },
            Token {
                kind: TokenKind::RParen,
                loc: Loc { line: 0, col: 2 },
            },
            Token {
                kind: TokenKind::Eof,
                loc: Loc { line: 0, col: 3 },
            },
        ]
    );
    assert_eq!(
        tokenize("  2 * (1+23) - 456 / 7").unwrap(),
        vec![
            Token {
                kind: TokenKind::Num(2),
                loc: Loc { line: 0, col: 2 },
            },
            Token {
                kind: TokenKind::Mul,
                loc: Loc { line: 0, col: 4 },
            },
            Token {
                kind: TokenKind::LParen,
                loc: Loc { line: 0, col: 6 },
            },
            Token {
                kind: TokenKind::Num(1),
                loc: Loc { line: 0, col: 7 },
            },
            Token {
                kind: TokenKind::Plus,
                loc: Loc { line: 0, col: 8 },
            },
            Token {
                kind: TokenKind::Num(23),
                loc: Loc { line: 0, col: 9 },
            },
            Token {
                kind: TokenKind::RParen,
                loc: Loc { line: 0, col: 11 },
            },
            Token {
                kind: TokenKind::Minus,
                loc: Loc { line: 0, col: 13 },
            },
            Token {
                kind: TokenKind::Num(456),
                loc: Loc { line: 0, col: 15 },
            },
            Token {
                kind: TokenKind::Div,
                loc: Loc { line: 0, col: 19 },
            },
            Token {
                kind: TokenKind::Num(7),
                loc: Loc { line: 0, col: 21 },
            },
            Token {
                kind: TokenKind::Eof,
                loc: Loc { line: 0, col: 22 },
            },
        ]
    );

    assert_eq!(
        remove_loc(tokenize("== != <= >= < >").unwrap()),
        vec![
            Token {
                kind: TokenKind::Eq,
                loc
            },
            Token {
                kind: TokenKind::Neq,
                loc
            },
            Token {
                kind: TokenKind::Leq,
                loc
            },
            Token {
                kind: TokenKind::Geq,
                loc
            },
            Token {
                kind: TokenKind::Lt,
                loc
            },
            Token {
                kind: TokenKind::Gt,
                loc
            },
            Token {
                kind: TokenKind::Eof,
                loc
            },
        ]
    );
}

#[test]
fn two_character_operators_keep_their_columns() {
    let cols: Vec<usize> = tokenize("== != <= >= < >")
        .unwrap()
        .into_iter()
        .map(|token| token.loc.col)
        .collect();
    assert_eq!(cols, vec![0, 3, 6, 9, 12, 14, 15]);
}

#[test]
fn digit_string_is_one_number() {
    assert_eq!(
        tokenize("0123456789").unwrap(),
        vec![
            Token { kind: TokenKind::Num(123456789), loc: Loc { line: 0, col: 0 } },
            Token { kind: TokenKind::Eof, loc: Loc { line: 0, col: 10 } },
        ]
    );
    assert_eq!(
        kinds(tokenize("18446744073709551615").unwrap()),
        vec![TokenKind::Num(u64::MAX), TokenKind::Eof]
    );
}

#[test]
fn empty_input_is_only_the_end_marker() {
    assert_eq!(
        tokenize("").unwrap(),
        vec![Token { kind: TokenKind::Eof, loc: Loc { line: 0, col: 0 } }]
    );
    assert_eq!(
        tokenize("   ").unwrap(),
        vec![Token { kind: TokenKind::Eof, loc: Loc { line: 0, col: 3 } }]
    );
}

#[test]
fn spaces_between_tokens_change_no_kind() {
    let dense = kinds(tokenize("1+2*(3-4)<=5").unwrap());
    let sparse = kinds(tokenize(" 1 +  2 * ( 3 - 4 )   <= 5 ").unwrap());
    assert_eq!(dense, sparse);
}

#[test]
fn a_space_splits_a_two_character_operator() {
    assert_eq!(
        tokenize("1 < = 2"),
        Err(CompileError::Tokenize('=', Loc { line: 0, col: 4 }))
    );
}

#[test]
fn literal_too_large_is_rejected() {
    assert_eq!(
        tokenize("1 + 18446744073709551616"),
        Err(CompileError::LiteralTooLarge(Loc { line: 0, col: 4 }))
    );
    assert_eq!(
        tokenize("99999999999999999999999999"),
        Err(CompileError::LiteralTooLarge(Loc { line: 0, col: 0 }))
    );
}

#[test]
fn unknown_character_is_located() {
    assert_eq!(
        tokenize("1 & 2"),
        Err(CompileError::Tokenize('&', Loc { line: 0, col: 2 }))
    );
    assert_eq!(
        tokenize("1\n2"),
        Err(CompileError::Tokenize('\n', Loc { line: 0, col: 1 }))
    );
    assert_eq!(
        tokenize("12 = 3"),
        Err(CompileError::Tokenize('=', Loc { line: 0, col: 3 }))
    );
}

#[test]
fn reader_advances_by_the_characters_consumed() {
    let mut reader = InputReader::new("ab\ncd");
    assert_eq!(reader.len(), 5);
    assert!(reader.starts_with("ab"));
    assert!(reader.starts_with(""));
    assert!(!reader.starts_with("b"));
    assert!(!reader.starts_with("ab\ncde"));
    reader.advance(2).unwrap();
    assert_eq!(reader.loc, Loc { line: 0, col: 2 });
    assert_eq!(reader.advance(4), Err(CompileError::EndOfInput));
    assert_eq!(reader.loc, Loc { line: 0, col: 2 });
    assert_eq!(reader.len(), 3);
    reader.advance(2).unwrap();
    assert_eq!(reader.loc, Loc { line: 1, col: 0 });
    assert_eq!(reader.peek_at(0), Some('d'));
    assert_eq!(reader.peek_at(1), None);
    assert_eq!(reader.next(), Some('d'));
    assert_eq!(reader.loc, Loc { line: 1, col: 1 });
    assert_eq!(reader.location(), Loc { line: 1, col: 1 });
    assert_eq!(reader.next(), None);
    assert_eq!(reader.head(0), Some(""));
    assert_eq!(reader.head(1), None);
}

#[test]
fn reader_number_errors() {
    let mut reader = InputReader::new("x1");
    assert_eq!(
        reader.consume_number(),
        Err(CompileError::Tokenize('x', Loc { line: 0, col: 0 }))
    );
    assert_eq!(reader.len(), 2);
    reader.advance(1).unwrap();
    assert_eq!(reader.consume_number(), Ok(1));
    assert_eq!(reader.consume_number(), Err(CompileError::EndOfInput));

    let mut reader = InputReader::new("18446744073709551616+");
    assert_eq!(
        reader.consume_number(),
        Err(CompileError::LiteralTooLarge(Loc { line: 0, col: 0 }))
    );
    assert_eq!(reader.peek(), Some('+'));
    assert_eq!(reader.loc, Loc { line: 0, col: 20 });
}

#[test]
fn reader_counts_characters_not_bytes() {
    let mut reader = InputReader::new("é1");
    assert_eq!(reader.len(), 2);
    assert_eq!(reader.head(1), Some("é"));
    reader.advance(1).unwrap();
    assert_eq!(reader.loc, Loc { line: 0, col: 1 });
    assert_eq!(reader.consume_number(), Ok(1));
}

#[test]
fn single_character_operators() {
    assert_eq!(TokenKind::try_from('+'), Some(TokenKind::Plus));
    assert_eq!(TokenKind::try_from('-'), Some(TokenKind::Minus));
    assert_eq!(TokenKind::try_from('*'), Some(TokenKind::Mul));
    assert_eq!(TokenKind::try_from('/'), Some(TokenKind::Div));
    assert_eq!(TokenKind::try_from('('), Some(TokenKind::LParen));
    assert_eq!(TokenKind::try_from(')'), Some(TokenKind::RParen));
    assert_eq!(TokenKind::try_from('<'), Some(TokenKind::Lt));
    assert_eq!(TokenKind::try_from('>'), Some(TokenKind::Gt));
    assert_eq!(TokenKind::try_from('='), None);
    assert_eq!(TokenKind::try_from_pair('=', '='), Some(TokenKind::Eq));
    assert_eq!(TokenKind::try_from_pair('!', '='), Some(TokenKind::Neq));
    assert_eq!(TokenKind::try_from_pair('<', '='), Some(TokenKind::Leq));
    assert_eq!(TokenKind::try_from_pair('>', '='), Some(TokenKind::Geq));
    assert_eq!(TokenKind::try_from_pair('=', '<'), None);
    assert_eq!(TokenKind::try_from_pair('+', '='), None);
}

#[test]
fn numeral_written_out_is_read_back() {
    let mut text = String::new();
    rust9cc::text::append_decimal(&mut text, 9007199254740993);
    assert_eq!(
        kinds(tokenize(text.as_str()).unwrap()),
        vec![TokenKind::Num(9007199254740993), TokenKind::Eof]
    );
}

#[test]
fn characters_of_a_text() {
    assert_eq!(rust9cc::reader::chars_of("a+é"), vec!['a', '+', 'é']);
    assert_eq!(rust9cc::reader::chars_of(""), Vec::<char>::new());
}
