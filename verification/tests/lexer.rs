use frontend::common::diagnostics::{own_diagnostics, Diagnostics, Severity};
use frontend::common::span::{IntoSpan, Span};
use frontend::lexer::{
    lex, number_literal_from_captures, parse_suffix, AssignmentOp, Keyword, NumberLiteral,
    NumberLiteralKind, NumberLiteralType, Operator, Punctuation, Token,
};

fn lex_clean(code: &str) -> Vec<(Token, Span)> {
    let mut sink = Diagnostics::new();
    let tokens = lex(code, 0, &mut sink);
    assert_eq!(own_diagnostics(&sink), vec![]);
    tokens
}

fn kinds_of(code: &str) -> Vec<Token> {
    lex_clean(code).into_iter().map(|(token, _)| token).collect()
}

fn word(text: &str) -> Token {
    Token::Identifier(text.to_string())
}

fn number(value: &str, kind: NumberLiteralKind, ty: Option<NumberLiteralType>) -> Token {
    Token::NumberLiteral(NumberLiteral { value: value.to_string(), kind, ty })
}

fn int_ty(bits: Option<Option<u32>>, signed: bool) -> Option<NumberLiteralType> {
    Some(NumberLiteralType::Integer { bits, signed })
}

fn float_ty(bits: Option<u8>) -> Option<NumberLiteralType> {
    Some(NumberLiteralType::Float { bits })
}

#[test]
fn tokens_carry_byte_spans() {
    let tokens = lex_clean("let x = 1;");
    assert_eq!(
        tokens,
        vec![
            (word("let"), Span::new(0, 0, 3)),
            (word("x"), Span::new(0, 4, 5)),
            (Token::AssignmentOp(AssignmentOp::Assign), Span::new(0, 6, 7)),
            (number("1", NumberLiteralKind::Decimal, None), Span::new(0, 8, 9)),
            (Token::Punctuation(Punctuation::Semicolon), Span::new(0, 9, 10)),
        ]
    );
    assert_eq!(tokens[1].span(), Span::new(0, 4, 5));
}

#[test]
fn the_file_id_goes_into_every_span() {
    let mut sink = Diagnostics::new();
    let tokens = lex("a #", 7, &mut sink);
    assert_eq!(tokens, vec![(word("a"), Span::new(7, 0, 1))]);
    let items = own_diagnostics(&sink);
    assert_eq!(items.len(), 1);
    assert_eq!(items[0].labels[0].span, Span::new(7, 2, 3));
}

#[test]
fn operators_and_punctuation() {
    assert_eq!(
        kinds_of("+ - * / < > = ( ) { } , ; =>"),
        vec![
            Token::Operator(Operator::Plus),
            Token::Operator(Operator::Neg),
            Token::Operator(Operator::Star),
            Token::Operator(Operator::Div),
            Token::Operator(Operator::Lt),
            Token::Operator(Operator::Gt),
            Token::AssignmentOp(AssignmentOp::Assign),
            Token::Punctuation(Punctuation::LParen),
            Token::Punctuation(Punctuation::RParen),
            Token::Punctuation(Punctuation::LBrace),
            Token::Punctuation(Punctuation::RBrace),
            Token::Punctuation(Punctuation::Comma),
            Token::Punctuation(Punctuation::Semicolon),
            Token::Punctuation(Punctuation::FatArrow),
        ]
    );
    assert_eq!(
        kinds_of("a=>b==c"),
        vec![
            word("a"),
            Token::Punctuation(Punctuation::FatArrow),
            word("b"),
            Token::AssignmentOp(AssignmentOp::Assign),
            Token::AssignmentOp(AssignmentOp::Assign),
            word("c"),
        ]
    );
}

#[test]
fn number_literals_in_every_base() {
    assert_eq!(kinds_of("3_141_592"), vec![number("3_141_592", NumberLiteralKind::Decimal, None)]);
    assert_eq!(kinds_of("3.141_592"), vec![number("3.141_592", NumberLiteralKind::Decimal, None)]);
    assert_eq!(kinds_of(".5"), vec![number(".5", NumberLiteralKind::Decimal, None)]);
    assert_eq!(kinds_of("0b1010_0101"), vec![number("0b1010_0101", NumberLiteralKind::Binary, None)]);
    assert_eq!(kinds_of("0o1212_3737"), vec![number("0o1212_3737", NumberLiteralKind::Octal, None)]);
    assert_eq!(kinds_of("0xdead_beef"), vec![number("0xdead_beef", NumberLiteralKind::Hex, None)]);
}

#[test]
fn number_literals_with_suffixes() {
    assert_eq!(
        kinds_of("1_000i64"),
        vec![number("1_000", NumberLiteralKind::Decimal, int_ty(Some(Some(64)), true))]
    );
    assert_eq!(
        kinds_of("1u32"),
        vec![number("1", NumberLiteralKind::Decimal, int_ty(Some(Some(32)), false))]
    );
    assert_eq!(kinds_of("5iz"), vec![number("5", NumberLiteralKind::Decimal, int_ty(Some(None), true))]);
    assert_eq!(kinds_of("5uz"), vec![number("5", NumberLiteralKind::Decimal, int_ty(Some(None), false))]);
    assert_eq!(kinds_of("5i"), vec![number("5", NumberLiteralKind::Decimal, int_ty(None, true))]);
    assert_eq!(kinds_of("5u"), vec![number("5", NumberLiteralKind::Decimal, int_ty(None, false))]);
    assert_eq!(kinds_of("5f"), vec![number("5", NumberLiteralKind::Decimal, float_ty(None))]);
    assert_eq!(kinds_of(".5f32"), vec![number(".5", NumberLiteralKind::Decimal, float_ty(Some(32)))]);
    assert_eq!(kinds_of("2f128"), vec![number("2", NumberLiteralKind::Decimal, float_ty(Some(128)))]);
    assert_eq!(
        kinds_of("0b101u8"),
        vec![number("0b101", NumberLiteralKind::Binary, int_ty(Some(Some(8)), false))]
    );
    assert_eq!(kinds_of("0x1Fp32"), vec![number("0x1F", NumberLiteralKind::Hex, float_ty(Some(32)))]);
    assert_eq!(kinds_of("0xffi"), vec![number("0xff", NumberLiteralKind::Hex, int_ty(None, true))]);
}

#[test]
fn a_literal_ends_where_its_syntax_ends() {
    assert_eq!(
        kinds_of("5f1"),
        vec![
            number("5", NumberLiteralKind::Decimal, float_ty(None)),
            number("1", NumberLiteralKind::Decimal, None),
        ]
    );
    assert_eq!(kinds_of("12abc"), vec![number("12", NumberLiteralKind::Decimal, None), word("abc")]);
    assert_eq!(kinds_of("0b2"), vec![number("0", NumberLiteralKind::Decimal, None), word("b2")]);
    assert_eq!(kinds_of("0xg"), vec![number("0", NumberLiteralKind::Decimal, None), word("xg")]);
    assert_eq!(
        kinds_of("1-2"),
        vec![
            number("1", NumberLiteralKind::Decimal, None),
            Token::Operator(Operator::Neg),
            number("2", NumberLiteralKind::Decimal, None),
        ]
    );
}

#[test]
fn a_width_that_does_not_fit_is_no_token() {
    let mut sink = Diagnostics::new();
    let tokens = lex("1i99999999999", 0, &mut sink);
    assert_eq!(tokens, vec![]);
    let items = own_diagnostics(&sink);
    assert_eq!(items.len(), 1);
    assert_eq!(items[0].severity, Severity::Error);
    assert_eq!(items[0].message, "could not parse token");
    assert_eq!(items[0].labels[0].message, "invalid token");
    assert_eq!(items[0].labels[0].span, Span::new(0, 0, 13));
}

#[test]
fn words_are_identifiers_and_some_are_keywords() {
    let tokens = kinds_of("func _x9 extern _ pure Unsafe");
    assert_eq!(
        tokens,
        vec![word("func"), word("_x9"), word("extern"), word("_"), word("pure"), word("Unsafe")]
    );
    assert_eq!(tokens[0].as_keyword(), Some(Keyword::Function));
    assert_eq!(tokens[1].as_keyword(), None);
    assert_eq!(tokens[2].as_keyword(), Some(Keyword::External));
    assert_eq!(tokens[3].as_keyword(), Some(Keyword::DontCare));
    assert_eq!(tokens[4].as_keyword(), Some(Keyword::Pure));
    assert_eq!(tokens[5].as_keyword(), None);
    assert!(tokens[0].is_keyword(Keyword::Function));
    assert!(!tokens[0].is_keyword(Keyword::Return));
    assert_eq!(word("return").as_keyword(), Some(Keyword::Return));
    assert_eq!(word("yield").as_keyword(), Some(Keyword::Yield));
    assert_eq!(word("unsafe").as_keyword(), Some(Keyword::Unsafe));
    assert_eq!(word("let").as_keyword(), Some(Keyword::Let));
    assert_eq!(word("mut").as_keyword(), Some(Keyword::Mut));
    assert_eq!(Token::Operator(Operator::Plus).as_keyword(), None);
}

#[test]
fn white_space_and_comments_are_skipped() {
    assert_eq!(kinds_of("a // b c\n\td /* e\n f */ g"), vec![word("a"), word("d"), word("g")]);
    assert_eq!(kinds_of("  \n\t "), vec![]);
    assert_eq!(kinds_of("a//"), vec![word("a")]);
    assert_eq!(kinds_of("/**/a"), vec![word("a")]);
}

#[test]
fn a_comment_that_does_not_end_is_an_operator() {
    assert_eq!(
        kinds_of("/* x"),
        vec![Token::Operator(Operator::Div), Token::Operator(Operator::Star), word("x")]
    );
}

#[test]
fn string_and_char_literals_keep_their_quotes() {
    assert_eq!(kinds_of("\"hi there\""), vec![Token::StringLiteral("\"hi there\"".to_string())]);
    assert_eq!(kinds_of("\"\""), vec![Token::StringLiteral("\"\"".to_string())]);
    assert_eq!(kinds_of("\"a\\\"b\" c"), vec![Token::StringLiteral("\"a\\\"b\"".to_string()), word("c")]);
    assert_eq!(kinds_of("\"a\\\""), vec![Token::StringLiteral("\"a\\\"".to_string())]);
    assert_eq!(kinds_of("'a' '\"'"), vec![
        Token::CharLiteral("'a'".to_string()),
        Token::CharLiteral("'\"'".to_string()),
    ]);
    assert_eq!(lex_clean("'é'"), vec![(Token::CharLiteral("'é'".to_string()), Span::new(0, 0, 4))]);
}

#[test]
fn text_that_is_no_token_is_reported_and_skipped() {
    let mut sink = Diagnostics::new();
    let tokens = lex("é = #1 \"open", 0, &mut sink);
    assert_eq!(
        tokens,
        vec![
            (Token::AssignmentOp(AssignmentOp::Assign), Span::new(0, 3, 4)),
            (number("1", NumberLiteralKind::Decimal, None), Span::new(0, 6, 7)),
            (word("open"), Span::new(0, 9, 13)),
        ]
    );
    let spans: Vec<Span> =
        own_diagnostics(&sink).iter().map(|d| d.labels[0].span).collect();
    assert_eq!(spans, vec![Span::new(0, 0, 2), Span::new(0, 5, 6), Span::new(0, 8, 9)]);
    assert!(own_diagnostics(&sink).iter().all(|d| d.message == "could not parse token"));
}

#[test]
fn suffixes_state_types() {
    assert_eq!(parse_suffix("i"), int_ty(None, true));
    assert_eq!(parse_suffix("u"), int_ty(None, false));
    assert_eq!(parse_suffix("iz"), int_ty(Some(None), true));
    assert_eq!(parse_suffix("u16"), int_ty(Some(Some(16)), false));
    assert_eq!(parse_suffix("f"), float_ty(None));
    assert_eq!(parse_suffix("p64"), float_ty(Some(64)));
    assert_eq!(parse_suffix("f256"), None);
    assert_eq!(parse_suffix(""), None);
    assert_eq!(parse_suffix("x8"), None);
    assert_eq!(parse_suffix("izz"), None);
    assert_eq!(parse_suffix("i4294967296"), None);
}

#[test]
fn captures_become_literals() {
    let some = |s: &str| Some(s.to_string());
    let plain = Some(vec![some("12u8"), some("12"), some("u8"), None, None]);
    assert_eq!(
        number_literal_from_captures(&plain),
        Some(NumberLiteral {
            value: "12".to_string(),
            kind: NumberLiteralKind::Decimal,
            ty: int_ty(Some(Some(8)), false),
        })
    );
    let hex = Some(vec![some("0xff"), None, None, some("0xff"), None]);
    assert_eq!(
        number_literal_from_captures(&hex),
        Some(NumberLiteral { value: "0xff".to_string(), kind: NumberLiteralKind::Hex, ty: None })
    );
    let binary = Some(vec![some("0b1"), some("0b1"), None, None, None]);
    assert_eq!(
        number_literal_from_captures(&binary),
        Some(NumberLiteral { value: "0b1".to_string(), kind: NumberLiteralKind::Binary, ty: None })
    );
    let octal = Some(vec![some("0o7"), some("0o7"), None, None, None]);
    assert_eq!(
        number_literal_from_captures(&octal),
        Some(NumberLiteral { value: "0o7".to_string(), kind: NumberLiteralKind::Octal, ty: None })
    );
    assert_eq!(number_literal_from_captures(&None), None);
    assert_eq!(number_literal_from_captures(&Some(vec![some("1")])), None);
    let no_digits = Some(vec![some(""), None, None, None, None]);
    assert_eq!(number_literal_from_captures(&no_digits), None);
    let bad_suffix = Some(vec![some("1q"), some("1"), some("q"), None, None]);
    assert_eq!(number_literal_from_captures(&bad_suffix), None);
}

#[test]
fn tokens_and_literals_are_written_as_in_source() {
    assert_eq!(word("abc").to_string(), "abc");
    assert_eq!(Token::Operator(Operator::Neg).to_string(), "-");
    assert_eq!(Token::AssignmentOp(AssignmentOp::Assign).to_string(), "=");
    assert_eq!(Token::Punctuation(Punctuation::FatArrow).to_string(), "=>");
    assert_eq!(Token::Punctuation(Punctuation::LBrace).to_string(), "{");
    assert_eq!(number("12", NumberLiteralKind::Decimal, int_ty(Some(Some(8)), false)).to_string(), "12(u8)");
    assert_eq!(number("12", NumberLiteralKind::Decimal, int_ty(None, false)).to_string(), "12(uint)");
    assert_eq!(number("12", NumberLiteralKind::Decimal, int_ty(None, true)).to_string(), "12(int)");
    assert_eq!(number("12", NumberLiteralKind::Decimal, int_ty(Some(None), true)).to_string(), "12(isize)");
    assert_eq!(number("1.5", NumberLiteralKind::Decimal, float_ty(None)).to_string(), "1.5(float)");
    assert_eq!(number("1.5", NumberLiteralKind::Decimal, float_ty(Some(64))).to_string(), "1.5(f64)");
    assert_eq!(number("7", NumberLiteralKind::Decimal, None).to_string(), "7");
    assert_eq!(NumberLiteralKind::Hex.to_string(), "Hex");
    assert!(int_ty(Some(None), true).unwrap().has_bits());
    assert!(!int_ty(None, true).unwrap().has_bits());
    assert!(float_ty(Some(16)).unwrap().has_bits());
    assert!(!float_ty(None).unwrap().has_bits());
}

#[test]
fn without_the_pattern_no_number_is_read() {
    let chars: Vec<char> = "x = 12;".chars().collect();
    let mut sink = Diagnostics::new();
    let tokens = frontend::lexer::lex_with(&chars, 3, &None, &mut sink);
    assert_eq!(
        tokens,
        vec![
            (word("x"), Span::new(3, 0, 1)),
            (Token::AssignmentOp(AssignmentOp::Assign), Span::new(3, 2, 3)),
            (Token::Punctuation(Punctuation::Semicolon), Span::new(3, 6, 7)),
        ]
    );
    let reported = frontend::common::diagnostics::own_diagnostics(&sink);
    assert_eq!(reported.len(), 1);
    assert_eq!(reported[0].message, "could not parse token");
    assert_eq!(reported[0].labels[0].span, Span::new(3, 4, 6));

    let re = regex::Regex::new(frontend::lexer::NUMBER_PATTERN).unwrap();
    let mut sink = Diagnostics::new();
    let tokens = frontend::lexer::lex_with(&chars, 3, &Some(re), &mut sink);
    assert_eq!(tokens.len(), 4);
    assert_eq!(tokens[2], (number("12", NumberLiteralKind::Decimal, None), Span::new(3, 4, 6)));
    assert_eq!(sink.len(), 0);
}
