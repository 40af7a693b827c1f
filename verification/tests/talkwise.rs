use talkwise::compiler::{file_name_to_id, Compiler, NumericConstant};
use talkwise::error::TalkError;
use talkwise::lexer::{Lexer, Span, Token, TokenContents};
use talkwise::parsed_types::{ParsedExpression, ParsedStatement};
use talkwise::parser::Parser;

fn lex_str(src: &str) -> Vec<Token> {
    let id = file_name_to_id("test.talk");
    let mut lexer = Lexer::new(id, "test.talk".to_string(), src.as_bytes().to_vec());
    lexer.lex()
}

fn parse_str(src: &str) -> Result<talkwise::parsed_types::ParsedProgram, TalkError> {
    let id = file_name_to_id("test.talk");
    let mut lexer = Lexer::new(id, "test.talk".to_string(), src.as_bytes().to_vec());
    let tokens = lexer.lex();
    let mut parser = Parser::new(id, "test.talk".to_string(), tokens);
    parser.parse()
}

#[test]
fn file_id_of_empty_path_is_zero() {
    assert_eq!(file_name_to_id(""), 0);
}

#[test]
fn file_id_is_base31_rolling_hash() {
    assert_eq!(file_name_to_id("a"), 97);
    assert_eq!(file_name_to_id("Aa"), 2112);
    assert_eq!(file_name_to_id("hello"), 99162322);
}

#[test]
fn file_id_sign_extends_high_hashes() {
    assert_eq!(file_name_to_id("test.talk"), 18446744072484172936);
    assert_eq!(file_name_to_id("main.talk"), 18446744073413268417);
}

#[test]
fn distinct_paths_may_collide() {
    assert_ne!("Aa", "BB");
    assert_eq!(file_name_to_id("Aa"), file_name_to_id("BB"));
}

#[test]
fn colliding_file_ids_do_not_cross_contaminate() {
    let id_a = file_name_to_id("Aa");
    let id_b = file_name_to_id("BB");
    assert_eq!(id_a, id_b);

    let mut lexer_a = Lexer::new(id_a, "Aa".to_string(), b"fun first() -> i32 { }".to_vec());
    let tokens_a = lexer_a.lex();
    let mut lexer_b = Lexer::new(id_b, "BB".to_string(), b"fun second() -> i32 { }".to_vec());
    let tokens_b = lexer_b.lex();

    let mut parser_a = Parser::new(id_a, "Aa".to_string(), tokens_a);
    let program_a = parser_a.parse().unwrap();
    let mut parser_b = Parser::new(id_b, "BB".to_string(), tokens_b);
    let program_b = parser_b.parse().unwrap();

    assert_eq!(program_a.functions.len(), 1);
    assert_eq!(program_b.functions.len(), 1);
    assert_eq!(program_a.functions[0].name, "first");
    assert_eq!(program_b.functions[0].name, "second");
}

#[test]
fn lex_ends_with_single_zero_width_eof() {
    let src = b"\x00\x01abc 12 +\xff";
    let id = 7;
    let mut lexer = Lexer::new(id, "junk".to_string(), src.to_vec());
    let tokens = lexer.lex();
    let eof_count = tokens
        .iter()
        .filter(|t| matches!(t.contents, TokenContents::EOF))
        .count();
    assert_eq!(eof_count, 1);
    let last = tokens.last().unwrap();
    assert!(matches!(last.contents, TokenContents::EOF));
    assert_eq!(last.span.start, src.len());
    assert_eq!(last.span.end, src.len());
    assert_eq!(last.span.file_id, id);
}

#[test]
fn lex_of_empty_input_is_one_eof() {
    let tokens = lex_str("");
    assert_eq!(tokens.len(), 1);
    assert!(matches!(tokens[0].contents, TokenContents::EOF));
    assert_eq!(tokens[0].span, Span::new(file_name_to_id("test.talk"), 0, 0));
}

#[test]
fn lex_of_whitespace_only_is_one_eof() {
    let tokens = lex_str(" \t\r\n");
    assert_eq!(tokens.len(), 1);
    assert!(matches!(tokens[0].contents, TokenContents::EOF));
    assert_eq!(tokens[0].span.start, 4);
    assert_eq!(tokens[0].span.end, 4);
}

#[test]
fn token_spans_reconstruct_input_minus_whitespace() {
    let src = "fun  x";
    let tokens = lex_str(src);
    let mut rebuilt = Vec::new();
    for t in &tokens {
        rebuilt.extend_from_slice(&src.as_bytes()[t.span.start..t.span.end]);
    }
    assert_eq!(rebuilt, b"funx");
}

#[test]
fn keywords_are_classified() {
    let tokens = lex_str("fun let if else while for return true false mut other");
    let kinds: Vec<&TokenContents> = tokens.iter().map(|t| &t.contents).collect();
    assert!(matches!(kinds[0], TokenContents::Fun));
    assert!(matches!(kinds[1], TokenContents::Let));
    assert!(matches!(kinds[2], TokenContents::If));
    assert!(matches!(kinds[3], TokenContents::Else));
    assert!(matches!(kinds[4], TokenContents::While));
    assert!(matches!(kinds[5], TokenContents::For));
    assert!(matches!(kinds[6], TokenContents::Return));
    assert!(matches!(kinds[7], TokenContents::True));
    assert!(matches!(kinds[8], TokenContents::False));
    assert!(matches!(kinds[9], TokenContents::Mut));
    match kinds[10] {
        TokenContents::Identifier(s) => assert_eq!(s, "other"),
        other => panic!("expected identifier, got {:?}", other),
    }
    assert!(matches!(kinds[11], TokenContents::EOF));
}

#[test]
fn identifier_spans_cover_their_text() {
    let tokens = lex_str("alpha beta_2");
    assert_eq!(tokens[0].span.start, 0);
    assert_eq!(tokens[0].span.end, 5);
    assert_eq!(tokens[1].span.start, 6);
    assert_eq!(tokens[1].span.end, 12);
    match &tokens[1].contents {
        TokenContents::Identifier(s) => assert_eq!(s, "beta_2"),
        other => panic!("expected identifier, got {:?}", other),
    }
}

#[test]
fn punctuation_tokens() {
    let tokens = lex_str("; ( ) { } + = , : -");
    assert!(matches!(tokens[0].contents, TokenContents::Semicolon));
    assert!(matches!(tokens[1].contents, TokenContents::LParen));
    assert!(matches!(tokens[2].contents, TokenContents::RParen));
    assert!(matches!(tokens[3].contents, TokenContents::LBrace));
    assert!(matches!(tokens[4].contents, TokenContents::RBrace));
    assert!(matches!(tokens[5].contents, TokenContents::Plus));
    assert!(matches!(tokens[6].contents, TokenContents::Equal));
    assert!(matches!(tokens[7].contents, TokenContents::Comma));
    assert!(matches!(tokens[8].contents, TokenContents::Colon));
    assert!(matches!(tokens[9].contents, TokenContents::Minus));
    assert!(matches!(tokens[10].contents, TokenContents::EOF));
}

#[test]
fn thin_arrow_is_two_bytes() {
    let tokens = lex_str("->");
    assert!(matches!(tokens[0].contents, TokenContents::ThinArrow));
    assert_eq!(tokens[0].span.start, 0);
    assert_eq!(tokens[0].span.end, 2);
    assert!(matches!(tokens[1].contents, TokenContents::EOF));
}

#[test]
fn minus_without_arrow_stays_minus() {
    let tokens = lex_str("a-b");
    assert!(matches!(tokens[1].contents, TokenContents::Minus));
    let tokens = lex_str("- >");
    assert!(matches!(tokens[0].contents, TokenContents::Minus));
    assert!(matches!(tokens[1].contents, TokenContents::Garbage));
    let tokens = lex_str("-");
    assert!(matches!(tokens[0].contents, TokenContents::Minus));
    assert_eq!(tokens[0].span.end, 1);
}

#[test]
fn numbers_lex_to_platform_size_unsigned() {
    let tokens = lex_str("12+34");
    assert_eq!(
        tokens[0].contents,
        TokenContents::Number(NumericConstant::USize(12))
    );
    assert_eq!(tokens[0].span, Span::new(file_name_to_id("test.talk"), 0, 2));
    assert!(matches!(tokens[1].contents, TokenContents::Plus));
    assert_eq!(
        tokens[2].contents,
        TokenContents::Number(NumericConstant::USize(34))
    );
    assert_eq!(tokens[2].span.start, 3);
    assert_eq!(tokens[2].span.end, 5);
}

#[test]
fn number_span_covers_the_digit_run() {
    let tokens = lex_str("007");
    assert_eq!(
        tokens[0].contents,
        TokenContents::Number(NumericConstant::USize(7))
    );
    assert_eq!(tokens[0].span.start, 0);
    assert_eq!(tokens[0].span.end, 3);
}

#[test]
fn number_value_is_reduced_to_64_bits() {
    let tokens = lex_str("18446744073709551615");
    assert_eq!(
        tokens[0].contents,
        TokenContents::Number(NumericConstant::USize(u64::MAX))
    );
    let tokens = lex_str("18446744073709551616");
    assert_eq!(
        tokens[0].contents,
        TokenContents::Number(NumericConstant::USize(0))
    );
}

#[test]
fn string_literal_span_excludes_quotes() {
    let tokens = lex_str("\"a b\"c");
    match &tokens[0].contents {
        TokenContents::String(s) => assert_eq!(s, "a b"),
        other => panic!("expected string, got {:?}", other),
    }
    assert_eq!(tokens[0].span.start, 1);
    assert_eq!(tokens[0].span.end, 4);
    match &tokens[1].contents {
        TokenContents::Identifier(s) => assert_eq!(s, "c"),
        other => panic!("expected identifier, got {:?}", other),
    }
}

#[test]
fn unterminated_string_consumes_to_end_of_input() {
    let tokens = lex_str("\"abc");
    assert_eq!(tokens.len(), 2);
    match &tokens[0].contents {
        TokenContents::String(s) => assert_eq!(s, "abc"),
        other => panic!("expected string, got {:?}", other),
    }
    assert_eq!(tokens[0].span.start, 1);
    assert_eq!(tokens[0].span.end, 4);
    assert!(matches!(tokens[1].contents, TokenContents::EOF));
    assert_eq!(tokens[1].span.start, 4);
    assert_eq!(tokens[1].span.end, 4);
}

#[test]
fn unrecognized_bytes_become_garbage_tokens() {
    let tokens = lex_str("@");
    assert!(matches!(tokens[0].contents, TokenContents::Garbage));
    assert_eq!(tokens[0].span.start, 0);
    assert_eq!(tokens[0].span.end, 1);
    assert!(matches!(tokens[1].contents, TokenContents::EOF));
}

#[test]
fn token_unknown_builds_a_garbage_token() {
    let t = Token::unknown(Span::new(3, 1, 2));
    assert!(matches!(t.contents, TokenContents::Garbage));
    assert_eq!(t.span, Span::new(3, 1, 2));
}

#[test]
fn token_contents_compare_by_content() {
    assert_eq!(
        TokenContents::Identifier("x".to_string()),
        TokenContents::Identifier("x".to_string())
    );
    assert_ne!(
        TokenContents::Identifier("x".to_string()),
        TokenContents::Identifier("y".to_string())
    );
    assert_eq!(TokenContents::Fun, TokenContents::Fun);
    assert_ne!(TokenContents::Fun, TokenContents::Let);
    assert_ne!(
        TokenContents::Identifier("fun".to_string()),
        TokenContents::Fun
    );
}

#[test]
fn merge_produces_the_minimal_covering_span() {
    let a = Span::new(9, 1, 5);
    let b = Span::new(9, 3, 9);
    assert_eq!(a.merge(&b), Span::new(9, 1, 9));
    let inner = Span::new(9, 2, 3);
    let outer = Span::new(9, 0, 10);
    assert_eq!(inner.merge(&outer), outer);
}

#[test]
fn merge_is_commutative_and_associative() {
    let a = Span::new(4, 7, 9);
    let b = Span::new(4, 2, 3);
    let c = Span::new(4, 5, 20);
    assert_eq!(a.merge(&b), b.merge(&a));
    assert_eq!(a.merge(&b).merge(&c), a.merge(&b.merge(&c)));
}

#[test]
fn minimal_function_round_trips() {
    let src = "fun f() -> i32 { return 42 }";
    let id = file_name_to_id("test.talk");
    let program = parse_str(src).unwrap();
    assert_eq!(program.functions.len(), 1);
    let f = &program.functions[0];
    assert_eq!(f.name, "f");
    assert_eq!(f.name_span, Span::new(id, 4, 5));
    assert_eq!(f.block.statements.len(), 1);
    match &f.block.statements[0] {
        ParsedStatement::Return(expr, span) => {
            match expr {
                ParsedExpression::NumericLiteral(n, nspan) => {
                    assert_eq!(*n, NumericConstant::USize(42));
                    assert_eq!(*nspan, Span::new(id, 24, 26));
                }
                other => panic!("expected numeric literal, got {:?}", other),
            }
            // the statement's span merges the return keyword's span with
            // the expression's span
            assert_eq!(*span, Span::new(id, 17, 26));
        }
    }
}

#[test]
fn statement_and_expression_spans_agree() {
    let src = "fun f() -> i32 { return 42 }";
    let program = parse_str(src).unwrap();
    let statement = &program.functions[0].block.statements[0];
    let ParsedStatement::Return(expr, _) = statement;
    assert_eq!(statement.span(), Span::new(file_name_to_id("test.talk"), 17, 26));
    assert_eq!(expr.span(), Span::new(file_name_to_id("test.talk"), 24, 26));
}

#[test]
fn identifier_expression_is_a_parse_error() {
    let src = "fun f(x: i32) -> i32 { return x }";
    let id = file_name_to_id("test.talk");
    match parse_str(src) {
        Err(TalkError::ParserError(message, span)) => {
            assert_eq!(message, "Unknown expression");
            assert_eq!(span, Span::new(id, 30, 31));
        }
        other => panic!("expected a parser error, got {:?}", other.map(|p| p.functions.len())),
    }
}

#[test]
fn parameters_are_accepted_and_type_checked_against_i32() {
    let program = parse_str("fun f(mut a: i32, b: i32) -> i32 { return 5 }").unwrap();
    assert_eq!(program.functions.len(), 1);
    assert_eq!(program.functions[0].block.statements.len(), 1);
}

#[test]
fn wrong_parameter_type_name_is_a_mismatch_error() {
    match parse_str("fun f(a: i64) -> i32 { }") {
        Err(TalkError::ParserError(message, _)) => {
            assert_eq!(message, "Expected token identifier, found identifier");
        }
        other => panic!("expected a parser error, got {:?}", other.map(|p| p.functions.len())),
    }
}

#[test]
fn unknown_top_level_token_is_fatal() {
    let id = file_name_to_id("test.talk");
    match parse_str("let x") {
        Err(TalkError::ParserError(message, span)) => {
            assert_eq!(message, "Unknown token");
            assert_eq!(span, Span::new(id, 0, 3));
        }
        other => panic!("expected a parser error, got {:?}", other.map(|p| p.functions.len())),
    }
}

#[test]
fn missing_function_name_is_fatal() {
    match parse_str("fun (") {
        Err(TalkError::ParserError(message, span)) => {
            assert_eq!(message, "Expected identifier");
            assert_eq!(span.start, 4);
            assert_eq!(span.end, 5);
        }
        other => panic!("expected a parser error, got {:?}", other.map(|p| p.functions.len())),
    }
}

#[test]
fn unknown_statement_is_fatal() {
    match parse_str("fun f() -> i32 { let }") {
        Err(TalkError::ParserError(message, _)) => {
            assert_eq!(message, "Unknown statement type");
        }
        other => panic!("expected a parser error, got {:?}", other.map(|p| p.functions.len())),
    }
}

#[test]
fn missing_closing_brace_fails_on_the_brace_match() {
    match parse_str("fun f() -> i32 { return 1") {
        Err(TalkError::ParserError(message, span)) => {
            assert_eq!(message, "Expected token }, found end of input");
            assert_eq!(span.start, 25);
            assert_eq!(span.end, 25);
        }
        other => panic!("expected a parser error, got {:?}", other.map(|p| p.functions.len())),
    }
}

#[test]
fn missing_arrow_names_both_tokens() {
    match parse_str("fun f() i32 { }") {
        Err(TalkError::ParserError(message, _)) => {
            assert_eq!(message, "Expected token ->, found identifier");
        }
        other => panic!("expected a parser error, got {:?}", other.map(|p| p.functions.len())),
    }
}

#[test]
fn empty_block_parses_to_zero_statements() {
    let program = parse_str("fun f() -> i32 { }").unwrap();
    assert_eq!(program.functions.len(), 1);
    assert_eq!(program.functions[0].block.statements.len(), 0);
}

#[test]
fn empty_input_parses_to_empty_program() {
    let program = parse_str("").unwrap();
    assert_eq!(program.functions.len(), 0);
}

#[test]
fn functions_keep_insertion_order() {
    let program = parse_str("fun a() -> i32 { } fun b() -> i32 { }").unwrap();
    assert_eq!(program.functions.len(), 2);
    assert_eq!(program.functions[0].name, "a");
    assert_eq!(program.functions[1].name, "b");
}

#[test]
fn compiler_compiles_every_registered_file() {
    let mut compiler = Compiler::new();
    compiler.add_file_contents(
        "one.talk".to_string(),
        b"fun a() -> i32 { return 1 }".to_vec(),
    );
    compiler.add_file_contents(
        "two.talk".to_string(),
        b"fun b() -> i32 { return 2 }".to_vec(),
    );
    let out = compiler.compile().unwrap();
    assert_eq!(out, "");
}

#[test]
fn compiler_returns_the_first_failing_files_error() {
    let mut compiler = Compiler::new();
    compiler.add_file_contents("good.talk".to_string(), b"fun a() -> i32 { }".to_vec());
    compiler.add_file_contents("bad.talk".to_string(), b"let x".to_vec());
    match compiler.compile() {
        Err(TalkError::ParserError(message, span)) => {
            assert_eq!(message, "Unknown token");
            assert_eq!(span.file_id, file_name_to_id("bad.talk"));
        }
        other => panic!("expected a parser error, got {:?}", other),
    }
}

#[test]
fn compiler_with_no_files_compiles_to_empty_output() {
    let mut compiler = Compiler::new();
    assert_eq!(compiler.compile().unwrap(), "");
}

#[test]
fn block_builders_set_the_given_span() {
    let b = talkwise::parsed_types::ParsedBlock::new_with_span(Span::new(1, 2, 3));
    assert_eq!(b.span, Span::new(1, 2, 3));
    assert_eq!(b.statements.len(), 0);
    let b2 = talkwise::parsed_types::ParsedBlock::new();
    assert_eq!(b2.span, Span::new(0, 0, 0));
    assert_eq!(b2.statements.len(), 0);
}

#[test]
fn fresh_ast_nodes_carry_zero_spans() {
    let f = talkwise::parsed_types::ParsedFunction::new();
    assert_eq!(f.name, "");
    assert_eq!(f.name_span, Span::new(0, 0, 0));
    assert_eq!(f.span, Span::new(0, 0, 0));
    assert_eq!(f.block.statements.len(), 0);
    let p = talkwise::parsed_types::ParsedProgram::new();
    assert_eq!(p.functions.len(), 0);
    assert_eq!(p.span, Span::new(0, 0, 0));
}

#[test]
fn io_errors_convert_into_the_error_taxonomy() {
    let e = std::io::Error::new(std::io::ErrorKind::NotFound, "File not found.");
    let t = TalkError::from(e);
    assert!(matches!(t, TalkError::IOError(_)));
}

#[test]
fn token_new_keeps_contents_and_span() {
    let t = Token::new(TokenContents::Plus, Span::new(5, 6, 7));
    assert_eq!(t.contents, TokenContents::Plus);
    assert_eq!(t.span, Span::new(5, 6, 7));
}
