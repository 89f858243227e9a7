use tbx::lexer::{Lexer, Position, SpannedToken, Token, TOK_DELIM, TOK_ID, TOK_NUM, TOK_OP, TOK_STR};

fn tokens(src: &str) -> Vec<Token> {
    let mut lex = Lexer::new(src);
    let mut result = Vec::new();
    loop {
        let t = lex.next_token();
        let done = t.token == Token::Eof;
        result.push(t.token);
        if done {
            break;
        }
    }
    result
}

fn spanned(src: &str) -> Vec<SpannedToken> {
    let mut lex = Lexer::new(src);
    let mut result = Vec::new();
    loop {
        let t = lex.next_token();
        let done = t.token == Token::Eof;
        result.push(t);
        if done {
            break;
        }
    }
    result
}

#[test]
fn test_kind_code_ident() {
    assert_eq!(Token::Ident("X".to_string()).kind_code(), Some(TOK_ID));
}

#[test]
fn test_kind_code_intlit() {
    assert_eq!(Token::IntLit(42).kind_code(), Some(TOK_NUM));
}

#[test]
fn test_kind_code_floatlit() {
    assert_eq!(Token::FloatLit("1.25".to_string()).kind_code(), Some(TOK_NUM));
}

#[test]
fn test_kind_code_op() {
    assert_eq!(Token::Op("+".to_string()).kind_code(), Some(TOK_OP));
}

#[test]
fn test_kind_code_comma() {
    assert_eq!(Token::Comma.kind_code(), Some(TOK_OP));
}

#[test]
fn test_kind_code_ampersand() {
    assert_eq!(Token::Ampersand.kind_code(), Some(TOK_OP));
}

#[test]
fn test_kind_code_lparen() {
    assert_eq!(Token::LParen.kind_code(), Some(TOK_OP));
}

#[test]
fn test_kind_code_rparen() {
    assert_eq!(Token::RParen.kind_code(), Some(TOK_OP));
}

#[test]
fn test_kind_code_semicolon() {
    assert_eq!(Token::Semicolon.kind_code(), Some(TOK_DELIM));
}

#[test]
fn test_kind_code_string() {
    assert_eq!(Token::StringLit("x".to_string()).kind_code(), Some(TOK_STR));
}

#[test]
fn test_kind_code_outer_only_tokens_return_none() {
    assert_eq!(Token::Newline.kind_code(), None);
    assert_eq!(Token::Eof.kind_code(), None);
    assert_eq!(Token::Error("x".to_string()).kind_code(), None);
    assert_eq!(Token::LineNum(10).kind_code(), None);
}

#[test]
fn test_ident_simple() {
    assert_eq!(
        tokens("PUTDEC"),
        vec![Token::Ident("PUTDEC".to_string()), Token::Eof]
    );
}

#[test]
fn test_ident_with_digits_and_underscore() {
    assert_eq!(
        tokens("MY_VAR2"),
        vec![Token::Ident("MY_VAR2".to_string()), Token::Eof]
    );
}

#[test]
fn test_intlit_simple() {
    // A number that is NOT at line start should be IntLit.
    assert_eq!(
        tokens("X 42"),
        vec![Token::Ident("X".to_string()), Token::IntLit(42), Token::Eof]
    );
}

#[test]
fn test_intlit_zero() {
    assert_eq!(
        tokens("X 0"),
        vec![Token::Ident("X".to_string()), Token::IntLit(0), Token::Eof]
    );
}

#[test]
fn test_string_simple() {
    assert_eq!(
        tokens(r#""Hello""#),
        vec![Token::StringLit("Hello".to_string()), Token::Eof]
    );
}

#[test]
fn test_string_escape_newline() {
    assert_eq!(
        tokens(r#""\n""#),
        vec![Token::StringLit("\n".to_string()), Token::Eof]
    );
}

#[test]
fn test_string_escape_tab() {
    assert_eq!(
        tokens(r#""\t""#),
        vec![Token::StringLit("\t".to_string()), Token::Eof]
    );
}

#[test]
fn test_string_escape_backslash() {
    assert_eq!(
        tokens(r#""\\""#),
        vec![Token::StringLit("\\".to_string()), Token::Eof]
    );
}

#[test]
fn test_string_escape_quote() {
    assert_eq!(
        tokens(r#""\"""#),
        vec![Token::StringLit("\"".to_string()), Token::Eof]
    );
}

#[test]
fn test_string_unterminated() {
    let toks = tokens("\"Hello");
    assert!(matches!(toks[0], Token::Error(_)));
}

#[test]
fn test_op_plus() {
    assert_eq!(tokens("+"), vec![Token::Op("+".to_string()), Token::Eof]);
}

#[test]
fn test_op_lt() {
    assert_eq!(tokens("<"), vec![Token::Op("<".to_string()), Token::Eof]);
}

#[test]
fn test_op_le() {
    assert_eq!(tokens("<="), vec![Token::Op("<=".to_string()), Token::Eof]);
}

#[test]
fn test_op_neq() {
    assert_eq!(tokens("<>"), vec![Token::Op("<>".to_string()), Token::Eof]);
}

#[test]
fn test_op_ge() {
    assert_eq!(tokens(">="), vec![Token::Op(">=".to_string()), Token::Eof]);
}

#[test]
fn test_op_logical_and() {
    assert_eq!(tokens("&&"), vec![Token::Op("&&".to_string()), Token::Eof]);
}

#[test]
fn test_op_logical_or() {
    assert_eq!(tokens("||"), vec![Token::Op("||".to_string()), Token::Eof]);
}

#[test]
fn test_op_bitwise_or() {
    assert_eq!(tokens("|"), vec![Token::Op("|".to_string()), Token::Eof]);
}

#[test]
fn test_ampersand_single() {
    assert_eq!(tokens("&"), vec![Token::Ampersand, Token::Eof]);
}

#[test]
fn test_ampersand_double_is_logical_and() {
    assert_eq!(tokens("&&"), vec![Token::Op("&&".to_string()), Token::Eof]);
}

#[test]
fn test_ampersand_before_ident() {
    assert_eq!(
        tokens("&I"),
        vec![Token::Ampersand, Token::Ident("I".to_string()), Token::Eof]
    );
}

#[test]
fn test_comma() {
    assert_eq!(tokens(","), vec![Token::Comma, Token::Eof]);
}

#[test]
fn test_semicolon() {
    assert_eq!(tokens(";"), vec![Token::Semicolon, Token::Eof]);
}

#[test]
fn test_parens() {
    assert_eq!(tokens("()"), vec![Token::LParen, Token::RParen, Token::Eof]);
}

#[test]
fn test_linenum_at_line_start() {
    assert_eq!(
        tokens("10 PUTDEC 42"),
        vec![
            Token::LineNum(10),
            Token::Ident("PUTDEC".to_string()),
            Token::IntLit(42),
            Token::Eof,
        ]
    );
}

#[test]
fn test_intlit_not_at_line_start() {
    // The first token on the line is an identifier, so the number after it is IntLit.
    assert_eq!(
        tokens("PUTDEC 42"),
        vec![
            Token::Ident("PUTDEC".to_string()),
            Token::IntLit(42),
            Token::Eof,
        ]
    );
}

#[test]
fn test_linenum_at_second_line() {
    // After a Newline, at_line_start resets, so `99` on the second line is also LineNum.
    let toks = tokens("PUTDEC 1\n99 PUTDEC 2");
    assert_eq!(
        toks,
        vec![
            Token::Ident("PUTDEC".to_string()),
            Token::IntLit(1),
            Token::Newline,
            Token::LineNum(99),
            Token::Ident("PUTDEC".to_string()),
            Token::IntLit(2),
            Token::Eof,
        ]
    );
}

#[test]
fn test_linenum_with_leading_spaces() {
    // Leading spaces do not break at_line_start.
    let toks = tokens("  10  PUTDEC");
    assert_eq!(
        toks,
        vec![
            Token::LineNum(10),
            Token::Ident("PUTDEC".to_string()),
            Token::Eof,
        ]
    );
}

#[test]
fn test_rem_skips_to_newline() {
    let toks = tokens("REM this is a comment\nPUTDEC 1");
    assert_eq!(
        toks,
        vec![
            Token::Ident("REM".to_string()),
            Token::Newline,
            Token::Ident("PUTDEC".to_string()),
            Token::IntLit(1),
            Token::Eof,
        ]
    );
}

#[test]
fn test_rem_at_end_of_input() {
    let toks = tokens("REM no newline at end");
    // REM is emitted, then next_token_inner skips rest and emits Newline, then Eof.
    assert_eq!(
        toks,
        vec![Token::Ident("REM".to_string()), Token::Newline, Token::Eof,]
    );
}

#[test]
fn test_rem_with_linenum_before() {
    let toks = tokens("10 REM a comment");
    assert_eq!(
        toks,
        vec![
            Token::LineNum(10),
            Token::Ident("REM".to_string()),
            Token::Newline,
            Token::Eof,
        ]
    );
}

#[test]
fn test_newline_lf() {
    assert_eq!(
        tokens("A\nB"),
        vec![
            Token::Ident("A".to_string()),
            Token::Newline,
            Token::Ident("B".to_string()),
            Token::Eof,
        ]
    );
}

#[test]
fn test_newline_crlf_counts_as_one() {
    assert_eq!(
        tokens("A\r\nB"),
        vec![
            Token::Ident("A".to_string()),
            Token::Newline,
            Token::Ident("B".to_string()),
            Token::Eof,
        ]
    );
}

#[test]
fn test_empty_input() {
    assert_eq!(tokens(""), vec![Token::Eof]);
}

#[test]
fn test_whitespace_only() {
    assert_eq!(tokens("   "), vec![Token::Eof]);
}

#[test]
fn test_position_first_token() {
    let st = spanned("PUTDEC");
    assert_eq!(st[0].pos, Position::new(1, 1));
}

#[test]
fn test_position_after_space() {
    let st = spanned("A B");
    assert_eq!(st[1].pos, Position::new(1, 3));
}

#[test]
fn test_position_second_line() {
    let st = spanned("A\nB");
    // 'B' is on line 2, col 1.
    assert_eq!(st[2].pos, Position::new(2, 1));
}

#[test]
fn test_source_offset_first_token() {
    let st = spanned("HELLO");
    assert_eq!(st[0].source_offset, 0);
    assert_eq!(st[0].source_len, 5);
}

#[test]
fn test_source_offset_after_space() {
    let st = spanned("A B");
    assert_eq!(st[1].source_offset, 2);
    assert_eq!(st[1].source_len, 1);
}

#[test]
fn test_source_offset_string_includes_quotes() {
    let st = spanned(r#""hi""#);
    // Raw text is `"hi"` = 4 bytes.
    assert_eq!(st[0].source_len, 4);
}

#[test]
fn test_peek_idempotent() {
    let mut lex = Lexer::new("ABC");
    let p1 = lex.peek_token().token.clone();
    let p2 = lex.peek_token().token.clone();
    assert_eq!(p1, p2);
}

#[test]
fn test_peek_then_next_same_token() {
    let mut lex = Lexer::new("ABC");
    let p = lex.peek_token().token.clone();
    let n = lex.next_token().token;
    assert_eq!(p, n);
}

#[test]
fn test_full_statement_putdec() {
    assert_eq!(
        tokens("PUTDEC 1 + 2"),
        vec![
            Token::Ident("PUTDEC".to_string()),
            Token::IntLit(1),
            Token::Op("+".to_string()),
            Token::IntLit(2),
            Token::Eof,
        ]
    );
}

#[test]
fn test_multi_arg_statement() {
    assert_eq!(
        tokens("PLOT X, Y, COLOR"),
        vec![
            Token::Ident("PLOT".to_string()),
            Token::Ident("X".to_string()),
            Token::Comma,
            Token::Ident("Y".to_string()),
            Token::Comma,
            Token::Ident("COLOR".to_string()),
            Token::Eof,
        ]
    );
}

#[test]
fn test_reference_operator() {
    assert_eq!(
        tokens("LET &I, 42"),
        vec![
            Token::Ident("LET".to_string()),
            Token::Ampersand,
            Token::Ident("I".to_string()),
            Token::Comma,
            Token::IntLit(42),
            Token::Eof,
        ]
    );
}

#[test]
fn test_function_call_syntax() {
    assert_eq!(
        tokens("MYFUNC(1, 2)"),
        vec![
            Token::Ident("MYFUNC".to_string()),
            Token::LParen,
            Token::IntLit(1),
            Token::Comma,
            Token::IntLit(2),
            Token::RParen,
            Token::Eof,
        ]
    );
}

#[test]
fn test_intlit_overflow_yields_error() {
    let toks = tokens("X 99999999999999999999");
    assert!(
        matches!(toks[1], Token::Error(_)),
        "expected Error, got {:?}",
        toks[1]
    );
}

#[test]
fn test_linenum_overflow_yields_error() {
    let toks = tokens("99999999999999999999 PRINT");
    assert!(
        matches!(toks[0], Token::Error(_)),
        "expected Error, got {:?}",
        toks[0]
    );
}

#[test]
fn test_float_at_line_start_yields_error() {
    let toks = tokens("1.25 X");
    assert!(
        matches!(toks[0], Token::Error(_)),
        "expected Error, got {:?}",
        toks[0]
    );
}
