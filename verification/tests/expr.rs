use tbx::cell::Cell;
use tbx::dict::{EntryKind, Prim, WordEntry};
use tbx::error::TbxError;
use tbx::expr::ExprCompiler;
use tbx::exec::init_vm;
use tbx::lexer::{Lexer, Position, SpannedToken, Token};
use tbx::vm::VM;

fn lex(src: &str) -> Vec<SpannedToken> {
    let mut lx = Lexer::new(src);
    let mut out = Vec::new();
    loop {
        let st = lx.next_token();
        match &st.token {
            Token::Eof | Token::Newline => break,
            _ => out.push(st),
        }
    }
    out
}

/// Build a VM with all system primitives registered.
fn make_vm() -> VM {
    init_vm()
}

#[test]
fn test_int_literal() {
    let mut vm = make_vm();
    let tokens = lex("42");
    let result = ExprCompiler::new().compile_expr(&vm, &tokens).unwrap();
    assert_eq!(result.len(), 2);
    let lit_xt = vm.lookup("LIT").unwrap();
    assert_eq!(result[0], Cell::Xt(lit_xt));
    assert_eq!(result[1], Cell::Int(42));
}

#[test]
fn test_precedence_mul_before_add() {
    let mut vm = make_vm();
    let tokens = lex("1 + 2 * 3");
    let result = ExprCompiler::new().compile_expr(&vm, &tokens).unwrap();

    let lit_xt = vm.lookup("LIT").unwrap();
    let mul_xt = vm.lookup("MUL").unwrap();
    let add_xt = vm.lookup("ADD").unwrap();

    // Expected RPN: LIT 1 LIT 2 LIT 3 MUL ADD
    assert_eq!(
        result,
        vec![
            Cell::Xt(lit_xt),
            Cell::Int(1),
            Cell::Xt(lit_xt),
            Cell::Int(2),
            Cell::Xt(lit_xt),
            Cell::Int(3),
            Cell::Xt(mul_xt),
            Cell::Xt(add_xt),
        ]
    );
}

#[test]
fn test_unary_minus() {
    let mut vm = make_vm();
    let tokens = lex("-1");
    let result = ExprCompiler::new().compile_expr(&vm, &tokens).unwrap();

    let lit_xt = vm.lookup("LIT").unwrap();
    let neg_xt = vm.lookup("NEGATE").unwrap();

    assert_eq!(
        result,
        vec![Cell::Xt(lit_xt), Cell::Int(1), Cell::Xt(neg_xt)]
    );
}

#[test]
fn test_global_variable_read() {
    let mut vm = make_vm();
    // Register a global variable "A" backed by dictionary slot 0.
    vm.dict_write(Cell::Int(0)).unwrap(); // allocate slot 0
    vm.register(WordEntry::new_variable("A", 0)).unwrap();

    let tokens = lex("A");
    let result = ExprCompiler::new().compile_expr(&vm, &tokens).unwrap();

    let lit_xt = vm.lookup("LIT").unwrap();
    let fetch_xt = vm.lookup("FETCH").unwrap();

    assert_eq!(result.len(), 3);
    assert_eq!(result[0], Cell::Xt(lit_xt));
    assert_eq!(result[1], Cell::DictAddr(0));
    assert_eq!(result[2], Cell::Xt(fetch_xt));
}

#[test]
fn test_address_of_variable() {
    let mut vm = make_vm();
    vm.dict_write(Cell::Int(0)).unwrap();
    vm.register(WordEntry::new_variable("A", 0)).unwrap();

    let tokens = lex("&A");
    let result = ExprCompiler::new().compile_expr(&vm, &tokens).unwrap();

    let lit_xt = vm.lookup("LIT").unwrap();

    // Should emit LIT DictAddr(0) — no FETCH
    assert_eq!(result.len(), 2);
    assert_eq!(result[0], Cell::Xt(lit_xt));
    assert_eq!(result[1], Cell::DictAddr(0));
}

#[test]
fn test_address_of_global_array_element() {
    let mut vm = make_vm();
    vm.dict_write(Cell::Int(0)).unwrap();
    vm.register(WordEntry::new_variable("A", 0)).unwrap();

    let tokens = lex("&A(2)");
    let result = ExprCompiler::new().compile_expr(&vm, &tokens).unwrap();

    let lit_xt = vm.lookup("LIT").unwrap();
    let fetch_xt = vm.lookup("FETCH").unwrap();
    let array_addr_xt = vm.lookup_hidden_system("ARRAY_ADDR").unwrap();

    assert_eq!(
        result,
        vec![
            Cell::Xt(lit_xt),
            Cell::DictAddr(0),
            Cell::Xt(fetch_xt),
            Cell::Xt(lit_xt),
            Cell::Int(2),
            Cell::Xt(array_addr_xt),
        ]
    );
}

#[test]
fn test_string_literal() {
    let mut vm = make_vm();
    let tokens = lex(r#""hello""#);
    let result = ExprCompiler::new().compile_expr(&vm, &tokens).unwrap();

    let lit_xt = vm.lookup("LIT").unwrap();

    assert_eq!(result.len(), 2);
    assert_eq!(result[0], Cell::Xt(lit_xt));
    // After #588, the literal is emitted as `Cell::Str(Rc<str>)` carrying
    // the literal content directly.
    assert_eq!(result[1], Cell::Str("hello".to_string()));
}

/// Ensure that string literal compilation emits a `Cell::Str` handle in
/// the compiled output (#539 Phase 2; payload changed to `Rc<str>` in
/// #588).

#[test]
fn test_string_literal_emits_str() {
    let mut vm = make_vm();
    let tokens = lex(r#""world""#);
    let result = ExprCompiler::new().compile_expr(&vm, &tokens).unwrap();
    let lit_xt = vm.lookup("LIT").unwrap();
    assert_eq!(result.len(), 2);
    assert_eq!(result[0], Cell::Xt(lit_xt));
    assert!(
        matches!(result[1], Cell::Str(_)),
        "string literal compilation must emit Cell::Str as the literal payload, got {result:?}"
    );
}

#[test]
fn test_function_call_two_args() {
    let mut vm = make_vm();

    // Register a dummy compiled word "F" pointing to dictionary offset 0.
    // (The content does not matter for compilation; we only need the Xt.)
    let f_xt = vm.register(WordEntry::new_word("F", 0)).unwrap();

    let tokens = lex("F(1, 2)");
    let result = ExprCompiler::new().compile_expr(&vm, &tokens).unwrap();

    let lit_xt = vm.lookup("LIT").unwrap();
    let call_xt = vm.lookup("CALL").unwrap();

    // Expected: LIT 1, LIT 2, CALL F 2 0
    assert_eq!(
        result,
        vec![
            Cell::Xt(lit_xt),
            Cell::Int(1),
            Cell::Xt(lit_xt),
            Cell::Int(2),
            Cell::Xt(call_xt),
            Cell::Xt(f_xt),
            Cell::Int(2),
            Cell::Int(0),
        ]
    );
}

#[test]
fn test_zero_arg_call() {
    let mut vm = make_vm();
    let f_xt = vm.register(WordEntry::new_word("F", 0)).unwrap();

    let tokens = lex("F()");
    let result = ExprCompiler::new().compile_expr(&vm, &tokens).unwrap();

    let call_xt = vm.lookup("CALL").unwrap();
    assert_eq!(
        result,
        vec![
            Cell::Xt(call_xt),
            Cell::Xt(f_xt),
            Cell::Int(0),
            Cell::Int(0),
        ]
    );
}

#[test]
fn test_double_unary_minus() {
    let mut vm = make_vm();
    let tokens = lex("--1");
    let result = ExprCompiler::new().compile_expr(&vm, &tokens).unwrap();

    let lit_xt = vm.lookup("LIT").unwrap();
    let neg_xt = vm.lookup("NEGATE").unwrap();

    // RPN: LIT 1 NEGATE NEGATE
    assert_eq!(
        result,
        vec![
            Cell::Xt(lit_xt),
            Cell::Int(1),
            Cell::Xt(neg_xt),
            Cell::Xt(neg_xt),
        ]
    );
}

#[test]
fn test_comparison_operator() {
    let mut vm = make_vm();
    let tokens = lex("1 < 2");
    let result = ExprCompiler::new().compile_expr(&vm, &tokens).unwrap();

    let lit_xt = vm.lookup("LIT").unwrap();
    let lt_xt = vm.lookup("LT").unwrap();

    assert_eq!(
        result,
        vec![
            Cell::Xt(lit_xt),
            Cell::Int(1),
            Cell::Xt(lit_xt),
            Cell::Int(2),
            Cell::Xt(lt_xt),
        ]
    );
}

#[test]
fn test_undefined_symbol_error() {
    let mut vm = make_vm();
    let tokens = lex("NOEXIST");
    let err = ExprCompiler::new().compile_expr(&vm, &tokens)
        .unwrap_err();
    assert!(matches!(err, TbxError::UndefinedSymbol { name } if name == "NOEXIST"));
}

#[test]
fn test_unmatched_lparen_error() {
    let mut vm = make_vm();
    let tokens = lex("(1 + 2");
    let err = ExprCompiler::new().compile_expr(&vm, &tokens)
        .unwrap_err();
    assert!(
        matches!(err, TbxError::InvalidExpression { reason } if reason.contains("unmatched '('")),
        "expected InvalidExpression for unmatched '(', got: {err:?}"
    );
}

#[test]
fn test_unmatched_rparen_error() {
    let mut vm = make_vm();
    let tokens = lex("1 + 2)");
    let err = ExprCompiler::new().compile_expr(&vm, &tokens)
        .unwrap_err();
    assert!(
        matches!(err, TbxError::InvalidExpression { reason } if reason.contains("unmatched ')'")),
        "expected InvalidExpression for unmatched ')', got: {err:?}"
    );
}

#[test]
fn test_unknown_operator_error() {
    // "!" is lexed as Op("!") but is not in binary_op_info.
    let mut vm = make_vm();
    let tokens = lex("1 ! 2");
    let err = ExprCompiler::new().compile_expr(&vm, &tokens)
        .unwrap_err();
    assert!(
        matches!(err, TbxError::InvalidExpression { .. }),
        "expected InvalidExpression for unknown operator, got: {err:?}"
    );
}

#[test]
fn test_binary_band_compiles() {
    // `1 & 3` should compile to: LIT 1 LIT 3 BAND
    let mut vm = make_vm();
    let tokens = lex("1 & 3");
    let result = ExprCompiler::new().compile_expr(&vm, &tokens).unwrap();

    let lit_xt = vm.lookup("LIT").unwrap();
    let band_xt = vm.lookup("BAND").unwrap();

    assert_eq!(
        result,
        vec![
            Cell::Xt(lit_xt),
            Cell::Int(1),
            Cell::Xt(lit_xt),
            Cell::Int(3),
            Cell::Xt(band_xt),
        ]
    );
}

#[test]
fn test_binary_bor_compiles() {
    // `1 | 2` should compile to: LIT 1 LIT 2 BOR
    let mut vm = make_vm();
    let tokens = lex("1 | 2");
    let result = ExprCompiler::new().compile_expr(&vm, &tokens).unwrap();

    let lit_xt = vm.lookup("LIT").unwrap();
    let bor_xt = vm.lookup("BOR").unwrap();

    assert_eq!(
        result,
        vec![
            Cell::Xt(lit_xt),
            Cell::Int(1),
            Cell::Xt(lit_xt),
            Cell::Int(2),
            Cell::Xt(bor_xt),
        ]
    );
}

#[test]
fn test_address_of_function_error() {
    let mut vm = make_vm();
    // Register "F" as a compiled word (not a variable).
    vm.register(WordEntry::new_word("F", 0)).unwrap();

    let tokens = lex("&F");
    let err = ExprCompiler::new().compile_expr(&vm, &tokens)
        .unwrap_err();
    assert!(
        matches!(
            err,
            TbxError::TypeError { expected, .. } if expected == "variable identifier after unary &"
        ),
        "expected TypeError for & applied to function, got: {err:?}"
    );
}

#[test]
fn test_address_of_non_ident_error() {
    let mut vm = make_vm();
    // "&123" — the token after & is an integer literal, not an identifier.
    let tokens = lex("&123");
    let err = ExprCompiler::new().compile_expr(&vm, &tokens)
        .unwrap_err();
    assert!(
        matches!(
            err,
            TbxError::TypeError { expected, .. } if expected == "identifier after unary &"
        ),
        "expected TypeError for & applied to non-identifier, got: {err:?}"
    );
}

#[test]
fn test_address_of_undefined_error() {
    let mut vm = make_vm();
    let tokens = lex("&NOEXIST");
    let err = ExprCompiler::new().compile_expr(&vm, &tokens)
        .unwrap_err();
    assert!(
        matches!(err, TbxError::UndefinedSymbol { ref name } if name == "NOEXIST"),
        "expected UndefinedSymbol for &NOEXIST, got: {err:?}"
    );
}

#[test]
fn test_primitive_zero_arg_call() {
    let mut vm = make_vm();
    fn dummy(_vm: &mut VM) -> Result<(), TbxError> {
        Ok(())
    }
    let p_xt = vm.register(WordEntry::new_primitive("P", Prim::Drop)).unwrap();

    let tokens = lex("P()");
    let result = ExprCompiler::new().compile_expr(&vm, &tokens).unwrap();

    // A Primitive call must emit only Xt(p) — no CALL prefix.
    assert_eq!(result, vec![Cell::Xt(p_xt)]);
}

#[test]
fn test_primitive_call_with_args() {
    let mut vm = make_vm();
    fn dummy(_vm: &mut VM) -> Result<(), TbxError> {
        Ok(())
    }
    let p_xt = vm.register(WordEntry::new_primitive("P", Prim::Drop)).unwrap();
    let lit_xt = vm.lookup("LIT").unwrap();

    let tokens = lex("P(1, 2)");
    let result = ExprCompiler::new().compile_expr(&vm, &tokens).unwrap();

    // Arguments are pushed normally; the callee is emitted as a bare Xt.
    assert_eq!(
        result,
        vec![
            Cell::Xt(lit_xt),
            Cell::Int(1),
            Cell::Xt(lit_xt),
            Cell::Int(2),
            Cell::Xt(p_xt),
        ]
    );
}

#[test]
fn test_primitive_no_paren() {
    let mut vm = make_vm();
    fn dummy(_vm: &mut VM) -> Result<(), TbxError> {
        Ok(())
    }
    let p_xt = vm.register(WordEntry::new_primitive("P", Prim::Drop)).unwrap();

    let tokens = lex("P");
    let result = ExprCompiler::new().compile_expr(&vm, &tokens).unwrap();

    // Without parentheses a Primitive is emitted as a bare Xt, not CALL.
    assert_eq!(result, vec![Cell::Xt(p_xt)]);
}

#[test]
fn test_word_no_paren_emits_call() {
    let mut vm = make_vm();
    let f_xt = vm.register(WordEntry::new_word("F", 0)).unwrap();

    let tokens = lex("F");
    let result = ExprCompiler::new().compile_expr(&vm, &tokens).unwrap();

    // A bare Word identifier (no parentheses) is treated as a nullary call
    // and must emit the CALL 4-cell form, same as F().
    let call_xt = vm.lookup("CALL").unwrap();
    assert_eq!(
        result,
        vec![
            Cell::Xt(call_xt),
            Cell::Xt(f_xt),
            Cell::Int(0),
            Cell::Int(0),
        ]
    );
}

#[test]
fn test_variable_paren_emits_xt_not_fetch() {
    let mut vm = make_vm();
    let v_xt = vm.register(WordEntry::new_variable("V", 0)).unwrap();

    // V() should emit only Xt(v) — not the LIT+DictAddr+FETCH sequence
    // that a bare `V` (no parentheses) would produce.
    let tokens = lex("V()");
    let result = ExprCompiler::new().compile_expr(&vm, &tokens).unwrap();
    assert_eq!(result, vec![Cell::Xt(v_xt)]);
}

#[test]
fn test_variable_no_paren_emits_fetch() {
    let mut vm = make_vm();
    let v_xt = vm.register(WordEntry::new_variable("V", 0)).unwrap();

    // A bare `V` (no parens) reads the variable value:
    // LIT DictAddr(addr) FETCH
    let lit_xt = vm.lookup("LIT").unwrap();
    let fetch_xt = vm.lookup("FETCH").unwrap();

    // Retrieve the dict address stored in the Variable entry.
    let addr = match vm.headers[v_xt.index()].kind.clone() {
        EntryKind::Variable(a) => a,
        _ => panic!("expected Variable kind"),
    };

    let tokens = lex("V");
    let result = ExprCompiler::new().compile_expr(&vm, &tokens).unwrap();
    assert_eq!(
        result,
        vec![Cell::Xt(lit_xt), Cell::DictAddr(addr), Cell::Xt(fetch_xt),]
    );
}

#[test]
fn test_internal_kind_call_rejected() {
    let mut vm = make_vm();
    // Register an entry whose kind is an internal-only variant (Lit).
    vm.register(WordEntry {
        name: "INTERNAL".to_string(),
        flags: 0,
        kind: EntryKind::Lit,
        arity: 0,
        local_count: 0,
        is_variadic: false,
        prev: None,
    })
    .unwrap();

    // Calling it with () must be rejected.
    let tokens = lex("INTERNAL()");
    let err = ExprCompiler::new().compile_expr(&vm, &tokens)
        .unwrap_err();
    assert!(
        matches!(err, TbxError::InvalidExpression { .. }),
        "expected InvalidExpression for internal kind call, got: {err:?}"
    );
}

/// An unterminated string literal produces Token::Error from the lexer.
/// compile_expr must propagate that as TbxError::InvalidExpression rather
/// than silently ignoring it (which would leave the argument list empty and
/// cause confusing runtime type errors).

#[test]
fn test_trailing_comma_in_function_call_is_error() {
    let mut vm = make_vm();
    vm.register(WordEntry::new_word("ADD", 2)).unwrap();
    let tokens = lex("ADD(1, 2,)");
    let err = ExprCompiler::new().compile_expr(&vm, &tokens)
        .unwrap_err();
    assert!(
        matches!(err, TbxError::InvalidExpression { reason } if reason.contains("trailing comma")),
        "trailing comma should produce InvalidExpression, got {err:?}"
    );
}

#[test]
fn test_isolated_rbracket_error() {
    // A lone `]` with no matching `[` must produce an unmatched ']' error.
    let mut vm = make_vm();
    let tokens = lex("1 ]");
    let err = ExprCompiler::new().compile_expr(&vm, &tokens)
        .unwrap_err();
    assert!(
        matches!(
            err,
            TbxError::InvalidExpression { reason }
                if reason.contains("unmatched ']'")
        ),
        "expected unmatched ']' error, got: {err:?}"
    );
}

#[test]
fn test_lbracket_without_preceding_operand_error() {
    // `[1]` (no preceding expression) must be rejected.
    let mut vm = make_vm();
    let tokens = lex("[1]");
    let err = ExprCompiler::new().compile_expr(&vm, &tokens)
        .unwrap_err();
    assert!(
        matches!(
            err,
            TbxError::InvalidExpression { reason }
                if reason.contains("'[' without a preceding expression")
        ),
        "expected '[' without preceding expression error, got: {err:?}"
    );
}

#[test]
fn test_token_error_propagates_as_invalid_expression() {
    let mut vm = make_vm();

    // Build a token slice that contains Token::Error directly, mimicking
    // what the lexer emits for an unterminated string literal.
    let error_token = SpannedToken {
        token: Token::Error("unterminated string literal".to_string()),
        pos: Position { line: 1, col: 1 },
        source_offset: 0,
        source_len: 1,
        char_start: 0,
        char_end: 1,
    };
    let tokens = vec![error_token];

    let err = ExprCompiler::new().compile_expr(&vm, &tokens)
        .unwrap_err();
    assert!(
        matches!(err, TbxError::InvalidExpression { .. }),
        "Token::Error should produce InvalidExpression, got {err:?}"
    );
}

#[test]
fn test_unmatched_lbracket_error() {
    // `T[1` (no closing ']') must produce an unmatched '[' error.
    let mut vm = make_vm();
    vm.register(WordEntry::new_word("T", 0)).unwrap();
    let tokens = lex("T[1");
    let err = ExprCompiler::new().compile_expr(&vm, &tokens)
        .unwrap_err();
    assert!(
        matches!(
            err,
            TbxError::InvalidExpression { reason }
                if reason.contains("unmatched '['")
        ),
        "expected unmatched '[' error for T[1, got: {err:?}"
    );
}

#[test]
fn test_empty_bracket_index_error() {
    // `T[]` must be rejected as a syntax error: index expression is missing.
    let mut vm = make_vm();
    vm.register(WordEntry::new_word("T", 0)).unwrap();
    let tokens = lex("T[]");
    let err = ExprCompiler::new().compile_expr(&vm, &tokens)
        .unwrap_err();
    assert!(
        matches!(
            err,
            TbxError::InvalidExpression { reason }
                if reason.contains("missing index expression in []")
        ),
        "expected missing index expression error for T[], got: {err:?}"
    );
}

/// `@A[2]` against a global variable A holding a Cell::Array handle must
/// compile to: LIT DictAddr(0) FETCH LIT 2 ARRAY_GET.

#[test]
fn test_at_global_array_element_read() {
    let mut vm = make_vm();
    // Allocate a dictionary slot for the global variable.
    vm.dict_write(Cell::Int(0)).unwrap();
    vm.register(WordEntry::new_variable("A", 0)).unwrap();

    let tokens = lex("@A[2]");
    let result = ExprCompiler::new().compile_expr(&vm, &tokens).unwrap();

    let lit_xt = vm.lookup("LIT").unwrap();
    let fetch_xt = vm.lookup("FETCH").unwrap();
    let array_get_xt = vm.lookup_hidden_system("ARRAY_GET").unwrap();

    assert_eq!(
        result,
        vec![
            Cell::Xt(lit_xt),
            Cell::DictAddr(0),
            Cell::Xt(fetch_xt),
            Cell::Xt(lit_xt),
            Cell::Int(2),
            Cell::Xt(array_get_xt),
        ]
    );
}

/// `@A[i]` against a local variable A must compile to:
/// LIT StackAddr(idx) FETCH LIT <i> ARRAY_GET.

#[test]
fn test_at_local_array_element_read() {
    let mut vm = make_vm();

    // Build a local variable table with "A" at slot 0.
    let mut local_table: Vec<(String, usize)> = Vec::new();
    local_table.push(("A".to_string(), 0usize));

    let tokens = lex("@A[3]");
    let result = ExprCompiler::with_context(Some(local_table), None, None).compile_expr(&vm, &tokens)
        .unwrap();

    let lit_xt = vm.lookup("LIT").unwrap();
    let fetch_xt = vm.lookup("FETCH").unwrap();
    let array_get_xt = vm.lookup_hidden_system("ARRAY_GET").unwrap();

    assert_eq!(
        result,
        vec![
            Cell::Xt(lit_xt),
            Cell::StackAddr(0),
            Cell::Xt(fetch_xt),
            Cell::Xt(lit_xt),
            Cell::Int(3),
            Cell::Xt(array_get_xt),
        ]
    );
}

/// `@A` without a following `[` must produce a clear syntax error.

#[test]
fn test_at_without_bracket_is_error() {
    let mut vm = make_vm();
    vm.dict_write(Cell::Int(0)).unwrap();
    vm.register(WordEntry::new_variable("A", 0)).unwrap();

    let tokens = lex("@A");
    let err = ExprCompiler::new().compile_expr(&vm, &tokens)
        .unwrap_err();
    assert!(
        matches!(
            err,
            TbxError::InvalidExpression { reason }
                if reason.contains("must be followed by '['")
        ),
        "expected error about missing '[' for @A, got: {err:?}"
    );
}

/// `@A[]` (empty bracket index) must produce a syntax error.

#[test]
fn test_at_empty_bracket_index_is_error() {
    let mut vm = make_vm();
    vm.dict_write(Cell::Int(0)).unwrap();
    vm.register(WordEntry::new_variable("A", 0)).unwrap();

    let tokens = lex("@A[]");
    let err = ExprCompiler::new().compile_expr(&vm, &tokens)
        .unwrap_err();
    assert!(
        matches!(err, TbxError::InvalidExpression { .. }),
        "expected InvalidExpression for @A[], got: {err:?}"
    );
}

/// `@NOEXIST[1]` (undefined identifier) must produce UndefinedSymbol.

#[test]
fn test_at_undefined_symbol_is_error() {
    let mut vm = make_vm();

    let tokens = lex("@NOEXIST[1]");
    let err = ExprCompiler::new().compile_expr(&vm, &tokens)
        .unwrap_err();
    assert!(
        matches!(err, TbxError::UndefinedSymbol { ref name } if name == "NOEXIST"),
        "expected UndefinedSymbol for @NOEXIST[1], got: {err:?}"
    );
}

#[test]
fn test_bare_at_is_syntax_error() {
    // A bare `@` (not followed by an identifier) must be a clear syntax error.
    let mut vm = make_vm();
    let tokens = lex("@");
    let err = ExprCompiler::new().compile_expr(&vm, &tokens)
        .unwrap_err();
    assert!(
        matches!(err, TbxError::InvalidExpression { .. }),
        "expected InvalidExpression for bare @, got: {err:?}"
    );
}

#[test]
fn test_at_bracket_is_syntax_error() {
    // `@[1]` (@ not followed by an identifier) must be a clear syntax error.
    let mut vm = make_vm();
    let tokens = lex("@[1]");
    let err = ExprCompiler::new().compile_expr(&vm, &tokens)
        .unwrap_err();
    assert!(
        matches!(err, TbxError::InvalidExpression { .. }),
        "expected InvalidExpression for @[1], got: {err:?}"
    );
}

#[test]
fn test_at_space_int_is_syntax_error() {
    // `@ 1` (@ followed by an integer, not an identifier) must be a clear syntax error.
    let mut vm = make_vm();
    let tokens = lex("@ 1");
    let err = ExprCompiler::new().compile_expr(&vm, &tokens)
        .unwrap_err();
    assert!(
        matches!(err, TbxError::InvalidExpression { .. }),
        "expected InvalidExpression for `@ 1`, got: {err:?}"
    );
}

#[test]
fn test_regression_ampersand_variable_read() {
    // `VAR A; SET &A, 42` — &A must still compile as an address-of.
    let mut vm = make_vm();
    vm.dict_write(Cell::Int(0)).unwrap();
    vm.register(WordEntry::new_variable("A", 0)).unwrap();

    let tokens = lex("&A");
    let result = ExprCompiler::new().compile_expr(&vm, &tokens).unwrap();

    let lit_xt = vm.lookup("LIT").unwrap();
    assert_eq!(result.len(), 2);
    assert_eq!(result[0], Cell::Xt(lit_xt));
    assert_eq!(result[1], Cell::DictAddr(0));
}

#[test]
fn test_regression_function_call() {
    // `F(9)` — function call must still work after @ token addition.
    let mut vm = make_vm();
    let f_xt = vm.register(WordEntry::new_word("F", 0)).unwrap();
    let tokens = lex("F(9)");
    let result = ExprCompiler::new().compile_expr(&vm, &tokens).unwrap();

    let lit_xt = vm.lookup("LIT").unwrap();
    let call_xt = vm.lookup("CALL").unwrap();
    assert_eq!(
        result,
        vec![
            Cell::Xt(lit_xt),
            Cell::Int(9),
            Cell::Xt(call_xt),
            Cell::Xt(f_xt),
            Cell::Int(1),
            Cell::Int(0),
        ]
    );
}

/// `&@A[2]` against a global variable A must compile to:
/// LIT DictAddr(0) FETCH LIT 2 ARRAY_ADDR.

#[test]
fn test_ampersand_at_global_array_element_address() {
    let mut vm = make_vm();
    vm.dict_write(Cell::Int(0)).unwrap();
    vm.register(WordEntry::new_variable("A", 0)).unwrap();

    let tokens = lex("&@A[2]");
    let result = ExprCompiler::new().compile_expr(&vm, &tokens).unwrap();

    let lit_xt = vm.lookup("LIT").unwrap();
    let fetch_xt = vm.lookup("FETCH").unwrap();
    let array_addr_xt = vm.lookup_hidden_system("ARRAY_ADDR").unwrap();

    assert_eq!(
        result,
        vec![
            Cell::Xt(lit_xt),
            Cell::DictAddr(0),
            Cell::Xt(fetch_xt),
            Cell::Xt(lit_xt),
            Cell::Int(2),
            Cell::Xt(array_addr_xt),
        ]
    );
}

/// `&@A[3]` against a local variable A at slot 0 must compile to:
/// LIT StackAddr(0) FETCH LIT 3 ARRAY_ADDR.

#[test]
fn test_ampersand_at_local_array_element_address() {
    let mut vm = make_vm();

    let mut local_table: Vec<(String, usize)> = Vec::new();
    local_table.push(("A".to_string(), 0usize));

    let tokens = lex("&@A[3]");
    let result = ExprCompiler::with_context(Some(local_table), None, None).compile_expr(&vm, &tokens)
        .unwrap();

    let lit_xt = vm.lookup("LIT").unwrap();
    let fetch_xt = vm.lookup("FETCH").unwrap();
    let array_addr_xt = vm.lookup_hidden_system("ARRAY_ADDR").unwrap();

    assert_eq!(
        result,
        vec![
            Cell::Xt(lit_xt),
            Cell::StackAddr(0),
            Cell::Xt(fetch_xt),
            Cell::Xt(lit_xt),
            Cell::Int(3),
            Cell::Xt(array_addr_xt),
        ]
    );
}

/// `&@A` (missing `[`) must produce a clear syntax error.

#[test]
fn test_ampersand_at_missing_bracket_is_error() {
    let mut vm = make_vm();
    vm.dict_write(Cell::Int(0)).unwrap();
    vm.register(WordEntry::new_variable("A", 0)).unwrap();

    let tokens = lex("&@A");
    let err = ExprCompiler::new().compile_expr(&vm, &tokens)
        .unwrap_err();
    assert!(
        matches!(
            err,
            TbxError::InvalidExpression { reason }
                if reason.contains("must be followed by '['")
        ),
        "expected error about missing '[' for &@A, got: {err:?}"
    );
}

/// `&@` (missing identifier) must produce a clear syntax error.

#[test]
fn test_ampersand_at_missing_ident_is_error() {
    let mut vm = make_vm();

    let tokens = lex("&@[1]");
    let err = ExprCompiler::new().compile_expr(&vm, &tokens)
        .unwrap_err();
    assert!(
        matches!(err, TbxError::InvalidExpression { .. }),
        "expected InvalidExpression for &@[1], got: {err:?}"
    );
}

/// `&@NOEXIST[1]` (undefined identifier) must produce UndefinedSymbol.

#[test]
fn test_ampersand_at_undefined_symbol_is_error() {
    let mut vm = make_vm();

    let tokens = lex("&@NOEXIST[1]");
    let err = ExprCompiler::new().compile_expr(&vm, &tokens)
        .unwrap_err();
    assert!(
        matches!(err, TbxError::UndefinedSymbol { ref name } if name == "NOEXIST"),
        "expected UndefinedSymbol for &@NOEXIST[1], got: {err:?}"
    );
}

/// `&@A[]` (empty index) must produce a syntax error.

#[test]
fn test_ampersand_at_empty_bracket_index_is_error() {
    let mut vm = make_vm();
    vm.dict_write(Cell::Int(0)).unwrap();
    vm.register(WordEntry::new_variable("A", 0)).unwrap();

    let tokens = lex("&@A[]");
    let err = ExprCompiler::new().compile_expr(&vm, &tokens)
        .unwrap_err();
    assert!(
        matches!(err, TbxError::InvalidExpression { .. }),
        "expected InvalidExpression for &@A[], got: {err:?}"
    );
}

#[test]
fn test_comma_separator() {
    let mut vm = make_vm();
    // Register two global variables.
    vm.dict_write(Cell::Int(0)).unwrap();
    vm.dict_write(Cell::Int(0)).unwrap();
    vm.register(WordEntry::new_variable("A", 0)).unwrap();
    vm.register(WordEntry::new_variable("B", 1)).unwrap();

    let tokens = lex("A, B");
    let result = ExprCompiler::new().compile_expr(&vm, &tokens).unwrap();

    let lit_xt = vm.lookup("LIT").unwrap();
    let fetch_xt = vm.lookup("FETCH").unwrap();

    // A read + B read, no comma instruction
    assert_eq!(
        result,
        vec![
            Cell::Xt(lit_xt),
            Cell::DictAddr(0),
            Cell::Xt(fetch_xt),
            Cell::Xt(lit_xt),
            Cell::DictAddr(1),
            Cell::Xt(fetch_xt),
        ]
    );
}

#[test]
fn test_flat_subtraction_is_left_associative() {
    let vm = make_vm();
    let tokens = lex("10 - 2 - 3");
    let result = ExprCompiler::new().compile_expr(&vm, &tokens).unwrap();
    let lit = Cell::Xt(vm.lookup("LIT").unwrap());
    let sub = Cell::Xt(vm.lookup("SUB").unwrap());
    assert_eq!(
        result,
        vec![lit.clone(), Cell::Int(10), lit.clone(), Cell::Int(2), sub.clone(), lit, Cell::Int(3), sub]
    );
}

#[test]
fn test_flat_looser_operator_after_tighter() {
    let vm = make_vm();
    let tokens = lex("2 * 3 + 4");
    let result = ExprCompiler::new().compile_expr(&vm, &tokens).unwrap();
    let lit = Cell::Xt(vm.lookup("LIT").unwrap());
    let mul = Cell::Xt(vm.lookup("MUL").unwrap());
    let add = Cell::Xt(vm.lookup("ADD").unwrap());
    assert_eq!(
        result,
        vec![lit.clone(), Cell::Int(2), lit.clone(), Cell::Int(3), mul, lit, Cell::Int(4), add]
    );
}

#[test]
fn test_flat_comma_list_keeps_values_in_order() {
    let vm = make_vm();
    let tokens = lex("1, 2 + 3");
    let result = ExprCompiler::new().compile_expr(&vm, &tokens).unwrap();
    let lit = Cell::Xt(vm.lookup("LIT").unwrap());
    let add = Cell::Xt(vm.lookup("ADD").unwrap());
    assert_eq!(
        result,
        vec![lit.clone(), Cell::Int(1), lit.clone(), Cell::Int(2), lit, Cell::Int(3), add]
    );
}

#[test]
fn call_arguments_keep_precedence_and_order() {
    let mut vm = make_vm();
    let f_xt = vm.register(WordEntry::new_word("F", 0)).unwrap();
    let tokens = lex("F(1 + 2 * 3, 4)");
    let result = ExprCompiler::new().compile_expr(&vm, &tokens).unwrap();
    let lit = vm.lookup("LIT").unwrap();
    let call = vm.lookup("CALL").unwrap();
    let add = vm.lookup("ADD").unwrap();
    let mul = vm.lookup("MUL").unwrap();
    assert_eq!(
        result,
        vec![
            Cell::Xt(lit),
            Cell::Int(1),
            Cell::Xt(lit),
            Cell::Int(2),
            Cell::Xt(lit),
            Cell::Int(3),
            Cell::Xt(mul),
            Cell::Xt(add),
            Cell::Xt(lit),
            Cell::Int(4),
            Cell::Xt(call),
            Cell::Xt(f_xt),
            Cell::Int(2),
            Cell::Int(0),
        ]
    );
}

#[test]
fn parentheses_around_an_expression_add_no_code() {
    let vm = make_vm();
    let inner = ExprCompiler::new().compile_expr(&vm, &lex("1 + 2 * 3")).unwrap();
    let wrapped = ExprCompiler::new().compile_expr(&vm, &lex("(1 + 2 * 3)")).unwrap();
    assert_eq!(inner, wrapped);
    assert_eq!(wrapped.len(), 8);
}
