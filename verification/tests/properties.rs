use std::collections::VecDeque;
use tbx::cell::{Cell, CompileEntry};
use tbx::dict::{EntryKind, Prim, WordEntry};
use tbx::error::TbxError;
use tbx::exec::{init_vm, register_all};
use tbx::expr::ExprCompiler;
use tbx::interpreter::Interpreter;
use tbx::lexer::{Lexer, Position, SpannedToken, Token};
use tbx::primitives::{
    allot_prim, cs_pop_prim, cs_push_prim, cs_rot_prim, cs_swap_prim, def_prim, drop_prim, dup_prim,
    getdec_prim, putdec_prim, swap_prim,
};
use tbx::vm::VM;
use tbx::words::{STANDARD_WORD_COUNT, SYSTEM_WORD_COUNT};

fn ident(name: &str) -> SpannedToken {
    SpannedToken {
        token: Token::Ident(name.to_string()),
        pos: Position { line: 1, col: 1 },
        source_offset: 0,
        source_len: name.len(),
        char_start: 0,
        char_end: name.chars().count(),
    }
}

fn compiling_vm() -> VM {
    let mut vm = VM::new();
    register_all(&mut vm);
    vm.token_stream = Some(VecDeque::from([ident("W")]));
    def_prim(&mut vm).unwrap();
    vm
}

fn lex_all(src: &str) -> Vec<Token> {
    let mut lx = Lexer::new(src);
    let mut out = Vec::new();
    loop {
        let t = lx.next_token().token;
        if t == Token::Eof {
            break;
        }
        out.push(t);
    }
    out
}

fn lex_expr(src: &str) -> Vec<SpannedToken> {
    let mut lx = Lexer::new(src);
    let mut out = Vec::new();
    loop {
        let st = lx.next_token();
        match &st.token {
            Token::Eof | Token::Newline => break,
            _ => out.push(st),
        }
    }
    out
}

// --- Reading back what PUTDEC writes gives the number ---

#[test]
fn decimal_text_reads_back() {
    for n in [0i64, 7, -7, 1234567890, i64::MAX, i64::MIN] {
        let mut vm = VM::new();
        vm.push(Cell::Int(n)).unwrap();
        putdec_prim(&mut vm).unwrap();
        let text = vm.take_output();
        vm.set_input(&text);
        getdec_prim(&mut vm).unwrap();
        assert_eq!(vm.pop(), Ok(Cell::Int(n)), "round trip of {n} through {text:?}");
    }
}

// --- Stack shuffles undo one another ---

#[test]
fn swap_twice_restores_stack() {
    let mut vm = VM::new();
    for v in [1, 2, 3] {
        vm.push(Cell::Int(v)).unwrap();
    }
    swap_prim(&mut vm).unwrap();
    swap_prim(&mut vm).unwrap();
    assert_eq!(vm.data_stack, vec![Cell::Int(1), Cell::Int(2), Cell::Int(3)]);
}

#[test]
fn drop_undoes_dup() {
    let mut vm = VM::new();
    vm.push(Cell::Int(4)).unwrap();
    vm.push(Cell::Int(5)).unwrap();
    dup_prim(&mut vm).unwrap();
    drop_prim(&mut vm).unwrap();
    assert_eq!(vm.data_stack, vec![Cell::Int(4), Cell::Int(5)]);
}

#[test]
fn cs_swap_twice_and_cs_rot_three_times_restore_compile_stack() {
    let mut vm = compiling_vm();
    for v in [10, 20, 30] {
        vm.compile_stack.push(CompileEntry::Cell(Cell::Int(v)));
    }
    let before = vm.compile_stack.clone();
    cs_swap_prim(&mut vm).unwrap();
    assert_ne!(vm.compile_stack, before);
    cs_swap_prim(&mut vm).unwrap();
    assert_eq!(vm.compile_stack, before);
    cs_rot_prim(&mut vm).unwrap();
    assert_eq!(
        vm.compile_stack,
        vec![
            CompileEntry::Cell(Cell::Int(20)),
            CompileEntry::Cell(Cell::Int(30)),
            CompileEntry::Cell(Cell::Int(10)),
        ]
    );
    cs_rot_prim(&mut vm).unwrap();
    cs_rot_prim(&mut vm).unwrap();
    assert_eq!(vm.compile_stack, before);
}

#[test]
fn cs_pop_undoes_cs_push() {
    let mut vm = compiling_vm();
    vm.push(Cell::Int(1)).unwrap();
    vm.push(Cell::Int(2)).unwrap();
    let stack = vm.data_stack.clone();
    let cstack = vm.compile_stack.clone();
    cs_push_prim(&mut vm).unwrap();
    assert_eq!(vm.data_stack, vec![Cell::Int(1)]);
    cs_pop_prim(&mut vm).unwrap();
    assert_eq!(vm.data_stack, stack);
    assert_eq!(vm.compile_stack, cstack);
}

// --- Name lookup ---

#[test]
fn newest_definition_shadows_and_other_names_stay() {
    let mut vm = init_vm();
    let drop_before = vm.lookup("DROP");
    let first = vm.register(WordEntry::new_word("SQUARE", 0)).unwrap();
    let second = vm.register(WordEntry::new_word("SQUARE", 5)).unwrap();
    assert_ne!(first, second);
    assert_eq!(vm.lookup("SQUARE"), Some(second));
    assert_eq!(vm.lookup("DROP"), drop_before);
}

#[test]
fn system_table_is_registered_in_order() {
    let vm = init_vm();
    assert_eq!(vm.headers.len(), SYSTEM_WORD_COUNT);
    assert_eq!(vm.sys_headers, SYSTEM_WORD_COUNT);
    assert_eq!(vm.headers[0].name, "DROP");
    assert_eq!(vm.headers[0].kind, EntryKind::Primitive(Prim::Drop));
    // Internal helpers are hidden from ordinary lookup.
    assert!(vm.lookup("ARRAY_GET").is_none());
    assert!(vm.lookup_hidden_system("ARRAY_GET").is_some());
    // The jump constants hold the tokens of the branch words.
    let bif = vm
        .headers
        .iter()
        .position(|h| h.kind == EntryKind::BranchIfFalse)
        .unwrap();
    let jf = vm.lookup("JUMP_FALSE").unwrap();
    assert_eq!(
        vm.headers[jf.index()].kind,
        EntryKind::Constant(Cell::Xt(tbx::cell::Xt(bif)))
    );
    let fresh = Interpreter::new();
    assert_eq!(
        fresh.vm().headers.len(),
        SYSTEM_WORD_COUNT + STANDARD_WORD_COUNT
    );
}

// --- A failed definition leaves no trace ---

#[test]
fn failed_definition_is_rolled_back() {
    let mut interp = Interpreter::new();
    let headers = interp.vm().headers.len();
    let dp = interp.vm().dp;
    let err = interp
        .exec_source("DEF BROKEN\nNOSUCHWORD 1\n")
        .unwrap_err();
    assert!(matches!(err.kind, TbxError::UndefinedSymbol { .. }));
    assert_eq!(interp.vm().headers.len(), headers);
    assert_eq!(interp.vm().dp, dp);
    assert!(!interp.vm().is_compiling);
    assert!(interp.vm().lookup("BROKEN").is_none());
    interp
        .exec_source("DEF BROKEN\nPUTDEC 5\nEND\nBROKEN")
        .unwrap();
    assert_eq!(interp.take_output(), "5");
}

// --- USE leaves no trace in the nesting state ---

#[test]
fn failed_use_leaves_nesting_state_clean() {
    let mut interp = Interpreter::new();
    interp.add_source_file("/lib/loop.tbx".to_string(), "USE \"/lib/loop.tbx\"\n".to_string());
    interp.add_source_file(
        "/lib/ok.tbx".to_string(),
        "DEF HI\nPUTSTR \"hi\"\nEND\n".to_string(),
    );
    let err = interp.exec_source("USE \"/lib/loop.tbx\"").unwrap_err();
    assert!(matches!(err.kind, TbxError::CircularUse { .. }));
    // The same file can be attempted again and another one loads.
    let again = interp.exec_source("USE \"/lib/loop.tbx\"").unwrap_err();
    assert!(matches!(again.kind, TbxError::CircularUse { .. }));
    interp.exec_source("USE \"/lib/ok.tbx\"\nHI").unwrap();
    assert_eq!(interp.take_output(), "hi");
}

// --- Expressions keep their literals in order ---

#[test]
fn compiled_expression_keeps_literal_order() {
    let vm = init_vm();
    let tokens = lex_expr("X 1 + 2 * (3 - 4)");
    let out = ExprCompiler::new()
        .compile_expr(&vm, &tokens[1..])
        .unwrap();
    let ints: Vec<i64> = out
        .iter()
        .filter_map(|c| match c {
            Cell::Int(n) => Some(*n),
            _ => None,
        })
        .collect();
    assert_eq!(ints, vec![1, 2, 3, 4]);
    let sub = vm.lookup("SUB").unwrap();
    let mul = vm.lookup("MUL").unwrap();
    let add = vm.lookup("ADD").unwrap();
    let n = out.len();
    assert_eq!(
        &out[n - 3..],
        &[Cell::Xt(sub), Cell::Xt(mul), Cell::Xt(add)]
    );
}

// --- The lexer takes the longest operator ---

#[test]
fn lexer_takes_longest_operator() {
    assert_eq!(
        lex_all("X <> 1"),
        vec![
            Token::Ident("X".to_string()),
            Token::Op("<>".to_string()),
            Token::IntLit(1)
        ]
    );
    assert_eq!(
        lex_all("X < > 1"),
        vec![
            Token::Ident("X".to_string()),
            Token::Op("<".to_string()),
            Token::Op(">".to_string()),
            Token::IntLit(1)
        ]
    );
    assert_eq!(
        lex_all("X && &Y"),
        vec![
            Token::Ident("X".to_string()),
            Token::Op("&&".to_string()),
            Token::Ampersand,
            Token::Ident("Y".to_string())
        ]
    );
}

#[test]
fn lexer_reads_unicode_letters_as_identifiers() {
    assert_eq!(
        lex_all("X ÄBC"),
        vec![Token::Ident("X".to_string()), Token::Ident("ÄBC".to_string())]
    );
}

// --- Errors ---

#[test]
fn allot_negative_is_invalid_count() {
    let mut vm = VM::new();
    vm.push(Cell::Int(-1)).unwrap();
    assert_eq!(allot_prim(&mut vm), Err(TbxError::InvalidAllotCount));
}

#[test]
fn runaway_recursion_overflows_return_stack() {
    let mut interp = Interpreter::new();
    let err = interp
        .exec_source("DEF DEEP\nDEEP\nEND\nDEEP")
        .unwrap_err();
    assert!(
        matches!(err.kind, TbxError::ReturnStackOverflow { .. }),
        "got {:?}",
        err.kind
    );
}

#[test]
fn addition_overflow_is_reported() {
    let mut interp = Interpreter::new();
    let err = interp
        .exec_source("PUTDEC 9223372036854775807 + 1")
        .unwrap_err();
    assert_eq!(err.kind, TbxError::IntegerOverflow);
}

#[test]
fn getdec_rejects_out_of_range_text() {
    let mut vm = VM::new();
    vm.set_input("9223372036854775808\n");
    assert!(matches!(
        getdec_prim(&mut vm),
        Err(TbxError::ParseIntError { .. })
    ));
}

#[test]
fn error_messages_name_their_values() {
    let e = TbxError::DivisionByZero;
    assert_eq!(e.message(), "division by zero");
    let mut interp = Interpreter::new();
    let err = interp.exec_line("PUTDEC 1 / 0", 3).unwrap_err();
    assert_eq!(err.line, 3);
    assert!(err.message().starts_with("line 3:"));
    assert!(err.message().contains("division by zero"));
}

// --- Text built through the library's character handling ---

#[test]
fn string_case_and_trim() {
    let mut interp = Interpreter::new();
    interp
        .exec_source("PUTSTR STR_UPPER(\"abc\")\nPUTSTR STR_TRIM(\"\u{3000} x \")\nPUTDEC STR_LEN(\"ÄB\")")
        .unwrap();
    assert_eq!(interp.take_output(), "ABCx2");
}

#[test]
fn arrays_are_one_based() {
    let mut interp = Interpreter::new();
    interp
        .compile_program(
            "DIM @A[3]\nDEF F\nLET @A[1] = 5\nLET @A[3] = 7\nPUTDEC @A[1] + @A[3]\nEND\nF",
        )
        .unwrap();
    assert_eq!(interp.take_output(), "12");
    let err = interp.compile_program("DIM @B[2]\nPUTDEC @B[0]").unwrap_err();
    assert!(matches!(
        err.kind,
        TbxError::ArrayIndexOutOfBounds { index: 0, size: 2 }
    ));
}

// --- Declarations read their syntax exactly ---

fn error_reason(src: &str) -> TbxError {
    let mut interp = Interpreter::new();
    interp.exec_source(src).unwrap_err().kind
}

#[test]
fn dim_reports_malformed_declarations() {
    let cases = [
        ("DIM A[3]", "DIM: expected '@' after DIM"),
        ("DIM @A 3", "DIM: expected '[' after identifier (use DIM @A[n] syntax)"),
        ("DIM @A", "DIM: expected '[' after identifier (use DIM @A[n] syntax)"),
        ("DIM @A[]", "DIM: array size expression must not be empty"),
        ("DIM @5[3]", "DIM: expected identifier after '@'"),
    ];
    for (src, reason) in cases {
        assert_eq!(error_reason(src), TbxError::InvalidExpression { reason }, "{src}");
    }
    assert_eq!(error_reason("DIM"), TbxError::TokenStreamEmpty);
}

#[test]
fn dim_nested_brackets_in_size() {
    let mut interp = Interpreter::new();
    interp
        .exec_source("DIM @A[2]\nDEF F\nLET @A[1] = 3\nEND\nF\nDIM @B[@A[1] + 1]\nPUTDEC ARRAY_LEN(@B)")
        .unwrap();
    assert_eq!(interp.take_output(), "4");
}

#[test]
fn var_declares_every_listed_name() {
    let mut interp = Interpreter::new();
    interp
        .exec_source("VAR A, B, C\nSET &A, 1\nSET &B, 2\nSET &C, 3\nPUTDEC A + B * C")
        .unwrap();
    assert_eq!(interp.take_output(), "7");
    assert_eq!(error_reason("VAR A,"), TbxError::TokenStreamEmpty);
    assert_eq!(
        error_reason("VAR 5"),
        TbxError::InvalidExpression { reason: "expected variable name after VAR" }
    );
    assert_eq!(
        error_reason("VAR A = 1"),
        TbxError::InvalidExpression { reason: "VAR initializer '= expr' is not allowed outside DEF" }
    );
}

#[test]
fn var_initializer_applies_to_last_local() {
    let mut interp = Interpreter::new();
    interp
        .exec_source("DEF F\nVAR X, Y = 2\nSET &X, 5\nPUTDEC X * 10 + Y\nEND\nF")
        .unwrap();
    assert_eq!(interp.take_output(), "52");
    assert_eq!(
        error_reason("DEF G\nVAR Z =\nEND"),
        TbxError::InvalidExpression { reason: "VAR initializer: expected expression after '='" }
    );
}

#[test]
fn def_parameter_list_errors() {
    let cases = [
        ("DEF F X", "expected '(' or end of line after word name in DEF"),
        ("DEF F(A B)", "expected ',' or ')' after parameter name"),
        ("DEF F(,)", "expected identifier, '...', or ')' after '('"),
        ("DEF F(... A)", "expected ')' after '...' in parameter list"),
    ];
    for (src, reason) in cases {
        assert_eq!(error_reason(src), TbxError::InvalidExpression { reason }, "{src}");
    }
}

#[test]
fn let_array_element_errors() {
    let cases = [
        ("DIM @A[2]\nDEF F\nLET @A = 1\nEND", "LET @A: expected '[' — bare '@A' is not a valid lvalue (use LET @A[i] = expr)"),
        ("DIM @A[2]\nDEF F\nLET @A[] = 1\nEND", "LET @A[]: array index expression must not be empty (use LET @A[i] = expr)"),
        ("DIM @A[2]\nDEF F\nLET @5 = 1\nEND", "LET @: expected array binding identifier (e.g. LET @A[i] = expr)"),
    ];
    for (src, reason) in cases {
        assert_eq!(error_reason(src), TbxError::InvalidExpression { reason }, "{src}");
    }
}

#[test]
fn string_literal_escapes() {
    assert_eq!(
        lex_all("X \"a\\tb\\\\c\\\"d\\qe\""),
        vec![
            Token::Ident("X".to_string()),
            Token::StringLit("a\tb\\c\"d\\qe".to_string())
        ]
    );
    assert!(matches!(&lex_all("X \"abc")[1], Token::Error(_)));
}

// The statement reader refuses unbalanced brackets before a word sees
// them; given the tokens directly, the words report them themselves.

fn with_tokens(vm: &mut VM, src: &str) {
    vm.token_stream = Some(VecDeque::from(lex_expr(src)));
}

#[test]
fn words_report_unclosed_brackets() {
    let mut vm = init_vm();
    with_tokens(&mut vm, "F(A,");
    assert_eq!(
        def_prim(&mut vm),
        Err(TbxError::InvalidExpression { reason: "unclosed '(' in parameter list" })
    );
    let mut vm = init_vm();
    with_tokens(&mut vm, "@A[3");
    assert_eq!(
        tbx::exec::dim_prim(&mut vm, 8),
        Err(TbxError::InvalidExpression { reason: "DIM: unterminated '[' — expected ']'" })
    );
    let mut vm = compiling_vm();
    with_tokens(&mut vm, "@A[1");
    assert_eq!(
        tbx::primitives::compile_lvalue_prim(&mut vm),
        Err(TbxError::InvalidExpression { reason: "LET @A[: unterminated '[' — expected ']'" })
    );
}

#[test]
fn def_reads_parameters_in_order() {
    let mut vm = init_vm();
    with_tokens(&mut vm, "F(a, b, ...) REST");
    def_prim(&mut vm).unwrap();
    let st = vm.compile_state.as_ref().unwrap();
    assert_eq!(
        st.local_table,
        vec![("A".to_string(), 0), ("B".to_string(), 1)]
    );
    assert_eq!(st.arity, 2);
    assert!(st.is_variadic);
    let rest: Vec<Token> = vm.token_stream.as_ref().unwrap().iter().map(|t| t.token.clone()).collect();
    assert_eq!(rest, vec![Token::Ident("REST".to_string())]);
}

// --- A read gives back what a write stored ---

#[test]
fn fetch_after_store_reads_the_value() {
    let mut vm = VM::new();
    vm.dict_write(Cell::Nil).unwrap();
    vm.dict_write(Cell::Int(9)).unwrap();
    vm.push(Cell::Int(42)).unwrap();
    vm.push(Cell::DictAddr(0)).unwrap();
    tbx::primitives::store_prim(&mut vm).unwrap();
    vm.push(Cell::DictAddr(0)).unwrap();
    tbx::primitives::fetch_prim(&mut vm).unwrap();
    assert_eq!(vm.pop(), Ok(Cell::Int(42)));
    assert_eq!(vm.dictionary[1], Cell::Int(9));
    assert!(vm.data_stack.is_empty());
}

#[test]
fn immediate_twice_is_immediate_once() {
    let mut interp = Interpreter::new();
    interp.exec_source("DEF W\nEND\nIMMEDIATE W").unwrap();
    let x = interp.vm().lookup("W").unwrap();
    let once = interp.vm().headers[x.0].flags;
    assert!(once & tbx::dict::FLAG_IMMEDIATE != 0);
    interp.exec_source("IMMEDIATE W").unwrap();
    let twice = interp.vm().headers[x.0].flags;
    assert_eq!(once, twice);
}

#[test]
fn local_array_lives_in_its_definition() {
    let mut interp = Interpreter::new();
    interp
        .exec_source("DEF F\nDIM @B[2]\nLET @B[1] = 7\nLET @B[2] = 5\nPUTDEC @B[1] * @B[2]\nEND\nF")
        .unwrap();
    assert_eq!(interp.take_output(), "35");
}

#[test]
fn local_dim_code_ends_with_set() {
    let mut interp = Interpreter::new();
    interp.exec_source("DEF F\nDIM @B[3]").unwrap();
    let vm = interp.vm();
    let set = vm.lookup("SET").unwrap();
    let d = vm.dp;
    assert!(matches!(vm.dictionary[d - 1], Cell::Xt(x) if x == set));
    assert!(matches!(&vm.dictionary[d - 2], Cell::Xt(x) if vm.headers[x.0].name == "ARRAY"));
    assert!(matches!(vm.dictionary[d - 3], Cell::Int(3)));
}

#[test]
fn dim_computed_size_is_checked_after_evaluation() {
    let mut interp = Interpreter::new();
    let arrays_before = interp.vm().arrays.len();
    let e = interp.exec_source("DIM @A[2 - 5]").unwrap_err();
    assert!(matches!(e.kind, TbxError::InvalidArgument { .. }));
    let e = interp.exec_source("DIM @B[\"x\"]").unwrap_err();
    assert!(matches!(e.kind, TbxError::TypeError { .. }));
    assert!(interp.vm().lookup("A").is_none());
    assert!(interp.vm().lookup("B").is_none());
    assert_eq!(interp.vm().arrays.len(), arrays_before);
    interp.exec_source("DIM @C[1 + 1]").unwrap();
    assert_eq!(interp.vm().arrays.len(), arrays_before + 1);
}
