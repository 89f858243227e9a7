use std::collections::VecDeque;
use tbx::cell::Cell;
use tbx::error::TbxError;
use tbx::exec::register_all;
use tbx::lexer::{Position, SpannedToken, Token};
use tbx::primitives::compile::{compile_expr_prim, def_prim, end_prim, var_prim};
use tbx::primitives::cstack::{
    cs_drop_prim, cs_dup_prim, cs_open_tag_prim, cs_over_prim, cs_rot_prim, cs_swap_prim,
};
use tbx::primitives::stack::{fetch_prim, store_prim};
use tbx::primitives::arith::{band_prim, bor_prim};
use tbx::primitives::misc::{
    append_prim, assert_fail_prim, halt_prim, header_prim, immediate_prim,
};
use tbx::primitives::stack::{drop_prim, dup_prim, swap_prim};
use tbx::primitives::textio::{accept_prim, get_output_prim, getdec_prim};
use tbx::vm::VM;

fn make_ident_token(name: &str) -> SpannedToken {
    SpannedToken {
        token: Token::Ident(name.to_string()),
        pos: Position { line: 1, col: 1 },
        source_offset: 0,
        source_len: name.len(),
        char_start: 0,
        char_end: name.chars().count(),
    }
}

fn make_compiling_vm(word_name: &str) -> VM {
    let mut vm = VM::new();
    register_all(&mut vm);
    // Feed the word name token; def_prim also peeks for a parameter list,
    // and an exhausted stream is tolerated there.
    vm.token_stream = Some(VecDeque::from([make_ident_token(word_name)]));
    def_prim(&mut vm).unwrap();
    vm
}

#[test]
fn test_drop_underflow() {
    let mut vm = VM::new();
    assert_eq!(drop_prim(&mut vm), Err(TbxError::StackUnderflow));
}

#[test]
fn test_dup_underflow() {
    let mut vm = VM::new();
    assert_eq!(dup_prim(&mut vm), Err(TbxError::StackUnderflow));
}

#[test]
fn test_swap_underflow_empty() {
    let mut vm = VM::new();
    assert_eq!(swap_prim(&mut vm), Err(TbxError::StackUnderflow));
}

#[test]
fn test_register_all_registers_drop_dup_swap() {
    let mut vm = VM::new();
    register_all(&mut vm);
    assert!(vm.lookup("DROP").is_some());
    assert!(vm.lookup("DUP").is_some());
    assert!(vm.lookup("SWAP").is_some());
}

#[test]
fn test_fetch_underflow() {
    let mut vm = VM::new();
    assert_eq!(fetch_prim(&mut vm), Err(TbxError::StackUnderflow));
}

#[test]
fn test_store_underflow() {
    let mut vm = VM::new();
    assert_eq!(store_prim(&mut vm), Err(TbxError::StackUnderflow));
}

#[test]
fn test_band_underflow() {
    let mut vm = VM::new();
    assert_eq!(band_prim(&mut vm), Err(TbxError::StackUnderflow));
}

#[test]
fn test_bor_underflow() {
    let mut vm = VM::new();
    assert_eq!(bor_prim(&mut vm), Err(TbxError::StackUnderflow));
}

#[test]
fn test_append_empty_stack() {
    let mut vm = VM::new();
    assert!(matches!(
        append_prim(&mut vm),
        Err(TbxError::StackUnderflow)
    ));
}

#[test]
fn test_halt_returns_halted() {
    let mut vm = VM::new();
    assert!(matches!(halt_prim(&mut vm), Err(TbxError::Halted)));
}

#[test]
fn test_assert_fail_returns_assertion_failed() {
    let mut vm = VM::new();
    assert!(matches!(
        assert_fail_prim(&mut vm),
        Err(TbxError::AssertionFailed)
    ));
}

#[test]
fn test_header_prim_no_stream_returns_token_stream_empty() {
    // token_stream is None → TokenStreamEmpty.
    let mut vm = VM::new();
    assert_eq!(header_prim(&mut vm), Err(TbxError::TokenStreamEmpty));
}

#[test]
fn test_header_prim_empty_stream_returns_token_stream_empty() {
    // token_stream is an empty VecDeque → TokenStreamEmpty.
    let mut vm = VM::new();
    vm.token_stream = Some(VecDeque::new());
    assert_eq!(header_prim(&mut vm), Err(TbxError::TokenStreamEmpty));
}

#[test]
fn test_immediate_prim_no_stream_returns_token_stream_empty() {
    // token_stream is None → TokenStreamEmpty.
    let mut vm = VM::new();
    assert_eq!(immediate_prim(&mut vm), Err(TbxError::TokenStreamEmpty));
}

#[test]
fn test_end_outside_def_error() {
    // END called when is_compiling == false must return InvalidExpression.
    let mut vm = VM::new();
    register_all(&mut vm);
    // is_compiling is false by default; compile_state is None.
    let err = end_prim(&mut vm).unwrap_err();
    assert!(
        matches!(err, TbxError::InvalidExpression { .. }),
        "expected InvalidExpression, got {err:?}"
    );
}

#[test]
fn test_end_unresolved_label_error() {
    // END must return UndefinedLabel when patch_list contains forward references
    // that were never resolved (i.e., a GOTO target label was never defined).
    let mut vm = make_compiling_vm("LABELWORD");
    // Manually inject an unresolved forward reference (label 99) into patch_list.
    if let Some(state) = vm.compile_state.as_mut() {
        state.patch_list.push((99, 0));
    }
    let err = end_prim(&mut vm).unwrap_err();
    assert!(
        matches!(err, TbxError::UndefinedLabel { label: 99 }),
        "expected UndefinedLabel {{ label: 99 }}, got {err:?}"
    );
}

#[test]
fn test_var_no_name_token_stream_empty() {
    // VAR with an empty token stream must return TokenStreamEmpty.
    let mut vm = VM::new();
    register_all(&mut vm);
    vm.token_stream = Some(VecDeque::new());
    let err = var_prim(&mut vm).unwrap_err();
    assert_eq!(err, TbxError::TokenStreamEmpty);
}

#[test]
fn test_cs_swap_outside_compile_mode_error() {
    let mut vm = VM::new();
    assert_eq!(
        cs_swap_prim(&mut vm),
        Err(TbxError::InvalidExpression {
            reason: "CS_SWAP outside compile mode"
        })
    );
}

#[test]
fn test_cs_swap_underflow_empty() {
    let mut vm = make_compiling_vm("TESTWORD");
    assert_eq!(cs_swap_prim(&mut vm), Err(TbxError::StackUnderflow));
}

#[test]
fn test_cs_drop_outside_compile_mode_error() {
    let mut vm = VM::new();
    assert_eq!(
        cs_drop_prim(&mut vm),
        Err(TbxError::InvalidExpression {
            reason: "CS_DROP outside compile mode"
        })
    );
}

#[test]
fn test_cs_drop_underflow() {
    let mut vm = make_compiling_vm("TESTWORD");
    assert_eq!(cs_drop_prim(&mut vm), Err(TbxError::StackUnderflow));
}

#[test]
fn test_cs_dup_outside_compile_mode_error() {
    let mut vm = VM::new();
    assert_eq!(
        cs_dup_prim(&mut vm),
        Err(TbxError::InvalidExpression {
            reason: "CS_DUP outside compile mode"
        })
    );
}

#[test]
fn test_cs_dup_underflow() {
    let mut vm = make_compiling_vm("TESTWORD");
    assert_eq!(cs_dup_prim(&mut vm), Err(TbxError::StackUnderflow));
}

#[test]
fn test_cs_over_outside_compile_mode_error() {
    let mut vm = VM::new();
    assert_eq!(
        cs_over_prim(&mut vm),
        Err(TbxError::InvalidExpression {
            reason: "CS_OVER outside compile mode"
        })
    );
}

#[test]
fn test_cs_over_underflow_empty() {
    let mut vm = make_compiling_vm("TESTWORD");
    assert_eq!(cs_over_prim(&mut vm), Err(TbxError::StackUnderflow));
}

#[test]
fn test_cs_rot_outside_compile_mode_error() {
    let mut vm = VM::new();
    assert_eq!(
        cs_rot_prim(&mut vm),
        Err(TbxError::InvalidExpression {
            reason: "CS_ROT outside compile mode"
        })
    );
}

#[test]
fn test_cs_rot_underflow_empty() {
    let mut vm = make_compiling_vm("TESTWORD");
    assert_eq!(cs_rot_prim(&mut vm), Err(TbxError::StackUnderflow));
}

#[test]
fn test_compile_expr_prim_no_token_stream_error() {
    // COMPILE_EXPR with token_stream == None must return TokenStreamEmpty.
    let mut vm = make_compiling_vm("TESTWORD");
    // Explicitly set token_stream to None.
    vm.token_stream = None;
    let err = compile_expr_prim(&mut vm).unwrap_err();
    assert_eq!(err, TbxError::TokenStreamEmpty);
}

#[test]
fn test_compile_expr_prim_empty_token_stream_error() {
    // COMPILE_EXPR with no tokens in the stream must return TokenStreamEmpty.
    let mut vm = make_compiling_vm("TESTWORD");
    vm.token_stream = Some(std::collections::VecDeque::new());
    let err = compile_expr_prim(&mut vm).unwrap_err();
    assert_eq!(err, TbxError::TokenStreamEmpty);
}

#[test]
fn test_cs_open_tag_empty_data_stack_error() {
    // CS_OPEN_TAG with empty data stack must return StackUnderflow.
    let mut vm = make_compiling_vm("TESTWORD");
    let err = cs_open_tag_prim(&mut vm).unwrap_err();
    assert!(
        matches!(err, TbxError::StackUnderflow),
        "expected StackUnderflow, got {err:?}"
    );
}

#[test]
fn test_accept_reads_line() {
    let mut vm = VM::new();
    vm.set_input("hello\n");
    let result = accept_prim(&mut vm).unwrap();
    assert_eq!(result, "hello".to_string());
}

#[test]
fn test_accept_strips_trailing_newline() {
    let mut vm = VM::new();
    vm.set_input("world\r\n");
    let result = accept_prim(&mut vm).unwrap();
    assert_eq!(result, "world".to_string());
}

#[test]
fn test_accept_empty_line() {
    let mut vm = VM::new();
    vm.set_input("\n");
    let result = accept_prim(&mut vm).unwrap();
    assert_eq!(result, "".to_string());
}

#[test]
fn test_getdec_does_not_use_input_buffer() {
    let mut vm = VM::new();
    vm.set_input("10\n");
    getdec_prim(&mut vm).unwrap();
    // getdec_prim reads directly via accept_prim; input_buffer is not used.
    assert_eq!(vm.input_buffer, None);
}

#[test]
fn test_getdec_empty_buffer_returns_error() {
    let mut vm = VM::new();
    // EOF (empty reader) yields an empty string, which fails to parse as integer.
    vm.set_input("");
    let result = getdec_prim(&mut vm);
    assert!(
        matches!(result, Err(TbxError::ParseIntError { .. })),
        "expected ParseIntError for empty input, got: {:?}",
        result
    );
}

#[test]
fn test_getdec_non_integer_returns_error() {
    let mut vm = VM::new();
    vm.set_input("abc\n");
    let result = getdec_prim(&mut vm);
    assert!(
        matches!(result, Err(TbxError::ParseIntError { .. })),
        "expected ParseIntError, got: {:?}",
        result
    );
}

#[test]
fn test_get_output_takes_and_clears_output_buffer() {
    let mut vm = VM::new();
    vm.write_output("hello");

    get_output_prim(&mut vm).unwrap();

    let cell = vm.pop().unwrap();
    assert_eq!(cell.as_str().map(|s| s.as_ref()), Some("hello"));
    // Buffer should be empty after GET_OUTPUT consumes it.
    assert_eq!(vm.take_output(), "");
}

#[test]
fn test_get_output_empty_buffer_returns_empty_string() {
    let mut vm = VM::new();

    get_output_prim(&mut vm).unwrap();

    let cell = vm.pop().unwrap();
    assert_eq!(cell.as_str().map(|s| s.as_ref()), Some(""));
}