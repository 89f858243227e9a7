use rand::SeedableRng;
use std::collections::VecDeque;
use tbx::cell::{Cell, CompileEntry, Xt};
use tbx::constants::MAX_DICTIONARY_CELLS;
use tbx::dict::{EntryKind, Prim, WordEntry, FLAG_HIDDEN, FLAG_IMMEDIATE, FLAG_SYSTEM};
use tbx::error::TbxError;
use tbx::exec::run;
use tbx::lexer::{Position, SpannedToken, Token};
use tbx::primitives::{
    set_prim,
    array_addr_prim,
    array_get_prim,
    accept_prim,
    add_prim,
    allot_prim,
    and_prim,
    append_prim,
    array_len_prim,
    assert_fail_msg_prim,
    assert_fail_prim,
    band_prim,
    bif_prim,
    bit_prim,
    bor_prim,
    compile_expr_prim,
    compile_lvalue_prim,
    cs_close_tag_prim,
    cs_drop_prim,
    cs_dup_prim,
    cs_open_tag_prim,
    cs_over_prim,
    cs_pop_prim,
    cs_push_prim,
    cs_rot_prim,
    cs_swap_prim,
    def_prim,
    div_prim,
    drop_prim,
    dup_prim,
    end_prim,
    eq_prim,
    fetch_prim,
    ge_prim,
    get_output_prim,
    getdec_prim,
    getstr_prim,
    goto_prim,
    gt_prim,
    halt_prim,
    header_prim,
    here_prim,
    hour_prim,
    immediate_prim,
    int_prim,
    le_prim,
    literal_prim,
    lt_prim,
    minute_prim,
    mod_prim,
    mul_prim,
    neq_prim,
    or_prim,
    patch_addr_prim,
    putchr_prim,
    putdec_prim,
    puthex_prim,
    putval_prim,
    randomize_prim,
    register_all,
    return_prim,
    rnd_prim,
    skip_eq_prim,
    state_prim,
    store_prim,
    sub_prim,
    swap_prim,
    var_prim,
};
use tbx::vm::VM;

fn local_slot(table: &[(String, usize)], name: &str) -> Option<usize> {
    table.iter().rev().find(|(n, _)| n == name).map(|(_, i)| *i)
}

fn make_ident_token(name: &str) -> SpannedToken {
    SpannedToken {
        token: Token::Ident(name.to_string()),
        pos: Position { line: 1, col: 1 },
        source_offset: 0,
        source_len: name.len(),
        char_start: 0,
        char_end: name.chars().count(),
    }
}

fn make_vm_with_tokens(tokens: Vec<Token>) -> VM {
    let mut vm = VM::new();
    register_all(&mut vm);
    let spanned: Vec<SpannedToken> = tokens
        .into_iter()
        .map(|t| SpannedToken {
            token: t,
            pos: Position { line: 1, col: 1 },
            source_offset: 0,
            source_len: 1,
            char_start: 0,
            char_end: 1,
        })
        .collect();
    vm.token_stream = Some(VecDeque::from(spanned));
    vm
}

/// Helper: build a SpannedToken with LParen.
fn make_lparen_token() -> SpannedToken {
    SpannedToken {
        token: Token::LParen,
        pos: Position { line: 1, col: 5 },
        source_offset: 4,
        source_len: 1,
        char_start: 4,
        char_end: 5,
    }
}

/// Helper: build a SpannedToken with Comma.
fn make_comma_token() -> SpannedToken {
    SpannedToken {
        token: Token::Comma,
        pos: Position { line: 1, col: 7 },
        source_offset: 6,
        source_len: 1,
        char_start: 6,
        char_end: 7,
    }
}

/// Helper: build a SpannedToken with RParen.
fn make_rparen_token() -> SpannedToken {
    SpannedToken {
        token: Token::RParen,
        pos: Position { line: 1, col: 9 },
        source_offset: 8,
        source_len: 1,
        char_start: 8,
        char_end: 9,
    }
}

fn make_op_token(op: &str) -> SpannedToken {
    SpannedToken {
        token: Token::Op(op.to_string()),
        pos: Position { line: 1, col: 1 },
        source_offset: 0,
        source_len: op.len(),
        char_start: 0,
        char_end: op.chars().count(),
    }
}

fn make_compiling_vm(word_name: &str) -> VM {
    let mut vm = VM::new();
    register_all(&mut vm);
    // Feed the word name token; def_prim also peeks for a parameter list,
    // and an exhausted stream is tolerated there.
    vm.token_stream = Some(VecDeque::from([make_ident_token(word_name)]));
    def_prim(&mut vm).unwrap();
    vm
}

#[test]
fn test_drop_removes_top() {
    let mut vm = VM::new();
    vm.push(Cell::Int(1)).unwrap();
    vm.push(Cell::Int(2)).unwrap();
    drop_prim(&mut vm).unwrap();
    assert_eq!(vm.pop(), Ok(Cell::Int(1)));
}

#[test]
fn test_dup_duplicates_top() {
    let mut vm = VM::new();
    vm.push(Cell::Int(42)).unwrap();
    dup_prim(&mut vm).unwrap();
    // Both copies must be on the stack; the original is below.
    assert_eq!(vm.pop(), Ok(Cell::Int(42)));
    assert_eq!(vm.pop(), Ok(Cell::Int(42)));
    assert_eq!(vm.pop(), Err(TbxError::StackUnderflow));
}

#[test]
fn test_swap_exchanges_top_two() {
    let mut vm = VM::new();
    vm.push(Cell::Int(1)).unwrap();
    vm.push(Cell::Int(2)).unwrap();
    swap_prim(&mut vm).unwrap();
    // After swap: 1 is on top, 2 is below.
    assert_eq!(vm.pop(), Ok(Cell::Int(1)));
    assert_eq!(vm.pop(), Ok(Cell::Int(2)));
}

#[test]
fn test_swap_underflow_one_element() {
    let mut vm = VM::new();
    vm.push(Cell::Int(1)).unwrap();
    assert_eq!(swap_prim(&mut vm), Err(TbxError::StackUnderflow));
}

#[test]
fn test_register_all_drop_callable_via_inner_interpreter() {
    // Verify that the registered DROP word can be invoked through the inner interpreter.
    let mut vm = VM::new();
    register_all(&mut vm);
    let drop_xt = vm.lookup("DROP").unwrap();
    let exit_xt = vm.lookup("EXIT").unwrap();

    // Write a tiny program: [Xt(DROP), Xt(EXIT)]
    let start = vm.dp;
    vm.dict_write(Cell::Xt(drop_xt)).unwrap();
    vm.dict_write(Cell::Xt(exit_xt)).unwrap();

    vm.push(Cell::Int(99)).unwrap();
    run(&mut vm, start, 64).unwrap();

    // DROP must have consumed the only stack element.
    assert_eq!(vm.pop(), Err(TbxError::StackUnderflow));
}

#[test]
fn test_fetch_dict_addr() {
    let mut vm = VM::new();
    vm.dictionary.push(Cell::Int(123)); // dict[0] = 123
    vm.push(Cell::DictAddr(0)).unwrap();
    fetch_prim(&mut vm).unwrap();
    assert_eq!(vm.pop(), Ok(Cell::Int(123)));
}

#[test]
fn test_fetch_stack_addr() {
    // This test also verifies that fetch_prim correctly adds vm.bp to the address.
    let mut vm = VM::new();
    vm.push(Cell::Int(10)).unwrap(); // data_stack[0] = 10
    vm.push(Cell::Int(20)).unwrap(); // data_stack[1] = 20
    vm.bp = 1; // base pointer at index 1
    vm.push(Cell::StackAddr(0)).unwrap(); // address of data_stack[bp + 0] = data_stack[1] = 20
    fetch_prim(&mut vm).unwrap();
    assert_eq!(vm.pop(), Ok(Cell::Int(20)));
}

#[test]
fn test_fetch_type_error() {
    let mut vm = VM::new();
    vm.push(Cell::Int(42)).unwrap(); // Not an address
    assert_eq!(
        fetch_prim(&mut vm),
        Err(TbxError::TypeError {
            expected: "address",
            got: "non-address"
        })
    );
}

#[test]
fn test_store_dict_addr() {
    let mut vm = VM::new();
    vm.dictionary.push(Cell::Int(0)); // dict[0] = 0
    vm.push(Cell::Int(123)).unwrap(); // value to store
    vm.push(Cell::DictAddr(0)).unwrap(); // address to store at
    store_prim(&mut vm).unwrap();
    assert_eq!(vm.dictionary[0], Cell::Int(123));
}

#[test]
fn test_store_stack_addr() {
    let mut vm = VM::new();
    vm.push(Cell::Int(0)).unwrap(); // data_stack[0] = 0
    vm.bp = 0;
    vm.push(Cell::Int(123)).unwrap(); // value to store
    vm.push(Cell::StackAddr(0)).unwrap(); // address to store at
    store_prim(&mut vm).unwrap();
    assert_eq!(vm.data_stack[0], Cell::Int(123));
}

#[test]
fn test_store_type_error() {
    let mut vm = VM::new();
    vm.push(Cell::Int(123)).unwrap(); // value to store
    vm.push(Cell::Int(0)).unwrap(); // Not an address
    assert_eq!(
        store_prim(&mut vm),
        Err(TbxError::TypeError {
            expected: "address",
            got: "non-address"
        })
    );
}

#[test]
fn test_store_underflow_one_value() {
    let mut vm = VM::new();
    vm.push(Cell::Int(123)).unwrap(); // value to store
    assert_eq!(store_prim(&mut vm), Err(TbxError::StackUnderflow));
}

#[test]
fn test_add_int() {
    let mut vm = VM::new();
    vm.push(Cell::Int(2)).unwrap();
    vm.push(Cell::Int(3)).unwrap();
    add_prim(&mut vm).unwrap();
    assert_eq!(vm.pop(), Ok(Cell::Int(5)));
}

#[test]
fn test_add_type_error() {
    let mut vm = VM::new();
    vm.push(Cell::Int(2)).unwrap();
    vm.push(Cell::Bool(true)).unwrap(); // Not a number
    assert!(matches!(
        add_prim(&mut vm),
        Err(TbxError::TypeError {
            expected: "number",
            ..
        })
    ));
}

#[test]
fn test_add_overflow() {
    let mut vm = VM::new();
    vm.push(Cell::Int(i64::MAX)).unwrap();
    vm.push(Cell::Int(1)).unwrap();
    assert_eq!(add_prim(&mut vm), Err(TbxError::IntegerOverflow));
}

#[test]
fn test_add_overflow_negative() {
    let mut vm = VM::new();
    vm.push(Cell::Int(i64::MIN)).unwrap();
    vm.push(Cell::Int(-1)).unwrap();
    assert_eq!(add_prim(&mut vm), Err(TbxError::IntegerOverflow));
}

#[test]
fn test_sub_int() {
    let mut vm = VM::new();
    vm.push(Cell::Int(10)).unwrap();
    vm.push(Cell::Int(3)).unwrap();
    sub_prim(&mut vm).unwrap();
    assert_eq!(vm.pop(), Ok(Cell::Int(7)));
}

#[test]
fn test_sub_type_error() {
    let mut vm = VM::new();
    vm.push(Cell::Bool(false)).unwrap();
    vm.push(Cell::Int(1)).unwrap();
    assert!(matches!(sub_prim(&mut vm), Err(TbxError::TypeError { .. })));
}

#[test]
fn test_sub_overflow() {
    let mut vm = VM::new();
    vm.push(Cell::Int(i64::MIN)).unwrap();
    vm.push(Cell::Int(1)).unwrap();
    assert_eq!(sub_prim(&mut vm), Err(TbxError::IntegerOverflow));
}

#[test]
fn test_sub_overflow_positive() {
    let mut vm = VM::new();
    vm.push(Cell::Int(i64::MAX)).unwrap();
    vm.push(Cell::Int(-1)).unwrap();
    assert_eq!(sub_prim(&mut vm), Err(TbxError::IntegerOverflow));
}

#[test]
fn test_mul_int() {
    let mut vm = VM::new();
    vm.push(Cell::Int(4)).unwrap();
    vm.push(Cell::Int(5)).unwrap();
    mul_prim(&mut vm).unwrap();
    assert_eq!(vm.pop(), Ok(Cell::Int(20)));
}

#[test]
fn test_mul_type_error() {
    let mut vm = VM::new();
    vm.push(Cell::Int(1)).unwrap();
    vm.push(Cell::Bool(true)).unwrap();
    assert!(matches!(mul_prim(&mut vm), Err(TbxError::TypeError { .. })));
}

#[test]
fn test_mul_overflow() {
    let mut vm = VM::new();
    vm.push(Cell::Int(i64::MAX)).unwrap();
    vm.push(Cell::Int(2)).unwrap();
    assert_eq!(mul_prim(&mut vm), Err(TbxError::IntegerOverflow));
}

#[test]
fn test_mul_overflow_negative() {
    let mut vm = VM::new();
    vm.push(Cell::Int(i64::MIN)).unwrap();
    vm.push(Cell::Int(2)).unwrap();
    assert_eq!(mul_prim(&mut vm), Err(TbxError::IntegerOverflow));
}

#[test]
fn test_div_int() {
    let mut vm = VM::new();
    vm.push(Cell::Int(10)).unwrap();
    vm.push(Cell::Int(3)).unwrap();
    div_prim(&mut vm).unwrap();
    assert_eq!(vm.pop(), Ok(Cell::Int(3))); // truncation toward zero
}

#[test]
fn test_div_int_negative() {
    let mut vm = VM::new();
    vm.push(Cell::Int(-7)).unwrap();
    vm.push(Cell::Int(2)).unwrap();
    div_prim(&mut vm).unwrap();
    assert_eq!(vm.pop(), Ok(Cell::Int(-3))); // truncation toward zero
}

#[test]
fn test_div_by_zero_int() {
    let mut vm = VM::new();
    vm.push(Cell::Int(5)).unwrap();
    vm.push(Cell::Int(0)).unwrap();
    assert_eq!(div_prim(&mut vm), Err(TbxError::DivisionByZero));
}

#[test]
fn test_div_type_error() {
    let mut vm = VM::new();
    vm.push(Cell::Bool(true)).unwrap();
    vm.push(Cell::Int(1)).unwrap();
    assert!(matches!(div_prim(&mut vm), Err(TbxError::TypeError { .. })));
}

#[test]
fn test_div_overflow() {
    // i64::MIN / -1 overflows because the result (i64::MAX + 1) is out of range.
    let mut vm = VM::new();
    vm.push(Cell::Int(i64::MIN)).unwrap();
    vm.push(Cell::Int(-1)).unwrap();
    assert_eq!(div_prim(&mut vm), Err(TbxError::IntegerOverflow));
}

#[test]
fn test_mod_int() {
    let mut vm = VM::new();
    vm.push(Cell::Int(7)).unwrap();
    vm.push(Cell::Int(3)).unwrap();
    mod_prim(&mut vm).unwrap();
    assert_eq!(vm.pop(), Ok(Cell::Int(1)));
}

#[test]
fn test_mod_negative() {
    let mut vm = VM::new();
    vm.push(Cell::Int(-7)).unwrap();
    vm.push(Cell::Int(2)).unwrap();
    mod_prim(&mut vm).unwrap();
    assert_eq!(vm.pop(), Ok(Cell::Int(-1))); // truncation toward zero
}

#[test]
fn test_mod_by_zero() {
    let mut vm = VM::new();
    vm.push(Cell::Int(5)).unwrap();
    vm.push(Cell::Int(0)).unwrap();
    assert_eq!(mod_prim(&mut vm), Err(TbxError::DivisionByZero));
}

#[test]
fn test_mod_overflow() {
    // i64::MIN % -1 overflows for the same reason as i64::MIN / -1.
    let mut vm = VM::new();
    vm.push(Cell::Int(i64::MIN)).unwrap();
    vm.push(Cell::Int(-1)).unwrap();
    assert_eq!(mod_prim(&mut vm), Err(TbxError::IntegerOverflow));
}

#[test]
fn test_eq_int_equal() {
    let mut vm = VM::new();
    vm.push(Cell::Int(42)).unwrap();
    vm.push(Cell::Int(42)).unwrap();
    eq_prim(&mut vm).unwrap();
    assert_eq!(vm.pop(), Ok(Cell::Bool(true)));
}

#[test]
fn test_eq_int_not_equal() {
    let mut vm = VM::new();
    vm.push(Cell::Int(1)).unwrap();
    vm.push(Cell::Int(2)).unwrap();
    eq_prim(&mut vm).unwrap();
    assert_eq!(vm.pop(), Ok(Cell::Bool(false)));
}

#[test]
fn test_eq_different_types() {
    let mut vm = VM::new();
    vm.push(Cell::Int(1)).unwrap();
    vm.push(Cell::Bool(true)).unwrap();
    eq_prim(&mut vm).unwrap();
    assert_eq!(vm.pop(), Ok(Cell::Bool(false)));
}

#[test]
fn test_eq_str_compares_content() {
    let mut vm = VM::new();
    vm.push(Cell::Str("hello".to_string())).unwrap();
    vm.push(Cell::Str("hello".to_string())).unwrap();
    eq_prim(&mut vm).unwrap();
    assert_eq!(vm.pop(), Ok(Cell::Bool(true)));
}

#[test]
fn test_eq_str_different_handles_same_content_is_true() {
    // Two distinct Cell::Str handles holding identical content compare equal.
    let mut vm = VM::new();
    vm.push(Cell::Str("hello".to_string())).unwrap();
    vm.push(Cell::Str("hello".to_string())).unwrap();
    eq_prim(&mut vm).unwrap();
    assert_eq!(vm.pop(), Ok(Cell::Bool(true)));
}

#[test]
fn test_neq_int() {
    let mut vm = VM::new();
    vm.push(Cell::Int(1)).unwrap();
    vm.push(Cell::Int(2)).unwrap();
    neq_prim(&mut vm).unwrap();
    assert_eq!(vm.pop(), Ok(Cell::Bool(true)));
}

#[test]
fn test_neq_equal() {
    let mut vm = VM::new();
    vm.push(Cell::Int(5)).unwrap();
    vm.push(Cell::Int(5)).unwrap();
    neq_prim(&mut vm).unwrap();
    assert_eq!(vm.pop(), Ok(Cell::Bool(false)));
}

#[test]
fn test_neq_str_compares_content() {
    let mut vm = VM::new();
    vm.push(Cell::Str("foo".to_string())).unwrap();
    vm.push(Cell::Str("bar".to_string())).unwrap();
    neq_prim(&mut vm).unwrap();
    assert_eq!(vm.pop(), Ok(Cell::Bool(true)));
}

#[test]
fn test_neq_str_different_handles_different_content_is_true() {
    // Two distinct Cell::Str handles with different content compare not-equal.
    let mut vm = VM::new();
    vm.push(Cell::Str("hello".to_string())).unwrap();
    vm.push(Cell::Str("world".to_string())).unwrap();
    neq_prim(&mut vm).unwrap();
    assert_eq!(vm.pop(), Ok(Cell::Bool(true)));
}

#[test]
fn test_lt_int() {
    let mut vm = VM::new();
    vm.push(Cell::Int(1)).unwrap();
    vm.push(Cell::Int(2)).unwrap();
    lt_prim(&mut vm).unwrap();
    assert_eq!(vm.pop(), Ok(Cell::Bool(true)));
}

#[test]
fn test_lt_int_false() {
    let mut vm = VM::new();
    vm.push(Cell::Int(3)).unwrap();
    vm.push(Cell::Int(2)).unwrap();
    lt_prim(&mut vm).unwrap();
    assert_eq!(vm.pop(), Ok(Cell::Bool(false)));
}

#[test]
fn test_lt_type_error() {
    let mut vm = VM::new();
    vm.push(Cell::Bool(true)).unwrap();
    vm.push(Cell::Int(1)).unwrap();
    assert!(matches!(lt_prim(&mut vm), Err(TbxError::TypeError { .. })));
}

#[test]
fn test_gt_int() {
    let mut vm = VM::new();
    vm.push(Cell::Int(3)).unwrap();
    vm.push(Cell::Int(2)).unwrap();
    gt_prim(&mut vm).unwrap();
    assert_eq!(vm.pop(), Ok(Cell::Bool(true)));
}

#[test]
fn test_gt_int_false() {
    let mut vm = VM::new();
    vm.push(Cell::Int(1)).unwrap();
    vm.push(Cell::Int(2)).unwrap();
    gt_prim(&mut vm).unwrap();
    assert_eq!(vm.pop(), Ok(Cell::Bool(false)));
}

#[test]
fn test_gt_type_error() {
    let mut vm = VM::new();
    vm.push(Cell::Bool(true)).unwrap();
    vm.push(Cell::Int(1)).unwrap();
    assert!(matches!(gt_prim(&mut vm), Err(TbxError::TypeError { .. })));
}

#[test]
fn test_le_int_equal() {
    let mut vm = VM::new();
    vm.push(Cell::Int(2)).unwrap();
    vm.push(Cell::Int(2)).unwrap();
    le_prim(&mut vm).unwrap();
    assert_eq!(vm.pop(), Ok(Cell::Bool(true)));
}

#[test]
fn test_le_int_less() {
    let mut vm = VM::new();
    vm.push(Cell::Int(1)).unwrap();
    vm.push(Cell::Int(2)).unwrap();
    le_prim(&mut vm).unwrap();
    assert_eq!(vm.pop(), Ok(Cell::Bool(true)));
}

#[test]
fn test_le_int_greater() {
    let mut vm = VM::new();
    vm.push(Cell::Int(3)).unwrap();
    vm.push(Cell::Int(2)).unwrap();
    le_prim(&mut vm).unwrap();
    assert_eq!(vm.pop(), Ok(Cell::Bool(false)));
}

#[test]
fn test_le_type_error() {
    let mut vm = VM::new();
    vm.push(Cell::Bool(true)).unwrap();
    vm.push(Cell::Int(1)).unwrap();
    assert!(matches!(le_prim(&mut vm), Err(TbxError::TypeError { .. })));
}

#[test]
fn test_ge_int_equal() {
    let mut vm = VM::new();
    vm.push(Cell::Int(2)).unwrap();
    vm.push(Cell::Int(2)).unwrap();
    ge_prim(&mut vm).unwrap();
    assert_eq!(vm.pop(), Ok(Cell::Bool(true)));
}

#[test]
fn test_ge_int_greater() {
    let mut vm = VM::new();
    vm.push(Cell::Int(3)).unwrap();
    vm.push(Cell::Int(2)).unwrap();
    ge_prim(&mut vm).unwrap();
    assert_eq!(vm.pop(), Ok(Cell::Bool(true)));
}

#[test]
fn test_ge_int_less() {
    let mut vm = VM::new();
    vm.push(Cell::Int(1)).unwrap();
    vm.push(Cell::Int(2)).unwrap();
    ge_prim(&mut vm).unwrap();
    assert_eq!(vm.pop(), Ok(Cell::Bool(false)));
}

#[test]
fn test_ge_type_error() {
    let mut vm = VM::new();
    vm.push(Cell::Bool(true)).unwrap();
    vm.push(Cell::Int(1)).unwrap();
    assert!(matches!(ge_prim(&mut vm), Err(TbxError::TypeError { .. })));
}

#[test]
fn test_and_true_true() {
    let mut vm = VM::new();
    vm.push(Cell::Bool(true)).unwrap();
    vm.push(Cell::Bool(true)).unwrap();
    and_prim(&mut vm).unwrap();
    assert_eq!(vm.pop(), Ok(Cell::Bool(true)));
}

#[test]
fn test_and_true_false() {
    let mut vm = VM::new();
    vm.push(Cell::Bool(true)).unwrap();
    vm.push(Cell::Bool(false)).unwrap();
    and_prim(&mut vm).unwrap();
    assert_eq!(vm.pop(), Ok(Cell::Bool(false)));
}

#[test]
fn test_and_int_truthy() {
    let mut vm = VM::new();
    vm.push(Cell::Int(1)).unwrap();
    vm.push(Cell::Int(2)).unwrap();
    and_prim(&mut vm).unwrap();
    assert_eq!(vm.pop(), Ok(Cell::Bool(true)));
}

#[test]
fn test_and_int_zero_falsy() {
    let mut vm = VM::new();
    vm.push(Cell::Int(1)).unwrap();
    vm.push(Cell::Int(0)).unwrap();
    and_prim(&mut vm).unwrap();
    assert_eq!(vm.pop(), Ok(Cell::Bool(false)));
}

#[test]
fn test_or_false_false() {
    let mut vm = VM::new();
    vm.push(Cell::Bool(false)).unwrap();
    vm.push(Cell::Bool(false)).unwrap();
    or_prim(&mut vm).unwrap();
    assert_eq!(vm.pop(), Ok(Cell::Bool(false)));
}

#[test]
fn test_or_true_false() {
    let mut vm = VM::new();
    vm.push(Cell::Bool(true)).unwrap();
    vm.push(Cell::Bool(false)).unwrap();
    or_prim(&mut vm).unwrap();
    assert_eq!(vm.pop(), Ok(Cell::Bool(true)));
}

#[test]
fn test_or_int_zero_and_nonzero() {
    let mut vm = VM::new();
    vm.push(Cell::Int(0)).unwrap();
    vm.push(Cell::Int(5)).unwrap();
    or_prim(&mut vm).unwrap();
    assert_eq!(vm.pop(), Ok(Cell::Bool(true)));
}

#[test]
fn test_band_basic() {
    let mut vm = VM::new();
    vm.push(Cell::Int(1)).unwrap();
    vm.push(Cell::Int(3)).unwrap();
    band_prim(&mut vm).unwrap();
    assert_eq!(vm.pop(), Ok(Cell::Int(1)));
}

#[test]
fn test_band_zero() {
    let mut vm = VM::new();
    vm.push(Cell::Int(0)).unwrap();
    vm.push(Cell::Int(5)).unwrap();
    band_prim(&mut vm).unwrap();
    assert_eq!(vm.pop(), Ok(Cell::Int(0)));
}

#[test]
fn test_band_type_error() {
    let mut vm = VM::new();
    vm.push(Cell::Bool(true)).unwrap();
    vm.push(Cell::Int(1)).unwrap();
    assert!(matches!(
        band_prim(&mut vm),
        Err(TbxError::TypeError { .. })
    ));
}

#[test]
fn test_band_type_error_top() {
    // b (stack top) is non-Int; first pop should fail with TypeError.
    let mut vm = VM::new();
    vm.push(Cell::Int(1)).unwrap();
    vm.push(Cell::Bool(true)).unwrap();
    assert!(matches!(
        band_prim(&mut vm),
        Err(TbxError::TypeError { .. })
    ));
}

#[test]
fn test_bor_basic() {
    let mut vm = VM::new();
    vm.push(Cell::Int(1)).unwrap();
    vm.push(Cell::Int(2)).unwrap();
    bor_prim(&mut vm).unwrap();
    assert_eq!(vm.pop(), Ok(Cell::Int(3)));
}

#[test]
fn test_bor_same() {
    let mut vm = VM::new();
    vm.push(Cell::Int(5)).unwrap();
    vm.push(Cell::Int(5)).unwrap();
    bor_prim(&mut vm).unwrap();
    assert_eq!(vm.pop(), Ok(Cell::Int(5)));
}

#[test]
fn test_bor_type_error() {
    let mut vm = VM::new();
    vm.push(Cell::Bool(false)).unwrap();
    vm.push(Cell::Int(1)).unwrap();
    assert!(matches!(bor_prim(&mut vm), Err(TbxError::TypeError { .. })));
}

#[test]
fn test_bor_type_error_top() {
    // b (stack top) is non-Int; first pop should fail with TypeError.
    let mut vm = VM::new();
    vm.push(Cell::Int(1)).unwrap();
    vm.push(Cell::Bool(false)).unwrap();
    assert!(matches!(bor_prim(&mut vm), Err(TbxError::TypeError { .. })));
}

#[test]
fn test_str_stored_via_store_to_dict_succeeds() {
    // With `Cell::Str(Rc<str>)`, dict store no longer depends on the legacy
    // string-pool lifetime classification.  Both frame-local- and top-level-
    // originated strings are safe to store in a dict slot, so the previous
    // `StringFrameEscape` distinction is gone.
    let mut vm = VM::new();
    vm.dictionary.push(Cell::Nil);
    vm.push(Cell::Str("hello".to_string())).unwrap();
    vm.push(Cell::DictAddr(0)).unwrap();
    store_prim(&mut vm).unwrap();
    assert_eq!(vm.dict_read(0).unwrap(), Cell::Str("hello".to_string()));
}

#[test]
fn test_putchr_basic() {
    let mut vm = VM::new();
    vm.push(Cell::Int(65)).unwrap(); // 'A'
    putchr_prim(&mut vm).unwrap();
    assert_eq!(vm.take_output(), "A");
}

#[test]
fn test_putchr_newline() {
    let mut vm = VM::new();
    vm.push(Cell::Int(10)).unwrap(); // '\n'
    putchr_prim(&mut vm).unwrap();
    assert_eq!(vm.take_output(), "\n");
}

#[test]
fn test_putchr_out_of_range() {
    let mut vm = VM::new();
    vm.push(Cell::Int(128)).unwrap();
    assert!(matches!(
        putchr_prim(&mut vm),
        Err(TbxError::TypeError { .. })
    ));
}

#[test]
fn test_putchr_negative() {
    let mut vm = VM::new();
    vm.push(Cell::Int(-1)).unwrap();
    assert!(matches!(
        putchr_prim(&mut vm),
        Err(TbxError::TypeError { .. })
    ));
}

#[test]
fn test_putchr_type_error() {
    let mut vm = VM::new();
    vm.push(Cell::Bool(true)).unwrap();
    assert!(matches!(
        putchr_prim(&mut vm),
        Err(TbxError::TypeError { .. })
    ));
}

#[test]
fn test_putdec_positive() {
    let mut vm = VM::new();
    vm.push(Cell::Int(42)).unwrap();
    putdec_prim(&mut vm).unwrap();
    assert_eq!(vm.take_output(), "42");
}

#[test]
fn test_putdec_negative() {
    let mut vm = VM::new();
    vm.push(Cell::Int(-7)).unwrap();
    putdec_prim(&mut vm).unwrap();
    assert_eq!(vm.take_output(), "-7");
}

#[test]
fn test_putdec_zero() {
    let mut vm = VM::new();
    vm.push(Cell::Int(0)).unwrap();
    putdec_prim(&mut vm).unwrap();
    assert_eq!(vm.take_output(), "0");
}

#[test]
fn test_putdec_type_error() {
    let mut vm = VM::new();
    vm.push(Cell::Bool(true)).unwrap();
    assert!(matches!(
        putdec_prim(&mut vm),
        Err(TbxError::TypeError { .. })
    ));
}

#[test]
fn test_puthex_positive() {
    let mut vm = VM::new();
    vm.push(Cell::Int(255)).unwrap();
    puthex_prim(&mut vm).unwrap();
    assert_eq!(vm.take_output(), "$FF");
}

#[test]
fn test_puthex_zero() {
    let mut vm = VM::new();
    vm.push(Cell::Int(0)).unwrap();
    puthex_prim(&mut vm).unwrap();
    assert_eq!(vm.take_output(), "$0");
}

#[test]
fn test_puthex_negative() {
    let mut vm = VM::new();
    vm.push(Cell::Int(-1)).unwrap();
    puthex_prim(&mut vm).unwrap();
    assert_eq!(vm.take_output(), "$FFFFFFFFFFFFFFFF");
}

#[test]
fn test_puthex_type_error() {
    let mut vm = VM::new();
    vm.push(Cell::Bool(true)).unwrap();
    assert!(matches!(
        puthex_prim(&mut vm),
        Err(TbxError::TypeError { .. })
    ));
}

#[test]
fn test_putval_int() {
    let mut vm = VM::new();
    vm.push(Cell::Int(42)).unwrap();
    putval_prim(&mut vm).unwrap();
    assert_eq!(vm.take_output(), "42");
}

#[test]
fn test_putval_bool_true() {
    let mut vm = VM::new();
    vm.push(Cell::Bool(true)).unwrap();
    putval_prim(&mut vm).unwrap();
    assert_eq!(vm.take_output(), "TRUE");
}

#[test]
fn test_putval_bool_false() {
    let mut vm = VM::new();
    vm.push(Cell::Bool(false)).unwrap();
    putval_prim(&mut vm).unwrap();
    assert_eq!(vm.take_output(), "FALSE");
}

#[test]
fn test_putval_str() {
    let mut vm = VM::new();
    vm.push(Cell::Str("world".to_string())).unwrap();
    putval_prim(&mut vm).unwrap();
    assert_eq!(vm.take_output(), "world");
}

#[test]
fn test_putval_none_error() {
    let mut vm = VM::new();
    vm.push(Cell::Nil).unwrap();
    assert!(matches!(
        putval_prim(&mut vm),
        Err(TbxError::TypeError { .. })
    ));
}

#[test]
fn test_append_writes_to_dictionary() {
    let mut vm = VM::new();
    vm.push(Cell::Int(42)).unwrap();
    append_prim(&mut vm).unwrap();
    assert_eq!(vm.dictionary.len(), 1);
    assert_eq!(vm.dp, 1);
    assert!(matches!(vm.dictionary[0], Cell::Int(42)));
}

#[test]
fn test_append_xt_value() {
    let mut vm = VM::new();
    vm.push(Cell::Xt(Xt(5))).unwrap();
    append_prim(&mut vm).unwrap();
    assert_eq!(vm.dictionary.len(), 1);
    assert!(matches!(vm.dictionary[0], Cell::Xt(_)));
}

#[test]
fn test_append_multiple() {
    let mut vm = VM::new();
    vm.push(Cell::Int(10)).unwrap();
    append_prim(&mut vm).unwrap();
    vm.push(Cell::Int(20)).unwrap();
    append_prim(&mut vm).unwrap();
    vm.push(Cell::Int(30)).unwrap();
    append_prim(&mut vm).unwrap();
    assert_eq!(vm.dp, 3);
    assert!(matches!(vm.dictionary[0], Cell::Int(10)));
    assert!(matches!(vm.dictionary[1], Cell::Int(20)));
    assert!(matches!(vm.dictionary[2], Cell::Int(30)));
}

#[test]
fn test_append_overflow() {
    let mut vm = VM::new();
    vm.dp = MAX_DICTIONARY_CELLS;
    // Manually grow dictionary to match dp invariant
    vm.dictionary.resize(MAX_DICTIONARY_CELLS, Cell::Nil);
    vm.push(Cell::Int(1)).unwrap();
    assert!(matches!(
        append_prim(&mut vm),
        Err(TbxError::DictionaryOverflow { .. })
    ));
}

#[test]
fn test_allot_reserves_cells() {
    let mut vm = VM::new();
    vm.push(Cell::Int(5)).unwrap();
    allot_prim(&mut vm).unwrap();
    assert_eq!(vm.dp, 5);
    assert_eq!(vm.dictionary.len(), 5);
    // Returns start address
    assert_eq!(vm.pop().unwrap(), Cell::DictAddr(0));
}

#[test]
fn test_allot_after_append() {
    let mut vm = VM::new();
    vm.push(Cell::Int(100)).unwrap();
    append_prim(&mut vm).unwrap();
    vm.push(Cell::Int(3)).unwrap();
    allot_prim(&mut vm).unwrap();
    assert_eq!(vm.dp, 4);
    assert_eq!(vm.pop().unwrap(), Cell::DictAddr(1));
}

#[test]
fn test_allot_zero() {
    let mut vm = VM::new();
    vm.push(Cell::Int(0)).unwrap();
    allot_prim(&mut vm).unwrap();
    assert_eq!(vm.dp, 0);
    assert_eq!(vm.pop().unwrap(), Cell::DictAddr(0));
}

#[test]
fn test_allot_negative() {
    let mut vm = VM::new();
    vm.push(Cell::Int(-1)).unwrap();
    assert!(matches!(
        allot_prim(&mut vm),
        Err(TbxError::InvalidAllotCount)
    ));
}

#[test]
fn test_allot_type_error() {
    let mut vm = VM::new();
    vm.push(Cell::Bool(true)).unwrap();
    assert!(matches!(
        allot_prim(&mut vm),
        Err(TbxError::TypeError { .. })
    ));
}

#[test]
fn test_here_initial() {
    let mut vm = VM::new();
    here_prim(&mut vm).unwrap();
    assert_eq!(vm.pop().unwrap(), Cell::DictAddr(0));
}

#[test]
fn test_here_after_append() {
    let mut vm = VM::new();
    vm.push(Cell::Int(1)).unwrap();
    append_prim(&mut vm).unwrap();
    vm.push(Cell::Int(2)).unwrap();
    append_prim(&mut vm).unwrap();
    here_prim(&mut vm).unwrap();
    assert_eq!(vm.pop().unwrap(), Cell::DictAddr(2));
}

#[test]
fn test_allot_overflow() {
    let mut vm = VM::new();
    vm.push(Cell::Int((MAX_DICTIONARY_CELLS + 1) as i64))
        .unwrap();
    assert!(matches!(
        allot_prim(&mut vm),
        Err(TbxError::DictionaryOverflow { .. })
    ));
}

#[test]
fn test_state_execute_mode() {
    let mut vm = VM::new();
    state_prim(&mut vm).unwrap();
    assert_eq!(vm.pop().unwrap(), Cell::Int(0));
}

#[test]
fn test_state_compile_mode() {
    let mut vm = VM::new();
    vm.is_compiling = true;
    state_prim(&mut vm).unwrap();
    assert_eq!(vm.pop().unwrap(), Cell::Int(1));
}

#[test]
fn test_halt_leaves_stack_unchanged() {
    let mut vm = VM::new();
    vm.push(Cell::Int(42)).unwrap();
    let _ = halt_prim(&mut vm);
    assert_eq!(vm.data_stack.len(), 1);
    assert_eq!(vm.pop().unwrap(), Cell::Int(42));
}

#[test]
fn test_assert_fail_leaves_stack_unchanged() {
    let mut vm = VM::new();
    vm.push(Cell::Int(1)).unwrap();
    let _ = assert_fail_prim(&mut vm);
    assert_eq!(vm.data_stack.len(), 1);
    assert_eq!(vm.pop().unwrap(), Cell::Int(1));
}

#[test]
fn test_assert_fail_msg_returns_assertion_failed_with_message() {
    let mut vm = VM::new();
    vm.push(Cell::Str("SIGN(7) should be 1".to_string())).unwrap();
    let result = assert_fail_msg_prim(&mut vm);
    assert!(matches!(
        result,
        Err(TbxError::AssertionFailedWithMessage { .. })
    ));
    if let Err(TbxError::AssertionFailedWithMessage { message }) = result {
        assert_eq!(message, "SIGN(7) should be 1");
    }
}

#[test]
fn test_assert_fail_msg_pops_message_from_stack() {
    let mut vm = VM::new();
    vm.push(Cell::Str("msg".to_string())).unwrap();
    let _ = assert_fail_msg_prim(&mut vm);
    assert_eq!(vm.data_stack.len(), 0);
}

#[test]
fn test_literal_compiles_lit_and_value() {
    // LITERAL should write [Xt(LIT), value] into the dictionary.
    let mut vm = VM::new();
    register_all(&mut vm);

    let lit_xt = vm.lookup("LIT").unwrap();
    let dp_before = vm.dp;

    vm.push(Cell::Int(123)).unwrap();
    literal_prim(&mut vm).unwrap();

    assert_eq!(vm.dictionary[dp_before], Cell::Xt(lit_xt));
    assert_eq!(vm.dictionary[dp_before + 1], Cell::Int(123));
    assert_eq!(vm.dp, dp_before + 2);
}

#[test]
fn test_literal_prim_is_not_immediate() {
    // LITERAL must NOT have FLAG_IMMEDIATE; it is a system-internal compile-time primitive
    // that must not be caught by the interpreter's IMMEDIATE dispatch.
    let mut vm = VM::new();
    register_all(&mut vm);
    let xt = vm.lookup("LITERAL").unwrap();
    assert!(!vm.headers[xt.index()].is_immediate());
}

#[test]
fn test_header_prim_registers_entry_with_ident() {
    // HEADER with an Ident token should register a new word entry at current DP.
    let mut vm = VM::new();
    let dp_before = vm.dp;
    vm.token_stream = Some(VecDeque::from([make_ident_token("MYWORD")]));
    header_prim(&mut vm).unwrap();

    let xt = vm.latest.unwrap();
    let entry = &vm.headers[xt.index()];
    assert_eq!(entry.name, "MYWORD");
    assert!(matches!(entry.kind, EntryKind::Word(d) if d == dp_before));
    assert!(!entry.is_immediate());
    // Must be visible via normal lookup (not smudged).
    assert!(vm.lookup("MYWORD").is_some());
}

#[test]
fn test_header_prim_does_not_advance_dp() {
    // HEADER must not modify vm.dp — data allocation is the caller's responsibility.
    let mut vm = VM::new();
    let dp_before = vm.dp;
    vm.token_stream = Some(VecDeque::from([make_ident_token("WORD2")]));
    header_prim(&mut vm).unwrap();
    assert_eq!(vm.dp, dp_before);
}

#[test]
fn test_header_prim_non_ident_token_returns_error() {
    // A non-Ident token should produce an InvalidExpression error.
    let mut vm = VM::new();
    let tok = SpannedToken {
        token: Token::IntLit(42),
        pos: Position { line: 1, col: 1 },
        source_offset: 0,
        source_len: 2,
        char_start: 0,
        char_end: 0,
    };
    vm.token_stream = Some(VecDeque::from([tok]));
    let err = header_prim(&mut vm).unwrap_err();
    assert!(matches!(err, TbxError::InvalidExpression { .. }));
}

#[test]
fn test_header_prim_registered_in_register_all() {
    // register_all() must include HEADER in the dictionary with FLAG_IMMEDIATE.
    let mut vm = VM::new();
    register_all(&mut vm);
    let xt = vm.lookup("HEADER").unwrap();
    assert!(vm.headers[xt.index()].is_immediate());
}

#[test]
fn test_immediate_prim_sets_flag() {
    // IMMEDIATE FOO should set FLAG_IMMEDIATE on the word "FOO".
    let mut vm = VM::new();
    // Register a plain word entry so lookup("FOO") succeeds.
    let entry = WordEntry::new_word("FOO", 0);
    vm.register(entry);
    assert!(!vm.headers[vm.lookup("FOO").unwrap().index()].is_immediate());
    vm.token_stream = Some(VecDeque::from([make_ident_token("FOO")]));
    immediate_prim(&mut vm).unwrap();
    assert!(vm.headers[vm.lookup("FOO").unwrap().index()].is_immediate());
}

#[test]
fn test_immediate_prim_is_idempotent() {
    // Calling IMMEDIATE twice on the same word must not corrupt the flags.
    let mut vm = VM::new();
    let entry = WordEntry::new_word("BAR", 0);
    vm.register(entry);
    for _ in 0..2 {
        vm.token_stream = Some(VecDeque::from([make_ident_token("BAR")]));
        immediate_prim(&mut vm).unwrap();
    }
    let xt = vm.lookup("BAR").unwrap();
    // Only FLAG_IMMEDIATE should be set (bit-OR idempotent).
    assert_eq!(
        vm.headers[xt.index()].flags & FLAG_IMMEDIATE,
        FLAG_IMMEDIATE
    );
}

#[test]
fn test_immediate_prim_non_ident_token_returns_error() {
    // A non-Ident token must produce an InvalidExpression error.
    let mut vm = VM::new();
    let tok = SpannedToken {
        token: Token::IntLit(1),
        pos: Position { line: 1, col: 1 },
        source_offset: 0,
        source_len: 1,
        char_start: 0,
        char_end: 0,
    };
    vm.token_stream = Some(VecDeque::from([tok]));
    let err = immediate_prim(&mut vm).unwrap_err();
    assert!(matches!(err, TbxError::InvalidExpression { .. }));
}

#[test]
fn test_immediate_prim_undefined_word_returns_error() {
    // Specifying a word name that is not in the dictionary must return UndefinedSymbol.
    let mut vm = VM::new();
    vm.token_stream = Some(VecDeque::from([make_ident_token("NOSUCHWORD")]));
    let err = immediate_prim(&mut vm).unwrap_err();
    assert!(
        matches!(err, TbxError::UndefinedSymbol { ref name } if name == "NOSUCHWORD"),
        "expected UndefinedSymbol(NOSUCHWORD), got {err:?}"
    );
}

#[test]
fn test_immediate_prim_registered_in_register_all() {
    // register_all() must include IMMEDIATE in the dictionary with FLAG_IMMEDIATE.
    let mut vm = VM::new();
    register_all(&mut vm);
    let xt = vm.lookup("IMMEDIATE").unwrap();
    assert!(vm.headers[xt.index()].is_immediate());
}

#[test]
fn test_def_nested_error() {
    // DEF inside an already-compiling context must return InvalidExpression.
    let mut vm = VM::new();
    register_all(&mut vm);
    vm.is_compiling = true;
    vm.token_stream = Some(VecDeque::from([make_ident_token("FOO")]));
    let err = def_prim(&mut vm).unwrap_err();
    assert!(
        matches!(err, TbxError::InvalidExpression { .. }),
        "expected InvalidExpression, got {err:?}"
    );
}

#[test]
fn test_def_unexpected_token_after_name_error() {
    // A token other than '(' or end-of-stream after the word name must return InvalidExpression.
    let mut vm = VM::new();
    register_all(&mut vm);
    // Supply: WORD <IntLit>  — IntLit is not LParen.
    vm.token_stream = Some(VecDeque::from([
        make_ident_token("WORD"),
        SpannedToken {
            token: Token::IntLit(42),
            pos: Position { line: 1, col: 6 },
            source_offset: 5,
            source_len: 2,
            char_start: 0,
            char_end: 0,
        },
    ]));
    let err = def_prim(&mut vm).unwrap_err();
    assert!(
        matches!(err, TbxError::InvalidExpression { .. }),
        "expected InvalidExpression for unexpected token after word name, got {err:?}"
    );
}

#[test]
fn test_def_unclosed_paren_no_params() {
    // DEF WORD( — unclosed '(' with no parameters must return InvalidExpression.
    let mut vm = VM::new();
    register_all(&mut vm);
    vm.token_stream = Some(VecDeque::from([
        make_ident_token("WORD"),
        make_lparen_token(),
    ]));
    let err = def_prim(&mut vm).unwrap_err();
    assert!(
        matches!(err, TbxError::InvalidExpression { .. }),
        "expected InvalidExpression for unclosed '(', got {err:?}"
    );
}

#[test]
fn test_def_unclosed_paren_with_param() {
    // DEF WORD(X — unclosed '(' after one parameter must return InvalidExpression.
    let mut vm = VM::new();
    register_all(&mut vm);
    vm.token_stream = Some(VecDeque::from([
        make_ident_token("WORD"),
        make_lparen_token(),
        make_ident_token("X"),
    ]));
    let err = def_prim(&mut vm).unwrap_err();
    assert!(
        matches!(err, TbxError::InvalidExpression { .. }),
        "expected InvalidExpression for unclosed '(' after param, got {err:?}"
    );
}

#[test]
fn test_def_unclosed_paren_after_comma() {
    // DEF WORD(X, — unclosed '(' after comma must return InvalidExpression.
    let mut vm = VM::new();
    register_all(&mut vm);
    vm.token_stream = Some(VecDeque::from([
        make_ident_token("WORD"),
        make_lparen_token(),
        make_ident_token("X"),
        make_comma_token(),
    ]));
    let err = def_prim(&mut vm).unwrap_err();
    assert!(
        matches!(err, TbxError::InvalidExpression { .. }),
        "expected InvalidExpression for unclosed '(' after comma, got {err:?}"
    );
}

#[test]
fn test_def_trailing_comma() {
    // DEF WORD(X,) — trailing comma before ')' must return InvalidExpression.
    let mut vm = VM::new();
    register_all(&mut vm);
    vm.token_stream = Some(VecDeque::from([
        make_ident_token("WORD"),
        make_lparen_token(),
        make_ident_token("X"),
        make_comma_token(),
        make_rparen_token(),
    ]));
    let err = def_prim(&mut vm).unwrap_err();
    assert!(
        matches!(err, TbxError::InvalidExpression { .. }),
        "expected InvalidExpression for trailing comma, got {err:?}"
    );
}

#[test]
fn test_def_params_without_comma() {
    // DEF WORD(X Y) — missing comma between parameters must return InvalidExpression.
    let mut vm = VM::new();
    register_all(&mut vm);
    vm.token_stream = Some(VecDeque::from([
        make_ident_token("WORD"),
        make_lparen_token(),
        make_ident_token("X"),
        make_ident_token("Y"),
        make_rparen_token(),
    ]));
    let err = def_prim(&mut vm).unwrap_err();
    assert!(
        matches!(err, TbxError::InvalidExpression { .. }),
        "expected InvalidExpression for missing comma between params, got {err:?}"
    );
}

#[test]
fn test_def_leading_comma() {
    // DEF WORD(,X) — leading comma must return InvalidExpression.
    let mut vm = VM::new();
    register_all(&mut vm);
    vm.token_stream = Some(VecDeque::from([
        make_ident_token("WORD"),
        make_lparen_token(),
        make_comma_token(),
        make_ident_token("X"),
        make_rparen_token(),
    ]));
    let err = def_prim(&mut vm).unwrap_err();
    assert!(
        matches!(err, TbxError::InvalidExpression { .. }),
        "expected InvalidExpression for leading comma, got {err:?}"
    );
}

#[test]
fn test_def_duplicate_param_name() {
    // DEF WORD(X, X) — duplicate parameter name must return InvalidExpression.
    let mut vm = VM::new();
    register_all(&mut vm);
    vm.token_stream = Some(VecDeque::from([
        make_ident_token("WORD"),
        make_lparen_token(),
        make_ident_token("X"),
        make_comma_token(),
        make_ident_token("X"),
        make_rparen_token(),
    ]));
    let err = def_prim(&mut vm).unwrap_err();
    assert!(
        matches!(err, TbxError::InvalidExpression { reason } if reason.contains("duplicate parameter name")),
        "expected InvalidExpression for duplicate param name, got {err:?}"
    );
}

#[test]
fn test_def_duplicate_param_name_first_and_third() {
    // DEF WORD(X, Y, X) — duplicate between 1st and 3rd param must return InvalidExpression.
    let mut vm = VM::new();
    register_all(&mut vm);
    vm.token_stream = Some(VecDeque::from([
        make_ident_token("WORD"),
        make_lparen_token(),
        make_ident_token("X"),
        make_comma_token(),
        make_ident_token("Y"),
        make_comma_token(),
        make_ident_token("X"),
        make_rparen_token(),
    ]));
    let err = def_prim(&mut vm).unwrap_err();
    assert!(
        matches!(err, TbxError::InvalidExpression { reason } if reason.contains("duplicate parameter name")),
        "expected InvalidExpression for first-and-third duplicate param, got {err:?}"
    );
}

#[test]
fn test_def_invalid_token_after_comma() {
    // DEF WORD(X, 42) — non-ident token after comma must return InvalidExpression.
    let mut vm = VM::new();
    register_all(&mut vm);
    vm.token_stream = Some(VecDeque::from([
        make_ident_token("WORD"),
        make_lparen_token(),
        make_ident_token("X"),
        make_comma_token(),
        SpannedToken {
            token: Token::IntLit(42),
            pos: Position { line: 1, col: 9 },
            source_offset: 8,
            source_len: 2,
            char_start: 0,
            char_end: 0,
        },
    ]));
    let err = def_prim(&mut vm).unwrap_err();
    assert!(
        matches!(err, TbxError::InvalidExpression { .. }),
        "expected InvalidExpression for non-ident after comma, got {err:?}"
    );
}

#[test]
fn test_def_prim_no_params_enters_compile_mode() {
    // DEF WORD (no parameter list) must set is_compiling to true with no locals.
    let mut vm = VM::new();
    register_all(&mut vm);
    // Provide only the word name token; token stream ends after that.
    vm.token_stream = Some(VecDeque::from([make_ident_token("MYWORD")]));
    def_prim(&mut vm).unwrap();
    assert!(vm.is_compiling, "is_compiling must be true after DEF");
    let state = vm
        .compile_state
        .as_ref()
        .expect("compile_state must be set");
    assert_eq!(state.word_name, "MYWORD");
    assert_eq!(state.arity, 0);
    assert!(state.local_table.is_empty());
}

#[test]
fn test_def_prim_with_params_sets_local_table_and_arity() {
    // DEF WORD(X, Y) must enter compile mode with arity=2 and local_table {X:0, Y:1}.
    let mut vm = VM::new();
    register_all(&mut vm);
    // Tokens: WORD ( X , Y )
    vm.token_stream = Some(VecDeque::from([
        make_ident_token("WORD"),
        make_lparen_token(),
        make_ident_token("X"),
        make_comma_token(),
        make_ident_token("Y"),
        make_rparen_token(),
    ]));
    def_prim(&mut vm).unwrap();
    assert!(vm.is_compiling, "is_compiling must be true after DEF");
    let state = vm
        .compile_state
        .as_ref()
        .expect("compile_state must be set");
    assert_eq!(state.arity, 2);
    assert_eq!(local_slot(&state.local_table, "X"), Some(0));
    assert_eq!(local_slot(&state.local_table, "Y"), Some(1));
}

#[test]
fn test_def_prim_empty_params_enters_compile_mode() {
    // DEF WORD() — explicit empty parameter list must enter compile mode with arity=0.
    let mut vm = VM::new();
    register_all(&mut vm);
    vm.token_stream = Some(VecDeque::from([
        make_ident_token("WORD"),
        make_lparen_token(),
        make_rparen_token(),
    ]));
    def_prim(&mut vm).unwrap();
    assert!(vm.is_compiling, "is_compiling must be true after DEF");
    let state = vm
        .compile_state
        .as_ref()
        .expect("compile_state must be set");
    assert_eq!(state.word_name, "WORD");
    assert_eq!(state.arity, 0);
    assert!(state.local_table.is_empty());
}

#[test]
fn test_end_prim_normal() {
    // end_prim called after def_prim should:
    // - write EXIT into the dictionary
    // - clear FLAG_HIDDEN on the word header (unsmudge)
    // - set is_compiling to false
    let mut vm = make_compiling_vm("MYWORD");

    // Record the word header index before calling end_prim.
    let word_hdr_idx = vm
        .compile_state
        .as_ref()
        .map(|s| s.word_hdr_idx())
        .expect("compile_state must be set");

    // The word should be hidden (smudged) while being compiled.
    assert!(
        vm.headers[word_hdr_idx].flags & FLAG_HIDDEN != 0,
        "word must be hidden during compilation"
    );

    end_prim(&mut vm).unwrap();

    // is_compiling must be cleared.
    assert!(!vm.is_compiling, "is_compiling must be false after END");

    // FLAG_HIDDEN must be cleared (unsmudged).
    assert_eq!(
        vm.headers[word_hdr_idx].flags & FLAG_HIDDEN,
        0,
        "FLAG_HIDDEN must be cleared after END"
    );

    // The last cell written to the dictionary must be EXIT (an Xt pointing to
    // an Exit entry).
    let exit_cell = vm.dict_read(vm.dp - 1).expect("dict_read should succeed");
    assert!(
        matches!(exit_cell, Cell::Xt(_)),
        "last written cell must be an Xt (EXIT), got {exit_cell:?}"
    );
    if let Cell::Xt(xt) = exit_cell {
        assert!(
            matches!(vm.headers[xt.index()].kind, EntryKind::Exit),
            "EXIT xt must point to an Exit entry"
        );
    }
}

#[test]
fn test_goto_outside_def_error() {
    // GOTO outside a DEF body must return InvalidExpression.
    let mut vm = make_vm_with_tokens(vec![Token::IntLit(10)]);
    let err = goto_prim(&mut vm).unwrap_err();
    assert!(
        matches!(err, TbxError::InvalidExpression { .. }),
        "expected InvalidExpression, got {err:?}"
    );
}

#[test]
fn test_bif_outside_def_error() {
    // BIF outside a DEF body must return InvalidExpression.
    let mut vm = make_vm_with_tokens(vec![]);
    let err = bif_prim(&mut vm).unwrap_err();
    assert!(
        matches!(err, TbxError::InvalidExpression { .. }),
        "expected InvalidExpression, got {err:?}"
    );
}

#[test]
fn test_bit_outside_def_error() {
    // BIT outside a DEF body must return InvalidExpression.
    let mut vm = make_vm_with_tokens(vec![]);
    let err = bit_prim(&mut vm).unwrap_err();
    assert!(
        matches!(err, TbxError::InvalidExpression { .. }),
        "expected InvalidExpression, got {err:?}"
    );
}

#[test]
fn test_return_outside_def_error() {
    // RETURN outside a DEF body must return InvalidExpression.
    let mut vm = make_vm_with_tokens(vec![]);
    let err = return_prim(&mut vm).unwrap_err();
    assert!(
        matches!(err, TbxError::InvalidExpression { .. }),
        "expected InvalidExpression, got {err:?}"
    );
}

#[test]
fn test_var_prim_local_variable() {
    // VAR X inside DEF should register X in compile_state.local_table.
    let mut vm = make_compiling_vm("TESTWORD");
    vm.token_stream = Some(VecDeque::from([make_ident_token("X")]));
    var_prim(&mut vm).unwrap();
    let state = vm.compile_state.as_ref().unwrap();
    assert_eq!(local_slot(&state.local_table, "X"), Some(0));
    assert_eq!(state.local_count, 1);
}

#[test]
fn test_var_prim_global_variable() {
    // VAR MYVAR outside DEF should register a Variable entry in the dictionary.
    let mut vm = VM::new();
    register_all(&mut vm);
    // is_compiling is false by default.
    vm.token_stream = Some(VecDeque::from([make_ident_token("MYVAR")]));
    var_prim(&mut vm).unwrap();
    let xt = vm.lookup("MYVAR").expect("MYVAR should be registered");
    assert!(
        matches!(
            vm.headers[xt.index()].kind,
            EntryKind::Variable(_)
        ),
        "expected Variable entry, got {:?}",
        vm.headers[xt.index()].kind
    );
}

#[test]
fn test_var_prim_multi_local_variables() {
    // VAR A, B, C inside DEF should register three independent local-variable slots.
    let mut vm = make_compiling_vm("MULTIWORD");
    vm.token_stream = Some(VecDeque::from([
        make_ident_token("A"),
        make_comma_token(),
        make_ident_token("B"),
        make_comma_token(),
        make_ident_token("C"),
    ]));
    var_prim(&mut vm).unwrap();
    let state = vm.compile_state.as_ref().unwrap();
    assert_eq!(state.local_count, 3);
    assert_eq!(local_slot(&state.local_table, "A"), Some(0));
    assert_eq!(local_slot(&state.local_table, "B"), Some(1));
    assert_eq!(local_slot(&state.local_table, "C"), Some(2));
}

#[test]
fn test_var_prim_multi_global_variables() {
    // VAR X, Y outside DEF should register two independent global Variable entries.
    let mut vm = VM::new();
    register_all(&mut vm);
    vm.token_stream = Some(VecDeque::from([
        make_ident_token("X"),
        make_comma_token(),
        make_ident_token("Y"),
    ]));
    var_prim(&mut vm).unwrap();
    let xt_x = vm.lookup("X").expect("X should be registered");
    let xt_y = vm.lookup("Y").expect("Y should be registered");
    assert!(
        matches!(
            vm.headers[xt_x.index()].kind,
            EntryKind::Variable(_)
        ),
        "expected Variable entry for X, got {:?}",
        vm.headers[xt_x.index()].kind
    );
    assert!(
        matches!(
            vm.headers[xt_y.index()].kind,
            EntryKind::Variable(_)
        ),
        "expected Variable entry for Y, got {:?}",
        vm.headers[xt_y.index()].kind
    );
    // Each variable should occupy a distinct storage cell.
    let addr_x = match vm.headers[xt_x.index()].kind {
        EntryKind::Variable(a) => a,
        _ => panic!("expected Variable"),
    };
    let addr_y = match vm.headers[xt_y.index()].kind {
        EntryKind::Variable(a) => a,
        _ => panic!("expected Variable"),
    };
    assert_ne!(addr_x, addr_y, "X and Y must use different storage cells");
}

#[test]
fn test_var_prim_comma_without_ident_returns_error() {
    // VAR A, 1 (non-ident after comma) should return InvalidExpression.
    let mut vm = make_compiling_vm("BADWORD");
    vm.token_stream = Some(VecDeque::from([
        make_ident_token("A"),
        make_comma_token(),
        SpannedToken {
            token: Token::IntLit(1),
            pos: Position { line: 1, col: 1 },
            source_offset: 0,
            source_len: 1,
            char_start: 0,
            char_end: 0,
        },
    ]));
    let err = var_prim(&mut vm).unwrap_err();
    assert!(
        matches!(err, TbxError::InvalidExpression { .. }),
        "expected InvalidExpression, got {err:?}"
    );
}

#[test]
fn test_var_prim_non_comma_token_returned_to_stream() {
    // After VAR A followed by a non-comma token, the non-comma token must be
    // pushed back so later consumers can still read it.
    let mut vm = make_compiling_vm("PUSHBACKWORD");
    let newline_tok = SpannedToken {
        token: Token::Newline,
        pos: Position { line: 1, col: 2 },
        source_offset: 1,
        source_len: 1,
        char_start: 0,
        char_end: 0,
    };
    vm.token_stream = Some(VecDeque::from([make_ident_token("A"), newline_tok.clone()]));
    var_prim(&mut vm).unwrap();
    // The Newline token must have been pushed back to the front.
    let remaining = vm
        .token_stream
        .as_ref()
        .expect("stream should still be Some");
    assert_eq!(remaining.len(), 1);
    assert!(
        matches!(remaining[0].token, Token::Newline),
        "expected Newline to be pushed back, got {:?}",
        remaining[0].token
    );
}

#[test]
fn test_var_prim_init_registers_local_and_emits_set() {
    // VAR X = 42 inside DEF should register X in local_table and emit
    // [Xt(LIT), StackAddr(0), Xt(LIT), Int(42), Xt(SET)] to the dictionary.
    let mut vm = make_compiling_vm("INITWORD");
    let dp_before = vm.dp;
    vm.token_stream = Some(VecDeque::from([
        make_ident_token("X"),
        make_op_token("="),
        SpannedToken {
            token: Token::IntLit(42),
            pos: Position { line: 1, col: 1 },
            source_offset: 0,
            source_len: 2,
            char_start: 0,
            char_end: 0,
        },
    ]));
    var_prim(&mut vm).unwrap();

    // X should be in local_table with index 0.
    let state = vm.compile_state.as_ref().unwrap();
    assert_eq!(local_slot(&state.local_table, "X"), Some(0));
    assert_eq!(state.local_count, 1);

    // Dictionary should have grown by at least 4 cells:
    // [Xt(LIT), StackAddr(0), Xt(LIT), Int(42), Xt(SET)]
    assert!(
        vm.dp >= dp_before + 5,
        "expected at least 5 cells emitted, dp_before={dp_before} dp={}",
        vm.dp
    );

    // Cell 0: Xt(LIT)
    assert!(
        matches!(vm.dict_read(dp_before).unwrap(), Cell::Xt(_)),
        "expected Xt(LIT) at dp_before"
    );
    // Cell 1: StackAddr(0) — the address of local variable X
    assert_eq!(
        vm.dict_read(dp_before + 1).unwrap(),
        Cell::StackAddr(0),
        "expected StackAddr(0) for local X"
    );
    // Cell 4: Xt(SET)
    assert!(
        matches!(vm.dict_read(dp_before + 4).unwrap(), Cell::Xt(_)),
        "expected Xt(SET) at dp_before+4"
    );
}

#[test]
fn test_var_prim_init_empty_expr_is_error() {
    // VAR X = (nothing) should return InvalidExpression.
    let mut vm = make_compiling_vm("EMPTYINIT");
    vm.token_stream = Some(VecDeque::from([
        make_ident_token("X"),
        make_op_token("="),
        // no expression tokens after '='
    ]));
    let err = var_prim(&mut vm).unwrap_err();
    assert!(
        matches!(err, TbxError::InvalidExpression { .. }),
        "expected InvalidExpression for empty initializer, got {err:?}"
    );
}

#[test]
fn test_var_prim_init_duplicate_name_is_error() {
    // VAR X followed by VAR X = expr should return InvalidExpression for duplicate name.
    let mut vm = make_compiling_vm("DUPWORD");
    // First: declare X without initializer.
    vm.token_stream = Some(VecDeque::from([make_ident_token("X")]));
    var_prim(&mut vm).unwrap();

    // Second: attempt VAR X = 1 — X already in local_table.
    vm.token_stream = Some(VecDeque::from([
        make_ident_token("X"),
        make_op_token("="),
        SpannedToken {
            token: Token::IntLit(1),
            pos: Position { line: 1, col: 1 },
            source_offset: 0,
            source_len: 1,
            char_start: 0,
            char_end: 0,
        },
    ]));
    let err = var_prim(&mut vm).unwrap_err();
    assert!(
        matches!(err, TbxError::InvalidExpression { reason } if reason.contains("duplicate")),
        "expected InvalidExpression for duplicate local variable, got {err:?}"
    );
}

#[test]
fn test_var_prim_global_with_initializer_is_error() {
    // VAR X = 1 outside DEF must return InvalidExpression.
    let mut vm = VM::new();
    register_all(&mut vm);
    // is_compiling is false by default (top-level / execute mode).
    vm.token_stream = Some(VecDeque::from([
        make_ident_token("X"),
        make_op_token("="),
        SpannedToken {
            token: Token::IntLit(1),
            pos: Position { line: 1, col: 1 },
            source_offset: 0,
            source_len: 1,
            char_start: 0,
            char_end: 0,
        },
    ]));
    let err = var_prim(&mut vm).unwrap_err();
    assert!(
        matches!(err, TbxError::InvalidExpression { reason } if reason.contains("outside DEF")),
        "expected InvalidExpression mentioning 'outside DEF', got {err:?}"
    );
    // The variable must NOT have been registered: the dictionary must remain unchanged.
    assert!(
        vm.lookup("X").is_none(),
        "variable 'X' must not be registered when VAR initializer is rejected at top level"
    );
}

#[test]
fn test_var_prim_global_without_initializer_still_works() {
    // VAR X outside DEF (without initializer) must still register a global variable.
    let mut vm = VM::new();
    register_all(&mut vm);
    vm.token_stream = Some(VecDeque::from([make_ident_token("X")]));
    var_prim(&mut vm).unwrap();
    let xt = vm
        .lookup("X")
        .expect("X should be registered as a global variable");
    assert!(
        matches!(
            vm.headers[xt.index()].kind,
            EntryKind::Variable(_)
        ),
        "expected Variable entry for X, got {:?}",
        vm.headers[xt.index()].kind
    );
}

#[test]
fn test_goto_prim_writes_dict() {
    // GOTO 10 inside DEF should write [Xt(goto_rt), DictAddr(0)] to the dictionary
    // (forward reference: label not yet seen, so placeholder DictAddr(0) is emitted
    // and (10, dict_offset) is pushed to patch_list).
    let mut vm = make_compiling_vm("GOTOWORD");
    let dp_before = vm.dp;
    vm.token_stream = Some(VecDeque::from([SpannedToken {
        token: Token::IntLit(10),
        pos: Position { line: 1, col: 1 },
        source_offset: 0,
        source_len: 2,
        char_start: 0,
        char_end: 0,
    }]));
    goto_prim(&mut vm).unwrap();
    // dict[dp_before] = Xt(goto runtime entry), dict[dp_before+1] = DictAddr(0) placeholder.
    let goto_cell = vm.dict_read(dp_before).unwrap();
    let target_cell = vm.dict_read(dp_before + 1).unwrap();
    assert!(
        matches!(goto_cell, Cell::Xt(_)),
        "expected Xt for GOTO opcode, got {:?}",
        goto_cell
    );
    assert_eq!(
        target_cell,
        Cell::DictAddr(0),
        "expected forward-ref placeholder DictAddr(0)"
    );
    // patch_list should record the forward reference.
    let state = vm.compile_state.as_ref().unwrap();
    assert_eq!(state.patch_list, vec![(10, dp_before + 1)]);
}

#[test]
fn test_bif_prim_writes_dict() {
    // BIF 1, 20 inside DEF should compile condition (LIT, Int(1)),
    // then emit [Xt(bif_rt), DictAddr(0)] as a forward reference placeholder.
    let mut vm = make_compiling_vm("BIFWORD");
    let dp_before = vm.dp;
    // Token stream: condition=IntLit(1), Comma, label=IntLit(20)
    let make_tok = |t| SpannedToken {
        token: t,
        pos: Position { line: 1, col: 1 },
        source_offset: 0,
        source_len: 1,
        char_start: 0,
        char_end: 0,
    };
    vm.token_stream = Some(VecDeque::from([
        make_tok(Token::IntLit(1)),
        make_tok(Token::Comma),
        make_tok(Token::IntLit(20)),
    ]));
    bif_prim(&mut vm).unwrap();
    // Condition expression for literal 1: [Xt(LIT), Int(1)] then [Xt(bif_rt), DictAddr(0)].
    let lit_cell = vm.dict_read(dp_before).unwrap();
    let val_cell = vm.dict_read(dp_before + 1).unwrap();
    let bif_cell = vm.dict_read(dp_before + 2).unwrap();
    let target_cell = vm.dict_read(dp_before + 3).unwrap();
    assert!(
        matches!(lit_cell, Cell::Xt(_)),
        "expected LIT Xt, got {:?}",
        lit_cell
    );
    assert_eq!(val_cell, Cell::Int(1));
    assert!(
        matches!(bif_cell, Cell::Xt(_)),
        "expected BIF Xt, got {:?}",
        bif_cell
    );
    assert_eq!(
        target_cell,
        Cell::DictAddr(0),
        "expected forward-ref placeholder"
    );
    // patch_list should record label 20.
    let state = vm.compile_state.as_ref().unwrap();
    assert!(
        state.patch_list.iter().any(|&(lbl, _)| lbl == 20),
        "expected patch_list to contain label 20, got {:?}",
        state.patch_list
    );
}

#[test]
fn test_bit_prim_writes_dict() {
    // BIT 1, 30 inside DEF should compile condition then emit [Xt(bit_rt), DictAddr(0)].
    let mut vm = make_compiling_vm("BITWORD");
    let dp_before = vm.dp;
    let make_tok = |t| SpannedToken {
        token: t,
        pos: Position { line: 1, col: 1 },
        source_offset: 0,
        source_len: 1,
        char_start: 0,
        char_end: 0,
    };
    vm.token_stream = Some(VecDeque::from([
        make_tok(Token::IntLit(1)),
        make_tok(Token::Comma),
        make_tok(Token::IntLit(30)),
    ]));
    bit_prim(&mut vm).unwrap();
    // [Xt(LIT), Int(1), Xt(bit_rt), DictAddr(0)]
    let lit_cell = vm.dict_read(dp_before).unwrap();
    let val_cell = vm.dict_read(dp_before + 1).unwrap();
    let bit_cell = vm.dict_read(dp_before + 2).unwrap();
    let target_cell = vm.dict_read(dp_before + 3).unwrap();
    assert!(
        matches!(lit_cell, Cell::Xt(_)),
        "expected LIT Xt, got {:?}",
        lit_cell
    );
    assert_eq!(val_cell, Cell::Int(1));
    assert!(
        matches!(bit_cell, Cell::Xt(_)),
        "expected BIT Xt, got {:?}",
        bit_cell
    );
    assert_eq!(
        target_cell,
        Cell::DictAddr(0),
        "expected forward-ref placeholder"
    );
    let state = vm.compile_state.as_ref().unwrap();
    assert!(
        state.patch_list.iter().any(|&(lbl, _)| lbl == 30),
        "expected patch_list to contain label 30, got {:?}",
        state.patch_list
    );
}

#[test]
fn test_return_prim_void_writes_exit() {
    // RETURN with no expression inside DEF should emit Xt(EXIT) to the dictionary.
    let mut vm = make_compiling_vm("RETWORD");
    let dp_before = vm.dp;
    // Empty token stream → void return.
    vm.token_stream = Some(VecDeque::new());
    return_prim(&mut vm).unwrap();
    let cell = vm.dict_read(dp_before).unwrap();
    assert!(
        matches!(cell, Cell::Xt(_)),
        "expected Xt(EXIT), got {:?}",
        cell
    );
    // Verify it is the EXIT entry by checking kind.
    if let Cell::Xt(xt) = cell {
        assert!(
            matches!(vm.headers[xt.index()].kind, EntryKind::Exit),
            "expected Exit kind, got {:?}",
            vm.headers[xt.index()].kind
        );
    }
}

#[test]
fn test_return_prim_with_expr_writes_return_val() {
    // RETURN 42 inside DEF should:
    //   1. compile the expression (emitting Xt(LIT), Cell::Int(42) to the dictionary),
    //   2. emit Xt(RETURN_VAL) immediately after,
    //   3. restore local_table in compile_state.
    let mut vm = make_compiling_vm("RETEXPR");
    let dp_before = vm.dp;

    // Provide token stream with the integer literal 42.
    vm.token_stream = Some(VecDeque::from([SpannedToken {
        token: Token::IntLit(42),
        pos: Position { line: 1, col: 1 },
        source_offset: 0,
        source_len: 2,
        char_start: 0,
        char_end: 0,
    }]));
    return_prim(&mut vm).unwrap();

    // ExprCompiler emits Xt(LIT) then the value for integer literals.
    // Dictionary layout: [Xt(LIT), Int(42), Xt(RETURN_VAL)]
    let cell0 = vm.dict_read(dp_before).unwrap();
    assert!(
        matches!(cell0, Cell::Xt(_)),
        "expected Xt(LIT) at dp+0, got {:?}",
        cell0
    );

    let cell1 = vm.dict_read(dp_before + 1).unwrap();
    assert_eq!(
        cell1,
        Cell::Int(42),
        "expected Int(42) at dp+1, got {:?}",
        cell1
    );

    let cell2 = vm.dict_read(dp_before + 2).unwrap();
    assert!(
        matches!(cell2, Cell::Xt(_)),
        "expected Xt(RETURN_VAL) at dp+2, got {:?}",
        cell2
    );
    if let Cell::Xt(xt) = cell2 {
        assert!(
            matches!(
                vm.headers[xt.index()].kind,
                EntryKind::ReturnVal
            ),
            "expected ReturnVal kind, got {:?}",
            vm.headers[xt.index()].kind
        );
    }

    // local_table must have been restored in compile_state.
    assert!(
        vm.compile_state.is_some(),
        "compile_state should still be set after return_prim"
    );
}

#[test]
fn test_cs_push_prim_outside_compile_mode_error() {
    // CS_PUSH called when is_compiling == false must return InvalidExpression.
    let mut vm = VM::new();
    register_all(&mut vm);
    vm.push(Cell::Int(42)).unwrap();
    let err = cs_push_prim(&mut vm).unwrap_err();
    assert!(
        matches!(err, TbxError::InvalidExpression { .. }),
        "expected InvalidExpression, got {err:?}"
    );
}

#[test]
fn test_cs_push_prim_moves_value_to_compile_stack() {
    // CS_PUSH must pop the top of the data stack and push it onto compile_stack.
    let mut vm = make_compiling_vm("TESTWORD");
    vm.push(Cell::Int(7)).unwrap();
    cs_push_prim(&mut vm).unwrap();
    // data stack must be empty.
    assert_eq!(vm.pop(), Err(TbxError::StackUnderflow));
    // compile_stack must hold the value.
    assert_eq!(
        vm.compile_stack.last(),
        Some(&CompileEntry::Cell(Cell::Int(7)))
    );
}

#[test]
fn test_cs_pop_prim_outside_compile_mode_error() {
    // CS_POP called when is_compiling == false must return InvalidExpression.
    let mut vm = VM::new();
    register_all(&mut vm);
    vm.compile_stack.push(CompileEntry::Cell(Cell::Int(1)));
    let err = cs_pop_prim(&mut vm).unwrap_err();
    assert!(
        matches!(err, TbxError::InvalidExpression { .. }),
        "expected InvalidExpression, got {err:?}"
    );
}

#[test]
fn test_cs_pop_prim_empty_compile_stack_error() {
    // CS_POP with an empty compile_stack must return StackUnderflow.
    let mut vm = make_compiling_vm("TESTWORD");
    assert!(vm.compile_stack.is_empty());
    let err = cs_pop_prim(&mut vm).unwrap_err();
    assert_eq!(err, TbxError::StackUnderflow);
}

#[test]
fn test_cs_pop_prim_moves_value_to_data_stack() {
    // CS_POP must pop the top of compile_stack and push it onto the data stack.
    let mut vm = make_compiling_vm("TESTWORD");
    vm.compile_stack.push(CompileEntry::Cell(Cell::Int(99)));
    cs_pop_prim(&mut vm).unwrap();
    assert!(vm.compile_stack.is_empty());
    assert_eq!(vm.pop(), Ok(Cell::Int(99)));
}

#[test]
fn test_cs_pop_prim_tag_on_top_type_error() {
    // CS_POP with a Tag on top must return TypeError and leave the tag intact.
    let mut vm = make_compiling_vm("TESTWORD");
    vm.compile_stack.push(CompileEntry::Tag("IF".to_string()));
    let err = cs_pop_prim(&mut vm).unwrap_err();
    assert!(
        matches!(err, TbxError::TypeError { .. }),
        "expected TypeError, got {err:?}"
    );
    // Tag must be preserved on the compile_stack.
    assert_eq!(
        vm.compile_stack.last(),
        Some(&CompileEntry::Tag("IF".to_string()))
    );
}

#[test]
fn test_cs_swap_underflow_one_element() {
    let mut vm = make_compiling_vm("TESTWORD");
    vm.compile_stack.push(CompileEntry::Cell(Cell::Int(1)));
    assert_eq!(cs_swap_prim(&mut vm), Err(TbxError::StackUnderflow));
}

#[test]
fn test_cs_swap_swaps_top_two() {
    let mut vm = make_compiling_vm("TESTWORD");
    vm.compile_stack.push(CompileEntry::Cell(Cell::Int(10)));
    vm.compile_stack.push(CompileEntry::Cell(Cell::Int(20)));
    cs_swap_prim(&mut vm).unwrap();
    assert_eq!(
        vm.compile_stack.pop(),
        Some(CompileEntry::Cell(Cell::Int(10)))
    );
    assert_eq!(
        vm.compile_stack.pop(),
        Some(CompileEntry::Cell(Cell::Int(20)))
    );
    assert!(vm.compile_stack.is_empty());
}

#[test]
fn test_cs_swap_swaps_dict_addr_values() {
    // CS_SWAP must work with Cell::DictAddr values, as used in WHILE/ENDWH.
    let mut vm = make_compiling_vm("TESTWORD");
    vm.compile_stack
        .push(CompileEntry::Cell(Cell::DictAddr(10)));
    vm.compile_stack
        .push(CompileEntry::Cell(Cell::DictAddr(20)));
    cs_swap_prim(&mut vm).unwrap();
    assert_eq!(
        vm.compile_stack.pop(),
        Some(CompileEntry::Cell(Cell::DictAddr(10)))
    );
    assert_eq!(
        vm.compile_stack.pop(),
        Some(CompileEntry::Cell(Cell::DictAddr(20)))
    );
    assert!(vm.compile_stack.is_empty());
}

#[test]
fn test_cs_drop_removes_top() {
    let mut vm = make_compiling_vm("TESTWORD");
    vm.compile_stack.push(CompileEntry::Cell(Cell::Int(1)));
    vm.compile_stack.push(CompileEntry::Cell(Cell::Int(2)));
    cs_drop_prim(&mut vm).unwrap();
    assert_eq!(vm.compile_stack.len(), 1);
    assert_eq!(vm.compile_stack[0], CompileEntry::Cell(Cell::Int(1)));
}

#[test]
fn test_cs_dup_duplicates_top() {
    let mut vm = make_compiling_vm("TESTWORD");
    vm.compile_stack.push(CompileEntry::Cell(Cell::Int(42)));
    cs_dup_prim(&mut vm).unwrap();
    assert_eq!(vm.compile_stack.len(), 2);
    assert_eq!(vm.compile_stack[0], CompileEntry::Cell(Cell::Int(42)));
    assert_eq!(vm.compile_stack[1], CompileEntry::Cell(Cell::Int(42)));
}

#[test]
fn test_cs_dup_duplicates_dict_addr() {
    // CS_DUP must work with Cell::DictAddr values.
    let mut vm = make_compiling_vm("TESTWORD");
    vm.compile_stack
        .push(CompileEntry::Cell(Cell::DictAddr(42)));
    cs_dup_prim(&mut vm).unwrap();
    assert_eq!(vm.compile_stack.len(), 2);
    assert_eq!(vm.compile_stack[0], CompileEntry::Cell(Cell::DictAddr(42)));
    assert_eq!(vm.compile_stack[1], CompileEntry::Cell(Cell::DictAddr(42)));
}

#[test]
fn test_cs_over_underflow_one_element() {
    let mut vm = make_compiling_vm("TESTWORD");
    vm.compile_stack.push(CompileEntry::Cell(Cell::Int(1)));
    assert_eq!(cs_over_prim(&mut vm), Err(TbxError::StackUnderflow));
}

#[test]
fn test_cs_over_copies_second_to_top() {
    let mut vm = make_compiling_vm("TESTWORD");
    vm.compile_stack.push(CompileEntry::Cell(Cell::Int(10))); // bottom
    vm.compile_stack.push(CompileEntry::Cell(Cell::Int(20))); // top
    cs_over_prim(&mut vm).unwrap();
    // Stack should be [10, 20, 10] with 10 on top
    assert_eq!(vm.compile_stack.len(), 3);
    assert_eq!(vm.compile_stack[2], CompileEntry::Cell(Cell::Int(10)));
    assert_eq!(vm.compile_stack[1], CompileEntry::Cell(Cell::Int(20)));
    assert_eq!(vm.compile_stack[0], CompileEntry::Cell(Cell::Int(10)));
}

#[test]
fn test_cs_over_copies_dict_addr() {
    // CS_OVER must work with Cell::DictAddr values.
    let mut vm = make_compiling_vm("TESTWORD");
    vm.compile_stack
        .push(CompileEntry::Cell(Cell::DictAddr(10)));
    vm.compile_stack
        .push(CompileEntry::Cell(Cell::DictAddr(20)));
    cs_over_prim(&mut vm).unwrap();
    assert_eq!(vm.compile_stack.len(), 3);
    assert_eq!(vm.compile_stack[2], CompileEntry::Cell(Cell::DictAddr(10)));
    assert_eq!(vm.compile_stack[1], CompileEntry::Cell(Cell::DictAddr(20)));
    assert_eq!(vm.compile_stack[0], CompileEntry::Cell(Cell::DictAddr(10)));
}

#[test]
fn test_cs_rot_underflow_one_element() {
    let mut vm = make_compiling_vm("TESTWORD");
    vm.compile_stack.push(CompileEntry::Cell(Cell::Int(1)));
    assert_eq!(cs_rot_prim(&mut vm), Err(TbxError::StackUnderflow));
}

#[test]
fn test_cs_rot_underflow_two_elements() {
    let mut vm = make_compiling_vm("TESTWORD");
    vm.compile_stack.push(CompileEntry::Cell(Cell::Int(1)));
    vm.compile_stack.push(CompileEntry::Cell(Cell::Int(2)));
    assert_eq!(cs_rot_prim(&mut vm), Err(TbxError::StackUnderflow));
}

#[test]
fn test_cs_rot_rotates_top_three() {
    // ( a b c -- b c a )  where a=1 (bottom), b=2, c=3 (top)
    let mut vm = make_compiling_vm("TESTWORD");
    vm.compile_stack.push(CompileEntry::Cell(Cell::Int(1))); // a
    vm.compile_stack.push(CompileEntry::Cell(Cell::Int(2))); // b
    vm.compile_stack.push(CompileEntry::Cell(Cell::Int(3))); // c
    cs_rot_prim(&mut vm).unwrap();
    // Result: [b=2, c=3, a=1] with a=1 on top
    assert_eq!(vm.compile_stack.len(), 3);
    assert_eq!(vm.compile_stack[0], CompileEntry::Cell(Cell::Int(2)));
    assert_eq!(vm.compile_stack[1], CompileEntry::Cell(Cell::Int(3)));
    assert_eq!(vm.compile_stack[2], CompileEntry::Cell(Cell::Int(1)));
}

#[test]
fn test_cs_rot_rotates_dict_addr_values() {
    // CS_ROT must work with Cell::DictAddr values (as used in WHILE/ENDWH).
    // ( a b c -- b c a ) with DictAddr values
    let mut vm = make_compiling_vm("TESTWORD");
    vm.compile_stack.push(CompileEntry::Cell(Cell::DictAddr(1))); // a
    vm.compile_stack.push(CompileEntry::Cell(Cell::DictAddr(2))); // b
    vm.compile_stack.push(CompileEntry::Cell(Cell::DictAddr(3))); // c
    cs_rot_prim(&mut vm).unwrap();
    assert_eq!(vm.compile_stack.len(), 3);
    assert_eq!(vm.compile_stack[0], CompileEntry::Cell(Cell::DictAddr(2)));
    assert_eq!(vm.compile_stack[1], CompileEntry::Cell(Cell::DictAddr(3)));
    assert_eq!(vm.compile_stack[2], CompileEntry::Cell(Cell::DictAddr(1)));
}

#[test]
fn test_end_prim_compile_stack_not_empty_error() {
    // end_prim must return CompileStackNotEmpty and rollback when compile_stack
    // has leftover items at the end of the word definition.
    let mut vm = make_compiling_vm("MYWORD");
    // Manually leave an item on compile_stack to simulate an incomplete definition.
    vm.compile_stack.push(CompileEntry::Cell(Cell::Int(1)));
    let err = end_prim(&mut vm).unwrap_err();
    assert!(
        matches!(err, TbxError::CompileStackNotEmpty { count: 1 }),
        "expected CompileStackNotEmpty {{ count: 1 }}, got {err:?}"
    );
    // VM must have been rolled back: is_compiling should be false.
    assert!(
        !vm.is_compiling,
        "is_compiling must be false after rollback"
    );
    // compile_stack must be cleared after rollback to prevent state leakage.
    assert!(
        vm.compile_stack.is_empty(),
        "compile_stack must be empty after rollback"
    );
}

#[test]
fn test_end_prim_tag_on_compile_stack_error() {
    // end_prim must return CompileStackNotEmpty and rollback when a Tag entry
    // is left on compile_stack (simulates an unclosed IF or WHILE).
    let mut vm = make_compiling_vm("MYWORD3");
    vm.compile_stack.push(CompileEntry::Tag("IF".to_string()));
    let err = end_prim(&mut vm).unwrap_err();
    assert!(
        matches!(err, TbxError::CompileStackNotEmpty { count: 1 }),
        "expected CompileStackNotEmpty {{ count: 1 }}, got {err:?}"
    );
    // VM must have been rolled back.
    assert!(
        !vm.is_compiling,
        "is_compiling must be false after rollback"
    );
    assert!(
        vm.compile_stack.is_empty(),
        "compile_stack must be empty after rollback"
    );
}

#[test]
fn test_compile_expr_prim_outside_compile_mode_error() {
    // COMPILE_EXPR called when is_compiling == false must return InvalidExpression.
    let mut vm = VM::new();
    register_all(&mut vm);
    vm.token_stream = Some(
        vec![SpannedToken {
            token: Token::Ident("X".to_string()),
            pos: Position { line: 1, col: 1 },
            source_offset: 0,
            source_len: 1,
            char_start: 0,
            char_end: 0,
        }]
        .into(),
    );
    let err = compile_expr_prim(&mut vm).unwrap_err();
    assert!(
        matches!(err, TbxError::InvalidExpression { .. }),
        "expected InvalidExpression, got {err:?}"
    );
}

#[test]
fn test_compile_expr_prim_compiles_literal_to_dict() {
    // COMPILE_EXPR with a single integer literal must emit cells to dict.
    let mut vm = make_compiling_vm("TESTWORD");
    let dp_before = vm.dp;
    vm.token_stream = Some(
        vec![SpannedToken {
            token: Token::IntLit(42),
            pos: Position { line: 1, col: 1 },
            source_offset: 0,
            source_len: 2,
            char_start: 0,
            char_end: 0,
        }]
        .into(),
    );
    compile_expr_prim(&mut vm).unwrap();
    // At least one cell must have been written.
    assert!(vm.dp > dp_before, "dict must grow after COMPILE_EXPR");
    // token_stream must be drained.
    assert!(
        vm.token_stream
            .as_ref()
            .map(|s| s.is_empty())
            .unwrap_or(true),
        "token_stream must be empty after COMPILE_EXPR"
    );
}

#[test]
fn test_patch_addr_prim_outside_compile_mode_error() {
    // PATCH_ADDR called when is_compiling == false must return InvalidExpression.
    let mut vm = VM::new();
    register_all(&mut vm);
    vm.push(Cell::DictAddr(0)).unwrap();
    let err = patch_addr_prim(&mut vm).unwrap_err();
    assert!(
        matches!(err, TbxError::InvalidExpression { .. }),
        "expected InvalidExpression, got {err:?}"
    );
}

#[test]
fn test_patch_addr_prim_wrong_type_error() {
    // PATCH_ADDR with a non-DictAddr on the stack must return TypeError.
    let mut vm = make_compiling_vm("TESTWORD");
    vm.push(Cell::Int(99)).unwrap();
    let err = patch_addr_prim(&mut vm).unwrap_err();
    assert!(
        matches!(
            err,
            TbxError::TypeError {
                expected: "DictAddr",
                ..
            }
        ),
        "expected TypeError(DictAddr), got {err:?}"
    );
}

#[test]
fn test_patch_addr_prim_writes_dict_addr_at_addr() {
    // PATCH_ADDR must pop DictAddr(a) and write Cell::DictAddr(dp) at dict[a].
    let mut vm = make_compiling_vm("TESTWORD");
    // Write a placeholder at a known position.
    let placeholder_pos = vm.dp;
    vm.dict_write(Cell::DictAddr(0)).unwrap();
    // Push some more cells so dp advances past the placeholder.
    vm.dict_write(Cell::Int(1)).unwrap();
    vm.dict_write(Cell::Int(2)).unwrap();
    let expected_dp = vm.dp;
    // Push the placeholder address onto the data stack and call PATCH_ADDR.
    vm.push(Cell::DictAddr(placeholder_pos)).unwrap();
    patch_addr_prim(&mut vm).unwrap();
    // dict[placeholder_pos] must now hold Cell::DictAddr(dp).
    assert_eq!(
        vm.dict_read(placeholder_pos).unwrap(),
        Cell::DictAddr(expected_dp)
    );
    // Data stack must be empty.
    assert_eq!(vm.pop(), Err(TbxError::StackUnderflow));
}

#[test]
fn test_cs_open_tag_outside_compile_mode_error() {
    // CS_OPEN_TAG outside compile mode must return InvalidExpression.
    let mut vm = VM::new();
    register_all(&mut vm);
    vm.push(Cell::Str("IF".to_string())).unwrap();
    let err = cs_open_tag_prim(&mut vm).unwrap_err();
    assert!(
        matches!(err, TbxError::InvalidExpression { .. }),
        "expected InvalidExpression, got {err:?}"
    );
}

#[test]
fn test_cs_open_tag_pushes_tag_to_compile_stack() {
    // CS_OPEN_TAG must pop a Cell::Str and push the corresponding Tag onto
    // the compile_stack.
    let mut vm = make_compiling_vm("TESTWORD");
    vm.push(Cell::Str("WHILE".to_string())).unwrap();
    cs_open_tag_prim(&mut vm).unwrap();
    // data stack must be empty.
    assert_eq!(vm.pop(), Err(TbxError::StackUnderflow));
    // compile_stack must hold Tag("WHILE").
    assert_eq!(
        vm.compile_stack.last(),
        Some(&CompileEntry::Tag("WHILE".to_string()))
    );
}

#[test]
fn test_cs_open_tag_type_error_non_string() {
    // CS_OPEN_TAG with a non-Str on the data stack must return TypeError.
    let mut vm = make_compiling_vm("TESTWORD");
    vm.push(Cell::Int(42)).unwrap();
    let err = cs_open_tag_prim(&mut vm).unwrap_err();
    assert!(
        matches!(err, TbxError::TypeError { .. }),
        "expected TypeError, got {err:?}"
    );
}

#[test]
fn test_cs_close_tag_outside_compile_mode_error() {
    // CS_CLOSE_TAG outside compile mode must return InvalidExpression.
    let mut vm = VM::new();
    register_all(&mut vm);
    vm.push(Cell::Str("IF".to_string())).unwrap();
    let err = cs_close_tag_prim(&mut vm).unwrap_err();
    assert!(
        matches!(err, TbxError::InvalidExpression { .. }),
        "expected InvalidExpression, got {err:?}"
    );
}

#[test]
fn test_cs_close_tag_matching_pops_tag() {
    // CS_CLOSE_TAG with matching Tag must succeed and pop it from compile_stack.
    let mut vm = make_compiling_vm("TESTWORD");
    vm.compile_stack
        .push(CompileEntry::Tag("WHILE".to_string()));
    vm.push(Cell::Str("WHILE".to_string())).unwrap();
    cs_close_tag_prim(&mut vm).unwrap();
    assert!(vm.compile_stack.is_empty());
}

#[test]
fn test_cs_close_tag_mismatched_tag_error() {
    // CS_CLOSE_TAG with a tag that does not match must return MismatchedTag.
    // Unlike the Cell-on-top case, a mismatched Tag is consumed (not restored):
    // the caller always encounters a compile error and rollback_def() clears
    // compile_stack anyway.
    let mut vm = make_compiling_vm("TESTWORD");
    vm.compile_stack.push(CompileEntry::Tag("IF".to_string()));
    vm.push(Cell::Str("WHILE".to_string())).unwrap();
    let err = cs_close_tag_prim(&mut vm).unwrap_err();
    assert!(
        matches!(
            err,
            TbxError::MismatchedTag {
                ref expected,
                ref found
            } if expected == "WHILE" && found == "IF"
        ),
        "expected MismatchedTag(WHILE/IF), got {err:?}"
    );
    // After MismatchedTag the tag is consumed (not restored), which is intentional:
    // a compile error always triggers rollback_def() that clears compile_stack.
    assert!(
        vm.compile_stack.is_empty(),
        "mismatched tag must be consumed, not restored"
    );
}

#[test]
fn test_cs_close_tag_empty_stack_error() {
    // CS_CLOSE_TAG with an empty compile_stack must return NoOpenTag.
    let mut vm = make_compiling_vm("TESTWORD");
    vm.push(Cell::Str("WHILE".to_string())).unwrap();
    let err = cs_close_tag_prim(&mut vm).unwrap_err();
    assert!(
        matches!(err, TbxError::NoOpenTag { ref expected } if expected == "WHILE"),
        "expected NoOpenTag(WHILE), got {err:?}"
    );
}

#[test]
fn test_cs_close_tag_cell_on_top_error() {
    // CS_CLOSE_TAG with a Cell (not Tag) on top of compile_stack must return NoOpenTag.
    let mut vm = make_compiling_vm("TESTWORD");
    vm.compile_stack.push(CompileEntry::Cell(Cell::Int(42)));
    vm.push(Cell::Str("IF".to_string())).unwrap();
    let err = cs_close_tag_prim(&mut vm).unwrap_err();
    assert!(
        matches!(err, TbxError::NoOpenTag { ref expected } if expected == "IF"),
        "expected NoOpenTag(IF), got {err:?}"
    );
    // The cell must be restored on the compile_stack.
    assert_eq!(
        vm.compile_stack.last(),
        Some(&CompileEntry::Cell(Cell::Int(42)))
    );
}

#[test]
fn test_cs_open_close_tag_correct_nesting() {
    // CS_OPEN_TAG and CS_CLOSE_TAG must support correct IF/WHILE nesting.
    let mut vm = make_compiling_vm("TESTWORD");
    // Simulate: IF ... WHILE ... ENDWH ... ENDIF
    vm.push(Cell::Str("IF".to_string())).unwrap();
    cs_open_tag_prim(&mut vm).unwrap(); // push Tag("IF")

    vm.push(Cell::Str("WHILE".to_string())).unwrap();
    cs_open_tag_prim(&mut vm).unwrap(); // push Tag("WHILE")

    // Close WHILE
    vm.push(Cell::Str("WHILE".to_string())).unwrap();
    cs_close_tag_prim(&mut vm).unwrap(); // pop Tag("WHILE")

    // Close IF
    vm.push(Cell::Str("IF".to_string())).unwrap();
    cs_close_tag_prim(&mut vm).unwrap(); // pop Tag("IF")

    assert!(vm.compile_stack.is_empty());
}

#[test]
fn test_compile_lvalue_outside_compile_mode_error() {
    let mut vm = VM::new();
    register_all(&mut vm);
    vm.token_stream = Some(VecDeque::from([make_ident_token("X")]));
    let result = compile_lvalue_prim(&mut vm);
    assert!(
        matches!(result, Err(TbxError::InvalidExpression { .. })),
        "expected InvalidExpression outside compile mode"
    );
}

#[test]
fn test_compile_lvalue_local_variable_emits_stack_addr() {
    // COMPILE_LVALUE with a known local variable should emit LIT StackAddr(idx).
    let mut vm = make_compiling_vm("TESTWORD");
    // Declare a local variable X (index 0).
    vm.token_stream = Some(VecDeque::from([make_ident_token("X")]));
    var_prim(&mut vm).unwrap();

    let dp_before = vm.dp;
    vm.token_stream = Some(VecDeque::from([make_ident_token("X")]));
    compile_lvalue_prim(&mut vm).unwrap();

    // Two cells should have been written: Xt(LIT) and StackAddr(0).
    assert_eq!(vm.dp, dp_before + 2);
    let cell1 = vm.dict_read(dp_before).unwrap();
    let cell2 = vm.dict_read(dp_before + 1).unwrap();
    assert!(
        matches!(cell1, Cell::Xt(_)),
        "expected Xt(LIT)"
    );
    assert_eq!(cell2, Cell::StackAddr(0));
}

#[test]
fn test_compile_lvalue_global_variable_emits_dict_addr() {
    // COMPILE_LVALUE with a global Variable entry should emit LIT DictAddr(addr).
    let mut vm = VM::new();
    register_all(&mut vm);
    // Register a global variable GVAR.
    vm.token_stream = Some(VecDeque::from([make_ident_token("GVAR")]));
    var_prim(&mut vm).unwrap();

    // Switch to compile mode to call compile_lvalue_prim.
    vm.token_stream = Some(VecDeque::from([make_ident_token("HELPER")]));
    def_prim(&mut vm).unwrap();

    let dp_before = vm.dp;
    vm.token_stream = Some(VecDeque::from([make_ident_token("GVAR")]));
    compile_lvalue_prim(&mut vm).unwrap();

    assert_eq!(vm.dp, dp_before + 2);
    let cell2 = vm.dict_read(dp_before + 1).unwrap();
    assert!(
        matches!(cell2, Cell::DictAddr(_)),
        "expected DictAddr for global variable"
    );
}

#[test]
fn test_compile_lvalue_undefined_variable_error() {
    let mut vm = make_compiling_vm("TESTWORD");
    vm.token_stream = Some(VecDeque::from([make_ident_token("NOSUCH")]));
    let result = compile_lvalue_prim(&mut vm);
    assert!(
        matches!(result, Err(TbxError::UndefinedSymbol { .. })),
        "expected UndefinedSymbol for unknown variable"
    );
    // local_table must be restored even on error.
    assert!(
        vm.compile_state.is_some(),
        "compile_state should still exist"
    );
}

#[test]
fn test_compile_lvalue_non_variable_identifier_error() {
    // Passing a non-variable identifier (e.g. a primitive word) should give TypeError.
    let mut vm = make_compiling_vm("TESTWORD");
    // "DROP" is a known word but not a Variable.
    vm.token_stream = Some(VecDeque::from([make_ident_token("DROP")]));
    let result = compile_lvalue_prim(&mut vm);
    assert!(
        matches!(result, Err(TbxError::TypeError { .. })),
        "expected TypeError for non-variable identifier"
    );
    // local_table must be restored even on error.
    assert!(
        vm.compile_state.is_some(),
        "compile_state should still exist"
    );
}

#[test]
fn test_compile_lvalue_non_ident_token_error() {
    // Passing a non-identifier token (e.g. an integer literal) as lvalue should
    // produce an InvalidExpression error (the `_ => ...` branch in compile_lvalue_prim).
    let mut vm = make_compiling_vm("TESTWORD");
    let int_token = SpannedToken {
        token: Token::IntLit(10),
        pos: Position { line: 1, col: 1 },
        source_offset: 0,
        source_len: 2,
        char_start: 0,
        char_end: 0,
    };
    vm.token_stream = Some(VecDeque::from([int_token]));
    let result = compile_lvalue_prim(&mut vm);
    assert!(
        matches!(result, Err(TbxError::InvalidExpression { .. })),
        "expected InvalidExpression for non-Ident lvalue token"
    );
}

#[test]
fn test_skip_eq_outside_compile_mode_error() {
    let mut vm = VM::new();
    register_all(&mut vm);
    vm.token_stream = Some(VecDeque::from([make_op_token("=")]));
    let result = skip_eq_prim(&mut vm);
    assert!(
        matches!(result, Err(TbxError::InvalidExpression { .. })),
        "expected InvalidExpression outside compile mode"
    );
}

#[test]
fn test_skip_eq_consumes_equals_token() {
    let mut vm = make_compiling_vm("TESTWORD");
    vm.token_stream = Some(VecDeque::from([make_op_token("=")]));
    skip_eq_prim(&mut vm).unwrap();
    // Token stream should be empty after consuming '='.
    assert!(vm.token_stream.as_ref().unwrap().is_empty());
}

#[test]
fn test_skip_eq_non_equals_token_error() {
    let mut vm = make_compiling_vm("TESTWORD");
    vm.token_stream = Some(VecDeque::from([make_op_token("+")]));
    let result = skip_eq_prim(&mut vm);
    assert!(
        matches!(result, Err(TbxError::InvalidExpression { .. })),
        "expected InvalidExpression for non-'=' token"
    );
}

#[test]
fn test_accept_does_not_push_to_stack() {
    let mut vm = VM::new();
    vm.set_input("42\n");
    accept_prim(&mut vm).unwrap();
    // Stack must remain empty — accept_prim only reads; it does not push.
    assert_eq!(vm.data_stack.len(), 0);
}

#[test]
fn test_getdec_pushes_integer() {
    let mut vm = VM::new();
    vm.set_input("42\n");
    getdec_prim(&mut vm).unwrap();
    assert_eq!(vm.pop(), Ok(Cell::Int(42)));
}

#[test]
fn test_getdec_negative_integer() {
    let mut vm = VM::new();
    vm.set_input("-7\n");
    getdec_prim(&mut vm).unwrap();
    assert_eq!(vm.pop(), Ok(Cell::Int(-7)));
}

#[test]
fn test_getdec_trims_whitespace() {
    let mut vm = VM::new();
    vm.set_input("  100  \n");
    getdec_prim(&mut vm).unwrap();
    assert_eq!(vm.pop(), Ok(Cell::Int(100)));
}

#[test]
fn test_getdec_reads_from_reader_directly() {
    // Verify that getdec_prim works without a prior accept_prim call.
    let mut vm = VM::new();
    vm.set_input("123\n");
    getdec_prim(&mut vm).unwrap();
    assert_eq!(vm.pop(), Ok(Cell::Int(123)));
}

#[test]
fn test_getstr_pushes_str() {
    let mut vm = VM::new();
    vm.set_input("hello\n");
    getstr_prim(&mut vm).unwrap();
    assert_eq!(vm.pop(), Ok(Cell::Str("hello".to_string())));
}

#[test]
fn test_getstr_empty_line() {
    let mut vm = VM::new();
    vm.set_input("\n");
    getstr_prim(&mut vm).unwrap();
    assert_eq!(vm.pop(), Ok(Cell::Str("".to_string())));
}

#[test]
fn test_getstr_strips_newline() {
    let mut vm = VM::new();
    vm.set_input("world\r\n");
    getstr_prim(&mut vm).unwrap();
    assert_eq!(vm.pop().unwrap(), Cell::Str("world".to_string()));
}

#[test]
fn test_getstr_content_matches_input() {
    let mut vm = VM::new();
    vm.set_input("foo bar\n");
    getstr_prim(&mut vm).unwrap();
    let cell = vm.pop().unwrap();
    if let Cell::Str(s) = cell {
        assert_eq!(s.as_str(), "foo bar");
    } else {
        panic!("expected Cell::Str, got {:?}", cell);
    }
}

#[test]
fn test_getstr_flushes_output_before_read() {
    let mut vm = VM::new();
    vm.output_buffer = "prompt: ".to_string();
    vm.set_input("answer\n");
    getstr_prim(&mut vm).unwrap();
    // After reading, the output buffer should have been flushed (empty).
    assert!(vm.output_buffer.is_empty());
}

#[test]
fn test_int_prim_int_identity() {
    // INT(5) => 5 (identity for Cell::Int)
    let mut vm = VM::new();
    vm.push(Cell::Int(5)).unwrap();
    int_prim(&mut vm).unwrap();
    assert_eq!(vm.pop(), Ok(Cell::Int(5)));
}

#[test]
fn test_array_len_prim_type_error() {
    // ARRAY_LEN on a non-Array cell must return TypeError.
    let mut vm = VM::new();
    vm.push(Cell::Int(42)).unwrap();
    assert!(matches!(
        array_len_prim(&mut vm),
        Err(TbxError::TypeError {
            expected: "Array",
            ..
        })
    ));
}

#[test]
fn test_rnd_prim_range() {
    // RND(n) must always return a value in [1, n].
    let mut vm = VM::new();
    vm.rng = rand::rngs::SmallRng::seed_from_u64(42);
    for _ in 0..100 {
        vm.push(Cell::Int(6)).unwrap();
        rnd_prim(&mut vm).unwrap();
        let result = vm.pop_int().unwrap();
        assert!((1..=6).contains(&result), "RND(6) out of range: {result}");
    }
}

#[test]
fn test_rnd_prim_one() {
    // RND(1) must always return 1.
    let mut vm = VM::new();
    vm.rng = rand::rngs::SmallRng::seed_from_u64(0);
    for _ in 0..10 {
        vm.push(Cell::Int(1)).unwrap();
        rnd_prim(&mut vm).unwrap();
        assert_eq!(vm.pop(), Ok(Cell::Int(1)));
    }
}

#[test]
fn test_rnd_prim_zero_error() {
    // RND(0) must return InvalidArgument.
    let mut vm = VM::new();
    vm.push(Cell::Int(0)).unwrap();
    assert!(matches!(
        rnd_prim(&mut vm),
        Err(TbxError::InvalidArgument { .. })
    ));
}

#[test]
fn test_rnd_prim_negative_error() {
    // RND(-1) must return InvalidArgument.
    let mut vm = VM::new();
    vm.push(Cell::Int(-1)).unwrap();
    assert!(matches!(
        rnd_prim(&mut vm),
        Err(TbxError::InvalidArgument { .. })
    ));
}

#[test]
fn test_randomize_prim_no_error() {
    // RANDOMIZE must complete without error and leave the stack unchanged.
    let mut vm = VM::new();
    randomize_prim(&mut vm).unwrap();
    assert_eq!(vm.data_stack.len(), 0);
}

#[test]
fn test_hour_type_error() {
    let mut vm = VM::new();
    vm.push(Cell::Bool(true)).unwrap();
    assert!(matches!(
        hour_prim(&mut vm),
        Err(TbxError::TypeError { .. })
    ));
}

#[test]
fn test_minute_accepts_int() {
    let mut vm = VM::new();
    vm.push(Cell::Int(1_700_000_000)).unwrap();
    minute_prim(&mut vm).unwrap();
    assert_eq!(vm.pop(), Ok(Cell::Int(13)));
}

#[test]
fn test_minute_type_error() {
    let mut vm = VM::new();
    vm.push(Cell::Bool(false)).unwrap();
    assert!(matches!(
        minute_prim(&mut vm),
        Err(TbxError::TypeError { .. })
    ));
}

#[test]
fn test_get_output_returns_str_cell() {
    let mut vm = VM::new();
    vm.write_output("test");

    get_output_prim(&mut vm).unwrap();

    let cell = vm.pop().unwrap();
    assert!(matches!(cell, Cell::Str(_)));
}

#[test]
fn test_putval_array_error() {
    let mut vm = VM::new();
    vm.arrays.push(vec![Cell::Nil; 3]);
    vm.push(Cell::Array(0)).unwrap();
    assert!(matches!(
        putval_prim(&mut vm),
        Err(TbxError::TypeError { .. })
    ));
}

#[test]
fn test_array_get_prim_reads_element() {
    // User index 1 maps to internal index 0.
    let mut vm = VM::new();
    vm.arrays.push(vec![
        Cell::Int(10),
        Cell::Int(20),
        Cell::Int(30),
    ]);
    vm.push(Cell::Array(0)).unwrap();
    vm.push(Cell::Int(1)).unwrap();
    array_get_prim(&mut vm).unwrap();
    assert_eq!(vm.pop(), Ok(Cell::Int(10)));
}

#[test]
fn test_array_get_prim_reads_second_element() {
    // User index 2 maps to internal index 1.
    let mut vm = VM::new();
    vm.arrays.push(vec![
        Cell::Int(10),
        Cell::Int(20),
        Cell::Int(30),
    ]);
    vm.push(Cell::Array(0)).unwrap();
    vm.push(Cell::Int(2)).unwrap();
    array_get_prim(&mut vm).unwrap();
    assert_eq!(vm.pop(), Ok(Cell::Int(20)));
}

#[test]
fn test_array_get_prim_out_of_bounds() {
    let mut vm = VM::new();
    vm.arrays.push(vec![Cell::Int(1)]);
    vm.push(Cell::Array(0)).unwrap();
    vm.push(Cell::Int(5)).unwrap();
    assert!(matches!(
        array_get_prim(&mut vm),
        Err(TbxError::ArrayIndexOutOfBounds { index: 5, size: 1 })
    ));
}

#[test]
fn test_array_get_prim_zero_index_is_out_of_bounds() {
    // Index 0 is invalid in 1-based indexing.
    let mut vm = VM::new();
    vm.arrays.push(vec![Cell::Int(1)]);
    vm.push(Cell::Array(0)).unwrap();
    vm.push(Cell::Int(0)).unwrap();
    assert!(matches!(
        array_get_prim(&mut vm),
        Err(TbxError::ArrayIndexOutOfBounds { index: 0, .. })
    ));
}

#[test]
fn test_array_get_prim_negative_index() {
    let mut vm = VM::new();
    vm.arrays.push(vec![Cell::Int(1)]);
    vm.push(Cell::Array(0)).unwrap();
    vm.push(Cell::Int(-1)).unwrap();
    assert!(matches!(
        array_get_prim(&mut vm),
        Err(TbxError::ArrayIndexOutOfBounds { index: -1, .. })
    ));
}

#[test]
fn test_array_addr_prim_pushes_array_addr() {
    // User index 1 maps to internal elem_idx 0.
    let mut vm = VM::new();
    vm.arrays.push(vec![Cell::Int(0), Cell::Int(0)]);
    vm.push(Cell::Array(0)).unwrap();
    vm.push(Cell::Int(1)).unwrap();
    array_addr_prim(&mut vm).unwrap();
    assert_eq!(
        vm.pop(),
        Ok(Cell::ArrayElem(0, 0))
    );
}

#[test]
fn test_array_addr_prim_zero_index_is_out_of_bounds() {
    // Index 0 is invalid in 1-based indexing.
    let mut vm = VM::new();
    vm.arrays.push(vec![Cell::Int(0), Cell::Int(0)]);
    vm.push(Cell::Array(0)).unwrap();
    vm.push(Cell::Int(0)).unwrap();
    assert!(matches!(
        array_addr_prim(&mut vm),
        Err(TbxError::ArrayIndexOutOfBounds { index: 0, .. })
    ));
}

#[test]
fn test_store_array_to_dict_addr_is_type_error() {
    // STORE must reject Cell::Array written to a DictAddr (scalar variable) slot.
    let mut vm = VM::new();
    vm.dictionary.push(Cell::Nil); // dict[0] = placeholder
    vm.push(Cell::Array(0)).unwrap(); // value
    vm.push(Cell::DictAddr(0)).unwrap(); // address
    assert!(
        matches!(
            store_prim(&mut vm),
            Err(TbxError::TypeError { got: "Array", .. })
        ),
        "expected TypeError(Array) from STORE to DictAddr"
    );
}

#[test]
fn test_set_array_to_dict_addr_is_type_error() {
    // SET must reject Cell::Array written to a DictAddr (scalar variable) slot.
    let mut vm = VM::new();
    vm.dictionary.push(Cell::Nil); // dict[0] = placeholder
                                    // set_prim: stack is [..., addr, value]
    vm.push(Cell::DictAddr(0)).unwrap(); // address
    vm.push(Cell::Array(0)).unwrap(); // value
    assert!(
        matches!(
            set_prim(&mut vm),
            Err(TbxError::TypeError { got: "Array", .. })
        ),
        "expected TypeError(Array) from SET to DictAddr"
    );
}

#[test]
fn test_store_to_array_addr() {
    let mut vm = VM::new();
    vm.arrays.push(vec![Cell::Nil, Cell::Nil]);
    vm.push(Cell::Int(99)).unwrap();
    vm.push(Cell::ArrayElem(0, 1)).unwrap();
    store_prim(&mut vm).unwrap();
    assert_eq!(vm.arrays[0].get(1).cloned(), Some(Cell::Int(99)));
}

#[test]
fn test_set_to_array_addr() {
    let mut vm = VM::new();
    vm.arrays.push(vec![Cell::Nil, Cell::Nil]);
    vm.push(Cell::ArrayElem(0, 0)).unwrap();
    vm.push(Cell::Int(42)).unwrap();
    set_prim(&mut vm).unwrap();
    assert_eq!(vm.arrays[0].get(0).cloned(), Some(Cell::Int(42)));
}

#[test]
fn test_set_str_to_array_element_is_allowed() {
    // Cell::Str(Rc<str>) written through SET must succeed (#591).
    let mut vm = VM::new();
    vm.arrays.push(vec![Cell::Nil]);
    vm.push(Cell::ArrayElem(0, 0)).unwrap();
    vm.push(Cell::Str("hello".to_string())).unwrap();
    set_prim(&mut vm).unwrap();
    assert_eq!(vm.arrays[0].get(0).cloned(), Some(Cell::Str("hello".to_string())));
}

#[test]
fn test_store_str_to_array_element_is_allowed() {
    // Same as the SET path above, exercised through STORE (#591).
    let mut vm = VM::new();
    vm.arrays.push(vec![Cell::Nil]);
    vm.push(Cell::Str("world".to_string())).unwrap();
    vm.push(Cell::ArrayElem(0, 0)).unwrap();
    store_prim(&mut vm).unwrap();
    assert_eq!(vm.arrays[0].get(0).cloned(), Some(Cell::Str("world".to_string())));
}

#[test]
fn test_fetch_array_addr() {
    let mut vm = VM::new();
    vm.arrays.push(vec![Cell::Int(77)]);
    vm.push(Cell::ArrayElem(0, 0)).unwrap();
    fetch_prim(&mut vm).unwrap();
    assert_eq!(vm.pop(), Ok(Cell::Int(77)));
}

#[test]
fn test_array_len_prim_basic() {
    // ARRAY_LEN on a 5-element array must return 5.
    let mut vm = VM::new();
    vm.arrays.push(vec![Cell::Nil; 5]);
    vm.push(Cell::Array(0)).unwrap();
    array_len_prim(&mut vm).unwrap();
    assert_eq!(vm.pop(), Ok(Cell::Int(5)));
}

#[test]
fn test_array_len_prim_one_element() {
    // ARRAY_LEN on a 1-element array must return 1.
    let mut vm = VM::new();
    vm.arrays.push(vec![Cell::Nil]);
    vm.push(Cell::Array(0)).unwrap();
    array_len_prim(&mut vm).unwrap();
    assert_eq!(vm.pop(), Ok(Cell::Int(1)));
}

#[test]
fn test_int_prim_type_error() {
    // INT on a non-numeric type must return TypeError.
    let mut vm = VM::new();
    vm.push(Cell::Bool(true)).unwrap();
    assert!(matches!(
        int_prim(&mut vm),
        Err(TbxError::TypeError {
            expected: "Int or Float",
            ..
        })
    ));
}

#[test]
fn test_hour_accepts_int() {
    // INT input must be promoted and yield the same result as Float.
    let mut vm = VM::new();
    vm.push(Cell::Int(1_700_000_000)).unwrap();
    hour_prim(&mut vm).unwrap();
    assert_eq!(vm.pop(), Ok(Cell::Int(22)));
}
