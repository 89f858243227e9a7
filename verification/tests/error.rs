use tbx::error::TbxError;

#[test]
fn test_string_too_long_display() {
    let e = TbxError::StringTooLong { len: 300 };
    assert!(e.message().contains("300"));
    assert!(e.message().contains("65535"));
}

#[test]
fn test_stack_underflow_display() {
    let e = TbxError::StackUnderflow;
    assert!(e.message().contains("stack underflow"));
}

#[test]
fn test_stack_underflow_debug() {
    let e = TbxError::StackUnderflow;
    assert!(format!("{:?}", e).contains("StackUnderflow"));
}

#[test]
fn test_type_error_display() {
    let e = TbxError::TypeError {
        expected: "address",
        got: "Int",
    };
    let msg = e.message();
    assert!(msg.contains("address"));
    assert!(msg.contains("Int"));
}

#[test]
fn test_division_by_zero_display() {
    let e = TbxError::DivisionByZero;
    assert!(e.message().contains("division by zero"));
}

#[test]
fn test_marker_not_found_display() {
    let e = TbxError::MarkerNotFound;
    assert!(e.message().contains("marker"));
}

#[test]
fn test_integer_overflow_display() {
    let e = TbxError::IntegerOverflow;
    assert!(e.message().contains("integer overflow"));
}

#[test]
fn test_invalid_jump_target_display() {
    let e = TbxError::InvalidJumpTarget { address: -7 };
    let msg = e.message();
    assert!(msg.contains("-7"));
    assert!(msg.contains("negative"));
}

#[test]
fn test_invalid_operand_display() {
    let e = TbxError::InvalidOperand {
        name: "arity",
        value: -1,
        reason: "must be non-negative",
    };
    let msg = e.message();
    assert!(msg.contains("invalid operand"));
    assert!(msg.contains("arity"));
    assert!(msg.contains("-1"));
    assert!(msg.contains("must be non-negative"));
}

#[test]
fn test_token_stream_empty_display() {
    let e = TbxError::TokenStreamEmpty;
    assert!(e.message().contains("token stream"));
}