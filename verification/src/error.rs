//! The error type of the TBX virtual machine and its human-readable text.
use vstd::prelude::*;
use crate::text::{int_decimal, push_i64_decimal, push_u64_decimal, str_to_chars, chars_to_string};

verus! {

/// Top-level error type for the TBX VM.
#[derive(Debug, Clone, PartialEq)]
pub enum TbxError {
    /// A string was too long to store (at most 65535 bytes).
    StringTooLong { len: usize },
    /// A pop was attempted on an empty data stack.
    StackUnderflow,
    /// A value of the wrong type was provided.
    TypeError { expected: &'static str, got: &'static str },
    IndexOutOfBounds { index: usize, size: usize },
    /// An array index was out of the valid range `[0, size)`.
    ArrayIndexOutOfBounds { index: i64, size: usize },
    DivisionByZero,
    /// The dictionary pointer exceeded the maximum allowed size.
    DictionaryOverflow { requested: usize, limit: usize },
    /// ALLOT was called with a negative count.
    InvalidAllotCount,
    /// HALT was executed, requesting the VM to stop.
    Halted,
    /// RETURN with a value was executed at the top level.
    InvalidReturn,
    /// DROP_TO_MARKER executed but no marker was found on the data stack.
    MarkerNotFound,
    /// The return stack depth exceeded the maximum allowed limit.
    ReturnStackOverflow { depth: usize, limit: usize },
    /// The data stack depth exceeded the maximum allowed limit.
    DataStackOverflow { depth: usize, limit: usize },
    /// An integer arithmetic operation produced a result outside the `i64` range.
    IntegerOverflow,
    /// A jump target address is negative and therefore invalid.
    InvalidJumpTarget { address: i64 },
    /// A symbol name was not found in the dictionary.
    UndefinedSymbol { name: String },
    /// An expression or statement is syntactically invalid.
    InvalidExpression { reason: &'static str },
    /// A GOTO/BIF/BIT referenced a label that was never defined in the current word.
    UndefinedLabel { label: i64 },
    /// The same line-number label was defined more than once in the same word.
    DuplicateLabel { label: i64 },
    /// An operand value is outside the valid range.
    InvalidOperand { name: &'static str, value: i64, reason: &'static str },
    /// The token stream is empty or has not been set on the VM.
    TokenStreamEmpty,
    /// The compile stack has leftover items when END is executed.
    CompileStackNotEmpty { count: usize },
    /// `NAME()` was written as a statement.
    InvalidStatementCallSyntax { name: String },
    /// A control structure was closed by the wrong closing word.
    MismatchedTag { expected: String, found: String },
    /// A closing word found no open control structure.
    NoOpenTag { expected: String },
    /// A USE path could not be read.
    FileNotFound { path: String, reason: String },
    /// A USE chain loads a file that is already being loaded.
    CircularUse { path: String },
    /// USE statements are nested deeper than the limit.
    UseNestingDepthExceeded { limit: usize },
    /// An argument value is not acceptable.
    InvalidArgument { message: String },
    /// ASSERT_FAIL was executed.
    AssertionFailed,
    /// ASSERT_FAIL_MSG was executed with a message.
    AssertionFailedWithMessage { message: String },
    /// Input could not be parsed as a decimal integer.
    ParseIntError { input: String },
    /// The inner interpreter executed its maximum number of instructions.
    StepLimitExceeded,
}

/// The human-readable text of an error.
pub open spec fn error_text(e: TbxError) -> Seq<char> {
    match e {
        TbxError::StringTooLong { len } => "string too long for string pool: "@ + int_decimal(
            len as int,
        ) + " bytes (max 65535)"@,
        TbxError::StackUnderflow => "stack underflow"@,
        TbxError::TypeError { expected, got } => "type error: expected "@ + expected@ + ", got "@
            + got@,
        TbxError::IndexOutOfBounds { index, size } => "index out of bounds: index "@
            + int_decimal(index as int) + ", size "@ + int_decimal(size as int),
        TbxError::ArrayIndexOutOfBounds { index, size } => "array index out of bounds: index "@
            + int_decimal(index as int) + ", size "@ + int_decimal(size as int),
        TbxError::DivisionByZero => "division by zero"@,
        TbxError::DictionaryOverflow { requested, limit } => "dictionary overflow: requested "@
            + int_decimal(requested as int) + " cells (limit "@ + int_decimal(limit as int)
            + ")"@,
        TbxError::InvalidAllotCount => "ALLOT count must be non-negative"@,
        TbxError::Halted => "execution halted"@,
        TbxError::InvalidReturn => "RETURN with value at top level is not allowed"@,
        TbxError::MarkerNotFound => "DROP_TO_MARKER: no marker found on the data stack"@,
        TbxError::ReturnStackOverflow { depth, limit } => "return stack overflow: depth "@
            + int_decimal(depth as int) + " reached or exceeded limit "@ + int_decimal(
            limit as int,
        ),
        TbxError::DataStackOverflow { depth, limit } => "data stack overflow: depth "@
            + int_decimal(depth as int) + " reached or exceeded limit "@ + int_decimal(
            limit as int,
        ),
        TbxError::IntegerOverflow => "integer overflow"@,
        TbxError::InvalidJumpTarget { address } => "invalid jump target: negative address "@
            + int_decimal(address as int),
        TbxError::UndefinedSymbol { name } => "undefined symbol: '"@ + name@ + "'"@,
        TbxError::InvalidExpression { reason } => "invalid expression: "@ + reason@,
        TbxError::UndefinedLabel { label } => "undefined label: "@ + int_decimal(label as int),
        TbxError::DuplicateLabel { label } => "duplicate label: "@ + int_decimal(label as int),
        TbxError::InvalidOperand { name, value, reason } => "invalid operand '"@ + name@
            + "' (value: "@ + int_decimal(value as int) + "): "@ + reason@,
        TbxError::TokenStreamEmpty => "token stream is empty or not set"@,
        TbxError::CompileStackNotEmpty { count } => "compile stack has "@ + int_decimal(
            count as int,
        ) + " unpatched item(s) at END; word definition is incomplete"@,
        TbxError::InvalidStatementCallSyntax { name } => "invalid statement call: write '"@
            + name@ + "' without '()' when it is used as a statement"@,
        TbxError::MismatchedTag { expected, found } => "mismatched control structure: expected "@
            + expected@ + ", found "@ + found@,
        TbxError::NoOpenTag { expected } => "no open "@ + expected@ + " to close"@,
        TbxError::FileNotFound { path, reason } => "file not found: "@ + path@ + " ("@ + reason@
            + ")"@,
        TbxError::CircularUse { path } => "circular USE detected: "@ + path@,
        TbxError::UseNestingDepthExceeded { limit } => "USE nesting depth exceeded (limit "@
            + int_decimal(limit as int) + ")"@,
        TbxError::InvalidArgument { message } => message@,
        TbxError::AssertionFailed => "assertion failed"@,
        TbxError::AssertionFailedWithMessage { message } => "assertion failed: "@ + message@,
        TbxError::ParseIntError { input } => "cannot parse integer from '"@ + input@ + "'"@,
        TbxError::StepLimitExceeded => "execution step limit exceeded"@,
    }
}

/// Append the characters of a string slice.
pub fn push_str(out: &mut Vec<char>, s: &str)
    ensures
        final(out)@ == old(out)@ + s@,
{
    let cs = str_to_chars(s);
    let mut i: usize = 0;
    while i < cs.len()
        invariant
            i <= cs.len(),
            cs@ == s@,
            out@ == old(out)@ + cs@.take(i as int),
        decreases cs.len() - i,
    {
        out.push(cs[i]);
        assert(cs@.take(i as int + 1) =~= cs@.take(i as int).push(cs@[i as int]));
        i = i + 1;
    }
    assert(cs@.take(cs.len() as int) =~= cs@);
}

/// Append the decimal rendering of an integer.
pub fn push_int(out: &mut Vec<char>, n: i64)
    ensures
        final(out)@ == old(out)@ + int_decimal(n as int),
{
    push_i64_decimal(out, n);
}

/// Append the decimal rendering of a size.
pub fn push_usize(out: &mut Vec<char>, n: usize)
    ensures
        final(out)@ == old(out)@ + int_decimal(n as int),
{
    push_u64_decimal(out, n as u64);
}

impl TbxError {
    /// The human-readable text of this error (what `Display` prints).
    pub fn message(&self) -> (r: String)
        ensures
            r@ == error_text(*self),
    {
        let mut o: Vec<char> = Vec::new();
        match self {
            TbxError::StringTooLong { len } => {
                push_str(&mut o, "string too long for string pool: ");
                push_usize(&mut o, *len);
                push_str(&mut o, " bytes (max 65535)");
            },
            TbxError::StackUnderflow => push_str(&mut o, "stack underflow"),
            TbxError::TypeError { expected, got } => {
                push_str(&mut o, "type error: expected ");
                push_str(&mut o, expected);
                push_str(&mut o, ", got ");
                push_str(&mut o, got);
            },
            TbxError::IndexOutOfBounds { index, size } => {
                push_str(&mut o, "index out of bounds: index ");
                push_usize(&mut o, *index);
                push_str(&mut o, ", size ");
                push_usize(&mut o, *size);
            },
            TbxError::ArrayIndexOutOfBounds { index, size } => {
                push_str(&mut o, "array index out of bounds: index ");
                push_int(&mut o, *index);
                push_str(&mut o, ", size ");
                push_usize(&mut o, *size);
            },
            TbxError::DivisionByZero => push_str(&mut o, "division by zero"),
            TbxError::DictionaryOverflow { requested, limit } => {
                push_str(&mut o, "dictionary overflow: requested ");
                push_usize(&mut o, *requested);
                push_str(&mut o, " cells (limit ");
                push_usize(&mut o, *limit);
                push_str(&mut o, ")");
            },
            TbxError::InvalidAllotCount => push_str(&mut o, "ALLOT count must be non-negative"),
            TbxError::Halted => push_str(&mut o, "execution halted"),
            TbxError::InvalidReturn => push_str(
                &mut o,
                "RETURN with value at top level is not allowed",
            ),
            TbxError::MarkerNotFound => push_str(
                &mut o,
                "DROP_TO_MARKER: no marker found on the data stack",
            ),
            TbxError::ReturnStackOverflow { depth, limit } => {
                push_str(&mut o, "return stack overflow: depth ");
                push_usize(&mut o, *depth);
                push_str(&mut o, " reached or exceeded limit ");
                push_usize(&mut o, *limit);
            },
            TbxError::DataStackOverflow { depth, limit } => {
                push_str(&mut o, "data stack overflow: depth ");
                push_usize(&mut o, *depth);
                push_str(&mut o, " reached or exceeded limit ");
                push_usize(&mut o, *limit);
            },
            TbxError::IntegerOverflow => push_str(&mut o, "integer overflow"),
            TbxError::InvalidJumpTarget { address } => {
                push_str(&mut o, "invalid jump target: negative address ");
                push_int(&mut o, *address);
            },
            TbxError::UndefinedSymbol { name } => {
                push_str(&mut o, "undefined symbol: '");
                push_str(&mut o, name.as_str());
                push_str(&mut o, "'");
            },
            TbxError::InvalidExpression { reason } => {
                push_str(&mut o, "invalid expression: ");
                push_str(&mut o, reason);
            },
            TbxError::UndefinedLabel { label } => {
                push_str(&mut o, "undefined label: ");
                push_int(&mut o, *label);
            },
            TbxError::DuplicateLabel { label } => {
                push_str(&mut o, "duplicate label: ");
                push_int(&mut o, *label);
            },
            TbxError::InvalidOperand { name, value, reason } => {
                push_str(&mut o, "invalid operand '");
                push_str(&mut o, name);
                push_str(&mut o, "' (value: ");
                push_int(&mut o, *value);
                push_str(&mut o, "): ");
                push_str(&mut o, reason);
            },
            TbxError::TokenStreamEmpty => push_str(&mut o, "token stream is empty or not set"),
            TbxError::CompileStackNotEmpty { count } => {
                push_str(&mut o, "compile stack has ");
                push_usize(&mut o, *count);
                push_str(&mut o, " unpatched item(s) at END; word definition is incomplete");
            },
            TbxError::InvalidStatementCallSyntax { name } => {
                push_str(&mut o, "invalid statement call: write '");
                push_str(&mut o, name.as_str());
                push_str(&mut o, "' without '()' when it is used as a statement");
            },
            TbxError::MismatchedTag { expected, found } => {
                push_str(&mut o, "mismatched control structure: expected ");
                push_str(&mut o, expected.as_str());
                push_str(&mut o, ", found ");
                push_str(&mut o, found.as_str());
            },
            TbxError::NoOpenTag { expected } => {
                push_str(&mut o, "no open ");
                push_str(&mut o, expected.as_str());
                push_str(&mut o, " to close");
            },
            TbxError::FileNotFound { path, reason } => {
                push_str(&mut o, "file not found: ");
                push_str(&mut o, path.as_str());
                push_str(&mut o, " (");
                push_str(&mut o, reason.as_str());
                push_str(&mut o, ")");
            },
            TbxError::CircularUse { path } => {
                push_str(&mut o, "circular USE detected: ");
                push_str(&mut o, path.as_str());
            },
            TbxError::UseNestingDepthExceeded { limit } => {
                push_str(&mut o, "USE nesting depth exceeded (limit ");
                push_usize(&mut o, *limit);
                push_str(&mut o, ")");
            },
            TbxError::InvalidArgument { message } => push_str(&mut o, message.as_str()),
            TbxError::AssertionFailed => push_str(&mut o, "assertion failed"),
            TbxError::AssertionFailedWithMessage { message } => {
                push_str(&mut o, "assertion failed: ");
                push_str(&mut o, message.as_str());
            },
            TbxError::ParseIntError { input } => {
                push_str(&mut o, "cannot parse integer from '");
                push_str(&mut o, input.as_str());
                push_str(&mut o, "'");
            },
            TbxError::StepLimitExceeded => push_str(&mut o, "execution step limit exceeded"),
        }
        assert(o@ =~= error_text(*self));
        chars_to_string(&o)
    }
}

} // verus!
