//! String primitives and the primitives that write output or read input.
use vstd::prelude::*;
use crate::cell::{Cell, variant_name_of};
use crate::constants::MAX_DATA_STACK_DEPTH;
use crate::error::TbxError;
use crate::text::{
    int_decimal, nat_hex_digits, push_i64_decimal, push_u64_hex, upper_seq, lower_seq, trim_seq,
    trim_chars, str_to_chars, chars_to_string, upper_string, lower_string, concat_strings,
    signed_text_value, in_i64, parse_i64_text,
};
use crate::vm::{VM, only_data_output_changed, only_data_input_changed, only_data_changed};

verus! {

/// The text that PUTVAL prints and STR produces for a value.
pub open spec fn value_text(c: Cell) -> Option<Seq<char>> {
    match c {
        Cell::Int(n) => Some(int_decimal(n as int)),
        Cell::Bool(b) => Some(if b { seq!['T', 'R', 'U', 'E'] } else { seq!['F', 'A', 'L', 'S', 'E'] }),
        Cell::Str(s) => Some(s@),
        _ => None,
    }
}

/// Uppercase hexadecimal rendering with a `$` prefix; a negative value is
/// shown as its 64-bit two's complement.
pub open spec fn hex_text(n: i64) -> Seq<char> {
    seq!['$'] + nat_hex_digits((if n < 0 { n as int + 0x1_0000_0000_0000_0000 } else { n as int }) as nat)
}

/// The output primitives.
#[derive(Debug, Clone, Copy, PartialEq, Eq)]
pub enum OutOp {
    /// PUTSTR: a string.
    Str,
    /// PUTCHR: an ASCII code.
    Chr,
    /// PUTDEC: an integer in decimal.
    Dec,
    /// PUTHEX: an integer in hexadecimal.
    Hex,
    /// PUTVAL: any printable value.
    Val,
}

/// What an output primitive prints for the popped value, or its error.
pub open spec fn output_text(op: OutOp, c: Cell) -> Result<Seq<char>, TbxError> {
    match op {
        OutOp::Str => match c {
            Cell::Str(s) => Ok(s@),
            _ => Err(TbxError::TypeError { expected: "Str", got: variant_name_of(c) }),
        },
        OutOp::Chr => match c {
            Cell::Int(n) => if 0 <= n <= 127 {
                Ok(seq![n as char])
            } else {
                Err(TbxError::TypeError { expected: "ASCII code (0-127)", got: "out of range" })
            },
            _ => Err(TbxError::TypeError { expected: "Int", got: variant_name_of(c) }),
        },
        OutOp::Dec => match c {
            Cell::Int(n) => Ok(int_decimal(n as int)),
            _ => Err(TbxError::TypeError { expected: "Int or Float", got: variant_name_of(c) }),
        },
        OutOp::Hex => match c {
            Cell::Int(n) => Ok(hex_text(n)),
            _ => Err(TbxError::TypeError { expected: "Int", got: variant_name_of(c) }),
        },
        OutOp::Val => match value_text(c) {
            Some(t) => Ok(t),
            None => Err(TbxError::TypeError { expected: "Int, Float, Bool, or Str", got: variant_name_of(c) }),
        },
    }
}

fn bool_text(b: bool) -> (r: Vec<char>)
    ensures
        r@ == (if b { seq!['T', 'R', 'U', 'E'] } else { seq!['F', 'A', 'L', 'S', 'E'] }),
{
    let mut v: Vec<char> = Vec::new();
    if b {
        v.push('T');
        v.push('R');
        v.push('U');
        v.push('E');
    } else {
        v.push('F');
        v.push('A');
        v.push('L');
        v.push('S');
        v.push('E');
    }
    assert(v@ =~= (if b { seq!['T', 'R', 'U', 'E'] } else { seq!['F', 'A', 'L', 'S', 'E'] }));
    v
}

/// The text of a printable value.
pub fn value_text_of(c: &Cell) -> (r: Option<Vec<char>>)
    ensures
        match value_text(*c) {
            Some(t) => r matches Some(v) && v@ == t,
            None => r is None,
        },
{
    match c {
        Cell::Int(n) => {
            let mut v: Vec<char> = Vec::new();
            push_i64_decimal(&mut v, *n);
            assert(v@ =~= int_decimal(*n as int));
            Some(v)
        },
        Cell::Bool(b) => Some(bool_text(*b)),
        Cell::Str(s) => Some(str_to_chars(s.as_str())),
        _ => None,
    }
}

fn hex_chars(n: i64) -> (r: Vec<char>)
    ensures
        r@ == hex_text(n),
{
    let mut v: Vec<char> = Vec::new();
    v.push('$');
    let u: u64 = if n < 0 {
        (n as i128 + 0x1_0000_0000_0000_0000i128) as u64
    } else {
        n as u64
    };
    push_u64_hex(&mut v, u);
    assert(v@ =~= hex_text(n));
    v
}

fn output_chars(op: OutOp, c: &Cell) -> (r: Result<Vec<char>, TbxError>)
    ensures
        match output_text(op, *c) {
            Ok(t) => r matches Ok(v) && v@ == t,
            Err(e) => r == Err::<Vec<char>, TbxError>(e),
        },
{
    match op {
        OutOp::Str => match c {
            Cell::Str(s) => Ok(str_to_chars(s.as_str())),
            _ => Err(TbxError::TypeError { expected: "Str", got: c.variant_name() }),
        },
        OutOp::Chr => match c {
            Cell::Int(n) => {
                if 0 <= *n && *n <= 127 {
                    let mut v: Vec<char> = Vec::new();
                    v.push((*n as u8) as char);
                    assert(v@ =~= seq![*n as char]);
                    Ok(v)
                } else {
                    Err(TbxError::TypeError { expected: "ASCII code (0-127)", got: "out of range" })
                }
            },
            _ => Err(TbxError::TypeError { expected: "Int", got: c.variant_name() }),
        },
        OutOp::Dec => match c {
            Cell::Int(n) => {
                let mut v: Vec<char> = Vec::new();
                push_i64_decimal(&mut v, *n);
                assert(v@ =~= int_decimal(*n as int));
                Ok(v)
            },
            _ => Err(TbxError::TypeError { expected: "Int or Float", got: c.variant_name() }),
        },
        OutOp::Hex => match c {
            Cell::Int(n) => Ok(hex_chars(*n)),
            _ => Err(TbxError::TypeError { expected: "Int", got: c.variant_name() }),
        },
        OutOp::Val => match value_text_of(c) {
            Some(v) => Ok(v),
            None => Err(TbxError::TypeError { expected: "Int, Float, Bool, or Str", got: c.variant_name() }),
        },
    }
}

/// What `output_prim` does, from the state `pre` to the state `post` with the
/// result `r`.
pub open spec fn output_prim_outcome(op: OutOp, pre: VM, post: VM, r: Result<(), TbxError>) -> bool {
    &&& (only_data_output_changed(pre, post))
    &&& (pre.data_stack@.len() == 0 ==> r == Err::<(), TbxError>(TbxError::StackUnderflow)
            && post.data_stack@ == pre.data_stack@ && post.output_buffer@ == pre.output_buffer@)
    &&& (pre.data_stack@.len() > 0 ==> post.data_stack@ == pre.data_stack@.drop_last()
            && match output_text(op, pre.data_stack@.last()) {
                Ok(t) => r is Ok && post.output_buffer@ == pre.output_buffer@ + t,
                Err(e) => r == Err::<(), TbxError>(e) && post.output_buffer@ == pre.output_buffer@,
            })
}

/// Pop a value and print it as `op` says.
pub fn output_prim(vm: &mut VM, op: OutOp) -> (r: Result<(), TbxError>)
    requires
        old(vm).wf(),
    ensures
        final(vm).wf(),
        only_data_output_changed(*old(vm), *final(vm)),
        old(vm).data_stack@.len() == 0 ==> r == Err::<(), TbxError>(TbxError::StackUnderflow)
            && final(vm).data_stack@ == old(vm).data_stack@ && final(vm).output_buffer@ == old(vm).output_buffer@,
        old(vm).data_stack@.len() > 0 ==> final(vm).data_stack@ == old(vm).data_stack@.drop_last()
            && match output_text(op, old(vm).data_stack@.last()) {
                Ok(t) => r is Ok && final(vm).output_buffer@ == old(vm).output_buffer@ + t,
                Err(e) => r == Err::<(), TbxError>(e) && final(vm).output_buffer@ == old(vm).output_buffer@,
            },
{
    let c = vm.pop()?;
    let text = output_chars(op, &c)?;
    vm.write_output_chars(&text);
    Ok(())
}

/// PUTSTR ( s -- ): print a string.
pub fn putstr_prim(vm: &mut VM) -> (r: Result<(), TbxError>)
    requires
        old(vm).wf(),
    ensures
        final(vm).wf(),
        only_data_output_changed(*old(vm), *final(vm)),
        old(vm).data_stack@.len() == 0 ==> r == Err::<(), TbxError>(TbxError::StackUnderflow),
        old(vm).data_stack@.len() > 0 ==> final(vm).data_stack@ == old(vm).data_stack@.drop_last()
            && match output_text(OutOp::Str, old(vm).data_stack@.last()) {
                Ok(t) => r is Ok && final(vm).output_buffer@ == old(vm).output_buffer@ + t,
                Err(e) => r == Err::<(), TbxError>(e) && final(vm).output_buffer@ == old(vm).output_buffer@,
            },
{
    output_prim(vm, OutOp::Str)
}

/// PUTCHR ( n -- ): print the ASCII character with code `n` (0..=127).
pub fn putchr_prim(vm: &mut VM) -> (r: Result<(), TbxError>)
    requires
        old(vm).wf(),
    ensures
        final(vm).wf(),
        only_data_output_changed(*old(vm), *final(vm)),
        old(vm).data_stack@.len() == 0 ==> r == Err::<(), TbxError>(TbxError::StackUnderflow),
        old(vm).data_stack@.len() > 0 ==> final(vm).data_stack@ == old(vm).data_stack@.drop_last()
            && match output_text(OutOp::Chr, old(vm).data_stack@.last()) {
                Ok(t) => r is Ok && final(vm).output_buffer@ == old(vm).output_buffer@ + t,
                Err(e) => r == Err::<(), TbxError>(e) && final(vm).output_buffer@ == old(vm).output_buffer@,
            },
{
    output_prim(vm, OutOp::Chr)
}

/// PUTDEC ( n -- ): print an integer in signed decimal.
pub fn putdec_prim(vm: &mut VM) -> (r: Result<(), TbxError>)
    requires
        old(vm).wf(),
    ensures
        final(vm).wf(),
        only_data_output_changed(*old(vm), *final(vm)),
        old(vm).data_stack@.len() == 0 ==> r == Err::<(), TbxError>(TbxError::StackUnderflow),
        old(vm).data_stack@.len() > 0 ==> final(vm).data_stack@ == old(vm).data_stack@.drop_last()
            && match output_text(OutOp::Dec, old(vm).data_stack@.last()) {
                Ok(t) => r is Ok && final(vm).output_buffer@ == old(vm).output_buffer@ + t,
                Err(e) => r == Err::<(), TbxError>(e) && final(vm).output_buffer@ == old(vm).output_buffer@,
            },
{
    output_prim(vm, OutOp::Dec)
}

/// PUTHEX ( n -- ): print an integer as `$`-prefixed uppercase hexadecimal.
pub fn puthex_prim(vm: &mut VM) -> (r: Result<(), TbxError>)
    requires
        old(vm).wf(),
    ensures
        final(vm).wf(),
        only_data_output_changed(*old(vm), *final(vm)),
        old(vm).data_stack@.len() == 0 ==> r == Err::<(), TbxError>(TbxError::StackUnderflow),
        old(vm).data_stack@.len() > 0 ==> final(vm).data_stack@ == old(vm).data_stack@.drop_last()
            && match output_text(OutOp::Hex, old(vm).data_stack@.last()) {
                Ok(t) => r is Ok && final(vm).output_buffer@ == old(vm).output_buffer@ + t,
                Err(e) => r == Err::<(), TbxError>(e) && final(vm).output_buffer@ == old(vm).output_buffer@,
            },
{
    output_prim(vm, OutOp::Hex)
}

/// PUTVAL ( v -- ): print an integer, boolean or string.
pub fn putval_prim(vm: &mut VM) -> (r: Result<(), TbxError>)
    requires
        old(vm).wf(),
    ensures
        final(vm).wf(),
        only_data_output_changed(*old(vm), *final(vm)),
        old(vm).data_stack@.len() == 0 ==> r == Err::<(), TbxError>(TbxError::StackUnderflow),
        old(vm).data_stack@.len() > 0 ==> final(vm).data_stack@ == old(vm).data_stack@.drop_last()
            && match output_text(OutOp::Val, old(vm).data_stack@.last()) {
                Ok(t) => r is Ok && final(vm).output_buffer@ == old(vm).output_buffer@ + t,
                Err(e) => r == Err::<(), TbxError>(e) && final(vm).output_buffer@ == old(vm).output_buffer@,
            },
{
    output_prim(vm, OutOp::Val)
}

/// What `get_output_prim` does, from the state `pre` to the state `post` with the
/// result `r`.
pub open spec fn get_output_prim_outcome(pre: VM, post: VM, r: Result<(), TbxError>) -> bool {
    &&& (only_data_output_changed(pre, post))
    &&& (r is Ok <==> pre.data_stack@.len() < MAX_DATA_STACK_DEPTH)
    &&& (r is Ok ==> post.output_buffer@.len() == 0 && (post.data_stack@.last() matches Cell::Str(s)
            && s@ == pre.output_buffer@) && post.data_stack@.drop_last() == pre.data_stack@
            && post.data_stack@.len() == pre.data_stack@.len() + 1)
}

/// GET_OUTPUT ( -- s ): push the output written so far and clear it.
pub fn get_output_prim(vm: &mut VM) -> (r: Result<(), TbxError>)
    requires
        old(vm).wf(),
    ensures
        final(vm).wf(),
        only_data_output_changed(*old(vm), *final(vm)),
        r is Ok <==> old(vm).data_stack@.len() < MAX_DATA_STACK_DEPTH,
        r is Ok ==> final(vm).output_buffer@.len() == 0 && (final(vm).data_stack@.last() matches Cell::Str(s)
            && s@ == old(vm).output_buffer@) && final(vm).data_stack@.drop_last() == old(vm).data_stack@
            && final(vm).data_stack@.len() == old(vm).data_stack@.len() + 1,
{
    if vm.data_stack.len() >= MAX_DATA_STACK_DEPTH {
        return Err(TbxError::DataStackOverflow { depth: vm.data_stack.len(), limit: MAX_DATA_STACK_DEPTH });
    }
    let out = vm.take_output();
    let ghost s1 = vm.data_stack@;
    let r = vm.push(Cell::string(out));
    assert(vm.data_stack@.drop_last() =~= s1);
    r
}

// ---------------------------------------------------------------------------
// String operations
// ---------------------------------------------------------------------------

/// The one-operand string primitives.
#[derive(Debug, Clone, Copy, PartialEq, Eq)]
pub enum StrUnary {
    /// STR: the text of a printable value.
    ToStr,
    /// STR_LEN: number of characters.
    Len,
    /// STR_UPPER: ASCII uppercase.
    Upper,
    /// STR_LOWER: ASCII lowercase.
    Lower,
    /// STR_TRIM: without leading and trailing whitespace.
    Trim,
}

/// The error of a one-operand string primitive on a value, if any.
pub open spec fn str_unary_error(op: StrUnary, c: Cell) -> Option<TbxError> {
    match op {
        StrUnary::ToStr => match value_text(c) {
            Some(_) => None,
            None => Some(TbxError::TypeError { expected: "Int, Float, Bool, or Str", got: variant_name_of(c) }),
        },
        _ => match c {
            Cell::Str(_) => None,
            _ => Some(TbxError::TypeError { expected: "Str", got: variant_name_of(c) }),
        },
    }
}

/// `w` is the result of a one-operand string primitive on `c`.
pub open spec fn str_unary_value(op: StrUnary, c: Cell, w: Cell) -> bool {
    match op {
        StrUnary::ToStr => w matches Cell::Str(t) && value_text(c) == Some(t@),
        StrUnary::Len => c matches Cell::Str(s) && w == Cell::Int(
            (if s@.len() <= i64::MAX { s@.len() as int } else { i64::MAX as int }) as i64,
        ),
        StrUnary::Upper => c matches Cell::Str(s) && w matches Cell::Str(t) && t@ == upper_seq(s@),
        StrUnary::Lower => c matches Cell::Str(s) && w matches Cell::Str(t) && t@ == lower_seq(s@),
        StrUnary::Trim => c matches Cell::Str(s) && w matches Cell::Str(t) && t@ == trim_seq(s@),
    }
}

fn str_unary_apply(op: StrUnary, c: &Cell) -> (r: Result<Cell, TbxError>)
    ensures
        match str_unary_error(op, *c) {
            None => r matches Ok(w) && str_unary_value(op, *c, w),
            Some(e) => r == Err::<Cell, TbxError>(e),
        },
{
    match op {
        StrUnary::ToStr => match value_text_of(c) {
            Some(v) => Ok(Cell::Str(chars_to_string(&v))),
            None => Err(TbxError::TypeError { expected: "Int, Float, Bool, or Str", got: c.variant_name() }),
        },
        _ => match c {
            Cell::Str(s) => match op {
                StrUnary::Len => {
                    let cs = str_to_chars(s.as_str());
                    if (cs.len() as u64) > 0x7FFF_FFFF_FFFF_FFFFu64 {
                        // a string this long cannot exist in memory
                        Ok(Cell::Int(0x7FFF_FFFF_FFFF_FFFF))
                    } else {
                        Ok(Cell::Int(cs.len() as i64))
                    }
                },
                StrUnary::Upper => Ok(Cell::Str(upper_string(s.as_str()))),
                StrUnary::Lower => Ok(Cell::Str(lower_string(s.as_str()))),
                _ => {
                    let cs = str_to_chars(s.as_str());
                    let t = trim_chars(&cs);
                    Ok(Cell::Str(chars_to_string(&t)))
                },
            },
            _ => Err(TbxError::TypeError { expected: "Str", got: c.variant_name() }),
        },
    }
}


/// What `str_unary_prim` does, from the state `pre` to the state `post` with the
/// result `r`.
pub open spec fn str_unary_prim_outcome(op: StrUnary, pre: VM, post: VM, r: Result<(), TbxError>) -> bool {
    &&& (only_data_changed(pre, post))
    &&& (pre.data_stack@.len() == 0 ==> r == Err::<(), TbxError>(TbxError::StackUnderflow)
            && post.data_stack@ == pre.data_stack@)
    &&& (pre.data_stack@.len() > 0 ==> {
            let s = pre.data_stack@;
            match str_unary_error(op, s.last()) {
                None => r is Ok && post.data_stack@.len() == s.len() && post.data_stack@.drop_last()
                    == s.drop_last() && str_unary_value(op, s.last(), post.data_stack@.last()),
                Some(e) => r == Err::<(), TbxError>(e) && post.data_stack@ == s.drop_last(),
            }
        })
}

/// Pop a value and push the result of a one-operand string primitive.
pub fn str_unary_prim(vm: &mut VM, op: StrUnary) -> (r: Result<(), TbxError>)
    requires
        old(vm).wf(),
    ensures
        final(vm).wf(),
        only_data_changed(*old(vm), *final(vm)),
        old(vm).data_stack@.len() == 0 ==> r == Err::<(), TbxError>(TbxError::StackUnderflow)
            && final(vm).data_stack@ == old(vm).data_stack@,
        old(vm).data_stack@.len() > 0 ==> {
            let s = old(vm).data_stack@;
            match str_unary_error(op, s.last()) {
                None => r is Ok && final(vm).data_stack@.len() == s.len() && final(vm).data_stack@.drop_last()
                    == s.drop_last() && str_unary_value(op, s.last(), final(vm).data_stack@.last()),
                Some(e) => r == Err::<(), TbxError>(e) && final(vm).data_stack@ == s.drop_last(),
            }
        },
{
    let ghost s0 = vm.data_stack@;
    let c = vm.pop()?;
    let w = str_unary_apply(op, &c)?;
    let r = vm.push(w);
    assert(vm.data_stack@.drop_last() =~= s0.drop_last());
    r
}

/// STR ( v -- s ): the text of an integer, boolean or string.
pub fn str_prim(vm: &mut VM) -> (r: Result<(), TbxError>)
    requires
        old(vm).wf(),
    ensures
        final(vm).wf(),
        only_data_changed(*old(vm), *final(vm)),
        old(vm).data_stack@.len() == 0 ==> r == Err::<(), TbxError>(TbxError::StackUnderflow),
        old(vm).data_stack@.len() > 0 ==> {
            let s = old(vm).data_stack@;
            match str_unary_error(StrUnary::ToStr, s.last()) {
                None => r is Ok && final(vm).data_stack@.drop_last() == s.drop_last()
                    && final(vm).data_stack@.len() == s.len()
                    && str_unary_value(StrUnary::ToStr, s.last(), final(vm).data_stack@.last()),
                Some(e) => r == Err::<(), TbxError>(e) && final(vm).data_stack@ == s.drop_last(),
            }
        },
{
    str_unary_prim(vm, StrUnary::ToStr)
}

/// STR_LEN ( s -- n ): number of characters of a string.
pub fn str_len_prim(vm: &mut VM) -> (r: Result<(), TbxError>)
    requires
        old(vm).wf(),
    ensures
        final(vm).wf(),
        only_data_changed(*old(vm), *final(vm)),
        old(vm).data_stack@.len() == 0 ==> r == Err::<(), TbxError>(TbxError::StackUnderflow),
        old(vm).data_stack@.len() > 0 ==> {
            let s = old(vm).data_stack@;
            match str_unary_error(StrUnary::Len, s.last()) {
                None => r is Ok && final(vm).data_stack@.drop_last() == s.drop_last()
                    && final(vm).data_stack@.len() == s.len()
                    && str_unary_value(StrUnary::Len, s.last(), final(vm).data_stack@.last()),
                Some(e) => r == Err::<(), TbxError>(e) && final(vm).data_stack@ == s.drop_last(),
            }
        },
{
    str_unary_prim(vm, StrUnary::Len)
}

/// STR_UPPER ( s -- s' ): ASCII uppercase.
pub fn str_upper_prim(vm: &mut VM) -> (r: Result<(), TbxError>)
    requires
        old(vm).wf(),
    ensures
        final(vm).wf(),
        only_data_changed(*old(vm), *final(vm)),
        old(vm).data_stack@.len() == 0 ==> r == Err::<(), TbxError>(TbxError::StackUnderflow),
        old(vm).data_stack@.len() > 0 ==> {
            let s = old(vm).data_stack@;
            match str_unary_error(StrUnary::Upper, s.last()) {
                None => r is Ok && final(vm).data_stack@.drop_last() == s.drop_last()
                    && final(vm).data_stack@.len() == s.len()
                    && str_unary_value(StrUnary::Upper, s.last(), final(vm).data_stack@.last()),
                Some(e) => r == Err::<(), TbxError>(e) && final(vm).data_stack@ == s.drop_last(),
            }
        },
{
    str_unary_prim(vm, StrUnary::Upper)
}

/// STR_LOWER ( s -- s' ): ASCII lowercase.
pub fn str_lower_prim(vm: &mut VM) -> (r: Result<(), TbxError>)
    requires
        old(vm).wf(),
    ensures
        final(vm).wf(),
        only_data_changed(*old(vm), *final(vm)),
        old(vm).data_stack@.len() == 0 ==> r == Err::<(), TbxError>(TbxError::StackUnderflow),
        old(vm).data_stack@.len() > 0 ==> {
            let s = old(vm).data_stack@;
            match str_unary_error(StrUnary::Lower, s.last()) {
                None => r is Ok && final(vm).data_stack@.drop_last() == s.drop_last()
                    && final(vm).data_stack@.len() == s.len()
                    && str_unary_value(StrUnary::Lower, s.last(), final(vm).data_stack@.last()),
                Some(e) => r == Err::<(), TbxError>(e) && final(vm).data_stack@ == s.drop_last(),
            }
        },
{
    str_unary_prim(vm, StrUnary::Lower)
}

/// STR_TRIM ( s -- s' ): without leading and trailing whitespace.
pub fn str_trim_prim(vm: &mut VM) -> (r: Result<(), TbxError>)
    requires
        old(vm).wf(),
    ensures
        final(vm).wf(),
        only_data_changed(*old(vm), *final(vm)),
        old(vm).data_stack@.len() == 0 ==> r == Err::<(), TbxError>(TbxError::StackUnderflow),
        old(vm).data_stack@.len() > 0 ==> {
            let s = old(vm).data_stack@;
            match str_unary_error(StrUnary::Trim, s.last()) {
                None => r is Ok && final(vm).data_stack@.drop_last() == s.drop_last()
                    && final(vm).data_stack@.len() == s.len()
                    && str_unary_value(StrUnary::Trim, s.last(), final(vm).data_stack@.last()),
                Some(e) => r == Err::<(), TbxError>(e) && final(vm).data_stack@ == s.drop_last(),
            }
        },
{
    str_unary_prim(vm, StrUnary::Trim)
}

/// The error of a two-string primitive on `a` (second) and `b` (top), if any.
pub open spec fn two_str_error(a: Cell, b: Cell) -> Option<TbxError> {
    if !(a is Str) {
        Some(TbxError::TypeError { expected: "Str", got: variant_name_of(a) })
    } else if !(b is Str) {
        Some(TbxError::TypeError { expected: "Str", got: variant_name_of(b) })
    } else {
        None
    }
}

/// What `str_concat_prim` does, from the state `pre` to the state `post` with the
/// result `r`.
pub open spec fn str_concat_prim_outcome(pre: VM, post: VM, r: Result<(), TbxError>) -> bool {
    &&& (only_data_changed(pre, post))
    &&& (pre.data_stack@.len() < 2 ==> r == Err::<(), TbxError>(TbxError::StackUnderflow)
            && post.data_stack@ == pre.data_stack@)
    &&& (pre.data_stack@.len() >= 2 ==> {
            let s = pre.data_stack@;
            let n = s.len();
            match two_str_error(s[n - 2], s[n - 1]) {
                None => r is Ok && post.data_stack@.len() == n - 1 && post.data_stack@.drop_last()
                    == s.take(n - 2) && (post.data_stack@.last() matches Cell::Str(t)
                    && (s[n - 2] matches Cell::Str(x) && s[n - 1] matches Cell::Str(y) && t@ == x@ + y@)),
                Some(e) => r == Err::<(), TbxError>(e) && post.data_stack@ == s.take(n - 2),
            }
        })
}

/// STR_CONCAT ( a b -- a+b ): concatenation of two strings.
pub fn str_concat_prim(vm: &mut VM) -> (r: Result<(), TbxError>)
    requires
        old(vm).wf(),
    ensures
        final(vm).wf(),
        only_data_changed(*old(vm), *final(vm)),
        old(vm).data_stack@.len() < 2 ==> r == Err::<(), TbxError>(TbxError::StackUnderflow)
            && final(vm).data_stack@ == old(vm).data_stack@,
        old(vm).data_stack@.len() >= 2 ==> {
            let s = old(vm).data_stack@;
            let n = s.len();
            match two_str_error(s[n - 2], s[n - 1]) {
                None => r is Ok && final(vm).data_stack@.len() == n - 1 && final(vm).data_stack@.drop_last()
                    == s.take(n - 2) && (final(vm).data_stack@.last() matches Cell::Str(t)
                    && (s[n - 2] matches Cell::Str(x) && s[n - 1] matches Cell::Str(y) && t@ == x@ + y@)),
                Some(e) => r == Err::<(), TbxError>(e) && final(vm).data_stack@ == s.take(n - 2),
            }
        },
{
    if vm.data_stack.len() < 2 {
        return Err(TbxError::StackUnderflow);
    }
    let ghost s0 = vm.data_stack@;
    let b = vm.pop()?;
    let a = vm.pop()?;
    assert(vm.data_stack@ =~= s0.take(s0.len() - 2));
    match (&a, &b) {
        (Cell::Str(x), Cell::Str(y)) => {
            let t = concat_strings(x.as_str(), y.as_str());
            let ghost s2 = vm.data_stack@;
            let r = vm.push(Cell::Str(t));
            assert(vm.data_stack@.drop_last() =~= s2);
            r
        },
        (Cell::Str(_), _) => Err(TbxError::TypeError { expected: "Str", got: b.variant_name() }),
        _ => Err(TbxError::TypeError { expected: "Str", got: a.variant_name() }),
    }
}

/// What `str_eq_prim` does, from the state `pre` to the state `post` with the
/// result `r`.
pub open spec fn str_eq_prim_outcome(pre: VM, post: VM, r: Result<(), TbxError>) -> bool {
    &&& (only_data_changed(pre, post))
    &&& (pre.data_stack@.len() < 2 ==> r == Err::<(), TbxError>(TbxError::StackUnderflow)
            && post.data_stack@ == pre.data_stack@)
    &&& (pre.data_stack@.len() >= 2 ==> {
            let s = pre.data_stack@;
            let n = s.len();
            match two_str_error(s[n - 2], s[n - 1]) {
                None => r is Ok && (s[n - 2] matches Cell::Str(x) && s[n - 1] matches Cell::Str(y)
                    && post.data_stack@ == s.take(n - 2).push(Cell::Bool(x@ == y@))),
                Some(e) => r == Err::<(), TbxError>(e) && post.data_stack@ == s.take(n - 2),
            }
        })
}

/// STR_EQ ( a b -- flag ): whether two strings have the same characters.
pub fn str_eq_prim(vm: &mut VM) -> (r: Result<(), TbxError>)
    requires
        old(vm).wf(),
    ensures
        final(vm).wf(),
        only_data_changed(*old(vm), *final(vm)),
        old(vm).data_stack@.len() < 2 ==> r == Err::<(), TbxError>(TbxError::StackUnderflow)
            && final(vm).data_stack@ == old(vm).data_stack@,
        old(vm).data_stack@.len() >= 2 ==> {
            let s = old(vm).data_stack@;
            let n = s.len();
            match two_str_error(s[n - 2], s[n - 1]) {
                None => r is Ok && (s[n - 2] matches Cell::Str(x) && s[n - 1] matches Cell::Str(y)
                    && final(vm).data_stack@ == s.take(n - 2).push(Cell::Bool(x@ == y@))),
                Some(e) => r == Err::<(), TbxError>(e) && final(vm).data_stack@ == s.take(n - 2),
            }
        },
{
    if vm.data_stack.len() < 2 {
        return Err(TbxError::StackUnderflow);
    }
    let ghost s0 = vm.data_stack@;
    let b = vm.pop()?;
    let a = vm.pop()?;
    assert(vm.data_stack@ =~= s0.take(s0.len() - 2));
    match (&a, &b) {
        (Cell::Str(x), Cell::Str(y)) => {
            let eq = *x == *y;
            vm.push(Cell::Bool(eq))
        },
        (Cell::Str(_), _) => Err(TbxError::TypeError { expected: "Str", got: b.variant_name() }),
        _ => Err(TbxError::TypeError { expected: "Str", got: a.variant_name() }),
    }
}

// ---------------------------------------------------------------------------
// Input
// ---------------------------------------------------------------------------

/// Index of the first line break at or after `p` (or the end of the text).
pub open spec fn line_end(t: Seq<char>, p: int) -> int
    decreases t.len() - p,
{
    if p >= t.len() || t[p] == '\n' {
        p
    } else {
        line_end(t, p + 1)
    }
}

/// A line without one trailing carriage return.
pub open spec fn strip_cr(l: Seq<char>) -> Seq<char> {
    if l.len() > 0 && l.last() == '\r' {
        l.drop_last()
    } else {
        l
    }
}

/// The line that reading at position `p` of input `t` yields.
pub open spec fn line_at(t: Seq<char>, p: int) -> Seq<char> {
    strip_cr(t.subrange(p, line_end(t, p)))
}

/// The input position after reading the line at `p`.
pub open spec fn after_line(t: Seq<char>, p: int) -> int {
    let e = line_end(t, p);
    if e < t.len() { e + 1 } else { e }
}

/// Read one line of the input (up to a line feed, or to the end of the
/// input), without its line ending (`\n`, or `\r\n`).
pub fn accept_prim(vm: &mut VM) -> (r: Result<String, TbxError>)
    requires
        old(vm).wf(),
    ensures
        final(vm).wf(),
        r matches Ok(s) && s@ == line_at(old(vm).input_text@, old(vm).input_pos as int),
        final(vm).input_pos == after_line(old(vm).input_text@, old(vm).input_pos as int),
        final(vm).data_stack@ == old(vm).data_stack@,
        only_data_input_changed(*old(vm), *final(vm)),
{
    let p = vm.input_pos;
    let mut e: usize = p;
    while e < vm.input_text.len() && vm.input_text[e] != '\n'
        invariant
            p <= e <= vm.input_text@.len(),
            line_end(vm.input_text@, p as int) == line_end(vm.input_text@, e as int),
        decreases vm.input_text@.len() - e,
    {
        e = e + 1;
    }
    let mut line: Vec<char> = Vec::new();
    let mut i: usize = p;
    while i < e
        invariant
            p <= i <= e,
            e <= vm.input_text@.len(),
            line@ == vm.input_text@.subrange(p as int, i as int),
        decreases e - i,
    {
        line.push(vm.input_text[i]);
        assert(vm.input_text@.subrange(p as int, i as int + 1) =~= vm.input_text@.subrange(p as int, i as int).push(
            vm.input_text@[i as int],
        ));
        i = i + 1;
    }
    if line.len() > 0 && line[line.len() - 1] == '\r' {
        line.pop();
    }
    vm.input_pos = if e < vm.input_text.len() { e + 1 } else { e };
    Ok(chars_to_string(&line))
}

/// What `getdec_prim` does, from the state `pre` to the state `post` with the
/// result `r`.
pub open spec fn getdec_prim_outcome(pre: VM, post: VM, r: Result<(), TbxError>) -> bool {
    &&& (only_data_input_changed(pre, post))
    &&& (post.input_pos == after_line(pre.input_text@, pre.input_pos as int))
    &&& (({
            let l = line_at(pre.input_text@, pre.input_pos as int);
            match signed_text_value(trim_seq(l)) {
                Some(v) => if in_i64(v) {
                    if pre.data_stack@.len() < MAX_DATA_STACK_DEPTH {
                        r is Ok && post.data_stack@ == pre.data_stack@.push(Cell::Int(v as i64))
                    } else {
                        r is Err && post.data_stack@ == pre.data_stack@
                    }
                } else {
                    (r matches Err(TbxError::ParseIntError { input }) && input@ == l) && post.data_stack@
                        == pre.data_stack@
                },
                None => (r matches Err(TbxError::ParseIntError { input }) && input@ == l)
                    && post.data_stack@ == pre.data_stack@,
            }
        }))
}

/// GETDEC ( -- n ): read one line and push it as a signed decimal integer
/// (surrounding whitespace ignored).
pub fn getdec_prim(vm: &mut VM) -> (r: Result<(), TbxError>)
    requires
        old(vm).wf(),
    ensures
        final(vm).wf(),
        only_data_input_changed(*old(vm), *final(vm)),
        final(vm).input_pos == after_line(old(vm).input_text@, old(vm).input_pos as int),
        ({
            let l = line_at(old(vm).input_text@, old(vm).input_pos as int);
            match signed_text_value(trim_seq(l)) {
                Some(v) => if in_i64(v) {
                    if old(vm).data_stack@.len() < MAX_DATA_STACK_DEPTH {
                        r is Ok && final(vm).data_stack@ == old(vm).data_stack@.push(Cell::Int(v as i64))
                    } else {
                        r is Err && final(vm).data_stack@ == old(vm).data_stack@
                    }
                } else {
                    (r matches Err(TbxError::ParseIntError { input }) && input@ == l) && final(vm).data_stack@
                        == old(vm).data_stack@
                },
                None => (r matches Err(TbxError::ParseIntError { input }) && input@ == l)
                    && final(vm).data_stack@ == old(vm).data_stack@,
            }
        }),
{
    let s = accept_prim(vm)?;
    let cs = str_to_chars(s.as_str());
    let t = trim_chars(&cs);
    match parse_i64_text(&t) {
        Some(n) => vm.push(Cell::Int(n)),
        None => Err(TbxError::ParseIntError { input: s }),
    }
}

/// What `getstr_prim` does, from the state `pre` to the state `post` with the
/// result `r`.
pub open spec fn getstr_prim_outcome(pre: VM, post: VM, r: Result<(), TbxError>) -> bool {
    &&& (only_data_input_changed(pre, post))
    &&& (post.input_pos == after_line(pre.input_text@, pre.input_pos as int))
    &&& (r is Ok <==> pre.data_stack@.len() < MAX_DATA_STACK_DEPTH)
    &&& (r is Ok ==> post.data_stack@.drop_last() == pre.data_stack@ && post.data_stack@.len()
            == pre.data_stack@.len() + 1 && (post.data_stack@.last() matches Cell::Str(s)
            && s@ == line_at(pre.input_text@, pre.input_pos as int)))
    &&& (r is Err ==> post.data_stack@ == pre.data_stack@)
}

/// GETSTR ( -- s ): read one line and push it as a string.
pub fn getstr_prim(vm: &mut VM) -> (r: Result<(), TbxError>)
    requires
        old(vm).wf(),
    ensures
        final(vm).wf(),
        only_data_input_changed(*old(vm), *final(vm)),
        final(vm).input_pos == after_line(old(vm).input_text@, old(vm).input_pos as int),
        r is Ok <==> old(vm).data_stack@.len() < MAX_DATA_STACK_DEPTH,
        r is Ok ==> final(vm).data_stack@.drop_last() == old(vm).data_stack@ && final(vm).data_stack@.len()
            == old(vm).data_stack@.len() + 1 && (final(vm).data_stack@.last() matches Cell::Str(s)
            && s@ == line_at(old(vm).input_text@, old(vm).input_pos as int)),
        r is Err ==> final(vm).data_stack@ == old(vm).data_stack@,
{
    let s = accept_prim(vm)?;
    let ghost s1 = vm.data_stack@;
    let r = vm.push(Cell::Str(s));
    if r.is_ok() {
        assert(vm.data_stack@.drop_last() =~= s1);
    }
    r
}

} // verus!
