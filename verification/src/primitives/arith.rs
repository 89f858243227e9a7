//! Integer arithmetic, comparison and logic primitives.
use vstd::prelude::*;
use crate::cell::{Cell, truthy, variant_name_of};
use crate::error::TbxError;
use crate::vm::{VM, only_data_changed};

verus! {

/// The binary operators on two operands.
#[derive(Debug, Clone, Copy, PartialEq, Eq)]
pub enum BinOp {
    Add,
    Sub,
    Mul,
    Div,
    Mod,
    Band,
    Bor,
    Lt,
    Gt,
    Le,
    Ge,
    Eq,
    Neq,
    And,
    Or,
}

/// Equality of two values: strings by content, other values structurally.
pub open spec fn cell_equal(a: Cell, b: Cell) -> bool {
    match (a, b) {
        (Cell::Str(x), Cell::Str(y)) => x@ == y@,
        (Cell::Str(_), _) => false,
        (_, Cell::Str(_)) => false,
        _ => a == b,
    }
}

/// Whether an operator works on integers only.
pub open spec fn int_only(op: BinOp) -> bool {
    !(op is Eq || op is Neq || op is And || op is Or)
}

/// The integer result of an operator on two integers.
pub open spec fn int_op(op: BinOp, a: i64, b: i64) -> Result<Cell, TbxError> {
    match op {
        BinOp::Add => match a.checked_add(b) {
            Some(v) => Ok(Cell::Int(v)),
            None => Err(TbxError::IntegerOverflow),
        },
        BinOp::Sub => match a.checked_sub(b) {
            Some(v) => Ok(Cell::Int(v)),
            None => Err(TbxError::IntegerOverflow),
        },
        BinOp::Mul => match a.checked_mul(b) {
            Some(v) => Ok(Cell::Int(v)),
            None => Err(TbxError::IntegerOverflow),
        },
        BinOp::Div => if b == 0 {
            Err(TbxError::DivisionByZero)
        } else {
            match a.checked_div(b) {
                Some(v) => Ok(Cell::Int(v)),
                None => Err(TbxError::IntegerOverflow),
            }
        },
        BinOp::Mod => if b == 0 {
            Err(TbxError::DivisionByZero)
        } else {
            match a.checked_rem(b) {
                Some(v) => Ok(Cell::Int(v)),
                None => Err(TbxError::IntegerOverflow),
            }
        },
        BinOp::Band => Ok(Cell::Int(a & b)),
        BinOp::Bor => Ok(Cell::Int(a | b)),
        BinOp::Lt => Ok(Cell::Bool(a < b)),
        BinOp::Gt => Ok(Cell::Bool(a > b)),
        BinOp::Le => Ok(Cell::Bool(a <= b)),
        BinOp::Ge => Ok(Cell::Bool(a >= b)),
        _ => Ok(Cell::Nil),
    }
}

/// What the operands of an arithmetic or comparison operator must be:
/// numbers for the arithmetic and ordering operators, integers for the
/// remainder and the bitwise operators.
pub open spec fn operand_kind(op: BinOp) -> &'static str {
    match op {
        BinOp::Add | BinOp::Sub | BinOp::Mul | BinOp::Div | BinOp::Lt | BinOp::Gt | BinOp::Le | BinOp::Ge => "number",
        _ => "Int",
    }
}

fn operand_kind_of(op: BinOp) -> (r: &'static str)
    ensures
        r == operand_kind(op),
{
    match op {
        BinOp::Add | BinOp::Sub | BinOp::Mul | BinOp::Div | BinOp::Lt | BinOp::Gt | BinOp::Le | BinOp::Ge => "number",
        _ => "Int",
    }
}

/// The result of a binary operator on two values `a` (second) and `b` (top).
pub open spec fn binop_result(op: BinOp, a: Cell, b: Cell) -> Result<Cell, TbxError> {
    match op {
        BinOp::Eq => Ok(Cell::Bool(cell_equal(a, b))),
        BinOp::Neq => Ok(Cell::Bool(!cell_equal(a, b))),
        BinOp::And => Ok(Cell::Bool(truthy(a) && truthy(b))),
        BinOp::Or => Ok(Cell::Bool(truthy(a) || truthy(b))),
        _ => match (a, b) {
            (Cell::Int(x), Cell::Int(y)) => int_op(op, x, y),
            (Cell::Int(_), other) => Err(TbxError::TypeError { expected: operand_kind(op), got: variant_name_of(other) }),
            (other, _) => Err(TbxError::TypeError { expected: operand_kind(op), got: variant_name_of(other) }),
        },
    }
}

/// Exec equality of two cells.
pub fn cells_equal(a: &Cell, b: &Cell) -> (r: bool)
    ensures
        r == cell_equal(*a, *b),
{
    match (a, b) {
        (Cell::Str(x), Cell::Str(y)) => *x == *y,
        (Cell::Str(_), _) => false,
        (_, Cell::Str(_)) => false,
        (Cell::Int(x), Cell::Int(y)) => *x == *y,
        (Cell::DictAddr(x), Cell::DictAddr(y)) => *x == *y,
        (Cell::StackAddr(x), Cell::StackAddr(y)) => *x == *y,
        (Cell::Xt(x), Cell::Xt(y)) => x.0 == y.0,
        (Cell::Bool(x), Cell::Bool(y)) => *x == *y,
        (Cell::Array(x), Cell::Array(y)) => *x == *y,
        (Cell::ArrayElem(p, i), Cell::ArrayElem(q, j)) => *p == *q && *i == *j,
        (Cell::Nil, Cell::Nil) => true,
        (Cell::Marker, Cell::Marker) => true,
        _ => false,
    }
}

fn apply_int(op: BinOp, a: i64, b: i64) -> (r: Result<Cell, TbxError>)
    requires
        int_only(op),
    ensures
        r == int_op(op, a, b),
{
    match op {
        BinOp::Add => match a.checked_add(b) {
            Some(v) => Ok(Cell::Int(v)),
            None => Err(TbxError::IntegerOverflow),
        },
        BinOp::Sub => match a.checked_sub(b) {
            Some(v) => Ok(Cell::Int(v)),
            None => Err(TbxError::IntegerOverflow),
        },
        BinOp::Mul => match a.checked_mul(b) {
            Some(v) => Ok(Cell::Int(v)),
            None => Err(TbxError::IntegerOverflow),
        },
        BinOp::Div => {
            if b == 0 {
                Err(TbxError::DivisionByZero)
            } else {
                match a.checked_div(b) {
                    Some(v) => Ok(Cell::Int(v)),
                    None => Err(TbxError::IntegerOverflow),
                }
            }
        },
        BinOp::Mod => {
            if b == 0 {
                Err(TbxError::DivisionByZero)
            } else {
                match a.checked_rem(b) {
                    Some(v) => Ok(Cell::Int(v)),
                    None => Err(TbxError::IntegerOverflow),
                }
            }
        },
        BinOp::Band => Ok(Cell::Int(a & b)),
        BinOp::Bor => Ok(Cell::Int(a | b)),
        BinOp::Lt => Ok(Cell::Bool(a < b)),
        BinOp::Gt => Ok(Cell::Bool(a > b)),
        BinOp::Le => Ok(Cell::Bool(a <= b)),
        _ => Ok(Cell::Bool(a >= b)),
    }
}

/// The value of a binary operator on two values.
pub fn apply_binop(op: BinOp, a: &Cell, b: &Cell) -> (r: Result<Cell, TbxError>)
    ensures
        r == binop_result(op, *a, *b),
{
    match op {
        BinOp::Eq => Ok(Cell::Bool(cells_equal(a, b))),
        BinOp::Neq => Ok(Cell::Bool(!cells_equal(a, b))),
        BinOp::And => Ok(Cell::Bool(a.is_truthy() && b.is_truthy())),
        BinOp::Or => Ok(Cell::Bool(a.is_truthy() || b.is_truthy())),
        _ => match (a, b) {
            (Cell::Int(x), Cell::Int(y)) => apply_int(op, *x, *y),
            (Cell::Int(_), other) => Err(TbxError::TypeError { expected: operand_kind_of(op), got: other.variant_name() }),
            (other, _) => Err(TbxError::TypeError { expected: operand_kind_of(op), got: other.variant_name() }),
        },
    }
}

/// What `binop_prim` does, from the state `pre` to the state `post` with the
/// result `r`.
pub open spec fn binop_prim_outcome(op: BinOp, pre: VM, post: VM, r: Result<(), TbxError>) -> bool {
    &&& (only_data_changed(pre, post))
    &&& (pre.data_stack@.len() < 2 ==> r == Err::<(), TbxError>(TbxError::StackUnderflow)
            && post.data_stack@ == pre.data_stack@)
    &&& (pre.data_stack@.len() >= 2 ==> {
            let s = pre.data_stack@;
            let n = s.len();
            match binop_result(op, s[n - 2], s[n - 1]) {
                Ok(v) => r is Ok && post.data_stack@ == s.take(n - 2).push(v),
                Err(e) => r == Err::<(), TbxError>(e) && post.data_stack@ == s.take(n - 2),
            }
        })
}

/// Pop `b` then `a` and push `op(a, b)`.
pub fn binop_prim(vm: &mut VM, op: BinOp) -> (r: Result<(), TbxError>)
    requires
        old(vm).wf(),
    ensures
        final(vm).wf(),
        only_data_changed(*old(vm), *final(vm)),
        old(vm).data_stack@.len() < 2 ==> r == Err::<(), TbxError>(TbxError::StackUnderflow)
            && final(vm).data_stack@ == old(vm).data_stack@,
        old(vm).data_stack@.len() >= 2 ==> {
            let s = old(vm).data_stack@;
            let n = s.len();
            match binop_result(op, s[n - 2], s[n - 1]) {
                Ok(v) => r is Ok && final(vm).data_stack@ == s.take(n - 2).push(v),
                Err(e) => r == Err::<(), TbxError>(e) && final(vm).data_stack@ == s.take(n - 2),
            }
        },
{
    if vm.data_stack.len() < 2 {
        return Err(TbxError::StackUnderflow);
    }
    let ghost s0 = vm.data_stack@;
    let b = vm.pop()?;
    let a = vm.pop()?;
    assert(vm.data_stack@ =~= s0.take(s0.len() - 2));
    let v = apply_binop(op, &a, &b)?;
    vm.push(v)
}

/// ADD ( a b -- a+b ), checked.
pub fn add_prim(vm: &mut VM) -> (r: Result<(), TbxError>)
    requires
        old(vm).wf(),
    ensures
        final(vm).wf(),
        only_data_changed(*old(vm), *final(vm)),
        old(vm).data_stack@.len() < 2 ==> r == Err::<(), TbxError>(TbxError::StackUnderflow),
        old(vm).data_stack@.len() >= 2 ==> {
            let s = old(vm).data_stack@;
            let n = s.len();
            match binop_result(BinOp::Add, s[n - 2], s[n - 1]) {
                Ok(v) => r is Ok && final(vm).data_stack@ == s.take(n - 2).push(v),
                Err(e) => r == Err::<(), TbxError>(e) && final(vm).data_stack@ == s.take(n - 2),
            }
        },
{
    binop_prim(vm, BinOp::Add)
}

/// What `negate_prim` does, from the state `pre` to the state `post` with the
/// result `r`.
pub open spec fn negate_prim_outcome(pre: VM, post: VM, r: Result<(), TbxError>) -> bool {
    &&& (only_data_changed(pre, post))
    &&& (pre.data_stack@.len() == 0 ==> r == Err::<(), TbxError>(TbxError::StackUnderflow))
    &&& (pre.data_stack@.len() > 0 ==> {
            let s = pre.data_stack@;
            match s.last() {
                Cell::Int(n) => if n == i64::MIN {
                    r == Err::<(), TbxError>(TbxError::IntegerOverflow) && post.data_stack@ == s.drop_last()
                } else {
                    r is Ok && post.data_stack@ == s.drop_last().push(Cell::Int((-n) as i64))
                },
                c => r == Err::<(), TbxError>(TbxError::TypeError { expected: "Int", got: variant_name_of(c) })
                    && post.data_stack@ == s.drop_last(),
            }
        })
}

/// NEGATE ( a -- -a ), checked.
pub fn negate_prim(vm: &mut VM) -> (r: Result<(), TbxError>)
    requires
        old(vm).wf(),
    ensures
        final(vm).wf(),
        only_data_changed(*old(vm), *final(vm)),
        old(vm).data_stack@.len() == 0 ==> r == Err::<(), TbxError>(TbxError::StackUnderflow),
        old(vm).data_stack@.len() > 0 ==> {
            let s = old(vm).data_stack@;
            match s.last() {
                Cell::Int(n) => if n == i64::MIN {
                    r == Err::<(), TbxError>(TbxError::IntegerOverflow) && final(vm).data_stack@ == s.drop_last()
                } else {
                    r is Ok && final(vm).data_stack@ == s.drop_last().push(Cell::Int((-n) as i64))
                },
                c => r == Err::<(), TbxError>(TbxError::TypeError { expected: "Int", got: variant_name_of(c) })
                    && final(vm).data_stack@ == s.drop_last(),
            }
        },
{
    let n = vm.pop_int()?;
    if n == i64::MIN {
        return Err(TbxError::IntegerOverflow);
    }
    vm.push(Cell::Int(-n))
}

/// What `not_prim` does, from the state `pre` to the state `post` with the
/// result `r`.
pub open spec fn not_prim_outcome(pre: VM, post: VM, r: Result<(), TbxError>) -> bool {
    &&& (only_data_changed(pre, post))
    &&& (r is Ok <==> pre.data_stack@.len() > 0)
    &&& (r is Ok ==> post.data_stack@ == pre.data_stack@.drop_last().push(
            Cell::Bool(!truthy(pre.data_stack@.last())),
        ))
}

/// NOT ( a -- !a ): logical negation of truthiness.
pub fn not_prim(vm: &mut VM) -> (r: Result<(), TbxError>)
    requires
        old(vm).wf(),
    ensures
        final(vm).wf(),
        only_data_changed(*old(vm), *final(vm)),
        r is Ok <==> old(vm).data_stack@.len() > 0,
        r is Ok ==> final(vm).data_stack@ == old(vm).data_stack@.drop_last().push(
            Cell::Bool(!truthy(old(vm).data_stack@.last())),
        ),
{
    let c = vm.pop()?;
    vm.push(Cell::Bool(!c.is_truthy()))
}

/// What `int_prim` does, from the state `pre` to the state `post` with the
/// result `r`.
pub open spec fn int_prim_outcome(pre: VM, post: VM, r: Result<(), TbxError>) -> bool {
    &&& (only_data_changed(pre, post))
    &&& (pre.data_stack@.len() == 0 ==> r == Err::<(), TbxError>(TbxError::StackUnderflow))
    &&& (pre.data_stack@.len() > 0 ==> match pre.data_stack@.last() {
            Cell::Int(n) => r is Ok && post.data_stack@ == pre.data_stack@,
            c => r == Err::<(), TbxError>(TbxError::TypeError { expected: "Int or Float", got: variant_name_of(c) })
                && post.data_stack@ == pre.data_stack@.drop_last(),
        })
}

/// INT ( a -- a ): integer identity (values are already integers).
pub fn int_prim(vm: &mut VM) -> (r: Result<(), TbxError>)
    requires
        old(vm).wf(),
    ensures
        final(vm).wf(),
        only_data_changed(*old(vm), *final(vm)),
        old(vm).data_stack@.len() == 0 ==> r == Err::<(), TbxError>(TbxError::StackUnderflow),
        old(vm).data_stack@.len() > 0 ==> match old(vm).data_stack@.last() {
            Cell::Int(n) => r is Ok && final(vm).data_stack@ == old(vm).data_stack@,
            c => r == Err::<(), TbxError>(TbxError::TypeError { expected: "Int or Float", got: variant_name_of(c) })
                && final(vm).data_stack@ == old(vm).data_stack@.drop_last(),
        },
{
    let c = vm.pop()?;
    match c {
        Cell::Int(n) => vm.push(Cell::Int(n)),
        other => Err(TbxError::TypeError { expected: "Int or Float", got: other.variant_name() }),
    }
}


/// SUB ( a b -- a-b ), checked.
pub fn sub_prim(vm: &mut VM) -> (r: Result<(), TbxError>)
    requires
        old(vm).wf(),
    ensures
        final(vm).wf(),
        only_data_changed(*old(vm), *final(vm)),
        old(vm).data_stack@.len() < 2 ==> r == Err::<(), TbxError>(TbxError::StackUnderflow),
        old(vm).data_stack@.len() >= 2 ==> {
            let s = old(vm).data_stack@;
            let n = s.len();
            match binop_result(BinOp::Sub, s[n - 2], s[n - 1]) {
                Ok(v) => r is Ok && final(vm).data_stack@ == s.take(n - 2).push(v),
                Err(e) => r == Err::<(), TbxError>(e) && final(vm).data_stack@ == s.take(n - 2),
            }
        },
{
    binop_prim(vm, BinOp::Sub)
}

/// MUL ( a b -- a*b ), checked.
pub fn mul_prim(vm: &mut VM) -> (r: Result<(), TbxError>)
    requires
        old(vm).wf(),
    ensures
        final(vm).wf(),
        only_data_changed(*old(vm), *final(vm)),
        old(vm).data_stack@.len() < 2 ==> r == Err::<(), TbxError>(TbxError::StackUnderflow),
        old(vm).data_stack@.len() >= 2 ==> {
            let s = old(vm).data_stack@;
            let n = s.len();
            match binop_result(BinOp::Mul, s[n - 2], s[n - 1]) {
                Ok(v) => r is Ok && final(vm).data_stack@ == s.take(n - 2).push(v),
                Err(e) => r == Err::<(), TbxError>(e) && final(vm).data_stack@ == s.take(n - 2),
            }
        },
{
    binop_prim(vm, BinOp::Mul)
}

/// DIV ( a b -- a/b ), truncating, checked.
pub fn div_prim(vm: &mut VM) -> (r: Result<(), TbxError>)
    requires
        old(vm).wf(),
    ensures
        final(vm).wf(),
        only_data_changed(*old(vm), *final(vm)),
        old(vm).data_stack@.len() < 2 ==> r == Err::<(), TbxError>(TbxError::StackUnderflow),
        old(vm).data_stack@.len() >= 2 ==> {
            let s = old(vm).data_stack@;
            let n = s.len();
            match binop_result(BinOp::Div, s[n - 2], s[n - 1]) {
                Ok(v) => r is Ok && final(vm).data_stack@ == s.take(n - 2).push(v),
                Err(e) => r == Err::<(), TbxError>(e) && final(vm).data_stack@ == s.take(n - 2),
            }
        },
{
    binop_prim(vm, BinOp::Div)
}

/// MOD ( a b -- a%b ), checked.
pub fn mod_prim(vm: &mut VM) -> (r: Result<(), TbxError>)
    requires
        old(vm).wf(),
    ensures
        final(vm).wf(),
        only_data_changed(*old(vm), *final(vm)),
        old(vm).data_stack@.len() < 2 ==> r == Err::<(), TbxError>(TbxError::StackUnderflow),
        old(vm).data_stack@.len() >= 2 ==> {
            let s = old(vm).data_stack@;
            let n = s.len();
            match binop_result(BinOp::Mod, s[n - 2], s[n - 1]) {
                Ok(v) => r is Ok && final(vm).data_stack@ == s.take(n - 2).push(v),
                Err(e) => r == Err::<(), TbxError>(e) && final(vm).data_stack@ == s.take(n - 2),
            }
        },
{
    binop_prim(vm, BinOp::Mod)
}

/// BAND ( a b -- a&b ): bitwise and.
pub fn band_prim(vm: &mut VM) -> (r: Result<(), TbxError>)
    requires
        old(vm).wf(),
    ensures
        final(vm).wf(),
        only_data_changed(*old(vm), *final(vm)),
        old(vm).data_stack@.len() < 2 ==> r == Err::<(), TbxError>(TbxError::StackUnderflow),
        old(vm).data_stack@.len() >= 2 ==> {
            let s = old(vm).data_stack@;
            let n = s.len();
            match binop_result(BinOp::Band, s[n - 2], s[n - 1]) {
                Ok(v) => r is Ok && final(vm).data_stack@ == s.take(n - 2).push(v),
                Err(e) => r == Err::<(), TbxError>(e) && final(vm).data_stack@ == s.take(n - 2),
            }
        },
{
    binop_prim(vm, BinOp::Band)
}

/// BOR ( a b -- a|b ): bitwise or.
pub fn bor_prim(vm: &mut VM) -> (r: Result<(), TbxError>)
    requires
        old(vm).wf(),
    ensures
        final(vm).wf(),
        only_data_changed(*old(vm), *final(vm)),
        old(vm).data_stack@.len() < 2 ==> r == Err::<(), TbxError>(TbxError::StackUnderflow),
        old(vm).data_stack@.len() >= 2 ==> {
            let s = old(vm).data_stack@;
            let n = s.len();
            match binop_result(BinOp::Bor, s[n - 2], s[n - 1]) {
                Ok(v) => r is Ok && final(vm).data_stack@ == s.take(n - 2).push(v),
                Err(e) => r == Err::<(), TbxError>(e) && final(vm).data_stack@ == s.take(n - 2),
            }
        },
{
    binop_prim(vm, BinOp::Bor)
}

/// EQ ( a b -- a=b ).
pub fn eq_prim(vm: &mut VM) -> (r: Result<(), TbxError>)
    requires
        old(vm).wf(),
    ensures
        final(vm).wf(),
        only_data_changed(*old(vm), *final(vm)),
        old(vm).data_stack@.len() < 2 ==> r == Err::<(), TbxError>(TbxError::StackUnderflow),
        old(vm).data_stack@.len() >= 2 ==> {
            let s = old(vm).data_stack@;
            let n = s.len();
            match binop_result(BinOp::Eq, s[n - 2], s[n - 1]) {
                Ok(v) => r is Ok && final(vm).data_stack@ == s.take(n - 2).push(v),
                Err(e) => r == Err::<(), TbxError>(e) && final(vm).data_stack@ == s.take(n - 2),
            }
        },
{
    binop_prim(vm, BinOp::Eq)
}

/// NEQ ( a b -- a<>b ).
pub fn neq_prim(vm: &mut VM) -> (r: Result<(), TbxError>)
    requires
        old(vm).wf(),
    ensures
        final(vm).wf(),
        only_data_changed(*old(vm), *final(vm)),
        old(vm).data_stack@.len() < 2 ==> r == Err::<(), TbxError>(TbxError::StackUnderflow),
        old(vm).data_stack@.len() >= 2 ==> {
            let s = old(vm).data_stack@;
            let n = s.len();
            match binop_result(BinOp::Neq, s[n - 2], s[n - 1]) {
                Ok(v) => r is Ok && final(vm).data_stack@ == s.take(n - 2).push(v),
                Err(e) => r == Err::<(), TbxError>(e) && final(vm).data_stack@ == s.take(n - 2),
            }
        },
{
    binop_prim(vm, BinOp::Neq)
}

/// LT ( a b -- a<b ).
pub fn lt_prim(vm: &mut VM) -> (r: Result<(), TbxError>)
    requires
        old(vm).wf(),
    ensures
        final(vm).wf(),
        only_data_changed(*old(vm), *final(vm)),
        old(vm).data_stack@.len() < 2 ==> r == Err::<(), TbxError>(TbxError::StackUnderflow),
        old(vm).data_stack@.len() >= 2 ==> {
            let s = old(vm).data_stack@;
            let n = s.len();
            match binop_result(BinOp::Lt, s[n - 2], s[n - 1]) {
                Ok(v) => r is Ok && final(vm).data_stack@ == s.take(n - 2).push(v),
                Err(e) => r == Err::<(), TbxError>(e) && final(vm).data_stack@ == s.take(n - 2),
            }
        },
{
    binop_prim(vm, BinOp::Lt)
}

/// GT ( a b -- a>b ).
pub fn gt_prim(vm: &mut VM) -> (r: Result<(), TbxError>)
    requires
        old(vm).wf(),
    ensures
        final(vm).wf(),
        only_data_changed(*old(vm), *final(vm)),
        old(vm).data_stack@.len() < 2 ==> r == Err::<(), TbxError>(TbxError::StackUnderflow),
        old(vm).data_stack@.len() >= 2 ==> {
            let s = old(vm).data_stack@;
            let n = s.len();
            match binop_result(BinOp::Gt, s[n - 2], s[n - 1]) {
                Ok(v) => r is Ok && final(vm).data_stack@ == s.take(n - 2).push(v),
                Err(e) => r == Err::<(), TbxError>(e) && final(vm).data_stack@ == s.take(n - 2),
            }
        },
{
    binop_prim(vm, BinOp::Gt)
}

/// LE ( a b -- a<=b ).
pub fn le_prim(vm: &mut VM) -> (r: Result<(), TbxError>)
    requires
        old(vm).wf(),
    ensures
        final(vm).wf(),
        only_data_changed(*old(vm), *final(vm)),
        old(vm).data_stack@.len() < 2 ==> r == Err::<(), TbxError>(TbxError::StackUnderflow),
        old(vm).data_stack@.len() >= 2 ==> {
            let s = old(vm).data_stack@;
            let n = s.len();
            match binop_result(BinOp::Le, s[n - 2], s[n - 1]) {
                Ok(v) => r is Ok && final(vm).data_stack@ == s.take(n - 2).push(v),
                Err(e) => r == Err::<(), TbxError>(e) && final(vm).data_stack@ == s.take(n - 2),
            }
        },
{
    binop_prim(vm, BinOp::Le)
}

/// GE ( a b -- a>=b ).
pub fn ge_prim(vm: &mut VM) -> (r: Result<(), TbxError>)
    requires
        old(vm).wf(),
    ensures
        final(vm).wf(),
        only_data_changed(*old(vm), *final(vm)),
        old(vm).data_stack@.len() < 2 ==> r == Err::<(), TbxError>(TbxError::StackUnderflow),
        old(vm).data_stack@.len() >= 2 ==> {
            let s = old(vm).data_stack@;
            let n = s.len();
            match binop_result(BinOp::Ge, s[n - 2], s[n - 1]) {
                Ok(v) => r is Ok && final(vm).data_stack@ == s.take(n - 2).push(v),
                Err(e) => r == Err::<(), TbxError>(e) && final(vm).data_stack@ == s.take(n - 2),
            }
        },
{
    binop_prim(vm, BinOp::Ge)
}

/// AND ( a b -- flag ): both truthy.
pub fn and_prim(vm: &mut VM) -> (r: Result<(), TbxError>)
    requires
        old(vm).wf(),
    ensures
        final(vm).wf(),
        only_data_changed(*old(vm), *final(vm)),
        old(vm).data_stack@.len() < 2 ==> r == Err::<(), TbxError>(TbxError::StackUnderflow),
        old(vm).data_stack@.len() >= 2 ==> {
            let s = old(vm).data_stack@;
            let n = s.len();
            match binop_result(BinOp::And, s[n - 2], s[n - 1]) {
                Ok(v) => r is Ok && final(vm).data_stack@ == s.take(n - 2).push(v),
                Err(e) => r == Err::<(), TbxError>(e) && final(vm).data_stack@ == s.take(n - 2),
            }
        },
{
    binop_prim(vm, BinOp::And)
}

/// OR ( a b -- flag ): either truthy.
pub fn or_prim(vm: &mut VM) -> (r: Result<(), TbxError>)
    requires
        old(vm).wf(),
    ensures
        final(vm).wf(),
        only_data_changed(*old(vm), *final(vm)),
        old(vm).data_stack@.len() < 2 ==> r == Err::<(), TbxError>(TbxError::StackUnderflow),
        old(vm).data_stack@.len() >= 2 ==> {
            let s = old(vm).data_stack@;
            let n = s.len();
            match binop_result(BinOp::Or, s[n - 2], s[n - 1]) {
                Ok(v) => r is Ok && final(vm).data_stack@ == s.take(n - 2).push(v),
                Err(e) => r == Err::<(), TbxError>(e) && final(vm).data_stack@ == s.take(n - 2),
            }
        },
{
    binop_prim(vm, BinOp::Or)
}

} // verus!
