//! The inner interpreter: executes dictionary code, dispatches primitives,
//! and DIM (which may evaluate an expression at the top level).
use vstd::prelude::*;
use crate::cell::{Cell, ReturnFrame, Xt, variant_name_of};
use crate::constants::{MAX_RETURN_STACK_DEPTH, MAX_RUN_STEPS, MAX_ARRAY_ELEMENTS, MAX_DATA_STACK_DEPTH, MAX_DICTIONARY_CELLS};
use crate::dict::{EntryKind, Prim, WordEntry, FLAG_IMMEDIATE, FLAG_SYSTEM, FLAG_HIDDEN};
use crate::error::TbxError;
use crate::lexer::{SpannedToken, Token};
use crate::text::upper_seq;
use crate::primitives::{arith, stack, textio, misc, cstack, compile, control, arrays};
use crate::primitives::arith::BinOp;
use crate::primitives::textio::{OutOp, StrUnary};
use crate::vm::{VM, SysKind, stream, local_lookup, lookup_in, MAX_HEADERS};

pub use crate::words::{init_vm, register_all, register_standard_words};

verus! {

/// The return stack of a run: what it was before, the run's TopLevel
/// sentinel, and word calls above it.
pub open spec fn run_frames(rs: Seq<ReturnFrame>, base: Seq<ReturnFrame>) -> bool {
    &&& rs.len() > base.len()
    &&& rs.take(base.len() as int) == base
    &&& rs[base.len() as int] == ReturnFrame::TopLevel
    &&& forall|j: int| base.len() < j < rs.len() ==> #[trigger] rs[j] is Call
}

/// The effect of each primitive: what it does to the data stack, the
/// dictionary, the output and the rest of the machine, and its result (DIM,
/// which may run code, is stated by `dim_prim`).
pub open spec fn prim_effect(p: Prim, a: VM, b: VM, r: Result<(), TbxError>, depth: u32) -> bool {
    let s = a.data_stack@;
    match p {
        Prim::Drop => (r is Ok <==> s.len() >= 1) && (r is Ok ==> b.data_stack@ == s.drop_last()) && (r is Err
            ==> r == Err::<(), TbxError>(TbxError::StackUnderflow) && b.data_stack@ == s),
        Prim::Dup => (s.len() == 0 ==> r == Err::<(), TbxError>(TbxError::StackUnderflow)) && (s.len() > 0 ==> (r is Ok
            <==> s.len() < MAX_DATA_STACK_DEPTH)) && (r is Ok ==> b.data_stack@ == s.push(s.last())) && (r is Err
            ==> b.data_stack@ == s),
        Prim::Swap => (r is Ok <==> s.len() >= 2) && (r is Ok ==> b.data_stack@ == stack::swap_top(s)) && (r is Err
            ==> r == Err::<(), TbxError>(TbxError::StackUnderflow) && b.data_stack@ == s),
        Prim::Fetch => s.len() > 0 ==> match crate::primitives::memory::locate_with(a, s.len() - 1, s.last()) {
            Ok(l) => r is Ok && b.data_stack@ == s.drop_last().push(crate::primitives::memory::load(a, l)),
            Err(e) => r == Err::<(), TbxError>(e) && b.data_stack@ == s.drop_last(),
        },
        Prim::Store => s.len() >= 2 ==> match crate::primitives::memory::locate_with(a, s.len() - 2, s[s.len() - 1]) {
            Ok(l) => r is Ok && crate::primitives::memory::stored_with(a, s.take(s.len() - 2), b, l, s[s.len() - 2]),
            Err(e) => r == Err::<(), TbxError>(e) && b.data_stack@ == s.take(s.len() - 2),
        },
        Prim::Halt => r == Err::<(), TbxError>(TbxError::Halted) && b == a,
        Prim::SetValue => stack::set_prim_outcome(a, b, r),
        Prim::Add => arith::binop_prim_outcome(BinOp::Add, a, b, r),
        Prim::Sub => arith::binop_prim_outcome(BinOp::Sub, a, b, r),
        Prim::Mul => arith::binop_prim_outcome(BinOp::Mul, a, b, r),
        Prim::Div => arith::binop_prim_outcome(BinOp::Div, a, b, r),
        Prim::Mod => arith::binop_prim_outcome(BinOp::Mod, a, b, r),
        Prim::Negate => arith::negate_prim_outcome(a, b, r),
        Prim::IntConv => arith::int_prim_outcome(a, b, r),
        Prim::Eq => arith::binop_prim_outcome(BinOp::Eq, a, b, r),
        Prim::Neq => arith::binop_prim_outcome(BinOp::Neq, a, b, r),
        Prim::Lt => arith::binop_prim_outcome(BinOp::Lt, a, b, r),
        Prim::Gt => arith::binop_prim_outcome(BinOp::Gt, a, b, r),
        Prim::Le => arith::binop_prim_outcome(BinOp::Le, a, b, r),
        Prim::Ge => arith::binop_prim_outcome(BinOp::Ge, a, b, r),
        Prim::And => arith::binop_prim_outcome(BinOp::And, a, b, r),
        Prim::Or => arith::binop_prim_outcome(BinOp::Or, a, b, r),
        Prim::Not => arith::not_prim_outcome(a, b, r),
        Prim::Band => arith::binop_prim_outcome(BinOp::Band, a, b, r),
        Prim::Bor => arith::binop_prim_outcome(BinOp::Bor, a, b, r),
        Prim::PutStr => textio::output_prim_outcome(OutOp::Str, a, b, r),
        Prim::GetOutput => textio::get_output_prim_outcome(a, b, r),
        Prim::Str => textio::str_unary_prim_outcome(StrUnary::ToStr, a, b, r),
        Prim::StrConcat => textio::str_concat_prim_outcome(a, b, r),
        Prim::StrLen => textio::str_unary_prim_outcome(StrUnary::Len, a, b, r),
        Prim::StrEq => textio::str_eq_prim_outcome(a, b, r),
        Prim::StrUpper => textio::str_unary_prim_outcome(StrUnary::Upper, a, b, r),
        Prim::StrLower => textio::str_unary_prim_outcome(StrUnary::Lower, a, b, r),
        Prim::StrTrim => textio::str_unary_prim_outcome(StrUnary::Trim, a, b, r),
        Prim::PutChr => textio::output_prim_outcome(OutOp::Chr, a, b, r),
        Prim::PutDec => textio::output_prim_outcome(OutOp::Dec, a, b, r),
        Prim::PutHex => textio::output_prim_outcome(OutOp::Hex, a, b, r),
        Prim::PutVal => textio::output_prim_outcome(OutOp::Val, a, b, r),
        Prim::GetDec => textio::getdec_prim_outcome(a, b, r),
        Prim::GetStr => textio::getstr_prim_outcome(a, b, r),
        Prim::Append => misc::append_prim_outcome(a, b, r),
        Prim::Allot => misc::allot_prim_outcome(a, b, r),
        Prim::Here => misc::here_prim_outcome(a, b, r),
        Prim::State => misc::state_prim_outcome(a, b, r),
        Prim::AssertFailMsg => misc::assert_fail_msg_prim_outcome(a, b, r),
        Prim::LitMarker => misc::lit_marker_prim_outcome(a, b, r),
        Prim::Literal => misc::literal_prim_outcome(a, b, r),
        Prim::Header => misc::header_prim_outcome(a, b, r),
        Prim::Immediate => misc::immediate_prim_outcome(a, b, r),
        Prim::Def => compile::def_prim_outcome(a, b, r),
        Prim::End => compile::end_prim_outcome(a, b, r),
        Prim::Var => compile::var_prim_outcome(a, b, r),
        Prim::GotoCompile => compile::goto_prim_outcome(a, b, r),
        Prim::BifCompile => compile::bif_prim_outcome(a, b, r),
        Prim::BitCompile => compile::bit_prim_outcome(a, b, r),
        Prim::ReturnCompile => compile::return_prim_outcome(a, b, r),
        Prim::CsPush => cstack::cs_push_prim_outcome(a, b, r),
        Prim::CsPop => cstack::cs_pop_prim_outcome(a, b, r),
        Prim::CsSwap => cstack::cs_swap_prim_outcome(a, b, r),
        Prim::CsDrop => cstack::cs_drop_prim_outcome(a, b, r),
        Prim::CsDup => cstack::cs_dup_prim_outcome(a, b, r),
        Prim::CsOver => cstack::cs_over_prim_outcome(a, b, r),
        Prim::CsRot => cstack::cs_rot_prim_outcome(a, b, r),
        Prim::PatchAddr => cstack::patch_addr_prim_outcome(a, b, r),
        Prim::CompileExpr => compile::compile_expr_prim_outcome(a, b, r),
        Prim::CsOpenTag => cstack::cs_open_tag_prim_outcome(a, b, r),
        Prim::CsCloseTag => cstack::cs_close_tag_prim_outcome(a, b, r),
        Prim::Use => compile::use_prim_outcome(a, b, r),
        Prim::CompileLvalue => compile::compile_lvalue_prim_outcome(a, b, r),
        Prim::SkipEq => compile::skip_eq_prim_outcome(a, b, r),
        Prim::Lookup => misc::lookup_prim_outcome(a, b, r),
        Prim::SkipComma => compile::skip_comma_prim_outcome(a, b, r),
        Prim::CompileLvalueSave => compile::compile_lvalue_save_prim_outcome(a, b, r),
        Prim::Array => arrays::array_prim_outcome(a, b, r),
        Prim::ArrayStoreLocal => stack::array_store_local_prim_outcome(a, b, r),
        Prim::ArrayLen => arrays::array_len_prim_outcome(a, b, r),
        Prim::ArrayGet => arrays::array_get_prim_outcome(a, b, r),
        Prim::ArrayAddr => arrays::array_addr_prim_outcome(a, b, r),
        Prim::VaCount => misc::va_count_prim_outcome(a, b, r),
        Prim::ArgAddr => misc::arg_addr_prim_outcome(a, b, r),
        Prim::Rnd => misc::rnd_prim_outcome(a, b, r),
        Prim::Randomize => misc::randomize_prim_outcome(a, b, r),
        Prim::Hour => misc::hour_prim_outcome(a, b, r),
        Prim::Minute => misc::minute_prim_outcome(a, b, r),
        Prim::If => control::if_prim_outcome(a, b, r),
        Prim::Elsif => control::elsif_prim_outcome(a, b, r),
        Prim::Else => control::else_prim_outcome(a, b, r),
        Prim::Endif => control::endif_prim_outcome(a, b, r),
        Prim::While => control::while_prim_outcome(a, b, r),
        Prim::Endwh => control::endwh_prim_outcome(a, b, r),
        Prim::Select => control::select_prim_outcome(a, b, r),
        Prim::Case => control::case_prim_outcome(a, b, r),
        Prim::CaseElse => control::case_else_prim_outcome(a, b, r),
        Prim::Endsel => control::endsel_prim_outcome(a, b, r),
        Prim::Let => control::let_prim_outcome(a, b, r),
        Prim::AssertFail => r == Err::<(), TbxError>(TbxError::AssertionFailed) && b == a,
        Prim::Dim => dim_outcome(a, b, depth, r),
    }
}

/// Execute primitive `p`. Primitives never touch the return stack or the
/// frame base pointer.
pub fn dispatch(vm: &mut VM, p: Prim, depth: u32) -> (r: Result<(), TbxError>)
    requires
        old(vm).wf(),
    ensures
        final(vm).wf(),
        final(vm).return_stack@ == old(vm).return_stack@,
        final(vm).bp == old(vm).bp,
        prim_effect(p, *old(vm), *final(vm), r, depth),
    decreases depth, 1nat,
{
    match p {
        Prim::Drop => stack::drop_prim(vm),
        Prim::Dup => stack::dup_prim(vm),
        Prim::Swap => stack::swap_prim(vm),
        Prim::Fetch => stack::fetch_prim(vm),
        Prim::Store => stack::store_prim(vm),
        Prim::SetValue => stack::set_prim(vm),
        Prim::Add => arith::binop_prim(vm, BinOp::Add),
        Prim::Sub => arith::binop_prim(vm, BinOp::Sub),
        Prim::Mul => arith::binop_prim(vm, BinOp::Mul),
        Prim::Div => arith::binop_prim(vm, BinOp::Div),
        Prim::Mod => arith::binop_prim(vm, BinOp::Mod),
        Prim::Negate => arith::negate_prim(vm),
        Prim::IntConv => arith::int_prim(vm),
        Prim::Eq => arith::binop_prim(vm, BinOp::Eq),
        Prim::Neq => arith::binop_prim(vm, BinOp::Neq),
        Prim::Lt => arith::binop_prim(vm, BinOp::Lt),
        Prim::Gt => arith::binop_prim(vm, BinOp::Gt),
        Prim::Le => arith::binop_prim(vm, BinOp::Le),
        Prim::Ge => arith::binop_prim(vm, BinOp::Ge),
        Prim::And => arith::binop_prim(vm, BinOp::And),
        Prim::Or => arith::binop_prim(vm, BinOp::Or),
        Prim::Not => arith::not_prim(vm),
        Prim::Band => arith::binop_prim(vm, BinOp::Band),
        Prim::Bor => arith::binop_prim(vm, BinOp::Bor),
        Prim::PutStr => textio::output_prim(vm, OutOp::Str),
        Prim::GetOutput => textio::get_output_prim(vm),
        Prim::Str => textio::str_unary_prim(vm, StrUnary::ToStr),
        Prim::StrConcat => textio::str_concat_prim(vm),
        Prim::StrLen => textio::str_unary_prim(vm, StrUnary::Len),
        Prim::StrEq => textio::str_eq_prim(vm),
        Prim::StrUpper => textio::str_unary_prim(vm, StrUnary::Upper),
        Prim::StrLower => textio::str_unary_prim(vm, StrUnary::Lower),
        Prim::StrTrim => textio::str_unary_prim(vm, StrUnary::Trim),
        Prim::PutChr => textio::output_prim(vm, OutOp::Chr),
        Prim::PutDec => textio::output_prim(vm, OutOp::Dec),
        Prim::PutHex => textio::output_prim(vm, OutOp::Hex),
        Prim::PutVal => textio::output_prim(vm, OutOp::Val),
        Prim::GetDec => textio::getdec_prim(vm),
        Prim::GetStr => textio::getstr_prim(vm),
        Prim::Append => misc::append_prim(vm),
        Prim::Allot => misc::allot_prim(vm),
        Prim::Here => misc::here_prim(vm),
        Prim::State => misc::state_prim(vm),
        Prim::Halt => misc::halt_prim(vm),
        Prim::AssertFail => misc::assert_fail_prim(vm),
        Prim::AssertFailMsg => misc::assert_fail_msg_prim(vm),
        Prim::LitMarker => misc::lit_marker_prim(vm),
        Prim::Literal => misc::literal_prim(vm),
        Prim::Header => misc::header_prim(vm),
        Prim::Immediate => misc::immediate_prim(vm),
        Prim::Def => compile::def_prim(vm),
        Prim::End => compile::end_prim(vm),
        Prim::Var => compile::var_prim(vm),
        Prim::Dim => dim_prim(vm, depth),
        Prim::GotoCompile => compile::goto_prim(vm),
        Prim::BifCompile => compile::bif_prim(vm),
        Prim::BitCompile => compile::bit_prim(vm),
        Prim::ReturnCompile => compile::return_prim(vm),
        Prim::CsPush => cstack::cs_push_prim(vm),
        Prim::CsPop => cstack::cs_pop_prim(vm),
        Prim::CsSwap => cstack::cs_swap_prim(vm),
        Prim::CsDrop => cstack::cs_drop_prim(vm),
        Prim::CsDup => cstack::cs_dup_prim(vm),
        Prim::CsOver => cstack::cs_over_prim(vm),
        Prim::CsRot => cstack::cs_rot_prim(vm),
        Prim::PatchAddr => cstack::patch_addr_prim(vm),
        Prim::CompileExpr => compile::compile_expr_prim(vm),
        Prim::CsOpenTag => cstack::cs_open_tag_prim(vm),
        Prim::CsCloseTag => cstack::cs_close_tag_prim(vm),
        Prim::Use => compile::use_prim(vm),
        Prim::CompileLvalue => compile::compile_lvalue_prim(vm),
        Prim::SkipEq => compile::skip_eq_prim(vm),
        Prim::Lookup => misc::lookup_prim(vm),
        Prim::SkipComma => compile::skip_comma_prim(vm),
        Prim::CompileLvalueSave => compile::compile_lvalue_save_prim(vm),
        Prim::Array => arrays::array_prim(vm),
        Prim::ArrayStoreLocal => stack::array_store_local_prim(vm),
        Prim::ArrayLen => arrays::array_len_prim(vm),
        Prim::ArrayGet => arrays::array_get_prim(vm),
        Prim::ArrayAddr => arrays::array_addr_prim(vm),
        Prim::VaCount => misc::va_count_prim(vm),
        Prim::ArgAddr => misc::arg_addr_prim(vm),
        Prim::Rnd => misc::rnd_prim(vm),
        Prim::Randomize => misc::randomize_prim(vm),
        Prim::Hour => misc::hour_prim(vm),
        Prim::Minute => misc::minute_prim(vm),
        Prim::If => control::if_prim(vm),
        Prim::Elsif => control::elsif_prim(vm),
        Prim::Else => control::else_prim(vm),
        Prim::Endif => control::endif_prim(vm),
        Prim::While => control::while_prim(vm),
        Prim::Endwh => control::endwh_prim(vm),
        Prim::Select => control::select_prim(vm),
        Prim::Case => control::case_prim(vm),
        Prim::CaseElse => control::case_else_prim(vm),
        Prim::Endsel => control::endsel_prim(vm),
        Prim::Let => control::let_prim(vm),
    }
}

/// The parse of `@A[size]` after DIM from the token stream `s`: the error
/// for a malformed declaration, else the name (upper-cased), the size
/// tokens and the tokens after the closing `]`.
pub open spec fn dim_syntax(s: Option<Seq<SpannedToken>>) -> Result<
    (Seq<char>, Seq<SpannedToken>, Seq<SpannedToken>),
    TbxError,
> {
    match s {
        None => Err(TbxError::TokenStreamEmpty),
        Some(q) => if q.len() == 0 {
            Err(TbxError::TokenStreamEmpty)
        } else if !(q[0].token is At) {
            Err(TbxError::InvalidExpression { reason: "DIM: expected '@' after DIM" })
        } else if q.len() == 1 {
            Err(TbxError::TokenStreamEmpty)
        } else {
            match q[1].token {
                Token::Ident(id) => if q.len() == 2 || !(q[2].token is LBracket) {
                    Err(TbxError::InvalidExpression { reason: "DIM: expected '[' after identifier (use DIM @A[n] syntax)" })
                } else {
                    let rest = q.skip(3);
                    let k = compile::bracket_stop(rest, 0, 1);
                    if k >= rest.len() {
                        Err(TbxError::InvalidExpression { reason: "DIM: unterminated '[' — expected ']'" })
                    } else if !(rest[k].token is RBracket) {
                        Err(TbxError::InvalidExpression { reason: "DIM: unterminated '[' — unexpected end of line" })
                    } else if k == 0 {
                        Err(TbxError::InvalidExpression { reason: "DIM: array size expression must not be empty" })
                    } else {
                        Ok((upper_seq(id@), rest.take(k), rest.skip(k + 1)))
                    }
                },
                _ => Err(TbxError::InvalidExpression { reason: "DIM: expected identifier after '@'" }),
            }
        },
    }
}

/// The code DIM emits inside a definition: `LIT slot`, the size code,
/// `ARRAY SET`.
pub open spec fn dim_local_code(a: VM, slot: int, size_code: Seq<Cell>) -> Seq<Cell> {
    seq![compile::kind_xt(a, SysKind::Lit), Cell::StackAddr(slot as usize)] + size_code + seq![
        Cell::Xt(Xt(lookup_in(a.headers@, a.headers@.len() as int, "ARRAY"@, None, true).unwrap())),
        Cell::Xt(Xt(lookup_in(a.headers@, a.headers@.len() as int, "SET"@, None, false).unwrap())),
    ]
}

/// What DIM does inside a definition, for the declared `name`: a name that
/// is already a local or a visible word is refused; on success the name
/// becomes the next local and the code `LIT slot <size code> ARRAY
/// SET` is emitted.
pub open spec fn dim_local_outcome(a: VM, b: VM, name: Seq<char>, r: Result<(), TbxError>) -> bool {
    match a.compile_state {
        None => true,
        Some(st) => if local_lookup(st.local_table@, name) is Some {
            r == Err::<(), TbxError>(
                TbxError::InvalidExpression { reason: "DIM: array binding name already declared as a local" },
            ) && crate::vm::only_tokens_changed(a, b)
        } else if lookup_in(a.headers@, a.headers@.len() as int, name, None, false) is Some {
            r == Err::<(), TbxError>(
                TbxError::InvalidExpression { reason: "DIM: array binding name already declared as a global" },
            ) && crate::vm::only_tokens_changed(a, b)
        } else {
            r is Ok ==> (b.compile_state matches Some(st2) && st2.local_table@ == st.local_table@.push(
                st2.local_table@.last(),
            ) && st2.local_table@.last().0@ == name && st2.local_table@.last().1 == compile::next_local_slot(st)
                && st2.local_count == st.local_count + 1 && b.headers@ == a.headers@ && b.data_stack@
                == a.data_stack@ && b.arrays@ == a.arrays@ && (exists|cells: Seq<Cell>|
                #[trigger] compile::emitted(a, b, dim_local_code(a, compile::next_local_slot(st), cells))))
        },
    }
}

/// What DIM does inside a definition when the size is a flat expression:
/// the code it emits is `LIT slot`, the size's reverse Polish code and
/// `ARRAY SET`, and it succeeds when the name is free, the
/// words it uses are registered and the dictionary has room.
pub open spec fn dim_local_flat(a: VM, b: VM, r: Result<(), TbxError>) -> bool {
    match (dim_syntax(stream(a)), a.compile_state) {
        (Ok((name, size, _rest)), Some(st)) => crate::expr::flat_arith(size) ==> {
            let code = dim_local_code(a, compile::next_local_slot(st), crate::expr::flat_code(a, size));
            &&& r is Ok ==> compile::emitted(a, b, code)
            &&& (local_lookup(st.local_table@, name) is None && lookup_in(
                a.headers@,
                a.headers@.len() as int,
                name,
                None,
                false,
            ) is None && compile::next_local_slot(st) < usize::MAX && crate::expr::flat_words_ok(a, size)
                && crate::vm::find_kind_in(a.headers@, a.headers@.len() as int, SysKind::Lit) is Some && lookup_in(
                a.headers@,
                a.headers@.len() as int,
                "ARRAY"@,
                None,
                true,
            ) is Some && lookup_in(a.headers@, a.headers@.len() as int, "SET"@, None, false) is Some
                && a.dp + code.len() <= MAX_DICTIONARY_CELLS) ==> r is Ok
        },
        _ => true,
    }
}

/// What DIM does at the top level, for the declared `name`: a name that is
/// already a visible word is refused; on success the newest word is a
/// variable `name` whose storage holds the handle of the newest array, a
/// fresh array of between 1 and `MAX_ARRAY_ELEMENTS` `Nil` elements.
pub open spec fn dim_global_outcome(a: VM, b: VM, name: Seq<char>, r: Result<(), TbxError>) -> bool {
    if lookup_in(a.headers@, a.headers@.len() as int, name, None, false) is Some {
        r == Err::<(), TbxError>(
            TbxError::InvalidExpression { reason: "DIM: array binding name already declared as a global" },
        ) && crate::vm::only_tokens_changed(a, b)
    } else {
        r is Ok ==> (b.headers@.len() > 0 && b.headers@.last().name@ == name && b.headers@.last().flags == 0
            && b.latest == Some(
            Xt((b.headers@.len() - 1) as usize),
        ) && (b.headers@.last().kind matches EntryKind::Variable(addr) && addr < b.dictionary@.len()
            && b.dictionary@[addr as int] == Cell::Array((b.arrays@.len() - 1) as usize)) && b.arrays@.len() > 0
            && 1 <= b.arrays@.last().len() <= MAX_ARRAY_ELEMENTS && (forall|i: int|
            0 <= i < b.arrays@.last().len() ==> #[trigger] b.arrays@.last()[i] == Cell::Nil))
    }
}

/// What DIM does at the top level with a literal size, `DIM @A[n]`, when
/// `A` is a new name, LIT and EXIT are the machine's own words and the
/// stacks and the dictionary have room: the size is `n`; a size below 1 or
/// above the element limit is refused, else `A` becomes the newest word, a
/// variable holding the handle of a fresh array of `n` `Nil` elements, and
/// the data stack is as it was.
pub open spec fn dim_literal_outcome(a: VM, b: VM, depth: u32, r: Result<(), TbxError>) -> bool {
    match dim_syntax(stream(a)) {
        Ok((name, size, _rest)) => (!a.is_compiling && size.len() == 1 && size[0].token is IntLit && (lookup_in(
            a.headers@,
            a.headers@.len() as int,
            "LIT"@,
            None,
            false,
        ) matches Some(l) && a.headers@[l as int].kind is Lit) && crate::vm::find_kind_in(
            a.headers@,
            a.headers@.len() as int,
            SysKind::Exit,
        ) is Some && lookup_in(a.headers@, a.headers@.len() as int, name, None, false) is None && a.dp + 3
            <= MAX_DICTIONARY_CELLS && a.data_stack@.len() < MAX_DATA_STACK_DEPTH && a.return_stack@.len()
            < MAX_RETURN_STACK_DEPTH && depth > 0) ==> {
            let n = size[0].token->IntLit_0;
            &&& n <= 0 ==> (r matches Err(TbxError::InvalidArgument { message: m })
                && m@ == "DIM: array size must be positive, got "@ + crate::text::int_decimal(n as int))
            &&& n > MAX_ARRAY_ELEMENTS ==> r == Err::<(), TbxError>(
                TbxError::InvalidOperand {
                    name: "size",
                    value: n,
                    reason: "array size must be between 1 and the element limit",
                },
            )
            &&& (1 <= n <= MAX_ARRAY_ELEMENTS && a.headers@.len() < crate::vm::MAX_HEADERS) ==> {
                &&& r is Ok
                &&& b.dp == a.dp + 1
                &&& b.dictionary@[a.dp as int] == Cell::Array(a.arrays@.len() as usize)
                &&& b.arrays@.drop_last() == a.arrays@
                &&& b.arrays@.last()@ == Seq::new(n as nat, |i: int| Cell::Nil)
                &&& b.headers@.drop_last() == a.headers@
                &&& b.headers@.last().name@ == name
                &&& b.headers@.last().kind == EntryKind::Variable(a.dp)
                &&& b.headers@.last().flags == 0
                &&& b.latest == Some(Xt(a.headers@.len() as usize))
                &&& b.data_stack@ == a.data_stack@
            }
        },
        Err(_) => true,
    }
}

/// The most recent header of a kind has that kind.
proof fn lemma_find_kind_in(h: Seq<WordEntry>, n: int, k: SysKind)
    requires
        n <= h.len() <= usize::MAX,
    ensures
        find_kind_in_ok(h, n, k),
    decreases n,
{
    if n > 0 {
        if crate::vm::kind_is(h[n - 1].kind, k) {
            assert(crate::vm::find_kind_in(h, n, k) == Some((n - 1) as usize));
        } else {
            lemma_find_kind_in(h, n - 1, k);
            assert(crate::vm::find_kind_in(h, n, k) == crate::vm::find_kind_in(h, n - 1, k));
        }
    }
}

/// `find_kind_in` gives an index below `n` whose header has the kind.
pub open spec fn find_kind_in_ok(h: Seq<WordEntry>, n: int, k: SysKind) -> bool {
    crate::vm::find_kind_in(h, n, k) matches Some(i) ==> 0 <= i < n && crate::vm::kind_is(h[i as int].kind, k)
}

/// DIM of a new global name whose size code ran: `v2` holds, at the
/// dictionary pointer of `a`, the code of the size ended by EXIT, with the
/// stacks and headers of `a`; the inner interpreter ran it (`run_trace`,
/// `run_end`). A failed run is the result of DIM; a run that left no value
/// is a stack underflow; a run that left a value declares the array from
/// that value (`dim_alloc_outcome`: a size below 1 is `InvalidArgument`, one
/// that is no integer a `TypeError`, and on those errors nothing more
/// changes), from the machine the run left with the value taken off.
pub open spec fn dim_ran_size(a: VM, b: VM, depth: u32, name: Seq<char>, r: Result<(), TbxError>) -> bool {
    exists|v2: VM, v3: VM, t: Seq<VM>, pcs: Seq<usize>, r0: Result<(), TbxError>|
        #![trigger run_trace(v2, a.dp, (depth - 1) as u32, t, pcs), run_end(t.last(), pcs.last(), v3, r0, (depth - 1) as u32, t.len())]
        {
            &&& depth > 0
            &&& v2.dp > a.dp && v2.dp <= v2.dictionary@.len()
            &&& v2.dictionary@[v2.dp - 1] == compile::kind_xt(a, SysKind::Exit)
            &&& v2.data_stack@ == a.data_stack@ && v2.return_stack@ == a.return_stack@ && v2.bp == a.bp
            &&& v2.headers@ == a.headers@
            &&& run_trace(v2, a.dp, (depth - 1) as u32, t, pcs)
            &&& run_end(t.last(), pcs.last(), v3, r0, (depth - 1) as u32, t.len())
            &&& r0 is Err ==> r == r0
            &&& r0 is Ok && v3.data_stack@.len() == 0 ==> r == Err::<(), TbxError>(TbxError::StackUnderflow)
            &&& r0 is Ok && v3.data_stack@.len() > 0 ==> exists|m: VM|
                #[trigger] dim_alloc_outcome(m, b, name, v3.data_stack@.last(), r) && m.data_stack@
                    == v3.data_stack@.drop_last() && m.headers@ == v3.headers@ && m.arrays@ == v3.arrays@
                    && m.output_buffer@ == v3.output_buffer@
        }
}

/// DIM failed before its size code ran (the size did not compile, the
/// dictionary had no room for it, or no call depth was left): the data
/// stack, headers, arrays, dictionary pointer and output are as they were.
pub open spec fn dim_size_not_run(a: VM, b: VM, r: Result<(), TbxError>) -> bool {
    &&& r is Err
    &&& b.data_stack@ == a.data_stack@
    &&& b.headers@ == a.headers@
    &&& b.arrays@ == a.arrays@
    &&& b.dp == a.dp
    &&& b.output_buffer@ == a.output_buffer@
}

/// What DIM does, from `a` to `b` with the result `r` (see `dim_prim`).
pub open spec fn dim_outcome(a: VM, b: VM, depth: u32, r: Result<(), TbxError>) -> bool {
    &&& b.return_stack@ == a.return_stack@
    &&& b.bp == a.bp
    &&& dim_syntax(stream(a)) matches Err(e) ==> r == Err::<(), TbxError>(e) && crate::vm::only_tokens_changed(a, b)
    &&& dim_syntax(stream(a)) matches Ok((name, size, rest)) ==> if a.is_compiling {
        dim_local_outcome(a, b, name, r) && (r is Ok ==> stream(b) == Some(rest))
    } else {
        dim_global_outcome(a, b, name, r)
    }
    &&& a.is_compiling ==> dim_local_flat(a, b, r)
    &&& dim_literal_outcome(a, b, depth, r)
}

/// DIM @A[n]: declare an array of `n` elements: a local (created when the
/// word runs) inside a definition, else a global variable whose size is
/// evaluated now.
#[verifier::rlimit(80)]
#[verifier::spinoff_prover]
pub fn dim_prim(vm: &mut VM, depth: u32) -> (r: Result<(), TbxError>)
    requires
        old(vm).wf(),
    ensures
        final(vm).wf(),
        final(vm).return_stack@ == old(vm).return_stack@,
        final(vm).bp == old(vm).bp,
        dim_syntax(stream(*old(vm))) matches Err(e) ==> r == Err::<(), TbxError>(e) && crate::vm::only_tokens_changed(
            *old(vm),
            *final(vm),
        ),
        dim_syntax(stream(*old(vm))) matches Ok((name, size, rest)) ==> if old(vm).is_compiling {
            dim_local_outcome(*old(vm), *final(vm), name, r) && (r is Ok ==> stream(*final(vm)) == Some(rest))
        } else {
            dim_global_outcome(*old(vm), *final(vm), name, r)
        },
        old(vm).is_compiling ==> dim_local_flat(*old(vm), *final(vm), r),
        dim_literal_outcome(*old(vm), *final(vm), depth, r),
        dim_syntax(stream(*old(vm))) matches Ok((name, size, rest)) ==> (!old(vm).is_compiling && lookup_in(
            old(vm).headers@,
            old(vm).headers@.len() as int,
            name,
            None,
            false,
        ) is None ==> dim_ran_size(*old(vm), *final(vm), depth, name, r) || dim_size_not_run(*old(vm), *final(vm), r)),
    decreases depth, 0nat,
{
    let at = vm.next_token()?;
    if !matches!(at.token, Token::At) {
        return Err(TbxError::InvalidExpression { reason: "DIM: expected '@' after DIM" });
    }
    let name = vm.expect_ident("DIM: expected identifier after '@'")?;
    let lb = match vm.next_token() {
        Ok(t) => t,
        Err(TbxError::TokenStreamEmpty) => {
            return Err(
                TbxError::InvalidExpression { reason: "DIM: expected '[' after identifier (use DIM @A[n] syntax)" },
            );
        },
        Err(e) => {
            return Err(e);
        },
    };
    if !matches!(lb.token, Token::LBracket) {
        return Err(TbxError::InvalidExpression { reason: "DIM: expected '[' after identifier (use DIM @A[n] syntax)" });
    }
    proof {
        let q = stream(*old(vm)).unwrap();
        assert(q.drop_first().drop_first().drop_first() =~= q.skip(3));
        compile::lemma_bracket_stop_range(q.skip(3), 0, 1);
    }
    let size_toks = compile::take_bracketed(
        vm,
        "DIM: unterminated '[' — expected ']'",
        "DIM: unterminated '[' — unexpected end of line",
    )?;
    if size_toks.len() == 0 {
        return Err(TbxError::InvalidExpression { reason: "DIM: array size expression must not be empty" });
    }
    if vm.is_compiling {
        let has_local = match &vm.compile_state {
            Some(st) => crate::expr::table_get(&st.local_table, &name).is_some(),
            None => false,
        };
        if has_local {
            return Err(TbxError::InvalidExpression { reason: "DIM: array binding name already declared as a local" });
        }
        if vm.lookup(name.as_str()).is_some() {
            return Err(TbxError::InvalidExpression { reason: "DIM: array binding name already declared as a global" });
        }
        let ghost name_s = name@;
        let idx = compile::add_local(vm, name, "DIM: array binding name already declared as a local")?;
        proof {
            crate::expr::lemma_flat_code_headers(*old(vm), *vm, size_toks@);
        }
        let (cells, offs) = compile::compile_tokens(vm, size_toks.as_slice())?;
        let ghost size_code = cells@;
        let array_xt = match vm.lookup_hidden_system("ARRAY") {
            Some(x) => x,
            None => {
                return Err(TbxError::UndefinedSymbol { name: "ARRAY".to_owned() });
            },
        };
        let store_xt = match vm.lookup("SET") {
            Some(x) => x,
            None => {
                return Err(TbxError::UndefinedSymbol { name: "SET".to_owned() });
            },
        };
        let ghost v0 = *vm;
        compile::emit_kind(vm, SysKind::Lit, "LIT")?;
        let ghost v1 = *vm;
        vm.dict_write(Cell::StackAddr(idx))?;
        let ghost v2 = *vm;
        compile::emit_cells(vm, cells, offs)?;
        let ghost v3 = *vm;
        vm.dict_write(Cell::Xt(array_xt))?;
        let ghost v4 = *vm;
        vm.dict_write(Cell::Xt(store_xt))?;
        proof {
            let lit = compile::kind_xt(v0, SysKind::Lit);
            compile::lemma_emitted_write(v0, v1, lit);
            compile::lemma_emitted_write(v1, v2, Cell::StackAddr(idx));
            compile::lemma_emitted_write(v3, v4, Cell::Xt(array_xt));
            compile::lemma_emitted_write(v4, *vm, Cell::Xt(store_xt));
            compile::lemma_emitted_trans(v0, v1, v2, seq![lit], seq![Cell::StackAddr(idx)]);
            compile::lemma_emitted_trans(v0, v2, v3, seq![lit] + seq![Cell::StackAddr(idx)], size_code);
            compile::lemma_emitted_trans(
                v0,
                v3,
                v4,
                seq![lit] + seq![Cell::StackAddr(idx)] + size_code,
                seq![Cell::Xt(array_xt)],
            );
            compile::lemma_emitted_trans(
                v0,
                v4,
                *vm,
                seq![lit] + seq![Cell::StackAddr(idx)] + size_code + seq![Cell::Xt(array_xt)],
                seq![Cell::Xt(store_xt)],
            );
            let st = old(vm).compile_state.unwrap();
            assert(seq![lit] + seq![Cell::StackAddr(idx)] + size_code + seq![Cell::Xt(array_xt)] + seq![
                Cell::Xt(store_xt),
            ] =~= dim_local_code(*old(vm), compile::next_local_slot(st), size_code));
            assert(compile::emitted(*old(vm), *vm, dim_local_code(*old(vm), compile::next_local_slot(st), size_code)));
            assert(dim_local_outcome(*old(vm), *vm, name_s, Ok(())));
        }
        Ok(())
    } else {
        if vm.lookup(name.as_str()).is_some() {
            return Err(TbxError::InvalidExpression { reason: "DIM: array binding name already declared as a global" });
        }
        let ghost vt = *vm;
        proof {
            crate::expr::lemma_flat_code_headers(*old(vm), vt, size_toks@);
            lemma_find_kind_in(vt.headers@, vt.headers@.len() as int, SysKind::Exit);
            if size_toks@.len() == 1 && size_toks@[0].token is IntLit {
                assert(crate::expr::flat_at(size_toks@, 0));
                assert(crate::expr::flat_arith(size_toks@));
                let n = size_toks@[0].token->IntLit_0;
                let e = Seq::<crate::expr::OpItem>::empty();
                let lit = crate::expr::name_xt(vt, "LIT"@);
                assert(crate::expr::flat_step(vt, size_toks@[0].token, e, Seq::empty()) == (e, seq![lit, Cell::Int(n)]));
                assert(crate::expr::flat_run(vt, size_toks@, 1, e, seq![lit, Cell::Int(n)]) == (e, seq![lit, Cell::Int(n)]));
                assert(crate::expr::popped_code(vt, e, 0) =~= Seq::<Cell>::empty());
                assert(crate::expr::flat_code(vt, size_toks@) =~= seq![lit, Cell::Int(n)]);
            }
        }
        let (cells, _offs) = compile::compile_tokens(vm, size_toks.as_slice())?;
        let ghost cells_g = cells@;
        let buf_start = vm.dp;
        let saved_stack = vm.data_stack.len();
        let saved_rs = vm.return_stack.len();
        let saved_pc = vm.pc;
        let saved_bp = vm.bp;
        let ghost rs0 = vm.return_stack@;
        let mut wrote = compile::emit_cells(vm, cells, Vec::new());
        let ghost ve = *vm;
        if wrote.is_ok() {
            wrote = compile::emit_kind(vm, SysKind::Exit, "EXIT");
        }
        let ghost vw = *vm;
        proof {
            crate::vm::lemma_lookup_in_bounds(vt.headers@, vt.headers@.len() as int, "LIT"@, None, false);
            if size_toks@.len() == 1 && size_toks@[0].token is IntLit && wrote.is_ok() && (lookup_in(
                vt.headers@,
                vt.headers@.len() as int,
                "LIT"@,
                None,
                false,
            ) matches Some(l) && vt.headers@[l as int].kind is Lit) {
                let n = size_toks@[0].token->IntLit_0;
                let l = lookup_in(vt.headers@, vt.headers@.len() as int, "LIT"@, None, false).unwrap();
                let ex = crate::vm::find_kind_in(vt.headers@, vt.headers@.len() as int, SysKind::Exit).unwrap();
                assert(crate::expr::flat_arith(size_toks@));
                assert(cells_g == seq![crate::expr::name_xt(vt, "LIT"@), Cell::Int(n)]);
                assert(crate::expr::name_xt(vt, "LIT"@) == Cell::Xt(Xt(l)));
                assert(ve.dictionary@[buf_start + 0] == cells_g[0]);
                assert(ve.dictionary@[buf_start + 1] == cells_g[1]);
                assert(vw.dictionary@[buf_start as int] == ve.dictionary@[buf_start as int]);
                assert(vw.dictionary@[buf_start as int] == Cell::Xt(Xt(l)));
                assert(vw.dictionary@[buf_start + 1] == Cell::Int(n));
                assert(vw.dictionary@[buf_start + 2] == Cell::Xt(Xt(ex)));
                assert(lit_run(vw, buf_start + 2) == Some(Seq::<Cell>::empty()));
                assert(lit_run(vw, buf_start as int) =~= Some(seq![Cell::Int(n)]));
            }
        }
        let run_result = if wrote.is_ok() {
            if depth == 0 {
                Err(TbxError::ReturnStackOverflow { depth: vm.return_stack.len(), limit: MAX_RETURN_STACK_DEPTH })
            } else {
                run(vm, buf_start, depth - 1)
            }
        } else {
            wrote
        };
        let ghost vr = *vm;
        let ghost litc = size_toks@.len() == 1 && size_toks@[0].token is IntLit && (lookup_in(
            vt.headers@,
            vt.headers@.len() as int,
            "LIT"@,
            None,
            false,
        ) matches Some(l) && vt.headers@[l as int].kind is Lit) && crate::vm::find_kind_in(
            vt.headers@,
            vt.headers@.len() as int,
            SysKind::Exit,
        ) is Some && vt.dp + 3 <= MAX_DICTIONARY_CELLS && vt.data_stack@.len() < MAX_DATA_STACK_DEPTH
            && vt.return_stack@.len() < MAX_RETURN_STACK_DEPTH && depth > 0;
        proof {
            if litc {
                let n = size_toks@[0].token->IntLit_0;
                assert(wrote.is_ok());
                assert(run_result.is_ok());
                assert(vr.data_stack@ == vt.data_stack@.push(Cell::Int(n)));
            }
        }
        let ghost ran = wrote.is_ok() && depth > 0 && vw.return_stack@.len() < MAX_RETURN_STACK_DEPTH;
        let ghost (tr, pcs) = choose|t: Seq<VM>, pcs: Seq<usize>|
            run_trace(vw, buf_start, (depth - 1) as u32, t, pcs) && run_end(t.last(), pcs.last(), vr, run_result, (depth - 1) as u32, t.len());
        proof {
            assert(vt.dp == old(vm).dp);
            assert(vt.data_stack@ == old(vm).data_stack@);
            assert(vt.headers@ == old(vm).headers@);
            if ran {
                assert(run_trace(vw, old(vm).dp, (depth - 1) as u32, tr, pcs));
                assert(vw.dp > old(vm).dp);
                assert(vw.dictionary@[vw.dp - 1] == compile::kind_xt(*old(vm), SysKind::Exit));
            } else {
                assert(vr.data_stack@ == old(vm).data_stack@);
            }
        }
        cut_dictionary(vm, buf_start);
        if run_result.is_err() {
            vm.data_stack.truncate(saved_stack);
            vm.return_stack.truncate(saved_rs);
            vm.pc = saved_pc;
            vm.bp = saved_bp;
            proof {
                if ran {
                    assert(dim_ran_size(*old(vm), *vm, depth, name@, run_result));
                } else {
                    assert(vm.data_stack@ == old(vm).data_stack@);
                    assert(vm.headers@ == old(vm).headers@);
                    assert(vm.arrays@ == old(vm).arrays@);
                    assert(vm.dp == old(vm).dp);
                    assert(vm.output_buffer@ == old(vm).output_buffer@);
                    assert(dim_size_not_run(*old(vm), *vm, run_result));
                }
            }
            return run_result;
        }
        vm.pc = saved_pc;
        vm.bp = saved_bp;
        let ghost vp = *vm;
        let size_val = match vm.pop() {
            Ok(v) => v,
            Err(e) => {
                proof {
                    if ran {
                        assert(dim_ran_size(*old(vm), *vm, depth, name@, Err::<(), TbxError>(e)));
                    }
                }
                return Err(e);
            },
        };
        let ghost vm_m = *vm;
        proof {
            if litc {
                let n = size_toks@[0].token->IntLit_0;
                assert(size_val == Cell::Int(n));
                assert(vm.data_stack@ == vt.data_stack@);
                assert(vm.dp == vt.dp);
                assert(vm.headers@ == vt.headers@);
                assert(vm.arrays@ == vt.arrays@);
            }
        }
        let ghost name_s = name@;
        let res = dim_global_alloc(vm, name, size_val);
        proof {
            if ran {
                assert(dim_alloc_outcome(vm_m, *vm, name_s, vr.data_stack@.last(), res));
                assert(dim_ran_size(*old(vm), *vm, depth, name_s, res));
            }
        }
        res
    }
}

/// What DIM does at the top level once the size expression has given
/// `size`: a size that is no integer, not positive or over the element
/// limit is refused, as is a full dictionary or header table, and nothing
/// changes; else the variable `name` is declared at the dictionary pointer,
/// holding the handle of a new array of `size` `Nil` elements.
pub open spec fn dim_alloc_outcome(a: VM, b: VM, name: Seq<char>, size: Cell, r: Result<(), TbxError>) -> bool {
    match size {
        Cell::Int(n) => if n <= 0 {
            (r matches Err(TbxError::InvalidArgument { message: m }) && m@ == "DIM: array size must be positive, got "@
                + crate::text::int_decimal(n as int)) && b == a
        } else if n > MAX_ARRAY_ELEMENTS {
            r == Err::<(), TbxError>(
                TbxError::InvalidOperand {
                    name: "size",
                    value: n,
                    reason: "array size must be between 1 and the element limit",
                },
            ) && b == a
        } else if a.dp >= MAX_DICTIONARY_CELLS || a.headers@.len() >= MAX_HEADERS {
            r matches Err(TbxError::DictionaryOverflow { .. }) && b == a
        } else {
            &&& r is Ok
            &&& b.dp == a.dp + 1
            &&& b.dictionary@ == crate::vm::dict_after_write(a.dictionary@, a.dp as int, Cell::Array(a.arrays@.len() as usize))
            &&& b.arrays@.len() == a.arrays@.len() + 1
            &&& b.arrays@.drop_last() == a.arrays@
            &&& b.arrays@.last()@ == Seq::new(n as nat, |i: int| Cell::Nil)
            &&& b.headers@.len() == a.headers@.len() + 1
            &&& b.headers@.drop_last() == a.headers@
            &&& b.headers@.last().name@ == name
            &&& b.headers@.last().kind == EntryKind::Variable(a.dp)
            &&& b.headers@.last().flags == 0
            &&& b.latest == Some(Xt(a.headers@.len() as usize))
            &&& b.data_stack@ == a.data_stack@
            &&& crate::vm::eq_control(a, b) && crate::vm::eq_compile(a, b) && crate::vm::eq_io(a, b)
            &&& b.token_stream == a.token_stream
        },
        c => r == Err::<(), TbxError>(TbxError::TypeError { expected: "Int", got: variant_name_of(c) }) && b == a,
    }
}

/// Declare the global array `name` of the evaluated size `size_val`.
pub fn dim_global_alloc(vm: &mut VM, name: String, size_val: Cell) -> (r: Result<(), TbxError>)
    requires
        old(vm).wf(),
    ensures
        final(vm).wf(),
        dim_alloc_outcome(*old(vm), *final(vm), name@, size_val, r),
{
    let size: usize = match size_val {
        Cell::Int(n) => {
            if n <= 0 {
                let mut m: Vec<char> = Vec::new();
                crate::error::push_str(&mut m, "DIM: array size must be positive, got ");
                crate::text::push_i64_decimal(&mut m, n);
                return Err(TbxError::InvalidArgument { message: crate::text::chars_to_string(&m) });
            }
            if n > MAX_ARRAY_ELEMENTS as i64 {
                return Err(TbxError::InvalidOperand {
                    name: "size",
                    value: n,
                    reason: "array size must be between 1 and the element limit",
                });
            }
            n as usize
        },
        other => {
            return Err(TbxError::TypeError { expected: "Int", got: other.variant_name() });
        },
    };
    if vm.dp >= MAX_DICTIONARY_CELLS || vm.headers.len() >= MAX_HEADERS {
        return Err(TbxError::DictionaryOverflow { requested: vm.dp + 1, limit: MAX_DICTIONARY_CELLS });
    }
    let storage = vm.dp;
    let pool = vm.arrays.len();
    let ghost a0 = vm.arrays@;
    vm.arrays.push(arrays::nil_array(size));
    vm.dict_write(Cell::Array(pool))?;
    let entry = WordEntry::new_variable(name.as_str(), storage);
    vm.register(entry)?;
    proof {
        assert(vm.arrays@.drop_last() =~= a0);
        assert(vm.arrays@.last()@ =~= Seq::new(size as nat, |i: int| Cell::Nil));
        assert(vm.headers@.len() == old(vm).headers@.len() + 1);
        assert(vm.headers@.drop_last() =~= old(vm).headers@);
        assert(vm.headers@.last().name@ == name@);
        assert(vm.headers@.last().kind == EntryKind::Variable(old(vm).dp));
        assert(vm.dictionary@ == crate::vm::dict_after_write(old(vm).dictionary@, old(vm).dp as int, Cell::Array(old(vm).arrays@.len() as usize)));
        assert(crate::vm::eq_control(*old(vm), *vm));
        assert(crate::vm::eq_compile(*old(vm), *vm));
        assert(crate::vm::eq_io(*old(vm), *vm));
    }
    Ok(())
}

/// Push a call frame for word `x` with `arity` arguments on the data stack
/// and `local_count` fresh locals; returns the body address.
fn enter_word(vm: &mut VM, x: Xt, arity: usize, local_count: usize, return_pc: usize) -> (r: Result<usize, TbxError>)
    requires
        old(vm).wf(),
        x.0 < old(vm).headers@.len(),
    ensures
        final(vm).wf(),
        r is Ok ==> final(vm).return_stack@ == old(vm).return_stack@.push(
            ReturnFrame::Call { return_pc, saved_bp: old(vm).bp, actual_arity: arity, word: x },
        ),
        r is Err ==> final(vm).return_stack@ == old(vm).return_stack@ || final(vm).return_stack@
            == old(vm).return_stack@.push(
            ReturnFrame::Call { return_pc, saved_bp: old(vm).bp, actual_arity: arity, word: x },
        ),
        r is Ok <==> (old(vm).headers@[x.0 as int].kind is Word && arity <= old(vm).data_stack@.len()
            && old(vm).return_stack@.len() < MAX_RETURN_STACK_DEPTH && old(vm).data_stack@.len() + local_count
            <= MAX_DATA_STACK_DEPTH),
        r matches Ok(b) ==> old(vm).headers@[x.0 as int].kind == EntryKind::Word(b) && final(vm).bp
            == old(vm).data_stack@.len() - arity && final(vm).data_stack@ == old(vm).data_stack@ + Seq::new(
            local_count as nat,
            |i: int| Cell::Nil,
        ) && final(vm).dictionary@ == old(vm).dictionary@ && final(vm).headers@ == old(vm).headers@,
        keeps(*old(vm), *final(vm)) && final(vm).pc == old(vm).pc,
{
    let body = match vm.headers[x.0].kind {
        EntryKind::Word(a) => a,
        _ => {
            return Err(TbxError::InvalidExpression { reason: "CALL target is not a compiled word" });
        },
    };
    if arity > vm.data_stack.len() {
        return Err(TbxError::StackUnderflow);
    }
    if vm.return_stack.len() >= MAX_RETURN_STACK_DEPTH {
        return Err(TbxError::ReturnStackOverflow { depth: vm.return_stack.len(), limit: MAX_RETURN_STACK_DEPTH });
    }
    vm.return_stack.push(ReturnFrame::Call { return_pc, saved_bp: vm.bp, actual_arity: arity, word: x });
    vm.bp = vm.data_stack.len() - arity;
    let mut k: usize = 0;
    while k < local_count
        invariant
            vm.wf(),
            vm.return_stack@ == old(vm).return_stack@.push(
                ReturnFrame::Call { return_pc, saved_bp: old(vm).bp, actual_arity: arity, word: x },
            ),
            k <= local_count,
            vm.bp == old(vm).data_stack@.len() - arity,
            vm.data_stack@ == old(vm).data_stack@ + Seq::new(k as nat, |i: int| Cell::Nil),
            vm.dictionary@ == old(vm).dictionary@,
            vm.headers@ == old(vm).headers@,
            keeps(*old(vm), *vm) && vm.pc == old(vm).pc,
        decreases local_count - k,
    {
        vm.push(Cell::Nil)?;
        assert(old(vm).data_stack@ + Seq::new((k + 1) as nat, |i: int| Cell::Nil) =~= (old(vm).data_stack@
            + Seq::new(k as nat, |i: int| Cell::Nil)).push(Cell::Nil));
        k = k + 1;
    }
    Ok(body)
}

/// Everything but the data stack and the control registers is the same.
pub open spec fn keeps(a: VM, b: VM) -> bool {
    crate::vm::eq_dictionary(a, b) && crate::vm::eq_headers(a, b) && crate::vm::eq_compile(a, b) && crate::vm::eq_io(
        a,
        b,
    ) && crate::vm::eq_rest(a, b)
}

/// The count operand at `pos` of dictionary `d`.
pub open spec fn operand_count_spec(d: Seq<Cell>, pos: usize) -> Result<usize, TbxError> {
    if pos >= d.len() {
        Err(TbxError::IndexOutOfBounds { index: pos, size: d.len() as usize })
    } else {
        match d[pos as int] {
            Cell::Int(n) => if n < 0 {
                Err(TbxError::InvalidOperand { name: "count", value: n, reason: "must be non-negative" })
            } else if n > usize::MAX {
                Err(TbxError::InvalidOperand { name: "count", value: n, reason: "too large" })
            } else {
                Ok(n as usize)
            },
            c => Err(TbxError::TypeError { expected: "Int", got: variant_name_of(c) }),
        }
    }
}

/// The jump-target operand at `pos` of dictionary `d`.
pub open spec fn operand_target_spec(d: Seq<Cell>, pos: usize) -> Result<usize, TbxError> {
    if pos >= d.len() {
        Err(TbxError::IndexOutOfBounds { index: pos, size: d.len() as usize })
    } else {
        match d[pos as int] {
            Cell::DictAddr(a) => Ok(a),
            Cell::Int(n) => if n < 0 || n > usize::MAX {
                Err(TbxError::InvalidJumpTarget { address: n })
            } else {
                Ok(n as usize)
            },
            c => Err(TbxError::TypeError { expected: "DictAddr", got: variant_name_of(c) }),
        }
    }
}

/// Entering word `x` with `arity` arguments and `lc` locals, returning to
/// `rpc`: a call frame is pushed, the frame base is set below the arguments
/// and the locals are pushed as `Nil`; the result is the word's body
/// address, or the error when the word is not compiled, the arguments are
/// missing or a stack is full.
pub open spec fn enter_outcome(
    a: VM,
    b: VM,
    x: Xt,
    arity: usize,
    lc: usize,
    rpc: usize,
    r: Result<usize, TbxError>,
) -> bool {
    &&& r is Ok ==> b.return_stack@ == a.return_stack@.push(
        ReturnFrame::Call { return_pc: rpc, saved_bp: a.bp, actual_arity: arity, word: x },
    )
    &&& r is Err ==> b.return_stack@ == a.return_stack@ || b.return_stack@ == a.return_stack@.push(
        ReturnFrame::Call { return_pc: rpc, saved_bp: a.bp, actual_arity: arity, word: x },
    )
    &&& r is Ok <==> (a.headers@[x.0 as int].kind is Word && arity <= a.data_stack@.len() && a.return_stack@.len()
        < MAX_RETURN_STACK_DEPTH && a.data_stack@.len() + lc <= MAX_DATA_STACK_DEPTH)
    &&& r matches Ok(body) ==> a.headers@[x.0 as int].kind == EntryKind::Word(body) && b.bp == a.data_stack@.len()
        - arity && b.data_stack@ == a.data_stack@ + Seq::new(lc as nat, |i: int| Cell::Nil)
    &&& keeps(a, b) && b.pc == a.pc
}

/// A push of `c` in the state `a` (with the program counter at `pc`),
/// continuing at `next`.
pub open spec fn push_step(a: VM, pc: usize, b: VM, c: Cell, next: usize, out: Result<Option<usize>, TbxError>) -> bool {
    &&& keeps(a, b) && b.return_stack@ == a.return_stack@ && b.bp == a.bp && b.pc == pc
    &&& if a.data_stack@.len() < MAX_DATA_STACK_DEPTH {
        b.data_stack@ == a.data_stack@.push(c) && out == Ok::<Option<usize>, TbxError>(Some(next))
    } else {
        b.data_stack@ == a.data_stack@ && out == Err::<Option<usize>, TbxError>(
            TbxError::DataStackOverflow { depth: a.data_stack@.len() as usize, limit: MAX_DATA_STACK_DEPTH },
        )
    }
}

/// Nothing changes but the program counter, set to `pc`.
pub open spec fn still(a: VM, pc: usize, b: VM) -> bool {
    keeps(a, b) && b.data_stack@ == a.data_stack@ && b.return_stack@ == a.return_stack@ && b.bp == a.bp && b.pc == pc
}

/// One instruction of the inner interpreter at `pc`, from `a` to `b`: the
/// outcome is the address of the next instruction, `None` when EXIT returns
/// from the run's own level, or the error that stops the run.
pub open spec fn run_step(a: VM, pc: usize, b: VM, out: Result<Option<usize>, TbxError>, depth: u32) -> bool {
    let d = a.dictionary@;
    let s = a.data_stack@;
    let rs = a.return_stack@;
    if pc >= d.len() {
        out == Err::<Option<usize>, TbxError>(TbxError::IndexOutOfBounds { index: pc, size: d.len() as usize })
            && still(a, pc, b)
    } else {
        match d[pc as int] {
            Cell::Xt(x) => if x.0 >= a.headers@.len() {
                out == Err::<Option<usize>, TbxError>(
                    TbxError::IndexOutOfBounds { index: x.0, size: a.headers@.len() as usize },
                ) && still(a, pc, b)
            } else {
                match a.headers@[x.0 as int].kind {
                    EntryKind::Primitive(p) => exists|r0: Result<(), TbxError>|
                        #![trigger prim_effect(p, VM { pc: pc, ..a }, b, r0, depth)]
                        prim_effect(p, VM { pc: pc, ..a }, b, r0, depth) && b.return_stack@ == rs && b.bp == a.bp
                            && (r0 is Ok ==> out == Ok::<Option<usize>, TbxError>(Some((pc + 1) as usize)))
                            && (r0 matches Err(e) ==> out == Err::<Option<usize>, TbxError>(e)),
                    EntryKind::Word(_) => exists|r0: Result<usize, TbxError>|
                        #![trigger enter_outcome(VM { pc: pc, ..a }, b, x, 0, a.headers@[x.0 as int].local_count, (pc + 1) as usize, r0)]
                        enter_outcome(
                            VM { pc: pc, ..a },
                            b,
                            x,
                            0,
                            a.headers@[x.0 as int].local_count,
                            (pc + 1) as usize,
                            r0,
                        ) && match r0 {
                            Ok(body) => out == Ok::<Option<usize>, TbxError>(Some(body)),
                            Err(e) => out == Err::<Option<usize>, TbxError>(e),
                        },
                    EntryKind::Variable(ad) => push_step(a, pc, b, Cell::DictAddr(ad), (pc + 1) as usize, out),
                    EntryKind::Constant(c) => push_step(a, pc, b, c, (pc + 1) as usize, out),
                    EntryKind::Lit => if pc + 1 >= d.len() {
                        out == Err::<Option<usize>, TbxError>(
                            TbxError::IndexOutOfBounds { index: (pc + 1) as usize, size: d.len() as usize },
                        ) && still(a, pc, b)
                    } else {
                        push_step(a, pc, b, d[pc + 1], (pc + 2) as usize, out)
                    },
                    EntryKind::Call => if pc + 3 >= d.len() {
                        out == Err::<Option<usize>, TbxError>(
                            TbxError::IndexOutOfBounds { index: (pc + 3) as usize, size: d.len() as usize },
                        ) && still(a, pc, b)
                    } else {
                        match d[pc + 1] {
                            Cell::Xt(w) => if w.0 >= a.headers@.len() {
                                out == Err::<Option<usize>, TbxError>(
                                    TbxError::IndexOutOfBounds { index: w.0, size: a.headers@.len() as usize },
                                ) && still(a, pc, b)
                            } else {
                                match (operand_count_spec(d, (pc + 2) as usize), operand_count_spec(d, (pc + 3) as usize)) {
                                    (Err(e), _) => out == Err::<Option<usize>, TbxError>(e) && still(a, pc, b),
                                    (Ok(_), Err(e)) => out == Err::<Option<usize>, TbxError>(e) && still(a, pc, b),
                                    (Ok(arity), Ok(lc)) => exists|r0: Result<usize, TbxError>|
                                        #![trigger enter_outcome(VM { pc: pc, ..a }, b, w, arity, lc, (pc + 4) as usize, r0)]
                                        enter_outcome(VM { pc: pc, ..a }, b, w, arity, lc, (pc + 4) as usize, r0)
                                            && match r0 {
                                            Ok(body) => out == Ok::<Option<usize>, TbxError>(Some(body)),
                                            Err(e) => out == Err::<Option<usize>, TbxError>(e),
                                        },
                                }
                            },
                            c => out == Err::<Option<usize>, TbxError>(
                                TbxError::TypeError { expected: "Xt", got: variant_name_of(c) },
                            ) && still(a, pc, b),
                        }
                    },
                    EntryKind::Exit => rs.len() > 0 && match rs.last() {
                        ReturnFrame::TopLevel => out == Ok::<Option<usize>, TbxError>(None) && keeps(a, b)
                            && b.data_stack@ == s && b.return_stack@ == rs.drop_last() && b.bp == a.bp && b.pc == pc,
                        ReturnFrame::Call { return_pc, saved_bp, .. } => out == Ok::<Option<usize>, TbxError>(
                            Some(return_pc),
                        ) && keeps(a, b) && b.return_stack@ == rs.drop_last() && b.data_stack@ == (if a.bp < s.len() {
                            s.take(a.bp as int)
                        } else {
                            s
                        }) && b.bp == saved_bp && b.pc == pc,
                    },
                    EntryKind::Goto => match operand_target_spec(d, (pc + 1) as usize) {
                        Ok(t) => out == Ok::<Option<usize>, TbxError>(Some(t)) && still(a, pc, b),
                        Err(e) => out == Err::<Option<usize>, TbxError>(e) && still(a, pc, b),
                    },
                    EntryKind::BranchIfFalse => match operand_target_spec(d, (pc + 1) as usize) {
                        Err(e) => out == Err::<Option<usize>, TbxError>(e) && still(a, pc, b),
                        Ok(t) => if s.len() == 0 {
                            out == Err::<Option<usize>, TbxError>(TbxError::StackUnderflow) && still(a, pc, b)
                        } else {
                            keeps(a, b) && b.data_stack@ == s.drop_last() && b.return_stack@ == rs && b.bp == a.bp
                                && b.pc == pc && out == Ok::<Option<usize>, TbxError>(
                                Some(if crate::cell::truthy(s.last()) { (pc + 2) as usize } else { t }),
                            )
                        },
                    },
                    EntryKind::BranchIfTrue => match operand_target_spec(d, (pc + 1) as usize) {
                        Err(e) => out == Err::<Option<usize>, TbxError>(e) && still(a, pc, b),
                        Ok(t) => if s.len() == 0 {
                            out == Err::<Option<usize>, TbxError>(TbxError::StackUnderflow) && still(a, pc, b)
                        } else {
                            keeps(a, b) && b.data_stack@ == s.drop_last() && b.return_stack@ == rs && b.bp == a.bp
                                && b.pc == pc && out == Ok::<Option<usize>, TbxError>(
                                Some(if crate::cell::truthy(s.last()) { t } else { (pc + 2) as usize }),
                            )
                        },
                    },
                    EntryKind::DropToMarker => keeps(a, b) && b.return_stack@ == rs && b.bp == a.bp && b.pc == pc
                        && match last_marker(s) {
                        Some(k) => out == Ok::<Option<usize>, TbxError>(Some((pc + 1) as usize))
                            && b.data_stack@ == s.take(k),
                        None => out == Err::<Option<usize>, TbxError>(TbxError::MarkerNotFound)
                            && b.data_stack@.len() == 0,
                    },
                    EntryKind::ReturnVal => rs.len() > 0 && match rs.last() {
                        ReturnFrame::TopLevel => out == Err::<Option<usize>, TbxError>(TbxError::InvalidReturn)
                            && still(a, pc, b),
                        ReturnFrame::Call { return_pc, saved_bp, .. } => if s.len() == 0 {
                            out == Err::<Option<usize>, TbxError>(TbxError::StackUnderflow) && still(a, pc, b)
                        } else {
                            let s1 = s.drop_last();
                            let s2 = if a.bp < s1.len() { s1.take(a.bp as int) } else { s1 };
                            keeps(a, b) && b.return_stack@ == rs.drop_last() && b.pc == pc && if s2.len()
                                < MAX_DATA_STACK_DEPTH {
                                out == Ok::<Option<usize>, TbxError>(Some(return_pc)) && b.data_stack@ == s2.push(
                                    s.last(),
                                ) && b.bp == saved_bp
                            } else {
                                out is Err && b.data_stack@ == s2
                            }
                        },
                    },
                }
            },
            c => out == Err::<Option<usize>, TbxError>(TbxError::TypeError { expected: "Xt", got: variant_name_of(c) })
                && still(a, pc, b),
        }
    }
}

/// The integer operand at `pos`.
fn operand_count(vm: &VM, pos: usize) -> (r: Result<usize, TbxError>)
    ensures
        r == operand_count_spec(vm.dictionary@, pos),
        r == (if pos >= vm.dictionary@.len() {
            Err(TbxError::IndexOutOfBounds { index: pos, size: vm.dictionary@.len() as usize })
        } else {
            match vm.dictionary@[pos as int] {
                Cell::Int(n) => if n < 0 {
                    Err(TbxError::InvalidOperand { name: "count", value: n, reason: "must be non-negative" })
                } else if n > usize::MAX {
                    Err(TbxError::InvalidOperand { name: "count", value: n, reason: "too large" })
                } else {
                    Ok(n as usize)
                },
                c => Err(TbxError::TypeError { expected: "Int", got: variant_name_of(c) }),
            }
        }),
{
    if pos >= vm.dictionary.len() {
        return Err(TbxError::IndexOutOfBounds { index: pos, size: vm.dictionary.len() });
    }
    match vm.dictionary[pos] {
        Cell::Int(n) => {
            if n < 0 {
                Err(TbxError::InvalidOperand { name: "count", value: n, reason: "must be non-negative" })
            } else if (n as u64) > (usize::MAX as u64) {
                Err(TbxError::InvalidOperand { name: "count", value: n, reason: "too large" })
            } else {
                Ok(n as usize)
            }
        },
        _ => Err(TbxError::TypeError { expected: "Int", got: vm.dictionary[pos].variant_name() }),
    }
}

/// The jump target at `pos`.
fn operand_target(vm: &VM, pos: usize) -> (r: Result<usize, TbxError>)
    ensures
        r == operand_target_spec(vm.dictionary@, pos),
        r == (if pos >= vm.dictionary@.len() {
            Err(TbxError::IndexOutOfBounds { index: pos, size: vm.dictionary@.len() as usize })
        } else {
            match vm.dictionary@[pos as int] {
                Cell::DictAddr(a) => Ok(a),
                Cell::Int(n) => if n < 0 || n > usize::MAX {
                    Err(TbxError::InvalidJumpTarget { address: n })
                } else {
                    Ok(n as usize)
                },
                c => Err(TbxError::TypeError { expected: "DictAddr", got: variant_name_of(c) }),
            }
        }),
{
    if pos >= vm.dictionary.len() {
        return Err(TbxError::IndexOutOfBounds { index: pos, size: vm.dictionary.len() });
    }
    match vm.dictionary[pos] {
        Cell::DictAddr(a) => Ok(a),
        Cell::Int(n) => {
            if n < 0 {
                Err(TbxError::InvalidJumpTarget { address: n })
            } else if (n as u64) > (usize::MAX as u64) {
                Err(TbxError::InvalidJumpTarget { address: n })
            } else {
                Ok(n as usize)
            }
        },
        _ => Err(TbxError::TypeError { expected: "DictAddr", got: vm.dictionary[pos].variant_name() }),
    }
}


proof fn lemma_run_frames_pop(rs: Seq<ReturnFrame>, base: Seq<ReturnFrame>)
    requires
        run_frames(rs, base),
        rs.last() is Call,
    ensures
        run_frames(rs.drop_last(), base),
{
    assert(rs.drop_last().take(base.len() as int) =~= rs.take(base.len() as int));
}

proof fn lemma_run_frames_push(rs: Seq<ReturnFrame>, base: Seq<ReturnFrame>, f: ReturnFrame)
    requires
        run_frames(rs, base),
        f is Call,
    ensures
        run_frames(rs.push(f), base),
{
    assert(rs.push(f).take(base.len() as int) =~= rs.take(base.len() as int));
}

/// Cut the dictionary back to `pos` (a temporary code buffer ends there);
/// an open definition that no longer fits is dropped.
pub fn cut_dictionary(vm: &mut VM, pos: usize)
    requires
        old(vm).wf(),
    ensures
        final(vm).wf(),
        final(vm).dp <= pos,
        final(vm).return_stack@ == old(vm).return_stack@,
        final(vm).bp == old(vm).bp,
        final(vm).data_stack@ == old(vm).data_stack@,
        final(vm).headers@ == old(vm).headers@,
        final(vm).arrays@ == old(vm).arrays@,
        final(vm).output_buffer@ == old(vm).output_buffer@,
        pos <= old(vm).dictionary@.len() ==> final(vm).dp == pos && final(vm).dictionary@ == old(
            vm,
        ).dictionary@.take(pos as int),
{
    vm.dictionary.truncate(pos);
    vm.dp = if pos <= vm.dictionary.len() { pos } else { vm.dictionary.len() };
    let bad = match &vm.compile_state {
        Some(s) => s.dp_at_def > vm.dp,
        None => false,
    };
    if bad {
        vm.compile_state = None;
        vm.is_compiling = false;
    }
}

/// The index of the topmost marker on a data stack.
pub open spec fn last_marker(s: Seq<Cell>) -> Option<int>
    decreases s.len(),
{
    if s.len() == 0 {
        None
    } else if s.last() is Marker {
        Some(s.len() - 1)
    } else {
        last_marker(s.drop_last())
    }
}

/// Drop data-stack values down to and including the nearest marker.
fn drop_to_marker(vm: &mut VM) -> (r: Result<(), TbxError>)
    requires
        old(vm).wf(),
    ensures
        final(vm).wf(),
        crate::vm::only_data_changed(*old(vm), *final(vm)),
        match last_marker(old(vm).data_stack@) {
            Some(k) => r is Ok && final(vm).data_stack@ == old(vm).data_stack@.take(k),
            None => r == Err::<(), TbxError>(TbxError::MarkerNotFound) && final(vm).data_stack@.len() == 0,
        },
{
    loop
        invariant
            vm.wf(),
            crate::vm::only_data_changed(*old(vm), *vm),
            vm.data_stack@.len() <= old(vm).data_stack@.len(),
            vm.data_stack@ == old(vm).data_stack@.take(vm.data_stack@.len() as int),
            last_marker(vm.data_stack@) == last_marker(old(vm).data_stack@),
        decreases vm.data_stack@.len(),
    {
        let ghost s = vm.data_stack@;
        proof {
            if s.len() > 0 {
                assert(s.drop_last() =~= old(vm).data_stack@.take(s.len() - 1));
            }
        }
        match vm.data_stack.pop() {
            Some(Cell::Marker) => {
                return Ok(());
            },
            Some(_) => {},
            None => {
                return Err(TbxError::MarkerNotFound);
            },
        }
    }
}

/// What a run from `start` does with its first instruction, where that
/// decides the outcome: no instruction there, no execution token, a token
/// that names no word, or EXIT (the run returns at once, changing nothing).
pub open spec fn first_step(a: VM, b: VM, start: usize, r: Result<(), TbxError>) -> bool {
    if start >= a.dictionary@.len() {
        r == Err::<(), TbxError>(TbxError::IndexOutOfBounds { index: start, size: a.dictionary@.len() as usize })
    } else {
        match a.dictionary@[start as int] {
            Cell::Xt(x) => if x.0 >= a.headers@.len() {
                r == Err::<(), TbxError>(TbxError::IndexOutOfBounds { index: x.0, size: a.headers@.len() as usize })
            } else if a.headers@[x.0 as int].kind is Exit {
                r is Ok && b.data_stack@ == a.data_stack@ && crate::vm::eq_dictionary(a, b) && crate::vm::eq_headers(a, b)
                    && b.bp == a.bp && b.arrays@ == a.arrays@ && crate::vm::eq_io(a, b)
            } else {
                true
            },
            c => r == Err::<(), TbxError>(TbxError::TypeError { expected: "Xt", got: variant_name_of(c) }),
        }
    }
}

/// The values that code made of `LIT v` instructions up to an EXIT, from
/// `pc` on, pushes; `None` when the code there is anything else.
pub open spec fn lit_run(a: VM, pc: int) -> Option<Seq<Cell>>
    decreases a.dictionary@.len() - pc,
{
    if pc < 0 || pc >= a.dictionary@.len() {
        None
    } else {
        match a.dictionary@[pc] {
            Cell::Xt(x) => if x.0 >= a.headers@.len() {
                None
            } else {
                match a.headers@[x.0 as int].kind {
                    EntryKind::Exit => Some(Seq::empty()),
                    EntryKind::Lit => if pc + 1 < a.dictionary@.len() {
                        match lit_run(a, pc + 2) {
                            Some(rest) => Some(seq![a.dictionary@[pc + 1]] + rest),
                            None => None,
                        }
                    } else {
                        None
                    },
                    _ => None,
                }
            },
            _ => None,
        }
    }
}

/// The first instruction of a run from `start` is a word's execution token
/// other than EXIT.
pub open spec fn first_step_passes(a: VM, start: usize) -> bool {
    start < a.dictionary@.len() && (a.dictionary@[start as int] matches Cell::Xt(x) && x.0 < a.headers@.len()
        && !(a.headers@[x.0 as int].kind is Exit))
}

/// Execute the instruction at `pc`: the outcome is the address of the next
/// instruction, `None` when EXIT returns from the run's own level, or the
/// error that stops the run.
fn exec_step(vm: &mut VM, pc: usize, depth: u32) -> (out: Result<Option<usize>, TbxError>)
    requires
        old(vm).wf(),
        old(vm).return_stack@.len() > 0,
    ensures
        final(vm).wf(),
        run_step(*old(vm), pc, *final(vm), out, depth),
    decreases depth, 2nat,
{
    vm.pc = pc;
    if pc >= vm.dictionary.len() {
        return Err(TbxError::IndexOutOfBounds { index: pc, size: vm.dictionary.len() });
    }
    let x = match vm.dictionary[pc] {
        Cell::Xt(x) => x,
        _ => {
            return Err(TbxError::TypeError { expected: "Xt", got: vm.dictionary[pc].variant_name() });
        },
    };
    if x.0 >= vm.headers.len() {
        return Err(TbxError::IndexOutOfBounds { index: x.0, size: vm.headers.len() });
    }
    let ghost a1 = *vm;
    let kind = vm.headers[x.0].kind.dup();
    match kind {
        EntryKind::Primitive(p) => {
            let r0 = dispatch(vm, p, depth);
            proof {
                assert(prim_effect(p, a1, *vm, r0, depth));
            }
            match r0 {
                Ok(()) => Ok(Some(pc + 1)),
                Err(e) => Err(e),
            }
        },
        EntryKind::Word(_) => {
            let lc = vm.headers[x.0].local_count;
            let r0 = enter_word(vm, x, 0, lc, pc + 1);
            proof {
                assert(enter_outcome(a1, *vm, x, 0, lc, (pc + 1) as usize, r0));
            }
            match r0 {
                Ok(b) => Ok(Some(b)),
                Err(e) => Err(e),
            }
        },
        EntryKind::Variable(a) => {
            vm.push(Cell::DictAddr(a))?;
            Ok(Some(pc + 1))
        },
        EntryKind::Constant(c) => {
            vm.push(c)?;
            Ok(Some(pc + 1))
        },
        EntryKind::Lit => {
            if pc + 1 >= vm.dictionary.len() {
                return Err(TbxError::IndexOutOfBounds { index: pc + 1, size: vm.dictionary.len() });
            }
            let v = vm.dictionary[pc + 1].dup();
            vm.push(v)?;
            Ok(Some(pc + 2))
        },
        EntryKind::Call => {
            if pc + 3 >= vm.dictionary.len() {
                return Err(TbxError::IndexOutOfBounds { index: pc + 3, size: vm.dictionary.len() });
            }
            let w = match vm.dictionary[pc + 1] {
                Cell::Xt(w) => w,
                _ => {
                    return Err(TbxError::TypeError { expected: "Xt", got: vm.dictionary[pc + 1].variant_name() });
                },
            };
            if w.0 >= vm.headers.len() {
                return Err(TbxError::IndexOutOfBounds { index: w.0, size: vm.headers.len() });
            }
            let arity = operand_count(vm, pc + 2)?;
            let lc = operand_count(vm, pc + 3)?;
            let r0 = enter_word(vm, w, arity, lc, pc + 4);
            proof {
                assert(enter_outcome(a1, *vm, w, arity, lc, (pc + 4) as usize, r0));
            }
            match r0 {
                Ok(b) => Ok(Some(b)),
                Err(e) => Err(e),
            }
        },
        EntryKind::Exit => {
            let n = vm.return_stack.len();
            match vm.return_stack[n - 1] {
                ReturnFrame::TopLevel => {
                    vm.return_stack.pop();
                    Ok(None)
                },
                ReturnFrame::Call { return_pc, saved_bp, .. } => {
                    vm.return_stack.pop();
                    let b = vm.bp;
                    vm.data_stack.truncate(b);
                    proof {
                        let s0 = old(vm).data_stack@;
                        if (b as int) < s0.len() {
                            assert(vm.data_stack@ =~= s0.take(b as int));
                        } else {
                            assert(vm.data_stack@ =~= s0);
                        }
                    }
                    vm.bp = saved_bp;
                    Ok(Some(return_pc))
                },
            }
        },
        EntryKind::ReturnVal => {
            let n = vm.return_stack.len();
            match vm.return_stack[n - 1] {
                ReturnFrame::TopLevel => Err(TbxError::InvalidReturn),
                ReturnFrame::Call { return_pc, saved_bp, .. } => {
                    let v = vm.pop()?;
                    vm.return_stack.pop();
                    let b = vm.bp;
                    vm.data_stack.truncate(b);
                    let ghost s2 = vm.data_stack@;
                    proof {
                        let s1 = old(vm).data_stack@.drop_last();
                        if (b as int) < s1.len() {
                            assert(s2 =~= s1.take(b as int));
                        } else {
                            assert(s2 =~= s1);
                        }
                    }
                    vm.push(v)?;
                    vm.bp = saved_bp;
                    proof {
                        assert(vm.data_stack@ == s2.push(v));
                    }
                    Ok(Some(return_pc))
                },
            }
        },
        EntryKind::DropToMarker => {
            drop_to_marker(vm)?;
            Ok(Some(pc + 1))
        },
        EntryKind::Goto => {
            let t = operand_target(vm, pc + 1)?;
            Ok(Some(t))
        },
        EntryKind::BranchIfFalse => {
            let target = operand_target(vm, pc + 1)?;
            let c = vm.pop()?;
            if c.is_truthy() {
                Ok(Some(pc + 2))
            } else {
                Ok(Some(target))
            }
        },
        EntryKind::BranchIfTrue => {
            let target = operand_target(vm, pc + 1)?;
            let c = vm.pop()?;
            if c.is_truthy() {
                Ok(Some(target))
            } else {
                Ok(Some(pc + 2))
            }
        },
    }
}

/// Instruction `i` of a trace leads to instruction `i + 1`.
pub open spec fn trace_link(t: Seq<VM>, pcs: Seq<usize>, i: int, depth: u32) -> bool {
    run_step(t[i], pcs[i], t[i + 1], Ok(Some(pcs[i + 1])), depth)
}

/// `t` and `pcs` are the states and instruction addresses of a run from
/// `start` in the state `a`: it starts with a TopLevel frame pushed, and
/// each instruction leads to the next.
pub open spec fn run_trace(a: VM, start: usize, depth: u32, t: Seq<VM>, pcs: Seq<usize>) -> bool {
    &&& t.len() == pcs.len() && t.len() >= 1
    &&& t[0].return_stack@ == a.return_stack@.push(ReturnFrame::TopLevel) && keeps(a, t[0]) && t[0].data_stack@
        == a.data_stack@ && t[0].bp == a.bp && t[0].pc == a.pc
    &&& pcs[0] == start
    &&& forall|i: int| 0 <= i < t.len() - 1 ==> #[trigger] trace_link(t, pcs, i, depth)
}

/// How a run whose last instruction is at `pc` in the state `a` ends in the
/// state `b` with result `r`: EXIT from the run's own level gives `Ok`, an
/// instruction that fails gives its error, and after `MAX_RUN_STEPS`
/// instructions the run stops.
pub open spec fn run_end(a: VM, pc: usize, b: VM, r: Result<(), TbxError>, depth: u32, n: nat) -> bool {
    ||| r is Ok && run_step(a, pc, b, Ok(None), depth)
    ||| r matches Err(e) && run_step(a, pc, b, Err(e), depth)
    ||| r == Err::<(), TbxError>(TbxError::StepLimitExceeded) && b == a && n > MAX_RUN_STEPS
}

/// A step keeps the run's return-stack frames; EXIT from the run's own level
/// leaves the stack as it was before the run.
proof fn lemma_step_frames(
    a: VM,
    pc: usize,
    b: VM,
    out: Result<Option<usize>, TbxError>,
    depth: u32,
    base: Seq<ReturnFrame>,
)
    requires
        run_frames(a.return_stack@, base),
        run_step(a, pc, b, out, depth),
    ensures
        out == Ok::<Option<usize>, TbxError>(None) ==> b.return_stack@ == base,
        out != Ok::<Option<usize>, TbxError>(None) ==> run_frames(b.return_stack@, base),
{
    let rs = a.return_stack@;
    if rs != b.return_stack@ {
        if b.return_stack@.len() == rs.len() + 1 {
            let f = b.return_stack@.last();
            assert(b.return_stack@ == rs.push(f));
            lemma_run_frames_push(rs, base, f);
        } else {
            if rs.last() is Call {
                lemma_run_frames_pop(rs, base);
            } else {
                assert(rs.len() - 1 == base.len());
                assert(rs.drop_last() =~= base);
            }
        }
    }
}

/// On the run's first instruction the outcome is the one `first_step`
/// describes.
proof fn lemma_first_step(a: VM, v0: VM, start: usize, b: VM, out: Result<Option<usize>, TbxError>, depth: u32)
    requires
        v0.return_stack@ == a.return_stack@.push(ReturnFrame::TopLevel),
        v0.data_stack@ == a.data_stack@,
        crate::vm::eq_dictionary(a, v0),
        crate::vm::eq_headers(a, v0),
        v0.bp == a.bp,
        v0.arrays@ == a.arrays@,
        crate::vm::eq_io(a, v0),
        run_step(v0, start, b, out, depth),
    ensures
        out is Ok && out != Ok::<Option<usize>, TbxError>(None) ==> first_step_passes(a, start),
        out == Ok::<Option<usize>, TbxError>(None) ==> first_step(a, b, start, Ok(())),
        out matches Err(e) ==> first_step(a, b, start, Err(e)),
{
}

/// Run the code at `start` until it returns to this run (EXIT at the top
/// level). The return stack gets a TopLevel sentinel for the run; on
/// success it is back to what it was, on failure the frames of the failing
/// call chain are left for a stack trace.
pub fn run(vm: &mut VM, start: usize, depth: u32) -> (r: Result<(), TbxError>)
    requires
        old(vm).wf(),
    ensures
        final(vm).wf(),
        r is Ok ==> final(vm).return_stack@ == old(vm).return_stack@,
        final(vm).return_stack@.len() >= old(vm).return_stack@.len(),
        final(vm).return_stack@.take(old(vm).return_stack@.len() as int) == old(vm).return_stack@,
        old(vm).return_stack@.len() >= MAX_RETURN_STACK_DEPTH ==> r == Err::<(), TbxError>(
            TbxError::ReturnStackOverflow {
                depth: old(vm).return_stack@.len() as usize,
                limit: MAX_RETURN_STACK_DEPTH,
            },
        ),
        old(vm).return_stack@.len() >= MAX_RETURN_STACK_DEPTH ==> *final(vm) == *old(vm),
        old(vm).return_stack@.len() < MAX_RETURN_STACK_DEPTH ==> first_step(*old(vm), *final(vm), start, r),
        (lit_run(*old(vm), start as int) matches Some(vals) && old(vm).return_stack@.len() < MAX_RETURN_STACK_DEPTH)
            ==> (lit_run(*old(vm), start as int) matches Some(vals) && (old(vm).data_stack@.len() + vals.len()
            <= MAX_DATA_STACK_DEPTH ==> r is Ok) && (r is Ok ==> final(vm).data_stack@ == old(vm).data_stack@ + vals
            && crate::vm::eq_dictionary(*old(vm), *final(vm)) && crate::vm::eq_headers(*old(vm), *final(vm))
            && final(vm).bp == old(vm).bp && final(vm).arrays@ == old(vm).arrays@ && crate::vm::eq_io(
            *old(vm),
            *final(vm),
        ))),
        old(vm).return_stack@.len() < MAX_RETURN_STACK_DEPTH ==> exists|t: Seq<VM>, pcs: Seq<usize>|
            #![trigger run_trace(*old(vm), start, depth, t, pcs)]
            run_trace(*old(vm), start, depth, t, pcs) && run_end(t.last(), pcs.last(), *final(vm), r, depth, t.len()),
    decreases depth, 3nat,
{
    if vm.return_stack.len() >= MAX_RETURN_STACK_DEPTH {
        return Err(TbxError::ReturnStackOverflow { depth: vm.return_stack.len(), limit: MAX_RETURN_STACK_DEPTH });
    }
    let ghost base = vm.return_stack@;
    vm.return_stack.push(ReturnFrame::TopLevel);
    assert(vm.return_stack@.take(base.len() as int) =~= base);
    let mut pc: usize = start;
    let mut fuel: u64 = MAX_RUN_STEPS;
    let ghost mut first = true;
    let ghost mut pushed: Seq<Cell> = Seq::empty();
    let ghost mut t: Seq<VM> = seq![*vm];
    let ghost mut pcs: Seq<usize> = seq![start];
    loop
        invariant
            lit_run(*old(vm), start as int) is Some ==> (lit_run(*old(vm), pc as int) is Some && lit_run(
                *old(vm),
                start as int,
            ).unwrap() == pushed + lit_run(*old(vm), pc as int).unwrap() && vm.data_stack@ == old(vm).data_stack@
                + pushed && crate::vm::eq_dictionary(*old(vm), *vm) && crate::vm::eq_headers(*old(vm), *vm) && vm.bp
                == old(vm).bp && vm.arrays@ == old(vm).arrays@ && crate::vm::eq_io(*old(vm), *vm)
                && vm.return_stack@ == base.push(ReturnFrame::TopLevel) && start <= pc && fuel as int + (pc - start)
                >= MAX_RUN_STEPS),
            vm.wf(),
            base == old(vm).return_stack@,
            base.len() < MAX_RETURN_STACK_DEPTH,
            run_frames(vm.return_stack@, base),
            first ==> pc == start && fuel == MAX_RUN_STEPS && vm.data_stack@ == old(vm).data_stack@
                && crate::vm::eq_dictionary(*old(vm), *vm) && crate::vm::eq_headers(*old(vm), *vm) && vm.bp == old(vm).bp
                && vm.arrays@ == old(vm).arrays@ && crate::vm::eq_io(*old(vm), *vm) && vm.return_stack@ == base.push(
                ReturnFrame::TopLevel,
            ),
            !first ==> first_step_passes(*old(vm), start),
            run_trace(*old(vm), start, depth, t, pcs),
            t.last() == *vm,
            pcs.last() == pc,
            t.len() + fuel == MAX_RUN_STEPS + 1,
        decreases fuel,
    {
        if fuel == 0 {
            proof {
                assert(run_end(t.last(), pcs.last(), *vm, Err::<(), TbxError>(TbxError::StepLimitExceeded), depth, t.len()));
            }
            return Err(TbxError::StepLimitExceeded);
        }
        fuel = fuel - 1;
        let ghost v0 = *vm;
        let ghost was_first = first;
        let out = exec_step(vm, pc, depth);
        proof {
            lemma_step_frames(v0, pc, *vm, out, depth, base);
            first = false;
            if was_first {
                lemma_first_step(*old(vm), v0, start, *vm, out, depth);
            }
            if lit_run(*old(vm), start as int) is Some {
                let x = v0.dictionary@[pc as int]->Xt_0;
                if v0.headers@[x.0 as int].kind is Lit {
                    let v = v0.dictionary@[pc + 1];
                    let rest = lit_run(*old(vm), pc + 2).unwrap();
                    assert(lit_run(*old(vm), pc as int).unwrap() == seq![v] + rest);
                    assert(pushed + (seq![v] + rest) =~= pushed.push(v) + rest);
                    pushed = pushed.push(v);
                }
            }
        }
        match out {
            Ok(Some(n)) => {
                proof {
                    let t2 = t.push(*vm);
                    let pcs2 = pcs.push(n);
                    assert forall|i: int| 0 <= i < t2.len() - 1 implies #[trigger] trace_link(t2, pcs2, i, depth) by {
                        if i < t.len() - 1 {
                            assert(trace_link(t, pcs, i, depth));
                        }
                    }
                    t = t2;
                    pcs = pcs2;
                }
                pc = n;
            },
            Ok(None) => {
                proof {
                    assert(run_end(t.last(), pcs.last(), *vm, Ok::<(), TbxError>(()), depth, t.len()));
                }
                return Ok(());
            },
            Err(e) => {
                proof {
                    assert(run_end(t.last(), pcs.last(), *vm, Err::<(), TbxError>(e), depth, t.len()));
                }
                return Err(e);
            },
        }
    }
}


/// Only the header table may differ.
pub open spec fn only_headers_changed(a: VM, b: VM) -> bool {
    crate::vm::eq_dictionary(a, b) && a.data_stack@ == b.data_stack@ && crate::vm::eq_control(a, b)
        && crate::vm::eq_compile(a, b) && crate::vm::eq_io(a, b) && crate::vm::eq_rest(a, b)
}

} // verus!
