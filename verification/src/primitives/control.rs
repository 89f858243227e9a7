//! Structured control words compiled inside definitions: IF / ELSIF / ELSE /
//! ENDIF, WHILE / ENDWH, SELECT / CASE / CASE_ELSE / ENDSEL and LET.
//!
//! Each open structure keeps its bookkeeping on the compile stack under a
//! tag: IF keeps `[end jumps.., pending, Int(count), Tag("IF")]`, WHILE
//! `[loop start, exit jump, Tag("WHILE")]` and SELECT
//! `[end jumps.., pending, Int(count), Int(phase), Tag("SELECT")]`.
use vstd::prelude::*;
use crate::cell::{Cell, CompileEntry, variant_name_of};
use crate::constants::MAX_DICTIONARY_CELLS;
use crate::lexer::{SpannedToken, Token};
use crate::text::upper_seq;
use crate::error::TbxError;
use crate::primitives::compile::{
    same_runtime, compiles_only, emit_cells, compile_tokens, compile_lvalue_prim, skip_eq_prim, emitted, kind_xt,
    word_xt, lemma_emitted_write, lemma_emitted_push, lemma_emitted_trans, handle_addr,
};
use crate::primitives::cstack::close_tag;
use crate::vm::{VM, SysKind, eq_headers, stream, find_kind_in, lookup_in};

verus! {

/// Frame of the control words: runtime and header table unchanged.
pub open spec fn control_frame(a: VM, b: VM) -> bool {
    same_runtime(a, b) && eq_headers(a, b) && a.is_compiling == b.is_compiling
        && a.pending_use_path == b.pending_use_path
}

/// Emit the internal word of kind `k` followed by a jump-target
/// placeholder; returns the placeholder's address.
fn emit_jump_placeholder(vm: &mut VM, k: SysKind, name: &str) -> (r: Result<usize, TbxError>)
    requires
        old(vm).wf(),
    ensures
        final(vm).wf(),
        control_frame(*old(vm), *final(vm)),
        final(vm).compile_stack@ == old(vm).compile_stack@,
        final(vm).token_stream == old(vm).token_stream,
        r matches Ok(p) ==> p == old(vm).dp + 1 && p < final(vm).dictionary@.len() && emitted(
            *old(vm),
            *final(vm),
            seq![kind_xt(*old(vm), k), Cell::DictAddr(0)],
        ),
        r is Ok <==> (find_kind_in(old(vm).headers@, old(vm).headers@.len() as int, k) is Some && old(vm).dp + 2
            <= MAX_DICTIONARY_CELLS),
{
    let ghost v0 = *vm;
    let x = vm.require_kind(k, name)?;
    vm.dict_write(Cell::Xt(x))?;
    let ghost v1 = *vm;
    let p = vm.dp;
    vm.dict_write(Cell::DictAddr(0))?;
    proof {
        lemma_emitted_write(v0, v1, Cell::Xt(x));
        lemma_emitted_push(v0, v1, *vm, seq![Cell::Xt(x)], Cell::DictAddr(0));
        assert(seq![Cell::Xt(x)].push(Cell::DictAddr(0)) =~= seq![kind_xt(v0, k), Cell::DictAddr(0)]);
    }
    Ok(p)
}

/// Emit the visible word `name` (e.g. DUP, EQ, SET).
fn emit_named(vm: &mut VM, name: &str) -> (r: Result<(), TbxError>)
    requires
        old(vm).wf(),
    ensures
        final(vm).wf(),
        control_frame(*old(vm), *final(vm)),
        final(vm).compile_stack@ == old(vm).compile_stack@,
        final(vm).token_stream == old(vm).token_stream,
        final(vm).compile_state == old(vm).compile_state,
        r is Ok <==> (lookup_in(old(vm).headers@, old(vm).headers@.len() as int, name@, None, false) is Some
            && old(vm).dp < MAX_DICTIONARY_CELLS),
        r is Ok ==> emitted(*old(vm), *final(vm), seq![word_xt(*old(vm), name@)]),
{
    let x = match vm.lookup(name) {
        Some(x) => x,
        None => {
            return Err(TbxError::UndefinedSymbol { name: name.to_owned() });
        },
    };
    let ghost v0 = *vm;
    vm.dict_write(Cell::Xt(x))?;
    proof {
        lemma_emitted_write(v0, *vm, Cell::Xt(x));
    }
    Ok(())
}

/// Compile the rest of the statement as an expression (it must not be empty).
fn emit_rest_expr(vm: &mut VM) -> (r: Result<(), TbxError>)
    requires
        old(vm).wf(),
    ensures
        final(vm).wf(),
        control_frame(*old(vm), *final(vm)),
        final(vm).compile_stack@ == old(vm).compile_stack@,
        !(stream(*old(vm)) matches Some(q) && q.len() > 0) ==> r == Err::<(), TbxError>(TbxError::TokenStreamEmpty),
        r is Ok ==> (stream(*old(vm)) matches Some(q) && stream(*final(vm)) == Some(Seq::<SpannedToken>::empty())
            && exists|code: Seq<Cell>|
            #[trigger] emitted(*old(vm), *final(vm), code) && (crate::expr::one_expression(q)
                ==> crate::expr::in_order(crate::expr::int_lits(q), code))),
        (stream(*old(vm)) matches Some(q) && crate::expr::flat_arith(q)) ==> (stream(*old(vm)) matches Some(q)
            && (r is Ok ==> emitted(*old(vm), *final(vm), crate::expr::flat_code(*old(vm), q)))
            && (crate::expr::flat_words_ok(*old(vm), q) ==> (r is Ok <==> old(vm).dp + crate::expr::flat_code(
            *old(vm),
            q,
        ).len() <= MAX_DICTIONARY_CELLS))),
{
    let toks = vm.drain_tokens()?;
    if toks.len() == 0 {
        return Err(TbxError::TokenStreamEmpty);
    }
    let ghost v1 = *vm;
    proof {
        crate::expr::lemma_flat_code_headers(*old(vm), *vm, toks@);
    }
    let (cells, offs) = compile_tokens(vm, toks.as_slice())?;
    let ghost code = cells@;
    emit_cells(vm, cells, offs)?;
    assert(emitted(v1, *vm, code));
    assert(emitted(*old(vm), *vm, code));
    Ok(())
}

/// Pop a cell from the compile stack.
fn cs_take(vm: &mut VM) -> (r: Result<Cell, TbxError>)
    requires
        old(vm).wf(),
    ensures
        final(vm).wf(),
        control_frame(*old(vm), *final(vm)),
        final(vm).dictionary@ == old(vm).dictionary@,
        final(vm).dp == old(vm).dp,
        final(vm).token_stream == old(vm).token_stream,
        final(vm).compile_state == old(vm).compile_state,
        r matches Ok(c) ==> old(vm).compile_stack@.len() > 0 && old(vm).compile_stack@.last() == CompileEntry::Cell(c)
            && final(vm).compile_stack@ == old(vm).compile_stack@.drop_last(),
        r is Ok <==> (old(vm).compile_stack@.len() > 0 && old(vm).compile_stack@.last() is Cell),
        old(vm).compile_stack@.len() == 0 ==> r == Err::<Cell, TbxError>(TbxError::StackUnderflow),
        old(vm).compile_stack@.len() > 0 && old(vm).compile_stack@.last() is Tag ==> r == Err::<Cell, TbxError>(
            TbxError::TypeError { expected: "Cell", got: "Tag" },
        ),
{
    match vm.compile_stack.pop() {
        Some(CompileEntry::Cell(c)) => Ok(c),
        Some(_) => Err(TbxError::TypeError { expected: "Cell", got: "Tag" }),
        None => Err(TbxError::StackUnderflow),
    }
}

/// Pop an integer cell from the compile stack.
fn cs_take_count(vm: &mut VM) -> (r: Result<u64, TbxError>)
    requires
        old(vm).wf(),
    ensures
        final(vm).wf(),
        control_frame(*old(vm), *final(vm)),
        final(vm).dictionary@ == old(vm).dictionary@,
        final(vm).dp == old(vm).dp,
        final(vm).token_stream == old(vm).token_stream,
        final(vm).compile_state == old(vm).compile_state,
        match (if old(vm).compile_stack@.len() > 0 { Some(old(vm).compile_stack@.last()) } else { None }) {
            Some(CompileEntry::Cell(Cell::Int(n))) => if n < 0 {
                r == Err::<u64, TbxError>(TbxError::TypeError { expected: "count", got: "Int" })
            } else {
                r == Ok::<u64, TbxError>(n as u64) && final(vm).compile_stack@ == old(vm).compile_stack@.drop_last()
            },
            Some(CompileEntry::Cell(c)) => r == Err::<u64, TbxError>(
                TbxError::TypeError { expected: "Int", got: variant_name_of(c) },
            ),
            Some(CompileEntry::Tag(_)) => r == Err::<u64, TbxError>(TbxError::TypeError { expected: "Cell", got: "Tag" }),
            None => r == Err::<u64, TbxError>(TbxError::StackUnderflow),
        },
{
    match cs_take(vm)? {
        Cell::Int(n) => {
            if n < 0 {
                Err(TbxError::TypeError { expected: "count", got: "Int" })
            } else {
                Ok(n as u64)
            }
        },
        other => Err(TbxError::TypeError { expected: "Int", got: other.variant_name() }),
    }
}

/// Make a pending jump (a placeholder address, or `Nil` for none) land at
/// the dictionary pointer.
fn patch_here(vm: &mut VM, pending: Cell) -> (r: Result<(), TbxError>)
    requires
        old(vm).wf(),
    ensures
        final(vm).wf(),
        control_frame(*old(vm), *final(vm)),
        final(vm).dp == old(vm).dp,
        final(vm).compile_stack@ == old(vm).compile_stack@,
        final(vm).token_stream == old(vm).token_stream,
        final(vm).compile_state == old(vm).compile_state,
        pending is Nil ==> r is Ok && final(vm).dictionary@ == old(vm).dictionary@,
        match pending {
            Cell::DictAddr(a) => (r is Ok <==> a < old(vm).dictionary@.len()) && (r is Ok ==> final(vm).dictionary@
                == old(vm).dictionary@.update(a as int, Cell::DictAddr(old(vm).dp))),
            Cell::Nil => true,
            _ => r is Err,
        },
{
    match pending {
        Cell::Nil => Ok(()),
        Cell::DictAddr(a) => {
            let here = vm.dp;
            vm.dict_write_at(a, Cell::DictAddr(here))
        },
        other => Err(TbxError::TypeError { expected: "DictAddr", got: other.variant_name() }),
    }
}

/// Push a cell on the compile stack.
fn cs_put(vm: &mut VM, c: Cell)
    requires
        old(vm).wf(),
    ensures
        final(vm).wf(),
        control_frame(*old(vm), *final(vm)),
        final(vm).dictionary@ == old(vm).dictionary@,
        final(vm).dp == old(vm).dp,
        final(vm).token_stream == old(vm).token_stream,
        final(vm).compile_state == old(vm).compile_state,
        final(vm).compile_stack@ == old(vm).compile_stack@.push(CompileEntry::Cell(c)),
{
    vm.compile_stack.push(CompileEntry::Cell(c));
}

/// Push a scope tag on the compile stack.
fn cs_put_tag(vm: &mut VM, t: &str)
    requires
        old(vm).wf(),
    ensures
        final(vm).wf(),
        control_frame(*old(vm), *final(vm)),
        final(vm).dictionary@ == old(vm).dictionary@,
        final(vm).dp == old(vm).dp,
        final(vm).token_stream == old(vm).token_stream,
        final(vm).compile_state == old(vm).compile_state,
        final(vm).compile_stack@.len() == old(vm).compile_stack@.len() + 1,
        final(vm).compile_stack@.drop_last() == old(vm).compile_stack@,
        final(vm).compile_stack@.last() matches CompileEntry::Tag(s) && s@ == t@,
{
    let ghost cs0 = vm.compile_stack@;
    vm.compile_stack.push(CompileEntry::Tag(t.to_owned()));
    assert(vm.compile_stack@.drop_last() =~= cs0);
}

/// What `if_prim` does, from the state `pre` to the state `post` with the
/// result `r`.
pub open spec fn if_prim_outcome(pre: VM, post: VM, r: Result<(), TbxError>) -> bool {
    &&& (control_frame(pre, post))
    &&& (!pre.is_compiling ==> r == Err::<(), TbxError>(TbxError::InvalidExpression { reason: "IF outside DEF" })
            && post == pre)
    &&& (r is Ok ==> post.compile_stack@.len() == pre.compile_stack@.len() + 3 && post.compile_stack@.take(
            pre.compile_stack@.len() as int,
        ) == pre.compile_stack@ && (post.compile_stack@.last() matches CompileEntry::Tag(s) && s@ == "IF"@))
    &&& (r is Ok ==> post.compile_stack@[pre.compile_stack@.len() as int] == CompileEntry::Cell(
            Cell::DictAddr((post.dp - 1) as usize),
        ) && post.compile_stack@[pre.compile_stack@.len() as int + 1] == CompileEntry::Cell(Cell::Int(0))
            && post.dp >= pre.dp + 2 && post.dictionary@[post.dp - 2] == kind_xt(
            pre,
            SysKind::BranchIfFalse,
        ) && post.dictionary@[post.dp - 1] == Cell::DictAddr(0))
    &&& (pre.is_compiling && (stream(pre) matches Some(q) && crate::expr::flat_arith(q)) ==> (stream(pre)
            matches Some(q) && (r is Ok ==> emitted(
            pre,
            post,
            crate::expr::flat_code(pre, q) + seq![kind_xt(pre, SysKind::BranchIfFalse), Cell::DictAddr(0)],
        )) && (crate::expr::flat_words_ok(pre, q) ==> (r is Ok <==> (find_kind_in(
            pre.headers@,
            pre.headers@.len() as int,
            SysKind::BranchIfFalse,
        ) is Some && pre.dp + crate::expr::flat_code(pre, q).len() + 2 <= MAX_DICTIONARY_CELLS)))))
}

/// IF cond: start a conditional block.
pub fn if_prim(vm: &mut VM) -> (r: Result<(), TbxError>)
    requires
        old(vm).wf(),
    ensures
        final(vm).wf(),
        control_frame(*old(vm), *final(vm)),
        !old(vm).is_compiling ==> r == Err::<(), TbxError>(TbxError::InvalidExpression { reason: "IF outside DEF" })
            && *final(vm) == *old(vm),
        r is Ok ==> final(vm).compile_stack@.len() == old(vm).compile_stack@.len() + 3 && final(vm).compile_stack@.take(
            old(vm).compile_stack@.len() as int,
        ) == old(vm).compile_stack@ && (final(vm).compile_stack@.last() matches CompileEntry::Tag(s) && s@ == "IF"@),
        r is Ok ==> final(vm).compile_stack@[old(vm).compile_stack@.len() as int] == CompileEntry::Cell(
            Cell::DictAddr((final(vm).dp - 1) as usize),
        ) && final(vm).compile_stack@[old(vm).compile_stack@.len() as int + 1] == CompileEntry::Cell(Cell::Int(0))
            && final(vm).dp >= old(vm).dp + 2 && final(vm).dictionary@[final(vm).dp - 2] == kind_xt(
            *old(vm),
            SysKind::BranchIfFalse,
        ) && final(vm).dictionary@[final(vm).dp - 1] == Cell::DictAddr(0),
        old(vm).is_compiling && (stream(*old(vm)) matches Some(q) && crate::expr::flat_arith(q)) ==> (stream(*old(vm))
            matches Some(q) && (r is Ok ==> emitted(
            *old(vm),
            *final(vm),
            crate::expr::flat_code(*old(vm), q) + seq![kind_xt(*old(vm), SysKind::BranchIfFalse), Cell::DictAddr(0)],
        )) && (crate::expr::flat_words_ok(*old(vm), q) ==> (r is Ok <==> (find_kind_in(
            old(vm).headers@,
            old(vm).headers@.len() as int,
            SysKind::BranchIfFalse,
        ) is Some && old(vm).dp + crate::expr::flat_code(*old(vm), q).len() + 2 <= MAX_DICTIONARY_CELLS)))),
{
    if !vm.is_compiling {
        return Err(TbxError::InvalidExpression { reason: "IF outside DEF" });
    }
    emit_rest_expr(vm)?;
    let ghost v1 = *vm;
    let p = emit_jump_placeholder(vm, SysKind::BranchIfFalse, "BIF")?;
    let ghost v2 = *vm;
    let ghost cs0 = vm.compile_stack@;
    cs_put(vm, Cell::DictAddr(p));
    cs_put(vm, Cell::Int(0));
    cs_put_tag(vm, "IF");
    assert(vm.compile_stack@.take(cs0.len() as int) =~= cs0);
    proof {
        let tail = seq![kind_xt(v1, SysKind::BranchIfFalse), Cell::DictAddr(0)];
        assert(v2.dictionary@[v1.dp + 0] == tail[0]);
        assert(v2.dictionary@[v1.dp + 1] == tail[1]);
        let st = stream(*old(vm));
        if st is Some && crate::expr::flat_arith(st.unwrap()) {
            lemma_emitted_trans(*old(vm), v1, v2, crate::expr::flat_code(*old(vm), st.unwrap()), tail);
        }
        assert(vm.compile_stack@[cs0.len() as int] == vm.compile_stack@.drop_last().drop_last()[cs0.len() as int]);
        assert(vm.compile_stack@[cs0.len() as int + 1] == vm.compile_stack@.drop_last()[cs0.len() as int + 1]);
    }
    Ok(())
}

/// ELSIF (`cond`) or ELSE closed the current branch of the IF block of
/// `pre`: `GOTO` and its end-of-branch placeholder are written at the
/// pointer, the pending false jump of the branch (a placeholder below the
/// pointer) lands just after them, where the new branch begins, and for
/// ELSIF the new condition ends in `BIF` and a new pending placeholder.
pub open spec fn branch_opened(pre: VM, post: VM, cond: bool) -> bool {
    let cs = pre.compile_stack@;
    let n = cs.len() as int;
    &&& n >= 3
    &&& cs[n - 3] matches CompileEntry::Cell(Cell::DictAddr(p)) && (p < pre.dp ==> post.dictionary@[p as int]
        == Cell::DictAddr((pre.dp + 2) as usize) && post.dictionary@[pre.dp as int] == kind_xt(pre, SysKind::Goto)
        && post.dictionary@[pre.dp + 1] == Cell::DictAddr(0))
    &&& post.dp >= pre.dp + 2
    &&& post.dictionary@.len() >= post.dp
    &&& (forall|a: int| 0 <= a < pre.dp && cs[n - 3] != CompileEntry::Cell(Cell::DictAddr(a as usize))
        ==> #[trigger] post.dictionary@[a] == pre.dictionary@[a])
    &&& (!cond ==> post.dp == pre.dp + 2)
    &&& (cond ==> post.compile_stack@[n - 2] == CompileEntry::Cell(Cell::DictAddr((post.dp - 1) as usize))
        && post.dictionary@[post.dp - 2] == kind_xt(pre, SysKind::BranchIfFalse) && post.dictionary@[post.dp - 1]
        == Cell::DictAddr(0))
}

/// ELSIF cond / ELSE: close the current branch of an IF block and open
/// the next (a conditional one when `cond`).
fn else_branch(vm: &mut VM, cond: bool) -> (r: Result<(), TbxError>)
    requires
        old(vm).wf(),
        old(vm).is_compiling,
    ensures
        final(vm).wf(),
        control_frame(*old(vm), *final(vm)),
        r is Ok ==> ({
            let cs = old(vm).compile_stack@;
            let n = cs.len() as int;
            let f = final(vm).compile_stack@;
            &&& n >= 3
            &&& (cs[n - 1] matches CompileEntry::Tag(t) && t@ == "IF"@)
            &&& f.len() == n + 1
            &&& f.take(n - 3) == cs.take(n - 3)
            &&& f[n - 3] == CompileEntry::Cell(Cell::DictAddr((old(vm).dp + 1) as usize))
            &&& (!cond ==> f[n - 2] == CompileEntry::Cell(Cell::Nil))
            &&& (cs[n - 2] matches CompileEntry::Cell(Cell::Int(k)) && f[n - 1] == CompileEntry::Cell(
                Cell::Int(if k < i64::MAX { (k + 1) as i64 } else { i64::MAX }),
            ))
            &&& (f[n] matches CompileEntry::Tag(t) && t@ == "IF"@)
        }),
        r is Ok ==> branch_opened(*old(vm), *final(vm), cond),
{
    let ghost cs0 = vm.compile_stack@;
    let ghost n: int = cs0.len() as int;
    close_tag(vm, "IF".to_owned())?;
    let k = cs_take_count(vm)?;
    let pending = cs_take(vm)?;
    let ghost base = vm.compile_stack@;
    assert(base =~= cs0.take(n - 3));
    if let Cell::Nil = pending {
        let reason = if cond { "ELSIF after ELSE" } else { "ELSE after ELSE" };
        return Err(TbxError::InvalidExpression { reason });
    }
    let ghost v0 = *vm;
    let q = emit_jump_placeholder(vm, SysKind::Goto, "GOTO")?;
    let ghost vq = *vm;
    patch_here(vm, pending)?;
    let ghost vp = *vm;
    proof {
        assert(vq.dictionary@[v0.dp + 0] == seq![kind_xt(v0, SysKind::Goto), Cell::DictAddr(0)][0]);
        assert(vq.dictionary@[v0.dp + 1] == seq![kind_xt(v0, SysKind::Goto), Cell::DictAddr(0)][1]);
        assert(cs0[n - 3] == CompileEntry::Cell(pending));
    }
    cs_put(vm, Cell::DictAddr(q));
    let ghost b1 = vm.compile_stack@;
    assert(b1 == base.push(CompileEntry::Cell(Cell::DictAddr(q))));
    assert(q == old(vm).dp + 1);
    if cond {
        let ghost w0 = *vm;
        emit_rest_expr(vm)?;
        let ghost w1 = *vm;
        let p = emit_jump_placeholder(vm, SysKind::BranchIfFalse, "BIF")?;
        proof {
            let code = choose|code: Seq<Cell>| #[trigger] emitted(w0, w1, code);
            assert(emitted(w0, w1, code));
            assert(vm.dictionary@[w1.dp + 0] == seq![kind_xt(w1, SysKind::BranchIfFalse), Cell::DictAddr(0)][0]);
            assert(vm.dictionary@[w1.dp + 1] == seq![kind_xt(w1, SysKind::BranchIfFalse), Cell::DictAddr(0)][1]);
        }
        cs_put(vm, Cell::DictAddr(p));
        assert(vm.compile_stack@.drop_last() == b1);
    } else {
        cs_put(vm, Cell::Nil);
        assert(vm.compile_stack@ == b1.push(CompileEntry::Cell(Cell::Nil)));
    }
    let ghost b2 = vm.compile_stack@;
    assert(b2.len() == n - 1);
    let k2: i64 = if k < 0x7FFF_FFFF_FFFF_FFFFu64 { (k + 1) as i64 } else { 0x7FFF_FFFF_FFFF_FFFF };
    cs_put(vm, Cell::Int(k2));
    cs_put_tag(vm, "IF");
    proof {
        let f = vm.compile_stack@;
        let g = f.drop_last();
        assert(g == b2.push(CompileEntry::Cell(Cell::Int(k2))));
        assert(g[n - 1] == CompileEntry::Cell(Cell::Int(k2)));
        assert(f[n - 1] == g[n - 1]);
        assert(g[n - 2] == b2[n - 2]);
        assert(f[n - 2] == g[n - 2]);
        assert(b2.drop_last() == b1 ==> b2[n - 3] == b1[n - 3]);
        assert(b2[n - 3] == b1[n - 3]);
        assert(f[n - 3] == g[n - 3]);
        assert(f.take(n - 3) =~= base);
    }
    Ok(())
}

/// What `elsif_prim` does, from the state `pre` to the state `post` with the
/// result `r`.
pub open spec fn elsif_prim_outcome(pre: VM, post: VM, r: Result<(), TbxError>) -> bool {
    &&& (control_frame(pre, post))
    &&& (!pre.is_compiling ==> r == Err::<(), TbxError>(TbxError::InvalidExpression { reason: "ELSIF outside DEF" })
            && post == pre)
    &&& (r is Ok ==> branch_opened(pre, post, true))
}

/// ELSIF cond.
pub fn elsif_prim(vm: &mut VM) -> (r: Result<(), TbxError>)
    requires
        old(vm).wf(),
    ensures
        final(vm).wf(),
        control_frame(*old(vm), *final(vm)),
        !old(vm).is_compiling ==> r == Err::<(), TbxError>(TbxError::InvalidExpression { reason: "ELSIF outside DEF" })
            && *final(vm) == *old(vm),
        r is Ok ==> branch_opened(*old(vm), *final(vm), true),
{
    if !vm.is_compiling {
        return Err(TbxError::InvalidExpression { reason: "ELSIF outside DEF" });
    }
    else_branch(vm, true)
}

/// What `else_prim` does, from the state `pre` to the state `post` with the
/// result `r`.
pub open spec fn else_prim_outcome(pre: VM, post: VM, r: Result<(), TbxError>) -> bool {
    &&& (control_frame(pre, post))
    &&& (!pre.is_compiling ==> r == Err::<(), TbxError>(TbxError::InvalidExpression { reason: "ELSE outside DEF" })
            && post == pre)
    &&& (r is Ok ==> branch_opened(pre, post, false))
}

/// ELSE.
pub fn else_prim(vm: &mut VM) -> (r: Result<(), TbxError>)
    requires
        old(vm).wf(),
    ensures
        final(vm).wf(),
        control_frame(*old(vm), *final(vm)),
        !old(vm).is_compiling ==> r == Err::<(), TbxError>(TbxError::InvalidExpression { reason: "ELSE outside DEF" })
            && *final(vm) == *old(vm),
        r is Ok ==> branch_opened(*old(vm), *final(vm), false),
{
    if !vm.is_compiling {
        return Err(TbxError::InvalidExpression { reason: "ELSE outside DEF" });
    }
    else_branch(vm, false)
}

/// ELSIF and ELSE make the false jump of the branch they close land at
/// the start of the next branch: when the pending jump of the IF block
/// names a placeholder `p` below the pointer, it then holds the address
/// just past the `GOTO` and end-of-branch placeholder written at the
/// pointer, which end the closed branch.
pub proof fn law_next_branch_takes_false_jump(pre: VM, post: VM, cond: bool, p: usize)
    requires
        pre.is_compiling,
        if cond {
            elsif_prim_outcome(pre, post, Ok(()))
        } else {
            else_prim_outcome(pre, post, Ok(()))
        },
        pre.compile_stack@.len() >= 3,
        pre.compile_stack@[pre.compile_stack@.len() - 3] == CompileEntry::Cell(Cell::DictAddr(p)),
        p < pre.dp,
    ensures
        post.dictionary@[p as int] == Cell::DictAddr((pre.dp + 2) as usize),
        post.dictionary@[pre.dp as int] == kind_xt(pre, SysKind::Goto),
        post.dp >= pre.dp + 2,
{
}

/// A jump record entry after patching to `here` in `d`: no jump (`Nil`),
/// or a placeholder address inside the dictionary that now holds `here`.
pub open spec fn jump_entry_patched(d: Seq<Cell>, e: CompileEntry, here: usize) -> bool {
    match e {
        CompileEntry::Cell(Cell::Nil) => true,
        CompileEntry::Cell(Cell::DictAddr(a)) => a < d.len() && d[a as int] == Cell::DictAddr(here),
        _ => false,
    }
}

/// `d1` is the dictionary `d0` with every jump of `entries` landing at
/// `here`: each entry is a patched placeholder or no jump, and a cell that
/// changed is one of the placeholders and now holds `here`.
pub open spec fn block_patched(d0: Seq<Cell>, d1: Seq<Cell>, entries: Seq<CompileEntry>, here: usize) -> bool {
    &&& d1.len() == d0.len()
    &&& forall|i: int| 0 <= i < entries.len() ==> jump_entry_patched(d1, #[trigger] entries[i], here)
    &&& forall|a: int|
        0 <= a < d1.len() ==> #[trigger] d1[a] == d0[a] || (d1[a] == Cell::DictAddr(here) && entries.contains(
            CompileEntry::Cell(Cell::DictAddr(a as usize)),
        ))
}

proof fn lemma_block_patched_step(d0: Seq<Cell>, d1: Seq<Cell>, d2: Seq<Cell>, e: Seq<CompileEntry>, c: Cell, here: usize)
    requires
        block_patched(d0, d1, e, here),
        (c is Nil && d2 == d1) || (c matches Cell::DictAddr(a) && a < d1.len() && d2 == d1.update(
            a as int,
            Cell::DictAddr(here),
        )),
    ensures
        block_patched(d0, d2, seq![CompileEntry::Cell(c)] + e, here),
{
    let e2 = seq![CompileEntry::Cell(c)] + e;
    assert forall|i: int| 0 <= i < e2.len() implies jump_entry_patched(d2, #[trigger] e2[i], here) by {
        if i > 0 {
            assert(e2[i] == e[i - 1]);
            assert(jump_entry_patched(d1, e[i - 1], here));
        }
    }
    assert forall|a: int| 0 <= a < d2.len() implies #[trigger] d2[a] == d0[a] || (d2[a] == Cell::DictAddr(here)
        && e2.contains(CompileEntry::Cell(Cell::DictAddr(a as usize)))) by {
        if d2[a] != d1[a] {
            assert(e2[0] == CompileEntry::Cell(Cell::DictAddr(a as usize)));
        } else if d1[a] != d0[a] {
            assert(d1[a] == d0[a] || (d1[a] == Cell::DictAddr(here) && e.contains(CompileEntry::Cell(Cell::DictAddr(a as usize)))));
            let j = choose|j: int| 0 <= j < e.len() && e[j] == CompileEntry::Cell(Cell::DictAddr(a as usize));
            assert(e2[j + 1] == e[j]);
        }
    }
}

/// Patch the pending jump and `k` end jumps of a block to land here.
fn patch_block_end(vm: &mut VM, pending: Cell, k: u64) -> (r: Result<(), TbxError>)
    requires
        old(vm).wf(),
    ensures
        final(vm).wf(),
        control_frame(*old(vm), *final(vm)),
        final(vm).dp == old(vm).dp,
        final(vm).compile_state == old(vm).compile_state,
        r is Ok ==> k <= old(vm).compile_stack@.len() && final(vm).compile_stack@ == old(vm).compile_stack@.take(
            old(vm).compile_stack@.len() - k,
        ),
        r is Ok ==> block_patched(
            old(vm).dictionary@,
            final(vm).dictionary@,
            old(vm).compile_stack@.subrange(old(vm).compile_stack@.len() - k, old(vm).compile_stack@.len() as int).push(
                CompileEntry::Cell(pending),
            ),
            old(vm).dp,
        ),
{
    let ghost d0 = vm.dictionary@;
    let ghost cs = vm.compile_stack@;
    let ghost len = cs.len() as int;
    assert(block_patched(d0, d0, Seq::<CompileEntry>::empty(), old(vm).dp));
    patch_here(vm, pending)?;
    proof {
        lemma_block_patched_step(d0, d0, vm.dictionary@, Seq::<CompileEntry>::empty(), pending, old(vm).dp);
        assert(cs.subrange(len, len).push(CompileEntry::Cell(pending)) =~= seq![CompileEntry::Cell(pending)]
            + Seq::<CompileEntry>::empty());
    }
    let mut n: u64 = k;
    while n > 0
        invariant
            vm.wf(),
            control_frame(*old(vm), *vm),
            vm.dp == old(vm).dp,
            vm.compile_state == old(vm).compile_state,
            n <= k,
            k - n <= old(vm).compile_stack@.len(),
            vm.compile_stack@ == old(vm).compile_stack@.take(old(vm).compile_stack@.len() - (k - n)),
            cs == old(vm).compile_stack@,
            d0 == old(vm).dictionary@,
            len == cs.len(),
            block_patched(d0, vm.dictionary@, cs.subrange(len - (k - n), len).push(CompileEntry::Cell(pending)), old(vm).dp),
        decreases n,
    {
        let ghost cs0 = vm.compile_stack@;
        let ghost d1 = vm.dictionary@;
        let c = cs_take(vm)?;
        patch_here(vm, c)?;
        proof {
            assert(old(vm).compile_stack@.take(old(vm).compile_stack@.len() - (k - n) - 1) =~= cs0.drop_last());
            lemma_block_patched_step(d0, d1, vm.dictionary@, cs.subrange(len - (k - n), len).push(CompileEntry::Cell(pending)), c, old(vm).dp);
            assert(cs0.last() == cs[len - (k - n) - 1]);
            assert(seq![CompileEntry::Cell(c)] + cs.subrange(len - (k - n), len).push(CompileEntry::Cell(pending))
                =~= cs.subrange(len - (k - n) - 1, len).push(CompileEntry::Cell(pending)));
        }
        n = n - 1;
    }
    Ok(())
}

/// The jump record of an IF block closed at `here` in `d0` is patched in
/// `d1`: the compile stack `cs` ends with `[end jumps.., pending,
/// Int(k), Tag]`, and the `k` end jumps and the pending jump all land at
/// `here`.
pub open spec fn if_block_closed(cs: Seq<CompileEntry>, d0: Seq<Cell>, d1: Seq<Cell>, here: usize, rest: Seq<CompileEntry>) -> bool {
    let n = cs.len() as int;
    &&& n >= 3
    &&& cs[n - 2] matches CompileEntry::Cell(Cell::Int(k)) && 0 <= k && k + 3 <= n && block_patched(
        d0,
        d1,
        cs.subrange(n - 3 - k, n - 2),
        here,
    ) && rest == cs.take(n - 3 - k)
}

/// The jump record of a SELECT block closed at `here` in `d0` is patched in
/// `d1`: the compile stack `cs` ends with `[end jumps.., pending, Int(k),
/// Int(phase), Tag]`, and the `k` end jumps and the pending jump all land at
/// `here`.
pub open spec fn select_block_closed(cs: Seq<CompileEntry>, d0: Seq<Cell>, d1: Seq<Cell>, here: usize, rest: Seq<CompileEntry>) -> bool {
    let n = cs.len() as int;
    &&& n >= 4
    &&& cs[n - 3] matches CompileEntry::Cell(Cell::Int(k)) && 0 <= k && k + 4 <= n && block_patched(
        d0,
        d1,
        cs.subrange(n - 4 - k, n - 3),
        here,
    ) && rest == cs.take(n - 4 - k)
}

/// What `endif_prim` does, from the state `pre` to the state `post` with the
/// result `r`.
pub open spec fn endif_prim_outcome(pre: VM, post: VM, r: Result<(), TbxError>) -> bool {
    &&& (control_frame(pre, post))
    &&& (!pre.is_compiling ==> r == Err::<(), TbxError>(TbxError::InvalidExpression { reason: "ENDIF outside DEF" })
            && post == pre)
    &&& (pre.is_compiling && r is Ok ==> crate::primitives::cstack::close_tag_outcome(pre.compile_stack@, "IF"@, Ok(())))
    &&& (pre.is_compiling && r is Ok ==> post.dp == pre.dp && if_block_closed(
            pre.compile_stack@,
            pre.dictionary@,
            post.dictionary@,
            pre.dp,
            post.compile_stack@,
        ))
}

/// ENDIF: close an IF block.
pub fn endif_prim(vm: &mut VM) -> (r: Result<(), TbxError>)
    requires
        old(vm).wf(),
    ensures
        final(vm).wf(),
        control_frame(*old(vm), *final(vm)),
        !old(vm).is_compiling ==> r == Err::<(), TbxError>(TbxError::InvalidExpression { reason: "ENDIF outside DEF" })
            && *final(vm) == *old(vm),
        old(vm).is_compiling && r is Ok ==> crate::primitives::cstack::close_tag_outcome(old(vm).compile_stack@, "IF"@, Ok(())),
        old(vm).is_compiling && r is Ok ==> final(vm).dp == old(vm).dp && if_block_closed(
            old(vm).compile_stack@,
            old(vm).dictionary@,
            final(vm).dictionary@,
            old(vm).dp,
            final(vm).compile_stack@,
        ),
{
    if !vm.is_compiling {
        return Err(TbxError::InvalidExpression { reason: "ENDIF outside DEF" });
    }
    let ghost cs = vm.compile_stack@;
    let ghost n = cs.len() as int;
    close_tag(vm, "IF".to_owned())?;
    let k = cs_take_count(vm)?;
    let pending = cs_take(vm)?;
    let ghost c2 = vm.compile_stack@;
    let r = patch_block_end(vm, pending, k);
    proof {
        if r is Ok {
            assert(c2 =~= cs.take(n - 3));
            assert(c2.subrange(c2.len() - k, c2.len() as int).push(CompileEntry::Cell(pending)) =~= cs.subrange(
                n - 3 - k,
                n - 2,
            ));
            assert(c2.take(c2.len() - k) =~= cs.take(n - 3 - k));
        }
    }
    r
}

/// ENDIF lands every jump of an IF block just past the block: when ENDIF
/// closes a block whose record on the compile stack is `[end jumps..,
/// pending, Int(k), Tag("IF")]`, each of those jumps that names a
/// placeholder `a` (the pending conditional jump of the last IF or ELSIF
/// branch and the jump at the end of every earlier branch) then holds the
/// dictionary pointer at ENDIF, so a run in which no condition holds goes
/// on after the block; ENDIF does not move the pointer.
pub proof fn law_endif_lands_past_block(pre: VM, post: VM, j: int, a: usize)
    requires
        pre.is_compiling,
        endif_prim_outcome(pre, post, Ok(())),
        pre.compile_stack@.len() >= 3,
        pre.compile_stack@[pre.compile_stack@.len() - 2] matches CompileEntry::Cell(Cell::Int(k))
            && pre.compile_stack@.len() - 3 - k <= j <= pre.compile_stack@.len() - 3,
        pre.compile_stack@[j] == CompileEntry::Cell(Cell::DictAddr(a)),
    ensures
        a < post.dictionary@.len(),
        post.dictionary@[a as int] == Cell::DictAddr(pre.dp),
        post.dp == pre.dp,
{
    let cs = pre.compile_stack@;
    let n = cs.len() as int;
    let k = cs[n - 2]->Cell_0->Int_0;
    let e = cs.subrange(n - 3 - k, n - 2);
    assert(e[j - (n - 3 - k)] == cs[j]);
    assert(jump_entry_patched(post.dictionary@, e[j - (n - 3 - k)], pre.dp));
}

/// ENDIF changes no cell of the dictionary but the placeholders of the
/// block it closes: a cell whose content differs afterwards is named by one
/// of the block's jumps.
pub proof fn law_endif_changes_only_its_jumps(pre: VM, post: VM, b: int)
    requires
        pre.is_compiling,
        endif_prim_outcome(pre, post, Ok(())),
        0 <= b < pre.dictionary@.len(),
        post.dictionary@[b] != pre.dictionary@[b],
    ensures
        exists|j: int|
            #![trigger pre.compile_stack@[j]]
            pre.compile_stack@[pre.compile_stack@.len() - 2] matches CompileEntry::Cell(Cell::Int(k))
                && pre.compile_stack@.len() - 3 - k <= j <= pre.compile_stack@.len() - 3 && pre.compile_stack@[j]
                == CompileEntry::Cell(Cell::DictAddr(b as usize)),
{
    let cs = pre.compile_stack@;
    let n = cs.len() as int;
    let k = cs[n - 2]->Cell_0->Int_0;
    let e = cs.subrange(n - 3 - k, n - 2);
    assert(post.dictionary@[b] == pre.dictionary@[b] || (post.dictionary@[b] == Cell::DictAddr(pre.dp)
        && e.contains(CompileEntry::Cell(Cell::DictAddr(b as usize)))));
    let i = choose|i: int| 0 <= i < e.len() && e[i] == CompileEntry::Cell(Cell::DictAddr(b as usize));
    assert(cs[n - 3 - k + i] == e[i]);
}

/// An IF closed at once by ENDIF jumps, when its condition is false, to
/// just past the block: the conditional jump that IF leaves as a
/// placeholder holds the pointer at ENDIF.
pub proof fn law_if_endif_skips_block(a: VM, b: VM, c: VM)
    requires
        a.is_compiling,
        if_prim_outcome(a, b, Ok(())),
        b.is_compiling,
        endif_prim_outcome(b, c, Ok(())),
    ensures
        c.dictionary@[b.dp - 1] == Cell::DictAddr(b.dp),
        c.dp == b.dp,
{
    let n = b.compile_stack@.len() as int;
    assert(n == a.compile_stack@.len() + 3);
    law_endif_lands_past_block(b, c, n - 3, (b.dp - 1) as usize);
}

/// ENDSEL lands every jump of a SELECT block on the DROP it writes: when
/// ENDSEL closes a block whose record on the compile stack is `[end jumps..,
/// pending, Int(k), Int(phase), Tag("SELECT")]`, each of those jumps that
/// names a placeholder `a` below the pointer (the pending jump of the last
/// CASE, taken when no CASE matched, and the jump at the end of every
/// earlier case) then holds the pointer at ENDSEL, where DROP now stands,
/// so an unmatched selector goes on after the block.
pub proof fn law_endsel_lands_on_drop(pre: VM, post: VM, j: int, a: usize)
    requires
        pre.is_compiling,
        endsel_prim_outcome(pre, post, Ok(())),
        pre.compile_stack@.len() >= 4,
        pre.compile_stack@[pre.compile_stack@.len() - 3] matches CompileEntry::Cell(Cell::Int(k))
            && pre.compile_stack@.len() - 4 - k <= j <= pre.compile_stack@.len() - 4,
        pre.compile_stack@[j] == CompileEntry::Cell(Cell::DictAddr(a)),
        a < pre.dp,
    ensures
        post.dictionary@[a as int] == Cell::DictAddr(pre.dp),
        post.dictionary@[pre.dp as int] == word_xt(pre, "DROP"@),
        post.dp == pre.dp + 1,
{
    let d = choose|d: Seq<Cell>|
        #[trigger] select_block_closed(pre.compile_stack@, pre.dictionary@, d, pre.dp, post.compile_stack@) && post.dp
            == pre.dp + 1 && post.dictionary@.len() > pre.dp && post.dictionary@[pre.dp as int] == word_xt(pre, "DROP"@)
            && (forall|x: int| 0 <= x < pre.dp ==> #[trigger] post.dictionary@[x] == d[x]);
    let cs = pre.compile_stack@;
    let n = cs.len() as int;
    let k = cs[n - 3]->Cell_0->Int_0;
    let e = cs.subrange(n - 4 - k, n - 3);
    assert(e[j - (n - 4 - k)] == cs[j]);
    assert(jump_entry_patched(d, e[j - (n - 4 - k)], pre.dp));
    assert(post.dictionary@[a as int] == d[a as int]);
}

/// What `while_prim` does, from the state `pre` to the state `post` with the
/// result `r`.
pub open spec fn while_prim_outcome(pre: VM, post: VM, r: Result<(), TbxError>) -> bool {
    &&& (control_frame(pre, post))
    &&& (!pre.is_compiling ==> r == Err::<(), TbxError>(TbxError::InvalidExpression { reason: "WHILE outside DEF" })
            && post == pre)
    &&& (r is Ok ==> post.compile_stack@.len() == pre.compile_stack@.len() + 3 && post.compile_stack@.take(
            pre.compile_stack@.len() as int,
        ) == pre.compile_stack@ && post.compile_stack@[pre.compile_stack@.len() as int] == CompileEntry::Cell(
            Cell::DictAddr(pre.dp),
        ) && (post.compile_stack@.last() matches CompileEntry::Tag(s) && s@ == "WHILE"@))
    &&& (r is Ok ==> post.compile_stack@[pre.compile_stack@.len() as int + 1] == CompileEntry::Cell(
            Cell::DictAddr((post.dp - 1) as usize),
        ) && post.dp >= pre.dp + 2 && post.dictionary@[post.dp - 2] == kind_xt(
            pre,
            SysKind::BranchIfFalse,
        ) && post.dictionary@[post.dp - 1] == Cell::DictAddr(0))
    &&& (pre.is_compiling && (stream(pre) matches Some(q) && crate::expr::flat_arith(q)) ==> (stream(pre)
            matches Some(q) && (r is Ok ==> emitted(
            pre,
            post,
            crate::expr::flat_code(pre, q) + seq![kind_xt(pre, SysKind::BranchIfFalse), Cell::DictAddr(0)],
        )) && (crate::expr::flat_words_ok(pre, q) ==> (r is Ok <==> (find_kind_in(
            pre.headers@,
            pre.headers@.len() as int,
            SysKind::BranchIfFalse,
        ) is Some && pre.dp + crate::expr::flat_code(pre, q).len() + 2 <= MAX_DICTIONARY_CELLS)))))
}

/// WHILE cond: start a loop.
pub fn while_prim(vm: &mut VM) -> (r: Result<(), TbxError>)
    requires
        old(vm).wf(),
    ensures
        final(vm).wf(),
        control_frame(*old(vm), *final(vm)),
        !old(vm).is_compiling ==> r == Err::<(), TbxError>(TbxError::InvalidExpression { reason: "WHILE outside DEF" })
            && *final(vm) == *old(vm),
        r is Ok ==> final(vm).compile_stack@.len() == old(vm).compile_stack@.len() + 3 && final(vm).compile_stack@.take(
            old(vm).compile_stack@.len() as int,
        ) == old(vm).compile_stack@ && final(vm).compile_stack@[old(vm).compile_stack@.len() as int] == CompileEntry::Cell(
            Cell::DictAddr(old(vm).dp),
        ) && (final(vm).compile_stack@.last() matches CompileEntry::Tag(s) && s@ == "WHILE"@),
        r is Ok ==> final(vm).compile_stack@[old(vm).compile_stack@.len() as int + 1] == CompileEntry::Cell(
            Cell::DictAddr((final(vm).dp - 1) as usize),
        ) && final(vm).dp >= old(vm).dp + 2 && final(vm).dictionary@[final(vm).dp - 2] == kind_xt(
            *old(vm),
            SysKind::BranchIfFalse,
        ) && final(vm).dictionary@[final(vm).dp - 1] == Cell::DictAddr(0),
        old(vm).is_compiling && (stream(*old(vm)) matches Some(q) && crate::expr::flat_arith(q)) ==> (stream(*old(vm))
            matches Some(q) && (r is Ok ==> emitted(
            *old(vm),
            *final(vm),
            crate::expr::flat_code(*old(vm), q) + seq![kind_xt(*old(vm), SysKind::BranchIfFalse), Cell::DictAddr(0)],
        )) && (crate::expr::flat_words_ok(*old(vm), q) ==> (r is Ok <==> (find_kind_in(
            old(vm).headers@,
            old(vm).headers@.len() as int,
            SysKind::BranchIfFalse,
        ) is Some && old(vm).dp + crate::expr::flat_code(*old(vm), q).len() + 2 <= MAX_DICTIONARY_CELLS)))),
{
    if !vm.is_compiling {
        return Err(TbxError::InvalidExpression { reason: "WHILE outside DEF" });
    }
    let start = vm.dp;
    emit_rest_expr(vm)?;
    let ghost v1 = *vm;
    let p = emit_jump_placeholder(vm, SysKind::BranchIfFalse, "BIF")?;
    let ghost v2 = *vm;
    let ghost cs0 = vm.compile_stack@;
    cs_put(vm, Cell::DictAddr(start));
    cs_put(vm, Cell::DictAddr(p));
    cs_put_tag(vm, "WHILE");
    assert(vm.compile_stack@.take(cs0.len() as int) =~= cs0);
    assert(vm.compile_stack@[cs0.len() as int] == vm.compile_stack@.drop_last().drop_last()[cs0.len() as int]);
    proof {
        let tail = seq![kind_xt(v1, SysKind::BranchIfFalse), Cell::DictAddr(0)];
        assert(v2.dictionary@[v1.dp + 0] == tail[0]);
        assert(v2.dictionary@[v1.dp + 1] == tail[1]);
        let st = stream(*old(vm));
        if st is Some && crate::expr::flat_arith(st.unwrap()) {
            lemma_emitted_trans(*old(vm), v1, v2, crate::expr::flat_code(*old(vm), st.unwrap()), tail);
        }
        assert(vm.compile_stack@[cs0.len() as int + 1] == vm.compile_stack@.drop_last()[cs0.len() as int + 1]);
    }
    Ok(())
}

/// What `endwh_prim` does, from the state `pre` to the state `post` with the
/// result `r`.
pub open spec fn endwh_prim_outcome(pre: VM, post: VM, r: Result<(), TbxError>) -> bool {
    &&& (control_frame(pre, post))
    &&& (!pre.is_compiling ==> r == Err::<(), TbxError>(TbxError::InvalidExpression { reason: "ENDWH outside DEF" })
            && post == pre)
    &&& (pre.is_compiling && r is Ok ==> crate::primitives::cstack::close_tag_outcome(pre.compile_stack@, "WHILE"@, Ok(())))
    &&& (pre.is_compiling && r is Ok ==> endwh_closed(pre, post))
}

/// ENDWH closed the loop of `pre`, whose record on the compile stack is
/// `[start, exit, Tag]`: `GOTO start` is written at the pointer, and the
/// exit jump lands just after it.
pub open spec fn endwh_closed(pre: VM, post: VM) -> bool {
    let cs = pre.compile_stack@;
    let n = cs.len() as int;
    &&& n >= 3
    &&& cs[n - 3] is Cell
    &&& post.compile_stack@ == cs.take(n - 3)
    &&& post.dp == pre.dp + 2
    &&& jump_entry_patched(post.dictionary@, cs[n - 2], (pre.dp + 2) as usize)
    &&& post.dictionary@.len() >= post.dp
    &&& (forall|a: int| 0 <= a < pre.dp && cs[n - 2] != CompileEntry::Cell(Cell::DictAddr(a as usize))
        ==> #[trigger] post.dictionary@[a] == pre.dictionary@[a])
    &&& (cs[n - 2] is Cell && (cs[n - 2]->Cell_0 matches Cell::DictAddr(e) ==> e < pre.dp)) ==> (post.dictionary@[pre.dp as int]
        == kind_xt(pre, SysKind::Goto) && post.dictionary@[pre.dp + 1] == cs[n - 3]->Cell_0)
}

/// ENDWH: close a loop: jump back to its condition, exit lands here.
pub fn endwh_prim(vm: &mut VM) -> (r: Result<(), TbxError>)
    requires
        old(vm).wf(),
    ensures
        final(vm).wf(),
        control_frame(*old(vm), *final(vm)),
        !old(vm).is_compiling ==> r == Err::<(), TbxError>(TbxError::InvalidExpression { reason: "ENDWH outside DEF" })
            && *final(vm) == *old(vm),
        old(vm).is_compiling && r is Ok ==> crate::primitives::cstack::close_tag_outcome(old(vm).compile_stack@, "WHILE"@, Ok(())),
        old(vm).is_compiling && r is Ok ==> endwh_closed(*old(vm), *final(vm)),
{
    if !vm.is_compiling {
        return Err(TbxError::InvalidExpression { reason: "ENDWH outside DEF" });
    }
    let ghost cs = vm.compile_stack@;
    let ghost n = cs.len() as int;
    close_tag(vm, "WHILE".to_owned())?;
    let exit = cs_take(vm)?;
    let start = cs_take(vm)?;
    let g = vm.require_kind(SysKind::Goto, "GOTO")?;
    vm.dict_write(Cell::Xt(g))?;
    vm.dict_write(start)?;
    let ghost v2 = *vm;
    let r = patch_here(vm, exit);
    proof {
        if r is Ok {
            assert(vm.compile_stack@ =~= cs.take(n - 3));
            assert(Cell::Xt(g) == kind_xt(*old(vm), SysKind::Goto));
        }
    }
    r
}

/// ENDWH closes a loop: when the loop's record on the compile stack is
/// `[start, DictAddr(e), Tag("WHILE")]` with the exit placeholder `e` below
/// the pointer, ENDWH writes `GOTO start` at the pointer and the exit jump
/// then lands just after that GOTO, past the loop.
pub proof fn law_endwh_jumps_back_and_exits(pre: VM, post: VM, e: usize)
    requires
        pre.is_compiling,
        endwh_prim_outcome(pre, post, Ok(())),
        pre.compile_stack@.len() >= 3,
        pre.compile_stack@[pre.compile_stack@.len() - 2] == CompileEntry::Cell(Cell::DictAddr(e)),
        e < pre.dp,
    ensures
        post.dp == pre.dp + 2,
        post.dictionary@[pre.dp as int] == kind_xt(pre, SysKind::Goto),
        pre.compile_stack@[pre.compile_stack@.len() - 3] == CompileEntry::Cell(post.dictionary@[pre.dp + 1]),
        post.dictionary@[e as int] == Cell::DictAddr(post.dp),
{
}

/// WHILE followed by ENDWH makes a loop: the GOTO at its end goes back to
/// where the condition's code begins, and the condition's false jump lands
/// just after that GOTO.
pub proof fn law_while_endwh_loop(a: VM, b: VM, c: VM)
    requires
        a.is_compiling,
        while_prim_outcome(a, b, Ok(())),
        b.is_compiling,
        endwh_prim_outcome(b, c, Ok(())),
    ensures
        c.dp == b.dp + 2,
        c.dictionary@[b.dp as int] == kind_xt(a, SysKind::Goto),
        c.dictionary@[b.dp + 1] == Cell::DictAddr(a.dp),
        c.dictionary@[b.dp - 1] == Cell::DictAddr(c.dp),
{
    let n = b.compile_stack@.len() as int;
    assert(n == a.compile_stack@.len() + 3);
    law_endwh_jumps_back_and_exits(b, c, (b.dp - 1) as usize);
}

/// What `select_prim` does, from the state `pre` to the state `post` with the
/// result `r`.
pub open spec fn select_prim_outcome(pre: VM, post: VM, r: Result<(), TbxError>) -> bool {
    &&& (control_frame(pre, post))
    &&& (!pre.is_compiling ==> r == Err::<(), TbxError>(TbxError::InvalidExpression { reason: "SELECT outside DEF" })
            && post == pre)
    &&& (r is Ok ==> post.compile_stack@.len() == pre.compile_stack@.len() + 4
            && (post.compile_stack@.last() matches CompileEntry::Tag(s) && s@ == "SELECT"@))
    &&& (r is Ok ==> select_opened(pre, post))
}

/// SELECT opened a block: the selector's code is written at the pointer and
/// the record `[Nil, Int(0), Int(0), Tag]` (no pending jump, no end jumps,
/// no case yet) is pushed on the compile stack.
pub open spec fn select_opened(pre: VM, post: VM) -> bool {
    let cs = post.compile_stack@;
    let n = pre.compile_stack@.len() as int;
    &&& cs.take(n) == pre.compile_stack@
    &&& cs[n] == CompileEntry::Cell(Cell::Nil)
    &&& cs[n + 1] == CompileEntry::Cell(Cell::Int(0))
    &&& cs[n + 2] == CompileEntry::Cell(Cell::Int(0))
    &&& exists|code: Seq<Cell>| #[trigger] emitted(pre, post, code)
}

/// SELECT expr: start a multi-way branch on the value of `expr`.
pub fn select_prim(vm: &mut VM) -> (r: Result<(), TbxError>)
    requires
        old(vm).wf(),
    ensures
        final(vm).wf(),
        control_frame(*old(vm), *final(vm)),
        !old(vm).is_compiling ==> r == Err::<(), TbxError>(TbxError::InvalidExpression { reason: "SELECT outside DEF" })
            && *final(vm) == *old(vm),
        r is Ok ==> final(vm).compile_stack@.len() == old(vm).compile_stack@.len() + 4
            && (final(vm).compile_stack@.last() matches CompileEntry::Tag(s) && s@ == "SELECT"@),
        r is Ok ==> select_opened(*old(vm), *final(vm)),
{
    if !vm.is_compiling {
        return Err(TbxError::InvalidExpression { reason: "SELECT outside DEF" });
    }
    emit_rest_expr(vm)?;
    let ghost cs0 = vm.compile_stack@;
    let ghost v1 = *vm;
    cs_put(vm, Cell::Nil);
    cs_put(vm, Cell::Int(0));
    cs_put(vm, Cell::Int(0));
    cs_put_tag(vm, "SELECT");
    proof {
        let f = vm.compile_stack@;
        let n = cs0.len() as int;
        assert(f.drop_last() =~= cs0.push(CompileEntry::Cell(Cell::Nil)).push(CompileEntry::Cell(Cell::Int(0))).push(
            CompileEntry::Cell(Cell::Int(0)),
        ));
        assert(f[n] == f.drop_last()[n]);
        assert(f[n + 1] == f.drop_last()[n + 1]);
        assert(f[n + 2] == f.drop_last()[n + 2]);
        assert(f.take(n) =~= f.drop_last().take(n));
        let code = choose|code: Seq<Cell>| #[trigger] emitted(*old(vm), v1, code);
        assert(emitted(*old(vm), *vm, code));
        assert(cs0 == old(vm).compile_stack@);
        assert(f.take(n) =~= old(vm).compile_stack@);
        assert(select_opened(*old(vm), *vm));
    }
    Ok(())
}

/// CASE (`compared`) or CASE_ELSE opened the next case of the SELECT block
/// of `pre`, whose record ends `[pending, Int(k), Int(phase), Tag]`: after
/// a case (phase 1), `GOTO` and its end-of-case placeholder are written at
/// the pointer and the previous case's pending false jump (a placeholder
/// below the pointer) lands just after them, where the new case begins;
/// a compared case then tests the selector with `DUP value EQ` and ends in
/// `BIF` and a new pending placeholder.
pub open spec fn case_opened(pre: VM, post: VM, compared: bool) -> bool {
    let cs = pre.compile_stack@;
    let n = cs.len() as int;
    &&& n >= 4
    &&& cs[n - 2] matches CompileEntry::Cell(Cell::Int(ph)) && {
        let start = if ph == 1 { pre.dp + 2 } else { pre.dp as int };
        &&& post.dp >= start
        &&& post.dictionary@.len() >= post.dp
        &&& ((ph == 1 && (cs[n - 4] matches CompileEntry::Cell(Cell::DictAddr(p)) && p < pre.dp)) ==> (
        cs[n - 4] matches CompileEntry::Cell(Cell::DictAddr(p)) && post.dictionary@[p as int] == Cell::DictAddr(
            start as usize,
        ) && post.dictionary@[pre.dp as int] == kind_xt(pre, SysKind::Goto) && post.dictionary@[pre.dp + 1]
            == Cell::DictAddr(0)))
        &&& (forall|a: int|
            0 <= a < pre.dp && (ph != 1 || cs[n - 4] != CompileEntry::Cell(Cell::DictAddr(a as usize)))
                ==> #[trigger] post.dictionary@[a] == pre.dictionary@[a])
        &&& (!compared ==> post.dp == start)
        &&& (compared ==> post.dp >= start + 4 && post.dictionary@[start] == word_xt(pre, "DUP"@)
            && post.dictionary@[post.dp - 3] == word_xt(pre, "EQ"@) && post.dictionary@[post.dp - 2] == kind_xt(
            pre,
            SysKind::BranchIfFalse,
        ) && post.dictionary@[post.dp - 1] == Cell::DictAddr(0) && post.compile_stack@.len() >= 4
            && post.compile_stack@[post.compile_stack@.len() - 4] == CompileEntry::Cell(
            Cell::DictAddr((post.dp - 1) as usize),
        ))
    }
}

/// CASE value / CASE_ELSE: close the previous case of a SELECT block and
/// open the next (a compared one when `compared`).
fn case_branch(vm: &mut VM, compared: bool) -> (r: Result<(), TbxError>)
    requires
        old(vm).wf(),
        old(vm).is_compiling,
    ensures
        final(vm).wf(),
        control_frame(*old(vm), *final(vm)),
        r is Ok ==> ({
            let cs = old(vm).compile_stack@;
            let n = cs.len() as int;
            let f = final(vm).compile_stack@;
            &&& n >= 4
            &&& (cs[n - 1] matches CompileEntry::Tag(t) && t@ == "SELECT"@)
            &&& (cs[n - 2] matches CompileEntry::Cell(Cell::Int(ph)) && ph != 2 && (!compared ==> ph != 0)
                && f.len() == n + (if ph == 1 { 1int } else { 0int }))
            &&& f.take(n - 4) == cs.take(n - 4)
            &&& f[f.len() - 2] == CompileEntry::Cell(Cell::Int(if compared { 1 } else { 2 }))
            &&& (!compared ==> f[f.len() - 4] == CompileEntry::Cell(Cell::Nil))
            &&& (f.last() matches CompileEntry::Tag(t) && t@ == "SELECT"@)
        }),
        r is Ok ==> case_opened(*old(vm), *final(vm), compared),
{
    let ghost cs0 = vm.compile_stack@;
    let ghost n: int = cs0.len() as int;
    close_tag(vm, "SELECT".to_owned())?;
    let phase = cs_take_count(vm)?;
    let k = cs_take_count(vm)?;
    let pending = cs_take(vm)?;
    let ghost base = vm.compile_stack@;
    assert(base =~= cs0.take(n - 4));
    if phase == 2 {
        let reason = if compared { "CASE after CASE_ELSE" } else { "duplicate CASE_ELSE" };
        return Err(TbxError::InvalidExpression { reason });
    }
    if !compared && phase == 0 {
        return Err(TbxError::InvalidExpression { reason: "CASE_ELSE without CASE" });
    }
    let mut k2: u64 = k;
    let ghost v0 = *vm;
    if phase == 1 {
        let q = emit_jump_placeholder(vm, SysKind::Goto, "GOTO")?;
        let ghost vq = *vm;
        patch_here(vm, pending)?;
        proof {
            assert(vq.dictionary@[v0.dp + 0] == seq![kind_xt(v0, SysKind::Goto), Cell::DictAddr(0)][0]);
            assert(vq.dictionary@[v0.dp + 1] == seq![kind_xt(v0, SysKind::Goto), Cell::DictAddr(0)][1]);
            assert(cs0[n - 4] == CompileEntry::Cell(pending));
        }
        cs_put(vm, Cell::DictAddr(q));
        if k2 < 0x7FFF_FFFF_FFFF_FFFFu64 {
            k2 = k2 + 1;
        }
    }
    let ghost b1 = vm.compile_stack@;
    assert(b1.len() == n - 4 + (if phase == 1 { 1int } else { 0int }));
    assert(b1.take(n - 4) =~= base);
    let ghost x: Cell;
    let ghost y: Cell;
    let ghost vs = *vm;
    if compared {
        emit_named(vm, "DUP")?;
        let ghost w0 = *vm;
        emit_rest_expr(vm)?;
        let ghost w1 = *vm;
        emit_named(vm, "EQ")?;
        let ghost w2 = *vm;
        let p = emit_jump_placeholder(vm, SysKind::BranchIfFalse, "BIF")?;
        proof {
            let code = choose|code: Seq<Cell>| #[trigger] emitted(w0, w1, code);
            assert(emitted(w0, w1, code));
            assert(w0.dictionary@[vs.dp + 0] == seq![word_xt(vs, "DUP"@)][0]);
            assert(w2.dictionary@[w1.dp + 0] == seq![word_xt(w1, "EQ"@)][0]);
            assert(vm.dictionary@[w2.dp + 0] == seq![kind_xt(w2, SysKind::BranchIfFalse), Cell::DictAddr(0)][0]);
            assert(vm.dictionary@[w2.dp + 1] == seq![kind_xt(w2, SysKind::BranchIfFalse), Cell::DictAddr(0)][1]);
        }
        cs_put(vm, Cell::DictAddr(p));
        cs_put(vm, Cell::Int(k2 as i64));
        cs_put(vm, Cell::Int(1));
        proof {
            x = Cell::DictAddr(p);
            y = Cell::Int(1);
        }
    } else {
        cs_put(vm, Cell::Nil);
        cs_put(vm, Cell::Int(k2 as i64));
        cs_put(vm, Cell::Int(2));
        proof {
            x = Cell::Nil;
            y = Cell::Int(2);
        }
    }
    let ghost b2 = vm.compile_stack@;
    assert(b2 == b1.push(CompileEntry::Cell(x)).push(CompileEntry::Cell(Cell::Int(k2 as i64))).push(
        CompileEntry::Cell(y),
    ));
    cs_put_tag(vm, "SELECT");
    proof {
        let f = vm.compile_stack@;
        let m = b1.len() as int;
        assert(f.drop_last() == b2);
        assert(f[m] == b2[m]);
        assert(f[m + 2] == b2[m + 2]);
        assert(f.take(n - 4) =~= b2.take(n - 4));
        assert(b2.take(n - 4) =~= b1.take(n - 4));
    }
    Ok(())
}

/// What `case_prim` does, from the state `pre` to the state `post` with the
/// result `r`.
pub open spec fn case_prim_outcome(pre: VM, post: VM, r: Result<(), TbxError>) -> bool {
    &&& (control_frame(pre, post))
    &&& (!pre.is_compiling ==> r == Err::<(), TbxError>(TbxError::InvalidExpression { reason: "CASE outside DEF" })
            && post == pre)
    &&& (r is Ok ==> case_opened(pre, post, true))
}

/// CASE value.
pub fn case_prim(vm: &mut VM) -> (r: Result<(), TbxError>)
    requires
        old(vm).wf(),
    ensures
        final(vm).wf(),
        control_frame(*old(vm), *final(vm)),
        !old(vm).is_compiling ==> r == Err::<(), TbxError>(TbxError::InvalidExpression { reason: "CASE outside DEF" })
            && *final(vm) == *old(vm),
        r is Ok ==> case_opened(*old(vm), *final(vm), true),
{
    if !vm.is_compiling {
        return Err(TbxError::InvalidExpression { reason: "CASE outside DEF" });
    }
    case_branch(vm, true)
}

/// What `case_else_prim` does, from the state `pre` to the state `post` with the
/// result `r`.
pub open spec fn case_else_prim_outcome(pre: VM, post: VM, r: Result<(), TbxError>) -> bool {
    &&& (control_frame(pre, post))
    &&& (!pre.is_compiling ==> r == Err::<(), TbxError>(TbxError::InvalidExpression { reason: "CASE_ELSE outside DEF" })
            && post == pre)
    &&& (r is Ok ==> case_opened(pre, post, false))
}

/// CASE_ELSE.
pub fn case_else_prim(vm: &mut VM) -> (r: Result<(), TbxError>)
    requires
        old(vm).wf(),
    ensures
        final(vm).wf(),
        control_frame(*old(vm), *final(vm)),
        !old(vm).is_compiling ==> r == Err::<(), TbxError>(TbxError::InvalidExpression { reason: "CASE_ELSE outside DEF" })
            && *final(vm) == *old(vm),
        r is Ok ==> case_opened(*old(vm), *final(vm), false),
{
    if !vm.is_compiling {
        return Err(TbxError::InvalidExpression { reason: "CASE_ELSE outside DEF" });
    }
    case_branch(vm, false)
}

/// CASE and CASE_ELSE make the false jump of the case they close land at
/// the start of the next case: after a case (phase 1), when its pending
/// jump names a placeholder `p` below the pointer, it then holds the
/// address just past the `GOTO` and end-of-case placeholder written at the
/// pointer; a CASE's own test there begins with `DUP`.
pub proof fn law_next_case_takes_false_jump(pre: VM, post: VM, compared: bool, p: usize)
    requires
        pre.is_compiling,
        if compared {
            case_prim_outcome(pre, post, Ok(()))
        } else {
            case_else_prim_outcome(pre, post, Ok(()))
        },
        pre.compile_stack@.len() >= 4,
        pre.compile_stack@[pre.compile_stack@.len() - 2] == CompileEntry::Cell(Cell::Int(1)),
        pre.compile_stack@[pre.compile_stack@.len() - 4] == CompileEntry::Cell(Cell::DictAddr(p)),
        p < pre.dp,
    ensures
        post.dictionary@[p as int] == Cell::DictAddr((pre.dp + 2) as usize),
        post.dictionary@[pre.dp as int] == kind_xt(pre, SysKind::Goto),
        compared ==> post.dictionary@[pre.dp + 2] == word_xt(pre, "DUP"@),
        !compared ==> post.dp == pre.dp + 2,
{
}

/// What `endsel_prim` does, from the state `pre` to the state `post` with the
/// result `r`.
pub open spec fn endsel_prim_outcome(pre: VM, post: VM, r: Result<(), TbxError>) -> bool {
    &&& (control_frame(pre, post))
    &&& (!pre.is_compiling ==> r == Err::<(), TbxError>(TbxError::InvalidExpression { reason: "ENDSEL outside DEF" })
            && post == pre)
    &&& (pre.is_compiling && r is Ok ==> crate::primitives::cstack::close_tag_outcome(pre.compile_stack@, "SELECT"@, Ok(())))
    &&& (pre.is_compiling && r is Ok ==> endsel_closed(pre, post))
}

/// ENDSEL closed the SELECT block of `pre`: the block's jumps land at the
/// dictionary pointer of `pre`, where DROP is written.
pub open spec fn endsel_closed(pre: VM, post: VM) -> bool {
    exists|d: Seq<Cell>|
        #[trigger] select_block_closed(pre.compile_stack@, pre.dictionary@, d, pre.dp, post.compile_stack@) && post.dp
            == pre.dp + 1 && post.dictionary@.len() > pre.dp && post.dictionary@[pre.dp as int] == word_xt(pre, "DROP"@)
            && (forall|a: int| 0 <= a < pre.dp ==> #[trigger] post.dictionary@[a] == d[a])
}

/// ENDSEL: close a SELECT block and drop the selected value.
pub fn endsel_prim(vm: &mut VM) -> (r: Result<(), TbxError>)
    requires
        old(vm).wf(),
    ensures
        final(vm).wf(),
        control_frame(*old(vm), *final(vm)),
        !old(vm).is_compiling ==> r == Err::<(), TbxError>(TbxError::InvalidExpression { reason: "ENDSEL outside DEF" })
            && *final(vm) == *old(vm),
        old(vm).is_compiling && r is Ok ==> crate::primitives::cstack::close_tag_outcome(old(vm).compile_stack@, "SELECT"@, Ok(())),
        old(vm).is_compiling && r is Ok ==> endsel_closed(*old(vm), *final(vm)),
{
    if !vm.is_compiling {
        return Err(TbxError::InvalidExpression { reason: "ENDSEL outside DEF" });
    }
    let ghost cs = vm.compile_stack@;
    let ghost n = cs.len() as int;
    close_tag(vm, "SELECT".to_owned())?;
    let _phase = cs_take_count(vm)?;
    let k = cs_take_count(vm)?;
    let pending = cs_take(vm)?;
    let ghost c2 = vm.compile_stack@;
    patch_block_end(vm, pending, k)?;
    let ghost v1 = *vm;
    proof {
        assert(c2 =~= cs.take(n - 4));
        assert(c2.subrange(c2.len() - k, c2.len() as int).push(CompileEntry::Cell(pending)) =~= cs.subrange(
            n - 4 - k,
            n - 3,
        ));
        assert(c2.take(c2.len() - k) =~= cs.take(n - 4 - k));
        assert(select_block_closed(cs, old(vm).dictionary@, v1.dictionary@, old(vm).dp, v1.compile_stack@));
    }
    let r = emit_named(vm, "DROP");
    proof {
        if r is Ok {
            assert(vm.dictionary@[v1.dp + 0] == seq![word_xt(v1, "DROP"@)][0]);
            assert(select_block_closed(cs, old(vm).dictionary@, v1.dictionary@, old(vm).dp, vm.compile_stack@));
        }
    }
    r
}

/// What LET does with `LET name = expr` where `expr` is a flat
/// expression: it emits `LIT addr`, the expression's reverse Polish code
/// and SET, and succeeds when the name is a variable, the words it uses are
/// registered and the dictionary has room.
pub open spec fn let_flat_outcome(a: VM, b: VM, r: Result<(), TbxError>) -> bool {
    match stream(a) {
        Some(q) => (a.is_compiling && q.len() >= 2 && (q[1].token matches Token::Op(o) && o@ == "="@)
            && crate::expr::flat_arith(q.skip(2))) ==> match q[0].token {
            Token::Ident(id) => {
                let code = crate::expr::flat_code(a, q.skip(2));
                &&& r is Ok ==> (handle_addr(a, upper_seq(id@)) matches Some(addr) && emitted(
                    a,
                    b,
                    seq![kind_xt(a, SysKind::Lit), addr] + code + seq![word_xt(a, "SET"@)],
                ))
                &&& (handle_addr(a, upper_seq(id@)) is Some && find_kind_in(
                    a.headers@,
                    a.headers@.len() as int,
                    SysKind::Lit,
                ) is Some && crate::expr::flat_words_ok(a, q.skip(2)) && lookup_in(
                    a.headers@,
                    a.headers@.len() as int,
                    "SET"@,
                    None,
                    false,
                ) is Some && a.dp + code.len() + 3 <= MAX_DICTIONARY_CELLS) ==> r is Ok
            },
            _ => true,
        },
        None => true,
    }
}

/// What `let_prim` does, from the state `pre` to the state `post` with the
/// result `r`.
pub open spec fn let_prim_outcome(pre: VM, post: VM, r: Result<(), TbxError>) -> bool {
    &&& (control_frame(pre, post))
    &&& (!pre.is_compiling ==> r == Err::<(), TbxError>(
            TbxError::InvalidExpression { reason: "COMPILE_LVALUE outside compile mode" },
        ) && post == pre)
    &&& (let_flat_outcome(pre, post, r))
}

/// LET target = expr: store the value of `expr` in a variable or array element.
pub fn let_prim(vm: &mut VM) -> (r: Result<(), TbxError>)
    requires
        old(vm).wf(),
    ensures
        final(vm).wf(),
        control_frame(*old(vm), *final(vm)),
        !old(vm).is_compiling ==> r == Err::<(), TbxError>(
            TbxError::InvalidExpression { reason: "COMPILE_LVALUE outside compile mode" },
        ) && *final(vm) == *old(vm),
        let_flat_outcome(*old(vm), *final(vm), r),
{
    let ghost v0 = *vm;
    compile_lvalue_prim(vm)?;
    let ghost v1 = *vm;
    skip_eq_prim(vm)?;
    let ghost v2 = *vm;
    proof {
        if stream(v0) is Some && stream(v0).unwrap().len() >= 2 {
            let q = stream(v0).unwrap();
            assert(q.drop_first().drop_first() =~= q.skip(2));
            crate::expr::lemma_flat_code_headers(v0, v2, q.skip(2));
        }
    }
    emit_rest_expr(vm)?;
    let ghost v3 = *vm;
    emit_named(vm, "SET")?;
    proof {
        let q = stream(v0).unwrap();
        if v0.is_compiling && q.len() >= 2 && q[0].token is Ident && crate::expr::flat_arith(q.skip(2)) {
            let id = q[0].token->Ident_0;
            let addr = handle_addr(v0, upper_seq(id@)).unwrap();
            let head = seq![kind_xt(v0, SysKind::Lit), addr];
            let mid = crate::expr::flat_code(v0, q.skip(2));
            assert(emitted(v1, v3, mid));
            lemma_emitted_trans(v0, v1, v3, head, mid);
            lemma_emitted_trans(v0, v3, *vm, head + mid, seq![word_xt(v0, "SET"@)]);
        }
    }
    Ok(())
}

} // verus!
