//! Compile-time primitives: word definitions, locals, jumps and returns.
use vstd::prelude::*;
use crate::cell::{Cell, Xt, CompileEntry};
use crate::constants::{MAX_DICTIONARY_CELLS, VARIADIC_LOCAL_BASE};
use crate::dict::{EntryKind, WordEntry, FLAG_HIDDEN, has_flag};
use crate::error::TbxError;
use crate::text::upper_seq;
use crate::expr::{ExprCompiler, table_get};
use crate::lexer::{SpannedToken, Token, parse_label_number, last_top_level_comma, label_of, comma_scan};
use crate::vm::{
    VM, CompileState, SysKind, eq_headers, eq_control, eq_io, eq_rest, stream, local_lookup,
    find_kind_in, lookup_in,
};

verus! {

/// The runtime part of the VM (data and return stacks, frame registers,
/// input and output, arrays) is the same.
pub open spec fn same_runtime(a: VM, b: VM) -> bool {
    &&& a.data_stack@ == b.data_stack@
    &&& eq_control(a, b)
    &&& eq_io(a, b)
    &&& a.arrays@ == b.arrays@
    &&& a.sys_headers == b.sys_headers
    &&& a.lib_headers == b.lib_headers
}

/// The slot that the next local of a definition gets.
pub open spec fn next_local_slot(s: CompileState) -> int {
    if s.is_variadic {
        VARIADIC_LOCAL_BASE + s.local_count
    } else {
        s.arity + s.local_count
    }
}

/// Compile `tokens` with the local table and self reference of the open
/// definition (if any). The VM is left as it was.
pub fn compile_tokens(vm: &mut VM, tokens: &[SpannedToken]) -> (r: Result<(Vec<Cell>, Vec<usize>), TbxError>)
    requires
        old(vm).wf(),
    ensures
        *final(vm) == *old(vm),
        r matches Ok((cells, offs)) ==> crate::expr::code_ok(cells@, offs@, old(vm).headers@.len()),
        tokens@.len() == 0 ==> (r matches Ok((cells, offs)) && cells@.len() == 0 && offs@.len() == 0),
        r matches Ok((cells, offs)) ==> (crate::expr::one_expression(tokens@) ==> crate::expr::in_order(
            crate::expr::int_lits(tokens@),
            cells@,
        )),
        crate::expr::flat_arith(tokens@) ==> (r matches Ok((cells, offs)) ==> cells@ == crate::expr::flat_code(
            *old(vm),
            tokens@,
        )),
        crate::expr::flat_arith(tokens@) && crate::expr::flat_words_ok(*old(vm), tokens@) ==> r is Ok,
{
    match vm.compile_state.take() {
        None => {
            let mut c = ExprCompiler::new();
            let res = c.compile_expr(vm, tokens);
            match res {
                Ok(cells) => Ok((cells, c.patch_offsets)),
                Err(e) => Err(e),
            }
        },
        Some(mut st) => {
            let mut lt: Vec<(String, usize)> = Vec::new();
            std::mem::swap(&mut lt, &mut st.local_table);
            let ghost lt0 = lt;
            let name = st.word_name.clone();
            let mut c = ExprCompiler::with_context(Some(lt), Some(name), Some(st.hdr_len_at_def));
            proof {
                crate::expr::lemma_flat_code_headers(*old(vm), *vm, tokens@);
            }
            let res = c.compile_expr(vm, tokens);
            let offs = c.patch_offsets;
            match c.local_table {
                Some(t) => {
                    st.local_table = t;
                },
                None => {},
            }
            vm.compile_state = Some(st);
            match res {
                Ok(cells) => Ok((cells, offs)),
                Err(e) => Err(e),
            }
        },
    }
}


/// What `emit_cells` leaves in the definition state: the same, with the
/// placeholder offsets shifted by `base` added to the self-call patch list.
pub open spec fn state_after_emit(a: Option<CompileState>, b: Option<CompileState>, base: int, offs: Seq<usize>) -> bool {
    match (a, b) {
        (Some(x), Some(y)) => y == (CompileState { call_patch_list: y.call_patch_list, ..x }) && y.call_patch_list@
            == x.call_patch_list@ + Seq::new(offs.len(), |k: int| (base + offs[k]) as usize),
        (None, None) => true,
        _ => false,
    }
}

/// The definition state is the same but for the self-call patch list.
pub open spec fn same_but_patches(a: Option<CompileState>, b: Option<CompileState>) -> bool {
    match (a, b) {
        (Some(x), Some(y)) => y == (CompileState { call_patch_list: y.call_patch_list, ..x }),
        (None, None) => true,
        _ => false,
    }
}

/// Write compiled cells at the dictionary pointer and register their
/// self-call placeholders with the open definition.
pub fn emit_cells(vm: &mut VM, cells: Vec<Cell>, offs: Vec<usize>) -> (r: Result<(), TbxError>)
    requires
        old(vm).wf(),
        forall|k: int| 0 <= k < offs@.len() ==> #[trigger] offs@[k] < cells@.len(),
    ensures
        final(vm).wf(),
        same_runtime(*old(vm), *final(vm)),
        eq_headers(*old(vm), *final(vm)),
        final(vm).is_compiling == old(vm).is_compiling,
        final(vm).compile_stack@ == old(vm).compile_stack@,
        final(vm).token_stream == old(vm).token_stream,
        final(vm).pending_use_path == old(vm).pending_use_path,
        r is Ok <==> old(vm).dp + cells@.len() <= MAX_DICTIONARY_CELLS,
        r is Ok ==> final(vm).dp == old(vm).dp + cells@.len() && final(vm).dictionary@.len() >= final(vm).dp
            && (forall|k: int| 0 <= k < cells@.len() ==> #[trigger] final(vm).dictionary@[old(vm).dp + k] == cells@[k])
            && (forall|k: int| 0 <= k < old(vm).dp ==> #[trigger] final(vm).dictionary@[k] == old(vm).dictionary@[k])
            && state_after_emit(old(vm).compile_state, final(vm).compile_state, old(vm).dp as int, offs@),
        r is Err ==> *final(vm) == *old(vm),
{
    let base = vm.dp;
    if cells.len() > MAX_DICTIONARY_CELLS - base {
        return Err(TbxError::DictionaryOverflow { requested: MAX_DICTIONARY_CELLS + 1, limit: MAX_DICTIONARY_CELLS });
    }
    let mut i: usize = 0;
    while i < cells.len()
        invariant
            vm.wf(),
            i <= cells@.len(),
            base + cells@.len() <= MAX_DICTIONARY_CELLS,
            vm.dp == base + i,
            vm.dictionary@.len() >= vm.dp,
            base == old(vm).dp,
            forall|k: int| 0 <= k < i ==> #[trigger] vm.dictionary@[base + k] == cells@[k],
            forall|k: int| 0 <= k < base ==> #[trigger] vm.dictionary@[k] == old(vm).dictionary@[k],
            same_runtime(*old(vm), *vm),
            eq_headers(*old(vm), *vm),
            vm.is_compiling == old(vm).is_compiling,
            vm.compile_state == old(vm).compile_state,
            vm.compile_stack@ == old(vm).compile_stack@,
            vm.token_stream == old(vm).token_stream,
            vm.pending_use_path == old(vm).pending_use_path,
        decreases cells@.len() - i,
    {
        let c = cells[i].dup();
        let _ = vm.dict_write(c);
        i = i + 1;
    }
    match vm.compile_state.take() {
        Some(mut st) => {
            let ghost st0 = st;
            let ghost cpl0 = st.call_patch_list@;
            let mut j: usize = 0;
            while j < offs.len()
                invariant
                    j <= offs@.len(),
                    forall|k: int| 0 <= k < offs@.len() ==> #[trigger] offs@[k] < cells@.len(),
                    base + cells@.len() <= MAX_DICTIONARY_CELLS,
                    st == (CompileState { call_patch_list: st.call_patch_list, ..st0 }),
                    st.call_patch_list@ == cpl0 + Seq::new(j as nat, |k: int| (base + offs@[k]) as usize),
                decreases offs@.len() - j,
            {
                let v = base + offs[j];
                st.call_patch_list.push(v);
                assert(st.call_patch_list@ =~= cpl0 + Seq::new(j as nat + 1, |k: int| (base + offs@[k]) as usize));
                j = j + 1;
            }
            vm.compile_state = Some(st);
        },
        None => {},
    }
    Ok(())
}


/// States of the parameter-list parser of DEF.
#[derive(Debug, Clone, Copy, PartialEq, Eq)]
pub enum ParamState {
    /// After the word name: `(` or end of statement.
    LParenOrEnd,
    /// Right after `(`: a name, `...` or `)`.
    FirstParamOrEnd,
    /// After a name: `,` or `)`.
    CommaOrRParen,
    /// After `,`: a name or `...`.
    NextParam,
    /// After `...`: only `)`.
    AfterEllipsis,
}

/// Parameter tables as DEF builds them: parameter `i` has slot `i`.
pub open spec fn params_table_ok(t: Seq<(String, usize)>) -> bool {
    forall|i: int| 0 <= i < t.len() ==> (#[trigger] t[i]).1 == i
}

/// The parameter list of DEF, read from position `i` of `q` in parser
/// state `st` with the names `names` (upper-cased) read so far: the error,
/// or the names, whether the list ends in `...`, and the position after it.
pub open spec fn param_scan(
    q: Seq<SpannedToken>,
    i: int,
    st: ParamState,
    names: Seq<Seq<char>>,
    variadic: bool,
) -> Result<(Seq<Seq<char>>, bool, int), TbxError>
    decreases q.len() - i,
{
    if i < 0 || i >= q.len() {
        match st {
            ParamState::LParenOrEnd => Ok((names, variadic, i)),
            _ => Err(TbxError::InvalidExpression { reason: "unclosed '(' in parameter list" }),
        }
    } else {
        let t = q[i].token;
        match st {
            ParamState::LParenOrEnd => match t {
                Token::LParen => param_scan(q, i + 1, ParamState::FirstParamOrEnd, names, variadic),
                _ => Err(TbxError::InvalidExpression { reason: "expected '(' or end of line after word name in DEF" }),
            },
            ParamState::FirstParamOrEnd => match t {
                Token::RParen => Ok((names, variadic, i + 1)),
                Token::Ident(p) => if names.len() >= usize::MAX {
                    Err(TbxError::InvalidExpression { reason: "too many parameters" })
                } else {
                    param_scan(q, i + 1, ParamState::CommaOrRParen, names.push(upper_seq(p@)), variadic)
                },
                Token::Ellipsis => param_scan(q, i + 1, ParamState::AfterEllipsis, names, true),
                _ => Err(TbxError::InvalidExpression { reason: "expected identifier, '...', or ')' after '('" }),
            },
            ParamState::CommaOrRParen => match t {
                Token::RParen => Ok((names, variadic, i + 1)),
                Token::Comma => param_scan(q, i + 1, ParamState::NextParam, names, variadic),
                _ => Err(TbxError::InvalidExpression { reason: "expected ',' or ')' after parameter name" }),
            },
            ParamState::NextParam => match t {
                Token::Ident(p) => if names.contains(upper_seq(p@)) {
                    Err(TbxError::InvalidExpression { reason: "duplicate parameter name in parameter list" })
                } else if names.len() >= usize::MAX {
                    Err(TbxError::InvalidExpression { reason: "too many parameters" })
                } else {
                    param_scan(q, i + 1, ParamState::CommaOrRParen, names.push(upper_seq(p@)), variadic)
                },
                Token::Ellipsis => param_scan(q, i + 1, ParamState::AfterEllipsis, names, true),
                Token::RParen => Err(TbxError::InvalidExpression { reason: "trailing comma before ')' is not allowed" }),
                _ => Err(
                    TbxError::InvalidExpression { reason: "expected identifier or '...' after ',' in parameter list" },
                ),
            },
            ParamState::AfterEllipsis => match t {
                Token::RParen => Ok((names, variadic, i + 1)),
                _ => Err(TbxError::InvalidExpression { reason: "expected ')' after '...' in parameter list" }),
            },
        }
    }
}

/// The parameter list of DEF at the front of `q`.
pub open spec fn def_params(q: Seq<SpannedToken>) -> Result<(Seq<Seq<char>>, bool, int), TbxError> {
    param_scan(q, 0, ParamState::LParenOrEnd, Seq::empty(), false)
}

/// A parameter table holds `names` in order, parameter `i` in slot `i`.
pub open spec fn table_names(t: Seq<(String, usize)>, names: Seq<Seq<char>>) -> bool {
    &&& t.len() == names.len()
    &&& forall|i: int| 0 <= i < t.len() ==> (#[trigger] t[i]).0@ == names[i] && t[i].1 == i
}

proof fn lemma_table_names_lookup(t: Seq<(String, usize)>, names: Seq<Seq<char>>, x: Seq<char>)
    requires
        table_names(t, names),
    ensures
        local_lookup(t, x) is Some <==> names.contains(x),
    decreases t.len(),
{
    if t.len() > 0 {
        let t2 = t.drop_last();
        let n2 = names.drop_last();
        assert(table_names(t2, n2)) by {
            assert forall|i: int| 0 <= i < t2.len() implies (#[trigger] t2[i]).0@ == n2[i] && t2[i].1 == i by {
                assert(t2[i] == t[i]);
            }
        }
        lemma_table_names_lookup(t2, n2, x);
        assert(names =~= n2.push(names.last()));
        if names.contains(x) && !n2.contains(x) {
            let k = choose|k: int| 0 <= k < names.len() && names[k] == x;
            if k < n2.len() {
                assert(n2[k] == x);
            }
        }
        if n2.contains(x) {
            let k = choose|k: int| 0 <= k < n2.len() && n2[k] == x;
            assert(names[k] == x);
        }
    }
}

/// What `def_prim` does, from the state `pre` to the state `post` with the
/// result `r`.
pub open spec fn def_prim_outcome(pre: VM, post: VM, r: Result<(), TbxError>) -> bool {
    &&& (same_runtime(pre, post))
    &&& (post.dictionary@ == pre.dictionary@)
    &&& (post.dp == pre.dp)
    &&& (post.compile_stack@ == pre.compile_stack@)
    &&& (pre.is_compiling ==> r == Err::<(), TbxError>(TbxError::InvalidExpression { reason: "nested DEF is not allowed" })
            && post == pre)
    &&& (!pre.is_compiling ==> (stream(pre) matches Some(q) ==> (q.len() > 0 && q[0].token is Ident ==> (def_params(
            q.drop_first(),
        ) matches Err(e) ==> r == Err::<(), TbxError>(e)))))
    &&& (!pre.is_compiling ==> (stream(pre) matches Some(q) ==> (q.len() > 0 && q[0].token is Ident && def_params(
            q.drop_first(),
        ) is Ok && pre.headers@.len() < crate::vm::MAX_HEADERS ==> r is Ok)))
    &&& (!pre.is_compiling && !(stream(pre) matches Some(q) && q.len() > 0 && q[0].token is Ident) ==> r is Err)
    &&& (r is Ok ==> post.is_compiling && (post.compile_state matches Some(st) && st.dp_at_def == pre.dp
            && st.hdr_len_at_def == pre.headers@.len() && st.saved_latest == pre.latest
            && st.local_count == 0 && st.local_table@.len() == st.arity && params_table_ok(st.local_table@)
            && st.label_table@.len() == 0 && st.patch_list@.len() == 0 && st.call_patch_list@.len() == 0
            && post.headers@.len() == pre.headers@.len() + 1
            && post.headers@.take(pre.headers@.len() as int) == pre.headers@
            && post.headers@.last().name@ == st.word_name@
            && post.headers@.last().kind == EntryKind::Word(pre.dp)
            && has_flag(post.headers@.last().flags, FLAG_HIDDEN) && (stream(pre) matches Some(q)
            && q.len() > 0 && st.word_name@ == ident_at(q, 0) && (def_params(q.drop_first()) matches Ok(
            (names, variadic, end),
        ) && table_names(st.local_table@, names) && st.is_variadic == variadic && stream(post) == Some(
            q.drop_first().skip(end),
        )))))
    &&& (r is Err && !pre.is_compiling ==> eq_headers(pre, post) && !post.is_compiling
            && post.compile_state == pre.compile_state)
}

/// DEF name(params): open the definition of `name`. The word gets a hidden
/// header at the dictionary pointer, which END reveals.
pub fn def_prim(vm: &mut VM) -> (r: Result<(), TbxError>)
    requires
        old(vm).wf(),
    ensures
        final(vm).wf(),
        same_runtime(*old(vm), *final(vm)),
        final(vm).dictionary@ == old(vm).dictionary@,
        final(vm).dp == old(vm).dp,
        final(vm).compile_stack@ == old(vm).compile_stack@,
        old(vm).is_compiling ==> r == Err::<(), TbxError>(TbxError::InvalidExpression { reason: "nested DEF is not allowed" })
            && *final(vm) == *old(vm),
        !old(vm).is_compiling ==> (stream(*old(vm)) matches Some(q) ==> (q.len() > 0 && q[0].token is Ident ==> (def_params(
            q.drop_first(),
        ) matches Err(e) ==> r == Err::<(), TbxError>(e)))),
        !old(vm).is_compiling ==> (stream(*old(vm)) matches Some(q) ==> (q.len() > 0 && q[0].token is Ident && def_params(
            q.drop_first(),
        ) is Ok && old(vm).headers@.len() < crate::vm::MAX_HEADERS ==> r is Ok)),
        !old(vm).is_compiling && !(stream(*old(vm)) matches Some(q) && q.len() > 0 && q[0].token is Ident) ==> r is Err,
        r is Ok ==> final(vm).is_compiling && (final(vm).compile_state matches Some(st) && st.dp_at_def == old(vm).dp
            && st.hdr_len_at_def == old(vm).headers@.len() && st.saved_latest == old(vm).latest
            && st.local_count == 0 && st.local_table@.len() == st.arity && params_table_ok(st.local_table@)
            && st.label_table@.len() == 0 && st.patch_list@.len() == 0 && st.call_patch_list@.len() == 0
            && final(vm).headers@.len() == old(vm).headers@.len() + 1
            && final(vm).headers@.take(old(vm).headers@.len() as int) == old(vm).headers@
            && final(vm).headers@.last().name@ == st.word_name@
            && final(vm).headers@.last().kind == EntryKind::Word(old(vm).dp)
            && has_flag(final(vm).headers@.last().flags, FLAG_HIDDEN) && (stream(*old(vm)) matches Some(q)
            && q.len() > 0 && st.word_name@ == ident_at(q, 0) && (def_params(q.drop_first()) matches Ok(
            (names, variadic, end),
        ) && table_names(st.local_table@, names) && st.is_variadic == variadic && stream(*final(vm)) == Some(
            q.drop_first().skip(end),
        )))),
        r is Err && !old(vm).is_compiling ==> eq_headers(*old(vm), *final(vm)) && !final(vm).is_compiling
            && final(vm).compile_state == old(vm).compile_state,
{
    if vm.is_compiling {
        return Err(TbxError::InvalidExpression { reason: "nested DEF is not allowed" });
    }
    let name = vm.expect_ident("expected word name after DEF")?;
    let ghost q1: Seq<SpannedToken> = stream(*old(vm)).unwrap().drop_first();
    let ghost mut i: int = 0;
    let ghost mut names: Seq<Seq<char>> = Seq::empty();
    let mut table: Vec<(String, usize)> = Vec::new();
    let mut arity: usize = 0;
    let mut variadic = false;
    let mut state = ParamState::LParenOrEnd;
    loop
        invariant_except_break
            param_scan(q1, i, state, names, variadic) == def_params(q1),
        invariant
            vm.wf(),
            !vm.is_compiling,
            !old(vm).is_compiling,
            same_runtime(*old(vm), *vm),
            eq_headers(*old(vm), *vm),
            vm.dictionary@ == old(vm).dictionary@,
            vm.dp == old(vm).dp,
            vm.compile_state == old(vm).compile_state,
            vm.compile_stack@ == old(vm).compile_stack@,
            vm.pending_use_path == old(vm).pending_use_path,
            stream(*old(vm)) matches Some(q) && q.len() > 0 && q1 == q.drop_first(),
            0 <= i <= q1.len(),
            stream(*vm) == Some(q1.skip(i)),
            table_names(table@, names),
            table@.len() == arity,
            params_table_ok(table@),
        ensures
            def_params(q1) == Ok::<(Seq<Seq<char>>, bool, int), TbxError>((names, variadic, i)),
        decreases q1.len() - i,
    {
        proof {
            if i < q1.len() {
                assert(q1.skip(i)[0] == q1[i]);
                assert(q1.skip(i).drop_first() =~= q1.skip(i + 1));
            }
        }
        let t = match vm.next_token() {
            Ok(t) => t,
            Err(TbxError::TokenStreamEmpty) => {
                if matches!(state, ParamState::LParenOrEnd) {
                    break ;
                }
                return Err(TbxError::InvalidExpression { reason: "unclosed '(' in parameter list" });
            },
            Err(e) => {
                return Err(e);
            },
        };
        match state {
            ParamState::LParenOrEnd => match t.token {
                Token::LParen => {
                    state = ParamState::FirstParamOrEnd;
                },
                _ => {
                    return Err(
                        TbxError::InvalidExpression { reason: "expected '(' or end of line after word name in DEF" },
                    );
                },
            },
            ParamState::FirstParamOrEnd => match t.token {
                Token::RParen => {
                    proof {
                        i = i + 1;
                    }
                    break ;
                },
                Token::Ident(p) => {
                    let up = crate::text::upper_string(p.as_str());
                    if arity == usize::MAX {
                        return Err(TbxError::InvalidExpression { reason: "too many parameters" });
                    }
                    let ghost t0 = table@;
                    table.push((up, arity));
                    proof {
                        names = names.push(up@);
                        assert forall|k: int| 0 <= k < table@.len() implies (#[trigger] table@[k]).0@ == names[k]
                            && table@[k].1 == k by {
                            if k < t0.len() {
                                assert(table@[k] == t0[k]);
                            }
                        }
                    }
                    arity = arity + 1;
                    state = ParamState::CommaOrRParen;
                },
                Token::Ellipsis => {
                    variadic = true;
                    state = ParamState::AfterEllipsis;
                },
                _ => {
                    return Err(TbxError::InvalidExpression { reason: "expected identifier, '...', or ')' after '('" });
                },
            },
            ParamState::CommaOrRParen => match t.token {
                Token::RParen => {
                    proof {
                        i = i + 1;
                    }
                    break ;
                },
                Token::Comma => {
                    state = ParamState::NextParam;
                },
                _ => {
                    return Err(TbxError::InvalidExpression { reason: "expected ',' or ')' after parameter name" });
                },
            },
            ParamState::NextParam => match t.token {
                Token::Ident(p) => {
                    let up = crate::text::upper_string(p.as_str());
                    proof {
                        lemma_table_names_lookup(table@, names, up@);
                    }
                    if table_get(&table, &up).is_some() {
                        return Err(
                            TbxError::InvalidExpression { reason: "duplicate parameter name in parameter list" },
                        );
                    }
                    if arity == usize::MAX {
                        return Err(TbxError::InvalidExpression { reason: "too many parameters" });
                    }
                    let ghost t0 = table@;
                    table.push((up, arity));
                    proof {
                        names = names.push(up@);
                        assert forall|k: int| 0 <= k < table@.len() implies (#[trigger] table@[k]).0@ == names[k]
                            && table@[k].1 == k by {
                            if k < t0.len() {
                                assert(table@[k] == t0[k]);
                            }
                        }
                    }
                    arity = arity + 1;
                    state = ParamState::CommaOrRParen;
                },
                Token::Ellipsis => {
                    variadic = true;
                    state = ParamState::AfterEllipsis;
                },
                Token::RParen => {
                    return Err(TbxError::InvalidExpression { reason: "trailing comma before ')' is not allowed" });
                },
                _ => {
                    return Err(
                        TbxError::InvalidExpression { reason: "expected identifier or '...' after ',' in parameter list" },
                    );
                },
            },
            ParamState::AfterEllipsis => match t.token {
                Token::RParen => {
                    proof {
                        i = i + 1;
                    }
                    break ;
                },
                _ => {
                    return Err(TbxError::InvalidExpression { reason: "expected ')' after '...' in parameter list" });
                },
            },
        }
        proof {
            i = i + 1;
        }
    }
    let dp_at_def = vm.dp;
    let hdr_len = vm.headers.len();
    let saved_latest = vm.latest;
    let entry = WordEntry::new_word(name.as_str(), dp_at_def);
    vm.register(entry)?;
    let mut h = vm.headers[hdr_len].dup();
    let f0: u8 = h.flags;
    let f1: u8 = f0 | FLAG_HIDDEN;
    assert(f1 & 2u8 != 0) by (bit_vector)
        requires
            f1 == f0 | 2u8,
    ;
    h.flags = f1;
    vm.headers.set(hdr_len, h);
    vm.is_compiling = true;
    vm.compile_state = Some(CompileState::new_for_def(name, dp_at_def, hdr_len, saved_latest, table, arity, variadic));
    assert(vm.headers@.take(hdr_len as int) =~= old(vm).headers@);
    Ok(())
}


/// A count as an `Int` cell value (saturated at `i64::MAX`).
pub open spec fn count_value(n: usize) -> i64 {
    if n <= i64::MAX { n as i64 } else { i64::MAX }
}

/// What `end_prim` does, from the state `pre` to the state `post` with the
/// result `r`.
pub open spec fn end_prim_outcome(pre: VM, post: VM, r: Result<(), TbxError>) -> bool {
    &&& (same_runtime(pre, post))
    &&& (!pre.is_compiling ==> r == Err::<(), TbxError>(TbxError::InvalidExpression { reason: "END outside DEF" })
            && post == pre)
    &&& (pre.is_compiling && pre.compile_stack@.len() > 0 ==> r == Err::<(), TbxError>(
            TbxError::CompileStackNotEmpty { count: pre.compile_stack@.len() as usize },
        ) && post.compile_state is None && !post.is_compiling && post.compile_stack@.len() == 0)
    &&& (r is Ok ==> !post.is_compiling && post.compile_state is None && post.compile_stack@.len() == 0
            && (pre.compile_state matches Some(st) && st.patch_list@.len() == 0
            && post.dp == pre.dp + 1 && post.headers@.len() == pre.headers@.len()
            && post.latest == pre.latest
            && (forall|i: int| 0 <= i < post.headers@.len() && i != st.hdr_len_at_def ==> #[trigger] post.headers@[i]
                == pre.headers@[i])
            && post.headers@[st.hdr_len_at_def as int].arity == st.arity
            && post.headers@[st.hdr_len_at_def as int].local_count == st.local_count
            && post.headers@[st.hdr_len_at_def as int].is_variadic == st.is_variadic
            && post.headers@[st.hdr_len_at_def as int].kind == pre.headers@[st.hdr_len_at_def as int].kind
            && post.headers@[st.hdr_len_at_def as int].name == pre.headers@[st.hdr_len_at_def as int].name
            && !has_flag(post.headers@[st.hdr_len_at_def as int].flags, FLAG_HIDDEN)
            && (find_kind_in(pre.headers@, pre.headers@.len() as int, SysKind::Exit) matches Some(x)
            && post.dictionary@[pre.dp as int] == Cell::Xt(Xt(x)))
            && (forall|j: int| 0 <= j < st.call_patch_list@.len() ==> post.dictionary@[
                #[trigger] st.call_patch_list@[j] as int] == Cell::Int(count_value(st.local_count)))))
    &&& (r is Err ==> !post.is_compiling || post == pre || post.compile_state == pre.compile_state)
    &&& (pre.is_compiling && pre.compile_stack@.len() == 0 && find_kind_in(
            pre.headers@,
            pre.headers@.len() as int,
            SysKind::Exit,
        ) is None ==> (r matches Err(TbxError::UndefinedSymbol { name: nm }) && nm@ == "EXIT"@))
    &&& (pre.is_compiling && pre.compile_stack@.len() == 0 && find_kind_in(
            pre.headers@,
            pre.headers@.len() as int,
            SysKind::Exit,
        ) is Some && pre.dp < MAX_DICTIONARY_CELLS && (pre.compile_state matches Some(st)
            && st.patch_list@.len() > 0) ==> r == Err::<(), TbxError>(
            TbxError::UndefinedLabel { label: pre.compile_state.unwrap().patch_list@[0].0 },
        ) && post.compile_state is None && !post.is_compiling && post.dp
            == pre.compile_state.unwrap().dp_at_def && post.headers@ == pre.headers@.take(
            pre.compile_state.unwrap().hdr_len_at_def as int,
        ))
    &&& (pre.is_compiling && pre.compile_stack@.len() == 0 && find_kind_in(
            pre.headers@,
            pre.headers@.len() as int,
            SysKind::Exit,
        ) is Some && pre.dp < MAX_DICTIONARY_CELLS && (pre.compile_state matches Some(st)
            && st.patch_list@.len() == 0 && (forall|j: int|
            0 <= j < st.call_patch_list@.len() ==> #[trigger] st.call_patch_list@[j] < pre.dp)) ==> r is Ok)
}

/// END: close the open definition. The word gets its final arity, local
/// count and variadic flag, becomes visible, and its body ends with EXIT;
/// self-recursive calls get the final local count.
pub fn end_prim(vm: &mut VM) -> (r: Result<(), TbxError>)
    requires
        old(vm).wf(),
    ensures
        final(vm).wf(),
        same_runtime(*old(vm), *final(vm)),
        !old(vm).is_compiling ==> r == Err::<(), TbxError>(TbxError::InvalidExpression { reason: "END outside DEF" })
            && *final(vm) == *old(vm),
        old(vm).is_compiling && old(vm).compile_stack@.len() > 0 ==> r == Err::<(), TbxError>(
            TbxError::CompileStackNotEmpty { count: old(vm).compile_stack@.len() as usize },
        ) && final(vm).compile_state is None && !final(vm).is_compiling && final(vm).compile_stack@.len() == 0,
        r is Ok ==> !final(vm).is_compiling && final(vm).compile_state is None && final(vm).compile_stack@.len() == 0
            && (old(vm).compile_state matches Some(st) && st.patch_list@.len() == 0
            && final(vm).dp == old(vm).dp + 1 && final(vm).headers@.len() == old(vm).headers@.len()
            && final(vm).latest == old(vm).latest
            && (forall|i: int| 0 <= i < final(vm).headers@.len() && i != st.hdr_len_at_def ==> #[trigger] final(vm).headers@[i]
                == old(vm).headers@[i])
            && final(vm).headers@[st.hdr_len_at_def as int].arity == st.arity
            && final(vm).headers@[st.hdr_len_at_def as int].local_count == st.local_count
            && final(vm).headers@[st.hdr_len_at_def as int].is_variadic == st.is_variadic
            && final(vm).headers@[st.hdr_len_at_def as int].kind == old(vm).headers@[st.hdr_len_at_def as int].kind
            && final(vm).headers@[st.hdr_len_at_def as int].name == old(vm).headers@[st.hdr_len_at_def as int].name
            && !has_flag(final(vm).headers@[st.hdr_len_at_def as int].flags, FLAG_HIDDEN)
            && (find_kind_in(old(vm).headers@, old(vm).headers@.len() as int, SysKind::Exit) matches Some(x)
            && final(vm).dictionary@[old(vm).dp as int] == Cell::Xt(Xt(x)))
            && (forall|j: int| 0 <= j < st.call_patch_list@.len() ==> final(vm).dictionary@[
                #[trigger] st.call_patch_list@[j] as int] == Cell::Int(count_value(st.local_count)))),
        r is Err ==> !final(vm).is_compiling || *final(vm) == *old(vm) || final(vm).compile_state == old(vm).compile_state,
        old(vm).is_compiling && old(vm).compile_stack@.len() == 0 && find_kind_in(
            old(vm).headers@,
            old(vm).headers@.len() as int,
            SysKind::Exit,
        ) is None ==> (r matches Err(TbxError::UndefinedSymbol { name: nm }) && nm@ == "EXIT"@),
        old(vm).is_compiling && old(vm).compile_stack@.len() == 0 && find_kind_in(
            old(vm).headers@,
            old(vm).headers@.len() as int,
            SysKind::Exit,
        ) is Some && old(vm).dp < MAX_DICTIONARY_CELLS && (old(vm).compile_state matches Some(st)
            && st.patch_list@.len() > 0) ==> r == Err::<(), TbxError>(
            TbxError::UndefinedLabel { label: old(vm).compile_state.unwrap().patch_list@[0].0 },
        ) && final(vm).compile_state is None && !final(vm).is_compiling && final(vm).dp
            == old(vm).compile_state.unwrap().dp_at_def && final(vm).headers@ == old(vm).headers@.take(
            old(vm).compile_state.unwrap().hdr_len_at_def as int,
        ),
        old(vm).is_compiling && old(vm).compile_stack@.len() == 0 && find_kind_in(
            old(vm).headers@,
            old(vm).headers@.len() as int,
            SysKind::Exit,
        ) is Some && old(vm).dp < MAX_DICTIONARY_CELLS && (old(vm).compile_state matches Some(st)
            && st.patch_list@.len() == 0 && (forall|j: int|
            0 <= j < st.call_patch_list@.len() ==> #[trigger] st.call_patch_list@[j] < old(vm).dp)) ==> r is Ok,
{
    if !vm.is_compiling {
        return Err(TbxError::InvalidExpression { reason: "END outside DEF" });
    }
    if vm.compile_stack.len() > 0 {
        let count = vm.compile_stack.len();
        vm.rollback_def();
        return Err(TbxError::CompileStackNotEmpty { count });
    }
    let exit = vm.require_kind(SysKind::Exit, "EXIT")?;
    let exit_pos = vm.dp;
    vm.dict_write(Cell::Xt(exit))?;
    let st = match vm.compile_state.take() {
        Some(st) => st,
        None => {
            vm.is_compiling = false;
            return Err(TbxError::InvalidExpression { reason: "END without matching DEF" });
        },
    };
    if st.patch_list.len() > 0 {
        let label = st.patch_list[0].0;
        vm.compile_state = Some(st);
        vm.rollback_def();
        return Err(TbxError::UndefinedLabel { label });
    }
    let ghost d1 = vm.dictionary@;
    let lc: i64 = if (st.local_count as u64) <= 0x7FFF_FFFF_FFFF_FFFFu64 {
        st.local_count as i64
    } else {
        0x7FFF_FFFF_FFFF_FFFF
    };
    let mut j: usize = 0;
    while j < st.call_patch_list.len()
        invariant
            vm.wf(),
            vm.compile_state is None,
            vm.is_compiling,
            old(vm).is_compiling,
            old(vm).compile_stack@.len() == 0,
            old(vm).compile_state == Some(st),
            lc == count_value(st.local_count),
            j <= st.call_patch_list@.len(),
            vm.dp == old(vm).dp + 1,
            exit_pos == old(vm).dp,
            vm.dictionary@.len() == d1.len(),
            vm.dictionary@[old(vm).dp as int] == d1[old(vm).dp as int],
            old(vm).dp < d1.len(),
            forall|k: int| 0 <= k < j ==> vm.dictionary@[#[trigger] st.call_patch_list@[k] as int] == Cell::Int(lc),
            forall|k: int| 0 <= k < j ==> #[trigger] st.call_patch_list@[k] < vm.dictionary@.len(),
            eq_headers(*old(vm), *vm),
            same_runtime(*old(vm), *vm),
            vm.compile_stack@.len() == 0,
            st.hdr_len_at_def < vm.headers@.len(),
            st.dp_at_def <= old(vm).dp,
            st.patch_list@.len() == 0,
            find_kind_in(old(vm).headers@, old(vm).headers@.len() as int, SysKind::Exit) is Some,
            old(vm).dp < MAX_DICTIONARY_CELLS,
        decreases st.call_patch_list@.len() - j,
    {
        let pos = st.call_patch_list[j];
        if pos >= vm.dictionary.len() {
            vm.compile_state = Some(st);
            vm.rollback_def();
            return Err(TbxError::IndexOutOfBounds { index: pos, size: vm.dictionary.len() });
        }
        if pos == exit_pos {
            vm.compile_state = Some(st);
            vm.rollback_def();
            return Err(TbxError::IndexOutOfBounds { index: pos, size: vm.dictionary.len() });
        }
        let _ = vm.dict_write_at(pos, Cell::Int(lc));
        j = j + 1;
    }
    let hi = st.hdr_len_at_def;
    let mut h = vm.headers[hi].dup();
    h.arity = st.arity;
    h.local_count = st.local_count;
    h.is_variadic = st.is_variadic;
    let f0: u8 = h.flags;
    let f1: u8 = f0 & 0xFDu8;
    assert(f1 & 2u8 == 0) by (bit_vector)
        requires
            f1 == f0 & 0xFDu8,
    ;
    h.flags = f1;
    vm.headers.set(hi, h);
    vm.is_compiling = false;
    Ok(())
}


/// The address a label maps to in a label table (the first entry wins).
pub open spec fn label_lookup(t: Seq<(i64, usize)>, n: i64) -> Option<usize>
    decreases t.len(),
{
    if t.len() == 0 {
        None
    } else if t[0].0 == n {
        Some(t[0].1)
    } else {
        label_lookup(t.drop_first(), n)
    }
}

/// The address of label `n` in a label table.
pub fn label_get(t: &Vec<(i64, usize)>, n: i64) -> (r: Option<usize>)
    ensures
        r == label_lookup(t@, n),
{
    let mut i: usize = 0;
    assert(t@.subrange(0, t@.len() as int) =~= t@);
    while i < t.len()
        invariant
            i <= t@.len(),
            label_lookup(t@, n) == label_lookup(t@.subrange(i as int, t@.len() as int), n),
        decreases t@.len() - i,
    {
        let ghost rest = t@.subrange(i as int, t@.len() as int);
        assert(rest.drop_first() =~= t@.subrange(i as int + 1, t@.len() as int));
        if t[i].0 == n {
            return Some(t[i].1);
        }
        i = i + 1;
    }
    None
}

/// Emit a jump target for label `n`: its address when the label is already
/// defined, else a placeholder recorded in the patch list.
pub fn emit_jump_target(vm: &mut VM, n: i64) -> (r: Result<(), TbxError>)
    requires
        old(vm).wf(),
    ensures
        final(vm).wf(),
        same_runtime(*old(vm), *final(vm)),
        eq_headers(*old(vm), *final(vm)),
        final(vm).is_compiling == old(vm).is_compiling,
        final(vm).compile_stack@ == old(vm).compile_stack@,
        final(vm).token_stream == old(vm).token_stream,
        final(vm).pending_use_path == old(vm).pending_use_path,
        old(vm).compile_state is None ==> r == Err::<(), TbxError>(
            TbxError::InvalidExpression { reason: "GOTO/BIF/BIT outside compile mode" },
        ) && *final(vm) == *old(vm),
        old(vm).compile_state is Some ==> (r is Ok <==> old(vm).dp < MAX_DICTIONARY_CELLS),
        r is Ok ==> (old(vm).compile_state matches Some(st) && final(vm).dictionary@ == crate::vm::dict_after_write(
            old(vm).dictionary@,
            old(vm).dp as int,
            jump_target_cell(st, n),
        )),
        r is Ok ==> (old(vm).compile_state matches Some(st) && final(vm).dp == old(vm).dp + 1
            && final(vm).dictionary@.len() >= final(vm).dp
            && match label_lookup(st.label_table@, n) {
                Some(a) => final(vm).dictionary@[old(vm).dp as int] == Cell::DictAddr(a) && final(vm).compile_state
                    == old(vm).compile_state,
                None => final(vm).dictionary@[old(vm).dp as int] == Cell::DictAddr(0) && (final(vm).compile_state
                    matches Some(st2) && st2 == (CompileState { patch_list: st2.patch_list, ..st })
                    && st2.patch_list@ == st.patch_list@.push((n, old(vm).dp))),
            }),
{
    let target = match &vm.compile_state {
        Some(st) => label_get(&st.label_table, n),
        None => {
            return Err(TbxError::InvalidExpression { reason: "GOTO/BIF/BIT outside compile mode" });
        },
    };
    match target {
        Some(a) => vm.dict_write(Cell::DictAddr(a)),
        None => {
            let pos = vm.dp;
            vm.dict_write(Cell::DictAddr(0))?;
            let mut st = vm.compile_state.take().unwrap();
            st.patch_list.push((n, pos));
            vm.compile_state = Some(st);
            Ok(())
        },
    }
}

/// Define label `n` at the dictionary pointer: forward jumps waiting for
/// it are patched. A label defined twice in one word is an error.
pub fn register_label(vm: &mut VM, n: i64) -> (r: Result<(), TbxError>)
    requires
        old(vm).wf(),
    ensures
        final(vm).wf(),
        same_runtime(*old(vm), *final(vm)),
        eq_headers(*old(vm), *final(vm)),
        final(vm).dp == old(vm).dp,
        final(vm).is_compiling == old(vm).is_compiling,
        final(vm).compile_stack@ == old(vm).compile_stack@,
        final(vm).token_stream == old(vm).token_stream,
        final(vm).pending_use_path == old(vm).pending_use_path,
        final(vm).dictionary@.len() == old(vm).dictionary@.len(),
        old(vm).compile_state is None ==> r == Err::<(), TbxError>(
            TbxError::InvalidExpression { reason: "register_label called outside compile mode" },
        ) && *final(vm) == *old(vm),
        old(vm).compile_state matches Some(st) ==> match label_lookup(st.label_table@, n) {
            Some(_) => r == Err::<(), TbxError>(TbxError::DuplicateLabel { label: n }) && *final(vm) == *old(vm),
            None => r is Ok && (final(vm).compile_state matches Some(st2)
                && label_lookup(st2.label_table@, n) == Some(old(vm).dp)
                && st2.label_table@ == seq![(n, old(vm).dp)] + st.label_table@
                && st2.patch_list@ == st.patch_list@.filter(|e: (i64, usize)| e.0 != n)
                && (forall|k: int| 0 <= k < st2.patch_list@.len() ==> (#[trigger] st2.patch_list@[k]).0 != n)
                && (forall|k: int| 0 <= k < st.patch_list@.len() && st.patch_list@[k].0 == n
                    && st.patch_list@[k].1 < old(vm).dictionary@.len() ==> final(vm).dictionary@[
                    #[trigger] st.patch_list@[k].1 as int] == Cell::DictAddr(old(vm).dp))),
        },
{
    let dp = vm.dp;
    let mut st = match vm.compile_state.take() {
        Some(st) => st,
        None => {
            return Err(TbxError::InvalidExpression { reason: "register_label called outside compile mode" });
        },
    };
    if label_get(&st.label_table, n).is_some() {
        vm.compile_state = Some(st);
        return Err(TbxError::DuplicateLabel { label: n });
    }
    let ghost lt0 = st.label_table@;
    let mut newt: Vec<(i64, usize)> = Vec::new();
    newt.push((n, dp));
    let mut i: usize = 0;
    while i < st.label_table.len()
        invariant
            i <= st.label_table@.len(),
            newt@.len() == i + 1,
            newt@[0] == (n, dp),
            newt@ == seq![(n, dp)] + st.label_table@.take(i as int),
        decreases st.label_table@.len() - i,
    {
        newt.push(st.label_table[i]);
        assert(st.label_table@.take(i + 1) =~= st.label_table@.take(i as int).push(st.label_table@[i as int]));
        i = i + 1;
    }
    assert(st.label_table@.take(st.label_table@.len() as int) =~= st.label_table@);
    st.label_table = newt;
    let ghost pl0 = st.patch_list@;
    let mut kept: Vec<(i64, usize)> = Vec::new();
    let mut k: usize = 0;
    let ghost keep = |e: (i64, usize)| e.0 != n;
    proof {
        reveal(Seq::filter);
        assert(pl0.take(0).filter(keep) =~= Seq::<(i64, usize)>::empty());
    }
    while k < st.patch_list.len()
        invariant
            kept@ == pl0.take(k as int).filter(keep),
            keep == (|e: (i64, usize)| e.0 != n),
            vm.wf(),
            vm.compile_state is None,
            k <= st.patch_list@.len(),
            st.patch_list@ == pl0,
            vm.dp == dp,
            dp == old(vm).dp,
            vm.dictionary@.len() == old(vm).dictionary@.len(),
            forall|j: int| 0 <= j < kept@.len() ==> (#[trigger] kept@[j]).0 != n,
            forall|j: int| 0 <= j < k && pl0[j].0 == n && pl0[j].1 < old(vm).dictionary@.len() ==> vm.dictionary@[
                #[trigger] pl0[j].1 as int] == Cell::DictAddr(dp),
            same_runtime(*old(vm), *vm),
            eq_headers(*old(vm), *vm),
            vm.is_compiling == old(vm).is_compiling,
            vm.compile_stack@ == old(vm).compile_stack@,
            vm.token_stream == old(vm).token_stream,
            vm.pending_use_path == old(vm).pending_use_path,
        decreases st.patch_list@.len() - k,
    {
        let (lbl, pos) = st.patch_list[k];
        proof {
            assert(pl0.take(k + 1) =~= pl0.take(k as int).push(pl0[k as int]));
            pl0.take(k as int).lemma_filter_push(pl0[k as int], keep);
        }
        if lbl == n {
            let _ = vm.dict_write_at(pos, Cell::DictAddr(dp));
        } else {
            kept.push((lbl, pos));
        }
        k = k + 1;
    }
    assert(pl0.take(pl0.len() as int) =~= pl0);
    st.patch_list = kept;
    vm.compile_state = Some(st);
    Ok(())
}


/// Frame of the compile-time words: the runtime part, the header table and
/// the compile stack are kept.
pub open spec fn compiles_only(a: VM, b: VM) -> bool {
    same_runtime(a, b) && eq_headers(a, b) && a.compile_stack@ == b.compile_stack@
        && a.is_compiling == b.is_compiling && a.pending_use_path == b.pending_use_path
}

/// `b`'s dictionary keeps the cells of `a` below `a`'s pointer and holds
/// `code` from there up to `b`'s pointer.
pub open spec fn emitted(a: VM, b: VM, code: Seq<Cell>) -> bool {
    &&& b.dp == a.dp + code.len()
    &&& b.dp <= b.dictionary@.len()
    &&& forall|k: int| 0 <= k < a.dp ==> #[trigger] b.dictionary@[k] == a.dictionary@[k]
    &&& forall|k: int| 0 <= k < code.len() ==> #[trigger] b.dictionary@[a.dp + k] == code[k]
}

/// One cell written at the dictionary pointer is emitted code.
pub proof fn lemma_emitted_write(a: VM, b: VM, c: Cell)
    requires
        a.wf(),
        b.dictionary@ == crate::vm::dict_after_write(a.dictionary@, a.dp as int, c),
        b.dp == a.dp + 1,
    ensures
        emitted(a, b, seq![c]),
{
    assert(b.dictionary@[a.dp + 0] == c);
}

/// One more cell written at the dictionary pointer extends emitted code.
pub proof fn lemma_emitted_push(a: VM, b: VM, c: VM, code: Seq<Cell>, cell: Cell)
    requires
        emitted(a, b, code),
        b.wf(),
        c.dictionary@ == crate::vm::dict_after_write(b.dictionary@, b.dp as int, cell),
        c.dp == b.dp + 1,
    ensures
        emitted(a, c, code.push(cell)),
{
    lemma_emitted_write(b, c, cell);
    lemma_emitted_trans(a, b, c, code, seq![cell]);
    assert(code + seq![cell] =~= code.push(cell));
}

/// Nothing written is emitted code.
pub proof fn lemma_emitted_none(a: VM)
    requires
        a.wf(),
    ensures
        emitted(a, a, Seq::empty()),
{
}

/// Code emitted after code is emitted.
pub proof fn lemma_emitted_trans(a: VM, b: VM, c: VM, x: Seq<Cell>, y: Seq<Cell>)
    requires
        emitted(a, b, x),
        emitted(b, c, y),
    ensures
        emitted(a, c, x + y),
{
    assert forall|k: int| 0 <= k < a.dp implies #[trigger] c.dictionary@[k] == a.dictionary@[k] by {
        assert(c.dictionary@[k] == b.dictionary@[k]);
    }
    assert forall|k: int| 0 <= k < (x + y).len() implies #[trigger] c.dictionary@[a.dp + k] == (x + y)[k] by {
        if k < x.len() {
            assert(c.dictionary@[a.dp + k] == b.dictionary@[a.dp + k]);
        } else {
            assert(c.dictionary@[b.dp + (k - x.len())] == y[k - x.len()]);
        }
    }
}

/// Write the execution token of the internal word of kind `k`.
pub fn emit_kind(vm: &mut VM, k: SysKind, name: &str) -> (r: Result<(), TbxError>)
    requires
        old(vm).wf(),
    ensures
        final(vm).wf(),
        compiles_only(*old(vm), *final(vm)),
        final(vm).compile_state == old(vm).compile_state,
        final(vm).token_stream == old(vm).token_stream,
        r is Ok ==> (find_kind_in(old(vm).headers@, old(vm).headers@.len() as int, k) matches Some(x)
            && final(vm).dp == old(vm).dp + 1 && final(vm).dictionary@ == crate::vm::dict_after_write(
            old(vm).dictionary@,
            old(vm).dp as int,
            Cell::Xt(Xt(x)),
        )),
        r is Ok <==> (find_kind_in(old(vm).headers@, old(vm).headers@.len() as int, k) is Some && old(vm).dp
            < MAX_DICTIONARY_CELLS),
        find_kind_in(old(vm).headers@, old(vm).headers@.len() as int, k) is None ==> (r matches Err(
            TbxError::UndefinedSymbol { name: n },
        ) && n@ == name@),
        r is Err ==> crate::vm::eq_dictionary(*old(vm), *final(vm)),
{
    let x = vm.require_kind(k, name)?;
    vm.dict_write(Cell::Xt(x))
}

/// Compile `tokens` as an expression and write its code.
pub fn emit_expr(vm: &mut VM, tokens: &[SpannedToken]) -> (r: Result<(), TbxError>)
    requires
        old(vm).wf(),
    ensures
        final(vm).wf(),
        compiles_only(*old(vm), *final(vm)),
        final(vm).token_stream == old(vm).token_stream,
        final(vm).dp >= old(vm).dp,
        r is Ok ==> forall|k: int| 0 <= k < old(vm).dp ==> #[trigger] final(vm).dictionary@[k] == old(vm).dictionary@[k],
        r is Ok ==> same_but_patches(old(vm).compile_state, final(vm).compile_state),
        r is Ok ==> exists|code: Seq<Cell>|
            #[trigger] emitted(*old(vm), *final(vm), code) && (crate::expr::one_expression(tokens@)
                ==> crate::expr::in_order(crate::expr::int_lits(tokens@), code)),
        crate::expr::flat_arith(tokens@) ==> (r is Ok ==> emitted(
            *old(vm),
            *final(vm),
            crate::expr::flat_code(*old(vm), tokens@),
        )),
        crate::expr::flat_arith(tokens@) && crate::expr::flat_words_ok(*old(vm), tokens@) ==> (r is Ok <==> old(vm).dp
            + crate::expr::flat_code(*old(vm), tokens@).len() <= MAX_DICTIONARY_CELLS),
        r is Err ==> *final(vm) == *old(vm),
{
    let (cells, offs) = compile_tokens(vm, tokens)?;
    let ghost code = cells@;
    emit_cells(vm, cells, offs)?;
    assert(emitted(*old(vm), *vm, code));
    Ok(())
}

/// The jump-target cell written for label `n`: the label's address when it
/// is already defined, else a placeholder patched when it is.
pub open spec fn jump_target_cell(st: CompileState, n: i64) -> Cell {
    match label_lookup(st.label_table@, n) {
        Some(a) => Cell::DictAddr(a),
        None => Cell::DictAddr(0),
    }
}

/// The definition state `b` after a jump to label `n` whose target cell is
/// at `pos`, from `st`: unchanged for a defined label, else `(n, pos)` is
/// added to the patch list, to be patched when the label is defined.
pub open spec fn jump_state(st: CompileState, b: Option<CompileState>, n: i64, pos: int) -> bool {
    b matches Some(st2) && st2 == (CompileState { patch_list: st2.patch_list, ..st }) && st2.patch_list@ == (
    match label_lookup(st.label_table@, n) {
        Some(_) => st.patch_list@,
        None => st.patch_list@.push((n, pos as usize)),
    })
}

/// What `goto_prim` does, from the state `pre` to the state `post` with the
/// result `r`.
pub open spec fn goto_prim_outcome(pre: VM, post: VM, r: Result<(), TbxError>) -> bool {
    &&& (compiles_only(pre, post))
    &&& (!pre.is_compiling ==> r == Err::<(), TbxError>(TbxError::InvalidExpression { reason: "GOTO outside DEF" })
            && post == pre)
    &&& (pre.is_compiling ==> match stream(pre) {
            None => r == Err::<(), TbxError>(TbxError::TokenStreamEmpty),
            Some(q) => match label_of(q) {
                None => r == Err::<(), TbxError>(TbxError::InvalidExpression { reason: "GOTO requires an integer label" }),
                Some(n) => (pre.compile_state is None ==> r is Err) && (pre.compile_state is Some ==> (r is Ok <==> (find_kind_in(
                    pre.headers@,
                    pre.headers@.len() as int,
                    SysKind::Goto,
                ) is Some && pre.dp + 2 <= MAX_DICTIONARY_CELLS))) && (find_kind_in(
                    pre.headers@,
                    pre.headers@.len() as int,
                    SysKind::Goto,
                ) is None ==> (r matches Err(TbxError::UndefinedSymbol { name: nm }) && nm@ == "GOTO"@))
                    && (r is Ok ==> (pre.compile_state matches Some(st) && post.dp == pre.dp + 2
                    && post.dp <= post.dictionary@.len() && (forall|k: int|
                    0 <= k < pre.dp ==> #[trigger] post.dictionary@[k] == pre.dictionary@[k])
                    && post.dictionary@[pre.dp as int] == kind_xt(pre, SysKind::Goto)
                    && post.dictionary@[pre.dp + 1] == jump_target_cell(st, n)
                    && stream(post) == Some(Seq::<SpannedToken>::empty())
                    && jump_state(st, post.compile_state, n, (pre.dp + 1) as int))),
            },
        })
}

/// GOTO n (inside a definition): jump to label `n`.
pub fn goto_prim(vm: &mut VM) -> (r: Result<(), TbxError>)
    requires
        old(vm).wf(),
    ensures
        final(vm).wf(),
        compiles_only(*old(vm), *final(vm)),
        !old(vm).is_compiling ==> r == Err::<(), TbxError>(TbxError::InvalidExpression { reason: "GOTO outside DEF" })
            && *final(vm) == *old(vm),
        old(vm).is_compiling ==> match stream(*old(vm)) {
            None => r == Err::<(), TbxError>(TbxError::TokenStreamEmpty),
            Some(q) => match label_of(q) {
                None => r == Err::<(), TbxError>(TbxError::InvalidExpression { reason: "GOTO requires an integer label" }),
                Some(n) => (old(vm).compile_state is None ==> r is Err) && (old(vm).compile_state is Some ==> (r is Ok <==> (find_kind_in(
                    old(vm).headers@,
                    old(vm).headers@.len() as int,
                    SysKind::Goto,
                ) is Some && old(vm).dp + 2 <= MAX_DICTIONARY_CELLS))) && (find_kind_in(
                    old(vm).headers@,
                    old(vm).headers@.len() as int,
                    SysKind::Goto,
                ) is None ==> (r matches Err(TbxError::UndefinedSymbol { name: nm }) && nm@ == "GOTO"@))
                    && (r is Ok ==> (old(vm).compile_state matches Some(st) && final(vm).dp == old(vm).dp + 2
                    && final(vm).dp <= final(vm).dictionary@.len() && (forall|k: int|
                    0 <= k < old(vm).dp ==> #[trigger] final(vm).dictionary@[k] == old(vm).dictionary@[k])
                    && final(vm).dictionary@[old(vm).dp as int] == kind_xt(*old(vm), SysKind::Goto)
                    && final(vm).dictionary@[old(vm).dp + 1] == jump_target_cell(st, n)
                    && stream(*final(vm)) == Some(Seq::<SpannedToken>::empty())
                    && jump_state(st, final(vm).compile_state, n, (old(vm).dp + 1) as int))),
            },
        },
{
    if !vm.is_compiling {
        return Err(TbxError::InvalidExpression { reason: "GOTO outside DEF" });
    }
    let toks = vm.drain_tokens()?;
    let n = match parse_label_number(toks.as_slice()) {
        Some(n) => n,
        None => {
            return Err(TbxError::InvalidExpression { reason: "GOTO requires an integer label" });
        },
    };
    let ghost v0 = *vm;
    emit_kind(vm, SysKind::Goto, "GOTO")?;
    let ghost v1 = *vm;
    emit_jump_target(vm, n)?;
    proof {
        let st = v1.compile_state.unwrap();
        lemma_emitted_write(v0, v1, kind_xt(v0, SysKind::Goto));
        lemma_emitted_push(v0, v1, *vm, seq![kind_xt(v0, SysKind::Goto)], jump_target_cell(st, n));
        assert(vm.dictionary@[v0.dp + 0] == kind_xt(v0, SysKind::Goto));
        assert(vm.dictionary@[v0.dp + 1] == jump_target_cell(st, n));
    }
    Ok(())
}

/// What BIF (`on_true` false) or BIT does in compile mode: the errors of a
/// malformed `cond, label`, and the code `cond BRANCH target` it emits.
pub open spec fn branch_outcome(a: VM, b: VM, r: Result<(), TbxError>, on_true: bool) -> bool {
    a.is_compiling ==> match stream(a) {
        None => r == Err::<(), TbxError>(TbxError::TokenStreamEmpty),
        Some(q) => match comma_scan(q, 0, 0, None) {
            None => r == Err::<(), TbxError>(
                TbxError::InvalidExpression { reason: "unmatched ')' or ']' in statement" },
            ),
            Some(None) => r == Err::<(), TbxError>(
                TbxError::InvalidExpression { reason: "BIF/BIT requires syntax: BIF cond, label" },
            ),
            Some(Some(k)) => match label_of(q.skip(k + 1)) {
                None => r == Err::<(), TbxError>(
                    TbxError::InvalidExpression { reason: "BIF/BIT label must be an integer" },
                ),
                Some(n) => r is Ok ==> (a.compile_state matches Some(st) && b.dp >= a.dp + 2
                    && b.dp <= b.dictionary@.len() && (forall|j: int|
                    0 <= j < a.dp ==> #[trigger] b.dictionary@[j] == a.dictionary@[j])
                    && b.dictionary@[b.dp - 2] == kind_xt(
                    a,
                    if on_true { SysKind::BranchIfTrue } else { SysKind::BranchIfFalse },
                ) && b.dictionary@[b.dp - 1] == jump_target_cell(st, n) && stream(b) == Some(
                    Seq::<SpannedToken>::empty(),
                ) && (b.compile_state matches Some(stb) && stb.label_table == st.label_table && stb.patch_list@ == (
                match label_lookup(st.label_table@, n) {
                    Some(_) => st.patch_list@,
                    None => st.patch_list@.push((n, (b.dp - 1) as usize)),
                })))
                    && (crate::expr::flat_arith(q.take(k as int)) ==> (r is Ok ==> (a.compile_state matches Some(st)
                    && emitted(
                    a,
                    b,
                    crate::expr::flat_code(a, q.take(k as int)) + seq![
                        kind_xt(a, if on_true { SysKind::BranchIfTrue } else { SysKind::BranchIfFalse }),
                        jump_target_cell(st, n),
                    ],
                )))) && (crate::expr::flat_arith(q.take(k as int)) && crate::expr::flat_words_ok(a, q.take(k as int))
                    && a.compile_state is Some ==> (r is Ok <==> (find_kind_in(
                    a.headers@,
                    a.headers@.len() as int,
                    if on_true { SysKind::BranchIfTrue } else { SysKind::BranchIfFalse },
                ) is Some && a.dp + crate::expr::flat_code(a, q.take(k as int)).len() + 2
                    <= MAX_DICTIONARY_CELLS))),
            },
        },
    }
}

/// BIF/BIT cond, n (inside a definition): jump to label `n` when `cond`
/// is false (BIF) or true (BIT).
pub fn compile_branch_prim(vm: &mut VM, on_true: bool) -> (r: Result<(), TbxError>)
    requires
        old(vm).wf(),
    ensures
        final(vm).wf(),
        compiles_only(*old(vm), *final(vm)),
        !old(vm).is_compiling ==> r == Err::<(), TbxError>(TbxError::InvalidExpression {
            reason: if on_true { "BIT outside DEF" } else { "BIF outside DEF" },
        }) && *final(vm) == *old(vm),
        branch_outcome(*old(vm), *final(vm), r, on_true),
{
    if !vm.is_compiling {
        let reason = if on_true { "BIT outside DEF" } else { "BIF outside DEF" };
        return Err(TbxError::InvalidExpression { reason });
    }
    let toks = vm.drain_tokens()?;
    let split = match last_top_level_comma(toks.as_slice())? {
        Some(i) => i,
        None => {
            return Err(TbxError::InvalidExpression { reason: "BIF/BIT requires syntax: BIF cond, label" });
        },
    };
    let mut cond: Vec<SpannedToken> = Vec::new();
    let mut label_toks: Vec<SpannedToken> = Vec::new();
    let mut i: usize = 0;
    while i < toks.len()
        invariant
            i <= toks@.len(),
            split < toks@.len(),
            cond@ == toks@.take(if i < split { i as int } else { split as int }),
            label_toks@ == (if i <= split { Seq::<SpannedToken>::empty() } else { toks@.subrange(split + 1, i as int) }),
        decreases toks@.len() - i,
    {
        if i < split {
            cond.push(toks[i].dup());
            assert(toks@.take(i + 1) =~= toks@.take(i as int).push(toks@[i as int]));
        } else if i > split {
            label_toks.push(toks[i].dup());
            assert(toks@.subrange(split + 1, i + 1) =~= toks@.subrange(split + 1, i as int).push(toks@[i as int]));
        } else {
            assert(toks@.subrange(split + 1, i + 1) =~= Seq::<SpannedToken>::empty());
        }
        i = i + 1;
    }
    assert(label_toks@ =~= toks@.skip(split + 1));
    let n = match parse_label_number(label_toks.as_slice()) {
        Some(n) => n,
        None => {
            return Err(TbxError::InvalidExpression { reason: "BIF/BIT label must be an integer" });
        },
    };
    let ghost v0 = *vm;
    proof {
        assert(cond@ =~= toks@.take(split as int));
        crate::expr::lemma_flat_code_headers(*old(vm), v0, cond@);
    }
    emit_expr(vm, cond.as_slice())?;
    let ghost v1 = *vm;
    if on_true {
        emit_kind(vm, SysKind::BranchIfTrue, "BIT")?;
    } else {
        emit_kind(vm, SysKind::BranchIfFalse, "BIF")?;
    }
    let ghost v2 = *vm;
    emit_jump_target(vm, n)?;
    proof {
        let k = if on_true { SysKind::BranchIfTrue } else { SysKind::BranchIfFalse };
        let st = v0.compile_state.unwrap();
        let st2 = v2.compile_state.unwrap();
        assert(st2.label_table == st.label_table);
        lemma_emitted_write(v1, v2, kind_xt(v0, k));
        lemma_emitted_push(v1, v2, *vm, seq![kind_xt(v0, k)], jump_target_cell(st2, n));
        assert(vm.dictionary@[v1.dp + 0] == kind_xt(v0, k));
        assert(vm.dictionary@[v1.dp + 1] == jump_target_cell(st, n));
        assert forall|j: int| 0 <= j < v0.dp implies #[trigger] vm.dictionary@[j] == v0.dictionary@[j] by {
            assert(vm.dictionary@[j] == v1.dictionary@[j]);
        }
        if crate::expr::flat_arith(cond@) {
            let code = crate::expr::flat_code(v0, cond@);
            lemma_emitted_trans(v0, v1, *vm, code, seq![kind_xt(v0, k)].push(jump_target_cell(st2, n)));
            assert(seq![kind_xt(v0, k)].push(jump_target_cell(st2, n)) =~= seq![kind_xt(v0, k), jump_target_cell(st, n)]);
        }
    }
    Ok(())
}

/// What `bif_prim` does, from the state `pre` to the state `post` with the
/// result `r`.
pub open spec fn bif_prim_outcome(pre: VM, post: VM, r: Result<(), TbxError>) -> bool {
    &&& (compiles_only(pre, post))
    &&& (!pre.is_compiling ==> r == Err::<(), TbxError>(TbxError::InvalidExpression { reason: "BIF outside DEF" })
            && post == pre)
    &&& (branch_outcome(pre, post, r, false))
}

/// BIF cond, n.
pub fn bif_prim(vm: &mut VM) -> (r: Result<(), TbxError>)
    requires
        old(vm).wf(),
    ensures
        final(vm).wf(),
        compiles_only(*old(vm), *final(vm)),
        !old(vm).is_compiling ==> r == Err::<(), TbxError>(TbxError::InvalidExpression { reason: "BIF outside DEF" })
            && *final(vm) == *old(vm),
        branch_outcome(*old(vm), *final(vm), r, false),
{
    compile_branch_prim(vm, false)
}

/// What `bit_prim` does, from the state `pre` to the state `post` with the
/// result `r`.
pub open spec fn bit_prim_outcome(pre: VM, post: VM, r: Result<(), TbxError>) -> bool {
    &&& (compiles_only(pre, post))
    &&& (!pre.is_compiling ==> r == Err::<(), TbxError>(TbxError::InvalidExpression { reason: "BIT outside DEF" })
            && post == pre)
    &&& (branch_outcome(pre, post, r, true))
}

/// BIT cond, n.
pub fn bit_prim(vm: &mut VM) -> (r: Result<(), TbxError>)
    requires
        old(vm).wf(),
    ensures
        final(vm).wf(),
        compiles_only(*old(vm), *final(vm)),
        !old(vm).is_compiling ==> r == Err::<(), TbxError>(TbxError::InvalidExpression { reason: "BIT outside DEF" })
            && *final(vm) == *old(vm),
        branch_outcome(*old(vm), *final(vm), r, true),
{
    compile_branch_prim(vm, true)
}

/// What `return_prim` does, from the state `pre` to the state `post` with the
/// result `r`.
pub open spec fn return_prim_outcome(pre: VM, post: VM, r: Result<(), TbxError>) -> bool {
    &&& (compiles_only(pre, post))
    &&& (!pre.is_compiling ==> r == Err::<(), TbxError>(TbxError::InvalidExpression { reason: "RETURN outside DEF" })
            && post == pre)
    &&& (pre.is_compiling && stream(pre) == Some(Seq::<SpannedToken>::empty()) ==> (r is Ok ==> (find_kind_in(pre.headers@, pre.headers@.len() as int, SysKind::Exit) matches Some(x)
            && post.dictionary@ == crate::vm::dict_after_write(pre.dictionary@, pre.dp as int, Cell::Xt(Xt(x))))))
    &&& (pre.is_compiling && stream(pre) is None ==> r == Err::<(), TbxError>(TbxError::TokenStreamEmpty))
    &&& (pre.compile_state is Some ==> post.compile_state is Some)
    &&& (pre.is_compiling && stream(pre) == Some(Seq::<SpannedToken>::empty()) && r is Ok ==> post.dp
            == pre.dp + 1)
    &&& (pre.is_compiling && stream(pre) == Some(Seq::<SpannedToken>::empty()) ==> (r is Ok <==> (find_kind_in(
            pre.headers@,
            pre.headers@.len() as int,
            SysKind::Exit,
        ) is Some && pre.dp < MAX_DICTIONARY_CELLS)))
    &&& (pre.is_compiling && (stream(pre) matches Some(q) && q.len() > 0) ==> (r is Ok ==> (post.dp
            > pre.dp && post.dp <= post.dictionary@.len() && post.dictionary@[post.dp - 1]
            == kind_xt(pre, SysKind::ReturnVal) && (forall|k: int|
            0 <= k < pre.dp ==> #[trigger] post.dictionary@[k] == pre.dictionary@[k]))))
    &&& (pre.is_compiling && (stream(pre) matches Some(q) && q.len() > 0 && crate::expr::flat_arith(q)) ==> (
        stream(pre) matches Some(q) && (r is Ok ==> emitted(
            pre,
            post,
            crate::expr::flat_code(pre, q).push(kind_xt(pre, SysKind::ReturnVal)),
        )) && (crate::expr::flat_words_ok(pre, q) ==> (r is Ok <==> (find_kind_in(
            pre.headers@,
            pre.headers@.len() as int,
            SysKind::ReturnVal,
        ) is Some && pre.dp + crate::expr::flat_code(pre, q).len() + 1 <= MAX_DICTIONARY_CELLS)))))
}

/// RETURN [expr] (inside a definition): leave the word, with the value of
/// `expr` when there is one.
pub fn return_prim(vm: &mut VM) -> (r: Result<(), TbxError>)
    requires
        old(vm).wf(),
    ensures
        final(vm).wf(),
        compiles_only(*old(vm), *final(vm)),
        !old(vm).is_compiling ==> r == Err::<(), TbxError>(TbxError::InvalidExpression { reason: "RETURN outside DEF" })
            && *final(vm) == *old(vm),
        old(vm).is_compiling && stream(*old(vm)) == Some(Seq::<SpannedToken>::empty()) ==> (r is Ok ==> (find_kind_in(old(vm).headers@, old(vm).headers@.len() as int, SysKind::Exit) matches Some(x)
            && final(vm).dictionary@ == crate::vm::dict_after_write(old(vm).dictionary@, old(vm).dp as int, Cell::Xt(Xt(x))))),
        old(vm).is_compiling && stream(*old(vm)) is None ==> r == Err::<(), TbxError>(TbxError::TokenStreamEmpty),
        old(vm).compile_state is Some ==> final(vm).compile_state is Some,
        old(vm).is_compiling && stream(*old(vm)) == Some(Seq::<SpannedToken>::empty()) && r is Ok ==> final(vm).dp
            == old(vm).dp + 1,
        old(vm).is_compiling && stream(*old(vm)) == Some(Seq::<SpannedToken>::empty()) ==> (r is Ok <==> (find_kind_in(
            old(vm).headers@,
            old(vm).headers@.len() as int,
            SysKind::Exit,
        ) is Some && old(vm).dp < MAX_DICTIONARY_CELLS)),
        old(vm).is_compiling && (stream(*old(vm)) matches Some(q) && q.len() > 0) ==> (r is Ok ==> (final(vm).dp
            > old(vm).dp && final(vm).dp <= final(vm).dictionary@.len() && final(vm).dictionary@[final(vm).dp - 1]
            == kind_xt(*old(vm), SysKind::ReturnVal) && (forall|k: int|
            0 <= k < old(vm).dp ==> #[trigger] final(vm).dictionary@[k] == old(vm).dictionary@[k]))),
        old(vm).is_compiling && (stream(*old(vm)) matches Some(q) && q.len() > 0 && crate::expr::flat_arith(q)) ==> (
        stream(*old(vm)) matches Some(q) && (r is Ok ==> emitted(
            *old(vm),
            *final(vm),
            crate::expr::flat_code(*old(vm), q).push(kind_xt(*old(vm), SysKind::ReturnVal)),
        )) && (crate::expr::flat_words_ok(*old(vm), q) ==> (r is Ok <==> (find_kind_in(
            old(vm).headers@,
            old(vm).headers@.len() as int,
            SysKind::ReturnVal,
        ) is Some && old(vm).dp + crate::expr::flat_code(*old(vm), q).len() + 1 <= MAX_DICTIONARY_CELLS)))),
{
    if !vm.is_compiling {
        return Err(TbxError::InvalidExpression { reason: "RETURN outside DEF" });
    }
    let toks = vm.drain_tokens()?;
    if toks.len() == 0 {
        emit_kind(vm, SysKind::Exit, "EXIT")
    } else {
        let ghost v0 = *vm;
        proof {
            crate::expr::lemma_flat_code_headers(*old(vm), v0, toks@);
        }
        emit_expr(vm, toks.as_slice())?;
        let ghost v1 = *vm;
        emit_kind(vm, SysKind::ReturnVal, "RETURN_VAL")?;
        proof {
            if crate::expr::flat_arith(toks@) {
                lemma_emitted_push(v0, v1, *vm, crate::expr::flat_code(v0, toks@), kind_xt(v0, SysKind::ReturnVal));
            }
            assert forall|k: int| 0 <= k < v0.dp implies #[trigger] vm.dictionary@[k] == v0.dictionary@[k] by {
                assert(vm.dictionary@[k] == v1.dictionary@[k]);
            }
        }
        Ok(())
    }
}

/// What `compile_expr_prim` does, from the state `pre` to the state `post` with the
/// result `r`.
pub open spec fn compile_expr_prim_outcome(pre: VM, post: VM, r: Result<(), TbxError>) -> bool {
    &&& (compiles_only(pre, post))
    &&& (!pre.is_compiling ==> r == Err::<(), TbxError>(
            TbxError::InvalidExpression { reason: "COMPILE_EXPR outside compile mode" },
        ) && post == pre)
    &&& (pre.is_compiling && stream(pre) is None ==> r == Err::<(), TbxError>(TbxError::TokenStreamEmpty))
    &&& (pre.is_compiling && stream(pre) == Some(Seq::<SpannedToken>::empty()) ==> r == Err::<(), TbxError>(
            TbxError::TokenStreamEmpty,
        ) && post.dp == pre.dp && post.dictionary@ == pre.dictionary@)
    &&& (pre.is_compiling && stream(pre) is Some ==> stream(post) == Some(Seq::<SpannedToken>::empty()))
    &&& (r is Ok ==> same_but_patches(pre.compile_state, post.compile_state))
    &&& (r is Err ==> post.compile_state == pre.compile_state && post.dp == pre.dp
            && post.dictionary@ == pre.dictionary@)
    &&& (pre.is_compiling && (stream(pre) matches Some(q) && crate::expr::flat_arith(q)) ==> (stream(pre)
            matches Some(q) && (r is Ok ==> emitted(pre, post, crate::expr::flat_code(pre, q)))
            && (crate::expr::flat_words_ok(pre, q) ==> (r is Ok <==> pre.dp + crate::expr::flat_code(
            pre,
            q,
        ).len() <= MAX_DICTIONARY_CELLS))))
}

/// COMPILE_EXPR: compile the rest of the statement as an expression.
pub fn compile_expr_prim(vm: &mut VM) -> (r: Result<(), TbxError>)
    requires
        old(vm).wf(),
    ensures
        final(vm).wf(),
        compiles_only(*old(vm), *final(vm)),
        !old(vm).is_compiling ==> r == Err::<(), TbxError>(
            TbxError::InvalidExpression { reason: "COMPILE_EXPR outside compile mode" },
        ) && *final(vm) == *old(vm),
        old(vm).is_compiling && stream(*old(vm)) is None ==> r == Err::<(), TbxError>(TbxError::TokenStreamEmpty),
        old(vm).is_compiling && stream(*old(vm)) == Some(Seq::<SpannedToken>::empty()) ==> r == Err::<(), TbxError>(
            TbxError::TokenStreamEmpty,
        ) && final(vm).dp == old(vm).dp && final(vm).dictionary@ == old(vm).dictionary@,
        old(vm).is_compiling && stream(*old(vm)) is Some ==> stream(*final(vm)) == Some(Seq::<SpannedToken>::empty()),
        r is Ok ==> same_but_patches(old(vm).compile_state, final(vm).compile_state),
        r is Err ==> final(vm).compile_state == old(vm).compile_state && final(vm).dp == old(vm).dp
            && final(vm).dictionary@ == old(vm).dictionary@,
        old(vm).is_compiling && (stream(*old(vm)) matches Some(q) && crate::expr::flat_arith(q)) ==> (stream(*old(vm))
            matches Some(q) && (r is Ok ==> emitted(*old(vm), *final(vm), crate::expr::flat_code(*old(vm), q)))
            && (crate::expr::flat_words_ok(*old(vm), q) ==> (r is Ok <==> old(vm).dp + crate::expr::flat_code(
            *old(vm),
            q,
        ).len() <= MAX_DICTIONARY_CELLS))),
{
    if !vm.is_compiling {
        return Err(TbxError::InvalidExpression { reason: "COMPILE_EXPR outside compile mode" });
    }
    let toks = vm.drain_tokens()?;
    if toks.len() == 0 {
        return Err(TbxError::TokenStreamEmpty);
    }
    proof {
        crate::expr::lemma_flat_code_headers(*old(vm), *vm, toks@);
    }
    emit_expr(vm, toks.as_slice())
}

/// What `skip_comma_prim` does, from the state `pre` to the state `post` with the
/// result `r`.
pub open spec fn skip_comma_prim_outcome(pre: VM, post: VM, r: Result<(), TbxError>) -> bool {
    &&& (crate::vm::only_tokens_changed(pre, post))
    &&& (!pre.is_compiling ==> r == Err::<(), TbxError>(
            TbxError::InvalidExpression { reason: "SKIP_COMMA outside compile mode" },
        ) && post == pre)
    &&& (pre.is_compiling ==> (r is Ok <==> (stream(pre) matches Some(q) && q.len() > 0 && q[0].token is Comma)))
}

/// SKIP_COMMA: the next token must be `,`.
pub fn skip_comma_prim(vm: &mut VM) -> (r: Result<(), TbxError>)
    requires
        old(vm).wf(),
    ensures
        final(vm).wf(),
        crate::vm::only_tokens_changed(*old(vm), *final(vm)),
        !old(vm).is_compiling ==> r == Err::<(), TbxError>(
            TbxError::InvalidExpression { reason: "SKIP_COMMA outside compile mode" },
        ) && *final(vm) == *old(vm),
        old(vm).is_compiling ==> (r is Ok <==> (stream(*old(vm)) matches Some(q) && q.len() > 0 && q[0].token is Comma)),
{
    if !vm.is_compiling {
        return Err(TbxError::InvalidExpression { reason: "SKIP_COMMA outside compile mode" });
    }
    vm.expect_comma("SKIP_COMMA: expected ','")
}

/// What `skip_eq_prim` does, from the state `pre` to the state `post` with the
/// result `r`.
pub open spec fn skip_eq_prim_outcome(pre: VM, post: VM, r: Result<(), TbxError>) -> bool {
    &&& (crate::vm::only_tokens_changed(pre, post))
    &&& (!pre.is_compiling ==> r == Err::<(), TbxError>(
            TbxError::InvalidExpression { reason: "SKIP_EQ outside compile mode" },
        ) && post == pre)
    &&& (pre.is_compiling ==> (r is Ok <==> (stream(pre) matches Some(q) && q.len() > 0 && (q[0].token matches Token::Op(o)
            && o@ == "="@))))
    &&& (pre.is_compiling && r is Ok ==> (stream(pre) matches Some(q) && stream(post) == Some(
            q.drop_first(),
        )))
}

/// SKIP_EQ: the next token must be `=`.
pub fn skip_eq_prim(vm: &mut VM) -> (r: Result<(), TbxError>)
    requires
        old(vm).wf(),
    ensures
        final(vm).wf(),
        crate::vm::only_tokens_changed(*old(vm), *final(vm)),
        !old(vm).is_compiling ==> r == Err::<(), TbxError>(
            TbxError::InvalidExpression { reason: "SKIP_EQ outside compile mode" },
        ) && *final(vm) == *old(vm),
        old(vm).is_compiling ==> (r is Ok <==> (stream(*old(vm)) matches Some(q) && q.len() > 0 && (q[0].token matches Token::Op(o)
            && o@ == "="@))),
        old(vm).is_compiling && r is Ok ==> (stream(*old(vm)) matches Some(q) && stream(*final(vm)) == Some(
            q.drop_first(),
        )),
{
    if !vm.is_compiling {
        return Err(TbxError::InvalidExpression { reason: "SKIP_EQ outside compile mode" });
    }
    vm.expect_op("=", "SKIP_EQ: expected '='")
}

/// `r` is the address a variable name denotes while compiling: a local
/// slot of the open definition, else a global variable.
pub open spec fn lvalue_outcome(vm: VM, name: Seq<char>, r: Result<Cell, TbxError>) -> bool {
    match (match vm.compile_state {
        Some(st) => local_lookup(st.local_table@, name),
        None => None,
    }) {
        Some(i) => r == Ok::<Cell, TbxError>(Cell::StackAddr(i)),
        None => match lookup_in(vm.headers@, vm.headers@.len() as int, name, None, false) {
            Some(x) => match vm.headers@[x as int].kind {
                EntryKind::Variable(a) => r == Ok::<Cell, TbxError>(Cell::DictAddr(a)),
                _ => r == Err::<Cell, TbxError>(TbxError::TypeError { expected: "variable", got: "non-variable" }),
            },
            None => r matches Err(TbxError::UndefinedSymbol { name: n }) && n@ == name,
        },
    }
}

/// The address of a variable while compiling.
pub fn resolve_lvalue(vm: &VM, name: &String) -> (r: Result<Cell, TbxError>)
    requires
        vm.wf(),
    ensures
        lvalue_outcome(*vm, name@, r),
{
    let local = match &vm.compile_state {
        Some(st) => table_get(&st.local_table, name),
        None => None,
    };
    match local {
        Some(i) => Ok(Cell::StackAddr(i)),
        None => {
            proof {
                crate::vm::lemma_lookup_in_bounds(vm.headers@, vm.headers@.len() as int, name@, None, false);
            }
            match vm.lookup(name.as_str()) {
                Some(x) => match &vm.headers[x.0].kind {
                    EntryKind::Variable(a) => Ok(Cell::DictAddr(*a)),
                    _ => Err(TbxError::TypeError { expected: "variable", got: "non-variable" }),
                },
                None => Err(TbxError::UndefinedSymbol { name: name.clone() }),
            }
        },
    }
}


/// Length of the token stream (0 when unset).
pub open spec fn stream_len(vm: VM) -> nat {
    match stream(vm) {
        Some(q) => q.len(),
        None => 0,
    }
}

/// Whether a token is the operator `op`.
fn is_op(t: &Token, op: &str) -> (r: bool)
    ensures
        r == (t matches Token::Op(o) && o@ == op@),
{
    match t {
        Token::Op(o) => *o == op.to_owned(),
        _ => false,
    }
}

/// Add a local named `name` to the open definition; returns its slot.
pub fn add_local(vm: &mut VM, name: String, dup_msg: &'static str) -> (r: Result<usize, TbxError>)
    requires
        old(vm).wf(),
    ensures
        final(vm).wf(),
        compiles_only(*old(vm), *final(vm)),
        final(vm).dictionary@ == old(vm).dictionary@,
        final(vm).dp == old(vm).dp,
        final(vm).token_stream == old(vm).token_stream,
        r is Err ==> *final(vm) == *old(vm),
        r matches Ok(i) ==> (old(vm).compile_state matches Some(st) && local_lookup(st.local_table@, name@) is None
            && i == next_local_slot(st) && (final(vm).compile_state matches Some(st2)
            && st2 == (CompileState { local_table: st2.local_table, local_count: st2.local_count, ..st })
            && st2.local_count == st.local_count + 1
            && st2.local_table@ == st.local_table@.push((name, i)))),
        match old(vm).compile_state {
            None => r == Err::<usize, TbxError>(
                TbxError::InvalidExpression { reason: "VAR in compile mode but no compile_state" },
            ),
            Some(st) => if local_lookup(st.local_table@, name@) is Some {
                r == Err::<usize, TbxError>(TbxError::InvalidExpression { reason: dup_msg })
            } else if next_local_slot(st) >= usize::MAX {
                r == Err::<usize, TbxError>(TbxError::InvalidExpression { reason: "too many local variables" })
            } else {
                r is Ok
            },
        },
{
    let mut st = match vm.compile_state.take() {
        Some(st) => st,
        None => {
            return Err(TbxError::InvalidExpression { reason: "VAR in compile mode but no compile_state" });
        },
    };
    if table_get(&st.local_table, &name).is_some() {
        vm.compile_state = Some(st);
        return Err(TbxError::InvalidExpression { reason: dup_msg });
    }
    let idx: usize = if st.is_variadic {
        if st.local_count >= usize::MAX - VARIADIC_LOCAL_BASE {
            vm.compile_state = Some(st);
            return Err(TbxError::InvalidExpression { reason: "too many local variables" });
        }
        VARIADIC_LOCAL_BASE + st.local_count
    } else {
        if st.local_count >= usize::MAX - st.arity {
            vm.compile_state = Some(st);
            return Err(TbxError::InvalidExpression { reason: "too many local variables" });
        }
        st.arity + st.local_count
    };
    st.local_table.push((name, idx));
    st.local_count = st.local_count + 1;
    vm.compile_state = Some(st);
    Ok(idx)
}

/// How many names of `VAR a, b, ...` starting at `i` are followed by a
/// comma.
pub open spec fn var_commas(q: Seq<SpannedToken>, i: int) -> nat
    decreases q.len() - i,
{
    if 0 <= i && i + 1 < q.len() && q[i].token is Ident && q[i + 1].token is Comma {
        1 + var_commas(q, i + 2)
    } else {
        0
    }
}

/// The name (upper-cased) at position `i` of a token list.
pub open spec fn ident_at(q: Seq<SpannedToken>, i: int) -> Seq<char> {
    match q[i].token {
        Token::Ident(id) => upper_seq(id@),
        _ => Seq::empty(),
    }
}

/// Whether a token is the operator `=`.
pub open spec fn is_eq_token(t: SpannedToken) -> bool {
    t.token matches Token::Op(o) && o@ == "="@
}

/// The syntax error of `VAR a, b, ...` (with `= expr` after the last name
/// allowed only inside a definition), if any.
pub open spec fn var_syntax_error(q: Seq<SpannedToken>, in_def: bool) -> Option<TbxError> {
    let e: int = 2 * (var_commas(q, 0) as int);
    if e >= q.len() {
        Some(TbxError::TokenStreamEmpty)
    } else if !(q[e].token is Ident) {
        Some(TbxError::InvalidExpression { reason: "expected variable name after VAR" })
    } else if e + 1 < q.len() && is_eq_token(q[e + 1]) {
        if !in_def {
            Some(TbxError::InvalidExpression { reason: "VAR initializer '= expr' is not allowed outside DEF" })
        } else if e + 2 == q.len() {
            Some(TbxError::InvalidExpression { reason: "VAR initializer: expected expression after '='" })
        } else {
            None
        }
    } else {
        None
    }
}

/// `b` has the first `m` names of the list `q` declared as global
/// variables after those of `a`, each with a fresh `Nil` cell of storage.
pub open spec fn var_globals(a: VM, b: VM, q: Seq<SpannedToken>, m: int) -> bool {
    &&& b.headers@.len() == a.headers@.len() + m
    &&& b.headers@.take(a.headers@.len() as int) == a.headers@
    &&& forall|j: int|
        #![trigger b.headers@[a.headers@.len() + j]]
        0 <= j < m ==> b.headers@[a.headers@.len() + j].name@ == ident_at(q, 2 * j)
            && b.headers@[a.headers@.len() + j].kind == EntryKind::Variable((a.dp + j) as usize)
            && b.headers@[a.headers@.len() + j].flags == 0
    &&& m > 0 ==> b.latest == Some(Xt((b.headers@.len() - 1) as usize))
    &&& b.dp == a.dp + m
    &&& b.dp <= b.dictionary@.len()
    &&& forall|k: int| 0 <= k < a.dp ==> #[trigger] b.dictionary@[k] == a.dictionary@[k]
    &&& forall|j: int| 0 <= j < m ==> #[trigger] b.dictionary@[a.dp + j] == Cell::Nil
}

/// `b` has the first `m` names of the list `q` added as locals of the open
/// definition of `a`, in consecutive slots from the next free one.
pub open spec fn var_locals(a: VM, b: VM, q: Seq<SpannedToken>, m: int) -> bool {
    match (a.compile_state, b.compile_state) {
        (Some(st), Some(st2)) => {
            &&& st2 == (CompileState {
                local_table: st2.local_table,
                local_count: st2.local_count,
                call_patch_list: st2.call_patch_list,
                ..st
            })
            &&& st2.local_count == st.local_count + m
            &&& st2.local_table@.len() == st.local_table@.len() + m
            &&& st2.local_table@.take(st.local_table@.len() as int) == st.local_table@
            &&& forall|j: int|
                #![trigger st2.local_table@[st.local_table@.len() + j]]
                0 <= j < m ==> st2.local_table@[st.local_table@.len() + j].0@ == ident_at(q, 2 * j)
                    && st2.local_table@[st.local_table@.len() + j].1 == next_local_slot(st) + j
        },
        _ => m == 0 && b.compile_state == a.compile_state,
    }
}

/// The first `m` names of a VAR statement are new locals of the open
/// definition `st`: none is a local yet, no two are the same, and the slots
/// they get are below the limit.
pub open spec fn var_fresh(st: CompileState, q: Seq<SpannedToken>, m: int) -> bool {
    &&& forall|k: int| 0 <= k < m ==> local_lookup(st.local_table@, #[trigger] ident_at(q, 2 * k)) is None
    &&& forall|k1: int, k2: int| 0 <= k1 < k2 < m ==> #[trigger] ident_at(q, 2 * k1) != #[trigger] ident_at(q, 2 * k2)
    &&& next_local_slot(st) + m < usize::MAX
}

/// What VAR does with the token stream of `a`: the syntax error, or the
/// declared names (locals inside a definition, with the code of an
/// initializer `LIT slot <expr> SET` for the last one; else global
/// variables). Outside a definition a failure is the syntax error or a full
/// dictionary; inside one, fresh names always succeed, and an initializer
/// that is a flat expression compiles to its reverse Polish code and
/// succeeds when its words are registered and the dictionary has room.
pub open spec fn var_outcome(a: VM, b: VM, r: Result<(), TbxError>) -> bool {
    let q = match stream(a) {
        Some(q) => q,
        None => Seq::empty(),
    };
    let n: int = var_commas(q, 0) as int;
    let e: int = 2 * n;
    match var_syntax_error(q, a.is_compiling) {
        Some(err) => r is Err && (!a.is_compiling ==> ((r == Err::<(), TbxError>(err) && var_globals(a, b, q, n))
            || r matches Err(TbxError::DictionaryOverflow { .. }))) && (!a.is_compiling && a.dp + n
            <= MAX_DICTIONARY_CELLS && a.headers@.len() + n <= crate::vm::MAX_HEADERS ==> r == Err::<(), TbxError>(err)
            && var_globals(a, b, q, n)),
        None => if a.is_compiling {
            ((a.compile_state matches Some(st) && var_fresh(st, q, n + 1) && !(e + 1 < q.len() && is_eq_token(
                q[e + 1],
            ))) ==> r is Ok) && ((a.compile_state matches Some(st) && var_fresh(st, q, n + 1) && e + 1 < q.len()
                && is_eq_token(q[e + 1]) && crate::expr::flat_arith(q.skip(e + 2)) && crate::expr::flat_words_ok(
                a,
                q.skip(e + 2),
            ) && find_kind_in(a.headers@, a.headers@.len() as int, SysKind::Lit) is Some && lookup_in(
                a.headers@,
                a.headers@.len() as int,
                "SET"@,
                None,
                false,
            ) is Some && a.dp + crate::expr::flat_code(a, q.skip(e + 2)).len() + 3 <= MAX_DICTIONARY_CELLS) ==> r is Ok)
                && (r is Ok ==> (var_locals(a, b, q, n + 1) && b.headers@ == a.headers@ && if e + 1 < q.len()
                && is_eq_token(q[e + 1]) {
                (a.compile_state matches Some(st) && b.dp >= a.dp + 3 && b.dp <= b.dictionary@.len()
                    && (forall|k: int| 0 <= k < a.dp ==> #[trigger] b.dictionary@[k] == a.dictionary@[k])
                    && b.dictionary@[a.dp as int] == kind_xt(a, SysKind::Lit) && b.dictionary@[a.dp + 1]
                    == Cell::StackAddr((next_local_slot(st) + n) as usize) && b.dictionary@[b.dp - 1]
                    == word_xt(a, "SET"@) && (crate::expr::flat_arith(q.skip(e + 2)) ==> emitted(
                    a,
                    b,
                    seq![kind_xt(a, SysKind::Lit), Cell::StackAddr((next_local_slot(st) + n) as usize)]
                        + crate::expr::flat_code(a, q.skip(e + 2)) + seq![word_xt(a, "SET"@)],
                )))
            } else {
                b.dictionary@ == a.dictionary@ && b.dp == a.dp && stream(b) == Some(q.skip(e + 1))
            }))
        } else {
            (r is Ok ==> var_globals(a, b, q, n + 1) && stream(b) == Some(q.skip(e + 1))) && (r is Err ==> r matches Err(
                TbxError::DictionaryOverflow { .. },
            )) && (r is Ok <==> (a.dp + n + 1 <= MAX_DICTIONARY_CELLS && a.headers@.len() + n + 1
                <= crate::vm::MAX_HEADERS))
        },
    }
}

proof fn lemma_var_commas_step(q: Seq<SpannedToken>, i: int)
    requires
        0 <= i,
    ensures
        var_commas(q, i) > 0 ==> i + 1 < q.len() && q[i].token is Ident && q[i + 1].token is Comma
            && var_commas(q, i) == 1 + var_commas(q, i + 2),
        var_commas(q, i) == 0 ==> !(i + 1 < q.len() && q[i].token is Ident && q[i + 1].token is Comma),
{
}

/// What `var_prim` does, from the state `pre` to the state `post` with the
/// result `r`.
pub open spec fn var_prim_outcome(pre: VM, post: VM, r: Result<(), TbxError>) -> bool {
    &&& (same_runtime(pre, post))
    &&& (post.is_compiling == pre.is_compiling)
    &&& (post.compile_stack@ == pre.compile_stack@)
    &&& (var_outcome(pre, post, r))
}

/// VAR a, b, ...: declare local variables inside a definition (with an
/// optional `= expr` initializer on the last name), or global variables.
pub fn var_prim(vm: &mut VM) -> (r: Result<(), TbxError>)
    requires
        old(vm).wf(),
    ensures
        final(vm).wf(),
        same_runtime(*old(vm), *final(vm)),
        final(vm).is_compiling == old(vm).is_compiling,
        final(vm).compile_stack@ == old(vm).compile_stack@,
        var_outcome(*old(vm), *final(vm), r),
{
    let ghost q: Seq<SpannedToken> = match stream(*vm) {
        Some(q) => q,
        None => Seq::empty(),
    };
    let ghost n: int = var_commas(q, 0) as int;
    let ghost mut j: int = 0;
    proof {
        assert(old(vm).headers@.take(old(vm).headers@.len() as int) =~= old(vm).headers@);
        if old(vm).compile_state is Some {
            let st = old(vm).compile_state.unwrap();
            assert(st.local_table@.take(st.local_table@.len() as int) =~= st.local_table@);
        }
    }
    loop
        invariant
            vm.wf(),
            same_runtime(*old(vm), *vm),
            vm.is_compiling == old(vm).is_compiling,
            vm.compile_stack@ == old(vm).compile_stack@,
            q == (match stream(*old(vm)) {
                Some(q) => q,
                None => Seq::<SpannedToken>::empty(),
            }),
            n == var_commas(q, 0),
            0 <= j <= n,
            2 * j <= q.len(),
            var_commas(q, 2 * j) + j == n,
            stream(*old(vm)) is None ==> stream(*vm) is None && j == 0,
            stream(*old(vm)) is Some ==> stream(*vm) == Some(q.skip(2 * j)),
            old(vm).is_compiling ==> var_locals(*old(vm), *vm, q, j) && vm.dictionary@ == old(vm).dictionary@
                && vm.dp == old(vm).dp && vm.headers@ == old(vm).headers@ && vm.latest == old(vm).latest
                && vm.pending_use_path == old(vm).pending_use_path,
            !old(vm).is_compiling ==> var_globals(*old(vm), *vm, q, j) && vm.compile_state == old(vm).compile_state,
            old(vm).is_compiling && (old(vm).compile_state matches Some(st) && var_fresh(st, q, n + 1)) ==> (
            vm.compile_state matches Some(stj) && next_local_slot(stj) == next_local_slot(old(vm).compile_state.unwrap())
                + j && forall|k: int| j <= k <= n ==> local_lookup(stj.local_table@, #[trigger] ident_at(q, 2 * k)) is None),
        decreases q.len() - 2 * j,
    {
        proof {
            lemma_var_commas_step(q, 2 * j);
            if stream(*old(vm)) is Some && 2 * j < q.len() {
                assert(q.skip(2 * j)[0] == q[2 * j]);
                assert(q.skip(2 * j).drop_first() =~= q.skip(2 * j + 1));
            }
            if stream(*old(vm)) is Some && 2 * j + 1 < q.len() {
                assert(q.skip(2 * j + 1)[0] == q[2 * j + 1]);
                assert(q.skip(2 * j + 1).drop_first() =~= q.skip(2 * j + 2));
            }
        }
        let ghost v_before = *vm;
        let name = match vm.expect_ident("expected variable name after VAR") {
            Ok(name) => name,
            Err(e) => {
                proof {
                    assert(j == n);
                    assert(2 * n == 2 * (var_commas(q, 0) as int));
                    if 2 * j < q.len() {
                        assert(!(q[2 * j].token is Ident));
                    }
                    assert(var_syntax_error(q, old(vm).is_compiling) == Some(e));
                }
                return Err(e);
            },
        };
        if vm.is_compiling {
            let ghost v_mid = *vm;
            let ghost nm = name@;
            proof {
                if old(vm).compile_state is Some && var_fresh(old(vm).compile_state.unwrap(), q, n + 1) {
                    assert(nm == ident_at(q, 2 * j));
                    assert(local_lookup(v_mid.compile_state.unwrap().local_table@, ident_at(q, 2 * j)) is None);
                }
            }
            let idx = add_local(vm, name, "duplicate local variable name in VAR declaration")?;
            proof {
                let st = old(vm).compile_state.unwrap();
                let st1 = v_mid.compile_state.unwrap();
                let st2 = vm.compile_state.unwrap();
                if var_fresh(st, q, n + 1) {
                    assert forall|k: int| j + 1 <= k <= n implies local_lookup(
                        st2.local_table@,
                        #[trigger] ident_at(q, 2 * k),
                    ) is None by {
                        assert(st2.local_table@.drop_last() =~= st1.local_table@);
                        assert(ident_at(q, 2 * j) != ident_at(q, 2 * k));
                        assert(local_lookup(st1.local_table@, ident_at(q, 2 * k)) is None);
                    }
                }
                assert(st2.local_table@.take(st.local_table@.len() as int) =~= st.local_table@) by {
                    assert(st1.local_table@.take(st.local_table@.len() as int) == st.local_table@);
                }
                assert forall|k: int|
                    #![trigger st2.local_table@[st.local_table@.len() + k]]
                    0 <= k < j + 1 implies st2.local_table@[st.local_table@.len() + k].0@ == ident_at(q, 2 * k)
                    && st2.local_table@[st.local_table@.len() + k].1 == next_local_slot(st) + k by {
                    if k < j {
                        assert(st2.local_table@[st.local_table@.len() + k] == st1.local_table@[st.local_table@.len()
                            + k]);
                    }
                }
            }
            match vm.next_token() {
                Ok(t) => {
                    if is_op(&t.token, "=") {
                        let ghost v_eq = *vm;
                        let rest = vm.drain_tokens()?;
                        if rest.len() == 0 {
                            return Err(
                                TbxError::InvalidExpression { reason: "VAR initializer: expected expression after '='" },
                            );
                        }
                        let ghost v0 = *vm;
                        proof {
                            lemma_var_commas_step(q, 2 * j);
                            assert(rest@ =~= q.skip(2 * j + 2));
                            crate::expr::lemma_flat_code_headers(*old(vm), v0, rest@);
                        }
                        emit_kind(vm, SysKind::Lit, "LIT")?;
                        let ghost v1 = *vm;
                        vm.dict_write(Cell::StackAddr(idx))?;
                        let ghost v2 = *vm;
                        proof {
                            crate::expr::lemma_flat_code_headers(*old(vm), v2, rest@);
                        }
                        emit_expr(vm, rest.as_slice())?;
                        let set = match vm.lookup("SET") {
                            Some(x) => x,
                            None => {
                                return Err(TbxError::UndefinedSymbol { name: "SET".to_owned() });
                            },
                        };
                        let ghost v3 = *vm;
                        vm.dict_write(Cell::Xt(set))?;
                        proof {
                            lemma_emitted_write(v0, v1, kind_xt(v0, SysKind::Lit));
                            lemma_emitted_write(v1, v2, Cell::StackAddr(idx));
                            lemma_emitted_write(v3, *vm, Cell::Xt(set));
                            lemma_var_commas_step(q, 2 * j + 2);
                            assert(vm.dictionary@[v0.dp + 0] == v3.dictionary@[v0.dp + 0]);
                            assert(v3.dictionary@[v0.dp + 0] == v2.dictionary@[v0.dp + 0]);
                            assert(v2.dictionary@[v0.dp + 0] == v1.dictionary@[v0.dp + 0]);
                            assert(vm.dictionary@[v0.dp + 1] == v3.dictionary@[v0.dp + 1]);
                            assert(v3.dictionary@[v0.dp + 1] == v2.dictionary@[v1.dp + 0]);
                            assert(var_locals(*old(vm), *vm, q, j + 1));
                            if crate::expr::flat_arith(rest@) {
                                let head = seq![kind_xt(v0, SysKind::Lit), Cell::StackAddr(idx)];
                                let mid = crate::expr::flat_code(v0, rest@);
                                lemma_emitted_trans(v0, v1, v2, seq![kind_xt(v0, SysKind::Lit)], seq![Cell::StackAddr(idx)]);
                                assert(seq![kind_xt(v0, SysKind::Lit)] + seq![Cell::StackAddr(idx)] =~= head);
                                assert(emitted(v2, v3, mid));
                                lemma_emitted_trans(v0, v2, v3, head, mid);
                                lemma_emitted_trans(v0, v3, *vm, head + mid, seq![Cell::Xt(set)]);
                            }
                        }
                        return Ok(());
                    } else if matches!(t.token, Token::Comma) {
                        proof {
                            j = j + 1;
                        }
                    } else {
                        vm.push_front_token(t);
                        proof {
                            lemma_var_commas_step(q, 2 * j);
                            assert(seq![q[2 * j + 1]] + q.skip(2 * j + 2) =~= q.skip(2 * j + 1));
                        }
                        return Ok(());
                    }
                },
                Err(_) => {
                    proof {
                        assert(q.skip(2 * j + 1) =~= Seq::<SpannedToken>::empty());
                    }
                    return Ok(());
                },
            }
        } else {
            let ghost v_mid = *vm;
            let peek = vm.next_token();
            let mut more = false;
            let mut back: Option<SpannedToken> = None;
            match peek {
                Ok(t) => {
                    if is_op(&t.token, "=") {
                        proof {
                            assert(j == n);
                            assert(is_eq_token(q[2 * j + 1]));
                        }
                        return Err(
                            TbxError::InvalidExpression { reason: "VAR initializer '= expr' is not allowed outside DEF" },
                        );
                    } else if matches!(t.token, Token::Comma) {
                        more = true;
                    } else {
                        back = Some(t);
                    }
                },
                Err(_) => {},
            }
            let ghost v1 = *vm;
            let storage = vm.dp;
            vm.dict_write(Cell::Nil)?;
            let ghost v2 = *vm;
            let entry = WordEntry::new_variable(name.as_str(), storage);
            vm.register(entry)?;
            proof {
                let h0 = old(vm).headers@.len();
                assert(vm.headers@.take(h0 as int) =~= v2.headers@.take(h0 as int));
                assert forall|k: int|
                    #![trigger vm.headers@[h0 + k]]
                    0 <= k < j + 1 implies vm.headers@[h0 + k].name@ == ident_at(q, 2 * k)
                    && vm.headers@[h0 + k].kind == EntryKind::Variable((old(vm).dp + k) as usize) by {
                    if k < j {
                        assert(vm.headers@[h0 + k] == v2.headers@[h0 + k]);
                    }
                }
                assert forall|k: int| 0 <= k < old(vm).dp implies #[trigger] vm.dictionary@[k]
                    == old(vm).dictionary@[k] by {
                    assert(vm.dictionary@[k] == v1.dictionary@[k]);
                }
                assert forall|k: int| 0 <= k < j + 1 implies #[trigger] vm.dictionary@[old(vm).dp + k] == Cell::Nil by {
                    if k < j {
                        assert(vm.dictionary@[old(vm).dp + k] == v1.dictionary@[old(vm).dp + k]);
                    }
                }
                assert(var_globals(*old(vm), *vm, q, j + 1));
            }
            match back {
                Some(t) => {
                    vm.push_front_token(t);
                    proof {
                        lemma_var_commas_step(q, 2 * j);
                        assert(seq![q[2 * j + 1]] + q.skip(2 * j + 2) =~= q.skip(2 * j + 1));
                    }
                    return Ok(());
                },
                None => {},
            }
            if !more {
                proof {
                    assert(q.skip(2 * j + 1) =~= Seq::<SpannedToken>::empty());
                }
                return Ok(());
            }
            proof {
                j = j + 1;
            }
        }
    }
}

/// Where scanning for the `]` that closes an open `[` stops in `q`, from
/// index `i` with `depth` brackets open: at that `]`, at the first line end
/// (`Newline` or `Eof`) that comes before it, or at `q.len()`.
pub open spec fn bracket_stop(q: Seq<SpannedToken>, i: int, depth: int) -> int
    decreases q.len() - i,
{
    if i < 0 || i >= q.len() {
        q.len() as int
    } else {
        match q[i].token {
            Token::LBracket => bracket_stop(q, i + 1, if depth < usize::MAX { depth + 1 } else { depth }),
            Token::RBracket => if depth <= 1 {
                i
            } else {
                bracket_stop(q, i + 1, depth - 1)
            },
            Token::Newline | Token::Eof => i,
            _ => bracket_stop(q, i + 1, depth),
        }
    }
}

pub proof fn lemma_bracket_stop_range(q: Seq<SpannedToken>, i: int, depth: int)
    requires
        0 <= i <= q.len(),
    ensures
        i <= bracket_stop(q, i, depth) <= q.len(),
    decreases q.len() - i,
{
    if i < q.len() {
        match q[i].token {
            Token::LBracket => lemma_bracket_stop_range(q, i + 1, if depth < usize::MAX { depth + 1 } else { depth }),
            Token::RBracket => if depth > 1 {
                lemma_bracket_stop_range(q, i + 1, depth - 1);
            },
            Token::Newline | Token::Eof => {},
            _ => lemma_bracket_stop_range(q, i + 1, depth),
        }
    }
}

/// What taking a bracketed token list from the stream `s` gives: the
/// tokens before the closing `]` (which is consumed too), or the error for
/// a line end, or for running out of tokens, before it.
pub open spec fn bracketed_outcome(
    s: Option<Seq<SpannedToken>>,
    after: Option<Seq<SpannedToken>>,
    unterminated: &'static str,
    eol: &'static str,
    r: Result<Vec<SpannedToken>, TbxError>,
) -> bool {
    match s {
        None => r == Err::<Vec<SpannedToken>, TbxError>(TbxError::InvalidExpression { reason: unterminated }),
        Some(q) => {
            let k = bracket_stop(q, 0, 1);
            if k >= q.len() {
                r == Err::<Vec<SpannedToken>, TbxError>(TbxError::InvalidExpression { reason: unterminated })
            } else if q[k].token is RBracket {
                r matches Ok(out) && out@ == q.take(k) && after == Some(q.skip(k + 1))
            } else {
                r == Err::<Vec<SpannedToken>, TbxError>(TbxError::InvalidExpression { reason: eol })
            }
        },
    }
}

/// Take the tokens up to the `]` that closes an already consumed `[`.
pub fn take_bracketed(vm: &mut VM, unterminated: &'static str, eol: &'static str) -> (r: Result<Vec<SpannedToken>, TbxError>)
    requires
        old(vm).wf(),
    ensures
        final(vm).wf(),
        crate::vm::only_tokens_changed(*old(vm), *final(vm)),
        bracketed_outcome(stream(*old(vm)), stream(*final(vm)), unterminated, eol, r),
{
    let mut out: Vec<SpannedToken> = Vec::new();
    let mut depth: usize = 1;
    let ghost q: Seq<SpannedToken> = match stream(*vm) {
        Some(q) => q,
        None => Seq::empty(),
    };
    let ghost i: int = 0;
    proof {
        lemma_bracket_stop_range(q, 0, 1);
    }
    loop
        invariant
            vm.wf(),
            crate::vm::only_tokens_changed(*old(vm), *vm),
            depth >= 1,
            0 <= i <= bracket_stop(q, 0, 1) <= q.len(),
            bracket_stop(q, i, depth as int) == bracket_stop(q, 0, 1),
            stream(*old(vm)) is None ==> stream(*vm) is None,
            stream(*old(vm)) is Some ==> stream(*old(vm)) == Some(q) && stream(*vm) == Some(q.skip(i)),
            out@ == q.take(i),
        decreases q.len() - i,
    {
        let t = match vm.next_token() {
            Ok(t) => t,
            Err(_) => {
                return Err(TbxError::InvalidExpression { reason: unterminated });
            },
        };
        proof {
            assert(q.skip(i)[0] == q[i]);
            assert(q.skip(i).drop_first() =~= q.skip(i + 1));
            assert(q.take(i + 1) =~= q.take(i).push(q[i]));
        }
        match t.token {
            Token::LBracket => {
                if depth < usize::MAX {
                    depth = depth + 1;
                }
                out.push(t);
                proof {
                    i = i + 1;
                    lemma_bracket_stop_range(q, i, depth as int);
                }
            },
            Token::RBracket => {
                if depth == 1 {
                    return Ok(out);
                }
                depth = depth - 1;
                out.push(t);
                proof {
                    i = i + 1;
                    lemma_bracket_stop_range(q, i, depth as int);
                }
            },
            Token::Newline | Token::Eof => {
                return Err(TbxError::InvalidExpression { reason: eol });
            },
            _ => {
                out.push(t);
                proof {
                    i = i + 1;
                    lemma_bracket_stop_range(q, i, depth as int);
                }
            },
        }
    }
}

/// The address an array handle `name` is loaded from while compiling: its
/// local slot, else the storage of the global variable of that name.
pub open spec fn handle_addr(vm: VM, name: Seq<char>) -> Option<Cell> {
    match (match vm.compile_state {
        Some(st) => local_lookup(st.local_table@, name),
        None => None,
    }) {
        Some(i) => Some(Cell::StackAddr(i)),
        None => match lookup_in(vm.headers@, vm.headers@.len() as int, name, None, false) {
            Some(x) => match vm.headers@[x as int].kind {
                EntryKind::Variable(a) => Some(Cell::DictAddr(a)),
                _ => None,
            },
            None => None,
        },
    }
}

/// The error for an array handle name that is neither a local nor a
/// global variable.
pub open spec fn handle_error(vm: VM, name: Seq<char>, e: TbxError) -> bool {
    match lookup_in(vm.headers@, vm.headers@.len() as int, name, None, false) {
        None => e matches TbxError::UndefinedSymbol { name: n } && n@ == name,
        Some(_) => e == TbxError::TypeError { expected: "array variable for LET @-sigil lvalue", got: "non-variable" },
    }
}

/// The execution token of the most recent internal word of kind `k`.
pub open spec fn kind_xt(vm: VM, k: SysKind) -> Cell {
    Cell::Xt(Xt(find_kind_in(vm.headers@, vm.headers@.len() as int, k).unwrap()))
}

/// The execution token of the visible word `name`.
pub open spec fn word_xt(vm: VM, name: Seq<char>) -> Cell {
    Cell::Xt(Xt(lookup_in(vm.headers@, vm.headers@.len() as int, name, None, false).unwrap()))
}

/// Emit `LIT addr FETCH` that loads an array handle: a local slot, else a
/// global variable.
fn emit_handle_load(vm: &mut VM, name: &String) -> (r: Result<(), TbxError>)
    requires
        old(vm).wf(),
    ensures
        final(vm).wf(),
        compiles_only(*old(vm), *final(vm)),
        final(vm).token_stream == old(vm).token_stream,
        final(vm).compile_state == old(vm).compile_state,
        handle_addr(*old(vm), name@) is None ==> (r matches Err(e) && handle_error(*old(vm), name@, e)),
        r is Ok <==> (handle_addr(*old(vm), name@) is Some && lookup_in(
            old(vm).headers@,
            old(vm).headers@.len() as int,
            "FETCH"@,
            None,
            false,
        ) is Some && find_kind_in(old(vm).headers@, old(vm).headers@.len() as int, SysKind::Lit) is Some
            && old(vm).dp + 3 <= MAX_DICTIONARY_CELLS),
        r is Ok ==> (handle_addr(*old(vm), name@) matches Some(addr) && emitted(
            *old(vm),
            *final(vm),
            seq![kind_xt(*old(vm), SysKind::Lit), addr, word_xt(*old(vm), "FETCH"@)],
        )),
{
    let local = match &vm.compile_state {
        Some(st) => table_get(&st.local_table, name),
        None => None,
    };
    let addr = match local {
        Some(i) => Cell::StackAddr(i),
        None => {
            proof {
                crate::vm::lemma_lookup_in_bounds(vm.headers@, vm.headers@.len() as int, name@, None, false);
            }
            let x = match vm.lookup(name.as_str()) {
                Some(x) => x,
                None => {
                    return Err(TbxError::UndefinedSymbol { name: name.clone() });
                },
            };
            match &vm.headers[x.0].kind {
                EntryKind::Variable(a) => Cell::DictAddr(*a),
                _ => {
                    return Err(TbxError::TypeError { expected: "array variable for LET @-sigil lvalue", got: "non-variable" });
                },
            }
        },
    };
    let fetch = match vm.lookup("FETCH") {
        Some(x) => x,
        None => {
            return Err(TbxError::UndefinedSymbol { name: "FETCH".to_owned() });
        },
    };
    let ghost v0 = *vm;
    emit_kind(vm, SysKind::Lit, "LIT")?;
    let ghost v1 = *vm;
    vm.dict_write(addr.dup())?;
    let ghost v2 = *vm;
    vm.dict_write(Cell::Xt(fetch))?;
    proof {
        lemma_emitted_write(v0, v1, kind_xt(v0, SysKind::Lit));
        lemma_emitted_write(v1, v2, addr);
        lemma_emitted_write(v2, *vm, Cell::Xt(fetch));
        lemma_emitted_trans(v0, v1, v2, seq![kind_xt(v0, SysKind::Lit)], seq![addr]);
        lemma_emitted_trans(v0, v2, *vm, seq![kind_xt(v0, SysKind::Lit)] + seq![addr], seq![Cell::Xt(fetch)]);
        assert(seq![kind_xt(v0, SysKind::Lit)] + seq![addr] + seq![Cell::Xt(fetch)] =~= seq![
            kind_xt(v0, SysKind::Lit),
            addr,
            word_xt(v0, "FETCH"@),
        ]);
    }
    Ok(())
}

/// What COMPILE_LVALUE does after `@` in the state `a` with the tokens
/// `s` left: the error for a malformed `A[i]`, or (on success) the code
/// that leaves the element's address: `LIT addr FETCH`, the index code and
/// ARRAY_ADDR, with the stream left after the closing `]`.
pub open spec fn at_lvalue_outcome(a: VM, s: Option<Seq<SpannedToken>>, b: VM, r: Result<(), TbxError>) -> bool {
    match s {
        None => r == Err::<(), TbxError>(TbxError::TokenStreamEmpty),
        Some(q) => if q.len() == 0 {
            r == Err::<(), TbxError>(TbxError::TokenStreamEmpty)
        } else if !(q[0].token is Ident) {
            r == Err::<(), TbxError>(
                TbxError::InvalidExpression { reason: "LET @: expected array binding identifier (e.g. LET @A[i] = expr)" },
            )
        } else if q.len() == 1 {
            r == Err::<(), TbxError>(
                TbxError::InvalidExpression { reason: "LET @A: expected '[' after array name (e.g. LET @A[i] = expr)" },
            )
        } else if !(q[1].token is LBracket) {
            r == Err::<(), TbxError>(
                TbxError::InvalidExpression {
                    reason: "LET @A: expected '[' — bare '@A' is not a valid lvalue (use LET @A[i] = expr)",
                },
            )
        } else {
            let rest = q.skip(2);
            let k = bracket_stop(rest, 0, 1);
            if k >= rest.len() {
                r == Err::<(), TbxError>(TbxError::InvalidExpression { reason: "LET @A[: unterminated '[' — expected ']'" })
            } else if !(rest[k].token is RBracket) {
                r == Err::<(), TbxError>(
                    TbxError::InvalidExpression { reason: "LET @A[: unterminated '[' — unexpected end of line" },
                )
            } else if k == 0 {
                r == Err::<(), TbxError>(
                    TbxError::InvalidExpression {
                        reason: "LET @A[]: array index expression must not be empty (use LET @A[i] = expr)",
                    },
                )
            } else {
                r is Ok ==> (q[0].token matches Token::Ident(id) && (handle_addr(a, upper_seq(id@)) matches Some(addr)
                    && b.dp >= a.dp + 4 && b.dp <= b.dictionary@.len()
                    && (forall|j: int| 0 <= j < a.dp ==> #[trigger] b.dictionary@[j] == a.dictionary@[j])
                    && b.dictionary@[a.dp as int] == kind_xt(a, SysKind::Lit) && b.dictionary@[a.dp + 1] == addr
                    && b.dictionary@[a.dp + 2] == word_xt(a, "FETCH"@) && b.dictionary@[b.dp - 1] == Cell::Xt(
                    Xt(lookup_in(a.headers@, a.headers@.len() as int, "ARRAY_ADDR"@, None, true).unwrap()),
                ) && stream(b) == Some(rest.skip(k + 1)))) && (crate::expr::flat_arith(rest.take(k)) ==> (q[0].token matches Token::Ident(id) && {
                    let code = seq![kind_xt(a, SysKind::Lit), handle_addr(a, upper_seq(id@)).unwrap(), word_xt(a, "FETCH"@)]
                        + crate::expr::flat_code(a, rest.take(k)) + seq![
                        Cell::Xt(Xt(lookup_in(a.headers@, a.headers@.len() as int, "ARRAY_ADDR"@, None, true).unwrap())),
                    ];
                    &&& r is Ok ==> emitted(a, b, code)
                    &&& (handle_addr(a, upper_seq(id@)) is Some && find_kind_in(
                        a.headers@,
                        a.headers@.len() as int,
                        SysKind::Lit,
                    ) is Some && lookup_in(a.headers@, a.headers@.len() as int, "FETCH"@, None, false) is Some
                        && lookup_in(a.headers@, a.headers@.len() as int, "ARRAY_ADDR"@, None, true) is Some
                        && crate::expr::flat_words_ok(a, rest.take(k)) && a.dp + code.len() <= MAX_DICTIONARY_CELLS)
                        ==> r is Ok
                    &&& (handle_addr(a, upper_seq(id@)) is None && crate::expr::flat_words_ok(a, rest.take(k))
                        && lookup_in(a.headers@, a.headers@.len() as int, "ARRAY_ADDR"@, None, true) is Some) ==> (r matches Err(
                        e,
                    ) && handle_error(a, upper_seq(id@), e))
                }))
            }
        },
    }
}

/// After `@` of `LET @A[i] = ...`: emit the code that leaves the address
/// of element `i` of array `A`.
pub fn compile_at_array_lvalue(vm: &mut VM) -> (r: Result<(), TbxError>)
    requires
        old(vm).wf(),
    ensures
        final(vm).wf(),
        compiles_only(*old(vm), *final(vm)),
        at_lvalue_outcome(*old(vm), stream(*old(vm)), *final(vm), r),
        same_but_patches(old(vm).compile_state, final(vm).compile_state),
        (stream(*old(vm)) matches Some(q) && q.len() > 0 && (q[0].token matches Token::Ident(id) && handle_addr(
            *old(vm),
            upper_seq(id@),
        ) is None)) ==> r is Err,
{
    let ghost v0 = *vm;
    let name = match vm.next_token() {
        Ok(t) => match t.token {
            Token::Ident(n) => crate::text::upper_string(n.as_str()),
            _ => {
                return Err(
                    TbxError::InvalidExpression {
                        reason: "LET @: expected array binding identifier (e.g. LET @A[i] = expr)",
                    },
                );
            },
        },
        Err(e) => {
            return Err(e);
        },
    };
    let lb = match vm.next_token() {
        Ok(t) => t,
        Err(_) => {
            return Err(
                TbxError::InvalidExpression { reason: "LET @A: expected '[' after array name (e.g. LET @A[i] = expr)" },
            );
        },
    };
    if !matches!(lb.token, Token::LBracket) {
        return Err(
            TbxError::InvalidExpression {
                reason: "LET @A: expected '[' — bare '@A' is not a valid lvalue (use LET @A[i] = expr)",
            },
        );
    }
    proof {
        let q = stream(v0).unwrap();
        assert(q.drop_first().drop_first() =~= q.skip(2));
    }
    let idx = take_bracketed(
        vm,
        "LET @A[: unterminated '[' — expected ']'",
        "LET @A[: unterminated '[' — unexpected end of line",
    )?;
    if idx.len() == 0 {
        return Err(
            TbxError::InvalidExpression {
                reason: "LET @A[]: array index expression must not be empty (use LET @A[i] = expr)",
            },
        );
    }
    let ghost v1 = *vm;
    proof {
        crate::expr::lemma_flat_code_headers(v0, v1, idx@);
    }
    let (cells, offs) = compile_tokens(vm, idx.as_slice())?;
    let addr_xt = match vm.lookup_hidden_system("ARRAY_ADDR") {
        Some(x) => x,
        None => {
            return Err(TbxError::UndefinedSymbol { name: "ARRAY_ADDR".to_owned() });
        },
    };
    let ghost vh = *vm;
    emit_handle_load(vm, &name)?;
    let ghost v2 = *vm;
    emit_cells(vm, cells, offs)?;
    let ghost v3 = *vm;
    vm.dict_write(Cell::Xt(addr_xt))?;
    proof {
        lemma_emitted_write(v3, *vm, Cell::Xt(addr_xt));
        if crate::expr::flat_arith(idx@) {
            let head = seq![kind_xt(v0, SysKind::Lit), handle_addr(v0, name@).unwrap(), word_xt(v0, "FETCH"@)];
            let mid = crate::expr::flat_code(v0, idx@);
            assert(emitted(v2, v3, mid));
            lemma_emitted_trans(vh, v2, v3, head, mid);
            lemma_emitted_trans(vh, v3, *vm, head + mid, seq![Cell::Xt(addr_xt)]);
        }
        assert(vm.dictionary@[v0.dp + 0] == v2.dictionary@[v0.dp + 0]);
        assert(vm.dictionary@[v0.dp + 1] == v2.dictionary@[v0.dp + 1]);
        assert(vm.dictionary@[v0.dp + 2] == v2.dictionary@[v0.dp + 2]);
    }
    Ok(())
}

/// What `compile_lvalue_prim` does, from the state `pre` to the state `post` with the
/// result `r`.
pub open spec fn compile_lvalue_prim_outcome(pre: VM, post: VM, r: Result<(), TbxError>) -> bool {
    &&& (compiles_only(pre, post))
    &&& (!pre.is_compiling ==> r == Err::<(), TbxError>(
            TbxError::InvalidExpression { reason: "COMPILE_LVALUE outside compile mode" },
        ) && post == pre)
    &&& (same_but_patches(pre.compile_state, post.compile_state))
    &&& (pre.is_compiling ==> match stream(pre) {
            Some(q) => if q.len() == 0 {
                r == Err::<(), TbxError>(TbxError::TokenStreamEmpty)
            } else {
                match q[0].token {
                    Token::At => at_lvalue_outcome(pre, Some(q.drop_first()), post, r),
                    Token::Ident(id) => (r is Ok <==> (handle_addr(pre, upper_seq(id@)) is Some && find_kind_in(
                        pre.headers@,
                        pre.headers@.len() as int,
                        SysKind::Lit,
                    ) is Some && pre.dp + 2 <= MAX_DICTIONARY_CELLS)) && (r is Ok ==> (handle_addr(
                        pre,
                        upper_seq(id@),
                    ) matches Some(addr) && emitted(
                        pre,
                        post,
                        seq![kind_xt(pre, SysKind::Lit), addr],
                    ))) && (handle_addr(pre, upper_seq(id@)) is None ==> (r matches Err(e)
                        && lvalue_outcome(pre, upper_seq(id@), Err(e)))) && (r is Ok ==> stream(post)
                        == Some(q.drop_first())),
                    _ => r == Err::<(), TbxError>(
                        TbxError::InvalidExpression {
                            reason: "COMPILE_LVALUE: expected variable name or '@' for array element assignment",
                        },
                    ),
                }
            },
            None => r == Err::<(), TbxError>(TbxError::TokenStreamEmpty),
        })
}

/// COMPILE_LVALUE: read a variable name (or `@A[i]`) and emit the code that
/// leaves its address.
pub fn compile_lvalue_prim(vm: &mut VM) -> (r: Result<(), TbxError>)
    requires
        old(vm).wf(),
    ensures
        final(vm).wf(),
        compiles_only(*old(vm), *final(vm)),
        !old(vm).is_compiling ==> r == Err::<(), TbxError>(
            TbxError::InvalidExpression { reason: "COMPILE_LVALUE outside compile mode" },
        ) && *final(vm) == *old(vm),
        same_but_patches(old(vm).compile_state, final(vm).compile_state),
        old(vm).is_compiling ==> match stream(*old(vm)) {
            Some(q) => if q.len() == 0 {
                r == Err::<(), TbxError>(TbxError::TokenStreamEmpty)
            } else {
                match q[0].token {
                    Token::At => at_lvalue_outcome(*old(vm), Some(q.drop_first()), *final(vm), r),
                    Token::Ident(id) => (r is Ok <==> (handle_addr(*old(vm), upper_seq(id@)) is Some && find_kind_in(
                        old(vm).headers@,
                        old(vm).headers@.len() as int,
                        SysKind::Lit,
                    ) is Some && old(vm).dp + 2 <= MAX_DICTIONARY_CELLS)) && (r is Ok ==> (handle_addr(
                        *old(vm),
                        upper_seq(id@),
                    ) matches Some(addr) && emitted(
                        *old(vm),
                        *final(vm),
                        seq![kind_xt(*old(vm), SysKind::Lit), addr],
                    ))) && (handle_addr(*old(vm), upper_seq(id@)) is None ==> (r matches Err(e)
                        && lvalue_outcome(*old(vm), upper_seq(id@), Err(e)))) && (r is Ok ==> stream(*final(vm))
                        == Some(q.drop_first())),
                    _ => r == Err::<(), TbxError>(
                        TbxError::InvalidExpression {
                            reason: "COMPILE_LVALUE: expected variable name or '@' for array element assignment",
                        },
                    ),
                }
            },
            None => r == Err::<(), TbxError>(TbxError::TokenStreamEmpty),
        },
{
    if !vm.is_compiling {
        return Err(TbxError::InvalidExpression { reason: "COMPILE_LVALUE outside compile mode" });
    }
    let t = vm.next_token()?;
    match t.token {
        Token::At => {
            proof {
                let q = stream(*vm).unwrap();
                let rest = q.skip(2);
                crate::expr::lemma_flat_code_headers(*old(vm), *vm, rest.take(bracket_stop(rest, 0, 1)));
            }
            compile_at_array_lvalue(vm)
        },
        Token::Ident(raw) => {
            let name = crate::text::upper_string(raw.as_str());
            let addr = resolve_lvalue(vm, &name)?;
            assert(lvalue_outcome(*old(vm), name@, Ok(addr)));
            assert(handle_addr(*old(vm), name@) == Some(addr));
            let ghost v0 = *vm;
            emit_kind(vm, SysKind::Lit, "LIT")?;
            let ghost v1 = *vm;
            vm.dict_write(addr.dup())?;
            proof {
                lemma_emitted_write(v0, v1, kind_xt(v0, SysKind::Lit));
                lemma_emitted_write(v1, *vm, addr);
                lemma_emitted_trans(v0, v1, *vm, seq![kind_xt(v0, SysKind::Lit)], seq![addr]);
                assert(seq![kind_xt(v0, SysKind::Lit)] + seq![addr] =~= seq![kind_xt(v0, SysKind::Lit), addr]);
            }
            Ok(())
        },
        _ => Err(
            TbxError::InvalidExpression {
                reason: "COMPILE_LVALUE: expected variable name or '@' for array element assignment",
            },
        ),
    }
}

/// What `compile_lvalue_save_prim` does, from the state `pre` to the state `post` with the
/// result `r`.
pub open spec fn compile_lvalue_save_prim_outcome(pre: VM, post: VM, r: Result<(), TbxError>) -> bool {
    &&& (same_runtime(pre, post))
    &&& (eq_headers(pre, post))
    &&& (!pre.is_compiling ==> r == Err::<(), TbxError>(
            TbxError::InvalidExpression { reason: "COMPILE_LVALUE_SAVE outside compile mode" },
        ) && post == pre)
    &&& (r is Ok ==> post.compile_stack@.len() == pre.compile_stack@.len() + 1
            && post.compile_stack@.drop_last() == pre.compile_stack@)
    &&& (r is Err ==> post.compile_stack@ == pre.compile_stack@)
}

/// COMPILE_LVALUE_SAVE &name: emit `LIT addr` and keep `addr` on the
/// compile stack.
pub fn compile_lvalue_save_prim(vm: &mut VM) -> (r: Result<(), TbxError>)
    requires
        old(vm).wf(),
    ensures
        final(vm).wf(),
        same_runtime(*old(vm), *final(vm)),
        eq_headers(*old(vm), *final(vm)),
        !old(vm).is_compiling ==> r == Err::<(), TbxError>(
            TbxError::InvalidExpression { reason: "COMPILE_LVALUE_SAVE outside compile mode" },
        ) && *final(vm) == *old(vm),
        r is Ok ==> final(vm).compile_stack@.len() == old(vm).compile_stack@.len() + 1
            && final(vm).compile_stack@.drop_last() == old(vm).compile_stack@,
        r is Err ==> final(vm).compile_stack@ == old(vm).compile_stack@,
{
    if !vm.is_compiling {
        return Err(TbxError::InvalidExpression { reason: "COMPILE_LVALUE_SAVE outside compile mode" });
    }
    vm.expect_ampersand("COMPILE_LVALUE_SAVE: expected '&' before variable name")?;
    let name = vm.expect_ident("COMPILE_LVALUE_SAVE: expected variable name")?;
    let addr = resolve_lvalue(vm, &name)?;
    emit_kind(vm, SysKind::Lit, "LIT")?;
    vm.dict_write(addr.dup())?;
    let ghost cs = vm.compile_stack@;
    vm.compile_stack.push(CompileEntry::Cell(addr));
    assert(vm.compile_stack@.drop_last() =~= cs);
    Ok(())
}

/// What `use_prim` does, from the state `pre` to the state `post` with the
/// result `r`.
pub open spec fn use_prim_outcome(pre: VM, post: VM, r: Result<(), TbxError>) -> bool {
    &&& (same_runtime(pre, post))
    &&& (eq_headers(pre, post))
    &&& (pre.is_compiling ==> r == Err::<(), TbxError>(
            TbxError::InvalidExpression { reason: "USE cannot be called inside a DEF body" },
        ) && post == pre)
    &&& (r is Ok ==> (stream(pre) matches Some(q) && q.len() == 1 && (q[0].token matches Token::StringLit(p)
            && post.pending_use_path == Some(p))))
    &&& (r is Err ==> post.pending_use_path == pre.pending_use_path)
    &&& (!pre.is_compiling ==> (r is Ok <==> (stream(pre) matches Some(q) && q.len() == 1
            && q[0].token is StringLit)))
    &&& (!pre.is_compiling && (stream(pre) matches Some(q) && q.len() > 1 && q[0].token is StringLit)
            ==> r == Err::<(), TbxError>(
            TbxError::InvalidExpression { reason: "USE does not accept tokens after the path argument" },
        ))
}

/// USE "path": request that the host load and run a source file. Only at
/// the top level, and nothing may follow the path.
pub fn use_prim(vm: &mut VM) -> (r: Result<(), TbxError>)
    requires
        old(vm).wf(),
    ensures
        final(vm).wf(),
        same_runtime(*old(vm), *final(vm)),
        eq_headers(*old(vm), *final(vm)),
        old(vm).is_compiling ==> r == Err::<(), TbxError>(
            TbxError::InvalidExpression { reason: "USE cannot be called inside a DEF body" },
        ) && *final(vm) == *old(vm),
        r is Ok ==> (stream(*old(vm)) matches Some(q) && q.len() == 1 && (q[0].token matches Token::StringLit(p)
            && final(vm).pending_use_path == Some(p))),
        r is Err ==> final(vm).pending_use_path == old(vm).pending_use_path,
        !old(vm).is_compiling ==> (r is Ok <==> (stream(*old(vm)) matches Some(q) && q.len() == 1
            && q[0].token is StringLit)),
        !old(vm).is_compiling && (stream(*old(vm)) matches Some(q) && q.len() > 1 && q[0].token is StringLit)
            ==> r == Err::<(), TbxError>(
            TbxError::InvalidExpression { reason: "USE does not accept tokens after the path argument" },
        ),
{
    if vm.is_compiling {
        return Err(TbxError::InvalidExpression { reason: "USE cannot be called inside a DEF body" });
    }
    let path = vm.expect_string_lit("USE expects a string literal as its argument")?;
    let rest = match &vm.token_stream {
        Some(q) => q.len(),
        None => 0,
    };
    if rest > 0 {
        return Err(TbxError::InvalidExpression { reason: "USE does not accept tokens after the path argument" });
    }
    vm.pending_use_path = Some(path);
    Ok(())
}

} // verus!
