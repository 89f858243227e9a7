//! Dictionary, control and miscellaneous runtime primitives.
use vstd::prelude::*;
use crate::cell::{Cell, ReturnFrame, Xt, variant_name_of};
use crate::constants::{MAX_DICTIONARY_CELLS, MAX_DATA_STACK_DEPTH};
use crate::dict::{WordEntry, FLAG_IMMEDIATE, has_flag};
use crate::error::TbxError;
use crate::primitives::memory::frame_arity;
use crate::random::{rng_range_1_to, rng_from_os};
use crate::error::push_str;
use crate::text::{push_i64_decimal, chars_to_string, int_decimal};
use crate::vm::{
    VM, only_data_changed, eq_dictionary, eq_headers, eq_control, eq_compile, eq_io, eq_rest,
    lookup_in, stream, MAX_HEADERS,
};
use crate::lexer::{SpannedToken, Token};
use crate::text::upper_seq;

verus! {

/// What `append_prim` does, from the state `pre` to the state `post` with the
/// result `r`.
pub open spec fn append_prim_outcome(pre: VM, post: VM, r: Result<(), TbxError>) -> bool {
    &&& (eq_headers(pre, post))
    &&& (eq_control(pre, post))
    &&& (eq_compile(pre, post))
    &&& (eq_io(pre, post))
    &&& (eq_rest(pre, post))
    &&& (pre.data_stack@.len() == 0 ==> r == Err::<(), TbxError>(TbxError::StackUnderflow)
            && eq_dictionary(pre, post) && post.data_stack@ == pre.data_stack@)
    &&& (pre.data_stack@.len() > 0 ==> post.data_stack@ == pre.data_stack@.drop_last()
            && (r is Ok <==> pre.dp < MAX_DICTIONARY_CELLS)
            && (r is Ok ==> post.dictionary@ == crate::vm::dict_after_write(
                pre.dictionary@,
                pre.dp as int,
                pre.data_stack@.last(),
            ) && post.dp == pre.dp + 1)
            && (r is Err ==> eq_dictionary(pre, post)))
}

/// APPEND ( v -- ): write `v` at the dictionary pointer and advance it.
pub fn append_prim(vm: &mut VM) -> (r: Result<(), TbxError>)
    requires
        old(vm).wf(),
    ensures
        final(vm).wf(),
        eq_headers(*old(vm), *final(vm)),
        eq_control(*old(vm), *final(vm)),
        eq_compile(*old(vm), *final(vm)),
        eq_io(*old(vm), *final(vm)),
        eq_rest(*old(vm), *final(vm)),
        old(vm).data_stack@.len() == 0 ==> r == Err::<(), TbxError>(TbxError::StackUnderflow)
            && eq_dictionary(*old(vm), *final(vm)) && final(vm).data_stack@ == old(vm).data_stack@,
        old(vm).data_stack@.len() > 0 ==> final(vm).data_stack@ == old(vm).data_stack@.drop_last()
            && (r is Ok <==> old(vm).dp < MAX_DICTIONARY_CELLS)
            && (r is Ok ==> final(vm).dictionary@ == crate::vm::dict_after_write(
                old(vm).dictionary@,
                old(vm).dp as int,
                old(vm).data_stack@.last(),
            ) && final(vm).dp == old(vm).dp + 1)
            && (r is Err ==> eq_dictionary(*old(vm), *final(vm))),
{
    let c = vm.pop()?;
    vm.dict_write(c)
}

/// What `allot_prim` does, from the state `pre` to the state `post` with the
/// result `r`.
pub open spec fn allot_prim_outcome(pre: VM, post: VM, r: Result<(), TbxError>) -> bool {
    &&& (eq_headers(pre, post))
    &&& (eq_control(pre, post))
    &&& (eq_compile(pre, post))
    &&& (eq_io(pre, post))
    &&& (eq_rest(pre, post))
    &&& (pre.data_stack@.len() == 0 ==> r == Err::<(), TbxError>(TbxError::StackUnderflow))
    &&& (pre.data_stack@.len() > 0 ==> match pre.data_stack@.last() {
            Cell::Int(n) => if n < 0 {
                r == Err::<(), TbxError>(TbxError::InvalidAllotCount) && eq_dictionary(pre, post)
            } else if pre.dp + n > MAX_DICTIONARY_CELLS {
                r == Err::<(), TbxError>(TbxError::DictionaryOverflow {
                    requested: (if pre.dp + n <= usize::MAX { pre.dp + n } else { usize::MAX as int }) as usize,
                    limit: MAX_DICTIONARY_CELLS,
                }) && eq_dictionary(pre, post)
            } else {
                r is Ok && post.dp == pre.dp + n && post.data_stack@ == pre.data_stack@.drop_last().push(
                    Cell::DictAddr(pre.dp),
                ) && post.dictionary@.len() >= post.dp && (forall|i: int|
                    pre.dp <= i < post.dp ==> #[trigger] post.dictionary@[i] == Cell::Nil)
                    && (forall|i: int| 0 <= i < pre.dp ==> #[trigger] post.dictionary@[i] == pre.dictionary@[i])
            },
            c => r == Err::<(), TbxError>(TbxError::TypeError { expected: "Int", got: variant_name_of(c) })
                && eq_dictionary(pre, post),
        })
}

/// ALLOT ( n -- addr ): reserve `n` empty dictionary cells and push the
/// address of the first.
pub fn allot_prim(vm: &mut VM) -> (r: Result<(), TbxError>)
    requires
        old(vm).wf(),
    ensures
        final(vm).wf(),
        eq_headers(*old(vm), *final(vm)),
        eq_control(*old(vm), *final(vm)),
        eq_compile(*old(vm), *final(vm)),
        eq_io(*old(vm), *final(vm)),
        eq_rest(*old(vm), *final(vm)),
        old(vm).data_stack@.len() == 0 ==> r == Err::<(), TbxError>(TbxError::StackUnderflow),
        old(vm).data_stack@.len() > 0 ==> match old(vm).data_stack@.last() {
            Cell::Int(n) => if n < 0 {
                r == Err::<(), TbxError>(TbxError::InvalidAllotCount) && eq_dictionary(*old(vm), *final(vm))
            } else if old(vm).dp + n > MAX_DICTIONARY_CELLS {
                r == Err::<(), TbxError>(TbxError::DictionaryOverflow {
                    requested: (if old(vm).dp + n <= usize::MAX { old(vm).dp + n } else { usize::MAX as int }) as usize,
                    limit: MAX_DICTIONARY_CELLS,
                }) && eq_dictionary(*old(vm), *final(vm))
            } else {
                r is Ok && final(vm).dp == old(vm).dp + n && final(vm).data_stack@ == old(vm).data_stack@.drop_last().push(
                    Cell::DictAddr(old(vm).dp),
                ) && final(vm).dictionary@.len() >= final(vm).dp && (forall|i: int|
                    old(vm).dp <= i < final(vm).dp ==> #[trigger] final(vm).dictionary@[i] == Cell::Nil)
                    && (forall|i: int| 0 <= i < old(vm).dp ==> #[trigger] final(vm).dictionary@[i] == old(vm).dictionary@[i])
            },
            c => r == Err::<(), TbxError>(TbxError::TypeError { expected: "Int", got: variant_name_of(c) })
                && eq_dictionary(*old(vm), *final(vm)),
        },
{
    let n = vm.pop_int()?;
    if n < 0 {
        return Err(TbxError::InvalidAllotCount);
    }
    let start = vm.dp;
    if (n as u64) > (MAX_DICTIONARY_CELLS - start) as u64 {
        let requested: usize = if (n as u64) <= (usize::MAX - start) as u64 {
            start + (n as usize)
        } else {
            usize::MAX
        };
        return Err(TbxError::DictionaryOverflow { requested, limit: MAX_DICTIONARY_CELLS });
    }
    let count = n as usize;
    let mut k: usize = 0;
    while k < count
        invariant
            vm.wf(),
            k <= count,
            start + count <= MAX_DICTIONARY_CELLS,
            vm.dp == start + k,
            vm.dictionary@.len() >= vm.dp,
            forall|i: int| start <= i < vm.dp ==> #[trigger] vm.dictionary@[i] == Cell::Nil,
            forall|i: int| 0 <= i < start ==> #[trigger] vm.dictionary@[i] == old(vm).dictionary@[i],
            eq_headers(*old(vm), *vm),
            eq_control(*old(vm), *vm),
            eq_compile(*old(vm), *vm),
            eq_io(*old(vm), *vm),
            eq_rest(*old(vm), *vm),
            vm.data_stack@ == old(vm).data_stack@.drop_last(),
            start == old(vm).dp,
            old(vm).dictionary@.len() >= start,
        decreases count - k,
    {
        let _ = vm.dict_write(Cell::Nil);
        k = k + 1;
    }
    vm.push(Cell::DictAddr(start))
}

/// What `here_prim` does, from the state `pre` to the state `post` with the
/// result `r`.
pub open spec fn here_prim_outcome(pre: VM, post: VM, r: Result<(), TbxError>) -> bool {
    &&& (only_data_changed(pre, post))
    &&& (r is Ok <==> pre.data_stack@.len() < MAX_DATA_STACK_DEPTH)
    &&& (r is Ok ==> post.data_stack@ == pre.data_stack@.push(Cell::DictAddr(pre.dp)))
    &&& (r is Err ==> post.data_stack@ == pre.data_stack@)
}

/// HERE ( -- addr ): push the dictionary pointer.
pub fn here_prim(vm: &mut VM) -> (r: Result<(), TbxError>)
    requires
        old(vm).wf(),
    ensures
        final(vm).wf(),
        only_data_changed(*old(vm), *final(vm)),
        r is Ok <==> old(vm).data_stack@.len() < MAX_DATA_STACK_DEPTH,
        r is Ok ==> final(vm).data_stack@ == old(vm).data_stack@.push(Cell::DictAddr(old(vm).dp)),
        r is Err ==> final(vm).data_stack@ == old(vm).data_stack@,
{
    let d = vm.dp;
    vm.push(Cell::DictAddr(d))
}

/// What `state_prim` does, from the state `pre` to the state `post` with the
/// result `r`.
pub open spec fn state_prim_outcome(pre: VM, post: VM, r: Result<(), TbxError>) -> bool {
    &&& (only_data_changed(pre, post))
    &&& (r is Ok <==> pre.data_stack@.len() < MAX_DATA_STACK_DEPTH)
    &&& (r is Ok ==> post.data_stack@ == pre.data_stack@.push(
            Cell::Int(if pre.is_compiling { 1 } else { 0 }),
        ))
    &&& (r is Err ==> post.data_stack@ == pre.data_stack@)
}

/// STATE ( -- n ): 1 while a definition is open, else 0.
pub fn state_prim(vm: &mut VM) -> (r: Result<(), TbxError>)
    requires
        old(vm).wf(),
    ensures
        final(vm).wf(),
        only_data_changed(*old(vm), *final(vm)),
        r is Ok <==> old(vm).data_stack@.len() < MAX_DATA_STACK_DEPTH,
        r is Ok ==> final(vm).data_stack@ == old(vm).data_stack@.push(
            Cell::Int(if old(vm).is_compiling { 1 } else { 0 }),
        ),
        r is Err ==> final(vm).data_stack@ == old(vm).data_stack@,
{
    let v: i64 = if vm.is_compiling { 1 } else { 0 };
    vm.push(Cell::Int(v))
}

/// HALT: stop execution.
pub fn halt_prim(vm: &mut VM) -> (r: Result<(), TbxError>)
    ensures
        r == Err::<(), TbxError>(TbxError::Halted),
        *final(vm) == *old(vm),
{
    Err(TbxError::Halted)
}

/// ASSERT_FAIL: fail with an assertion error.
pub fn assert_fail_prim(vm: &mut VM) -> (r: Result<(), TbxError>)
    ensures
        r == Err::<(), TbxError>(TbxError::AssertionFailed),
        *final(vm) == *old(vm),
{
    Err(TbxError::AssertionFailed)
}

/// What `assert_fail_msg_prim` does, from the state `pre` to the state `post` with the
/// result `r`.
pub open spec fn assert_fail_msg_prim_outcome(pre: VM, post: VM, r: Result<(), TbxError>) -> bool {
    &&& (only_data_changed(pre, post))
    &&& (pre.data_stack@.len() == 0 ==> r == Err::<(), TbxError>(TbxError::StackUnderflow))
    &&& (pre.data_stack@.len() > 0 ==> post.data_stack@ == pre.data_stack@.drop_last()
            && match pre.data_stack@.last() {
                Cell::Str(m) => r == Err::<(), TbxError>(TbxError::AssertionFailedWithMessage { message: m }),
                c => r == Err::<(), TbxError>(TbxError::TypeError { expected: "Str", got: variant_name_of(c) }),
            })
}

/// ASSERT_FAIL_MSG ( s -- ): fail with an assertion error carrying `s`.
pub fn assert_fail_msg_prim(vm: &mut VM) -> (r: Result<(), TbxError>)
    requires
        old(vm).wf(),
    ensures
        final(vm).wf(),
        only_data_changed(*old(vm), *final(vm)),
        old(vm).data_stack@.len() == 0 ==> r == Err::<(), TbxError>(TbxError::StackUnderflow),
        old(vm).data_stack@.len() > 0 ==> final(vm).data_stack@ == old(vm).data_stack@.drop_last()
            && match old(vm).data_stack@.last() {
                Cell::Str(m) => r == Err::<(), TbxError>(TbxError::AssertionFailedWithMessage { message: m }),
                c => r == Err::<(), TbxError>(TbxError::TypeError { expected: "Str", got: variant_name_of(c) }),
            },
{
    let message = vm.pop_string_value()?;
    Err(TbxError::AssertionFailedWithMessage { message })
}

/// What `lit_marker_prim` does, from the state `pre` to the state `post` with the
/// result `r`.
pub open spec fn lit_marker_prim_outcome(pre: VM, post: VM, r: Result<(), TbxError>) -> bool {
    &&& (only_data_changed(pre, post))
    &&& (r is Ok <==> pre.data_stack@.len() < MAX_DATA_STACK_DEPTH)
    &&& (r is Ok ==> post.data_stack@ == pre.data_stack@.push(Cell::Marker))
    &&& (r is Err ==> post.data_stack@ == pre.data_stack@)
}

/// LIT_MARKER ( -- marker ): push a statement marker.
pub fn lit_marker_prim(vm: &mut VM) -> (r: Result<(), TbxError>)
    requires
        old(vm).wf(),
    ensures
        final(vm).wf(),
        only_data_changed(*old(vm), *final(vm)),
        r is Ok <==> old(vm).data_stack@.len() < MAX_DATA_STACK_DEPTH,
        r is Ok ==> final(vm).data_stack@ == old(vm).data_stack@.push(Cell::Marker),
        r is Err ==> final(vm).data_stack@ == old(vm).data_stack@,
{
    vm.push(Cell::Marker)
}

/// What `literal_prim` does, from the state `pre` to the state `post` with the
/// result `r`.
pub open spec fn literal_prim_outcome(pre: VM, post: VM, r: Result<(), TbxError>) -> bool {
    &&& (eq_headers(pre, post))
    &&& (eq_control(pre, post))
    &&& (eq_compile(pre, post))
    &&& (eq_io(pre, post))
    &&& (eq_rest(pre, post))
    &&& (pre.data_stack@.len() == 0 ==> r == Err::<(), TbxError>(TbxError::StackUnderflow))
    &&& (pre.data_stack@.len() > 0 ==> post.data_stack@ == pre.data_stack@.drop_last())
    &&& (r is Ok ==> (lookup_in(pre.headers@, pre.headers@.len() as int, "LIT"@, None, false) matches Some(i)
            && post.dp == pre.dp + 2 && post.dictionary@.len() >= post.dp
            && post.dictionary@[pre.dp as int] == Cell::Xt(Xt(i))
            && post.dictionary@[pre.dp + 1] == pre.data_stack@.last()))
}

/// LITERAL ( v -- ): compile `LIT v` at the dictionary pointer.
pub fn literal_prim(vm: &mut VM) -> (r: Result<(), TbxError>)
    requires
        old(vm).wf(),
    ensures
        final(vm).wf(),
        eq_headers(*old(vm), *final(vm)),
        eq_control(*old(vm), *final(vm)),
        eq_compile(*old(vm), *final(vm)),
        eq_io(*old(vm), *final(vm)),
        eq_rest(*old(vm), *final(vm)),
        old(vm).data_stack@.len() == 0 ==> r == Err::<(), TbxError>(TbxError::StackUnderflow),
        old(vm).data_stack@.len() > 0 ==> final(vm).data_stack@ == old(vm).data_stack@.drop_last(),
        r is Ok ==> (lookup_in(old(vm).headers@, old(vm).headers@.len() as int, "LIT"@, None, false) matches Some(i)
            && final(vm).dp == old(vm).dp + 2 && final(vm).dictionary@.len() >= final(vm).dp
            && final(vm).dictionary@[old(vm).dp as int] == Cell::Xt(Xt(i))
            && final(vm).dictionary@[old(vm).dp + 1] == old(vm).data_stack@.last()),
{
    let value = vm.pop()?;
    let lit = match vm.lookup("LIT") {
        Some(x) => x,
        None => {
            return Err(TbxError::TypeError { expected: "LIT word to be registered", got: "not found" });
        },
    };
    vm.dict_write(Cell::Xt(lit))?;
    vm.dict_write(value)
}

/// What `header_prim` does, from the state `pre` to the state `post` with the
/// result `r`.
pub open spec fn header_prim_outcome(pre: VM, post: VM, r: Result<(), TbxError>) -> bool {
    &&& (eq_dictionary(pre, post))
    &&& (post.data_stack@ == pre.data_stack@)
    &&& (eq_control(pre, post))
    &&& (eq_compile(pre, post))
    &&& (eq_io(pre, post))
    &&& (post.arrays@ == pre.arrays@)
    &&& (post.pending_use_path == pre.pending_use_path)
    &&& (stream(pre) is None ==> r == Err::<(), TbxError>(TbxError::TokenStreamEmpty))
    &&& (r is Ok ==> (stream(pre) matches Some(q) && (q[0].token matches Token::Ident(id)
            && post.headers@.len() == pre.headers@.len() + 1
            && post.headers@.last().name@ == upper_seq(id@)
            && post.headers@.last().kind == crate::dict::EntryKind::Word(pre.dp))))
    &&& (r is Err ==> eq_headers(pre, post))
    &&& (r is Ok <==> (stream(pre) matches Some(q) && q.len() > 0 && q[0].token is Ident
            && pre.headers@.len() < MAX_HEADERS))
    &&& (r is Ok ==> post.headers@.last().flags == 0 && post.headers@.last().arity == 0
            && post.headers@.last().local_count == 0 && !post.headers@.last().is_variadic
            && post.headers@.drop_last() == pre.headers@ && post.latest == Some(
            Xt(pre.headers@.len() as usize),
        ))
    &&& (stream(pre) == Some(Seq::<SpannedToken>::empty()) ==> r == Err::<(), TbxError>(TbxError::TokenStreamEmpty))
    &&& ((stream(pre) matches Some(q) && q.len() > 0 && !(q[0].token is Ident)) ==> r == Err::<(), TbxError>(
            TbxError::InvalidExpression { reason: "HEADER: expected identifier token" },
        ))
    &&& ((stream(pre) matches Some(q) && q.len() > 0 && q[0].token is Ident && pre.headers@.len()
            >= MAX_HEADERS) ==> r matches Err(TbxError::DictionaryOverflow { .. }))
}

/// HEADER name: create a compiled-word header for `name` at the
/// dictionary pointer.
pub fn header_prim(vm: &mut VM) -> (r: Result<(), TbxError>)
    requires
        old(vm).wf(),
    ensures
        final(vm).wf(),
        eq_dictionary(*old(vm), *final(vm)),
        final(vm).data_stack@ == old(vm).data_stack@,
        eq_control(*old(vm), *final(vm)),
        eq_compile(*old(vm), *final(vm)),
        eq_io(*old(vm), *final(vm)),
        final(vm).arrays@ == old(vm).arrays@,
        final(vm).pending_use_path == old(vm).pending_use_path,
        stream(*old(vm)) is None ==> r == Err::<(), TbxError>(TbxError::TokenStreamEmpty),
        r is Ok ==> (stream(*old(vm)) matches Some(q) && (q[0].token matches Token::Ident(id)
            && final(vm).headers@.len() == old(vm).headers@.len() + 1
            && final(vm).headers@.last().name@ == upper_seq(id@)
            && final(vm).headers@.last().kind == crate::dict::EntryKind::Word(old(vm).dp))),
        r is Err ==> eq_headers(*old(vm), *final(vm)),
        r is Ok <==> (stream(*old(vm)) matches Some(q) && q.len() > 0 && q[0].token is Ident
            && old(vm).headers@.len() < MAX_HEADERS),
        r is Ok ==> final(vm).headers@.last().flags == 0 && final(vm).headers@.last().arity == 0
            && final(vm).headers@.last().local_count == 0 && !final(vm).headers@.last().is_variadic
            && final(vm).headers@.drop_last() == old(vm).headers@ && final(vm).latest == Some(
            Xt(old(vm).headers@.len() as usize),
        ),
        stream(*old(vm)) == Some(Seq::<SpannedToken>::empty()) ==> r == Err::<(), TbxError>(TbxError::TokenStreamEmpty),
        (stream(*old(vm)) matches Some(q) && q.len() > 0 && !(q[0].token is Ident)) ==> r == Err::<(), TbxError>(
            TbxError::InvalidExpression { reason: "HEADER: expected identifier token" },
        ),
        (stream(*old(vm)) matches Some(q) && q.len() > 0 && q[0].token is Ident && old(vm).headers@.len()
            >= MAX_HEADERS) ==> r matches Err(TbxError::DictionaryOverflow { .. }),
{
    let name = vm.expect_ident("HEADER: expected identifier token")?;
    let d = vm.dp;
    let entry = WordEntry::new_word(name.as_str(), d);
    vm.register(entry)?;
    Ok(())
}

/// The header table with the visible word `name` marked IMMEDIATE (the
/// table itself when there is no such word).
pub open spec fn mark_immediate(h: Seq<WordEntry>, name: Seq<char>) -> Seq<WordEntry> {
    match lookup_in(h, h.len() as int, name, None, false) {
        Some(i) => h.update(i as int, WordEntry { flags: h[i as int].flags | FLAG_IMMEDIATE, ..h[i as int] }),
        None => h,
    }
}

proof fn lemma_lookup_in_mark(h: Seq<WordEntry>, i: int, n: int, name: Seq<char>, other: Seq<char>)
    requires
        0 <= i < h.len(),
        n <= h.len(),
    ensures
        lookup_in(
            h.update(i, WordEntry { flags: h[i].flags | FLAG_IMMEDIATE, ..h[i] }),
            n,
            other,
            None,
            false,
        ) == lookup_in(h, n, other, None, false),
    decreases n,
{
    let f = h[i].flags;
    assert((f | 1u8) & 2u8 == f & 2u8) by (bit_vector);
    if n > 0 {
        lemma_lookup_in_mark(h, i, n - 1, name, other);
    }
}

/// IMMEDIATE applied twice to a name leaves the header table as applying it
/// once.
pub proof fn law_immediate_twice(h: Seq<WordEntry>, name: Seq<char>)
    requires
        h.len() <= usize::MAX,
    ensures
        mark_immediate(mark_immediate(h, name), name) == mark_immediate(h, name),
{
    match lookup_in(h, h.len() as int, name, None, false) {
        Some(i) => {
            crate::vm::lemma_lookup_in_bounds(h, h.len() as int, name, None, false);
            let h1 = mark_immediate(h, name);
            lemma_lookup_in_mark(h, i as int, h.len() as int, name, name);
            let f = h[i as int].flags;
            assert((f | 1u8) | 1u8 == f | 1u8) by (bit_vector);
            assert(h1.update(i as int, WordEntry { flags: h1[i as int].flags | FLAG_IMMEDIATE, ..h1[i as int] }) =~= h1);
        },
        None => {},
    }
}

/// What `immediate_prim` does, from the state `pre` to the state `post` with the
/// result `r`.
pub open spec fn immediate_prim_outcome(pre: VM, post: VM, r: Result<(), TbxError>) -> bool {
    &&& (eq_dictionary(pre, post))
    &&& (post.data_stack@ == pre.data_stack@)
    &&& (eq_control(pre, post))
    &&& (eq_compile(pre, post))
    &&& (eq_io(pre, post))
    &&& (post.arrays@ == pre.arrays@)
    &&& (post.pending_use_path == pre.pending_use_path)
    &&& (post.headers@.len() == pre.headers@.len())
    &&& (post.latest == pre.latest)
    &&& (stream(pre) is None ==> r == Err::<(), TbxError>(TbxError::TokenStreamEmpty))
    &&& (r is Ok ==> (stream(pre) matches Some(q) && (q[0].token matches Token::Ident(id) && (lookup_in(
            pre.headers@,
            pre.headers@.len() as int,
            upper_seq(id@),
            None,
            false,
        ) matches Some(i) && post.headers@ == pre.headers@.update(
            i as int,
            WordEntry { flags: pre.headers@[i as int].flags | FLAG_IMMEDIATE, ..pre.headers@[i as int] },
        )))))
    &&& (r is Err ==> post.headers@ == pre.headers@)
    &&& (r is Ok ==> (stream(pre) matches Some(q) && (q[0].token matches Token::Ident(id)
            && post.headers@ == mark_immediate(pre.headers@, upper_seq(id@)))))
    &&& (r is Ok <==> (stream(pre) matches Some(q) && q.len() > 0 && (q[0].token matches Token::Ident(id)
            && lookup_in(pre.headers@, pre.headers@.len() as int, upper_seq(id@), None, false) is Some)))
    &&& ((stream(pre) matches Some(q) && q.len() > 0 && (q[0].token matches Token::Ident(id)
            && lookup_in(pre.headers@, pre.headers@.len() as int, upper_seq(id@), None, false) is None))
            ==> (r matches Err(TbxError::UndefinedSymbol { name }) && (stream(pre) matches Some(q)
            && (q[0].token matches Token::Ident(id) && name@ == upper_seq(id@)))))
}

/// IMMEDIATE name: mark the visible word `name` as IMMEDIATE.
pub fn immediate_prim(vm: &mut VM) -> (r: Result<(), TbxError>)
    requires
        old(vm).wf(),
    ensures
        final(vm).wf(),
        eq_dictionary(*old(vm), *final(vm)),
        final(vm).data_stack@ == old(vm).data_stack@,
        eq_control(*old(vm), *final(vm)),
        eq_compile(*old(vm), *final(vm)),
        eq_io(*old(vm), *final(vm)),
        final(vm).arrays@ == old(vm).arrays@,
        final(vm).pending_use_path == old(vm).pending_use_path,
        final(vm).headers@.len() == old(vm).headers@.len(),
        final(vm).latest == old(vm).latest,
        stream(*old(vm)) is None ==> r == Err::<(), TbxError>(TbxError::TokenStreamEmpty),
        r is Ok ==> (stream(*old(vm)) matches Some(q) && (q[0].token matches Token::Ident(id) && (lookup_in(
            old(vm).headers@,
            old(vm).headers@.len() as int,
            upper_seq(id@),
            None,
            false,
        ) matches Some(i) && final(vm).headers@ == old(vm).headers@.update(
            i as int,
            WordEntry { flags: old(vm).headers@[i as int].flags | FLAG_IMMEDIATE, ..old(vm).headers@[i as int] },
        )))),
        r is Err ==> final(vm).headers@ == old(vm).headers@,
        r is Ok ==> (stream(*old(vm)) matches Some(q) && (q[0].token matches Token::Ident(id)
            && final(vm).headers@ == mark_immediate(old(vm).headers@, upper_seq(id@)))),
        r is Ok <==> (stream(*old(vm)) matches Some(q) && q.len() > 0 && (q[0].token matches Token::Ident(id)
            && lookup_in(old(vm).headers@, old(vm).headers@.len() as int, upper_seq(id@), None, false) is Some)),
        (stream(*old(vm)) matches Some(q) && q.len() > 0 && (q[0].token matches Token::Ident(id)
            && lookup_in(old(vm).headers@, old(vm).headers@.len() as int, upper_seq(id@), None, false) is None))
            ==> (r matches Err(TbxError::UndefinedSymbol { name }) && (stream(*old(vm)) matches Some(q)
            && (q[0].token matches Token::Ident(id) && name@ == upper_seq(id@)))),
{
    let name = vm.expect_ident("IMMEDIATE: expected identifier token")?;
    let x = match vm.lookup(name.as_str()) {
        Some(x) => x,
        None => {
            return Err(TbxError::UndefinedSymbol { name });
        },
    };
    proof {
        crate::vm::lemma_lookup_in_bounds(vm.headers@, vm.headers@.len() as int, name@, None, false);
    }
    let i = x.index();
    let mut h = vm.headers[i].dup();
    h.flags = h.flags | FLAG_IMMEDIATE;
    vm.headers.set(i, h);
    Ok(())
}


/// What `va_count_prim` does, from the state `pre` to the state `post` with the
/// result `r`.
pub open spec fn va_count_prim_outcome(pre: VM, post: VM, r: Result<(), TbxError>) -> bool {
    &&& (only_data_changed(pre, post))
    &&& (frame_arity(pre.return_stack@) is None ==> r == Err::<(), TbxError>(TbxError::InvalidReturn)
            && post.data_stack@ == pre.data_stack@)
    &&& (match frame_arity(pre.return_stack@) {
            Some(a) => (r is Ok ==> post.data_stack@ == pre.data_stack@.push(Cell::Int(a as i64)))
                && (a <= i64::MAX ==> (r is Ok <==> pre.data_stack@.len() < MAX_DATA_STACK_DEPTH)),
            None => true,
        })
}

/// VA_COUNT ( -- n ): number of arguments passed to the current word.
pub fn va_count_prim(vm: &mut VM) -> (r: Result<(), TbxError>)
    requires
        old(vm).wf(),
    ensures
        final(vm).wf(),
        only_data_changed(*old(vm), *final(vm)),
        frame_arity(old(vm).return_stack@) is None ==> r == Err::<(), TbxError>(TbxError::InvalidReturn)
            && final(vm).data_stack@ == old(vm).data_stack@,
        match frame_arity(old(vm).return_stack@) {
            Some(a) => (r is Ok ==> final(vm).data_stack@ == old(vm).data_stack@.push(Cell::Int(a as i64)))
                && (a <= i64::MAX ==> (r is Ok <==> old(vm).data_stack@.len() < MAX_DATA_STACK_DEPTH)),
            None => true,
        },
{
    let n = vm.return_stack.len();
    if n == 0 {
        return Err(TbxError::InvalidReturn);
    }
    match vm.return_stack[n - 1] {
        ReturnFrame::Call { actual_arity, .. } => {
            if (actual_arity as u64) > 0x7FFF_FFFF_FFFF_FFFFu64 {
                return Err(TbxError::InvalidReturn);
            }
            vm.push(Cell::Int(actual_arity as i64))
        },
        ReturnFrame::TopLevel => Err(TbxError::InvalidReturn),
    }
}

/// What `arg_addr_prim` does, from the state `pre` to the state `post` with the
/// result `r`.
pub open spec fn arg_addr_prim_outcome(pre: VM, post: VM, r: Result<(), TbxError>) -> bool {
    &&& (only_data_changed(pre, post))
    &&& (frame_arity(pre.return_stack@) is None ==> r == Err::<(), TbxError>(TbxError::InvalidReturn)
            && post.data_stack@ == pre.data_stack@)
    &&& (match frame_arity(pre.return_stack@) {
            Some(a) => pre.data_stack@.len() > 0 ==> match pre.data_stack@.last() {
                Cell::Int(i) => if 0 <= i < a {
                    r is Ok && post.data_stack@ == pre.data_stack@.drop_last().push(Cell::StackAddr(i as usize))
                } else {
                    r == Err::<(), TbxError>(TbxError::IndexOutOfBounds { index: (if i < 0 { 0 } else { i }) as usize, size: a })
                        && post.data_stack@ == pre.data_stack@.drop_last()
                },
                c => r == Err::<(), TbxError>(TbxError::TypeError { expected: "Int", got: variant_name_of(c) }),
            },
            None => true,
        })
}

/// ARG_ADDR ( i -- addr ): the local address of argument `i` of the current word.
pub fn arg_addr_prim(vm: &mut VM) -> (r: Result<(), TbxError>)
    requires
        old(vm).wf(),
    ensures
        final(vm).wf(),
        only_data_changed(*old(vm), *final(vm)),
        frame_arity(old(vm).return_stack@) is None ==> r == Err::<(), TbxError>(TbxError::InvalidReturn)
            && final(vm).data_stack@ == old(vm).data_stack@,
        match frame_arity(old(vm).return_stack@) {
            Some(a) => old(vm).data_stack@.len() > 0 ==> match old(vm).data_stack@.last() {
                Cell::Int(i) => if 0 <= i < a {
                    r is Ok && final(vm).data_stack@ == old(vm).data_stack@.drop_last().push(Cell::StackAddr(i as usize))
                } else {
                    r == Err::<(), TbxError>(TbxError::IndexOutOfBounds { index: (if i < 0 { 0 } else { i }) as usize, size: a })
                        && final(vm).data_stack@ == old(vm).data_stack@.drop_last()
                },
                c => r == Err::<(), TbxError>(TbxError::TypeError { expected: "Int", got: variant_name_of(c) }),
            },
            None => true,
        },
{
    let n = vm.return_stack.len();
    if n == 0 {
        return Err(TbxError::InvalidReturn);
    }
    let a = match vm.return_stack[n - 1] {
        ReturnFrame::Call { actual_arity, .. } => actual_arity,
        ReturnFrame::TopLevel => {
            return Err(TbxError::InvalidReturn);
        },
    };
    let i = vm.pop_int()?;
    if i < 0 || (i as u64) >= (a as u64) {
        let shown: usize = if i < 0 { 0 } else { i as usize };
        return Err(TbxError::IndexOutOfBounds { index: shown, size: a });
    }
    vm.push(Cell::StackAddr(i as usize))
}

/// What `lookup_prim` does, from the state `pre` to the state `post` with the
/// result `r`.
pub open spec fn lookup_prim_outcome(pre: VM, post: VM, r: Result<(), TbxError>) -> bool {
    &&& (only_data_changed(pre, post))
    &&& (pre.data_stack@.len() == 0 ==> r == Err::<(), TbxError>(TbxError::StackUnderflow))
    &&& (pre.data_stack@.len() > 0 ==> match pre.data_stack@.last() {
            Cell::Str(name) => match lookup_in(pre.headers@, pre.headers@.len() as int, name@, None, false) {
                Some(i) => r is Ok && post.data_stack@ == pre.data_stack@.drop_last().push(Cell::Xt(Xt(i))),
                None => r == Err::<(), TbxError>(TbxError::UndefinedSymbol { name })
                    && post.data_stack@ == pre.data_stack@.drop_last(),
            },
            c => r == Err::<(), TbxError>(TbxError::TypeError { expected: "Str", got: variant_name_of(c) })
                && post.data_stack@ == pre.data_stack@.drop_last(),
        })
}

/// LOOKUP ( name -- xt ): the execution token of the visible word `name`.
pub fn lookup_prim(vm: &mut VM) -> (r: Result<(), TbxError>)
    requires
        old(vm).wf(),
    ensures
        final(vm).wf(),
        only_data_changed(*old(vm), *final(vm)),
        old(vm).data_stack@.len() == 0 ==> r == Err::<(), TbxError>(TbxError::StackUnderflow),
        old(vm).data_stack@.len() > 0 ==> match old(vm).data_stack@.last() {
            Cell::Str(name) => match lookup_in(old(vm).headers@, old(vm).headers@.len() as int, name@, None, false) {
                Some(i) => r is Ok && final(vm).data_stack@ == old(vm).data_stack@.drop_last().push(Cell::Xt(Xt(i))),
                None => r == Err::<(), TbxError>(TbxError::UndefinedSymbol { name })
                    && final(vm).data_stack@ == old(vm).data_stack@.drop_last(),
            },
            c => r == Err::<(), TbxError>(TbxError::TypeError { expected: "Str", got: variant_name_of(c) })
                && final(vm).data_stack@ == old(vm).data_stack@.drop_last(),
        },
{
    let name = vm.pop_string_value()?;
    match vm.lookup(name.as_str()) {
        Some(x) => vm.push(Cell::Xt(x)),
        None => Err(TbxError::UndefinedSymbol { name }),
    }
}

/// The error RND gives for a non-positive bound.
pub open spec fn rnd_error_message(n: i64) -> Seq<char> {
    "RND requires a positive integer, got "@ + int_decimal(n as int)
}

/// What `rnd_prim` does, from the state `pre` to the state `post` with the
/// result `r`.
pub open spec fn rnd_prim_outcome(pre: VM, post: VM, r: Result<(), TbxError>) -> bool {
    &&& (eq_dictionary(pre, post))
    &&& (eq_headers(pre, post))
    &&& (eq_control(pre, post))
    &&& (eq_compile(pre, post))
    &&& (eq_io(pre, post))
    &&& (post.arrays@ == pre.arrays@)
    &&& (pre.data_stack@.len() == 0 ==> r == Err::<(), TbxError>(TbxError::StackUnderflow))
    &&& (pre.data_stack@.len() > 0 ==> match pre.data_stack@.last() {
            Cell::Int(n) => if n <= 0 {
                (r matches Err(TbxError::InvalidArgument { message }) && message@ == rnd_error_message(n))
                    && post.data_stack@ == pre.data_stack@.drop_last()
            } else {
                r is Ok && post.data_stack@.drop_last() == pre.data_stack@.drop_last()
                    && post.data_stack@.len() == pre.data_stack@.len()
                    && (post.data_stack@.last() matches Cell::Int(v) && 1 <= v <= n)
            },
            c => r == Err::<(), TbxError>(TbxError::TypeError { expected: "Int", got: variant_name_of(c) })
                && post.data_stack@ == pre.data_stack@.drop_last(),
        })
}

/// RND ( n -- r ): a random integer in `[1, n]`.
pub fn rnd_prim(vm: &mut VM) -> (r: Result<(), TbxError>)
    requires
        old(vm).wf(),
    ensures
        final(vm).wf(),
        eq_dictionary(*old(vm), *final(vm)),
        eq_headers(*old(vm), *final(vm)),
        eq_control(*old(vm), *final(vm)),
        eq_compile(*old(vm), *final(vm)),
        eq_io(*old(vm), *final(vm)),
        final(vm).arrays@ == old(vm).arrays@,
        old(vm).data_stack@.len() == 0 ==> r == Err::<(), TbxError>(TbxError::StackUnderflow),
        old(vm).data_stack@.len() > 0 ==> match old(vm).data_stack@.last() {
            Cell::Int(n) => if n <= 0 {
                (r matches Err(TbxError::InvalidArgument { message }) && message@ == rnd_error_message(n))
                    && final(vm).data_stack@ == old(vm).data_stack@.drop_last()
            } else {
                r is Ok && final(vm).data_stack@.drop_last() == old(vm).data_stack@.drop_last()
                    && final(vm).data_stack@.len() == old(vm).data_stack@.len()
                    && (final(vm).data_stack@.last() matches Cell::Int(v) && 1 <= v <= n)
            },
            c => r == Err::<(), TbxError>(TbxError::TypeError { expected: "Int", got: variant_name_of(c) })
                && final(vm).data_stack@ == old(vm).data_stack@.drop_last(),
        },
{
    let n = vm.pop_int()?;
    if n <= 0 {
        let mut m: Vec<char> = Vec::new();
        push_str(&mut m, "RND requires a positive integer, got ");
        push_i64_decimal(&mut m, n);
        proof {
            reveal_strlit("RND requires a positive integer, got ");
        }
        assert(m@ =~= rnd_error_message(n));
        return Err(TbxError::InvalidArgument { message: chars_to_string(&m) });
    }
    let v = rng_range_1_to(&mut vm.rng, n);
    let ghost s1 = vm.data_stack@;
    let r = vm.push(Cell::Int(v));
    assert(vm.data_stack@.drop_last() =~= s1);
    r
}

/// What `randomize_prim` does, from the state `pre` to the state `post` with the
/// result `r`.
pub open spec fn randomize_prim_outcome(pre: VM, post: VM, r: Result<(), TbxError>) -> bool {
    &&& (r is Err ==> (r matches Err(TbxError::InvalidArgument { message: m }) && m@
            == "RANDOMIZE: the operating system provides no random seed"@) && post.rng == pre.rng)
    &&& (eq_dictionary(pre, post))
    &&& (eq_headers(pre, post))
    &&& (post.data_stack@ == pre.data_stack@)
    &&& (eq_control(pre, post))
    &&& (eq_compile(pre, post))
    &&& (eq_io(pre, post))
    &&& (post.arrays@ == pre.arrays@)
    &&& (post.token_stream == pre.token_stream)
}

/// RANDOMIZE: reseed the generator from the operating system; when the
/// operating system provides no random bytes the generator is kept and an
/// error is returned.
pub fn randomize_prim(vm: &mut VM) -> (r: Result<(), TbxError>)
    requires
        old(vm).wf(),
    ensures
        final(vm).wf(),
        r is Err ==> (r matches Err(TbxError::InvalidArgument { message: m }) && m@
            == "RANDOMIZE: the operating system provides no random seed"@) && final(vm).rng == old(vm).rng,
        eq_dictionary(*old(vm), *final(vm)),
        eq_headers(*old(vm), *final(vm)),
        final(vm).data_stack@ == old(vm).data_stack@,
        eq_control(*old(vm), *final(vm)),
        eq_compile(*old(vm), *final(vm)),
        eq_io(*old(vm), *final(vm)),
        final(vm).arrays@ == old(vm).arrays@,
        final(vm).token_stream == old(vm).token_stream,
{
    match rng_from_os() {
        Some(g) => {
            vm.rng = g;
            Ok(())
        },
        None => Err(TbxError::InvalidArgument { message: "RANDOMIZE: the operating system provides no random seed".to_owned() }),
    }
}

/// The clock primitives on integer timestamps.
#[derive(Debug, Clone, Copy, PartialEq, Eq)]
pub enum ClockPart {
    /// HOUR: the UTC hour (0..23).
    Hour,
    /// MINUTE: the UTC minute (0..59).
    Minute,
}

/// The part of a non-negative Unix timestamp `t`.
pub open spec fn clock_part(p: ClockPart, t: int) -> int {
    match p {
        ClockPart::Hour => (t / 3600) % 24,
        ClockPart::Minute => (t / 60) % 60,
    }
}

/// HOUR / MINUTE ( t -- n ): a part of the Unix timestamp `t` (seconds).
pub fn clock_prim(vm: &mut VM, p: ClockPart) -> (r: Result<(), TbxError>)
    requires
        old(vm).wf(),
    ensures
        final(vm).wf(),
        only_data_changed(*old(vm), *final(vm)),
        old(vm).data_stack@.len() == 0 ==> r == Err::<(), TbxError>(TbxError::StackUnderflow),
        old(vm).data_stack@.len() > 0 ==> match old(vm).data_stack@.last() {
            Cell::Int(t) => if t < 0 {
                (r matches Err(TbxError::InvalidArgument { message }) && message@ == (match p {
                    ClockPart::Hour => "HOUR requires a non-negative timestamp"@,
                    ClockPart::Minute => "MINUTE requires a non-negative timestamp"@,
                })) && final(vm).data_stack@ == old(vm).data_stack@.drop_last()
            } else {
                r is Ok && final(vm).data_stack@ == old(vm).data_stack@.drop_last().push(
                    Cell::Int(clock_part(p, t as int) as i64),
                )
            },
            c => r == Err::<(), TbxError>(TbxError::TypeError { expected: "Int or Float", got: variant_name_of(c) })
                && final(vm).data_stack@ == old(vm).data_stack@.drop_last(),
        },
{
    let c = vm.pop()?;
    let t = match c {
        Cell::Int(t) => t,
        other => {
            return Err(TbxError::TypeError { expected: "Int or Float", got: other.variant_name() });
        },
    };
    if t < 0 {
        let m = match p {
            ClockPart::Hour => "HOUR requires a non-negative timestamp".to_owned(),
            ClockPart::Minute => "MINUTE requires a non-negative timestamp".to_owned(),
        };
        return Err(TbxError::InvalidArgument { message: m });
    }
    let v: i64 = match p {
        ClockPart::Hour => (t / 3600) % 24,
        ClockPart::Minute => (t / 60) % 60,
    };
    vm.push(Cell::Int(v))
}


/// What `hour_prim` does, from the state `pre` to the state `post` with the
/// result `r`.
pub open spec fn hour_prim_outcome(pre: VM, post: VM, r: Result<(), TbxError>) -> bool {
    &&& (only_data_changed(pre, post))
    &&& (pre.data_stack@.len() == 0 ==> r == Err::<(), TbxError>(TbxError::StackUnderflow))
    &&& (pre.data_stack@.len() > 0 ==> match pre.data_stack@.last() {
            Cell::Int(t) => if t < 0 {
                (r matches Err(TbxError::InvalidArgument { message }) && message@
                    == "HOUR requires a non-negative timestamp"@)
                    && post.data_stack@ == pre.data_stack@.drop_last()
            } else {
                r is Ok && post.data_stack@ == pre.data_stack@.drop_last().push(
                    Cell::Int(((t as int / 3600) % 24) as i64),
                )
            },
            c => r == Err::<(), TbxError>(TbxError::TypeError { expected: "Int or Float", got: variant_name_of(c) })
                && post.data_stack@ == pre.data_stack@.drop_last(),
        })
}

/// HOUR ( t -- h ): the UTC hour (0..23) of the Unix timestamp `t`.
pub fn hour_prim(vm: &mut VM) -> (r: Result<(), TbxError>)
    requires
        old(vm).wf(),
    ensures
        final(vm).wf(),
        only_data_changed(*old(vm), *final(vm)),
        old(vm).data_stack@.len() == 0 ==> r == Err::<(), TbxError>(TbxError::StackUnderflow),
        old(vm).data_stack@.len() > 0 ==> match old(vm).data_stack@.last() {
            Cell::Int(t) => if t < 0 {
                (r matches Err(TbxError::InvalidArgument { message }) && message@
                    == "HOUR requires a non-negative timestamp"@)
                    && final(vm).data_stack@ == old(vm).data_stack@.drop_last()
            } else {
                r is Ok && final(vm).data_stack@ == old(vm).data_stack@.drop_last().push(
                    Cell::Int(((t as int / 3600) % 24) as i64),
                )
            },
            c => r == Err::<(), TbxError>(TbxError::TypeError { expected: "Int or Float", got: variant_name_of(c) })
                && final(vm).data_stack@ == old(vm).data_stack@.drop_last(),
        },
{
    clock_prim(vm, ClockPart::Hour)
}

/// What `minute_prim` does, from the state `pre` to the state `post` with the
/// result `r`.
pub open spec fn minute_prim_outcome(pre: VM, post: VM, r: Result<(), TbxError>) -> bool {
    &&& (only_data_changed(pre, post))
    &&& (pre.data_stack@.len() == 0 ==> r == Err::<(), TbxError>(TbxError::StackUnderflow))
    &&& (pre.data_stack@.len() > 0 ==> match pre.data_stack@.last() {
            Cell::Int(t) => if t < 0 {
                (r matches Err(TbxError::InvalidArgument { message }) && message@
                    == "MINUTE requires a non-negative timestamp"@)
                    && post.data_stack@ == pre.data_stack@.drop_last()
            } else {
                r is Ok && post.data_stack@ == pre.data_stack@.drop_last().push(
                    Cell::Int(((t as int / 60) % 60) as i64),
                )
            },
            c => r == Err::<(), TbxError>(TbxError::TypeError { expected: "Int or Float", got: variant_name_of(c) })
                && post.data_stack@ == pre.data_stack@.drop_last(),
        })
}

/// MINUTE ( t -- m ): the UTC minute (0..59) of the Unix timestamp `t`.
pub fn minute_prim(vm: &mut VM) -> (r: Result<(), TbxError>)
    requires
        old(vm).wf(),
    ensures
        final(vm).wf(),
        only_data_changed(*old(vm), *final(vm)),
        old(vm).data_stack@.len() == 0 ==> r == Err::<(), TbxError>(TbxError::StackUnderflow),
        old(vm).data_stack@.len() > 0 ==> match old(vm).data_stack@.last() {
            Cell::Int(t) => if t < 0 {
                (r matches Err(TbxError::InvalidArgument { message }) && message@
                    == "MINUTE requires a non-negative timestamp"@)
                    && final(vm).data_stack@ == old(vm).data_stack@.drop_last()
            } else {
                r is Ok && final(vm).data_stack@ == old(vm).data_stack@.drop_last().push(
                    Cell::Int(((t as int / 60) % 60) as i64),
                )
            },
            c => r == Err::<(), TbxError>(TbxError::TypeError { expected: "Int or Float", got: variant_name_of(c) })
                && final(vm).data_stack@ == old(vm).data_stack@.drop_last(),
        },
{
    clock_prim(vm, ClockPart::Minute)
}

} // verus!
