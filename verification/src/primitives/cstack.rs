//! Compile-stack primitives used by IMMEDIATE words while a definition is open.
use vstd::prelude::*;
use crate::cell::{Cell, CompileEntry, variant_name_of};
use crate::error::TbxError;
use crate::primitives::stack::swap_top;
use crate::vm::{VM, only_data_cs_changed, eq_headers, eq_control, eq_compile, eq_io, eq_rest};

verus! {

/// The error every compile-stack primitive gives outside a definition.
pub open spec fn outside_def(name: &'static str) -> TbxError {
    TbxError::InvalidExpression { reason: name }
}

/// A stack with its top three entries rotated ( a b c -- b c a ).
pub open spec fn rot_top<A>(s: Seq<A>) -> Seq<A> {
    let n = s.len();
    s.take(n - 3).push(s[n - 2]).push(s[n - 1]).push(s[n - 3])
}

/// Rotating the top three entries three times gives the stack back
/// (CS_ROT CS_ROT CS_ROT), and each rotation keeps the depth.
pub proof fn law_rot_three_times<A>(s: Seq<A>)
    requires
        s.len() >= 3,
    ensures
        rot_top(s).len() == s.len(),
        rot_top(rot_top(rot_top(s))) == s,
{
    assert(rot_top(rot_top(rot_top(s))) =~= s);
}

/// CS_POP undoes CS_PUSH: the cell moved to the compile stack comes back
/// to the data stack, and both stacks are as they were.
pub proof fn law_cs_pop_undoes_cs_push(ds: Seq<Cell>, cs: Seq<CompileEntry>)
    requires
        ds.len() >= 1,
    ensures
        ({
            let cs1 = cs.push(CompileEntry::Cell(ds.last()));
            &&& cs1.last() == CompileEntry::Cell(ds.last())
            &&& cs1.drop_last() == cs
            &&& ds.drop_last().push(ds.last()) == ds
        }),
{
    assert(cs.push(CompileEntry::Cell(ds.last())).drop_last() =~= cs);
    assert(ds.drop_last().push(ds.last()) =~= ds);
}

/// What `cs_push_prim` does, from the state `pre` to the state `post` with the
/// result `r`.
pub open spec fn cs_push_prim_outcome(pre: VM, post: VM, r: Result<(), TbxError>) -> bool {
    &&& (only_data_cs_changed(pre, post))
    &&& (!pre.is_compiling ==> r == Err::<(), TbxError>(outside_def("CS_PUSH outside compile mode"))
            && post == pre)
    &&& (pre.is_compiling && pre.data_stack@.len() == 0 ==> r == Err::<(), TbxError>(TbxError::StackUnderflow)
            && post.data_stack@ == pre.data_stack@ && post.compile_stack@ == pre.compile_stack@)
    &&& (pre.is_compiling && pre.data_stack@.len() > 0 ==> r is Ok && post.data_stack@
            == pre.data_stack@.drop_last() && post.compile_stack@ == pre.compile_stack@.push(
            CompileEntry::Cell(pre.data_stack@.last()),
        ))
}

/// CS_PUSH ( v -- ): move the top of the data stack to the compile stack.
pub fn cs_push_prim(vm: &mut VM) -> (r: Result<(), TbxError>)
    requires
        old(vm).wf(),
    ensures
        final(vm).wf(),
        only_data_cs_changed(*old(vm), *final(vm)),
        !old(vm).is_compiling ==> r == Err::<(), TbxError>(outside_def("CS_PUSH outside compile mode"))
            && *final(vm) == *old(vm),
        old(vm).is_compiling && old(vm).data_stack@.len() == 0 ==> r == Err::<(), TbxError>(TbxError::StackUnderflow)
            && final(vm).data_stack@ == old(vm).data_stack@ && final(vm).compile_stack@ == old(vm).compile_stack@,
        old(vm).is_compiling && old(vm).data_stack@.len() > 0 ==> r is Ok && final(vm).data_stack@
            == old(vm).data_stack@.drop_last() && final(vm).compile_stack@ == old(vm).compile_stack@.push(
            CompileEntry::Cell(old(vm).data_stack@.last()),
        ),
{
    if !vm.is_compiling {
        return Err(TbxError::InvalidExpression { reason: "CS_PUSH outside compile mode" });
    }
    let v = vm.pop()?;
    vm.compile_stack.push(CompileEntry::Cell(v));
    Ok(())
}

/// What `cs_pop_prim` does, from the state `pre` to the state `post` with the
/// result `r`.
pub open spec fn cs_pop_prim_outcome(pre: VM, post: VM, r: Result<(), TbxError>) -> bool {
    &&& (only_data_cs_changed(pre, post))
    &&& (!pre.is_compiling ==> r == Err::<(), TbxError>(outside_def("CS_POP outside compile mode"))
            && post == pre)
    &&& (pre.is_compiling && pre.compile_stack@.len() == 0 ==> r == Err::<(), TbxError>(TbxError::StackUnderflow)
            && post.data_stack@ == pre.data_stack@ && post.compile_stack@ == pre.compile_stack@)
    &&& (pre.is_compiling && pre.compile_stack@.len() > 0 ==> match pre.compile_stack@.last() {
            CompileEntry::Cell(c) => (r is Ok <==> pre.data_stack@.len() < crate::constants::MAX_DATA_STACK_DEPTH)
                && post.compile_stack@ == pre.compile_stack@.drop_last()
                && (r is Ok ==> post.data_stack@ == pre.data_stack@.push(c))
                && (r is Err ==> post.data_stack@ == pre.data_stack@),
            _ => r == Err::<(), TbxError>(TbxError::TypeError { expected: "Cell", got: "Tag" })
                && post.data_stack@ == pre.data_stack@ && post.compile_stack@ == pre.compile_stack@,
        })
}

/// CS_POP ( -- v ): move a cell from the compile stack to the data stack; a
/// tag on top is a type error and stays where it is.
pub fn cs_pop_prim(vm: &mut VM) -> (r: Result<(), TbxError>)
    requires
        old(vm).wf(),
    ensures
        final(vm).wf(),
        only_data_cs_changed(*old(vm), *final(vm)),
        !old(vm).is_compiling ==> r == Err::<(), TbxError>(outside_def("CS_POP outside compile mode"))
            && *final(vm) == *old(vm),
        old(vm).is_compiling && old(vm).compile_stack@.len() == 0 ==> r == Err::<(), TbxError>(TbxError::StackUnderflow)
            && final(vm).data_stack@ == old(vm).data_stack@ && final(vm).compile_stack@ == old(vm).compile_stack@,
        old(vm).is_compiling && old(vm).compile_stack@.len() > 0 ==> match old(vm).compile_stack@.last() {
            CompileEntry::Cell(c) => (r is Ok <==> old(vm).data_stack@.len() < crate::constants::MAX_DATA_STACK_DEPTH)
                && final(vm).compile_stack@ == old(vm).compile_stack@.drop_last()
                && (r is Ok ==> final(vm).data_stack@ == old(vm).data_stack@.push(c))
                && (r is Err ==> final(vm).data_stack@ == old(vm).data_stack@),
            _ => r == Err::<(), TbxError>(TbxError::TypeError { expected: "Cell", got: "Tag" })
                && final(vm).data_stack@ == old(vm).data_stack@ && final(vm).compile_stack@ == old(vm).compile_stack@,
        },
{
    if !vm.is_compiling {
        return Err(TbxError::InvalidExpression { reason: "CS_POP outside compile mode" });
    }
    let n = vm.compile_stack.len();
    if n == 0 {
        return Err(TbxError::StackUnderflow);
    }
    let is_cell = match &vm.compile_stack[n - 1] {
        CompileEntry::Cell(_) => true,
        _ => false,
    };
    if !is_cell {
        return Err(TbxError::TypeError { expected: "Cell", got: "Tag" });
    }
    match vm.compile_stack.pop() {
        Some(CompileEntry::Cell(c)) => vm.push(c),
        _ => Err(TbxError::StackUnderflow),
    }
}

/// What `cs_swap_prim` does, from the state `pre` to the state `post` with the
/// result `r`.
pub open spec fn cs_swap_prim_outcome(pre: VM, post: VM, r: Result<(), TbxError>) -> bool {
    &&& (only_data_cs_changed(pre, post))
    &&& (post.data_stack@ == pre.data_stack@)
    &&& (!pre.is_compiling ==> r == Err::<(), TbxError>(outside_def("CS_SWAP outside compile mode"))
            && post == pre)
    &&& (pre.is_compiling ==> (r is Ok <==> pre.compile_stack@.len() >= 2))
    &&& (pre.is_compiling && pre.compile_stack@.len() < 2 ==> r == Err::<(), TbxError>(TbxError::StackUnderflow)
            && post.compile_stack@ == pre.compile_stack@)
    &&& (r is Ok ==> post.compile_stack@ == swap_top(pre.compile_stack@))
}

/// CS_SWAP: swap the top two compile-stack entries.
pub fn cs_swap_prim(vm: &mut VM) -> (r: Result<(), TbxError>)
    requires
        old(vm).wf(),
    ensures
        final(vm).wf(),
        only_data_cs_changed(*old(vm), *final(vm)),
        final(vm).data_stack@ == old(vm).data_stack@,
        !old(vm).is_compiling ==> r == Err::<(), TbxError>(outside_def("CS_SWAP outside compile mode"))
            && *final(vm) == *old(vm),
        old(vm).is_compiling ==> (r is Ok <==> old(vm).compile_stack@.len() >= 2),
        old(vm).is_compiling && old(vm).compile_stack@.len() < 2 ==> r == Err::<(), TbxError>(TbxError::StackUnderflow)
            && final(vm).compile_stack@ == old(vm).compile_stack@,
        r is Ok ==> final(vm).compile_stack@ == swap_top(old(vm).compile_stack@),
{
    if !vm.is_compiling {
        return Err(TbxError::InvalidExpression { reason: "CS_SWAP outside compile mode" });
    }
    let n = vm.compile_stack.len();
    if n < 2 {
        return Err(TbxError::StackUnderflow);
    }
    let a = vm.compile_stack[n - 2].dup();
    let b = vm.compile_stack[n - 1].dup();
    vm.compile_stack.set(n - 1, a);
    vm.compile_stack.set(n - 2, b);
    Ok(())
}


/// What `cs_drop_prim` does, from the state `pre` to the state `post` with the
/// result `r`.
pub open spec fn cs_drop_prim_outcome(pre: VM, post: VM, r: Result<(), TbxError>) -> bool {
    &&& (only_data_cs_changed(pre, post))
    &&& (post.data_stack@ == pre.data_stack@)
    &&& (!pre.is_compiling ==> r == Err::<(), TbxError>(outside_def("CS_DROP outside compile mode"))
            && post == pre)
    &&& (pre.is_compiling ==> (r is Ok <==> pre.compile_stack@.len() >= 1))
    &&& (pre.is_compiling && pre.compile_stack@.len() == 0 ==> r == Err::<(), TbxError>(TbxError::StackUnderflow))
    &&& (r is Ok ==> post.compile_stack@ == pre.compile_stack@.drop_last())
    &&& (r is Err ==> post.compile_stack@ == pre.compile_stack@)
}

/// CS_DROP: discard the top compile-stack entry.
pub fn cs_drop_prim(vm: &mut VM) -> (r: Result<(), TbxError>)
    requires
        old(vm).wf(),
    ensures
        final(vm).wf(),
        only_data_cs_changed(*old(vm), *final(vm)),
        final(vm).data_stack@ == old(vm).data_stack@,
        !old(vm).is_compiling ==> r == Err::<(), TbxError>(outside_def("CS_DROP outside compile mode"))
            && *final(vm) == *old(vm),
        old(vm).is_compiling ==> (r is Ok <==> old(vm).compile_stack@.len() >= 1),
        old(vm).is_compiling && old(vm).compile_stack@.len() == 0 ==> r == Err::<(), TbxError>(TbxError::StackUnderflow),
        r is Ok ==> final(vm).compile_stack@ == old(vm).compile_stack@.drop_last(),
        r is Err ==> final(vm).compile_stack@ == old(vm).compile_stack@,
{
    if !vm.is_compiling {
        return Err(TbxError::InvalidExpression { reason: "CS_DROP outside compile mode" });
    }
    match vm.compile_stack.pop() {
        Some(_) => Ok(()),
        None => Err(TbxError::StackUnderflow),
    }
}

/// What `cs_dup_prim` does, from the state `pre` to the state `post` with the
/// result `r`.
pub open spec fn cs_dup_prim_outcome(pre: VM, post: VM, r: Result<(), TbxError>) -> bool {
    &&& (only_data_cs_changed(pre, post))
    &&& (post.data_stack@ == pre.data_stack@)
    &&& (!pre.is_compiling ==> r == Err::<(), TbxError>(outside_def("CS_DUP outside compile mode"))
            && post == pre)
    &&& (pre.is_compiling ==> (r is Ok <==> pre.compile_stack@.len() >= 1))
    &&& (pre.is_compiling && pre.compile_stack@.len() == 0 ==> r == Err::<(), TbxError>(TbxError::StackUnderflow))
    &&& (r is Ok ==> post.compile_stack@ == pre.compile_stack@.push(pre.compile_stack@.last()))
    &&& (r is Err ==> post.compile_stack@ == pre.compile_stack@)
}

/// CS_DUP: duplicate the top compile-stack entry.
pub fn cs_dup_prim(vm: &mut VM) -> (r: Result<(), TbxError>)
    requires
        old(vm).wf(),
    ensures
        final(vm).wf(),
        only_data_cs_changed(*old(vm), *final(vm)),
        final(vm).data_stack@ == old(vm).data_stack@,
        !old(vm).is_compiling ==> r == Err::<(), TbxError>(outside_def("CS_DUP outside compile mode"))
            && *final(vm) == *old(vm),
        old(vm).is_compiling ==> (r is Ok <==> old(vm).compile_stack@.len() >= 1),
        old(vm).is_compiling && old(vm).compile_stack@.len() == 0 ==> r == Err::<(), TbxError>(TbxError::StackUnderflow),
        r is Ok ==> final(vm).compile_stack@ == old(vm).compile_stack@.push(old(vm).compile_stack@.last()),
        r is Err ==> final(vm).compile_stack@ == old(vm).compile_stack@,
{
    if !vm.is_compiling {
        return Err(TbxError::InvalidExpression { reason: "CS_DUP outside compile mode" });
    }
    let n = vm.compile_stack.len();
    if n == 0 {
        return Err(TbxError::StackUnderflow);
    }
    let top = vm.compile_stack[n - 1].dup();
    vm.compile_stack.push(top);
    Ok(())
}

/// What `cs_over_prim` does, from the state `pre` to the state `post` with the
/// result `r`.
pub open spec fn cs_over_prim_outcome(pre: VM, post: VM, r: Result<(), TbxError>) -> bool {
    &&& (only_data_cs_changed(pre, post))
    &&& (post.data_stack@ == pre.data_stack@)
    &&& (!pre.is_compiling ==> r == Err::<(), TbxError>(outside_def("CS_OVER outside compile mode"))
            && post == pre)
    &&& (pre.is_compiling ==> (r is Ok <==> pre.compile_stack@.len() >= 2))
    &&& (pre.is_compiling && pre.compile_stack@.len() < 2 ==> r == Err::<(), TbxError>(TbxError::StackUnderflow))
    &&& (r is Ok ==> post.compile_stack@ == pre.compile_stack@.push(
            pre.compile_stack@[pre.compile_stack@.len() - 2],
        ))
    &&& (r is Err ==> post.compile_stack@ == pre.compile_stack@)
}

/// CS_OVER: copy the second compile-stack entry to the top.
pub fn cs_over_prim(vm: &mut VM) -> (r: Result<(), TbxError>)
    requires
        old(vm).wf(),
    ensures
        final(vm).wf(),
        only_data_cs_changed(*old(vm), *final(vm)),
        final(vm).data_stack@ == old(vm).data_stack@,
        !old(vm).is_compiling ==> r == Err::<(), TbxError>(outside_def("CS_OVER outside compile mode"))
            && *final(vm) == *old(vm),
        old(vm).is_compiling ==> (r is Ok <==> old(vm).compile_stack@.len() >= 2),
        old(vm).is_compiling && old(vm).compile_stack@.len() < 2 ==> r == Err::<(), TbxError>(TbxError::StackUnderflow),
        r is Ok ==> final(vm).compile_stack@ == old(vm).compile_stack@.push(
            old(vm).compile_stack@[old(vm).compile_stack@.len() - 2],
        ),
        r is Err ==> final(vm).compile_stack@ == old(vm).compile_stack@,
{
    if !vm.is_compiling {
        return Err(TbxError::InvalidExpression { reason: "CS_OVER outside compile mode" });
    }
    let n = vm.compile_stack.len();
    if n < 2 {
        return Err(TbxError::StackUnderflow);
    }
    let second = vm.compile_stack[n - 2].dup();
    vm.compile_stack.push(second);
    Ok(())
}

/// What `cs_rot_prim` does, from the state `pre` to the state `post` with the
/// result `r`.
pub open spec fn cs_rot_prim_outcome(pre: VM, post: VM, r: Result<(), TbxError>) -> bool {
    &&& (only_data_cs_changed(pre, post))
    &&& (post.data_stack@ == pre.data_stack@)
    &&& (!pre.is_compiling ==> r == Err::<(), TbxError>(outside_def("CS_ROT outside compile mode"))
            && post == pre)
    &&& (pre.is_compiling ==> (r is Ok <==> pre.compile_stack@.len() >= 3))
    &&& (pre.is_compiling && pre.compile_stack@.len() < 3 ==> r == Err::<(), TbxError>(TbxError::StackUnderflow))
    &&& (r is Ok ==> post.compile_stack@ == rot_top(pre.compile_stack@))
    &&& (r is Err ==> post.compile_stack@ == pre.compile_stack@)
}

/// CS_ROT: rotate the top three compile-stack entries ( a b c -- b c a ).
pub fn cs_rot_prim(vm: &mut VM) -> (r: Result<(), TbxError>)
    requires
        old(vm).wf(),
    ensures
        final(vm).wf(),
        only_data_cs_changed(*old(vm), *final(vm)),
        final(vm).data_stack@ == old(vm).data_stack@,
        !old(vm).is_compiling ==> r == Err::<(), TbxError>(outside_def("CS_ROT outside compile mode"))
            && *final(vm) == *old(vm),
        old(vm).is_compiling ==> (r is Ok <==> old(vm).compile_stack@.len() >= 3),
        old(vm).is_compiling && old(vm).compile_stack@.len() < 3 ==> r == Err::<(), TbxError>(TbxError::StackUnderflow),
        r is Ok ==> final(vm).compile_stack@ == rot_top(old(vm).compile_stack@),
        r is Err ==> final(vm).compile_stack@ == old(vm).compile_stack@,
{
    if !vm.is_compiling {
        return Err(TbxError::InvalidExpression { reason: "CS_ROT outside compile mode" });
    }
    let n = vm.compile_stack.len();
    if n < 3 {
        return Err(TbxError::StackUnderflow);
    }
    let ghost s = vm.compile_stack@;
    let a = vm.compile_stack[n - 3].dup();
    let b = vm.compile_stack[n - 2].dup();
    let c = vm.compile_stack[n - 1].dup();
    vm.compile_stack.set(n - 3, b);
    vm.compile_stack.set(n - 2, c);
    vm.compile_stack.set(n - 1, a);
    assert(vm.compile_stack@ =~= rot_top(s));
    Ok(())
}

/// What `cs_open_tag_prim` does, from the state `pre` to the state `post` with the
/// result `r`.
pub open spec fn cs_open_tag_prim_outcome(pre: VM, post: VM, r: Result<(), TbxError>) -> bool {
    &&& (only_data_cs_changed(pre, post))
    &&& (!pre.is_compiling ==> r == Err::<(), TbxError>(outside_def("CS_OPEN_TAG outside compile mode"))
            && post == pre)
    &&& (pre.is_compiling ==> (r is Ok <==> (pre.data_stack@.len() > 0 && pre.data_stack@.last() is Str)))
    &&& (pre.is_compiling && pre.data_stack@.len() == 0 ==> r == Err::<(), TbxError>(TbxError::StackUnderflow))
    &&& (pre.is_compiling && pre.data_stack@.len() > 0 ==> post.data_stack@ == pre.data_stack@.drop_last())
    &&& (r is Ok ==> (pre.data_stack@.last() matches Cell::Str(t) && post.compile_stack@
            == pre.compile_stack@.push(CompileEntry::Tag(t))))
    &&& (r is Err ==> post.compile_stack@ == pre.compile_stack@)
    &&& (pre.is_compiling && pre.data_stack@.len() > 0 && r is Err ==> r == Err::<(), TbxError>(
            TbxError::TypeError { expected: "Str", got: variant_name_of(pre.data_stack@.last()) },
        ))
}

/// CS_OPEN_TAG ( s -- ): open a control-structure scope named `s`.
pub fn cs_open_tag_prim(vm: &mut VM) -> (r: Result<(), TbxError>)
    requires
        old(vm).wf(),
    ensures
        final(vm).wf(),
        only_data_cs_changed(*old(vm), *final(vm)),
        !old(vm).is_compiling ==> r == Err::<(), TbxError>(outside_def("CS_OPEN_TAG outside compile mode"))
            && *final(vm) == *old(vm),
        old(vm).is_compiling ==> (r is Ok <==> (old(vm).data_stack@.len() > 0 && old(vm).data_stack@.last() is Str)),
        old(vm).is_compiling && old(vm).data_stack@.len() == 0 ==> r == Err::<(), TbxError>(TbxError::StackUnderflow),
        old(vm).is_compiling && old(vm).data_stack@.len() > 0 ==> final(vm).data_stack@ == old(vm).data_stack@.drop_last(),
        r is Ok ==> (old(vm).data_stack@.last() matches Cell::Str(t) && final(vm).compile_stack@
            == old(vm).compile_stack@.push(CompileEntry::Tag(t))),
        r is Err ==> final(vm).compile_stack@ == old(vm).compile_stack@,
        old(vm).is_compiling && old(vm).data_stack@.len() > 0 && r is Err ==> r == Err::<(), TbxError>(
            TbxError::TypeError { expected: "Str", got: variant_name_of(old(vm).data_stack@.last()) },
        ),
{
    if !vm.is_compiling {
        return Err(TbxError::InvalidExpression { reason: "CS_OPEN_TAG outside compile mode" });
    }
    let tag = vm.pop_string_value()?;
    vm.compile_stack.push(CompileEntry::Tag(tag));
    Ok(())
}

/// `r` is the outcome of closing the scope `expected` on compile stack `cs`:
/// the top entry must be that scope's tag.
pub open spec fn close_tag_outcome(cs: Seq<CompileEntry>, expected: Seq<char>, r: Result<(), TbxError>) -> bool {
    if cs.len() > 0 {
        match cs.last() {
            CompileEntry::Tag(found) => if found@ == expected {
                r is Ok
            } else {
                r matches Err(TbxError::MismatchedTag { expected: x, found: f }) && x@ == expected && f == found
            },
            _ => r matches Err(TbxError::NoOpenTag { expected: x }) && x@ == expected,
        }
    } else {
        r matches Err(TbxError::NoOpenTag { expected: x }) && x@ == expected
    }
}

/// Close the scope `expected`: the compile stack's top entry must be its
/// tag, which is removed. A cell on top stays; a different tag is removed.
pub fn close_tag(vm: &mut VM, expected: String) -> (r: Result<(), TbxError>)
    requires
        old(vm).wf(),
    ensures
        final(vm).wf(),
        only_data_cs_changed(*old(vm), *final(vm)),
        final(vm).data_stack@ == old(vm).data_stack@,
        close_tag_outcome(old(vm).compile_stack@, expected@, r),
        (old(vm).compile_stack@.len() > 0 && old(vm).compile_stack@.last() is Tag) ==> final(vm).compile_stack@
            == old(vm).compile_stack@.drop_last(),
        !(old(vm).compile_stack@.len() > 0 && old(vm).compile_stack@.last() is Tag) ==> final(vm).compile_stack@
            == old(vm).compile_stack@,
{
    let n = vm.compile_stack.len();
    if n == 0 {
        return Err(TbxError::NoOpenTag { expected });
    }
    let is_tag = match &vm.compile_stack[n - 1] {
        CompileEntry::Tag(_) => true,
        _ => false,
    };
    if !is_tag {
        return Err(TbxError::NoOpenTag { expected });
    }
    match vm.compile_stack.pop() {
        Some(CompileEntry::Tag(found)) => {
            if found == expected {
                Ok(())
            } else {
                Err(TbxError::MismatchedTag { expected, found })
            }
        },
        _ => Err(TbxError::NoOpenTag { expected }),
    }
}

/// What `cs_close_tag_prim` does, from the state `pre` to the state `post` with the
/// result `r`.
pub open spec fn cs_close_tag_prim_outcome(pre: VM, post: VM, r: Result<(), TbxError>) -> bool {
    &&& (only_data_cs_changed(pre, post))
    &&& (!pre.is_compiling ==> r == Err::<(), TbxError>(outside_def("CS_CLOSE_TAG outside compile mode"))
            && post == pre)
    &&& (pre.is_compiling && pre.data_stack@.len() == 0 ==> r == Err::<(), TbxError>(TbxError::StackUnderflow)
            && post.compile_stack@ == pre.compile_stack@)
    &&& (pre.is_compiling && pre.data_stack@.len() > 0 ==> post.data_stack@ == pre.data_stack@.drop_last()
            && match pre.data_stack@.last() {
                Cell::Str(t) => close_tag_outcome(pre.compile_stack@, t@, r) && post.compile_stack@ == if pre.compile_stack@.len() > 0 && pre.compile_stack@.last() is Tag {
                    pre.compile_stack@.drop_last()
                } else {
                    pre.compile_stack@
                },
                c => r == Err::<(), TbxError>(TbxError::TypeError { expected: "Str", got: variant_name_of(c) })
                    && post.compile_stack@ == pre.compile_stack@,
            })
}

/// CS_CLOSE_TAG ( s -- ): close the control-structure scope named `s`.
pub fn cs_close_tag_prim(vm: &mut VM) -> (r: Result<(), TbxError>)
    requires
        old(vm).wf(),
    ensures
        final(vm).wf(),
        only_data_cs_changed(*old(vm), *final(vm)),
        !old(vm).is_compiling ==> r == Err::<(), TbxError>(outside_def("CS_CLOSE_TAG outside compile mode"))
            && *final(vm) == *old(vm),
        old(vm).is_compiling && old(vm).data_stack@.len() == 0 ==> r == Err::<(), TbxError>(TbxError::StackUnderflow)
            && final(vm).compile_stack@ == old(vm).compile_stack@,
        old(vm).is_compiling && old(vm).data_stack@.len() > 0 ==> final(vm).data_stack@ == old(vm).data_stack@.drop_last()
            && match old(vm).data_stack@.last() {
                Cell::Str(t) => close_tag_outcome(old(vm).compile_stack@, t@, r) && final(vm).compile_stack@ == if old(
                    vm,
                ).compile_stack@.len() > 0 && old(vm).compile_stack@.last() is Tag {
                    old(vm).compile_stack@.drop_last()
                } else {
                    old(vm).compile_stack@
                },
                c => r == Err::<(), TbxError>(TbxError::TypeError { expected: "Str", got: variant_name_of(c) })
                    && final(vm).compile_stack@ == old(vm).compile_stack@,
            },
{
    if !vm.is_compiling {
        return Err(TbxError::InvalidExpression { reason: "CS_CLOSE_TAG outside compile mode" });
    }
    let expected = vm.pop_string_value()?;
    close_tag(vm, expected)
}

/// What `patch_addr_prim` does, from the state `pre` to the state `post` with the
/// result `r`.
pub open spec fn patch_addr_prim_outcome(pre: VM, post: VM, r: Result<(), TbxError>) -> bool {
    &&& (post.dp == pre.dp)
    &&& (eq_headers(pre, post))
    &&& (eq_control(pre, post))
    &&& (eq_compile(pre, post))
    &&& (eq_io(pre, post))
    &&& (eq_rest(pre, post))
    &&& (!pre.is_compiling ==> r == Err::<(), TbxError>(outside_def("PATCH_ADDR outside compile mode"))
            && post == pre)
    &&& (pre.is_compiling && pre.data_stack@.len() == 0 ==> r == Err::<(), TbxError>(TbxError::StackUnderflow)
            && post.dictionary@ == pre.dictionary@)
    &&& (pre.is_compiling && pre.data_stack@.len() > 0 ==> post.data_stack@ == pre.data_stack@.drop_last()
            && match pre.data_stack@.last() {
                Cell::DictAddr(a) => if a < pre.dictionary@.len() {
                    r is Ok && post.dictionary@ == pre.dictionary@.update(a as int, Cell::DictAddr(pre.dp))
                } else {
                    r == Err::<(), TbxError>(TbxError::IndexOutOfBounds { index: a, size: pre.dictionary@.len() as usize })
                        && post.dictionary@ == pre.dictionary@
                },
                c => r == Err::<(), TbxError>(TbxError::TypeError { expected: "DictAddr", got: variant_name_of(c) })
                    && post.dictionary@ == pre.dictionary@,
            })
}

/// PATCH_ADDR ( addr -- ): write the current dictionary pointer, as a jump
/// target, into the placeholder at `addr`.
pub fn patch_addr_prim(vm: &mut VM) -> (r: Result<(), TbxError>)
    requires
        old(vm).wf(),
    ensures
        final(vm).wf(),
        final(vm).dp == old(vm).dp,
        eq_headers(*old(vm), *final(vm)),
        eq_control(*old(vm), *final(vm)),
        eq_compile(*old(vm), *final(vm)),
        eq_io(*old(vm), *final(vm)),
        eq_rest(*old(vm), *final(vm)),
        !old(vm).is_compiling ==> r == Err::<(), TbxError>(outside_def("PATCH_ADDR outside compile mode"))
            && *final(vm) == *old(vm),
        old(vm).is_compiling && old(vm).data_stack@.len() == 0 ==> r == Err::<(), TbxError>(TbxError::StackUnderflow)
            && final(vm).dictionary@ == old(vm).dictionary@,
        old(vm).is_compiling && old(vm).data_stack@.len() > 0 ==> final(vm).data_stack@ == old(vm).data_stack@.drop_last()
            && match old(vm).data_stack@.last() {
                Cell::DictAddr(a) => if a < old(vm).dictionary@.len() {
                    r is Ok && final(vm).dictionary@ == old(vm).dictionary@.update(a as int, Cell::DictAddr(old(vm).dp))
                } else {
                    r == Err::<(), TbxError>(TbxError::IndexOutOfBounds { index: a, size: old(vm).dictionary@.len() as usize })
                        && final(vm).dictionary@ == old(vm).dictionary@
                },
                c => r == Err::<(), TbxError>(TbxError::TypeError { expected: "DictAddr", got: variant_name_of(c) })
                    && final(vm).dictionary@ == old(vm).dictionary@,
            },
{
    if !vm.is_compiling {
        return Err(TbxError::InvalidExpression { reason: "PATCH_ADDR outside compile mode" });
    }
    let addr = vm.pop()?;
    match addr {
        Cell::DictAddr(a) => {
            let here = vm.dp;
            vm.dict_write_at(a, Cell::DictAddr(here))
        },
        other => Err(TbxError::TypeError { expected: "DictAddr", got: other.variant_name() }),
    }
}

} // verus!
