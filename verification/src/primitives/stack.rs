//! Data-stack primitives and the address primitives FETCH / STORE / SET.
use vstd::prelude::*;
use crate::cell::Cell;
use crate::error::TbxError;
use crate::primitives::memory::{Loc, locate_with, load, stored_with, locate_ok};
use crate::vm::{VM, only_data_changed};

verus! {

/// A stack with its top two entries exchanged.
pub open spec fn swap_top<A>(s: Seq<A>) -> Seq<A> {
    let n = s.len();
    s.update(n - 1, s[n - 2]).update(n - 2, s[n - 1])
}

/// Exchanging the top two entries twice gives the stack back (SWAP SWAP,
/// CS_SWAP CS_SWAP), and the stack keeps its depth.
pub proof fn law_swap_twice<A>(s: Seq<A>)
    requires
        s.len() >= 2,
    ensures
        swap_top(s).len() == s.len(),
        swap_top(swap_top(s)) == s,
{
    assert(swap_top(swap_top(s)) =~= s);
}

/// DROP undoes DUP: duplicating the top and discarding it again leaves the
/// stack as it was.
pub proof fn law_drop_undoes_dup<A>(s: Seq<A>)
    requires
        s.len() >= 1,
    ensures
        s.push(s.last()).drop_last() == s,
        s.push(s.last()).last() == s.last(),
{
    assert(s.push(s.last()).drop_last() =~= s);
}

/// DROP ( a -- )
pub fn drop_prim(vm: &mut VM) -> (r: Result<(), TbxError>)
    requires
        old(vm).wf(),
    ensures
        final(vm).wf(),
        only_data_changed(*old(vm), *final(vm)),
        r is Ok <==> old(vm).data_stack@.len() >= 1,
        r is Ok ==> final(vm).data_stack@ == old(vm).data_stack@.drop_last(),
        r matches Err(e) ==> e == TbxError::StackUnderflow && final(vm).data_stack@ == old(vm).data_stack@,
{
    vm.pop()?;
    Ok(())
}

/// DUP ( a -- a a )
pub fn dup_prim(vm: &mut VM) -> (r: Result<(), TbxError>)
    requires
        old(vm).wf(),
    ensures
        final(vm).wf(),
        only_data_changed(*old(vm), *final(vm)),
        old(vm).data_stack@.len() == 0 ==> r == Err::<(), TbxError>(TbxError::StackUnderflow)
            && final(vm).data_stack@ == old(vm).data_stack@,
        old(vm).data_stack@.len() > 0 ==> (r is Ok <==> old(vm).data_stack@.len() < crate::constants::MAX_DATA_STACK_DEPTH),
        r is Ok ==> final(vm).data_stack@ == old(vm).data_stack@.push(old(vm).data_stack@.last()),
        r is Err ==> final(vm).data_stack@ == old(vm).data_stack@,
{
    let n = vm.data_stack.len();
    if n == 0 {
        return Err(TbxError::StackUnderflow);
    }
    let top = vm.data_stack[n - 1].dup();
    vm.push(top)
}

/// SWAP ( a b -- b a )
pub fn swap_prim(vm: &mut VM) -> (r: Result<(), TbxError>)
    requires
        old(vm).wf(),
    ensures
        final(vm).wf(),
        only_data_changed(*old(vm), *final(vm)),
        r is Ok <==> old(vm).data_stack@.len() >= 2,
        r is Ok ==> final(vm).data_stack@ == swap_top(old(vm).data_stack@),
        r matches Err(e) ==> e == TbxError::StackUnderflow && final(vm).data_stack@ == old(vm).data_stack@,
{
    let n = vm.data_stack.len();
    if n < 2 {
        return Err(TbxError::StackUnderflow);
    }
    let a = vm.data_stack[n - 2].dup();
    let b = vm.data_stack[n - 1].dup();
    vm.data_stack.set(n - 1, a);
    vm.data_stack.set(n - 2, b);
    Ok(())
}

/// FETCH ( addr -- value ): push a copy of the value stored at `addr`.
pub fn fetch_prim(vm: &mut VM) -> (r: Result<(), TbxError>)
    requires
        old(vm).wf(),
    ensures
        final(vm).wf(),
        only_data_changed(*old(vm), *final(vm)),
        old(vm).data_stack@.len() == 0 ==> r == Err::<(), TbxError>(TbxError::StackUnderflow)
            && final(vm).data_stack@ == old(vm).data_stack@,
        old(vm).data_stack@.len() > 0 ==> {
            let s = old(vm).data_stack@;
            match locate_with(*old(vm), s.len() - 1, s.last()) {
                Ok(l) => r is Ok && final(vm).data_stack@ == s.drop_last().push(load(*old(vm), l)),
                Err(e) => r == Err::<(), TbxError>(e) && final(vm).data_stack@ == s.drop_last(),
            }
        },
{
    let addr = vm.pop()?;
    let l = vm.locate_addr(&addr)?;
    let v = vm.load_loc(l);
    vm.push(v)
}

/// STORE ( value addr -- ): write `value` at `addr`.
pub fn store_prim(vm: &mut VM) -> (r: Result<(), TbxError>)
    requires
        old(vm).wf(),
    ensures
        final(vm).wf(),
        old(vm).data_stack@.len() < 2 ==> r == Err::<(), TbxError>(TbxError::StackUnderflow)
            && only_data_changed(*old(vm), *final(vm)),
        old(vm).data_stack@.len() >= 2 ==> {
            let s = old(vm).data_stack@;
            let n = s.len();
            match locate_with(*old(vm), n - 2, s[n - 1]) {
                Ok(l) => r is Ok && stored_with(*old(vm), s.take(n - 2), *final(vm), l, s[n - 2]),
                Err(e) => r == Err::<(), TbxError>(e) && final(vm).data_stack@ == s.take(n - 2)
                    && only_data_changed(*old(vm), *final(vm)),
            }
        },
{
    if vm.data_stack.len() < 2 {
        return Err(TbxError::StackUnderflow);
    }
    let ghost s0 = vm.data_stack@;
    let addr = vm.pop()?;
    let value = vm.pop()?;
    assert(vm.data_stack@ =~= s0.take(s0.len() - 2));
    let l = vm.locate_addr(&addr)?;
    vm.store_loc(l, value);
    Ok(())
}

} // verus!

verus! {

/// What `set_prim` does, from the state `pre` to the state `post` with the
/// result `r`.
pub open spec fn set_prim_outcome(pre: VM, post: VM, r: Result<(), TbxError>) -> bool {
    &&& (pre.data_stack@.len() < 2 ==> r == Err::<(), TbxError>(TbxError::StackUnderflow)
            && only_data_changed(pre, post))
    &&& (pre.data_stack@.len() >= 2 ==> {
            let s = pre.data_stack@;
            let n = s.len();
            if s[n - 1] is Array && !(s[n - 2] is StackAddr) {
                r == Err::<(), TbxError>(TbxError::TypeError { expected: "non-array value", got: "Array" })
                    && post.data_stack@ == s.take(n - 2) && only_data_changed(pre, post)
            } else {
                match locate_with(pre, n - 2, s[n - 2]) {
                    Ok(l) => r is Ok && stored_with(pre, s.take(n - 2), post, l, s[n - 1]),
                    Err(e) => r == Err::<(), TbxError>(e) && post.data_stack@ == s.take(n - 2)
                        && only_data_changed(pre, post),
                }
            }
        })
}

/// SET ( addr value -- ): write `value` at `addr`; an array handle can be
/// stored this way only into a local slot (as DIM inside a definition
/// does).
pub fn set_prim(vm: &mut VM) -> (r: Result<(), TbxError>)
    requires
        old(vm).wf(),
    ensures
        final(vm).wf(),
        old(vm).data_stack@.len() < 2 ==> r == Err::<(), TbxError>(TbxError::StackUnderflow)
            && only_data_changed(*old(vm), *final(vm)),
        old(vm).data_stack@.len() >= 2 ==> {
            let s = old(vm).data_stack@;
            let n = s.len();
            if s[n - 1] is Array && !(s[n - 2] is StackAddr) {
                r == Err::<(), TbxError>(TbxError::TypeError { expected: "non-array value", got: "Array" })
                    && final(vm).data_stack@ == s.take(n - 2) && only_data_changed(*old(vm), *final(vm))
            } else {
                match locate_with(*old(vm), n - 2, s[n - 2]) {
                    Ok(l) => r is Ok && stored_with(*old(vm), s.take(n - 2), *final(vm), l, s[n - 1]),
                    Err(e) => r == Err::<(), TbxError>(e) && final(vm).data_stack@ == s.take(n - 2)
                        && only_data_changed(*old(vm), *final(vm)),
                }
            }
        },
{
    if vm.data_stack.len() < 2 {
        return Err(TbxError::StackUnderflow);
    }
    let ghost s0 = vm.data_stack@;
    let value = vm.pop()?;
    let addr = vm.pop()?;
    assert(vm.data_stack@ =~= s0.take(s0.len() - 2));
    if let Cell::Array(_) = value {
        if !matches!(addr, Cell::StackAddr(_)) {
            return Err(TbxError::TypeError { expected: "non-array value", got: "Array" });
        }
    }
    let l = vm.locate_addr(&addr)?;
    vm.store_loc(l, value);
    Ok(())
}

/// What `array_store_local_prim` does, from the state `pre` to the state `post` with the
/// result `r`.
pub open spec fn array_store_local_prim_outcome(pre: VM, post: VM, r: Result<(), TbxError>) -> bool {
    &&& (pre.data_stack@.len() < 2 ==> r == Err::<(), TbxError>(TbxError::StackUnderflow)
            && only_data_changed(pre, post))
    &&& (pre.data_stack@.len() >= 2 ==> {
            let s = pre.data_stack@;
            let n = s.len();
            match locate_with(pre, n - 2, s[n - 2]) {
                Ok(l) => r is Ok && stored_with(pre, s.take(n - 2), post, l, s[n - 1]),
                Err(e) => r == Err::<(), TbxError>(e) && post.data_stack@ == s.take(n - 2)
                    && only_data_changed(pre, post),
            }
        })
}

/// ARRAY_STORE_LOCAL ( addr handle -- ): like SET, also for array handles
/// (used by the code that DIM compiles).
pub fn array_store_local_prim(vm: &mut VM) -> (r: Result<(), TbxError>)
    requires
        old(vm).wf(),
    ensures
        final(vm).wf(),
        old(vm).data_stack@.len() < 2 ==> r == Err::<(), TbxError>(TbxError::StackUnderflow)
            && only_data_changed(*old(vm), *final(vm)),
        old(vm).data_stack@.len() >= 2 ==> {
            let s = old(vm).data_stack@;
            let n = s.len();
            match locate_with(*old(vm), n - 2, s[n - 2]) {
                Ok(l) => r is Ok && stored_with(*old(vm), s.take(n - 2), *final(vm), l, s[n - 1]),
                Err(e) => r == Err::<(), TbxError>(e) && final(vm).data_stack@ == s.take(n - 2)
                    && only_data_changed(*old(vm), *final(vm)),
            }
        },
{
    if vm.data_stack.len() < 2 {
        return Err(TbxError::StackUnderflow);
    }
    let ghost s0 = vm.data_stack@;
    let value = vm.pop()?;
    let addr = vm.pop()?;
    assert(vm.data_stack@ =~= s0.take(s0.len() - 2));
    let l = vm.locate_addr(&addr)?;
    vm.store_loc(l, value);
    Ok(())
}

} // verus!
