//! Array primitives used by the code that DIM and `@A[i]` compile.
use vstd::prelude::*;
use crate::cell::{Cell, variant_name_of};
use crate::constants::MAX_ARRAY_ELEMENTS;
use crate::error::TbxError;
use crate::vm::{VM, eq_dictionary, eq_headers, eq_control, eq_compile, eq_io, only_data_changed};

verus! {

/// A new array of `n` empty elements.
pub fn nil_array(n: usize) -> (r: Vec<Cell>)
    ensures
        r@.len() == n,
        forall|i: int| 0 <= i < n ==> #[trigger] r@[i] == Cell::Nil,
{
    let mut v: Vec<Cell> = Vec::new();
    let mut k: usize = 0;
    while k < n
        invariant
            k <= n,
            v@.len() == k,
            forall|i: int| 0 <= i < k ==> #[trigger] v@[i] == Cell::Nil,
        decreases n - k,
    {
        v.push(Cell::Nil);
        k = k + 1;
    }
    v
}

/// What `array_prim` does, from the state `pre` to the state `post` with the
/// result `r`.
pub open spec fn array_prim_outcome(pre: VM, post: VM, r: Result<(), TbxError>) -> bool {
    &&& (eq_dictionary(pre, post))
    &&& (eq_headers(pre, post))
    &&& (eq_control(pre, post))
    &&& (eq_compile(pre, post))
    &&& (eq_io(pre, post))
    &&& (post.token_stream == pre.token_stream)
    &&& (post.pending_use_path == pre.pending_use_path)
    &&& (pre.data_stack@.len() == 0 ==> r == Err::<(), TbxError>(TbxError::StackUnderflow))
    &&& (r is Ok ==> (pre.data_stack@.last() matches Cell::Int(n) && 1 <= n <= MAX_ARRAY_ELEMENTS
            && post.arrays@.len() == pre.arrays@.len() + 1
            && post.arrays@.drop_last() == pre.arrays@
            && post.arrays@.last()@.len() == n
            && (forall|i: int| 0 <= i < n ==> #[trigger] post.arrays@.last()@[i] == Cell::Nil)
            && post.data_stack@ == pre.data_stack@.drop_last().push(Cell::Array(pre.arrays@.len() as usize))))
    &&& (r is Err ==> post.arrays@ == pre.arrays@)
    &&& (pre.data_stack@.len() > 0 ==> (r is Ok <==> (pre.data_stack@.last() matches Cell::Int(n) && 1 <= n
            <= MAX_ARRAY_ELEMENTS)))
}

/// ARRAY ( n -- handle ): create an array of `n` empty elements.
pub fn array_prim(vm: &mut VM) -> (r: Result<(), TbxError>)
    requires
        old(vm).wf(),
    ensures
        final(vm).wf(),
        eq_dictionary(*old(vm), *final(vm)),
        eq_headers(*old(vm), *final(vm)),
        eq_control(*old(vm), *final(vm)),
        eq_compile(*old(vm), *final(vm)),
        eq_io(*old(vm), *final(vm)),
        final(vm).token_stream == old(vm).token_stream,
        final(vm).pending_use_path == old(vm).pending_use_path,
        old(vm).data_stack@.len() == 0 ==> r == Err::<(), TbxError>(TbxError::StackUnderflow),
        r is Ok ==> (old(vm).data_stack@.last() matches Cell::Int(n) && 1 <= n <= MAX_ARRAY_ELEMENTS
            && final(vm).arrays@.len() == old(vm).arrays@.len() + 1
            && final(vm).arrays@.drop_last() == old(vm).arrays@
            && final(vm).arrays@.last()@.len() == n
            && (forall|i: int| 0 <= i < n ==> #[trigger] final(vm).arrays@.last()@[i] == Cell::Nil)
            && final(vm).data_stack@ == old(vm).data_stack@.drop_last().push(Cell::Array(old(vm).arrays@.len() as usize))),
        r is Err ==> final(vm).arrays@ == old(vm).arrays@,
        old(vm).data_stack@.len() > 0 ==> (r is Ok <==> (old(vm).data_stack@.last() matches Cell::Int(n) && 1 <= n
            <= MAX_ARRAY_ELEMENTS)),
{
    let n = vm.pop_int()?;
    if n <= 0 || n > MAX_ARRAY_ELEMENTS as i64 {
        return Err(TbxError::InvalidOperand { name: "size", value: n, reason: "array size must be between 1 and the element limit" });
    }
    let idx = vm.arrays.len();
    let a = nil_array(n as usize);
    let ghost a0 = vm.arrays@;
    vm.arrays.push(a);
    assert(vm.arrays@.drop_last() =~= a0);
    vm.push(Cell::Array(idx))
}

/// The array that a handle designates, or why there is none.
pub open spec fn handle_array(vm: VM, c: Cell) -> Result<usize, TbxError> {
    match c {
        Cell::Array(p) => if p < vm.arrays@.len() {
            Ok(p)
        } else {
            Err(TbxError::IndexOutOfBounds { index: p, size: vm.arrays@.len() as usize })
        },
        _ => Err(TbxError::TypeError { expected: "Array", got: variant_name_of(c) }),
    }
}

fn check_handle(vm: &VM, c: &Cell) -> (r: Result<usize, TbxError>)
    ensures
        r == handle_array(*vm, *c),
{
    match c {
        Cell::Array(p) => {
            if *p < vm.arrays.len() {
                Ok(*p)
            } else {
                Err(TbxError::IndexOutOfBounds { index: *p, size: vm.arrays.len() })
            }
        },
        _ => Err(TbxError::TypeError { expected: "Array", got: c.variant_name() }),
    }
}

/// What `array_len_prim` does, from the state `pre` to the state `post` with the
/// result `r`.
pub open spec fn array_len_prim_outcome(pre: VM, post: VM, r: Result<(), TbxError>) -> bool {
    &&& (only_data_changed(pre, post))
    &&& (pre.data_stack@.len() == 0 ==> r == Err::<(), TbxError>(TbxError::StackUnderflow))
    &&& (pre.data_stack@.len() > 0 ==> match handle_array(pre, pre.data_stack@.last()) {
            Ok(p) => r is Ok && post.data_stack@ == pre.data_stack@.drop_last().push(
                Cell::Int(pre.arrays@[p as int]@.len() as i64),
            ),
            Err(e) => r == Err::<(), TbxError>(e) && post.data_stack@ == pre.data_stack@.drop_last(),
        })
}

/// ARRAY_LEN ( handle -- n ): the number of elements of an array.
pub fn array_len_prim(vm: &mut VM) -> (r: Result<(), TbxError>)
    requires
        old(vm).wf(),
    ensures
        final(vm).wf(),
        only_data_changed(*old(vm), *final(vm)),
        old(vm).data_stack@.len() == 0 ==> r == Err::<(), TbxError>(TbxError::StackUnderflow),
        old(vm).data_stack@.len() > 0 ==> match handle_array(*old(vm), old(vm).data_stack@.last()) {
            Ok(p) => r is Ok && final(vm).data_stack@ == old(vm).data_stack@.drop_last().push(
                Cell::Int(old(vm).arrays@[p as int]@.len() as i64),
            ),
            Err(e) => r == Err::<(), TbxError>(e) && final(vm).data_stack@ == old(vm).data_stack@.drop_last(),
        },
{
    let h = vm.pop()?;
    let p = check_handle(vm, &h)?;
    let n = vm.arrays[p].len();
    vm.push(Cell::Int(n as i64))
}

/// The storage index of the element that a (1-based) index cell designates
/// in an array of `len` elements: element `i` is stored at `i - 1`.
pub open spec fn element_index(c: Cell, len: nat) -> Result<usize, TbxError> {
    match c {
        Cell::Int(i) => if 1 <= i <= len {
            Ok((i - 1) as usize)
        } else {
            Err(TbxError::ArrayIndexOutOfBounds { index: i, size: len as usize })
        },
        _ => Err(TbxError::TypeError { expected: "Int", got: variant_name_of(c) }),
    }
}

fn check_index(c: &Cell, len: usize) -> (r: Result<usize, TbxError>)
    ensures
        r == element_index(*c, len as nat),
{
    match c {
        Cell::Int(i) => {
            if *i >= 1 && (*i as u64) <= (len as u64) {
                Ok((*i - 1) as usize)
            } else {
                Err(TbxError::ArrayIndexOutOfBounds { index: *i, size: len })
            }
        },
        _ => Err(TbxError::TypeError { expected: "Int", got: c.variant_name() }),
    }
}

/// What `array_get_prim` does, from the state `pre` to the state `post` with the
/// result `r`.
pub open spec fn array_get_prim_outcome(pre: VM, post: VM, r: Result<(), TbxError>) -> bool {
    &&& (only_data_changed(pre, post))
    &&& (pre.data_stack@.len() < 2 ==> r is Err)
    &&& (pre.data_stack@.len() >= 2 ==> {
            let s = pre.data_stack@;
            let n = s.len();
            match handle_array(pre, s[n - 2]) {
                Ok(p) => match element_index(s[n - 1], pre.arrays@[p as int]@.len()) {
                    Ok(i) => r is Ok && post.data_stack@ == s.take(n - 2).push(pre.arrays@[p as int]@[i as int]),
                    Err(e) => r == Err::<(), TbxError>(e) && post.data_stack@ == s.take(n - 2),
                },
                Err(e) => r == Err::<(), TbxError>(e) && post.data_stack@ == s.take(n - 2),
            }
        })
}

/// ARRAY_GET ( handle i -- v ): element `i` of an array.
pub fn array_get_prim(vm: &mut VM) -> (r: Result<(), TbxError>)
    requires
        old(vm).wf(),
    ensures
        final(vm).wf(),
        only_data_changed(*old(vm), *final(vm)),
        old(vm).data_stack@.len() < 2 ==> r is Err,
        old(vm).data_stack@.len() >= 2 ==> {
            let s = old(vm).data_stack@;
            let n = s.len();
            match handle_array(*old(vm), s[n - 2]) {
                Ok(p) => match element_index(s[n - 1], old(vm).arrays@[p as int]@.len()) {
                    Ok(i) => r is Ok && final(vm).data_stack@ == s.take(n - 2).push(old(vm).arrays@[p as int]@[i as int]),
                    Err(e) => r == Err::<(), TbxError>(e) && final(vm).data_stack@ == s.take(n - 2),
                },
                Err(e) => r == Err::<(), TbxError>(e) && final(vm).data_stack@ == s.take(n - 2),
            }
        },
{
    if vm.data_stack.len() < 2 {
        return Err(TbxError::StackUnderflow);
    }
    let ghost s0 = vm.data_stack@;
    let ic = vm.pop()?;
    let h = vm.pop()?;
    assert(vm.data_stack@ =~= s0.take(s0.len() - 2));
    let p = check_handle(vm, &h)?;
    let i = check_index(&ic, vm.arrays[p].len())?;
    let v = vm.arrays[p][i].dup();
    vm.push(v)
}

/// What `array_addr_prim` does, from the state `pre` to the state `post` with the
/// result `r`.
pub open spec fn array_addr_prim_outcome(pre: VM, post: VM, r: Result<(), TbxError>) -> bool {
    &&& (only_data_changed(pre, post))
    &&& (pre.data_stack@.len() < 2 ==> r is Err)
    &&& (pre.data_stack@.len() >= 2 ==> {
            let s = pre.data_stack@;
            let n = s.len();
            match handle_array(pre, s[n - 2]) {
                Ok(p) => match element_index(s[n - 1], pre.arrays@[p as int]@.len()) {
                    Ok(i) => r is Ok && post.data_stack@ == s.take(n - 2).push(Cell::ArrayElem(p, i)),
                    Err(e) => r == Err::<(), TbxError>(e) && post.data_stack@ == s.take(n - 2),
                },
                Err(e) => r == Err::<(), TbxError>(e) && post.data_stack@ == s.take(n - 2),
            }
        })
}

/// ARRAY_ADDR ( handle i -- addr ): the address of element `i` of an array.
pub fn array_addr_prim(vm: &mut VM) -> (r: Result<(), TbxError>)
    requires
        old(vm).wf(),
    ensures
        final(vm).wf(),
        only_data_changed(*old(vm), *final(vm)),
        old(vm).data_stack@.len() < 2 ==> r is Err,
        old(vm).data_stack@.len() >= 2 ==> {
            let s = old(vm).data_stack@;
            let n = s.len();
            match handle_array(*old(vm), s[n - 2]) {
                Ok(p) => match element_index(s[n - 1], old(vm).arrays@[p as int]@.len()) {
                    Ok(i) => r is Ok && final(vm).data_stack@ == s.take(n - 2).push(Cell::ArrayElem(p, i)),
                    Err(e) => r == Err::<(), TbxError>(e) && final(vm).data_stack@ == s.take(n - 2),
                },
                Err(e) => r == Err::<(), TbxError>(e) && final(vm).data_stack@ == s.take(n - 2),
            }
        },
{
    if vm.data_stack.len() < 2 {
        return Err(TbxError::StackUnderflow);
    }
    let ghost s0 = vm.data_stack@;
    let ic = vm.pop()?;
    let h = vm.pop()?;
    assert(vm.data_stack@ =~= s0.take(s0.len() - 2));
    let p = check_handle(vm, &h)?;
    let i = check_index(&ic, vm.arrays[p].len())?;
    vm.push(Cell::ArrayElem(p, i))
}

} // verus!
