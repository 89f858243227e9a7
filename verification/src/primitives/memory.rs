//! Addresses and the primitives that read and write through them.
use vstd::prelude::*;
use crate::cell::{Cell, ReturnFrame, variant_name_of};
use crate::constants::VARIADIC_LOCAL_BASE;
use crate::error::TbxError;
use crate::vm::{VM, eq_dictionary, eq_headers, eq_control, eq_compile, eq_io, eq_rest, only_data_changed};

verus! {

/// A storage location.
#[derive(Debug, Clone, Copy, PartialEq, Eq)]
pub enum Loc {
    /// A dictionary cell.
    Dict(usize),
    /// A data-stack slot (absolute index).
    Stack(usize),
    /// An element of an array in the pool.
    Elem(usize, usize),
}

/// Number of arguments of the innermost call frame, if there is one.
pub open spec fn frame_arity(rs: Seq<ReturnFrame>) -> Option<usize> {
    if rs.len() > 0 {
        match rs.last() {
            ReturnFrame::Call { actual_arity, .. } => Some(actual_arity),
            ReturnFrame::TopLevel => None,
        }
    } else {
        None
    }
}

/// Absolute data-stack index of local slot `idx`.
pub open spec fn local_index(vm: VM, idx: usize) -> Option<int> {
    if idx >= VARIADIC_LOCAL_BASE {
        match frame_arity(vm.return_stack@) {
            Some(a) => Some(vm.bp + a + (idx - VARIADIC_LOCAL_BASE)),
            None => None,
        }
    } else {
        Some(vm.bp + idx)
    }
}

/// The location an address cell designates in `vm`, or why it designates none.
pub open spec fn locate(vm: VM, addr: Cell) -> Result<Loc, TbxError> {
    locate_with(vm, vm.data_stack@.len() as int, addr)
}

/// `locate` for a data stack of length `stack_len` (the rest of the state from `vm`).
pub open spec fn locate_with(vm: VM, stack_len: int, addr: Cell) -> Result<Loc, TbxError> {
    match addr {
        Cell::DictAddr(a) => if a < vm.dictionary@.len() {
            Ok(Loc::Dict(a))
        } else {
            Err(TbxError::IndexOutOfBounds { index: a, size: vm.dictionary@.len() as usize })
        },
        Cell::StackAddr(i) => match local_index(vm, i) {
            Some(k) => if k < stack_len {
                Ok(Loc::Stack(k as usize))
            } else {
                Err(TbxError::IndexOutOfBounds { index: i, size: stack_len as usize })
            },
            None => Err(TbxError::InvalidReturn),
        },
        Cell::ArrayElem(p, i) => if p < vm.arrays@.len() && i < vm.arrays@[p as int]@.len() {
            Ok(Loc::Elem(p, i))
        } else if p < vm.arrays@.len() {
            Err(TbxError::ArrayIndexOutOfBounds { index: i as i64, size: vm.arrays@[p as int]@.len() as usize })
        } else {
            Err(TbxError::IndexOutOfBounds { index: p, size: vm.arrays@.len() as usize })
        },
        _ => Err(TbxError::TypeError { expected: "address", got: "non-address" }),
    }
}

/// The value stored at a location.
pub open spec fn load(vm: VM, l: Loc) -> Cell {
    match l {
        Loc::Dict(a) => vm.dictionary@[a as int],
        Loc::Stack(k) => vm.data_stack@[k as int],
        Loc::Elem(p, i) => vm.arrays@[p as int]@[i as int],
    }
}

/// `b` is `a` with `v` stored at `l` and nothing else changed.
pub open spec fn stored(a: VM, b: VM, l: Loc, v: Cell) -> bool {
    stored_with(a, a.data_stack@, b, l, v)
}

/// `b` is `a`, with data stack `base`, with `v` stored at `l`.
pub open spec fn stored_with(a: VM, base: Seq<Cell>, b: VM, l: Loc, v: Cell) -> bool {
    &&& eq_headers(a, b) && eq_control(a, b) && eq_compile(a, b) && eq_io(a, b)
    &&& a.token_stream == b.token_stream && a.pending_use_path == b.pending_use_path
    &&& a.sys_headers == b.sys_headers && a.lib_headers == b.lib_headers
    &&& b.dp == a.dp
    &&& match l {
        Loc::Dict(x) => b.dictionary@ == a.dictionary@.update(x as int, v) && b.data_stack@
            == base && b.arrays@ == a.arrays@,
        Loc::Stack(k) => b.data_stack@ == base.update(k as int, v) && b.dictionary@
            == a.dictionary@ && b.arrays@ == a.arrays@,
        Loc::Elem(p, i) => b.arrays@.len() == a.arrays@.len() && (forall|j: int|
            0 <= j < a.arrays@.len() && j != p ==> #[trigger] b.arrays@[j] == a.arrays@[j])
            && b.arrays@[p as int]@ == a.arrays@[p as int]@.update(i as int, v) && b.dictionary@
            == a.dictionary@ && b.data_stack@ == base,
    }
}

impl VM {
    /// Absolute data-stack index of local slot `idx` in the current frame.
    pub fn resolve_local_idx(&self, idx: usize) -> (r: Result<usize, TbxError>)
        requires
            self.wf(),
        ensures
            r == (match local_index(*self, idx) {
                Some(k) => if k < self.data_stack@.len() {
                    Ok(k as usize)
                } else {
                    Err(TbxError::IndexOutOfBounds { index: idx, size: self.data_stack@.len() as usize })
                },
                None => Err(TbxError::InvalidReturn),
            }),
    {
        let len = self.data_stack.len();
        let oob = TbxError::IndexOutOfBounds { index: idx, size: len };
        if idx >= VARIADIC_LOCAL_BASE {
            let n = self.return_stack.len();
            if n == 0 {
                return Err(TbxError::InvalidReturn);
            }
            match self.return_stack[n - 1] {
                ReturnFrame::Call { actual_arity, .. } => {
                    if self.bp >= len || actual_arity >= len - self.bp {
                        return Err(oob);
                    }
                    let b = self.bp + actual_arity;
                    if idx - VARIADIC_LOCAL_BASE >= len - b {
                        return Err(oob);
                    }
                    Ok(b + (idx - VARIADIC_LOCAL_BASE))
                },
                ReturnFrame::TopLevel => Err(TbxError::InvalidReturn),
            }
        } else {
            if self.bp >= len || idx >= len - self.bp {
                return Err(oob);
            }
            Ok(self.bp + idx)
        }
    }

    /// The location an address cell designates.
    pub fn locate_addr(&self, addr: &Cell) -> (r: Result<Loc, TbxError>)
        requires
            self.wf(),
        ensures
            r == locate(*self, *addr),
    {
        match addr {
            Cell::DictAddr(a) => {
                if *a < self.dictionary.len() {
                    Ok(Loc::Dict(*a))
                } else {
                    Err(TbxError::IndexOutOfBounds { index: *a, size: self.dictionary.len() })
                }
            },
            Cell::StackAddr(i) => {
                let k = self.resolve_local_idx(*i)?;
                Ok(Loc::Stack(k))
            },
            Cell::ArrayElem(p, i) => {
                if *p < self.arrays.len() && *i < self.arrays[*p].len() {
                    Ok(Loc::Elem(*p, *i))
                } else if *p < self.arrays.len() {
                    Err(TbxError::ArrayIndexOutOfBounds { index: *i as i64, size: self.arrays[*p].len() })
                } else {
                    Err(TbxError::IndexOutOfBounds { index: *p, size: self.arrays.len() })
                }
            },
            _ => Err(TbxError::TypeError { expected: "address", got: "non-address" }),
        }
    }

    /// A copy of the value at a location.
    pub fn load_loc(&self, l: Loc) -> (r: Cell)
        requires
            locate_ok(*self, l),
        ensures
            r == load(*self, l),
    {
        match l {
            Loc::Dict(a) => self.dictionary[a].dup(),
            Loc::Stack(k) => self.data_stack[k].dup(),
            Loc::Elem(p, i) => self.arrays[p][i].dup(),
        }
    }

    /// Store a value at a location.
    pub fn store_loc(&mut self, l: Loc, v: Cell)
        requires
            old(self).wf(),
            locate_ok(*old(self), l),
        ensures
            final(self).wf(),
            stored(*old(self), *final(self), l, v),
    {
        match l {
            Loc::Dict(a) => {
                self.dictionary.set(a, v);
            },
            Loc::Stack(k) => {
                self.data_stack.set(k, v);
            },
            Loc::Elem(p, i) => {
                let mut arr: Vec<Cell> = Vec::new();
                std::mem::swap(&mut arr, &mut self.arrays[p]);
                arr.set(i, v);
                self.arrays.set(p, arr);
            },
        }
    }
}

/// The value at `l` in `vm` with the data stack `base`.
pub open spec fn load_with(vm: VM, base: Seq<Cell>, l: Loc) -> Cell {
    match l {
        Loc::Stack(k) => base[k as int],
        _ => load(vm, l),
    }
}

/// What a read gives back of a write: after `v` is stored through the
/// address `addr` (with the data stack `base` left), `addr` designates the
/// same location and reading it gives `v`; every other location keeps its
/// value.
pub proof fn law_fetch_after_store(a: VM, base: Seq<Cell>, b: VM, addr: Cell, v: Cell, other: Loc)
    requires
        locate_with(a, base.len() as int, addr) is Ok,
        stored_with(a, base, b, locate_with(a, base.len() as int, addr)->Ok_0, v),
    ensures
        locate_with(b, base.len() as int, addr) == locate_with(a, base.len() as int, addr),
        load(b, locate_with(a, base.len() as int, addr)->Ok_0) == v,
        other != locate_with(a, base.len() as int, addr)->Ok_0 && locate_ok_with(a, base, other) ==> load(b, other)
            == load_with(a, base, other),
{
    let l = locate_with(a, base.len() as int, addr)->Ok_0;
    match l {
        Loc::Elem(p, i) => {
            assert(b.arrays@[p as int]@[i as int] == v);
        },
        _ => {},
    }
    match other {
        Loc::Elem(p2, i2) => {
            if let Loc::Elem(p, i) = l {
                if p2 == p && other != l && locate_ok_with(a, base, other) {
                    assert(i2 != i);
                    assert(b.arrays@[p as int]@[i2 as int] == a.arrays@[p as int]@[i2 as int]);
                }
            }
        },
        _ => {},
    }
}

/// `l` exists in `vm` with the data stack `base`.
pub open spec fn locate_ok_with(vm: VM, base: Seq<Cell>, l: Loc) -> bool {
    match l {
        Loc::Stack(k) => k < base.len(),
        _ => locate_ok(vm, l),
    }
}

/// `l` is a location that exists in `vm`.
pub open spec fn locate_ok(vm: VM, l: Loc) -> bool {
    match l {
        Loc::Dict(a) => a < vm.dictionary@.len(),
        Loc::Stack(k) => k < vm.data_stack@.len(),
        Loc::Elem(p, i) => p < vm.arrays@.len() && i < vm.arrays@[p as int]@.len(),
    }
}

} // verus!
