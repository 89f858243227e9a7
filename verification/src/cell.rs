//! Values of the TBX virtual machine.
use vstd::prelude::*;

verus! {

/// Execution token: an index into the word header table.
#[derive(Debug, Clone, Copy, PartialEq, Eq)]
pub struct Xt(pub usize);

impl Xt {
    /// Returns the raw index into the header table.
    pub fn index(self) -> (r: usize)
        ensures
            r == self.0,
    {
        self.0
    }
}

/// Cell is the fundamental value type of the TBX VM: everything that can
/// live on a stack or in the dictionary.
#[derive(Debug, Clone, PartialEq)]
pub enum Cell {
    /// Signed 64-bit integer.
    Int(i64),
    /// Address into the dictionary (global variables, heap cells, jump targets).
    DictAddr(usize),
    /// Address of a local slot, relative to the frame base pointer.
    StackAddr(usize),
    /// Execution token.
    Xt(Xt),
    /// Boolean value produced by comparisons and logic.
    Bool(bool),
    /// String value.
    Str(String),
    /// Handle of an array in the array pool.
    Array(usize),
    /// Address of one element of an array: (pool index, element index).
    ArrayElem(usize, usize),
    /// The empty value (fresh dictionary cells and variables).
    Nil,
    /// Sentinel that marks a statement boundary on the data stack.
    Marker,
}

/// Spec-level truthiness of a cell.
pub open spec fn truthy(c: Cell) -> bool {
    match c {
        Cell::Bool(b) => b,
        Cell::Int(n) => n != 0,
        _ => false,
    }
}

/// Name of the variant of a cell.
pub open spec fn variant_name_of(c: Cell) -> &'static str {
    match c {
        Cell::Int(_) => "Int",
        Cell::DictAddr(_) => "DictAddr",
        Cell::StackAddr(_) => "StackAddr",
        Cell::Xt(_) => "Xt",
        Cell::Bool(_) => "Bool",
        Cell::Str(_) => "Str",
        Cell::Array(_) => "Array",
        Cell::ArrayElem(_, _) => "ArrayElem",
        Cell::Nil => "Nil",
        Cell::Marker => "Marker",
    }
}

impl Cell {
    /// A string cell holding `s`.
    pub fn string(s: String) -> (r: Cell)
        ensures
            r == Cell::Str(s),
    {
        Cell::Str(s)
    }

    /// An exact copy of this cell.
    pub fn dup(&self) -> (r: Cell)
        ensures
            r == *self,
    {
        match self {
            Cell::Int(n) => Cell::Int(*n),
            Cell::DictAddr(a) => Cell::DictAddr(*a),
            Cell::StackAddr(a) => Cell::StackAddr(*a),
            Cell::Xt(x) => Cell::Xt(*x),
            Cell::Bool(b) => Cell::Bool(*b),
            Cell::Str(s) => Cell::Str(s.clone()),
            Cell::Array(i) => Cell::Array(*i),
            Cell::ArrayElem(p, i) => Cell::ArrayElem(*p, *i),
            Cell::Nil => Cell::Nil,
            Cell::Marker => Cell::Marker,
        }
    }

    /// Returns the integer if this cell is `Int`.
    pub fn as_int(&self) -> (r: Option<i64>)
        ensures
            r == (match *self {
                Cell::Int(n) => Some(n),
                _ => None::<i64>,
            }),
    {
        if let Cell::Int(n) = self {
            Some(*n)
        } else {
            None
        }
    }

    /// Returns the boolean if this cell is `Bool`.
    pub fn as_bool(&self) -> (r: Option<bool>)
        ensures
            r == (match *self {
                Cell::Bool(b) => Some(b),
                _ => None::<bool>,
            }),
    {
        if let Cell::Bool(b) = self {
            Some(*b)
        } else {
            None
        }
    }

    /// Returns the address if this cell is `DictAddr`.
    pub fn as_dict_addr(&self) -> (r: Option<usize>)
        ensures
            r == (match *self {
                Cell::DictAddr(a) => Some(a),
                _ => None::<usize>,
            }),
    {
        if let Cell::DictAddr(a) = self {
            Some(*a)
        } else {
            None
        }
    }

    /// Returns the offset if this cell is `StackAddr`.
    pub fn as_stack_addr(&self) -> (r: Option<usize>)
        ensures
            r == (match *self {
                Cell::StackAddr(a) => Some(a),
                _ => None::<usize>,
            }),
    {
        if let Cell::StackAddr(a) = self {
            Some(*a)
        } else {
            None
        }
    }

    /// Returns the execution token if this cell is `Xt`.
    pub fn as_xt(&self) -> (r: Option<Xt>)
        ensures
            r == (match *self {
                Cell::Xt(x) => Some(x),
                _ => None::<Xt>,
            }),
    {
        if let Cell::Xt(x) = self {
            Some(*x)
        } else {
            None
        }
    }

    /// Returns the string if this cell is `Str`.
    pub fn as_str(&self) -> (r: Option<&String>)
        ensures
            r == (match *self {
                Cell::Str(s) => Some(&s),
                _ => None::<&String>,
            }),
    {
        if let Cell::Str(s) = self {
            Some(s)
        } else {
            None
        }
    }

    /// Name of the variant, used in error messages.
    pub fn variant_name(&self) -> (r: &'static str)
        ensures
            r == variant_name_of(*self),
    {
        match self {
            Cell::Int(_) => "Int",
            Cell::DictAddr(_) => "DictAddr",
            Cell::StackAddr(_) => "StackAddr",
            Cell::Xt(_) => "Xt",
            Cell::Bool(_) => "Bool",
            Cell::Str(_) => "Str",
            Cell::Array(_) => "Array",
            Cell::ArrayElem(_, _) => "ArrayElem",
            Cell::Nil => "Nil",
            Cell::Marker => "Marker",
        }
    }

    /// Evaluates the cell as a condition: `Bool(b)` is `b`, `Int(n)` is
    /// `n != 0`, every other variant is false.
    pub fn is_truthy(&self) -> (r: bool)
        ensures
            r == truthy(*self),
    {
        match self {
            Cell::Bool(b) => *b,
            Cell::Int(n) => *n != 0,
            _ => false,
        }
    }

    /// Whether this cell is the statement marker.
    pub fn is_marker(&self) -> (r: bool)
        ensures
            r == (*self is Marker),
    {
        matches!(self, Cell::Marker)
    }
}

/// An entry on the compile-time stack.
#[derive(Debug, Clone, PartialEq)]
pub enum CompileEntry {
    /// A regular runtime cell stored on the compile stack.
    Cell(Cell),
    /// A string tag that marks an open control-structure scope.
    Tag(String),
}

impl CompileEntry {
    /// An exact copy of this entry.
    pub fn dup(&self) -> (r: CompileEntry)
        ensures
            r == *self,
    {
        match self {
            CompileEntry::Cell(c) => CompileEntry::Cell(c.dup()),
            CompileEntry::Tag(s) => CompileEntry::Tag(s.clone()),
        }
    }
}

/// Return frame for the return stack.
#[derive(Debug, Clone, Copy, PartialEq)]
pub enum ReturnFrame {
    /// A word call: where to resume, the caller's base pointer, the number of
    /// arguments passed and the word that was called.
    Call { return_pc: usize, saved_bp: usize, actual_arity: usize, word: Xt },
    /// Sentinel at the bottom of one run of the inner interpreter.
    TopLevel,
}

} // verus!
