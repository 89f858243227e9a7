//! Word headers: how a dictionary entry is executed or accessed.
use vstd::prelude::*;
use crate::cell::{Cell, Xt};
use crate::error::TbxError;

verus! {

/// The native primitives of the VM. A header of kind
/// `EntryKind::Primitive(p)` executes the primitive `p`.
#[derive(Debug, Clone, Copy, PartialEq, Eq)]
pub enum Prim {
    Drop,
    Dup,
    Swap,
    Fetch,
    Store,
    SetValue,
    Add,
    Sub,
    Mul,
    Div,
    Mod,
    Negate,
    IntConv,
    Eq,
    Neq,
    Lt,
    Gt,
    Le,
    Ge,
    And,
    Or,
    Not,
    Band,
    Bor,
    PutStr,
    GetOutput,
    Str,
    StrConcat,
    StrLen,
    StrEq,
    StrUpper,
    StrLower,
    StrTrim,
    PutChr,
    PutDec,
    PutHex,
    PutVal,
    GetDec,
    GetStr,
    Append,
    Allot,
    Here,
    State,
    Halt,
    AssertFail,
    AssertFailMsg,
    LitMarker,
    Literal,
    Header,
    Immediate,
    Def,
    End,
    Var,
    Dim,
    GotoCompile,
    BifCompile,
    BitCompile,
    ReturnCompile,
    CsPush,
    CsPop,
    CsSwap,
    CsDrop,
    CsDup,
    CsOver,
    CsRot,
    PatchAddr,
    CompileExpr,
    CsOpenTag,
    CsCloseTag,
    Use,
    CompileLvalue,
    SkipEq,
    Lookup,
    SkipComma,
    CompileLvalueSave,
    Array,
    ArrayStoreLocal,
    ArrayLen,
    ArrayGet,
    ArrayAddr,
    VaCount,
    ArgAddr,
    Rnd,
    Randomize,
    Hour,
    Minute,
    If,
    Elsif,
    Else,
    Endif,
    While,
    Endwh,
    Select,
    Case,
    CaseElse,
    Endsel,
    Let,
}

/// How a dictionary entry is executed or accessed.
#[derive(Debug, Clone, PartialEq)]
pub enum EntryKind {
    /// Compiled TBX word: start offset of its body in the dictionary.
    Word(usize),
    /// Native primitive.
    Primitive(Prim),
    /// Global variable: index of its storage cell in the dictionary.
    Variable(usize),
    /// Constant: the value is stored in the entry.
    Constant(Cell),
    /// Push the next cell of the code stream.
    Lit,
    /// Call a word: `CALL xt arity local_count`.
    Call,
    /// Return from the current word (or end the current run).
    Exit,
    /// Return from the current word with the value on top of the stack.
    ReturnVal,
    /// Drop stack values down to and including the nearest marker.
    DropToMarker,
    /// Unconditional jump to the address in the next cell.
    Goto,
    /// Jump when the popped condition is false.
    BranchIfFalse,
    /// Jump when the popped condition is true.
    BranchIfTrue,
}

/// Flag bit: word executes immediately even in compile mode.
pub const FLAG_IMMEDIATE: u8 = 0b0000_0001;
/// Flag bit: word is invisible to name lookup.
pub const FLAG_HIDDEN: u8 = 0b0000_0010;
/// Flag bit: word is internal to the system and cannot be used as a statement.
pub const FLAG_SYSTEM: u8 = 0b0000_0100;

/// A single entry in the word header table.
#[derive(Debug, Clone, PartialEq)]
pub struct WordEntry {
    /// The name of the word as it appears in source code.
    pub name: String,
    /// Attribute flags (`FLAG_IMMEDIATE`, `FLAG_HIDDEN`, `FLAG_SYSTEM`).
    pub flags: u8,
    /// How this entry is executed or accessed.
    pub kind: EntryKind,
    /// Number of formal parameters (compiled words).
    pub arity: usize,
    /// Number of local slots (parameters excluded) of a compiled word.
    pub local_count: usize,
    /// Whether the word accepts extra arguments beyond `arity`.
    pub is_variadic: bool,
    /// Previous entry in the header table; maintained by `VM::register`.
    pub prev: Option<Xt>,
}

/// `flags` has the bit `bit` set.
pub open spec fn has_flag(flags: u8, bit: u8) -> bool {
    flags & bit != 0
}

impl EntryKind {
    /// An exact copy of this kind.
    pub fn dup(&self) -> (r: EntryKind)
        ensures
            r == *self,
    {
        match self {
            EntryKind::Word(a) => EntryKind::Word(*a),
            EntryKind::Primitive(p) => EntryKind::Primitive(*p),
            EntryKind::Variable(a) => EntryKind::Variable(*a),
            EntryKind::Constant(c) => EntryKind::Constant(c.dup()),
            EntryKind::Lit => EntryKind::Lit,
            EntryKind::Call => EntryKind::Call,
            EntryKind::Exit => EntryKind::Exit,
            EntryKind::ReturnVal => EntryKind::ReturnVal,
            EntryKind::DropToMarker => EntryKind::DropToMarker,
            EntryKind::Goto => EntryKind::Goto,
            EntryKind::BranchIfFalse => EntryKind::BranchIfFalse,
            EntryKind::BranchIfTrue => EntryKind::BranchIfTrue,
        }
    }
}

impl WordEntry {
    /// An exact copy of this entry.
    pub fn dup(&self) -> (r: WordEntry)
        ensures
            r == *self,
    {
        WordEntry {
            name: self.name.clone(),
            flags: self.flags,
            kind: self.kind.dup(),
            arity: self.arity,
            local_count: self.local_count,
            is_variadic: self.is_variadic,
            prev: self.prev,
        }
    }

    /// A primitive word entry.
    pub fn new_primitive(name: &str, p: Prim) -> (r: Self)
        ensures
            r.name@ == name@,
            r.flags == 0,
            r.kind == EntryKind::Primitive(p),
            r.arity == 0,
            r.local_count == 0,
            !r.is_variadic,
            r.prev is None,
    {
        WordEntry {
            name: name.to_owned(),
            flags: 0,
            kind: EntryKind::Primitive(p),
            arity: 0,
            local_count: 0,
            is_variadic: false,
            prev: None,
        }
    }

    /// A compiled word entry whose body starts at `offset`.
    pub fn new_word(name: &str, offset: usize) -> (r: Self)
        ensures
            r.name@ == name@,
            r.flags == 0,
            r.kind == EntryKind::Word(offset),
            r.arity == 0,
            r.local_count == 0,
            !r.is_variadic,
            r.prev is None,
    {
        WordEntry {
            name: name.to_owned(),
            flags: 0,
            kind: EntryKind::Word(offset),
            arity: 0,
            local_count: 0,
            is_variadic: false,
            prev: None,
        }
    }

    /// A global variable entry whose storage cell is at `idx`.
    pub fn new_variable(name: &str, idx: usize) -> (r: Self)
        ensures
            r.name@ == name@,
            r.flags == 0,
            r.kind == EntryKind::Variable(idx),
            r.arity == 0,
            r.local_count == 0,
            !r.is_variadic,
            r.prev is None,
    {
        WordEntry {
            name: name.to_owned(),
            flags: 0,
            kind: EntryKind::Variable(idx),
            arity: 0,
            local_count: 0,
            is_variadic: false,
            prev: None,
        }
    }

    /// A constant entry holding `value`.
    pub fn new_constant(name: &str, value: Cell) -> (r: Self)
        ensures
            r.name@ == name@,
            r.flags == 0,
            r.kind == EntryKind::Constant(value),
            r.arity == 0,
            r.local_count == 0,
            !r.is_variadic,
            r.prev is None,
    {
        WordEntry {
            name: name.to_owned(),
            flags: 0,
            kind: EntryKind::Constant(value),
            arity: 0,
            local_count: 0,
            is_variadic: false,
            prev: None,
        }
    }

    /// An internal entry of the given kind and flags.
    pub fn new_system(name: &str, kind: EntryKind, flags: u8) -> (r: Self)
        ensures
            r.name@ == name@,
            r.flags == flags,
            r.kind == kind,
            r.arity == 0,
            r.local_count == 0,
            !r.is_variadic,
            r.prev is None,
    {
        WordEntry {
            name: name.to_owned(),
            flags: flags,
            kind: kind,
            arity: 0,
            local_count: 0,
            is_variadic: false,
            prev: None,
        }
    }

    /// Returns true if the IMMEDIATE flag is set.
    pub fn is_immediate(&self) -> (r: bool)
        ensures
            r == has_flag(self.flags, FLAG_IMMEDIATE),
    {
        self.flags & FLAG_IMMEDIATE != 0
    }

    /// Check that a call with `arity` arguments suits this word: a variadic
    /// word needs at least its fixed parameters; any other count is accepted.
    pub fn check_variadic_arity(&self, arity: usize) -> (r: Result<(), TbxError>)
        ensures
            r is Ok <==> (!self.is_variadic || arity >= self.arity),
            r matches Err(e) ==> e == (TbxError::InvalidOperand {
                name: "arity",
                value: arity as i64,
                reason: "fewer arguments than the variadic word's fixed parameters",
            }),
    {
        if !self.is_variadic || arity >= self.arity {
            Ok(())
        } else {
            Err(
                TbxError::InvalidOperand {
                    name: "arity",
                    value: arity as i64,
                    reason: "fewer arguments than the variadic word's fixed parameters",
                },
            )
        }
    }
}

} // verus!
