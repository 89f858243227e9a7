//! The TBX virtual machine: dictionary, header table, stacks and the state
//! of an open word definition.
use vstd::prelude::*;
use std::collections::VecDeque;
use rand::rngs::SmallRng;
use crate::cell::{Cell, CompileEntry, ReturnFrame, Xt, variant_name_of};
use crate::constants::{
    MAX_DATA_STACK_DEPTH, MAX_DICTIONARY_CELLS, MAX_RETURN_STACK_DEPTH, VARIADIC_LOCAL_BASE,
};
use crate::dict::{EntryKind, WordEntry, FLAG_HIDDEN, has_flag};
use crate::error::TbxError;
use crate::lexer::{SpannedToken, Token};
use crate::random::rng_from_seed;
use crate::text::{upper_seq, upper_string};

verus! {

/// Largest number of headers the table may hold: a machine limit, one
/// below the largest `usize`, so that a count one past it still fits.
pub const MAX_HEADERS: usize = usize::MAX - 1;

/// State of a word definition between DEF and END.
#[derive(Debug, Clone, PartialEq)]
pub struct CompileState {
    /// Name of the word being defined.
    pub word_name: String,
    /// Dictionary pointer at DEF (restored on rollback).
    pub dp_at_def: usize,
    /// Header table length at DEF: the new word's header index.
    pub hdr_len_at_def: usize,
    /// `latest` at DEF (restored on rollback).
    pub saved_latest: Option<Xt>,
    /// Local names (parameters and VARs) and their slot indices.
    pub local_table: Vec<(String, usize)>,
    /// Number of formal parameters.
    pub arity: usize,
    /// Number of VAR/DIM locals declared so far.
    pub local_count: usize,
    /// Whether the parameter list ends with `...`.
    pub is_variadic: bool,
    /// Labels defined so far and their dictionary addresses.
    pub label_table: Vec<(i64, usize)>,
    /// Forward jumps waiting for a label: (label, address of the placeholder).
    pub patch_list: Vec<(i64, usize)>,
    /// Placeholders for the local count of self-recursive calls.
    pub call_patch_list: Vec<usize>,
    /// Source line of the DEF statement.
    pub start_line: usize,
}

impl CompileState {
    /// The state right after `DEF name(params)`.
    pub fn new_for_def(
        word_name: String,
        dp_at_def: usize,
        hdr_len_at_def: usize,
        saved_latest: Option<Xt>,
        local_table: Vec<(String, usize)>,
        arity: usize,
        is_variadic: bool,
    ) -> (r: Self)
        ensures
            r.word_name == word_name,
            r.dp_at_def == dp_at_def,
            r.hdr_len_at_def == hdr_len_at_def,
            r.saved_latest == saved_latest,
            r.local_table == local_table,
            r.arity == arity,
            r.local_count == 0,
            r.is_variadic == is_variadic,
            r.label_table@.len() == 0,
            r.patch_list@.len() == 0,
            r.call_patch_list@.len() == 0,
            r.start_line == 0,
    {
        CompileState {
            word_name,
            dp_at_def,
            hdr_len_at_def,
            saved_latest,
            local_table,
            arity,
            local_count: 0,
            is_variadic,
            label_table: Vec::new(),
            patch_list: Vec::new(),
            call_patch_list: Vec::new(),
            start_line: 0,
        }
    }

    /// Header index of the word being defined.
    pub fn word_hdr_idx(&self) -> (r: usize)
        ensures
            r == self.hdr_len_at_def,
    {
        self.hdr_len_at_def
    }

    /// What a rollback restores: (dp, header count, latest).
    pub fn rollback_info(&self) -> (r: (usize, usize, Option<Xt>))
        ensures
            r == (self.dp_at_def, self.hdr_len_at_def, self.saved_latest),
    {
        (self.dp_at_def, self.hdr_len_at_def, self.saved_latest)
    }
}

/// One frame of a runtime call stack, innermost first.
#[derive(Debug, Clone, PartialEq)]
pub struct StackTraceFrame {
    pub word_name: String,
    pub actual_arity: usize,
}

/// The slot of the local table that holds `name`, if any.
pub open spec fn local_lookup(table: Seq<(String, usize)>, name: Seq<char>) -> Option<usize>
    decreases table.len(),
{
    if table.len() == 0 {
        None
    } else if table.last().0@ == name {
        Some(table.last().1)
    } else {
        local_lookup(table.drop_last(), name)
    }
}

/// Header `i` can be found under `name` (visible, or the allowed hidden index).
pub open spec fn findable(h: WordEntry, i: int, name: Seq<char>, allow: Option<usize>, hidden_ok: bool) -> bool {
    &&& h.name@ == name
    &&& (hidden_ok || !has_flag(h.flags, FLAG_HIDDEN) || allow == Some(i as usize))
}

/// Name lookup over the first `n` headers: the most recent findable entry.
pub open spec fn lookup_in(
    headers: Seq<WordEntry>,
    n: int,
    name: Seq<char>,
    allow: Option<usize>,
    hidden_ok: bool,
) -> Option<usize>
    decreases n,
{
    if n <= 0 {
        None
    } else if findable(headers[n - 1], n - 1, name, allow, hidden_ok) {
        Some((n - 1) as usize)
    } else {
        lookup_in(headers, n - 1, name, allow, hidden_ok)
    }
}

/// Headers appended after the first `n` do not change a lookup over them.
proof fn lemma_lookup_in_push(headers: Seq<WordEntry>, e: WordEntry, n: int, name: Seq<char>)
    requires
        n <= headers.len(),
    ensures
        lookup_in(headers.push(e), n, name, None, false) == lookup_in(headers, n, name, None, false),
    decreases n,
{
    if n > 0 {
        assert(headers.push(e)[n - 1] == headers[n - 1]);
        lemma_lookup_in_push(headers, e, n - 1, name);
    }
}

/// After a visible word is registered, looking up its name finds the new
/// header (the newest definition shadows older ones), and looking up any
/// other name finds what it found before.
pub proof fn law_register_then_lookup(headers: Seq<WordEntry>, e: WordEntry, other: Seq<char>)
    requires
        !has_flag(e.flags, FLAG_HIDDEN),
        headers.len() < usize::MAX,
    ensures
        lookup_in(headers.push(e), headers.len() + 1int, e.name@, None, false) == Some(headers.len() as usize),
        other != e.name@ ==> lookup_in(headers.push(e), headers.len() + 1int, other, None, false)
            == lookup_in(headers, headers.len() as int, other, None, false),
{
    let h2 = headers.push(e);
    assert(h2[headers.len() as int] == e);
    lemma_lookup_in_push(headers, e, headers.len() as int, other);
}

/// A name lookup over the first `n` headers finds one of them.
pub proof fn lemma_lookup_in_bounds(
    headers: Seq<WordEntry>,
    n: int,
    name: Seq<char>,
    allow: Option<usize>,
    hidden_ok: bool,
)
    requires
        n <= headers.len(),
        n <= usize::MAX,
    ensures
        lookup_in(headers, n, name, allow, hidden_ok) matches Some(i) ==> 0 <= i < n && findable(
            headers[i as int],
            i as int,
            name,
            allow,
            hidden_ok,
        ),
    decreases n,
{
    if n > 0 {
        lemma_lookup_in_bounds(headers, n - 1, name, allow, hidden_ok);
    }
}

/// The internal entry kinds that the compiler locates by kind, not by name.
#[derive(Debug, Clone, Copy, PartialEq, Eq)]
pub enum SysKind {
    Lit,
    Call,
    Exit,
    ReturnVal,
    DropToMarker,
    Goto,
    BranchIfFalse,
    BranchIfTrue,
}

pub open spec fn kind_is(k: EntryKind, s: SysKind) -> bool {
    match s {
        SysKind::Lit => k is Lit,
        SysKind::Call => k is Call,
        SysKind::Exit => k is Exit,
        SysKind::ReturnVal => k is ReturnVal,
        SysKind::DropToMarker => k is DropToMarker,
        SysKind::Goto => k is Goto,
        SysKind::BranchIfFalse => k is BranchIfFalse,
        SysKind::BranchIfTrue => k is BranchIfTrue,
    }
}

/// The most recent header among the first `n` whose kind is `s`.
pub open spec fn find_kind_in(headers: Seq<WordEntry>, n: int, s: SysKind) -> Option<usize>
    decreases n,
{
    if n <= 0 {
        None
    } else if kind_is(headers[n - 1].kind, s) {
        Some((n - 1) as usize)
    } else {
        find_kind_in(headers, n - 1, s)
    }
}

/// The dictionary after writing `c` at `dp`.
pub open spec fn dict_after_write(d: Seq<Cell>, dp: int, c: Cell) -> Seq<Cell> {
    if dp < d.len() {
        d.update(dp, c)
    } else {
        d.push(c)
    }
}

/// What DEF saved for a rollback: the dictionary pointer, the header count
/// and `latest` before the definition (`None` outside a definition).
pub open spec fn def_snapshot(v: VM) -> Option<(usize, usize, Option<Xt>)> {
    match v.compile_state {
        Some(s) => Some((s.dp_at_def, s.hdr_len_at_def, s.saved_latest)),
        None => None,
    }
}

/// Same dictionary contents and pointer.
pub open spec fn eq_dictionary(a: VM, b: VM) -> bool {
    a.dictionary@ == b.dictionary@ && a.dp == b.dp
}

/// Same header table.
pub open spec fn eq_headers(a: VM, b: VM) -> bool {
    a.headers@ == b.headers@ && a.latest == b.latest
}

/// Same return stack, base pointer and program counter.
pub open spec fn eq_control(a: VM, b: VM) -> bool {
    a.return_stack@ == b.return_stack@ && a.bp == b.bp && a.pc == b.pc
}

/// Same compile state.
pub open spec fn eq_compile(a: VM, b: VM) -> bool {
    a.is_compiling == b.is_compiling && a.compile_state == b.compile_state && a.compile_stack@
        == b.compile_stack@
}

/// Same input and output.
pub open spec fn eq_io(a: VM, b: VM) -> bool {
    a.output_buffer@ == b.output_buffer@ && a.input_buffer == b.input_buffer && a.input_text@
        == b.input_text@ && a.input_pos == b.input_pos
}

/// Same token stream, arrays and host requests.
pub open spec fn eq_rest(a: VM, b: VM) -> bool {
    a.token_stream == b.token_stream && a.arrays@ == b.arrays@ && a.pending_use_path
        == b.pending_use_path && a.sys_headers == b.sys_headers && a.lib_headers == b.lib_headers
}

/// The token stream as a sequence.
pub open spec fn stream(v: VM) -> Option<Seq<SpannedToken>> {
    match v.token_stream {
        Some(q) => Some(q@),
        None => None,
    }
}

/// Everything but the token stream is unchanged.
pub open spec fn only_tokens_changed(a: VM, b: VM) -> bool {
    eq_dictionary(a, b) && eq_headers(a, b) && a.data_stack@ == b.data_stack@ && eq_control(a, b)
        && eq_compile(a, b) && eq_io(a, b) && a.arrays@ == b.arrays@ && a.pending_use_path
        == b.pending_use_path && a.sys_headers == b.sys_headers && a.lib_headers == b.lib_headers
}

/// Everything but the output buffer is unchanged.
pub open spec fn only_output_changed(a: VM, b: VM) -> bool {
    eq_dictionary(a, b) && eq_headers(a, b) && a.data_stack@ == b.data_stack@ && eq_control(a, b)
        && eq_compile(a, b) && eq_rest(a, b) && a.input_buffer == b.input_buffer && a.input_text@
        == b.input_text@ && a.input_pos == b.input_pos
}

/// Everything but the data stack is unchanged.
pub open spec fn only_data_changed(a: VM, b: VM) -> bool {
    eq_dictionary(a, b) && eq_headers(a, b) && eq_control(a, b) && eq_compile(a, b) && eq_io(a, b)
        && eq_rest(a, b)
}

/// Only the data stack and the output buffer may differ.
pub open spec fn only_data_output_changed(a: VM, b: VM) -> bool {
    eq_dictionary(a, b) && eq_headers(a, b) && eq_control(a, b) && eq_compile(a, b) && eq_rest(a, b)
        && a.input_buffer == b.input_buffer && a.input_text@ == b.input_text@ && a.input_pos
        == b.input_pos
}

/// Only the data stack and the input position may differ.
pub open spec fn only_data_input_changed(a: VM, b: VM) -> bool {
    eq_dictionary(a, b) && eq_headers(a, b) && eq_control(a, b) && eq_compile(a, b) && eq_rest(a, b)
        && a.input_buffer == b.input_buffer && a.input_text@ == b.input_text@ && a.output_buffer@
        == b.output_buffer@
}

/// Only the data stack and the compile stack may differ.
pub open spec fn only_data_cs_changed(a: VM, b: VM) -> bool {
    eq_dictionary(a, b) && eq_headers(a, b) && eq_control(a, b) && a.is_compiling == b.is_compiling
        && a.compile_state == b.compile_state && eq_io(a, b) && eq_rest(a, b)
}

/// The TBX virtual machine.
pub struct VM {
    /// Flat code/data array.
    pub dictionary: Vec<Cell>,
    /// Dictionary pointer: next cell to write.
    pub dp: usize,
    /// Word header table.
    pub headers: Vec<WordEntry>,
    /// Most recently registered header.
    pub latest: Option<Xt>,
    pub data_stack: Vec<Cell>,
    pub return_stack: Vec<ReturnFrame>,
    /// Base pointer of the current call frame in the data stack.
    pub bp: usize,
    /// Program counter of the inner interpreter.
    pub pc: usize,
    /// Whether a word definition is open.
    pub is_compiling: bool,
    pub compile_state: Option<CompileState>,
    /// Compile-time stack used by control-structure words.
    pub compile_stack: Vec<CompileEntry>,
    /// Tokens that an IMMEDIATE word may consume.
    pub token_stream: Option<VecDeque<SpannedToken>>,
    /// Text written by output primitives, not yet taken.
    pub output_buffer: String,
    /// Reserved line buffer for input primitives (unused by GETDEC/GETSTR).
    pub input_buffer: Option<String>,
    /// Pending input text read by GETDEC/GETSTR, and how much was consumed.
    pub input_text: Vec<char>,
    pub input_pos: usize,
    /// Array pool.
    pub arrays: Vec<Vec<Cell>>,
    /// Path requested by a USE statement, for the host to load.
    pub pending_use_path: Option<String>,
    /// Random number generator used by RND.
    pub rng: SmallRng,
    /// Header count when the system primitives were sealed.
    pub sys_headers: usize,
    /// Header count when the standard words were sealed.
    pub lib_headers: usize,
}

impl VM {
    /// Structural limits that every operation keeps.
    pub open spec fn wf(&self) -> bool {
        &&& self.dp <= self.dictionary@.len()
        &&& self.dictionary@.len() <= MAX_DICTIONARY_CELLS
        &&& self.data_stack@.len() <= MAX_DATA_STACK_DEPTH
        &&& self.return_stack@.len() <= MAX_RETURN_STACK_DEPTH
        &&& self.headers@.len() <= MAX_HEADERS
        &&& self.input_pos <= self.input_text@.len()
        &&& (self.compile_state matches Some(s) ==> s.hdr_len_at_def < self.headers@.len()
            && s.dp_at_def <= self.dp)
    }

    /// An empty VM: no words, empty stacks, empty dictionary.
    pub fn new() -> (r: VM)
        ensures
            r.wf(),
            r.dictionary@.len() == 0,
            r.dp == 0,
            r.headers@.len() == 0,
            r.latest is None,
            r.data_stack@.len() == 0,
            r.return_stack@.len() == 0,
            r.bp == 0,
            r.pc == 0,
            !r.is_compiling,
            r.compile_state is None,
            r.compile_stack@.len() == 0,
            r.token_stream is None,
            r.output_buffer@.len() == 0,
            r.input_buffer is None,
            r.input_text@.len() == 0,
            r.arrays@.len() == 0,
            r.pending_use_path is None,
    {
        VM {
            dictionary: Vec::new(),
            dp: 0,
            headers: Vec::new(),
            latest: None,
            data_stack: Vec::new(),
            return_stack: Vec::new(),
            bp: 0,
            pc: 0,
            is_compiling: false,
            compile_state: None,
            compile_stack: Vec::new(),
            token_stream: None,
            output_buffer: String::new(),
            input_buffer: None,
            input_text: Vec::new(),
            input_pos: 0,
            arrays: Vec::new(),
            pending_use_path: None,
            rng: rng_from_seed(0x5EED),
            sys_headers: 0,
            lib_headers: 0,
        }
    }

    /// Push a value on the data stack.
    pub fn push(&mut self, c: Cell) -> (r: Result<(), TbxError>)
        requires
            old(self).wf(),
        ensures
            final(self).wf(),
            r is Ok <==> old(self).data_stack@.len() < MAX_DATA_STACK_DEPTH,
            r is Ok ==> final(self).data_stack@ == old(self).data_stack@.push(c),
            r matches Err(e) ==> e == (TbxError::DataStackOverflow {
                depth: old(self).data_stack@.len() as usize,
                limit: MAX_DATA_STACK_DEPTH,
            }) && final(self).data_stack@ == old(self).data_stack@,
            only_data_changed(*old(self), *final(self)),
    {
        if self.data_stack.len() >= MAX_DATA_STACK_DEPTH {
            return Err(
                TbxError::DataStackOverflow {
                    depth: self.data_stack.len(),
                    limit: MAX_DATA_STACK_DEPTH,
                },
            );
        }
        self.data_stack.push(c);
        Ok(())
    }

    /// Pop the top value of the data stack.
    pub fn pop(&mut self) -> (r: Result<Cell, TbxError>)
        requires
            old(self).wf(),
        ensures
            final(self).wf(),
            r is Ok <==> old(self).data_stack@.len() > 0,
            r matches Ok(c) ==> c == old(self).data_stack@.last() && final(self).data_stack@
                == old(self).data_stack@.drop_last(),
            r matches Err(e) ==> e == TbxError::StackUnderflow && final(self).data_stack@
                == old(self).data_stack@,
            only_data_changed(*old(self), *final(self)),
    {
        match self.data_stack.pop() {
            Some(c) => Ok(c),
            None => Err(TbxError::StackUnderflow),
        }
    }

    /// Pop an integer; any other value is a type error (and is consumed).
    pub fn pop_int(&mut self) -> (r: Result<i64, TbxError>)
        requires
            old(self).wf(),
        ensures
            final(self).wf(),
            only_data_changed(*old(self), *final(self)),
            old(self).data_stack@.len() == 0 ==> r == Err::<i64, TbxError>(TbxError::StackUnderflow)
                && final(self).data_stack@ == old(self).data_stack@,
            old(self).data_stack@.len() > 0 ==> final(self).data_stack@ == old(self).data_stack@.drop_last()
                && r == (match old(self).data_stack@.last() {
                    Cell::Int(n) => Ok::<i64, TbxError>(n),
                    c => Err(TbxError::TypeError { expected: "Int", got: variant_name_of(c) }),
                }),
    {
        let c = self.pop()?;
        match c {
            Cell::Int(n) => Ok(n),
            other => Err(TbxError::TypeError { expected: "Int", got: other.variant_name() }),
        }
    }

    /// Pop a string value; any other value is a type error (and is consumed).
    pub fn pop_string_value(&mut self) -> (r: Result<String, TbxError>)
        requires
            old(self).wf(),
        ensures
            final(self).wf(),
            only_data_changed(*old(self), *final(self)),
            old(self).data_stack@.len() == 0 ==> r == Err::<String, TbxError>(TbxError::StackUnderflow)
                && final(self).data_stack@ == old(self).data_stack@,
            old(self).data_stack@.len() > 0 ==> final(self).data_stack@ == old(self).data_stack@.drop_last()
                && r == (match old(self).data_stack@.last() {
                    Cell::Str(s) => Ok::<String, TbxError>(s),
                    c => Err(TbxError::TypeError { expected: "Str", got: variant_name_of(c) }),
                }),
    {
        let c = self.pop()?;
        match c {
            Cell::Str(s) => Ok(s),
            other => Err(TbxError::TypeError { expected: "Str", got: other.variant_name() }),
        }
    }

    /// The cell at dictionary address `pos` (below the dictionary pointer).
    pub fn dict_read(&self, pos: usize) -> (r: Result<Cell, TbxError>)
        requires
            self.wf(),
        ensures
            r is Ok <==> pos < self.dp,
            r matches Ok(c) ==> c == self.dictionary@[pos as int],
            r matches Err(e) ==> e == (TbxError::IndexOutOfBounds { index: pos, size: self.dp }),
    {
        if pos >= self.dp {
            return Err(TbxError::IndexOutOfBounds { index: pos, size: self.dp });
        }
        Ok(self.dictionary[pos].dup())
    }

    /// Write `c` at the dictionary pointer and advance it.
    pub fn dict_write(&mut self, c: Cell) -> (r: Result<(), TbxError>)
        requires
            old(self).wf(),
        ensures
            final(self).wf(),
            r is Ok <==> old(self).dp < MAX_DICTIONARY_CELLS,
            r is Ok ==> final(self).dictionary@ == dict_after_write(old(self).dictionary@, old(self).dp as int, c)
                && final(self).dp == old(self).dp + 1,
            r matches Err(e) ==> e == (TbxError::DictionaryOverflow {
                requested: (old(self).dp + 1) as usize,
                limit: MAX_DICTIONARY_CELLS,
            }) && eq_dictionary(*old(self), *final(self)),
            eq_headers(*old(self), *final(self)),
            old(self).data_stack@ == final(self).data_stack@,
            eq_control(*old(self), *final(self)),
            eq_compile(*old(self), *final(self)),
            eq_io(*old(self), *final(self)),
            eq_rest(*old(self), *final(self)),
    {
        if self.dp >= MAX_DICTIONARY_CELLS {
            return Err(TbxError::DictionaryOverflow { requested: self.dp + 1, limit: MAX_DICTIONARY_CELLS });
        }
        if self.dp < self.dictionary.len() {
            self.dictionary.set(self.dp, c);
        } else {
            self.dictionary.push(c);
        }
        self.dp = self.dp + 1;
        Ok(())
    }

    /// Overwrite the dictionary cell at `pos`.
    pub fn dict_write_at(&mut self, pos: usize, c: Cell) -> (r: Result<(), TbxError>)
        requires
            old(self).wf(),
        ensures
            final(self).wf(),
            r is Ok <==> pos < old(self).dictionary@.len(),
            r is Ok ==> final(self).dictionary@ == old(self).dictionary@.update(pos as int, c),
            r matches Err(e) ==> e == (TbxError::IndexOutOfBounds {
                index: pos,
                size: old(self).dictionary@.len() as usize,
            }) && final(self).dictionary@ == old(self).dictionary@,
            final(self).dp == old(self).dp,
            eq_headers(*old(self), *final(self)),
            old(self).data_stack@ == final(self).data_stack@,
            eq_control(*old(self), *final(self)),
            eq_compile(*old(self), *final(self)),
            eq_io(*old(self), *final(self)),
            eq_rest(*old(self), *final(self)),
    {
        if pos >= self.dictionary.len() {
            return Err(TbxError::IndexOutOfBounds { index: pos, size: self.dictionary.len() });
        }
        self.dictionary.set(pos, c);
        Ok(())
    }

    /// Append a header, linking it to the previous one, and return its token.
    pub fn register(&mut self, entry: WordEntry) -> (r: Result<Xt, TbxError>)
        requires
            old(self).wf(),
        ensures
            final(self).wf(),
            r is Ok <==> old(self).headers@.len() < MAX_HEADERS,
            r matches Ok(x) ==> x.0 == old(self).headers@.len()
                && final(self).headers@ == old(self).headers@.push(WordEntry { prev: old(self).latest, ..entry })
                && final(self).latest == Some(x),
            r is Err ==> eq_headers(*old(self), *final(self)) && (r matches Err(
                TbxError::DictionaryOverflow { .. },
            )),
            eq_dictionary(*old(self), *final(self)),
            old(self).data_stack@ == final(self).data_stack@,
            eq_control(*old(self), *final(self)),
            eq_compile(*old(self), *final(self)),
            eq_io(*old(self), *final(self)),
            eq_rest(*old(self), *final(self)),
    {
        if self.headers.len() >= MAX_HEADERS {
            return Err(TbxError::DictionaryOverflow { requested: self.headers.len() + 1, limit: MAX_HEADERS });
        }
        let idx = self.headers.len();
        let mut e = entry;
        e.prev = self.latest;
        self.headers.push(e);
        self.latest = Some(Xt(idx));
        Ok(Xt(idx))
    }

    /// Name lookup over the header table, most recent first.
    fn lookup_general(&self, name: &str, allow: Option<usize>, hidden_ok: bool) -> (r: Option<Xt>)
        ensures
            r == (match lookup_in(self.headers@, self.headers@.len() as int, name@, allow, hidden_ok) {
                Some(i) => Some(Xt(i)),
                None => None::<Xt>,
            }),
    {
        let key = name.to_owned();
        let mut n: usize = self.headers.len();
        while n > 0
            invariant
                n <= self.headers@.len(),
                key@ == name@,
                lookup_in(self.headers@, self.headers@.len() as int, name@, allow, hidden_ok)
                    == lookup_in(self.headers@, n as int, name@, allow, hidden_ok),
            decreases n,
        {
            let i = n - 1;
            let h = &self.headers[i];
            if h.name == key {
                let hidden = h.flags & FLAG_HIDDEN != 0;
                let allowed = match allow {
                    Some(a) => a == i,
                    None => false,
                };
                if hidden_ok || !hidden || allowed {
                    return Some(Xt(i));
                }
            }
            n = i;
        }
        None
    }

    /// Look up a visible word by name (the most recent definition wins).
    pub fn lookup(&self, name: &str) -> (r: Option<Xt>)
        ensures
            r == (match lookup_in(self.headers@, self.headers@.len() as int, name@, None, false) {
                Some(i) => Some(Xt(i)),
                None => None::<Xt>,
            }),
    {
        self.lookup_general(name, None, false)
    }

    /// Look up a word by name, also finding the hidden header `self_idx`
    /// (the word being defined, for self-recursive calls).
    pub fn lookup_including_self(&self, name: &str, self_idx: Option<usize>) -> (r: Option<Xt>)
        ensures
            r == (match lookup_in(self.headers@, self.headers@.len() as int, name@, self_idx, false) {
                Some(i) => Some(Xt(i)),
                None => None::<Xt>,
            }),
    {
        self.lookup_general(name, self_idx, false)
    }

    /// Look up a word by name, hidden entries included.
    pub fn lookup_hidden_system(&self, name: &str) -> (r: Option<Xt>)
        ensures
            r == (match lookup_in(self.headers@, self.headers@.len() as int, name@, None, true) {
                Some(i) => Some(Xt(i)),
                None => None::<Xt>,
            }),
    {
        self.lookup_general(name, None, true)
    }

    /// The most recent header of the given internal kind.
    pub fn find_by_kind(&self, k: SysKind) -> (r: Option<Xt>)
        ensures
            r == (match find_kind_in(self.headers@, self.headers@.len() as int, k) {
                Some(i) => Some(Xt(i)),
                None => None::<Xt>,
            }),
    {
        let mut n: usize = self.headers.len();
        while n > 0
            invariant
                n <= self.headers@.len(),
                find_kind_in(self.headers@, self.headers@.len() as int, k) == find_kind_in(
                    self.headers@,
                    n as int,
                    k,
                ),
            decreases n,
        {
            let i = n - 1;
            let hit = match (&self.headers[i].kind, k) {
                (EntryKind::Lit, SysKind::Lit) => true,
                (EntryKind::Call, SysKind::Call) => true,
                (EntryKind::Exit, SysKind::Exit) => true,
                (EntryKind::ReturnVal, SysKind::ReturnVal) => true,
                (EntryKind::DropToMarker, SysKind::DropToMarker) => true,
                (EntryKind::Goto, SysKind::Goto) => true,
                (EntryKind::BranchIfFalse, SysKind::BranchIfFalse) => true,
                (EntryKind::BranchIfTrue, SysKind::BranchIfTrue) => true,
                _ => false,
            };
            if hit {
                return Some(Xt(i));
            }
            n = i;
        }
        None
    }

    /// Like `find_by_kind`, with a missing entry reported as an undefined symbol.
    pub fn require_kind(&self, k: SysKind, name: &str) -> (r: Result<Xt, TbxError>)
        ensures
            r is Ok <==> find_kind_in(self.headers@, self.headers@.len() as int, k) is Some,
            r matches Ok(x) ==> find_kind_in(self.headers@, self.headers@.len() as int, k) == Some(x.0),
            r matches Err(e) ==> e matches TbxError::UndefinedSymbol { name: n } && n@ == name@,
    {
        match self.find_by_kind(k) {
            Some(x) => Ok(x),
            None => Err(TbxError::UndefinedSymbol { name: name.to_owned() }),
        }
    }

    /// Consume the next token of the token stream.
    pub fn next_token(&mut self) -> (r: Result<SpannedToken, TbxError>)
        requires
            old(self).wf(),
        ensures
            final(self).wf(),
            r is Ok <==> (stream(*old(self)) matches Some(q) && q.len() > 0),
            r matches Ok(t) ==> (stream(*old(self)) matches Some(q) && t == q[0]
                && stream(*final(self)) == Some(q.drop_first())),
            r matches Err(e) ==> e == TbxError::TokenStreamEmpty && stream(*final(self)) == stream(*old(self)),
            only_tokens_changed(*old(self), *final(self)),
    {
        match self.token_stream.as_mut() {
            None => Err(TbxError::TokenStreamEmpty),
            Some(q) => match q.pop_front() {
                Some(t) => Ok(t),
                None => Err(TbxError::TokenStreamEmpty),
            },
        }
    }

    /// Consume the next token, which must be an identifier; returns its
    /// name in ASCII uppercase. Any other token is `InvalidExpression(msg)`.
    pub fn expect_ident(&mut self, msg: &'static str) -> (r: Result<String, TbxError>)
        requires
            old(self).wf(),
        ensures
            final(self).wf(),
            only_tokens_changed(*old(self), *final(self)),
            r is Ok <==> (stream(*old(self)) matches Some(q) && q.len() > 0 && q[0].token is Ident),
            r matches Ok(n) ==> (stream(*old(self)) matches Some(q) && (q[0].token matches Token::Ident(id)
                && n@ == upper_seq(id@)) && stream(*final(self)) == Some(q.drop_first())),
            r matches Err(e) ==> (if stream(*old(self)) matches Some(q) && q.len() > 0 {
                e == TbxError::InvalidExpression { reason: msg }
            } else {
                e == TbxError::TokenStreamEmpty
            }),
    {
        let t = self.next_token()?;
        match t.token {
            Token::Ident(n) => Ok(upper_string(n.as_str())),
            _ => Err(TbxError::InvalidExpression { reason: msg }),
        }
    }

    /// Consume the next token, which must be a string literal.
    pub fn expect_string_lit(&mut self, msg: &'static str) -> (r: Result<String, TbxError>)
        requires
            old(self).wf(),
        ensures
            final(self).wf(),
            only_tokens_changed(*old(self), *final(self)),
            r is Ok <==> (stream(*old(self)) matches Some(q) && q.len() > 0 && q[0].token is StringLit),
            r matches Ok(v) ==> (stream(*old(self)) matches Some(q) && q[0].token == Token::StringLit(v)
                && stream(*final(self)) == Some(q.drop_first())),
            r matches Err(e) ==> (if stream(*old(self)) matches Some(q) && q.len() > 0 {
                e == TbxError::InvalidExpression { reason: msg }
            } else {
                e == TbxError::TokenStreamEmpty
            }),
    {
        let t = self.next_token()?;
        match t.token {
            Token::StringLit(v) => Ok(v),
            _ => Err(TbxError::InvalidExpression { reason: msg }),
        }
    }

    /// Consume the next token, which must be a comma.
    pub fn expect_comma(&mut self, msg: &'static str) -> (r: Result<(), TbxError>)
        requires
            old(self).wf(),
        ensures
            final(self).wf(),
            only_tokens_changed(*old(self), *final(self)),
            r is Ok <==> (stream(*old(self)) matches Some(q) && q.len() > 0 && q[0].token is Comma),
            r is Ok ==> (stream(*old(self)) matches Some(q) && stream(*final(self)) == Some(q.drop_first())),
            r matches Err(e) ==> (if stream(*old(self)) matches Some(q) && q.len() > 0 {
                e == TbxError::InvalidExpression { reason: msg }
            } else {
                e == TbxError::TokenStreamEmpty
            }),
    {
        let t = self.next_token()?;
        match t.token {
            Token::Comma => Ok(()),
            _ => Err(TbxError::InvalidExpression { reason: msg }),
        }
    }

    /// Consume the next token, which must be `&`.
    pub fn expect_ampersand(&mut self, msg: &'static str) -> (r: Result<(), TbxError>)
        requires
            old(self).wf(),
        ensures
            final(self).wf(),
            only_tokens_changed(*old(self), *final(self)),
            r is Ok <==> (stream(*old(self)) matches Some(q) && q.len() > 0 && q[0].token is Ampersand),
            r is Ok ==> (stream(*old(self)) matches Some(q) && stream(*final(self)) == Some(q.drop_first())),
            r matches Err(e) ==> (if stream(*old(self)) matches Some(q) && q.len() > 0 {
                e == TbxError::InvalidExpression { reason: msg }
            } else {
                e == TbxError::TokenStreamEmpty
            }),
    {
        let t = self.next_token()?;
        match t.token {
            Token::Ampersand => Ok(()),
            _ => Err(TbxError::InvalidExpression { reason: msg }),
        }
    }

    /// Consume the next token, which must be the operator `op`.
    pub fn expect_op(&mut self, op: &str, msg: &'static str) -> (r: Result<(), TbxError>)
        requires
            old(self).wf(),
        ensures
            final(self).wf(),
            only_tokens_changed(*old(self), *final(self)),
            r is Ok <==> (stream(*old(self)) matches Some(q) && q.len() > 0 && (q[0].token matches Token::Op(o)
                && o@ == op@)),
            r is Ok ==> (stream(*old(self)) matches Some(q) && stream(*final(self)) == Some(q.drop_first())),
            r matches Err(e) ==> (if stream(*old(self)) matches Some(q) && q.len() > 0 {
                e == TbxError::InvalidExpression { reason: msg }
            } else {
                e == TbxError::TokenStreamEmpty
            }),
    {
        let t = self.next_token()?;
        let want = op.to_owned();
        match t.token {
            Token::Op(o) => {
                if o == want {
                    Ok(())
                } else {
                    Err(TbxError::InvalidExpression { reason: msg })
                }
            },
            _ => Err(TbxError::InvalidExpression { reason: msg }),
        }
    }

    /// Put a token back at the front of the token stream (if one is set).
    pub fn push_front_token(&mut self, t: SpannedToken)
        requires
            old(self).wf(),
        ensures
            final(self).wf(),
            only_tokens_changed(*old(self), *final(self)),
            stream(*final(self)) == (match stream(*old(self)) {
                Some(q) => Some(seq![t] + q),
                None => None::<Seq<SpannedToken>>,
            }),
    {
        if let Some(q) = self.token_stream.as_mut() {
            q.push_front(t);
        }
    }

    /// Take all remaining tokens of the token stream.
    pub fn drain_tokens(&mut self) -> (r: Result<Vec<SpannedToken>, TbxError>)
        requires
            old(self).wf(),
        ensures
            final(self).wf(),
            only_tokens_changed(*old(self), *final(self)),
            r is Ok <==> stream(*old(self)) is Some,
            r matches Ok(v) ==> stream(*old(self)) == Some(v@) && stream(*final(self)) == Some(
                Seq::<SpannedToken>::empty(),
            ),
            r matches Err(e) ==> e == TbxError::TokenStreamEmpty && stream(*final(self)) == stream(
                *old(self),
            ),
    {
        match self.token_stream.as_mut() {
            None => Err(TbxError::TokenStreamEmpty),
            Some(q) => {
                let mut v: Vec<SpannedToken> = Vec::new();
                let ghost q0 = q@;
                while q.len() > 0
                    invariant
                        v@ + q@ == q0,
                    decreases q@.len(),
                {
                    let t = q.pop_front().unwrap();
                    v.push(t);
                    assert(v@ + q@ =~= q0);
                }
                assert(v@ =~= q0);
                Ok(v)
            },
        }
    }

    /// Append text to the output buffer.
    pub fn write_output(&mut self, text: &str)
        requires
            old(self).wf(),
        ensures
            final(self).wf(),
            only_output_changed(*old(self), *final(self)),
            final(self).output_buffer@ == old(self).output_buffer@ + text@,
    {
        self.output_buffer.append(text);
    }

    /// Append characters to the output buffer.
    pub fn write_output_chars(&mut self, text: &Vec<char>)
        requires
            old(self).wf(),
        ensures
            final(self).wf(),
            only_output_changed(*old(self), *final(self)),
            final(self).output_buffer@ == old(self).output_buffer@ + text@,
    {
        let s = crate::text::chars_to_string(text);
        self.output_buffer.append(s.as_str());
    }

    /// Replace the pending input text (what GETDEC/GETSTR read) by `text`.
    pub fn set_input(&mut self, text: &str)
        requires
            old(self).wf(),
        ensures
            final(self).wf(),
            final(self).input_text@ == text@,
            final(self).input_pos == 0,
            eq_dictionary(*old(self), *final(self)),
            eq_headers(*old(self), *final(self)),
            old(self).data_stack@ == final(self).data_stack@,
            eq_control(*old(self), *final(self)),
            eq_compile(*old(self), *final(self)),
            eq_rest(*old(self), *final(self)),
            old(self).output_buffer@ == final(self).output_buffer@,
            old(self).input_buffer == final(self).input_buffer,
    {
        self.input_text = crate::text::str_to_chars(text);
        self.input_pos = 0;
    }

    /// Take the output buffer, leaving it empty.
    pub fn take_output(&mut self) -> (r: String)
        requires
            old(self).wf(),
        ensures
            final(self).wf(),
            only_output_changed(*old(self), *final(self)),
            r@ == old(self).output_buffer@,
            final(self).output_buffer@.len() == 0,
    {
        let mut out = String::new();
        std::mem::swap(&mut out, &mut self.output_buffer);
        out
    }

    /// Discard the open word definition: restore the dictionary pointer,
    /// header table and `latest` saved at DEF, and clear compile mode.
    pub fn rollback_def(&mut self)
        requires
            old(self).wf(),
        ensures
            final(self).wf(),
            final(self).compile_state is None,
            !final(self).is_compiling,
            final(self).compile_stack@.len() == 0,
            old(self).compile_state matches Some(s) ==> final(self).dp == s.dp_at_def
                && final(self).dictionary@ == old(self).dictionary@.take(s.dp_at_def as int)
                && final(self).headers@ == old(self).headers@.take(s.hdr_len_at_def as int)
                && final(self).latest == s.saved_latest,
            old(self).compile_state is None ==> eq_dictionary(*old(self), *final(self))
                && eq_headers(*old(self), *final(self)),
            old(self).data_stack@ == final(self).data_stack@,
            eq_control(*old(self), *final(self)),
            eq_io(*old(self), *final(self)),
            eq_rest(*old(self), *final(self)),
    {
        if let Some(s) = self.compile_state.take() {
            self.dp = s.dp_at_def;
            self.dictionary.truncate(s.dp_at_def);
            self.headers.truncate(s.hdr_len_at_def);
            self.latest = s.saved_latest;
        }
        self.is_compiling = false;
        self.compile_stack.clear();
    }

    /// The runtime call stack, innermost frame first; the bottom of each
    /// run is reported as `<top-level>`.
    pub fn stack_trace_frames(&self) -> (r: Vec<StackTraceFrame>)
        ensures
            r@.len() == self.return_stack@.len(),
            forall|i: int| 0 <= i < r@.len() ==> (match #[trigger] self.return_stack@[self.return_stack@.len() - 1 - i] {
                ReturnFrame::TopLevel => r@[i].word_name@ == "<top-level>"@ && r@[i].actual_arity == 0,
                ReturnFrame::Call { actual_arity, word, .. } => r@[i].actual_arity == actual_arity
                    && (word.0 < self.headers@.len() ==> r@[i].word_name@ == self.headers@[word.0 as int].name@),
            }),
    {
        let mut out: Vec<StackTraceFrame> = Vec::new();
        let mut n: usize = self.return_stack.len();
        while n > 0
            invariant
                n <= self.return_stack@.len(),
                out@.len() == self.return_stack@.len() - n,
                forall|i: int| 0 <= i < out@.len() ==> (match #[trigger] self.return_stack@[self.return_stack@.len() - 1 - i] {
                    ReturnFrame::TopLevel => out@[i].word_name@ == "<top-level>"@ && out@[i].actual_arity == 0,
                    ReturnFrame::Call { actual_arity, word, .. } => out@[i].actual_arity == actual_arity
                        && (word.0 < self.headers@.len() ==> out@[i].word_name@ == self.headers@[word.0 as int].name@),
                }),
            decreases n,
        {
            let f = self.return_stack[n - 1];
            let frame = match f {
                ReturnFrame::TopLevel => StackTraceFrame { word_name: "<top-level>".to_owned(), actual_arity: 0 },
                ReturnFrame::Call { actual_arity, word, .. } => {
                    let name = if word.0 < self.headers.len() {
                        self.headers[word.0].name.clone()
                    } else {
                        "<unknown>".to_owned()
                    };
                    StackTraceFrame { word_name: name, actual_arity }
                },
            };
            out.push(frame);
            n = n - 1;
        }
        out
    }

    /// Record the end of the system primitives in the header table.
    pub fn seal_sys(&mut self)
        ensures
            *final(self) == (VM { sys_headers: old(self).headers@.len() as usize, ..*old(self) }),
    {
        self.sys_headers = self.headers.len();
    }

    /// Record the end of the standard words in the header table.
    pub fn seal_lib(&mut self)
        ensures
            *final(self) == (VM { lib_headers: old(self).headers@.len() as usize, ..*old(self) }),
    {
        self.lib_headers = self.headers.len();
    }
}

} // verus!
