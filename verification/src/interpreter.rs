//! The outer interpreter: reads statements from source text, compiles them
//! and runs them on the VM.
use vstd::prelude::*;
use std::collections::VecDeque;
use std::path::PathBuf;
use crate::cell::{Cell, ReturnFrame, Xt};
use crate::dict::{EntryKind, FLAG_IMMEDIATE, FLAG_SYSTEM};
use crate::error::{TbxError, error_text, push_str, push_usize};
use crate::lexer::{SpannedToken, Token, Position, MAX_SOURCE_CHARS};
use crate::reader::{LogicalStatement, StatementReader};
use crate::text::{int_decimal, chars_to_string, str_to_chars, upper_string, upper_seq};
use crate::words::{registered, standard_words, system_words, SYSTEM_WORD_COUNT, STANDARD_WORD_COUNT};
use crate::vm::{VM, StackTraceFrame, CompileState, stream};
use crate::primitives::compile::{emitted, word_xt};
use crate::dict::has_flag;

verus! {

/// Largest nesting of USE statements.
pub const MAX_USE_DEPTH: usize = 64;

/// Nesting budget of the inner interpreter for DIM size expressions.
pub const RUN_DEPTH: u32 = 64;

#[verifier::external_type_specification]
#[verifier::external_body]
pub struct ExPathBuf(PathBuf);

/// Calls `Path::is_relative` on the path spelled by `s`. Nothing is
/// stated of the result: which paths are relative depends on the platform.
#[verifier::external_body]
fn path_is_relative(s: &str) -> bool {
    std::path::Path::new(s).is_relative()
}

/// Calls `Path::is_absolute` on a path. Nothing is stated of the result:
/// which paths are absolute depends on the platform.
#[verifier::external_body]
fn path_is_absolute(p: &PathBuf) -> bool {
    p.is_absolute()
}

/// Calls `Path::display` and `ToString::to_string`: the text of a path.
/// Nothing is stated of the text.
#[verifier::external_body]
fn path_display(p: &PathBuf) -> String {
    p.display().to_string()
}

/// Calls `PathBuf::from` on a path text. Nothing is stated of the path.
#[verifier::external_body]
fn path_from(s: &str) -> PathBuf {
    PathBuf::from(s)
}

/// Calls `Path::join`: `rel` resolved against `base`. Nothing is stated of
/// the path.
#[verifier::external_body]
fn path_join(base: &PathBuf, rel: &str) -> PathBuf {
    base.join(rel)
}

/// Calls `Path::parent`: the directory part of a path, if any. Nothing is
/// stated of the result.
#[verifier::external_body]
fn path_parent(p: &PathBuf) -> Option<PathBuf> {
    p.parent().map(|d| d.to_path_buf())
}

/// An error of the outer interpreter, with its source location and the
/// runtime call stack (innermost first) when it happened while running.
#[derive(Debug, Clone, PartialEq)]
pub struct InterpreterError {
    pub line: usize,
    pub col: usize,
    pub source_excerpt: String,
    pub kind: TbxError,
    pub call_stack: Vec<StackTraceFrame>,
}

/// The text of an interpreter error: `line L:C: <kind>`.
pub open spec fn interpreter_error_text(e: InterpreterError) -> Seq<char> {
    "line "@ + int_decimal(e.line as int) + ":"@ + int_decimal(e.col as int) + ": "@ + error_text(e.kind)
}

impl InterpreterError {
    /// An error at `line`:`col` with no call stack.
    pub fn new(line: usize, col: usize, source_excerpt: &str, kind: TbxError) -> (r: Self)
        ensures
            r.line == line,
            r.col == col,
            r.source_excerpt@ == source_excerpt@,
            r.kind == kind,
            r.call_stack@.len() == 0,
    {
        InterpreterError { line, col, source_excerpt: source_excerpt.to_owned(), kind, call_stack: Vec::new() }
    }

    /// An error at `line`:`col` with a captured call stack.
    pub fn with_call_stack(
        line: usize,
        col: usize,
        source_excerpt: &str,
        kind: TbxError,
        call_stack: Vec<StackTraceFrame>,
    ) -> (r: Self)
        ensures
            r.line == line,
            r.col == col,
            r.source_excerpt@ == source_excerpt@,
            r.kind == kind,
            r.call_stack == call_stack,
    {
        InterpreterError { line, col, source_excerpt: source_excerpt.to_owned(), kind, call_stack }
    }

    /// The text of the error: `line L:C: <kind>`.
    pub fn message(&self) -> (r: String)
        ensures
            r@ == interpreter_error_text(*self),
    {
        let mut v: Vec<char> = Vec::new();
        push_str(&mut v, "line ");
        push_usize(&mut v, self.line);
        push_str(&mut v, ":");
        push_usize(&mut v, self.col);
        push_str(&mut v, ": ");
        let k = self.kind.message();
        push_str(&mut v, k.as_str());
        proof {
            reveal_strlit("line ");
            reveal_strlit(":");
            reveal_strlit(": ");
        }
        assert(v@ =~= interpreter_error_text(*self));
        chars_to_string(&v)
    }
}

/// The TBX outer interpreter.
pub struct Interpreter {
    vm: VM,
    /// Current nesting of USE.
    use_depth: usize,
    /// Largest allowed nesting of USE.
    max_use_depth: usize,
    /// Paths of the files being loaded by USE, outermost first.
    loading_files: Vec<String>,
    /// Directory against which relative USE paths at the top level are resolved.
    pub base_dir: Option<PathBuf>,
    /// Directory of the file being loaded by USE, for nested relative paths.
    current_dir: Option<PathBuf>,
    /// Source files the host made available to USE: (path text, contents).
    files: Vec<(String, String)>,
}

impl Interpreter {
    pub closed spec fn wf(&self) -> bool {
        self.vm.wf()
    }

    /// The VM under the interpreter.
    pub closed spec fn vm_state(&self) -> VM {
        self.vm
    }

    /// The base directory for relative USE paths.
    pub closed spec fn base_dir_state(&self) -> Option<PathBuf> {
        self.base_dir
    }

    /// What the host configured and the USE nesting state: the nesting
    /// limit and depth, the files being loaded, the directory of the file
    /// being loaded, the base directory and the source files.
    pub closed spec fn use_state(&self) -> (usize, usize, Seq<String>, Option<PathBuf>, Option<PathBuf>, Seq<(String, String)>) {
        (self.max_use_depth, self.use_depth, self.loading_files@, self.current_dir, self.base_dir, self.files@)
    }

    /// A fresh interpreter: the system words, then the standard control
    /// words, an empty dictionary, empty stacks and output, not compiling,
    /// and no base directory.
    pub open spec fn is_fresh(&self) -> bool {
        let v = self.vm_state();
        &&& self.wf()
        &&& v.headers@.len() == SYSTEM_WORD_COUNT + STANDARD_WORD_COUNT
        &&& registered(v.headers@, 0, system_words(0))
        &&& registered(v.headers@, SYSTEM_WORD_COUNT as int, standard_words())
        &&& v.sys_headers == SYSTEM_WORD_COUNT
        &&& v.lib_headers == SYSTEM_WORD_COUNT + STANDARD_WORD_COUNT
        &&& v.dp == 0
        &&& v.data_stack@.len() == 0
        &&& v.return_stack@.len() == 0
        &&& v.compile_stack@.len() == 0
        &&& !v.is_compiling
        &&& v.compile_state is None
        &&& v.output_buffer@.len() == 0
        &&& self.base_dir_state() is None
    }

    /// An interpreter over a VM with the system words and the standard
    /// control words (IF .. ENDIF, WHILE .. ENDWH, SELECT .. ENDSEL, LET).
    pub fn new() -> (r: Self)
        ensures
            r.is_fresh(),
    {
        let mut vm = crate::exec::init_vm();
        let ghost h0 = vm.headers@;
        crate::exec::register_standard_words(&mut vm);
        proof {
            crate::words::lemma_registered_prefix(h0, vm.headers@, 0, system_words(0));
        }
        vm.seal_lib();
        Interpreter {
            vm,
            use_depth: 0,
            max_use_depth: MAX_USE_DEPTH,
            loading_files: Vec::new(),
            base_dir: None,
            current_dir: None,
            files: Vec::new(),
        }
    }

    /// Like `new`; loading the standard words cannot fail.
    pub fn try_new() -> (r: Result<Self, InterpreterError>)
        ensures
            r matches Ok(i) && i.is_fresh(),
    {
        Ok(Self::new())
    }

    /// The VM under the interpreter.
    pub fn vm(&self) -> (r: &VM)
        ensures
            *r == self.vm_state(),
    {
        &self.vm
    }

    /// Set the largest allowed nesting of USE.
    pub fn set_max_use_depth(&mut self, max: usize)
        requires
            old(self).wf(),
        ensures
            final(self).wf(),
            final(self).vm_state() == old(self).vm_state(),
            final(self).use_state() == (max, old(self).use_state().1, old(self).use_state().2, old(self).use_state().3,
                old(self).use_state().4, old(self).use_state().5),
    {
        self.max_use_depth = max;
    }

    /// Make a source file available to USE under `path` (the path as USE
    /// resolves it).
    pub fn add_source_file(&mut self, path: String, text: String)
        requires
            old(self).wf(),
        ensures
            final(self).wf(),
            final(self).vm_state() == old(self).vm_state(),
            final(self).use_state() == (old(self).use_state().0, old(self).use_state().1, old(self).use_state().2,
                old(self).use_state().3, old(self).use_state().4, old(self).use_state().5.push((path, text))),
    {
        self.files.push((path, text));
    }

    /// Take the output written so far.
    pub fn take_output(&mut self) -> (r: String)
        requires
            old(self).wf(),
        ensures
            final(self).wf(),
            r@ == old(self).vm_state().output_buffer@,
            final(self).vm_state().output_buffer@.len() == 0,
            crate::vm::only_output_changed(old(self).vm_state(), final(self).vm_state()),
    {
        self.vm.take_output()
    }

    /// Supply the input that GETDEC / GETSTR read.
    pub fn set_input(&mut self, text: &str)
        requires
            old(self).wf(),
        ensures
            final(self).wf(),
            final(self).vm_state().input_text@ == text@,
            final(self).vm_state().input_pos == 0,
    {
        self.vm.set_input(text);
    }

    /// Read one line of the input (without its line ending); `None` at the
    /// end of the input.
    pub fn read_input_line(&mut self) -> (r: Option<String>)
        requires
            old(self).wf(),
        ensures
            final(self).wf(),
            old(self).vm_state().input_pos >= old(self).vm_state().input_text@.len() ==> r is None,
            old(self).vm_state().input_pos < old(self).vm_state().input_text@.len() ==> (r matches Some(s)
                && s@ == crate::primitives::textio::line_at(
                old(self).vm_state().input_text@,
                old(self).vm_state().input_pos as int,
            )),
    {
        if self.vm.input_pos >= self.vm.input_text.len() {
            return None;
        }
        match crate::primitives::textio::accept_prim(&mut self.vm) {
            Ok(s) => Some(s),
            Err(_) => None,
        }
    }

    /// Set the directory against which relative USE paths are resolved; it
    /// must be an absolute path.
    pub fn set_base_dir(&mut self, dir: PathBuf) -> (r: Result<(), TbxError>)
        requires
            old(self).wf(),
        ensures
            final(self).wf(),
            final(self).vm_state() == old(self).vm_state(),
            r is Ok ==> final(self).base_dir_state() == Some(dir),
            r is Err ==> final(self).base_dir_state() == old(self).base_dir_state() && r matches Err(
                TbxError::InvalidArgument { .. },
            ),
            r matches Err(TbxError::InvalidArgument { message }) ==> "set_base_dir requires an absolute path; got: "@.is_prefix_of(
                message@,
            ),
    {
        if path_is_absolute(&dir) {
            self.base_dir = Some(dir);
            Ok(())
        } else {
            let shown = path_display(&dir);
            let mut m: Vec<char> = Vec::new();
            push_str(&mut m, "set_base_dir requires an absolute path; got: ");
            let ghost m1 = m@;
            push_str(&mut m, shown.as_str());
            assert(m@.subrange(0, m1.len() as int) =~= m1);
            Err(TbxError::InvalidArgument { message: chars_to_string(&m) })
        }
    }
}


/// Bracket depth and top-level commas of a token sequence, or `None` at an
/// unmatched `)` or `]`.
pub open spec fn arity_scan(ts: Seq<SpannedToken>) -> Option<(nat, nat)>
    decreases ts.len(),
{
    if ts.len() == 0 {
        Some((0nat, 0nat))
    } else {
        match arity_scan(ts.drop_last()) {
            None => None,
            Some((d, c)) => match ts.last().token {
                Token::LParen | Token::LBracket => Some(((d + 1) as nat, c)),
                Token::RParen | Token::RBracket => if d == 0 {
                    None
                } else {
                    Some(((d - 1) as nat, c))
                },
                Token::Comma => if d == 0 {
                    Some((d, (c + 1) as nat))
                } else {
                    Some((d, c))
                },
                _ => Some((d, c)),
            },
        }
    }
}

/// Number of top-level comma-separated arguments of a statement.
pub open spec fn top_level_arity(ts: Seq<SpannedToken>) -> Option<nat> {
    if ts.len() == 0 {
        Some(0nat)
    } else {
        match arity_scan(ts) {
            Some((_, c)) => Some(c + 1),
            None => None,
        }
    }
}

/// Count the top-level comma-separated arguments (commas inside brackets
/// do not count); an unmatched `)` or `]` is an error.
pub fn count_top_level_arity(tokens: &[SpannedToken]) -> (r: Result<usize, TbxError>)
    ensures
        match top_level_arity(tokens@) {
            Some(n) => r == Ok::<usize, TbxError>((if n <= usize::MAX { n as int } else { usize::MAX as int }) as usize),
            None => r == Err::<usize, TbxError>(
                TbxError::InvalidExpression { reason: "unmatched ')' or ']' in argument list" },
            ),
        },
{
    if tokens.len() == 0 {
        return Ok(0);
    }
    let mut depth: usize = 0;
    let mut commas: usize = 0;
    let mut i: usize = 0;
    while i < tokens.len()
        invariant
            i <= tokens@.len(),
            tokens@.len() > 0,
            arity_scan(tokens@.take(i as int)) == Some((depth as nat, commas as nat)),
            depth <= i,
            commas <= i,
        decreases tokens@.len() - i,
    {
        assert(tokens@.take(i as int + 1).drop_last() =~= tokens@.take(i as int));
        match &tokens[i].token {
            Token::LParen | Token::LBracket => {
                depth = depth + 1;
            },
            Token::RParen | Token::RBracket => {
                if depth == 0 {
                    proof {
                        lemma_scan_none_extends(tokens@, i as int + 1);
                    }
                    return Err(TbxError::InvalidExpression { reason: "unmatched ')' or ']' in argument list" });
                }
                depth = depth - 1;
            },
            Token::Comma => {
                if depth == 0 {
                    commas = commas + 1;
                }
            },
            _ => {},
        }
        i = i + 1;
    }
    assert(tokens@.take(tokens@.len() as int) =~= tokens@);
    if commas == usize::MAX {
        return Ok(usize::MAX);
    }
    Ok(commas + 1)
}

/// Once the scan fails on a prefix it fails on the whole sequence.
proof fn lemma_scan_none_extends(ts: Seq<SpannedToken>, k: int)
    requires
        0 <= k <= ts.len(),
        arity_scan(ts.take(k)) is None,
    ensures
        arity_scan(ts) is None,
    decreases ts.len() - k,
{
    if k < ts.len() {
        assert(ts.take(k + 1).drop_last() =~= ts.take(k));
        lemma_scan_none_extends(ts, k + 1);
    } else {
        assert(ts.take(k) =~= ts);
    }
}

/// A statement after the first one on an `exec_line` line keeps a leading
/// number as an integer token rather than a label.
pub fn restore_nonleading_exec_line_label(stmt: LogicalStatement, absolute_line: usize) -> (r: LogicalStatement)
    ensures
        r.label is None,
        r.start_line == stmt.start_line,
        r.end_line == stmt.end_line,
        r.start_col == stmt.start_col,
        r.source_excerpt == stmt.source_excerpt,
        stmt.label is None ==> r.tokens == stmt.tokens,
        stmt.label matches Some(n) ==> r.tokens@.len() == stmt.tokens@.len() + 1 && r.tokens@.drop_first()
            == stmt.tokens@ && r.tokens@[0].token == Token::IntLit(n) && r.tokens@[0].pos == (Position {
            line: absolute_line,
            col: stmt.start_col,
        }),
{
    let mut stmt = stmt;
    match stmt.label {
        Some(n) => {
            let len = crate::text::i64_to_decimal(n).len();
            let t = SpannedToken {
                token: Token::IntLit(n),
                pos: Position { line: absolute_line, col: stmt.start_col },
                source_offset: 0,
                source_len: len,
                char_start: 0,
                char_end: 0,
            };
            let ghost old_tokens = stmt.tokens@;
            stmt.tokens.insert(0, t);
            assert(stmt.tokens@.drop_first() =~= old_tokens);
            stmt.label = None;
            stmt
        },
        None => stmt,
    }
}

/// Where a ground-level statement of a program starts in the main code.
#[derive(Debug, Clone, PartialEq)]
pub struct StmtPosition {
    /// Offset of the statement's first cell in the main code.
    pub offset: usize,
    pub line: usize,
    pub col: usize,
    pub source_excerpt: String,
}

/// The index of the last of the first `k` statements that starts at or
/// before `offset`.
pub open spec fn last_pos_at(ps: Seq<StmtPosition>, offset: usize, k: int) -> Option<int>
    decreases k,
{
    if k <= 0 || k > ps.len() {
        None
    } else if ps[k - 1].offset <= offset {
        Some(k - 1)
    } else {
        last_pos_at(ps, offset, k - 1)
    }
}

/// A position triple is that of statement `k`.
pub open spec fn pos_of(ps: Seq<StmtPosition>, k: int, r: (usize, usize, String)) -> bool {
    r.0 == ps[k].line && r.1 == ps[k].col && r.2@ == ps[k].source_excerpt@
}

/// The last statement starting at or before `offset`.
fn position_at(positions: &Vec<StmtPosition>, offset: usize) -> (r: Option<(usize, usize, String)>)
    ensures
        r matches Some((l, c, s)) ==> exists|k: int| 0 <= k < positions@.len() && positions@[k].offset <= offset
            && positions@[k].line == l && positions@[k].col == c && positions@[k].source_excerpt@ == s@,
        match last_pos_at(positions@, offset, positions@.len() as int) {
            Some(k) => r matches Some(t) && pos_of(positions@, k, t),
            None => r is None,
        },
{
    let mut k: usize = positions.len();
    while k > 0
        invariant
            k <= positions@.len(),
            last_pos_at(positions@, offset, positions@.len() as int) == last_pos_at(positions@, offset, k as int),
        decreases k,
    {
        let p = &positions[k - 1];
        if p.offset <= offset {
            return Some((p.line, p.col, p.source_excerpt.clone()));
        }
        k = k - 1;
    }
    None
}

/// The statement whose call led to the failing code: the innermost of the
/// first `k` frames whose return address lies in the main code and follows
/// a statement start.
pub open spec fn return_pos(rs: Seq<ReturnFrame>, main_start: usize, main_len: usize, ps: Seq<StmtPosition>, k: int) -> Option<int>
    decreases k,
{
    if k <= 0 || k > rs.len() {
        None
    } else {
        match rs[k - 1] {
            ReturnFrame::Call { return_pc, .. } => if return_pc > main_start && return_pc - main_start < main_len {
                match last_pos_at(ps, (return_pc - main_start - 1) as usize, ps.len() as int) {
                    Some(p) => Some(p),
                    None => return_pos(rs, main_start, main_len, ps, k - 1),
                }
            } else {
                return_pos(rs, main_start, main_len, ps, k - 1)
            },
            ReturnFrame::TopLevel => return_pos(rs, main_start, main_len, ps, k - 1),
        }
    }
}

/// The source position of a runtime error in a program's main code: the
/// statement holding the failing instruction, else the statement whose
/// call led to it; `(0, 0, "")` when there is none.
pub fn resolve_source_pos(
    error_pc: usize,
    return_stack: &Vec<ReturnFrame>,
    main_start: usize,
    main_len: usize,
    positions: &Vec<StmtPosition>,
) -> (r: (usize, usize, String))
    ensures
        r.0 != 0 || r.1 != 0 || r.2@.len() != 0 ==> exists|k: int| 0 <= k < positions@.len() && positions@[k].line
            == r.0 && positions@[k].col == r.1 && positions@[k].source_excerpt@ == r.2@,
        positions@.len() == 0 ==> r.0 == 0 && r.1 == 0 && r.2@.len() == 0,
        match (if error_pc >= main_start && error_pc - main_start < main_len {
            last_pos_at(positions@, (error_pc - main_start) as usize, positions@.len() as int)
        } else {
            None
        }) {
            Some(k) => pos_of(positions@, k, r),
            None => match return_pos(return_stack@, main_start, main_len, positions@, return_stack@.len() as int) {
                Some(k) => pos_of(positions@, k, r),
                None => r.0 == 0 && r.1 == 0 && r.2@.len() == 0,
            },
        },
{
    if error_pc >= main_start && error_pc - main_start < main_len {
        match position_at(positions, error_pc - main_start) {
            Some(p) => {
                return p;
            },
            None => {},
        }
    }
    let mut k: usize = return_stack.len();
    while k > 0
        invariant
            k <= return_stack@.len(),
            return_pos(return_stack@, main_start, main_len, positions@, return_stack@.len() as int) == return_pos(
                return_stack@,
                main_start,
                main_len,
                positions@,
                k as int,
            ),
            !(error_pc >= main_start && error_pc - main_start < main_len) || last_pos_at(
                positions@,
                (error_pc - main_start) as usize,
                positions@.len() as int,
            ) is None,
        decreases k,
    {
        match return_stack[k - 1] {
            ReturnFrame::Call { return_pc, .. } => {
                if return_pc > main_start && return_pc - main_start < main_len {
                    match position_at(positions, return_pc - main_start - 1) {
                        Some(p) => {
                            return p;
                        },
                        None => {},
                    }
                }
            },
            ReturnFrame::TopLevel => {},
        }
        k = k - 1;
    }
    (0, 0, String::new())
}


/// Tokens `from..` of a token list.
fn tokens_from(tokens: &Vec<SpannedToken>, from: usize) -> (r: Vec<SpannedToken>)
    ensures
        from <= tokens@.len() ==> r@ == tokens@.subrange(from as int, tokens@.len() as int),
{
    let mut out: Vec<SpannedToken> = Vec::new();
    let mut i: usize = from;
    while i < tokens.len()
        invariant
            from <= tokens@.len() ==> from <= i <= tokens@.len(),
            from <= tokens@.len() ==> out@ == tokens@.subrange(from as int, i as int),
        decreases tokens@.len() - i,
    {
        out.push(tokens[i].dup());
        proof {
            if from <= tokens@.len() {
                assert(tokens@.subrange(from as int, i as int + 1) =~= tokens@.subrange(from as int, i as int).push(
                    tokens@[i as int],
                ));
            }
        }
        i = i + 1;
    }
    out
}

/// Whether a statement's argument list is exactly `()`.
fn is_empty_parens(args: &Vec<SpannedToken>) -> (r: bool)
    ensures
        r == (args@.len() == 2 && args@[0].token is LParen && args@[1].token is RParen),
{
    args.len() == 2 && matches!(args[0].token, Token::LParen) && matches!(args[1].token, Token::RParen)
}

/// Record a self-call placeholder at `pos` with the open definition.
fn add_call_patch(vm: &mut VM, pos: usize)
    requires
        old(vm).wf(),
    ensures
        final(vm).wf(),
        crate::primitives::compile::compiles_only(*old(vm), *final(vm)),
        crate::vm::eq_dictionary(*old(vm), *final(vm)),
        final(vm).token_stream == old(vm).token_stream,
        crate::vm::def_snapshot(*final(vm)) == crate::vm::def_snapshot(*old(vm)),
        match old(vm).compile_state {
            Some(st) => final(vm).compile_state == Some(
                CompileState { call_patch_list: final(vm).compile_state.unwrap().call_patch_list, ..st },
            ) && final(vm).compile_state.unwrap().call_patch_list@ == st.call_patch_list@.push(pos),
            None => final(vm).compile_state is None,
        },
{
    match vm.compile_state.take() {
        Some(mut st) => {
            st.call_patch_list.push(pos);
            vm.compile_state = Some(st);
        },
        None => {},
    }
}

/// The header a call statement in `vm` names: the newest visible word
/// `name`, or the word being defined.
pub open spec fn stmt_target(vm: VM, name: Seq<char>) -> Option<usize> {
    crate::vm::lookup_in(vm.headers@, vm.headers@.len() as int, name, self_index(vm), false)
}

/// The header index of the word being defined, if any.
pub open spec fn self_index(vm: VM) -> Option<usize> {
    match vm.compile_state {
        Some(st) => Some(st.hdr_len_at_def),
        None => None,
    }
}

/// The argument count of a call statement (saturated at `usize::MAX`).
pub open spec fn stmt_arity(args: Seq<SpannedToken>) -> usize {
    let n = top_level_arity(args).unwrap();
    (if n <= usize::MAX { n as int } else { usize::MAX as int }) as usize
}

/// The code of a call of header `x` with `arity` arguments whose code is
/// `args_code`: `LIT_MARKER`, the arguments, then `CALL x arity locals` for
/// a compiled word (locals 0, patched later, for the word being defined),
/// `LIT arity x` for a variadic primitive, or `x`, and `DROP_TO_MARKER`.
pub open spec fn call_stmt_code(vm: VM, x: usize, arity: usize, args_code: Seq<Cell>) -> Seq<Cell> {
    let h = vm.headers@[x as int];
    let call = match h.kind {
        EntryKind::Word(_) => seq![
            word_xt(vm, "CALL"@),
            Cell::Xt(Xt(x)),
            Cell::Int(arity as i64),
            Cell::Int(if self_index(vm) == Some(x) { 0 } else { h.local_count as i64 }),
        ],
        EntryKind::Primitive(_) => if h.is_variadic {
            seq![word_xt(vm, "LIT"@), Cell::Int(arity as i64), Cell::Xt(Xt(x))]
        } else {
            seq![Cell::Xt(Xt(x))]
        },
        _ => seq![Cell::Xt(Xt(x))],
    };
    seq![word_xt(vm, "LIT_MARKER"@)] + args_code + call + seq![word_xt(vm, "DROP_TO_MARKER"@)]
}

/// Whether a call statement `name args` is refused: the name is no
/// callable word, or the argument list is `()`.
pub open spec fn call_stmt_refusal(a: VM, name: Seq<char>, args: Seq<SpannedToken>) -> bool {
    match stmt_target(a, name) {
        None => true,
        Some(x) => a.headers@[x as int].flags & FLAG_SYSTEM != 0 || (args.len() == 2 && args[0].token is LParen
            && args[1].token is RParen),
    }
}

/// The call statement `name args` is refused before any code is written:
/// `name` is no callable word, or the arguments are `()`.
pub open spec fn call_stmt_is_refused(a: VM, name: Seq<char>, args: Seq<SpannedToken>) -> bool {
    match stmt_target(a, name) {
        None => true,
        Some(x) => a.headers@[x as int].flags & FLAG_SYSTEM != 0 || (args.len() == 2 && args[0].token is LParen
            && args[1].token is RParen),
    }
}

/// The code of the arguments of a call statement that has none or a flat
/// expression list.
pub open spec fn plain_args_code(a: VM, args: Seq<SpannedToken>) -> Seq<Cell> {
    if args.len() == 0 {
        Seq::empty()
    } else {
        crate::expr::flat_code(a, args)
    }
}

/// The call statement `name args`, with no arguments or a flat expression
/// list, is written: `name` is a callable word, the argument count suits
/// it, the words the code uses are registered and the dictionary has room.
pub open spec fn call_stmt_ready(a: VM, name: Seq<char>, args: Seq<SpannedToken>) -> bool {
    &&& !call_stmt_is_refused(a, name, args)
    &&& args.len() == 0 || (crate::expr::flat_arith(args) && crate::expr::flat_words_ok(a, args))
    &&& top_level_arity(args) is Some
    &&& stmt_target(a, name) matches Some(x) && {
        let h = a.headers@[x as int];
        &&& (!h.is_variadic || stmt_arity(args) >= h.arity)
        &&& (h.kind is Primitive && h.is_variadic ==> crate::vm::lookup_in(
            a.headers@,
            a.headers@.len() as int,
            "LIT"@,
            None,
            false,
        ) is Some)
        &&& a.dp + call_stmt_code(a, x, stmt_arity(args), plain_args_code(a, args)).len() <= crate::constants::MAX_DICTIONARY_CELLS
    }
    &&& crate::vm::lookup_in(a.headers@, a.headers@.len() as int, "LIT_MARKER"@, None, false) is Some
    &&& crate::vm::lookup_in(a.headers@, a.headers@.len() as int, "CALL"@, None, false) is Some
    &&& crate::vm::lookup_in(a.headers@, a.headers@.len() as int, "DROP_TO_MARKER"@, None, false) is Some
}

/// The error of a refused call statement `name args`.
pub open spec fn call_stmt_refused(a: VM, name: Seq<char>, args: Seq<SpannedToken>, r: Result<(), InterpreterError>) -> bool {
    match stmt_target(a, name) {
        None => r matches Err(e) && (e.kind matches TbxError::UndefinedSymbol { name: n } && n@ == name),
        Some(x) => if a.headers@[x as int].flags & FLAG_SYSTEM != 0 {
            r matches Err(e) && (e.kind matches TbxError::UndefinedSymbol { name: n } && n@ == name)
        } else if args.len() == 2 && args[0].token is LParen && args[1].token is RParen {
            r matches Err(e) && (e.kind matches TbxError::InvalidStatementCallSyntax { name: n } && n@ == name)
        } else {
            true
        },
    }
}

/// The word a statement starts with (upper-cased), unless it is empty, does
/// not start with a name, or is a REM comment.
pub open spec fn segment_head(tokens: Seq<SpannedToken>) -> Option<Seq<char>> {
    if tokens.len() > 0 {
        match tokens[0].token {
            Token::Ident(id) => if upper_seq(id@) == "REM"@ {
                None
            } else {
                Some(upper_seq(id@))
            },
            _ => None,
        }
    } else {
        None
    }
}

/// What running the statement `tokens` does when it is no IMMEDIATE word:
/// inside a definition its call is compiled; at the top level a refused
/// call is reported, and otherwise the call runs and its temporary code is
/// removed again.
pub open spec fn segment_effect(a: VM, b: VM, tokens: Seq<SpannedToken>, r: Result<(), InterpreterError>) -> bool {
    &&& segment_head(tokens) is None ==> r is Ok && b == a
    &&& segment_head(tokens) matches Some(name) ==> (!lookup_immediate(a, tokens[0].token) ==> if a.compile_state is Some {
        call_stmt_outcome(a, b, name, tokens.subrange(1, tokens.len() as int), r)
    } else {
        call_stmt_refused(a, name, tokens.subrange(1, tokens.len() as int), r) && b.return_stack@ == a.return_stack@
            && b.dp <= a.dp && (r is Err ==> b.bp == a.bp && b.data_stack@.len() <= a.data_stack@.len())
            && (call_stmt_is_refused(a, name, tokens.subrange(1, tokens.len() as int)) ==> b.dp == a.dp
            && b.data_stack@ == a.data_stack@ && b.headers@ == a.headers@ && b.arrays@ == a.arrays@)
    })
}

/// What writing the call statement `name args` does: a name that is no
/// callable word, or an argument list `()`, is refused; on success the
/// call's code is emitted, with the code of the arguments (their reverse
/// Polish code when they are a flat expression list).
pub open spec fn call_stmt_outcome(
    a: VM,
    b: VM,
    name: Seq<char>,
    args: Seq<SpannedToken>,
    r: Result<(), InterpreterError>,
) -> bool {
    call_stmt_refused(a, name, args, r) && match stmt_target(a, name) {
        None => r matches Err(e) && (e.kind matches TbxError::UndefinedSymbol { name: n } && n@ == name),
        Some(x) => if a.headers@[x as int].flags & FLAG_SYSTEM != 0 {
            r matches Err(e) && (e.kind matches TbxError::UndefinedSymbol { name: n } && n@ == name)
        } else if args.len() == 2 && args[0].token is LParen && args[1].token is RParen {
            r matches Err(e) && (e.kind matches TbxError::InvalidStatementCallSyntax { name: n } && n@ == name)
        } else {
            (r is Ok ==> exists|code: Seq<Cell>|
                #[trigger] emitted(a, b, call_stmt_code(a, x, stmt_arity(args), code))) && (crate::expr::flat_arith(args)
                ==> (r is Ok ==> emitted(a, b, call_stmt_code(a, x, stmt_arity(args), crate::expr::flat_code(a, args)))))
        },
    }
}

/// What running the IMMEDIATE word `x` with the statement's rest `args` as
/// token stream does, from `a` to `b`. The token stream is cleared. On
/// failure the open definition is rolled back, the return stack and frame
/// base are restored, the data stack is no deeper than before and no file
/// load is pending. A primitive word does what the primitive does, run with
/// `args` as its token stream; a user word with parameters and a word of
/// any other kind are refused.
pub open spec fn imm_outcome(a: VM, b: VM, x: Xt, args: Seq<SpannedToken>, r: Result<(), InterpreterError>) -> bool {
    let h = a.headers@[x.0 as int];
    &&& b.token_stream is None
    &&& r is Err ==> b.compile_state is None && !b.is_compiling && b.return_stack@ == a.return_stack@ && b.bp == a.bp
        && b.data_stack@.len() <= a.data_stack@.len() && b.pending_use_path is None
    &&& (h.kind is Word && h.arity > 0) ==> (r matches Err(e) && e.kind == (TbxError::InvalidExpression {
        reason: "IMMEDIATE user word with parameters cannot be called without a CALL frame",
    }))
    &&& !(h.kind is Word || h.kind is Primitive) ==> (r matches Err(e) && e.kind == (TbxError::InvalidExpression {
        reason: "IMMEDIATE word kind is not executable",
    }))
    &&& h.kind matches EntryKind::Primitive(p) ==> exists|mid: VM, post: VM, r0: Result<(), TbxError>|
        #![trigger crate::exec::prim_effect(p, mid, post, r0, RUN_DEPTH)]
        mid == (VM { token_stream: mid.token_stream, ..a }) && stream(mid) == Some(args)
            && crate::exec::prim_effect(p, mid, post, r0, RUN_DEPTH) && (r0 is Ok ==> r is Ok && b == (VM {
            token_stream: None,
            ..post
        })) && (r0 matches Err(e) ==> r matches Err(ie) && ie.kind == e)
}

impl Interpreter {
    /// Look up a visible word that must exist.
    fn lookup_required(&self, name: &str, line: usize, col: usize, excerpt: &str) -> (r: Result<Xt, InterpreterError>)
        requires
            self.wf(),
        ensures
            r matches Ok(x) ==> x.0 < self.vm_state().headers@.len() && crate::vm::lookup_in(
                self.vm_state().headers@,
                self.vm_state().headers@.len() as int,
                name@,
                None,
                false,
            ) == Some(x.0),
            r is Ok <==> crate::vm::lookup_in(
                self.vm_state().headers@,
                self.vm_state().headers@.len() as int,
                name@,
                None,
                false,
            ) is Some,
            r matches Err(e) ==> e.line == line && e.col == col && e.source_excerpt@ == excerpt@ && (e.kind matches TbxError::UndefinedSymbol {
                name: n,
            } && n@ == name@),
    {
        proof {
            crate::vm::lemma_lookup_in_bounds(self.vm.headers@, self.vm.headers@.len() as int, name@, None, false);
        }
        match self.vm.lookup(name) {
            Some(x) => Ok(x),
            None => Err(InterpreterError::new(line, col, excerpt, TbxError::UndefinedSymbol { name: name.to_owned() })),
        }
    }

    /// Write the code of a call statement: `LIT_MARKER args call DROP_TO_MARKER`.
    #[verifier::rlimit(60)]
    #[verifier::spinoff_prover]
    fn write_stmt_to_dict(
        &mut self,
        name: &String,
        args: &Vec<SpannedToken>,
        line: usize,
        col: usize,
        excerpt: &String,
    ) -> (r: Result<(), InterpreterError>)
        requires
            old(self).wf(),
        ensures
            final(self).use_state() == old(self).use_state(),
            final(self).wf(),
            crate::primitives::compile::same_runtime(old(self).vm_state(), final(self).vm_state()),
            crate::vm::eq_headers(old(self).vm_state(), final(self).vm_state()),
            final(self).vm_state().is_compiling == old(self).vm_state().is_compiling,
            crate::vm::def_snapshot(final(self).vm_state()) == crate::vm::def_snapshot(old(self).vm_state()),
            final(self).vm_state().dp >= old(self).vm_state().dp,
            call_stmt_outcome(old(self).vm_state(), final(self).vm_state(), name@, args@, r),
            call_stmt_is_refused(old(self).vm_state(), name@, args@) ==> *final(self) == *old(self),
            call_stmt_ready(old(self).vm_state(), name@, args@) ==> r is Ok,
            r is Ok ==> (stmt_target(old(self).vm_state(), name@) matches Some(x) && (old(self).vm_state().headers@[
                x as int].kind is Word && self_index(old(self).vm_state()) == Some(x) ==> (final(self).vm_state().compile_state
                matches Some(st) && st.call_patch_list@.len() > 0 && st.call_patch_list@.last() == (final(self).vm_state().dp
                - 2) as usize))),
    {
        let self_idx = match &self.vm.compile_state {
            Some(st) => Some(st.hdr_len_at_def),
            None => None,
        };
        proof {
            crate::vm::lemma_lookup_in_bounds(self.vm.headers@, self.vm.headers@.len() as int, name@, self_idx, false);
        }
        let x = match self.vm.lookup_including_self(name.as_str(), self_idx) {
            Some(x) => x,
            None => {
                return Err(InterpreterError::new(line, col, excerpt.as_str(), TbxError::UndefinedSymbol { name: name.clone() }));
            },
        };
        if self.vm.headers[x.0].flags & FLAG_SYSTEM != 0 {
            return Err(InterpreterError::new(line, col, excerpt.as_str(), TbxError::UndefinedSymbol { name: name.clone() }));
        }
        if is_empty_parens(args) {
            return Err(
                InterpreterError::new(line, col, excerpt.as_str(), TbxError::InvalidStatementCallSyntax { name: name.clone() }),
            );
        }
        let (cells, offs) = match crate::primitives::compile::compile_tokens(&mut self.vm, args.as_slice()) {
            Ok(p) => p,
            Err(e) => {
                return Err(InterpreterError::new(line, col, excerpt.as_str(), e));
            },
        };
        let arity = match count_top_level_arity(args.as_slice()) {
            Ok(a) => a,
            Err(e) => {
                return Err(InterpreterError::new(line, col, excerpt.as_str(), e));
            },
        };
        if let Err(e) = self.vm.headers[x.0].check_variadic_arity(arity) {
            return Err(InterpreterError::new(line, col, excerpt.as_str(), e));
        }
        let is_word = matches!(self.vm.headers[x.0].kind, EntryKind::Word(_));
        let is_variadic_prim = matches!(self.vm.headers[x.0].kind, EntryKind::Primitive(_))
            && self.vm.headers[x.0].is_variadic;
        let local_count = self.vm.headers[x.0].local_count;
        let marker = self.lookup_required("LIT_MARKER", line, col, excerpt.as_str())?;
        let call = self.lookup_required("CALL", line, col, excerpt.as_str())?;
        let drop = self.lookup_required("DROP_TO_MARKER", line, col, excerpt.as_str())?;
        let ghost a0 = self.vm;
        let ghost cells_s = cells@;
        proof {
            crate::primitives::compile::lemma_emitted_none(a0);
        }
        let ghost mut acc: Seq<Cell> = Seq::empty();
        let ghost mut prev = self.vm;
        let r1 = self.vm.dict_write(Cell::Xt(marker));
        if let Err(e) = r1 {
            return Err(InterpreterError::new(line, col, excerpt.as_str(), e));
        }
        proof {
            crate::primitives::compile::lemma_emitted_push(a0, prev, self.vm, acc, Cell::Xt(marker));
            acc = acc.push(Cell::Xt(marker));
            prev = self.vm;
        }
        if let Err(e) = crate::primitives::compile::emit_cells(&mut self.vm, cells, offs) {
            return Err(InterpreterError::new(line, col, excerpt.as_str(), e));
        }
        proof {
            crate::primitives::compile::lemma_emitted_trans(a0, prev, self.vm, acc, cells_s);
            acc = acc + cells_s;
            prev = self.vm;
        }
        let ghost head = acc;
        if is_word {
            let is_self = match self_idx {
                Some(k) => k == x.0,
                None => false,
            };
            if let Err(e) = self.vm.dict_write(Cell::Xt(call)) {
                return Err(InterpreterError::new(line, col, excerpt.as_str(), e));
            }
            proof {
                crate::primitives::compile::lemma_emitted_push(a0, prev, self.vm, acc, Cell::Xt(call));
                acc = acc.push(Cell::Xt(call));
                prev = self.vm;
            }
            if let Err(e) = self.vm.dict_write(Cell::Xt(x)) {
                return Err(InterpreterError::new(line, col, excerpt.as_str(), e));
            }
            proof {
                crate::primitives::compile::lemma_emitted_push(a0, prev, self.vm, acc, Cell::Xt(x));
                acc = acc.push(Cell::Xt(x));
                prev = self.vm;
            }
            if let Err(e) = self.vm.dict_write(Cell::Int(arity as i64)) {
                return Err(InterpreterError::new(line, col, excerpt.as_str(), e));
            }
            proof {
                crate::primitives::compile::lemma_emitted_push(a0, prev, self.vm, acc, Cell::Int(arity as i64));
                acc = acc.push(Cell::Int(arity as i64));
                prev = self.vm;
            }
            if is_self {
                let pos = self.vm.dp;
                if let Err(e) = self.vm.dict_write(Cell::Int(0)) {
                    return Err(InterpreterError::new(line, col, excerpt.as_str(), e));
                }
                proof {
                    crate::primitives::compile::lemma_emitted_push(a0, prev, self.vm, acc, Cell::Int(0));
                    acc = acc.push(Cell::Int(0));
                }
                add_call_patch(&mut self.vm, pos);
                proof {
                    prev = self.vm;
                }
            } else {
                if let Err(e) = self.vm.dict_write(Cell::Int(local_count as i64)) {
                    return Err(InterpreterError::new(line, col, excerpt.as_str(), e));
                }
                proof {
                    crate::primitives::compile::lemma_emitted_push(a0, prev, self.vm, acc, Cell::Int(local_count as i64));
                    acc = acc.push(Cell::Int(local_count as i64));
                    prev = self.vm;
                }
            }
        } else {
            if is_variadic_prim {
                let lit = self.lookup_required("LIT", line, col, excerpt.as_str())?;
                if let Err(e) = self.vm.dict_write(Cell::Xt(lit)) {
                    return Err(InterpreterError::new(line, col, excerpt.as_str(), e));
                }
                proof {
                    crate::primitives::compile::lemma_emitted_push(a0, prev, self.vm, acc, Cell::Xt(lit));
                    acc = acc.push(Cell::Xt(lit));
                    prev = self.vm;
                }
                if let Err(e) = self.vm.dict_write(Cell::Int(arity as i64)) {
                    return Err(InterpreterError::new(line, col, excerpt.as_str(), e));
                }
                proof {
                    crate::primitives::compile::lemma_emitted_push(a0, prev, self.vm, acc, Cell::Int(arity as i64));
                    acc = acc.push(Cell::Int(arity as i64));
                    prev = self.vm;
                }
            }
            if let Err(e) = self.vm.dict_write(Cell::Xt(x)) {
                return Err(InterpreterError::new(line, col, excerpt.as_str(), e));
            }
            proof {
                crate::primitives::compile::lemma_emitted_push(a0, prev, self.vm, acc, Cell::Xt(x));
                acc = acc.push(Cell::Xt(x));
                prev = self.vm;
            }
        }
        if let Err(e) = self.vm.dict_write(Cell::Xt(drop)) {
            return Err(InterpreterError::new(line, col, excerpt.as_str(), e));
        }
        proof {
            crate::primitives::compile::lemma_emitted_push(a0, prev, self.vm, acc, Cell::Xt(drop));
            acc = acc.push(Cell::Xt(drop));
            let code = call_stmt_code(old(self).vm_state(), x.0, stmt_arity(args@), cells_s);
            assert(acc =~= code);
            assert(emitted(old(self).vm_state(), self.vm, code));
        }
        Ok(())
    }
}


/// The first entry of `files` from `i` on whose path is `key`.
pub open spec fn file_index(files: Seq<(String, String)>, key: Seq<char>, i: int) -> Option<int>
    decreases files.len() - i,
{
    if i < 0 || i >= files.len() {
        None
    } else if files[i].0@ == key {
        Some(i)
    } else {
        file_index(files, key, i + 1)
    }
}

/// Find the text of a source file made available to USE.
fn find_file(files: &Vec<(String, String)>, key: &String) -> (r: Option<String>)
    ensures
        match file_index(files@, key@, 0) {
            Some(k) => r matches Some(t) && t@ == files@[k].1@,
            None => r is None,
        },
{
    let mut i: usize = 0;
    while i < files.len()
        invariant
            i <= files@.len(),
            file_index(files@, key@, 0) == file_index(files@, key@, i as int),
        decreases files@.len() - i,
    {
        if files[i].0 == *key {
            return Some(files[i].1.clone());
        }
        i = i + 1;
    }
    None
}

/// Whether `key` is among `list`.
fn contains_string(list: &Vec<String>, key: &String) -> (r: bool)
    ensures
        r == exists|k: int| 0 <= k < list@.len() && #[trigger] list@[k]@ == key@,
{
    let mut i: usize = 0;
    while i < list.len()
        invariant
            i <= list@.len(),
            forall|k: int| 0 <= k < i ==> #[trigger] list@[k]@ != key@,
        decreases list@.len() - i,
    {
        if list[i] == *key {
            return true;
        }
        i = i + 1;
    }
    false
}

/// The token stream holding `args`.
fn stream_of(args: &Vec<SpannedToken>) -> (r: VecDeque<SpannedToken>)
    ensures
        r@ == args@,
{
    let mut q: VecDeque<SpannedToken> = VecDeque::new();
    let mut i: usize = 0;
    while i < args.len()
        invariant
            i <= args@.len(),
            q@ == args@.take(i as int),
        decreases args@.len() - i,
    {
        q.push_back(args[i].dup());
        assert(args@.take(i as int + 1) =~= args@.take(i as int).push(args@[i as int]));
        i = i + 1;
    }
    assert(args@.take(args@.len() as int) =~= args@);
    q
}

/// The runtime call stack with `extra` inserted before the first
/// `<top-level>` frame (or at the end).
/// Trace frame `t` describes return-stack frame `rf`.
pub open spec fn frame_describes(vm: VM, t: StackTraceFrame, rf: ReturnFrame) -> bool {
    match rf {
        ReturnFrame::TopLevel => t.word_name@ == "<top-level>"@ && t.actual_arity == 0,
        ReturnFrame::Call { actual_arity, word, .. } => t.actual_arity == actual_arity && (word.0
            < vm.headers@.len() ==> t.word_name@ == vm.headers@[word.0 as int].name@),
    }
}

fn frames_with(vm: &VM, extra: Option<StackTraceFrame>) -> (r: Vec<StackTraceFrame>)
    ensures
        ({
            let rs = vm.return_stack@;
            let n = rs.len() as int;
            match extra {
                None => r@.len() == n && forall|i: int| 0 <= i < n ==> #[trigger] frame_describes(*vm, r@[i], rs[n - 1 - i]),
                Some(f) => r@.len() == n + 1 && exists|p: int|
                    #![trigger r@[p]]
                    0 <= p <= n && r@[p] == f && (forall|i: int|
                        0 <= i < p ==> #[trigger] frame_describes(*vm, r@[i], rs[n - 1 - i]) && r@[i].word_name@
                            != "<top-level>"@) && (forall|i: int|
                        p < i <= n ==> #[trigger] frame_describes(*vm, r@[i], rs[n - i])) && (p < n ==> r@[p
                        + 1].word_name@ == "<top-level>"@),
            }
        }),
{
    let mut frames = vm.stack_trace_frames();
    let ghost f0 = frames@;
    let ghost rs = vm.return_stack@;
    let ghost n = rs.len() as int;
    assert forall|i: int| 0 <= i < n implies #[trigger] frame_describes(*vm, f0[i], rs[n - 1 - i]) by {
        assert(frame_describes(*vm, f0[i], rs[n - 1 - i]));
    }
    match extra {
        Some(f) => {
            let top = "<top-level>".to_owned();
            let mut pos: usize = frames.len();
            let mut i: usize = 0;
            while i < frames.len()
                invariant_except_break
                    pos == frames@.len(),
                invariant
                    i <= frames@.len(),
                    frames@ == f0,
                    top@ == "<top-level>"@,
                    forall|j: int| 0 <= j < i ==> #[trigger] frames@[j].word_name@ != "<top-level>"@,
                ensures
                    pos <= frames@.len(),
                    pos < frames@.len() ==> frames@[pos as int].word_name@ == "<top-level>"@,
                    forall|j: int| 0 <= j < pos ==> #[trigger] frames@[j].word_name@ != "<top-level>"@,
                decreases frames@.len() - i,
            {
                if frames[i].word_name == top {
                    pos = i;
                    break ;
                }
                i = i + 1;
            }
            assert(pos < f0.len() ==> f0[pos as int].word_name@ == "<top-level>"@);
            assert(forall|j: int| 0 <= j < pos ==> #[trigger] f0[j].word_name@ != "<top-level>"@);
            frames.insert(pos, f);
            assert forall|j: int| 0 <= j < pos implies #[trigger] frame_describes(*vm, frames@[j], rs[n - 1 - j])
                && frames@[j].word_name@ != "<top-level>"@ by {
                assert(frames@[j] == f0[j]);
            }
            assert forall|j: int| pos < j <= n implies #[trigger] frame_describes(*vm, frames@[j], rs[n - j]) by {
                assert(frames@[j] == f0[j - 1]);
                assert(frame_describes(*vm, f0[j - 1], rs[n - 1 - (j - 1)]));
                assert(n - 1 - (j - 1) == n - j);
            }
            assert(frames@[pos as int] == f);
            assert(pos < n ==> frames@[pos + 1] == f0[pos as int]);
            frames
        },
        None => frames,
    }
}

impl Interpreter {
    /// Run an IMMEDIATE word with the rest of its statement as token stream.
    /// On failure the open definition is discarded and the stacks are
    /// restored: nothing is being compiled, the return stack and frame base
    /// are as before, the data stack is no deeper than before, and no file
    /// load is pending.
    fn run_immediate_word(
        &mut self,
        x: Xt,
        args: &Vec<SpannedToken>,
        line: usize,
        col: usize,
        excerpt: &String,
    ) -> (r: Result<(), InterpreterError>)
        requires
            old(self).wf(),
            x.0 < old(self).vm_state().headers@.len(),
        ensures
            final(self).use_state() == old(self).use_state(),
            final(self).wf(),
            final(self).vm_state().token_stream is None,
            imm_outcome(old(self).vm_state(), final(self).vm_state(), x, args@, r),
    {
        let kind = self.vm.headers[x.0].kind.dup();
        let arity = self.vm.headers[x.0].arity;
        let local_count = self.vm.headers[x.0].local_count;
        let name = self.vm.headers[x.0].name.clone();
        self.vm.token_stream = Some(stream_of(args));
        let saved_stack = self.vm.data_stack.len();
        let saved_rs = self.vm.return_stack.len();
        let saved_bp = self.vm.bp;
        let ghost rs0 = self.vm.return_stack@;
        let mut synthetic: Option<StackTraceFrame> = None;
        let ghost mid = self.vm;
        let result = match kind {
            EntryKind::Primitive(p) => {
                synthetic = Some(StackTraceFrame { word_name: name, actual_arity: 0 });
                crate::exec::dispatch(&mut self.vm, p, RUN_DEPTH)
            },
            EntryKind::Word(body) => {
                if arity > 0 {
                    Err(
                        TbxError::InvalidExpression {
                            reason: "IMMEDIATE user word with parameters cannot be called without a CALL frame",
                        },
                    )
                } else {
                    let mut push_err: Option<TbxError> = None;
                    if local_count > 0 {
                        self.vm.bp = self.vm.data_stack.len();
                        let mut k: usize = 0;
                        while k < local_count
                            invariant
                                self.vm.wf(),
                                self.use_state() == old(self).use_state(),
                                self.vm.return_stack@ == rs0,
                            decreases local_count - k,
                        {
                            if let Err(e) = self.vm.push(Cell::Int(0)) {
                                push_err = Some(e);
                                break ;
                            }
                            k = k + 1;
                        }
                    }
                    match push_err {
                        Some(e) => Err(e),
                        None => {
                            synthetic = Some(StackTraceFrame { word_name: name, actual_arity: 0 });
                            let res = crate::exec::run(&mut self.vm, body, RUN_DEPTH);
                            if res.is_ok() && local_count > 0 {
                                self.vm.data_stack.truncate(saved_stack);
                                self.vm.bp = saved_bp;
                            }
                            res
                        },
                    }
                }
            },
            _ => Err(TbxError::InvalidExpression { reason: "IMMEDIATE word kind is not executable" }),
        };
        let ghost post = self.vm;
        self.vm.token_stream = None;
        proof {
            if kind is Primitive {
                assert(self.vm == (VM { token_stream: None, ..post }));
                assert(mid == (VM { token_stream: mid.token_stream, ..old(self).vm_state() }));
            }
        }
        match result {
            Ok(()) => Ok(()),
            Err(e) => {
                let frames = frames_with(&self.vm, synthetic);
                self.vm.rollback_def();
                self.vm.data_stack.truncate(saved_stack);
                self.vm.return_stack.truncate(saved_rs);
                self.vm.bp = saved_bp;
                self.vm.pending_use_path = None;
                proof {
                    assert(self.vm.return_stack@ =~= rs0);
                }
                Err(InterpreterError::with_call_stack(line, col, excerpt.as_str(), e, frames))
            },
        }
    }

    /// Run an IMMEDIATE word with the rest of its statement as token
    /// stream; afterwards load a file its USE requested. On failure of the
    /// word the open definition is discarded and the stacks are restored.
    fn exec_immediate_word(
        &mut self,
        x: Xt,
        args: &Vec<SpannedToken>,
        line: usize,
        col: usize,
        excerpt: &String,
        budget: usize,
    ) -> (r: Result<(), InterpreterError>)
        requires
            old(self).wf(),
            x.0 < old(self).vm_state().headers@.len(),
        ensures
            final(self).use_state() == old(self).use_state(),
            final(self).wf(),
            exists|mid: VM, r1: Result<(), InterpreterError>|
                #![trigger imm_outcome(old(self).vm_state(), mid, x, args@, r1)]
                imm_outcome(old(self).vm_state(), mid, x, args@, r1) && (r1 is Err ==> r == r1
                && final(self).vm_state() == mid) && (r1 is Ok && mid.pending_use_path is None ==> r is Ok && final(self).vm_state()
                == mid),
            ({
                let h = old(self).vm_state().headers@[x.0 as int];
                &&& (h.kind is Word && h.arity > 0) ==> (r matches Err(e) && e.kind == (TbxError::InvalidExpression {
                    reason: "IMMEDIATE user word with parameters cannot be called without a CALL frame",
                }) && final(self).vm_state().compile_state is None)
                &&& !(h.kind is Word || h.kind is Primitive) ==> (r matches Err(e) && e.kind == (
                TbxError::InvalidExpression { reason: "IMMEDIATE word kind is not executable" })
                    && final(self).vm_state().compile_state is None)
            }),
        decreases budget, 3nat,
    {
        let rr = self.run_immediate_word(x, args, line, col, excerpt);
        let ghost mid = self.vm;
        if rr.is_err() {
            return rr;
        }
        let path = match self.vm.pending_use_path.take() {
            Some(p) => p,
            None => {
                return Ok(());
            },
        };
        if self.use_depth >= self.max_use_depth || budget == 0 {
            return Err(
                InterpreterError::new(
                    line,
                    col,
                    excerpt.as_str(),
                    TbxError::UseNestingDepthExceeded { limit: self.max_use_depth },
                ),
            );
        }
        let resolved = if path_is_relative(path.as_str()) {
            match &self.current_dir {
                Some(c) => path_join(c, path.as_str()),
                None => match &self.base_dir {
                    Some(b) => path_join(b, path.as_str()),
                    None => path_from(path.as_str()),
                },
            }
        } else {
            path_from(path.as_str())
        };
        let key = path_display(&resolved);
        if contains_string(&self.loading_files, &key) {
            return Err(InterpreterError::new(line, col, excerpt.as_str(), TbxError::CircularUse { path: key }));
        }
        let text = match find_file(&self.files, &key) {
            Some(t) => t,
            None => {
                return Err(
                    InterpreterError::new(
                        line,
                        col,
                        excerpt.as_str(),
                        TbxError::FileNotFound { path: key, reason: "No such file or directory".to_owned() },
                    ),
                );
            },
        };
        let prev_dir = self.current_dir.take();
        self.current_dir = path_parent(&resolved);
        let ghost lf0 = self.loading_files@;
        self.loading_files.push(key);
        let depth = self.use_depth;
        self.use_depth = depth + 1;
        let res = self.exec_source_inner(text.as_str(), budget - 1);
        self.use_depth = depth;
        self.loading_files.pop();
        proof {
            assert(self.loading_files@ =~= lf0);
        }
        self.current_dir = prev_dir;
        res
    }

    /// Run the statements of a source text; HALT ends it normally.
    fn exec_source_inner(&mut self, src: &str, budget: usize) -> (r: Result<(), InterpreterError>)
        requires
            old(self).wf(),
        ensures
            final(self).use_state() == old(self).use_state(),
            final(self).wf(),
            src@.len() > MAX_SOURCE_CHARS ==> *final(self) == *old(self) && (r matches Err(e) && (e.kind matches TbxError::InvalidArgument {
                message: m,
            } && m@ == "source text is too long"@)),
            src@.len() == 0 ==> r is Ok && *final(self) == *old(self),
            r matches Err(e) ==> !(e.kind is Halted),
        decreases budget, 6nat,
    {
        let cs = str_to_chars(src);
        if cs.len() > MAX_SOURCE_CHARS {
            return Err(
                InterpreterError::new(0, 0, "", TbxError::InvalidArgument { message: "source text is too long".to_owned() }),
            );
        }
        let mut reader = StatementReader::new(src);
        loop
            invariant
                self.wf(),
                self.use_state() == old(self).use_state(),
                reader.wf(),
                src@.len() <= MAX_SOURCE_CHARS,
                src@.len() == 0 ==> reader.remaining() == 0 && *self == *old(self),
            decreases reader.remaining(),
        {
            let stmt = match reader.next_statement() {
                Ok(Some(st)) => st,
                Ok(None) => {
                    return Ok(());
                },
                Err(e) => {
                    if self.vm.compile_state.is_some() {
                        self.vm.rollback_def();
                    }
                    return Err(InterpreterError::new(e.line, e.col, e.source_excerpt.as_str(), e.kind));
                },
            };
            match self.exec_logical_statement(stmt, budget) {
                Ok(()) => {},
                Err(e) => {
                    if matches!(e.kind, TbxError::Halted) {
                        return Ok(());
                    }
                    return Err(e);
                },
            }
        }
    }

    /// Register a statement's label (inside a definition); `None` when
    /// nothing is left to run.
    fn prepare_logical_statement(&mut self, stmt: LogicalStatement) -> (r: Result<Option<LogicalStatement>, InterpreterError>)
        requires
            old(self).wf(),
        ensures
            final(self).use_state() == old(self).use_state(),
            final(self).wf(),
            r matches Ok(Some(s)) ==> s.tokens@.len() > 0 && s.tokens == stmt.tokens && s.start_line == stmt.start_line,
            match (stmt.label, old(self).vm_state().compile_state) {
                (Some(n), Some(st)) => match crate::primitives::compile::label_lookup(st.label_table@, n) {
                    Some(_) => r matches Err(e) && e.kind == (TbxError::DuplicateLabel { label: n }) && e.line
                        == stmt.start_line && final(self).vm_state().compile_state is None,
                    None => r == (if stmt.tokens@.len() == 0 {
                        Ok::<Option<LogicalStatement>, InterpreterError>(None)
                    } else {
                        Ok(Some(stmt))
                    }) && (final(self).vm_state().compile_state matches Some(st2)
                        && crate::primitives::compile::label_lookup(st2.label_table@, n) == Some(
                        old(self).vm_state().dp,
                    )),
                },
                _ => r == (if stmt.tokens@.len() == 0 {
                    Ok::<Option<LogicalStatement>, InterpreterError>(None)
                } else {
                    Ok(Some(stmt))
                }) && *final(self) == *old(self),
            },
    {
        match stmt.label {
            Some(n) => {
                if self.vm.compile_state.is_some() {
                    if let Err(e) = crate::primitives::compile::register_label(&mut self.vm, n) {
                        self.vm.rollback_def();
                        return Err(
                            InterpreterError::new(stmt.start_line, stmt.start_col, stmt.source_excerpt.as_str(), e),
                        );
                    }
                }
            },
            None => {},
        }
        if stmt.tokens.len() == 0 {
            return Ok(None);
        }
        Ok(Some(stmt))
    }

    /// Run one logical statement.
    fn exec_logical_statement(&mut self, stmt: LogicalStatement, budget: usize) -> (r: Result<(), InterpreterError>)
        requires
            old(self).wf(),
        ensures
            final(self).use_state() == old(self).use_state(),
            final(self).wf(),
            (stmt.label is None || old(self).vm_state().compile_state is None) ==> if stmt.tokens@.len() == 0 {
                r is Ok && *final(self) == *old(self)
            } else {
                segment_head(stmt.tokens@) is None ==> r is Ok && *final(self) == *old(self)
            },
            stmt.label is None && stmt.tokens@.len() > 0 ==> segment_effect(
                old(self).vm_state(),
                final(self).vm_state(),
                stmt.tokens@,
                r,
            ),
            stmt.label matches Some(n) ==> (old(self).vm_state().compile_state matches Some(st) ==> (
            crate::primitives::compile::label_lookup(st.label_table@, n) is Some ==> (r matches Err(e) && e.kind
                == (TbxError::DuplicateLabel { label: n })))),
        decreases budget, 5nat,
    {
        let st = match self.prepare_logical_statement(stmt)? {
            Some(s) => s,
            None => {
                return Ok(());
            },
        };
        self.exec_segment(&st.tokens, &st.source_excerpt, st.start_line, budget)
    }

    /// Run one statement: an IMMEDIATE word runs now; inside a definition
    /// the statement is compiled into it; otherwise it is compiled into a
    /// temporary buffer, run, and the buffer is discarded.
    fn exec_segment(&mut self, tokens: &Vec<SpannedToken>, excerpt: &String, line: usize, budget: usize) -> (r: Result<(), InterpreterError>)
        requires
            old(self).wf(),
        ensures
            final(self).use_state() == old(self).use_state(),
            final(self).wf(),
            old(self).vm_state().compile_state matches Some(st) ==> (r is Err && !(tokens@.len() > 0
                && tokens@[0].token is Ident && lookup_immediate(old(self).vm_state(), tokens@[0].token))
                ==> final(self).vm_state().compile_state is None && !final(self).vm_state().is_compiling
                && final(self).vm_state().dp == st.dp_at_def
                && final(self).vm_state().headers@ == old(self).vm_state().headers@.take(st.hdr_len_at_def as int)
                && final(self).vm_state().latest == st.saved_latest),
            segment_head(tokens@) is None ==> r is Ok && *final(self) == *old(self),
            segment_effect(old(self).vm_state(), final(self).vm_state(), tokens@, r),
            ground_run(old(self).vm_state(), final(self).vm_state(), tokens@, r),
        decreases budget, 4nat,
    {
        if tokens.len() == 0 {
            return Ok(());
        }
        let raw = match &tokens[0].token {
            Token::Ident(n) => n.clone(),
            _ => {
                return Ok(());
            },
        };
        let col = tokens[0].pos.col;
        let name = upper_string(raw.as_str());
        if name == "REM".to_owned() {
            return Ok(());
        }
        let args = tokens_from(tokens, 1);
        proof {
            crate::vm::lemma_lookup_in_bounds(self.vm.headers@, self.vm.headers@.len() as int, name@, None, false);
        }
        match self.vm.lookup(name.as_str()) {
            Some(x) => {
                if self.vm.headers[x.0].flags & FLAG_IMMEDIATE != 0 {
                    return self.exec_immediate_word(x, &args, line, col, excerpt, budget);
                }
            },
            None => {},
        }
        if self.vm.compile_state.is_some() {
            let res = self.write_stmt_to_dict(&name, &args, line, col, excerpt);
            if res.is_err() {
                self.vm.rollback_def();
            }
            return res;
        }
        let buf_start = self.vm.dp;
        let ghost v0 = self.vm;
        if let Err(e) = self.write_stmt_to_dict(&name, &args, line, col, excerpt) {
            crate::exec::cut_dictionary(&mut self.vm, buf_start);
            assert(self.vm.output_buffer@ == v0.output_buffer@);
            return Err(e);
        }
        let exit = match self.vm.require_kind(crate::vm::SysKind::Exit, "EXIT") {
            Ok(x) => x,
            Err(e) => {
                crate::exec::cut_dictionary(&mut self.vm, buf_start);
                return Err(InterpreterError::new(line, col, excerpt.as_str(), e));
            },
        };
        if let Err(e) = self.vm.dict_write(Cell::Xt(exit)) {
            crate::exec::cut_dictionary(&mut self.vm, buf_start);
            return Err(InterpreterError::new(line, col, excerpt.as_str(), e));
        }
        let saved_stack = self.vm.data_stack.len();
        let saved_rs = self.vm.return_stack.len();
        let saved_bp = self.vm.bp;
        let ghost v2 = self.vm;
        let run_result = crate::exec::run(&mut self.vm, buf_start, RUN_DEPTH);
        let ghost v3 = self.vm;
        let ghost (t, pcs) = choose|t: Seq<VM>, pcs: Seq<usize>|
            crate::exec::run_trace(v2, buf_start, RUN_DEPTH, t, pcs) && crate::exec::run_end(t.last(), pcs.last(), v3, run_result, RUN_DEPTH, t.len());
        assert(buf_start == old(self).vm_state().dp);
        crate::exec::cut_dictionary(&mut self.vm, buf_start);
        match run_result {
            Ok(()) => {
                proof {
                    assert(crate::exec::run_trace(v2, old(self).vm_state().dp, RUN_DEPTH, t, pcs));
                    assert(ran_code(old(self).vm_state(), self.vm, Ok::<(), InterpreterError>(())));
                }
                Ok(())
            },
            Err(e) => {
                let frames = self.vm.stack_trace_frames();
                self.vm.data_stack.truncate(saved_stack);
                self.vm.return_stack.truncate(saved_rs);
                self.vm.bp = saved_bp;
                let res = Err(InterpreterError::with_call_stack(line, col, excerpt.as_str(), e, frames));
                proof {
                    if v2.return_stack@.len() < crate::constants::MAX_RETURN_STACK_DEPTH {
                        assert(crate::exec::run_trace(v2, old(self).vm_state().dp, RUN_DEPTH, t, pcs));
                        let a = old(self).vm_state();
                        let b = self.vm;
                        assert(v2.data_stack@ == a.data_stack@);
                        assert(b.output_buffer@ == v3.output_buffer@);
                        assert(b.arrays@ == v3.arrays@ && b.headers@ == v3.headers@);
                        assert(saved_stack == a.data_stack@.len());
                        assert(b.data_stack@ == (if a.data_stack@.len() < v3.data_stack@.len() {
                            v3.data_stack@.take(a.data_stack@.len() as int)
                        } else {
                            v3.data_stack@
                        }));
                        assert(crate::exec::run_end(t.last(), pcs.last(), v3, run_result, RUN_DEPTH, t.len()));
                        assert(ran_code(old(self).vm_state(), self.vm, res));
                    } else {
                        assert(self.vm.data_stack@ == old(self).vm_state().data_stack@);
                    }
                }
                res
            },
        }
    }
}

/// The code written at the dictionary pointer of `a` ran: the code, ended
/// by EXIT, is in the dictionary of `v2`, the inner interpreter ran it from
/// there (`run_trace`, `run_end`), and the data stack, output, arrays and
/// headers of `b` are those the run left (on a failed run the data stack is
/// cut back to its depth before).
pub open spec fn ran_code(a: VM, b: VM, r: Result<(), InterpreterError>) -> bool {
    exists|v2: VM, v3: VM, t: Seq<VM>, pcs: Seq<usize>, r0: Result<(), TbxError>|
        #![trigger crate::exec::run_trace(v2, a.dp, RUN_DEPTH, t, pcs), crate::exec::run_end(t.last(), pcs.last(), v3, r0, RUN_DEPTH, t.len())]
        v2.dp > a.dp && v2.dp <= v2.dictionary@.len() && v2.dictionary@[v2.dp - 1] == crate::primitives::compile::kind_xt(
            a,
            crate::vm::SysKind::Exit,
        ) && v2.data_stack@ == a.data_stack@ && v2.return_stack@ == a.return_stack@ && v2.bp == a.bp
            && crate::exec::run_trace(v2, a.dp, RUN_DEPTH, t, pcs) && crate::exec::run_end(
            t.last(),
            pcs.last(),
            v3,
            r0,
            RUN_DEPTH,
            t.len(),
        ) && b.output_buffer@ == v3.output_buffer@ && b.arrays@ == v3.arrays@ && b.headers@ == v3.headers@ && (r0 is Ok
            ==> r is Ok && b.data_stack@ == v3.data_stack@) && (r0 matches Err(e) ==> r matches Err(ie) && ie.kind == e
            && b.data_stack@ == (if a.data_stack@.len() < v3.data_stack@.len() {
            v3.data_stack@.take(a.data_stack@.len() as int)
        } else {
            v3.data_stack@
        }))
}

/// A ground call statement `tokens` (not IMMEDIATE, outside a definition)
/// runs its code; when it fails before running, the data stack and the
/// output are as they were.
pub open spec fn ground_run(a: VM, b: VM, tokens: Seq<SpannedToken>, r: Result<(), InterpreterError>) -> bool {
    (segment_head(tokens) is Some && !lookup_immediate(a, tokens[0].token) && a.compile_state is None) ==> (
    (r is Ok ==> ran_code(a, b, r)) && (r is Err ==> ran_code(a, b, r) || (b.data_stack@ == a.data_stack@
        && b.output_buffer@ == a.output_buffer@)))
}

/// Whether a statement name token names a visible IMMEDIATE word.
pub open spec fn lookup_immediate(vm: VM, t: Token) -> bool {
    match t {
        Token::Ident(n) => match crate::vm::lookup_in(vm.headers@, vm.headers@.len() as int, crate::text::upper_seq(n@), None, false) {
            Some(i) => crate::dict::has_flag(vm.headers@[i as int].flags, FLAG_IMMEDIATE),
            None => false,
        },
        _ => false,
    }
}


impl Interpreter {
    /// The USE nesting budget left at the current depth.
    fn use_budget(&self) -> (r: usize)
        ensures
            r == (if self.use_state().0 >= self.use_state().1 {
                self.use_state().0 - self.use_state().1
            } else {
                0
            }),
    {
        if self.max_use_depth >= self.use_depth {
            self.max_use_depth - self.use_depth
        } else {
            0
        }
    }

    /// Run one line of source (statements separated by `;`). Errors are
    /// reported at `absolute_line`. Only the first statement of the line can
    /// carry a line-number label.
    pub fn exec_line(&mut self, line: &str, absolute_line: usize) -> (r: Result<(), InterpreterError>)
        requires
            old(self).wf(),
        ensures
            final(self).use_state() == old(self).use_state(),
            final(self).wf(),
            line@.len() > MAX_SOURCE_CHARS ==> *final(self) == *old(self) && (r matches Err(e) && e.line
                == absolute_line && (e.kind matches TbxError::InvalidArgument { message: m } && m@
                == "source text is too long"@)),
            line@.len() == 0 ==> r is Ok && *final(self) == *old(self),
    {
        let cs = str_to_chars(line);
        if cs.len() > MAX_SOURCE_CHARS {
            return Err(
                InterpreterError::new(
                    absolute_line,
                    0,
                    "",
                    TbxError::InvalidArgument { message: "source text is too long".to_owned() },
                ),
            );
        }
        let budget = self.use_budget();
        let mut reader = StatementReader::new(line);
        let mut first = true;
        loop
            invariant
                self.wf(),
                self.use_state() == old(self).use_state(),
                reader.wf(),
                line@.len() <= MAX_SOURCE_CHARS,
                line@.len() == 0 ==> reader.remaining() == 0 && *self == *old(self),
            decreases reader.remaining(),
        {
            let stmt = match reader.next_statement() {
                Ok(Some(st)) => st,
                Ok(None) => {
                    return Ok(());
                },
                Err(e) => {
                    if self.vm.compile_state.is_some() {
                        self.vm.rollback_def();
                    }
                    return Err(InterpreterError::new(absolute_line, e.col, e.source_excerpt.as_str(), e.kind));
                },
            };
            let mut st = stmt;
            st.start_line = absolute_line;
            st.end_line = absolute_line;
            if !first {
                st = restore_nonleading_exec_line_label(st, absolute_line);
            }
            first = false;
            self.exec_logical_statement(st, budget)?;
        }
    }

    /// Run a multi-line source text, statement by statement; stops at the
    /// first error. HALT ends it normally.
    pub fn exec_source(&mut self, src: &str) -> (r: Result<(), InterpreterError>)
        requires
            old(self).wf(),
        ensures
            final(self).use_state() == old(self).use_state(),
            final(self).wf(),
            r matches Err(e) ==> !(e.kind is Halted),
            src@.len() > MAX_SOURCE_CHARS ==> *final(self) == *old(self) && (r matches Err(e) && (e.kind matches TbxError::InvalidArgument {
                message: m,
            } && m@ == "source text is too long"@)),
            src@.len() == 0 ==> r is Ok && *final(self) == *old(self),
    {
        let budget = self.use_budget();
        let r = self.exec_source_inner(src, budget);
        match r {
            Err(e) => {
                if matches!(e.kind, TbxError::Halted) {
                    Ok(())
                } else {
                    Err(e)
                }
            },
            Ok(()) => Ok(()),
        }
    }

    /// Process one statement of a program: definitions are compiled as
    /// usual; a ground-level statement is compiled and its code appended
    /// to the main code.
    fn compile_program_segment(
        &mut self,
        tokens: &Vec<SpannedToken>,
        excerpt: &String,
        main_cells: &mut Vec<Cell>,
        positions: &mut Vec<StmtPosition>,
        line: usize,
        budget: usize,
    ) -> (r: Result<(), InterpreterError>)
        requires
            old(self).wf(),
        ensures
            final(self).use_state() == old(self).use_state(),
            final(self).wf(),
            final(main_cells)@.len() >= old(main_cells)@.len(),
            final(main_cells)@.take(old(main_cells)@.len() as int) == old(main_cells)@,
            segment_head(tokens@) is None ==> r is Ok && *final(self) == *old(self) && final(main_cells)@
                == old(main_cells)@ && final(positions)@ == old(positions)@,
            segment_head(tokens@) matches Some(name) ==> (!lookup_immediate(old(self).vm_state(), tokens@[0].token) ==> if old(
                self,
            ).vm_state().compile_state is Some {
                call_stmt_outcome(
                    old(self).vm_state(),
                    final(self).vm_state(),
                    name,
                    tokens@.subrange(1, tokens@.len() as int),
                    r,
                ) && final(main_cells)@ == old(main_cells)@ && final(positions)@ == old(positions)@
            } else {
                call_stmt_refused(old(self).vm_state(), name, tokens@.subrange(1, tokens@.len() as int), r) && (r is Ok
                    ==> (stmt_target(old(self).vm_state(), name) matches Some(x) && (exists|code: Seq<Cell>|
                    #[trigger] call_stmt_code(
                        old(self).vm_state(),
                        x,
                        stmt_arity(tokens@.subrange(1, tokens@.len() as int)),
                        code,
                    ) == final(main_cells)@.skip(old(main_cells)@.len() as int)) && final(self).vm_state().dp
                    == old(self).vm_state().dp && final(self).vm_state().dictionary@ == old(
                    self,
                ).vm_state().dictionary@.take(old(self).vm_state().dp as int) && final(positions)@.len()
                    == old(positions)@.len() + 1 && final(positions)@.last().offset == old(main_cells)@.len()
                    && final(positions)@.last().line == line)) && (crate::expr::flat_arith(
                    tokens@.subrange(1, tokens@.len() as int),
                ) ==> (r is Ok ==> (stmt_target(old(self).vm_state(), name) matches Some(x) && call_stmt_code(
                    old(self).vm_state(),
                    x,
                    stmt_arity(tokens@.subrange(1, tokens@.len() as int)),
                    crate::expr::flat_code(old(self).vm_state(), tokens@.subrange(1, tokens@.len() as int)),
                ) == final(main_cells)@.skip(old(main_cells)@.len() as int))))
            }),
    {
        if tokens.len() == 0 {
            return Ok(());
        }
        let raw = match &tokens[0].token {
            Token::Ident(n) => n.clone(),
            _ => {
                return Ok(());
            },
        };
        let col = tokens[0].pos.col;
        let name = upper_string(raw.as_str());
        if name == "REM".to_owned() {
            return Ok(());
        }
        let args = tokens_from(tokens, 1);
        proof {
            crate::vm::lemma_lookup_in_bounds(self.vm.headers@, self.vm.headers@.len() as int, name@, None, false);
        }
        match self.vm.lookup(name.as_str()) {
            Some(x) => {
                if self.vm.headers[x.0].flags & FLAG_IMMEDIATE != 0 {
                    return self.exec_immediate_word(x, &args, line, col, excerpt, budget);
                }
            },
            None => {},
        }
        if self.vm.compile_state.is_some() {
            let res = self.write_stmt_to_dict(&name, &args, line, col, excerpt);
            if res.is_err() {
                self.vm.rollback_def();
            }
            return res;
        }
        let buf_start = self.vm.dp;
        if let Err(e) = self.write_stmt_to_dict(&name, &args, line, col, excerpt) {
            crate::exec::cut_dictionary(&mut self.vm, buf_start);
            return Err(e);
        }
        let offset = main_cells.len();
        let ghost m0 = main_cells@;
        let ghost v1 = self.vm;
        let mut i: usize = buf_start;
        while i < self.vm.dp
            invariant
                self.wf(),
                self.use_state() == old(self).use_state(),
                self.vm == v1,
                buf_start <= i <= v1.dp,
                v1.dp <= v1.dictionary@.len(),
                main_cells@.len() >= m0.len(),
                main_cells@.take(m0.len() as int) == m0,
                main_cells@ == m0 + v1.dictionary@.subrange(buf_start as int, i as int),
            decreases self.vm.dp - i,
        {
            let ghost m1 = main_cells@;
            main_cells.push(self.vm.dictionary[i].dup());
            assert(main_cells@.take(m0.len() as int) =~= m1.take(m0.len() as int));
            assert(main_cells@ =~= m0 + v1.dictionary@.subrange(buf_start as int, i + 1));
            i = i + 1;
        }
        proof {
            let x = stmt_target(old(self).vm_state(), name@).unwrap();
            let args_s = tokens@.subrange(1, tokens@.len() as int);
            let code = choose|code: Seq<Cell>|
                #[trigger] emitted(old(self).vm_state(), v1, call_stmt_code(old(self).vm_state(), x, stmt_arity(args_s), code));
            let full = call_stmt_code(old(self).vm_state(), x, stmt_arity(args_s), code);
            let a = old(self).vm_state();
            assert(emitted(a, v1, full));
            assert(a.dp == buf_start);
            assert forall|k: int| 0 <= k < full.len() implies v1.dictionary@.subrange(buf_start as int, v1.dp as int)[k]
                == full[k] by {
                assert(v1.dictionary@[a.dp + k] == full[k]);
            }
            assert(v1.dictionary@.subrange(buf_start as int, v1.dp as int) =~= full);
            assert(main_cells@.skip(m0.len() as int) =~= full);
            if crate::expr::flat_arith(args_s) {
                let ff = call_stmt_code(a, x, stmt_arity(args_s), crate::expr::flat_code(a, args_s));
                assert(emitted(a, v1, ff));
                assert forall|k: int| 0 <= k < ff.len() implies v1.dictionary@.subrange(buf_start as int, v1.dp as int)[k]
                    == ff[k] by {
                    assert(v1.dictionary@[a.dp + k] == ff[k]);
                }
                assert(main_cells@.skip(m0.len() as int) =~= ff);
            }
        }
        crate::exec::cut_dictionary(&mut self.vm, buf_start);
        proof {
            let a = old(self).vm_state();
            assert forall|k: int| 0 <= k < buf_start implies #[trigger] v1.dictionary@[k] == a.dictionary@[k] by {
                let x = stmt_target(a, name@).unwrap();
                let args_s = tokens@.subrange(1, tokens@.len() as int);
                let code = choose|code: Seq<Cell>|
                    #[trigger] emitted(a, v1, call_stmt_code(a, x, stmt_arity(args_s), code));
                assert(emitted(a, v1, call_stmt_code(a, x, stmt_arity(args_s), code)));
            }
            assert(self.vm.dictionary@ =~= old(self).vm_state().dictionary@.take(buf_start as int));
        }
        if main_cells.len() > offset {
            positions.push(StmtPosition { offset, line, col, source_excerpt: excerpt.clone() });
        }
        Ok(())
    }

    /// Compile and run a whole program: definitions are compiled as they
    /// come, ground-level statements are collected and run together at the
    /// end. HALT ends the program normally; a definition left open at the
    /// end is an error.
    pub fn compile_program(&mut self, source: &str) -> (r: Result<(), InterpreterError>)
        requires
            old(self).wf(),
        ensures
            final(self).use_state() == old(self).use_state(),
            final(self).wf(),
            source@.len() > MAX_SOURCE_CHARS ==> *final(self) == *old(self) && (r matches Err(e) && (e.kind matches TbxError::InvalidArgument {
                message: m,
            } && m@ == "source text is too long"@)),
    {
        let cs = str_to_chars(source);
        if cs.len() > MAX_SOURCE_CHARS {
            return Err(
                InterpreterError::new(0, 0, "", TbxError::InvalidArgument { message: "source text is too long".to_owned() }),
            );
        }
        let budget = self.use_budget();
        let mut main_cells: Vec<Cell> = Vec::new();
        let mut positions: Vec<StmtPosition> = Vec::new();
        let mut reader = StatementReader::new(source);
        loop
            invariant
                self.wf(),
                self.use_state() == old(self).use_state(),
                reader.wf(),
                source@.len() <= MAX_SOURCE_CHARS,
            decreases reader.remaining(),
        {
            let stmt = match reader.next_statement() {
                Ok(Some(st)) => st,
                Ok(None) => {
                    break ;
                },
                Err(e) => {
                    if self.vm.compile_state.is_some() {
                        self.vm.rollback_def();
                    }
                    return Err(InterpreterError::new(e.line, e.col, e.source_excerpt.as_str(), e.kind));
                },
            };
            let start_line = stmt.start_line;
            let st = match self.prepare_logical_statement(stmt) {
                Ok(Some(s)) => s,
                Ok(None) => {
                    continue ;
                },
                Err(e) => {
                    return Err(e);
                },
            };
            let was_compiling = self.vm.compile_state.is_some();
            let res = self.compile_program_segment(
                &st.tokens,
                &st.source_excerpt,
                &mut main_cells,
                &mut positions,
                start_line,
                budget,
            );
            if let Err(e) = res {
                return Err(e);
            }
            if !was_compiling {
                match self.vm.compile_state.take() {
                    Some(mut cst) => {
                        cst.start_line = start_line;
                        self.vm.compile_state = Some(cst);
                    },
                    None => {},
                }
            }
        }
        match &self.vm.compile_state {
            Some(cst) => {
                let word = cst.word_name.clone();
                let def_line = cst.start_line;
                self.vm.rollback_def();
                let excerpt = crate::text::concat_strings("DEF ", word.as_str());
                return Err(
                    InterpreterError::new(
                        def_line,
                        0,
                        excerpt.as_str(),
                        TbxError::InvalidExpression { reason: "DEF without matching END at end of source" },
                    ),
                );
            },
            None => {},
        }
        if main_cells.len() == 0 {
            return Ok(());
        }
        let main_start = self.vm.dp;
        let mut i: usize = 0;
        while i < main_cells.len()
            invariant
                source@.len() <= MAX_SOURCE_CHARS,
                self.wf(),
                self.use_state() == old(self).use_state(),
            decreases main_cells@.len() - i,
        {
            if let Err(e) = self.vm.dict_write(main_cells[i].dup()) {
                crate::exec::cut_dictionary(&mut self.vm, main_start);
                return Err(InterpreterError::new(0, 0, "", e));
            }
            i = i + 1;
        }
        let exit = match self.vm.require_kind(crate::vm::SysKind::Exit, "EXIT") {
            Ok(x) => x,
            Err(e) => {
                crate::exec::cut_dictionary(&mut self.vm, main_start);
                return Err(InterpreterError::new(0, 0, "", e));
            },
        };
        if let Err(e) = self.vm.dict_write(Cell::Xt(exit)) {
            crate::exec::cut_dictionary(&mut self.vm, main_start);
            return Err(InterpreterError::new(0, 0, "", e));
        }
        let saved_stack = self.vm.data_stack.len();
        let saved_rs = self.vm.return_stack.len();
        let saved_bp = self.vm.bp;
        let main_len = if self.vm.dp >= main_start { self.vm.dp - main_start } else { 0 };
        let run_result = crate::exec::run(&mut self.vm, main_start, RUN_DEPTH);
        let error_pc = self.vm.pc;
        crate::exec::cut_dictionary(&mut self.vm, main_start);
        match run_result {
            Ok(()) => Ok(()),
            Err(TbxError::Halted) => {
                self.vm.data_stack.truncate(saved_stack);
                self.vm.return_stack.truncate(saved_rs);
                self.vm.bp = saved_bp;
                Ok(())
            },
            Err(e) => {
                let (l, c, src) = resolve_source_pos(error_pc, &self.vm.return_stack, main_start, main_len, &positions);
                let frames = self.vm.stack_trace_frames();
                self.vm.data_stack.truncate(saved_stack);
                self.vm.return_stack.truncate(saved_rs);
                self.vm.bp = saved_bp;
                Err(InterpreterError::with_call_stack(l, c, src.as_str(), e, frames))
            },
        }
    }
}

} // verus!
