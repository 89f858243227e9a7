//! The system word table: the headers that `register_all` and
//! `register_standard_words` write, row by row.
use vstd::prelude::*;
use crate::cell::{Cell, Xt};
use crate::dict::{EntryKind, Prim, WordEntry, FLAG_IMMEDIATE, FLAG_SYSTEM, FLAG_HIDDEN};
use crate::vm::{VM, MAX_HEADERS};
use crate::exec::only_headers_changed;

verus! {

/// Number of words that `register_all` registers.
pub const SYSTEM_WORD_COUNT: usize = 96;

/// Number of words that `register_standard_words` registers.
pub const STANDARD_WORD_COUNT: usize = 11;

/// A header holds the row (name, how the word runs, flags) of a word table,
/// with no parameters or locals.
pub open spec fn entry_is(e: WordEntry, row: (Seq<char>, EntryKind, u8)) -> bool {
    &&& e.name@ == row.0
    &&& e.kind == row.1
    &&& e.flags == row.2
    &&& e.arity == 0
    &&& e.local_count == 0
    &&& !e.is_variadic
}

/// The headers from index `at` on hold the rows of `rows`, in order.
pub open spec fn registered(h: Seq<WordEntry>, at: int, rows: Seq<(Seq<char>, EntryKind, u8)>) -> bool {
    &&& 0 <= at
    &&& at + rows.len() <= h.len()
    &&& forall|i: int| 0 <= i < rows.len() ==> entry_is(h[at + i], #[trigger] rows[i])
}

/// Headers kept as a prefix keep what they held.
pub proof fn lemma_registered_prefix(h0: Seq<WordEntry>, h1: Seq<WordEntry>, at: int, rows: Seq<(Seq<char>, EntryKind, u8)>)
    requires
        registered(h0, at, rows),
        h1.len() >= h0.len(),
        h1.take(h0.len() as int) == h0,
    ensures
        registered(h1, at, rows),
{
    assert forall|i: int| 0 <= i < rows.len() implies entry_is(h1[at + i], #[trigger] rows[i]) by {
        assert(h1.take(h0.len() as int)[at + i] == h1[at + i]);
    }
}

/// Two tables written one after the other form their concatenation.
proof fn lemma_registered_concat(
    h: Seq<WordEntry>,
    at: int,
    a: Seq<(Seq<char>, EntryKind, u8)>,
    b: Seq<(Seq<char>, EntryKind, u8)>,
)
    requires
        registered(h, at, a),
        registered(h, at + a.len(), b),
    ensures
        registered(h, at, a + b),
{
    assert forall|i: int| 0 <= i < (a + b).len() implies entry_is(h[at + i], #[trigger] (a + b)[i]) by {
        if i < a.len() {
            assert(entry_is(h[at + i], a[i]));
        } else {
            let j = i - a.len();
            assert(entry_is(h[at + a.len() + j], b[j]));
            assert(at + a.len() + j == at + i);
        }
    }
}

/// Register the row `rows[k]` (name, kind, flags) of a table that starts at
/// header `at`, where `k` is the number of rows already written.
fn reg_row(
    vm: &mut VM,
    name: &str,
    kind: EntryKind,
    flags: u8,
    Ghost(at): Ghost<int>,
    Ghost(rows): Ghost<Seq<(Seq<char>, EntryKind, u8)>>,
) -> (r: Xt)
    requires
        old(vm).wf(),
        old(vm).headers@.len() < MAX_HEADERS,
        at <= old(vm).headers@.len() < at + rows.len(),
        registered(old(vm).headers@, at, rows.take(old(vm).headers@.len() - at)),
        rows[old(vm).headers@.len() - at] == (name@, kind, flags),
    ensures
        final(vm).wf(),
        only_headers_changed(*old(vm), *final(vm)),
        final(vm).headers@.len() == old(vm).headers@.len() + 1,
        final(vm).headers@.take(old(vm).headers@.len() as int) == old(vm).headers@,
        registered(final(vm).headers@, at, rows.take(final(vm).headers@.len() - at)),
        r == Xt(old(vm).headers@.len() as usize),
{
    let ghost h0 = vm.headers@;
    let ghost k = h0.len() - at;
    let x = match vm.register(WordEntry::new_system(name, kind, flags)) {
        Ok(x) => x,
        Err(_) => {
            return Xt(0);
        },
    };
    proof {
        let h1 = vm.headers@;
        assert(h1.take(h0.len() as int) =~= h0);
        assert forall|i: int| 0 <= i < rows.take(k + 1).len() implies entry_is(h1[at + i], #[trigger] rows.take(k + 1)[i]) by {
            if i < k {
                assert(rows.take(k)[i] == rows[i]);
                assert(entry_is(h0[at + i], rows.take(k)[i]));
            }
        }
    }
    x
}


/// Rows 0..11 of the system word table (DROP .. EQ), for a table part that
/// starts at header `at`.
pub open spec fn group_1_rows(at: int) -> Seq<(Seq<char>, EntryKind, u8)> {
    seq![
        ("DROP"@, EntryKind::Primitive(Prim::Drop), 0u8),
        ("DUP"@, EntryKind::Primitive(Prim::Dup), 0u8),
        ("SWAP"@, EntryKind::Primitive(Prim::Swap), 0u8),
        ("FETCH"@, EntryKind::Primitive(Prim::Fetch), 0u8),
        ("STORE"@, EntryKind::Primitive(Prim::Store), 0u8),
        ("SET"@, EntryKind::Primitive(Prim::SetValue), 0u8),
        ("ADD"@, EntryKind::Primitive(Prim::Add), 0u8),
        ("SUB"@, EntryKind::Primitive(Prim::Sub), 0u8),
        ("MUL"@, EntryKind::Primitive(Prim::Mul), 0u8),
        ("DIV"@, EntryKind::Primitive(Prim::Div), 0u8),
        ("MOD"@, EntryKind::Primitive(Prim::Mod), 0u8),
        ("EQ"@, EntryKind::Primitive(Prim::Eq), 0u8),
    ]
}

fn reg_group_1(vm: &mut VM)
    requires
        old(vm).wf(),
        old(vm).headers@.len() + 12 <= MAX_HEADERS,
    ensures
        final(vm).wf(),
        only_headers_changed(*old(vm), *final(vm)),
        final(vm).headers@.len() == old(vm).headers@.len() + 12,
        final(vm).headers@.take(old(vm).headers@.len() as int) == old(vm).headers@,
        registered(final(vm).headers@, old(vm).headers@.len() as int, group_1_rows(old(vm).headers@.len() as int)),
{
    let ghost h0 = vm.headers@;
    let ghost at = h0.len() as int;
    let ghost rows = group_1_rows(at);
    proof {
        assert(rows.take(0) =~= Seq::<(Seq<char>, EntryKind, u8)>::empty());
    }
    reg_row(vm, "DROP", EntryKind::Primitive(Prim::Drop), 0, Ghost(at), Ghost(rows));
    reg_row(vm, "DUP", EntryKind::Primitive(Prim::Dup), 0, Ghost(at), Ghost(rows));
    reg_row(vm, "SWAP", EntryKind::Primitive(Prim::Swap), 0, Ghost(at), Ghost(rows));
    reg_row(vm, "FETCH", EntryKind::Primitive(Prim::Fetch), 0, Ghost(at), Ghost(rows));
    reg_row(vm, "STORE", EntryKind::Primitive(Prim::Store), 0, Ghost(at), Ghost(rows));
    reg_row(vm, "SET", EntryKind::Primitive(Prim::SetValue), 0, Ghost(at), Ghost(rows));
    reg_row(vm, "ADD", EntryKind::Primitive(Prim::Add), 0, Ghost(at), Ghost(rows));
    reg_row(vm, "SUB", EntryKind::Primitive(Prim::Sub), 0, Ghost(at), Ghost(rows));
    reg_row(vm, "MUL", EntryKind::Primitive(Prim::Mul), 0, Ghost(at), Ghost(rows));
    reg_row(vm, "DIV", EntryKind::Primitive(Prim::Div), 0, Ghost(at), Ghost(rows));
    reg_row(vm, "MOD", EntryKind::Primitive(Prim::Mod), 0, Ghost(at), Ghost(rows));
    reg_row(vm, "EQ", EntryKind::Primitive(Prim::Eq), 0, Ghost(at), Ghost(rows));
    proof {
        assert(rows.take(12) =~= rows);
        assert(vm.headers@.take(at) =~= h0);
    }
}


/// Rows 12..23 of the system word table (NEQ .. PUTSTR), for a table part that
/// starts at header `at`.
pub open spec fn group_2_rows(at: int) -> Seq<(Seq<char>, EntryKind, u8)> {
    seq![
        ("NEQ"@, EntryKind::Primitive(Prim::Neq), 0u8),
        ("LT"@, EntryKind::Primitive(Prim::Lt), 0u8),
        ("GT"@, EntryKind::Primitive(Prim::Gt), 0u8),
        ("LE"@, EntryKind::Primitive(Prim::Le), 0u8),
        ("GE"@, EntryKind::Primitive(Prim::Ge), 0u8),
        ("AND"@, EntryKind::Primitive(Prim::And), 0u8),
        ("OR"@, EntryKind::Primitive(Prim::Or), 0u8),
        ("BAND"@, EntryKind::Primitive(Prim::Band), 0u8),
        ("BOR"@, EntryKind::Primitive(Prim::Bor), 0u8),
        ("NEGATE"@, EntryKind::Primitive(Prim::Negate), 0u8),
        ("INT"@, EntryKind::Primitive(Prim::IntConv), 0u8),
        ("PUTSTR"@, EntryKind::Primitive(Prim::PutStr), 0u8),
    ]
}

fn reg_group_2(vm: &mut VM)
    requires
        old(vm).wf(),
        old(vm).headers@.len() + 12 <= MAX_HEADERS,
    ensures
        final(vm).wf(),
        only_headers_changed(*old(vm), *final(vm)),
        final(vm).headers@.len() == old(vm).headers@.len() + 12,
        final(vm).headers@.take(old(vm).headers@.len() as int) == old(vm).headers@,
        registered(final(vm).headers@, old(vm).headers@.len() as int, group_2_rows(old(vm).headers@.len() as int)),
{
    let ghost h0 = vm.headers@;
    let ghost at = h0.len() as int;
    let ghost rows = group_2_rows(at);
    proof {
        assert(rows.take(0) =~= Seq::<(Seq<char>, EntryKind, u8)>::empty());
    }
    reg_row(vm, "NEQ", EntryKind::Primitive(Prim::Neq), 0, Ghost(at), Ghost(rows));
    reg_row(vm, "LT", EntryKind::Primitive(Prim::Lt), 0, Ghost(at), Ghost(rows));
    reg_row(vm, "GT", EntryKind::Primitive(Prim::Gt), 0, Ghost(at), Ghost(rows));
    reg_row(vm, "LE", EntryKind::Primitive(Prim::Le), 0, Ghost(at), Ghost(rows));
    reg_row(vm, "GE", EntryKind::Primitive(Prim::Ge), 0, Ghost(at), Ghost(rows));
    reg_row(vm, "AND", EntryKind::Primitive(Prim::And), 0, Ghost(at), Ghost(rows));
    reg_row(vm, "OR", EntryKind::Primitive(Prim::Or), 0, Ghost(at), Ghost(rows));
    reg_row(vm, "BAND", EntryKind::Primitive(Prim::Band), 0, Ghost(at), Ghost(rows));
    reg_row(vm, "BOR", EntryKind::Primitive(Prim::Bor), 0, Ghost(at), Ghost(rows));
    reg_row(vm, "NEGATE", EntryKind::Primitive(Prim::Negate), 0, Ghost(at), Ghost(rows));
    reg_row(vm, "INT", EntryKind::Primitive(Prim::IntConv), 0, Ghost(at), Ghost(rows));
    reg_row(vm, "PUTSTR", EntryKind::Primitive(Prim::PutStr), 0, Ghost(at), Ghost(rows));
    proof {
        assert(rows.take(12) =~= rows);
        assert(vm.headers@.take(at) =~= h0);
    }
}


/// Rows 24..35 of the system word table (GET_OUTPUT .. PUTVAL), for a table part that
/// starts at header `at`.
pub open spec fn group_3_rows(at: int) -> Seq<(Seq<char>, EntryKind, u8)> {
    seq![
        ("GET_OUTPUT"@, EntryKind::Primitive(Prim::GetOutput), 0u8),
        ("STR"@, EntryKind::Primitive(Prim::Str), 0u8),
        ("STR_CONCAT"@, EntryKind::Primitive(Prim::StrConcat), 0u8),
        ("STR_LEN"@, EntryKind::Primitive(Prim::StrLen), 0u8),
        ("STR_EQ"@, EntryKind::Primitive(Prim::StrEq), 0u8),
        ("STR_TRIM"@, EntryKind::Primitive(Prim::StrTrim), 0u8),
        ("STR_UPPER"@, EntryKind::Primitive(Prim::StrUpper), 0u8),
        ("STR_LOWER"@, EntryKind::Primitive(Prim::StrLower), 0u8),
        ("PUTCHR"@, EntryKind::Primitive(Prim::PutChr), 0u8),
        ("PUTDEC"@, EntryKind::Primitive(Prim::PutDec), 0u8),
        ("PUTHEX"@, EntryKind::Primitive(Prim::PutHex), 0u8),
        ("PUTVAL"@, EntryKind::Primitive(Prim::PutVal), 0u8),
    ]
}

fn reg_group_3(vm: &mut VM)
    requires
        old(vm).wf(),
        old(vm).headers@.len() + 12 <= MAX_HEADERS,
    ensures
        final(vm).wf(),
        only_headers_changed(*old(vm), *final(vm)),
        final(vm).headers@.len() == old(vm).headers@.len() + 12,
        final(vm).headers@.take(old(vm).headers@.len() as int) == old(vm).headers@,
        registered(final(vm).headers@, old(vm).headers@.len() as int, group_3_rows(old(vm).headers@.len() as int)),
{
    let ghost h0 = vm.headers@;
    let ghost at = h0.len() as int;
    let ghost rows = group_3_rows(at);
    proof {
        assert(rows.take(0) =~= Seq::<(Seq<char>, EntryKind, u8)>::empty());
    }
    reg_row(vm, "GET_OUTPUT", EntryKind::Primitive(Prim::GetOutput), 0, Ghost(at), Ghost(rows));
    reg_row(vm, "STR", EntryKind::Primitive(Prim::Str), 0, Ghost(at), Ghost(rows));
    reg_row(vm, "STR_CONCAT", EntryKind::Primitive(Prim::StrConcat), 0, Ghost(at), Ghost(rows));
    reg_row(vm, "STR_LEN", EntryKind::Primitive(Prim::StrLen), 0, Ghost(at), Ghost(rows));
    reg_row(vm, "STR_EQ", EntryKind::Primitive(Prim::StrEq), 0, Ghost(at), Ghost(rows));
    reg_row(vm, "STR_TRIM", EntryKind::Primitive(Prim::StrTrim), 0, Ghost(at), Ghost(rows));
    reg_row(vm, "STR_UPPER", EntryKind::Primitive(Prim::StrUpper), 0, Ghost(at), Ghost(rows));
    reg_row(vm, "STR_LOWER", EntryKind::Primitive(Prim::StrLower), 0, Ghost(at), Ghost(rows));
    reg_row(vm, "PUTCHR", EntryKind::Primitive(Prim::PutChr), 0, Ghost(at), Ghost(rows));
    reg_row(vm, "PUTDEC", EntryKind::Primitive(Prim::PutDec), 0, Ghost(at), Ghost(rows));
    reg_row(vm, "PUTHEX", EntryKind::Primitive(Prim::PutHex), 0, Ghost(at), Ghost(rows));
    reg_row(vm, "PUTVAL", EntryKind::Primitive(Prim::PutVal), 0, Ghost(at), Ghost(rows));
    proof {
        assert(rows.take(12) =~= rows);
        assert(vm.headers@.take(at) =~= h0);
    }
}


/// Rows 36..47 of the system word table (GETDEC .. RETURN_VAL), for a table part that
/// starts at header `at`.
pub open spec fn group_4_rows(at: int) -> Seq<(Seq<char>, EntryKind, u8)> {
    seq![
        ("GETDEC"@, EntryKind::Primitive(Prim::GetDec), 0u8),
        ("GETSTR"@, EntryKind::Primitive(Prim::GetStr), 0u8),
        ("APPEND"@, EntryKind::Primitive(Prim::Append), 0u8),
        ("ALLOT"@, EntryKind::Primitive(Prim::Allot), 0u8),
        ("HERE"@, EntryKind::Primitive(Prim::Here), 0u8),
        ("STATE"@, EntryKind::Primitive(Prim::State), 0u8),
        ("HALT"@, EntryKind::Primitive(Prim::Halt), 0u8),
        ("ASSERT_FAIL"@, EntryKind::Primitive(Prim::AssertFail), 0u8),
        ("ASSERT_FAIL_MSG"@, EntryKind::Primitive(Prim::AssertFailMsg), 0u8),
        ("CALL"@, EntryKind::Call, (FLAG_SYSTEM)),
        ("EXIT"@, EntryKind::Exit, (FLAG_SYSTEM)),
        ("RETURN_VAL"@, EntryKind::ReturnVal, (FLAG_SYSTEM)),
    ]
}

fn reg_group_4(vm: &mut VM)
    requires
        old(vm).wf(),
        old(vm).headers@.len() + 12 <= MAX_HEADERS,
    ensures
        final(vm).wf(),
        only_headers_changed(*old(vm), *final(vm)),
        final(vm).headers@.len() == old(vm).headers@.len() + 12,
        final(vm).headers@.take(old(vm).headers@.len() as int) == old(vm).headers@,
        registered(final(vm).headers@, old(vm).headers@.len() as int, group_4_rows(old(vm).headers@.len() as int)),
{
    let ghost h0 = vm.headers@;
    let ghost at = h0.len() as int;
    let ghost rows = group_4_rows(at);
    proof {
        assert(rows.take(0) =~= Seq::<(Seq<char>, EntryKind, u8)>::empty());
    }
    reg_row(vm, "GETDEC", EntryKind::Primitive(Prim::GetDec), 0, Ghost(at), Ghost(rows));
    reg_row(vm, "GETSTR", EntryKind::Primitive(Prim::GetStr), 0, Ghost(at), Ghost(rows));
    reg_row(vm, "APPEND", EntryKind::Primitive(Prim::Append), 0, Ghost(at), Ghost(rows));
    reg_row(vm, "ALLOT", EntryKind::Primitive(Prim::Allot), 0, Ghost(at), Ghost(rows));
    reg_row(vm, "HERE", EntryKind::Primitive(Prim::Here), 0, Ghost(at), Ghost(rows));
    reg_row(vm, "STATE", EntryKind::Primitive(Prim::State), 0, Ghost(at), Ghost(rows));
    reg_row(vm, "HALT", EntryKind::Primitive(Prim::Halt), 0, Ghost(at), Ghost(rows));
    reg_row(vm, "ASSERT_FAIL", EntryKind::Primitive(Prim::AssertFail), 0, Ghost(at), Ghost(rows));
    reg_row(vm, "ASSERT_FAIL_MSG", EntryKind::Primitive(Prim::AssertFailMsg), 0, Ghost(at), Ghost(rows));
    reg_row(vm, "CALL", EntryKind::Call, FLAG_SYSTEM, Ghost(at), Ghost(rows));
    reg_row(vm, "EXIT", EntryKind::Exit, FLAG_SYSTEM, Ghost(at), Ghost(rows));
    reg_row(vm, "RETURN_VAL", EntryKind::ReturnVal, FLAG_SYSTEM, Ghost(at), Ghost(rows));
    proof {
        assert(rows.take(12) =~= rows);
        assert(vm.headers@.take(at) =~= h0);
    }
}


/// Rows 48..59 of the system word table (DROP_TO_MARKER .. IMMEDIATE), for a table part that
/// starts at header `at`.
pub open spec fn group_5_rows(at: int) -> Seq<(Seq<char>, EntryKind, u8)> {
    seq![
        ("DROP_TO_MARKER"@, EntryKind::DropToMarker, (FLAG_SYSTEM)),
        ("GOTO"@, EntryKind::Goto, (FLAG_SYSTEM)),
        ("BIF"@, EntryKind::BranchIfFalse, (FLAG_SYSTEM)),
        ("BIT"@, EntryKind::BranchIfTrue, (FLAG_SYSTEM)),
        ("JUMP_FALSE"@, EntryKind::Constant(Cell::Xt(Xt((at + 2) as usize))), 0u8),
        ("JUMP_TRUE"@, EntryKind::Constant(Cell::Xt(Xt((at + 3) as usize))), 0u8),
        ("JUMP_ALWAYS"@, EntryKind::Constant(Cell::Xt(Xt((at + 1) as usize))), 0u8),
        ("LIT_MARKER"@, EntryKind::Primitive(Prim::LitMarker), (FLAG_SYSTEM)),
        ("LIT"@, EntryKind::Lit, (FLAG_SYSTEM)),
        ("LITERAL"@, EntryKind::Primitive(Prim::Literal), 0u8),
        ("HEADER"@, EntryKind::Primitive(Prim::Header), (FLAG_IMMEDIATE | FLAG_SYSTEM)),
        ("IMMEDIATE"@, EntryKind::Primitive(Prim::Immediate), (FLAG_IMMEDIATE | FLAG_SYSTEM)),
    ]
}

fn reg_group_5(vm: &mut VM)
    requires
        old(vm).wf(),
        old(vm).headers@.len() + 12 <= MAX_HEADERS,
    ensures
        final(vm).wf(),
        only_headers_changed(*old(vm), *final(vm)),
        final(vm).headers@.len() == old(vm).headers@.len() + 12,
        final(vm).headers@.take(old(vm).headers@.len() as int) == old(vm).headers@,
        registered(final(vm).headers@, old(vm).headers@.len() as int, group_5_rows(old(vm).headers@.len() as int)),
{
    let ghost h0 = vm.headers@;
    let ghost at = h0.len() as int;
    let ghost rows = group_5_rows(at);
    proof {
        assert(rows.take(0) =~= Seq::<(Seq<char>, EntryKind, u8)>::empty());
    }
    reg_row(vm, "DROP_TO_MARKER", EntryKind::DropToMarker, FLAG_SYSTEM, Ghost(at), Ghost(rows));
    let goto_x = reg_row(vm, "GOTO", EntryKind::Goto, FLAG_SYSTEM, Ghost(at), Ghost(rows));
    let bif = reg_row(vm, "BIF", EntryKind::BranchIfFalse, FLAG_SYSTEM, Ghost(at), Ghost(rows));
    let bit = reg_row(vm, "BIT", EntryKind::BranchIfTrue, FLAG_SYSTEM, Ghost(at), Ghost(rows));
    reg_row(vm, "JUMP_FALSE", EntryKind::Constant(Cell::Xt(bif)), 0, Ghost(at), Ghost(rows));
    reg_row(vm, "JUMP_TRUE", EntryKind::Constant(Cell::Xt(bit)), 0, Ghost(at), Ghost(rows));
    reg_row(vm, "JUMP_ALWAYS", EntryKind::Constant(Cell::Xt(goto_x)), 0, Ghost(at), Ghost(rows));
    reg_row(vm, "LIT_MARKER", EntryKind::Primitive(Prim::LitMarker), FLAG_SYSTEM, Ghost(at), Ghost(rows));
    reg_row(vm, "LIT", EntryKind::Lit, FLAG_SYSTEM, Ghost(at), Ghost(rows));
    reg_row(vm, "LITERAL", EntryKind::Primitive(Prim::Literal), 0, Ghost(at), Ghost(rows));
    reg_row(vm, "HEADER", EntryKind::Primitive(Prim::Header), FLAG_IMMEDIATE | FLAG_SYSTEM, Ghost(at), Ghost(rows));
    reg_row(vm, "IMMEDIATE", EntryKind::Primitive(Prim::Immediate), FLAG_IMMEDIATE | FLAG_SYSTEM, Ghost(at), Ghost(rows));
    proof {
        assert(rows.take(12) =~= rows);
        assert(vm.headers@.take(at) =~= h0);
    }
}


/// Rows 60..71 of the system word table (DEF .. CS_DROP), for a table part that
/// starts at header `at`.
pub open spec fn group_6_rows(at: int) -> Seq<(Seq<char>, EntryKind, u8)> {
    seq![
        ("DEF"@, EntryKind::Primitive(Prim::Def), (FLAG_IMMEDIATE | FLAG_SYSTEM)),
        ("END"@, EntryKind::Primitive(Prim::End), (FLAG_IMMEDIATE | FLAG_SYSTEM)),
        ("VAR"@, EntryKind::Primitive(Prim::Var), (FLAG_IMMEDIATE | FLAG_SYSTEM)),
        ("DIM"@, EntryKind::Primitive(Prim::Dim), (FLAG_IMMEDIATE | FLAG_SYSTEM)),
        ("GOTO"@, EntryKind::Primitive(Prim::GotoCompile), (FLAG_IMMEDIATE | FLAG_SYSTEM)),
        ("BIF"@, EntryKind::Primitive(Prim::BifCompile), (FLAG_IMMEDIATE | FLAG_SYSTEM)),
        ("BIT"@, EntryKind::Primitive(Prim::BitCompile), (FLAG_IMMEDIATE | FLAG_SYSTEM)),
        ("RETURN"@, EntryKind::Primitive(Prim::ReturnCompile), (FLAG_IMMEDIATE | FLAG_SYSTEM)),
        ("CS_PUSH"@, EntryKind::Primitive(Prim::CsPush), 0u8),
        ("CS_POP"@, EntryKind::Primitive(Prim::CsPop), 0u8),
        ("CS_SWAP"@, EntryKind::Primitive(Prim::CsSwap), 0u8),
        ("CS_DROP"@, EntryKind::Primitive(Prim::CsDrop), 0u8),
    ]
}

fn reg_group_6(vm: &mut VM)
    requires
        old(vm).wf(),
        old(vm).headers@.len() + 12 <= MAX_HEADERS,
    ensures
        final(vm).wf(),
        only_headers_changed(*old(vm), *final(vm)),
        final(vm).headers@.len() == old(vm).headers@.len() + 12,
        final(vm).headers@.take(old(vm).headers@.len() as int) == old(vm).headers@,
        registered(final(vm).headers@, old(vm).headers@.len() as int, group_6_rows(old(vm).headers@.len() as int)),
{
    let ghost h0 = vm.headers@;
    let ghost at = h0.len() as int;
    let ghost rows = group_6_rows(at);
    proof {
        assert(rows.take(0) =~= Seq::<(Seq<char>, EntryKind, u8)>::empty());
    }
    reg_row(vm, "DEF", EntryKind::Primitive(Prim::Def), FLAG_IMMEDIATE | FLAG_SYSTEM, Ghost(at), Ghost(rows));
    reg_row(vm, "END", EntryKind::Primitive(Prim::End), FLAG_IMMEDIATE | FLAG_SYSTEM, Ghost(at), Ghost(rows));
    reg_row(vm, "VAR", EntryKind::Primitive(Prim::Var), FLAG_IMMEDIATE | FLAG_SYSTEM, Ghost(at), Ghost(rows));
    reg_row(vm, "DIM", EntryKind::Primitive(Prim::Dim), FLAG_IMMEDIATE | FLAG_SYSTEM, Ghost(at), Ghost(rows));
    reg_row(vm, "GOTO", EntryKind::Primitive(Prim::GotoCompile), FLAG_IMMEDIATE | FLAG_SYSTEM, Ghost(at), Ghost(rows));
    reg_row(vm, "BIF", EntryKind::Primitive(Prim::BifCompile), FLAG_IMMEDIATE | FLAG_SYSTEM, Ghost(at), Ghost(rows));
    reg_row(vm, "BIT", EntryKind::Primitive(Prim::BitCompile), FLAG_IMMEDIATE | FLAG_SYSTEM, Ghost(at), Ghost(rows));
    reg_row(vm, "RETURN", EntryKind::Primitive(Prim::ReturnCompile), FLAG_IMMEDIATE | FLAG_SYSTEM, Ghost(at), Ghost(rows));
    reg_row(vm, "CS_PUSH", EntryKind::Primitive(Prim::CsPush), 0, Ghost(at), Ghost(rows));
    reg_row(vm, "CS_POP", EntryKind::Primitive(Prim::CsPop), 0, Ghost(at), Ghost(rows));
    reg_row(vm, "CS_SWAP", EntryKind::Primitive(Prim::CsSwap), 0, Ghost(at), Ghost(rows));
    reg_row(vm, "CS_DROP", EntryKind::Primitive(Prim::CsDrop), 0, Ghost(at), Ghost(rows));
    proof {
        assert(rows.take(12) =~= rows);
        assert(vm.headers@.take(at) =~= h0);
    }
}


/// Rows 72..83 of the system word table (CS_DUP .. SKIP_COMMA), for a table part that
/// starts at header `at`.
pub open spec fn group_7_rows(at: int) -> Seq<(Seq<char>, EntryKind, u8)> {
    seq![
        ("CS_DUP"@, EntryKind::Primitive(Prim::CsDup), 0u8),
        ("CS_OVER"@, EntryKind::Primitive(Prim::CsOver), 0u8),
        ("CS_ROT"@, EntryKind::Primitive(Prim::CsRot), 0u8),
        ("PATCH_ADDR"@, EntryKind::Primitive(Prim::PatchAddr), 0u8),
        ("COMPILE_EXPR"@, EntryKind::Primitive(Prim::CompileExpr), 0u8),
        ("CS_OPEN_TAG"@, EntryKind::Primitive(Prim::CsOpenTag), 0u8),
        ("CS_CLOSE_TAG"@, EntryKind::Primitive(Prim::CsCloseTag), 0u8),
        ("USE"@, EntryKind::Primitive(Prim::Use), (FLAG_IMMEDIATE)),
        ("COMPILE_LVALUE"@, EntryKind::Primitive(Prim::CompileLvalue), 0u8),
        ("SKIP_EQ"@, EntryKind::Primitive(Prim::SkipEq), 0u8),
        ("LOOKUP"@, EntryKind::Primitive(Prim::Lookup), 0u8),
        ("SKIP_COMMA"@, EntryKind::Primitive(Prim::SkipComma), 0u8),
    ]
}

fn reg_group_7(vm: &mut VM)
    requires
        old(vm).wf(),
        old(vm).headers@.len() + 12 <= MAX_HEADERS,
    ensures
        final(vm).wf(),
        only_headers_changed(*old(vm), *final(vm)),
        final(vm).headers@.len() == old(vm).headers@.len() + 12,
        final(vm).headers@.take(old(vm).headers@.len() as int) == old(vm).headers@,
        registered(final(vm).headers@, old(vm).headers@.len() as int, group_7_rows(old(vm).headers@.len() as int)),
{
    let ghost h0 = vm.headers@;
    let ghost at = h0.len() as int;
    let ghost rows = group_7_rows(at);
    proof {
        assert(rows.take(0) =~= Seq::<(Seq<char>, EntryKind, u8)>::empty());
    }
    reg_row(vm, "CS_DUP", EntryKind::Primitive(Prim::CsDup), 0, Ghost(at), Ghost(rows));
    reg_row(vm, "CS_OVER", EntryKind::Primitive(Prim::CsOver), 0, Ghost(at), Ghost(rows));
    reg_row(vm, "CS_ROT", EntryKind::Primitive(Prim::CsRot), 0, Ghost(at), Ghost(rows));
    reg_row(vm, "PATCH_ADDR", EntryKind::Primitive(Prim::PatchAddr), 0, Ghost(at), Ghost(rows));
    reg_row(vm, "COMPILE_EXPR", EntryKind::Primitive(Prim::CompileExpr), 0, Ghost(at), Ghost(rows));
    reg_row(vm, "CS_OPEN_TAG", EntryKind::Primitive(Prim::CsOpenTag), 0, Ghost(at), Ghost(rows));
    reg_row(vm, "CS_CLOSE_TAG", EntryKind::Primitive(Prim::CsCloseTag), 0, Ghost(at), Ghost(rows));
    reg_row(vm, "USE", EntryKind::Primitive(Prim::Use), FLAG_IMMEDIATE, Ghost(at), Ghost(rows));
    reg_row(vm, "COMPILE_LVALUE", EntryKind::Primitive(Prim::CompileLvalue), 0, Ghost(at), Ghost(rows));
    reg_row(vm, "SKIP_EQ", EntryKind::Primitive(Prim::SkipEq), 0, Ghost(at), Ghost(rows));
    reg_row(vm, "LOOKUP", EntryKind::Primitive(Prim::Lookup), 0, Ghost(at), Ghost(rows));
    reg_row(vm, "SKIP_COMMA", EntryKind::Primitive(Prim::SkipComma), 0, Ghost(at), Ghost(rows));
    proof {
        assert(rows.take(12) =~= rows);
        assert(vm.headers@.take(at) =~= h0);
    }
}


/// Rows 84..95 of the system word table (COMPILE_LVALUE_SAVE .. MINUTE), for a table part that
/// starts at header `at`.
pub open spec fn group_8_rows(at: int) -> Seq<(Seq<char>, EntryKind, u8)> {
    seq![
        ("COMPILE_LVALUE_SAVE"@, EntryKind::Primitive(Prim::CompileLvalueSave), 0u8),
        ("ARRAY"@, EntryKind::Primitive(Prim::Array), (FLAG_SYSTEM | FLAG_HIDDEN)),
        ("ARRAY_STORE_LOCAL"@, EntryKind::Primitive(Prim::ArrayStoreLocal), (FLAG_SYSTEM | FLAG_HIDDEN)),
        ("ARRAY_LEN"@, EntryKind::Primitive(Prim::ArrayLen), (FLAG_SYSTEM | FLAG_HIDDEN)),
        ("ARRAY_GET"@, EntryKind::Primitive(Prim::ArrayGet), (FLAG_SYSTEM | FLAG_HIDDEN)),
        ("ARRAY_ADDR"@, EntryKind::Primitive(Prim::ArrayAddr), (FLAG_SYSTEM | FLAG_HIDDEN)),
        ("VA_COUNT"@, EntryKind::Primitive(Prim::VaCount), 0u8),
        ("ARG_ADDR"@, EntryKind::Primitive(Prim::ArgAddr), 0u8),
        ("RND"@, EntryKind::Primitive(Prim::Rnd), 0u8),
        ("RANDOMIZE"@, EntryKind::Primitive(Prim::Randomize), 0u8),
        ("HOUR"@, EntryKind::Primitive(Prim::Hour), 0u8),
        ("MINUTE"@, EntryKind::Primitive(Prim::Minute), 0u8),
    ]
}

fn reg_group_8(vm: &mut VM)
    requires
        old(vm).wf(),
        old(vm).headers@.len() + 12 <= MAX_HEADERS,
    ensures
        final(vm).wf(),
        only_headers_changed(*old(vm), *final(vm)),
        final(vm).headers@.len() == old(vm).headers@.len() + 12,
        final(vm).headers@.take(old(vm).headers@.len() as int) == old(vm).headers@,
        registered(final(vm).headers@, old(vm).headers@.len() as int, group_8_rows(old(vm).headers@.len() as int)),
{
    let ghost h0 = vm.headers@;
    let ghost at = h0.len() as int;
    let ghost rows = group_8_rows(at);
    proof {
        assert(rows.take(0) =~= Seq::<(Seq<char>, EntryKind, u8)>::empty());
    }
    reg_row(vm, "COMPILE_LVALUE_SAVE", EntryKind::Primitive(Prim::CompileLvalueSave), 0, Ghost(at), Ghost(rows));
    reg_row(vm, "ARRAY", EntryKind::Primitive(Prim::Array), FLAG_SYSTEM | FLAG_HIDDEN, Ghost(at), Ghost(rows));
    reg_row(vm, "ARRAY_STORE_LOCAL", EntryKind::Primitive(Prim::ArrayStoreLocal), FLAG_SYSTEM | FLAG_HIDDEN, Ghost(at), Ghost(rows));
    reg_row(vm, "ARRAY_LEN", EntryKind::Primitive(Prim::ArrayLen), FLAG_SYSTEM | FLAG_HIDDEN, Ghost(at), Ghost(rows));
    reg_row(vm, "ARRAY_GET", EntryKind::Primitive(Prim::ArrayGet), FLAG_SYSTEM | FLAG_HIDDEN, Ghost(at), Ghost(rows));
    reg_row(vm, "ARRAY_ADDR", EntryKind::Primitive(Prim::ArrayAddr), FLAG_SYSTEM | FLAG_HIDDEN, Ghost(at), Ghost(rows));
    reg_row(vm, "VA_COUNT", EntryKind::Primitive(Prim::VaCount), 0, Ghost(at), Ghost(rows));
    reg_row(vm, "ARG_ADDR", EntryKind::Primitive(Prim::ArgAddr), 0, Ghost(at), Ghost(rows));
    reg_row(vm, "RND", EntryKind::Primitive(Prim::Rnd), 0, Ghost(at), Ghost(rows));
    reg_row(vm, "RANDOMIZE", EntryKind::Primitive(Prim::Randomize), 0, Ghost(at), Ghost(rows));
    reg_row(vm, "HOUR", EntryKind::Primitive(Prim::Hour), 0, Ghost(at), Ghost(rows));
    reg_row(vm, "MINUTE", EntryKind::Primitive(Prim::Minute), 0, Ghost(at), Ghost(rows));
    proof {
        assert(rows.take(12) =~= rows);
        assert(vm.headers@.take(at) =~= h0);
    }
}


/// The system word table, for a header table that it is appended to at
/// index `at` (the jump constants hold the tokens of GOTO, BIF and BIT).
pub open spec fn system_words(at: int) -> Seq<(Seq<char>, EntryKind, u8)> {
    group_1_rows(at) + group_2_rows(at + 12) + group_3_rows(at + 24) + group_4_rows(at + 36) + group_5_rows(at + 48) + group_6_rows(at + 60) + group_7_rows(at + 72) + group_8_rows(at + 84)
}

/// Register all system words of the VM: the rows of `system_words`, in
/// order, after the headers already there. A header table without room for
/// the whole table is left as it is.
pub fn register_all(vm: &mut VM)
    requires
        old(vm).wf(),
    ensures
        final(vm).wf(),
        only_headers_changed(*old(vm), *final(vm)),
        old(vm).headers@.len() + SYSTEM_WORD_COUNT <= MAX_HEADERS ==> {
            &&& final(vm).headers@.len() == old(vm).headers@.len() + SYSTEM_WORD_COUNT
            &&& final(vm).headers@.take(old(vm).headers@.len() as int) == old(vm).headers@
            &&& registered(final(vm).headers@, old(vm).headers@.len() as int, system_words(old(vm).headers@.len() as int))
        },
        old(vm).headers@.len() + SYSTEM_WORD_COUNT > MAX_HEADERS ==> *final(vm) == *old(vm),
{
    if vm.headers.len() > MAX_HEADERS - SYSTEM_WORD_COUNT {
        return;
    }
    let ghost h0 = vm.headers@;
    let ghost at = h0.len() as int;
    let ghost mut acc: Seq<(Seq<char>, EntryKind, u8)> = Seq::empty();
    reg_group_1(vm);
    proof {
        acc = group_1_rows(at);
    }
    let ghost hp = vm.headers@;
    reg_group_2(vm);
    proof {
        lemma_registered_prefix(hp, vm.headers@, at, acc);
        lemma_registered_concat(vm.headers@, at, acc, group_2_rows(at + 12));
        acc = acc + group_2_rows(at + 12);
    }
    let ghost hp = vm.headers@;
    reg_group_3(vm);
    proof {
        lemma_registered_prefix(hp, vm.headers@, at, acc);
        lemma_registered_concat(vm.headers@, at, acc, group_3_rows(at + 24));
        acc = acc + group_3_rows(at + 24);
    }
    let ghost hp = vm.headers@;
    reg_group_4(vm);
    proof {
        lemma_registered_prefix(hp, vm.headers@, at, acc);
        lemma_registered_concat(vm.headers@, at, acc, group_4_rows(at + 36));
        acc = acc + group_4_rows(at + 36);
    }
    let ghost hp = vm.headers@;
    reg_group_5(vm);
    proof {
        lemma_registered_prefix(hp, vm.headers@, at, acc);
        lemma_registered_concat(vm.headers@, at, acc, group_5_rows(at + 48));
        acc = acc + group_5_rows(at + 48);
    }
    let ghost hp = vm.headers@;
    reg_group_6(vm);
    proof {
        lemma_registered_prefix(hp, vm.headers@, at, acc);
        lemma_registered_concat(vm.headers@, at, acc, group_6_rows(at + 60));
        acc = acc + group_6_rows(at + 60);
    }
    let ghost hp = vm.headers@;
    reg_group_7(vm);
    proof {
        lemma_registered_prefix(hp, vm.headers@, at, acc);
        lemma_registered_concat(vm.headers@, at, acc, group_7_rows(at + 72));
        acc = acc + group_7_rows(at + 72);
    }
    let ghost hp = vm.headers@;
    reg_group_8(vm);
    proof {
        lemma_registered_prefix(hp, vm.headers@, at, acc);
        lemma_registered_concat(vm.headers@, at, acc, group_8_rows(at + 84));
        acc = acc + group_8_rows(at + 84);
    }
    proof {
        assert(acc == system_words(at));
        assert(vm.headers@.take(at) =~= h0);
    }
}


/// The structured control words (IF .. ENDIF, WHILE .. ENDWH, SELECT ..
/// ENDSEL, LET): IMMEDIATE words that users may redefine.
pub open spec fn standard_words() -> Seq<(Seq<char>, EntryKind, u8)> {
    seq![
        ("IF"@, EntryKind::Primitive(Prim::If), (FLAG_IMMEDIATE)),
        ("ELSIF"@, EntryKind::Primitive(Prim::Elsif), (FLAG_IMMEDIATE)),
        ("ELSE"@, EntryKind::Primitive(Prim::Else), (FLAG_IMMEDIATE)),
        ("ENDIF"@, EntryKind::Primitive(Prim::Endif), (FLAG_IMMEDIATE)),
        ("WHILE"@, EntryKind::Primitive(Prim::While), (FLAG_IMMEDIATE)),
        ("ENDWH"@, EntryKind::Primitive(Prim::Endwh), (FLAG_IMMEDIATE)),
        ("SELECT"@, EntryKind::Primitive(Prim::Select), (FLAG_IMMEDIATE)),
        ("CASE"@, EntryKind::Primitive(Prim::Case), (FLAG_IMMEDIATE)),
        ("CASE_ELSE"@, EntryKind::Primitive(Prim::CaseElse), (FLAG_IMMEDIATE)),
        ("ENDSEL"@, EntryKind::Primitive(Prim::Endsel), (FLAG_IMMEDIATE)),
        ("LET"@, EntryKind::Primitive(Prim::Let), (FLAG_IMMEDIATE)),
    ]
}

/// Register the rows of `standard_words`, in order, after the headers
/// already there. A header table without room for them is left as it is.
pub fn register_standard_words(vm: &mut VM)
    requires
        old(vm).wf(),
    ensures
        final(vm).wf(),
        only_headers_changed(*old(vm), *final(vm)),
        old(vm).headers@.len() + STANDARD_WORD_COUNT <= MAX_HEADERS ==> {
            &&& final(vm).headers@.len() == old(vm).headers@.len() + STANDARD_WORD_COUNT
            &&& final(vm).headers@.take(old(vm).headers@.len() as int) == old(vm).headers@
            &&& registered(final(vm).headers@, old(vm).headers@.len() as int, standard_words())
        },
        old(vm).headers@.len() + STANDARD_WORD_COUNT > MAX_HEADERS ==> *final(vm) == *old(vm),
{
    if vm.headers.len() > MAX_HEADERS - STANDARD_WORD_COUNT {
        return;
    }
    let ghost h0 = vm.headers@;
    let ghost at = h0.len() as int;
    let ghost rows = standard_words();
    proof {
        assert(rows.take(0) =~= Seq::<(Seq<char>, EntryKind, u8)>::empty());
    }
    reg_row(vm, "IF", EntryKind::Primitive(Prim::If), FLAG_IMMEDIATE, Ghost(at), Ghost(rows));
    reg_row(vm, "ELSIF", EntryKind::Primitive(Prim::Elsif), FLAG_IMMEDIATE, Ghost(at), Ghost(rows));
    reg_row(vm, "ELSE", EntryKind::Primitive(Prim::Else), FLAG_IMMEDIATE, Ghost(at), Ghost(rows));
    reg_row(vm, "ENDIF", EntryKind::Primitive(Prim::Endif), FLAG_IMMEDIATE, Ghost(at), Ghost(rows));
    reg_row(vm, "WHILE", EntryKind::Primitive(Prim::While), FLAG_IMMEDIATE, Ghost(at), Ghost(rows));
    reg_row(vm, "ENDWH", EntryKind::Primitive(Prim::Endwh), FLAG_IMMEDIATE, Ghost(at), Ghost(rows));
    reg_row(vm, "SELECT", EntryKind::Primitive(Prim::Select), FLAG_IMMEDIATE, Ghost(at), Ghost(rows));
    reg_row(vm, "CASE", EntryKind::Primitive(Prim::Case), FLAG_IMMEDIATE, Ghost(at), Ghost(rows));
    reg_row(vm, "CASE_ELSE", EntryKind::Primitive(Prim::CaseElse), FLAG_IMMEDIATE, Ghost(at), Ghost(rows));
    reg_row(vm, "ENDSEL", EntryKind::Primitive(Prim::Endsel), FLAG_IMMEDIATE, Ghost(at), Ghost(rows));
    reg_row(vm, "LET", EntryKind::Primitive(Prim::Let), FLAG_IMMEDIATE, Ghost(at), Ghost(rows));
    proof {
        assert(rows.take(11) =~= rows);
        assert(vm.headers@.take(at) =~= h0);
    }
}

/// A VM with all system words registered and the system boundary recorded.
pub fn init_vm() -> (r: VM)
    ensures
        r.wf(),
        r.headers@.len() == SYSTEM_WORD_COUNT,
        registered(r.headers@, 0, system_words(0)),
        r.sys_headers == SYSTEM_WORD_COUNT,
        r.dp == 0,
        r.data_stack@.len() == 0,
        r.return_stack@.len() == 0,
        !r.is_compiling,
        r.compile_state is None,
        r.compile_stack@.len() == 0,
        r.output_buffer@.len() == 0,
{
    let mut v = VM::new();
    register_all(&mut v);
    v.seal_sys();
    v
}

} // verus!
