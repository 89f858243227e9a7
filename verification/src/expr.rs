//! Expression compiler: turns an infix token sequence into a flat sequence of
//! VM cells in reverse Polish order (shunting-yard algorithm).
use vstd::prelude::*;
use crate::cell::{Cell, Xt};
use crate::code::extends;
use crate::dict::{EntryKind, FLAG_IMMEDIATE, has_flag};
use crate::error::TbxError;
use crate::lexer::{SpannedToken, Token};
use crate::primitives::arith::BinOp;
use crate::text::{upper_seq, upper_string};
use crate::vm::{VM, local_lookup, lookup_in, lemma_lookup_in_bounds};

verus! {

broadcast use {crate::code::lemma_extends_trans, crate::code::lemma_extends_refl, crate::code::lemma_extends_push};

/// Compiled code is sound for a header table of `nh` entries: every
/// execution token names a header, and every recorded placeholder offset
/// holds `Int(0)`.
pub open spec fn code_ok(out: Seq<Cell>, offs: Seq<usize>, nh: nat) -> bool {
    &&& forall|j: int| 0 <= j < offs.len() ==> (#[trigger] offs[j]) < out.len() && out[offs[j] as int] == Cell::Int(0)
    &&& forall|i: int| 0 <= i < out.len() ==> xt_ok(#[trigger] out[i], nh)
}

/// A cell is not an execution token, or one that names a header.
pub open spec fn xt_ok(c: Cell, nh: nat) -> bool {
    c matches Cell::Xt(x) ==> x.0 < nh
}

/// An item of the operator stack.
#[derive(Debug, Clone, Copy, PartialEq, Eq)]
pub enum OpItem {
    /// A binary operator with its precedence (1 binds tightest).
    Bin(BinOp, u8),
    /// Prefix minus.
    UnaryNeg,
    /// An open parenthesis; for a call, the word and the arguments seen so far.
    LParen(Option<(Xt, usize)>),
    /// A comma used as a sequencing operator.
    CommaSep,
    /// An open bracket.
    LBracket,
}

spec fn op_ok(o: OpItem, nh: nat) -> bool {
    o matches OpItem::LParen(Some((x, _))) ==> x.0 < nh
}

spec fn ops_ok(ops: Seq<OpItem>, nh: nat) -> bool {
    forall|i: int| 0 <= i < ops.len() ==> op_ok(#[trigger] ops[i], nh)
}

/// The VM word that implements a binary operator.
pub open spec fn binop_word(op: BinOp) -> Seq<char> {
    match op {
        BinOp::Add => "ADD"@,
        BinOp::Sub => "SUB"@,
        BinOp::Mul => "MUL"@,
        BinOp::Div => "DIV"@,
        BinOp::Mod => "MOD"@,
        BinOp::Band => "BAND"@,
        BinOp::Bor => "BOR"@,
        BinOp::Lt => "LT"@,
        BinOp::Gt => "GT"@,
        BinOp::Le => "LE"@,
        BinOp::Ge => "GE"@,
        BinOp::Eq => "EQ"@,
        BinOp::Neq => "NEQ"@,
        BinOp::And => "AND"@,
        BinOp::Or => "OR"@,
    }
}

fn binop_word_str(op: BinOp) -> (r: &'static str)
    ensures
        r@ == binop_word(op),
{
    match op {
        BinOp::Add => "ADD",
        BinOp::Sub => "SUB",
        BinOp::Mul => "MUL",
        BinOp::Div => "DIV",
        BinOp::Mod => "MOD",
        BinOp::Band => "BAND",
        BinOp::Bor => "BOR",
        BinOp::Lt => "LT",
        BinOp::Gt => "GT",
        BinOp::Le => "LE",
        BinOp::Ge => "GE",
        BinOp::Eq => "EQ",
        BinOp::Neq => "NEQ",
        BinOp::And => "AND",
        BinOp::Or => "OR",
    }
}

/// The operator, precedence (1 binds tightest) and left associativity of a
/// binary operator symbol other than `-`.
pub open spec fn binary_op_spec(s: Seq<char>) -> Option<(BinOp, u8, bool)> {
    if s == "+"@ {
        Some((BinOp::Add, 3u8, true))
    } else if s == "*"@ {
        Some((BinOp::Mul, 2u8, true))
    } else if s == "/"@ {
        Some((BinOp::Div, 2u8, true))
    } else if s == "%"@ {
        Some((BinOp::Mod, 2u8, true))
    } else if s == "<"@ {
        Some((BinOp::Lt, 4u8, true))
    } else if s == ">"@ {
        Some((BinOp::Gt, 4u8, true))
    } else if s == "<="@ {
        Some((BinOp::Le, 4u8, true))
    } else if s == ">="@ {
        Some((BinOp::Ge, 4u8, true))
    } else if s == "="@ {
        Some((BinOp::Eq, 5u8, true))
    } else if s == "<>"@ {
        Some((BinOp::Neq, 5u8, true))
    } else if s == "|"@ {
        Some((BinOp::Bor, 7u8, true))
    } else if s == "&&"@ {
        Some((BinOp::And, 8u8, true))
    } else if s == "||"@ {
        Some((BinOp::Or, 9u8, true))
    } else {
        None
    }
}

/// Map a binary operator symbol to (operator, precedence, left associative).
pub fn binary_op_info(s: &str) -> (r: Option<(BinOp, u8, bool)>)
    ensures
        r == binary_op_spec(s@),
{
    let t = s.to_owned();
    proof {
        reveal_strlit("+");
        reveal_strlit("*");
        reveal_strlit("/");
        reveal_strlit("%");
        reveal_strlit("<");
        reveal_strlit(">");
        reveal_strlit("<=");
        reveal_strlit(">=");
        reveal_strlit("=");
        reveal_strlit("<>");
        reveal_strlit("|");
        reveal_strlit("&&");
        reveal_strlit("||");
    }
    if t == "+".to_owned() {
        Some((BinOp::Add, 3, true))
    } else if t == "*".to_owned() {
        Some((BinOp::Mul, 2, true))
    } else if t == "/".to_owned() {
        Some((BinOp::Div, 2, true))
    } else if t == "%".to_owned() {
        Some((BinOp::Mod, 2, true))
    } else if t == "<".to_owned() {
        Some((BinOp::Lt, 4, true))
    } else if t == ">".to_owned() {
        Some((BinOp::Gt, 4, true))
    } else if t == "<=".to_owned() {
        Some((BinOp::Le, 4, true))
    } else if t == ">=".to_owned() {
        Some((BinOp::Ge, 4, true))
    } else if t == "=".to_owned() {
        Some((BinOp::Eq, 5, true))
    } else if t == "<>".to_owned() {
        Some((BinOp::Neq, 5, true))
    } else if t == "|".to_owned() {
        Some((BinOp::Bor, 7, true))
    } else if t == "&&".to_owned() {
        Some((BinOp::And, 8, true))
    } else if t == "||".to_owned() {
        Some((BinOp::Or, 9, true))
    } else {
        None
    }
}

/// The execution token of the visible word `name` (when there is one).
pub open spec fn name_xt(vm: VM, name: Seq<char>) -> Cell {
    Cell::Xt(Xt(lookup_in(vm.headers@, vm.headers@.len() as int, name, None, false).unwrap()))
}

/// The code of one operator-stack item: its operator word, NEGATE for a
/// prefix minus, nothing for a sequencing comma.
pub open spec fn op_code(vm: VM, o: OpItem) -> Seq<Cell> {
    match o {
        OpItem::Bin(op, _) => seq![name_xt(vm, binop_word(op))],
        OpItem::UnaryNeg => seq![name_xt(vm, "NEGATE"@)],
        _ => Seq::empty(),
    }
}

/// Whether the operator word of an item is registered (brackets have none).
pub open spec fn op_word_ok(vm: VM, o: OpItem) -> bool {
    match o {
        OpItem::Bin(op, _) => lookup_in(vm.headers@, vm.headers@.len() as int, binop_word(op), None, false) is Some,
        OpItem::UnaryNeg => lookup_in(vm.headers@, vm.headers@.len() as int, "NEGATE"@, None, false) is Some,
        OpItem::CommaSep => true,
        _ => false,
    }
}

/// Whether the top item of `ops` is emitted before an incoming operator of
/// precedence `prec` (left-associative when `left`).
pub open spec fn pops_top(ops: Seq<OpItem>, prec: u8, left: bool) -> bool {
    ops.len() > 0 && !(ops.last() is LParen || ops.last() is LBracket) && (if left {
        spec_op_prec(ops.last()) <= prec
    } else {
        spec_op_prec(ops.last()) < prec
    })
}

/// Precedence of an operator-stack item, as `op_prec` computes it.
pub open spec fn spec_op_prec(o: OpItem) -> u8 {
    match o {
        OpItem::Bin(_, p) => p,
        OpItem::UnaryNeg => 1u8,
        OpItem::CommaSep => 11u8,
        _ => 255u8,
    }
}

/// How many items `pop_ops_while` emits from the top of `ops`.
pub open spec fn pop_count(ops: Seq<OpItem>, prec: u8, left: bool) -> nat
    decreases ops.len(),
{
    if pops_top(ops, prec, left) {
        1 + pop_count(ops.drop_last(), prec, left)
    } else {
        0
    }
}

/// The code of the top `c` items of `ops`, topmost first.
pub open spec fn popped_code(vm: VM, ops: Seq<OpItem>, c: nat) -> Seq<Cell>
    decreases c,
{
    if c == 0 || ops.len() == 0 {
        Seq::empty()
    } else {
        op_code(vm, ops.last()) + popped_code(vm, ops.drop_last(), (c - 1) as nat)
    }
}

/// Whether the operator words of the top `c` items of `ops` are registered.
pub open spec fn popped_ok(vm: VM, ops: Seq<OpItem>, c: nat) -> bool
    decreases c,
{
    if c == 0 || ops.len() == 0 {
        true
    } else {
        op_word_ok(vm, ops.last()) && popped_ok(vm, ops.drop_last(), (c - 1) as nat)
    }
}

/// The operator, precedence and left associativity of an infix operator
/// symbol, `-` included.
pub open spec fn infix_op(s: Seq<char>) -> Option<(BinOp, u8, bool)> {
    if s == "-"@ {
        Some((BinOp::Sub, 3u8, true))
    } else {
        binary_op_spec(s)
    }
}

/// Position `k` of a flat expression holds a literal (even `k`), or an
/// infix operator or a comma (odd `k`).
pub open spec fn flat_at(ts: Seq<SpannedToken>, k: int) -> bool {
    if k % 2 == 0 {
        ts[k].token is IntLit
    } else {
        ts[k].token is Comma || (ts[k].token matches Token::Op(o) && infix_op(o@) is Some)
    }
}

/// `ts` is a flat expression: integer literals separated by infix
/// operators or commas, `n op n op ... n` (a comma separates values and
/// binds most loosely).
pub open spec fn flat_arith(ts: Seq<SpannedToken>) -> bool {
    &&& ts.len() % 2 == 1
    &&& forall|k: int| 0 <= k < ts.len() ==> #[trigger] flat_at(ts, k)
}

/// One token of a flat expression: a literal is emitted as `LIT n`; an
/// operator first emits the waiting operators that bind at least as
/// tightly (all of them but a tighter right-associative one), then waits.
pub open spec fn flat_step(vm: VM, t: Token, ops: Seq<OpItem>, out: Seq<Cell>) -> (Seq<OpItem>, Seq<Cell>) {
    match t {
        Token::IntLit(n) => (ops, out + seq![name_xt(vm, "LIT"@), Cell::Int(n)]),
        Token::Op(o) => match infix_op(o@) {
            Some((op, prec, left)) => {
                let c = pop_count(ops, prec, left);
                (ops.take(ops.len() - c).push(OpItem::Bin(op, prec)), out + popped_code(vm, ops, c))
            },
            None => (ops, out),
        },
        Token::Comma => {
            let c = pop_count(ops, 11u8, true);
            (ops.take(ops.len() - c).push(OpItem::CommaSep), out + popped_code(vm, ops, c))
        },
        _ => (ops, out),
    }
}

/// The waiting operators and the code after reading `ts` from position `i`.
pub open spec fn flat_run(vm: VM, ts: Seq<SpannedToken>, i: int, ops: Seq<OpItem>, out: Seq<Cell>) -> (Seq<OpItem>, Seq<Cell>)
    decreases ts.len() - i,
{
    if i < 0 || i >= ts.len() {
        (ops, out)
    } else {
        let st = flat_step(vm, ts[i].token, ops, out);
        flat_run(vm, ts, i + 1, st.0, st.1)
    }
}

/// The words that the code of a flat expression uses are registered: LIT
/// and the word of each operator.
pub open spec fn flat_words_ok(vm: VM, ts: Seq<SpannedToken>) -> bool {
    &&& lookup_in(vm.headers@, vm.headers@.len() as int, "LIT"@, None, false) is Some
    &&& forall|k: int| 0 <= k < ts.len() && k % 2 == 1 ==> #[trigger] flat_word_ok(vm, ts, k)
}

/// The word of the operator at position `k` is registered.
pub open spec fn flat_word_ok(vm: VM, ts: Seq<SpannedToken>, k: int) -> bool {
    ts[k].token is Comma || (ts[k].token matches Token::Op(o) && (infix_op(o@) matches Some((op, _p, _l)) && lookup_in(
        vm.headers@,
        vm.headers@.len() as int,
        binop_word(op),
        None,
        false,
    ) is Some))
}

/// Every item of `ops` is a binary operator or a comma.
pub open spec fn flat_ops(ops: Seq<OpItem>) -> bool {
    forall|j: int| 0 <= j < ops.len() ==> (#[trigger] ops[j]) is Bin || ops[j] is CommaSep
}

/// The word of every item of `ops` is registered.
pub open spec fn bin_ops_ok(vm: VM, ops: Seq<OpItem>) -> bool {
    forall|j: int| 0 <= j < ops.len() ==> op_word_ok(vm, #[trigger] ops[j])
}

proof fn lemma_popped_ok_bin(vm: VM, ops: Seq<OpItem>, c: nat)
    requires
        bin_ops_ok(vm, ops),
    ensures
        popped_ok(vm, ops, c),
    decreases c,
{
    if c > 0 && ops.len() > 0 {
        assert(ops.last() == ops[ops.len() - 1]);
        lemma_popped_ok_bin(vm, ops.drop_last(), (c - 1) as nat);
    }
}

/// The reverse Polish code of a flat expression: the literals in order,
/// each operator after its operands, tighter operators first and equal
/// ones from the left.
pub open spec fn flat_code(vm: VM, ts: Seq<SpannedToken>) -> Seq<Cell> {
    let st = flat_run(vm, ts, 0, Seq::empty(), Seq::empty());
    st.1 + popped_code(vm, st.0, st.0.len())
}

proof fn lemma_popped_code_headers(v1: VM, v2: VM, ops: Seq<OpItem>, c: nat)
    requires
        v1.headers@ == v2.headers@,
    ensures
        popped_code(v1, ops, c) == popped_code(v2, ops, c),
    decreases c,
{
    if c > 0 && ops.len() > 0 {
        lemma_popped_code_headers(v1, v2, ops.drop_last(), (c - 1) as nat);
    }
}

proof fn lemma_flat_run_headers(v1: VM, v2: VM, ts: Seq<SpannedToken>, i: int, ops: Seq<OpItem>, out: Seq<Cell>)
    requires
        v1.headers@ == v2.headers@,
    ensures
        flat_run(v1, ts, i, ops, out) == flat_run(v2, ts, i, ops, out),
    decreases ts.len() - i,
{
    if 0 <= i < ts.len() {
        let st = flat_step(v1, ts[i].token, ops, out);
        match ts[i].token {
            Token::Op(o) => match infix_op(o@) {
                Some((op, prec, left)) => {
                    lemma_popped_code_headers(v1, v2, ops, pop_count(ops, prec, left));
                },
                None => {},
            },
            Token::Comma => {
                lemma_popped_code_headers(v1, v2, ops, pop_count(ops, 11u8, true));
            },
            _ => {},
        }
        assert(flat_step(v2, ts[i].token, ops, out) == st);
        lemma_flat_run_headers(v1, v2, ts, i + 1, st.0, st.1);
    }
}

/// The code of a flat expression depends on the header table alone.
pub proof fn lemma_flat_code_headers(v1: VM, v2: VM, ts: Seq<SpannedToken>)
    requires
        v1.headers@ == v2.headers@,
    ensures
        flat_code(v1, ts) == flat_code(v2, ts),
        flat_words_ok(v1, ts) == flat_words_ok(v2, ts),
{
    lemma_flat_run_headers(v1, v2, ts, 0, Seq::empty(), Seq::empty());
    let st = flat_run(v1, ts, 0, Seq::empty(), Seq::empty());
    lemma_popped_code_headers(v1, v2, st.0, st.0.len());
    if flat_words_ok(v1, ts) {
        assert forall|k: int| 0 <= k < ts.len() && k % 2 == 1 implies #[trigger] flat_word_ok(v2, ts, k) by {
            assert(flat_word_ok(v1, ts, k));
        }
    }
    if flat_words_ok(v2, ts) {
        assert forall|k: int| 0 <= k < ts.len() && k % 2 == 1 implies #[trigger] flat_word_ok(v1, ts, k) by {
            assert(flat_word_ok(v2, ts, k));
        }
    }
}

/// Operator precedence: in `a op1 b op2 c` the right operator is applied
/// first when it binds more tightly (`a b c op2 op1`); otherwise, equal
/// operators included, the left one is (`a b op1 c op2`).
pub proof fn law_operator_precedence(vm: VM, ts: Seq<SpannedToken>, o1: Seq<char>, o2: Seq<char>)
    requires
        flat_arith(ts),
        ts.len() == 5,
        ts[1].token matches Token::Op(s) && s@ == o1,
        ts[3].token matches Token::Op(s) && s@ == o2,
    ensures
        ({
            let lit = name_xt(vm, "LIT"@);
            let (op1, p1, _l1) = infix_op(o1).unwrap();
            let (op2, p2, _l2) = infix_op(o2).unwrap();
            let w1 = name_xt(vm, binop_word(op1));
            let w2 = name_xt(vm, binop_word(op2));
            ts[0].token matches Token::IntLit(a) && ts[2].token matches Token::IntLit(b)
                && ts[4].token matches Token::IntLit(c) && flat_code(vm, ts) == if p2 < p1 {
                seq![lit, Cell::Int(a), lit, Cell::Int(b), lit, Cell::Int(c), w2, w1]
            } else {
                seq![lit, Cell::Int(a), lit, Cell::Int(b), w1, lit, Cell::Int(c), w2]
            }
        }),
{
    assert(flat_at(ts, 0) && flat_at(ts, 1) && flat_at(ts, 2) && flat_at(ts, 3) && flat_at(ts, 4));
    let lit = name_xt(vm, "LIT"@);
    let (op1, p1, l1) = infix_op(o1).unwrap();
    let (op2, p2, l2) = infix_op(o2).unwrap();
    assert(l1 && l2);
    let a = ts[0].token->IntLit_0;
    let b = ts[2].token->IntLit_0;
    let c = ts[4].token->IntLit_0;
    let e = Seq::<OpItem>::empty();
    let s1 = flat_step(vm, ts[0].token, e, Seq::empty());
    assert(s1 == (e, seq![lit, Cell::Int(a)]));
    assert(pop_count(e, p1, l1) == 0);
    assert(popped_code(vm, e, 0) =~= Seq::<Cell>::empty());
    let st1 = seq![OpItem::Bin(op1, p1)];
    assert(e.take(0).push(OpItem::Bin(op1, p1)) =~= st1);
    let s2 = flat_step(vm, ts[1].token, s1.0, s1.1);
    assert(s2.1 =~= seq![lit, Cell::Int(a)]);
    assert(s2 == (st1, seq![lit, Cell::Int(a)]));
    let s3 = flat_step(vm, ts[2].token, s2.0, s2.1);
    assert(s3.1 =~= seq![lit, Cell::Int(a), lit, Cell::Int(b)]);
    let s4 = flat_step(vm, ts[3].token, s3.0, s3.1);
    let s5 = flat_step(vm, ts[4].token, s4.0, s4.1);
    assert(st1.drop_last() =~= e);
    assert(pop_count(e, p2, l2) == 0);
    if p2 < p1 {
        assert(!pops_top(st1, p2, l2));
        assert(pop_count(st1, p2, l2) == 0);
        assert(popped_code(vm, st1, 0) =~= Seq::<Cell>::empty());
        let st2 = seq![OpItem::Bin(op1, p1), OpItem::Bin(op2, p2)];
        assert(st1.take(1).push(OpItem::Bin(op2, p2)) =~= st2);
        assert(s4.0 =~= st2);
        assert(s4.1 =~= seq![lit, Cell::Int(a), lit, Cell::Int(b)]);
        assert(s5.1 =~= seq![lit, Cell::Int(a), lit, Cell::Int(b), lit, Cell::Int(c)]);
        assert(st2.drop_last() =~= st1);
        assert(popped_code(vm, st1, 1) =~= seq![name_xt(vm, binop_word(op1))]);
        assert(popped_code(vm, st2, 2) =~= seq![name_xt(vm, binop_word(op2)), name_xt(vm, binop_word(op1))]);
        assert(flat_run(vm, ts, 5, s5.0, s5.1) == s5);
        assert(flat_run(vm, ts, 4, s4.0, s4.1) == s5);
        assert(flat_run(vm, ts, 3, s3.0, s3.1) == s5);
        assert(flat_run(vm, ts, 2, s2.0, s2.1) == s5);
        assert(flat_run(vm, ts, 1, s1.0, s1.1) == s5);
        assert(flat_run(vm, ts, 0, e, Seq::empty()) == s5);
    } else {
        assert(pops_top(st1, p2, l2));
        assert(pop_count(st1, p2, l2) == 1);
        assert(popped_code(vm, e, 0) =~= Seq::<Cell>::empty());
        assert(popped_code(vm, st1, 1) =~= seq![name_xt(vm, binop_word(op1))]);
        let st2 = seq![OpItem::Bin(op2, p2)];
        assert(st1.take(0).push(OpItem::Bin(op2, p2)) =~= st2);
        assert(s4.0 =~= st2);
        assert(s4.1 =~= seq![lit, Cell::Int(a), lit, Cell::Int(b), name_xt(vm, binop_word(op1))]);
        assert(s5.1 =~= seq![lit, Cell::Int(a), lit, Cell::Int(b), name_xt(vm, binop_word(op1)), lit, Cell::Int(c)]);
        assert(st2.drop_last() =~= e);
        assert(popped_code(vm, st2, 1) =~= seq![name_xt(vm, binop_word(op2))]);
        assert(flat_run(vm, ts, 5, s5.0, s5.1) == s5);
        assert(flat_run(vm, ts, 4, s4.0, s4.1) == s5);
        assert(flat_run(vm, ts, 3, s3.0, s3.1) == s5);
        assert(flat_run(vm, ts, 2, s2.0, s2.1) == s5);
        assert(flat_run(vm, ts, 1, s1.0, s1.1) == s5);
        assert(flat_run(vm, ts, 0, e, Seq::empty()) == s5);
    }
}

/// The code of a call of header `x` with `arity` arguments in an
/// expression: `CALL x arity locals` for a compiled word (a placeholder 0
/// for the word being defined), `LIT arity x` for a variadic primitive,
/// else `x`.
pub open spec fn expr_call_code(vm: VM, x: usize, arity: usize, self_idx: Option<usize>) -> Seq<Cell> {
    let h = vm.headers@[x as int];
    match h.kind {
        EntryKind::Word(_) => seq![
            name_xt(vm, "CALL"@),
            Cell::Xt(Xt(x)),
            Cell::Int(arity as i64),
            Cell::Int(if self_idx == Some(x) { 0 } else { h.local_count as i64 }),
        ],
        EntryKind::Primitive(_) => if h.is_variadic {
            seq![name_xt(vm, "LIT"@), Cell::Int(arity as i64), Cell::Xt(Xt(x))]
        } else {
            seq![Cell::Xt(Xt(x))]
        },
        _ => seq![Cell::Xt(Xt(x))],
    }
}

/// Where the bracket closing one opened before `j` stands in `ts[j..hi]`
/// (parentheses when `paren`, else square brackets), with `depth` more
/// opened since.
pub open spec fn match_scan(ts: Seq<SpannedToken>, j: int, hi: int, depth: int, paren: bool) -> Option<int>
    decreases hi - j,
{
    if j < 0 || j >= hi || j >= ts.len() {
        None
    } else {
        let t = ts[j].token;
        let open = if paren { t is LParen } else { t is LBracket };
        let close = if paren { t is RParen } else { t is RBracket };
        if open {
            match_scan(ts, j + 1, hi, if depth < usize::MAX { depth + 1 } else { depth }, paren)
        } else if close {
            if depth <= 0 {
                Some(j)
            } else {
                match_scan(ts, j + 1, hi, depth - 1, paren)
            }
        } else {
            match_scan(ts, j + 1, hi, depth, paren)
        }
    }
}

proof fn lemma_pop_count_le(ops: Seq<OpItem>, prec: u8, left: bool)
    ensures
        pop_count(ops, prec, left) <= ops.len(),
    decreases ops.len(),
{
    if pops_top(ops, prec, left) {
        lemma_pop_count_le(ops.drop_last(), prec, left);
    }
}

/// The code of the top `c + 1` items is that of the top `c` items, then of
/// the next one.
proof fn lemma_popped_code_split(vm: VM, ops: Seq<OpItem>, c: nat)
    requires
        c < ops.len(),
    ensures
        popped_code(vm, ops, c + 1) == popped_code(vm, ops, c) + op_code(vm, ops[ops.len() - 1 - c]),
        popped_ok(vm, ops, c + 1) == (popped_ok(vm, ops, c) && op_word_ok(vm, ops[ops.len() - 1 - c])),
    decreases c,
{
    if c == 0 {
        assert(popped_code(vm, ops.drop_last(), 0) =~= Seq::<Cell>::empty());
        assert(popped_ok(vm, ops.drop_last(), 0));
        assert(popped_ok(vm, ops, 0));
        assert(op_code(vm, ops.last()) + Seq::<Cell>::empty() =~= Seq::<Cell>::empty() + op_code(vm, ops.last()));
    } else {
        lemma_popped_code_split(vm, ops.drop_last(), (c - 1) as nat);
        assert(ops.drop_last()[ops.drop_last().len() - 1 - (c - 1)] == ops[ops.len() - 1 - c]);
        assert(op_code(vm, ops.last()) + (popped_code(vm, ops.drop_last(), (c - 1) as nat) + op_code(
            vm,
            ops[ops.len() - 1 - c],
        )) =~= (op_code(vm, ops.last()) + popped_code(vm, ops.drop_last(), (c - 1) as nat)) + op_code(
            vm,
            ops[ops.len() - 1 - c],
        ));
    }
}

/// Precedence of an operator-stack item (1 binds tightest; brackets 255).
fn op_prec(o: OpItem) -> (r: u8)
    ensures
        r == (match o {
            OpItem::Bin(_, p) => p,
            OpItem::UnaryNeg => 1u8,
            OpItem::CommaSep => 11u8,
            _ => 255u8,
        }),
{
    match o {
        OpItem::Bin(_, p) => p,
        OpItem::UnaryNeg => 1,
        OpItem::CommaSep => 11,
        OpItem::LParen(_) => 255,
        OpItem::LBracket => 255,
    }
}

/// Look up a visible word by name; a missing word is a type error.
fn require_xt(vm: &VM, name: &str) -> (r: Result<Xt, TbxError>)
    requires
        vm.wf(),
    ensures
        r matches Ok(x) ==> x.0 < vm.headers@.len(),
        r is Ok <==> lookup_in(vm.headers@, vm.headers@.len() as int, name@, None, false) is Some,
        r matches Ok(x) ==> lookup_in(vm.headers@, vm.headers@.len() as int, name@, None, false) == Some(x.0),
        r matches Err(e) ==> e == (TbxError::TypeError { expected: "system word to be registered", got: "not found" }),
{
    proof {
        lemma_lookup_in_bounds(vm.headers@, vm.headers@.len() as int, name@, None, false);
    }
    match vm.lookup(name) {
        Some(x) => Ok(x),
        None => Err(TbxError::TypeError { expected: "system word to be registered", got: "not found" }),
    }
}


/// For `ARRAY_LEN ( @ A )` starting at `i`, the upper-cased array name `A`.
fn array_len_operand(tokens: &[SpannedToken], i: usize, hi: usize) -> (r: Option<String>)
    requires
        i < hi,
        hi <= tokens@.len(),
    ensures
        r is Some ==> i + 5 <= hi && tokens@[i + 1].token is LParen && tokens@[i + 2].token is At
            && tokens@[i + 3].token is Ident && tokens@[i + 4].token is RParen,
        r is Some <==> (i + 5 <= hi && tokens@[i + 1].token is LParen && tokens@[i + 2].token is At
            && tokens@[i + 3].token is Ident && tokens@[i + 4].token is RParen),
        r matches Some(n) ==> (tokens@[i + 3].token matches Token::Ident(id) && n@ == upper_seq(id@)),
{
    if hi - i <= 4 {
        return None;
    }
    if !matches!(tokens[i + 1].token, Token::LParen) || !matches!(tokens[i + 2].token, Token::At)
        || !matches!(tokens[i + 4].token, Token::RParen) {
        return None;
    }
    match &tokens[i + 3].token {
        Token::Ident(n) => Some(upper_string(n.as_str())),
        _ => None,
    }
}

/// Look up an internal (hidden) word by name; a missing word is a type error.
fn require_hidden_xt(vm: &VM, name: &str) -> (r: Result<Xt, TbxError>)
    requires
        vm.wf(),
    ensures
        r matches Ok(x) ==> x.0 < vm.headers@.len(),
        r == (match lookup_in(vm.headers@, vm.headers@.len() as int, name@, None, true) {
            Some(i) => Ok::<Xt, TbxError>(Xt(i)),
            None => Err(TbxError::TypeError { expected: "system word to be registered", got: "not found" }),
        }),
{
    proof {
        lemma_lookup_in_bounds(vm.headers@, vm.headers@.len() as int, name@, None, true);
    }
    match vm.lookup_hidden_system(name) {
        Some(x) => Ok(x),
        None => Err(TbxError::TypeError { expected: "system word to be registered", got: "not found" }),
    }
}

/// The slot of `name` in a local table (the most recent entry wins).
pub fn table_get(t: &Vec<(String, usize)>, name: &String) -> (r: Option<usize>)
    ensures
        r == local_lookup(t@, name@),
{
    let mut n: usize = t.len();
    assert(t@.take(n as int) =~= t@);
    while n > 0
        invariant
            n <= t@.len(),
            local_lookup(t@, name@) == local_lookup(t@.take(n as int), name@),
        decreases n,
    {
        let ghost tk = t@.take(n as int);
        assert(tk.drop_last() =~= t@.take(n - 1));
        assert(tk.last() == t@[n - 1]);
        if t[n - 1].0 == *name {
            return Some(t[n - 1].1);
        }
        n = n - 1;
    }
    None
}

/// The slot of `name` in an optional local table.
pub fn local_get(table: &Option<Vec<(String, usize)>>, name: &String) -> (r: Option<usize>)
    ensures
        r == (match table {
            Some(t) => local_lookup(t@, name@),
            None => None::<usize>,
        }),
{
    match table {
        None => None,
        Some(t) => table_get(t, name),
    }
}

proof fn lemma_push_ok(out: Seq<Cell>, offs: Seq<usize>, nh: nat, c: Cell)
    requires
        code_ok(out, offs, nh),
        xt_ok(c, nh),
    ensures
        code_ok(out.push(c), offs, nh),
{
    let o2 = out.push(c);
    assert forall|j: int| 0 <= j < offs.len() implies (#[trigger] offs[j]) < o2.len() && o2[offs[j] as int]
        == Cell::Int(0) by {
        assert(o2[offs[j] as int] == out[offs[j] as int]);
    }
    assert forall|i: int| 0 <= i < o2.len() implies xt_ok(#[trigger] o2[i], nh) by {
        if i < out.len() {
            assert(o2[i] == out[i]);
        }
    }
}

// ---------------------------------------------------------------------------
// Operand order
// ---------------------------------------------------------------------------

/// The cell that an integer literal token stands for (none for other tokens).
pub open spec fn lit_cell(t: Token) -> Seq<Cell> {
    match t {
        Token::IntLit(n) => seq![Cell::Int(n)],
        Token::LineNum(n) => seq![Cell::Int(n)],
        _ => Seq::empty(),
    }
}

/// The cells of the integer literals of `ts`, in order.
pub open spec fn int_lits(ts: Seq<SpannedToken>) -> Seq<Cell>
    decreases ts.len(),
{
    if ts.len() == 0 {
        Seq::empty()
    } else {
        int_lits(ts.drop_last()) + lit_cell(ts.last().token)
    }
}

/// No token of `ts` ends an expression (a newline, the end of input, `;`).
pub open spec fn one_expression(ts: Seq<SpannedToken>) -> bool {
    forall|i: int| 0 <= i < ts.len() ==> !(#[trigger] ts[i].token is Newline || ts[i].token is Eof || ts[i].token is Semicolon)
}

/// `a` occurs within `b` in order, possibly with other cells in between.
pub open spec fn in_order(a: Seq<Cell>, b: Seq<Cell>) -> bool
    decreases b.len(),
{
    if a.len() == 0 {
        true
    } else if b.len() == 0 {
        false
    } else if a.last() == b.last() {
        in_order(a.drop_last(), b.drop_last())
    } else {
        in_order(a, b.drop_last())
    }
}

proof fn lemma_in_order_drop(a: Seq<Cell>, b: Seq<Cell>)
    requires
        in_order(a, b),
        a.len() > 0,
    ensures
        in_order(a.drop_last(), b),
    decreases b.len(),
{
    let a1 = a.drop_last();
    if a1.len() == 0 || b.len() == 0 {
    } else if a.last() == b.last() {
        if a1.last() == b.last() {
            lemma_in_order_drop(a1, b.drop_last());
        }
    } else {
        lemma_in_order_drop(a, b.drop_last());
        if a1.last() == b.last() {
            lemma_in_order_drop(a1, b.drop_last());
        }
    }
}

/// What occurs in order in `b.drop_last()` occurs in order in `b`.
proof fn lemma_in_order_weaken(a: Seq<Cell>, b: Seq<Cell>)
    requires
        b.len() > 0,
        in_order(a, b.drop_last()),
    ensures
        in_order(a, b),
    decreases b.len(),
{
    if a.len() == 0 {
    } else if a.last() == b.last() {
        lemma_in_order_drop(a, b.drop_last());
    } else {
    }
}

/// Cells appended after `b` do not disturb what occurs in order in `b`.
proof fn lemma_in_order_extend(a: Seq<Cell>, b: Seq<Cell>, c: Seq<Cell>)
    requires
        in_order(a, b),
    ensures
        in_order(a, b + c),
    decreases c.len(),
{
    if c.len() > 0 {
        lemma_in_order_extend(a, b, c.drop_last());
        assert((b + c).drop_last() =~= b + c.drop_last());
        lemma_in_order_weaken(a, b + c);
    } else {
        assert(b + c =~= b);
    }
}

/// Orders side by side combine.
proof fn lemma_in_order_cat(a1: Seq<Cell>, b1: Seq<Cell>, a2: Seq<Cell>, b2: Seq<Cell>)
    requires
        in_order(a1, b1),
        in_order(a2, b2),
    ensures
        in_order(a1 + a2, b1 + b2),
    decreases b2.len(), a2.len(),
{
    if a2.len() == 0 {
        assert(a1 + a2 =~= a1);
        lemma_in_order_extend(a1, b1, b2);
    } else if b2.len() == 0 {
    } else {
        assert((b1 + b2).drop_last() =~= b1 + b2.drop_last());
        assert((b1 + b2).last() == b2.last());
        assert((a1 + a2).last() == a2.last());
        if a2.last() == b2.last() {
            assert((a1 + a2).drop_last() =~= a1 + a2.drop_last());
            lemma_in_order_cat(a1, b1, a2.drop_last(), b2.drop_last());
        } else {
            lemma_in_order_cat(a1, b1, a2, b2.drop_last());
        }
    }
}

/// The literals of a range are those of its two parts.
proof fn lemma_int_lits_split(ts: Seq<SpannedToken>, lo: int, mid: int, hi: int)
    requires
        0 <= lo <= mid <= hi <= ts.len(),
    ensures
        int_lits(ts.subrange(lo, hi)) == int_lits(ts.subrange(lo, mid)) + int_lits(ts.subrange(mid, hi)),
    decreases hi - mid,
{
    if hi == mid {
        assert(ts.subrange(mid, hi) =~= Seq::<SpannedToken>::empty());
        assert(int_lits(ts.subrange(lo, mid)) + Seq::<Cell>::empty() =~= int_lits(ts.subrange(lo, mid)));
    } else {
        lemma_int_lits_split(ts, lo, mid, hi - 1);
        assert(ts.subrange(lo, hi).drop_last() =~= ts.subrange(lo, hi - 1));
        assert(ts.subrange(mid, hi).drop_last() =~= ts.subrange(mid, hi - 1));
        assert(ts.subrange(lo, hi).last() == ts[hi - 1]);
        assert(ts.subrange(mid, hi).last() == ts[hi - 1]);
        assert(int_lits(ts.subrange(lo, mid)) + int_lits(ts.subrange(mid, hi)) =~= int_lits(ts.subrange(lo, mid))
            + int_lits(ts.subrange(mid, hi - 1)) + lit_cell(ts[hi - 1].token));
    }
}

/// A range with no integer literal has none.
proof fn lemma_int_lits_none(ts: Seq<SpannedToken>, lo: int, hi: int)
    requires
        0 <= lo <= hi <= ts.len(),
        forall|k: int| lo <= k < hi ==> #[trigger] lit_cell(ts[k].token).len() == 0,
    ensures
        int_lits(ts.subrange(lo, hi)).len() == 0,
    decreases hi - lo,
{
    if hi > lo {
        lemma_int_lits_none(ts, lo, hi - 1);
        assert(ts.subrange(lo, hi).drop_last() =~= ts.subrange(lo, hi - 1));
        assert(lit_cell(ts[hi - 1].token).len() == 0);
    }
}

/// The cells appended after `a` to reach `c` through `b`.
proof fn lemma_extends_skip(a: Seq<Cell>, b: Seq<Cell>, c: Seq<Cell>)
    requires
        extends(a, b),
        extends(b, c),
    ensures
        c.skip(a.len() as int) == b.skip(a.len() as int) + c.skip(b.len() as int),
{
    assert(c.skip(a.len() as int) =~= b.skip(a.len() as int) + c.skip(b.len() as int)) by {
        assert forall|k: int| 0 <= k < c.len() - a.len() implies c.skip(a.len() as int)[k] == (b.skip(a.len() as int)
            + c.skip(b.len() as int))[k] by {
            if k < b.len() - a.len() {
                assert(c.take(b.len() as int)[a.len() + k] == c[a.len() + k]);
            }
        }
    }
}

/// The literals of a single token.
proof fn lemma_int_lits_one(ts: Seq<SpannedToken>, i: int)
    requires
        0 <= i < ts.len(),
    ensures
        int_lits(ts.subrange(i, i + 1)) == lit_cell(ts[i].token),
{
    let t = ts.subrange(i, i + 1);
    assert(t.drop_last() =~= Seq::<SpannedToken>::empty());
    assert(int_lits(Seq::<SpannedToken>::empty()) == Seq::<Cell>::empty());
    assert(int_lits(t) == int_lits(t.drop_last()) + lit_cell(t.last().token));
    assert(t.last() == ts[i]);
    assert(Seq::<Cell>::empty() + lit_cell(ts[i].token) =~= lit_cell(ts[i].token));
}

/// A part of one expression is one expression.
proof fn lemma_one_expression_sub(ts: Seq<SpannedToken>, lo: int, hi: int, a: int, b: int)
    requires
        0 <= lo <= a <= b <= hi <= ts.len(),
        one_expression(ts.subrange(lo, hi)),
    ensures
        one_expression(ts.subrange(a, b)),
{
    assert forall|k: int| 0 <= k < b - a implies !(#[trigger] ts.subrange(a, b)[k].token is Newline
        || ts.subrange(a, b)[k].token is Eof || ts.subrange(a, b)[k].token is Semicolon) by {
        assert(ts.subrange(a, b)[k] == ts.subrange(lo, hi)[a - lo + k]);
    }
}

/// Code for the tokens `[lo, i)` followed by code for `[i, k)` is code for
/// `[lo, k)`: the literals stay in order.
proof fn lemma_lits_step(ts: Seq<SpannedToken>, lo: int, i: int, k: int, o0: Seq<Cell>, oi: Seq<Cell>, o: Seq<Cell>)
    requires
        0 <= lo <= i <= k <= ts.len(),
        extends(o0, oi),
        extends(oi, o),
        in_order(int_lits(ts.subrange(lo, i)), oi.skip(o0.len() as int)),
        in_order(int_lits(ts.subrange(i, k)), o.skip(oi.len() as int)),
    ensures
        in_order(int_lits(ts.subrange(lo, k)), o.skip(o0.len() as int)),
{
    lemma_int_lits_split(ts, lo, i, k);
    lemma_extends_skip(o0, oi, o);
    lemma_in_order_cat(int_lits(ts.subrange(lo, i)), oi.skip(o0.len() as int), int_lits(ts.subrange(i, k)), o.skip(oi.len() as int));
}

/// `Name ( index )` at `j` (with the `)` at `close`): code for the name, then
/// for the index, then more cells keeps the index literals in order.
proof fn lemma_close_paren_step(ts: Seq<SpannedToken>, j: int, close: int, o_s: Seq<Cell>, o_a: Seq<Cell>, o_b: Seq<Cell>, o: Seq<Cell>)
    requires
        0 <= j,
        j + 2 <= close < ts.len(),
        ts[j].token is Ident,
        ts[j + 1].token is LParen,
        ts[close].token is RParen,
        extends(o_s, o_a),
        extends(o_a, o_b),
        extends(o_b, o),
        one_expression(ts.subrange(j + 2, close)) ==> in_order(int_lits(ts.subrange(j + 2, close)), o_b.skip(o_a.len() as int)),
    ensures
        one_expression(ts.subrange(j, close + 1)) ==> in_order(int_lits(ts.subrange(j, close + 1)), o.skip(o_s.len() as int)),
{
    lemma_bracketed_step(ts, j, 2, close, o_s, o_a, o_b, o);
}

/// `@ Name [ index ]` after `&`, at `j` (with the `]` at `close`).
proof fn lemma_close_bracket_step(ts: Seq<SpannedToken>, j: int, close: int, o_s: Seq<Cell>, o_a: Seq<Cell>, o_b: Seq<Cell>, o: Seq<Cell>)
    requires
        0 <= j,
        j + 3 <= close < ts.len(),
        ts[j].token is At,
        ts[j + 1].token is Ident,
        ts[j + 2].token is LBracket,
        ts[close].token is RBracket,
        extends(o_s, o_a),
        extends(o_a, o_b),
        extends(o_b, o),
        one_expression(ts.subrange(j + 3, close)) ==> in_order(int_lits(ts.subrange(j + 3, close)), o_b.skip(o_a.len() as int)),
    ensures
        one_expression(ts.subrange(j, close + 1)) ==> in_order(int_lits(ts.subrange(j, close + 1)), o.skip(o_s.len() as int)),
{
    lemma_bracketed_step(ts, j, 3, close, o_s, o_a, o_b, o);
}

/// `n` opening tokens without literals at `j`, an inner range up to
/// `close`, and a closing token without a literal.
proof fn lemma_bracketed_step(ts: Seq<SpannedToken>, j: int, n: int, close: int, o_s: Seq<Cell>, o_a: Seq<Cell>, o_b: Seq<Cell>, o: Seq<Cell>)
    requires
        0 <= j,
        1 <= n,
        j + n <= close < ts.len(),
        forall|k: int| j <= k < j + n ==> #[trigger] lit_cell(ts[k].token).len() == 0,
        lit_cell(ts[close].token).len() == 0,
        extends(o_s, o_a),
        extends(o_a, o_b),
        extends(o_b, o),
        one_expression(ts.subrange(j + n, close)) ==> in_order(int_lits(ts.subrange(j + n, close)), o_b.skip(o_a.len() as int)),
    ensures
        one_expression(ts.subrange(j, close + 1)) ==> in_order(int_lits(ts.subrange(j, close + 1)), o.skip(o_s.len() as int)),
{
    if one_expression(ts.subrange(j, close + 1)) {
        lemma_one_expression_sub(ts, j, close + 1, j + n, close);
        lemma_int_lits_none(ts, j, j + n);
        lemma_int_lits_one(ts, close);
        lemma_int_lits_split(ts, j, j + n, close);
        lemma_int_lits_split(ts, j, close, close + 1);
        let mid = int_lits(ts.subrange(j + n, close));
        assert(int_lits(ts.subrange(j, close + 1)) =~= mid);
        lemma_extends_skip(o_s, o_a, o_b);
        lemma_extends_skip(o_s, o_b, o);
        lemma_in_order_cat(Seq::<Cell>::empty(), o_a.skip(o_s.len() as int), mid, o_b.skip(o_a.len() as int));
        assert(Seq::<Cell>::empty() + mid =~= mid);
        lemma_in_order_extend(mid, o_b.skip(o_s.len() as int), o.skip(o_b.len() as int));
    }
}

/// Append one cell to sound compiled code.
fn emit(out: &mut Vec<Cell>, c: Cell, Ghost(offs): Ghost<Seq<usize>>, Ghost(nh): Ghost<nat>)
    requires
        code_ok(old(out)@, offs, nh),
        xt_ok(c, nh),
    ensures
        final(out)@ == old(out)@.push(c),
        extends(old(out)@, final(out)@),
        code_ok(final(out)@, offs, nh),
{
    proof {
        lemma_push_ok(out@, offs, nh, c);
    }
    out.push(c);
}

/// The number of commas in `ts`.
pub open spec fn comma_count(ts: Seq<SpannedToken>) -> nat
    decreases ts.len(),
{
    if ts.len() == 0 {
        0
    } else {
        comma_count(ts.drop_last()) + if ts.last().token is Comma {
            1nat
        } else {
            0nat
        }
    }
}

/// `ts` is a call with flat arguments: `F ( a1 , ... , an )`, each
/// argument made of integer literals and infix operators.
pub open spec fn flat_call(ts: Seq<SpannedToken>) -> bool {
    &&& ts.len() >= 4
    &&& ts[0].token is Ident
    &&& ts[1].token is LParen
    &&& ts[ts.len() - 1].token is RParen
    &&& flat_arith(call_args(ts))
}

/// The argument tokens of a call `F ( ... )`.
pub open spec fn call_args(ts: Seq<SpannedToken>) -> Seq<SpannedToken> {
    ts.subrange(2, ts.len() - 1)
}

/// The header that a call `ts` names: its name (upper-cased) is not a
/// local of the word being compiled, not `ARRAY_LEN`, and is found among
/// the headers (the word being compiled included).
pub open spec fn expr_callee(
    vm: VM,
    locals: Option<Vec<(String, usize)>>,
    self_idx: Option<usize>,
    ts: Seq<SpannedToken>,
) -> Option<usize> {
    match ts[0].token {
        Token::Ident(n) => {
            let name = upper_seq(n@);
            let local = match locals {
                Some(t) => local_lookup(t@, name) is Some,
                None => false,
            };
            if name == "ARRAY_LEN"@ || local {
                None
            } else {
                lookup_in(vm.headers@, vm.headers@.len() as int, name, self_idx, false)
            }
        },
        _ => None,
    }
}

/// The code of a call with flat arguments: the arguments' code in source
/// order, then the call of header `x` with one argument more than there
/// are commas.
pub open spec fn flat_call_code(vm: VM, x: usize, ts: Seq<SpannedToken>, self_idx: Option<usize>) -> Seq<Cell> {
    flat_code(vm, call_args(ts)) + expr_call_code(vm, x, (comma_count(call_args(ts)) + 1) as usize, self_idx)
}

/// An infix operator item that a comma or a closing parenthesis pops.
pub open spec fn inner_bin(o: OpItem) -> bool {
    o matches OpItem::Bin(_, p) && p <= 10
}

/// The waiting operators of the flat reading of call arguments, given the
/// operator stack of the call (the open call at the bottom) and the commas
/// read so far.
pub open spec fn call_flat_ops(ops: Seq<OpItem>, commas: nat) -> Seq<OpItem> {
    (if commas > 0 {
        seq![OpItem::CommaSep]
    } else {
        Seq::empty()
    }) + ops.skip(1)
}

/// The compiler state after `j` argument tokens of a call of header `x`:
/// the open call at the bottom of the operator stack counts the arguments
/// begun, the operators above it are infix operators, and the code so far
/// and the waiting operators agree with the flat reading of the arguments.
pub open spec fn call_state(
    vm: VM,
    args: Seq<SpannedToken>,
    j: int,
    x: usize,
    ops: Seq<OpItem>,
    out: Seq<Cell>,
    prev: bool,
) -> bool {
    let a = comma_count(args.take(j));
    &&& 0 <= j <= args.len()
    &&& a <= j
    &&& ops.len() >= 1
    &&& ops[0] == OpItem::LParen(Some((Xt(x), (a + 1) as usize)))
    &&& forall|k: int| 1 <= k < ops.len() ==> #[trigger] inner_bin(ops[k])
    &&& flat_run(vm, args, 0, Seq::empty(), Seq::empty()) == flat_run(vm, args, j, call_flat_ops(ops, a), out)
    &&& (prev <==> j % 2 == 1)
}

proof fn lemma_comma_count_step(ts: Seq<SpannedToken>, j: int)
    requires
        0 <= j < ts.len(),
    ensures
        comma_count(ts.take(j + 1)) == comma_count(ts.take(j)) + if ts[j].token is Comma {
            1nat
        } else {
            0nat
        },
{
    assert(ts.take(j + 1).drop_last() =~= ts.take(j));
}

proof fn lemma_comma_count_le(ts: Seq<SpannedToken>)
    ensures
        comma_count(ts) <= ts.len(),
    decreases ts.len(),
{
    if ts.len() > 0 {
        lemma_comma_count_le(ts.drop_last());
    }
}

/// Popping from above a bottom item that is not popped gives the same
/// count and code, whatever that bottom item is.
proof fn lemma_pop_over(p1: Seq<OpItem>, p2: Seq<OpItem>, b: Seq<OpItem>, vm: VM, prec: u8, left: bool)
    requires
        p1.len() <= 1,
        p2.len() <= 1,
        !pops_top(p1, prec, left),
        !pops_top(p2, prec, left),
    ensures
        pop_count(p1 + b, prec, left) == pop_count(p2 + b, prec, left),
        pop_count(p1 + b, prec, left) <= b.len(),
        popped_code(vm, p1 + b, pop_count(p1 + b, prec, left)) == popped_code(vm, p2 + b, pop_count(p2 + b, prec, left)),
        (p1 + b).take((p1 + b).len() - pop_count(p1 + b, prec, left)) == p1 + b.take(b.len() - pop_count(p1 + b, prec, left)),
        (p2 + b).take((p2 + b).len() - pop_count(p2 + b, prec, left)) == p2 + b.take(b.len() - pop_count(p2 + b, prec, left)),
    decreases b.len(),
{
    if b.len() == 0 {
        assert(p1 + b =~= p1);
        assert(p2 + b =~= p2);
    } else {
        assert((p1 + b).last() == b.last());
        assert((p2 + b).last() == b.last());
        assert((p1 + b).drop_last() =~= p1 + b.drop_last());
        assert((p2 + b).drop_last() =~= p2 + b.drop_last());
        if pops_top(b, prec, left) {
            lemma_pop_over(p1, p2, b.drop_last(), vm, prec, left);
            let c = pop_count(p1 + b.drop_last(), prec, left);
            assert((p1 + b).take((p1 + b).len() - (c + 1)) =~= (p1 + b.drop_last()).take((p1 + b.drop_last()).len() - c));
            assert((p2 + b).take((p2 + b).len() - (c + 1)) =~= (p2 + b.drop_last()).take((p2 + b.drop_last()).len() - c));
            assert(b.take(b.len() - (c + 1)) =~= b.drop_last().take(b.drop_last().len() - c));
        } else {
            assert((p1 + b).take((p1 + b).len() - 0) =~= p1 + b.take(b.len() - 0));
            assert((p2 + b).take((p2 + b).len() - 0) =~= p2 + b.take(b.len() - 0));
        }
    }
}

/// The code of the top `c` items lies above any bottom items.
proof fn lemma_popped_code_over(vm: VM, p: Seq<OpItem>, b: Seq<OpItem>, c: nat)
    requires
        c <= b.len(),
    ensures
        popped_code(vm, p + b, c) == popped_code(vm, b, c),
    decreases c,
{
    if c > 0 {
        assert((p + b).last() == b.last());
        assert((p + b).drop_last() =~= p + b.drop_last());
        lemma_popped_code_over(vm, p, b.drop_last(), (c - 1) as nat);
    }
}

/// A comma pops every infix operator and comma separator.
proof fn lemma_pop_all(ops: Seq<OpItem>)
    requires
        forall|k: int| 0 <= k < ops.len() ==> inner_bin(#[trigger] ops[k]) || ops[k] is CommaSep,
    ensures
        pop_count(ops, 11, true) == ops.len(),
    decreases ops.len(),
{
    if ops.len() > 0 {
        assert(inner_bin(ops[ops.len() - 1]) || ops[ops.len() - 1] is CommaSep);
        assert forall|k: int| 0 <= k < ops.drop_last().len() implies inner_bin(#[trigger] ops.drop_last()[k])
            || ops.drop_last()[k] is CommaSep by {
            assert(ops.drop_last()[k] == ops[k]);
        }
        lemma_pop_all(ops.drop_last());
    }
}

/// The code of a stack of infix operators with a comma separator or
/// nothing below them.
proof fn lemma_popped_code_comma(vm: VM, p: Seq<OpItem>, b: Seq<OpItem>)
    requires
        p.len() == 0 || p == seq![OpItem::CommaSep],
    ensures
        popped_code(vm, p + b, (p + b).len()) == popped_code(vm, b, b.len()),
{
    lemma_popped_code_over(vm, p, b, b.len());
    if p.len() == 1 {
        lemma_popped_code_split(vm, p + b, b.len());
        assert((p + b)[(p + b).len() - 1 - b.len()] == OpItem::CommaSep);
        assert(popped_code(vm, b, b.len()) + Seq::<Cell>::empty() =~= popped_code(vm, b, b.len()));
    } else {
        assert(p + b =~= b);
    }
}

proof fn lemma_infix_prec(s: Seq<char>)
    ensures
        infix_op(s) matches Some((_o, p, l)) ==> p <= 10 && l,
{
}

/// A literal argument token: its `LIT n` is appended.
proof fn lemma_call_lit_step(vm: VM, args: Seq<SpannedToken>, j: int, x: usize, ops: Seq<OpItem>, out: Seq<Cell>, n: i64)
    requires
        call_state(vm, args, j, x, ops, out, false),
        j < args.len(),
        args[j].token == Token::IntLit(n),
    ensures
        call_state(vm, args, j + 1, x, ops, out + seq![name_xt(vm, "LIT"@), Cell::Int(n)], true),
{
    lemma_comma_count_step(args, j);
    let a = comma_count(args.take(j));
    assert(flat_run(vm, args, j, call_flat_ops(ops, a), out) == flat_run(
        vm,
        args,
        j + 1,
        call_flat_ops(ops, a),
        out + seq![name_xt(vm, "LIT"@), Cell::Int(n)],
    ));
}

/// An infix operator between arguments: the operators above the open call
/// that bind at least as tightly are emitted, then it waits.
proof fn lemma_call_op_step(
    vm: VM,
    args: Seq<SpannedToken>,
    j: int,
    x: usize,
    ops: Seq<OpItem>,
    out: Seq<Cell>,
    op: BinOp,
    prec: u8,
    left: bool,
)
    requires
        call_state(vm, args, j, x, ops, out, true),
        j < args.len(),
        args[j].token matches Token::Op(o) && infix_op(o@) == Some((op, prec, left)),
    ensures
        pop_count(ops, prec, left) < ops.len(),
        call_state(
            vm,
            args,
            j + 1,
            x,
            ops.take(ops.len() - pop_count(ops, prec, left)).push(OpItem::Bin(op, prec)),
            out + popped_code(vm, ops, pop_count(ops, prec, left)),
            false,
        ),
{
    let o = args[j].token->Op_0;
    lemma_infix_prec(o@);
    lemma_comma_count_step(args, j);
    let a = comma_count(args.take(j));
    let p1 = seq![ops[0]];
    let b = ops.skip(1);
    let p2: Seq<OpItem> = if a > 0 { seq![OpItem::CommaSep] } else { Seq::empty() };
    assert(ops =~= p1 + b);
    assert(call_flat_ops(ops, a) =~= p2 + b);
    lemma_pop_over(p1, p2, b, vm, prec, left);
    let c = pop_count(ops, prec, left);
    let nops = ops.take(ops.len() - c).push(OpItem::Bin(op, prec));
    assert(nops.skip(1) =~= b.take(b.len() - c).push(OpItem::Bin(op, prec)));
    assert(call_flat_ops(nops, a) =~= (p2 + b).take((p2 + b).len() - c).push(OpItem::Bin(op, prec)));
    assert forall|k: int| 1 <= k < nops.len() implies #[trigger] inner_bin(nops[k]) by {
        if k < nops.len() - 1 {
            assert(nops[k] == ops[k]);
        }
    }
    assert(flat_run(vm, args, j, call_flat_ops(ops, a), out) == flat_run(
        vm,
        args,
        j + 1,
        call_flat_ops(nops, a),
        out + popped_code(vm, ops, c),
    ));
}

/// A comma between arguments: every operator above the open call is
/// emitted and the call counts one argument more.
proof fn lemma_call_comma_step(vm: VM, args: Seq<SpannedToken>, j: int, x: usize, ops: Seq<OpItem>, out: Seq<Cell>)
    requires
        call_state(vm, args, j, x, ops, out, true),
        j < args.len(),
        args[j].token is Comma,
    ensures
        call_state(
            vm,
            args,
            j + 1,
            x,
            seq![OpItem::LParen(Some((Xt(x), (comma_count(args.take(j)) + 2) as usize)))],
            out + popped_code(vm, ops, (ops.len() - 1) as nat),
            false,
        ),
{
    lemma_comma_count_step(args, j);
    let a = comma_count(args.take(j));
    let p1 = seq![ops[0]];
    let b = ops.skip(1);
    let p2: Seq<OpItem> = if a > 0 { seq![OpItem::CommaSep] } else { Seq::empty() };
    assert(ops =~= p1 + b);
    let f = call_flat_ops(ops, a);
    assert(f =~= p2 + b);
    assert forall|k: int| 0 <= k < f.len() implies inner_bin(#[trigger] f[k]) || f[k] is CommaSep by {
        if a > 0 && k == 0 {
        } else {
            let kk = if a > 0 { k } else { k + 1 };
            assert(f[k] == ops[kk]);
        }
    }
    lemma_pop_all(f);
    lemma_popped_code_comma(vm, p2, b);
    lemma_popped_code_over(vm, p1, b, b.len());
    let nops = seq![OpItem::LParen(Some((Xt(x), (a + 2) as usize)))];
    assert(call_flat_ops(nops, a + 1) =~= f.take(f.len() - f.len()).push(OpItem::CommaSep));
    assert(flat_run(vm, args, j, f, out) == flat_run(
        vm,
        args,
        j + 1,
        call_flat_ops(nops, a + 1),
        out + popped_code(vm, ops, (ops.len() - 1) as nat),
    ));
}

/// The closing parenthesis: the operators above the open call complete the
/// code of the arguments.
proof fn lemma_call_close(vm: VM, args: Seq<SpannedToken>, x: usize, ops: Seq<OpItem>, out: Seq<Cell>)
    requires
        call_state(vm, args, args.len() as int, x, ops, out, true),
    ensures
        out + popped_code(vm, ops, (ops.len() - 1) as nat) == flat_code(vm, args),
        comma_count(args.take(args.len() as int)) == comma_count(args),
{
    assert(args.take(args.len() as int) =~= args);
    let a = comma_count(args);
    let p1 = seq![ops[0]];
    let b = ops.skip(1);
    let p2: Seq<OpItem> = if a > 0 { seq![OpItem::CommaSep] } else { Seq::empty() };
    assert(ops =~= p1 + b);
    assert(call_flat_ops(ops, a) =~= p2 + b);
    lemma_popped_code_comma(vm, p2, b);
    lemma_popped_code_over(vm, p1, b, b.len());
}

/// `ts` is a flat expression in parentheses: `( e )`.
pub open spec fn paren_flat(ts: Seq<SpannedToken>) -> bool {
    &&& ts.len() >= 3
    &&& ts[0].token is LParen
    &&& ts[ts.len() - 1].token is RParen
    &&& flat_arith(ts.subrange(1, ts.len() - 1))
}

/// The compiler state after `j` tokens inside parentheses: the open
/// parenthesis at the bottom of the operator stack, and above it the
/// waiting operators of the flat reading of the inner tokens.
pub open spec fn paren_state(
    vm: VM,
    inner: Seq<SpannedToken>,
    j: int,
    ops: Seq<OpItem>,
    out: Seq<Cell>,
    prev: bool,
) -> bool {
    &&& 0 <= j <= inner.len()
    &&& ops.len() >= 1
    &&& ops[0] == OpItem::LParen(None)
    &&& forall|k: int| 1 <= k < ops.len() ==> inner_bin(#[trigger] ops[k]) || ops[k] is CommaSep
    &&& flat_run(vm, inner, 0, Seq::empty(), Seq::empty()) == flat_run(vm, inner, j, ops.skip(1), out)
    &&& (prev <==> j % 2 == 1)
}

proof fn lemma_paren_lit_step(vm: VM, inner: Seq<SpannedToken>, j: int, ops: Seq<OpItem>, out: Seq<Cell>, n: i64)
    requires
        paren_state(vm, inner, j, ops, out, false),
        j < inner.len(),
        inner[j].token == Token::IntLit(n),
    ensures
        paren_state(vm, inner, j + 1, ops, out + seq![name_xt(vm, "LIT"@), Cell::Int(n)], true),
{
    assert(flat_run(vm, inner, j, ops.skip(1), out) == flat_run(
        vm,
        inner,
        j + 1,
        ops.skip(1),
        out + seq![name_xt(vm, "LIT"@), Cell::Int(n)],
    ));
}

/// An infix operator or a comma inside parentheses: the flat reading's
/// step, above the open parenthesis, which nothing pops.
proof fn lemma_paren_pop_step(
    vm: VM,
    inner: Seq<SpannedToken>,
    j: int,
    ops: Seq<OpItem>,
    out: Seq<Cell>,
    item: OpItem,
    prec: u8,
    left: bool,
)
    requires
        paren_state(vm, inner, j, ops, out, true),
        j < inner.len(),
        inner_bin(item) || item is CommaSep,
        flat_step(vm, inner[j].token, ops.skip(1), out) == (
            ops.skip(1).take(ops.skip(1).len() - pop_count(ops.skip(1), prec, left)).push(item),
            out + popped_code(vm, ops.skip(1), pop_count(ops.skip(1), prec, left)),
        ),
    ensures
        pop_count(ops, prec, left) < ops.len(),
        paren_state(
            vm,
            inner,
            j + 1,
            ops.take(ops.len() - pop_count(ops, prec, left)).push(item),
            out + popped_code(vm, ops, pop_count(ops, prec, left)),
            false,
        ),
{
    let p1 = seq![ops[0]];
    let b = ops.skip(1);
    let e = Seq::<OpItem>::empty();
    assert(ops =~= p1 + b);
    assert(e + b =~= b);
    lemma_pop_over(p1, e, b, vm, prec, left);
    let c = pop_count(ops, prec, left);
    let nops = ops.take(ops.len() - c).push(item);
    assert(nops.skip(1) =~= b.take(b.len() - c).push(item));
    assert forall|k: int| 1 <= k < nops.len() implies inner_bin(#[trigger] nops[k]) || nops[k] is CommaSep by {
        if k < nops.len() - 1 {
            assert(nops[k] == ops[k]);
        }
    }
}

/// The closing parenthesis: the operators above the open parenthesis
/// complete the code of the inner expression.
proof fn lemma_paren_close(vm: VM, inner: Seq<SpannedToken>, ops: Seq<OpItem>, out: Seq<Cell>)
    requires
        paren_state(vm, inner, inner.len() as int, ops, out, true),
    ensures
        out + popped_code(vm, ops, (ops.len() - 1) as nat) == flat_code(vm, inner),
{
    let p1 = seq![ops[0]];
    let b = ops.skip(1);
    assert(ops =~= p1 + b);
    lemma_popped_code_over(vm, p1, b, b.len());
}

/// The address that a lone identifier `n` reads: a local of the word being
/// compiled (its stack slot), else a global variable that is not
/// IMMEDIATE (its dictionary cell).
pub open spec fn expr_var_addr(
    vm: VM,
    locals: Option<Vec<(String, usize)>>,
    self_idx: Option<usize>,
    n: Seq<char>,
) -> Option<Cell> {
    let name = upper_seq(n);
    let local = match locals {
        Some(t) => local_lookup(t@, name),
        None => None,
    };
    if name == "ARRAY_LEN"@ {
        None
    } else if local is Some {
        Some(Cell::StackAddr(local.unwrap()))
    } else {
        match lookup_in(vm.headers@, vm.headers@.len() as int, name, self_idx, false) {
            Some(x) => match vm.headers@[x as int].kind {
                EntryKind::Variable(a) => if has_flag(vm.headers@[x as int].flags, FLAG_IMMEDIATE) {
                    None
                } else {
                    Some(Cell::DictAddr(a))
                },
                _ => None,
            },
            None => None,
        }
    }
}

/// The words that a call of header `x` with flat arguments `args` needs
/// are registered, and the call is accepted: LIT and the operators of the
/// arguments, a word that is not IMMEDIATE, the number of arguments
/// accepted by a variadic word, and CALL for a compiled word (LIT for a
/// variadic primitive).
pub open spec fn call_ready(vm: VM, x: usize, args: Seq<SpannedToken>) -> bool {
    let h = vm.headers@[x as int];
    let arity = comma_count(args) + 1;
    &&& x < vm.headers@.len()
    &&& flat_words_ok(vm, args)
    &&& !has_flag(h.flags, FLAG_IMMEDIATE)
    &&& (!h.is_variadic || arity >= h.arity)
    &&& match h.kind {
        EntryKind::Word(_) => lookup_in(vm.headers@, vm.headers@.len() as int, "CALL"@, None, false) is Some,
        EntryKind::Primitive(_) => h.is_variadic ==> lookup_in(vm.headers@, vm.headers@.len() as int, "LIT"@, None, false)
            is Some,
        EntryKind::Variable(_) | EntryKind::Constant(_) => true,
        _ => false,
    }
}

/// Whether the operator words of the top `c` items lie above any bottom
/// items.
proof fn lemma_popped_ok_over(vm: VM, p: Seq<OpItem>, b: Seq<OpItem>, c: nat)
    requires
        c <= b.len(),
    ensures
        popped_ok(vm, p + b, c) == popped_ok(vm, b, c),
    decreases c,
{
    if c > 0 {
        assert((p + b).last() == b.last());
        assert((p + b).drop_last() =~= p + b.drop_last());
        lemma_popped_ok_over(vm, p, b.drop_last(), (c - 1) as nat);
    }
}

/// Compiles infix expressions to reverse Polish cell sequences.
pub struct ExprCompiler {
    /// Local names (parameters, VARs) of the word being compiled; they
    /// shadow global names.
    pub local_table: Option<Vec<(String, usize)>>,
    /// Name of the word being compiled.
    pub self_word: Option<String>,
    /// Header index of the word being compiled: it can call itself, and
    /// such calls get a placeholder local count.
    pub self_hdr_idx: Option<usize>,
    /// Offsets in the output of the local-count placeholders of
    /// self-recursive calls.
    pub patch_offsets: Vec<usize>,
}

impl ExprCompiler {
    /// A compiler with no local table and no word under definition.
    pub fn new() -> (r: Self)
        ensures
            r.local_table is None,
            r.self_word is None,
            r.self_hdr_idx is None,
            r.patch_offsets@.len() == 0,
    {
        ExprCompiler { local_table: None, self_word: None, self_hdr_idx: None, patch_offsets: Vec::new() }
    }

    /// A compiler for the body of the word `self_word` (header `self_hdr_idx`)
    /// with the given local table.
    pub fn with_context(
        local_table: Option<Vec<(String, usize)>>,
        self_word: Option<String>,
        self_hdr_idx: Option<usize>,
    ) -> (r: Self)
        ensures
            r.local_table == local_table,
            r.self_word == self_word,
            r.self_hdr_idx == self_hdr_idx,
            r.patch_offsets@.len() == 0,
    {
        ExprCompiler { local_table, self_word, self_hdr_idx, patch_offsets: Vec::new() }
    }
}


proof fn lemma_push_placeholder(out: Seq<Cell>, offs: Seq<usize>, nh: nat)
    requires
        code_ok(out, offs, nh),
        out.len() <= usize::MAX,
    ensures
        code_ok(out.push(Cell::Int(0)), offs.push(out.len() as usize), nh),
{
    lemma_push_ok(out, offs, nh, Cell::Int(0));
    let o2 = out.push(Cell::Int(0));
    let f2 = offs.push(out.len() as usize);
    assert forall|j: int| 0 <= j < f2.len() implies (#[trigger] f2[j]) < o2.len() && o2[f2[j] as int]
        == Cell::Int(0) by {
        if j < offs.len() {
            assert(f2[j] == offs[j]);
        }
    }
}

/// Index of the bracket that closes one already opened before `start`
/// (parentheses when `paren`, else square brackets), searching `[start, hi)`.
fn find_matching(tokens: &[SpannedToken], start: usize, hi: usize, paren: bool) -> (r: Option<usize>)
    requires
        hi <= tokens@.len(),
    ensures
        r matches Some(j) ==> start <= j < hi && (if paren {
            tokens@[j as int].token is RParen
        } else {
            tokens@[j as int].token is RBracket
        }),
        r == (match match_scan(tokens@, start as int, hi as int, 0, paren) {
            Some(j) => Some(j as usize),
            None => None::<usize>,
        }),
        match_scan(tokens@, start as int, hi as int, 0, paren) matches Some(j) ==> start <= j < hi,
{
    let mut depth: usize = 0;
    let mut j: usize = start;
    while j < hi
        invariant
            start <= j,
            hi <= tokens@.len(),
            match_scan(tokens@, j as int, hi as int, depth as int, paren) == match_scan(
                tokens@,
                start as int,
                hi as int,
                0,
                paren,
            ),
        decreases hi - j,
    {
        let (is_open, is_close) = match &tokens[j].token {
            Token::LParen => (paren, false),
            Token::RParen => (false, paren),
            Token::LBracket => (!paren, false),
            Token::RBracket => (false, !paren),
            _ => (false, false),
        };
        if is_open {
            if depth < usize::MAX {
                depth = depth + 1;
            }
        } else if is_close {
            if depth == 0 {
                return Some(j);
            }
            depth = depth - 1;
        }
        j = j + 1;
    }
    None
}

impl ExprCompiler {
    /// Append `LIT value`.
    fn emit_lit(&self, vm: &VM, out: &mut Vec<Cell>, value: Cell) -> (r: Result<(), TbxError>)
        requires
            vm.wf(),
            code_ok(old(out)@, self.patch_offsets@, vm.headers@.len()),
            xt_ok(value, vm.headers@.len()),
        ensures
            extends(old(out)@, final(out)@),
            r is Ok ==> final(out)@.len() == old(out)@.len() + 2 && final(out)@.last() == value,
            code_ok(final(out)@, self.patch_offsets@, vm.headers@.len()),
            r is Ok <==> lookup_in(vm.headers@, vm.headers@.len() as int, "LIT"@, None, false) is Some,
            r is Ok ==> final(out)@ == old(out)@ + seq![name_xt(*vm, "LIT"@), value],
            r is Err ==> final(out)@ == old(out)@,
    {
        let lit = require_xt(vm, "LIT")?;
        let ghost o0 = out@;
        emit(out, Cell::Xt(lit), Ghost(self.patch_offsets@), Ghost(vm.headers@.len()));
        emit(out, value, Ghost(self.patch_offsets@), Ghost(vm.headers@.len()));
        assert(out@ =~= o0 + seq![name_xt(*vm, "LIT"@), value]);
        Ok(())
    }

    /// Append `LIT addr FETCH`.
    fn emit_read(&self, vm: &VM, out: &mut Vec<Cell>, addr: Cell) -> (r: Result<(), TbxError>)
        requires
            vm.wf(),
            code_ok(old(out)@, self.patch_offsets@, vm.headers@.len()),
            xt_ok(addr, vm.headers@.len()),
        ensures
            extends(old(out)@, final(out)@),
            code_ok(final(out)@, self.patch_offsets@, vm.headers@.len()),
            r is Ok <==> (lookup_in(vm.headers@, vm.headers@.len() as int, "LIT"@, None, false) is Some && lookup_in(
                vm.headers@,
                vm.headers@.len() as int,
                "FETCH"@,
                None,
                false,
            ) is Some),
            r is Ok ==> final(out)@ == old(out)@ + seq![name_xt(*vm, "LIT"@), addr, name_xt(*vm, "FETCH"@)],
            r is Err ==> final(out)@ == old(out)@,
    {
        let lit = require_xt(vm, "LIT")?;
        let fetch = require_xt(vm, "FETCH")?;
        let ghost o0 = out@;
        emit(out, Cell::Xt(lit), Ghost(self.patch_offsets@), Ghost(vm.headers@.len()));
        emit(out, addr, Ghost(self.patch_offsets@), Ghost(vm.headers@.len()));
        emit(out, Cell::Xt(fetch), Ghost(self.patch_offsets@), Ghost(vm.headers@.len()));
        assert(out@ =~= o0 + seq![name_xt(*vm, "LIT"@), addr, name_xt(*vm, "FETCH"@)]);
        Ok(())
    }

    /// Append the code that calls word `xt` with `arity` arguments.
    fn emit_call(&mut self, vm: &VM, out: &mut Vec<Cell>, xt: Xt, arity: usize) -> (r: Result<(), TbxError>)
        requires
            vm.wf(),
            xt.0 < vm.headers@.len(),
            code_ok(old(out)@, old(self).patch_offsets@, vm.headers@.len()),
        ensures
            extends(old(out)@, final(out)@),
            code_ok(final(out)@, final(self).patch_offsets@, vm.headers@.len()),
            final(self).local_table == old(self).local_table,
            final(self).self_word == old(self).self_word,
            final(self).self_hdr_idx == old(self).self_hdr_idx,
            r is Ok <==> ({
                let h = vm.headers@[xt.0 as int];
                &&& (!h.is_variadic || arity >= h.arity)
                &&& match h.kind {
                    EntryKind::Word(_) => lookup_in(vm.headers@, vm.headers@.len() as int, "CALL"@, None, false) is Some,
                    EntryKind::Primitive(_) => h.is_variadic ==> lookup_in(
                        vm.headers@,
                        vm.headers@.len() as int,
                        "LIT"@,
                        None,
                        false,
                    ) is Some,
                    EntryKind::Variable(_) | EntryKind::Constant(_) => true,
                    _ => false,
                }
            }),
            r is Ok ==> final(out)@ == old(out)@ + expr_call_code(*vm, xt.0, arity, old(self).self_hdr_idx),
            r is Ok && vm.headers@[xt.0 as int].kind is Word && old(self).self_hdr_idx == Some(xt.0)
                ==> final(self).patch_offsets@ == old(self).patch_offsets@.push((old(out)@.len() + 3) as usize),
            !(r is Ok && vm.headers@[xt.0 as int].kind is Word && old(self).self_hdr_idx == Some(xt.0))
                ==> final(self).patch_offsets@ == old(self).patch_offsets@,
    {
        let ghost o0 = out@;
        let h = &vm.headers[xt.0];
        h.check_variadic_arity(arity)?;
        match &h.kind {
            EntryKind::Word(_) => {
                let call = require_xt(vm, "CALL")?;
                emit(out, Cell::Xt(call), Ghost(self.patch_offsets@), Ghost(vm.headers@.len()));
                emit(out, Cell::Xt(xt), Ghost(self.patch_offsets@), Ghost(vm.headers@.len()));
                emit(out, Cell::Int(arity as i64), Ghost(self.patch_offsets@), Ghost(vm.headers@.len()));
                let is_self = match self.self_hdr_idx {
                    Some(k) => k == xt.0,
                    None => false,
                };
                if is_self {
                    let pos = out.len();
                    proof {
                        lemma_push_placeholder(out@, self.patch_offsets@, vm.headers@.len());
                    }
                    self.patch_offsets.push(pos);
                    let ghost o1 = out@;
                    out.push(Cell::Int(0));
                    proof {
                        crate::code::lemma_extends_push(o1, Cell::Int(0));
                    }
                } else {
                    emit(out, Cell::Int(h.local_count as i64), Ghost(self.patch_offsets@), Ghost(vm.headers@.len()));
                }
                assert(out@ =~= o0 + expr_call_code(*vm, xt.0, arity, old(self).self_hdr_idx));
                Ok(())
            },
            EntryKind::Primitive(_) => {
                if h.is_variadic {
                    let lit = require_xt(vm, "LIT")?;
                    emit(out, Cell::Xt(lit), Ghost(self.patch_offsets@), Ghost(vm.headers@.len()));
                    emit(out, Cell::Int(arity as i64), Ghost(self.patch_offsets@), Ghost(vm.headers@.len()));
                }
                emit(out, Cell::Xt(xt), Ghost(self.patch_offsets@), Ghost(vm.headers@.len()));
                assert(out@ =~= o0 + expr_call_code(*vm, xt.0, arity, old(self).self_hdr_idx));
                Ok(())
            },
            EntryKind::Variable(_) | EntryKind::Constant(_) => {
                emit(out, Cell::Xt(xt), Ghost(self.patch_offsets@), Ghost(vm.headers@.len()));
                assert(out@ =~= o0 + expr_call_code(*vm, xt.0, arity, old(self).self_hdr_idx));
                Ok(())
            },
            _ => Err(TbxError::InvalidExpression { reason: "invalid entry kind in function call position" }),
        }
    }

    /// Append the code of one operator-stack item.
    fn emit_op(&self, vm: &VM, out: &mut Vec<Cell>, o: OpItem) -> (r: Result<(), TbxError>)
        requires
            vm.wf(),
            code_ok(old(out)@, self.patch_offsets@, vm.headers@.len()),
        ensures
            extends(old(out)@, final(out)@),
            code_ok(final(out)@, self.patch_offsets@, vm.headers@.len()),
            r is Ok <==> op_word_ok(*vm, o),
            r is Ok ==> final(out)@ == old(out)@ + op_code(*vm, o),
            r is Err ==> final(out)@ == old(out)@,
            o is LParen ==> r == Err::<(), TbxError>(TbxError::InvalidExpression { reason: "unmatched '(' in expression" }),
            o is LBracket ==> r == Err::<(), TbxError>(TbxError::InvalidExpression { reason: "unmatched '[' in expression" }),
    {
        let ghost o0 = out@;
        match o {
            OpItem::Bin(op, _) => {
                let x = require_xt(vm, binop_word_str(op))?;
                emit(out, Cell::Xt(x), Ghost(self.patch_offsets@), Ghost(vm.headers@.len()));
                assert(out@ =~= o0 + op_code(*vm, o));
                Ok(())
            },
            OpItem::UnaryNeg => {
                let x = require_xt(vm, "NEGATE")?;
                emit(out, Cell::Xt(x), Ghost(self.patch_offsets@), Ghost(vm.headers@.len()));
                assert(out@ =~= o0 + op_code(*vm, o));
                Ok(())
            },
            OpItem::CommaSep => {
                assert(out@ =~= o0 + op_code(*vm, o));
                Ok(())
            },
            OpItem::LParen(_) => Err(TbxError::InvalidExpression { reason: "unmatched '(' in expression" }),
            OpItem::LBracket => Err(TbxError::InvalidExpression { reason: "unmatched '[' in expression" }),
        }
    }

    /// Emit operators from the stack while they bind at least as tightly
    /// as an incoming operator of precedence `prec`.
    fn pop_ops_while(&self, vm: &VM, ops: &mut Vec<OpItem>, out: &mut Vec<Cell>, prec: u8, left: bool) -> (r: Result<(), TbxError>)
        requires
            vm.wf(),
            code_ok(old(out)@, self.patch_offsets@, vm.headers@.len()),
            ops_ok(old(ops)@, vm.headers@.len()),
        ensures
            extends(old(out)@, final(out)@),
            code_ok(final(out)@, self.patch_offsets@, vm.headers@.len()),
            ops_ok(final(ops)@, vm.headers@.len()),
            r is Ok <==> popped_ok(*vm, old(ops)@, pop_count(old(ops)@, prec, left)),
            r is Ok ==> final(ops)@ == old(ops)@.take(old(ops)@.len() - pop_count(old(ops)@, prec, left))
                && final(out)@ == old(out)@ + popped_code(*vm, old(ops)@, pop_count(old(ops)@, prec, left)),
    {
        proof {
            lemma_pop_count_le(old(ops)@, prec, left);
        }
        while ops.len() > 0
            invariant
                vm.wf(),
                code_ok(out@, self.patch_offsets@, vm.headers@.len()),
                extends(old(out)@, out@),
                ops_ok(ops@, vm.headers@.len()),
                ops@.len() <= old(ops)@.len(),
                ops@ == old(ops)@.take(ops@.len() as int),
                pop_count(old(ops)@, prec, left) == (old(ops)@.len() - ops@.len()) + pop_count(ops@, prec, left),
                popped_ok(*vm, old(ops)@, pop_count(old(ops)@, prec, left)) == popped_ok(
                    *vm,
                    ops@,
                    pop_count(ops@, prec, left),
                ),
                out@ == old(out)@ + popped_code(*vm, old(ops)@, (old(ops)@.len() - ops@.len()) as nat),
                popped_code(*vm, old(ops)@, pop_count(old(ops)@, prec, left)) == popped_code(
                    *vm,
                    old(ops)@,
                    (old(ops)@.len() - ops@.len()) as nat,
                ) + popped_code(*vm, ops@, pop_count(ops@, prec, left)),
            decreases ops@.len(),
        {
            let top = ops[ops.len() - 1];
            let stop = match top {
                OpItem::LParen(_) | OpItem::LBracket => true,
                _ => {
                    let p = op_prec(top);
                    if left { p > prec } else { p >= prec }
                },
            };
            if stop {
                proof {
                    assert(!pops_top(ops@, prec, left));
                    assert(popped_code(*vm, ops@, 0) =~= Seq::<Cell>::empty());
                    assert(out@ =~= old(out)@ + popped_code(*vm, old(ops)@, pop_count(old(ops)@, prec, left)));
                }
                return Ok(());
            }
            let ghost ops0 = ops@;
            let ghost out0 = out@;
            let o = ops.pop().unwrap();
            proof {
                assert(pops_top(ops0, prec, left));
                lemma_popped_code_split(*vm, old(ops)@, (old(ops)@.len() - ops0.len()) as nat);
                assert(old(ops)@.take(ops0.len() - 1) =~= ops@);
            }
            self.emit_op(vm, out, o)?;
            proof {
                assert(out@ =~= old(out)@ + popped_code(*vm, old(ops)@, (old(ops)@.len() - ops@.len()) as nat));
                assert(popped_code(*vm, ops0, pop_count(ops0, prec, left)) == op_code(*vm, o) + popped_code(
                    *vm,
                    ops@,
                    pop_count(ops@, prec, left),
                ));
            }
        }
        proof {
            assert(popped_code(*vm, ops@, 0) =~= Seq::<Cell>::empty());
            assert(out@ =~= old(out)@ + popped_code(*vm, old(ops)@, pop_count(old(ops)@, prec, left)));
        }
        Ok(())
    }

    /// Append the code that loads an array handle named `name`: a local
    /// slot or a global variable.
    fn emit_array_handle(&self, vm: &VM, out: &mut Vec<Cell>, name: &String, what: &'static str) -> (r: Result<(), TbxError>)
        requires
            vm.wf(),
            code_ok(old(out)@, self.patch_offsets@, vm.headers@.len()),
        ensures
            extends(old(out)@, final(out)@),
            code_ok(final(out)@, self.patch_offsets@, vm.headers@.len()),
            r is Err ==> final(out)@ == old(out)@,
            match self.handle_addr_of(*vm, name@) {
                Ok(addr) => (r is Ok <==> (lookup_in(vm.headers@, vm.headers@.len() as int, "LIT"@, None, false) is Some
                    && lookup_in(vm.headers@, vm.headers@.len() as int, "FETCH"@, None, false) is Some)) && (r is Ok
                    ==> final(out)@ == old(out)@ + seq![name_xt(*vm, "LIT"@), addr, name_xt(*vm, "FETCH"@)]),
                Err(()) => match lookup_in(vm.headers@, vm.headers@.len() as int, name@, self.self_hdr_idx, false) {
                    None => r matches Err(TbxError::UndefinedSymbol { name: n }) && n@ == name@,
                    Some(_) => r == Err::<(), TbxError>(TbxError::TypeError { expected: what, got: "non-variable" }),
                },
            },
    {
        match local_get(&self.local_table, name) {
            Some(idx) => self.emit_read(vm, out, Cell::StackAddr(idx)),
            None => {
                proof {
                    lemma_lookup_in_bounds(vm.headers@, vm.headers@.len() as int, name@, self.self_hdr_idx, false);
                }
                let x = match vm.lookup_including_self(name.as_str(), self.self_hdr_idx) {
                    Some(x) => x,
                    None => {
                        return Err(TbxError::UndefinedSymbol { name: name.clone() });
                    },
                };
                match &vm.headers[x.0].kind {
                    EntryKind::Variable(a) => self.emit_read(vm, out, Cell::DictAddr(*a)),
                    _ => Err(TbxError::TypeError { expected: what, got: "non-variable" }),
                }
            },
        }
    }
}


impl ExprCompiler {
    /// Where an array handle `name` is read from: a local slot, else the
    /// storage of the global variable (or the word being defined).
    pub open spec fn handle_addr_of(&self, vm: VM, name: Seq<char>) -> Result<Cell, ()> {
        match (match self.local_table {
            Some(t) => local_lookup(t@, name),
            None => None,
        }) {
            Some(i) => Ok(Cell::StackAddr(i)),
            None => match lookup_in(vm.headers@, vm.headers@.len() as int, name, self.self_hdr_idx, false) {
                Some(x) => match vm.headers@[x as int].kind {
                    EntryKind::Variable(a) => Ok(Cell::DictAddr(a)),
                    _ => Err(()),
                },
                None => Err(()),
            },
        }
    }

    /// Compile `tokens[lo..hi]` and append the code to `out`.
    #[verifier::rlimit(100)]
    #[verifier::spinoff_prover]
    fn compile_into(&mut self, vm: &VM, tokens: &[SpannedToken], lo: usize, hi: usize, out: &mut Vec<Cell>) -> (r: Result<(), TbxError>)
        requires
            vm.wf(),
            lo <= hi <= tokens@.len(),
            code_ok(old(out)@, old(self).patch_offsets@, vm.headers@.len()),
        ensures
            extends(old(out)@, final(out)@),
            code_ok(final(out)@, final(self).patch_offsets@, vm.headers@.len()),
            final(self).local_table == old(self).local_table,
            final(self).self_word == old(self).self_word,
            final(self).self_hdr_idx == old(self).self_hdr_idx,
            r is Ok && one_expression(tokens@.subrange(lo as int, hi as int)) ==> in_order(
                int_lits(tokens@.subrange(lo as int, hi as int)),
                final(out)@.skip(old(out)@.len() as int),
            ),
            lo == hi ==> r is Ok && final(out)@ == old(out)@,
            r is Ok && flat_arith(tokens@.subrange(lo as int, hi as int)) ==> final(out)@.skip(old(out)@.len() as int)
                == flat_code(*vm, tokens@.subrange(lo as int, hi as int)),
            flat_arith(tokens@.subrange(lo as int, hi as int)) && flat_words_ok(*vm, tokens@.subrange(lo as int, hi as int))
                ==> r is Ok,
            r is Ok && flat_call(tokens@.subrange(lo as int, hi as int)) ==> (expr_callee(
                *vm,
                old(self).local_table,
                old(self).self_hdr_idx,
                tokens@.subrange(lo as int, hi as int),
            ) matches Some(x) ==> final(out)@.skip(old(out)@.len() as int) == flat_call_code(
                *vm,
                x,
                tokens@.subrange(lo as int, hi as int),
                old(self).self_hdr_idx,
            )),
            flat_call(tokens@.subrange(lo as int, hi as int)) ==> (expr_callee(
                *vm,
                old(self).local_table,
                old(self).self_hdr_idx,
                tokens@.subrange(lo as int, hi as int),
            ) matches Some(x) ==> (call_ready(*vm, x, call_args(tokens@.subrange(lo as int, hi as int))) ==> r is Ok)),
            r is Ok && paren_flat(tokens@.subrange(lo as int, hi as int)) ==> final(out)@.skip(old(out)@.len() as int)
                == flat_code(*vm, tokens@.subrange(lo + 1, hi - 1)),
            hi == lo + 1 ==> (tokens@[lo as int].token matches Token::Ident(n) ==> (expr_var_addr(
                *vm,
                old(self).local_table,
                old(self).self_hdr_idx,
                n@,
            ) is Some && lookup_in(vm.headers@, vm.headers@.len() as int, "LIT"@, None, false) is Some && lookup_in(
                vm.headers@,
                vm.headers@.len() as int,
                "FETCH"@,
                None,
                false,
            ) is Some ==> r is Ok)),
            r is Ok && hi == lo + 1 ==> (tokens@[lo as int].token matches Token::Ident(n) ==> (expr_var_addr(
                *vm,
                old(self).local_table,
                old(self).self_hdr_idx,
                n@,
            ) matches Some(c) ==> final(out)@ == old(out)@ + seq![name_xt(*vm, "LIT"@), c, name_xt(*vm, "FETCH"@)])),
            hi == lo + 1 ==> (tokens@[lo as int].token matches Token::IntLit(n) ==> (r is Ok <==> lookup_in(
                vm.headers@,
                vm.headers@.len() as int,
                "LIT"@,
                None,
                false,
            ) is Some) && (r is Ok ==> final(out)@ == old(out)@ + seq![name_xt(*vm, "LIT"@), Cell::Int(n)])),
        decreases hi - lo,
    {
        let ghost nh = vm.headers@.len();
        let ghost lt0 = self.local_table;
        let ghost sw0 = self.self_word;
        let ghost sh0 = self.self_hdr_idx;
        let mut ops: Vec<OpItem> = Vec::new();
        let mut prev_operand = false;
        let mut i: usize = lo;
        assert(out@.skip(old(out)@.len() as int) =~= Seq::<Cell>::empty());
        let ghost range0 = tokens@.subrange(lo as int, hi as int);
        let ghost cm = flat_call(range0) && expr_callee(*vm, self.local_table, self.self_hdr_idx, range0) is Some;
        let ghost cx: usize = if cm {
            expr_callee(*vm, self.local_table, self.self_hdr_idx, range0).unwrap()
        } else {
            0
        };
        let ghost args0 = call_args(range0);
        let ghost pm = paren_flat(range0);
        let ghost inner0 = tokens@.subrange(lo + 1, hi - 1);
        let ghost cr = cm && call_ready(*vm, cx, args0);
        while i < hi
            invariant
                range0 == tokens@.subrange(lo as int, hi as int),
                pm == paren_flat(range0),
                inner0 == tokens@.subrange(lo + 1, hi - 1),
                pm && lo < i < hi ==> paren_state(*vm, inner0, i - lo - 1, ops@, out@.skip(old(out)@.len() as int), prev_operand),
                pm && i == hi ==> ops@.len() == 0 && out@.skip(old(out)@.len() as int) == flat_code(*vm, inner0),
                args0 == call_args(range0),
                cm == (flat_call(range0) && expr_callee(*vm, old(self).local_table, old(self).self_hdr_idx, range0) is Some),
                cm ==> Some(cx) == expr_callee(*vm, old(self).local_table, old(self).self_hdr_idx, range0),
                cm ==> (i == lo || lo + 2 <= i),
                cm && lo + 2 <= i < hi ==> call_state(*vm, args0, i - lo - 2, cx, ops@, out@.skip(old(out)@.len() as int), prev_operand),
                cm && i == hi ==> ops@.len() == 0 && out@.skip(old(out)@.len() as int) == flat_call_code(*vm, cx, range0, old(self).self_hdr_idx),
                cr == (cm && call_ready(*vm, cx, args0)),
                cr == (flat_call(tokens@.subrange(lo as int, hi as int)) && (expr_callee(
                    *vm,
                    old(self).local_table,
                    old(self).self_hdr_idx,
                    tokens@.subrange(lo as int, hi as int),
                ) matches Some(x) && call_ready(*vm, x, call_args(tokens@.subrange(lo as int, hi as int))))),
                cr && lo + 2 <= i < hi ==> bin_ops_ok(*vm, ops@.skip(1)),
                vm.wf(),
                nh == vm.headers@.len(),
                lo <= i <= hi,
                hi <= tokens@.len(),
                code_ok(out@, self.patch_offsets@, nh),
                extends(old(out)@, out@),
                one_expression(tokens@.subrange(lo as int, hi as int)) ==> in_order(int_lits(tokens@.subrange(lo as int, i as int)), out@.skip(old(out)@.len() as int)),
                ops_ok(ops@, nh),
                self.local_table == old(self).local_table,
                self.self_word == old(self).self_word,
                self.self_hdr_idx == old(self).self_hdr_idx,
                i == lo ==> ops@.len() == 0 && out@ == old(out)@,
                i > lo && hi == lo + 1 ==> (tokens@[lo as int].token matches Token::Ident(n) ==> (expr_var_addr(
                    *vm,
                    old(self).local_table,
                    old(self).self_hdr_idx,
                    n@,
                ) matches Some(c) ==> ops@.len() == 0 && out@ == old(out)@ + seq![name_xt(*vm, "LIT"@), c, name_xt(*vm, "FETCH"@)])),
                i > lo && hi == lo + 1 ==> (tokens@[lo as int].token matches Token::IntLit(n) ==> ops@.len() == 0
                    && out@ == old(out)@ + seq![name_xt(*vm, "LIT"@), Cell::Int(n)]
                    && lookup_in(vm.headers@, vm.headers@.len() as int, "LIT"@, None, false) is Some),
                flat_arith(tokens@.subrange(lo as int, hi as int)) ==> flat_run(
                    *vm,
                    tokens@.subrange(lo as int, hi as int),
                    0,
                    Seq::empty(),
                    Seq::empty(),
                ) == flat_run(*vm, tokens@.subrange(lo as int, hi as int), i - lo, ops@, out@.skip(old(out)@.len() as int)),
                flat_arith(tokens@.subrange(lo as int, hi as int)) ==> (prev_operand <==> (i - lo) % 2 == 1),
                flat_arith(tokens@.subrange(lo as int, hi as int)) ==> flat_ops(ops@),
                flat_arith(tokens@.subrange(lo as int, hi as int)) && flat_words_ok(*vm, tokens@.subrange(lo as int, hi as int))
                    ==> bin_ops_ok(*vm, ops@),
            decreases hi - i,
        {
            let mut next_i = i + 1;
            let ghost o_i = out@;
            let ghost range = tokens@.subrange(lo as int, hi as int);
            let ghost ops_i = ops@;
            let ghost cj = i - lo - 2;
            let ghost pj = i - lo - 1;
            proof {
                if pm {
                    assert(inner0 =~= range0.subrange(1, range0.len() - 1));
                    assert(flat_arith(inner0));
                    assert(range0[0] == tokens@[lo as int]);
                    assert(range0[range0.len() - 1] == tokens@[hi - 1]);
                    if lo < i < hi - 1 {
                        assert(flat_at(inner0, pj));
                        assert(inner0[pj] == tokens@[i as int]);
                    }
                    assert(inner0.len() == hi - lo - 2);
                }
                if cm {
                    assert(flat_arith(args0));
                    assert(range0[0] == tokens@[lo as int]);
                    assert(range0[1] == tokens@[lo + 1]);
                    assert(range0[range0.len() - 1] == tokens@[hi - 1]);
                    if i == lo {
                        assert(flat_at(args0, 0));
                        assert(args0[0] == tokens@[lo + 2]);
                    }
                    if lo + 2 <= i < hi - 1 {
                        assert(flat_at(args0, cj));
                        assert(args0[cj] == tokens@[i as int]);
                    }
                    assert(args0.len() == hi - lo - 3);
                }
            }
            proof {
                if flat_arith(range) {
                    assert(flat_at(range, i - lo));
                    assert(range[i - lo] == tokens@[i as int]);
                    if flat_words_ok(*vm, range) {
                        lemma_popped_ok_bin(*vm, ops@, pop_count(ops@, 3, true));
                        lemma_popped_ok_bin(*vm, ops@, pop_count(ops@, 11, true));
                        if (i - lo) % 2 == 1 {
                            assert(flat_word_ok(*vm, range, i - lo));
                            match tokens@[i as int].token {
                                Token::Op(o) => {
                                    let (_op, p, l) = infix_op(o@).unwrap();
                                    lemma_popped_ok_bin(*vm, ops@, pop_count(ops@, p, l));
                                },
                                _ => {},
                            }
                        }
                    }
                }
                if i == lo {
                    assert(out@.skip(old(out)@.len() as int) =~= Seq::<Cell>::empty());
                }
            }
            match &tokens[i].token {
                Token::IntLit(n) | Token::LineNum(n) => {
                    self.emit_lit(vm, out, Cell::Int(*n))?;
                    proof {
                        if pm && lo < i {
                            lemma_paren_lit_step(*vm, inner0, pj, ops@, o_i.skip(old(out)@.len() as int), *n);
                            assert(out@.skip(old(out)@.len() as int) =~= o_i.skip(old(out)@.len() as int) + seq![
                                name_xt(*vm, "LIT"@),
                                Cell::Int(*n),
                            ]);
                        }
                        if cm && lo + 2 <= i {
                            lemma_call_lit_step(*vm, args0, cj, cx, ops@, o_i.skip(old(out)@.len() as int), *n);
                            assert(out@.skip(old(out)@.len() as int) =~= o_i.skip(old(out)@.len() as int) + seq![
                                name_xt(*vm, "LIT"@),
                                Cell::Int(*n),
                            ]);
                        }
                    }
                    proof {
                        let seg = out@.skip(o_i.len() as int);
                        assert(seg.len() == 2 && seg.last() == Cell::Int(*n));
                        assert(seq![Cell::Int(*n)].drop_last() =~= Seq::<Cell>::empty());
                        assert(in_order(Seq::<Cell>::empty(), seg.drop_last()));
                        assert(in_order(seq![Cell::Int(*n)], seg));
                        lemma_int_lits_one(tokens@, i as int);
                        if flat_arith(range) {
                            assert(out@.skip(old(out)@.len() as int) =~= o_i.skip(old(out)@.len() as int) + seq![
                                name_xt(*vm, "LIT"@),
                                Cell::Int(*n),
                            ]);
                        }
                    }
                    prev_operand = true;
                },
                Token::FloatLit(_) => {
                    return Err(TbxError::InvalidExpression { reason: "floating-point literals are not supported" });
                },
                Token::StringLit(s) => {
                    if s.as_str().len() > 65535 {
                        return Err(TbxError::StringTooLong { len: s.as_str().len() });
                    }
                    self.emit_lit(vm, out, Cell::Str(s.clone()))?;
                    prev_operand = true;
                },
                Token::Ident(raw) => {
                    let mut opened_call = false;
                    let name = upper_string(raw.as_str());
                    let len_of = if name == "ARRAY_LEN".to_owned() {
                        array_len_operand(tokens, i, hi)
                    } else {
                        None
                    };
                    if let Some(arr) = len_of {
                        self.emit_array_handle(vm, out, &arr, "array variable for ARRAY_LEN")?;
                        let l = require_hidden_xt(vm, "ARRAY_LEN")?;
                        emit(out, Cell::Xt(l), Ghost(self.patch_offsets@), Ghost(nh));
                        next_i = i + 5;
                        proof {
                            assert forall|k: int| i <= k < i + 5 implies #[trigger] lit_cell(tokens@[k].token).len() == 0 by {
                                if k == i {} else if k == i + 1 {} else if k == i + 2 {} else if k == i + 3 {} else if k == i + 4 {}
                            }
                            lemma_int_lits_none(tokens@, i as int, i + 5);
                        }
                    } else {
                    match local_get(&self.local_table, &name) {
                        Some(idx) => {
                            self.emit_read(vm, out, Cell::StackAddr(idx))?;
                        },
                        None => {
                            proof {
                                lemma_lookup_in_bounds(vm.headers@, nh as int, name@, self.self_hdr_idx, false);
                            }
                            let x = match vm.lookup_including_self(name.as_str(), self.self_hdr_idx) {
                                Some(x) => x,
                                None => {
                                    return Err(TbxError::UndefinedSymbol { name });
                                },
                            };
                            if vm.headers[x.0].flags & FLAG_IMMEDIATE != 0 {
                                return Err(
                                    TbxError::InvalidExpression {
                                        reason: "IMMEDIATE word cannot appear inside an expression",
                                    },
                                );
                            }
                            let next_lparen = i + 1 < hi && matches!(tokens[i + 1].token, Token::LParen);
                            if next_lparen {
                                let next_rparen = i + 2 < hi && matches!(tokens[i + 2].token, Token::RParen);
                                if next_rparen {
                                    self.emit_call(vm, out, x, 0)?;
                                    next_i = i + 3;
                                    proof {
                                        assert forall|k: int| i <= k < i + 3 implies #[trigger] lit_cell(tokens@[k].token).len() == 0 by {
                                            if k == i {} else if k == i + 1 {} else if k == i + 2 {}
                                        }
                                        lemma_int_lits_none(tokens@, i as int, i + 3);
                                    }
                                } else {
                                    ops.push(OpItem::LParen(Some((x, 1))));
                                    next_i = i + 2;
                                    opened_call = true;
                                    proof {
                                        if cm && i == lo {
                                            assert(x.0 == cx);
                                            assert(ops@ =~= seq![OpItem::LParen(Some((Xt(cx), 1usize)))]);
                                            assert(args0.take(0) =~= Seq::<SpannedToken>::empty());
                                            assert(call_flat_ops(ops@, 0) =~= Seq::<OpItem>::empty());
                                            assert(out@.skip(old(out)@.len() as int) =~= Seq::<Cell>::empty());
                                            assert(call_state(*vm, args0, 0, cx, ops@, out@.skip(old(out)@.len() as int), false));
                                            assert(ops@.skip(1) =~= Seq::<OpItem>::empty());
                                        }
                                    }
                                    proof {
                                        assert forall|k: int| i <= k < i + 2 implies #[trigger] lit_cell(tokens@[k].token).len() == 0 by {
                                            if k == i {} else if k == i + 1 {}
                                        }
                                        lemma_int_lits_none(tokens@, i as int, i + 2);
                                    }
                                }
                            } else {
                                match &vm.headers[x.0].kind {
                                    EntryKind::Variable(a) => {
                                        self.emit_read(vm, out, Cell::DictAddr(*a))?;
                                    },
                                    _ => {
                                        self.emit_call(vm, out, x, 0)?;
                                    },
                                }
                            }
                        },
                    }
                    }
                    prev_operand = !opened_call;
                },
                Token::Ampersand => {
                    if prev_operand {
                        self.pop_ops_while(vm, &mut ops, out, 6, true)?;
                        ops.push(OpItem::Bin(BinOp::Band, 6));
                        prev_operand = false;
                    } else {
                        next_i = self.compile_address(vm, tokens, i + 1, hi, out)?;
                        proof {
                            if one_expression(tokens@.subrange(lo as int, hi as int)) {
                                lemma_one_expression_sub(tokens@, lo as int, hi as int, i + 1, next_i as int);
                                lemma_int_lits_one(tokens@, i as int);
                                lemma_int_lits_split(tokens@, i as int, i + 1, next_i as int);
                                assert(int_lits(tokens@.subrange(i as int, next_i as int)) =~= int_lits(
                                    tokens@.subrange(i + 1, next_i as int),
                                ));
                            }
                        }
                        prev_operand = true;
                    }
                },
                Token::Op(o) => {
                    let is_minus = *o == "-".to_owned();
                    if is_minus && !prev_operand {
                        ops.push(OpItem::UnaryNeg);
                    } else if is_minus {
                        proof {
                            if cr && lo + 2 <= i {
                                let b = ops_i.skip(1);
                                assert(ops_i =~= seq![ops_i[0]] + b);
                                assert(Seq::<OpItem>::empty() + b =~= b);
                                lemma_pop_over(seq![ops_i[0]], Seq::<OpItem>::empty(), b, *vm, 3, true);
                                lemma_popped_ok_over(*vm, seq![ops_i[0]], b, pop_count(ops_i, 3, true));
                                lemma_popped_ok_bin(*vm, b, pop_count(ops_i, 3, true));
                            }
                        }
                        self.pop_ops_while(vm, &mut ops, out, 3, true)?;
                        ops.push(OpItem::Bin(BinOp::Sub, 3));
                        proof {
                            if pm && lo < i {
                                assert(o@ == "-"@);
                                lemma_paren_pop_step(*vm, inner0, pj, ops_i, o_i.skip(old(out)@.len() as int), OpItem::Bin(BinOp::Sub, 3), 3, true);
                                assert(out@.skip(old(out)@.len() as int) =~= o_i.skip(old(out)@.len() as int)
                                    + popped_code(*vm, ops_i, pop_count(ops_i, 3, true)));
                            }
                            if cm && lo + 2 <= i {
                                assert(o@ == "-"@);
                                lemma_call_op_step(*vm, args0, cj, cx, ops_i, o_i.skip(old(out)@.len() as int), BinOp::Sub, 3, true);
                                if cr {
                                    assert(flat_word_ok(*vm, args0, cj));
                                    assert forall|m: int| 0 <= m < ops@.skip(1).len() implies op_word_ok(*vm, #[trigger] ops@.skip(1)[m]) by {
                                        if m < ops@.skip(1).len() - 1 {
                                            assert(ops@.skip(1)[m] == ops_i.skip(1)[m]);
                                        }
                                    }
                                }
                                assert(out@.skip(old(out)@.len() as int) =~= o_i.skip(old(out)@.len() as int)
                                    + popped_code(*vm, ops_i, pop_count(ops_i, 3, true)));
                            }
                        }
                        proof {
                            assert(o@ == "-"@);
                            if flat_arith(range) {
                                assert(out@.skip(old(out)@.len() as int) =~= o_i.skip(old(out)@.len() as int)
                                    + popped_code(*vm, ops_i, pop_count(ops_i, 3, true)));
                            }
                            if flat_arith(range) {
                                lemma_pop_count_le(ops_i, 3, true);
                                assert forall|j: int| 0 <= j < ops@.len() implies (#[trigger] ops@[j]) is Bin
                                    || ops@[j] is CommaSep by {
                                    if j < ops@.len() - 1 {
                                        assert(ops@[j] == ops_i[j]);
                                    }
                                }
                            }
                            if flat_arith(range) && flat_words_ok(*vm, range) {
                                lemma_pop_count_le(ops_i, 3, true);
                                assert(flat_word_ok(*vm, range, i - lo));
                                assert forall|j: int| 0 <= j < ops@.len() implies op_word_ok(*vm, #[trigger] ops@[j]) by {
                                    if j < ops@.len() - 1 {
                                        assert(ops@[j] == ops_i[j]);
                                    }
                                }
                            }
                        }
                    } else {
                        match binary_op_info(o.as_str()) {
                            Some((op, prec, left)) => {
                                proof {
                                    if cr && lo + 2 <= i {
                                        let b = ops_i.skip(1);
                                        assert(ops_i =~= seq![ops_i[0]] + b);
                                        assert(Seq::<OpItem>::empty() + b =~= b);
                                        lemma_pop_over(seq![ops_i[0]], Seq::<OpItem>::empty(), b, *vm, prec, left);
                                        lemma_popped_ok_over(*vm, seq![ops_i[0]], b, pop_count(ops_i, prec, left));
                                        lemma_popped_ok_bin(*vm, b, pop_count(ops_i, prec, left));
                                    }
                                }
                                self.pop_ops_while(vm, &mut ops, out, prec, left)?;
                                ops.push(OpItem::Bin(op, prec));
                                proof {
                                    if pm && lo < i {
                                        assert(o@ != "-"@);
                                        lemma_infix_prec(o@);
                                        lemma_paren_pop_step(*vm, inner0, pj, ops_i, o_i.skip(old(out)@.len() as int), OpItem::Bin(op, prec), prec, left);
                                        assert(out@.skip(old(out)@.len() as int) =~= o_i.skip(old(out)@.len() as int)
                                            + popped_code(*vm, ops_i, pop_count(ops_i, prec, left)));
                                    }
                                    if cm && lo + 2 <= i {
                                        assert(o@ != "-"@);
                                        lemma_call_op_step(*vm, args0, cj, cx, ops_i, o_i.skip(old(out)@.len() as int), op, prec, left);
                                        if cr {
                                            assert(flat_word_ok(*vm, args0, cj));
                                            assert forall|m: int| 0 <= m < ops@.skip(1).len() implies op_word_ok(*vm, #[trigger] ops@.skip(1)[m]) by {
                                                if m < ops@.skip(1).len() - 1 {
                                                    assert(ops@.skip(1)[m] == ops_i.skip(1)[m]);
                                                }
                                            }
                                        }
                                        assert(out@.skip(old(out)@.len() as int) =~= o_i.skip(old(out)@.len() as int)
                                            + popped_code(*vm, ops_i, pop_count(ops_i, prec, left)));
                                    }
                                }
                                proof {
                                    if flat_arith(range) {
                                        assert(out@.skip(old(out)@.len() as int) =~= o_i.skip(old(out)@.len() as int)
                                            + popped_code(*vm, ops_i, pop_count(ops_i, prec, left)));
                                    }
                                    if flat_arith(range) {
                                        lemma_pop_count_le(ops_i, prec, left);
                                        assert forall|j: int| 0 <= j < ops@.len() implies (#[trigger] ops@[j]) is Bin
                                            || ops@[j] is CommaSep by {
                                            if j < ops@.len() - 1 {
                                                assert(ops@[j] == ops_i[j]);
                                            }
                                        }
                                    }
                                    if flat_arith(range) && flat_words_ok(*vm, range) {
                                        lemma_pop_count_le(ops_i, prec, left);
                                        assert(flat_word_ok(*vm, range, i - lo));
                                        assert forall|j: int| 0 <= j < ops@.len() implies op_word_ok(*vm, #[trigger] ops@[j]) by {
                                            if j < ops@.len() - 1 {
                                                assert(ops@[j] == ops_i[j]);
                                            }
                                        }
                                    }
                                }
                            },
                            None => {
                                return Err(TbxError::InvalidExpression { reason: "unknown operator in expression" });
                            },
                        }
                    }
                    prev_operand = false;
                },
                Token::LParen => {
                    ops.push(OpItem::LParen(None));
                    prev_operand = false;
                    proof {
                        if pm && i == lo {
                            assert(ops@ =~= seq![OpItem::LParen(None::<(Xt, usize)>)]);
                            assert(ops@.skip(1) =~= Seq::<OpItem>::empty());
                            assert(out@.skip(old(out)@.len() as int) =~= Seq::<Cell>::empty());
                        }
                    }
                },
                Token::RParen => {
                    let ghost cmi = cm && lo + 2 <= i && i < hi;
                    let ghost pmi = pm && lo < i && i < hi;
                    proof {
                        if cr {
                            assert(lo + 2 <= i);
                            assert forall|m: int| 1 <= m < ops_i.len() implies op_word_ok(*vm, #[trigger] ops_i[m]) by {
                                assert(ops_i.skip(1)[m - 1] == ops_i[m]);
                            }
                        }
                        if pmi {
                            assert(pj == inner0.len());
                            assert(paren_state(*vm, inner0, pj, ops_i, o_i.skip(old(out)@.len() as int), prev_operand));
                        }
                        if cmi {
                            assert(cj == args0.len());
                            assert(call_state(*vm, args0, cj, cx, ops_i, o_i.skip(old(out)@.len() as int), prev_operand));
                        }
                    }
                    assert(o_i + popped_code(*vm, ops_i, 0) =~= o_i);
                    assert(ops_i.take(ops_i.len() as int) =~= ops_i);
                    loop
                        invariant
                            vm.wf(),
                            nh == vm.headers@.len(),
                            code_ok(out@, self.patch_offsets@, nh),
                            extends(old(out)@, out@),
                            extends(o_i, out@),
                            ops@.len() <= ops_i.len(),
                            ops@ == ops_i.take(ops@.len() as int),
                            out@ == o_i + popped_code(*vm, ops_i, (ops_i.len() - ops@.len()) as nat),
                            cmi ==> ops@.len() >= 1 && ops_i.len() >= 1 && ops_i[0] is LParen,
                            cmi ==> forall|m: int| 1 <= m < ops_i.len() ==> #[trigger] inner_bin(ops_i[m]),
                            cr ==> cmi,
                            cr ==> forall|m: int| 1 <= m < ops_i.len() ==> op_word_ok(*vm, #[trigger] ops_i[m]),
                            pmi ==> ops@.len() >= 1 && ops_i.len() >= 1 && ops_i[0] is LParen,
                            pmi ==> forall|m: int| 1 <= m < ops_i.len() ==> inner_bin(#[trigger] ops_i[m]) || ops_i[m] is CommaSep,
                            ops_ok(ops@, nh),
                            self.local_table == old(self).local_table,
                            self.self_word == old(self).self_word,
                            self.self_hdr_idx == old(self).self_hdr_idx,
                            lo <= i < hi,
                            !(tokens@[i as int].token is IntLit),
                            !(tokens@[i as int].token is Ident),
                            cr == (flat_call(tokens@.subrange(lo as int, hi as int)) && (expr_callee(
                                    *vm,
                                    old(self).local_table,
                                    old(self).self_hdr_idx,
                                    tokens@.subrange(lo as int, hi as int),
                                ) matches Some(x) && call_ready(*vm, x, call_args(tokens@.subrange(lo as int, hi as int))))),
                            !flat_arith(tokens@.subrange(lo as int, hi as int)),
                        ensures
                            cmi ==> ops@.len() == 1,
                            pmi ==> ops@.len() == 1,
                        decreases ops@.len(),
                    {
                        if ops.len() == 0 {
                            return Err(TbxError::InvalidExpression { reason: "unmatched ')' in expression" });
                        }
                        let top = ops[ops.len() - 1];
                        if let OpItem::LParen(_) = top {
                            proof {
                                if cmi && ops@.len() > 1 {
                                    assert(ops_i[ops@.len() - 1] == ops@[ops@.len() - 1]);
                                    assert(inner_bin(ops_i[ops@.len() - 1]));
                                }
                                if pmi && ops@.len() > 1 {
                                    assert(ops_i[ops@.len() - 1] == ops@[ops@.len() - 1]);
                                    assert(inner_bin(ops_i[ops@.len() - 1]) || ops_i[ops@.len() - 1] is CommaSep);
                                }
                            }
                            break ;
                        }
                        let ghost opsb = ops@;
                        let o = ops.pop().unwrap();
                        proof {
                            if cr {
                                assert(o == ops_i[opsb.len() - 1]);
                                assert(op_word_ok(*vm, ops_i[opsb.len() - 1]));
                            }
                        }
                        self.emit_op(vm, out, o)?;
                        proof {
                            let c = (ops_i.len() - opsb.len()) as nat;
                            lemma_popped_code_split(*vm, ops_i, c);
                            assert(ops_i[ops_i.len() - 1 - c] == o);
                            assert(ops@ =~= ops_i.take(ops@.len() as int));
                            assert(out@ =~= o_i + popped_code(*vm, ops_i, (ops_i.len() - ops@.len()) as nat));
                            if (cmi || pmi) && opsb.len() == 1 {
                                assert(opsb[0] == ops_i[0]);
                            }
                        }
                    }
                    let ghost o_p = out@;
                    let open = match ops.pop() {
                        Some(o) => o,
                        None => {
                            return Err(TbxError::InvalidExpression { reason: "unmatched ')' in expression" });
                        },
                    };
                    proof {
                        if pmi {
                            assert(open == ops_i[0]);
                            lemma_paren_close(*vm, inner0, ops_i, o_i.skip(old(out)@.len() as int));
                            assert(o_p.skip(old(out)@.len() as int) =~= o_i.skip(old(out)@.len() as int) + popped_code(
                                *vm,
                                ops_i,
                                (ops_i.len() - 1) as nat,
                            ));
                        }
                        if cmi {
                            assert(open == ops_i[0]);
                            lemma_call_close(*vm, args0, cx, ops_i, o_i.skip(old(out)@.len() as int));
                            assert(o_p.skip(old(out)@.len() as int) =~= o_i.skip(old(out)@.len() as int) + popped_code(
                                *vm,
                                ops_i,
                                (ops_i.len() - 1) as nat,
                            ));
                        }
                    }
                    if let OpItem::LParen(Some((x, arity))) = open {
                        if !prev_operand && arity > 0 {
                            return Err(
                                TbxError::InvalidExpression { reason: "trailing comma in function call argument list" },
                            );
                        }
                        self.emit_call(vm, out, x, arity)?;
                        proof {
                            if cmi {
                                assert(out@.skip(old(out)@.len() as int) =~= o_p.skip(old(out)@.len() as int)
                                    + expr_call_code(*vm, cx, arity, old(self).self_hdr_idx));
                                assert(range0 == tokens@.subrange(lo as int, hi as int));
                                assert(call_args(range0) == args0);
                                assert(out@.skip(old(out)@.len() as int) == flat_call_code(*vm, cx, range0, old(self).self_hdr_idx));
                            }
                        }
                    }
                    prev_operand = true;
                },
                Token::LBracket => {
                    if prev_operand {
                        ops.push(OpItem::LBracket);
                        prev_operand = false;
                    } else {
                        return Err(
                            TbxError::InvalidExpression { reason: "'[' without a preceding expression is not supported" },
                        );
                    }
                },
                Token::RBracket => {
                    proof {
                        if cm {
                            assert(i == lo || lo + 2 <= i);
                        }
                    }
                    loop
                        invariant
                            !cr,
                            vm.wf(),
                            nh == vm.headers@.len(),
                            code_ok(out@, self.patch_offsets@, nh),
                            extends(old(out)@, out@),
                            extends(o_i, out@),
                            ops_ok(ops@, nh),
                            self.local_table == old(self).local_table,
                            self.self_word == old(self).self_word,
                            self.self_hdr_idx == old(self).self_hdr_idx,
                            lo <= i < hi,
                            !(tokens@[i as int].token is IntLit),
                            !(tokens@[i as int].token is Ident),
                            cr == (flat_call(tokens@.subrange(lo as int, hi as int)) && (expr_callee(
                                    *vm,
                                    old(self).local_table,
                                    old(self).self_hdr_idx,
                                    tokens@.subrange(lo as int, hi as int),
                                ) matches Some(x) && call_ready(*vm, x, call_args(tokens@.subrange(lo as int, hi as int))))),
                            !flat_arith(tokens@.subrange(lo as int, hi as int)),
                        decreases ops@.len(),
                    {
                        if ops.len() == 0 {
                            return Err(TbxError::InvalidExpression { reason: "unmatched ']' in expression" });
                        }
                        let top = ops[ops.len() - 1];
                        if let OpItem::LBracket = top {
                            break ;
                        }
                        let o = ops.pop().unwrap();
                        self.emit_op(vm, out, o)?;
                    }
                    ops.pop();
                    if !prev_operand {
                        return Err(TbxError::InvalidExpression { reason: "missing index expression in []" });
                    }
                    let tg = require_xt(vm, "TUPLE_GET")?;
                    emit(out, Cell::Xt(tg), Ghost(self.patch_offsets@), Ghost(nh));
                    prev_operand = true;
                },
                Token::Comma => {
                    let ghost cmi = cm && lo + 2 <= i && i < hi;
                    let ghost pmi = pm && lo < i && i < hi;
                    let mut k: usize = ops.len();
                    let mut in_call = false;
                    while k > 0
                        invariant
                            k <= ops@.len(),
                            ops@ == ops_i,
                            flat_arith(range) ==> flat_ops(ops@) && !in_call,
                            cmi ==> ops_i.len() >= 1 && ops_i[0] is LParen && ops_i[0]->LParen_0 is Some,
                            cmi ==> forall|m: int| 1 <= m < ops_i.len() ==> #[trigger] inner_bin(ops_i[m]),
                            cmi ==> (in_call || k >= 1),
                            pmi ==> ops_i.len() >= 1 && ops_i[0] == OpItem::LParen(None::<(Xt, usize)>),
                            pmi ==> forall|m: int| 1 <= m < ops_i.len() ==> inner_bin(#[trigger] ops_i[m]) || ops_i[m] is CommaSep,
                            pmi ==> !in_call,
                        ensures
                            cmi ==> in_call,
                            flat_arith(range) ==> !in_call,
                        decreases k,
                    {
                        if let OpItem::LParen(c) = ops[k - 1] {
                            proof {
                                if cmi && k > 1 {
                                    assert(inner_bin(ops_i[k - 1]));
                                }
                                if pmi && k > 1 {
                                    assert(inner_bin(ops_i[k - 1]) || ops_i[k - 1] is CommaSep);
                                }
                            }
                            in_call = c.is_some();
                            break ;
                        }
                        k = k - 1;
                    }
                    proof {
                        if cmi {
                            assert(call_state(*vm, args0, cj, cx, ops_i, o_i.skip(old(out)@.len() as int), prev_operand));
                        }
                        if cr {
                            assert(lo + 2 <= i);
                            assert forall|m: int| 1 <= m < ops_i.len() implies op_word_ok(*vm, #[trigger] ops_i[m]) by {
                                assert(ops_i.skip(1)[m - 1] == ops_i[m]);
                            }
                        }
                    }
                    if in_call {
                        assert(o_i + popped_code(*vm, ops_i, 0) =~= o_i);
                        assert(ops_i.take(ops_i.len() as int) =~= ops_i);
                        loop
                            invariant
                                vm.wf(),
                                nh == vm.headers@.len(),
                                code_ok(out@, self.patch_offsets@, nh),
                                extends(old(out)@, out@),
                                extends(o_i, out@),
                                ops@.len() <= ops_i.len(),
                                ops@ == ops_i.take(ops@.len() as int),
                                out@ == o_i + popped_code(*vm, ops_i, (ops_i.len() - ops@.len()) as nat),
                                cmi ==> ops@.len() >= 1 && ops_i.len() >= 1 && ops_i[0] is LParen,
                                cmi ==> forall|m: int| 1 <= m < ops_i.len() ==> #[trigger] inner_bin(ops_i[m]),
                                cr ==> cmi,
                                cr ==> forall|m: int| 1 <= m < ops_i.len() ==> op_word_ok(*vm, #[trigger] ops_i[m]),
                                ops_ok(ops@, nh),
                                self.local_table == old(self).local_table,
                                self.self_word == old(self).self_word,
                                self.self_hdr_idx == old(self).self_hdr_idx,
                                lo <= i < hi,
                                !(tokens@[i as int].token is IntLit),
                                !(tokens@[i as int].token is Ident),
                                cr == (flat_call(tokens@.subrange(lo as int, hi as int)) && (expr_callee(
                                        *vm,
                                        old(self).local_table,
                                        old(self).self_hdr_idx,
                                        tokens@.subrange(lo as int, hi as int),
                                    ) matches Some(x) && call_ready(*vm, x, call_args(tokens@.subrange(lo as int, hi as int))))),
                                !flat_arith(tokens@.subrange(lo as int, hi as int)),
                            ensures
                                cmi ==> ops@.len() == 1,
                            decreases ops@.len(),
                        {
                            if ops.len() == 0 {
                                break ;
                            }
                            let top = ops[ops.len() - 1];
                            if let OpItem::LParen(_) = top {
                                proof {
                                    if cmi && ops@.len() > 1 {
                                        assert(ops_i[ops@.len() - 1] == ops@[ops@.len() - 1]);
                                        assert(inner_bin(ops_i[ops@.len() - 1]));
                                    }
                                }
                                break ;
                            }
                            let ghost opsb = ops@;
                            let ghost o1 = out@;
                            let o = ops.pop().unwrap();
                            proof {
                                if cr {
                                    assert(o == ops_i[opsb.len() - 1]);
                                    assert(op_word_ok(*vm, ops_i[opsb.len() - 1]));
                                }
                            }
                            self.emit_op(vm, out, o)?;
                            proof {
                                let c = (ops_i.len() - opsb.len()) as nat;
                                lemma_popped_code_split(*vm, ops_i, c);
                                assert(ops_i[ops_i.len() - 1 - c] == o);
                                assert(ops@ =~= ops_i.take(ops@.len() as int));
                                assert(out@ =~= o_i + popped_code(*vm, ops_i, (ops_i.len() - ops@.len()) as nat));
                                if cmi && opsb.len() == 1 {
                                    assert(opsb[0] == ops_i[0]);
                                }
                            }
                        }
                        let n = ops.len();
                        if n > 0 {
                            if let OpItem::LParen(Some((x, arity))) = ops[n - 1] {
                                let a2 = if arity < usize::MAX { arity + 1 } else { arity };
                                ops.set(n - 1, OpItem::LParen(Some((x, a2))));
                            }
                        }
                        proof {
                            if cmi {
                                lemma_comma_count_le(args0.take(cj));
                                lemma_call_comma_step(*vm, args0, cj, cx, ops_i, o_i.skip(old(out)@.len() as int));
                                assert(ops@ =~= seq![OpItem::LParen(Some((Xt(cx), (comma_count(args0.take(cj)) + 2) as usize)))]);
                                assert(ops@.skip(1) =~= Seq::<OpItem>::empty());
                                assert(out@.skip(old(out)@.len() as int) =~= o_i.skip(old(out)@.len() as int) + popped_code(
                                    *vm,
                                    ops_i,
                                    (ops_i.len() - 1) as nat,
                                ));
                            }
                        }
                    } else {
                        self.pop_ops_while(vm, &mut ops, out, 11, true)?;
                        ops.push(OpItem::CommaSep);
                        proof {
                            if pmi {
                                assert(paren_state(*vm, inner0, pj, ops_i, o_i.skip(old(out)@.len() as int), prev_operand));
                                lemma_paren_pop_step(*vm, inner0, pj, ops_i, o_i.skip(old(out)@.len() as int), OpItem::CommaSep, 11, true);
                                assert(out@.skip(old(out)@.len() as int) =~= o_i.skip(old(out)@.len() as int)
                                    + popped_code(*vm, ops_i, pop_count(ops_i, 11, true)));
                            }
                        }
                        proof {
                            if flat_arith(range) {
                                lemma_pop_count_le(ops_i, 11, true);
                                assert(out@.skip(old(out)@.len() as int) =~= o_i.skip(old(out)@.len() as int)
                                    + popped_code(*vm, ops_i, pop_count(ops_i, 11, true)));
                                assert forall|j: int| 0 <= j < ops@.len() implies (#[trigger] ops@[j]) is Bin
                                    || ops@[j] is CommaSep by {
                                    if j < ops@.len() - 1 {
                                        assert(ops@[j] == ops_i[j]);
                                    }
                                }
                                if flat_words_ok(*vm, range) {
                                    assert forall|j: int| 0 <= j < ops@.len() implies op_word_ok(*vm, #[trigger] ops@[j]) by {
                                        if j < ops@.len() - 1 {
                                            assert(ops@[j] == ops_i[j]);
                                        }
                                    }
                                }
                            }
                        }
                    }
                    prev_operand = false;
                },
                Token::At => {
                    let (name, close) = self.at_index(tokens, i + 1, hi)?;
                    self.emit_array_handle(vm, out, &name, "array variable for @-sigil access")?;
                    let ghost o_a = out@;
                    self.compile_into(vm, tokens, i + 3, close, out)?;
                    let ghost o_b = out@;
                    let g = require_hidden_xt(vm, "ARRAY_GET")?;
                    emit(out, Cell::Xt(g), Ghost(self.patch_offsets@), Ghost(nh));
                    next_i = close + 1;
                    proof {
                        if one_expression(tokens@.subrange(lo as int, hi as int)) {
                            lemma_one_expression_sub(tokens@, lo as int, hi as int, i + 3, close as int);
                            assert forall|k: int| i <= k < i + 3 implies #[trigger] lit_cell(tokens@[k].token).len() == 0 by {
                                if k == i {} else if k == i + 1 {} else if k == i + 2 {}
                            }
                            lemma_int_lits_none(tokens@, i as int, i + 3);
                            lemma_int_lits_one(tokens@, close as int);
                            lemma_int_lits_split(tokens@, i as int, i + 3, close as int);
                            lemma_int_lits_split(tokens@, i as int, close as int, close + 1);
                            let mid = int_lits(tokens@.subrange(i + 3, close as int));
                            assert(int_lits(tokens@.subrange(i as int, close + 1)) =~= mid);
                            lemma_extends_skip(o_i, o_a, o_b);
                            lemma_extends_skip(o_i, o_b, out@);
                            lemma_in_order_cat(Seq::<Cell>::empty(), o_a.skip(o_i.len() as int), mid, o_b.skip(o_a.len() as int));
                            assert(Seq::<Cell>::empty() + mid =~= mid);
                            lemma_in_order_extend(mid, o_b.skip(o_i.len() as int), out@.skip(o_b.len() as int));
                        }
                    }
                    prev_operand = true;
                },
                Token::Newline | Token::Eof | Token::Semicolon => {
                    proof {
                        if one_expression(tokens@.subrange(lo as int, hi as int)) {
                            assert(tokens@.subrange(lo as int, hi as int)[i - lo] == tokens@[i as int]);
                        }
                    }
                    next_i = hi;
                },
                Token::Error(_) => {
                    return Err(
                        TbxError::InvalidExpression {
                            reason: "lexer error in expression (e.g. unterminated string literal)",
                        },
                    );
                },
                _ => {},
            }
            proof {
                if one_expression(tokens@.subrange(lo as int, hi as int)) {
                    if next_i == i + 1 {
                        lemma_int_lits_one(tokens@, i as int);
                    }
                    lemma_lits_step(tokens@, lo as int, i as int, next_i as int, old(out)@, o_i, out@);
                }
            }
            i = next_i;
        }
        let ghost ops0 = ops@;
        let ghost out0 = out@;
        proof {
            if flat_arith(tokens@.subrange(lo as int, hi as int)) {
                assert(popped_code(*vm, ops0, 0) =~= Seq::<Cell>::empty());
                assert(out0.skip(old(out)@.len() as int) + popped_code(*vm, ops0, 0) =~= out0.skip(old(out)@.len() as int));
            }
        }
        while ops.len() > 0
            invariant
                ops@.len() <= ops0.len(),
                ops@ == ops0.take(ops@.len() as int),
                extends(out0, out@),
                range0 == tokens@.subrange(lo as int, hi as int),
                cm == (flat_call(range0) && expr_callee(*vm, old(self).local_table, old(self).self_hdr_idx, range0) is Some),
                cm ==> Some(cx) == expr_callee(*vm, old(self).local_table, old(self).self_hdr_idx, range0),
                pm == paren_flat(range0),
                inner0 == tokens@.subrange(lo + 1, hi - 1),
                pm ==> ops0.len() == 0 && out@ == out0 && out0.skip(old(out)@.len() as int) == flat_code(*vm, inner0),
                cm ==> ops0.len() == 0 && out@ == out0 && out0.skip(old(out)@.len() as int) == flat_call_code(
                    *vm,
                    cx,
                    range0,
                    old(self).self_hdr_idx,
                ),
                flat_arith(tokens@.subrange(lo as int, hi as int)) ==> flat_run(
                    *vm,
                    tokens@.subrange(lo as int, hi as int),
                    0,
                    Seq::empty(),
                    Seq::empty(),
                ) == (ops0, out0.skip(old(out)@.len() as int)),
                flat_arith(tokens@.subrange(lo as int, hi as int)) ==> out@.skip(old(out)@.len() as int) == out0.skip(
                    old(out)@.len() as int,
                ) + popped_code(*vm, ops0, (ops0.len() - ops@.len()) as nat),
                flat_arith(tokens@.subrange(lo as int, hi as int)) && flat_words_ok(*vm, tokens@.subrange(lo as int, hi as int))
                    ==> bin_ops_ok(*vm, ops@),
                vm.wf(),
                nh == vm.headers@.len(),
                code_ok(out@, self.patch_offsets@, nh),
                extends(old(out)@, out@),
                one_expression(tokens@.subrange(lo as int, hi as int)) ==> in_order(int_lits(tokens@.subrange(lo as int, hi as int)), out@.skip(old(out)@.len() as int)),
                ops_ok(ops@, nh),
                self.local_table == old(self).local_table,
                self.self_word == old(self).self_word,
                self.self_hdr_idx == old(self).self_hdr_idx,
                lo == hi ==> ops@.len() == 0 && out@ == old(out)@,
                hi == lo + 1 ==> (tokens@[lo as int].token matches Token::Ident(n) ==> (expr_var_addr(
                    *vm,
                    old(self).local_table,
                    old(self).self_hdr_idx,
                    n@,
                ) matches Some(c) ==> ops@.len() == 0 && out@ == old(out)@ + seq![name_xt(*vm, "LIT"@), c, name_xt(*vm, "FETCH"@)])),
                hi == lo + 1 ==> (tokens@[lo as int].token matches Token::IntLit(n) ==> ops@.len() == 0
                    && out@ == old(out)@ + seq![name_xt(*vm, "LIT"@), Cell::Int(n)]
                    && lookup_in(vm.headers@, vm.headers@.len() as int, "LIT"@, None, false) is Some),
            decreases ops@.len(),
        {
            let ghost opsb = ops@;
            let o = ops.pop().unwrap();
            let ghost o1 = out@;
            self.emit_op(vm, out, o)?;
            proof {
                assert(ops@ =~= ops0.take(ops@.len() as int));
                if flat_arith(tokens@.subrange(lo as int, hi as int)) {
                    let c = (ops0.len() - opsb.len()) as nat;
                    lemma_popped_code_split(*vm, ops0, c);
                    assert(ops0[ops0.len() - 1 - c] == o);
                    assert(out@.skip(old(out)@.len() as int) =~= o1.skip(old(out)@.len() as int) + op_code(*vm, o));
                }
                if one_expression(tokens@.subrange(lo as int, hi as int)) {
                    lemma_extends_skip(old(out)@, o1, out@);
                    lemma_in_order_extend(
                        int_lits(tokens@.subrange(lo as int, hi as int)),
                        o1.skip(old(out)@.len() as int),
                        out@.skip(o1.len() as int),
                    );
                }
            }
        }
        Ok(())
    }

    /// After `@` at `at_next`: the array name (uppercase) and the index of
    /// the `]` that closes `Name[`; the index tokens lie in between.
    fn at_index(&self, tokens: &[SpannedToken], at_next: usize, hi: usize) -> (r: Result<(String, usize), TbxError>)
        requires
            1 <= at_next <= hi,
            hi <= tokens@.len(),
        ensures
            r matches Ok((_, close)) ==> at_next + 2 < close + 1 && close < hi && tokens@[at_next as int].token is Ident
                && tokens@[at_next + 1].token is LBracket && tokens@[close as int].token is RBracket,
            if at_next >= hi || !(tokens@[at_next as int].token is Ident) {
                r == Err::<(String, usize), TbxError>(
                    TbxError::InvalidExpression { reason: "@ must be followed by an identifier" },
                )
            } else if !(at_next + 1 < hi && tokens@[at_next + 1].token is LBracket) {
                r == Err::<(String, usize), TbxError>(
                    TbxError::InvalidExpression { reason: "@Ident must be followed by '[': use @A[i] syntax" },
                )
            } else {
                match match_scan(tokens@, at_next + 2, hi as int, 0, false) {
                    None => r == Err::<(String, usize), TbxError>(
                        TbxError::InvalidExpression { reason: "missing ']' in @A[...] index expression" },
                    ),
                    Some(c) => if c == at_next + 2 {
                        r == Err::<(String, usize), TbxError>(
                            TbxError::InvalidExpression {
                                reason: "array index expression must not be empty: use @A[index]",
                            },
                        )
                    } else {
                        r matches Ok((n, c2)) && c2 == c && (tokens@[at_next as int].token matches Token::Ident(id)
                            && n@ == upper_seq(id@))
                    },
                }
            },
    {
        if at_next >= hi {
            return Err(TbxError::InvalidExpression { reason: "@ must be followed by an identifier" });
        }
        let name = match &tokens[at_next].token {
            Token::Ident(n) => upper_string(n.as_str()),
            _ => {
                return Err(TbxError::InvalidExpression { reason: "@ must be followed by an identifier" });
            },
        };
        if !(at_next + 1 < hi && matches!(tokens[at_next + 1].token, Token::LBracket)) {
            return Err(TbxError::InvalidExpression { reason: "@Ident must be followed by '[': use @A[i] syntax" });
        }
        let close = match find_matching(tokens, at_next + 2, hi, false) {
            Some(c) => c,
            None => {
                return Err(TbxError::InvalidExpression { reason: "missing ']' in @A[...] index expression" });
            },
        };
        if close == at_next + 2 {
            return Err(
                TbxError::InvalidExpression { reason: "array index expression must not be empty: use @A[index]" },
            );
        }
        Ok((name, close))
    }

    /// Compile the operand of a unary `&` starting at `j`; returns the index
    /// after the operand.
    fn compile_address(&mut self, vm: &VM, tokens: &[SpannedToken], j: usize, hi: usize, out: &mut Vec<Cell>) -> (r: Result<usize, TbxError>)
        requires
            vm.wf(),
            1 <= j <= hi,
            hi <= tokens@.len(),
            code_ok(old(out)@, old(self).patch_offsets@, vm.headers@.len()),
        ensures
            extends(old(out)@, final(out)@),
            code_ok(final(out)@, final(self).patch_offsets@, vm.headers@.len()),
            final(self).local_table == old(self).local_table,
            final(self).self_word == old(self).self_word,
            final(self).self_hdr_idx == old(self).self_hdr_idx,
            r matches Ok(k) ==> j < k <= hi && (one_expression(tokens@.subrange(j as int, k as int)) ==> in_order(
                int_lits(tokens@.subrange(j as int, k as int)),
                final(out)@.skip(old(out)@.len() as int),
            )),
        j >= hi || !(tokens@[j as int].token is Ident || tokens@[j as int].token is At) ==> r == Err::<usize, TbxError>(
            TbxError::TypeError { expected: "identifier after unary &", got: "non-identifier" },
        ),
        j < hi ==> (tokens@[j as int].token matches Token::Ident(id) ==> (!(j + 1 < hi && tokens@[j + 1].token is LParen)
            ==> match old(self).handle_addr_of(*vm, upper_seq(id@)) {
            Ok(addr) => (r is Ok <==> lookup_in(vm.headers@, vm.headers@.len() as int, "LIT"@, None, false) is Some)
                && (r is Ok ==> r == Ok::<usize, TbxError>((j + 1) as usize) && final(out)@ == old(out)@ + seq![
                name_xt(*vm, "LIT"@),
                addr,
            ]),
            Err(()) => match lookup_in(vm.headers@, vm.headers@.len() as int, upper_seq(id@), old(self).self_hdr_idx, false) {
                None => r matches Err(TbxError::UndefinedSymbol { name: n }) && n@ == upper_seq(id@),
                Some(_) => r == Err::<usize, TbxError>(
                    TbxError::TypeError { expected: "variable identifier after unary &", got: "non-variable" },
                ),
            },
        })),
        decreases hi - j + 1, 0nat,
    {
        let ghost nh = vm.headers@.len();
        if j >= hi {
            return Err(TbxError::TypeError { expected: "identifier after unary &", got: "non-identifier" });
        }
        match &tokens[j].token {
            Token::Ident(raw) => {
                let name = upper_string(raw.as_str());
                let paren = j + 1 < hi && matches!(tokens[j + 1].token, Token::LParen);
                match local_get(&self.local_table, &name) {
                    Some(idx) => {
                        if paren {
                            let close = self.paren_index(tokens, j + 1, hi)?;
                            let ghost o_s = out@;
                            self.emit_read(vm, out, Cell::StackAddr(idx))?;
                            let ghost o_a = out@;
                            self.compile_into(vm, tokens, j + 2, close, out)?;
                            let ghost o_b = out@;
                            let a = require_hidden_xt(vm, "ARRAY_ADDR")?;
                            emit(out, Cell::Xt(a), Ghost(self.patch_offsets@), Ghost(nh));
                            proof {
                                lemma_close_paren_step(tokens@, j as int, close as int, o_s, o_a, o_b, out@);
                            }
                            Ok(close + 1)
                        } else {
                            let lit = require_xt(vm, "LIT")?;
                            let ghost o0 = out@;
                            emit(out, Cell::Xt(lit), Ghost(self.patch_offsets@), Ghost(nh));
                            emit(out, Cell::StackAddr(idx), Ghost(self.patch_offsets@), Ghost(nh));
                            assert(out@ =~= o0 + seq![name_xt(*vm, "LIT"@), Cell::StackAddr(idx)]);
                            proof {
                                lemma_int_lits_one(tokens@, j as int);
                            }
                            Ok(j + 1)
                        }
                    },
                    None => {
                        proof {
                            lemma_lookup_in_bounds(vm.headers@, nh as int, name@, self.self_hdr_idx, false);
                        }
                        let x = match vm.lookup_including_self(name.as_str(), self.self_hdr_idx) {
                            Some(x) => x,
                            None => {
                                return Err(TbxError::UndefinedSymbol { name });
                            },
                        };
                        match &vm.headers[x.0].kind {
                            EntryKind::Variable(addr) => {
                                if paren {
                                    let close = self.paren_index(tokens, j + 1, hi)?;
                                    let ghost o_s = out@;
                                    self.emit_read(vm, out, Cell::DictAddr(*addr))?;
                                    let ghost o_a = out@;
                                    self.compile_into(vm, tokens, j + 2, close, out)?;
                                    let ghost o_b = out@;
                                    let a = require_hidden_xt(vm, "ARRAY_ADDR")?;
                                    emit(out, Cell::Xt(a), Ghost(self.patch_offsets@), Ghost(nh));
                                    proof {
                                        lemma_close_paren_step(tokens@, j as int, close as int, o_s, o_a, o_b, out@);
                                    }
                                    Ok(close + 1)
                                } else {
                                    let lit = require_xt(vm, "LIT")?;
                                    let ghost o0 = out@;
                                    emit(out, Cell::Xt(lit), Ghost(self.patch_offsets@), Ghost(nh));
                                    emit(out, Cell::DictAddr(*addr), Ghost(self.patch_offsets@), Ghost(nh));
                                    assert(out@ =~= o0 + seq![name_xt(*vm, "LIT"@), Cell::DictAddr(*addr)]);
                                    proof {
                                lemma_int_lits_one(tokens@, j as int);
                            }
                            Ok(j + 1)
                                }
                            },
                            _ => Err(
                                TbxError::TypeError { expected: "variable identifier after unary &", got: "non-variable" },
                            ),
                        }
                    },
                }
            },
            Token::At => {
                if j + 1 >= hi {
                    return Err(
                        TbxError::InvalidExpression { reason: "&@ must be followed by an identifier: use &@A[i] syntax" },
                    );
                }
                let (name, close) = match self.at_index(tokens, j + 1, hi) {
                    Ok(p) => p,
                    Err(TbxError::InvalidExpression { reason: "@ must be followed by an identifier" }) => {
                        return Err(
                            TbxError::InvalidExpression {
                                reason: "&@ must be followed by an identifier: use &@A[i] syntax",
                            },
                        );
                    },
                    Err(TbxError::InvalidExpression { reason: "@Ident must be followed by '[': use @A[i] syntax" }) => {
                        return Err(
                            TbxError::InvalidExpression { reason: "&@Ident must be followed by '[': use &@A[i] syntax" },
                        );
                    },
                    Err(e) => {
                        return Err(e);
                    },
                };
                let ghost o_s = out@;
                self.emit_array_handle(vm, out, &name, "array variable for &@-sigil address")?;
                let ghost o_a = out@;
                self.compile_into(vm, tokens, j + 3, close, out)?;
                let ghost o_b = out@;
                let a = require_hidden_xt(vm, "ARRAY_ADDR")?;
                emit(out, Cell::Xt(a), Ghost(self.patch_offsets@), Ghost(nh));
                proof {
                    lemma_close_bracket_step(tokens@, j as int, close as int, o_s, o_a, o_b, out@);
                }
                Ok(close + 1)
            },
            _ => Err(TbxError::TypeError { expected: "identifier after unary &", got: "non-identifier" }),
        }
    }

    /// For `Name(` with `(` at `lp`: the index of the matching `)`; the
    /// index tokens (not empty) lie in between.
    fn paren_index(&self, tokens: &[SpannedToken], lp: usize, hi: usize) -> (r: Result<usize, TbxError>)
        requires
            lp < hi,
            hi <= tokens@.len(),
        ensures
            r matches Ok(close) ==> lp + 1 < close < hi && tokens@[close as int].token is RParen,
            r == (match match_scan(tokens@, lp + 1, hi as int, 0, true) {
                None => Err::<usize, TbxError>(
                    TbxError::InvalidExpression { reason: "missing ')' in array index expression" },
                ),
                Some(c) => if c == lp + 1 {
                    Err::<usize, TbxError>(
                        TbxError::InvalidExpression { reason: "array index expression must not be empty: use NAME(index)" },
                    )
                } else {
                    Ok::<usize, TbxError>(c as usize)
                },
            }),
    {
        let close = match find_matching(tokens, lp + 1, hi, true) {
            Some(c) => c,
            None => {
                return Err(TbxError::InvalidExpression { reason: "missing ')' in array index expression" });
            },
        };
        if close == lp + 1 {
            return Err(
                TbxError::InvalidExpression { reason: "array index expression must not be empty: use NAME(index)" },
            );
        }
        Ok(close)
    }

    /// Compile an infix expression to a reverse Polish cell sequence.
    ///
    /// Every execution token in the result names a header of `vm`, and
    /// `patch_offsets` lists the local-count placeholders (`Int(0)`) of
    /// self-recursive calls in the result. The integer literals of the
    /// expression occur in the result in the order they are written. A
    /// flat expression `n op n ... op n` compiles to its reverse Polish
    /// code (`flat_code`), and does so whenever LIT and its operators'
    /// words are registered.
    pub fn compile_expr(&mut self, vm: &VM, tokens: &[SpannedToken]) -> (r: Result<Vec<Cell>, TbxError>)
        requires
            vm.wf(),
        ensures
            r matches Ok(out) ==> code_ok(out@, final(self).patch_offsets@, vm.headers@.len()),
            tokens@.len() == 0 ==> (r matches Ok(out) && out@.len() == 0 && final(self).patch_offsets@.len() == 0),
            r matches Ok(out) ==> (one_expression(tokens@) ==> in_order(int_lits(tokens@), out@)),
            flat_arith(tokens@) ==> (r matches Ok(out) ==> out@ == flat_code(*vm, tokens@)),
            flat_arith(tokens@) && flat_words_ok(*vm, tokens@) ==> r is Ok,
            flat_call(tokens@) ==> (expr_callee(*vm, old(self).local_table, old(self).self_hdr_idx, tokens@) matches Some(x)
                ==> (r matches Ok(out) ==> out@ == flat_call_code(*vm, x, tokens@, old(self).self_hdr_idx))
                && (call_ready(*vm, x, call_args(tokens@)) ==> r is Ok)),
            paren_flat(tokens@) ==> (r matches Ok(out) ==> out@ == flat_code(*vm, tokens@.subrange(1, tokens@.len() - 1))),
            tokens@.len() == 1 ==> (tokens@[0].token matches Token::Ident(n) ==> (expr_var_addr(
                *vm,
                old(self).local_table,
                old(self).self_hdr_idx,
                n@,
            ) matches Some(c) ==> (r matches Ok(out) ==> out@ == seq![name_xt(*vm, "LIT"@), c, name_xt(*vm, "FETCH"@)]))),
            tokens@.len() == 1 ==> (tokens@[0].token matches Token::Ident(n) ==> (expr_var_addr(
                *vm,
                old(self).local_table,
                old(self).self_hdr_idx,
                n@,
            ) is Some && lookup_in(vm.headers@, vm.headers@.len() as int, "LIT"@, None, false) is Some && lookup_in(
                vm.headers@,
                vm.headers@.len() as int,
                "FETCH"@,
                None,
                false,
            ) is Some ==> r is Ok)),
            final(self).local_table == old(self).local_table,
            final(self).self_word == old(self).self_word,
            final(self).self_hdr_idx == old(self).self_hdr_idx,
    {
        self.patch_offsets = Vec::new();
        let mut out: Vec<Cell> = Vec::new();
        if tokens.len() == 0 {
            return Ok(out);
        }
        let ghost o0 = out@;
        assert(tokens@.subrange(0, tokens@.len() as int) =~= tokens@);
        self.compile_into(vm, tokens, 0, tokens.len(), &mut out)?;
        proof {
            assert(tokens@.subrange(0, tokens@.len() as int) =~= tokens@);
            assert(out@.skip(o0.len() as int) =~= out@);
        }
        Ok(out)
    }
}

} // verus!
