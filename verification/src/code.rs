//! Compiled code grows by appending: facts about one cell sequence
//! extending another.
use vstd::prelude::*;
use crate::cell::Cell;

verus! {

/// `b` is `a` with cells appended.
pub open spec fn extends(a: Seq<Cell>, b: Seq<Cell>) -> bool {
    a.len() <= b.len() && b.take(a.len() as int) == a
}

pub broadcast proof fn lemma_extends_trans(a: Seq<Cell>, b: Seq<Cell>, c: Seq<Cell>)
    requires
        #[trigger] extends(a, b),
        #[trigger] extends(b, c),
    ensures
        extends(a, c),
{
    assert(c.take(a.len() as int) =~= c.take(b.len() as int).take(a.len() as int));
}

pub broadcast proof fn lemma_extends_refl(a: Seq<Cell>)
    ensures
        #[trigger] extends(a, a),
{
    assert(a.take(a.len() as int) =~= a);
}

pub broadcast proof fn lemma_extends_push(a: Seq<Cell>, c: Cell)
    ensures
        #[trigger] extends(a, a.push(c)),
{
    assert(a.push(c).take(a.len() as int) =~= a);
}

} // verus!
