//! Laws of the machine's semantics, each proved against the small-step
//! specification that `execute_bytecode` is verified to follow.

use vstd::prelude::*;
use crate::num::SCALE;
use crate::value::{ValV, Type, display_of, runtime_type_of};
use crate::errors::ErrV;
use crate::opcode::OpV;
use crate::runtime::{VmState, StepOut, step, adv, adv_vars, join_displays};

verus! {

/// Casting a number to `Whole` rounds it toward negative infinity to a
/// whole number of units: the result is at most the operand, lies less
/// than one unit below it, and is itself whole.
pub proof fn lemma_cast_whole_is_floor(prog: Seq<OpV>, st: VmState, x: int)
    requires
        0 <= st.ip < prog.len(),
        prog[st.ip] == OpV::Cast(Type::Whole),
        st.stack.len() > 0,
        st.stack.last() == ValV::Number(x),
    ensures
        step(prog, st) == StepOut::Next(
            adv(st, st.stack.drop_last().push(ValV::Number(SCALE as int * (x / (SCALE as int))))),
        ),
        SCALE as int * (x / (SCALE as int)) <= x,
        x - SCALE < SCALE as int * (x / (SCALE as int)),
        (SCALE as int * (x / (SCALE as int))) % (SCALE as int) == 0,
{
    vstd::arithmetic::div_mod::lemma_fundamental_div_mod(x, SCALE as int);
    let q = x / (SCALE as int);
    assert(SCALE as int * q == q * (SCALE as int)) by (nonlinear_arith);
    vstd::arithmetic::div_mod::lemma_fundamental_div_mod_converse(
        SCALE as int * q,
        SCALE as int,
        q,
        0,
    );
}

/// Casting a number to `Decimal` is the identity; in particular a
/// `Whole`-typed value is unchanged by it.
pub proof fn lemma_cast_decimal_is_identity(prog: Seq<OpV>, st: VmState, x: int)
    requires
        0 <= st.ip < prog.len(),
        prog[st.ip] == OpV::Cast(Type::Decimal),
        st.stack.len() > 0,
        st.stack.last() == ValV::Number(x),
    ensures
        step(prog, st) == StepOut::Next(adv(st, st.stack)),
{
    assert(st.stack.drop_last().push(ValV::Number(x)) =~= st.stack);
}

/// Concatenating two text values yields the first followed by the second
/// with no separator.
pub proof fn lemma_concat_appends(prog: Seq<OpV>, st: VmState, a: Seq<char>, b: Seq<char>)
    requires
        0 <= st.ip < prog.len(),
        prog[st.ip] == OpV::Concat,
        st.stack.len() >= 2,
        st.stack[st.stack.len() - 2] == ValV::Text(a),
        st.stack.last() == ValV::Text(b),
    ensures
        step(prog, st) == StepOut::Next(
            adv(st, st.stack.drop_last().drop_last().push(ValV::Text(a + b))),
        ),
        (a + b).len() == a.len() + b.len(),
        forall|i: int| 0 <= i < a.len() ==> (a + b)[i] == a[i],
        forall|i: int| 0 <= i < b.len() ==> (a + b)[a.len() + i] == b[i],
{
}

/// Concatenating a non-text operand fails with a type mismatch.
pub proof fn lemma_concat_non_text_fails(prog: Seq<OpV>, st: VmState)
    requires
        0 <= st.ip < prog.len(),
        prog[st.ip] == OpV::Concat,
        st.stack.len() >= 2,
        !(st.stack[st.stack.len() - 2] is Text) || !(st.stack.last() is Text),
    ensures
        step(prog, st) matches StepOut::Fail(e, _) && e is TypeMismatch,
{
}

/// The canonical text of three interpolated parts, in source order.
pub proof fn lemma_join_three(p1: ValV, p2: ValV, p3: ValV)
    ensures
        join_displays(seq![p1, p2, p3]) == display_of(p1) + display_of(p2) + display_of(p3),
{
    let s = seq![p1, p2, p3];
    assert(s.drop_last() =~= seq![p1, p2]);
    assert(seq![p1, p2].drop_last() =~= seq![p1]);
    assert(seq![p1].drop_last() =~= Seq::<ValV>::empty());
    assert(join_displays(Seq::<ValV>::empty()) == Seq::<char>::empty());
    assert(seq![p1].last() == p1);
    assert(join_displays(seq![p1]) =~= Seq::<char>::empty() + display_of(p1));
    assert(Seq::<char>::empty() + display_of(p1) =~= display_of(p1));
    assert(join_displays(seq![p1, p2]) =~= join_displays(seq![p1]) + display_of(p2));
    assert(join_displays(s) =~= join_displays(seq![p1, p2]) + display_of(p3));
    assert(join_displays(s) =~= display_of(p1) + display_of(p2) + display_of(p3));
}

/// Interpolating parts `p1`, `p2`, `p3` yields the concatenation of their
/// canonical textual forms in that left-to-right source order, however
/// they were pushed onto the stack.
pub proof fn lemma_interpolate_source_order(
    prog: Seq<OpV>,
    st: VmState,
    p1: ValV,
    p2: ValV,
    p3: ValV,
)
    requires
        0 <= st.ip < prog.len(),
        prog[st.ip] == OpV::Interpolate(3),
        st.stack.len() >= 3,
        st.stack[st.stack.len() - 3] == p1,
        st.stack[st.stack.len() - 2] == p2,
        st.stack[st.stack.len() - 1] == p3,
    ensures
        step(prog, st) == StepOut::Next(
            adv(
                st,
                st.stack.subrange(0, st.stack.len() - 3).push(
                    ValV::Text(display_of(p1) + display_of(p2) + display_of(p3)),
                ),
            ),
        ),
{
    let len = st.stack.len() as int;
    assert(st.stack.subrange(len - 3, len) =~= seq![p1, p2, p3]);
    lemma_join_three(p1, p2, p3);
}

/// Storing a value into a variable and then loading that variable pushes
/// back exactly the stored value; the store succeeds whenever the
/// variable has no declared type, or the value is null, or its runtime
/// type equals the declared type.
pub proof fn lemma_store_load_round_trip(prog: Seq<OpV>, st: VmState, name: Seq<char>, lst: VmState)
    requires
        0 <= st.ip < prog.len(),
        prog[st.ip] == OpV::StoreVar(name),
        st.stack.len() > 0,
        st.types.contains_key(name) ==> (st.stack.last() is Nothing || runtime_type_of(
            st.stack.last(),
        ) == st.types[name]),
        0 <= lst.ip < prog.len(),
        prog[lst.ip] == OpV::LoadVar(name),
        lst.vars == st.vars.insert(name, st.stack.last()),
    ensures
        step(prog, st) == StepOut::Next(
            adv_vars(st, st.stack.drop_last(), st.vars.insert(name, st.stack.last())),
        ),
        step(prog, lst) == StepOut::Next(adv(lst, lst.stack.push(st.stack.last()))),
{
}

/// Loading a variable name that has never been stored fails with an
/// undefined-variable error naming it.
pub proof fn lemma_load_unstored_fails(prog: Seq<OpV>, st: VmState, name: Seq<char>)
    requires
        0 <= st.ip < prog.len(),
        prog[st.ip] == OpV::LoadVar(name),
        !st.vars.contains_key(name),
    ensures
        step(prog, st) == StepOut::Fail(ErrV::UndefinedVariable(name), st),
{
}

/// Storing a number with a nonzero fractional part into a `Whole`-typed
/// variable fails with a type mismatch; a number with a zero fractional
/// part is stored unchanged.
pub proof fn lemma_whole_store_guard(prog: Seq<OpV>, st: VmState, name: Seq<char>, x: int)
    requires
        0 <= st.ip < prog.len(),
        prog[st.ip] == OpV::StoreVar(name),
        st.stack.len() > 0,
        st.stack.last() == ValV::Number(x),
        st.types.contains_key(name),
        st.types[name] == Type::Whole,
    ensures
        x % (SCALE as int) != 0 ==> (step(prog, st) matches StepOut::Fail(e, _) && e
            == ErrV::TypeMismatch(
            crate::errors::MismatchWhen::Storing,
            Type::Whole,
            Type::Decimal,
        )),
        x % (SCALE as int) == 0 ==> step(prog, st) == StepOut::Next(
            adv_vars(st, st.stack.drop_last(), st.vars.insert(name, ValV::Number(x))),
        ),
{
}

} // verus!
