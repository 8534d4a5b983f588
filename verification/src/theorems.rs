//! What holds of every lowering.

use vstd::prelude::*;
use crate::assembly::{DirectiveView, Operand, Register};
use crate::ast::ExprView;
use crate::compile::{
    followed_by,
    CompileErrorView,
    lower,
    lower_arguments,
    lower_bindings,
    lower_sequence,
    slot_operand,
    tagged_bool,
    tagged_num,
    untagged_bool,
    untagged_num,
    Emitted,
    Failed,
    Scope,
    BOOL_MASK,
    BOOL_TAG,
    NUM_MASK,
    NUM_TAG,
};

verus! {

/// The tagged word of an integer that fits in 62 bits carries the integer
/// tag, is four times the integer, and gives the integer back when the tag
/// is shifted out.
pub proof fn lemma_tagged_num_round_trip(n: i64)
    requires
        -0x2000_0000_0000_0000 <= n < 0x2000_0000_0000_0000,
    ensures
        untagged_num(tagged_num(n)) == n,
        tagged_num(n) & NUM_MASK == NUM_TAG,
        tagged_num(n) == 4 * n,
{
    assert(((n << 2i64) | 0i64) >> 2i64 == n) by (bit_vector)
        requires
            -0x2000_0000_0000_0000 <= n < 0x2000_0000_0000_0000,
    ;
    assert(((n << 2i64) | 0i64) & 3i64 == 0i64) by (bit_vector);
    assert(((n << 2i64) | 0i64) == 4 * n) by (bit_vector)
        requires
            -0x2000_0000_0000_0000 <= n < 0x2000_0000_0000_0000,
    ;
}

/// Lowering the integer literal `n` moves into `X0` a word from which the
/// tag scheme reads `n` back.
pub proof fn lemma_literal_num_round_trip(
    env: Map<Seq<char>, i64>,
    index: i64,
    n: i64,
    count: u64,
)
    requires
        -0x2000_0000_0000_0000 <= n < 0x2000_0000_0000_0000,
    ensures
        lower(env, index as int, ExprView::Num(n), count) == Ok::<Emitted, Failed>(
            Emitted {
                code: seq![
                    DirectiveView::Mov(Operand::Reg(Register::X0), Operand::Imm(tagged_num(n))),
                ],
                next: count,
            },
        ),
        untagged_num(tagged_num(n)) == n,
        tagged_num(n) & NUM_MASK == NUM_TAG,
{
    lemma_tagged_num_round_trip(n);
}

/// The tagged word of a boolean carries the boolean tag and gives the
/// boolean back when the tag is shifted out.
pub proof fn lemma_tagged_bool_round_trip(b: bool)
    ensures
        untagged_bool(tagged_bool(b)) == b,
        tagged_bool(b) & BOOL_MASK == BOOL_TAG,
        tagged_bool(true) == 159,
        tagged_bool(false) == 31,
{
    assert(((1i64 << 7i64) | 31i64) == 159i64) by (bit_vector);
    assert(((0i64 << 7i64) | 31i64) == 31i64) by (bit_vector);
    assert(159i64 >> 7i64 == 1i64) by (bit_vector);
    assert(31i64 >> 7i64 == 0i64) by (bit_vector);
    assert(159i64 & 127i64 == 31i64) by (bit_vector);
    assert(31i64 & 127i64 == 31i64) by (bit_vector);
}

/// Lowering a boolean literal moves into `X0` a word from which the tag
/// scheme reads the boolean back.
pub proof fn lemma_literal_bool_round_trip(
    env: Map<Seq<char>, i64>,
    index: i64,
    b: bool,
    count: u64,
)
    ensures
        lower(
            env,
            index as int,
            if b {
                ExprView::True
            } else {
                ExprView::False
            },
            count,
        ) == Ok::<Emitted, Failed>(
            Emitted {
                code: seq![
                    DirectiveView::Mov(Operand::Reg(Register::X0), Operand::Imm(tagged_bool(b))),
                ],
                next: count,
            },
        ),
        untagged_bool(tagged_bool(b)) == b,
        tagged_bool(b) & BOOL_MASK == BOOL_TAG,
{
    lemma_tagged_bool_round_trip(b);
}

/// The part of the machine that a store and a load of a stack slot read and
/// write: the registers, and the stack slots by their offsets from the stack
/// pointer.
pub struct Machine {
    pub registers: Map<Register, i64>,
    pub slots: Map<i64, i64>,
}

/// The machine after the directive `d` has run on `m`, for a store of a
/// register into a stack slot and a load of a stack slot into a register.
/// Of any other directive nothing is said here.
pub open spec fn after(m: Machine, d: DirectiveView) -> Machine {
    match d {
        DirectiveView::Str(
            Operand::MemOffset(box Operand::Imm(offset), box Operand::Reg(Register::Sp)),
            Operand::Reg(source),
        ) => Machine { registers: m.registers, slots: m.slots.insert(offset, m.registers[source]) },
        DirectiveView::Ldr(
            Operand::Reg(dest),
            Operand::MemOffset(box Operand::Imm(offset), box Operand::Reg(Register::Sp)),
        ) => Machine { registers: m.registers.insert(dest, m.slots[offset]), slots: m.slots },
        _ => m,
    }
}

/// The store of `X0` into a stack slot followed by the load of that slot
/// into `X0` leaves every register as it was, and changes the stack in that
/// slot only.
pub proof fn lemma_store_then_load_keeps_registers(m: Machine, index: i64)
    requires
        m.registers.contains_key(Register::X0),
    ensures
        ({
            let stored = after(
                m,
                DirectiveView::Str(slot_operand(index), Operand::Reg(Register::X0)),
            );
            let loaded = after(
                stored,
                DirectiveView::Ldr(Operand::Reg(Register::X0), slot_operand(index)),
            );
            &&& loaded.registers == m.registers
            &&& loaded.slots == m.slots.insert(index, m.registers[Register::X0])
        }),
{
    let stored = after(m, DirectiveView::Str(slot_operand(index), Operand::Reg(Register::X0)));
    let loaded = after(
        stored,
        DirectiveView::Ldr(Operand::Reg(Register::X0), slot_operand(index)),
    );
    assert(stored.slots == m.slots.insert(index, m.registers[Register::X0]));
    assert(loaded.registers =~= m.registers);
}

/// A `let` of one binding whose body is the bound name lowers to the
/// lowering of the initializer, followed by the store of `X0` into the
/// binding's slot and the load of that slot back into `X0`: it fails where
/// the initializer fails, and, by
/// [`lemma_store_then_load_keeps_registers`], leaves in `X0` what the
/// initializer leaves there.
///
/// Where the slot below the binding's does not fit in 64 bits, the body
/// cannot be lowered there, and the `let` fails though the initializer may
/// not.
pub proof fn lemma_let_of_bound_name(
    env: Map<Seq<char>, i64>,
    index: i64,
    name: Seq<char>,
    init: ExprView,
    count: u64,
)
    ensures
        lower(
            env,
            index as int,
            ExprView::Let(seq![(name, init)], Box::new(ExprView::Id(name))),
            count,
        ) == if index - 8 >= i64::MIN {
            followed_by(
                lower(env, index as int, init, count),
                seq![
                    DirectiveView::Str(slot_operand(index), Operand::Reg(Register::X0)),
                    DirectiveView::Ldr(Operand::Reg(Register::X0), slot_operand(index)),
                ],
            )
        } else {
            match lower(env, index as int, init, count) {
                Ok(x) => Err(
                    Failed { error: CompileErrorView::StackSlotOutOfRange, next: x.next },
                ),
                Err(f) => Err(f),
            }
        },
{
    let bindings = seq![(name, init)];
    let first = lower(env, index as int, init, count);
    assert(bindings[0] == (name, init));
    match first {
        Err(f) => {
            assert(lower_bindings(env, index as int, bindings, count, 0) == Err::<Scope, Failed>(f));
        },
        Ok(x) => {
            let store = DirectiveView::Str(slot_operand(index), Operand::Reg(Register::X0));
            let load = DirectiveView::Ldr(Operand::Reg(Register::X0), slot_operand(index));
            let inner = env.insert(name, index);
            assert(lower_bindings(inner, index as int, bindings, x.next, 1) == Ok::<Scope, Failed>(
                Scope { code: Seq::empty(), env: inner, next: x.next },
            ));
            let scope = lower_bindings(env, index as int, bindings, count, 0)->Ok_0;
            assert(scope.code =~= x.code.push(store));
            assert(scope.env == inner);
            assert(scope.next == x.next);
            if index - 8 >= i64::MIN {
                assert(lower(inner, index - 8, ExprView::Id(name), x.next) == Ok::<
                    Emitted,
                    Failed,
                >(Emitted { code: seq![load], next: x.next }));
                assert(x.code.push(store) + seq![load] =~= x.code + seq![store, load]);
            } else {
                assert(lower(inner, index - 8, ExprView::Id(name), x.next) == Err::<
                    Emitted,
                    Failed,
                >(Failed { error: CompileErrorView::StackSlotOutOfRange, next: x.next }));
            }
        },
    }
}

/// The number of bindings of a `let`; zero for any other expression.
pub open spec fn binding_count(e: ExprView) -> nat {
    match e {
        ExprView::Let(bindings, _) => bindings.len(),
        _ => 0,
    }
}

/// Whether the identifier `x` occurs free in `e`: whether lowering `e`
/// looks `x` up in the environment it is given.
///
/// A `let` binds its names in the initializers that follow and in its body.
/// A function definition is lowered in an environment of its own, so nothing
/// occurs free in it.
pub open spec fn occurs_free(e: ExprView, x: Seq<char>) -> bool
    decreases e, binding_count(e) + 1,
{
    match e {
        ExprView::Num(_) => false,
        ExprView::True => false,
        ExprView::False => false,
        ExprView::Nil => false,
        ExprView::Id(name) => name == x,
        ExprView::UnPrim(_, a) => occurs_free(*a, x),
        ExprView::BinPrim(_, a, b) => occurs_free(*a, x) || occurs_free(*b, x),
        ExprView::If(t, a, b) => occurs_free(*t, x) || occurs_free(*a, x) || occurs_free(*b, x),
        ExprView::Let(_, _) => occurs_free_from(e, x, 0),
        ExprView::Do(es) => exists|i: int| 0 <= i < es.len() && occurs_free(#[trigger] es[i], x),
        ExprView::Define(_, _, _) => false,
        ExprView::Call(_, args) => exists|i: int|
            0 <= i < args.len() && occurs_free(#[trigger] args[i], x),
    }
}

/// Whether `x` occurs free in the `let` expression `e` from binding `i` on:
/// in the initializer of binding `i`, or, unless binding `i` binds `x`, in
/// what follows it; after the last binding, in the body.
pub open spec fn occurs_free_from(e: ExprView, x: Seq<char>, i: nat) -> bool
    decreases e, binding_count(e) - i,
{
    match e {
        ExprView::Let(bindings, body) => if i >= bindings.len() {
            occurs_free(*body, x)
        } else {
            occurs_free(bindings[i as int].1, x) || (bindings[i as int].0 != x
                && occurs_free_from(e, x, i + 1))
        },
        _ => false,
    }
}

/// Whether no identifier occurs free in `e`.
pub open spec fn closed(e: ExprView) -> bool {
    forall|x: Seq<char>| !occurs_free(e, x)
}

/// Whether two environments bind `x` alike: both to the same offset, or
/// neither.
pub open spec fn agree_at(a: Map<Seq<char>, i64>, b: Map<Seq<char>, i64>, x: Seq<char>) -> bool {
    a.contains_key(x) == b.contains_key(x) && (a.contains_key(x) ==> a[x] == b[x])
}

/// Whether two environments bind alike every identifier that occurs free in
/// `e`.
pub open spec fn agree_on(a: Map<Seq<char>, i64>, b: Map<Seq<char>, i64>, e: ExprView) -> bool {
    forall|x: Seq<char>| occurs_free(e, x) ==> agree_at(a, b, x)
}

/// Lowering reads of its environment only the identifiers that occur free
/// in the expression: in two environments that bind those alike, the
/// outcome is the same.
pub proof fn lemma_lower_reads_free_identifiers(
    a: Map<Seq<char>, i64>,
    b: Map<Seq<char>, i64>,
    index: int,
    e: ExprView,
    count: u64,
)
    requires
        agree_on(a, b, e),
    ensures
        lower(a, index, e, count) == lower(b, index, e, count),
    decreases e, 0nat,
{
    if !(i64::MIN <= index <= i64::MAX) {
        return ;
    }
    match e {
        ExprView::Num(_) => {},
        ExprView::True => {},
        ExprView::False => {},
        ExprView::Nil => {},
        ExprView::Id(name) => {
            assert(occurs_free(e, name));
        },
        ExprView::UnPrim(_, x) => {
            assert forall|v: Seq<char>| occurs_free(*x, v) implies agree_at(a, b, v) by {
                assert(occurs_free(e, v));
            }
            lemma_lower_reads_free_identifiers(a, b, index, *x, count);
        },
        ExprView::BinPrim(_, x, y) => {
            assert forall|v: Seq<char>| occurs_free(*x, v) implies agree_at(a, b, v) by {
                assert(occurs_free(e, v));
            }
            assert forall|v: Seq<char>| occurs_free(*y, v) implies agree_at(a, b, v) by {
                assert(occurs_free(e, v));
            }
            lemma_lower_reads_free_identifiers(a, b, index, *x, count);
            match lower(a, index, *x, count) {
                Ok(first) => {
                    lemma_lower_reads_free_identifiers(a, b, index - 8, *y, first.next);
                },
                Err(_) => {},
            }
        },
        ExprView::If(t, x, y) => {
            assert forall|v: Seq<char>| occurs_free(*t, v) implies agree_at(a, b, v) by {
                assert(occurs_free(e, v));
            }
            assert forall|v: Seq<char>| occurs_free(*x, v) implies agree_at(a, b, v) by {
                assert(occurs_free(e, v));
            }
            assert forall|v: Seq<char>| occurs_free(*y, v) implies agree_at(a, b, v) by {
                assert(occurs_free(e, v));
            }
            let start = crate::utils::advance(count, 3);
            lemma_lower_reads_free_identifiers(a, b, index, *t, start);
            match lower(a, index, *t, start) {
                Ok(first) => {
                    lemma_lower_reads_free_identifiers(a, b, index, *x, first.next);
                    match lower(a, index, *x, first.next) {
                        Ok(second) => {
                            lemma_lower_reads_free_identifiers(a, b, index, *y, second.next);
                        },
                        Err(_) => {},
                    }
                },
                Err(_) => {},
            }
        },
        ExprView::Let(bindings, body) => {
            assert forall|v: Seq<char>| occurs_free_from(e, v, 0) implies agree_at(a, b, v) by {
                assert(occurs_free(e, v));
            }
            lemma_bindings_read_free_identifiers(a, b, index, e, bindings, *body, count, 0);
            match lower_bindings(a, index, bindings, count, 0) {
                Ok(scope) => {
                    let other = lower_bindings(b, index, bindings, count, 0)->Ok_0;
                    lemma_lower_reads_free_identifiers(
                        scope.env,
                        other.env,
                        index - 8 * bindings.len(),
                        *body,
                        scope.next,
                    );
                },
                Err(_) => {},
            }
        },
        ExprView::Do(es) => {
            assert forall|j: int, v: Seq<char>|
                0 <= j < es.len() && occurs_free(es[j], v) implies agree_at(a, b, v) by {
                assert(occurs_free(e, v));
            }
            lemma_sequence_reads_free_identifiers(a, b, index, es, count, 0);
        },
        ExprView::Define(_, _, _) => {},
        ExprView::Call(_, args) => {
            assert forall|j: int, v: Seq<char>|
                0 <= j < args.len() && occurs_free(args[j], v) implies agree_at(a, b, v) by {
                assert(occurs_free(e, v));
            }
            lemma_arguments_read_free_identifiers(a, b, index, args, count, args.len());
        },
    }
}

/// The bindings of a `let`, lowered from binding `i` on in two environments
/// that bind alike what occurs free from there on, give the same
/// instructions and count, and two environments that bind alike what occurs
/// free in the body; or they fail alike.
pub proof fn lemma_bindings_read_free_identifiers(
    a: Map<Seq<char>, i64>,
    b: Map<Seq<char>, i64>,
    index: int,
    e: ExprView,
    bindings: Seq<(Seq<char>, ExprView)>,
    body: ExprView,
    count: u64,
    i: nat,
)
    requires
        e == ExprView::Let(bindings, Box::new(body)),
        forall|v: Seq<char>| occurs_free_from(e, v, i) ==> agree_at(a, b, v),
    ensures
        match lower_bindings(a, index, bindings, count, i) {
            Ok(s) => {
                &&& lower_bindings(b, index, bindings, count, i) is Ok
                &&& lower_bindings(b, index, bindings, count, i)->Ok_0.code == s.code
                &&& lower_bindings(b, index, bindings, count, i)->Ok_0.next == s.next
                &&& agree_on(s.env, lower_bindings(b, index, bindings, count, i)->Ok_0.env, body)
            },
            Err(f) => lower_bindings(b, index, bindings, count, i) == Err::<Scope, Failed>(f),
        },
    decreases bindings, bindings.len() - i,
{
    if i >= bindings.len() {
        assert forall|v: Seq<char>| occurs_free(body, v) implies agree_at(a, b, v) by {
            assert(occurs_free_from(e, v, i));
        }
    } else {
        let slot = index - 8 * i;
        let name = bindings[i as int].0;
        let init = bindings[i as int].1;
        assert forall|v: Seq<char>| occurs_free(init, v) implies agree_at(a, b, v) by {
            assert(occurs_free_from(e, v, i));
        }
        lemma_lower_reads_free_identifiers(a, b, slot, init, count);
        match lower(a, slot, init, count) {
            Ok(x) => {
                let a2 = a.insert(name, slot as i64);
                let b2 = b.insert(name, slot as i64);
                assert forall|v: Seq<char>| occurs_free_from(e, v, i + 1) implies agree_at(
                    a2,
                    b2,
                    v,
                ) by {
                    if v != name {
                        assert(occurs_free_from(e, v, i));
                    }
                }
                lemma_bindings_read_free_identifiers(
                    a2,
                    b2,
                    index,
                    e,
                    bindings,
                    body,
                    x.next,
                    i + 1,
                );
            },
            Err(_) => {},
        }
    }
}

/// The expressions of a `do`, lowered from expression `i` on in two
/// environments that bind alike what occurs free in them, have the same
/// outcome.
pub proof fn lemma_sequence_reads_free_identifiers(
    a: Map<Seq<char>, i64>,
    b: Map<Seq<char>, i64>,
    index: int,
    es: Seq<ExprView>,
    count: u64,
    i: nat,
)
    requires
        forall|j: int, v: Seq<char>|
            0 <= j < es.len() && occurs_free(es[j], v) ==> agree_at(a, b, v),
    ensures
        lower_sequence(a, index, es, count, i) == lower_sequence(b, index, es, count, i),
    decreases es, es.len() - i,
{
    if i < es.len() {
        lemma_lower_reads_free_identifiers(a, b, index, es[i as int], count);
        match lower(a, index, es[i as int], count) {
            Ok(x) => {
                lemma_sequence_reads_free_identifiers(a, b, index, es, x.next, i + 1);
            },
            Err(_) => {},
        }
    }
}

/// The first `m` arguments of a call, lowered in two environments that bind
/// alike what occurs free in them, have the same outcome.
pub proof fn lemma_arguments_read_free_identifiers(
    a: Map<Seq<char>, i64>,
    b: Map<Seq<char>, i64>,
    index: int,
    args: Seq<ExprView>,
    count: u64,
    m: nat,
)
    requires
        forall|j: int, v: Seq<char>|
            0 <= j < args.len() && occurs_free(args[j], v) ==> agree_at(a, b, v),
    ensures
        lower_arguments(a, index, args, count, m) == lower_arguments(b, index, args, count, m),
    decreases args, m,
{
    if 0 < m <= args.len() {
        let i = m - 1;
        lemma_lower_reads_free_identifiers(a, b, index - 8 * i, args[i], count);
        match lower(a, index - 8 * i, args[i], count) {
            Ok(x) => {
                lemma_arguments_read_free_identifiers(a, b, index, args, x.next, i as nat);
            },
            Err(_) => {},
        }
    }
}

/// An expression in which no identifier occurs free lowers to the same
/// outcome in every environment.
pub proof fn lemma_closed_expression_ignores_environment(
    a: Map<Seq<char>, i64>,
    b: Map<Seq<char>, i64>,
    index: i64,
    e: ExprView,
    count: u64,
)
    requires
        closed(e),
    ensures
        lower(a, index as int, e, count) == lower(b, index as int, e, count),
{
    lemma_lower_reads_free_identifiers(a, b, index as int, e, count);
}

} // verus!
