//! The labels that lowering generates: how many they are, where they stand
//! in the instructions, that one lowering sets each of them once, and that
//! two lowerings never generate the same one.

use vstd::prelude::*;
use vstd::arithmetic::div_mod::{lemma_mod_equivalence, lemma_small_mod};
use crate::assembly::{DirectiveView, Operand, Register};
use crate::ast::ExprView;
use crate::compile::{
    argument_loads,
    argument_spill,
    binary_code,
    call_code,
    epilogue,
    lower,
    lower_arguments,
    lower_bindings,
    lower_sequence,
    parameter_env,
    parameter_stores,
    prologue,
    slot_operand,
    tagged_bool,
    unary_code,
};
use crate::text::ends_without_digit;
use crate::utils::{advance, label_text, lemma_advance_twice, lemma_label_text_injective};

verus! {

/// The number of labels that a successful lowering of `e` generates: three
/// for each conditional in it.
pub open spec fn label_count(e: ExprView) -> nat
    decreases e, 0nat,
{
    match e {
        ExprView::Num(_) => 0,
        ExprView::Id(_) => 0,
        ExprView::True => 0,
        ExprView::False => 0,
        ExprView::Nil => 0,
        ExprView::UnPrim(_, a) => label_count(*a),
        ExprView::BinPrim(_, a, b) => label_count(*a) + label_count(*b),
        ExprView::If(t, a, b) => 3 + label_count(*t) + label_count(*a) + label_count(*b),
        ExprView::Let(bindings, body) => binding_labels_from(bindings, 0) + label_count(*body),
        ExprView::Do(es) => labels_from(es, 0),
        ExprView::Define(_, _, body) => label_count(*body),
        ExprView::Call(_, args) => labels_upto(args, args.len()),
    }
}

/// The labels of the initializers of `bindings` from binding `i` on.
pub open spec fn binding_labels_from(bindings: Seq<(Seq<char>, ExprView)>, i: nat) -> nat
    decreases bindings, bindings.len() - i,
{
    if i >= bindings.len() {
        0
    } else {
        label_count(bindings[i as int].1) + binding_labels_from(bindings, i + 1)
    }
}

/// The labels of the expressions of `es` from expression `i` on.
pub open spec fn labels_from(es: Seq<ExprView>, i: nat) -> nat
    decreases es, es.len() - i,
{
    if i >= es.len() {
        0
    } else {
        label_count(es[i as int]) + labels_from(es, i + 1)
    }
}

/// The labels of the first `m` expressions of `es`.
pub open spec fn labels_upto(es: Seq<ExprView>, m: nat) -> nat
    decreases es, m,
{
    if m == 0 || m > es.len() {
        0
    } else {
        label_count(es[m - 1]) + labels_upto(es, (m - 1) as nat)
    }
}

/// A successful lowering moves the symbol generator on by the number of
/// labels in the expression.
pub proof fn lemma_lowering_counts_labels(
    env: Map<Seq<char>, i64>,
    index: int,
    e: ExprView,
    count: u64,
)
    requires
        lower(env, index, e, count) is Ok,
    ensures
        lower(env, index, e, count)->Ok_0.next == advance(count, label_count(e)),
    decreases e, 0nat,
{
    match e {
        ExprView::Num(_) => {},
        ExprView::Id(_) => {},
        ExprView::True => {},
        ExprView::False => {},
        ExprView::Nil => {},
        ExprView::UnPrim(_, a) => {
            lemma_lowering_counts_labels(env, index, *a, count);
        },
        ExprView::BinPrim(_, a, b) => {
            lemma_lowering_counts_labels(env, index, *a, count);
            let x = lower(env, index, *a, count)->Ok_0;
            lemma_lowering_counts_labels(env, index - 8, *b, x.next);
            lemma_advance_twice(count, label_count(*a), label_count(*b));
        },
        ExprView::If(t, a, b) => {
            let start = advance(count, 3);
            lemma_lowering_counts_labels(env, index, *t, start);
            let x = lower(env, index, *t, start)->Ok_0;
            lemma_lowering_counts_labels(env, index, *a, x.next);
            let y = lower(env, index, *a, x.next)->Ok_0;
            lemma_lowering_counts_labels(env, index, *b, y.next);
            lemma_advance_twice(count, 3, label_count(*t));
            lemma_advance_twice(count, 3 + label_count(*t), label_count(*a));
            lemma_advance_twice(
                count,
                3 + label_count(*t) + label_count(*a),
                label_count(*b),
            );
        },
        ExprView::Let(bindings, body) => {
            lemma_bindings_count_labels(env, index, bindings, count, 0);
            let scope = lower_bindings(env, index, bindings, count, 0)->Ok_0;
            lemma_lowering_counts_labels(
                scope.env,
                index - 8 * bindings.len(),
                *body,
                scope.next,
            );
            lemma_advance_twice(count, binding_labels_from(bindings, 0), label_count(*body));
        },
        ExprView::Do(es) => {
            lemma_sequence_counts_labels(env, index, es, count, 0);
        },
        ExprView::Define(_, params, body) => {
            lemma_lowering_counts_labels(
                parameter_env(params, params.len()),
                -16,
                *body,
                count,
            );
        },
        ExprView::Call(_, args) => {
            lemma_arguments_count_labels(env, index, args, count, args.len());
        },
    }
}

/// Lowering the bindings of a `let` from binding `i` on moves the symbol
/// generator on by the number of labels in their initializers.
pub proof fn lemma_bindings_count_labels(
    env: Map<Seq<char>, i64>,
    index: int,
    bindings: Seq<(Seq<char>, ExprView)>,
    count: u64,
    i: nat,
)
    requires
        lower_bindings(env, index, bindings, count, i) is Ok,
    ensures
        lower_bindings(env, index, bindings, count, i)->Ok_0.next == advance(
            count,
            binding_labels_from(bindings, i),
        ),
    decreases bindings, bindings.len() - i,
{
    if i < bindings.len() {
        let slot = index - 8 * i;
        lemma_lowering_counts_labels(env, slot, bindings[i as int].1, count);
        let x = lower(env, slot, bindings[i as int].1, count)->Ok_0;
        lemma_bindings_count_labels(
            env.insert(bindings[i as int].0, slot as i64),
            index,
            bindings,
            x.next,
            i + 1,
        );
        lemma_advance_twice(
            count,
            label_count(bindings[i as int].1),
            binding_labels_from(bindings, i + 1),
        );
    }
}

/// Lowering the expressions of a `do` from expression `i` on moves the
/// symbol generator on by the number of labels in them.
pub proof fn lemma_sequence_counts_labels(
    env: Map<Seq<char>, i64>,
    index: int,
    es: Seq<ExprView>,
    count: u64,
    i: nat,
)
    requires
        lower_sequence(env, index, es, count, i) is Ok,
    ensures
        lower_sequence(env, index, es, count, i)->Ok_0.next == advance(count, labels_from(es, i)),
    decreases es, es.len() - i,
{
    if i < es.len() {
        lemma_lowering_counts_labels(env, index, es[i as int], count);
        let x = lower(env, index, es[i as int], count)->Ok_0;
        lemma_sequence_counts_labels(env, index, es, x.next, i + 1);
        lemma_advance_twice(count, label_count(es[i as int]), labels_from(es, i + 1));
    }
}

/// Lowering the first `m` arguments of a call moves the symbol generator on
/// by the number of labels in them.
pub proof fn lemma_arguments_count_labels(
    env: Map<Seq<char>, i64>,
    index: int,
    args: Seq<ExprView>,
    count: u64,
    m: nat,
)
    requires
        lower_arguments(env, index, args, count, m) is Ok,
    ensures
        lower_arguments(env, index, args, count, m)->Ok_0.next == advance(
            count,
            labels_upto(args, m),
        ),
    decreases args, m,
{
    if 0 < m <= args.len() {
        let i = m - 1;
        lemma_lowering_counts_labels(env, index - 8 * i, args[i], count);
        let x = lower(env, index - 8 * i, args[i], count)->Ok_0;
        lemma_arguments_count_labels(env, index, args, x.next, i as nat);
        lemma_advance_twice(count, label_count(args[i]), labels_upto(args, i as nat));
    }
}

/// Whether `label` is one of the `n` names that a symbol generator gives
/// from `count` on, for some prefix that does not end in a digit.
pub open spec fn generated(count: u64, n: nat, label: Seq<char>) -> bool {
    exists|j: nat, prefix: Seq<char>|
        j < n && ends_without_digit(prefix) && label == #[trigger] label_text(
            prefix,
            advance(count, j),
        )
}

/// Whether `e` holds the definition of a function named `name`.
pub open spec fn defines(e: ExprView, name: Seq<char>) -> bool
    decreases e,
{
    match e {
        ExprView::Num(_) => false,
        ExprView::Id(_) => false,
        ExprView::True => false,
        ExprView::False => false,
        ExprView::Nil => false,
        ExprView::UnPrim(_, a) => defines(*a, name),
        ExprView::BinPrim(_, a, b) => defines(*a, name) || defines(*b, name),
        ExprView::If(t, a, b) => defines(*t, name) || defines(*a, name) || defines(*b, name),
        ExprView::Let(bindings, body) => defines(*body, name) || exists|i: int|
            0 <= i < bindings.len() && defines((#[trigger] bindings[i]).1, name),
        ExprView::Do(es) => exists|i: int| 0 <= i < es.len() && defines(#[trigger] es[i], name),
        ExprView::Define(f, _, body) => f == name || defines(*body, name),
        ExprView::Call(_, args) => exists|i: int|
            0 <= i < args.len() && defines(#[trigger] args[i], name),
    }
}

/// Whether the directive `d` names labels only as a lowering of `e` from
/// `count` with `n` labels may: a label it sets is generated or is the name
/// of a function that `e` defines, and a label it branches to is generated.
pub open spec fn names_own_labels(d: DirectiveView, e: ExprView, count: u64, n: nat) -> bool {
    match d {
        DirectiveView::Label(l) => generated(count, n, l) || defines(e, l),
        DirectiveView::B(l) => generated(count, n, l),
        DirectiveView::Beq(l) => generated(count, n, l),
        DirectiveView::Bne(_) => false,
        DirectiveView::Blt(_) => false,
        DirectiveView::Bge(_) => false,
        DirectiveView::Bgt(_) => false,
        DirectiveView::Ble(_) => false,
        _ => true,
    }
}

/// Whether every directive of `code` names labels only as a lowering of `e`
/// from `count` with `n` labels may.
pub open spec fn code_names_own_labels(
    code: Seq<DirectiveView>,
    e: ExprView,
    count: u64,
    n: nat,
) -> bool {
    forall|i: int| 0 <= i < code.len() ==> names_own_labels(#[trigger] code[i], e, count, n)
}

/// The three prefixes of the labels of a conditional do not end in a digit.
pub proof fn lemma_prefixes_end_without_digit()
    ensures
        ends_without_digit("then"@),
        ends_without_digit("else"@),
        ends_without_digit("continue"@),
{
    reveal_strlit("then");
    reveal_strlit("else");
    reveal_strlit("continue");
}

/// The name that a generator gives at step `j` from `count` is one of the
/// names it gives in `n` steps, for `j` below `n`.
pub proof fn lemma_generated_at(count: u64, n: nat, j: nat, prefix: Seq<char>)
    requires
        j < n,
        ends_without_digit(prefix),
    ensures
        generated(count, n, label_text(prefix, advance(count, j))),
{
}

/// Two runs of instructions that name labels only as a lowering may do so
/// together.
proof fn lemma_joined_code_names_own_labels(
    a: Seq<DirectiveView>,
    b: Seq<DirectiveView>,
    root: ExprView,
    count: u64,
    n: nat,
)
    requires
        code_names_own_labels(a, root, count, n),
        code_names_own_labels(b, root, count, n),
    ensures
        code_names_own_labels(a + b, root, count, n),
{
    assert forall|i: int| 0 <= i < (a + b).len() implies names_own_labels(
        #[trigger] (a + b)[i],
        root,
        count,
        n,
    ) by {
        if i < a.len() {
            assert((a + b)[i] == a[i]);
        } else {
            assert((a + b)[i] == b[i - a.len()]);
        }
    }
}

/// Instructions that name no label name labels only as any lowering may.
proof fn lemma_plain_code_names_own_labels(
    a: Seq<DirectiveView>,
    root: ExprView,
    count: u64,
    n: nat,
)
    requires
        forall|i: int|
            0 <= i < a.len() ==> !((#[trigger] a[i]) is Label) && !(a[i] is B) && !(a[i] is Beq)
                && !(a[i] is Bne) && !(a[i] is Blt) && !(a[i] is Bge) && !(a[i] is Bgt) && !(
            a[i] is Ble),
    ensures
        code_names_own_labels(a, root, count, n),
{
}

/// A primitive of one operand names labels only as the whole lowering may.
proof fn lemma_unary_names_own_labels(
    env: Map<Seq<char>, i64>,
    index: int,
    e: ExprView,
    count: u64,
    off: nat,
    root: ExprView,
    n: nat,
)
    requires
        e is UnPrim,
        lower(env, index, e, advance(count, off)) is Ok,
        off + label_count(e) <= n,
        forall|l: Seq<char>| defines(e, l) ==> defines(root, l),
    ensures
        code_names_own_labels(lower(env, index, e, advance(count, off))->Ok_0.code, root, count, n),
    decreases e, 0nat,
{
    let start = advance(count, off);
    let code = lower(env, index, e, start)->Ok_0.code;
    match e {
        ExprView::UnPrim(p, a) => {
            lemma_part_names_own_labels(env, index, *a, count, off, root, n);
            let x = lower(env, index, *a, start)->Ok_0;
            lemma_plain_code_names_own_labels(unary_code(p), root, count, n);
            lemma_joined_code_names_own_labels(x.code, unary_code(p), root, count, n);
        },
        _ => {},
    }
}

/// A primitive of two operands names labels only as the whole lowering may.
proof fn lemma_binary_names_own_labels(
    env: Map<Seq<char>, i64>,
    index: int,
    e: ExprView,
    count: u64,
    off: nat,
    root: ExprView,
    n: nat,
)
    requires
        e is BinPrim,
        lower(env, index, e, advance(count, off)) is Ok,
        off + label_count(e) <= n,
        forall|l: Seq<char>| defines(e, l) ==> defines(root, l),
    ensures
        code_names_own_labels(lower(env, index, e, advance(count, off))->Ok_0.code, root, count, n),
    decreases e, 0nat,
{
    let start = advance(count, off);
    let code = lower(env, index, e, start)->Ok_0.code;
    match e {
        ExprView::BinPrim(p, a, b) => {
            lemma_part_names_own_labels(env, index, *a, count, off, root, n);
            lemma_lowering_counts_labels(env, index, *a, start);
            lemma_advance_twice(count, off, label_count(*a));
            let x = lower(env, index, *a, start)->Ok_0;
            lemma_part_names_own_labels(
                env,
                index - 8,
                *b,
                count,
                off + label_count(*a),
                root,
                n,
            );
            let y = lower(env, index - 8, *b, x.next)->Ok_0;
            let tail = binary_code(index as i64, p);
            let store = seq![
                DirectiveView::Str(slot_operand(index as i64), Operand::Reg(Register::X0)),
            ];
            lemma_plain_code_names_own_labels(tail, root, count, n);
            lemma_plain_code_names_own_labels(store, root, count, n);
            lemma_joined_code_names_own_labels(x.code, store, root, count, n);
            lemma_joined_code_names_own_labels(y.code, tail, root, count, n);
            lemma_joined_code_names_own_labels(x.code + store, y.code + tail, root, count, n);
            assert(x.code.push(store[0]) =~= x.code + store);
        },
        _ => {},
    }
}

/// A conditional names labels only as the whole lowering may.
proof fn lemma_conditional_names_own_labels(
    env: Map<Seq<char>, i64>,
    index: int,
    e: ExprView,
    count: u64,
    off: nat,
    root: ExprView,
    n: nat,
)
    requires
        e is If,
        lower(env, index, e, advance(count, off)) is Ok,
        off + label_count(e) <= n,
        forall|l: Seq<char>| defines(e, l) ==> defines(root, l),
    ensures
        code_names_own_labels(lower(env, index, e, advance(count, off))->Ok_0.code, root, count, n),
    decreases e, 0nat,
{
    let start = advance(count, off);
    let code = lower(env, index, e, start)->Ok_0.code;
    match e {
        ExprView::If(t, a, b) => {
            lemma_advance_twice(count, off, 0);
            lemma_advance_twice(count, off, 1);
            lemma_advance_twice(count, off, 2);
            lemma_advance_twice(count, off, 3);
            lemma_advance_twice(start, 0, 0);
            let then_label = label_text("then"@, start);
            let else_label = label_text("else"@, advance(start, 1));
            let continue_label = label_text("continue"@, advance(start, 2));
            lemma_prefixes_end_without_digit();
            lemma_generated_at(count, n, off, "then"@);
            lemma_generated_at(count, n, off + 1, "else"@);
            lemma_generated_at(count, n, off + 2, "continue"@);
            assert(generated(count, n, then_label));
            assert(generated(count, n, else_label));
            assert(generated(count, n, continue_label));
            let after = advance(start, 3);
            lemma_part_names_own_labels(env, index, *t, count, off + 3, root, n);
            lemma_lowering_counts_labels(env, index, *t, after);
            lemma_advance_twice(count, off + 3, label_count(*t));
            let x = lower(env, index, *t, after)->Ok_0;
            lemma_part_names_own_labels(
                env,
                index,
                *a,
                count,
                off + 3 + label_count(*t),
                root,
                n,
            );
            lemma_lowering_counts_labels(env, index, *a, x.next);
            lemma_advance_twice(count, off + 3 + label_count(*t), label_count(*a));
            let y = lower(env, index, *a, x.next)->Ok_0;
            lemma_part_names_own_labels(
                env,
                index,
                *b,
                count,
                off + 3 + label_count(*t) + label_count(*a),
                root,
                n,
            );
            let z = lower(env, index, *b, y.next)->Ok_0;
            let branch = seq![
                DirectiveView::Cmp(Operand::Reg(Register::X0), Operand::Imm(tagged_bool(false))),
                DirectiveView::Beq(else_label),
                DirectiveView::Label(then_label),
            ];
            let middle = seq![DirectiveView::B(continue_label), DirectiveView::Label(else_label)];
            let end = seq![DirectiveView::Label(continue_label)];
            assert(code_names_own_labels(branch, root, count, n));
            assert(code_names_own_labels(middle, root, count, n));
            assert(code_names_own_labels(end, root, count, n));
            lemma_joined_code_names_own_labels(x.code, branch, root, count, n);
            lemma_joined_code_names_own_labels(x.code + branch, y.code, root, count, n);
            lemma_joined_code_names_own_labels(x.code + branch + y.code, middle, root, count, n);
            lemma_joined_code_names_own_labels(z.code, end, root, count, n);
            lemma_joined_code_names_own_labels(
                x.code + branch + y.code + middle,
                z.code + end,
                root,
                count,
                n,
            );
        },
        _ => {},
    }
}

/// A `let` names labels only as the whole lowering may.
proof fn lemma_let_names_own_labels(
    env: Map<Seq<char>, i64>,
    index: int,
    e: ExprView,
    count: u64,
    off: nat,
    root: ExprView,
    n: nat,
)
    requires
        e is Let,
        lower(env, index, e, advance(count, off)) is Ok,
        off + label_count(e) <= n,
        forall|l: Seq<char>| defines(e, l) ==> defines(root, l),
    ensures
        code_names_own_labels(lower(env, index, e, advance(count, off))->Ok_0.code, root, count, n),
    decreases e, 0nat,
{
    let start = advance(count, off);
    let code = lower(env, index, e, start)->Ok_0.code;
    match e {
        ExprView::Let(bindings, body) => {
            assert forall|i: int, l: Seq<char>|
                0 <= i < bindings.len() && defines(bindings[i].1, l) implies defines(root, l) by {
                assert(defines(e, l));
            }
            lemma_bindings_name_own_labels(env, index, bindings, count, off, 0, root, n);
            lemma_bindings_count_labels(env, index, bindings, start, 0);
            lemma_advance_twice(count, off, binding_labels_from(bindings, 0));
            let scope = lower_bindings(env, index, bindings, start, 0)->Ok_0;
            lemma_part_names_own_labels(
                scope.env,
                index - 8 * bindings.len(),
                *body,
                count,
                off + binding_labels_from(bindings, 0),
                root,
                n,
            );
            let y = lower(scope.env, index - 8 * bindings.len(), *body, scope.next)->Ok_0;
            lemma_joined_code_names_own_labels(scope.code, y.code, root, count, n);
        },
        _ => {},
    }
}

/// A function definition names labels only as the whole lowering may.
proof fn lemma_definition_names_own_labels(
    env: Map<Seq<char>, i64>,
    index: int,
    e: ExprView,
    count: u64,
    off: nat,
    root: ExprView,
    n: nat,
)
    requires
        e is Define,
        lower(env, index, e, advance(count, off)) is Ok,
        off + label_count(e) <= n,
        forall|l: Seq<char>| defines(e, l) ==> defines(root, l),
    ensures
        code_names_own_labels(lower(env, index, e, advance(count, off))->Ok_0.code, root, count, n),
    decreases e, 0nat,
{
    let start = advance(count, off);
    let code = lower(env, index, e, start)->Ok_0.code;
    match e {
        ExprView::Define(name, params, body) => {
            assert(defines(e, name));
            lemma_part_names_own_labels(
                parameter_env(params, params.len()),
                -16,
                *body,
                count,
                off,
                root,
                n,
            );
            let y = lower(parameter_env(params, params.len()), -16, *body, start)->Ok_0;
            assert(code_names_own_labels(prologue(name), root, count, n));
            lemma_plain_code_names_own_labels(parameter_stores(params.len()), root, count, n);
            lemma_plain_code_names_own_labels(epilogue(), root, count, n);
            lemma_joined_code_names_own_labels(
                prologue(name),
                parameter_stores(params.len()),
                root,
                count,
                n,
            );
            lemma_joined_code_names_own_labels(y.code, epilogue(), root, count, n);
            lemma_joined_code_names_own_labels(
                prologue(name) + parameter_stores(params.len()),
                y.code + epilogue(),
                root,
                count,
                n,
            );
        },
        _ => {},
    }
}

/// A call names labels only as the whole lowering may.
proof fn lemma_call_names_own_labels(
    env: Map<Seq<char>, i64>,
    index: int,
    e: ExprView,
    count: u64,
    off: nat,
    root: ExprView,
    n: nat,
)
    requires
        e is Call,
        lower(env, index, e, advance(count, off)) is Ok,
        off + label_count(e) <= n,
        forall|l: Seq<char>| defines(e, l) ==> defines(root, l),
    ensures
        code_names_own_labels(lower(env, index, e, advance(count, off))->Ok_0.code, root, count, n),
    decreases e, 0nat,
{
    let start = advance(count, off);
    let code = lower(env, index, e, start)->Ok_0.code;
    match e {
        ExprView::Call(f, args) => {
            assert forall|i: int, l: Seq<char>|
                0 <= i < args.len() && defines(args[i], l) implies defines(root, l) by {
                assert(defines(e, l));
            }
            lemma_arguments_name_own_labels(env, index, args, count, off, args.len(), root, n);
            let x = lower_arguments(env, index, args, start, args.len())->Ok_0;
            lemma_plain_code_names_own_labels(argument_loads(args.len()), root, count, n);
            lemma_plain_code_names_own_labels(call_code(f, args.len()), root, count, n);
            lemma_joined_code_names_own_labels(
                argument_loads(args.len()),
                call_code(f, args.len()),
                root,
                count,
                n,
            );
            lemma_joined_code_names_own_labels(
                x.code,
                argument_loads(args.len()) + call_code(f, args.len()),
                root,
                count,
                n,
            );
        },
        _ => {},
    }
}

/// The part of a lowering that lowers `e`, a part of `root`, from `off`
/// labels after `count`, names labels only as the whole lowering may.
pub proof fn lemma_part_names_own_labels(
    env: Map<Seq<char>, i64>,
    index: int,
    e: ExprView,
    count: u64,
    off: nat,
    root: ExprView,
    n: nat,
)
    requires
        lower(env, index, e, advance(count, off)) is Ok,
        off + label_count(e) <= n,
        forall|l: Seq<char>| defines(e, l) ==> defines(root, l),
    ensures
        code_names_own_labels(lower(env, index, e, advance(count, off))->Ok_0.code, root, count, n),
    decreases e, 1nat,
{
    let start = advance(count, off);
    let code = lower(env, index, e, start)->Ok_0.code;
    match e {
        ExprView::Num(_) => {},
        ExprView::Id(_) => {},
        ExprView::True => {},
        ExprView::False => {},
        ExprView::Nil => {},
        ExprView::UnPrim(_, _) => {
            lemma_unary_names_own_labels(env, index, e, count, off, root, n);
        },
        ExprView::BinPrim(_, _, _) => {
            lemma_binary_names_own_labels(env, index, e, count, off, root, n);
        },
        ExprView::If(_, _, _) => {
            lemma_conditional_names_own_labels(env, index, e, count, off, root, n);
        },
        ExprView::Let(_, _) => {
            lemma_let_names_own_labels(env, index, e, count, off, root, n);
        },
        ExprView::Do(es) => {
            assert forall|i: int, l: Seq<char>|
                0 <= i < es.len() && defines(es[i], l) implies defines(root, l) by {
                assert(defines(e, l));
            }
            lemma_sequence_names_own_labels(env, index, es, count, off, 0, root, n);
        },
        ExprView::Define(_, _, _) => {
            lemma_definition_names_own_labels(env, index, e, count, off, root, n);
        },
        ExprView::Call(_, _) => {
            lemma_call_names_own_labels(env, index, e, count, off, root, n);
        },
    }
}

/// The part of a lowering that lowers the bindings of a `let` from binding
/// `i` on names labels only as the whole lowering may.
pub proof fn lemma_bindings_name_own_labels(
    env: Map<Seq<char>, i64>,
    index: int,
    bindings: Seq<(Seq<char>, ExprView)>,
    count: u64,
    off: nat,
    i: nat,
    root: ExprView,
    n: nat,
)
    requires
        lower_bindings(env, index, bindings, advance(count, off), i) is Ok,
        off + binding_labels_from(bindings, i) <= n,
        forall|j: int, l: Seq<char>|
            0 <= j < bindings.len() && defines(bindings[j].1, l) ==> defines(root, l),
    ensures
        code_names_own_labels(
            lower_bindings(env, index, bindings, advance(count, off), i)->Ok_0.code,
            root,
            count,
            n,
        ),
    decreases bindings, bindings.len() - i,
{
    if i < bindings.len() {
        let start = advance(count, off);
        let slot = index - 8 * i;
        let init = bindings[i as int].1;
        lemma_part_names_own_labels(env, slot, init, count, off, root, n);
        lemma_lowering_counts_labels(env, slot, init, start);
        lemma_advance_twice(count, off, label_count(init));
        let x = lower(env, slot, init, start)->Ok_0;
        let inner = env.insert(bindings[i as int].0, slot as i64);
        lemma_bindings_name_own_labels(
            inner,
            index,
            bindings,
            count,
            off + label_count(init),
            i + 1,
            root,
            n,
        );
        let rest = lower_bindings(inner, index, bindings, x.next, i + 1)->Ok_0;
        let store = seq![
            DirectiveView::Str(slot_operand(slot as i64), Operand::Reg(Register::X0)),
        ];
        lemma_plain_code_names_own_labels(store, root, count, n);
        lemma_joined_code_names_own_labels(x.code, store, root, count, n);
        lemma_joined_code_names_own_labels(x.code + store, rest.code, root, count, n);
        assert(x.code.push(store[0]) =~= x.code + store);
    }
}

/// The part of a lowering that lowers the expressions of a `do` from
/// expression `i` on names labels only as the whole lowering may.
pub proof fn lemma_sequence_names_own_labels(
    env: Map<Seq<char>, i64>,
    index: int,
    es: Seq<ExprView>,
    count: u64,
    off: nat,
    i: nat,
    root: ExprView,
    n: nat,
)
    requires
        lower_sequence(env, index, es, advance(count, off), i) is Ok,
        off + labels_from(es, i) <= n,
        forall|j: int, l: Seq<char>| 0 <= j < es.len() && defines(es[j], l) ==> defines(root, l),
    ensures
        code_names_own_labels(
            lower_sequence(env, index, es, advance(count, off), i)->Ok_0.code,
            root,
            count,
            n,
        ),
    decreases es, es.len() - i,
{
    if i < es.len() {
        let start = advance(count, off);
        lemma_part_names_own_labels(env, index, es[i as int], count, off, root, n);
        lemma_lowering_counts_labels(env, index, es[i as int], start);
        lemma_advance_twice(count, off, label_count(es[i as int]));
        let x = lower(env, index, es[i as int], start)->Ok_0;
        lemma_sequence_names_own_labels(
            env,
            index,
            es,
            count,
            off + label_count(es[i as int]),
            i + 1,
            root,
            n,
        );
        let rest = lower_sequence(env, index, es, x.next, i + 1)->Ok_0;
        lemma_joined_code_names_own_labels(x.code, rest.code, root, count, n);
    }
}

/// The part of a lowering that lowers the first `m` arguments of a call
/// names labels only as the whole lowering may.
pub proof fn lemma_arguments_name_own_labels(
    env: Map<Seq<char>, i64>,
    index: int,
    args: Seq<ExprView>,
    count: u64,
    off: nat,
    m: nat,
    root: ExprView,
    n: nat,
)
    requires
        lower_arguments(env, index, args, advance(count, off), m) is Ok,
        off + labels_upto(args, m) <= n,
        forall|j: int, l: Seq<char>|
            0 <= j < args.len() && defines(args[j], l) ==> defines(root, l),
    ensures
        code_names_own_labels(
            lower_arguments(env, index, args, advance(count, off), m)->Ok_0.code,
            root,
            count,
            n,
        ),
    decreases args, m,
{
    if 0 < m <= args.len() {
        let start = advance(count, off);
        let i = m - 1;
        lemma_part_names_own_labels(env, index - 8 * i, args[i], count, off, root, n);
        lemma_lowering_counts_labels(env, index - 8 * i, args[i], start);
        lemma_advance_twice(count, off, label_count(args[i]));
        let x = lower(env, index - 8 * i, args[i], start)->Ok_0;
        lemma_arguments_name_own_labels(
            env,
            index,
            args,
            count,
            off + label_count(args[i]),
            i as nat,
            root,
            n,
        );
        let rest = lower_arguments(env, index, args, x.next, i as nat)->Ok_0;
        let spill = seq![argument_spill(i)];
        lemma_plain_code_names_own_labels(spill, root, count, n);
        lemma_joined_code_names_own_labels(x.code, spill, root, count, n);
        lemma_joined_code_names_own_labels(x.code + spill, rest.code, root, count, n);
        assert(x.code.push(spill[0]) =~= x.code + spill);
    }
}

/// In the instructions of a successful lowering, every label set is one
/// that the symbol generator gave during it or the name of a function that
/// the expression defines, and every branch goes to a label that the
/// generator gave during it.
pub proof fn lemma_lowering_names_own_labels(
    env: Map<Seq<char>, i64>,
    index: int,
    e: ExprView,
    count: u64,
)
    requires
        lower(env, index, e, count) is Ok,
    ensures
        code_names_own_labels(
            lower(env, index, e, count)->Ok_0.code,
            e,
            count,
            label_count(e),
        ),
{
    assert(advance(count, 0) == count);
    lemma_part_names_own_labels(env, index, e, count, 0, e, label_count(e));
}

/// A symbol generator gives no name twice within `2^64` names: a name among
/// the first `n1` is not among the `n2` that follow.
pub proof fn lemma_generated_names_are_fresh(count: u64, n1: nat, n2: nat, label: Seq<char>)
    requires
        n1 + n2 <= 0x1_0000_0000_0000_0000,
        generated(count, n1, label),
    ensures
        !generated(advance(count, n1), n2, label),
{
    if generated(advance(count, n1), n2, label) {
        let (j1, p1) = choose|j: nat, prefix: Seq<char>|
            j < n1 && ends_without_digit(prefix) && label == #[trigger] label_text(
                prefix,
                advance(count, j),
            );
        let (j2, p2) = choose|j: nat, prefix: Seq<char>|
            j < n2 && ends_without_digit(prefix) && label == #[trigger] label_text(
                prefix,
                advance(advance(count, n1), j),
            );
        lemma_label_text_injective(p1, advance(count, j1), p2, advance(advance(count, n1), j2));
        lemma_advance_twice(count, n1, j2);
        let m = 0x1_0000_0000_0000_0000int;
        let a = count + j1;
        let b = count + n1 + j2;
        assert(a % m == b % m);
        lemma_mod_equivalence(b, a, m);
        lemma_small_mod((b - a) as nat, m as nat);
        assert(false);
    }
}

/// The label that the directive `d` sets or branches to, where it is the
/// setting of a label, a jump or a branch on equality.
pub open spec fn named_label(d: DirectiveView) -> Option<Seq<char>> {
    match d {
        DirectiveView::Label(l) => Some(l),
        DirectiveView::B(l) => Some(l),
        DirectiveView::Beq(l) => Some(l),
        _ => None,
    }
}

/// Two lowerings, the second from the count at which the first left the
/// symbol generator, share no generated label: a label that a directive of
/// the one and a directive of the other set or branch to is the name of a
/// function that one of the two expressions defines. It holds while the two
/// expressions have no more than `2^64` labels between them.
pub proof fn lemma_separate_lowerings_share_no_label(
    env1: Map<Seq<char>, i64>,
    index1: int,
    e1: ExprView,
    env2: Map<Seq<char>, i64>,
    index2: int,
    e2: ExprView,
    count: u64,
    i: int,
    j: int,
)
    requires
        label_count(e1) + label_count(e2) <= 0x1_0000_0000_0000_0000,
        lower(env1, index1, e1, count) is Ok,
        lower(env2, index2, e2, lower(env1, index1, e1, count)->Ok_0.next) is Ok,
        0 <= i < lower(env1, index1, e1, count)->Ok_0.code.len(),
        0 <= j < lower(env2, index2, e2, lower(env1, index1, e1, count)->Ok_0.next)->Ok_0.code.len(),
        named_label(lower(env1, index1, e1, count)->Ok_0.code[i]) is Some,
        named_label(
            lower(env2, index2, e2, lower(env1, index1, e1, count)->Ok_0.next)->Ok_0.code[j],
        ) == named_label(lower(env1, index1, e1, count)->Ok_0.code[i]),
    ensures
        defines(e1, named_label(lower(env1, index1, e1, count)->Ok_0.code[i])->0) || defines(
            e2,
            named_label(lower(env1, index1, e1, count)->Ok_0.code[i])->0,
        ),
{
    let first = lower(env1, index1, e1, count)->Ok_0;
    let second = lower(env2, index2, e2, first.next)->Ok_0;
    let label = named_label(first.code[i])->0;
    lemma_lowering_names_own_labels(env1, index1, e1, count);
    lemma_lowering_names_own_labels(env2, index2, e2, first.next);
    lemma_lowering_counts_labels(env1, index1, e1, count);
    assert(names_own_labels(first.code[i], e1, count, label_count(e1)));
    assert(names_own_labels(second.code[j], e2, first.next, label_count(e2)));
    if generated(count, label_count(e1), label) {
        lemma_generated_names_are_fresh(count, label_count(e1), label_count(e2), label);
    }
}

/// Whether `label` is the name that a symbol generator gives at step `j`
/// from `count`, for some prefix that does not end in a digit.
pub open spec fn generated_at(count: u64, j: nat, label: Seq<char>) -> bool {
    exists|prefix: Seq<char>|
        ends_without_digit(prefix) && label == #[trigger] label_text(prefix, advance(count, j))
}

/// The steps from `lo` up to `hi`.
pub open spec fn steps(lo: nat, hi: nat) -> Set<nat> {
    Set::new(|j: nat| lo <= j < hi)
}

/// Whether no two directives of `code` set the same label, but for the
/// names of the functions that `root` defines.
pub open spec fn sets_labels_once(code: Seq<DirectiveView>, root: ExprView) -> bool {
    forall|i: int, j: int|
        0 <= i < j < code.len() && (#[trigger] code[i]) is Label && #[trigger] code[j] == code[i]
            ==> defines(root, code[i]->Label_0)
}

/// Whether every label that `code` sets is the name of a function that
/// `root` defines, or the name given at one of the steps `numbers` from
/// `count`.
pub open spec fn labels_numbered(
    code: Seq<DirectiveView>,
    root: ExprView,
    count: u64,
    numbers: Set<nat>,
) -> bool {
    forall|i: int|
        0 <= i < code.len() && (#[trigger] code[i]) is Label ==> defines(root, code[i]->Label_0)
            || exists|j: nat| numbers.contains(j) && #[trigger] generated_at(
                count,
                j,
                code[i]->Label_0,
            )
}

/// Within `2^64` steps a symbol generator gives a name at one step only.
pub proof fn lemma_generated_at_one_step(count: u64, j1: nat, j2: nat, label: Seq<char>)
    requires
        j1 < 0x1_0000_0000_0000_0000,
        j2 < 0x1_0000_0000_0000_0000,
        generated_at(count, j1, label),
        generated_at(count, j2, label),
    ensures
        j1 == j2,
{
    let p1 = choose|prefix: Seq<char>|
        ends_without_digit(prefix) && label == #[trigger] label_text(prefix, advance(count, j1));
    let p2 = choose|prefix: Seq<char>|
        ends_without_digit(prefix) && label == #[trigger] label_text(prefix, advance(count, j2));
    lemma_label_text_injective(p1, advance(count, j1), p2, advance(count, j2));
    let m = 0x1_0000_0000_0000_0000int;
    if j1 < j2 {
        lemma_mod_equivalence(count + j2, count + j1, m);
        lemma_small_mod((j2 - j1) as nat, m as nat);
    } else if j2 < j1 {
        lemma_mod_equivalence(count + j1, count + j2, m);
        lemma_small_mod((j1 - j2) as nat, m as nat);
    }
}

/// Two runs of instructions that each set no label twice, and that take
/// their labels from steps apart, set no label twice together.
proof fn lemma_joined_code_sets_labels_once(
    a: Seq<DirectiveView>,
    b: Seq<DirectiveView>,
    root: ExprView,
    count: u64,
    na: Set<nat>,
    nb: Set<nat>,
)
    requires
        sets_labels_once(a, root),
        sets_labels_once(b, root),
        labels_numbered(a, root, count, na),
        labels_numbered(b, root, count, nb),
        forall|j: nat| na.contains(j) ==> !nb.contains(j),
        forall|j: nat| na.contains(j) || nb.contains(j) ==> j < 0x1_0000_0000_0000_0000,
    ensures
        sets_labels_once(a + b, root),
        labels_numbered(a + b, root, count, na.union(nb)),
{
    let whole = a + b;
    assert forall|i: int| 0 <= i < whole.len() && (#[trigger] whole[i]) is Label implies defines(
        root,
        whole[i]->Label_0,
    ) || exists|j: nat|
        na.union(nb).contains(j) && #[trigger] generated_at(count, j, whole[i]->Label_0) by {
        let l = whole[i]->Label_0;
        if i < a.len() {
            assert(whole[i] == a[i]);
            if !defines(root, l) {
                let j = choose|j: nat| na.contains(j) && #[trigger] generated_at(count, j, l);
                assert(na.union(nb).contains(j));
            }
        } else {
            assert(whole[i] == b[i - a.len()]);
            if !defines(root, l) {
                let j = choose|j: nat| nb.contains(j) && #[trigger] generated_at(count, j, l);
                assert(na.union(nb).contains(j));
            }
        }
    }
    assert forall|i: int, j: int|
        0 <= i < j < whole.len() && (#[trigger] whole[i]) is Label && #[trigger] whole[j]
            == whole[i] implies defines(root, whole[i]->Label_0) by {
        let l = whole[i]->Label_0;
        if j < a.len() {
            assert(whole[i] == a[i] && whole[j] == a[j]);
        } else if i >= a.len() {
            assert(whole[i] == b[i - a.len()] && whole[j] == b[j - a.len()]);
        } else {
            assert(whole[i] == a[i] && whole[j] == b[j - a.len()]);
            if !defines(root, l) {
                let j1 = choose|j: nat| na.contains(j) && #[trigger] generated_at(count, j, l);
                let j2 = choose|j: nat| nb.contains(j) && #[trigger] generated_at(count, j, l);
                lemma_generated_at_one_step(count, j1, j2, l);
            }
        }
    }
}

/// Two runs of instructions that each set no label twice, the first with
/// labels from the steps `lo..mid` and the second from `mid..hi`, set no
/// label twice together, and take their labels from `lo..hi`.
proof fn lemma_joined_code_in_steps(
    a: Seq<DirectiveView>,
    b: Seq<DirectiveView>,
    root: ExprView,
    count: u64,
    lo: nat,
    mid: nat,
    hi: nat,
)
    requires
        sets_labels_once(a, root),
        sets_labels_once(b, root),
        labels_numbered(a, root, count, steps(lo, mid)),
        labels_numbered(b, root, count, steps(mid, hi)),
        lo <= mid <= hi <= 0x1_0000_0000_0000_0000,
    ensures
        sets_labels_once(a + b, root),
        labels_numbered(a + b, root, count, steps(lo, hi)),
{
    lemma_joined_code_sets_labels_once(a, b, root, count, steps(lo, mid), steps(mid, hi));
    lemma_labels_numbered_in_more(
        a + b,
        root,
        count,
        steps(lo, mid).union(steps(mid, hi)),
        steps(lo, hi),
    );
}

/// Labels that are given at some steps are given at any steps that hold
/// those.
proof fn lemma_labels_numbered_in_more(
    code: Seq<DirectiveView>,
    root: ExprView,
    count: u64,
    fewer: Set<nat>,
    more: Set<nat>,
)
    requires
        labels_numbered(code, root, count, fewer),
        forall|j: nat| fewer.contains(j) ==> more.contains(j),
    ensures
        labels_numbered(code, root, count, more),
{
    assert forall|i: int| 0 <= i < code.len() && (#[trigger] code[i]) is Label implies defines(
        root,
        code[i]->Label_0,
    ) || exists|j: nat| more.contains(j) && #[trigger] generated_at(count, j, code[i]->Label_0) by {
        let l = code[i]->Label_0;
        if !defines(root, l) {
            let j = choose|j: nat| fewer.contains(j) && #[trigger] generated_at(count, j, l);
            assert(more.contains(j));
        }
    }
}

/// Instructions that set no label set no label twice, and take their labels
/// from any steps.
proof fn lemma_plain_code_sets_labels_once(
    a: Seq<DirectiveView>,
    root: ExprView,
    count: u64,
    numbers: Set<nat>,
)
    requires
        forall|i: int| 0 <= i < a.len() ==> !((#[trigger] a[i]) is Label),
    ensures
        sets_labels_once(a, root),
        labels_numbered(a, root, count, numbers),
{
}

/// One label set by itself, given at step `j`.
proof fn lemma_one_generated_label(
    a: Seq<DirectiveView>,
    at: int,
    root: ExprView,
    count: u64,
    j: nat,
    prefix: Seq<char>,
)
    requires
        ends_without_digit(prefix),
        0 <= at < a.len(),
        a[at] == DirectiveView::Label(label_text(prefix, advance(count, j))),
        forall|i: int| 0 <= i < a.len() && i != at ==> !((#[trigger] a[i]) is Label),
    ensures
        sets_labels_once(a, root),
        labels_numbered(a, root, count, steps(j, j + 1)),
{
    assert(generated_at(count, j, label_text(prefix, advance(count, j))));
    assert(steps(j, j + 1).contains(j));
}

/// A primitive of one operand sets no label twice.
proof fn lemma_unary_sets_labels_once(
    env: Map<Seq<char>, i64>,
    index: int,
    e: ExprView,
    count: u64,
    off: nat,
    root: ExprView,
)
    requires
        e is UnPrim,
        lower(env, index, e, advance(count, off)) is Ok,
        off + label_count(e) <= 0x1_0000_0000_0000_0000,
        forall|l: Seq<char>| defines(e, l) ==> defines(root, l),
    ensures
        sets_labels_once(lower(env, index, e, advance(count, off))->Ok_0.code, root),
        labels_numbered(
            lower(env, index, e, advance(count, off))->Ok_0.code,
            root,
            count,
            steps(off, off + label_count(e)),
        ),
    decreases e, 0nat,
{
    let start = advance(count, off);
    let code = lower(env, index, e, start)->Ok_0.code;
    match e {
        ExprView::UnPrim(p, a) => {
            lemma_part_sets_labels_once(env, index, *a, count, off, root);
            let x = lower(env, index, *a, start)->Ok_0;
            let end = off + label_count(e);
            lemma_plain_code_sets_labels_once(unary_code(p), root, count, steps(end, end));
            lemma_joined_code_in_steps(x.code, unary_code(p), root, count, off, end, end);
        },
        _ => {},
    }
}

/// A primitive of two operands sets no label twice.
proof fn lemma_binary_sets_labels_once(
    env: Map<Seq<char>, i64>,
    index: int,
    e: ExprView,
    count: u64,
    off: nat,
    root: ExprView,
)
    requires
        e is BinPrim,
        lower(env, index, e, advance(count, off)) is Ok,
        off + label_count(e) <= 0x1_0000_0000_0000_0000,
        forall|l: Seq<char>| defines(e, l) ==> defines(root, l),
    ensures
        sets_labels_once(lower(env, index, e, advance(count, off))->Ok_0.code, root),
        labels_numbered(
            lower(env, index, e, advance(count, off))->Ok_0.code,
            root,
            count,
            steps(off, off + label_count(e)),
        ),
    decreases e, 0nat,
{
    let start = advance(count, off);
    let code = lower(env, index, e, start)->Ok_0.code;
    match e {
        ExprView::BinPrim(p, a, b) => {
            let mid = off + label_count(*a);
            let end = off + label_count(e);
            lemma_part_sets_labels_once(env, index, *a, count, off, root);
            lemma_lowering_counts_labels(env, index, *a, start);
            lemma_advance_twice(count, off, label_count(*a));
            let x = lower(env, index, *a, start)->Ok_0;
            lemma_part_sets_labels_once(env, index - 8, *b, count, mid, root);
            let y = lower(env, index - 8, *b, x.next)->Ok_0;
            let tail = binary_code(index as i64, p);
            let store = seq![
                DirectiveView::Str(slot_operand(index as i64), Operand::Reg(Register::X0)),
            ];
            lemma_plain_code_sets_labels_once(tail, root, count, steps(end, end));
            lemma_plain_code_sets_labels_once(store, root, count, steps(mid, mid));
            lemma_joined_code_in_steps(x.code, store, root, count, off, mid, mid);
            lemma_joined_code_in_steps(y.code, tail, root, count, mid, end, end);
            lemma_joined_code_in_steps(x.code + store, y.code + tail, root, count, off, mid, end);
            assert(x.code.push(store[0]) =~= x.code + store);
        },
        _ => {},
    }
}

/// A conditional sets no label twice.
proof fn lemma_conditional_sets_labels_once(
    env: Map<Seq<char>, i64>,
    index: int,
    e: ExprView,
    count: u64,
    off: nat,
    root: ExprView,
)
    requires
        e is If,
        lower(env, index, e, advance(count, off)) is Ok,
        off + label_count(e) <= 0x1_0000_0000_0000_0000,
        forall|l: Seq<char>| defines(e, l) ==> defines(root, l),
    ensures
        sets_labels_once(lower(env, index, e, advance(count, off))->Ok_0.code, root),
        labels_numbered(
            lower(env, index, e, advance(count, off))->Ok_0.code,
            root,
            count,
            steps(off, off + label_count(e)),
        ),
    decreases e, 0nat,
{
    let start = advance(count, off);
    let code = lower(env, index, e, start)->Ok_0.code;
    match e {
        ExprView::If(t, a, b) => {
            lemma_prefixes_end_without_digit();
            lemma_advance_twice(count, off, 0);
            lemma_advance_twice(count, off, 1);
            lemma_advance_twice(count, off, 2);
            lemma_advance_twice(count, off, 3);
            lemma_advance_twice(start, 0, 0);
            let then_label = label_text("then"@, start);
            let else_label = label_text("else"@, advance(start, 1));
            let continue_label = label_text("continue"@, advance(start, 2));
            let after = advance(start, 3);
            let o1 = off + 3;
            let o2 = o1 + label_count(*t);
            let o3 = o2 + label_count(*a);
            let o4 = o3 + label_count(*b);
            lemma_part_sets_labels_once(env, index, *t, count, o1, root);
            lemma_lowering_counts_labels(env, index, *t, after);
            lemma_advance_twice(count, o1, label_count(*t));
            let x = lower(env, index, *t, after)->Ok_0;
            lemma_part_sets_labels_once(env, index, *a, count, o2, root);
            lemma_lowering_counts_labels(env, index, *a, x.next);
            lemma_advance_twice(count, o2, label_count(*a));
            let y = lower(env, index, *a, x.next)->Ok_0;
            lemma_part_sets_labels_once(env, index, *b, count, o3, root);
            let z = lower(env, index, *b, y.next)->Ok_0;
            let branch = seq![
                DirectiveView::Cmp(Operand::Reg(Register::X0), Operand::Imm(tagged_bool(false))),
                DirectiveView::Beq(else_label),
                DirectiveView::Label(then_label),
            ];
            let middle = seq![DirectiveView::B(continue_label), DirectiveView::Label(else_label)];
            let end = seq![DirectiveView::Label(continue_label)];
            lemma_one_generated_label(branch, 2, root, count, off, "then"@);
            lemma_one_generated_label(middle, 1, root, count, off + 1, "else"@);
            lemma_one_generated_label(end, 0, root, count, off + 2, "continue"@);
            let sx = steps(o1, o2);
            let sy = steps(o2, o3);
            let sz = steps(o3, o4);
            let s0 = steps(off, off + 1);
            let s1 = steps(off + 1, off + 2);
            let s2 = steps(off + 2, off + 3);
            lemma_joined_code_sets_labels_once(x.code, branch, root, count, sx, s0);
            lemma_joined_code_sets_labels_once(
                x.code + branch,
                y.code,
                root,
                count,
                sx.union(s0),
                sy,
            );
            lemma_joined_code_sets_labels_once(
                x.code + branch + y.code,
                middle,
                root,
                count,
                sx.union(s0).union(sy),
                s1,
            );
            lemma_joined_code_sets_labels_once(z.code, end, root, count, sz, s2);
            lemma_joined_code_sets_labels_once(
                x.code + branch + y.code + middle,
                z.code + end,
                root,
                count,
                sx.union(s0).union(sy).union(s1),
                sz.union(s2),
            );
            lemma_labels_numbered_in_more(
                code,
                root,
                count,
                sx.union(s0).union(sy).union(s1).union(sz.union(s2)),
                steps(off, off + label_count(e)),
            );
        },
        _ => {},
    }
}

/// A `let` sets no label twice.
proof fn lemma_let_sets_labels_once(
    env: Map<Seq<char>, i64>,
    index: int,
    e: ExprView,
    count: u64,
    off: nat,
    root: ExprView,
)
    requires
        e is Let,
        lower(env, index, e, advance(count, off)) is Ok,
        off + label_count(e) <= 0x1_0000_0000_0000_0000,
        forall|l: Seq<char>| defines(e, l) ==> defines(root, l),
    ensures
        sets_labels_once(lower(env, index, e, advance(count, off))->Ok_0.code, root),
        labels_numbered(
            lower(env, index, e, advance(count, off))->Ok_0.code,
            root,
            count,
            steps(off, off + label_count(e)),
        ),
    decreases e, 0nat,
{
    let start = advance(count, off);
    let code = lower(env, index, e, start)->Ok_0.code;
    match e {
        ExprView::Let(bindings, body) => {
            assert forall|i: int, l: Seq<char>|
                0 <= i < bindings.len() && defines(bindings[i].1, l) implies defines(root, l) by {
                assert(defines(e, l));
            }
            let mid = off + binding_labels_from(bindings, 0);
            lemma_bindings_set_labels_once(env, index, bindings, count, off, 0, root);
            lemma_bindings_count_labels(env, index, bindings, start, 0);
            lemma_advance_twice(count, off, binding_labels_from(bindings, 0));
            let scope = lower_bindings(env, index, bindings, start, 0)->Ok_0;
            lemma_part_sets_labels_once(
                scope.env,
                index - 8 * bindings.len(),
                *body,
                count,
                mid,
                root,
            );
            let y = lower(scope.env, index - 8 * bindings.len(), *body, scope.next)->Ok_0;
            lemma_joined_code_in_steps(
                scope.code,
                y.code,
                root,
                count,
                off,
                mid,
                off + label_count(e),
            );
        },
        _ => {},
    }
}

/// A function definition sets no label twice.
proof fn lemma_definition_sets_labels_once(
    env: Map<Seq<char>, i64>,
    index: int,
    e: ExprView,
    count: u64,
    off: nat,
    root: ExprView,
)
    requires
        e is Define,
        lower(env, index, e, advance(count, off)) is Ok,
        off + label_count(e) <= 0x1_0000_0000_0000_0000,
        forall|l: Seq<char>| defines(e, l) ==> defines(root, l),
    ensures
        sets_labels_once(lower(env, index, e, advance(count, off))->Ok_0.code, root),
        labels_numbered(
            lower(env, index, e, advance(count, off))->Ok_0.code,
            root,
            count,
            steps(off, off + label_count(e)),
        ),
    decreases e, 0nat,
{
    let start = advance(count, off);
    let code = lower(env, index, e, start)->Ok_0.code;
    match e {
        ExprView::Define(name, params, body) => {
            assert(defines(e, name));
            let end = off + label_count(e);
            lemma_part_sets_labels_once(
                parameter_env(params, params.len()),
                -16,
                *body,
                count,
                off,
                root,
            );
            let y = lower(parameter_env(params, params.len()), -16, *body, start)->Ok_0;
            let head = prologue(name);
            assert(sets_labels_once(head, root));
            assert(labels_numbered(head, root, count, steps(off, off)));
            lemma_plain_code_sets_labels_once(
                parameter_stores(params.len()),
                root,
                count,
                steps(off, off),
            );
            lemma_plain_code_sets_labels_once(epilogue(), root, count, steps(end, end));
            lemma_joined_code_in_steps(
                head,
                parameter_stores(params.len()),
                root,
                count,
                off,
                off,
                off,
            );
            lemma_joined_code_in_steps(y.code, epilogue(), root, count, off, end, end);
            lemma_joined_code_in_steps(
                head + parameter_stores(params.len()),
                y.code + epilogue(),
                root,
                count,
                off,
                off,
                end,
            );
        },
        _ => {},
    }
}

/// A call sets no label twice.
proof fn lemma_call_sets_labels_once(
    env: Map<Seq<char>, i64>,
    index: int,
    e: ExprView,
    count: u64,
    off: nat,
    root: ExprView,
)
    requires
        e is Call,
        lower(env, index, e, advance(count, off)) is Ok,
        off + label_count(e) <= 0x1_0000_0000_0000_0000,
        forall|l: Seq<char>| defines(e, l) ==> defines(root, l),
    ensures
        sets_labels_once(lower(env, index, e, advance(count, off))->Ok_0.code, root),
        labels_numbered(
            lower(env, index, e, advance(count, off))->Ok_0.code,
            root,
            count,
            steps(off, off + label_count(e)),
        ),
    decreases e, 0nat,
{
    let start = advance(count, off);
    let code = lower(env, index, e, start)->Ok_0.code;
    match e {
        ExprView::Call(f, args) => {
            assert forall|i: int, l: Seq<char>|
                0 <= i < args.len() && defines(args[i], l) implies defines(root, l) by {
                assert(defines(e, l));
            }
            let end = off + label_count(e);
            lemma_arguments_set_labels_once(env, index, args, count, off, args.len(), root);
            let x = lower_arguments(env, index, args, start, args.len())->Ok_0;
            let tail = argument_loads(args.len()) + call_code(f, args.len());
            lemma_plain_code_sets_labels_once(tail, root, count, steps(end, end));
            lemma_joined_code_in_steps(x.code, tail, root, count, off, end, end);
        },
        _ => {},
    }
}

/// The part of a lowering that lowers `e`, a part of `root`, from `off`
/// labels after `count`, sets no label twice, and takes its labels from the
/// steps that follow `off`.
pub proof fn lemma_part_sets_labels_once(
    env: Map<Seq<char>, i64>,
    index: int,
    e: ExprView,
    count: u64,
    off: nat,
    root: ExprView,
)
    requires
        lower(env, index, e, advance(count, off)) is Ok,
        off + label_count(e) <= 0x1_0000_0000_0000_0000,
        forall|l: Seq<char>| defines(e, l) ==> defines(root, l),
    ensures
        sets_labels_once(lower(env, index, e, advance(count, off))->Ok_0.code, root),
        labels_numbered(
            lower(env, index, e, advance(count, off))->Ok_0.code,
            root,
            count,
            steps(off, off + label_count(e)),
        ),
    decreases e, 1nat,
{
    let start = advance(count, off);
    let code = lower(env, index, e, start)->Ok_0.code;
    match e {
        ExprView::Num(_) => {},
        ExprView::Id(_) => {},
        ExprView::True => {},
        ExprView::False => {},
        ExprView::Nil => {},
        ExprView::UnPrim(_, _) => {
            lemma_unary_sets_labels_once(env, index, e, count, off, root);
        },
        ExprView::BinPrim(_, _, _) => {
            lemma_binary_sets_labels_once(env, index, e, count, off, root);
        },
        ExprView::If(_, _, _) => {
            lemma_conditional_sets_labels_once(env, index, e, count, off, root);
        },
        ExprView::Let(_, _) => {
            lemma_let_sets_labels_once(env, index, e, count, off, root);
        },
        ExprView::Do(es) => {
            assert forall|i: int, l: Seq<char>|
                0 <= i < es.len() && defines(es[i], l) implies defines(root, l) by {
                assert(defines(e, l));
            }
            lemma_sequence_sets_labels_once(env, index, es, count, off, 0, root);
        },
        ExprView::Define(_, _, _) => {
            lemma_definition_sets_labels_once(env, index, e, count, off, root);
        },
        ExprView::Call(_, _) => {
            lemma_call_sets_labels_once(env, index, e, count, off, root);
        },
    }
}

/// The part of a lowering that lowers the bindings of a `let` from binding
/// `i` on sets no label twice.
pub proof fn lemma_bindings_set_labels_once(
    env: Map<Seq<char>, i64>,
    index: int,
    bindings: Seq<(Seq<char>, ExprView)>,
    count: u64,
    off: nat,
    i: nat,
    root: ExprView,
)
    requires
        lower_bindings(env, index, bindings, advance(count, off), i) is Ok,
        off + binding_labels_from(bindings, i) <= 0x1_0000_0000_0000_0000,
        forall|j: int, l: Seq<char>|
            0 <= j < bindings.len() && defines(bindings[j].1, l) ==> defines(root, l),
    ensures
        sets_labels_once(
            lower_bindings(env, index, bindings, advance(count, off), i)->Ok_0.code,
            root,
        ),
        labels_numbered(
            lower_bindings(env, index, bindings, advance(count, off), i)->Ok_0.code,
            root,
            count,
            steps(off, off + binding_labels_from(bindings, i)),
        ),
    decreases bindings, bindings.len() - i,
{
    if i < bindings.len() {
        let start = advance(count, off);
        let slot = index - 8 * i;
        let init = bindings[i as int].1;
        let mid = off + label_count(init);
        let end = off + binding_labels_from(bindings, i);
        lemma_part_sets_labels_once(env, slot, init, count, off, root);
        lemma_lowering_counts_labels(env, slot, init, start);
        lemma_advance_twice(count, off, label_count(init));
        let x = lower(env, slot, init, start)->Ok_0;
        let inner = env.insert(bindings[i as int].0, slot as i64);
        lemma_bindings_set_labels_once(inner, index, bindings, count, mid, i + 1, root);
        let rest = lower_bindings(inner, index, bindings, x.next, i + 1)->Ok_0;
        let store = seq![
            DirectiveView::Str(slot_operand(slot as i64), Operand::Reg(Register::X0)),
        ];
        lemma_plain_code_sets_labels_once(store, root, count, steps(mid, mid));
        lemma_joined_code_in_steps(x.code, store, root, count, off, mid, mid);
        lemma_joined_code_in_steps(x.code + store, rest.code, root, count, off, mid, end);
        assert(x.code.push(store[0]) =~= x.code + store);
    } else {
        lemma_plain_code_sets_labels_once(Seq::empty(), root, count, steps(off, off));
    }
}

/// The part of a lowering that lowers the expressions of a `do` from
/// expression `i` on sets no label twice.
pub proof fn lemma_sequence_sets_labels_once(
    env: Map<Seq<char>, i64>,
    index: int,
    es: Seq<ExprView>,
    count: u64,
    off: nat,
    i: nat,
    root: ExprView,
)
    requires
        lower_sequence(env, index, es, advance(count, off), i) is Ok,
        off + labels_from(es, i) <= 0x1_0000_0000_0000_0000,
        forall|j: int, l: Seq<char>| 0 <= j < es.len() && defines(es[j], l) ==> defines(root, l),
    ensures
        sets_labels_once(lower_sequence(env, index, es, advance(count, off), i)->Ok_0.code, root),
        labels_numbered(
            lower_sequence(env, index, es, advance(count, off), i)->Ok_0.code,
            root,
            count,
            steps(off, off + labels_from(es, i)),
        ),
    decreases es, es.len() - i,
{
    if i < es.len() {
        let start = advance(count, off);
        let mid = off + label_count(es[i as int]);
        lemma_part_sets_labels_once(env, index, es[i as int], count, off, root);
        lemma_lowering_counts_labels(env, index, es[i as int], start);
        lemma_advance_twice(count, off, label_count(es[i as int]));
        let x = lower(env, index, es[i as int], start)->Ok_0;
        lemma_sequence_sets_labels_once(env, index, es, count, mid, i + 1, root);
        let rest = lower_sequence(env, index, es, x.next, i + 1)->Ok_0;
        lemma_joined_code_in_steps(
            x.code,
            rest.code,
            root,
            count,
            off,
            mid,
            off + labels_from(es, i),
        );
    } else {
        lemma_plain_code_sets_labels_once(Seq::empty(), root, count, steps(off, off));
    }
}

/// The part of a lowering that lowers the first `m` arguments of a call
/// sets no label twice.
pub proof fn lemma_arguments_set_labels_once(
    env: Map<Seq<char>, i64>,
    index: int,
    args: Seq<ExprView>,
    count: u64,
    off: nat,
    m: nat,
    root: ExprView,
)
    requires
        lower_arguments(env, index, args, advance(count, off), m) is Ok,
        off + labels_upto(args, m) <= 0x1_0000_0000_0000_0000,
        forall|j: int, l: Seq<char>|
            0 <= j < args.len() && defines(args[j], l) ==> defines(root, l),
    ensures
        sets_labels_once(
            lower_arguments(env, index, args, advance(count, off), m)->Ok_0.code,
            root,
        ),
        labels_numbered(
            lower_arguments(env, index, args, advance(count, off), m)->Ok_0.code,
            root,
            count,
            steps(off, off + labels_upto(args, m)),
        ),
    decreases args, m,
{
    if 0 < m <= args.len() {
        let start = advance(count, off);
        let i = m - 1;
        let mid = off + label_count(args[i]);
        let end = off + labels_upto(args, m);
        lemma_part_sets_labels_once(env, index - 8 * i, args[i], count, off, root);
        lemma_lowering_counts_labels(env, index - 8 * i, args[i], start);
        lemma_advance_twice(count, off, label_count(args[i]));
        let x = lower(env, index - 8 * i, args[i], start)->Ok_0;
        lemma_arguments_set_labels_once(env, index, args, count, mid, i as nat, root);
        let rest = lower_arguments(env, index, args, x.next, i as nat)->Ok_0;
        let spill = seq![argument_spill(i)];
        lemma_plain_code_sets_labels_once(spill, root, count, steps(mid, mid));
        lemma_joined_code_in_steps(x.code, spill, root, count, off, mid, mid);
        lemma_joined_code_in_steps(x.code + spill, rest.code, root, count, off, mid, end);
        assert(x.code.push(spill[0]) =~= x.code + spill);
    } else {
        lemma_plain_code_sets_labels_once(Seq::empty(), root, count, steps(off, off));
    }
}

/// In the instructions of a successful lowering no two directives set the
/// same label, but for the names of the functions that the expression
/// defines: the labels of nested and of neighbouring conditionals all
/// differ. It holds while the expression has no more than `2^64` labels.
pub proof fn lemma_lowering_sets_labels_once(
    env: Map<Seq<char>, i64>,
    index: int,
    e: ExprView,
    count: u64,
)
    requires
        lower(env, index, e, count) is Ok,
        label_count(e) <= 0x1_0000_0000_0000_0000,
    ensures
        sets_labels_once(lower(env, index, e, count)->Ok_0.code, e),
{
    assert(advance(count, 0) == count);
    lemma_part_sets_labels_once(env, index, e, count, 0, e);
}

} // verus!
