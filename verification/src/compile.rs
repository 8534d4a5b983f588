//! Lowering of expressions to instructions.
//!
//! Every runtime value is a 64-bit word whose low bits tell its kind. The
//! result of an expression is left in `X0`; temporaries and local bindings
//! live in stack slots of eight bytes, addressed from the stack pointer.

use vstd::prelude::*;
use crate::assembly::{
    code_view,
    lemma_code_view_concat,
    lemma_code_view_push,
    register_sum,
    Directive,
    DirectiveView,
    Operand,
    Register,
};
use crate::ast::{BinPrim, Expr, ExprView, UnPrim};
use crate::env::Env;
use crate::utils::{advance, gensym, label_text, lemma_advance_twice, SymbolGenerator};

verus! {

pub const NUM_SHIFT: i64 = 2;

pub const NUM_MASK: i64 = 0b11;

pub const NUM_TAG: i64 = 0b00;

pub const BOOL_SHIFT: i64 = 7;

pub const BOOL_MASK: i64 = 0b1111111;

pub const BOOL_TAG: i64 = 0b0011111;

pub const HEAP_MASK: i64 = 0b111;

pub const PAIR_TAG: i64 = 0b010;

pub const NIL_MASK: i64 = 0b11111111;

pub const NIL_TAG: i64 = 0b11111111;

pub const VEC_MASK: i64 = 0b111;

pub const VEC_TAG: i64 = 0b101;

/// The most arguments a call may pass, and the most parameters a function
/// may take: one for each argument register.
pub const ARGUMENT_REGISTERS: usize = 8;

/// Why an expression could not be lowered.
#[derive(Debug, PartialEq, Eq, Clone)]
pub enum CompileError {
    /// An identifier is used where nothing binds it.
    UnresolvedIdentifier(String),
    /// A call passes, or a function takes, more than eight arguments.
    ArgumentCountOverflow,
    /// A stack slot would lie below the least offset that fits in 64 bits.
    StackSlotOutOfRange,
}

/// The mathematical model of a [`CompileError`].
pub enum CompileErrorView {
    UnresolvedIdentifier(Seq<char>),
    ArgumentCountOverflow,
    StackSlotOutOfRange,
}

impl View for CompileError {
    type V = CompileErrorView;

    open spec fn view(&self) -> CompileErrorView {
        match *self {
            CompileError::UnresolvedIdentifier(name) => CompileErrorView::UnresolvedIdentifier(
                name@,
            ),
            CompileError::ArgumentCountOverflow => CompileErrorView::ArgumentCountOverflow,
            CompileError::StackSlotOutOfRange => CompileErrorView::StackSlotOutOfRange,
        }
    }
}

/// The word that stands for the integer `x`: `x` shifted left by two, with
/// the integer tag in the two low bits.
pub open spec fn tagged_num(x: i64) -> i64 {
    (x << NUM_SHIFT) | NUM_TAG
}

/// The integer that a word tagged as an integer stands for.
pub open spec fn untagged_num(word: i64) -> i64 {
    word >> NUM_SHIFT
}

/// The word that stands for the boolean `b`: one or zero shifted left by
/// seven, with the boolean tag in the seven low bits.
pub open spec fn tagged_bool(b: bool) -> i64 {
    ((if b {
        1i64
    } else {
        0i64
    }) << BOOL_SHIFT) | BOOL_TAG
}

/// The boolean that a word tagged as a boolean stands for.
pub open spec fn untagged_bool(word: i64) -> bool {
    (word >> BOOL_SHIFT) != 0
}

/// The operand that addresses the stack slot at `index` bytes from the
/// stack pointer.
pub open spec fn slot_operand(index: i64) -> Operand {
    Operand::MemOffset(Box::new(Operand::Imm(index)), Box::new(Operand::Reg(Register::Sp)))
}

/// The four instructions that turn a processor flag into a tagged boolean
/// in `X0`: clear, set on `condition`, shift, tag.
pub open spec fn flag_to_bool(condition: Seq<char>) -> Seq<DirectiveView> {
    seq![
        DirectiveView::Mov(Operand::Reg(Register::X0), Operand::Imm(0)),
        DirectiveView::Cset(Operand::Reg(Register::X0), condition),
        DirectiveView::Lsl(Operand::Reg(Register::X0), Operand::Imm(BOOL_SHIFT)),
        DirectiveView::Orr(Operand::Reg(Register::X0), Operand::Imm(BOOL_TAG)),
    ]
}

/// The instructions that apply the primitive `p` to the operand in `X0`.
pub open spec fn unary_code(p: UnPrim) -> Seq<DirectiveView> {
    let x0 = Operand::Reg(Register::X0);
    match p {
        UnPrim::Add1 => seq![DirectiveView::Add(x0, Operand::Imm(tagged_num(1)))],
        UnPrim::Sub1 => seq![DirectiveView::Sub(x0, Operand::Imm(tagged_num(1)))],
        UnPrim::Not => seq![DirectiveView::Cmp(x0, Operand::Imm(tagged_bool(false)))]
            + flag_to_bool("eq"@),
        UnPrim::IsNum => seq![
            DirectiveView::And(x0, Operand::Imm(NUM_MASK)),
            DirectiveView::Cmp(x0, Operand::Imm(NUM_TAG)),
        ] + flag_to_bool("eq"@),
        UnPrim::IsZero => seq![DirectiveView::Cmp(x0, Operand::Imm(tagged_num(0)))]
            + flag_to_bool("eq"@),
    }
}

/// The instructions that apply the primitive `p` to the left operand, saved
/// in the stack slot at `index`, and the right operand, in `X0`.
pub open spec fn binary_code(index: i64, p: BinPrim) -> Seq<DirectiveView> {
    let x0 = Operand::Reg(Register::X0);
    let x1 = Operand::Reg(Register::X1);
    match p {
        BinPrim::Plus => seq![
            DirectiveView::Ldr(x1, slot_operand(index)),
            DirectiveView::Add(x0, x1),
        ],
        BinPrim::Minus => seq![
            DirectiveView::Mov(x1, x0),
            DirectiveView::Ldr(x0, slot_operand(index)),
            DirectiveView::Sub(x0, x1),
        ],
        BinPrim::Eq => seq![
            DirectiveView::Ldr(x1, slot_operand(index)),
            DirectiveView::Cmp(x1, x0),
        ] + flag_to_bool("eq"@),
        BinPrim::Lt => seq![
            DirectiveView::Ldr(x1, slot_operand(index)),
            DirectiveView::Cmp(x1, x0),
        ] + flag_to_bool("lt"@),
    }
}

/// The operand that holds the integer `x` as a tagged immediate.
pub fn operand_of_num(x: i64) -> (operand: Operand)
    ensures
        operand == Operand::Imm(tagged_num(x)),
{
    Operand::Imm((x << NUM_SHIFT) | NUM_TAG)
}

/// The operand that holds the boolean `b` as a tagged immediate.
pub fn operand_of_bool(b: bool) -> (operand: Operand)
    ensures
        operand == Operand::Imm(tagged_bool(b)),
{
    Operand::Imm(((if b {
        1i64
    } else {
        0i64
    }) << BOOL_SHIFT) | BOOL_TAG)
}

/// Appends one directive to `out`.
fn push_code(out: &mut Vec<Directive>, d: Directive)
    ensures
        code_view(final(out)@) == code_view(old(out)@).push(d@),
{
    proof {
        lemma_code_view_push(out@, d);
    }
    out.push(d);
}

/// Appends the directives of `more` to `out`.
fn append_code(out: &mut Vec<Directive>, more: Vec<Directive>)
    ensures
        code_view(final(out)@) == code_view(old(out)@) + code_view(more@),
{
    proof {
        lemma_code_view_concat(out@, more@);
    }
    let mut more = more;
    out.append(&mut more);
}

/// Appends to `out` the four instructions that turn the flag `condition`
/// into a tagged boolean.
fn push_flag_to_bool(out: &mut Vec<Directive>, condition: &str)
    ensures
        code_view(final(out)@) == code_view(old(out)@) + flag_to_bool(condition@),
{
    push_code(out, Directive::Mov(Operand::Reg(Register::X0), Operand::Imm(0)));
    push_code(out, Directive::Cset(Operand::Reg(Register::X0), condition.to_owned()));
    push_code(out, Directive::Lsl(Operand::Reg(Register::X0), Operand::Imm(BOOL_SHIFT)));
    push_code(out, Directive::Orr(Operand::Reg(Register::X0), Operand::Imm(BOOL_TAG)));
    assert(code_view(final(out)@) =~= code_view(old(out)@) + flag_to_bool(condition@));
}

/// The instructions that turn the zero flag into a tagged boolean in `X0`.
pub fn zf_to_bool() -> (code: Vec<Directive>)
    ensures
        code_view(code@) == flag_to_bool("eq"@),
{
    let mut code: Vec<Directive> = Vec::new();
    push_flag_to_bool(&mut code, "eq");
    assert(code_view(code@) =~= flag_to_bool("eq"@));
    code
}

/// The instructions that turn the less-than flag into a tagged boolean in
/// `X0`.
pub fn setl_bool() -> (code: Vec<Directive>)
    ensures
        code_view(code@) == flag_to_bool("lt"@),
{
    let mut code: Vec<Directive> = Vec::new();
    push_flag_to_bool(&mut code, "lt");
    assert(code_view(code@) =~= flag_to_bool("lt"@));
    code
}

/// The operand that addresses the stack slot at `index` bytes from the
/// stack pointer.
pub fn stack_address(index: i64) -> (operand: Operand)
    ensures
        operand == slot_operand(index),
{
    Operand::MemOffset(Box::new(Operand::Imm(index)), Box::new(Operand::Reg(Register::Sp)))
}

/// The instructions that apply `expr` to the left operand, saved in the
/// stack slot at `stack_index`, and the right operand, in `X0`.
pub fn compile_binary_primitive(stack_index: i64, expr: BinPrim) -> (code: Vec<Directive>)
    ensures
        code_view(code@) == binary_code(stack_index, expr),
{
    let mut code: Vec<Directive> = Vec::new();
    match expr {
        BinPrim::Plus => {
            push_code(
                &mut code,
                Directive::Ldr(Operand::Reg(Register::X1), stack_address(stack_index)),
            );
            push_code(
                &mut code,
                Directive::Add(Operand::Reg(Register::X0), Operand::Reg(Register::X1)),
            );
        },
        BinPrim::Minus => {
            push_code(
                &mut code,
                Directive::Mov(Operand::Reg(Register::X1), Operand::Reg(Register::X0)),
            );
            push_code(
                &mut code,
                Directive::Ldr(Operand::Reg(Register::X0), stack_address(stack_index)),
            );
            push_code(
                &mut code,
                Directive::Sub(Operand::Reg(Register::X0), Operand::Reg(Register::X1)),
            );
        },
        BinPrim::Eq => {
            push_code(
                &mut code,
                Directive::Ldr(Operand::Reg(Register::X1), stack_address(stack_index)),
            );
            push_code(
                &mut code,
                Directive::Cmp(Operand::Reg(Register::X1), Operand::Reg(Register::X0)),
            );
            append_code(&mut code, zf_to_bool());
        },
        BinPrim::Lt => {
            push_code(
                &mut code,
                Directive::Ldr(Operand::Reg(Register::X1), stack_address(stack_index)),
            );
            push_code(
                &mut code,
                Directive::Cmp(Operand::Reg(Register::X1), Operand::Reg(Register::X0)),
            );
            append_code(&mut code, setl_bool());
        },
    }
    assert(code_view(code@) =~= binary_code(stack_index, expr));
    code
}

/// The instructions that apply `expr` to the operand in `X0`.
pub fn compile_unary_primitive(expr: UnPrim) -> (code: Vec<Directive>)
    ensures
        code_view(code@) == unary_code(expr),
{
    let mut code: Vec<Directive> = Vec::new();
    match expr {
        UnPrim::Add1 => {
            push_code(&mut code, Directive::Add(Operand::Reg(Register::X0), operand_of_num(1)));
        },
        UnPrim::Not => {
            push_code(
                &mut code,
                Directive::Cmp(Operand::Reg(Register::X0), operand_of_bool(false)),
            );
            append_code(&mut code, zf_to_bool());
        },
        UnPrim::Sub1 => {
            push_code(&mut code, Directive::Sub(Operand::Reg(Register::X0), operand_of_num(1)));
        },
        UnPrim::IsNum => {
            push_code(
                &mut code,
                Directive::And(Operand::Reg(Register::X0), Operand::Imm(NUM_MASK)),
            );
            push_code(
                &mut code,
                Directive::Cmp(Operand::Reg(Register::X0), Operand::Imm(NUM_TAG)),
            );
            append_code(&mut code, zf_to_bool());
        },
        UnPrim::IsZero => {
            push_code(&mut code, Directive::Cmp(Operand::Reg(Register::X0), operand_of_num(0)));
            append_code(&mut code, zf_to_bool());
        },
    }
    assert(code_view(code@) =~= unary_code(expr));
    code
}

/// What a successful lowering gives: the instructions, and the count at
/// which the symbol generator stands afterwards.
#[verifier::ext_equal]
pub struct Emitted {
    pub code: Seq<DirectiveView>,
    pub next: u64,
}

/// What a failed lowering gives: the error, and the count at which the
/// symbol generator stood when the error was met.
pub struct Failed {
    pub error: CompileErrorView,
    pub next: u64,
}

/// The outcome of lowering an expression.
pub type Lowering = Result<Emitted, Failed>;

/// What lowering the bindings of a `let` gives: the instructions, the
/// environment that the body sees, and the count of the symbol generator.
#[verifier::ext_equal]
pub struct Scope {
    pub code: Seq<DirectiveView>,
    pub env: Map<Seq<char>, i64>,
    pub next: u64,
}

/// The outcome `r` with the instructions `head` in front of its own.
pub open spec fn preceded_by(head: Seq<DirectiveView>, r: Lowering) -> Lowering {
    match r {
        Ok(x) => Ok(Emitted { code: head + x.code, next: x.next }),
        Err(f) => Err(f),
    }
}

/// The outcome `r` with the instructions `tail` behind its own.
pub open spec fn followed_by(r: Lowering, tail: Seq<DirectiveView>) -> Lowering {
    match r {
        Ok(x) => Ok(Emitted { code: x.code + tail, next: x.next }),
        Err(f) => Err(f),
    }
}

/// The outcome `r` of lowering bindings with the instructions `head` in
/// front of its own.
pub open spec fn scope_preceded_by(head: Seq<DirectiveView>, r: Result<Scope, Failed>) -> Result<
    Scope,
    Failed,
> {
    match r {
        Ok(s) => Ok(Scope { code: head + s.code, env: s.env, next: s.next }),
        Err(f) => Err(f),
    }
}

/// The outcome that an executable lowering reports: its result, and the
/// count at which it left the symbol generator.
pub open spec fn outcome(result: Result<Vec<Directive>, CompileError>, next: u64) -> Lowering {
    match result {
        Ok(code) => Ok(Emitted { code: code_view(code@), next }),
        Err(e) => Err(Failed { error: e@, next }),
    }
}

/// The instructions that open a function: its label, the push of the link
/// register and the frame pointer, and the new frame pointer.
pub open spec fn prologue(name: Seq<char>) -> Seq<DirectiveView> {
    seq![
        DirectiveView::Label(name),
        DirectiveView::Sub(Operand::Reg(Register::Sp), Operand::Imm(16)),
        DirectiveView::Str(Operand::RegOffset(Register::Sp, 8), Operand::Reg(Register::Lr)),
        DirectiveView::Str(Operand::RegOffset(Register::Sp, 0), Operand::Reg(Register::Fp)),
        DirectiveView::Mov(Operand::Reg(Register::Fp), Operand::Reg(Register::Sp)),
    ]
}

/// The instructions that close a function: the pop of the frame pointer and
/// the link register, and the return.
pub open spec fn epilogue() -> Seq<DirectiveView> {
    seq![
        DirectiveView::Ldr(Operand::Reg(Register::Fp), Operand::RegOffset(Register::Sp, 0)),
        DirectiveView::Ldr(Operand::Reg(Register::Lr), Operand::RegOffset(Register::Sp, 8)),
        DirectiveView::Add(Operand::Reg(Register::Sp), Operand::Imm(16)),
        DirectiveView::Ret,
    ]
}

/// The frame offset of the slot that holds parameter `i`: above the saved
/// pair, one word for each parameter.
pub open spec fn parameter_offset(i: int) -> i64 {
    (16 + 8 * i) as i64
}

/// The store of parameter `i` from its argument register into its slot.
pub open spec fn parameter_store(i: int) -> DirectiveView {
    DirectiveView::Str(
        Operand::RegOffset(Register::Fp, parameter_offset(i)),
        Operand::Reg(register_sum(i as i32)),
    )
}

/// The stores of the first `n` parameters into their slots.
pub open spec fn parameter_stores(n: nat) -> Seq<DirectiveView> {
    Seq::new(n, |i: int| parameter_store(i))
}

/// The environment that binds the first `n` of `params`, each to its slot.
pub open spec fn parameter_env(params: Seq<Seq<char>>, n: nat) -> Map<Seq<char>, i64>
    decreases n,
{
    if n == 0 {
        Map::empty()
    } else {
        parameter_env(params, (n - 1) as nat).insert(params[n - 1], parameter_offset(n - 1))
    }
}

/// The offset from the stack pointer at which argument `i` of a call is
/// spilled.
pub open spec fn spill_offset(i: int) -> i64 {
    (-(8 + 8 * i)) as i64
}

/// The spill of argument `i` of a call.
pub open spec fn argument_spill(i: int) -> DirectiveView {
    DirectiveView::Str(
        Operand::RegOffset(Register::Sp, spill_offset(i)),
        Operand::Reg(Register::X0),
    )
}

/// The load of argument register `i` of a call: from the slot into which
/// argument `i` was spilled.
pub open spec fn argument_load(i: int) -> DirectiveView {
    DirectiveView::Ldr(
        Operand::Reg(register_sum(i as i32)),
        Operand::RegOffset(Register::Sp, spill_offset(i)),
    )
}

/// The loads of the argument registers of a call with `n` arguments, the
/// first register first: each from the slot of its own argument.
pub open spec fn argument_loads(n: nat) -> Seq<DirectiveView> {
    Seq::new(n, |i: int| argument_load(i))
}

/// The instructions that make the call of `f` with `n` arguments, once the
/// argument registers are loaded: the stack pointer steps over the spilled
/// arguments and back.
pub open spec fn call_code(f: Seq<char>, n: nat) -> Seq<DirectiveView> {
    seq![
        DirectiveView::Sub(Operand::Reg(Register::Sp), Operand::Imm((16 + 8 * n) as i64)),
        DirectiveView::Bl(f),
        DirectiveView::Add(Operand::Reg(Register::Sp), Operand::Imm((16 + 8 * n) as i64)),
    ]
}

/// The lowering of `e`: the instructions that leave the value of `e` in
/// `X0`, in the environment `env`, with the stack slots at `index` and below
/// free, and with the symbol generator at `count`.
///
/// Lowering fails where an identifier is not bound in `env`, where a call or
/// a function has more than eight arguments, and where a part of `e` would
/// be lowered at a slot that does not fit in 64 bits. The first failure met,
/// in the order in which the parts are lowered, is the outcome.
pub open spec fn lower(env: Map<Seq<char>, i64>, index: int, e: ExprView, count: u64) -> Lowering
    decreases e, 0nat,
{
    let x0 = Operand::Reg(Register::X0);
    if !(i64::MIN <= index <= i64::MAX) {
        Err(Failed { error: CompileErrorView::StackSlotOutOfRange, next: count })
    } else {
        match e {
            ExprView::Nil => Ok(
                Emitted { code: seq![DirectiveView::Mov(x0, Operand::Imm(NIL_TAG))], next: count },
            ),
            ExprView::Num(x) => Ok(
                Emitted {
                    code: seq![DirectiveView::Mov(x0, Operand::Imm(tagged_num(x)))],
                    next: count,
                },
            ),
            ExprView::True => Ok(
                Emitted {
                    code: seq![DirectiveView::Mov(x0, Operand::Imm(tagged_bool(true)))],
                    next: count,
                },
            ),
            ExprView::False => Ok(
                Emitted {
                    code: seq![DirectiveView::Mov(x0, Operand::Imm(tagged_bool(false)))],
                    next: count,
                },
            ),
            ExprView::Id(name) => if env.contains_key(name) {
                Ok(Emitted { code: seq![DirectiveView::Ldr(x0, slot_operand(env[name]))], next: count })
            } else {
                Err(Failed { error: CompileErrorView::UnresolvedIdentifier(name), next: count })
            },
            ExprView::UnPrim(p, a) => followed_by(lower(env, index, *a, count), unary_code(p)),
            ExprView::BinPrim(p, a, b) => match lower(env, index, *a, count) {
                Err(f) => Err(f),
                Ok(x) => preceded_by(
                    x.code.push(DirectiveView::Str(slot_operand(index as i64), x0)),
                    followed_by(lower(env, index - 8, *b, x.next), binary_code(index as i64, p)),
                ),
            },
            ExprView::If(t, a, b) => {
                let then_label = label_text("then"@, count);
                let else_label = label_text("else"@, advance(count, 1));
                let continue_label = label_text("continue"@, advance(count, 2));
                match lower(env, index, *t, advance(count, 3)) {
                    Err(f) => Err(f),
                    Ok(x) => match lower(env, index, *a, x.next) {
                        Err(f) => Err(f),
                        Ok(y) => preceded_by(
                            x.code + seq![
                                DirectiveView::Cmp(x0, Operand::Imm(tagged_bool(false))),
                                DirectiveView::Beq(else_label),
                                DirectiveView::Label(then_label),
                            ] + y.code + seq![
                                DirectiveView::B(continue_label),
                                DirectiveView::Label(else_label),
                            ],
                            followed_by(
                                lower(env, index, *b, y.next),
                                seq![DirectiveView::Label(continue_label)],
                            ),
                        ),
                    },
                }
            },
            ExprView::Let(bindings, body) => match lower_bindings(env, index, bindings, count, 0) {
                Err(f) => Err(f),
                Ok(scope) => preceded_by(
                    scope.code,
                    lower(scope.env, index - 8 * bindings.len(), *body, scope.next),
                ),
            },
            ExprView::Do(es) => lower_sequence(env, index, es, count, 0),
            ExprView::Define(name, params, body) => if params.len() > ARGUMENT_REGISTERS {
                Err(Failed { error: CompileErrorView::ArgumentCountOverflow, next: count })
            } else {
                preceded_by(
                    prologue(name) + parameter_stores(params.len()),
                    followed_by(
                        lower(parameter_env(params, params.len()), -16, *body, count),
                        epilogue(),
                    ),
                )
            },
            ExprView::Call(f, args) => if args.len() > ARGUMENT_REGISTERS {
                Err(Failed { error: CompileErrorView::ArgumentCountOverflow, next: count })
            } else {
                followed_by(
                    lower_arguments(env, index, args, count, args.len()),
                    argument_loads(args.len()) + call_code(f, args.len()),
                )
            },
        }
    }
}

/// The lowering of the bindings of a `let` from binding `i` on: each
/// initializer is lowered one slot below the one before it, in the
/// environment that holds the bindings before it, and its value is stored
/// in its slot.
pub open spec fn lower_bindings(
    env: Map<Seq<char>, i64>,
    index: int,
    bindings: Seq<(Seq<char>, ExprView)>,
    count: u64,
    i: nat,
) -> Result<Scope, Failed>
    decreases bindings, bindings.len() - i,
{
    if i >= bindings.len() {
        Ok(Scope { code: Seq::empty(), env, next: count })
    } else {
        let slot = index - 8 * i;
        match lower(env, slot, bindings[i as int].1, count) {
            Err(f) => Err(f),
            Ok(x) => scope_preceded_by(
                x.code.push(
                    DirectiveView::Str(slot_operand(slot as i64), Operand::Reg(Register::X0)),
                ),
                lower_bindings(
                    env.insert(bindings[i as int].0, slot as i64),
                    index,
                    bindings,
                    x.next,
                    i + 1,
                ),
            ),
        }
    }
}

/// The lowering of the expressions of a `do` from expression `i` on, each
/// at the same slot.
pub open spec fn lower_sequence(
    env: Map<Seq<char>, i64>,
    index: int,
    es: Seq<ExprView>,
    count: u64,
    i: nat,
) -> Lowering
    decreases es, es.len() - i,
{
    if i >= es.len() {
        Ok(Emitted { code: Seq::empty(), next: count })
    } else {
        match lower(env, index, es[i as int], count) {
            Err(f) => Err(f),
            Ok(x) => preceded_by(x.code, lower_sequence(env, index, es, x.next, i + 1)),
        }
    }
}

/// The lowering of the first `m` arguments of a call, the last of them
/// first: argument `i` is lowered `i` slots below `index` and spilled below
/// the stack pointer.
pub open spec fn lower_arguments(
    env: Map<Seq<char>, i64>,
    index: int,
    args: Seq<ExprView>,
    count: u64,
    m: nat,
) -> Lowering
    decreases args, m,
{
    if m == 0 || m > args.len() {
        Ok(Emitted { code: Seq::empty(), next: count })
    } else {
        let i = m - 1;
        match lower(env, index - 8 * i, args[i], count) {
            Err(f) => Err(f),
            Ok(x) => preceded_by(
                x.code.push(argument_spill(i)),
                lower_arguments(env, index, args, x.next, i as nat),
            ),
        }
    }
}

/// The outcome of compiling the program `e`: the entry point's header, the
/// lowering of `e` in the empty environment at the first slot, and the
/// return.
pub open spec fn program(e: ExprView, count: u64) -> Lowering {
    preceded_by(
        seq![
            DirectiveView::Global("lisp_entry"@),
            DirectiveView::Extern("lisp_error"@),
            DirectiveView::Label("lisp_entry"@),
        ],
        followed_by(lower(Map::empty(), -8, e, count), seq![DirectiveView::Ret]),
    )
}

/// Instructions put in front of an outcome one after the other are put in
/// front of it together.
pub proof fn lemma_preceded_twice(a: Seq<DirectiveView>, b: Seq<DirectiveView>, r: Lowering)
    ensures
        preceded_by(a, preceded_by(b, r)) == preceded_by(a + b, r),
{
    match r {
        Ok(x) => {
            assert(a + (b + x.code) =~= (a + b) + x.code);
        },
        Err(f) => {},
    }
}

/// Instructions put in front of the outcome of bindings one after the other
/// are put in front of it together.
pub proof fn lemma_scope_preceded_twice(
    a: Seq<DirectiveView>,
    b: Seq<DirectiveView>,
    r: Result<Scope, Failed>,
)
    ensures
        scope_preceded_by(a, scope_preceded_by(b, r)) == scope_preceded_by(a + b, r),
{
    match r {
        Ok(x) => {
            assert(a + (b + x.code) =~= (a + b) + x.code);
        },
        Err(f) => {},
    }
}

/// Nothing can be lowered at a slot that does not fit in 64 bits.
pub proof fn lemma_lower_out_of_range(
    env: Map<Seq<char>, i64>,
    index: int,
    e: ExprView,
    count: u64,
)
    requires
        !(i64::MIN <= index <= i64::MAX),
    ensures
        lower(env, index, e, count) == Err::<Emitted, Failed>(
            Failed { error: CompileErrorView::StackSlotOutOfRange, next: count },
        ),
{
}

/// Lowers a conditional: the test, a branch to the else-label where it is
/// false, the then-branch, a jump over the else-branch, and the else-branch.
#[verifier::loop_isolation(false)]
fn compile_if(
    symtab: &Env,
    stack_index: i64,
    expr: &Expr,
    generator: &mut SymbolGenerator,
) -> (result: Result<Vec<Directive>, CompileError>)
    requires
        expr is If,
    ensures
        outcome(result, final(generator)@) == lower(
            symtab@,
            stack_index as int,
            expr@,
            old(generator)@,
        ),
    decreases expr, 0nat,
{
    let ghost env = symtab@;
    let ghost k = stack_index as int;
    let ghost start: u64 = generator@;
    let mut out: Vec<Directive> = Vec::new();
    assert(code_view(out@) =~= Seq::empty());
    match expr {
        Expr::If(test_expr, then_expr, else_expr) => {
            let then_label = gensym(generator, "then");
            let else_label = gensym(generator, "else");
            let continue_label = gensym(generator, "continue");
            proof {
                lemma_advance_twice(start, 1, 1);
                lemma_advance_twice(start, 2, 1);
            }
            let test_code = match compile_expr(symtab, stack_index, &**test_expr, generator) {
                Ok(code) => code,
                Err(e) => {
                    return Err(e);
                },
            };
            append_code(&mut out, test_code);
            push_code(
                &mut out,
                Directive::Cmp(Operand::Reg(Register::X0), operand_of_bool(false)),
            );
            push_code(&mut out, Directive::Beq(else_label.clone()));
            push_code(&mut out, Directive::Label(then_label));
            let then_code = match compile_expr(symtab, stack_index, &**then_expr, generator) {
                Ok(code) => code,
                Err(e) => {
                    return Err(e);
                },
            };
            append_code(&mut out, then_code);
            push_code(&mut out, Directive::B(continue_label.clone()));
            push_code(&mut out, Directive::Label(else_label));
            let else_code = match compile_expr(symtab, stack_index, &**else_expr, generator) {
                Ok(code) => code,
                Err(e) => {
                    return Err(e);
                },
            };
            append_code(&mut out, else_code);
            push_code(&mut out, Directive::Label(continue_label));
            assert(code_view(out@) =~= lower(env, k, expr@, start)->Ok_0.code);
            Ok(out)
        },
        _ => unreached(),
    }
}

/// Lowers a `let`: each initializer into a slot of its own, then the body
/// below all of them.
#[verifier::loop_isolation(false)]
fn compile_let(
    symtab: &Env,
    stack_index: i64,
    expr: &Expr,
    generator: &mut SymbolGenerator,
) -> (result: Result<Vec<Directive>, CompileError>)
    requires
        expr is Let,
    ensures
        outcome(result, final(generator)@) == lower(
            symtab@,
            stack_index as int,
            expr@,
            old(generator)@,
        ),
    decreases expr, 0nat,
{
    let ghost env = symtab@;
    let ghost k = stack_index as int;
    let ghost start: u64 = generator@;
    let mut out: Vec<Directive> = Vec::new();
    assert(code_view(out@) =~= Seq::empty());
    match expr {
        Expr::Let(bindings, body) => {
            let ghost bsv = expr@->Let_0;
            let mut scope = symtab.clone();
            let mut slot: i64 = stack_index;
            let mut i: usize = 0;
            while i < bindings.len()
                invariant
                    i <= bindings.len(),
                    slot == stack_index - 8 * i,
                    lower_bindings(env, k, bsv, start, 0) == scope_preceded_by(
                        code_view(out@),
                        lower_bindings(scope@, k, bsv, generator@, i as nat),
                    ),
                decreases bindings.len() - i,
            {
                let binding = &bindings[i];
                let ghost before = code_view(out@);
                let ghost at: u64 = generator@;
                let ghost seen = scope@;
                let code = match compile_expr(&scope, slot, &*binding.1, generator) {
                    Ok(code) => code,
                    Err(e) => {
                        return Err(e);
                    },
                };
                append_code(&mut out, code);
                push_code(
                    &mut out,
                    Directive::Str(stack_address(slot), Operand::Reg(Register::X0)),
                );
                scope = scope.bind(binding.0.clone(), slot);
                proof {
                    let store = DirectiveView::Str(
                        slot_operand(slot),
                        Operand::Reg(Register::X0),
                    );
                    let rest = lower_bindings(scope@, k, bsv, generator@, (i + 1) as nat);
                    assert(lower_bindings(seen, k, bsv, at, i as nat) == scope_preceded_by(
                        code_view(code@).push(store),
                        rest,
                    ));
                    lemma_scope_preceded_twice(before, code_view(code@).push(store), rest);
                    assert(code_view(out@) =~= before + code_view(code@).push(store));
                }
                if slot < i64::MIN + 8 {
                    proof {
                        if i + 1 < bindings.len() {
                            lemma_lower_out_of_range(
                                scope@,
                                k - 8 * (i + 1),
                                bsv[i + 1].1,
                                generator@,
                            );
                        } else {
                            lemma_lower_out_of_range(
                                scope@,
                                k - 8 * bsv.len(),
                                *expr@->Let_1,
                                generator@,
                            );
                        }
                    }
                    return Err(CompileError::StackSlotOutOfRange);
                }
                slot = slot - 8;
                i += 1;
            }
            let body_code = match compile_expr(&scope, slot, &**body, generator) {
                Ok(code) => code,
                Err(e) => {
                    return Err(e);
                },
            };
            append_code(&mut out, body_code);
            assert(code_view(out@) =~= lower(env, k, expr@, start)->Ok_0.code);
            Ok(out)
        },
        _ => unreached(),
    }
}

/// Lowers a `do`: its expressions in order, at one slot.
#[verifier::loop_isolation(false)]
fn compile_do(
    symtab: &Env,
    stack_index: i64,
    expr: &Expr,
    generator: &mut SymbolGenerator,
) -> (result: Result<Vec<Directive>, CompileError>)
    requires
        expr is Do,
    ensures
        outcome(result, final(generator)@) == lower(
            symtab@,
            stack_index as int,
            expr@,
            old(generator)@,
        ),
    decreases expr, 0nat,
{
    let ghost env = symtab@;
    let ghost k = stack_index as int;
    let ghost start: u64 = generator@;
    let mut out: Vec<Directive> = Vec::new();
    assert(code_view(out@) =~= Seq::empty());
    match expr {
        Expr::Do(exps) => {
            let ghost esv = expr@->Do_0;
            let mut i: usize = 0;
            while i < exps.len()
                invariant
                    i <= exps.len(),
                    lower_sequence(env, k, esv, start, 0) == preceded_by(
                        code_view(out@),
                        lower_sequence(env, k, esv, generator@, i as nat),
                    ),
                decreases exps.len() - i,
            {
                let ghost before = code_view(out@);
                let code = match compile_expr(symtab, stack_index, &exps[i], generator) {
                    Ok(code) => code,
                    Err(e) => {
                        return Err(e);
                    },
                };
                append_code(&mut out, code);
                proof {
                    lemma_preceded_twice(
                        before,
                        code_view(code@),
                        lower_sequence(env, k, esv, generator@, (i + 1) as nat),
                    );
                }
                i += 1;
            }
            assert(code_view(out@) =~= lower(env, k, expr@, start)->Ok_0.code);
            Ok(out)
        },
        _ => unreached(),
    }
}

/// Lowers a function definition: prologue, the parameters stored from
/// their registers, the body in a frame of its own, epilogue.
#[verifier::loop_isolation(false)]
fn compile_define(
    symtab: &Env,
    stack_index: i64,
    expr: &Expr,
    generator: &mut SymbolGenerator,
) -> (result: Result<Vec<Directive>, CompileError>)
    requires
        expr is Define,
    ensures
        outcome(result, final(generator)@) == lower(
            symtab@,
            stack_index as int,
            expr@,
            old(generator)@,
        ),
    decreases expr, 0nat,
{
    let ghost env = symtab@;
    let ghost k = stack_index as int;
    let ghost start: u64 = generator@;
    let mut out: Vec<Directive> = Vec::new();
    assert(code_view(out@) =~= Seq::empty());
    match expr {
        Expr::Define(name, args, body) => {
            let ghost params = expr@->Define_1;
            if args.len() > ARGUMENT_REGISTERS {
                return Err(CompileError::ArgumentCountOverflow);
            }
            push_code(&mut out, Directive::Label(name.clone()));
            push_code(&mut out, Directive::Sub(Operand::Reg(Register::Sp), Operand::Imm(16)));
            push_code(
                &mut out,
                Directive::Str(Operand::RegOffset(Register::Sp, 8), Operand::Reg(Register::Lr)),
            );
            push_code(
                &mut out,
                Directive::Str(Operand::RegOffset(Register::Sp, 0), Operand::Reg(Register::Fp)),
            );
            push_code(
                &mut out,
                Directive::Mov(Operand::Reg(Register::Fp), Operand::Reg(Register::Sp)),
            );
            let mut frame = Env::new();
            let mut i: usize = 0;
            while i < args.len()
                invariant
                    i <= args.len() <= ARGUMENT_REGISTERS,
                    code_view(out@) == prologue(name@) + parameter_stores(i as nat),
                    frame@ == parameter_env(params, i as nat),
                decreases args.len() - i,
            {
                let offset: i64 = 16 + 8 * (i as i64);
                push_code(
                    &mut out,
                    Directive::Str(
                        Operand::RegOffset(Register::Fp, offset),
                        Operand::Reg(Register::X0 + (i as i32)),
                    ),
                );
                frame = frame.bind(args[i].clone(), offset);
                assert(code_view(out@) =~= prologue(name@) + parameter_stores((i + 1) as nat));
                i += 1;
            }
            let body_code = match compile_expr(&frame, -16, &**body, generator) {
                Ok(code) => code,
                Err(e) => {
                    return Err(e);
                },
            };
            append_code(&mut out, body_code);
            push_code(
                &mut out,
                Directive::Ldr(Operand::Reg(Register::Fp), Operand::RegOffset(Register::Sp, 0)),
            );
            push_code(
                &mut out,
                Directive::Ldr(Operand::Reg(Register::Lr), Operand::RegOffset(Register::Sp, 8)),
            );
            push_code(&mut out, Directive::Add(Operand::Reg(Register::Sp), Operand::Imm(16)));
            push_code(&mut out, Directive::Ret);
            assert(code_view(out@) =~= lower(env, k, expr@, start)->Ok_0.code);
            Ok(out)
        },
        _ => unreached(),
    }
}

/// Lowers a call: the arguments spilled, the last first, then loaded into
/// the argument registers, then the branch.
#[verifier::loop_isolation(false)]
fn compile_call(
    symtab: &Env,
    stack_index: i64,
    expr: &Expr,
    generator: &mut SymbolGenerator,
) -> (result: Result<Vec<Directive>, CompileError>)
    requires
        expr is Call,
    ensures
        outcome(result, final(generator)@) == lower(
            symtab@,
            stack_index as int,
            expr@,
            old(generator)@,
        ),
    decreases expr, 0nat,
{
    let ghost env = symtab@;
    let ghost k = stack_index as int;
    let ghost start: u64 = generator@;
    let mut out: Vec<Directive> = Vec::new();
    assert(code_view(out@) =~= Seq::empty());
    match expr {
        Expr::Call(f, args) => {
            let ghost argsv = expr@->Call_1;
            let len: usize = args.len();
            if len > ARGUMENT_REGISTERS {
                return Err(CompileError::ArgumentCountOverflow);
            }
            let mut m: usize = len;
            while m > 0
                invariant
                    m <= len,
                    lower_arguments(env, k, argsv, start, len as nat) == preceded_by(
                        code_view(out@),
                        lower_arguments(env, k, argsv, generator@, m as nat),
                    ),
                decreases m,
            {
                let i: usize = m - 1;
                let depth: i64 = 8 * (i as i64);
                let ghost before = code_view(out@);
                if stack_index < i64::MIN + depth {
                    proof {
                        lemma_lower_out_of_range(env, k - 8 * i, argsv[i as int], generator@);
                    }
                    return Err(CompileError::StackSlotOutOfRange);
                }
                let code = match compile_expr(symtab, stack_index - depth, &args[i], generator) {
                    Ok(code) => code,
                    Err(e) => {
                        return Err(e);
                    },
                };
                append_code(&mut out, code);
                push_code(
                    &mut out,
                    Directive::Str(
                        Operand::RegOffset(Register::Sp, -(8 + depth)),
                        Operand::Reg(Register::X0),
                    ),
                );
                proof {
                    lemma_preceded_twice(
                        before,
                        code_view(code@).push(argument_spill(i as int)),
                        lower_arguments(env, k, argsv, generator@, i as nat),
                    );
                    assert(code_view(out@) =~= before + code_view(code@).push(
                        argument_spill(i as int),
                    ));
                }
                m = i;
            }
            let ghost spilled = code_view(out@);
            let mut i: usize = 0;
            while i < len
                invariant
                    i <= len <= ARGUMENT_REGISTERS,
                    code_view(out@) == spilled + argument_loads(len as nat).take(i as int),
                decreases len - i,
            {
                let from: i64 = -(8 + 8 * (i as i64));
                push_code(
                    &mut out,
                    Directive::Ldr(
                        Operand::Reg(Register::X0 + (i as i32)),
                        Operand::RegOffset(Register::Sp, from),
                    ),
                );
                assert(code_view(out@) =~= spilled + argument_loads(len as nat).take(i + 1));
                i += 1;
            }
            assert(argument_loads(len as nat).take(len as int) =~= argument_loads(len as nat));
            let region: i64 = 16 + 8 * (len as i64);
            push_code(&mut out, Directive::Sub(Operand::Reg(Register::Sp), Operand::Imm(region)));
            push_code(&mut out, Directive::Bl(f.clone()));
            push_code(&mut out, Directive::Add(Operand::Reg(Register::Sp), Operand::Imm(region)));
            assert(code_view(out@) =~= lower(env, k, expr@, start)->Ok_0.code);
            Ok(out)
        },
        _ => unreached(),
    }
}

/// Lowers `expr` to the instructions that leave its value in `X0`.
///
/// `symtab` maps the identifiers in scope to their stack slots; the slots at
/// `stack_index` and below are free; `generator` gives the labels and is
/// left at the count that follows the last label given.
///
/// Every kind of expression has its rule, so nothing is lowered to no code
/// in silence. Lowering fails, at the first part that cannot be lowered,
///
/// - with `UnresolvedIdentifier` where an identifier is bound neither in
///   `symtab` nor by a `let` or a function round it;
/// - with `ArgumentCountOverflow` where a call passes, or a function takes,
///   more than eight arguments: arguments travel in the eight argument
///   registers and nowhere else, so a ninth is refused, not dropped;
/// - with `StackSlotOutOfRange` where a temporary or a binding would need a
///   slot below the least 64-bit offset.
pub fn compile_expr(
    symtab: &Env,
    stack_index: i64,
    expr: &Expr,
    generator: &mut SymbolGenerator,
) -> (result: Result<Vec<Directive>, CompileError>)
    ensures
        outcome(result, final(generator)@) == lower(
            symtab@,
            stack_index as int,
            expr@,
            old(generator)@,
        ),
    decreases expr, 1nat,
{
    let ghost env = symtab@;
    let ghost k = stack_index as int;
    let ghost start: u64 = generator@;
    let mut out: Vec<Directive> = Vec::new();
    assert(code_view(out@) =~= Seq::empty());
    match expr {
        Expr::Nil => {
            push_code(&mut out, Directive::Mov(Operand::Reg(Register::X0), Operand::Imm(NIL_TAG)));
            assert(code_view(out@) =~= lower(env, k, expr@, start)->Ok_0.code);
            Ok(out)
        },
        Expr::Num(x) => {
            push_code(&mut out, Directive::Mov(Operand::Reg(Register::X0), operand_of_num(*x)));
            assert(code_view(out@) =~= lower(env, k, expr@, start)->Ok_0.code);
            Ok(out)
        },
        Expr::True => {
            push_code(&mut out, Directive::Mov(Operand::Reg(Register::X0), operand_of_bool(true)));
            assert(code_view(out@) =~= lower(env, k, expr@, start)->Ok_0.code);
            Ok(out)
        },
        Expr::False => {
            push_code(
                &mut out,
                Directive::Mov(Operand::Reg(Register::X0), operand_of_bool(false)),
            );
            assert(code_view(out@) =~= lower(env, k, expr@, start)->Ok_0.code);
            Ok(out)
        },
        Expr::UnPrim(p1, operand) => {
            let code = match compile_expr(symtab, stack_index, &**operand, generator) {
                Ok(code) => code,
                Err(e) => {
                    return Err(e);
                },
            };
            append_code(&mut out, code);
            append_code(&mut out, compile_unary_primitive(*p1));
            assert(code_view(out@) =~= lower(env, k, expr@, start)->Ok_0.code);
            Ok(out)
        },
        Expr::BinPrim(f, arg1, arg2) => {
            let left = match compile_expr(symtab, stack_index, &**arg1, generator) {
                Ok(code) => code,
                Err(e) => {
                    return Err(e);
                },
            };
            append_code(&mut out, left);
            push_code(
                &mut out,
                Directive::Str(stack_address(stack_index), Operand::Reg(Register::X0)),
            );
            if stack_index < i64::MIN + 8 {
                proof {
                    lemma_lower_out_of_range(env, k - 8, *expr@->BinPrim_2, generator@);
                }
                return Err(CompileError::StackSlotOutOfRange);
            }
            let right = match compile_expr(symtab, stack_index - 8, &**arg2, generator) {
                Ok(code) => code,
                Err(e) => {
                    return Err(e);
                },
            };
            append_code(&mut out, right);
            append_code(&mut out, compile_binary_primitive(stack_index, *f));
            assert(code_view(out@) =~= lower(env, k, expr@, start)->Ok_0.code);
            Ok(out)
        },
        Expr::If(..) => compile_if(symtab, stack_index, expr, generator),
        Expr::Id(s) => {
            match symtab.lookup(s) {
                Some(offset) => {
                    push_code(
                        &mut out,
                        Directive::Ldr(Operand::Reg(Register::X0), stack_address(offset)),
                    );
                    assert(code_view(out@) =~= lower(env, k, expr@, start)->Ok_0.code);
                    Ok(out)
                },
                None => Err(CompileError::UnresolvedIdentifier(s.clone())),
            }
        },
        Expr::Let(..) => compile_let(symtab, stack_index, expr, generator),
        Expr::Do(..) => compile_do(symtab, stack_index, expr, generator),
        Expr::Define(..) => compile_define(symtab, stack_index, expr, generator),
        Expr::Call(..) => compile_call(symtab, stack_index, expr, generator),
    }
}

/// Compiles the program `expr`: the entry point `lisp_entry`, whose body is
/// the lowering of `expr`, followed by a return.
pub fn compile(expr: Expr, generator: &mut SymbolGenerator) -> (result: Result<
    Vec<Directive>,
    CompileError,
>)
    ensures
        outcome(result, final(generator)@) == program(expr@, old(generator)@),
{
    let mut out: Vec<Directive> = Vec::new();
    assert(code_view(out@) =~= Seq::empty());
    push_code(&mut out, Directive::Global("lisp_entry".to_owned()));
    push_code(&mut out, Directive::Extern("lisp_error".to_owned()));
    push_code(&mut out, Directive::Label("lisp_entry".to_owned()));
    let body = match compile_expr(&Env::new(), -8, &expr, generator) {
        Ok(code) => code,
        Err(e) => {
            return Err(e);
        },
    };
    append_code(&mut out, body);
    push_code(&mut out, Directive::Ret);
    assert(code_view(out@) =~= program(expr@, old(generator)@)->Ok_0.code);
    Ok(out)
}

} // verus!
