use lispc::assembly::{Directive, Operand, Register};
use lispc::ast::{BinPrim, Expr, UnPrim};
use lispc::compile::{
    compile, compile_binary_primitive, compile_expr, compile_unary_primitive, operand_of_bool,
    operand_of_num, setl_bool, stack_address, zf_to_bool, CompileError, BOOL_MASK, BOOL_SHIFT,
    BOOL_TAG, NIL_TAG, NUM_MASK, NUM_SHIFT, NUM_TAG,
};
use lispc::env::Env;
use lispc::utils::SymbolGenerator;

fn x0() -> Operand {
    Operand::Reg(Register::X0)
}

fn x1() -> Operand {
    Operand::Reg(Register::X1)
}

fn num(n: i64) -> Box<Expr> {
    Box::new(Expr::Num(n))
}

fn id(name: &str) -> Box<Expr> {
    Box::new(Expr::Id(name.to_string()))
}

fn lower(e: &Expr) -> Vec<Directive> {
    let mut generator = SymbolGenerator::new();
    compile_expr(&Env::new(), -8, e, &mut generator).unwrap()
}

fn flag_to_bool(condition: &str) -> Vec<Directive> {
    vec![
        Directive::Mov(x0(), Operand::Imm(0)),
        Directive::Cset(x0(), condition.to_string()),
        Directive::Lsl(x0(), Operand::Imm(7)),
        Directive::Orr(x0(), Operand::Imm(31)),
    ]
}

#[test]
fn tag_constants_have_their_values() {
    assert_eq!((NUM_SHIFT, NUM_MASK, NUM_TAG), (2, 0b11, 0b00));
    assert_eq!((BOOL_SHIFT, BOOL_MASK, BOOL_TAG), (7, 0b1111111, 0b0011111));
    assert_eq!(NIL_TAG, 0b11111111);
}

#[test]
fn integers_are_tagged_by_a_shift_of_two() {
    assert_eq!(operand_of_num(0), Operand::Imm(0));
    assert_eq!(operand_of_num(3), Operand::Imm(12));
    assert_eq!(operand_of_num(-1), Operand::Imm(-4));
    for n in [0i64, 1, -1, 42, -42, (1 << 61) - 1, -(1 << 61)] {
        match operand_of_num(n) {
            Operand::Imm(word) => {
                assert_eq!(word >> NUM_SHIFT, n);
                assert_eq!(word & NUM_MASK, NUM_TAG);
            }
            other => panic!("not an immediate: {:?}", other),
        }
    }
}

#[test]
fn an_integer_of_more_than_62_bits_loses_its_high_bits() {
    assert_eq!(operand_of_num(1 << 62), Operand::Imm(0));
    assert_eq!(operand_of_num(i64::MAX), Operand::Imm(-4));
}

#[test]
fn booleans_are_tagged_by_a_shift_of_seven() {
    assert_eq!(operand_of_bool(true), Operand::Imm(159));
    assert_eq!(operand_of_bool(false), Operand::Imm(31));
    for b in [true, false] {
        match operand_of_bool(b) {
            Operand::Imm(word) => {
                assert_eq!(word >> BOOL_SHIFT != 0, b);
                assert_eq!(word & BOOL_MASK, BOOL_TAG);
            }
            other => panic!("not an immediate: {:?}", other),
        }
    }
}

#[test]
fn a_stack_slot_is_addressed_from_the_stack_pointer() {
    assert_eq!(
        stack_address(-8),
        Operand::MemOffset(
            Box::new(Operand::Imm(-8)),
            Box::new(Operand::Reg(Register::Sp))
        )
    );
}

#[test]
fn flags_become_booleans_in_four_instructions() {
    assert_eq!(zf_to_bool(), flag_to_bool("eq"));
    assert_eq!(setl_bool(), flag_to_bool("lt"));
}

#[test]
fn literals_are_one_move() {
    assert_eq!(lower(&Expr::Num(5)), vec![Directive::Mov(x0(), Operand::Imm(20))]);
    assert_eq!(lower(&Expr::True), vec![Directive::Mov(x0(), Operand::Imm(159))]);
    assert_eq!(lower(&Expr::False), vec![Directive::Mov(x0(), Operand::Imm(31))]);
    assert_eq!(lower(&Expr::Nil), vec![Directive::Mov(x0(), Operand::Imm(255))]);
}

#[test]
fn unary_primitives_work_on_the_result_register() {
    assert_eq!(
        compile_unary_primitive(UnPrim::Add1),
        vec![Directive::Add(x0(), Operand::Imm(4))]
    );
    assert_eq!(
        compile_unary_primitive(UnPrim::Sub1),
        vec![Directive::Sub(x0(), Operand::Imm(4))]
    );
    let mut is_zero = vec![Directive::Cmp(x0(), Operand::Imm(0))];
    is_zero.extend(flag_to_bool("eq"));
    assert_eq!(compile_unary_primitive(UnPrim::IsZero), is_zero);
    let mut is_num = vec![
        Directive::And(x0(), Operand::Imm(3)),
        Directive::Cmp(x0(), Operand::Imm(0)),
    ];
    is_num.extend(flag_to_bool("eq"));
    assert_eq!(compile_unary_primitive(UnPrim::IsNum), is_num);
    let mut not = vec![Directive::Cmp(x0(), Operand::Imm(31))];
    not.extend(flag_to_bool("eq"));
    assert_eq!(compile_unary_primitive(UnPrim::Not), not);
}

#[test]
fn binary_primitives_load_the_left_operand_from_its_slot() {
    assert_eq!(
        compile_binary_primitive(-8, BinPrim::Plus),
        vec![
            Directive::Ldr(x1(), stack_address(-8)),
            Directive::Add(x0(), x1()),
        ]
    );
    assert_eq!(
        compile_binary_primitive(-24, BinPrim::Minus),
        vec![
            Directive::Mov(x1(), x0()),
            Directive::Ldr(x0(), stack_address(-24)),
            Directive::Sub(x0(), x1()),
        ]
    );
    let mut eq = vec![
        Directive::Ldr(x1(), stack_address(-8)),
        Directive::Cmp(x1(), x0()),
    ];
    eq.extend(flag_to_bool("eq"));
    assert_eq!(compile_binary_primitive(-8, BinPrim::Eq), eq);
    let mut lt = vec![
        Directive::Ldr(x1(), stack_address(-8)),
        Directive::Cmp(x1(), x0()),
    ];
    lt.extend(flag_to_bool("lt"));
    assert_eq!(compile_binary_primitive(-8, BinPrim::Lt), lt);
}

#[test]
fn a_unary_application_lowers_its_operand_first() {
    assert_eq!(
        lower(&Expr::UnPrim(UnPrim::Add1, num(5))),
        vec![
            Directive::Mov(x0(), Operand::Imm(20)),
            Directive::Add(x0(), Operand::Imm(4)),
        ]
    );
}

#[test]
fn a_sum_of_two_literals_lowers_to_five_instructions() {
    assert_eq!(
        lower(&Expr::BinPrim(BinPrim::Plus, num(3), num(4))),
        vec![
            Directive::Mov(x0(), Operand::Imm(12)),
            Directive::Str(stack_address(-8), x0()),
            Directive::Mov(x0(), Operand::Imm(16)),
            Directive::Ldr(x1(), stack_address(-8)),
            Directive::Add(x0(), x1()),
        ]
    );
}

#[test]
fn a_nested_right_operand_is_lowered_one_slot_down() {
    let e = Expr::BinPrim(
        BinPrim::Minus,
        num(9),
        Box::new(Expr::BinPrim(BinPrim::Plus, num(1), num(2))),
    );
    assert_eq!(
        lower(&e),
        vec![
            Directive::Mov(x0(), Operand::Imm(36)),
            Directive::Str(stack_address(-8), x0()),
            Directive::Mov(x0(), Operand::Imm(4)),
            Directive::Str(stack_address(-16), x0()),
            Directive::Mov(x0(), Operand::Imm(8)),
            Directive::Ldr(x1(), stack_address(-16)),
            Directive::Add(x0(), x1()),
            Directive::Mov(x1(), x0()),
            Directive::Ldr(x0(), stack_address(-8)),
            Directive::Sub(x0(), x1()),
        ]
    );
}

#[test]
fn a_conditional_branches_round_its_two_arms() {
    assert_eq!(
        lower(&Expr::If(Box::new(Expr::True), num(1), num(2))),
        vec![
            Directive::Mov(x0(), Operand::Imm(159)),
            Directive::Cmp(x0(), Operand::Imm(31)),
            Directive::Beq("else1".to_string()),
            Directive::Label("then0".to_string()),
            Directive::Mov(x0(), Operand::Imm(4)),
            Directive::B("continue2".to_string()),
            Directive::Label("else1".to_string()),
            Directive::Mov(x0(), Operand::Imm(8)),
            Directive::Label("continue2".to_string()),
        ]
    );
}

#[test]
fn nested_conditionals_take_later_labels() {
    let inner = Expr::If(Box::new(Expr::False), num(1), num(2));
    let code = lower(&Expr::If(Box::new(inner), num(3), num(4)));
    let labels: Vec<String> = code
        .iter()
        .filter_map(|d| match d {
            Directive::Label(l) => Some(l.clone()),
            _ => None,
        })
        .collect();
    assert_eq!(
        labels,
        vec!["then3", "else4", "continue5", "then0", "else1", "continue2"]
    );
}

#[test]
fn an_identifier_loads_its_slot() {
    let env = Env::new().bind("x".to_string(), -24);
    let mut generator = SymbolGenerator::new();
    assert_eq!(
        compile_expr(&env, -32, &Expr::Id("x".to_string()), &mut generator),
        Ok(vec![Directive::Ldr(x0(), stack_address(-24))])
    );
}

#[test]
fn an_unbound_identifier_is_an_error() {
    let mut generator = SymbolGenerator::new();
    assert_eq!(
        compile_expr(&Env::new(), -8, &Expr::Id("y".to_string()), &mut generator),
        Err(CompileError::UnresolvedIdentifier("y".to_string()))
    );
    let e = Expr::BinPrim(BinPrim::Plus, num(1), id("missing"));
    assert_eq!(
        compile_expr(&Env::new(), -8, &e, &mut generator),
        Err(CompileError::UnresolvedIdentifier("missing".to_string()))
    );
}

#[test]
fn a_let_gives_each_binding_a_slot_of_its_own() {
    let e = Expr::Let(
        vec![("x".to_string(), num(1)), ("y".to_string(), num(2))],
        Box::new(Expr::BinPrim(BinPrim::Plus, id("x"), id("y"))),
    );
    assert_eq!(
        lower(&e),
        vec![
            Directive::Mov(x0(), Operand::Imm(4)),
            Directive::Str(stack_address(-8), x0()),
            Directive::Mov(x0(), Operand::Imm(8)),
            Directive::Str(stack_address(-16), x0()),
            Directive::Ldr(x0(), stack_address(-8)),
            Directive::Str(stack_address(-24), x0()),
            Directive::Ldr(x0(), stack_address(-16)),
            Directive::Ldr(x1(), stack_address(-24)),
            Directive::Add(x0(), x1()),
        ]
    );
}

#[test]
fn a_later_binding_sees_an_earlier_one_and_not_itself() {
    let sees = Expr::Let(
        vec![("x".to_string(), num(1)), ("y".to_string(), id("x"))],
        id("y"),
    );
    assert_eq!(
        lower(&sees),
        vec![
            Directive::Mov(x0(), Operand::Imm(4)),
            Directive::Str(stack_address(-8), x0()),
            Directive::Ldr(x0(), stack_address(-8)),
            Directive::Str(stack_address(-16), x0()),
            Directive::Ldr(x0(), stack_address(-16)),
        ]
    );
    let itself = Expr::Let(vec![("x".to_string(), id("x"))], id("x"));
    let mut generator = SymbolGenerator::new();
    assert_eq!(
        compile_expr(&Env::new(), -8, &itself, &mut generator),
        Err(CompileError::UnresolvedIdentifier("x".to_string()))
    );
}

#[test]
fn a_let_does_not_change_the_environment_it_was_given() {
    let env = Env::new().bind("x".to_string(), -8);
    let e = Expr::Let(vec![("x".to_string(), num(7))], id("x"));
    let mut generator = SymbolGenerator::new();
    compile_expr(&env, -16, &e, &mut generator).unwrap();
    assert_eq!(env.lookup(&"x".to_string()), Some(-8));
}

#[test]
fn a_let_of_a_bound_name_is_the_initializer_stored_and_loaded() {
    let init = Expr::BinPrim(BinPrim::Plus, num(3), num(4));
    let mut expected = lower(&init);
    expected.push(Directive::Str(stack_address(-8), x0()));
    expected.push(Directive::Ldr(x0(), stack_address(-8)));
    let e = Expr::Let(vec![("x".to_string(), Box::new(init))], id("x"));
    assert_eq!(lower(&e), expected);
}

#[test]
fn a_do_lowers_its_expressions_in_order_at_one_slot() {
    let e = Expr::Do(vec![
        Expr::Num(1),
        Expr::BinPrim(BinPrim::Plus, num(2), num(3)),
    ]);
    assert_eq!(
        lower(&e),
        vec![
            Directive::Mov(x0(), Operand::Imm(4)),
            Directive::Mov(x0(), Operand::Imm(8)),
            Directive::Str(stack_address(-8), x0()),
            Directive::Mov(x0(), Operand::Imm(12)),
            Directive::Ldr(x1(), stack_address(-8)),
            Directive::Add(x0(), x1()),
        ]
    );
    assert_eq!(lower(&Expr::Do(vec![])), vec![]);
}

#[test]
fn a_definition_stores_its_parameters_above_the_saved_pair() {
    let e = Expr::Define(
        "f".to_string(),
        vec!["a".to_string(), "b".to_string()],
        id("b"),
    );
    assert_eq!(
        lower(&e),
        vec![
            Directive::Label("f".to_string()),
            Directive::Sub(Operand::Reg(Register::Sp), Operand::Imm(16)),
            Directive::Str(
                Operand::RegOffset(Register::Sp, 8),
                Operand::Reg(Register::Lr)
            ),
            Directive::Str(
                Operand::RegOffset(Register::Sp, 0),
                Operand::Reg(Register::Fp)
            ),
            Directive::Mov(Operand::Reg(Register::Fp), Operand::Reg(Register::Sp)),
            Directive::Str(
                Operand::RegOffset(Register::Fp, 16),
                Operand::Reg(Register::X0)
            ),
            Directive::Str(
                Operand::RegOffset(Register::Fp, 24),
                Operand::Reg(Register::X1)
            ),
            Directive::Ldr(x0(), stack_address(24)),
            Directive::Ldr(
                Operand::Reg(Register::Fp),
                Operand::RegOffset(Register::Sp, 0)
            ),
            Directive::Ldr(
                Operand::Reg(Register::Lr),
                Operand::RegOffset(Register::Sp, 8)
            ),
            Directive::Add(Operand::Reg(Register::Sp), Operand::Imm(16)),
            Directive::Ret,
        ]
    );
}

#[test]
fn a_function_body_sees_its_parameters_only() {
    let env = Env::new().bind("outer".to_string(), -8);
    let e = Expr::Define("f".to_string(), vec!["a".to_string()], id("outer"));
    let mut generator = SymbolGenerator::new();
    assert_eq!(
        compile_expr(&env, -16, &e, &mut generator),
        Err(CompileError::UnresolvedIdentifier("outer".to_string()))
    );
}

#[test]
fn a_call_spills_its_arguments_last_first_and_loads_the_registers() {
    let e = Expr::Call("f".to_string(), vec![Expr::Num(1), Expr::Num(2)]);
    assert_eq!(
        lower(&e),
        vec![
            Directive::Mov(x0(), Operand::Imm(8)),
            Directive::Str(Operand::RegOffset(Register::Sp, -16), x0()),
            Directive::Mov(x0(), Operand::Imm(4)),
            Directive::Str(Operand::RegOffset(Register::Sp, -8), x0()),
            Directive::Ldr(x0(), Operand::RegOffset(Register::Sp, -8)),
            Directive::Ldr(x1(), Operand::RegOffset(Register::Sp, -16)),
            Directive::Sub(Operand::Reg(Register::Sp), Operand::Imm(32)),
            Directive::Bl("f".to_string()),
            Directive::Add(Operand::Reg(Register::Sp), Operand::Imm(32)),
        ]
    );
}

#[test]
fn each_argument_register_is_loaded_from_the_slot_of_its_argument() {
    let args: Vec<Expr> = (10..15).map(Expr::Num).collect();
    let code = lower(&Expr::Call("f".to_string(), args));
    let registers = [
        Register::X0,
        Register::X1,
        Register::X2,
        Register::X3,
        Register::X4,
    ];
    for (i, register) in registers.into_iter().enumerate() {
        let slot = Operand::RegOffset(Register::Sp, -(8 + 8 * i as i64));
        let spilled = code
            .iter()
            .position(|d| d == &Directive::Str(slot.clone(), x0()))
            .unwrap();
        assert_eq!(
            code[spilled - 1],
            Directive::Mov(x0(), Operand::Imm((10 + i as i64) << 2))
        );
        assert!(code.contains(&Directive::Ldr(Operand::Reg(register), slot)));
    }
}

#[test]
fn a_call_without_arguments_only_steps_the_stack_pointer() {
    assert_eq!(
        lower(&Expr::Call("g".to_string(), vec![])),
        vec![
            Directive::Sub(Operand::Reg(Register::Sp), Operand::Imm(16)),
            Directive::Bl("g".to_string()),
            Directive::Add(Operand::Reg(Register::Sp), Operand::Imm(16)),
        ]
    );
}

#[test]
fn an_argument_is_lowered_below_the_arguments_before_it() {
    let second = Expr::BinPrim(BinPrim::Plus, num(1), num(2));
    let e = Expr::Call("f".to_string(), vec![Expr::Num(0), second]);
    let code = lower(&e);
    assert_eq!(code[1], Directive::Str(stack_address(-16), x0()));
}

#[test]
fn eight_arguments_are_taken_and_nine_are_refused() {
    let eight: Vec<Expr> = (0..8).map(Expr::Num).collect();
    let nine: Vec<Expr> = (0..9).map(Expr::Num).collect();
    let code = lower(&Expr::Call("f".to_string(), eight));
    assert!(code.contains(&Directive::Ldr(
        Operand::Reg(Register::X7),
        Operand::RegOffset(Register::Sp, -64)
    )));
    assert!(code.contains(&Directive::Ldr(
        x0(),
        Operand::RegOffset(Register::Sp, -8)
    )));
    assert!(code.contains(&Directive::Sub(
        Operand::Reg(Register::Sp),
        Operand::Imm(80)
    )));
    let mut generator = SymbolGenerator::new();
    assert_eq!(
        compile_expr(
            &Env::new(),
            -8,
            &Expr::Call("f".to_string(), nine),
            &mut generator
        ),
        Err(CompileError::ArgumentCountOverflow)
    );
}

#[test]
fn eight_parameters_are_taken_and_nine_are_refused() {
    let names = |n: usize| -> Vec<String> { (0..n).map(|i| format!("p{}", i)).collect() };
    let code = lower(&Expr::Define("f".to_string(), names(8), id("p7")));
    assert!(code.contains(&Directive::Str(
        Operand::RegOffset(Register::Fp, 72),
        Operand::Reg(Register::X7)
    )));
    assert!(code.contains(&Directive::Ldr(x0(), stack_address(72))));
    let mut generator = SymbolGenerator::new();
    assert_eq!(
        compile_expr(
            &Env::new(),
            -8,
            &Expr::Define("f".to_string(), names(9), num(0)),
            &mut generator
        ),
        Err(CompileError::ArgumentCountOverflow)
    );
}

#[test]
fn a_slot_below_the_least_offset_is_refused() {
    let mut generator = SymbolGenerator::new();
    let e = Expr::BinPrim(BinPrim::Plus, num(1), num(2));
    assert_eq!(
        compile_expr(&Env::new(), i64::MIN, &e, &mut generator),
        Err(CompileError::StackSlotOutOfRange)
    );
    assert_eq!(
        compile_expr(&Env::new(), i64::MIN + 8, &e, &mut generator).map(|code| code.len()),
        Ok(5)
    );
    let binds = Expr::Let(vec![("x".to_string(), num(1))], num(2));
    assert_eq!(
        compile_expr(&Env::new(), i64::MIN, &binds, &mut generator),
        Err(CompileError::StackSlotOutOfRange)
    );
    let calls = Expr::Call("f".to_string(), vec![Expr::Num(1), Expr::Num(2)]);
    assert_eq!(
        compile_expr(&Env::new(), i64::MIN, &calls, &mut generator),
        Err(CompileError::StackSlotOutOfRange)
    );
    assert_eq!(
        compile_expr(&Env::new(), i64::MIN, &Expr::Num(1), &mut generator),
        Ok(vec![Directive::Mov(x0(), Operand::Imm(4))])
    );
}

#[test]
fn the_first_failure_in_lowering_order_is_reported() {
    let mut generator = SymbolGenerator::new();
    let e = Expr::BinPrim(BinPrim::Plus, id("a"), id("b"));
    assert_eq!(
        compile_expr(&Env::new(), -8, &e, &mut generator),
        Err(CompileError::UnresolvedIdentifier("a".to_string()))
    );
    let call = Expr::Call(
        "f".to_string(),
        vec![Expr::Id("first".to_string()), Expr::Id("last".to_string())],
    );
    assert_eq!(
        compile_expr(&Env::new(), -8, &call, &mut generator),
        Err(CompileError::UnresolvedIdentifier("last".to_string()))
    );
}

#[test]
fn a_closed_expression_lowers_alike_in_every_environment() {
    let e = Expr::Let(
        vec![("x".to_string(), num(1))],
        Box::new(Expr::If(
            Box::new(Expr::BinPrim(BinPrim::Lt, id("x"), num(2))),
            id("x"),
            num(0),
        )),
    );
    let crowded = Env::new()
        .bind("x".to_string(), -800)
        .bind("y".to_string(), -808);
    let mut first = SymbolGenerator::new();
    let mut second = SymbolGenerator::new();
    assert_eq!(
        compile_expr(&Env::new(), -8, &e, &mut first),
        compile_expr(&crowded, -8, &e, &mut second)
    );
}

#[test]
fn two_lowerings_of_conditionals_share_no_label() {
    let mut generator = SymbolGenerator::new();
    let e = Expr::If(Box::new(Expr::True), num(1), num(2));
    let first = compile_expr(&Env::new(), -8, &e, &mut generator).unwrap();
    let second = compile_expr(&Env::new(), -8, &e, &mut generator).unwrap();
    let labels = |code: &Vec<Directive>| -> Vec<String> {
        code.iter()
            .filter_map(|d| match d {
                Directive::Label(l) => Some(l.clone()),
                _ => None,
            })
            .collect()
    };
    assert_eq!(labels(&first), vec!["then0", "else1", "continue2"]);
    assert_eq!(labels(&second), vec!["then3", "else4", "continue5"]);
    for l in labels(&first) {
        assert!(!labels(&second).contains(&l));
    }
}

#[test]
fn the_labels_of_one_lowering_all_differ() {
    let arm = |n: i64| -> Box<Expr> {
        Box::new(Expr::If(
            Box::new(Expr::BinPrim(BinPrim::Lt, num(n), num(2))),
            Box::new(Expr::If(Box::new(Expr::True), num(1), num(2))),
            num(3),
        ))
    };
    let e = Expr::Do(vec![
        Expr::If(arm(0), arm(1), arm(2)),
        Expr::Let(vec![("x".to_string(), arm(3))], arm(4)),
        Expr::Call("f".to_string(), vec![*arm(5), *arm(6)]),
    ]);
    let code = lower(&e);
    let mut set = Vec::new();
    let mut targets = Vec::new();
    for d in &code {
        match d {
            Directive::Label(l) => set.push(l.clone()),
            Directive::B(l) | Directive::Beq(l) => targets.push(l.clone()),
            _ => {}
        }
    }
    assert_eq!(set.len(), 3 * 15);
    for (i, l) in set.iter().enumerate() {
        assert!(!set[i + 1..].contains(l), "{} is set twice", l);
    }
    for l in &targets {
        assert!(set.contains(l), "{} is set nowhere", l);
    }
}

#[test]
fn a_failed_lowering_keeps_the_labels_it_took() {
    let mut generator = SymbolGenerator::new();
    let e = Expr::If(Box::new(Expr::True), id("nowhere"), num(2));
    assert!(compile_expr(&Env::new(), -8, &e, &mut generator).is_err());
    let next = compile_expr(
        &Env::new(),
        -8,
        &Expr::If(Box::new(Expr::True), num(1), num(2)),
        &mut generator,
    )
    .unwrap();
    assert_eq!(next[3], Directive::Label("then3".to_string()));
}

#[test]
fn a_program_is_the_entry_point_round_the_lowering() {
    let mut generator = SymbolGenerator::new();
    assert_eq!(
        compile(Expr::Num(1), &mut generator),
        Ok(vec![
            Directive::Global("lisp_entry".to_string()),
            Directive::Extern("lisp_error".to_string()),
            Directive::Label("lisp_entry".to_string()),
            Directive::Mov(x0(), Operand::Imm(4)),
            Directive::Ret,
        ])
    );
    assert_eq!(
        compile(Expr::Id("x".to_string()), &mut generator),
        Err(CompileError::UnresolvedIdentifier("x".to_string()))
    );
}

#[test]
fn a_program_starts_at_the_first_slot() {
    let mut generator = SymbolGenerator::new();
    let code = compile(Expr::BinPrim(BinPrim::Plus, num(1), num(2)), &mut generator).unwrap();
    assert_eq!(code[4], Directive::Str(stack_address(-8), x0()));
}

#[test]
fn a_cloned_expression_is_equal_to_the_first() {
    let e = Expr::Let(
        vec![("x".to_string(), num(1))],
        Box::new(Expr::Do(vec![
            Expr::Call("f".to_string(), vec![Expr::Id("x".to_string()), Expr::Nil]),
            Expr::Define("g".to_string(), vec!["a".to_string()], id("a")),
            Expr::If(
                Box::new(Expr::True),
                Box::new(Expr::UnPrim(UnPrim::Not, Box::new(Expr::False))),
                num(3),
            ),
        ])),
    );
    assert_eq!(e.clone(), e);
}
