//! The lowered instructions run on a small model of the machine: the
//! registers, the stack and the two flags that the lowering uses.

use lispc::assembly::{Directive, Operand, Register};
use lispc::ast::{parse, Expr};
use lispc::compile::compile_expr;
use lispc::env::Env;
use lispc::utils::SymbolGenerator;
use std::collections::HashMap;

struct Machine {
    registers: HashMap<String, i64>,
    stack: HashMap<i64, i64>,
    equal: bool,
    less: bool,
    executed: Vec<usize>,
}

fn read(machine: &Machine, operand: &Operand) -> i64 {
    match operand {
        Operand::Reg(r) => *machine.registers.get(&format!("{:?}", r)).unwrap_or(&0),
        Operand::Imm(i) => *i,
        other => *machine
            .stack
            .get(&address(other))
            .unwrap_or_else(|| panic!("read of a slot never written: {:?}", other)),
    }
}

fn address(operand: &Operand) -> i64 {
    match operand {
        Operand::MemOffset(offset, base) => match (&**offset, &**base) {
            (Operand::Imm(i), Operand::Reg(Register::Sp)) => *i,
            _ => panic!("address outside the model: {:?}", operand),
        },
        Operand::RegOffset(Register::Sp, i) => *i,
        _ => panic!("address outside the model: {:?}", operand),
    }
}

fn write(machine: &mut Machine, operand: &Operand, value: i64) {
    match operand {
        Operand::Reg(r) => {
            machine.registers.insert(format!("{:?}", r), value);
        }
        other => panic!("write outside the model: {:?}", other),
    }
}

fn run(code: &[Directive]) -> Machine {
    let mut machine = Machine {
        registers: HashMap::new(),
        stack: HashMap::new(),
        equal: false,
        less: false,
        executed: Vec::new(),
    };
    let target = |label: &String| -> usize {
        code.iter()
            .position(|d| d == &Directive::Label(label.clone()))
            .unwrap_or_else(|| panic!("no label {}", label))
    };
    let mut pc = 0;
    let mut steps = 0;
    while pc < code.len() {
        steps += 1;
        assert!(steps < 100_000, "the code does not end");
        machine.executed.push(pc);
        match &code[pc] {
            Directive::Label(_) => {}
            Directive::Mov(dest, src) => {
                let value = read(&machine, src);
                write(&mut machine, dest, value);
            }
            Directive::Add(dest, src) => {
                let value = read(&machine, dest).wrapping_add(read(&machine, src));
                write(&mut machine, dest, value);
            }
            Directive::Sub(dest, src) => {
                let value = read(&machine, dest).wrapping_sub(read(&machine, src));
                write(&mut machine, dest, value);
            }
            Directive::And(dest, src) => {
                let value = read(&machine, dest) & read(&machine, src);
                write(&mut machine, dest, value);
            }
            Directive::Orr(dest, src) => {
                let value = read(&machine, dest) | read(&machine, src);
                write(&mut machine, dest, value);
            }
            Directive::Lsl(dest, src) => {
                let value = read(&machine, dest) << read(&machine, src);
                write(&mut machine, dest, value);
            }
            Directive::Cmp(left, right) => {
                machine.equal = read(&machine, left) == read(&machine, right);
                machine.less = read(&machine, left) < read(&machine, right);
            }
            Directive::Cset(dest, condition) => {
                let flag = match condition.as_str() {
                    "eq" => machine.equal,
                    "lt" => machine.less,
                    other => panic!("condition outside the model: {}", other),
                };
                write(&mut machine, dest, if flag { 1 } else { 0 });
            }
            Directive::Str(dest, src) => {
                let value = read(&machine, src);
                machine.stack.insert(address(dest), value);
            }
            Directive::Ldr(dest, src) => {
                let value = read(&machine, src);
                write(&mut machine, dest, value);
            }
            Directive::B(label) => {
                pc = target(label);
                continue;
            }
            Directive::Beq(label) => {
                if machine.equal {
                    pc = target(label);
                    continue;
                }
            }
            other => panic!("directive outside the model: {:?}", other),
        }
        pc += 1;
    }
    machine
}

fn lowered(text: &str) -> Vec<Directive> {
    let mut exprs = parse(text).unwrap();
    assert_eq!(exprs.len(), 1);
    let e: Expr = exprs.pop().unwrap();
    let mut generator = SymbolGenerator::new();
    compile_expr(&Env::new(), -8, &e, &mut generator).unwrap()
}

fn result(text: &str) -> i64 {
    read(&run(&lowered(text)), &Operand::Reg(Register::X0))
}

const TRUE: i64 = 159;
const FALSE: i64 = 31;

fn tagged(n: i64) -> i64 {
    n << 2
}

#[test]
fn literals_leave_their_tagged_word() {
    assert_eq!(result("7"), tagged(7));
    assert_eq!(result("7") >> 2, 7);
    assert_eq!(result("true"), TRUE);
    assert_eq!(result("false"), FALSE);
    assert_eq!(result("()"), 255);
}

#[test]
fn arithmetic_leaves_the_tagged_result() {
    assert_eq!(result("(+ 3 4)"), tagged(7));
    assert_eq!(result("(- 9 4)"), tagged(5));
    assert_eq!(result("(- 4 9)"), tagged(-5));
    assert_eq!(result("(- 9 (+ 1 2))"), tagged(6));
    assert_eq!(result("(+ (- 10 1) (- 3 (- 2 1)))"), tagged(11));
    assert_eq!(result("(add1 (sub1 (add1 41)))"), tagged(42));
}

#[test]
fn predicates_leave_a_tagged_boolean() {
    assert_eq!(result("(zero? 0)"), TRUE);
    assert_eq!(result("(zero? 3)"), FALSE);
    assert_eq!(result("(num? 5)"), TRUE);
    assert_eq!(result("(num? true)"), FALSE);
    assert_eq!(result("(num? ())"), FALSE);
    assert_eq!(result("(not false)"), TRUE);
    assert_eq!(result("(not true)"), FALSE);
    assert_eq!(result("(not 0)"), FALSE);
    assert_eq!(result("(= 2 2)"), TRUE);
    assert_eq!(result("(= 2 3)"), FALSE);
    assert_eq!(result("(< 2 3)"), TRUE);
    assert_eq!(result("(< 3 2)"), FALSE);
    assert_eq!(result("(< 2 2)"), FALSE);
}

#[test]
fn a_true_test_runs_the_then_arm_only() {
    let code = lowered("(if true 1 2)");
    let machine = run(&code);
    assert_eq!(read(&machine, &Operand::Reg(Register::X0)), tagged(1));
    let then_arm = 4;
    let else_arm = 7;
    assert_eq!(code[then_arm], Directive::Mov(Operand::Reg(Register::X0), Operand::Imm(4)));
    assert_eq!(code[else_arm], Directive::Mov(Operand::Reg(Register::X0), Operand::Imm(8)));
    assert!(machine.executed.contains(&then_arm));
    assert!(!machine.executed.contains(&else_arm));
}

#[test]
fn a_false_test_runs_the_else_arm_only() {
    let code = lowered("(if false 1 2)");
    let machine = run(&code);
    assert_eq!(read(&machine, &Operand::Reg(Register::X0)), tagged(2));
    assert!(!machine.executed.contains(&4));
    assert!(machine.executed.contains(&7));
}

#[test]
fn whatever_is_not_false_counts_as_true() {
    assert_eq!(result("(if 0 1 2)"), tagged(1));
    assert_eq!(result("(if () 1 2)"), tagged(1));
}

#[test]
fn conditionals_nest() {
    assert_eq!(result("(if (if false true false) 1 (if (< 1 2) 3 4))"), tagged(3));
    assert_eq!(result("(+ (if true 1 2) (if false 10 20))"), tagged(21));
}

#[test]
fn a_let_of_two_bindings_gives_what_the_sum_of_the_literals_gives() {
    assert_eq!(result("(let ((x 1) (y 2)) (+ x y))"), result("(+ 1 2)"));
    assert_eq!(result("(let ((x 1) (y 2)) (+ x y))"), tagged(3));
    let machine = run(&lowered("(let ((x 1) (y 2)) (+ x y))"));
    assert_eq!(machine.stack.get(&-8), Some(&tagged(1)));
    assert_eq!(machine.stack.get(&-16), Some(&tagged(2)));
}

#[test]
fn a_let_of_a_bound_name_gives_what_its_initializer_gives() {
    for init in ["5", "(+ 3 4)", "(if (< 1 2) 10 20)", "(let ((y 2)) (- y 7))"] {
        let text = format!("(let ((x {})) x)", init);
        assert_eq!(result(&text), result(init), "on {}", init);
    }
}

#[test]
fn bindings_shadow_and_see_the_ones_before() {
    assert_eq!(result("(let ((x 1) (x (+ x 1))) x)"), tagged(2));
    assert_eq!(result("(let ((x 1)) (let ((x 5) (y x)) (+ x y)))"), tagged(10));
    assert_eq!(result("(let ((x 1)) (+ (let ((x 5)) x) x))"), tagged(6));
}

#[test]
fn temporaries_do_not_overwrite_bindings() {
    assert_eq!(
        result("(let ((a 1) (b 2) (c 3)) (- (+ a (+ b c)) (- c (- b a))))"),
        tagged(4)
    );
}

#[test]
fn a_do_gives_what_its_last_expression_gives() {
    assert_eq!(result("(do 1 2 3)"), tagged(3));
    assert_eq!(result("(do (+ 1 2) (let ((x 4)) x) false)"), FALSE);
}
