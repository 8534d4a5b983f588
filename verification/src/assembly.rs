//! The instruction representation: registers, operands and directives.

use vstd::prelude::*;
use crate::text::{append_escaped, append_integer, escaped, integer_text};

verus! {

/// A machine register that emitted code may name.
#[derive(Clone, Copy, Debug, PartialEq, Eq, Structural)]
pub enum Register {
    X0,
    X1,
    X2,
    X3,
    X4,
    X5,
    X6,
    X7,
    X8,
    X9,
    X10,
    X11,
    X12,
    X13,
    X14,
    X15,
    X16,
    Sp,
    Lr,
    Fp,
}

/// An instruction operand.
#[derive(Debug, PartialEq, Eq)]
pub enum Operand {
    /// A register.
    Reg(Register),
    /// An immediate integer.
    Imm(i64),
    /// Memory at an offset (first field) from a base (second field).
    MemOffset(Box<Operand>, Box<Operand>),
    /// Memory at a constant offset from a register.
    RegOffset(Register, i64),
}

impl Clone for Operand {
    fn clone(&self) -> (res: Self)
        ensures
            res == *self,
        decreases self,
    {
        match self {
            Operand::Reg(r) => Operand::Reg(*r),
            Operand::Imm(i) => Operand::Imm(*i),
            Operand::MemOffset(offset, base) => Operand::MemOffset(
                Box::new((&**offset).clone()),
                Box::new((&**base).clone()),
            ),
            Operand::RegOffset(r, i) => Operand::RegOffset(*r, *i),
        }
    }
}

/// The register that `rhs` selects: `X1` to `X16` for 1 to 16, `X0` for
/// every other number.
pub open spec fn register_sum(rhs: i32) -> Register {
    if rhs == 1 {
        Register::X1
    } else if rhs == 2 {
        Register::X2
    } else if rhs == 3 {
        Register::X3
    } else if rhs == 4 {
        Register::X4
    } else if rhs == 5 {
        Register::X5
    } else if rhs == 6 {
        Register::X6
    } else if rhs == 7 {
        Register::X7
    } else if rhs == 8 {
        Register::X8
    } else if rhs == 9 {
        Register::X9
    } else if rhs == 10 {
        Register::X10
    } else if rhs == 11 {
        Register::X11
    } else if rhs == 12 {
        Register::X12
    } else if rhs == 13 {
        Register::X13
    } else if rhs == 14 {
        Register::X14
    } else if rhs == 15 {
        Register::X15
    } else if rhs == 16 {
        Register::X16
    } else {
        Register::X0
    }
}

impl core::ops::Add<i32> for Register {
    type Output = Register;

    /// Selects a general register by number. The left operand does not
    /// enter the result.
    fn add(self, rhs: i32) -> (r: Register) {
        match rhs {
            1 => Register::X1,
            2 => Register::X2,
            3 => Register::X3,
            4 => Register::X4,
            5 => Register::X5,
            6 => Register::X6,
            7 => Register::X7,
            8 => Register::X8,
            9 => Register::X9,
            10 => Register::X10,
            11 => Register::X11,
            12 => Register::X12,
            13 => Register::X13,
            14 => Register::X14,
            15 => Register::X15,
            16 => Register::X16,
            _ => Register::X0,
        }
    }
}

impl vstd::std_specs::ops::AddSpecImpl<i32> for Register {
    open spec fn obeys_add_spec() -> bool {
        true
    }

    open spec fn add_req(self, rhs: i32) -> bool {
        true
    }

    open spec fn add_spec(self, rhs: i32) -> Register {
        register_sum(rhs)
    }
}

/// Whether the operand is a plain register.
pub fn is_register(o: Operand) -> (b: bool)
    ensures
        b == (o is Reg),
{
    match o {
        Operand::Reg(_) => true,
        _ => false,
    }
}

/// One line of emitted assembly: an instruction, a label or an assembler
/// directive.
#[derive(Clone, Debug, PartialEq, Eq)]
pub enum Directive {
    Global(String),
    Extern(String),
    Section(String),
    Label(String),
    DqLabel(String),
    DqString(String),
    DqInt(i64),
    Align(i32),
    Mov(Operand, Operand),
    Add(Operand, Operand),
    Sub(Operand, Operand),
    Mul(Operand, Operand),
    Sdiv(Operand, Operand),
    Lsl(Operand, Operand),
    Lsr(Operand, Operand),
    Asr(Operand, Operand),
    Cmp(Operand, Operand),
    And(Operand, Operand),
    Orr(Operand, Operand),
    Cset(Operand, String),
    Adr(Operand, String),
    B(String),
    Beq(String),
    Bne(String),
    Blt(String),
    Bge(String),
    Bgt(String),
    Ble(String),
    Br(Operand),
    Str(Operand, Operand),
    Ldr(Operand, Operand),
    Stp(Operand, Operand, Operand),
    Ldp(Operand, Operand, Operand),
    Bl(String),
    Ret,
    Comment(String),
}

/// The mathematical model of a [`Directive`]: the same shape, with every
/// string replaced by the sequence of its characters.
pub enum DirectiveView {
    Global(Seq<char>),
    Extern(Seq<char>),
    Section(Seq<char>),
    Label(Seq<char>),
    DqLabel(Seq<char>),
    DqString(Seq<char>),
    DqInt(i64),
    Align(i32),
    Mov(Operand, Operand),
    Add(Operand, Operand),
    Sub(Operand, Operand),
    Mul(Operand, Operand),
    Sdiv(Operand, Operand),
    Lsl(Operand, Operand),
    Lsr(Operand, Operand),
    Asr(Operand, Operand),
    Cmp(Operand, Operand),
    And(Operand, Operand),
    Orr(Operand, Operand),
    Cset(Operand, Seq<char>),
    Adr(Operand, Seq<char>),
    B(Seq<char>),
    Beq(Seq<char>),
    Bne(Seq<char>),
    Blt(Seq<char>),
    Bge(Seq<char>),
    Bgt(Seq<char>),
    Ble(Seq<char>),
    Br(Operand),
    Str(Operand, Operand),
    Ldr(Operand, Operand),
    Stp(Operand, Operand, Operand),
    Ldp(Operand, Operand, Operand),
    Bl(Seq<char>),
    Ret,
    Comment(Seq<char>),
}

impl View for Directive {
    type V = DirectiveView;

    open spec fn view(&self) -> DirectiveView {
        match *self {
            Directive::Global(l) => DirectiveView::Global(l@),
            Directive::Extern(l) => DirectiveView::Extern(l@),
            Directive::Section(l) => DirectiveView::Section(l@),
            Directive::Label(l) => DirectiveView::Label(l@),
            Directive::DqLabel(l) => DirectiveView::DqLabel(l@),
            Directive::DqString(l) => DirectiveView::DqString(l@),
            Directive::DqInt(i) => DirectiveView::DqInt(i),
            Directive::Align(i) => DirectiveView::Align(i),
            Directive::Mov(a, b) => DirectiveView::Mov(a, b),
            Directive::Add(a, b) => DirectiveView::Add(a, b),
            Directive::Sub(a, b) => DirectiveView::Sub(a, b),
            Directive::Mul(a, b) => DirectiveView::Mul(a, b),
            Directive::Sdiv(a, b) => DirectiveView::Sdiv(a, b),
            Directive::Lsl(a, b) => DirectiveView::Lsl(a, b),
            Directive::Lsr(a, b) => DirectiveView::Lsr(a, b),
            Directive::Asr(a, b) => DirectiveView::Asr(a, b),
            Directive::Cmp(a, b) => DirectiveView::Cmp(a, b),
            Directive::And(a, b) => DirectiveView::And(a, b),
            Directive::Orr(a, b) => DirectiveView::Orr(a, b),
            Directive::Cset(a, c) => DirectiveView::Cset(a, c@),
            Directive::Adr(a, l) => DirectiveView::Adr(a, l@),
            Directive::B(l) => DirectiveView::B(l@),
            Directive::Beq(l) => DirectiveView::Beq(l@),
            Directive::Bne(l) => DirectiveView::Bne(l@),
            Directive::Blt(l) => DirectiveView::Blt(l@),
            Directive::Bge(l) => DirectiveView::Bge(l@),
            Directive::Bgt(l) => DirectiveView::Bgt(l@),
            Directive::Ble(l) => DirectiveView::Ble(l@),
            Directive::Br(a) => DirectiveView::Br(a),
            Directive::Str(a, b) => DirectiveView::Str(a, b),
            Directive::Ldr(a, b) => DirectiveView::Ldr(a, b),
            Directive::Stp(a, b, c) => DirectiveView::Stp(a, b, c),
            Directive::Ldp(a, b, c) => DirectiveView::Ldp(a, b, c),
            Directive::Bl(l) => DirectiveView::Bl(l@),
            Directive::Ret => DirectiveView::Ret,
            Directive::Comment(s) => DirectiveView::Comment(s@),
        }
    }
}

/// The model of a list of directives: the model of each, in order.
pub open spec fn code_view(code: Seq<Directive>) -> Seq<DirectiveView> {
    Seq::new(code.len(), |i: int| code[i]@)
}

/// The model of a list is built up as the list is.
pub proof fn lemma_code_view_push(code: Seq<Directive>, d: Directive)
    ensures
        code_view(code.push(d)) == code_view(code).push(d@),
{
    assert(code_view(code.push(d)) =~= code_view(code).push(d@));
}

/// The model of two lists joined is the two models joined.
pub proof fn lemma_code_view_concat(a: Seq<Directive>, b: Seq<Directive>)
    ensures
        code_view(a + b) == code_view(a) + code_view(b),
{
    assert(code_view(a + b) =~= code_view(a) + code_view(b));
}

/// The name of a register in assembly text.
pub open spec fn register_text(reg: Register) -> Seq<char> {
    match reg {
        Register::X0 => "X0"@,
        Register::X1 => "X1"@,
        Register::X2 => "X2"@,
        Register::X3 => "X3"@,
        Register::X4 => "X4"@,
        Register::X5 => "X5"@,
        Register::X6 => "X6"@,
        Register::X7 => "X7"@,
        Register::X8 => "X8"@,
        Register::X9 => "X9"@,
        Register::X10 => "X10"@,
        Register::X11 => "X11"@,
        Register::X12 => "X12"@,
        Register::X13 => "X13"@,
        Register::X14 => "X14"@,
        Register::X15 => "X15"@,
        Register::X16 => "X16"@,
        Register::Sp => "sp"@,
        Register::Lr => "lr"@,
        Register::Fp => "fp"@,
    }
}

/// An operand in assembly text: a register by its name, an immediate
/// behind `#`, and a memory reference in square brackets, its base before
/// its offset.
pub open spec fn operand_text(o: Operand) -> Seq<char>
    decreases o,
{
    match o {
        Operand::Reg(r) => register_text(r),
        Operand::Imm(i) => "#"@ + integer_text(i as int),
        Operand::MemOffset(offset, base) => "["@ + operand_text(*base) + ", "@ + operand_text(
            *offset,
        ) + "]"@,
        Operand::RegOffset(reg, offset) => "["@ + register_text(reg) + ", #"@ + integer_text(
            offset as int,
        ) + "]"@,
    }
}

/// A label as the assembler sees it: behind an underscore.
pub open spec fn label_name_text(label: Seq<char>) -> Seq<char> {
    "_"@ + label
}

/// A line made of `mnemonic` and two operands.
pub open spec fn two_operand_text(mnemonic: Seq<char>, a: Operand, b: Operand) -> Seq<char> {
    mnemonic + operand_text(a) + ", "@ + operand_text(b)
}

/// A line made of `mnemonic` and three operands.
pub open spec fn three_operand_text(
    mnemonic: Seq<char>,
    a: Operand,
    b: Operand,
    c: Operand,
) -> Seq<char> {
    mnemonic + operand_text(a) + ", "@ + operand_text(b) + ", "@ + operand_text(c)
}

/// A directive in assembly text.
///
/// An instruction that computes from two operands is written with its
/// destination twice, as destination and as first source. A store is written
/// with its source first.
pub open spec fn directive_text(d: DirectiveView) -> Seq<char> {
    match d {
        DirectiveView::Global(l) => ".global _"@ + l,
        DirectiveView::Extern(l) => ".extern "@ + label_name_text(l),
        DirectiveView::Section(l) => ".section "@ + l,
        DirectiveView::Label(l) => label_name_text(l) + ":"@,
        DirectiveView::DqLabel(l) => ".quad "@ + label_name_text(l),
        DirectiveView::DqString(l) => ".ascii \""@ + escaped(l) + "\"\n\t.byte 0"@,
        DirectiveView::DqInt(i) => ".quad "@ + integer_text(i as int),
        DirectiveView::Align(i) => ".align "@ + integer_text(i as int),
        DirectiveView::Mov(dest, src) => two_operand_text("\tmov "@, dest, src),
        DirectiveView::Add(dest, src) => three_operand_text("\tadd "@, dest, dest, src),
        DirectiveView::Sub(dest, src) => three_operand_text("\tsub "@, dest, dest, src),
        DirectiveView::Mul(dest, src) => three_operand_text("\tmul "@, dest, dest, src),
        DirectiveView::Sdiv(dest, src) => three_operand_text("\tsdiv "@, dest, dest, src),
        DirectiveView::Lsl(dest, src) => three_operand_text("\tlsl "@, dest, dest, src),
        DirectiveView::Lsr(dest, src) => three_operand_text("\tlsr "@, dest, dest, src),
        DirectiveView::Asr(dest, src) => three_operand_text("\tasr "@, dest, dest, src),
        DirectiveView::Cmp(dest, src) => two_operand_text("\tcmp "@, dest, src),
        DirectiveView::And(dest, src) => three_operand_text("\tand "@, dest, dest, src),
        DirectiveView::Orr(dest, src) => three_operand_text("\torr "@, dest, dest, src),
        DirectiveView::Cset(dest, cond) => "\tcset "@ + operand_text(dest) + ", "@ + cond,
        DirectiveView::Adr(dest, label) => "\tadr "@ + operand_text(dest) + ", "@
            + label_name_text(label),
        DirectiveView::B(dest) => "\tb "@ + label_name_text(dest),
        DirectiveView::Beq(dest) => "\tbeq "@ + label_name_text(dest),
        DirectiveView::Bne(dest) => "\tbne "@ + label_name_text(dest),
        DirectiveView::Blt(dest) => "\tblt "@ + label_name_text(dest),
        DirectiveView::Bge(dest) => "\tbge "@ + label_name_text(dest),
        DirectiveView::Bgt(dest) => "\tbgt "@ + label_name_text(dest),
        DirectiveView::Ble(dest) => "\tble "@ + label_name_text(dest),
        DirectiveView::Br(dest) => "\tbr "@ + operand_text(dest),
        DirectiveView::Str(dest, src) => two_operand_text("\tstr "@, src, dest),
        DirectiveView::Ldr(dest, src) => two_operand_text("\tldr "@, dest, src),
        DirectiveView::Stp(src1, src2, dest) => three_operand_text("\tstp "@, src1, src2, dest),
        DirectiveView::Ldp(dest1, dest2, src) => three_operand_text("\tldp "@, dest1, dest2, src),
        DirectiveView::Bl(dest) => "\tbl "@ + label_name_text(dest),
        DirectiveView::Ret => "\tret"@,
        DirectiveView::Comment(s) => "// "@ + s,
    }
}

/// The name of a register in assembly text.
pub fn string_of_register(reg: &Register) -> (name: String)
    ensures
        name@ == register_text(*reg),
{
    match reg {
        Register::X0 => "X0".to_owned(),
        Register::X1 => "X1".to_owned(),
        Register::X2 => "X2".to_owned(),
        Register::X3 => "X3".to_owned(),
        Register::X4 => "X4".to_owned(),
        Register::X5 => "X5".to_owned(),
        Register::X6 => "X6".to_owned(),
        Register::X7 => "X7".to_owned(),
        Register::X8 => "X8".to_owned(),
        Register::X9 => "X9".to_owned(),
        Register::X10 => "X10".to_owned(),
        Register::X11 => "X11".to_owned(),
        Register::X12 => "X12".to_owned(),
        Register::X13 => "X13".to_owned(),
        Register::X14 => "X14".to_owned(),
        Register::X15 => "X15".to_owned(),
        Register::X16 => "X16".to_owned(),
        Register::Sp => "sp".to_owned(),
        Register::Lr => "lr".to_owned(),
        Register::Fp => "fp".to_owned(),
    }
}

impl Register {
    /// The name of the register in assembly text.
    pub fn to_string(&self) -> (name: String)
        ensures
            name@ == register_text(*self),
    {
        string_of_register(self)
    }
}

/// Appends the operand `o` in assembly text to `out`.
fn append_operand(out: &mut String, o: &Operand)
    ensures
        final(out)@ == old(out)@ + operand_text(*o),
    decreases o,
{
    match o {
        Operand::Reg(r) => {
            let name = string_of_register(r);
            out.append(name.as_str());
        },
        Operand::Imm(i) => {
            out.append("#");
            append_integer(out, *i);
        },
        Operand::MemOffset(offset, base) => {
            out.append("[");
            append_operand(out, &**base);
            out.append(", ");
            append_operand(out, &**offset);
            out.append("]");
        },
        Operand::RegOffset(reg, offset) => {
            out.append("[");
            let name = string_of_register(reg);
            out.append(name.as_str());
            out.append(", #");
            append_integer(out, *offset);
            out.append("]");
        },
    }
    assert(out@ =~= old(out)@ + operand_text(*o));
}

impl Operand {
    /// The operand in assembly text.
    pub fn to_string(&self) -> (text: String)
        ensures
            text@ == operand_text(*self),
    {
        let mut text = String::new();
        append_operand(&mut text, self);
        assert(text@ =~= operand_text(*self));
        text
    }
}

/// A label as the assembler sees it: behind an underscore.
pub fn label_name(label: &str) -> (name: String)
    ensures
        name@ == label_name_text(label@),
{
    let mut name = "_".to_owned();
    name.append(label);
    name
}

/// The line made of `mnemonic` and the label `label`.
fn label_line(mnemonic: &str, label: &String) -> (line: String)
    ensures
        line@ == mnemonic@ + label_name_text(label@),
{
    let mut line = mnemonic.to_owned();
    let name = label_name(label.as_str());
    line.append(name.as_str());
    line
}

/// The line made of `mnemonic` and two operands.
fn two_operand_line(mnemonic: &str, a: &Operand, b: &Operand) -> (line: String)
    ensures
        line@ == two_operand_text(mnemonic@, *a, *b),
{
    let mut line = mnemonic.to_owned();
    append_operand(&mut line, a);
    line.append(", ");
    append_operand(&mut line, b);
    line
}

/// The line made of `mnemonic` and three operands.
fn three_operand_line(mnemonic: &str, a: &Operand, b: &Operand, c: &Operand) -> (line: String)
    ensures
        line@ == three_operand_text(mnemonic@, *a, *b, *c),
{
    let mut line = mnemonic.to_owned();
    append_operand(&mut line, a);
    line.append(", ");
    append_operand(&mut line, b);
    line.append(", ");
    append_operand(&mut line, c);
    line
}

/// The line made of `head` and `tail`.
fn joined(head: &str, tail: &str) -> (line: String)
    ensures
        line@ == head@ + tail@,
{
    let mut line = head.to_owned();
    line.append(tail);
    line
}

/// The directive in assembly text.
pub fn string_of_directive(directive: &Directive) -> (line: String)
    ensures
        line@ == directive_text(directive@),
{
    match directive {
        Directive::Global(l) => joined(".global _", l.as_str()),
        Directive::Extern(l) => label_line(".extern ", l),
        Directive::Section(l) => joined(".section ", l.as_str()),
        Directive::Label(l) => {
            let mut line = label_name(l.as_str());
            line.append(":");
            line
        },
        Directive::DqLabel(l) => label_line(".quad ", l),
        Directive::DqString(l) => {
            let mut line = ".ascii \"".to_owned();
            append_escaped(&mut line, l.as_str());
            line.append("\"\n\t.byte 0");
            line
        },
        Directive::DqInt(i) => {
            let mut line = ".quad ".to_owned();
            append_integer(&mut line, *i);
            line
        },
        Directive::Align(i) => {
            let mut line = ".align ".to_owned();
            append_integer(&mut line, *i as i64);
            line
        },
        Directive::Mov(dest, src) => two_operand_line("\tmov ", dest, src),
        Directive::Add(dest, src) => three_operand_line("\tadd ", dest, dest, src),
        Directive::Sub(dest, src) => three_operand_line("\tsub ", dest, dest, src),
        Directive::Mul(dest, src) => three_operand_line("\tmul ", dest, dest, src),
        Directive::Sdiv(dest, src) => three_operand_line("\tsdiv ", dest, dest, src),
        Directive::Lsl(dest, src) => three_operand_line("\tlsl ", dest, dest, src),
        Directive::Lsr(dest, src) => three_operand_line("\tlsr ", dest, dest, src),
        Directive::Asr(dest, src) => three_operand_line("\tasr ", dest, dest, src),
        Directive::Cmp(dest, src) => two_operand_line("\tcmp ", dest, src),
        Directive::And(dest, src) => three_operand_line("\tand ", dest, dest, src),
        Directive::Orr(dest, src) => three_operand_line("\torr ", dest, dest, src),
        Directive::Cset(dest, cond) => {
            let mut line = "\tcset ".to_owned();
            append_operand(&mut line, dest);
            line.append(", ");
            line.append(cond.as_str());
            line
        },
        Directive::Adr(dest, label) => {
            let mut line = "\tadr ".to_owned();
            append_operand(&mut line, dest);
            line.append(", ");
            let name = label_name(label.as_str());
            line.append(name.as_str());
            line
        },
        Directive::B(dest) => label_line("\tb ", dest),
        Directive::Beq(dest) => label_line("\tbeq ", dest),
        Directive::Bne(dest) => label_line("\tbne ", dest),
        Directive::Blt(dest) => label_line("\tblt ", dest),
        Directive::Bge(dest) => label_line("\tbge ", dest),
        Directive::Bgt(dest) => label_line("\tbgt ", dest),
        Directive::Ble(dest) => label_line("\tble ", dest),
        Directive::Br(dest) => {
            let mut line = "\tbr ".to_owned();
            append_operand(&mut line, dest);
            line
        },
        Directive::Str(dest, src) => two_operand_line("\tstr ", src, dest),
        Directive::Ldr(dest, src) => two_operand_line("\tldr ", dest, src),
        Directive::Stp(src1, src2, dest) => three_operand_line("\tstp ", src1, src2, dest),
        Directive::Ldp(dest1, dest2, src) => three_operand_line("\tldp ", dest1, dest2, src),
        Directive::Bl(dest) => label_line("\tbl ", dest),
        Directive::Ret => "\tret".to_owned(),
        Directive::Comment(s) => joined("// ", s.as_str()),
    }
}

} // verus!
