//! The x86-64 instructions that the compiler emits, as data.

use vstd::prelude::*;
use vstd::string::*;

verus! {

/// The general-purpose registers.
#[derive(Clone, Copy, Debug, PartialEq, Eq, Structural)]
pub enum Register {
    RAX,
    RBX,
    RCX,
    RDX,
    RSI,
    RDI,
    RBP,
    RSP,
    R8,
    R9,
    R10,
    R11,
    R12,
    R13,
    R14,
    R15,
}

/// The SSE registers.
#[derive(Clone, Copy, Debug, PartialEq, Eq, Structural)]
pub enum XmmRegister {
    XMM0,
    XMM1,
    XMM2,
    XMM3,
    XMM4,
    XMM5,
    XMM6,
    XMM7,
    XMM8,
    XMM9,
    XMM10,
    XMM11,
    XMM12,
    XMM13,
    XMM14,
    XMM15,
}

/// The memory operand `[base + index * scale + disp]`.
#[derive(Clone, Copy, Debug, PartialEq, Eq, Structural)]
pub struct MemoryAddr {
    pub base: Option<Register>,
    pub index: Option<Register>,
    pub scale: u8,
    pub disp: i32,
}

impl MemoryAddr {
    /// The operand `[base + disp]`.
    pub open spec fn spec_base_disp(base: Register, disp: i32) -> MemoryAddr {
        MemoryAddr { base: Some(base), index: None, scale: 1, disp }
    }

    /// The operand `[base + disp]`.
    #[verifier::when_used_as_spec(spec_base_disp)]
    pub fn base_disp(base: Register, disp: i32) -> (addr: MemoryAddr)
        ensures
            addr == MemoryAddr::spec_base_disp(base, disp),
    {
        MemoryAddr { base: Some(base), index: None, scale: 1, disp }
    }
}

/// An operand of an instruction.
#[derive(Clone, Copy, Debug, PartialEq, Eq, Structural)]
pub enum Operand {
    Reg(Register),
    Xmm(XmmRegister),
    Mem(MemoryAddr),
    Imm32(i32),
    Imm64(u64),
}

/// A jump target.
#[derive(Clone, Copy, Debug, PartialEq, Eq, Structural)]
pub enum Label {
    /// The start of the code of a bytecode operation, by its index.
    Op(usize),
    /// The end of the code of a conditional jump, by its index.
    JifCont(usize),
    /// The start of the code that leaves the compiled function.
    Epilogue,
}

/// One instruction, or the definition of a label.
#[derive(Clone, Copy, Debug, PartialEq, Eq, Structural)]
pub enum Instruction {
    Label(Label),
    Push(Operand),
    Pop(Operand),
    Mov(Operand, Operand),
    Add(Operand, Operand),
    Sub(Operand, Operand),
    Cmp(Operand, Operand),
    JmpLabel(Label),
    JeLabel(Label),
    JneLabel(Label),
    Call(Operand),
    Ret,
    Movsd(Operand, Operand),
    Movdqa(Operand, Operand),
    Addsd(Operand, Operand),
    Subsd(Operand, Operand),
    Mulsd(Operand, Operand),
    Divsd(Operand, Operand),
}

/// The character of a decimal digit.
pub open spec fn digit_char(d: nat) -> char {
    if d == 0 {
        '0'
    } else if d == 1 {
        '1'
    } else if d == 2 {
        '2'
    } else if d == 3 {
        '3'
    } else if d == 4 {
        '4'
    } else if d == 5 {
        '5'
    } else if d == 6 {
        '6'
    } else if d == 7 {
        '7'
    } else if d == 8 {
        '8'
    } else {
        '9'
    }
}

/// A number in decimal, without leading zeros.
pub open spec fn decimal(n: nat) -> Seq<char>
    decreases n,
{
    if n < 10 {
        seq![digit_char(n)]
    } else {
        decimal(n / 10).push(digit_char(n % 10))
    }
}

fn digit_text(d: usize) -> (text: &'static str)
    requires
        d < 10,
    ensures
        text@ == seq![digit_char(d as nat)],
{
    proof {
        reveal_strlit("0");
        reveal_strlit("1");
        reveal_strlit("2");
        reveal_strlit("3");
        reveal_strlit("4");
        reveal_strlit("5");
        reveal_strlit("6");
        reveal_strlit("7");
        reveal_strlit("8");
        reveal_strlit("9");
    }
    match d {
        0 => "0",
        1 => "1",
        2 => "2",
        3 => "3",
        4 => "4",
        5 => "5",
        6 => "6",
        7 => "7",
        8 => "8",
        _ => "9",
    }
}

/// Writes a number in decimal behind a prefix.
fn numbered(prefix: &str, n: usize) -> (text: String)
    ensures
        text@ == prefix@ + decimal(n as nat),
    decreases n,
{
    if n < 10 {
        let mut text = prefix.to_string();
        text.append(digit_text(n));
        text
    } else {
        let mut text = numbered(prefix, n / 10);
        text.append(digit_text(n % 10));
        assert(text@ =~= prefix@ + decimal(n as nat));
        text
    }
}

impl Label {
    /// The name of the label in the assembler's symbol table.
    pub open spec fn spec_name(self) -> Seq<char> {
        match self {
            Label::Op(i) => "op_"@ + decimal(i as nat),
            Label::JifCont(i) => "jif_cont_"@ + decimal(i as nat),
            Label::Epilogue => "epilogue"@,
        }
    }

    /// The name of the label in the assembler's symbol table: `op_` or
    /// `jif_cont_` and the index in decimal, or `epilogue`.
    pub fn name(&self) -> (text: String)
        ensures
            text@ == self.spec_name(),
    {
        match self {
            Label::Op(i) => numbered("op_", *i),
            Label::JifCont(i) => numbered("jif_cont_", *i),
            Label::Epilogue => "epilogue".to_string(),
        }
    }
}

/// Decimal representations have at least one character.
proof fn lemma_decimal_len(n: nat)
    ensures
        decimal(n).len() >= 1,
        n < 10 <==> decimal(n).len() == 1,
    decreases n,
{
    if n >= 10 {
        lemma_decimal_len(n / 10);
    }
}

proof fn lemma_digit_char_injective(a: nat, b: nat)
    requires
        a < 10,
        b < 10,
        digit_char(a) == digit_char(b),
    ensures
        a == b,
{
}

/// Two numbers with the same decimal representation are the same number.
pub proof fn law_decimal_injective(a: nat, b: nat)
    requires
        decimal(a) == decimal(b),
    ensures
        a == b,
    decreases a,
{
    lemma_decimal_len(a);
    lemma_decimal_len(b);
    if a < 10 {
        assert(decimal(a)[0] == digit_char(a));
        assert(decimal(b)[0] == digit_char(b));
        lemma_digit_char_injective(a, b);
    } else {
        let da = decimal(a / 10).push(digit_char(a % 10));
        let db = decimal(b / 10).push(digit_char(b % 10));
        assert(da == db);
        assert(da.drop_last() =~= decimal(a / 10));
        assert(db.drop_last() =~= decimal(b / 10));
        assert(da.last() == db.last());
        law_decimal_injective(a / 10, b / 10);
        lemma_digit_char_injective(a % 10, b % 10);
    }
}

proof fn lemma_label_first_char(l: Label)
    ensures
        l.spec_name().len() > 0,
        l.spec_name()[0] == (match l {
            Label::Op(_) => 'o',
            Label::JifCont(_) => 'j',
            Label::Epilogue => 'e',
        }),
{
    reveal_strlit("op_");
    reveal_strlit("jif_cont_");
    reveal_strlit("epilogue");
}

/// Different labels have different names, so no two of them collide in the
/// assembler's symbol table.
pub proof fn law_label_names_distinct(a: Label, b: Label)
    requires
        a.spec_name() == b.spec_name(),
    ensures
        a == b,
{
    reveal_strlit("op_");
    reveal_strlit("jif_cont_");
    reveal_strlit("epilogue");
    lemma_label_first_char(a);
    lemma_label_first_char(b);
    match (a, b) {
        (Label::Op(i), Label::Op(j)) => {
            assert(a.spec_name().skip(3) =~= decimal(i as nat));
            assert(b.spec_name().skip(3) =~= decimal(j as nat));
            law_decimal_injective(i as nat, j as nat);
        },
        (Label::JifCont(i), Label::JifCont(j)) => {
            assert(a.spec_name().skip(9) =~= decimal(i as nat));
            assert(b.spec_name().skip(9) =~= decimal(j as nat));
            law_decimal_injective(i as nat, j as nat);
        },
        _ => {},
    }
}

/// A growing sequence of instructions.
#[derive(Debug, PartialEq, Eq)]
pub struct Assembler {
    pub instructions: Vec<Instruction>,
}

impl View for Assembler {
    type V = Seq<Instruction>;

    open spec fn view(&self) -> Seq<Instruction> {
        self.instructions@
    }
}

impl Assembler {
    /// An assembler without instructions.
    pub fn new() -> (assembler: Assembler)
        ensures
            assembler@ == Seq::<Instruction>::empty(),
    {
        Assembler { instructions: Vec::new() }
    }

    /// Appends one instruction.
    pub fn add_instruction(&mut self, instruction: Instruction)
        ensures
            final(self)@ == old(self)@.push(instruction),
    {
        self.instructions.push(instruction);
    }
}

/// The characters of the digits, in the order of the digits.
pub proof fn law_digit_chars(d: nat)
    requires
        d < 10,
    ensures
        digit_char(d) as u32 == 48 + d,
{
}

/// A number in decimal: one digit where it has one, and else its last digit
/// behind the others.
pub proof fn law_decimal_digits(n: nat, d: nat)
    requires
        d < 10,
    ensures
        decimal(d) == seq![digit_char(d)],
        n > 0 ==> decimal(10 * n + d) == decimal(n).push(digit_char(d)),
{
}

/// The names of the labels.
pub proof fn law_label_names(i: usize)
    ensures
        Label::Op(i).spec_name() == "op_"@ + decimal(i as nat),
        Label::JifCont(i).spec_name() == "jif_cont_"@ + decimal(i as nat),
        Label::Epilogue.spec_name() == "epilogue"@,
{
}

} // verus!
