//! A model of the processor that runs compiled code: what each instruction does
//! to the registers and to the memory.
//!
//! Memory is a map from addresses to 64-bit words, and every access is to a
//! whole word (or, for the SSE moves of 16 bytes, to two of them).

use vstd::prelude::*;

use crate::assembly::{Instruction, Label, MemoryAddr, Operand, Register, XmmRegister};

verus! {

/// A number as a 64-bit word.
pub open spec fn wrap(x: int) -> int {
    x % 0x1_0000_0000_0000_0000
}

/// The state of the processor and of the memory.
#[verifier::ext_equal]
pub struct Cpu {
    /// The index of the next instruction.
    pub pc: int,
    /// The general-purpose registers.
    pub gpr: Map<Register, int>,
    /// The SSE registers, each as its low and its high word.
    pub xmm: Map<XmmRegister, (int, int)>,
    /// The memory.
    pub mem: Map<int, int>,
    /// Whether the last comparison found its operands equal.
    pub zf: bool,
    /// Whether the function has not returned yet.
    pub running: bool,
}

/// What the compiled code relies on: arithmetic on doubles, by their bit
/// patterns, and the functions that it calls, by their addresses.
pub struct World {
    pub add_sd: spec_fn(int, int) -> int,
    pub sub_sd: spec_fn(int, int) -> int,
    pub mul_sd: spec_fn(int, int) -> int,
    pub div_sd: spec_fn(int, int) -> int,
    pub callee: spec_fn(int, Cpu) -> Cpu,
}

/// An index times a scale factor.
pub open spec fn times(index: int, scale: u8) -> int {
    if scale == 1 {
        index
    } else if scale == 2 {
        2 * index
    } else if scale == 4 {
        4 * index
    } else {
        8 * index
    }
}

impl Cpu {
    /// The address that a memory operand stands for.
    pub open spec fn address(self, addr: MemoryAddr) -> int {
        let base = match addr.base {
            Some(r) => self.gpr[r],
            None => 0,
        };
        let index = match addr.index {
            Some(r) => times(self.gpr[r], addr.scale),
            None => 0,
        };
        wrap(base + index + addr.disp)
    }

    /// The word that an operand stands for.
    pub open spec fn read(self, operand: Operand) -> int {
        match operand {
            Operand::Reg(r) => self.gpr[r],
            Operand::Xmm(x) => self.xmm[x].0,
            Operand::Mem(addr) => self.mem[self.address(addr)],
            Operand::Imm32(n) => wrap(n as int),
            Operand::Imm64(n) => n as int,
        }
    }

    /// The state with a word written where an operand says.
    pub open spec fn write(self, operand: Operand, word: int) -> Cpu {
        match operand {
            Operand::Reg(r) => Cpu { gpr: self.gpr.insert(r, word), ..self },
            Operand::Mem(addr) => Cpu {
                mem: self.mem.insert(self.address(addr), word),
                ..self
            },
            _ => self,
        }
    }

    /// The state at another instruction.
    pub open spec fn at(self, pc: int) -> Cpu {
        Cpu { pc, ..self }
    }

    /// The state at the next instruction.
    pub open spec fn next(self) -> Cpu {
        self.at(self.pc + 1)
    }

    /// The state after a word was pushed on the native stack.
    pub open spec fn push(self, word: int) -> Cpu {
        let rsp = wrap(self.gpr[Register::RSP] - 8);
        Cpu {
            gpr: self.gpr.insert(Register::RSP, rsp),
            mem: self.mem.insert(rsp, word),
            ..self
        }
    }

    /// The state after a word was popped off the native stack into a register.
    pub open spec fn pop(self, r: Register) -> Cpu {
        let rsp = self.gpr[Register::RSP];
        Cpu {
            gpr: self.gpr.insert(Register::RSP, wrap(rsp + 8)).insert(r, self.mem[rsp]),
            ..self
        }
    }

    /// The state after an addition or subtraction.
    pub open spec fn computed(self, operand: Operand, result: int) -> Cpu {
        Cpu { zf: result == 0, ..self.write(operand, result) }
    }

    /// The state after an operation on the low words of two SSE registers.
    pub open spec fn scalar(
        self,
        a: Operand,
        b: Operand,
        f: spec_fn(int, int) -> int,
    ) -> Cpu {
        match a {
            Operand::Xmm(x) => Cpu {
                xmm: self.xmm.insert(x, (f(self.read(a), self.read(b)), self.xmm[x].1)),
                ..self
            },
            _ => self,
        }
    }
}

/// The index of the definition of a label.
pub open spec fn label_index(code: Seq<Instruction>, label: Label) -> int {
    choose|p: int| 0 <= p < code.len() && #[trigger] code[p] == Instruction::Label(label)
}

/// The state after one instruction.
pub open spec fn perform(
    code: Seq<Instruction>,
    world: World,
    cpu: Cpu,
    instruction: Instruction,
) -> Cpu {
    match instruction {
        Instruction::Label(_) => cpu.next(),
        Instruction::Push(o) => cpu.push(cpu.read(o)).next(),
        Instruction::Pop(Operand::Reg(r)) => cpu.pop(r).next(),
        Instruction::Pop(_) => cpu.next(),
        Instruction::Mov(dst, src) => cpu.write(dst, cpu.read(src)).next(),
        Instruction::Add(dst, src) => cpu.computed(
            dst,
            wrap(cpu.read(dst) + cpu.read(src)),
        ).next(),
        Instruction::Sub(dst, src) => cpu.computed(
            dst,
            wrap(cpu.read(dst) - cpu.read(src)),
        ).next(),
        Instruction::Cmp(a, b) => Cpu { zf: cpu.read(a) == cpu.read(b), ..cpu.next() },
        Instruction::JmpLabel(l) => cpu.at(label_index(code, l)),
        Instruction::JeLabel(l) => if cpu.zf {
            cpu.at(label_index(code, l))
        } else {
            cpu.next()
        },
        Instruction::JneLabel(l) => if cpu.zf {
            cpu.next()
        } else {
            cpu.at(label_index(code, l))
        },
        Instruction::Call(o) => Cpu {
            pc: cpu.pc + 1,
            running: true,
            ..(world.callee)(cpu.read(o), cpu)
        },
        Instruction::Ret => Cpu {
            gpr: cpu.gpr.insert(Register::RSP, wrap(cpu.gpr[Register::RSP] + 8)),
            running: false,
            ..cpu
        },
        Instruction::Movsd(Operand::Xmm(x), src) => Cpu {
            xmm: cpu.xmm.insert(x, (cpu.read(src), 0)),
            ..cpu.next()
        },
        Instruction::Movsd(dst, src) => cpu.write(dst, cpu.read(src)).next(),
        Instruction::Movdqa(Operand::Mem(addr), Operand::Xmm(x)) => Cpu {
            mem: cpu.mem.insert(cpu.address(addr), cpu.xmm[x].0).insert(
                wrap(cpu.address(addr) + 8),
                cpu.xmm[x].1,
            ),
            ..cpu.next()
        },
        Instruction::Movdqa(Operand::Xmm(x), Operand::Mem(addr)) => Cpu {
            xmm: cpu.xmm.insert(
                x,
                (cpu.mem[cpu.address(addr)], cpu.mem[wrap(cpu.address(addr) + 8)]),
            ),
            ..cpu.next()
        },
        Instruction::Movdqa(_, _) => cpu.next(),
        Instruction::Addsd(a, b) => cpu.scalar(a, b, world.add_sd).next(),
        Instruction::Subsd(a, b) => cpu.scalar(a, b, world.sub_sd).next(),
        Instruction::Mulsd(a, b) => cpu.scalar(a, b, world.mul_sd).next(),
        Instruction::Divsd(a, b) => cpu.scalar(a, b, world.div_sd).next(),
    }
}

/// The state one step later. A function that has returned does nothing more.
pub open spec fn step(code: Seq<Instruction>, world: World, cpu: Cpu) -> Cpu {
    if cpu.running && 0 <= cpu.pc < code.len() {
        perform(code, world, cpu, code[cpu.pc])
    } else {
        cpu
    }
}

/// The state `n` steps later.
pub open spec fn steps(code: Seq<Instruction>, world: World, cpu: Cpu, n: nat) -> Cpu
    decreases n,
{
    if n == 0 {
        cpu
    } else {
        steps(code, world, step(code, world, cpu), (n - 1) as nat)
    }
}

/// Running for a while and then for another while is running for both.
pub proof fn law_steps_compose(code: Seq<Instruction>, world: World, cpu: Cpu, m: nat, n: nat)
    ensures
        steps(code, world, steps(code, world, cpu, m), n) == steps(code, world, cpu, m + n),
    decreases m,
{
    if m > 0 {
        law_steps_compose(code, world, step(code, world, cpu), (m - 1) as nat, n);
    }
}

} // verus!
