//! What compiled code owes its caller: the registers that a function has to
//! keep are the same after it returns as before it was called.

use vstd::prelude::*;

use crate::assembly::{Instruction, Register, XmmRegister};
use crate::execution::{field_address, stands_at, Program};
use crate::jit_compiler::{
    entry_code, epilogue_code, exit_code, kept_xmm, load_frame_code, prologue_code,
    restore_xmm_code, save_xmm_code, store_len_code, FRAME_SIZE, FRAME_STACK_LEN,
    FRAME_STACK_PTR, FRAME_TAG_PTR,
};
use crate::layout::law_epilogue_placed;
use crate::machine::{law_steps_compose, step, steps, wrap, Cpu, World};

verus! {

/// The size of the part of the native stack that a compiled function uses,
/// between calls.
pub open spec fn native_frame_size() -> int {
    216
}

/// Whether the registers that the caller wants back are found on the native
/// stack.
pub open spec fn holds_saved(mem: Map<int, int>, base: int, caller: Cpu) -> bool {
    &&& mem[base + 168] == caller.gpr[Register::R15]
    &&& mem[base + 176] == caller.gpr[Register::R14]
    &&& mem[base + 184] == caller.gpr[Register::R13]
    &&& mem[base + 192] == caller.gpr[Register::R12]
    &&& mem[base + 200] == caller.gpr[Register::RBX]
    &&& mem[base + 208] == caller.gpr[Register::RBP]
    &&& holds_saved_xmm(mem, base, caller, 10)
}

/// Whether the first `n` of the SSE registers that the caller wants back are
/// found on the native stack.
pub open spec fn holds_saved_xmm(mem: Map<int, int>, base: int, caller: Cpu, n: int) -> bool {
    forall|i: int|
        0 <= i < n ==> mem[base + 16 * i] == caller.xmm[#[trigger] kept_xmm()[i]].0 && mem[base + 16
            * i + 8] == caller.xmm[kept_xmm()[i]].1
}

/// Whether a register is one that a function has to keep.
pub open spec fn callee_saved(r: Register) -> bool {
    r is RBX || r is RBP || r is R12 || r is R13 || r is R14 || r is R15
}

/// The number in the name of an SSE register that is kept.
spec fn xmm_number(x: XmmRegister) -> int {
    match x {
        XmmRegister::XMM6 => 6,
        XmmRegister::XMM7 => 7,
        XmmRegister::XMM8 => 8,
        XmmRegister::XMM9 => 9,
        XmmRegister::XMM10 => 10,
        XmmRegister::XMM11 => 11,
        XmmRegister::XMM12 => 12,
        XmmRegister::XMM13 => 13,
        XmmRegister::XMM14 => 14,
        XmmRegister::XMM15 => 15,
        _ => 0,
    }
}

proof fn lemma_kept_xmm_number(i: int)
    requires
        0 <= i < 10,
    ensures
        xmm_number(kept_xmm()[i]) == i + 6,
{
}

proof fn lemma_entry(code: Seq<Instruction>, world: World, cpu: Cpu)
    requires
        cpu.running,
        stands_at(code, cpu.pc, entry_code()),
        native_frame_size() <= cpu.gpr[Register::RSP] < 0x1_0000_0000_0000_0000,
    ensures
        ({
            let rsp = cpu.gpr[Register::RSP];
            let last = steps(code, world, cpu, 8);
            &&& last.pc == cpu.pc + 8
            &&& last.running
            &&& last.xmm == cpu.xmm
            &&& last.gpr == cpu.gpr.insert(Register::RBP, rsp - 8).insert(
                Register::RSP,
                rsp - native_frame_size(),
            )
            &&& last.mem == cpu.mem.insert(rsp - 8, cpu.gpr[Register::RBP]).insert(
                rsp - 16,
                cpu.gpr[Register::RBX],
            ).insert(rsp - 24, cpu.gpr[Register::R12]).insert(
                rsp - 32,
                cpu.gpr[Register::R13],
            ).insert(rsp - 40, cpu.gpr[Register::R14]).insert(
                rsp - 48,
                cpu.gpr[Register::R15],
            )
        }),
{
    let piece = entry_code();
    let rsp = cpu.gpr[Register::RSP];
    let g = cpu.gpr;
    let c1 = step(code, world, cpu);
    assert(piece[0] == code[cpu.pc + 0]);
    let m1 = cpu.mem.insert(rsp - 8, g[Register::RBP]);
    assert(c1 == (Cpu {
        pc: cpu.pc + 1,
        gpr: g.insert(Register::RSP, rsp - 8),
        mem: m1,
        ..cpu
    }));
    let c2 = step(code, world, c1);
    assert(piece[1] == code[cpu.pc + 1]);
    let g2 = g.insert(Register::RSP, rsp - 8).insert(Register::RBP, rsp - 8);
    assert(c2 == (Cpu { pc: cpu.pc + 2, gpr: g2, mem: m1, ..cpu }));
    let c3 = step(code, world, c2);
    assert(piece[2] == code[cpu.pc + 2]);
    let m3 = m1.insert(rsp - 16, g[Register::RBX]);
    let g3 = g2.insert(Register::RSP, rsp - 16);
    assert(c3 == (Cpu { pc: cpu.pc + 3, gpr: g3, mem: m3, ..cpu }));
    let c4 = step(code, world, c3);
    assert(piece[3] == code[cpu.pc + 3]);
    let m4 = m3.insert(rsp - 24, g[Register::R12]);
    let g4 = g3.insert(Register::RSP, rsp - 24);
    assert(c4 == (Cpu { pc: cpu.pc + 4, gpr: g4, mem: m4, ..cpu }));
    let c5 = step(code, world, c4);
    assert(piece[4] == code[cpu.pc + 4]);
    let m5 = m4.insert(rsp - 32, g[Register::R13]);
    let g5 = g4.insert(Register::RSP, rsp - 32);
    assert(c5 == (Cpu { pc: cpu.pc + 5, gpr: g5, mem: m5, ..cpu }));
    let c6 = step(code, world, c5);
    assert(piece[5] == code[cpu.pc + 5]);
    let m6 = m5.insert(rsp - 40, g[Register::R14]);
    let g6 = g5.insert(Register::RSP, rsp - 40);
    assert(c6 == (Cpu { pc: cpu.pc + 6, gpr: g6, mem: m6, ..cpu }));
    let c7 = step(code, world, c6);
    assert(piece[6] == code[cpu.pc + 6]);
    let m7 = m6.insert(rsp - 48, g[Register::R15]);
    let g7 = g6.insert(Register::RSP, rsp - 48);
    assert(c7 == (Cpu { pc: cpu.pc + 7, gpr: g7, mem: m7, ..cpu }));
    let c8 = step(code, world, c7);
    assert(piece[7] == code[cpu.pc + 7]);
    assert(c8.gpr == g7.insert(Register::RSP, rsp - 216));
    assert(c8.gpr =~= g.insert(Register::RBP, rsp - 8).insert(
        Register::RSP,
        rsp - native_frame_size(),
    ));
    assert(steps(code, world, cpu, 8) == c8) by {
        reveal_with_fuel(steps, 9);
    }
}

/// Saving the first `n` SSE registers.
proof fn lemma_save_xmm(code: Seq<Instruction>, world: World, cpu: Cpu, n: nat)
    requires
        cpu.running,
        stands_at(code, cpu.pc, save_xmm_code()),
        n <= 10,
        0 <= cpu.gpr[Register::RSP],
        cpu.gpr[Register::RSP] + 160 <= 0x1_0000_0000_0000_0000,
    ensures
        ({
            let base = cpu.gpr[Register::RSP];
            let last = steps(code, world, cpu, n);
            &&& last.pc == cpu.pc + n
            &&& last.running
            &&& last.gpr == cpu.gpr
            &&& last.xmm == cpu.xmm
            &&& holds_saved_xmm(last.mem, base, cpu, n as int)
            &&& forall|a: int|
                a < base || a >= base + 160 ==> #[trigger] last.mem[a] == cpu.mem[a]
        }),
    decreases n,
{
    let base = cpu.gpr[Register::RSP];
    if n > 0 {
        let k = n - 1;
        lemma_save_xmm(code, world, cpu, k as nat);
        let before = steps(code, world, cpu, k as nat);
        law_steps_compose(code, world, cpu, k as nat, 1);
        assert(steps(code, world, before, 1) == step(code, world, before)) by {
            reveal_with_fuel(steps, 2);
        }
        let last = step(code, world, before);
        assert(save_xmm_code()[k] == code[cpu.pc + k]);
        assert(last.mem == before.mem.insert(base + 16 * k, cpu.xmm[kept_xmm()[k]].0).insert(
            base + 16 * k + 8,
            cpu.xmm[kept_xmm()[k]].1,
        ));
        assert forall|i: int| 0 <= i < n implies last.mem[base + 16 * i]
            == cpu.xmm[#[trigger] kept_xmm()[i]].0 && last.mem[base + 16 * i + 8]
            == cpu.xmm[kept_xmm()[i]].1 by {
            if i < k {
                assert(before.mem[base + 16 * i] == cpu.xmm[kept_xmm()[i]].0);
            }
        }
    }
}

proof fn lemma_load_frame(code: Seq<Instruction>, world: World, cpu: Cpu)
    requires
        cpu.running,
        stands_at(code, cpu.pc, load_frame_code()),
    ensures
        steps(code, world, cpu, 3) == (Cpu {
            pc: cpu.pc + 3,
            gpr: cpu.gpr.insert(
                Register::RBX,
                cpu.mem[field_address(cpu, FRAME_STACK_PTR as int)],
            ).insert(Register::R12, cpu.mem[field_address(cpu, FRAME_STACK_LEN as int)]).insert(
                Register::R13,
                cpu.mem[field_address(cpu, FRAME_TAG_PTR as int)],
            ),
            ..cpu
        }),
{
    let piece = load_frame_code();
    let c1 = step(code, world, cpu);
    assert(piece[0] == code[cpu.pc + 0]);
    let c2 = step(code, world, c1);
    assert(piece[1] == code[cpu.pc + 1]);
    let c3 = step(code, world, c2);
    assert(piece[2] == code[cpu.pc + 2]);
    reveal_with_fuel(steps, 4);
}

/// The prologue saves the registers that the caller wants back, loads the
/// registers from the native frame, and leaves the native stack aligned to 16
/// bytes. It writes nowhere but on the native stack.
pub proof fn law_prologue_runs(p: Program, world: World, caller: Cpu)
    requires
        p.valid(),
        caller.running,
        caller.pc == 0,
        native_frame_size() <= caller.gpr[Register::RSP] < 0x1_0000_0000_0000_0000,
        0 <= caller.gpr[Register::RDI],
        caller.gpr[Register::RDI] + FRAME_SIZE <= 0x1_0000_0000_0000_0000,
        caller.gpr[Register::RDI] + FRAME_SIZE <= caller.gpr[Register::RSP] - native_frame_size()
            || caller.gpr[Register::RSP] <= caller.gpr[Register::RDI],
    ensures
        ({
            let rsp = caller.gpr[Register::RSP];
            let rdi = caller.gpr[Register::RDI];
            let base = rsp - native_frame_size();
            let last = p.run(world, caller, 21);
            &&& last.pc == p.start(0)
            &&& last.running
            &&& last.gpr[Register::RSP] == base
            &&& last.gpr[Register::RDI] == rdi
            &&& last.gpr[Register::RBX] == caller.mem[rdi + FRAME_STACK_PTR]
            &&& last.gpr[Register::R12] == caller.mem[rdi + FRAME_STACK_LEN]
            &&& last.gpr[Register::R13] == caller.mem[rdi + FRAME_TAG_PTR]
            &&& last.xmm == caller.xmm
            &&& holds_saved(last.mem, base, caller)
            &&& forall|a: int| a < base || a >= rsp ==> #[trigger] last.mem[a] == caller.mem[a]
            &&& rsp % 16 == 8 ==> base % 16 == 0
        }),
{
    let code = p.code();
    law_epilogue_placed(p.ops, p.helpers, p.addresses);
    let rsp = caller.gpr[Register::RSP];
    let rdi = caller.gpr[Register::RDI];
    let base = rsp - native_frame_size();
    let all = prologue_code();
    assert(stands_at(code, 0, entry_code())) by {
        assert forall|k: int| 0 <= k < 8 implies #[trigger] entry_code()[k] == code[0 + k] by {
            assert(all[k] == entry_code()[k]);
        }
    }
    assert(stands_at(code, 8, save_xmm_code())) by {
        assert forall|k: int| 0 <= k < 10 implies #[trigger] save_xmm_code()[k] == code[8
            + k] by {
            assert(all[8 + k] == save_xmm_code()[k]);
        }
    }
    assert(stands_at(code, 18, load_frame_code())) by {
        assert forall|k: int| 0 <= k < 3 implies #[trigger] load_frame_code()[k] == code[18
            + k] by {
            assert(all[18 + k] == load_frame_code()[k]);
        }
    }
    lemma_entry(code, world, caller);
    let c1 = steps(code, world, caller, 8);
    lemma_save_xmm(code, world, c1, 10);
    let c2 = steps(code, world, c1, 10);
    lemma_load_frame(code, world, c2);
    let c3 = steps(code, world, c2, 3);
    law_steps_compose(code, world, caller, 8, 10);
    law_steps_compose(code, world, caller, 18, 3);
    assert(p.run(world, caller, 21) == c3);
    assert(c3.mem == c2.mem);
    assert(c2.mem[base + 168] == c1.mem[base + 168]);
    assert(c2.mem[base + 176] == c1.mem[base + 176]);
    assert(c2.mem[base + 184] == c1.mem[base + 184]);
    assert(c2.mem[base + 192] == c1.mem[base + 192]);
    assert(c2.mem[base + 200] == c1.mem[base + 200]);
    assert(c2.mem[base + 208] == c1.mem[base + 208]);
    assert forall|i: int| 0 <= i < 10 implies c3.mem[base + 16 * i]
        == caller.xmm[#[trigger] kept_xmm()[i]].0 && c3.mem[base + 16 * i + 8]
        == caller.xmm[kept_xmm()[i]].1 by {
        assert(c2.mem[base + 16 * i] == c1.xmm[kept_xmm()[i]].0);
    }
    assert forall|a: int| a < base || a >= rsp implies #[trigger] c3.mem[a] == caller.mem[a] by {
        assert(c2.mem[a] == c1.mem[a]);
    }
    assert(c2.mem[rdi + FRAME_STACK_PTR] == caller.mem[rdi + FRAME_STACK_PTR]);
    assert(c2.mem[rdi + FRAME_STACK_LEN] == caller.mem[rdi + FRAME_STACK_LEN]);
    assert(c2.mem[rdi + FRAME_TAG_PTR] == caller.mem[rdi + FRAME_TAG_PTR]);
}

proof fn lemma_store_len(code: Seq<Instruction>, world: World, cpu: Cpu)
    requires
        cpu.running,
        stands_at(code, cpu.pc, store_len_code()),
    ensures
        steps(code, world, cpu, 2) == (Cpu {
            pc: cpu.pc + 2,
            mem: cpu.mem.insert(
                field_address(cpu, FRAME_STACK_LEN as int),
                cpu.gpr[Register::R12],
            ),
            ..cpu
        }),
{
    let piece = store_len_code();
    let c1 = step(code, world, cpu);
    assert(piece[0] == code[cpu.pc + 0]);
    let c2 = step(code, world, c1);
    assert(piece[1] == code[cpu.pc + 1]);
    reveal_with_fuel(steps, 3);
}

/// Restoring the first `n` SSE registers.
proof fn lemma_restore_xmm(code: Seq<Instruction>, world: World, cpu: Cpu, caller: Cpu, n: nat)
    requires
        cpu.running,
        stands_at(code, cpu.pc, restore_xmm_code()),
        n <= 10,
        0 <= cpu.gpr[Register::RSP],
        cpu.gpr[Register::RSP] + 160 <= 0x1_0000_0000_0000_0000,
        holds_saved_xmm(cpu.mem, cpu.gpr[Register::RSP], caller, 10),
    ensures
        ({
            let last = steps(code, world, cpu, n);
            &&& last.pc == cpu.pc + n
            &&& last.running
            &&& last.gpr == cpu.gpr
            &&& last.mem == cpu.mem
            &&& forall|i: int|
                0 <= i < n ==> last.xmm[#[trigger] kept_xmm()[i]] == caller.xmm[kept_xmm()[i]]
        }),
    decreases n,
{
    let base = cpu.gpr[Register::RSP];
    if n > 0 {
        let k = n - 1;
        lemma_restore_xmm(code, world, cpu, caller, k as nat);
        let before = steps(code, world, cpu, k as nat);
        law_steps_compose(code, world, cpu, k as nat, 1);
        assert(steps(code, world, before, 1) == step(code, world, before)) by {
            reveal_with_fuel(steps, 2);
        }
        let last = step(code, world, before);
        assert(restore_xmm_code()[k] == code[cpu.pc + k]);
        let x = kept_xmm()[k];
        assert(cpu.mem[base + 16 * k] == caller.xmm[x].0);
        assert(last.xmm == before.xmm.insert(x, caller.xmm[x]));
        assert forall|i: int| 0 <= i < n implies last.xmm[#[trigger] kept_xmm()[i]]
            == caller.xmm[kept_xmm()[i]] by {
            lemma_kept_xmm_number(i);
            lemma_kept_xmm_number(k);
        }
    }
}

proof fn lemma_exit(code: Seq<Instruction>, world: World, cpu: Cpu, caller: Cpu)
    requires
        cpu.running,
        stands_at(code, cpu.pc, exit_code()),
        0 <= cpu.gpr[Register::RSP],
        cpu.gpr[Register::RSP] + 224 <= 0x1_0000_0000_0000_0000,
        holds_saved(cpu.mem, cpu.gpr[Register::RSP], caller),
    ensures
        ({
            let last = steps(code, world, cpu, 8);
            &&& !last.running
            &&& last.mem == cpu.mem
            &&& last.xmm == cpu.xmm
            &&& last.gpr[Register::RSP] == wrap(cpu.gpr[Register::RSP] + 224)
            &&& forall|r: Register| callee_saved(r) ==> #[trigger] last.gpr[r] == caller.gpr[r]
        }),
{
    let piece = exit_code();
    let base = cpu.gpr[Register::RSP];
    let c1 = step(code, world, cpu);
    assert(piece[0] == code[cpu.pc + 0]);
    assert(c1.gpr == cpu.gpr.insert(Register::RSP, base + 168));
    assert(c1.mem == cpu.mem && c1.xmm == cpu.xmm && c1.running && c1.pc == cpu.pc + 1);
    let c2 = step(code, world, c1);
    assert(piece[1] == code[cpu.pc + 1]);
    let g2 = c1.gpr.insert(Register::RSP, base + 176).insert(
        Register::R15,
        caller.gpr[Register::R15],
    );
    assert(c2 == (Cpu { pc: cpu.pc + 2, gpr: g2, ..c1 }));
    let c3 = step(code, world, c2);
    assert(piece[2] == code[cpu.pc + 2]);
    let g3 = g2.insert(Register::RSP, base + 184).insert(
        Register::R14,
        caller.gpr[Register::R14],
    );
    assert(c3 == (Cpu { pc: cpu.pc + 3, gpr: g3, ..c1 }));
    let c4 = step(code, world, c3);
    assert(piece[3] == code[cpu.pc + 3]);
    let g4 = g3.insert(Register::RSP, base + 192).insert(
        Register::R13,
        caller.gpr[Register::R13],
    );
    assert(c4 == (Cpu { pc: cpu.pc + 4, gpr: g4, ..c1 }));
    let c5 = step(code, world, c4);
    assert(piece[4] == code[cpu.pc + 4]);
    let g5 = g4.insert(Register::RSP, base + 200).insert(
        Register::R12,
        caller.gpr[Register::R12],
    );
    assert(c5 == (Cpu { pc: cpu.pc + 5, gpr: g5, ..c1 }));
    let c6 = step(code, world, c5);
    assert(piece[5] == code[cpu.pc + 5]);
    let g6 = g5.insert(Register::RSP, base + 208).insert(
        Register::RBX,
        caller.gpr[Register::RBX],
    );
    assert(c6 == (Cpu { pc: cpu.pc + 6, gpr: g6, ..c1 }));
    let c7 = step(code, world, c6);
    assert(piece[6] == code[cpu.pc + 6]);
    let g7 = g6.insert(Register::RSP, base + 216).insert(
        Register::RBP,
        caller.gpr[Register::RBP],
    );
    assert(c7 == (Cpu { pc: cpu.pc + 7, gpr: g7, ..c1 }));
    let c8 = step(code, world, c7);
    assert(piece[7] == code[cpu.pc + 7]);
    assert(c8.gpr == g7.insert(Register::RSP, wrap(base + 224)));
    assert(steps(code, world, cpu, 8) == c8) by {
        reveal_with_fuel(steps, 9);
    }
}

/// The epilogue writes the number of slots in use back to the native frame and
/// returns, with the registers that the caller wants back as they were saved.
pub proof fn law_epilogue_runs(p: Program, world: World, cpu: Cpu, caller: Cpu)
    requires
        p.valid(),
        cpu.running,
        cpu.pc == p.epilogue(),
        0 <= cpu.gpr[Register::RSP],
        cpu.gpr[Register::RSP] + 224 <= 0x1_0000_0000_0000_0000,
        0 <= cpu.gpr[Register::RDI],
        cpu.gpr[Register::RDI] + FRAME_SIZE <= 0x1_0000_0000_0000_0000,
        cpu.gpr[Register::RDI] + FRAME_SIZE <= cpu.gpr[Register::RSP] || cpu.gpr[Register::RSP]
            + native_frame_size() <= cpu.gpr[Register::RDI],
        holds_saved(cpu.mem, cpu.gpr[Register::RSP], caller),
    ensures
        ({
            let last = p.run(world, cpu, 20);
            &&& !last.running
            &&& last.mem == cpu.mem.insert(
                cpu.gpr[Register::RDI] + FRAME_STACK_LEN,
                cpu.gpr[Register::R12],
            )
            &&& last.gpr[Register::RSP] == wrap(cpu.gpr[Register::RSP] + native_frame_size() + 8)
            &&& forall|r: Register| callee_saved(r) ==> #[trigger] last.gpr[r] == caller.gpr[r]
            &&& forall|i: int|
                0 <= i < 10 ==> last.xmm[#[trigger] kept_xmm()[i]] == caller.xmm[kept_xmm()[i]]
        }),
{
    let code = p.code();
    law_epilogue_placed(p.ops, p.helpers, p.addresses);
    let start = p.epilogue();
    let base = cpu.gpr[Register::RSP];
    let all = epilogue_code();
    assert(stands_at(code, start, store_len_code())) by {
        assert forall|k: int| 0 <= k < 2 implies #[trigger] store_len_code()[k] == code[start
            + k] by {
            assert(all[k] == store_len_code()[k]);
        }
    }
    assert(stands_at(code, start + 2, restore_xmm_code())) by {
        assert forall|k: int| 0 <= k < 10 implies #[trigger] restore_xmm_code()[k] == code[start
            + 2 + k] by {
            assert(all[2 + k] == restore_xmm_code()[k]);
        }
    }
    assert(stands_at(code, start + 12, exit_code())) by {
        assert forall|k: int| 0 <= k < 8 implies #[trigger] exit_code()[k] == code[start + 12
            + k] by {
            assert(all[12 + k] == exit_code()[k]);
        }
    }
    lemma_store_len(code, world, cpu);
    let c1 = steps(code, world, cpu, 2);
    assert forall|i: int| 0 <= i < 10 implies c1.mem[base + 16 * i]
        == caller.xmm[#[trigger] kept_xmm()[i]].0 && c1.mem[base + 16 * i + 8]
        == caller.xmm[kept_xmm()[i]].1 by {
        assert(cpu.mem[base + 16 * i] == caller.xmm[kept_xmm()[i]].0);
    }
    lemma_restore_xmm(code, world, c1, caller, 10);
    let c2 = steps(code, world, c1, 10);
    lemma_exit(code, world, c2, caller);
    let c3 = steps(code, world, c2, 8);
    law_steps_compose(code, world, cpu, 2, 10);
    law_steps_compose(code, world, cpu, 12, 8);
    assert(p.run(world, cpu, 20) == c3);
}

} // verus!
