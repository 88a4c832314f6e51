//! What compiled code does when it runs: the code of each operation has the
//! effect on the operand stack that the operation stands for.

use vstd::prelude::*;

use crate::assembly::{Instruction, Label, Register, XmmRegister};
use crate::bytecode::{Datum, Op, Value};
use crate::frame::{stored_form, stored_tag, stored_word, FrameState, TAG_NIL, TAG_NUMBER};
use crate::jit_compiler::{
    argument_code, call_entry_code, call_exit_code, chunk_code, helper_call_code, is_num_binop,
    name_len, op_body_code, op_code, HelperTable, FRAME_ERROR, FRAME_RESULT_TAG, FRAME_RESULT_VAL,
    FRAME_SIZE, FRAME_STACK_LEN, FRAME_STACK_PTR, FRAME_TAG_PTR,
};
use crate::layout::{law_label_found, law_op_placed, op_start};
use crate::machine::{law_steps_compose, step, steps, wrap, Cpu, World};

verus! {

/// A compiled chunk: its operations, and what was compiled into its code.
pub struct Program {
    pub ops: Seq<Op>,
    pub helpers: HelperTable,
    /// What the operations pass on: the addresses of their names, and the numbers
    /// of the constants that go through the helper.
    pub addresses: Seq<u64>,
}

impl Program {
    /// Whether the operations can be those of a chunk.
    pub open spec fn valid(self) -> bool {
        self.ops.len() <= usize::MAX
    }

    /// The code.
    pub open spec fn code(self) -> Seq<Instruction> {
        chunk_code(self.ops, self.helpers, self.addresses)
    }

    /// Where the code of an operation starts.
    pub open spec fn start(self, i: int) -> int {
        op_start(self.ops, self.helpers, self.addresses, i as nat)
    }

    /// Where the epilogue starts.
    pub open spec fn epilogue(self) -> int {
        self.start(self.ops.len() as int)
    }

    /// The state `n` steps later.
    pub open spec fn run(self, world: World, cpu: Cpu, n: nat) -> Cpu {
        steps(self.code(), world, cpu, n)
    }

    /// Whether one state leads to another.
    pub open spec fn reaches(self, world: World, from: Cpu, to: Cpu) -> bool {
        exists|n: nat| #[trigger] self.run(world, from, n) == to
    }

    /// Whether the processor is about to run an operation.
    pub open spec fn at_op(self, cpu: Cpu, i: int) -> bool {
        &&& self.valid()
        &&& 0 <= i < self.ops.len()
        &&& cpu.running
        &&& cpu.pc == self.start(i)
    }
}

/// What a state leads to, and what that leads to, are reached from it.
pub proof fn law_reaches_transitive(p: Program, world: World, a: Cpu, b: Cpu, c: Cpu)
    requires
        p.reaches(world, a, b),
        p.reaches(world, b, c),
    ensures
        p.reaches(world, a, c),
{
    let m = choose|m: nat| #[trigger] p.run(world, a, m) == b;
    let n = choose|n: nat| #[trigger] p.run(world, b, n) == c;
    law_steps_compose(p.code(), world, a, m, n);
    assert(p.run(world, a, m + n) == c);
}

/// The address of a word of the last slot in use, or of one near it.
pub open spec fn slot_address(cpu: Cpu, base: Register, disp: int) -> int {
    wrap(cpu.gpr[base] + 8 * cpu.gpr[Register::R12] + disp)
}

/// The address of a field of the native frame.
pub open spec fn field_address(cpu: Cpu, offset: int) -> int {
    wrap(cpu.gpr[Register::RDI] + offset)
}

/// Whether the registers and the memory show the operand stack of a frame: the
/// registers lead to its words, to its tags and to the number of slots in use.
pub open spec fn shows(cpu: Cpu, frame: FrameState) -> bool {
    let words = cpu.gpr[Register::RBX];
    let tags = cpu.gpr[Register::R13];
    &&& frame.wf()
    &&& cpu.gpr[Register::R12] == frame.len
    &&& 0 <= words
    &&& words + 8 * frame.capacity <= 0x1_0000_0000_0000_0000
    &&& 0 <= tags
    &&& tags + 8 * frame.capacity <= 0x1_0000_0000_0000_0000
    &&& words + 8 * frame.capacity <= tags || tags + 8 * frame.capacity <= words
    &&& forall|k: int|
        0 <= k < frame.capacity ==> cpu.mem[words + 8 * k] == #[trigger] frame.words[k]
    &&& forall|k: int|
        0 <= k < frame.capacity ==> cpu.mem[tags + 8 * k] == #[trigger] frame.tags[k]
}

/// A state shows a frame where the frame's arrays have the same size and place
/// as those that an earlier state showed, and each word of them is either new in
/// both, or the same as before in both.
pub proof fn law_shows_carried(cpu: Cpu, frame: FrameState, after: Cpu, f2: FrameState)
    requires
        shows(cpu, frame),
        f2.wf(),
        f2.capacity == frame.capacity,
        after.gpr[Register::RBX] == cpu.gpr[Register::RBX],
        after.gpr[Register::R13] == cpu.gpr[Register::R13],
        after.gpr[Register::R12] == f2.len,
        forall|k: int|
            0 <= k < f2.capacity ==> {
                let a = cpu.gpr[Register::RBX] + 8 * k;
                ||| after.mem[a] == #[trigger] f2.words[k]
                ||| after.mem[a] == cpu.mem[a] && f2.words[k] == frame.words[k]
            },
        forall|k: int|
            0 <= k < f2.capacity ==> {
                let a = cpu.gpr[Register::R13] + 8 * k;
                ||| after.mem[a] == #[trigger] f2.tags[k]
                ||| after.mem[a] == cpu.mem[a] && f2.tags[k] == frame.tags[k]
            },
    ensures
        shows(after, f2),
{
    let words = cpu.gpr[Register::RBX];
    let tags = cpu.gpr[Register::R13];
    assert forall|k: int| 0 <= k < f2.capacity implies after.mem[words + 8 * k]
        == #[trigger] f2.words[k] by {
        assert(cpu.mem[words + 8 * k] == frame.words[k]);
    }
    assert forall|k: int| 0 <= k < f2.capacity implies after.mem[tags + 8 * k]
        == #[trigger] f2.tags[k] by {
        assert(cpu.mem[tags + 8 * k] == frame.tags[k]);
    }
}

/// The code of an operation, in its place.
proof fn lemma_block(p: Program, i: int)
    requires
        p.valid(),
        0 <= i < p.ops.len(),
    ensures
        ({
            let block = op_code(p.ops[i], i as usize, p.helpers, p.addresses[i]);
            &&& p.start(i + 1) == p.start(i) + block.len()
            &&& 0 <= p.start(i)
            &&& p.start(i + 1) <= p.code().len()
            &&& forall|k: int|
                0 <= k < block.len() ==> #[trigger] block[k] == p.code()[p.start(i) + k]
        }),
{
    law_op_placed(p.ops, p.helpers, p.addresses, i as nat);
}

/// The state after a push of a word under a tag by compiled code.
pub open spec fn slot_pushed(cpu: Cpu, tag: int, word: int) -> Cpu {
    let len = wrap(cpu.gpr[Register::R12] + 1);
    Cpu {
        gpr: cpu.gpr.insert(Register::R12, len),
        mem: cpu.mem.insert(slot_address(cpu, Register::R13, 0), tag).insert(
            slot_address(cpu, Register::RBX, 0),
            word,
        ),
        zf: len == 0,
        ..cpu
    }
}

/// The value that a constant load pushes without help of the runtime.
pub open spec fn inline_constant(op: Op) -> Option<Datum> {
    match op {
        Op::LoadConst(Value::Int(n)) => Some(Datum::Int(n)),
        Op::LoadConst(Value::Float(bits)) => Some(Datum::Float(bits)),
        Op::LoadConst(Value::Bool(b)) => Some(Datum::Bool(b)),
        Op::LoadConst(Value::Nil) => Some(Datum::Nil),
        Op::LoadNil => Some(Datum::Nil),
        _ => None,
    }
}

/// The register that holds the word between its two moves, if it goes through
/// one.
pub open spec fn constant_loaded(cpu: Cpu, value: Datum) -> Cpu {
    if value == Datum::Nil {
        cpu
    } else {
        Cpu {
            gpr: cpu.gpr.insert(Register::RAX, stored_word(value) as int),
            ..cpu
        }
    }
}

/// The code of a constant load runs to the next operation and changes one slot
/// and the number of slots in use.
#[verifier::rlimit(30)]
pub proof fn law_constant_load_runs(p: Program, world: World, cpu: Cpu, i: int)
    requires
        p.at_op(cpu, i),
        inline_constant(p.ops[i]) is Some,
    ensures
        ({
            let value = inline_constant(p.ops[i])->0;
            p.reaches(
                world,
                cpu,
                slot_pushed(
                    constant_loaded(cpu, value),
                    stored_tag(value) as int,
                    stored_word(value) as int,
                ).at(p.start(i + 1)),
            )
        }),
{
    let code = p.code();
    let value = inline_constant(p.ops[i])->0;
    let block = op_code(p.ops[i], i as usize, p.helpers, p.addresses[i]);
    lemma_block(p, i);
    let c1 = step(code, world, cpu);
    assert(block[0] == Instruction::Label(Label::Op(i as usize)));
    assert(c1 == cpu.next());
    let c2 = step(code, world, c1);
    let c3 = step(code, world, c2);
    let c4 = step(code, world, c3);
    reveal_with_fuel(steps, 6);
    assert(block[1] == code[c1.pc]);
    if value == Datum::Nil {
        assert(block[2] == code[c2.pc]);
        assert(block[3] == code[c3.pc]);
        let last = slot_pushed(cpu, 1, 0).at(p.start(i + 1));
        assert(c4 == last);
        assert(p.run(world, cpu, 4) == last);
    } else {
        let c5 = step(code, world, c4);
        assert(c2 == constant_loaded(cpu, value).at(p.start(i) + 2));
        assert(block[2] == code[c2.pc]);
        assert(block[3] == code[c3.pc]);
        assert(block[4] == code[c4.pc]);
        let last = slot_pushed(
            constant_loaded(cpu, value),
            0,
            stored_word(value) as int,
        ).at(p.start(i + 1));
        assert(c5 == last);
        assert(p.run(world, cpu, 5) == last);
    }
}

/// A constant load by compiled code does to the operand stack what pushing the
/// constant does.
pub proof fn law_constant_load_pushes(cpu: Cpu, frame: FrameState, value: Datum)
    requires
        shows(cpu, frame),
        frame.len < frame.capacity,
        stored_form(value) is Float || value is Nil,
    ensures
        shows(
            slot_pushed(
                constant_loaded(cpu, value),
                stored_tag(value) as int,
                stored_word(value) as int,
            ),
            frame.pushed(value),
        ),
{
    let c2 = slot_pushed(
        constant_loaded(cpu, value),
        stored_tag(value) as int,
        stored_word(value) as int,
    );
    let f2 = frame.pushed(value);
    law_shows_carried(cpu, frame, c2, f2);
}

/// The state after the number of slots in use was lowered.
pub open spec fn slots_dropped(cpu: Cpu, n: int) -> Cpu {
    let len = wrap(cpu.gpr[Register::R12] - n);
    Cpu { gpr: cpu.gpr.insert(Register::R12, len), zf: len == 0, ..cpu }
}

/// The code that drops a value runs to the next operation and lowers the number
/// of slots in use by one.
pub proof fn law_pop_runs(p: Program, world: World, cpu: Cpu, i: int)
    requires
        p.at_op(cpu, i),
        p.ops[i] is Pop,
    ensures
        p.reaches(world, cpu, slots_dropped(cpu, 1).at(p.start(i + 1))),
{
    let code = p.code();
    let block = op_code(p.ops[i], i as usize, p.helpers, p.addresses[i]);
    lemma_block(p, i);
    let c1 = step(code, world, cpu);
    assert(block[0] == code[cpu.pc]);
    let c2 = step(code, world, c1);
    assert(block[1] == code[c1.pc]);
    reveal_with_fuel(steps, 3);
    let last = slots_dropped(cpu, 1).at(p.start(i + 1));
    assert(c2 == last);
    assert(p.run(world, cpu, 2) == last);
}

/// Lowering the number of slots in use in the registers lowers it in the frame.
pub proof fn law_slots_dropped_shows(cpu: Cpu, frame: FrameState, n: nat)
    requires
        shows(cpu, frame),
        n <= frame.len,
    ensures
        shows(slots_dropped(cpu, n as int), frame.resized((frame.len - n) as nat)),
{
    let c2 = slots_dropped(cpu, n as int);
    let f2 = frame.resized((frame.len - n) as nat);
    law_shows_carried(cpu, frame, c2, f2);
}

/// The code of a jump runs to the operation that the jump names, and changes
/// nothing.
pub proof fn law_jump_runs(p: Program, world: World, cpu: Cpu, i: int)
    requires
        p.at_op(cpu, i),
        p.ops[i] is Jump,
        p.ops[i]->Jump_0 < p.ops.len(),
    ensures
        p.reaches(world, cpu, cpu.at(p.start(p.ops[i]->Jump_0 as int))),
{
    let code = p.code();
    let target = p.ops[i]->Jump_0;
    let block = op_code(p.ops[i], i as usize, p.helpers, p.addresses[i]);
    lemma_block(p, i);
    law_label_found(p.ops, p.helpers, p.addresses, Label::Op(target));
    let c1 = step(code, world, cpu);
    assert(block[0] == code[cpu.pc]);
    let c2 = step(code, world, c1);
    assert(block[1] == code[c1.pc]);
    reveal_with_fuel(steps, 3);
    let last = cpu.at(p.start(target as int));
    assert(c2 == last);
    assert(p.run(world, cpu, 2) == last);
}

/// Whether a slot counts as false: nil, or the number zero.
pub open spec fn is_false(tag: int, word: int) -> bool {
    tag == TAG_NIL || (tag == TAG_NUMBER && word == 0)
}

/// The state after a conditional jump has looked at the last value.
pub open spec fn slot_tested(cpu: Cpu) -> Cpu {
    let dropped = slots_dropped(cpu, 1);
    let tag = dropped.mem[slot_address(dropped, Register::R13, 0)];
    let word = dropped.mem[slot_address(dropped, Register::RBX, 0)];
    Cpu {
        gpr: dropped.gpr.insert(Register::RDX, tag).insert(Register::RAX, word),
        zf: is_false(tag, word),
        ..dropped
    }
}

/// The code of a conditional jump drops the last value. It runs to the operation
/// that the jump names where the value counts as false, and to the next
/// operation where it does not.
#[verifier::rlimit(30)]
pub proof fn law_jump_if_false_runs(p: Program, world: World, cpu: Cpu, i: int)
    requires
        p.at_op(cpu, i),
        p.ops[i] is JumpIfFalse,
        p.ops[i]->JumpIfFalse_0 < p.ops.len(),
    ensures
        p.reaches(
            world,
            cpu,
            slot_tested(cpu).at(
                if slot_tested(cpu).zf {
                    p.start(p.ops[i]->JumpIfFalse_0 as int)
                } else {
                    p.start(i + 1)
                },
            ),
        ),
{
    let code = p.code();
    let target = p.ops[i]->JumpIfFalse_0;
    let block = op_code(p.ops[i], i as usize, p.helpers, p.addresses[i]);
    lemma_block(p, i);
    law_label_found(p.ops, p.helpers, p.addresses, Label::Op(target));
    law_label_found(p.ops, p.helpers, p.addresses, Label::JifCont(i as usize));
    let tested = slot_tested(cpu);
    let tag = tested.gpr[Register::RDX];
    let word = tested.gpr[Register::RAX];
    reveal_with_fuel(steps, 13);
    let c1 = step(code, world, cpu);
    assert(block[0] == code[cpu.pc]);
    let c2 = step(code, world, c1);
    assert(block[1] == code[c1.pc]);
    assert(c2 == slots_dropped(cpu, 1).at(p.start(i) + 2));
    let c3 = step(code, world, c2);
    assert(block[2] == code[c2.pc]);
    let c4 = step(code, world, c3);
    assert(block[3] == code[c3.pc]);
    assert(c4.gpr == tested.gpr);
    assert(c4.mem == cpu.mem && c4.xmm == cpu.xmm && c4.running && c4.pc == p.start(i) + 4);
    let c5 = step(code, world, c4);
    assert(block[4] == code[c4.pc]);
    assert(c5 == (Cpu { zf: tag == 1, ..c4 }).at(p.start(i) + 5));
    let c6 = step(code, world, c5);
    assert(block[5] == code[c5.pc]);
    assert(p.run(world, cpu, 6) == c6);
    if tag == 1 {
        assert(c6 == tested.at(p.start(target as int)));
    } else {
        let c7 = step(code, world, c6);
        assert(block[6] == code[c6.pc]);
        assert(c7 == (Cpu { zf: tag == 0, ..c4 }).at(p.start(i) + 7));
        let c8 = step(code, world, c7);
        assert(block[7] == code[c7.pc]);
        if tag != 0 {
            let c9 = step(code, world, c8);
            assert(c9 == tested.at(p.start(i + 1)));
            assert(p.run(world, cpu, 9) == c9);
        } else {
            let c9 = step(code, world, c8);
            assert(block[8] == code[c8.pc]);
            assert(c9 == (Cpu { zf: word == 0, ..c4 }).at(p.start(i) + 9));
            let c10 = step(code, world, c9);
            assert(block[9] == code[c9.pc]);
            assert(p.run(world, cpu, 10) == c10);
            if word == 0 {
                assert(c10 == tested.at(p.start(target as int)));
            } else {
                let c11 = step(code, world, c10);
                assert(block[10] == code[c10.pc]);
                assert(c11 == tested.at(p.start(i + 1)));
                assert(p.run(world, cpu, 11) == c11);
            }
        }
    }
}

/// A conditional jump looks at the last value of the operand stack, and drops
/// it: it jumps where the value is nil or the number zero.
pub proof fn law_jump_if_false_tests(cpu: Cpu, frame: FrameState)
    requires
        shows(cpu, frame),
        frame.len > 0,
    ensures
        slot_tested(cpu).zf == is_false(
            frame.tags[frame.len - 1] as int,
            frame.words[frame.len - 1] as int,
        ),
        shows(slot_tested(cpu), frame.resized((frame.len - 1) as nat)),
{
    law_slots_dropped_shows(cpu, frame, 1);
    let last = frame.len - 1;
    assert(cpu.mem[cpu.gpr[Register::RBX] + 8 * last] == frame.words[last]);
    assert(cpu.mem[cpu.gpr[Register::R13] + 8 * last] == frame.tags[last]);
}

/// The state after the last value was dropped and put into the result words of
/// the native frame.
pub open spec fn result_stored(cpu: Cpu) -> Cpu {
    let dropped = slots_dropped(cpu, 1);
    let tag = dropped.mem[slot_address(dropped, Register::R13, 0)];
    let with_tag = dropped.mem.insert(field_address(cpu, FRAME_RESULT_TAG as int), tag);
    let word = with_tag[slot_address(dropped, Register::RBX, 0)];
    Cpu {
        gpr: dropped.gpr.insert(Register::RDX, tag).insert(Register::RAX, word),
        mem: with_tag.insert(field_address(cpu, FRAME_RESULT_VAL as int), word),
        ..dropped
    }
}

/// The code of a return puts the last value into the result words and runs to
/// the epilogue.
pub proof fn law_return_runs(p: Program, world: World, cpu: Cpu, i: int)
    requires
        p.at_op(cpu, i),
        p.ops[i] is Return,
    ensures
        p.reaches(world, cpu, result_stored(cpu).at(p.epilogue())),
{
    let code = p.code();
    let block = op_code(p.ops[i], i as usize, p.helpers, p.addresses[i]);
    lemma_block(p, i);
    law_label_found(p.ops, p.helpers, p.addresses, Label::Epilogue);
    reveal_with_fuel(steps, 8);
    let c1 = step(code, world, cpu);
    assert(block[0] == code[cpu.pc]);
    let c2 = step(code, world, c1);
    assert(block[1] == code[c1.pc]);
    assert(c2 == slots_dropped(cpu, 1).at(p.start(i) + 2));
    let c3 = step(code, world, c2);
    assert(block[2] == code[c2.pc]);
    let c4 = step(code, world, c3);
    assert(block[3] == code[c3.pc]);
    let c5 = step(code, world, c4);
    assert(block[4] == code[c4.pc]);
    let c6 = step(code, world, c5);
    assert(block[5] == code[c5.pc]);
    let c7 = step(code, world, c6);
    assert(block[6] == code[c6.pc]);
    let last = result_stored(cpu).at(p.epilogue());
    assert(c7.gpr == last.gpr);
    assert(c7.mem == last.mem);
    assert(c7 == last);
    assert(p.run(world, cpu, 7) == last);
}

/// Whether the native frame lies apart from the arrays of the operand stack.
pub open spec fn frame_apart(cpu: Cpu, frame: FrameState) -> bool {
    let base = cpu.gpr[Register::RDI];
    let words = cpu.gpr[Register::RBX];
    let tags = cpu.gpr[Register::R13];
    &&& 0 <= base
    &&& base + FRAME_SIZE <= 0x1_0000_0000_0000_0000
    &&& base + FRAME_SIZE <= words || words + 8 * frame.capacity <= base
    &&& base + FRAME_SIZE <= tags || tags + 8 * frame.capacity <= base
}

/// A return puts the tag and the word of the last value of the operand stack
/// into the result words, and drops it. No other slot changes.
pub proof fn law_return_stores(cpu: Cpu, frame: FrameState)
    requires
        shows(cpu, frame),
        frame_apart(cpu, frame),
        frame.len > 0,
    ensures
        ({
            let c2 = result_stored(cpu);
            let base = cpu.gpr[Register::RDI];
            &&& c2.mem[base + FRAME_RESULT_TAG] == frame.tags[frame.len - 1]
            &&& c2.mem[base + FRAME_RESULT_VAL] == frame.words[frame.len - 1]
            &&& shows(c2, frame.resized((frame.len - 1) as nat))
        }),
{
    let last = frame.len - 1;
    let c2 = result_stored(cpu);
    let f2 = frame.resized(last as nat);
    let words = cpu.gpr[Register::RBX];
    let tags = cpu.gpr[Register::R13];
    assert(cpu.mem[words + 8 * last] == frame.words[last]);
    assert(cpu.mem[tags + 8 * last] == frame.tags[last]);
    law_shows_carried(cpu, frame, c2, f2);
}

/// The arithmetic of an operation.
pub open spec fn binop_function(world: World, op: Op) -> spec_fn(int, int) -> int {
    match op {
        Op::NumAdd => world.add_sd,
        Op::NumSub => world.sub_sd,
        Op::NumMul => world.mul_sd,
        _ => world.div_sd,
    }
}

/// The state after an arithmetic operation on the last two numbers.
pub open spec fn binop_done(world: World, cpu: Cpu, op: Op) -> Cpu {
    let dropped = slots_dropped(cpu, 2);
    let a = dropped.mem[slot_address(dropped, Register::RBX, 0)];
    let b = dropped.mem[slot_address(dropped, Register::RBX, 8)];
    let result = (binop_function(world, op))(a, b);
    let len = wrap(dropped.gpr[Register::R12] + 1);
    Cpu {
        gpr: dropped.gpr.insert(Register::R12, len),
        xmm: cpu.xmm.insert(XmmRegister::XMM0, (a, 0)).insert(
            XmmRegister::XMM1,
            (b, 0),
        ).insert(XmmRegister::XMM0, (result, 0)),
        mem: cpu.mem.insert(slot_address(dropped, Register::RBX, 0), result),
        zf: len == 0,
        ..cpu
    }
}

/// The code of an arithmetic operation runs to the next operation, and leaves
/// the result of the operation in the slot of the first operand.
#[verifier::rlimit(30)]
pub proof fn law_binop_runs(p: Program, world: World, cpu: Cpu, i: int)
    requires
        p.at_op(cpu, i),
        is_num_binop(p.ops[i]),
    ensures
        p.reaches(world, cpu, binop_done(world, cpu, p.ops[i]).at(p.start(i + 1))),
{
    let code = p.code();
    let op = p.ops[i];
    let block = op_code(op, i as usize, p.helpers, p.addresses[i]);
    lemma_block(p, i);
    reveal_with_fuel(steps, 8);
    let c1 = step(code, world, cpu);
    assert(block[0] == code[cpu.pc]);
    let c2 = step(code, world, c1);
    assert(block[1] == code[c1.pc]);
    assert(c2 == slots_dropped(cpu, 2).at(p.start(i) + 2));
    let c3 = step(code, world, c2);
    assert(block[2] == code[c2.pc]);
    let c4 = step(code, world, c3);
    assert(block[3] == code[c3.pc]);
    let c5 = step(code, world, c4);
    assert(block[4] == code[c4.pc]);
    let c6 = step(code, world, c5);
    assert(block[5] == code[c5.pc]);
    let c7 = step(code, world, c6);
    assert(block[6] == code[c6.pc]);
    let last = binop_done(world, cpu, op).at(p.start(i + 1));
    assert(c5.xmm == last.xmm);
    assert(c7.gpr =~= last.gpr);
    assert(c7 == last);
    assert(p.run(world, cpu, 7) == last);
}

/// The frame after an arithmetic operation: the result in place of the two
/// operands. The slot keeps the tag of the first operand.
pub open spec fn binop_replaced(frame: FrameState, result: u64) -> FrameState {
    FrameState {
        words: frame.words.update(frame.len - 2, result),
        len: (frame.len - 1) as nat,
        ..frame
    }
}

/// An arithmetic operation by compiled code puts the result in place of the two
/// operands.
pub proof fn law_binop_replaces(world: World, cpu: Cpu, frame: FrameState, op: Op, result: u64)
    requires
        shows(cpu, frame),
        frame.len >= 2,
        result == (binop_function(world, op))(
            frame.words[frame.len - 2] as int,
            frame.words[frame.len - 1] as int,
        ),
    ensures
        shows(binop_done(world, cpu, op), binop_replaced(frame, result)),
{
    let first = frame.len - 2;
    let c2 = binop_done(world, cpu, op);
    let words = cpu.gpr[Register::RBX];
    assert(cpu.mem[words + 8 * first] == frame.words[first]);
    assert(cpu.mem[words + 8 * (first + 1)] == frame.words[first + 1]);
    law_shows_carried(cpu, frame, c2, binop_replaced(frame, result));
}

/// On two numbers, an arithmetic operation does to the frame what popping both
/// and pushing the result does.
pub proof fn law_binop_pops_and_pushes(frame: FrameState, result: u64)
    requires
        frame.wf(),
        frame.len >= 2,
        frame.tags[frame.len - 2] == TAG_NUMBER,
        frame.tags[frame.len - 1] == TAG_NUMBER,
    ensures
        binop_replaced(frame, result) == frame.popped().popped().pushed(Datum::Float(result)),
{
    assert(frame.tags.update(frame.len - 2, TAG_NUMBER) =~= frame.tags);
}

/// A call of a runtime helper: its address, and the arguments beside the frame.
pub struct HelperCall {
    pub helper: u64,
    pub arg1: Option<u64>,
    pub arg2: Option<u64>,
}

/// The call that an operation makes, if it is not done in place.
pub open spec fn helper_call(
    op: Op,
    i: usize,
    helpers: HelperTable,
    address: u64,
) -> Option<HelperCall> {
    match op {
        Op::LoadConst(Value::Object(_)) => Some(
            HelperCall { helper: helpers.make_const as u64, arg1: Some(address), arg2: None },
        ),
        Op::LoadVar(name) => Some(
            HelperCall {
                helper: helpers.load_var as u64,
                arg1: Some(address),
                arg2: Some(name_len(name)),
            },
        ),
        Op::StoreVar(name) => Some(
            HelperCall {
                helper: helpers.store_var as u64,
                arg1: Some(address),
                arg2: Some(name_len(name)),
            },
        ),
        Op::AssignVar(name) => Some(
            HelperCall {
                helper: helpers.assign_var as u64,
                arg1: Some(address),
                arg2: Some(name_len(name)),
            },
        ),
        Op::StoreSelf(name) => Some(
            HelperCall {
                helper: helpers.store_self as u64,
                arg1: Some(address),
                arg2: Some(name_len(name)),
            },
        ),
        Op::Call(n) => Some(
            HelperCall { helper: helpers.call as u64, arg1: Some(n as u64), arg2: None },
        ),
        Op::TailCall(n) => Some(
            HelperCall { helper: helpers.tail_call as u64, arg1: Some(n as u64), arg2: None },
        ),
        Op::MakeFunc { .. } => Some(
            HelperCall { helper: helpers.make_func as u64, arg1: Some(i as u64), arg2: None },
        ),
        Op::MakeList(n) => Some(
            HelperCall { helper: helpers.make_list as u64, arg1: Some(n as u64), arg2: None },
        ),
        Op::TreeEval(expr) => Some(
            HelperCall {
                helper: helpers.tree_eval as u64,
                arg1: Some(expr.address),
                arg2: None,
            },
        ),
        Op::PrependList => Some(
            HelperCall { helper: helpers.prepend_list as u64, arg1: None, arg2: None },
        ),
        Op::AppendSplice => Some(
            HelperCall { helper: helpers.append_splice as u64, arg1: None, arg2: None },
        ),
        Op::PushEnv => Some(
            HelperCall { helper: helpers.push_env as u64, arg1: None, arg2: None },
        ),
        Op::PopEnv => Some(
            HelperCall { helper: helpers.pop_env as u64, arg1: None, arg2: None },
        ),
        Op::NumEq => Some(HelperCall { helper: helpers.num_eq as u64, arg1: None, arg2: None }),
        Op::NumLt => Some(HelperCall { helper: helpers.num_lt as u64, arg1: None, arg2: None }),
        Op::NumGt => Some(HelperCall { helper: helpers.num_gt as u64, arg1: None, arg2: None }),
        _ => None,
    }
}

/// Whether a piece of code stands at an index.
pub open spec fn stands_at(
    code: Seq<Instruction>,
    pc: int,
    piece: Seq<Instruction>,
) -> bool {
    &&& 0 <= pc
    &&& pc + piece.len() <= code.len()
    &&& forall|k: int| 0 <= k < piece.len() ==> #[trigger] piece[k] == code[pc + k]
}

/// The state behind the code that prepares a call.
pub open spec fn call_entered(cpu: Cpu) -> Cpu {
    let rsp = cpu.gpr[Register::RSP];
    let low = wrap(wrap(rsp - 8) - 8);
    Cpu {
        gpr: cpu.gpr.insert(Register::RSP, low),
        mem: cpu.mem.insert(
            field_address(cpu, FRAME_STACK_LEN as int),
            cpu.gpr[Register::R12],
        ).insert(wrap(rsp - 8), cpu.gpr[Register::RDI]),
        zf: low == 0,
        ..cpu
    }
}

/// The state with an argument in its register, where there is one.
pub open spec fn argument_loaded(cpu: Cpu, r: Register, argument: Option<u64>) -> Cpu {
    match argument {
        Some(word) => Cpu { gpr: cpu.gpr.insert(r, word as int), ..cpu },
        None => cpu,
    }
}

/// The state in which the helper is called, but for the place in the code.
pub open spec fn call_made(cpu: Cpu, call: HelperCall) -> Cpu {
    argument_loaded(
        argument_loaded(
            argument_loaded(call_entered(cpu), Register::RSI, call.arg1),
            Register::RDX,
            call.arg2,
        ),
        Register::RAX,
        Some(call.helper),
    )
}

/// The state after the registers were loaded again behind a call that has
/// returned in a given state.
pub open spec fn call_left(returned: Cpu) -> Cpu {
    let saved = wrap(returned.gpr[Register::RSP] + 8);
    let frame = returned.mem[saved];
    let error = returned.mem[wrap(frame + FRAME_ERROR)];
    Cpu {
        gpr: returned.gpr.insert(Register::RSP, wrap(saved + 8)).insert(
            Register::RDI,
            frame,
        ).insert(Register::RBX, returned.mem[wrap(frame + FRAME_STACK_PTR)]).insert(
            Register::R12,
            returned.mem[wrap(frame + FRAME_STACK_LEN)],
        ).insert(Register::R13, returned.mem[wrap(frame + FRAME_TAG_PTR)]).insert(
            Register::RAX,
            error,
        ),
        zf: error == 0,
        running: true,
        ..returned
    }
}

proof fn lemma_call_entry(code: Seq<Instruction>, world: World, cpu: Cpu)
    requires
        cpu.running,
        stands_at(code, cpu.pc, call_entry_code()),
    ensures
        steps(code, world, cpu, 3) == call_entered(cpu).at(cpu.pc + 3),
{
    let piece = call_entry_code();
    reveal_with_fuel(steps, 4);
    let c1 = step(code, world, cpu);
    assert(piece[0] == code[cpu.pc + 0]);
    let c2 = step(code, world, c1);
    assert(piece[1] == code[cpu.pc + 1]);
    let c3 = step(code, world, c2);
    assert(piece[2] == code[cpu.pc + 2]);
    let last = call_entered(cpu).at(cpu.pc + 3);
    assert(c3.gpr =~= last.gpr);
    assert(c3 == last);
}

proof fn lemma_argument(
    code: Seq<Instruction>,
    world: World,
    cpu: Cpu,
    r: Register,
    argument: Option<u64>,
)
    requires
        cpu.running,
        stands_at(code, cpu.pc, argument_code(r, argument)),
    ensures
        steps(code, world, cpu, argument_code(r, argument).len()) == argument_loaded(
            cpu,
            r,
            argument,
        ).at(cpu.pc + argument_code(r, argument).len()),
{
    let piece = argument_code(r, argument);
    reveal_with_fuel(steps, 2);
    if argument is Some {
        assert(piece[0] == code[cpu.pc + 0]);
    }
}

/// Where the code behind the call leads.
pub open spec fn call_continues(p: Program, i: int, returned: Cpu) -> int {
    if call_left(returned).zf {
        p.start(i + 1)
    } else {
        p.epilogue()
    }
}

proof fn lemma_call_exit(p: Program, world: World, cpu: Cpu, helper: u64, i: int)
    requires
        p.valid(),
        cpu.running,
        stands_at(p.code(), cpu.pc, call_exit_code(helper)),
        p.start(i + 1) == cpu.pc + call_exit_code(helper).len(),
    ensures
        ({
            let called = argument_loaded(cpu, Register::RAX, Some(helper)).at(cpu.pc + 1);
            let returned = (world.callee)(helper as int, called);
            steps(p.code(), world, cpu, 10) == call_left(returned).at(
                call_continues(p, i, returned),
            )
        }),
{
    let code = p.code();
    let piece = call_exit_code(helper);
    law_label_found(p.ops, p.helpers, p.addresses, Label::Epilogue);
    let called = argument_loaded(cpu, Register::RAX, Some(helper)).at(cpu.pc + 1);
    let returned = (world.callee)(helper as int, called);
    let c1 = step(code, world, cpu);
    assert(piece[0] == code[cpu.pc + 0]);
    assert(c1 == called);
    let c2 = step(code, world, c1);
    assert(piece[1] == code[cpu.pc + 1]);
    assert(c2 == (Cpu { pc: cpu.pc + 2, running: true, ..returned }));
    let saved = wrap(returned.gpr[Register::RSP] + 8);
    let frame = returned.mem[saved];
    let g3 = returned.gpr.insert(Register::RSP, saved);
    let c3 = step(code, world, c2);
    assert(piece[2] == code[cpu.pc + 2]);
    assert(c3 == (Cpu {
        pc: cpu.pc + 3,
        gpr: g3,
        zf: saved == 0,
        running: true,
        ..returned
    }));
    let g4 = g3.insert(Register::RSP, wrap(saved + 8)).insert(Register::RDI, frame);
    let c4 = step(code, world, c3);
    assert(piece[3] == code[cpu.pc + 3]);
    assert(c4 == (Cpu { pc: cpu.pc + 4, gpr: g4, ..c3 }));
    let g5 = g4.insert(Register::RBX, returned.mem[wrap(frame + FRAME_STACK_PTR)]);
    let c5 = step(code, world, c4);
    assert(piece[4] == code[cpu.pc + 4]);
    assert(c5 == (Cpu { pc: cpu.pc + 5, gpr: g5, ..c3 }));
    let g6 = g5.insert(Register::R12, returned.mem[wrap(frame + FRAME_STACK_LEN)]);
    let c6 = step(code, world, c5);
    assert(piece[5] == code[cpu.pc + 5]);
    assert(c6 == (Cpu { pc: cpu.pc + 6, gpr: g6, ..c3 }));
    let g7 = g6.insert(Register::R13, returned.mem[wrap(frame + FRAME_TAG_PTR)]);
    let c7 = step(code, world, c6);
    assert(piece[6] == code[cpu.pc + 6]);
    assert(c7 == (Cpu { pc: cpu.pc + 7, gpr: g7, ..c3 }));
    let error = returned.mem[wrap(frame + FRAME_ERROR)];
    let g8 = g7.insert(Register::RAX, error);
    let c8 = step(code, world, c7);
    assert(piece[7] == code[cpu.pc + 7]);
    assert(c8 == (Cpu { pc: cpu.pc + 8, gpr: g8, ..c3 }));
    let left = call_left(returned);
    assert(g8 =~= left.gpr);
    let c9 = step(code, world, c8);
    assert(piece[8] == code[cpu.pc + 8]);
    assert(c9 == left.at(cpu.pc + 9));
    let c10 = step(code, world, c9);
    assert(piece[9] == code[cpu.pc + 9]);
    assert(c10 == left.at(call_continues(p, i, returned)));
    assert(steps(code, world, cpu, 10) == c10) by {
        reveal_with_fuel(steps, 11);
    }
}

/// The code of an operation that is not done in place calls its helper, and
/// then runs to the next operation, or to the epilogue where the helper has
/// noted an error.
#[verifier::rlimit(30)]
pub proof fn law_helper_call_runs(p: Program, world: World, cpu: Cpu, i: int)
    requires
        p.at_op(cpu, i),
        helper_call(p.ops[i], i as usize, p.helpers, p.addresses[i]) is Some,
    ensures
        ({
            let call = helper_call(p.ops[i], i as usize, p.helpers, p.addresses[i])->0;
            let called = call_made(cpu, call).at(p.start(i + 1) - 9);
            let returned = (world.callee)(call.helper as int, called);
            p.reaches(
                world,
                cpu,
                call_left(returned).at(call_continues(p, i, returned)),
            )
        }),
{
    let code = p.code();
    let op = p.ops[i];
    let call = helper_call(op, i as usize, p.helpers, p.addresses[i])->0;
    let block = op_code(op, i as usize, p.helpers, p.addresses[i]);
    lemma_block(p, i);
    let entry = call_entry_code();
    let first = argument_code(Register::RSI, call.arg1);
    let second = argument_code(Register::RDX, call.arg2);
    let exit = call_exit_code(call.helper);
    assert(op_body_code(op, i as usize, p.helpers, p.addresses[i]) == helper_call_code(
        call.helper,
        call.arg1,
        call.arg2,
    ));
    let body = entry + first + second + exit;
    assert(block == seq![Instruction::Label(Label::Op(i as usize))] + body);
    let pc = p.start(i);
    let pc2 = pc + 1 + entry.len();
    let pc3 = pc2 + first.len();
    let pc4 = pc3 + second.len();
    assert(stands_at(code, pc + 1, entry)) by {
        assert forall|k: int| 0 <= k < entry.len() implies #[trigger] entry[k] == code[pc + 1
            + k] by {
            assert(block[1 + k] == entry[k]);
        }
    }
    assert(stands_at(code, pc2, first)) by {
        assert forall|k: int| 0 <= k < first.len() implies #[trigger] first[k] == code[pc2
            + k] by {
            assert(block[1 + entry.len() + k] == first[k]);
        }
    }
    assert(stands_at(code, pc3, second)) by {
        assert forall|k: int| 0 <= k < second.len() implies #[trigger] second[k] == code[pc3
            + k] by {
            assert(block[1 + entry.len() + first.len() + k] == second[k]);
        }
    }
    assert(stands_at(code, pc4, exit)) by {
        assert forall|k: int| 0 <= k < exit.len() implies #[trigger] exit[k] == code[pc4
            + k] by {
            assert(block[1 + entry.len() + first.len() + second.len() + k] == exit[k]);
        }
    }
    let c1 = step(code, world, cpu);
    assert(block[0] == code[cpu.pc]);
    assert(c1 == cpu.at(pc + 1));
    assert(steps(code, world, cpu, 1) == c1) by {
        reveal_with_fuel(steps, 2);
    }
    lemma_call_entry(code, world, c1);
    let c2 = call_entered(cpu).at(pc2);
    assert(steps(code, world, c1, 3) == c2);
    lemma_argument(code, world, c2, Register::RSI, call.arg1);
    let c3 = argument_loaded(c2, Register::RSI, call.arg1).at(pc3);
    lemma_argument(code, world, c3, Register::RDX, call.arg2);
    let c4 = argument_loaded(c3, Register::RDX, call.arg2).at(pc4);
    lemma_call_exit(p, world, c4, call.helper, i);
    let called = call_made(cpu, call).at(p.start(i + 1) - 9);
    assert(argument_loaded(c4, Register::RAX, Some(call.helper)).at(pc4 + 1) == called);
    let returned = (world.callee)(call.helper as int, called);
    let last = call_left(returned).at(call_continues(p, i, returned));
    law_steps_compose(code, world, cpu, 1, 3);
    law_steps_compose(code, world, cpu, 4, first.len());
    law_steps_compose(code, world, cpu, 4 + first.len(), second.len());
    law_steps_compose(code, world, cpu, 4 + first.len() + second.len(), 10);
    assert(p.run(world, cpu, 4 + first.len() + second.len() + 10) == last);
}

/// Whether a function that was called keeps to the calling convention: it gives
/// the native stack pointer back, and leaves alone what its caller has put on
/// the native stack.
pub open spec fn keeps_convention(called: Cpu, returned: Cpu) -> bool {
    let rsp = called.gpr[Register::RSP];
    &&& returned.gpr[Register::RSP] == rsp
    &&& returned.mem[wrap(rsp + 8)] == called.mem[wrap(rsp + 8)]
}

/// A helper gets the frame and its arguments in the argument registers, and the
/// number of slots in use in the frame, with the native stack aligned to 16
/// bytes. Where it keeps to the calling convention, the frame and the native
/// stack pointer are the same before and after the code of the operation, and
/// the other registers show what the helper has left in the frame.
pub proof fn law_helper_call_convention(cpu: Cpu, call: HelperCall, returned: Cpu)
    requires
        16 <= cpu.gpr[Register::RSP] < 0x1_0000_0000_0000_0000,
        0 <= cpu.gpr[Register::RDI],
        cpu.gpr[Register::RDI] + FRAME_SIZE <= 0x1_0000_0000_0000_0000,
        cpu.gpr[Register::RDI] + FRAME_STACK_LEN != cpu.gpr[Register::RSP] - 8,
        keeps_convention(call_made(cpu, call), returned),
    ensures
        ({
            let called = call_made(cpu, call);
            let left = call_left(returned);
            let rdi = cpu.gpr[Register::RDI];
            &&& called.gpr[Register::RDI] == rdi
            &&& call.arg1 matches Some(word) ==> called.gpr[Register::RSI] == word
            &&& call.arg2 matches Some(word) ==> called.gpr[Register::RDX] == word
            &&& called.mem[rdi + FRAME_STACK_LEN] == cpu.gpr[Register::R12]
            &&& cpu.gpr[Register::RSP] % 16 == 0 ==> called.gpr[Register::RSP] % 16 == 0
            &&& left.gpr[Register::RSP] == cpu.gpr[Register::RSP]
            &&& left.gpr[Register::RDI] == rdi
            &&& left.gpr[Register::RBX] == returned.mem[rdi + FRAME_STACK_PTR]
            &&& left.gpr[Register::R12] == returned.mem[rdi + FRAME_STACK_LEN]
            &&& left.gpr[Register::R13] == returned.mem[rdi + FRAME_TAG_PTR]
            &&& left.zf == (returned.mem[rdi + FRAME_ERROR] == 0)
            &&& left.mem == returned.mem
        }),
{
    let rsp = cpu.gpr[Register::RSP];
    let called = call_made(cpu, call);
    assert(called.gpr[Register::RSP] == rsp - 16);
    assert(called.mem[rsp - 8] == cpu.gpr[Register::RDI]);
}

} // verus!
