//! Running compiled code is running the bytecode: whatever the bytecode does to
//! the frame in a number of operations, the compiled code does too.

use vstd::prelude::*;
use vstd::utf8::encode_utf8;

use crate::assembly::Register;
use crate::bytecode::{Datum, Op, Value};
use crate::convention::{
    callee_saved, holds_saved, law_epilogue_runs, law_prologue_runs, native_frame_size,
};
use crate::double::{law_zero_pattern, nearest};
use crate::execution::{
    binop_done, binop_function, binop_replaced, call_continues, call_left, call_made,
    constant_loaded, frame_apart, helper_call, inline_constant, is_false, law_binop_replaces,
    law_binop_runs, law_constant_load_pushes, law_constant_load_runs, law_helper_call_convention,
    law_helper_call_runs, law_jump_if_false_runs, law_jump_if_false_tests, law_jump_runs,
    law_pop_runs, law_reaches_transitive, law_return_runs, law_return_stores, law_shows_carried,
    law_slots_dropped_shows, result_stored, shows, slot_pushed, slot_tested, slots_dropped, Program,
};
use crate::frame::{law_push_appends, stored_form, stored_tag, stored_word, FrameState};
use crate::jit_compiler::{
    is_num_binop, kept_xmm, FRAME_ERROR, FRAME_RESULT_TAG, FRAME_RESULT_VAL, FRAME_SIZE,
    FRAME_STACK_LEN, FRAME_STACK_PTR, FRAME_TAG_PTR,
};
use crate::machine::{wrap, Cpu, World};

verus! {

/// The state of a bytecode run: the frame, the heap of the interpreter, and the
/// index of the next operation. The run is over when the index is behind the
/// last operation.
pub struct VmState<H> {
    pub frame: FrameState,
    pub heap: H,
    pub at: int,
}

/// The runtime that the helpers belong to.
#[verifier::reject_recursive_types(H)]
pub struct Runtime<H> {
    /// What the helper of an operation does to the frame and to the heap.
    pub helped: spec_fn(int, FrameState, H) -> (FrameState, H),
    /// Whether the memory holds the heap, and the part of the frame that
    /// compiled code does not touch.
    pub held: spec_fn(Map<int, int>, FrameState, H) -> bool,
}

/// Whether an operation is one that calls a helper.
pub open spec fn is_helper_op(p: Program, i: int) -> bool {
    &&& 0 <= i < p.ops.len()
    &&& helper_call(p.ops[i], i as usize, p.helpers, p.addresses[i]) is Some
}

/// Whether the arithmetic gives words.
pub open spec fn world_valid(world: World) -> bool {
    forall|op: Op, a: int, b: int|
        0 <= #[trigger] (binop_function(world, op))(a, b) < 0x1_0000_0000_0000_0000
}

/// The result of an arithmetic operation on the last two values.
pub open spec fn binop_result(world: World, op: Op, frame: FrameState) -> u64 {
    ((binop_function(world, op))(
        frame.words[frame.len - 2] as int,
        frame.words[frame.len - 1] as int,
    )) as u64
}

/// The frame with its last value dropped.
pub open spec fn dropped(frame: FrameState) -> FrameState {
    frame.resized((frame.len - 1) as nat)
}

/// One operation of the bytecode.
pub open spec fn vm_step<H>(
    p: Program,
    world: World,
    runtime: Runtime<H>,
    s: VmState<H>,
) -> VmState<H> {
    let op = p.ops[s.at];
    let frame = s.frame;
    if helper_call(op, s.at as usize, p.helpers, p.addresses[s.at]) is Some {
        let (after, heap) = (runtime.helped)(s.at, frame, s.heap);
        VmState {
            frame: after,
            heap,
            at: if after.error is None {
                s.at + 1
            } else {
                p.ops.len() as int
            },
        }
    } else if inline_constant(op) is Some {
        VmState { frame: frame.pushed(inline_constant(op)->0), at: s.at + 1, ..s }
    } else if is_num_binop(op) {
        VmState {
            frame: binop_replaced(frame, binop_result(world, op, frame)),
            at: s.at + 1,
            ..s
        }
    } else {
        match op {
            Op::Pop => VmState { frame: dropped(frame), at: s.at + 1, ..s },
            Op::Jump(target) => VmState { at: target as int, ..s },
            Op::JumpIfFalse(target) => VmState {
                frame: dropped(frame),
                at: if is_false(
                    frame.tags[frame.len - 1] as int,
                    frame.words[frame.len - 1] as int,
                ) {
                    target as int
                } else {
                    s.at + 1
                },
                ..s
            },
            _ => VmState {
                frame: FrameState {
                    result_tag: frame.tags[frame.len - 1],
                    result_val: frame.words[frame.len - 1],
                    ..dropped(frame)
                },
                at: p.ops.len() as int,
                ..s
            },
        }
    }
}

/// Whether the next operation finds what it needs: room for what it pushes,
/// enough values on the stack, and an operation to jump to.
pub open spec fn vm_ready<H>(p: Program, s: VmState<H>) -> bool {
    let op = p.ops[s.at];
    &&& 0 <= s.at < p.ops.len()
    &&& inline_constant(op) is Some ==> s.frame.len < s.frame.capacity
    &&& is_num_binop(op) ==> s.frame.len >= 2
    &&& op is Pop || op is Return || op is JumpIfFalse ==> s.frame.len > 0
    &&& op matches Op::Jump(target) ==> target < p.ops.len()
    &&& op matches Op::JumpIfFalse(target) ==> target < p.ops.len()
}

/// The state `n` operations later.
pub open spec fn vm_steps<H>(
    p: Program,
    world: World,
    runtime: Runtime<H>,
    s: VmState<H>,
    n: nat,
) -> VmState<H>
    decreases n,
{
    if n == 0 {
        s
    } else {
        vm_step(p, world, runtime, vm_steps(p, world, runtime, s, (n - 1) as nat))
    }
}

/// Whether each of the next `n` operations finds what it needs.
pub open spec fn vm_runs<H>(
    p: Program,
    world: World,
    runtime: Runtime<H>,
    s: VmState<H>,
    n: nat,
) -> bool {
    forall|k: nat| k < n ==> vm_ready(p, #[trigger] vm_steps(p, world, runtime, s, k))
}

/// Where the native stack of the compiled function starts.
pub open spec fn native_base(caller: Cpu) -> int {
    caller.gpr[Register::RSP] - native_frame_size()
}

/// Whether a range of memory lies apart from the native stack of the compiled
/// function.
pub open spec fn off_stack(caller: Cpu, start: int, len: nat) -> bool {
    start + len <= native_base(caller) - 16 || caller.gpr[Register::RSP] <= start
}

/// Whether a call of a compiled function is sound: the native stack has room,
/// and the native frame lies apart from it.
pub open spec fn sound_call(caller: Cpu) -> bool {
    let rsp = caller.gpr[Register::RSP];
    let rdi = caller.gpr[Register::RDI];
    &&& native_frame_size() + 16 <= rsp
    &&& rsp + 8 <= 0x1_0000_0000_0000_0000
    &&& 0 <= rdi
    &&& rdi + FRAME_SIZE <= 0x1_0000_0000_0000_0000
    &&& off_stack(caller, rdi, FRAME_SIZE as nat)
}

/// Whether the native frame in memory has the outcome that a frame has.
pub open spec fn outcome_in_memory(mem: Map<int, int>, rdi: int, frame: FrameState) -> bool {
    &&& mem[rdi + FRAME_RESULT_TAG] == frame.result_tag
    &&& mem[rdi + FRAME_RESULT_VAL] == frame.result_val
    &&& (mem[rdi + FRAME_ERROR] == 0) == (frame.error is None)
}

/// Whether the processor is where the bytecode run is: at the same operation,
/// with the same operand stack and outcome, and with the registers that the
/// caller wants back on the native stack.
pub open spec fn represents<H>(
    p: Program,
    runtime: Runtime<H>,
    cpu: Cpu,
    s: VmState<H>,
    caller: Cpu,
) -> bool {
    &&& p.valid()
    &&& sound_call(caller)
    &&& cpu.running
    &&& 0 <= s.at <= p.ops.len()
    &&& cpu.pc == p.start(s.at)
    &&& carries(cpu, s.frame, caller)
    &&& (runtime.held)(cpu.mem, s.frame, s.heap)
}

/// Whether the native frame leads to the arrays of the operand stack that the
/// registers lead to.
pub open spec fn leads_to_arrays(mem: Map<int, int>, cpu: Cpu, caller: Cpu) -> bool {
    let rdi = caller.gpr[Register::RDI];
    &&& mem[rdi + FRAME_STACK_PTR] == cpu.gpr[Register::RBX]
    &&& mem[rdi + FRAME_TAG_PTR] == cpu.gpr[Register::R13]
}

/// The part of [`represents`] that does not speak of the place in the code.
pub open spec fn carries(cpu: Cpu, frame: FrameState, caller: Cpu) -> bool {
    &&& shows(cpu, frame)
    &&& frame_apart(cpu, frame)
    &&& leads_to_arrays(cpu.mem, cpu, caller)
    &&& off_stack(caller, cpu.gpr[Register::RBX], 8 * frame.capacity)
    &&& off_stack(caller, cpu.gpr[Register::R13], 8 * frame.capacity)
    &&& cpu.gpr[Register::RSP] == native_base(caller)
    &&& cpu.gpr[Register::RDI] == caller.gpr[Register::RDI]
    &&& holds_saved(cpu.mem, native_base(caller), caller)
    &&& outcome_in_memory(cpu.mem, caller.gpr[Register::RDI], frame)
}

/// Whether two frames have the parts that compiled code does not touch in
/// common.
pub open spec fn same_rest(a: FrameState, b: FrameState) -> bool {
    &&& a.objects == b.objects
    &&& a.capacity == b.capacity
    &&& a.env == b.env
    &&& a.error == b.error
    &&& a.chunk == b.chunk
}

/// Whether an address is one that compiled code may write to: in the arrays of
/// the operand stack, one of the three fields of the native frame that it
/// changes, or on the native stack.
pub open spec fn writable(cpu: Cpu, capacity: nat, caller: Cpu, a: int) -> bool {
    let words = cpu.gpr[Register::RBX];
    let tags = cpu.gpr[Register::R13];
    let rdi = caller.gpr[Register::RDI];
    ||| words <= a < words + 8 * capacity
    ||| tags <= a < tags + 8 * capacity
    ||| rdi + FRAME_STACK_LEN <= a < rdi + FRAME_STACK_LEN + 8
    ||| rdi + FRAME_RESULT_TAG <= a < rdi + FRAME_RESULT_TAG + 8
    ||| rdi + FRAME_RESULT_VAL <= a < rdi + FRAME_RESULT_VAL + 8
    ||| native_base(caller) - 16 <= a < caller.gpr[Register::RSP]
}

/// Whether two memories differ at most where compiled code may write.
pub open spec fn same_elsewhere(
    before: Map<int, int>,
    after: Map<int, int>,
    cpu: Cpu,
    capacity: nat,
    caller: Cpu,
) -> bool {
    forall|a: int| !writable(cpu, capacity, caller, a) ==> #[trigger] after[a] == before[a]
}

/// Whether what the runtime holds in memory lies where compiled code does not
/// write: it stays where memory changes only in the arrays that the native frame
/// leads to, in the fields that compiled code changes, and on the native stack.
pub open spec fn held_elsewhere<H>(runtime: Runtime<H>, caller: Cpu) -> bool {
    forall|
        before: Map<int, int>,
        after: Map<int, int>,
        f: FrameState,
        g: FrameState,
        heap: H,
        cpu: Cpu,
    |
        #![trigger
            (runtime.held)(before, f, heap),
            (runtime.held)(after, g, heap),
            same_elsewhere(before, after, cpu, f.capacity, caller)]
        (runtime.held)(before, f, heap) && same_rest(f, g) && leads_to_arrays(before, cpu, caller)
            && leads_to_arrays(after, cpu, caller) && same_elsewhere(
            before,
            after,
            cpu,
            f.capacity,
            caller,
        ) ==> (runtime.held)(after, g, heap)
}

/// Whether a helper that was called for an operation does what the runtime says
/// that it does, and keeps to the calling convention.
pub open spec fn helper_faithful(
    called: Cpu,
    returned: Cpu,
    caller: Cpu,
    after: FrameState,
) -> bool {
    &&& returned.gpr[Register::RSP] == called.gpr[Register::RSP]
    &&& forall|a: int|
        called.gpr[Register::RSP] <= a < caller.gpr[Register::RSP] ==> #[trigger] returned.mem[a]
            == called.mem[a]
    &&& shows(call_left(returned), after)
    &&& frame_apart(call_left(returned), after)
    &&& off_stack(caller, call_left(returned).gpr[Register::RBX], 8 * after.capacity)
    &&& off_stack(caller, call_left(returned).gpr[Register::R13], 8 * after.capacity)
    &&& outcome_in_memory(returned.mem, caller.gpr[Register::RDI], after)
}

/// Whether the helpers do what the runtime says that they do, whenever compiled
/// code calls them.
pub open spec fn runtime_faithful<H>(
    p: Program,
    world: World,
    runtime: Runtime<H>,
    caller: Cpu,
) -> bool {
    &&& held_elsewhere(runtime, caller)
    &&& forall|cpu: Cpu, s: VmState<H>|
        is_helper_op(p, s.at) && #[trigger] represents(p, runtime, cpu, s, caller)
            ==> helper_answers(p, world, runtime, caller, cpu, s)
}

/// Whether the helper does what the runtime says, for one call.
pub open spec fn helper_answers<H>(
    p: Program,
    world: World,
    runtime: Runtime<H>,
    caller: Cpu,
    cpu: Cpu,
    s: VmState<H>,
) -> bool {
    let called = helper_entry(p, cpu, s.at);
    let returned = helper_exit(p, world, cpu, s.at);
    let (frame, heap) = (runtime.helped)(s.at, s.frame, s.heap);
    &&& helper_faithful(called, returned, caller, frame)
    &&& (runtime.held)(returned.mem, frame, heap)
}

/// The saved registers stay on the native stack where the memory there stays.
proof fn lemma_saved_kept(before: Map<int, int>, after: Map<int, int>, base: int, caller: Cpu)
    requires
        holds_saved(before, base, caller),
        forall|a: int| base <= a < base + native_frame_size() ==> #[trigger] after[a] == before[a],
    ensures
        holds_saved(after, base, caller),
{
    assert(after[base + 168] == before[base + 168]);
    assert(after[base + 176] == before[base + 176]);
    assert(after[base + 184] == before[base + 184]);
    assert(after[base + 192] == before[base + 192]);
    assert(after[base + 200] == before[base + 200]);
    assert(after[base + 208] == before[base + 208]);
    assert forall|i: int| 0 <= i < 10 implies after[base + 16 * i]
        == caller.xmm[#[trigger] kept_xmm()[i]].0 && after[base + 16 * i + 8]
        == caller.xmm[kept_xmm()[i]].1 by {
        assert(after[base + 16 * i] == before[base + 16 * i]);
        assert(after[base + 16 * i + 8] == before[base + 16 * i + 8]);
        assert(before[base + 16 * i] == caller.xmm[kept_xmm()[i]].0);
    }
}

#[verifier::spinoff_prover]
#[verifier::rlimit(40)]
proof fn lemma_constant_step<H>(
    p: Program,
    world: World,
    runtime: Runtime<H>,
    cpu: Cpu,
    s: VmState<H>,
    caller: Cpu,
) -> (after: Cpu)
    requires
        held_elsewhere(runtime, caller),
        represents(p, runtime, cpu, s, caller),
        vm_ready(p, s),
        inline_constant(p.ops[s.at]) is Some,
    ensures
        p.reaches(world, cpu, after),
        represents(p, runtime, after, vm_step(p, world, runtime, s), caller),
{
    let value = inline_constant(p.ops[s.at])->0;
    let frame = s.frame;
    law_constant_load_runs(p, world, cpu, s.at);
    law_constant_load_pushes(cpu, frame, value);
    let pushed = slot_pushed(
        constant_loaded(cpu, value),
        stored_tag(value) as int,
        stored_word(value) as int,
    );
    let after = pushed.at(p.start(s.at + 1));
    let base = native_base(caller);
    assert forall|a: int| base <= a < base + native_frame_size() implies #[trigger] after.mem[a]
        == cpu.mem[a] by {}
    lemma_saved_kept(cpu.mem, after.mem, base, caller);
    assert(shows(after, frame.pushed(value)));
    assert(outcome_in_memory(after.mem, caller.gpr[Register::RDI], frame.pushed(value)));
    assert(carries(after, frame.pushed(value), caller));
    assert(same_elsewhere(cpu.mem, after.mem, cpu, frame.capacity, caller));
    assert((runtime.held)(after.mem, vm_step(p, world, runtime, s).frame, s.heap));
    after
}

#[verifier::spinoff_prover]
#[verifier::rlimit(40)]
proof fn lemma_binop_step<H>(
    p: Program,
    world: World,
    runtime: Runtime<H>,
    cpu: Cpu,
    s: VmState<H>,
    caller: Cpu,
) -> (after: Cpu)
    requires
        world_valid(world),
        held_elsewhere(runtime, caller),
        represents(p, runtime, cpu, s, caller),
        vm_ready(p, s),
        is_num_binop(p.ops[s.at]),
    ensures
        p.reaches(world, cpu, after),
        represents(p, runtime, after, vm_step(p, world, runtime, s), caller),
{
    let op = p.ops[s.at];
    let frame = s.frame;
    let result = binop_result(world, op, frame);
    law_binop_runs(p, world, cpu, s.at);
    law_binop_replaces(world, cpu, frame, op, result);
    let after = binop_done(world, cpu, op).at(p.start(s.at + 1));
    let base = native_base(caller);
    assert forall|a: int| base <= a < base + native_frame_size() implies #[trigger] after.mem[a]
        == cpu.mem[a] by {}
    lemma_saved_kept(cpu.mem, after.mem, base, caller);
    assert(shows(after, binop_replaced(frame, result)));
    assert(same_elsewhere(cpu.mem, after.mem, cpu, frame.capacity, caller));
    assert((runtime.held)(after.mem, vm_step(p, world, runtime, s).frame, s.heap));
    after
}

#[verifier::spinoff_prover]
#[verifier::rlimit(40)]
proof fn lemma_control_step<H>(
    p: Program,
    world: World,
    runtime: Runtime<H>,
    cpu: Cpu,
    s: VmState<H>,
    caller: Cpu,
) -> (after: Cpu)
    requires
        held_elsewhere(runtime, caller),
        represents(p, runtime, cpu, s, caller),
        vm_ready(p, s),
        p.ops[s.at] is Pop || p.ops[s.at] is Jump || p.ops[s.at] is JumpIfFalse,
    ensures
        p.reaches(world, cpu, after),
        represents(p, runtime, after, vm_step(p, world, runtime, s), caller),
{
    let frame = s.frame;
    match p.ops[s.at] {
        Op::Pop => {
            law_pop_runs(p, world, cpu, s.at);
            law_slots_dropped_shows(cpu, frame, 1);
            let after = slots_dropped(cpu, 1).at(p.start(s.at + 1));
            assert(shows(after, dropped(frame)));
            assert(same_elsewhere(cpu.mem, after.mem, cpu, frame.capacity, caller));
            assert((runtime.held)(after.mem, vm_step(p, world, runtime, s).frame, s.heap));
            after
        },
        Op::Jump(target) => {
            law_jump_runs(p, world, cpu, s.at);
            let after = cpu.at(p.start(target as int));
            assert(shows(after, frame));
            after
        },
        Op::JumpIfFalse(target) => {
            law_jump_if_false_runs(p, world, cpu, s.at);
            law_jump_if_false_tests(cpu, frame);
            let after = slot_tested(cpu).at(
                if slot_tested(cpu).zf {
                    p.start(target as int)
                } else {
                    p.start(s.at + 1)
                },
            );
            assert(shows(after, dropped(frame)));
            assert(same_elsewhere(cpu.mem, after.mem, cpu, frame.capacity, caller));
            assert((runtime.held)(after.mem, vm_step(p, world, runtime, s).frame, s.heap));
            after
        },
        _ => cpu,
    }
}

#[verifier::spinoff_prover]
#[verifier::rlimit(40)]
proof fn lemma_return_step<H>(
    p: Program,
    world: World,
    runtime: Runtime<H>,
    cpu: Cpu,
    s: VmState<H>,
    caller: Cpu,
) -> (after: Cpu)
    requires
        held_elsewhere(runtime, caller),
        represents(p, runtime, cpu, s, caller),
        vm_ready(p, s),
        p.ops[s.at] is Return,
    ensures
        p.reaches(world, cpu, after),
        represents(p, runtime, after, vm_step(p, world, runtime, s), caller),
{
    let frame = s.frame;
    law_return_runs(p, world, cpu, s.at);
    law_return_stores(cpu, frame);
    let after = result_stored(cpu).at(p.epilogue());
    let base = native_base(caller);
    assert forall|a: int| base <= a < base + native_frame_size() implies #[trigger] after.mem[a]
        == cpu.mem[a] by {}
    lemma_saved_kept(cpu.mem, after.mem, base, caller);
    let s2 = vm_step(p, world, runtime, s);
    assert(shows(result_stored(cpu), dropped(frame)));
    assert(shows(after, s2.frame));
    assert(same_elsewhere(cpu.mem, after.mem, cpu, frame.capacity, caller));
    assert((runtime.held)(after.mem, vm_step(p, world, runtime, s).frame, s.heap));
    after
}

/// The call that an operation makes when it runs, as the state of the processor
/// in the helper's entry.
pub open spec fn helper_entry(p: Program, cpu: Cpu, i: int) -> Cpu {
    let call = helper_call(p.ops[i], i as usize, p.helpers, p.addresses[i])->0;
    call_made(cpu, call).at(p.start(i + 1) - 9)
}

/// The state that the helper of an operation returns in.
pub open spec fn helper_exit(p: Program, world: World, cpu: Cpu, i: int) -> Cpu {
    let call = helper_call(p.ops[i], i as usize, p.helpers, p.addresses[i])->0;
    (world.callee)(call.helper as int, helper_entry(p, cpu, i))
}

/// The code of an operation that calls a helper does what the helper does, and
/// changes no memory after the helper has returned.
#[verifier::spinoff_prover]
#[verifier::rlimit(40)]
pub proof fn law_helper_op_simulated<H>(
    p: Program,
    world: World,
    runtime: Runtime<H>,
    cpu: Cpu,
    s: VmState<H>,
    caller: Cpu,
) -> (after: Cpu)
    requires
        runtime_faithful(p, world, runtime, caller),
        represents(p, runtime, cpu, s, caller),
        vm_ready(p, s),
        is_helper_op(p, s.at),
    ensures
        p.reaches(world, cpu, after),
        after == call_left(helper_exit(p, world, cpu, s.at)).at(
            call_continues(p, s.at, helper_exit(p, world, cpu, s.at)),
        ),
        after.gpr[Register::R12] == after.mem[caller.gpr[Register::RDI] + FRAME_STACK_LEN],
        represents(p, runtime, after, vm_step(p, world, runtime, s), caller),
{
    let call = helper_call(p.ops[s.at], s.at as usize, p.helpers, p.addresses[s.at])->0;
    assert(helper_answers(p, world, runtime, caller, cpu, s));
    law_helper_call_runs(p, world, cpu, s.at);
    let called = call_made(cpu, call).at(p.start(s.at + 1) - 9);
    let returned = (world.callee)(call.helper as int, called);
    let frame2 = (runtime.helped)(s.at, s.frame, s.heap).0;
    let rsp = cpu.gpr[Register::RSP];
    let base = native_base(caller);
    assert(called.gpr[Register::RSP] == rsp - 16);
    assert(returned.mem[rsp - 8] == called.mem[rsp - 8]);
    law_helper_call_convention(cpu, call, returned);
    let left = call_left(returned);
    let after = left.at(call_continues(p, s.at, returned));
    assert forall|a: int| base <= a < base + native_frame_size() implies #[trigger] after.mem[a]
        == cpu.mem[a] by {
        assert(returned.mem[a] == called.mem[a]);
    }
    lemma_saved_kept(cpu.mem, after.mem, base, caller);
    assert(shows(after, frame2));
    after
}

/// The code of an operation does what the operation does: from where the
/// bytecode run is before the operation, the processor comes to where it is
/// after the operation.
pub proof fn law_op_simulated<H>(
    p: Program,
    world: World,
    runtime: Runtime<H>,
    cpu: Cpu,
    s: VmState<H>,
    caller: Cpu,
) -> (after: Cpu)
    requires
        world_valid(world),
        runtime_faithful(p, world, runtime, caller),
        represents(p, runtime, cpu, s, caller),
        vm_ready(p, s),
    ensures
        p.reaches(world, cpu, after),
        represents(p, runtime, after, vm_step(p, world, runtime, s), caller),
{
    let op = p.ops[s.at];
    if helper_call(op, s.at as usize, p.helpers, p.addresses[s.at]) is Some {
        law_helper_op_simulated(p, world, runtime, cpu, s, caller)
    } else if inline_constant(op) is Some {
        lemma_constant_step(p, world, runtime, cpu, s, caller)
    } else if is_num_binop(op) {
        lemma_binop_step(p, world, runtime, cpu, s, caller)
    } else if op is Return {
        lemma_return_step(p, world, runtime, cpu, s, caller)
    } else {
        lemma_control_step(p, world, runtime, cpu, s, caller)
    }
}

/// Compiled code follows a bytecode run for as many operations as it takes.
pub proof fn law_run_simulated<H>(
    p: Program,
    world: World,
    runtime: Runtime<H>,
    cpu: Cpu,
    s: VmState<H>,
    caller: Cpu,
    n: nat,
) -> (after: Cpu)
    requires
        world_valid(world),
        runtime_faithful(p, world, runtime, caller),
        represents(p, runtime, cpu, s, caller),
        vm_runs(p, world, runtime, s, n),
    ensures
        p.reaches(world, cpu, after),
        represents(p, runtime, after, vm_steps(p, world, runtime, s, n), caller),
    decreases n,
{
    if n == 0 {
        assert(p.run(world, cpu, 0) == cpu);
        cpu
    } else {
        let k = (n - 1) as nat;
        let middle = law_run_simulated(p, world, runtime, cpu, s, caller, k);
        let sk = vm_steps(p, world, runtime, s, k);
        assert(vm_ready(p, sk));
        let after = law_op_simulated(p, world, runtime, middle, sk, caller);
        law_reaches_transitive(p, world, cpu, middle, after);
        after
    }
}

/// The state with the registers loaded from the native frame.
pub open spec fn frame_loaded(caller: Cpu) -> Cpu {
    let rdi = caller.gpr[Register::RDI];
    Cpu {
        gpr: caller.gpr.insert(Register::RBX, caller.mem[rdi + FRAME_STACK_PTR]).insert(
            Register::R12,
            caller.mem[rdi + FRAME_STACK_LEN],
        ).insert(Register::R13, caller.mem[rdi + FRAME_TAG_PTR]),
        ..caller
    }
}

/// Whether the processor has just entered a compiled function whose native
/// frame is that of a frame.
pub open spec fn entered(caller: Cpu, frame: FrameState) -> bool {
    let rdi = caller.gpr[Register::RDI];
    let loaded = frame_loaded(caller);
    &&& caller.running
    &&& caller.pc == 0
    &&& sound_call(caller)
    &&& shows(loaded, frame)
    &&& frame_apart(loaded, frame)
    &&& off_stack(caller, loaded.gpr[Register::RBX], 8 * frame.capacity)
    &&& off_stack(caller, loaded.gpr[Register::R13], 8 * frame.capacity)
    &&& outcome_in_memory(caller.mem, rdi, frame)
}

/// Whether a function has returned as its caller expects: with the native stack
/// pointer behind the return address, and with the registers that a function has
/// to keep as they were.
pub open spec fn has_returned(caller: Cpu, returned: Cpu) -> bool {
    &&& !returned.running
    &&& returned.gpr[Register::RSP] == wrap(caller.gpr[Register::RSP] + 8)
    &&& forall|r: Register| callee_saved(r) ==> #[trigger] returned.gpr[r] == caller.gpr[r]
    &&& forall|i: int|
        0 <= i < 10 ==> returned.xmm[#[trigger] kept_xmm()[i]] == caller.xmm[kept_xmm()[i]]
}

/// The prologue of a compiled function brings the processor to where a bytecode
/// run starts.
pub proof fn law_function_starts<H>(
    p: Program,
    world: World,
    runtime: Runtime<H>,
    caller: Cpu,
    frame: FrameState,
    heap: H,
) -> (first: Cpu)
    requires
        p.valid(),
        held_elsewhere(runtime, caller),
        entered(caller, frame),
        (runtime.held)(caller.mem, frame, heap),
    ensures
        p.reaches(world, caller, first),
        represents(p, runtime, first, VmState { frame, heap, at: 0 }, caller),
{
    let rdi = caller.gpr[Register::RDI];
    law_prologue_runs(p, world, caller);
    let first = p.run(world, caller, 21);
    assert(p.reaches(world, caller, first));
    law_shows_carried(frame_loaded(caller), frame, first, frame);
    assert(first.mem[rdi + FRAME_STACK_PTR] == caller.mem[rdi + FRAME_STACK_PTR]);
    assert(first.mem[rdi + FRAME_TAG_PTR] == caller.mem[rdi + FRAME_TAG_PTR]);
    assert(first.mem[rdi + FRAME_RESULT_TAG] == caller.mem[rdi + FRAME_RESULT_TAG]);
    assert(first.mem[rdi + FRAME_RESULT_VAL] == caller.mem[rdi + FRAME_RESULT_VAL]);
    assert(first.mem[rdi + FRAME_ERROR] == caller.mem[rdi + FRAME_ERROR]);
    assert(same_elsewhere(caller.mem, first.mem, first, frame.capacity, caller));
    assert((runtime.held)(first.mem, frame, heap));
    first
}

/// A compiled function does what its bytecode does. Where the bytecode run that
/// starts at the first operation is over after `n` operations, the function
/// returns to its caller: the native frame has the outcome and the number of
/// slots in use that the bytecode run has come to, and the registers that a
/// function has to keep are what they were.
pub proof fn law_function_simulated<H>(
    p: Program,
    world: World,
    runtime: Runtime<H>,
    caller: Cpu,
    frame: FrameState,
    heap: H,
    n: nat,
) -> (returned: Cpu)
    requires
        p.valid(),
        world_valid(world),
        runtime_faithful(p, world, runtime, caller),
        entered(caller, frame),
        (runtime.held)(caller.mem, frame, heap),
        vm_runs(p, world, runtime, VmState { frame, heap, at: 0 }, n),
        vm_steps(p, world, runtime, VmState { frame, heap, at: 0 }, n).at == p.ops.len(),
    ensures
        p.reaches(world, caller, returned),
        has_returned(caller, returned),
        ({
            let last = vm_steps(p, world, runtime, VmState { frame, heap, at: 0 }, n).frame;
            let rdi = caller.gpr[Register::RDI];
            &&& outcome_in_memory(returned.mem, rdi, last)
            &&& returned.mem[rdi + FRAME_STACK_LEN] == last.len
        }),
{
    let s = VmState { frame, heap, at: 0 };
    let first = law_function_starts(p, world, runtime, caller, frame, heap);
    let middle = law_run_simulated(p, world, runtime, first, s, caller, n);
    law_reaches_transitive(p, world, caller, first, middle);
    law_epilogue_runs(p, world, middle, caller);
    let returned = p.run(world, middle, 20);
    assert(p.reaches(world, middle, returned));
    law_reaches_transitive(p, world, caller, middle, returned);
    returned
}

/// Whether a value counts as false in a conditional jump: nil, the truth value
/// false, the integer zero, and the double whose pattern has no bit set. The
/// negative zero and all other values count as true.
pub open spec fn counts_as_false(value: Datum) -> bool {
    match value {
        Datum::Nil => true,
        Datum::Bool(b) => !b,
        Datum::Int(n) => n == 0,
        Datum::Float(bits) => bits == 0,
        _ => false,
    }
}

/// What a push stores, a conditional jump reads: the jump is taken where the
/// value that was pushed counts as false, and not where it counts as true.
pub proof fn law_push_tested(f: FrameState, value: Datum)
    requires
        f.wf(),
        f.len < f.capacity,
    ensures
        is_false(
            f.pushed(value).tags[f.len as int] as int,
            f.pushed(value).words[f.len as int] as int,
        ) == counts_as_false(value),
{
    match value {
        Datum::Int(n) => law_zero_pattern(n),
        _ => {},
    }
}

/// A function that loads a constant and returns it has the constant as its
/// outcome, in the form that it is stored in.
pub proof fn law_constant_returned<H>(
    p: Program,
    world: World,
    runtime: Runtime<H>,
    s: VmState<H>,
    value: Datum,
)
    requires
        p.ops.len() == 2,
        inline_constant(p.ops[0]) == Some(value),
        p.ops[1] is Return,
        s.at == 0,
        s.frame.wf(),
        s.frame.len < s.frame.capacity,
        s.frame.error is None,
    ensures
        vm_runs(p, world, runtime, s, 2),
        vm_steps(p, world, runtime, s, 2).at == p.ops.len(),
        vm_steps(p, world, runtime, s, 2).frame.values() == s.frame.values(),
        vm_steps(p, world, runtime, s, 2).frame.outcome() == Ok::<Datum, Seq<char>>(
            stored_form(value),
        ),
{
    reveal_with_fuel(vm_steps, 3);
    let first = vm_steps(p, world, runtime, s, 1);
    assert(first == vm_step(p, world, runtime, s));
    assert(first.frame == s.frame.pushed(value));
    let after = vm_steps(p, world, runtime, s, 2);
    assert(after == vm_step(p, world, runtime, first));
    assert(after.frame.values() =~= s.frame.values());
    assert forall|k: nat| k < 2 implies vm_ready(
        p,
        #[trigger] vm_steps(p, world, runtime, s, k),
    ) by {
        assert(k == 0 || k == 1);
    }
}

/// What counts as false in a conditional jump, of what was pushed: nil, the truth
/// value false, the integer zero, and the double whose pattern has no bit set.
/// Everything else counts as true.
pub proof fn law_only_these_are_false(f: FrameState, value: Datum)
    requires
        f.wf(),
        f.len < f.capacity,
    ensures
        is_false(
            f.pushed(value).tags[f.len as int] as int,
            f.pushed(value).words[f.len as int] as int,
        ) <==> value == Datum::Nil || value == Datum::Bool(false) || value == Datum::Int(0)
            || value == Datum::Float(0),
{
    law_push_tested(f, value);
}

/// A constant load pushes its own constant: the number, whatever it is, the truth
/// value, or nil.
pub proof fn law_constant_load_values<H>(
    p: Program,
    world: World,
    runtime: Runtime<H>,
    s: VmState<H>,
)
    requires
        0 <= s.at < p.ops.len(),
        s.frame.wf(),
        s.frame.len < s.frame.capacity,
    ensures
        ({
            let after = vm_step(p, world, runtime, s);
            let frame = s.frame;
            let value = match p.ops[s.at] {
                Op::LoadConst(Value::Int(n)) => Some(Datum::Float(nearest(n as int))),
                Op::LoadConst(Value::Float(bits)) => Some(Datum::Float(bits)),
                Op::LoadConst(Value::Bool(b)) => Some(
                    Datum::Float(
                        if b {
                            0x3ff0_0000_0000_0000u64
                        } else {
                            0u64
                        },
                    ),
                ),
                Op::LoadConst(Value::Nil) => Some(Datum::Nil),
                Op::LoadNil => Some(Datum::Nil),
                _ => None,
            };
            value matches Some(v) ==> {
                &&& after.frame.values() == frame.values().push(v)
                &&& after.frame.error == frame.error
                &&& after.frame.env == frame.env
                &&& after.heap == s.heap
                &&& after.at == s.at + 1
            }
        }),
{
    if let Some(value) = inline_constant(p.ops[s.at]) {
        law_push_appends(s.frame, value);
    }
}

/// The operations that move on without a helper go where they say: a jump to the
/// operation that it names, a conditional jump there or to the next one, and a
/// return to the end, with the value on top as the outcome where it is a number
/// or nil.
pub proof fn law_control_steps<H>(p: Program, world: World, runtime: Runtime<H>, s: VmState<H>)
    requires
        0 <= s.at < p.ops.len(),
        s.frame.wf(),
    ensures
        ({
            let after = vm_step(p, world, runtime, s);
            let frame = s.frame;
            let top = frame.len - 1;
            &&& p.ops[s.at] matches Op::Jump(target) ==> after == (VmState {
                at: target as int,
                ..s
            })
            &&& p.ops[s.at] is Pop && frame.len > 0 ==> after.frame.values()
                == frame.values().drop_last() && after.at == s.at + 1
            &&& p.ops[s.at] is JumpIfFalse && frame.len > 0 ==> {
                let target = p.ops[s.at]->JumpIfFalse_0;
                &&& after.frame.values() == frame.values().drop_last()
                &&& after.at == if frame.tags[top] == 1 || (frame.tags[top] == 0
                    && frame.words[top] == 0) {
                    target as int
                } else {
                    s.at + 1
                }
            }
            &&& p.ops[s.at] is Return && frame.len > 0 && frame.error is None ==> {
                &&& after.at == p.ops.len()
                &&& after.frame.values() == frame.values().drop_last()
                &&& frame.tags[top] == 0 ==> after.frame.outcome() == Ok::<Datum, Seq<char>>(
                    Datum::Float(frame.words[top]),
                )
                &&& frame.tags[top] == 1 ==> after.frame.outcome() == Ok::<Datum, Seq<char>>(
                    Datum::Nil,
                )
                &&& frame.tags[top] >= 2 ==> after.frame.outcome() is Err
            }
        }),
{
    let frame = s.frame;
    let after = vm_step(p, world, runtime, s);
    if frame.len > 0 {
        if p.ops[s.at] is Pop || p.ops[s.at] is JumpIfFalse || p.ops[s.at] is Return {
            assert(after.frame.values() =~= frame.values().drop_last());
        }
    }
}

/// Each operation calls its own helper, and passes on what it carries: the
/// address and the number of bytes of its name, the count, the address of the
/// expression, the number of the constant, or its own index.
pub proof fn law_helper_arguments(p: Program, world: World, cpu: Cpu, i: int)
    requires
        0 <= i < p.ops.len() <= usize::MAX,
    ensures
        ({
            let entry = helper_entry(p, cpu, i);
            let rsi = entry.gpr[Register::RSI];
            let rdx = entry.gpr[Register::RDX];
            let h = p.helpers;
            let helper = match p.ops[i] {
                Op::LoadVar(_) => Some(h.load_var),
                Op::StoreVar(_) => Some(h.store_var),
                Op::AssignVar(_) => Some(h.assign_var),
                Op::StoreSelf(_) => Some(h.store_self),
                Op::Call(_) => Some(h.call),
                Op::TailCall(_) => Some(h.tail_call),
                Op::MakeList(_) => Some(h.make_list),
                Op::TreeEval(_) => Some(h.tree_eval),
                Op::MakeFunc { .. } => Some(h.make_func),
                Op::LoadConst(Value::Object(_)) => Some(h.make_const),
                Op::PrependList => Some(h.prepend_list),
                Op::AppendSplice => Some(h.append_splice),
                Op::PushEnv => Some(h.push_env),
                Op::PopEnv => Some(h.pop_env),
                Op::NumEq => Some(h.num_eq),
                Op::NumLt => Some(h.num_lt),
                Op::NumGt => Some(h.num_gt),
                _ => None,
            };
            &&& helper is Some <==> is_helper_op(p, i)
            &&& helper matches Some(address) ==> helper_exit(p, world, cpu, i) == (world.callee)(
                address as int,
                entry,
            )
            &&& helper is Some ==> entry.gpr[Register::RDI] == cpu.gpr[Register::RDI]
            &&& match p.ops[i] {
                Op::LoadVar(name) => rsi == p.addresses[i] && rdx == encode_utf8(name@).len() as u64,
                Op::StoreVar(name) => rsi == p.addresses[i] && rdx == encode_utf8(
                    name@,
                ).len() as u64,
                Op::AssignVar(name) => rsi == p.addresses[i] && rdx == encode_utf8(
                    name@,
                ).len() as u64,
                Op::StoreSelf(name) => rsi == p.addresses[i] && rdx == encode_utf8(
                    name@,
                ).len() as u64,
                Op::Call(n) => rsi == n,
                Op::TailCall(n) => rsi == n,
                Op::MakeList(n) => rsi == n,
                Op::TreeEval(expr) => rsi == expr.address,
                Op::MakeFunc { .. } => rsi == i,
                Op::LoadConst(Value::Object(_)) => rsi == p.addresses[i],
                _ => true,
            }
        }),
{
}

} // verus!
