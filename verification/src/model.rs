//! What the laws on compiled code ask of the runtime can be met, by a runtime
//! with the library's own helpers: one is built here, for any chunk and for any
//! interpreter.

use vstd::prelude::*;

use crate::assembly::Register;
use crate::bytecode::{Chunk, Datum, GcHandle, Op};
use crate::execution::{binop_function, Program};
use crate::frame::FrameState;
use crate::jit_compiler::{
    FRAME_ERROR, FRAME_RESULT_TAG, FRAME_RESULT_VAL, FRAME_SIZE, FRAME_STACK_LEN,
    FRAME_STACK_PTR, FRAME_TAG_PTR,
};
use crate::layout::law_op_placed;
use crate::machine::{Cpu, World};
use crate::runtime::{has_library_helpers, law_library_helpers_keep_shape};
use crate::simulation::{
    entered, frame_loaded, held_elsewhere, helper_answers, helper_entry, helper_exit,
    helper_faithful, is_helper_op, leads_to_arrays, native_base, represents, runtime_faithful,
    same_elsewhere, same_rest, sound_call, world_valid, writable, Runtime, VmState,
};

verus! {

/// What compiled code does not touch: the rest of the frame, and the heap.
pub struct Hidden<H> {
    pub objects: Seq<Datum>,
    pub capacity: nat,
    pub env: GcHandle,
    pub error: Option<Seq<char>>,
    pub chunk: Chunk,
    pub heap: H,
}

/// The part of a frame that compiled code does not touch, with the heap.
pub open spec fn hidden<H>(frame: FrameState, heap: H) -> Hidden<H> {
    Hidden {
        objects: frame.objects,
        capacity: frame.capacity,
        env: frame.env,
        error: frame.error,
        chunk: frame.chunk,
        heap,
    }
}

/// A way to write down what compiled code does not touch as one number.
pub type Encoding<H> = spec_fn(Hidden<H>) -> int;

/// Whether an encoding tells everything apart.
pub open spec fn distinguishes<H>(encode: Encoding<H>) -> bool {
    forall|a: Hidden<H>, b: Hidden<H>|
        #![trigger encode(a), encode(b)]
        encode(a) == encode(b) ==> a == b
}

/// Where the number is kept: at an address that no program has.
pub open spec fn store() -> int {
    -1
}

/// A runtime that keeps what compiled code does not touch as a number in its
/// store.
pub open spec fn model_runtime<H>(
    helpers: Runtime<H>,
    encode: Encoding<H>,
    rdi: int,
) -> Runtime<H> {
    Runtime {
        helped: helpers.helped,
        held: |mem: Map<int, int>, frame: FrameState, heap: H|
            mem[store()] == encode(hidden(frame, heap)) && 0 <= mem[rdi + FRAME_STACK_PTR] && 0
                <= mem[rdi + FRAME_TAG_PTR],
    }
}

/// Whether the entry of a helper is that of the operation at which a bytecode
/// run is.
pub open spec fn enters_at<H>(
    p: Program,
    runtime: Runtime<H>,
    caller: Cpu,
    called: Cpu,
    cpu: Cpu,
    s: VmState<H>,
) -> bool {
    &&& is_helper_op(p, s.at)
    &&& represents(p, runtime, cpu, s, caller)
    &&& called == helper_entry(p, cpu, s.at)
}

/// The memory after a helper has left a frame and a heap.
pub open spec fn model_memory<H>(
    called: Cpu,
    rdi: int,
    frame: FrameState,
    heap: H,
    encode: Encoding<H>,
) -> Map<int, int> {
    let words = called.gpr[Register::RBX];
    let tags = called.gpr[Register::R13];
    Map::new(
        |a: int| true,
        |a: int|
            if words <= a < words + 8 * frame.capacity && (a - words) % 8 == 0 {
                frame.words[(a - words) / 8] as int
            } else if tags <= a < tags + 8 * frame.capacity && (a - tags) % 8 == 0 {
                frame.tags[(a - tags) / 8] as int
            } else if a == rdi + FRAME_STACK_LEN {
                frame.len as int
            } else if a == rdi + FRAME_RESULT_TAG {
                frame.result_tag as int
            } else if a == rdi + FRAME_RESULT_VAL {
                frame.result_val as int
            } else if a == rdi + FRAME_ERROR {
                if frame.error is None {
                    0
                } else {
                    1
                }
            } else if a == store() {
                encode(hidden(frame, heap))
            } else {
                called.mem[a]
            },
    )
}

/// What a helper that was entered in a state does: what the runtime says, for the
/// operation, frame and heap that the state is the entry of.
pub open spec fn model_callee<H>(
    p: Program,
    runtime: Runtime<H>,
    encode: Encoding<H>,
    caller: Cpu,
    called: Cpu,
) -> Cpu {
    let (cpu, s) = choose|cpu: Cpu, s: VmState<H>| #[trigger]
        enters_at(p, runtime, caller, called, cpu, s);
    let (frame, heap) = (runtime.helped)(s.at, s.frame, s.heap);
    Cpu { mem: model_memory(called, caller.gpr[Register::RDI], frame, heap, encode), ..called }
}

/// The world with these helpers.
pub open spec fn model_world<H>(
    p: Program,
    arithmetic: World,
    runtime: Runtime<H>,
    encode: Encoding<H>,
    caller: Cpu,
) -> World {
    World {
        callee: |helper: int, called: Cpu| model_callee(p, runtime, encode, caller, called),
        ..arithmetic
    }
}

proof fn lemma_starts_grow(p: Program, i: int, j: int)
    requires
        p.valid(),
        0 <= i < j <= p.ops.len(),
    ensures
        p.start(i) < p.start(j),
    decreases j - i,
{
    law_op_placed(p.ops, p.helpers, p.addresses, (j - 1) as nat);
    if i < j - 1 {
        lemma_starts_grow(p, i, j - 1);
    }
}

/// The entry of a helper tells what the registers and the memory were before.
proof fn lemma_entry_memory<H>(
    p: Program,
    runtime: Runtime<H>,
    caller: Cpu,
    called: Cpu,
    cpu: Cpu,
    s: VmState<H>,
)
    requires
        enters_at(p, runtime, caller, called, cpu, s),
    ensures
        called.gpr[Register::RBX] == cpu.gpr[Register::RBX],
        called.gpr[Register::R12] == cpu.gpr[Register::R12],
        called.gpr[Register::R13] == cpu.gpr[Register::R13],
        called.gpr[Register::RSP] == native_base(caller) - 16,
        called.gpr[Register::RDI] == caller.gpr[Register::RDI],
        called.mem[native_base(caller) - 8] == caller.gpr[Register::RDI],
        called.pc == p.start(s.at + 1) - 9,
        forall|a: int|
            a != native_base(caller) - 8 && a != caller.gpr[Register::RDI] + FRAME_STACK_LEN
                ==> #[trigger] called.mem[a] == cpu.mem[a],
{
}

proof fn lemma_entry_unique<H>(
    p: Program,
    helpers: Runtime<H>,
    encode: Encoding<H>,
    caller: Cpu,
    called: Cpu,
    cpu1: Cpu,
    s1: VmState<H>,
    cpu2: Cpu,
    s2: VmState<H>,
)
    requires
        distinguishes(encode),
        enters_at(
            p,
            model_runtime(helpers, encode, caller.gpr[Register::RDI]),
            caller,
            called,
            cpu1,
            s1,
        ),
        enters_at(
            p,
            model_runtime(helpers, encode, caller.gpr[Register::RDI]),
            caller,
            called,
            cpu2,
            s2,
        ),
    ensures
        s1 == s2,
{
    let runtime = model_runtime(helpers, encode, caller.gpr[Register::RDI]);
    let rdi = caller.gpr[Register::RDI];
    lemma_entry_memory(p, runtime, caller, called, cpu1, s1);
    lemma_entry_memory(p, runtime, caller, called, cpu2, s2);
    if s1.at < s2.at {
        lemma_starts_grow(p, s1.at + 1, s2.at + 1);
    }
    if s2.at < s1.at {
        lemma_starts_grow(p, s2.at + 1, s1.at + 1);
    }
    let f1 = s1.frame;
    let f2 = s2.frame;
    assert(called.mem[store()] == cpu1.mem[store()]);
    assert(called.mem[store()] == cpu2.mem[store()]);
    assert(encode(hidden(f1, s1.heap)) == encode(hidden(f2, s2.heap)));
    assert(hidden(f1, s1.heap) == hidden(f2, s2.heap));
    let words = called.gpr[Register::RBX];
    let tags = called.gpr[Register::R13];
    assert forall|k: int| 0 <= k < f1.capacity implies #[trigger] f1.words[k] == f2.words[k] by {
        assert(called.mem[words + 8 * k] == cpu1.mem[words + 8 * k]);
        assert(called.mem[words + 8 * k] == cpu2.mem[words + 8 * k]);
        assert(cpu1.mem[words + 8 * k] == f1.words[k]);
        assert(cpu2.mem[words + 8 * k] == f2.words[k]);
    }
    assert forall|k: int| 0 <= k < f1.capacity implies #[trigger] f1.tags[k] == f2.tags[k] by {
        assert(called.mem[tags + 8 * k] == cpu1.mem[tags + 8 * k]);
        assert(called.mem[tags + 8 * k] == cpu2.mem[tags + 8 * k]);
        assert(cpu1.mem[tags + 8 * k] == f1.tags[k]);
        assert(cpu2.mem[tags + 8 * k] == f2.tags[k]);
    }
    assert(f1.words =~= f2.words);
    assert(f1.tags =~= f2.tags);
    assert(called.mem[rdi + FRAME_RESULT_TAG] == cpu1.mem[rdi + FRAME_RESULT_TAG]);
    assert(called.mem[rdi + FRAME_RESULT_TAG] == cpu2.mem[rdi + FRAME_RESULT_TAG]);
    assert(called.mem[rdi + FRAME_RESULT_VAL] == cpu1.mem[rdi + FRAME_RESULT_VAL]);
    assert(called.mem[rdi + FRAME_RESULT_VAL] == cpu2.mem[rdi + FRAME_RESULT_VAL]);
    assert(f1 == f2);
}

proof fn lemma_model_answers<H>(
    p: Program,
    arithmetic: World,
    helpers: Runtime<H>,
    encode: Encoding<H>,
    caller: Cpu,
    cpu: Cpu,
    s: VmState<H>,
)
    requires
        distinguishes(encode),
        has_library_helpers(p, helpers),
        is_helper_op(p, s.at),
        represents(
            p,
            model_runtime(helpers, encode, caller.gpr[Register::RDI]),
            cpu,
            s,
            caller,
        ),
    ensures
        ({
            let runtime = model_runtime(helpers, encode, caller.gpr[Register::RDI]);
            helper_answers(
                p,
                model_world(p, arithmetic, runtime, encode, caller),
                runtime,
                caller,
                cpu,
                s,
            )
        }),
{
    let rdi = caller.gpr[Register::RDI];
    let runtime = model_runtime(helpers, encode, rdi);
    let world = model_world(p, arithmetic, runtime, encode, caller);
    let called = helper_entry(p, cpu, s.at);
    let returned = helper_exit(p, world, cpu, s.at);
    assert(enters_at(p, runtime, caller, called, cpu, s));
    let (cpu2, s2) = choose|cpu2: Cpu, s2: VmState<H>| #[trigger]
        enters_at(p, runtime, caller, called, cpu2, s2);
    lemma_entry_unique(p, helpers, encode, caller, called, cpu, s, cpu2, s2);
    lemma_entry_memory(p, runtime, caller, called, cpu, s);
    let (frame, heap) = (runtime.helped)(s.at, s.frame, s.heap);
    law_library_helpers_keep_shape(p, helpers, s.at, s.frame, s.heap);
    assert(returned.mem == model_memory(called, rdi, frame, heap, encode));
    lemma_model_memory(caller, called, frame, heap, encode);
    lemma_model_faithful(caller, called, returned, frame);
}

/// What the memory holds that a helper leaves.
proof fn lemma_model_memory<H>(
    caller: Cpu,
    called: Cpu,
    frame: FrameState,
    heap: H,
    encode: Encoding<H>,
)
    requires
        sound_call(caller),
        frame.wf(),
        placed(caller, called, frame),
    ensures
        ({
            let mem = model_memory(called, caller.gpr[Register::RDI], frame, heap, encode);
            &&& left_in_memory(caller, called, frame, mem)
            &&& mem[store()] == encode(hidden(frame, heap))
        }),
{
    let rdi = caller.gpr[Register::RDI];
    let mem = model_memory(called, rdi, frame, heap, encode);
    let words = called.gpr[Register::RBX];
    let tags = called.gpr[Register::R13];
    assert forall|k: int| 0 <= k < frame.capacity implies mem[words + 8 * k]
        == #[trigger] frame.words[k] by {
        assert((words + 8 * k - words) % 8 == 0 && (words + 8 * k - words) / 8 == k);
    }
    assert forall|k: int| 0 <= k < frame.capacity implies mem[tags + 8 * k]
        == #[trigger] frame.tags[k] by {
        assert((tags + 8 * k - tags) % 8 == 0 && (tags + 8 * k - tags) / 8 == k);
    }
}

/// Whether the arrays that the registers lead to, the native frame and the native
/// stack lie apart from one another, and the native frame leads to the arrays.
spec fn placed(caller: Cpu, called: Cpu, frame: FrameState) -> bool {
    let rdi = caller.gpr[Register::RDI];
    let words = called.gpr[Register::RBX];
    let tags = called.gpr[Register::R13];
    &&& 0 <= words
    &&& words + 8 * frame.capacity <= 0x1_0000_0000_0000_0000
    &&& 0 <= tags
    &&& tags + 8 * frame.capacity <= 0x1_0000_0000_0000_0000
    &&& words + 8 * frame.capacity <= tags || tags + 8 * frame.capacity <= words
    &&& rdi + FRAME_SIZE <= words || words + 8 * frame.capacity <= rdi
    &&& rdi + FRAME_SIZE <= tags || tags + 8 * frame.capacity <= rdi
    &&& words + 8 * frame.capacity <= native_base(caller) - 16 || caller.gpr[Register::RSP]
        <= words
    &&& tags + 8 * frame.capacity <= native_base(caller) - 16 || caller.gpr[Register::RSP] <= tags
    &&& leads_to_arrays(called.mem, called, caller)
    &&& called.gpr[Register::RSP] == native_base(caller) - 16
    &&& called.gpr[Register::RDI] == rdi
    &&& called.mem[native_base(caller) - 8] == rdi
}

/// Whether the memory has the operand stack and the outcome of a frame, and is
/// what it was on the native stack.
spec fn left_in_memory(caller: Cpu, called: Cpu, frame: FrameState, mem: Map<int, int>) -> bool {
    let rdi = caller.gpr[Register::RDI];
    let words = called.gpr[Register::RBX];
    let tags = called.gpr[Register::R13];
    &&& forall|k: int| 0 <= k < frame.capacity ==> mem[words + 8 * k] == #[trigger] frame.words[k]
    &&& forall|k: int| 0 <= k < frame.capacity ==> mem[tags + 8 * k] == #[trigger] frame.tags[k]
    &&& mem[rdi + FRAME_STACK_PTR] == words
    &&& mem[rdi + FRAME_TAG_PTR] == tags
    &&& mem[rdi + FRAME_STACK_LEN] == frame.len
    &&& mem[rdi + FRAME_RESULT_TAG] == frame.result_tag
    &&& mem[rdi + FRAME_RESULT_VAL] == frame.result_val
    &&& (mem[rdi + FRAME_ERROR] == 0) == (frame.error is None)
    &&& forall|a: int|
        native_base(caller) - 16 <= a < caller.gpr[Register::RSP] ==> #[trigger] mem[a]
            == called.mem[a]
}

proof fn lemma_model_faithful(caller: Cpu, called: Cpu, returned: Cpu, frame: FrameState)
    requires
        sound_call(caller),
        frame.wf(),
        placed(caller, called, frame),
        left_in_memory(caller, called, frame, returned.mem),
        returned.gpr == called.gpr,
    ensures
        helper_faithful(called, returned, caller, frame),
{
    assert(returned.mem[native_base(caller) - 8] == called.mem[native_base(caller) - 8]);
}

/// The laws on compiled code speak of something. For any chunk, any arithmetic,
/// any way in which the library's helpers can go, and any way to write down what
/// compiled code does not touch, there are a world and a runtime that are
/// faithful; and wherever a compiled function can be entered with a frame, it can
/// be entered with that frame and any heap held in memory.
pub proof fn law_runtime_exists<H>(
    p: Program,
    arithmetic: World,
    helpers: Runtime<H>,
    encode: Encoding<H>,
    caller: Cpu,
    frame: FrameState,
    heap: H,
) -> (made: (World, Runtime<H>, Cpu))
    requires
        world_valid(arithmetic),
        has_library_helpers(p, helpers),
        distinguishes(encode),
        entered(caller, frame),
    ensures
        ({
            let (world, runtime, start) = made;
            &&& world_valid(world)
            &&& runtime_faithful(p, world, runtime, start)
            &&& runtime.helped == helpers.helped
            &&& has_library_helpers(p, runtime)
            &&& entered(start, frame)
            &&& (runtime.held)(start.mem, frame, heap)
            &&& start == (Cpu { mem: start.mem, ..caller })
            &&& forall|a: int| a >= 0 ==> #[trigger] start.mem[a] == caller.mem[a]
        }),
{
    let rdi = caller.gpr[Register::RDI];
    let start = Cpu {
        mem: caller.mem.insert(store(), encode(hidden(frame, heap))),
        ..caller
    };
    let runtime = model_runtime(helpers, encode, rdi);
    let world = model_world(p, arithmetic, runtime, encode, start);
    assert(frame_loaded(start) == (Cpu { mem: start.mem, ..frame_loaded(caller) }));
    assert(held_elsewhere(runtime, start)) by {
        assert forall|
            before: Map<int, int>,
            after: Map<int, int>,
            f: FrameState,
            g: FrameState,
            h: H,
            cpu: Cpu,
        |
            #![trigger
                (runtime.held)(before, f, h),
                (runtime.held)(after, g, h),
                same_elsewhere(before, after, cpu, f.capacity, start)]
            (runtime.held)(before, f, h) && same_rest(f, g) && leads_to_arrays(
                before,
                cpu,
                start,
            ) && leads_to_arrays(after, cpu, start) && same_elsewhere(
                before,
                after,
                cpu,
                f.capacity,
                start,
            ) implies (runtime.held)(after, g, h) by {
            assert(!writable(cpu, f.capacity, start, store()));
            assert(after[store()] == before[store()]);
            assert(hidden(f, h) == hidden(g, h));
        }
    }
    assert forall|cpu: Cpu, s: VmState<H>|
        is_helper_op(p, s.at) && #[trigger] represents(
            p,
            runtime,
            cpu,
            s,
            start,
        ) implies helper_answers(p, world, runtime, start, cpu, s) by {
        lemma_model_answers(p, arithmetic, helpers, encode, start, cpu, s);
    }
    assert forall|op: Op, a: int, b: int| 0 <= #[trigger] (binop_function(world, op))(a, b)
        < 0x1_0000_0000_0000_0000 by {
        assert(binop_function(world, op) == binop_function(arithmetic, op));
    }
    (world, runtime, start)
}

} // verus!
