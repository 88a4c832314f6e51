//! Compiled code with the library's own helpers: what each helper can do to the
//! frame in the course of a run, and what follows for the run.

use vstd::prelude::*;

use crate::assembly::Register;
use crate::bytecode::{Datum, GcHandle, Op, Value, VmValue};
use crate::convention::law_epilogue_runs;
use crate::double::num_lt;
use crate::execution::{call_left, law_reaches_transitive, Program};
use crate::frame::FrameState;
use crate::jit_abi::{same_shape, AssignReply, EvalReply, LookupReply, MakeFuncData};
use crate::jit_compiler::{FRAME_ERROR, FRAME_RESULT_TAG, FRAME_RESULT_VAL, FRAME_STACK_LEN};
use crate::machine::{Cpu, World};
use crate::simulation::{
    entered, has_returned, helper_exit, is_helper_op, law_function_starts,
    law_helper_op_simulated, law_push_tested, law_run_simulated, represents, runtime_faithful,
    vm_ready, vm_runs, vm_step, vm_steps, world_valid, Runtime, VmState,
};

verus! {

/// What the helper of an operation does to the frame, where it needs no
/// interpreter.
pub open spec fn local_effect(op: Op, op_index: usize, frame: FrameState) -> Option<FrameState> {
    match op {
        Op::MakeList(n) => Some(frame.list_made(n as nat)),
        Op::PrependList => Some(frame.list_prepended()),
        Op::AppendSplice => Some(frame.list_spliced()),
        Op::NumEq => Some(frame.eq_tested()),
        Op::NumLt => Some(frame.lt_tested()),
        Op::NumGt => Some(frame.gt_tested()),
        Op::MakeFunc { params, body_expr, code_offset } => Some(
            frame.function_made(Some(MakeFuncData { op_index, code_offset, params, body_expr })),
        ),
        _ => None,
    }
}

/// Whether the helper of an operation can lead from one frame to another: some
/// reply of the interpreter makes it do so.
pub open spec fn helper_leads(
    op: Op,
    op_index: usize,
    frame: FrameState,
    after: FrameState,
) -> bool {
    match op {
        Op::LoadVar(_) => exists|reply: LookupReply| after == #[trigger] frame.loaded(reply),
        Op::StoreVar(_) => if frame.len == 0 {
            after == frame.popped()
        } else {
            exists|stored: bool| after == #[trigger] frame.popped().stored(stored)
        },
        Op::AssignVar(_) => if frame.len == 0 {
            after == frame.popped()
        } else {
            exists|reply: AssignReply| after == #[trigger] frame.popped().assigned(reply)
        },
        Op::Call(_) | Op::TailCall(_) => exists|reply: Result<Option<VmValue>, String>|
            after == #[trigger] frame.emptied(0).called(reply),
        Op::TreeEval(_) => exists|reply: EvalReply| after == #[trigger] frame.evaluated(reply),
        Op::PushEnv => exists|child: GcHandle| after == #[trigger] frame.entered(child),
        Op::PopEnv => exists|parent: Option<GcHandle>| after == #[trigger] frame.left(parent),
        Op::StoreSelf(_) => exists|stored: bool| after == #[trigger] frame.self_stored(stored),
        Op::LoadConst(Value::Object(_)) => {
            ||| after == frame.constant_taken(None)
            ||| exists|reply: Option<VmValue>|
                after == #[trigger] frame.constant_taken(Some(op)).constant_made(reply)
        },
        _ => local_effect(op, op_index, frame) == Some(after),
    }
}

/// Whether the helpers of a runtime are those of the library. One that needs no
/// interpreter leaves the heap alone.
pub open spec fn has_library_helpers<H>(p: Program, runtime: Runtime<H>) -> bool {
    forall|i: int, frame: FrameState, heap: H|
        is_helper_op(p, i) ==> {
            let after = #[trigger] (runtime.helped)(i, frame, heap);
            &&& helper_leads(p.ops[i], i as usize, frame, after.0)
            &&& local_effect(p.ops[i], i as usize, frame) is Some ==> after.1 == heap
        }
}

/// The library's helpers keep the shape of the frame, whatever the interpreter
/// replies.
pub proof fn law_library_helpers_keep_shape<H>(
    p: Program,
    runtime: Runtime<H>,
    i: int,
    frame: FrameState,
    heap: H,
)
    requires
        has_library_helpers(p, runtime),
        is_helper_op(p, i),
        frame.wf(),
    ensures
        same_shape((runtime.helped)(i, frame, heap).0, frame),
{
    let after = (runtime.helped)(i, frame, heap).0;
    assert(helper_leads(p.ops[i], i as usize, frame, after));
}

/// A run keeps the shape of the frame, up to a return: the arrays keep their
/// size, and the result words stay what they were.
pub proof fn law_run_keeps_shape<H>(
    p: Program,
    world: World,
    runtime: Runtime<H>,
    s: VmState<H>,
    n: nat,
)
    requires
        has_library_helpers(p, runtime),
        s.frame.wf(),
        vm_runs(p, world, runtime, s, n),
        n > 0 ==> !(p.ops[vm_steps(p, world, runtime, s, (n - 1) as nat).at] is Return),
    ensures
        same_shape(vm_steps(p, world, runtime, s, n).frame, s.frame),
    decreases n,
{
    if n > 0 {
        let k = (n - 1) as nat;
        let before = vm_steps(p, world, runtime, s, k);
        assert(vm_ready(p, before));
        if k > 0 {
            let earlier = vm_steps(p, world, runtime, s, (k - 1) as nat);
            assert(before == vm_step(p, world, runtime, earlier));
            assert(vm_ready(p, earlier));
        }
        law_run_keeps_shape(p, world, runtime, s, k);
        let op = p.ops[before.at];
        if is_helper_op(p, before.at) {
            law_library_helpers_keep_shape(p, runtime, before.at, before.frame, before.heap);
        }
    }
}

/// Whether the last of `n` operations of a run is the call of a helper that
/// fails.
pub open spec fn fails_at<H>(
    p: Program,
    world: World,
    runtime: Runtime<H>,
    s: VmState<H>,
    n: nat,
) -> bool {
    let last = vm_steps(p, world, runtime, s, (n - 1) as nat);
    &&& n > 0
    &&& vm_runs(p, world, runtime, s, n)
    &&& is_helper_op(p, last.at)
    &&& (runtime.helped)(last.at, last.frame, last.heap).0.error is Some
}

/// A run ends with the first helper that fails: no further operation runs, the
/// frame is what the helper has left, with its error and its number of slots in
/// use, and the result words are what they were when the run began.
pub proof fn law_failure_ends_run<H>(
    p: Program,
    world: World,
    runtime: Runtime<H>,
    s: VmState<H>,
    n: nat,
)
    requires
        has_library_helpers(p, runtime),
        s.frame.wf(),
        fails_at(p, world, runtime, s, n),
    ensures
        ({
            let last = vm_steps(p, world, runtime, s, (n - 1) as nat);
            let after = vm_steps(p, world, runtime, s, n);
            &&& after.at == p.ops.len()
            &&& after.frame == (runtime.helped)(last.at, last.frame, last.heap).0
            &&& after.frame.outcome() == Err::<Datum, Seq<char>>(after.frame.error->0)
            &&& after.frame.result_tag == s.frame.result_tag
            &&& after.frame.result_val == s.frame.result_val
        }),
        forall|m: nat| m > n ==> !#[trigger] vm_runs(p, world, runtime, s, m),
{
    let last = vm_steps(p, world, runtime, s, (n - 1) as nat);
    let after = vm_steps(p, world, runtime, s, n);
    assert(after == vm_step(p, world, runtime, last));
    law_run_keeps_shape(p, world, runtime, s, n);
    assert(!vm_ready(p, after));
}

/// A compiled function ends with the first helper that fails. The state in which
/// the operation of that helper starts is `calling`; behind the helper the
/// function goes to the epilogue, without another operation, and returns. The
/// result words of the native frame are what they were when the function was
/// called, the number of slots in use and the error are what the helper has left
/// there, and the registers that a function has to keep are what they were.
#[verifier::rlimit(30)]
pub proof fn law_failure_ends_function<H>(
    p: Program,
    world: World,
    runtime: Runtime<H>,
    caller: Cpu,
    frame: FrameState,
    heap: H,
    n: nat,
) -> (ends: (Cpu, Cpu))
    requires
        p.valid(),
        world_valid(world),
        runtime_faithful(p, world, runtime, caller),
        has_library_helpers(p, runtime),
        entered(caller, frame),
        (runtime.held)(caller.mem, frame, heap),
        fails_at(p, world, runtime, VmState { frame, heap, at: 0 }, n),
    ensures
        ({
            let (calling, returned) = ends;
            let last = vm_steps(
                p,
                world,
                runtime,
                VmState { frame, heap, at: 0 },
                (n - 1) as nat,
            );
            let answer = helper_exit(p, world, calling, last.at);
            let left = (runtime.helped)(last.at, last.frame, last.heap).0;
            let rdi = caller.gpr[Register::RDI];
            &&& p.reaches(world, caller, calling)
            &&& represents(p, runtime, calling, last, caller)
            &&& p.reaches(world, calling, call_left(answer).at(p.epilogue()))
            &&& p.run(world, call_left(answer).at(p.epilogue()), 20) == returned
            &&& p.reaches(world, caller, returned)
            &&& has_returned(caller, returned)
            &&& returned.mem[rdi + FRAME_RESULT_TAG] == caller.mem[rdi + FRAME_RESULT_TAG]
            &&& returned.mem[rdi + FRAME_RESULT_VAL] == caller.mem[rdi + FRAME_RESULT_VAL]
            &&& returned.mem[rdi + FRAME_STACK_LEN] == answer.mem[rdi + FRAME_STACK_LEN]
            &&& returned.mem[rdi + FRAME_STACK_LEN] == left.len
            &&& returned.mem[rdi + FRAME_ERROR] == answer.mem[rdi + FRAME_ERROR]
            &&& returned.mem[rdi + FRAME_ERROR] != 0
        }),
{
    let s = VmState { frame, heap, at: 0 };
    let k = (n - 1) as nat;
    let last = vm_steps(p, world, runtime, s, k);
    let first = law_function_starts(p, world, runtime, caller, frame, heap);
    let calling = law_run_simulated(p, world, runtime, first, s, caller, k);
    law_reaches_transitive(p, world, caller, first, calling);
    assert(vm_ready(p, last));
    let middle = law_helper_op_simulated(p, world, runtime, calling, last, caller);
    law_failure_ends_run(p, world, runtime, s, n);
    assert(vm_steps(p, world, runtime, s, n) == vm_step(p, world, runtime, last));
    law_epilogue_runs(p, world, middle, caller);
    let returned = p.run(world, middle, 20);
    assert(p.reaches(world, middle, returned));
    law_reaches_transitive(p, world, calling, middle, returned);
    law_reaches_transitive(p, world, caller, calling, returned);
    (calling, returned)
}

/// The truth of a comparison of the last two values.
pub open spec fn comparison(op: Op, frame: FrameState) -> Option<bool> {
    match op {
        Op::NumEq => Some(frame.slots_equal(frame.len - 2, frame.len - 1)),
        Op::NumLt => Some(num_lt(frame.words[frame.len - 2], frame.words[frame.len - 1])),
        Op::NumGt => Some(num_lt(frame.words[frame.len - 1], frame.words[frame.len - 2])),
        _ => None,
    }
}

/// A comparison and a conditional jump behind it take both operands off the
/// stack, and go on behind the jump where the comparison is true, or with the
/// operation that the jump names where it is false.
pub proof fn law_comparison_branches<H>(
    p: Program,
    world: World,
    runtime: Runtime<H>,
    s: VmState<H>,
    target: usize,
)
    requires
        has_library_helpers(p, runtime),
        s.frame.wf(),
        s.frame.len >= 2,
        s.frame.error is None,
        0 <= s.at,
        s.at + 1 < p.ops.len(),
        comparison(p.ops[s.at], s.frame) is Some,
        p.ops[s.at + 1] == Op::JumpIfFalse(target),
        target < p.ops.len(),
    ensures
        vm_runs(p, world, runtime, s, 2),
        ({
            let after = vm_steps(p, world, runtime, s, 2);
            &&& after.frame.values() == s.frame.values().take(s.frame.len - 2)
            &&& after.frame.error is None
            &&& after.heap == s.heap
            &&& after.at == if comparison(p.ops[s.at], s.frame)->0 {
                s.at + 2
            } else {
                target as int
            }
        }),
{
    let op = p.ops[s.at];
    let truth = comparison(op, s.frame)->0;
    let lower = s.frame.resized((s.frame.len - 2) as nat);
    assert(is_helper_op(p, s.at));
    let helped = (runtime.helped)(s.at, s.frame, s.heap);
    assert(helper_leads(op, s.at as usize, s.frame, helped.0));
    assert(helped == (s.frame.compared(truth), s.heap));
    reveal_with_fuel(vm_steps, 3);
    let first = vm_steps(p, world, runtime, s, 1);
    assert(first == vm_step(p, world, runtime, s));
    assert(first.frame == lower.pushed(Datum::Bool(truth)));
    law_push_tested(lower, Datum::Bool(truth));
    let after = vm_steps(p, world, runtime, s, 2);
    assert(after == vm_step(p, world, runtime, first));
    assert(after.frame.values() =~= s.frame.values().take(s.frame.len - 2));
    assert forall|k: nat| k < 2 implies vm_ready(
        p,
        #[trigger] vm_steps(p, world, runtime, s, k),
    ) by {
        assert(k == 0 || k == 1);
    }
}

} // verus!
