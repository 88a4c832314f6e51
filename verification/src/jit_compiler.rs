//! The compiler from bytecode chunks to x86-64 instructions.
//!
//! Register usage of the compiled function: `RDI` holds the frame, `RBX` the
//! payload words of the operand stack, `R13` its tags, and `R12` the number of
//! slots in use.

use vstd::prelude::*;
use vstd::utf8::encode_utf8;

use crate::assembly::{Assembler, Instruction, Label, MemoryAddr, Operand, Register, XmmRegister};
use crate::bytecode::{
    carried_name, name_texts, share, text_address, Chunk, Datum, Expr, Op, TextAddress, Value,
};
use crate::double::{bool_bits, double_of_bool, double_of_int, nearest};
use crate::frame::FrameState;
use crate::jit_abi::{constant_requested, function_at, MakeFuncData, PendingOps, PendingState};

verus! {

/// The offset of the pointer to the payload words in the native frame.
pub const FRAME_STACK_PTR: i32 = 0;

/// The offset of the number of slots in use in the native frame.
pub const FRAME_STACK_LEN: i32 = 8;

/// The offset of the tag of the result in the native frame.
pub const FRAME_RESULT_TAG: i32 = 24;

/// The offset of the payload word of the result in the native frame.
pub const FRAME_RESULT_VAL: i32 = 32;

/// The offset of the pointer to the error in the native frame.
pub const FRAME_ERROR: i32 = 40;

/// The offset of the pointer to the tags in the native frame.
pub const FRAME_TAG_PTR: i32 = 48;

/// The size of the part of a native frame that compiled code works on.
pub const FRAME_SIZE: i32 = 56;

/// The size of the area on the native stack that keeps the SSE registers.
pub const XMM_SAVE_SIZE: i32 = 160;

/// The addresses of the runtime helpers.
#[derive(Clone, Copy, Debug, PartialEq, Eq, Structural)]
pub struct HelperTable {
    pub load_var: usize,
    pub store_var: usize,
    pub assign_var: usize,
    pub call: usize,
    pub tail_call: usize,
    pub make_list: usize,
    pub prepend_list: usize,
    pub append_splice: usize,
    pub tree_eval: usize,
    pub push_env: usize,
    pub pop_env: usize,
    pub store_self: usize,
    pub make_const: usize,
    pub make_func: usize,
    pub num_eq: usize,
    pub num_lt: usize,
    pub num_gt: usize,
}

/// The operand `[base + R12 * 8 + disp]`: a word of the last slot in use, or of
/// one near it.
pub open spec fn spec_slot(base: Register, disp: i32) -> Operand {
    Operand::Mem(
        MemoryAddr { base: Some(base), index: Some(Register::R12), scale: 8, disp },
    )
}

/// The operand `[base + R12 * 8 + disp]`.
#[verifier::when_used_as_spec(spec_slot)]
fn slot(base: Register, disp: i32) -> (operand: Operand)
    ensures
        operand == spec_slot(base, disp),
{
    Operand::Mem(MemoryAddr { base: Some(base), index: Some(Register::R12), scale: 8, disp })
}

/// The operand `[RDI + offset]`: a field of the native frame.
pub open spec fn spec_field(offset: i32) -> Operand {
    Operand::Mem(MemoryAddr::spec_base_disp(Register::RDI, offset))
}

/// The operand `[RDI + offset]`.
#[verifier::when_used_as_spec(spec_field)]
fn field(offset: i32) -> (operand: Operand)
    ensures
        operand == spec_field(offset),
{
    Operand::Mem(MemoryAddr::base_disp(Register::RDI, offset))
}

/// The SSE registers that the compiled function keeps for its caller.
pub open spec fn kept_xmm() -> Seq<XmmRegister> {
    seq![
        XmmRegister::XMM6,
        XmmRegister::XMM7,
        XmmRegister::XMM8,
        XmmRegister::XMM9,
        XmmRegister::XMM10,
        XmmRegister::XMM11,
        XmmRegister::XMM12,
        XmmRegister::XMM13,
        XmmRegister::XMM14,
        XmmRegister::XMM15,
    ]
}

/// The place on the native stack where an SSE register is kept.
pub open spec fn xmm_home(i: int) -> Operand {
    Operand::Mem(MemoryAddr::spec_base_disp(Register::RSP, (16 * i) as i32))
}

/// Saves the general-purpose registers of the caller and makes room on the
/// native stack.
pub open spec fn entry_code() -> Seq<Instruction> {
    seq![
        Instruction::Push(Operand::Reg(Register::RBP)),
        Instruction::Mov(Operand::Reg(Register::RBP), Operand::Reg(Register::RSP)),
        Instruction::Push(Operand::Reg(Register::RBX)),
        Instruction::Push(Operand::Reg(Register::R12)),
        Instruction::Push(Operand::Reg(Register::R13)),
        Instruction::Push(Operand::Reg(Register::R14)),
        Instruction::Push(Operand::Reg(Register::R15)),
        Instruction::Sub(Operand::Reg(Register::RSP), Operand::Imm32((8 + XMM_SAVE_SIZE) as i32)),
    ]
}

/// Saves the SSE registers of the caller.
pub open spec fn save_xmm_code() -> Seq<Instruction> {
    Seq::new(10, |i: int| Instruction::Movdqa(xmm_home(i), Operand::Xmm(kept_xmm()[i])))
}

/// Loads the registers from the native frame.
pub open spec fn load_frame_code() -> Seq<Instruction> {
    seq![
        Instruction::Mov(Operand::Reg(Register::RBX), spec_field(FRAME_STACK_PTR)),
        Instruction::Mov(Operand::Reg(Register::R12), spec_field(FRAME_STACK_LEN)),
        Instruction::Mov(Operand::Reg(Register::R13), spec_field(FRAME_TAG_PTR)),
    ]
}

/// The code before the operations.
pub open spec fn prologue_code() -> Seq<Instruction> {
    entry_code() + save_xmm_code() + load_frame_code()
}

/// Writes the number of slots in use back to the native frame.
pub open spec fn store_len_code() -> Seq<Instruction> {
    seq![
        Instruction::Label(Label::Epilogue),
        Instruction::Mov(spec_field(FRAME_STACK_LEN), Operand::Reg(Register::R12)),
    ]
}

/// Restores the SSE registers of the caller.
pub open spec fn restore_xmm_code() -> Seq<Instruction> {
    Seq::new(10, |i: int| Instruction::Movdqa(Operand::Xmm(kept_xmm()[i]), xmm_home(i)))
}

/// Restores the general-purpose registers of the caller and returns.
pub open spec fn exit_code() -> Seq<Instruction> {
    seq![
        Instruction::Add(Operand::Reg(Register::RSP), Operand::Imm32((8 + XMM_SAVE_SIZE) as i32)),
        Instruction::Pop(Operand::Reg(Register::R15)),
        Instruction::Pop(Operand::Reg(Register::R14)),
        Instruction::Pop(Operand::Reg(Register::R13)),
        Instruction::Pop(Operand::Reg(Register::R12)),
        Instruction::Pop(Operand::Reg(Register::RBX)),
        Instruction::Pop(Operand::Reg(Register::RBP)),
        Instruction::Ret,
    ]
}

/// The code behind the operations.
pub open spec fn epilogue_code() -> Seq<Instruction> {
    store_len_code() + restore_xmm_code() + exit_code()
}

/// Pushes a number, given as the bit pattern of a double.
pub open spec fn push_number_code(bits: u64) -> Seq<Instruction> {
    seq![
        Instruction::Mov(Operand::Reg(Register::RAX), Operand::Imm64(bits)),
        Instruction::Mov(spec_slot(Register::R13, 0), Operand::Imm32(0)),
        Instruction::Mov(spec_slot(Register::RBX, 0), Operand::Reg(Register::RAX)),
        Instruction::Add(Operand::Reg(Register::R12), Operand::Imm32(1)),
    ]
}

/// Pushes nil.
pub open spec fn push_nil_code() -> Seq<Instruction> {
    seq![
        Instruction::Mov(spec_slot(Register::R13, 0), Operand::Imm32(1)),
        Instruction::Mov(spec_slot(Register::RBX, 0), Operand::Imm32(0)),
        Instruction::Add(Operand::Reg(Register::R12), Operand::Imm32(1)),
    ]
}

/// Drops the last value.
pub open spec fn pop_code() -> Seq<Instruction> {
    seq![Instruction::Sub(Operand::Reg(Register::R12), Operand::Imm32(1))]
}

/// Pops the last value, and jumps where it is nil or the number zero.
pub open spec fn jump_if_false_code(i: usize, target: usize) -> Seq<Instruction> {
    seq![
        Instruction::Sub(Operand::Reg(Register::R12), Operand::Imm32(1)),
        Instruction::Mov(Operand::Reg(Register::RDX), spec_slot(Register::R13, 0)),
        Instruction::Mov(Operand::Reg(Register::RAX), spec_slot(Register::RBX, 0)),
        Instruction::Cmp(Operand::Reg(Register::RDX), Operand::Imm32(1)),
        Instruction::JeLabel(Label::Op(target)),
        Instruction::Cmp(Operand::Reg(Register::RDX), Operand::Imm32(0)),
        Instruction::JneLabel(Label::JifCont(i)),
        Instruction::Cmp(Operand::Reg(Register::RAX), Operand::Imm32(0)),
        Instruction::JeLabel(Label::Op(target)),
        Instruction::Label(Label::JifCont(i)),
    ]
}

/// Pops the last value, as the result, and leaves the function.
pub open spec fn return_code() -> Seq<Instruction> {
    seq![
        Instruction::Sub(Operand::Reg(Register::R12), Operand::Imm32(1)),
        Instruction::Mov(Operand::Reg(Register::RDX), spec_slot(Register::R13, 0)),
        Instruction::Mov(spec_field(FRAME_RESULT_TAG), Operand::Reg(Register::RDX)),
        Instruction::Mov(Operand::Reg(Register::RAX), spec_slot(Register::RBX, 0)),
        Instruction::Mov(spec_field(FRAME_RESULT_VAL), Operand::Reg(Register::RAX)),
        Instruction::JmpLabel(Label::Epilogue),
    ]
}

/// Writes the number of slots in use back, keeps the frame on the native stack
/// and aligns that.
pub open spec fn call_entry_code() -> Seq<Instruction> {
    seq![
        Instruction::Mov(spec_field(FRAME_STACK_LEN), Operand::Reg(Register::R12)),
        Instruction::Push(Operand::Reg(Register::RDI)),
        Instruction::Sub(Operand::Reg(Register::RSP), Operand::Imm32(8)),
    ]
}

/// Loads an argument, where there is one.
pub open spec fn argument_code(register: Register, argument: Option<u64>) -> Seq<Instruction> {
    match argument {
        Some(word) => seq![Instruction::Mov(Operand::Reg(register), Operand::Imm64(word))],
        None => Seq::empty(),
    }
}

/// Calls the helper, loads the registers from the frame again, and leaves the
/// function where the helper has noted an error.
pub open spec fn call_exit_code(helper_ptr: u64) -> Seq<Instruction> {
    seq![
        Instruction::Mov(Operand::Reg(Register::RAX), Operand::Imm64(helper_ptr)),
        Instruction::Call(Operand::Reg(Register::RAX)),
        Instruction::Add(Operand::Reg(Register::RSP), Operand::Imm32(8)),
        Instruction::Pop(Operand::Reg(Register::RDI)),
        Instruction::Mov(Operand::Reg(Register::RBX), spec_field(FRAME_STACK_PTR)),
        Instruction::Mov(Operand::Reg(Register::R12), spec_field(FRAME_STACK_LEN)),
        Instruction::Mov(Operand::Reg(Register::R13), spec_field(FRAME_TAG_PTR)),
        Instruction::Mov(Operand::Reg(Register::RAX), spec_field(FRAME_ERROR)),
        Instruction::Cmp(Operand::Reg(Register::RAX), Operand::Imm32(0)),
        Instruction::JneLabel(Label::Epilogue),
    ]
}

/// Calls a runtime helper with the frame and up to two more arguments.
pub open spec fn helper_call_code(
    helper_ptr: u64,
    arg1: Option<u64>,
    arg2: Option<u64>,
) -> Seq<Instruction> {
    call_entry_code() + argument_code(Register::RSI, arg1) + argument_code(Register::RDX, arg2)
        + call_exit_code(helper_ptr)
}

/// Whether the operation is one of the four that are computed in place.
pub open spec fn is_num_binop(op: Op) -> bool {
    op is NumAdd || op is NumSub || op is NumMul || op is NumDiv
}

/// The SSE instruction of an arithmetic operation, on the first two registers.
pub open spec fn binop_instruction(op: Op) -> Instruction {
    let a = Operand::Xmm(XmmRegister::XMM0);
    let b = Operand::Xmm(XmmRegister::XMM1);
    match op {
        Op::NumAdd => Instruction::Addsd(a, b),
        Op::NumSub => Instruction::Subsd(a, b),
        Op::NumMul => Instruction::Mulsd(a, b),
        _ => Instruction::Divsd(a, b),
    }
}

/// Replaces the last two numbers by the result of an arithmetic operation.
pub open spec fn num_binop_code(op: Op) -> Seq<Instruction> {
    seq![
        Instruction::Sub(Operand::Reg(Register::R12), Operand::Imm32(2)),
        Instruction::Movsd(Operand::Xmm(XmmRegister::XMM0), spec_slot(Register::RBX, 0)),
        Instruction::Movsd(Operand::Xmm(XmmRegister::XMM1), spec_slot(Register::RBX, 8)),
        binop_instruction(op),
        Instruction::Movsd(spec_slot(Register::RBX, 0), Operand::Xmm(XmmRegister::XMM0)),
        Instruction::Add(Operand::Reg(Register::R12), Operand::Imm32(1)),
    ]
}

/// The number of bytes of a name.
pub open spec fn name_len(name: String) -> u64 {
    encode_utf8(name@).len() as u64
}

/// The code of an operation without its label. `address` is where the name that
/// the operation carries is found, if it carries one, or the number of the
/// constant that it loads through the helper.
pub open spec fn op_body_code(
    op: Op,
    i: usize,
    helpers: HelperTable,
    address: u64,
) -> Seq<Instruction> {
    match op {
        Op::LoadConst(Value::Int(n)) => push_number_code(nearest(n as int)),
        Op::LoadConst(Value::Float(bits)) => push_number_code(bits),
        Op::LoadConst(Value::Bool(b)) => push_number_code(bool_bits(b)),
        Op::LoadConst(Value::Nil) => push_nil_code(),
        Op::LoadNil => push_nil_code(),
        Op::LoadConst(Value::Object(_)) => helper_call_code(
            helpers.make_const as u64,
            Some(address),
            None,
        ),
        Op::Pop => pop_code(),
        Op::Jump(target) => seq![Instruction::JmpLabel(Label::Op(target))],
        Op::JumpIfFalse(target) => jump_if_false_code(i, target),
        Op::Return => return_code(),
        Op::LoadVar(name) => helper_call_code(
            helpers.load_var as u64,
            Some(address),
            Some(name_len(name)),
        ),
        Op::StoreVar(name) => helper_call_code(
            helpers.store_var as u64,
            Some(address),
            Some(name_len(name)),
        ),
        Op::AssignVar(name) => helper_call_code(
            helpers.assign_var as u64,
            Some(address),
            Some(name_len(name)),
        ),
        Op::Call(n_args) => helper_call_code(helpers.call as u64, Some(n_args as u64), None),
        Op::TailCall(n_args) => helper_call_code(
            helpers.tail_call as u64,
            Some(n_args as u64),
            None,
        ),
        Op::MakeFunc { .. } => helper_call_code(helpers.make_func as u64, Some(i as u64), None),
        Op::MakeList(n) => helper_call_code(helpers.make_list as u64, Some(n as u64), None),
        Op::PrependList => helper_call_code(helpers.prepend_list as u64, None, None),
        Op::AppendSplice => helper_call_code(helpers.append_splice as u64, None, None),
        Op::TreeEval(expr) => helper_call_code(
            helpers.tree_eval as u64,
            Some(expr.address),
            None,
        ),
        Op::PushEnv => helper_call_code(helpers.push_env as u64, None, None),
        Op::PopEnv => helper_call_code(helpers.pop_env as u64, None, None),
        Op::StoreSelf(name) => helper_call_code(
            helpers.store_self as u64,
            Some(address),
            Some(name_len(name)),
        ),
        Op::NumAdd | Op::NumSub | Op::NumMul | Op::NumDiv => num_binop_code(op),
        Op::NumEq => helper_call_code(helpers.num_eq as u64, None, None),
        Op::NumLt => helper_call_code(helpers.num_lt as u64, None, None),
        Op::NumGt => helper_call_code(helpers.num_gt as u64, None, None),
    }
}

/// The code of an operation.
pub open spec fn op_code(
    op: Op,
    i: usize,
    helpers: HelperTable,
    address: u64,
) -> Seq<Instruction> {
    seq![Instruction::Label(Label::Op(i))] + op_body_code(op, i, helpers, address)
}

/// The code of the first `n` operations.
pub open spec fn ops_code(
    ops: Seq<Op>,
    helpers: HelperTable,
    addresses: Seq<u64>,
    n: nat,
) -> Seq<Instruction>
    decreases n,
{
    if n == 0 {
        Seq::empty()
    } else {
        ops_code(ops, helpers, addresses, (n - 1) as nat) + op_code(
            ops[n - 1],
            (n - 1) as usize,
            helpers,
            addresses[n - 1],
        )
    }
}

/// The code of a chunk, given the addresses of the names that its operations
/// carry, and the numbers of the constants that go through the helper.
pub open spec fn chunk_code(
    ops: Seq<Op>,
    helpers: HelperTable,
    addresses: Seq<u64>,
) -> Seq<Instruction> {
    prologue_code() + ops_code(ops, helpers, addresses, ops.len()) + epilogue_code()
}

/// Whether an operation is a constant load that goes through the helper.
pub open spec fn is_object_load(op: Op) -> bool {
    op matches Op::LoadConst(Value::Object(_))
}

/// The number of constant loads that go through the helper, among the first `n`
/// operations.
pub open spec fn object_loads(ops: Seq<Op>, n: nat) -> nat
    decreases n,
{
    if n == 0 {
        0
    } else {
        object_loads(ops, (n - 1) as nat) + (if is_object_load(ops[n - 1]) {
            1nat
        } else {
            0nat
        })
    }
}

/// The number by which the helper finds a constant load: zero for the last one
/// of the chunk, and from one on for those before it.
pub open spec fn constant_number(ops: Seq<Op>, i: int) -> nat {
    let ordinal = object_loads(ops, (i + 1) as nat);
    if ordinal == object_loads(ops, ops.len()) {
        0
    } else {
        ordinal
    }
}

/// What each operation passes on, given the addresses of the names.
pub open spec fn passed_words(ops: Seq<Op>, addresses: Seq<u64>) -> Seq<u64> {
    Seq::new(
        ops.len(),
        |i: int|
            if is_object_load(ops[i]) {
                constant_number(ops, i) as u64
            } else {
                addresses[i]
            },
    )
}

/// What is pending after the operation at an index was compiled. A constant load
/// has a number.
pub open spec fn pending_after(
    op: Op,
    op_index: usize,
    number: u64,
    pending: PendingState,
) -> PendingState {
    match op {
        Op::LoadConst(Value::Object(_)) => if number == 0 {
            PendingState { op: Some(op), ..pending }
        } else {
            PendingState { earlier: pending.earlier.push(Some(op)), ..pending }
        },
        Op::MakeFunc { params, body_expr, code_offset } => PendingState {
            make_func: pending.make_func.push(
                MakeFuncData { op_index, code_offset, params, body_expr },
            ),
            ..pending
        },
        _ => pending,
    }
}

/// What is pending after the first `n` operations were compiled.
pub open spec fn pending_after_ops(ops: Seq<Op>, pending: PendingState, n: nat) -> PendingState
    decreases n,
{
    if n == 0 {
        pending
    } else {
        pending_after(
            ops[n - 1],
            (n - 1) as usize,
            constant_number(ops, n - 1) as u64,
            pending_after_ops(ops, pending, (n - 1) as nat),
        )
    }
}

/// The pending operations without those that are kept by number or by index.
pub open spec fn cleared(pending: PendingState) -> PendingState {
    PendingState { op: pending.op, earlier: Seq::empty(), make_func: Seq::empty() }
}

/// What is pending after a chunk was compiled: the constant loads and the
/// function creations of the chunk. A last constant load that was pending before
/// stays where the chunk has none.
pub open spec fn pending_after_chunk(ops: Seq<Op>, pending: PendingState) -> PendingState {
    pending_after_ops(ops, cleared(pending), ops.len())
}

proof fn lemma_object_loads_grow(ops: Seq<Op>, m: nat, n: nat)
    requires
        m <= n,
    ensures
        object_loads(ops, m) <= object_loads(ops, n) <= object_loads(ops, m) + (n - m),
    decreases n,
{
    if m < n {
        lemma_object_loads_grow(ops, m, (n - 1) as nat);
    }
}

/// After the first `n` operations, each constant load among them is found by its
/// number.
proof fn lemma_constants_kept(ops: Seq<Op>, pending: PendingState, n: nat)
    requires
        n <= ops.len() <= usize::MAX,
    ensures
        ({
            let after = pending_after_ops(ops, cleared(pending), n);
            let found = object_loads(ops, n);
            let all = object_loads(ops, ops.len());
            &&& found < all ==> after.op == pending.op && after.earlier.len() == found
            &&& found == all && all > 0 ==> after.earlier.len() == all - 1
            &&& all == 0 ==> after.op == pending.op && after.earlier.len() == 0
            &&& forall|i: int|
                0 <= i < n && is_object_load(#[trigger] ops[i]) ==> after.constant(
                    constant_number(ops, i) as usize,
                ) == Some(ops[i])
        }),
    decreases n,
{
    lemma_object_loads_grow(ops, 0, ops.len());
    lemma_object_loads_grow(ops, n, ops.len());
    if n > 0 {
        let k = (n - 1) as nat;
        lemma_constants_kept(ops, pending, k);
        lemma_object_loads_grow(ops, k, ops.len());
        let before = pending_after_ops(ops, cleared(pending), k);
        let after = pending_after_ops(ops, cleared(pending), n);
        assert forall|i: int|
            0 <= i < n && is_object_load(#[trigger] ops[i]) implies after.constant(
            constant_number(ops, i) as usize,
        ) == Some(ops[i]) by {
            lemma_object_loads_grow(ops, 0, i as nat);
            lemma_object_loads_grow(ops, (i + 1) as nat, ops.len());
            if i < k {
                lemma_object_loads_grow(ops, (i + 1) as nat, k);
                assert(before.constant(constant_number(ops, i) as usize) == Some(ops[i]));
            }
        }
    }
}

/// Each constant load finds itself pending by its number, whatever was pending
/// before the chunk was compiled; the last one is the one that is pending under
/// zero.
pub proof fn law_own_constant_pending(ops: Seq<Op>, pending: PendingState, i: int)
    requires
        0 <= i < ops.len() <= usize::MAX,
        is_object_load(ops[i]),
    ensures
        pending_after_chunk(ops, pending).constant(constant_number(ops, i) as usize) == Some(
            ops[i],
        ),
        (forall|j: int| i < j < ops.len() ==> !is_object_load(#[trigger] ops[j]))
            ==> pending_after_chunk(ops, pending).op == Some(ops[i]),
{
    lemma_constants_kept(ops, pending, ops.len());
    if forall|j: int| i < j < ops.len() ==> !is_object_load(#[trigger] ops[j]) {
        lemma_no_more_loads(ops, (i + 1) as nat, ops.len());
    }
}

proof fn lemma_no_more_loads(ops: Seq<Op>, m: nat, n: nat)
    requires
        m <= n <= ops.len(),
        forall|j: int| m <= j < n ==> !is_object_load(#[trigger] ops[j]),
    ensures
        object_loads(ops, n) == object_loads(ops, m),
    decreases n,
{
    if m < n {
        lemma_no_more_loads(ops, m, (n - 1) as nat);
        assert(!is_object_load(ops[n - 1]));
    }
}

/// What the compiler has left, the helper asks for: each constant load passes on
/// its own number, and by that number the helper finds its constant, without an
/// error.
pub proof fn law_own_constant_made(
    ops: Seq<Op>,
    addresses: Seq<u64>,
    pending: PendingState,
    i: int,
    frame: FrameState,
)
    requires
        0 <= i < ops.len() <= usize::MAX,
        is_object_load(ops[i]),
    ensures
        ({
            let op = pending_after_chunk(ops, pending).constant(
                passed_words(ops, addresses)[i] as usize,
            );
            &&& constant_requested(op) is Some
            &&& ops[i] == Op::LoadConst(constant_requested(op)->0)
            &&& frame.constant_taken(op) == frame
        }),
{
    law_own_constant_pending(ops, pending, i);
    lemma_object_loads_grow(ops, 0, (i + 1) as nat);
}

proof fn lemma_functions_kept(ops: Seq<Op>, pending: PendingState, i: usize, n: nat)
    requires
        n <= ops.len() <= usize::MAX,
        i < ops.len(),
    ensures
        function_at(pending_after_ops(ops, pending, n).make_func, i) == if i < n {
            match ops[i as int] {
                Op::MakeFunc { params, body_expr, code_offset } => Some(
                    MakeFuncData { op_index: i, code_offset, params, body_expr },
                ),
                _ => function_at(pending.make_func, i),
            }
        } else {
            function_at(pending.make_func, i)
        },
    decreases n,
{
    if n > 0 {
        let before = pending_after_ops(ops, pending, (n - 1) as nat);
        lemma_functions_kept(ops, pending, i, (n - 1) as nat);
        if let Op::MakeFunc { params, body_expr, code_offset } = ops[n - 1] {
            let entry = MakeFuncData {
                op_index: (n - 1) as usize,
                code_offset,
                params,
                body_expr,
            };
            assert(before.make_func.push(entry).drop_last() =~= before.make_func);
        }
    }
}

/// Each function creation finds what it carries, and no other operation finds
/// anything, whatever was pending before the chunk was compiled.
pub proof fn law_own_function_pending(ops: Seq<Op>, pending: PendingState, i: usize)
    requires
        i < ops.len() <= usize::MAX,
    ensures
        function_at(pending_after_chunk(ops, pending).make_func, i) == match ops[i as int] {
            Op::MakeFunc { params, body_expr, code_offset } => Some(
                MakeFuncData { op_index: i, code_offset, params, body_expr },
            ),
            _ => None,
        },
{
    lemma_functions_kept(ops, cleared(pending), i, ops.len());
}

/// What the compiler has left, the helper makes the closure of: each function
/// creation of a chunk makes its own function, in the environment of the frame.
pub proof fn law_own_function_made(
    ops: Seq<Op>,
    pending: PendingState,
    i: usize,
    frame: FrameState,
)
    requires
        i < ops.len() <= usize::MAX,
        ops[i as int] is MakeFunc,
    ensures
        ops[i as int] matches Op::MakeFunc { params, body_expr, code_offset } && (code_offset
            < frame.chunk.sub_chunks@.len() ==> frame.function_made(
            function_at(pending_after_chunk(ops, pending).make_func, i),
        ) == frame.pushed(
            Datum::Closure {
                chunk: *frame.chunk.sub_chunks@[code_offset as int],
                params: name_texts(params@),
                body_expr: Expr::Pinned(body_expr),
                env: frame.env,
            },
        )),
{
    law_own_function_pending(ops, pending, i);
}

/// Compiling a chunk that loads no constant through the helper leaves the last
/// constant load that is pending alone.
pub proof fn law_no_constant_pending(ops: Seq<Op>, pending: PendingState)
    requires
        ops.len() <= usize::MAX,
        forall|j: int| 0 <= j < ops.len() ==> !is_object_load(#[trigger] ops[j]),
    ensures
        pending_after_chunk(ops, pending).op == pending.op,
        pending_after_chunk(ops, pending).earlier == Seq::<Option<Op>>::empty(),
{
    lemma_no_more_loads(ops, 0, ops.len());
    lemma_constants_kept(ops, pending, ops.len());
}

/// Whether addresses are those of the names that operations carry: one for each
/// operation that carries a name, and none for the others.
pub open spec fn names_lie_at(ops: Seq<Op>, places: Seq<Option<TextAddress>>) -> bool {
    &&& places.len() == ops.len()
    &&& forall|i: int|
        0 <= i < ops.len() ==> match carried_name(&ops[i]) {
            Some(name) => #[trigger] places[i] is Some && places[i]->0.text() == name@,
            None => places[i] is None,
        }
}

/// The addresses as numbers.
pub open spec fn place_numbers(places: Seq<Option<TextAddress>>) -> Seq<u64> {
    Seq::new(
        places.len(),
        |i: int|
            match places[i] {
                Some(place) => place.number(),
                None => 0,
            },
    )
}

/// Appending four pieces one by one is appending all of them.
proof fn lemma_append_pieces(
    start: Seq<Instruction>,
    a: Seq<Instruction>,
    b: Seq<Instruction>,
    c: Seq<Instruction>,
    d: Seq<Instruction>,
)
    ensures
        start + a + b + c + d == start + (a + b + c + d),
{
    assert(start + a + b + c + d =~= start + (a + b + c + d));
}

/// The compiler.
pub struct JitCompiler;

impl JitCompiler {
    /// Compiles a chunk. The names that the operations carry are passed to the
    /// helpers by address, so the code is good for as long as the chunk stays
    /// where it is. Hands out these addresses beside the code. Which numbers they
    /// are differs from run to run, and no clause says it.
    pub fn compile_chunk(
        chunk: &Chunk,
        helpers: &HelperTable,
        pending: &mut PendingOps,
    ) -> (compiled: (Assembler, Vec<Option<TextAddress>>))
        ensures
            names_lie_at(chunk.ops@, compiled.1@),
            compiled.0@ == chunk_code(
                chunk.ops@,
                *helpers,
                passed_words(chunk.ops@, place_numbers(compiled.1@)),
            ),
            final(pending)@ == pending_after_chunk(chunk.ops@, old(pending)@),
    {
        let mut addresses: Vec<u64> = Vec::new();
        let mut places: Vec<Option<TextAddress>> = Vec::new();
        let mut i: usize = 0;
        while i < chunk.ops.len()
            invariant
                i <= chunk.ops@.len(),
                places@.len() == i,
                addresses@ == place_numbers(places@),
                names_lie_at(chunk.ops@.take(i as int), places@),
            decreases chunk.ops@.len() - i,
        {
            let place = match carried_name(&chunk.ops[i]) {
                Some(name) => Some(text_address(name.as_str())),
                None => None,
            };
            addresses.push(
                match &place {
                    Some(address) => address.number(),
                    None => 0,
                },
            );
            let ghost before = places@;
            places.push(place);
            proof {
                assert forall|j: int| 0 <= j <= i implies match carried_name(
                    &chunk.ops@.take(i + 1)[j],
                ) {
                    Some(name) => #[trigger] places@[j] is Some && places@[j]->0.text() == name@,
                    None => places@[j] is None,
                } by {
                    if j < i {
                        assert(chunk.ops@.take(i + 1)[j] == chunk.ops@.take(i as int)[j]);
                        assert(places@[j] == before[j]);
                    }
                }
            }
            i = i + 1;
        }
        assert(chunk.ops@.take(i as int) =~= chunk.ops@);
        let code = Self::compile_chunk_at(chunk, helpers, &addresses, pending);
        (code, places)
    }

    /// The number of constant loads that go through the helper.
    fn count_object_loads(chunk: &Chunk) -> (count: usize)
        ensures
            count == object_loads(chunk.ops@, chunk.ops@.len()),
    {
        let mut count: usize = 0;
        let mut i: usize = 0;
        while i < chunk.ops.len()
            invariant
                i <= chunk.ops@.len(),
                count <= i,
                count == object_loads(chunk.ops@, i as nat),
            decreases chunk.ops@.len() - i,
        {
            if let Op::LoadConst(Value::Object(_)) = &chunk.ops[i] {
                count = count + 1;
            }
            i = i + 1;
        }
        count
    }

    /// Compiles a chunk, given the addresses of the names that its operations
    /// carry.
    pub fn compile_chunk_at(
        chunk: &Chunk,
        helpers: &HelperTable,
        addresses: &Vec<u64>,
        pending: &mut PendingOps,
    ) -> (code: Assembler)
        requires
            addresses@.len() == chunk.ops@.len(),
        ensures
            code@ == chunk_code(chunk.ops@, *helpers, passed_words(chunk.ops@, addresses@)),
            final(pending)@ == pending_after_chunk(chunk.ops@, old(pending)@),
    {
        pending.earlier.clear();
        pending.make_func.clear();
        let ghost start = pending@;
        let ghost words = passed_words(chunk.ops@, addresses@);
        assert(start =~= cleared(old(pending)@));
        let mut code = Assembler::new();
        Self::emit_prologue(&mut code);
        assert(code@ =~= prologue_code() + ops_code(chunk.ops@, *helpers, words, 0));
        let all = Self::count_object_loads(chunk);
        let mut found: usize = 0;
        let mut i: usize = 0;
        while i < chunk.ops.len()
            invariant
                i <= chunk.ops@.len(),
                addresses@.len() == chunk.ops@.len(),
                words == passed_words(chunk.ops@, addresses@),
                code@ == prologue_code() + ops_code(chunk.ops@, *helpers, words, i as nat),
                pending@ == pending_after_ops(chunk.ops@, start, i as nat),
                found <= i,
                found == object_loads(chunk.ops@, i as nat),
                all == object_loads(chunk.ops@, chunk.ops@.len()),
            decreases chunk.ops@.len() - i,
        {
            let word = match &chunk.ops[i] {
                Op::LoadConst(Value::Object(_)) => {
                    found = found + 1;
                    if found == all {
                        0
                    } else {
                        found as u64
                    }
                },
                _ => addresses[i],
            };
            assert(word == words[i as int]);
            Self::emit_op(&mut code, chunk, i, helpers, word, pending);
            i = i + 1;
            assert(code@ =~= prologue_code() + ops_code(chunk.ops@, *helpers, words, i as nat));
        }
        Self::emit_epilogue(&mut code);
        code
    }

    /// Emits the code before the operations.
    fn emit_prologue(code: &mut Assembler)
        ensures
            final(code)@ == old(code)@ + prologue_code(),
    {
        code.add_instruction(Instruction::Push(Operand::Reg(Register::RBP)));
        code.add_instruction(
            Instruction::Mov(Operand::Reg(Register::RBP), Operand::Reg(Register::RSP)),
        );
        code.add_instruction(Instruction::Push(Operand::Reg(Register::RBX)));
        code.add_instruction(Instruction::Push(Operand::Reg(Register::R12)));
        code.add_instruction(Instruction::Push(Operand::Reg(Register::R13)));
        code.add_instruction(Instruction::Push(Operand::Reg(Register::R14)));
        code.add_instruction(Instruction::Push(Operand::Reg(Register::R15)));
        // Room for the SSE registers, and alignment to 16 bytes.
        code.add_instruction(
            Instruction::Sub(Operand::Reg(Register::RSP), Operand::Imm32(8 + XMM_SAVE_SIZE)),
        );
        assert(code@ =~= old(code)@ + entry_code());
        let ghost before = code@;
        let mut i: usize = 0;
        let xmm_callee = Self::callee_saved_xmm();
        while i < 10
            invariant
                i <= 10,
                xmm_callee@ == kept_xmm(),
                code@ == before + save_xmm_code().take(i as int),
            decreases 10 - i,
        {
            let offset: i32 = (i as i32) * 16;
            code.add_instruction(
                Instruction::Movdqa(
                    Operand::Mem(MemoryAddr::base_disp(Register::RSP, offset)),
                    Operand::Xmm(xmm_callee[i]),
                ),
            );
            i = i + 1;
            assert(code@ =~= before + save_xmm_code().take(i as int));
        }
        assert(save_xmm_code().take(10) =~= save_xmm_code());
        let ghost before = code@;
        code.add_instruction(
            Instruction::Mov(Operand::Reg(Register::RBX), field(FRAME_STACK_PTR)),
        );
        code.add_instruction(
            Instruction::Mov(Operand::Reg(Register::R12), field(FRAME_STACK_LEN)),
        );
        code.add_instruction(Instruction::Mov(Operand::Reg(Register::R13), field(FRAME_TAG_PTR)));
        assert(code@ =~= before + load_frame_code());
        assert(code@ =~= old(code)@ + prologue_code());
    }

    /// The SSE registers that the compiled function keeps for its caller.
    fn callee_saved_xmm() -> (registers: [XmmRegister; 10])
        ensures
            registers@ == kept_xmm(),
    {
        let registers: [XmmRegister; 10] = [
            XmmRegister::XMM6,
            XmmRegister::XMM7,
            XmmRegister::XMM8,
            XmmRegister::XMM9,
            XmmRegister::XMM10,
            XmmRegister::XMM11,
            XmmRegister::XMM12,
            XmmRegister::XMM13,
            XmmRegister::XMM14,
            XmmRegister::XMM15,
        ];
        assert(registers@ =~= kept_xmm());
        registers
    }

    /// Emits the code behind the operations.
    fn emit_epilogue(code: &mut Assembler)
        ensures
            final(code)@ == old(code)@ + epilogue_code(),
    {
        code.add_instruction(Instruction::Label(Label::Epilogue));
        code.add_instruction(
            Instruction::Mov(field(FRAME_STACK_LEN), Operand::Reg(Register::R12)),
        );
        assert(code@ =~= old(code)@ + store_len_code());
        let ghost before = code@;
        let mut i: usize = 0;
        let xmm_callee = Self::callee_saved_xmm();
        while i < 10
            invariant
                i <= 10,
                xmm_callee@ == kept_xmm(),
                code@ == before + restore_xmm_code().take(i as int),
            decreases 10 - i,
        {
            let offset: i32 = (i as i32) * 16;
            code.add_instruction(
                Instruction::Movdqa(
                    Operand::Xmm(xmm_callee[i]),
                    Operand::Mem(MemoryAddr::base_disp(Register::RSP, offset)),
                ),
            );
            i = i + 1;
            assert(code@ =~= before + restore_xmm_code().take(i as int));
        }
        assert(restore_xmm_code().take(10) =~= restore_xmm_code());
        let ghost before = code@;
        code.add_instruction(
            Instruction::Add(Operand::Reg(Register::RSP), Operand::Imm32(8 + XMM_SAVE_SIZE)),
        );
        code.add_instruction(Instruction::Pop(Operand::Reg(Register::R15)));
        code.add_instruction(Instruction::Pop(Operand::Reg(Register::R14)));
        code.add_instruction(Instruction::Pop(Operand::Reg(Register::R13)));
        code.add_instruction(Instruction::Pop(Operand::Reg(Register::R12)));
        code.add_instruction(Instruction::Pop(Operand::Reg(Register::RBX)));
        code.add_instruction(Instruction::Pop(Operand::Reg(Register::RBP)));
        code.add_instruction(Instruction::Ret);
        assert(code@ =~= before + exit_code());
        assert(code@ =~= old(code)@ + epilogue_code());
    }

    /// Emits the code of one operation of a chunk.
    fn emit_op(
        code: &mut Assembler,
        chunk: &Chunk,
        i: usize,
        helpers: &HelperTable,
        address: u64,
        pending: &mut PendingOps,
    )
        requires
            i < chunk.ops@.len(),
        ensures
            final(code)@ == old(code)@ + op_code(chunk.ops@[i as int], i, *helpers, address),
            final(pending)@ == pending_after(chunk.ops@[i as int], i, address, old(pending)@),
    {
        code.add_instruction(Instruction::Label(Label::Op(i)));
        let ghost start = code@;
        let op = &chunk.ops[i];
        match op {
            Op::LoadConst(Value::Int(n)) => Self::emit_push_number(code, double_of_int(*n)),
            Op::LoadConst(Value::Float(bits)) => Self::emit_push_number(code, *bits),
            Op::LoadConst(Value::Bool(b)) => Self::emit_push_number(code, double_of_bool(*b)),
            Op::LoadConst(Value::Nil) => Self::emit_push_nil(code),
            Op::LoadNil => Self::emit_push_nil(code),
            Op::LoadConst(Value::Object(_)) => {
                if address == 0 {
                    Self::emit_make_const_helper(code, op, helpers, pending);
                } else {
                    pending.earlier.push(Some(op.clone()));
                    Self::emit_helper_call(code, helpers.make_const, Some(address), None);
                }
            },
            Op::Pop => {
                code.add_instruction(
                    Instruction::Sub(Operand::Reg(Register::R12), Operand::Imm32(1)),
                );
                assert(code@ =~= start + pop_code());
            },
            Op::Jump(target) => {
                code.add_instruction(Instruction::JmpLabel(Label::Op(*target)));
                assert(code@ =~= start + seq![Instruction::JmpLabel(Label::Op(*target))]);
            },
            Op::JumpIfFalse(target) => Self::emit_jump_if_false(code, i, *target),
            Op::Return => Self::emit_return(code),
            Op::LoadVar(name) => {
                let len = name.as_str().as_bytes().len() as u64;
                Self::emit_helper_call(code, helpers.load_var, Some(address), Some(len));
            },
            Op::StoreVar(name) => {
                let len = name.as_str().as_bytes().len() as u64;
                Self::emit_helper_call(code, helpers.store_var, Some(address), Some(len));
            },
            Op::AssignVar(name) => {
                let len = name.as_str().as_bytes().len() as u64;
                Self::emit_helper_call(code, helpers.assign_var, Some(address), Some(len));
            },
            Op::Call(n_args) => {
                Self::emit_helper_call(code, helpers.call, Some(*n_args as u64), None);
            },
            Op::TailCall(n_args) => {
                Self::emit_helper_call(code, helpers.tail_call, Some(*n_args as u64), None);
            },
            Op::MakeFunc { code_offset, .. } => {
                Self::emit_make_func_helper(code, chunk, *code_offset, i, helpers, pending);
            },
            Op::MakeList(n) => {
                Self::emit_helper_call(code, helpers.make_list, Some(*n as u64), None);
            },
            Op::PrependList => Self::emit_helper_call(code, helpers.prepend_list, None, None),
            Op::AppendSplice => Self::emit_helper_call(code, helpers.append_splice, None, None),
            Op::TreeEval(expr) => {
                Self::emit_helper_call(code, helpers.tree_eval, Some(expr.address), None);
            },
            Op::PushEnv => Self::emit_helper_call(code, helpers.push_env, None, None),
            Op::PopEnv => Self::emit_helper_call(code, helpers.pop_env, None, None),
            Op::StoreSelf(name) => {
                let len = name.as_str().as_bytes().len() as u64;
                Self::emit_helper_call(code, helpers.store_self, Some(address), Some(len));
            },
            Op::NumAdd => Self::emit_num_binop(code, op),
            Op::NumSub => Self::emit_num_binop(code, op),
            Op::NumMul => Self::emit_num_binop(code, op),
            Op::NumDiv => Self::emit_num_binop(code, op),
            Op::NumEq => Self::emit_helper_call(code, helpers.num_eq, None, None),
            Op::NumLt => Self::emit_helper_call(code, helpers.num_lt, None, None),
            Op::NumGt => Self::emit_helper_call(code, helpers.num_gt, None, None),
        }
        assert(code@ == start + op_body_code(*op, i, *helpers, address));
        assert(code@ =~= old(code)@ + op_code(*op, i, *helpers, address));
    }

    /// Emits the push of a number.
    fn emit_push_number(code: &mut Assembler, bits: u64)
        ensures
            final(code)@ == old(code)@ + push_number_code(bits),
    {
        code.add_instruction(Instruction::Mov(Operand::Reg(Register::RAX), Operand::Imm64(bits)));
        code.add_instruction(Instruction::Mov(slot(Register::R13, 0), Operand::Imm32(0)));
        code.add_instruction(
            Instruction::Mov(slot(Register::RBX, 0), Operand::Reg(Register::RAX)),
        );
        code.add_instruction(Instruction::Add(Operand::Reg(Register::R12), Operand::Imm32(1)));
        assert(code@ =~= old(code)@ + push_number_code(bits));
    }

    /// Emits the push of nil.
    fn emit_push_nil(code: &mut Assembler)
        ensures
            final(code)@ == old(code)@ + push_nil_code(),
    {
        code.add_instruction(Instruction::Mov(slot(Register::R13, 0), Operand::Imm32(1)));
        code.add_instruction(Instruction::Mov(slot(Register::RBX, 0), Operand::Imm32(0)));
        code.add_instruction(Instruction::Add(Operand::Reg(Register::R12), Operand::Imm32(1)));
        assert(code@ =~= old(code)@ + push_nil_code());
    }

    /// Emits a conditional jump.
    fn emit_jump_if_false(code: &mut Assembler, i: usize, target: usize)
        ensures
            final(code)@ == old(code)@ + jump_if_false_code(i, target),
    {
        code.add_instruction(Instruction::Sub(Operand::Reg(Register::R12), Operand::Imm32(1)));
        code.add_instruction(
            Instruction::Mov(Operand::Reg(Register::RDX), slot(Register::R13, 0)),
        );
        code.add_instruction(
            Instruction::Mov(Operand::Reg(Register::RAX), slot(Register::RBX, 0)),
        );
        code.add_instruction(Instruction::Cmp(Operand::Reg(Register::RDX), Operand::Imm32(1)));
        code.add_instruction(Instruction::JeLabel(Label::Op(target)));
        code.add_instruction(Instruction::Cmp(Operand::Reg(Register::RDX), Operand::Imm32(0)));
        code.add_instruction(Instruction::JneLabel(Label::JifCont(i)));
        code.add_instruction(Instruction::Cmp(Operand::Reg(Register::RAX), Operand::Imm32(0)));
        code.add_instruction(Instruction::JeLabel(Label::Op(target)));
        code.add_instruction(Instruction::Label(Label::JifCont(i)));
        assert(code@ =~= old(code)@ + jump_if_false_code(i, target));
    }

    /// Emits the return from the function.
    fn emit_return(code: &mut Assembler)
        ensures
            final(code)@ == old(code)@ + return_code(),
    {
        code.add_instruction(Instruction::Sub(Operand::Reg(Register::R12), Operand::Imm32(1)));
        code.add_instruction(
            Instruction::Mov(Operand::Reg(Register::RDX), slot(Register::R13, 0)),
        );
        code.add_instruction(
            Instruction::Mov(field(FRAME_RESULT_TAG), Operand::Reg(Register::RDX)),
        );
        code.add_instruction(
            Instruction::Mov(Operand::Reg(Register::RAX), slot(Register::RBX, 0)),
        );
        code.add_instruction(
            Instruction::Mov(field(FRAME_RESULT_VAL), Operand::Reg(Register::RAX)),
        );
        code.add_instruction(Instruction::JmpLabel(Label::Epilogue));
        assert(code@ =~= old(code)@ + return_code());
    }

    /// Emits the call of a runtime helper.
    pub fn emit_helper_call(
        code: &mut Assembler,
        helper_ptr: usize,
        arg1: Option<u64>,
        arg2: Option<u64>,
    )
        ensures
            final(code)@ == old(code)@ + helper_call_code(helper_ptr as u64, arg1, arg2),
    {
        code.add_instruction(
            Instruction::Mov(field(FRAME_STACK_LEN), Operand::Reg(Register::R12)),
        );
        // The helper may change RDI, and it is needed after the call.
        code.add_instruction(Instruction::Push(Operand::Reg(Register::RDI)));
        code.add_instruction(Instruction::Sub(Operand::Reg(Register::RSP), Operand::Imm32(8)));
        let ghost s1 = code@;
        assert(s1 =~= old(code)@ + call_entry_code());
        if let Some(a1) = arg1 {
            code.add_instruction(
                Instruction::Mov(Operand::Reg(Register::RSI), Operand::Imm64(a1)),
            );
        }
        let ghost s2 = code@;
        assert(s2 =~= s1 + argument_code(Register::RSI, arg1));
        if let Some(a2) = arg2 {
            code.add_instruction(
                Instruction::Mov(Operand::Reg(Register::RDX), Operand::Imm64(a2)),
            );
        }
        let ghost s3 = code@;
        assert(s3 =~= s2 + argument_code(Register::RDX, arg2));
        code.add_instruction(
            Instruction::Mov(Operand::Reg(Register::RAX), Operand::Imm64(helper_ptr as u64)),
        );
        code.add_instruction(Instruction::Call(Operand::Reg(Register::RAX)));
        code.add_instruction(Instruction::Add(Operand::Reg(Register::RSP), Operand::Imm32(8)));
        code.add_instruction(Instruction::Pop(Operand::Reg(Register::RDI)));
        // The stack may have moved.
        code.add_instruction(
            Instruction::Mov(Operand::Reg(Register::RBX), field(FRAME_STACK_PTR)),
        );
        code.add_instruction(
            Instruction::Mov(Operand::Reg(Register::R12), field(FRAME_STACK_LEN)),
        );
        code.add_instruction(Instruction::Mov(Operand::Reg(Register::R13), field(FRAME_TAG_PTR)));
        code.add_instruction(Instruction::Mov(Operand::Reg(Register::RAX), field(FRAME_ERROR)));
        code.add_instruction(Instruction::Cmp(Operand::Reg(Register::RAX), Operand::Imm32(0)));
        code.add_instruction(Instruction::JneLabel(Label::Epilogue));
        assert(code@ =~= s3 + call_exit_code(helper_ptr as u64));
        proof {
            lemma_append_pieces(
                old(code)@,
                call_entry_code(),
                argument_code(Register::RSI, arg1),
                argument_code(Register::RDX, arg2),
                call_exit_code(helper_ptr as u64),
            );
        }
    }

    /// Emits the load of a constant that is neither a number nor nil: leaves the
    /// operation for the helper to pick up as the last one, and calls the helper.
    pub fn emit_make_const_helper(
        code: &mut Assembler,
        op: &Op,
        helpers: &HelperTable,
        pending: &mut PendingOps,
    )
        ensures
            final(code)@ == old(code)@ + helper_call_code(
                helpers.make_const as u64,
                Some(0),
                None,
            ),
            final(pending)@ == (PendingState { op: Some(*op), ..old(pending)@ }),
    {
        pending.op = Some(op.clone());
        Self::emit_helper_call(code, helpers.make_const, Some(0), None);
    }

    /// Emits the creation of a function: keeps what the operation carries under
    /// its index, for the helper to read there, and calls the helper.
    pub fn emit_make_func_helper(
        code: &mut Assembler,
        chunk: &Chunk,
        code_offset: usize,
        op_index: usize,
        helpers: &HelperTable,
        pending: &mut PendingOps,
    )
        requires
            op_index < chunk.ops@.len(),
        ensures
            final(code)@ == old(code)@ + helper_call_code(
                helpers.make_func as u64,
                Some(op_index as u64),
                None,
            ),
            final(pending)@ == match chunk.ops@[op_index as int] {
                Op::MakeFunc { params, body_expr, .. } => PendingState {
                    make_func: old(pending)@.make_func.push(
                        MakeFuncData { op_index, code_offset, params, body_expr },
                    ),
                    ..old(pending)@
                },
                _ => old(pending)@,
            },
    {
        if let Op::MakeFunc { params, body_expr, .. } = &chunk.ops[op_index] {
            pending.make_func.push(
                MakeFuncData {
                    op_index,
                    code_offset,
                    params: share(params),
                    body_expr: *body_expr,
                },
            );
        }
        Self::emit_helper_call(code, helpers.make_func, Some(op_index as u64), None);
    }

    /// Emits an arithmetic operation on the last two numbers of the stack:
    ///
    /// 1. Pop both operands.
    /// 2. Load them into SSE registers.
    /// 3. Perform the operation on scalar doubles.
    /// 4. Store the result and push it.
    pub fn emit_num_binop(code: &mut Assembler, op: &Op)
        requires
            is_num_binop(*op),
        ensures
            final(code)@ == old(code)@ + num_binop_code(*op),
    {
        code.add_instruction(Instruction::Sub(Operand::Reg(Register::R12), Operand::Imm32(2)));
        code.add_instruction(
            Instruction::Movsd(Operand::Xmm(XmmRegister::XMM0), slot(Register::RBX, 0)),
        );
        code.add_instruction(
            Instruction::Movsd(Operand::Xmm(XmmRegister::XMM1), slot(Register::RBX, 8)),
        );
        let a = Operand::Xmm(XmmRegister::XMM0);
        let b = Operand::Xmm(XmmRegister::XMM1);
        match op {
            Op::NumAdd => code.add_instruction(Instruction::Addsd(a, b)),
            Op::NumSub => code.add_instruction(Instruction::Subsd(a, b)),
            Op::NumMul => code.add_instruction(Instruction::Mulsd(a, b)),
            _ => code.add_instruction(Instruction::Divsd(a, b)),
        }
        code.add_instruction(
            Instruction::Movsd(slot(Register::RBX, 0), Operand::Xmm(XmmRegister::XMM0)),
        );
        code.add_instruction(Instruction::Add(Operand::Reg(Register::R12), Operand::Imm32(1)));
        assert(code@ =~= old(code)@ + num_binop_code(*op));
    }
}

/// Every operation but a constant load passes on the address that it was given.
pub proof fn law_addresses_passed(ops: Seq<Op>, addresses: Seq<u64>, i: int)
    requires
        0 <= i < ops.len(),
        !(ops[i] matches Op::LoadConst(Value::Object(_))),
    ensures
        passed_words(ops, addresses).len() == ops.len(),
        passed_words(ops, addresses)[i] == addresses[i],
{
}

/// Each operation on a name passes on the address of its own name, and none is
/// handed out for any other operation.
pub proof fn law_own_name_passed(
    ops: Seq<Op>,
    places: Seq<Option<TextAddress>>,
    i: int,
    name: String,
)
    requires
        names_lie_at(ops, places),
        0 <= i < ops.len(),
    ensures
        places.len() == ops.len(),
        ops[i] == Op::LoadVar(name) || ops[i] == Op::StoreVar(name) || ops[i] == Op::AssignVar(name)
            || ops[i] == Op::StoreSelf(name) ==> {
            &&& places[i] is Some
            &&& places[i]->0.text() == name@
            &&& passed_words(ops, place_numbers(places))[i] == places[i]->0.number()
        },
        !(ops[i] is LoadVar || ops[i] is StoreVar || ops[i] is AssignVar || ops[i] is StoreSelf)
            ==> places[i] is None,
{
}

} // verus!
