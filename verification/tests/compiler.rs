use std::rc::Rc;

use pilisp_jit::assembly::{Assembler, Instruction, Label, MemoryAddr, Operand, Register, XmmRegister};
use pilisp_jit::bytecode::{carried_name, Chunk, Op, PinnedExpr, Value};
use pilisp_jit::jit_abi::{MakeFuncData, PendingOps};
use pilisp_jit::jit_compiler::{HelperTable, JitCompiler};

fn table() -> HelperTable {
    HelperTable {
        load_var: 0x101,
        store_var: 0x102,
        assign_var: 0x103,
        call: 0x104,
        tail_call: 0x105,
        make_list: 0x106,
        prepend_list: 0x107,
        append_splice: 0x108,
        tree_eval: 0x109,
        push_env: 0x10a,
        pop_env: 0x10b,
        store_self: 0x10c,
        make_const: 0x10d,
        make_func: 0x10e,
        num_eq: 0x10f,
        num_lt: 0x110,
        num_gt: 0x111,
    }
}

fn chunk_of(ops: Vec<Op>) -> Chunk {
    Chunk { ops, sub_chunks: Vec::new() }
}

fn compile(ops: Vec<Op>) -> Vec<Instruction> {
    let mut pending = PendingOps::new();
    JitCompiler::compile_chunk(&chunk_of(ops), &table(), &mut pending).0.instructions
}

/// The code between the prologue and the epilogue.
fn body(ops: Vec<Op>) -> Vec<Instruction> {
    let code = compile(ops);
    code[21..code.len() - 20].to_vec()
}

fn reg(r: Register) -> Operand {
    Operand::Reg(r)
}

fn slot(base: Register, disp: i32) -> Operand {
    Operand::Mem(MemoryAddr { base: Some(base), index: Some(Register::R12), scale: 8, disp })
}

fn field(disp: i32) -> Operand {
    Operand::Mem(MemoryAddr { base: Some(Register::RDI), index: None, scale: 1, disp })
}

fn push_number(i: usize, bits: u64) -> Vec<Instruction> {
    vec![
        Instruction::Label(Label::Op(i)),
        Instruction::Mov(reg(Register::RAX), Operand::Imm64(bits)),
        Instruction::Mov(slot(Register::R13, 0), Operand::Imm32(0)),
        Instruction::Mov(slot(Register::RBX, 0), reg(Register::RAX)),
        Instruction::Add(reg(Register::R12), Operand::Imm32(1)),
    ]
}

fn push_nil(i: usize) -> Vec<Instruction> {
    vec![
        Instruction::Label(Label::Op(i)),
        Instruction::Mov(slot(Register::R13, 0), Operand::Imm32(1)),
        Instruction::Mov(slot(Register::RBX, 0), Operand::Imm32(0)),
        Instruction::Add(reg(Register::R12), Operand::Imm32(1)),
    ]
}

fn helper_call(i: usize, helper: u64, arg1: Option<u64>, arg2: Option<u64>) -> Vec<Instruction> {
    let mut code = vec![
        Instruction::Label(Label::Op(i)),
        Instruction::Mov(field(8), reg(Register::R12)),
        Instruction::Push(reg(Register::RDI)),
        Instruction::Sub(reg(Register::RSP), Operand::Imm32(8)),
    ];
    if let Some(word) = arg1 {
        code.push(Instruction::Mov(reg(Register::RSI), Operand::Imm64(word)));
    }
    if let Some(word) = arg2 {
        code.push(Instruction::Mov(reg(Register::RDX), Operand::Imm64(word)));
    }
    code.push(Instruction::Mov(reg(Register::RAX), Operand::Imm64(helper)));
    code.push(Instruction::Call(reg(Register::RAX)));
    code.push(Instruction::Add(reg(Register::RSP), Operand::Imm32(8)));
    code.push(Instruction::Pop(reg(Register::RDI)));
    code.push(Instruction::Mov(reg(Register::RBX), field(0)));
    code.push(Instruction::Mov(reg(Register::R12), field(8)));
    code.push(Instruction::Mov(reg(Register::R13), field(48)));
    code.push(Instruction::Mov(reg(Register::RAX), field(40)));
    code.push(Instruction::Cmp(reg(Register::RAX), Operand::Imm32(0)));
    code.push(Instruction::JneLabel(Label::Epilogue));
    code
}

#[test]
fn labels_have_names() {
    assert_eq!(Label::Op(0).name(), "op_0");
    assert_eq!(Label::Op(1203).name(), "op_1203");
    assert_eq!(Label::JifCont(47).name(), "jif_cont_47");
    assert_eq!(Label::Epilogue.name(), "epilogue");
    assert_eq!(Label::Op(usize::MAX).name(), format!("op_{}", usize::MAX));
}

#[test]
fn label_names_are_distinct() {
    let labels = vec![
        Label::Epilogue,
        Label::Op(1),
        Label::Op(11),
        Label::Op(111),
        Label::JifCont(1),
        Label::JifCont(11),
    ];
    for a in &labels {
        for b in &labels {
            assert_eq!(a.name() == b.name(), a == b);
        }
    }
}

#[test]
fn an_empty_chunk_is_prologue_and_epilogue() {
    let code = compile(vec![]);
    assert_eq!(code.len(), 41);
    assert_eq!(code[0], Instruction::Push(reg(Register::RBP)));
    assert_eq!(code[7], Instruction::Sub(reg(Register::RSP), Operand::Imm32(168)));
    assert_eq!(
        code[8],
        Instruction::Movdqa(
            Operand::Mem(MemoryAddr::base_disp(Register::RSP, 0)),
            Operand::Xmm(XmmRegister::XMM6)
        )
    );
    assert_eq!(
        code[17],
        Instruction::Movdqa(
            Operand::Mem(MemoryAddr::base_disp(Register::RSP, 144)),
            Operand::Xmm(XmmRegister::XMM15)
        )
    );
    assert_eq!(code[18], Instruction::Mov(reg(Register::RBX), field(0)));
    assert_eq!(code[19], Instruction::Mov(reg(Register::R12), field(8)));
    assert_eq!(code[20], Instruction::Mov(reg(Register::R13), field(48)));
    assert_eq!(code[21], Instruction::Label(Label::Epilogue));
    assert_eq!(code[22], Instruction::Mov(field(8), reg(Register::R12)));
    assert_eq!(
        code[32],
        Instruction::Movdqa(
            Operand::Xmm(XmmRegister::XMM15),
            Operand::Mem(MemoryAddr::base_disp(Register::RSP, 144))
        )
    );
    assert_eq!(code[33], Instruction::Add(reg(Register::RSP), Operand::Imm32(168)));
    assert_eq!(code[34], Instruction::Pop(reg(Register::R15)));
    assert_eq!(code[39], Instruction::Pop(reg(Register::RBP)));
    assert_eq!(code[40], Instruction::Ret);
}

#[test]
fn constants_are_pushed_in_place() {
    assert_eq!(body(vec![Op::LoadConst(Value::Int(-3))]), push_number(0, (-3.0f64).to_bits()));
    assert_eq!(
        body(vec![Op::LoadConst(Value::Float(0.25f64.to_bits()))]),
        push_number(0, 0.25f64.to_bits())
    );
    assert_eq!(body(vec![Op::LoadConst(Value::Bool(true))]), push_number(0, 1.0f64.to_bits()));
    assert_eq!(body(vec![Op::LoadConst(Value::Bool(false))]), push_number(0, 0));
    assert_eq!(body(vec![Op::LoadConst(Value::Nil)]), push_nil(0));
    assert_eq!(body(vec![Op::LoadNil]), push_nil(0));
}

#[test]
fn operations_follow_one_another() {
    let mut expected = push_number(0, 1.0f64.to_bits());
    expected.extend(push_nil(1));
    assert_eq!(body(vec![Op::LoadConst(Value::Int(1)), Op::LoadNil]), expected);
}

#[test]
fn pops_and_jumps_are_emitted() {
    assert_eq!(
        body(vec![Op::Pop, Op::Jump(0)]),
        vec![
            Instruction::Label(Label::Op(0)),
            Instruction::Sub(reg(Register::R12), Operand::Imm32(1)),
            Instruction::Label(Label::Op(1)),
            Instruction::JmpLabel(Label::Op(0)),
        ]
    );
}

#[test]
fn a_conditional_jump_tests_tag_and_word() {
    assert_eq!(
        body(vec![Op::JumpIfFalse(4)]),
        vec![
            Instruction::Label(Label::Op(0)),
            Instruction::Sub(reg(Register::R12), Operand::Imm32(1)),
            Instruction::Mov(reg(Register::RDX), slot(Register::R13, 0)),
            Instruction::Mov(reg(Register::RAX), slot(Register::RBX, 0)),
            Instruction::Cmp(reg(Register::RDX), Operand::Imm32(1)),
            Instruction::JeLabel(Label::Op(4)),
            Instruction::Cmp(reg(Register::RDX), Operand::Imm32(0)),
            Instruction::JneLabel(Label::JifCont(0)),
            Instruction::Cmp(reg(Register::RAX), Operand::Imm32(0)),
            Instruction::JeLabel(Label::Op(4)),
            Instruction::Label(Label::JifCont(0)),
        ]
    );
}

#[test]
fn a_return_stores_the_result() {
    assert_eq!(
        body(vec![Op::Return]),
        vec![
            Instruction::Label(Label::Op(0)),
            Instruction::Sub(reg(Register::R12), Operand::Imm32(1)),
            Instruction::Mov(reg(Register::RDX), slot(Register::R13, 0)),
            Instruction::Mov(field(24), reg(Register::RDX)),
            Instruction::Mov(reg(Register::RAX), slot(Register::RBX, 0)),
            Instruction::Mov(field(32), reg(Register::RAX)),
            Instruction::JmpLabel(Label::Epilogue),
        ]
    );
}

#[test]
fn arithmetic_is_done_in_place() {
    let a = Operand::Xmm(XmmRegister::XMM0);
    let b = Operand::Xmm(XmmRegister::XMM1);
    for (op, middle) in [
        (Op::NumAdd, Instruction::Addsd(a, b)),
        (Op::NumSub, Instruction::Subsd(a, b)),
        (Op::NumMul, Instruction::Mulsd(a, b)),
        (Op::NumDiv, Instruction::Divsd(a, b)),
    ] {
        let expected = vec![
            Instruction::Sub(reg(Register::R12), Operand::Imm32(2)),
            Instruction::Movsd(a, slot(Register::RBX, 0)),
            Instruction::Movsd(b, slot(Register::RBX, 8)),
            middle,
            Instruction::Movsd(slot(Register::RBX, 0), a),
            Instruction::Add(reg(Register::R12), Operand::Imm32(1)),
        ];
        let mut code = Assembler::new();
        JitCompiler::emit_num_binop(&mut code, &op);
        assert_eq!(code.instructions, expected);
        assert_eq!(body(vec![op])[1..], expected[..]);
    }
}

#[test]
fn names_are_passed_by_address_and_length() {
    let name = "caf\u{e9}".to_string();
    let address = name.as_ptr() as u64;
    let chunk = chunk_of(vec![Op::LoadVar(name)]);
    let mut pending = PendingOps::new();
    let code = JitCompiler::compile_chunk(&chunk, &table(), &mut pending).0.instructions;
    assert_eq!(code[21..code.len() - 20].to_vec(), helper_call(0, 0x101, Some(address), Some(5)));
}

#[test]
fn every_name_operation_has_its_helper() {
    let addresses = vec![10, 20, 30, 40];
    let chunk = chunk_of(vec![
        Op::LoadVar("a".to_string()),
        Op::StoreVar("bc".to_string()),
        Op::AssignVar("def".to_string()),
        Op::StoreSelf("".to_string()),
    ]);
    let mut pending = PendingOps::new();
    let code = JitCompiler::compile_chunk_at(&chunk, &table(), &addresses, &mut pending);
    let mut expected = helper_call(0, 0x101, Some(10), Some(1));
    expected.extend(helper_call(1, 0x102, Some(20), Some(2)));
    expected.extend(helper_call(2, 0x103, Some(30), Some(3)));
    expected.extend(helper_call(3, 0x10c, Some(40), Some(0)));
    let code = code.instructions;
    assert_eq!(code[21..code.len() - 20].to_vec(), expected);
}

#[test]
fn counts_and_expressions_are_passed_as_arguments() {
    assert_eq!(body(vec![Op::Call(2)]), helper_call(0, 0x104, Some(2), None));
    assert_eq!(body(vec![Op::TailCall(3)]), helper_call(0, 0x105, Some(3), None));
    assert_eq!(body(vec![Op::MakeList(4)]), helper_call(0, 0x106, Some(4), None));
    assert_eq!(
        body(vec![Op::TreeEval(PinnedExpr { address: 0xabc })]),
        helper_call(0, 0x109, Some(0xabc), None)
    );
}

#[test]
fn other_operations_call_their_helper_with_the_frame_alone() {
    for (op, helper) in [
        (Op::PrependList, 0x107),
        (Op::AppendSplice, 0x108),
        (Op::PushEnv, 0x10a),
        (Op::PopEnv, 0x10b),
        (Op::NumEq, 0x10f),
        (Op::NumLt, 0x110),
        (Op::NumGt, 0x111),
    ] {
        assert_eq!(body(vec![op]), helper_call(0, helper, None, None));
    }
}

#[test]
fn a_helper_call_takes_up_to_two_arguments() {
    for (arg1, arg2) in [(None, None), (Some(7), None), (None, Some(8)), (Some(7), Some(8))] {
        let mut code = Assembler::new();
        JitCompiler::emit_helper_call(&mut code, 0x500, arg1, arg2);
        assert_eq!(code.instructions[..], helper_call(0, 0x500, arg1, arg2)[1..]);
    }
}

#[test]
fn the_only_object_constant_is_left_pending() {
    let value = Value::Object(PinnedExpr { address: 1 });
    let chunk = chunk_of(vec![Op::LoadNil, Op::LoadConst(value), Op::LoadNil]);
    let mut pending = PendingOps::new();
    let code = JitCompiler::compile_chunk(&chunk, &table(), &mut pending).0.instructions;
    assert_eq!(pending.op, Some(Op::LoadConst(value)));
    assert_eq!(code[25..39].to_vec(), helper_call(1, 0x10d, Some(0), None)[..14].to_vec());
}

#[test]
fn every_object_constant_is_left_under_its_number() {
    let load = |address: u64| Op::LoadConst(Value::Object(PinnedExpr { address }));
    let chunk = chunk_of(vec![load(10), Op::LoadNil, load(20), load(30)]);
    let mut pending = PendingOps::new();
    // What an earlier chunk has left is cleared.
    pending.earlier.push(Some(load(99)));
    let code = JitCompiler::compile_chunk(&chunk, &table(), &mut pending).0.instructions;
    assert_eq!(pending.op, Some(load(30)));
    assert_eq!(pending.earlier, vec![Some(load(10)), Some(load(20))]);
    let mut expected = helper_call(0, 0x10d, Some(1), None);
    expected.extend(push_nil(1));
    expected.extend(helper_call(2, 0x10d, Some(2), None));
    expected.extend(helper_call(3, 0x10d, Some(0), None));
    assert_eq!(code[21..code.len() - 20].to_vec(), expected);
}

#[test]
fn every_function_creation_is_kept_under_its_index() {
    let params = Rc::new(vec!["x".to_string()]);
    let make = |offset: usize, address: u64| Op::MakeFunc {
        params: Rc::clone(&params),
        body_expr: PinnedExpr { address },
        code_offset: offset,
    };
    let chunk = chunk_of(vec![make(0, 100), make(1, 200)]);
    let mut pending = PendingOps::new();
    // What an earlier chunk has left is cleared.
    pending.make_func.push(MakeFuncData {
        op_index: 9,
        code_offset: 0,
        params: Rc::new(vec![]),
        body_expr: PinnedExpr { address: 0 },
    });
    let code = JitCompiler::compile_chunk(&chunk, &table(), &mut pending).0.instructions;
    let kept = |op_index: usize, address: u64| MakeFuncData {
        op_index,
        code_offset: op_index,
        params: Rc::clone(&params),
        body_expr: PinnedExpr { address },
    };
    assert_eq!(pending.make_func, vec![kept(0, 100), kept(1, 200)]);
    assert!(Rc::ptr_eq(&pending.make_func[0].params, &params));
    let mut expected = helper_call(0, 0x10e, Some(0), None);
    expected.extend(helper_call(1, 0x10e, Some(1), None));
    assert_eq!(code[21..code.len() - 20].to_vec(), expected);
}

#[test]
fn four_operations_carry_a_name() {
    let name = "n".to_string();
    for op in [
        Op::LoadVar(name.clone()),
        Op::StoreVar(name.clone()),
        Op::AssignVar(name.clone()),
        Op::StoreSelf(name.clone()),
    ] {
        assert_eq!(carried_name(&op), Some(&name));
    }
    for op in [Op::LoadNil, Op::Call(1), Op::TreeEval(PinnedExpr { address: 3 }), Op::NumEq] {
        assert_eq!(carried_name(&op), None);
    }
}

#[test]
fn each_operation_passes_its_own_name() {
    let names = vec!["one".to_string(), "three".to_string(), "seven".to_string(), "ten".to_string()];
    let places: Vec<u64> = names.iter().map(|n| n.as_ptr() as u64).collect();
    let mut rest = names.into_iter();
    let chunk = chunk_of(vec![
        Op::LoadVar(rest.next().unwrap()),
        Op::StoreVar(rest.next().unwrap()),
        Op::AssignVar(rest.next().unwrap()),
        Op::StoreSelf(rest.next().unwrap()),
    ]);
    let mut pending = PendingOps::new();
    let (code, handed_out) = JitCompiler::compile_chunk(&chunk, &table(), &mut pending);
    for (place, address) in handed_out.iter().zip(&places) {
        assert_eq!(place.as_ref().unwrap().number(), *address);
    }
    let code = code.instructions;
    let mut expected = helper_call(0, 0x101, Some(places[0]), Some(3));
    expected.extend(helper_call(1, 0x102, Some(places[1]), Some(5)));
    expected.extend(helper_call(2, 0x103, Some(places[2]), Some(5)));
    expected.extend(helper_call(3, 0x10c, Some(places[3]), Some(3)));
    assert_eq!(code[21..code.len() - 20].to_vec(), expected);
}

#[test]
fn a_function_helper_for_another_operation_leaves_nothing() {
    let chunk = chunk_of(vec![Op::Pop]);
    let mut pending = PendingOps::new();
    let mut code = Assembler::new();
    JitCompiler::emit_make_func_helper(&mut code, &chunk, 9, 0, &table(), &mut pending);
    assert_eq!(pending, PendingOps::new());
    assert_eq!(code.instructions[..], helper_call(0, 0x10e, Some(0), None)[1..]);
}

#[test]
fn a_constant_helper_keeps_the_operation() {
    let mut pending = PendingOps::new();
    let mut code = Assembler::new();
    JitCompiler::emit_make_const_helper(&mut code, &Op::LoadNil, &table(), &mut pending);
    assert_eq!(pending.op, Some(Op::LoadNil));
    assert_eq!(code.instructions[..], helper_call(0, 0x10d, Some(0), None)[1..]);
}

#[test]
fn plain_chunks_leave_nothing_pending() {
    let mut pending = PendingOps::new();
    let chunk = chunk_of(vec![Op::LoadConst(Value::Int(1)), Op::Return]);
    let _ = JitCompiler::compile_chunk(&chunk, &table(), &mut pending);
    assert_eq!(pending, PendingOps::new());
}

#[test]
fn labels_are_defined_once_and_jumps_resolved() {
    let code = compile(vec![
        Op::LoadConst(Value::Int(0)),
        Op::JumpIfFalse(4),
        Op::LoadNil,
        Op::Jump(0),
        Op::LoadVar("x".to_string()),
        Op::JumpIfFalse(2),
        Op::Return,
    ]);
    let mut labels: Vec<Label> = Vec::new();
    let mut targets: Vec<Label> = Vec::new();
    for instruction in &code {
        match instruction {
            Instruction::Label(l) => labels.push(*l),
            Instruction::JmpLabel(l) => targets.push(*l),
            Instruction::JeLabel(l) => targets.push(*l),
            Instruction::JneLabel(l) => targets.push(*l),
            _ => {}
        }
    }
    assert_eq!(labels.len(), 10);
    for l in &labels {
        assert_eq!(labels.iter().filter(|m| *m == l).count(), 1);
    }
    for t in &targets {
        assert!(labels.contains(t));
    }
}
