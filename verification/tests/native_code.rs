//! Compiled code, run on a small model of the processor.

use std::collections::HashMap;
use std::rc::Rc;

use pilisp_jit::assembly::{Instruction, Label, MemoryAddr, Operand, Register, XmmRegister};
use pilisp_jit::bytecode::{Chunk, Expr, GcHandle, Op, PinnedExpr, Value, VmValue};
use pilisp_jit::frame::JitFrame;
use pilisp_jit::jit_abi::{
    finish_assign_var, finish_call, finish_load_var, finish_make_const, finish_pop_env, finish_push_env,
    finish_store_var, jit_helper_append_splice, jit_helper_assign_var, jit_helper_call,
    jit_helper_load_var, jit_helper_make_const, jit_helper_make_func_from_op, jit_helper_make_list,
    jit_helper_num_eq, jit_helper_num_gt, jit_helper_num_lt, jit_helper_pop_env,
    jit_helper_prepend_list, jit_helper_push_env, jit_helper_store_var, AssignReply, LookupReply,
    PendingOps,
};
use pilisp_jit::jit_compiler::{HelperTable, JitCompiler};

const FRAME: u64 = 0x1_0000;
const WORDS: u64 = 0x2_0000;
const TAGS: u64 = 0x4_0000;
const STACK_TOP: u64 = 0x8_0000;

const REGISTERS: [Register; 16] = [
    Register::RAX,
    Register::RCX,
    Register::RDX,
    Register::RBX,
    Register::RSP,
    Register::RBP,
    Register::RSI,
    Register::RDI,
    Register::R8,
    Register::R9,
    Register::R10,
    Register::R11,
    Register::R12,
    Register::R13,
    Register::R14,
    Register::R15,
];

const SSE_REGISTERS: [XmmRegister; 16] = [
    XmmRegister::XMM0,
    XmmRegister::XMM1,
    XmmRegister::XMM2,
    XmmRegister::XMM3,
    XmmRegister::XMM4,
    XmmRegister::XMM5,
    XmmRegister::XMM6,
    XmmRegister::XMM7,
    XmmRegister::XMM8,
    XmmRegister::XMM9,
    XmmRegister::XMM10,
    XmmRegister::XMM11,
    XmmRegister::XMM12,
    XmmRegister::XMM13,
    XmmRegister::XMM14,
    XmmRegister::XMM15,
];

/// The interpreter, as far as these programs need one: a stack of environments
/// with numeric variables.
struct Interpreter {
    names: Vec<HashMap<u64, String>>,
    scopes: Vec<HashMap<String, f64>>,
}

impl Interpreter {
    fn find(&self, env: GcHandle, name: &str) -> Option<f64> {
        for scope in self.scopes[0..env.index + 1].iter().rev() {
            if let Some(value) = scope.get(name) {
                return Some(*value);
            }
        }
        None
    }
}

struct Processor {
    gpr: [u64; 16],
    xmm: [(u64, u64); 16],
    mem: HashMap<u64, u64>,
    zf: bool,
    pc: usize,
    ran: usize,
}

fn number(r: Register) -> usize {
    REGISTERS.iter().position(|s| *s == r).unwrap()
}

fn sse_number(r: XmmRegister) -> usize {
    SSE_REGISTERS.iter().position(|s| *s == r).unwrap()
}

impl Processor {
    fn reg(&self, r: Register) -> u64 {
        self.gpr[number(r)]
    }

    fn set_reg(&mut self, r: Register, word: u64) {
        self.gpr[number(r)] = word;
    }

    fn load(&self, address: u64) -> u64 {
        *self.mem.get(&address).unwrap_or(&0)
    }

    fn address(&self, m: MemoryAddr) -> u64 {
        let base = match m.base {
            Some(r) => self.reg(r),
            None => 0,
        };
        let index = match m.index {
            Some(r) => self.reg(r).wrapping_mul(m.scale as u64),
            None => 0,
        };
        base.wrapping_add(index).wrapping_add(m.disp as i64 as u64)
    }

    fn read(&self, operand: Operand) -> u64 {
        match operand {
            Operand::Reg(r) => self.reg(r),
            Operand::Xmm(r) => self.xmm[sse_number(r)].0,
            Operand::Mem(m) => self.load(self.address(m)),
            Operand::Imm32(n) => n as i64 as u64,
            Operand::Imm64(n) => n,
        }
    }

    fn write(&mut self, operand: Operand, word: u64) {
        match operand {
            Operand::Reg(r) => self.set_reg(r, word),
            Operand::Xmm(r) => self.xmm[sse_number(r)].0 = word,
            Operand::Mem(m) => {
                let address = self.address(m);
                self.mem.insert(address, word);
            }
            _ => panic!("no place to write to"),
        }
    }

    fn push(&mut self, word: u64) {
        let rsp = self.reg(Register::RSP) - 8;
        self.set_reg(Register::RSP, rsp);
        self.mem.insert(rsp, word);
    }

    fn pop(&mut self) -> u64 {
        let rsp = self.reg(Register::RSP);
        self.set_reg(Register::RSP, rsp + 8);
        self.load(rsp)
    }

    fn jump(&mut self, code: &Vec<Instruction>, label: Label) {
        self.pc = code.iter().position(|i| *i == Instruction::Label(label)).unwrap();
    }

    fn arithmetic(&mut self, to: Operand, from: Operand, f: fn(f64, f64) -> f64) {
        let result = f(f64::from_bits(self.read(to)), f64::from_bits(self.read(from)));
        self.write(to, result.to_bits());
    }

    fn show(&mut self, frame: &JitFrame) {
        self.mem.insert(FRAME, WORDS);
        self.mem.insert(FRAME + 8, frame.stack_len as u64);
        self.mem.insert(FRAME + 40, if frame.error.is_some() { 1 } else { 0 });
        self.mem.insert(FRAME + 48, TAGS);
        for i in 0..frame.capacity {
            self.mem.insert(WORDS + 8 * i as u64, frame.stack[i]);
            self.mem.insert(TAGS + 8 * i as u64, frame.tags[i]);
        }
    }

    fn fetch(&self, frame: &mut JitFrame) {
        frame.stack_len = self.load(FRAME + 8) as usize;
        frame.result_tag = self.load(FRAME + 24);
        frame.result_val = self.load(FRAME + 32);
        for i in 0..frame.capacity {
            frame.stack[i] = self.load(WORDS + 8 * i as u64);
            frame.tags[i] = self.load(TAGS + 8 * i as u64);
        }
    }

    fn run(
        &mut self,
        code: &Vec<Instruction>,
        frame: &mut JitFrame,
        pending: &mut PendingOps,
        interpreter: &mut Interpreter,
    ) {
        loop {
            let instruction = code[self.pc];
            self.pc += 1;
            self.ran += 1;
            assert!(self.ran < 1_000_000);
            match instruction {
                Instruction::Label(_) => {}
                Instruction::Push(o) => {
                    let word = self.read(o);
                    self.push(word);
                }
                Instruction::Pop(o) => {
                    let word = self.pop();
                    self.write(o, word);
                }
                Instruction::Mov(to, from) => {
                    let word = self.read(from);
                    self.write(to, word);
                }
                Instruction::Add(to, from) => {
                    let word = self.read(to).wrapping_add(self.read(from));
                    self.write(to, word);
                    self.zf = word == 0;
                }
                Instruction::Sub(to, from) => {
                    let word = self.read(to).wrapping_sub(self.read(from));
                    self.write(to, word);
                    self.zf = word == 0;
                }
                Instruction::Cmp(a, b) => self.zf = self.read(a) == self.read(b),
                Instruction::JmpLabel(l) => self.jump(code, l),
                Instruction::JeLabel(l) => {
                    if self.zf {
                        self.jump(code, l);
                    }
                }
                Instruction::JneLabel(l) => {
                    if !self.zf {
                        self.jump(code, l);
                    }
                }
                Instruction::Call(o) => {
                    // A call finds the stack aligned.
                    assert_eq!(self.reg(Register::RSP) % 16, 0);
                    let helper = self.read(o);
                    self.fetch(frame);
                    help(
                        helper,
                        self.reg(Register::RSI),
                        self.reg(Register::RDX),
                        frame,
                        pending,
                        interpreter,
                    );
                    self.show(frame);
                    // What a callee need not keep.
                    for r in [Register::RAX, Register::RCX, Register::RDX, Register::RSI, Register::RDI]
                    {
                        self.set_reg(r, 0xdead);
                    }
                    self.xmm[0] = (0xdead, 0xdead);
                    self.xmm[1] = (0xdead, 0xdead);
                }
                Instruction::Ret => {
                    let _ = self.pop();
                    self.fetch(frame);
                    return;
                }
                Instruction::Movsd(to, from) => {
                    let word = self.read(from);
                    self.write(to, word);
                }
                Instruction::Movdqa(to, from) => match (to, from) {
                    (Operand::Mem(m), Operand::Xmm(r)) => {
                        let address = self.address(m);
                        assert_eq!(address % 16, 0);
                        let (low, high) = self.xmm[sse_number(r)];
                        self.mem.insert(address, low);
                        self.mem.insert(address + 8, high);
                    }
                    (Operand::Xmm(r), Operand::Mem(m)) => {
                        let address = self.address(m);
                        self.xmm[sse_number(r)] = (self.load(address), self.load(address + 8));
                    }
                    _ => panic!("no such move"),
                },
                Instruction::Addsd(to, from) => self.arithmetic(to, from, |a, b| a + b),
                Instruction::Subsd(to, from) => self.arithmetic(to, from, |a, b| a - b),
                Instruction::Mulsd(to, from) => self.arithmetic(to, from, |a, b| a * b),
                Instruction::Divsd(to, from) => self.arithmetic(to, from, |a, b| a / b),
            }
        }
    }
}

fn helpers() -> HelperTable {
    HelperTable {
        load_var: 1,
        store_var: 2,
        assign_var: 3,
        call: 4,
        tail_call: 5,
        make_list: 6,
        prepend_list: 7,
        append_splice: 8,
        tree_eval: 9,
        push_env: 10,
        pop_env: 11,
        store_self: 12,
        make_const: 13,
        make_func: 14,
        num_eq: 15,
        num_lt: 16,
        num_gt: 17,
    }
}

fn as_double(value: VmValue) -> Option<f64> {
    match value {
        VmValue::Int(n) => Some(n as f64),
        VmValue::Float(bits) => Some(f64::from_bits(bits)),
        _ => None,
    }
}

fn help(
    helper: u64,
    arg1: u64,
    arg2: u64,
    frame: &mut JitFrame,
    pending: &mut PendingOps,
    interpreter: &mut Interpreter,
) {
    let name = match interpreter.names[0].get(&arg1) {
        Some(name) => name.clone(),
        None => String::new(),
    };
    match helper {
        1 => {
            assert_eq!(arg2 as usize, name.len());
            let request = jit_helper_load_var(frame, &name);
            let reply = match interpreter.find(request.env, &request.name) {
                Some(f) => LookupReply::Found(VmValue::Float(f.to_bits())),
                None => LookupReply::Undefined,
            };
            finish_load_var(frame, reply);
        }
        2 => {
            if let Some(binding) = jit_helper_store_var(frame, &name) {
                let stored = match as_double(binding.value) {
                    Some(f) => {
                        interpreter.scopes[binding.env.index].insert(binding.name, f);
                        true
                    }
                    None => false,
                };
                finish_store_var(frame, stored);
            }
        }
        3 => {
            if let Some(binding) = jit_helper_assign_var(frame, &name) {
                let reply = match as_double(binding.value) {
                    Some(f) => {
                        let mut reply = AssignReply::Rejected;
                        for scope in interpreter.scopes[0..binding.env.index + 1].iter_mut().rev() {
                            if scope.contains_key(&binding.name) {
                                scope.insert(binding.name.clone(), f);
                                reply = AssignReply::Assigned;
                                break;
                            }
                        }
                        reply
                    }
                    None => AssignReply::Unconvertible,
                };
                finish_assign_var(frame, reply);
            }
        }
        4 => {
            // The only function sums its arguments.
            let mut request = jit_helper_call(frame, arg1 as usize);
            assert!(!request.tail);
            let mut sum = 0.0;
            for _ in 0..request.n_args {
                sum += as_double(request.stack.pop().unwrap()).unwrap();
            }
            finish_call(frame, Ok(Some(VmValue::Float(sum.to_bits()))));
        }
        6 => jit_helper_make_list(frame, arg1 as usize),
        7 => jit_helper_prepend_list(frame),
        8 => jit_helper_append_splice(frame),
        10 => {
            let parent = jit_helper_push_env(frame);
            interpreter.scopes.truncate(parent.index + 1);
            interpreter.scopes.push(HashMap::new());
            finish_push_env(frame, GcHandle { index: parent.index + 1 });
        }
        11 => {
            let child = jit_helper_pop_env(frame);
            let parent =
                if child.index > 0 { Some(GcHandle { index: child.index - 1 }) } else { None };
            finish_pop_env(frame, parent);
        }
        13 => {
            // A constant stands for the address of its expression.
            if let Some(Value::Object(expr)) = jit_helper_make_const(frame, pending, arg1 as usize) {
                finish_make_const(frame, Some(VmValue::Foreign(expr.address)));
            }
        }
        14 => jit_helper_make_func_from_op(frame, pending, arg1 as usize),
        15 => jit_helper_num_eq(frame),
        16 => jit_helper_num_lt(frame),
        17 => jit_helper_num_gt(frame),
        _ => panic!("no such helper"),
    }
}

/// Compiles the operations and runs the code; checks what every compiled
/// function has to keep.
fn execute(ops: Vec<Op>) -> (JitFrame, Interpreter) {
    execute_with(ops, Vec::new())
}

fn execute_with(ops: Vec<Op>, sub_chunks: Vec<Rc<Chunk>>) -> (JitFrame, Interpreter) {
    let mut names: HashMap<u64, String> = HashMap::new();
    let mut addresses: Vec<u64> = Vec::new();
    for op in &ops {
        let name = match op {
            Op::LoadVar(n) | Op::StoreVar(n) | Op::AssignVar(n) | Op::StoreSelf(n) => n.clone(),
            _ => String::new(),
        };
        let address = 0x9_0000 + 16 * addresses.len() as u64;
        names.insert(address, name);
        addresses.push(address);
    }
    let chunk = Rc::new(Chunk { ops, sub_chunks });
    let mut pending = PendingOps::new();
    let code = JitCompiler::compile_chunk_at(&chunk, &helpers(), &addresses, &mut pending);
    let mut frame = JitFrame::new(&vec![GcHandle { index: 0 }], &chunk);
    let mut interpreter = Interpreter { names: vec![names], scopes: vec![HashMap::new()] };
    let mut cpu = Processor {
        gpr: [0; 16],
        xmm: [(0, 0); 16],
        mem: HashMap::new(),
        zf: false,
        pc: 0,
        ran: 0,
    };
    for i in 0..16 {
        cpu.gpr[i] = 1000 + i as u64;
        cpu.xmm[i] = (2000 + i as u64, 3000 + i as u64);
    }
    cpu.set_reg(Register::RSP, STACK_TOP - 8);
    cpu.set_reg(Register::RDI, FRAME);
    cpu.show(&frame);
    cpu.run(&code.instructions, &mut frame, &mut pending, &mut interpreter);
    assert_eq!(cpu.reg(Register::RSP), STACK_TOP);
    for r in [
        Register::RBX,
        Register::RBP,
        Register::R12,
        Register::R13,
        Register::R14,
        Register::R15,
    ] {
        assert_eq!(cpu.reg(r), 1000 + number(r) as u64);
    }
    for i in 6..16 {
        assert_eq!(cpu.xmm[i], (2000 + i as u64, 3000 + i as u64));
    }
    (frame, interpreter)
}

fn outcome(ops: Vec<Op>) -> Result<VmValue, String> {
    execute(ops).0.into_vm_value()
}

fn num(n: i64) -> Op {
    Op::LoadConst(Value::Int(n))
}

fn float(f: f64) -> Op {
    Op::LoadConst(Value::Float(f.to_bits()))
}

fn gives(f: f64) -> Result<VmValue, String> {
    Ok(VmValue::Float(f.to_bits()))
}

fn var(name: &str) -> Op {
    Op::LoadVar(name.to_string())
}

fn store(name: &str) -> Op {
    Op::StoreVar(name.to_string())
}

fn assign(name: &str) -> Op {
    Op::AssignVar(name.to_string())
}

#[test]
fn constants_are_returned() {
    assert_eq!(outcome(vec![num(42), Op::Return]), gives(42.0));
    assert_eq!(outcome(vec![float(-2.5), Op::Return]), gives(-2.5));
    assert_eq!(outcome(vec![Op::LoadConst(Value::Bool(true)), Op::Return]), gives(1.0));
    assert_eq!(outcome(vec![Op::LoadNil, Op::Return]), Ok(VmValue::Nil));
}

#[test]
fn a_function_without_a_return_leaves_its_stack() {
    let (frame, _) = execute(vec![num(1), Op::LoadNil]);
    assert_eq!(frame.stack_len, 2);
    assert_eq!(frame.into_vm_value(), gives(0.0));
}

#[test]
fn arithmetic_takes_the_lower_operand_first() {
    assert_eq!(outcome(vec![num(7), num(2), Op::NumSub, Op::Return]), gives(5.0));
    assert_eq!(outcome(vec![num(7), num(2), Op::NumDiv, Op::Return]), gives(3.5));
    assert_eq!(
        outcome(vec![num(1), num(2), Op::NumAdd, num(3), Op::NumMul, Op::Return]),
        gives(9.0)
    );
    assert_eq!(outcome(vec![num(1), num(0), Op::NumDiv, Op::Return]), gives(f64::INFINITY));
}

#[test]
fn conditional_jumps_tell_false_from_true() {
    let taken = |op: Op| outcome(vec![op, Op::JumpIfFalse(4), num(1), Op::Return, num(2), Op::Return]);
    assert_eq!(taken(Op::LoadNil), gives(2.0));
    assert_eq!(taken(num(0)), gives(2.0));
    assert_eq!(taken(float(0.0)), gives(2.0));
    assert_eq!(taken(Op::LoadConst(Value::Bool(false))), gives(2.0));
    assert_eq!(taken(Op::LoadConst(Value::Bool(true))), gives(1.0));
    assert_eq!(taken(num(-1)), gives(1.0));
    assert_eq!(taken(float(-0.0)), gives(1.0));
    assert_eq!(taken(float(f64::NAN)), gives(1.0));
    assert_eq!(taken(Op::MakeList(0)), gives(1.0));
}

#[test]
fn comparisons_branch() {
    let branch = |a: i64, b: i64, op: Op| {
        outcome(vec![
            num(a),
            num(b),
            op,
            Op::JumpIfFalse(6),
            num(1),
            Op::Return,
            num(0),
            Op::Return,
        ])
    };
    assert_eq!(branch(1, 2, Op::NumLt), gives(1.0));
    assert_eq!(branch(2, 1, Op::NumLt), gives(0.0));
    assert_eq!(branch(2, 2, Op::NumLt), gives(0.0));
    assert_eq!(branch(2, 1, Op::NumGt), gives(1.0));
    assert_eq!(branch(1, 2, Op::NumGt), gives(0.0));
    assert_eq!(branch(3, 3, Op::NumEq), gives(1.0));
    assert_eq!(branch(3, 4, Op::NumEq), gives(0.0));
}

#[test]
fn a_loop_computes_a_factorial() {
    let (frame, interpreter) = execute(vec![
        num(10),
        store("n"),
        num(1),
        store("product"),
        // Operation 4 starts the loop.
        var("n"),
        num(1),
        Op::NumGt,
        Op::JumpIfFalse(17),
        var("product"),
        var("n"),
        Op::NumMul,
        assign("product"),
        var("n"),
        num(1),
        Op::NumSub,
        assign("n"),
        Op::Jump(4),
        var("product"),
        Op::Return,
    ]);
    assert_eq!(interpreter.scopes[0].get("product"), Some(&3628800.0));
    assert_eq!(frame.stack_len, 0);
    assert_eq!(frame.into_vm_value(), gives(3628800.0));
}

#[test]
fn an_error_ends_the_function() {
    let (frame, interpreter) = execute(vec![
        num(1),
        store("before"),
        var("missing"),
        store("after"),
        num(5),
        Op::Return,
    ]);
    assert!(interpreter.scopes[0].contains_key("before"));
    assert!(!interpreter.scopes[0].contains_key("after"));
    assert_eq!(frame.into_vm_value(), Err("JIT LoadVar undefined variable".to_string()));
}

#[test]
fn assignments_need_a_variable() {
    assert_eq!(
        outcome(vec![num(1), assign("x"), Op::LoadNil, Op::Return]),
        Err("JIT AssignVar failed".to_string())
    );
}

#[test]
fn environments_nest() {
    assert_eq!(
        outcome(vec![
            num(1),
            store("x"),
            Op::PushEnv,
            num(2),
            store("x"),
            var("x"),
            Op::PopEnv,
            var("x"),
            Op::NumSub,
            Op::Return,
        ]),
        gives(1.0)
    );
    assert_eq!(
        outcome(vec![Op::PopEnv, Op::LoadNil, Op::Return]),
        Err("JIT PopEnv: no parent environment".to_string())
    );
}

#[test]
fn a_list_cannot_be_returned() {
    assert_eq!(
        outcome(vec![num(1), num(2), Op::MakeList(2), Op::Return]),
        Err("Unsupported JIT return tag".to_string())
    );
}

#[test]
fn lists_are_built_on_the_stack() {
    let (mut frame, _) = execute(vec![
        num(3),
        Op::MakeList(1),
        num(1),
        float(2.5),
        Op::MakeList(2),
        Op::AppendSplice,
    ]);
    assert_eq!(
        frame.pop_val(),
        Ok(VmValue::List(vec![
            VmValue::Int(1),
            VmValue::Float(2.5f64.to_bits()),
            VmValue::Int(3)
        ]))
    );
    let (mut frame, _) = execute(vec![num(9), Op::MakeList(0), Op::PrependList]);
    assert_eq!(frame.pop_val(), Ok(VmValue::List(vec![VmValue::Float(9.0f64.to_bits())])));
}

#[test]
fn a_call_takes_the_whole_stack() {
    let (frame, _) = execute(vec![num(100), num(1), num(2), Op::Call(2)]);
    assert_eq!(frame.stack_len, 1);
    assert_eq!(
        outcome(vec![num(100), num(1), num(2), Op::Call(2), Op::Return]),
        gives(3.0)
    );
}

#[test]
fn a_full_stack_ends_the_function() {
    assert_eq!(
        outcome(vec![num(1), store("x"), var("x"), Op::Jump(2)]),
        Err("JIT Stack overflow".to_string())
    );
}

#[test]
fn an_empty_stack_ends_the_function() {
    assert_eq!(
        outcome(vec![store("x"), Op::LoadNil, Op::Return]),
        Err("JIT Stack underflow".to_string())
    );
}

#[test]
fn the_created_function_is_the_one_that_was_compiled() {
    let inner = Rc::new(Chunk { ops: vec![Op::LoadNil, Op::Return], sub_chunks: Vec::new() });
    let params = Rc::new(vec!["x".to_string()]);
    let body_expr = PinnedExpr { address: 0x77 };
    let make = Op::MakeFunc { params: Rc::clone(&params), body_expr, code_offset: 0 };
    let (mut frame, _) = execute_with(vec![make], vec![Rc::clone(&inner)]);
    assert_eq!(
        frame.pop_val(),
        Ok(VmValue::Closure {
            chunk: inner,
            params,
            body_expr: Expr::Pinned(body_expr),
            env: GcHandle { index: 0 },
        })
    );
}

#[test]
fn a_function_outside_the_chunk_is_refused() {
    let make = Op::MakeFunc {
        params: Rc::new(Vec::new()),
        body_expr: PinnedExpr { address: 0 },
        code_offset: 0,
    };
    assert_eq!(
        outcome(vec![make, Op::Return]),
        Err("JIT MakeFunc: code_offset out of range".to_string())
    );
}

#[test]
fn each_creation_makes_its_own_function_as_often_as_it_runs() {
    let first = Rc::new(Chunk { ops: vec![Op::LoadNil], sub_chunks: Vec::new() });
    let second = Rc::new(Chunk { ops: vec![Op::Return], sub_chunks: Vec::new() });
    let make = |code_offset: usize| Op::MakeFunc {
        params: Rc::new(vec![]),
        body_expr: PinnedExpr { address: code_offset as u64 },
        code_offset,
    };
    let closure = |chunk: &Rc<Chunk>, address: u64| VmValue::Closure {
        chunk: Rc::clone(chunk),
        params: Rc::new(vec![]),
        body_expr: Expr::Pinned(PinnedExpr { address }),
        env: GcHandle { index: 0 },
    };
    // The second operation runs twice.
    let ops = vec![
        make(0),
        make(1),
        Op::LoadVar("again".to_string()),
        Op::JumpIfFalse(7),
        num(0),
        Op::AssignVar("again".to_string()),
        Op::Jump(1),
    ];
    let mut all = vec![num(1), Op::StoreVar("again".to_string())];
    for op in ops {
        all.push(match op {
            Op::Jump(t) => Op::Jump(t + 2),
            Op::JumpIfFalse(t) => Op::JumpIfFalse(t + 2),
            other => other,
        });
    }
    all.push(Op::LoadNil);
    let (mut frame, _) = execute_with(all, vec![Rc::clone(&first), Rc::clone(&second)]);
    assert_eq!(frame.error, None);
    assert_eq!(frame.stack_len, 4);
    let _ = frame.pop_val();
    assert_eq!(frame.pop_val(), Ok(closure(&second, 1)));
    assert_eq!(frame.pop_val(), Ok(closure(&second, 1)));
    assert_eq!(frame.pop_val(), Ok(closure(&first, 0)));
}

#[test]
fn a_failure_leaves_the_result_words_alone() {
    let (frame, _) = execute(vec![num(4), num(5), var("missing"), Op::Return]);
    assert_eq!(frame.result_tag, 0);
    assert_eq!(frame.result_val, 0);
    assert_eq!(frame.stack_len, 3);
    assert_eq!(frame.error, Some("JIT LoadVar undefined variable".to_string()));
}

#[test]
fn arithmetic_keeps_the_tag_of_the_first_operand() {
    assert_eq!(outcome(vec![Op::LoadNil, num(2), Op::NumAdd, Op::Return]), Ok(VmValue::Nil));
    assert_eq!(outcome(vec![num(2), Op::LoadNil, Op::NumAdd, Op::Return]), gives(2.0));
}

#[test]
fn each_constant_load_pushes_its_own_constant() {
    let load = |address: u64| Op::LoadConst(Value::Object(PinnedExpr { address }));
    let (mut frame, _) = execute(vec![load(10), load(20), num(1), load(30)]);
    assert_eq!(frame.error, None);
    assert_eq!(frame.pop_val(), Ok(VmValue::Foreign(30)));
    assert_eq!(frame.pop_val(), Ok(VmValue::Float(1.0f64.to_bits())));
    assert_eq!(frame.pop_val(), Ok(VmValue::Foreign(20)));
    assert_eq!(frame.pop_val(), Ok(VmValue::Foreign(10)));
}
