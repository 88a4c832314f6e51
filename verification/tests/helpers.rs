use std::rc::Rc;

use pilisp_jit::bytecode::{Chunk, Expr, GcHandle, Op, PinnedExpr, Value, VmValue};
use pilisp_jit::frame::JitFrame;
use pilisp_jit::jit_abi::{
    finish_assign_var, finish_call, finish_load_var, finish_make_const, finish_pop_env,
    finish_push_env, finish_store_self, finish_store_var, finish_tree_eval,
    jit_helper_append_splice, jit_helper_assign_var, jit_helper_call, jit_helper_load_var,
    jit_helper_make_const, jit_helper_make_func_from_op, jit_helper_make_list, jit_helper_num_eq,
    jit_helper_num_gt, jit_helper_num_lt, jit_helper_pop_env, jit_helper_prepend_list,
    jit_helper_push_env, jit_helper_store_self, jit_helper_store_var, jit_helper_tail_call,
    jit_helper_tree_eval, sync_and_call, AssignReply, Assignment, Binding, CallRequest, EvalReply, Evaluation,
    LookupReply, MakeFuncData, NameLookup, PendingOps,
};

const ENV: GcHandle = GcHandle { index: 5 };

fn frame_of(values: Vec<VmValue>) -> JitFrame {
    let inner = Rc::new(Chunk { ops: vec![Op::Return], sub_chunks: Vec::new() });
    let chunk = Rc::new(Chunk { ops: vec![Op::LoadNil, Op::Return], sub_chunks: vec![inner] });
    let mut frame = JitFrame::new(&vec![ENV], &chunk);
    for value in values {
        frame.push_val(value);
    }
    frame
}

fn text(s: &str) -> VmValue {
    VmValue::Str(s.to_string())
}

fn float(f: f64) -> VmValue {
    VmValue::Float(f.to_bits())
}

fn error_of(frame: &JitFrame) -> &str {
    match &frame.error {
        Some(message) => message.as_str(),
        None => "",
    }
}

#[test]
fn load_var_asks_for_the_name() {
    let frame = frame_of(vec![]);
    assert_eq!(
        jit_helper_load_var(&frame, "x"),
        NameLookup { env: ENV, name: "x".to_string() }
    );
}

#[test]
fn load_var_pushes_the_value() {
    let mut frame = frame_of(vec![]);
    finish_load_var(&mut frame, LookupReply::Found(text("v")));
    assert_eq!(error_of(&frame), "");
    assert_eq!(frame.pop_val(), Ok(text("v")));
}

#[test]
fn load_var_fails_with_nil() {
    let mut frame = frame_of(vec![]);
    finish_load_var(&mut frame, LookupReply::Unconvertible);
    assert_eq!(error_of(&frame), "JIT LoadVar expr error");
    assert_eq!(frame.pop_val(), Ok(VmValue::Nil));
    finish_load_var(&mut frame, LookupReply::Undefined);
    assert_eq!(error_of(&frame), "JIT LoadVar undefined variable");
    assert_eq!(frame.pop_val(), Ok(VmValue::Nil));
}

#[test]
fn an_overflow_replaces_the_error_of_a_lookup() {
    let mut frame = frame_of(vec![]);
    for _ in 0..1024 {
        frame.push_val(VmValue::Nil);
    }
    finish_load_var(&mut frame, LookupReply::Undefined);
    assert_eq!(error_of(&frame), "JIT Stack overflow");
}

#[test]
fn store_var_hands_the_value_over() {
    let mut frame = frame_of(vec![VmValue::Int(1), text("v")]);
    assert_eq!(
        jit_helper_store_var(&mut frame, "name"),
        Some(Binding { env: ENV, name: "name".to_string(), value: text("v") })
    );
    assert_eq!(frame.stack_len, 1);
    finish_store_var(&mut frame, true);
    assert_eq!(error_of(&frame), "");
    finish_store_var(&mut frame, false);
    assert_eq!(error_of(&frame), "JIT StoreVar vm_value_to_expr failed");
}

#[test]
fn store_var_on_an_empty_stack_is_through() {
    let mut frame = frame_of(vec![]);
    assert_eq!(jit_helper_store_var(&mut frame, "name"), None);
    assert_eq!(error_of(&frame), "JIT Stack underflow");
}

#[test]
fn assign_var_hands_the_value_over() {
    let mut frame = frame_of(vec![VmValue::Int(2)]);
    assert_eq!(
        jit_helper_assign_var(&mut frame, "n"),
        Some(Assignment { env: ENV, name: "n".to_string(), value: float(2.0) })
    );
    finish_assign_var(&mut frame, AssignReply::Assigned);
    assert_eq!(error_of(&frame), "");
    finish_assign_var(&mut frame, AssignReply::Rejected);
    assert_eq!(error_of(&frame), "JIT AssignVar failed");
    finish_assign_var(&mut frame, AssignReply::Unconvertible);
    assert_eq!(error_of(&frame), "JIT AssignVar vm_value_to_expr failed");
    assert_eq!(jit_helper_assign_var(&mut frame, "n"), None);
}

#[test]
fn a_call_moves_the_stack_over() {
    let mut frame = frame_of(vec![text("f"), VmValue::Int(1), float(1.5), VmValue::Nil]);
    assert_eq!(
        jit_helper_call(&mut frame, 3),
        CallRequest {
            stack: vec![text("f"), VmValue::Int(1), float(1.5), VmValue::Nil],
            n_args: 3,
            tail: false,
        }
    );
    assert_eq!(frame.vals[0], VmValue::Nil);
    finish_call(&mut frame, Ok(Some(VmValue::Int(8))));
    assert_eq!(frame.stack_len, 1);
    assert_eq!(frame.pop_val(), Ok(float(8.0)));
}

#[test]
fn a_tail_call_is_marked() {
    let mut frame = frame_of(vec![text("f")]);
    let request = jit_helper_tail_call(&mut frame, 0);
    assert!(request.tail);
    let mut frame = frame_of(vec![text("f")]);
    assert_eq!(sync_and_call(&mut frame, 0, true), request);
}

#[test]
fn a_call_without_a_result_leaves_nil() {
    let mut frame = frame_of(vec![VmValue::Int(1), VmValue::Int(2)]);
    finish_call(&mut frame, Ok(None));
    assert_eq!(frame.stack_len, 1);
    assert_eq!(error_of(&frame), "");
    assert_eq!(frame.pop_val(), Ok(VmValue::Nil));
}

#[test]
fn a_failed_call_leaves_nil_and_its_message() {
    let mut frame = frame_of(vec![VmValue::Int(1), VmValue::Int(2)]);
    finish_call(&mut frame, Err("no such function".to_string()));
    assert_eq!(frame.stack_len, 1);
    assert_eq!(error_of(&frame), "no such function");
    assert_eq!(frame.into_vm_value(), Err("no such function".to_string()));
}

#[test]
fn tree_eval_asks_for_the_expression() {
    let mut frame = frame_of(vec![]);
    let expr = PinnedExpr { address: 0x1000 };
    assert_eq!(jit_helper_tree_eval(&frame, expr), Evaluation { env: ENV, expr });
    finish_tree_eval(&mut frame, EvalReply::Value(VmValue::Int(4)));
    assert_eq!(frame.pop_val(), Ok(float(4.0)));
    finish_tree_eval(&mut frame, EvalReply::Unconvertible);
    assert_eq!(error_of(&frame), "JIT TreeEval: conversion failed");
    finish_tree_eval(&mut frame, EvalReply::Failed("boom".to_string()));
    assert_eq!(error_of(&frame), "boom");
    assert_eq!(frame.stack_len, 2);
}

#[test]
fn environments_are_entered_and_left() {
    let mut frame = frame_of(vec![]);
    assert_eq!(jit_helper_push_env(&frame), ENV);
    finish_push_env(&mut frame, GcHandle { index: 6 });
    assert_eq!(jit_helper_pop_env(&frame), GcHandle { index: 6 });
    finish_pop_env(&mut frame, Some(ENV));
    assert_eq!(frame.env, ENV);
    assert_eq!(error_of(&frame), "");
    finish_pop_env(&mut frame, None);
    assert_eq!(frame.env, ENV);
    assert_eq!(error_of(&frame), "JIT PopEnv: no parent environment");
}

#[test]
fn store_self_makes_a_closure_of_the_running_chunk() {
    let mut frame = frame_of(vec![]);
    let request = jit_helper_store_self(&frame, "me");
    assert_eq!(request.env, ENV);
    assert_eq!(request.name, "me");
    assert_eq!(
        request.value,
        VmValue::Closure {
            chunk: Rc::clone(&frame.chunk),
            params: Rc::new(vec![]),
            body_expr: Expr::EmptyList,
            env: ENV,
        }
    );
    finish_store_self(&mut frame, true);
    assert_eq!(error_of(&frame), "");
    finish_store_self(&mut frame, false);
    assert_eq!(error_of(&frame), "JIT StoreSelf: conversion failed");
}

#[test]
fn make_list_gathers_in_order() {
    let mut frame = frame_of(vec![VmValue::Int(1), VmValue::Int(2), text("c"), float(0.5)]);
    jit_helper_make_list(&mut frame, 3);
    assert_eq!(frame.stack_len, 2);
    assert_eq!(
        frame.pop_val(),
        Ok(VmValue::List(vec![VmValue::Int(2), text("c"), float(0.5)]))
    );
    assert_eq!(frame.pop_val(), Ok(float(1.0)));
    assert_eq!(error_of(&frame), "");
}

#[test]
fn make_list_of_nothing_is_empty() {
    let mut frame = frame_of(vec![]);
    jit_helper_make_list(&mut frame, 0);
    assert_eq!(frame.pop_val(), Ok(VmValue::List(vec![])));
}

#[test]
fn make_list_underflows() {
    let mut frame = frame_of(vec![VmValue::Int(1)]);
    jit_helper_make_list(&mut frame, 2);
    assert_eq!(error_of(&frame), "JIT MakeList: stack underflow");
    assert_eq!(frame.stack_len, 1);
}

#[test]
fn prepend_list_puts_the_value_in_front() {
    let mut frame = frame_of(vec![VmValue::Nil, text("a"), VmValue::List(vec![VmValue::Int(2)])]);
    jit_helper_prepend_list(&mut frame);
    assert_eq!(frame.stack_len, 2);
    assert_eq!(frame.pop_val(), Ok(VmValue::List(vec![text("a"), VmValue::Int(2)])));
}

#[test]
fn prepend_list_wants_a_list() {
    let mut frame = frame_of(vec![text("a"), VmValue::Int(2)]);
    jit_helper_prepend_list(&mut frame);
    assert_eq!(error_of(&frame), "JIT PrependList: expected list");
    assert_eq!(frame.stack_len, 1);
    assert_eq!(frame.pop_val(), Ok(VmValue::Nil));
    frame.push_val(VmValue::Nil);
    jit_helper_prepend_list(&mut frame);
    assert_eq!(error_of(&frame), "JIT PrependList: stack underflow");
    assert_eq!(frame.stack_len, 1);
}

#[test]
fn append_splice_puts_the_upper_list_first() {
    let mut frame = frame_of(vec![
        VmValue::List(vec![VmValue::Int(3), VmValue::Int(4)]),
        VmValue::List(vec![VmValue::Int(1), VmValue::Int(2)]),
    ]);
    jit_helper_append_splice(&mut frame);
    assert_eq!(
        frame.pop_val(),
        Ok(VmValue::List(vec![
            VmValue::Int(1),
            VmValue::Int(2),
            VmValue::Int(3),
            VmValue::Int(4)
        ]))
    );
}

#[test]
fn append_splice_wants_two_lists() {
    let mut frame = frame_of(vec![VmValue::Int(1), VmValue::List(vec![])]);
    jit_helper_append_splice(&mut frame);
    assert_eq!(error_of(&frame), "JIT AppendSplice: expected two lists");
    assert_eq!(frame.stack_len, 1);
    jit_helper_append_splice(&mut frame);
    assert_eq!(error_of(&frame), "JIT AppendSplice: stack underflow");
}

#[test]
fn make_const_picks_the_pending_constant_up() {
    let value = Value::Object(PinnedExpr { address: 64 });
    let mut frame = frame_of(vec![]);
    let mut pending = PendingOps { op: Some(Op::LoadConst(value)), ..PendingOps::new() };
    assert_eq!(jit_helper_make_const(&mut frame, &mut pending, 0), Some(value));
    assert_eq!(pending.op, None);
    assert_eq!(frame.stack_len, 0);
    finish_make_const(&mut frame, Some(text("sym")));
    assert_eq!(frame.pop_val(), Ok(text("sym")));
    finish_make_const(&mut frame, None);
    assert_eq!(error_of(&frame), "JIT MakeConst: conversion failed");
    assert_eq!(frame.pop_val(), Ok(VmValue::Nil));
}

#[test]
fn make_const_pushes_a_pending_nil() {
    let mut frame = frame_of(vec![]);
    let mut pending = PendingOps { op: Some(Op::LoadNil), ..PendingOps::new() };
    assert_eq!(jit_helper_make_const(&mut frame, &mut pending, 0), None);
    assert_eq!(error_of(&frame), "");
    assert_eq!(frame.pop_val(), Ok(VmValue::Nil));
}

#[test]
fn make_const_without_a_constant_fails() {
    let mut frame = frame_of(vec![]);
    let mut pending = PendingOps::new();
    assert_eq!(jit_helper_make_const(&mut frame, &mut pending, 0), None);
    assert_eq!(error_of(&frame), "JIT MakeConst: unexpected op");
    assert_eq!(frame.pop_val(), Ok(VmValue::Nil));
    pending.op = Some(Op::Pop);
    assert_eq!(jit_helper_make_const(&mut frame, &mut pending, 0), None);
    assert_eq!(pending.op, None);
    assert_eq!(frame.stack_len, 1);
}

#[test]
fn make_func_pushes_the_closure() {
    let mut frame = frame_of(vec![]);
    let mut pending = PendingOps::new();
    pending.make_func.push(MakeFuncData {
        op_index: 3,
        code_offset: 0,
        params: Rc::new(vec!["a".to_string(), "b".to_string()]),
        body_expr: PinnedExpr { address: 8 },
    });
    pending.make_func.push(MakeFuncData {
        op_index: 4,
        code_offset: 7,
        params: Rc::new(vec![]),
        body_expr: PinnedExpr { address: 16 },
    });
    jit_helper_make_func_from_op(&mut frame, &pending, 3);
    let expected = VmValue::Closure {
        chunk: Rc::clone(&frame.chunk.sub_chunks[0]),
        params: Rc::new(vec!["a".to_string(), "b".to_string()]),
        body_expr: Expr::Pinned(PinnedExpr { address: 8 }),
        env: ENV,
    };
    assert_eq!(frame.pop_val(), Ok(expected));
}

#[test]
fn make_func_fails_without_data_or_chunk() {
    let mut frame = frame_of(vec![]);
    let mut pending = PendingOps::new();
    jit_helper_make_func_from_op(&mut frame, &pending, 0);
    assert_eq!(error_of(&frame), "JIT MakeFunc: no op data");
    pending.make_func.push(MakeFuncData {
        op_index: 0,
        code_offset: 1,
        params: Rc::new(vec![]),
        body_expr: PinnedExpr { address: 0 },
    });
    jit_helper_make_func_from_op(&mut frame, &pending, 0);
    assert_eq!(error_of(&frame), "JIT MakeFunc: code_offset out of range");
    assert_eq!(frame.stack_len, 2);
    assert_eq!(frame.pop_val(), Ok(VmValue::Nil));
}

fn eq_of(a: VmValue, b: VmValue) -> VmValue {
    let mut frame = frame_of(vec![VmValue::Nil, a, b]);
    jit_helper_num_eq(&mut frame);
    assert_eq!(frame.stack_len, 2);
    frame.pop_val().unwrap()
}

#[test]
fn num_eq_compares_values() {
    let yes = float(1.0);
    let no = float(0.0);
    assert_eq!(eq_of(VmValue::Int(2), float(2.0)), yes);
    assert_eq!(eq_of(float(0.0), float(-0.0)), yes);
    assert_eq!(eq_of(float(f64::NAN), float(f64::NAN)), no);
    assert_eq!(eq_of(VmValue::Nil, VmValue::Nil), yes);
    assert_eq!(eq_of(VmValue::Nil, VmValue::Int(0)), no);
    assert_eq!(eq_of(text("a"), text("a")), yes);
    assert_eq!(eq_of(text("a"), text("b")), no);
    assert_eq!(eq_of(text("a"), VmValue::Nil), no);
    assert_eq!(eq_of(VmValue::List(vec![]), VmValue::List(vec![])), no);
}

#[test]
fn num_eq_underflows() {
    let mut frame = frame_of(vec![VmValue::Int(1)]);
    jit_helper_num_eq(&mut frame);
    assert_eq!(error_of(&frame), "JIT NumEq: stack underflow");
    assert_eq!(frame.stack_len, 1);
}

#[test]
fn num_lt_and_gt_are_each_other_swapped() {
    for (a, b) in [(1.0, 2.0), (2.0, 1.0), (1.0, 1.0), (-1.0, 0.5), (f64::NAN, 1.0)] {
        let mut lt = frame_of(vec![float(a), float(b)]);
        jit_helper_num_lt(&mut lt);
        let mut gt = frame_of(vec![float(b), float(a)]);
        jit_helper_num_gt(&mut gt);
        let expected = if a < b { float(1.0) } else { float(0.0) };
        assert_eq!(lt.stack_len, 1);
        assert_eq!(lt.pop_val().unwrap(), expected);
        assert_eq!(gt.pop_val().unwrap(), expected);
    }
}

#[test]
fn num_lt_and_gt_underflow() {
    let mut frame = frame_of(vec![VmValue::Int(1)]);
    jit_helper_num_lt(&mut frame);
    assert_eq!(error_of(&frame), "JIT NumLt: stack underflow");
    jit_helper_num_gt(&mut frame);
    assert_eq!(error_of(&frame), "JIT NumGt: stack underflow");
    assert_eq!(frame.stack_len, 1);
}

#[test]
fn an_error_stays() {
    let mut frame = frame_of(vec![]);
    let _ = frame.pop_val();
    finish_load_var(&mut frame, LookupReply::Found(VmValue::Int(1)));
    jit_helper_make_list(&mut frame, 1);
    finish_call(&mut frame, Ok(None));
    assert_eq!(frame.into_vm_value(), Err("JIT Stack underflow".to_string()));
}

#[test]
fn nil_is_not_what_a_dropped_value_was() {
    let mut frame = frame_of(vec![text("a"), text("a")]);
    jit_helper_num_eq(&mut frame);
    let _ = frame.pop_val();
    // The slots still hold the texts that were compared.
    assert_eq!(frame.vals[0], text("a"));
    frame.push_val(VmValue::Nil);
    frame.push_val(text("a"));
    jit_helper_num_eq(&mut frame);
    assert_eq!(frame.pop_val(), Ok(float(0.0)));
}

#[test]
fn the_last_entry_for_an_operation_counts() {
    let mut frame = frame_of(vec![]);
    let mut pending = PendingOps::new();
    for address in [1u64, 2] {
        pending.make_func.push(MakeFuncData {
            op_index: 0,
            code_offset: 0,
            params: Rc::new(vec![]),
            body_expr: PinnedExpr { address },
        });
    }
    jit_helper_make_func_from_op(&mut frame, &pending, 0);
    let expected = VmValue::Closure {
        chunk: Rc::clone(&frame.chunk.sub_chunks[0]),
        params: Rc::new(vec![]),
        body_expr: Expr::Pinned(PinnedExpr { address: 2 }),
        env: ENV,
    };
    assert_eq!(frame.pop_val(), Ok(expected));
}

#[test]
fn make_const_finds_a_constant_by_its_number() {
    let constant = |address: u64| Value::Object(PinnedExpr { address });
    let mut frame = frame_of(vec![]);
    let mut pending = PendingOps {
        op: Some(Op::LoadConst(constant(3))),
        earlier: vec![Some(Op::LoadConst(constant(1))), Some(Op::LoadConst(constant(2)))],
        make_func: Vec::new(),
    };
    assert_eq!(jit_helper_make_const(&mut frame, &mut pending, 2), Some(constant(2)));
    assert_eq!(pending.earlier, vec![Some(Op::LoadConst(constant(1))), None]);
    assert_eq!(jit_helper_make_const(&mut frame, &mut pending, 1), Some(constant(1)));
    assert_eq!(jit_helper_make_const(&mut frame, &mut pending, 0), Some(constant(3)));
    assert_eq!(error_of(&frame), "");
    assert_eq!(jit_helper_make_const(&mut frame, &mut pending, 3), None);
    assert_eq!(error_of(&frame), "JIT MakeConst: unexpected op");
}
