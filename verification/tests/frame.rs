use std::rc::Rc;

use pilisp_jit::bytecode::{Chunk, Expr, GcHandle, PinnedExpr, VmValue};
use pilisp_jit::frame::JitFrame;

fn empty_chunk() -> Rc<Chunk> {
    Rc::new(Chunk { ops: Vec::new(), sub_chunks: Vec::new() })
}

fn fresh_frame() -> JitFrame {
    JitFrame::new(&vec![GcHandle { index: 1 }, GcHandle { index: 7 }], &empty_chunk())
}

fn text(s: &str) -> VmValue {
    VmValue::Str(s.to_string())
}

#[test]
fn a_fresh_frame_is_empty() {
    let frame = fresh_frame();
    assert_eq!(frame.stack_len, 0);
    assert_eq!(frame.capacity, 1024);
    assert_eq!(frame.stack.len(), 1024);
    assert_eq!(frame.tags.len(), 1024);
    assert_eq!(frame.vals.len(), 1024);
    assert_eq!(frame.env, GcHandle { index: 7 });
    assert_eq!(frame.error, None);
    assert_eq!(frame.result_tag, 0);
    assert_eq!(frame.result_val, 0);
}

#[test]
fn a_frame_shares_its_chunk() {
    let chunk = empty_chunk();
    let frame = JitFrame::new(&vec![GcHandle { index: 0 }], &chunk);
    assert!(Rc::ptr_eq(&frame.chunk, &chunk));
}

#[test]
fn numbers_are_stored_as_doubles() {
    let mut frame = fresh_frame();
    frame.push_val(VmValue::Int(3));
    frame.push_val(VmValue::Float(2.5f64.to_bits()));
    frame.push_val(VmValue::Bool(true));
    frame.push_val(VmValue::Bool(false));
    assert_eq!(frame.stack_len, 4);
    assert_eq!(frame.tags[0..4], [0, 0, 0, 0]);
    assert_eq!(
        frame.stack[0..4],
        [3.0f64.to_bits(), 2.5f64.to_bits(), 1.0f64.to_bits(), 0.0f64.to_bits()]
    );
}

#[test]
fn nil_and_objects_are_stored_under_their_tags() {
    let mut frame = fresh_frame();
    frame.push_val(VmValue::Nil);
    frame.push_val(text("a"));
    frame.push_val(VmValue::List(vec![VmValue::Int(1)]));
    frame.push_val(VmValue::Foreign(9));
    assert_eq!(frame.tags[0..4], [1, 2, 2, 2]);
    assert_eq!(frame.stack[0..4], [0, 0, 0, 0]);
    assert_eq!(frame.vals[0], VmValue::Nil);
    assert_eq!(frame.vals[1], text("a"));
}

#[test]
fn a_pop_undoes_a_push() {
    let mut frame = fresh_frame();
    frame.push_val(VmValue::Int(1));
    frame.push_val(text("kept"));
    frame.push_val(VmValue::Int(-4));
    assert_eq!(frame.pop_val(), Ok(VmValue::Float((-4.0f64).to_bits())));
    assert_eq!(frame.pop_val(), Ok(text("kept")));
    assert_eq!(frame.vals[1], VmValue::Nil);
    frame.push_val(VmValue::Nil);
    assert_eq!(frame.pop_val(), Ok(VmValue::Nil));
    assert_eq!(frame.stack_len, 1);
    assert_eq!(frame.error, None);
}

#[test]
fn closures_come_back_whole() {
    let mut frame = fresh_frame();
    let chunk = empty_chunk();
    frame.push_val(VmValue::Closure {
        chunk: Rc::clone(&chunk),
        params: Rc::new(vec!["x".to_string()]),
        body_expr: Expr::Pinned(PinnedExpr { address: 16 }),
        env: GcHandle { index: 2 },
    });
    assert_eq!(
        frame.pop_val(),
        Ok(VmValue::Closure {
            chunk,
            params: Rc::new(vec!["x".to_string()]),
            body_expr: Expr::Pinned(PinnedExpr { address: 16 }),
            env: GcHandle { index: 2 },
        })
    );
}

#[test]
fn an_empty_stack_underflows() {
    let mut frame = fresh_frame();
    assert_eq!(frame.pop_val(), Err(()));
    assert_eq!(frame.error, Some("JIT Stack underflow".to_string()));
    assert_eq!(frame.stack_len, 0);
}

#[test]
fn a_full_stack_overflows() {
    let mut frame = fresh_frame();
    for n in 0..1024 {
        frame.push_val(VmValue::Int(n));
    }
    assert_eq!(frame.error, None);
    frame.push_val(VmValue::Nil);
    assert_eq!(frame.error, Some("JIT Stack overflow".to_string()));
    assert_eq!(frame.stack_len, 1024);
    assert_eq!(frame.pop_val(), Ok(VmValue::Float(1023.0f64.to_bits())));
}

#[test]
fn values_reach_the_machine_as_integers_where_they_are_whole() {
    let mut frame = fresh_frame();
    frame.push_val(VmValue::Int(12));
    frame.push_val(VmValue::Float(0.5f64.to_bits()));
    frame.push_val(VmValue::Bool(true));
    frame.push_val(VmValue::Nil);
    frame.push_val(text("s"));
    let values = frame.take_machine_values(1);
    assert_eq!(
        values,
        vec![VmValue::Float(0.5f64.to_bits()), VmValue::Int(1), VmValue::Nil, text("s")]
    );
    assert_eq!(frame.stack_len, 5);
    assert_eq!(frame.vals[4], VmValue::Nil);
}

#[test]
fn the_outcome_is_the_result_words() {
    let mut frame = fresh_frame();
    frame.result_val = 6.5f64.to_bits();
    assert_eq!(frame.into_vm_value(), Ok(VmValue::Float(6.5f64.to_bits())));

    let mut frame = fresh_frame();
    frame.result_tag = 1;
    assert_eq!(frame.into_vm_value(), Ok(VmValue::Nil));

    let mut frame = fresh_frame();
    frame.result_tag = 2;
    assert_eq!(frame.into_vm_value(), Err("Unsupported JIT return tag".to_string()));
}

#[test]
fn an_error_is_the_outcome() {
    let mut frame = fresh_frame();
    let _ = frame.pop_val();
    frame.result_tag = 1;
    assert_eq!(frame.into_vm_value(), Err("JIT Stack underflow".to_string()));
}
