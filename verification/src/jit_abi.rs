//! The runtime helpers that compiled code calls.
//!
//! A helper that needs the interpreter is split in two: the first half says
//! what it asks for, the second half takes the reply.

use std::rc::Rc;
use vstd::prelude::*;

use crate::bytecode::{
    data, law_list_contents, name_texts, share, Datum, Expr, GcHandle, Op, PinnedExpr,
    Value, VmValue,
};
use crate::double::{double_eq, double_lt, law_small_ints_compared, num_eq, num_lt};
use crate::frame::{
    law_pop_removes, law_push_appends, law_push_handed_over, law_stack_handed_over, stored_form,
    stored_tag, FrameState, JitFrame, TAG_NIL, TAG_NUMBER,
};

verus! {

/// A name to look up in an environment.
#[derive(Debug, PartialEq, Eq)]
pub struct NameLookup {
    pub env: GcHandle,
    pub name: String,
}

/// What came of a name lookup.
#[derive(Debug, PartialEq, Eq)]
pub enum LookupReply {
    /// The name is bound to this value.
    Found(VmValue),
    /// The name is bound to an expression that is no value of the machine.
    Unconvertible,
    /// The name is not bound.
    Undefined,
}

/// A value to bind to a name in an environment.
#[derive(Debug, PartialEq, Eq)]
pub struct Binding {
    pub env: GcHandle,
    pub name: String,
    pub value: VmValue,
}

/// A value to assign to a name that is bound already, in an environment or in
/// one around it.
#[derive(Debug, PartialEq, Eq)]
pub struct Assignment {
    pub env: GcHandle,
    pub name: String,
    pub value: VmValue,
}

/// What came of an assignment.
#[derive(Clone, Copy, Debug, PartialEq, Eq, Structural)]
pub enum AssignReply {
    /// The name has the new value.
    Assigned,
    /// The environment has no such name.
    Rejected,
    /// The value is no expression of the interpreter.
    Unconvertible,
}

/// A call for the virtual machine to make, with the whole operand stack.
#[derive(Debug, PartialEq, Eq)]
pub struct CallRequest {
    pub stack: Vec<VmValue>,
    pub n_args: usize,
    pub tail: bool,
}

/// An expression to evaluate in an environment.
#[derive(Clone, Copy, Debug, PartialEq, Eq, Structural)]
pub struct Evaluation {
    pub env: GcHandle,
    pub expr: PinnedExpr,
}

/// What came of an evaluation.
#[derive(Debug, PartialEq, Eq)]
pub enum EvalReply {
    /// The expression has this value.
    Value(VmValue),
    /// The result is no value of the machine.
    Unconvertible,
    /// The evaluation failed, with this message.
    Failed(String),
}

/// What a function creation needs besides the running chunk, under the index of
/// the operation.
#[derive(Debug, PartialEq, Eq)]
pub struct MakeFuncData {
    pub op_index: usize,
    pub code_offset: usize,
    pub params: Rc<Vec<String>>,
    pub body_expr: PinnedExpr,
}

/// The operations that the compiler has left for the helpers to pick up.
#[derive(Debug, PartialEq, Eq)]
pub struct PendingOps {
    /// The last constant load.
    pub op: Option<Op>,
    /// The constant loads before it, in order.
    pub earlier: Vec<Option<Op>>,
    /// What the function creations need. For an operation that occurs more than
    /// once the last entry counts.
    pub make_func: Vec<MakeFuncData>,
}

/// The contents of the pending operations.
#[verifier::ext_equal]
pub struct PendingState {
    pub op: Option<Op>,
    pub earlier: Seq<Option<Op>>,
    pub make_func: Seq<MakeFuncData>,
}

impl PendingState {
    /// The constant load that a number leads to: zero to the last one, any other
    /// to the one before it of that number.
    pub open spec fn constant(self, number: usize) -> Option<Op> {
        if number == 0 {
            self.op
        } else if number <= self.earlier.len() {
            self.earlier[number - 1]
        } else {
            None
        }
    }

    /// The pending operations after a constant load was picked up.
    pub open spec fn without_constant(self, number: usize) -> PendingState {
        if number == 0 {
            PendingState { op: None, ..self }
        } else if number <= self.earlier.len() {
            PendingState { earlier: self.earlier.update(number - 1, None), ..self }
        } else {
            self
        }
    }
}

/// The constant that a constant load asks for.
pub open spec fn constant_requested(op: Option<Op>) -> Option<Value> {
    match op {
        Some(Op::LoadConst(value)) => Some(value),
        _ => None,
    }
}

/// What is kept for the function creation at an index: the last entry for it.
pub open spec fn function_at(entries: Seq<MakeFuncData>, op_index: usize) -> Option<MakeFuncData>
    decreases entries.len(),
{
    if entries.len() == 0 {
        None
    } else if entries.last().op_index == op_index {
        Some(entries.last())
    } else {
        function_at(entries.drop_last(), op_index)
    }
}

impl View for PendingOps {
    type V = PendingState;

    open spec fn view(&self) -> PendingState {
        PendingState { op: self.op, earlier: self.earlier@, make_func: self.make_func@ }
    }
}

impl PendingOps {
    /// Nothing is pending.
    pub fn new() -> (pending: PendingOps)
        ensures
            pending@ == (PendingState {
                op: None,
                earlier: Seq::empty(),
                make_func: Seq::empty(),
            }),
    {
        PendingOps { op: None, earlier: Vec::new(), make_func: Vec::new() }
    }

    /// Picks up the constant load that a number leads to.
    fn take_constant(&mut self, number: usize) -> (op: Option<Op>)
        ensures
            op == old(self)@.constant(number),
            final(self)@ == old(self)@.without_constant(number),
    {
        if number == 0 {
            self.op.take()
        } else if number <= self.earlier.len() {
            let mut op: Option<Op> = None;
            std::mem::swap(&mut op, &mut self.earlier[number - 1]);
            op
        } else {
            None
        }
    }

    /// What is kept for the function creation at an index.
    fn function(&self, op_index: usize) -> (entry: Option<&MakeFuncData>)
        ensures
            match entry {
                Some(data) => function_at(self@.make_func, op_index) == Some(*data),
                None => function_at(self@.make_func, op_index) is None,
            },
    {
        let mut n = self.make_func.len();
        assert(self.make_func@.take(n as int) =~= self.make_func@);
        while n > 0
            invariant
                n <= self.make_func@.len(),
                function_at(self.make_func@, op_index) == function_at(
                    self.make_func@.take(n as int),
                    op_index,
                ),
            decreases n,
        {
            let ghost front = self.make_func@.take(n as int);
            assert(front.last() == self.make_func@[n - 1]);
            n = n - 1;
            if self.make_func[n].op_index == op_index {
                return Some(&self.make_func[n]);
            }
            assert(front.drop_last() =~= self.make_func@.take(n as int));
        }
        None
    }
}

/// Whether a name is asked for as a frame and an operation say: the name of the
/// operation, in the environment of the frame.
pub open spec fn asks_for(f: FrameState, name: Seq<char>, env: GcHandle, asked: Seq<char>) -> bool {
    env == f.env && asked == name
}

/// Whether a value is bound as a frame and an operation say: the value on top of
/// the stack, under the name of the operation, from the environment of the frame.
pub open spec fn asks_to_bind(
    f: FrameState,
    name: Seq<char>,
    env: GcHandle,
    bound: Seq<char>,
    value: Datum,
) -> bool {
    asks_for(f, name, env, bound) && value == f.value_at(f.len - 1)
}

impl FrameState {
    /// The frame with an error message, and nil on the stack.
    pub open spec fn failed_with_nil(self, message: Seq<char>) -> FrameState {
        self.failed(message).pushed(Datum::Nil)
    }

    /// The frame after the reply to a name lookup.
    pub open spec fn loaded(self, reply: LookupReply) -> FrameState {
        match reply {
            LookupReply::Found(value) => self.pushed(value@),
            LookupReply::Unconvertible => self.failed_with_nil("JIT LoadVar expr error"@),
            LookupReply::Undefined => self.failed_with_nil("JIT LoadVar undefined variable"@),
        }
    }

    /// The frame after a binding.
    pub open spec fn stored(self, stored: bool) -> FrameState {
        if stored {
            self
        } else {
            self.failed("JIT StoreVar vm_value_to_expr failed"@)
        }
    }

    /// The frame after the function was bound to its own name.
    pub open spec fn self_stored(self, stored: bool) -> FrameState {
        if stored {
            self
        } else {
            self.failed("JIT StoreSelf: conversion failed"@)
        }
    }

    /// The frame after the helper has looked at the constant load that was
    /// pending.
    pub open spec fn constant_taken(self, pending: Option<Op>) -> FrameState {
        match pending {
            Some(Op::LoadConst(_)) => self,
            Some(Op::LoadNil) => self.pushed(Datum::Nil),
            _ => self.failed_with_nil("JIT MakeConst: unexpected op"@),
        }
    }

    /// The frame after the reply to a constant.
    pub open spec fn constant_made(self, reply: Option<VmValue>) -> FrameState {
        match reply {
            Some(value) => self.pushed(value@),
            None => self.failed_with_nil("JIT MakeConst: conversion failed"@),
        }
    }

    /// The frame after the reply to an assignment.
    pub open spec fn assigned(self, reply: AssignReply) -> FrameState {
        match reply {
            AssignReply::Assigned => self,
            AssignReply::Rejected => self.failed("JIT AssignVar failed"@),
            AssignReply::Unconvertible => self.failed("JIT AssignVar vm_value_to_expr failed"@),
        }
    }

    /// The frame after a call: only the result is on the stack.
    pub open spec fn called(self, reply: Result<Option<VmValue>, String>) -> FrameState {
        match reply {
            Ok(Some(result)) => self.resized(0).pushed(result@),
            Ok(None) => self.resized(0).pushed(Datum::Nil),
            Err(message) => self.resized(0).failed_with_nil(message@),
        }
    }

    /// The frame after the reply to an evaluation.
    pub open spec fn evaluated(self, reply: EvalReply) -> FrameState {
        match reply {
            EvalReply::Value(value) => self.pushed(value@),
            EvalReply::Unconvertible => self.failed_with_nil("JIT TreeEval: conversion failed"@),
            EvalReply::Failed(message) => self.failed_with_nil(message@),
        }
    }

    /// The frame in another environment.
    pub open spec fn entered(self, env: GcHandle) -> FrameState {
        FrameState { env, ..self }
    }

    /// The frame back in the parent environment, where there is one.
    pub open spec fn left(self, parent: Option<GcHandle>) -> FrameState {
        match parent {
            Some(env) => self.entered(env),
            None => self.failed("JIT PopEnv: no parent environment"@),
        }
    }

    /// The frame with the last values gathered in a list.
    pub open spec fn list_made(self, n: nat) -> FrameState {
        if self.len < n {
            self.failed("JIT MakeList: stack underflow"@)
        } else {
            let start = self.len - n;
            self.emptied(start).resized(start as nat).pushed(
                Datum::List(self.machine_values(start)),
            )
        }
    }

    /// The frame with the value below the last put in front of the list that is
    /// the last.
    pub open spec fn list_prepended(self) -> FrameState {
        if self.len < 2 {
            self.failed("JIT PrependList: stack underflow"@)
        } else {
            match self.value_at(self.len - 1) {
                Datum::List(items) => self.popped().popped().pushed(
                    Datum::List(seq![self.value_at(self.len - 2)] + items),
                ),
                _ => self.popped().popped().failed_with_nil("JIT PrependList: expected list"@),
            }
        }
    }

    /// The frame with the list below the last put behind the list that is the
    /// last.
    pub open spec fn list_spliced(self) -> FrameState {
        if self.len < 2 {
            self.failed("JIT AppendSplice: stack underflow"@)
        } else {
            match (self.value_at(self.len - 1), self.value_at(self.len - 2)) {
                (Datum::List(splice), Datum::List(acc)) => self.popped().popped().pushed(
                    Datum::List(splice + acc),
                ),
                _ => self.popped().popped().failed_with_nil(
                    "JIT AppendSplice: expected two lists"@,
                ),
            }
        }
    }

    /// The frame after a function was created from what was kept for it.
    pub open spec fn function_made(self, kept: Option<MakeFuncData>) -> FrameState {
        match kept {
            None => self.failed_with_nil("JIT MakeFunc: no op data"@),
            Some(op) => if op.code_offset < self.chunk.sub_chunks@.len() {
                self.pushed(
                    Datum::Closure {
                        chunk: *self.chunk.sub_chunks@[op.code_offset as int],
                        params: name_texts(op.params@),
                        body_expr: Expr::Pinned(op.body_expr),
                        env: self.env,
                    },
                )
            } else {
                self.failed_with_nil("JIT MakeFunc: code_offset out of range"@)
            },
        }
    }

    /// The frame with the last two values replaced by a truth value.
    pub open spec fn compared(self, truth: bool) -> FrameState {
        self.resized((self.len - 2) as nat).pushed(Datum::Bool(truth))
    }

    /// Whether two slots hold equal values: equal numbers, nil and nil, or equal
    /// texts or truth values.
    pub open spec fn slots_equal(self, i: int, j: int) -> bool {
        if self.tags[i] == TAG_NUMBER && self.tags[j] == TAG_NUMBER {
            num_eq(self.words[i], self.words[j])
        } else if self.tags[i] == TAG_NIL && self.tags[j] == TAG_NIL {
            true
        } else if self.holds_object(i) && self.holds_object(j) {
            match (self.objects[i], self.objects[j]) {
                (Datum::Str(a), Datum::Str(b)) => a == b,
                (Datum::Bool(a), Datum::Bool(b)) => a == b,
                _ => false,
            }
        } else {
            false
        }
    }

    /// The frame with the last two values replaced by whether they are equal.
    pub open spec fn eq_tested(self) -> FrameState {
        if self.len < 2 {
            self.failed("JIT NumEq: stack underflow"@)
        } else {
            self.compared(self.slots_equal(self.len - 2, self.len - 1))
        }
    }

    /// The frame with the last two numbers replaced by whether the first is the
    /// smaller.
    pub open spec fn lt_tested(self) -> FrameState {
        if self.len < 2 {
            self.failed("JIT NumLt: stack underflow"@)
        } else {
            self.compared(num_lt(self.words[self.len - 2], self.words[self.len - 1]))
        }
    }

    /// The frame with the last two numbers replaced by whether the first is the
    /// larger.
    pub open spec fn gt_tested(self) -> FrameState {
        if self.len < 2 {
            self.failed("JIT NumGt: stack underflow"@)
        } else {
            self.compared(num_lt(self.words[self.len - 1], self.words[self.len - 2]))
        }
    }
}

impl JitFrame {
    fn fail(&mut self, message: &str)
        ensures
            final(self)@ == old(self)@.failed(message@),
    {
        self.error = Some(message.to_string());
    }

    /// Pops the last value; nil stands for it where the stack is empty.
    fn pop_or_nil(&mut self) -> (val: VmValue)
        requires
            old(self)@.wf(),
        ensures
            final(self)@ == old(self)@.popped(),
            final(self)@.wf(),
            val@ == if old(self)@.len > 0 {
                old(self)@.value_at(old(self)@.len - 1)
            } else {
                Datum::Nil
            },
    {
        match self.pop_val() {
            Ok(val) => val,
            Err(_) => VmValue::Nil,
        }
    }

    fn fail_with_nil(&mut self, message: &str)
        requires
            old(self)@.sized(),
        ensures
            final(self)@ == old(self)@.failed_with_nil(message@),
            final(self)@.sized(),
    {
        self.fail(message);
        self.push_val(VmValue::Nil);
    }
}

/// Asks for the value of a variable.
pub fn jit_helper_load_var(frame: &JitFrame, name: &str) -> (request: NameLookup)
    ensures
        asks_for(frame@, name@, request.env, request.name@),
        request.env == frame@.env,
        request.name@ == name@,
{
    NameLookup { env: frame.env, name: name.to_string() }
}

/// Pushes the value of a variable, or nil beside an error.
pub fn finish_load_var(frame: &mut JitFrame, reply: LookupReply)
    requires
        old(frame)@.sized(),
    ensures
        final(frame)@ == old(frame)@.loaded(reply),
        final(frame)@.sized(),
{
    match reply {
        LookupReply::Found(value) => frame.push_val(value),
        LookupReply::Unconvertible => frame.fail_with_nil("JIT LoadVar expr error"),
        LookupReply::Undefined => frame.fail_with_nil("JIT LoadVar undefined variable"),
    }
}

/// Pops the last value, to be bound to a variable in the current environment;
/// the helper is through where the stack is empty.
pub fn jit_helper_store_var(frame: &mut JitFrame, name: &str) -> (request: Option<Binding>)
    requires
        old(frame)@.wf(),
    ensures
        final(frame)@ == old(frame)@.popped(),
        final(frame)@.wf(),
        request is Some <==> old(frame)@.len > 0,
        request matches Some(binding) ==> asks_to_bind(
            old(frame)@,
            name@,
            binding.env,
            binding.name@,
            binding.value@,
        ),
        request matches Some(binding) ==> {
            &&& binding.env == old(frame)@.env
            &&& binding.name@ == name@
            &&& binding.value@ == old(frame)@.value_at(old(frame)@.len - 1)
        },
{
    match frame.pop_val() {
        Ok(value) => Some(Binding { env: frame.env, name: name.to_string(), value }),
        Err(_) => None,
    }
}

/// Notes where a value could not be bound.
pub fn finish_store_var(frame: &mut JitFrame, stored: bool)
    ensures
        final(frame)@ == old(frame)@.stored(stored),
{
    if !stored {
        frame.fail("JIT StoreVar vm_value_to_expr failed");
    }
}

/// Pops the last value, to be assigned to a variable that the current
/// environment sees; the helper is through where the stack is empty.
pub fn jit_helper_assign_var(frame: &mut JitFrame, name: &str) -> (request: Option<Assignment>)
    requires
        old(frame)@.wf(),
    ensures
        final(frame)@ == old(frame)@.popped(),
        final(frame)@.wf(),
        request is Some <==> old(frame)@.len > 0,
        request matches Some(assignment) ==> asks_to_bind(
            old(frame)@,
            name@,
            assignment.env,
            assignment.name@,
            assignment.value@,
        ),
        request matches Some(assignment) ==> {
            &&& assignment.env == old(frame)@.env
            &&& assignment.name@ == name@
            &&& assignment.value@ == old(frame)@.value_at(old(frame)@.len - 1)
        },
{
    match frame.pop_val() {
        Ok(value) => Some(Assignment { env: frame.env, name: name.to_string(), value }),
        Err(_) => None,
    }
}

/// Notes where a value could not be assigned.
pub fn finish_assign_var(frame: &mut JitFrame, reply: AssignReply)
    ensures
        final(frame)@ == old(frame)@.assigned(reply),
{
    match reply {
        AssignReply::Assigned => {},
        AssignReply::Rejected => frame.fail("JIT AssignVar failed"),
        AssignReply::Unconvertible => frame.fail("JIT AssignVar vm_value_to_expr failed"),
    }
}

/// Moves the whole operand stack over to the virtual machine, for a call of the
/// function below the last `n_args` values.
pub fn sync_and_call(frame: &mut JitFrame, n_args: usize, tail: bool) -> (request: CallRequest)
    requires
        old(frame)@.wf(),
    ensures
        data(request.stack@) == old(frame)@.machine_values(0),
        request.n_args == n_args,
        request.tail == tail,
        final(frame)@ == old(frame)@.emptied(0),
        final(frame)@.wf(),
{
    let stack = frame.take_machine_values(0);
    CallRequest { stack, n_args, tail }
}

/// Leaves only the result of the call on the stack: the value on top of the
/// machine's stack, or nil where that is empty or the call failed.
pub fn finish_call(frame: &mut JitFrame, reply: Result<Option<VmValue>, String>)
    requires
        old(frame)@.sized(),
    ensures
        final(frame)@ == old(frame)@.called(reply),
        final(frame)@.sized(),
{
    frame.stack_len = 0;
    match reply {
        Ok(Some(result)) => frame.push_val(result),
        Ok(None) => frame.push_val(VmValue::Nil),
        Err(message) => {
            frame.error = Some(message);
            frame.push_val(VmValue::Nil);
        },
    }
}

/// Asks for a call.
pub fn jit_helper_call(frame: &mut JitFrame, n_args: usize) -> (request: CallRequest)
    requires
        old(frame)@.wf(),
    ensures
        data(request.stack@) == old(frame)@.machine_values(0),
        request.n_args == n_args,
        !request.tail,
        final(frame)@ == old(frame)@.emptied(0),
        final(frame)@.wf(),
{
    sync_and_call(frame, n_args, false)
}

/// Asks for a call in tail position.
pub fn jit_helper_tail_call(frame: &mut JitFrame, n_args: usize) -> (request: CallRequest)
    requires
        old(frame)@.wf(),
    ensures
        data(request.stack@) == old(frame)@.machine_values(0),
        request.n_args == n_args,
        request.tail,
        final(frame)@ == old(frame)@.emptied(0),
        final(frame)@.wf(),
{
    sync_and_call(frame, n_args, true)
}

/// Asks for the value of an expression in the current environment.
pub fn jit_helper_tree_eval(frame: &JitFrame, expr: PinnedExpr) -> (request: Evaluation)
    ensures
        request == (Evaluation { env: frame@.env, expr }),
{
    Evaluation { env: frame.env, expr }
}

/// Pushes the value of an expression, or nil beside an error.
pub fn finish_tree_eval(frame: &mut JitFrame, reply: EvalReply)
    requires
        old(frame)@.sized(),
    ensures
        final(frame)@ == old(frame)@.evaluated(reply),
        final(frame)@.sized(),
{
    match reply {
        EvalReply::Value(value) => frame.push_val(value),
        EvalReply::Unconvertible => frame.fail_with_nil("JIT TreeEval: conversion failed"),
        EvalReply::Failed(message) => {
            frame.error = Some(message);
            frame.push_val(VmValue::Nil);
        },
    }
}

/// Asks for a new environment inside the current one, which is its parent.
pub fn jit_helper_push_env(frame: &JitFrame) -> (parent: GcHandle)
    ensures
        parent == frame@.env,
{
    frame.env
}

/// Enters a new environment.
pub fn finish_push_env(frame: &mut JitFrame, child: GcHandle)
    ensures
        final(frame)@ == old(frame)@.entered(child),
{
    frame.env = child;
}

/// Asks for the parent of the current environment.
pub fn jit_helper_pop_env(frame: &JitFrame) -> (child: GcHandle)
    ensures
        child == frame@.env,
{
    frame.env
}

/// Goes back to the parent environment, where there is one.
pub fn finish_pop_env(frame: &mut JitFrame, parent: Option<GcHandle>)
    ensures
        final(frame)@ == old(frame)@.left(parent),
{
    match parent {
        Some(env) => {
            frame.env = env;
        },
        None => frame.fail("JIT PopEnv: no parent environment"),
    }
}

/// Makes a closure of the running chunk, to be bound to its own name in the
/// current environment.
pub fn jit_helper_store_self(frame: &JitFrame, name: &str) -> (request: Binding)
    ensures
        request.env == frame@.env,
        request.name@ == name@,
        request.value@ == (Datum::Closure {
            chunk: frame@.chunk,
            params: Seq::empty(),
            body_expr: Expr::EmptyList,
            env: frame@.env,
        }),
{
    let params: Vec<String> = Vec::new();
    assert(name_texts(params@) =~= Seq::empty());
    Binding {
        env: frame.env,
        name: name.to_string(),
        value: VmValue::Closure {
            chunk: share(&frame.chunk),
            params: Rc::new(params),
            body_expr: Expr::EmptyList,
            env: frame.env,
        },
    }
}

/// Notes where the closure could not be bound.
pub fn finish_store_self(frame: &mut JitFrame, stored: bool)
    ensures
        final(frame)@ == old(frame)@.self_stored(stored),
{
    if !stored {
        frame.fail("JIT StoreSelf: conversion failed");
    }
}

/// Gathers the last `n` values in a list.
pub fn jit_helper_make_list(frame: &mut JitFrame, n: usize)
    requires
        old(frame)@.wf(),
    ensures
        final(frame)@ == old(frame)@.list_made(n as nat),
        final(frame)@.wf(),
{
    if frame.stack_len < n {
        frame.fail("JIT MakeList: stack underflow");
        return;
    }
    let start = frame.stack_len - n;
    let items = frame.take_machine_values(start);
    frame.stack_len = start;
    proof {
        law_list_contents(items);
    }
    frame.push_val(VmValue::List(items));
}

/// Puts the value below the last in front of the list that is the last.
pub fn jit_helper_prepend_list(frame: &mut JitFrame)
    requires
        old(frame)@.wf(),
    ensures
        final(frame)@ == old(frame)@.list_prepended(),
        final(frame)@.wf(),
{
    if frame.stack_len < 2 {
        frame.fail("JIT PrependList: stack underflow");
        return;
    }
    let list_val = frame.pop_or_nil();
    let item_val = frame.pop_or_nil();
    match list_val {
        VmValue::List(mut items) => {
            proof {
                law_list_contents(items);
            }
            let ghost before = items@;
            items.insert(0, item_val);
            proof {
                law_list_contents(items);
                assert(data(items@) =~= seq![item_val@] + data(before));
            }
            frame.push_val(VmValue::List(items));
        },
        _ => frame.fail_with_nil("JIT PrependList: expected list"),
    }
}

/// Puts the list below the last behind the list that is the last.
pub fn jit_helper_append_splice(frame: &mut JitFrame)
    requires
        old(frame)@.wf(),
    ensures
        final(frame)@ == old(frame)@.list_spliced(),
        final(frame)@.wf(),
{
    if frame.stack_len < 2 {
        frame.fail("JIT AppendSplice: stack underflow");
        return;
    }
    let splice_val = frame.pop_or_nil();
    let acc_val = frame.pop_or_nil();
    match (splice_val, acc_val) {
        (VmValue::List(mut splice), VmValue::List(mut acc)) => {
            proof {
                law_list_contents(splice);
                law_list_contents(acc);
            }
            let ghost front = splice@;
            let ghost back = acc@;
            splice.append(&mut acc);
            proof {
                law_list_contents(splice);
                assert(data(splice@) =~= data(front) + data(back));
            }
            frame.push_val(VmValue::List(splice));
        },
        _ => frame.fail_with_nil("JIT AppendSplice: expected two lists"),
    }
}

/// Picks up the pending constant load that a number leads to. Asks for the value
/// of the constant; where a nil load was pending pushes nil, and where nothing of
/// the kind was pending pushes nil beside an error.
pub fn jit_helper_make_const(
    frame: &mut JitFrame,
    pending: &mut PendingOps,
    number: usize,
) -> (request: Option<Value>)
    requires
        old(frame)@.sized(),
    ensures
        final(pending)@ == old(pending)@.without_constant(number),
        request == constant_requested(old(pending)@.constant(number)),
        final(frame)@ == old(frame)@.constant_taken(old(pending)@.constant(number)),
        final(frame)@.sized(),
{
    match pending.take_constant(number) {
        Some(Op::LoadConst(value)) => Some(value),
        Some(Op::LoadNil) => {
            frame.push_val(VmValue::Nil);
            None
        },
        _ => {
            frame.fail_with_nil("JIT MakeConst: unexpected op");
            None
        },
    }
}

/// Pushes the value of a constant, or nil beside an error.
pub fn finish_make_const(frame: &mut JitFrame, reply: Option<VmValue>)
    requires
        old(frame)@.sized(),
    ensures
        final(frame)@ == old(frame)@.constant_made(reply),
        final(frame)@.sized(),
{
    match reply {
        Some(value) => frame.push_val(value),
        None => frame.fail_with_nil("JIT MakeConst: conversion failed"),
    }
}

/// Reads what is kept for the function creation at an index, and pushes the
/// closure.
pub fn jit_helper_make_func_from_op(frame: &mut JitFrame, pending: &PendingOps, op_index: usize)
    requires
        old(frame)@.sized(),
    ensures
        final(frame)@ == old(frame)@.function_made(function_at(pending@.make_func, op_index)),
        final(frame)@.sized(),
{
    match pending.function(op_index) {
        Some(op) => {
            if op.code_offset < frame.chunk.sub_chunks.len() {
                let closure = VmValue::Closure {
                    chunk: share(&frame.chunk.sub_chunks[op.code_offset]),
                    params: share(&op.params),
                    body_expr: Expr::Pinned(op.body_expr),
                    env: frame.env,
                };
                frame.push_val(closure);
            } else {
                frame.fail_with_nil("JIT MakeFunc: code_offset out of range");
            }
        },
        None => frame.fail_with_nil("JIT MakeFunc: no op data"),
    }
}

/// Replaces the last two values by whether they are equal.
pub fn jit_helper_num_eq(frame: &mut JitFrame)
    requires
        old(frame)@.wf(),
    ensures
        final(frame)@ == old(frame)@.eq_tested(),
        final(frame)@.wf(),
{
    if frame.stack_len < 2 {
        frame.fail("JIT NumEq: stack underflow");
        return;
    }
    let idx = frame.stack_len - 2;
    let a_tag = frame.tags[idx];
    let b_tag = frame.tags[idx + 1];
    let equal = if a_tag == TAG_NUMBER && b_tag == TAG_NUMBER {
        double_eq(frame.stack[idx], frame.stack[idx + 1])
    } else if a_tag == TAG_NIL && b_tag == TAG_NIL {
        true
    } else if a_tag != TAG_NUMBER && a_tag != TAG_NIL && b_tag != TAG_NUMBER && b_tag != TAG_NIL {
        match (&frame.vals[idx], &frame.vals[idx + 1]) {
            (VmValue::Str(a), VmValue::Str(b)) => *a == *b,
            (VmValue::Bool(a), VmValue::Bool(b)) => *a == *b,
            _ => false,
        }
    } else {
        false
    };
    frame.stack_len = idx;
    frame.push_val(VmValue::Bool(equal));
}

/// Replaces the last two numbers by whether the first is the smaller.
pub fn jit_helper_num_lt(frame: &mut JitFrame)
    requires
        old(frame)@.wf(),
    ensures
        final(frame)@ == old(frame)@.lt_tested(),
        final(frame)@.wf(),
{
    if frame.stack_len < 2 {
        frame.fail("JIT NumLt: stack underflow");
        return;
    }
    let idx = frame.stack_len - 2;
    let a_bits = frame.stack[idx];
    let b_bits = frame.stack[idx + 1];
    frame.stack_len = idx;
    frame.push_val(VmValue::Bool(double_lt(a_bits, b_bits)));
}

/// Replaces the last two numbers by whether the first is the larger.
pub fn jit_helper_num_gt(frame: &mut JitFrame)
    requires
        old(frame)@.wf(),
    ensures
        final(frame)@ == old(frame)@.gt_tested(),
        final(frame)@.wf(),
{
    if frame.stack_len < 2 {
        frame.fail("JIT NumGt: stack underflow");
        return;
    }
    let idx = frame.stack_len - 2;
    let a_bits = frame.stack[idx];
    let b_bits = frame.stack[idx + 1];
    frame.stack_len = idx;
    frame.push_val(VmValue::Bool(double_lt(b_bits, a_bits)));
}

/// Gathering values in a list takes them off the operand stack, and puts the
/// list of them, in the order in which they were pushed, on top.
pub proof fn law_make_list_gathers(f: FrameState, n: nat)
    requires
        f.wf(),
        n <= f.len,
        n > 0 || f.len < f.capacity,
    ensures
        f.list_made(n).wf(),
        f.list_made(n).values() == f.values().take(f.len - n).push(
            Datum::List(f.machine_values(f.len - n)),
        ),
        f.list_made(n).error == f.error,
{
    let start = f.len - n;
    let g = f.emptied(start).resized(start as nat);
    assert(g.values() =~= f.values().take(start));
    law_push_appends(g, Datum::List(f.machine_values(start)));
}

/// Putting a value in front of a list leaves one value in place of the two.
pub proof fn law_prepend_list_joins(f: FrameState, items: Seq<Datum>)
    requires
        f.wf(),
        f.len >= 2,
        f.values().last() == Datum::List(items),
    ensures
        f.list_prepended().wf(),
        f.list_prepended().values() == f.values().take(f.len - 2).push(
            Datum::List(seq![f.values()[f.len - 2]] + items),
        ),
        f.list_prepended().error == f.error,
{
    law_pop_removes(f);
    law_pop_removes(f.popped());
    let g = f.popped().popped();
    assert(g.values() =~= f.values().take(f.len - 2));
    law_push_appends(g, Datum::List(seq![f.values()[f.len - 2]] + items));
}

/// Splicing two lists leaves one list in place of the two: the upper one,
/// followed by the lower one.
pub proof fn law_append_splice_joins(f: FrameState, splice: Seq<Datum>, acc: Seq<Datum>)
    requires
        f.wf(),
        f.len >= 2,
        f.values()[f.len - 1] == Datum::List(splice),
        f.values()[f.len - 2] == Datum::List(acc),
    ensures
        f.list_spliced().wf(),
        f.list_spliced().values() == f.values().take(f.len - 2).push(Datum::List(splice + acc)),
        f.list_spliced().error == f.error,
{
    law_pop_removes(f);
    law_pop_removes(f.popped());
    let g = f.popped().popped();
    assert(g.values() =~= f.values().take(f.len - 2));
    law_push_appends(g, Datum::List(splice + acc));
}

/// A call leaves only its result on the operand stack.
pub proof fn law_call_leaves_result(f: FrameState, reply: Result<Option<VmValue>, String>)
    requires
        f.wf(),
        f.capacity > 0,
    ensures
        f.called(reply).wf(),
        f.called(reply).values() == seq![
            match reply {
                Ok(Some(result)) => stored_form(result@),
                _ => Datum::Nil,
            },
        ],
        reply matches Err(message) ==> f.called(reply).error == Some(message@),
        reply is Ok ==> f.called(reply).error == f.error,
{
    let g = f.resized(0);
    assert(g.values() =~= Seq::<Datum>::empty());
    match reply {
        Ok(Some(result)) => {
            law_push_appends(g, result@);
            assert(f.called(reply).values() =~= seq![stored_form(result@)]);
        },
        Ok(None) => {
            law_push_appends(g, Datum::Nil);
            assert(f.called(reply).values() =~= seq![Datum::Nil]);
        },
        Err(message) => {
            let h = g.failed(message@);
            assert(h.values() =~= Seq::<Datum>::empty());
            law_push_appends(h, Datum::Nil);
            assert(f.called(reply).values() =~= seq![Datum::Nil]);
        },
    }
}

/// A comparison replaces two values by a truth value, stored as a number.
pub proof fn law_comparison_replaces(f: FrameState, truth: bool)
    requires
        f.wf(),
        f.len >= 2,
    ensures
        f.compared(truth).wf(),
        f.compared(truth).values() == f.values().take(f.len - 2).push(
            stored_form(Datum::Bool(truth)),
        ),
        f.compared(truth).error == f.error,
{
    let g = f.resized((f.len - 2) as nat);
    assert(g.values() =~= f.values().take(f.len - 2));
    law_push_appends(g, Datum::Bool(truth));
}

/// Whether a frame has an error message.
pub open spec fn has_failed(f: FrameState) -> bool {
    f.error is Some
}

/// No helper takes an error back: a frame that has failed stays failed, so the
/// outcome of the function is an error whatever runs afterwards.
pub proof fn law_errors_stay(
    f: FrameState,
    value: Datum,
    n: nat,
    kept: Option<MakeFuncData>,
    lookup: LookupReply,
    assign: AssignReply,
    call: Result<Option<VmValue>, String>,
    eval: EvalReply,
    stored: bool,
    taken: Option<Op>,
    made: Option<VmValue>,
    env: GcHandle,
    parent: Option<GcHandle>,
)
    requires
        has_failed(f),
    ensures
        has_failed(f.pushed(value)),
        has_failed(f.popped()),
        has_failed(f.loaded(lookup)),
        has_failed(f.assigned(assign)),
        has_failed(f.stored(stored)),
        has_failed(f.self_stored(stored)),
        has_failed(f.constant_taken(taken)),
        has_failed(f.constant_made(made)),
        has_failed(f.called(call)),
        has_failed(f.evaluated(eval)),
        has_failed(f.entered(env)),
        has_failed(f.left(parent)),
        has_failed(f.list_made(n)),
        has_failed(f.list_prepended()),
        has_failed(f.list_spliced()),
        has_failed(f.function_made(kept)),
        has_failed(f.eq_tested()),
        has_failed(f.lt_tested()),
        has_failed(f.gt_tested()),
        f.outcome() is Err,
{
}

/// Whether a frame has the shape of another: sound arrays of the same size, the
/// same chunk, and the same result words.
pub open spec fn same_shape(f: FrameState, g: FrameState) -> bool {
    &&& f.wf()
    &&& f.capacity == g.capacity
    &&& f.chunk == g.chunk
    &&& f.result_tag == g.result_tag
    &&& f.result_val == g.result_val
}

/// No helper changes the shape of a frame, so the native code may go on with
/// the arrays that it has: a sound frame stays sound, its arrays keep their
/// size, the chunk stays, and the result is left to the native code.
pub proof fn law_helpers_keep_shape(
    f: FrameState,
    value: Datum,
    message: Seq<char>,
    n: nat,
    kept: Option<MakeFuncData>,
    lookup: LookupReply,
    assign: AssignReply,
    call: Result<Option<VmValue>, String>,
    eval: EvalReply,
    stored: bool,
    taken: Option<Op>,
    made: Option<VmValue>,
    env: GcHandle,
    parent: Option<GcHandle>,
)
    requires
        f.wf(),
    ensures
        same_shape(f.pushed(value), f),
        same_shape(f.popped(), f),
        same_shape(f.failed(message), f),
        same_shape(f.loaded(lookup), f),
        same_shape(f.assigned(assign), f),
        same_shape(f.stored(stored), f),
        same_shape(f.self_stored(stored), f),
        same_shape(f.constant_taken(taken), f),
        same_shape(f.constant_made(made), f),
        same_shape(f.emptied(0), f),
        same_shape(f.called(call), f),
        same_shape(f.evaluated(eval), f),
        same_shape(f.entered(env), f),
        same_shape(f.left(parent), f),
        same_shape(f.list_made(n), f),
        same_shape(f.list_prepended(), f),
        same_shape(f.list_spliced(), f),
        same_shape(f.function_made(kept), f),
        same_shape(f.eq_tested(), f),
        same_shape(f.lt_tested(), f),
        same_shape(f.gt_tested(), f),
{
}

/// Leaving an environment undoes entering it: where the parent of the new
/// environment is the one that was current, the frame is what it was.
pub proof fn law_left_undoes_entered(f: FrameState, child: GcHandle)
    ensures
        f.entered(child).left(Some(f.env)) == f,
{
}

/// Testing for larger gives what testing for smaller gives with the operands
/// swapped.
pub proof fn law_gt_is_lt_swapped(f: FrameState, g: FrameState)
    requires
        f.wf(),
        g.wf(),
        f.len >= 2,
        g.len >= 2,
        g.words[g.len - 2] == f.words[f.len - 1],
        g.words[g.len - 1] == f.words[f.len - 2],
    ensures
        f.gt_tested().values().last() == g.lt_tested().values().last(),
{
    law_comparison_replaces(f, num_lt(f.words[f.len - 1], f.words[f.len - 2]));
    law_comparison_replaces(g, num_lt(g.words[g.len - 2], g.words[g.len - 1]));
}

/// Whether a frame is another with one value more on its stack, and no other
/// difference that an operation could see.
pub open spec fn gained(after: FrameState, f: FrameState, value: Datum) -> bool {
    &&& after.wf()
    &&& after.values() == f.values().push(value)
    &&& after.env == f.env
    &&& after.chunk == f.chunk
    &&& after.capacity == f.capacity
    &&& after.result_tag == f.result_tag
    &&& after.result_val == f.result_val
}

/// A lookup that finds a value puts that value on top, whatever it is, and
/// nothing else. One that does not puts nil on top, with the error that tells why.
pub proof fn law_lookup_pushes(f: FrameState, reply: LookupReply)
    requires
        f.wf(),
        f.len < f.capacity,
    ensures
        reply matches LookupReply::Found(value) ==> gained(f.loaded(reply), f, stored_form(value@))
            && f.loaded(reply).error == f.error,
        reply is Unconvertible ==> gained(f.loaded(reply), f, Datum::Nil) && f.loaded(reply).error
            == Some("JIT LoadVar expr error"@),
        reply is Undefined ==> gained(f.loaded(reply), f, Datum::Nil) && f.loaded(reply).error
            == Some("JIT LoadVar undefined variable"@),
{
    match reply {
        LookupReply::Found(value) => law_push_appends(f, value@),
        LookupReply::Unconvertible => lemma_failed_with_nil(f, "JIT LoadVar expr error"@),
        LookupReply::Undefined => lemma_failed_with_nil(f, "JIT LoadVar undefined variable"@),
    }
}

proof fn lemma_failed_with_nil(f: FrameState, message: Seq<char>)
    requires
        f.wf(),
        f.len < f.capacity,
    ensures
        gained(f.failed_with_nil(message), f, Datum::Nil),
        f.failed_with_nil(message).error == Some(message),
{
    law_push_appends(f.failed(message), Datum::Nil);
    assert(f.failed(message).values() =~= f.values());
}

/// An evaluation puts the value on top, whatever it is, and nothing else. One
/// that fails puts nil on top, with the evaluator's own message.
pub proof fn law_evaluation_pushes(f: FrameState, reply: EvalReply)
    requires
        f.wf(),
        f.len < f.capacity,
    ensures
        reply matches EvalReply::Value(value) ==> gained(f.evaluated(reply), f, stored_form(value@))
            && f.evaluated(reply).error == f.error,
        reply is Unconvertible ==> gained(f.evaluated(reply), f, Datum::Nil) && f.evaluated(
            reply,
        ).error == Some("JIT TreeEval: conversion failed"@),
        reply matches EvalReply::Failed(message) ==> gained(f.evaluated(reply), f, Datum::Nil)
            && f.evaluated(reply).error == Some(message@),
{
    match reply {
        EvalReply::Value(value) => law_push_appends(f, value@),
        EvalReply::Unconvertible => lemma_failed_with_nil(f, "JIT TreeEval: conversion failed"@),
        EvalReply::Failed(message) => lemma_failed_with_nil(f, message@),
    }
}

/// A constant that has a value puts that value on top, whatever it is, and
/// nothing else. Where the load itself was pending nothing happens before; where
/// nothing was, nil comes on top, with an error.
pub proof fn law_constant_pushes(f: FrameState, pending: Option<Op>, reply: Option<VmValue>)
    requires
        f.wf(),
        f.len < f.capacity,
    ensures
        pending matches Some(Op::LoadConst(_)) ==> f.constant_taken(pending) == f,
        pending == Some(Op::LoadNil) ==> gained(f.constant_taken(pending), f, Datum::Nil)
            && f.constant_taken(pending).error == f.error,
        !(pending matches Some(Op::LoadConst(_))) && pending != Some(Op::LoadNil) ==> gained(
            f.constant_taken(pending),
            f,
            Datum::Nil,
        ) && f.constant_taken(pending).error == Some("JIT MakeConst: unexpected op"@),
        reply matches Some(value) ==> gained(f.constant_made(reply), f, stored_form(value@))
            && f.constant_made(reply).error == f.error,
        reply is None ==> gained(f.constant_made(reply), f, Datum::Nil) && f.constant_made(
            reply,
        ).error == Some("JIT MakeConst: conversion failed"@),
        pending matches Some(Op::LoadConst(value)) ==> constant_requested(pending) == Some(value),
        !(pending matches Some(Op::LoadConst(_))) ==> constant_requested(pending) is None,
{
    law_push_appends(f, Datum::Nil);
    lemma_failed_with_nil(f, "JIT MakeConst: unexpected op"@);
    lemma_failed_with_nil(f, "JIT MakeConst: conversion failed"@);
    if let Some(value) = reply {
        law_push_appends(f, value@);
    }
}

/// A binding or an assignment that went well changes nothing; one that did not
/// changes nothing but the error. So with an environment that has no parent.
pub proof fn law_replies_note_errors(f: FrameState, env: GcHandle)
    ensures
        f.stored(true) == f,
        f.stored(false) == (FrameState {
            error: Some("JIT StoreVar vm_value_to_expr failed"@),
            ..f
        }),
        f.self_stored(true) == f,
        f.self_stored(false) == (FrameState {
            error: Some("JIT StoreSelf: conversion failed"@),
            ..f
        }),
        f.assigned(AssignReply::Assigned) == f,
        f.assigned(AssignReply::Rejected) == (FrameState {
            error: Some("JIT AssignVar failed"@),
            ..f
        }),
        f.assigned(AssignReply::Unconvertible) == (FrameState {
            error: Some("JIT AssignVar vm_value_to_expr failed"@),
            ..f
        }),
        f.entered(env) == (FrameState { env, ..f }),
        f.left(Some(env)) == (FrameState { env, ..f }),
        f.left(None) == (FrameState { error: Some("JIT PopEnv: no parent environment"@), ..f }),
{
}

spec fn closure_of(f: FrameState, op: MakeFuncData) -> Datum {
    Datum::Closure {
        chunk: *f.chunk.sub_chunks@[op.code_offset as int],
        params: name_texts(op.params@),
        body_expr: Expr::Pinned(op.body_expr),
        env: f.env,
    }
}

/// A function creation puts one closure on top: of the inner chunk that the
/// operation names, with its parameters and its body, in the environment of the
/// frame. Without data, or with a chunk that does not exist, nil comes on top,
/// with an error.
pub proof fn law_function_pushes(f: FrameState, kept: Option<MakeFuncData>)
    requires
        f.wf(),
        f.len < f.capacity,
    ensures
        kept matches Some(op) && op.code_offset < f.chunk.sub_chunks@.len() ==> gained(
            f.function_made(kept),
            f,
            Datum::Closure {
                chunk: *f.chunk.sub_chunks@[kept->0.code_offset as int],
                params: name_texts(kept->0.params@),
                body_expr: Expr::Pinned(kept->0.body_expr),
                env: f.env,
            },
        ) && f.function_made(kept).error == f.error,
        kept matches Some(op) && op.code_offset >= f.chunk.sub_chunks@.len() ==> gained(
            f.function_made(kept),
            f,
            Datum::Nil,
        ) && f.function_made(kept).error == Some("JIT MakeFunc: code_offset out of range"@),
        kept is None ==> gained(f.function_made(kept), f, Datum::Nil) && f.function_made(kept).error
            == Some("JIT MakeFunc: no op data"@),
{
    lemma_failed_with_nil(f, "JIT MakeFunc: code_offset out of range"@);
    lemma_failed_with_nil(f, "JIT MakeFunc: no op data"@);
    if let Some(op) = kept {
        if op.code_offset < f.chunk.sub_chunks@.len() {
            law_push_appends(f, closure_of(f, op));
        }
    }
}

/// Every helper but the two on environments keeps the environment.
pub proof fn law_helpers_keep_env(
    f: FrameState,
    value: Datum,
    n: nat,
    kept: Option<MakeFuncData>,
    lookup: LookupReply,
    assign: AssignReply,
    call: Result<Option<VmValue>, String>,
    eval: EvalReply,
    stored: bool,
    taken: Option<Op>,
    made: Option<VmValue>,
)
    ensures
        f.pushed(value).env == f.env,
        f.popped().env == f.env,
        f.loaded(lookup).env == f.env,
        f.assigned(assign).env == f.env,
        f.stored(stored).env == f.env,
        f.self_stored(stored).env == f.env,
        f.constant_taken(taken).env == f.env,
        f.constant_made(made).env == f.env,
        f.emptied(0).env == f.env,
        f.called(call).env == f.env,
        f.evaluated(eval).env == f.env,
        f.list_made(n).env == f.env,
        f.list_prepended().env == f.env,
        f.list_spliced().env == f.env,
        f.function_made(kept).env == f.env,
        f.eq_tested().env == f.env,
        f.lt_tested().env == f.env,
        f.gt_tested().env == f.env,
{
}

/// Where the operands of a list helper are missing or are no lists, an error
/// tells it: missing operands stay, others are replaced by nil.
pub proof fn law_list_helpers_refuse(f: FrameState, n: nat)
    requires
        f.wf(),
    ensures
        f.len < n ==> f.list_made(n) == (FrameState {
            error: Some("JIT MakeList: stack underflow"@),
            ..f
        }),
        f.len < 2 ==> f.list_prepended() == (FrameState {
            error: Some("JIT PrependList: stack underflow"@),
            ..f
        }),
        f.len < 2 ==> f.list_spliced() == (FrameState {
            error: Some("JIT AppendSplice: stack underflow"@),
            ..f
        }),
        f.len >= 2 && !(f.values()[f.len - 1] is List) ==> {
            &&& f.list_prepended().values() == f.values().take(f.len - 2).push(Datum::Nil)
            &&& f.list_prepended().error == Some("JIT PrependList: expected list"@)
        },
        f.len >= 2 && !(f.values()[f.len - 1] is List && f.values()[f.len - 2] is List) ==> {
            &&& f.list_spliced().values() == f.values().take(f.len - 2).push(Datum::Nil)
            &&& f.list_spliced().error == Some("JIT AppendSplice: expected two lists"@)
        },
{
    if f.len >= 2 {
        law_pop_removes(f);
        law_pop_removes(f.popped());
        let g = f.popped().popped();
        assert(g.values() =~= f.values().take(f.len - 2));
        lemma_failed_with_nil(g, "JIT PrependList: expected list"@);
        lemma_failed_with_nil(g, "JIT AppendSplice: expected two lists"@);
    }
}

/// The test for equality, on the values themselves: two texts are equal where
/// they are the same characters, two doubles where they are the same number, and
/// nil equals nil. Values of two kinds are not equal, and neither are lists,
/// closures or foreign values.
pub proof fn law_equality_by_values(f: FrameState)
    requires
        f.wf(),
        f.len >= 2,
        f.tags[f.len - 2] <= 2,
        f.tags[f.len - 1] <= 2,
        f.tags[f.len - 2] == 2 ==> stored_tag(f.objects[f.len - 2]) == 2,
        f.tags[f.len - 1] == 2 ==> stored_tag(f.objects[f.len - 1]) == 2,
    ensures
        f.eq_tested().values() == f.values().take(f.len - 2).push(
            stored_form(
                Datum::Bool(
                    match (f.values()[f.len - 2], f.values()[f.len - 1]) {
                        (Datum::Float(a), Datum::Float(b)) => num_eq(a, b),
                        (Datum::Nil, Datum::Nil) => true,
                        (Datum::Str(a), Datum::Str(b)) => a =~= b,
                        _ => false,
                    },
                ),
            ),
        ),
        f.eq_tested().error == f.error,
{
    let i = f.len - 2;
    let j = f.len - 1;
    law_comparison_replaces(f, f.slots_equal(i, j));
}

/// Two texts are equal where they are the same sequence of characters.
pub proof fn law_texts_compared(f: FrameState, a: Seq<char>, b: Seq<char>)
    requires
        f.wf(),
        f.len >= 2,
        f.values()[f.len - 2] == Datum::Str(a),
        f.values()[f.len - 1] == Datum::Str(b),
    ensures
        f.eq_tested().values().last() == stored_form(Datum::Bool(a == b)),
{
    law_comparison_replaces(f, f.slots_equal(f.len - 2, f.len - 1));
}

/// What was pushed last two times is compared as it was pushed: values that are
/// no numbers are equal where both are nil or both are the same text; two
/// integers of at most 53 bits are equal where they are the same integer, and
/// smaller or larger where they are.
pub proof fn law_pushed_compared(f: FrameState, x: Datum, y: Datum)
    requires
        f.wf(),
        f.len + 2 <= f.capacity,
    ensures
        ({
            let g = f.pushed(x).pushed(y);
            let yes = stored_form(Datum::Bool(true));
            let no = stored_form(Datum::Bool(false));
            &&& yes != no
            &&& g.eq_tested().len == f.len + 1
            &&& x is Str && y is Str ==> g.eq_tested().values().last() == if x->Str_0
                == y->Str_0 {
                yes
            } else {
                no
            }
            &&& x is Nil && y is Nil ==> g.eq_tested().values().last() == yes
            &&& stored_tag(x) != stored_tag(y) ==> g.eq_tested().values().last() == no
            &&& x is List || x is Closure || x is Foreign ==> g.eq_tested().values().last() == no
            &&& (x is Int && y is Int && (-0x20_0000_0000_0000 <= x->Int_0
                <= 0x20_0000_0000_0000) && (-0x20_0000_0000_0000 <= y->Int_0
                <= 0x20_0000_0000_0000)) ==> {
                &&& g.eq_tested().values().last() == if x->Int_0 == y->Int_0 {
                    yes
                } else {
                    no
                }
                &&& g.lt_tested().values().last() == if x->Int_0 < y->Int_0 {
                    yes
                } else {
                    no
                }
                &&& g.gt_tested().values().last() == if x->Int_0 > y->Int_0 {
                    yes
                } else {
                    no
                }
            }
        }),
{
    let g = f.pushed(x).pushed(y);
    let i = f.len as int;
    law_comparison_replaces(g, g.slots_equal(i, i + 1));
    law_comparison_replaces(g, num_lt(g.words[i], g.words[i + 1]));
    law_comparison_replaces(g, num_lt(g.words[i + 1], g.words[i]));
    match (x, y) {
        (Datum::Int(m), Datum::Int(n)) => {
            if -0x20_0000_0000_0000 <= m <= 0x20_0000_0000_0000 && -0x20_0000_0000_0000 <= n
                <= 0x20_0000_0000_0000 {
                law_small_ints_compared(m as int, n as int);
                law_small_ints_compared(n as int, m as int);
            }
        },
        _ => {},
    }
}

/// The tests for smaller and larger compare the words of the last two slots as
/// doubles, and nothing else.
pub proof fn law_order_by_words(f: FrameState)
    requires
        f.wf(),
        f.len >= 2,
    ensures
        f.lt_tested().values() == f.values().take(f.len - 2).push(
            stored_form(Datum::Bool(num_lt(f.words[f.len - 2], f.words[f.len - 1]))),
        ),
        f.gt_tested().values() == f.values().take(f.len - 2).push(
            stored_form(Datum::Bool(num_lt(f.words[f.len - 1], f.words[f.len - 2]))),
        ),
        f.lt_tested().error == f.error,
        f.gt_tested().error == f.error,
{
    law_comparison_replaces(f, num_lt(f.words[f.len - 2], f.words[f.len - 1]));
    law_comparison_replaces(f, num_lt(f.words[f.len - 1], f.words[f.len - 2]));
}

/// A comparison without two operands changes nothing but the error.
pub proof fn law_comparisons_refuse(f: FrameState)
    requires
        f.len < 2,
    ensures
        f.eq_tested() == (FrameState { error: Some("JIT NumEq: stack underflow"@), ..f }),
        f.lt_tested() == (FrameState { error: Some("JIT NumLt: stack underflow"@), ..f }),
        f.gt_tested() == (FrameState { error: Some("JIT NumGt: stack underflow"@), ..f }),
{
}

/// The arguments of a call and the result come through: the virtual machine gets
/// what was pushed last as the last value, whatever it is, and a result, whatever
/// it is, is what a pop gives back.
pub proof fn law_call_passes_values(f: FrameState, value: Datum, result: VmValue)
    requires
        f.wf(),
        f.len < f.capacity,
        !(value is Int) && !(value is Float) && !(value is Bool),
    ensures
        f.pushed(value).machine_values(0) == f.machine_values(0).push(value),
        f.called(Ok::<Option<VmValue>, String>(Some(result))).len == 1,
        f.called(Ok::<Option<VmValue>, String>(Some(result))).value_at(0) == stored_form(result@),
{
    law_stack_handed_over(f, value, 0);
    law_push_handed_over(f, value);
    law_call_leaves_result(f, Ok(Some(result)));
}

/// A list that is gathered holds what was pushed last as its last item, whatever
/// it is, and before it what it would hold without.
pub proof fn law_make_list_keeps_items(f: FrameState, value: Datum, n: nat)
    requires
        f.wf(),
        f.len < f.capacity,
        n <= f.len,
        !(value is Int) && !(value is Float) && !(value is Bool),
    ensures
        f.pushed(value).list_made(n + 1).values() == f.values().take(f.len - n).push(
            Datum::List(f.machine_values(f.len - n).push(value)),
        ),
        f.pushed(value).list_made(n + 1).error == f.error,
{
    let g = f.pushed(value);
    law_push_appends(f, value);
    law_make_list_gathers(g, n + 1);
    law_stack_handed_over(f, value, f.len - n);
    law_push_handed_over(f, value);
    assert(g.values().take(f.len - n) =~= f.values().take(f.len - n));
}

/// What was pushed last is what is bound, in the form that it is stored in,
/// under the name of the operation and from the environment of the frame; and
/// where it is looked up by that name, it is asked for by that name there.
pub proof fn law_bound_as_pushed(
    f: FrameState,
    pushed: Datum,
    name: Seq<char>,
    env: GcHandle,
    bound: Seq<char>,
    value: Datum,
)
    requires
        f.wf(),
        f.len < f.capacity,
    ensures
        asks_to_bind(f.pushed(pushed), name, env, bound, value) ==> env == f.env && bound == name
            && value == stored_form(pushed) && asks_for(f, name, env, bound),
        asks_for(f, name, env, bound) ==> env == f.env && bound == name,
{
    law_push_appends(f, pushed);
    law_pop_removes(f.pushed(pushed));
}

/// A constant load is picked up once, and picking one up leaves the others.
pub proof fn law_constant_picked_once(pending: PendingState, number: usize, other: usize)
    ensures
        pending.without_constant(number).constant(number) is None,
        other != number ==> pending.without_constant(number).constant(other) == pending.constant(
            other,
        ),
        pending.without_constant(number).make_func == pending.make_func,
{
}

/// What is kept last for an operation is what is found for it, and what is found
/// for the others is what it was.
pub proof fn law_function_found(
    entries: Seq<MakeFuncData>,
    entry: MakeFuncData,
    op_index: usize,
)
    ensures
        function_at(Seq::<MakeFuncData>::empty(), op_index) is None,
        function_at(entries.push(entry), op_index) == if entry.op_index == op_index {
            Some(entry)
        } else {
            function_at(entries, op_index)
        },
{
    assert(entries.push(entry).drop_last() =~= entries);
}

} // verus!
