//! Bytecode chunks and the values of the virtual machine, as far as the
//! compiler and its runtime helpers read them.

use std::rc::Rc;
use vstd::prelude::*;

verus! {

/// A handle to an environment in the interpreter's heap.
#[derive(Clone, Copy, Debug, PartialEq, Eq, Structural)]
pub struct GcHandle {
    pub index: usize,
}

/// An expression that the interpreter has pinned at an address. The compiled
/// code carries expressions around without looking inside them.
#[derive(Clone, Copy, Debug, PartialEq, Eq, Structural)]
pub struct PinnedExpr {
    pub address: u64,
}

/// The body of a closure, as an expression.
#[derive(Clone, Copy, Debug, PartialEq, Eq, Structural)]
pub enum Expr {
    /// The empty list.
    EmptyList,
    /// A pinned expression.
    Pinned(PinnedExpr),
}

/// A constant of a chunk. A `Float` is held as the bit pattern of the double.
#[derive(Clone, Copy, Debug, PartialEq, Eq, Structural)]
pub enum Value {
    Int(i64),
    Float(u64),
    Bool(bool),
    Nil,
    /// Any other constant, as the expression that it stands for.
    Object(PinnedExpr),
}

/// A bytecode operation.
#[derive(Debug, PartialEq, Eq)]
pub enum Op {
    LoadConst(Value),
    LoadNil,
    Pop,
    Jump(usize),
    JumpIfFalse(usize),
    Return,
    LoadVar(String),
    StoreVar(String),
    AssignVar(String),
    Call(usize),
    TailCall(usize),
    MakeFunc { params: Rc<Vec<String>>, body_expr: PinnedExpr, code_offset: usize },
    MakeList(usize),
    PrependList,
    AppendSplice,
    TreeEval(PinnedExpr),
    PushEnv,
    PopEnv,
    StoreSelf(String),
    NumAdd,
    NumSub,
    NumMul,
    NumDiv,
    NumEq,
    NumLt,
    NumGt,
}

/// A compiled function body: its operations, and the bodies of the functions
/// that it creates.
#[derive(Debug, PartialEq, Eq)]
pub struct Chunk {
    pub ops: Vec<Op>,
    pub sub_chunks: Vec<Rc<Chunk>>,
}

/// A value of the virtual machine. A `Float` is held as the bit pattern of the
/// double.
#[derive(Debug, PartialEq, Eq)]
pub enum VmValue {
    Int(i64),
    Float(u64),
    Bool(bool),
    Nil,
    Str(String),
    List(Vec<VmValue>),
    Closure { chunk: Rc<Chunk>, params: Rc<Vec<String>>, body_expr: Expr, env: GcHandle },
    /// Any other value of the interpreter, by its handle there.
    Foreign(u64),
}

/// The contents of a value of the virtual machine.
pub enum Datum {
    Int(i64),
    Float(u64),
    Bool(bool),
    Nil,
    Str(Seq<char>),
    List(Seq<Datum>),
    Closure { chunk: Chunk, params: Seq<Seq<char>>, body_expr: Expr, env: GcHandle },
    Foreign(u64),
}

/// The contents of parameter names.
pub open spec fn name_texts(names: Seq<String>) -> Seq<Seq<char>> {
    Seq::new(names.len(), |i: int| names[i]@)
}

/// The contents of a value.
pub open spec fn contents(value: VmValue) -> Datum
    decreases value,
{
    match value {
        VmValue::Int(n) => Datum::Int(n),
        VmValue::Float(bits) => Datum::Float(bits),
        VmValue::Bool(b) => Datum::Bool(b),
        VmValue::Nil => Datum::Nil,
        VmValue::Str(text) => Datum::Str(text@),
        VmValue::List(items) => Datum::List(
            Seq::new(
                items@.len(),
                |i: int|
                    if 0 <= i < items@.len() {
                        contents(items@[i])
                    } else {
                        Datum::Nil
                    },
            ),
        ),
        VmValue::Closure { chunk, params, body_expr, env } => Datum::Closure {
            chunk: *chunk,
            params: name_texts(params@),
            body_expr,
            env,
        },
        VmValue::Foreign(handle) => Datum::Foreign(handle),
    }
}

impl View for VmValue {
    type V = Datum;

    open spec fn view(&self) -> Datum {
        contents(*self)
    }
}

/// The contents of a sequence of values.
pub open spec fn data(values: Seq<VmValue>) -> Seq<Datum> {
    Seq::new(values.len(), |i: int| values[i]@)
}

/// The contents of a list are the contents of its items.
pub proof fn law_list_contents(items: Vec<VmValue>)
    ensures
        VmValue::List(items)@ == Datum::List(data(items@)),
{
    assert(contents(VmValue::List(items))->List_0 =~= data(items@));
}

/// Makes another pointer to the same contents.
pub(crate) fn share<T>(pointer: &Rc<T>) -> (other: Rc<T>)
    ensures
        other == *pointer,
{
    Rc::clone(pointer)
}

/// The address of the bytes of a text. Only [`text_address`] makes one.
pub struct TextAddress {
    address: u64,
    text: Ghost<Seq<char>>,
}

impl TextAddress {
    /// The text that lies at the address.
    pub closed spec fn text(self) -> Seq<char> {
        self.text@
    }

    /// The address as a number.
    pub closed spec fn spec_number(&self) -> u64 {
        self.address
    }

    /// The address as a number.
    #[verifier::when_used_as_spec(spec_number)]
    pub fn number(&self) -> (number: u64)
        ensures
            number == self.spec_number(),
    {
        self.address
    }
}

/// The address of the bytes of a text, by `str::as_ptr`: the address is that of
/// the text that was passed. Which number it is differs from run to run, and
/// nothing is claimed of it.
#[verifier::external_body]
pub(crate) fn text_address(text: &str) -> (address: TextAddress)
    ensures
        address.text() == text@,
{
    TextAddress { address: text.as_ptr() as u64, text: Ghost(text@) }
}

/// The name that an operation carries: those on variables do, and the one that
/// binds a function to its own name.
pub open spec fn spec_carried_name(op: &Op) -> Option<&String> {
    match op {
        Op::LoadVar(name) => Some(name),
        Op::StoreVar(name) => Some(name),
        Op::AssignVar(name) => Some(name),
        Op::StoreSelf(name) => Some(name),
        _ => None,
    }
}

/// The name that an operation carries, if it carries one.
#[verifier::when_used_as_spec(spec_carried_name)]
pub fn carried_name(op: &Op) -> (name: Option<&String>)
    ensures
        name == spec_carried_name(op),
{
    match op {
        Op::LoadVar(name) => Some(name),
        Op::StoreVar(name) => Some(name),
        Op::AssignVar(name) => Some(name),
        Op::StoreSelf(name) => Some(name),
        _ => None,
    }
}

impl Clone for Op {
    fn clone(&self) -> (other: Op)
        ensures
            other == *self,
    {
        match self {
            Op::LoadConst(value) => Op::LoadConst(*value),
            Op::LoadNil => Op::LoadNil,
            Op::Pop => Op::Pop,
            Op::Jump(target) => Op::Jump(*target),
            Op::JumpIfFalse(target) => Op::JumpIfFalse(*target),
            Op::Return => Op::Return,
            Op::LoadVar(name) => Op::LoadVar(name.clone()),
            Op::StoreVar(name) => Op::StoreVar(name.clone()),
            Op::AssignVar(name) => Op::AssignVar(name.clone()),
            Op::Call(n_args) => Op::Call(*n_args),
            Op::TailCall(n_args) => Op::TailCall(*n_args),
            Op::MakeFunc { params, body_expr, code_offset } => Op::MakeFunc {
                params: share(params),
                body_expr: *body_expr,
                code_offset: *code_offset,
            },
            Op::MakeList(n) => Op::MakeList(*n),
            Op::PrependList => Op::PrependList,
            Op::AppendSplice => Op::AppendSplice,
            Op::TreeEval(expr) => Op::TreeEval(*expr),
            Op::PushEnv => Op::PushEnv,
            Op::PopEnv => Op::PopEnv,
            Op::StoreSelf(name) => Op::StoreSelf(name.clone()),
            Op::NumAdd => Op::NumAdd,
            Op::NumSub => Op::NumSub,
            Op::NumMul => Op::NumMul,
            Op::NumDiv => Op::NumDiv,
            Op::NumEq => Op::NumEq,
            Op::NumLt => Op::NumLt,
            Op::NumGt => Op::NumGt,
        }
    }
}

/// The contents of a value that is no list are the value itself, with its text,
/// and a sequence of values has the contents of each.
pub proof fn law_value_contents(value: VmValue, values: Seq<VmValue>)
    ensures
        value matches VmValue::Int(n) ==> value@ == Datum::Int(n),
        value matches VmValue::Float(bits) ==> value@ == Datum::Float(bits),
        value matches VmValue::Bool(b) ==> value@ == Datum::Bool(b),
        value is Nil ==> value@ == Datum::Nil,
        value matches VmValue::Str(text) ==> value@ == Datum::Str(text@),
        value matches VmValue::Foreign(handle) ==> value@ == Datum::Foreign(handle),
        value matches VmValue::Closure { chunk, params, body_expr, env } ==> value@
            == (Datum::Closure { chunk: *chunk, params: name_texts(params@), body_expr, env }),
        data(values).len() == values.len(),
        forall|i: int| 0 <= i < values.len() ==> #[trigger] data(values)[i] == values[i]@,
{
}

/// Parameter names have their texts, in order.
pub proof fn law_name_texts(names: Seq<String>)
    ensures
        name_texts(names).len() == names.len(),
        forall|i: int| 0 <= i < names.len() ==> #[trigger] name_texts(names)[i] == names[i]@,
{
}

/// The operations on variables carry their name, whatever it is, and so does the
/// one that binds a function to its own; no other carries one.
pub proof fn law_names_carried(name: String, op: Op)
    ensures
        carried_name(&Op::LoadVar(name)) == Some(&name),
        carried_name(&Op::StoreVar(name)) == Some(&name),
        carried_name(&Op::AssignVar(name)) == Some(&name),
        carried_name(&Op::StoreSelf(name)) == Some(&name),
        !(op is LoadVar || op is StoreVar || op is AssignVar || op is StoreSelf) ==> carried_name(
            &op,
        ) is None,
{
}

} // verus!
