//! The frame that a compiled function runs in: its operand stack, its
//! environment and its outcome.

use std::rc::Rc;
use vstd::prelude::*;

use crate::bytecode::{data, share, Chunk, Datum, GcHandle, VmValue};
use crate::double::{
    bool_bits, double_of_bool, double_of_int, double_whole, is_finite, law_bool_is_int,
    law_small_int_exact, law_whole_is_number, nearest, scaled, unit, whole,
};

verus! {

/// The number of slots of a fresh operand stack.
pub const STACK_SIZE: usize = 1024;

/// The tag of a slot that holds a number.
pub const TAG_NUMBER: u64 = 0;

/// The tag of a slot that holds nil.
pub const TAG_NIL: u64 = 1;

/// The tag of a slot that holds any other value.
pub const TAG_OBJECT: u64 = 2;

/// The frame of a compiled function. The native code works on `stack`, `tags`,
/// `stack_len` and the two result words; the runtime helpers on all of it.
///
/// A slot is spread over three parallel arrays. Its tag tells what it holds: a
/// number, as the bit pattern of a double in `stack`; nil; or any other value,
/// in `vals`.
#[derive(Debug, PartialEq, Eq)]
pub struct JitFrame {
    /// The payload words of the slots.
    pub stack: Vec<u64>,
    /// The number of slots in use.
    pub stack_len: usize,
    /// The environment that names are looked up in.
    pub env: GcHandle,
    /// The tag of the result.
    pub result_tag: u64,
    /// The payload word of the result.
    pub result_val: u64,
    /// What went wrong, if anything did.
    pub error: Option<String>,
    /// The tags of the slots.
    pub tags: Vec<u64>,
    /// The values of the slots that hold neither a number nor nil.
    pub vals: Vec<VmValue>,
    /// The number of slots.
    pub capacity: usize,
    /// The chunk that is running.
    pub chunk: Rc<Chunk>,
}

/// The contents of a frame.
#[verifier::ext_equal]
pub struct FrameState {
    pub words: Seq<u64>,
    pub tags: Seq<u64>,
    pub objects: Seq<Datum>,
    pub len: nat,
    pub capacity: nat,
    pub env: GcHandle,
    pub result_tag: u64,
    pub result_val: u64,
    pub error: Option<Seq<char>>,
    pub chunk: Chunk,
}

/// The contents of an optional text.
pub open spec fn optional_text(text: Option<String>) -> Option<Seq<char>> {
    match text {
        Some(t) => Some(t@),
        None => None,
    }
}

impl View for JitFrame {
    type V = FrameState;

    open spec fn view(&self) -> FrameState {
        FrameState {
            words: self.stack@,
            tags: self.tags@,
            objects: data(self.vals@),
            len: self.stack_len as nat,
            capacity: self.capacity as nat,
            env: self.env,
            result_tag: self.result_tag,
            result_val: self.result_val,
            error: optional_text(self.error),
            chunk: *self.chunk,
        }
    }
}

/// The tag that a value is stored under.
pub open spec fn stored_tag(value: Datum) -> u64 {
    match value {
        Datum::Int(_) => TAG_NUMBER,
        Datum::Float(_) => TAG_NUMBER,
        Datum::Bool(_) => TAG_NUMBER,
        Datum::Nil => TAG_NIL,
        _ => TAG_OBJECT,
    }
}

/// The payload word that a value is stored with: every number, and every truth
/// value, as a double.
pub open spec fn stored_word(value: Datum) -> u64 {
    match value {
        Datum::Int(n) => nearest(n as int),
        Datum::Float(bits) => bits,
        Datum::Bool(b) => bool_bits(b),
        _ => 0,
    }
}

/// The value that comes back from a slot that a value was stored in.
pub open spec fn stored_form(value: Datum) -> Datum {
    if stored_tag(value) == TAG_NUMBER {
        Datum::Float(stored_word(value))
    } else {
        value
    }
}

impl FrameState {
    /// Whether the three arrays have the size that the capacity says.
    pub open spec fn sized(self) -> bool {
        &&& self.words.len() == self.capacity
        &&& self.tags.len() == self.capacity
        &&& self.objects.len() == self.capacity
    }

    /// Whether the frame is sound: the arrays have the right size, and the
    /// slots in use lie inside them.
    pub open spec fn wf(self) -> bool {
        self.sized() && self.len <= self.capacity
    }

    /// The frame with an error message.
    pub open spec fn failed(self, message: Seq<char>) -> FrameState {
        FrameState { error: Some(message), ..self }
    }

    /// The frame after a value was pushed.
    pub open spec fn pushed(self, value: Datum) -> FrameState {
        if self.len >= self.capacity {
            self.failed("JIT Stack overflow"@)
        } else {
            FrameState {
                words: self.words.update(self.len as int, stored_word(value)),
                tags: self.tags.update(self.len as int, stored_tag(value)),
                objects: if stored_tag(value) == TAG_OBJECT {
                    self.objects.update(self.len as int, value)
                } else {
                    self.objects
                },
                len: self.len + 1,
                ..self
            }
        }
    }

    /// Whether a slot holds neither a number nor nil.
    pub open spec fn holds_object(self, i: int) -> bool {
        self.tags[i] != TAG_NUMBER && self.tags[i] != TAG_NIL
    }

    /// The value in a slot.
    pub open spec fn value_at(self, i: int) -> Datum {
        if self.tags[i] == TAG_NUMBER {
            Datum::Float(self.words[i])
        } else if self.tags[i] == TAG_NIL {
            Datum::Nil
        } else {
            self.objects[i]
        }
    }

    /// The frame after the last value was popped. A value that leaves its slot
    /// leaves nil behind.
    pub open spec fn popped(self) -> FrameState {
        if self.len == 0 {
            self.failed("JIT Stack underflow"@)
        } else {
            FrameState {
                len: (self.len - 1) as nat,
                objects: if self.holds_object(self.len - 1) {
                    self.objects.update(self.len - 1, Datum::Nil)
                } else {
                    self.objects
                },
                ..self
            }
        }
    }

    /// The values on the operand stack, the last one on top.
    pub open spec fn values(self) -> Seq<Datum> {
        Seq::new(self.len, |i: int| self.value_at(i))
    }

    /// The value in a slot as the virtual machine sees it: a whole number is an
    /// integer there.
    pub open spec fn machine_value_at(self, i: int) -> Datum {
        if self.tags[i] == TAG_NUMBER {
            match whole(self.words[i]) {
                Some(n) => Datum::Int(n),
                None => Datum::Float(self.words[i]),
            }
        } else {
            self.value_at(i)
        }
    }

    /// The values from a slot on, as the virtual machine sees them.
    pub open spec fn machine_values(self, start: int) -> Seq<Datum> {
        Seq::new((self.len - start) as nat, |i: int| self.machine_value_at(start + i))
    }

    /// The frame after the values from a slot on have left it. The slots stay
    /// in use, with nil in place of the values that were moved.
    pub open spec fn emptied(self, start: int) -> FrameState {
        FrameState {
            objects: Seq::new(
                self.objects.len(),
                |i: int|
                    if start <= i < self.len && self.holds_object(i) {
                        Datum::Nil
                    } else {
                        self.objects[i]
                    },
            ),
            ..self
        }
    }

    /// The frame with another number of slots in use.
    pub open spec fn resized(self, len: nat) -> FrameState {
        FrameState { len, ..self }
    }

    /// The outcome of the compiled function.
    pub open spec fn outcome(self) -> Result<Datum, Seq<char>> {
        match self.error {
            Some(message) => Err(message),
            None => if self.result_tag == TAG_NUMBER {
                Ok(Datum::Float(self.result_val))
            } else if self.result_tag == TAG_NIL {
                Ok(Datum::Nil)
            } else {
                Err("Unsupported JIT return tag"@)
            },
        }
    }
}

/// The frame that a chunk starts with, in the innermost of some environments.
pub open spec fn fresh_frame(call_frame_envs: Seq<GcHandle>, chunk: Chunk) -> FrameState {
    FrameState {
        words: Seq::new(STACK_SIZE as nat, |i: int| 0u64),
        tags: Seq::new(STACK_SIZE as nat, |i: int| TAG_NUMBER),
        objects: Seq::new(STACK_SIZE as nat, |i: int| Datum::Nil),
        len: 0,
        capacity: STACK_SIZE as nat,
        env: call_frame_envs.last(),
        result_tag: TAG_NUMBER,
        result_val: 0,
        error: None,
        chunk,
    }
}

/// The contents of an outcome.
pub open spec fn outcome_contents(outcome: Result<VmValue, String>) -> Result<Datum, Seq<char>> {
    match outcome {
        Ok(value) => Ok(value@),
        Err(message) => Err(message@),
    }
}

impl JitFrame {
    /// A frame with an empty operand stack, for a chunk that runs in the
    /// environment of the innermost call frame of the virtual machine.
    pub fn new(call_frame_envs: &Vec<GcHandle>, chunk: &Rc<Chunk>) -> (frame: JitFrame)
        requires
            call_frame_envs.len() > 0,
        ensures
            frame@ == fresh_frame(call_frame_envs@, **chunk),
            frame@ == (FrameState {
                words: Seq::new(STACK_SIZE as nat, |i: int| 0u64),
                tags: Seq::new(STACK_SIZE as nat, |i: int| TAG_NUMBER),
                objects: Seq::new(STACK_SIZE as nat, |i: int| Datum::Nil),
                len: 0,
                capacity: STACK_SIZE as nat,
                env: call_frame_envs@.last(),
                result_tag: TAG_NUMBER,
                result_val: 0,
                error: None,
                chunk: **chunk,
            }),
            frame@.wf(),
            frame@.values() == Seq::<Datum>::empty(),
    {
        let mut stack: Vec<u64> = Vec::new();
        let mut tags: Vec<u64> = Vec::new();
        let mut vals: Vec<VmValue> = Vec::new();
        let mut i: usize = 0;
        while i < STACK_SIZE
            invariant
                i <= STACK_SIZE,
                stack@ == Seq::new(i as nat, |j: int| 0u64),
                tags@ == Seq::new(i as nat, |j: int| TAG_NUMBER),
                vals@.len() == i,
                forall|j: int| 0 <= j < i ==> (#[trigger] vals@[j]) == VmValue::Nil,
            decreases STACK_SIZE - i,
        {
            stack.push(0);
            tags.push(TAG_NUMBER);
            vals.push(VmValue::Nil);
            i = i + 1;
        }
        let frame = JitFrame {
            stack,
            stack_len: 0,
            env: call_frame_envs[call_frame_envs.len() - 1],
            result_tag: 0,
            result_val: 0,
            error: None,
            tags,
            vals,
            capacity: STACK_SIZE,
            chunk: share(chunk),
        };
        assert(frame@.objects =~= Seq::new(STACK_SIZE as nat, |i: int| Datum::Nil));
        assert(frame@.values() =~= Seq::<Datum>::empty());
        frame
    }

    /// The outcome of the compiled function: the error where there is one, else
    /// the number or nil that the result words hold.
    pub fn into_vm_value(self) -> (outcome: Result<VmValue, String>)
        ensures
            outcome_contents(outcome) == self@.outcome(),
    {
        match self.error {
            Some(message) => Err(message),
            None => match self.result_tag {
                0 => Ok(VmValue::Float(self.result_val)),
                1 => Ok(VmValue::Nil),
                _ => Err("Unsupported JIT return tag".to_string()),
            },
        }
    }

    /// Pushes a value. Where the stack is full, the frame gets an error and
    /// stays as it is otherwise.
    pub fn push_val(&mut self, val: VmValue)
        requires
            old(self)@.sized(),
        ensures
            final(self)@ == old(self)@.pushed(val@),
            final(self)@.sized(),
    {
        if self.stack_len >= self.capacity {
            self.error = Some("JIT Stack overflow".to_string());
            return;
        }
        let idx = self.stack_len;
        match val {
            VmValue::Int(n) => {
                self.tags.set(idx, TAG_NUMBER);
                self.stack.set(idx, double_of_int(n));
            },
            VmValue::Float(bits) => {
                self.tags.set(idx, TAG_NUMBER);
                self.stack.set(idx, bits);
            },
            VmValue::Bool(b) => {
                self.tags.set(idx, TAG_NUMBER);
                self.stack.set(idx, double_of_bool(b));
            },
            VmValue::Nil => {
                self.tags.set(idx, TAG_NIL);
                self.stack.set(idx, 0);
            },
            other => {
                self.tags.set(idx, TAG_OBJECT);
                self.stack.set(idx, 0);
                self.vals.set(idx, other);
            },
        }
        self.stack_len = self.stack_len + 1;
        assert(self@.objects =~= old(self)@.pushed(val@).objects);
    }

    /// Takes the value out of a slot that holds neither a number nor nil.
    fn take_object(&mut self, idx: usize) -> (val: VmValue)
        requires
            idx < old(self)@.objects.len(),
        ensures
            val@ == old(self)@.objects[idx as int],
            final(self)@ == (FrameState {
                objects: old(self)@.objects.update(idx as int, Datum::Nil),
                ..old(self)@
            }),
    {
        let mut val = VmValue::Nil;
        std::mem::swap(&mut val, &mut self.vals[idx]);
        assert(self@.objects =~= old(self)@.objects.update(idx as int, Datum::Nil));
        val
    }

    /// Pops the last value. Where the stack is empty, the frame gets an error
    /// and stays as it is otherwise.
    pub fn pop_val(&mut self) -> (val: Result<VmValue, ()>)
        requires
            old(self)@.wf(),
        ensures
            final(self)@ == old(self)@.popped(),
            final(self)@.wf(),
            val is Ok <==> old(self)@.len > 0,
            val matches Ok(v) ==> v@ == old(self)@.value_at(old(self)@.len - 1),
    {
        if self.stack_len == 0 {
            self.error = Some("JIT Stack underflow".to_string());
            return Err(());
        }
        self.stack_len = self.stack_len - 1;
        let idx = self.stack_len;
        let tag = self.tags[idx];
        if tag == TAG_NUMBER {
            Ok(VmValue::Float(self.stack[idx]))
        } else if tag == TAG_NIL {
            Ok(VmValue::Nil)
        } else {
            Ok(self.take_object(idx))
        }
    }

    /// Takes the values from a slot on out of the frame, as the virtual machine
    /// sees them. The slots stay in use.
    pub fn take_machine_values(&mut self, start: usize) -> (values: Vec<VmValue>)
        requires
            old(self)@.wf(),
            start <= old(self)@.len,
        ensures
            data(values@) == old(self)@.machine_values(start as int),
            final(self)@ == old(self)@.emptied(start as int),
            final(self)@.wf(),
    {
        let mut values: Vec<VmValue> = Vec::new();
        let mut i = start;
        let end = self.stack_len;
        while i < end
            invariant
                start <= i <= end,
                end == old(self)@.len,
                old(self)@.wf(),
                self@ == (FrameState { objects: self@.objects, ..old(self)@ }),
                self@.objects.len() == old(self)@.capacity,
                forall|j: int|
                    0 <= j < old(self)@.capacity ==> #[trigger] self@.objects[j] == (if start <= j
                        < i && old(self)@.holds_object(j) {
                        Datum::Nil
                    } else {
                        old(self)@.objects[j]
                    }),
                values@.len() == i - start,
                forall|j: int|
                    0 <= j < values@.len() ==> (#[trigger] values@[j])@
                        == old(self)@.machine_value_at(start + j),
            decreases end - i,
        {
            let tag = self.tags[i];
            let value = if tag == TAG_NUMBER {
                match double_whole(self.stack[i]) {
                    Some(n) => VmValue::Int(n),
                    None => VmValue::Float(self.stack[i]),
                }
            } else if tag == TAG_NIL {
                VmValue::Nil
            } else {
                self.take_object(i)
            };
            values.push(value);
            i = i + 1;
        }
        assert(self@.objects =~= old(self)@.emptied(start as int).objects);
        assert(data(values@) =~= old(self)@.machine_values(start as int));
        values
    }
}

/// A push puts the value on top of the operand stack, in the form that it is
/// stored in; on a full stack it leaves the values alone and notes an error.
pub proof fn law_push_appends(f: FrameState, value: Datum)
    requires
        f.wf(),
    ensures
        f.pushed(value).wf(),
        f.len < f.capacity ==> f.pushed(value).values() == f.values().push(stored_form(value)),
        f.len < f.capacity ==> f.pushed(value).error == f.error,
        f.len == f.capacity ==> f.pushed(value).values() == f.values(),
        f.len == f.capacity ==> f.pushed(value).error == Some("JIT Stack overflow"@),
{
    let g = f.pushed(value);
    if f.len < f.capacity {
        assert(g.values() =~= f.values().push(stored_form(value)));
    } else {
        assert(g.values() =~= f.values());
    }
}

/// A pop takes the value on top off the operand stack; on an empty stack it
/// notes an error.
pub proof fn law_pop_removes(f: FrameState)
    requires
        f.wf(),
    ensures
        f.popped().wf(),
        f.len > 0 ==> f.popped().values() == f.values().drop_last(),
        f.len > 0 ==> f.value_at(f.len - 1) == f.values().last(),
        f.len > 0 ==> f.popped().error == f.error,
        f.len == 0 ==> f.popped().values() == f.values(),
        f.len == 0 ==> f.popped().error == Some("JIT Stack underflow"@),
{
    let g = f.popped();
    if f.len > 0 {
        assert(g.values() =~= f.values().drop_last());
    } else {
        assert(g.values() =~= f.values());
    }
}

/// A pop undoes a push: it gives back what was pushed, in the form that it was
/// stored in, and the operand stack is what it was.
pub proof fn law_pop_undoes_push(f: FrameState, value: Datum)
    requires
        f.wf(),
        f.len < f.capacity,
    ensures
        f.pushed(value).value_at(f.len as int) == stored_form(value),
        f.pushed(value).popped().values() == f.values(),
        f.pushed(value).popped().error == f.error,
{
    law_push_appends(f, value);
    law_pop_removes(f.pushed(value));
    assert(f.values().push(stored_form(value)).drop_last() =~= f.values());
}

/// A value that is neither a number nor a truth value comes back as it was
/// pushed.
pub proof fn law_objects_stored_whole(value: Datum)
    requires
        !(value is Int),
        !(value is Bool),
    ensures
        stored_form(value) == value,
{
}

/// An integer of at most 53 bits that was pushed is the same integer to the
/// virtual machine; a truth value is one or zero there.
pub proof fn law_small_int_survives(f: FrameState, value: Datum)
    requires
        f.wf(),
        f.len < f.capacity,
        value is Int || value is Bool,
        value matches Datum::Int(n) ==> -0x20_0000_0000_0000 <= n <= 0x20_0000_0000_0000,
    ensures
        f.pushed(value).machine_value_at(f.len as int) == match value {
            Datum::Bool(b) => Datum::Int(
                if b {
                    1
                } else {
                    0
                },
            ),
            _ => value,
        },
{
    match value {
        Datum::Int(n) => law_small_int_exact(n as int),
        Datum::Bool(b) => {
            law_bool_is_int(b);
            law_small_int_exact(
                if b {
                    1
                } else {
                    0
                },
            );
        },
        _ => {},
    }
}

/// What a push leaves in the slot, word for word: a number as a double under tag
/// zero, with one and zero for the truth values; nil under tag one; any other
/// value, whatever it is, as it is under tag two. Nothing else in the frame
/// changes but the number of slots in use.
pub proof fn law_push_slot(f: FrameState, value: Datum)
    requires
        f.wf(),
        f.len < f.capacity,
    ensures
        ({
            let g = f.pushed(value);
            let i = f.len as int;
            &&& match value {
                Datum::Int(n) => g.tags[i] == 0 && g.words[i] == nearest(n as int),
                Datum::Float(bits) => g.tags[i] == 0 && g.words[i] == bits,
                Datum::Bool(b) => g.tags[i] == 0 && g.words[i] == if b {
                    0x3ff0_0000_0000_0000u64
                } else {
                    0u64
                },
                Datum::Nil => g.tags[i] == 1 && g.words[i] == 0,
                Datum::Str(_) => g.tags[i] == 2 && g.words[i] == 0 && g.objects[i] == value,
                Datum::List(_) => g.tags[i] == 2 && g.words[i] == 0 && g.objects[i] == value,
                Datum::Closure { .. } => g.tags[i] == 2 && g.words[i] == 0 && g.objects[i]
                    == value,
                Datum::Foreign(_) => g.tags[i] == 2 && g.words[i] == 0 && g.objects[i] == value,
            }
            &&& g.len == f.len + 1
            &&& forall|k: int|
                0 <= k < f.capacity && k != i ==> #[trigger] g.words[k] == f.words[k]
            &&& forall|k: int| 0 <= k < f.capacity && k != i ==> #[trigger] g.tags[k] == f.tags[k]
            &&& forall|k: int|
                0 <= k < f.capacity && k != i ==> #[trigger] g.objects[k] == f.objects[k]
            &&& g.capacity == f.capacity
            &&& g.env == f.env
            &&& g.error == f.error
            &&& g.result_tag == f.result_tag
            &&& g.result_val == f.result_val
            &&& g.chunk == f.chunk
        }),
{
}

/// A push on a full stack and a pop off an empty one only note the error.
pub proof fn law_no_room_no_change(f: FrameState, value: Datum)
    ensures
        f.len >= f.capacity ==> f.pushed(value) == (FrameState {
            error: Some("JIT Stack overflow"@),
            ..f
        }),
        f.len == 0 ==> f.popped() == (FrameState { error: Some("JIT Stack underflow"@), ..f }),
{
}

/// A pop changes nothing but the number of slots in use and the value of the
/// slot that it takes from.
pub proof fn law_pop_slot(f: FrameState)
    requires
        f.wf(),
        f.len > 0,
    ensures
        ({
            let g = f.popped();
            &&& g.len == f.len - 1
            &&& g == (FrameState { len: g.len, objects: g.objects, ..f })
            &&& forall|k: int|
                0 <= k < f.capacity && k != f.len - 1 ==> #[trigger] g.objects[k] == f.objects[k]
        }),
{
}

/// What was pushed is what the virtual machine gets: every value that is no
/// number and no truth value as it is; a double that is no integer as that
/// double, and one that is an integer as that integer.
pub proof fn law_push_handed_over(f: FrameState, value: Datum)
    requires
        f.wf(),
        f.len < f.capacity,
    ensures
        ({
            let seen = f.pushed(value).machine_value_at(f.len as int);
            &&& !(value is Int) && !(value is Float) && !(value is Bool) ==> seen == value
            &&& value matches Datum::Float(bits) ==> {
                ||| seen == value && forall|n: i64|
                    n != i64::MIN ==> scaled(bits) != #[trigger] (n * unit()) || !is_finite(bits)
                ||| exists|n: i64|
                    seen == Datum::Int(n) && is_finite(bits) && scaled(bits) == #[trigger] (n
                        * unit())
            }
        }),
{
    if let Datum::Float(bits) = value {
        let seen = f.pushed(value).machine_value_at(f.len as int);
        match whole(bits) {
            Some(n) => {
                law_whole_is_number(bits, n);
                assert(seen == Datum::Int(n) && scaled(bits) == n * unit());
            },
            None => {
                assert forall|n: i64| n != i64::MIN implies scaled(bits) != #[trigger] (n * unit())
                    || !is_finite(bits) by {
                    law_whole_is_number(bits, n);
                }
            },
        }
    }
}

/// The virtual machine gets the values in the order of the slots: one more value
/// on top is one more value at the end, and the others are what they were.
pub proof fn law_stack_handed_over(f: FrameState, value: Datum, start: int)
    requires
        f.wf(),
        f.len < f.capacity,
        0 <= start <= f.len,
    ensures
        f.pushed(value).machine_values(start) == f.machine_values(start).push(
            f.pushed(value).machine_value_at(f.len as int),
        ),
        f.machine_values(start).len() == f.len - start,
        forall|i: int|
            0 <= i < f.len - start ==> {
                let seen = #[trigger] f.machine_values(start)[i];
                &&& f.tags[start + i] == 0 ==> seen is Int || seen == Datum::Float(
                    f.words[start + i],
                )
                &&& f.tags[start + i] == 1 ==> seen == Datum::Nil
                &&& f.tags[start + i] == 2 ==> seen == f.objects[start + i]
            },
{
    assert(f.pushed(value).machine_values(start) =~= f.machine_values(start).push(
        f.pushed(value).machine_value_at(f.len as int),
    ));
}

/// The values in the slots are what the tags say: a number, nil, or the value
/// that is stored.
pub proof fn law_values_by_tags(f: FrameState, i: int)
    requires
        f.wf(),
        0 <= i < f.len,
    ensures
        f.values().len() == f.len,
        f.tags[i] == 0 ==> f.values()[i] == Datum::Float(f.words[i]),
        f.tags[i] == 1 ==> f.values()[i] == Datum::Nil,
        f.tags[i] >= 2 ==> f.values()[i] == f.objects[i],
{
}

/// Handing values over leaves the slots below alone, and everything but the
/// values of the slots.
pub proof fn law_emptied_keeps_rest(f: FrameState, start: int)
    requires
        f.wf(),
        0 <= start <= f.len,
    ensures
        f.emptied(start) == (FrameState { objects: f.emptied(start).objects, ..f }),
        f.emptied(start).objects.len() == f.objects.len(),
        forall|i: int|
            0 <= i < f.capacity && !(start <= i < f.len && f.tags[i] >= 2) ==> #[trigger] f.emptied(
                start,
            ).objects[i] == f.objects[i],
        forall|i: int|
            start <= i < f.len && f.tags[i] >= 2 ==> #[trigger] f.emptied(start).objects[i]
                == Datum::Nil,
{
}

/// The outcome is the error, where there is one; else the double of the result
/// word under tag zero, whatever double it is, and nil under tag one. No other
/// tag has an outcome.
pub proof fn law_outcome_by_words(f: FrameState)
    ensures
        f.error matches Some(message) ==> f.outcome() == Err::<Datum, Seq<char>>(message),
        f.error is None && f.result_tag == 0 ==> f.outcome() == Ok::<Datum, Seq<char>>(
            Datum::Float(f.result_val),
        ),
        f.error is None && f.result_tag == 1 ==> f.outcome() == Ok::<Datum, Seq<char>>(Datum::Nil),
        f.error is None && f.result_tag >= 2 ==> f.outcome() == Err::<Datum, Seq<char>>(
            "Unsupported JIT return tag"@,
        ),
{
}

/// A fresh frame has room for 1024 values and none on its stack, runs its chunk
/// in the innermost environment, and has neither an error nor another outcome
/// than zero.
pub proof fn law_fresh_frame(envs: Seq<GcHandle>, env: GcHandle, chunk: Chunk)
    ensures
        ({
            let f = fresh_frame(envs.push(env), chunk);
            &&& f.wf()
            &&& f.capacity == 1024
            &&& f.values().len() == 0
            &&& f.env == env
            &&& f.chunk == chunk
            &&& f.error is None
            &&& f.outcome() == Ok::<Datum, Seq<char>>(Datum::Float(0))
        }),
{
}

} // verus!
