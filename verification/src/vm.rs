//! The virtual machine: the value stack with its sliding frame window, call
//! bookkeeping, and the instruction dispatch loop.
use vstd::prelude::*;

use crate::Error;
use crate::Object;
use crate::ObjView;
use crate::bytecode::Instruction;
use crate::bytecode::Opcode;
use crate::object::Heap;
use crate::object::NativeClosure;
use crate::object::table_lookup;
use vstd::string::StringExecFns;

verus! {

/// Number of value slots the stack owns.  The buffer is allocated once and
/// never grows.
pub const STACK_CAPACITY: usize = 102400;

/// The window of the stack belonging to the active call: registers are
/// addressed relative to `base`, and `top` is one past the last live slot.
#[derive(Clone, Copy, Debug)]
pub struct StackFrame {
    pub base: usize,
    pub top: usize,
}

/// A frame is valid when it lies inside the buffer in order.
pub open spec fn frame_valid(f: StackFrame) -> bool {
    f.base <= f.top <= STACK_CAPACITY
}

/// The value stack: a fixed-capacity buffer of values and the current frame.
pub struct Stack {
    stack: Vec<Object>,
    frame: StackFrame,
}

impl Stack {
    /// The buffer contents, by view.
    pub closed spec fn view(&self) -> Seq<ObjView> {
        self.stack@.map_values(|o: Object| o@)
    }

    /// The current frame's base.
    pub closed spec fn spec_base(&self) -> usize {
        self.frame.base
    }

    /// The current frame's top.
    pub closed spec fn spec_top(&self) -> usize {
        self.frame.top
    }

    /// Well-formedness: the buffer has its fixed capacity and the frame lies
    /// inside it.  Every stack operation preserves this.
    pub open spec fn wf(&self) -> bool {
        &&& self@.len() == STACK_CAPACITY
        &&& self.spec_base() <= self.spec_top() <= STACK_CAPACITY
    }

    /// A fresh stack: every slot `Null`, the frame starting at slot 1.
    pub fn new() -> (r: Stack)
        ensures
            r.wf(),
            r.spec_base() == 1,
            r.spec_top() == 1,
            forall|i: int| 0 <= i < STACK_CAPACITY ==> r@[i] == ObjView::Null,
    {
        let mut v: Vec<Object> = Vec::new();
        let mut i: usize = 0;
        while i < STACK_CAPACITY
            invariant
                i == v@.len(),
                i <= STACK_CAPACITY,
                forall|j: int| 0 <= j < i ==> (#[trigger] v@[j])@ == ObjView::Null,
            decreases STACK_CAPACITY - i,
        {
            v.push(Object::Null);
            i = i + 1;
        }
        Stack { stack: v, frame: StackFrame { base: 1, top: 1 } }
    }

    /// The value `pos` slots from the top (`pos` is usually negative).
    pub fn up(&self, pos: i64) -> (r: &Object)
        requires
            self.wf(),
            0 <= self.spec_top() + pos < STACK_CAPACITY,
        ensures
            r@ == self@[self.spec_top() + pos],
    {
        let idx: i64 = (self.frame.top as i64) + pos;
        &self.stack[idx as usize]
    }

    /// The value just below the top.
    pub fn top(&self) -> (r: &Object)
        requires
            self.wf(),
            self.spec_top() >= 1,
        ensures
            r@ == self@[self.spec_top() - 1],
    {
        self.up(-1)
    }

    /// The value of register `pos` (relative to the frame base).
    pub fn value(&self, pos: i64) -> (r: &Object)
        requires
            self.wf(),
            0 <= self.spec_base() + pos < STACK_CAPACITY,
        ensures
            r@ == self@[self.spec_base() + pos],
    {
        let idx: i64 = (self.frame.base as i64) + pos;
        &self.stack[idx as usize]
    }

    /// A mutable borrow of register `pos` (relative to the frame base): the
    /// slot reads as its old value and ends up holding whatever the borrower
    /// leaves in it.
    pub fn value_mut(&mut self, pos: i64) -> (r: &mut Object)
        requires
            old(self).wf(),
            0 <= old(self).spec_base() + pos < STACK_CAPACITY,
        ensures
            final(self).wf(),
            (*r)@ == old(self)@[old(self).spec_base() + pos],
            final(self)@.len() == old(self)@.len(),
            final(self)@[old(self).spec_base() + pos] == final(r)@,
            forall|k: int|
                0 <= k < old(self)@.len() && k != old(self).spec_base() + pos ==> final(self)@[k]
                    == old(self)@[k],
            final(self).spec_base() == old(self).spec_base(),
            final(self).spec_top() == old(self).spec_top(),
    {
        let idx: i64 = (self.frame.base as i64) + pos;
        &mut self.stack[idx as usize]
    }

    /// Writes register `pos` (relative to the frame base).
    pub fn set_value(&mut self, pos: i64, v: Object)
        requires
            old(self).wf(),
            0 <= old(self).spec_base() + pos < STACK_CAPACITY,
        ensures
            final(self).wf(),
            final(self)@ == old(self)@.update(old(self).spec_base() + pos, v@),
            final(self).spec_base() == old(self).spec_base(),
            final(self).spec_top() == old(self).spec_top(),
    {
        let idx: i64 = (self.frame.base as i64) + pos;
        self.stack.set(idx as usize, v);
        proof {
            assert(final(self)@ =~= old(self)@.update(old(self).spec_base() + pos, v@));
        }
    }

    /// Writes the slot `pos` slots from the top.
    pub fn set_up(&mut self, pos: i64, v: Object)
        requires
            old(self).wf(),
            0 <= old(self).spec_top() + pos < STACK_CAPACITY,
        ensures
            final(self).wf(),
            final(self)@ == old(self)@.update(old(self).spec_top() + pos, v@),
            final(self).spec_base() == old(self).spec_base(),
            final(self).spec_top() == old(self).spec_top(),
    {
        let idx: i64 = (self.frame.top as i64) + pos;
        self.stack.set(idx as usize, v);
        proof {
            assert(final(self)@ =~= old(self)@.update(old(self).spec_top() + pos, v@));
        }
    }

    /// Exchanges registers `pos1` and `pos2` (relative to the frame base).
    pub fn swap(&mut self, pos1: i64, pos2: i64)
        requires
            old(self).wf(),
            0 <= old(self).spec_base() + pos1 < STACK_CAPACITY,
            0 <= old(self).spec_base() + pos2 < STACK_CAPACITY,
        ensures
            final(self).wf(),
            final(self)@ == old(self)@.update(
                old(self).spec_base() + pos1,
                old(self)@[old(self).spec_base() + pos2],
            ).update(old(self).spec_base() + pos2, old(self)@[old(self).spec_base() + pos1]),
            final(self).spec_base() == old(self).spec_base(),
            final(self).spec_top() == old(self).spec_top(),
    {
        let i: usize = ((self.frame.base as i64) + pos1) as usize;
        let j: usize = ((self.frame.base as i64) + pos2) as usize;
        let a = self.stack[i].clone();
        let b = self.stack[j].clone();
        self.stack.set(i, b);
        self.stack.set(j, a);
        proof {
            assert(final(self)@ =~= old(self)@.update(
                old(self).spec_base() + pos1,
                old(self)@[old(self).spec_base() + pos2],
            ).update(old(self).spec_base() + pos2, old(self)@[old(self).spec_base() + pos1]));
        }
    }

    /// The current frame.
    pub fn get_frame(&self) -> (r: StackFrame)
        ensures
            r.base == self.spec_base(),
            r.top == self.spec_top(),
    {
        self.frame
    }

    /// Replaces the current frame; the buffer is untouched.
    pub fn set_frame(&mut self, frame: StackFrame)
        requires
            old(self).wf(),
            frame_valid(frame),
        ensures
            final(self).wf(),
            final(self)@ == old(self)@,
            final(self).spec_base() == frame.base,
            final(self).spec_top() == frame.top,
    {
        self.frame = frame;
    }

    /// Retracts the top of the frame by `num` slots.
    pub fn pop(&mut self, num: i64)
        requires
            old(self).wf(),
            0 <= num <= old(self).spec_top() - old(self).spec_base(),
        ensures
            final(self).wf(),
            final(self)@ == old(self)@,
            final(self).spec_base() == old(self).spec_base(),
            final(self).spec_top() == old(self).spec_top() - num,
    {
        self.frame.top = ((self.frame.top as i64) - num) as usize;
    }

    /// Writes `obj` at the top of the frame and advances the top.
    pub fn push(&mut self, obj: Object)
        requires
            old(self).wf(),
            old(self).spec_top() < STACK_CAPACITY,
        ensures
            final(self).wf(),
            final(self)@ == old(self)@.update(old(self).spec_top() as int, obj@),
            final(self).spec_base() == old(self).spec_base(),
            final(self).spec_top() == old(self).spec_top() + 1,
    {
        let t = self.frame.top;
        self.stack.set(t, obj);
        self.frame.top = t + 1;
        proof {
            assert(final(self)@ =~= old(self)@.update(old(self).spec_top() as int, obj@));
        }
    }

    /// The frame base, for embedders.
    pub fn frame_base(&self) -> (r: usize)
        ensures
            r == self.spec_base(),
    {
        self.frame.base
    }

    /// The frame top, for embedders.
    pub fn frame_top(&self) -> (r: usize)
        ensures
            r == self.spec_top(),
    {
        self.frame.top
    }

    /// Reads the register named by `idx`, or reports a stack exhaustion when
    /// the register lies outside the buffer.
    pub fn reg_get(&self, idx: u32) -> (r: Result<&Object, Error>)
        requires
            self.wf(),
        ensures
            match r {
                Ok(v) => self.spec_base() + idx < STACK_CAPACITY && v@ == self@[self.spec_base()
                    + idx],
                Err(e) => self.spec_base() + idx >= STACK_CAPACITY && e.is_runtime(),
            },
    {
        let idx_abs: u64 = (self.frame.base as u64) + (idx as u64);
        if idx_abs < (STACK_CAPACITY as u64) {
            Ok(&self.stack[idx_abs as usize])
        } else {
            Err(Error::RuntimeError("register outside the stack".to_owned()))
        }
    }

    /// Writes the register named by `idx`, or reports a stack exhaustion when
    /// the register lies outside the buffer.
    pub fn reg_set(&mut self, idx: u32, v: Object) -> (r: Result<(), Error>)
        requires
            old(self).wf(),
        ensures
            final(self).wf(),
            final(self).spec_base() == old(self).spec_base(),
            final(self).spec_top() == old(self).spec_top(),
            match r {
                Ok(()) => old(self).spec_base() + idx < STACK_CAPACITY && final(self)@ == old(self)@.update(old(self).spec_base() + idx, v@),
                Err(e) => old(self).spec_base() + idx >= STACK_CAPACITY && final(self)@ == old(self)@ && e.is_runtime(),
            },
    {
        let idx_abs: u64 = (self.frame.base as u64) + (idx as u64);
        if idx_abs < (STACK_CAPACITY as u64) {
            self.stack.set(idx_abs as usize, v);
            proof {
                assert(final(self)@ =~= old(self)@.update(old(self).spec_base() + idx, v@));
            }
            Ok(())
        } else {
            Err(Error::RuntimeError("register outside the stack".to_owned()))
        }
    }

    /// Reads the register named by the instruction's `arg0` byte.
    pub fn get_arg0(&self, instr: &Instruction) -> (r: Result<&Object, Error>)
        requires
            self.wf(),
        ensures
            match r {
                Ok(v) => self.spec_base() + instr.arg0 < STACK_CAPACITY && v@ == self@[
                    self.spec_base() + instr.arg0
                ],
                Err(e) => self.spec_base() + instr.arg0 >= STACK_CAPACITY && e.is_runtime(),
            },
    {
        self.reg_get(instr.arg0 as u32)
    }

    /// Reads the register named by the instruction's `arg1` field.
    pub fn get_arg1(&self, instr: &Instruction) -> (r: Result<&Object, Error>)
        requires
            self.wf(),
        ensures
            match r {
                Ok(v) => self.spec_base() + instr.arg1 < STACK_CAPACITY && v@ == self@[
                    self.spec_base() + instr.arg1
                ],
                Err(e) => self.spec_base() + instr.arg1 >= STACK_CAPACITY && e.is_runtime(),
            },
    {
        self.reg_get(instr.arg1)
    }

    /// Reads the register named by the instruction's `arg2` byte.
    pub fn get_arg2(&self, instr: &Instruction) -> (r: Result<&Object, Error>)
        requires
            self.wf(),
        ensures
            match r {
                Ok(v) => self.spec_base() + instr.arg2 < STACK_CAPACITY && v@ == self@[
                    self.spec_base() + instr.arg2
                ],
                Err(e) => self.spec_base() + instr.arg2 >= STACK_CAPACITY && e.is_runtime(),
            },
    {
        self.reg_get(instr.arg2 as u32)
    }

    /// Reads the register named by the instruction's `arg3` byte.
    pub fn get_arg3(&self, instr: &Instruction) -> (r: Result<&Object, Error>)
        requires
            self.wf(),
        ensures
            match r {
                Ok(v) => self.spec_base() + instr.arg3 < STACK_CAPACITY && v@ == self@[
                    self.spec_base() + instr.arg3
                ],
                Err(e) => self.spec_base() + instr.arg3 >= STACK_CAPACITY && e.is_runtime(),
            },
    {
        self.reg_get(instr.arg3 as u32)
    }

    /// Writes the register named by the instruction's `arg0` byte.
    pub fn set_arg0(&mut self, instr: &Instruction, value: Object) -> (r: Result<(), Error>)
        requires
            old(self).wf(),
        ensures
            final(self).wf(),
            final(self).spec_base() == old(self).spec_base(),
            final(self).spec_top() == old(self).spec_top(),
            match r {
                Ok(()) => old(self).spec_base() + instr.arg0 < STACK_CAPACITY && final(self)@
                    == old(self)@.update(old(self).spec_base() + instr.arg0, value@),
                Err(e) => old(self).spec_base() + instr.arg0 >= STACK_CAPACITY && final(self)@
                    == old(self)@ && e.is_runtime(),
            },
    {
        self.reg_set(instr.arg0 as u32, value)
    }

    /// Writes the register named by the instruction's `arg1` field.
    pub fn set_arg1(&mut self, instr: &Instruction, value: Object) -> (r: Result<(), Error>)
        requires
            old(self).wf(),
        ensures
            final(self).wf(),
            final(self).spec_base() == old(self).spec_base(),
            final(self).spec_top() == old(self).spec_top(),
            match r {
                Ok(()) => old(self).spec_base() + instr.arg1 < STACK_CAPACITY && final(self)@
                    == old(self)@.update(old(self).spec_base() + instr.arg1, value@),
                Err(e) => old(self).spec_base() + instr.arg1 >= STACK_CAPACITY && final(self)@
                    == old(self)@ && e.is_runtime(),
            },
    {
        self.reg_set(instr.arg1, value)
    }

    /// Writes the register named by the instruction's `arg2` byte.
    pub fn set_arg2(&mut self, instr: &Instruction, value: Object) -> (r: Result<(), Error>)
        requires
            old(self).wf(),
        ensures
            final(self).wf(),
            final(self).spec_base() == old(self).spec_base(),
            final(self).spec_top() == old(self).spec_top(),
            match r {
                Ok(()) => old(self).spec_base() + instr.arg2 < STACK_CAPACITY && final(self)@
                    == old(self)@.update(old(self).spec_base() + instr.arg2, value@),
                Err(e) => old(self).spec_base() + instr.arg2 >= STACK_CAPACITY && final(self)@
                    == old(self)@ && e.is_runtime(),
            },
    {
        self.reg_set(instr.arg2 as u32, value)
    }

    /// Writes the register named by the instruction's `arg3` byte.
    pub fn set_arg3(&mut self, instr: &Instruction, value: Object) -> (r: Result<(), Error>)
        requires
            old(self).wf(),
        ensures
            final(self).wf(),
            final(self).spec_base() == old(self).spec_base(),
            final(self).spec_top() == old(self).spec_top(),
            match r {
                Ok(()) => old(self).spec_base() + instr.arg3 < STACK_CAPACITY && final(self)@
                    == old(self)@.update(old(self).spec_base() + instr.arg3, value@),
                Err(e) => old(self).spec_base() + instr.arg3 >= STACK_CAPACITY && final(self)@
                    == old(self)@ && e.is_runtime(),
            },
    {
        self.reg_set(instr.arg3 as u32, value)
    }

    /// Writes the destination register of an instruction (its `arg0` byte).
    pub fn set_target(&mut self, instr: &Instruction, value: Object) -> (r: Result<(), Error>)
        requires
            old(self).wf(),
        ensures
            final(self).wf(),
            final(self).spec_base() == old(self).spec_base(),
            final(self).spec_top() == old(self).spec_top(),
            match r {
                Ok(()) => old(self).spec_base() + instr.arg0 < STACK_CAPACITY && final(self)@
                    == old(self)@.update(old(self).spec_base() + instr.arg0, value@),
                Err(e) => old(self).spec_base() + instr.arg0 >= STACK_CAPACITY && final(self)@
                    == old(self)@ && e.is_runtime(),
            },
    {
        self.set_arg0(instr, value)
    }
}

/// A host callable.  The interpreter frames the stack over the native's
/// arguments and invokes it; the native may read and write inside the stack
/// but must leave it well formed.
pub trait NativeFunc {
    /// The host callable itself.
    fn invoke(&self, stack: &mut Stack)
        requires
            old(stack).wf(),
        ensures
            final(stack).wf(),
    ;
}

/// A native that does nothing, for embedders that register no host
/// functions.
pub struct NoopNative;

impl NativeFunc for NoopNative {
    fn invoke(&self, stack: &mut Stack) {
    }
}

/// Optional per-opcode execution counters, indexed by opcode byte.
pub struct Profiling {
    op_count: Vec<u64>,
}

impl Profiling {
    /// The counters, by opcode byte.
    pub closed spec fn view(&self) -> Seq<u64> {
        self.op_count@
    }

    /// Fresh counters: one zero slot for every possible opcode byte.
    pub fn new() -> (r: Profiling)
        ensures
            r@.len() == 256,
            forall|i: int| 0 <= i < 256 ==> r@[i] == 0,
    {
        let mut v: Vec<u64> = Vec::new();
        let mut i: usize = 0;
        while i < 256
            invariant
                i == v@.len(),
                i <= 256,
                forall|j: int| 0 <= j < i ==> v@[j] == 0,
            decreases 256 - i,
        {
            v.push(0);
            i = i + 1;
        }
        Profiling { op_count: v }
    }

    /// Bumps the counter of the instruction's opcode; the count saturates.
    pub fn instruction(&mut self, instr: &Instruction)
        requires
            old(self)@.len() == 256,
        ensures
            final(self)@.len() == 256,
            final(self)@ == old(self)@.update(
                instr.opcode as int,
                if old(self)@[instr.opcode as int] < u64::MAX {
                    (old(self)@[instr.opcode as int] + 1) as u64
                } else {
                    old(self)@[instr.opcode as int]
                },
            ),
    {
        let i = instr.opcode as usize;
        let c = self.op_count[i];
        if c < u64::MAX {
            self.op_count.set(i, c + 1);
        } else {
            proof {
                assert(final(self)@ =~= old(self)@.update(
                    instr.opcode as int,
                    old(self)@[instr.opcode as int],
                ));
            }
        }
    }

    /// The count recorded for an opcode byte.
    pub fn count(&self, opcode: u8) -> (r: u64)
        requires
            self@.len() == 256,
        ensures
            r == self@[opcode as int],
    {
        self.op_count[opcode as usize]
    }
}

/// The boolean reading of a value, as `JZ` evaluates it: a boolean is itself,
/// an integer is true when non-zero, null is false, any string is true, and
/// every other variant has no boolean reading.
pub open spec fn spec_truthy(v: ObjView) -> Option<bool> {
    match v {
        ObjView::Bool(b) => Some(b),
        ObjView::Integer(i) => Some(i != 0),
        ObjView::Null => Some(false),
        ObjView::String(_) => Some(true),
        _ => None,
    }
}

/// Integer arithmetic of the `ADD`..`MOD` opcodes: add, subtract and multiply
/// wrap around the 64-bit signed range; divide and remainder are undefined for
/// a zero divisor and for the one overflowing pair, and follow the machine's
/// truncating convention.  Any other opcode has no integer reading.
pub open spec fn spec_arith_int(op: Opcode, x: i64, y: i64) -> Option<i64> {
    match op {
        Opcode::ADD => Some(vstd::wrapping::i64_specs::wrapping_add(x, y)),
        Opcode::SUB => Some(vstd::wrapping::i64_specs::wrapping_sub(x, y)),
        Opcode::MUL => Some(vstd::wrapping::i64_specs::wrapping_mul(x, y)),
        Opcode::DIV => x.checked_div(y),
        Opcode::MOD => x.checked_rem(y),
        _ => None,
    }
}

/// One decimal digit as a character.
pub open spec fn spec_digit(d: int) -> char {
    if d == 0 {
        '0'
    } else if d == 1 {
        '1'
    } else if d == 2 {
        '2'
    } else if d == 3 {
        '3'
    } else if d == 4 {
        '4'
    } else if d == 5 {
        '5'
    } else if d == 6 {
        '6'
    } else if d == 7 {
        '7'
    } else if d == 8 {
        '8'
    } else {
        '9'
    }
}

/// The decimal writing of a natural number, most significant digit first.
pub open spec fn spec_u64_dec(n: nat) -> Seq<char>
    decreases n,
{
    if n < 10 {
        seq![spec_digit(n as int)]
    } else {
        spec_u64_dec(n / 10).push(spec_digit((n % 10) as int))
    }
}

/// The decimal writing of a signed integer.
pub open spec fn spec_i64_dec(i: i64) -> Seq<char> {
    if i < 0 {
        seq!['-'] + spec_u64_dec((-(i as int)) as nat)
    } else {
        spec_u64_dec(i as nat)
    }
}

/// The display form a string concatenation uses for its right operand: a
/// string is itself, an integer its decimal writing, a boolean and null their
/// names.  Other variants have no display form here and make the
/// concatenation fail.
pub open spec fn spec_display(v: ObjView) -> Option<Seq<char>> {
    match v {
        ObjView::String(s) => Some(s),
        ObjView::Integer(i) => Some(spec_i64_dec(i)),
        ObjView::Bool(b) => Some(if b {
            "true"@
        } else {
            "false"@
        }),
        ObjView::Null => Some("null"@),
        _ => None,
    }
}

/// The result of an arithmetic opcode on two values: integer arithmetic on a
/// pair of integers; for `ADD` with a string on the left, concatenation with
/// the right operand's display form.  Everything else fails.
pub open spec fn spec_arith(op: Opcode, a: ObjView, b: ObjView) -> Option<ObjView> {
    match (a, b) {
        (ObjView::Integer(x), ObjView::Integer(y)) => match spec_arith_int(op, x, y) {
            Some(z) => Some(ObjView::Integer(z)),
            None => None,
        },
        (ObjView::String(s), _) => if op is ADD {
            match spec_display(b) {
                Some(t) => Some(ObjView::String(s + t)),
                None => None,
            }
        } else {
            None
        },
        _ => None,
    }
}

/// The comparison of the `EQ` opcode: defined on two integers and on two
/// strings only.
pub open spec fn spec_eq_result(a: ObjView, b: ObjView) -> Option<bool> {
    match (a, b) {
        (ObjView::Integer(x), ObjView::Integer(y)) => Some(x == y),
        (ObjView::String(x), ObjView::String(y)) => Some(x == y),
        _ => None,
    }
}

/// Appends one digit character to a string.
fn push_digit(s: &mut String, d: u8)
    requires
        d < 10,
    ensures
        final(s)@ == old(s)@.push(spec_digit(d as int)),
{
    let lit: &str = match d {
        0 => "0",
        1 => "1",
        2 => "2",
        3 => "3",
        4 => "4",
        5 => "5",
        6 => "6",
        7 => "7",
        8 => "8",
        _ => "9",
    };
    proof {
        reveal_strlit("0");
        reveal_strlit("1");
        reveal_strlit("2");
        reveal_strlit("3");
        reveal_strlit("4");
        reveal_strlit("5");
        reveal_strlit("6");
        reveal_strlit("7");
        reveal_strlit("8");
        reveal_strlit("9");
    }
    s.append(lit);
    proof {
        assert(final(s)@ =~= old(s)@.push(spec_digit(d as int)));
    }
}

/// The decimal writing of an unsigned 64-bit number, most significant digit
/// first.
fn u64_dec(n: u64) -> (r: String)
    ensures
        r@ == spec_u64_dec(n as nat),
    decreases n,
{
    if n < 10 {
        let mut s = String::new();
        push_digit(&mut s, n as u8);
        proof {
            assert(s@ =~= spec_u64_dec(n as nat));
        }
        s
    } else {
        let mut s = u64_dec(n / 10);
        push_digit(&mut s, (n % 10) as u8);
        s
    }
}

/// The decimal writing of a signed 64-bit integer, as string concatenation
/// displays it.
pub fn i64_dec(i: i64) -> (r: String)
    ensures
        r@ == spec_i64_dec(i),
{
    if i >= 0 {
        u64_dec(i as u64)
    } else {
        let mut s = String::from_str("-");
        proof {
            reveal_strlit("-");
        }
        let mag: u64 = if i == i64::MIN {
            9223372036854775808u64
        } else {
            (-i) as u64
        };
        let tail = u64_dec(mag);
        s.append(tail.as_str());
        proof {
            assert(s@ =~= spec_i64_dec(i));
        }
        s
    }
}

/// The display form of a value for string concatenation, or a runtime error
/// where none is defined.
fn display_string(v: &Object) -> (r: Result<String, Error>)
    ensures
        match r {
            Ok(s) => spec_display(v@) == Some(s@),
            Err(e) => spec_display(v@) is None && e.is_runtime(),
        },
{
    match v {
        Object::String(s) => Ok(s.clone()),
        Object::Integer(i) => Ok(i64_dec(*i)),
        Object::Bool(b) => {
            if *b {
                Ok("true".to_owned())
            } else {
                Ok("false".to_owned())
            }
        },
        Object::Null => Ok("null".to_owned()),
        _ => Err(Error::RuntimeError("operand has no display form".to_owned())),
    }
}

/// Integer arithmetic of one opcode, or a runtime error exactly where
/// `spec_arith_int` is undefined.
fn arith_int(op: Opcode, x: i64, y: i64) -> (r: Result<i64, Error>)
    ensures
        match r {
            Ok(z) => spec_arith_int(op, x, y) == Some(z),
            Err(e) => spec_arith_int(op, x, y) is None && e.is_runtime(),
        },
{
    match op {
        Opcode::ADD => Ok(x.wrapping_add(y)),
        Opcode::SUB => Ok(x.wrapping_sub(y)),
        Opcode::MUL => Ok(x.wrapping_mul(y)),
        Opcode::DIV => match x.checked_div(y) {
            Some(z) => Ok(z),
            None => Err(Error::RuntimeError("undefined integer division".to_owned())),
        },
        Opcode::MOD => match x.checked_rem(y) {
            Some(z) => Ok(z),
            None => Err(Error::RuntimeError("undefined integer remainder".to_owned())),
        },
        _ => Err(Error::RuntimeError("not an arithmetic opcode".to_owned())),
    }
}

/// The arithmetic of one opcode on two values, exactly `spec_arith`.
fn arith_objects(op: Opcode, a: &Object, b: &Object) -> (r: Result<Object, Error>)
    ensures
        match r {
            Ok(v) => spec_arith(op, a@, b@) == Some(v@),
            Err(e) => spec_arith(op, a@, b@) is None && e.is_runtime(),
        },
{
    match (a, b) {
        (Object::Integer(x), Object::Integer(y)) => match arith_int(op, *x, *y) {
            Ok(z) => Ok(Object::Integer(z)),
            Err(e) => Err(e),
        },
        (Object::String(s), _) => {
            let is_add = match op {
                Opcode::ADD => true,
                _ => false,
            };
            if is_add {
                let shown = display_string(b)?;
                let joined = s.clone().concat(shown.as_str());
                Ok(Object::String(joined))
            } else {
                Err(Error::RuntimeError("string arithmetic is defined for ADD only".to_owned()))
            }
        },
        _ => Err(Error::RuntimeError("unhandled arithmetic operands".to_owned())),
    }
}

/// Bookkeeping of one active invocation: the frame to restore on return, the
/// callable being run, its instruction pointer, whether returning from it
/// ends `execute`, and the caller-relative register that receives the return
/// value.
struct CallInfo {
    prevframe: StackFrame,
    closure: Object,
    ip: usize,
    root: bool,
    target: Option<i64>,
}

/// The control token an opcode arm hands to the dispatch stage.
enum LoopState {
    Continue,
    LeaveFrame(Object),
    Call { closure: Object, target: Option<i64>, call_args: i64, stack_inc: u32 },
    TailCall { closure: Object, tail_args: u32, arg_offset: u32 },
}

/// The executor: the stack, the call-info sequence, the root table, the
/// object heap, the registered native closures, and optional per-opcode
/// counters.
pub struct Executor<N> {
    stack: Stack,
    callstack: Vec<CallInfo>,
    roottable: Object,
    heap: Heap,
    natives: Vec<NativeClosure<N>>,
    profiling: Profiling,
    pub instr_profiling: bool,
    calls_taken: Ghost<nat>,
    rets_taken: Ghost<nat>,
}

impl<N: NativeFunc> Executor<N> {
    /// The value stack, as a value.
    pub closed spec fn spec_stack(&self) -> Stack {
        self.stack
    }

    /// The heap, as a value.
    pub closed spec fn spec_heap(&self) -> Heap {
        self.heap
    }

    /// The root table value.
    pub closed spec fn spec_roottable(&self) -> ObjView {
        self.roottable@
    }

    /// The number of active invocations.
    pub closed spec fn depth(&self) -> nat {
        self.callstack@.len()
    }

    /// Whether the innermost invocation is a root frame, whose return ends
    /// `execute`.
    pub closed spec fn top_is_root(&self) -> bool {
        self.depth() > 0 && self.callstack@.last().root
    }

    /// How many calls the dispatch loop has started.
    pub closed spec fn spec_calls(&self) -> nat {
        self.calls_taken@
    }

    /// How many returns the dispatch loop has taken.
    pub closed spec fn spec_rets(&self) -> nat {
        self.rets_taken@
    }

    /// The per-opcode execution counters.
    pub closed spec fn spec_profile(&self) -> Seq<u64> {
        self.profiling@
    }

    /// The number of registered native closures.
    pub closed spec fn spec_natives_len(&self) -> nat {
        self.natives@.len()
    }

    /// Whether per-opcode counting is switched on.
    pub closed spec fn spec_instr_profiling(&self) -> bool {
        self.instr_profiling
    }

    /// The callable value of the innermost invocation.
    pub closed spec fn spec_top_closure(&self) -> ObjView {
        self.callstack@.last().closure@
    }

    /// The instruction pointer of the innermost invocation.
    pub closed spec fn spec_top_ip(&self) -> int {
        self.callstack@.last().ip as int
    }

    /// Executor well-formedness: the stack is well formed, every table of the
    /// heap is well formed, the root table names a live table slot, and every
    /// saved frame is valid.
    pub closed spec fn wf(&self) -> bool {
        &&& self.stack.wf()
        &&& self.heap.tables_wf()
        &&& self.profiling@.len() == 256
        &&& self.roottable@ matches ObjView::Table(t) && (t as int) < self.heap.tables@.len()
        &&& forall|i: int|
            0 <= i < self.callstack@.len() ==> frame_valid(
                (#[trigger] self.callstack@[i]).prevframe,
            )
    }

    /// An executor with an empty stack, no active call, and a fresh, empty
    /// root table.
    pub fn new() -> (r: Executor<N>)
        ensures
            r.wf(),
            r.depth() == 0,
            r.spec_calls() == 0,
            r.spec_rets() == 0,
            r.spec_natives_len() == 0,
            r.spec_stack().wf(),
            r.spec_stack().spec_base() == 1,
            r.spec_stack().spec_top() == 1,
            forall|i: int| 0 <= i < STACK_CAPACITY ==> r.spec_stack()@[i] == ObjView::Null,
            r.spec_roottable() matches ObjView::Table(t) && r.spec_heap().tables_view()
                == seq![Seq::<(ObjView, ObjView)>::empty()] && t == 0,
            r.spec_heap().arrays_view().len() == 0,
            r.spec_heap().protos@.len() == 0,
            !r.spec_instr_profiling(),
    {
        let mut heap = Heap::new();
        let rt = heap.alloc_table();
        let r = Executor {
            stack: Stack::new(),
            callstack: Vec::new(),
            roottable: Object::Table(rt),
            heap,
            natives: Vec::new(),
            profiling: Profiling::new(),
            instr_profiling: false,
            calls_taken: Ghost(0),
            rets_taken: Ghost(0),
        };
        proof {
            assert(r.spec_heap().tables_view() =~= seq![Seq::<(ObjView, ObjView)>::empty()]);
        }
        r
    }

    /// Mutable access to the stack, for pushing call arguments.  As long as
    /// the borrower leaves the stack well formed, the executor stays well
    /// formed.
    pub fn stack(&mut self) -> (r: &mut Stack)
        ensures
            *r == old(self).spec_stack(),
            final(self).spec_stack() == *final(r),
            final(self).spec_heap() == old(self).spec_heap(),
            final(self).spec_roottable() == old(self).spec_roottable(),
            final(self).depth() == old(self).depth(),
            final(self).top_is_root() == old(self).top_is_root(),
            final(self).spec_calls() == old(self).spec_calls(),
            final(self).spec_rets() == old(self).spec_rets(),
            final(self).spec_natives_len() == old(self).spec_natives_len(),
            old(self).wf() && final(r).wf() ==> final(self).wf(),
    {
        &mut self.stack
    }

    /// Mutable access to the heap, for the loader.  A borrower that keeps
    /// every table well formed and only adds slots leaves the executor well
    /// formed.
    pub fn heap_mut(&mut self) -> (r: &mut Heap)
        ensures
            *r == old(self).spec_heap(),
            final(self).spec_heap() == *final(r),
            final(self).spec_stack() == old(self).spec_stack(),
            final(self).spec_roottable() == old(self).spec_roottable(),
            final(self).depth() == old(self).depth(),
            final(self).top_is_root() == old(self).top_is_root(),
            final(self).spec_calls() == old(self).spec_calls(),
            final(self).spec_rets() == old(self).spec_rets(),
            final(self).spec_natives_len() == old(self).spec_natives_len(),
            old(self).wf() && final(r).tables_wf() && old(self).spec_heap().tables@.len()
                <= final(r).tables@.len() ==> final(self).wf(),
    {
        &mut self.heap
    }

    /// Read access to the heap.
    pub fn heap(&self) -> (r: &Heap)
        ensures
            *r == self.spec_heap(),
    {
        &self.heap
    }

    /// The number of active invocations, for embedders.
    pub fn callstack_depth(&self) -> (r: usize)
        ensures
            r == self.depth(),
    {
        self.callstack.len()
    }

    /// The last-known location for postmortems: the source name and function
    /// name of the innermost invocation's prototype, and its instruction
    /// pointer.  `None` when no invocation is active or its callable does not
    /// resolve.
    pub fn current_location(&self) -> (r: Option<(Object, Object, usize)>)
        requires
            self.wf(),
        ensures
            match r {
                Some(loc) => {
                    &&& self.depth() > 0
                    &&& spec_closure_proto(self.spec_heap(), self.spec_top_closure()) matches Some(
                        pid,
                    )
                    &&& loc.0@ == self.spec_heap().protos@[spec_closure_proto(
                        self.spec_heap(),
                        self.spec_top_closure(),
                    ).unwrap()].source_name@
                    &&& loc.1@ == self.spec_heap().protos@[spec_closure_proto(
                        self.spec_heap(),
                        self.spec_top_closure(),
                    ).unwrap()].name@
                    &&& loc.2 == self.spec_top_ip()
                },
                None => self.depth() == 0 || spec_closure_proto(
                    self.spec_heap(),
                    self.spec_top_closure(),
                ) is None,
            },
    {
        let n = self.callstack.len();
        if n == 0 {
            return None;
        }
        let ci = &self.callstack[n - 1];
        let cid = match ci.closure.closure() {
            Ok(c) => c,
            Err(_) => {
                return None;
            },
        };
        if cid >= self.heap.closures.len() {
            return None;
        }
        let pid = match self.heap.closures[cid].func_proto.func_proto() {
            Ok(p) => p,
            Err(_) => {
                return None;
            },
        };
        if pid >= self.heap.protos.len() {
            return None;
        }
        let fp = &self.heap.protos[pid];
        Some((fp.source_name.clone(), fp.name.clone(), ci.ip))
    }

    /// The execution count recorded for an opcode byte.
    pub fn opcode_count(&self, opcode: u8) -> (r: u64)
        requires
            self.wf(),
        ensures
            r == self.spec_profile()[opcode as int],
    {
        self.profiling.count(opcode)
    }

    /// Clones the root table value onto the stack: callers share the one
    /// root table.
    pub fn push_roottable(&mut self)
        requires
            old(self).wf(),
            old(self).spec_stack().spec_top() < STACK_CAPACITY,
        ensures
            final(self).wf(),
            final(self).spec_stack()@ == old(self).spec_stack()@.update(
                old(self).spec_stack().spec_top() as int,
                old(self).spec_roottable(),
            ),
            final(self).spec_stack().spec_base() == old(self).spec_stack().spec_base(),
            final(self).spec_stack().spec_top() == old(self).spec_stack().spec_top() + 1,
            final(self).spec_heap() == old(self).spec_heap(),
            final(self).spec_roottable() == old(self).spec_roottable(),
            final(self).depth() == old(self).depth(),
            final(self).top_is_root() == old(self).top_is_root(),
            final(self).spec_calls() == old(self).spec_calls(),
            final(self).spec_rets() == old(self).spec_rets(),
    {
        let rt = self.roottable.clone();
        self.stack.push(rt);
    }

    /// Registers a host function in the root table under `String(name)`.
    pub fn add_native_func(&mut self, name: &str, closure: NativeClosure<N>) -> (r: Result<
        (),
        Error,
    >)
        requires
            old(self).wf(),
        ensures
            final(self).wf(),
            r is Ok,
            final(self).spec_natives_len() == old(self).spec_natives_len() + 1,
            final(self).spec_stack() == old(self).spec_stack(),
            final(self).depth() == old(self).depth(),
            final(self).top_is_root() == old(self).top_is_root(),
            final(self).spec_calls() == old(self).spec_calls(),
            final(self).spec_rets() == old(self).spec_rets(),
            final(self).spec_roottable() == old(self).spec_roottable(),
            final(self).spec_heap().arrays_view() == old(self).spec_heap().arrays_view(),
            final(self).spec_heap().protos@ == old(self).spec_heap().protos@,
            final(self).spec_heap().closures@ == old(self).spec_heap().closures@,
            old(self).spec_roottable() matches ObjView::Table(t) ==> table_lookup(
                final(self).spec_heap().tables_view()[t as int],
                ObjView::String(name@),
            ) == Some(ObjView::NativeClosure(old(self).spec_natives_len() as usize))
                && (forall|k: ObjView|
                !crate::spec_obj_eq(k, ObjView::String(name@)) ==> #[trigger] table_lookup(
                    final(self).spec_heap().tables_view()[t as int],
                    k,
                ) == table_lookup(old(self).spec_heap().tables_view()[t as int], k)),
    {
        let nid = self.natives.len();
        self.natives.push(closure);
        let key = Object::String(name.to_owned());
        let tid: usize = match &self.roottable {
            Object::Table(t) => *t,
            _ => {
                proof {
                    assert(false);
                }
                vstd::pervasive::unreached()
            },
        };
        proof {
            assert(self.heap.tables@[tid as int].wf());
        }
        let res = self.heap.tables[tid].set(&key, Object::NativeClosure(nid));
        proof {
            assert(final(self).heap.tables@ =~= old(self).heap.tables@.update(
                tid as int,
                final(self).heap.tables@[tid as int],
            ));
        }
        match res {
            Ok(()) => Ok(()),
            Err(_) => {
                proof {
                    assert(false);
                }
                vstd::pervasive::unreached()
            },
        }
    }
}

/// The prototype a callable value runs, resolved through the heap: a closure
/// slot holding a prototype value whose slot is live.
pub open spec fn spec_closure_proto(heap: Heap, c: ObjView) -> Option<int> {
    match c {
        ObjView::Closure(cid) => if (cid as int) < heap.closures@.len() {
            match heap.closures@[cid as int].func_proto@ {
                ObjView::FuncProto(pid) => if (pid as int) < heap.protos@.len() {
                    Some(pid as int)
                } else {
                    None
                },
                _ => None,
            }
        } else {
            None
        },
        _ => None,
    }
}

/// When preparing a root frame over the top `num_params + 1` stack slots
/// succeeds: the argument count is sensible, the slots exist in the frame,
/// the callable below the arguments resolves to a prototype, and a frame of
/// that prototype's declared stack size holds the arguments and fits the
/// buffer.
pub open spec fn spec_call_ok(heap: Heap, stack: Stack, num_params: i64) -> bool {
    let top = stack.spec_top() as int;
    let base = stack.spec_base() as int;
    &&& 0 <= num_params
    &&& num_params + 1 <= top - base
    &&& spec_closure_proto(heap, stack@[top - num_params - 1]) matches Some(pid) && {
        let ss = heap.protos@[pid].stacksize;
        &&& num_params <= ss
        &&& top - num_params + ss <= STACK_CAPACITY
    }
}

impl<N: NativeFunc> Executor<N> {
    /// The prototype of the innermost invocation, if its callable resolves.
    spec fn cur_pid(&self) -> Option<int> {
        if self.depth() == 0 {
            None
        } else {
            spec_closure_proto(self.heap, self.callstack@.last().closure@)
        }
    }

    /// Everything but the stack frame and the call stack is untouched.
    spec fn core_unchanged(pre: Self, post: Self) -> bool {
        &&& post.heap == pre.heap
        &&& post.roottable == pre.roottable
        &&& post.natives == pre.natives
        &&& post.profiling == pre.profiling
        &&& post.instr_profiling == pre.instr_profiling
        &&& post.calls_taken == pre.calls_taken
        &&& post.rets_taken == pre.rets_taken
    }

    /// When starting a call from `stackbase` succeeds: the callable resolves
    /// to a prototype through the heap, and a frame of its declared stack
    /// size fits the buffer.
    spec fn start_call_ok(heap: Heap, closure: Object, stackbase: usize) -> bool {
        spec_closure_proto(heap, closure@) matches Some(pid) && {
            let ss = heap.protos@[pid].stacksize;
            &&& 0 <= ss
            &&& stackbase + ss <= STACK_CAPACITY
        }
    }

    /// Resolves `closure` and pushes a new invocation: the saved frame is the
    /// current one, and the new frame starts at `stackbase` and spans the
    /// callee's declared stack size.  Succeeds exactly when the callable
    /// resolves and the new frame fits; failure leaves the executor
    /// unchanged.
    fn start_call(
        &mut self,
        closure: Object,
        target: Option<i64>,
        num_params: i64,
        stackbase: usize,
    ) -> (r: Result<(), Error>)
        requires
            old(self).wf(),
        ensures
            final(self).wf(),
            Self::core_unchanged(*old(self), *final(self)),
            final(self).stack@ == old(self).stack@,
            r is Ok <==> Self::start_call_ok(old(self).heap, closure, stackbase),
            match r {
                Ok(()) => {
                    &&& spec_closure_proto(old(self).heap, closure@) matches Some(pid)
                    &&& {
                        let pid = spec_closure_proto(old(self).heap, closure@).unwrap();
                        let ss = old(self).heap.protos@[pid].stacksize;
                        &&& 0 <= ss
                        &&& stackbase + ss <= STACK_CAPACITY
                        &&& final(self).callstack@ == old(self).callstack@.push(
                            CallInfo {
                                prevframe: StackFrame {
                                    base: old(self).stack.spec_base(),
                                    top: old(self).stack.spec_top(),
                                },
                                closure: closure,
                                ip: 0,
                                root: false,
                                target: target,
                            },
                        )
                        &&& final(self).stack.spec_base() == stackbase
                        &&& final(self).stack.spec_top() == stackbase + ss
                    }
                },
                Err(e) => {
                    &&& final(self).callstack@ == old(self).callstack@
                    &&& final(self).stack == old(self).stack
                    &&& e.is_runtime()
                },
            },
    {
        let cid = closure.closure()?;
        if cid >= self.heap.closures.len() {
            return Err(Error::RuntimeError("stale closure reference".to_owned()));
        }
        let pid = self.heap.closures[cid].func_proto.func_proto()?;
        if pid >= self.heap.protos.len() {
            return Err(Error::RuntimeError("stale prototype reference".to_owned()));
        }
        let stacksize = self.heap.protos[pid].stacksize;
        if stacksize < 0 {
            return Err(Error::RuntimeError("negative stack size".to_owned()));
        }
        if (stacksize as u64) > (STACK_CAPACITY as u64) || stackbase > STACK_CAPACITY - (
        stacksize as usize) {
            return Err(Error::RuntimeError("stack exhausted".to_owned()));
        }
        let newtop: usize = stackbase + (stacksize as usize);
        let prevframe = self.stack.get_frame();
        self.callstack.push(
            CallInfo { prevframe, closure, ip: 0, root: false, target },
        );
        self.stack.set_frame(StackFrame { base: stackbase, top: newtop });
        Ok(())
    }

    /// Prepares a root frame from the top `num_params + 1` stack slots: the
    /// callable sits below its arguments, becomes register 0 of the callee,
    /// and the arguments follow it.  Returning from this frame ends
    /// `execute`.  Succeeds exactly on `spec_call_ok`; failure leaves the
    /// executor unchanged.
    pub fn call(&mut self, num_params: i64, _retval: bool) -> (r: Result<(), Error>)
        requires
            old(self).wf(),
        ensures
            final(self).wf(),
            final(self).spec_heap() == old(self).spec_heap(),
            final(self).spec_roottable() == old(self).spec_roottable(),
            final(self).spec_calls() == old(self).spec_calls(),
            final(self).spec_rets() == old(self).spec_rets(),
            final(self).spec_natives_len() == old(self).spec_natives_len(),
            final(self).spec_stack()@ == old(self).spec_stack()@,
            r is Ok <==> spec_call_ok(old(self).spec_heap(), old(self).spec_stack(), num_params),
            match r {
                Ok(()) => {
                    &&& final(self).depth() == old(self).depth() + 1
                    &&& final(self).top_is_root()
                    // the callable below the arguments resolved, and the new
                    // frame spans exactly its declared stack size, less the
                    // arguments popped back from the caller's view
                    &&& spec_closure_proto(
                        old(self).spec_heap(),
                        old(self).spec_stack()@[old(self).spec_stack().spec_top() - num_params
                            - 1],
                    ) matches Some(pid) && {
                        let ss = old(self).spec_heap().protos@[pid].stacksize;
                        &&& final(self).spec_stack().spec_base() == old(self).spec_stack().spec_top() - num_params
                        &&& final(self).spec_stack().spec_top() - final(self).spec_stack().spec_base() == ss - num_params
                    }
                },
                Err(e) => {
                    &&& e.is_runtime()
                    &&& final(self).spec_stack() == old(self).spec_stack()
                    &&& final(self).depth() == old(self).depth()
                    &&& final(self).top_is_root() == old(self).top_is_root()
                    &&& final(self).spec_top_closure() == old(self).spec_top_closure()
                    &&& final(self).spec_top_ip() == old(self).spec_top_ip()
                },
            },
    {
        let top = self.stack.frame_top();
        let base = self.stack.frame_base();
        if num_params < 0 {
            return Err(Error::RuntimeError("negative argument count".to_owned()));
        }
        if (num_params as u64) + 1 > ((top - base) as u64) {
            return Err(Error::RuntimeError("too few stack slots for the call".to_owned()));
        }
        let np = num_params as usize;
        let closure = self.stack.up(-(np as i64) - 1).clone();
        // resolve the callable and check the frame before any mutation, so
        // that failure leaves the executor unchanged
        let cid = closure.closure()?;
        if cid >= self.heap.closures.len() {
            return Err(Error::RuntimeError("stale closure reference".to_owned()));
        }
        let pid = self.heap.closures[cid].func_proto.func_proto()?;
        if pid >= self.heap.protos.len() {
            return Err(Error::RuntimeError("stale prototype reference".to_owned()));
        }
        let stacksize = self.heap.protos[pid].stacksize;
        if stacksize < num_params {
            return Err(Error::RuntimeError("stack size below argument count".to_owned()));
        }
        let newbase: usize = top - np;
        if (stacksize as u64) > (STACK_CAPACITY as u64) || newbase > STACK_CAPACITY - (
        stacksize as usize) {
            return Err(Error::RuntimeError("stack exhausted".to_owned()));
        }
        let res = self.start_call(closure, Some((top as i64) - num_params), num_params, newbase);
        match res {
            Ok(()) => {},
            Err(_) => {
                proof {
                    assert(false);
                }
                return vstd::pervasive::unreached();
            },
        }
        let n = self.callstack.len();
        self.callstack[n - 1].root = true;
        self.stack.pop(num_params);
        Ok(())
    }

    /// Fetches the instruction under the innermost invocation's instruction
    /// pointer, together with the prototype that holds it.
    fn fetch(&self) -> (r: Result<(Instruction, usize), Error>)
        requires
            self.wf(),
            self.depth() > 0,
        ensures
            match r {
                Ok((instr, pid)) => {
                    &&& self.cur_pid() == Some(pid as int)
                    &&& (self.callstack@.last().ip as int)
                        < self.heap.protos@[pid as int].instructions@.len()
                    &&& self.heap.protos@[pid as int].instructions@.len() <= usize::MAX
                    &&& instr == self.heap.protos@[pid as int].instructions@[self.callstack@.last().ip as int]
                },
                Err(e) => e.is_runtime(),
            },
    {
        let n = self.callstack.len();
        let ci = &self.callstack[n - 1];
        let cid = ci.closure.closure()?;
        if cid >= self.heap.closures.len() {
            return Err(Error::RuntimeError("stale closure reference".to_owned()));
        }
        let pid = self.heap.closures[cid].func_proto.func_proto()?;
        if pid >= self.heap.protos.len() {
            return Err(Error::RuntimeError("stale prototype reference".to_owned()));
        }
        let fp = &self.heap.protos[pid];
        let ilen: usize = fp.instructions.len();
        if ci.ip >= ilen {
            return Err(Error::RuntimeError("instruction pointer out of range".to_owned()));
        }
        Ok((fp.instructions[ci.ip], pid))
    }

    /// Advances the innermost instruction pointer past the fetched
    /// instruction.
    fn advance_ip(&mut self)
        requires
            old(self).wf(),
            old(self).depth() > 0,
            old(self).callstack@.last().ip + 1 <= usize::MAX,
        ensures
            final(self).wf(),
            Self::core_unchanged(*old(self), *final(self)),
            final(self).stack == old(self).stack,
            final(self).callstack@ == old(self).callstack@.update(
                old(self).depth() - 1,
                CallInfo {
                    prevframe: old(self).callstack@.last().prevframe,
                    closure: old(self).callstack@.last().closure,
                    ip: (old(self).callstack@.last().ip + 1) as usize,
                    root: old(self).callstack@.last().root,
                    target: old(self).callstack@.last().target,
                },
            ),
    {
        let n = self.callstack.len();
        let ci = &mut self.callstack[n - 1];
        ci.ip = ci.ip + 1;
    }

    /// Moves the innermost instruction pointer by `delta` relative to the
    /// slot after the current instruction, as the jump opcodes do.
    fn jump_rel(&mut self, delta: i64) -> (r: Result<(), Error>)
        requires
            old(self).wf(),
            old(self).depth() > 0,
        ensures
            final(self).wf(),
            Self::core_unchanged(*old(self), *final(self)),
            final(self).stack == old(self).stack,
            match r {
                Ok(()) => {
                    &&& 0 <= old(self).callstack@.last().ip + delta <= usize::MAX
                    &&& final(self).callstack@ == old(self).callstack@.update(
                        old(self).depth() - 1,
                        CallInfo {
                            prevframe: old(self).callstack@.last().prevframe,
                            closure: old(self).callstack@.last().closure,
                            ip: (old(self).callstack@.last().ip + delta) as usize,
                            root: old(self).callstack@.last().root,
                            target: old(self).callstack@.last().target,
                        },
                    )
                },
                Err(e) => final(self).callstack@ == old(self).callstack@ && e.is_runtime(),
            },
    {
        let n = self.callstack.len();
        let ip = self.callstack[n - 1].ip;
        let new_ip: Option<usize> = if delta >= 0 {
            if (delta as u64) <= (usize::MAX as u64) {
                ip.checked_add(delta as usize)
            } else {
                None
            }
        } else if delta == i64::MIN {
            None
        } else {
            let mag = (-delta) as u64;
            if mag <= (usize::MAX as u64) {
                ip.checked_sub(mag as usize)
            } else {
                None
            }
        };
        match new_ip {
            Some(ipn) => {
                let ci = &mut self.callstack[n - 1];
                ci.ip = ipn;
                Ok(())
            },
            None => Err(Error::RuntimeError("jump outside the instruction stream".to_owned())),
        }
    }
}

impl<N: NativeFunc> Executor<N> {
    /// A closure call pushed one non-root invocation saving the caller's
    /// frame, and was counted: the new frame starts `stack_inc` slots above
    /// the caller's base and spans the callee's declared stack size; the
    /// stack's contents and the heap are untouched.
    spec fn spec_pushed_call(
        pre: Self,
        post: Self,
        closure: Object,
        target: Option<i64>,
        stack_inc: u32,
    ) -> bool {
        &&& post.callstack@ == pre.callstack@.push(
            CallInfo {
                prevframe: StackFrame { base: pre.stack.spec_base(), top: pre.stack.spec_top() },
                closure: closure,
                ip: 0,
                root: false,
                target: target,
            },
        )
        &&& post.calls_taken@ == pre.calls_taken@ + 1
        &&& post.stack@ == pre.stack@
        &&& spec_closure_proto(pre.heap, closure@) matches Some(pid) && {
            let ss = pre.heap.protos@[pid].stacksize;
            &&& 0 <= ss
            &&& post.stack.spec_base() == pre.stack.spec_base() + stack_inc
            &&& post.stack.spec_top() == post.stack.spec_base() + ss
        }
        &&& post.heap == pre.heap
        &&& post.roottable == pre.roottable
        &&& post.natives == pre.natives
        &&& post.instr_profiling == pre.instr_profiling
    }

    /// A native ran inside a temporary frame that was restored; the call
    /// stack, the heap and the counters are untouched, and the stack is left
    /// well formed, though the native may have rewritten its contents.
    spec fn spec_native_ran(pre: Self, post: Self) -> bool {
        &&& post.callstack@ == pre.callstack@
        &&& post.stack.spec_base() == pre.stack.spec_base()
        &&& post.stack.spec_top() == pre.stack.spec_top()
        &&& post.stack.wf()
        &&& post.calls_taken == pre.calls_taken
        &&& post.heap == pre.heap
        &&& post.roottable == pre.roottable
        &&& post.natives == pre.natives
        &&& post.instr_profiling == pre.instr_profiling
    }

    /// Performs the `Call` control token: a closure gets a fresh invocation
    /// whose frame starts `stack_inc` slots above the caller's base; a native
    /// closure runs at once inside a temporary frame over its arguments,
    /// which is restored afterwards.
    fn do_call(
        &mut self,
        closure: Object,
        target: Option<i64>,
        call_args: i64,
        stack_inc: u32,
    ) -> (r: Result<(), Error>)
        requires
            old(self).wf(),
            old(self).depth() > 0,
        ensures
            final(self).wf(),
            final(self).heap == old(self).heap,
            final(self).roottable == old(self).roottable,
            final(self).natives == old(self).natives,
            final(self).profiling == old(self).profiling,
            final(self).rets_taken == old(self).rets_taken,
            match r {
                Ok(()) => (Self::spec_pushed_call(
                    *old(self),
                    *final(self),
                    closure,
                    target,
                    stack_inc,
                ) || Self::spec_native_ran(*old(self), *final(self))),
                Err(e) => {
                    &&& final(self).callstack@ == old(self).callstack@
                    &&& final(self).stack == old(self).stack
                    &&& final(self).calls_taken == old(self).calls_taken
                    &&& e.is_runtime()
                },
            },
    {
        let base = self.stack.frame_base();
        let new_base_w: u64 = (base as u64) + (stack_inc as u64);
        if new_base_w > (STACK_CAPACITY as u64) {
            return Err(Error::RuntimeError("stack exhausted".to_owned()));
        }
        let new_base: usize = new_base_w as usize;
        let is_native: bool = match &closure {
            Object::NativeClosure(_) => true,
            _ => false,
        };
        if !is_native {
            let is_closure: bool = match &closure {
                Object::Closure(_) => true,
                _ => false,
            };
            if !is_closure {
                return Err(Error::RuntimeError("expected Closure or NativeClosure".to_owned()));
            }
            self.start_call(closure, target, call_args, new_base)?;
            self.calls_taken = Ghost(self.calls_taken@ + 1);
            Ok(())
        } else {
            let nid: usize = match &closure {
                Object::NativeClosure(n) => *n,
                _ => vstd::pervasive::unreached(),
            };
            if nid >= self.natives.len() {
                return Err(Error::RuntimeError("stale native reference".to_owned()));
            }
            let nargs = self.natives[nid].nargs;
            if nargs < 0 {
                return Err(Error::RuntimeError("negative native arity".to_owned()));
            }
            if (nargs as u64) > (STACK_CAPACITY as u64) - new_base_w {
                return Err(Error::RuntimeError("stack exhausted".to_owned()));
            }
            let new_top: usize = new_base + (nargs as usize);
            let last_frame = self.stack.get_frame();
            self.stack.set_frame(StackFrame { base: new_base, top: new_top });
            self.natives[nid].func.invoke(&mut self.stack);
            self.stack.set_frame(last_frame);
            Ok(())
        }
    }

    /// Performs the `TailCall` control token: moves the arguments down to
    /// the frame's first registers by swapping, replaces the innermost
    /// invocation's callable, and restarts it at instruction zero.  No
    /// invocation is pushed, so the call stack keeps its depth.
    fn do_tailcall(&mut self, closure: Object, tail_args: u32, arg_offset: u32) -> (r: Result<
        (),
        Error,
    >)
        requires
            old(self).wf(),
            old(self).depth() > 0,
        ensures
            final(self).wf(),
            Self::core_unchanged(*old(self), *final(self)),
            final(self).stack.spec_base() == old(self).stack.spec_base(),
            final(self).stack.spec_top() == old(self).stack.spec_top(),
            final(self).depth() == old(self).depth(),
            match r {
                Ok(()) => final(self).callstack@ == old(self).callstack@.update(
                    old(self).depth() - 1,
                    CallInfo {
                        prevframe: old(self).callstack@.last().prevframe,
                        closure: closure,
                        ip: 0,
                        root: old(self).callstack@.last().root,
                        target: old(self).callstack@.last().target,
                    },
                ),
                Err(e) => final(self).callstack@ == old(self).callstack@ && e.is_runtime(),
            },
    {
        let cid = closure.closure()?;
        if cid >= self.heap.closures.len() {
            return Err(Error::RuntimeError("stale closure reference".to_owned()));
        }
        let pid = self.heap.closures[cid].func_proto.func_proto()?;
        if pid >= self.heap.protos.len() {
            return Err(Error::RuntimeError("stale prototype reference".to_owned()));
        }
        let base = self.stack.frame_base();
        if (base as u64) + (arg_offset as u64) + (tail_args as u64) > (STACK_CAPACITY as u64) {
            return Err(Error::RuntimeError("tail call arguments outside the stack".to_owned()));
        }
        let mut i: u32 = 0;
        while i < tail_args
            invariant
                i <= tail_args,
                self.wf(),
                self.stack.spec_base() == old(self).stack.spec_base(),
                self.stack.spec_top() == old(self).stack.spec_top(),
                self.stack.spec_base() + arg_offset + tail_args <= STACK_CAPACITY,
                self.callstack@ == old(self).callstack@,
                Self::core_unchanged(*old(self), *self),
            decreases tail_args - i,
        {
            self.stack.swap(i as i64, (arg_offset as i64) + (i as i64));
            i = i + 1;
        }
        let n = self.callstack.len();
        let ci = &mut self.callstack[n - 1];
        ci.closure = closure;
        ci.ip = 0;
        Ok(())
    }

    /// Performs the `LeaveFrame` control token for a non-root invocation:
    /// restores the caller's frame, pops the invocation, and writes the
    /// return value into the caller's requested register, if any.
    fn leave_frame(&mut self, retval: Object) -> (r: Result<(), Error>)
        requires
            old(self).wf(),
            old(self).depth() > 0,
        ensures
            final(self).wf(),
            final(self).heap == old(self).heap,
            final(self).roottable == old(self).roottable,
            final(self).natives == old(self).natives,
            final(self).profiling == old(self).profiling,
            final(self).instr_profiling == old(self).instr_profiling,
            final(self).calls_taken == old(self).calls_taken,
            match r {
                Ok(()) => {
                    &&& old(self).depth() >= 2
                    &&& final(self).depth() == old(self).depth() - 1
                    &&& final(self).callstack@ == old(self).callstack@.drop_last()
                    &&& final(self).rets_taken@ == old(self).rets_taken@ + 1
                    &&& final(self).stack.spec_base()
                        == old(self).callstack@.last().prevframe.base
                    &&& final(self).stack.spec_top() == old(self).callstack@.last().prevframe.top
                    &&& match old(self).callstack@.last().target {
                        None => final(self).stack@ == old(self).stack@,
                        Some(t) => final(self).stack@ == old(self).stack@.update(
                            old(self).callstack@.last().prevframe.base + t,
                            retval@,
                        ),
                    }
                },
                Err(e) => final(self).rets_taken == old(self).rets_taken && e.is_runtime(),
            },
    {
        let n = self.callstack.len();
        let prevframe = self.callstack[n - 1].prevframe;
        let target = self.callstack[n - 1].target;
        self.stack.set_frame(prevframe);
        self.callstack.pop();
        if self.callstack.is_empty() {
            return Err(Error::RuntimeError("callstack empty".to_owned()));
        }
        match target {
            Some(t) => {
                let b = self.stack.frame_base();
                if t < 0 || (t as u64) >= (STACK_CAPACITY as u64) - (b as u64) {
                    return Err(Error::RuntimeError("return target outside the stack".to_owned()));
                }
                self.stack.set_value(t, retval);
            },
            None => {},
        }
        self.rets_taken = Ghost(self.rets_taken@ + 1);
        Ok(())
    }
}

/// The stack invariant: a well-formed stack keeps its frame inside the
/// buffer, in order, and the buffer at its fixed capacity.  Every stack
/// operation and every step of the dispatch loop preserves
/// well-formedness, so this holds at every instruction boundary.
pub proof fn lemma_stack_frame_bounds(s: Stack)
    requires
        s.wf(),
    ensures
        s.spec_base() <= s.spec_top() <= STACK_CAPACITY,
        s@.len() == STACK_CAPACITY,
{
}

/// Arithmetic identities of the integer opcodes: subtracting the right
/// operand from a sum, then adding zero, returns the left operand, and
/// multiplication commutes.
pub proof fn lemma_arith_identities(a: i64, b: i64)
    ensures
        ({
            let s = spec_arith_int(Opcode::ADD, a, b).unwrap();
            let d = spec_arith_int(Opcode::SUB, s, b).unwrap();
            spec_arith_int(Opcode::ADD, d, 0) == Some(a)
        }),
        spec_arith_int(Opcode::MUL, a, b) == spec_arith_int(Opcode::MUL, b, a),
{
    vstd::arithmetic::mul::lemma_mul_is_commutative(a as int, b as int);
}

/// `JZ` falls through exactly when the register holds the boolean true, a
/// non-zero integer, or any string at all.
pub proof fn lemma_jz_truthiness(v: ObjView)
    ensures
        spec_truthy(v) == Some(true) <==> (v == ObjView::Bool(true) || (v matches ObjView::Integer(
            i,
        ) && i != 0) || v is String),
{
}

/// Array `len` delegation: keyed access on any array under the string key
/// `"len"` yields the array's length as an integer.
pub proof fn lemma_array_len_delegation(
    tables: Seq<Seq<(ObjView, ObjView)>>,
    arrays: Seq<Seq<ObjView>>,
    a: usize,
)
    requires
        (a as int) < arrays.len(),
        arrays[a as int].len() <= i64::MAX,
    ensures
        spec_get(tables, arrays, ObjView::Array(a), ObjView::String("len"@)) == Some(
            ObjView::Integer(arrays[a as int].len() as i64),
        ),
{
}

/// The boolean reading of a value, exactly `spec_truthy`.
fn truthy(v: &Object) -> (r: Result<bool, Error>)
    ensures
        match r {
            Ok(b) => spec_truthy(v@) == Some(b),
            Err(e) => spec_truthy(v@) is None && e.is_runtime(),
        },
{
    match v {
        Object::Bool(b) => Ok(*b),
        Object::Integer(i) => Ok(*i != 0),
        Object::Null => Ok(false),
        Object::String(_) => Ok(true),
        _ => Err(Error::RuntimeError("unsupported condition".to_owned())),
    }
}

/// The `EQ` comparison, exactly `spec_eq_result`.
fn eq_objects(a: &Object, b: &Object) -> (r: Result<bool, Error>)
    ensures
        match r {
            Ok(res) => spec_eq_result(a@, b@) == Some(res),
            Err(e) => spec_eq_result(a@, b@) is None && e.is_runtime(),
        },
{
    match (a, b) {
        (Object::Integer(x), Object::Integer(y)) => Ok(*x == *y),
        (Object::String(x), Object::String(y)) => Ok(x.eq(y)),
        _ => Err(Error::RuntimeError("unhandled comparison operands".to_owned())),
    }
}

impl<N: NativeFunc> Executor<N> {
    /// The call stack has the same shape: same depth, every outer entry
    /// untouched, and the innermost entry changed at most in its
    /// instruction pointer.
    spec fn same_call_shape(pre: Self, post: Self) -> bool {
        &&& post.callstack@.len() == pre.callstack@.len()
        &&& forall|i: int|
            0 <= i < pre.callstack@.len() - 1 ==> post.callstack@[i] == pre.callstack@[i]
        &&& pre.callstack@.len() > 0 ==> {
            &&& post.callstack@.last().prevframe == pre.callstack@.last().prevframe
            &&& post.callstack@.last().closure == pre.callstack@.last().closure
            &&& post.callstack@.last().root == pre.callstack@.last().root
            &&& post.callstack@.last().target == pre.callstack@.last().target
        }
    }

    /// A literal of the prototype, cloned.
    fn literal(&self, pid: usize, idx: u32) -> (r: Result<Object, Error>)
        requires
            self.wf(),
            (pid as int) < self.heap.protos@.len(),
        ensures
            match r {
                Ok(v) => (idx as int) < self.heap.protos@[pid as int].literals@.len() && v@
                    == self.heap.protos@[pid as int].literals@[idx as int]@,
                Err(e) => (idx as int) >= self.heap.protos@[pid as int].literals@.len()
                    && e.is_runtime(),
            },
    {
        let fp = &self.heap.protos[pid];
        if (idx as u64) < (fp.literals.len() as u64) {
            Ok(fp.literals[idx as usize].clone())
        } else {
            Err(Error::RuntimeError("literal index out of range".to_owned()))
        }
    }

    /// A nested prototype slot of the prototype.
    fn proto_function(&self, pid: usize, idx: u32) -> (r: Result<usize, Error>)
        requires
            self.wf(),
            (pid as int) < self.heap.protos@.len(),
        ensures
            match r {
                Ok(fid) => (idx as int) < self.heap.protos@[pid as int].functions@.len() && fid
                    == self.heap.protos@[pid as int].functions@[idx as int],
                Err(e) => (idx as int) >= self.heap.protos@[pid as int].functions@.len()
                    && e.is_runtime(),
            },
    {
        let fp = &self.heap.protos[pid];
        if (idx as u64) < (fp.functions.len() as u64) {
            Ok(fp.functions[idx as usize])
        } else {
            Err(Error::RuntimeError("function index out of range".to_owned()))
        }
    }

    /// The register range `arg0 .. arg0 + arg1` reads as null and the rest
    /// of the buffer is untouched.
    spec fn nulled_range(pre: Self, post: Self, instr: Instruction) -> bool {
        let base = pre.stack.spec_base() as int;
        &&& post.stack@.len() == pre.stack@.len()
        &&& forall|k: int|
            0 <= k < pre.stack@.len() ==> post.stack@[k] == (if base + instr.arg0 <= k < base
                + instr.arg0 + instr.arg1 {
                ObjView::Null
            } else {
                pre.stack@[k]
            })
    }

    /// `LOADNULLS`: clears the registers `arg0 .. arg0 + arg1`.
    fn op_loadnulls(&mut self, instr: Instruction) -> (r: Result<(), Error>)
        requires
            old(self).wf(),
        ensures
            final(self).wf(),
            Self::core_unchanged(*old(self), *final(self)),
            final(self).callstack@ == old(self).callstack@,
            final(self).stack.spec_base() == old(self).stack.spec_base(),
            final(self).stack.spec_top() == old(self).stack.spec_top(),
            r matches Err(e) ==> e.is_runtime(),
            r is Ok ==> Self::nulled_range(*old(self), *final(self), instr),
    {
        let count: u32 = instr.arg1;
        let first: u32 = instr.arg0 as u32;
        let mut i: u32 = 0;
        while i < count
            invariant
                self.wf(),
                i <= count,
                Self::core_unchanged(*old(self), *self),
                self.callstack@ == old(self).callstack@,
                self.stack.spec_base() == old(self).stack.spec_base(),
                self.stack.spec_top() == old(self).stack.spec_top(),
                first == instr.arg0 as u32,
                count == instr.arg1,
                self.stack@.len() == old(self).stack@.len(),
                forall|k: int|
                    0 <= k < old(self).stack@.len() ==> self.stack@[k] == (
                    if old(self).stack.spec_base() + first <= k < old(self).stack.spec_base()
                        + first + i {
                        ObjView::Null
                    } else {
                        old(self).stack@[k]
                    }),
            decreases count - i,
        {
            let idx: u64 = (first as u64) + (i as u64);
            if idx > (u32::MAX as u64) {
                return Err(Error::RuntimeError("register outside the stack".to_owned()));
            }
            self.stack.reg_set(idx as u32, Object::Null)?;
            i = i + 1;
        }
        Ok(())
    }

    /// One iteration step over the array in `R[arg0]`: while elements
    /// remain, the out-key, out-value and stored index at `R[arg2]`,
    /// `R[arg2+1]` and `R[arg2+2]` are written and the step falls through
    /// the following instruction; once exhausted, the exit jump is taken.
    spec fn foreach_effect(pre: Self, post: Self, instr: Instruction) -> bool {
        let base = pre.stack.spec_base() as int;
        let stored = pre.stack@[base + instr.arg2 + 2];
        let idxv: Option<i64> = match stored {
            ObjView::Null => Some(0i64),
            ObjView::Integer(i) => Some(i),
            _ => None,
        };
        &&& base + instr.arg2 + 2 < STACK_CAPACITY
        &&& idxv matches Some(idx)
        &&& Self::reg_view(pre, instr.arg0 as int) matches ObjView::Array(a) && (a as int)
            < pre.heap.arrays_view().len() && {
            let arr = pre.heap.arrays_view()[a as int];
            if 0 <= idx < arr.len() {
                &&& idx < i64::MAX
                &&& post.stack@ == pre.stack@.update(base + instr.arg2, ObjView::Integer(idx))
                    .update(base + instr.arg2 + 1, arr[idx as int]).update(
                    base + instr.arg2 + 2,
                    ObjView::Integer((idx + 1) as i64),
                )
                &&& Self::ip_of(post) == Self::ip_of(pre) + 1
            } else {
                &&& post.stack@ == pre.stack@
                &&& Self::ip_of(post) == Self::ip_of(pre) + crate::bytecode::spec_sarg1(
                    instr.arg1,
                )
            }
        }
    }

    /// `FOREACH`: steps the iteration over the array in `R[arg0]`, with
    /// out-key, out-value and stored index in `R[arg2]`, `R[arg2+1]` and
    /// `R[arg2+2]`.  While elements remain it writes index and element,
    /// bumps the stored index and falls through the following instruction;
    /// otherwise it takes the exit jump.
    fn op_foreach(&mut self, instr: Instruction) -> (r: Result<(), Error>)
        requires
            old(self).wf(),
            old(self).depth() > 0,
        ensures
            final(self).wf(),
            Self::core_unchanged(*old(self), *final(self)),
            Self::same_call_shape(*old(self), *final(self)),
            final(self).stack.spec_base() == old(self).stack.spec_base(),
            final(self).stack.spec_top() == old(self).stack.spec_top(),
            r matches Err(e) ==> e.is_runtime(),
            r is Ok ==> Self::foreach_effect(*old(self), *final(self), instr),
    {
        let container = self.stack.get_arg0(&instr)?.clone();
        let outkey: u32 = instr.arg2 as u32;
        let outvalue: u32 = (instr.arg2 as u32) + 1;
        let index_pos: u32 = (instr.arg2 as u32) + 2;
        let stored = self.stack.reg_get(index_pos)?;
        let index: i64 = match stored {
            Object::Null => 0,
            Object::Integer(i) => *i,
            _ => {
                return Err(Error::RuntimeError("unexpected iterator index".to_owned()));
            },
        };
        let aid = match container.array() {
            Ok(a) => a,
            Err(_) => {
                return Err(Error::RuntimeError("cannot iterate over this value".to_owned()));
            },
        };
        if aid >= self.heap.arrays.len() {
            return Err(Error::RuntimeError("stale array reference".to_owned()));
        }
        let alen: usize = self.heap.arrays[aid].len();
        if index >= 0 && (index as u64) < (alen as u64) {
            let elem = self.heap.arrays[aid].array[index as usize].clone();
            self.stack.reg_set(outkey, Object::Integer(index))?;
            self.stack.reg_set(outvalue, elem)?;
            if index == i64::MAX {
                return Err(Error::RuntimeError("iterator index overflows".to_owned()));
            }
            self.stack.reg_set(index_pos, Object::Integer(index + 1))?;
            self.jump_rel(1)
        } else {
            self.jump_rel(instr.sarg1())
        }
    }

    /// The value of register `idx` (frame-relative), by view.
    spec fn reg_view(pre: Self, idx: int) -> ObjView {
        pre.stack@[pre.stack.spec_base() + idx]
    }

    /// The stack after writing `v` into the destination register (`arg0`),
    /// with everything else equal.
    spec fn wrote_target(pre: Self, post: Self, instr: Instruction, v: ObjView) -> bool {
        &&& pre.stack.spec_base() + instr.arg0 < STACK_CAPACITY
        &&& post.stack@ == pre.stack@.update(pre.stack.spec_base() + instr.arg0, v)
    }

    /// The innermost instruction pointer, after the fetch advanced it.
    spec fn ip_of(s: Self) -> int {
        s.callstack@.last().ip as int
    }

    /// What each opcode did, stated for the opcodes whose whole effect fits
    /// a register-level description: where the arm succeeded, the
    /// destination holds the defined result, jumps moved the instruction
    /// pointer by their signed offset, `NEWSLOT` performed the table
    /// insertion, and the call-shaped opcodes handed back a faithful
    /// control token.  Opaque so that the dispatch loop can carry it as one
    /// fact; `dispatch` reveals it to prove each arm.
    #[verifier::opaque]
    spec fn dispatch_effect(
        pre: Self,
        post: Self,
        instr: Instruction,
        st: LoopState,
    ) -> bool {
        match crate::bytecode::spec_opcode_from_u8(instr.opcode) {
            Some(Opcode::LOADINT) => {
                &&& st is Continue
                &&& post.heap == pre.heap
                &&& Self::wrote_target(
                    pre,
                    post,
                    instr,
                    ObjView::Integer(crate::bytecode::spec_sarg1(instr.arg1)),
                )
            },
            Some(Opcode::LOAD) => {
                let lits = pre.heap.protos@[pre.cur_pid().unwrap()].literals@.map_values(
                    |o: Object| o@,
                );
                &&& st is Continue
                &&& post.heap == pre.heap
                &&& (instr.arg1 as int) < lits.len()
                &&& Self::wrote_target(pre, post, instr, lits[instr.arg1 as int])
            },
            Some(Opcode::DLOAD) => {
                let lits = pre.heap.protos@[pre.cur_pid().unwrap()].literals@.map_values(
                    |o: Object| o@,
                );
                let base = pre.stack.spec_base() as int;
                &&& st is Continue
                &&& post.heap == pre.heap
                &&& (instr.arg1 as int) < lits.len()
                &&& (instr.arg3 as int) < lits.len()
                &&& base + instr.arg0 < STACK_CAPACITY
                &&& base + instr.arg2 < STACK_CAPACITY
                &&& post.stack@ == pre.stack@.update(base + instr.arg0, lits[instr.arg1 as int])
                    .update(base + instr.arg2, lits[instr.arg3 as int])
            },
            Some(Opcode::MOVE) => {
                &&& st is Continue
                &&& post.heap == pre.heap
                &&& Self::wrote_target(pre, post, instr, Self::reg_view(pre, instr.arg1 as int))
            },
            Some(Opcode::DMOVE) => {
                let base = pre.stack.spec_base() as int;
                let mid = pre.stack@.update(base + instr.arg0, pre.stack@[base + instr.arg1]);
                &&& st is Continue
                &&& post.heap == pre.heap
                &&& base + instr.arg0 < STACK_CAPACITY
                &&& base + instr.arg1 < STACK_CAPACITY
                &&& base + instr.arg2 < STACK_CAPACITY
                &&& base + instr.arg3 < STACK_CAPACITY
                &&& post.stack@ == mid.update(base + instr.arg2, mid[base + instr.arg3])
            },
            Some(Opcode::CLONE) => {
                &&& st is Continue
                &&& post.heap.closures@ == pre.heap.closures@
                &&& exists|v: ObjView|
                    crate::spec_cloned_into(
                        pre.heap,
                        post.heap,
                        Self::reg_view(pre, instr.arg1 as int),
                        v,
                    ) && #[trigger] Self::wrote_target(pre, post, instr, v)
            },
            Some(Opcode::NEWOBJ) => {
                match crate::bytecode::spec_new_object_type_from_u8(instr.arg3) {
                    Some(crate::bytecode::NewObjectType::Table) => {
                        &&& st is Continue
                        &&& post.heap.arrays@ == pre.heap.arrays@
                        &&& post.heap.closures@ == pre.heap.closures@
                        &&& post.heap.tables_view() == pre.heap.tables_view().push(
                            Seq::<(ObjView, ObjView)>::empty(),
                        )
                        &&& Self::wrote_target(
                            pre,
                            post,
                            instr,
                            ObjView::Table(pre.heap.tables_view().len() as usize),
                        )
                    },
                    Some(crate::bytecode::NewObjectType::Array) => {
                        &&& st is Continue
                        &&& post.heap.tables@ == pre.heap.tables@
                        &&& post.heap.closures@ == pre.heap.closures@
                        &&& post.heap.arrays_view() == pre.heap.arrays_view().push(
                            Seq::<ObjView>::empty(),
                        )
                        &&& Self::wrote_target(
                            pre,
                            post,
                            instr,
                            ObjView::Array(pre.heap.arrays_view().len() as usize),
                        )
                    },
                    None => false,
                }
            },
            Some(Opcode::TYPEOF) => {
                &&& st is Continue
                &&& post.heap == pre.heap
                &&& Self::wrote_target(
                    pre,
                    post,
                    instr,
                    ObjView::String(
                        crate::spec_typesystem_name(Self::reg_view(pre, instr.arg1 as int)),
                    ),
                )
            },
            Some(Opcode::ADD) | Some(Opcode::SUB) | Some(Opcode::MUL) | Some(Opcode::DIV)
                | Some(Opcode::MOD) => {
                let op = crate::bytecode::spec_opcode_from_u8(instr.opcode).unwrap();
                let res = spec_arith(
                    op,
                    Self::reg_view(pre, instr.arg2 as int),
                    Self::reg_view(pre, instr.arg1 as int),
                );
                &&& st is Continue
                &&& post.heap == pre.heap
                &&& res matches Some(v) && Self::wrote_target(pre, post, instr, v)
            },
            Some(Opcode::EQ) => {
                let lits = pre.heap.protos@[pre.cur_pid().unwrap()].literals@.map_values(
                    |o: Object| o@,
                );
                let rhs = if instr.arg3 != 0 {
                    lits[instr.arg1 as int]
                } else {
                    Self::reg_view(pre, instr.arg1 as int)
                };
                let res = spec_eq_result(Self::reg_view(pre, instr.arg2 as int), rhs);
                &&& st is Continue
                &&& post.heap == pre.heap
                &&& (instr.arg3 != 0 ==> (instr.arg1 as int) < lits.len())
                &&& res matches Some(bv) && Self::wrote_target(pre, post, instr, ObjView::Bool(bv))
            },
            Some(Opcode::JZ) => {
                let cond = spec_truthy(Self::reg_view(pre, instr.arg0 as int));
                &&& st is Continue
                &&& post.heap == pre.heap
                &&& post.stack@ == pre.stack@
                &&& cond matches Some(bv) && (if bv {
                    Self::ip_of(post) == Self::ip_of(pre)
                } else {
                    Self::ip_of(post) == Self::ip_of(pre) + crate::bytecode::spec_sarg1(instr.arg1)
                })
            },
            Some(Opcode::JMP) => {
                &&& st is Continue
                &&& post.heap == pre.heap
                &&& post.stack@ == pre.stack@
                &&& Self::ip_of(post) == Self::ip_of(pre) + crate::bytecode::spec_sarg1(instr.arg1)
            },
            Some(Opcode::GETK) => {
                let key = pre.heap.protos@[pre.cur_pid().unwrap()].literals@.map_values(
                    |o: Object| o@,
                )[instr.arg1 as int];
                let res = spec_get(
                    pre.heap.tables_view(),
                    pre.heap.arrays_view(),
                    Self::reg_view(pre, instr.arg2 as int),
                    key,
                );
                &&& st is Continue
                &&& post.heap == pre.heap
                &&& res matches Some(v) && Self::wrote_target(pre, post, instr, v)
            },
            Some(Opcode::NEWSLOT) => {
                &&& st is Continue
                &&& post.stack@ == pre.stack@
                &&& post.heap.arrays@ == pre.heap.arrays@
                &&& post.heap.closures@ == pre.heap.closures@
                &&& crate::spec_hashable(Self::reg_view(pre, instr.arg2 as int))
                &&& Self::reg_view(pre, instr.arg1 as int) matches ObjView::Table(t) && (t as int)
                    < pre.heap.tables_view().len() && post.heap.tables_view()
                    == pre.heap.tables_view().update(
                    t as int,
                    crate::object::table_insert(
                        pre.heap.tables_view()[t as int],
                        Self::reg_view(pre, instr.arg2 as int),
                        Self::reg_view(pre, instr.arg3 as int),
                    ),
                )
            },
            Some(Opcode::LOADROOT) => {
                &&& st is Continue
                &&& post.heap == pre.heap
                &&& Self::wrote_target(pre, post, instr, pre.roottable@)
            },
            Some(Opcode::CLOSURE) => {
                let fns = pre.heap.protos@[pre.cur_pid().unwrap()].functions@;
                &&& st is Continue
                &&& post.heap.tables@ == pre.heap.tables@
                &&& post.heap.arrays@ == pre.heap.arrays@
                &&& (instr.arg1 as int) < fns.len()
                &&& post.heap.closures@.len() == pre.heap.closures@.len() + 1
                &&& post.heap.closures@.last().func_proto@ == ObjView::FuncProto(
                    fns[instr.arg1 as int],
                )
                &&& Self::wrote_target(
                    pre,
                    post,
                    instr,
                    ObjView::Closure(pre.heap.closures@.len() as usize),
                )
            },
            Some(Opcode::APPENDARRAY) => {
                let lits = pre.heap.protos@[pre.cur_pid().unwrap()].literals@.map_values(
                    |o: Object| o@,
                );
                let src = match crate::bytecode::spec_append_array_type_from_u8(instr.arg2) {
                    Some(crate::bytecode::AppendArrayType::Stack) => Some(
                        Self::reg_view(pre, instr.arg1 as int),
                    ),
                    Some(crate::bytecode::AppendArrayType::Literal) => if (instr.arg1 as int)
                        < lits.len() {
                        Some(lits[instr.arg1 as int])
                    } else {
                        None
                    },
                    Some(crate::bytecode::AppendArrayType::Int) => Some(
                        ObjView::Integer(crate::bytecode::spec_sarg1(instr.arg1)),
                    ),
                    Some(crate::bytecode::AppendArrayType::Bool) => Some(
                        ObjView::Bool(instr.arg1 != 0),
                    ),
                    _ => None,
                };
                &&& st is Continue
                &&& post.stack@ == pre.stack@
                &&& post.heap.tables@ == pre.heap.tables@
                &&& post.heap.closures@ == pre.heap.closures@
                &&& src matches Some(v) && Self::reg_view(pre, instr.arg0 as int) matches
                    ObjView::Array(a) && (a as int) < pre.heap.arrays_view().len()
                    && post.heap.arrays_view() == pre.heap.arrays_view().update(
                    a as int,
                    pre.heap.arrays_view()[a as int].push(v),
                )
            },
            Some(Opcode::PREPCALL) | Some(Opcode::PREPCALLK) => {
                let lits = pre.heap.protos@[pre.cur_pid().unwrap()].literals@.map_values(
                    |o: Object| o@,
                );
                let is_k = crate::bytecode::spec_opcode_from_u8(instr.opcode)
                    == Some(Opcode::PREPCALLK);
                let key = if is_k {
                    if (instr.arg1 as int) < lits.len() {
                        Some(lits[instr.arg1 as int])
                    } else {
                        None
                    }
                } else {
                    Some(Self::reg_view(pre, instr.arg1 as int))
                };
                let base = pre.stack.spec_base() as int;
                &&& st is Continue
                &&& post.heap == pre.heap
                &&& key matches Some(k) && {
                    let obj = Self::reg_view(pre, instr.arg2 as int);
                    let res = spec_get(pre.heap.tables_view(), pre.heap.arrays_view(), obj, k);
                    &&& res matches Some(v)
                    &&& base + instr.arg3 < STACK_CAPACITY
                    &&& base + instr.arg0 < STACK_CAPACITY
                    &&& post.stack@ == pre.stack@.update(base + instr.arg3, obj).update(
                        base + instr.arg0,
                        v,
                    )
                }
            },
            Some(Opcode::JCMP) => {
                &&& post.heap == pre.heap
                &&& Self::reg_view(pre, instr.arg2 as int) matches ObjView::Integer(xi)
                    && Self::reg_view(pre, instr.arg0 as int) matches ObjView::Integer(yi) && {
                    let tw: i64 = if xi == yi {
                        0i64
                    } else if xi < yi {
                        -1i64
                    } else {
                        1i64
                    };
                    match crate::bytecode::spec_comp_op_from_u8(instr.arg3) {
                        Some(crate::bytecode::CompOp::G) => st is Continue && post.stack@
                            == pre.stack@ && (if tw > 0 {
                            Self::ip_of(post) == Self::ip_of(pre)
                        } else {
                            Self::ip_of(post) == Self::ip_of(pre) + crate::bytecode::spec_sarg1(
                                instr.arg1,
                            )
                        }),
                        Some(crate::bytecode::CompOp::GE) => st is Continue && post.stack@
                            == pre.stack@ && (if tw >= 0 {
                            Self::ip_of(post) == Self::ip_of(pre)
                        } else {
                            Self::ip_of(post) == Self::ip_of(pre) + crate::bytecode::spec_sarg1(
                                instr.arg1,
                            )
                        }),
                        Some(crate::bytecode::CompOp::L) => st is Continue && post.stack@
                            == pre.stack@ && (if tw < 0 {
                            Self::ip_of(post) == Self::ip_of(pre)
                        } else {
                            Self::ip_of(post) == Self::ip_of(pre) + crate::bytecode::spec_sarg1(
                                instr.arg1,
                            )
                        }),
                        Some(crate::bytecode::CompOp::LE) => st is Continue && post.stack@
                            == pre.stack@ && (if tw <= 0 {
                            Self::ip_of(post) == Self::ip_of(pre)
                        } else {
                            Self::ip_of(post) == Self::ip_of(pre) + crate::bytecode::spec_sarg1(
                                instr.arg1,
                            )
                        }),
                        Some(crate::bytecode::CompOp::ThreeWay) => st is Continue
                            && Self::wrote_target(pre, post, instr, ObjView::Integer(tw)),
                        None => false,
                    }
                }
            },
            Some(Opcode::RETURN) => {
                &&& post.stack@ == pre.stack@
                &&& post.heap == pre.heap
                &&& st matches LoopState::LeaveFrame(v) && v@ == (if instr.arg0 == 255 {
                    ObjView::Null
                } else {
                    Self::reg_view(pre, instr.arg1 as int)
                })
            },
            Some(Opcode::CALL) => {
                &&& post.stack@ == pre.stack@
                &&& post.heap == pre.heap
                &&& Self::ip_of(post) == Self::ip_of(pre)
                &&& st matches LoopState::Call { closure, target, call_args, stack_inc }
                    && closure@ == Self::reg_view(pre, instr.arg1 as int) && target == (
                if instr.arg0 != 255 {
                    Some(instr.arg0 as i64)
                } else {
                    None
                }) && call_args == instr.arg3 as i64 && stack_inc == instr.arg2 as u32
            },
            Some(Opcode::TAILCALL) => {
                &&& post.stack@ == pre.stack@
                &&& post.heap == pre.heap
                &&& st matches LoopState::TailCall { closure, tail_args, arg_offset } && closure@
                    == Self::reg_view(pre, instr.arg1 as int) && tail_args == instr.arg3 as u32
                    && arg_offset == instr.arg2 as u32
            },
            Some(Opcode::LOADNULLS) => {
                &&& st is Continue
                &&& post.heap == pre.heap
                &&& Self::nulled_range(pre, post, instr)
            },
            Some(Opcode::FOREACH) => {
                &&& st is Continue
                &&& post.heap == pre.heap
                &&& Self::foreach_effect(pre, post, instr)
            },
            // every opcode outside the supported subset is reported as
            // unsupported and takes no step
            _ => false,
        }
    }

    /// Decodes one instruction's opcode and performs its register-level
    /// effects, handing back the control token for the dispatch stage.
    /// Prototypes, natives, counters and the frame are untouched; only the
    /// innermost instruction pointer, the stack's contents and the object
    /// heap change.  On success the per-opcode effect holds.
    fn dispatch(&mut self, instr: Instruction, pid: usize) -> (r: Result<LoopState, Error>)
        requires
            old(self).wf(),
            old(self).depth() > 0,
            (pid as int) < old(self).heap.protos@.len(),
            old(self).cur_pid() == Some(pid as int),
        ensures
            final(self).wf(),
            final(self).depth() == old(self).depth(),
            Self::same_call_shape(*old(self), *final(self)),
            final(self).stack.spec_base() == old(self).stack.spec_base(),
            final(self).stack.spec_top() == old(self).stack.spec_top(),
            final(self).heap.protos@ == old(self).heap.protos@,
            final(self).natives == old(self).natives,
            final(self).roottable == old(self).roottable,
            final(self).profiling == old(self).profiling,
            final(self).instr_profiling == old(self).instr_profiling,
            final(self).calls_taken == old(self).calls_taken,
            final(self).rets_taken == old(self).rets_taken,
            match r {
                Ok(st) => Self::dispatch_effect(*old(self), *final(self), instr, st),
                Err(e) => e.is_runtime(),
            },
    {
        proof {
            reveal(Executor::dispatch_effect);
        }
        let opcode = match crate::bytecode::opcode_from_u8(instr.opcode) {
            Some(op) => op,
            None => {
                return Err(Error::RuntimeError("unhandled opcode".to_owned()));
            },
        };
        match opcode {
            Opcode::LOADINT => {
                self.stack.set_target(&instr, Object::Integer(instr.sarg1()))?;
                Ok(LoopState::Continue)
            },
            Opcode::LOAD => {
                let v = self.literal(pid, instr.arg1)?;
                self.stack.set_target(&instr, v)?;
                Ok(LoopState::Continue)
            },
            Opcode::DLOAD => {
                let v1 = self.literal(pid, instr.arg1)?;
                self.stack.set_target(&instr, v1)?;
                let v2 = self.literal(pid, instr.arg3 as u32)?;
                self.stack.set_arg2(&instr, v2)?;
                Ok(LoopState::Continue)
            },
            Opcode::TYPEOF => {
                let nm: &'static str = self.stack.get_arg1(&instr)?.typesystem_name();
                self.stack.set_target(&instr, Object::String(nm.to_owned()))?;
                Ok(LoopState::Continue)
            },
            Opcode::MOVE => {
                let src = self.stack.get_arg1(&instr)?.clone();
                self.stack.set_target(&instr, src)?;
                Ok(LoopState::Continue)
            },
            Opcode::DMOVE => {
                let v1 = self.stack.get_arg1(&instr)?.clone();
                self.stack.set_arg0(&instr, v1)?;
                let v3 = self.stack.get_arg3(&instr)?.clone();
                self.stack.set_arg2(&instr, v3)?;
                Ok(LoopState::Continue)
            },
            Opcode::ADD | Opcode::SUB | Opcode::MUL | Opcode::DIV | Opcode::MOD => {
                let op1 = self.stack.get_arg2(&instr)?.clone();
                let op2 = self.stack.get_arg1(&instr)?.clone();
                let res = arith_objects(opcode, &op1, &op2)?;
                self.stack.set_target(&instr, res)?;
                Ok(LoopState::Continue)
            },
            Opcode::EQ => {
                let op1 = self.stack.get_arg2(&instr)?.clone();
                let op2 = if instr.arg3 != 0 {
                    self.literal(pid, instr.arg1)?
                } else {
                    self.stack.get_arg1(&instr)?.clone()
                };
                let res = eq_objects(&op1, &op2)?;
                self.stack.set_target(&instr, Object::Bool(res))?;
                Ok(LoopState::Continue)
            },
            Opcode::JZ => {
                let b = truthy(self.stack.get_arg0(&instr)?)?;
                if !b {
                    self.jump_rel(instr.sarg1())?;
                }
                Ok(LoopState::Continue)
            },
            Opcode::JMP => {
                self.jump_rel(instr.sarg1())?;
                Ok(LoopState::Continue)
            },
            Opcode::JCMP => {
                let x = self.stack.get_arg2(&instr)?.integer()?;
                let y = self.stack.get_arg0(&instr)?.integer()?;
                let three_way: i64 = if x == y {
                    0
                } else if x < y {
                    -1
                } else {
                    1
                };
                match crate::bytecode::comp_op_from_u8(instr.arg3) {
                    Some(crate::bytecode::CompOp::G) => {
                        if !(three_way > 0) {
                            self.jump_rel(instr.sarg1())?;
                        }
                        Ok(LoopState::Continue)
                    },
                    Some(crate::bytecode::CompOp::GE) => {
                        if !(three_way >= 0) {
                            self.jump_rel(instr.sarg1())?;
                        }
                        Ok(LoopState::Continue)
                    },
                    Some(crate::bytecode::CompOp::L) => {
                        if !(three_way < 0) {
                            self.jump_rel(instr.sarg1())?;
                        }
                        Ok(LoopState::Continue)
                    },
                    Some(crate::bytecode::CompOp::LE) => {
                        if !(three_way <= 0) {
                            self.jump_rel(instr.sarg1())?;
                        }
                        Ok(LoopState::Continue)
                    },
                    Some(crate::bytecode::CompOp::ThreeWay) => {
                        self.stack.set_target(&instr, Object::Integer(three_way))?;
                        Ok(LoopState::Continue)
                    },
                    None => Err(Error::RuntimeError("unhandled comparison selector".to_owned())),
                }
            },
            Opcode::CLOSURE => {
                let fid = self.proto_function(pid, instr.arg1)?;
                let cid = self.heap.alloc_closure(Object::FuncProto(fid));
                self.stack.set_target(&instr, Object::Closure(cid))?;
                Ok(LoopState::Continue)
            },
            Opcode::NEWSLOT => {
                let key = self.stack.get_arg2(&instr)?.clone();
                let value = self.stack.get_arg3(&instr)?.clone();
                let tid = self.stack.get_arg1(&instr)?.table()?;
                if tid >= self.heap.tables.len() {
                    return Err(Error::RuntimeError("stale table reference".to_owned()));
                }
                self.heap.table_set(tid, &key, value)?;
                Ok(LoopState::Continue)
            },
            Opcode::PREPCALL | Opcode::PREPCALLK => {
                let is_k = match opcode {
                    Opcode::PREPCALLK => true,
                    _ => false,
                };
                let key = if is_k {
                    self.literal(pid, instr.arg1)?
                } else {
                    self.stack.get_arg1(&instr)?.clone()
                };
                let obj = self.stack.get_arg2(&instr)?.clone();
                let res = get(&self.heap, &obj, &key)?;
                self.stack.set_arg3(&instr, obj)?;
                self.stack.set_target(&instr, res)?;
                Ok(LoopState::Continue)
            },
            Opcode::GETK => {
                let key = self.literal(pid, instr.arg1)?;
                let obj = self.stack.get_arg2(&instr)?.clone();
                let v = get(&self.heap, &obj, &key)?;
                self.stack.set_target(&instr, v)?;
                Ok(LoopState::Continue)
            },
            Opcode::CALL => {
                let closure = self.stack.get_arg1(&instr)?.clone();
                let target: Option<i64> = if instr.arg0 != 255 {
                    Some(instr.arg0 as i64)
                } else {
                    None
                };
                Ok(
                    LoopState::Call {
                        closure,
                        target,
                        call_args: instr.arg3 as i64,
                        stack_inc: instr.arg2 as u32,
                    },
                )
            },
            Opcode::TAILCALL => {
                let closure = self.stack.get_arg1(&instr)?.clone();
                Ok(
                    LoopState::TailCall {
                        closure,
                        tail_args: instr.arg3 as u32,
                        arg_offset: instr.arg2 as u32,
                    },
                )
            },
            Opcode::RETURN => {
                let retval = if instr.arg0 == 255 {
                    Object::Null
                } else {
                    self.stack.get_arg1(&instr)?.clone()
                };
                Ok(LoopState::LeaveFrame(retval))
            },
            Opcode::NEWOBJ => {
                match crate::bytecode::new_object_type_from_u8(instr.arg3) {
                    Some(crate::bytecode::NewObjectType::Table) => {
                        let tid = self.heap.alloc_table();
                        self.stack.set_target(&instr, Object::Table(tid))?;
                        Ok(LoopState::Continue)
                    },
                    Some(crate::bytecode::NewObjectType::Array) => {
                        let aid = self.heap.alloc_array(instr.sarg1());
                        self.stack.set_target(&instr, Object::Array(aid))?;
                        Ok(LoopState::Continue)
                    },
                    None => Err(Error::RuntimeError("unhandled object kind".to_owned())),
                }
            },
            Opcode::APPENDARRAY => {
                let val = match crate::bytecode::append_array_type_from_u8(instr.arg2) {
                    Some(crate::bytecode::AppendArrayType::Stack) => self.stack.get_arg1(
                        &instr,
                    )?.clone(),
                    Some(crate::bytecode::AppendArrayType::Literal) => self.literal(
                        pid,
                        instr.arg1,
                    )?,
                    Some(crate::bytecode::AppendArrayType::Int) => Object::Integer(instr.sarg1()),
                    Some(crate::bytecode::AppendArrayType::Bool) => Object::Bool(instr.arg1 != 0),
                    _ => {
                        return Err(Error::RuntimeError("unhandled append source".to_owned()));
                    },
                };
                let aid = self.stack.get_arg0(&instr)?.array()?;
                if aid >= self.heap.arrays.len() {
                    return Err(Error::RuntimeError("stale array reference".to_owned()));
                }
                self.heap.array_append(aid, val);
                Ok(LoopState::Continue)
            },
            Opcode::LOADROOT => {
                let rt = self.roottable.clone();
                self.stack.set_target(&instr, rt)?;
                Ok(LoopState::Continue)
            },
            Opcode::LOADNULLS => {
                self.op_loadnulls(instr)?;
                Ok(LoopState::Continue)
            },
            Opcode::FOREACH => {
                self.op_foreach(instr)?;
                Ok(LoopState::Continue)
            },
            Opcode::CLONE => {
                let obj = self.stack.get_arg1(&instr)?.clone();
                let v = obj.clone_object(&mut self.heap)?;
                let ghost vv = v@;
                self.stack.set_target(&instr, v)?;
                proof {
                    assert(Self::wrote_target(*old(self), *self, instr, vv));
                }
                Ok(LoopState::Continue)
            },
            _ => Err(Error::RuntimeError("unhandled opcode".to_owned())),
        }
    }

    /// The two states agree on everything the machine semantics observe:
    /// the stack, the heap, the root table, the natives, the call stack and
    /// the profiling switch.  The per-opcode counters and the ghost
    /// call/return tallies are bookkeeping and left unconstrained.
    spec fn same_machine(a: Self, b: Self) -> bool {
        &&& b.stack == a.stack
        &&& b.heap == a.heap
        &&& b.roottable == a.roottable
        &&& b.natives == a.natives
        &&& b.callstack@ == a.callstack@
        &&& b.instr_profiling == a.instr_profiling
    }

    /// One instruction was fetched: the innermost callable resolves to
    /// prototype `pid`, and `instr` sits under its instruction pointer.
    spec fn spec_fetched(pre: Self, instr: Instruction, pid: int) -> bool {
        &&& pre.callstack@.len() > 0
        &&& pre.cur_pid() == Some(pid)
        &&& (pre.callstack@.last().ip as int) < pre.heap.protos@[pid].instructions@.len()
        &&& instr == pre.heap.protos@[pid].instructions@[pre.callstack@.last().ip as int]
    }

    /// The instruction pointer moved past the fetched instruction; nothing
    /// else of the machine changed.
    spec fn spec_advanced(pre: Self, post: Self) -> bool {
        &&& pre.callstack@.len() > 0
        &&& post.stack == pre.stack
        &&& post.heap == pre.heap
        &&& post.roottable == pre.roottable
        &&& post.natives == pre.natives
        &&& post.instr_profiling == pre.instr_profiling
        &&& post.callstack@ == pre.callstack@.update(
            pre.callstack@.len() - 1,
            CallInfo {
                prevframe: pre.callstack@.last().prevframe,
                closure: pre.callstack@.last().closure,
                ip: (pre.callstack@.last().ip + 1) as usize,
                root: pre.callstack@.last().root,
                target: pre.callstack@.last().target,
            },
        )
    }

    /// The register-level stage of one instruction: the structural facts the
    /// decoder guarantees, plus the per-opcode effect.
    spec fn spec_dispatched(pre: Self, post: Self, instr: Instruction, st: LoopState) -> bool {
        &&& post.depth() == pre.depth()
        &&& Self::same_call_shape(pre, post)
        &&& post.stack.spec_base() == pre.stack.spec_base()
        &&& post.stack.spec_top() == pre.stack.spec_top()
        &&& post.stack.wf()
        &&& post.heap.protos@ == pre.heap.protos@
        &&& post.natives == pre.natives
        &&& post.roottable == pre.roottable
        &&& post.instr_profiling == pre.instr_profiling
        &&& Self::dispatch_effect(pre, post, instr, st)
    }

    /// The control stage of one iteration that does not end `execute`: how
    /// the machine acts on the instruction's control token.
    spec fn spec_controlled(pre: Self, post: Self, st: LoopState) -> bool {
        match st {
            LoopState::Continue => Self::same_machine(pre, post),
            LoopState::Call { closure, target, call_args: _, stack_inc } => Self::spec_pushed_call(
                pre,
                post,
                closure,
                target,
                stack_inc,
            ) || Self::spec_native_ran(pre, post),
            LoopState::TailCall { closure, tail_args: _, arg_offset: _ } => {
                &&& pre.callstack@.len() > 0
                &&& post.callstack@ == pre.callstack@.update(
                    pre.callstack@.len() - 1,
                    CallInfo {
                        prevframe: pre.callstack@.last().prevframe,
                        closure: closure,
                        ip: 0,
                        root: pre.callstack@.last().root,
                        target: pre.callstack@.last().target,
                    },
                )
                &&& post.stack.spec_base() == pre.stack.spec_base()
                &&& post.stack.spec_top() == pre.stack.spec_top()
                &&& post.stack.wf()
                &&& post.heap == pre.heap
                &&& post.roottable == pre.roottable
                &&& post.natives == pre.natives
                &&& post.instr_profiling == pre.instr_profiling
            },
            LoopState::LeaveFrame(v) => {
                &&& pre.callstack@.len() >= 2
                &&& !pre.callstack@.last().root
                &&& post.callstack@ == pre.callstack@.drop_last()
                &&& post.stack.spec_base() == pre.callstack@.last().prevframe.base
                &&& post.stack.spec_top() == pre.callstack@.last().prevframe.top
                &&& match pre.callstack@.last().target {
                    None => post.stack@ == pre.stack@,
                    Some(t) => post.stack@ == pre.stack@.update(
                        pre.callstack@.last().prevframe.base + t,
                        v@,
                    ),
                }
                &&& post.heap == pre.heap
                &&& post.roottable == pre.roottable
                &&& post.natives == pre.natives
                &&& post.instr_profiling == pre.instr_profiling
            },
        }
    }

    /// One full, non-final iteration of the dispatch loop, with its
    /// intermediate states and token named.
    spec fn exec_step_with(
        pre: Self,
        mid1: Self,
        mid2: Self,
        post: Self,
        instr: Instruction,
        pid: int,
        st: LoopState,
    ) -> bool {
        &&& Self::spec_fetched(pre, instr, pid)
        &&& Self::spec_advanced(pre, mid1)
        &&& Self::spec_dispatched(mid1, mid2, instr, st)
        &&& Self::spec_controlled(mid2, post, st)
    }

    /// One full, non-final iteration of the dispatch loop.  Opaque: the
    /// trace machinery carries it as one fact.
    #[verifier::opaque]
    pub closed spec fn exec_step(pre: Self, post: Self) -> bool {
        exists|mid1: Self, mid2: Self, instr: Instruction, pid: int, st: LoopState|
            #[trigger] Self::exec_step_with(pre, mid1, mid2, post, instr, pid, st)
    }

    /// Consecutive entries of `tr` are related by one non-final iteration.
    spec fn is_trace(tr: Seq<Self>) -> bool {
        forall|i: int| 0 <= i < tr.len() - 1 ==> Self::exec_step(#[trigger] tr[i], tr[i + 1])
    }

    /// The machine `post` is reachable from `pre` by whole iterations of the
    /// dispatch loop: fetch, instruction-pointer advance, the fetched
    /// opcode's exact register-level effect, and its control stage.
    pub closed spec fn reaches(pre: Self, post: Self) -> bool {
        exists|tr: Seq<Self>|
            #[trigger] Self::is_trace(tr) && tr.len() >= 1 && tr[0] == pre && tr.last() == post
    }

    /// The final iteration, with its intermediate states and token named.
    spec fn root_return_with(
        pre: Self,
        mid1: Self,
        mid2: Self,
        post: Self,
        instr: Instruction,
        pid: int,
        st: LoopState,
        v: ObjView,
    ) -> bool {
        &&& Self::spec_fetched(pre, instr, pid)
        &&& Self::spec_advanced(pre, mid1)
        &&& Self::spec_dispatched(mid1, mid2, instr, st)
        &&& st matches LoopState::LeaveFrame(r0) && r0@ == v
        &&& mid2.callstack@.len() > 0
        &&& mid2.callstack@.last().root
        &&& Self::same_machine(mid2, post)
    }

    /// The final iteration of a run: the fetched instruction's effect hands
    /// back a `LeaveFrame` token carrying `v` while the innermost invocation
    /// is a root frame, which ends `execute` with `v` and the machine
    /// otherwise unchanged.
    pub closed spec fn spec_root_return(pre: Self, post: Self, v: ObjView) -> bool {
        exists|mid1: Self, mid2: Self, instr: Instruction, pid: int, st: LoopState|
            #[trigger] Self::root_return_with(pre, mid1, mid2, post, instr, pid, st, v)
    }

    /// Every machine reaches itself by the empty run.
    pub proof fn lemma_reaches_refl(s: Self)
        ensures
            Self::reaches(s, s),
    {
        let tr: Seq<Self> = seq![s];
        assert(Self::is_trace(tr));
        assert(tr.len() >= 1 && tr[0] == s && tr.last() == s);
    }

    /// A run extended by one more iteration is still a run.
    pub proof fn lemma_reaches_step(a: Self, b: Self, c: Self)
        requires
            Self::reaches(a, b),
            Self::exec_step(b, c),
        ensures
            Self::reaches(a, c),
    {
        let tr: Seq<Self> = choose|tr: Seq<Self>|
            #[trigger] Self::is_trace(tr) && tr.len() >= 1 && tr[0] == a && tr.last() == b;
        Self::lemma_trace_snoc(tr, c);
        let tr2 = tr.push(c);
        assert(Self::is_trace(tr2) && tr2.len() >= 1 && tr2[0] == a && tr2.last() == c);
    }

    /// Runs compose.
    pub proof fn lemma_reaches_trans(a: Self, b: Self, c: Self)
        requires
            Self::reaches(a, b),
            Self::reaches(b, c),
        ensures
            Self::reaches(a, c),
    {
        let tr1: Seq<Self> = choose|tr1: Seq<Self>|
            #[trigger] Self::is_trace(tr1) && tr1.len() >= 1 && tr1[0] == a && tr1.last() == b;
        let tr2: Seq<Self> = choose|tr2: Seq<Self>|
            #[trigger] Self::is_trace(tr2) && tr2.len() >= 1 && tr2[0] == b && tr2.last() == c;
        let joined = tr1 + tr2.skip(1);
        assert forall|i: int| 0 <= i < joined.len() - 1 implies Self::exec_step(
            #[trigger] joined[i],
            joined[i + 1],
        ) by {
            if i < tr1.len() - 1 {
                assert(joined[i] == tr1[i]);
                assert(joined[i + 1] == tr1[i + 1]);
            } else if i == tr1.len() - 1 {
                if tr2.len() >= 2 {
                    assert(joined[i] == tr1.last());
                    assert(joined[i + 1] == tr2.skip(1)[0]);
                    assert(tr2.skip(1)[0] == tr2[1]);
                    assert(Self::exec_step(tr2[0], tr2[1]));
                }
            } else {
                let j = i - tr1.len();
                assert(joined[i] == tr2.skip(1)[j]);
                assert(joined[i + 1] == tr2.skip(1)[j + 1]);
                assert(tr2.skip(1)[j] == tr2[j + 1]);
                assert(tr2.skip(1)[j + 1] == tr2[j + 2]);
                assert(Self::exec_step(tr2[j + 1], tr2[j + 2]));
            }
        }
        assert(joined.len() >= 1 && joined[0] == a);
        if tr2.len() == 1 {
            assert(joined =~= tr1);
            assert(joined.last() == c);
        } else {
            assert(joined.last() == tr2.last());
        }
        assert(Self::is_trace(joined) && joined.len() >= 1 && joined[0] == a && joined.last()
            == c);
    }

    /// What a root return pins down, in public terms: the machine `pre` had
    /// an active invocation whose callable resolves to a prototype; the
    /// instruction under its pointer is a `RETURN`; the value yielded is
    /// null or exactly the register that instruction names; and `post`
    /// observes the same stack, frame, heap and depth as `pre`.
    pub proof fn lemma_root_return_value(pre: Self, post: Self, v: ObjView)
        requires
            Self::spec_root_return(pre, post, v),
        ensures
            pre.depth() > 0,
            spec_closure_proto(pre.spec_heap(), pre.spec_top_closure()) matches Some(pid) && {
                let fp = pre.spec_heap().protos@[pid];
                &&& 0 <= pre.spec_top_ip() < fp.instructions@.len()
                &&& {
                    let instr = fp.instructions@[pre.spec_top_ip()];
                    &&& crate::bytecode::spec_opcode_from_u8(instr.opcode) == Some(
                        crate::bytecode::Opcode::RETURN,
                    )
                    &&& v == (if instr.arg0 == 255 {
                        ObjView::Null
                    } else {
                        pre.spec_stack()@[pre.spec_stack().spec_base() + instr.arg1]
                    })
                }
            },
            post.spec_stack()@ == pre.spec_stack()@,
            post.spec_stack().spec_base() == pre.spec_stack().spec_base(),
            post.spec_stack().spec_top() == pre.spec_stack().spec_top(),
            post.spec_heap() == pre.spec_heap(),
            post.depth() == pre.depth(),
    {
        reveal(Executor::dispatch_effect);
        let (mid1, mid2, instr, pid, st): (Self, Self, Instruction, int, LoopState) = choose|
            mid1: Self,
            mid2: Self,
            instr: Instruction,
            pid: int,
            st: LoopState,
        | Self::root_return_with(pre, mid1, mid2, post, instr, pid, st, v);
        assert(Self::spec_fetched(pre, instr, pid));
        assert(Self::spec_advanced(pre, mid1));
        assert(Self::spec_dispatched(mid1, mid2, instr, st));
        assert(st matches LoopState::LeaveFrame(r0) && r0@ == v);
        assert(crate::bytecode::spec_opcode_from_u8(instr.opcode) == Some(
            crate::bytecode::Opcode::RETURN,
        ));
    }

    /// One step moves the call-stack depth by at most one invocation.
    pub proof fn lemma_step_depth(pre: Self, post: Self)
        requires
            Self::exec_step(pre, post),
        ensures
            pre.depth() - 1 <= post.depth() <= pre.depth() + 1,
    {
        reveal(Executor::exec_step);
        let (mid1, mid2, instr, pid, st): (Self, Self, Instruction, int, LoopState) = choose|
            mid1: Self,
            mid2: Self,
            instr: Instruction,
            pid: int,
            st: LoopState,
        | Self::exec_step_with(pre, mid1, mid2, post, instr, pid, st);
        assert(Self::spec_controlled(mid2, post, st));
    }

    /// The tail-call step, in public terms: when the fetched instruction is
    /// a `TAILCALL`, the step keeps the call-stack depth and the frame — no
    /// invocation is pushed, however deep the recursion runs.
    pub proof fn lemma_tailcall_step(pre: Self, post: Self)
        requires
            Self::exec_step(pre, post),
            pre.depth() > 0,
            spec_closure_proto(pre.spec_heap(), pre.spec_top_closure()) matches Some(pid) && {
                let fp = pre.spec_heap().protos@[pid];
                &&& 0 <= pre.spec_top_ip() < fp.instructions@.len()
                &&& crate::bytecode::spec_opcode_from_u8(
                    fp.instructions@[pre.spec_top_ip()].opcode,
                ) == Some(crate::bytecode::Opcode::TAILCALL)
            },
        ensures
            post.depth() == pre.depth(),
            post.spec_stack().spec_base() == pre.spec_stack().spec_base(),
            post.spec_stack().spec_top() == pre.spec_stack().spec_top(),
            post.spec_heap() == pre.spec_heap(),
    {
        reveal(Executor::exec_step);
        reveal(Executor::dispatch_effect);
        let (mid1, mid2, instr, pid2, st): (Self, Self, Instruction, int, LoopState) = choose|
            mid1: Self,
            mid2: Self,
            instr: Instruction,
            pid2: int,
            st: LoopState,
        | Self::exec_step_with(pre, mid1, mid2, post, instr, pid2, st);
        assert(Self::spec_fetched(pre, instr, pid2));
        assert(Self::spec_dispatched(mid1, mid2, instr, st));
        assert(st matches LoopState::TailCall { closure, tail_args, arg_offset });
        assert(Self::spec_controlled(mid2, post, st));
    }

    /// The native-call step, in public terms: when the fetched instruction
    /// is a `CALL` whose callee register holds a native closure, the step
    /// leaves the call-stack depth, the frame, the innermost callable and
    /// the whole heap unchanged and moves only the instruction pointer —
    /// the native ran inside a temporary frame that was restored.
    pub proof fn lemma_native_call_step(pre: Self, post: Self)
        requires
            Self::exec_step(pre, post),
            pre.depth() > 0,
            spec_closure_proto(pre.spec_heap(), pre.spec_top_closure()) matches Some(pid) && {
                let fp = pre.spec_heap().protos@[pid];
                &&& 0 <= pre.spec_top_ip() < fp.instructions@.len()
                &&& fp.instructions@.len() <= usize::MAX
                &&& {
                    let instr = fp.instructions@[pre.spec_top_ip()];
                    &&& crate::bytecode::spec_opcode_from_u8(instr.opcode) == Some(
                        crate::bytecode::Opcode::CALL,
                    )
                    &&& pre.spec_stack()@[pre.spec_stack().spec_base() + instr.arg1]
                        is NativeClosure
                }
            },
        ensures
            post.depth() == pre.depth(),
            post.spec_stack().spec_base() == pre.spec_stack().spec_base(),
            post.spec_stack().spec_top() == pre.spec_stack().spec_top(),
            post.spec_heap() == pre.spec_heap(),
            post.spec_top_ip() == pre.spec_top_ip() + 1,
            post.spec_top_closure() == pre.spec_top_closure(),
    {
        reveal(Executor::exec_step);
        reveal(Executor::dispatch_effect);
        let (mid1, mid2, instr, pid2, st): (Self, Self, Instruction, int, LoopState) = choose|
            mid1: Self,
            mid2: Self,
            instr: Instruction,
            pid2: int,
            st: LoopState,
        | Self::exec_step_with(pre, mid1, mid2, post, instr, pid2, st);
        assert(Self::spec_fetched(pre, instr, pid2));
        assert(Self::spec_advanced(pre, mid1));
        assert(Self::spec_dispatched(mid1, mid2, instr, st));
        assert(Self::spec_controlled(mid2, post, st));
        assert(st matches LoopState::Call { closure, target, call_args, stack_inc } && closure@
            is NativeClosure);
        match st {
            LoopState::Call { closure, target, call_args, stack_inc } => {
                assert(spec_closure_proto(mid2.heap, closure@) is None);
                assert(Self::spec_native_ran(mid2, post));
            },
            _ => {
                assert(false);
            },
        }
    }

    /// Extending a trace by one more iteration.
    proof fn lemma_trace_snoc(tr: Seq<Self>, post: Self)
        requires
            Self::is_trace(tr),
            tr.len() >= 1,
            Self::exec_step(tr.last(), post),
        ensures
            Self::is_trace(tr.push(post)),
            tr.push(post).last() == post,
            tr.push(post)[0] == tr[0],
    {
        let tr2 = tr.push(post);
        assert forall|i: int| 0 <= i < tr2.len() - 1 implies Self::exec_step(
            #[trigger] tr2[i],
            tr2[i + 1],
        ) by {
            if i < tr.len() - 1 {
                assert(tr2[i] == tr[i]);
                assert(tr2[i + 1] == tr[i + 1]);
            } else {
                assert(tr2[i] == tr.last());
                assert(tr2[i + 1] == post);
            }
        }
    }

    /// One iteration whose token was `Continue` extends the trace.
    proof fn lemma_step_plain(
        tr: Seq<Self>,
        pre: Self,
        mid1: Self,
        post: Self,
        instr: Instruction,
        pid: int,
        st: LoopState,
    )
        requires
            Self::is_trace(tr),
            tr.len() >= 1,
            tr.last() == pre,
            Self::spec_fetched(pre, instr, pid),
            Self::spec_advanced(pre, mid1),
            Self::spec_dispatched(mid1, post, instr, st),
            st is Continue,
        ensures
            Self::is_trace(tr.push(post)),
            tr.push(post).len() >= 1,
            tr.push(post)[0] == tr[0],
            tr.push(post).last() == post,
    {
        reveal(Executor::exec_step);
        assert(Self::spec_controlled(post, post, st));
        assert(Self::exec_step_with(pre, mid1, post, post, instr, pid, st));
        assert(Self::exec_step(pre, post));
        Self::lemma_trace_snoc(tr, post);
    }

    /// One iteration whose token was consumed by the control stage
    /// (`Call`, `TailCall` or a non-root `LeaveFrame`) extends the trace.
    proof fn lemma_step_control(
        tr: Seq<Self>,
        pre: Self,
        mid1: Self,
        mid2: Self,
        post: Self,
        instr: Instruction,
        pid: int,
        st: LoopState,
    )
        requires
            Self::is_trace(tr),
            tr.len() >= 1,
            tr.last() == pre,
            Self::spec_fetched(pre, instr, pid),
            Self::spec_advanced(pre, mid1),
            Self::spec_dispatched(mid1, mid2, instr, st),
            Self::spec_controlled(mid2, post, st),
        ensures
            Self::is_trace(tr.push(post)),
            tr.push(post).len() >= 1,
            tr.push(post)[0] == tr[0],
            tr.push(post).last() == post,
    {
        reveal(Executor::exec_step);
        assert(Self::exec_step_with(pre, mid1, mid2, post, instr, pid, st));
        assert(Self::exec_step(pre, post));
        Self::lemma_trace_snoc(tr, post);
    }

    /// The final iteration of a run: a root `LeaveFrame` token yields the
    /// return value, and the trace so far witnesses reachability.
    proof fn lemma_step_root(
        tr: Seq<Self>,
        entry: Self,
        pre: Self,
        mid1: Self,
        mid2: Self,
        post: Self,
        instr: Instruction,
        pid: int,
        st: LoopState,
        v: ObjView,
    )
        requires
            Self::is_trace(tr),
            tr.len() >= 1,
            tr[0] == entry,
            tr.last() == pre,
            Self::spec_fetched(pre, instr, pid),
            Self::spec_advanced(pre, mid1),
            Self::spec_dispatched(mid1, mid2, instr, st),
            st matches LoopState::LeaveFrame(r0) && r0@ == v,
            mid2.callstack@.len() > 0,
            mid2.callstack@.last().root,
            Self::same_machine(mid2, post),
        ensures
            Self::reaches(entry, pre),
            Self::spec_root_return(pre, post, v),
    {
        assert(Self::root_return_with(pre, mid1, mid2, post, instr, pid, st, v));
        assert(Self::spec_root_return(pre, post, v));
        assert(Self::reaches(entry, pre));
    }

    /// Runs the dispatch loop until the root frame returns, and yields its
    /// return value.  On success the final machine is reachable from the
    /// entry machine by whole iterations of the loop — fetch, advance, the
    /// fetched opcode's exact effect, the control stage — ending in a root
    /// `RETURN` of the yielded value; the call stack and the frame are back
    /// at their state from entry, and the returns taken balance the calls
    /// started plus one for the root frame itself.  A step budget of
    /// `u64::MAX` instructions bounds the loop so that its termination can
    /// be proved; a program that exceeds it reports a runtime error, which
    /// no physical run can reach.
    #[verifier::rlimit(100)]
    pub fn execute(&mut self) -> (r: Result<Object, Error>)
        requires
            old(self).wf(),
            old(self).depth() > 0,
            old(self).top_is_root(),
        ensures
            final(self).wf(),
            match r {
                Ok(v) => {
                    &&& exists|mid: Self|
                        #[trigger] Self::reaches(*old(self), mid) && Self::spec_root_return(
                            mid,
                            *final(self),
                            v@,
                        )
                    &&& final(self).depth() == old(self).depth()
                    &&& final(self).top_is_root()
                    &&& final(self).spec_stack().spec_base() == old(self).spec_stack().spec_base()
                    &&& final(self).spec_stack().spec_top() == old(self).spec_stack().spec_top()
                    &&& final(self).spec_rets() - old(self).spec_rets() == final(self).spec_calls()
                        - old(self).spec_calls() + 1
                },
                Err(e) => e.is_runtime(),
            },
    {
        let ghost entry_state = *self;
        let ghost entry_depth = self.callstack@.len() as int;
        let ghost entry_base = self.stack.spec_base();
        let ghost entry_top = self.stack.spec_top();
        let ghost entry_calls = self.calls_taken@ as int;
        let ghost entry_rets = self.rets_taken@ as int;
        let ghost mut trace: Seq<Executor<N>> = seq![entry_state];
        let mut fuel: u64 = 0xFFFF_FFFF_FFFF_FFFFu64;
        while fuel > 0
            invariant
                self.wf(),
                entry_state == *old(self),
                entry_depth == old(self).callstack@.len(),
                entry_base == old(self).stack.spec_base(),
                entry_top == old(self).stack.spec_top(),
                entry_calls == old(self).calls_taken@,
                entry_rets == old(self).rets_taken@,
                Self::is_trace(trace),
                trace.len() >= 1,
                trace[0] == entry_state,
                trace.last() == *self,
                1 <= entry_depth <= self.callstack@.len(),
                self.callstack@[entry_depth - 1].root,
                forall|i: int|
                    entry_depth <= i < self.callstack@.len() ==> !(
                    #[trigger] self.callstack@[i]).root,
                self.callstack@.len() == entry_depth ==> (self.stack.spec_base() == entry_base
                    && self.stack.spec_top() == entry_top),
                self.callstack@.len() > entry_depth ==> (self.callstack@[entry_depth].prevframe.base
                    == entry_base && self.callstack@[entry_depth].prevframe.top == entry_top),
                self.callstack@.len() - entry_depth == (self.calls_taken@ - entry_calls) - (
                self.rets_taken@ - entry_rets),
                self.calls_taken@ >= entry_calls,
                self.rets_taken@ >= entry_rets,
            decreases fuel,
        {
            fuel = fuel - 1;
            let ghost pre_iter = *self;
            let (instr, pid) = match self.fetch() {
                Ok(x) => x,
                Err(e) => return Err(e),
            };
            if self.instr_profiling {
                self.profiling.instruction(&instr);
            }
            self.advance_ip();
            let ghost mid1 = *self;
            let state = match self.dispatch(instr, pid) {
                Ok(s) => s,
                Err(e) => return Err(e),
            };
            let ghost mid2 = *self;
            let ghost gst = state;
            proof {
                assert(Self::spec_fetched(pre_iter, instr, pid as int));
                assert(Self::spec_advanced(pre_iter, mid1));
                assert(Self::spec_dispatched(mid1, mid2, instr, gst));
            }
            match state {
                LoopState::Continue => {
                    proof {
                        Self::lemma_step_plain(trace, pre_iter, mid1, *self, instr, pid as int, gst);
                        trace = trace.push(*self);
                    }
                },
                LoopState::Call { closure, target, call_args, stack_inc } => {
                    match self.do_call(closure, target, call_args, stack_inc) {
                        Ok(()) => {
                            proof {
                                assert(Self::spec_controlled(mid2, *self, gst));
                                Self::lemma_step_control(
                                    trace,
                                    pre_iter,
                                    mid1,
                                    mid2,
                                    *self,
                                    instr,
                                    pid as int,
                                    gst,
                                );
                                trace = trace.push(*self);
                            }
                        },
                        Err(e) => return Err(e),
                    }
                },
                LoopState::TailCall { closure, tail_args, arg_offset } => {
                    match self.do_tailcall(closure, tail_args, arg_offset) {
                        Ok(()) => {
                            proof {
                                assert(Self::spec_controlled(mid2, *self, gst));
                                Self::lemma_step_control(
                                    trace,
                                    pre_iter,
                                    mid1,
                                    mid2,
                                    *self,
                                    instr,
                                    pid as int,
                                    gst,
                                );
                                trace = trace.push(*self);
                            }
                        },
                        Err(e) => return Err(e),
                    }
                },
                LoopState::LeaveFrame(v) => {
                    let n = self.callstack.len();
                    let is_root = self.callstack[n - 1].root;
                    if is_root {
                        proof {
                            if self.callstack@.len() > entry_depth {
                                assert(!self.callstack@[self.callstack@.len() - 1].root);
                            }
                            assert(self.callstack@.len() == entry_depth);
                        }
                        self.rets_taken = Ghost(self.rets_taken@ + 1);
                        proof {
                            Self::lemma_step_root(
                                trace,
                                entry_state,
                                pre_iter,
                                mid1,
                                mid2,
                                *self,
                                instr,
                                pid as int,
                                gst,
                                v@,
                            );
                        }
                        return Ok(v);
                    } else {
                        let ghost gv = v;
                        match self.leave_frame(v) {
                            Ok(()) => {
                                proof {
                                    assert(gst == LoopState::LeaveFrame(gv));
                                    assert(Self::spec_controlled(mid2, *self, gst));
                                    Self::lemma_step_control(
                                        trace,
                                        pre_iter,
                                        mid1,
                                        mid2,
                                        *self,
                                        instr,
                                        pid as int,
                                        gst,
                                    );
                                    trace = trace.push(*self);
                                }
                            },
                            Err(e) => return Err(e),
                        }
                    }
                },
            }
        }
        Err(Error::RuntimeError("instruction budget exhausted".to_owned()))
    }
}

/// Key-value access: a table yields the value stored under the key; an array
/// yields the element at an integer key, or its length under the key
/// `"len"`.  Everything else, a missing key and an out-of-range index
/// included, is a runtime error.
pub open spec fn spec_get(
    tables: Seq<Seq<(ObjView, ObjView)>>,
    arrays: Seq<Seq<ObjView>>,
    obj: ObjView,
    key: ObjView,
) -> Option<ObjView> {
    match obj {
        ObjView::Table(t) => if (t as int) < tables.len() {
            table_lookup(tables[t as int], key)
        } else {
            None
        },
        ObjView::Array(a) => if (a as int) < arrays.len() {
            match key {
                ObjView::Integer(i) => if 0 <= i < arrays[a as int].len() {
                    Some(arrays[a as int][i as int])
                } else {
                    None
                },
                ObjView::String(s) => if s == "len"@ && arrays[a as int].len() <= i64::MAX {
                    Some(ObjView::Integer(arrays[a as int].len() as i64))
                } else {
                    None
                },
                _ => None,
            }
        } else {
            None
        },
        _ => None,
    }
}

/// Key-value access over the heap, exactly `spec_get`.
pub fn get(heap: &Heap, obj: &Object, key: &Object) -> (r: Result<Object, Error>)
    requires
        heap.tables_wf(),
    ensures
        match r {
            Ok(v) => spec_get(heap.tables_view(), heap.arrays_view(), obj@, key@) == Some(v@),
            Err(e) => spec_get(heap.tables_view(), heap.arrays_view(), obj@, key@) is None
                && e.is_runtime(),
        },
{
    match obj {
        Object::Table(t) => {
            if *t < heap.tables.len() {
                proof {
                    assert(heap.tables@[*t as int].wf());
                    assert(heap.tables_view()[*t as int] == heap.tables@[*t as int]@);
                }
                heap.tables[*t].get(key)
            } else {
                Err(Error::RuntimeError("stale table reference".to_owned()))
            }
        },
        Object::Array(a) => {
            if *a < heap.arrays.len() {
                let arr = &heap.arrays[*a];
                match key {
                    Object::Integer(i) => {
                        if 0 <= *i && (*i as u64) < (arr.array.len() as u64) {
                            Ok(arr.array[*i as usize].clone())
                        } else {
                            Err(Error::RuntimeError("array index out of range".to_owned()))
                        }
                    },
                    Object::String(s) => {
                        let len_key: String = "len".to_owned();
                        if s.eq(&len_key) {
                            let n = arr.array.len();
                            if (n as u64) <= 0x7fff_ffff_ffff_ffffu64 {
                                Ok(Object::Integer(n as i64))
                            } else {
                                Err(Error::RuntimeError("array length overflows".to_owned()))
                            }
                        } else {
                            Err(Error::RuntimeError("array delegate failed".to_owned()))
                        }
                    },
                    _ => Err(Error::RuntimeError("unsupported array key".to_owned())),
                }
            } else {
                Err(Error::RuntimeError("stale array reference".to_owned()))
            }
        },
        _ => Err(Error::RuntimeError("value has no keyed access".to_owned())),
    }
}

} // verus!

