//! Instructions: the fixed 8-byte instruction record, the opcode numbering,
//! and the small sub-operation selectors that some opcodes carry in their
//! argument bytes.
use vstd::prelude::*;

use crate::Error;

verus! {

/// The opcode numbering of the compiled format.  `opcode_from_u8` maps the
/// byte found in an instruction to a variant; the dispatch loop implements the
/// subset that the specification requires and reports the rest as unsupported.
#[derive(Clone, Copy, Debug)]
pub enum Opcode {
    LINE,
    LOAD,
    LOADINT,
    LOADFLOAT,
    DLOAD,
    TAILCALL,
    CALL,
    PREPCALL,
    PREPCALLK,
    GETK,
    MOVE,
    NEWSLOT,
    DELETE,
    SET,
    GET,
    EQ,
    NE,
    ADD,
    SUB,
    MUL,
    DIV,
    MOD,
    BITW,
    RETURN,
    LOADNULLS,
    LOADROOT,
    LOADBOOL,
    DMOVE,
    JMP,
    JCMP,
    JZ,
    SETOUTER,
    GETOUTER,
    NEWOBJ,
    APPENDARRAY,
    COMPARITH,
    INC,
    INCL,
    PINC,
    PINCL,
    CMP,
    EXISTS,
    INSTANCEOF,
    AND,
    OR,
    NEG,
    NOT,
    BWNOT,
    CLOSURE,
    YIELD,
    RESUME,
    FOREACH,
    POSTFOREACH,
    CLONE,
    TYPEOF,
    PUSHTRAP,
    POPTRAP,
    THROW,
    NEWSLOTA,
    GETBASE,
    CLOSE,
}

/// The opcode encoded by a byte, if any.
pub open spec fn spec_opcode_from_u8(x: u8) -> Option<Opcode> {
    if x == 0x00 {
        Some(Opcode::LINE)
    } else if x == 0x01 {
        Some(Opcode::LOAD)
    } else if x == 0x02 {
        Some(Opcode::LOADINT)
    } else if x == 0x03 {
        Some(Opcode::LOADFLOAT)
    } else if x == 0x04 {
        Some(Opcode::DLOAD)
    } else if x == 0x05 {
        Some(Opcode::TAILCALL)
    } else if x == 0x06 {
        Some(Opcode::CALL)
    } else if x == 0x07 {
        Some(Opcode::PREPCALL)
    } else if x == 0x08 {
        Some(Opcode::PREPCALLK)
    } else if x == 0x09 {
        Some(Opcode::GETK)
    } else if x == 0x0A {
        Some(Opcode::MOVE)
    } else if x == 0x0B {
        Some(Opcode::NEWSLOT)
    } else if x == 0x0C {
        Some(Opcode::DELETE)
    } else if x == 0x0D {
        Some(Opcode::SET)
    } else if x == 0x0E {
        Some(Opcode::GET)
    } else if x == 0x0F {
        Some(Opcode::EQ)
    } else if x == 0x10 {
        Some(Opcode::NE)
    } else if x == 0x11 {
        Some(Opcode::ADD)
    } else if x == 0x12 {
        Some(Opcode::SUB)
    } else if x == 0x13 {
        Some(Opcode::MUL)
    } else if x == 0x14 {
        Some(Opcode::DIV)
    } else if x == 0x15 {
        Some(Opcode::MOD)
    } else if x == 0x16 {
        Some(Opcode::BITW)
    } else if x == 0x17 {
        Some(Opcode::RETURN)
    } else if x == 0x18 {
        Some(Opcode::LOADNULLS)
    } else if x == 0x19 {
        Some(Opcode::LOADROOT)
    } else if x == 0x1A {
        Some(Opcode::LOADBOOL)
    } else if x == 0x1B {
        Some(Opcode::DMOVE)
    } else if x == 0x1C {
        Some(Opcode::JMP)
    } else if x == 0x1D {
        Some(Opcode::JCMP)
    } else if x == 0x1E {
        Some(Opcode::JZ)
    } else if x == 0x1F {
        Some(Opcode::SETOUTER)
    } else if x == 0x20 {
        Some(Opcode::GETOUTER)
    } else if x == 0x21 {
        Some(Opcode::NEWOBJ)
    } else if x == 0x22 {
        Some(Opcode::APPENDARRAY)
    } else if x == 0x23 {
        Some(Opcode::COMPARITH)
    } else if x == 0x24 {
        Some(Opcode::INC)
    } else if x == 0x25 {
        Some(Opcode::INCL)
    } else if x == 0x26 {
        Some(Opcode::PINC)
    } else if x == 0x27 {
        Some(Opcode::PINCL)
    } else if x == 0x28 {
        Some(Opcode::CMP)
    } else if x == 0x29 {
        Some(Opcode::EXISTS)
    } else if x == 0x2A {
        Some(Opcode::INSTANCEOF)
    } else if x == 0x2B {
        Some(Opcode::AND)
    } else if x == 0x2C {
        Some(Opcode::OR)
    } else if x == 0x2D {
        Some(Opcode::NEG)
    } else if x == 0x2E {
        Some(Opcode::NOT)
    } else if x == 0x2F {
        Some(Opcode::BWNOT)
    } else if x == 0x30 {
        Some(Opcode::CLOSURE)
    } else if x == 0x31 {
        Some(Opcode::YIELD)
    } else if x == 0x32 {
        Some(Opcode::RESUME)
    } else if x == 0x33 {
        Some(Opcode::FOREACH)
    } else if x == 0x34 {
        Some(Opcode::POSTFOREACH)
    } else if x == 0x35 {
        Some(Opcode::CLONE)
    } else if x == 0x36 {
        Some(Opcode::TYPEOF)
    } else if x == 0x37 {
        Some(Opcode::PUSHTRAP)
    } else if x == 0x38 {
        Some(Opcode::POPTRAP)
    } else if x == 0x39 {
        Some(Opcode::THROW)
    } else if x == 0x3A {
        Some(Opcode::NEWSLOTA)
    } else if x == 0x3B {
        Some(Opcode::GETBASE)
    } else if x == 0x3C {
        Some(Opcode::CLOSE)
    } else {
        None
    }
}

/// Decodes an opcode byte.
pub fn opcode_from_u8(x: u8) -> (r: Option<Opcode>)
    ensures
        r == spec_opcode_from_u8(x),
{
    match x {
        0x00 => Some(Opcode::LINE),
        0x01 => Some(Opcode::LOAD),
        0x02 => Some(Opcode::LOADINT),
        0x03 => Some(Opcode::LOADFLOAT),
        0x04 => Some(Opcode::DLOAD),
        0x05 => Some(Opcode::TAILCALL),
        0x06 => Some(Opcode::CALL),
        0x07 => Some(Opcode::PREPCALL),
        0x08 => Some(Opcode::PREPCALLK),
        0x09 => Some(Opcode::GETK),
        0x0A => Some(Opcode::MOVE),
        0x0B => Some(Opcode::NEWSLOT),
        0x0C => Some(Opcode::DELETE),
        0x0D => Some(Opcode::SET),
        0x0E => Some(Opcode::GET),
        0x0F => Some(Opcode::EQ),
        0x10 => Some(Opcode::NE),
        0x11 => Some(Opcode::ADD),
        0x12 => Some(Opcode::SUB),
        0x13 => Some(Opcode::MUL),
        0x14 => Some(Opcode::DIV),
        0x15 => Some(Opcode::MOD),
        0x16 => Some(Opcode::BITW),
        0x17 => Some(Opcode::RETURN),
        0x18 => Some(Opcode::LOADNULLS),
        0x19 => Some(Opcode::LOADROOT),
        0x1A => Some(Opcode::LOADBOOL),
        0x1B => Some(Opcode::DMOVE),
        0x1C => Some(Opcode::JMP),
        0x1D => Some(Opcode::JCMP),
        0x1E => Some(Opcode::JZ),
        0x1F => Some(Opcode::SETOUTER),
        0x20 => Some(Opcode::GETOUTER),
        0x21 => Some(Opcode::NEWOBJ),
        0x22 => Some(Opcode::APPENDARRAY),
        0x23 => Some(Opcode::COMPARITH),
        0x24 => Some(Opcode::INC),
        0x25 => Some(Opcode::INCL),
        0x26 => Some(Opcode::PINC),
        0x27 => Some(Opcode::PINCL),
        0x28 => Some(Opcode::CMP),
        0x29 => Some(Opcode::EXISTS),
        0x2A => Some(Opcode::INSTANCEOF),
        0x2B => Some(Opcode::AND),
        0x2C => Some(Opcode::OR),
        0x2D => Some(Opcode::NEG),
        0x2E => Some(Opcode::NOT),
        0x2F => Some(Opcode::BWNOT),
        0x30 => Some(Opcode::CLOSURE),
        0x31 => Some(Opcode::YIELD),
        0x32 => Some(Opcode::RESUME),
        0x33 => Some(Opcode::FOREACH),
        0x34 => Some(Opcode::POSTFOREACH),
        0x35 => Some(Opcode::CLONE),
        0x36 => Some(Opcode::TYPEOF),
        0x37 => Some(Opcode::PUSHTRAP),
        0x38 => Some(Opcode::POPTRAP),
        0x39 => Some(Opcode::THROW),
        0x3A => Some(Opcode::NEWSLOTA),
        0x3B => Some(Opcode::GETBASE),
        0x3C => Some(Opcode::CLOSE),
        _ => None,
    }
}

/// The comparison selector carried in `arg3` of `JCMP`: greater, greater or
/// equal, less, less or equal, or the three-way numeric result.
#[derive(Clone, Copy, Debug)]
pub enum CompOp {
    G,
    GE,
    L,
    LE,
    ThreeWay,
}

/// The comparison selector encoded by a byte, if any.
pub open spec fn spec_comp_op_from_u8(x: u8) -> Option<CompOp> {
    if x == 0 {
        Some(CompOp::G)
    } else if x == 2 {
        Some(CompOp::GE)
    } else if x == 3 {
        Some(CompOp::L)
    } else if x == 5 {
        Some(CompOp::LE)
    } else if x == 6 {
        Some(CompOp::ThreeWay)
    } else {
        None
    }
}

/// Decodes the `JCMP` selector byte.
pub fn comp_op_from_u8(x: u8) -> (r: Option<CompOp>)
    ensures
        r == spec_comp_op_from_u8(x),
{
    match x {
        0 => Some(CompOp::G),
        2 => Some(CompOp::GE),
        3 => Some(CompOp::L),
        5 => Some(CompOp::LE),
        6 => Some(CompOp::ThreeWay),
        _ => None,
    }
}

/// The object kind selector carried in `arg3` of `NEWOBJ`.
#[derive(Clone, Copy, Debug)]
pub enum NewObjectType {
    Table,
    Array,
}

/// The `NEWOBJ` selector encoded by a byte, if any.
pub open spec fn spec_new_object_type_from_u8(x: u8) -> Option<NewObjectType> {
    if x == 0 {
        Some(NewObjectType::Table)
    } else if x == 1 {
        Some(NewObjectType::Array)
    } else {
        None
    }
}

/// Decodes the `NEWOBJ` selector byte.
pub fn new_object_type_from_u8(x: u8) -> (r: Option<NewObjectType>)
    ensures
        r == spec_new_object_type_from_u8(x),
{
    match x {
        0 => Some(NewObjectType::Table),
        1 => Some(NewObjectType::Array),
        _ => None,
    }
}

/// The source selector carried in `arg2` of `APPENDARRAY`.
#[derive(Clone, Copy, Debug)]
pub enum AppendArrayType {
    Stack,
    Literal,
    Int,
    Float,
    Bool,
}

/// The `APPENDARRAY` selector encoded by a byte, if any.
pub open spec fn spec_append_array_type_from_u8(x: u8) -> Option<AppendArrayType> {
    if x == 0 {
        Some(AppendArrayType::Stack)
    } else if x == 1 {
        Some(AppendArrayType::Literal)
    } else if x == 2 {
        Some(AppendArrayType::Int)
    } else if x == 3 {
        Some(AppendArrayType::Float)
    } else if x == 4 {
        Some(AppendArrayType::Bool)
    } else {
        None
    }
}

/// Decodes the `APPENDARRAY` selector byte.
pub fn append_array_type_from_u8(x: u8) -> (r: Option<AppendArrayType>)
    ensures
        r == spec_append_array_type_from_u8(x),
{
    match x {
        0 => Some(AppendArrayType::Stack),
        1 => Some(AppendArrayType::Literal),
        2 => Some(AppendArrayType::Int),
        3 => Some(AppendArrayType::Float),
        4 => Some(AppendArrayType::Bool),
        _ => None,
    }
}

/// One instruction: a 32-bit field `arg1` followed by the opcode byte and the
/// three byte-sized arguments, eight bytes on disk.  `arg1` is read as signed
/// where an opcode's semantics require it (jump offsets, loaded integers).
#[derive(Clone, Copy, Debug)]
pub struct Instruction {
    pub arg1: u32,
    pub opcode: u8,
    pub arg0: u8,
    pub arg2: u8,
    pub arg3: u8,
}

/// `arg1` reinterpreted as a signed 32-bit quantity, widened to `i64`.
pub open spec fn spec_sarg1(x: u32) -> i64 {
    if x >= 0x8000_0000 {
        (x - 0x1_0000_0000) as i64
    } else {
        x as i64
    }
}

/// One instruction at `pos`: the 32-bit `arg1`, then the opcode byte and the
/// three argument bytes, eight bytes in all.
pub open spec fn p_instruction(b: Seq<u8>, pos: int) -> Option<(Instruction, int)> {
    if 0 <= pos && pos + 8 <= b.len() {
        match crate::io::p_u32(b, pos) {
            Some((arg1, _p1)) => Some(
                (
                    Instruction {
                        arg1,
                        opcode: b[pos + 4],
                        arg0: b[pos + 5],
                        arg2: b[pos + 6],
                        arg3: b[pos + 7],
                    },
                    pos + 8,
                ),
            ),
            None => None,
        }
    } else {
        None
    }
}

impl Instruction {
    /// The signed reading of `arg1`, used by jumps and `LOADINT`.
    pub fn sarg1(&self) -> (r: i64)
        ensures
            r == spec_sarg1(self.arg1),
    {
        if self.arg1 >= 0x8000_0000 {
            (self.arg1 as i64) - 0x1_0000_0000i64
        } else {
            self.arg1 as i64
        }
    }

    /// Reads one eight-byte instruction record, exactly `p_instruction`.
    pub fn read(rdr: &mut crate::io::Reader) -> (r: Result<Instruction, Error>)
        requires
            old(rdr).wf(),
        ensures
            final(rdr).wf(),
            final(rdr).spec_bytes() == old(rdr).spec_bytes(),
            final(rdr).spec_pos() >= old(rdr).spec_pos(),
            match r {
                Ok(v) => p_instruction(old(rdr).spec_bytes(), old(rdr).spec_pos()) == Some(
                    (v, final(rdr).spec_pos()),
                ),
                Err(e) => p_instruction(old(rdr).spec_bytes(), old(rdr).spec_pos()) is None
                    && e.is_runtime(),
            },
    {
        let arg1 = rdr.read_u32()?;
        let opcode = rdr.read_u8()?;
        let arg0 = rdr.read_u8()?;
        let arg2 = rdr.read_u8()?;
        let arg3 = rdr.read_u8()?;
        Ok(Instruction { arg1, opcode, arg0, arg2, arg3 })
    }
}

} // verus!
