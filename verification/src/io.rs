//! The bytecode loader: a strict reader of the compiled binary format into
//! prototypes and a top-level closure.
//!
//! The format is little-endian throughout.  The mathematical content is the
//! family of `p_*` specification functions, which parse a byte sequence from
//! a position into a value and the position after it; the executable reader
//! returns exactly what they describe, and fails exactly where they are
//! undefined.
use vstd::prelude::*;

use crate::Error;
use crate::Object;
use crate::ObjView;
use crate::object::Heap;

verus! {

/// The 16-bit magic number at the head of a bytecode file.
pub const TAG_BYTECODE_STREAM: u16 = 0xFAFA;

/// Section tag: start of the closure stream (`'SQIR'` packed).
pub const TAG_CLOSURESTREAM_HEAD: u32 = 0x53514952;

/// Section tag: start of each prototype part (`'PART'` packed).
pub const TAG_CLOSURESTREAM_PART: u32 = 0x50415254;

/// Section tag: end of the closure stream (`'TAIL'` packed).
pub const TAG_CLOSURESTREAM_TAIL: u32 = 0x5441494C;

/// Declared size of a character in the stream.
pub const TAG_SIZE_CHAR: u32 = 1;

/// Declared size of an integer in the stream.
pub const TAG_SIZE_INTEGER: u32 = 8;

/// Declared size of a float in the stream.
pub const TAG_SIZE_FLOAT: u32 = 4;

/// Raw type bit of a null object tag.
pub const RAW_NULL: u32 = 0x00000001;

/// Raw type bit of an integer object tag.
pub const RAW_INTEGER: u32 = 0x00000002;

/// Raw type bit of a float object tag.
pub const RAW_FLOAT: u32 = 0x00000004;

/// Raw type bit of a string object tag.
pub const RAW_STRING: u32 = 0x00000010;

/// Flag bit: the object is reference counted.
pub const FLAG_REF_COUNTED: u32 = 0x08000000;

/// Flag bit: the object is numeric.
pub const FLAG_NUMERIC: u32 = 0x04000000;

/// Flag bit: the object can read as false.
pub const FLAG_CANBEFALSE: u32 = 0x01000000;

/// On-disk tag of a null literal.
pub const OTYPE_NULL: u32 = RAW_NULL | FLAG_CANBEFALSE;

/// On-disk tag of an integer literal.
pub const OTYPE_INTEGER: u32 = RAW_INTEGER | FLAG_NUMERIC | FLAG_CANBEFALSE;

/// On-disk tag of a float literal.
pub const OTYPE_FLOAT: u32 = RAW_FLOAT | FLAG_NUMERIC | FLAG_CANBEFALSE;

/// On-disk tag of a string literal.
pub const OTYPE_STRING: u32 = RAW_STRING | FLAG_REF_COUNTED;

/// One byte at `pos`.
pub open spec fn p_u8(b: Seq<u8>, pos: int) -> Option<(u8, int)> {
    if 0 <= pos && pos + 1 <= b.len() {
        Some((b[pos], pos + 1))
    } else {
        None
    }
}

/// A little-endian 16-bit quantity at `pos`.
pub open spec fn p_u16(b: Seq<u8>, pos: int) -> Option<(u16, int)> {
    if 0 <= pos && pos + 2 <= b.len() {
        Some((vstd::bytes::spec_u16_from_le_bytes(b.subrange(pos, pos + 2)), pos + 2))
    } else {
        None
    }
}

/// A little-endian 32-bit quantity at `pos`.
pub open spec fn p_u32(b: Seq<u8>, pos: int) -> Option<(u32, int)> {
    if 0 <= pos && pos + 4 <= b.len() {
        Some((vstd::bytes::spec_u32_from_le_bytes(b.subrange(pos, pos + 4)), pos + 4))
    } else {
        None
    }
}

/// A little-endian 64-bit quantity at `pos`.
pub open spec fn p_u64(b: Seq<u8>, pos: int) -> Option<(u64, int)> {
    if 0 <= pos && pos + 8 <= b.len() {
        Some((vstd::bytes::spec_u64_from_le_bytes(b.subrange(pos, pos + 8)), pos + 8))
    } else {
        None
    }
}

/// The 64-bit two's-complement reading of an unsigned quantity.
pub open spec fn spec_i64_of_u64(x: u64) -> i64 {
    if x >= 0x8000_0000_0000_0000 {
        (x - 0x1_0000_0000_0000_0000) as i64
    } else {
        x as i64
    }
}

/// A little-endian signed 64-bit quantity at `pos`.
pub open spec fn p_i64(b: Seq<u8>, pos: int) -> Option<(i64, int)> {
    match p_u64(b, pos) {
        Some((x, p)) => Some((spec_i64_of_u64(x), p)),
        None => None,
    }
}

/// The given 32-bit tag at `pos`, consumed.
pub open spec fn p_tag(b: Seq<u8>, pos: int, tag: u32) -> Option<int> {
    match p_u32(b, pos) {
        Some((x, p)) => if x == tag {
            Some(p)
        } else {
            None
        },
        None => None,
    }
}

/// A tagged literal object at `pos`: a 32-bit type tag, then the payload of
/// that type.  Strings must be valid UTF-8; any unknown tag is rejected.
pub open spec fn p_object(b: Seq<u8>, pos: int) -> Option<(ObjView, int)> {
    match p_u32(b, pos) {
        None => None,
        Some((tag, p1)) => if tag == OTYPE_INTEGER {
            match p_i64(b, p1) {
                Some((v, p2)) => Some((ObjView::Integer(v), p2)),
                None => None,
            }
        } else if tag == OTYPE_FLOAT {
            match p_u32(b, p1) {
                Some((bits, p2)) => Some((ObjView::Float(bits), p2)),
                None => None,
            }
        } else if tag == OTYPE_STRING {
            match p_u64(b, p1) {
                Some((len, p2)) => if p2 + len <= b.len() {
                    let text = b.subrange(p2, p2 + len);
                    if vstd::utf8::valid_utf8(text) {
                        Some((ObjView::String(vstd::utf8::decode_utf8(text)), p2 + len))
                    } else {
                        None
                    }
                } else {
                    None
                },
                None => None,
            }
        } else if tag == OTYPE_NULL {
            Some((ObjView::Null, p1))
        } else {
            None
        },
    }
}

/// Relies on `core::str::from_utf8`: it accepts exactly the byte sequences
/// that are valid UTF-8, and yields the text those bytes encode.
#[verifier::external_body]
fn bytes_to_string(v: &[u8]) -> (r: Option<String>)
    ensures
        r is Some <==> vstd::utf8::valid_utf8(v@),
        r matches Some(s) ==> s@ == vstd::utf8::decode_utf8(v@),
{
    match core::str::from_utf8(v) {
        Ok(s) => Some(s.to_owned()),
        Err(_) => None,
    }
}

/// A streaming reader over a byte slice.
pub struct Reader<'a> {
    bytes: &'a [u8],
    pos: usize,
}

impl<'a> Reader<'a> {
    /// The underlying bytes.
    pub closed spec fn spec_bytes(&self) -> Seq<u8> {
        self.bytes@
    }

    /// The current position.
    pub closed spec fn spec_pos(&self) -> int {
        self.pos as int
    }

    /// The position never runs past the end.
    pub open spec fn wf(&self) -> bool {
        0 <= self.spec_pos() <= self.spec_bytes().len()
    }

    /// A reader over `bytes`, starting at the beginning.
    pub fn new(bytes: &'a [u8]) -> (r: Reader<'a>)
        ensures
            r.spec_bytes() == bytes@,
            r.spec_pos() == 0,
            r.wf(),
    {
        Reader { bytes, pos: 0 }
    }

    /// The current position, for diagnostics.
    pub fn position(&self) -> (r: usize)
        ensures
            r == self.spec_pos(),
    {
        self.pos
    }

    /// The total number of bytes.
    pub fn len(&self) -> (r: usize)
        ensures
            r == self.spec_bytes().len(),
    {
        self.bytes.len()
    }

    /// Reads one byte.
    pub fn read_u8(&mut self) -> (r: Result<u8, Error>)
        requires
            old(self).wf(),
        ensures
            final(self).wf(),
            final(self).spec_bytes() == old(self).spec_bytes(),
            match r {
                Ok(v) => p_u8(old(self).spec_bytes(), old(self).spec_pos()) == Some(
                    (v, final(self).spec_pos()),
                ),
                Err(e) => p_u8(old(self).spec_bytes(), old(self).spec_pos()) is None && final(self).spec_pos() == old(self).spec_pos() && e.is_runtime(),
            },
    {
        if self.pos < self.bytes.len() {
            let v = self.bytes[self.pos];
            self.pos = self.pos + 1;
            Ok(v)
        } else {
            Err(Error::RuntimeError("unexpected end of stream".to_owned()))
        }
    }

    /// Reads a little-endian 16-bit quantity.
    pub fn read_u16(&mut self) -> (r: Result<u16, Error>)
        requires
            old(self).wf(),
        ensures
            final(self).wf(),
            final(self).spec_bytes() == old(self).spec_bytes(),
            match r {
                Ok(v) => p_u16(old(self).spec_bytes(), old(self).spec_pos()) == Some(
                    (v, final(self).spec_pos()),
                ),
                Err(e) => p_u16(old(self).spec_bytes(), old(self).spec_pos()) is None && final(self).spec_pos() == old(self).spec_pos() && e.is_runtime(),
            },
    {
        if self.bytes.len() - self.pos >= 2 {
            let s = vstd::slice::slice_subrange(self.bytes, self.pos, self.pos + 2);
            let v = vstd::bytes::u16_from_le_bytes(s);
            self.pos = self.pos + 2;
            Ok(v)
        } else {
            Err(Error::RuntimeError("unexpected end of stream".to_owned()))
        }
    }

    /// Reads a little-endian 32-bit quantity.
    pub fn read_u32(&mut self) -> (r: Result<u32, Error>)
        requires
            old(self).wf(),
        ensures
            final(self).wf(),
            final(self).spec_bytes() == old(self).spec_bytes(),
            match r {
                Ok(v) => p_u32(old(self).spec_bytes(), old(self).spec_pos()) == Some(
                    (v, final(self).spec_pos()),
                ),
                Err(e) => p_u32(old(self).spec_bytes(), old(self).spec_pos()) is None && final(self).spec_pos() == old(self).spec_pos() && e.is_runtime(),
            },
    {
        if self.bytes.len() - self.pos >= 4 {
            let s = vstd::slice::slice_subrange(self.bytes, self.pos, self.pos + 4);
            let v = vstd::bytes::u32_from_le_bytes(s);
            self.pos = self.pos + 4;
            Ok(v)
        } else {
            Err(Error::RuntimeError("unexpected end of stream".to_owned()))
        }
    }

    /// Reads a little-endian 64-bit quantity.
    pub fn read_u64(&mut self) -> (r: Result<u64, Error>)
        requires
            old(self).wf(),
        ensures
            final(self).wf(),
            final(self).spec_bytes() == old(self).spec_bytes(),
            match r {
                Ok(v) => p_u64(old(self).spec_bytes(), old(self).spec_pos()) == Some(
                    (v, final(self).spec_pos()),
                ),
                Err(e) => p_u64(old(self).spec_bytes(), old(self).spec_pos()) is None && final(self).spec_pos() == old(self).spec_pos() && e.is_runtime(),
            },
    {
        if self.bytes.len() - self.pos >= 8 {
            let s = vstd::slice::slice_subrange(self.bytes, self.pos, self.pos + 8);
            let v = vstd::bytes::u64_from_le_bytes(s);
            self.pos = self.pos + 8;
            Ok(v)
        } else {
            Err(Error::RuntimeError("unexpected end of stream".to_owned()))
        }
    }

    /// Reads a little-endian signed 64-bit quantity.
    pub fn read_i64(&mut self) -> (r: Result<i64, Error>)
        requires
            old(self).wf(),
        ensures
            final(self).wf(),
            final(self).spec_bytes() == old(self).spec_bytes(),
            match r {
                Ok(v) => p_i64(old(self).spec_bytes(), old(self).spec_pos()) == Some(
                    (v, final(self).spec_pos()),
                ),
                Err(e) => p_i64(old(self).spec_bytes(), old(self).spec_pos()) is None && final(self).spec_pos() == old(self).spec_pos() && e.is_runtime(),
            },
    {
        let x = self.read_u64()?;
        if x >= 0x8000_0000_0000_0000u64 {
            let y: u64 = x - 0x8000_0000_0000_0000u64;
            Ok((y as i64) + i64::MIN)
        } else {
            Ok(x as i64)
        }
    }

    /// Reads `len` raw bytes.
    pub fn read_bytes(&mut self, len: usize) -> (r: Result<&'a [u8], Error>)
        requires
            old(self).wf(),
        ensures
            final(self).wf(),
            final(self).spec_bytes() == old(self).spec_bytes(),
            match r {
                Ok(v) => old(self).spec_pos() + len <= old(self).spec_bytes().len() && v@ == old(self).spec_bytes().subrange(old(self).spec_pos(), old(self).spec_pos() + len)
                    && final(self).spec_pos() == old(self).spec_pos() + len,
                Err(e) => old(self).spec_pos() + len > old(self).spec_bytes().len() && final(self).spec_pos() == old(self).spec_pos() && e.is_runtime(),
            },
    {
        if self.bytes.len() - self.pos >= len {
            let s = vstd::slice::slice_subrange(self.bytes, self.pos, self.pos + len);
            self.pos = self.pos + len;
            Ok(s)
        } else {
            Err(Error::RuntimeError("unexpected end of stream".to_owned()))
        }
    }
}

/// Reads and checks one section tag.
pub fn expect_tag(rdr: &mut Reader, rtag: u32) -> (r: Result<(), Error>)
    requires
        old(rdr).wf(),
    ensures
        final(rdr).wf(),
        final(rdr).spec_bytes() == old(rdr).spec_bytes(),
        final(rdr).spec_pos() >= old(rdr).spec_pos(),
        match r {
            Ok(()) => p_tag(old(rdr).spec_bytes(), old(rdr).spec_pos(), rtag) == Some(
                final(rdr).spec_pos(),
            ),
            Err(e) => {
                &&& p_tag(old(rdr).spec_bytes(), old(rdr).spec_pos(), rtag) is None
                &&& e.is_runtime()
                // a present but mismatched tag consumes exactly its four
                // bytes; a short read leaves the position alone
                &&& match p_u32(old(rdr).spec_bytes(), old(rdr).spec_pos()) {
                    Some((x, p)) => x != rtag && final(rdr).spec_pos() == p,
                    None => final(rdr).spec_pos() == old(rdr).spec_pos(),
                }
            },
        },
{
    let tag = rdr.read_u32()?;
    if tag == rtag {
        Ok(())
    } else {
        Err(Error::RuntimeError("unexpected tag".to_owned()))
    }
}

/// Reads one string literal's payload: a 64-bit length followed by that many
/// bytes of UTF-8 text.
fn read_string_payload(rdr: &mut Reader) -> (r: Result<Object, Error>)
    requires
        old(rdr).wf(),
    ensures
        final(rdr).wf(),
        final(rdr).spec_bytes() == old(rdr).spec_bytes(),
        final(rdr).spec_pos() >= old(rdr).spec_pos(),
        match r {
            Ok(v) => p_string_payload(old(rdr).spec_bytes(), old(rdr).spec_pos()) == Some(
                (v@, final(rdr).spec_pos()),
            ),
            Err(e) => p_string_payload(old(rdr).spec_bytes(), old(rdr).spec_pos()) is None
                && e.is_runtime(),
        },
{
    let len = rdr.read_u64()?;
    let _span = rdr.len();
    if len > (usize::MAX as u64) {
        return Err(Error::RuntimeError("unexpected end of stream".to_owned()));
    }
    let bytes = rdr.read_bytes(len as usize)?;
    match bytes_to_string(bytes) {
        Some(s) => Ok(Object::String(s)),
        None => Err(Error::RuntimeError("failed to decode utf8".to_owned())),
    }
}

/// A string literal's payload: a 64-bit length, then that many bytes, which
/// must be valid UTF-8.
pub open spec fn p_string_payload(b: Seq<u8>, pos: int) -> Option<(ObjView, int)> {
    match p_u64(b, pos) {
        Some((len, p2)) => if p2 + len <= b.len() {
            let text = b.subrange(p2, p2 + len);
            if vstd::utf8::valid_utf8(text) {
                Some((ObjView::String(vstd::utf8::decode_utf8(text)), p2 + len))
            } else {
                None
            }
        } else {
            None
        },
        None => None,
    }
}

/// The mathematical shape of a parsed prototype: every field by its view,
/// and the nested prototypes as subtrees.
pub struct ProtoView {
    pub source_name: ObjView,
    pub name: ObjView,
    pub literals: Seq<ObjView>,
    pub parameters: Seq<ObjView>,
    pub outervalues: Seq<(i64, ObjView, ObjView)>,
    pub localvarinfos: Seq<(ObjView, i64, i64, i64)>,
    pub lineinfos: Seq<(i64, i64)>,
    pub defaultparams: Seq<i64>,
    pub instructions: Seq<crate::bytecode::Instruction>,
    pub functions: Seq<ProtoView>,
    pub stacksize: i64,
}

/// `n` items in a row parsed by `f`, from `pos`.  A count at or below zero
/// parses nothing.
pub open spec fn p_rep<T>(
    b: Seq<u8>,
    pos: int,
    n: int,
    f: spec_fn(Seq<u8>, int) -> Option<(T, int)>,
) -> Option<(Seq<T>, int)>
    decreases n,
{
    if n <= 0 {
        Some((Seq::<T>::empty(), pos))
    } else {
        match f(b, pos) {
            None => None,
            Some((v, p1)) => match p_rep(b, p1, n - 1, f) {
                None => None,
                Some((vs, p2)) => Some((seq![v] + vs, p2)),
            },
        }
    }
}

/// Splitting a repetition: parsing `n` items equals parsing `i`, then the
/// remaining `n - i` from where the first part stopped.
pub proof fn lemma_p_rep_compose<T>(
    b: Seq<u8>,
    pos: int,
    i: int,
    n: int,
    f: spec_fn(Seq<u8>, int) -> Option<(T, int)>,
)
    requires
        0 <= i <= n,
    ensures
        p_rep(b, pos, n, f) == (match p_rep(b, pos, i, f) {
            None => None,
            Some((vs1, p1)) => match p_rep(b, p1, n - i, f) {
                None => None,
                Some((vs2, p2)) => Some((vs1 + vs2, p2)),
            },
        }),
    decreases i,
{
    if i <= 0 {
        match p_rep(b, pos, n, f) {
            None => {
                assert(p_rep(b, pos, 0, f) == Some((Seq::<T>::empty(), pos)));
            },
            Some((vs, p)) => {
                assert(Seq::<T>::empty() + vs =~= vs);
            },
        }
    } else {
        match f(b, pos) {
            None => {
                assert(p_rep(b, pos, n, f) is None);
                assert(p_rep(b, pos, i, f) is None);
            },
            Some((v, p1)) => {
                lemma_p_rep_compose(b, p1, i - 1, n - 1, f);
                match p_rep(b, p1, i - 1, f) {
                    None => {
                        assert(p_rep(b, pos, i, f) is None);
                        assert(p_rep(b, pos, n, f) is None);
                    },
                    Some((vs1, q1)) => {
                        assert(p_rep(b, pos, i, f) == Some((seq![v] + vs1, q1)));
                        match p_rep(b, q1, n - i, f) {
                            None => {
                                assert(p_rep(b, p1, n - 1, f) is None);
                                assert(p_rep(b, pos, n, f) is None);
                            },
                            Some((vs2, q2)) => {
                                assert(p_rep(b, p1, n - 1, f) == Some((vs1 + vs2, q2)));
                                assert(p_rep(b, pos, n, f) == Some((seq![v] + (vs1 + vs2), q2)));
                                assert(seq![v] + (vs1 + vs2) =~= (seq![v] + vs1) + vs2);
                            },
                        }
                    },
                }
            },
        }
    }
}

/// When every item consumes at least one byte and stays inside the buffer,
/// so does the repetition, and a nonnegative count parses exactly that many
/// items.
pub proof fn lemma_p_rep_bounds<T>(
    b: Seq<u8>,
    pos: int,
    n: int,
    f: spec_fn(Seq<u8>, int) -> Option<(T, int)>,
)
    requires
        0 <= pos <= b.len(),
        forall|p: int|
            (#[trigger] f(b, p)) matches Some(v) ==> p < v.1 <= b.len(),
    ensures
        p_rep(b, pos, n, f) matches Some(v) ==> pos <= v.1 <= b.len() && v.0.len() == (if n <= 0 {
            0int
        } else {
            n
        }),
    decreases n,
{
    if n > 0 {
        match f(b, pos) {
            None => {},
            Some((v, p1)) => {
                lemma_p_rep_bounds(b, p1, n - 1, f);
            },
        }
    }
}

/// A parsed repetition holds exactly the number of items the stream
/// declared: in particular a loaded instruction section has the on-disk
/// instruction count.
pub proof fn lemma_instruction_count(b: Seq<u8>, pos: int, n: int)
    requires
        0 <= pos <= b.len(),
    ensures
        p_rep(b, pos, n, f_instruction()) matches Some(v) ==> v.0.len() == (if n <= 0 {
            0int
        } else {
            n
        }),
{
    assert forall|p: int|
        ((#[trigger] f_instruction()(b, p)) matches Some(v) ==> p < v.1 <= b.len()) by {
        assert(f_instruction()(b, p) == crate::bytecode::p_instruction(b, p));
    }
    lemma_p_rep_bounds(b, pos, n, f_instruction());
}

/// The eight prototype counts, in file order: literals, parameters, outer
/// values, local variable infos, line infos, default parameters,
/// instructions, nested functions.
pub open spec fn p_counts(b: Seq<u8>, pos: int) -> Option<
    ((i64, i64, i64, i64, i64, i64, i64, i64), int),
> {
    match p_i64(b, pos) {
        None => None,
        Some((n1, p1)) => match p_i64(b, p1) {
            None => None,
            Some((n2, p2)) => match p_i64(b, p2) {
                None => None,
                Some((n3, p3)) => match p_i64(b, p3) {
                    None => None,
                    Some((n4, p4)) => match p_i64(b, p4) {
                        None => None,
                        Some((n5, p5)) => match p_i64(b, p5) {
                            None => None,
                            Some((n6, p6)) => match p_i64(b, p6) {
                                None => None,
                                Some((n7, p7)) => match p_i64(b, p7) {
                                    None => None,
                                    Some((n8, p8)) => Some(((n1, n2, n3, n4, n5, n6, n7, n8), p8)),
                                },
                            },
                        },
                    },
                },
            },
        },
    }
}

/// One outer-value descriptor: a kind, then two objects.
pub open spec fn p_outerval(b: Seq<u8>, pos: int) -> Option<((i64, ObjView, ObjView), int)> {
    match p_i64(b, pos) {
        None => None,
        Some((k, p1)) => match p_object(b, p1) {
            None => None,
            Some((o1, p2)) => match p_object(b, p2) {
                None => None,
                Some((o2, p3)) => Some(((k, o1, o2), p3)),
            },
        },
    }
}

/// One local-variable record: a name object, then position, start and end.
pub open spec fn p_localvar(b: Seq<u8>, pos: int) -> Option<((ObjView, i64, i64, i64), int)> {
    match p_object(b, pos) {
        None => None,
        Some((o, p1)) => match p_i64(b, p1) {
            None => None,
            Some((a, p2)) => match p_i64(b, p2) {
                None => None,
                Some((c, p3)) => match p_i64(b, p3) {
                    None => None,
                    Some((d, p4)) => Some(((o, a, c, d), p4)),
                },
            },
        },
    }
}

/// One line-info record: a line and an instruction index.
pub open spec fn p_lineinfo(b: Seq<u8>, pos: int) -> Option<((i64, i64), int)> {
    match p_i64(b, pos) {
        None => None,
        Some((a, p1)) => match p_i64(b, p1) {
            None => None,
            Some((c, p2)) => Some(((a, c), p2)),
        },
    }
}

/// The object parser, as a function value shared by specification and
/// lemma.
pub open spec fn f_object() -> spec_fn(Seq<u8>, int) -> Option<(ObjView, int)> {
    |bb: Seq<u8>, pp: int| p_object(bb, pp)
}

/// The outer-value parser, as a function value.
pub open spec fn f_outerval() -> spec_fn(Seq<u8>, int) -> Option<((i64, ObjView, ObjView), int)> {
    |bb: Seq<u8>, pp: int| p_outerval(bb, pp)
}

/// The local-variable parser, as a function value.
pub open spec fn f_localvar() -> spec_fn(Seq<u8>, int) -> Option<((ObjView, i64, i64, i64), int)> {
    |bb: Seq<u8>, pp: int| p_localvar(bb, pp)
}

/// The line-info parser, as a function value.
pub open spec fn f_lineinfo() -> spec_fn(Seq<u8>, int) -> Option<((i64, i64), int)> {
    |bb: Seq<u8>, pp: int| p_lineinfo(bb, pp)
}

/// The signed-integer parser, as a function value.
pub open spec fn f_i64() -> spec_fn(Seq<u8>, int) -> Option<(i64, int)> {
    |bb: Seq<u8>, pp: int| p_i64(bb, pp)
}

/// The instruction parser, as a function value.
pub open spec fn f_instruction() -> spec_fn(Seq<u8>, int) -> Option<
    (crate::bytecode::Instruction, int),
> {
    |bb: Seq<u8>, pp: int| crate::bytecode::p_instruction(bb, pp)
}

/// A part tag followed by `n` items parsed by `f`.
pub open spec fn p_section<T>(
    b: Seq<u8>,
    pos: int,
    n: int,
    f: spec_fn(Seq<u8>, int) -> Option<(T, int)>,
) -> Option<(Seq<T>, int)> {
    match p_tag(b, pos, TAG_CLOSURESTREAM_PART) {
        None => None,
        Some(p1) => p_rep(b, p1, n, f),
    }
}

/// One serialized prototype: names, counts, the eight sections in file
/// order, and the trailing stack size, generator flag and varparams count
/// (the last two are read and dropped).
pub open spec fn p_funcproto(b: Seq<u8>, pos: int) -> Option<(ProtoView, int)>
    decreases b.len() - pos, 0int,
{
    match p_tag(b, pos, TAG_CLOSURESTREAM_PART) {
        None => None,
        Some(p1) => match p_object(b, p1) {
            None => None,
            Some((source_name, p2)) => match p_object(b, p2) {
                None => None,
                Some((name, p3)) => match p_tag(b, p3, TAG_CLOSURESTREAM_PART) {
                    None => None,
                    Some(p4) => match p_counts(b, p4) {
                        None => None,
                        Some((counts, p5)) => match p_section(b, p5, counts.0 as int, f_object()) {
                            None => None,
                            Some((literals, p6)) => match p_section(b, p6, counts.1 as int, f_object()) {
                                None => None,
                                Some((parameters, p7)) => match p_section(b, p7, counts.2 as int, f_outerval()) {
                                    None => None,
                                    Some((outervalues, p8)) => match p_section(b, p8, counts.3 as int, f_localvar()) {
                                        None => None,
                                        Some((localvarinfos, p9)) => match p_section(b, p9, counts.4 as int, f_lineinfo()) {
                                            None => None,
                                            Some((lineinfos, p10)) => match p_section(b, p10, counts.5 as int, f_i64()) {
                                                None => None,
                                                Some((defaultparams, p11)) => match p_section(b, p11, counts.6 as int, f_instruction()) {
                                                    None => None,
                                                    Some((instructions, p12)) => match p_tag(
                                                        b,
                                                        p12,
                                                        TAG_CLOSURESTREAM_PART,
                                                    ) {
                                                        None => None,
                                                        Some(p13) => if pos < p13 <= b.len() {
                                                            match p_protos(
                                                                b,
                                                                p13,
                                                                if counts.7 <= 0 {
                                                                    0int
                                                                } else {
                                                                    counts.7 as int
                                                                },
                                                            ) {
                                                                None => None,
                                                                Some((functions, p14)) => match
                                                                    p_i64(b, p14) {
                                                                    None => None,
                                                                    Some((stacksize, p15)) => match
                                                                        p_u8(b, p15) {
                                                                        None => None,
                                                                        Some((_bgen, p16)) => match
                                                                            p_i64(b, p16) {
                                                                            None => None,
                                                                            Some((_varp, p17)) => Some(
                                                                                (
                                                                                    ProtoView {
                                                                                        source_name,
                                                                                        name,
                                                                                        literals,
                                                                                        parameters,
                                                                                        outervalues,
                                                                                        localvarinfos,
                                                                                        lineinfos,
                                                                                        defaultparams,
                                                                                        instructions,
                                                                                        functions,
                                                                                        stacksize,
                                                                                    },
                                                                                    p17,
                                                                                ),
                                                                            ),
                                                                        },
                                                                    },
                                                                },
                                                            }
                                                        } else {
                                                            None
                                                        },
                                                    },
                                                },
                                            },
                                        },
                                    },
                                },
                            },
                        },
                    },
                },
            },
        },
    }
}

/// `n` serialized prototypes in a row.
pub open spec fn p_protos(b: Seq<u8>, pos: int, n: int) -> Option<(Seq<ProtoView>, int)>
    decreases b.len() - pos, n,
{
    if n <= 0 {
        Some((Seq::<ProtoView>::empty(), pos))
    } else {
        match p_funcproto(b, pos) {
            None => None,
            Some((t, p1)) => if pos < p1 <= b.len() {
                match p_protos(b, p1, n - 1) {
                    None => None,
                    Some((ts, p2)) => Some((seq![t] + ts, p2)),
                }
            } else {
                None
            },
        }
    }
}

/// A whole bytecode file: the magic number, the head tag, the declared
/// sizes, one prototype, and the tail tag.
pub open spec fn p_closure(b: Seq<u8>, pos: int) -> Option<(ProtoView, int)> {
    match p_u16(b, pos) {
        None => None,
        Some((magic, p1)) => if magic == TAG_BYTECODE_STREAM {
            match p_tag(b, p1, TAG_CLOSURESTREAM_HEAD) {
                None => None,
                Some(p2) => match p_tag(b, p2, TAG_SIZE_CHAR) {
                    None => None,
                    Some(p3) => match p_tag(b, p3, TAG_SIZE_INTEGER) {
                        None => None,
                        Some(p4) => match p_tag(b, p4, TAG_SIZE_FLOAT) {
                            None => None,
                            Some(p5) => match p_funcproto(b, p5) {
                                None => None,
                                Some((t, p6)) => match p_tag(b, p6, TAG_CLOSURESTREAM_TAIL) {
                                    None => None,
                                    Some(p7) => Some((t, p7)),
                                },
                            },
                        },
                    },
                },
            }
        } else {
            None
        },
    }
}

/// The prototype at arena slot `pid` lays out the tree `t`: every plain
/// field matches by view, and each nested slot, which always lies below
/// `pid`, lays out the corresponding subtree.
pub open spec fn proto_rep(
    protos: Seq<crate::object::FuncProto>,
    pid: int,
    t: ProtoView,
) -> bool
    decreases pid,
{
    if pid < 0 || pid >= protos.len() {
        false
    } else {
        let fp = protos[pid];
        &&& fp.source_name@ == t.source_name
        &&& fp.name@ == t.name
        &&& fp.literals@.map_values(|o: Object| o@) == t.literals
        &&& fp.parameters@.map_values(|o: Object| o@) == t.parameters
        &&& fp.outervalues@.map_values(|e: (i64, Object, Object)| (e.0, e.1@, e.2@))
            == t.outervalues
        &&& fp.localvarinfos@.map_values(|e: (Object, i64, i64, i64)| (e.0@, e.1, e.2, e.3))
            == t.localvarinfos
        &&& fp.lineinfos@ == t.lineinfos
        &&& fp.defaultparams@ == t.defaultparams
        &&& fp.instructions@ == t.instructions
        &&& fp.stacksize == t.stacksize
        &&& fp.functions@.len() == t.functions.len()
        &&& forall|k: int|
            0 <= k < t.functions.len() ==> ((#[trigger] fp.functions@[k] as int) < pid
                && proto_rep(protos, fp.functions@[k] as int, t.functions[k]))
    }
}

/// Laying out a tree is stable under growing the arena: slots are never
/// changed or removed.
pub proof fn lemma_proto_rep_prefix(
    protos: Seq<crate::object::FuncProto>,
    longer: Seq<crate::object::FuncProto>,
    pid: int,
    t: ProtoView,
)
    requires
        proto_rep(protos, pid, t),
        protos.len() <= longer.len(),
        forall|i: int| 0 <= i < protos.len() ==> longer[i] == protos[i],
    ensures
        proto_rep(longer, pid, t),
    decreases pid,
{
    let fp = protos[pid];
    assert forall|k: int| 0 <= k < t.functions.len() implies ((
    #[trigger] fp.functions@[k] as int) < pid && proto_rep(
        longer,
        fp.functions@[k] as int,
        t.functions[k],
    )) by {
        lemma_proto_rep_prefix(protos, longer, fp.functions@[k] as int, t.functions[k]);
    }
}

/// Reads one tagged literal object, exactly `p_object`.
fn read_object(rdr: &mut Reader) -> (r: Result<Object, Error>)
    requires
        old(rdr).wf(),
    ensures
        final(rdr).wf(),
        final(rdr).spec_bytes() == old(rdr).spec_bytes(),
        final(rdr).spec_pos() >= old(rdr).spec_pos(),
        match r {
            Ok(v) => p_object(old(rdr).spec_bytes(), old(rdr).spec_pos()) == Some(
                (v@, final(rdr).spec_pos()),
            ),
            Err(e) => p_object(old(rdr).spec_bytes(), old(rdr).spec_pos()) is None
                && e.is_runtime(),
        },
{
    let tag = rdr.read_u32()?;
    if tag == OTYPE_INTEGER {
        let v = rdr.read_i64()?;
        Ok(Object::Integer(v))
    } else if tag == OTYPE_FLOAT {
        let bits = rdr.read_u32()?;
        Ok(Object::Float(bits))
    } else if tag == OTYPE_STRING {
        read_string_payload(rdr)
    } else if tag == OTYPE_NULL {
        Ok(Object::Null)
    } else {
        Err(Error::RuntimeError("failed to decode object type".to_owned()))
    }
}

/// Reads `n` tagged literal objects, exactly `p_rep` of the object parser.
fn read_objects(rdr: &mut Reader, n: i64) -> (r: Result<Vec<Object>, Error>)
    requires
        old(rdr).wf(),
    ensures
        final(rdr).wf(),
        final(rdr).spec_bytes() == old(rdr).spec_bytes(),
        final(rdr).spec_pos() >= old(rdr).spec_pos(),
        match r {
            Ok(v) => p_rep(old(rdr).spec_bytes(), old(rdr).spec_pos(), n as int, f_object())
                == Some((v@.map_values(|o: Object| o@), final(rdr).spec_pos())),
            Err(e) => p_rep(old(rdr).spec_bytes(), old(rdr).spec_pos(), n as int, f_object())
                is None && e.is_runtime(),
        },
{
    let ghost b = rdr.spec_bytes();
    let ghost pos0 = rdr.spec_pos();
    let ghost f = f_object();
    let mut out: Vec<Object> = Vec::new();
    if n <= 0 {
        proof {
            assert(out@.map_values(|o: Object| o@) =~= Seq::<ObjView>::empty());
        }
        return Ok(out);
    }
    let mut i: i64 = 0;
    while i < n
        invariant
            rdr.wf(),
            rdr.spec_bytes() == b,
            b == old(rdr).spec_bytes(),
            pos0 == old(rdr).spec_pos(),
            rdr.spec_pos() >= pos0,
            0 <= i <= n,
            p_rep(b, pos0, i as int, f) == Some(
                (out@.map_values(|o: Object| o@), rdr.spec_pos()),
            ),
            f == f_object(),
        decreases n - i,
    {
        let ghost cur = rdr.spec_pos();
        let ghost acc = out@.map_values(|o: Object| o@);
        match read_object(rdr) {
            Ok(o) => {
                proof {
                    lemma_p_rep_compose(b, pos0, i as int, i as int + 1, f);
                    assert(f(b, cur) == p_object(b, cur));
                    assert(p_rep(b, rdr.spec_pos(), 0, f) == Some(
                        (Seq::<ObjView>::empty(), rdr.spec_pos()),
                    ));
                    assert(p_rep(b, cur, 1, f) == Some(
                        (seq![o@] + Seq::<ObjView>::empty(), rdr.spec_pos()),
                    ));
                    assert(seq![o@] + Seq::<ObjView>::empty() =~= seq![o@]);
                    assert(p_rep(b, pos0, i as int + 1, f) == Some(
                        (acc + seq![o@], rdr.spec_pos()),
                    ));
                }
                out.push(o);
                proof {
                    assert(out@.map_values(|o2: Object| o2@) =~= acc + seq![o@]);
                }
                i = i + 1;
            },
            Err(e) => {
                proof {
                    lemma_p_rep_compose(b, pos0, i as int, n as int, f);
                    assert(f(b, cur) == p_object(b, cur));
                    assert(p_rep(b, cur, n - i, f) is None);
                }
                return Err(e);
            },
        }
    }
    Ok(out)
}

/// Reads one outer-value descriptor, exactly `p_outerval`.
fn read_one_outerval(rdr: &mut Reader) -> (r: Result<(i64, Object, Object), Error>)
    requires
        old(rdr).wf(),
    ensures
        final(rdr).wf(),
        final(rdr).spec_bytes() == old(rdr).spec_bytes(),
        final(rdr).spec_pos() >= old(rdr).spec_pos(),
        match r {
            Ok(e) => p_outerval(old(rdr).spec_bytes(), old(rdr).spec_pos()) == Some(
                ((e.0, e.1@, e.2@), final(rdr).spec_pos()),
            ),
            Err(e) => p_outerval(old(rdr).spec_bytes(), old(rdr).spec_pos()) is None
                && e.is_runtime(),
        },
{
    let k = rdr.read_i64()?;
    let o1 = read_object(rdr)?;
    let o2 = read_object(rdr)?;
    Ok((k, o1, o2))
}

/// Reads one local-variable record, exactly `p_localvar`.
fn read_one_localvar(rdr: &mut Reader) -> (r: Result<(Object, i64, i64, i64), Error>)
    requires
        old(rdr).wf(),
    ensures
        final(rdr).wf(),
        final(rdr).spec_bytes() == old(rdr).spec_bytes(),
        final(rdr).spec_pos() >= old(rdr).spec_pos(),
        match r {
            Ok(e) => p_localvar(old(rdr).spec_bytes(), old(rdr).spec_pos()) == Some(
                ((e.0@, e.1, e.2, e.3), final(rdr).spec_pos()),
            ),
            Err(e) => p_localvar(old(rdr).spec_bytes(), old(rdr).spec_pos()) is None
                && e.is_runtime(),
        },
{
    let o = read_object(rdr)?;
    let a = rdr.read_i64()?;
    let c = rdr.read_i64()?;
    let d = rdr.read_i64()?;
    Ok((o, a, c, d))
}

/// Reads one line-info record, exactly `p_lineinfo`.
fn read_one_lineinfo(rdr: &mut Reader) -> (r: Result<(i64, i64), Error>)
    requires
        old(rdr).wf(),
    ensures
        final(rdr).wf(),
        final(rdr).spec_bytes() == old(rdr).spec_bytes(),
        final(rdr).spec_pos() >= old(rdr).spec_pos(),
        match r {
            Ok(e) => p_lineinfo(old(rdr).spec_bytes(), old(rdr).spec_pos()) == Some(
                (e, final(rdr).spec_pos()),
            ),
            Err(e) => p_lineinfo(old(rdr).spec_bytes(), old(rdr).spec_pos()) is None
                && e.is_runtime(),
        },
{
    let a = rdr.read_i64()?;
    let c = rdr.read_i64()?;
    Ok((a, c))
}

/// Reads `n` outer-value descriptors.
fn read_outervals(rdr: &mut Reader, n: i64) -> (r: Result<Vec<(i64, Object, Object)>, Error>)
    requires
        old(rdr).wf(),
    ensures
        final(rdr).wf(),
        final(rdr).spec_bytes() == old(rdr).spec_bytes(),
        final(rdr).spec_pos() >= old(rdr).spec_pos(),
        match r {
            Ok(v) => p_rep(old(rdr).spec_bytes(), old(rdr).spec_pos(), n as int, f_outerval())
                == Some(
                (
                    v@.map_values(|e: (i64, Object, Object)| (e.0, e.1@, e.2@)),
                    final(rdr).spec_pos(),
                ),
            ),
            Err(e) => p_rep(old(rdr).spec_bytes(), old(rdr).spec_pos(), n as int, f_outerval())
                is None && e.is_runtime(),
        },
{
    let ghost b = rdr.spec_bytes();
    let ghost pos0 = rdr.spec_pos();
    let ghost f = f_outerval();
    let mut out: Vec<(i64, Object, Object)> = Vec::new();
    if n <= 0 {
        proof {
            assert(out@.map_values(|e: (i64, Object, Object)| (e.0, e.1@, e.2@)) =~= Seq::<
                (i64, ObjView, ObjView),
            >::empty());
        }
        return Ok(out);
    }
    let mut i: i64 = 0;
    while i < n
        invariant
            rdr.wf(),
            rdr.spec_bytes() == b,
            b == old(rdr).spec_bytes(),
            pos0 == old(rdr).spec_pos(),
            rdr.spec_pos() >= pos0,
            0 <= i <= n,
            p_rep(b, pos0, i as int, f) == Some(
                (out@.map_values(|e: (i64, Object, Object)| (e.0, e.1@, e.2@)), rdr.spec_pos()),
            ),
            f == f_outerval(),
        decreases n - i,
    {
        let ghost cur = rdr.spec_pos();
        let ghost acc = out@.map_values(|e: (i64, Object, Object)| (e.0, e.1@, e.2@));
        let step: Result<(i64, Object, Object), Error> = read_one_outerval(rdr);
        match step {
            Ok(e) => {
                proof {
                    lemma_p_rep_compose(b, pos0, i as int, i as int + 1, f);
                    assert(f(b, cur) == p_outerval(b, cur));
                    assert(f(b, cur) == Some(((e.0, e.1@, e.2@), rdr.spec_pos())));
                    assert(p_rep(b, rdr.spec_pos(), 0, f) == Some(
                        (Seq::<(i64, ObjView, ObjView)>::empty(), rdr.spec_pos()),
                    ));
                    assert(p_rep(b, cur, 1, f) == Some(
                        (seq![(e.0, e.1@, e.2@)] + Seq::<(i64, ObjView, ObjView)>::empty(),
                        rdr.spec_pos()),
                    ));
                    assert(seq![(e.0, e.1@, e.2@)] + Seq::<(i64, ObjView, ObjView)>::empty() =~= seq![
                        (e.0, e.1@, e.2@),
                    ]);
                    assert(p_rep(b, pos0, i as int + 1, f) == Some(
                        (acc + seq![(e.0, e.1@, e.2@)], rdr.spec_pos()),
                    ));
                }
                let ghost ev = (e.0, e.1@, e.2@);
                out.push(e);
                proof {
                    assert(out@.map_values(|e2: (i64, Object, Object)| (e2.0, e2.1@, e2.2@)) =~= acc
                        + seq![ev]);
                }
                i = i + 1;
            },
            Err(e) => {
                proof {
                    lemma_p_rep_compose(b, pos0, i as int, n as int, f);
                    assert(f(b, cur) == p_outerval(b, cur));
                    assert(p_rep(b, cur, n - i, f) is None);
                }
                return Err(e);
            },
        }
    }
    Ok(out)
}

/// Reads `n` local-variable records.
fn read_localvars(rdr: &mut Reader, n: i64) -> (r: Result<Vec<(Object, i64, i64, i64)>, Error>)
    requires
        old(rdr).wf(),
    ensures
        final(rdr).wf(),
        final(rdr).spec_bytes() == old(rdr).spec_bytes(),
        final(rdr).spec_pos() >= old(rdr).spec_pos(),
        match r {
            Ok(v) => p_rep(old(rdr).spec_bytes(), old(rdr).spec_pos(), n as int, f_localvar())
                == Some(
                (
                    v@.map_values(|e: (Object, i64, i64, i64)| (e.0@, e.1, e.2, e.3)),
                    final(rdr).spec_pos(),
                ),
            ),
            Err(e) => p_rep(old(rdr).spec_bytes(), old(rdr).spec_pos(), n as int, f_localvar())
                is None && e.is_runtime(),
        },
{
    let ghost b = rdr.spec_bytes();
    let ghost pos0 = rdr.spec_pos();
    let ghost f = f_localvar();
    let mut out: Vec<(Object, i64, i64, i64)> = Vec::new();
    if n <= 0 {
        proof {
            assert(out@.map_values(|e: (Object, i64, i64, i64)| (e.0@, e.1, e.2, e.3)) =~= Seq::<
                (ObjView, i64, i64, i64),
            >::empty());
        }
        return Ok(out);
    }
    let mut i: i64 = 0;
    while i < n
        invariant
            rdr.wf(),
            rdr.spec_bytes() == b,
            b == old(rdr).spec_bytes(),
            pos0 == old(rdr).spec_pos(),
            rdr.spec_pos() >= pos0,
            0 <= i <= n,
            p_rep(b, pos0, i as int, f) == Some(
                (
                    out@.map_values(|e: (Object, i64, i64, i64)| (e.0@, e.1, e.2, e.3)),
                    rdr.spec_pos(),
                ),
            ),
            f == f_localvar(),
        decreases n - i,
    {
        let ghost cur = rdr.spec_pos();
        let ghost acc = out@.map_values(|e: (Object, i64, i64, i64)| (e.0@, e.1, e.2, e.3));
        let step: Result<(Object, i64, i64, i64), Error> = read_one_localvar(rdr);
        match step {
            Ok(e) => {
                proof {
                    lemma_p_rep_compose(b, pos0, i as int, i as int + 1, f);
                    assert(f(b, cur) == p_localvar(b, cur));
                    assert(f(b, cur) == Some(((e.0@, e.1, e.2, e.3), rdr.spec_pos())));
                    assert(p_rep(b, rdr.spec_pos(), 0, f) == Some(
                        (Seq::<(ObjView, i64, i64, i64)>::empty(), rdr.spec_pos()),
                    ));
                    assert(p_rep(b, cur, 1, f) == Some(
                        (seq![(e.0@, e.1, e.2, e.3)] + Seq::<(ObjView, i64, i64, i64)>::empty(),
                        rdr.spec_pos()),
                    ));
                    assert(seq![(e.0@, e.1, e.2, e.3)] + Seq::<(ObjView, i64, i64, i64)>::empty()
                        =~= seq![(e.0@, e.1, e.2, e.3)]);
                    assert(p_rep(b, pos0, i as int + 1, f) == Some(
                        (acc + seq![(e.0@, e.1, e.2, e.3)], rdr.spec_pos()),
                    ));
                }
                let ghost ev = (e.0@, e.1, e.2, e.3);
                out.push(e);
                proof {
                    assert(out@.map_values(|e2: (Object, i64, i64, i64)| (e2.0@, e2.1, e2.2, e2.3))
                        =~= acc + seq![ev]);
                }
                i = i + 1;
            },
            Err(e) => {
                proof {
                    lemma_p_rep_compose(b, pos0, i as int, n as int, f);
                    assert(f(b, cur) == p_localvar(b, cur));
                    assert(p_rep(b, cur, n - i, f) is None);
                }
                return Err(e);
            },
        }
    }
    Ok(out)
}

/// Reads `n` line-info records.
fn read_lineinfos(rdr: &mut Reader, n: i64) -> (r: Result<Vec<(i64, i64)>, Error>)
    requires
        old(rdr).wf(),
    ensures
        final(rdr).wf(),
        final(rdr).spec_bytes() == old(rdr).spec_bytes(),
        final(rdr).spec_pos() >= old(rdr).spec_pos(),
        match r {
            Ok(v) => p_rep(old(rdr).spec_bytes(), old(rdr).spec_pos(), n as int, f_lineinfo())
                == Some((v@, final(rdr).spec_pos())),
            Err(e) => p_rep(old(rdr).spec_bytes(), old(rdr).spec_pos(), n as int, f_lineinfo())
                is None && e.is_runtime(),
        },
{
    let ghost b = rdr.spec_bytes();
    let ghost pos0 = rdr.spec_pos();
    let ghost f = f_lineinfo();
    let mut out: Vec<(i64, i64)> = Vec::new();
    if n <= 0 {
        return Ok(out);
    }
    let mut i: i64 = 0;
    while i < n
        invariant
            rdr.wf(),
            rdr.spec_bytes() == b,
            b == old(rdr).spec_bytes(),
            pos0 == old(rdr).spec_pos(),
            rdr.spec_pos() >= pos0,
            0 <= i <= n,
            p_rep(b, pos0, i as int, f) == Some((out@, rdr.spec_pos())),
            f == f_lineinfo(),
        decreases n - i,
    {
        let ghost cur = rdr.spec_pos();
        let ghost acc = out@;
        let step: Result<(i64, i64), Error> = read_one_lineinfo(rdr);
        match step {
            Ok(e) => {
                proof {
                    lemma_p_rep_compose(b, pos0, i as int, i as int + 1, f);
                    assert(f(b, cur) == p_lineinfo(b, cur));
                    assert(p_rep(b, rdr.spec_pos(), 0, f) == Some(
                        (Seq::<(i64, i64)>::empty(), rdr.spec_pos()),
                    ));
                    assert(p_rep(b, cur, 1, f) == Some(
                        (seq![e] + Seq::<(i64, i64)>::empty(), rdr.spec_pos()),
                    ));
                    assert(seq![e] + Seq::<(i64, i64)>::empty() =~= seq![e]);
                    assert(p_rep(b, pos0, i as int + 1, f) == Some((acc + seq![e], rdr.spec_pos())));
                }
                out.push(e);
                proof {
                    assert(out@ =~= acc + seq![e]);
                }
                i = i + 1;
            },
            Err(e) => {
                proof {
                    lemma_p_rep_compose(b, pos0, i as int, n as int, f);
                    assert(f(b, cur) == p_lineinfo(b, cur));
                    assert(p_rep(b, cur, n - i, f) is None);
                }
                return Err(e);
            },
        }
    }
    Ok(out)
}

/// Reads `n` signed integers.
fn read_i64s(rdr: &mut Reader, n: i64) -> (r: Result<Vec<i64>, Error>)
    requires
        old(rdr).wf(),
    ensures
        final(rdr).wf(),
        final(rdr).spec_bytes() == old(rdr).spec_bytes(),
        final(rdr).spec_pos() >= old(rdr).spec_pos(),
        match r {
            Ok(v) => p_rep(old(rdr).spec_bytes(), old(rdr).spec_pos(), n as int, f_i64()) == Some(
                (v@, final(rdr).spec_pos()),
            ),
            Err(e) => p_rep(old(rdr).spec_bytes(), old(rdr).spec_pos(), n as int, f_i64()) is None
                && e.is_runtime(),
        },
{
    let ghost b = rdr.spec_bytes();
    let ghost pos0 = rdr.spec_pos();
    let ghost f = f_i64();
    let mut out: Vec<i64> = Vec::new();
    if n <= 0 {
        return Ok(out);
    }
    let mut i: i64 = 0;
    while i < n
        invariant
            rdr.wf(),
            rdr.spec_bytes() == b,
            b == old(rdr).spec_bytes(),
            pos0 == old(rdr).spec_pos(),
            rdr.spec_pos() >= pos0,
            0 <= i <= n,
            p_rep(b, pos0, i as int, f) == Some((out@, rdr.spec_pos())),
            f == f_i64(),
        decreases n - i,
    {
        let ghost cur = rdr.spec_pos();
        let ghost acc = out@;
        match rdr.read_i64() {
            Ok(e) => {
                proof {
                    lemma_p_rep_compose(b, pos0, i as int, i as int + 1, f);
                    assert(f(b, cur) == p_i64(b, cur));
                    assert(p_rep(b, rdr.spec_pos(), 0, f) == Some(
                        (Seq::<i64>::empty(), rdr.spec_pos()),
                    ));
                    assert(p_rep(b, cur, 1, f) == Some(
                        (seq![e] + Seq::<i64>::empty(), rdr.spec_pos()),
                    ));
                    assert(seq![e] + Seq::<i64>::empty() =~= seq![e]);
                    assert(p_rep(b, pos0, i as int + 1, f) == Some((acc + seq![e], rdr.spec_pos())));
                }
                out.push(e);
                proof {
                    assert(out@ =~= acc + seq![e]);
                }
                i = i + 1;
            },
            Err(e) => {
                proof {
                    lemma_p_rep_compose(b, pos0, i as int, n as int, f);
                    assert(f(b, cur) == p_i64(b, cur));
                    assert(p_rep(b, cur, n - i, f) is None);
                }
                return Err(e);
            },
        }
    }
    Ok(out)
}

/// Reads `n` instructions.
fn read_instructions(rdr: &mut Reader, n: i64) -> (r: Result<
    Vec<crate::bytecode::Instruction>,
    Error,
>)
    requires
        old(rdr).wf(),
    ensures
        final(rdr).wf(),
        final(rdr).spec_bytes() == old(rdr).spec_bytes(),
        final(rdr).spec_pos() >= old(rdr).spec_pos(),
        match r {
            Ok(v) => p_rep(old(rdr).spec_bytes(), old(rdr).spec_pos(), n as int, f_instruction())
                == Some((v@, final(rdr).spec_pos())),
            Err(e) => p_rep(old(rdr).spec_bytes(), old(rdr).spec_pos(), n as int, f_instruction())
                is None && e.is_runtime(),
        },
{
    let ghost b = rdr.spec_bytes();
    let ghost pos0 = rdr.spec_pos();
    let ghost f = f_instruction();
    let mut out: Vec<crate::bytecode::Instruction> = Vec::new();
    if n <= 0 {
        return Ok(out);
    }
    let mut i: i64 = 0;
    while i < n
        invariant
            rdr.wf(),
            rdr.spec_bytes() == b,
            b == old(rdr).spec_bytes(),
            pos0 == old(rdr).spec_pos(),
            rdr.spec_pos() >= pos0,
            0 <= i <= n,
            p_rep(b, pos0, i as int, f) == Some((out@, rdr.spec_pos())),
            f == f_instruction(),
        decreases n - i,
    {
        let ghost cur = rdr.spec_pos();
        let ghost acc = out@;
        match crate::bytecode::Instruction::read(rdr) {
            Ok(e) => {
                proof {
                    lemma_p_rep_compose(b, pos0, i as int, i as int + 1, f);
                    assert(f(b, cur) == crate::bytecode::p_instruction(b, cur));
                    assert(p_rep(b, rdr.spec_pos(), 0, f) == Some(
                        (Seq::<crate::bytecode::Instruction>::empty(), rdr.spec_pos()),
                    ));
                    assert(p_rep(b, cur, 1, f) == Some(
                        (seq![e] + Seq::<crate::bytecode::Instruction>::empty(), rdr.spec_pos()),
                    ));
                    assert(seq![e] + Seq::<crate::bytecode::Instruction>::empty() =~= seq![e]);
                    assert(p_rep(b, pos0, i as int + 1, f) == Some((acc + seq![e], rdr.spec_pos())));
                }
                out.push(e);
                proof {
                    assert(out@ =~= acc + seq![e]);
                }
                i = i + 1;
            },
            Err(e) => {
                proof {
                    lemma_p_rep_compose(b, pos0, i as int, n as int, f);
                    assert(f(b, cur) == crate::bytecode::p_instruction(b, cur));
                    assert(p_rep(b, cur, n - i, f) is None);
                }
                return Err(e);
            },
        }
    }
    Ok(out)
}

/// Splitting a prototype repetition: parsing `n` prototypes equals parsing
/// `i`, then the remaining `n - i` from where the first part stopped.
pub proof fn lemma_p_protos_compose(b: Seq<u8>, pos: int, i: int, n: int)
    requires
        0 <= i <= n,
    ensures
        p_protos(b, pos, n) == (match p_protos(b, pos, i) {
            None => None,
            Some((vs1, p1)) => match p_protos(b, p1, n - i) {
                None => None,
                Some((vs2, p2)) => Some((vs1 + vs2, p2)),
            },
        }),
    decreases i,
{
    if i <= 0 {
        match p_protos(b, pos, n) {
            None => {
                assert(p_protos(b, pos, 0) == Some((Seq::<ProtoView>::empty(), pos)));
            },
            Some((vs, p)) => {
                assert(Seq::<ProtoView>::empty() + vs =~= vs);
            },
        }
    } else {
        match p_funcproto(b, pos) {
            None => {},
            Some((t, p1)) => {
                if pos < p1 <= b.len() {
                    lemma_p_protos_compose(b, p1, i - 1, n - 1);
                    match p_protos(b, p1, i - 1) {
                        None => {},
                        Some((vs1, q1)) => {
                            assert(p_protos(b, pos, i) == Some((seq![t] + vs1, q1)));
                            match p_protos(b, q1, n - i) {
                                None => {
                                    assert(p_protos(b, p1, n - 1) is None);
                                },
                                Some((vs2, q2)) => {
                                    assert(p_protos(b, p1, n - 1) == Some((vs1 + vs2, q2)));
                                    assert(seq![t] + (vs1 + vs2) =~= (seq![t] + vs1) + vs2);
                                },
                            }
                        },
                    }
                }
            },
        }
    }
}

/// Reads `n` serialized prototypes into the heap's prototype arena, exactly
/// `p_protos`, and returns their slots, each laying out its parsed tree.
fn read_protos(rdr: &mut Reader, heap: &mut Heap, n: i64) -> (r: Result<Vec<usize>, Error>)
    requires
        old(rdr).wf(),
    ensures
        final(rdr).wf(),
        final(rdr).spec_bytes() == old(rdr).spec_bytes(),
        final(rdr).spec_pos() >= old(rdr).spec_pos(),
        final(heap).tables@ == old(heap).tables@,
        final(heap).arrays@ == old(heap).arrays@,
        final(heap).closures@ == old(heap).closures@,
        old(heap).protos@.len() <= final(heap).protos@.len(),
        forall|i: int|
            0 <= i < old(heap).protos@.len() ==> final(heap).protos@[i] == old(heap).protos@[i],
        match r {
            Ok(v) => {
                &&& p_protos(old(rdr).spec_bytes(), old(rdr).spec_pos(), n as int) matches Some(pv)
                &&& final(rdr).spec_pos() == p_protos(
                    old(rdr).spec_bytes(),
                    old(rdr).spec_pos(),
                    n as int,
                ).unwrap().1
                &&& v@.len() == p_protos(
                    old(rdr).spec_bytes(),
                    old(rdr).spec_pos(),
                    n as int,
                ).unwrap().0.len()
                &&& forall|j: int|
                    0 <= j < v@.len() ==> ((#[trigger] v@[j] as int) < final(heap).protos@.len()
                        && proto_rep(
                        final(heap).protos@,
                        v@[j] as int,
                        p_protos(
                            old(rdr).spec_bytes(),
                            old(rdr).spec_pos(),
                            n as int,
                        ).unwrap().0[j],
                    ))
            },
            Err(e) => p_protos(old(rdr).spec_bytes(), old(rdr).spec_pos(), n as int) is None
                && e.is_runtime(),
        },
    decreases rdr.spec_bytes().len() - rdr.spec_pos(), n as int,
{
    let ghost b = rdr.spec_bytes();
    let ghost pos0 = rdr.spec_pos();
    let mut out: Vec<usize> = Vec::new();
    if n <= 0 {
        return Ok(out);
    }
    let ghost trees_init: Seq<ProtoView> = Seq::empty();
    let ghost mut trees: Seq<ProtoView> = trees_init;
    let mut i: i64 = 0;
    while i < n
        invariant
            rdr.wf(),
            rdr.spec_bytes() == b,
            b == old(rdr).spec_bytes(),
            pos0 == old(rdr).spec_pos(),
            pos0 <= rdr.spec_pos(),
            0 <= i <= n,
            1 <= n,
            trees.len() == i,
            out@.len() == i,
            p_protos(b, pos0, i as int) == Some((trees, rdr.spec_pos())),
            heap.tables@ == old(heap).tables@,
            heap.arrays@ == old(heap).arrays@,
            heap.closures@ == old(heap).closures@,
            old(heap).protos@.len() <= heap.protos@.len(),
            forall|k: int|
                0 <= k < old(heap).protos@.len() ==> heap.protos@[k] == old(heap).protos@[k],
            forall|j: int|
                0 <= j < i ==> ((#[trigger] out@[j] as int) < heap.protos@.len() && proto_rep(
                    heap.protos@,
                    out@[j] as int,
                    trees[j],
                )),
        decreases n - i,
    {
        let ghost cur = rdr.spec_pos();
        let ghost protos_before = heap.protos@;
        match read_funcproto(rdr, heap) {
            Ok(pid) => {
                proof {
                    assert forall|j: int| 0 <= j < i implies ((#[trigger] out@[j] as int)
                        < heap.protos@.len() && proto_rep(
                        heap.protos@,
                        out@[j] as int,
                        trees[j],
                    )) by {
                        lemma_proto_rep_prefix(
                            protos_before,
                            heap.protos@,
                            out@[j] as int,
                            trees[j],
                        );
                    }
                    let tv = p_funcproto(b, cur).unwrap().0;
                    lemma_p_protos_compose(b, pos0, i as int, i as int + 1);
                    assert(p_protos(b, rdr.spec_pos(), 0) == Some(
                        (Seq::<ProtoView>::empty(), rdr.spec_pos()),
                    ));
                    assert(p_protos(b, cur, 1) == Some(
                        (seq![tv] + Seq::<ProtoView>::empty(), rdr.spec_pos()),
                    ));
                    assert(seq![tv] + Seq::<ProtoView>::empty() =~= seq![tv]);
                    assert(p_protos(b, pos0, i as int + 1) == Some(
                        (trees + seq![tv], rdr.spec_pos()),
                    ));
                    trees = trees + seq![tv];
                }
                out.push(pid);
                i = i + 1;
            },
            Err(e) => {
                proof {
                    lemma_p_protos_compose(b, pos0, i as int, n as int);
                    assert(p_protos(b, cur, n - i) is None);
                }
                return Err(e);
            },
        }
    }
    Ok(out)
}

/// Reads one serialized prototype into the heap's prototype arena: exactly
/// `p_funcproto`, with the nested prototypes allocated below their parent.
/// The new slot lays out the parsed tree.
#[verifier::rlimit(100)]
pub fn read_funcproto(rdr: &mut Reader, heap: &mut Heap) -> (r: Result<usize, Error>)
    requires
        old(rdr).wf(),
    ensures
        final(rdr).wf(),
        final(rdr).spec_bytes() == old(rdr).spec_bytes(),
        final(rdr).spec_pos() >= old(rdr).spec_pos(),
        final(heap).tables@ == old(heap).tables@,
        final(heap).arrays@ == old(heap).arrays@,
        final(heap).closures@ == old(heap).closures@,
        old(heap).protos@.len() <= final(heap).protos@.len(),
        forall|i: int|
            0 <= i < old(heap).protos@.len() ==> final(heap).protos@[i] == old(heap).protos@[i],
        match r {
            Ok(pid) => {
                &&& p_funcproto(old(rdr).spec_bytes(), old(rdr).spec_pos()) matches Some(v)
                &&& final(rdr).spec_pos() == p_funcproto(
                    old(rdr).spec_bytes(),
                    old(rdr).spec_pos(),
                ).unwrap().1
                &&& old(rdr).spec_pos() < final(rdr).spec_pos()
                &&& (pid as int) == final(heap).protos@.len() - 1
                &&& proto_rep(
                    final(heap).protos@,
                    pid as int,
                    p_funcproto(old(rdr).spec_bytes(), old(rdr).spec_pos()).unwrap().0,
                )
            },
            Err(e) => p_funcproto(old(rdr).spec_bytes(), old(rdr).spec_pos()) is None
                && e.is_runtime(),
        },
    decreases rdr.spec_bytes().len() - rdr.spec_pos(), 0int,
{
    let ghost b = rdr.spec_bytes();
    let ghost pos0 = rdr.spec_pos();
    expect_tag(rdr, TAG_CLOSURESTREAM_PART)?;
    let source_name = read_object(rdr)?;
    let name = read_object(rdr)?;
    expect_tag(rdr, TAG_CLOSURESTREAM_PART)?;
    let nliterals = rdr.read_i64()?;
    let nparameters = rdr.read_i64()?;
    let noutervalues = rdr.read_i64()?;
    let nlocalvarinfos = rdr.read_i64()?;
    let nlineinfos = rdr.read_i64()?;
    let ndefaultparams = rdr.read_i64()?;
    let ninstructions = rdr.read_i64()?;
    let nfunctions = rdr.read_i64()?;
    expect_tag(rdr, TAG_CLOSURESTREAM_PART)?;
    let literals = read_objects(rdr, nliterals)?;
    expect_tag(rdr, TAG_CLOSURESTREAM_PART)?;
    let parameters = read_objects(rdr, nparameters)?;
    expect_tag(rdr, TAG_CLOSURESTREAM_PART)?;
    let outervalues = read_outervals(rdr, noutervalues)?;
    expect_tag(rdr, TAG_CLOSURESTREAM_PART)?;
    let localvarinfos = read_localvars(rdr, nlocalvarinfos)?;
    expect_tag(rdr, TAG_CLOSURESTREAM_PART)?;
    let lineinfos = read_lineinfos(rdr, nlineinfos)?;
    expect_tag(rdr, TAG_CLOSURESTREAM_PART)?;
    let defaultparams = read_i64s(rdr, ndefaultparams)?;
    expect_tag(rdr, TAG_CLOSURESTREAM_PART)?;
    let instructions = read_instructions(rdr, ninstructions)?;
    expect_tag(rdr, TAG_CLOSURESTREAM_PART)?;
    let ghost start_f = rdr.spec_pos();
    let functions = read_protos(rdr, heap, nfunctions)?;
    let ghost trees = p_protos(b, start_f, nfunctions as int).unwrap().0;
    let stacksize = rdr.read_i64()?;
    let _generator_flag = rdr.read_u8()?;
    let _varparams = rdr.read_i64()?;
    let fp = crate::object::FuncProto {
        source_name,
        name,
        literals,
        parameters,
        outervalues,
        localvarinfos,
        lineinfos,
        defaultparams,
        instructions,
        functions,
        stacksize,
    };
    let ghost protos_before_push = heap.protos@;
    heap.protos.push(fp);
    let pid = heap.protos.len() - 1;
    proof {
        let fpv = heap.protos@[pid as int];
        let tree = ProtoView {
            source_name: fpv.source_name@,
            name: fpv.name@,
            literals: fpv.literals@.map_values(|o: Object| o@),
            parameters: fpv.parameters@.map_values(|o: Object| o@),
            outervalues: fpv.outervalues@.map_values(
                |e: (i64, Object, Object)| (e.0, e.1@, e.2@),
            ),
            localvarinfos: fpv.localvarinfos@.map_values(
                |e: (Object, i64, i64, i64)| (e.0@, e.1, e.2, e.3),
            ),
            lineinfos: fpv.lineinfos@,
            defaultparams: fpv.defaultparams@,
            instructions: fpv.instructions@,
            functions: trees,
            stacksize: fpv.stacksize,
        };
        assert(p_funcproto(b, pos0) == Some((tree, rdr.spec_pos())));
        assert forall|k: int| 0 <= k < tree.functions.len() implies ((
        #[trigger] fpv.functions@[k] as int) < pid as int && proto_rep(
            heap.protos@,
            fpv.functions@[k] as int,
            tree.functions[k],
        )) by {
            lemma_proto_rep_prefix(
                protos_before_push,
                heap.protos@,
                fpv.functions@[k] as int,
                trees[k],
            );
        }
        assert(proto_rep(heap.protos@, pid as int, tree));
    }
    Ok(pid)
}

/// Loads a whole bytecode file: checks the magic number, the head tag and
/// the declared sizes, reads the one top-level prototype, checks the tail
/// tag, and wraps the prototype in a fresh closure.  Exactly `p_closure`.
pub fn read_closure(rdr: &mut Reader, heap: &mut Heap) -> (r: Result<Object, Error>)
    requires
        old(rdr).wf(),
    ensures
        final(rdr).wf(),
        final(rdr).spec_bytes() == old(rdr).spec_bytes(),
        final(heap).tables@ == old(heap).tables@,
        final(heap).arrays@ == old(heap).arrays@,
        old(heap).protos@.len() <= final(heap).protos@.len(),
        forall|i: int|
            0 <= i < old(heap).protos@.len() ==> final(heap).protos@[i] == old(heap).protos@[i],
        forall|i: int|
            0 <= i < old(heap).closures@.len() ==> final(heap).closures@[i] == old(
                heap,
            ).closures@[i],
        match r {
            Ok(obj) => {
                &&& p_closure(old(rdr).spec_bytes(), old(rdr).spec_pos()) matches Some(v)
                &&& final(rdr).spec_pos() == p_closure(
                    old(rdr).spec_bytes(),
                    old(rdr).spec_pos(),
                ).unwrap().1
                &&& obj@ == ObjView::Closure((final(heap).closures@.len() - 1) as usize)
                &&& final(heap).closures@.len() == old(heap).closures@.len() + 1
                &&& final(heap).closures@.last().func_proto@ == ObjView::FuncProto(
                    (final(heap).protos@.len() - 1) as usize,
                )
                &&& final(heap).protos@.len() >= 1
                &&& proto_rep(
                    final(heap).protos@,
                    final(heap).protos@.len() - 1,
                    p_closure(old(rdr).spec_bytes(), old(rdr).spec_pos()).unwrap().0,
                )
            },
            Err(e) => p_closure(old(rdr).spec_bytes(), old(rdr).spec_pos()) is None
                && e.is_runtime() && final(heap).closures@ == old(heap).closures@,
        },
{
    let ghost b = rdr.spec_bytes();
    let ghost pos0 = rdr.spec_pos();
    let file_tag = rdr.read_u16()?;
    if file_tag != TAG_BYTECODE_STREAM {
        return Err(Error::RuntimeError("missing bytecode stream tag".to_owned()));
    }
    expect_tag(rdr, TAG_CLOSURESTREAM_HEAD)?;
    expect_tag(rdr, TAG_SIZE_CHAR)?;
    expect_tag(rdr, TAG_SIZE_INTEGER)?;
    expect_tag(rdr, TAG_SIZE_FLOAT)?;
    let pid = read_funcproto(rdr, heap)?;
    expect_tag(rdr, TAG_CLOSURESTREAM_TAIL)?;
    let cid = heap.alloc_closure(Object::FuncProto(pid));
    Ok(Object::Closure(cid))
}

} // verus!
