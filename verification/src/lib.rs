//! Core of a register-based bytecode interpreter for a Squirrel-family
//! scripting language: a tagged value model, function prototypes and closures,
//! a strict loader for the compiled binary format, and a dispatch loop over a
//! fixed-capacity value stack with nested call frames.
//!
//! Heap containers (tables, arrays, closures, prototypes) live in arenas owned
//! by the executor; values refer to them by index.  This keeps every value a
//! plain datum that contracts can speak about directly.
use vstd::prelude::*;

pub mod bytecode;
pub mod io;
pub mod object;
pub mod vm;

verus! {

/// The two error kinds of the interpreter.  `RuntimeError` covers every
/// semantic failure: malformed bytecode, an unsupported opcode, a type
/// mismatch, a missing table key, an exhausted stack.  `IoError` is reserved
/// for a failed read of the underlying byte stream; the embedder maps its own
/// input failures into it.
#[derive(Debug)]
pub enum Error {
    RuntimeError(String),
    IoError(String),
}

impl Error {
    /// True of the `RuntimeError` variant; contracts use it to say which kind
    /// of error a function produces.
    pub open spec fn is_runtime(&self) -> bool {
        self is RuntimeError
    }
}

/// The mathematical shape of a value: the same variants as `Object`, with text
/// as a sequence of characters.  Contracts and spec functions speak of values
/// through this type.
pub enum ObjView {
    Null,
    Bool(bool),
    Integer(i64),
    Float(u32),
    String(Seq<char>),
    FuncProto(usize),
    Closure(usize),
    NativeClosure(usize),
    Table(usize),
    Array(usize),
}

/// A tagged value.  Scalars carry their payload directly; `Float` carries the
/// raw IEEE-754 single-precision bits, which the core never interprets; the
/// reference variants carry an index into the arena that owns the object.
#[derive(Debug)]
pub enum Object {
    Null,
    Bool(bool),
    Integer(i64),
    Float(u32),
    String(String),
    FuncProto(usize),
    Closure(usize),
    NativeClosure(usize),
    Table(usize),
    Array(usize),
}

impl View for Object {
    type V = ObjView;

    open spec fn view(&self) -> ObjView {
        match self {
            Object::Null => ObjView::Null,
            Object::Bool(b) => ObjView::Bool(*b),
            Object::Integer(i) => ObjView::Integer(*i),
            Object::Float(f) => ObjView::Float(*f),
            Object::String(s) => ObjView::String(s@),
            Object::FuncProto(p) => ObjView::FuncProto(*p),
            Object::Closure(c) => ObjView::Closure(*c),
            Object::NativeClosure(n) => ObjView::NativeClosure(*n),
            Object::Table(t) => ObjView::Table(*t),
            Object::Array(a) => ObjView::Array(*a),
        }
    }
}

impl Clone for Object {
    /// A clone is the same value: scalars are copied and a reference variant
    /// keeps its index, so both clones name the same heap object.
    fn clone(&self) -> (r: Object)
        ensures
            r@ == self@,
    {
        match self {
            Object::Null => Object::Null,
            Object::Bool(b) => Object::Bool(*b),
            Object::Integer(i) => Object::Integer(*i),
            Object::Float(f) => Object::Float(*f),
            Object::String(s) => Object::String(s.clone()),
            Object::FuncProto(p) => Object::FuncProto(*p),
            Object::Closure(c) => Object::Closure(*c),
            Object::NativeClosure(n) => Object::NativeClosure(*n),
            Object::Table(t) => Object::Table(*t),
            Object::Array(a) => Object::Array(*a),
        }
    }
}

/// Only integers, booleans and strings may serve as table keys; every other
/// variant is rejected by the table operations.
pub open spec fn spec_hashable(v: ObjView) -> bool {
    v is Integer || v is Bool || v is String
}

/// Value equality as the instruction set observes it: integers, booleans and
/// strings compare by payload; every other pairing, same-variant included, is
/// unequal.
pub open spec fn spec_obj_eq(a: ObjView, b: ObjView) -> bool {
    match (a, b) {
        (ObjView::Integer(x), ObjView::Integer(y)) => x == y,
        (ObjView::Bool(x), ObjView::Bool(y)) => x == y,
        (ObjView::String(x), ObjView::String(y)) => x == y,
        _ => false,
    }
}

impl Object {
    /// A value naming a fresh empty table allocated in `heap`.
    pub fn new_table(heap: &mut crate::object::Heap) -> (r: Object)
        ensures
            r@ == ObjView::Table(old(heap).tables_view().len() as usize),
            final(heap).tables_view() == old(heap).tables_view().push(
                Seq::<(ObjView, ObjView)>::empty(),
            ),
            final(heap).arrays@ == old(heap).arrays@,
            final(heap).protos@ == old(heap).protos@,
            final(heap).closures@ == old(heap).closures@,
            old(heap).tables_wf() ==> final(heap).tables_wf(),
    {
        Object::Table(heap.alloc_table())
    }

    /// A value naming a fresh empty array allocated in `heap`, with space
    /// pre-reserved for `capacity` elements.
    pub fn new_array(heap: &mut crate::object::Heap, capacity: i64) -> (r: Object)
        ensures
            r@ == ObjView::Array(old(heap).arrays_view().len() as usize),
            final(heap).arrays_view() == old(heap).arrays_view().push(Seq::<ObjView>::empty()),
            final(heap).tables@ == old(heap).tables@,
            final(heap).protos@ == old(heap).protos@,
            final(heap).closures@ == old(heap).closures@,
    {
        Object::Array(heap.alloc_array(capacity))
    }

    /// A string value holding the given text.
    pub fn new_string(s: &str) -> (r: Object)
        ensures
            r@ == ObjView::String(s@),
    {
        Object::String(s.to_owned())
    }

    /// The closure behind a closure value, borrowed from the heap.
    pub fn closure_ref<'a>(&self, heap: &'a crate::object::Heap) -> (r: Result<
        &'a crate::object::Closure,
        Error,
    >)
        ensures
            match r {
                Ok(c) => self@ matches ObjView::Closure(cid) && (cid as int)
                    < heap.closures@.len() && *c == heap.closures@[self@->Closure_0 as int],
                Err(e) => e.is_runtime(),
            },
    {
        let cid = self.closure()?;
        if cid < heap.closures.len() {
            Ok(&heap.closures[cid])
        } else {
            Err(Error::RuntimeError("stale closure reference".to_owned()))
        }
    }

    /// The prototype behind a prototype value, borrowed from the heap.
    pub fn func_proto_ref<'a>(&self, heap: &'a crate::object::Heap) -> (r: Result<
        &'a crate::object::FuncProto,
        Error,
    >)
        ensures
            match r {
                Ok(fp) => self@ matches ObjView::FuncProto(pid) && (pid as int)
                    < heap.protos@.len() && *fp == heap.protos@[self@->FuncProto_0 as int],
                Err(e) => e.is_runtime(),
            },
    {
        let pid = self.func_proto()?;
        if pid < heap.protos.len() {
            Ok(&heap.protos[pid])
        } else {
            Err(Error::RuntimeError("stale prototype reference".to_owned()))
        }
    }

    /// True of the variants that may serve as table keys.
    pub fn is_hashable(&self) -> (r: bool)
        ensures
            r == spec_hashable(self@),
    {
        match self {
            Object::Integer(_) => true,
            Object::Bool(_) => true,
            Object::String(_) => true,
            _ => false,
        }
    }

    /// Equality as the `EQ` opcode and table lookup observe it.
    pub fn obj_eq(&self, other: &Object) -> (r: bool)
        ensures
            r == spec_obj_eq(self@, other@),
    {
        match (self, other) {
            (Object::Integer(x), Object::Integer(y)) => *x == *y,
            (Object::Bool(x), Object::Bool(y)) => *x == *y,
            (Object::String(x), Object::String(y)) => x.eq(y),
            _ => false,
        }
    }

    /// The precise type name of a value, as diagnostics use it.
    pub fn kind_name(&self) -> (r: &'static str)
        ensures
            r@ == spec_kind_name(self@),
    {
        match self {
            Object::Integer(_) => "int",
            Object::Bool(_) => "bool",
            Object::Float(_) => "float",
            Object::String(_) => "string",
            Object::FuncProto(_) => "func_proto",
            Object::Closure(_) => "closure",
            Object::NativeClosure(_) => "nativeclosure",
            Object::Table(_) => "table",
            Object::Array(_) => "array",
            Object::Null => "null",
        }
    }

    /// The name the `TYPEOF` opcode reports: all callables collapse to
    /// `"function"`.
    pub fn typesystem_name(&self) -> (r: &'static str)
        ensures
            r@ == spec_typesystem_name(self@),
    {
        match self {
            Object::Integer(_) => "integer",
            Object::Bool(_) => "bool",
            Object::Float(_) => "float",
            Object::String(_) => "string",
            Object::FuncProto(_) => "function",
            Object::Closure(_) => "function",
            Object::NativeClosure(_) => "function",
            Object::Table(_) => "table",
            Object::Array(_) => "array",
            Object::Null => "null",
        }
    }

    /// The string payload, or a runtime error on any other variant.
    pub fn string(&self) -> (r: Result<&str, Error>)
        ensures
            match r {
                Ok(s) => self@ matches ObjView::String(v) && s@ == v,
                Err(e) => !(self@ is String) && e.is_runtime(),
            },
    {
        match self {
            Object::String(s) => Ok(s.as_str()),
            _ => Err(Error::RuntimeError("expected string".to_owned())),
        }
    }

    /// The closure index, or a runtime error on any other variant.
    pub fn closure(&self) -> (r: Result<usize, Error>)
        ensures
            match r {
                Ok(c) => self@ == ObjView::Closure(c),
                Err(e) => !(self@ is Closure) && e.is_runtime(),
            },
    {
        match self {
            Object::Closure(c) => Ok(*c),
            _ => Err(Error::RuntimeError("expected closure".to_owned())),
        }
    }

    /// The prototype index, or a runtime error on any other variant.
    pub fn func_proto(&self) -> (r: Result<usize, Error>)
        ensures
            match r {
                Ok(p) => self@ == ObjView::FuncProto(p),
                Err(e) => !(self@ is FuncProto) && e.is_runtime(),
            },
    {
        match self {
            Object::FuncProto(p) => Ok(*p),
            _ => Err(Error::RuntimeError("expected FuncProto".to_owned())),
        }
    }

    /// The integer payload, or a runtime error on any other variant.
    pub fn integer(&self) -> (r: Result<i64, Error>)
        ensures
            match r {
                Ok(i) => self@ == ObjView::Integer(i),
                Err(e) => !(self@ is Integer) && e.is_runtime(),
            },
    {
        match self {
            Object::Integer(i) => Ok(*i),
            _ => Err(Error::RuntimeError("expected Integer".to_owned())),
        }
    }

    /// The table index, or a runtime error on any other variant.
    pub fn table(&self) -> (r: Result<usize, Error>)
        ensures
            match r {
                Ok(t) => self@ == ObjView::Table(t),
                Err(e) => !(self@ is Table) && e.is_runtime(),
            },
    {
        match self {
            Object::Table(t) => Ok(*t),
            _ => Err(Error::RuntimeError("expected table".to_owned())),
        }
    }

    /// Clone semantics of the `CLONE` opcode: a scalar yields an equal
    /// value; a table or an array yields a fresh slot holding a shallow copy
    /// of its entries; every other variant cannot be cloned.
    pub fn clone_object(&self, heap: &mut crate::object::Heap) -> (r: Result<Object, Error>)
        requires
            old(heap).tables_wf(),
        ensures
            final(heap).tables_wf(),
            final(heap).protos@ == old(heap).protos@,
            final(heap).closures@ == old(heap).closures@,
            old(heap).tables@.len() <= final(heap).tables@.len(),
            match r {
                Ok(v) => spec_cloned_into(*old(heap), *final(heap), self@, v@),
                Err(e) => {
                    &&& final(heap).tables_view() == old(heap).tables_view()
                    &&& final(heap).arrays_view() == old(heap).arrays_view()
                    &&& e.is_runtime()
                    &&& !spec_clonable(*old(heap), self@)
                },
            },
    {
        match self {
            Object::Integer(i) => Ok(Object::Integer(*i)),
            Object::Bool(b) => Ok(Object::Bool(*b)),
            Object::Float(f) => Ok(Object::Float(*f)),
            Object::String(s) => Ok(Object::String(s.clone())),
            Object::Table(t) => {
                if *t < heap.tables.len() {
                    let nid = heap.dup_table(*t);
                    Ok(Object::Table(nid))
                } else {
                    Err(Error::RuntimeError("stale table reference".to_owned()))
                }
            },
            Object::Array(a) => {
                if *a < heap.arrays.len() {
                    let nid = heap.dup_array(*a);
                    Ok(Object::Array(nid))
                } else {
                    Err(Error::RuntimeError("stale array reference".to_owned()))
                }
            },
            _ => Err(Error::RuntimeError("cannot clone this value".to_owned())),
        }
    }

    /// The array index, or a runtime error on any other variant.
    pub fn array(&self) -> (r: Result<usize, Error>)
        ensures
            match r {
                Ok(a) => self@ == ObjView::Array(a),
                Err(e) => !(self@ is Array) && e.is_runtime(),
            },
    {
        match self {
            Object::Array(a) => Ok(*a),
            _ => Err(Error::RuntimeError("expected array".to_owned())),
        }
    }
}

/// The variants `CLONE` accepts: scalars, and tables and arrays whose slot is
/// live.
pub open spec fn spec_clonable(pre: crate::object::Heap, src: ObjView) -> bool {
    match src {
        ObjView::Integer(_) => true,
        ObjView::Bool(_) => true,
        ObjView::Float(_) => true,
        ObjView::String(_) => true,
        ObjView::Table(t) => (t as int) < pre.tables_view().len(),
        ObjView::Array(a) => (a as int) < pre.arrays_view().len(),
        _ => false,
    }
}

/// What `CLONE` produced: an equal scalar with the heap untouched, or a fresh
/// table or array slot holding a shallow copy of the source slot.
pub open spec fn spec_cloned_into(
    pre: crate::object::Heap,
    post: crate::object::Heap,
    src: ObjView,
    out: ObjView,
) -> bool {
    match src {
        ObjView::Integer(_) | ObjView::Bool(_) | ObjView::Float(_) | ObjView::String(_) => {
            &&& out == src
            &&& post.tables_view() == pre.tables_view()
            &&& post.arrays_view() == pre.arrays_view()
        },
        ObjView::Table(t) => {
            &&& (t as int) < pre.tables_view().len()
            &&& out == ObjView::Table(pre.tables_view().len() as usize)
            &&& post.tables_view() == pre.tables_view().push(pre.tables_view()[t as int])
            &&& post.arrays_view() == pre.arrays_view()
        },
        ObjView::Array(a) => {
            &&& (a as int) < pre.arrays_view().len()
            &&& out == ObjView::Array(pre.arrays_view().len() as usize)
            &&& post.arrays_view() == pre.arrays_view().push(pre.arrays_view()[a as int])
            &&& post.tables_view() == pre.tables_view()
        },
        _ => false,
    }
}

/// Constructs a native-closure descriptor from a host callable and its
/// advertised arity; `Executor::add_native_func` registers it.
pub fn native_closure<N>(func: N, nargs: i64) -> (r: crate::object::NativeClosure<N>)
    ensures
        r.func == func,
        r.nargs == nargs,
{
    crate::object::NativeClosure::new(func, nargs)
}

/// Type name of each variant, for diagnostics.
pub open spec fn spec_kind_name(v: ObjView) -> Seq<char> {
    match v {
        ObjView::Integer(_) => "int"@,
        ObjView::Bool(_) => "bool"@,
        ObjView::Float(_) => "float"@,
        ObjView::String(_) => "string"@,
        ObjView::FuncProto(_) => "func_proto"@,
        ObjView::Closure(_) => "closure"@,
        ObjView::NativeClosure(_) => "nativeclosure"@,
        ObjView::Table(_) => "table"@,
        ObjView::Array(_) => "array"@,
        ObjView::Null => "null"@,
    }
}

/// Name reported by `TYPEOF`: every callable variant reads `"function"`.
pub open spec fn spec_typesystem_name(v: ObjView) -> Seq<char> {
    match v {
        ObjView::Integer(_) => "integer"@,
        ObjView::Bool(_) => "bool"@,
        ObjView::Float(_) => "float"@,
        ObjView::String(_) => "string"@,
        ObjView::FuncProto(_) => "function"@,
        ObjView::Closure(_) => "function"@,
        ObjView::NativeClosure(_) => "function"@,
        ObjView::Table(_) => "table"@,
        ObjView::Array(_) => "array"@,
        ObjView::Null => "null"@,
    }
}

} // verus!
