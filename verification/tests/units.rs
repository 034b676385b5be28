// Unit tests for the value model, the table and array containers, the
// stack, and the small conversion helpers.
use squirrel_rs::Error;
use squirrel_rs::Object;
use squirrel_rs::native_closure;
use squirrel_rs::object::Array;
use squirrel_rs::object::Heap;
use squirrel_rs::object::Table;
use squirrel_rs::vm::Executor;
use squirrel_rs::vm::NoopNative;
use squirrel_rs::vm::Stack;
use squirrel_rs::vm::i64_dec;

#[test]
fn object_accessors() {
    let i = Object::Integer(-3);
    assert_eq!(i.integer().unwrap(), -3);
    assert!(matches!(i.string(), Err(Error::RuntimeError(_))));
    let s = Object::String("hi".to_owned());
    assert_eq!(s.string().unwrap(), "hi");
    assert!(matches!(s.integer(), Err(Error::RuntimeError(_))));
    assert_eq!(Object::Table(4).table().unwrap(), 4);
    assert_eq!(Object::Array(2).array().unwrap(), 2);
    assert_eq!(Object::Closure(1).closure().unwrap(), 1);
    assert_eq!(Object::FuncProto(0).func_proto().unwrap(), 0);
}

#[test]
fn object_kind_names() {
    assert_eq!(Object::Integer(1).kind_name(), "int");
    assert_eq!(Object::Null.kind_name(), "null");
    assert_eq!(Object::Integer(1).typesystem_name(), "integer");
    assert_eq!(Object::Closure(0).typesystem_name(), "function");
    assert_eq!(Object::NativeClosure(0).typesystem_name(), "function");
    assert_eq!(Object::FuncProto(0).typesystem_name(), "function");
    assert_eq!(Object::Float(0).typesystem_name(), "float");
}

#[test]
fn object_equality_rules() {
    assert!(Object::Integer(4).obj_eq(&Object::Integer(4)));
    assert!(!Object::Integer(4).obj_eq(&Object::Integer(5)));
    assert!(Object::String("a".to_owned()).obj_eq(&Object::String("a".to_owned())));
    assert!(Object::Bool(true).obj_eq(&Object::Bool(true)));
    // cross-variant and reference comparisons are always unequal
    assert!(!Object::Integer(1).obj_eq(&Object::Bool(true)));
    assert!(!Object::Null.obj_eq(&Object::Null));
    assert!(!Object::Table(3).obj_eq(&Object::Table(3)));
}

#[test]
fn table_set_get() {
    let mut t = Table::new();
    assert_eq!(t.len(), 0);
    t.set(&Object::String("x".to_owned()), Object::Integer(7)).unwrap();
    t.set(&Object::Integer(5), Object::Bool(true)).unwrap();
    assert_eq!(t.len(), 2);
    assert_eq!(t.get(&Object::String("x".to_owned())).unwrap().integer().unwrap(), 7);
    assert!(t.get(&Object::Integer(5)).unwrap().obj_eq(&Object::Bool(true)));
    // replacing keeps the table size
    t.set(&Object::String("x".to_owned()), Object::Integer(9)).unwrap();
    assert_eq!(t.len(), 2);
    assert_eq!(t.get(&Object::String("x".to_owned())).unwrap().integer().unwrap(), 9);
    // a missing key is an error
    assert!(matches!(t.get(&Object::String("y".to_owned())), Err(Error::RuntimeError(_))));
    // only integers, booleans and strings may be keys
    assert!(matches!(t.set(&Object::Null, Object::Integer(0)), Err(Error::RuntimeError(_))));
    assert!(matches!(t.set(&Object::Table(0), Object::Integer(0)), Err(Error::RuntimeError(_))));
}

#[test]
fn array_operations() {
    let mut a = Array::new();
    assert_eq!(a.len(), 0);
    a.reserve(16);
    a.append(Object::Integer(1));
    a.append(Object::Integer(2));
    assert_eq!(a.len(), 2);
    let d = a.duplicate();
    assert_eq!(d.len(), 2);
}

#[test]
fn heap_clone_object() {
    let mut heap = Heap::new();
    let v = Object::Integer(3).clone_object(&mut heap).unwrap();
    assert_eq!(v.integer().unwrap(), 3);
    let s = Object::String("q".to_owned()).clone_object(&mut heap).unwrap();
    assert_eq!(s.string().unwrap(), "q");
    let tid = heap.alloc_table();
    let copy = Object::Table(tid).clone_object(&mut heap).unwrap();
    assert_ne!(copy.table().unwrap(), tid);
    // null, closures and prototypes cannot be cloned
    assert!(matches!(Object::Null.clone_object(&mut heap), Err(Error::RuntimeError(_))));
    assert!(matches!(Object::Closure(0).clone_object(&mut heap), Err(Error::RuntimeError(_))));
}

#[test]
fn stack_operations() {
    let mut s = Stack::new();
    assert_eq!(s.frame_base(), 1);
    assert_eq!(s.frame_top(), 1);
    s.push(Object::Integer(10));
    s.push(Object::Integer(20));
    assert_eq!(s.frame_top(), 3);
    assert_eq!(s.top().integer().unwrap(), 20);
    assert_eq!(s.up(-2).integer().unwrap(), 10);
    assert_eq!(s.value(0).integer().unwrap(), 10);
    s.set_value(0, Object::Integer(11));
    assert_eq!(s.value(0).integer().unwrap(), 11);
    s.swap(0, 1);
    assert_eq!(s.value(0).integer().unwrap(), 20);
    assert_eq!(s.value(1).integer().unwrap(), 11);
    s.pop(2);
    assert_eq!(s.frame_top(), 1);
}

#[test]
fn decimal_writing() {
    assert_eq!(i64_dec(0), "0");
    assert_eq!(i64_dec(7), "7");
    assert_eq!(i64_dec(120), "120");
    assert_eq!(i64_dec(-1), "-1");
    assert_eq!(i64_dec(i64::MAX), "9223372036854775807");
    assert_eq!(i64_dec(i64::MIN), "-9223372036854775808");
}

#[test]
fn error_variants() {
    let r = Error::RuntimeError("semantic failure".to_owned());
    assert!(matches!(r, Error::RuntimeError(_)));
    // the embedder maps failed reads of its input into this kind
    let io = Error::IoError("read failed".to_owned());
    assert!(matches!(io, Error::IoError(_)));
}

#[test]
fn object_constructors() {
    let mut heap = Heap::new();
    let t = Object::new_table(&mut heap);
    assert_eq!(t.table().unwrap(), 0);
    let a = Object::new_array(&mut heap, 8);
    assert_eq!(a.array().unwrap(), 0);
    let s = Object::new_string("hello");
    assert_eq!(s.string().unwrap(), "hello");
    assert_eq!(heap.tables.len(), 1);
    assert_eq!(heap.arrays.len(), 1);
}

#[test]
fn heap_borrows() {
    let mut heap = Heap::new();
    let pid = {
        // an empty program is enough to populate the arenas
        let bytes = minimal_image();
        let mut rdr = squirrel_rs::io::Reader::new(&bytes);
        let closure = squirrel_rs::io::read_closure(&mut rdr, &mut heap).unwrap();
        let c = closure.closure_ref(&heap).unwrap();
        c.func_proto.func_proto().unwrap()
    };
    let fp = Object::FuncProto(pid).func_proto_ref(&heap).unwrap();
    assert_eq!(fp.instructions.len(), 1);
    // a dangling slot is reported, not followed
    assert!(matches!(Object::Closure(99).closure_ref(&heap), Err(Error::RuntimeError(_))));
}

fn minimal_image() -> Vec<u8> {
    let mut out: Vec<u8> = Vec::new();
    out.extend_from_slice(&0xFAFAu16.to_le_bytes());
    out.extend_from_slice(&0x53514952u32.to_le_bytes());
    out.extend_from_slice(&1u32.to_le_bytes());
    out.extend_from_slice(&8u32.to_le_bytes());
    out.extend_from_slice(&4u32.to_le_bytes());
    let part = 0x50415254u32;
    out.extend_from_slice(&part.to_le_bytes());
    // source name and name
    for name in ["m.nut", "m"] {
        out.extend_from_slice(&0x08000010u32.to_le_bytes());
        out.extend_from_slice(&(name.len() as u64).to_le_bytes());
        out.extend_from_slice(name.as_bytes());
    }
    out.extend_from_slice(&part.to_le_bytes());
    for count in [0i64, 0, 0, 0, 0, 0, 1, 0] {
        out.extend_from_slice(&count.to_le_bytes());
    }
    for _ in 0..6 {
        out.extend_from_slice(&part.to_le_bytes());
    }
    out.extend_from_slice(&part.to_le_bytes());
    // one RETURN-null instruction
    out.extend_from_slice(&0u32.to_le_bytes());
    out.push(0x17);
    out.push(255);
    out.push(0);
    out.push(0);
    out.extend_from_slice(&part.to_le_bytes());
    out.extend_from_slice(&2i64.to_le_bytes());
    out.push(0);
    out.extend_from_slice(&0i64.to_le_bytes());
    out.extend_from_slice(&0x5441494Cu32.to_le_bytes());
    out
}

#[test]
fn stack_mutable_borrow() {
    let mut s = Stack::new();
    s.push(Object::Integer(5));
    {
        let slot = s.value_mut(0);
        *slot = Object::Integer(6);
    }
    assert_eq!(s.value(0).integer().unwrap(), 6);
}

#[test]
fn call_failure_leaves_executor_unchanged() {
    let mut exec: Executor<NoopNative> = Executor::new();
    // the slot below the argument holds an integer, not a callable
    exec.stack().push(Object::Integer(1));
    exec.push_roottable();
    let depth_before = exec.callstack_depth();
    let top_before = exec.stack().frame_top();
    let base_before = exec.stack().frame_base();
    let r = exec.call(1, false);
    assert!(matches!(r, Err(Error::RuntimeError(_))));
    assert_eq!(exec.callstack_depth(), depth_before);
    assert_eq!(exec.stack().frame_top(), top_before);
    assert_eq!(exec.stack().frame_base(), base_before);
    // a negative argument count fails just as cleanly
    assert!(matches!(exec.call(-1, false), Err(Error::RuntimeError(_))));
    assert_eq!(exec.callstack_depth(), depth_before);
}

#[test]
fn executor_native_registration() {
    let mut exec: Executor<NoopNative> = Executor::new();
    exec.add_native_func("print", native_closure(NoopNative, 1)).unwrap();
    assert_eq!(exec.callstack_depth(), 0);
}
