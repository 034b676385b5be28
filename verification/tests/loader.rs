// Loader tests: build bytecode images byte by byte and check that the
// loader reconstructs exactly the embedded prototypes, and rejects
// malformed streams.
use squirrel_rs::Error;
use squirrel_rs::Object;
use squirrel_rs::io::Reader;
use squirrel_rs::io::read_closure;
use squirrel_rs::object::Heap;

pub fn emit_u16(out: &mut Vec<u8>, v: u16) {
    out.extend_from_slice(&v.to_le_bytes());
}

pub fn emit_u32(out: &mut Vec<u8>, v: u32) {
    out.extend_from_slice(&v.to_le_bytes());
}

pub fn emit_u64(out: &mut Vec<u8>, v: u64) {
    out.extend_from_slice(&v.to_le_bytes());
}

pub fn emit_i64(out: &mut Vec<u8>, v: i64) {
    out.extend_from_slice(&v.to_le_bytes());
}

const PART: u32 = 0x50415254;

pub fn emit_string_obj(out: &mut Vec<u8>, s: &str) {
    emit_u32(out, 0x08000010);
    emit_u64(out, s.len() as u64);
    out.extend_from_slice(s.as_bytes());
}

pub fn emit_int_obj(out: &mut Vec<u8>, v: i64) {
    emit_u32(out, 0x05000002);
    emit_i64(out, v);
}

pub fn emit_null_obj(out: &mut Vec<u8>) {
    emit_u32(out, 0x01000001);
}

pub fn emit_float_obj(out: &mut Vec<u8>, v: f32) {
    emit_u32(out, 0x05000004);
    emit_u32(out, v.to_bits());
}

pub fn emit_instr(out: &mut Vec<u8>, opcode: u8, arg0: u8, arg1: u32, arg2: u8, arg3: u8) {
    emit_u32(out, arg1);
    out.push(opcode);
    out.push(arg0);
    out.push(arg2);
    out.push(arg3);
}

/// One prototype without nested functions.  `literals` are emitted by the
/// given closures; `instrs` are (opcode, arg0, arg1, arg2, arg3) tuples.
pub fn emit_proto(
    out: &mut Vec<u8>,
    source_name: &str,
    name: &str,
    literals: &[&dyn Fn(&mut Vec<u8>)],
    instrs: &[(u8, u8, u32, u8, u8)],
    functions: &[Vec<u8>],
    stacksize: i64,
) {
    emit_u32(out, PART);
    emit_string_obj(out, source_name);
    emit_string_obj(out, name);
    emit_u32(out, PART);
    emit_i64(out, literals.len() as i64);
    emit_i64(out, 0); // parameters
    emit_i64(out, 0); // outer values
    emit_i64(out, 0); // local var infos
    emit_i64(out, 0); // line infos
    emit_i64(out, 0); // default params
    emit_i64(out, instrs.len() as i64);
    emit_i64(out, functions.len() as i64);
    emit_u32(out, PART);
    for lit in literals {
        lit(out);
    }
    emit_u32(out, PART); // parameters
    emit_u32(out, PART); // outer values
    emit_u32(out, PART); // local var infos
    emit_u32(out, PART); // line infos
    emit_u32(out, PART); // default params
    emit_u32(out, PART); // instructions
    for (op, a0, a1, a2, a3) in instrs {
        emit_instr(out, *op, *a0, *a1, *a2, *a3);
    }
    emit_u32(out, PART); // nested functions
    for f in functions {
        out.extend_from_slice(f);
    }
    emit_i64(out, stacksize);
    out.push(0); // generator flag
    emit_i64(out, 0); // varparams
}

pub fn emit_file(proto: &[u8]) -> Vec<u8> {
    let mut out: Vec<u8> = Vec::new();
    emit_u16(&mut out, 0xFAFA);
    emit_u32(&mut out, 0x53514952);
    emit_u32(&mut out, 1);
    emit_u32(&mut out, 8);
    emit_u32(&mut out, 4);
    out.extend_from_slice(proto);
    emit_u32(&mut out, 0x5441494C);
    out
}

pub fn factorial_image() -> Vec<u8> {
    // iterative factorial of 5: n in R1, accumulator in R2, constant 1 in R3
    let mut proto: Vec<u8> = Vec::new();
    emit_proto(
        &mut proto,
        "factorial.nut",
        "main",
        &[],
        &[
            (0x02, 1, 5, 0, 0),          // LOADINT R1, 5
            (0x02, 2, 1, 0, 0),          // LOADINT R2, 1
            (0x02, 3, 1, 0, 0),          // LOADINT R3, 1
            (0x1D, 3, 3, 1, 0),          // JCMP: exit when !(R1 > R3)
            (0x13, 2, 1, 2, 0),          // MUL R2 = R2 * R1
            (0x12, 1, 3, 1, 0),          // SUB R1 = R1 - R3
            (0x1C, 0, (-4i32) as u32, 0, 0), // JMP back to the JCMP
            (0x17, 1, 2, 0, 0),          // RETURN R2
        ],
        &[],
        4,
    );
    emit_file(&proto)
}

#[test]
fn io_load_closure() {
    let bytes = factorial_image();
    let mut heap = Heap::new();
    let mut rdr = Reader::new(&bytes);
    let closure = read_closure(&mut rdr, &mut heap).unwrap();
    let cid = closure.closure().unwrap();
    let pid = heap.closures[cid].func_proto.func_proto().unwrap();
    let fp = &heap.protos[pid];
    assert_eq!(format!("{:?}", fp.source_name), "String(\"factorial.nut\")");
    assert_eq!(format!("{:?}", fp.name), "String(\"main\")");
    // the loaded instruction count equals the on-disk count
    assert_eq!(fp.instructions.len(), 8);
    // the whole stream was consumed
    assert_eq!(rdr.position(), bytes.len());
}

#[test]
fn load_closure_literals_and_fields() {
    let mut proto: Vec<u8> = Vec::new();
    emit_proto(
        &mut proto,
        "src.nut",
        "f",
        &[
            &|o: &mut Vec<u8>| emit_string_obj(o, "x"),
            &|o: &mut Vec<u8>| emit_int_obj(o, -7),
            &|o: &mut Vec<u8>| emit_null_obj(o),
            &|o: &mut Vec<u8>| emit_float_obj(o, 1.5),
        ],
        &[(0x17, 255, 0, 0, 0)],
        &[],
        2,
    );
    let bytes = emit_file(&proto);
    let mut heap = Heap::new();
    let mut rdr = Reader::new(&bytes);
    let closure = read_closure(&mut rdr, &mut heap).unwrap();
    let cid = closure.closure().unwrap();
    let pid = heap.closures[cid].func_proto.func_proto().unwrap();
    let fp = &heap.protos[pid];
    assert_eq!(fp.literals.len(), 4);
    assert_eq!(fp.literals[0].string().unwrap(), "x");
    assert_eq!(fp.literals[1].integer().unwrap(), -7);
    assert!(matches!(fp.literals[2], Object::Null));
    // floats are carried as their raw bits
    assert!(matches!(fp.literals[3], Object::Float(bits) if bits == 1.5f32.to_bits()));
    assert_eq!(fp.stacksize, 2);
}

#[test]
fn load_closure_nested_protos() {
    let mut inner: Vec<u8> = Vec::new();
    emit_proto(&mut inner, "src.nut", "inner", &[], &[(0x17, 255, 0, 0, 0)], &[], 2);
    let mut outer: Vec<u8> = Vec::new();
    emit_proto(&mut outer, "src.nut", "outer", &[], &[(0x17, 255, 0, 0, 0)], &[inner], 2);
    let bytes = emit_file(&outer);
    let mut heap = Heap::new();
    let mut rdr = Reader::new(&bytes);
    let closure = read_closure(&mut rdr, &mut heap).unwrap();
    let cid = closure.closure().unwrap();
    let pid = heap.closures[cid].func_proto.func_proto().unwrap();
    assert_eq!(heap.protos.len(), 2);
    let fp = &heap.protos[pid];
    assert_eq!(fp.functions.len(), 1);
    let child = fp.functions[0];
    assert!(child < pid);
    assert_eq!(format!("{:?}", heap.protos[child].name), "String(\"inner\")");
}

#[test]
fn reject_bad_magic() {
    let mut bytes = factorial_image();
    bytes[0] = 0x00;
    let mut heap = Heap::new();
    let mut rdr = Reader::new(&bytes);
    let r = read_closure(&mut rdr, &mut heap);
    assert!(matches!(r, Err(Error::RuntimeError(_))));
}

#[test]
fn reject_truncated_stream() {
    let bytes = factorial_image();
    let cut = &bytes[..bytes.len() - 5];
    let mut heap = Heap::new();
    let mut rdr = Reader::new(cut);
    let r = read_closure(&mut rdr, &mut heap);
    assert!(matches!(r, Err(Error::RuntimeError(_))));
}

#[test]
fn reject_unknown_object_type() {
    let mut proto: Vec<u8> = Vec::new();
    emit_u32(&mut proto, PART);
    emit_u32(&mut proto, 0xDEAD_BEEF); // not a known object tag
    let bytes = emit_file(&proto);
    let mut heap = Heap::new();
    let mut rdr = Reader::new(&bytes);
    let r = read_closure(&mut rdr, &mut heap);
    assert!(matches!(r, Err(Error::RuntimeError(_))));
}

#[test]
fn reject_invalid_utf8() {
    let mut proto: Vec<u8> = Vec::new();
    emit_u32(&mut proto, PART);
    // a string object whose payload is not valid UTF-8
    emit_u32(&mut proto, 0x08000010);
    emit_u64(&mut proto, 2);
    proto.push(0xFF);
    proto.push(0xFE);
    let bytes = emit_file(&proto);
    let mut heap = Heap::new();
    let mut rdr = Reader::new(&bytes);
    let r = read_closure(&mut rdr, &mut heap);
    assert!(matches!(r, Err(Error::RuntimeError(_))));
}

#[test]
fn reject_wrong_declared_sizes() {
    let mut bytes = factorial_image();
    // corrupt the declared integer size (offset: 2 magic + 4 head + 4 char)
    bytes[10] = 9;
    let mut heap = Heap::new();
    let mut rdr = Reader::new(&bytes);
    let r = read_closure(&mut rdr, &mut heap);
    assert!(matches!(r, Err(Error::RuntimeError(_))));
}
