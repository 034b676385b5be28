// End-to-end scenarios: bytecode programs run by the executor, checked
// against their expected top-level return values.
use squirrel_rs::Error;
use squirrel_rs::Object;
use squirrel_rs::io::Reader;
use squirrel_rs::io::read_closure;
use squirrel_rs::vm::Executor;
use squirrel_rs::vm::NoopNative;

const PART: u32 = 0x50415254;

fn emit_u16(out: &mut Vec<u8>, v: u16) {
    out.extend_from_slice(&v.to_le_bytes());
}

fn emit_u32(out: &mut Vec<u8>, v: u32) {
    out.extend_from_slice(&v.to_le_bytes());
}

fn emit_u64(out: &mut Vec<u8>, v: u64) {
    out.extend_from_slice(&v.to_le_bytes());
}

fn emit_i64(out: &mut Vec<u8>, v: i64) {
    out.extend_from_slice(&v.to_le_bytes());
}

fn emit_string_obj(out: &mut Vec<u8>, s: &str) {
    emit_u32(out, 0x08000010);
    emit_u64(out, s.len() as u64);
    out.extend_from_slice(s.as_bytes());
}

fn emit_instr(out: &mut Vec<u8>, opcode: u8, arg0: u8, arg1: u32, arg2: u8, arg3: u8) {
    emit_u32(out, arg1);
    out.push(opcode);
    out.push(arg0);
    out.push(arg2);
    out.push(arg3);
}

enum Lit {
    Str(&'static str),
    Int(i64),
}

fn emit_proto(
    out: &mut Vec<u8>,
    name: &str,
    literals: &[Lit],
    instrs: &[(u8, u8, u32, u8, u8)],
    functions: &[Vec<u8>],
    stacksize: i64,
) {
    emit_u32(out, PART);
    emit_string_obj(out, "scenario.nut");
    emit_string_obj(out, name);
    emit_u32(out, PART);
    emit_i64(out, literals.len() as i64);
    emit_i64(out, 0);
    emit_i64(out, 0);
    emit_i64(out, 0);
    emit_i64(out, 0);
    emit_i64(out, 0);
    emit_i64(out, instrs.len() as i64);
    emit_i64(out, functions.len() as i64);
    emit_u32(out, PART);
    for lit in literals {
        match lit {
            Lit::Str(s) => emit_string_obj(out, s),
            Lit::Int(i) => {
                emit_u32(out, 0x05000002);
                emit_i64(out, *i);
            },
        }
    }
    emit_u32(out, PART);
    emit_u32(out, PART);
    emit_u32(out, PART);
    emit_u32(out, PART);
    emit_u32(out, PART);
    emit_u32(out, PART);
    for (op, a0, a1, a2, a3) in instrs {
        emit_instr(out, *op, *a0, *a1, *a2, *a3);
    }
    emit_u32(out, PART);
    for f in functions {
        out.extend_from_slice(f);
    }
    emit_i64(out, stacksize);
    out.push(0);
    emit_i64(out, 0);
}

fn emit_file(proto: &[u8]) -> Vec<u8> {
    let mut out: Vec<u8> = Vec::new();
    emit_u16(&mut out, 0xFAFA);
    emit_u32(&mut out, 0x53514952);
    emit_u32(&mut out, 1);
    emit_u32(&mut out, 8);
    emit_u32(&mut out, 4);
    out.extend_from_slice(proto);
    emit_u32(&mut out, 0x5441494C);
    out
}

/// Loads a program and runs it with the root table as its one argument.
fn run_image(bytes: &[u8]) -> (Result<Object, Error>, Executor<NoopNative>) {
    let mut exec: Executor<NoopNative> = Executor::new();
    let closure = {
        let mut rdr = Reader::new(bytes);
        read_closure(&mut rdr, exec.heap_mut()).unwrap()
    };
    exec.stack().push(closure);
    exec.push_roottable();
    exec.call(1, false).unwrap();
    let r = exec.execute();
    (r, exec)
}

fn run_main(
    literals: &[Lit],
    instrs: &[(u8, u8, u32, u8, u8)],
    functions: &[Vec<u8>],
    stacksize: i64,
) -> (Result<Object, Error>, Executor<NoopNative>) {
    let mut proto: Vec<u8> = Vec::new();
    emit_proto(&mut proto, "main", literals, instrs, functions, stacksize);
    let bytes = emit_file(&proto);
    run_image(&bytes)
}

#[test]
fn constant_return() {
    // LOADINT R1, 111; RETURN R1, R1
    let (r, _) = run_main(&[], &[(0x02, 1, 111, 0, 0), (0x17, 1, 1, 0, 0)], &[], 2);
    assert_eq!(r.unwrap().integer().unwrap(), 111);
}

#[test]
fn factorial() {
    // iterative factorial of 5 via LOADINT/MUL/JCMP/JMP
    let (r, _) = run_main(
        &[],
        &[
            (0x02, 1, 5, 0, 0),
            (0x02, 2, 1, 0, 0),
            (0x02, 3, 1, 0, 0),
            (0x1D, 3, 3, 1, 0),
            (0x13, 2, 1, 2, 0),
            (0x12, 1, 3, 1, 0),
            (0x1C, 0, (-4i32) as u32, 0, 0),
            (0x17, 1, 2, 0, 0),
        ],
        &[],
        4,
    );
    assert_eq!(r.unwrap().integer().unwrap(), 120);
}

#[test]
fn table_round_trip() {
    // NEWOBJ table R1; NEWSLOT R1["x"] = 7; GETK R4 = R1["x"]; RETURN R4
    let (r, _) = run_main(
        &[Lit::Str("x")],
        &[
            (0x21, 1, 0, 0, 0),  // NEWOBJ table into R1
            (0x01, 2, 0, 0, 0),  // LOAD R2 = literal "x"
            (0x02, 3, 7, 0, 0),  // LOADINT R3 = 7
            (0x0B, 0, 1, 2, 3),  // NEWSLOT R1[R2] = R3
            (0x09, 4, 0, 1, 0),  // GETK R4 = R1["x"]
            (0x17, 1, 4, 0, 0),  // RETURN R4
        ],
        &[],
        5,
    );
    assert_eq!(r.unwrap().integer().unwrap(), 7);
}

#[test]
fn table_missing_key_errors() {
    let (r, _) = run_main(
        &[Lit::Str("absent")],
        &[
            (0x21, 1, 0, 0, 0),  // NEWOBJ table into R1
            (0x09, 2, 0, 1, 0),  // GETK R2 = R1["absent"]
            (0x17, 1, 2, 0, 0),
        ],
        &[],
        3,
    );
    assert!(matches!(r, Err(Error::RuntimeError(_))));
}

#[test]
fn array_iteration_sum() {
    // NEWOBJ array; three APPENDARRAY INT; FOREACH accumulating into R3
    let (r, _) = run_main(
        &[],
        &[
            (0x02, 3, 0, 0, 0),          // LOADINT R3 = 0
            (0x21, 1, 0, 0, 1),          // NEWOBJ array into R1
            (0x22, 1, 10, 2, 0),         // APPENDARRAY INT 10
            (0x22, 1, 20, 2, 0),         // APPENDARRAY INT 20
            (0x22, 1, 30, 2, 0),         // APPENDARRAY INT 30
            (0x18, 4, 3, 0, 0),          // LOADNULLS R4..R6
            (0x33, 1, 3, 4, 0),          // FOREACH over R1, out at R4..R6, exit +3
            (0x34, 0, 0, 0, 0),          // slot skipped by the iteration step
            (0x11, 3, 5, 3, 0),          // ADD R3 = R3 + R5
            (0x1C, 0, (-4i32) as u32, 0, 0),  // JMP back to the FOREACH
            (0x17, 1, 3, 0, 0),          // RETURN R3
        ],
        &[],
        7,
    );
    assert_eq!(r.unwrap().integer().unwrap(), 60);
}

#[test]
fn array_len_delegation() {
    // get(array, "len") == Integer(length)
    let (r, _) = run_main(
        &[Lit::Str("len")],
        &[
            (0x21, 1, 0, 0, 1),  // NEWOBJ array into R1
            (0x22, 1, 5, 2, 0),  // APPENDARRAY INT 5
            (0x22, 1, 6, 2, 0),  // APPENDARRAY INT 6
            (0x09, 2, 0, 1, 0),  // GETK R2 = R1["len"]
            (0x17, 1, 2, 0, 0),
        ],
        &[],
        3,
    );
    assert_eq!(r.unwrap().integer().unwrap(), 2);
}

#[test]
fn nested_call() {
    // CLOSURE of a nested prototype returning 4; CALL it; return the target
    let mut inner: Vec<u8> = Vec::new();
    emit_proto(
        &mut inner,
        "inner",
        &[],
        &[(0x02, 1, 4, 0, 0), (0x17, 1, 1, 0, 0)],
        &[],
        2,
    );
    let (r, _) = run_main(
        &[],
        &[
            (0x30, 1, 0, 0, 0),  // CLOSURE R1 = functions[0]
            (0x19, 3, 0, 0, 0),  // LOADROOT R3: the one call argument
            (0x06, 2, 1, 3, 1),  // CALL R2 = R1(args at offset 3, 1 arg)
            (0x17, 1, 2, 0, 0),  // RETURN R2
        ],
        &[inner],
        4,
    );
    assert_eq!(r.unwrap().integer().unwrap(), 4);
}

#[test]
fn tail_call_bounded_depth() {
    // f(n, self): if n == 0 return 42 else tail-call self(n - 1, self)
    let mut inner: Vec<u8> = Vec::new();
    emit_proto(
        &mut inner,
        "spin",
        &[],
        &[
            (0x02, 2, 0, 0, 0),  // LOADINT R2 = 0
            (0x0F, 3, 2, 0, 0),  // EQ R3 = (R0 == R2)
            (0x1E, 3, 2, 0, 0),  // JZ R3: jump +2 when n is non-zero
            (0x02, 4, 42, 0, 0), // LOADINT R4 = 42
            (0x17, 1, 4, 0, 0),  // RETURN R4
            (0x02, 4, 1, 0, 0),  // LOADINT R4 = 1
            (0x12, 0, 4, 0, 0),  // SUB R0 = R0 - R4
            (0x05, 0, 1, 0, 2),  // TAILCALL R1 with 2 args already in place
        ],
        &[],
        6,
    );
    let (r, exec) = run_main(
        &[],
        &[
            (0x30, 1, 0, 0, 0),  // CLOSURE R1 = functions[0]
            (0x02, 3, 50, 0, 0), // LOADINT R3 = 50: the recursion depth
            (0x0A, 4, 1, 0, 0),  // MOVE R4 = R1: the callee passed to itself
            (0x06, 2, 1, 3, 2),  // CALL R2 = R1(args at offset 3, 2 args)
            (0x17, 1, 2, 0, 0),  // RETURN R2
        ],
        &[inner],
        5,
    );
    assert_eq!(r.unwrap().integer().unwrap(), 42);
    // the call-info sequence stayed bounded: only the root frame remains
    assert_eq!(exec.callstack_depth(), 1);
}

#[test]
fn string_concatenation() {
    // ADD with a string left operand concatenates the display form
    let (r, _) = run_main(
        &[Lit::Str("v=")],
        &[
            (0x01, 1, 0, 0, 0),   // LOAD R1 = literal "v="
            (0x02, 2, (-9i32) as u32, 0, 0),  // LOADINT R2 = -9
            (0x11, 3, 2, 1, 0),   // ADD R3 = R1 + R2
            (0x17, 1, 3, 0, 0),
        ],
        &[],
        4,
    );
    assert_eq!(r.unwrap().string().unwrap(), "v=-9");
}

#[test]
fn division_by_zero_errors() {
    let (r, _) = run_main(
        &[],
        &[
            (0x02, 1, 6, 0, 0),
            (0x02, 2, 0, 0, 0),
            (0x14, 3, 2, 1, 0),  // DIV R3 = R1 / R2
            (0x17, 1, 3, 0, 0),
        ],
        &[],
        4,
    );
    assert!(matches!(r, Err(Error::RuntimeError(_))));
}

#[test]
fn unsupported_opcode_errors() {
    let (r, _) = run_main(&[], &[(0x16, 1, 0, 2, 3), (0x17, 255, 0, 0, 0)], &[], 2);
    assert!(matches!(r, Err(Error::RuntimeError(_))));
}

#[test]
fn jz_truthiness_cases() {
    // JZ falls through on a non-zero integer and jumps on zero
    let (r, _) = run_main(
        &[],
        &[
            (0x02, 1, 5, 0, 0),          // LOADINT R1 = 5
            (0x1E, 1, 2, 0, 0),          // JZ R1: no jump, 5 is true
            (0x02, 2, 1, 0, 0),          // LOADINT R2 = 1
            (0x1C, 0, 1, 0, 0),          // JMP over the next instruction
            (0x02, 2, 7, 0, 0),          // LOADINT R2 = 7 (skipped)
            (0x02, 3, 0, 0, 0),          // LOADINT R3 = 0
            (0x1E, 3, 1, 0, 0),          // JZ R3: jumps, 0 is false
            (0x02, 2, 9, 0, 0),          // LOADINT R2 = 9 (skipped)
            (0x17, 1, 2, 0, 0),          // RETURN R2 = 1
        ],
        &[],
        4,
    );
    assert_eq!(r.unwrap().integer().unwrap(), 1);
}

#[test]
fn arithmetic_identities_concrete() {
    // SUB(ADD(a, b), b) + 0 == a, and MUL commutes, on concrete registers
    let (r, _) = run_main(
        &[],
        &[
            (0x02, 1, 1234, 0, 0),       // a
            (0x02, 2, 99, 0, 0),         // b
            (0x11, 3, 2, 1, 0),          // R3 = a + b
            (0x12, 3, 2, 3, 0),          // R3 = R3 - b
            (0x02, 4, 0, 0, 0),          // zero
            (0x11, 3, 4, 3, 0),          // R3 = R3 + 0
            (0x17, 1, 3, 0, 0),
        ],
        &[],
        5,
    );
    assert_eq!(r.unwrap().integer().unwrap(), 1234);
}

#[test]
fn mul_commutes_concrete() {
    let (r1, _) = run_main(
        &[],
        &[
            (0x02, 1, 21, 0, 0),
            (0x02, 2, 4, 0, 0),
            (0x13, 3, 2, 1, 0),
            (0x17, 1, 3, 0, 0),
        ],
        &[],
        4,
    );
    let (r2, _) = run_main(
        &[],
        &[
            (0x02, 1, 4, 0, 0),
            (0x02, 2, 21, 0, 0),
            (0x13, 3, 2, 1, 0),
            (0x17, 1, 3, 0, 0),
        ],
        &[],
        4,
    );
    assert_eq!(r1.unwrap().integer().unwrap(), 84);
    assert_eq!(r2.unwrap().integer().unwrap(), 84);
}

#[test]
fn typeof_collapses_callables() {
    let mut inner: Vec<u8> = Vec::new();
    emit_proto(&mut inner, "g", &[], &[(0x17, 255, 0, 0, 0)], &[], 2);
    let (r, _) = run_main(
        &[],
        &[
            (0x30, 1, 0, 0, 0),  // CLOSURE R1
            (0x36, 2, 1, 0, 0),  // TYPEOF R2 = typeof R1
            (0x17, 1, 2, 0, 0),
        ],
        &[inner],
        3,
    );
    assert_eq!(r.unwrap().string().unwrap(), "function");
}

#[test]
fn clone_copies_tables() {
    // CLONE a table, change the copy, read the original
    let (r, _) = run_main(
        &[Lit::Str("x")],
        &[
            (0x21, 1, 0, 0, 0),  // NEWOBJ table R1
            (0x01, 2, 0, 0, 0),  // LOAD R2 = "x"
            (0x02, 3, 1, 0, 0),  // LOADINT R3 = 1
            (0x0B, 0, 1, 2, 3),  // NEWSLOT R1["x"] = 1
            (0x35, 4, 1, 0, 0),  // CLONE R4 = clone of R1
            (0x02, 3, 2, 0, 0),  // LOADINT R3 = 2
            (0x0B, 0, 4, 2, 3),  // NEWSLOT R4["x"] = 2: only the copy changes
            (0x09, 5, 0, 1, 0),  // GETK R5 = R1["x"]
            (0x17, 1, 5, 0, 0),
        ],
        &[],
        6,
    );
    assert_eq!(r.unwrap().integer().unwrap(), 1);
}

#[test]
fn shared_table_references() {
    // MOVE copies a reference: writing through one register is seen by the
    // other
    let (r, _) = run_main(
        &[Lit::Str("x")],
        &[
            (0x21, 1, 0, 0, 0),  // NEWOBJ table R1
            (0x0A, 4, 1, 0, 0),  // MOVE R4 = R1: the same table
            (0x01, 2, 0, 0, 0),  // LOAD R2 = "x"
            (0x02, 3, 31, 0, 0), // LOADINT R3 = 31
            (0x0B, 0, 4, 2, 3),  // NEWSLOT R4["x"] = 31
            (0x09, 5, 0, 1, 0),  // GETK R5 = R1["x"]
            (0x17, 1, 5, 0, 0),
        ],
        &[],
        6,
    );
    assert_eq!(r.unwrap().integer().unwrap(), 31);
}

#[test]
fn vm_load_closure() {
    // load and run a program named after the compiler's output and check
    // the computed value
    let mut proto: Vec<u8> = Vec::new();
    emit_proto(
        &mut proto,
        "main",
        &[],
        &[
            (0x02, 1, 20000, 0, 0),
            (0x02, 2, 204557, 0, 0),
            (0x13, 3, 2, 1, 0),
            (0x17, 1, 3, 0, 0),
        ],
        &[],
        4,
    );
    let bytes = emit_file(&proto);
    let (r, _exec) = run_image(&bytes);
    assert_eq!(r.unwrap().integer().unwrap(), 4091140000);
}

#[test]
fn eq_against_literal() {
    // EQ with a non-zero arg3 compares against a literal
    let (r, _) = run_main(
        &[Lit::Int(5)],
        &[
            (0x02, 1, 5, 0, 0),  // LOADINT R1 = 5
            (0x0F, 2, 0, 1, 1),  // EQ R2 = (R1 == literal 5)
            (0x1E, 2, 2, 0, 0),  // JZ R2: falls through when equal
            (0x02, 3, 1, 0, 0),  // LOADINT R3 = 1
            (0x17, 1, 3, 0, 0),  // RETURN 1
            (0x02, 3, 0, 0, 0),  // LOADINT R3 = 0 (only when unequal)
            (0x17, 1, 3, 0, 0),  // RETURN 0
        ],
        &[],
        4,
    );
    assert_eq!(r.unwrap().integer().unwrap(), 1);
}

#[test]
fn prepcallk_reads_method_and_receiver() {
    // PREPCALLK looks the key up in the receiver and stores the receiver as
    // the implicit argument
    let (r, _) = run_main(
        &[Lit::Str("f")],
        &[
            (0x21, 1, 0, 0, 0),  // NEWOBJ table R1
            (0x01, 2, 0, 0, 0),  // LOAD R2 = "f"
            (0x02, 3, 9, 0, 0),  // LOADINT R3 = 9
            (0x0B, 0, 1, 2, 3),  // NEWSLOT R1["f"] = 9
            (0x08, 4, 0, 1, 5),  // PREPCALLK R4 = R1["f"], R5 = R1
            (0x17, 1, 4, 0, 0),  // RETURN the looked-up value
        ],
        &[],
        6,
    );
    assert_eq!(r.unwrap().integer().unwrap(), 9);
}

#[test]
fn native_call_runs() {
    // a registered native is called through the root table; the program
    // continues afterwards
    let mut proto: Vec<u8> = Vec::new();
    emit_proto(
        &mut proto,
        "main",
        &[Lit::Str("print")],
        &[
            (0x19, 1, 0, 0, 0),   // LOADROOT R1
            (0x09, 2, 0, 1, 0),   // GETK R2 = R1["print"]
            (0x02, 4, 3, 0, 0),   // LOADINT R4 = 3: the native's argument
            (0x06, 255, 2, 4, 1), // CALL R2 with 1 arg at offset 4, no target
            (0x02, 5, 111, 0, 0), // LOADINT R5 = 111
            (0x17, 1, 5, 0, 0),   // RETURN 111
        ],
        &[],
        6,
    );
    let bytes = emit_file(&proto);
    let mut exec: Executor<NoopNative> = Executor::new();
    let closure = {
        let mut rdr = Reader::new(&bytes);
        read_closure(&mut rdr, exec.heap_mut()).unwrap()
    };
    exec.add_native_func("print", squirrel_rs::native_closure(NoopNative, 1)).unwrap();
    exec.stack().push(closure);
    exec.push_roottable();
    exec.call(1, false).unwrap();
    let r = exec.execute();
    assert_eq!(r.unwrap().integer().unwrap(), 111);
}

#[test]
fn profiling_counts_instructions() {
    let mut proto: Vec<u8> = Vec::new();
    emit_proto(
        &mut proto,
        "main",
        &[],
        &[(0x02, 1, 1, 0, 0), (0x02, 1, 2, 0, 0), (0x17, 1, 1, 0, 0)],
        &[],
        2,
    );
    let bytes = emit_file(&proto);
    let mut exec: Executor<NoopNative> = Executor::new();
    let closure = {
        let mut rdr = Reader::new(&bytes);
        read_closure(&mut rdr, exec.heap_mut()).unwrap()
    };
    exec.instr_profiling = true;
    exec.stack().push(closure);
    exec.push_roottable();
    exec.call(1, false).unwrap();
    let r = exec.execute();
    assert_eq!(r.unwrap().integer().unwrap(), 2);
    assert_eq!(exec.opcode_count(0x02), 2);
    assert_eq!(exec.opcode_count(0x17), 1);
    assert_eq!(exec.opcode_count(0x13), 0);
}
