use hook86::branch::{
    addr_offset, call, cond_jmp, get_absolute_from_rel32, get_absolute_from_rel8,
    get_branch_target, jge, jl, jmp, jz, push, UnexpectedOpcodeError,
};

#[test]
fn calc_addr_offset() {
    assert_eq!(addr_offset(0x80000000, 0x80000010, 3), 13i32.to_le_bytes());
    assert_eq!(addr_offset(0x80000000, 0x7FFFFF10, 4), (-244i32).to_le_bytes());
}

#[test]
fn call_bytes() {
    assert_eq!(call(0x80000000, 0x80000010), [0xE8, 11, 0, 0, 0]);
}

#[test]
fn jmp_bytes() {
    assert_eq!(jmp(0x80000000, 0x80000010), [0xE9, 11, 0, 0, 0]);
}

#[test]
fn jl_bytes() {
    assert_eq!(jl(0x80000000, 0x800000F0), [0x0F, 0x8C, 0xEA, 0, 0, 0]);
}

#[test]
fn jge_bytes() {
    assert_eq!(jge(0x80000000, 0x800000E0), [0x0F, 0x8D, 0xDA, 0, 0, 0]);
}

#[test]
fn jz_bytes() {
    assert_eq!(jz(0x80000000, 0x80000010), [0x0F, 0x84, 0x0A, 0, 0, 0]);
}

#[test]
fn cond_jmp_bytes() {
    assert_eq!(cond_jmp(0x80000000, 0x80000010, 0x85), [0x0F, 0x85, 0x0A, 0, 0, 0]);
}

#[test]
fn push_bytes() {
    assert_eq!(push(0x12345678), [0x68, 0x78, 0x56, 0x34, 0x12]);
}

// Encoding wraps around the top of the 32-bit address space instead of failing.
#[test]
fn call_wraparound() {
    assert_eq!(call(0xFFFFFFFE, 0x00000002), [0xE8, 0xFF, 0xFF, 0xFF, 0xFF]);
}

#[test]
fn jmp_wraparound_backward() {
    // from low addresses to the top of the address space: displacement wraps
    assert_eq!(jmp(0x00000010, 0xFFFFFFF0), [0xE9, 0xDB, 0xFF, 0xFF, 0xFF]);
}

// Decoding the encoder's output at the same source address recovers the target.
#[test]
fn call_round_trip() {
    let mut bytes = call(0x00401000, 0x00402000);
    bytes.push(0x90);
    assert_eq!(get_branch_target(0x00401000, &bytes), Ok(0x00402000));
}

#[test]
fn jmp_round_trip() {
    let mut bytes = jmp(0x00401000, 0x003FF000);
    bytes.push(0x90);
    assert_eq!(get_branch_target(0x00401000, &bytes), Ok(0x003FF000));
}

#[test]
fn jz_round_trip() {
    let bytes = jz(0x00401000, 0x00401200);
    assert_eq!(get_branch_target(0x00401000, &bytes), Ok(0x00401200));
}

#[test]
fn jl_round_trip() {
    let bytes = jl(0x00401000, 0x00400800);
    assert_eq!(get_branch_target(0x00401000, &bytes), Ok(0x00400800));
}

#[test]
fn jge_round_trip() {
    let bytes = jge(0x00401000, 0x00408000);
    assert_eq!(get_branch_target(0x00401000, &bytes), Ok(0x00408000));
}

#[test]
fn round_trip_wraparound() {
    let mut bytes = call(0xFFFFFFFE, 0x00000002);
    bytes.push(0x90);
    assert_eq!(get_branch_target(0xFFFFFFFE, &bytes), Ok(0x00000002));
}

#[test]
fn far_call_is_absolute() {
    let bytes = vec![0x9A, 0x78, 0x56, 0x34, 0x12, 0x90];
    assert_eq!(get_branch_target(0x00401000, &bytes), Ok(0x12345678));
    let bytes = vec![0xEA, 0x78, 0x56, 0x34, 0x12, 0x90];
    assert_eq!(get_branch_target(0x00401000, &bytes), Ok(0x12345678));
}

#[test]
fn short_jumps_use_signed_byte() {
    // jmp rel8 back onto itself
    let bytes = vec![0xEB, 0xFE, 0x90, 0x90, 0x90, 0x90];
    assert_eq!(get_branch_target(0x00401000, &bytes), Ok(0x00401000));
    // jecxz forward
    let bytes = vec![0xE3, 0x10, 0x90, 0x90, 0x90, 0x90];
    assert_eq!(get_branch_target(0x00401000, &bytes), Ok(0x00401012));
    // one-byte conditional jump (jz short form)
    let bytes = vec![0x74, 0x7F, 0x90, 0x90, 0x90, 0x90];
    assert_eq!(get_branch_target(0x00401000, &bytes), Ok(0x00401081));
}

#[test]
fn two_byte_conditional_jump() {
    let bytes = vec![0x0F, 0x8D, 0x10, 0x00, 0x00, 0x00];
    assert_eq!(get_branch_target(0x00401000, &bytes), Ok(0x00401016));
}

// The decoder rejects an unsupported leading byte with a single-byte-opcode
// error carrying that byte and the address, wherever it is decoded.
#[test]
fn rejects_halt_opcode() {
    let bytes = vec![0xF4, 0x00, 0x00, 0x00, 0x00, 0x00];
    assert_eq!(
        get_branch_target(0x00401000, &bytes),
        Err(UnexpectedOpcodeError::SingleByteOpcode { addr: 0x00401000, opcode: 0xF4 })
    );
    assert_eq!(
        get_branch_target(0xDEADBEEF, &bytes),
        Err(UnexpectedOpcodeError::SingleByteOpcode { addr: 0xDEADBEEF, opcode: 0xF4 })
    );
}

#[test]
fn rejects_unknown_two_byte_opcode() {
    let bytes = vec![0x0F, 0x05, 0x00, 0x00, 0x00, 0x00];
    assert_eq!(
        get_branch_target(0x00401000, &bytes),
        Err(UnexpectedOpcodeError::DoubleByteOpcode {
            addr: 0x00401000,
            opcode1: 0x0F,
            opcode2: 0x05
        })
    );
}

#[test]
fn absolute_from_rel32() {
    // five-byte instruction: displacement in its last four bytes
    let bytes = vec![0xE8, 0x10, 0x00, 0x00, 0x00];
    assert_eq!(get_absolute_from_rel32(0x00401000, &bytes, 5), 0x00401015);
    // negative displacement wraps
    let bytes = vec![0xE9, 0xFC, 0xFF, 0xFF, 0xFF];
    assert_eq!(get_absolute_from_rel32(0x00401000, &bytes, 5), 0x00401001);
}

#[test]
fn absolute_from_rel8() {
    let bytes = vec![0xEB, 0x05];
    assert_eq!(get_absolute_from_rel8(0x00401000, &bytes), 0x00401007);
    let bytes = vec![0xEB, 0x80];
    assert_eq!(get_absolute_from_rel8(0x00401000, &bytes), 0x00400F82);
}
