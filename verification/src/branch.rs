//! Encoding and decoding of x86 branch instructions with immediate operands.
//!
//! The decoder computes the absolute target address of a supported branch
//! instruction from its raw bytes; the encoders produce the bytes of
//! call/jmp/conditional-jump/push instructions for given source and
//! destination addresses. Displacements are always 32-bit two's-complement
//! wraparound differences; the 32-bit form is emitted even when an 8-bit
//! displacement would fit, for uniform patch sizing.

use vstd::prelude::*;
use vstd::bytes::{
    lemma_auto_spec_u32_to_from_le_bytes, spec_u32_from_le_bytes, spec_u32_to_le_bytes,
    u32_from_le_bytes, u32_to_le_bytes,
};

use crate::addr::{
    lemma_wrap32_add, lemma_wrap32_add_left, lemma_wrap32_id, lemma_wrap32_sub,
    lemma_wrap32_sub_left, sign8, to_addr32, wrap32, wrap_add32, wrap_sub32,
};

verus! {

/// The opcode of the nop instruction
pub const NOP: u8 = 0x90;

/// Error returned when the bytes at a decode site do not begin a supported
/// branch instruction. The error carries the offending opcode byte(s) and the
/// address they were decoded at.
#[derive(Debug, Clone, Copy, PartialEq, Eq, Structural)]
pub enum UnexpectedOpcodeError {
    /// The leading byte is not a supported branch opcode.
    SingleByteOpcode { addr: u32, opcode: u8 },
    /// A `0x0F` prefix is not followed by a two-byte conditional-jump opcode.
    DoubleByteOpcode { addr: u32, opcode1: u8, opcode2: u8 },
}

/// Opcodes of near call and near jmp, which take a 32-bit displacement.
pub open spec fn is_rel32_opcode(op: u8) -> bool {
    op == 0xE8 || op == 0xE9
}

/// Opcodes of far call and far jmp, whose operand is an absolute pointer.
pub open spec fn is_far_opcode(op: u8) -> bool {
    op == 0x9A || op == 0xEA
}

/// Opcodes taking an 8-bit displacement: short jmp, jecxz, and the sixteen
/// one-byte conditional jumps.
pub open spec fn is_rel8_opcode(op: u8) -> bool {
    op == 0xEB || op == 0xE3 || (0x70 <= op && op <= 0x7F)
}

/// Second bytes of the sixteen `0x0F`-prefixed conditional jumps, which take
/// a 32-bit displacement.
pub open spec fn is_cond_opcode(op: u8) -> bool {
    0x80 <= op && op <= 0x8F
}

/// The absolute target of the branch instruction whose bytes are `bytes` and
/// whose first byte sits at address `addr`, or the error identifying the
/// unsupported opcode. A displacement is measured from the end of the
/// instruction; a far operand is the target itself.
pub open spec fn spec_branch_target(addr: u32, bytes: Seq<u8>) -> Result<
    u32,
    UnexpectedOpcodeError,
>
    recommends
        bytes.len() >= 6,
{
    let op = bytes[0];
    if is_rel32_opcode(op) {
        Ok(wrap32(addr + 5 + spec_u32_from_le_bytes(bytes.subrange(1, 5))))
    } else if is_far_opcode(op) {
        Ok(spec_u32_from_le_bytes(bytes.subrange(1, 5)))
    } else if is_rel8_opcode(op) {
        Ok(wrap32(addr + 2 + sign8(bytes[1])))
    } else if op == 0x0F {
        if is_cond_opcode(bytes[1]) {
            Ok(wrap32(addr + 6 + spec_u32_from_le_bytes(bytes.subrange(2, 6))))
        } else {
            Err(UnexpectedOpcodeError::DoubleByteOpcode { addr, opcode1: op, opcode2: bytes[1] })
        }
    } else {
        Err(UnexpectedOpcodeError::SingleByteOpcode { addr, opcode: op })
    }
}

/// Get an absolute address from an instruction containing a 32-bit relative offset
///
/// # Arguments
///
/// * `addr` - The address of the start of the instruction
/// * `bytes` - The bytes of the instruction, starting at its first byte
/// * `n` - Size of the instruction in bytes; the displacement occupies its
///   last four bytes
pub fn get_absolute_from_rel32(addr: u32, bytes: &Vec<u8>, n: usize) -> (target: u32)
    requires
        4 <= n <= bytes@.len(),
        n <= 0xFFFF_FFFF,
    ensures
        target == wrap32(addr + n + spec_u32_from_le_bytes(bytes@.subrange(n - 4, n as int))),
{
    let rel = u32_from_le_bytes(&bytes[n - 4..n]);
    let target = wrap_add32(wrap_add32(addr, n as u32), rel);
    proof {
        lemma_wrap32_add_left(addr + n, rel as int);
    }
    target
}

/// Get an absolute address from an instruction containing an 8-bit relative offset
///
/// # Arguments
///
/// * `addr` - The address of the start of the instruction
/// * `bytes` - The bytes of the instruction; the displacement is its second byte
pub fn get_absolute_from_rel8(addr: u32, bytes: &Vec<u8>) -> (target: u32)
    requires
        bytes@.len() >= 2,
    ensures
        target == wrap32(addr + 2 + sign8(bytes@[1])),
{
    let b = bytes[1];
    let end = wrap_add32(addr, 2);
    proof {
        lemma_wrap32_add_left(addr + 2, b as int);
    }
    let unsigned = wrap_add32(end, b as u32);
    if b < 0x80 {
        unsigned
    } else {
        proof {
            lemma_wrap32_sub_left(addr + 2 + b, 0x100);
        }
        wrap_sub32(unsigned, 0x100)
    }
}

/// Get the absolute address of the destination of a branch instruction
///
/// "Branch instructions" include both conditional and unconditional jumps, as well as calls. Only
/// branch instructions with immediate operands are supported, not register or memory operands.
///
/// # Arguments
///
/// * `addr` - The address of the start of the branch instruction
/// * `bytes` - The bytes found at that address; at least the six bytes a
///   supported instruction can occupy. The caller is responsible for the
///   bytes really being those at `addr`: the decoder itself never reads
///   memory.
///
/// # Errors
///
/// An UnexpectedOpcodeError is returned if the opcode at the provided location does not correspond
/// to a supported branch instruction.
pub fn get_branch_target(addr: u32, bytes: &Vec<u8>) -> (target: Result<
    u32,
    UnexpectedOpcodeError,
>)
    requires
        bytes@.len() >= 6,
    ensures
        target == spec_branch_target(addr, bytes@),
{
    let opcode = bytes[0];
    if opcode == 0xE8 || opcode == 0xE9 {
        Ok(get_absolute_from_rel32(addr, bytes, 5))
    } else if opcode == 0x9A || opcode == 0xEA {
        Ok(u32_from_le_bytes(&bytes[1..5]))
    } else if opcode == 0xEB || opcode == 0xE3 || (0x70 <= opcode && opcode <= 0x7F) {
        Ok(get_absolute_from_rel8(addr, bytes))
    } else if opcode == 0x0F {
        let sub_opcode = bytes[1];
        if 0x80 <= sub_opcode && sub_opcode <= 0x8F {
            Ok(get_absolute_from_rel32(addr, bytes, 6))
        } else {
            Err(UnexpectedOpcodeError::DoubleByteOpcode { addr, opcode1: opcode, opcode2: sub_opcode })
        }
    } else {
        Err(UnexpectedOpcodeError::SingleByteOpcode { addr, opcode })
    }
}

/// The little-endian bytes of the 32-bit wraparound displacement from the end
/// of an `n`-byte instruction at `from` to the address `to`.
pub open spec fn spec_addr_offset(from: int, to: int, n: int) -> Seq<u8> {
    spec_u32_to_le_bytes(wrap32(to - from - n))
}

/// Get the relative offset between two addresses as a little-endian byte vector
///
/// The offset is measured from the end of an `n`-byte instruction starting at
/// `from`, with 32-bit wraparound; it never fails, whatever the distance.
pub fn addr_offset(from: usize, to: usize, n: usize) -> (bytes: Vec<u8>)
    ensures
        bytes@.len() == 4,
        bytes@ == spec_addr_offset(from as int, to as int, n as int),
{
    let f = to_addr32(from);
    let t = to_addr32(to);
    let d = to_addr32(n);
    proof {
        lemma_wrap32_sub(to as int, from as int);
        lemma_wrap32_sub(to - from, n as int);
    }
    let rel = wrap_sub32(wrap_sub32(t, f), d);
    u32_to_le_bytes(rel)
}

/// The bytes of `call` from `from` to `to`.
pub open spec fn spec_call(from: int, to: int) -> Seq<u8> {
    seq![0xE8u8] + spec_addr_offset(from, to, 5)
}

/// The bytes of `jmp` from `from` to `to`.
pub open spec fn spec_jmp(from: int, to: int) -> Seq<u8> {
    seq![0xE9u8] + spec_addr_offset(from, to, 5)
}

/// The bytes of the `0x0F`-prefixed conditional jump with condition byte
/// `cond` from `from` to `to`.
pub open spec fn spec_cond_jmp(from: int, to: int, cond: u8) -> Seq<u8> {
    seq![0x0Fu8, cond] + spec_addr_offset(from, to, 6)
}

/// The bytes of `push` of the immediate `imm`.
pub open spec fn spec_push(imm: int) -> Seq<u8> {
    seq![0x68u8] + spec_u32_to_le_bytes(wrap32(imm))
}

/// Get the bytes of a call instruction from one address to another
pub fn call(from: usize, to: usize) -> (bytes: Vec<u8>)
    ensures
        bytes@.len() == 5,
        bytes@ == spec_call(from as int, to as int),
{
    let mut v: Vec<u8> = Vec::new();
    v.push(0xE8);
    let mut rel = addr_offset(from, to, 5);
    v.append(&mut rel);
    proof {
        assert(v@ =~= spec_call(from as int, to as int));
    }
    v
}

/// Get the bytes of an unconditional jump instruction from one address to another
///
/// The returned instruction always uses a 32-bit offset even if the displacement could fit in an
/// 8-bit offset.
pub fn jmp(from: usize, to: usize) -> (bytes: Vec<u8>)
    ensures
        bytes@.len() == 5,
        bytes@ == spec_jmp(from as int, to as int),
{
    let mut v: Vec<u8> = Vec::new();
    v.push(0xE9);
    let mut rel = addr_offset(from, to, 5);
    v.append(&mut rel);
    proof {
        assert(v@ =~= spec_jmp(from as int, to as int));
    }
    v
}

/// Get the bytes of a conditional jump with condition byte `cond` from one
/// address to another.
pub fn cond_jmp(from: usize, to: usize, cond: u8) -> (bytes: Vec<u8>)
    ensures
        bytes@.len() == 6,
        bytes@ == spec_cond_jmp(from as int, to as int, cond),
{
    let mut v: Vec<u8> = Vec::new();
    v.push(0x0F);
    v.push(cond);
    let mut rel = addr_offset(from, to, 6);
    v.append(&mut rel);
    proof {
        assert(v@ =~= spec_cond_jmp(from as int, to as int, cond));
    }
    v
}

/// Get the bytes of a jz instruction from one address to another
///
/// The returned instruction always uses a 32-bit offset even if the displacement could fit in an
/// 8-bit offset.
pub fn jz(from: usize, to: usize) -> (bytes: Vec<u8>)
    ensures
        bytes@.len() == 6,
        bytes@ == spec_cond_jmp(from as int, to as int, 0x84),
{
    cond_jmp(from, to, 0x84)
}

/// Get the bytes of a jl instruction from one address to another
///
/// The returned instruction always uses a 32-bit offset even if the displacement could fit in an
/// 8-bit offset.
pub fn jl(from: usize, to: usize) -> (bytes: Vec<u8>)
    ensures
        bytes@.len() == 6,
        bytes@ == spec_cond_jmp(from as int, to as int, 0x8C),
{
    cond_jmp(from, to, 0x8C)
}

/// Get the bytes of a jge instruction from one address to another
///
/// The returned instruction always uses a 32-bit offset even if the displacement could fit in an
/// 8-bit offset.
pub fn jge(from: usize, to: usize) -> (bytes: Vec<u8>)
    ensures
        bytes@.len() == 6,
        bytes@ == spec_cond_jmp(from as int, to as int, 0x8D),
{
    cond_jmp(from, to, 0x8D)
}

/// Get the bytes of a push instruction that pushes the provided immediate value onto the stack
pub fn push(imm: usize) -> (bytes: Vec<u8>)
    ensures
        bytes@.len() == 5,
        bytes@ == spec_push(imm as int),
{
    let mut v: Vec<u8> = Vec::new();
    v.push(0x68);
    let mut val = u32_to_le_bytes(to_addr32(imm));
    v.append(&mut val);
    proof {
        assert(v@ =~= spec_push(imm as int));
    }
    v
}

/// Law: decoding the bytes of an encoded near call at its own source address
/// recovers the target address, whatever the displacement.
pub proof fn lemma_call_round_trip(from: u32, to: u32)
    ensures
        spec_branch_target(from, spec_call(from as int, to as int)) == Ok::<
            u32,
            UnexpectedOpcodeError,
        >(to),
{
    lemma_rel32_round_trip(from, to, spec_call(from as int, to as int), 0xE8);
}

/// Law: decoding the bytes of an encoded near jmp at its own source address
/// recovers the target address, whatever the displacement.
pub proof fn lemma_jmp_round_trip(from: u32, to: u32)
    ensures
        spec_branch_target(from, spec_jmp(from as int, to as int)) == Ok::<
            u32,
            UnexpectedOpcodeError,
        >(to),
{
    lemma_rel32_round_trip(from, to, spec_jmp(from as int, to as int), 0xE9);
}

/// Shared argument for the two near-branch round trips: a five-byte
/// instruction `opcode` + rel32 encoded from `from` to `to` decodes back to
/// `to`.
proof fn lemma_rel32_round_trip(from: u32, to: u32, bytes: Seq<u8>, opcode: u8)
    requires
        is_rel32_opcode(opcode),
        bytes == seq![opcode] + spec_addr_offset(from as int, to as int, 5),
    ensures
        spec_branch_target(from, bytes) == Ok::<u32, UnexpectedOpcodeError>(to),
{
    lemma_auto_spec_u32_to_from_le_bytes();
    let rel = wrap32(to - from - 5);
    assert(bytes.subrange(1, 5) =~= spec_u32_to_le_bytes(rel));
    assert(spec_u32_from_le_bytes(bytes.subrange(1, 5)) == rel);
    lemma_wrap32_add(from + 5, to - from - 5);
    lemma_wrap32_id(to);
}

/// Law: decoding the bytes of an encoded conditional jump at its own source
/// address recovers the target address, for every one of the sixteen
/// condition bytes and whatever the displacement.
pub proof fn lemma_cond_jmp_round_trip(from: u32, to: u32, cond: u8)
    requires
        is_cond_opcode(cond),
    ensures
        spec_branch_target(from, spec_cond_jmp(from as int, to as int, cond)) == Ok::<
            u32,
            UnexpectedOpcodeError,
        >(to),
{
    lemma_auto_spec_u32_to_from_le_bytes();
    let bytes = spec_cond_jmp(from as int, to as int, cond);
    let rel = wrap32(to - from - 6);
    assert(bytes.subrange(2, 6) =~= spec_u32_to_le_bytes(rel));
    assert(spec_u32_from_le_bytes(bytes.subrange(2, 6)) == rel);
    lemma_wrap32_add(from + 6, to - from - 6);
    lemma_wrap32_id(to);
}

/// Law: any unsupported leading byte is rejected, with a single-byte-opcode
/// error carrying that byte and the decode address.
pub proof fn lemma_unsupported_opcode_rejected(addr: u32, bytes: Seq<u8>)
    requires
        bytes.len() >= 1,
        !is_rel32_opcode(bytes[0]),
        !is_far_opcode(bytes[0]),
        !is_rel8_opcode(bytes[0]),
        bytes[0] != 0x0F,
    ensures
        spec_branch_target(addr, bytes) == Err::<u32, UnexpectedOpcodeError>(
            UnexpectedOpcodeError::SingleByteOpcode { addr, opcode: bytes[0] },
        ),
{
}

} // verus!
