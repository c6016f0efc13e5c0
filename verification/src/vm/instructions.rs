//! The instructions of the machine, each as an effect on registers and
//! memory.
//!
//! An instruction is given as the low twelve bits of its word: the
//! operation code in the top four bits has already chosen the instruction.
use super::memory::Memory;
use super::registers::{Registers, RegistersView};
use vstd::prelude::*;

verus! {

/// The three-bit field of `value` whose lowest bit is bit `shift`.
pub open spec fn field3(value: u16, shift: u16) -> int {
    ((value >> shift) & 7) as int
}

/// Bit `index` of `value`.
pub open spec fn bit(value: u16, index: u16) -> bool {
    (value >> index) & 1 == 1
}

/// The word whose low `bits` bits are set.
pub open spec fn field_mask(bits: u16) -> u16 {
    if bits >= 16 {
        0xffffu16
    } else {
        ((1u16 << bits) - 1) as u16
    }
}

/// The low `bits` bits of `value`, read as a two's-complement number and
/// widened to sixteen bits.
pub open spec fn sign_extend(value: u16, bits: u16) -> u16 {
    let low = value & field_mask(bits);
    if low & (1u16 << ((bits - 1) as u16)) != 0 {
        low | !field_mask(bits)
    } else {
        low
    }
}

/// Sixteen-bit addition: the sum modulo 65,536.
pub open spec fn add16(a: u16, b: u16) -> u16 {
    ((a as int + b as int) % 0x10000) as u16
}

/// The registers with the condition flags set for `value`: N when it is
/// negative as a two's-complement number, Z when it is zero, P otherwise.
pub open spec fn flags_for(reg: RegistersView, value: u16) -> RegistersView {
    RegistersView { n: value >= 0x8000, z: value == 0, p: 0 < value < 0x8000, ..reg }
}

/// Exactly one of the three condition flags is set.
pub open spec fn one_flag(reg: RegistersView) -> bool {
    (reg.n && !reg.z && !reg.p) || (!reg.n && reg.z && !reg.p) || (!reg.n && !reg.z && reg.p)
}

/// A result written to a register, with the flags that go with it.
pub open spec fn write_back(reg: RegistersView, dr: int, value: u16) -> RegistersView {
    flags_for(reg.set(dr, value), value)
}

/// The second operand of ADD and AND: the immediate when bit 5 is set, else
/// the second source register.
pub open spec fn second_operand(value: u16, reg: RegistersView) -> u16 {
    if bit(value, 5) {
        sign_extend(value, 5)
    } else {
        reg.r[field3(value, 0)]
    }
}

pub open spec fn add_effect(value: u16, reg: RegistersView) -> RegistersView {
    write_back(
        reg,
        field3(value, 9),
        add16(reg.r[field3(value, 6)], second_operand(value, reg)),
    )
}

pub open spec fn and_effect(value: u16, reg: RegistersView) -> RegistersView {
    write_back(reg, field3(value, 9), reg.r[field3(value, 6)] & second_operand(value, reg))
}

pub open spec fn not_effect(value: u16, reg: RegistersView) -> RegistersView {
    write_back(reg, field3(value, 9), !reg.r[field3(value, 6)])
}

/// Whether a branch with the condition bits of `value` is taken.
pub open spec fn branch_taken(value: u16, reg: RegistersView) -> bool {
    (bit(value, 11) && reg.n) || (bit(value, 10) && reg.z) || (bit(value, 9) && reg.p)
}

pub open spec fn br_effect(value: u16, reg: RegistersView) -> RegistersView {
    if branch_taken(value, reg) {
        RegistersView { pc: add16(reg.pc, sign_extend(value, 9)), ..reg }
    } else {
        reg
    }
}

pub open spec fn jmp_effect(value: u16, reg: RegistersView) -> RegistersView {
    RegistersView { pc: reg.r[field3(value, 6)], ..reg }
}

/// JSR when bit 11 is set, JSRR when it is clear. Either way R7 receives the
/// program counter as it was; JSRR reads its base register before that.
pub open spec fn jsr_effect(value: u16, reg: RegistersView) -> RegistersView {
    let target = if bit(value, 11) {
        add16(reg.pc, sign_extend(value, 11))
    } else {
        reg.r[field3(value, 6)]
    };
    RegistersView { pc: target, r: reg.r.update(7, reg.pc), ..reg }
}

/// The address `PC + offset9`.
pub open spec fn pc_relative(value: u16, reg: RegistersView) -> u16 {
    add16(reg.pc, sign_extend(value, 9))
}

/// The address `R[base] + offset6`.
pub open spec fn base_relative(value: u16, reg: RegistersView) -> u16 {
    add16(reg.r[field3(value, 6)], sign_extend(value, 6))
}

pub open spec fn ld_effect(value: u16, reg: RegistersView, mem: Seq<u16>) -> RegistersView {
    write_back(reg, field3(value, 9), mem[pc_relative(value, reg) as int])
}

pub open spec fn ldi_effect(value: u16, reg: RegistersView, mem: Seq<u16>) -> RegistersView {
    write_back(reg, field3(value, 9), mem[mem[pc_relative(value, reg) as int] as int])
}

pub open spec fn ldr_effect(value: u16, reg: RegistersView, mem: Seq<u16>) -> RegistersView {
    write_back(reg, field3(value, 9), mem[base_relative(value, reg) as int])
}

/// LEA writes the address and leaves the condition flags alone.
pub open spec fn lea_effect(value: u16, reg: RegistersView) -> RegistersView {
    reg.set(field3(value, 9), pc_relative(value, reg))
}

pub open spec fn st_effect(value: u16, reg: RegistersView, mem: Seq<u16>) -> Seq<u16> {
    mem.update(pc_relative(value, reg) as int, reg.r[field3(value, 9)])
}

pub open spec fn sti_effect(value: u16, reg: RegistersView, mem: Seq<u16>) -> Seq<u16> {
    mem.update(mem[pc_relative(value, reg) as int] as int, reg.r[field3(value, 9)])
}

pub open spec fn str_effect(value: u16, reg: RegistersView, mem: Seq<u16>) -> Seq<u16> {
    mem.update(base_relative(value, reg) as int, reg.r[field3(value, 9)])
}

/// After each instruction that writes a result to a register and sets the
/// flags for it, exactly one of the three flags is set, whatever the
/// instruction word, the registers and the memory.
pub proof fn one_flag_after_every_result(value: u16, reg: RegistersView, mem: Seq<u16>)
    ensures
        one_flag(add_effect(value, reg)),
        one_flag(and_effect(value, reg)),
        one_flag(not_effect(value, reg)),
        one_flag(ld_effect(value, reg, mem)),
        one_flag(ldi_effect(value, reg, mem)),
        one_flag(ldr_effect(value, reg, mem)),
{
}

/// An instruction of the machine: `exe` carries it out. `value` is the
/// instruction word without its operation code.
#[allow(dead_code)]
pub trait Instruction {
    fn exe(&self, value: u16, reg: &mut Registers, mem: &mut Memory);
}

pub struct Add;

pub struct And;

pub struct Br;

pub struct JmpRet;

pub struct Jsr;

pub struct Ld;

pub struct Ldi;

pub struct Ldr;

pub struct Lea;

pub struct Not;

pub struct Rti;

pub struct St;

pub struct Sti;

pub struct Str;

/// The number of the register named by the three bits of `value` from bit
/// `shift` up.
pub fn register_field(value: u16, shift: u16) -> (r: usize)
    requires
        shift < 16,
    ensures
        r == field3(value, shift),
        r < 8,
{
    assert((value >> shift) & 7 < 8) by (bit_vector);
    ((value >> shift) & 7) as usize
}

/// The low `num_bits` bits of `value`, sign-extended to sixteen bits.
pub fn get_offset(value: u16, num_bits: i32) -> (r: u16)
    requires
        1 <= num_bits <= 16,
    ensures
        r == sign_extend(value, num_bits as u16),
{
    let bits: u16 = num_bits as u16;
    let mask: u16 = if bits >= 16 {
        0xffff
    } else {
        assert((1u16 << bits) >= 1) by (bit_vector)
            requires
                bits < 16,
        ;
        (1u16 << bits) - 1
    };
    let low: u16 = value & mask;
    let sign: u16 = 1u16 << (bits - 1);
    if low & sign != 0 {
        low | !mask
    } else {
        low
    }
}

/// Bit `index` of `value`, as 0 or 1.
pub fn get_bit_index(value: u16, index: i32) -> (r: u16)
    requires
        0 <= index < 16,
    ensures
        r == (value >> (index as u16)) & 1,
        (r == 1) == bit(value, index as u16),
        r == 0 || r == 1,
{
    let i: u16 = index as u16;
    assert((value >> i) & 1 == 0 || (value >> i) & 1 == 1) by (bit_vector);
    (value >> i) & 1
}

/// Sets the condition flags for `value`: exactly one of them is set
/// afterwards.
pub fn set_nzp(reg: &mut Registers, value: u16)
    ensures
        final(reg)@ == flags_for(old(reg)@, value),
        one_flag(final(reg)@),
{
    reg.n = value >= 0x8000;
    reg.z = value == 0;
    reg.p = 0 < value && value < 0x8000;
}

fn second_operand_of(value: u16, reg: &Registers) -> (v: u16)
    ensures
        v == second_operand(value, reg@),
{
    if get_bit_index(value, 5) == 1 {
        get_offset(value, 5)
    } else {
        reg.get(register_field(value, 0))
    }
}

fn pc_relative_of(value: u16, reg: &Registers) -> (a: u16)
    ensures
        a == pc_relative(value, reg@),
{
    reg.pc.wrapping_add(get_offset(value, 9))
}

fn base_relative_of(value: u16, reg: &Registers) -> (a: u16)
    ensures
        a == base_relative(value, reg@),
{
    reg.get(register_field(value, 6)).wrapping_add(get_offset(value, 6))
}

/// Writes a result to a register and sets the flags for it.
fn write_result(reg: &mut Registers, dr: usize, value: u16)
    requires
        dr < 8,
    ensures
        final(reg)@ == write_back(old(reg)@, dr as int, value),
        one_flag(final(reg)@),
{
    reg.set(dr, value);
    set_nzp(reg, value);
}

impl Instruction for Add {
    /// `DR := SR1 + SR2`, or `DR := SR1 + imm5` when bit 5 is set; sets the
    /// flags.
    fn exe(&self, value: u16, reg: &mut Registers, _mem: &mut Memory)
        ensures
            final(reg)@ == add_effect(value, old(reg)@),
            final(_mem)@ == old(_mem)@,
            one_flag(final(reg)@),
    {
        let dr = register_field(value, 9);
        let sr1 = register_field(value, 6);
        let new_value = reg.get(sr1).wrapping_add(second_operand_of(value, reg));
        write_result(reg, dr, new_value);
    }
}

impl Instruction for And {
    /// `DR := SR1 & SR2`, or `DR := SR1 & imm5` when bit 5 is set; sets the
    /// flags.
    fn exe(&self, value: u16, reg: &mut Registers, _mem: &mut Memory)
        ensures
            final(reg)@ == and_effect(value, old(reg)@),
            final(_mem)@ == old(_mem)@,
            one_flag(final(reg)@),
    {
        let dr = register_field(value, 9);
        let sr1 = register_field(value, 6);
        let new_value = reg.get(sr1) & second_operand_of(value, reg);
        write_result(reg, dr, new_value);
    }
}

impl Instruction for Br {
    /// Adds the offset to the program counter when a condition bit of the
    /// instruction meets a set flag.
    fn exe(&self, value: u16, reg: &mut Registers, _mem: &mut Memory)
        ensures
            final(reg)@ == br_effect(value, old(reg)@),
            final(_mem)@ == old(_mem)@,
    {
        let n = get_bit_index(value, 11);
        let z = get_bit_index(value, 10);
        let p = get_bit_index(value, 9);
        if (n == 1 && reg.n) || (z == 1 && reg.z) || (p == 1 && reg.p) {
            reg.pc = pc_relative_of(value, reg);
        }
    }
}

impl Instruction for JmpRet {
    /// `PC := R[base]`; RET is the case of base register 7.
    fn exe(&self, value: u16, reg: &mut Registers, _mem: &mut Memory)
        ensures
            final(reg)@ == jmp_effect(value, old(reg)@),
            final(_mem)@ == old(_mem)@,
    {
        let base_reg = register_field(value, 6);
        reg.pc = reg.get(base_reg);
    }
}

impl Instruction for Jsr {
    /// Saves the program counter in R7 and jumps: by the offset when bit 11
    /// is set, to the address in the base register otherwise.
    fn exe(&self, value: u16, reg: &mut Registers, _mem: &mut Memory)
        ensures
            final(reg)@ == jsr_effect(value, old(reg)@),
            final(_mem)@ == old(_mem)@,
    {
        let return_to = reg.pc;
        if get_bit_index(value, 11) == 1 {
            reg.pc = return_to.wrapping_add(get_offset(value, 11));
        } else {
            reg.pc = reg.get(register_field(value, 6));
        }
        reg.set(7, return_to);
    }
}

impl Instruction for Ld {
    /// `DR := mem[PC + offset9]`; sets the flags.
    fn exe(&self, value: u16, reg: &mut Registers, mem: &mut Memory)
        ensures
            final(reg)@ == ld_effect(value, old(reg)@, old(mem)@),
            final(mem)@ == old(mem)@,
            one_flag(final(reg)@),
    {
        let dr = register_field(value, 9);
        let new_value = mem.get(pc_relative_of(value, reg));
        write_result(reg, dr, new_value);
    }
}

impl Instruction for Ldi {
    /// `DR := mem[mem[PC + offset9]]`; sets the flags.
    fn exe(&self, value: u16, reg: &mut Registers, mem: &mut Memory)
        ensures
            final(reg)@ == ldi_effect(value, old(reg)@, old(mem)@),
            final(mem)@ == old(mem)@,
            one_flag(final(reg)@),
    {
        let dr = register_field(value, 9);
        let address = mem.get(pc_relative_of(value, reg));
        let new_value = mem.get(address);
        write_result(reg, dr, new_value);
    }
}

impl Instruction for Ldr {
    /// `DR := mem[R[base] + offset6]`; sets the flags.
    fn exe(&self, value: u16, reg: &mut Registers, mem: &mut Memory)
        ensures
            final(reg)@ == ldr_effect(value, old(reg)@, old(mem)@),
            final(mem)@ == old(mem)@,
            one_flag(final(reg)@),
    {
        let dr = register_field(value, 9);
        let new_value = mem.get(base_relative_of(value, reg));
        write_result(reg, dr, new_value);
    }
}

impl Instruction for Lea {
    /// `DR := PC + offset9`; the flags stay as they are.
    fn exe(&self, value: u16, reg: &mut Registers, _mem: &mut Memory)
        ensures
            final(reg)@ == lea_effect(value, old(reg)@),
            final(_mem)@ == old(_mem)@,
    {
        let dr = register_field(value, 9);
        let address = pc_relative_of(value, reg);
        reg.set(dr, address);
    }
}

impl Instruction for Not {
    /// `DR := !SR`; sets the flags.
    fn exe(&self, value: u16, reg: &mut Registers, _mem: &mut Memory)
        ensures
            final(reg)@ == not_effect(value, old(reg)@),
            final(_mem)@ == old(_mem)@,
            one_flag(final(reg)@),
    {
        let dr = register_field(value, 9);
        let sr = register_field(value, 6);
        let not_val = !reg.get(sr);
        write_result(reg, dr, not_val);
    }
}

impl Instruction for Rti {
    /// RTI does nothing on this machine.
    fn exe(&self, _value: u16, _reg: &mut Registers, _mem: &mut Memory)
        ensures
            final(_reg)@ == old(_reg)@,
            final(_mem)@ == old(_mem)@,
    {
    }
}

impl Instruction for St {
    /// `mem[PC + offset9] := SR`.
    fn exe(&self, value: u16, reg: &mut Registers, mem: &mut Memory)
        ensures
            final(reg)@ == old(reg)@,
            final(mem)@ == st_effect(value, old(reg)@, old(mem)@),
    {
        let sr = register_field(value, 9);
        mem.set(pc_relative_of(value, reg), reg.get(sr));
    }
}

impl Instruction for Sti {
    /// `mem[mem[PC + offset9]] := SR`.
    fn exe(&self, value: u16, reg: &mut Registers, mem: &mut Memory)
        ensures
            final(reg)@ == old(reg)@,
            final(mem)@ == sti_effect(value, old(reg)@, old(mem)@),
    {
        let sr = register_field(value, 9);
        let indirect = mem.get(pc_relative_of(value, reg));
        mem.set(indirect, reg.get(sr));
    }
}

impl Instruction for Str {
    /// `mem[R[base] + offset6] := SR`.
    fn exe(&self, value: u16, reg: &mut Registers, mem: &mut Memory)
        ensures
            final(reg)@ == old(reg)@,
            final(mem)@ == str_effect(value, old(reg)@, old(mem)@),
    {
        let sr = register_field(value, 9);
        mem.set(base_relative_of(value, reg), reg.get(sr));
    }
}

} // verus!
