//! The system routines behind the TRAP instruction.
use super::instructions::add16;
use super::memory::Memory;
use super::registers::{Registers, RegistersView};
use crate::output::{SystemIO, WebIO};
use crate::text::{char_word, word_of_char};
use vstd::prelude::*;

verus! {

pub const GETC: u16 = 0x20;

pub const OUT: u16 = 0x21;

pub const PUTS: u16 = 0x22;

pub const IN: u16 = 0x23;

pub const HALT: u16 = 0x25;

/// What stops the machine other than HALT.
#[derive(Debug, PartialEq, Eq, Clone, Copy, Structural)]
pub enum VmFault {
    /// The operation code 1101, which names no instruction.
    ReservedOpcode,
    /// A trap vector that names no routine.
    UnknownTrap(u16),
}

/// The character in the low eight bits of a word.
pub open spec fn low_char(w: u16) -> char {
    ((w & 0xff) as u8) as char
}

/// The characters of the string that starts at `addr`: the low eight bits of
/// each word up to the first zero word, and of at most `limit` words.
pub open spec fn string_at(mem: Seq<u16>, addr: u16, limit: nat) -> Seq<char>
    decreases limit,
{
    if limit == 0 || mem[addr as int] == 0 {
        Seq::empty()
    } else {
        seq![low_char(mem[addr as int])] + string_at(mem, add16(addr, 1), (limit - 1) as nat)
    }
}

/// Whether a trap vector names one of the routines.
pub open spec fn known_trap(vector: u16) -> bool {
    vector == GETC || vector == OUT || vector == PUTS || vector == IN || vector == HALT
}

pub struct Trap;

impl Trap {
    /// GETC: reads one character into R0.
    pub fn get_c(&self, reg: &mut Registers, io: &mut WebIO)
        ensures
            old(io).pending().len() > 0 ==> final(reg)@ == old(reg)@.set(
                0,
                char_word(old(io).pending()[0]),
            ) && final(io).pending() == old(io).pending().drop_first(),
            old(io).pending().len() == 0 ==> final(reg)@ == old(reg)@.set(0, 0) && final(io).pending() == old(io).pending(),
            final(io).written() == old(io).written(),
    {
        let c = io.get_char();
        let word = word_of_char(c);
        assert(char_word('\0') == 0) by {
            assert(0u32 & 0xffff == 0) by (bit_vector);
        }
        reg.set(0, word);
    }

    /// OUT: writes the character in the low eight bits of R0.
    pub fn out(&self, reg: &mut Registers, io: &mut WebIO)
        ensures
            final(reg)@ == old(reg)@,
            final(io).written() == old(io).written().push(low_char(old(reg)@.r[0])),
            final(io).pending() == old(io).pending(),
    {
        io.print_char(Self::low_char_of(reg.get(0)));
    }

    /// PUTS: writes the string that starts at the address in R0, one
    /// character for each word up to the first zero word.
    pub fn put_s(&self, reg: &mut Registers, mem: &mut Memory, io: &mut WebIO)
        ensures
            final(reg)@ == old(reg)@,
            final(mem)@ == old(mem)@,
            final(io).written() == old(io).written() + string_at(
                old(mem)@,
                old(reg)@.r[0],
                65536,
            ),
            final(io).pending() == old(io).pending(),
    {
        self.print_string(reg, mem, io);
    }

    /// IN: writes the string at the address in R0 as a prompt, then reads one
    /// character into R0.
    pub fn input(&self, reg: &mut Registers, mem: &mut Memory, io: &mut WebIO)
        ensures
            final(mem)@ == old(mem)@,
            final(io).written() == old(io).written() + string_at(
                old(mem)@,
                old(reg)@.r[0],
                65536,
            ),
            old(io).pending().len() > 0 ==> final(reg)@ == old(reg)@.set(
                0,
                char_word(old(io).pending()[0]),
            ) && final(io).pending() == old(io).pending().drop_first(),
            old(io).pending().len() == 0 ==> final(reg)@ == old(reg)@.set(0, 0) && final(io).pending() == old(io).pending(),
    {
        self.print_string(reg, mem, io);
        self.get_c(reg, io);
    }

    /// HALT: stops the machine.
    pub fn halt(&self, reg: &mut Registers)
        ensures
            final(reg)@ == (RegistersView { halt: true, ..old(reg)@ }),
    {
        reg.halt = true;
    }

    /// Carries out the trap whose vector is in the low eight bits of
    /// `value`. A vector that names no routine halts the machine and is
    /// reported.
    pub fn exe(
        &self,
        value: u16,
        reg: &mut Registers,
        mem: &mut Memory,
        io: &mut WebIO,
    ) -> (r: Result<(), VmFault>)
        ensures
            final(mem)@ == old(mem)@,
            (r is Ok) == known_trap(value & 0xff),
            known_trap(value & 0xff) ==> r == Ok::<(), VmFault>(()),
            !known_trap(value & 0xff) ==> {
                &&& r == Err::<(), VmFault>(VmFault::UnknownTrap(value & 0xff))
                &&& final(reg)@ == (RegistersView { halt: true, ..old(reg)@ })
                &&& final(io).written() == old(io).written()
                &&& final(io).pending() == old(io).pending()
            },
            value & 0xff == HALT ==> {
                &&& final(reg)@ == (RegistersView { halt: true, ..old(reg)@ })
                &&& final(io).written() == old(io).written()
                &&& final(io).pending() == old(io).pending()
            },
            value & 0xff == OUT ==> {
                &&& final(reg)@ == old(reg)@
                &&& final(io).written() == old(io).written().push(low_char(old(reg)@.r[0]))
                &&& final(io).pending() == old(io).pending()
            },
            value & 0xff == PUTS ==> {
                &&& final(reg)@ == old(reg)@
                &&& final(io).written() == old(io).written() + string_at(
                    old(mem)@,
                    old(reg)@.r[0],
                    65536,
                )
                &&& final(io).pending() == old(io).pending()
            },
            value & 0xff == GETC || value & 0xff == IN ==> {
                &&& final(io).written() == old(io).written() + (if value & 0xff == IN {
                    string_at(old(mem)@, old(reg)@.r[0], 65536)
                } else {
                    Seq::empty()
                })
                &&& old(io).pending().len() > 0 ==> final(reg)@ == old(reg)@.set(
                    0,
                    char_word(old(io).pending()[0]),
                ) && final(io).pending() == old(io).pending().drop_first()
                &&& old(io).pending().len() == 0 ==> final(reg)@ == old(reg)@.set(0, 0) && final(io).pending() == old(io).pending()
            },
    {
        let code = value & 0xff;
        if code == GETC {
            self.get_c(reg, io);
            assert(io.written() == old(io).written() + Seq::<char>::empty());
            Ok(())
        } else if code == OUT {
            self.out(reg, io);
            Ok(())
        } else if code == PUTS {
            self.put_s(reg, mem, io);
            Ok(())
        } else if code == IN {
            self.input(reg, mem, io);
            Ok(())
        } else if code == HALT {
            self.halt(reg);
            Ok(())
        } else {
            self.halt(reg);
            Err(VmFault::UnknownTrap(code))
        }
    }

    fn low_char_of(w: u16) -> (c: char)
        ensures
            c == low_char(w),
    {
        assert(w & 0xff < 256) by (bit_vector);
        let b: u8 = (w & 0xff) as u8;
        b as char
    }

    fn print_string(&self, reg: &Registers, mem: &Memory, io: &mut WebIO)
        ensures
            final(io).written() == old(io).written() + string_at(mem@, reg@.r[0], 65536),
            final(io).pending() == old(io).pending(),
    {
        let mut i: u16 = reg.get(0);
        let mut left: u32 = 65536;
        let ghost mut printed: Seq<char> = Seq::empty();
        assert(io.written() == old(io).written() + printed);
        while left > 0 && mem.get(i) != 0
            invariant
                left <= 65536,
                io.written() == old(io).written() + printed,
                io.pending() == old(io).pending(),
                printed + string_at(mem@, i, left as nat) == string_at(mem@, reg@.r[0], 65536),
            decreases left,
        {
            let c = Self::low_char_of(mem.get(i));
            io.print_char(c);
            proof {
                let rest = string_at(mem@, add16(i, 1), (left - 1) as nat);
                assert(string_at(mem@, i, left as nat) == seq![c] + rest);
                assert(printed.push(c) + rest == printed + (seq![c] + rest));
                assert(old(io).written() + printed.push(c) == (old(io).written() + printed).push(
                    c,
                ));
                printed = printed.push(c);
            }
            i = i.wrapping_add(1);
            left -= 1;
        }
        assert(string_at(mem@, i, left as nat) == Seq::<char>::empty());
        assert(printed + Seq::<char>::empty() == printed);
    }
}

} // verus!
