//! The machine as a whole: boot, fetch, dispatch.
use super::instructions::{
    add16, add_effect, and_effect, br_effect, jmp_effect, jsr_effect, ld_effect, ldi_effect,
    ldr_effect, lea_effect, not_effect, st_effect, sti_effect, str_effect, Add, And, Br,
    Instruction, JmpRet, Jsr, Ld, Ldi, Ldr, Lea, Not, Rti, St, Sti, Str,
};
use super::memory::{loaded, Memory};
use super::registers::{Registers, RegistersView};
use super::trap::{known_trap, low_char, string_at, Trap, VmFault, GETC, IN, OUT, PUTS};
use crate::text::char_word;
use crate::output::WebIO;
use vstd::prelude::*;

verus! {

pub struct VM {
    pub registers: Registers,
    pub memory: Memory,
}

/// The machine together with its device, as one mathematical value.
pub struct Machine {
    pub reg: RegistersView,
    pub mem: Seq<u16>,
    pub written: Seq<char>,
    pub pending: Seq<char>,
}

/// The machine after a character has been read into R0; at the end of the
/// input R0 becomes zero.
pub open spec fn after_read(m: Machine) -> Machine {
    if m.pending.len() > 0 {
        Machine {
            reg: m.reg.set(0, char_word(m.pending[0])),
            pending: m.pending.drop_first(),
            ..m
        }
    } else {
        Machine { reg: m.reg.set(0, 0), ..m }
    }
}

/// The machine after the trap with the given vector. A vector that names no
/// routine halts the machine.
pub open spec fn after_trap(m: Machine, vector: u16) -> Machine {
    if vector == GETC {
        after_read(m)
    } else if vector == OUT {
        Machine { written: m.written.push(low_char(m.reg.r[0])), ..m }
    } else if vector == PUTS {
        Machine { written: m.written + string_at(m.mem, m.reg.r[0], 65536), ..m }
    } else if vector == IN {
        after_read(Machine { written: m.written + string_at(m.mem, m.reg.r[0], 65536), ..m })
    } else {
        Machine { reg: RegistersView { halt: true, ..m.reg }, ..m }
    }
}

/// The machine after the instruction `ir`, the program counter already
/// pointing past it.
#[verifier::opaque]
pub open spec fn execute(m: Machine, ir: u16) -> Machine {
    let opcode = ir >> 12;
    let value = ir & 0x0fff;
    if opcode == 0 {
        Machine { reg: br_effect(value, m.reg), ..m }
    } else if opcode == 1 {
        Machine { reg: add_effect(value, m.reg), ..m }
    } else if opcode == 2 {
        Machine { reg: ld_effect(value, m.reg, m.mem), ..m }
    } else if opcode == 3 {
        Machine { mem: st_effect(value, m.reg, m.mem), ..m }
    } else if opcode == 4 {
        Machine { reg: jsr_effect(value, m.reg), ..m }
    } else if opcode == 5 {
        Machine { reg: and_effect(value, m.reg), ..m }
    } else if opcode == 6 {
        Machine { reg: ldr_effect(value, m.reg, m.mem), ..m }
    } else if opcode == 7 {
        Machine { mem: str_effect(value, m.reg, m.mem), ..m }
    } else if opcode == 8 {
        m
    } else if opcode == 9 {
        Machine { reg: not_effect(value, m.reg), ..m }
    } else if opcode == 10 {
        Machine { reg: ldi_effect(value, m.reg, m.mem), ..m }
    } else if opcode == 11 {
        Machine { mem: sti_effect(value, m.reg, m.mem), ..m }
    } else if opcode == 12 {
        Machine { reg: jmp_effect(value, m.reg), ..m }
    } else if opcode == 14 {
        Machine { reg: lea_effect(value, m.reg), ..m }
    } else if opcode == 15 {
        after_trap(m, value & 0xff)
    } else {
        Machine { reg: RegistersView { halt: true, ..m.reg }, ..m }
    }
}

/// What is wrong with the instruction `ir`, if anything.
pub open spec fn fault_in(ir: u16) -> Option<VmFault> {
    if ir >> 12 == 13 {
        Some(VmFault::ReservedOpcode)
    } else if ir >> 12 == 15 && !known_trap((ir & 0x0fff) & 0xff) {
        Some(VmFault::UnknownTrap((ir & 0x0fff) & 0xff))
    } else {
        None
    }
}

/// One step of the machine: nothing when it is halted; otherwise fetch the
/// word at the program counter, advance the counter, and execute the word.
pub open spec fn step(m: Machine) -> Machine {
    if m.reg.halt {
        m
    } else {
        execute(
            Machine { reg: RegistersView { pc: add16(m.reg.pc, 1), ..m.reg }, ..m },
            m.mem[m.reg.pc as int],
        )
    }
}

/// The fault that the next step runs into, if any.
pub open spec fn step_fault(m: Machine) -> Option<VmFault> {
    if m.reg.halt {
        None
    } else {
        fault_in(m.mem[m.reg.pc as int])
    }
}

/// The next step reads a character: the machine is running and the word at
/// the program counter is the trap GETC or the trap IN.
pub open spec fn reads_next(m: Machine) -> bool {
    let ir = m.mem[m.reg.pc as int];
    !m.reg.halt && ir >> 12 == 15 && ((ir & 0x0fff) & 0xff == GETC || (ir & 0x0fff) & 0xff == IN)
}

/// The machine after at most `n` steps: it stops early once it is halted.
pub open spec fn run_steps(m: Machine, n: nat) -> Machine
    decreases n,
{
    if n == 0 || m.reg.halt {
        m
    } else {
        run_steps(step(m), (n - 1) as nat)
    }
}

/// The fault that ends a run of at most `n` steps, if one does.
pub open spec fn run_fault(m: Machine, n: nat) -> Option<VmFault>
    decreases n,
{
    if n == 0 || m.reg.halt {
        None
    } else if step_fault(m) is Some {
        step_fault(m)
    } else {
        run_fault(step(m), (n - 1) as nat)
    }
}

/// The machine once the image `file` is loaded: memory holds the image, the
/// program counter is at its origin, no flag is set and the machine is not
/// halted. The general registers are as they were.
pub open spec fn booted(m: Machine, file: Seq<u16>) -> Machine {
    Machine {
        reg: RegistersView { pc: file[0], n: false, z: false, p: false, halt: false, ..m.reg },
        mem: loaded(m.mem, file),
        ..m
    }
}

#[allow(dead_code)]
impl VM {
    /// The machine and its device as one value.
    pub open spec fn machine(&self, io: &WebIO) -> Machine {
        Machine {
            reg: self.registers@,
            mem: self.memory@,
            written: io.written(),
            pending: io.pending(),
        }
    }

    /// A machine with zeroed registers and memory.
    pub fn new() -> (vm: VM)
        ensures
            vm.registers@ == (RegistersView {
                r: Seq::new(8, |i: int| 0u16),
                pc: 0,
                n: false,
                z: false,
                p: false,
                halt: false,
            }),
            vm.memory@.len() == 65536,
            forall|a: int| 0 <= a < 65536 ==> vm.memory@[a] == 0,
    {
        VM { registers: Registers::new(), memory: Memory::new() }
    }

    /// Loads the image `file`, sets the program counter to its origin,
    /// clears the flags and lets the machine run. The general registers keep
    /// what they hold.
    pub fn boot(&mut self, file: Vec<u16>)
        requires
            file.len() >= 1,
            file[0] + (file.len() - 1) <= 65536,
        ensures
            final(self).registers@ == (RegistersView {
                pc: file[0],
                n: false,
                z: false,
                p: false,
                halt: false,
                ..old(self).registers@
            }),
            final(self).memory@ == loaded(old(self).memory@, file@),
    {
        self.registers.pc = file[0];
        self.registers.n = false;
        self.registers.z = false;
        self.registers.p = false;
        self.registers.halt = false;
        self.memory.load_file(file);
    }

    /// Loads the image `file` and runs it until the machine halts, for at
    /// most `limit` steps. Says whether the machine has halted: it has not
    /// when the steps were used up first. An instruction that cannot be
    /// executed halts the machine and is reported.
    pub fn run(&mut self, file: Vec<u16>, io: &mut WebIO, limit: u64) -> (r: Result<
        bool,
        VmFault,
    >)
        requires
            file.len() >= 1,
            file[0] + (file.len() - 1) <= 65536,
        ensures
            final(self).machine(final(io)) == run_steps(
                booted(old(self).machine(old(io)), file@),
                limit as nat,
            ),
            r == match run_fault(booted(old(self).machine(old(io)), file@), limit as nat) {
                Some(fault) => Err::<bool, VmFault>(fault),
                None => Ok::<bool, VmFault>(
                    run_steps(booted(old(self).machine(old(io)), file@), limit as nat).reg.halt,
                ),
            },
            r is Err ==> final(self).registers.halt,
    {
        self.boot(file);
        let ghost start = self.machine(io);
        let mut left: u64 = limit;
        while left > 0 && !self.registers.halt
            invariant
                left <= limit,
                start == booted(old(self).machine(old(io)), file@),
                run_steps(self.machine(io), left as nat) == run_steps(start, limit as nat),
                run_fault(self.machine(io), left as nat) == run_fault(start, limit as nat),
            decreases left,
        {
            let ghost before = self.machine(io);
            match self.run_single_command(io) {
                Ok(()) => {},
                Err(fault) => {
                    proof {
                        assert(self.machine(io).reg.halt);
                        assert(run_steps(before, left as nat) == run_steps(
                            step(before),
                            (left - 1) as nat,
                        ));
                    }
                    return Err(fault);
                },
            }
            left -= 1;
        }
        Ok(self.registers.halt)
    }

    /// Whether the next step would read a character that the device does
    /// not have yet: the moment to feed the device.
    pub fn wants_input(&self, io: &WebIO) -> (b: bool)
        ensures
            b == (reads_next(self.machine(io)) && io.pending().len() == 0),
    {
        if self.registers.halt || !io.is_drained() {
            return false;
        }
        let cmd = self.memory.get(self.registers.pc);
        let vector = (cmd & 0x0fff) & 0xff;
        cmd >> 12 == 15 && (vector == GETC || vector == IN)
    }

    /// One step: fetches the word at the program counter, advances the
    /// counter and executes the word. Does nothing when the machine is
    /// halted. An instruction that cannot be executed halts the machine and
    /// is reported.
    pub fn run_single_command(&mut self, io: &mut WebIO) -> (r: Result<(), VmFault>)
        ensures
            final(self).machine(final(io)) == step(old(self).machine(old(io))),
            r is Err ==> final(self).registers.halt,
            r == match step_fault(old(self).machine(old(io))) {
                Some(fault) => Err::<(), VmFault>(fault),
                None => Ok::<(), VmFault>(()),
            },
    {
        if self.registers.halt {
            return Ok(());
        }
        reveal(execute);
        let cmd = self.memory.get(self.registers.pc);
        self.registers.pc = self.registers.pc.wrapping_add(1);
        let opcode: u16 = cmd >> 12;
        let value: u16 = cmd & 0x0fff;
        assert(opcode < 16) by (bit_vector)
            requires
                opcode == cmd >> 12,
        ;
        if opcode == 0 {
            (Br {}).exe(value, &mut self.registers, &mut self.memory);
        } else if opcode == 1 {
            (Add {}).exe(value, &mut self.registers, &mut self.memory);
        } else if opcode == 2 {
            (Ld {}).exe(value, &mut self.registers, &mut self.memory);
        } else if opcode == 3 {
            (St {}).exe(value, &mut self.registers, &mut self.memory);
        } else if opcode == 4 {
            (Jsr {}).exe(value, &mut self.registers, &mut self.memory);
        } else if opcode == 5 {
            (And {}).exe(value, &mut self.registers, &mut self.memory);
        } else if opcode == 6 {
            (Ldr {}).exe(value, &mut self.registers, &mut self.memory);
        } else if opcode == 7 {
            (Str {}).exe(value, &mut self.registers, &mut self.memory);
        } else if opcode == 8 {
            (Rti {}).exe(value, &mut self.registers, &mut self.memory);
        } else if opcode == 9 {
            (Not {}).exe(value, &mut self.registers, &mut self.memory);
        } else if opcode == 10 {
            (Ldi {}).exe(value, &mut self.registers, &mut self.memory);
        } else if opcode == 11 {
            (Sti {}).exe(value, &mut self.registers, &mut self.memory);
        } else if opcode == 12 {
            (JmpRet {}).exe(value, &mut self.registers, &mut self.memory);
        } else if opcode == 14 {
            (Lea {}).exe(value, &mut self.registers, &mut self.memory);
        } else if opcode == 15 {
            let ghost before = self.machine(io);
            let outcome = (Trap {}).exe(value, &mut self.registers, &mut self.memory, io);
            proof {
                assert(self.machine(io) == after_trap(before, value & 0xff));
            }
            return outcome;
        } else {
            self.registers.halt = true;
            return Err(VmFault::ReservedOpcode);
        }
        Ok(())
    }
}

} // verus!
