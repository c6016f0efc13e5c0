//! The machine's registers: eight general ones, the program counter, the
//! three condition flags and the halt flag.
use vstd::prelude::*;

verus! {

pub struct Registers {
    pub r: [u16; 8],
    pub pc: u16,
    pub n: bool,
    pub z: bool,
    pub p: bool,
    pub halt: bool,
}

/// The mathematical value of the registers.
pub struct RegistersView {
    pub r: Seq<u16>,
    pub pc: u16,
    pub n: bool,
    pub z: bool,
    pub p: bool,
    pub halt: bool,
}

impl View for Registers {
    type V = RegistersView;

    open spec fn view(&self) -> RegistersView {
        RegistersView {
            r: self.r@,
            pc: self.pc,
            n: self.n,
            z: self.z,
            p: self.p,
            halt: self.halt,
        }
    }
}

impl RegistersView {
    /// The content of a general register; 1 for a number that names none.
    pub open spec fn get(self, reg_value: int) -> u16 {
        if 0 <= reg_value < 8 {
            self.r[reg_value]
        } else {
            1
        }
    }

    /// These registers with one general register replaced; unchanged for a
    /// number that names none.
    pub open spec fn set(self, reg_value: int, new_value: u16) -> RegistersView {
        if 0 <= reg_value < 8 {
            RegistersView { r: self.r.update(reg_value, new_value), ..self }
        } else {
            self
        }
    }
}

#[allow(dead_code)]
impl Registers {
    /// All registers zero, no flag set, not halted.
    pub fn new() -> (reg: Registers)
        ensures
            reg@ == (RegistersView {
                r: Seq::new(8, |i: int| 0u16),
                pc: 0,
                n: false,
                z: false,
                p: false,
                halt: false,
            }),
    {
        let reg = Registers { r: [0;8], pc: 0, n: false, z: false, p: false, halt: false };
        assert(reg.r@ =~= Seq::new(8, |i: int| 0u16));
        reg
    }

    /// The content of general register `reg_value`; 1 when there is no such
    /// register.
    pub fn get(&self, reg_value: usize) -> (val: u16)
        ensures
            val == self@.get(reg_value as int),
    {
        if reg_value >= 8 {
            return 1;
        }
        self.r[reg_value]
    }

    /// Writes `new_value` to general register `reg_value`; nothing when there
    /// is no such register.
    pub fn set(&mut self, reg_value: usize, new_value: u16)
        ensures
            final(self)@ == old(self)@.set(reg_value as int, new_value),
    {
        if reg_value >= 8 {
            return ;
        }
        self.r[reg_value] = new_value;
    }
}

} // verus!
