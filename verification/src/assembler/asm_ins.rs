//! Instructions as the assembler sees them: mnemonics, the operands each one
//! takes, and the width of its immediate field.
use crate::text::{chars_eq, chars_of, to_upper, upper};
use crate::vm::trap::{GETC, HALT, IN, OUT, PUTS};
use std::collections::VecDeque;
use vstd::prelude::*;

verus! {

/// The kinds of operand an instruction or directive can ask for.
#[derive(Debug, PartialEq, Eq, Clone, Copy, Structural)]
pub enum OperandType {
    Reg,
    Label,
    Imm,
    RegOrImm,
    String,
}

/// An instruction of the LC-3. A branch carries its condition flags (n, z, p),
/// a trap its vector.
#[derive(Debug, PartialEq, Eq, Clone, Copy, Structural)]
#[allow(dead_code)]
pub enum OpcodeIns {
    Add,
    And,
    Br(bool, bool, bool),
    Jmp,
    Jsr,
    Jsrr,
    Ld,
    Ldi,
    Ldr,
    Lea,
    Not,
    Ret,
    Rti,
    St,
    Sti,
    Str,
    Trap(u16),
    Reserved,
    INVALID,
}

pub open spec fn operand_name(t: OperandType) -> Seq<char> {
    match t {
        OperandType::Reg => "a register"@,
        OperandType::Label => "a label"@,
        OperandType::Imm => "an immediate value"@,
        OperandType::RegOrImm => "a register or immediate value"@,
        OperandType::String => "a string"@,
    }
}

impl OperandType {
    /// The operand kind as it reads in a diagnostic.
    pub fn as_string(&self) -> (s: String)
        ensures
            s@ == operand_name(*self),
    {
        match self {
            OperandType::Reg => "a register".to_owned(),
            OperandType::Label => "a label".to_owned(),
            OperandType::Imm => "an immediate value".to_owned(),
            OperandType::RegOrImm => "a register or immediate value".to_owned(),
            OperandType::String => "a string".to_owned(),
        }
    }
}

/// A branch suffix is well formed when it holds only `N`, `Z` and `P`, each
/// at most once.
pub open spec fn is_flag_suffix(s: Seq<char>) -> bool {
    &&& forall|i: int| 0 <= i < s.len() ==> (#[trigger] s[i] == 'N' || s[i] == 'Z' || s[i] == 'P')
    &&& forall|i: int, j: int| 0 <= i < j < s.len() ==> s[i] != s[j]
}

/// The branch that a suffix of condition letters selects. No letter at all
/// selects all three conditions: the branch is then unconditional.
pub open spec fn branch_of(s: Seq<char>) -> OpcodeIns {
    if s.len() == 0 {
        OpcodeIns::Br(true, true, true)
    } else if is_flag_suffix(s) {
        OpcodeIns::Br(s.contains('N'), s.contains('Z'), s.contains('P'))
    } else {
        OpcodeIns::INVALID
    }
}

/// The instruction that an upper-case mnemonic names.
pub open spec fn mnemonic(u: Seq<char>) -> OpcodeIns {
    if u.len() >= 2 && u[0] == 'B' && u[1] == 'R' {
        branch_of(u.subrange(2, u.len() as int))
    } else if u == "ADD"@ {
        OpcodeIns::Add
    } else if u == "AND"@ {
        OpcodeIns::And
    } else if u == "JMP"@ {
        OpcodeIns::Jmp
    } else if u == "JSR"@ {
        OpcodeIns::Jsr
    } else if u == "JSRR"@ {
        OpcodeIns::Jsrr
    } else if u == "LD"@ {
        OpcodeIns::Ld
    } else if u == "LDI"@ {
        OpcodeIns::Ldi
    } else if u == "LDR"@ {
        OpcodeIns::Ldr
    } else if u == "LEA"@ {
        OpcodeIns::Lea
    } else if u == "NOT"@ {
        OpcodeIns::Not
    } else if u == "RET"@ {
        OpcodeIns::Ret
    } else if u == "RTI"@ {
        OpcodeIns::Rti
    } else if u == "ST"@ {
        OpcodeIns::St
    } else if u == "STI"@ {
        OpcodeIns::Sti
    } else if u == "STR"@ {
        OpcodeIns::Str
    } else if u == "GETC"@ {
        OpcodeIns::Trap(GETC)
    } else if u == "OUT"@ {
        OpcodeIns::Trap(OUT)
    } else if u == "PUTS"@ {
        OpcodeIns::Trap(PUTS)
    } else if u == "IN"@ {
        OpcodeIns::Trap(IN)
    } else if u == "HALT"@ {
        OpcodeIns::Trap(HALT)
    } else {
        OpcodeIns::INVALID
    }
}

/// The operand kinds an instruction takes, in order.
pub open spec fn operands_of(op: OpcodeIns) -> Seq<OperandType> {
    match op {
        OpcodeIns::Add | OpcodeIns::And => seq![
            OperandType::Reg,
            OperandType::Reg,
            OperandType::RegOrImm,
        ],
        OpcodeIns::Br(_, _, _) | OpcodeIns::Jsr => seq![OperandType::Label],
        OpcodeIns::Jmp | OpcodeIns::Jsrr => seq![OperandType::Reg],
        OpcodeIns::Ld | OpcodeIns::Ldi | OpcodeIns::Lea | OpcodeIns::St | OpcodeIns::Sti => seq![
            OperandType::Reg,
            OperandType::Label,
        ],
        OpcodeIns::Ldr | OpcodeIns::Str => seq![
            OperandType::Reg,
            OperandType::Reg,
            OperandType::Imm,
        ],
        OpcodeIns::Not => seq![OperandType::Reg, OperandType::Reg],
        _ => Seq::empty(),
    }
}

/// The width in bits of an instruction's immediate or offset field.
pub open spec fn immediate_width(op: OpcodeIns) -> Option<i32> {
    match op {
        OpcodeIns::Add | OpcodeIns::And => Some(5i32),
        OpcodeIns::Ldr | OpcodeIns::Str => Some(6i32),
        OpcodeIns::Br(_, _, _)
        | OpcodeIns::Ld
        | OpcodeIns::Ldi
        | OpcodeIns::Lea
        | OpcodeIns::St
        | OpcodeIns::Sti => Some(9i32),
        OpcodeIns::Jsr => Some(11i32),
        _ => None,
    }
}

/// The four-bit operation code in the top of an instruction word.
pub open spec fn opcode_value(op: OpcodeIns) -> u16 {
    match op {
        OpcodeIns::Br(_, _, _) => 0,
        OpcodeIns::Add => 1,
        OpcodeIns::Ld => 2,
        OpcodeIns::St => 3,
        OpcodeIns::Jsr | OpcodeIns::Jsrr => 4,
        OpcodeIns::And => 5,
        OpcodeIns::Ldr => 6,
        OpcodeIns::Str => 7,
        OpcodeIns::Rti => 8,
        OpcodeIns::Not => 9,
        OpcodeIns::Ldi => 10,
        OpcodeIns::Sti => 11,
        OpcodeIns::Jmp | OpcodeIns::Ret => 12,
        OpcodeIns::Reserved | OpcodeIns::INVALID => 13,
        OpcodeIns::Lea => 14,
        OpcodeIns::Trap(_) => 15,
    }
}

#[allow(dead_code)]
impl OpcodeIns {
    /// The instruction that a mnemonic names, in either case; `INVALID` when
    /// it names none.
    pub fn from(name: &str) -> (op: OpcodeIns)
        ensures
            op == mnemonic(upper(name@)),
    {
        let chars = chars_of(name);
        let u = to_upper(&chars);
        Self::of_mnemonic(&u)
    }

    /// The instruction that an upper-case mnemonic names; `INVALID` when it
    /// names none.
    pub fn of_mnemonic(u: &Vec<char>) -> (op: OpcodeIns)
        ensures
            op == mnemonic(u@),
    {
        if u.len() >= 2 && u[0] == 'B' && u[1] == 'R' {
            let mut suffix: Vec<char> = Vec::new();
            let mut i: usize = 2;
            while i < u.len()
                invariant
                    2 <= i <= u.len(),
                    suffix@ == u@.subrange(2, i as int),
                decreases u.len() - i,
            {
                suffix.push(u[i]);
                i += 1;
            }
            return Self::branch_from(&suffix);
        }
        if chars_eq(u, "ADD") {
            OpcodeIns::Add
        } else if chars_eq(u, "AND") {
            OpcodeIns::And
        } else if chars_eq(u, "JMP") {
            OpcodeIns::Jmp
        } else if chars_eq(u, "JSR") {
            OpcodeIns::Jsr
        } else if chars_eq(u, "JSRR") {
            OpcodeIns::Jsrr
        } else if chars_eq(u, "LD") {
            OpcodeIns::Ld
        } else if chars_eq(u, "LDI") {
            OpcodeIns::Ldi
        } else if chars_eq(u, "LDR") {
            OpcodeIns::Ldr
        } else if chars_eq(u, "LEA") {
            OpcodeIns::Lea
        } else if chars_eq(u, "NOT") {
            OpcodeIns::Not
        } else if chars_eq(u, "RET") {
            OpcodeIns::Ret
        } else if chars_eq(u, "RTI") {
            OpcodeIns::Rti
        } else if chars_eq(u, "ST") {
            OpcodeIns::St
        } else if chars_eq(u, "STI") {
            OpcodeIns::Sti
        } else if chars_eq(u, "STR") {
            OpcodeIns::Str
        } else if chars_eq(u, "GETC") {
            OpcodeIns::Trap(GETC)
        } else if chars_eq(u, "OUT") {
            OpcodeIns::Trap(OUT)
        } else if chars_eq(u, "PUTS") {
            OpcodeIns::Trap(PUTS)
        } else if chars_eq(u, "IN") {
            OpcodeIns::Trap(IN)
        } else if chars_eq(u, "HALT") {
            OpcodeIns::Trap(HALT)
        } else {
            OpcodeIns::INVALID
        }
    }

    /// The operand kinds this instruction takes, in the order they are
    /// written.
    pub fn get_expected_operands(&self) -> (q: VecDeque<OperandType>)
        ensures
            q@ == operands_of(*self),
    {
        let mut q: VecDeque<OperandType> = VecDeque::new();
        match self {
            OpcodeIns::Add | OpcodeIns::And => {
                q.push_back(OperandType::Reg);
                q.push_back(OperandType::Reg);
                q.push_back(OperandType::RegOrImm);
            },
            OpcodeIns::Br(_, _, _) | OpcodeIns::Jsr => {
                q.push_back(OperandType::Label);
            },
            OpcodeIns::Jmp | OpcodeIns::Jsrr => {
                q.push_back(OperandType::Reg);
            },
            OpcodeIns::Ld | OpcodeIns::Ldi | OpcodeIns::Lea | OpcodeIns::St | OpcodeIns::Sti => {
                q.push_back(OperandType::Reg);
                q.push_back(OperandType::Label);
            },
            OpcodeIns::Ldr | OpcodeIns::Str => {
                q.push_back(OperandType::Reg);
                q.push_back(OperandType::Reg);
                q.push_back(OperandType::Imm);
            },
            OpcodeIns::Not => {
                q.push_back(OperandType::Reg);
                q.push_back(OperandType::Reg);
            },
            _ => {},
        }
        assert(q@ =~= operands_of(*self));
        q
    }

    /// The branch selected by the upper-case condition letters that follow
    /// `BR`: all three conditions when there is no letter; `INVALID` when a
    /// letter is repeated or is none of `N`, `Z`, `P`.
    pub fn get_br(nzp: &str) -> (op: OpcodeIns)
        ensures
            op == branch_of(nzp@),
    {
        let chars = chars_of(nzp);
        Self::branch_from(&chars)
    }

    fn branch_from(s: &Vec<char>) -> (op: OpcodeIns)
        ensures
            op == branch_of(s@),
    {
        if s.len() == 0 {
            return OpcodeIns::Br(true, true, true);
        }
        let mut n = false;
        let mut z = false;
        let mut p = false;
        let mut i: usize = 0;
        while i < s.len()
            invariant
                i <= s.len(),
                is_flag_suffix(s@.subrange(0, i as int)),
                n == s@.subrange(0, i as int).contains('N'),
                z == s@.subrange(0, i as int).contains('Z'),
                p == s@.subrange(0, i as int).contains('P'),
            decreases s.len() - i,
        {
            let c = s[i];
            let ghost before = s@.subrange(0, i as int);
            let ghost after = s@.subrange(0, i + 1);
            assert(after == before.push(c));
            let repeated = (c == 'N' && n) || (c == 'Z' && z) || (c == 'P' && p);
            if !(c == 'N' || c == 'Z' || c == 'P') || repeated {
                proof {
                    if is_flag_suffix(s@) {
                        assert(s@[i as int] == c);
                        if repeated {
                            let k = choose|k: int| 0 <= k < before.len() && before[k] == c;
                            assert(s@[k] == before[k]);
                        }
                    }
                }
                return OpcodeIns::INVALID;
            }
            proof {
                assert forall|a: int, b: int| 0 <= a < b < after.len() implies after[a]
                    != after[b] by {
                    if b == i {
                        assert(before[a] == after[a]);
                        assert(before.contains(after[a]));
                    } else {
                        assert(before[a] == after[a] && before[b] == after[b]);
                    }
                }
                assert forall|a: int| 0 <= a < after.len() implies (#[trigger] after[a] == 'N'
                    || after[a] == 'Z' || after[a] == 'P') by {
                    if a < i {
                        assert(before[a] == after[a]);
                    }
                }
                assert(after.last() == c);
                assert forall|x: char| after.contains(x) == (before.contains(x) || x == c) by {
                    if before.contains(x) {
                        let k = choose|k: int| 0 <= k < before.len() && before[k] == x;
                        assert(after[k] == x);
                    }
                    if x == c {
                        assert(after[i as int] == x);
                    }
                    if after.contains(x) {
                        let k = choose|k: int| 0 <= k < after.len() && after[k] == x;
                        if k < i {
                            assert(before[k] == x);
                        }
                    }
                }
            }
            if c == 'N' {
                n = true;
            } else if c == 'Z' {
                z = true;
            } else {
                p = true;
            }
            i += 1;
        }
        assert(s@.subrange(0, s.len() as int) == s@);
        OpcodeIns::Br(n, z, p)
    }

    /// The width in bits of the immediate or offset field, for the
    /// instructions that have one.
    pub fn get_immediate_value_width(&self) -> (w: Option<i32>)
        ensures
            w == immediate_width(*self),
    {
        match self {
            OpcodeIns::Add | OpcodeIns::And => Some(5),
            OpcodeIns::Ldr | OpcodeIns::Str => Some(6),
            OpcodeIns::Br(_, _, _) | OpcodeIns::Ld | OpcodeIns::Ldi => Some(9),
            OpcodeIns::Lea | OpcodeIns::St | OpcodeIns::Sti => Some(9),
            OpcodeIns::Jsr => Some(11),
            _ => None,
        }
    }

    /// The four-bit operation code of this instruction.
    pub fn get_opcode_value(&self) -> (v: u16)
        ensures
            v == opcode_value(*self),
            v < 16,
    {
        match self {
            OpcodeIns::Br(_, _, _) => 0,
            OpcodeIns::Add => 1,
            OpcodeIns::Ld => 2,
            OpcodeIns::St => 3,
            OpcodeIns::Jsr | OpcodeIns::Jsrr => 4,
            OpcodeIns::And => 5,
            OpcodeIns::Ldr => 6,
            OpcodeIns::Str => 7,
            OpcodeIns::Rti => 8,
            OpcodeIns::Not => 9,
            OpcodeIns::Ldi => 10,
            OpcodeIns::Sti => 11,
            OpcodeIns::Jmp | OpcodeIns::Ret => 12,
            OpcodeIns::Reserved | OpcodeIns::INVALID => 13,
            OpcodeIns::Lea => 14,
            OpcodeIns::Trap(_) => 15,
        }
    }
}

} // verus!
