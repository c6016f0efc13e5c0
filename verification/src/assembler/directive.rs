//! Assembler directives.
use super::asm_ins::OperandType;
use crate::text::{chars_eq, chars_of};
use std::collections::VecDeque;
use vstd::prelude::*;

verus! {

#[derive(Debug, PartialEq, Eq, Clone, Copy, Structural)]
pub enum Directive {
    ORIG,
    FILL,
    BLKW,
    STRINGZ,
    END,
}

/// The directive that an upper-case word names, if it names one.
pub open spec fn directive_of(w: Seq<char>) -> Option<Directive> {
    if w == ".ORIG"@ {
        Some(Directive::ORIG)
    } else if w == ".FILL"@ {
        Some(Directive::FILL)
    } else if w == ".BLKW"@ {
        Some(Directive::BLKW)
    } else if w == ".STRINGZ"@ {
        Some(Directive::STRINGZ)
    } else if w == ".END"@ {
        Some(Directive::END)
    } else {
        None
    }
}

/// The operand kinds a directive takes.
pub open spec fn directive_operands(d: Directive) -> Seq<OperandType> {
    match d {
        Directive::ORIG | Directive::FILL | Directive::BLKW => seq![OperandType::Imm],
        Directive::STRINGZ => seq![OperandType::String],
        Directive::END => Seq::empty(),
    }
}

impl Directive {
    /// The directive that `word` names, if it names one.
    pub fn lookup(word: &str) -> (d: Option<Directive>)
        ensures
            d == directive_of(word@),
    {
        let w = chars_of(word);
        if chars_eq(&w, ".ORIG") {
            Some(Directive::ORIG)
        } else if chars_eq(&w, ".FILL") {
            Some(Directive::FILL)
        } else if chars_eq(&w, ".BLKW") {
            Some(Directive::BLKW)
        } else if chars_eq(&w, ".STRINGZ") {
            Some(Directive::STRINGZ)
        } else if chars_eq(&w, ".END") {
            Some(Directive::END)
        } else {
            None
        }
    }

    /// The directive that `word` names.
    pub fn from(word: &str) -> (d: Directive)
        requires
            directive_of(word@) is Some,
        ensures
            Some(d) == directive_of(word@),
    {
        match Self::lookup(word) {
            Some(d) => d,
            None => Directive::END,
        }
    }

    /// The operand kinds this directive takes.
    pub fn get_expected_operands(&self) -> (q: VecDeque<OperandType>)
        ensures
            q@ == directive_operands(*self),
    {
        let mut q: VecDeque<OperandType> = VecDeque::new();
        match self {
            Directive::ORIG | Directive::FILL | Directive::BLKW => {
                q.push_back(OperandType::Imm);
            },
            Directive::STRINGZ => {
                q.push_back(OperandType::String);
            },
            Directive::END => {},
        }
        assert(q@ =~= directive_operands(*self));
        q
    }
}

} // verus!
