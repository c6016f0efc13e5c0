//! Diagnostics.
use super::token::Token;
use crate::output::{SystemIO, WebIO};
use crate::text::{chars_of, decimal, push_decimal, push_repeated, push_str, string_of};
use vstd::prelude::*;

verus! {

#[derive(Debug, PartialEq, Eq, Clone, Copy, Structural)]
pub enum ErrorType {
    SyntaxError,
    OperandError,
    LabelError,
    LogicalError,
    BoundError,
}

/// The name under which an error kind is reported.
pub open spec fn kind_name(t: ErrorType) -> Seq<char> {
    match t {
        ErrorType::SyntaxError => "SyntaxError"@,
        ErrorType::OperandError => "OperandError"@,
        ErrorType::LabelError => "LabelError"@,
        ErrorType::LogicalError => "LogicalError"@,
        ErrorType::BoundError => "BoundError"@,
    }
}

impl ErrorType {
    /// The name under which this kind of error is reported.
    pub fn as_str(&self) -> (s: &str)
        ensures
            s@ == kind_name(*self),
    {
        match self {
            Self::SyntaxError => "SyntaxError",
            Self::OperandError => "OperandError",
            Self::LabelError => "LabelError",
            Self::LogicalError => "LogicalError",
            Self::BoundError => "BoundError",
        }
    }
}

/// One diagnostic: a stable code, the kind of error, the line it is about
/// (its number and its text), the columns it points at, if any, and a
/// message for the reader.
#[derive(Debug)]
pub struct AsmError {
    pub code: String,
    pub line_content: String,
    pub line_num: usize,
    pub from_to: Option<(usize, usize)>,
    pub err_type: ErrorType,
    pub msg: String,
}

/// The mathematical value of an `AsmError`.
pub struct AsmErrorView {
    pub code: Seq<char>,
    pub line_content: Seq<char>,
    pub line_num: nat,
    pub from_to: Option<(usize, usize)>,
    pub err_type: ErrorType,
    pub msg: Seq<char>,
}

impl View for AsmError {
    type V = AsmErrorView;

    open spec fn view(&self) -> AsmErrorView {
        AsmErrorView {
            code: self.code@,
            line_content: self.line_content@,
            line_num: self.line_num as nat,
            from_to: self.from_to,
            err_type: self.err_type,
            msg: self.msg@,
        }
    }
}

impl DeepView for AsmError {
    type V = AsmErrorView;

    open spec fn deep_view(&self) -> AsmErrorView {
        self@
    }
}

/// The line drawn under the reported line: one blank fewer than the first
/// column, then as many carets as the last column.
pub open spec fn underline(from_to: Option<(usize, usize)>) -> Seq<char> {
    match from_to {
        Some((from, to)) => "\n\t"@ + Seq::new(
            if from > 0 {
                (from - 1) as nat
            } else {
                0nat
            },
            |i: int| ' ',
        ) + Seq::new(to as nat, |i: int| '^'),
        None => Seq::empty(),
    }
}

/// A diagnostic as it is printed.
pub open spec fn rendered(e: AsmErrorView) -> Seq<char> {
    "["@ + e.code + "] "@ + kind_name(e.err_type) + ": On line "@ + decimal(e.line_num) + ", "@
        + e.msg + "\n\t"@ + e.line_content + underline(e.from_to) + "\n"@
}

impl AsmError {
    /// A diagnostic about a whole line.
    pub fn new(
        code: String,
        line_content: &str,
        line_num: usize,
        err_type: ErrorType,
        msg: &str,
    ) -> (e: AsmError)
        ensures
            e@ == (AsmErrorView {
                code: code@,
                line_content: line_content@,
                line_num: line_num as nat,
                from_to: None,
                err_type: err_type,
                msg: msg@,
            }),
    {
        AsmError {
            code: code,
            line_content: line_content.to_owned(),
            line_num: line_num,
            from_to: None,
            err_type: err_type,
            msg: msg.to_owned(),
        }
    }

    /// A diagnostic about one token: it is reported on the token's line and
    /// points at the token's columns.
    pub fn from(code: String, line_content: &str, token: Token, err_type: ErrorType, msg: &str) -> (e:
        AsmError)
        ensures
            e@ == (AsmErrorView {
                code: code@,
                line_content: line_content@,
                line_num: token.line_num as nat,
                from_to: Some((token.from, token.to)),
                err_type: err_type,
                msg: msg@,
            }),
    {
        AsmError {
            code: code,
            line_content: line_content.to_owned(),
            line_num: token.line_num,
            from_to: Some((token.from, token.to)),
            err_type: err_type,
            msg: msg.to_owned(),
        }
    }

    /// Makes the diagnostic point at the columns from `from` to `to`.
    #[allow(dead_code)]
    pub fn set_from_to(&mut self, from: usize, to: usize)
        ensures
            final(self)@ == (AsmErrorView { from_to: Some((from, to)), ..old(self)@ }),
    {
        self.from_to = Some((from, to));
    }

    /// Writes the diagnostic, as `generate_msg` renders it, to `io`.
    #[allow(dead_code)]
    pub fn print(&self, io: &mut WebIO)
        ensures
            final(io).written() == old(io).written() + rendered(self@),
            final(io).pending() == old(io).pending(),
    {
        let text = self.generate_msg();
        let chars = chars_of(text.as_str());
        let mut i: usize = 0;
        while i < chars.len()
            invariant
                i <= chars.len(),
                chars@ == rendered(self@),
                io.written() == old(io).written() + chars@.subrange(0, i as int),
                io.pending() == old(io).pending(),
            decreases chars.len() - i,
        {
            io.print_char(chars[i]);
            i += 1;
            assert(io.written() == old(io).written() + chars@.subrange(0, i as int));
        }
        assert(chars@.subrange(0, chars.len() as int) == chars@);
    }

    /// The diagnostic as text: code and kind, line number and message, then
    /// the line itself and, where columns are known, a line of carets.
    pub fn generate_msg(&self) -> (text: String)
        ensures
            text@ == rendered(self@),
    {
        let mut out: Vec<char> = Vec::new();
        push_str(&mut out, "[");
        push_str(&mut out, self.code.as_str());
        push_str(&mut out, "] ");
        push_str(&mut out, self.err_type.as_str());
        push_str(&mut out, ": On line ");
        push_decimal(&mut out, self.line_num as u64);
        push_str(&mut out, ", ");
        push_str(&mut out, self.msg.as_str());
        push_str(&mut out, "\n\t");
        push_str(&mut out, self.line_content.as_str());
        if let Some((from, to)) = self.from_to {
            push_str(&mut out, "\n\t");
            if from > 0 {
                push_repeated(&mut out, ' ', from - 1);
            } else {
                push_repeated(&mut out, ' ', 0);
            }
            push_repeated(&mut out, '^', to);
        }
        push_str(&mut out, "\n");
        assert(out@ =~= rendered(self@));
        string_of(&out)
    }
}

} // verus!
