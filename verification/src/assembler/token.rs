//! Tokens: what the lexer hands to the later passes.
use super::asm_ins::OpcodeIns;
use super::directive::Directive;
use vstd::prelude::*;

verus! {

/// What a token is, with the value it carries.
#[derive(Debug, PartialEq)]
pub enum TokenType {
    Label(String),
    Instruction(OpcodeIns),
    Directive(Directive),
    Number(i16),
    String(String),
    Register(u16),
    INVALID(String),
}

/// The mathematical value of a `TokenType`.
pub enum TokenKind {
    Label(Seq<char>),
    Instruction(OpcodeIns),
    Directive(Directive),
    Number(i16),
    String(Seq<char>),
    Register(u16),
    Invalid(Seq<char>),
}

impl View for TokenType {
    type V = TokenKind;

    open spec fn view(&self) -> TokenKind {
        match self {
            TokenType::Label(s) => TokenKind::Label(s@),
            TokenType::Instruction(op) => TokenKind::Instruction(*op),
            TokenType::Directive(d) => TokenKind::Directive(*d),
            TokenType::Number(n) => TokenKind::Number(*n),
            TokenType::String(s) => TokenKind::String(s@),
            TokenType::Register(r) => TokenKind::Register(*r),
            TokenType::INVALID(s) => TokenKind::Invalid(s@),
        }
    }
}

impl Clone for TokenType {
    fn clone(&self) -> (r: Self)
        ensures
            r@ == self@,
    {
        match self {
            TokenType::Label(s) => TokenType::Label(s.clone()),
            TokenType::Instruction(op) => TokenType::Instruction(*op),
            TokenType::Directive(d) => TokenType::Directive(*d),
            TokenType::Number(n) => TokenType::Number(*n),
            TokenType::String(s) => TokenType::String(s.clone()),
            TokenType::Register(r) => TokenType::Register(*r),
            TokenType::INVALID(s) => TokenType::INVALID(s.clone()),
        }
    }
}

/// A token with its place in the source. `from` and `to` are the columns of
/// its first and last character within its line, `file_relative_from` and
/// `file_relative_to` the same two places counted from the start of the
/// file; all four count characters from zero. Lines count from one.
#[derive(Debug, PartialEq)]
pub struct Token {
    pub inner_token: TokenType,
    pub to: usize,
    pub from: usize,
    pub file_relative_to: usize,
    pub file_relative_from: usize,
    pub line_num: usize,
    pub original_match: String,
}

/// The mathematical value of a `Token`.
pub struct TokenView {
    pub kind: TokenKind,
    pub to: int,
    pub from: int,
    pub file_relative_to: int,
    pub file_relative_from: int,
    pub line_num: int,
    pub original_match: Seq<char>,
}

impl View for Token {
    type V = TokenView;

    open spec fn view(&self) -> TokenView {
        TokenView {
            kind: self.inner_token@,
            to: self.to as int,
            from: self.from as int,
            file_relative_to: self.file_relative_to as int,
            file_relative_from: self.file_relative_from as int,
            line_num: self.line_num as int,
            original_match: self.original_match@,
        }
    }
}

impl DeepView for Token {
    type V = TokenView;

    open spec fn deep_view(&self) -> TokenView {
        self@
    }
}

impl Clone for Token {
    fn clone(&self) -> (r: Self)
        ensures
            r@ == self@,
    {
        Token {
            inner_token: self.inner_token.clone(),
            to: self.to,
            from: self.from,
            file_relative_to: self.file_relative_to,
            file_relative_from: self.file_relative_from,
            line_num: self.line_num,
            original_match: self.original_match.clone(),
        }
    }
}

pub struct TokenCollection {
    pub tokens: Vec<Token>,
}

impl Token {
    /// The token for the lexeme `string` that was read up to, and not
    /// including, the character before `line_index` in its line and before
    /// `file_index` in the file: the two indices are those of the character
    /// after the separator that ended the lexeme.
    pub fn new(
        file_index: usize,
        line_index: usize,
        line_num: usize,
        string: &str,
        token: TokenType,
    ) -> (t: Token)
        requires
            line_index >= 2,
            file_index >= 2,
            line_index >= string@.len() + 1,
            file_index >= string@.len() + 1,
        ensures
            t@ == (TokenView {
                kind: token@,
                to: line_index - 2,
                from: line_index - 1 - string@.len(),
                file_relative_to: file_index - 2,
                file_relative_from: file_index - 1 - string@.len(),
                line_num: line_num as int,
                original_match: string@,
            }),
    {
        let length = string.unicode_len();
        let to = line_index - 1;
        let from = to - length;
        let file_relative_to = file_index - 1;
        let file_relative_from = file_relative_to - length;
        Token {
            inner_token: token,
            to: to - 1,
            from: from,
            file_relative_to: file_relative_to - 1,
            file_relative_from: file_relative_from,
            line_num: line_num,
            original_match: string.to_owned(),
        }
    }

    /// A token that stands for nothing: an empty invalid lexeme on line zero.
    pub fn get_useless_token() -> (t: Token)
        ensures
            t@ == (TokenView {
                kind: TokenKind::Invalid(Seq::empty()),
                to: 0,
                from: 0,
                file_relative_to: 0,
                file_relative_from: 0,
                line_num: 0,
                original_match: Seq::empty(),
            }),
    {
        Token {
            inner_token: TokenType::INVALID(String::new()),
            from: 0,
            to: 0,
            file_relative_from: 0,
            file_relative_to: 0,
            line_num: 0,
            original_match: String::new(),
        }
    }
}

} // verus!
