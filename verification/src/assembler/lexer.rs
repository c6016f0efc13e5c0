//! The lexer: from source text to tokens.
//!
//! The text is read from left to right. Whitespace and commas separate; a
//! semicolon opens a comment that runs to the end of the line; a double quote
//! opens a string literal; everything else is a word, which runs up to the
//! next separator, semicolon or quote and is then told apart by its shape.
use super::asm_error::{AsmError, AsmErrorView, ErrorType};
use super::asm_ins::{mnemonic, OpcodeIns};
use super::directive::{directive_of, Directive};
use super::syntax::{
    pattern_matches, screen_compiles, SyntaxChecker, DIRECTIVE_NAME, IGNORE_LINE, IMMEDIATE,
    INSTRUCTION_NAME, LABEL, REGISTER,
};
use super::token::{Token, TokenKind, TokenType, TokenView};
use crate::text::{
    all_digits, all_hex_digits, chars_of, column_of, is_whitespace, is_whitespace_char, line_at,
    line_holds_span, line_of, numeral_value, on_one_line, parse_decimal, parse_hex,
    position_after_span, position_step, push_str, source_line, split_lines, string_of,
    string_of_range, to_upper, upper,
};
use vstd::prelude::*;

verus! {

pub const CODE_TOKEN_NO_CATEGORY: &'static str = "SX001";

pub const CODE_STRING_NOT_ENDED: &'static str = "SX002";

pub const CODE_INVALID_ESCAPE_CHAR: &'static str = "SX003";

pub const MSG_TOKEN_NO_CATEGORY: &'static str = "a token could not be categorized";

pub const MSG_STRING_NOT_ENDED: &'static str = "the given string was not terminated";

pub const MSG_ESCAPE_START: &'static str = "the given escape character `\\";

pub const MSG_ESCAPE_END: &'static str = "` does not exist.";

/// What the patterns of the line screen say about one word.
#[derive(Debug, PartialEq, Eq, Clone, Copy, Structural)]
pub struct WordShape {
    pub ignore: bool,
    pub instruction: bool,
    pub directive: bool,
    pub register: bool,
    pub immediate: bool,
    pub label: bool,
}

/// The shape of a word: which patterns match it. Mnemonics, directive names
/// and registers are matched in upper case, immediates and labels as written.
pub open spec fn shape_of(word: Seq<char>) -> WordShape {
    WordShape {
        ignore: pattern_matches(IGNORE_LINE@, upper(word)),
        instruction: pattern_matches(INSTRUCTION_NAME@, upper(word)),
        directive: pattern_matches(DIRECTIVE_NAME@, upper(word)),
        register: pattern_matches(REGISTER@, upper(word)),
        immediate: pattern_matches(IMMEDIATE@, word),
        label: pattern_matches(LABEL@, word),
    }
}

/// The register that an upper-case word names: `R0` to `R7`.
pub open spec fn register_of(u: Seq<char>) -> Option<u16> {
    if u.len() == 2 && u[0] == 'R' && '0' <= u[1] && u[1] <= '7' {
        Some((u[1] as u16 - '0' as u16) as u16)
    } else {
        None
    }
}

/// The sixteen-bit word `v` read as a two's-complement number.
pub open spec fn reinterpret(v: int) -> i16 {
    if v >= 0x8000 {
        (v - 0x10000) as i16
    } else {
        v as i16
    }
}

/// The number that an immediate denotes: `#` and a decimal numeral, with or
/// without a minus sign, that fits sixteen bits in two's complement; or `x`
/// or `X` and a hexadecimal numeral of at most sixteen bits, read as a
/// two's-complement number.
pub open spec fn immediate_of(w: Seq<char>) -> Option<i16> {
    if w.len() >= 2 && w[0] == '#' && w[1] == '-' {
        let digits = w.subrange(2, w.len() as int);
        if digits.len() >= 1 && all_digits(digits) && numeral_value(digits, 10) <= 0x8000 {
            Some((-numeral_value(digits, 10)) as i16)
        } else {
            None
        }
    } else if w.len() >= 1 && w[0] == '#' {
        let digits = w.subrange(1, w.len() as int);
        if digits.len() >= 1 && all_digits(digits) && numeral_value(digits, 10) <= 0x7fff {
            Some(numeral_value(digits, 10) as i16)
        } else {
            None
        }
    } else if w.len() >= 1 && (w[0] == 'x' || w[0] == 'X') {
        let digits = w.subrange(1, w.len() as int);
        if digits.len() >= 1 && all_hex_digits(digits) && numeral_value(digits, 16) <= 0xffff {
            Some(reinterpret(numeral_value(digits, 16)))
        } else {
            None
        }
    } else {
        None
    }
}

/// What a word is, given its shape, or `None` for a word to pass over. The
/// shapes are asked in a fixed order: ignorable, mnemonic, directive name,
/// register, immediate, label. A word that is none of these, or whose value
/// cannot be read, is invalid.
pub open spec fn categorized(word: Seq<char>, shape: WordShape) -> Option<TokenKind> {
    if shape.ignore {
        None
    } else if shape.instruction {
        if mnemonic(upper(word)) == OpcodeIns::INVALID {
            Some(TokenKind::Invalid(word))
        } else {
            Some(TokenKind::Instruction(mnemonic(upper(word))))
        }
    } else if shape.directive {
        match directive_of(upper(word)) {
            Some(d) => Some(TokenKind::Directive(d)),
            None => Some(TokenKind::Invalid(word)),
        }
    } else if shape.register {
        match register_of(upper(word)) {
            Some(r) => Some(TokenKind::Register(r)),
            None => Some(TokenKind::Invalid(word)),
        }
    } else if shape.immediate {
        match immediate_of(word) {
            Some(n) => Some(TokenKind::Number(n)),
            None => Some(TokenKind::Invalid(word)),
        }
    } else if shape.label {
        Some(TokenKind::Label(word))
    } else {
        Some(TokenKind::Invalid(word))
    }
}

/// A character that ends a word.
pub open spec fn ends_word(c: char) -> bool {
    is_whitespace_char(c) || c == ',' || c == ';' || c == '"'
}

/// The number of characters from `pos` up to the next character that ends a
/// word, or to the end of the text.
pub open spec fn word_rest(src: Seq<char>, pos: int) -> nat
    decreases src.len() - pos,
{
    if pos < 0 || pos >= src.len() || ends_word(src[pos]) {
        0
    } else {
        1 + word_rest(src, pos + 1)
    }
}

/// The number of characters from `pos` up to the next newline, or to the end
/// of the text.
pub open spec fn line_rest(src: Seq<char>, pos: int) -> nat
    decreases src.len() - pos,
{
    if pos < 0 || pos >= src.len() || src[pos] == '\n' {
        0
    } else {
        1 + line_rest(src, pos + 1)
    }
}

/// The character that an escape letter stands for.
pub open spec fn escape_value(c: char) -> Option<char> {
    if c == '\\' || c == '\'' || c == '"' {
        Some(c)
    } else if c == 'n' {
        Some('\n')
    } else if c == 'r' {
        Some('\r')
    } else if c == 't' {
        Some('\t')
    } else if c == '0' {
        Some('\0')
    } else {
        None
    }
}

/// What reading a string literal gives: its content, how many characters
/// were read after the opening quote, whether the closing quote was found,
/// and the escape letters that stand for nothing.
pub struct StringScan {
    pub content: Seq<char>,
    pub consumed: nat,
    pub terminated: bool,
    pub bad_escapes: Seq<char>,
}

/// Reads a string literal from `pos`, the place after its opening quote. The
/// literal ends with the next quote that is not escaped. It also ends, then
/// unterminated, before a newline and at the end of the text. A backslash
/// and the character after it stand for one character: the one that
/// `escape_value` gives, or `'\0'` when it gives none.
pub open spec fn scan_string(src: Seq<char>, pos: int) -> StringScan
    decreases src.len() - pos,
{
    if pos < 0 || pos >= src.len() || src[pos] == '\n' {
        StringScan {
            content: Seq::empty(),
            consumed: 0,
            terminated: false,
            bad_escapes: Seq::empty(),
        }
    } else if src[pos] == '"' {
        StringScan {
            content: Seq::empty(),
            consumed: 1,
            terminated: true,
            bad_escapes: Seq::empty(),
        }
    } else if src[pos] == '\\' {
        if pos + 1 >= src.len() || src[pos + 1] == '\n' {
            StringScan {
                content: Seq::empty(),
                consumed: 1,
                terminated: false,
                bad_escapes: Seq::empty(),
            }
        } else {
            let rest = scan_string(src, pos + 2);
            let letter = src[pos + 1];
            StringScan {
                content: seq![
                    match escape_value(letter) {
                        Some(c) => c,
                        None => '\0',
                    },
                ] + rest.content,
                consumed: 2 + rest.consumed,
                terminated: rest.terminated,
                bad_escapes: (if escape_value(letter) is None {
                    seq![letter]
                } else {
                    Seq::empty()
                }) + rest.bad_escapes,
            }
        }
    } else {
        let rest = scan_string(src, pos + 1);
        StringScan {
            content: seq![src[pos]] + rest.content,
            consumed: 1 + rest.consumed,
            terminated: rest.terminated,
            bad_escapes: rest.bad_escapes,
        }
    }
}

/// A diagnostic of the lexer: a syntax error about line `line` of `src`.
pub open spec fn lexer_error(src: Seq<char>, line: int, code: Seq<char>, msg: Seq<char>)
    -> AsmErrorView {
    AsmErrorView {
        code: code,
        line_content: source_line(src, line),
        line_num: line as nat,
        from_to: None,
        err_type: ErrorType::SyntaxError,
        msg: msg,
    }
}

pub open spec fn uncategorized_error(src: Seq<char>, line: int) -> AsmErrorView {
    lexer_error(src, line, CODE_TOKEN_NO_CATEGORY@, MSG_TOKEN_NO_CATEGORY@)
}

pub open spec fn unterminated_error(src: Seq<char>, line: int) -> AsmErrorView {
    lexer_error(src, line, CODE_STRING_NOT_ENDED@, MSG_STRING_NOT_ENDED@)
}

pub open spec fn escape_error(src: Seq<char>, line: int, letter: char) -> AsmErrorView {
    lexer_error(
        src,
        line,
        CODE_INVALID_ESCAPE_CHAR@,
        MSG_ESCAPE_START@.push(letter) + MSG_ESCAPE_END@,
    )
}

/// The diagnostics for the escape letters that stand for nothing, in order.
pub open spec fn escape_errors(src: Seq<char>, line: int, letters: Seq<char>) -> Seq<
    AsmErrorView,
> {
    Seq::new(letters.len(), |i: int| escape_error(src, line, letters[i]))
}

/// The diagnostics for a string literal: one for each escape that stands for
/// nothing, then one more when the literal is not terminated.
pub open spec fn string_errors(src: Seq<char>, line: int, scan: StringScan) -> Seq<AsmErrorView> {
    escape_errors(src, line, scan.bad_escapes) + (if scan.terminated {
        Seq::empty()
    } else {
        seq![unterminated_error(src, line)]
    })
}

/// The token for the `length` characters of `src` from `pos` on.
pub open spec fn token_at(src: Seq<char>, pos: int, length: nat, kind: TokenKind) -> TokenView {
    TokenView {
        kind: kind,
        to: column_of(src, pos) + length - 1,
        from: column_of(src, pos),
        file_relative_to: pos + length - 1,
        file_relative_from: pos,
        line_num: line_of(src, pos),
        original_match: src.subrange(pos, pos + length),
    }
}

/// The outcome of lexing: the tokens in source order, and the diagnostics in
/// the order they were found.
pub struct Lexed {
    pub tokens: Seq<TokenView>,
    pub errors: Seq<AsmErrorView>,
}

/// The tokens and diagnostics of the text from `pos` on, where `pos` is not
/// inside a word, a string or a comment.
pub open spec fn lex_from(src: Seq<char>, pos: int) -> Lexed
    decreases src.len() - pos,
{
    if pos < 0 || pos >= src.len() {
        Lexed { tokens: Seq::empty(), errors: Seq::empty() }
    } else if src[pos] == '"' {
        let scan = scan_string(src, pos + 1);
        proof {
            scan_string_bounds(src, pos + 1);
        }
        let rest = lex_from(src, pos + 1 + scan.consumed);
        Lexed {
            tokens: seq![token_at(src, pos, 1 + scan.consumed, TokenKind::String(scan.content))]
                + rest.tokens,
            errors: string_errors(src, line_of(src, pos), scan) + rest.errors,
        }
    } else if src[pos] == ';' {
        proof {
            line_rest_bounds(src, pos + 1);
        }
        lex_from(src, pos + 1 + line_rest(src, pos + 1))
    } else if is_whitespace_char(src[pos]) || src[pos] == ',' {
        lex_from(src, pos + 1)
    } else {
        proof {
            word_rest_bounds(src, pos + 1);
        }
        let length = 1 + word_rest(src, pos + 1);
        let word = src.subrange(pos, pos + length);
        let rest = lex_from(src, pos + length);
        match categorized(word, shape_of(word)) {
            None => rest,
            Some(kind) => Lexed {
                tokens: seq![token_at(src, pos, length, kind)] + rest.tokens,
                errors: (if kind is Invalid {
                    seq![uncategorized_error(src, line_of(src, pos))]
                } else {
                    Seq::empty()
                }) + rest.errors,
            },
        }
    }
}

/// The tokens and diagnostics of a whole text.
pub open spec fn lex(src: Seq<char>) -> Lexed {
    lex_from(src, 0)
}

/// A token lies where it says: its characters are those of the source
/// between its two places in the file, it holds no newline, its line and
/// column are those of its first character, and its line of the source
/// holds it between its two columns.
pub open spec fn spanned(src: Seq<char>, t: TokenView) -> bool {
    &&& 0 <= t.file_relative_from <= t.file_relative_to < src.len()
    &&& src.subrange(t.file_relative_from, t.file_relative_to + 1) == t.original_match
    &&& t.line_num == line_of(src, t.file_relative_from)
    &&& t.from == column_of(src, t.file_relative_from)
    &&& t.to - t.from == t.file_relative_to - t.file_relative_from
    &&& 1 <= t.line_num <= split_lines(src).len()
    &&& t.to < split_lines(src)[t.line_num - 1].len()
    &&& split_lines(src)[t.line_num - 1].subrange(t.from, t.to + 1) == t.original_match
}

pub proof fn word_rest_bounds(src: Seq<char>, pos: int)
    requires
        0 <= pos <= src.len(),
    ensures
        pos + word_rest(src, pos) <= src.len(),
        forall|i: int| pos <= i < pos + word_rest(src, pos) ==> !ends_word(#[trigger] src[i]),
        pos + word_rest(src, pos) < src.len() ==> ends_word(src[pos + word_rest(src, pos)]),
    decreases src.len() - pos,
{
    if pos < src.len() && !ends_word(src[pos]) {
        word_rest_bounds(src, pos + 1);
    }
}

pub proof fn line_rest_bounds(src: Seq<char>, pos: int)
    requires
        0 <= pos <= src.len(),
    ensures
        pos + line_rest(src, pos) <= src.len(),
        on_one_line(src, pos, line_rest(src, pos) as int),
        pos + line_rest(src, pos) < src.len() ==> src[pos + line_rest(src, pos)] == '\n',
    decreases src.len() - pos,
{
    if pos < src.len() && src[pos] != '\n' {
        line_rest_bounds(src, pos + 1);
    }
}

pub proof fn scan_string_bounds(src: Seq<char>, pos: int)
    requires
        0 <= pos <= src.len(),
    ensures
        pos + scan_string(src, pos).consumed <= src.len(),
        on_one_line(src, pos, scan_string(src, pos).consumed as int),
    decreases src.len() - pos,
{
    if pos < src.len() && src[pos] != '\n' && src[pos] != '"' {
        if src[pos] == '\\' {
            if pos + 1 < src.len() && src[pos + 1] != '\n' {
                scan_string_bounds(src, pos + 2);
            }
        } else {
            scan_string_bounds(src, pos + 1);
        }
    }
}

/// Every token of a text lies where it says.
pub proof fn lexed_tokens_are_spanned(src: Seq<char>, pos: int)
    requires
        0 <= pos <= src.len(),
    ensures
        forall|i: int|
            0 <= i < lex_from(src, pos).tokens.len() ==> spanned(
                src,
                #[trigger] lex_from(src, pos).tokens[i],
            ),
    decreases src.len() - pos,
{
    let all = lex_from(src, pos).tokens;
    if pos >= src.len() {
        assert(all.len() == 0);
    } else {
        if src[pos] == '"' {
            let scan = scan_string(src, pos + 1);
            let length = 1 + scan.consumed;
            scan_string_bounds(src, pos + 1);
            lexed_tokens_are_spanned(src, pos + length);
            let rest = lex_from(src, pos + length).tokens;
            let t = token_at(src, pos, length, TokenKind::String(scan.content));
            assert(on_one_line(src, pos, length as int));
            line_holds_span(src, pos, length as int);
            assert(spanned(src, t));
            assert(all == seq![t] + rest);
            assert forall|i: int| 0 <= i < all.len() implies spanned(src, #[trigger] all[i]) by {
                if i > 0 {
                    assert(all[i] == rest[i - 1]);
                }
            }
        } else if src[pos] == ';' {
            line_rest_bounds(src, pos + 1);
            lexed_tokens_are_spanned(src, pos + 1 + line_rest(src, pos + 1));
            assert(all == lex_from(src, pos + 1 + line_rest(src, pos + 1)).tokens);
        } else if is_whitespace_char(src[pos]) || src[pos] == ',' {
            lexed_tokens_are_spanned(src, pos + 1);
            assert(all == lex_from(src, pos + 1).tokens);
        } else {
            let length = 1 + word_rest(src, pos + 1);
            word_rest_bounds(src, pos + 1);
            lexed_tokens_are_spanned(src, pos + length);
            let rest = lex_from(src, pos + length).tokens;
            let word = src.subrange(pos, pos + length);
            assert forall|i: int| pos <= i < pos + length implies #[trigger] src[i] != '\n' by {
                assert(!ends_word(src[i]));
            }
            line_holds_span(src, pos, length as int);
            match categorized(word, shape_of(word)) {
                None => {
                    assert(all == rest);
                },
                Some(kind) => {
                    let t = token_at(src, pos, length, kind);
                    assert(spanned(src, t));
                    assert(all == seq![t] + rest);
                    assert forall|i: int| 0 <= i < all.len() implies spanned(
                        src,
                        #[trigger] all[i],
                    ) by {
                        if i > 0 {
                            assert(all[i] == rest[i - 1]);
                        }
                    }
                },
            }
        }
    }
}

/// The lexer's state: the tokens and diagnostics collected so far, the text
/// being read, and the cursor. `file_position` is the place of the next
/// character in the text, `line_position` its column, `curr_line_num` its
/// line, counted from one.
pub struct Lexer {
    pub token_stream: Vec<Token>,
    pub errors: Vec<AsmError>,
    pub syntax_checker: SyntaxChecker,
    pub file_as_chars: Vec<char>,
    pub curr_line_num: usize,
    pub file_position: usize,
    pub line_position: usize,
}

fn ends_word_char(c: char) -> (b: bool)
    ensures
        b == ends_word(c),
{
    is_whitespace(c) || c == ',' || c == ';' || c == '"'
}

impl Lexer {
    /// The cursor agrees with the text: it is inside the text or at its end,
    /// and its line and column are those of its place.
    pub open spec fn placed(&self) -> bool {
        &&& self.file_as_chars@.len() < usize::MAX
        &&& self.file_position <= self.file_as_chars@.len()
        &&& self.curr_line_num == line_of(self.file_as_chars@, self.file_position as int)
        &&& self.line_position == column_of(self.file_as_chars@, self.file_position as int)
    }

    /// Nothing read and nothing collected: no text, no tokens, the cursor at
    /// the start of line one.
    pub open spec fn idle(&self) -> bool {
        &&& self.token_stream@.len() == 0
        &&& self.file_as_chars@.len() == 0
        &&& self.curr_line_num == 1
        &&& self.file_position == 0
        &&& self.line_position == 0
    }

    /// The cursor and the text of `self` are those of `other`.
    pub open spec fn same_place(&self, other: &Lexer) -> bool {
        &&& self.file_as_chars@ == other.file_as_chars@
        &&& self.curr_line_num == other.curr_line_num
        &&& self.file_position == other.file_position
        &&& self.line_position == other.line_position
    }

    /// A lexer with nothing read. There is one when the regular expression
    /// engine accepts every pattern of the line screen, and none when it
    /// refuses one.
    pub fn new() -> (lexer: Option<Lexer>)
        ensures
            lexer is Some <==> screen_compiles(),
            lexer matches Some(l) ==> l.idle() && l.errors@.len() == 0,
    {
        Self::from_checker(SyntaxChecker::new())
    }

    /// The lexer for what compiling the patterns of the line screen gave: a
    /// lexer with nothing read that holds the checker, when there is one;
    /// none when there is none.
    pub fn from_checker(checker: Option<SyntaxChecker>) -> (lexer: Option<Lexer>)
        ensures
            lexer is Some <==> checker is Some,
            lexer matches Some(l) ==> l.idle() && l.errors@.len() == 0 && Some(l.syntax_checker)
                == checker,
    {
        match checker {
            Some(syntax_checker) => Some(
                Lexer {
                    token_stream: Vec::new(),
                    errors: Vec::new(),
                    syntax_checker: syntax_checker,
                    file_as_chars: Vec::new(),
                    curr_line_num: 1,
                    file_position: 0,
                    line_position: 0,
                },
            ),
            None => None,
        }
    }

    /// Reads `input_file` and returns its tokens in source order. The
    /// diagnostics are left in `errors`, which is emptied first; the lexer is
    /// otherwise left as new. Every token lies in the text where its places
    /// say.
    pub fn run(&mut self, input_file: String) -> (tokens: Vec<Token>)
        ensures
            tokens.deep_view() == lex(input_file@).tokens,
            final(self).errors.deep_view() == lex(input_file@).errors,
            forall|i: int|
                0 <= i < tokens.len() ==> spanned(input_file@, #[trigger] tokens.deep_view()[i]),
            final(self).idle(),
    {
        self.file_as_chars = chars_of(input_file.as_str());
        self.errors = Vec::new();
        self.token_stream = Vec::new();
        self.curr_line_num = 1;
        self.file_position = 0;
        self.line_position = 0;
        let ghost src = input_file@;
        proof {
            position_step(src, 0);
            assert(self.token_stream.deep_view() =~= Seq::empty());
            assert(self.errors.deep_view() =~= Seq::empty());
            assert(Seq::<TokenView>::empty() + lex(src).tokens =~= lex(src).tokens);
            assert(Seq::<AsmErrorView>::empty() + lex(src).errors =~= lex(src).errors);
        }
        while self.file_position < self.file_as_chars.len()
            invariant
                self.file_as_chars@ == src,
                self.placed(),
                self.token_stream.deep_view() + lex_from(src, self.file_position as int).tokens
                    == lex(src).tokens,
                self.errors.deep_view() + lex_from(src, self.file_position as int).errors == lex(
                    src,
                ).errors,
            decreases src.len() - self.file_position,
        {
            let c = self.file_as_chars[self.file_position];
            if c == '"' {
                self.lex_string();
            } else if c == ';' {
                self.skip_comment();
            } else if is_whitespace(c) || c == ',' {
                self.next_char();
            } else {
                self.lex_word();
            }
        }
        let mut tokens: Vec<Token> = Vec::new();
        std::mem::swap(&mut tokens, &mut self.token_stream);
        proof {
            assert(tokens.deep_view() + Seq::<TokenView>::empty() =~= tokens.deep_view());
            assert(self.errors.deep_view() + Seq::<AsmErrorView>::empty()
                =~= self.errors.deep_view());
            lexed_tokens_are_spanned(src, 0);
        }
        self.reset();
        tokens
    }

    /// Reads one character and moves the cursor past it.
    fn next_char(&mut self) -> (c: char)
        requires
            old(self).placed(),
            old(self).file_position < old(self).file_as_chars@.len(),
        ensures
            c == old(self).file_as_chars@[old(self).file_position as int],
            final(self).placed(),
            final(self).file_as_chars@ == old(self).file_as_chars@,
            final(self).file_position == old(self).file_position + 1,
            c != '\n' ==> final(self).curr_line_num == old(self).curr_line_num,
            final(self).token_stream.deep_view() == old(self).token_stream.deep_view(),
            final(self).errors.deep_view() == old(self).errors.deep_view(),
    {
        proof {
            position_step(self.file_as_chars@, self.file_position as int);
        }
        let c: char = self.file_as_chars[self.file_position];
        self.file_position += 1;
        self.line_position += 1;
        if c == '\n' {
            self.next_line();
        }
        c
    }

    /// Moves the cursor to the start of the next line.
    fn next_line(&mut self)
        requires
            old(self).curr_line_num < usize::MAX,
        ensures
            final(self).line_position == 0,
            final(self).curr_line_num == old(self).curr_line_num + 1,
            final(self).file_position == old(self).file_position,
            final(self).file_as_chars@ == old(self).file_as_chars@,
            final(self).token_stream.deep_view() == old(self).token_stream.deep_view(),
            final(self).errors.deep_view() == old(self).errors.deep_view(),
    {
        self.line_position = 0;
        self.curr_line_num += 1;
    }

    /// The text of the line the cursor is on, without its line ending.
    fn get_current_line(&self) -> (line: String)
        ensures
            line@ == source_line(self.file_as_chars@, self.curr_line_num as int),
    {
        let line = line_at(&self.file_as_chars, self.curr_line_num);
        string_of(&line)
    }

    /// Moves the cursor from the semicolon that opens a comment to the end
    /// of the line.
    fn skip_comment(&mut self)
        requires
            old(self).placed(),
            old(self).file_position < old(self).file_as_chars@.len(),
            old(self).file_as_chars@[old(self).file_position as int] == ';',
        ensures
            final(self).placed(),
            final(self).file_as_chars@ == old(self).file_as_chars@,
            final(self).file_position > old(self).file_position,
            final(self).token_stream.deep_view() == old(self).token_stream.deep_view(),
            final(self).errors.deep_view() == old(self).errors.deep_view(),
            lex_from(final(self).file_as_chars@, final(self).file_position as int) == lex_from(
                old(self).file_as_chars@,
                old(self).file_position as int,
            ),
    {
        let ghost src = self.file_as_chars@;
        let ghost start = self.file_position as int;
        self.next_char();
        while self.file_position < self.file_as_chars.len()
            && self.file_as_chars[self.file_position] != '\n'
            invariant
                self.placed(),
                self.file_as_chars@ == src,
                start < self.file_position <= src.len(),
                self.file_position + line_rest(src, self.file_position as int) == start + 1
                    + line_rest(src, start + 1),
                self.token_stream.deep_view() == old(self).token_stream.deep_view(),
                self.errors.deep_view() == old(self).errors.deep_view(),
            decreases src.len() - self.file_position,
        {
            self.next_char();
        }
    }

    /// Forgets the text and the tokens and puts the cursor back at the start.
    /// The diagnostics stay.
    fn reset(&mut self)
        ensures
            final(self).idle(),
            final(self).errors == old(self).errors,
    {
        self.token_stream = Vec::new();
        self.file_as_chars = Vec::new();
        self.curr_line_num = 1;
        self.file_position = 0;
        self.line_position = 0;
    }

    /// Adds a token for `lexeme`, which starts at column `from` of the
    /// current line and at place `file_from` of the text.
    fn push_token(
        &mut self,
        kind: TokenType,
        lexeme: String,
        length: usize,
        from: usize,
        file_from: usize,
    )
        requires
            length == lexeme@.len(),
            length >= 1,
            from + length <= usize::MAX,
            file_from + length <= usize::MAX,
        ensures
            final(self).same_place(old(self)),
            final(self).errors.deep_view() == old(self).errors.deep_view(),
            final(self).token_stream.deep_view() == old(self).token_stream.deep_view().push(
                TokenView {
                    kind: kind@,
                    to: from + length - 1,
                    from: from as int,
                    file_relative_to: file_from + length - 1,
                    file_relative_from: file_from as int,
                    line_num: old(self).curr_line_num as int,
                    original_match: lexeme@,
                },
            ),
    {
        let token = Token {
            inner_token: kind,
            to: from + length - 1,
            from: from,
            file_relative_to: file_from + length - 1,
            file_relative_from: file_from,
            line_num: self.curr_line_num,
            original_match: lexeme,
        };
        self.token_stream.push(token);
        assert(self.token_stream.deep_view() =~= old(self).token_stream.deep_view().push(token@));
    }

    /// Adds a diagnostic about the current line.
    fn push_error(&mut self, code: &str, msg: &str)
        ensures
            final(self).same_place(old(self)),
            final(self).token_stream.deep_view() == old(self).token_stream.deep_view(),
            final(self).errors.deep_view() == old(self).errors.deep_view().push(
                lexer_error(
                    old(self).file_as_chars@,
                    old(self).curr_line_num as int,
                    code@,
                    msg@,
                ),
            ),
    {
        let line = self.get_current_line();
        let error = AsmError::new(
            code.to_owned(),
            line.as_str(),
            self.curr_line_num,
            ErrorType::SyntaxError,
            msg,
        );
        self.errors.push(error);
        assert(self.errors.deep_view() =~= old(self).errors.deep_view().push(error@));
    }

    /// What the patterns of the line screen say about `word`.
    fn shape(&self, word: &Vec<char>) -> (shape: WordShape)
        ensures
            shape == shape_of(word@),
    {
        let upper_word = string_of(&to_upper(word));
        let plain_word = string_of(word);
        WordShape {
            ignore: self.syntax_checker.is_ignore(upper_word.as_str()),
            instruction: self.syntax_checker.is_instruction_name(upper_word.as_str()),
            directive: self.syntax_checker.is_directive_name(upper_word.as_str()),
            register: self.syntax_checker.is_valid_register(upper_word.as_str()),
            immediate: self.syntax_checker.is_valid_immediate_value(plain_word.as_str()),
            label: self.syntax_checker.is_valid_label(plain_word.as_str()),
        }
    }

    /// What `word` is, given what the patterns say about it; `None` for a
    /// word to pass over.
    pub fn categorize(word: &str, shape: WordShape) -> (kind: Option<TokenType>)
        ensures
            kind is Some == categorized(word@, shape) is Some,
            kind matches Some(k) ==> categorized(word@, shape) == Some(k@),
    {
        let chars = chars_of(word);
        let upper_chars = to_upper(&chars);
        if shape.ignore {
            None
        } else if shape.instruction {
            match OpcodeIns::of_mnemonic(&upper_chars) {
                OpcodeIns::INVALID => Some(TokenType::INVALID(word.to_owned())),
                op => Some(TokenType::Instruction(op)),
            }
        } else if shape.directive {
            match Directive::lookup(string_of(&upper_chars).as_str()) {
                Some(d) => Some(TokenType::Directive(d)),
                None => Some(TokenType::INVALID(word.to_owned())),
            }
        } else if shape.register {
            match Self::read_register(&upper_chars) {
                Some(r) => Some(TokenType::Register(r)),
                None => Some(TokenType::INVALID(word.to_owned())),
            }
        } else if shape.immediate {
            match Self::read_immediate(&chars) {
                Some(n) => Some(TokenType::Number(n)),
                None => Some(TokenType::INVALID(word.to_owned())),
            }
        } else if shape.label {
            Some(TokenType::Label(word.to_owned()))
        } else {
            Some(TokenType::INVALID(word.to_owned()))
        }
    }

    /// Classifies `word` and adds its token, which starts at column `from`
    /// of the current line and at place `file_from` of the text. A word that
    /// cannot be categorized also adds a diagnostic.
    fn emit_word(&mut self, word: &Vec<char>, from: usize, file_from: usize)
        requires
            word@.len() >= 1,
            from + word@.len() <= usize::MAX,
            file_from + word@.len() <= usize::MAX,
        ensures
            final(self).same_place(old(self)),
            match categorized(word@, shape_of(word@)) {
                None => {
                    &&& final(self).token_stream.deep_view() == old(self).token_stream.deep_view()
                    &&& final(self).errors.deep_view() == old(self).errors.deep_view()
                },
                Some(kind) => {
                    &&& final(self).token_stream.deep_view() == old(
                        self,
                    ).token_stream.deep_view().push(
                        TokenView {
                            kind: kind,
                            to: from + word@.len() - 1,
                            from: from as int,
                            file_relative_to: file_from + word@.len() - 1,
                            file_relative_from: file_from as int,
                            line_num: old(self).curr_line_num as int,
                            original_match: word@,
                        },
                    )
                    &&& final(self).errors.deep_view() == old(self).errors.deep_view() + (if kind is Invalid {
                        seq![
                            uncategorized_error(
                                old(self).file_as_chars@,
                                old(self).curr_line_num as int,
                            ),
                        ]
                    } else {
                        Seq::empty()
                    })
                },
            },
    {
        let shape = self.shape(word);
        let text = string_of(word);
        match Self::categorize(text.as_str(), shape) {
            None => {},
            Some(kind) => {
                let invalid = match kind {
                    TokenType::INVALID(_) => true,
                    _ => false,
                };
                self.push_token(kind, text, word.len(), from, file_from);
                if invalid {
                    self.push_error(CODE_TOKEN_NO_CATEGORY, MSG_TOKEN_NO_CATEGORY);
                    assert(self.errors.deep_view() =~= old(self).errors.deep_view() + seq![
                        uncategorized_error(
                            old(self).file_as_chars@,
                            old(self).curr_line_num as int,
                        ),
                    ]);
                } else {
                    assert(self.errors.deep_view() =~= old(self).errors.deep_view()
                        + Seq::<AsmErrorView>::empty());
                }
            },
        }
    }

    /// Reads the word that starts at the cursor and adds its token.
    fn lex_word(&mut self)
        requires
            old(self).placed(),
            old(self).file_position < old(self).file_as_chars@.len(),
            !ends_word(old(self).file_as_chars@[old(self).file_position as int]),
        ensures
            final(self).placed(),
            final(self).file_as_chars@ == old(self).file_as_chars@,
            final(self).file_position > old(self).file_position,
            final(self).token_stream.deep_view() + lex_from(
                final(self).file_as_chars@,
                final(self).file_position as int,
            ).tokens == old(self).token_stream.deep_view() + lex_from(
                old(self).file_as_chars@,
                old(self).file_position as int,
            ).tokens,
            final(self).errors.deep_view() + lex_from(
                final(self).file_as_chars@,
                final(self).file_position as int,
            ).errors == old(self).errors.deep_view() + lex_from(
                old(self).file_as_chars@,
                old(self).file_position as int,
            ).errors,
    {
        let ghost src = self.file_as_chars@;
        let start = self.file_position;
        let start_column = self.line_position;
        let mut word: Vec<char> = Vec::new();
        word.push(self.file_as_chars[start]);
        let mut end: usize = start + 1;
        assert(word@ =~= src.subrange(start as int, end as int));
        while end < self.file_as_chars.len() && !ends_word_char(self.file_as_chars[end])
            invariant
                self.file_as_chars@ == src,
                start < end <= src.len(),
                word@ == src.subrange(start as int, end as int),
                end + word_rest(src, end as int) == start + 1 + word_rest(src, start + 1),
                forall|i: int| start <= i < end ==> !ends_word(#[trigger] src[i]),
            decreases src.len() - end,
        {
            word.push(self.file_as_chars[end]);
            end += 1;
            assert(word@ =~= src.subrange(start as int, end as int));
        }
        proof {
            position_step(src, start as int);
            assert forall|i: int| start <= i < end implies #[trigger] src[i] != '\n' by {
                assert(!ends_word(src[i]));
            }
            position_after_span(src, start as int, end - start);
        }
        self.emit_word(&word, start_column, start);
        self.file_position = end;
        self.line_position = start_column + (end - start);
        proof {
            let length = (1 + word_rest(src, start + 1)) as nat;
            assert(end - start == length);
            let rest = lex_from(src, end as int);
            let here = lex_from(src, start as int);
            match categorized(word@, shape_of(word@)) {
                None => {
                    assert(here == rest);
                },
                Some(kind) => {
                    let t = token_at(src, start as int, length, kind);
                    assert(here.tokens == seq![t] + rest.tokens);
                    assert(old(self).token_stream.deep_view().push(t) + rest.tokens =~= old(
                        self,
                    ).token_stream.deep_view() + (seq![t] + rest.tokens));
                    let found = if kind is Invalid {
                        seq![uncategorized_error(src, line_of(src, start as int))]
                    } else {
                        Seq::empty()
                    };
                    assert(here.errors == found + rest.errors);
                    assert((old(self).errors.deep_view() + found) + rest.errors =~= old(
                        self,
                    ).errors.deep_view() + (found + rest.errors));
                },
            }
        }
    }

    /// Reads the string literal whose opening quote is at the cursor and
    /// adds its token.
    fn lex_string(&mut self)
        requires
            old(self).placed(),
            old(self).file_position < old(self).file_as_chars@.len(),
            old(self).file_as_chars@[old(self).file_position as int] == '"',
        ensures
            final(self).placed(),
            final(self).file_as_chars@ == old(self).file_as_chars@,
            final(self).file_position > old(self).file_position,
            final(self).token_stream.deep_view() + lex_from(
                final(self).file_as_chars@,
                final(self).file_position as int,
            ).tokens == old(self).token_stream.deep_view() + lex_from(
                old(self).file_as_chars@,
                old(self).file_position as int,
            ).tokens,
            final(self).errors.deep_view() + lex_from(
                final(self).file_as_chars@,
                final(self).file_position as int,
            ).errors == old(self).errors.deep_view() + lex_from(
                old(self).file_as_chars@,
                old(self).file_position as int,
            ).errors,
    {
        let ghost src = self.file_as_chars@;
        let start = self.file_position;
        let start_column = self.line_position;
        proof {
            position_step(src, start as int);
        }
        self.next_char();
        let content = self.parse_string();
        let end = self.file_position;
        let lexeme = string_of_range(&self.file_as_chars, start, end);
        self.push_token(TokenType::String(content), lexeme, end - start, start_column, start);
        proof {
            let scan = scan_string(src, start + 1);
            let rest = lex_from(src, end as int);
            let here = lex_from(src, start as int);
            let t = token_at(src, start as int, 1 + scan.consumed, TokenKind::String(scan.content));
            assert(here.tokens == seq![t] + rest.tokens);
            assert(old(self).token_stream.deep_view().push(t) + rest.tokens =~= old(
                self,
            ).token_stream.deep_view() + (seq![t] + rest.tokens));
            let found = string_errors(src, line_of(src, start as int), scan);
            assert(here.errors == found + rest.errors);
            assert((old(self).errors.deep_view() + found) + rest.errors =~= old(
                self,
            ).errors.deep_view() + (found + rest.errors));
        }
    }

    /// Classifies `word` and adds its token. The cursor is taken to stand
    /// after the character that follows the word: the token ends two places
    /// before the cursor. A word that cannot be categorized also adds a
    /// diagnostic about the current line.
    pub fn parse_word(&mut self, word: String)
        requires
            word@.len() >= 1,
            old(self).line_position >= word@.len() + 1,
            old(self).file_position >= word@.len() + 1,
        ensures
            final(self).same_place(old(self)),
            match categorized(word@, shape_of(word@)) {
                None => {
                    &&& final(self).token_stream.deep_view() == old(self).token_stream.deep_view()
                    &&& final(self).errors.deep_view() == old(self).errors.deep_view()
                },
                Some(kind) => {
                    &&& final(self).token_stream.deep_view() == old(
                        self,
                    ).token_stream.deep_view().push(
                        TokenView {
                            kind: kind,
                            to: old(self).line_position - 2,
                            from: old(self).line_position - 1 - word@.len(),
                            file_relative_to: old(self).file_position - 2,
                            file_relative_from: old(self).file_position - 1 - word@.len(),
                            line_num: old(self).curr_line_num as int,
                            original_match: word@,
                        },
                    )
                    &&& final(self).errors.deep_view() == old(self).errors.deep_view() + (if kind is Invalid {
                        seq![
                            uncategorized_error(
                                old(self).file_as_chars@,
                                old(self).curr_line_num as int,
                            ),
                        ]
                    } else {
                        Seq::empty()
                    })
                },
            },
    {
        let chars = chars_of(word.as_str());
        let from = self.line_position - 1 - chars.len();
        let file_from = self.file_position - 1 - chars.len();
        self.emit_word(&chars, from, file_from);
    }

    fn read_register(upper_word: &Vec<char>) -> (r: Option<u16>)
        ensures
            r == register_of(upper_word@),
    {
        if upper_word.len() == 2 && upper_word[0] == 'R' && '0' <= upper_word[1] && upper_word[1]
            <= '7' {
            Some((upper_word[1] as u16) - ('0' as u16))
        } else {
            None
        }
    }

    fn read_immediate(word: &Vec<char>) -> (n: Option<i16>)
        ensures
            n == immediate_of(word@),
    {
        if word.len() >= 2 && word[0] == '#' && word[1] == '-' {
            match parse_decimal(word, 2, 0x8000) {
                Some(v) => Some((-(v as i32)) as i16),
                None => None,
            }
        } else if word.len() >= 1 && word[0] == '#' {
            match parse_decimal(word, 1, 0x7fff) {
                Some(v) => Some(v as i16),
                None => None,
            }
        } else if word.len() >= 1 && (word[0] == 'x' || word[0] == 'X') {
            match parse_hex(word, 1, 0xffff) {
                Some(v) => if v >= 0x8000 {
                    Some(((v as i32) - 0x10000) as i16)
                } else {
                    Some(v as i16)
                },
                None => None,
            }
        } else {
            None
        }
    }

    /// The number of the register that `word` names: `R0` to `R7`.
    pub fn parse_register(&self, word: &str) -> (r: u16)
        requires
            register_of(word@) is Some,
        ensures
            Some(r) == register_of(word@),
            r < 8,
    {
        let chars = chars_of(word);
        match Self::read_register(&chars) {
            Some(r) => r,
            None => 0,
        }
    }

    /// The number that the immediate `word` denotes.
    pub fn parse_immediate_value(&self, word: &str) -> (n: i16)
        requires
            immediate_of(word@) is Some,
        ensures
            Some(n) == immediate_of(word@),
    {
        let chars = chars_of(word);
        match Self::read_immediate(&chars) {
            Some(n) => n,
            None => 0,
        }
    }

    /// Reads a string literal from the cursor, which stands after the
    /// opening quote, to its closing quote, and returns its content. A
    /// literal that is not closed before the line ends is reported, and so
    /// is every escape that stands for nothing.
    #[verifier::rlimit(40)]
    pub fn parse_string(&mut self) -> (s: String)
        requires
            old(self).placed(),
        ensures
            s@ == scan_string(old(self).file_as_chars@, old(self).file_position as int).content,
            final(self).placed(),
            final(self).file_as_chars@ == old(self).file_as_chars@,
            final(self).file_position == old(self).file_position + scan_string(
                old(self).file_as_chars@,
                old(self).file_position as int,
            ).consumed,
            final(self).curr_line_num == old(self).curr_line_num,
            final(self).token_stream.deep_view() == old(self).token_stream.deep_view(),
            final(self).errors.deep_view() == old(self).errors.deep_view() + string_errors(
                old(self).file_as_chars@,
                old(self).curr_line_num as int,
                scan_string(old(self).file_as_chars@, old(self).file_position as int),
            ),
    {
        let ghost src = self.file_as_chars@;
        let ghost start = self.file_position as int;
        let ghost line = self.curr_line_num as int;
        let ghost whole = scan_string(src, start);
        let ghost mut bad: Seq<char> = Seq::empty();
        let mut buffer: Vec<char> = Vec::new();
        let mut open = true;
        proof {
            assert(self.errors.deep_view() =~= old(self).errors.deep_view() + escape_errors(
                src,
                line,
                bad,
            ));
            assert(buffer@ + whole.content =~= whole.content);
            assert(bad + whole.bad_escapes =~= whole.bad_escapes);
        }
        while open
            invariant
                self.placed(),
                self.file_as_chars@ == src,
                self.curr_line_num == line,
                start <= self.file_position <= src.len(),
                self.token_stream.deep_view() == old(self).token_stream.deep_view(),
                open ==> {
                    let here = scan_string(src, self.file_position as int);
                    &&& buffer@ + here.content == whole.content
                    &&& self.file_position + here.consumed == start + whole.consumed
                    &&& here.terminated == whole.terminated
                    &&& bad + here.bad_escapes == whole.bad_escapes
                    &&& self.errors.deep_view() == old(self).errors.deep_view() + escape_errors(
                        src,
                        line,
                        bad,
                    )
                },
                !open ==> {
                    &&& buffer@ == whole.content
                    &&& self.file_position == start + whole.consumed
                    &&& self.errors.deep_view() == old(self).errors.deep_view() + string_errors(
                        src,
                        line,
                        whole,
                    )
                },
            decreases src.len() - self.file_position + (if open { 1int } else { 0int }),
        {
            let ghost here = scan_string(src, self.file_position as int);
            let ghost prior = buffer@;
            if self.file_position >= self.file_as_chars.len()
                || self.file_as_chars[self.file_position] == '\n' {
                self.push_error(CODE_STRING_NOT_ENDED, MSG_STRING_NOT_ENDED);
                open = false;
                proof {
                    assert(buffer@ + Seq::<char>::empty() =~= buffer@);
                    assert(bad + Seq::<char>::empty() =~= bad);
                    assert(self.errors.deep_view() =~= old(self).errors.deep_view()
                        + string_errors(src, line, whole));
                }
            } else {
                let c = self.next_char();
                if c == '"' {
                    open = false;
                    proof {
                        assert(buffer@ + Seq::<char>::empty() =~= buffer@);
                        assert(bad + Seq::<char>::empty() =~= bad);
                        assert(self.errors.deep_view() =~= old(self).errors.deep_view()
                            + string_errors(src, line, whole));
                    }
                } else if c == '\\' {
                    if self.file_position >= self.file_as_chars.len()
                        || self.file_as_chars[self.file_position] == '\n' {
                        self.push_error(CODE_STRING_NOT_ENDED, MSG_STRING_NOT_ENDED);
                        open = false;
                        proof {
                            assert(buffer@ + Seq::<char>::empty() =~= buffer@);
                            assert(bad + Seq::<char>::empty() =~= bad);
                            assert(self.errors.deep_view() =~= old(self).errors.deep_view()
                                + string_errors(src, line, whole));
                        }
                    } else {
                        let letter = self.next_char();
                        let value = self.parse_escape(letter);
                        buffer.push(value);
                        proof {
                            let rest = scan_string(src, self.file_position as int);
                            let found = if escape_value(letter) is None {
                                seq![letter]
                            } else {
                                Seq::empty()
                            };
                            assert(here.content == seq![value] + rest.content);
                            assert(here.bad_escapes == found + rest.bad_escapes);
                            assert(buffer@ + rest.content =~= prior + here.content);
                            assert((bad + found) + rest.bad_escapes =~= bad + here.bad_escapes);
                            assert(self.errors.deep_view() =~= old(self).errors.deep_view()
                                + escape_errors(src, line, bad + found));
                            bad = bad + found;
                        }
                    }
                } else {
                    buffer.push(c);
                    proof {
                        let rest = scan_string(src, self.file_position as int);
                        assert(here.content == seq![c] + rest.content);
                        assert(buffer@ + rest.content =~= prior + here.content);
                    }
                }
            }
        }
        string_of(&buffer)
    }

    /// The character that the escape letter `character` stands for. A letter
    /// that stands for nothing is reported and gives `'\0'`.
    pub fn parse_escape(&mut self, character: char) -> (c: char)
        ensures
            c == (match escape_value(character) {
                Some(v) => v,
                None => '\0',
            }),
            final(self).same_place(old(self)),
            final(self).token_stream.deep_view() == old(self).token_stream.deep_view(),
            final(self).errors.deep_view() == old(self).errors.deep_view() + (if escape_value(
                character,
            ) is None {
                seq![
                    escape_error(
                        old(self).file_as_chars@,
                        old(self).curr_line_num as int,
                        character,
                    ),
                ]
            } else {
                Seq::empty()
            }),
    {
        if character == '\\' || character == '\'' || character == '"' {
            assert(self.errors.deep_view() =~= old(self).errors.deep_view()
                + Seq::<AsmErrorView>::empty());
            character
        } else if character == 'n' {
            assert(self.errors.deep_view() =~= old(self).errors.deep_view()
                + Seq::<AsmErrorView>::empty());
            '\n'
        } else if character == 'r' {
            assert(self.errors.deep_view() =~= old(self).errors.deep_view()
                + Seq::<AsmErrorView>::empty());
            '\r'
        } else if character == 't' {
            assert(self.errors.deep_view() =~= old(self).errors.deep_view()
                + Seq::<AsmErrorView>::empty());
            '\t'
        } else if character == '0' {
            assert(self.errors.deep_view() =~= old(self).errors.deep_view()
                + Seq::<AsmErrorView>::empty());
            '\0'
        } else {
            let mut msg: Vec<char> = Vec::new();
            push_str(&mut msg, MSG_ESCAPE_START);
            msg.push(character);
            push_str(&mut msg, MSG_ESCAPE_END);
            let text = string_of(&msg);
            assert(text@ =~= MSG_ESCAPE_START@.push(character) + MSG_ESCAPE_END@);
            self.push_error(CODE_INVALID_ESCAPE_CHAR, text.as_str());
            assert(self.errors.deep_view() =~= old(self).errors.deep_view() + seq![
                escape_error(old(self).file_as_chars@, old(self).curr_line_num as int, character),
            ]);
            '\0'
        }
    }
}

} // verus!
