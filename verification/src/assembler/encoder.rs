//! The encoder: a second walk over the tokens, with the addresses of the
//! labels known, that writes the memory image. `Asm` also ties the passes
//! together.
use super::asm_error::AsmError;
use super::asm_ins::{opcode_value, operands_of, OpcodeIns};
use super::directive::Directive;
use super::laws::accepted_text_has_an_image;
use super::lexer::{lex, Lexer};
use super::semantic::{
    analysis, blank, block_words, fits, origin_of, two_to, SemanticChecker, MEMORY_WORDS,
};
use super::syntax::{screen_compiles, screen_errors};
use super::token::{Token, TokenKind, TokenType, TokenView};
use crate::text::{char_word, chars_of, lines, word_of_char};
use vstd::prelude::*;

verus! {

/// The register number of token `i`, when that token is a register.
pub open spec fn register_at(tokens: Seq<TokenView>, i: int) -> Option<int> {
    if 0 <= i < tokens.len() {
        match tokens[i].kind {
            TokenKind::Register(r) => if r < 8 {
                Some(r as int)
            } else {
                None
            },
            _ => None,
        }
    } else {
        None
    }
}

/// The number of token `i`, when that token is a number that fits `width`
/// bits.
pub open spec fn number_at(tokens: Seq<TokenView>, i: int, width: int) -> Option<int> {
    if 0 <= i < tokens.len() {
        match tokens[i].kind {
            TokenKind::Number(n) => if fits(n as int, width) {
                Some(n as int)
            } else {
                None
            },
            _ => None,
        }
    } else {
        None
    }
}

/// The distance from address `next` to the label of token `i`, when that
/// token is a label that is defined and the distance fits `width` bits.
pub open spec fn offset_at(
    tokens: Seq<TokenView>,
    i: int,
    symbols: Map<Seq<char>, (int, TokenView)>,
    next: int,
    width: int,
) -> Option<int> {
    if 0 <= i < tokens.len() {
        match tokens[i].kind {
            TokenKind::Label(name) => if symbols.contains_key(name) && fits(
                symbols[name].0 - next,
                width,
            ) {
                Some(symbols[name].0 - next)
            } else {
                None
            },
            _ => None,
        }
    } else {
        None
    }
}

/// The field of `width` bits that holds `n` in two's complement.
pub open spec fn field(n: int, width: int) -> int {
    if n >= 0 {
        n
    } else {
        n + two_to(width as nat)
    }
}

/// The word that holds `n` in two's complement.
pub open spec fn word_of(n: i16) -> u16 {
    if n < 0 {
        (n + 0x10000) as u16
    } else {
        n as u16
    }
}

/// `op DR SR1 000 SR2`, or `op DR SR1 1 imm5`: the operands are the tokens
/// from `i` on.
pub open spec fn word_reg_reg_reg_or_imm5(tokens: Seq<TokenView>, i: int, opcode: int) -> Option<
    int,
> {
    match (register_at(tokens, i), register_at(tokens, i + 1)) {
        (Some(dr), Some(sr1)) => match register_at(tokens, i + 2) {
            Some(sr2) => Some(opcode + dr * 512 + sr1 * 64 + sr2),
            None => match number_at(tokens, i + 2, 5) {
                Some(imm5) => Some(opcode + dr * 512 + sr1 * 64 + 32 + field(imm5, 5)),
                None => None,
            },
        },
        _ => None,
    }
}

/// `0000 n z p pcoffset9`.
pub open spec fn word_br(
    tokens: Seq<TokenView>,
    i: int,
    opcode: int,
    n: bool,
    z: bool,
    p: bool,
    symbols: Map<Seq<char>, (int, TokenView)>,
    next: int,
) -> Option<int> {
    match offset_at(tokens, i, symbols, next, 9) {
        Some(offset) => Some(
            opcode + (if n {
                2048int
            } else {
                0int
            }) + (if z {
                1024int
            } else {
                0int
            }) + (if p {
                512int
            } else {
                0int
            }) + field(offset, 9),
        ),
        None => None,
    }
}

/// `op DR pcoffset9`.
pub open spec fn word_reg_offset9(
    tokens: Seq<TokenView>,
    i: int,
    opcode: int,
    symbols: Map<Seq<char>, (int, TokenView)>,
    next: int,
) -> Option<int> {
    match (register_at(tokens, i), offset_at(tokens, i + 1, symbols, next, 9)) {
        (Some(dr), Some(offset)) => Some(opcode + dr * 512 + field(offset, 9)),
        _ => None,
    }
}

/// `op DR BR offset6`.
pub open spec fn word_reg_reg_offset6(tokens: Seq<TokenView>, i: int, opcode: int) -> Option<int> {
    match (register_at(tokens, i), register_at(tokens, i + 1), number_at(tokens, i + 2, 6)) {
        (Some(dr), Some(base), Some(offset)) => Some(
            opcode + dr * 512 + base * 64 + field(offset, 6),
        ),
        _ => None,
    }
}

/// `0100 1 pcoffset11`.
pub open spec fn word_jsr(
    tokens: Seq<TokenView>,
    i: int,
    opcode: int,
    symbols: Map<Seq<char>, (int, TokenView)>,
    next: int,
) -> Option<int> {
    match offset_at(tokens, i, symbols, next, 11) {
        Some(offset) => Some(opcode + 2048 + field(offset, 11)),
        None => None,
    }
}

/// `op 000 BR 000000`: JSRR and JMP.
pub open spec fn word_jsrr(tokens: Seq<TokenView>, i: int, opcode: int) -> Option<int> {
    match register_at(tokens, i) {
        Some(base) => Some(opcode + base * 64),
        None => None,
    }
}

/// `1001 DR SR 111111`.
pub open spec fn word_not(tokens: Seq<TokenView>, i: int, opcode: int) -> Option<int> {
    match (register_at(tokens, i), register_at(tokens, i + 1)) {
        (Some(dr), Some(sr)) => Some(opcode + dr * 512 + sr * 64 + 63),
        _ => None,
    }
}

/// The word for instruction `op` whose operands are the tokens from `i` on,
/// where `next` is the address after the instruction's. `None` when an
/// operand is missing, is of the wrong kind, or does not fit its field, and
/// for what is no instruction.
pub open spec fn instruction_word(
    tokens: Seq<TokenView>,
    i: int,
    op: OpcodeIns,
    symbols: Map<Seq<char>, (int, TokenView)>,
    next: int,
) -> Option<int> {
    let opcode = opcode_value(op) * 4096;
    match op {
        OpcodeIns::Add | OpcodeIns::And => word_reg_reg_reg_or_imm5(tokens, i, opcode),
        OpcodeIns::Br(n, z, p) => word_br(tokens, i, opcode, n, z, p, symbols, next),
        OpcodeIns::Ld | OpcodeIns::Ldi | OpcodeIns::Lea | OpcodeIns::St | OpcodeIns::Sti => {
            word_reg_offset9(tokens, i, opcode, symbols, next)
        },
        OpcodeIns::Ldr | OpcodeIns::Str => word_reg_reg_offset6(tokens, i, opcode),
        OpcodeIns::Jsr => word_jsr(tokens, i, opcode, symbols, next),
        OpcodeIns::Jsrr | OpcodeIns::Jmp => word_jsrr(tokens, i, opcode),
        OpcodeIns::Not => word_not(tokens, i, opcode),
        OpcodeIns::Ret => Some(0xc1c0int),
        OpcodeIns::Rti => Some(0x8000int),
        OpcodeIns::Trap(vector) => if vector < 256 {
            Some(opcode + vector)
        } else {
            None
        },
        OpcodeIns::Reserved | OpcodeIns::INVALID => None,
    }
}

/// The words of a string: one for each character, and a zero word after them
/// when strings are terminated.
pub open spec fn string_image(text: Seq<char>, nul: bool) -> Seq<u16> {
    Seq::new(text.len(), |k: int| char_word(text[k])) + (if nul {
        seq![0u16]
    } else {
        Seq::empty()
    })
}

/// The words that directive `d` puts in the image, where token `i` is its
/// operand. `.END` puts none; `.ORIG` has no place inside a program.
pub open spec fn directive_words(tokens: Seq<TokenView>, i: int, d: Directive, nul: bool)
    -> Option<Seq<u16>> {
    match d {
        Directive::END => Some(Seq::empty()),
        Directive::ORIG => None,
        _ => if 0 <= i < tokens.len() {
            match (d, tokens[i].kind) {
                (Directive::FILL, TokenKind::Number(n)) => Some(seq![word_of(n)]),
                (Directive::BLKW, TokenKind::Number(n)) => Some(
                    Seq::new(block_words(n) as nat, |k: int| 0u16),
                ),
                (Directive::STRINGZ, TokenKind::String(text)) => Some(string_image(text, nul)),
                _ => None,
            }
        } else {
            None
        },
    }
}

/// The words of the program from token `i` on, where `pc` is the address of
/// the next word. Labels in head position are passed over; `.END` ends the
/// program. `None` when the tokens do not read as a program or the words do
/// not fit in memory.
pub open spec fn encode_from(
    tokens: Seq<TokenView>,
    symbols: Map<Seq<char>, (int, TokenView)>,
    nul: bool,
    i: int,
    pc: int,
) -> Option<Seq<u16>>
    decreases tokens.len() - i,
{
    if i < 0 || i >= tokens.len() {
        Some(Seq::empty())
    } else {
        match tokens[i].kind {
            TokenKind::Label(_) => encode_from(tokens, symbols, nul, i + 1, pc),
            TokenKind::Instruction(op) => {
                if pc + 1 > MEMORY_WORDS || i + 1 + operands_of(op).len() > tokens.len() {
                    None
                } else {
                    match (
                        instruction_word(tokens, i + 1, op, symbols, pc + 1),
                        encode_from(
                            tokens,
                            symbols,
                            nul,
                            i + 1 + operands_of(op).len(),
                            pc + 1,
                        ),
                    ) {
                        (Some(word), Some(rest)) => Some(seq![word as u16] + rest),
                        _ => None,
                    }
                }
            },
            TokenKind::Directive(Directive::END) => Some(Seq::empty()),
            TokenKind::Directive(d) => match directive_words(tokens, i + 1, d, nul) {
                Some(words) => if pc + words.len() > MEMORY_WORDS {
                    None
                } else {
                    match encode_from(tokens, symbols, nul, i + 2, pc + words.len()) {
                        Some(rest) => Some(words + rest),
                        None => None,
                    }
                },
                None => None,
            },
            _ => None,
        }
    }
}

/// The memory image of a program: the origin, then the words of the program.
/// The program opens with `.ORIG` and its address.
pub open spec fn image(
    tokens: Seq<TokenView>,
    symbols: Map<Seq<char>, (int, TokenView)>,
    nul: bool,
) -> Option<Seq<u16>> {
    if tokens.len() >= 2 && tokens[0].kind == TokenKind::Directive(Directive::ORIG) {
        match tokens[1].kind {
            TokenKind::Number(n) => match encode_from(tokens, symbols, nul, 2, origin_of(n)) {
                Some(words) => Some(seq![word_of(n)] + words),
                None => None,
            },
            _ => None,
        }
    } else {
        None
    }
}

/// A sixteen-bit word read as a two's-complement number.
pub open spec fn signed(w: u16) -> int {
    if w >= 0x8000 {
        w - 0x10000
    } else {
        w as int
    }
}

/// What the assembler gives for a source text: the image when every pass
/// accepts the text, and nothing when the line screen, the lexer or the
/// semantic pass has a diagnostic. (A text that the passes accept always has
/// an image: see `accepted_text_has_an_image`.)
pub open spec fn assembled(source: Seq<char>, nul: bool) -> Seq<u16> {
    let tokens = lex(source).tokens;
    let pass = analysis(tokens, source, nul);
    if screen_errors(lines(source)).len() > 0 || lex(source).errors.len() > 0
        || pass.reports.len() > 0 {
        Seq::empty()
    } else {
        match image(tokens, pass.symbols, nul) {
            Some(words) => words,
            None => Seq::empty(),
        }
    }
}

/// The assembler: the passes in a row, and the state of the encoder, which
/// is the index of the token to read next and the address of the word to
/// write next. After `run`, the diagnostics of the stage that stopped the
/// assembler are found in `syntax_errors`, in the `errors` of the lexer, or
/// in those of the semantic checker.
#[allow(dead_code)]
pub struct Asm {
    pub lexer: Lexer,
    pub semantic_checker: SemanticChecker,
    pub syntax_errors: Vec<AsmError>,
    pub token_index: usize,
    pub memory_location: i32,
}

fn word_of_number(n: i16) -> (w: u16)
    ensures
        w == word_of(n),
{
    if n < 0 {
        ((n as i32) + 0x10000) as u16
    } else {
        n as u16
    }
}

#[allow(dead_code)]
impl Asm {
    /// The labels with their addresses, as the encoder sees them.
    pub open spec fn symbols(&self) -> Map<Seq<char>, (int, TokenView)> {
        self.semantic_checker.symbol_table@
    }

    /// `self` is `before` but for the index of the next token.
    pub open spec fn moved_from(&self, before: &Asm) -> bool {
        &&& self.lexer == before.lexer
        &&& self.semantic_checker == before.semantic_checker
        &&& self.syntax_errors == before.syntax_errors
        &&& self.memory_location == before.memory_location
    }

    /// An assembler for strings that end with a zero word. There is one when
    /// the regular expression engine accepts every pattern of the line
    /// screen, and none when it refuses one.
    pub fn new() -> (assembler: Option<Asm>)
        ensures
            assembler is Some <==> screen_compiles(),
            assembler matches Some(a) ==> a.token_index == 0 && a.memory_location == 0
                && a.semantic_checker.nul_terminated && a.symbols() == Map::<
                Seq<char>,
                (int, TokenView),
            >::empty(),
    {
        Self::from_lexer(Lexer::new())
    }

    /// The assembler around what making a lexer gave: when there is a lexer,
    /// an assembler that holds it, with a fresh semantic checker for strings
    /// that end with a zero word, no diagnostic and no label, at the first
    /// token; none when there is no lexer.
    pub fn from_lexer(lexer: Option<Lexer>) -> (assembler: Option<Asm>)
        ensures
            assembler is Some <==> lexer is Some,
            assembler matches Some(a) ==> {
                &&& Some(a.lexer) == lexer
                &&& a.semantic_checker.pass() == blank(Seq::empty(), true)
                &&& a.syntax_errors@.len() == 0
                &&& a.token_index == 0
                &&& a.memory_location == 0
                &&& a.semantic_checker.nul_terminated
                &&& a.symbols() == Map::<Seq<char>, (int, TokenView)>::empty()
            },
    {
        match lexer {
            Some(lexer) => Some(
                Asm {
                    lexer: lexer,
                    semantic_checker: SemanticChecker::new(),
                    syntax_errors: Vec::new(),
                    token_index: 0,
                    memory_location: 0,
                },
            ),
            None => None,
        }
    }

    /// Assembles a source text: the line screen, the lexer, the semantic
    /// pass and the encoder, each only when the one before it had no
    /// diagnostic. Returns the image, or nothing when a pass had a
    /// diagnostic.
    pub fn run(&mut self, input_file: String) -> (binary_file: Vec<u16>)
        ensures
            binary_file@ == assembled(input_file@, old(self).semantic_checker.nul_terminated),
            binary_file@.len() > 0 <==> screen_errors(lines(input_file@)).len() == 0 && lex(
                input_file@,
            ).errors.len() == 0 && analysis(
                lex(input_file@).tokens,
                input_file@,
                old(self).semantic_checker.nul_terminated,
            ).reports.len() == 0,
            binary_file@.len() > 0 ==> Some(binary_file@) == image(
                lex(input_file@).tokens,
                analysis(
                    lex(input_file@).tokens,
                    input_file@,
                    old(self).semantic_checker.nul_terminated,
                ).symbols,
                old(self).semantic_checker.nul_terminated,
            ) && binary_file@[0] + (binary_file@.len() - 1) <= MEMORY_WORDS,
            final(self).semantic_checker.nul_terminated == old(self).semantic_checker.nul_terminated,
            final(self).syntax_errors.deep_view() == screen_errors(lines(input_file@)),
            screen_errors(lines(input_file@)).len() == 0 ==> final(self).lexer.errors.deep_view()
                == lex(input_file@).errors,
            screen_errors(lines(input_file@)).len() == 0 && lex(input_file@).errors.len() == 0
                ==> final(self).semantic_checker.pass() == analysis(
                lex(input_file@).tokens,
                input_file@,
                old(self).semantic_checker.nul_terminated,
            ),
    {
        self.syntax_errors = self.lexer.syntax_checker.syntax_errors(input_file.as_str());
        if self.syntax_errors.len() > 0 {
            return Vec::new();
        }
        let tokens = self.lexer.run(input_file.clone());
        if self.lexer.errors.len() > 0 {
            return Vec::new();
        }
        let ghost source = input_file@;
        self.semantic_checker.run(&tokens, input_file);
        if self.semantic_checker.errors.len() > 0 {
            return Vec::new();
        }
        proof {
            accepted_text_has_an_image(source, self.semantic_checker.nul_terminated);
        }
        match self.try_assemble(&tokens) {
            Some(binary_file) => binary_file,
            None => Vec::new(),
        }
    }

    /// Writes the image of a program that the semantic checker has accepted:
    /// the labels of the program are in the checker's symbol table.
    pub fn assemble(&mut self, tokens: Vec<Token>) -> (binary_file: Vec<u16>)
        requires
            image(
                tokens.deep_view(),
                old(self).symbols(),
                old(self).semantic_checker.nul_terminated,
            ) is Some,
        ensures
            Some(binary_file@) == image(
                tokens.deep_view(),
                old(self).symbols(),
                old(self).semantic_checker.nul_terminated,
            ),
    {
        match self.try_assemble(&tokens) {
            Some(binary_file) => binary_file,
            None => Vec::new(),
        }
    }

    /// Writes the image of a program, when the tokens read as one: they open
    /// with `.ORIG` and its address, every instruction and directive has the
    /// operands it takes, every label that is used is in the checker's
    /// symbol table and within reach, and the words fit in memory.
    pub fn try_assemble(&mut self, tokens: &Vec<Token>) -> (binary_file: Option<Vec<u16>>)
        ensures
            binary_file is Some == image(
                tokens.deep_view(),
                old(self).symbols(),
                old(self).semantic_checker.nul_terminated,
            ) is Some,
            binary_file matches Some(words) ==> Some(words@) == image(
                tokens.deep_view(),
                old(self).symbols(),
                old(self).semantic_checker.nul_terminated,
            ),
            final(self).lexer == old(self).lexer,
            final(self).semantic_checker == old(self).semantic_checker,
            final(self).syntax_errors == old(self).syntax_errors,
    {
        let ghost all = tokens.deep_view();
        let ghost symbols = self.symbols();
        let ghost nul = self.semantic_checker.nul_terminated;
        self.token_index = 0;
        if !self.set_origin(tokens) {
            return None;
        }
        let ghost origin = self.memory_location as int;
        let ghost whole = encode_from(all, symbols, nul, 2, origin);
        let first = match tokens[1].inner_token {
            TokenType::Number(n) => word_of_number(n),
            _ => 0,
        };
        proof {
            assert(all[0] == tokens@[0]@);
            assert(all[1] == tokens@[1]@);
            assert(image(all, symbols, nul) == (match whole {
                Some(w) => Some(seq![first] + w),
                None => None::<Seq<u16>>,
            }));
        }
        let mut binary_file: Vec<u16> = Vec::new();
        binary_file.push(first);
        let ghost mut words: Seq<u16> = Seq::empty();
        assert(binary_file@ =~= seq![first] + words);
        let mut ended = false;
        while !ended && self.token_index < tokens.len()
            invariant
                all == tokens.deep_view(),
                image(all, symbols, nul) == (match whole {
                    Some(w) => Some(seq![first] + w),
                    None => None::<Seq<u16>>,
                }),
                symbols == self.symbols(),
                nul == self.semantic_checker.nul_terminated,
                self.lexer == old(self).lexer,
                self.semantic_checker == old(self).semantic_checker,
                self.syntax_errors == old(self).syntax_errors,
                0 <= self.memory_location <= MEMORY_WORDS,
                binary_file@ == seq![first] + words,
                !ended ==> (match encode_from(
                    all,
                    symbols,
                    nul,
                    self.token_index as int,
                    self.memory_location as int,
                ) {
                    Some(rest) => whole == Some(words + rest),
                    None => whole is None,
                }),
                ended ==> whole == Some(words),
            decreases tokens.len() - self.token_index + (if ended { 0int } else { 1int }),
        {
            let ghost i = self.token_index as int;
            let ghost pc = self.memory_location as int;
            assert(all[i] == tokens@[i]@);
            match &tokens[self.token_index].inner_token {
                TokenType::Label(_) => {
                    self.token_index += 1;
                },
                TokenType::Instruction(instruction) => {
                    if self.memory_location >= MEMORY_WORDS {
                        return None;
                    }
                    self.increment();
                    match self.handle_instruction(instruction, tokens) {
                        Some(word) => {
                            binary_file.push(word);
                            proof {
                                let rest = encode_from(
                                    all,
                                    symbols,
                                    nul,
                                    self.token_index as int,
                                    self.memory_location as int,
                                );
                                if rest is Some {
                                    assert(words.push(word) + rest.unwrap() =~= words + (seq![
                                        word,
                                    ] + rest.unwrap()));
                                }
                                words = words.push(word);
                                assert(binary_file@ =~= seq![first] + words);
                            }
                        },
                        None => {
                            return None;
                        },
                    }
                },
                TokenType::Directive(directive) => {
                    if self.is_end(directive) {
                        ended = true;
                        proof {
                            assert(words + Seq::<u16>::empty() =~= words);
                        }
                    } else {
                        self.token_index += 1;
                        match self.handle_directive(directive, tokens) {
                            Some(added) => {
                                let mut k: usize = 0;
                                let ghost before = binary_file@;
                                while k < added.len()
                                    invariant
                                        k <= added.len(),
                                        binary_file@ == before + added@.subrange(0, k as int),
                                    decreases added.len() - k,
                                {
                                    binary_file.push(added[k]);
                                    k += 1;
                                    assert(binary_file@ =~= before + added@.subrange(0, k as int));
                                }
                                proof {
                                    assert(added@.subrange(0, added.len() as int) == added@);
                                    let rest = encode_from(
                                        all,
                                        symbols,
                                        nul,
                                        self.token_index as int,
                                        self.memory_location as int,
                                    );
                                    if rest is Some {
                                        assert((words + added@) + rest.unwrap() =~= words + (added@
                                            + rest.unwrap()));
                                    }
                                    words = words + added@;
                                    assert(binary_file@ =~= seq![first] + words);
                                }
                            },
                            None => {
                                return None;
                            },
                        }
                    }
                },
                _ => {
                    return None;
                },
            }
        }
        proof {
            if !ended {
                assert(words + Seq::<u16>::empty() =~= words);
            }
        }
        Some(binary_file)
    }

    fn is_end(&self, directive: &Directive) -> (b: bool)
        ensures
            b == (*directive == Directive::END),
    {
        match directive {
            Directive::END => true,
            _ => false,
        }
    }

    /// Moves on to the next token and the next address.
    pub fn increment(&mut self)
        requires
            old(self).memory_location < i32::MAX,
            old(self).token_index < usize::MAX,
        ensures
            final(self).lexer == old(self).lexer,
            final(self).semantic_checker == old(self).semantic_checker,
            final(self).syntax_errors == old(self).syntax_errors,
            final(self).memory_location == old(self).memory_location + 1,
            final(self).token_index == old(self).token_index + 1,
    {
        self.memory_location += 1;
        self.token_index += 1;
    }

    /// Reads the top of the program: `.ORIG` and a number, which gives the
    /// address of the first word. Says whether the program opens this way;
    /// if it does, the next token to read is the third.
    pub fn set_origin(&mut self, tokens: &Vec<Token>) -> (found: bool)
        ensures
            final(self).lexer == old(self).lexer,
            final(self).semantic_checker == old(self).semantic_checker,
            final(self).syntax_errors == old(self).syntax_errors,
            found == (tokens@.len() >= 2 && tokens.deep_view()[0].kind == TokenKind::Directive(
                Directive::ORIG,
            ) && tokens.deep_view()[1].kind is Number),
            found ==> final(self).token_index == 2 && tokens.deep_view()[1].kind
                == TokenKind::Number(
                tokens.deep_view()[1].kind->Number_0,
            ) && final(self).memory_location == origin_of(tokens.deep_view()[1].kind->Number_0),
            !found ==> final(self).token_index == old(self).token_index && final(self).memory_location == old(self).memory_location,
    {
        if tokens.len() < 2 {
            return false;
        }
        assert(tokens.deep_view()[0] == tokens@[0]@);
        assert(tokens.deep_view()[1] == tokens@[1]@);
        let opens = match &tokens[0].inner_token {
            TokenType::Directive(directive) => match directive {
                Directive::ORIG => true,
                _ => false,
            },
            _ => false,
        };
        if !opens {
            return false;
        }
        match tokens[1].inner_token {
            TokenType::Number(origin) => {
                self.memory_location = if origin < 0 {
                    (origin as i32) + 0x10000
                } else {
                    origin as i32
                };
                self.token_index = 2;
                true
            },
            _ => false,
        }
    }

    /// The words of directive `directive`, whose operand is the next token,
    /// when the operand is of the kind the directive takes and the words fit
    /// in memory above the current address. The operand is then read and the
    /// address moved past the words. `.END` gives no words and reads nothing.
    pub fn handle_directive(&mut self, directive: &Directive, tokens: &Vec<Token>) -> (output:
        Option<Vec<u16>>)
        ensures
            final(self).lexer == old(self).lexer,
            final(self).semantic_checker == old(self).semantic_checker,
            final(self).syntax_errors == old(self).syntax_errors,
            match directive_words(
                tokens.deep_view(),
                old(self).token_index as int,
                *directive,
                old(self).semantic_checker.nul_terminated,
            ) {
                Some(words) => if *directive != Directive::END && old(self).memory_location
                    + words.len() > MEMORY_WORDS {
                    output is None
                } else {
                    &&& output matches Some(v)
                    &&& v@ == words
                    &&& final(self).memory_location == old(self).memory_location + words.len()
                    &&& final(self).token_index == old(self).token_index + (if *directive
                        == Directive::END {
                        0int
                    } else {
                        1int
                    })
                },
                None => output is None,
            },
    {
        let mut output: Vec<u16> = Vec::new();
        let room: i64 = (MEMORY_WORDS as i64) - (self.memory_location as i64);
        match directive {
            Directive::END => {
                assert(output@ =~= Seq::<u16>::empty());
                return Some(output);
            },
            Directive::ORIG => {
                return None;
            },
            _ => {},
        }
        if self.token_index >= tokens.len() {
            return None;
        }
        assert(tokens.deep_view()[self.token_index as int] == tokens@[self.token_index as int]@);
        match directive {
            Directive::FILL => {
                match tokens[self.token_index].inner_token {
                    TokenType::Number(value) => {
                        if room < 1 {
                            return None;
                        }
                        output.push(word_of_number(value));
                        assert(output@ =~= seq![word_of(value)]);
                    },
                    _ => {
                        return None;
                    },
                }
            },
            Directive::BLKW => {
                match tokens[self.token_index].inner_token {
                    TokenType::Number(count) => {
                        let many: usize = if count > 0 {
                            count as usize
                        } else {
                            0
                        };
                        if (many as i64) > room {
                            return None;
                        }
                        let mut k: usize = 0;
                        while k < many
                            invariant
                                k <= many,
                                output@ == Seq::new(k as nat, |j: int| 0u16),
                            decreases many - k,
                        {
                            output.push(0);
                            k += 1;
                            assert(output@ =~= Seq::new(k as nat, |j: int| 0u16));
                        }
                    },
                    _ => {
                        return None;
                    },
                }
            },
            Directive::STRINGZ => {
                match &tokens[self.token_index].inner_token {
                    TokenType::String(string) => {
                        let chars = chars_of(string.as_str());
                        let nul = self.semantic_checker.nul_terminated;
                        if room < 0 || (chars.len() as u128) > (room as u128) || (nul && (
                            chars.len() as u128) >= (room as u128)) {
                            return None;
                        }
                        let mut k: usize = 0;
                        while k < chars.len()
                            invariant
                                k <= chars.len(),
                                output@ == Seq::new(k as nat, |j: int| char_word(chars@[j])),
                            decreases chars.len() - k,
                        {
                            output.push(word_of_char(chars[k]));
                            k += 1;
                            assert(output@ =~= Seq::new(k as nat, |j: int| char_word(chars@[j])));
                        }
                        if nul {
                            output.push(0);
                        }
                        assert(output@ =~= string_image(string@, nul));
                    },
                    _ => {
                        return None;
                    },
                }
            },
            _ => {
                return None;
            },
        }
        self.memory_location = ((self.memory_location as i64) + (output.len() as i64)) as i32;
        self.token_index += 1;
        Some(output)
    }

    /// The word of instruction `instruction`, whose operands are the next
    /// tokens, when they are of the kinds the instruction takes and fit
    /// their fields. The operands are then read. The address is the one
    /// after the instruction's.
    pub fn handle_instruction(&mut self, instruction: &OpcodeIns, tokens: &Vec<Token>) -> (output:
        Option<u16>)
        ensures
            final(self).moved_from(&*old(self)),
            match instruction_word(
                tokens.deep_view(),
                old(self).token_index as int,
                *instruction,
                old(self).symbols(),
                old(self).memory_location as int,
            ) {
                Some(word) => {
                    &&& output == Some(word as u16)
                    &&& 0 <= word <= 0xffff
                    &&& final(self).token_index == old(self).token_index + operands_of(
                        *instruction,
                    ).len()
                    &&& operands_of(*instruction).len() > 0 ==> final(self).token_index
                        <= tokens@.len()
                },
                None => output is None && final(self).token_index == old(self).token_index,
            },
    {
        let opcode: u16 = instruction.get_opcode_value() * 4096;
        proof {
            assert(operands_of(OpcodeIns::Add).len() == 3);
            assert(operands_of(OpcodeIns::And).len() == 3);
            assert(operands_of(OpcodeIns::Ldr).len() == 3);
            assert(operands_of(OpcodeIns::Str).len() == 3);
            assert(operands_of(OpcodeIns::Not).len() == 2);
            assert(operands_of(OpcodeIns::Ld).len() == 2);
            assert(operands_of(OpcodeIns::Ldi).len() == 2);
            assert(operands_of(OpcodeIns::Lea).len() == 2);
            assert(operands_of(OpcodeIns::St).len() == 2);
            assert(operands_of(OpcodeIns::Sti).len() == 2);
            assert(operands_of(OpcodeIns::Jsr).len() == 1);
            assert(operands_of(OpcodeIns::Jsrr).len() == 1);
            assert(operands_of(OpcodeIns::Jmp).len() == 1);
            assert(operands_of(*instruction).len() == 1 || !(*instruction is Br));
        }
        match instruction {
            OpcodeIns::Add | OpcodeIns::And => self.handle_reg_reg_ctrl_reg_or_imm5(
                opcode,
                tokens,
            ),
            OpcodeIns::Br(n, z, p) => self.handle_br(*n, *z, *p, opcode, tokens),
            OpcodeIns::Ld | OpcodeIns::Ldi | OpcodeIns::Lea | OpcodeIns::St | OpcodeIns::Sti => {
                self.handle_reg_offset9(opcode, tokens)
            },
            OpcodeIns::Ldr | OpcodeIns::Str => self.handle_reg_reg_offset6(opcode, tokens),
            OpcodeIns::Jsr => self.handle_jsr(opcode, tokens),
            OpcodeIns::Jsrr | OpcodeIns::Jmp => self.handle_jsrr(opcode, tokens),
            OpcodeIns::Not => self.handle_not(opcode, tokens),
            OpcodeIns::Ret => Some(0b1100_000_111_000_000),
            OpcodeIns::Rti => Some(0b1000_0000_0000_0000),
            OpcodeIns::Trap(subroutine) => {
                if *subroutine < 256 {
                    Some(opcode + *subroutine)
                } else {
                    None
                }
            },
            OpcodeIns::Reserved | OpcodeIns::INVALID => None,
        }
    }

    /// Whether `count` more tokens can be read.
    fn has_operands(&self, tokens: &Vec<Token>, count: usize) -> (b: bool)
        ensures
            b == (self.token_index + count <= tokens@.len()),
            b ==> self.token_index + count <= usize::MAX,
    {
        self.token_index <= tokens.len() && tokens.len() - self.token_index >= count
    }

    fn register_operand(tokens: &Vec<Token>, i: usize) -> (r: Option<u16>)
        ensures
            match register_at(tokens.deep_view(), i as int) {
                Some(n) => r == Some(n as u16) && n < 8,
                None => r is None,
            },
    {
        if i >= tokens.len() {
            return None;
        }
        assert(tokens.deep_view()[i as int] == tokens@[i as int]@);
        match tokens[i].inner_token {
            TokenType::Register(r) => if r < 8 {
                Some(r)
            } else {
                None
            },
            _ => None,
        }
    }

    fn number_operand(&self, tokens: &Vec<Token>, i: usize, width: i32) -> (r: Option<i16>)
        requires
            1 <= width <= 16,
        ensures
            match number_at(tokens.deep_view(), i as int, width as int) {
                Some(n) => r == Some(n as i16) && fits(n, width as int),
                None => r is None,
            },
    {
        if i >= tokens.len() {
            return None;
        }
        assert(tokens.deep_view()[i as int] == tokens@[i as int]@);
        match tokens[i].inner_token {
            TokenType::Number(n) => {
                let (lower, upper) = self.range(width);
                if lower <= (n as i32) && (n as i32) <= upper {
                    Some(n)
                } else {
                    None
                }
            },
            _ => None,
        }
    }

    fn offset_operand(&self, tokens: &Vec<Token>, i: usize, width: i32) -> (r: Option<i32>)
        requires
            1 <= width <= 16,
        ensures
            match offset_at(
                tokens.deep_view(),
                i as int,
                self.symbols(),
                self.memory_location as int,
                width as int,
            ) {
                Some(n) => r == Some(n as i32) && fits(n, width as int),
                None => r is None,
            },
    {
        if i >= tokens.len() {
            return None;
        }
        assert(tokens.deep_view()[i as int] == tokens@[i as int]@);
        match &tokens[i].inner_token {
            TokenType::Label(name) => {
                match self.semantic_checker.symbol_table.address_of(name.as_str()) {
                    Some(target) => {
                        let distance: i64 = (target as i64) - (self.memory_location as i64);
                        let (lower, upper) = self.semantic_checker.get_twos_complement_range(
                            width,
                        );
                        if (lower as i64) <= distance && distance <= (upper as i64) {
                            Some(distance as i32)
                        } else {
                            None
                        }
                    },
                    None => None,
                }
            },
            _ => None,
        }
    }

    /// The word `opcode DR SR1 000 SR2` or `opcode DR SR1 1 imm5` for the
    /// next three tokens, when they are two registers and a register or a
    /// number of five bits.
    pub fn handle_reg_reg_ctrl_reg_or_imm5(&mut self, opcode: u16, tokens: &Vec<Token>) -> (output:
        Option<u16>)
        requires
            opcode <= 0xf000,
        ensures
            final(self).moved_from(&*old(self)),
            match word_reg_reg_reg_or_imm5(
                tokens.deep_view(),
                old(self).token_index as int,
                opcode as int,
            ) {
                Some(word) => {
                    &&& output == Some(word as u16)
                    &&& 0 <= word <= 0xffff
                    &&& final(self).token_index == old(self).token_index + 3
                    &&& final(self).token_index <= tokens@.len()
                },
                None => output is None && final(self).token_index == old(self).token_index,
            },
    {
        if !self.has_operands(tokens, 3) {
            return None;
        }
        let i = self.token_index;
        let dr = match Self::register_operand(tokens, i) {
            Some(r) => r,
            None => return None,
        };
        let sr1 = match Self::register_operand(tokens, i + 1) {
            Some(r) => r,
            None => return None,
        };
        let output_value = opcode + dr * 512 + sr1 * 64;
        match Self::register_operand(tokens, i + 2) {
            Some(sr2) => {
                self.token_index += 3;
                Some(output_value + sr2)
            },
            None => match self.number_operand(tokens, i + 2, 5) {
                Some(imm5) => {
                    proof {
                        small_powers();
                    }
                    self.token_index += 3;
                    Some(self.add_imm(output_value + 32, word_of_number(imm5), 5))
                },
                None => None,
            },
        }
    }

    /// The word `opcode n z p pcoffset9` for the next token, when it is a
    /// label that is defined and within reach.
    pub fn handle_br(&mut self, n: bool, z: bool, p: bool, opcode: u16, tokens: &Vec<Token>) -> (output:
        Option<u16>)
        requires
            opcode <= 0xf000,
        ensures
            final(self).moved_from(&*old(self)),
            match word_br(
                tokens.deep_view(),
                old(self).token_index as int,
                opcode as int,
                n,
                z,
                p,
                old(self).symbols(),
                old(self).memory_location as int,
            ) {
                Some(word) => {
                    &&& output == Some(word as u16)
                    &&& 0 <= word <= 0xffff
                    &&& final(self).token_index == old(self).token_index + 1
                    &&& final(self).token_index <= tokens@.len()
                },
                None => output is None && final(self).token_index == old(self).token_index,
            },
    {
        if !self.has_operands(tokens, 1) {
            return None;
        }
        let mut output_value = opcode;
        if n {
            output_value += 2048;
        }
        if z {
            output_value += 1024;
        }
        if p {
            output_value += 512;
        }
        match self.offset_operand(tokens, self.token_index, 9) {
            Some(offset) => {
                proof {
                    small_powers();
                }
                self.token_index += 1;
                Some(self.add_imm(output_value, Self::word_of_offset(offset), 9))
            },
            None => None,
        }
    }

    /// The word `opcode DR pcoffset9` for the next two tokens, when they are
    /// a register and a label that is defined and within reach.
    pub fn handle_reg_offset9(&mut self, opcode: u16, tokens: &Vec<Token>) -> (output: Option<u16>)
        requires
            opcode <= 0xf000,
        ensures
            final(self).moved_from(&*old(self)),
            match word_reg_offset9(
                tokens.deep_view(),
                old(self).token_index as int,
                opcode as int,
                old(self).symbols(),
                old(self).memory_location as int,
            ) {
                Some(word) => {
                    &&& output == Some(word as u16)
                    &&& 0 <= word <= 0xffff
                    &&& final(self).token_index == old(self).token_index + 2
                    &&& final(self).token_index <= tokens@.len()
                },
                None => output is None && final(self).token_index == old(self).token_index,
            },
    {
        if !self.has_operands(tokens, 2) {
            return None;
        }
        let i = self.token_index;
        let dr = match Self::register_operand(tokens, i) {
            Some(r) => r,
            None => return None,
        };
        match self.offset_operand(tokens, i + 1, 9) {
            Some(offset) => {
                proof {
                    small_powers();
                }
                self.token_index += 2;
                Some(self.add_imm(opcode + dr * 512, Self::word_of_offset(offset), 9))
            },
            None => None,
        }
    }

    /// The word `opcode DR BR offset6` for the next three tokens, when they
    /// are two registers and a number of six bits.
    pub fn handle_reg_reg_offset6(&mut self, opcode: u16, tokens: &Vec<Token>) -> (output: Option<
        u16,
    >)
        requires
            opcode <= 0xf000,
        ensures
            final(self).moved_from(&*old(self)),
            match word_reg_reg_offset6(
                tokens.deep_view(),
                old(self).token_index as int,
                opcode as int,
            ) {
                Some(word) => {
                    &&& output == Some(word as u16)
                    &&& 0 <= word <= 0xffff
                    &&& final(self).token_index == old(self).token_index + 3
                    &&& final(self).token_index <= tokens@.len()
                },
                None => output is None && final(self).token_index == old(self).token_index,
            },
    {
        if !self.has_operands(tokens, 3) {
            return None;
        }
        let i = self.token_index;
        let sr_or_dr = match Self::register_operand(tokens, i) {
            Some(r) => r,
            None => return None,
        };
        let base_r = match Self::register_operand(tokens, i + 1) {
            Some(r) => r,
            None => return None,
        };
        match self.number_operand(tokens, i + 2, 6) {
            Some(offset6) => {
                proof {
                    small_powers();
                }
                self.token_index += 3;
                Some(
                    self.add_imm(
                        opcode + sr_or_dr * 512 + base_r * 64,
                        word_of_number(offset6),
                        6,
                    ),
                )
            },
            None => None,
        }
    }

    /// The word `opcode 1 pcoffset11` for the next token, when it is a label
    /// that is defined and within reach.
    pub fn handle_jsr(&mut self, opcode: u16, tokens: &Vec<Token>) -> (output: Option<u16>)
        requires
            opcode <= 0xf000,
        ensures
            final(self).moved_from(&*old(self)),
            match word_jsr(
                tokens.deep_view(),
                old(self).token_index as int,
                opcode as int,
                old(self).symbols(),
                old(self).memory_location as int,
            ) {
                Some(word) => {
                    &&& output == Some(word as u16)
                    &&& 0 <= word <= 0xffff
                    &&& final(self).token_index == old(self).token_index + 1
                    &&& final(self).token_index <= tokens@.len()
                },
                None => output is None && final(self).token_index == old(self).token_index,
            },
    {
        if !self.has_operands(tokens, 1) {
            return None;
        }
        match self.offset_operand(tokens, self.token_index, 11) {
            Some(offset) => {
                proof {
                    small_powers();
                }
                self.token_index += 1;
                Some(self.add_imm(opcode + 2048, Self::word_of_offset(offset), 11))
            },
            None => None,
        }
    }

    /// The word `opcode 000 BR 000000` for the next token, when it is a
    /// register.
    pub fn handle_jsrr(&mut self, opcode: u16, tokens: &Vec<Token>) -> (output: Option<u16>)
        requires
            opcode <= 0xf000,
        ensures
            final(self).moved_from(&*old(self)),
            match word_jsrr(tokens.deep_view(), old(self).token_index as int, opcode as int) {
                Some(word) => {
                    &&& output == Some(word as u16)
                    &&& 0 <= word <= 0xffff
                    &&& final(self).token_index == old(self).token_index + 1
                    &&& final(self).token_index <= tokens@.len()
                },
                None => output is None && final(self).token_index == old(self).token_index,
            },
    {
        if !self.has_operands(tokens, 1) {
            return None;
        }
        match Self::register_operand(tokens, self.token_index) {
            Some(r) => {
                self.token_index += 1;
                Some(opcode + r * 64)
            },
            None => None,
        }
    }

    /// The word `opcode DR SR 111111` for the next two tokens, when they are
    /// registers.
    pub fn handle_not(&mut self, opcode: u16, tokens: &Vec<Token>) -> (output: Option<u16>)
        requires
            opcode <= 0xf000,
        ensures
            final(self).moved_from(&*old(self)),
            match word_not(tokens.deep_view(), old(self).token_index as int, opcode as int) {
                Some(word) => {
                    &&& output == Some(word as u16)
                    &&& 0 <= word <= 0xffff
                    &&& final(self).token_index == old(self).token_index + 2
                    &&& final(self).token_index <= tokens@.len()
                },
                None => output is None && final(self).token_index == old(self).token_index,
            },
    {
        if !self.has_operands(tokens, 2) {
            return None;
        }
        let i = self.token_index;
        let dr = match Self::register_operand(tokens, i) {
            Some(r) => r,
            None => return None,
        };
        match Self::register_operand(tokens, i + 1) {
            Some(sr) => {
                self.token_index += 2;
                Some(opcode + dr * 512 + sr * 64 + 0b111111)
            },
            None => None,
        }
    }

    /// The next `count` tokens, which are then read.
    pub fn get_operands(&mut self, tokens: &Vec<Token>, count: i32) -> (output: Vec<Token>)
        requires
            count >= 0,
            old(self).token_index + count <= tokens@.len(),
        ensures
            final(self).moved_from(&*old(self)),
            final(self).token_index == old(self).token_index + count,
            output.deep_view() == tokens.deep_view().subrange(
                old(self).token_index as int,
                old(self).token_index + count,
            ),
    {
        let mut output: Vec<Token> = Vec::new();
        let start = self.token_index;
        let mut k: i32 = 0;
        assert(output.deep_view() =~= tokens.deep_view().subrange(start as int, start as int));
        while k < count
            invariant
                0 <= k <= count,
                start + count <= tokens@.len(),
                self.token_index == start + k,
                self.moved_from(&*old(self)),
                output.deep_view() == tokens.deep_view().subrange(start as int, start + k),
            decreases count - k,
        {
            let length = tokens.len();
            let token = tokens[self.token_index].clone();
            let ghost before = output.deep_view();
            assert(tokens.deep_view()[self.token_index as int] == token@);
            output.push(token);
            assert(output.deep_view() =~= before.push(token@));
            self.token_index += 1;
            k += 1;
            assert(output.deep_view() =~= tokens.deep_view().subrange(start as int, start + k));
        }
        output
    }

    /// The word that holds a small distance in two's complement.
    fn word_of_offset(n: i32) -> (w: u16)
        requires
            -0x8000 <= n < 0x8000,
        ensures
            signed(w) == n,
    {
        if n < 0 {
            (n + 0x10000) as u16
        } else {
            n as u16
        }
    }

    /// Adds to `instruction` the field of `length` bits that holds the
    /// two's-complement number `immediate_value`, which fits that many bits.
    /// The sum is a word.
    pub fn add_imm(&self, instruction: u16, immediate_value: u16, length: u16) -> (word: u16)
        requires
            1 <= length <= 16,
            fits(signed(immediate_value), length as int),
            instruction + field(signed(immediate_value), length as int) <= 0xffff,
        ensures
            word == instruction + field(signed(immediate_value), length as int),
    {
        proof {
            shift_is_power(length as u32);
            shift_is_power((length - 1) as u32);
            super::semantic::two_to_grows((length - 1) as nat, length as nat);
        }
        if immediate_value < 0x8000 {
            return instruction + immediate_value;
        }
        let wide: u32 = immediate_value as u32;
        let bits: u32 = length as u32;
        let full: u32 = 1u32 << bits;
        let half: u32 = 1u32 << ((bits - 1) as u32);
        assert(wide & ((full - 1) as u32) == wide + full - 0x10000) by (bit_vector)
            requires
                1 <= bits <= 16,
                full == 1u32 << bits,
                half == 1u32 << ((bits - 1) as u32),
                0x8000 <= wide <= 0xffff,
                wide + half >= 0x10000,
        ;
        let cut_imm: u16 = (wide & (full - 1)) as u16;
        instruction + cut_imm
    }

    fn range(&self, width: i32) -> (range: (i32, i32))
        requires
            1 <= width <= 16,
        ensures
            range.0 == -two_to((width - 1) as nat),
            range.1 == two_to((width - 1) as nat) - 1,
    {
        self.semantic_checker.get_twos_complement_range(width)
    }
}


/// The powers of two that bound the fields of the instructions.
pub proof fn small_powers()
    ensures
        two_to(4) == 16,
        two_to(5) == 32,
        two_to(6) == 64,
        two_to(8) == 256,
        two_to(9) == 512,
        two_to(10) == 1024,
        two_to(11) == 2048,
        two_to(15) == 0x8000,
        two_to(16) == 0x10000,
{
    reveal_with_fuel(two_to, 17);
}

/// One shifted left by `n` is two to the `n`.
pub proof fn shift_is_power(n: u32)
    requires
        n <= 16,
    ensures
        (1u32 << n) == two_to(n as nat),
    decreases n,
{
    if n == 0 {
        assert(1u32 << 0u32 == 1) by (bit_vector);
    } else {
        shift_is_power((n - 1) as u32);
        let m = (n - 1) as u32;
        assert(1u32 << ((m + 1) as u32) == 2 * (1u32 << m)) by (bit_vector)
            requires
                m < 16,
        ;
    }
}

} // verus!
