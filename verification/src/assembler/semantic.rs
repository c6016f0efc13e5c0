//! The semantic pass: one walk over the tokens that checks every operand
//! against what its instruction or directive expects, lays the program out
//! in memory, and collects the labels with their addresses.
use super::asm_error::{AsmError, AsmErrorView, ErrorType};
use super::asm_ins::{immediate_width, operand_name, operands_of, OpcodeIns, OperandType};
use super::directive::{directive_operands, Directive};
use super::file::AsmFile;
use super::symbols::SymbolTable;
use super::token::{Token, TokenKind, TokenType, TokenView};
use crate::text::{
    chars_eq, chars_of, decimal, push_decimal, push_signed_decimal, push_str, signed_decimal,
    source_line, string_of,
};
use std::collections::VecDeque;
use vstd::prelude::*;

verus! {

pub const ARCH_LIMIT: i32 = 16;

/// The number of words of memory: addresses run from 0 to one below it.
pub const MEMORY_WORDS: i32 = 65536;

pub const CODE_INS_NO_OPERAND: &'static str = "SM000";

pub const CODE_RECEIVED_UNEXPECTED_INS: &'static str = "SM001";

pub const CODE_DIR_WRONG_OPERAND: &'static str = "SM002";

pub const CODE_RECEIVED_UNEXPECTED_LABEL: &'static str = "SM003";

pub const CODE_EXPECTED_NOTHING_RECEIVED_LABEL: &'static str = "SM004";

pub const CODE_REDEFINED_LABEL: &'static str = "SM005";

pub const CODE_RECEIVED_UNEXPECTED_NUMBER: &'static str = "SM006";

pub const CODE_EXPECTED_NOTHING_RECEIVED_NUMBER: &'static str = "SM007";

pub const CODE_RECEIVED_UNEXPECTED_REGISTER: &'static str = "SM008";

pub const CODE_EXPECTED_NOTHING_RECEIVED_REGISTER: &'static str = "SM009";

pub const CODE_RECEIVED_UNEXPECTED_STRING: &'static str = "SM010";

pub const CODE_EXPECTED_NOTHING_RECEIVED_STRING: &'static str = "SM011";

pub const CODE_NO_ORIG: &'static str = "SM012";

pub const CODE_NO_END: &'static str = "SM013";

pub const CODE_USED_UNDEFINED_LABEL: &'static str = "SM014";

pub const CODE_NUMBER_OUT_OF_BOUNDS: &'static str = "SM015";

pub const CODE_FILE_NOT_VALID: &'static str = "SM017";

pub const CODE_FILE_EMPTY: &'static str = "SM018";

pub const CODE_OUT_OF_MEMORY: &'static str = "SM019";

pub const MSG_INS_NO_OPERAND: &'static str =
    "an instruction cannot be an operand. Instructions MUST be separated by line.";

pub const MSG_EXPECTED_NOTHING_RECEIVED_LABEL: &'static str =
    "no operands were expected, but received a label instead.";

pub const MSG_EXPECTED_NOTHING_RECEIVED_NUMBER: &'static str =
    "no operands were expected, but received a number instead.";

pub const MSG_EXPECTED_NOTHING_RECEIVED_REGISTER: &'static str =
    "no operands were expected, but received a register instead.";

pub const MSG_EXPECTED_NOTHING_RECEIVED_STRING: &'static str =
    "no operands were expected, but received a string instead.";

pub const MSG_NO_ORIG: &'static str =
    "the `.ORIG` directive must be at the top of the file. To resolve this error, add `.ORIG x3000` at the top of the file.";

pub const MSG_ORIG_AGAIN: &'static str =
    "the `.ORIG` directive must be at the top of the file, and there only.";

pub const MSG_NO_END: &'static str =
    "the given file does not contain a `.END` directive. The easiest way to resolve this is to create a new line at the bottom of the file that only contains `.END`.";

pub const MSG_FILE_NOT_VALID: &'static str =
    "The provided file is not valid, because it only contains a `.ORIG` directive without arguments, and no `.END` directive";

pub const MSG_FILE_EMPTY: &'static str = "The provided file was empty.";

pub const MSG_OUT_OF_MEMORY: &'static str =
    "the program does not fit in memory: this takes it past the last address, `xFFFF`.";

pub const RECEIVED_INSTRUCTION: &'static str = "an instruction";

pub const RECEIVED_LABEL: &'static str = "a label";

pub const RECEIVED_NUMBER: &'static str = "a number";

pub const RECEIVED_REGISTER: &'static str = "a register";

pub const RECEIVED_STRING: &'static str = "a string";

/// A label in operand position: the token, the address that the offset is
/// counted from (the one after the instruction), and the width in bits of
/// the offset field.
pub struct LabelUse {
    pub token: Token,
    pub address: i32,
    pub width: i32,
}

pub struct LabelUseView {
    pub token: TokenView,
    pub address: int,
    pub width: int,
}

impl View for LabelUse {
    type V = LabelUseView;

    open spec fn view(&self) -> LabelUseView {
        LabelUseView {
            token: self.token@,
            address: self.address as int,
            width: self.width as int,
        }
    }
}

impl DeepView for LabelUse {
    type V = LabelUseView;

    open spec fn deep_view(&self) -> LabelUseView {
        self@
    }
}

/// The state of the pass as a mathematical value.
pub struct Pass {
    /// The labels defined so far.
    pub symbols: Map<Seq<char>, (int, TokenView)>,
    /// The diagnostics so far, without their messages.
    pub reports: Seq<AsmErrorView>,
    /// The labels met in operand position so far.
    pub used: Seq<LabelUseView>,
    /// The address of the next word; one more than the last address allows
    /// once the program has run past the end of memory.
    pub pc: int,
    /// The directive being read is `.BLKW` and its count is still to come.
    pub in_blkw: bool,
    /// The operands still owed to the instruction or directive being read.
    pub expected: Seq<OperandType>,
    /// The instruction or directive being read.
    pub head: TokenView,
    pub end_seen: bool,
    pub origin_seen: bool,
    /// The source text, for the lines quoted in diagnostics.
    pub file: Seq<char>,
    /// Whether `.STRINGZ` ends its string with a zero word.
    pub nul: bool,
}

/// `2` to the power `e`.
pub open spec fn two_to(e: nat) -> int
    decreases e,
{
    if e == 0 {
        1
    } else {
        2 * two_to((e - 1) as nat)
    }
}

/// Whether `n` can be written in `width` bits in two's complement.
pub open spec fn fits(n: int, width: int) -> bool {
    width >= 1 && -two_to((width - 1) as nat) <= n <= two_to((width - 1) as nat) - 1
}

/// The diagnostic that points at token `t`; its message is still to be said.
pub open spec fn report(code: Seq<char>, kind: ErrorType, file: Seq<char>, t: TokenView)
    -> AsmErrorView {
    AsmErrorView {
        code: code,
        line_content: source_line(file, t.line_num),
        line_num: t.line_num as nat,
        from_to: Some((t.from as usize, t.to as usize)),
        err_type: kind,
        msg: Seq::empty(),
    }
}

/// The diagnostic about a whole line; its message is still to be said.
pub open spec fn line_report(code: Seq<char>, kind: ErrorType, file: Seq<char>, line: int)
    -> AsmErrorView {
    AsmErrorView {
        code: code,
        line_content: source_line(file, line),
        line_num: line as nat,
        from_to: None,
        err_type: kind,
        msg: Seq::empty(),
    }
}

/// The diagnostic `e` with the message `msg`.
pub open spec fn saying(e: AsmErrorView, msg: Seq<char>) -> AsmErrorView {
    AsmErrorView { msg: msg, ..e }
}

/// "... was expected, but received ... instead."
pub open spec fn unexpected_message(expected: OperandType, received: Seq<char>) -> Seq<char> {
    operand_name(expected) + " was expected, but received "@ + received + " instead."@
}

/// "... was expected, was not provided."
pub open spec fn not_provided_message(expected: OperandType) -> Seq<char> {
    operand_name(expected) + " was expected, was not provided."@
}

/// The message for a label that is defined a second time; `line` is the line
/// of its first definition.
pub open spec fn redefined_message(line: int) -> Seq<char> {
    "attempted to redefine a label that was already defined on line "@ + decimal(line as nat)
}

/// The message for a label that is used and never defined.
pub open spec fn undefined_message(name: Seq<char>) -> Seq<char> {
    "the label `"@ + name + "` was never defined within the file."@
}

/// The message for a label that is too far from its use.
pub open spec fn distance_message(name: Seq<char>, distance: int, width: int) -> Seq<char> {
    "the label `"@ + name + "` is "@ + signed_decimal(distance)
        + " words away, which does not fit the "@ + signed_decimal(width)
        + "-bit offset of the instruction."@
}

/// The message for a number that does not fit its field: the number as
/// written and in decimal, what it is an operand of, the width of the field
/// and the range of the numbers that fit it.
pub open spec fn bounds_message(lexeme: Seq<char>, number: int, head: Seq<char>, width: int)
    -> Seq<char> {
    "the number `"@ + lexeme + "` (or `"@ + signed_decimal(number)
        + "`) is out of the bounds of `"@ + head + "`, which takes a(n) "@ + signed_decimal(width)
        + "-bit immediate value. Therefore, the accepted range is `["@ + signed_decimal(
        -two_to((width - 1) as nat),
    ) + ", "@ + signed_decimal(two_to((width - 1) as nat) - 1)
        + "]`\n        REMEMBER: The LC-3 takes only accepts 2's complement values as immediate values."@
}

/// The address after `n` more words. Past the end of memory the address is
/// one more than the number of words, and stays there.
pub open spec fn advanced(pc: int, n: int) -> int {
    if pc > MEMORY_WORDS {
        pc
    } else if pc + n > MEMORY_WORDS {
        MEMORY_WORDS + 1
    } else {
        pc + n
    }
}

/// `n` more words take the program past the end of memory.
pub open spec fn overruns(pc: int, n: int) -> bool {
    pc <= MEMORY_WORDS && pc + n > MEMORY_WORDS
}

/// The width of the field that an operand of the head goes into: that of
/// the instruction, or sixteen bits for a directive.
pub open spec fn head_width(head: TokenView) -> int {
    match head.kind {
        TokenKind::Instruction(op) => match immediate_width(op) {
            Some(w) => w as int,
            None => ARCH_LIMIT as int,
        },
        _ => ARCH_LIMIT as int,
    }
}

/// The name of a label token; empty for any other token.
pub open spec fn label_name(t: TokenView) -> Seq<char> {
    match t.kind {
        TokenKind::Label(name) => name,
        _ => Seq::empty(),
    }
}

/// The number of words that a string takes.
pub open spec fn string_words(text: Seq<char>, nul: bool) -> int {
    text.len() + (if nul {
        1int
    } else {
        0int
    })
}

/// The number of words that `.BLKW n` reserves: none for a negative count.
pub open spec fn block_words(n: i16) -> int {
    if n > 0 {
        n as int
    } else {
        0
    }
}

impl Pass {
    pub open spec fn with_report(self, r: AsmErrorView) -> Pass {
        Pass { reports: self.reports.push(r), ..self }
    }

    pub open spec fn with_report_if(self, condition: bool, r: AsmErrorView) -> Pass {
        if condition {
            self.with_report(r)
        } else {
            self
        }
    }

    /// The pass after `n` more words, which token `t` asked for: a
    /// diagnostic when they take the program past the end of memory.
    pub open spec fn with_words(self, n: int, t: TokenView) -> Pass {
        Pass { pc: advanced(self.pc, n), ..self }.with_report_if(
            overruns(self.pc, n),
            saying(
                report(CODE_OUT_OF_MEMORY@, ErrorType::BoundError, self.file, t),
                MSG_OUT_OF_MEMORY@,
            ),
        )
    }

    /// The pass with the first expected operand taken off.
    pub open spec fn with_operand_taken(self) -> Pass {
        Pass { expected: self.expected.subrange(1, self.expected.len() as int), ..self }
    }

    /// An instruction opens a new head. It is an error for it to stand on
    /// the line of the head before it, and for operands to be still owed;
    /// the operands that are missing are reported against the head that they
    /// are owed to.
    pub open spec fn on_instruction(self, t: TokenView, op: OpcodeIns) -> Pass {
        let checked = self.with_report_if(
            t.line_num == self.head.line_num,
            saying(
                report(CODE_INS_NO_OPERAND@, ErrorType::OperandError, self.file, t),
                MSG_INS_NO_OPERAND@,
            ),
        ).with_report_if(
            self.expected.len() > 0,
            saying(
                report(
                    CODE_RECEIVED_UNEXPECTED_INS@,
                    ErrorType::OperandError,
                    self.file,
                    self.head,
                ),
                unexpected_message(self.expected[0], RECEIVED_INSTRUCTION@),
            ),
        );
        Pass { head: t, expected: operands_of(op), in_blkw: false, ..checked }.with_words(1, t)
    }

    /// A directive opens a new head. It is an error for operands to be still
    /// owed (to the head before it), and for `.ORIG` to come a second time.
    pub open spec fn on_directive(self, t: TokenView, d: Directive) -> Pass {
        let checked = self.with_report_if(
            self.expected.len() > 0,
            saying(
                report(CODE_DIR_WRONG_OPERAND@, ErrorType::OperandError, self.file, self.head),
                not_provided_message(self.expected[0]),
            ),
        ).with_report_if(
            d == Directive::ORIG && self.origin_seen,
            saying(report(CODE_NO_ORIG@, ErrorType::LogicalError, self.file, t), MSG_ORIG_AGAIN@),
        );
        let opened = Pass {
            head: t,
            expected: directive_operands(d),
            in_blkw: d == Directive::BLKW,
            end_seen: self.end_seen || d == Directive::END,
            origin_seen: self.origin_seen || d == Directive::ORIG,
            ..checked
        };
        if d == Directive::FILL {
            opened.with_words(1, t)
        } else {
            opened
        }
    }

    /// A label where no operand is owed is defined at the current address,
    /// unless it stands on the line of the head before it or is defined
    /// already. A label where an operand is owed is that operand.
    pub open spec fn on_label(self, t: TokenView, name: Seq<char>) -> Pass {
        if self.expected.len() == 0 {
            if t.line_num == self.head.line_num {
                self.with_report(
                    saying(
                        report(
                            CODE_EXPECTED_NOTHING_RECEIVED_LABEL@,
                            ErrorType::OperandError,
                            self.file,
                            t,
                        ),
                        MSG_EXPECTED_NOTHING_RECEIVED_LABEL@,
                    ),
                )
            } else if self.symbols.contains_key(name) {
                self.with_report(
                    saying(
                        report(CODE_REDEFINED_LABEL@, ErrorType::LabelError, self.file, t),
                        redefined_message(self.symbols[name].1.line_num),
                    ),
                )
            } else {
                Pass { symbols: self.symbols.insert(name, (self.pc, t)), ..self }
            }
        } else if self.expected[0] == OperandType::Label {
            Pass {
                used: self.used.push(
                    LabelUseView { token: t, address: self.pc, width: head_width(self.head) },
                ),
                ..self.with_operand_taken()
            }
        } else {
            self.with_operand_taken().with_report(
                saying(
                    report(CODE_RECEIVED_UNEXPECTED_LABEL@, ErrorType::OperandError, self.file, t),
                    unexpected_message(self.expected[0], RECEIVED_LABEL@),
                ),
            )
        }
    }

    /// A number must be owed as an immediate and fit the field it goes
    /// into. The count of `.BLKW` reserves that many words.
    pub open spec fn on_number(self, t: TokenView, n: i16) -> Pass {
        if self.expected.len() == 0 {
            self.with_report(
                saying(
                    report(
                        CODE_EXPECTED_NOTHING_RECEIVED_NUMBER@,
                        ErrorType::OperandError,
                        self.file,
                        t,
                    ),
                    MSG_EXPECTED_NOTHING_RECEIVED_NUMBER@,
                ),
            )
        } else if self.expected[0] == OperandType::Imm || self.expected[0]
            == OperandType::RegOrImm {
            let checked = self.with_operand_taken().with_report_if(
                !fits(n as int, head_width(self.head)),
                saying(
                    report(CODE_NUMBER_OUT_OF_BOUNDS@, ErrorType::BoundError, self.file, t),
                    bounds_message(
                        t.original_match,
                        n as int,
                        self.head.original_match,
                        head_width(self.head),
                    ),
                ),
            );
            if self.in_blkw {
                Pass { in_blkw: false, ..checked }.with_words(block_words(n), t)
            } else {
                checked
            }
        } else {
            self.with_operand_taken().with_report(
                saying(
                    report(CODE_RECEIVED_UNEXPECTED_NUMBER@, ErrorType::OperandError, self.file, t),
                    unexpected_message(self.expected[0], RECEIVED_NUMBER@),
                ),
            )
        }
    }

    /// A register must be owed as a register.
    pub open spec fn on_register(self, t: TokenView) -> Pass {
        if self.expected.len() == 0 {
            self.with_report(
                saying(
                    report(
                        CODE_EXPECTED_NOTHING_RECEIVED_REGISTER@,
                        ErrorType::OperandError,
                        self.file,
                        t,
                    ),
                    MSG_EXPECTED_NOTHING_RECEIVED_REGISTER@,
                ),
            )
        } else if self.expected[0] == OperandType::Reg || self.expected[0]
            == OperandType::RegOrImm {
            self.with_operand_taken()
        } else {
            self.with_operand_taken().with_report(
                saying(
                    report(
                        CODE_RECEIVED_UNEXPECTED_REGISTER@,
                        ErrorType::OperandError,
                        self.file,
                        t,
                    ),
                    unexpected_message(self.expected[0], RECEIVED_REGISTER@),
                ),
            )
        }
    }

    /// A string must be owed as a string; it takes one word for each of its
    /// characters, and one more when strings end with a zero word.
    pub open spec fn on_string(self, t: TokenView, text: Seq<char>) -> Pass {
        if self.expected.len() == 0 {
            self.with_report(
                saying(
                    report(
                        CODE_EXPECTED_NOTHING_RECEIVED_STRING@,
                        ErrorType::OperandError,
                        self.file,
                        t,
                    ),
                    MSG_EXPECTED_NOTHING_RECEIVED_STRING@,
                ),
            )
        } else if self.expected[0] == OperandType::String {
            self.with_operand_taken().with_words(string_words(text, self.nul), t)
        } else {
            self.with_operand_taken().with_report(
                saying(
                    report(CODE_RECEIVED_UNEXPECTED_STRING@, ErrorType::OperandError, self.file, t),
                    unexpected_message(self.expected[0], RECEIVED_STRING@),
                ),
            )
        }
    }

    /// The pass after one more token.
    pub open spec fn on_token(self, t: TokenView) -> Pass {
        match t.kind {
            TokenKind::Instruction(op) => self.on_instruction(t, op),
            TokenKind::Directive(d) => self.on_directive(t, d),
            TokenKind::Label(name) => self.on_label(t, name),
            TokenKind::Number(n) => self.on_number(t, n),
            TokenKind::Register(_) => self.on_register(t),
            TokenKind::String(text) => self.on_string(t, text),
            TokenKind::Invalid(_) => self,
        }
    }

    /// The pass after the tokens, in order.
    pub open spec fn on_tokens(self, tokens: Seq<TokenView>) -> Pass
        decreases tokens.len(),
    {
        if tokens.len() == 0 {
            self
        } else {
            self.on_tokens(tokens.drop_last()).on_token(tokens.last())
        }
    }
}

/// The token that stands for the head before the first instruction or
/// directive.
pub open spec fn no_head() -> TokenView {
    TokenView {
        kind: TokenKind::Invalid(Seq::empty()),
        to: 0,
        from: 0,
        file_relative_to: 0,
        file_relative_from: 0,
        line_num: 0,
        original_match: Seq::empty(),
    }
}

/// The pass before the first token.
pub open spec fn blank(file: Seq<char>, nul: bool) -> Pass {
    Pass {
        symbols: Map::empty(),
        reports: Seq::empty(),
        used: Seq::empty(),
        pc: 0,
        in_blkw: false,
        expected: Seq::empty(),
        head: no_head(),
        end_seen: false,
        origin_seen: false,
        file: file,
        nul: nul,
    }
}

/// The address that a number gives as an origin: the number as a sixteen-bit
/// word.
pub open spec fn origin_of(n: i16) -> int {
    if n < 0 {
        n + 0x10000
    } else {
        n as int
    }
}

/// The pass after the look at the top of the tokens, starting from `start`:
/// the first token must be `.ORIG`, and the number after it is the address
/// of the first word.
pub open spec fn topped(start: Pass, tokens: Seq<TokenView>) -> Pass
    recommends
        tokens.len() > 0,
{
    if tokens[0].kind != TokenKind::Directive(Directive::ORIG) {
        start.with_report(
            saying(
                report(CODE_NO_ORIG@, ErrorType::LogicalError, start.file, tokens[0]),
                MSG_NO_ORIG@,
            ),
        )
    } else if tokens.len() > 1 {
        match tokens[1].kind {
            TokenKind::Number(n) => Pass { pc: origin_of(n), ..start },
            _ => start,
        }
    } else {
        start.with_report(
            saying(line_report(
                CODE_FILE_NOT_VALID@,
                ErrorType::LogicalError,
                start.file,
                tokens[0].line_num,
            ), MSG_FILE_NOT_VALID@),
        )
    }
}

/// The pass before the walk over the tokens.
pub open spec fn opened(tokens: Seq<TokenView>, file: Seq<char>, nul: bool) -> Pass
    recommends
        tokens.len() > 0,
{
    topped(blank(file, nul), tokens)
}

/// Use `i` is the last one of its label.
pub open spec fn is_last_use(used: Seq<LabelUseView>, i: int) -> bool {
    forall|j: int| i < j < used.len() ==> label_name(#[trigger] used[j].token) != label_name(
        used[i].token,
    )
}

/// The diagnostics for the labels that are used and never defined, among the
/// first `k` uses: one for each such label, at its last use.
pub open spec fn undefined_reports(
    used: Seq<LabelUseView>,
    symbols: Map<Seq<char>, (int, TokenView)>,
    file: Seq<char>,
    k: int,
) -> Seq<AsmErrorView>
    decreases k,
{
    if k <= 0 {
        Seq::empty()
    } else {
        let before = undefined_reports(used, symbols, file, k - 1);
        if !symbols.contains_key(label_name(used[k - 1].token)) && is_last_use(used, k - 1) {
            before.push(
                saying(
                    report(
                        CODE_USED_UNDEFINED_LABEL@,
                        ErrorType::LabelError,
                        file,
                        used[k - 1].token,
                    ),
                    undefined_message(label_name(used[k - 1].token)),
                ),
            )
        } else {
            before
        }
    }
}

/// The distance from the address a use counts from to its label.
pub open spec fn offset_of(u: LabelUseView, symbols: Map<Seq<char>, (int, TokenView)>) -> int {
    symbols[label_name(u.token)].0 - u.address
}

/// The diagnostics for the uses, among the first `k`, whose label is too far
/// away for the offset field.
pub open spec fn distance_reports(
    used: Seq<LabelUseView>,
    symbols: Map<Seq<char>, (int, TokenView)>,
    file: Seq<char>,
    k: int,
) -> Seq<AsmErrorView>
    decreases k,
{
    if k <= 0 {
        Seq::empty()
    } else {
        let before = distance_reports(used, symbols, file, k - 1);
        if symbols.contains_key(label_name(used[k - 1].token)) && !fits(
            offset_of(used[k - 1], symbols),
            used[k - 1].width,
        ) {
            before.push(
                saying(
                    report(
                        CODE_NUMBER_OUT_OF_BOUNDS@,
                        ErrorType::BoundError,
                        file,
                        used[k - 1].token,
                    ),
                    distance_message(
                        label_name(used[k - 1].token),
                        offset_of(used[k - 1], symbols),
                        used[k - 1].width,
                    ),
                ),
            )
        } else {
            before
        }
    }
}

/// The pass after the checks that need the whole program: every label that
/// is used is defined and within reach, and `.END` was seen.
pub open spec fn closed(s: Pass) -> Pass {
    let reports = s.reports + undefined_reports(s.used, s.symbols, s.file, s.used.len() as int)
        + distance_reports(s.used, s.symbols, s.file, s.used.len() as int);
    Pass { reports: reports, ..s }.with_report_if(
        !s.end_seen,
        saying(line_report(CODE_NO_END@, ErrorType::LogicalError, s.file, 0), MSG_NO_END@),
    )
}

/// The outcome of the pass for a token stream.
pub open spec fn analysis(tokens: Seq<TokenView>, file: Seq<char>, nul: bool) -> Pass {
    if tokens.len() == 0 {
        blank(file, nul).with_report(
            saying(line_report(CODE_FILE_EMPTY@, ErrorType::LogicalError, file, 0), MSG_FILE_EMPTY@),
        )
    } else {
        closed(opened(tokens, file, nul).on_tokens(tokens))
    }
}


/// The checker: the state of the pass, kept between the calls that feed it
/// tokens. `nul_terminated` chooses whether `.STRINGZ` ends its string with
/// a zero word.
#[allow(dead_code)]
pub struct SemanticChecker {
    pub symbol_table: SymbolTable,
    pub errors: Vec<AsmError>,
    pub original_file: AsmFile,
    pub used_labels: Vec<LabelUse>,
    pub memory_location: i32,
    pub in_blkw_directive: bool,
    pub expected_operands: VecDeque<OperandType>,
    pub curr_ins_token: Token,
    pub end_encountered: bool,
    pub origin_encountered: bool,
    pub nul_terminated: bool,
}

/// The name of a label token; empty for any other token.
fn name_of(token: &Token) -> (name: String)
    ensures
        name@ == label_name(token@),
{
    match &token.inner_token {
        TokenType::Label(n) => n.clone(),
        _ => String::new(),
    }
}

fn operand_message(expected: OperandType, received: &str) -> (msg: String)
    ensures
        msg@ == unexpected_message(expected, received@),
{
    let mut out: Vec<char> = Vec::new();
    push_str(&mut out, expected.as_string().as_str());
    push_str(&mut out, " was expected, but received ");
    push_str(&mut out, received);
    push_str(&mut out, " instead.");
    assert(out@ =~= unexpected_message(expected, received@));
    string_of(&out)
}

#[allow(dead_code)]
impl SemanticChecker {
    /// The state of the pass as a mathematical value.
    pub open spec fn pass(&self) -> Pass {
        Pass {
            symbols: self.symbol_table@,
            reports: self.errors.deep_view(),
            used: self.used_labels.deep_view(),
            pc: self.memory_location as int,
            in_blkw: self.in_blkw_directive,
            expected: self.expected_operands@,
            head: self.curr_ins_token@,
            end_seen: self.end_encountered,
            origin_seen: self.origin_encountered,
            file: self.original_file.file@,
            nul: self.nul_terminated,
        }
    }

    /// A checker that has seen nothing, for strings that end with a zero
    /// word.
    pub fn new() -> (checker: SemanticChecker)
        ensures
            checker.pass() == blank(Seq::empty(), true),
    {
        Self::with_terminator(true)
    }

    /// A checker that has seen nothing; `nul_terminated` says whether strings
    /// end with a zero word.
    pub fn with_terminator(nul_terminated: bool) -> (checker: SemanticChecker)
        ensures
            checker.pass() == blank(Seq::empty(), nul_terminated),
    {
        let checker = SemanticChecker {
            symbol_table: SymbolTable::new(),
            errors: Vec::new(),
            original_file: AsmFile::new(String::new()),
            used_labels: Vec::new(),
            memory_location: 0,
            in_blkw_directive: false,
            expected_operands: VecDeque::new(),
            curr_ins_token: Token::get_useless_token(),
            end_encountered: false,
            origin_encountered: false,
            nul_terminated: nul_terminated,
        };
        assert(checker.pass().reports =~= Seq::empty());
        assert(checker.pass().used =~= Seq::empty());
        checker
    }

    /// Checks `tokens`, the tokens of `file`. Afterwards `errors` holds the
    /// diagnostics and `symbol_table` the labels with their addresses. What
    /// the checker held before is forgotten.
    #[allow(unused_variables)]
    pub fn run(&mut self, tokens: &Vec<Token>, file: String)
        ensures
            final(self).pass() == analysis(tokens.deep_view(), file@, old(self).nul_terminated),
            final(self).nul_terminated == old(self).nul_terminated,
            final(self).errors@.len() == final(self).pass().reports.len(),
    {
        self.symbol_table = SymbolTable::new();
        self.errors = Vec::new();
        self.original_file = AsmFile::new(file);
        self.used_labels = Vec::new();
        self.memory_location = 0;
        self.in_blkw_directive = false;
        self.expected_operands = VecDeque::new();
        self.curr_ins_token = Token::get_useless_token();
        self.end_encountered = false;
        self.origin_encountered = false;
        proof {
            assert(self.pass().reports =~= Seq::empty());
            assert(self.pass().used =~= Seq::empty());
            assert(self.pass() == blank(file@, self.nul_terminated));
        }
        if self.tokens_is_empty(tokens) {
            return ;
        }
        self.handle_orig(tokens);
        let ghost all = tokens.deep_view();
        let ghost start = self.pass();
        let mut i: usize = 0;
        assert(all.subrange(0, 0) =~= Seq::empty());
        while i < tokens.len()
            invariant
                i <= tokens.len(),
                all == tokens.deep_view(),
                self.nul_terminated == old(self).nul_terminated,
                self.pass() == start.on_tokens(all.subrange(0, i as int)),
            decreases tokens.len() - i,
        {
            let token = &tokens[i];
            proof {
                assert(all.subrange(0, i + 1).drop_last() == all.subrange(0, i as int));
                assert(all.subrange(0, i + 1).last() == token@);
            }
            match &token.inner_token {
                TokenType::Instruction(instruction) => {
                    self.handle_instruction(token, instruction);
                },
                TokenType::Directive(directive) => {
                    self.handle_directive(token, directive);
                },
                TokenType::Label(label) => {
                    self.handle_label(token, label);
                },
                TokenType::Number(number) => {
                    self.handle_number(token, number);
                },
                TokenType::Register(_) => {
                    self.handle_register(token);
                },
                TokenType::String(string) => {
                    self.handle_string(token, string);
                },
                TokenType::INVALID(_) => {},
            }
            i += 1;
        }
        assert(all.subrange(0, tokens.len() as int) == all);
        let ghost walked = self.pass();
        self.verify_all_used_labels_defined();
        self.verify_label_distances();
        proof {
            let first = undefined_reports(
                walked.used,
                walked.symbols,
                walked.file,
                walked.used.len() as int,
            );
            let second = distance_reports(
                walked.used,
                walked.symbols,
                walked.file,
                walked.used.len() as int,
            );
            assert((walked.reports + first) + second =~= walked.reports + first + second);
        }
        if !self.end_encountered {
            self.complain_line(
                CODE_NO_END,
                ErrorType::LogicalError,
                0,
                MSG_NO_END,
            );
        }
    }

    /// Records a diagnostic that points at `token`.
    fn complain(&mut self, code: &str, kind: ErrorType, token: &Token, msg: &str)
        ensures
            final(self).pass() == old(self).pass().with_report(
                saying(report(code@, kind, old(self).pass().file, token@), msg@),
            ),
            final(self).used_labels == old(self).used_labels,
            final(self).symbol_table == old(self).symbol_table,
            final(self).nul_terminated == old(self).nul_terminated,
    {
        let line = self.original_file.get_line(token.line_num);
        let error = AsmError::from(code.to_owned(), line.as_str(), token.clone(), kind, msg);
        self.errors.push(error);
        assert(self.errors.deep_view() =~= old(self).errors.deep_view().push(
            saying(report(code@, kind, old(self).pass().file, token@), msg@),
        ));
    }

    /// Records a diagnostic about line `line`.
    fn complain_line(&mut self, code: &str, kind: ErrorType, line: usize, msg: &str)
        ensures
            final(self).pass() == old(self).pass().with_report(
                saying(line_report(code@, kind, old(self).pass().file, line as int), msg@),
            ),
    {
        let content = self.original_file.get_line(line);
        let error = AsmError::new(code.to_owned(), content.as_str(), line, kind, msg);
        self.errors.push(error);
        assert(self.errors.deep_view() =~= old(self).errors.deep_view().push(
            saying(line_report(code@, kind, old(self).pass().file, line as int), msg@),
        ));
    }

    /// Moves the address on by `n` words, which `token` asked for, and
    /// records a diagnostic when that takes the program past the end of
    /// memory.
    fn add_words(&mut self, n: usize, token: &Token)
        ensures
            final(self).pass() == old(self).pass().with_words(n as int, token@),
    {
        let pc = self.memory_location;
        if pc > MEMORY_WORDS {
            return ;
        }
        let room: i64 = (MEMORY_WORDS as i64) - (pc as i64);
        if (n as u128) > (room as u128) {
            self.memory_location = MEMORY_WORDS + 1;
            self.complain(
                CODE_OUT_OF_MEMORY,
                ErrorType::BoundError,
                token,
                MSG_OUT_OF_MEMORY,
            );
        } else {
            self.memory_location = ((pc as i64) + (n as i64)) as i32;
        }
    }

    /// Takes the first expected operand off the queue.
    fn take_operand(&mut self) -> (expected: OperandType)
        requires
            old(self).expected_operands@.len() > 0,
        ensures
            expected == old(self).expected_operands@[0],
            final(self).pass() == old(self).pass().with_operand_taken(),
    {
        match self.expected_operands.pop_front() {
            Some(e) => e,
            None => OperandType::Reg,
        }
    }

    /// Feeds the pass an instruction: see `Pass::on_instruction`.
    pub fn handle_instruction(&mut self, token: &Token, instruction: &OpcodeIns)
        ensures
            final(self).pass() == old(self).pass().on_instruction(token@, *instruction),
    {
        if token.line_num == self.curr_ins_token.line_num {
            self.complain(
                CODE_INS_NO_OPERAND,
                ErrorType::OperandError,
                token,
                MSG_INS_NO_OPERAND,
            );
        }
        if self.expected_operands.len() > 0 {
            let msg = operand_message(self.expected_operands[0], RECEIVED_INSTRUCTION);
            let head = self.curr_ins_token.clone();
            self.complain(
                CODE_RECEIVED_UNEXPECTED_INS,
                ErrorType::OperandError,
                &head,
                msg.as_str(),
            );
        }
        self.curr_ins_token = token.clone();
        self.in_blkw_directive = false;
        self.expected_operands = instruction.get_expected_operands();
        self.add_words(1, token);
    }

    /// Feeds the pass a directive: see `Pass::on_directive`.
    pub fn handle_directive(&mut self, token: &Token, directive: &Directive)
        ensures
            final(self).pass() == old(self).pass().on_directive(token@, *directive),
    {
        if self.expected_operands.len() > 0 {
            let mut out: Vec<char> = Vec::new();
            push_str(&mut out, self.expected_operands[0].as_string().as_str());
            push_str(&mut out, " was expected, was not provided.");
            assert(out@ =~= not_provided_message(self.expected_operands@[0]));
            let msg = string_of(&out);
            let head = self.curr_ins_token.clone();
            self.complain(CODE_DIR_WRONG_OPERAND, ErrorType::OperandError, &head, msg.as_str());
        }
        let again = match directive {
            Directive::ORIG => self.origin_encountered,
            _ => false,
        };
        if again {
            self.complain(
                CODE_NO_ORIG,
                ErrorType::LogicalError,
                token,
                MSG_ORIG_AGAIN,
            );
        }
        if self.is_end(directive) {
            self.end_encountered = true;
        }
        match directive {
            Directive::ORIG => {
                self.origin_encountered = true;
            },
            _ => {},
        }
        self.curr_ins_token = token.clone();
        self.expected_operands = directive.get_expected_operands();
        self.move_memory_location_directive(directive);
    }

    /// Feeds the pass a label: see `Pass::on_label`.
    pub fn handle_label(&mut self, token: &Token, label: &String)
        ensures
            final(self).pass() == old(self).pass().on_label(token@, label@),
    {
        if self.expected_operands.len() == 0 {
            if token.line_num == self.curr_ins_token.line_num {
                self.complain(
                    CODE_EXPECTED_NOTHING_RECEIVED_LABEL,
                    ErrorType::OperandError,
                    token,
                    MSG_EXPECTED_NOTHING_RECEIVED_LABEL,
                );
                return ;
            }
            self.define_label(label.clone(), token.clone());
            return ;
        }
        let expected = self.take_operand();
        match expected {
            OperandType::Label => {
                let width = self.head_width();
                let found = LabelUse {
                    token: token.clone(),
                    address: self.memory_location,
                    width: width,
                };
                self.used_labels.push(found);
                assert(self.used_labels.deep_view() =~= old(self).used_labels.deep_view().push(
                    found@,
                ));
            },
            _ => {
                let msg = operand_message(expected, RECEIVED_LABEL);
                self.complain(
                    CODE_RECEIVED_UNEXPECTED_LABEL,
                    ErrorType::OperandError,
                    token,
                    msg.as_str(),
                );
            },
        }
    }

    /// Feeds the pass a number: see `Pass::on_number`.
    pub fn handle_number(&mut self, token: &Token, number: &i16)
        ensures
            final(self).pass() == old(self).pass().on_number(token@, *number),
    {
        if self.expected_operands.len() == 0 {
            self.complain(
                CODE_EXPECTED_NOTHING_RECEIVED_NUMBER,
                ErrorType::OperandError,
                token,
                MSG_EXPECTED_NOTHING_RECEIVED_NUMBER,
            );
            return ;
        }
        let expected: OperandType = self.take_operand();
        match expected {
            OperandType::Imm | OperandType::RegOrImm => {
                self.verify_immediate_value_in_range(token, *number);
                if self.in_blkw_directive {
                    self.in_blkw_directive = false;
                    let count: usize = if *number > 0 {
                        *number as usize
                    } else {
                        0
                    };
                    self.add_words(count, token);
                }
            },
            _ => {
                let msg = operand_message(expected, RECEIVED_NUMBER);
                self.complain(
                    CODE_RECEIVED_UNEXPECTED_NUMBER,
                    ErrorType::OperandError,
                    token,
                    msg.as_str(),
                );
            },
        }
    }

    /// Feeds the pass a register: see `Pass::on_register`.
    pub fn handle_register(&mut self, token: &Token)
        ensures
            final(self).pass() == old(self).pass().on_register(token@),
    {
        if self.expected_operands.len() == 0 {
            self.complain(
                CODE_EXPECTED_NOTHING_RECEIVED_REGISTER,
                ErrorType::OperandError,
                token,
                MSG_EXPECTED_NOTHING_RECEIVED_REGISTER,
            );
            return ;
        }
        let expected = self.take_operand();
        match expected {
            OperandType::Reg | OperandType::RegOrImm => {},
            _ => {
                let msg = operand_message(expected, RECEIVED_REGISTER);
                self.complain(
                    CODE_RECEIVED_UNEXPECTED_REGISTER,
                    ErrorType::OperandError,
                    token,
                    msg.as_str(),
                );
            },
        }
    }

    /// Feeds the pass a string: see `Pass::on_string`.
    pub fn handle_string(&mut self, token: &Token, string: &String)
        ensures
            final(self).pass() == old(self).pass().on_string(token@, string@),
    {
        if self.expected_operands.len() == 0 {
            self.complain(
                CODE_EXPECTED_NOTHING_RECEIVED_STRING,
                ErrorType::OperandError,
                token,
                MSG_EXPECTED_NOTHING_RECEIVED_STRING,
            );
            return ;
        }
        let expected = self.take_operand();
        match expected {
            OperandType::String => {
                let length = chars_of(string.as_str()).len();
                let words = if self.nul_terminated {
                    length + 1
                } else {
                    length
                };
                self.add_words(words, token);
            },
            _ => {
                let msg = operand_message(expected, RECEIVED_STRING);
                self.complain(
                    CODE_RECEIVED_UNEXPECTED_STRING,
                    ErrorType::OperandError,
                    token,
                    msg.as_str(),
                );
            },
        }
    }

    /// Whether there are no tokens at all, which is reported.
    pub fn tokens_is_empty(&mut self, tokens: &Vec<Token>) -> (empty: bool)
        ensures
            empty == (tokens@.len() == 0),
            final(self).pass() == old(self).pass().with_report_if(
                empty,
                saying(
                    line_report(CODE_FILE_EMPTY@, ErrorType::LogicalError, old(self).pass().file, 0),
                    MSG_FILE_EMPTY@,
                ),
            ),
    {
        if tokens.len() == 0 {
            self.complain_line(
                CODE_FILE_EMPTY,
                ErrorType::LogicalError,
                0,
                MSG_FILE_EMPTY,
            );
            return true;
        }
        false
    }

    /// Looks at the top of the tokens: the first must be `.ORIG`, and the
    /// number after it gives the address of the first word.
    pub fn handle_orig(&mut self, tokens: &Vec<Token>)
        requires
            tokens@.len() > 0,
        ensures
            final(self).pass() == topped(old(self).pass(), tokens.deep_view()),
    {
        if !self.orig_at_top(tokens) {
            self.complain(
                CODE_NO_ORIG,
                ErrorType::LogicalError,
                &tokens[0],
                MSG_NO_ORIG,
            );
            return ;
        } else if tokens.len() > 1 {
            self.set_memory_orig(tokens);
        } else {
            self.complain_line(
                CODE_FILE_NOT_VALID,
                ErrorType::LogicalError,
                tokens[0].line_num,
                MSG_FILE_NOT_VALID,
            )
        }
    }

    /// Whether the first token is `.ORIG`.
    pub fn orig_at_top(&self, tokens: &Vec<Token>) -> (b: bool)
        requires
            tokens@.len() > 0,
        ensures
            b == (tokens.deep_view()[0].kind == TokenKind::Directive(Directive::ORIG)),
    {
        match &tokens[0].inner_token {
            TokenType::Directive(directive) => {
                match directive {
                    Directive::ORIG => true,
                    _ => false,
                }
            },
            _ => false,
        }
    }

    /// Takes the address of the first word from the second token, when that
    /// is a number.
    pub fn set_memory_orig(&mut self, tokens: &Vec<Token>)
        requires
            tokens@.len() > 1,
        ensures
            final(self).pass() == (match tokens.deep_view()[1].kind {
                TokenKind::Number(n) => Pass { pc: origin_of(n), ..old(self).pass() },
                _ => old(self).pass(),
            }),
    {
        match tokens[1].inner_token {
            TokenType::Number(location) => {
                self.memory_location = if location < 0 {
                    (location as i32) + 0x10000
                } else {
                    location as i32
                };
            },
            _ => {},
        }
    }

    /// Whether `directive` is `.END`.
    pub fn is_end(&self, directive: &Directive) -> (b: bool)
        ensures
            b == (*directive == Directive::END),
    {
        match directive {
            Directive::END => true,
            _ => false,
        }
    }

    /// The words a directive takes by itself: one for `.FILL`. `.BLKW` only
    /// notes that its count is still to come.
    pub fn move_memory_location_directive(&mut self, directive: &Directive)
        ensures
            final(self).pass() == ({
                let noted = Pass { in_blkw: *directive == Directive::BLKW, ..old(self).pass() };
                if *directive == Directive::FILL {
                    noted.with_words(1, old(self).pass().head)
                } else {
                    noted
                }
            }),
    {
        match directive {
            Directive::FILL => {
                self.in_blkw_directive = false;
                let head = self.curr_ins_token.clone();
                self.add_words(1, &head);
            },
            Directive::BLKW => {
                self.in_blkw_directive = true;
            },
            _ => {
                self.in_blkw_directive = false;
            },
        }
    }

    /// Defines `label` at the current address; a label that is defined
    /// already is reported and stays as it was.
    pub fn define_label(&mut self, label: String, token: Token)
        ensures
            final(self).pass() == (if old(self).pass().symbols.contains_key(label@) {
                old(self).pass().with_report(
                    saying(
                        report(
                            CODE_REDEFINED_LABEL@,
                            ErrorType::LabelError,
                            old(self).pass().file,
                            token@,
                        ),
                        redefined_message(old(self).pass().symbols[label@].1.line_num),
                    ),
                )
            } else {
                Pass {
                    symbols: old(self).pass().symbols.insert(
                        label@,
                        (old(self).pass().pc, token@),
                    ),
                    ..old(self).pass()
                }
            }),
    {
        let line = match self.symbol_table.get(label.as_str()) {
            Some(other) => Some(other.1.line_num),
            None => None,
        };
        match line {
            Some(line_num) => {
                let mut out: Vec<char> = Vec::new();
                push_str(
                    &mut out,
                    "attempted to redefine a label that was already defined on line ",
                );
                push_decimal(&mut out, line_num as u64);
                assert(out@ =~= redefined_message(line_num as int));
                let msg = string_of(&out);
                self.complain(CODE_REDEFINED_LABEL, ErrorType::LabelError, &token, msg.as_str());
            },
            None => {
                self.symbol_table.insert(label, (self.memory_location, token));
            },
        }
    }

    /// The width of the field that an operand of the head goes into.
    fn head_width(&self) -> (width: i32)
        ensures
            width == head_width(self.curr_ins_token@),
            width == 5 || width == 6 || width == 9 || width == 11 || width == 16,
    {
        match &self.curr_ins_token.inner_token {
            TokenType::Instruction(opcode_ins) => match opcode_ins.get_immediate_value_width() {
                Some(w) => w,
                None => ARCH_LIMIT,
            },
            _ => ARCH_LIMIT,
        }
    }

    /// Whether use `i` is the last use of its label.
    fn last_use(&self, i: usize) -> (last: bool)
        requires
            i < self.used_labels@.len(),
        ensures
            last == is_last_use(self.used_labels.deep_view(), i as int),
    {
        let count = self.used_labels.len();
        let name = chars_of(name_of(&self.used_labels[i].token).as_str());
        let ghost used = self.used_labels.deep_view();
        assert(used[i as int] == self.used_labels@[i as int]@);
        let mut j: usize = i + 1;
        while j < count
            invariant
                i < j <= count,
                count == self.used_labels@.len(),
                used == self.used_labels.deep_view(),
                name@ == label_name(used[i as int].token),
                forall|k: int| i < k < j ==> label_name(#[trigger] used[k].token) != name@,
            decreases count - j,
        {
            assert(used[j as int] == self.used_labels@[j as int]@);
            if chars_eq(&name, name_of(&self.used_labels[j].token).as_str()) {
                assert(label_name(used[j as int].token) == label_name(used[i as int].token));
                return false;
            }
            j += 1;
        }
        true
    }

    /// Reports every label that is used and never defined, once, at its last
    /// use.
    fn verify_all_used_labels_defined(&mut self)
        ensures
            final(self).pass() == (Pass {
                reports: old(self).pass().reports + undefined_reports(
                    old(self).pass().used,
                    old(self).pass().symbols,
                    old(self).pass().file,
                    old(self).pass().used.len() as int,
                ),
                ..old(self).pass()
            }),
    {
        let ghost before = self.pass();
        let mut i: usize = 0;
        assert(before.reports + undefined_reports(before.used, before.symbols, before.file, 0)
            =~= before.reports);
        while i < self.used_labels.len()
            invariant
                i <= self.used_labels@.len(),
                self.pass() == (Pass {
                    reports: before.reports + undefined_reports(
                        before.used,
                        before.symbols,
                        before.file,
                        i as int,
                    ),
                    ..before
                }),
            decreases self.used_labels@.len() - i,
        {
            let name = name_of(&self.used_labels[i].token);
            assert(self.used_labels.deep_view()[i as int] == self.used_labels@[i as int]@);
            if !self.symbol_table.contains_key(name.as_str()) && self.last_use(i) {
                let token = self.used_labels[i].token.clone();
                let mut out: Vec<char> = Vec::new();
                push_str(&mut out, "the label `");
                push_str(&mut out, name.as_str());
                push_str(&mut out, "` was never defined within the file.");
                assert(out@ =~= undefined_message(name@));
                let msg = string_of(&out);
                let ghost so_far = undefined_reports(
                    before.used,
                    before.symbols,
                    before.file,
                    i as int,
                );
                self.complain(
                    CODE_USED_UNDEFINED_LABEL,
                    ErrorType::LabelError,
                    &token,
                    msg.as_str(),
                );
                let ghost found = saying(
                    report(
                        CODE_USED_UNDEFINED_LABEL@,
                        ErrorType::LabelError,
                        before.file,
                        token@,
                    ),
                    undefined_message(name@),
                );
                assert((before.reports + so_far).push(found) =~= before.reports + so_far.push(
                    found,
                ));
            }
            i += 1;
        }
    }

    /// Reports every use of a defined label that is too far from it for the
    /// offset field of its instruction.
    fn verify_label_distances(&mut self)
        ensures
            final(self).pass() == (Pass {
                reports: old(self).pass().reports + distance_reports(
                    old(self).pass().used,
                    old(self).pass().symbols,
                    old(self).pass().file,
                    old(self).pass().used.len() as int,
                ),
                ..old(self).pass()
            }),
    {
        let ghost before = self.pass();
        let mut i: usize = 0;
        assert(before.reports + distance_reports(before.used, before.symbols, before.file, 0)
            =~= before.reports);
        while i < self.used_labels.len()
            invariant
                i <= self.used_labels@.len(),
                self.pass() == (Pass {
                    reports: before.reports + distance_reports(
                        before.used,
                        before.symbols,
                        before.file,
                        i as int,
                    ),
                    ..before
                }),
            decreases self.used_labels@.len() - i,
        {
            let name = name_of(&self.used_labels[i].token);
            let width = self.used_labels[i].width;
            let from = self.used_labels[i].address;
            assert(self.used_labels.deep_view()[i as int] == self.used_labels@[i as int]@);
            match self.symbol_table.address_of(name.as_str()) {
                Some(target) => {
                    let distance: i64 = (target as i64) - (from as i64);
                    if !Self::in_range(distance, width) {
                        let token = self.used_labels[i].token.clone();
                        let mut out: Vec<char> = Vec::new();
                        push_str(&mut out, "the label `");
                        push_str(&mut out, name.as_str());
                        push_str(&mut out, "` is ");
                        push_signed_decimal(&mut out, distance);
                        push_str(&mut out, " words away, which does not fit the ");
                        push_signed_decimal(&mut out, width as i64);
                        push_str(&mut out, "-bit offset of the instruction.");
                        assert(out@ =~= distance_message(name@, distance as int, width as int));
                        let msg = string_of(&out);
                        let ghost so_far = distance_reports(
                            before.used,
                            before.symbols,
                            before.file,
                            i as int,
                        );
                        self.complain(
                            CODE_NUMBER_OUT_OF_BOUNDS,
                            ErrorType::BoundError,
                            &token,
                            msg.as_str(),
                        );
                        let ghost found = saying(
                            report(
                                CODE_NUMBER_OUT_OF_BOUNDS@,
                                ErrorType::BoundError,
                                before.file,
                                token@,
                            ),
                            distance_message(name@, distance as int, width as int),
                        );
                        assert((before.reports + so_far).push(found) =~= before.reports
                            + so_far.push(found));
                    }
                },
                None => {},
            }
            i += 1;
        }
    }

    /// Whether `n` can be written in `width` bits in two's complement.
    fn in_range(n: i64, width: i32) -> (b: bool)
        requires
            -0x2_0000_0000 <= n <= 0x2_0000_0000,
        ensures
            b == fits(n as int, width as int),
    {
        if width < 1 {
            return false;
        }
        if width > 40 {
            proof {
                two_to_grows(39, (width - 1) as nat);
                two_to_39();
            }
            return true;
        }
        let (lower, upper) = Self::range_of(width);
        lower <= n && n <= upper
    }

    /// The least and the greatest number of `width` bits in two's
    /// complement.
    fn range_of(width: i32) -> (range: (i64, i64))
        requires
            1 <= width <= 40,
        ensures
            range.0 == -two_to((width - 1) as nat),
            range.1 == two_to((width - 1) as nat) - 1,
    {
        let mut power: i64 = 1;
        let mut e: i32 = 0;
        proof {
            two_to_39();
            two_to_30();
        }
        while e < width - 1
            invariant
                0 <= e <= width - 1 <= 39,
                power == two_to(e as nat),
                1 <= power,
                two_to(39) == 0x80_0000_0000,
                two_to(30) == 0x4000_0000,
            decreases width - 1 - e,
        {
            proof {
                two_to_grows((e + 1) as nat, 39);
            }
            power = power * 2;
            e += 1;
        }
        (-power, power - 1)
    }

    /// Checks that `number` fits the field of the head it goes into.
    fn verify_immediate_value_in_range(&mut self, value: &Token, number: i16)
        ensures
            final(self).pass() == old(self).pass().with_report_if(
                !fits(number as int, head_width(old(self).pass().head)),
                saying(
                    report(
                        CODE_NUMBER_OUT_OF_BOUNDS@,
                        ErrorType::BoundError,
                        old(self).pass().file,
                        value@,
                    ),
                    bounds_message(
                        value@.original_match,
                        number as int,
                        old(self).pass().head.original_match,
                        head_width(old(self).pass().head),
                    ),
                ),
            ),
    {
        let width = self.head_width();
        let number = number as i32;
        let (lower, upper) = self.get_twos_complement_range(width);
        if number < lower || number > upper {
            let mut out: Vec<char> = Vec::new();
            push_str(&mut out, "the number `");
            push_str(&mut out, value.original_match.as_str());
            push_str(&mut out, "` (or `");
            push_signed_decimal(&mut out, number as i64);
            push_str(&mut out, "`) is out of the bounds of `");
            push_str(&mut out, self.curr_ins_token.original_match.as_str());
            push_str(&mut out, "`, which takes a(n) ");
            push_signed_decimal(&mut out, width as i64);
            push_str(
                &mut out,
                "-bit immediate value. Therefore, the accepted range is `[",
            );
            push_signed_decimal(&mut out, lower as i64);
            push_str(&mut out, ", ");
            push_signed_decimal(&mut out, upper as i64);
            push_str(
                &mut out,
                "]`\n        REMEMBER: The LC-3 takes only accepts 2's complement values as immediate values.",
            );
            assert(out@ =~= bounds_message(
                value@.original_match,
                number as int,
                self.curr_ins_token@.original_match,
                width as int,
            ));
            let msg = string_of(&out);
            self.complain(
                CODE_NUMBER_OUT_OF_BOUNDS,
                ErrorType::BoundError,
                value,
                msg.as_str(),
            );
        }
    }

    /// The least and the greatest number that `width` bits hold in two's
    /// complement.
    pub fn get_twos_complement_range(&self, width: i32) -> (range: (i32, i32))
        requires
            1 <= width <= 31,
        ensures
            range.0 == -two_to((width - 1) as nat),
            range.1 == two_to((width - 1) as nat) - 1,
    {
        let mut power: i32 = 1;
        let mut e: i32 = 0;
        proof {
            two_to_30();
        }
        while e < width - 1
            invariant
                0 <= e <= width - 1 <= 30,
                power == two_to(e as nat),
                1 <= power,
                two_to(30) == 0x4000_0000,
            decreases width - 1 - e,
        {
            proof {
                two_to_grows((e + 1) as nat, 30);
            }
            power = power * 2;
            e += 1;
        }
        (-power, power - 1)
    }
}

pub proof fn two_to_grows(a: nat, b: nat)
    requires
        a <= b,
    ensures
        1 <= two_to(a) <= two_to(b),
    decreases b,
{
    if a < b {
        two_to_grows(a, (b - 1) as nat);
    } else if a > 0 {
        two_to_grows((a - 1) as nat, (a - 1) as nat);
    }
}

pub proof fn two_to_30()
    ensures
        two_to(30) == 0x4000_0000,
{
    reveal_with_fuel(two_to, 31);
}

pub proof fn two_to_39()
    ensures
        two_to(39) == 0x80_0000_0000,
{
    two_to_30();
    reveal_with_fuel(two_to, 10);
}

} // verus!
