//! The line screen: a first look at each source line, and the shapes of the
//! words a line is made of, all written as regular expressions.
use super::asm_error::{AsmError, AsmErrorView, ErrorType};
use crate::text::{chars_of, lines, split_lines, split_lines_nonempty, string_of};
use regex::Regex;
use vstd::prelude::*;

verus! {

/// `regex::Regex`: a compiled regular expression. Nothing is known of what
/// is inside it.
#[verifier::external_type_specification]
#[verifier::external_body]
pub struct ExRegex(regex::Regex);

/// `regex::Error`: why a pattern was refused. Nothing is known of what is
/// inside it.
#[verifier::external_type_specification]
#[verifier::external_body]
pub struct ExRegexError(regex::Error);

/// The pattern text a compiled regular expression was built from: what
/// `Regex::as_str` returns.
pub uninterp spec fn regex_pattern(re: Regex) -> Seq<char>;

/// Whether the compiled expression `re` matches somewhere in `text`: what
/// `Regex::is_match` returns.
pub uninterp spec fn regex_matches(re: Regex, text: Seq<char>) -> bool;

/// Whether an expression that `Regex::new` has compiled from `pattern`
/// matches somewhere in `text`.
pub uninterp spec fn pattern_matches(pattern: Seq<char>, text: Seq<char>) -> bool;

/// Whether `Regex::new` accepts `pattern` on a machine whose `usize` has
/// `word_bits` bits. The engine refuses a pattern that is not well formed,
/// and one whose compiled program is larger than its size limit; that size is
/// counted in bytes, and so depends on the width of the machine's words.
pub uninterp spec fn pattern_compiles(pattern: Seq<char>, word_bits: nat) -> bool;

/// `Regex::new` compiles a pattern with the engine's default options, or
/// refuses it; which of the two depends on the pattern and on the width of
/// the machine's words alone. A compiled expression remembers the pattern it
/// was given, and what it matches depends on that pattern alone.
pub assume_specification[ Regex::new ](re: &str) -> (r: Result<Regex, regex::Error>)
    ensures
        r is Ok <==> pattern_compiles(re@, usize::BITS as nat),
        r matches Ok(compiled) ==> regex_pattern(compiled) == re@,
        r matches Ok(compiled) ==> forall|text: Seq<char>| #[trigger]
            regex_matches(compiled, text) == pattern_matches(re@, text),
;

/// `Regex::is_match` says whether the expression matches anywhere in the
/// haystack; for one expression, the answer depends on the haystack alone.
pub assume_specification[ Regex::is_match ](re: &Regex, haystack: &str) -> (b: bool)
    ensures
        b == regex_matches(*re, haystack@),
;

/// `re` is what `Regex::new` makes of `pattern`: it remembers the pattern and
/// matches what the pattern matches.
pub open spec fn compiled_from(re: Regex, pattern: Seq<char>) -> bool {
    &&& regex_pattern(re) == pattern
    &&& forall|text: Seq<char>| #[trigger]
        regex_matches(re, text) == pattern_matches(pattern, text)
}

/// `Regex::new` accepts `pattern` on this machine.
pub open spec fn compiles_here(pattern: Seq<char>) -> bool {
    pattern_compiles(pattern, usize::BITS as nat)
}

pub const CODE_SYNTAX_ERROR: &'static str = "SX000";

pub const SYNTAX_ERROR_HINT: &'static str =
    "The line provided was not syntactically valid. HINT: Check operands, extra commas, immediate values";

pub const INSTRUCTION_LINE: &'static str =
    r#"^\s*([A-Za-z_][A-Za-z0-9_]*\s)?\s*([A-Za-z]+)(\s+((((r|R)[0-7])|([A-Za-z_][A-Za-z0-9_]*)|(((x|X)[0-9A-Fa-f]+)|#[-]?[0-9]+))(\s*,\s*((((r|R)[0-7])|([A-Za-z_][A-Za-z0-9_]*)|(((x|X)[0-9A-Fa-f]+)|#[-]?[0-9]+)))(\s*,\s*((((r|R)[0-7])|([A-Za-z_][A-Za-z0-9_]*)|(((x|X)[0-9A-Fa-f]+)|#[-]?[0-9]+))))?)?)?)?\s*(;.*)?$"#;

pub const DIRECTIVE_LINE: &'static str =
    r#"^\s*([A-Za-z_][A-Za-z0-9_]*\s)?\s*([.][A-Za-z]+)\s*(\s((r|R)[0-7])|([A-Za-z_][A-Za-z0-9_]*)|(".*")|(((x|X)[0-9A-Fa-f]+)|#[-]?[0-9]+))?\s*(;.*)?$"#;

pub const IGNORE_LINE: &'static str = r#"^(\s)*(;.*)?$"#;

pub const INSTRUCTION_NAME: &'static str =
    r#"^((BR[N]?[Z]?[P]?)|ADD|AND|JMP|JSR|JSRR|LD|LDI|LDR|LEA|NOT|RET|RTI|ST|STI|STR|GETC|OUT|PUTS|IN|HALT)$"#;

pub const DIRECTIVE_NAME: &'static str = r#"[.](ORIG|FILL|BLKW|STRINGZ|END)$"#;

pub const REGISTER: &'static str = r#"^(R|r)[0-7]$"#;

pub const LABEL: &'static str = r#"^[A-Za-z_][A-Za-z0-9_]*$"#;

pub const IMMEDIATE: &'static str = r##"^(([#][-]?[0-9]+)|([xX][0-9A-Fa-f]+))$"##;

pub const STRING_WHOLE: &'static str = r#"^["].*["]$"#;

pub const STRING_START: &'static str = r#"^["].*"#;

pub const STRING_END: &'static str = r#".*["]$"#;

/// The screen's verdict on one line: it passes when it reads as an
/// instruction line, as a directive line, or as a line to ignore.
pub open spec fn line_accepted(line: Seq<char>) -> bool {
    ||| pattern_matches(INSTRUCTION_LINE@, line)
    ||| pattern_matches(DIRECTIVE_LINE@, line)
    ||| pattern_matches(IGNORE_LINE@, line)
}

/// The diagnostic for line `line_num`, which the screen rejected.
pub open spec fn rejected_line(line: Seq<char>, line_num: nat) -> AsmErrorView {
    AsmErrorView {
        code: CODE_SYNTAX_ERROR@,
        line_content: line,
        line_num: line_num,
        from_to: None,
        err_type: ErrorType::SyntaxError,
        msg: SYNTAX_ERROR_HINT@,
    }
}

/// The diagnostics of the screen for a file given as its lines: one for each
/// rejected line, in the order of the lines, each with the line's number.
pub open spec fn screen_errors(lines: Seq<Seq<char>>) -> Seq<AsmErrorView>
    decreases lines.len(),
{
    if lines.len() == 0 {
        Seq::empty()
    } else {
        let before = screen_errors(lines.drop_last());
        if line_accepted(lines.last()) {
            before
        } else {
            before.push(rejected_line(lines.last(), lines.len()))
        }
    }
}

/// The regular expressions of the screen, compiled once.
#[allow(dead_code)]
pub struct SyntaxChecker {
    instruction_line: Regex,
    directive_line: Regex,
    ignore_line: Regex,
    instruction_name: Regex,
    directive_name: Regex,
    register: Regex,
    label: Regex,
    imm: Regex,
    string_whole: Regex,
    string_start: Regex,
    string_end: Regex,
}

#[allow(dead_code)]
impl SyntaxChecker {
    #[verifier::type_invariant]
    spec fn compiled_from_the_patterns(&self) -> bool {
        &&& compiled_from(self.instruction_line, INSTRUCTION_LINE@)
        &&& compiled_from(self.directive_line, DIRECTIVE_LINE@)
        &&& compiled_from(self.ignore_line, IGNORE_LINE@)
        &&& compiled_from(self.instruction_name, INSTRUCTION_NAME@)
        &&& compiled_from(self.directive_name, DIRECTIVE_NAME@)
        &&& compiled_from(self.register, REGISTER@)
        &&& compiled_from(self.label, LABEL@)
        &&& compiled_from(self.imm, IMMEDIATE@)
        &&& compiled_from(self.string_whole, STRING_WHOLE@)
        &&& compiled_from(self.string_start, STRING_START@)
        &&& compiled_from(self.string_end, STRING_END@)
    }

    /// Compiles the patterns of the screen. There is a checker when the
    /// regular expression engine accepts every one of them, and none when it
    /// refuses one.
    pub fn new() -> (checker: Option<SyntaxChecker>)
        ensures
            checker is Some <==> screen_compiles(),
            checker matches Some(c) ==> patterns_of(c.compiled()) == screen_patterns(),
    {
        let checker = Self::from_compiled(
            Regex::new(INSTRUCTION_LINE),
            Regex::new(DIRECTIVE_LINE),
            Regex::new(IGNORE_LINE),
            Regex::new(INSTRUCTION_NAME),
            Regex::new(DIRECTIVE_NAME),
            Regex::new(REGISTER),
            Regex::new(LABEL),
            Regex::new(IMMEDIATE),
            Regex::new(STRING_WHOLE),
            Regex::new(STRING_START),
            Regex::new(STRING_END),
        );
        proof {
            let patterns = screen_patterns();
            assert(patterns[0] == INSTRUCTION_LINE@);
            assert(patterns[1] == DIRECTIVE_LINE@);
            assert(patterns[2] == IGNORE_LINE@);
            assert(patterns[3] == INSTRUCTION_NAME@);
            assert(patterns[4] == DIRECTIVE_NAME@);
            assert(patterns[5] == REGISTER@);
            assert(patterns[6] == LABEL@);
            assert(patterns[7] == IMMEDIATE@);
            assert(patterns[8] == STRING_WHOLE@);
            assert(patterns[9] == STRING_START@);
            assert(patterns[10] == STRING_END@);
            if checker is Some {
                assert(patterns_of(checker->Some_0.compiled()) =~= screen_patterns());
                assert forall|i: int| 0 <= i < patterns.len() implies compiles_here(
                    #[trigger] patterns[i],
                ) by {
                    assert(0 <= i < 11);
                }
            }
        }
        checker
    }

    /// The eleven compiled expressions that the checker holds, in the order
    /// of `screen_patterns`.
    pub closed spec fn compiled(&self) -> Seq<Regex> {
        seq![
            self.instruction_line,
            self.directive_line,
            self.ignore_line,
            self.instruction_name,
            self.directive_name,
            self.register,
            self.label,
            self.imm,
            self.string_whole,
            self.string_start,
            self.string_end,
        ]
    }

    /// The checker made of what compiling the eleven patterns gave, in the
    /// order of `screen_patterns`: there is one when every pattern was
    /// compiled, and it holds the compiled expressions; there is none when a
    /// pattern was refused.
    pub fn from_compiled(
        instruction_line: Result<Regex, regex::Error>,
        directive_line: Result<Regex, regex::Error>,
        ignore_line: Result<Regex, regex::Error>,
        instruction_name: Result<Regex, regex::Error>,
        directive_name: Result<Regex, regex::Error>,
        register: Result<Regex, regex::Error>,
        label: Result<Regex, regex::Error>,
        imm: Result<Regex, regex::Error>,
        string_whole: Result<Regex, regex::Error>,
        string_start: Result<Regex, regex::Error>,
        string_end: Result<Regex, regex::Error>,
    ) -> (checker: Option<SyntaxChecker>)
        requires
            instruction_line matches Ok(re) ==> compiled_from(re, INSTRUCTION_LINE@),
            directive_line matches Ok(re) ==> compiled_from(re, DIRECTIVE_LINE@),
            ignore_line matches Ok(re) ==> compiled_from(re, IGNORE_LINE@),
            instruction_name matches Ok(re) ==> compiled_from(re, INSTRUCTION_NAME@),
            directive_name matches Ok(re) ==> compiled_from(re, DIRECTIVE_NAME@),
            register matches Ok(re) ==> compiled_from(re, REGISTER@),
            label matches Ok(re) ==> compiled_from(re, LABEL@),
            imm matches Ok(re) ==> compiled_from(re, IMMEDIATE@),
            string_whole matches Ok(re) ==> compiled_from(re, STRING_WHOLE@),
            string_start matches Ok(re) ==> compiled_from(re, STRING_START@),
            string_end matches Ok(re) ==> compiled_from(re, STRING_END@),
        ensures
            checker is Some <==> {
                &&& instruction_line is Ok
                &&& directive_line is Ok
                &&& ignore_line is Ok
                &&& instruction_name is Ok
                &&& directive_name is Ok
                &&& register is Ok
                &&& label is Ok
                &&& imm is Ok
                &&& string_whole is Ok
                &&& string_start is Ok
                &&& string_end is Ok
            },
            checker matches Some(c) ==> c.compiled() == seq![
                instruction_line->Ok_0,
                directive_line->Ok_0,
                ignore_line->Ok_0,
                instruction_name->Ok_0,
                directive_name->Ok_0,
                register->Ok_0,
                label->Ok_0,
                imm->Ok_0,
                string_whole->Ok_0,
                string_start->Ok_0,
                string_end->Ok_0,
            ],
    {
        let instruction_line = match instruction_line {
            Ok(re) => re,
            Err(_) => return None,
        };
        let directive_line = match directive_line {
            Ok(re) => re,
            Err(_) => return None,
        };
        let ignore_line = match ignore_line {
            Ok(re) => re,
            Err(_) => return None,
        };
        let instruction_name = match instruction_name {
            Ok(re) => re,
            Err(_) => return None,
        };
        let directive_name = match directive_name {
            Ok(re) => re,
            Err(_) => return None,
        };
        let register = match register {
            Ok(re) => re,
            Err(_) => return None,
        };
        let label = match label {
            Ok(re) => re,
            Err(_) => return None,
        };
        let imm = match imm {
            Ok(re) => re,
            Err(_) => return None,
        };
        let string_whole = match string_whole {
            Ok(re) => re,
            Err(_) => return None,
        };
        let string_start = match string_start {
            Ok(re) => re,
            Err(_) => return None,
        };
        let string_end = match string_end {
            Ok(re) => re,
            Err(_) => return None,
        };
        let checker = SyntaxChecker {
            instruction_line,
            directive_line,
            ignore_line,
            instruction_name,
            directive_name,
            register,
            label,
            imm,
            string_whole,
            string_start,
            string_end,
        };
        assert(checker.compiled() =~= seq![
            instruction_line,
            directive_line,
            ignore_line,
            instruction_name,
            directive_name,
            register,
            label,
            imm,
            string_whole,
            string_start,
            string_end,
        ]);
        Some(checker)
    }

    /// The diagnostics of the screen for `file`: one `SX000` for each line
    /// that reads neither as an instruction line, nor as a directive line,
    /// nor as a line to ignore.
    pub fn syntax_errors(&self, file: &str) -> (errors: Vec<AsmError>)
        ensures
            errors.deep_view() == screen_errors(lines(file@)),
    {
        let src = chars_of(file);
        let mut errors: Vec<AsmError> = Vec::new();
        let mut line: Vec<char> = Vec::new();
        let mut closed: usize = 0;
        let mut i: usize = 0;
        assert(errors.deep_view() =~= Seq::empty());
        assert(split_lines(src@.subrange(0, 0)).drop_last() =~= Seq::empty());
        while i < src.len()
            invariant
                i <= src.len(),
                src@ == file@,
                closed + line.len() <= i,
                closed + 1 == split_lines(src@.subrange(0, i as int)).len(),
                line@ == split_lines(src@.subrange(0, i as int)).last(),
                errors.deep_view() == screen_errors(
                    split_lines(src@.subrange(0, i as int)).drop_last(),
                ),
            decreases src.len() - i,
        {
            let c = src[i];
            let ghost before = split_lines(src@.subrange(0, i as int));
            let ghost after = split_lines(src@.subrange(0, i + 1));
            proof {
                assert(src@.subrange(0, i + 1).drop_last() == src@.subrange(0, i as int));
                assert(src@.subrange(0, i + 1).last() == c);
                split_lines_nonempty(src@.subrange(0, i as int));
            }
            if c == '\n' {
                proof {
                    assert(after == before.push(Seq::empty()));
                    assert(after.drop_last() == before);
                }
                self.screen_line(&mut errors, &line, closed + 1);
                line = Vec::new();
                closed += 1;
            } else {
                line.push(c);
                proof {
                    assert(after.drop_last() == before.drop_last());
                }
            }
            i += 1;
        }
        proof {
            assert(src@.subrange(0, src.len() as int) == src@);
        }
        if line.len() > 0 {
            let ghost pieces = split_lines(src@);
            assert(pieces.push(Seq::empty()).drop_last() == pieces);
            self.screen_line(&mut errors, &line, closed + 1);
        }
        errors
    }

    /// Checks one line and records a diagnostic when it is rejected.
    fn screen_line(&self, errors: &mut Vec<AsmError>, line: &Vec<char>, line_num: usize)
        ensures
            final(errors).deep_view() == (if line_accepted(line@) {
                old(errors).deep_view()
            } else {
                old(errors).deep_view().push(rejected_line(line@, line_num as nat))
            }),
    {
        let text = string_of(line);
        if self.is_ins(text.as_str()) || self.is_dir(text.as_str()) || self.is_ignore(
            text.as_str(),
        ) {
            return ;
        }
        let error = AsmError::new(
            CODE_SYNTAX_ERROR.to_owned(),
            text.as_str(),
            line_num,
            ErrorType::SyntaxError,
            SYNTAX_ERROR_HINT,
        );
        errors.push(error);
        assert(errors.deep_view() =~= old(errors).deep_view().push(
            rejected_line(line@, line_num as nat),
        ));
    }

    /// Whether every line of `file` passes the screen.
    pub fn is_syntactically_valid_file(&self, file: &str) -> (valid: bool)
        ensures
            valid == (screen_errors(lines(file@)).len() == 0),
    {
        let errors = self.syntax_errors(file);
        errors.len() == 0
    }

    /// Whether `line` reads as an instruction line.
    pub fn is_ins(&self, line: &str) -> (b: bool)
        ensures
            b == pattern_matches(INSTRUCTION_LINE@, line@),
    {
        proof {
            use_type_invariant(self);
        }
        self.instruction_line.is_match(line)
    }

    /// Whether `line` reads as a directive line.
    pub fn is_dir(&self, line: &str) -> (b: bool)
        ensures
            b == pattern_matches(DIRECTIVE_LINE@, line@),
    {
        proof {
            use_type_invariant(self);
        }
        self.directive_line.is_match(line)
    }

    /// Whether `line` holds nothing but blanks and a comment.
    pub fn is_ignore(&self, line: &str) -> (b: bool)
        ensures
            b == pattern_matches(IGNORE_LINE@, line@),
    {
        proof {
            use_type_invariant(self);
        }
        self.ignore_line.is_match(line)
    }

    /// Whether `word` is a mnemonic, in upper case.
    pub fn is_instruction_name(&self, word: &str) -> (b: bool)
        ensures
            b == pattern_matches(INSTRUCTION_NAME@, word@),
    {
        proof {
            use_type_invariant(self);
        }
        self.instruction_name.is_match(word)
    }

    /// Whether `word` ends in the name of a directive, in upper case.
    pub fn is_directive_name(&self, word: &str) -> (b: bool)
        ensures
            b == pattern_matches(DIRECTIVE_NAME@, word@),
    {
        proof {
            use_type_invariant(self);
        }
        self.directive_name.is_match(word)
    }

    /// Whether `word` names a register.
    pub fn is_valid_register(&self, word: &str) -> (b: bool)
        ensures
            b == pattern_matches(REGISTER@, word@),
    {
        proof {
            use_type_invariant(self);
        }
        self.register.is_match(word)
    }

    /// Whether `word` can be a label.
    pub fn is_valid_label(&self, word: &str) -> (b: bool)
        ensures
            b == pattern_matches(LABEL@, word@),
    {
        proof {
            use_type_invariant(self);
        }
        self.label.is_match(word)
    }

    /// Whether `word` is written as an immediate.
    pub fn is_valid_immediate_value(&self, word: &str) -> (b: bool)
        ensures
            b == pattern_matches(IMMEDIATE@, word@),
    {
        proof {
            use_type_invariant(self);
        }
        self.imm.is_match(word)
    }

    /// Whether `word` opens and closes with a double quote.
    pub fn is_valid_string_whole(&self, word: &str) -> (b: bool)
        ensures
            b == pattern_matches(STRING_WHOLE@, word@),
    {
        proof {
            use_type_invariant(self);
        }
        self.string_whole.is_match(word)
    }

    /// Whether `word` opens with a double quote.
    pub fn is_string_start(&self, word: &str) -> (b: bool)
        ensures
            b == pattern_matches(STRING_START@, word@),
    {
        proof {
            use_type_invariant(self);
        }
        self.string_start.is_match(word)
    }

    /// Whether `word` closes with a double quote.
    pub fn is_string_end(&self, word: &str) -> (b: bool)
        ensures
            b == pattern_matches(STRING_END@, word@),
    {
        proof {
            use_type_invariant(self);
        }
        self.string_end.is_match(word)
    }
}

/// The eleven patterns of the screen: three for lines, then those for
/// mnemonics, directive names, registers, labels and immediates, then three
/// for string literals.
pub open spec fn screen_patterns() -> Seq<Seq<char>> {
    seq![
        INSTRUCTION_LINE@,
        DIRECTIVE_LINE@,
        IGNORE_LINE@,
        INSTRUCTION_NAME@,
        DIRECTIVE_NAME@,
        REGISTER@,
        LABEL@,
        IMMEDIATE@,
        STRING_WHOLE@,
        STRING_START@,
        STRING_END@,
    ]
}

/// `Regex::new` accepts every pattern of the screen on this machine.
pub open spec fn screen_compiles() -> bool {
    forall|i: int|
        0 <= i < screen_patterns().len() ==> compiles_here(#[trigger] screen_patterns()[i])
}

/// The patterns that compiled expressions were built from.
pub open spec fn patterns_of(compiled: Seq<Regex>) -> Seq<Seq<char>> {
    Seq::new(compiled.len(), |i: int| regex_pattern(compiled[i]))
}

} // verus!
