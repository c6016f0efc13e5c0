//! What holds of the passes together: a program that every pass accepts has
//! an image, its labels stand at the addresses the image gives them, and
//! every offset in it fits its field.
use super::asm_ins::{immediate_width, operands_of, OpcodeIns, OperandType};
use super::directive::{directive_operands, Directive};
use super::encoder::{
    assembled, field, directive_words, encode_from, image, instruction_word, number_at, offset_at,
    register_at, small_powers,
};
use super::lexer::{categorized, lex, lex_from, shape_of, word_rest_bounds};
use super::semantic::{
    analysis, block_words, closed, distance_reports, fits, head_width, is_last_use, label_name,
    offset_of, opened, origin_of, string_words, two_to, undefined_reports, LabelUseView, Pass,
    MEMORY_WORDS,
};
use super::token::{TokenKind, TokenView};
use crate::vm::instructions::{field_mask, sign_extend};
use vstd::prelude::*;

verus! {

/// A token as the lexer makes them when it has no diagnostic: not an invalid
/// word, a register from R0 to R7, an instruction the machine has, a trap
/// vector of eight bits.
pub open spec fn well_made(t: TokenView) -> bool {
    match t.kind {
        TokenKind::Invalid(_) => false,
        TokenKind::Register(r) => r < 8,
        TokenKind::Instruction(op) => match op {
            OpcodeIns::INVALID | OpcodeIns::Reserved => false,
            OpcodeIns::Trap(vector) => vector < 256,
            _ => true,
        },
        _ => true,
    }
}

pub open spec fn all_well_made(tokens: Seq<TokenView>) -> bool {
    forall|i: int| 0 <= i < tokens.len() ==> well_made(#[trigger] tokens[i])
}

/// The pass after the first `k` tokens.
#[verifier::opaque]
pub open spec fn walked(tokens: Seq<TokenView>, file: Seq<char>, nul: bool, k: int) -> Pass {
    opened(tokens, file, nul).on_tokens(tokens.subrange(0, k))
}

/// The pass has no diagnostic.
pub open spec fn quiet(s: Pass) -> bool {
    s.reports.len() == 0
}

/// One more token is one more step of the pass.
pub proof fn walked_step(tokens: Seq<TokenView>, file: Seq<char>, nul: bool, k: int)
    requires
        0 <= k < tokens.len(),
    ensures
        walked(tokens, file, nul, k + 1) == walked(tokens, file, nul, k).on_token(tokens[k]),
        walked(tokens, file, nul, 0) == opened(tokens, file, nul),
{
    reveal(walked);
    assert(tokens.subrange(0, k + 1).drop_last() == tokens.subrange(0, k));
    assert(tokens.subrange(0, k + 1).last() == tokens[k]);
    assert(tokens.subrange(0, 0) =~= Seq::<TokenView>::empty());
}

/// A step of the pass keeps what was reported and what was used, and the
/// text and the choice about strings; the end and the origin stay seen.
pub proof fn step_keeps(s: Pass, t: TokenView)
    ensures
        s.on_token(t).reports.len() >= s.reports.len(),
        s.on_token(t).used.len() >= s.used.len(),
        forall|m: int| 0 <= m < s.used.len() ==> s.on_token(t).used[m] == s.used[m],
        s.on_token(t).file == s.file,
        s.on_token(t).nul == s.nul,
        s.end_seen ==> s.on_token(t).end_seen,
        s.origin_seen ==> s.on_token(t).origin_seen,
        quiet(s.on_token(t)) && 0 <= s.pc <= MEMORY_WORDS ==> 0 <= s.on_token(t).pc
            <= MEMORY_WORDS,
        forall|name: Seq<char>|
            s.symbols.contains_key(name) ==> #[trigger] s.on_token(t).symbols.contains_key(name)
                && s.on_token(t).symbols[name] == s.symbols[name],
{
}

/// What `step_keeps` says of one step holds from any point of the walk to
/// any later one.
pub proof fn walk_keeps(tokens: Seq<TokenView>, file: Seq<char>, nul: bool, k: int, j: int)
    requires
        0 <= k <= j <= tokens.len(),
    ensures
        walked(tokens, file, nul, j).reports.len() >= walked(tokens, file, nul, k).reports.len(),
        walked(tokens, file, nul, j).used.len() >= walked(tokens, file, nul, k).used.len(),
        forall|m: int|
            0 <= m < walked(tokens, file, nul, k).used.len() ==> walked(tokens, file, nul, j).used[m]
                == walked(tokens, file, nul, k).used[m],
        walked(tokens, file, nul, j).file == walked(tokens, file, nul, k).file,
        walked(tokens, file, nul, j).nul == walked(tokens, file, nul, k).nul,
        walked(tokens, file, nul, k).end_seen ==> walked(tokens, file, nul, j).end_seen,
        walked(tokens, file, nul, k).origin_seen ==> walked(tokens, file, nul, j).origin_seen,
        forall|name: Seq<char>|
            walked(tokens, file, nul, k).symbols.contains_key(name) ==> #[trigger] walked(
                tokens,
                file,
                nul,
                j,
            ).symbols.contains_key(name) && walked(tokens, file, nul, j).symbols[name] == walked(
                tokens,
                file,
                nul,
                k,
            ).symbols[name],
    decreases j - k,
{
    if k < j {
        walk_keeps(tokens, file, nul, k, j - 1);
        walked_step(tokens, file, nul, j - 1);
        step_keeps(walked(tokens, file, nul, j - 1), tokens[j - 1]);
    }
}

/// The walk starts with the text and the choice about strings it was given,
/// at an address in memory, with nothing used and nothing owed. When it
/// starts without a diagnostic, the tokens open with `.ORIG`.
pub proof fn walk_starts(tokens: Seq<TokenView>, file: Seq<char>, nul: bool)
    requires
        tokens.len() > 0,
    ensures
        walked(tokens, file, nul, 0) == opened(tokens, file, nul),
        opened(tokens, file, nul).file == file,
        opened(tokens, file, nul).nul == nul,
        0 <= opened(tokens, file, nul).pc < MEMORY_WORDS,
        opened(tokens, file, nul).used.len() == 0,
        opened(tokens, file, nul).expected.len() == 0,
        !opened(tokens, file, nul).end_seen,
        !opened(tokens, file, nul).origin_seen,
        !opened(tokens, file, nul).in_blkw,
        opened(tokens, file, nul).symbols == Map::<Seq<char>, (int, TokenView)>::empty(),
        quiet(opened(tokens, file, nul)) ==> tokens.len() > 1 && tokens[0].kind
            == TokenKind::Directive(Directive::ORIG),
        quiet(opened(tokens, file, nul)) ==> (match tokens[1].kind {
            TokenKind::Number(n) => opened(tokens, file, nul).pc == origin_of(n),
            _ => opened(tokens, file, nul).pc == 0,
        }),
{
    reveal(walked);
    assert(tokens.subrange(0, 0) =~= Seq::<TokenView>::empty());
}

/// While the walk has no diagnostic, its address stays in memory or just
/// past its end.
pub proof fn walk_stays_in_memory(tokens: Seq<TokenView>, file: Seq<char>, nul: bool, k: int)
    requires
        0 <= k <= tokens.len(),
        tokens.len() > 0,
        quiet(walked(tokens, file, nul, k)),
    ensures
        0 <= walked(tokens, file, nul, k).pc <= MEMORY_WORDS,
    decreases k,
{
    walk_starts(tokens, file, nul);
    if k > 0 {
        walk_keeps(tokens, file, nul, k - 1, k);
        walk_stays_in_memory(tokens, file, nul, k - 1);
        walked_step(tokens, file, nul, k - 1);
        step_keeps(walked(tokens, file, nul, k - 1), tokens[k - 1]);
    }
}

/// The reports for undefined labels only grow with the number of uses
/// looked at.
proof fn undefined_reports_grow(
    used: Seq<LabelUseView>,
    symbols: Map<Seq<char>, (int, TokenView)>,
    file: Seq<char>,
    k: int,
    j: int,
)
    requires
        k <= j,
    ensures
        undefined_reports(used, symbols, file, k).len() <= undefined_reports(
            used,
            symbols,
            file,
            j,
        ).len(),
    decreases j - k,
{
    if k < j {
        undefined_reports_grow(used, symbols, file, k, j - 1);
    }
}

proof fn distance_reports_grow(
    used: Seq<LabelUseView>,
    symbols: Map<Seq<char>, (int, TokenView)>,
    file: Seq<char>,
    k: int,
    j: int,
)
    requires
        k <= j,
    ensures
        distance_reports(used, symbols, file, k).len() <= distance_reports(
            used,
            symbols,
            file,
            j,
        ).len(),
    decreases j - k,
{
    if k < j {
        distance_reports_grow(used, symbols, file, k, j - 1);
    }
}

/// When no undefined label is reported, every label from use `m` on is
/// defined.
proof fn uses_are_defined(
    used: Seq<LabelUseView>,
    symbols: Map<Seq<char>, (int, TokenView)>,
    file: Seq<char>,
    m: int,
)
    requires
        0 <= m <= used.len(),
        undefined_reports(used, symbols, file, used.len() as int).len() == 0,
    ensures
        forall|j: int|
            m <= j < used.len() ==> symbols.contains_key(label_name(#[trigger] used[j].token)),
    decreases used.len() - m,
{
    if m < used.len() {
        uses_are_defined(used, symbols, file, m + 1);
        if !symbols.contains_key(label_name(used[m].token)) {
            assert(is_last_use(used, m)) by {
                assert forall|j: int| m < j < used.len() implies label_name(
                    #[trigger] used[j].token,
                ) != label_name(used[m].token) by {
                    assert(symbols.contains_key(label_name(used[j].token)));
                }
            }
            assert(undefined_reports(used, symbols, file, m + 1).len() >= 1);
            undefined_reports_grow(used, symbols, file, m + 1, used.len() as int);
        }
    }
}

/// When no distance is reported, every defined label is within reach of
/// each of its uses.
proof fn uses_are_near(
    used: Seq<LabelUseView>,
    symbols: Map<Seq<char>, (int, TokenView)>,
    file: Seq<char>,
    m: int,
)
    requires
        0 <= m < used.len(),
        distance_reports(used, symbols, file, used.len() as int).len() == 0,
        symbols.contains_key(label_name(used[m].token)),
    ensures
        fits(offset_of(used[m], symbols), used[m].width),
{
    if !fits(offset_of(used[m], symbols), used[m].width) {
        assert(distance_reports(used, symbols, file, m + 1).len() >= 1);
        distance_reports_grow(used, symbols, file, m + 1, used.len() as int);
    }
}

/// A pass that ends without a diagnostic had none before its last checks,
/// has seen `.END`, and has every label that is used defined and within
/// reach of each use.
pub proof fn quiet_at_the_end(s: Pass)
    requires
        quiet(closed(s)),
    ensures
        quiet(s),
        s.end_seen,
        closed(s).symbols == s.symbols,
        closed(s).used == s.used,
        forall|m: int|
            0 <= m < s.used.len() ==> s.symbols.contains_key(
                label_name(#[trigger] s.used[m].token),
            ) && fits(offset_of(s.used[m], s.symbols), s.used[m].width),
{
    let first = undefined_reports(s.used, s.symbols, s.file, s.used.len() as int);
    let second = distance_reports(s.used, s.symbols, s.file, s.used.len() as int);
    assert((s.reports + first + second).len() == s.reports.len() + first.len() + second.len());
    uses_are_defined(s.used, s.symbols, s.file, 0);
    assert forall|m: int| 0 <= m < s.used.len() implies s.symbols.contains_key(
        label_name(#[trigger] s.used[m].token),
    ) && fits(offset_of(s.used[m], s.symbols), s.used[m].width) by {
        uses_are_near(s.used, s.symbols, s.file, m);
    }
}

/// The tokens of a program that the semantic pass accepts: there are some,
/// they are well made, and the pass has no diagnostic for them.
pub open spec fn accepted(tokens: Seq<TokenView>, file: Seq<char>, nul: bool) -> bool {
    &&& tokens.len() > 0
    &&& all_well_made(tokens)
    &&& quiet(analysis(tokens, file, nul))
}

/// The place of the first `.END` at or after token `k`; the number of tokens
/// when there is none.
pub open spec fn end_index(tokens: Seq<TokenView>, k: int) -> int
    decreases tokens.len() - k,
{
    if k < 0 || k >= tokens.len() {
        tokens.len() as int
    } else if tokens[k].kind == TokenKind::Directive(Directive::END) {
        k
    } else {
        end_index(tokens, k + 1)
    }
}

/// When the pass has no diagnostic for its tokens, the walk has none at any
/// point, and at its end `.END` has been seen.
pub proof fn accepted_walk(tokens: Seq<TokenView>, file: Seq<char>, nul: bool, k: int)
    requires
        tokens.len() > 0,
        quiet(analysis(tokens, file, nul)),
        0 <= k <= tokens.len(),
    ensures
        analysis(tokens, file, nul) == closed(walked(tokens, file, nul, tokens.len() as int)),
        analysis(tokens, file, nul).symbols == walked(
            tokens,
            file,
            nul,
            tokens.len() as int,
        ).symbols,
        quiet(walked(tokens, file, nul, k)),
        0 <= walked(tokens, file, nul, k).pc <= MEMORY_WORDS,
        walked(tokens, file, nul, k).nul == nul,
        walked(tokens, file, nul, tokens.len() as int).end_seen,
        walked(tokens, file, nul, k).end_seen ==> k > 0,
        k >= 1 ==> walked(tokens, file, nul, k).origin_seen,
        tokens.len() > 1,
        tokens[0].kind == TokenKind::Directive(Directive::ORIG),
{
    let n = tokens.len() as int;
    assert(analysis(tokens, file, nul) == closed(walked(tokens, file, nul, n))) by {
        reveal(walked);
        assert(tokens.subrange(0, n) == tokens);
    }
    quiet_at_the_end(walked(tokens, file, nul, n));
    walk_keeps(tokens, file, nul, k, n);
    walk_keeps(tokens, file, nul, 0, k);
    walk_keeps(tokens, file, nul, 0, n);
    walk_starts(tokens, file, nul);
    walk_stays_in_memory(tokens, file, nul, k);
    if k >= 1 {
        walked_step(tokens, file, nul, 0);
        walk_keeps(tokens, file, nul, 1, k);
    }
}

/// A use that the walk has noted is still there at the end, so its label is
/// defined and within reach.
proof fn noted_use_is_sound(tokens: Seq<TokenView>, file: Seq<char>, nul: bool, k: int)
    requires
        accepted(tokens, file, nul),
        0 <= k < tokens.len(),
        walked(tokens, file, nul, k + 1).used.len() == walked(tokens, file, nul, k).used.len() + 1,
    ensures
        ({
            let u = walked(tokens, file, nul, k + 1).used.last();
            let symbols = analysis(tokens, file, nul).symbols;
            symbols.contains_key(label_name(u.token)) && fits(offset_of(u, symbols), u.width)
        }),
{
    let n = tokens.len() as int;
    accepted_walk(tokens, file, nul, k);
    walk_keeps(tokens, file, nul, k + 1, n);
    quiet_at_the_end(walked(tokens, file, nul, n));
    let m = walked(tokens, file, nul, k).used.len() as int;
    assert(walked(tokens, file, nul, n).used[m] == walked(tokens, file, nul, k + 1).used[m]);
}

/// What the next token is when an operand is owed, in an accepted program:
/// it is there, it is of the kind that is owed, and the pass goes on with
/// the operands after it.
pub proof fn next_operand(tokens: Seq<TokenView>, file: Seq<char>, nul: bool, k: int)
    requires
        accepted(tokens, file, nul),
        0 <= k <= tokens.len(),
        walked(tokens, file, nul, k).expected.len() > 0,
        !walked(tokens, file, nul, k).end_seen,
    ensures
        k < tokens.len(),
        ({
            let s = walked(tokens, file, nul, k);
            let next = walked(tokens, file, nul, k + 1);
            let t = tokens[k];
            let symbols = analysis(tokens, file, nul).symbols;
            &&& next.expected == s.expected.subrange(1, s.expected.len() as int)
            &&& next.head == s.head
            &&& !next.end_seen
            &&& !s.in_blkw ==> !next.in_blkw
            &&& match s.expected[0] {
                OperandType::Reg => next.pc == s.pc && register_at(tokens, k) is Some,
                OperandType::RegOrImm => !s.in_blkw ==> (next.pc == s.pc && (register_at(
                    tokens,
                    k,
                ) is Some || number_at(tokens, k, head_width(s.head)) is Some)),
                OperandType::Imm => t.kind is Number && !next.in_blkw && fits(
                    t.kind->Number_0 as int,
                    head_width(s.head),
                ) && next.pc == (if s.in_blkw {
                    s.pc + block_words(t.kind->Number_0)
                } else {
                    s.pc
                }),
                OperandType::Label => next.pc == s.pc && offset_at(
                    tokens,
                    k,
                    symbols,
                    s.pc,
                    head_width(s.head),
                ) is Some,
                OperandType::String => t.kind is String && next.pc == s.pc + string_words(
                    t.kind->String_0,
                    nul,
                ),
            }
        }),
{
    let n = tokens.len() as int;
    accepted_walk(tokens, file, nul, k);
    if k == n {
        assert(false);
    }
    accepted_walk(tokens, file, nul, k + 1);
    walked_step(tokens, file, nul, k);
    let s = walked(tokens, file, nul, k);
    let t = tokens[k];
    assert(well_made(t));
    let next = walked(tokens, file, nul, k + 1);
    assert(next.expected == s.expected.subrange(1, s.expected.len() as int));
    assert(next.head == s.head);
    assert(!next.end_seen);
    if s.expected[0] == OperandType::Label {
        assert(t.kind is Label);
        assert(next.used == s.used.push(
            LabelUseView { token: t, address: s.pc, width: head_width(s.head) },
        ));
        noted_use_is_sound(tokens, file, nul, k);
    } else if s.expected[0] == OperandType::Reg {
        assert(t.kind is Register);
    } else if s.expected[0] == OperandType::Imm {
        assert(t.kind is Number);
    } else if s.expected[0] == OperandType::String {
        assert(t.kind is String);
    } else {
        assert(t.kind is Register || t.kind is Number);
    }
}

/// Where nothing is owed, an accepted program has a label, an instruction
/// or a directive.
proof fn head_kind(tokens: Seq<TokenView>, file: Seq<char>, nul: bool, k: int)
    requires
        accepted(tokens, file, nul),
        1 <= k <= tokens.len(),
        walked(tokens, file, nul, k).expected.len() == 0,
        !walked(tokens, file, nul, k).end_seen,
    ensures
        k < tokens.len(),
        tokens[k].kind is Label || tokens[k].kind is Instruction || tokens[k].kind is Directive,
        tokens[k].kind is Label ==> {
            &&& walked(tokens, file, nul, k + 1).pc == walked(tokens, file, nul, k).pc
            &&& walked(tokens, file, nul, k + 1).expected.len() == 0
            &&& !walked(tokens, file, nul, k + 1).end_seen
            &&& walked(tokens, file, nul, k + 1).symbols.contains_key(label_name(tokens[k]))
            &&& walked(tokens, file, nul, k + 1).symbols[label_name(tokens[k])].0 == walked(
                tokens,
                file,
                nul,
                k,
            ).pc
        },
{
    accepted_walk(tokens, file, nul, k);
    if k == tokens.len() {
        assert(false);
    }
    accepted_walk(tokens, file, nul, k + 1);
    walked_step(tokens, file, nul, k);
    assert(well_made(tokens[k]));
}

/// An instruction of an accepted program has its operands after it, and
/// they give it a word.
proof fn instruction_step(tokens: Seq<TokenView>, file: Seq<char>, nul: bool, k: int)
    requires
        accepted(tokens, file, nul),
        1 <= k < tokens.len(),
        walked(tokens, file, nul, k).expected.len() == 0,
        !walked(tokens, file, nul, k).end_seen,
        tokens[k].kind is Instruction,
    ensures
        ({
            let op = tokens[k].kind->Instruction_0;
            let count = operands_of(op).len() as int;
            let pc = walked(tokens, file, nul, k).pc;
            let after = walked(tokens, file, nul, k + 1 + count);
            &&& k + 1 + count <= tokens.len()
            &&& pc + 1 <= MEMORY_WORDS
            &&& after.pc == pc + 1
            &&& after.expected.len() == 0
            &&& !after.end_seen
            &&& instruction_word(
                tokens,
                k + 1,
                op,
                analysis(tokens, file, nul).symbols,
                pc + 1,
            ) is Some
            &&& end_index(tokens, k) == end_index(tokens, k + 1 + count)
        }),
{
    let symbols = analysis(tokens, file, nul).symbols;
    accepted_walk(tokens, file, nul, k);
    accepted_walk(tokens, file, nul, k + 1);
    walked_step(tokens, file, nul, k);
    let s = walked(tokens, file, nul, k);
    let s1 = walked(tokens, file, nul, k + 1);
    let t = tokens[k];
    let op = t.kind->Instruction_0;
    let pc = s.pc;
    assert(well_made(t));
    assert(s1.pc == pc + 1);
    assert(s1.expected == operands_of(op));
    assert(s1.head == t);
    assert(!s1.end_seen && !s1.in_blkw);
    assert(head_width(t) == (match immediate_width(op) {
        Some(w) => w as int,
        None => 16int,
    }));
    let count = operands_of(op).len() as int;
    assert(count <= 3);
    assert(end_index(tokens, k) == end_index(tokens, k + 1));
    if count >= 1 {
        next_operand(tokens, file, nul, k + 1);
        assert(end_index(tokens, k + 1) == end_index(tokens, k + 2));
    }
    if count >= 2 {
        next_operand(tokens, file, nul, k + 2);
        assert(end_index(tokens, k + 2) == end_index(tokens, k + 3));
    }
    if count >= 3 {
        next_operand(tokens, file, nul, k + 3);
        assert(end_index(tokens, k + 3) == end_index(tokens, k + 4));
    }
}

/// A directive of an accepted program, other than `.END`, has its operand
/// after it, and that gives it its words.
proof fn directive_step(tokens: Seq<TokenView>, file: Seq<char>, nul: bool, k: int)
    requires
        accepted(tokens, file, nul),
        1 <= k < tokens.len(),
        walked(tokens, file, nul, k).expected.len() == 0,
        !walked(tokens, file, nul, k).end_seen,
        tokens[k].kind is Directive,
        tokens[k].kind != TokenKind::Directive(Directive::END),
    ensures
        ({
            let d = tokens[k].kind->Directive_0;
            let pc = walked(tokens, file, nul, k).pc;
            let after = walked(tokens, file, nul, k + 2);
            let words = directive_words(tokens, k + 1, d, nul);
            &&& k + 2 <= tokens.len()
            &&& words is Some
            &&& pc + words.unwrap().len() <= MEMORY_WORDS
            &&& after.pc == pc + words.unwrap().len()
            &&& after.expected.len() == 0
            &&& !after.end_seen
            &&& end_index(tokens, k) == end_index(tokens, k + 2)
        }),
{
    accepted_walk(tokens, file, nul, k);
    accepted_walk(tokens, file, nul, k + 1);
    walked_step(tokens, file, nul, k);
    let s = walked(tokens, file, nul, k);
    let s1 = walked(tokens, file, nul, k + 1);
    let d = tokens[k].kind->Directive_0;
    assert(d != Directive::ORIG);
    assert(s1.expected == directive_operands(d));
    assert(!s1.end_seen);
    assert(s1.in_blkw == (d == Directive::BLKW));
    assert(s1.head == tokens[k]);
    assert(head_width(tokens[k]) == 16);
    next_operand(tokens, file, nul, k + 1);
    accepted_walk(tokens, file, nul, k + 2);
    assert(end_index(tokens, k) == end_index(tokens, k + 1));
    assert(end_index(tokens, k + 1) == end_index(tokens, k + 2));
}

/// From a place where nothing is owed and `.END` is still to come, an
/// accepted program encodes, and its words fill the addresses from the one
/// the walk has reached there to the one it has reached at `.END`.
pub proof fn program_encodes_from(tokens: Seq<TokenView>, file: Seq<char>, nul: bool, k: int)
    requires
        accepted(tokens, file, nul),
        1 <= k <= tokens.len(),
        walked(tokens, file, nul, k).expected.len() == 0,
        !walked(tokens, file, nul, k).end_seen,
    ensures
        ({
            let symbols = analysis(tokens, file, nul).symbols;
            let pc = walked(tokens, file, nul, k).pc;
            let end = end_index(tokens, k);
            &&& encode_from(tokens, symbols, nul, k, pc) is Some
            &&& k <= end < tokens.len()
            &&& pc + encode_from(tokens, symbols, nul, k, pc).unwrap().len() == walked(
                tokens,
                file,
                nul,
                end,
            ).pc
        }),
    decreases tokens.len() - k,
{
    let symbols = analysis(tokens, file, nul).symbols;
    let pc = walked(tokens, file, nul, k).pc;
    head_kind(tokens, file, nul, k);
    match tokens[k].kind {
        TokenKind::Label(name) => {
            program_encodes_from(tokens, file, nul, k + 1);
        },
        TokenKind::Instruction(op) => {
            instruction_step(tokens, file, nul, k);
            let count = operands_of(op).len() as int;
            program_encodes_from(tokens, file, nul, k + 1 + count);
            let word = instruction_word(tokens, k + 1, op, symbols, pc + 1).unwrap();
            let rest = encode_from(tokens, symbols, nul, k + 1 + count, pc + 1).unwrap();
            assert(encode_from(tokens, symbols, nul, k, pc) == Some(seq![word as u16] + rest));
        },
        TokenKind::Directive(d) => {
            if d == Directive::END {
            } else {
                directive_step(tokens, file, nul, k);
                program_encodes_from(tokens, file, nul, k + 2);
                let words = directive_words(tokens, k + 1, d, nul).unwrap();
                let rest = encode_from(tokens, symbols, nul, k + 2, pc + words.len()).unwrap();
                assert(encode_from(tokens, symbols, nul, k, pc) == Some(words + rest));
            }
        },
        _ => {},
    }
}

/// The address that an accepted program gives as its origin.
pub open spec fn origin(tokens: Seq<TokenView>) -> int
    recommends
        tokens.len() > 1,
        tokens[1].kind is Number,
{
    origin_of(tokens[1].kind->Number_0)
}

/// An accepted program opens with `.ORIG` and a number; after the two the
/// walk stands at the origin with nothing owed.
pub proof fn accepted_opening(tokens: Seq<TokenView>, file: Seq<char>, nul: bool)
    requires
        accepted(tokens, file, nul),
    ensures
        tokens.len() >= 2,
        tokens[0].kind == TokenKind::Directive(Directive::ORIG),
        tokens[1].kind is Number,
        walked(tokens, file, nul, 2).pc == origin(tokens),
        walked(tokens, file, nul, 2).expected.len() == 0,
        !walked(tokens, file, nul, 2).end_seen,
        walked(tokens, file, nul, 2).symbols == Map::<Seq<char>, (int, TokenView)>::empty(),
{
    accepted_walk(tokens, file, nul, 0);
    accepted_walk(tokens, file, nul, 1);
    walk_starts(tokens, file, nul);
    walked_step(tokens, file, nul, 0);
    let s1 = walked(tokens, file, nul, 1);
    assert(s1.expected == directive_operands(Directive::ORIG));
    assert(!s1.end_seen && !s1.in_blkw);
    next_operand(tokens, file, nul, 1);
    walked_step(tokens, file, nul, 1);
}

/// A program that the semantic pass accepts has an image: the encoder finds
/// every operand it looks for, every label defined, and every number and
/// every distance small enough for its field. The image fits in memory from
/// its origin on.
pub proof fn accepted_program_has_an_image(tokens: Seq<TokenView>, file: Seq<char>, nul: bool)
    requires
        accepted(tokens, file, nul),
    ensures
        image(tokens, analysis(tokens, file, nul).symbols, nul) is Some,
        image(tokens, analysis(tokens, file, nul).symbols, nul).unwrap().len() >= 1,
        image(tokens, analysis(tokens, file, nul).symbols, nul).unwrap()[0] + (image(
            tokens,
            analysis(tokens, file, nul).symbols,
            nul,
        ).unwrap().len() - 1) <= MEMORY_WORDS,
{
    accepted_opening(tokens, file, nul);
    program_encodes_from(tokens, file, nul, 2);
    accepted_walk(tokens, file, nul, end_index(tokens, 2));
}

/// Between a place that `.END` has not been seen at and any place before it
/// there is no `.END`.
proof fn same_end(tokens: Seq<TokenView>, file: Seq<char>, nul: bool, j: int, k: int)
    requires
        tokens.len() > 0,
        0 <= j <= k <= tokens.len(),
        !walked(tokens, file, nul, k).end_seen,
    ensures
        end_index(tokens, j) == end_index(tokens, k),
    decreases k - j,
{
    if j < k {
        walk_keeps(tokens, file, nul, j + 1, k);
        walked_step(tokens, file, nul, j);
        same_end(tokens, file, nul, j + 1, k);
    }
}

/// The address of a label is the origin plus the number of words that the
/// image holds for what stands before the label: for a label that is
/// defined at token `k` of an accepted program, before `.END`, the words of
/// the whole program are as many more than the words from the label on as
/// the label's address is above the origin.
pub proof fn label_address_counts_the_words_before_it(
    tokens: Seq<TokenView>,
    file: Seq<char>,
    nul: bool,
    k: int,
)
    requires
        accepted(tokens, file, nul),
        2 <= k < tokens.len(),
        tokens[k].kind is Label,
        walked(tokens, file, nul, k).expected.len() == 0,
        !walked(tokens, file, nul, k).end_seen,
    ensures
        ({
            let symbols = analysis(tokens, file, nul).symbols;
            let name = label_name(tokens[k]);
            let whole = encode_from(tokens, symbols, nul, 2, origin(tokens));
            let rest = encode_from(tokens, symbols, nul, k, symbols[name].0);
            &&& symbols.contains_key(name)
            &&& whole is Some
            &&& rest is Some
            &&& symbols[name].0 == origin(tokens) + (whole.unwrap().len() - rest.unwrap().len())
        }),
{
    let n = tokens.len() as int;
    let symbols = analysis(tokens, file, nul).symbols;
    let name = label_name(tokens[k]);
    accepted_opening(tokens, file, nul);
    accepted_walk(tokens, file, nul, k);
    head_kind(tokens, file, nul, k);
    walk_keeps(tokens, file, nul, k + 1, n);
    assert(walked(tokens, file, nul, k + 1).symbols.contains_key(name));
    assert(walked(tokens, file, nul, n).symbols.contains_key(name));
    assert(symbols[name].0 == walked(tokens, file, nul, k).pc);
    program_encodes_from(tokens, file, nul, 2);
    program_encodes_from(tokens, file, nul, k);
    same_end(tokens, file, nul, 2, k);
}

/// In an accepted program every label in operand position is defined, and
/// its distance from the address after the instruction that uses it can be
/// written in two's complement in the bits of that instruction's offset
/// field.
pub proof fn labels_are_within_reach(tokens: Seq<TokenView>, file: Seq<char>, nul: bool)
    requires
        accepted(tokens, file, nul),
    ensures
        forall|m: int|
            0 <= m < analysis(tokens, file, nul).used.len() ==> {
                let u = #[trigger] analysis(tokens, file, nul).used[m];
                let symbols = analysis(tokens, file, nul).symbols;
                symbols.contains_key(label_name(u.token)) && fits(
                    symbols[label_name(u.token)].0 - u.address,
                    u.width,
                )
            },
{
    accepted_walk(tokens, file, nul, 0);
    quiet_at_the_end(walked(tokens, file, nul, tokens.len() as int));
}

/// No token is an invalid word.
pub open spec fn no_invalid(tokens: Seq<TokenView>) -> bool {
    forall|i: int| 0 <= i < tokens.len() ==> !(#[trigger] tokens[i].kind is Invalid)
}

/// When the pass has no diagnostic for tokens without an invalid word, the
/// tokens open with `.ORIG` and a number, and the walk starts at the origin.
proof fn checked_opening(tokens: Seq<TokenView>, file: Seq<char>, nul: bool)
    requires
        tokens.len() > 0,
        quiet(analysis(tokens, file, nul)),
        no_invalid(tokens),
    ensures
        tokens.len() >= 2,
        tokens[0].kind == TokenKind::Directive(Directive::ORIG),
        tokens[1].kind is Number,
        walked(tokens, file, nul, 0).pc == origin(tokens),
        walked(tokens, file, nul, 0).expected.len() == 0,
        !walked(tokens, file, nul, 0).in_blkw,
{
    accepted_walk(tokens, file, nul, 0);
    accepted_walk(tokens, file, nul, 1);
    accepted_walk(tokens, file, nul, 2);
    walk_starts(tokens, file, nul);
    walked_step(tokens, file, nul, 0);
    walked_step(tokens, file, nul, 1);
    let s1 = walked(tokens, file, nul, 1);
    assert(s1.expected == directive_operands(Directive::ORIG));
    assert(!(tokens[1].kind is Invalid));
}

/// The words that the head at token `i` takes in memory: one for an
/// instruction and for `.FILL`, the count for `.BLKW` (none when the count
/// is negative), one for each character of its string for `.STRINGZ`, and one
/// more when strings end with a zero word; none for `.ORIG` and `.END`, and
/// none for a token that is no head.
pub open spec fn head_words(tokens: Seq<TokenView>, nul: bool, i: int) -> int {
    if 0 <= i < tokens.len() {
        match tokens[i].kind {
            TokenKind::Instruction(_) => 1,
            TokenKind::Directive(Directive::FILL) => 1,
            TokenKind::Directive(Directive::BLKW) => if i + 1 < tokens.len() {
                match tokens[i + 1].kind {
                    TokenKind::Number(n) => block_words(n),
                    _ => 0,
                }
            } else {
                0
            },
            TokenKind::Directive(Directive::STRINGZ) => if i + 1 < tokens.len() {
                match tokens[i + 1].kind {
                    TokenKind::String(text) => string_words(text, nul),
                    _ => 0,
                }
            } else {
                0
            },
            _ => 0,
        }
    } else {
        0
    }
}

/// The words of all the heads before token `k`.
pub open spec fn words_before(tokens: Seq<TokenView>, nul: bool, k: int) -> int
    decreases k,
{
    if k <= 0 {
        0
    } else {
        words_before(tokens, nul, k - 1) + head_words(tokens, nul, k - 1)
    }
}

/// The words of the head just before token `k` that the walk adds only when
/// it reads the operand, which is token `k`: those of `.BLKW` and `.STRINGZ`.
pub open spec fn owed_words(tokens: Seq<TokenView>, nul: bool, k: int) -> int {
    if 1 <= k <= tokens.len() && (tokens[k - 1].kind == TokenKind::Directive(Directive::BLKW)
        || tokens[k - 1].kind == TokenKind::Directive(Directive::STRINGZ)) {
        head_words(tokens, nul, k - 1)
    } else {
        0
    }
}

/// The walk before token `k` stands where the heads before it put it: at the
/// origin plus their words, less the words still owed to the last head. What
/// it expects and whether it waits for a count agree with the token before.
pub open spec fn laid_out(s: Pass, tokens: Seq<TokenView>, nul: bool, k: int) -> bool {
    &&& s.pc == origin(tokens) + words_before(tokens, nul, k) - owed_words(tokens, nul, k)
    &&& forall|j: int| 1 <= j < s.expected.len() ==> #[trigger] s.expected[j] != OperandType::String
    &&& s.expected.len() > 0 && s.expected[0] == OperandType::String ==> k >= 1 && tokens[k
        - 1].kind == TokenKind::Directive(Directive::STRINGZ)
    &&& s.in_blkw ==> k >= 1 && tokens[k - 1].kind == TokenKind::Directive(Directive::BLKW)
    &&& k >= 1 && tokens[k - 1].kind is Directive ==> s.expected == directive_operands(
        tokens[k - 1].kind->Directive_0,
    ) && s.in_blkw == (tokens[k - 1].kind->Directive_0 == Directive::BLKW)
}

/// One step of a walk without diagnostic keeps it laid out.
proof fn step_laid_out(s: Pass, tokens: Seq<TokenView>, nul: bool, k: int)
    requires
        0 <= k < tokens.len(),
        laid_out(s, tokens, nul, k),
        quiet(s),
        quiet(s.on_token(tokens[k])),
        !(tokens[k].kind is Invalid),
        s.nul == nul,
        0 <= s.pc <= MEMORY_WORDS,
    ensures
        laid_out(s.on_token(tokens[k]), tokens, nul, k + 1),
{
    let t = tokens[k];
    let next = s.on_token(t);
    assert(words_before(tokens, nul, k + 1) == words_before(tokens, nul, k) + head_words(
        tokens,
        nul,
        k,
    ));
    match t.kind {
        TokenKind::Instruction(op) => {
            assert(s.expected.len() == 0);
            assert(owed_words(tokens, nul, k) == 0);
            assert(next.expected == operands_of(op));
            assert(next.pc == s.pc + 1);
        },
        TokenKind::Directive(d) => {
            assert(s.expected.len() == 0);
            assert(owed_words(tokens, nul, k) == 0);
            assert(next.expected == directive_operands(d));
        },
        TokenKind::Label(name) => {
            if s.expected.len() > 0 {
                assert(s.expected[0] == OperandType::Label);
                assert(next.expected == s.expected.subrange(1, s.expected.len() as int));
            }
            assert(owed_words(tokens, nul, k) == 0);
            assert(next.pc == s.pc);
        },
        TokenKind::Number(n) => {
            assert(s.expected.len() > 0);
            assert(next.expected == s.expected.subrange(1, s.expected.len() as int));
            assert(!next.in_blkw);
        },
        TokenKind::Register(_) => {
            assert(s.expected.len() > 0);
            assert(next.expected == s.expected.subrange(1, s.expected.len() as int));
            assert(owed_words(tokens, nul, k) == 0);
            assert(next.pc == s.pc);
        },
        TokenKind::String(text) => {
            assert(s.expected.len() > 0);
            assert(s.expected[0] == OperandType::String);
            assert(next.expected == s.expected.subrange(1, s.expected.len() as int));
            assert(next.pc == s.pc + string_words(text, nul));
        },
        TokenKind::Invalid(_) => {},
    }
}

/// A walk without diagnostic, over tokens without an invalid word, is laid
/// out before every token.
proof fn walk_laid_out(tokens: Seq<TokenView>, file: Seq<char>, nul: bool, k: int)
    requires
        tokens.len() > 0,
        quiet(analysis(tokens, file, nul)),
        no_invalid(tokens),
        0 <= k <= tokens.len(),
    ensures
        laid_out(walked(tokens, file, nul, k), tokens, nul, k),
    decreases k,
{
    checked_opening(tokens, file, nul);
    if k == 0 {
    } else {
        walk_laid_out(tokens, file, nul, k - 1);
        accepted_walk(tokens, file, nul, k - 1);
        accepted_walk(tokens, file, nul, k);
        walked_step(tokens, file, nul, k - 1);
        step_laid_out(walked(tokens, file, nul, k - 1), tokens, nul, k - 1);
    }
}

/// Token `k` defines the label `name` with the entry `entry`: it is that
/// label, the entry holds it, and the address of the entry is the origin plus
/// the words of all the heads before the token.
pub open spec fn defines(
    tokens: Seq<TokenView>,
    nul: bool,
    k: int,
    name: Seq<char>,
    entry: (int, TokenView),
) -> bool {
    &&& 0 <= k < tokens.len()
    &&& tokens[k].kind == TokenKind::Label(name)
    &&& entry.1 == tokens[k]
    &&& entry.0 == origin(tokens) + words_before(tokens, nul, k)
}

/// What a step of the pass leaves in the symbol table was there before, or
/// is the label of the token, put there at the address of the walk where
/// nothing was owed.
proof fn step_defines(s: Pass, t: TokenView)
    ensures
        forall|name: Seq<char>| #[trigger]
            s.on_token(t).symbols.contains_key(name) ==> (s.symbols.contains_key(name)
                && s.on_token(t).symbols[name] == s.symbols[name]) || (t.kind == TokenKind::Label(
                name,
            ) && s.expected.len() == 0 && s.on_token(t).symbols[name] == (s.pc, t)),
{
}

/// Every label that the walk has in its table before token `k` is defined by
/// a token before `k`.
proof fn table_entries_are_defined(
    tokens: Seq<TokenView>,
    file: Seq<char>,
    nul: bool,
    k: int,
    name: Seq<char>,
)
    requires
        tokens.len() > 0,
        quiet(analysis(tokens, file, nul)),
        no_invalid(tokens),
        0 <= k <= tokens.len(),
        walked(tokens, file, nul, k).symbols.contains_key(name),
    ensures
        exists|j: int| #[trigger]
            defines(tokens, nul, j, name, walked(tokens, file, nul, k).symbols[name]),
    decreases k,
{
    if k == 0 {
        walk_starts(tokens, file, nul);
    } else {
        walked_step(tokens, file, nul, k - 1);
        let s = walked(tokens, file, nul, k - 1);
        let t = tokens[k - 1];
        step_defines(s, t);
        if s.symbols.contains_key(name) && s.on_token(t).symbols[name] == s.symbols[name] {
            table_entries_are_defined(tokens, file, nul, k - 1, name);
        } else {
            walk_laid_out(tokens, file, nul, k - 1);
            assert(owed_words(tokens, nul, k - 1) == 0);
            assert(defines(tokens, nul, k - 1, name, (s.pc, t)));
        }
    }
}

/// When the pass has no diagnostic for its tokens, every entry of its symbol
/// table holds the token that defines the label, and the address of the
/// entry is the origin plus the words of all the heads that stand before
/// that token. (The tokens hold no invalid word, which the pass would pass
/// over: the lexer gives none without a diagnostic of its own.)
pub proof fn every_label_counts_the_words_before_it(
    tokens: Seq<TokenView>,
    file: Seq<char>,
    nul: bool,
    name: Seq<char>,
)
    requires
        tokens.len() > 0,
        quiet(analysis(tokens, file, nul)),
        no_invalid(tokens),
        analysis(tokens, file, nul).symbols.contains_key(name),
    ensures
        exists|k: int| #[trigger]
            defines(tokens, nul, k, name, analysis(tokens, file, nul).symbols[name]),
{
    accepted_walk(tokens, file, nul, 0);
    table_entries_are_defined(tokens, file, nul, tokens.len() as int, name);
}

/// The same of a text: when neither the lexer nor the semantic pass has a
/// diagnostic for it, every entry of the symbol table holds the token that
/// defines the label, at the origin plus the words of all the heads before
/// that token.
pub proof fn every_label_of_a_text_counts_the_words_before_it(
    source: Seq<char>,
    nul: bool,
    name: Seq<char>,
)
    requires
        lex(source).errors.len() == 0,
        quiet(analysis(lex(source).tokens, source, nul)),
        analysis(lex(source).tokens, source, nul).symbols.contains_key(name),
    ensures
        exists|k: int| #[trigger]
            defines(
                lex(source).tokens,
                nul,
                k,
                name,
                analysis(lex(source).tokens, source, nul).symbols[name],
            ),
{
    let tokens = lex(source).tokens;
    lexed_without_diagnostic_is_well_made(source, 0);
    assert forall|i: int| 0 <= i < tokens.len() implies !(#[trigger] tokens[i].kind is Invalid) by {
        assert(well_made(tokens[i]));
    }
    every_label_counts_the_words_before_it(tokens, source, nul, name);
}

/// Two passes agree on the layout: on everything but the text they quote
/// and the diagnostics they hold.
pub open spec fn same_layout(a: Pass, b: Pass) -> bool {
    &&& a.symbols == b.symbols
    &&& a.used == b.used
    &&& a.pc == b.pc
    &&& a.in_blkw == b.in_blkw
    &&& a.expected == b.expected
    &&& a.head == b.head
    &&& a.end_seen == b.end_seen
    &&& a.origin_seen == b.origin_seen
    &&& a.nul == b.nul
}

proof fn step_same_layout(a: Pass, b: Pass, t: TokenView)
    requires
        same_layout(a, b),
    ensures
        same_layout(a.on_token(t), b.on_token(t)),
{
    match t.kind {
        TokenKind::Instruction(op) => {
            assert(same_layout(a.on_instruction(t, op), b.on_instruction(t, op)));
        },
        TokenKind::Directive(d) => {
            assert(same_layout(a.on_directive(t, d), b.on_directive(t, d)));
        },
        TokenKind::Label(name) => {
            assert(same_layout(a.on_label(t, name), b.on_label(t, name)));
        },
        TokenKind::Number(n) => {
            assert(same_layout(a.with_operand_taken(), b.with_operand_taken()));
            assert(same_layout(a.on_number(t, n), b.on_number(t, n)));
        },
        TokenKind::Register(_) => {
            assert(same_layout(a.on_register(t), b.on_register(t)));
        },
        TokenKind::String(text) => {
            assert(same_layout(a.on_string(t, text), b.on_string(t, text)));
        },
        TokenKind::Invalid(_) => {},
    }
}

proof fn walk_same_layout(
    tokens: Seq<TokenView>,
    file_a: Seq<char>,
    file_b: Seq<char>,
    nul: bool,
    k: int,
)
    requires
        tokens.len() > 0,
        0 <= k <= tokens.len(),
    ensures
        same_layout(walked(tokens, file_a, nul, k), walked(tokens, file_b, nul, k)),
    decreases k,
{
    if k == 0 {
        walk_starts(tokens, file_a, nul);
        walk_starts(tokens, file_b, nul);
    } else {
        walk_same_layout(tokens, file_a, file_b, nul, k - 1);
        walked_step(tokens, file_a, nul, k - 1);
        walked_step(tokens, file_b, nul, k - 1);
        step_same_layout(
            walked(tokens, file_a, nul, k - 1),
            walked(tokens, file_b, nul, k - 1),
            tokens[k - 1],
        );
    }
}

/// The image is a function of the token stream alone: the text that the
/// tokens were read from is quoted in diagnostics and plays no part in the
/// symbol table, nor, with it, in the image.
pub proof fn image_depends_on_the_tokens_alone(
    tokens: Seq<TokenView>,
    file_a: Seq<char>,
    file_b: Seq<char>,
    nul: bool,
)
    ensures
        analysis(tokens, file_a, nul).symbols == analysis(tokens, file_b, nul).symbols,
        image(tokens, analysis(tokens, file_a, nul).symbols, nul) == image(
            tokens,
            analysis(tokens, file_b, nul).symbols,
            nul,
        ),
{
    if tokens.len() > 0 {
        let n = tokens.len() as int;
        walk_same_layout(tokens, file_a, file_b, nul, n);
        reveal(walked);
        assert(tokens.subrange(0, n) == tokens);
    }
}

/// When the lexer has no diagnostic for a text from `pos` on, the tokens it
/// gives for it are well made.
pub proof fn lexed_without_diagnostic_is_well_made(src: Seq<char>, pos: int)
    requires
        0 <= pos <= src.len(),
        lex_from(src, pos).errors.len() == 0,
    ensures
        all_well_made(lex_from(src, pos).tokens),
    decreases src.len() - pos,
{
    let all = lex_from(src, pos).tokens;
    if pos < src.len() {
        if src[pos] == '"' {
            let scan = super::lexer::scan_string(src, pos + 1);
            super::lexer::scan_string_bounds(src, pos + 1);
            let next = pos + 1 + scan.consumed;
            let rest = lex_from(src, next);
            assert(lex_from(src, pos).errors.len() >= rest.errors.len());
            lexed_without_diagnostic_is_well_made(src, next);
            assert forall|i: int| 0 <= i < all.len() implies well_made(#[trigger] all[i]) by {
                if i > 0 {
                    assert(all[i] == rest.tokens[i - 1]);
                }
            }
        } else if src[pos] == ';' {
            super::lexer::line_rest_bounds(src, pos + 1);
            lexed_without_diagnostic_is_well_made(
                src,
                pos + 1 + super::lexer::line_rest(src, pos + 1),
            );
        } else if crate::text::is_whitespace_char(src[pos]) || src[pos] == ',' {
            lexed_without_diagnostic_is_well_made(src, pos + 1);
        } else {
            word_rest_bounds(src, pos + 1);
            let length = 1 + super::lexer::word_rest(src, pos + 1);
            let word = src.subrange(pos, pos + length);
            let rest = lex_from(src, pos + length);
            assert(lex_from(src, pos).errors.len() >= rest.errors.len());
            lexed_without_diagnostic_is_well_made(src, pos + length);
            match categorized(word, shape_of(word)) {
                None => {},
                Some(kind) => {
                    assert(!(kind is Invalid));
                    assert forall|i: int| 0 <= i < all.len() implies well_made(
                        #[trigger] all[i],
                    ) by {
                        if i > 0 {
                            assert(all[i] == rest.tokens[i - 1]);
                        }
                    }
                },
            }
        }
    }
}

/// What the assembler gives for a text that every pass accepts is the image
/// of its tokens, and that image fits in memory from its origin on.
pub proof fn accepted_text_has_an_image(source: Seq<char>, nul: bool)
    requires
        super::syntax::screen_errors(crate::text::lines(source)).len() == 0,
        lex(source).errors.len() == 0,
        quiet(analysis(lex(source).tokens, source, nul)),
    ensures
        Some(assembled(source, nul)) == image(
            lex(source).tokens,
            analysis(lex(source).tokens, source, nul).symbols,
            nul,
        ),
        assembled(source, nul).len() >= 1,
        assembled(source, nul)[0] + (assembled(source, nul).len() - 1) <= MEMORY_WORDS,
{
    lexed_without_diagnostic_is_well_made(source, 0);
    accepted_program_has_an_image(lex(source).tokens, source, nul);
}

/// What the encoder writes, the machine reads back: a number that fits a
/// field of 5, 6, 9 or 11 bits, written in that field of a word whose field
/// bits were clear, is the number that sign extension of the word gives.
pub proof fn field_reads_back(high: u16, n: int, width: u16)
    requires
        width == 5 || width == 6 || width == 9 || width == 11,
        fits(n, width as int),
        high & field_mask(width) == 0,
    ensures
        high + field(n, width as int) <= 0xffff,
        sign_extend((high + field(n, width as int)) as u16, width) == (if n < 0 {
            n + 0x10000
        } else {
            n
        }),
{
    small_powers();
    let mask: u16 = (two_to(width as nat) - 1) as u16;
    let sign: u16 = two_to((width - 1) as nat) as u16;
    let f: u16 = field(n, width as int) as u16;
    assert({
        &&& field_mask(width) == mask
        &&& (1u16 << ((width - 1) as u16)) == sign
        &&& high + f <= 0xffff
        &&& (((high + f) as u16) & mask) == f
        &&& ((f & sign) != 0) == (f >= sign)
        &&& (f | !mask) == f + (0xffff - mask)
    }) by (bit_vector)
        requires
            (width == 5 && mask == 31 && sign == 16) || (width == 6 && mask == 63 && sign == 32)
                || (width == 9 && mask == 511 && sign == 256) || (width == 11 && mask == 2047
                && sign == 1024),
            f <= mask,
            high & (if width >= 16 {
                0xffffu16
            } else {
                ((1u16 << width) - 1) as u16
            }) == 0,
    ;
}

} // verus!
