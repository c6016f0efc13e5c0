//! Character and string routines: classification of characters, upper-casing,
//! conversion between strings and character vectors, decimal rendering and
//! numeral parsing.
use vstd::prelude::*;
use vstd::std_specs::iter::IteratorSpec;

verus! {

/// `String::push` appends exactly one character to the end of the string.
pub assume_specification[ std::string::String::push ](s: &mut std::string::String, ch: char)
    ensures
        final(s)@ == old(s)@.push(ch),
;

/// The characters with the Unicode `White_Space` property.
pub open spec fn is_whitespace_char(c: char) -> bool {
    let n = c as u32;
    ||| 0x09 <= n <= 0x0d
    ||| n == 0x20
    ||| n == 0x85
    ||| n == 0xa0
    ||| n == 0x1680
    ||| 0x2000 <= n <= 0x200a
    ||| n == 0x2028
    ||| n == 0x2029
    ||| n == 0x202f
    ||| n == 0x205f
    ||| n == 0x3000
}

/// Whether `c` is white space.
pub fn is_whitespace(c: char) -> (b: bool)
    ensures
        b == is_whitespace_char(c),
{
    let n: u32 = c as u32;
    (0x09 <= n && n <= 0x0d) || n == 0x20 || n == 0x85 || n == 0xa0 || n == 0x1680 || (0x2000 <= n
        && n <= 0x200a) || n == 0x2028 || n == 0x2029 || n == 0x202f || n == 0x205f || n == 0x3000
}

/// The upper-case form of an ASCII letter; every other character is itself.
pub open spec fn upper_char(c: char) -> char {
    if 'a' <= c && c <= 'z' {
        ((c as u8) - 32) as char
    } else {
        c
    }
}

/// `s` with its ASCII letters in upper case.
pub open spec fn upper(s: Seq<char>) -> Seq<char> {
    Seq::new(s.len(), |i: int| upper_char(s[i]))
}

/// `c` in upper case, when it is an ASCII letter.
pub fn to_upper_char(c: char) -> (r: char)
    ensures
        r == upper_char(c),
{
    if 'a' <= c && c <= 'z' {
        ((c as u8) - 32) as char
    } else {
        c
    }
}

/// `s` with its ASCII letters in upper case.
pub fn to_upper(s: &Vec<char>) -> (r: Vec<char>)
    ensures
        r@ == upper(s@),
{
    let mut r: Vec<char> = Vec::new();
    let mut i: usize = 0;
    while i < s.len()
        invariant
            i <= s.len(),
            r@ == upper(s@).subrange(0, i as int),
        decreases s.len() - i,
    {
        r.push(to_upper_char(s[i]));
        i += 1;
    }
    assert(r@ == upper(s@));
    r
}

/// The characters of a string, in order. There are fewer of them than the
/// largest `usize`.
pub fn chars_of(s: &str) -> (v: Vec<char>)
    ensures
        v@ == s@,
        v@.len() < usize::MAX,
{
    broadcast use vstd::string::group_string_axioms;

    let mut v: Vec<char> = Vec::new();
    let mut it = s.chars();
    loop
        invariant
            v@ + it.remaining() == s@,
            it.decrease() is Some,
        ensures
            v@ == s@,
        decreases it.decrease()->0,
    {
        match it.next() {
            Some(c) => {
                v.push(c);
            },
            None => {
                break ;
            },
        }
    }
    // A vector that takes one more element is not yet of the largest length.
    v.push(' ');
    assert(v.len() <= usize::MAX);
    v.pop();
    v
}

/// Whether the characters of `v` are those of `s`.
pub fn chars_eq(v: &Vec<char>, s: &str) -> (b: bool)
    ensures
        b == (v@ == s@),
{
    let w = chars_of(s);
    if v.len() != w.len() {
        return false;
    }
    let mut i: usize = 0;
    while i < v.len()
        invariant
            i <= v.len(),
            v.len() == w.len(),
            w@ == s@,
            forall|k: int| 0 <= k < i ==> v@[k] == w@[k],
        decreases v.len() - i,
    {
        if v[i] != w[i] {
            return false;
        }
        i += 1;
    }
    assert(v@ =~= w@);
    true
}

/// The string made of the characters `v[from..to]`.
pub fn string_of_range(v: &Vec<char>, from: usize, to: usize) -> (s: String)
    requires
        from <= to <= v.len(),
    ensures
        s@ == v@.subrange(from as int, to as int),
{
    let mut s = String::new();
    let mut i: usize = from;
    while i < to
        invariant
            from <= i <= to <= v.len(),
            s@ == v@.subrange(from as int, i as int),
        decreases to - i,
    {
        s.push(v[i]);
        i += 1;
    }
    s
}

/// The string made of the characters of `v`.
pub fn string_of(v: &Vec<char>) -> (s: String)
    ensures
        s@ == v@,
{
    let s = string_of_range(v, 0, v.len());
    assert(v@.subrange(0, v.len() as int) == v@);
    s
}

/// Appends the characters of `s` to `out`.
pub fn push_str(out: &mut Vec<char>, s: &str)
    ensures
        final(out)@ == old(out)@ + s@,
{
    let cs = chars_of(s);
    let mut i: usize = 0;
    while i < cs.len()
        invariant
            i <= cs.len(),
            cs@ == s@,
            out@ == old(out)@ + cs@.subrange(0, i as int),
        decreases cs.len() - i,
    {
        out.push(cs[i]);
        i += 1;
    }
    assert(cs@.subrange(0, cs.len() as int) == cs@);
}

/// Appends `c` to `out`, `count` times.
pub fn push_repeated(out: &mut Vec<char>, c: char, count: usize)
    ensures
        final(out)@ == old(out)@ + Seq::new(count as nat, |i: int| c),
{
    let mut i: usize = 0;
    while i < count
        invariant
            i <= count,
            out@ == old(out)@ + Seq::new(i as nat, |j: int| c),
        decreases count - i,
    {
        out.push(c);
        i += 1;
        assert(out@ == old(out)@ + Seq::new(i as nat, |j: int| c));
    }
}

/// The pieces of `s` between its newline characters. There is always at
/// least one piece: the text after the last newline, which may be empty.
pub open spec fn split_lines(s: Seq<char>) -> Seq<Seq<char>>
    decreases s.len(),
{
    if s.len() == 0 {
        seq![Seq::empty()]
    } else {
        let before = split_lines(s.drop_last());
        if s.last() == '\n' {
            before.push(Seq::empty())
        } else {
            before.update(before.len() - 1, before.last().push(s.last()))
        }
    }
}

/// A text has at least one piece and at most one more than it has
/// characters; its last piece is no longer than the text.
pub proof fn split_lines_nonempty(s: Seq<char>)
    ensures
        split_lines(s).len() >= 1,
        split_lines(s).len() <= s.len() + 1,
        split_lines(s).last().len() <= s.len(),
    decreases s.len(),
{
    if s.len() > 0 {
        split_lines_nonempty(s.drop_last());
    }
}

/// The number of the line that position `pos` of `s` falls on, counting
/// lines from one: one more than the newlines before `pos`.
pub open spec fn line_of(s: Seq<char>, pos: int) -> int {
    split_lines(s.subrange(0, pos)).len() as int
}

/// The column of position `pos` of `s`: the number of characters between the
/// start of its line and `pos`.
pub open spec fn column_of(s: Seq<char>, pos: int) -> int {
    split_lines(s.subrange(0, pos)).last().len() as int
}

/// No newline among the `n` characters of `s` from `pos` on.
pub open spec fn on_one_line(s: Seq<char>, pos: int, n: int) -> bool {
    forall|i: int| pos <= i < pos + n ==> #[trigger] s[i] != '\n'
}

/// Line and column at the start of the text, and how they move over one
/// character.
pub proof fn position_step(s: Seq<char>, pos: int)
    requires
        0 <= pos <= s.len(),
    ensures
        line_of(s, 0) == 1,
        column_of(s, 0) == 0,
        1 <= line_of(s, pos) <= pos + 1,
        0 <= column_of(s, pos) <= pos,
        pos < s.len() && s[pos] == '\n' ==> line_of(s, pos + 1) == line_of(s, pos) + 1
            && column_of(s, pos + 1) == 0,
        pos < s.len() && s[pos] != '\n' ==> line_of(s, pos + 1) == line_of(s, pos) && column_of(
            s,
            pos + 1,
        ) == column_of(s, pos) + 1,
    decreases pos,
{
    assert(s.subrange(0, 0) =~= Seq::<char>::empty());
    if pos > 0 {
        position_step(s, pos - 1);
        assert(s.subrange(0, pos).drop_last() == s.subrange(0, pos - 1));
    }
    if pos < s.len() {
        assert(s.subrange(0, pos + 1).drop_last() == s.subrange(0, pos));
        assert(s.subrange(0, pos + 1).last() == s[pos]);
    }
}

/// Over characters that hold no newline the line stays and the column
/// advances by their number.
pub proof fn position_after_span(s: Seq<char>, pos: int, n: int)
    requires
        0 <= pos,
        0 <= n,
        pos + n <= s.len(),
        on_one_line(s, pos, n),
    ensures
        line_of(s, pos + n) == line_of(s, pos),
        column_of(s, pos + n) == column_of(s, pos) + n,
    decreases n,
{
    if n > 0 {
        position_after_span(s, pos, n - 1);
        assert(s[pos + n - 1] != '\n');
        position_step(s, pos + n - 1);
    }
}

/// A stretch of text without a newline is found again in its line, at its
/// column: the line `line_of(s, pos)` of `s` holds the `n` characters from
/// `pos` on at the columns from `column_of(s, pos)` on.
pub proof fn line_holds_span(s: Seq<char>, pos: int, n: int)
    requires
        0 <= pos,
        0 <= n,
        pos + n <= s.len(),
        on_one_line(s, pos, n),
    ensures
        1 <= line_of(s, pos) <= split_lines(s).len(),
        column_of(s, pos) + n <= split_lines(s)[line_of(s, pos) - 1].len(),
        split_lines(s)[line_of(s, pos) - 1].subrange(column_of(s, pos), column_of(s, pos) + n)
            == s.subrange(pos, pos + n),
{
    position_after_span(s, pos, n);
    position_step(s, pos);
    span_in_last_piece(s, pos, n);
    piece_is_kept(s, pos + n, s.len() as int);
    assert(s.subrange(0, s.len() as int) == s);
    let piece = split_lines(s.subrange(0, pos + n)).last();
    let line = split_lines(s)[line_of(s, pos) - 1];
    assert(line.subrange(0, piece.len() as int) == piece);
    assert(line.subrange(column_of(s, pos), column_of(s, pos) + n) =~= piece.subrange(
        column_of(s, pos),
        column_of(s, pos) + n,
    ));
}

/// After a stretch without a newline, the piece being read ends with that
/// stretch.
proof fn span_in_last_piece(s: Seq<char>, pos: int, n: int)
    requires
        0 <= pos,
        0 <= n,
        pos + n <= s.len(),
        on_one_line(s, pos, n),
    ensures
        split_lines(s.subrange(0, pos + n)).last().len() == column_of(s, pos) + n,
        split_lines(s.subrange(0, pos + n)).last().subrange(
            column_of(s, pos),
            column_of(s, pos) + n,
        ) == s.subrange(pos, pos + n),
    decreases n,
{
    position_step(s, pos);
    if n > 0 {
        span_in_last_piece(s, pos, n - 1);
        let shorter = s.subrange(0, pos + n - 1);
        let longer = s.subrange(0, pos + n);
        assert(longer.drop_last() == shorter);
        assert(longer.last() == s[pos + n - 1]);
        assert(s[pos + n - 1] != '\n');
        split_lines_nonempty(shorter);
        let before = split_lines(shorter).last();
        let after = split_lines(longer).last();
        assert(after == before.push(s[pos + n - 1]));
        assert(after.subrange(column_of(s, pos), column_of(s, pos) + n) =~= before.subrange(
            column_of(s, pos),
            column_of(s, pos) + n - 1,
        ).push(s[pos + n - 1]));
        assert(s.subrange(pos, pos + n) =~= s.subrange(pos, pos + n - 1).push(s[pos + n - 1]));
    } else {
        assert(s.subrange(pos, pos) =~= Seq::<char>::empty());
        assert(split_lines(s.subrange(0, pos)).last().subrange(
            column_of(s, pos),
            column_of(s, pos),
        ) =~= Seq::<char>::empty());
    }
}

/// What has been read of a line stays at the front of that line as more of
/// the text is read.
proof fn piece_is_kept(s: Seq<char>, pos: int, end: int)
    requires
        0 <= pos <= end <= s.len(),
    ensures
        line_of(s, pos) <= line_of(s, end),
        split_lines(s.subrange(0, pos)).last().len() <= split_lines(s.subrange(0, end))[line_of(
            s,
            pos,
        ) - 1].len(),
        split_lines(s.subrange(0, end))[line_of(s, pos) - 1].subrange(
            0,
            split_lines(s.subrange(0, pos)).last().len() as int,
        ) == split_lines(s.subrange(0, pos)).last(),
    decreases end - pos,
{
    position_step(s, pos);
    let piece = split_lines(s.subrange(0, pos)).last();
    if end == pos {
        assert(piece.subrange(0, piece.len() as int) == piece);
    } else {
        piece_is_kept(s, pos, end - 1);
        position_step(s, end - 1);
        let shorter = s.subrange(0, end - 1);
        let longer = s.subrange(0, end);
        assert(longer.drop_last() == shorter);
        assert(longer.last() == s[end - 1]);
        let k = line_of(s, pos) - 1;
        let before = split_lines(shorter)[k];
        let after = split_lines(longer)[k];
        if s[end - 1] == '\n' {
            assert(after == before);
        } else if k == split_lines(shorter).len() - 1 {
            assert(after == before.push(s[end - 1]));
            assert(after.subrange(0, piece.len() as int) =~= before.subrange(
                0,
                piece.len() as int,
            ));
        } else {
            assert(after == before);
        }
    }
}

/// The lines of `s`: the pieces between its newline characters, where a
/// newline at the very end of the text does not open another line.
pub open spec fn lines(s: Seq<char>) -> Seq<Seq<char>> {
    let pieces = split_lines(s);
    if pieces.last().len() == 0 {
        pieces.drop_last()
    } else {
        pieces
    }
}

/// Line `k` of `s`, counting from one, without its line ending: a newline,
/// or a carriage return and a newline. Empty when `s` has no such line.
pub open spec fn source_line(s: Seq<char>, k: int) -> Seq<char> {
    let lines = split_lines(s);
    if 1 <= k <= lines.len() {
        let line = lines[k - 1];
        if k < lines.len() && line.len() > 0 && line.last() == '\r' {
            line.drop_last()
        } else {
            line
        }
    } else {
        Seq::empty()
    }
}

/// Line `k` of `src`, counting from one, without its line ending.
pub fn line_at(src: &Vec<char>, k: usize) -> (line: Vec<char>)
    ensures
        line@ == source_line(src@, k as int),
{
    let mut line: Vec<char> = Vec::new();
    if k == 0 {
        proof {
            split_lines_nonempty(src@);
        }
        return line;
    }
    let target: usize = k - 1;
    let mut seen: usize = 0;
    let mut i: usize = 0;
    while i < src.len()
        invariant
            i <= src.len(),
            k == target + 1,
            seen + 1 == split_lines(src@.subrange(0, i as int)).len(),
            seen <= i,
            seen <= target ==> line@ == (if seen == target {
                split_lines(src@.subrange(0, i as int)).last()
            } else {
                Seq::empty()
            }),
            seen > target ==> line@ == source_line(src@.subrange(0, i as int), k as int),
        decreases src.len() - i,
    {
        let c = src[i];
        let ghost before = src@.subrange(0, i as int);
        let ghost after = src@.subrange(0, i + 1);
        proof {
            assert(after.drop_last() == before);
            assert(after.last() == c);
            split_lines_nonempty(before);
        }
        if c == '\n' {
            if seen == target {
                if line.len() > 0 && line[line.len() - 1] == '\r' {
                    line.pop();
                }
            }
            seen += 1;
        } else if seen == target {
            line.push(c);
        }
        i += 1;
    }
    proof {
        assert(src@.subrange(0, src.len() as int) == src@);
        split_lines_nonempty(src@);
    }
    if seen < target {
        return Vec::new();
    }
    line
}

/// The word for a character: the low sixteen bits of its code point.
pub open spec fn char_word(c: char) -> u16 {
    ((c as u32) & 0xffff) as u16
}

/// The word for a character.
pub fn word_of_char(c: char) -> (w: u16)
    ensures
        w == char_word(c),
{
    ((c as u32) & 0xffff) as u16
}

/// The character for the digit `d`.
pub open spec fn digit_char(d: nat) -> char
    recommends
        d < 10,
{
    (('0' as u8) + (d as u8)) as char
}

/// The decimal numeral of `n`, without leading zeros.
pub open spec fn decimal(n: nat) -> Seq<char>
    decreases n,
{
    if n < 10 {
        seq![digit_char(n)]
    } else {
        decimal(n / 10).push(digit_char(n % 10))
    }
}

/// The decimal numeral of an integer, with a leading `-` when negative.
pub open spec fn signed_decimal(n: int) -> Seq<char> {
    if n < 0 {
        seq!['-'] + decimal((-n) as nat)
    } else {
        decimal(n as nat)
    }
}

fn digit_of(d: u64) -> (c: char)
    requires
        d < 10,
    ensures
        c == digit_char(d as nat),
{
    let b: u8 = 48 + (d as u8);
    b as char
}

/// Appends the decimal numeral of `n` to `out`.
pub fn push_decimal(out: &mut Vec<char>, n: u64)
    ensures
        final(out)@ == old(out)@ + decimal(n as nat),
    decreases n,
{
    if n < 10 {
        out.push(digit_of(n));
        assert(out@ == old(out)@ + decimal(n as nat));
    } else {
        push_decimal(out, n / 10);
        out.push(digit_of(n % 10));
        assert(out@ == old(out)@ + decimal(n as nat));
    }
}

/// Appends the decimal numeral of `n` to `out`, with its sign.
pub fn push_signed_decimal(out: &mut Vec<char>, n: i64)
    ensures
        final(out)@ == old(out)@ + signed_decimal(n as int),
{
    if n < 0 {
        out.push('-');
        let m: u64 = if n == i64::MIN {
            0x8000_0000_0000_0000u64
        } else {
            (-n) as u64
        };
        push_decimal(out, m);
        assert(out@ == old(out)@ + signed_decimal(n as int));
    } else {
        push_decimal(out, n as u64);
    }
}

/// A decimal digit.
pub open spec fn is_digit(c: char) -> bool {
    '0' <= c && c <= '9'
}

/// A hexadecimal digit, in either case.
pub open spec fn is_hex_digit(c: char) -> bool {
    is_digit(c) || ('a' <= c && c <= 'f') || ('A' <= c && c <= 'F')
}

/// The value of a hexadecimal digit, either case.
pub open spec fn hex_value(c: char) -> int
    recommends
        is_hex_digit(c),
{
    if is_digit(c) {
        c as int - '0' as int
    } else if 'a' <= c && c <= 'f' {
        c as int - 'a' as int + 10
    } else {
        c as int - 'A' as int + 10
    }
}

/// The number that the digits of `s` denote in the given base, most
/// significant digit first.
pub open spec fn numeral_value(s: Seq<char>, base: int) -> int
    decreases s.len(),
{
    if s.len() == 0 {
        0
    } else {
        numeral_value(s.drop_last(), base) * base + hex_value(s.last())
    }
}

/// Every character of `s` is a decimal digit.
pub open spec fn all_digits(s: Seq<char>) -> bool {
    forall|i: int| 0 <= i < s.len() ==> is_digit(#[trigger] s[i])
}

/// Every character of `s` is a hexadecimal digit.
pub open spec fn all_hex_digits(s: Seq<char>) -> bool {
    forall|i: int| 0 <= i < s.len() ==> is_hex_digit(#[trigger] s[i])
}

/// A numeral denotes no negative number.
pub proof fn numeral_value_nonnegative(s: Seq<char>, base: int)
    requires
        base >= 1,
        all_hex_digits(s),
    ensures
        numeral_value(s, base) >= 0,
    decreases s.len(),
{
    if s.len() > 0 {
        numeral_value_nonnegative(s.drop_last(), base);
        assert(is_hex_digit(s[s.len() - 1]));
        assert(numeral_value(s.drop_last(), base) * base >= 0) by (nonlinear_arith)
            requires
                numeral_value(s.drop_last(), base) >= 0,
                base >= 1,
        ;
    }
}

/// The value of the decimal digits `s[from..]`, or `None` when there is no
/// digit, a character is not a digit, or the value exceeds `limit`.
pub fn parse_decimal(s: &Vec<char>, from: usize, limit: u32) -> (r: Option<u32>)
    requires
        from <= s.len(),
        limit <= 0x1000_0000,
    ensures
        r is Some <==> {
            &&& from < s.len()
            &&& all_digits(s@.subrange(from as int, s.len() as int))
            &&& numeral_value(s@.subrange(from as int, s.len() as int), 10) <= limit
        },
        r matches Some(v) ==> v == numeral_value(s@.subrange(from as int, s.len() as int), 10),
{
    parse_numeral(s, from, limit, false)
}

/// The value of the hexadecimal digits `s[from..]`, or `None` when there is
/// no digit, a character is not a hexadecimal digit, or the value exceeds
/// `limit`.
pub fn parse_hex(s: &Vec<char>, from: usize, limit: u32) -> (r: Option<u32>)
    requires
        from <= s.len(),
        limit <= 0x1000_0000,
    ensures
        r is Some <==> {
            &&& from < s.len()
            &&& all_hex_digits(s@.subrange(from as int, s.len() as int))
            &&& numeral_value(s@.subrange(from as int, s.len() as int), 16) <= limit
        },
        r matches Some(v) ==> v == numeral_value(s@.subrange(from as int, s.len() as int), 16),
{
    parse_numeral(s, from, limit, true)
}

fn digit_value_of(c: char, hex: bool) -> (r: Option<u32>)
    ensures
        r is Some <==> (if hex {
            is_hex_digit(c)
        } else {
            is_digit(c)
        }),
        r matches Some(v) ==> v == hex_value(c) && v < 16,
{
    if '0' <= c && c <= '9' {
        Some((c as u32) - ('0' as u32))
    } else if hex && 'a' <= c && c <= 'f' {
        Some((c as u32) - ('a' as u32) + 10)
    } else if hex && 'A' <= c && c <= 'F' {
        Some((c as u32) - ('A' as u32) + 10)
    } else {
        None
    }
}

proof fn numeral_value_grows(s: Seq<char>, base: int, k: int)
    requires
        base >= 2,
        all_hex_digits(s),
        0 <= k <= s.len(),
    ensures
        numeral_value(s.subrange(0, k), base) <= numeral_value(s, base),
    decreases s.len() - k,
{
    if k < s.len() {
        let t = s.subrange(0, k + 1);
        assert(t.drop_last() == s.subrange(0, k));
        assert(is_hex_digit(s[k]));
        assert(t.last() == s[k]);
        assert forall|i: int| 0 <= i < k implies is_hex_digit(#[trigger] s.subrange(0, k)[i]) by {
            assert(is_hex_digit(s[i]));
        }
        numeral_value_nonnegative(s.subrange(0, k), base);
        let v = numeral_value(s.subrange(0, k), base);
        assert(v * base >= v) by (nonlinear_arith)
            requires
                v >= 0,
                base >= 2,
        ;
        numeral_value_grows(s, base, k + 1);
    } else {
        assert(s.subrange(0, k) == s);
    }
}

fn parse_numeral(s: &Vec<char>, from: usize, limit: u32, hex: bool) -> (r: Option<u32>)
    requires
        from <= s.len(),
        limit <= 0x1000_0000,
    ensures
        r is Some <==> {
            &&& from < s.len()
            &&& (if hex {
                all_hex_digits(s@.subrange(from as int, s.len() as int))
            } else {
                all_digits(s@.subrange(from as int, s.len() as int))
            })
            &&& numeral_value(s@.subrange(from as int, s.len() as int), if hex { 16 } else { 10 })
                <= limit
        },
        r matches Some(v) ==> v == numeral_value(
            s@.subrange(from as int, s.len() as int),
            if hex { 16 } else { 10 },
        ),
{
    if from >= s.len() {
        return None;
    }
    let ghost digits = s@.subrange(from as int, s.len() as int);
    let ghost base: int = if hex { 16 } else { 10 };
    let b: u32 = if hex { 16 } else { 10 };
    let mut acc: u32 = 0;
    let mut i: usize = from;
    while i < s.len()
        invariant
            from <= i <= s.len(),
            digits == s@.subrange(from as int, s.len() as int),
            base == (if hex { 16int } else { 10int }),
            b == base,
            limit <= 0x1000_0000,
            acc <= limit,
            acc == numeral_value(digits.subrange(0, i - from), base),
            all_hex_digits(digits.subrange(0, i - from)),
            !hex ==> all_digits(digits.subrange(0, i - from)),
        decreases s.len() - i,
    {
        let ghost head = digits.subrange(0, i - from);
        let ghost next = digits.subrange(0, i - from + 1);
        assert(next.drop_last() == head);
        assert(next.last() == s[i as int]);
        match digit_value_of(s[i], hex) {
            None => {
                proof {
                    assert(digits[i - from] == s[i as int]);
                }
                return None;
            },
            Some(d) => {
                let wide: u64 = (acc as u64) * (b as u64) + (d as u64);
                assert(wide == numeral_value(next, base)) by (nonlinear_arith)
                    requires
                        wide == (acc as int) * (b as int) + (d as int),
                        numeral_value(next, base) == numeral_value(head, base) * base + hex_value(
                            next.last(),
                        ),
                        acc == numeral_value(head, base),
                        b == base,
                        d == hex_value(next.last()),
                ;
                assert forall|k: int| 0 <= k < next.len() implies is_hex_digit(
                    #[trigger] next[k],
                ) by {
                    if k < head.len() {
                        assert(next[k] == head[k]);
                    }
                }
                assert(!hex ==> all_digits(next)) by {
                    if !hex {
                        assert forall|k: int| 0 <= k < next.len() implies is_digit(
                            #[trigger] next[k],
                        ) by {
                            if k < head.len() {
                                assert(next[k] == head[k]);
                            }
                        }
                    }
                }
                if wide > limit as u64 {
                    proof {
                        if all_hex_digits(digits) {
                            numeral_value_grows(digits, base, i - from + 1);
                        }
                        if !hex && all_digits(digits) {
                            assert forall|k: int| 0 <= k < digits.len() implies is_hex_digit(
                                #[trigger] digits[k],
                            ) by {
                                assert(is_digit(digits[k]));
                            }
                            numeral_value_grows(digits, base, i - from + 1);
                        }
                    }
                    return None;
                }
                acc = wide as u32;
            },
        }
        i += 1;
    }
    assert(digits.subrange(0, digits.len() as int) == digits);
    Some(acc)
}

} // verus!
