//! Showing an error inside its file: the lines that it spans, and a line of carets below
//! them.
use vstd::prelude::*;
use vstd::utf8::*;

use crate::error::{is_slice, lemma_boundary_of_prefix, Span};
use crate::placement::lemma_boundary;
use crate::source::{SourceFile, SourceModel};
use crate::text::{
    append_copies, byte_len, characters, copies, decimal, decimal_text, lemma_encode_concat,
    lemma_utf8_len_split, utf8_len,
};

verus! {

/// The characters that end a line.
pub open spec fn is_line_end(c: char) -> bool {
    ||| '\u{a}' <= c <= '\u{d}'
    ||| c == '\u{85}'
    ||| c == '\u{2028}'
    ||| c == '\u{2029}'
}

/// The number of UTF-16 units that a character takes.
pub open spec fn utf16_units(c: char) -> nat {
    if c >= '\u{10000}' {
        2
    } else {
        1
    }
}

/// The number of UTF-16 units that a text takes.
pub open spec fn utf16_len(s: Seq<char>) -> nat
    decreases s.len(),
{
    if s.len() == 0 {
        0
    } else {
        utf16_len(s.drop_last()) + utf16_units(s.last())
    }
}

/// The number of the line at the end of `s`, from 1.
pub open spec fn line_number(s: Seq<char>) -> nat
    decreases s.len(),
{
    if s.len() == 0 {
        1
    } else if is_line_end(s.last()) {
        line_number(s.drop_last()) + 1
    } else {
        line_number(s.drop_last())
    }
}

/// The column at the end of `s`, from 1, in UTF-16 units.
pub open spec fn column(s: Seq<char>) -> nat
    decreases s.len(),
{
    if s.len() == 0 || is_line_end(s.last()) {
        1
    } else {
        column(s.drop_last()) + utf16_units(s.last())
    }
}

/// The lines of `s`, without the characters that end them.
pub open spec fn lines_of(s: Seq<char>) -> Seq<Seq<char>>
    decreases s.len(),
{
    if s.len() == 0 {
        seq![Seq::empty()]
    } else {
        let before = lines_of(s.drop_last());
        if is_line_end(s.last()) {
            before.push(Seq::empty())
        } else {
            before.drop_last().push(before.last().push(s.last()))
        }
    }
}

/// The text of `file` before the byte `offset`; nothing where the offset lies outside the
/// file or inside a character.
pub open spec fn text_before(file: Seq<char>, offset: int) -> Seq<char> {
    if is_slice(file, 0, offset) {
        decode_utf8(encode_utf8(file).subrange(0, offset))
    } else {
        Seq::empty()
    }
}

/// The line and column of the byte `offset` of `file`.
pub open spec fn position(file: Seq<char>, offset: int) -> (nat, nat) {
    let before = text_before(file, offset);
    (line_number(before), column(before))
}

/// Whether an error with this span can be shown in `file`: the file is empty, so that
/// nothing of it is shown; or the span does not end before it starts, which may at most put
/// its end on the line before.
pub open spec fn renderable(file: Seq<char>, span: Span) -> bool {
    let (start_line, start_col) = position(file, span.start as int);
    let (end_line, end_col) = position(file, span.end as int);
    file.len() == 0 || (start_line <= end_line + 1 && (start_line < end_line || start_col
        <= end_col) && utf8_len(file) < usize::MAX)
}

/// The number `n`, with spaces before it up to `width` characters.
pub open spec fn right_aligned(n: nat, width: nat) -> Seq<char> {
    if decimal(n).len() < width {
        copies(' ', (width - decimal(n).len()) as nat) + decimal(n)
    } else {
        decimal(n)
    }
}

/// The lines with their numbers, the first of which is `first`.
pub open spec fn numbered(lines: Seq<Seq<char>>, first: nat, width: nat) -> Seq<char>
    decreases lines.len(),
{
    if lines.len() == 0 {
        Seq::empty()
    } else {
        numbered(lines.drop_last(), first, width) + right_aligned(
            (first + lines.len() - 1) as nat,
            width,
        ) + " | "@ + lines.last() + "\n"@
    }
}

/// The lines from number `first` to number `last`, as far as there are any.
pub open spec fn spanned(lines: Seq<Seq<char>>, first: nat, last: nat) -> Seq<Seq<char>> {
    if first > lines.len() || last < first {
        Seq::empty()
    } else if last <= lines.len() {
        lines.subrange(first - 1, last as int)
    } else {
        lines.skip(first - 1)
    }
}

/// The line that names the place of an error.
pub open spec fn place(name: Option<Seq<char>>, line: nat, col: nat, width: nat) -> Seq<char> {
    match name {
        Some(name) => copies(' ', width) + "--> "@ + name + ":"@ + decimal(line) + ":"@ + decimal(
            col,
        ) + "\n"@,
        None => Seq::empty(),
    }
}

/// The spaces and carets that mark a span: its columns, where it lies on one line, and the
/// whole first line, where it covers several.
pub open spec fn underline(
    file: Seq<char>,
    start: (nat, nat),
    end: (nat, nat),
) -> Seq<char> {
    if end.0 > start.0 {
        let lines = lines_of(file);
        let carets = if start.0 <= lines.len() {
            utf16_len(lines[start.0 - 1])
        } else {
            0
        };
        copies(' ', 1) + copies('^', carets)
    } else {
        let carets = if end.1 > start.1 {
            (end.1 - start.1) as nat
        } else {
            1
        };
        copies(' ', start.1) + copies('^', carets)
    }
}

/// How an error message is shown in its file.
pub open spec fn rendered(message: Seq<char>, source: SourceModel, span: Span) -> Seq<char> {
    let file = source.content;
    let start = position(file, span.start as int);
    let end = position(file, span.end as int);
    let width = decimal(end.0).len();
    if file.len() == 0 {
        message
    } else {
        place(source.name, start.0, start.1, width) + copies(' ', width) + " |\n"@ + numbered(
            spanned(lines_of(file), start.0, end.0),
            start.0,
            width,
        ) + copies(' ', width) + " |"@ + underline(file, start, end) + " "@ + message
    }
}

// ---------------------------------------------------------------------------------------
// Facts about the definitions
// ---------------------------------------------------------------------------------------

/// A character takes no more UTF-16 units than bytes.
proof fn lemma_units(c: char)
    ensures
        utf16_units(c) <= utf8_len(seq![c]),
{
    char_is_scalar(c);
    reveal_with_fuel(encode_utf8, 2);
    assert(seq![c].drop_first() =~= Seq::<char>::empty());
}

/// Lines and columns are bounded by the bytes of a text.
proof fn lemma_position_bound(s: Seq<char>)
    ensures
        1 <= line_number(s) <= utf8_len(s) + 1,
        1 <= column(s) <= utf8_len(s) + 1,
    decreases s.len(),
{
    if s.len() > 0 {
        lemma_position_bound(s.drop_last());
        assert(s =~= s.drop_last() + seq![s.last()]);
        lemma_encode_concat(s.drop_last(), seq![s.last()]);
        lemma_units(s.last());
    } else {
        assert(s =~= Seq::<char>::empty());
    }
}

/// The UTF-16 units of a text are bounded by its bytes.
proof fn lemma_utf16_bound(s: Seq<char>)
    ensures
        utf16_len(s) <= utf8_len(s),
    decreases s.len(),
{
    if s.len() > 0 {
        lemma_utf16_bound(s.drop_last());
        assert(s =~= s.drop_last() + seq![s.last()]);
        lemma_encode_concat(s.drop_last(), seq![s.last()]);
        lemma_units(s.last());
    }
}

/// There is always a line, and their number is that of the last line.
proof fn lemma_lines(s: Seq<char>)
    ensures
        lines_of(s).len() == line_number(s),
        line_number(s) >= 1,
    decreases s.len(),
{
    if s.len() > 0 {
        lemma_lines(s.drop_last());
    }
}

/// A longer text ends at no earlier place.
proof fn lemma_position_monotone(s: Seq<char>, i: int)
    requires
        0 <= i <= s.len(),
    ensures
        line_number(s.take(i)) <= line_number(s),
        line_number(s.take(i)) == line_number(s) ==> column(s.take(i)) <= column(s),
    decreases s.len() - i,
{
    if i < s.len() {
        lemma_position_monotone(s, i + 1);
        assert(s.take(i + 1).drop_last() =~= s.take(i));
        lemma_lines(s.take(i));
    } else {
        assert(s.take(i) =~= s);
    }
}

/// A span of whole characters can be shown.
pub proof fn law_valid_span_is_renderable(file: Seq<char>, span: Span)
    requires
        is_slice(file, span.start as int, span.end as int),
        utf8_len(file) < usize::MAX,
    ensures
        renderable(file, span),
{
    let bytes = encode_utf8(file);
    encode_utf8_valid_utf8(file);
    is_char_boundary_start_end_of_seq(bytes);
    let start = span.start as int;
    let end = span.end as int;
    assert(is_slice(file, 0, start));
    assert(is_slice(file, 0, end));
    lemma_boundary_of_prefix(bytes, start, end);
    let whole = bytes.subrange(0, end);
    valid_utf8_split(whole, start);
    let head = whole.subrange(0, start);
    let tail = whole.subrange(start, end);
    assert(head =~= bytes.subrange(0, start));
    decode_utf8_encode_utf8(head);
    decode_utf8_encode_utf8(tail);
    let a = decode_utf8(head);
    let b = decode_utf8(tail);
    lemma_encode_concat(a, b);
    assert(head + tail =~= whole);
    encode_utf8_decode_utf8(a + b);
    assert(text_before(file, end) == a + b);
    assert((a + b).take(a.len() as int) =~= a);
    lemma_position_monotone(a + b, a.len() as int);
}

// ---------------------------------------------------------------------------------------
// Rendering
// ---------------------------------------------------------------------------------------

/// Calls `chumsky::text::Char::is_newline` on a character. It is true of the line feed, the
/// vertical tab, the form feed, the carriage return, the next-line character, the line
/// separator and the paragraph separator.
#[verifier::external_body]
fn is_newline(c: char) -> (r: bool)
    ensures
        r == is_line_end(c),
{
    chumsky::text::Char::is_newline(&c)
}

/// The number of UTF-16 units that a character takes.
fn units(c: char) -> (r: usize)
    ensures
        r == utf16_units(c),
{
    if c >= '\u{10000}' {
        2
    } else {
        1
    }
}

/// The line and column of the byte `offset` of `file`, both from 1. An offset outside the
/// file or inside a character counts as its beginning.
pub fn get_line_col(file: &str, offset: usize) -> (r: (usize, usize))
    requires
        utf8_len(file@) < usize::MAX,
    ensures
        (r.0 as nat, r.1 as nat) == position(file@, offset as int),
{
    proof {
        encode_utf8_valid_utf8(file@);
        is_char_boundary_start_end_of_seq(encode_utf8(file@));
    }
    let slice = match (Span { start: 0, end: offset }).to_slice(file) {
        Some(slice) => {
            proof {
                encode_utf8_decode_utf8(slice@);
            }
            slice
        },
        None => "",
    };
    proof {
        reveal_strlit("");
        assert(slice@ == text_before(file@, offset as int)) by {
            if !is_slice(file@, 0, offset as int) {
                assert(slice@ =~= Seq::<char>::empty());
            }
        }
        lemma_utf8_len_split(""@, 0);
        assert(utf8_len(slice@) <= utf8_len(file@)) by {
            if !is_slice(file@, 0, offset as int) {
                assert(encode_utf8(slice@) =~= Seq::<u8>::empty());
            }
        }
    }
    let cs = characters(slice);
    let mut line: usize = 1;
    let mut col: usize = 1;
    let mut i: usize = 0;
    assert(cs@.take(0) =~= Seq::<char>::empty());
    while i < cs.len()
        invariant
            i <= cs.len(),
            utf8_len(cs@) < usize::MAX,
            line == line_number(cs@.take(i as int)),
            col == column(cs@.take(i as int)),
        decreases cs.len() - i,
    {
        proof {
            let next = cs@.take(i + 1);
            assert(next.drop_last() =~= cs@.take(i as int));
            lemma_position_bound(next);
            lemma_utf8_len_split(cs@, i + 1);
        }
        if is_newline(cs[i]) {
            line = line + 1;
            col = 1;
        } else {
            col = col + units(cs[i]);
        }
        i = i + 1;
    }
    assert(cs@.take(i as int) =~= cs@);
    (line, col)
}

/// Whether an error with this span can be shown in `file`.
pub fn can_render(file: &str, span: Span) -> (r: bool)
    ensures
        r == renderable(file@, span),
{
    if file.is_empty() {
        return true;
    }
    if byte_len(file) == usize::MAX {
        return false;
    }
    let start = get_line_col(file, span.start);
    let end = get_line_col(file, span.end);
    (start.0 <= end.0 || start.0 - end.0 == 1) && (start.0 < end.0 || start.1 <= end.1)
}

/// The views of the pieces.
pub open spec fn views(pieces: Seq<&str>) -> Seq<Seq<char>> {
    pieces.map_values(|s: &str| s@)
}

/// The lines of `content`.
fn split_lines<'a>(content: &'a str) -> (r: Vec<&'a str>)
    ensures
        views(r@) == lines_of(content@),
{
    let cs = characters(content);
    let mut done: Vec<&'a str> = Vec::new();
    let mut from: usize = 0;
    let mut i: usize = 0;
    assert(cs@.take(0) =~= Seq::<char>::empty());
    assert(cs@.subrange(0, 0) =~= Seq::<char>::empty());
    assert(views(done@).push(cs@.subrange(0, 0)) =~= lines_of(cs@.take(0)));
    while i < cs.len()
        invariant
            cs@ == content@,
            from <= i <= cs.len(),
            views(done@).push(cs@.subrange(from as int, i as int)) == lines_of(cs@.take(i as int)),
        decreases cs.len() - i,
    {
        let ghost before = lines_of(cs@.take(i as int));
        proof {
            assert(cs@.take(i + 1).drop_last() =~= cs@.take(i as int));
        }
        if is_newline(cs[i]) {
            let ghost old_done = done@;
            let line = content.substring_char(from, i);
            done.push(line);
            from = i + 1;
            proof {
                assert(views(done@) =~= views(old_done).push(line@));
                assert(cs@.subrange(from as int, i + 1) =~= Seq::<char>::empty());
            }
        } else {
            proof {
                assert(before.drop_last() =~= views(done@));
                assert(cs@.subrange(from as int, i + 1) =~= cs@.subrange(
                    from as int,
                    i as int,
                ).push(cs@[i as int]));
            }
        }
        i = i + 1;
    }
    let ghost old_done = done@;
    assert(cs@.take(i as int) =~= cs@);
    let line = content.substring_char(from, cs.len());
    done.push(line);
    assert(views(done@) =~= views(old_done).push(line@));
    done
}

/// The number of UTF-16 units that a text takes.
fn utf16_count(s: &str) -> (r: usize)
    ensures
        r == utf16_len(s@),
{
    let cs = characters(s);
    let total = byte_len(s);
    let mut n: usize = 0;
    let mut i: usize = 0;
    while i < cs.len()
        invariant
            i <= cs.len(),
            total == utf8_len(cs@),
            n == utf16_len(cs@.take(i as int)),
        decreases cs.len() - i,
    {
        proof {
            let next = cs@.take(i + 1);
            assert(next.drop_last() =~= cs@.take(i as int));
            lemma_utf16_bound(next);
            lemma_utf8_len_split(cs@, i + 1);
        }
        n = n + units(cs[i]);
        i = i + 1;
    }
    assert(cs@.take(i as int) =~= cs@);
    n
}

/// Append the lines from number `first` to number `last`, with their numbers.
fn append_lines(out: &mut String, lines: &Vec<&str>, first: usize, last: usize, width: usize)
    requires
        first >= 1,
    ensures
        final(out)@ == old(out)@ + numbered(
            spanned(views(lines@), first as nat, last as nat),
            first as nat,
            width as nat,
        ),
{
    let ghost start = out@;
    let ghost shown = spanned(views(lines@), first as nat, last as nat);
    let mut k: usize = first - 1;
    assert(start + numbered(shown.take(0), first as nat, width as nat) =~= start);
    while k < last && k < lines.len()
        invariant
            first >= 1,
            first - 1 <= k,
            k <= first - 1 || (k <= last && k <= lines.len()),
            shown == spanned(views(lines@), first as nat, last as nat),
            k - (first - 1) <= shown.len(),
            out@ == start + numbered(shown.take(k - (first - 1)), first as nat, width as nat),
        decreases lines.len() - k,
    {
        let ghost before = out@;
        let number = decimal_text((k as u64) + 1);
        let n = number.as_str().unicode_len();
        if n < width {
            proof {
                reveal_strlit(" ");
            }
            append_copies(out, " ", width - n);
        }
        out.append(number.as_str());
        out.append(" | ");
        out.append(lines[k]);
        out.append("\n");
        proof {
            let m = k - (first - 1) + 1;
            let now = shown.take(m);
            assert(now.drop_last() =~= shown.take(m - 1));
            assert(now.last() == lines@[k as int]@);
            assert(first + now.len() - 1 == k + 1);
            assert(out@ =~= before + (right_aligned((k + 1) as nat, width as nat) + " | "@
                + lines@[k as int]@ + "\n"@));
            assert(out@ =~= start + numbered(now, first as nat, width as nat));
        }
        k = k + 1;
    }
    assert(shown.take(k - (first - 1)) =~= shown);
}

/// Append the spaces and carets that mark a span.
fn append_underline(
    out: &mut String,
    content: &str,
    lines: &Vec<&str>,
    start: (usize, usize),
    end: (usize, usize),
)
    requires
        views(lines@) == lines_of(content@),
        start.0 >= 1,
        end.0 <= start.0 ==> start.1 <= end.1,
    ensures
        final(out)@ == old(out)@ + underline(
            content@,
            (start.0 as nat, start.1 as nat),
            (end.0 as nat, end.1 as nat),
        ),
{
    let ghost before = out@;
    proof {
        reveal_strlit(" ");
        reveal_strlit("^");
    }
    let (spaces, carets): (usize, usize) = if end.0 > start.0 {
        let start_line_len: usize = if start.0 - 1 < lines.len() {
            assert(views(lines@)[start.0 - 1] == lines@[start.0 - 1]@);
            utf16_count(lines[start.0 - 1])
        } else {
            0
        };
        (1, start_line_len)
    } else {
        let columns = end.1 - start.1;
        (start.1, if columns > 1 {
            columns
        } else {
            1
        })
    };
    append_copies(out, " ", spaces);
    append_copies(out, "^", carets);
    assert(out@ =~= before + (copies(' ', spaces as nat) + copies('^', carets as nat)));
}

/// Show an error message in its file.
pub fn render(message: &str, source: &SourceFile, span: Span) -> (r: String)
    requires
        renderable(source@.content, span),
    ensures
        r@ == rendered(message@, source@, span),
{
    let arc = source.content();
    let content: &str = &arc;
    if content.is_empty() {
        return message.to_string();
    }
    let start = get_line_col(content, span.start);
    let end = get_line_col(content, span.end);
    let end_line = decimal_text(end.0 as u64);
    let width = end_line.as_str().unicode_len();
    let mut r = String::new();
    proof {
        reveal_strlit(" ");
        lemma_lines(text_before(content@, span.start as int));
        lemma_lines(text_before(content@, span.end as int));
    }
    match source.name() {
        Some(name) => {
            append_copies(&mut r, " ", width);
            r.append("--> ");
            r.append(name);
            r.append(":");
            r.append(decimal_text(start.0 as u64).as_str());
            r.append(":");
            r.append(decimal_text(start.1 as u64).as_str());
            r.append("\n");
            assert(r@ =~= place(
                source@.name,
                start.0 as nat,
                start.1 as nat,
                width as nat,
            ));
        },
        None => {
            assert(r@ =~= Seq::<char>::empty());
        },
    }
    append_copies(&mut r, " ", width);
    r.append(" |\n");
    let lines = split_lines(content);
    append_lines(&mut r, &lines, start.0, end.0, width);
    append_copies(&mut r, " ", width);
    r.append(" |");
    append_underline(&mut r, content, &lines, start, end);
    r.append(" ");
    r.append(message);
    r
}

// ---------------------------------------------------------------------------------------
// What is shown
// ---------------------------------------------------------------------------------------

/// How many line ends a text holds.
pub open spec fn line_ends(s: Seq<char>) -> nat {
    s.filter(|c: char| is_line_end(c)).len()
}

/// How many columns a text takes: one for each character, and another for each that lies
/// outside the basic plane.
pub open spec fn columns_of(s: Seq<char>) -> nat {
    s.len() + s.filter(|c: char| c >= '\u{10000}').len()
}

/// Whether a text lies on one line.
pub open spec fn on_one_line(s: Seq<char>) -> bool {
    forall|i: int| 0 <= i < s.len() ==> !is_line_end(#[trigger] s[i])
}

/// Whether a line starts behind a text.
pub open spec fn starts_line(before: Seq<char>) -> bool {
    before.len() == 0 || is_line_end(before.last())
}

/// Whether a line ends before a text.
pub open spec fn ends_line(after: Seq<char>) -> bool {
    after.len() == 0 || is_line_end(after[0])
}

/// The characters that end a line are the line feed, the vertical tab, the form feed, the
/// carriage return, the next-line character and the separators of lines and paragraphs.
pub proof fn law_line_ends(c: char)
    ensures
        is_line_end(c) <==> seq![
            '\n',
            '\u{b}',
            '\u{c}',
            '\r',
            '\u{85}',
            '\u{2028}',
            '\u{2029}',
        ].contains(c),
{
    let ends = seq!['\n', '\u{b}', '\u{c}', '\r', '\u{85}', '\u{2028}', '\u{2029}'];
    assert(ends[0] == '\n' && ends[1] == '\u{b}' && ends[2] == '\u{c}' && ends[3] == '\r');
    assert(ends[4] == '\u{85}' && ends[5] == '\u{2028}' && ends[6] == '\u{2029}');
    char_is_scalar(c);
    if is_line_end(c) {
        let n = c as u32;
        assert(n == 0xa || n == 0xb || n == 0xc || n == 0xd || n == 0x85 || n == 0x2028 || n
            == 0x2029);
    }
}

/// The number of a line is one more than there are line ends before it.
pub proof fn law_lines_are_counted(s: Seq<char>)
    ensures
        line_number(s) == line_ends(s) + 1,
    decreases s.len(),
{
    reveal(Seq::filter);
    if s.len() > 0 {
        law_lines_are_counted(s.drop_last());
    }
}

/// A text takes as many UTF-16 units as columns.
pub proof fn law_units_are_columns(s: Seq<char>)
    ensures
        utf16_len(s) == columns_of(s),
    decreases s.len(),
{
    reveal(Seq::filter);
    if s.len() > 0 {
        law_units_are_columns(s.drop_last());
    }
}

/// The column behind the text that starts a line is one more than the text takes.
pub proof fn law_columns_are_counted(before: Seq<char>, head: Seq<char>)
    requires
        starts_line(before),
        on_one_line(head),
    ensures
        column(before + head) == columns_of(head) + 1,
    decreases head.len(),
{
    reveal(Seq::filter);
    if head.len() > 0 {
        let rest = head.drop_last();
        assert forall|i: int| 0 <= i < rest.len() implies !is_line_end(#[trigger] rest[i]) by {
            assert(rest[i] == head[i]);
        }
        law_columns_are_counted(before, rest);
        assert((before + head).drop_last() =~= before + rest);
        assert((before + head).last() == head[head.len() - 1]);
    } else {
        assert(before + head =~= before);
    }
}

/// The byte behind a text is at the end of the text.
pub proof fn law_byte_is_behind_the_text(before: Seq<char>, after: Seq<char>)
    ensures
        text_before(before + after, utf8_len(before) as int) == before,
        position(before + after, utf8_len(before) as int) == (line_number(before), column(before)),
{
    let file = before + after;
    let bytes = encode_utf8(file);
    let at = before.len() as int;
    assert(file.take(at) =~= before);
    lemma_boundary(file, 0);
    lemma_boundary(file, at);
    assert(file.take(0) =~= Seq::<char>::empty());
    lemma_encode_concat(before, after);
    assert(bytes.subrange(0, utf8_len(before) as int) =~= encode_utf8(before));
    encode_utf8_valid_utf8(file);
    is_char_boundary_start_end_of_seq(bytes);
    encode_utf8_decode_utf8(before);
}

/// An offset outside a file or inside one of its characters counts as the beginning.
pub proof fn law_stray_offset_is_the_beginning(file: Seq<char>, offset: int)
    requires
        !is_slice(file, 0, offset),
    ensures
        position(file, offset) == (1nat, 1nat),
{
}

/// A text on one line is one line.
pub proof fn law_one_line(s: Seq<char>)
    requires
        on_one_line(s),
    ensures
        lines_of(s) == seq![s],
    decreases s.len(),
{
    if s.len() > 0 {
        let rest = s.drop_last();
        assert forall|i: int| 0 <= i < rest.len() implies !is_line_end(#[trigger] rest[i]) by {
            assert(rest[i] == s[i]);
        }
        law_one_line(rest);
        assert(s.last() == s[s.len() - 1]);
        assert(rest.push(s.last()) =~= s);
        assert(lines_of(s) =~= seq![s]);
    } else {
        assert(s =~= Seq::<char>::empty());
    }
}

/// The lines on both sides of a line end are those of the two sides.
pub proof fn law_lines_of_parts(a: Seq<char>, e: char, b: Seq<char>)
    requires
        is_line_end(e),
    ensures
        lines_of(a + seq![e] + b) == lines_of(a) + lines_of(b),
    decreases b.len(),
{
    let all = a + seq![e] + b;
    if b.len() == 0 {
        assert(all.drop_last() =~= a);
        assert(lines_of(all) =~= lines_of(a) + lines_of(b));
    } else {
        let rest = b.drop_last();
        law_lines_of_parts(a, e, rest);
        assert(all.drop_last() =~= a + seq![e] + rest);
        assert(all.last() == b.last());
        lemma_lines(rest);
        let before = lines_of(a) + lines_of(rest);
        if is_line_end(b.last()) {
            assert(lines_of(all) =~= lines_of(a) + lines_of(b));
        } else {
            assert(before.drop_last() =~= lines_of(a) + lines_of(rest).drop_last());
            assert(before.last() == lines_of(rest).last());
            assert(lines_of(all) =~= lines_of(a) + lines_of(b));
        }
    }
}

/// Where a line starts behind `before`, the lines of `before` stand before it.
proof fn lemma_lines_behind(before: Seq<char>, rest: Seq<char>)
    requires
        starts_line(before),
    ensures
        lines_of(before + rest) == lines_of(before).drop_last() + lines_of(rest),
        lines_of(before).len() == line_number(before),
{
    lemma_lines(before);
    if before.len() == 0 {
        assert(before + rest =~= rest);
        assert(lines_of(before).drop_last() + lines_of(rest) =~= lines_of(rest));
    } else {
        let e = before.last();
        let a = before.drop_last();
        law_lines_of_parts(a, e, rest);
        assert(before + rest =~= a + seq![e] + rest);
        assert(lines_of(before).drop_last() =~= lines_of(a));
    }
}

/// Where a line ends behind `line`, it is the first line.
proof fn lemma_first_line(line: Seq<char>, after: Seq<char>)
    requires
        on_one_line(line),
        ends_line(after),
    ensures
        lines_of(line + after).len() > 0,
        lines_of(line + after)[0] == line,
{
    law_one_line(line);
    if after.len() == 0 {
        assert(line + after =~= line);
    } else {
        let e = after[0];
        let rest = after.drop_first();
        law_lines_of_parts(line, e, rest);
        assert(line + after =~= line + seq![e] + rest);
    }
}

/// Lines are numbered one after the other.
pub proof fn law_lines_are_numbered_in_turn(
    a: Seq<Seq<char>>,
    b: Seq<Seq<char>>,
    first: nat,
    width: nat,
)
    ensures
        numbered(a + b, first, width) == numbered(a, first, width) + numbered(
            b,
            first + a.len(),
            width,
        ),
    decreases b.len(),
{
    if b.len() == 0 {
        assert(a + b =~= a);
        assert(numbered(a, first, width) + Seq::<char>::empty() =~= numbered(a, first, width));
    } else {
        let rest = b.drop_last();
        law_lines_are_numbered_in_turn(a, rest, first, width);
        assert((a + b).drop_last() =~= a + rest);
        assert((a + b).last() == b.last());
        assert(first + (a + b).len() - 1 == (first + a.len()) + b.len() - 1);
        assert(numbered(a + b, first, width) =~= numbered(a, first, width) + numbered(
            b,
            first + a.len(),
            width,
        ));
    }
}

/// A line is shown behind its number and a bar, the number aligned to the right.
pub proof fn law_line_is_numbered(line: Seq<char>, number: nat, width: nat)
    requires
        decimal(number).len() <= width,
    ensures
        numbered(seq![line], number, width) == copies(
            ' ',
            (width - decimal(number).len()) as nat,
        ) + decimal(number) + " | "@ + line + "\n"@,
{
    let lines = seq![line];
    assert(lines.drop_last() =~= Seq::<Seq<char>>::empty());
    assert(numbered(lines.drop_last(), number, width) =~= Seq::<char>::empty());
    assert(numbered(lines, number, width) =~= copies(
        ' ',
        (width - decimal(number).len()) as nat,
    ) + decimal(number) + " | "@ + line + "\n"@);
}

/// The line that names a place: an arrow, the file, the line and the column. There is none
/// for a text without a file.
pub open spec fn arrow(name: Option<Seq<char>>, line: nat, col: nat, width: nat) -> Seq<char> {
    match name {
        Some(name) => copies(' ', width) + "--> "@ + name + ":"@ + decimal(line) + ":"@ + decimal(
            col,
        ) + "\n"@,
        None => Seq::empty(),
    }
}

/// An error on one line of a file, whichever it is, is shown below that line and no other:
/// the line behind its number, and the carets below the error. The first of them stands as
/// many columns behind the bar as the text before the error on its line takes, and one more;
/// there are as many as the error takes, and at least one; and the message follows.
pub proof fn law_error_on_one_line_is_shown(
    before: Seq<char>,
    head: Seq<char>,
    body: Seq<char>,
    tail: Seq<char>,
    after: Seq<char>,
    name: Option<Seq<char>>,
    span: Span,
    message: Seq<char>,
)
    requires
        starts_line(before),
        on_one_line(head),
        on_one_line(body),
        on_one_line(tail),
        ends_line(after),
        (before + head + body + tail + after).len() > 0,
        span.start == utf8_len(before + head),
        span.end == utf8_len(before + head + body),
    ensures
        ({
            let content = before + head + body + tail + after;
            let number = line_ends(before) + 1;
            let spaces = copies(' ', decimal(number).len());
            let carets = if columns_of(body) == 0 {
                1
            } else {
                columns_of(body)
            };
            rendered(message, SourceModel { name, content }, span) == arrow(
                name,
                number,
                columns_of(head) + 1,
                decimal(number).len(),
            ) + spaces + " |\n"@ + (decimal(number) + " | "@ + (head + body + tail) + "\n"@)
                + spaces + " |"@ + (copies(' ', columns_of(head) + 1) + copies('^', carets)) + " "@
                + message
        }),
{
    let content = before + head + body + tail + after;
    let line = head + body + tail;
    let number = line_ends(before) + 1;
    let width = decimal(number).len();
    let to_start = before + head;
    let to_end = before + (head + body);
    // The place of the span.
    assert(before + head + body =~= to_end);
    assert(content =~= to_start + (body + tail + after));
    assert(content =~= to_end + (tail + after));
    law_byte_is_behind_the_text(to_start, body + tail + after);
    law_byte_is_behind_the_text(to_end, tail + after);
    assert(on_one_line(head + body)) by {
        assert forall|i: int| 0 <= i < (head + body).len() implies !is_line_end(
            #[trigger] (head + body)[i],
        ) by {
            if i >= head.len() {
                assert((head + body)[i] == body[i - head.len()]);
            }
        }
    }
    assert(on_one_line(line)) by {
        assert forall|i: int| 0 <= i < line.len() implies !is_line_end(#[trigger] line[i]) by {
            if i >= (head + body).len() {
                assert(line[i] == tail[i - (head + body).len()]);
            } else {
                assert(line[i] == (head + body)[i]);
            }
        }
    }
    law_columns_are_counted(before, head);
    law_columns_are_counted(before, head + body);
    lemma_same_line(before, head);
    lemma_same_line(before, head + body);
    law_lines_are_counted(before);
    lemma_columns_of_parts(head, body);
    let start = position(content, span.start as int);
    let end = position(content, span.end as int);
    assert(start == (number, columns_of(head) + 1));
    assert(end == (number, columns_of(head) + columns_of(body) + 1));
    // The line.
    let rest = line + after;
    assert(content =~= before + rest);
    lemma_lines_behind(before, rest);
    lemma_first_line(line, after);
    let lines = lines_of(content);
    assert(spanned(lines, number, number) =~= seq![line]);
    law_line_is_numbered(line, number, width);
    assert(numbered(seq![line], number, width) =~= decimal(number) + " | "@ + line + "\n"@);
}

/// No line ends in a text on one line.
proof fn lemma_same_line(before: Seq<char>, head: Seq<char>)
    requires
        on_one_line(head),
    ensures
        line_number(before + head) == line_number(before),
    decreases head.len(),
{
    if head.len() > 0 {
        let rest = head.drop_last();
        assert forall|i: int| 0 <= i < rest.len() implies !is_line_end(#[trigger] rest[i]) by {
            assert(rest[i] == head[i]);
        }
        lemma_same_line(before, rest);
        assert((before + head).drop_last() =~= before + rest);
        assert((before + head).last() == head[head.len() - 1]);
    } else {
        assert(before + head =~= before);
    }
}

proof fn lemma_columns_of_parts(a: Seq<char>, b: Seq<char>)
    ensures
        columns_of(a + b) == columns_of(a) + columns_of(b),
{
    Seq::filter_distributes_over_add(a, b, |c: char| c >= '\u{10000}');
}

proof fn lemma_line_ends_of_parts(a: Seq<char>, b: Seq<char>)
    ensures
        line_ends(a + b) == line_ends(a) + line_ends(b),
{
    Seq::filter_distributes_over_add(a, b, |c: char| is_line_end(c));
}

/// An error that spans several lines of a file is shown below all of them: the line on which
/// it starts, those between, and the line on which it ends, each behind its number. The carets
/// stand below the whole of the first.
pub proof fn law_error_on_several_lines_is_shown(
    before: Seq<char>,
    head: Seq<char>,
    first: Seq<char>,
    e: char,
    between: Seq<char>,
    last: Seq<char>,
    tail: Seq<char>,
    after: Seq<char>,
    name: Option<Seq<char>>,
    span: Span,
    message: Seq<char>,
)
    requires
        starts_line(before),
        on_one_line(head),
        on_one_line(first),
        is_line_end(e),
        starts_line(between),
        on_one_line(last),
        on_one_line(tail),
        ends_line(after),
        span.start == utf8_len(before + head),
        span.end == utf8_len(before + head + first + seq![e] + between + last),
    ensures
        ({
            let content = before + head + first + seq![e] + between + last + tail + after;
            let number = line_ends(before) + 1;
            let end = number + 1 + line_ends(between);
            let width = decimal(end).len();
            rendered(message, SourceModel { name, content }, span) == arrow(
                name,
                number,
                columns_of(head) + 1,
                width,
            ) + copies(' ', width) + " |\n"@ + (numbered(seq![head + first], number, width)
                + numbered(lines_of(between).drop_last(), number + 1, width) + numbered(
                seq![last + tail],
                end,
                width,
            )) + copies(' ', width) + " |"@ + (copies(' ', 1) + copies(
                '^',
                columns_of(head + first),
            )) + " "@ + message
        }),
{
    let content = before + head + first + seq![e] + between + last + tail + after;
    let number = line_ends(before) + 1;
    let end = number + 1 + line_ends(between);
    let width = decimal(end).len();
    let one = head + first;
    let other = last + tail;
    let inner = between + (other + after);
    let to_start = before + head;
    let to_end = before + head + first + seq![e] + between + last;
    // The place of the span.
    assert(content =~= to_start + (first + seq![e] + between + last + tail + after));
    assert(content =~= to_end + (tail + after));
    law_byte_is_behind_the_text(to_start, first + seq![e] + between + last + tail + after);
    law_byte_is_behind_the_text(to_end, tail + after);
    assert(on_one_line(one)) by {
        assert forall|i: int| 0 <= i < one.len() implies !is_line_end(#[trigger] one[i]) by {
            if i >= head.len() {
                assert(one[i] == first[i - head.len()]);
            }
        }
    }
    assert(on_one_line(other)) by {
        assert forall|i: int| 0 <= i < other.len() implies !is_line_end(#[trigger] other[i]) by {
            if i >= last.len() {
                assert(other[i] == tail[i - last.len()]);
            }
        }
    }
    law_columns_are_counted(before, head);
    lemma_same_line(before, head);
    law_lines_are_counted(before);
    assert(line_number(to_end) == end) by {
        let whole = before + one + seq![e];
        assert(to_end =~= (whole + between) + last);
        lemma_same_line(whole + between, last);
        law_lines_are_counted(whole + between);
        lemma_line_ends_of_parts(whole, between);
        law_lines_are_counted(whole);
        assert(whole.drop_last() =~= before + one);
        assert(whole.last() == e);
        lemma_same_line(before, one);
    }
    // The lines.
    assert(content =~= before + (one + seq![e] + inner));
    lemma_lines_behind(before, one + seq![e] + inner);
    law_lines_of_parts(one, e, inner);
    law_one_line(one);
    lemma_lines_behind(between, other + after);
    law_lines_are_counted(between);
    lemma_first_line(other, after);
    let lines = lines_of(content);
    let shown = spanned(lines, number, end);
    let middle = lines_of(between).drop_last();
    assert(lines =~= lines_of(before).drop_last() + (seq![one] + (middle + lines_of(
        other + after,
    ))));
    assert(shown =~= seq![one] + middle + seq![other]);
    law_lines_are_numbered_in_turn(seq![one] + middle, seq![other], number, width);
    law_lines_are_numbered_in_turn(seq![one], middle, number, width);
    // The carets.
    assert(lines[number - 1] == one);
    law_units_are_columns(one);
    assert(underline(
        content,
        position(content, span.start as int),
        position(content, span.end as int),
    ) == copies(' ', 1) + copies('^', columns_of(one)));
}

/// Nothing of an empty file is shown: the message stands alone.
pub proof fn law_empty_file_is_not_shown(name: Option<Seq<char>>, span: Span, message: Seq<char>)
    ensures
        rendered(message, SourceModel { name, content: Seq::empty() }, span) == message,
{
}

/// A span whose start lies outside the file or inside a character is shown from the beginning,
/// and can be, wherever it ends.
pub proof fn law_stray_start_is_renderable(file: Seq<char>, span: Span)
    requires
        !is_slice(file, 0, span.start as int),
        utf8_len(file) < usize::MAX,
    ensures
        renderable(file, span),
{
    lemma_position_bound(text_before(file, span.end as int));
}

} // verus!
