//! Finding the `simc "<version>";` directive of a file, without lexing the program.
use vstd::prelude::*;
use vstd::utf8::*;

use crate::error::Span;
use crate::text::{
    begins_with, byte_len, characters, find, is_white, is_white_space, lemma_position_of,
    lemma_utf8_len_split, lemma_white_prefix, lemma_white_suffix, position_of, skip_characters,
    starts_with, trim_end, trim_start, trimmed_end, trimmed_start, utf8_len, white_suffix,
};

verus! {

// ---------------------------------------------------------------------------------------
// What a directive is
// ---------------------------------------------------------------------------------------

/// A well-formed directive: the requirement between its quotes, and its bytes in the file.
pub struct DirectiveModel {
    pub req: Seq<char>,
    pub start: nat,
    pub end: nat,
}

/// The length of the first line of `s`, with its newline.
pub open spec fn first_line_len(s: Seq<char>) -> int {
    let newline = position_of(s, '\n');
    if newline < s.len() {
        newline + 1
    } else {
        s.len() as int
    }
}

/// The first line of `s`, with its newline.
pub open spec fn first_line(s: Seq<char>) -> Seq<char> {
    s.take(first_line_len(s))
}

/// Whether what follows the word `simc` can belong to a directive: nothing, white space or
/// a quote.
pub open spec fn ends_keyword(s: Seq<char>) -> bool {
    s.len() == 0 || is_white_space(s[0]) || s[0] == '"'
}

/// Whether a line begins an attempt at a directive, well-formed or not.
pub open spec fn looks_like_directive(line: Seq<char>) -> bool {
    begins_with(line, "simc"@) && ends_keyword(line.skip(4))
}

/// The requirement of the directive that `line` begins with, and the number of characters
/// from its `simc` to its `;`: the word `simc`, white space, a quoted text, white space and
/// a semicolon.
pub open spec fn directive_at(line: Seq<char>) -> Option<(Seq<char>, nat)> {
    let after = line.skip(4);
    let quoted = trimmed_start(after);
    let body = quoted.skip(1);
    let close = position_of(body, '"');
    let tail = trimmed_start(body.skip(close + 1));
    if looks_like_directive(line) && quoted.len() > 0 && quoted[0] == '"' && close < body.len()
        && tail.len() > 0 && tail[0] == ';' {
        Some((body.take(close), (line.len() - tail.len() + 1) as nat))
    } else {
        None
    }
}

// ---------------------------------------------------------------------------------------
// The items of a file
// ---------------------------------------------------------------------------------------

/// The characters of words.
pub open spec fn is_word_char(c: char) -> bool {
    ||| '0' <= c <= '9'
    ||| 'A' <= c <= 'Z'
    ||| 'a' <= c <= 'z'
    ||| c == '_'
    ||| c >= '\u{80}' && !is_white_space(c)
}

/// How many characters at the front of `s` belong to a word.
pub open spec fn word_prefix(s: Seq<char>) -> int
    decreases s.len(),
{
    if s.len() > 0 && is_word_char(s[0]) {
        1 + word_prefix(s.drop_first())
    } else {
        0
    }
}

/// The length of the item that `s` begins with: a directive, a word or a single character.
pub open spec fn item_len(s: Seq<char>) -> int {
    match directive_at(first_line(s)) {
        Some((req, n)) => n as int,
        None => if word_prefix(s) > 0 {
            word_prefix(s)
        } else {
            1
        },
    }
}

/// Whether the characters `a` and `b` stand at the front of `s`.
pub open spec fn pair_at(s: Seq<char>, a: char, b: char) -> bool {
    s.len() >= 2 && s[0] == a && s[1] == b
}

/// The positions of `positions`, each `by` characters further on.
pub open spec fn shifted(positions: Seq<int>, by: int) -> Seq<int> {
    positions.map_values(|p: int| p + by)
}

/// One step through a text: how many characters are passed, and whether a block comment is
/// open behind them. A block comment runs to its `*/` and a line comment to the end of its
/// line. White space is passed by, and anything else is an item.
pub open spec fn step(s: Seq<char>, in_block: bool) -> (int, bool) {
    if in_block {
        if pair_at(s, '*', '/') {
            (2, false)
        } else {
            (1, true)
        }
    } else if is_white_space(s[0]) {
        (1, false)
    } else if pair_at(s, '/', '/') {
        (first_line_len(s), false)
    } else if pair_at(s, '/', '*') {
        (2, true)
    } else {
        (item_len(s), false)
    }
}

/// Whether an item stands at the front of `s`.
pub open spec fn item_at(s: Seq<char>, in_block: bool) -> bool {
    !in_block && !is_white_space(s[0]) && !pair_at(s, '/', '/') && !pair_at(s, '/', '*')
}

/// The positions at which the items of `s` begin: directives, words and single characters,
/// outside of comments. `in_block` tells whether `s` begins inside a block comment.
pub open spec fn items(s: Seq<char>, in_block: bool) -> Seq<int>
    decreases s.len(),
{
    if s.len() == 0 {
        Seq::empty()
    } else {
        proof {
            lemma_step(s, in_block);
        }
        let (n, inside) = step(s, in_block);
        let rest = shifted(items(s.skip(n), inside), n);
        if item_at(s, in_block) {
            seq![0int] + rest
        } else {
            rest
        }
    }
}

/// The rest of the line on which the position `at` of `content` lies.
pub open spec fn line_at(content: Seq<char>, at: int) -> Seq<char> {
    first_line(content.skip(at))
}

/// The directive that stands at the position `at`, if one does.
pub open spec fn directive_on(content: Seq<char>, at: int) -> Option<DirectiveModel> {
    match directive_at(line_at(content, at)) {
        Some((req, n)) => Some(
            DirectiveModel {
                req,
                start: utf8_len(content.take(at)),
                end: utf8_len(content.take(at + n)),
            },
        ),
        None => None,
    }
}

/// Whether an attempt at a directive, well-formed or not, stands at the position `at`.
pub open spec fn attempt_on(content: Seq<char>, at: int) -> bool {
    looks_like_directive(line_at(content, at))
}

/// The directives among the items at `ps` that stand before any other item.
pub open spec fn leading(content: Seq<char>, ps: Seq<int>) -> Seq<DirectiveModel>
    decreases ps.len(),
{
    if ps.len() > 0 && directive_on(content, ps[0]) is Some {
        seq![directive_on(content, ps[0])->0] + leading(content, ps.drop_first())
    } else {
        Seq::empty()
    }
}

/// The directives before the first item of code of `content`.
pub open spec fn leading_in(content: Seq<char>) -> Seq<DirectiveModel> {
    leading(content, items(content, false))
}

/// The outcome of scanning a file for its directive, with byte ranges.
pub enum Scan {
    Found { req: Seq<char>, start: nat, end: nat },
    Absent,
    Malformed { start: nat, end: nat },
    Duplicate { start: nat, end: nat },
    Misplaced { start: nat, end: nat },
}

/// Whether one of the first `k` items is a directive.
pub open spec fn directive_before(content: Seq<char>, ps: Seq<int>, k: int) -> bool {
    exists|j: int| 0 <= j < k && directive_on(content, #[trigger] ps[j]) is Some
}

/// Whether one of the first `k` items is not a directive.
pub open spec fn code_before(content: Seq<char>, ps: Seq<int>, k: int) -> bool {
    exists|j: int| 0 <= j < k && directive_on(content, #[trigger] ps[j]) is None
}

/// How the item `k` breaks the rules, if it does: a directive after another one, a directive
/// after code, or an attempt at a directive before any code.
pub open spec fn offence(content: Seq<char>, ps: Seq<int>, k: int) -> Option<Scan> {
    match directive_on(content, ps[k]) {
        Some(d) => if directive_before(content, ps, k) {
            Some(Scan::Duplicate { start: d.start, end: d.end })
        } else if code_before(content, ps, k) {
            Some(Scan::Misplaced { start: d.start, end: d.end })
        } else {
            None
        },
        None => if attempt_on(content, ps[k]) && !code_before(content, ps, k) {
            let start = utf8_len(content.take(ps[k]));
            Some(
                Scan::Malformed {
                    start,
                    end: start + utf8_len(trimmed_end(line_at(content, ps[k]))),
                },
            )
        } else {
            None
        },
    }
}

/// The first offence at or after the item `k`.
pub open spec fn first_offence(content: Seq<char>, ps: Seq<int>, k: int) -> Option<Scan>
    decreases ps.len() - k,
{
    if 0 <= k < ps.len() {
        match offence(content, ps, k) {
            Some(s) => Some(s),
            None => first_offence(content, ps, k + 1),
        }
    } else {
        None
    }
}

/// What the items of a file say about its directive: the first offence, or else the
/// directive that is the first item, or else nothing.
pub open spec fn scan_items(content: Seq<char>, ps: Seq<int>) -> Scan {
    match first_offence(content, ps, 0) {
        Some(s) => s,
        None => if ps.len() > 0 && directive_on(content, ps[0]) is Some {
            let d = directive_on(content, ps[0])->0;
            Scan::Found { req: d.req, start: d.start, end: d.end }
        } else {
            Scan::Absent
        },
    }
}

/// The outcome of scanning the file `content`.
pub open spec fn scan(content: Seq<char>) -> Scan {
    scan_items(content, items(content, false))
}

// ---------------------------------------------------------------------------------------
// Facts about the definitions
// ---------------------------------------------------------------------------------------

/// The parts that `directive_at` names lie inside the line.
pub proof fn lemma_directive_at(t: Seq<char>)
    ensures
        directive_at(t) matches Some((req, n)) ==> 4 < n <= t.len() && t[n - 1] == ';',
{
    reveal_strlit("simc");
    if let Some((req, n)) = directive_at(t) {
        let after = t.skip(4);
        lemma_white_prefix(after);
        let quoted = trimmed_start(after);
        let body = quoted.skip(1);
        let close = position_of(body, '"');
        lemma_position_of(body, '"');
        lemma_white_prefix(body.skip(close + 1));
        let tail = trimmed_start(body.skip(close + 1));
        let k = t.len() - tail.len();
        assert(tail =~= t.skip(k));
        assert(t[k] == tail[0]);
    }
}

/// The word at the front of a text is its longest prefix of word characters.
pub proof fn lemma_word_prefix(s: Seq<char>)
    ensures
        0 <= word_prefix(s) <= s.len(),
        forall|i: int| 0 <= i < word_prefix(s) ==> is_word_char(#[trigger] s[i]),
        word_prefix(s) < s.len() ==> !is_word_char(s[word_prefix(s)]),
    decreases s.len(),
{
    if s.len() > 0 && is_word_char(s[0]) {
        let rest = s.drop_first();
        lemma_word_prefix(rest);
        assert forall|i: int| 0 <= i < word_prefix(s) implies is_word_char(#[trigger] s[i]) by {
            if i > 0 {
                assert(rest[i - 1] == s[i]);
            }
        }
    }
}

/// What fixes the word at the front of a text.
pub proof fn lemma_word_prefix_is(s: Seq<char>, k: int)
    requires
        0 <= k <= s.len(),
        forall|i: int| 0 <= i < k ==> is_word_char(#[trigger] s[i]),
        k < s.len() ==> !is_word_char(s[k]),
    ensures
        word_prefix(s) == k,
    decreases k,
{
    if k > 0 {
        assert(is_word_char(s[0]));
        assert forall|i: int| 0 <= i < k - 1 implies is_word_char(#[trigger] s.drop_first()[i]) by {
            assert(s.drop_first()[i] == s[i + 1]);
        }
        lemma_word_prefix_is(s.drop_first(), k - 1);
    }
}

/// A step passes at least one character, and no more than there are.
pub proof fn lemma_step(s: Seq<char>, in_block: bool)
    requires
        s.len() > 0,
    ensures
        1 <= step(s, in_block).0 <= s.len(),
{
    lemma_position_of(s, '\n');
    lemma_directive_at(first_line(s));
    lemma_word_prefix(s);
}

/// The items of a text lie inside it.
pub proof fn lemma_items_bound(s: Seq<char>, in_block: bool)
    ensures
        forall|i: int|
            0 <= i < items(s, in_block).len() ==> 0 <= #[trigger] items(s, in_block)[i] < s.len(),
    decreases s.len(),
{
    if s.len() > 0 {
        lemma_step(s, in_block);
        let (n, inside) = step(s, in_block);
        let rest = items(s.skip(n), inside);
        lemma_items_bound(s.skip(n), inside);
        assert forall|i: int| 0 <= i < items(s, in_block).len() implies 0 <= #[trigger] items(
            s,
            in_block,
        )[i] < s.len() by {
            if item_at(s, in_block) {
                if i > 0 {
                    assert(items(s, in_block)[i] == rest[i - 1] + n);
                }
            } else {
                assert(items(s, in_block)[i] == rest[i] + n);
            }
        }
    }
}

// ---------------------------------------------------------------------------------------
// Scanning
// ---------------------------------------------------------------------------------------

/// Whether a line begins a `simc "...";` directive attempt (well-formed or not); used to tell
/// a malformed directive apart from ordinary program code.
pub fn directive_looking(line: &str) -> (r: bool)
    ensures
        r == looks_like_directive(line@),
{
    proof {
        reveal_strlit("simc");
    }
    if !starts_with(line, "simc") {
        return false;
    }
    let after = skip_characters(line, 4);
    if after.is_empty() {
        return true;
    }
    let first = after.get_char(0);
    is_white(first) || first == '"'
}

/// Parse the front of a line as a `simc "...";` directive, returning the requirement string
/// and the number of characters of `simc "...";`.
pub fn extract_directive_from_line<'a>(line: &'a str) -> (r: Option<(&'a str, usize)>)
    ensures
        directive_at(line@) == match r {
            Some((req, n)) => Some((req@, n as nat)),
            None => None,
        },
{
    if !directive_looking(line) {
        return None;
    }
    proof {
        reveal_strlit("simc");
    }
    let after_simc = skip_characters(line, 4);
    let quoted = trim_start(after_simc);
    if quoted.is_empty() || quoted.get_char(0) != '"' {
        return None;
    }
    let body = skip_characters(quoted, 1);
    let close = match find(body, '"') {
        Some(close) => close,
        None => return None,
    };
    let req = body.substring_char(0, close);
    let after_quote = trim_start(skip_characters(body, close + 1));
    assert(req@ =~= body@.take(close as int));
    if after_quote.is_empty() || after_quote.get_char(0) != ';' {
        return None;
    }
    proof {
        lemma_white_prefix(after_simc@);
        lemma_white_prefix(body@.skip(close + 1));
    }
    let n = line.unicode_len() - after_quote.unicode_len() + 1;
    Some((req, n))
}

/// The span of `line` without the white space at its end, where the line begins at the byte
/// `offset`, for reporting a malformed directive.
pub fn directive_looking_span(line: &str, offset: usize) -> (r: Span)
    requires
        offset + utf8_len(line@) <= usize::MAX,
    ensures
        r.start == offset,
        r.end == offset + utf8_len(trimmed_end(line@)),
{
    proof {
        lemma_white_suffix(line@);
        lemma_utf8_len_split(line@, line@.len() - white_suffix(line@));
    }
    Span::new(offset, offset + byte_len(trim_end(line)))
}

/// An item of a file: a directive, with its requirement and span; an attempt at one, with
/// the span of the rest of its line; or code.
#[derive(Clone, Copy, Debug)]
pub enum Item<'a> {
    Directive(&'a str, Span),
    Attempt(Span),
    Code,
}

/// Whether `item` is the item that stands at the position `at` of `content`.
pub open spec fn stands_for(item: Item, content: Seq<char>, at: int) -> bool {
    match item {
        Item::Directive(req, span) => directive_on(content, at) == Some(
            DirectiveModel { req: req@, start: span.start as nat, end: span.end as nat },
        ),
        Item::Attempt(span) => {
            &&& directive_on(content, at) is None
            &&& attempt_on(content, at)
            &&& span.start == utf8_len(content.take(at))
            &&& span.end == span.start + utf8_len(trimmed_end(line_at(content, at)))
        },
        Item::Code => directive_on(content, at) is None && !attempt_on(content, at),
    }
}

/// The position behind the line on which the position `i` lies.
fn line_end(cs: &Vec<char>, i: usize) -> (r: usize)
    requires
        i < cs.len(),
    ensures
        r == i + first_line_len(cs@.skip(i as int)),
        i < r <= cs.len(),
{
    let ghost s = cs@.skip(i as int);
    let mut k: usize = i;
    while k < cs.len() && cs[k] != '\n'
        invariant
            i <= k <= cs.len(),
            s == cs@.skip(i as int),
            forall|j: int| 0 <= j < k - i ==> #[trigger] s[j] != '\n',
        decreases cs.len() - k,
    {
        assert(s[k - i] == cs[k as int]);
        k = k + 1;
    }
    proof {
        crate::text::lemma_position_is(s, '\n', k - i);
    }
    if k < cs.len() {
        k + 1
    } else {
        k
    }
}

/// Whether `c` belongs to a word.
fn word_char(c: char) -> (r: bool)
    ensures
        r == is_word_char(c),
{
    ('0' <= c && c <= '9') || ('A' <= c && c <= 'Z') || ('a' <= c && c <= 'z') || c == '_' || (c
        >= '\u{80}' && !is_white(c))
}

/// The position behind the word that begins at the position `i`.
fn word_end(cs: &Vec<char>, i: usize) -> (r: usize)
    requires
        i < cs.len(),
    ensures
        r == i + word_prefix(cs@.skip(i as int)),
        i <= r <= cs.len(),
{
    let ghost s = cs@.skip(i as int);
    let mut k: usize = i;
    while k < cs.len() && word_char(cs[k])
        invariant
            i <= k <= cs.len(),
            s == cs@.skip(i as int),
            forall|j: int| 0 <= j < k - i ==> is_word_char(#[trigger] s[j]),
        decreases cs.len() - k,
    {
        assert(s[k - i] == cs[k as int]);
        k = k + 1;
    }
    proof {
        lemma_word_prefix_is(s, k - i);
    }
    k
}

/// Whether the characters `a` and `b` stand at the position `i`.
fn pair(cs: &Vec<char>, i: usize, a: char, b: char) -> (r: bool)
    requires
        i < cs.len(),
    ensures
        r == pair_at(cs@.skip(i as int), a, b),
{
    cs.len() - i >= 2 && cs[i] == a && cs[i + 1] == b
}

/// Whether the word `simc` begins at the position `i`.
fn simc_at(cs: &Vec<char>, i: usize) -> (r: bool)
    requires
        i < cs.len(),
    ensures
        r == begins_with(cs@.skip(i as int), "simc"@),
{
    let r = cs.len() - i >= 4 && cs[i] == 's' && cs[i + 1] == 'i' && cs[i + 2] == 'm' && cs[i + 3]
        == 'c';
    proof {
        reveal_strlit("simc");
        let s = cs@.skip(i as int);
        if s.len() >= 4 {
            assert(s.take(4)[0] == s[0] && s.take(4)[1] == s[1] && s.take(4)[2] == s[2] && s.take(
                4,
            )[3] == s[3]);
            if r {
                assert(s.take(4) =~= "simc"@);
            }
        }
    }
    r
}

/// A text that does not begin with `simc` has a first line that does not either.
proof fn lemma_no_simc(s: Seq<char>)
    requires
        !begins_with(s, "simc"@),
    ensures
        !looks_like_directive(first_line(s)),
        directive_at(first_line(s)) is None,
{
    reveal_strlit("simc");
    lemma_position_of(s, '\n');
    let line = first_line(s);
    if begins_with(line, "simc"@) {
        assert(s.take(4) =~= line.take(4));
    }
}

/// Read the item at the position `i`: what it is, and the position behind it.
fn read_item<'a>(content: &'a str, cs: &Vec<char>, i: usize) -> (r: (Item<'a>, usize))
    requires
        cs@ == content@,
        i < cs.len(),
    ensures
        stands_for(r.0, content@, i as int),
        r.1 == i + item_len(content@.skip(i as int)),
        i < r.1 <= cs.len(),
{
    let ghost s = content@.skip(i as int);
    proof {
        lemma_position_of(s, '\n');
        lemma_directive_at(first_line(s));
        lemma_word_prefix(s);
    }
    let word = word_end(cs, i);
    let behind = if word > i {
        word
    } else {
        i + 1
    };
    if !simc_at(cs, i) {
        proof {
            lemma_no_simc(s);
        }
        return (Item::Code, behind);
    }
    let line = content.substring_char(i, line_end(cs, i));
    assert(line@ =~= line_at(content@, i as int));
    let start = byte_len(content.substring_char(0, i));
    assert(content@.subrange(0, i as int) =~= content@.take(i as int));
    match extract_directive_from_line(line) {
        Some((req, n)) => {
            let end = byte_len(content.substring_char(0, i + n));
            proof {
                assert(content@.subrange(0, i + n) =~= content@.take(i + n));
                lemma_utf8_len_split(content@.take(i + n), i as int);
                assert(content@.take(i + n).take(i as int) =~= content@.take(i as int));
            }
            (Item::Directive(req, Span::new(start, end)), i + n)
        },
        None => {
            if directive_looking(line) {
                let whole = byte_len(content);
                proof {
                    lemma_utf8_len_split(content@, i as int);
                    lemma_utf8_len_split(s, first_line_len(s));
                    assert(utf8_len(content@) == whole);
                }
                (Item::Attempt(directive_looking_span(line, start)), behind)
            } else {
                (Item::Code, behind)
            }
        },
    }
}

/// Whether the list of items is that of the positions.
pub open spec fn all_stand_for(found: Seq<Item>, content: Seq<char>, ps: Seq<int>) -> bool {
    found.len() == ps.len() && forall|k: int|
        0 <= k < ps.len() ==> stands_for(#[trigger] found[k], content, ps[k])
}

/// The items of `content`: directives, attempts at one, and code. Comments and white space
/// are skipped.
pub fn meaningful_items<'a>(content: &'a str) -> (r: Vec<Item<'a>>)
    ensures
        all_stand_for(r@, content@, items(content@, false)),
{
    let cs = characters(content);
    let mut out: Vec<Item<'a>> = Vec::new();
    let mut in_block = false;
    let mut i: usize = 0;
    let ghost all = items(content@, false);
    let ghost mut done: Seq<int> = Seq::empty();
    proof {
        assert(content@.skip(0) =~= content@);
        assert(done + shifted(items(content@.skip(0), false), 0) =~= all);
    }
    while i < cs.len()
        invariant
            cs@ == content@,
            i <= cs.len(),
            all == items(content@, false),
            all_stand_for(out@, content@, done),
            done + shifted(items(content@.skip(i as int), in_block), i as int) == all,
        decreases cs.len() - i,
    {
        let ghost s = content@.skip(i as int);
        let ghost (n, inside) = step(s, in_block);
        let ghost rest = items(s.skip(n), inside);
        let ghost before = done;
        proof {
            lemma_step(s, in_block);
            assert(s.skip(n) =~= content@.skip(i + n));
            assert(s[0] == content@[i as int]);
            assert(shifted(shifted(rest, n), i as int) =~= shifted(rest, i + n));
        }
        if in_block {
            if pair(&cs, i, '*', '/') {
                in_block = false;
                i = i + 2;
            } else {
                i = i + 1;
            }
        } else if is_white(cs[i]) {
            i = i + 1;
        } else if pair(&cs, i, '/', '/') {
            i = line_end(&cs, i);
        } else if pair(&cs, i, '/', '*') {
            in_block = true;
            i = i + 2;
        } else {
            let ghost at = i as int;
            let ghost old_out = out@;
            let (item, behind) = read_item(content, &cs, i);
            out.push(item);
            i = behind;
            proof {
                done = done.push(at);
                assert(shifted(seq![0int] + shifted(rest, n), at) =~= seq![at] + shifted(
                    rest,
                    at + n,
                ));
                assert(before + (seq![at] + shifted(rest, at + n)) =~= done + shifted(
                    rest,
                    at + n,
                ));
                assert forall|k: int| 0 <= k < done.len() implies stands_for(
                    #[trigger] out@[k],
                    content@,
                    done[k],
                ) by {
                    if k < before.len() {
                        assert(out@[k] == old_out[k]);
                    }
                }
            }
        }
    }
    proof {
        assert(content@.skip(i as int) =~= Seq::<char>::empty());
        assert(done + shifted(Seq::<int>::empty(), i as int) =~= done);
    }
    out
}

/// The models of directives that the pairs of requirement and span stand for.
pub open spec fn directive_models(found: Seq<(&str, Span)>) -> Seq<DirectiveModel> {
    found.map_values(
        |d: (&str, Span)|
            DirectiveModel { req: d.0@, start: d.1.start as nat, end: d.1.end as nat },
    )
}

/// The leading `simc "...";` directives in order, stopping at the first item of program
/// code. More than one means the file declared duplicates.
pub fn leading_directives<'a>(content: &'a str) -> (r: Vec<(&'a str, Span)>)
    ensures
        directive_models(r@) == leading_in(content@),
{
    let found = meaningful_items(content);
    let ghost ps = items(content@, false);
    let ghost all = leading_in(content@);
    let mut out: Vec<(&'a str, Span)> = Vec::new();
    let mut i: usize = 0;
    assert(ps.skip(0) =~= ps);
    assert(directive_models(out@) + all =~= all);
    while i < found.len()
        invariant
            i <= found.len(),
            ps == items(content@, false),
            all == leading(content@, ps),
            all_stand_for(found@, content@, ps),
            directive_models(out@) + leading(content@, ps.skip(i as int)) == all,
        decreases found.len() - i,
    {
        let ghost rest = ps.skip(i as int);
        let item = found[i];
        assert(stands_for(found@[i as int], content@, ps[i as int]));
        match item {
            Item::Directive(req, span) => {
                let ghost before = out@;
                out.push((req, span));
                proof {
                    let m = directive_on(content@, rest[0])->0;
                    assert(directive_models(out@) =~= directive_models(before).push(m));
                    assert(rest.drop_first() =~= ps.skip(i + 1));
                    let tail = leading(content@, rest.drop_first());
                    assert(directive_models(before) + (seq![m] + tail) =~= directive_models(out@)
                        + tail);
                }
            },
            _ => {
                assert(directive_models(out@) + Seq::empty() =~= directive_models(out@));
                return out;
            },
        }
        i = i + 1;
    }
    assert(directive_models(out@) + Seq::empty() =~= directive_models(out@));
    out
}

/// The outcome of scanning a file for its compiler-version directive: the single
/// well-formed leading directive, its clean absence, or the specific way it is broken.
#[derive(Clone, Copy, Debug)]
pub enum DirectiveScan<'a> {
    /// A single well-formed directive, correctly placed before any program code.
    Found { req: &'a str, span: Span },
    /// No directive anywhere in the file.
    Absent,
    /// A directive-looking line that is not a well-formed `simc "...";`.
    Malformed(Span),
    /// More than one directive.
    Duplicate(Span),
    /// A well-formed directive that appears after program code.
    Misplaced(Span),
}

impl<'a> View for DirectiveScan<'a> {
    type V = Scan;

    open spec fn view(&self) -> Scan {
        match *self {
            DirectiveScan::Found { req, span } => Scan::Found {
                req: req@,
                start: span.start as nat,
                end: span.end as nat,
            },
            DirectiveScan::Absent => Scan::Absent,
            DirectiveScan::Malformed(span) => Scan::Malformed {
                start: span.start as nat,
                end: span.end as nat,
            },
            DirectiveScan::Duplicate(span) => Scan::Duplicate {
                start: span.start as nat,
                end: span.end as nat,
            },
            DirectiveScan::Misplaced(span) => Scan::Misplaced {
                start: span.start as nat,
                end: span.end as nat,
            },
        }
    }
}

/// Scan `content` for its compiler-version directive. A directive must be the first
/// meaningful item and may appear at most once; the first deviation is reported with its
/// span. Scans past the leading region so a directive misplaced after code is caught rather
/// than handed to the lexer.
pub fn scan_directive<'a>(content: &'a str) -> (r: DirectiveScan<'a>)
    ensures
        r@ == scan(content@),
{
    let list = meaningful_items(content);
    let ghost ps = items(content@, false);
    let mut found: Option<(&'a str, Span)> = None;
    let mut seen_code = false;
    let mut i: usize = 0;
    while i < list.len()
        invariant
            i <= list.len(),
            ps == items(content@, false),
            all_stand_for(list@, content@, ps),
            first_offence(content@, ps, 0) == first_offence(content@, ps, i as int),
            found is Some <==> directive_before(content@, ps, i as int),
            seen_code <==> code_before(content@, ps, i as int),
            found matches Some((req, span)) ==> i > 0 && directive_on(content@, ps[0]) == Some(
                DirectiveModel { req: req@, start: span.start as nat, end: span.end as nat },
            ),
        decreases list.len() - i,
    {
        let item = list[i];
        assert(stands_for(list@[i as int], content@, ps[i as int]));
        match item {
            Item::Directive(req, span) => {
                assert(directive_on(content@, ps[i as int]) is Some);
                if found.is_some() {
                    return DirectiveScan::Duplicate(span);
                }
                if seen_code {
                    return DirectiveScan::Misplaced(span);
                }
                proof {
                    if i > 0 {
                        assert(directive_on(content@, ps[0]) is Some || directive_on(
                            content@,
                            ps[0],
                        ) is None);
                    }
                }
                found = Some((req, span));
            },
            Item::Attempt(span) => {
                assert(directive_on(content@, ps[i as int]) is None);
                if !seen_code {
                    return DirectiveScan::Malformed(span);
                }
                seen_code = true;
            },
            Item::Code => {
                assert(directive_on(content@, ps[i as int]) is None);
                seen_code = true;
            },
        }
        i = i + 1;
    }
    match found {
        Some((req, span)) => DirectiveScan::Found { req, span },
        None => DirectiveScan::Absent,
    }
}

// ---------------------------------------------------------------------------------------
// Laws
// ---------------------------------------------------------------------------------------

/// A line is an attempt at a directive exactly where it is the word `simc`, and then nothing,
/// white space or a quote.
pub proof fn law_attempt_begins_with_simc(rest: Seq<char>, line: Seq<char>)
    ensures
        looks_like_directive("simc"@ + rest) <==> rest.len() == 0 || is_white_space(rest[0])
            || rest[0] == '"',
        looks_like_directive(line) ==> exists|rest: Seq<char>| line == #[trigger] ("simc"@ + rest),
{
    reveal_strlit("simc");
    let s = "simc"@ + rest;
    assert(s.take(4) =~= "simc"@);
    assert(s.skip(4) =~= rest);
    if looks_like_directive(line) {
        assert(line =~= "simc"@ + line.skip(4));
    }
}

/// The characters of words are the ASCII letters and digits, the underscore, and what lies
/// outside ASCII and is no white space.
pub proof fn law_word_characters(c: char)
    ensures
        c < '\u{80}' ==> (is_word_char(c)
            <==> "0123456789ABCDEFGHIJKLMNOPQRSTUVWXYZ_abcdefghijklmnopqrstuvwxyz"@.contains(c)),
        c >= '\u{80}' ==> (is_word_char(c) <==> !is_white_space(c)),
{
    reveal_strlit("0123456789ABCDEFGHIJKLMNOPQRSTUVWXYZ_abcdefghijklmnopqrstuvwxyz");
    let all = "0123456789ABCDEFGHIJKLMNOPQRSTUVWXYZ_abcdefghijklmnopqrstuvwxyz"@;
    let n = c as u32;
    assert forall|i: int| 0 <= i < all.len() implies is_word_char(#[trigger] all[i]) by {}
    if c < '\u{80}' && is_word_char(c) {
        if '0' <= c <= '9' {
            assert(all[n - 48] == c);
        } else if 'A' <= c <= 'Z' {
            assert(all[n - 65 + 10] == c);
        } else if c == '_' {
            assert(all[36] == c);
        } else {
            assert(all[n - 97 + 37] == c);
        }
    }
}

/// A word is one item, whatever it holds: what follows it is read on behind it.
pub proof fn law_word_is_one_item(word: Seq<char>, rest: Seq<char>)
    requires
        word.len() > 0,
        forall|i: int| 0 <= i < word.len() ==> is_word_char(#[trigger] word[i]),
        rest.len() > 0 ==> !is_word_char(rest[0]),
        directive_at(first_line(word + rest)) is None,
    ensures
        items(word + rest, false) == seq![0int] + shifted(items(rest, false), word.len() as int),
{
    let s = word + rest;
    assert(s[0] == word[0]);
    assert(is_word_char(word[0]));
    assert forall|i: int| 0 <= i < word.len() implies is_word_char(#[trigger] s[i]) by {
        assert(s[i] == word[i]);
    }
    if rest.len() > 0 {
        assert(s[word.len() as int] == rest[0]);
    }
    lemma_word_prefix_is(s, word.len() as int);
    assert(s.skip(word.len() as int) =~= rest);
    assert(!is_white_space(s[0])) by {
        let c = s[0];
        char_is_scalar(c);
    }
    lemma_step(s, false);
}

/// Any other character that begins no comment and is no white space is an item of its own.
pub proof fn law_sign_is_one_item(c: char, rest: Seq<char>)
    requires
        !is_word_char(c),
        !is_white_space(c),
        !pair_at(seq![c] + rest, '/', '/'),
        !pair_at(seq![c] + rest, '/', '*'),
    ensures
        items(seq![c] + rest, false) == seq![0int] + shifted(items(rest, false), 1),
{
    reveal_strlit("simc");
    let s = seq![c] + rest;
    assert(s[0] == c);
    assert(s.skip(1) =~= rest);
    assert(!begins_with(s, "simc"@)) by {
        if begins_with(s, "simc"@) {
            assert(s.take(4)[0] == 's');
        }
    }
    lemma_no_simc(s);
    lemma_word_prefix_is(s, 0);
    lemma_step(s, false);
}

proof fn lemma_first_offence(content: Seq<char>, ps: Seq<int>, k: int)
    requires
        0 <= k <= ps.len(),
    ensures
        first_offence(content, ps, k) matches Some(s) ==> exists|j: int|
            {
                &&& k <= j < ps.len()
                &&& #[trigger] offence(content, ps, j) == Some(s)
                &&& forall|i: int| k <= i < j ==> (#[trigger] offence(content, ps, i)) is None
            },
    decreases ps.len() - k,
{
    if k < ps.len() {
        match offence(content, ps, k) {
            Some(s) => {},
            None => {
                lemma_first_offence(content, ps, k + 1);
                if let Some(s) = first_offence(content, ps, k + 1) {
                    let j = choose|j: int|
                        {
                            &&& k + 1 <= j < ps.len()
                            &&& #[trigger] offence(content, ps, j) == Some(s)
                            &&& forall|i: int|
                                k + 1 <= i < j ==> (#[trigger] offence(content, ps, i)) is None
                        };
                    assert forall|i: int| k <= i < j implies (
                    #[trigger] offence(content, ps, i)) is None by {}
                    assert(offence(content, ps, j) == Some(s));
                }
            },
        }
    }
}

/// What each refusal of a directive means, and where it is reported.
///
/// A directive is malformed where an attempt at one is the first item, or stands right behind
/// the directive that is the first item. There is a duplicate where the first item is a
/// directive and a later one is; the first such is reported. A directive is misplaced where
/// the first item is code and a later one is a directive; the first such is reported.
pub proof fn law_refusals(content: Seq<char>)
    ensures
        ({
            let ps = items(content, false);
            match scan(content) {
                Scan::Malformed { start, end } => exists|k: int|
                    {
                        &&& 0 <= k < ps.len()
                        &&& k <= 1
                        &&& k == 1 ==> directive_on(content, ps[0]) is Some
                        &&& directive_on(content, ps[k]) is None
                        &&& #[trigger] attempt_on(content, ps[k])
                        &&& start == utf8_len(content.take(ps[k]))
                        &&& end == start + utf8_len(trimmed_end(line_at(content, ps[k])))
                    },
                Scan::Duplicate { start, end } => directive_on(content, ps[0]) is Some && exists|
                    k: int,
                |
                    {
                        &&& 0 < k < ps.len()
                        &&& #[trigger] directive_on(content, ps[k]) matches Some(d) && d.start
                            == start && d.end == end
                        &&& forall|i: int|
                            0 < i < k ==> directive_on(content, #[trigger] ps[i]) is None
                        &&& k > 1 ==> !attempt_on(content, ps[1])
                    },
                Scan::Misplaced { start, end } => !attempt_on(content, ps[0]) && exists|k: int|
                    {
                        &&& 0 < k < ps.len()
                        &&& #[trigger] directive_on(content, ps[k]) matches Some(d) && d.start
                            == start && d.end == end
                        &&& forall|i: int|
                            0 <= i < k ==> directive_on(content, #[trigger] ps[i]) is None
                    },
                _ => true,
            }
        }),
{
    let ps = items(content, false);
    lemma_first_offence(content, ps, 0);
    if let Some(s) = first_offence(content, ps, 0) {
        let j = choose|j: int|
            {
                &&& 0 <= j < ps.len()
                &&& #[trigger] offence(content, ps, j) == Some(s)
                &&& forall|i: int| 0 <= i < j ==> (#[trigger] offence(content, ps, i)) is None
            };
        // Behind the first item, a directive is an offence.
        assert forall|i: int| 0 < i < j implies directive_on(content, #[trigger] ps[i]) is None by {
            assert(offence(content, ps, i) is None);
            if directive_on(content, ps[i]) is Some {
                assert(directive_on(content, ps[0]) is Some || directive_on(content, ps[0]) is None);
                assert(directive_before(content, ps, i) || code_before(content, ps, i));
            }
        }
        if j > 0 {
            assert(offence(content, ps, 0) is None);
            assert(!code_before(content, ps, 0));
        }
        match s {
            Scan::Malformed { .. } => {
                assert(!code_before(content, ps, j));
                if j > 1 {
                    assert(directive_on(content, ps[1]) is None);
                }
                if j == 1 {
                    assert(directive_on(content, ps[0]) is Some);
                }
                assert(attempt_on(content, ps[j]));
            },
            Scan::Duplicate { .. } => {
                assert(directive_before(content, ps, j));
                let i = choose|i: int|
                    0 <= i < j && directive_on(content, #[trigger] ps[i]) is Some;
                assert(i == 0);
                if j > 1 {
                    assert(offence(content, ps, 1) is None);
                    assert(!code_before(content, ps, 1));
                }
                assert(directive_on(content, ps[j]) is Some);
            },
            Scan::Misplaced { .. } => {
                assert(!directive_before(content, ps, j));
                assert forall|i: int| 0 <= i < j implies directive_on(
                    content,
                    #[trigger] ps[i],
                ) is None by {}
                assert(directive_on(content, ps[j]) is Some);
            },
            _ => {},
        }
    }
}

} // verus!
