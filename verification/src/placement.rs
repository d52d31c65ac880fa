//! Where directives stand in their file.
use vstd::prelude::*;
use vstd::utf8::*;

use crate::directive::{
    attempt_on, code_before, directive_at, directive_before, directive_on, first_line,
    first_line_len, first_offence, is_word_char, item_at, item_len, items, leading, leading_in,
    lemma_directive_at, lemma_items_bound, lemma_step, lemma_word_prefix, lemma_word_prefix_is,
    line_at, looks_like_directive, offence, pair_at, scan, shifted, step, word_prefix, DirectiveModel, Scan,
};
use crate::error::is_slice;
use crate::text::{
    all_white, is_white_space, lemma_encode_concat, lemma_position_is, lemma_position_of,
    lemma_utf8_len_split, lemma_white_prefix, lemma_white_prefix_is, lemma_white_suffix,
    lemma_white_suffix_is, position_of, trimmed_end, trimmed_start, utf8_len, white_prefix,
};

verus! {

// ---------------------------------------------------------------------------------------
// Where a piece of text stands in a file
// ---------------------------------------------------------------------------------------

/// Whether `piece` stands in `content` from the character `at` on.
pub open spec fn stands_from(content: Seq<char>, piece: Seq<char>, at: int) -> bool {
    &&& 0 <= at
    &&& at + piece.len() <= content.len()
    &&& content.subrange(at, at + piece.len()) == piece
}

/// Whether `piece` stands in `content` from the byte `offset` on.
pub open spec fn stands_at(content: Seq<char>, piece: Seq<char>, offset: int) -> bool {
    exists|at: int| #[trigger]
        stands_from(content, piece, at) && utf8_len(content.take(at)) == offset
}

/// The byte at which a character begins is a character boundary.
pub proof fn lemma_boundary(s: Seq<char>, at: int)
    requires
        0 <= at <= s.len(),
    ensures
        is_char_boundary(encode_utf8(s), utf8_len(s.take(at)) as int),
        utf8_len(s.take(at)) <= utf8_len(s),
    decreases at,
{
    encode_utf8_valid_utf8(s);
    lemma_utf8_len_split(s, at);
    if at > 0 {
        let rest = s.drop_first();
        let bytes = encode_utf8(s);
        lemma_boundary(rest, at - 1);
        encode_utf8_first_scalar(s);
        assert(pop_first_scalar(bytes) =~= encode_utf8(rest));
        assert(s.take(at).drop_first() =~= rest.take(at - 1));
        assert(s.take(at)[0] == s[0]);
    } else {
        assert(s.take(0) =~= Seq::<char>::empty());
    }
}

/// A piece of text that stands in a file is the slice at its bytes.
pub proof fn lemma_stands_at_slice(content: Seq<char>, piece: Seq<char>, offset: int)
    requires
        stands_at(content, piece, offset),
    ensures
        is_slice(content, offset, offset + utf8_len(piece)),
        encode_utf8(content).subrange(offset, offset + utf8_len(piece)) == encode_utf8(piece),
{
    let at = choose|at: int| #[trigger]
        stands_from(content, piece, at) && utf8_len(content.take(at)) == offset;
    let end = at + piece.len();
    lemma_boundary(content, at);
    lemma_boundary(content, end);
    lemma_utf8_len_split(content, end);
    assert(content.take(end) =~= content.take(at) + piece);
    lemma_encode_concat(content.take(at), piece);
    assert(encode_utf8(content).subrange(offset, offset + utf8_len(piece)) =~= encode_utf8(piece));
}

/// The items of a text stand one behind the other.
pub proof fn lemma_items_apart(s: Seq<char>, in_block: bool)
    ensures
        forall|i: int, j: int|
            0 <= i < j < items(s, in_block).len() ==> (#[trigger] items(s, in_block)[i])
                + item_len(s.skip(items(s, in_block)[i])) <= #[trigger] items(s, in_block)[j],
    decreases s.len(),
{
    if s.len() > 0 {
        lemma_step(s, in_block);
        let (n, inside) = step(s, in_block);
        let t = s.skip(n);
        let rest = items(t, inside);
        let ps = items(s, in_block);
        lemma_items_apart(t, inside);
        lemma_items_bound(t, inside);
        let first: int = if item_at(s, in_block) { 1 } else { 0 };
        assert forall|i: int, j: int| 0 <= i < j < ps.len() implies (#[trigger] ps[i]) + item_len(
            s.skip(ps[i]),
        ) <= #[trigger] ps[j] by {
            assert(ps[j] == rest[j - first] + n);
            if i >= first {
                assert(ps[i] == rest[i - first] + n);
                assert(s.skip(ps[i]) =~= t.skip(rest[i - first]));
            } else {
                assert(s.skip(0) =~= s);
            }
        }
    }
}

/// A directive stands in the file at the bytes that are recorded of it: from its `simc` to
/// its `;`.
pub proof fn lemma_directive_stands(content: Seq<char>, at: int)
    requires
        0 <= at <= content.len(),
        directive_on(content, at) is Some,
    ensures
        ({
            let d = directive_on(content, at)->0;
            let n = (directive_at(line_at(content, at))->0).1 as int;
            let text = line_at(content, at).take(n);
            &&& n == item_len(content.skip(at))
            &&& at + n <= content.len()
            &&& text == content.subrange(at, at + n)
            &&& d.end == d.start + utf8_len(text)
            &&& stands_at(content, text, d.start as int)
            &&& is_slice(content, d.start as int, d.end as int)
        }),
{
    let s = content.skip(at);
    lemma_position_of(s, '\n');
    lemma_directive_at(line_at(content, at));
    let d = directive_on(content, at)->0;
    let n = (directive_at(line_at(content, at))->0).1 as int;
    let text = line_at(content, at).take(n);
    assert(text =~= content.subrange(at, at + n));
    assert(content.take(at + n) =~= content.take(at) + text);
    lemma_encode_concat(content.take(at), text);
    assert(stands_from(content, text, at));
    lemma_stands_at_slice(content, text, d.start as int);
}

/// The leading directives are the first items.
proof fn lemma_leading_items(content: Seq<char>, ps: Seq<int>)
    ensures
        leading(content, ps).len() <= ps.len(),
        forall|i: int|
            0 <= i < leading(content, ps).len() ==> Some(#[trigger] leading(content, ps)[i])
                == directive_on(content, ps[i]),
    decreases ps.len(),
{
    if ps.len() > 0 && directive_on(content, ps[0]) is Some {
        let rest = ps.drop_first();
        lemma_leading_items(content, rest);
        let ds = leading(content, ps);
        assert forall|i: int| 0 <= i < ds.len() implies Some(#[trigger] ds[i]) == directive_on(
            content,
            ps[i],
        ) by {
            if i > 0 {
                assert(ds[i] == leading(content, rest)[i - 1]);
                assert(rest[i - 1] == ps[i]);
            }
        }
    }
}

/// The leading directives of a file cover whole characters of it, in order and apart from
/// each other.
pub proof fn lemma_leading_in(content: Seq<char>)
    ensures
        forall|i: int|
            0 <= i < leading_in(content).len() ==> is_slice(
                content,
                (#[trigger] leading_in(content)[i]).start as int,
                leading_in(content)[i].end as int,
            ),
        forall|i: int, j: int|
            0 <= i < j < leading_in(content).len() ==> (#[trigger] leading_in(content)[i]).end <= (
            #[trigger] leading_in(content)[j]).start,
{
    let ps = items(content, false);
    let ds = leading_in(content);
    lemma_items_bound(content, false);
    lemma_items_apart(content, false);
    lemma_leading_items(content, ps);
    assert forall|i: int| 0 <= i < ds.len() implies is_slice(
        content,
        (#[trigger] ds[i]).start as int,
        ds[i].end as int,
    ) by {
        assert(Some(leading(content, ps)[i]) == directive_on(content, ps[i]));
        lemma_directive_stands(content, ps[i]);
    }
    assert forall|i: int, j: int| 0 <= i < j < ds.len() implies (#[trigger] ds[i]).end <= (
    #[trigger] ds[j]).start by {
        assert(Some(leading(content, ps)[i]) == directive_on(content, ps[i]));
        assert(Some(leading(content, ps)[j]) == directive_on(content, ps[j]));
        lemma_directive_stands(content, ps[i]);
        let to = content.take(ps[j]);
        let end = ps[i] + item_len(content.skip(ps[i]));
        assert(end <= ps[j]);
        lemma_utf8_len_split(to, end);
        assert(to.take(end) =~= content.take(end));
    }
}

// ---------------------------------------------------------------------------------------
// Laws
// ---------------------------------------------------------------------------------------

/// Whether `text` is a directive that asks for `req`: the word `simc`, white space, the
/// quoted requirement, white space and a semicolon.
pub open spec fn is_directive(text: Seq<char>, req: Seq<char>) -> bool {
    exists|gap: Seq<char>, tail: Seq<char>|
        all_white(gap) && all_white(tail) && #[trigger] spelled(gap, req, tail) == text
}

/// A directive, spelled out with the white space around its requirement.
pub open spec fn spelled(gap: Seq<char>, req: Seq<char>, tail: Seq<char>) -> Seq<char> {
    "simc"@ + gap + "\""@ + req + "\""@ + tail + ";"@
}

/// What is read as a directive is one, as far as it is read; and its requirement holds no
/// quote.
pub proof fn law_directive_is_spelled(t: Seq<char>)
    requires
        directive_at(t) is Some,
    ensures
        is_directive(t.take((directive_at(t)->0).1 as int), (directive_at(t)->0).0),
        position_of((directive_at(t)->0).0, '"') == (directive_at(t)->0).0.len(),
{
    reveal_strlit("simc");
    reveal_strlit("\"");
    reveal_strlit(";");
    lemma_directive_at(t);
    let (req, n) = directive_at(t)->0;
    let after = t.skip(4);
    let w = white_prefix(after);
    lemma_white_prefix(after);
    let quoted = trimmed_start(after);
    let body = quoted.skip(1);
    let close = position_of(body, '"');
    lemma_position_of(body, '"');
    let end = body.skip(close + 1);
    let v = white_prefix(end);
    lemma_white_prefix(end);
    let gap = after.take(w);
    let tail = end.take(v);
    assert(t.take(4) == "simc"@);
    assert(forall|i: int| 0 <= i < 4 ==> t[i] == #[trigger] t.take(4)[i]);
    assert(spelled(gap, req, tail) =~= t.take(n as int));
    assert forall|i: int| 0 <= i < req.len() implies #[trigger] req[i] != '"' by {
        assert(body[i] == req[i]);
    }
    lemma_position_is(req, '"', req.len() as int);
}

/// A line that spells a directive is read as that directive, whatever follows it on the line.
pub proof fn law_spelled_directive_is_read(
    gap: Seq<char>,
    req: Seq<char>,
    tail: Seq<char>,
    after: Seq<char>,
)
    requires
        all_white(gap),
        all_white(tail),
        position_of(req, '"') == req.len(),
    ensures
        directive_at(spelled(gap, req, tail) + after) == Some(
            (req, spelled(gap, req, tail).len()),
        ),
{
    reveal_strlit("simc");
    reveal_strlit("\"");
    reveal_strlit(";");
    let d = spelled(gap, req, tail);
    let t = d + after;
    let rest = t.skip(4);
    assert(t.take(4) =~= "simc"@);
    assert forall|i: int| 0 <= i < gap.len() implies rest[i] == #[trigger] gap[i] by {}
    lemma_white_prefix_is(rest, gap.len() as int);
    let quoted = trimmed_start(rest);
    let body = quoted.skip(1);
    lemma_position_of(req, '"');
    assert forall|i: int| 0 <= i < req.len() implies #[trigger] body[i] != '"' by {
        assert(body[i] == req[i]);
    }
    lemma_position_is(body, '"', req.len() as int);
    let end = body.skip((req.len() + 1) as int);
    assert forall|i: int| 0 <= i < tail.len() implies end[i] == #[trigger] tail[i] by {}
    lemma_white_prefix_is(end, tail.len() as int);
    assert(body.take(req.len() as int) =~= req);
    assert(trimmed_start(end).len() == 1 + after.len());
}

/// The bytes that a scan points at.
pub open spec fn scan_range(s: Scan) -> Option<(nat, nat)> {
    match s {
        Scan::Found { req, start, end } => Some((start, end)),
        Scan::Absent => None,
        Scan::Malformed { start, end } => Some((start, end)),
        Scan::Duplicate { start, end } => Some((start, end)),
        Scan::Misplaced { start, end } => Some((start, end)),
    }
}

proof fn lemma_offence_range(content: Seq<char>, ps: Seq<int>, k: int)
    requires
        0 <= k < ps.len(),
        0 <= ps[k] <= content.len(),
        offence(content, ps, k) is Some,
    ensures
        scan_range(offence(content, ps, k)->0) matches Some((start, end)) && is_slice(
            content,
            start as int,
            end as int,
        ),
{
    let at = ps[k];
    if directive_on(content, at) is Some {
        lemma_directive_stands(content, at);
    } else {
        let s = content.skip(at);
        let line = line_at(content, at);
        lemma_position_of(s, '\n');
        lemma_white_suffix(line);
        let text = trimmed_end(line);
        assert(text =~= content.subrange(at, at + text.len()));
        assert(stands_from(content, text, at));
        lemma_stands_at_slice(content, text, utf8_len(content.take(at)) as int);
    }
}

proof fn lemma_first_offence_range(content: Seq<char>, ps: Seq<int>, k: int)
    requires
        0 <= k <= ps.len(),
        forall|i: int| 0 <= i < ps.len() ==> 0 <= #[trigger] ps[i] <= content.len(),
    ensures
        first_offence(content, ps, k) matches Some(s) ==> (scan_range(s) matches Some((start, end))
            && is_slice(content, start as int, end as int)),
    decreases ps.len() - k,
{
    if k < ps.len() {
        match offence(content, ps, k) {
            Some(s) => lemma_offence_range(content, ps, k),
            None => lemma_first_offence_range(content, ps, k + 1),
        }
    }
}

/// The span that a scan reports covers whole characters of the file; and where a directive
/// is found, the file reads `simc`, the quoted requirement and `;` there.
pub proof fn law_scan_span_stands(content: Seq<char>)
    ensures
        scan_range(scan(content)) matches Some((start, end)) ==> is_slice(
            content,
            start as int,
            end as int,
        ),
        scan(content) matches Scan::Found { req, start, end } ==> exists|text: Seq<char>| #[trigger]
            stands_at(content, text, start as int) && end == start + utf8_len(text)
                && is_directive(text, req),
{
    let ps = items(content, false);
    lemma_items_bound(content, false);
    lemma_first_offence_range(content, ps, 0);
    if scan(content) is Found {
        lemma_found_is_no_offence(content, ps, 0);
        lemma_directive_stands(content, ps[0]);
        let line = line_at(content, ps[0]);
        let text = line.take((directive_at(line)->0).1 as int);
        law_directive_is_spelled(line);
        assert(stands_at(content, text, (directive_on(content, ps[0])->0).start as int));
    }
}

proof fn lemma_found_is_no_offence(content: Seq<char>, ps: Seq<int>, k: int)
    requires
        0 <= k <= ps.len(),
    ensures
        first_offence(content, ps, k) matches Some(s) ==> !(s is Found) && !(s is Absent),
    decreases ps.len() - k,
{
    if k < ps.len() && offence(content, ps, k) is None {
        lemma_found_is_no_offence(content, ps, k + 1);
    }
}

/// A directive is found exactly where the first item of the file is one, no later item is,
/// and what stands right behind it is no attempt at one.
pub proof fn law_found_iff_first_and_only(content: Seq<char>)
    ensures
        scan(content) is Found <==> {
            let ps = items(content, false);
            &&& ps.len() > 0
            &&& directive_on(content, ps[0]) is Some
            &&& forall|i: int|
                0 < i < ps.len() ==> directive_on(content, #[trigger] ps[i]) is None
            &&& ps.len() > 1 ==> !attempt_on(content, ps[1])
        },
        scan(content) matches Scan::Found { req, start, end } ==> directive_on(
            content,
            items(content, false)[0],
        ) == Some(DirectiveModel { req, start, end }),
{
    let ps = items(content, false);
    lemma_found_is_no_offence(content, ps, 0);
    if ps.len() > 0 && directive_on(content, ps[0]) is Some {
        lemma_no_offence_after(content, ps, 1);
        assert(!directive_before(content, ps, 0) && !code_before(content, ps, 0));
        assert(offence(content, ps, 0) is None);
        assert(first_offence(content, ps, 0) == first_offence(content, ps, 1));
    }
}

/// After a directive that is the first item, an offence is a further directive, or an attempt
/// at one right behind it.
proof fn lemma_no_offence_after(content: Seq<char>, ps: Seq<int>, k: int)
    requires
        0 < k <= ps.len(),
        directive_on(content, ps[0]) is Some,
        forall|i: int| 0 < i < k ==> directive_on(content, #[trigger] ps[i]) is None,
    ensures
        first_offence(content, ps, k) is None <==> {
            &&& forall|i: int|
                k <= i < ps.len() ==> directive_on(content, #[trigger] ps[i]) is None
            &&& k == 1 && ps.len() > 1 ==> !attempt_on(content, ps[1])
        },
    decreases ps.len() - k,
{
    if k < ps.len() {
        assert(directive_before(content, ps, k)) by {
            assert(directive_on(content, ps[0]) is Some);
        }
        if directive_on(content, ps[k]) is None {
            assert(code_before(content, ps, k) <==> k > 1) by {
                if k > 1 {
                    assert(directive_on(content, ps[1]) is None);
                }
            }
            lemma_no_offence_after(content, ps, k + 1);
        }
    }
}

/// No directive is seen exactly where no item is one and the first item is no attempt at one.
pub proof fn law_absent_iff_none(content: Seq<char>)
    ensures
        scan(content) is Absent <==> {
            let ps = items(content, false);
            &&& forall|i: int|
                0 <= i < ps.len() ==> directive_on(content, #[trigger] ps[i]) is None
            &&& ps.len() > 0 ==> !attempt_on(content, ps[0])
        },
{
    let ps = items(content, false);
    lemma_found_is_no_offence(content, ps, 0);
    lemma_absent_from(content, ps, 0);
}

proof fn lemma_absent_from(content: Seq<char>, ps: Seq<int>, k: int)
    requires
        0 <= k <= ps.len(),
        forall|i: int| 0 <= i < k ==> directive_on(content, #[trigger] ps[i]) is None,
    ensures
        (first_offence(content, ps, k) is None && (k < ps.len() ==> k > 0 || directive_on(
            content,
            ps[0],
        ) is None)) <==> {
            &&& forall|i: int|
                k <= i < ps.len() ==> directive_on(content, #[trigger] ps[i]) is None
            &&& k == 0 && ps.len() > 0 ==> !attempt_on(content, ps[0])
        },
    decreases ps.len() - k,
{
    if k < ps.len() {
        if directive_on(content, ps[k]) is None {
            assert(code_before(content, ps, k) <==> k > 0) by {
                if k > 0 {
                    assert(directive_on(content, ps[0]) is None);
                }
            }
            lemma_absent_from(content, ps, k + 1);
        } else if k > 0 {
            assert(code_before(content, ps, k)) by {
                assert(directive_on(content, ps[0]) is None);
            }
        }
    }
}

// ---------------------------------------------------------------------------------------
// White space and comments
// ---------------------------------------------------------------------------------------

/// Whether `s` is white space and comments alone, with every comment closed: a block comment
/// by its `*/`, a line comment by its newline. `in_block` tells whether `s` begins inside a
/// block comment.
pub open spec fn is_filler(s: Seq<char>, in_block: bool) -> bool
    decreases s.len(),
{
    if s.len() == 0 {
        !in_block
    } else {
        proof {
            lemma_step(s, in_block);
        }
        let (n, inside) = step(s, in_block);
        &&& !item_at(s, in_block)
        &&& !in_block && pair_at(s, '/', '/') ==> position_of(s, '\n') < s.len()
        &&& is_filler(s.skip(n), inside)
    }
}

proof fn lemma_filler_step(s: Seq<char>, rest: Seq<char>, in_block: bool)
    requires
        s.len() > 0,
        is_filler(s, in_block),
    ensures
        step(s + rest, in_block) == step(s, in_block),
        !item_at(s + rest, in_block),
{
    let t = s + rest;
    lemma_step(s, in_block);
    assert(t[0] == s[0]);
    if s.len() == 1 {
        assert(s.skip(1).len() == 0);
        assert(!is_filler(s.skip(1), true));
    } else {
        assert(t[1] == s[1]);
    }
    if !in_block && pair_at(s, '/', '/') {
        lemma_position_of(s, '\n');
        assert forall|i: int| 0 <= i < position_of(s, '\n') implies #[trigger] t[i] != '\n' by {
            assert(t[i] == s[i]);
        }
        lemma_position_is(t, '\n', position_of(s, '\n'));
    }
}

proof fn lemma_filler(pre: Seq<char>, rest: Seq<char>, in_block: bool)
    requires
        is_filler(pre, in_block),
    ensures
        items(pre + rest, in_block) == shifted(items(rest, false), pre.len() as int),
    decreases pre.len(),
{
    let s = pre + rest;
    if pre.len() == 0 {
        assert(s =~= rest);
        assert(shifted(items(rest, false), 0) =~= items(rest, false));
    } else {
        lemma_step(pre, in_block);
        lemma_filler_step(pre, rest, in_block);
        let (n, inside) = step(pre, in_block);
        lemma_filler(pre.skip(n), rest, inside);
        assert(s.skip(n) =~= pre.skip(n) + rest);
        assert(shifted(shifted(items(rest, false), pre.len() - n), n) =~= shifted(
            items(rest, false),
            pre.len() as int,
        ));
    }
}

/// White space and comments before a text change nothing but positions: the items are those
/// of the text, further on.
pub proof fn law_filler_is_skipped(pre: Seq<char>, rest: Seq<char>)
    requires
        is_filler(pre, false),
    ensures
        items(pre + rest, false) == shifted(items(rest, false), pre.len() as int),
{
    lemma_filler(pre, rest, false);
}

/// White space is filler.
pub proof fn law_white_is_filler(s: Seq<char>)
    requires
        all_white(s),
    ensures
        is_filler(s, false),
    decreases s.len(),
{
    if s.len() > 0 {
        assert(is_white_space(s[0]));
        assert forall|i: int| 0 <= i < s.skip(1).len() implies is_white_space(
            #[trigger] s.skip(1)[i],
        ) by {
            assert(s.skip(1)[i] == s[i + 1]);
        }
        law_white_is_filler(s.skip(1));
        assert(!pair_at(s, '/', '/'));
    }
}

/// Whether a block comment is open behind `s`.
pub open spec fn ends_in_block(s: Seq<char>, in_block: bool) -> bool
    decreases s.len(),
{
    if s.len() == 0 {
        in_block
    } else {
        proof {
            lemma_step(s, in_block);
        }
        let (n, inside) = step(s, in_block);
        ends_in_block(s.skip(n), inside)
    }
}

proof fn lemma_line_step(s: Seq<char>, rest: Seq<char>, in_block: bool)
    requires
        s.len() > 0,
        s.last() == '\n',
    ensures
        step(s + rest, in_block) == step(s, in_block),
        item_at(s + rest, in_block) == item_at(s, in_block),
{
    let t = s + rest;
    let last = s.len() - 1;
    assert(t[0] == s[0]);
    assert(is_white_space('\n'));
    if s.len() > 1 {
        assert(t[1] == s[1]);
    }
    lemma_position_of(s, '\n');
    let k = position_of(s, '\n');
    assert(s[last] == '\n');
    assert(k <= last);
    assert forall|i: int| 0 <= i < k implies #[trigger] t[i] != '\n' by {
        assert(t[i] == s[i]);
    }
    assert(t[k] == s[k]);
    lemma_position_is(t, '\n', k);
    assert(first_line(t) =~= first_line(s));
    lemma_word_prefix(s);
    let w = word_prefix(s);
    assert(!is_word_char('\n'));
    assert(w <= last);
    assert forall|i: int| 0 <= i < w implies is_word_char(#[trigger] t[i]) by {
        assert(t[i] == s[i]);
    }
    assert(t[w] == s[w]);
    lemma_word_prefix_is(t, w);
}

/// Lines are read one after the other, and all that they hand on is whether a block comment
/// is open behind them: the items of whole lines and of what follows them are those of the
/// lines, and then those of what follows.
pub proof fn law_lines_are_read_in_turn(s: Seq<char>, rest: Seq<char>, in_block: bool)
    requires
        s.len() > 0 ==> s.last() == '\n',
    ensures
        items(s + rest, in_block) == items(s, in_block) + shifted(
            items(rest, ends_in_block(s, in_block)),
            s.len() as int,
        ),
        ends_in_block(s + rest, in_block) == ends_in_block(rest, ends_in_block(s, in_block)),
    decreases s.len(),
{
    let t = s + rest;
    if s.len() == 0 {
        assert(t =~= rest);
        assert(shifted(items(rest, in_block), 0) =~= items(rest, in_block));
        assert(items(s, in_block) + items(rest, in_block) =~= items(rest, in_block));
    } else {
        lemma_step(s, in_block);
        lemma_line_step(s, rest, in_block);
        let (n, inside) = step(s, in_block);
        let u = s.skip(n);
        if u.len() > 0 {
            assert(u.last() == s.last());
        }
        law_lines_are_read_in_turn(u, rest, inside);
        assert(t.skip(n) =~= u + rest);
        let qs = items(rest, ends_in_block(s, in_block));
        assert(shifted(items(u, inside) + shifted(qs, u.len() as int), n) =~= shifted(
            items(u, inside),
            n,
        ) + shifted(qs, s.len() as int));
        if item_at(s, in_block) {
            assert(seq![0int] + (shifted(items(u, inside), n) + shifted(qs, s.len() as int))
                =~= (seq![0int] + shifted(items(u, inside), n)) + shifted(qs, s.len() as int));
        }
    }
}

proof fn lemma_block_closes(body: Seq<char>)
    requires
        forall|i: int|
            0 <= i < body.len() ==> !pair_at(#[trigger] (body + "*/"@).skip(i), '*', '/'),
    ensures
        is_filler(body + "*/"@, true),
    decreases body.len(),
{
    reveal_strlit("*/");
    let s = body + "*/"@;
    if body.len() == 0 {
        assert(s =~= "*/"@);
        assert(s.skip(2) =~= Seq::<char>::empty());
        assert(is_filler(s.skip(2), false));
    } else {
        let rest = body.skip(1);
        assert(s.skip(0) =~= s);
        assert(!pair_at(s, '*', '/'));
        assert(s.skip(1) =~= rest + "*/"@);
        assert forall|i: int| 0 <= i < rest.len() implies !pair_at(
            #[trigger] (rest + "*/"@).skip(i),
            '*',
            '/',
        ) by {
            assert((rest + "*/"@).skip(i) =~= s.skip(i + 1));
        }
        lemma_block_closes(rest);
    }
}

/// A block comment is filler, whatever it holds before its `*/`: a directive inside it does
/// not count.
pub proof fn law_block_comment_is_filler(body: Seq<char>)
    requires
        forall|i: int|
            0 <= i < body.len() ==> !pair_at(#[trigger] (body + "*/"@).skip(i), '*', '/'),
    ensures
        is_filler("/*"@ + body + "*/"@, false),
{
    reveal_strlit("/*");
    let s = "/*"@ + body + "*/"@;
    lemma_block_closes(body);
    assert(s[0] == '/' && s[1] == '*');
    assert(s.skip(2) =~= body + "*/"@);
}

/// A line comment is filler, whatever its line holds.
pub proof fn law_line_comment_is_filler(body: Seq<char>)
    requires
        position_of(body, '\n') == body.len(),
    ensures
        is_filler("//"@ + body + "\n"@, false),
{
    reveal_strlit("//");
    reveal_strlit("\n");
    let s = "//"@ + body + "\n"@;
    lemma_position_of(body, '\n');
    assert(s[0] == '/' && s[1] == '/');
    assert forall|i: int| 0 <= i < body.len() + 2 implies #[trigger] s[i] != '\n' by {
        if i >= 2 {
            assert(s[i] == body[i - 2]);
        }
    }
    lemma_position_is(s, '\n', (body.len() + 2) as int);
    assert(s.skip(first_line_len(s)) =~= Seq::<char>::empty());
    assert(is_filler(s.skip(first_line_len(s)), false));
}

proof fn lemma_fillers_join(a: Seq<char>, b: Seq<char>, in_block: bool)
    requires
        is_filler(a, in_block),
        is_filler(b, false),
    ensures
        is_filler(a + b, in_block),
    decreases a.len(),
{
    if a.len() == 0 {
        assert(a + b =~= b);
    } else {
        lemma_step(a, in_block);
        lemma_filler_step(a, b, in_block);
        let (n, inside) = step(a, in_block);
        lemma_fillers_join(a.skip(n), b, inside);
        let s = a + b;
        assert(s.skip(n) =~= a.skip(n) + b);
        assert(s[0] == a[0]);
        if a.len() > 1 {
            assert(s[1] == a[1]);
        }
        if !in_block && pair_at(s, '/', '/') {
            lemma_position_of(a, '\n');
            lemma_position_of(s, '\n');
            if pair_at(a, '/', '/') {
                let k = position_of(a, '\n');
                assert(s[k] == '\n');
            }
        }
    }
}

/// White space and comments, one behind the other, are filler.
pub proof fn law_fillers_join(a: Seq<char>, b: Seq<char>)
    requires
        is_filler(a, false),
        is_filler(b, false),
    ensures
        is_filler(a + b, false),
{
    lemma_fillers_join(a, b, false);
}

/// What stands before the first item is white space and comments.
proof fn lemma_before_first_item(s: Seq<char>, in_block: bool)
    requires
        items(s, in_block).len() > 0,
    ensures
        0 <= items(s, in_block)[0] < s.len(),
        is_filler(s.take(items(s, in_block)[0]), in_block),
        item_at(s.skip(items(s, in_block)[0]), false),
    decreases s.len(),
{
    let p = items(s, in_block)[0];
    lemma_step(s, in_block);
    lemma_items_bound(s, in_block);
    let (n, inside) = step(s, in_block);
    if item_at(s, in_block) {
        assert(s.skip(0) =~= s);
        assert(s.take(0).len() == 0);
    } else {
        let rest = items(s.skip(n), inside);
        lemma_before_first_item(s.skip(n), inside);
        assert(p == rest[0] + n);
        let t = s.take(p);
        assert(t[0] == s[0]);
        if p > 1 {
            assert(t[1] == s[1]);
        }
        if !in_block && !is_white_space(s[0]) && pair_at(s, '/', '/') {
            lemma_position_of(s, '\n');
            let k = position_of(s, '\n');
            assert(k == n - 1);
            assert forall|i: int| 0 <= i < k implies #[trigger] t[i] != '\n' by {
                assert(t[i] == s[i]);
            }
            assert(t[k] == s[k]);
            lemma_position_is(t, '\n', k);
        }
        assert(step(t, in_block) == (n, inside));
        assert(t.skip(n) =~= s.skip(n).take(rest[0]));
        assert(s.skip(p) =~= s.skip(n).skip(rest[0]));
    }
}

/// The line at a position of a text is that at the position behind what stands before it.
proof fn lemma_line_behind(pre: Seq<char>, rest: Seq<char>, at: int)
    requires
        0 <= at <= rest.len(),
    ensures
        line_at(pre + rest, pre.len() + at) == line_at(rest, at),
        directive_on(pre + rest, pre.len() + at) is Some <==> directive_on(rest, at) is Some,
        attempt_on(pre + rest, pre.len() + at) == attempt_on(rest, at),
{
    assert((pre + rest).skip(pre.len() + at) =~= rest.skip(at));
}

/// A directive that is spelled out on one line, behind white space and comments, is the first
/// item of its file, and what follows its semicolon is read on.
pub proof fn law_directive_is_first_item(
    pre: Seq<char>,
    gap: Seq<char>,
    req: Seq<char>,
    tail: Seq<char>,
    rest: Seq<char>,
)
    requires
        is_filler(pre, false),
        all_white(gap),
        all_white(tail),
        position_of(req, '"') == req.len(),
        position_of(gap + req + tail, '\n') == (gap + req + tail).len(),
    ensures
        ({
            let d = spelled(gap, req, tail);
            let content = pre + d + rest;
            &&& items(content, false) == seq![pre.len() as int] + shifted(
                items(rest, false),
                (pre + d).len() as int,
            )
            &&& directive_at(line_at(content, pre.len() as int)) == Some((req, d.len()))
            &&& directive_on(content, pre.len() as int) == Some(
                DirectiveModel { req, start: utf8_len(pre), end: utf8_len(pre + d) },
            )
        }),
{
    reveal_strlit("simc");
    reveal_strlit("\"");
    reveal_strlit(";");
    let d = spelled(gap, req, tail);
    let s = d + rest;
    let content = pre + d + rest;
    let middle = gap + req + tail;
    lemma_position_of(middle, '\n');
    lemma_position_of(s, '\n');
    assert forall|i: int| 0 <= i < d.len() implies #[trigger] s[i] != '\n' by {
        let g = gap.len();
        let r = req.len();
        if 4 <= i < 4 + g {
            assert(s[i] == middle[i - 4]);
        } else if 5 + g <= i < 5 + g + r {
            assert(s[i] == middle[i - 5]);
        } else if 6 + g + r <= i < 6 + g + r + tail.len() {
            assert(s[i] == middle[i - 6]);
        }
    }
    let n = first_line_len(s);
    assert(n >= d.len());
    let after = s.subrange(d.len() as int, n);
    assert(first_line(s) =~= d + after);
    law_spelled_directive_is_read(gap, req, tail, after);
    assert(s[0] == 's');
    assert(step(s, false) == (d.len() as int, false));
    assert(s.skip(d.len() as int) =~= rest);
    law_filler_is_skipped(pre, s);
    assert(content =~= pre + s);
    let p = pre.len() as int;
    assert(shifted(seq![0int] + shifted(items(rest, false), d.len() as int), p) =~= seq![p]
        + shifted(items(rest, false), (pre + d).len() as int));
    assert(content.skip(p) =~= s);
    assert(content.take(p) =~= pre);
    assert(content.take(p + d.len()) =~= pre + d);
}

/// A directive before a text that declares none is found.
pub proof fn law_only_directive_is_found(
    pre: Seq<char>,
    gap: Seq<char>,
    req: Seq<char>,
    tail: Seq<char>,
    rest: Seq<char>,
)
    requires
        is_filler(pre, false),
        all_white(gap),
        all_white(tail),
        position_of(req, '"') == req.len(),
        position_of(gap + req + tail, '\n') == (gap + req + tail).len(),
        scan(rest) is Absent,
    ensures
        scan(pre + spelled(gap, req, tail) + rest) == (Scan::Found {
            req,
            start: utf8_len(pre),
            end: utf8_len(pre + spelled(gap, req, tail)),
        }),
{
    let before = pre + spelled(gap, req, tail);
    let content = before + rest;
    law_directive_is_first_item(pre, gap, req, tail, rest);
    law_absent_iff_none(rest);
    law_found_iff_first_and_only(content);
    lemma_items_bound(rest, false);
    let ps = items(content, false);
    let qs = items(rest, false);
    assert forall|i: int| 0 < i < ps.len() implies directive_on(
        content,
        #[trigger] ps[i],
    ) is None by {
        assert(ps[i] == qs[i - 1] + before.len());
        lemma_line_behind(before, rest, qs[i - 1]);
    }
    if ps.len() > 1 {
        assert(ps[1] == qs[0] + before.len());
        lemma_line_behind(before, rest, qs[0]);
    }
}

/// Two directives with white space and comments alone before and between them are a
/// duplicate, reported where the second one stands.
pub proof fn law_second_directive_is_duplicate(
    pre: Seq<char>,
    gap: Seq<char>,
    req: Seq<char>,
    tail: Seq<char>,
    between: Seq<char>,
    second_gap: Seq<char>,
    second_req: Seq<char>,
    second_tail: Seq<char>,
    rest: Seq<char>,
)
    requires
        is_filler(pre, false),
        all_white(gap),
        all_white(tail),
        position_of(req, '"') == req.len(),
        position_of(gap + req + tail, '\n') == (gap + req + tail).len(),
        is_filler(between, false),
        all_white(second_gap),
        all_white(second_tail),
        position_of(second_req, '"') == second_req.len(),
        position_of(second_gap + second_req + second_tail, '\n') == (second_gap + second_req
            + second_tail).len(),
    ensures
        ({
            let before = pre + spelled(gap, req, tail) + between;
            let second = spelled(second_gap, second_req, second_tail);
            scan(before + second + rest) == (Scan::Duplicate {
                start: utf8_len(before),
                end: utf8_len(before + second),
            })
        }),
{
    let first = pre + spelled(gap, req, tail);
    let before = first + between;
    let second = spelled(second_gap, second_req, second_tail);
    let content = before + second + rest;
    let behind = between + second + rest;
    law_directive_is_first_item(pre, gap, req, tail, behind);
    law_directive_is_first_item(between, second_gap, second_req, second_tail, rest);
    assert(content =~= first + behind);
    let ps = items(content, false);
    let at = between.len() as int;
    assert(ps[0] == pre.len());
    assert(ps[1] == items(behind, false)[0] + first.len());
    lemma_line_behind(first, behind, at);
    assert(content.take(first.len() + at) =~= before);
    assert(content.take(first.len() + at + second.len()) =~= before + second);
    assert(directive_on(content, ps[1]) == Some(
        DirectiveModel {
            req: second_req,
            start: utf8_len(before),
            end: utf8_len(before + second),
        },
    ));
    assert(directive_before(content, ps, 1)) by {
        assert(directive_on(content, ps[0]) is Some);
    }
    assert(!directive_before(content, ps, 0) && !code_before(content, ps, 0));
    assert(offence(content, ps, 0) is None);
    reveal_with_fuel(first_offence, 3);
}

/// Where a directive is found, its file is white space and comments, the directive, and a
/// text that declares nothing.
pub proof fn lemma_found_parts(content: Seq<char>) -> (parts: (Seq<char>, Seq<char>, Seq<char>))
    requires
        scan(content) is Found,
    ensures
        content == parts.0 + parts.1 + parts.2,
        is_filler(parts.0, false),
        scan(parts.2) is Absent,
        leading_in(content) == seq![
            DirectiveModel {
                req: scan(content)->req,
                start: utf8_len(parts.0),
                end: utf8_len(parts.0 + parts.1),
            },
        ],
{
    law_found_iff_first_and_only(content);
    lemma_before_first_item(content, false);
    let ps = items(content, false);
    let at = ps[0];
    let pre = content.take(at);
    let s = content.skip(at);
    lemma_directive_stands(content, at);
    let n = item_len(s);
    let d = content.subrange(at, at + n);
    let rest = content.skip(at + n);
    let before = pre + d;
    assert(content =~= before + rest);
    assert(content =~= pre + s);
    law_filler_is_skipped(pre, s);
    assert(s.skip(n) =~= rest);
    let qs = items(rest, false);
    assert(items(s, false) == seq![0int] + shifted(qs, n));
    assert(ps =~= seq![at] + shifted(qs, at + n));
    lemma_items_bound(rest, false);
    law_absent_iff_none(rest);
    assert forall|i: int| 0 <= i < qs.len() implies directive_on(
        rest,
        #[trigger] qs[i],
    ) is None by {
        assert(ps[i + 1] == qs[i] + at + n);
        lemma_line_behind(before, rest, qs[i]);
    }
    if qs.len() > 0 {
        assert(ps[1] == qs[0] + at + n);
        lemma_line_behind(before, rest, qs[0]);
    }
    assert(content.take(at + n) =~= before);
    assert(ps.drop_first().len() > 0 ==> ps.drop_first()[0] == ps[1]);
    assert(leading(content, ps.drop_first()) =~= Seq::empty());
    (pre, d, rest)
}

// ---------------------------------------------------------------------------------------
// Refused directives
// ---------------------------------------------------------------------------------------

/// A line that begins behind white space and comments as an attempt at a directive, and is
/// none, is reported from its `simc` to the last character on it that is no white space.
pub proof fn law_attempt_is_malformed(
    pre: Seq<char>,
    line: Seq<char>,
    white: Seq<char>,
    rest: Seq<char>,
)
    requires
        is_filler(pre, false),
        looks_like_directive(line + white),
        line.len() > 0,
        !line.contains('\n'),
        !is_white_space(line.last()),
        all_white(white),
        !white.contains('\n'),
        rest.len() > 0 ==> rest[0] == '\n',
        directive_at(first_line(line + white + rest)) is None,
    ensures
        scan(pre + line + white + rest) == (Scan::Malformed {
            start: utf8_len(pre),
            end: utf8_len(pre + line),
        }),
{
    reveal_strlit("simc");
    let s = line + white + rest;
    let content = pre + line + white + rest;
    let shown = line + white;
    assert(content =~= pre + s);
    // The line.
    assert forall|i: int| 0 <= i < shown.len() implies #[trigger] s[i] != '\n' by {
        if i < line.len() {
            assert(line.contains(line[i]));
        } else {
            assert(white.contains(white[i - line.len()]));
        }
    }
    lemma_position_is(s, '\n', shown.len() as int);
    let whole = first_line(s);
    assert(looks_like_directive(whole)) by {
        assert(whole.take(4) =~= shown.take(4));
        if shown.len() > 4 {
            assert(whole.skip(4)[0] == shown.skip(4)[0]);
        } else {
            assert(is_white_space('\n'));
        }
    }
    let end = whole.skip(line.len() as int);
    assert(whole =~= line + end);
    assert forall|i: int| line.len() <= i < whole.len() implies is_white_space(
        #[trigger] whole[i],
    ) by {
        if i < shown.len() {
            assert(whole[i] == white[i - line.len()]);
        } else {
            assert(is_white_space('\n'));
        }
    }
    lemma_white_suffix_is(whole, end.len() as int);
    assert(trimmed_end(whole) =~= line);
    // The item.
    assert(s[0] == shown.take(4)[0]);
    assert(!is_white_space('s'));
    lemma_step(s, false);
    law_filler_is_skipped(pre, s);
    let ps = items(content, false);
    assert(items(s, false)[0] == 0);
    assert(ps[0] == pre.len());
    assert(content.skip(ps[0]) =~= s);
    assert(content.take(ps[0]) =~= pre);
    lemma_encode_concat(pre, line);
    assert(directive_on(content, ps[0]) is None);
    assert(attempt_on(content, ps[0]));
    assert(!code_before(content, ps, 0));
    assert(offence(content, ps, 0) == Some(
        Scan::Malformed { start: utf8_len(pre), end: utf8_len(pre + line) },
    ));
}

/// A line of whole lines is the same with anything behind them.
proof fn lemma_line_before(s: Seq<char>, rest: Seq<char>, at: int)
    requires
        0 <= at < s.len(),
        s.last() == '\n',
    ensures
        line_at(s + rest, at) == line_at(s, at),
        directive_on(s + rest, at) is Some <==> directive_on(s, at) is Some,
        attempt_on(s + rest, at) == attempt_on(s, at),
{
    let t = s.skip(at);
    let u = (s + rest).skip(at);
    assert(u =~= t + rest);
    assert(t.last() == s.last());
    lemma_position_of(t, '\n');
    let k = position_of(t, '\n');
    assert(t[t.len() - 1] == '\n');
    assert(k < t.len());
    assert forall|i: int| 0 <= i < k implies #[trigger] u[i] != '\n' by {
        assert(u[i] == t[i]);
    }
    assert(u[k] == t[k]);
    lemma_position_is(u, '\n', k);
    assert(first_line(u) =~= first_line(t));
}

/// A directive behind whole lines of code that declare nothing is misplaced, and reported where
/// it stands.
pub proof fn law_directive_after_code_is_misplaced(
    code: Seq<char>,
    between: Seq<char>,
    gap: Seq<char>,
    req: Seq<char>,
    tail: Seq<char>,
    rest: Seq<char>,
)
    requires
        scan(code) is Absent,
        items(code, false).len() > 0,
        code.last() == '\n',
        !ends_in_block(code, false),
        is_filler(between, false),
        all_white(gap),
        all_white(tail),
        position_of(req, '"') == req.len(),
        position_of(gap + req + tail, '\n') == (gap + req + tail).len(),
    ensures
        scan(code + between + spelled(gap, req, tail) + rest) == (Scan::Misplaced {
            start: utf8_len(code + between),
            end: utf8_len(code + between + spelled(gap, req, tail)),
        }),
{
    let d = spelled(gap, req, tail);
    let behind = between + d + rest;
    let content = code + between + d + rest;
    assert(content =~= code + behind);
    law_lines_are_read_in_turn(code, behind, false);
    law_directive_is_first_item(between, gap, req, tail, rest);
    law_absent_iff_none(code);
    lemma_items_bound(code, false);
    let qs = items(code, false);
    let ps = items(content, false);
    let n = qs.len() as int;
    assert forall|i: int| 0 <= i < n implies directive_on(content, #[trigger] ps[i]) is None by {
        assert(ps[i] == qs[i]);
        lemma_line_before(code, behind, qs[i]);
    }
    assert(ps[0] == qs[0]);
    lemma_line_before(code, behind, qs[0]);
    assert(ps[n] == code.len() + between.len());
    lemma_line_behind(code, behind, between.len() as int);
    assert(content.take(ps[n]) =~= code + between);
    assert(content.take(ps[n] + d.len()) =~= code + between + d);
    assert(directive_on(content, ps[n]) == Some(
        DirectiveModel { req, start: utf8_len(code + between), end: utf8_len(code + between + d) },
    ));
    lemma_code_offends_not(content, ps, 0, n);
    assert(code_before(content, ps, n)) by {
        assert(directive_on(content, ps[0]) is None);
    }
    assert(!directive_before(content, ps, n));
}

/// Code offends against no rule, unless it begins with an attempt at a directive.
proof fn lemma_code_offends_not(content: Seq<char>, ps: Seq<int>, k: int, n: int)
    requires
        0 <= k <= n <= ps.len(),
        forall|i: int| 0 <= i < n ==> directive_on(content, #[trigger] ps[i]) is None,
        n > 0 ==> !attempt_on(content, ps[0]),
    ensures
        first_offence(content, ps, k) == first_offence(content, ps, n),
    decreases n - k,
{
    if k < n {
        if k > 0 {
            assert(directive_on(content, ps[0]) is None);
            assert(code_before(content, ps, k));
        }
        assert(offence(content, ps, k) is None);
        lemma_code_offends_not(content, ps, k + 1, n);
    }
}

/// A directive behind another one and whole lines that declare nothing is a duplicate, and
/// reported where it stands.
#[verifier::rlimit(40)]
pub proof fn law_later_directive_is_duplicate(
    pre: Seq<char>,
    gap: Seq<char>,
    req: Seq<char>,
    tail: Seq<char>,
    code: Seq<char>,
    between: Seq<char>,
    second_gap: Seq<char>,
    second_req: Seq<char>,
    second_tail: Seq<char>,
    rest: Seq<char>,
)
    requires
        is_filler(pre, false),
        all_white(gap),
        all_white(tail),
        position_of(req, '"') == req.len(),
        position_of(gap + req + tail, '\n') == (gap + req + tail).len(),
        scan(code) is Absent,
        code.len() > 0 ==> code.last() == '\n',
        !ends_in_block(code, false),
        is_filler(between, false),
        all_white(second_gap),
        all_white(second_tail),
        position_of(second_req, '"') == second_req.len(),
        position_of(second_gap + second_req + second_tail, '\n') == (second_gap + second_req
            + second_tail).len(),
    ensures
        ({
            let before = pre + spelled(gap, req, tail) + code + between;
            let second = spelled(second_gap, second_req, second_tail);
            scan(before + second + rest) == (Scan::Duplicate {
                start: utf8_len(before),
                end: utf8_len(before + second),
            })
        }),
{
    let first = pre + spelled(gap, req, tail);
    let before = first + code + between;
    let second = spelled(second_gap, second_req, second_tail);
    let content = before + second + rest;
    let behind = between + second + rest;
    let after = code + behind;
    assert(content =~= first + after);
    law_directive_is_first_item(pre, gap, req, tail, after);
    law_lines_are_read_in_turn(code, behind, false);
    law_directive_is_first_item(between, second_gap, second_req, second_tail, rest);
    law_absent_iff_none(code);
    lemma_items_bound(code, false);
    let qs = items(code, false);
    let ps = items(content, false);
    let n = qs.len() + 1;
    assert(items(after, false) == qs + shifted(items(behind, false), code.len() as int));
    assert forall|i: int| 0 < i < n implies directive_on(content, #[trigger] ps[i]) is None by {
        assert(ps[i] == first.len() + qs[i - 1]);
        lemma_line_before(code, behind, qs[i - 1]);
        lemma_line_behind(first, after, qs[i - 1]);
    }
    if n > 1 {
        assert(ps[1] == first.len() + qs[0]);
        lemma_line_before(code, behind, qs[0]);
        lemma_line_behind(first, after, qs[0]);
    }
    assert(ps[0] == pre.len());
    assert(directive_on(content, ps[0]) is Some);
    assert(items(after, false)[n - 1] == code.len() + between.len());
    assert(ps[n as int] == first.len() + code.len() + between.len());
    lemma_line_behind(code, behind, between.len() as int);
    lemma_line_behind(first, after, (code.len() + between.len()) as int);
    assert(content.take(ps[n as int]) =~= before);
    assert(content.take(ps[n as int] + second.len()) =~= before + second);
    assert(directive_on(content, ps[n as int]) == Some(
        DirectiveModel {
            req: second_req,
            start: utf8_len(before),
            end: utf8_len(before + second),
        },
    ));
    assert(!directive_before(content, ps, 0) && !code_before(content, ps, 0));
    assert(offence(content, ps, 0) is None);
    lemma_code_behind_offends_not(content, ps, 1, n as int);
    assert(directive_before(content, ps, n as int));
    let found = Scan::Duplicate { start: utf8_len(before), end: utf8_len(before + second) };
    assert(offence(content, ps, n as int) == Some(found));
    assert(first_offence(content, ps, n as int) == Some(found));
    assert(first_offence(content, ps, 0) == first_offence(content, ps, 1));
}

/// Behind a directive, code offends against no rule, unless it begins with an attempt.
proof fn lemma_code_behind_offends_not(content: Seq<char>, ps: Seq<int>, k: int, n: int)
    requires
        1 <= k <= n <= ps.len(),
        directive_on(content, ps[0]) is Some,
        forall|i: int| 0 < i < n ==> directive_on(content, #[trigger] ps[i]) is None,
        n > 1 ==> !attempt_on(content, ps[1]),
    ensures
        first_offence(content, ps, k) == first_offence(content, ps, n),
    decreases n - k,
{
    if k < n {
        if k > 1 {
            assert(directive_on(content, ps[1]) is None);
            assert(code_before(content, ps, k));
        }
        assert(offence(content, ps, k) is None);
        lemma_code_behind_offends_not(content, ps, k + 1, n);
    }
}

// ---------------------------------------------------------------------------------------
// Leading directives
// ---------------------------------------------------------------------------------------

/// The directives at the front of a file are the first of them and those at the front of what
/// stands behind it, as many bytes further on.
pub proof fn law_leading_directives_are_read_in_turn(
    pre: Seq<char>,
    gap: Seq<char>,
    req: Seq<char>,
    tail: Seq<char>,
    rest: Seq<char>,
)
    requires
        is_filler(pre, false),
        all_white(gap),
        all_white(tail),
        position_of(req, '"') == req.len(),
        position_of(gap + req + tail, '\n') == (gap + req + tail).len(),
    ensures
        ({
            let before = pre + spelled(gap, req, tail);
            let later = leading_in(rest);
            let all = leading_in(before + rest);
            &&& all.len() == later.len() + 1
            &&& all[0] == (DirectiveModel { req, start: utf8_len(pre), end: utf8_len(before) })
            &&& forall|i: int|
                0 <= i < later.len() ==> #[trigger] later[i] == (DirectiveModel {
                    req: all[i + 1].req,
                    start: (all[i + 1].start - utf8_len(before)) as nat,
                    end: (all[i + 1].end - utf8_len(before)) as nat,
                }) && all[i + 1].start >= utf8_len(before) && all[i + 1].end >= utf8_len(before)
        }),
{
    let before = pre + spelled(gap, req, tail);
    let content = before + rest;
    let qs = items(rest, false);
    let ps = items(content, false);
    law_directive_is_first_item(pre, gap, req, tail, rest);
    lemma_items_bound(rest, false);
    assert(ps.drop_first() =~= shifted(qs, before.len() as int));
    lemma_leading_behind(before, rest, qs);
    let all = leading_in(content);
    let later = leading_in(rest);
    let behind = leading(content, shifted(qs, before.len() as int));
    assert(all =~= seq![all[0]] + behind);
    assert forall|i: int| 0 <= i < later.len() implies #[trigger] later[i] == (DirectiveModel {
        req: all[i + 1].req,
        start: (all[i + 1].start - utf8_len(before)) as nat,
        end: (all[i + 1].end - utf8_len(before)) as nat,
    }) && all[i + 1].start >= utf8_len(before) && all[i + 1].end >= utf8_len(before) by {
        assert(all[i + 1] == behind[i]);
    }
}

proof fn lemma_leading_behind(before: Seq<char>, rest: Seq<char>, qs: Seq<int>)
    requires
        forall|i: int| 0 <= i < qs.len() ==> 0 <= #[trigger] qs[i] < rest.len(),
    ensures
        ({
            let later = leading(rest, qs);
            let all = leading(before + rest, shifted(qs, before.len() as int));
            &&& all.len() == later.len()
            &&& forall|i: int|
                0 <= i < later.len() ==> (#[trigger] all[i]) == (DirectiveModel {
                    req: later[i].req,
                    start: later[i].start + utf8_len(before),
                    end: later[i].end + utf8_len(before),
                })
        }),
    decreases qs.len(),
{
    let content = before + rest;
    let ps = shifted(qs, before.len() as int);
    if qs.len() > 0 {
        let at = qs[0];
        assert(ps[0] == before.len() + at);
        lemma_line_behind(before, rest, at);
        if let Some(d) = directive_on(rest, at) {
            let n = (directive_at(line_at(rest, at))->0).1;
            lemma_directive_at(line_at(rest, at));
            lemma_position_of(rest.skip(at), '\n');
            assert(content.take(before.len() + at) =~= before + rest.take(at));
            assert(content.take(before.len() + at + n) =~= before + rest.take(at + n));
            lemma_encode_concat(before, rest.take(at));
            lemma_encode_concat(before, rest.take(at + n));
            let more = qs.drop_first();
            assert forall|i: int| 0 <= i < more.len() implies 0 <= #[trigger] more[i]
                < rest.len() by {
                assert(more[i] == qs[i + 1]);
            }
            lemma_leading_behind(before, rest, more);
            assert(ps.drop_first() =~= shifted(more, before.len() as int));
        }
    }
}

// ---------------------------------------------------------------------------------------
// Comments that are not closed
// ---------------------------------------------------------------------------------------

proof fn lemma_open_block(s: Seq<char>)
    requires
        forall|i: int| 0 <= i < s.len() ==> !pair_at(#[trigger] s.skip(i), '*', '/'),
    ensures
        items(s, true).len() == 0,
    decreases s.len(),
{
    if s.len() > 0 {
        let rest = s.skip(1);
        assert(s.skip(0) =~= s);
        assert(!pair_at(s, '*', '/'));
        assert forall|i: int| 0 <= i < rest.len() implies !pair_at(
            #[trigger] rest.skip(i),
            '*',
            '/',
        ) by {
            assert(rest.skip(i) =~= s.skip(i + 1));
        }
        lemma_open_block(rest);
    }
}

/// A comment that is not closed runs to the end of the file, and nothing in it counts: a block
/// comment without its `*/`, and a line comment without a newline.
pub proof fn law_open_comment_hides_the_rest(body: Seq<char>)
    ensures
        (forall|i: int| 0 <= i < body.len() ==> !pair_at(#[trigger] body.skip(i), '*', '/'))
            ==> items("/*"@ + body, false).len() == 0,
        !body.contains('\n') ==> items("//"@ + body, false).len() == 0,
{
    reveal_strlit("/*");
    reveal_strlit("//");
    if forall|i: int| 0 <= i < body.len() ==> !pair_at(#[trigger] body.skip(i), '*', '/') {
        let s = "/*"@ + body;
        assert(s[0] == '/' && s[1] == '*');
        assert(s.skip(2) =~= body);
        lemma_open_block(body);
        lemma_step(s, false);
    }
    if !body.contains('\n') {
        let s = "//"@ + body;
        assert(s[0] == '/' && s[1] == '/');
        assert forall|i: int| 0 <= i < s.len() implies #[trigger] s[i] != '\n' by {
            if i >= 2 {
                assert(body.contains(body[i - 2]));
            }
        }
        lemma_position_is(s, '\n', s.len() as int);
        lemma_step(s, false);
        assert(s.skip(s.len() as int).len() == 0);
        assert(items(s.skip(s.len() as int), false).len() == 0);
    }
}

} // verus!
