//! Blanking the directive of a file, so that the parser never sees it while every later
//! byte offset stays where it was.
use std::borrow::Cow;

use vstd::prelude::*;
use vstd::utf8::*;

use crate::directive::{
    directive_models, directive_on, items, leading_directives, leading_in, lemma_items_bound,
    scan, DirectiveModel,
};
use crate::error::{is_slice, lemma_boundary_of_prefix, Span};
use crate::placement::{
    is_filler, law_absent_iff_none, law_filler_is_skipped,
    law_leading_directives_are_read_in_turn, law_white_is_filler, lemma_found_parts,
    lemma_leading_in, spelled,
};
use crate::text::{
    all_white, append_copies, byte_len, copies, is_white_space, lemma_encode_concat,
    lemma_white_prefix, lemma_white_suffix, position_of, trim, trimmed, trimmed_start, utf8_len, white_prefix,
    white_suffix,
};

verus! {

/// Whether the byte `i` belongs to one of the directives.
pub open spec fn covered(ds: Seq<DirectiveModel>, i: int) -> bool {
    exists|k: int| 0 <= k < ds.len() && (#[trigger] ds[k]).start <= i < ds[k].end
}

/// The bytes of `content`, with a space for every byte of a leading directive.
pub open spec fn blanked_bytes(content: Seq<char>) -> Seq<u8> {
    let bytes = encode_utf8(content);
    Seq::new(
        bytes.len(),
        |i: int|
            if covered(leading_in(content), i) {
                0x20u8
            } else {
                bytes[i]
            },
    )
}

/// What the parser is given of the file `content`.
pub open spec fn blanked(content: Seq<char>) -> Seq<char> {
    let text = decode_utf8(blanked_bytes(content));
    if leading_in(content).len() == 0 {
        content
    } else if all_white(text) {
        Seq::empty()
    } else {
        text
    }
}

/// Spaces encode to spaces.
pub proof fn lemma_encode_spaces(n: nat)
    ensures
        encode_utf8(copies(' ', n)) == Seq::new(n, |i: int| 0x20u8),
{
    is_ascii_chars_encode_utf8(copies(' ', n));
    assert(encode_utf8(copies(' ', n)) =~= Seq::new(n, |i: int| 0x20u8)) by {
        assert forall|i: int| 0 <= i < n implies encode_utf8(copies(' ', n))[i] == 0x20u8 by {
            assert(copies(' ', n)[i] as u8 == encode_utf8(copies(' ', n))[i]);
        }
    }
}

/// Trimming leaves nothing of a text exactly when it is all white space.
pub proof fn lemma_trimmed_empty(s: Seq<char>)
    ensures
        (trimmed(s).len() == 0) == all_white(s),
{
    lemma_white_prefix(s);
    let t = trimmed_start(s);
    lemma_white_suffix(t);
    if all_white(s) {
        let k = white_prefix(s);
        assert(k == s.len()) by {
            if k < s.len() {
                assert(is_white_space(s[k]));
            }
        }
    } else {
        let i = choose|i: int| 0 <= i < s.len() && !is_white_space(#[trigger] s[i]);
        if white_prefix(s) == s.len() {
            assert(s.take(white_prefix(s))[i] == s[i]);
        }
        assert(t[0] == s[white_prefix(s)]);
        if white_suffix(t) == t.len() {
            assert(is_white_space(t[0]));
        }
    }
}

/// Replace the directive with equal-length spaces so the parser never sees it while later
/// byte offsets (and thus error spans) stay correct. Duplicates are blanked too; reporting
/// them is the business of the version check, not of the parser. A file that holds nothing
/// else blanks to the empty program.
pub fn blank_version_directive<'a>(content: &'a str) -> (r: Cow<'a, str>)
    ensures
        r@ == blanked(content@),
{
    let directives = leading_directives(content);
    let ghost ds = leading_in(content@);
    let ghost bytes = encode_utf8(content@);
    let ghost target = blanked_bytes(content@);
    assert(directive_models(directives@) == ds);
    if directives.len() == 0 {
        return Cow::Borrowed(content);
    }
    proof {
        lemma_leading_in(content@);
        encode_utf8_valid_utf8(content@);
        is_char_boundary_start_end_of_seq(bytes);
    }
    let total = byte_len(content);
    let mut buf = String::new();
    let mut pos: usize = 0;
    let mut k: usize = 0;
    assert(encode_utf8(buf@) =~= target.take(0));
    while k < directives.len()
        invariant
            k <= directives.len(),
            total == bytes.len(),
            bytes == encode_utf8(content@),
            ds == leading_in(content@),
            ds == directive_models(directives@),
            target == blanked_bytes(content@),
            pos <= total,
            is_char_boundary(bytes, pos as int),
            encode_utf8(buf@) == target.take(pos as int),
            forall|i: int|
                0 <= i < ds.len() ==> is_slice(
                    content@,
                    (#[trigger] ds[i]).start as int,
                    ds[i].end as int,
                ),
            forall|i: int, j: int|
                0 <= i < j < ds.len() ==> (#[trigger] ds[i]).end <= (#[trigger] ds[j]).start,
            forall|i: int| k <= i < ds.len() ==> pos <= (#[trigger] ds[i]).start,
            forall|i: int| 0 <= i < k ==> (#[trigger] ds[i]).end <= pos,
        decreases directives.len() - k,
    {
        let span = directives[k].1;
        assert(ds[k as int].start == span.start && ds[k as int].end == span.end);
        let gap = Span { start: pos, end: span.start };
        let ghost before = buf@;
        match gap.to_slice(content) {
            Some(piece) => {
                buf.append(piece);
                proof {
                    lemma_encode_concat(before, piece@);
                    assert forall|i: int| pos <= i < span.start implies !covered(ds, i) by {
                        if covered(ds, i) {
                            let j = choose|j: int|
                                0 <= j < ds.len() && (#[trigger] ds[j]).start <= i < ds[j].end;
                            assert(j < k || j >= k);
                        }
                    }
                    assert(encode_utf8(buf@) =~= target.take(span.start as int));
                }
            },
            None => {},
        }
        let ghost middle = buf@;
        proof {
            reveal_strlit(" ");
        }
        append_copies(&mut buf, " ", span.end - span.start);
        proof {
            let n = (span.end - span.start) as nat;
            lemma_encode_concat(middle, copies(' ', n));
            lemma_encode_spaces(n);
            assert forall|i: int| span.start <= i < span.end implies covered(ds, i) by {
                assert(ds[k as int].start <= i < ds[k as int].end);
            }
            assert(encode_utf8(buf@) =~= target.take(span.end as int));
        }
        pos = span.end;
        k = k + 1;
    }
    let gap = Span { start: pos, end: total };
    let ghost before = buf@;
    match gap.to_slice(content) {
        Some(piece) => {
            buf.append(piece);
            proof {
                lemma_encode_concat(before, piece@);
                assert forall|i: int| pos <= i < total implies !covered(ds, i) by {
                    if covered(ds, i) {
                        let j = choose|j: int|
                            0 <= j < ds.len() && (#[trigger] ds[j]).start <= i < ds[j].end;
                    }
                }
                assert(encode_utf8(buf@) =~= target);
                encode_utf8_decode_utf8(buf@);
            }
        },
        None => {},
    }
    proof {
        lemma_trimmed_empty(buf@);
    }
    if trim(buf.as_str()).is_empty() {
        Cow::Owned(String::new())
    } else {
        Cow::Owned(buf)
    }
}

/// Blanking gives a text: the bytes up to the end of the first `k` directives are one.
proof fn lemma_blanked_valid(content: Seq<char>, k: int, end: int)
    requires
        0 <= k <= leading_in(content).len(),
        0 <= end <= utf8_len(content),
        is_char_boundary(encode_utf8(content), end),
        k > 0 ==> leading_in(content)[k - 1].end <= end,
        k < leading_in(content).len() ==> end <= leading_in(content)[k].start,
    ensures
        exists|text: Seq<char>| #[trigger]
            encode_utf8(text) == blanked_bytes(content).take(end),
    decreases k,
{
    let ds = leading_in(content);
    let bytes = encode_utf8(content);
    let target = blanked_bytes(content);
    lemma_leading_in(content);
    encode_utf8_valid_utf8(content);
    is_char_boundary_start_end_of_seq(bytes);
    let from: int = if k == 0 { 0 } else { ds[k - 1].end as int };
    lemma_boundary_of_prefix(bytes, from, end);
    valid_utf8_split(bytes.subrange(0, end), from);
    let piece = bytes.subrange(0, end).subrange(from, end);
    assert(piece =~= bytes.subrange(from, end));
    let gap = decode_utf8(piece);
    decode_utf8_encode_utf8(piece);
    assert forall|i: int| from <= i < end implies !covered(ds, i) by {
        if covered(ds, i) {
            let j = choose|j: int| 0 <= j < ds.len() && (#[trigger] ds[j]).start <= i < ds[j].end;
            assert(j < k - 1 || j == k - 1 || j == k || j > k);
        }
    }
    if k == 0 {
        assert(encode_utf8(gap) =~= target.take(end));
    } else {
        let d = ds[k - 1];
        lemma_blanked_valid(content, k - 1, d.start as int);
        let before = choose|text: Seq<char>| #[trigger]
            encode_utf8(text) == target.take(d.start as int);
        let n = (d.end - d.start) as nat;
        lemma_encode_spaces(n);
        lemma_encode_concat(before, copies(' ', n));
        lemma_encode_concat(before + copies(' ', n), gap);
        assert forall|i: int| d.start <= i < d.end implies covered(ds, i) by {
            assert(ds[k - 1].start <= i < ds[k - 1].end);
        }
        assert(encode_utf8(before + copies(' ', n) + gap) =~= target.take(end));
    }
}

/// Blanking keeps offsets: unless nothing but white space is left of the file, what the
/// parser is given has as many bytes as the file, a space for each byte of a leading
/// directive, and the byte of the file everywhere else.
pub proof fn law_blanking_keeps_offsets(content: Seq<char>)
    ensures
        blanked(content).len() > 0 ==> encode_utf8(blanked(content)) == blanked_bytes(content),
        blanked(content).len() > 0 ==> utf8_len(blanked(content)) == utf8_len(content),
{
    let ds = leading_in(content);
    let bytes = encode_utf8(content);
    if ds.len() == 0 {
        assert(blanked_bytes(content) =~= bytes);
    } else {
        encode_utf8_valid_utf8(content);
        is_char_boundary_start_end_of_seq(bytes);
        lemma_leading_in(content);
        lemma_blanked_valid(content, ds.len() as int, bytes.len() as int);
        let text = choose|text: Seq<char>| #[trigger]
            encode_utf8(text) == blanked_bytes(content).take(bytes.len() as int);
        assert(blanked_bytes(content).take(bytes.len() as int) =~= blanked_bytes(content));
        encode_utf8_decode_utf8(text);
    }
}

/// White space and comments before a text declare nothing.
pub proof fn lemma_filler_declares_nothing(pre: Seq<char>, rest: Seq<char>)
    requires
        is_filler(pre, false),
        scan(rest) is Absent,
    ensures
        scan(pre + rest) is Absent,
{
    law_filler_is_skipped(pre, rest);
    law_absent_iff_none(rest);
    law_absent_iff_none(pre + rest);
    let qs = items(rest, false);
    let ps = items(pre + rest, false);
    assert forall|i: int| 0 <= i < ps.len() implies (pre + rest).skip(#[trigger] ps[i])
        == rest.skip(qs[i]) by {
        lemma_items_bound(rest, false);
        assert(ps[i] == qs[i] + pre.len());
        assert((pre + rest).skip(ps[i]) =~= rest.skip(qs[i]));
    }
    assert forall|i: int| 0 <= i < ps.len() implies directive_on(
        pre + rest,
        #[trigger] ps[i],
    ) is None by {
        assert(directive_on(rest, qs[i]) is None);
    }
}

/// The directive of a file is blanked out of what the parser is given: a file in which one is
/// found declares nothing once it is blanked.
pub proof fn law_blanked_directive_is_gone(content: Seq<char>)
    requires
        scan(content) is Found,
    ensures
        scan(blanked(content)) is Absent,
{
    let (pre, d, rest) = lemma_found_parts(content);
    let ds = leading_in(content);
    let n = utf8_len(d);
    let text = pre + copies(' ', n) + rest;
    let bytes = encode_utf8(content);
    lemma_encode_concat(pre, d);
    lemma_encode_concat(pre + d, rest);
    lemma_encode_concat(pre, copies(' ', n));
    lemma_encode_concat(pre + copies(' ', n), rest);
    lemma_encode_spaces(n);
    assert forall|i: int| 0 <= i < bytes.len() implies #[trigger] encode_utf8(text)[i]
        == blanked_bytes(content)[i] by {
        if ds[0].start <= i < ds[0].end {
            assert(covered(ds, i));
        } else {
            assert(!covered(ds, i));
        }
    }
    assert(encode_utf8(text) =~= blanked_bytes(content));
    encode_utf8_decode_utf8(text);
    law_white_is_filler(copies(' ', n));
    lemma_filler_declares_nothing(copies(' ', n), rest);
    lemma_filler_declares_nothing(pre, copies(' ', n) + rest);
    assert(text =~= pre + (copies(' ', n) + rest));
    law_absent_iff_none(Seq::empty());
}

/// A file that declares nothing is parsed as it is.
pub proof fn law_undeclared_text_is_unchanged(content: Seq<char>)
    requires
        scan(content) is Absent,
    ensures
        blanked(content) == content,
{
    law_absent_iff_none(content);
}

/// A file without a leading directive is parsed as it is.
pub proof fn law_no_directive_no_change(content: Seq<char>)
    requires
        leading_in(content).len() == 0,
    ensures
        blanked(content) == content,
{
}

/// A directive is replaced by as many spaces as it has bytes: what the parser is given of the
/// white space and comments, the directive and the rest of a file is the first as it is, the
/// spaces, and `behind`, which is the rest where that has no leading directive, and otherwise
/// what blanking makes of it, or white space of the same length where it makes nothing of it.
/// Where all that is white space, the parser is given nothing.
pub proof fn law_directive_becomes_spaces(
    pre: Seq<char>,
    gap: Seq<char>,
    req: Seq<char>,
    tail: Seq<char>,
    rest: Seq<char>,
) -> (behind: Seq<char>)
    requires
        is_filler(pre, false),
        all_white(gap),
        all_white(tail),
        position_of(req, '"') == req.len(),
        position_of(gap + req + tail, '\n') == (gap + req + tail).len(),
    ensures
        utf8_len(behind) == utf8_len(rest),
        leading_in(rest).len() == 0 ==> behind == rest,
        leading_in(rest).len() > 0 && blanked(rest).len() > 0 ==> behind == blanked(rest),
        leading_in(rest).len() > 0 && blanked(rest).len() == 0 ==> all_white(behind),
        blanked(pre + spelled(gap, req, tail) + rest) == if all_white(pre) && all_white(behind) {
            Seq::empty()
        } else {
            pre + copies(' ', utf8_len(spelled(gap, req, tail))) + behind
        },
{
    let d = spelled(gap, req, tail);
    let before = pre + d;
    let content = before + rest;
    let n = utf8_len(d);
    let ds = leading_in(content);
    let later = leading_in(rest);
    law_leading_directives_are_read_in_turn(pre, gap, req, tail, rest);
    // What stands behind the directive.
    let bytes = encode_utf8(rest);
    lemma_leading_in(rest);
    encode_utf8_valid_utf8(rest);
    is_char_boundary_start_end_of_seq(bytes);
    lemma_blanked_valid(rest, later.len() as int, bytes.len() as int);
    let behind = choose|text: Seq<char>| #[trigger]
        encode_utf8(text) == blanked_bytes(rest).take(bytes.len() as int);
    assert(blanked_bytes(rest).take(bytes.len() as int) =~= blanked_bytes(rest));
    encode_utf8_decode_utf8(behind);
    if later.len() == 0 {
        assert(blanked_bytes(rest) =~= bytes);
        encode_utf8_decode_utf8(rest);
    }
    // The bytes of the whole.
    let text = pre + copies(' ', n) + behind;
    lemma_encode_concat(pre, d);
    lemma_encode_concat(before, rest);
    lemma_encode_concat(pre, copies(' ', n));
    lemma_encode_concat(pre + copies(' ', n), behind);
    lemma_encode_spaces(n);
    let whole = encode_utf8(content);
    let from = utf8_len(before) as int;
    assert forall|i: int| 0 <= i < whole.len() implies #[trigger] encode_utf8(text)[i]
        == blanked_bytes(content)[i] by {
        if i < utf8_len(pre) {
            assert(!covered(ds, i)) by {
                if covered(ds, i) {
                    let k = choose|k: int|
                        0 <= k < ds.len() && (#[trigger] ds[k]).start <= i < ds[k].end;
                    if k > 0 {
                        assert(later[k - 1].req == ds[k].req);
                    }
                }
            }
        } else if i < from {
            assert(ds[0].start <= i < ds[0].end);
            assert(covered(ds, i));
        } else {
            lemma_covered_behind(ds, later, from, i);
        }
    }
    assert(encode_utf8(text) =~= blanked_bytes(content));
    encode_utf8_decode_utf8(text);
    // White space.
    assert(all_white(text) <==> all_white(pre) && all_white(behind)) by {
        let m = pre.len() + n;
        if all_white(text) {
            assert forall|i: int| 0 <= i < pre.len() implies is_white_space(#[trigger] pre[i]) by {
                assert(text[i] == pre[i]);
            }
            assert forall|i: int| 0 <= i < behind.len() implies is_white_space(
                #[trigger] behind[i],
            ) by {
                assert(text[m + i] == behind[i]);
            }
        }
        if all_white(pre) && all_white(behind) {
            assert forall|i: int| 0 <= i < text.len() implies is_white_space(
                #[trigger] text[i],
            ) by {
                if i < pre.len() {
                    assert(text[i] == pre[i]);
                } else if i >= m {
                    assert(text[i] == behind[i - m]);
                }
            }
        }
    }
    behind
}

/// Behind the first of them, the directives of a file cover what those of the rest cover.
proof fn lemma_covered_behind(
    ds: Seq<DirectiveModel>,
    later: Seq<DirectiveModel>,
    from: int,
    i: int,
)
    requires
        ds.len() == later.len() + 1,
        ds[0].end <= from <= i,
        forall|k: int|
            0 <= k < later.len() ==> #[trigger] later[k] == (DirectiveModel {
                req: ds[k + 1].req,
                start: (ds[k + 1].start - from) as nat,
                end: (ds[k + 1].end - from) as nat,
            }) && ds[k + 1].start >= from && ds[k + 1].end >= from,
    ensures
        covered(ds, i) == covered(later, i - from),
{
    if covered(ds, i) {
        let k = choose|k: int| 0 <= k < ds.len() && (#[trigger] ds[k]).start <= i < ds[k].end;
        assert(k > 0);
        assert(later[k - 1].start <= i - from < later[k - 1].end);
    }
    if covered(later, i - from) {
        let k = choose|k: int|
            0 <= k < later.len() && (#[trigger] later[k]).start <= i - from < later[k].end;
        assert(ds[k + 1].start <= i < ds[k + 1].end);
    }
}

} // verus!
