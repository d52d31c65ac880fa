//! Text as a sequence of characters, and the operations on `&str` that the rest of the
//! library is built from. Positions inside a text are counted in characters; `utf8_len`
//! turns a prefix into the byte offset that a span records.
use vstd::prelude::*;
use vstd::utf8::*;

verus! {

/// The characters with the Unicode property `White_Space`.
pub open spec fn is_white_space(c: char) -> bool {
    ||| '\u{9}' <= c <= '\u{d}'
    ||| c == '\u{20}'
    ||| c == '\u{85}'
    ||| c == '\u{a0}'
    ||| c == '\u{1680}'
    ||| '\u{2000}' <= c <= '\u{200a}'
    ||| c == '\u{2028}'
    ||| c == '\u{2029}'
    ||| c == '\u{202f}'
    ||| c == '\u{205f}'
    ||| c == '\u{3000}'
}

/// The number of bytes of the UTF-8 encoding of `s`.
pub open spec fn utf8_len(s: Seq<char>) -> nat {
    encode_utf8(s).len()
}

/// How many characters at the front of `s` are white space.
pub open spec fn white_prefix(s: Seq<char>) -> int
    decreases s.len(),
{
    if s.len() > 0 && is_white_space(s[0]) {
        1 + white_prefix(s.drop_first())
    } else {
        0
    }
}

/// How many characters at the back of `s` are white space.
pub open spec fn white_suffix(s: Seq<char>) -> int
    decreases s.len(),
{
    if s.len() > 0 && is_white_space(s.last()) {
        1 + white_suffix(s.drop_last())
    } else {
        0
    }
}

/// `s` without the white space at its front.
pub open spec fn trimmed_start(s: Seq<char>) -> Seq<char> {
    s.skip(white_prefix(s))
}

/// `s` without the white space at its back.
pub open spec fn trimmed_end(s: Seq<char>) -> Seq<char> {
    s.take(s.len() - white_suffix(s))
}

/// `s` without the white space at either end.
pub open spec fn trimmed(s: Seq<char>) -> Seq<char> {
    trimmed_end(trimmed_start(s))
}

/// Whether every character of `s` is white space.
pub open spec fn all_white(s: Seq<char>) -> bool {
    forall|i: int| 0 <= i < s.len() ==> is_white_space(#[trigger] s[i])
}

/// The index of the first `c` in `s`, or the length of `s` where there is none.
pub open spec fn position_of(s: Seq<char>, c: char) -> int
    decreases s.len(),
{
    if s.len() == 0 || s[0] == c {
        0
    } else {
        1 + position_of(s.drop_first(), c)
    }
}

/// Whether `s` begins with `prefix`.
pub open spec fn begins_with(s: Seq<char>, prefix: Seq<char>) -> bool {
    prefix.len() <= s.len() && s.take(prefix.len() as int) == prefix
}

/// The decimal digit `d`.
pub open spec fn digit(d: nat) -> char {
    (48 + d) as char
}

/// The number `n` in decimal, without leading zeros.
pub open spec fn decimal(n: nat) -> Seq<char>
    decreases n,
{
    if n < 10 {
        seq![digit(n)]
    } else {
        decimal(n / 10).push(digit(n % 10))
    }
}

/// `n` copies of `c`.
pub open spec fn copies(c: char, n: nat) -> Seq<char> {
    Seq::new(n, |i: int| c)
}

/// The parts in order, with `separator` between each two of them.
pub open spec fn joined(parts: Seq<Seq<char>>, separator: Seq<char>) -> Seq<char>
    decreases parts.len(),
{
    if parts.len() == 0 {
        Seq::empty()
    } else if parts.len() == 1 {
        parts[0]
    } else {
        joined(parts.drop_last(), separator) + separator + parts.last()
    }
}

/// The texts of the strings.
pub open spec fn texts(strings: Seq<String>) -> Seq<Seq<char>> {
    strings.map_values(|s: String| s@)
}

// ---------------------------------------------------------------------------------------
// Facts about the specification functions
// ---------------------------------------------------------------------------------------

/// Encoding a text piece by piece gives the pieces of its encoding.
pub proof fn lemma_encode_concat(a: Seq<char>, b: Seq<char>)
    ensures
        encode_utf8(a + b) == encode_utf8(a) + encode_utf8(b),
        utf8_len(a + b) == utf8_len(a) + utf8_len(b),
    decreases a.len(),
{
    if a.len() == 0 {
        assert(a + b =~= b);
        assert(encode_utf8(a) =~= Seq::<u8>::empty());
        assert(encode_utf8(a) + encode_utf8(b) =~= encode_utf8(b));
    } else {
        assert((a + b).drop_first() =~= a.drop_first() + b);
        lemma_encode_concat(a.drop_first(), b);
        assert(encode_utf8(a + b) =~= encode_utf8(a) + encode_utf8(b));
    }
}

/// An ASCII text takes one byte per character.
pub proof fn lemma_utf8_len_ascii(s: Seq<char>)
    requires
        is_ascii_chars(s),
    ensures
        utf8_len(s) == s.len(),
{
    is_ascii_chars_encode_utf8(s);
}

/// Splitting a text splits its byte length.
pub proof fn lemma_utf8_len_split(s: Seq<char>, i: int)
    requires
        0 <= i <= s.len(),
    ensures
        utf8_len(s) == utf8_len(s.take(i)) + utf8_len(s.skip(i)),
        encode_utf8(s) == encode_utf8(s.take(i)) + encode_utf8(s.skip(i)),
{
    assert(s.take(i) + s.skip(i) =~= s);
    lemma_encode_concat(s.take(i), s.skip(i));
}

/// The white prefix is the longest prefix of white space.
pub proof fn lemma_white_prefix(s: Seq<char>)
    ensures
        0 <= white_prefix(s) <= s.len(),
        all_white(s.take(white_prefix(s))),
        white_prefix(s) < s.len() ==> !is_white_space(s[white_prefix(s)]),
    decreases s.len(),
{
    if s.len() > 0 && is_white_space(s[0]) {
        let rest = s.drop_first();
        lemma_white_prefix(rest);
        assert forall|i: int| 0 <= i < white_prefix(s) implies is_white_space(
            #[trigger] s.take(white_prefix(s))[i],
        ) by {
            if i > 0 {
                assert(rest.take(white_prefix(rest))[i - 1] == s[i]);
            }
        }
    }
}

/// What fixes the white prefix: white space up to it, and none at it.
pub proof fn lemma_white_prefix_is(s: Seq<char>, k: int)
    requires
        0 <= k <= s.len(),
        forall|i: int| 0 <= i < k ==> is_white_space(#[trigger] s[i]),
        k < s.len() ==> !is_white_space(s[k]),
    ensures
        white_prefix(s) == k,
    decreases k,
{
    if k > 0 {
        assert(is_white_space(s[0]));
        assert forall|i: int| 0 <= i < k - 1 implies is_white_space(
            #[trigger] s.drop_first()[i],
        ) by {
            assert(s.drop_first()[i] == s[i + 1]);
        }
        lemma_white_prefix_is(s.drop_first(), k - 1);
    }
}

/// What fixes the white suffix: white space from it on, and none before it.
pub proof fn lemma_white_suffix_is(s: Seq<char>, k: int)
    requires
        0 <= k <= s.len(),
        forall|i: int| s.len() - k <= i < s.len() ==> is_white_space(#[trigger] s[i]),
        k < s.len() ==> !is_white_space(s[s.len() - k - 1]),
    ensures
        white_suffix(s) == k,
    decreases k,
{
    if k > 0 {
        assert(is_white_space(s[s.len() - 1]));
        lemma_white_suffix_is(s.drop_last(), k - 1);
    }
}

/// The white suffix is no longer than the text.
pub proof fn lemma_white_suffix(s: Seq<char>)
    ensures
        0 <= white_suffix(s) <= s.len(),
        forall|i: int| s.len() - white_suffix(s) <= i < s.len() ==> is_white_space(
            #[trigger] s[i],
        ),
        white_suffix(s) < s.len() ==> !is_white_space(s[s.len() - white_suffix(s) - 1]),
    decreases s.len(),
{
    if s.len() > 0 && is_white_space(s.last()) {
        lemma_white_suffix(s.drop_last());
        assert forall|i: int| s.len() - white_suffix(s) <= i < s.len() implies is_white_space(
            #[trigger] s[i],
        ) by {
            if i < s.len() - 1 {
                assert(s.drop_last()[i] == s[i]);
            }
        }
    }
}

/// What fixes the position of a character.
pub proof fn lemma_position_is(s: Seq<char>, c: char, k: int)
    requires
        0 <= k <= s.len(),
        forall|i: int| 0 <= i < k ==> #[trigger] s[i] != c,
        k < s.len() ==> s[k] == c,
    ensures
        position_of(s, c) == k,
    decreases k,
{
    if k > 0 {
        assert(s[0] != c);
        assert forall|i: int| 0 <= i < k - 1 implies #[trigger] s.drop_first()[i] != c by {
            assert(s.drop_first()[i] == s[i + 1]);
        }
        lemma_position_is(s.drop_first(), c, k - 1);
    }
}

/// The position of a character is the first place where it stands.
pub proof fn lemma_position_of(s: Seq<char>, c: char)
    ensures
        0 <= position_of(s, c) <= s.len(),
        forall|i: int| 0 <= i < position_of(s, c) ==> #[trigger] s[i] != c,
        position_of(s, c) < s.len() ==> s[position_of(s, c)] == c,
    decreases s.len(),
{
    if s.len() > 0 && s[0] != c {
        let rest = s.drop_first();
        lemma_position_of(rest, c);
        assert forall|i: int| 0 <= i < position_of(s, c) implies #[trigger] s[i] != c by {
            if i > 0 {
                assert(rest[i - 1] == s[i]);
            }
        }
    }
}

// ---------------------------------------------------------------------------------------
// Operations on `&str`
// ---------------------------------------------------------------------------------------

/// Whether `c` has the Unicode property `White_Space`.
pub fn is_white(c: char) -> (r: bool)
    ensures
        r == is_white_space(c),
{
    ('\u{9}' <= c && c <= '\u{d}') || c == '\u{20}' || c == '\u{85}' || c == '\u{a0}' || c
        == '\u{1680}' || ('\u{2000}' <= c && c <= '\u{200a}') || c == '\u{2028}' || c == '\u{2029}'
        || c == '\u{202f}' || c == '\u{205f}' || c == '\u{3000}'
}

/// The number of bytes of `s`.
pub fn byte_len(s: &str) -> (n: usize)
    ensures
        n == utf8_len(s@),
{
    s.as_bytes().len()
}

/// The characters of `s`, in order.
pub fn characters(s: &str) -> (r: Vec<char>)
    ensures
        r@ == s@,
{
    let mut r: Vec<char> = Vec::new();
    for c in it: s.chars()
        invariant
            it.seq() == s@,
            r@ == s@.take(it.index() as int),
    {
        r.push(c);
    }
    r
}

/// The characters of `s` from the index `from` on.
pub fn skip_characters<'a>(s: &'a str, from: usize) -> (r: &'a str)
    requires
        from <= s@.len(),
    ensures
        r@ == s@.skip(from as int),
{
    s.substring_char(from, s.unicode_len())
}

/// `s` without the white space at its front.
pub fn trim_start<'a>(s: &'a str) -> (r: &'a str)
    ensures
        r@ == trimmed_start(s@),
{
    let cs = characters(s);
    let mut k: usize = 0;
    while k < cs.len() && is_white(cs[k])
        invariant
            cs@ == s@,
            k <= cs.len(),
            forall|i: int| 0 <= i < k ==> is_white_space(#[trigger] s@[i]),
        decreases cs.len() - k,
    {
        k = k + 1;
    }
    proof {
        lemma_white_prefix_is(s@, k as int);
    }
    skip_characters(s, k)
}

/// `s` without the white space at its back.
pub fn trim_end<'a>(s: &'a str) -> (r: &'a str)
    ensures
        r@ == trimmed_end(s@),
{
    let cs = characters(s);
    let mut n: usize = cs.len();
    while n > 0 && is_white(cs[n - 1])
        invariant
            cs@ == s@,
            n <= cs.len(),
            forall|i: int| n <= i < s@.len() ==> is_white_space(#[trigger] s@[i]),
        decreases n,
    {
        n = n - 1;
    }
    proof {
        lemma_white_suffix_is(s@, s@.len() - n);
    }
    s.substring_char(0, n)
}

/// `s` without the white space at either end.
pub fn trim<'a>(s: &'a str) -> (r: &'a str)
    ensures
        r@ == trimmed(s@),
{
    trim_end(trim_start(s))
}

/// The index of the first `c` in `s`, if there is one.
pub fn find(s: &str, c: char) -> (r: Option<usize>)
    ensures
        match r {
            Some(k) => k == position_of(s@, c) && k < s@.len() <= usize::MAX,
            None => position_of(s@, c) == s@.len(),
        },
{
    let cs = characters(s);
    let mut k: usize = 0;
    while k < cs.len() && cs[k] != c
        invariant
            cs@ == s@,
            k <= cs.len(),
            forall|i: int| 0 <= i < k ==> #[trigger] s@[i] != c,
        decreases cs.len() - k,
    {
        k = k + 1;
    }
    proof {
        lemma_position_is(s@, c, k as int);
    }
    if k < cs.len() {
        Some(k)
    } else {
        None
    }
}

/// Whether `s` begins with `prefix`.
pub fn starts_with(s: &str, prefix: &str) -> (r: bool)
    ensures
        r == begins_with(s@, prefix@),
{
    let cs = characters(s);
    let ps = characters(prefix);
    if ps.len() > cs.len() {
        return false;
    }
    let mut k: usize = 0;
    while k < ps.len()
        invariant
            cs@ == s@,
            ps@ == prefix@,
            k <= ps.len() <= cs.len(),
            forall|i: int| 0 <= i < k ==> #[trigger] s@[i] == prefix@[i],
        decreases ps.len() - k,
    {
        if cs[k] != ps[k] {
            proof {
                assert(s@.take(prefix@.len() as int)[k as int] != prefix@[k as int]);
            }
            return false;
        }
        k = k + 1;
    }
    proof {
        assert(s@.take(prefix@.len() as int) =~= prefix@);
    }
    true
}

/// Whether the two texts are the same.
pub fn same_text(a: &str, b: &str) -> (r: bool)
    ensures
        r == (a@ == b@),
{
    let r = a.unicode_len() == b.unicode_len() && starts_with(a, b);
    proof {
        if a@.len() == b@.len() {
            assert(a@.take(b@.len() as int) =~= a@);
        }
    }
    r
}

/// The decimal digit `d` as text.
fn digit_text(d: u64) -> (r: &'static str)
    requires
        d < 10,
    ensures
        r@ == seq![digit(d as nat)],
{
    proof {
        reveal_strlit("0");
        reveal_strlit("1");
        reveal_strlit("2");
        reveal_strlit("3");
        reveal_strlit("4");
        reveal_strlit("5");
        reveal_strlit("6");
        reveal_strlit("7");
        reveal_strlit("8");
        reveal_strlit("9");
    }
    let r = if d == 0 {
        "0"
    } else if d == 1 {
        "1"
    } else if d == 2 {
        "2"
    } else if d == 3 {
        "3"
    } else if d == 4 {
        "4"
    } else if d == 5 {
        "5"
    } else if d == 6 {
        "6"
    } else if d == 7 {
        "7"
    } else if d == 8 {
        "8"
    } else {
        "9"
    };
    assert(r@ =~= seq![digit(d as nat)]);
    r
}

/// The number `n` in decimal.
pub fn decimal_text(n: u64) -> (r: String)
    ensures
        r@ == decimal(n as nat),
    decreases n,
{
    if n < 10 {
        digit_text(n).to_string()
    } else {
        let mut r = decimal_text(n / 10);
        r.append(digit_text(n % 10));
        assert(r@ =~= decimal(n as nat));
        r
    }
}

/// Appends `n` copies of the one-character text `unit` to `out`.
pub fn append_copies(out: &mut String, unit: &str, n: usize)
    requires
        unit@.len() == 1,
    ensures
        final(out)@ == old(out)@ + copies(unit@[0], n as nat),
{
    let ghost start = out@;
    let mut k: usize = 0;
    while k < n
        invariant
            k <= n,
            unit@.len() == 1,
            out@ == start + copies(unit@[0], k as nat),
        decreases n - k,
    {
        out.append(unit);
        k = k + 1;
        assert(out@ =~= start + copies(unit@[0], k as nat));
    }
    assert(start + copies(unit@[0], 0) =~= start);
}

/// The two texts one after another.
pub fn concat2(a: &str, b: &str) -> (r: String)
    ensures
        r@ == a@ + b@,
{
    let mut r = a.to_string();
    r.append(b);
    r
}

/// The three texts one after another.
pub fn concat3(a: &str, b: &str, c: &str) -> (r: String)
    ensures
        r@ == a@ + b@ + c@,
{
    let mut r = a.to_string();
    r.append(b);
    r.append(c);
    r
}

/// The four texts one after another.
pub fn concat4(a: &str, b: &str, c: &str, d: &str) -> (r: String)
    ensures
        r@ == a@ + b@ + c@ + d@,
{
    let mut r = a.to_string();
    r.append(b);
    r.append(c);
    r.append(d);
    r
}

/// The five texts one after another.
pub fn concat5(a: &str, b: &str, c: &str, d: &str, e: &str) -> (r: String)
    ensures
        r@ == a@ + b@ + c@ + d@ + e@,
{
    let mut r = a.to_string();
    r.append(b);
    r.append(c);
    r.append(d);
    r.append(e);
    r
}

/// The seven texts one after another.
pub fn concat7(a: &str, b: &str, c: &str, d: &str, e: &str, f: &str, g: &str) -> (r: String)
    ensures
        r@ == a@ + b@ + c@ + d@ + e@ + f@ + g@,
{
    let mut r = a.to_string();
    r.append(b);
    r.append(c);
    r.append(d);
    r.append(e);
    r.append(f);
    r.append(g);
    r
}

/// A copy of the text, if there is one.
pub fn clone_text(s: &Option<String>) -> (r: Option<String>)
    ensures
        r == *s,
{
    match s {
        Some(s) => Some(s.clone()),
        None => None,
    }
}

/// A copy of the strings.
pub fn clone_texts(strings: &Vec<String>) -> (r: Vec<String>)
    ensures
        r@ == strings@,
{
    let mut r: Vec<String> = Vec::new();
    let mut i: usize = 0;
    while i < strings.len()
        invariant
            i <= strings.len(),
            r@ == strings@.take(i as int),
        decreases strings.len() - i,
    {
        r.push(strings[i].clone());
        i = i + 1;
        assert(r@ =~= strings@.take(i as int));
    }
    r
}

// ---------------------------------------------------------------------------------------
// Laws
// ---------------------------------------------------------------------------------------

/// The white space characters, one by one.
pub proof fn law_white_space(c: char)
    ensures
        is_white_space(c) <==> seq![
            '\t', '\n', '\u{b}', '\u{c}', '\r', ' ', '\u{85}', '\u{a0}', '\u{1680}', '\u{2000}',
            '\u{2001}', '\u{2002}', '\u{2003}', '\u{2004}', '\u{2005}', '\u{2006}', '\u{2007}',
            '\u{2008}', '\u{2009}', '\u{200a}', '\u{2028}', '\u{2029}', '\u{202f}', '\u{205f}',
            '\u{3000}',
        ].contains(c),
{
    let all = seq![
        '\t', '\n', '\u{b}', '\u{c}', '\r', ' ', '\u{85}', '\u{a0}', '\u{1680}', '\u{2000}',
        '\u{2001}', '\u{2002}', '\u{2003}', '\u{2004}', '\u{2005}', '\u{2006}', '\u{2007}',
        '\u{2008}', '\u{2009}', '\u{200a}', '\u{2028}', '\u{2029}', '\u{202f}', '\u{205f}',
        '\u{3000}',
    ];
    assert(all[0] == '\t' && all[1] == '\n' && all[2] == '\u{b}' && all[3] == '\u{c}');
    assert(all[4] == '\r' && all[5] == ' ' && all[6] == '\u{85}' && all[7] == '\u{a0}');
    assert(all[8] == '\u{1680}' && all[9] == '\u{2000}' && all[10] == '\u{2001}');
    assert(all[11] == '\u{2002}' && all[12] == '\u{2003}' && all[13] == '\u{2004}');
    assert(all[14] == '\u{2005}' && all[15] == '\u{2006}' && all[16] == '\u{2007}');
    assert(all[17] == '\u{2008}' && all[18] == '\u{2009}' && all[19] == '\u{200a}');
    assert(all[20] == '\u{2028}' && all[21] == '\u{2029}' && all[22] == '\u{202f}');
    assert(all[23] == '\u{205f}' && all[24] == '\u{3000}');
    char_is_scalar(c);
    if is_white_space(c) {
        let n = c as u32;
        assert(0x9 <= n <= 0xd ==> n == 0x9 || n == 0xa || n == 0xb || n == 0xc || n == 0xd);
        assert(0x2000 <= n <= 0x200a ==> n == 0x2000 || n == 0x2001 || n == 0x2002 || n == 0x2003
            || n == 0x2004 || n == 0x2005 || n == 0x2006 || n == 0x2007 || n == 0x2008 || n
            == 0x2009 || n == 0x200a);
    }
}

/// Trimming takes off the white space at the ends of a text, all of it and nothing else.
pub proof fn law_trimming_takes_off_white_space(a: Seq<char>, s: Seq<char>, b: Seq<char>)
    requires
        all_white(a),
        all_white(b),
        s.len() > 0 ==> !is_white_space(s[0]) && !is_white_space(s.last()),
    ensures
        s.len() > 0 ==> trimmed_start(a + s + b) == s + b,
        trimmed_end(s + b) == s,
        trimmed(a + s + b) == s,
{
    let whole = a + s + b;
    if s.len() > 0 {
        assert forall|i: int| 0 <= i < a.len() implies is_white_space(#[trigger] whole[i]) by {
            assert(whole[i] == a[i]);
        }
        assert(whole[a.len() as int] == s[0]);
        lemma_white_prefix_is(whole, a.len() as int);
        assert(whole.skip(a.len() as int) =~= s + b);
        assert((s + b)[s.len() - 1] == s.last());
    } else {
        assert forall|i: int| 0 <= i < whole.len() implies is_white_space(#[trigger] whole[i]) by {
            if i >= a.len() {
                assert(whole[i] == b[i - a.len()]);
            } else {
                assert(whole[i] == a[i]);
            }
        }
        lemma_white_prefix_is(whole, whole.len() as int);
        assert(whole.skip(whole.len() as int) =~= Seq::<char>::empty());
        lemma_white_suffix_is(Seq::empty(), 0);
        assert(s =~= Seq::<char>::empty());
        assert(trimmed(whole) =~= s);
    }
    assert forall|i: int| s.len() <= i < (s + b).len() implies is_white_space(
        #[trigger] (s + b)[i],
    ) by {
        assert((s + b)[i] == b[i - s.len()]);
    }
    lemma_white_suffix_is(s + b, b.len() as int);
    assert((s + b).take(s.len() as int) =~= s);
}

/// A character is found behind a text that does not hold it, and not in a text that does not.
pub proof fn law_first_is_found(before: Seq<char>, c: char, after: Seq<char>)
    requires
        !before.contains(c),
    ensures
        position_of(before + seq![c] + after, c) == before.len(),
        position_of(before, c) == before.len(),
{
    let s = before + seq![c] + after;
    assert forall|i: int| 0 <= i < before.len() implies #[trigger] s[i] != c by {
        assert(s[i] == before[i]);
    }
    lemma_position_is(s, c, before.len() as int);
    lemma_position_is(before, c, before.len() as int);
}

/// A text begins with another exactly where it is that text and something behind it.
pub proof fn law_begins_with(s: Seq<char>, prefix: Seq<char>)
    ensures
        begins_with(s, prefix) <==> exists|rest: Seq<char>| s == #[trigger] (prefix + rest),
{
    if begins_with(s, prefix) {
        assert(s =~= prefix + s.skip(prefix.len() as int));
    }
    if exists|rest: Seq<char>| s == #[trigger] (prefix + rest) {
        let rest = choose|rest: Seq<char>| s == #[trigger] (prefix + rest);
        assert(s.take(prefix.len() as int) =~= prefix);
    }
}

/// One part is joined as it is, and two lists with the separator between them.
pub proof fn law_joined_parts(a: Seq<Seq<char>>, b: Seq<Seq<char>>, separator: Seq<char>)
    requires
        a.len() > 0,
        b.len() > 0,
    ensures
        joined(seq![a[0]], separator) == a[0],
        joined(a + b, separator) == joined(a, separator) + separator + joined(b, separator),
    decreases b.len(),
{
    let all = a + b;
    let rest = b.drop_last();
    assert(all.drop_last() =~= a + rest);
    assert(all.last() == b.last());
    if rest.len() > 0 {
        law_joined_parts(a, rest, separator);
        assert(joined(all, separator) =~= joined(a, separator) + separator + joined(b, separator));
    } else {
        assert(a + rest =~= a);
        assert(b.last() == b[0]);
    }
}

} // verus!
