//! The compiler version directive: the `simc "<version>";` line with which a file says which
//! compilers it is written for.
use vstd::prelude::*;

use crate::blank::{
    blanked, law_blanked_directive_is_gone, law_undeclared_text_is_unchanged,
    lemma_filler_declares_nothing,
};
use crate::directive::{
    directive_at, first_line, items, leading_in, looks_like_directive, scan, scan_directive,
    DirectiveModel, DirectiveScan, Scan,
};
use crate::error::{message, Error, ErrorCollector, RichError, RichErrorModel, Span};
use crate::placement::{
    ends_in_block, is_filler, law_attempt_is_malformed, law_directive_after_code_is_misplaced,
    law_directive_is_first_item, law_later_directive_is_duplicate, law_only_directive_is_found,
    law_scan_span_stands, law_second_directive_is_duplicate, law_white_is_filler, scan_range,
    spelled,
};
use crate::requirement::{
    full_comparator, identifier_ok, identifiers_ok, law_text_determines_version, names_exactly,
    names_pre_release, reading_ok, reads_as, requirement_met, requirement_reading,
    semver_requirement, ComparatorModel, Op, Version, VersionModel, VersionRequirement,
};
use crate::render::law_valid_span_is_renderable;
use crate::source::{SourceFile, SourceModel};
use crate::text::{
    all_white, concat3, decimal, is_white_space, lemma_position_is, lemma_position_of, lemma_white_prefix_is,
    lemma_white_suffix_is, position_of, texts, trim, trimmed, utf8_len,
};

verus! {

/// What stands before the requirement of a directive.
pub const DIRECTIVE_PREFIX: &'static str = "simc \"";

/// What stands behind the requirement of a directive.
pub const DIRECTIVE_SUFFIX: &'static str = "\";";

/// The version of the compiler, as text.
pub open spec fn current_text() -> Seq<char> {
    "0.6.0-rc.0"@
}

/// The version of the compiler.
pub open spec fn compiler() -> VersionModel {
    VersionModel { major: 0, minor: 6, patch: 0, pre: "rc.0"@, build: Seq::empty() }
}

/// The compiler's version is spelled as it is shown.
pub proof fn law_compiler_is_current()
    ensures
        compiler().wf(),
        compiler().text() == current_text(),
{
    reveal_strlit("rc.0");
    reveal_strlit(".");
    reveal_strlit("-");
    reveal_strlit("0.6.0-rc.0");
    let pre = "rc.0"@;
    lemma_position_is(pre, '.', 2);
    assert(pre.take(2) =~= seq!['r', 'c']);
    assert(pre.skip(3) =~= seq!['0']);
    assert(identifier_ok(pre.take(2), true));
    lemma_position_is(pre.skip(3), '.', 1);
    assert(identifier_ok(pre.skip(3), true));
    assert(identifiers_ok(pre.skip(3), true));
    assert(identifiers_ok(pre, true));
    assert(decimal(0) == seq!['0']);
    assert(decimal(6) == seq!['6']);
    assert(compiler().text() =~= current_text());
}

/// The running compiler's version.
pub fn current_version() -> (r: &'static str)
    ensures
        r@ == current_text(),
{
    "0.6.0-rc.0"
}

/// A directive line for a version.
pub open spec fn directive_text(version: Seq<char>) -> Seq<char> {
    DIRECTIVE_PREFIX@ + version + DIRECTIVE_SUFFIX@
}

/// Render a `simc "<version>";` directive line.
pub fn directive_for(version: &str) -> (r: String)
    ensures
        r@ == directive_text(version@),
{
    concat3(DIRECTIVE_PREFIX, version, DIRECTIVE_SUFFIX)
}

/// The message for a leading line that looks like a directive but is malformed.
pub open spec fn malformed_text() -> Seq<char> {
    "malformed compiler version directive; expected `"@ + directive_text("<version>"@) + "`"@
}

/// The message shared by `check` and `requirement_of` for a leading line that looks like a
/// directive but is malformed, so the two agree on the wording.
pub fn malformed_directive_message() -> (r: String)
    ensures
        r@ == malformed_text(),
{
    concat3(
        "malformed compiler version directive; expected `",
        directive_for("<version>").as_str(),
        "`",
    )
}

/// Whether a span covers the bytes from `start` to `end`.
pub open spec fn covers(span: Span, start: nat, end: nat) -> bool {
    span.start == start && span.end == end
}

/// Whether an error says that `expected` was expected and `found` was found.
pub open spec fn says(e: Error, expected: Seq<char>, found: Seq<char>) -> bool {
    e matches Error::Syntax { expected: es, label, found: f } && texts(es@) == seq![expected]
        && label is None && (f matches Some(text) && text@ == found)
}

/// Whether the requirement of a directive is read as is known of it.
pub open spec fn required_reads(req: Seq<char>) -> bool {
    reading_ok(trimmed(req), semver_requirement(trimmed(req)))
}

/// The outcome of checking the directive of a file: none is no error, a broken one is
/// reported where it stands, and one that asks for another compiler is a mismatch.
pub open spec fn checked(content: Seq<char>, r: Result<(), (Error, Span)>) -> bool {
    match scan(content) {
        Scan::Absent => r is Ok,
        Scan::Malformed { start, end } => r matches Err((e, span)) && covers(span, start, end) && (
        e matches Error::InvalidSimcVersionSyntax { err } && err@ == malformed_text()),
        Scan::Duplicate { start, end } => r matches Err((e, span)) && covers(span, start, end)
            && says(e, "Exactly one compiler version directive"@, "Multiple directives"@),
        Scan::Misplaced { start, end } => r matches Err((e, span)) && covers(span, start, end)
            && says(
            e,
            "the `simc` directive to be the first item in the file"@,
            "a compiler version directive after program code"@,
        ),
        Scan::Found { req, start, end } => required_reads(req) && match semver_requirement(
            trimmed(req),
        ) {
            Err(msg) => r matches Err((e, span)) && covers(span, start, end) && (
            e matches Error::InvalidSimcVersionSyntax { err } && err@ == msg),
            Ok(comparators) => if requirement_met(comparators, compiler()) {
                r is Ok
            } else {
                r matches Err((e, span)) && covers(span, start, end) && (
                e matches Error::SimcVersionMismatch { required, current } && required@ == trimmed(
                    req,
                ) && current@ == current_text())
            },
        },
    }
}

/// The compiler's version, read.
fn compiler_version() -> (r: Version)
    ensures
        r@ == compiler(),
{
    proof {
        law_compiler_is_current();
    }
    match Version::parse(current_version()) {
        Ok(version) => {
            proof {
                law_text_determines_version(version@, compiler());
            }
            version
        },
        Err(_) => {
            assert(compiler().text() == current_text());
            vstd::pervasive::unreached()
        },
    }
}

/// Validate the leading `simc "...";` directive against the running compiler, returning the
/// diagnostic and its span on failure. Works on raw content, independent of parsing the body,
/// so directive errors surface clearly.
pub fn check(content: &str) -> (r: Result<(), (Error, Span)>)
    ensures
        checked(content@, r),
{
    match scan_directive(content) {
        DirectiveScan::Found { req, span } => {
            let required = trim(req);
            match VersionRequirement::parse(required) {
                Ok(req) => {
                    proof {
                        law_compiler_is_current();
                    }
                    let current = compiler_version();
                    if !req.matches(&current) {
                        let err = Error::SimcVersionMismatch {
                            required: required.to_string(),
                            current: current_version().to_string(),
                        };
                        return Err((err, span));
                    }
                    Ok(())
                },
                Err(e) => Err((Error::InvalidSimcVersionSyntax { err: e }, span)),
            }
        },
        DirectiveScan::Absent => Ok(()),
        DirectiveScan::Malformed(span) => Err(
            (Error::InvalidSimcVersionSyntax { err: malformed_directive_message() }, span),
        ),
        DirectiveScan::Duplicate(span) => {
            let expected: Vec<String> = vec!["Exactly one compiler version directive".to_string()];
            assert(texts(expected@) =~= seq!["Exactly one compiler version directive"@]);
            let err = Error::Syntax {
                expected,
                label: None,
                found: Some("Multiple directives".to_string()),
            };
            Err((err, span))
        },
        DirectiveScan::Misplaced(span) => {
            let expected: Vec<String> = vec![
                "the `simc` directive to be the first item in the file".to_string(),
            ];
            assert(texts(expected@) =~= seq![
                "the `simc` directive to be the first item in the file"@,
            ]);
            let err = Error::Syntax {
                expected,
                label: None,
                found: Some("a compiler version directive after program code".to_string()),
            };
            Err((err, span))
        },
    }
}

/// Whether `after` is what becomes of the collected errors `before` when the directive of
/// `source` is checked.
pub open spec fn source_checked(
    source: SourceModel,
    before: Seq<RichErrorModel>,
    after: Seq<RichErrorModel>,
) -> bool {
    exists|r: Result<(), (Error, Span)>| #[trigger]
        checked(source.content, r) && after == match r {
            Ok(_) => before,
            Err((error, span)) => before.push(
                RichErrorModel { error, span, source: Some(source) },
            ),
        }
}

/// Run `check` on a source file and record any diagnostic in `handler`. The per-file entry
/// point used by the driver and `TemplateProgram`.
pub fn check_source(source: &SourceFile, handler: &mut ErrorCollector)
    ensures
        source_checked(source@, old(handler)@, final(handler)@),
{
    let content = source.content();
    let r = check(&content);
    assert(checked(source@.content, r));
    match r {
        Ok(_) => {},
        Err((err, span)) => {
            handler.push(RichError::new(err, span).with_source(source.clone()));
        },
    }
}

/// The CLI advisory for a file that declares no directive, or `None` when one is present (a
/// malformed one is not absent: it surfaces as a hard error in `check`).
pub fn missing_directive_warning(content: &str) -> (r: Option<String>)
    ensures
        match r {
            Some(text) => scan(content@) is Absent && text@
                == "no compiler version directive; consider adding `"@ + directive_text(
                current_text(),
            ) + "`"@,
            None => !(scan(content@) is Absent),
        },
{
    match requirement_of(content) {
        Ok(None) => Some(
            concat3(
                "no compiler version directive; consider adding `",
                directive_for(current_version()).as_str(),
                "`",
            ),
        ),
        _ => None,
    }
}

/// Why `requirement_of` could not hand back a clean requirement. Only a single, well-formed
/// leading directive yields one; every other shape a file's directive can take is a distinct
/// variant here, so tooling can react without lexing the program.
#[derive(Debug, Eq, PartialEq)]
pub enum DirectiveError {
    /// More than one directive in the file (at most one is allowed).
    Duplicate,
    /// A directive that appears after program code (it must be the first item).
    Misplaced,
    /// A directive-looking line that is not a well-formed `simc "...";`, or a requirement
    /// string that is not valid semver. Carries the diagnostic message.
    InvalidSyntax(String),
}

impl Clone for DirectiveError {
    fn clone(&self) -> (r: Self)
        ensures
            r == *self,
    {
        match self {
            DirectiveError::Duplicate => DirectiveError::Duplicate,
            DirectiveError::Misplaced => DirectiveError::Misplaced,
            DirectiveError::InvalidSyntax(msg) => DirectiveError::InvalidSyntax(msg.clone()),
        }
    }
}

/// What a file declares: a requirement, none, or the way in which its directive is broken.
pub open spec fn declared(
    content: Seq<char>,
    r: Result<Option<VersionRequirement>, DirectiveError>,
) -> bool {
    match scan(content) {
        Scan::Absent => r matches Ok(None),
        Scan::Malformed { .. } => r matches Err(DirectiveError::InvalidSyntax(msg)) && msg@
            == malformed_text(),
        Scan::Duplicate { .. } => r matches Err(DirectiveError::Duplicate),
        Scan::Misplaced { .. } => r matches Err(DirectiveError::Misplaced),
        Scan::Found { req, .. } => required_reads(req) && match semver_requirement(trimmed(req)) {
            Ok(comparators) => r matches Ok(Some(found)) && found@ == comparators,
            Err(e) => r matches Err(DirectiveError::InvalidSyntax(msg)) && msg@ == e,
        },
    }
}

/// Cheaply read a file's declared version requirement (leading directive only, no lexing),
/// for external tooling. `Ok(None)` when absent. A malformed directive is reported as
/// `DirectiveError::InvalidSyntax`, the same as `check`, so a typo is never silently treated
/// as "no directive".
pub fn requirement_of(content: &str) -> (r: Result<Option<VersionRequirement>, DirectiveError>)
    ensures
        declared(content@, r),
{
    match scan_directive(content) {
        DirectiveScan::Found { req, .. } => match VersionRequirement::parse(trim(req)) {
            Ok(found) => Ok(Some(found)),
            Err(e) => Err(DirectiveError::InvalidSyntax(e)),
        },
        DirectiveScan::Absent => Ok(None),
        DirectiveScan::Malformed(_) => Err(
            DirectiveError::InvalidSyntax(malformed_directive_message()),
        ),
        DirectiveScan::Duplicate(_) => Err(DirectiveError::Duplicate),
        DirectiveScan::Misplaced(_) => Err(DirectiveError::Misplaced),
    }
}

// ---------------------------------------------------------------------------------------
// Laws
// ---------------------------------------------------------------------------------------

/// The check of a file and what it declares agree: a broken directive fails the check, none
/// passes it, and a requirement passes it exactly where the compiler meets it.
pub proof fn law_check_agrees_with_declaration(
    content: Seq<char>,
    c: Result<(), (Error, Span)>,
    d: Result<Option<VersionRequirement>, DirectiveError>,
)
    requires
        checked(content, c),
        declared(content, d),
    ensures
        match d {
            Ok(None) => c is Ok,
            Ok(Some(req)) => c is Ok <==> requirement_met(req@, compiler()),
            Err(_) => c is Err,
        },
        d matches Err(DirectiveError::InvalidSyntax(msg)) ==> (c matches Err(
            (Error::InvalidSimcVersionSyntax { err }, _),
        ) && err@ == msg@),
{
}

/// An error of the check points at whole characters of the file, so that it can be shown
/// there.
pub proof fn law_check_error_is_renderable(
    source: SourceModel,
    r: Result<(), (Error, Span)>,
)
    requires
        checked(source.content, r),
        utf8_len(source.content) < usize::MAX,
    ensures
        r matches Err((error, span)) ==> (RichErrorModel {
            error,
            span,
            source: Some(source),
        }).renderable(),
{
    law_scan_span_stands(source.content);
    if let Err((error, span)) = r {
        assert(scan_range(scan(source.content)) is Some);
        law_valid_span_is_renderable(source.content, span);
    }
}

/// A file without a directive passes the check.
pub proof fn law_absent_directive_passes(content: Seq<char>, r: Result<(), (Error, Span)>)
    requires
        checked(content, r),
        scan(content) is Absent,
    ensures
        r is Ok,
{
}

/// A directive that `directive_for` writes is one that is spelled out on its line.
proof fn lemma_written_directive(version: Seq<char>)
    requires
        position_of(version, '\n') == version.len(),
    ensures
        directive_text(version) == spelled(seq![' '], version, Seq::empty()),
        position_of(seq![' '] + version + Seq::empty(), '\n') == (seq![' '] + version
            + Seq::empty()).len(),
{
    reveal_strlit("simc \"");
    reveal_strlit("\";");
    reveal_strlit("simc");
    reveal_strlit("\"");
    reveal_strlit(";");
    let gap = seq![' '];
    assert(directive_text(version) =~= spelled(gap, version, Seq::empty()));
    let middle = gap + version + Seq::empty();
    lemma_position_of(version, '\n');
    assert forall|i: int| 0 <= i < middle.len() implies #[trigger] middle[i] != '\n' by {
        if i > 0 {
            assert(middle[i] == version[i - 1]);
        }
    }
    lemma_position_is(middle, '\n', middle.len() as int);
}

/// The directive that is written for a version is read back: a file that begins with it asks
/// for that version, on the bytes that were written, whatever follows.
pub proof fn law_written_directive_is_read_back(version: Seq<char>, rest: Seq<char>)
    requires
        position_of(version, '"') == version.len(),
        position_of(version, '\n') == version.len(),
    ensures
        ({
            let ds = leading_in(directive_text(version) + rest);
            ds.len() > 0 && ds[0] == (DirectiveModel {
                req: version,
                start: 0,
                end: utf8_len(directive_text(version)),
            })
        }),
{
    let pre = Seq::<char>::empty();
    lemma_written_directive(version);
    law_directive_is_first_item(pre, seq![' '], version, Seq::empty(), rest);
    assert(pre + directive_text(version) =~= directive_text(version));
    assert(utf8_len(pre) == 0);
}

/// A written directive above a text that declares nothing is what the file declares.
pub proof fn law_written_directive_is_found(version: Seq<char>, rest: Seq<char>)
    requires
        position_of(version, '"') == version.len(),
        position_of(version, '\n') == version.len(),
        scan(rest) is Absent,
    ensures
        scan(directive_text(version) + "\n"@ + rest) == (Scan::Found {
            req: version,
            start: 0,
            end: utf8_len(directive_text(version)),
        }),
{
    reveal_strlit("\n");
    let pre = Seq::<char>::empty();
    let d = directive_text(version);
    lemma_written_directive(version);
    law_white_is_filler("\n"@);
    lemma_filler_declares_nothing("\n"@, rest);
    law_only_directive_is_found(pre, seq![' '], version, Seq::empty(), "\n"@ + rest);
    assert(pre + d =~= d);
    assert(d + ("\n"@ + rest) =~= d + "\n"@ + rest);
    assert(utf8_len(pre) == 0);
}

/// The compiler meets the requirement that is its own version.
proof fn lemma_current_is_met()
    requires
        required_reads(current_text()),
    ensures
        trimmed(current_text()) == current_text(),
        semver_requirement(current_text()) matches Ok(comparators) && requirement_met(
            comparators,
            compiler(),
        ),
{
    reveal_strlit("rc.0");
    reveal_strlit(".");
    reveal_strlit("-");
    reveal_strlit("0.6.0-rc.0");
    let text = current_text();
    assert(text[0] == '0' && text[9] == '0');
    lemma_white_prefix_is(text, 0);
    assert(text.skip(0) =~= text);
    lemma_white_suffix_is(text, 0);
    assert(trimmed(text) =~= text);
    law_compiler_is_current();
    assert(decimal(0) == seq!['0']);
    assert(decimal(6) == seq!['6']);
    let c = full_comparator(Op::Caret, 0, 6, 0, "rc.0"@);
    assert(c.version_text() =~= text);
    assert(c.wf() && c.fits());
    let cs = seq![c];
    assert(semver_requirement(text) == Ok::<Seq<ComparatorModel>, Seq<char>>(cs));
    assert(names_exactly(cs, compiler()));
    assert(names_pre_release(cs)) by {
        assert(cs[0].pre.len() > 0);
    }
}

/// Taking the advice that is given on a file without a directive satisfies the check: the
/// directive for the running compiler, on a line above that file, passes.
pub proof fn law_advised_directive_passes(content: Seq<char>, r: Result<(), (Error, Span)>)
    requires
        scan(content) is Absent,
        checked(directive_text(current_text()) + "\n"@ + content, r),
    ensures
        r is Ok,
{
    reveal_strlit("0.6.0-rc.0");
    let version = current_text();
    lemma_position_is(version, '"', version.len() as int);
    lemma_position_is(version, '\n', version.len() as int);
    law_written_directive_is_found(version, content);
    lemma_current_is_met();
}

/// No directive is seen exactly where `requirement_of` finds none, so that a file is warned
/// about exactly where it declares nothing.
pub proof fn law_absent_iff_nothing_declared(
    content: Seq<char>,
    d: Result<Option<VersionRequirement>, DirectiveError>,
)
    requires
        declared(content, d),
    ensures
        scan(content) is Absent <==> d matches Ok(None),
{
}

/// Blanking the directive of a file uncovers no other: what is left declares nothing.
pub proof fn law_blanked_file_declares_nothing(
    content: Seq<char>,
    d: Result<Option<VersionRequirement>, DirectiveError>,
)
    requires
        scan(content) is Found,
        declared(blanked(content), d),
    ensures
        d matches Ok(None),
{
    law_blanked_directive_is_gone(content);
}

/// The parser is never given a directive: what is parsed of a file that passes the check
/// declares nothing.
pub proof fn law_parsed_text_declares_nothing(content: Seq<char>, r: Result<(), (Error, Span)>)
    requires
        checked(content, r),
        r is Ok,
    ensures
        scan(blanked(content)) is Absent,
{
    match scan(content) {
        Scan::Found { .. } => law_blanked_directive_is_gone(content),
        _ => law_undeclared_text_is_unchanged(content),
    }
}

/// Where a file is white space and comments, a directive and a text that declares nothing, it
/// declares what stands between the quotes of the directive, without the white space around it:
/// where that is read as a list, exactly that list, so that every version meets the requirement
/// exactly where it meets the list; and where it is refused, the refusal.
pub proof fn law_declared_is_what_is_written(
    pre: Seq<char>,
    gap: Seq<char>,
    req: Seq<char>,
    tail: Seq<char>,
    rest: Seq<char>,
    d: Result<Option<VersionRequirement>, DirectiveError>,
)
    requires
        is_filler(pre, false),
        all_white(gap),
        all_white(tail),
        position_of(req, '"') == req.len(),
        position_of(gap + req + tail, '\n') == (gap + req + tail).len(),
        scan(rest) is Absent,
        declared(pre + spelled(gap, req, tail) + rest, d),
    ensures
        match semver_requirement(trimmed(req)) {
            Ok(list) => d matches Ok(Some(found)) && found@ == list && forall|v: VersionModel|
                #![trigger requirement_met(found@, v)]
                requirement_met(found@, v) == requirement_met(list, v),
            Err(e) => d matches Err(DirectiveError::InvalidSyntax(msg)) && msg@ == e,
        },
{
    law_only_directive_is_found(pre, gap, req, tail, rest);
}

/// What a file declares is what `VersionRequirement::parse` makes of the text between the
/// quotes of its directive, without the white space around it.
pub proof fn law_declared_is_what_is_parsed(
    pre: Seq<char>,
    gap: Seq<char>,
    req: Seq<char>,
    tail: Seq<char>,
    rest: Seq<char>,
    d: Result<Option<VersionRequirement>, DirectiveError>,
    p: Result<VersionRequirement, String>,
)
    requires
        is_filler(pre, false),
        all_white(gap),
        all_white(tail),
        position_of(req, '"') == req.len(),
        position_of(gap + req + tail, '\n') == (gap + req + tail).len(),
        scan(rest) is Absent,
        declared(pre + spelled(gap, req, tail) + rest, d),
        requirement_reading(p) == semver_requirement(trimmed(req)),
    ensures
        match p {
            Ok(parsed) => d matches Ok(Some(found)) && found@ == parsed@,
            Err(e) => d matches Err(DirectiveError::InvalidSyntax(msg)) && msg@ == e@,
        },
{
    law_declared_is_what_is_written(pre, gap, req, tail, rest, d);
}

/// Two lists with a comma between them, written in a directive, are declared one after the
/// other.
pub proof fn law_declared_lists_are_joined(
    pre: Seq<char>,
    gap: Seq<char>,
    req: Seq<char>,
    tail: Seq<char>,
    rest: Seq<char>,
    a: Seq<char>,
    x: Seq<ComparatorModel>,
    b: Seq<char>,
    y: Seq<ComparatorModel>,
    d: Result<Option<VersionRequirement>, DirectiveError>,
)
    requires
        is_filler(pre, false),
        all_white(gap),
        all_white(tail),
        position_of(req, '"') == req.len(),
        position_of(gap + req + tail, '\n') == (gap + req + tail).len(),
        scan(rest) is Absent,
        declared(pre + spelled(gap, req, tail) + rest, d),
        trimmed(req) == a + ","@ + b,
        reads_as(a, x),
        reads_as(b, y),
        x.len() > 0,
        y.len() > 0,
        x.len() + y.len() <= 32,
    ensures
        d matches Ok(Some(found)) && found@ == x + y,
{
    law_only_directive_is_found(pre, gap, req, tail, rest);
    assert(reading_ok(trimmed(req), semver_requirement(trimmed(req))));
}

/// A comparator that is spelled out in a directive, and it alone, is declared.
pub proof fn law_declared_comparator(
    pre: Seq<char>,
    gap: Seq<char>,
    req: Seq<char>,
    tail: Seq<char>,
    rest: Seq<char>,
    c: ComparatorModel,
    d: Result<Option<VersionRequirement>, DirectiveError>,
)
    requires
        is_filler(pre, false),
        all_white(gap),
        all_white(tail),
        position_of(req, '"') == req.len(),
        position_of(gap + req + tail, '\n') == (gap + req + tail).len(),
        scan(rest) is Absent,
        declared(pre + spelled(gap, req, tail) + rest, d),
        c.wf(),
        c.fits(),
        !(c.op is Wildcard),
        trimmed(req) == c.text(),
    ensures
        d matches Ok(Some(found)) && found@ == seq![c],
{
    law_only_directive_is_found(pre, gap, req, tail, rest);
}

/// The check of such a file passes exactly where the running compiler meets the list that is
/// written. Otherwise the error stands on the bytes of the directive, and says either that the
/// text is refused and why, or which compiler is asked for and which is running.
pub proof fn law_check_holds_compiler_against_what_is_written(
    pre: Seq<char>,
    gap: Seq<char>,
    req: Seq<char>,
    tail: Seq<char>,
    rest: Seq<char>,
    c: Result<(), (Error, Span)>,
)
    requires
        is_filler(pre, false),
        all_white(gap),
        all_white(tail),
        position_of(req, '"') == req.len(),
        position_of(gap + req + tail, '\n') == (gap + req + tail).len(),
        scan(rest) is Absent,
        checked(pre + spelled(gap, req, tail) + rest, c),
    ensures
        c is Ok <==> (semver_requirement(trimmed(req)) matches Ok(list) && requirement_met(
            list,
            compiler(),
        )),
        c matches Err((error, span)) ==> {
            &&& span.start == utf8_len(pre)
            &&& span.end == utf8_len(pre + spelled(gap, req, tail))
            &&& match semver_requirement(trimmed(req)) {
                Ok(_) => error matches Error::SimcVersionMismatch { required, current }
                    && required@ == trimmed(req) && current@ == "0.6.0-rc.0"@,
                Err(e) => error matches Error::InvalidSimcVersionSyntax { err } && err@ == e,
            }
        },
{
    law_only_directive_is_found(pre, gap, req, tail, rest);
}

/// A second directive is refused where it stands, by the check and by what the file declares.
pub proof fn law_second_directive_is_refused(
    pre: Seq<char>,
    gap: Seq<char>,
    req: Seq<char>,
    tail: Seq<char>,
    between: Seq<char>,
    second_gap: Seq<char>,
    second_req: Seq<char>,
    second_tail: Seq<char>,
    rest: Seq<char>,
    c: Result<(), (Error, Span)>,
    d: Result<Option<VersionRequirement>, DirectiveError>,
)
    requires
        is_filler(pre, false),
        all_white(gap),
        all_white(tail),
        position_of(req, '"') == req.len(),
        position_of(gap + req + tail, '\n') == (gap + req + tail).len(),
        is_filler(between, false),
        all_white(second_gap),
        all_white(second_tail),
        position_of(second_req, '"') == second_req.len(),
        position_of(second_gap + second_req + second_tail, '\n') == (second_gap + second_req
            + second_tail).len(),
        checked(
            pre + spelled(gap, req, tail) + between + spelled(second_gap, second_req, second_tail)
                + rest,
            c,
        ),
        declared(
            pre + spelled(gap, req, tail) + between + spelled(second_gap, second_req, second_tail)
                + rest,
            d,
        ),
    ensures
        d matches Err(DirectiveError::Duplicate),
        c matches Err((error, span)) && message(error)
            == "Expected 'Exactly one compiler version directive', found 'Multiple directives'"@
            && span.start == utf8_len(pre + spelled(gap, req, tail) + between) && span.end
            == utf8_len(
            pre + spelled(gap, req, tail) + between + spelled(second_gap, second_req, second_tail),
        ),
{
    lemma_says_shown(
        "Exactly one compiler version directive"@,
        "Multiple directives"@,
    );
    reveal_strlit("Exactly one compiler version directive");
    reveal_strlit("Multiple directives");
    reveal_strlit(
        "Expected 'Exactly one compiler version directive', found 'Multiple directives'",
    );
    reveal_strlit("Expected '");
    reveal_strlit("', found '");
    reveal_strlit("'");
    assert("Expected '"@ + "Exactly one compiler version directive"@ + "', found '"@
        + "Multiple directives"@ + "'"@
        =~= "Expected 'Exactly one compiler version directive', found 'Multiple directives'"@);
    law_second_directive_is_duplicate(
        pre,
        gap,
        req,
        tail,
        between,
        second_gap,
        second_req,
        second_tail,
        rest,
    );
}

/// What `requirement_of` gives for a file with one directive is what
/// `VersionRequirement::parse` gives for the text between its quotes, without the white space
/// around it, and every version is answered alike by the two.
pub proof fn law_requirement_of_a_file_is_the_parsed_one(
    pre: Seq<char>,
    gap: Seq<char>,
    req: Seq<char>,
    tail: Seq<char>,
    rest: Seq<char>,
    content: &str,
    d: Result<Option<VersionRequirement>, DirectiveError>,
    text: &str,
    p: Result<VersionRequirement, String>,
    v: &Version,
    by_file: bool,
    by_text: bool,
)
    requires
        is_filler(pre, false),
        all_white(gap),
        all_white(tail),
        position_of(req, '"') == req.len(),
        position_of(gap + req + tail, '\n') == (gap + req + tail).len(),
        scan(rest) is Absent,
        content@ == pre + spelled(gap, req, tail) + rest,
        call_ensures(requirement_of, (content,), d),
        text@ == trimmed(req),
        call_ensures(VersionRequirement::parse, (text,), p),
    ensures
        p matches Err(e) ==> (d matches Err(DirectiveError::InvalidSyntax(msg)) && msg@ == e@),
        p matches Ok(parsed) ==> (d matches Ok(Some(found)) && found@ == parsed@ && (call_ensures(
            VersionRequirement::matches,
            (&found, v),
            by_file,
        ) && call_ensures(VersionRequirement::matches, (&parsed, v), by_text) ==> by_file
            == by_text)),
{
    law_declared_is_what_is_parsed(pre, gap, req, tail, rest, d, p);
}

/// A file is warned about exactly where `requirement_of` finds no directive in it, and the
/// warning spells out a directive that the check of the file then passes with.
pub proof fn law_warning_helps(
    content: &str,
    w: Option<String>,
    d: Result<Option<VersionRequirement>, DirectiveError>,
    c: Result<(), (Error, Span)>,
)
    requires
        call_ensures(missing_directive_warning, (content,), w),
        call_ensures(requirement_of, (content,), d),
    ensures
        w is Some <==> d matches Ok(None),
        w matches Some(text) ==> text@ == "no compiler version directive; consider adding `"@
            + directive_text("0.6.0-rc.0"@) + "`"@,
        w is Some && checked(directive_text("0.6.0-rc.0"@) + "\n"@ + content@, c) ==> c is Ok,
{
    if w is Some && checked(directive_text("0.6.0-rc.0"@) + "\n"@ + content@, c) {
        law_advised_directive_passes(content@, c);
    }
}

/// How an error is shown that says that one thing was expected and another found.
proof fn lemma_says_shown(expected: Seq<char>, found: Seq<char>)
    ensures
        forall|e: Error| #[trigger]
            says(e, expected, found) ==> message(e) == "Expected '"@ + expected + "', found '"@
                + found + "'"@,
{
    assert forall|e: Error| #[trigger] says(e, expected, found) implies message(e)
        == "Expected '"@ + expected + "', found '"@ + found + "'"@ by {
        if let Error::Syntax { expected: es, label, found: f } = e {
            assert(texts(es@)[0] == expected);
        }
    }
}

/// A directive behind another one and whole lines that declare nothing is refused where it
/// stands, by the check and by what the file declares.
pub proof fn law_later_directive_is_refused(
    pre: Seq<char>,
    gap: Seq<char>,
    req: Seq<char>,
    tail: Seq<char>,
    code: Seq<char>,
    between: Seq<char>,
    second_gap: Seq<char>,
    second_req: Seq<char>,
    second_tail: Seq<char>,
    rest: Seq<char>,
    c: Result<(), (Error, Span)>,
    d: Result<Option<VersionRequirement>, DirectiveError>,
)
    requires
        is_filler(pre, false),
        all_white(gap),
        all_white(tail),
        position_of(req, '"') == req.len(),
        position_of(gap + req + tail, '\n') == (gap + req + tail).len(),
        scan(code) is Absent,
        code.len() > 0 ==> code.last() == '\n',
        !ends_in_block(code, false),
        is_filler(between, false),
        all_white(second_gap),
        all_white(second_tail),
        position_of(second_req, '"') == second_req.len(),
        position_of(second_gap + second_req + second_tail, '\n') == (second_gap + second_req
            + second_tail).len(),
        checked(
            pre + spelled(gap, req, tail) + code + between + spelled(
                second_gap,
                second_req,
                second_tail,
            ) + rest,
            c,
        ),
        declared(
            pre + spelled(gap, req, tail) + code + between + spelled(
                second_gap,
                second_req,
                second_tail,
            ) + rest,
            d,
        ),
    ensures
        d matches Err(DirectiveError::Duplicate),
        c matches Err((error, span)) && span.start == utf8_len(
            pre + spelled(gap, req, tail) + code + between,
        ) && span.end == utf8_len(
            pre + spelled(gap, req, tail) + code + between + spelled(
                second_gap,
                second_req,
                second_tail,
            ),
        ),
{
    law_later_directive_is_duplicate(
        pre,
        gap,
        req,
        tail,
        code,
        between,
        second_gap,
        second_req,
        second_tail,
        rest,
    );
}

/// A directive behind whole lines of code is refused where it stands, by the check and by what
/// the file declares.
pub proof fn law_directive_after_code_is_refused(
    code: Seq<char>,
    between: Seq<char>,
    gap: Seq<char>,
    req: Seq<char>,
    tail: Seq<char>,
    rest: Seq<char>,
    c: Result<(), (Error, Span)>,
    d: Result<Option<VersionRequirement>, DirectiveError>,
)
    requires
        scan(code) is Absent,
        items(code, false).len() > 0,
        code.last() == '\n',
        !ends_in_block(code, false),
        is_filler(between, false),
        all_white(gap),
        all_white(tail),
        position_of(req, '"') == req.len(),
        position_of(gap + req + tail, '\n') == (gap + req + tail).len(),
        checked(code + between + spelled(gap, req, tail) + rest, c),
        declared(code + between + spelled(gap, req, tail) + rest, d),
    ensures
        d matches Err(DirectiveError::Misplaced),
        c matches Err((error, span)) && message(error) == "Expected '"@
            + "the `simc` directive to be the first item in the file"@ + "', found '"@
            + "a compiler version directive after program code"@ + "'"@ && span.start == utf8_len(
            code + between,
        ) && span.end == utf8_len(code + between + spelled(gap, req, tail)),
{
    lemma_says_shown(
        "the `simc` directive to be the first item in the file"@,
        "a compiler version directive after program code"@,
    );
    law_directive_after_code_is_misplaced(code, between, gap, req, tail, rest);
}

/// A line that begins a file, behind white space and comments, as an attempt at a directive and
/// is none is refused, by the check and by what the file declares, both in the same words, and
/// from its `simc` to its end.
pub proof fn law_malformed_directive_is_refused(
    pre: Seq<char>,
    line: Seq<char>,
    white: Seq<char>,
    rest: Seq<char>,
    c: Result<(), (Error, Span)>,
    d: Result<Option<VersionRequirement>, DirectiveError>,
)
    requires
        is_filler(pre, false),
        looks_like_directive(line + white),
        line.len() > 0,
        !line.contains('\n'),
        !is_white_space(line.last()),
        all_white(white),
        !white.contains('\n'),
        rest.len() > 0 ==> rest[0] == '\n',
        directive_at(first_line(line + white + rest)) is None,
        checked(pre + line + white + rest, c),
        declared(pre + line + white + rest, d),
    ensures
        d matches Err(DirectiveError::InvalidSyntax(msg)) && msg@
            == "malformed compiler version directive; expected `simc \"<version>\";`"@,
        c matches Err((error, span)) && message(error)
            == "Invalid version syntax: malformed compiler version directive; expected `simc \"<version>\";`"@
            && span.start == utf8_len(pre) && span.end == utf8_len(pre + line),
{
    law_attempt_is_malformed(pre, line, white, rest);
    reveal_strlit("simc \"");
    reveal_strlit("\";");
    reveal_strlit("<version>");
    reveal_strlit("`");
    reveal_strlit("malformed compiler version directive; expected `");
    reveal_strlit("malformed compiler version directive; expected `simc \"<version>\";`");
    reveal_strlit("Invalid version syntax: ");
    reveal_strlit(
        "Invalid version syntax: malformed compiler version directive; expected `simc \"<version>\";`",
    );
    assert(malformed_text()
        =~= "malformed compiler version directive; expected `simc \"<version>\";`"@);
    assert("Invalid version syntax: "@ + malformed_text()
        =~= "Invalid version syntax: malformed compiler version directive; expected `simc \"<version>\";`"@);
}

} // verus!
