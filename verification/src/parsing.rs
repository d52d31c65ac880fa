//! Parsing a file: its directive first, then its text, then the features that it uses.
use std::borrow::Cow;

use vstd::prelude::*;

use crate::blank::{blank_version_directive, blanked};
use crate::error::{
    all_in_source, error_models, Error, ErrorCollector, RichError, RichErrorModel, Span,
};
use crate::frontend::{all_renderable, parser_shows, Frontend};
use crate::render::renderable;
use crate::source::{SourceFile, SourceModel};
use crate::unstable::{
    disabled_uses, law_reported_iff_disabled, FeatureRequirement, RequireFeature, UnstableFeature,
    UnstableFeatures,
};
use crate::version::{check_source, checked, law_check_error_is_renderable};

verus! {

/// The errors that stand after a text was parsed: those before it, those of the parser, and
/// those for features that are not enabled.
pub open spec fn errors_after_parsing<P: RequireFeature>(
    parsed: Option<P>,
    errors: Seq<RichErrorModel>,
    source: SourceModel,
    enabled: Seq<UnstableFeature>,
    before: Seq<RichErrorModel>,
) -> Seq<RichErrorModel> {
    let after = before + all_in_source(errors, source);
    match parsed {
        Some(program) => after + disabled_uses(enabled, program.requirements(), source),
        None => after,
    }
}

/// Record the errors of the parser and those for features that are not enabled, and hand the
/// program on where there are none.
pub fn finish_parse<P: RequireFeature>(
    parsed: Option<P>,
    errors: Vec<RichError>,
    source: &SourceFile,
    unstable_features: &UnstableFeatures,
    handler: &mut ErrorCollector,
) -> (r: Option<P>)
    ensures
        final(handler)@ == errors_after_parsing(
            parsed,
            error_models(errors@),
            source@,
            unstable_features@,
            old(handler)@,
        ),
        r == if final(handler)@.len() == old(handler)@.len() {
            parsed
        } else {
            None
        },
{
    let before = handler.get().len();
    handler.extend(source, errors);
    match &parsed {
        Some(program) => unstable_features.check_program(program, source, handler),
        None => {},
    }
    if handler.get().len() == before {
        parsed
    } else {
        None
    }
}

/// Whether parsing the text of a file, without its directive, can come to `r`: the parser is
/// given `text` and gives `out`, the errors are those before and those that come of it, and
/// the program is handed on where there are none of the latter.
pub open spec fn parse_step<F: Frontend>(
    module: usize,
    source: SourceModel,
    enabled: Seq<UnstableFeature>,
    before: Seq<RichErrorModel>,
    text: &str,
    out: (Option<F::Parsed>, Vec<RichError>),
    r: Option<F::Parsed>,
    after: Seq<RichErrorModel>,
) -> bool {
    &&& text@ == blanked(source.content)
    &&& call_ensures(F::parse_text, (module, text), out)
    &&& after == errors_after_parsing(out.0, error_models(out.1@), source, enabled, before)
    &&& r == if after.len() == before.len() {
        out.0
    } else {
        None
    }
}

/// What parsing a file comes to, given the outcome of the check of its directive. A file that
/// fails the check is not parsed.
pub open spec fn parse_after_check<F: Frontend>(
    module: usize,
    source: SourceModel,
    enabled: Seq<UnstableFeature>,
    before: Seq<RichErrorModel>,
    c: Result<(), (Error, Span)>,
    r: Option<F::Parsed>,
    after: Seq<RichErrorModel>,
) -> bool {
    match c {
        Err((error, span)) => r is None && after == before.push(
            RichErrorModel { error, span, source: Some(source) },
        ),
        Ok(_) => exists|text: &str, out: (Option<F::Parsed>, Vec<RichError>)| #[trigger]
            parse_step::<F>(module, source, enabled, before, text, out, r, after),
    }
}

/// What parsing a file comes to. Its directive is checked first, and a file that fails the
/// check is not parsed. Otherwise the text without its directive is parsed.
pub open spec fn parse_outcome<F: Frontend>(
    module: usize,
    source: SourceModel,
    enabled: Seq<UnstableFeature>,
    before: Seq<RichErrorModel>,
    r: Option<F::Parsed>,
    after: Seq<RichErrorModel>,
) -> bool {
    exists|c: Result<(), (Error, Span)>| #[trigger]
        checked(source.content, c) && parse_after_check::<F>(
            module,
            source,
            enabled,
            before,
            c,
            r,
            after,
        )
}

/// Parse a file: check its directive, parse what stands beside it, and check that the
/// features which it uses are enabled. Errors are recorded in `handler`.
pub fn parse_from_str_with_errors<F: Frontend>(
    module: usize,
    source: &SourceFile,
    unstable_features: &UnstableFeatures,
    handler: &mut ErrorCollector,
) -> (r: Option<F::Parsed>)
    ensures
        parse_outcome::<F>(
            module,
            source@,
            unstable_features@,
            old(handler)@,
            r,
            final(handler)@,
        ),
{
    let before = handler.get().len();
    check_source(source, handler);
    if handler.get().len() != before {
        return None;
    }
    let content = source.content();
    let blanked_content = blank_version_directive(&content);
    let text: &str = match &blanked_content {
        Cow::Borrowed(text) => text,
        Cow::Owned(text) => text.as_str(),
    };
    let out = F::parse_text(module, text);
    let ghost given = out;
    let r = finish_parse(out.0, out.1, source, unstable_features, handler);
    assert(parse_step::<F>(
        module,
        source@,
        unstable_features@,
        old(handler)@,
        text,
        given,
        r,
        handler@,
    ));
    r
}

proof fn lemma_disabled_uses_renderable(
    enabled: Seq<UnstableFeature>,
    uses: Seq<FeatureRequirement>,
    source: SourceModel,
)
    requires
        forall|i: int|
            0 <= i < uses.len() ==> renderable(source.content, (#[trigger] uses[i]).span),
    ensures
        all_renderable(disabled_uses(enabled, uses, source)),
    decreases uses.len(),
{
    if uses.len() > 0 {
        let rest = uses.drop_last();
        assert forall|i: int| 0 <= i < rest.len() implies renderable(
            source.content,
            (#[trigger] rest[i]).span,
        ) by {
            assert(rest[i] == uses[i]);
        }
        lemma_disabled_uses_renderable(enabled, rest, source);
        assert(renderable(source.content, uses[uses.len() - 1].span));
    }
}

/// Where the parser's errors can be shown, all errors can be shown that stand after parsing.
pub proof fn law_parse_errors_are_renderable<F: Frontend>(
    module: usize,
    source: SourceModel,
    enabled: Seq<UnstableFeature>,
    before: Seq<RichErrorModel>,
    r: Option<F::Parsed>,
    after: Seq<RichErrorModel>,
)
    requires
        parse_outcome::<F>(module, source, enabled, before, r, after),
        all_renderable(before),
        parser_shows::<F>(module, source),
    ensures
        all_renderable(after),
{
    let c = choose|c: Result<(), (Error, Span)>| #[trigger]
        checked(source.content, c) && parse_after_check::<F>(
            module,
            source,
            enabled,
            before,
            c,
            r,
            after,
        );
    law_check_error_is_renderable(source, c);
    match c {
        Err((error, span)) => {},
        Ok(_) => {
            let (text, out) = choose|text: &str, out: (Option<F::Parsed>, Vec<RichError>)| #[trigger]
                parse_step::<F>(module, source, enabled, before, text, out, r, after);
            let own = all_in_source(error_models(out.1@), source);
            assert(all_renderable(own));
            assert forall|i: int| 0 <= i < (before + own).len() implies (#[trigger] (before
                + own)[i]).renderable() by {
                if i >= before.len() {
                    assert((before + own)[i] == own[i - before.len()]);
                }
            }
            if let Some(program) = out.0 {
                let uses = disabled_uses(enabled, program.requirements(), source);
                lemma_disabled_uses_renderable(enabled, program.requirements(), source);
                let all = before + own + uses;
                assert forall|i: int| 0 <= i < all.len() implies (
                #[trigger] all[i]).renderable() by {
                    if i >= (before + own).len() {
                        assert(all[i] == uses[i - (before + own).len()]);
                    } else {
                        assert(all[i] == (before + own)[i]);
                    }
                }
            }
        },
    }
}

/// Whether the directive of a file is refused: the check fails on it.
pub open spec fn directive_refused(content: Seq<char>) -> bool {
    forall|c: Result<(), (Error, Span)>| #[trigger] checked(content, c) ==> c is Err
}

/// A file whose directive is refused is not parsed: no program comes of it, and the one error
/// more is that of the check, shown in the file.
pub proof fn law_refused_directive_stops_parsing<F: Frontend>(
    module: usize,
    source: SourceModel,
    enabled: Seq<UnstableFeature>,
    before: Seq<RichErrorModel>,
    r: Option<F::Parsed>,
    after: Seq<RichErrorModel>,
)
    requires
        parse_outcome::<F>(module, source, enabled, before, r, after),
        directive_refused(source.content),
    ensures
        r is None,
        after.len() == before.len() + 1,
        after.drop_last() == before,
        checked(source.content, Err((after.last().error, after.last().span))),
        after.last().source == Some(source),
{
    let c = choose|c: Result<(), (Error, Span)>| #[trigger]
        checked(source.content, c) && parse_after_check::<F>(
            module,
            source,
            enabled,
            before,
            c,
            r,
            after,
        );
    assert(c is Err);
    assert(after.drop_last() =~= before);
}

/// Whether a file passes the check of its directive.
pub open spec fn directive_passes(content: Seq<char>) -> bool {
    checked(content, Ok(()))
}

/// A file passes the check of its directive or is refused, and never both.
pub proof fn law_directive_passes_or_is_refused(content: Seq<char>, c: Result<(), (Error, Span)>)
    requires
        checked(content, c),
    ensures
        c is Ok <==> directive_passes(content),
        c is Err <==> directive_refused(content),
{
    if c is Err {
        assert forall|d: Result<(), (Error, Span)>| #[trigger] checked(content, d) implies d is Err by {
        }
    }
}

proof fn lemma_more_features(
    enabled: Seq<UnstableFeature>,
    more: Seq<UnstableFeature>,
    uses: Seq<FeatureRequirement>,
    source: SourceModel,
)
    requires
        forall|f: UnstableFeature| enabled.contains(f) ==> more.contains(f),
        disabled_uses(enabled, uses, source).len() == 0,
    ensures
        disabled_uses(more, uses, source).len() == 0,
{
    law_reported_iff_disabled(enabled, uses, source);
    law_reported_iff_disabled(more, uses, source);
}

/// Enabling more features keeps a program: a file that is parsed without an error is parsed
/// to the same program, without an error.
pub proof fn law_more_features_keep_parsed<F: Frontend>(
    module: usize,
    source: SourceModel,
    enabled: Seq<UnstableFeature>,
    more: Seq<UnstableFeature>,
    before: Seq<RichErrorModel>,
    r: Option<F::Parsed>,
    after: Seq<RichErrorModel>,
)
    requires
        forall|f: UnstableFeature| enabled.contains(f) ==> more.contains(f),
        parse_outcome::<F>(module, source, enabled, before, r, after),
        r is Some,
    ensures
        parse_outcome::<F>(module, source, more, before, r, after),
{
    let c = choose|c: Result<(), (Error, Span)>| #[trigger]
        checked(source.content, c) && parse_after_check::<F>(
            module,
            source,
            enabled,
            before,
            c,
            r,
            after,
        );
    let (text, out) = choose|text: &str, out: (Option<F::Parsed>, Vec<RichError>)| #[trigger]
        parse_step::<F>(module, source, enabled, before, text, out, r, after);
    let program = out.0->0;
    lemma_more_features(enabled, more, program.requirements(), source);
    assert(disabled_uses(enabled, program.requirements(), source) =~= disabled_uses(
        more,
        program.requirements(),
        source,
    ));
    assert(parse_step::<F>(module, source, more, before, text, out, r, after));
    assert(parse_after_check::<F>(module, source, more, before, c, r, after));
}

/// Enabling more features adds nothing for a file that is parsed whatever happens: what
/// parsing it can come to with them, it can come to without.
pub proof fn law_more_features_add_nothing<F: Frontend>(
    module: usize,
    source: SourceModel,
    enabled: Seq<UnstableFeature>,
    more: Seq<UnstableFeature>,
    before: Seq<RichErrorModel>,
    r: Option<F::Parsed>,
    after: Seq<RichErrorModel>,
)
    requires
        forall|f: UnstableFeature| enabled.contains(f) ==> more.contains(f),
        parse_outcome::<F>(module, source, more, before, r, after),
        forall|parsed: Option<F::Parsed>, h: Seq<RichErrorModel>| #[trigger]
            parse_outcome::<F>(module, source, enabled, before, parsed, h) ==> parsed is Some,
    ensures
        r is Some,
        parse_outcome::<F>(module, source, enabled, before, r, after),
{
    let c = choose|c: Result<(), (Error, Span)>| #[trigger]
        checked(source.content, c) && parse_after_check::<F>(
            module,
            source,
            more,
            before,
            c,
            r,
            after,
        );
    if c is Err {
        assert(parse_after_check::<F>(module, source, enabled, before, c, r, after));
        assert(parse_outcome::<F>(module, source, enabled, before, r, after));
    } else {
        let (text, out) = choose|text: &str, out: (Option<F::Parsed>, Vec<RichError>)| #[trigger]
            parse_step::<F>(module, source, more, before, text, out, r, after);
        let h = errors_after_parsing(out.0, error_models(out.1@), source, enabled, before);
        let parsed = if h.len() == before.len() {
            out.0
        } else {
            None
        };
        assert(parse_step::<F>(module, source, enabled, before, text, out, parsed, h));
        assert(parse_after_check::<F>(module, source, enabled, before, c, parsed, h));
        assert(parse_outcome::<F>(module, source, enabled, before, parsed, h));
        let program = out.0->0;
        lemma_more_features(enabled, more, program.requirements(), source);
        assert(disabled_uses(enabled, program.requirements(), source) =~= disabled_uses(
            more,
            program.requirements(),
            source,
        ));
    }
}

/// A program that uses a feature which is not enabled is refused, and one whose features are
/// all enabled and which parsed without an error is handed on.
pub proof fn law_disabled_feature_is_refused<P: RequireFeature>(
    program: P,
    source: SourceModel,
    enabled: Seq<UnstableFeature>,
    before: Seq<RichErrorModel>,
)
    ensures
        errors_after_parsing(Some(program), Seq::empty(), source, enabled, before).len()
            == before.len() <==> forall|i: int|
            0 <= i < program.requirements().len() ==> enabled.contains(
                (#[trigger] program.requirements()[i]).feature,
            ),
{
    law_reported_iff_disabled(enabled, program.requirements(), source);
    assert(all_in_source(Seq::empty(), source) =~= Seq::<RichErrorModel>::empty());
}

} // verus!
