//! Which stages run on what, and what becomes of their outcomes: from a text to a parsed
//! program, to a template, to a compiled program and to a satisfied one.
use std::sync::Arc;

use vstd::prelude::*;

use crate::assignment::{answers, assigned, has_value};
use crate::blank::blanked;
use crate::error::{
    all_in_source, error_models, message, report, Error, ErrorCollector, RichError,
    RichErrorModel, Span,
};
use crate::frontend::{Analysis, Frontend};
use crate::layout::{layout, LayoutNode};
use crate::loading::{
    dependency_outcome, files_checked, flattened, graph_outcome, graph_taken,
    law_files_pass_iff_no_error, linearized_taken, loaded_outcome, source_models, LoadFailure,
};
use crate::parsing::{
    directive_passes, directive_refused, law_directive_passes_or_is_refused, parse_after_check,
    parse_outcome, parse_step,
};
use crate::program::{
    compile_outcome, compile_text_outcome, fill_outcome, flatten_outcome, instantiate_outcome,
    multi_file_outcome, prune_outcome, satisfy_outcome, satisfy_text_outcome,
    single_file_outcome, template_outcome, template_text_outcome, CompiledProgram,
    SatisfiedProgram, TemplateProgram,
};
use crate::render::rendered;
use crate::source::{SourceFile, SourceModel};
use crate::unstable::{
    disabled_uses, law_reported_iff_disabled, FeatureRequirement, RequireFeature, UnstableFeature,
    UnstableFeatures,
};
use crate::version::checked;

verus! {

// ---------------------------------------------------------------------------------------
// Parsing
// ---------------------------------------------------------------------------------------

/// Whether every feature that a program uses is enabled.
pub open spec fn all_enabled<P: RequireFeature>(
    enabled: Seq<UnstableFeature>,
    program: P,
) -> bool {
    forall|i: int|
        0 <= i < program.requirements().len() ==> enabled.contains(
            (#[trigger] program.requirements()[i]).feature,
        )
}

/// Each report on a use of a feature stands in the file.
proof fn lemma_reports_stand_in_the_file(
    enabled: Seq<UnstableFeature>,
    uses: Seq<FeatureRequirement>,
    source: SourceModel,
)
    ensures
        forall|i: int|
            0 <= i < disabled_uses(enabled, uses, source).len() ==> (#[trigger] disabled_uses(
                enabled,
                uses,
                source,
            )[i]).source == Some(source),
    decreases uses.len(),
{
    if uses.len() > 0 {
        lemma_reports_stand_in_the_file(enabled, uses.drop_last(), source);
    }
}

/// A program that is handed on is the parser's: the directive of its file passes, the parser
/// is given the text of the file with the directive blanked out, and gives the program without
/// an error; all its features are enabled; and no error is added.
pub proof fn law_parsed_program_is_the_parsers<F: Frontend>(
    module: usize,
    source: SourceModel,
    enabled: Seq<UnstableFeature>,
    before: Seq<RichErrorModel>,
    program: F::Parsed,
    after: Seq<RichErrorModel>,
)
    requires
        parse_outcome::<F>(module, source, enabled, before, Some(program), after),
    ensures
        after == before,
        directive_passes(source.content),
        all_enabled(enabled, program),
        exists|text: &str, out: (Option<F::Parsed>, Vec<RichError>)| #[trigger]
            call_ensures(F::parse_text, (module, text), out) && text@ == blanked(source.content)
                && out.0 == Some(program) && out.1@.len() == 0,
{
    let r = Some(program);
    let c = choose|c: Result<(), (Error, Span)>| #[trigger]
        checked(source.content, c) && parse_after_check::<F>(
            module,
            source,
            enabled,
            before,
            c,
            r,
            after,
        );
    law_directive_passes_or_is_refused(source.content, c);
    let (text, out) = choose|text: &str, out: (Option<F::Parsed>, Vec<RichError>)| #[trigger]
        parse_step::<F>(module, source, enabled, before, text, out, r, after);
    let own = all_in_source(error_models(out.1@), source);
    let uses = disabled_uses(enabled, program.requirements(), source);
    assert(after == before + own + uses);
    assert(own.len() == 0 && uses.len() == 0);
    assert(after =~= before);
    law_reported_iff_disabled(enabled, program.requirements(), source);
    assert(call_ensures(F::parse_text, (module, text), out));
}

/// Parsing takes no error away, and what it adds stands in the file. Where the directive of
/// the file passes, the parser's errors come first, one for one, and then the reports on the
/// uses of features that are not enabled, whether or not the parser had errors; and where no
/// program is handed on, there was no program, or the parser had an error, or the program uses a
/// feature that is not enabled.
pub proof fn law_parsing_adds_errors_of_the_file<F: Frontend>(
    module: usize,
    source: SourceModel,
    enabled: Seq<UnstableFeature>,
    before: Seq<RichErrorModel>,
    r: Option<F::Parsed>,
    after: Seq<RichErrorModel>,
)
    requires
        parse_outcome::<F>(module, source, enabled, before, r, after),
    ensures
        before.len() <= after.len(),
        after.take(before.len() as int) == before,
        forall|i: int|
            before.len() <= i < after.len() ==> (#[trigger] after[i]).source == Some(source),
        directive_passes(source.content) ==> exists|
            text: &str,
            out: (Option<F::Parsed>, Vec<RichError>),
        |
            #![trigger call_ensures(F::parse_text, (module, text), out)]
            {
                &&& call_ensures(F::parse_text, (module, text), out)
                &&& text@ == blanked(source.content)
                &&& before.len() + out.1@.len() <= after.len()
                &&& forall|i: int|
                    0 <= i < out.1@.len() ==> after[before.len() + i].error == (
                    #[trigger] out.1@[i])@.error && after[before.len() + i].span == out.1@[i]@.span
                &&& r is None ==> (out.0 matches Some(program) ==> out.1@.len() > 0
                    || !all_enabled(enabled, program))
                &&& out.0 is None ==> after.len() == before.len() + out.1@.len()
                &&& out.0 matches Some(program) ==> after.skip(
                    (before.len() + out.1@.len()) as int,
                ) == disabled_uses(enabled, program.requirements(), source)
            },
{
    let c = choose|c: Result<(), (Error, Span)>| #[trigger]
        checked(source.content, c) && parse_after_check::<F>(
            module,
            source,
            enabled,
            before,
            c,
            r,
            after,
        );
    law_directive_passes_or_is_refused(source.content, c);
    match c {
        Err((error, span)) => {
            assert(after.take(before.len() as int) =~= before);
        },
        Ok(_) => {
            let (text, out) = choose|text: &str, out: (Option<F::Parsed>, Vec<RichError>)| #[trigger]
                parse_step::<F>(module, source, enabled, before, text, out, r, after);
            let models = error_models(out.1@);
            let own = all_in_source(models, source);
            let uses = match out.0 {
                Some(program) => disabled_uses(enabled, program.requirements(), source),
                None => Seq::empty(),
            };
            assert(after =~= before + own + uses);
            assert(after.take(before.len() as int) =~= before);
            if let Some(program) = out.0 {
                lemma_reports_stand_in_the_file(enabled, program.requirements(), source);
                law_reported_iff_disabled(enabled, program.requirements(), source);
            }
            assert forall|i: int| before.len() <= i < after.len() implies (
            #[trigger] after[i]).source == Some(source) by {
                if i < before.len() + own.len() {
                    assert(after[i] == own[i - before.len()]);
                } else {
                    assert(after[i] == uses[i - before.len() - own.len()]);
                }
            }
            assert forall|i: int| 0 <= i < out.1@.len() implies after[before.len() + i].error == (
            #[trigger] out.1@[i])@.error && after[before.len() + i].span == out.1@[i]@.span by {
                assert(after[before.len() + i] == own[i]);
                assert(own[i] == models[i].in_source(source));
                assert(models[i] == out.1@[i]@);
            }
            assert(after.skip((before.len() + out.1@.len()) as int) =~= uses);
            assert(call_ensures(F::parse_text, (module, text), out));
        },
    }
}

// ---------------------------------------------------------------------------------------
// Templates
// ---------------------------------------------------------------------------------------

/// A template of a single text is what the stages make of it: the parser of the text with its
/// directive blanked out, as the first module; and the analysis of the parsed program with the
/// jets that were given. The template keeps the text, the jets, the program and the analysis.
pub proof fn law_template_is_what_the_stages_make<F: Frontend>(
    content: Seq<char>,
    enabled: Seq<UnstableFeature>,
    hinter: F::JetHinter,
    t: TemplateProgram<F>,
)
    requires
        single_file_outcome::<F>(content, enabled, hinter, Ok(t)),
    ensures
        t.text() == content,
        t.hinter() == hinter,
        directive_passes(content),
        all_enabled(enabled, t.program()),
        exists|text: &str, out: (Option<F::Parsed>, Vec<RichError>)| #[trigger]
            call_ensures(F::parse_text, (0usize, text), out) && text@ == blanked(content) && out.0
                == Some(t.program()) && out.1@.len() == 0,
        call_ensures(F::SourceMap::default, (), t.map()),
        call_ensures(F::analyze, (&t.program(), &hinter), Ok(t.analysis())),
{
    let source = SourceModel { name: None, content };
    let none = Seq::<RichErrorModel>::empty();
    let r = Ok::<TemplateProgram<F>, ErrorCollector>(t);
    let (parsed, h) = choose|parsed: Option<F::Parsed>, h: Seq<RichErrorModel>| #[trigger]
        parse_outcome::<F>(0, source, enabled, none, parsed, h) && match parsed {
            None => r matches Err(c) && c@ == h,
            Some(program) => exists|map: F::SourceMap| #[trigger]
                call_ensures(F::SourceMap::default, (), map) && template_outcome::<F>(
                    source,
                    true,
                    program,
                    hinter,
                    map,
                    h,
                    r,
                ),
        };
    let program = parsed->0;
    law_parsed_program_is_the_parsers::<F>(0, source, enabled, none, program, h);
}

/// The errors for a single text all stand in that text, whatever file they named; and where the
/// text was parsed, there is one error, that of the analysis.
pub proof fn law_errors_of_a_text_stand_in_it<F: Frontend>(
    content: Seq<char>,
    enabled: Seq<UnstableFeature>,
    hinter: F::JetHinter,
    c: ErrorCollector,
)
    requires
        single_file_outcome::<F>(content, enabled, hinter, Err(c)),
    ensures
        forall|i: int|
            0 <= i < c@.len() ==> (#[trigger] c@[i]).source == Some(
                SourceModel { name: None, content },
            ),
        directive_refused(content) ==> c@.len() == 1 && checked(
            content,
            Err((c@[0].error, c@[0].span)),
        ),
        directive_passes(content) ==> exists|
            text: &str,
            out: (Option<F::Parsed>, Vec<RichError>),
        |
            #![trigger call_ensures(F::parse_text, (0usize, text), out)]
            {
                &&& call_ensures(F::parse_text, (0usize, text), out)
                &&& text@ == blanked(content)
                &&& out.1@.len() > 0 ==> out.1@.len() <= c@.len() && forall|i: int|
                    0 <= i < out.1@.len() ==> c@[i].error == (#[trigger] out.1@[i])@.error
                        && c@[i].span == out.1@[i]@.span
                &&& (out.0 matches Some(program) && out.1@.len() == 0 && all_enabled(
                    enabled,
                    program,
                )) ==> c@.len() == 1 && analysis_fails::<F>(out.0->0, hinter, c@[0])
            },
{
    let source = SourceModel { name: None, content };
    let none = Seq::<RichErrorModel>::empty();
    let r = Err::<TemplateProgram<F>, ErrorCollector>(c);
    let (parsed, h) = choose|parsed: Option<F::Parsed>, h: Seq<RichErrorModel>| #[trigger]
        parse_outcome::<F>(0, source, enabled, none, parsed, h) && match parsed {
            None => r matches Err(c) && c@ == h,
            Some(program) => exists|map: F::SourceMap| #[trigger]
                call_ensures(F::SourceMap::default, (), map) && template_outcome::<F>(
                    source,
                    true,
                    program,
                    hinter,
                    map,
                    h,
                    r,
                ),
        };
    let checked_as = choose|k: Result<(), (Error, Span)>| #[trigger]
        checked(content, k) && parse_after_check::<F>(0, source, enabled, none, k, parsed, h);
    law_directive_passes_or_is_refused(content, checked_as);
    match parsed {
        None => {
            law_parsing_adds_errors_of_the_file::<F>(0, source, enabled, none, parsed, h);
            if directive_passes(content) {
                let (text, out) = choose|text: &str, out: (Option<F::Parsed>, Vec<RichError>)|
                    #![trigger call_ensures(F::parse_text, (0usize, text), out)]
                    {
                        &&& call_ensures(F::parse_text, (0usize, text), out)
                        &&& text@ == blanked(content)
                        &&& none.len() + out.1@.len() <= h.len()
                        &&& forall|i: int|
                            0 <= i < out.1@.len() ==> h[none.len() + i].error == (
                            #[trigger] out.1@[i])@.error && h[none.len() + i].span
                                == out.1@[i]@.span
                        &&& parsed is None ==> (out.0 matches Some(program) ==> out.1@.len() > 0
                            || !all_enabled(enabled, program))
                    };
                assert(call_ensures(F::parse_text, (0usize, text), out));
                assert forall|i: int| 0 <= i < out.1@.len() implies c@[i].error == (
                #[trigger] out.1@[i])@.error && c@[i].span == out.1@[i]@.span by {
                    assert(h[none.len() + i] == c@[i]);
                }
            }
        },
        Some(program) => {
            law_parsed_program_is_the_parsers::<F>(0, source, enabled, none, program, h);
            let a = choose|
                a: Result<Analysis<F::Analyzed, F::Parameters, F::WitnessTypes>, RichError>,
            | #[trigger]
                call_ensures(F::analyze, (&program, &hinter), a) && match a {
                    Ok(analysis) => false,
                    Err(e) => c@ == h.push(e@.in_source(source)),
                };
            let (text, out) = choose|text: &str, out: (Option<F::Parsed>, Vec<RichError>)| #[trigger]
                call_ensures(F::parse_text, (0usize, text), out) && text@ == blanked(content)
                    && out.0 == Some(program) && out.1@.len() == 0;
            assert(call_ensures(F::parse_text, (0usize, text), out));
            assert(analysis_fails::<F>(program, hinter, c@[0]));
        },
    }
}

/// Whether the analysis of a program can fail with what an error says, at its place.
pub open spec fn analysis_fails<F: Frontend>(
    program: F::Parsed,
    hinter: F::JetHinter,
    e: RichErrorModel,
) -> bool {
    exists|failure: RichError| #[trigger]
        call_ensures(F::analyze, (&program, &hinter), Err(failure)) && e.error == failure@.error
            && e.span == failure@.span
}

/// Whether a program can be put together from a file and what it depends on: the entry file is
/// parsed as the first module, the driver loads what it imports with the features that are
/// enabled, every loaded file passes the check of its directive, and the files are put into one
/// program.
pub open spec fn linked<F: Frontend>(
    source: &SourceFile,
    dependency_map: &F::DependencyMap,
    features: &UnstableFeatures,
    program: Option<F::Parsed>,
    map: F::SourceMap,
) -> bool {
    exists|
        text: &str,
        out: (Option<F::Parsed>, Vec<RichError>),
        graph: F::Graph,
        g: (Result<Option<F::Graph>, String>, Vec<RichError>),
        files: Vec<SourceFile>,
        l: (Result<Option<F::Parsed>, String>, Vec<RichError>),
    |
        {
            &&& #[trigger] call_ensures(F::parse_text, (0usize, text), out)
            &&& text@ == blanked(source@.content)
            &&& out.1@.len() == 0
            &&& out.0 matches Some(entry) && all_enabled(features@, entry) && call_ensures(
                F::build_graph,
                (source, dependency_map, &entry, features),
                g,
            )
            &&& #[trigger] graph_given(g.0, graph)
            &&& #[trigger] call_ensures(F::graph_files, (&graph,), files)
            &&& forall|i: int|
                0 <= i < files@.len() ==> directive_passes((#[trigger] files@[i])@.content)
            &&& #[trigger] call_ensures(F::linearize_and_build, (&graph,), l)
            &&& l.0 == Ok::<Option<F::Parsed>, String>(program)
            &&& call_ensures(F::graph_source_map, (&graph,), map)
        }
}

/// Whether the driver gives a graph.
pub open spec fn graph_given<G>(built: Result<Option<G>, String>, graph: G) -> bool {
    built == Ok::<Option<G>, String>(Some(graph))
}

/// A program that is loaded with its dependencies is one that can be put together from them.
proof fn lemma_loaded_is_linked<F: Frontend>(
    source: &SourceFile,
    dependency_map: &F::DependencyMap,
    features: &UnstableFeatures,
    program: Option<F::Parsed>,
    map: F::SourceMap,
    h: Seq<RichErrorModel>,
)
    requires
        dependency_outcome::<F>(
            source,
            dependency_map,
            features,
            Seq::empty(),
            Ok((program, map)),
            h,
        ),
    ensures
        directive_passes(source@.content),
        linked::<F>(source, dependency_map, features, program, map),
{
    let none = Seq::<RichErrorModel>::empty();
    let d = Ok::<(Option<F::Parsed>, F::SourceMap), LoadFailure>((program, map));
    let (parsed, k) = choose|parsed: Option<F::Parsed>, k: Seq<RichErrorModel>| #[trigger]
        parse_outcome::<F>(0, source@, features@, none, parsed, k) && match parsed {
            None => h == k && (d matches Err(LoadFailure::Reported)),
            Some(entry) => graph_outcome::<F>(source, dependency_map, &entry, features, k, d, h),
        };
    let entry = parsed->0;
    law_parsed_program_is_the_parsers::<F>(0, source@, features@, none, entry, k);
    let (text, out) = choose|text: &str, out: (Option<F::Parsed>, Vec<RichError>)| #[trigger]
        call_ensures(F::parse_text, (0usize, text), out) && text@ == blanked(source@.content)
            && out.0 == Some(entry) && out.1@.len() == 0;
    let (g, taken, h1) = choose|
        g: (Result<Option<F::Graph>, String>, Vec<RichError>),
        taken: Option<F::Graph>,
        h1: Seq<RichErrorModel>,
    |
        #![trigger graph_taken(g.0, error_models(g.1@), k, taken, h1)]
        call_ensures(F::build_graph, (source, dependency_map, &entry, features), g)
            && graph_taken(g.0, error_models(g.1@), k, taken, h1) && match taken {
            None => h == h1 && (d matches Err(LoadFailure::Reported)),
            Some(graph) => loaded_outcome::<F>(&graph, h1, d, h),
        };
    let graph = taken->0;
    let (files, h2) = choose|files: Vec<SourceFile>, h2: Seq<RichErrorModel>|
        #![trigger files_checked(source_models(files@), h1, h2)]
        call_ensures(F::graph_files, (&graph,), files) && files_checked(
            source_models(files@),
            h1,
            h2,
        ) && if h2.len() == h1.len() {
            flattened::<F>(&graph, h2, d, h)
        } else {
            h == h2 && (d matches Err(LoadFailure::Reported))
        };
    law_files_pass_iff_no_error(source_models(files@), h1, h2);
    assert forall|i: int| 0 <= i < files@.len() implies directive_passes(
        (#[trigger] files@[i])@.content,
    ) by {
        assert(source_models(files@)[i] == files@[i]@);
    }
    let (l, put) = choose|
        l: (Result<Option<F::Parsed>, String>, Vec<RichError>),
        put: Result<Option<F::Parsed>, String>,
    |
        #![trigger linearized_taken(l.0, error_models(l.1@), h2, put, h)]
        call_ensures(F::linearize_and_build, (&graph,), l) && linearized_taken(
            l.0,
            error_models(l.1@),
            h2,
            put,
            h,
        ) && match put {
            Ok(p) => d matches Ok((q, m)) && q == p && call_ensures(
                F::graph_source_map,
                (&graph,),
                m,
            ),
            Err(text) => d matches Err(LoadFailure::Message(e)) && e@ == text@,
        };
    assert(graph_given(g.0, graph));
    assert(call_ensures(F::parse_text, (0usize, text), out));
    assert(call_ensures(F::linearize_and_build, (&graph,), l));
    assert(l.0 == Ok::<Option<F::Parsed>, String>(program));
}

/// A template of a program with dependencies is what the stages make of them: the program is
/// the one that the files are put into, and the analysis is that of it, with the jets that were
/// given. The template keeps the text of the entry file.
pub proof fn law_template_with_dependencies_is_what_the_stages_make<F: Frontend>(
    source: &SourceFile,
    dependency_map: &F::DependencyMap,
    features: &UnstableFeatures,
    hinter: F::JetHinter,
    t: TemplateProgram<F>,
)
    requires
        multi_file_outcome::<F>(source, dependency_map, features, hinter, Ok(t)),
    ensures
        t.text() == source@.content,
        t.hinter() == hinter,
        linked::<F>(source, dependency_map, features, Some(t.program()), t.map()),
        call_ensures(F::analyze, (&t.program(), &hinter), Ok(t.analysis())),
{
    let r = Ok::<TemplateProgram<F>, ErrorCollector>(t);
    let (d, h) = choose|
        d: Result<(Option<F::Parsed>, F::SourceMap), LoadFailure>,
        h: Seq<RichErrorModel>,
    | #[trigger]
        dependency_outcome::<F>(source, dependency_map, features, Seq::empty(), d, h) && match d {
            Ok((Some(program), map)) => template_outcome::<F>(
                source@,
                false,
                program,
                hinter,
                map,
                h,
                r,
            ),
            _ => r matches Err(c) && c@ == h,
        };
    lemma_loaded_is_linked::<F>(
        source,
        dependency_map,
        features,
        Some(t.program()),
        t.map(),
        h,
    );
}

/// A program with dependencies is flattened to the text of the one program that its files are
/// put into.
pub proof fn law_flattened_is_the_linked_program<F: Frontend>(
    source: &SourceFile,
    dependency_map: &F::DependencyMap,
    features: &UnstableFeatures,
    text: String,
)
    requires
        flatten_outcome::<F>(source, dependency_map, features, Ok(text)),
    ensures
        exists|program: F::Parsed, map: F::SourceMap|
            #![trigger linked::<F>(source, dependency_map, features, Some(program), map)]
            linked::<F>(source, dependency_map, features, Some(program), map) && call_ensures(
                F::program_text,
                (&program,),
                text,
            ),
{
    let r = Ok::<String, String>(text);
    let (d, h) = choose|
        d: Result<(Option<F::Parsed>, F::SourceMap), LoadFailure>,
        h: Seq<RichErrorModel>,
    | #[trigger]
        dependency_outcome::<F>(source, dependency_map, features, Seq::empty(), d, h) && match d {
            Ok((Some(program), map)) => r matches Ok(text) && call_ensures(
                F::program_text,
                (&program,),
                text,
            ),
            Ok((None, map)) => r matches Err(text) && text@ == report(h),
            Err(LoadFailure::Reported) => r matches Err(text) && text@ == report(h),
            Err(LoadFailure::Message(e)) => r matches Err(text) && text@ == e@,
        };
    let program = (d->Ok_0).0->0;
    let map = (d->Ok_0).1;
    lemma_loaded_is_linked::<F>(source, dependency_map, features, Some(program), map, h);
    assert(linked::<F>(source, dependency_map, features, Some(program), map));
}

// ---------------------------------------------------------------------------------------
// Compiled and satisfied programs
// ---------------------------------------------------------------------------------------

/// A compiled program is what the stages make of its template: the arguments fit the
/// parameters of the template; the target code is that of the analyzed program with those
/// arguments, with or without debug symbols as was asked, and with the jets of the template;
/// and the debug symbols are those of the analyzed program and the text.
pub proof fn law_compiled_program_is_what_the_stages_make<F: Frontend>(
    template: TemplateProgram<F>,
    arguments: F::Arguments,
    include_debug_symbols: bool,
    program: CompiledProgram<F>,
)
    requires
        instantiate_outcome::<F>(template, arguments, include_debug_symbols, Ok(program)),
    ensures
        call_ensures(
            F::arguments_consistent,
            (&arguments, &template.declared_parameters()),
            Ok(()),
        ),
        call_ensures(
            F::compile,
            (&template.ast(), arguments, include_debug_symbols, &template.hinter()),
            Ok(program.commitment()),
        ),
        program.witnesses() == template.declared_witnesses(),
        program.parameters() == template.declared_parameters(),
        exists|file: &str| #[trigger]
            call_ensures(F::debug_symbols, (&template.ast(), file), program.symbols()) && file@
                == template.text(),
{
    let consistent = choose|consistent: Result<(), String>| #[trigger]
        call_ensures(
            F::arguments_consistent,
            (&arguments, &template.declared_parameters()),
            consistent,
        ) && match consistent {
            Err(e) => false,
            Ok(_) => compile_outcome::<F>(
                template,
                arguments,
                include_debug_symbols,
                Ok(program),
            ),
        };
    assert(consistent->Ok_0 == ());
    assert(consistent == Ok::<(), String>(()));
}

/// What is answered where a template is not compiled: either the message for arguments that do
/// not fit, or the error of the translation, shown in the text of the template.
pub proof fn law_failed_compilation_is_told<F: Frontend>(
    template: TemplateProgram<F>,
    arguments: F::Arguments,
    include_debug_symbols: bool,
    text: String,
)
    requires
        instantiate_outcome::<F>(template, arguments, include_debug_symbols, Err(text)),
    ensures
        (exists|e: String| #[trigger]
            call_ensures(
                F::arguments_consistent,
                (&arguments, &template.declared_parameters()),
                Err(e),
            ) && text@ == e@) || (exists|e: RichError| #[trigger]
            call_ensures(
                F::compile,
                (&template.ast(), arguments, include_debug_symbols, &template.hinter()),
                Err(e),
            ) && text@ == rendered(
                message(e@.error),
                SourceModel { name: None, content: template.text() },
                e@.span,
            )),
{
    let r = Err::<CompiledProgram<F>, String>(text);
    let consistent = choose|consistent: Result<(), String>| #[trigger]
        call_ensures(
            F::arguments_consistent,
            (&arguments, &template.declared_parameters()),
            consistent,
        ) && match consistent {
            Err(e) => r matches Err(text) && text@ == e@,
            Ok(_) => compile_outcome::<F>(template, arguments, include_debug_symbols, r),
        };
    match consistent {
        Err(e) => {
            assert(call_ensures(
                F::arguments_consistent,
                (&arguments, &template.declared_parameters()),
                Err(e),
            ));
        },
        Ok(_) => {
            let c = choose|c: Result<F::Commit, RichError>| #[trigger]
                call_ensures(
                    F::compile,
                    (&template.ast(), arguments, include_debug_symbols, &template.hinter()),
                    c,
                ) && match c {
                    Err(e) => text@ == e@.in_source(
                        SourceModel { name: None, content: template.text() },
                    ).text(),
                    Ok(commit) => false,
                };
            if let Err(e) = c {
                assert(call_ensures(
                    F::compile,
                    (&template.ast(), arguments, include_debug_symbols, &template.hinter()),
                    Err(e),
                ));
            }
        },
    }
}

/// Whether a compiled program can be filled: each of its witness nodes, in post order, with the
/// value of its name.
pub open spec fn fills<F: Frontend>(
    program: CompiledProgram<F>,
    witness_values: F::WitnessValues,
    redeem: F::Redeem,
) -> bool {
    exists|nodes: Vec<LayoutNode<F::Final>>, values: Vec<Arc<F::Value>>|
        {
            &&& #[trigger] call_ensures(F::post_order, (&program.commitment(),), nodes)
            &&& values@.len() == layout(nodes@).len()
            &&& forall|k: int|
                0 <= k < layout(nodes@).len() ==> answers::<F>(
                    witness_values,
                    (#[trigger] layout(nodes@)[k]).0@,
                    Ok(*values[k]),
                )
            &&& #[trigger] call_ensures(
                F::populate_witnesses,
                (&program.commitment(), values),
                Ok(redeem),
            )
        }
}

/// A satisfied program is what the stages make of the compiled one: the witness values fit its
/// witnesses; the program is filled with them; it is pruned exactly where an environment is
/// given, and in that environment; and the debug symbols stay those of the compiled program.
pub proof fn law_satisfied_program_is_what_the_stages_make<F: Frontend>(
    program: CompiledProgram<F>,
    witness_values: F::WitnessValues,
    env: Option<&F::Env>,
    s: SatisfiedProgram<F>,
)
    requires
        satisfy_outcome::<F>(program, witness_values, env, Ok(s)),
    ensures
        call_ensures(F::witnesses_consistent, (&witness_values, &program.witnesses()), Ok(())),
        s.symbols() == program.symbols(),
        env is None ==> fills::<F>(program, witness_values, s.redemption()),
        env matches Some(env) ==> exists|redeem: F::Redeem|
            #![trigger fills::<F>(program, witness_values, redeem)]
            fills::<F>(program, witness_values, redeem) && call_ensures(
                F::prune,
                (redeem, env),
                Ok(s.redemption()),
            ),
{
    let r = Ok::<SatisfiedProgram<F>, String>(s);
    let consistent = choose|consistent: Result<(), String>| #[trigger]
        call_ensures(
            F::witnesses_consistent,
            (&witness_values, &program.witnesses()),
            consistent,
        ) && match consistent {
            Err(e) => false,
            Ok(_) => fill_outcome::<F>(program, witness_values, env, r),
        };
    assert(consistent->Ok_0 == ());
    assert(consistent == Ok::<(), String>(()));
    let (nodes, given) = choose|
        nodes: Vec<LayoutNode<F::Final>>,
        given: Result<Vec<Arc<F::Value>>, String>,
    |
        #![trigger assigned::<F>(witness_values, layout(nodes@), given)]
        call_ensures(F::post_order, (&program.commitment(),), nodes) && assigned::<F>(
            witness_values,
            layout(nodes@),
            given,
        ) && match given {
            Err(e) => false,
            Ok(values) => exists|p: Result<F::Redeem, String>| #[trigger]
                call_ensures(F::populate_witnesses, (&program.commitment(), values), p) && match p {
                    Err(e) => r matches Err(text) && text@ == e@,
                    Ok(redeem) => prune_outcome::<F>(program, redeem, env, r),
                },
        };
    let values = given->Ok_0;
    let p = choose|p: Result<F::Redeem, String>| #[trigger]
        call_ensures(F::populate_witnesses, (&program.commitment(), values), p) && match p {
            Err(e) => r matches Err(text) && text@ == e@,
            Ok(redeem) => prune_outcome::<F>(program, redeem, env, r),
        };
    let redeem = p->Ok_0;
    assert(call_ensures(F::populate_witnesses, (&program.commitment(), values), Ok(redeem)));
    assert(fills::<F>(program, witness_values, redeem));
}

/// What is answered where a compiled program is not satisfied: the message for values that do
/// not fit, for the first name of the layout without a value, for a program that cannot be
/// filled, or for one that cannot be pruned, and the last only where an environment is given.
pub proof fn law_failed_satisfaction_is_told<F: Frontend>(
    program: CompiledProgram<F>,
    witness_values: F::WitnessValues,
    env: Option<&F::Env>,
    text: String,
)
    requires
        satisfy_outcome::<F>(program, witness_values, env, Err(text)),
    ensures
        ({
            ||| exists|e: String| #[trigger]
                call_ensures(
                    F::witnesses_consistent,
                    (&witness_values, &program.witnesses()),
                    Err(e),
                ) && text@ == e@
            ||| exists|nodes: Vec<LayoutNode<F::Final>>, k: int, e: String|
                {
                    &&& #[trigger] call_ensures(F::post_order, (&program.commitment(),), nodes)
                    &&& 0 <= k < layout(nodes@).len()
                    &&& #[trigger] answers::<F>(witness_values, layout(nodes@)[k].0@, Err(e))
                    &&& text@ == e@
                    &&& forall|j: int|
                        0 <= j < k ==> has_value::<F>(
                            witness_values,
                            (#[trigger] layout(nodes@)[j]).0@,
                        )
                }
            ||| exists|values: Vec<Arc<F::Value>>, e: String| #[trigger]
                call_ensures(F::populate_witnesses, (&program.commitment(), values), Err(e))
                    && text@ == e@
            ||| env matches Some(env) && exists|redeem: F::Redeem, e: String| #[trigger]
                call_ensures(F::prune, (redeem, env), Err(e)) && text@ == e@
        }),
{
    let r = Err::<SatisfiedProgram<F>, String>(text);
    let consistent = choose|consistent: Result<(), String>| #[trigger]
        call_ensures(
            F::witnesses_consistent,
            (&witness_values, &program.witnesses()),
            consistent,
        ) && match consistent {
            Err(e) => text@ == e@,
            Ok(_) => fill_outcome::<F>(program, witness_values, env, r),
        };
    match consistent {
        Err(e) => {
            assert(call_ensures(
                F::witnesses_consistent,
                (&witness_values, &program.witnesses()),
                Err(e),
            ));
        },
        Ok(_) => {
            let (nodes, given) = choose|
                nodes: Vec<LayoutNode<F::Final>>,
                given: Result<Vec<Arc<F::Value>>, String>,
            |
                #![trigger assigned::<F>(witness_values, layout(nodes@), given)]
                call_ensures(F::post_order, (&program.commitment(),), nodes) && assigned::<F>(
                    witness_values,
                    layout(nodes@),
                    given,
                ) && match given {
                    Err(e) => text@ == e@,
                    Ok(values) => exists|p: Result<F::Redeem, String>| #[trigger]
                        call_ensures(F::populate_witnesses, (&program.commitment(), values), p)
                            && match p {
                            Err(e) => r matches Err(text) && text@ == e@,
                            Ok(redeem) => prune_outcome::<F>(program, redeem, env, r),
                        },
                };
            match given {
                Err(e) => {
                    let (k, answer) = choose|k: int, answer: String|
                        0 <= k < layout(nodes@).len() && #[trigger] answers::<F>(
                            witness_values,
                            layout(nodes@)[k].0@,
                            Err(answer),
                        ) && e@ == answer@ && forall|j: int|
                            0 <= j < k ==> has_value::<F>(
                                witness_values,
                                (#[trigger] layout(nodes@)[j]).0@,
                            );
                    assert(answers::<F>(witness_values, layout(nodes@)[k].0@, Err(answer)));
                    assert(call_ensures(F::post_order, (&program.commitment(),), nodes));
                },
                Ok(values) => {
                    let p = choose|p: Result<F::Redeem, String>| #[trigger]
                        call_ensures(F::populate_witnesses, (&program.commitment(), values), p)
                            && match p {
                            Err(e) => r matches Err(text) && text@ == e@,
                            Ok(redeem) => prune_outcome::<F>(program, redeem, env, r),
                        };
                    match p {
                        Err(e) => {
                            assert(call_ensures(
                                F::populate_witnesses,
                                (&program.commitment(), values),
                                Err(e),
                            ));
                        },
                        Ok(redeem) => {
                            let pruning = env->0;
                            let q = choose|q: Result<F::Redeem, String>| #[trigger]
                                call_ensures(F::prune, (redeem, pruning), q) && match q {
                                    Err(e) => text@ == e@,
                                    Ok(pruned) => false,
                                };
                            if let Err(e) = q {
                                assert(call_ensures(F::prune, (redeem, pruning), Err(e)));
                            }
                        },
                    }
                },
            }
        },
    }
}

/// A text is compiled by way of its template: the program is an instance of a template that
/// the text makes with the enabled features and the jets, and where it makes none, all errors of
/// that are shown.
pub proof fn law_text_is_compiled_by_its_template<F: Frontend, Str: Into<Arc<str>>>(
    s: Str,
    enabled: Seq<UnstableFeature>,
    arguments: F::Arguments,
    include_debug_symbols: bool,
    hinter: F::JetHinter,
    r: Result<CompiledProgram<F>, String>,
)
    requires
        compile_text_outcome::<F, Str>(s, enabled, arguments, include_debug_symbols, hinter, r),
    ensures
        exists|file: Arc<str>, t: Result<TemplateProgram<F>, ErrorCollector>|
            {
                &&& #[trigger] call_ensures(Str::into, (s,), file)
                &&& #[trigger] single_file_outcome::<F>((*file)@, enabled, hinter, t)
                &&& t matches Ok(template) ==> instantiate_outcome::<F>(
                    template,
                    arguments,
                    include_debug_symbols,
                    r,
                )
                &&& t matches Err(c) ==> (r matches Err(text) && text@ == report(c@))
            },
{
    let t = choose|t: Result<TemplateProgram<F>, ErrorCollector>| #[trigger]
        template_text_outcome::<F, Str>(s, enabled, hinter, t) && match t {
            Err(c) => r matches Err(text) && text@ == report(c@),
            Ok(template) => instantiate_outcome::<F>(template, arguments, include_debug_symbols, r),
        };
    let file = choose|file: Arc<str>| #[trigger]
        call_ensures(Str::into, (s,), file) && single_file_outcome::<F>(
            (*file)@,
            enabled,
            hinter,
            t,
        );
    assert(call_ensures(Str::into, (s,), file));
    assert(single_file_outcome::<F>((*file)@, enabled, hinter, t));
}

/// A text is satisfied by way of its compiled program, which is not pruned; and where the text
/// is not compiled, that is told.
pub proof fn law_text_is_satisfied_by_its_program<F: Frontend, Str: Into<Arc<str>>>(
    s: Str,
    enabled: Seq<UnstableFeature>,
    arguments: F::Arguments,
    witness_values: F::WitnessValues,
    include_debug_symbols: bool,
    hinter: F::JetHinter,
    r: Result<SatisfiedProgram<F>, String>,
)
    requires
        satisfy_text_outcome::<F, Str>(
            s,
            enabled,
            arguments,
            witness_values,
            include_debug_symbols,
            hinter,
            r,
        ),
    ensures
        exists|c: Result<CompiledProgram<F>, String>|
            #![trigger compile_text_outcome::<F, Str>(s, enabled, arguments, include_debug_symbols, hinter, c)]
            {
                &&& compile_text_outcome::<F, Str>(
                    s,
                    enabled,
                    arguments,
                    include_debug_symbols,
                    hinter,
                    c,
                )
                &&& c matches Err(e) ==> (r matches Err(text) && text@ == e@)
                &&& c matches Ok(program) ==> (r matches Ok(satisfied) ==> satisfied.symbols()
                    == program.symbols() && fills::<F>(
                    program,
                    witness_values,
                    satisfied.redemption(),
                ))
            },
{
    let c = choose|c: Result<CompiledProgram<F>, String>| #[trigger]
        compile_text_outcome::<F, Str>(s, enabled, arguments, include_debug_symbols, hinter, c)
            && match c {
            Err(e) => r matches Err(text) && text@ == e@,
            Ok(program) => satisfy_outcome::<F>(program, witness_values, None, r),
        };
    assert(compile_text_outcome::<F, Str>(
        s,
        enabled,
        arguments,
        include_debug_symbols,
        hinter,
        c,
    ));
    if let Ok(program) = c {
        if let Ok(satisfied) = r {
            law_satisfied_program_is_what_the_stages_make::<F>(
                program,
                witness_values,
                None,
                satisfied,
            );
        }
    }
}

/// Where the program of an entry file and its dependencies fails the analysis, there is one
/// error more, what the analysis says at its place: in the file that it names, or in the entry
/// file where it names none.
pub proof fn law_failed_analysis_is_told<F: Frontend>(
    source: SourceModel,
    program: F::Parsed,
    hinter: F::JetHinter,
    map: F::SourceMap,
    before: Seq<RichErrorModel>,
    c: ErrorCollector,
)
    requires
        template_outcome::<F>(source, false, program, hinter, map, before, Err(c)),
    ensures
        c@.len() == before.len() + 1,
        c@.take(before.len() as int) == before,
        exists|failure: RichError| #[trigger]
            call_ensures(F::analyze, (&program, &hinter), Err(failure)) && c@.last().error
                == failure@.error && c@.last().span == failure@.span && c@.last().source
                == if failure@.source is Some {
                failure@.source
            } else {
                Some(source)
            },
{
    let r = Err::<TemplateProgram<F>, ErrorCollector>(c);
    let a = choose|
        a: Result<Analysis<F::Analyzed, F::Parameters, F::WitnessTypes>, RichError>,
    | #[trigger]
        call_ensures(F::analyze, (&program, &hinter), a) && match a {
            Ok(analysis) => r matches Ok(t) && t.is(analysis, source.content, hinter, map, program),
            Err(e) => r matches Err(c) && c@ == before.push(e@.located(source)),
        };
    if let Err(failure) = a {
        assert(call_ensures(F::analyze, (&program, &hinter), Err(failure)));
    }
    assert(c@.take(before.len() as int) =~= before);
}

/// What is answered where a program with dependencies is not flattened: the message for files
/// that cannot be put into one program, and otherwise all errors of loading them.
pub proof fn law_failed_flattening_is_told<F: Frontend>(
    source: &SourceFile,
    dependency_map: &F::DependencyMap,
    features: &UnstableFeatures,
    text: String,
)
    requires
        flatten_outcome::<F>(source, dependency_map, features, Err(text)),
    ensures
        exists|
            d: Result<(Option<F::Parsed>, F::SourceMap), LoadFailure>,
            h: Seq<RichErrorModel>,
        | #[trigger]
            dependency_outcome::<F>(source, dependency_map, features, Seq::empty(), d, h) && !(
            d matches Ok((Some(_), _))) && text@ == match d {
                Err(LoadFailure::Message(e)) => e@,
                _ => report(h),
            },
{
    let r = Err::<String, String>(text);
    let (d, h) = choose|
        d: Result<(Option<F::Parsed>, F::SourceMap), LoadFailure>,
        h: Seq<RichErrorModel>,
    | #[trigger]
        dependency_outcome::<F>(source, dependency_map, features, Seq::empty(), d, h) && match d {
            Ok((Some(program), map)) => r matches Ok(text) && call_ensures(
                F::program_text,
                (&program,),
                text,
            ),
            Ok((None, map)) => r matches Err(text) && text@ == report(h),
            Err(LoadFailure::Reported) => r matches Err(text) && text@ == report(h),
            Err(LoadFailure::Message(e)) => r matches Err(text) && text@ == e@,
        };
    assert(dependency_outcome::<F>(source, dependency_map, features, Seq::empty(), d, h));
}

/// Whether the driver can load a graph for a file that is parsed to an entry program.
pub open spec fn drives<F: Frontend>(
    source: &SourceFile,
    dependency_map: &F::DependencyMap,
    features: &UnstableFeatures,
    entry: F::Parsed,
    g: (Result<Option<F::Graph>, String>, Vec<RichError>),
) -> bool {
    &&& parse_outcome::<F>(0, source@, features@, Seq::empty(), Some(entry), Seq::empty())
    &&& call_ensures(F::build_graph, (source, dependency_map, &entry, features), g)
}

/// Loading gives up for one of three reasons where its errors tell why: the entry file is not
/// parsed, and the errors are those of parsing it; or the driver gives no graph; or a file that
/// it loads has a directive that is refused.
pub proof fn law_loading_gives_up_for_a_reason<F: Frontend>(
    source: &SourceFile,
    dependency_map: &F::DependencyMap,
    features: &UnstableFeatures,
    after: Seq<RichErrorModel>,
)
    requires
        dependency_outcome::<F>(
            source,
            dependency_map,
            features,
            Seq::empty(),
            Err(LoadFailure::Reported),
            after,
        ),
    ensures
        ({
            ||| parse_outcome::<F>(0, source@, features@, Seq::empty(), None, after)
            ||| exists|
                entry: F::Parsed,
                g: (Result<Option<F::Graph>, String>, Vec<RichError>),
            | #[trigger]
                drives::<F>(source, dependency_map, features, entry, g) && !(g.0 matches Ok(
                    Some(_),
                ))
            ||| exists|
                entry: F::Parsed,
                g: (Result<Option<F::Graph>, String>, Vec<RichError>),
                graph: F::Graph,
                files: Vec<SourceFile>,
                i: int,
            |
                {
                    &&& #[trigger] drives::<F>(source, dependency_map, features, entry, g)
                    &&& #[trigger] graph_given(g.0, graph)
                    &&& #[trigger] call_ensures(F::graph_files, (&graph,), files)
                    &&& 0 <= i < files@.len()
                    &&& !directive_passes((#[trigger] files@[i])@.content)
                }
        }),
{
    let none = Seq::<RichErrorModel>::empty();
    let d = Err::<(Option<F::Parsed>, F::SourceMap), LoadFailure>(LoadFailure::Reported);
    let (parsed, k) = choose|parsed: Option<F::Parsed>, k: Seq<RichErrorModel>| #[trigger]
        parse_outcome::<F>(0, source@, features@, none, parsed, k) && match parsed {
            None => after == k && (d matches Err(LoadFailure::Reported)),
            Some(entry) => graph_outcome::<F>(
                source,
                dependency_map,
                &entry,
                features,
                k,
                d,
                after,
            ),
        };
    if let Some(entry) = parsed {
        law_parsed_program_is_the_parsers::<F>(0, source@, features@, none, entry, k);
        let (g, taken, h1) = choose|
            g: (Result<Option<F::Graph>, String>, Vec<RichError>),
            taken: Option<F::Graph>,
            h1: Seq<RichErrorModel>,
        |
            #![trigger graph_taken(g.0, error_models(g.1@), k, taken, h1)]
            call_ensures(F::build_graph, (source, dependency_map, &entry, features), g)
                && graph_taken(g.0, error_models(g.1@), k, taken, h1) && match taken {
                None => after == h1 && (d matches Err(LoadFailure::Reported)),
                Some(graph) => loaded_outcome::<F>(&graph, h1, d, after),
            };
        assert(drives::<F>(source, dependency_map, features, entry, g));
        if let Some(graph) = taken {
            let (files, h2) = choose|files: Vec<SourceFile>, h2: Seq<RichErrorModel>|
                #![trigger files_checked(source_models(files@), h1, h2)]
                call_ensures(F::graph_files, (&graph,), files) && files_checked(
                    source_models(files@),
                    h1,
                    h2,
                ) && if h2.len() == h1.len() {
                    flattened::<F>(&graph, h2, d, after)
                } else {
                    after == h2 && (d matches Err(LoadFailure::Reported))
                };
            law_files_pass_iff_no_error(source_models(files@), h1, h2);
            let all = source_models(files@);
            let i = choose|i: int|
                0 <= i < all.len() && !directive_passes((#[trigger] all[i]).content);
            assert(all[i] == files@[i]@);
            assert(graph_given(g.0, graph));
            assert(call_ensures(F::graph_files, (&graph,), files));
            assert(!directive_passes(files@[i]@.content));
        }
    }
}

} // verus!
