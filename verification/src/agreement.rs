//! When two runs agree: front ends whose stages answer alike on like arguments, and what that
//! makes of programs.
use std::sync::Arc;

use vstd::prelude::*;

use crate::assignment::{answers, assigned, has_value};
use crate::error::{
    all_in_source, error_models, message, report, Error, ErrorCollector, RichError,
    RichErrorModel, Span,
};
use crate::frontend::{Analysis, Frontend, MAIN_MODULE};
use crate::layout::{layout, law_layout_follows_nodes, witnesses_before, LayoutNode};
use crate::loading::{
    adds_parsing_error, dependency_outcome, files_checked, flattened, graph_outcome, graph_taken,
    linearized_taken, loaded_outcome, source_models, LoadFailure,
};
use crate::parsing::{parse_after_check, parse_outcome, parse_step};
use crate::program::{
    compile_outcome, compile_text_outcome, fill_outcome, instantiate_outcome,
    law_compiled_is_its_parts, law_more_features_keep_compiled, law_more_features_keep_template,
    law_satisfied_is_its_parts, layout_outcome, multi_file_outcome, placed, prune_outcome,
    satisfy_outcome, satisfy_text_outcome, single_file_outcome, template_outcome,
    template_text_outcome, CompiledProgram, SatisfiedProgram, TemplateProgram,
};
use crate::source::{SourceFile, SourceModel};
use crate::unstable::{disabled_uses, RequireFeature, UnstableFeature, UnstableFeatures};
use crate::version::{checked, source_checked};

verus! {

// ---------------------------------------------------------------------------------------
// Results that are alike
// ---------------------------------------------------------------------------------------

/// Whether two errors say the same at the same place.
pub open spec fn alike(a: RichErrorModel, b: RichErrorModel) -> bool {
    message(a.error) == message(b.error) && a.span == b.span && a.source == b.source
}

/// Whether two lists hold errors that are alike, in the same order.
pub open spec fn all_alike(a: Seq<RichErrorModel>, b: Seq<RichErrorModel>) -> bool {
    a.len() == b.len() && forall|i: int| 0 <= i < a.len() ==> alike(#[trigger] a[i], b[i])
}

/// Whether two results are the same: the same value, or the same message.
pub open spec fn same_result<T>(a: Result<T, String>, b: Result<T, String>) -> bool {
    match (a, b) {
        (Ok(x), Ok(y)) => x == y,
        (Err(x), Err(y)) => x@ == y@,
        _ => false,
    }
}

/// Whether two results are the same: the same value, or errors that are alike.
pub open spec fn same_rich_result<T>(a: Result<T, RichError>, b: Result<T, RichError>) -> bool {
    match (a, b) {
        (Ok(x), Ok(y)) => x == y,
        (Err(x), Err(y)) => alike(x@, y@),
        _ => false,
    }
}

/// Whether two templates are made of the same parts.
pub open spec fn same_template<F: Frontend>(a: TemplateProgram<F>, b: TemplateProgram<F>) -> bool {
    a.is(b.analysis(), b.text(), b.hinter(), b.map(), b.program())
}

/// Whether two results are the same: templates made of the same parts, or errors that are
/// alike.
pub open spec fn same_templates<F: Frontend>(
    a: Result<TemplateProgram<F>, ErrorCollector>,
    b: Result<TemplateProgram<F>, ErrorCollector>,
) -> bool {
    match (a, b) {
        (Ok(x), Ok(y)) => same_template::<F>(x, y),
        (Err(x), Err(y)) => all_alike(x@, y@),
        _ => false,
    }
}

/// Whether two nodes are the same, as far as the layout of witnesses goes.
pub open spec fn same_node<T>(a: LayoutNode<T>, b: LayoutNode<T>) -> bool {
    match (a, b) {
        (LayoutNode::Witness { name: n, ty: t }, LayoutNode::Witness { name: m, ty: u }) => n@
            == m@ && t == u,
        (LayoutNode::Other, LayoutNode::Other) => true,
        _ => false,
    }
}

/// Whether two lists hold the same nodes.
pub open spec fn same_nodes<T>(a: Seq<LayoutNode<T>>, b: Seq<LayoutNode<T>>) -> bool {
    a.len() == b.len() && forall|i: int| 0 <= i < a.len() ==> same_node(#[trigger] a[i], b[i])
}

// ---------------------------------------------------------------------------------------
// Stages that answer alike on like arguments
// ---------------------------------------------------------------------------------------

/// Whether the stages that make a template of the text `s` answer alike on like arguments.
pub open spec fn steady_reading<F: Frontend, Str: Into<Arc<str>>>(s: Str) -> bool {
    &&& forall|a: Arc<str>, b: Arc<str>| #[trigger]
        call_ensures(Str::into, (s,), a) && #[trigger] call_ensures(Str::into, (s,), b) ==> (*a)@
            == (*b)@
    &&& steady_parsing::<F>()
    &&& forall|a: F::SourceMap, b: F::SourceMap| #[trigger]
        call_ensures(F::SourceMap::default, (), a) && #[trigger] call_ensures(
            F::SourceMap::default,
            (),
            b,
        ) ==> a == b
    &&& steady_analysis::<F>()
}

/// Whether the parser answers alike on like texts.
pub open spec fn steady_parsing<F: Frontend>() -> bool {
    forall|
        module: usize,
        s: &str,
        t: &str,
        a: (Option<F::Parsed>, Vec<RichError>),
        b: (Option<F::Parsed>, Vec<RichError>),
    | #[trigger]
        call_ensures(F::parse_text, (module, s), a) && #[trigger] call_ensures(
            F::parse_text,
            (module, t),
            b,
        ) && s@ == t@ ==> a.0 == b.0 && all_alike(error_models(a.1@), error_models(b.1@))
}

/// Whether the analysis answers alike on one program.
pub open spec fn steady_analysis<F: Frontend>() -> bool {
    forall|
        program: &F::Parsed,
        hinter: &F::JetHinter,
        a: Result<Analysis<F::Analyzed, F::Parameters, F::WitnessTypes>, RichError>,
        b: Result<Analysis<F::Analyzed, F::Parameters, F::WitnessTypes>, RichError>,
    | #[trigger]
        call_ensures(F::analyze, (program, hinter), a) && #[trigger] call_ensures(
            F::analyze,
            (program, hinter),
            b,
        ) ==> same_rich_result(a, b)
}

/// Whether the stages that instantiate a template answer alike on like arguments.
pub open spec fn steady_translation<F: Frontend>() -> bool {
    &&& forall|
        arguments: &F::Arguments,
        parameters: &F::Parameters,
        a: Result<(), String>,
        b: Result<(), String>,
    | #[trigger]
        call_ensures(F::arguments_consistent, (arguments, parameters), a) && #[trigger] call_ensures(
            F::arguments_consistent,
            (arguments, parameters),
            b,
        ) ==> same_result(a, b)
    &&& forall|
        program: &F::Analyzed,
        arguments: F::Arguments,
        symbols: bool,
        hinter: &F::JetHinter,
        a: Result<F::Commit, RichError>,
        b: Result<F::Commit, RichError>,
    | #[trigger]
        call_ensures(F::compile, (program, arguments, symbols, hinter), a)
            && #[trigger] call_ensures(F::compile, (program, arguments, symbols, hinter), b)
            ==> same_rich_result(a, b)
    &&& forall|
        program: &F::Analyzed,
        s: &str,
        t: &str,
        a: F::DebugSymbols,
        b: F::DebugSymbols,
    | #[trigger]
        call_ensures(F::debug_symbols, (program, s), a) && #[trigger] call_ensures(
            F::debug_symbols,
            (program, t),
            b,
        ) && s@ == t@ ==> a == b
}

/// Whether a compiled program has one list of nodes in post order.
pub open spec fn steady_post_order<F: Frontend>(commit: F::Commit) -> bool {
    forall|a: Vec<LayoutNode<F::Final>>, b: Vec<LayoutNode<F::Final>>| #[trigger]
        call_ensures(F::post_order, (&commit,), a) && #[trigger] call_ensures(
            F::post_order,
            (&commit,),
            b,
        ) ==> same_nodes(a@, b@)
}

/// Whether a witness has one value, or is refused with one message.
pub open spec fn steady_values<F: Frontend>(witness_values: F::WitnessValues) -> bool {
    forall|s: &str, t: &str, a: Result<F::Value, String>, b: Result<F::Value, String>| #[trigger]
        call_ensures(F::witness_value, (&witness_values, s), a) && #[trigger] call_ensures(
            F::witness_value,
            (&witness_values, t),
            b,
        ) && s@ == t@ ==> same_result(a, b)
}

/// Whether putting like values into a compiled program gives like results.
pub open spec fn steady_populating<F: Frontend>(commit: F::Commit) -> bool {
    forall|
        v: Vec<Arc<F::Value>>,
        w: Vec<Arc<F::Value>>,
        a: Result<F::Redeem, String>,
        b: Result<F::Redeem, String>,
    | #[trigger]
        call_ensures(F::populate_witnesses, (&commit, v), a) && #[trigger] call_ensures(
            F::populate_witnesses,
            (&commit, w),
            b,
        ) && v@ == w@ ==> same_result(a, b)
}

/// Whether the stages that satisfy a compiled program answer alike on like arguments.
pub open spec fn steady_filling<F: Frontend>() -> bool {
    &&& forall|
        values: &F::WitnessValues,
        types: &F::WitnessTypes,
        a: Result<(), String>,
        b: Result<(), String>,
    | #[trigger]
        call_ensures(F::witnesses_consistent, (values, types), a) && #[trigger] call_ensures(
            F::witnesses_consistent,
            (values, types),
            b,
        ) ==> same_result(a, b)
    &&& forall|commit: F::Commit| #[trigger] steady_post_order::<F>(commit)
    &&& forall|values: F::WitnessValues| #[trigger] steady_values::<F>(values)
    &&& forall|commit: F::Commit| #[trigger] steady_populating::<F>(commit)
    &&& forall|
        program: F::Redeem,
        env: &F::Env,
        a: Result<F::Redeem, String>,
        b: Result<F::Redeem, String>,
    | #[trigger]
        call_ensures(F::prune, (program, env), a) && #[trigger] call_ensures(
            F::prune,
            (program, env),
            b,
        ) ==> same_result(a, b)
}

// ---------------------------------------------------------------------------------------
// Errors that are alike
// ---------------------------------------------------------------------------------------

/// Errors that are alike are shown alike.
pub proof fn law_alike_errors_are_shown_alike(a: Seq<RichErrorModel>, b: Seq<RichErrorModel>)
    requires
        all_alike(a, b),
    ensures
        report(a) == report(b),
    decreases a.len(),
{
    if a.len() > 0 {
        assert(alike(a[a.len() - 1], b[a.len() - 1]));
        assert forall|i: int| 0 <= i < a.drop_last().len() implies alike(
            #[trigger] a.drop_last()[i],
            b.drop_last()[i],
        ) by {
            assert(alike(a[i], b[i]));
        }
        law_alike_errors_are_shown_alike(a.drop_last(), b.drop_last());
    }
}

proof fn lemma_alike_concat(
    a: Seq<RichErrorModel>,
    b: Seq<RichErrorModel>,
    c: Seq<RichErrorModel>,
    d: Seq<RichErrorModel>,
)
    requires
        all_alike(a, b),
        all_alike(c, d),
    ensures
        all_alike(a + c, b + d),
{
    assert forall|i: int| 0 <= i < (a + c).len() implies alike(
        #[trigger] (a + c)[i],
        (b + d)[i],
    ) by {
        if i < a.len() {
            assert(alike(a[i], b[i]));
        } else {
            assert(alike(c[i - a.len()], d[i - a.len()]));
        }
    }
}

proof fn lemma_alike_in_source(
    a: Seq<RichErrorModel>,
    b: Seq<RichErrorModel>,
    source: SourceModel,
)
    requires
        all_alike(a, b),
    ensures
        all_alike(all_in_source(a, source), all_in_source(b, source)),
{
    let x = all_in_source(a, source);
    let y = all_in_source(b, source);
    assert forall|i: int| 0 <= i < x.len() implies alike(#[trigger] x[i], y[i]) by {
        assert(alike(a[i], b[i]));
    }
}

/// Two checks of the directive of one file agree.
pub proof fn law_checks_agree(
    content: Seq<char>,
    c: Result<(), (Error, Span)>,
    d: Result<(), (Error, Span)>,
)
    requires
        checked(content, c),
        checked(content, d),
    ensures
        match (c, d) {
            (Ok(_), Ok(_)) => true,
            (Err((e, s)), Err((f, t))) => message(e) == message(f) && s == t,
            _ => false,
        },
{
}

// ---------------------------------------------------------------------------------------
// Two runs on one text
// ---------------------------------------------------------------------------------------

/// Two parses of one file agree, where the parser answers alike on like texts.
pub proof fn law_parses_agree<F: Frontend>(
    module: usize,
    source: SourceModel,
    enabled: Seq<UnstableFeature>,
    before: Seq<RichErrorModel>,
    r: Option<F::Parsed>,
    h: Seq<RichErrorModel>,
    q: Option<F::Parsed>,
    k: Seq<RichErrorModel>,
)
    requires
        steady_parsing::<F>(),
        parse_outcome::<F>(module, source, enabled, before, r, h),
        parse_outcome::<F>(module, source, enabled, before, q, k),
    ensures
        r == q,
        all_alike(h, k),
{
    let c = choose|c: Result<(), (Error, Span)>| #[trigger]
        checked(source.content, c) && parse_after_check::<F>(
            module,
            source,
            enabled,
            before,
            c,
            r,
            h,
        );
    let d = choose|d: Result<(), (Error, Span)>| #[trigger]
        checked(source.content, d) && parse_after_check::<F>(
            module,
            source,
            enabled,
            before,
            d,
            q,
            k,
        );
    law_checks_agree(source.content, c, d);
    if c is Ok {
        let (s, a) = choose|s: &str, a: (Option<F::Parsed>, Vec<RichError>)| #[trigger]
            parse_step::<F>(module, source, enabled, before, s, a, r, h);
        let (t, b) = choose|t: &str, b: (Option<F::Parsed>, Vec<RichError>)| #[trigger]
            parse_step::<F>(module, source, enabled, before, t, b, q, k);
        assert(call_ensures(F::parse_text, (module, s), a));
        assert(call_ensures(F::parse_text, (module, t), b));
        lemma_alike_in_source(error_models(a.1@), error_models(b.1@), source);
        lemma_alike_concat(
            before,
            before,
            all_in_source(error_models(a.1@), source),
            all_in_source(error_models(b.1@), source),
        );
        if let Some(program) = a.0 {
            let uses = disabled_uses(enabled, program.requirements(), source);
            lemma_alike_concat(
                before + all_in_source(error_models(a.1@), source),
                before + all_in_source(error_models(b.1@), source),
                uses,
                uses,
            );
        }
    }
}

/// Two templates of one parsed program agree, where the analysis answers alike.
pub proof fn law_template_outcomes_agree<F: Frontend>(
    source: SourceModel,
    single: bool,
    program: F::Parsed,
    hinter: F::JetHinter,
    map: F::SourceMap,
    h: Seq<RichErrorModel>,
    k: Seq<RichErrorModel>,
    r: Result<TemplateProgram<F>, ErrorCollector>,
    q: Result<TemplateProgram<F>, ErrorCollector>,
)
    requires
        steady_analysis::<F>(),
        all_alike(h, k),
        template_outcome::<F>(source, single, program, hinter, map, h, r),
        template_outcome::<F>(source, single, program, hinter, map, k, q),
    ensures
        same_templates::<F>(r, q),
{
    let a = choose|
        a: Result<Analysis<F::Analyzed, F::Parameters, F::WitnessTypes>, RichError>,
    | #[trigger]
        call_ensures(F::analyze, (&program, &hinter), a) && match a {
            Ok(analysis) => r matches Ok(t) && t.is(analysis, source.content, hinter, map, program),
            Err(e) => r matches Err(c) && c@ == h.push(placed(e@, source, single)),
        };
    let b = choose|
        b: Result<Analysis<F::Analyzed, F::Parameters, F::WitnessTypes>, RichError>,
    | #[trigger]
        call_ensures(F::analyze, (&program, &hinter), b) && match b {
            Ok(analysis) => q matches Ok(t) && t.is(analysis, source.content, hinter, map, program),
            Err(e) => q matches Err(c) && c@ == k.push(placed(e@, source, single)),
        };
    assert(same_rich_result(a, b));
    if let Err(e) = a {
        let x = h.push(placed(e@, source, single));
        let y = k.push(placed((b->Err_0)@, source, single));
        assert forall|i: int| 0 <= i < x.len() implies alike(#[trigger] x[i], y[i]) by {
            if i < h.len() {
                assert(alike(h[i], k[i]));
            }
        }
    }
}

/// Two templates of one text agree, where the stages answer alike on like arguments.
pub proof fn law_templates_agree<F: Frontend, Str: Into<Arc<str>>>(
    s: Str,
    enabled: Seq<UnstableFeature>,
    hinter: F::JetHinter,
    r: Result<TemplateProgram<F>, ErrorCollector>,
    q: Result<TemplateProgram<F>, ErrorCollector>,
)
    requires
        steady_reading::<F, Str>(s),
        template_text_outcome::<F, Str>(s, enabled, hinter, r),
        template_text_outcome::<F, Str>(s, enabled, hinter, q),
    ensures
        same_templates::<F>(r, q),
{
    let f = choose|file: Arc<str>| #[trigger]
        call_ensures(Str::into, (s,), file) && single_file_outcome::<F>(
            (*file)@,
            enabled,
            hinter,
            r,
        );
    let g = choose|file: Arc<str>| #[trigger]
        call_ensures(Str::into, (s,), file) && single_file_outcome::<F>(
            (*file)@,
            enabled,
            hinter,
            q,
        );
    assert((*f)@ == (*g)@);
    let source = SourceModel { name: None, content: (*f)@ };
    let none = Seq::<RichErrorModel>::empty();
    let (a, h) = choose|parsed: Option<F::Parsed>, h: Seq<RichErrorModel>| #[trigger]
        parse_outcome::<F>(MAIN_MODULE, source, enabled, none, parsed, h) && match parsed {
            None => r matches Err(c) && c@ == h,
            Some(program) => exists|map: F::SourceMap| #[trigger]
                call_ensures(F::SourceMap::default, (), map) && template_outcome::<F>(
                    source,
                    true,
                    program,
                    hinter,
                    map,
                    h,
                    r,
                ),
        };
    let (b, k) = choose|parsed: Option<F::Parsed>, h: Seq<RichErrorModel>| #[trigger]
        parse_outcome::<F>(MAIN_MODULE, source, enabled, none, parsed, h) && match parsed {
            None => q matches Err(c) && c@ == h,
            Some(program) => exists|map: F::SourceMap| #[trigger]
                call_ensures(F::SourceMap::default, (), map) && template_outcome::<F>(
                    source,
                    true,
                    program,
                    hinter,
                    map,
                    h,
                    q,
                ),
        };
    law_parses_agree::<F>(MAIN_MODULE, source, enabled, none, a, h, b, k);
    if let Some(program) = a {
        let m = choose|map: F::SourceMap| #[trigger]
            call_ensures(F::SourceMap::default, (), map) && template_outcome::<F>(
                source,
                true,
                program,
                hinter,
                map,
                h,
                r,
            );
        let n = choose|map: F::SourceMap| #[trigger]
            call_ensures(F::SourceMap::default, (), map) && template_outcome::<F>(
                source,
                true,
                program,
                hinter,
                map,
                k,
                q,
            );
        assert(m == n);
        law_template_outcomes_agree::<F>(source, true, program, hinter, m, h, k, r, q);
    }
}

/// Two programs that are instantiated of the same template agree, where the stages answer
/// alike on like arguments.
pub proof fn law_instantiations_agree<F: Frontend>(
    t: TemplateProgram<F>,
    u: TemplateProgram<F>,
    arguments: F::Arguments,
    include_debug_symbols: bool,
    r: Result<CompiledProgram<F>, String>,
    q: Result<CompiledProgram<F>, String>,
)
    requires
        steady_translation::<F>(),
        same_template::<F>(t, u),
        instantiate_outcome::<F>(t, arguments, include_debug_symbols, r),
        instantiate_outcome::<F>(u, arguments, include_debug_symbols, q),
    ensures
        same_result(r, q),
{
    let a = choose|consistent: Result<(), String>| #[trigger]
        call_ensures(
            F::arguments_consistent,
            (&arguments, &t.declared_parameters()),
            consistent,
        ) && match consistent {
            Err(e) => r matches Err(text) && text@ == e@,
            Ok(_) => compile_outcome::<F>(t, arguments, include_debug_symbols, r),
        };
    let b = choose|consistent: Result<(), String>| #[trigger]
        call_ensures(
            F::arguments_consistent,
            (&arguments, &u.declared_parameters()),
            consistent,
        ) && match consistent {
            Err(e) => q matches Err(text) && text@ == e@,
            Ok(_) => compile_outcome::<F>(u, arguments, include_debug_symbols, q),
        };
    assert(same_result(a, b));
    if a is Ok {
        lemma_translations_agree::<F>(t, u, arguments, include_debug_symbols, r, q);
    }
}

proof fn lemma_translations_agree<F: Frontend>(
    t: TemplateProgram<F>,
    u: TemplateProgram<F>,
    arguments: F::Arguments,
    include_debug_symbols: bool,
    r: Result<CompiledProgram<F>, String>,
    q: Result<CompiledProgram<F>, String>,
)
    requires
        steady_translation::<F>(),
        same_template::<F>(t, u),
        compile_outcome::<F>(t, arguments, include_debug_symbols, r),
        compile_outcome::<F>(u, arguments, include_debug_symbols, q),
    ensures
        same_result(r, q),
{
    let source = SourceModel { name: None, content: t.text() };
    let a = choose|c: Result<F::Commit, RichError>| #[trigger]
        call_ensures(
            F::compile,
            (&t.ast(), arguments, include_debug_symbols, &t.hinter()),
            c,
        ) && match c {
            Err(e) => r matches Err(text) && text@ == e@.in_source(source).text(),
            Ok(commit) => r matches Ok(program) && program.commitment() == commit
                && program.witnesses() == t.declared_witnesses() && program.parameters()
                == t.declared_parameters() && exists|file: &str| #[trigger]
                call_ensures(F::debug_symbols, (&t.ast(), file), program.symbols()) && file@
                    == t.text(),
        };
    let b = choose|c: Result<F::Commit, RichError>| #[trigger]
        call_ensures(
            F::compile,
            (&u.ast(), arguments, include_debug_symbols, &u.hinter()),
            c,
        ) && match c {
            Err(e) => q matches Err(text) && text@ == e@.in_source(source).text(),
            Ok(commit) => q matches Ok(program) && program.commitment() == commit
                && program.witnesses() == u.declared_witnesses() && program.parameters()
                == u.declared_parameters() && exists|file: &str| #[trigger]
                call_ensures(F::debug_symbols, (&u.ast(), file), program.symbols()) && file@
                    == u.text(),
        };
    assert(same_rich_result(a, b));
    if a is Ok {
        let x = r->Ok_0;
        let y = q->Ok_0;
        let f = choose|file: &str| #[trigger]
            call_ensures(F::debug_symbols, (&t.ast(), file), x.symbols()) && file@ == t.text();
        let g = choose|file: &str| #[trigger]
            call_ensures(F::debug_symbols, (&u.ast(), file), y.symbols()) && file@ == u.text();
        assert(x.symbols() == y.symbols());
        law_compiled_is_its_parts(x, y);
    }
}

/// Two compilations of one text agree, where the stages answer alike on like arguments.
pub proof fn law_compilations_agree<F: Frontend, Str: Into<Arc<str>>>(
    s: Str,
    enabled: Seq<UnstableFeature>,
    arguments: F::Arguments,
    include_debug_symbols: bool,
    hinter: F::JetHinter,
    r: Result<CompiledProgram<F>, String>,
    q: Result<CompiledProgram<F>, String>,
)
    requires
        steady_reading::<F, Str>(s),
        steady_translation::<F>(),
        compile_text_outcome::<F, Str>(s, enabled, arguments, include_debug_symbols, hinter, r),
        compile_text_outcome::<F, Str>(s, enabled, arguments, include_debug_symbols, hinter, q),
    ensures
        same_result(r, q),
{
    let t = choose|t: Result<TemplateProgram<F>, ErrorCollector>| #[trigger]
        template_text_outcome::<F, Str>(s, enabled, hinter, t) && match t {
            Err(c) => r matches Err(text) && text@ == report(c@),
            Ok(template) => instantiate_outcome::<F>(template, arguments, include_debug_symbols, r),
        };
    let u = choose|t: Result<TemplateProgram<F>, ErrorCollector>| #[trigger]
        template_text_outcome::<F, Str>(s, enabled, hinter, t) && match t {
            Err(c) => q matches Err(text) && text@ == report(c@),
            Ok(template) => instantiate_outcome::<F>(template, arguments, include_debug_symbols, q),
        };
    law_templates_agree::<F, Str>(s, enabled, hinter, t, u);
    match (t, u) {
        (Ok(t), Ok(u)) => {
            law_instantiations_agree::<F>(t, u, arguments, include_debug_symbols, r, q);
        },
        (Err(c), Err(d)) => {
            law_alike_errors_are_shown_alike(c@, d@);
        },
        _ => {},
    }
}

// ---------------------------------------------------------------------------------------
// Two runs on one compiled program
// ---------------------------------------------------------------------------------------

/// Whether two layouts have the same names and types.
pub open spec fn same_entries<T>(a: Seq<(String, T)>, b: Seq<(String, T)>) -> bool {
    a.len() == b.len() && forall|i: int|
        0 <= i < a.len() ==> (#[trigger] a[i]).0@ == b[i].0@ && a[i].1 == b[i].1
}

/// The same nodes have the same layout.
pub proof fn law_same_nodes_same_layout<T>(a: Seq<LayoutNode<T>>, b: Seq<LayoutNode<T>>)
    requires
        same_nodes(a, b),
    ensures
        same_entries(layout(a), layout(b)),
    decreases a.len(),
{
    if a.len() > 0 {
        let x = a.drop_last();
        let y = b.drop_last();
        assert(same_node(a[a.len() - 1], b[a.len() - 1]));
        assert forall|i: int| 0 <= i < x.len() implies same_node(#[trigger] x[i], y[i]) by {
            assert(same_node(a[i], b[i]));
        }
        law_same_nodes_same_layout(x, y);
        assert forall|i: int| 0 <= i < layout(a).len() implies (#[trigger] layout(a)[i]).0@
            == layout(b)[i].0@ && layout(a)[i].1 == layout(b)[i].1 by {
            if i < layout(x).len() {
                assert(layout(x)[i].0@ == layout(y)[i].0@);
            }
        }
    }
}

proof fn lemma_answers_agree<F: Frontend>(
    witness_values: F::WitnessValues,
    name: Seq<char>,
    a: Result<F::Value, String>,
    b: Result<F::Value, String>,
)
    requires
        steady_values::<F>(witness_values),
        answers::<F>(witness_values, name, a),
        answers::<F>(witness_values, name, b),
    ensures
        same_result(a, b),
{
    let s = choose|text: &str|
        text@ == name && #[trigger] call_ensures(F::witness_value, (&witness_values, text), a);
    let t = choose|text: &str|
        text@ == name && #[trigger] call_ensures(F::witness_value, (&witness_values, text), b);
    assert(call_ensures(F::witness_value, (&witness_values, s), a));
    assert(call_ensures(F::witness_value, (&witness_values, t), b));
}

/// Whether two assignments are the same: the same values, or the same message.
pub open spec fn same_values<V>(
    a: Result<Vec<Arc<V>>, String>,
    b: Result<Vec<Arc<V>>, String>,
) -> bool {
    match (a, b) {
        (Ok(x), Ok(y)) => x@ == y@,
        (Err(x), Err(y)) => x@ == y@,
        _ => false,
    }
}

/// Two assignments to one layout agree, where each witness has one value.
pub proof fn law_assignments_agree<F: Frontend>(
    witness_values: F::WitnessValues,
    d: Seq<(String, F::Final)>,
    e: Seq<(String, F::Final)>,
    r: Result<Vec<Arc<F::Value>>, String>,
    q: Result<Vec<Arc<F::Value>>, String>,
)
    requires
        steady_values::<F>(witness_values),
        same_entries(d, e),
        assigned::<F>(witness_values, d, r),
        assigned::<F>(witness_values, e, q),
    ensures
        same_values(r, q),
{
    match (r, q) {
        (Ok(v), Ok(w)) => {
            assert forall|i: int| 0 <= i < v@.len() implies #[trigger] v@[i] == w@[i] by {
                assert(d[i].0@ == e[i].0@);
                lemma_answers_agree::<F>(witness_values, d[i].0@, Ok(*v[i]), Ok(*w[i]));
            }
            assert(v@ =~= w@);
        },
        (Err(x), Err(y)) => {
            let (j, s) = choose|k: int, text: String|
                0 <= k < d.len() && #[trigger] answers::<F>(
                    witness_values,
                    d[k].0@,
                    Err(text),
                ) && x@ == text@ && forall|j: int|
                    0 <= j < k ==> has_value::<F>(witness_values, (#[trigger] d[j]).0@);
            let (k, t) = choose|k: int, text: String|
                0 <= k < e.len() && #[trigger] answers::<F>(
                    witness_values,
                    e[k].0@,
                    Err(text),
                ) && y@ == text@ && forall|j: int|
                    0 <= j < k ==> has_value::<F>(witness_values, (#[trigger] e[j]).0@);
            assert(d[j].0@ == e[j].0@);
            assert(d[k].0@ == e[k].0@);
            if j < k {
                assert(has_value::<F>(witness_values, e[j].0@));
                let v = choose|v: F::Value| #[trigger]
                    answers::<F>(witness_values, e[j].0@, Ok(v));
                lemma_answers_agree::<F>(witness_values, d[j].0@, Err(s), Ok(v));
            } else if k < j {
                assert(has_value::<F>(witness_values, d[k].0@));
                let v = choose|v: F::Value| #[trigger]
                    answers::<F>(witness_values, d[k].0@, Ok(v));
                lemma_answers_agree::<F>(witness_values, d[k].0@, Err(t), Ok(v));
            } else {
                lemma_answers_agree::<F>(witness_values, d[j].0@, Err(s), Err(t));
            }
        },
        (Ok(v), Err(y)) => {
            lemma_assignment_decided::<F>(witness_values, d, e, v, y);
        },
        (Err(x), Ok(w)) => {
            lemma_assignment_decided::<F>(witness_values, e, d, w, x);
        },
    }
}

proof fn lemma_assignment_decided<F: Frontend>(
    witness_values: F::WitnessValues,
    d: Seq<(String, F::Final)>,
    e: Seq<(String, F::Final)>,
    v: Vec<Arc<F::Value>>,
    y: String,
)
    requires
        steady_values::<F>(witness_values),
        same_entries(d, e) || same_entries(e, d),
        assigned::<F>(witness_values, d, Ok(v)),
    ensures
        !assigned::<F>(witness_values, e, Err(y)),
{
    if assigned::<F>(witness_values, e, Err(y)) {
        let (k, t) = choose|k: int, text: String|
            0 <= k < e.len() && #[trigger] answers::<F>(witness_values, e[k].0@, Err(text)) && y@
                == text@ && forall|j: int|
                0 <= j < k ==> has_value::<F>(witness_values, (#[trigger] e[j]).0@);
        assert(d[k].0@ == e[k].0@);
        assert(answers::<F>(witness_values, d[k].0@, Ok(*v[k])));
        let x = choose|x: F::Value| #[trigger] answers::<F>(witness_values, d[k].0@, Ok(x));
        lemma_answers_agree::<F>(witness_values, d[k].0@, Ok(x), Err(t));
    }
}

proof fn lemma_prunings_agree<F: Frontend>(
    program: CompiledProgram<F>,
    redeem: F::Redeem,
    env: Option<&F::Env>,
    r: Result<SatisfiedProgram<F>, String>,
    q: Result<SatisfiedProgram<F>, String>,
)
    requires
        steady_filling::<F>(),
        prune_outcome::<F>(program, redeem, env, r),
        prune_outcome::<F>(program, redeem, env, q),
    ensures
        same_result(r, q),
{
    if let Some(env) = env {
        let a = choose|p: Result<F::Redeem, String>| #[trigger]
            call_ensures(F::prune, (redeem, env), p) && match p {
                Err(e) => r matches Err(text) && text@ == e@,
                Ok(pruned) => r matches Ok(s) && s.redemption() == pruned && s.symbols()
                    == program.symbols(),
            };
        let b = choose|p: Result<F::Redeem, String>| #[trigger]
            call_ensures(F::prune, (redeem, env), p) && match p {
                Err(e) => q matches Err(text) && text@ == e@,
                Ok(pruned) => q matches Ok(s) && s.redemption() == pruned && s.symbols()
                    == program.symbols(),
            };
        assert(same_result(a, b));
    }
    if let (Ok(x), Ok(y)) = (r, q) {
        law_satisfied_is_its_parts::<F>(x, y);
    }
}

/// The steps of filling a compiled program: its nodes, the values for them, and what putting
/// the values in gives.
pub open spec fn filled<F: Frontend>(
    program: CompiledProgram<F>,
    witness_values: F::WitnessValues,
    nodes: Vec<LayoutNode<F::Final>>,
    values: Result<Vec<Arc<F::Value>>, String>,
    p: Result<F::Redeem, String>,
) -> bool {
    &&& call_ensures(F::post_order, (&program.commitment(),), nodes)
    &&& assigned::<F>(witness_values, layout(nodes@), values)
    &&& match values {
        Err(e) => p matches Err(text) && text@ == e@,
        Ok(values) => call_ensures(F::populate_witnesses, (&program.commitment(), values), p),
    }
}

/// What filling a program comes to goes through those steps.
proof fn lemma_filled<F: Frontend>(
    program: CompiledProgram<F>,
    witness_values: F::WitnessValues,
    env: Option<&F::Env>,
    r: Result<SatisfiedProgram<F>, String>,
) -> (steps: (
    Vec<LayoutNode<F::Final>>,
    Result<Vec<Arc<F::Value>>, String>,
    Result<F::Redeem, String>,
))
    requires
        fill_outcome::<F>(program, witness_values, env, r),
    ensures
        filled::<F>(program, witness_values, steps.0, steps.1, steps.2),
        match steps.2 {
            Err(e) => r matches Err(text) && text@ == e@,
            Ok(redeem) => prune_outcome::<F>(program, redeem, env, r),
        },
        steps.1 is Err ==> r is Err,
{
    let (nodes, values) = choose|
        nodes: Vec<LayoutNode<F::Final>>,
        values: Result<Vec<Arc<F::Value>>, String>,
    |
        #![trigger assigned::<F>(witness_values, layout(nodes@), values)]
        call_ensures(F::post_order, (&program.commitment(),), nodes) && assigned::<F>(
            witness_values,
            layout(nodes@),
            values,
        ) && match values {
            Err(e) => r matches Err(text) && text@ == e@,
            Ok(values) => exists|p: Result<F::Redeem, String>| #[trigger]
                call_ensures(F::populate_witnesses, (&program.commitment(), values), p) && match p {
                    Err(e) => r matches Err(text) && text@ == e@,
                    Ok(redeem) => prune_outcome::<F>(program, redeem, env, r),
                },
        };
    let p = match values {
        Err(e) => Err(e),
        Ok(given) => choose|p: Result<F::Redeem, String>| #[trigger]
            call_ensures(F::populate_witnesses, (&program.commitment(), given), p) && match p {
                Err(e) => r matches Err(text) && text@ == e@,
                Ok(redeem) => prune_outcome::<F>(program, redeem, env, r),
            },
    };
    (nodes, values, p)
}

/// Two ways of satisfying one program with one set of values agree, where the stages answer
/// alike on like arguments.
pub proof fn law_satisfactions_agree<F: Frontend>(
    program: CompiledProgram<F>,
    witness_values: F::WitnessValues,
    env: Option<&F::Env>,
    r: Result<SatisfiedProgram<F>, String>,
    q: Result<SatisfiedProgram<F>, String>,
)
    requires
        steady_filling::<F>(),
        satisfy_outcome::<F>(program, witness_values, env, r),
        satisfy_outcome::<F>(program, witness_values, env, q),
    ensures
        same_result(r, q),
{
    let a = choose|consistent: Result<(), String>| #[trigger]
        call_ensures(
            F::witnesses_consistent,
            (&witness_values, &program.witnesses()),
            consistent,
        ) && match consistent {
            Err(e) => r matches Err(text) && text@ == e@,
            Ok(_) => fill_outcome::<F>(program, witness_values, env, r),
        };
    let b = choose|consistent: Result<(), String>| #[trigger]
        call_ensures(
            F::witnesses_consistent,
            (&witness_values, &program.witnesses()),
            consistent,
        ) && match consistent {
            Err(e) => q matches Err(text) && text@ == e@,
            Ok(_) => fill_outcome::<F>(program, witness_values, env, q),
        };
    assert(same_result(a, b));
    if a is Ok {
        let commit = program.commitment();
        assert(steady_post_order::<F>(commit));
        assert(steady_values::<F>(witness_values));
        assert(steady_populating::<F>(commit));
        let (m, v, x) = lemma_filled::<F>(program, witness_values, env, r);
        let (n, w, y) = lemma_filled::<F>(program, witness_values, env, q);
        assert(same_nodes(m@, n@));
        law_same_nodes_same_layout(m@, n@);
        law_assignments_agree::<F>(witness_values, layout(m@), layout(n@), v, w);
        assert(same_result(x, y));
        if let Ok(redeem) = x {
            lemma_prunings_agree::<F>(program, redeem, env, r, q);
        }
    }
}

/// Two ways of compiling and satisfying one text agree, where the stages answer alike on like
/// arguments.
pub proof fn law_satisfied_texts_agree<F: Frontend, Str: Into<Arc<str>>>(
    s: Str,
    enabled: Seq<UnstableFeature>,
    arguments: F::Arguments,
    witness_values: F::WitnessValues,
    include_debug_symbols: bool,
    hinter: F::JetHinter,
    r: Result<SatisfiedProgram<F>, String>,
    q: Result<SatisfiedProgram<F>, String>,
)
    requires
        steady_reading::<F, Str>(s),
        steady_translation::<F>(),
        steady_filling::<F>(),
        satisfy_text_outcome::<F, Str>(
            s,
            enabled,
            arguments,
            witness_values,
            include_debug_symbols,
            hinter,
            r,
        ),
        satisfy_text_outcome::<F, Str>(
            s,
            enabled,
            arguments,
            witness_values,
            include_debug_symbols,
            hinter,
            q,
        ),
    ensures
        same_result(r, q),
{
    let c = choose|c: Result<CompiledProgram<F>, String>| #[trigger]
        compile_text_outcome::<F, Str>(s, enabled, arguments, include_debug_symbols, hinter, c)
            && match c {
            Err(e) => r matches Err(text) && text@ == e@,
            Ok(program) => satisfy_outcome::<F>(program, witness_values, None, r),
        };
    let d = choose|c: Result<CompiledProgram<F>, String>| #[trigger]
        compile_text_outcome::<F, Str>(s, enabled, arguments, include_debug_symbols, hinter, c)
            && match c {
            Err(e) => q matches Err(text) && text@ == e@,
            Ok(program) => satisfy_outcome::<F>(program, witness_values, None, q),
        };
    law_compilations_agree::<F, Str>(
        s,
        enabled,
        arguments,
        include_debug_symbols,
        hinter,
        c,
        d,
    );
    if let Ok(program) = c {
        law_satisfactions_agree::<F>(program, witness_values, None, r, q);
    }
}

// ---------------------------------------------------------------------------------------
// Features
// ---------------------------------------------------------------------------------------

/// `TemplateProgram::new` gives what `new_with_unstable` gives where no feature is enabled:
/// the same template, or the same diagnostics.
pub proof fn law_new_template_enables_no_feature<F: Frontend, Str: Into<Arc<str>>>(
    s: Str,
    none: &UnstableFeatures,
    hinter: F::JetHinter,
    r: Result<TemplateProgram<F>, ErrorCollector>,
    q: Result<TemplateProgram<F>, ErrorCollector>,
)
    requires
        none@ == Seq::<UnstableFeature>::empty(),
        steady_reading::<F, Str>(s),
        template_text_outcome::<F, Str>(s, Seq::empty(), hinter, r),
        template_text_outcome::<F, Str>(s, none@, hinter, q),
    ensures
        same_templates::<F>(r, q),
{
    law_templates_agree::<F, Str>(s, Seq::empty(), hinter, r, q);
}

/// `CompiledProgram::new` gives what `new_with_unstable` gives where no feature is enabled:
/// the same program, or the same message.
pub proof fn law_new_compiled_enables_no_feature<F: Frontend, Str: Into<Arc<str>>>(
    s: Str,
    none: &UnstableFeatures,
    arguments: F::Arguments,
    include_debug_symbols: bool,
    hinter: F::JetHinter,
    r: Result<CompiledProgram<F>, String>,
    q: Result<CompiledProgram<F>, String>,
)
    requires
        none@ == Seq::<UnstableFeature>::empty(),
        steady_reading::<F, Str>(s),
        steady_translation::<F>(),
        compile_text_outcome::<F, Str>(
            s,
            Seq::empty(),
            arguments,
            include_debug_symbols,
            hinter,
            r,
        ),
        compile_text_outcome::<F, Str>(s, none@, arguments, include_debug_symbols, hinter, q),
    ensures
        same_result(r, q),
{
    law_compilations_agree::<F, Str>(
        s,
        Seq::empty(),
        arguments,
        include_debug_symbols,
        hinter,
        r,
        q,
    );
}

/// `SatisfiedProgram::new` gives what `new_with_unstable` gives where no feature is enabled:
/// the same program, or the same message.
pub proof fn law_new_satisfied_enables_no_feature<F: Frontend, Str: Into<Arc<str>>>(
    s: Str,
    none: &UnstableFeatures,
    arguments: F::Arguments,
    witness_values: F::WitnessValues,
    include_debug_symbols: bool,
    hinter: F::JetHinter,
    r: Result<SatisfiedProgram<F>, String>,
    q: Result<SatisfiedProgram<F>, String>,
)
    requires
        none@ == Seq::<UnstableFeature>::empty(),
        steady_reading::<F, Str>(s),
        steady_translation::<F>(),
        steady_filling::<F>(),
        satisfy_text_outcome::<F, Str>(
            s,
            Seq::empty(),
            arguments,
            witness_values,
            include_debug_symbols,
            hinter,
            r,
        ),
        satisfy_text_outcome::<F, Str>(
            s,
            none@,
            arguments,
            witness_values,
            include_debug_symbols,
            hinter,
            q,
        ),
    ensures
        same_result(r, q),
{
    law_satisfied_texts_agree::<F, Str>(
        s,
        Seq::empty(),
        arguments,
        witness_values,
        include_debug_symbols,
        hinter,
        r,
        q,
    );
}

/// Enabling more features neither rejects a text that makes a template nor changes the
/// template.
pub proof fn law_more_features_same_template<F: Frontend, Str: Into<Arc<str>>>(
    s: Str,
    enabled: Seq<UnstableFeature>,
    more: Seq<UnstableFeature>,
    hinter: F::JetHinter,
    t: TemplateProgram<F>,
    r: Result<TemplateProgram<F>, ErrorCollector>,
)
    requires
        steady_reading::<F, Str>(s),
        forall|f: UnstableFeature| enabled.contains(f) ==> more.contains(f),
        template_text_outcome::<F, Str>(s, enabled, hinter, Ok(t)),
        template_text_outcome::<F, Str>(s, more, hinter, r),
    ensures
        r matches Ok(u) && same_template::<F>(t, u),
{
    law_more_features_keep_template::<F, Str>(s, enabled, more, hinter, t);
    law_templates_agree::<F, Str>(s, more, hinter, Ok(t), r);
}

/// Enabling more features neither rejects a text that compiles nor changes the program that
/// it compiles to.
pub proof fn law_more_features_same_program<F: Frontend, Str: Into<Arc<str>>>(
    s: Str,
    enabled: Seq<UnstableFeature>,
    more: Seq<UnstableFeature>,
    arguments: F::Arguments,
    include_debug_symbols: bool,
    hinter: F::JetHinter,
    program: CompiledProgram<F>,
    r: Result<CompiledProgram<F>, String>,
)
    requires
        steady_reading::<F, Str>(s),
        steady_translation::<F>(),
        forall|f: UnstableFeature| enabled.contains(f) ==> more.contains(f),
        compile_text_outcome::<F, Str>(
            s,
            enabled,
            arguments,
            include_debug_symbols,
            hinter,
            Ok(program),
        ),
        compile_text_outcome::<F, Str>(s, more, arguments, include_debug_symbols, hinter, r),
    ensures
        r == Ok::<CompiledProgram<F>, String>(program),
{
    law_more_features_keep_compiled::<F, Str>(
        s,
        enabled,
        more,
        arguments,
        include_debug_symbols,
        hinter,
        program,
    );
    law_compilations_agree::<F, Str>(
        s,
        more,
        arguments,
        include_debug_symbols,
        hinter,
        Ok(program),
        r,
    );
}

// ---------------------------------------------------------------------------------------
// The witness layout
// ---------------------------------------------------------------------------------------

/// The witness layout tells what satisfying the program fills in: it has an entry for each
/// witness node, and where the program is satisfied, as many values are put into it, the
/// `k`-th of them the value of the name in the `k`-th entry, and the same value wherever a
/// name stands again.
pub proof fn law_layout_tells_the_values<F: Frontend>(
    program: CompiledProgram<F>,
    entries: Seq<(String, F::Final)>,
    witness_values: F::WitnessValues,
    env: Option<&F::Env>,
    s: SatisfiedProgram<F>,
)
    requires
        steady_post_order::<F>(program.commitment()),
        layout_outcome::<F>(program, entries),
        satisfy_outcome::<F>(program, witness_values, env, Ok(s)),
    ensures
        forall|nodes: Vec<LayoutNode<F::Final>>| #[trigger]
            call_ensures(F::post_order, (&program.commitment(),), nodes) ==> entries.len()
                == witnesses_before(nodes@, nodes.len() as int),
        exists|values: Vec<Arc<F::Value>>, redeem: F::Redeem|
            {
                &&& #[trigger] call_ensures(
                    F::populate_witnesses,
                    (&program.commitment(), values),
                    Ok(redeem),
                )
                &&& prune_outcome::<F>(program, redeem, env, Ok(s))
                &&& fits_layout::<F>(witness_values, entries, values)
            },
{
    let m = choose|nodes: Vec<LayoutNode<F::Final>>| #[trigger]
        call_ensures(F::post_order, (&program.commitment(),), nodes) && entries == layout(nodes@);
    assert forall|nodes: Vec<LayoutNode<F::Final>>| #[trigger]
        call_ensures(F::post_order, (&program.commitment(),), nodes) implies entries.len()
        == witnesses_before(nodes@, nodes.len() as int) by {
        law_same_nodes_same_layout(m@, nodes@);
        law_layout_follows_nodes(nodes@);
    }
    let (n, v, p) = lemma_filled::<F>(program, witness_values, env, Ok(s));
    assert(same_nodes(m@, n@));
    law_same_nodes_same_layout(m@, n@);
    let values = v->Ok_0;
    let redeem = p->Ok_0;
    let found = layout(n@);
    assert forall|k: int| 0 <= k < entries.len() implies answers::<F>(
        witness_values,
        (#[trigger] entries[k]).0@,
        Ok(*values[k]),
    ) by {
        assert(entries[k].0@ == found[k].0@);
    }
    assert forall|j: int, k: int|
        0 <= j < entries.len() && 0 <= k < entries.len() && (#[trigger] entries[j]).0@ == (
        #[trigger] entries[k]).0@ implies *values[j] == *values[k] by {
        assert(entries[j].0@ == found[j].0@);
        assert(entries[k].0@ == found[k].0@);
    }
    assert(call_ensures(
        F::populate_witnesses,
        (&program.commitment(), values),
        Ok::<F::Redeem, String>(redeem),
    ));
}

/// Whether the values are those that a layout asks for: as many, each the value of the name in
/// its entry, and the same one wherever a name stands again.
pub open spec fn fits_layout<F: Frontend>(
    witness_values: F::WitnessValues,
    entries: Seq<(String, F::Final)>,
    values: Vec<Arc<F::Value>>,
) -> bool {
    &&& values.len() == entries.len()
    &&& forall|k: int|
        0 <= k < entries.len() ==> answers::<F>(
            witness_values,
            (#[trigger] entries[k]).0@,
            Ok(*values[k]),
        )
    &&& forall|j: int, k: int|
        0 <= j < entries.len() && 0 <= k < entries.len() && (#[trigger] entries[j]).0@ == (
        #[trigger] entries[k]).0@ ==> *values[j] == *values[k]
}

/// A program can be satisfied by its layout alone: to put in, for each entry, the value of its
/// name gives the same target code as `CompiledProgram::satisfy`.
pub proof fn law_filling_by_layout_satisfies<F: Frontend>(
    program: CompiledProgram<F>,
    entries: Seq<(String, F::Final)>,
    witness_values: F::WitnessValues,
    s: SatisfiedProgram<F>,
    values: Vec<Arc<F::Value>>,
    p: Result<F::Redeem, String>,
)
    requires
        steady_post_order::<F>(program.commitment()),
        steady_values::<F>(witness_values),
        steady_populating::<F>(program.commitment()),
        layout_outcome::<F>(program, entries),
        satisfy_outcome::<F>(program, witness_values, None, Ok(s)),
        values.len() == entries.len(),
        forall|k: int|
            0 <= k < entries.len() ==> answers::<F>(
                witness_values,
                (#[trigger] entries[k]).0@,
                Ok(*values[k]),
            ),
        call_ensures(F::populate_witnesses, (&program.commitment(), values), p),
    ensures
        p == Ok::<F::Redeem, String>(s.redemption()),
{
    law_layout_tells_the_values::<F>(program, entries, witness_values, None, s);
    let (given, redeem) = choose|given: Vec<Arc<F::Value>>, redeem: F::Redeem|
        {
            &&& #[trigger] call_ensures(
                F::populate_witnesses,
                (&program.commitment(), given),
                Ok(redeem),
            )
            &&& prune_outcome::<F>(program, redeem, None, Ok(s))
            &&& fits_layout::<F>(witness_values, entries, given)
        };
    assert forall|k: int| 0 <= k < given@.len() implies #[trigger] given@[k] == values@[k] by {
        assert(answers::<F>(witness_values, entries[k].0@, Ok(*given[k])));
        lemma_answers_agree::<F>(witness_values, entries[k].0@, Ok(*given[k]), Ok(*values[k]));
    }
    assert(given@ =~= values@);
}

// ---------------------------------------------------------------------------------------
// What a check made beforehand tells
// ---------------------------------------------------------------------------------------

/// To hold arguments against the parameters of a template tells whether it can be
/// instantiated with them: where they are refused, instantiating fails with the same message,
/// and where a program comes of it, they are not.
pub proof fn law_arguments_are_checked<F: Frontend>(
    template: TemplateProgram<F>,
    arguments: F::Arguments,
    include_debug_symbols: bool,
    c: Result<(), String>,
    r: Result<CompiledProgram<F>, String>,
)
    requires
        steady_translation::<F>(),
        call_ensures(
            F::arguments_consistent,
            (&arguments, &template.declared_parameters()),
            c,
        ),
        instantiate_outcome::<F>(template, arguments, include_debug_symbols, r),
    ensures
        c matches Err(e) ==> (r matches Err(text) && text@ == e@),
        r is Ok ==> c is Ok,
{
    let d = choose|consistent: Result<(), String>| #[trigger]
        call_ensures(
            F::arguments_consistent,
            (&arguments, &template.declared_parameters()),
            consistent,
        ) && match consistent {
            Err(e) => r matches Err(text) && text@ == e@,
            Ok(_) => compile_outcome::<F>(template, arguments, include_debug_symbols, r),
        };
    assert(same_result(c, d));
}

/// To hold values against the witnesses of a program tells whether it can be satisfied with
/// them: where they are refused, satisfying fails with the same message, and where it
/// succeeds, they are not.
pub proof fn law_witnesses_are_checked<F: Frontend>(
    program: CompiledProgram<F>,
    witness_values: F::WitnessValues,
    env: Option<&F::Env>,
    c: Result<(), String>,
    r: Result<SatisfiedProgram<F>, String>,
)
    requires
        steady_filling::<F>(),
        call_ensures(F::witnesses_consistent, (&witness_values, &program.witnesses()), c),
        satisfy_outcome::<F>(program, witness_values, env, r),
    ensures
        c matches Err(e) ==> (r matches Err(text) && text@ == e@),
        r is Ok ==> c is Ok,
{
    let d = choose|consistent: Result<(), String>| #[trigger]
        call_ensures(
            F::witnesses_consistent,
            (&witness_values, &program.witnesses()),
            consistent,
        ) && match consistent {
            Err(e) => r matches Err(text) && text@ == e@,
            Ok(_) => fill_outcome::<F>(program, witness_values, env, r),
        };
    assert(same_result(c, d));
}

/// A name in the witness layout that has no value tells that the program cannot be satisfied.
pub proof fn law_entry_without_value_is_refused<F: Frontend>(
    program: CompiledProgram<F>,
    entries: Seq<(String, F::Final)>,
    witness_values: F::WitnessValues,
    env: Option<&F::Env>,
    k: int,
    e: String,
    r: Result<SatisfiedProgram<F>, String>,
)
    requires
        steady_post_order::<F>(program.commitment()),
        steady_values::<F>(witness_values),
        layout_outcome::<F>(program, entries),
        0 <= k < entries.len(),
        answers::<F>(witness_values, entries[k].0@, Err(e)),
        satisfy_outcome::<F>(program, witness_values, env, r),
    ensures
        r is Err,
{
    if let Ok(s) = r {
        law_layout_tells_the_values::<F>(program, entries, witness_values, env, s);
        let (values, redeem) = choose|values: Vec<Arc<F::Value>>, redeem: F::Redeem|
            {
                &&& #[trigger] call_ensures(
                    F::populate_witnesses,
                    (&program.commitment(), values),
                    Ok(redeem),
                )
                &&& prune_outcome::<F>(program, redeem, env, Ok(s))
                &&& fits_layout::<F>(witness_values, entries, values)
            };
        assert(answers::<F>(witness_values, entries[k].0@, Ok(*values[k])));
        let x = choose|x: F::Value| #[trigger] answers::<F>(witness_values, entries[k].0@, Ok(x));
        lemma_answers_agree::<F>(witness_values, entries[k].0@, Ok(x), Err(e));
    }
}

// ---------------------------------------------------------------------------------------
// Programs with dependencies
// ---------------------------------------------------------------------------------------

/// Whether the stages that follow the driver answer alike on like arguments.
pub open spec fn steady_linking<F: Frontend>() -> bool {
    &&& forall|graph: &F::Graph, a: Vec<SourceFile>, b: Vec<SourceFile>| #[trigger]
        call_ensures(F::graph_files, (graph,), a) && #[trigger] call_ensures(
            F::graph_files,
            (graph,),
            b,
        ) ==> source_models(a@) == source_models(b@)
    &&& forall|
        graph: &F::Graph,
        a: (Result<Option<F::Parsed>, String>, Vec<RichError>),
        b: (Result<Option<F::Parsed>, String>, Vec<RichError>),
    | #[trigger]
        call_ensures(F::linearize_and_build, (graph,), a) && #[trigger] call_ensures(
            F::linearize_and_build,
            (graph,),
            b,
        ) ==> same_result(a.0, b.0) && all_alike(error_models(a.1@), error_models(b.1@))
    &&& forall|graph: &F::Graph, a: F::SourceMap, b: F::SourceMap| #[trigger]
        call_ensures(F::graph_source_map, (graph,), a) && #[trigger] call_ensures(
            F::graph_source_map,
            (graph,),
            b,
        ) ==> a == b
}

/// Whether the driver answers alike with two sets of files: where it loads a program from one,
/// it loads the same from the other.
pub open spec fn same_graphs<F: Frontend>(
    source: &SourceFile,
    files: &F::DependencyMap,
    others: &F::DependencyMap,
    features: &UnstableFeatures,
) -> bool {
    forall|
        program: &F::Parsed,
        a: (Result<Option<F::Graph>, String>, Vec<RichError>),
        b: (Result<Option<F::Graph>, String>, Vec<RichError>),
    | #[trigger]
        call_ensures(F::build_graph, (source, files, program, features), a)
            && #[trigger] call_ensures(F::build_graph, (source, others, program, features), b)
            ==> same_result(a.0, b.0) && all_alike(error_models(a.1@), error_models(b.1@))
}

/// Whether two outcomes of loading are the same.
pub open spec fn same_loading<F: Frontend>(
    a: Result<(Option<F::Parsed>, F::SourceMap), LoadFailure>,
    b: Result<(Option<F::Parsed>, F::SourceMap), LoadFailure>,
) -> bool {
    match (a, b) {
        (Ok(x), Ok(y)) => x == y,
        (Err(LoadFailure::Reported), Err(LoadFailure::Reported)) => true,
        (Err(LoadFailure::Message(x)), Err(LoadFailure::Message(y))) => x@ == y@,
        _ => false,
    }
}

proof fn lemma_checked_files_agree(
    files: Seq<SourceModel>,
    h: Seq<RichErrorModel>,
    k: Seq<RichErrorModel>,
    after: Seq<RichErrorModel>,
    other: Seq<RichErrorModel>,
)
    requires
        all_alike(h, k),
        files_checked(files, h, after),
        files_checked(files, k, other),
    ensures
        all_alike(after, other),
    decreases files.len(),
{
    if files.len() > 0 {
        let rest = files.drop_last();
        let last = files.last();
        let m = choose|mid: Seq<RichErrorModel>|
            files_checked(rest, h, mid) && #[trigger] source_checked(last, mid, after);
        let n = choose|mid: Seq<RichErrorModel>|
            files_checked(rest, k, mid) && #[trigger] source_checked(last, mid, other);
        lemma_checked_files_agree(rest, h, k, m, n);
        let c = choose|c: Result<(), (Error, Span)>| #[trigger]
            checked(last.content, c) && after == match c {
                Ok(_) => m,
                Err((error, span)) => m.push(RichErrorModel { error, span, source: Some(last) }),
            };
        let d = choose|d: Result<(), (Error, Span)>| #[trigger]
            checked(last.content, d) && other == match d {
                Ok(_) => n,
                Err((error, span)) => n.push(RichErrorModel { error, span, source: Some(last) }),
            };
        law_checks_agree(last.content, c, d);
        assert forall|i: int| 0 <= i < after.len() implies alike(
            #[trigger] after[i],
            other[i],
        ) by {
            if i < m.len() {
                assert(alike(m[i], n[i]));
            }
        }
    }
}

proof fn lemma_added_errors_agree(
    h: Seq<RichErrorModel>,
    k: Seq<RichErrorModel>,
    after: Seq<RichErrorModel>,
    other: Seq<RichErrorModel>,
    reason: Seq<char>,
)
    requires
        all_alike(h, k),
        adds_parsing_error(h, after, reason),
        adds_parsing_error(k, other, reason),
    ensures
        all_alike(after, other),
{
    assert forall|i: int| 0 <= i < after.len() implies alike(#[trigger] after[i], other[i]) by {
        if i < h.len() {
            assert(after[i] == after.drop_last()[i]);
            assert(other[i] == other.drop_last()[i]);
            assert(alike(h[i], k[i]));
        }
    }
}

proof fn lemma_flattenings_agree<F: Frontend>(
    graph: &F::Graph,
    h: Seq<RichErrorModel>,
    k: Seq<RichErrorModel>,
    r: Result<(Option<F::Parsed>, F::SourceMap), LoadFailure>,
    q: Result<(Option<F::Parsed>, F::SourceMap), LoadFailure>,
    after: Seq<RichErrorModel>,
    other: Seq<RichErrorModel>,
)
    requires
        steady_linking::<F>(),
        all_alike(h, k),
        flattened::<F>(graph, h, r, after),
        flattened::<F>(graph, k, q, other),
    ensures
        same_loading::<F>(r, q),
        all_alike(after, other),
{
    let (l, t) = choose|
        l: (Result<Option<F::Parsed>, String>, Vec<RichError>),
        taken: Result<Option<F::Parsed>, String>,
    |
        #![trigger linearized_taken(l.0, error_models(l.1@), h, taken, after)]
        call_ensures(F::linearize_and_build, (graph,), l) && linearized_taken(
            l.0,
            error_models(l.1@),
            h,
            taken,
            after,
        ) && match taken {
            Ok(program) => r matches Ok((p, map)) && p == program && call_ensures(
                F::graph_source_map,
                (graph,),
                map,
            ),
            Err(text) => r matches Err(LoadFailure::Message(e)) && e@ == text@,
        };
    let (m, u) = choose|
        l: (Result<Option<F::Parsed>, String>, Vec<RichError>),
        taken: Result<Option<F::Parsed>, String>,
    |
        #![trigger linearized_taken(l.0, error_models(l.1@), k, taken, other)]
        call_ensures(F::linearize_and_build, (graph,), l) && linearized_taken(
            l.0,
            error_models(l.1@),
            k,
            taken,
            other,
        ) && match taken {
            Ok(program) => q matches Ok((p, map)) && p == program && call_ensures(
                F::graph_source_map,
                (graph,),
                map,
            ),
            Err(text) => q matches Err(LoadFailure::Message(e)) && e@ == text@,
        };
    assert(same_result(l.0, m.0));
    lemma_alike_concat(h, k, error_models(l.1@), error_models(m.1@));
    if let Err(e) = l.0 {
        lemma_added_errors_agree(
            h + error_models(l.1@),
            k + error_models(m.1@),
            after,
            other,
            e@,
        );
    }
}

proof fn lemma_loaded_agree<F: Frontend>(
    graph: &F::Graph,
    h: Seq<RichErrorModel>,
    k: Seq<RichErrorModel>,
    r: Result<(Option<F::Parsed>, F::SourceMap), LoadFailure>,
    q: Result<(Option<F::Parsed>, F::SourceMap), LoadFailure>,
    after: Seq<RichErrorModel>,
    other: Seq<RichErrorModel>,
)
    requires
        steady_linking::<F>(),
        all_alike(h, k),
        loaded_outcome::<F>(graph, h, r, after),
        loaded_outcome::<F>(graph, k, q, other),
    ensures
        same_loading::<F>(r, q),
        all_alike(after, other),
{
    let (a, m) = choose|files: Vec<SourceFile>, m: Seq<RichErrorModel>|
        #![trigger files_checked(source_models(files@), h, m)]
        call_ensures(F::graph_files, (graph,), files) && files_checked(
            source_models(files@),
            h,
            m,
        ) && if m.len() == h.len() {
            flattened::<F>(graph, m, r, after)
        } else {
            after == m && (r matches Err(LoadFailure::Reported))
        };
    let (b, n) = choose|files: Vec<SourceFile>, n: Seq<RichErrorModel>|
        #![trigger files_checked(source_models(files@), k, n)]
        call_ensures(F::graph_files, (graph,), files) && files_checked(
            source_models(files@),
            k,
            n,
        ) && if n.len() == k.len() {
            flattened::<F>(graph, n, q, other)
        } else {
            other == n && (q matches Err(LoadFailure::Reported))
        };
    assert(source_models(a@) == source_models(b@));
    lemma_checked_files_agree(source_models(a@), h, k, m, n);
    if m.len() == h.len() {
        lemma_flattenings_agree::<F>(graph, m, n, r, q, after, other);
    }
}

/// Loading a program comes to the same with two sets of files from which the driver loads the
/// same, where the stages answer alike on like arguments.
pub proof fn law_loadings_agree<F: Frontend>(
    source: &SourceFile,
    files: &F::DependencyMap,
    others: &F::DependencyMap,
    features: &UnstableFeatures,
    r: Result<(Option<F::Parsed>, F::SourceMap), LoadFailure>,
    after: Seq<RichErrorModel>,
    q: Result<(Option<F::Parsed>, F::SourceMap), LoadFailure>,
    other: Seq<RichErrorModel>,
)
    requires
        steady_parsing::<F>(),
        steady_linking::<F>(),
        same_graphs::<F>(source, files, others, features),
        dependency_outcome::<F>(source, files, features, Seq::empty(), r, after),
        dependency_outcome::<F>(source, others, features, Seq::empty(), q, other),
    ensures
        same_loading::<F>(r, q),
        all_alike(after, other),
{
    let none = Seq::<RichErrorModel>::empty();
    let (a, h) = choose|parsed: Option<F::Parsed>, h: Seq<RichErrorModel>| #[trigger]
        parse_outcome::<F>(MAIN_MODULE, source@, features@, none, parsed, h) && match parsed {
            None => after == h && (r matches Err(LoadFailure::Reported)),
            Some(program) => graph_outcome::<F>(source, files, &program, features, h, r, after),
        };
    let (b, k) = choose|parsed: Option<F::Parsed>, h: Seq<RichErrorModel>| #[trigger]
        parse_outcome::<F>(MAIN_MODULE, source@, features@, none, parsed, h) && match parsed {
            None => other == h && (q matches Err(LoadFailure::Reported)),
            Some(program) => graph_outcome::<F>(source, others, &program, features, h, q, other),
        };
    law_parses_agree::<F>(MAIN_MODULE, source@, features@, none, a, h, b, k);
    if let Some(program) = a {
        let (f, t, m) = choose|
            g: (Result<Option<F::Graph>, String>, Vec<RichError>),
            taken: Option<F::Graph>,
            m: Seq<RichErrorModel>,
        |
            #![trigger graph_taken(g.0, error_models(g.1@), h, taken, m)]
            call_ensures(F::build_graph, (source, files, &program, features), g) && graph_taken(
                g.0,
                error_models(g.1@),
                h,
                taken,
                m,
            ) && match taken {
                None => after == m && (r matches Err(LoadFailure::Reported)),
                Some(graph) => loaded_outcome::<F>(&graph, m, r, after),
            };
        let (g, u, n) = choose|
            g: (Result<Option<F::Graph>, String>, Vec<RichError>),
            taken: Option<F::Graph>,
            n: Seq<RichErrorModel>,
        |
            #![trigger graph_taken(g.0, error_models(g.1@), k, taken, n)]
            call_ensures(F::build_graph, (source, others, &program, features), g) && graph_taken(
                g.0,
                error_models(g.1@),
                k,
                taken,
                n,
            ) && match taken {
                None => other == n && (q matches Err(LoadFailure::Reported)),
                Some(graph) => loaded_outcome::<F>(&graph, n, q, other),
            };
        assert(same_result(f.0, g.0));
        lemma_alike_concat(h, k, error_models(f.1@), error_models(g.1@));
        if let Err(e) = f.0 {
            lemma_added_errors_agree(
                h + error_models(f.1@),
                k + error_models(g.1@),
                m,
                n,
                e@,
            );
        }
        if let Some(graph) = t {
            lemma_loaded_agree::<F>(&graph, m, n, r, q, after, other);
        }
    }
}

/// A file that the driver does not load changes nothing: two sets of files from which the
/// driver loads the same give the same template, or the same diagnostics.
pub proof fn law_unloaded_files_change_nothing<F: Frontend>(
    source: &SourceFile,
    files: &F::DependencyMap,
    others: &F::DependencyMap,
    features: &UnstableFeatures,
    hinter: F::JetHinter,
    r: Result<TemplateProgram<F>, ErrorCollector>,
    q: Result<TemplateProgram<F>, ErrorCollector>,
)
    requires
        steady_parsing::<F>(),
        steady_linking::<F>(),
        steady_analysis::<F>(),
        same_graphs::<F>(source, files, others, features),
        multi_file_outcome::<F>(source, files, features, hinter, r),
        multi_file_outcome::<F>(source, others, features, hinter, q),
    ensures
        same_templates::<F>(r, q),
{
    let (a, h) = choose|
        d: Result<(Option<F::Parsed>, F::SourceMap), LoadFailure>,
        h: Seq<RichErrorModel>,
    | #[trigger]
        dependency_outcome::<F>(source, files, features, Seq::empty(), d, h) && match d {
            Ok((Some(program), map)) => template_outcome::<F>(
                source@,
                false,
                program,
                hinter,
                map,
                h,
                r,
            ),
            _ => r matches Err(c) && c@ == h,
        };
    let (b, k) = choose|
        d: Result<(Option<F::Parsed>, F::SourceMap), LoadFailure>,
        h: Seq<RichErrorModel>,
    | #[trigger]
        dependency_outcome::<F>(source, others, features, Seq::empty(), d, h) && match d {
            Ok((Some(program), map)) => template_outcome::<F>(
                source@,
                false,
                program,
                hinter,
                map,
                h,
                q,
            ),
            _ => q matches Err(c) && c@ == h,
        };
    law_loadings_agree::<F>(source, files, others, features, a, h, b, k);
    if let Ok((Some(program), map)) = a {
        law_template_outcomes_agree::<F>(source@, false, program, hinter, map, h, k, r, q);
    }
}

} // verus!
