//! Loading a program with the files on which it depends.
use vstd::prelude::*;

use crate::error::{error_models, Error, ErrorCollector, RichError, RichErrorModel, Span};
use crate::frontend::{all_renderable, parser_shows, Frontend, MAIN_MODULE};
use crate::parsing::{
    directive_passes, directive_refused, law_directive_passes_or_is_refused,
    law_parse_errors_are_renderable, law_refused_directive_stops_parsing, parse_after_check,
    parse_outcome,
};
use crate::source::{SourceFile, SourceModel};
use crate::text::utf8_len;
use crate::unstable::UnstableFeatures;
use crate::version::{check_source, checked, law_check_error_is_renderable, source_checked};

verus! {

/// Whether an error says that parsing failed for a reason.
pub open spec fn is_parsing_error(e: RichErrorModel, reason: Seq<char>) -> bool {
    &&& e.error matches Error::CannotParse { msg } && msg@ == reason
    &&& e.span == (Span { start: 0, end: 0 })
    &&& e.source is None
}

/// Whether `after` holds one error more than `before`, which says that parsing failed for a
/// reason.
pub open spec fn adds_parsing_error(
    before: Seq<RichErrorModel>,
    after: Seq<RichErrorModel>,
    reason: Seq<char>,
) -> bool {
    &&& after.len() == before.len() + 1
    &&& after.drop_last() == before
    &&& is_parsing_error(after.last(), reason)
}

/// What becomes of the driver's outcome: its errors are recorded, and a failure is recorded
/// as a parsing error.
pub open spec fn graph_taken<G>(
    built: Result<Option<G>, String>,
    errors: Seq<RichErrorModel>,
    before: Seq<RichErrorModel>,
    r: Option<G>,
    after: Seq<RichErrorModel>,
) -> bool {
    match built {
        Ok(graph) => r == graph && after == before + errors,
        Err(e) => r is None && adds_parsing_error(before + errors, after, e@),
    }
}

/// Record the errors of the driver, and hand its graph on.
pub fn take_graph<G>(
    built: Result<Option<G>, String>,
    errors: Vec<RichError>,
    handler: &mut ErrorCollector,
) -> (r: Option<G>)
    ensures
        graph_taken(built, error_models(errors@), old(handler)@, r, final(handler)@),
{
    handler.append(errors);
    match built {
        Ok(graph) => graph,
        Err(e) => {
            let ghost before = handler@;
            handler.push(RichError::parsing_error(e.as_str()));
            assert(handler@.drop_last() =~= before);
            None
        },
    }
}

/// What becomes of a flattened program: its errors are recorded, and a failure is recorded as
/// a parsing error and handed on.
pub open spec fn linearized_taken<P>(
    linearized: Result<Option<P>, String>,
    errors: Seq<RichErrorModel>,
    before: Seq<RichErrorModel>,
    r: Result<Option<P>, String>,
    after: Seq<RichErrorModel>,
) -> bool {
    match linearized {
        Ok(program) => r == Ok::<Option<P>, String>(program) && after == before + errors,
        Err(e) => r matches Err(text) && text@ == e@ && adds_parsing_error(
            before + errors,
            after,
            e@,
        ),
    }
}

/// Record the errors of flattening, and hand the program on.
pub fn take_linearized<P>(
    linearized: Result<Option<P>, String>,
    errors: Vec<RichError>,
    handler: &mut ErrorCollector,
) -> (r: Result<Option<P>, String>)
    ensures
        linearized_taken(linearized, error_models(errors@), old(handler)@, r, final(handler)@),
{
    handler.append(errors);
    match linearized {
        Ok(program) => Ok(program),
        Err(e) => {
            let ghost before = handler@;
            handler.push(RichError::parsing_error(e.as_str()));
            assert(handler@.drop_last() =~= before);
            Err(e)
        },
    }
}

/// The views of the files.
pub open spec fn source_models(files: Seq<SourceFile>) -> Seq<SourceModel> {
    files.map_values(|f: SourceFile| f@)
}

/// Whether `after` is what becomes of the collected errors `before` when the directives of
/// the files are checked, one after the other.
pub open spec fn files_checked(
    files: Seq<SourceModel>,
    before: Seq<RichErrorModel>,
    after: Seq<RichErrorModel>,
) -> bool
    decreases files.len(),
{
    if files.len() == 0 {
        after == before
    } else {
        exists|mid: Seq<RichErrorModel>|
            files_checked(files.drop_last(), before, mid) && #[trigger] source_checked(
                files.last(),
                mid,
                after,
            )
    }
}

/// Check the directive of each file, and record what is wrong with it.
pub fn check_files(files: &Vec<SourceFile>, handler: &mut ErrorCollector)
    ensures
        files_checked(source_models(files@), old(handler)@, final(handler)@),
{
    let ghost all = source_models(files@);
    let ghost before = handler@;
    let mut i: usize = 0;
    while i < files.len()
        invariant
            i <= files.len(),
            all == source_models(files@),
            files_checked(all.take(i as int), before, handler@),
        decreases files.len() - i,
    {
        let ghost mid = handler@;
        check_source(&files[i], handler);
        proof {
            let done = all.take(i + 1);
            assert(done.drop_last() =~= all.take(i as int));
            assert(source_checked(done.last(), mid, handler@));
        }
        i = i + 1;
    }
    assert(all.take(i as int) =~= all);
}

/// Why no program was loaded.
pub enum LoadFailure {
    /// The collected errors tell.
    Reported,
    /// The files could not be put into one program, for this reason, which is among the
    /// collected errors too.
    Message(String),
}

/// What loading a program and its dependencies comes to: the entry file is parsed, the driver
/// loads what it imports, the directives of the loaded files are checked, and the files are
/// put into one program. The first of these that fails ends it.
pub open spec fn dependency_outcome<F: Frontend>(
    source: &SourceFile,
    dependency_map: &F::DependencyMap,
    features: &UnstableFeatures,
    before: Seq<RichErrorModel>,
    r: Result<(Option<F::Parsed>, F::SourceMap), LoadFailure>,
    after: Seq<RichErrorModel>,
) -> bool {
    exists|parsed: Option<F::Parsed>, h: Seq<RichErrorModel>| #[trigger]
        parse_outcome::<F>(MAIN_MODULE, source@, features@, before, parsed, h) && match parsed {
            None => after == h && (r matches Err(LoadFailure::Reported)),
            Some(program) => graph_outcome::<F>(
                source,
                dependency_map,
                &program,
                features,
                h,
                r,
                after,
            ),
        }
}

/// What loading the dependencies of a parsed program comes to.
pub open spec fn graph_outcome<F: Frontend>(
    source: &SourceFile,
    dependency_map: &F::DependencyMap,
    program: &F::Parsed,
    features: &UnstableFeatures,
    before: Seq<RichErrorModel>,
    r: Result<(Option<F::Parsed>, F::SourceMap), LoadFailure>,
    after: Seq<RichErrorModel>,
) -> bool {
    exists|
        g: (Result<Option<F::Graph>, String>, Vec<RichError>),
        taken: Option<F::Graph>,
        h: Seq<RichErrorModel>,
    |
        #![trigger graph_taken(g.0, error_models(g.1@), before, taken, h)]
        call_ensures(F::build_graph, (source, dependency_map, program, features), g)
            && graph_taken(g.0, error_models(g.1@), before, taken, h) && match taken {
            None => after == h && (r matches Err(LoadFailure::Reported)),
            Some(graph) => loaded_outcome::<F>(&graph, h, r, after),
        }
}

/// What becomes of the loaded files: their directives are checked, and where all of them pass
/// the files are put into one program.
pub open spec fn loaded_outcome<F: Frontend>(
    graph: &F::Graph,
    before: Seq<RichErrorModel>,
    r: Result<(Option<F::Parsed>, F::SourceMap), LoadFailure>,
    after: Seq<RichErrorModel>,
) -> bool {
    exists|files: Vec<SourceFile>, h: Seq<RichErrorModel>|
        #![trigger files_checked(source_models(files@), before, h)]
        call_ensures(F::graph_files, (graph,), files) && files_checked(
            source_models(files@),
            before,
            h,
        ) && if h.len() == before.len() {
            flattened::<F>(graph, h, r, after)
        } else {
            after == h && (r matches Err(LoadFailure::Reported))
        }
}

/// What flattening a graph comes to.
pub open spec fn flattened<F: Frontend>(
    graph: &F::Graph,
    before: Seq<RichErrorModel>,
    r: Result<(Option<F::Parsed>, F::SourceMap), LoadFailure>,
    after: Seq<RichErrorModel>,
) -> bool {
    exists|
        l: (Result<Option<F::Parsed>, String>, Vec<RichError>),
        taken: Result<Option<F::Parsed>, String>,
    |
        #![trigger linearized_taken(l.0, error_models(l.1@), before, taken, after)]
        call_ensures(F::linearize_and_build, (graph,), l) && linearized_taken(
            l.0,
            error_models(l.1@),
            before,
            taken,
            after,
        ) && match taken {
            Ok(program) => r matches Ok((p, map)) && p == program && call_ensures(
                F::graph_source_map,
                (graph,),
                map,
            ),
            Err(text) => r matches Err(LoadFailure::Message(e)) && e@ == text@,
        }
}

/// Where the directive of the entry file is refused, nothing is loaded for it: the error of
/// the check is the only one more.
pub proof fn law_refused_entry_loads_nothing<F: Frontend>(
    source: &SourceFile,
    dependency_map: &F::DependencyMap,
    features: &UnstableFeatures,
    before: Seq<RichErrorModel>,
    d: Result<(Option<F::Parsed>, F::SourceMap), LoadFailure>,
    after: Seq<RichErrorModel>,
)
    requires
        dependency_outcome::<F>(source, dependency_map, features, before, d, after),
        directive_refused(source@.content),
    ensures
        d matches Err(LoadFailure::Reported),
        after.len() == before.len() + 1,
        after.drop_last() == before,
        checked(source@.content, Err((after.last().error, after.last().span))),
        after.last().source == Some(source@),
{
    let (parsed, k) = choose|parsed: Option<F::Parsed>, k: Seq<RichErrorModel>| #[trigger]
        parse_outcome::<F>(MAIN_MODULE, source@, features@, before, parsed, k) && match parsed {
            None => after == k && (d matches Err(LoadFailure::Reported)),
            Some(program) => graph_outcome::<F>(
                source,
                dependency_map,
                &program,
                features,
                k,
                d,
                after,
            ),
        };
    law_refused_directive_stops_parsing::<F>(
        MAIN_MODULE,
        source@,
        features@,
        before,
        parsed,
        k,
    );
}

// ---------------------------------------------------------------------------------------
// The directives of the loaded files
// ---------------------------------------------------------------------------------------

/// Checking the directives of files adds no error exactly where all of them pass, and never
/// takes one away.
pub proof fn law_files_pass_iff_no_error(
    files: Seq<SourceModel>,
    before: Seq<RichErrorModel>,
    after: Seq<RichErrorModel>,
)
    requires
        files_checked(files, before, after),
    ensures
        after.len() >= before.len(),
        after.len() == before.len() <==> forall|i: int|
            0 <= i < files.len() ==> directive_passes((#[trigger] files[i]).content),
        after.len() == before.len() ==> after == before,
    decreases files.len(),
{
    if files.len() > 0 {
        let rest = files.drop_last();
        let last = files.last();
        let mid = choose|mid: Seq<RichErrorModel>|
            files_checked(rest, before, mid) && #[trigger] source_checked(last, mid, after);
        law_files_pass_iff_no_error(rest, before, mid);
        let c = choose|c: Result<(), (Error, Span)>| #[trigger]
            checked(last.content, c) && after == match c {
                Ok(_) => mid,
                Err((error, span)) => mid.push(RichErrorModel { error, span, source: Some(last) }),
            };
        law_directive_passes_or_is_refused(last.content, c);
        assert(files[files.len() - 1] == last);
        if after.len() == before.len() {
            assert forall|i: int| 0 <= i < files.len() implies directive_passes(
                (#[trigger] files[i]).content,
            ) by {
                if i < rest.len() {
                    assert(rest[i] == files[i]);
                }
            }
        } else if c is Ok {
            let i = choose|i: int|
                0 <= i < rest.len() && !directive_passes((#[trigger] rest[i]).content);
            assert(files[i] == rest[i]);
        }
    }
}

/// Whether the driver can load these files for a program.
pub open spec fn loads_files<F: Frontend>(
    source: &SourceFile,
    dependency_map: &F::DependencyMap,
    features: &UnstableFeatures,
    files: Seq<SourceModel>,
) -> bool {
    exists|
        program: F::Parsed,
        h: Seq<RichErrorModel>,
        g: (Result<Option<F::Graph>, String>, Vec<RichError>),
        loaded: Vec<SourceFile>,
    |
        {
            &&& #[trigger] parse_outcome::<F>(
                MAIN_MODULE,
                source@,
                features@,
                Seq::empty(),
                Some(program),
                h,
            )
            &&& #[trigger] call_ensures(
                F::build_graph,
                (source, dependency_map, &program, features),
                g,
            )
            &&& g.0 matches Ok(Some(graph)) && call_ensures(F::graph_files, (&graph,), loaded)
            &&& #[trigger] source_models(loaded@) == files
        }
}

/// Every file of a program is checked: where a program is loaded, the directive of its entry
/// file passes, and so do the directives of all files that were loaded for it.
pub proof fn law_loaded_files_pass<F: Frontend>(
    source: &SourceFile,
    dependency_map: &F::DependencyMap,
    features: &UnstableFeatures,
    d: Result<(Option<F::Parsed>, F::SourceMap), LoadFailure>,
    after: Seq<RichErrorModel>,
)
    requires
        dependency_outcome::<F>(source, dependency_map, features, Seq::empty(), d, after),
        d is Ok,
    ensures
        directive_passes(source@.content),
        exists|files: Seq<SourceModel>| #[trigger]
            loads_files::<F>(source, dependency_map, features, files) && forall|i: int|
                0 <= i < files.len() ==> directive_passes((#[trigger] files[i]).content),
{
    let none = Seq::<RichErrorModel>::empty();
    let (parsed, k) = choose|parsed: Option<F::Parsed>, k: Seq<RichErrorModel>| #[trigger]
        parse_outcome::<F>(MAIN_MODULE, source@, features@, none, parsed, k) && match parsed {
            None => after == k && (d matches Err(LoadFailure::Reported)),
            Some(program) => graph_outcome::<F>(
                source,
                dependency_map,
                &program,
                features,
                k,
                d,
                after,
            ),
        };
    let program = parsed->0;
    let c = choose|c: Result<(), (Error, Span)>| #[trigger]
        checked(source@.content, c) && parse_after_check::<F>(
            MAIN_MODULE,
            source@,
            features@,
            none,
            c,
            parsed,
            k,
        );
    law_directive_passes_or_is_refused(source@.content, c);
    let (g, taken, h) = choose|
        g: (Result<Option<F::Graph>, String>, Vec<RichError>),
        taken: Option<F::Graph>,
        h: Seq<RichErrorModel>,
    |
        #![trigger graph_taken(g.0, error_models(g.1@), k, taken, h)]
        call_ensures(F::build_graph, (source, dependency_map, &program, features), g)
            && graph_taken(g.0, error_models(g.1@), k, taken, h) && match taken {
            None => after == h && (d matches Err(LoadFailure::Reported)),
            Some(graph) => loaded_outcome::<F>(&graph, h, d, after),
        };
    let graph = taken->0;
    let (loaded, h2) = choose|files: Vec<SourceFile>, h2: Seq<RichErrorModel>|
        #![trigger files_checked(source_models(files@), h, h2)]
        call_ensures(F::graph_files, (&graph,), files) && files_checked(
            source_models(files@),
            h,
            h2,
        ) && if h2.len() == h.len() {
            flattened::<F>(&graph, h2, d, after)
        } else {
            after == h2 && (d matches Err(LoadFailure::Reported))
        };
    let files = source_models(loaded@);
    law_files_pass_iff_no_error(files, h, h2);
    assert(parse_outcome::<F>(MAIN_MODULE, source@, features@, none, Some(program), k));
    assert(loads_files::<F>(source, dependency_map, features, files));
}

/// A program is not loaded where its files cannot be without one whose directive is refused.
pub proof fn law_refused_dependency_loads_nothing<F: Frontend>(
    source: &SourceFile,
    dependency_map: &F::DependencyMap,
    features: &UnstableFeatures,
    d: Result<(Option<F::Parsed>, F::SourceMap), LoadFailure>,
    after: Seq<RichErrorModel>,
)
    requires
        dependency_outcome::<F>(source, dependency_map, features, Seq::empty(), d, after),
        forall|files: Seq<SourceModel>| #[trigger]
            loads_files::<F>(source, dependency_map, features, files) ==> exists|i: int|
                0 <= i < files.len() && directive_refused((#[trigger] files[i]).content),
    ensures
        d is Err,
{
    if d is Ok {
        law_loaded_files_pass::<F>(source, dependency_map, features, d, after);
        let files = choose|files: Seq<SourceModel>| #[trigger]
            loads_files::<F>(source, dependency_map, features, files) && forall|i: int|
                0 <= i < files.len() ==> directive_passes((#[trigger] files[i]).content);
        let i = choose|i: int|
            0 <= i < files.len() && directive_refused((#[trigger] files[i]).content);
        assert(directive_passes(files[i].content));
    }
}

// ---------------------------------------------------------------------------------------
// Showing the errors
// ---------------------------------------------------------------------------------------

/// Whether a file can be parsed to a program.
pub open spec fn parses_to<F: Frontend>(
    source: &SourceFile,
    features: &UnstableFeatures,
    program: F::Parsed,
) -> bool {
    exists|h: Seq<RichErrorModel>| #[trigger]
        parse_outcome::<F>(MAIN_MODULE, source@, features@, Seq::empty(), Some(program), h)
}

/// Whether what comes of loaded files can be shown.
pub open spec fn graph_shows<F: Frontend>(graph: &F::Graph) -> bool {
    &&& forall|files: Vec<SourceFile>| #[trigger]
        call_ensures(F::graph_files, (graph,), files) ==> forall|i: int|
            0 <= i < files.len() ==> utf8_len((#[trigger] source_models(files@)[i]).content)
                < usize::MAX
    &&& forall|l: (Result<Option<F::Parsed>, String>, Vec<RichError>)| #[trigger]
        call_ensures(F::linearize_and_build, (graph,), l) ==> all_renderable(error_models(l.1@))
}

/// Whether what the driver says about a program can be shown.
pub open spec fn driver_shows<F: Frontend>(
    source: &SourceFile,
    dependency_map: &F::DependencyMap,
    features: &UnstableFeatures,
) -> bool {
    forall|program: F::Parsed, g: (Result<Option<F::Graph>, String>, Vec<RichError>)|
        parses_to::<F>(source, features, program) && #[trigger] call_ensures(
            F::build_graph,
            (source, dependency_map, &program, features),
            g,
        ) ==> all_renderable(error_models(g.1@)) && (g.0 matches Ok(Some(graph)) ==> graph_shows::<
            F,
        >(&graph))
}

/// Errors without a file can be shown, and so can lists made of errors that can.
proof fn lemma_append_renderable(a: Seq<RichErrorModel>, b: Seq<RichErrorModel>)
    requires
        all_renderable(a),
        all_renderable(b),
    ensures
        all_renderable(a + b),
{
    assert forall|i: int| 0 <= i < (a + b).len() implies (#[trigger] (a + b)[i]).renderable() by {
        if i >= a.len() {
            assert((a + b)[i] == b[i - a.len()]);
        }
    }
}

proof fn lemma_files_checked_renderable(
    files: Seq<SourceModel>,
    before: Seq<RichErrorModel>,
    after: Seq<RichErrorModel>,
)
    requires
        files_checked(files, before, after),
        all_renderable(before),
        forall|i: int|
            0 <= i < files.len() ==> utf8_len((#[trigger] files[i]).content) < usize::MAX,
    ensures
        all_renderable(after),
    decreases files.len(),
{
    if files.len() > 0 {
        let rest = files.drop_last();
        let last = files.last();
        let mid = choose|mid: Seq<RichErrorModel>|
            files_checked(rest, before, mid) && #[trigger] source_checked(last, mid, after);
        assert forall|i: int| 0 <= i < rest.len() implies utf8_len((#[trigger] rest[i]).content)
            < usize::MAX by {
            assert(rest[i] == files[i]);
        }
        lemma_files_checked_renderable(rest, before, mid);
        assert(files[files.len() - 1] == last);
        let c = choose|c: Result<(), (Error, Span)>| #[trigger]
            checked(last.content, c) && after == match c {
                Ok(_) => mid,
                Err((error, span)) => mid.push(RichErrorModel { error, span, source: Some(last) }),
            };
        law_check_error_is_renderable(last, c);
    }
}

proof fn lemma_added_error_renderable(
    before: Seq<RichErrorModel>,
    errors: Seq<RichErrorModel>,
    after: Seq<RichErrorModel>,
    reason: Seq<char>,
)
    requires
        all_renderable(before),
        all_renderable(errors),
        after == before + errors || adds_parsing_error(before + errors, after, reason),
    ensures
        all_renderable(after),
{
    lemma_append_renderable(before, errors);
    if after != before + errors {
        assert forall|i: int| 0 <= i < after.len() implies (#[trigger] after[i]).renderable() by {
            if i < after.len() - 1 {
                assert(after[i] == after.drop_last()[i]);
            }
        }
    }
}

proof fn lemma_flattened_renderable<F: Frontend>(
    graph: &F::Graph,
    before: Seq<RichErrorModel>,
    d: Result<(Option<F::Parsed>, F::SourceMap), LoadFailure>,
    after: Seq<RichErrorModel>,
)
    requires
        flattened::<F>(graph, before, d, after),
        graph_shows::<F>(graph),
        all_renderable(before),
    ensures
        all_renderable(after),
{
    let (l, taken) = choose|
        l: (Result<Option<F::Parsed>, String>, Vec<RichError>),
        taken: Result<Option<F::Parsed>, String>,
    |
        #![trigger linearized_taken(l.0, error_models(l.1@), before, taken, after)]
        call_ensures(F::linearize_and_build, (graph,), l) && linearized_taken(
            l.0,
            error_models(l.1@),
            before,
            taken,
            after,
        ) && match taken {
            Ok(program) => d matches Ok((p, map)) && p == program && call_ensures(
                F::graph_source_map,
                (graph,),
                map,
            ),
            Err(text) => d matches Err(LoadFailure::Message(e)) && e@ == text@,
        };
    let reason = match l.0 {
        Ok(_) => Seq::<char>::empty(),
        Err(e) => e@,
    };
    lemma_added_error_renderable(before, error_models(l.1@), after, reason);
}

/// Where what the parser and the driver say about a program can be shown, all errors can that
/// stand after loading it.
pub proof fn law_loading_errors_are_renderable<F: Frontend>(
    source: &SourceFile,
    dependency_map: &F::DependencyMap,
    features: &UnstableFeatures,
    d: Result<(Option<F::Parsed>, F::SourceMap), LoadFailure>,
    after: Seq<RichErrorModel>,
)
    requires
        dependency_outcome::<F>(source, dependency_map, features, Seq::empty(), d, after),
        parser_shows::<F>(MAIN_MODULE, source@),
        driver_shows::<F>(source, dependency_map, features),
    ensures
        all_renderable(after),
{
    let none = Seq::<RichErrorModel>::empty();
    let (parsed, k) = choose|parsed: Option<F::Parsed>, k: Seq<RichErrorModel>| #[trigger]
        parse_outcome::<F>(MAIN_MODULE, source@, features@, none, parsed, k) && match parsed {
            None => after == k && (d matches Err(LoadFailure::Reported)),
            Some(program) => graph_outcome::<F>(
                source,
                dependency_map,
                &program,
                features,
                k,
                d,
                after,
            ),
        };
    law_parse_errors_are_renderable::<F>(MAIN_MODULE, source@, features@, none, parsed, k);
    if let Some(program) = parsed {
        assert(parses_to::<F>(source, features, program));
        let (g, taken, h) = choose|
            g: (Result<Option<F::Graph>, String>, Vec<RichError>),
            taken: Option<F::Graph>,
            h: Seq<RichErrorModel>,
        |
            #![trigger graph_taken(g.0, error_models(g.1@), k, taken, h)]
            call_ensures(F::build_graph, (source, dependency_map, &program, features), g)
                && graph_taken(g.0, error_models(g.1@), k, taken, h) && match taken {
                None => after == h && (d matches Err(LoadFailure::Reported)),
                Some(graph) => loaded_outcome::<F>(&graph, h, d, after),
            };
        let reason = match g.0 {
            Ok(_) => Seq::<char>::empty(),
            Err(e) => e@,
        };
        lemma_added_error_renderable(k, error_models(g.1@), h, reason);
        if let Some(graph) = taken {
            assert(graph_shows::<F>(&graph));
            let (files, h2) = choose|files: Vec<SourceFile>, h2: Seq<RichErrorModel>|
                #![trigger files_checked(source_models(files@), h, h2)]
                call_ensures(F::graph_files, (&graph,), files) && files_checked(
                    source_models(files@),
                    h,
                    h2,
                ) && if h2.len() == h.len() {
                    flattened::<F>(&graph, h2, d, after)
                } else {
                    after == h2 && (d matches Err(LoadFailure::Reported))
                };
            lemma_files_checked_renderable(source_models(files@), h, h2);
            if h2.len() == h.len() {
                lemma_flattened_renderable::<F>(&graph, h2, d, after);
            }
        }
    }
}

// ---------------------------------------------------------------------------------------
// What becomes of errors
// ---------------------------------------------------------------------------------------

/// Each file whose directive is refused is reported once, in the order of the files, with what
/// the check says and in that file; and nothing else is.
pub proof fn law_each_refused_file_is_reported(
    files: Seq<SourceModel>,
    before: Seq<RichErrorModel>,
    after: Seq<RichErrorModel>,
)
    requires
        files_checked(files, before, after),
    ensures
        ({
            let refused = files.filter(|f: SourceModel| !directive_passes(f.content));
            &&& after.len() == before.len() + refused.len()
            &&& after.take(before.len() as int) == before
            &&& forall|k: int|
                0 <= k < refused.len() ==> after[before.len() + k].source == Some(
                    #[trigger] refused[k],
                ) && checked(
                    refused[k].content,
                    Err((after[before.len() + k].error, after[before.len() + k].span)),
                )
        }),
    decreases files.len(),
{
    reveal(Seq::filter);
    let fails = |f: SourceModel| !directive_passes(f.content);
    let refused = files.filter(fails);
    if files.len() == 0 {
        assert(after.take(before.len() as int) =~= before);
    } else {
        let rest = files.drop_last();
        let last = files.last();
        let mid = choose|mid: Seq<RichErrorModel>|
            files_checked(rest, before, mid) && #[trigger] source_checked(last, mid, after);
        law_each_refused_file_is_reported(rest, before, mid);
        let earlier = rest.filter(fails);
        let c = choose|c: Result<(), (Error, Span)>| #[trigger]
            checked(last.content, c) && after == match c {
                Ok(_) => mid,
                Err((error, span)) => mid.push(RichErrorModel { error, span, source: Some(last) }),
            };
        law_directive_passes_or_is_refused(last.content, c);
        assert(after.take(before.len() as int) =~= mid.take(before.len() as int));
        assert forall|k: int| 0 <= k < refused.len() implies after[before.len() + k].source == Some(
            #[trigger] refused[k],
        ) && checked(
            refused[k].content,
            Err((after[before.len() + k].error, after[before.len() + k].span)),
        ) by {
            if k < earlier.len() {
                assert(refused[k] == earlier[k]);
                assert(after[before.len() + k] == mid[before.len() + k]);
            } else {
                assert(refused[k] == last);
                assert(after[before.len() + k] == after.last());
            }
        }
    }
}

/// What the driver says is kept: its errors stand behind those before, all of them and in
/// order, whether it gives a graph, none or a failure; a failure is told by one error more; and
/// a graph is handed on exactly where it gives one.
pub proof fn law_driver_errors_are_kept<G>(
    built: Result<Option<G>, String>,
    errors: Vec<RichError>,
    before: Seq<RichErrorModel>,
    r: Option<G>,
    after: Seq<RichErrorModel>,
)
    requires
        graph_taken(built, error_models(errors@), before, r, after),
    ensures
        after.len() >= before.len() + errors@.len(),
        after.take(before.len() as int) == before,
        forall|i: int|
            0 <= i < errors@.len() ==> after[before.len() + i] == (#[trigger] errors@[i])@,
        r is Some <==> built matches Ok(Some(_)),
        built matches Ok(graph) ==> r == graph && after.len() == before.len() + errors@.len(),
        built matches Err(e) ==> after.len() == before.len() + errors@.len() + 1 && (
        after.last().error matches Error::CannotParse { msg } && msg@ == e@),
{
    let models = error_models(errors@);
    let kept = before + models;
    assert forall|i: int| 0 <= i < kept.len() implies after[i] == #[trigger] kept[i] by {
        if built is Err {
            assert(after.drop_last()[i] == kept[i]);
        }
    }
    assert forall|i: int| 0 <= i < before.len() implies after[i] == #[trigger] before[i] by {
        assert(kept[i] == before[i]);
    }
    assert(after.take(before.len() as int) =~= before);
    assert forall|i: int| 0 <= i < errors@.len() implies after[before.len() + i] == (
    #[trigger] errors@[i])@ by {
        assert(kept[before.len() + i] == models[i]);
    }
}

/// What flattening says is kept in the same way, and a failure is handed on with its message.
pub proof fn law_flattening_errors_are_kept<P>(
    linearized: Result<Option<P>, String>,
    errors: Vec<RichError>,
    before: Seq<RichErrorModel>,
    r: Result<Option<P>, String>,
    after: Seq<RichErrorModel>,
)
    requires
        linearized_taken(linearized, error_models(errors@), before, r, after),
    ensures
        after.len() >= before.len() + errors@.len(),
        after.take(before.len() as int) == before,
        forall|i: int|
            0 <= i < errors@.len() ==> after[before.len() + i] == (#[trigger] errors@[i])@,
        linearized matches Ok(program) ==> r == Ok::<Option<P>, String>(program) && after.len()
            == before.len() + errors@.len(),
        linearized matches Err(e) ==> (r matches Err(text) && text@ == e@) && after.len()
            == before.len() + errors@.len() + 1 && (after.last().error matches Error::CannotParse {
            msg,
        } && msg@ == e@),
{
    let models = error_models(errors@);
    let kept = before + models;
    assert forall|i: int| 0 <= i < kept.len() implies after[i] == #[trigger] kept[i] by {
        if linearized is Err {
            assert(after.drop_last()[i] == kept[i]);
        }
    }
    assert forall|i: int| 0 <= i < before.len() implies after[i] == #[trigger] before[i] by {
        assert(kept[i] == before[i]);
    }
    assert(after.take(before.len() as int) =~= before);
    assert forall|i: int| 0 <= i < errors@.len() implies after[before.len() + i] == (
    #[trigger] errors@[i])@ by {
        assert(kept[before.len() + i] == models[i]);
    }
}

} // verus!
