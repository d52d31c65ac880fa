//! Programs: from source text to a template, from a template to a compiled program, and from
//! there to a satisfied one.
use std::sync::Arc;

use vstd::prelude::*;

use crate::assignment::{answers, assign, assigned};
use crate::blank::law_undeclared_text_is_unchanged;
use crate::directive::scan;
use crate::error::{error_models, report, ErrorCollector, RichError, RichErrorModel};
use crate::frontend::{all_renderable, parser_shows, Analysis, Frontend, MAIN_MODULE};
use crate::layout::{layout, layout_of, LayoutNode};
use crate::loading::{
    check_files, dependency_outcome, driver_shows, files_checked, graph_taken,
    law_loaded_files_pass, law_loading_errors_are_renderable, law_refused_entry_loads_nothing,
    linearized_taken, loaded_outcome, loads_files, source_models, take_graph, take_linearized,
    LoadFailure,
};
use crate::parsing::{
    directive_passes, directive_refused, errors_after_parsing, law_disabled_feature_is_refused,
    law_more_features_add_nothing, law_more_features_keep_parsed, law_parse_errors_are_renderable,
    law_refused_directive_stops_parsing, parse_after_check, parse_from_str_with_errors,
    parse_outcome, parse_step,
};
use crate::render::renderable;
use crate::source::{SourceFile, SourceModel};
use crate::unstable::{RequireFeature, UnstableFeature, UnstableFeatures};
use crate::version::{checked, current_text, current_version};

verus! {

/// The template of a SimplicityHL program.
///
/// A template has parameterized values that need to be supplied with arguments.
#[derive(Debug)]
pub struct TemplateProgram<F: Frontend> {
    simfony: Analysis<F::Analyzed, F::Parameters, F::WitnessTypes>,
    file: Arc<str>,
    jet_hinter: F::JetHinter,
    source_map: F::SourceMap,
    resolved_program: F::Parsed,
}

/// What becomes of an analysis: an analyzed program, or an error more. The error stands in the
/// file that it names, and in `source` where it names none.
pub open spec fn analysis_taken<A>(
    analyzed: Result<A, RichError>,
    source: SourceModel,
    before: Seq<RichErrorModel>,
    r: Option<A>,
    after: Seq<RichErrorModel>,
) -> bool {
    match analyzed {
        Ok(program) => r == Some(program) && after == before,
        Err(e) => r is None && after == before.push(e@.located(source)),
    }
}

/// Record the error of the analysis, if there is one, and hand its program on.
pub fn take_analysis<A>(
    analyzed: Result<A, RichError>,
    source: &SourceFile,
    handler: &mut ErrorCollector,
) -> (r: Option<A>)
    ensures
        analysis_taken(analyzed, source@, old(handler)@, r, final(handler)@),
{
    match analyzed {
        Ok(program) => Some(program),
        Err(e) => {
            if e.source().is_some() {
                handler.push(e);
            } else {
                handler.push(e.with_source(source.clone()));
            }
            None
        },
    }
}

/// Where an error of the analysis stands: that of a single text in the text, whatever file it
/// names; that of a program with dependencies in the file that it names, or in the entry file
/// where it names none.
pub open spec fn placed(e: RichErrorModel, source: SourceModel, single: bool) -> RichErrorModel {
    if single {
        e.in_source(source)
    } else {
        e.located(source)
    }
}

/// What making a template of a parsed program comes to: the template, where the analysis
/// succeeds, and otherwise the errors so far with that of the analysis. `single` tells whether
/// the program is a single text.
pub open spec fn template_outcome<F: Frontend>(
    source: SourceModel,
    single: bool,
    program: F::Parsed,
    hinter: F::JetHinter,
    map: F::SourceMap,
    before: Seq<RichErrorModel>,
    r: Result<TemplateProgram<F>, ErrorCollector>,
) -> bool {
    exists|a: Result<Analysis<F::Analyzed, F::Parameters, F::WitnessTypes>, RichError>| #[trigger]
        call_ensures(F::analyze, (&program, &hinter), a) && match a {
            Ok(analysis) => r matches Ok(t) && t.is(analysis, source.content, hinter, map, program),
            Err(e) => r matches Err(c) && c@ == before.push(placed(e@, source, single)),
        }
}

/// What making a template of a single text comes to.
pub open spec fn single_file_outcome<F: Frontend>(
    content: Seq<char>,
    enabled: Seq<UnstableFeature>,
    hinter: F::JetHinter,
    r: Result<TemplateProgram<F>, ErrorCollector>,
) -> bool {
    let source = SourceModel { name: None, content };
    exists|parsed: Option<F::Parsed>, h: Seq<RichErrorModel>| #[trigger]
        parse_outcome::<F>(MAIN_MODULE, source, enabled, Seq::empty(), parsed, h)
            && match parsed {
            None => r matches Err(c) && c@ == h,
            Some(program) => exists|map: F::SourceMap| #[trigger]
                call_ensures(F::SourceMap::default, (), map) && template_outcome::<F>(
                    source,
                    true,
                    program,
                    hinter,
                    map,
                    h,
                    r,
                ),
        }
}

/// What making a template of what `s` gives as text comes to.
pub open spec fn template_text_outcome<F: Frontend, Str: Into<Arc<str>>>(
    s: Str,
    enabled: Seq<UnstableFeature>,
    hinter: F::JetHinter,
    r: Result<TemplateProgram<F>, ErrorCollector>,
) -> bool {
    exists|file: Arc<str>| #[trigger]
        call_ensures(Str::into, (s,), file) && single_file_outcome::<F>(
            (*file)@,
            enabled,
            hinter,
            r,
        )
}

/// What making a template of a program with dependencies comes to.
pub open spec fn multi_file_outcome<F: Frontend>(
    source: &SourceFile,
    dependency_map: &F::DependencyMap,
    features: &UnstableFeatures,
    hinter: F::JetHinter,
    r: Result<TemplateProgram<F>, ErrorCollector>,
) -> bool {
    exists|
        d: Result<(Option<F::Parsed>, F::SourceMap), LoadFailure>,
        h: Seq<RichErrorModel>,
    | #[trigger]
        dependency_outcome::<F>(source, dependency_map, features, Seq::empty(), d, h) && match d {
            Ok((Some(program), map)) => template_outcome::<F>(
                source@,
                false,
                program,
                hinter,
                map,
                h,
                r,
            ),
            _ => r matches Err(c) && c@ == h,
        }
}

/// What flattening a program with dependencies comes to: the text of the one program, or the
/// errors.
pub open spec fn flatten_outcome<F: Frontend>(
    source: &SourceFile,
    dependency_map: &F::DependencyMap,
    features: &UnstableFeatures,
    r: Result<String, String>,
) -> bool {
    exists|
        d: Result<(Option<F::Parsed>, F::SourceMap), LoadFailure>,
        h: Seq<RichErrorModel>,
    | #[trigger]
        dependency_outcome::<F>(source, dependency_map, features, Seq::empty(), d, h) && match d {
            Ok((Some(program), map)) => r matches Ok(text) && call_ensures(
                F::program_text,
                (&program,),
                text,
            ),
            Ok((None, map)) => r matches Err(text) && text@ == report(h),
            Err(LoadFailure::Reported) => r matches Err(text) && text@ == report(h),
            Err(LoadFailure::Message(e)) => r matches Err(text) && text@ == e@,
        }
}

/// Whether what is reported of a program that is flattened can be shown.
pub open spec fn flatten_shows<F: Frontend>(
    source: &SourceFile,
    dependency_map: &F::DependencyMap,
    features: &UnstableFeatures,
) -> bool {
    forall|
        d: Result<(Option<F::Parsed>, F::SourceMap), LoadFailure>,
        h: Seq<RichErrorModel>,
    | #[trigger]
        dependency_outcome::<F>(source, dependency_map, features, Seq::empty(), d, h) && (
        d matches Ok((None, map)) || d matches Err(LoadFailure::Reported)) ==> all_renderable(h)
}

/// Whether a failure to translate the template can be shown in its file.
pub open spec fn translation_shows<F: Frontend>(
    template: TemplateProgram<F>,
    arguments: F::Arguments,
    include_debug_symbols: bool,
) -> bool {
    forall|c: Result<F::Commit, RichError>| #[trigger]
        call_ensures(
            F::compile,
            (&template.ast(), arguments, include_debug_symbols, &template.hinter()),
            c,
        ) ==> (c matches Err(e) ==> renderable(template.text(), e@.span))
}

/// Whether what is reported of a program with dependencies that is compiled can be shown: the
/// errors of making a template of it, and a failure to translate the template.
pub open spec fn program_shows<F: Frontend>(
    source: &SourceFile,
    dependency_map: &F::DependencyMap,
    features: &UnstableFeatures,
    arguments: F::Arguments,
    include_debug_symbols: bool,
    hinter: F::JetHinter,
) -> bool {
    &&& forall|c: ErrorCollector| #[trigger]
        multi_file_outcome::<F>(source, dependency_map, features, hinter, Err(c))
            ==> all_renderable(c@)
    &&& forall|t: TemplateProgram<F>| #[trigger]
        multi_file_outcome::<F>(source, dependency_map, features, hinter, Ok(t))
            ==> translation_shows::<F>(t, arguments, include_debug_symbols)
}

/// Whether what is reported of a text that is compiled can be shown: the errors of making a
/// template of it, and a failure to translate the template.
pub open spec fn text_shows<F: Frontend, Str: Into<Arc<str>>>(
    s: Str,
    enabled: Seq<UnstableFeature>,
    arguments: F::Arguments,
    include_debug_symbols: bool,
    hinter: F::JetHinter,
) -> bool {
    &&& forall|c: ErrorCollector| #[trigger]
        template_text_outcome::<F, Str>(s, enabled, hinter, Err(c)) ==> all_renderable(c@)
    &&& forall|t: TemplateProgram<F>| #[trigger]
        template_text_outcome::<F, Str>(s, enabled, hinter, Ok(t)) ==> translation_shows::<F>(
            t,
            arguments,
            include_debug_symbols,
        )
}

impl<F: Frontend> TemplateProgram<F> {
    /// The outcome of the analysis.
    pub closed spec fn analysis(&self) -> Analysis<F::Analyzed, F::Parameters, F::WitnessTypes> {
        self.simfony
    }

    /// The analyzed program.
    pub open spec fn ast(&self) -> F::Analyzed {
        self.analysis().program
    }

    /// The parameters of the program.
    pub open spec fn declared_parameters(&self) -> F::Parameters {
        *self.analysis().parameters
    }

    /// The witnesses of the program.
    pub open spec fn declared_witnesses(&self) -> F::WitnessTypes {
        *self.analysis().witness_types
    }

    /// The text of the entry file.
    pub closed spec fn text(&self) -> Seq<char> {
        (*self.file)@
    }

    /// What tells which jets there are.
    pub closed spec fn hinter(&self) -> F::JetHinter {
        self.jet_hinter
    }

    /// Where the items of the program come from.
    pub closed spec fn map(&self) -> F::SourceMap {
        self.source_map
    }

    /// The program in one piece, as it was parsed.
    pub closed spec fn program(&self) -> F::Parsed {
        self.resolved_program
    }

    /// Whether the template is made of these parts.
    pub open spec fn is(
        &self,
        analysis: Analysis<F::Analyzed, F::Parameters, F::WitnessTypes>,
        text: Seq<char>,
        hinter: F::JetHinter,
        map: F::SourceMap,
        program: F::Parsed,
    ) -> bool {
        &&& self.analysis() == analysis
        &&& self.text() == text
        &&& self.hinter() == hinter
        &&& self.map() == map
        &&& self.program() == program
    }

    /// Parse the entry file, load its dependencies, check their directives and put them into
    /// one program.
    fn dependency_helper(
        source: &SourceFile,
        dependency_map: &F::DependencyMap,
        unstable_features: &UnstableFeatures,
        handler: &mut ErrorCollector,
    ) -> (r: Result<(Option<F::Parsed>, F::SourceMap), LoadFailure>)
        ensures
            dependency_outcome::<F>(
                source,
                dependency_map,
                unstable_features,
                old(handler)@,
                r,
                final(handler)@,
            ),
    {
        let parsed = parse_from_str_with_errors::<F>(
            MAIN_MODULE,
            source,
            unstable_features,
            handler,
        );
        let ghost h1 = handler@;
        let program = match parsed {
            Some(program) => program,
            None => {
                return Err(LoadFailure::Reported);
            },
        };
        let g = F::build_graph(source, dependency_map, &program, unstable_features);
        let ghost built = g;
        let taken = take_graph(g.0, g.1, handler);
        let ghost h2 = handler@;
        let ghost taken_graph = taken;
        assert(graph_taken(built.0, error_models(built.1@), h1, taken_graph, h2));
        let graph = match taken {
            Some(graph) => graph,
            None => {
                return Err(LoadFailure::Reported);
            },
        };
        let files = F::graph_files(&graph);
        let count = handler.get().len();
        check_files(&files, handler);
        let ghost h3 = handler@;
        assert(files_checked(source_models(files@), h2, h3));
        if handler.get().len() != count {
            assert(loaded_outcome::<F>(&graph, h2, Err(LoadFailure::Reported), handler@));
            return Err(LoadFailure::Reported);
        }
        let l = F::linearize_and_build(&graph);
        let ghost linearized = l;
        let taken = take_linearized(l.0, l.1, handler);
        assert(linearized_taken(
            linearized.0,
            error_models(linearized.1@),
            h3,
            taken,
            handler@,
        ));
        match taken {
            Ok(program) => {
                let r: Result<(Option<F::Parsed>, F::SourceMap), LoadFailure> = Ok(
                    (program, F::graph_source_map(&graph)),
                );
                assert(loaded_outcome::<F>(&graph, h2, r, handler@));
                r
            },
            Err(text) => {
                let r: Result<(Option<F::Parsed>, F::SourceMap), LoadFailure> = Err(
                    LoadFailure::Message(text),
                );
                assert(loaded_outcome::<F>(&graph, h2, r, handler@));
                r
            },
        }
    }

    /// Analyze a parsed program and make a template of it.
    fn analyze_template(
        program: F::Parsed,
        source: &SourceFile,
        jet_hinter: F::JetHinter,
        source_map: F::SourceMap,
        handler: ErrorCollector,
        single: bool,
    ) -> (r: Result<TemplateProgram<F>, ErrorCollector>)
        requires
            single ==> source@.name is None,
        ensures
            template_outcome::<F>(source@, single, program, jet_hinter, source_map, handler@, r),
    {
        let mut handler = handler;
        let ghost before = handler@;
        let analyzed = F::analyze(&program, &jet_hinter);
        let ghost a = analyzed;
        let analyzed = match analyzed {
            Err(e) if single => Err(e.with_content(source.content())),
            analyzed => analyzed,
        };
        match take_analysis(analyzed, source, &mut handler) {
            Some(simfony) => {
                let t = TemplateProgram {
                    simfony,
                    file: source.content(),
                    jet_hinter,
                    source_map,
                    resolved_program: program,
                };
                assert(t.is(simfony, source@.content, jet_hinter, source_map, program));
                Ok(t)
            },
            None => {
                assert(handler@ == before.push(placed((a->Err_0)@, source@, single)));
                Err(handler)
            },
        }
    }

    /// Parses and flattens a multi-file program into a single enriched program with all
    /// imports resolved: the entry file's items stay at the top level and each dependency
    /// file is wrapped in a `unit_N` module, so the flattened output is itself a valid entry
    /// file.
    ///
    /// ## Errors
    ///
    /// The string is not a valid SimplicityHL program.
    pub fn flatten(
        source: SourceFile,
        dependency_map: &F::DependencyMap,
        unstable_features: &UnstableFeatures,
    ) -> (r: Result<String, String>)
        requires
            flatten_shows::<F>(&source, dependency_map, unstable_features),
        ensures
            flatten_outcome::<F>(&source, dependency_map, unstable_features, r),
    {
        let mut error_handler = ErrorCollector::new();
        let d = Self::dependency_helper(
            &source,
            dependency_map,
            unstable_features,
            &mut error_handler,
        );
        let ghost outcome = d;
        assert(dependency_outcome::<F>(
            &source,
            dependency_map,
            unstable_features,
            Seq::empty(),
            outcome,
            error_handler@,
        ));
        match d {
            Ok((Some(program), _)) => Ok(F::program_text(&program)),
            Ok((None, _)) => Err(error_handler.to_string()),
            Err(LoadFailure::Reported) => Err(error_handler.to_string()),
            Err(LoadFailure::Message(text)) => Err(text),
        }
    }

    /// Parse the template of a SimplicityHL program.
    ///
    /// ## Errors
    ///
    /// The string is not a valid SimplicityHL program.
    pub fn new_with_dep(
        source: SourceFile,
        dependency_map: &F::DependencyMap,
        unstable_features: &UnstableFeatures,
        jet_hinter: F::JetHinter,
    ) -> (r: Result<TemplateProgram<F>, ErrorCollector>)
        ensures
            multi_file_outcome::<F>(&source, dependency_map, unstable_features, jet_hinter, r),
    {
        let mut error_handler = ErrorCollector::new();
        let d = Self::dependency_helper(
            &source,
            dependency_map,
            unstable_features,
            &mut error_handler,
        );
        let ghost outcome = d;
        assert(dependency_outcome::<F>(
            &source,
            dependency_map,
            unstable_features,
            Seq::empty(),
            outcome,
            error_handler@,
        ));
        match d {
            Ok((Some(program), source_map)) => Self::analyze_template(
                program,
                &source,
                jet_hinter,
                source_map,
                error_handler,
                false,
            ),
            _ => Err(error_handler),
        }
    }

    /// Parse the template of a SimplicityHL program.
    ///
    /// ## Errors
    ///
    /// The string is not a valid SimplicityHL program.
    pub fn new<Str: Into<Arc<str>>>(s: Str, jet_hinter: F::JetHinter) -> (r: Result<
        TemplateProgram<F>,
        ErrorCollector,
    >)
        ensures
            template_text_outcome::<F, Str>(s, Seq::empty(), jet_hinter, r),
    {
        let none = UnstableFeatures::none();
        Self::new_with_unstable(s, &none, jet_hinter)
    }

    /// Like `new`, but rejects any unstable feature used by the program that is not enabled
    /// in `unstable_features`.
    pub fn new_with_unstable<Str: Into<Arc<str>>>(
        s: Str,
        unstable_features: &UnstableFeatures,
        jet_hinter: F::JetHinter,
    ) -> (r: Result<TemplateProgram<F>, ErrorCollector>)
        ensures
            template_text_outcome::<F, Str>(s, unstable_features@, jet_hinter, r),
    {
        let ghost given = s;
        let file: Arc<str> = s.into();
        assert(call_ensures(Str::into, (given,), file));
        let source = SourceFile::anonymous(file.clone());
        let mut error_handler = ErrorCollector::new();
        let parsed = parse_from_str_with_errors::<F>(
            MAIN_MODULE,
            &source,
            unstable_features,
            &mut error_handler,
        );
        let ghost outcome = parsed;
        assert(parse_outcome::<F>(
            MAIN_MODULE,
            SourceModel { name: None, content: (*file)@ },
            unstable_features@,
            Seq::empty(),
            outcome,
            error_handler@,
        ));
        match parsed {
            Some(program) => {
                let source_map = F::SourceMap::default();
                Self::analyze_template(
                    program,
                    &source,
                    jet_hinter,
                    source_map,
                    error_handler,
                    true,
                )
            },
            None => Err(error_handler),
        }
    }

    /// The version of the compiler that produced this program: this crate's version.
    /// Meaningful for consumers that hold programs from multiple linked compiler versions
    /// (different compiler versions can produce different CMRs from the same source); the
    /// version itself is metadata and is not part of the program.
    pub fn compiler_version(&self) -> (r: &'static str)
        ensures
            r@ == current_text(),
    {
        current_version()
    }

    /// Access the parameters of the program.
    pub fn parameters(&self) -> (r: &F::Parameters)
        ensures
            *r == self.declared_parameters(),
    {
        &self.simfony.parameters
    }

    /// Access the witness types of the program.
    pub fn witness_types(&self) -> (r: &F::WitnessTypes)
        ensures
            *r == self.declared_witnesses(),
    {
        &self.simfony.witness_types
    }

    /// Instantiate the template program with the given `arguments`.
    ///
    /// ## Errors
    ///
    /// The arguments are not consistent with the parameters of the program. Use
    /// `TemplateProgram::parameters` to see which parameters the program has.
    pub fn instantiate(&self, arguments: F::Arguments, include_debug_symbols: bool) -> (r: Result<
        CompiledProgram<F>,
        String,
    >)
        requires
            translation_shows::<F>(*self, arguments, include_debug_symbols),
        ensures
            instantiate_outcome::<F>(*self, arguments, include_debug_symbols, r),
    {
        let consistent = F::arguments_consistent(&arguments, &self.simfony.parameters);
        match consistent {
            Ok(_) => {},
            Err(e) => {
                return Err(e);
            },
        }
        let compiled = F::compile(
            &self.simfony.program,
            arguments,
            include_debug_symbols,
            &self.jet_hinter,
        );
        let commit = match compiled {
            Ok(commit) => commit,
            Err(e) => {
                return Err(e.with_content(self.file.clone()).to_string());
            },
        };
        let file: &str = &self.file;
        let debug_symbols = Arc::new(F::debug_symbols(&self.simfony.program, file));
        let r = CompiledProgram {
            simplicity: commit,
            witness_types: self.simfony.witness_types.clone(),
            debug_symbols,
            parameter_types: self.simfony.parameters.clone(),
        };
        assert(call_ensures(F::debug_symbols, (&self.ast(), file), r.symbols()));
        Ok(r)
    }

    /// The interface of the program: its witnesses and parameters.
    pub fn generate_abi_meta(&self) -> (r: Result<AbiMeta<F>, String>)
        ensures
            r matches Ok(abi) && abi.describes(
                self.declared_witnesses(),
                self.declared_parameters(),
            ),
    {
        Ok(
            AbiMeta {
                witness_types: self.simfony.witness_types.clone(),
                param_types: self.simfony.parameters.clone(),
            },
        )
    }

    /// Where the items of the program come from.
    pub fn source_map(&self) -> (r: &F::SourceMap)
        ensures
            *r == self.map(),
    {
        &self.source_map
    }

    /// The program in one piece, as it was parsed.
    pub fn resolved_program(&self) -> (r: &F::Parsed)
        ensures
            *r == self.program(),
    {
        &self.resolved_program
    }
}

/// What instantiating a template comes to: arguments that do not fit the parameters are
/// refused with the message for them; a failure of the translation is shown in the file; and
/// otherwise the compiled program carries what the template tells of itself.
pub open spec fn instantiate_outcome<F: Frontend>(
    template: TemplateProgram<F>,
    arguments: F::Arguments,
    include_debug_symbols: bool,
    r: Result<CompiledProgram<F>, String>,
) -> bool {
    exists|consistent: Result<(), String>| #[trigger]
        call_ensures(
            F::arguments_consistent,
            (&arguments, &template.declared_parameters()),
            consistent,
        ) && match consistent {
            Err(e) => r matches Err(text) && text@ == e@,
            Ok(_) => compile_outcome::<F>(template, arguments, include_debug_symbols, r),
        }
}

/// What translating a template comes to.
pub open spec fn compile_outcome<F: Frontend>(
    template: TemplateProgram<F>,
    arguments: F::Arguments,
    include_debug_symbols: bool,
    r: Result<CompiledProgram<F>, String>,
) -> bool {
    exists|c: Result<F::Commit, RichError>| #[trigger]
        call_ensures(
            F::compile,
            (&template.ast(), arguments, include_debug_symbols, &template.hinter()),
            c,
        ) && match c {
            Err(e) => r matches Err(text) && text@ == e@.in_source(
                SourceModel { name: None, content: template.text() },
            ).text(),
            Ok(commit) => r matches Ok(program) && program.commitment() == commit
                && program.witnesses() == template.declared_witnesses() && program.parameters()
                == template.declared_parameters() && exists|file: &str| #[trigger]
                call_ensures(F::debug_symbols, (&template.ast(), file), program.symbols()) && file@
                    == template.text(),
        }
}

/// A SimplicityHL program, compiled to Simplicity.
#[derive(Clone, Debug)]
pub struct CompiledProgram<F: Frontend> {
    simplicity: F::Commit,
    witness_types: Arc<F::WitnessTypes>,
    debug_symbols: Arc<F::DebugSymbols>,
    parameter_types: Arc<F::Parameters>,
}

/// What satisfying a compiled program comes to: witness values that do not fit are refused
/// with the message for them, and so is a program that cannot be filled or pruned.
pub open spec fn satisfy_outcome<F: Frontend>(
    program: CompiledProgram<F>,
    witness_values: F::WitnessValues,
    env: Option<&F::Env>,
    r: Result<SatisfiedProgram<F>, String>,
) -> bool {
    exists|consistent: Result<(), String>| #[trigger]
        call_ensures(
            F::witnesses_consistent,
            (&witness_values, &program.witnesses()),
            consistent,
        ) && match consistent {
            Err(e) => r matches Err(text) && text@ == e@,
            Ok(_) => fill_outcome::<F>(program, witness_values, env, r),
        }
}

/// What filling a compiled program comes to: each entry of its witness layout is given the
/// value of its name, and the values are put into the witness nodes in that order.
pub open spec fn fill_outcome<F: Frontend>(
    program: CompiledProgram<F>,
    witness_values: F::WitnessValues,
    env: Option<&F::Env>,
    r: Result<SatisfiedProgram<F>, String>,
) -> bool {
    exists|nodes: Vec<LayoutNode<F::Final>>, values: Result<Vec<Arc<F::Value>>, String>|
        #![trigger assigned::<F>(witness_values, layout(nodes@), values)]
        call_ensures(F::post_order, (&program.commitment(),), nodes) && assigned::<F>(
            witness_values,
            layout(nodes@),
            values,
        ) && match values {
            Err(e) => r matches Err(text) && text@ == e@,
            Ok(values) => exists|p: Result<F::Redeem, String>| #[trigger]
                call_ensures(F::populate_witnesses, (&program.commitment(), values), p) && match p {
                    Err(e) => r matches Err(text) && text@ == e@,
                    Ok(redeem) => prune_outcome::<F>(program, redeem, env, r),
                },
        }
}

/// What the witness layout of a program comes to: the names and types of its witness nodes, in
/// post order.
pub open spec fn layout_outcome<F: Frontend>(
    program: CompiledProgram<F>,
    entries: Seq<(String, F::Final)>,
) -> bool {
    exists|nodes: Vec<LayoutNode<F::Final>>| #[trigger]
        call_ensures(F::post_order, (&program.commitment(),), nodes) && entries == layout(nodes@)
}

/// What pruning a program comes to. Without an environment, it stays as it is. The debug
/// symbols are those of the compiled program.
pub open spec fn prune_outcome<F: Frontend>(
    program: CompiledProgram<F>,
    redeem: F::Redeem,
    env: Option<&F::Env>,
    r: Result<SatisfiedProgram<F>, String>,
) -> bool {
    match env {
        None => r matches Ok(s) && s.redemption() == redeem && s.symbols() == program.symbols(),
        Some(env) => exists|p: Result<F::Redeem, String>| #[trigger]
            call_ensures(F::prune, (redeem, env), p) && match p {
                Err(e) => r matches Err(text) && text@ == e@,
                Ok(pruned) => r matches Ok(s) && s.redemption() == pruned && s.symbols()
                    == program.symbols(),
            },
    }
}

/// What compiling a text comes to: the errors of making a template are shown, and a template
/// is instantiated.
pub open spec fn compile_text_outcome<F: Frontend, Str: Into<Arc<str>>>(
    s: Str,
    enabled: Seq<UnstableFeature>,
    arguments: F::Arguments,
    include_debug_symbols: bool,
    hinter: F::JetHinter,
    r: Result<CompiledProgram<F>, String>,
) -> bool {
    exists|t: Result<TemplateProgram<F>, ErrorCollector>| #[trigger]
        template_text_outcome::<F, Str>(s, enabled, hinter, t) && match t {
            Err(c) => r matches Err(text) && text@ == report(c@),
            Ok(template) => instantiate_outcome::<F>(template, arguments, include_debug_symbols, r),
        }
}

impl<F: Frontend> CompiledProgram<F> {
    /// The target code.
    pub closed spec fn commitment(&self) -> F::Commit {
        self.simplicity
    }

    /// The witnesses of the program.
    pub closed spec fn witnesses(&self) -> F::WitnessTypes {
        *self.witness_types
    }

    /// The debug symbols of the program.
    pub closed spec fn symbols(&self) -> F::DebugSymbols {
        *self.debug_symbols
    }

    /// The parameters of the program.
    pub closed spec fn parameters(&self) -> F::Parameters {
        *self.parameter_types
    }

    /// Parse and compile a SimplicityHL program from the given source file and its
    /// dependencies.
    ///
    /// ## See
    ///
    /// - `TemplateProgram::new_with_dep`
    /// - `TemplateProgram::instantiate`
    pub fn new_with_dep(
        source: SourceFile,
        dependency_map: &F::DependencyMap,
        unstable_features: &UnstableFeatures,
        arguments: F::Arguments,
        include_debug_symbols: bool,
        jet_hinter: F::JetHinter,
    ) -> (r: Result<CompiledProgram<F>, String>)
        requires
            program_shows::<F>(
                &source,
                dependency_map,
                unstable_features,
                arguments,
                include_debug_symbols,
                jet_hinter,
            ),
        ensures
            exists|t: Result<TemplateProgram<F>, ErrorCollector>| #[trigger]
                multi_file_outcome::<F>(&source, dependency_map, unstable_features, jet_hinter, t)
                    && match t {
                    Err(c) => r matches Err(text) && text@ == report(c@),
                    Ok(template) => instantiate_outcome::<F>(
                        template,
                        arguments,
                        include_debug_symbols,
                        r,
                    ),
                },
    {
        let ghost given = source;
        let template = TemplateProgram::<F>::new_with_dep(
            source,
            dependency_map,
            unstable_features,
            jet_hinter,
        );
        let ghost t = template;
        assert(multi_file_outcome::<F>(&given, dependency_map, unstable_features, jet_hinter, t));
        match template {
            Ok(template) => template.instantiate(arguments, include_debug_symbols),
            Err(e) => Err(e.to_string()),
        }
    }

    /// Parse and compile a SimplicityHL program from the given string.
    ///
    /// ## See
    ///
    /// - `TemplateProgram::new`
    /// - `TemplateProgram::instantiate`
    pub fn new<Str: Into<Arc<str>>>(
        s: Str,
        arguments: F::Arguments,
        include_debug_symbols: bool,
        jet_hinter: F::JetHinter,
    ) -> (r: Result<CompiledProgram<F>, String>)
        requires
            text_shows::<F, Str>(
                s,
                Seq::empty(),
                arguments,
                include_debug_symbols,
                jet_hinter,
            ),
        ensures
            compile_text_outcome::<F, Str>(
                s,
                Seq::empty(),
                arguments,
                include_debug_symbols,
                jet_hinter,
                r,
            ),
    {
        let none = UnstableFeatures::none();
        Self::new_with_unstable(s, &none, arguments, include_debug_symbols, jet_hinter)
    }

    /// Like `new`, but rejects any unstable feature used by the program that is not enabled
    /// in `unstable_features`.
    pub fn new_with_unstable<Str: Into<Arc<str>>>(
        s: Str,
        unstable_features: &UnstableFeatures,
        arguments: F::Arguments,
        include_debug_symbols: bool,
        jet_hinter: F::JetHinter,
    ) -> (r: Result<CompiledProgram<F>, String>)
        requires
            text_shows::<F, Str>(
                s,
                unstable_features@,
                arguments,
                include_debug_symbols,
                jet_hinter,
            ),
        ensures
            compile_text_outcome::<F, Str>(
                s,
                unstable_features@,
                arguments,
                include_debug_symbols,
                jet_hinter,
                r,
            ),
    {
        let ghost given = s;
        let template = TemplateProgram::<F>::new_with_unstable(s, unstable_features, jet_hinter);
        let ghost t = template;
        assert(template_text_outcome::<F, Str>(given, unstable_features@, jet_hinter, t));
        match template {
            Ok(template) => template.instantiate(arguments, include_debug_symbols),
            Err(e) => Err(e.to_string()),
        }
    }

    /// Access the debug symbols for the Simplicity target code.
    pub fn debug_symbols(&self) -> (r: &F::DebugSymbols)
        ensures
            *r == self.symbols(),
    {
        &self.debug_symbols
    }

    /// Access the Simplicity target code, without witness data.
    pub fn commit(&self) -> (r: F::Unnamed)
        ensures
            call_ensures(F::forget_names, (&self.commitment(),), r),
    {
        F::forget_names(&self.simplicity)
    }

    /// The version of the compiler that produced this program: this crate's version. See
    /// `TemplateProgram::compiler_version`.
    pub fn compiler_version(&self) -> (r: &'static str)
        ensures
            r@ == current_text(),
    {
        current_version()
    }

    /// The witness layout of the program: the name and Simplicity value type of every witness
    /// node, in the post order in which the nodes occur in the Simplicity target code.
    ///
    /// This is the contract for external tooling that satisfies a program without this
    /// compiler's frontend: witness nodes are never shared at commitment time, and
    /// `Self::commit` preserves node order, so the `k`-th witness node encountered in post
    /// order takes a value of the type described by the `k`-th entry of this layout. A name
    /// can appear in several entries when the program references the same witness more than
    /// once; every occurrence takes the same value, exactly as `Self::satisfy` assigns it.
    pub fn witness_layout(&self) -> (r: Vec<(String, F::Final)>)
        ensures
            layout_outcome::<F>(*self, r@),
    {
        let nodes = F::post_order(&self.simplicity);
        assert(call_ensures(F::post_order, (&self.commitment(),), nodes));
        layout_of(nodes)
    }

    /// Satisfy the SimplicityHL program with the given `witness_values`.
    ///
    /// ## Errors
    ///
    /// - Witness values have a different type than declared in the SimplicityHL program.
    /// - There are missing witness values.
    pub fn satisfy(&self, witness_values: F::WitnessValues) -> (r: Result<
        SatisfiedProgram<F>,
        String,
    >)
        ensures
            satisfy_outcome::<F>(*self, witness_values, None, r),
    {
        self.satisfy_with_env(witness_values, None)
    }

    /// Satisfy the SimplicityHL program with the given `witness_values`. If `env` is `None`,
    /// the program is not pruned, otherwise it is pruned with the given environment.
    ///
    /// ## Errors
    ///
    /// - Witness values have a different type than declared in the SimplicityHL program.
    /// - There are missing witness values.
    pub fn satisfy_with_env(&self, witness_values: F::WitnessValues, env: Option<&F::Env>) -> (r:
        Result<SatisfiedProgram<F>, String>)
        ensures
            satisfy_outcome::<F>(*self, witness_values, env, r),
    {
        let consistent = F::witnesses_consistent(&witness_values, &self.witness_types);
        match consistent {
            Ok(_) => {},
            Err(e) => {
                return Err(e);
            },
        }
        let nodes = F::post_order(&self.simplicity);
        let ghost given = nodes@;
        assert(call_ensures(F::post_order, (&self.commitment(),), nodes));
        let entries = layout_of(nodes);
        let assignment = assign::<F>(&witness_values, &entries);
        assert(assigned::<F>(witness_values, layout(given), assignment));
        let values = match assignment {
            Ok(values) => values,
            Err(e) => {
                return Err(e);
            },
        };
        let populated = F::populate_witnesses(&self.simplicity, values);
        let redeem = match populated {
            Ok(redeem) => redeem,
            Err(e) => {
                return Err(e);
            },
        };
        let simplicity = match env {
            None => redeem,
            Some(env) => match F::prune(redeem, env) {
                Ok(pruned) => pruned,
                Err(e) => {
                    return Err(e);
                },
            },
        };
        Ok(SatisfiedProgram { simplicity, debug_symbols: self.debug_symbols.clone() })
    }

    /// The interface of the program: its witnesses and parameters.
    pub fn generate_abi_meta(&self) -> (r: Result<AbiMeta<F>, String>)
        ensures
            r matches Ok(abi) && abi.describes(self.witnesses(), self.parameters()),
    {
        Ok(
            AbiMeta {
                witness_types: self.witness_types.clone(),
                param_types: self.parameter_types.clone(),
            },
        )
    }
}

/// The interface of a program: its witnesses and parameters.
#[derive(Clone, Debug, Eq, PartialEq)]
pub struct AbiMeta<F: Frontend> {
    pub witness_types: Arc<F::WitnessTypes>,
    pub param_types: Arc<F::Parameters>,
}

impl<F: Frontend> AbiMeta<F> {
    /// Whether these are the witnesses and the parameters.
    pub open spec fn describes(&self, witnesses: F::WitnessTypes, parameters: F::Parameters) -> bool {
        *self.witness_types == witnesses && *self.param_types == parameters
    }
}

/// A SimplicityHL program, compiled to Simplicity and satisfied with witness data.
#[derive(Clone, Debug, PartialEq, Eq)]
pub struct SatisfiedProgram<F: Frontend> {
    simplicity: F::Redeem,
    debug_symbols: Arc<F::DebugSymbols>,
}

/// What compiling and satisfying a text comes to.
pub open spec fn satisfy_text_outcome<F: Frontend, Str: Into<Arc<str>>>(
    s: Str,
    enabled: Seq<UnstableFeature>,
    arguments: F::Arguments,
    witness_values: F::WitnessValues,
    include_debug_symbols: bool,
    hinter: F::JetHinter,
    r: Result<SatisfiedProgram<F>, String>,
) -> bool {
    exists|c: Result<CompiledProgram<F>, String>| #[trigger]
        compile_text_outcome::<F, Str>(s, enabled, arguments, include_debug_symbols, hinter, c)
            && match c {
            Err(e) => r matches Err(text) && text@ == e@,
            Ok(program) => satisfy_outcome::<F>(program, witness_values, None, r),
        }
}

impl<F: Frontend> SatisfiedProgram<F> {
    /// The target code with witness data.
    pub closed spec fn redemption(&self) -> F::Redeem {
        self.simplicity
    }

    /// The debug symbols of the program.
    pub closed spec fn symbols(&self) -> F::DebugSymbols {
        *self.debug_symbols
    }

    /// Parse, compile and satisfy a SimplicityHL program from the given string.
    ///
    /// ## See
    ///
    /// - `TemplateProgram::new`
    /// - `TemplateProgram::instantiate`
    /// - `CompiledProgram::satisfy`
    pub fn new<Str: Into<Arc<str>>>(
        s: Str,
        arguments: F::Arguments,
        witness_values: F::WitnessValues,
        include_debug_symbols: bool,
        jet_hinter: F::JetHinter,
    ) -> (r: Result<SatisfiedProgram<F>, String>)
        requires
            text_shows::<F, Str>(
                s,
                Seq::empty(),
                arguments,
                include_debug_symbols,
                jet_hinter,
            ),
        ensures
            satisfy_text_outcome::<F, Str>(
                s,
                Seq::empty(),
                arguments,
                witness_values,
                include_debug_symbols,
                jet_hinter,
                r,
            ),
    {
        let none = UnstableFeatures::none();
        Self::new_with_unstable(
            s,
            &none,
            arguments,
            witness_values,
            include_debug_symbols,
            jet_hinter,
        )
    }

    /// Like `new`, but rejects any unstable feature used by the program that is not enabled
    /// in `unstable_features`.
    pub fn new_with_unstable<Str: Into<Arc<str>>>(
        s: Str,
        unstable_features: &UnstableFeatures,
        arguments: F::Arguments,
        witness_values: F::WitnessValues,
        include_debug_symbols: bool,
        jet_hinter: F::JetHinter,
    ) -> (r: Result<SatisfiedProgram<F>, String>)
        requires
            text_shows::<F, Str>(
                s,
                unstable_features@,
                arguments,
                include_debug_symbols,
                jet_hinter,
            ),
        ensures
            satisfy_text_outcome::<F, Str>(
                s,
                unstable_features@,
                arguments,
                witness_values,
                include_debug_symbols,
                jet_hinter,
                r,
            ),
    {
        let compiled = CompiledProgram::<F>::new_with_unstable(
            s,
            unstable_features,
            arguments,
            include_debug_symbols,
            jet_hinter,
        );
        let ghost c = compiled;
        assert(compile_text_outcome::<F, Str>(
            s,
            unstable_features@,
            arguments,
            include_debug_symbols,
            jet_hinter,
            c,
        ));
        match compiled {
            Ok(program) => program.satisfy(witness_values),
            Err(e) => Err(e),
        }
    }

    /// Access the Simplicity target code, including witness data.
    pub fn redeem(&self) -> (r: &F::Redeem)
        ensures
            *r == self.redemption(),
    {
        &self.simplicity
    }

    /// Access the debug symbols for the Simplicity target code.
    pub fn debug_symbols(&self) -> (r: &F::DebugSymbols)
        ensures
            *r == self.symbols(),
    {
        &self.debug_symbols
    }
}

// ---------------------------------------------------------------------------------------
// Laws
// ---------------------------------------------------------------------------------------

/// A text whose directive is refused makes no template; the error of the check is the only
/// one.
pub proof fn law_refused_directive_makes_no_template<F: Frontend>(
    content: Seq<char>,
    enabled: Seq<UnstableFeature>,
    hinter: F::JetHinter,
    r: Result<TemplateProgram<F>, ErrorCollector>,
)
    requires
        single_file_outcome::<F>(content, enabled, hinter, r),
        directive_refused(content),
    ensures
        r matches Err(c) && c@.len() == 1 && checked(content, Err((c@[0].error, c@[0].span))),
{
    let source = SourceModel { name: None, content };
    let (parsed, h) = choose|parsed: Option<F::Parsed>, h: Seq<RichErrorModel>| #[trigger]
        parse_outcome::<F>(MAIN_MODULE, source, enabled, Seq::empty(), parsed, h)
            && match parsed {
            None => r matches Err(c) && c@ == h,
            Some(program) => exists|map: F::SourceMap| #[trigger]
                call_ensures(F::SourceMap::default, (), map) && template_outcome::<F>(
                    source,
                    true,
                    program,
                    hinter,
                    map,
                    h,
                    r,
                ),
        };
    law_refused_directive_stops_parsing::<F>(
        MAIN_MODULE,
        source,
        enabled,
        Seq::empty(),
        parsed,
        h,
    );
}

/// A program with dependencies whose entry file has a directive that is refused makes no
/// template either; the error of the check is the only one.
pub proof fn law_refused_entry_makes_no_template<F: Frontend>(
    source: &SourceFile,
    dependency_map: &F::DependencyMap,
    features: &UnstableFeatures,
    hinter: F::JetHinter,
    r: Result<TemplateProgram<F>, ErrorCollector>,
)
    requires
        multi_file_outcome::<F>(source, dependency_map, features, hinter, r),
        directive_refused(source@.content),
    ensures
        r matches Err(c) && c@.len() == 1 && checked(
            source@.content,
            Err((c@[0].error, c@[0].span)),
        ),
{
    let (d, h) = choose|
        d: Result<(Option<F::Parsed>, F::SourceMap), LoadFailure>,
        h: Seq<RichErrorModel>,
    | #[trigger]
        dependency_outcome::<F>(source, dependency_map, features, Seq::empty(), d, h) && match d {
            Ok((Some(program), map)) => template_outcome::<F>(
                source@,
                false,
                program,
                hinter,
                map,
                h,
                r,
            ),
            _ => r matches Err(c) && c@ == h,
        };
    law_refused_entry_loads_nothing::<F>(source, dependency_map, features, Seq::empty(), d, h);
}

/// Nor can it be flattened: what is answered is the error of the check, shown in the file.
pub proof fn law_refused_entry_is_not_flattened<F: Frontend>(
    source: &SourceFile,
    dependency_map: &F::DependencyMap,
    features: &UnstableFeatures,
    r: Result<String, String>,
)
    requires
        flatten_outcome::<F>(source, dependency_map, features, r),
        directive_refused(source@.content),
    ensures
        r matches Err(text) && exists|e: RichErrorModel|
            text@ == #[trigger] report(seq![e]) && checked(source@.content, Err((e.error, e.span)))
                && e.source == Some(source@),
{
    let (d, h) = choose|
        d: Result<(Option<F::Parsed>, F::SourceMap), LoadFailure>,
        h: Seq<RichErrorModel>,
    | #[trigger]
        dependency_outcome::<F>(source, dependency_map, features, Seq::empty(), d, h) && match d {
            Ok((Some(program), map)) => r matches Ok(text) && call_ensures(
                F::program_text,
                (&program,),
                text,
            ),
            Ok((None, map)) => r matches Err(text) && text@ == report(h),
            Err(LoadFailure::Reported) => r matches Err(text) && text@ == report(h),
            Err(LoadFailure::Message(e)) => r matches Err(text) && text@ == e@,
        };
    law_refused_entry_loads_nothing::<F>(source, dependency_map, features, Seq::empty(), d, h);
    assert(h =~= seq![h[0]]);
}

/// A program with dependencies makes a template only where every file passes the check of its
/// directive: the entry file, and all files that were loaded for it.
pub proof fn law_files_of_template_pass<F: Frontend>(
    source: &SourceFile,
    dependency_map: &F::DependencyMap,
    features: &UnstableFeatures,
    hinter: F::JetHinter,
    r: Result<TemplateProgram<F>, ErrorCollector>,
)
    requires
        multi_file_outcome::<F>(source, dependency_map, features, hinter, r),
        r is Ok,
    ensures
        directive_passes(source@.content),
        exists|files: Seq<SourceModel>| #[trigger]
            loads_files::<F>(source, dependency_map, features, files) && forall|i: int|
                0 <= i < files.len() ==> directive_passes((#[trigger] files[i]).content),
{
    let (d, h) = choose|
        d: Result<(Option<F::Parsed>, F::SourceMap), LoadFailure>,
        h: Seq<RichErrorModel>,
    | #[trigger]
        dependency_outcome::<F>(source, dependency_map, features, Seq::empty(), d, h) && match d {
            Ok((Some(program), map)) => template_outcome::<F>(
                source@,
                false,
                program,
                hinter,
                map,
                h,
                r,
            ),
            _ => r matches Err(c) && c@ == h,
        };
    law_loaded_files_pass::<F>(source, dependency_map, features, d, h);
}

/// A program with dependencies is flattened only where every file passes the check of its
/// directive.
pub proof fn law_flattened_files_pass<F: Frontend>(
    source: &SourceFile,
    dependency_map: &F::DependencyMap,
    features: &UnstableFeatures,
    text: String,
)
    requires
        flatten_outcome::<F>(source, dependency_map, features, Ok(text)),
    ensures
        directive_passes(source@.content),
        exists|files: Seq<SourceModel>| #[trigger]
            loads_files::<F>(source, dependency_map, features, files) && forall|i: int|
                0 <= i < files.len() ==> directive_passes((#[trigger] files[i]).content),
{
    let r = Ok::<String, String>(text);
    let (d, h) = choose|
        d: Result<(Option<F::Parsed>, F::SourceMap), LoadFailure>,
        h: Seq<RichErrorModel>,
    | #[trigger]
        dependency_outcome::<F>(source, dependency_map, features, Seq::empty(), d, h) && match d {
            Ok((Some(program), map)) => r matches Ok(text) && call_ensures(
                F::program_text,
                (&program,),
                text,
            ),
            Ok((None, map)) => r matches Err(text) && text@ == report(h),
            Err(LoadFailure::Reported) => r matches Err(text) && text@ == report(h),
            Err(LoadFailure::Message(e)) => r matches Err(text) && text@ == e@,
        };
    law_loaded_files_pass::<F>(source, dependency_map, features, d, h);
}

/// A program with dependencies makes no template where its files cannot be loaded without one
/// whose directive is refused.
pub proof fn law_refused_dependency_makes_no_template<F: Frontend>(
    source: &SourceFile,
    dependency_map: &F::DependencyMap,
    features: &UnstableFeatures,
    hinter: F::JetHinter,
    r: Result<TemplateProgram<F>, ErrorCollector>,
)
    requires
        multi_file_outcome::<F>(source, dependency_map, features, hinter, r),
        forall|files: Seq<SourceModel>| #[trigger]
            loads_files::<F>(source, dependency_map, features, files) ==> exists|i: int|
                0 <= i < files.len() && directive_refused((#[trigger] files[i]).content),
    ensures
        r is Err,
{
    if r is Ok {
        law_files_of_template_pass::<F>(source, dependency_map, features, hinter, r);
        let files = choose|files: Seq<SourceModel>| #[trigger]
            loads_files::<F>(source, dependency_map, features, files) && forall|i: int|
                0 <= i < files.len() ==> directive_passes((#[trigger] files[i]).content);
        let i = choose|i: int|
            0 <= i < files.len() && directive_refused((#[trigger] files[i]).content);
        assert(directive_passes(files[i].content));
    }
}

/// Enabling more features keeps a template: a text that makes one makes the same one.
pub proof fn law_more_features_keep_template<F: Frontend, Str: Into<Arc<str>>>(
    s: Str,
    enabled: Seq<UnstableFeature>,
    more: Seq<UnstableFeature>,
    hinter: F::JetHinter,
    t: TemplateProgram<F>,
)
    requires
        forall|f: UnstableFeature| enabled.contains(f) ==> more.contains(f),
        template_text_outcome::<F, Str>(s, enabled, hinter, Ok(t)),
    ensures
        template_text_outcome::<F, Str>(s, more, hinter, Ok(t)),
{
    let r = Ok::<TemplateProgram<F>, ErrorCollector>(t);
    let file = choose|file: Arc<str>| #[trigger]
        call_ensures(Str::into, (s,), file) && single_file_outcome::<F>(
            (*file)@,
            enabled,
            hinter,
            r,
        );
    let source = SourceModel { name: None, content: (*file)@ };
    let (parsed, h) = choose|parsed: Option<F::Parsed>, h: Seq<RichErrorModel>| #[trigger]
        parse_outcome::<F>(MAIN_MODULE, source, enabled, Seq::empty(), parsed, h)
            && match parsed {
            None => r matches Err(c) && c@ == h,
            Some(program) => exists|map: F::SourceMap| #[trigger]
                call_ensures(F::SourceMap::default, (), map) && template_outcome::<F>(
                    source,
                    true,
                    program,
                    hinter,
                    map,
                    h,
                    r,
                ),
        };
    law_more_features_keep_parsed::<F>(
        MAIN_MODULE,
        source,
        enabled,
        more,
        Seq::empty(),
        parsed,
        h,
    );
    assert(single_file_outcome::<F>((*file)@, more, hinter, r));
}

/// Enabling more features keeps a compiled program: a text that compiles to one compiles to
/// the same one.
pub proof fn law_more_features_keep_compiled<F: Frontend, Str: Into<Arc<str>>>(
    s: Str,
    enabled: Seq<UnstableFeature>,
    more: Seq<UnstableFeature>,
    arguments: F::Arguments,
    include_debug_symbols: bool,
    hinter: F::JetHinter,
    program: CompiledProgram<F>,
)
    requires
        forall|f: UnstableFeature| enabled.contains(f) ==> more.contains(f),
        compile_text_outcome::<F, Str>(
            s,
            enabled,
            arguments,
            include_debug_symbols,
            hinter,
            Ok(program),
        ),
    ensures
        compile_text_outcome::<F, Str>(
            s,
            more,
            arguments,
            include_debug_symbols,
            hinter,
            Ok(program),
        ),
{
    let r = Ok::<CompiledProgram<F>, String>(program);
    let t = choose|t: Result<TemplateProgram<F>, ErrorCollector>| #[trigger]
        template_text_outcome::<F, Str>(s, enabled, hinter, t) && match t {
            Err(c) => r matches Err(text) && text@ == report(c@),
            Ok(template) => instantiate_outcome::<F>(template, arguments, include_debug_symbols, r),
        };
    law_more_features_keep_template::<F, Str>(s, enabled, more, hinter, t->Ok_0);
    assert(template_text_outcome::<F, Str>(s, more, hinter, t));
}

/// Compiled programs with the same code, witnesses, debug symbols and parameters are the same.
pub proof fn law_compiled_is_its_parts<F: Frontend>(a: CompiledProgram<F>, b: CompiledProgram<F>)
    requires
        a.commitment() == b.commitment(),
        a.witnesses() == b.witnesses(),
        a.symbols() == b.symbols(),
        a.parameters() == b.parameters(),
    ensures
        a == b,
{
}

/// Satisfied programs with the same code and debug symbols are the same.
pub proof fn law_satisfied_is_its_parts<F: Frontend>(
    a: SatisfiedProgram<F>,
    b: SatisfiedProgram<F>,
)
    requires
        a.redemption() == b.redemption(),
        a.symbols() == b.symbols(),
    ensures
        a == b,
{
}

/// Whether a text is parsed to a program whatever happens.
pub open spec fn always_parsed<F: Frontend, Str: Into<Arc<str>>>(
    s: Str,
    enabled: Seq<UnstableFeature>,
) -> bool {
    forall|file: Arc<str>, parsed: Option<F::Parsed>, h: Seq<RichErrorModel>|
        call_ensures(Str::into, (s,), file) && #[trigger] parse_outcome::<F>(
            MAIN_MODULE,
            SourceModel { name: None, content: (*file)@ },
            enabled,
            Seq::empty(),
            parsed,
            h,
        ) ==> parsed is Some
}

/// Enabling more features adds nothing for a text that is parsed whatever happens: what making
/// a template of it, or compiling it, can come to with them, it can come to without.
pub proof fn law_more_features_add_no_outcome<F: Frontend, Str: Into<Arc<str>>>(
    s: Str,
    enabled: Seq<UnstableFeature>,
    more: Seq<UnstableFeature>,
    arguments: F::Arguments,
    include_debug_symbols: bool,
    hinter: F::JetHinter,
)
    requires
        forall|f: UnstableFeature| enabled.contains(f) ==> more.contains(f),
        always_parsed::<F, Str>(s, enabled),
    ensures
        forall|t: Result<TemplateProgram<F>, ErrorCollector>| #[trigger]
            template_text_outcome::<F, Str>(s, more, hinter, t) ==> template_text_outcome::<F, Str>(
                s,
                enabled,
                hinter,
                t,
            ),
        forall|r: Result<CompiledProgram<F>, String>| #[trigger]
            compile_text_outcome::<F, Str>(
                s,
                more,
                arguments,
                include_debug_symbols,
                hinter,
                r,
            ) ==> compile_text_outcome::<F, Str>(
                s,
                enabled,
                arguments,
                include_debug_symbols,
                hinter,
                r,
            ),
{
    assert forall|t: Result<TemplateProgram<F>, ErrorCollector>| #[trigger]
        template_text_outcome::<F, Str>(
            s,
            more,
            hinter,
            t,
        ) implies template_text_outcome::<F, Str>(s, enabled, hinter, t) by {
        let file = choose|file: Arc<str>| #[trigger]
            call_ensures(Str::into, (s,), file) && single_file_outcome::<F>(
                (*file)@,
                more,
                hinter,
                t,
            );
        let source = SourceModel { name: None, content: (*file)@ };
        let (parsed, h) = choose|parsed: Option<F::Parsed>, h: Seq<RichErrorModel>| #[trigger]
            parse_outcome::<F>(MAIN_MODULE, source, more, Seq::empty(), parsed, h)
                && match parsed {
                None => t matches Err(c) && c@ == h,
                Some(program) => exists|map: F::SourceMap| #[trigger]
                    call_ensures(F::SourceMap::default, (), map) && template_outcome::<F>(
                        source,
                        true,
                        program,
                        hinter,
                        map,
                        h,
                        t,
                    ),
            };
        law_more_features_add_nothing::<F>(
            MAIN_MODULE,
            source,
            enabled,
            more,
            Seq::empty(),
            parsed,
            h,
        );
        assert(single_file_outcome::<F>((*file)@, enabled, hinter, t));
    }
    assert forall|r: Result<CompiledProgram<F>, String>| #[trigger]
        compile_text_outcome::<F, Str>(
            s,
            more,
            arguments,
            include_debug_symbols,
            hinter,
            r,
        ) implies compile_text_outcome::<F, Str>(
        s,
        enabled,
        arguments,
        include_debug_symbols,
        hinter,
        r,
    ) by {
        let t = choose|t: Result<TemplateProgram<F>, ErrorCollector>| #[trigger]
            template_text_outcome::<F, Str>(s, more, hinter, t) && match t {
                Err(c) => r matches Err(text) && text@ == report(c@),
                Ok(template) => instantiate_outcome::<F>(
                    template,
                    arguments,
                    include_debug_symbols,
                    r,
                ),
            };
        assert(template_text_outcome::<F, Str>(s, enabled, hinter, t));
    }
}

/// Arguments that do not fit the parameters are refused, with the message for them; and where
/// a program comes of the template, its arguments fit.
pub proof fn law_arguments_must_fit<F: Frontend>(
    template: TemplateProgram<F>,
    arguments: F::Arguments,
    include_debug_symbols: bool,
    message: Seq<char>,
    r: Result<CompiledProgram<F>, String>,
)
    requires
        instantiate_outcome::<F>(template, arguments, include_debug_symbols, r),
    ensures
        (forall|c: Result<(), String>| #[trigger]
            call_ensures(
                F::arguments_consistent,
                (&arguments, &template.declared_parameters()),
                c,
            ) ==> (c matches Err(e) && e@ == message)) ==> (r matches Err(text) && text@
            == message),
        r is Ok ==> exists|c: Result<(), String>| #[trigger]
            call_ensures(
                F::arguments_consistent,
                (&arguments, &template.declared_parameters()),
                c,
            ) && c is Ok,
{
}

/// A template and the programs that come of it have the same interface.
pub proof fn law_instantiating_keeps_interface<F: Frontend>(
    template: TemplateProgram<F>,
    arguments: F::Arguments,
    include_debug_symbols: bool,
    program: CompiledProgram<F>,
    before: AbiMeta<F>,
    after: AbiMeta<F>,
)
    requires
        instantiate_outcome::<F>(template, arguments, include_debug_symbols, Ok(program)),
        before.describes(template.declared_witnesses(), template.declared_parameters()),
        after.describes(program.witnesses(), program.parameters()),
    ensures
        before == after,
{
}

/// Witness values that do not fit their types are refused, with the message for them.
pub proof fn law_witnesses_must_fit<F: Frontend>(
    program: CompiledProgram<F>,
    witness_values: F::WitnessValues,
    env: Option<&F::Env>,
    message: Seq<char>,
    r: Result<SatisfiedProgram<F>, String>,
)
    requires
        satisfy_outcome::<F>(program, witness_values, env, r),
    ensures
        (forall|c: Result<(), String>| #[trigger]
            call_ensures(F::witnesses_consistent, (&witness_values, &program.witnesses()), c) ==> (
            c matches Err(e) && e@ == message)) ==> (r matches Err(text) && text@ == message),
        r is Ok ==> exists|c: Result<(), String>| #[trigger]
            call_ensures(F::witnesses_consistent, (&witness_values, &program.witnesses()), c)
                && c is Ok,
{
}

/// A program is not satisfied without a value for each of its witnesses: where a name in its
/// layout has none, the values are refused.
pub proof fn law_missing_witness_is_refused<F: Frontend>(
    program: CompiledProgram<F>,
    witness_values: F::WitnessValues,
    env: Option<&F::Env>,
    name: Seq<char>,
    r: Result<SatisfiedProgram<F>, String>,
)
    requires
        satisfy_outcome::<F>(program, witness_values, env, r),
        forall|nodes: Vec<LayoutNode<F::Final>>| #[trigger]
            call_ensures(F::post_order, (&program.commitment(),), nodes) ==> exists|k: int|
                0 <= k < layout(nodes@).len() && (#[trigger] layout(nodes@)[k]).0@ == name,
        forall|v: Result<F::Value, String>| #[trigger]
            answers::<F>(witness_values, name, v) ==> v is Err,
    ensures
        r is Err,
{
    if r is Ok {
        assert(fill_outcome::<F>(program, witness_values, env, r));
        let (nodes, values) = choose|
            nodes: Vec<LayoutNode<F::Final>>,
            values: Result<Vec<Arc<F::Value>>, String>,
        |
            #![trigger assigned::<F>(witness_values, layout(nodes@), values)]
            call_ensures(F::post_order, (&program.commitment(),), nodes) && assigned::<F>(
                witness_values,
                layout(nodes@),
                values,
            ) && match values {
                Err(e) => r matches Err(text) && text@ == e@,
                Ok(values) => exists|p: Result<F::Redeem, String>| #[trigger]
                    call_ensures(F::populate_witnesses, (&program.commitment(), values), p)
                        && match p {
                        Err(e) => r matches Err(text) && text@ == e@,
                        Ok(redeem) => prune_outcome::<F>(program, redeem, env, r),
                    },
            };
        let k = choose|k: int|
            0 <= k < layout(nodes@).len() && (#[trigger] layout(nodes@)[k]).0@ == name;
        let given = values->Ok_0;
        assert(answers::<F>(
            witness_values,
            layout(nodes@)[k].0@,
            Ok::<F::Value, String>(*given[k]),
        ));
    }
}

/// Satisfying a program keeps its debug symbols.
pub proof fn law_satisfying_keeps_symbols<F: Frontend>(
    program: CompiledProgram<F>,
    witness_values: F::WitnessValues,
    env: Option<&F::Env>,
    r: Result<SatisfiedProgram<F>, String>,
)
    requires
        satisfy_outcome::<F>(program, witness_values, env, r),
    ensures
        r matches Ok(s) ==> s.symbols() == program.symbols(),
{
}

/// Whether an error of the analysis of a program can be shown where it stands.
pub open spec fn analysis_shows<F: Frontend>(
    source: SourceModel,
    single: bool,
    program: F::Parsed,
    hinter: F::JetHinter,
) -> bool {
    forall|a: Result<Analysis<F::Analyzed, F::Parameters, F::WitnessTypes>, RichError>| #[trigger]
        call_ensures(F::analyze, (&program, &hinter), a) ==> (a matches Err(e) ==> placed(
            e@,
            source,
            single,
        ).renderable())
}

/// Whether a text that was printed for a program is read back as that program: it holds no
/// directive, the parser gives the program for it without an error, and the features that
/// the program uses are enabled.
pub open spec fn reads_back<F: Frontend>(
    program: F::Parsed,
    printed: Seq<char>,
    enabled: Seq<UnstableFeature>,
) -> bool {
    &&& scan(printed) is Absent
    &&& exists|text: &str, errors: Vec<RichError>|
        text@ == printed && errors.len() == 0 && #[trigger] call_ensures(
            F::parse_text,
            (MAIN_MODULE, text),
            (Some(program), errors),
        )
    &&& forall|i: int|
        0 <= i < program.requirements().len() ==> enabled.contains(
            (#[trigger] program.requirements()[i]).feature,
        )
}

/// Where the parser reads back what is printed, a flattened program is itself a file that is
/// parsed without an error, to the program that was flattened.
pub proof fn law_flattened_text_is_parsed<F: Frontend>(
    source: &SourceFile,
    dependency_map: &F::DependencyMap,
    features: &UnstableFeatures,
    text: String,
)
    requires
        flatten_outcome::<F>(source, dependency_map, features, Ok(text)),
        forall|program: F::Parsed, printed: String| #[trigger]
            call_ensures(F::program_text, (&program,), printed) ==> reads_back::<F>(
                program,
                printed@,
                features@,
            ),
    ensures
        exists|program: F::Parsed| #[trigger]
            call_ensures(F::program_text, (&program,), text) && parse_outcome::<F>(
                MAIN_MODULE,
                SourceModel { name: None, content: text@ },
                features@,
                Seq::empty(),
                Some(program),
                Seq::empty(),
            ),
{
    let r = Ok::<String, String>(text);
    let (d, h) = choose|
        d: Result<(Option<F::Parsed>, F::SourceMap), LoadFailure>,
        h: Seq<RichErrorModel>,
    | #[trigger]
        dependency_outcome::<F>(source, dependency_map, features, Seq::empty(), d, h) && match d {
            Ok((Some(program), map)) => r matches Ok(text) && call_ensures(
                F::program_text,
                (&program,),
                text,
            ),
            Ok((None, map)) => r matches Err(text) && text@ == report(h),
            Err(LoadFailure::Reported) => r matches Err(text) && text@ == report(h),
            Err(LoadFailure::Message(e)) => r matches Err(text) && text@ == e@,
        };
    let program = (d->Ok_0).0->0;
    assert(call_ensures(F::program_text, (&program,), text));
    let (piece, errors) = choose|piece: &str, errors: Vec<RichError>|
        piece@ == text@ && errors.len() == 0 && #[trigger] call_ensures(
            F::parse_text,
            (MAIN_MODULE, piece),
            (Some(program), errors),
        );
    let file = SourceModel { name: None, content: text@ };
    let none = Seq::<RichErrorModel>::empty();
    let out = (Some(program), errors);
    law_undeclared_text_is_unchanged(text@);
    law_disabled_feature_is_refused(program, file, features@, none);
    assert(error_models(errors@) =~= none);
    let after = errors_after_parsing(Some(program), none, file, features@, none);
    assert(after =~= none);
    assert(parse_step::<F>(
        MAIN_MODULE,
        file,
        features@,
        none,
        piece,
        out,
        Some(program),
        none,
    ));
    assert(checked(text@, Ok(())));
    assert(parse_after_check::<F>(
        MAIN_MODULE,
        file,
        features@,
        none,
        Ok(()),
        Some(program),
        none,
    ));
}

/// Where what the parser and the analysis say about a text can be shown, all errors can be
/// shown that making a template of it comes to.
pub proof fn law_text_errors_are_renderable<F: Frontend>(
    content: Seq<char>,
    enabled: Seq<UnstableFeature>,
    hinter: F::JetHinter,
    r: Result<TemplateProgram<F>, ErrorCollector>,
)
    requires
        single_file_outcome::<F>(content, enabled, hinter, r),
        parser_shows::<F>(MAIN_MODULE, SourceModel { name: None, content }),
        forall|program: F::Parsed, h: Seq<RichErrorModel>| #[trigger]
            parse_outcome::<F>(
                MAIN_MODULE,
                SourceModel { name: None, content },
                enabled,
                Seq::empty(),
                Some(program),
                h,
            ) ==> analysis_shows::<F>(
                SourceModel { name: None, content },
                true,
                program,
                hinter,
            ),
    ensures
        r matches Err(c) ==> all_renderable(c@),
{
    let source = SourceModel { name: None, content };
    let (parsed, h) = choose|parsed: Option<F::Parsed>, h: Seq<RichErrorModel>| #[trigger]
        parse_outcome::<F>(MAIN_MODULE, source, enabled, Seq::empty(), parsed, h)
            && match parsed {
            None => r matches Err(c) && c@ == h,
            Some(program) => exists|map: F::SourceMap| #[trigger]
                call_ensures(F::SourceMap::default, (), map) && template_outcome::<F>(
                    source,
                    true,
                    program,
                    hinter,
                    map,
                    h,
                    r,
                ),
        };
    law_parse_errors_are_renderable::<F>(MAIN_MODULE, source, enabled, Seq::empty(), parsed, h);
    if let Some(program) = parsed {
        assert(parse_outcome::<F>(MAIN_MODULE, source, enabled, Seq::empty(), Some(program), h));
    }
}

/// Where what the parser, the driver and the analysis say about a program with dependencies
/// can be shown, all errors can be shown that making a template of it, or flattening it,
/// comes to.
pub proof fn law_program_errors_are_renderable<F: Frontend>(
    source: &SourceFile,
    dependency_map: &F::DependencyMap,
    features: &UnstableFeatures,
    hinter: F::JetHinter,
    r: Result<TemplateProgram<F>, ErrorCollector>,
)
    requires
        multi_file_outcome::<F>(source, dependency_map, features, hinter, r),
        parser_shows::<F>(MAIN_MODULE, source@),
        driver_shows::<F>(source, dependency_map, features),
        forall|program: F::Parsed, map: F::SourceMap, h: Seq<RichErrorModel>| #[trigger]
            dependency_outcome::<F>(
                source,
                dependency_map,
                features,
                Seq::empty(),
                Ok((Some(program), map)),
                h,
            ) ==> analysis_shows::<F>(source@, false, program, hinter),
    ensures
        r matches Err(c) ==> all_renderable(c@),
        flatten_shows::<F>(source, dependency_map, features),
{
    assert forall|
        d: Result<(Option<F::Parsed>, F::SourceMap), LoadFailure>,
        h: Seq<RichErrorModel>,
    | #[trigger]
        dependency_outcome::<F>(
            source,
            dependency_map,
            features,
            Seq::empty(),
            d,
            h,
        ) implies all_renderable(h) by {
        law_loading_errors_are_renderable::<F>(source, dependency_map, features, d, h);
    }
    let (d, h) = choose|
        d: Result<(Option<F::Parsed>, F::SourceMap), LoadFailure>,
        h: Seq<RichErrorModel>,
    | #[trigger]
        dependency_outcome::<F>(source, dependency_map, features, Seq::empty(), d, h) && match d {
            Ok((Some(program), map)) => template_outcome::<F>(
                source@,
                false,
                program,
                hinter,
                map,
                h,
                r,
            ),
            _ => r matches Err(c) && c@ == h,
        };
    if let Ok((Some(program), map)) = d {
        assert(dependency_outcome::<F>(
            source,
            dependency_map,
            features,
            Seq::empty(),
            Ok((Some(program), map)),
            h,
        ));
    }
}

} // verus!
