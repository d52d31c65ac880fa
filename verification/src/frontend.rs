//! The stages of the compiler that are handed in from outside, and when their errors can be
//! shown.
use std::sync::Arc;

use vstd::prelude::*;

use crate::blank::blanked;
use crate::error::{all_in_source, error_models, RichError, RichErrorModel};
use crate::layout::LayoutNode;
use crate::render::renderable;
use crate::source::{SourceFile, SourceModel};
use crate::text::utf8_len;
use crate::unstable::{RequireFeature, UnstableFeatures};

verus! {

/// The module of the entry file.
pub const MAIN_MODULE: usize = 0;

/// An analyzed program, with its parameters and its witnesses.
#[derive(Clone, Debug)]
pub struct Analysis<A, P, W> {
    pub program: A,
    pub parameters: Arc<P>,
    pub witness_types: Arc<W>,
}

/// The stages of the compiler: the parser, the driver that loads the files on which a
/// program depends, the analysis, the translation to Simplicity, and what follows it.
///
/// The library decides which stage runs on what and what becomes of its outcome. It takes
/// nothing for granted of a stage.
pub trait Frontend: Sized {
    /// A parsed program.
    type Parsed: RequireFeature;

    /// The files on which a program may depend.
    type DependencyMap;

    /// A program and the files that it imports.
    type Graph;

    /// Where the items of a flattened program come from.
    type SourceMap: Default;

    /// What tells the analysis which jets there are.
    type JetHinter;

    /// An analyzed program.
    type Analyzed;

    /// The parameters of a program, by name and type.
    type Parameters;

    /// The values for parameters.
    type Arguments;

    /// The witnesses of a program, by name and type.
    type WitnessTypes;

    /// The values for witnesses.
    type WitnessValues;

    /// The value of one witness.
    type Value;

    /// The debug symbols of a program.
    type DebugSymbols;

    /// A compiled program, without witness data and with names.
    type Commit;

    /// A compiled program with witness data.
    type Redeem;

    /// A compiled program, without witness data and without names.
    type Unnamed;

    /// The type of a value of the target code.
    type Final;

    /// The transaction environment in which a program is run.
    type Env;

    /// Lex and parse a text.
    fn parse_text(module: usize, text: &str) -> (Option<Self::Parsed>, Vec<RichError>);

    /// Show a parsed program as text.
    fn program_text(program: &Self::Parsed) -> String;

    /// Load the files that a program imports.
    fn build_graph(
        source: &SourceFile,
        dependency_map: &Self::DependencyMap,
        program: &Self::Parsed,
        unstable_features: &UnstableFeatures,
    ) -> (Result<Option<Self::Graph>, String>, Vec<RichError>);

    /// The files that were loaded.
    fn graph_files(graph: &Self::Graph) -> Vec<SourceFile>;

    /// Put the items of all files into one program.
    fn linearize_and_build(graph: &Self::Graph) -> (
        Result<Option<Self::Parsed>, String>,
        Vec<RichError>,
    );

    /// Where the items of the program come from.
    fn graph_source_map(graph: &Self::Graph) -> Self::SourceMap;

    /// Analyze a program.
    fn analyze(program: &Self::Parsed, jet_hinter: &Self::JetHinter) -> Result<
        Analysis<Self::Analyzed, Self::Parameters, Self::WitnessTypes>,
        RichError,
    >;

    /// The debug symbols of a program.
    fn debug_symbols(program: &Self::Analyzed, file: &str) -> Self::DebugSymbols;

    /// Hold arguments against parameters.
    fn arguments_consistent(
        arguments: &Self::Arguments,
        parameters: &Self::Parameters,
    ) -> Result<(), String>;

    /// Translate a program to Simplicity.
    fn compile(
        program: &Self::Analyzed,
        arguments: Self::Arguments,
        include_debug_symbols: bool,
        jet_hinter: &Self::JetHinter,
    ) -> Result<Self::Commit, RichError>;

    /// Forget the names in a compiled program.
    fn forget_names(program: &Self::Commit) -> Self::Unnamed;

    /// The nodes of a compiled program in post order.
    fn post_order(program: &Self::Commit) -> Vec<LayoutNode<Self::Final>>;

    /// Hold witness values against witness types.
    fn witnesses_consistent(
        witness_values: &Self::WitnessValues,
        witness_types: &Self::WitnessTypes,
    ) -> Result<(), String>;

    /// The value for a witness.
    fn witness_value(witness_values: &Self::WitnessValues, name: &str) -> Result<
        Self::Value,
        String,
    >;

    /// Put values into a compiled program: one for each witness node, in post order.
    fn populate_witnesses(program: &Self::Commit, values: Vec<Arc<Self::Value>>) -> Result<
        Self::Redeem,
        String,
    >;

    /// Take out what a program does not run in an environment.
    fn prune(program: Self::Redeem, env: &Self::Env) -> Result<Self::Redeem, String>;
}

/// Whether each of the errors can be shown in its file.
pub open spec fn all_renderable(errors: Seq<RichErrorModel>) -> bool {
    forall|i: int| 0 <= i < errors.len() ==> (#[trigger] errors[i]).renderable()
}

/// Whether what the parser says about the file of a module can be shown in it: its errors,
/// and the places where features are used.
pub open spec fn parser_shows<F: Frontend>(module: usize, source: SourceModel) -> bool {
    &&& utf8_len(source.content) < usize::MAX
    &&& forall|text: &str, out: (Option<F::Parsed>, Vec<RichError>)| #[trigger]
        call_ensures(F::parse_text, (module, text), out) && text@ == blanked(source.content)
            ==> all_renderable(all_in_source(error_models(out.1@), source)) && (
        out.0 matches Some(program) ==> forall|i: int|
            0 <= i < program.requirements().len() ==> renderable(
                source.content,
                (#[trigger] program.requirements()[i]).span,
            ))
}

} // verus!
