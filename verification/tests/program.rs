use std::sync::Arc;

use simplicityhl::assignment::assign;
use simplicityhl::error::{Error, ErrorCollector, RichError, Span};
use simplicityhl::frontend::{Analysis, Frontend, MAIN_MODULE};
use simplicityhl::layout::{layout_of, LayoutNode};
use simplicityhl::loading::{check_files, take_graph, take_linearized};
use simplicityhl::parsing::{finish_parse, parse_from_str_with_errors};
use simplicityhl::program::take_analysis;
use simplicityhl::source::SourceFile;
use simplicityhl::unstable::{FeatureRequirement, RequireFeature};
use simplicityhl::version::{check_source, current_version};
use simplicityhl::{
    CompiledProgram, SatisfiedProgram, TemplateProgram, UnstableFeature, UnstableFeatures,
};

// A small language in place of the real one: `use` lines import files, `let x: uN =
// witness::NAME;` declares a witness, `param::NAME` a parameter, and a few words make a stage
// fail.

/// The stages of the small language.
#[derive(Clone, Debug, PartialEq, Eq)]
struct Toy;

/// A parsed text.
#[derive(Debug)]
struct Parsed {
    module: usize,
    imports: Vec<(String, Span)>,
    text: String,
    units: Vec<SourceFile>,
}

impl RequireFeature for Parsed {
    fn feature_requirements(&self, out: &mut Vec<FeatureRequirement>) {
        for (_, span) in &self.imports {
            out.push(FeatureRequirement::new(UnstableFeature::Imports, *span));
        }
    }
}

/// Files by name.
struct Files(Vec<(String, String)>);

/// A program with the files that it imports.
struct Graph {
    main: String,
    loaded: Vec<(String, String)>,
    files: Vec<SourceFile>,
}

/// The sets of jets.
#[derive(Clone, Copy, Debug, PartialEq)]
enum Hinter {
    Core,
    Elements,
}

/// An analyzed text.
#[derive(Debug)]
struct Analyzed {
    text: String,
    parameters: usize,
    witnesses: Vec<(String, String)>,
}

/// Target code with the names of witnesses.
#[derive(Clone, Debug)]
struct Commit {
    witnesses: Vec<(String, String)>,
    arguments: Vec<(String, u32)>,
    symbols: bool,
}

impl Frontend for Toy {
    type Parsed = Parsed;
    type DependencyMap = Files;
    type Graph = Graph;
    type SourceMap = Vec<String>;
    type JetHinter = Hinter;
    type Analyzed = Analyzed;
    type Parameters = Vec<String>;
    type Arguments = Vec<(String, u32)>;
    type WitnessTypes = Vec<(String, String)>;
    type WitnessValues = Vec<(String, u32)>;
    type Value = u32;
    type DebugSymbols = String;
    type Commit = Commit;
    type Redeem = String;
    type Unnamed = Vec<String>;
    type Final = String;
    type Env = u32;

    fn parse_text(module: usize, text: &str) -> (Option<Parsed>, Vec<RichError>) {
        let mut imports = Vec::new();
        let mut errors = Vec::new();
        let mut offset = 0;
        let mut in_comment = false;
        for line in text.split_inclusive('\n') {
            let start = offset;
            offset += line.len();
            in_comment = (in_comment || line.starts_with("/*")) && !line.starts_with("*/");
            if in_comment || line.starts_with("//") {
                continue;
            }
            let span = Span::new(start, start + line.trim_end().len());
            if let Some(path) = line.trim_end().strip_prefix("use ") {
                imports.push((path.trim_end_matches(';').to_string(), span));
            }
            if line.contains("simc") || line.contains("syntax error") {
                errors.push(
                    Error::Grammar {
                        msg: line.trim_end().to_string(),
                    }
                    .with_span(span),
                );
            }
        }
        let text = text.to_string();
        let units = Vec::new();
        (Some(Parsed { module, imports, text, units }), errors)
    }

    fn program_text(program: &Parsed) -> String {
        format!("{}:{}", program.module, program.text)
    }

    fn build_graph(
        source: &SourceFile,
        dependency_map: &Files,
        program: &Parsed,
        unstable_features: &UnstableFeatures,
    ) -> (Result<Option<Graph>, String>, Vec<RichError>) {
        if program.text.contains("driver failure") {
            return (Err("driver failed".to_string()), Vec::new());
        }
        let lax = program.text.contains("lax driver");
        let mut errors = Vec::new();
        let mut loaded: Vec<(String, String)> = Vec::new();
        let mut files: Vec<SourceFile> = Vec::new();
        let mut todo: Vec<(String, Span, SourceFile)> = program
            .imports
            .iter()
            .map(|(path, span)| (path.clone(), *span, source.clone()))
            .collect();
        while let Some((path, span, importer)) = todo.pop() {
            let parts: Vec<&str> = path.split("::").collect();
            let library = if parts[0] == "crate" { "lib" } else { parts[0] };
            let name = format!("libs/{}/{}.simf", library, parts[1]);
            if loaded.iter().any(|(known, _)| *known == name) {
                continue;
            }
            let Some((_, content)) = dependency_map.0.iter().find(|(known, _)| *known == name)
            else {
                let error = Error::FileNotFound { filename: name };
                errors.push(error.with_span(span).with_source(importer));
                continue;
            };
            let source = SourceFile::new(&name, Arc::from(content.as_str()));
            files.push(source.clone());
            if lax {
                loaded.push((name, content.clone()));
                continue;
            }
            let mut handler = ErrorCollector::new();
            let parsed = parse_from_str_with_errors::<Toy>(
                loaded.len() + 1,
                &source,
                unstable_features,
                &mut handler,
            );
            errors.extend(handler.get().iter().cloned());
            if let Some(parsed) = parsed {
                for (path, span) in &parsed.imports {
                    todo.push((path.clone(), *span, source.clone()));
                }
                loaded.push((name, parsed.text));
            }
        }
        if errors.is_empty() {
            let main = program.text.clone();
            (Ok(Some(Graph { main, loaded, files })), errors)
        } else {
            (Ok(None), errors)
        }
    }

    fn graph_files(graph: &Graph) -> Vec<SourceFile> {
        graph.files.clone()
    }

    fn linearize_and_build(graph: &Graph) -> (Result<Option<Parsed>, String>, Vec<RichError>) {
        if graph.main.contains("linearize failure") {
            return (Err("linearize failed".to_string()), Vec::new());
        }
        if graph.main.contains("linearize error") {
            return (Ok(None), vec![RichError::parsing_error("not linear")]);
        }
        let mut text = graph.main.clone();
        for (index, (_, unit)) in graph.loaded.iter().enumerate() {
            text.push_str(&format!("\nmod unit_{} {{{}}}", index + 1, unit));
        }
        let program = Parsed {
            module: MAIN_MODULE,
            imports: Vec::new(),
            text,
            units: graph.files.clone(),
        };
        (Ok(Some(program)), Vec::new())
    }

    fn graph_source_map(graph: &Graph) -> Vec<String> {
        graph.loaded.iter().map(|(name, _)| name.clone()).collect()
    }

    fn analyze(
        program: &Parsed,
        jet_hinter: &Hinter,
    ) -> Result<Analysis<Analyzed, Vec<String>, Vec<(String, String)>>, RichError> {
        for unit in &program.units {
            if let Some(at) = unit.content().find("u32 = true") {
                let error = Error::ExpressionTypeMismatch {
                    expected: "u32".to_string(),
                    found: "bool".to_string(),
                };
                let span = Span::new(at + 6, at + 10);
                return Err(error.with_span(span).with_source(unit.clone()));
            }
        }
        if program.text.contains("error elsewhere") {
            let other = SourceFile::new("other.simf", Arc::from("xyz"));
            return Err(Error::MainRequired.with_span(Span::new(0, 1)).with_source(other));
        }
        if program.text.contains("type error") {
            return Err(Error::MainRequired.with_span(Span::new(0, 1)));
        }
        for jet in ["jet::version", "jet::current_index"] {
            if program.text.contains(jet) && *jet_hinter == Hinter::Core {
                let error = Error::JetDoesNotExist {
                    name: jet.to_string(),
                };
                return Err(error.with_span(Span::new(0, 1)));
            }
        }
        let mut parameters = Vec::new();
        let mut witnesses = Vec::new();
        for line in program.text.lines() {
            if let Some((declared, name)) = line.split_once("= witness::") {
                let bits = declared.split(": u").nth(1).unwrap().trim();
                witnesses.push((
                    name.trim_end_matches(';').to_string(),
                    format!("2^{bits}"),
                ));
            }
            if let Some((_, name)) = line.split_once("param::") {
                parameters.push(name.trim_end_matches(';').to_string());
            }
        }
        let analyzed = Analyzed {
            text: program.text.clone(),
            parameters: parameters.len(),
            witnesses: witnesses.clone(),
        };
        Ok(Analysis {
            program: analyzed,
            parameters: Arc::new(parameters),
            witness_types: Arc::new(witnesses),
        })
    }

    fn debug_symbols(program: &Analyzed, file: &str) -> String {
        format!("{} of {}", program.parameters, file.len())
    }

    fn arguments_consistent(
        arguments: &Vec<(String, u32)>,
        parameters: &Vec<String>,
    ) -> Result<(), String> {
        for name in parameters {
            if !arguments.iter().any(|(given, _)| given == name) {
                return Err(Error::ArgumentMissing { name: name.clone() }.to_string());
            }
        }
        Ok(())
    }

    fn compile(
        program: &Analyzed,
        arguments: Vec<(String, u32)>,
        include_debug_symbols: bool,
        _jet_hinter: &Hinter,
    ) -> Result<Commit, RichError> {
        if program.text.contains("ill typed") {
            let error = Error::CannotCompile {
                source: "loop".to_string(),
            };
            return Err(error.with_span(Span::new(0, 1)));
        }
        Ok(Commit {
            witnesses: program.witnesses.clone(),
            arguments,
            symbols: include_debug_symbols,
        })
    }

    fn forget_names(program: &Commit) -> Vec<String> {
        program.witnesses.iter().map(|(_, ty)| ty.clone()).collect()
    }

    fn post_order(program: &Commit) -> Vec<LayoutNode<String>> {
        let mut nodes = vec![LayoutNode::Other];
        for (name, ty) in &program.witnesses {
            let (name, ty) = (name.clone(), ty.clone());
            nodes.push(LayoutNode::Witness { name, ty });
            nodes.push(LayoutNode::Other);
        }
        nodes
    }

    fn witnesses_consistent(
        witness_values: &Vec<(String, u32)>,
        witness_types: &Vec<(String, String)>,
    ) -> Result<(), String> {
        if witness_values.len() > witness_types.len() {
            return Err("too many".to_string());
        }
        Ok(())
    }

    fn witness_value(witness_values: &Vec<(String, u32)>, name: &str) -> Result<u32, String> {
        match witness_values.iter().find(|(given, _)| given == name) {
            Some((_, value)) => Ok(*value),
            None => Err(format!("missing {name}")),
        }
    }

    fn populate_witnesses(program: &Commit, values: Vec<Arc<u32>>) -> Result<String, String> {
        let mut redeem = format!("{:?} {}", program.arguments, program.symbols);
        for value in values {
            redeem.push_str(&format!(" {value}"));
        }
        Ok(redeem)
    }

    fn prune(program: String, env: &u32) -> Result<String, String> {
        if *env == 0 {
            return Err("does not run".to_string());
        }
        Ok(format!("{program} pruned in {env}"))
    }
}

/// Parses the first file and loads what it imports.
fn setup_graph_raw(files: &[(&str, &str)]) -> (Option<Graph>, ErrorCollector) {
    let owned: Vec<(String, String)> = files
        .iter()
        .map(|(name, content)| (name.to_string(), content.to_string()))
        .collect();
    let source = SourceFile::new(files[0].0, Arc::from(files[0].1));
    let files = Files(owned);
    let features = UnstableFeatures::all();
    let mut handler = ErrorCollector::new();
    let Some(program) =
        parse_from_str_with_errors::<Toy>(MAIN_MODULE, &source, &features, &mut handler)
    else {
        return (None, handler);
    };
    let (graph, errors) = Toy::build_graph(&source, &files, &program, &features);
    handler.append(errors);
    (graph.unwrap(), handler)
}

/// Builds the given files (replacing `{v}` with the current compiler version), runs
/// the dependency-graph build, and asserts the expected outcome. When `expect_success`
/// is false and `expected_err` is `Some`, the collected diagnostics must contain it.
fn check_versions(expect_success: bool, expected_err: Option<&str>, files: &[(&str, &str)]) {
    let v = current_version();
    let owned: Vec<(&str, String)> = files
        .iter()
        .map(|(p, c)| (*p, c.replace("{v}", v)))
        .collect();
    let refs: Vec<(&str, &str)> = owned.iter().map(|(p, c)| (*p, c.as_str())).collect();
    let (graph_opt, handler) = setup_graph_raw(&refs);

    if expect_success {
        assert!(
            graph_opt.is_some() && !handler.has_errors(),
            "Scenario failed unexpectedly. Errors:\n{}",
            handler.to_string()
        );
        return;
    }

    assert!(
        graph_opt.is_none() || handler.has_errors(),
        "Scenario succeeded when it should have failed."
    );
    if let Some(err) = expected_err {
        assert!(
            handler.to_string().contains(err),
            "Expected error containing '{err}' but got:\n{}",
            handler.to_string()
        );
    }
}

/// A multi-file program whose every file declares a compatible directive compiles:
/// each directive is checked and stripped, and the bodies still parse across `use`.
#[test]
fn mixed_valid_operators() {
    check_versions(
        true,
        None,
        &[
            (
                "main.simf",
                r#"simc "^{v}";
use lib::A::foo;
fn main() {}"#,
            ),
            (
                "libs/lib/A.simf",
                r#"simc "={v}";
use crate::B::foo;
pub fn foo() {}"#,
            ),
            (
                "libs/lib/B.simf",
                r#"simc ">0.1.0";
use crate::C::foo;
pub fn foo() {}"#,
            ),
            (
                "libs/lib/C.simf",
                r#"simc "*";
pub fn foo() {}"#,
            ),
        ],
    );
}

/// The entry file's directive is checked.
#[test]
fn main_too_old_fails() {
    check_versions(
        false,
        Some("Incompatible compiler version"),
        &[
            (
                "main.simf",
                r#"simc ">99.0.0";
use lib::A::foo;
fn main() {}"#,
            ),
            (
                "libs/lib/A.simf",
                r#"simc "={v}";
pub fn foo() {}"#,
            ),
        ],
    );
}

/// Every reachable dependency's directive is checked, not just the entry file.
#[test]
fn lib_too_old_fails() {
    check_versions(
        false,
        Some("Incompatible compiler version"),
        &[
            (
                "main.simf",
                r#"simc "={v}";
use lib::A::foo;
fn main() {}"#,
            ),
            (
                "libs/lib/A.simf",
                r#"simc ">99.0.0";
pub fn foo() {}"#,
            ),
        ],
    );
}

/// A file that is never imported is not checked, even with an incompatible directive.
#[test]
fn unreferenced_file_with_invalid_version_ignored() {
    check_versions(
        true,
        None,
        &[
            (
                "main.simf",
                r#"simc "={v}";
use lib::A::foo;
fn main() {}"#,
            ),
            (
                "libs/lib/A.simf",
                r#"simc "={v}";
pub fn foo() {}"#,
            ),
            (
                "libs/lib/B.simf",
                r#"simc ">99.0.0";
pub fn unused() {}"#,
            ),
        ],
    );
}

/// An omitted directive is allowed through the driver: only a present directive is
/// enforced, so a directive-less entry file builds successfully.
#[test]
fn directive_omitted() {
    check_versions(true, None, &[("main.simf", "fn main() {}")]);
}

/// A file may declare at most one directive.
#[test]
fn multiple_directives_same_file_fails() {
    check_versions(
        false,
        Some("Exactly one compiler version directive"),
        &[(
            "main.simf",
            r#"simc "={v}";
simc "={v}";
fn main() {}"#,
        )],
    );
}

/// A malformed version requirement surfaces through the pipeline.
#[test]
fn invalid_syntax_main() {
    check_versions(
        false,
        Some("Invalid version syntax"),
        &[
            (
                "main.simf",
                r#"simc "foo";
use lib::A::foo;
fn main() {}"#,
            ),
            (
                "libs/lib/A.simf",
                r#"simc "={v}";
pub fn foo() {}"#,
            ),
        ],
    );
}

/// A directive may follow a leading line comment; a commented-out directive does not
/// count.
#[test]
fn version_in_comment_ignored() {
    check_versions(
        true,
        None,
        &[(
            "main.simf",
            r#"// simc "=99.0.0";
simc "={v}";
fn main() {}"#,
        )],
    );
}

/// A directive may follow a leading block comment; one inside the comment does not
/// count.
#[test]
fn version_in_block_comment_ignored() {
    check_versions(
        true,
        None,
        &[(
            "main.simf",
            r#"/*
simc "=99.0.0";
*/
simc "={v}";
fn main() {}"#,
        )],
    );
}

#[test]
fn test_anonymous_source_compiles_without_dependencies() {
    let code = "fn main() { assert!(true); }";
    let program = TemplateProgram::<Toy>::new(code, Hinter::Elements);
    assert!(
        program.is_ok(),
        "TemplateProgram::new should successfully compile anonymous source files without requiring canonical paths"
    );
}

#[test]
fn test_compilation_against_different_jet_hinters() {
    let code = r#"fn main() {
    let (_, sum): (bool, u32) = jet::add_32(10, 20);
    assert!(jet::eq_32(sum, 30));
    let and_result: u32 = jet::and_32(0xFF00FF00, 0x0F0F0F0F);
    assert!(jet::eq_32(and_result, 0x0F000F00));
}"#;

    for hinter in [Hinter::Core, Hinter::Elements] {
        let program = TemplateProgram::<Toy>::new(code, hinter);
        assert!(
            program.is_ok(),
            "TemplateProgram::new should successfully compile the same program with different jet hinters: {:?}",
            program.err(),
        );
    }
}

#[test]
fn test_fail_with_different_jet_hinters() {
    // Uses jets that exist only in Elements (not in Core).
    let code = r#"fn main() {
    let v: u32 = jet::version();
    let idx: u32 = jet::current_index();
    assert!(jet::eq_32(v, v));
    assert!(jet::eq_32(idx, idx));
}"#;

    let elements_result = TemplateProgram::<Toy>::new(code, Hinter::Elements);
    assert!(
        elements_result.is_ok(),
        "ElementsJetHinter should compile Elements-specific jets: {:?}",
        elements_result.err(),
    );

    let core_result = TemplateProgram::<Toy>::new(code, Hinter::Core);
    assert!(
        core_result.is_err(),
        "CoreJetHinter should fail to compile Elements-specific jets",
    );
}

#[test]
fn compatible_directive_compiles() {
    // Ranges cannot name pre-releases, so an `-rc` compiler substitutes its base version.
    let version = current_version().split('-').next().unwrap();
    let compatible = format!("simc \"{version}\";\nfn main() {{}}");
    assert!(TemplateProgram::<Toy>::new(compatible, Hinter::Elements).is_ok());
}

/// The producing compiler's version is readable from the program objects.
#[test]
fn compiler_version_accessor() {
    let Ok(template) = TemplateProgram::<Toy>::new("fn main() {}", Hinter::Elements) else {
        panic!("template expected");
    };
    assert_eq!(template.compiler_version(), "0.6.0-rc.0");
    let Ok(compiled) = template.instantiate(Vec::new(), false) else {
        panic!("program expected");
    };
    assert_eq!(compiled.compiler_version(), "0.6.0-rc.0");
}

#[test]
fn incompatible_directive_aborts() {
    let too_old = "simc \">= 99.99.99\";\nfn main() {}";
    let Err(err) = TemplateProgram::<Toy>::new(too_old, Hinter::Elements) else {
        panic!("error expected");
    };
    let err = err.to_string();
    assert!(
        err.contains("Incompatible compiler version"),
        "Expected 'Incompatible compiler version', got: {}",
        err
    );
}

/// A program with two witnesses of distinct types, for the layout tests.
fn two_witness_program() -> CompiledProgram<Toy> {
    let src = "fn main() {
            let a: u16 = witness::A;
            let b: u32 = witness::B;
            assert!(jet::eq_16(a, 7));
            assert!(jet::eq_32(b, 9));
        }";
    match CompiledProgram::new(src, Vec::new(), false, Hinter::Elements) {
        Ok(program) => program,
        Err(e) => panic!("{e}"),
    }
}

/// The layout lists every witness node with its name and Simplicity type,
/// in the order the nodes occur in the target code.
#[test]
fn witness_layout_names_and_types() {
    let layout = two_witness_program().witness_layout();
    let entries: Vec<(&str, String)> = layout
        .iter()
        .map(|(name, ty)| (name.as_str(), ty.to_string()))
        .collect();
    assert_eq!(
        entries,
        [("A", "2^16".to_string()), ("B", "2^32".to_string())]
    );
    assert_eq!(two_witness_program().commit(), ["2^16", "2^32"]);
}

#[test]
fn layout_keeps_repeated_names() {
    let node = |name: &str, ty: u8| LayoutNode::Witness {
        name: name.to_string(),
        ty,
    };
    let nodes = vec![
        node("a", 1),
        LayoutNode::Other,
        node("b", 2),
        node("a", 1),
        LayoutNode::Other,
    ];
    let entry = |name: &str, ty: u8| (name.to_string(), ty);
    assert_eq!(
        layout_of(nodes),
        vec![entry("a", 1), entry("b", 2), entry("a", 1)]
    );
    assert_eq!(layout_of(Vec::<LayoutNode<u8>>::new()), vec![]);
}

#[test]
fn the_directive_is_checked_before_parsing_and_blanked_for_it() {
    let features = UnstableFeatures::all();
    // The toy parser stumbles over the word in a file; it never sees the directive.
    let source = SourceFile::anonymous(Arc::from("simc \"*\";\nuse lib::A::foo;"));
    let mut handler = ErrorCollector::new();
    let parsed =
        parse_from_str_with_errors::<Toy>(3, &source, &features, &mut handler).unwrap();
    assert_eq!(parsed.module, 3);
    assert_eq!(parsed.text, "         \nuse lib::A::foo;");
    assert_eq!(parsed.imports[0].1, Span::new(10, 26));
    // A refused directive is the only error, whatever the rest of the file holds.
    let source = SourceFile::anonymous(Arc::from("simc \">99\";\nsyntax error"));
    let mut handler = ErrorCollector::new();
    assert!(parse_from_str_with_errors::<Toy>(0, &source, &features, &mut handler).is_none());
    assert_eq!(handler.get().len(), 1);
    assert!(matches!(
        handler.get()[0].error(),
        Error::SimcVersionMismatch { .. }
    ));
    // The errors of the parser and of disabled features come together.
    let source = SourceFile::anonymous(Arc::from("use lib::A::foo;\nsyntax error"));
    let mut handler = ErrorCollector::new();
    let none = UnstableFeatures::none();
    assert!(parse_from_str_with_errors::<Toy>(0, &source, &none, &mut handler).is_none());
    assert_eq!(handler.get().len(), 2);
    assert!(matches!(handler.get()[0].error(), Error::Grammar { .. }));
    assert!(matches!(
        handler.get()[1].error(),
        Error::UnstableFeature { .. }
    ));
}

#[test]
fn check_source_records_the_error_with_its_file() {
    let mut handler = ErrorCollector::new();
    check_source(
        &SourceFile::new("a.simf", Arc::from("simc \">99.0.0\";\n")),
        &mut handler,
    );
    check_source(&SourceFile::anonymous(Arc::from("simc \"*\";\n")), &mut handler);
    assert_eq!(
        handler.to_string(),
        " --> a.simf:1:1\n  |\n1 | simc \">99.0.0\";\n  | ^^^^^^^^^^^^^^^ Incompatible compiler \
         version: the file requires `>99.0.0`, but the compiler is `0.6.0-rc.0`\n\n"
    );
}

#[test]
fn features_must_be_enabled() {
    let text = "use lib::A::foo;\nfn main() {}";
    let Err(errors) = TemplateProgram::<Toy>::new(text, Hinter::Core) else {
        panic!("error expected");
    };
    assert!(errors.to_string().contains("Enable it with: -Z imports"));
    let all = UnstableFeatures::all();
    assert!(TemplateProgram::<Toy>::new_with_unstable(text, &all, Hinter::Core).is_ok());
}

fn main_with_library(main: &str) -> (SourceFile, Files) {
    let source = SourceFile::new("main.simf", Arc::from(main));
    let files = Files(vec![(
        "libs/lib/A.simf".to_string(),
        "simc \"*\";\npub fn foo() {}".to_string(),
    )]);
    (source, files)
}

#[test]
fn flattening_joins_the_files() {
    let all = UnstableFeatures::all();
    let (source, files) = main_with_library("simc \"*\";\nuse lib::A::foo;");
    assert_eq!(
        TemplateProgram::<Toy>::flatten(source, &files, &all).unwrap(),
        "0:         \nuse lib::A::foo;\nmod unit_1 {         \npub fn foo() {}}"
    );
    // The outcome of each stage ends it.
    let (source, files) = main_with_library("syntax error");
    assert_eq!(
        TemplateProgram::<Toy>::flatten(source, &files, &all).unwrap_err(),
        " --> main.simf:1:1\n  |\n1 | syntax error\n  | ^^^^^^^^^^^^ Grammar error: syntax error\n\n"
    );
    let (source, files) = main_with_library("use lib::B::foo;");
    assert_eq!(
        TemplateProgram::<Toy>::flatten(source, &files, &all).unwrap_err(),
        " --> main.simf:1:1\n  |\n1 | use lib::B::foo;\n  | ^^^^^^^^^^^^^^^^ Local file \
         `libs/lib/B.simf` not found\n\n"
    );
    let (source, files) = main_with_library("driver failure");
    assert_eq!(
        TemplateProgram::<Toy>::flatten(source, &files, &all).unwrap_err(),
        "Cannot parse: driver failed\n\n"
    );
    let (source, files) = main_with_library("linearize failure");
    assert_eq!(
        TemplateProgram::<Toy>::flatten(source, &files, &all).unwrap_err(),
        "linearize failed"
    );
    let (source, files) = main_with_library("linearize error");
    assert_eq!(
        TemplateProgram::<Toy>::flatten(source, &files, &all).unwrap_err(),
        "Cannot parse: not linear\n\n"
    );
}

#[test]
fn templates_carry_their_parts() {
    let all = UnstableFeatures::all();
    let (source, files) = main_with_library("use lib::A::foo;\nlet x = param::P;");
    let Ok(template) = TemplateProgram::<Toy>::new_with_dep(source, &files, &all, Hinter::Core)
    else {
        panic!("template expected");
    };
    assert_eq!(template.source_map(), &["libs/lib/A.simf"]);
    assert_eq!(template.parameters(), &["P"]);
    assert!(template.witness_types().is_empty());
    assert!(template.resolved_program().text.contains("mod unit_1"));
    let Ok(abi) = template.generate_abi_meta() else {
        panic!("interface expected");
    };
    assert_eq!(*abi.param_types, ["P"]);
    assert!(abi.witness_types.is_empty());

    let Ok(single) = TemplateProgram::<Toy>::new("fn main() {}", Hinter::Core) else {
        panic!("template expected");
    };
    assert!(single.source_map().is_empty());

    for (main, count, text) in [
        ("driver failure", 1, "Cannot parse: driver failed"),
        ("linearize failure", 1, "Cannot parse: linearize failed"),
        ("linearize error", 1, "Cannot parse: not linear"),
        ("type error", 1, "Main function is required"),
        ("simc \"=0.1.0\";", 1, "Incompatible compiler version"),
    ] {
        let (source, files) = main_with_library(main);
        let Err(errors) =
            TemplateProgram::<Toy>::new_with_dep(source, &files, &all, Hinter::Core)
        else {
            panic!("error expected");
        };
        assert_eq!(errors.get().len(), count, "{main}");
        assert!(errors.to_string().contains(text), "{}", errors.to_string());
    }
}

#[test]
fn arguments_have_to_fit() {
    let text = "let x = param::P;";
    let compile = |arguments: Vec<(String, u32)>| {
        CompiledProgram::<Toy>::new(text, arguments, true, Hinter::Core)
    };
    let Err(e) = compile(Vec::new()) else {
        panic!("error expected");
    };
    assert_eq!(e, "Parameter `P` is missing an argument");
    let Ok(program) = compile(vec![("P".to_string(), 4)]) else {
        panic!("program expected");
    };
    assert_eq!(program.debug_symbols(), "1 of 17");
    let Ok(abi) = program.generate_abi_meta() else {
        panic!("interface expected");
    };
    assert_eq!(*abi.param_types, ["P"]);
    assert!(abi.witness_types.is_empty());
    // The error of a later stage is shown in the text.
    let Err(e) = CompiledProgram::<Toy>::new("ill typed", Vec::new(), true, Hinter::Core) else {
        panic!("error expected");
    };
    assert_eq!(
        e,
        "  |\n1 | ill typed\n  | ^ Failed to compile to Simplicity"
    );
    let Err(e) = CompiledProgram::<Toy>::new("type error", Vec::new(), true, Hinter::Core) else {
        panic!("error expected");
    };
    assert_eq!(
        e,
        "  |\n1 | type error\n  | ^ Main function is required\n\n"
    );
}

#[test]
fn programs_with_dependencies_compile() {
    let all = UnstableFeatures::all();
    let (source, files) = main_with_library("use lib::A::foo;");
    assert!(CompiledProgram::<Toy>::new_with_dep(
        source,
        &files,
        &all,
        Vec::new(),
        false,
        Hinter::Core
    )
    .is_ok());
    let (source, files) = main_with_library("driver failure");
    let Err(e) = CompiledProgram::<Toy>::new_with_dep(
        source,
        &files,
        &all,
        Vec::new(),
        false,
        Hinter::Core,
    ) else {
        panic!("error expected");
    };
    assert_eq!(e, "Cannot parse: driver failed\n\n");
    assert!(CompiledProgram::<Toy>::new_with_unstable(
        "use lib::A::foo;",
        &all,
        Vec::new(),
        false,
        Hinter::Core
    )
    .is_ok());
}

#[test]
fn witness_values_have_to_fit() {
    let value = |name: &str, v: u32| (name.to_string(), v);
    let program = two_witness_program();
    let Ok(satisfied) = program.satisfy(vec![value("B", 9), value("A", 7)]) else {
        panic!("program expected");
    };
    assert_eq!(satisfied.redeem(), "[] false 7 9");
    assert_eq!(satisfied.debug_symbols(), program.debug_symbols());
    let failures = [
        (vec![value("A", 7)], None, "missing B"),
        (
            vec![value("A", 7), value("B", 9), value("C", 1)],
            None,
            "too many",
        ),
        (
            vec![value("A", 7), value("B", 9)],
            Some(&0),
            "does not run",
        ),
    ];
    for (values, env, text) in failures {
        let Err(e) = program.satisfy_with_env(values, env) else {
            panic!("error expected");
        };
        assert_eq!(e, text);
    }
    let Ok(satisfied) =
        program.satisfy_with_env(vec![value("B", 9), value("A", 7)], Some(&5))
    else {
        panic!("program expected");
    };
    assert_eq!(satisfied.redeem(), "[] false 7 9 pruned in 5");
}

#[test]
fn texts_are_satisfied_in_one_go() {
    let text = "let a: u16 = witness::A;";
    let values = || vec![("A".to_string(), 3)];
    let Ok(program) =
        SatisfiedProgram::<Toy>::new(text, Vec::new(), values(), true, Hinter::Core)
    else {
        panic!("program expected");
    };
    assert_eq!(program.redeem(), "[] true 3");
    let imports = "use lib::A::foo;\nlet a: u16 = witness::A;";
    assert!(
        SatisfiedProgram::<Toy>::new(imports, Vec::new(), values(), true, Hinter::Core).is_err()
    );
    assert!(SatisfiedProgram::<Toy>::new_with_unstable(
        imports,
        &UnstableFeatures::all(),
        Vec::new(),
        values(),
        true,
        Hinter::Core
    )
    .is_ok());
    let Err(e) = SatisfiedProgram::<Toy>::new(text, Vec::new(), Vec::new(), true, Hinter::Core)
    else {
        panic!("error expected");
    };
    assert_eq!(e, "missing A");
}

#[test]
fn stage_outcomes_are_taken_as_they_come() {
    let source = SourceFile::anonymous(Arc::from("abc"));
    let none = UnstableFeatures::none();
    let error = || Error::MainNoInputs.with_span(Span::new(0, 1));
    let parsed = |imports: usize| Parsed {
        module: 0,
        imports: vec![(String::new(), Span::new(0, 1)); imports],
        text: String::new(),
        units: Vec::new(),
    };

    let mut handler = ErrorCollector::new();
    assert!(finish_parse(Some(parsed(0)), vec![], &source, &none, &mut handler).is_some());
    assert!(finish_parse(Some(parsed(0)), vec![error()], &source, &none, &mut handler).is_none());
    assert!(finish_parse(None::<Parsed>, vec![], &source, &none, &mut handler).is_none());
    assert!(finish_parse(Some(parsed(2)), vec![], &source, &none, &mut handler).is_none());
    assert_eq!(handler.get().len(), 3);
    // Errors from before do not count against a text.
    assert!(finish_parse(Some(parsed(0)), vec![], &source, &none, &mut handler).is_some());

    let mut handler = ErrorCollector::new();
    assert_eq!(take_graph(Ok(Some(5)), vec![error()], &mut handler), Some(5));
    assert_eq!(take_graph(Ok(None::<u8>), vec![], &mut handler), None);
    assert_eq!(
        take_graph(Err::<Option<u8>, String>("x".to_string()), vec![], &mut handler),
        None
    );
    assert_eq!(
        handler.to_string(),
        "Main function takes no input parameters\n\nCannot parse: x\n\n"
    );

    let mut handler = ErrorCollector::new();
    assert_eq!(
        take_linearized(Ok(Some(5)), vec![error()], &mut handler),
        Ok(Some(5))
    );
    assert_eq!(
        take_linearized(Err::<Option<u8>, String>("x".to_string()), vec![], &mut handler),
        Err("x".to_string())
    );
    assert_eq!(handler.get().len(), 2);

    let mut handler = ErrorCollector::new();
    assert_eq!(take_analysis(Ok(5), &source, &mut handler), Some(5));
    assert_eq!(
        take_analysis(Err::<u8, RichError>(error()), &source, &mut handler),
        None
    );
    assert_eq!(
        &*handler.get()[0].source().as_ref().unwrap().content(),
        "abc"
    );
    // An error that names its file keeps it.
    let other = SourceFile::new("other.simf", Arc::from("xyz"));
    let named = error().with_source(other);
    assert_eq!(
        take_analysis(Err::<u8, RichError>(named), &source, &mut handler),
        None
    );
    assert_eq!(
        handler.get()[1].source().as_ref().unwrap().name(),
        Some("other.simf")
    );
}

#[test]
fn a_mismatch_in_a_dependency_names_its_file() {
    let source = SourceFile::new(
        "main.simf",
        Arc::from("simc \"*\";\nuse lib::module::add;\nfn main() {}\n"),
    );
    let files = Files(vec![(
        "libs/lib/module.simf".to_string(),
        "simc \">99.0.0\";\npub fn add() {}\n".to_string(),
    )]);
    let all = UnstableFeatures::all();
    let Err(errors) = TemplateProgram::<Toy>::new_with_dep(source, &files, &all, Hinter::Core)
    else {
        panic!("error expected");
    };
    let text = errors.to_string();
    assert!(text.contains("Incompatible compiler version"), "{text}");
    assert!(text.contains("module.simf"), "{text}");
}

#[test]
fn dependency_ast_errors_use_dependency_source_file() {
    let source = SourceFile::new(
        "main.simf",
        Arc::from("use lib::bad::f;\nfn main() { f(); }\n"),
    );
    let files = Files(vec![(
        "libs/lib/bad.simf".to_string(),
        "pub fn f() { let x: u32 = true; }\n".to_string(),
    )]);
    let all = UnstableFeatures::all();
    let Err(err) = TemplateProgram::<Toy>::new_with_dep(source, &files, &all, Hinter::Elements)
    else {
        panic!("dependency body has a type error");
    };
    let dependency_source = "libs/lib/bad.simf";
    assert!(
        err.to_string().contains(dependency_source),
        "expected diagnostic to point at dependency source {dependency_source}, got:\n{}",
        err.to_string()
    );
    assert_eq!(
        err.to_string(),
        " --> libs/lib/bad.simf:1:27\n  |\n1 | pub fn f() { let x: u32 = true; }\n  | \
         \x20                         ^^^^ Expected expression of type `u32`, found type \
         `bool`\n\n"
    );
}

#[test]
fn loaded_files_are_checked_whatever_the_driver_does() {
    let all = UnstableFeatures::all();
    let with = |library: &str| {
        let source = SourceFile::new(
            "main.simf",
            Arc::from("use lib::A::foo;\n// lax driver\nfn main() {}"),
        );
        let files = Files(vec![("libs/lib/A.simf".to_string(), library.to_string())]);
        TemplateProgram::<Toy>::new_with_dep(source, &files, &all, Hinter::Core)
    };
    assert!(with("simc \"*\";\npub fn foo() {}").is_ok());
    assert!(with("pub fn foo() {}").is_ok());
    let Err(errors) = with("simc \">99.0.0\";\npub fn foo() {}") else {
        panic!("error expected");
    };
    assert_eq!(errors.get().len(), 1);
    let text = errors.to_string();
    assert!(text.contains("libs/lib/A.simf"), "{text}");
    assert!(text.contains("Incompatible compiler version"), "{text}");
    assert!(with("pub fn foo() {}\nsimc \"*\";").is_err());

    let mut handler = ErrorCollector::new();
    let file = |text: &str| SourceFile::anonymous(Arc::from(text));
    check_files(
        &vec![file("simc \"*\";"), file("simc foo"), file(""), file("simc \"=0.1.0\";")],
        &mut handler,
    );
    assert_eq!(handler.get().len(), 2);
    assert!(matches!(
        handler.get()[0].error(),
        Error::InvalidSimcVersionSyntax { .. }
    ));
    assert!(matches!(
        handler.get()[1].error(),
        Error::SimcVersionMismatch { .. }
    ));
}

#[test]
fn each_witness_node_takes_the_value_of_its_name() {
    let entry = |name: &str| (name.to_string(), "2^8".to_string());
    let values = vec![("b".to_string(), 2), ("a".to_string(), 1)];
    let entries = vec![entry("a"), entry("b"), entry("a")];
    let given = assign::<Toy>(&values, &entries).unwrap();
    let given: Vec<u32> = given.iter().map(|value| **value).collect();
    assert_eq!(given, [1, 2, 1]);
    assert_eq!(
        assign::<Toy>(&values, &vec![entry("a"), entry("c"), entry("d")]),
        Err("missing c".to_string())
    );
    assert_eq!(assign::<Toy>(&values, &Vec::new()), Ok(Vec::new()));

    let text = "let a: u16 = witness::A;\nlet b: u8 = witness::B;\nlet c: u16 = witness::A;";
    let Ok(program) = CompiledProgram::<Toy>::new(text, Vec::new(), true, Hinter::Core) else {
        panic!("program expected");
    };
    let names: Vec<String> = program.witness_layout().into_iter().map(|(name, _)| name).collect();
    assert_eq!(names, ["A", "B", "A"]);
    let values = vec![("B".to_string(), 5), ("A".to_string(), 3)];
    let by_layout = assign::<Toy>(&values, &program.witness_layout()).unwrap();
    let by_layout: Vec<u32> = by_layout.iter().map(|value| **value).collect();
    assert_eq!(by_layout, [3, 5, 3]);
    let Ok(satisfied) = program.satisfy(values) else {
        panic!("program expected");
    };
    assert_eq!(satisfied.redeem(), "[] true 3 5 3");
}

#[test]
fn a_template_and_its_programs_have_one_interface() {
    let text = "let a: u16 = witness::A;\nlet x = param::P;";
    let Ok(template) = TemplateProgram::<Toy>::new(text, Hinter::Core) else {
        panic!("template expected");
    };
    let Ok(program) = template.instantiate(vec![("P".to_string(), 1)], true) else {
        panic!("program expected");
    };
    let (Ok(before), Ok(after)) = (template.generate_abi_meta(), program.generate_abi_meta())
    else {
        panic!("interfaces expected");
    };
    assert_eq!(before, after);
    assert_eq!(before.clone(), before);
    assert_eq!(*after.witness_types, [("A".to_string(), "2^16".to_string())]);
    assert!(format!("{template:?} {program:?}").contains("param::P"));

    let values = || vec![("A".to_string(), 3)];
    let (Ok(one), Ok(other)) = (program.satisfy(values()), program.clone().satisfy(values()))
    else {
        panic!("programs expected");
    };
    assert_eq!(one, other);
    assert_eq!(one.clone().debug_symbols(), program.debug_symbols());
}

#[test]
fn more_features_change_nothing_for_an_accepted_program() {
    let text = "let x = param::P;";
    let redeem = |features: &UnstableFeatures| {
        let program = SatisfiedProgram::<Toy>::new_with_unstable(
            text,
            features,
            vec![("P".to_string(), 4)],
            Vec::new(),
            true,
            Hinter::Core,
        );
        program.unwrap().redeem().clone()
    };
    let plain = SatisfiedProgram::<Toy>::new(
        text,
        vec![("P".to_string(), 4)],
        Vec::new(),
        true,
        Hinter::Core,
    );
    assert_eq!(plain.unwrap().redeem(), &redeem(&UnstableFeatures::none()));
    assert_eq!(
        redeem(&UnstableFeatures::none()),
        redeem(&UnstableFeatures::all())
    );
}

#[test]
fn an_error_in_a_single_text_stands_in_the_text() {
    let Err(errors) = TemplateProgram::<Toy>::new("error elsewhere", Hinter::Core) else {
        panic!("error expected");
    };
    assert_eq!(
        errors.to_string(),
        "  |\n1 | error elsewhere\n  | ^ Main function is required\n\n"
    );
    assert_eq!(errors.get()[0].source().as_ref().unwrap().name(), None);
    // With dependencies, it stands in the file that it names.
    let all = UnstableFeatures::all();
    let (source, files) = main_with_library("error elsewhere");
    let Err(errors) = TemplateProgram::<Toy>::new_with_dep(source, &files, &all, Hinter::Core)
    else {
        panic!("error expected");
    };
    assert_eq!(
        errors.to_string(),
        " --> other.simf:1:1\n  |\n1 | xyz\n  | ^ Main function is required\n\n"
    );
}

#[test]
fn files_that_are_not_loaded_change_nothing() {
    let all = UnstableFeatures::all();
    let build = |more: &[(&str, &str)]| {
        let (source, mut files) = main_with_library("use lib::A::foo;\nlet x = param::P;");
        for (name, content) in more {
            files.0.push((name.to_string(), content.to_string()));
        }
        let Ok(template) =
            TemplateProgram::<Toy>::new_with_dep(source, &files, &all, Hinter::Core)
        else {
            panic!("template expected");
        };
        format!("{template:?}")
    };
    let alone = build(&[]);
    assert_eq!(build(&[("libs/lib/B.simf", "simc \">99.0.0\";")]), alone);
    assert_eq!(build(&[("libs/lib/B.simf", "syntax error")]), alone);
}
