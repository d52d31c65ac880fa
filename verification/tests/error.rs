use std::sync::Arc;

use simplicityhl::error::{
    Error, ErrorCollector, Expected, RichError, Span, WithContent, WithSource, WithSpan,
};
use simplicityhl::render::get_line_col;
use simplicityhl::source::SourceFile;
use simplicityhl::UnstableFeature;

const CONTENT: &str = r#"let a1: List<u32, 5> = None;
let x: u32 = Left(
    Right(0)
);"#;
const EMPTY_FILE: &str = "";

#[test]
fn display_single_line() {
    let error = Error::ListBoundPow2 { bound: 5 }
        .with_span(Span::new(13, 19))
        .with_content(Arc::from(CONTENT));
    let expected = r#"
  |
1 | let a1: List<u32, 5> = None;
  |              ^^^^^^ Expected a power of two greater than one (2, 4, 8, 16, 32, ...) as list bound, found 5"#;
    assert_eq!(&expected[1..], &error.to_string());
}

#[test]
fn display_multi_line() {
    let error = Error::CannotParse {
        msg: "Expected value of type `u32`, got `Either<Either<_, u32>, _>`".to_string(),
    }
    .with_span(Span::new(41, CONTENT.len()))
    .with_content(Arc::from(CONTENT));
    let expected = r#"
  |
2 | let x: u32 = Left(
3 |     Right(0)
4 | );
  | ^^^^^^^^^^^^^^^^^^ Cannot parse: Expected value of type `u32`, got `Either<Either<_, u32>, _>`"#;
    assert_eq!(&expected[1..], &error.to_string());
}

#[test]
fn display_entire_file() {
    let error = Error::CannotParse {
        msg: "This span covers the entire file".to_string(),
    }
    .with_span(Span::from(CONTENT))
    .with_content(Arc::from(CONTENT));
    let expected = r#"
  |
1 | let a1: List<u32, 5> = None;
2 | let x: u32 = Left(
3 |     Right(0)
4 | );
  | ^^^^^^^^^^^^^^^^^^^^^^^^^^^^ Cannot parse: This span covers the entire file"#;
    assert_eq!(&expected[1..], &error.to_string());
}

#[test]
fn display_no_file() {
    let error = Error::CannotParse {
        msg: "This error has no file".to_string(),
    }
    .with_span(Span::from(EMPTY_FILE));
    let expected = "Cannot parse: This error has no file";
    assert_eq!(&expected, &error.to_string());

    let error = Error::CannotParse {
        msg: "This error has no file".to_string(),
    }
    .with_span(Span::new(5, 10));
    assert_eq!(&expected, &error.to_string());
}

#[test]
fn display_empty_file() {
    let error = Error::CannotParse {
        msg: "This error has an empty file".to_string(),
    }
    .with_span(Span::from(EMPTY_FILE))
    .with_content(Arc::from(EMPTY_FILE));
    let expected = "Cannot parse: This error has an empty file";
    assert_eq!(&expected, &error.to_string());
}

#[test]
fn display_with_utf16_chars() {
    let file = "/*😀*/ let a: u8 = 65536;";
    let error = Error::CannotParse {
        msg: "number too large to fit in target type".to_string(),
    }
    .with_span(Span::new(21, 26))
    .with_content(Arc::from(file));

    let expected = r#"
  |
1 | /*😀*/ let a: u8 = 65536;
  |                    ^^^^^ Cannot parse: number too large to fit in target type"#;

    assert_eq!(&expected[1..], &error.to_string());
}

#[test]
fn multiline_display_with_utf16_chars() {
    let file = r#"/*😀 this symbol should not break the rendering*/
let a: u8 = 65536;
let x: u32 = Left(
    Right(0)
);"#;
    let error = Error::CannotParse {
        msg: "This span covers the entire file".to_string(),
    }
    .with_span(Span::from(file))
    .with_content(Arc::from(file));

    let expected = r#"
  |
1 | /*😀 this symbol should not break the rendering*/
2 | let a: u8 = 65536;
3 | let x: u32 = Left(
4 |     Right(0)
5 | );
  | ^^^^^^^^^^^^^^^^^^^^^^^^^^^^^^^^^^^^^^^^^^^^^^^^^ Cannot parse: This span covers the entire file"#;

    assert_eq!(&expected[1..], &error.to_string());
}

#[test]
fn display_with_unicode_separator() {
    let file = "let a: u8 = 65536;\u{2028}let b: u8 = 0;";
    let error = Error::CannotParse {
        msg: "number too large to fit in target type".to_string(),
    }
    .with_span(Span::new(12, 17))
    .with_content(Arc::from(file));

    let expected = r#"
  |
1 | let a: u8 = 65536;
  |             ^^^^^ Cannot parse: number too large to fit in target type"#;

    assert_eq!(&expected[1..], &error.to_string());
}

#[test]
fn display_span_as_point() {
    let file = "fn main()";
    let error = Error::Grammar {
        msg: "Error span at (0,0)".to_string(),
    }
    .with_span(Span::new(0, 0))
    .with_content(Arc::from(file));

    let expected = r#"
  |
1 | fn main()
  | ^ Grammar error: Error span at (0,0)"#;
    assert_eq!(&expected[1..], &error.to_string());
}

#[test]
fn display_span_as_point_on_trailing_empty_line() {
    let file = "fn main(){\n    let a:\n";
    let error = Error::CannotParse {
        msg: "eof".to_string(),
    }
    .with_span(Span::new(file.len(), file.len()))
    .with_content(Arc::from(file));

    let expected = "\n  |\n3 | \n  | ^ Cannot parse: eof";

    assert_eq!(&expected[1..], &error.to_string());
}

// --- Tests with filename ---
#[test]
fn display_single_line_with_file() {
    let source = SourceFile::new("src/main.simf", Arc::from(CONTENT));
    let error = Error::ListBoundPow2 { bound: 5 }
        .with_span(Span::new(13, 19))
        .with_source(source);

    let expected = r#"
 --> src/main.simf:1:14
  |
1 | let a1: List<u32, 5> = None;
  |              ^^^^^^ Expected a power of two greater than one (2, 4, 8, 16, 32, ...) as list bound, found 5"#;
    assert_eq!(&expected[1..], &error.to_string());
}

#[test]
fn display_multi_line_with_file() {
    let source = SourceFile::new("lib/parser.simf", Arc::from(CONTENT));
    let error = Error::CannotParse {
        msg: "Expected value of type `u32`, got `Either<Either<_, u32>, _>`".to_string(),
    }
    .with_span(Span::new(41, CONTENT.len()))
    .with_source(source);

    let expected = r#"
 --> lib/parser.simf:2:13
  |
2 | let x: u32 = Left(
3 |     Right(0)
4 | );
  | ^^^^^^^^^^^^^^^^^^ Cannot parse: Expected value of type `u32`, got `Either<Either<_, u32>, _>`"#;
    assert_eq!(&expected[1..], &error.to_string());
}

#[test]
fn display_entire_file_with_file() {
    let source = SourceFile::new("tests/integration.simf", Arc::from(CONTENT));
    let error = Error::CannotParse {
        msg: "This span covers the entire file".to_string(),
    }
    .with_span(Span::from(CONTENT))
    .with_source(source);

    let expected = r#"
 --> tests/integration.simf:1:1
  |
1 | let a1: List<u32, 5> = None;
2 | let x: u32 = Left(
3 |     Right(0)
4 | );
  | ^^^^^^^^^^^^^^^^^^^^^^^^^^^^ Cannot parse: This span covers the entire file"#;
    assert_eq!(&expected[1..], &error.to_string());
}

#[test]
fn line_numbers_are_aligned() {
    let file = "1\n2\n3\n4\n5\n6\n7\n8\n9\n10\n11";
    let error = Error::MainRequired
        .with_span(Span::new(16, 20))
        .with_source(SourceFile::new("a", Arc::from(file)));
    assert_eq!(
        error.to_string(),
        "  --> a:9:1\n   |\n 9 | 9\n10 | 10\n   | ^ Main function is required"
    );
}

#[test]
fn every_line_end_starts_a_line() {
    let file = "a\nb\rc\u{b}d\u{c}e\u{85}f\u{2028}g\u{2029}h";
    for (c, line) in [('a', 1), ('b', 2), ('c', 3), ('d', 4), ('e', 5), ('f', 6), ('g', 7), ('h', 8)]
    {
        assert_eq!(get_line_col(file, file.find(c).unwrap()), (line, 1));
    }
    assert_eq!(get_line_col("a\tb", 2), (1, 3));
    // Columns count UTF-16 units, and an offset that is none counts as the beginning.
    assert_eq!(get_line_col("😀é", 4), (1, 3));
    assert_eq!(get_line_col("😀é", 6), (1, 4));
    assert_eq!(get_line_col("\n😀é", 2), (1, 1));
    assert_eq!(get_line_col("\n", 9), (1, 1));
}

#[test]
fn a_multi_line_span_from_an_empty_line_has_no_carets() {
    let error = Error::MainRequired
        .with_span(Span::new(2, 4))
        .with_content(Arc::from("a\n\nb"));
    assert_eq!(error.span().end, 4);
    assert_eq!(
        error.to_string(),
        "  |\n2 | \n3 | b\n  |  Main function is required"
    );
}

#[test]
fn spans_slice_files() {
    assert_eq!(Span::new(1, 3).to_slice("aéb"), Some("é"));
    assert_eq!(Span::new(1, 2).to_slice("aéb"), None);
    assert_eq!(Span::new(3, 5).to_slice("aéb"), None);
    assert_eq!(Span { start: 3, end: 1 }.to_slice("aéb"), None);
    assert_eq!(Span::new(4, 4).to_slice("aéb"), Some(""));
    assert_eq!(Span::new(2, 10).to_string(), "2..10");
    assert_eq!(Span::from("aéb"), Span::new(0, 4));
    assert_eq!(Span::from_range(2..5), Span::new(2, 5));
}

#[test]
fn every_error_has_its_message() {
    let s = |t: &str| t.to_string();
    let cases = vec![
        (Error::UnstableFeature { feature: UnstableFeature::Imports }, "The 'imports' feature is not enabled.\nEnable it with: -Z imports"),
        (Error::DependencyPathNotFound { path: s("p") }, "Path not found: p"),
        (Error::DependencyNotADirectory { path: s("p") }, "Path must be a directory: p"),
        (Error::ReservedDependencyKeyword { keyword: s("k") }, "The 'k' keyword is reserved and cannot be manually mapped. Use the builder's context definitions instead."),
        (Error::DuplicateDependencyAlias { alias: s("a"), context: s("c") }, "Duplicate dependency mapping: alias 'a' is defined multiple times for context 'c'"),
        (Error::InvalidDependencyIdentifier { alias: s("a") }, "Invalid dependency alias 'a': must be a valid identifier and not a reserved keyword"),
        (Error::Internal { msg: s("m") }, "INTERNAL ERROR: m"),
        (Error::UnknownLibrary { name: s("n") }, "Unknown module or library 'n'"),
        (Error::ArraySizeNonZero { size: 0 }, "Expected a non-negative integer as array size, found 0"),
        (Error::ListBoundPow2 { bound: 3 }, "Expected a power of two greater than one (2, 4, 8, 16, 32, ...) as list bound, found 3"),
        (Error::BitStringPow2 { len: 3 }, "Expected a valid bit string length (1, 2, 4, 8, 16, 32, 64, 128, 256), found 3"),
        (Error::CannotParse { msg: s("m") }, "Cannot parse: m"),
        (Error::Grammar { msg: s("m") }, "Grammar error: m"),
        (Error::Syntax { expected: vec![], label: None, found: None }, "Unexpected end of input"),
        (Error::Syntax { expected: vec![s("a")], label: None, found: Some(s("f")) }, "Expected 'a', found 'f'"),
        (Error::Syntax { expected: vec![s("a"), s("b"), s("c")], label: None, found: None }, "Expected one of 'a', 'b', 'c', found 'end of input'"),
        (Error::Syntax { expected: vec![s("a"), s("b")], label: Some(s("l")), found: Some(s("f")) }, "Expected l, found f"),
        (Error::InvalidSimcVersionSyntax { err: s("e") }, "Invalid version syntax: e"),
        (Error::SimcVersionMismatch { required: s("r"), current: s("c") }, "Incompatible compiler version: the file requires `r`, but the compiler is `c`"),
        (Error::IncompatibleMatchArms { first: s("a"), second: s("b") }, "Match arm `a` is incompatible with arm `b`"),
        (Error::CannotCompile { source: s("s") }, "Failed to compile to Simplicity"),
        (Error::ParseInt { source: s("s") }, "Integer parsing error"),
        (Error::ParseCrateInt { source: s("s") }, "Integer parsing error"),
        (Error::JetDoesNotExist { name: s("n") }, "Jet `n` does not exist"),
        (Error::InvalidCast { source: s("a"), target: s("b") }, "Cannot cast values of type `a` as values of type `b`"),
        (Error::FileNotFound { filename: s("f") }, "Local file `f` not found"),
        (Error::ExternalFileNotFound { lib: s("l"), filename: s("f") }, "File `f` not found in external library `l`"),
        (Error::LocalFileImportedAsExternal { path: s("p") }, "File `p` is part of the local project and must be imported using the `crate::` prefix"),
        (Error::RedefinedItem { name: s("n") }, "Item `n` was defined multiple times"),
        (Error::UnresolvedItem { name: s("n") }, "Item `n` could not be found"),
        (Error::PrivateItem { name: s("n") }, "Item `n` is private"),
        (Error::MissingCrateKeyword, "Imports must begin with the `crate` keyword in single-file programs"),
        (Error::MainNoInputs, "Main function takes no input parameters"),
        (Error::MainNoOutput, "Main function produces no output"),
        (Error::MainRequired, "Main function is required"),
        (Error::MainOutOfEntryFile, "The 'main' function must be defined in the entry point file"),
        (Error::MainCannotBePublic, "Main function cannot be public"),
        (Error::MainCannotBeAlias, "Main function cannot be alias"),
        (Error::FunctionRedefined { name: s("n") }, "Function `n` was defined multiple times"),
        (Error::FunctionUndefined { name: s("n") }, "Function `n` was called but not defined"),
        (Error::InvalidNumberOfArguments { expected: 1, found: 20 }, "Expected 1 arguments, found 20 arguments"),
        (Error::FunctionNotFoldable { name: s("n") }, "Expected a signature like `fn n(element: E, accumulator: A) -> A` for a fold"),
        (Error::FunctionNotLoopable { name: s("n") }, "Expected a signature like `fn n(accumulator: A, context: C, counter u{1,2,4,8,16}) -> Either<B, A>` for a for-while loop"),
        (Error::ExpressionUnexpectedType { ty: s("t") }, "Expected expression of type `t`; found something else"),
        (Error::ExpressionTypeMismatch { expected: s("a"), found: s("b") }, "Expected expression of type `a`, found type `b`"),
        (Error::ExpressionNotConstant, "Expression cannot be evaluated at compile time"),
        (Error::IntegerOutOfBounds { ty: s("t") }, "Value is out of bounds for type `t`"),
        (Error::UndefinedVariable { identifier: s("i") }, "Variable `i` is not defined"),
        (Error::RedefinedAlias { name: s("n") }, "Type alias `n` was defined multiple times"),
        (Error::RedefinedAliasAsBuiltin { name: s("n") }, "Type alias `n` is already exists as built-in alias"),
        (Error::UndefinedAlias { name: s("n") }, "Type alias `n` is not defined"),
        (Error::DuplicateAlias { name: s("n") }, "The alias `n` was defined multiple times"),
        (Error::VariableReuseInPattern { identifier: s("i") }, "Variable `i` is used twice in the pattern"),
        (Error::WitnessReused { name: s("n") }, "Witness `n` has been used before somewhere in the program"),
        (Error::WitnessTypeMismatch { name: s("n"), declared: s("d"), assigned: s("a") }, "Witness `n` was declared with type `d` but its assigned value is of type `a`"),
        (Error::WitnessReassigned { name: s("n") }, "Witness `n` has already been assigned a value"),
        (Error::WitnessOutsideMain, "Witness expressions are not allowed outside the `main` function"),
        (Error::ModuleRedefined { name: s("n") }, "Module `n` was defined multiple times"),
        (Error::ModuleNotFound { name: s("n") }, "Module `n` not found"),
        (Error::ModuleIsPrivate { name: s("n") }, "Module `n` is private"),
        (Error::ArgumentMissing { name: s("n") }, "Parameter `n` is missing an argument"),
        (Error::ArgumentTypeMismatch { name: s("n"), declared: s("d"), assigned: s("a") }, "Parameter `n` was declared with type `d` but its assigned argument is of type `a`"),
    ];
    for (error, message) in cases {
        assert_eq!(error.to_string(), message);
        // A copy says the same.
        assert_eq!(error.clone().to_string(), message);
    }
}

#[test]
fn some_errors_have_a_source() {
    let s = || "cause".to_string();
    assert_eq!(Error::ParseInt { source: s() }.source(), Some("cause"));
    assert_eq!(Error::ParseCrateInt { source: s() }.source(), Some("cause"));
    assert_eq!(Error::CannotCompile { source: s() }.source(), Some("cause"));
    assert_eq!(Error::MainRequired.source(), None);
    assert_eq!(
        Error::InvalidCast { source: s(), target: s() }.source(),
        None
    );
}

#[test]
fn parsing_errors_have_no_place() {
    let error = RichError::parsing_error("why");
    assert_eq!(*error.span(), Span::new(0, 0));
    assert!(error.source().is_none());
    assert_eq!(error.to_string(), "Cannot parse: why");
    assert!(matches!(error.error(), Error::CannotParse { .. }));
    let plain: Error = error.into();
    assert_eq!(plain.to_string(), "Cannot parse: why");
}

#[test]
fn merging_prefers_what_is_no_grammar_error() {
    let grammar = |m: &str| {
        RichError::new(Error::Grammar { msg: m.to_string() }, Span::new(0, 1))
    };
    let other = |m: &str| {
        RichError::new(Error::Internal { msg: m.to_string() }, Span::new(2, 3))
    };
    assert_eq!(grammar("a").merge(grammar("b")).to_string(), "Grammar error: b");
    assert_eq!(grammar("a").merge(other("b")).to_string(), "INTERNAL ERROR: b");
    assert_eq!(other("a").merge(grammar("b")).to_string(), "INTERNAL ERROR: a");
    assert_eq!(other("a").merge(other("b")).to_string(), "INTERNAL ERROR: b");
}

#[test]
fn expectations_are_shown() {
    let mut error = RichError::expected_found(
        vec![
            Expected::Token("fn".to_string()),
            Expected::Any,
            Expected::SomethingElse,
            Expected::EndOfInput,
            Expected::Other,
        ],
        Some("use".to_string()),
        Span::new(1, 2),
    );
    assert_eq!(
        error.to_string(),
        "Expected one of 'fn', 'anything', 'something else', 'end of input', 'UNEXPECTED_TOKEN', found 'use'"
    );
    error.label_with("an item");
    assert_eq!(error.to_string(), "Expected an item, found use");
    let mut other = RichError::parsing_error("x");
    other.label_with("an item");
    assert_eq!(other.to_string(), "Cannot parse: x");
}

#[test]
fn results_take_context() {
    let failed: Result<(), Error> = Err(Error::MainRequired);
    let failed = failed.with_span(Span::new(1, 2)).unwrap_err();
    assert_eq!(*failed.span(), Span::new(1, 2));
    let ok: Result<u8, Error> = Ok(7);
    assert_eq!(ok.with_span("abc").unwrap(), 7);
    let whole: Result<(), Error> = Err(Error::MainRequired);
    assert_eq!(*whole.with_span("abc").unwrap_err().span(), Span::new(0, 3));

    let failed: Result<(), RichError> = Err(failed);
    let failed = failed.with_content("abc").unwrap_err();
    assert_eq!(&*failed.source().as_ref().unwrap().content(), "abc");
    let failed: Result<(), RichError> = Err(failed);
    let source = SourceFile::new("f", Arc::from("xyz"));
    let failed = failed.with_source(source).unwrap_err();
    assert_eq!(failed.source().as_ref().unwrap().name(), Some("f"));
    assert_eq!(&*failed.source().as_ref().unwrap().content(), "xyz");
}

#[test]
fn collected_errors_are_shown_in_order() {
    let mut handler = ErrorCollector::new();
    assert!(!handler.has_errors());
    assert_eq!(handler.to_string(), "");
    handler.push(RichError::parsing_error("a"));
    let source = SourceFile::new("f", Arc::from("xyz"));
    handler.extend(
        &source,
        vec![
            Error::MainNoInputs.with_span(Span::new(0, 1)),
            Error::MainNoOutput.with_span(Span::new(1, 3)),
        ],
    );
    assert!(handler.has_errors());
    assert_eq!(
        handler.to_string(),
        "Cannot parse: a\n\n --> f:1:1\n  |\n1 | xyz\n  | ^ Main function takes no input \
         parameters\n\n --> f:1:2\n  |\n1 | xyz\n  |  ^^ Main function produces no output\n\n"
    );

    let mut outer = ErrorCollector::default();
    outer.append(vec![RichError::parsing_error("first")]);
    outer.extend_with_handler(&SourceFile::new("g", Arc::from("xyz")), &handler);
    let texts: Vec<String> = outer.get().iter().map(|e| e.error().to_string()).collect();
    assert_eq!(
        texts,
        [
            "Cannot parse: first",
            "Cannot parse: a",
            "Main function takes no input parameters",
            "Main function produces no output",
        ]
    );
    assert!(outer.get()[0].source().is_none());
    for error in &outer.get()[1..] {
        assert_eq!(error.source().as_ref().unwrap().name(), Some("g"));
    }
    assert_eq!(outer.clone().to_string(), outer.to_string());
}
