//! Errors: what went wrong, where it did, and how it is shown.
use std::sync::Arc;

use vstd::prelude::*;
use vstd::utf8::*;

use crate::placement::lemma_boundary;
use crate::render::{can_render, render, renderable, rendered};
use crate::source::{SourceFile, SourceModel};
use crate::text::{
    byte_len, clone_text, clone_texts, concat2, concat3, concat4, concat5, concat7, decimal,
    decimal_text, joined, lemma_encode_concat, texts, utf8_len,
};
use crate::unstable::{feature_name, UnstableFeature};

verus! {

/// Area that an object spans inside a file.
#[derive(Copy, Clone, Debug, Eq, PartialEq, Structural, Hash)]
pub struct Span {
    /// Position where the object starts, inclusively.
    pub start: usize,
    /// Position where the object ends, exclusively.
    pub end: usize,
}

/// Whether the byte range `start..end` of `file` holds whole characters.
pub open spec fn is_slice(file: Seq<char>, start: int, end: int) -> bool {
    let bytes = encode_utf8(file);
    0 <= start <= end <= bytes.len() && is_char_boundary(bytes, start) && is_char_boundary(
        bytes,
        end,
    )
}

/// A boundary of a text is a boundary of every prefix that reaches it.
pub proof fn lemma_boundary_of_prefix(bytes: Seq<u8>, i: int, j: int)
    requires
        valid_utf8(bytes),
        0 <= i <= j <= bytes.len(),
        is_char_boundary(bytes, i),
        is_char_boundary(bytes, j),
    ensures
        valid_utf8(bytes.subrange(0, j)),
        is_char_boundary(bytes.subrange(0, j), i),
{
    valid_utf8_split(bytes, j);
    let prefix = bytes.subrange(0, j);
    if i < j {
        is_char_boundary_iff_not_is_continuation_byte(bytes, i);
        is_char_boundary_iff_not_is_continuation_byte(prefix, i);
    } else {
        is_char_boundary_start_end_of_seq(prefix);
    }
}

impl Span {
    /// Create a new span. The start must not come after the end.
    pub fn new(start: usize, end: usize) -> (r: Span)
        requires
            start <= end,
        ensures
            r == (Span { start, end }),
    {
        Span { start, end }
    }

    /// The span of a range. The start must not come after the end.
    pub fn from_range(range: std::ops::Range<usize>) -> (r: Span)
        requires
            range.start <= range.end,
        ensures
            r == (Span { start: range.start, end: range.end }),
    {
        Span::new(range.start, range.end)
    }

    /// Return a slice from the given `file` that corresponds to the span, if the span lies
    /// inside the file and cuts no character in two.
    pub fn to_slice<'a>(&self, file: &'a str) -> (r: Option<&'a str>)
        ensures
            r is Some <==> is_slice(file@, self.start as int, self.end as int),
            r matches Some(slice) ==> encode_utf8(slice@) == encode_utf8(file@).subrange(
                self.start as int,
                self.end as int,
            ),
    {
        proof {
            encode_utf8_valid_utf8(file@);
        }
        let n = byte_len(file);
        if self.start <= self.end && self.end <= n && file.is_char_boundary(self.start)
            && file.is_char_boundary(self.end) {
            proof {
                lemma_boundary_of_prefix(
                    encode_utf8(file@),
                    self.start as int,
                    self.end as int,
                );
            }
            let (head, _) = file.split_at(self.end);
            let (_, slice) = head.split_at(self.start);
            assert(encode_utf8(slice@) =~= encode_utf8(file@).subrange(
                self.start as int,
                self.end as int,
            ));
            Some(slice)
        } else {
            None
        }
    }

    /// The text `start..end`.
    pub fn to_string(&self) -> (r: String)
        ensures
            r@ == decimal(self.start as nat) + ".."@ + decimal(self.end as nat),
    {
        let mut r = decimal_text(self.start as u64);
        r.append("..");
        r.append(decimal_text(self.end as u64).as_str());
        r
    }
}

/// The span of a whole text.
impl<'a> From<&'a str> for Span {
    fn from(s: &'a str) -> (r: Span) {
        Span { start: 0, end: byte_len(s) }
    }
}

impl<'a> vstd::std_specs::convert::FromSpecImpl<&'a str> for Span {
    open spec fn obeys_from_spec() -> bool {
        true
    }

    open spec fn from_spec(s: &'a str) -> Span {
        Span { start: 0, end: utf8_len(s@) as usize }
    }
}

// ---------------------------------------------------------------------------------------
// Errors
// ---------------------------------------------------------------------------------------

/// The keyword that begins a path inside the local project.
pub const CRATE_STR: &'static str = "crate";

/// An individual error.
///
/// Records _what_ happened but not where. Names, types and paths are held as the text by
/// which they are shown.
#[derive(Debug)]
#[allow(inconsistent_fields)]
pub enum Error {
    UnstableFeature { feature: UnstableFeature },
    DependencyPathNotFound { path: String },
    DependencyNotADirectory { path: String },
    ReservedDependencyKeyword { keyword: String },
    DuplicateDependencyAlias { alias: String, context: String },
    InvalidDependencyIdentifier { alias: String },
    Internal { msg: String },
    UnknownLibrary { name: String },
    ArraySizeNonZero { size: usize },
    ListBoundPow2 { bound: usize },
    BitStringPow2 { len: usize },
    CannotParse { msg: String },
    Grammar { msg: String },
    Syntax { expected: Vec<String>, label: Option<String>, found: Option<String> },
    InvalidSimcVersionSyntax { err: String },
    SimcVersionMismatch { required: String, current: String },
    IncompatibleMatchArms { first: String, second: String },
    CannotCompile { source: String },
    ParseInt { source: String },
    ParseCrateInt { source: String },
    JetDoesNotExist { name: String },
    InvalidCast { source: String, target: String },
    FileNotFound { filename: String },
    ExternalFileNotFound { lib: String, filename: String },
    LocalFileImportedAsExternal { path: String },
    RedefinedItem { name: String },
    UnresolvedItem { name: String },
    PrivateItem { name: String },
    MissingCrateKeyword,
    MainNoInputs,
    MainNoOutput,
    MainRequired,
    MainOutOfEntryFile,
    MainCannotBePublic,
    MainCannotBeAlias,
    FunctionRedefined { name: String },
    FunctionUndefined { name: String },
    InvalidNumberOfArguments { expected: usize, found: usize },
    FunctionNotFoldable { name: String },
    FunctionNotLoopable { name: String },
    ExpressionUnexpectedType { ty: String },
    ExpressionTypeMismatch { expected: String, found: String },
    ExpressionNotConstant,
    IntegerOutOfBounds { ty: String },
    UndefinedVariable { identifier: String },
    RedefinedAlias { name: String },
    RedefinedAliasAsBuiltin { name: String },
    UndefinedAlias { name: String },
    DuplicateAlias { name: String },
    VariableReuseInPattern { identifier: String },
    WitnessReused { name: String },
    WitnessTypeMismatch { name: String, declared: String, assigned: String },
    WitnessReassigned { name: String },
    WitnessOutsideMain,
    ModuleRedefined { name: String },
    ModuleNotFound { name: String },
    ModuleIsPrivate { name: String },
    ArgumentMissing { name: String },
    ArgumentTypeMismatch { name: String, declared: String, assigned: String },
}

/// Each of the texts in single quotes.
pub open spec fn quoted(parts: Seq<Seq<char>>) -> Seq<Seq<char>> {
    parts.map_values(|t: Seq<char>| "'"@ + t + "'"@)
}

/// The message of a syntax error.
pub open spec fn syntax_message(
    expected: Seq<Seq<char>>,
    label: Option<String>,
    found: Option<String>,
) -> Seq<char> {
    let found_text = match found {
        Some(found) => found@,
        None => "end of input"@,
    };
    match label {
        Some(label) => "Expected "@ + label@ + ", found "@ + found_text,
        None => if expected.len() == 1 {
            "Expected '"@ + expected[0] + "', found '"@ + found_text + "'"@
        } else if expected.len() == 0 {
            "Unexpected "@ + found_text
        } else {
            "Expected one of "@ + joined(quoted(expected), ", "@) + ", found '"@ + found_text
                + "'"@
        },
    }
}

/// The message of an error.
pub open spec fn message(e: Error) -> Seq<char> {
    match e {
        Error::UnstableFeature { feature } => "The '"@ + feature_name(feature)
            + "' feature is not enabled.\nEnable it with: -Z "@ + feature_name(feature),
        Error::DependencyPathNotFound { path } => "Path not found: "@ + path@,
        Error::DependencyNotADirectory { path } => "Path must be a directory: "@ + path@,
        Error::ReservedDependencyKeyword { keyword } => "The '"@ + keyword@
            + "' keyword is reserved and cannot be manually mapped. Use the builder's context definitions instead."@,
        Error::DuplicateDependencyAlias { alias, context } =>
            "Duplicate dependency mapping: alias '"@ + alias@
            + "' is defined multiple times for context '"@ + context@ + "'"@,
        Error::InvalidDependencyIdentifier { alias } => "Invalid dependency alias '"@ + alias@
            + "': must be a valid identifier and not a reserved keyword"@,
        Error::Internal { msg } => "INTERNAL ERROR: "@ + msg@,
        Error::UnknownLibrary { name } => "Unknown module or library '"@ + name@ + "'"@,
        Error::ArraySizeNonZero { size } => "Expected a non-negative integer as array size, found "@
            + decimal(size as nat),
        Error::ListBoundPow2 { bound } =>
            "Expected a power of two greater than one (2, 4, 8, 16, 32, ...) as list bound, found "@
            + decimal(bound as nat),
        Error::BitStringPow2 { len } =>
            "Expected a valid bit string length (1, 2, 4, 8, 16, 32, 64, 128, 256), found "@
            + decimal(len as nat),
        Error::CannotParse { msg } => "Cannot parse: "@ + msg@,
        Error::Grammar { msg } => "Grammar error: "@ + msg@,
        Error::Syntax { expected, label, found } => syntax_message(
            texts(expected@),
            label,
            found,
        ),
        Error::InvalidSimcVersionSyntax { err } => "Invalid version syntax: "@ + err@,
        Error::SimcVersionMismatch { required, current } =>
            "Incompatible compiler version: the file requires `"@ + required@
            + "`, but the compiler is `"@ + current@ + "`"@,
        Error::IncompatibleMatchArms { first, second } => "Match arm `"@ + first@
            + "` is incompatible with arm `"@ + second@ + "`"@,
        Error::CannotCompile { .. } => "Failed to compile to Simplicity"@,
        Error::ParseInt { .. } => "Integer parsing error"@,
        Error::ParseCrateInt { .. } => "Integer parsing error"@,
        Error::JetDoesNotExist { name } => "Jet `"@ + name@ + "` does not exist"@,
        Error::InvalidCast { source, target } => "Cannot cast values of type `"@ + source@
            + "` as values of type `"@ + target@ + "`"@,
        Error::FileNotFound { filename } => "Local file `"@ + filename@ + "` not found"@,
        Error::ExternalFileNotFound { lib, filename } => "File `"@ + filename@
            + "` not found in external library `"@ + lib@ + "`"@,
        Error::LocalFileImportedAsExternal { path } => "File `"@ + path@
            + "` is part of the local project and must be imported using the `crate::` prefix"@,
        Error::RedefinedItem { name } => "Item `"@ + name@ + "` was defined multiple times"@,
        Error::UnresolvedItem { name } => "Item `"@ + name@ + "` could not be found"@,
        Error::PrivateItem { name } => "Item `"@ + name@ + "` is private"@,
        Error::MissingCrateKeyword => "Imports must begin with the `"@ + CRATE_STR@
            + "` keyword in single-file programs"@,
        Error::MainNoInputs => "Main function takes no input parameters"@,
        Error::MainNoOutput => "Main function produces no output"@,
        Error::MainRequired => "Main function is required"@,
        Error::MainOutOfEntryFile => "The 'main' function must be defined in the entry point file"@,
        Error::MainCannotBePublic => "Main function cannot be public"@,
        Error::MainCannotBeAlias => "Main function cannot be alias"@,
        Error::FunctionRedefined { name } => "Function `"@ + name@
            + "` was defined multiple times"@,
        Error::FunctionUndefined { name } => "Function `"@ + name@
            + "` was called but not defined"@,
        Error::InvalidNumberOfArguments { expected, found } => "Expected "@
            + decimal(expected as nat) + " arguments, found "@ + decimal(found as nat)
            + " arguments"@,
        Error::FunctionNotFoldable { name } => "Expected a signature like `fn "@ + name@
            + "(element: E, accumulator: A) -> A` for a fold"@,
        Error::FunctionNotLoopable { name } => "Expected a signature like `fn "@ + name@
            + "(accumulator: A, context: C, counter u{1,2,4,8,16}) -> Either<B, A>` for a for-while loop"@,
        Error::ExpressionUnexpectedType { ty } => "Expected expression of type `"@ + ty@
            + "`; found something else"@,
        Error::ExpressionTypeMismatch { expected, found } => "Expected expression of type `"@
            + expected@ + "`, found type `"@ + found@ + "`"@,
        Error::ExpressionNotConstant => "Expression cannot be evaluated at compile time"@,
        Error::IntegerOutOfBounds { ty } => "Value is out of bounds for type `"@ + ty@ + "`"@,
        Error::UndefinedVariable { identifier } => "Variable `"@ + identifier@
            + "` is not defined"@,
        Error::RedefinedAlias { name } => "Type alias `"@ + name@ + "` was defined multiple times"@,
        Error::RedefinedAliasAsBuiltin { name } => "Type alias `"@ + name@
            + "` is already exists as built-in alias"@,
        Error::UndefinedAlias { name } => "Type alias `"@ + name@ + "` is not defined"@,
        Error::DuplicateAlias { name } => "The alias `"@ + name@ + "` was defined multiple times"@,
        Error::VariableReuseInPattern { identifier } => "Variable `"@ + identifier@
            + "` is used twice in the pattern"@,
        Error::WitnessReused { name } => "Witness `"@ + name@
            + "` has been used before somewhere in the program"@,
        Error::WitnessTypeMismatch { name, declared, assigned } => "Witness `"@ + name@
            + "` was declared with type `"@ + declared@ + "` but its assigned value is of type `"@
            + assigned@ + "`"@,
        Error::WitnessReassigned { name } => "Witness `"@ + name@
            + "` has already been assigned a value"@,
        Error::WitnessOutsideMain =>
            "Witness expressions are not allowed outside the `main` function"@,
        Error::ModuleRedefined { name } => "Module `"@ + name@ + "` was defined multiple times"@,
        Error::ModuleNotFound { name } => "Module `"@ + name@ + "` not found"@,
        Error::ModuleIsPrivate { name } => "Module `"@ + name@ + "` is private"@,
        Error::ArgumentMissing { name } => "Parameter `"@ + name@ + "` is missing an argument"@,
        Error::ArgumentTypeMismatch { name, declared, assigned } => "Parameter `"@ + name@
            + "` was declared with type `"@ + declared@
            + "` but its assigned argument is of type `"@ + assigned@ + "`"@,
    }
}

/// Whether two errors are the same. Lists are compared by what they hold.
pub open spec fn same_error(a: Error, b: Error) -> bool {
    match (a, b) {
        (
            Error::Syntax { expected: e1, label: l1, found: f1 },
            Error::Syntax { expected: e2, label: l2, found: f2 },
        ) => e1@ == e2@ && l1 == l2 && f1 == f2,
        _ => a == b,
    }
}

/// Calls `itertools::Itertools::join`: the texts in order, with the separator between each
/// two of them.
#[verifier::external_body]
fn join_texts(parts: &Vec<String>, separator: &str) -> (r: String)
    ensures
        r@ == joined(texts(parts@), separator@),
{
    itertools::Itertools::join(&mut parts.iter(), separator)
}

/// Each of the strings in single quotes.
fn quote_all(parts: &Vec<String>) -> (r: Vec<String>)
    ensures
        texts(r@) == quoted(texts(parts@)),
{
    let mut r: Vec<String> = Vec::new();
    let mut i: usize = 0;
    while i < parts.len()
        invariant
            i <= parts.len(),
            texts(r@) == quoted(texts(parts@)).take(i as int),
        decreases parts.len() - i,
    {
        let ghost before = r@;
        r.push(concat3("'", parts[i].as_str(), "'"));
        i = i + 1;
        proof {
            assert(texts(r@) =~= texts(before).push(quoted(texts(parts@))[i - 1]));
            assert(texts(r@) =~= quoted(texts(parts@)).take(i as int));
        }
    }
    assert(texts(r@) =~= quoted(texts(parts@)));
    r
}

/// The message of a syntax error.
fn syntax_text(
    expected: &Vec<String>,
    label: &Option<String>,
    found: &Option<String>,
) -> (r: String)
    ensures
        r@ == syntax_message(texts(expected@), *label, *found),
{
    let found_text: &str = match found {
        Some(found) => found.as_str(),
        None => "end of input",
    };
    match label {
        Some(label) => concat4("Expected ", label.as_str(), ", found ", found_text),
        None => {
            if expected.len() == 1 {
                concat5("Expected '", expected[0].as_str(), "', found '", found_text, "'")
            } else if expected.len() == 0 {
                concat2("Unexpected ", found_text)
            } else {
                let exp_text = join_texts(&quote_all(expected), ", ");
                concat5("Expected one of ", exp_text.as_str(), ", found '", found_text, "'")
            }
        },
    }
}

impl Clone for Error {
    fn clone(&self) -> (r: Self)
        ensures
            same_error(r, *self),
    {
        match self {
            Error::UnstableFeature { feature } => Error::UnstableFeature { feature: *feature },
            Error::DependencyPathNotFound { path } => Error::DependencyPathNotFound {
                path: path.clone(),
            },
            Error::DependencyNotADirectory { path } => Error::DependencyNotADirectory {
                path: path.clone(),
            },
            Error::ReservedDependencyKeyword { keyword } => Error::ReservedDependencyKeyword {
                keyword: keyword.clone(),
            },
            Error::DuplicateDependencyAlias { alias, context } => Error::DuplicateDependencyAlias {
                alias: alias.clone(),
                context: context.clone(),
            },
            Error::InvalidDependencyIdentifier { alias } => Error::InvalidDependencyIdentifier {
                alias: alias.clone(),
            },
            Error::Internal { msg } => Error::Internal { msg: msg.clone() },
            Error::UnknownLibrary { name } => Error::UnknownLibrary { name: name.clone() },
            Error::ArraySizeNonZero { size } => Error::ArraySizeNonZero { size: *size },
            Error::ListBoundPow2 { bound } => Error::ListBoundPow2 { bound: *bound },
            Error::BitStringPow2 { len } => Error::BitStringPow2 { len: *len },
            Error::CannotParse { msg } => Error::CannotParse { msg: msg.clone() },
            Error::Grammar { msg } => Error::Grammar { msg: msg.clone() },
            Error::Syntax { expected, label, found } => Error::Syntax {
                expected: clone_texts(expected),
                label: clone_text(label),
                found: clone_text(found),
            },
            Error::InvalidSimcVersionSyntax { err } => Error::InvalidSimcVersionSyntax {
                err: err.clone(),
            },
            Error::SimcVersionMismatch { required, current } => Error::SimcVersionMismatch {
                required: required.clone(),
                current: current.clone(),
            },
            Error::IncompatibleMatchArms { first, second } => Error::IncompatibleMatchArms {
                first: first.clone(),
                second: second.clone(),
            },
            Error::CannotCompile { source } => Error::CannotCompile { source: source.clone() },
            Error::ParseInt { source } => Error::ParseInt { source: source.clone() },
            Error::ParseCrateInt { source } => Error::ParseCrateInt { source: source.clone() },
            Error::JetDoesNotExist { name } => Error::JetDoesNotExist { name: name.clone() },
            Error::InvalidCast { source, target } => Error::InvalidCast {
                source: source.clone(),
                target: target.clone(),
            },
            Error::FileNotFound { filename } => Error::FileNotFound { filename: filename.clone() },
            Error::ExternalFileNotFound { lib, filename } => Error::ExternalFileNotFound {
                lib: lib.clone(),
                filename: filename.clone(),
            },
            Error::LocalFileImportedAsExternal { path } => Error::LocalFileImportedAsExternal {
                path: path.clone(),
            },
            Error::RedefinedItem { name } => Error::RedefinedItem { name: name.clone() },
            Error::UnresolvedItem { name } => Error::UnresolvedItem { name: name.clone() },
            Error::PrivateItem { name } => Error::PrivateItem { name: name.clone() },
            Error::MissingCrateKeyword => Error::MissingCrateKeyword,
            Error::MainNoInputs => Error::MainNoInputs,
            Error::MainNoOutput => Error::MainNoOutput,
            Error::MainRequired => Error::MainRequired,
            Error::MainOutOfEntryFile => Error::MainOutOfEntryFile,
            Error::MainCannotBePublic => Error::MainCannotBePublic,
            Error::MainCannotBeAlias => Error::MainCannotBeAlias,
            Error::FunctionRedefined { name } => Error::FunctionRedefined { name: name.clone() },
            Error::FunctionUndefined { name } => Error::FunctionUndefined { name: name.clone() },
            Error::InvalidNumberOfArguments { expected, found } => Error::InvalidNumberOfArguments {
                expected: *expected,
                found: *found,
            },
            Error::FunctionNotFoldable { name } => Error::FunctionNotFoldable {
                name: name.clone(),
            },
            Error::FunctionNotLoopable { name } => Error::FunctionNotLoopable {
                name: name.clone(),
            },
            Error::ExpressionUnexpectedType { ty } => Error::ExpressionUnexpectedType {
                ty: ty.clone(),
            },
            Error::ExpressionTypeMismatch { expected, found } => Error::ExpressionTypeMismatch {
                expected: expected.clone(),
                found: found.clone(),
            },
            Error::ExpressionNotConstant => Error::ExpressionNotConstant,
            Error::IntegerOutOfBounds { ty } => Error::IntegerOutOfBounds { ty: ty.clone() },
            Error::UndefinedVariable { identifier } => Error::UndefinedVariable {
                identifier: identifier.clone(),
            },
            Error::RedefinedAlias { name } => Error::RedefinedAlias { name: name.clone() },
            Error::RedefinedAliasAsBuiltin { name } => Error::RedefinedAliasAsBuiltin {
                name: name.clone(),
            },
            Error::UndefinedAlias { name } => Error::UndefinedAlias { name: name.clone() },
            Error::DuplicateAlias { name } => Error::DuplicateAlias { name: name.clone() },
            Error::VariableReuseInPattern { identifier } => Error::VariableReuseInPattern {
                identifier: identifier.clone(),
            },
            Error::WitnessReused { name } => Error::WitnessReused { name: name.clone() },
            Error::WitnessTypeMismatch { name, declared, assigned } => Error::WitnessTypeMismatch {
                name: name.clone(),
                declared: declared.clone(),
                assigned: assigned.clone(),
            },
            Error::WitnessReassigned { name } => Error::WitnessReassigned { name: name.clone() },
            Error::WitnessOutsideMain => Error::WitnessOutsideMain,
            Error::ModuleRedefined { name } => Error::ModuleRedefined { name: name.clone() },
            Error::ModuleNotFound { name } => Error::ModuleNotFound { name: name.clone() },
            Error::ModuleIsPrivate { name } => Error::ModuleIsPrivate { name: name.clone() },
            Error::ArgumentMissing { name } => Error::ArgumentMissing { name: name.clone() },
            Error::ArgumentTypeMismatch { name, declared, assigned } => Error::ArgumentTypeMismatch {
                name: name.clone(),
                declared: declared.clone(),
                assigned: assigned.clone(),
            },
        }
    }
}

impl Error {
    /// The message of the error.
    pub fn to_string(&self) -> (r: String)
        ensures
            r@ == message(*self),
    {
        match self {
            Error::UnstableFeature { feature } => concat4(
                "The '",
                feature.name(),
                "' feature is not enabled.\nEnable it with: -Z ",
                feature.name(),
            ),
            Error::DependencyPathNotFound { path } => concat2("Path not found: ", path.as_str()),
            Error::DependencyNotADirectory { path } => concat2(
                "Path must be a directory: ",
                path.as_str(),
            ),
            Error::ReservedDependencyKeyword { keyword } => concat3(
                "The '",
                keyword.as_str(),
                "' keyword is reserved and cannot be manually mapped. Use the builder's context definitions instead.",
            ),
            Error::DuplicateDependencyAlias { alias, context } => concat5(
                "Duplicate dependency mapping: alias '",
                alias.as_str(),
                "' is defined multiple times for context '",
                context.as_str(),
                "'",
            ),
            Error::InvalidDependencyIdentifier { alias } => concat3(
                "Invalid dependency alias '",
                alias.as_str(),
                "': must be a valid identifier and not a reserved keyword",
            ),
            Error::Internal { msg } => concat2("INTERNAL ERROR: ", msg.as_str()),
            Error::UnknownLibrary { name } => concat3(
                "Unknown module or library '",
                name.as_str(),
                "'",
            ),
            Error::ArraySizeNonZero { size } => concat2(
                "Expected a non-negative integer as array size, found ",
                decimal_text(*size as u64).as_str(),
            ),
            Error::ListBoundPow2 { bound } => concat2(
                "Expected a power of two greater than one (2, 4, 8, 16, 32, ...) as list bound, found ",
                decimal_text(*bound as u64).as_str(),
            ),
            Error::BitStringPow2 { len } => concat2(
                "Expected a valid bit string length (1, 2, 4, 8, 16, 32, 64, 128, 256), found ",
                decimal_text(*len as u64).as_str(),
            ),
            Error::CannotParse { msg } => concat2("Cannot parse: ", msg.as_str()),
            Error::Grammar { msg } => concat2("Grammar error: ", msg.as_str()),
            Error::Syntax { expected, label, found } => syntax_text(expected, label, found),
            Error::InvalidSimcVersionSyntax { err } => concat2(
                "Invalid version syntax: ",
                err.as_str(),
            ),
            Error::SimcVersionMismatch { required, current } => concat5(
                "Incompatible compiler version: the file requires `",
                required.as_str(),
                "`, but the compiler is `",
                current.as_str(),
                "`",
            ),
            Error::IncompatibleMatchArms { first, second } => concat5(
                "Match arm `",
                first.as_str(),
                "` is incompatible with arm `",
                second.as_str(),
                "`",
            ),
            Error::CannotCompile { .. } => "Failed to compile to Simplicity".to_string(),
            Error::ParseInt { .. } => "Integer parsing error".to_string(),
            Error::ParseCrateInt { .. } => "Integer parsing error".to_string(),
            Error::JetDoesNotExist { name } => concat3("Jet `", name.as_str(), "` does not exist"),
            Error::InvalidCast { source, target } => concat5(
                "Cannot cast values of type `",
                source.as_str(),
                "` as values of type `",
                target.as_str(),
                "`",
            ),
            Error::FileNotFound { filename } => concat3(
                "Local file `",
                filename.as_str(),
                "` not found",
            ),
            Error::ExternalFileNotFound { lib, filename } => concat5(
                "File `",
                filename.as_str(),
                "` not found in external library `",
                lib.as_str(),
                "`",
            ),
            Error::LocalFileImportedAsExternal { path } => concat3(
                "File `",
                path.as_str(),
                "` is part of the local project and must be imported using the `crate::` prefix",
            ),
            Error::RedefinedItem { name } => concat3(
                "Item `",
                name.as_str(),
                "` was defined multiple times",
            ),
            Error::UnresolvedItem { name } => concat3(
                "Item `",
                name.as_str(),
                "` could not be found",
            ),
            Error::PrivateItem { name } => concat3("Item `", name.as_str(), "` is private"),
            Error::MissingCrateKeyword => concat3(
                "Imports must begin with the `",
                CRATE_STR,
                "` keyword in single-file programs",
            ),
            Error::MainNoInputs => "Main function takes no input parameters".to_string(),
            Error::MainNoOutput => "Main function produces no output".to_string(),
            Error::MainRequired => "Main function is required".to_string(),
            Error::MainOutOfEntryFile =>
                "The 'main' function must be defined in the entry point file".to_string(),
            Error::MainCannotBePublic => "Main function cannot be public".to_string(),
            Error::MainCannotBeAlias => "Main function cannot be alias".to_string(),
            Error::FunctionRedefined { name } => concat3(
                "Function `",
                name.as_str(),
                "` was defined multiple times",
            ),
            Error::FunctionUndefined { name } => concat3(
                "Function `",
                name.as_str(),
                "` was called but not defined",
            ),
            Error::InvalidNumberOfArguments { expected, found } => concat5(
                "Expected ",
                decimal_text(*expected as u64).as_str(),
                " arguments, found ",
                decimal_text(*found as u64).as_str(),
                " arguments",
            ),
            Error::FunctionNotFoldable { name } => concat3(
                "Expected a signature like `fn ",
                name.as_str(),
                "(element: E, accumulator: A) -> A` for a fold",
            ),
            Error::FunctionNotLoopable { name } => concat3(
                "Expected a signature like `fn ",
                name.as_str(),
                "(accumulator: A, context: C, counter u{1,2,4,8,16}) -> Either<B, A>` for a for-while loop",
            ),
            Error::ExpressionUnexpectedType { ty } => concat3(
                "Expected expression of type `",
                ty.as_str(),
                "`; found something else",
            ),
            Error::ExpressionTypeMismatch { expected, found } => concat5(
                "Expected expression of type `",
                expected.as_str(),
                "`, found type `",
                found.as_str(),
                "`",
            ),
            Error::ExpressionNotConstant =>
                "Expression cannot be evaluated at compile time".to_string(),
            Error::IntegerOutOfBounds { ty } => concat3(
                "Value is out of bounds for type `",
                ty.as_str(),
                "`",
            ),
            Error::UndefinedVariable { identifier } => concat3(
                "Variable `",
                identifier.as_str(),
                "` is not defined",
            ),
            Error::RedefinedAlias { name } => concat3(
                "Type alias `",
                name.as_str(),
                "` was defined multiple times",
            ),
            Error::RedefinedAliasAsBuiltin { name } => concat3(
                "Type alias `",
                name.as_str(),
                "` is already exists as built-in alias",
            ),
            Error::UndefinedAlias { name } => concat3(
                "Type alias `",
                name.as_str(),
                "` is not defined",
            ),
            Error::DuplicateAlias { name } => concat3(
                "The alias `",
                name.as_str(),
                "` was defined multiple times",
            ),
            Error::VariableReuseInPattern { identifier } => concat3(
                "Variable `",
                identifier.as_str(),
                "` is used twice in the pattern",
            ),
            Error::WitnessReused { name } => concat3(
                "Witness `",
                name.as_str(),
                "` has been used before somewhere in the program",
            ),
            Error::WitnessTypeMismatch { name, declared, assigned } => concat7(
                "Witness `",
                name.as_str(),
                "` was declared with type `",
                declared.as_str(),
                "` but its assigned value is of type `",
                assigned.as_str(),
                "`",
            ),
            Error::WitnessReassigned { name } => concat3(
                "Witness `",
                name.as_str(),
                "` has already been assigned a value",
            ),
            Error::WitnessOutsideMain =>
                "Witness expressions are not allowed outside the `main` function".to_string(),
            Error::ModuleRedefined { name } => concat3(
                "Module `",
                name.as_str(),
                "` was defined multiple times",
            ),
            Error::ModuleNotFound { name } => concat3("Module `", name.as_str(), "` not found"),
            Error::ModuleIsPrivate { name } => concat3("Module `", name.as_str(), "` is private"),
            Error::ArgumentMissing { name } => concat3(
                "Parameter `",
                name.as_str(),
                "` is missing an argument",
            ),
            Error::ArgumentTypeMismatch { name, declared, assigned } => concat7(
                "Parameter `",
                name.as_str(),
                "` was declared with type `",
                declared.as_str(),
                "` but its assigned argument is of type `",
                assigned.as_str(),
                "`",
            ),
        }
    }

    /// The message of the error that caused this one, if there is one.
    pub fn source(&self) -> (r: Option<&str>)
        ensures
            match *self {
                Error::ParseInt { source } => r matches Some(text) && text@ == source@,
                Error::ParseCrateInt { source } => r matches Some(text) && text@ == source@,
                Error::CannotCompile { source } => r matches Some(text) && text@ == source@,
                _ => r is None,
            },
    {
        match self {
            Error::ParseInt { source } => Some(source.as_str()),
            Error::ParseCrateInt { source } => Some(source.as_str()),
            Error::CannotCompile { source } => Some(source.as_str()),
            _ => None,
        }
    }

    /// Update the error with the affected span.
    pub fn with_span(self, span: Span) -> (r: RichError)
        ensures
            r@ == (RichErrorModel { error: self, span, source: None }),
    {
        RichError::new(self, span)
    }
}

/// The same error has the same message.
pub proof fn law_same_error_same_message(a: Error, b: Error)
    requires
        same_error(a, b),
    ensures
        message(a) == message(b),
{
}

// ---------------------------------------------------------------------------------------
// Errors with context
// ---------------------------------------------------------------------------------------

/// An error, the area that it spans, and the file in which it occurred, if it is known.
pub struct RichErrorModel {
    pub error: Error,
    pub span: Span,
    pub source: Option<SourceModel>,
}

impl RichErrorModel {
    /// The same error, in the given file.
    pub open spec fn in_source(self, source: SourceModel) -> RichErrorModel {
        RichErrorModel { source: Some(source), ..self }
    }

    /// The error in the file that it names, or in `source` where it names none.
    pub open spec fn located(self, source: SourceModel) -> RichErrorModel {
        if self.source is Some {
            self
        } else {
            self.in_source(source)
        }
    }

    /// Whether the error can be shown in its file.
    pub open spec fn renderable(self) -> bool {
        self.source matches Some(source) ==> renderable(source.content, self.span)
    }

    /// How the error is shown: inside its file, or by its message alone where it has none.
    pub open spec fn text(self) -> Seq<char> {
        match self.source {
            Some(source) => rendered(message(self.error), source, self.span),
            None => message(self.error),
        }
    }

    /// Whether the two are the same error at the same place.
    pub open spec fn same(self, other: RichErrorModel) -> bool {
        same_error(self.error, other.error) && self.span == other.span && self.source
            == other.source
    }
}

/// However an error is shown, its message stands at the end.
pub proof fn law_message_is_shown_last(e: RichErrorModel)
    ensures
        message(e.error).len() <= e.text().len(),
        e.text().skip(e.text().len() - message(e.error).len()) == message(e.error),
{
    let m = message(e.error);
    match e.source {
        Some(source) => {
            let shown = rendered(m, source, e.span);
            if source.content.len() == 0 {
                assert(shown.skip(0) =~= m);
            } else {
                assert(shown.skip(shown.len() - m.len()) =~= m);
            }
        },
        None => {
            assert(m.skip(0) =~= m);
        },
    }
}

/// An error enriched with context.
///
/// Records _what_ happened and _where_.
#[derive(Debug)]
pub struct RichError {
    /// The error that occurred.
    ///
    /// Wrapped in a `Box` to keep the `RichError` struct small on the stack, ensuring cheap
    /// moves when returning errors inside a `Result`.
    error: Box<Error>,
    /// Area that the error spans inside the file.
    span: Span,
    /// File context in which the error occurred.
    ///
    /// Required to print pretty errors.
    source: Option<SourceFile>,
}

impl View for RichError {
    type V = RichErrorModel;

    closed spec fn view(&self) -> RichErrorModel {
        RichErrorModel {
            error: *self.error,
            span: self.span,
            source: match self.source {
                Some(source) => Some(source@),
                None => None,
            },
        }
    }
}

impl Clone for RichError {
    fn clone(&self) -> (r: Self)
        ensures
            r@.same(self@),
    {
        RichError {
            error: Box::new((*self.error).clone()),
            span: self.span,
            source: match &self.source {
                Some(source) => Some(source.clone()),
                None => None,
            },
        }
    }
}

impl RichError {
    /// Create a new error with context.
    pub fn new(error: Error, span: Span) -> (r: RichError)
        ensures
            r@ == (RichErrorModel { error, span, source: None }),
    {
        RichError { error: Box::new(error), span, source: None }
    }

    /// Adds raw source code content to the error context.
    ///
    /// Use this when the error occurs in an environment without a backing physical file
    /// (e.g., raw string input for single-file program) to enable basic error formatting.
    pub fn with_content(self, program_content: Arc<str>) -> (r: RichError)
        ensures
            r@ == self@.in_source(SourceModel { name: None, content: (*program_content)@ }),
    {
        RichError {
            error: self.error,
            span: self.span,
            source: Some(SourceFile::anonymous(program_content)),
        }
    }

    /// Add the source file where the error occurred.
    ///
    /// Enable pretty errors.
    pub fn with_source(self, source: SourceFile) -> (r: RichError)
        ensures
            r@ == self@.in_source(source@),
    {
        RichError { error: self.error, span: self.span, source: Some(source) }
    }

    /// Constructs an error that is very unlikely to be encountered, but indicates a problem
    /// on the parsing side.
    pub fn parsing_error(reason: &str) -> (r: RichError)
        ensures
            r@.error matches Error::CannotParse { msg } && msg@ == reason@,
            r@.span == (Span { start: 0, end: 0 }),
            r@.source is None,
    {
        RichError {
            error: Box::new(Error::CannotParse { msg: reason.to_string() }),
            span: Span::new(0, 0),
            source: None,
        }
    }

    /// The file in which the error occurred, if it is known.
    pub fn source(&self) -> (r: &Option<SourceFile>)
        ensures
            self@.source == match *r {
                Some(source) => Some(source@),
                None => None,
            },
    {
        &self.source
    }

    /// The error that occurred.
    pub fn error(&self) -> (r: &Error)
        ensures
            *r == self@.error,
    {
        &self.error
    }

    /// Area that the error spans inside the file.
    pub fn span(&self) -> (r: &Span)
        ensures
            *r == self@.span,
    {
        &self.span
    }

    /// Whether the error can be shown in its file.
    pub fn is_renderable(&self) -> (r: bool)
        ensures
            r == self@.renderable(),
    {
        match &self.source {
            Some(source) => {
                let content = source.content();
                can_render(&content, self.span)
            },
            None => true,
        }
    }

    /// The error as it is shown: its message inside the file, where the file is known.
    pub fn to_string(&self) -> (r: String)
        requires
            self@.renderable(),
        ensures
            r@ == self@.text(),
    {
        let message = self.error.to_string();
        match &self.source {
            Some(source) => render(message.as_str(), source, self.span),
            None => message,
        }
    }

    /// Which of two errors at one place to keep: the later one, unless it is a grammar error
    /// and the earlier one is not.
    pub fn merge(self, other: RichError) -> (r: RichError)
        ensures
            r@ == if other@.error is Grammar && !(self@.error is Grammar) {
                self@
            } else {
                other@
            },
    {
        match (&*self.error, &*other.error) {
            (Error::Grammar { .. }, _) => other,
            (_, Error::Grammar { .. }) => self,
            _ => other,
        }
    }

    /// An error for a place where something else was expected than what was found.
    pub fn expected_found(
        expected: Vec<Expected>,
        found: Option<String>,
        span: Span,
    ) -> (r: RichError)
        ensures
            r@.error matches Error::Syntax { expected: shown, label, found: f } && texts(shown@)
                == expected_texts(expected@) && label is None && f == found,
            r@.span == span,
            r@.source is None,
    {
        let mut shown: Vec<String> = Vec::new();
        let mut i: usize = 0;
        while i < expected.len()
            invariant
                i <= expected.len(),
                texts(shown@) == expected_texts(expected@).take(i as int),
            decreases expected.len() - i,
        {
            let ghost before = shown@;
            shown.push(expected[i].to_string());
            i = i + 1;
            proof {
                assert(texts(shown@) =~= texts(before).push(expected_texts(expected@)[i - 1]));
                assert(texts(shown@) =~= expected_texts(expected@).take(i as int));
            }
        }
        assert(texts(shown@) =~= expected_texts(expected@));
        RichError {
            error: Box::new(Error::Syntax { expected: shown, label: None, found }),
            span,
            source: None,
        }
    }

    /// Set the label of a syntax error. Any other error stays as it is.
    pub fn label_with(&mut self, label: &str)
        ensures
            final(self)@.span == old(self)@.span,
            final(self)@.source == old(self)@.source,
            match old(self)@.error {
                Error::Syntax { expected, label: _, found } => final(self)@.error matches
                    Error::Syntax { expected: e, label: l, found: f } && e == expected && f == found
                    && (l matches Some(text) && text@ == label@),
                _ => final(self)@.error == old(self)@.error,
            },
    {
        if matches!(&*self.error, Error::Syntax { .. }) {
            if let Error::Syntax { label: l, .. } = &mut *self.error {
                *l = Some(label.to_string());
            }
        }
    }
}

/// What was expected at a place.
#[derive(Debug)]
pub enum Expected {
    /// A token, by the text of it.
    Token(String),
    /// Anything.
    Any,
    /// Something that the parser cannot name.
    SomethingElse,
    /// The end of the input.
    EndOfInput,
    /// Anything that is not one of these.
    Other,
}

/// How an expectation is shown.
pub open spec fn expected_text(expected: Expected) -> Seq<char> {
    match expected {
        Expected::Token(token) => token@,
        Expected::Any => "anything"@,
        Expected::SomethingElse => "something else"@,
        Expected::EndOfInput => "end of input"@,
        Expected::Other => "UNEXPECTED_TOKEN"@,
    }
}

/// How expectations are shown.
pub open spec fn expected_texts(expected: Seq<Expected>) -> Seq<Seq<char>> {
    expected.map_values(|e: Expected| expected_text(e))
}

impl Expected {
    /// How the expectation is shown.
    pub fn to_string(&self) -> (r: String)
        ensures
            r@ == expected_text(*self),
    {
        match self {
            Expected::Token(token) => token.clone(),
            Expected::Any => "anything".to_string(),
            Expected::SomethingElse => "something else".to_string(),
            Expected::EndOfInput => "end of input".to_string(),
            Expected::Other => "UNEXPECTED_TOKEN".to_string(),
        }
    }
}

/// The error without its context.
impl From<RichError> for Error {
    fn from(error: RichError) -> (r: Error) {
        *error.error
    }
}

impl vstd::std_specs::convert::FromSpecImpl<RichError> for Error {
    open spec fn obeys_from_spec() -> bool {
        true
    }

    open spec fn from_spec(error: RichError) -> Error {
        error@.error
    }
}

/// Helper trait to convert `Result<T, E>` into `Result<T, RichError>`.
pub trait WithSpan<T>: Sized {
    /// Whether `r` is this result, with the affected span.
    spec fn spanned(self, span: Span, r: Result<T, RichError>) -> bool;

    /// Update the result with the affected span.
    fn with_span<S: Into<Span>>(self, span: S) -> (r: Result<T, RichError>)
        ensures
            exists|s: Span| #[trigger] call_ensures(S::into, (span,), s) && self.spanned(s, r),
    ;
}

impl<T, E: Into<Error>> WithSpan<T> for Result<T, E> {
    open spec fn spanned(self, span: Span, r: Result<T, RichError>) -> bool {
        match self {
            Ok(value) => r == Ok::<T, RichError>(value),
            Err(e) => r matches Err(error) && call_ensures(E::into, (e,), error@.error)
                && error@.span == span && error@.source is None,
        }
    }

    fn with_span<S: Into<Span>>(self, span: S) -> (r: Result<T, RichError>) {
        let s: Span = span.into();
        match self {
            Ok(value) => Ok(value),
            Err(e) => {
                let error: Error = e.into();
                Err(error.with_span(s))
            },
        }
    }
}

/// Helper trait to update `Result<A, RichError>` with the affected source file.
pub trait WithContent<T>: Sized {
    /// Whether `r` is this result, with the affected text.
    spec fn with_text(self, content: Seq<char>, r: Result<T, RichError>) -> bool;

    /// Update the result with the affected source file.
    ///
    /// Enable pretty errors.
    fn with_content<C: Into<Arc<str>>>(self, content: C) -> (r: Result<T, RichError>)
        ensures
            exists|c: Arc<str>| #[trigger]
                call_ensures(C::into, (content,), c) && self.with_text((*c)@, r),
    ;
}

impl<T> WithContent<T> for Result<T, RichError> {
    open spec fn with_text(self, content: Seq<char>, r: Result<T, RichError>) -> bool {
        match self {
            Ok(value) => r == Ok::<T, RichError>(value),
            Err(e) => r matches Err(error) && error@ == e@.in_source(
                SourceModel { name: None, content },
            ),
        }
    }

    fn with_content<C: Into<Arc<str>>>(self, content: C) -> (r: Result<T, RichError>) {
        let c: Arc<str> = content.into();
        match self {
            Ok(value) => Ok(value),
            Err(e) => Err(e.with_content(c)),
        }
    }
}

/// Helper trait to update `Result<A, RichError>` with the affected source file.
pub trait WithSource<T>: Sized {
    /// Whether `r` is this result, with the affected file.
    spec fn sourced(self, source: SourceModel, r: Result<T, RichError>) -> bool;

    /// Update the result with the affected source file.
    ///
    /// Enable pretty errors.
    fn with_source<S: Into<SourceFile>>(self, source: S) -> (r: Result<T, RichError>)
        ensures
            exists|s: SourceFile| #[trigger]
                call_ensures(S::into, (source,), s) && self.sourced(s@, r),
    ;
}

impl<T> WithSource<T> for Result<T, RichError> {
    open spec fn sourced(self, source: SourceModel, r: Result<T, RichError>) -> bool {
        match self {
            Ok(value) => r == Ok::<T, RichError>(value),
            Err(e) => r matches Err(error) && error@ == e@.in_source(source),
        }
    }

    fn with_source<S: Into<SourceFile>>(self, source: S) -> (r: Result<T, RichError>) {
        let s: SourceFile = source.into();
        match self {
            Ok(value) => Ok(value),
            Err(e) => Err(e.with_source(s)),
        }
    }
}

// ---------------------------------------------------------------------------------------
// Collecting errors
// ---------------------------------------------------------------------------------------

/// The models of the errors.
pub open spec fn error_models(errors: Seq<RichError>) -> Seq<RichErrorModel> {
    errors.map_values(|e: RichError| e@)
}

/// The errors, each in the given file.
pub open spec fn all_in_source(
    errors: Seq<RichErrorModel>,
    source: SourceModel,
) -> Seq<RichErrorModel> {
    errors.map_values(|e: RichErrorModel| e.in_source(source))
}

/// How errors are shown: one after another, each with an empty line behind it.
pub open spec fn report(errors: Seq<RichErrorModel>) -> Seq<char>
    decreases errors.len(),
{
    if errors.len() == 0 {
        Seq::empty()
    } else {
        report(errors.drop_last()) + errors.last().text() + "\n\n"@
    }
}

/// Whether the two lists hold the same errors.
pub open spec fn same_errors(a: Seq<RichErrorModel>, b: Seq<RichErrorModel>) -> bool {
    a.len() == b.len() && forall|i: int| 0 <= i < a.len() ==> (#[trigger] a[i]).same(b[i])
}

/// Collected errors.
#[derive(Debug)]
pub struct ErrorCollector {
    errors: Vec<RichError>,
}

impl View for ErrorCollector {
    type V = Seq<RichErrorModel>;

    closed spec fn view(&self) -> Seq<RichErrorModel> {
        error_models(self.errors@)
    }
}

impl Default for ErrorCollector {
    fn default() -> (r: Self)
        ensures
            r@ == Seq::<RichErrorModel>::empty(),
    {
        ErrorCollector::new()
    }
}

impl Clone for ErrorCollector {
    fn clone(&self) -> (r: Self)
        ensures
            same_errors(r@, self@),
    {
        let mut errors: Vec<RichError> = Vec::new();
        let mut i: usize = 0;
        while i < self.errors.len()
            invariant
                i <= self.errors.len(),
                errors.len() == i,
                forall|k: int| 0 <= k < i ==> (#[trigger] errors@[k])@.same(self.errors@[k]@),
            decreases self.errors.len() - i,
        {
            errors.push(self.errors[i].clone());
            i = i + 1;
        }
        let r = ErrorCollector { errors };
        assert forall|k: int| 0 <= k < r@.len() implies (#[trigger] r@[k]).same(self@[k]) by {
            assert(r.errors@[k]@.same(self.errors@[k]@));
        }
        r
    }
}

impl ErrorCollector {
    /// No errors yet.
    pub fn new() -> (r: ErrorCollector)
        ensures
            r@ == Seq::<RichErrorModel>::empty(),
    {
        let r = ErrorCollector { errors: Vec::new() };
        assert(r@ =~= Seq::<RichErrorModel>::empty());
        r
    }

    /// Extend existing errors with specific `RichError`. We assume that `RichError` contains
    /// `SourceFile`.
    pub fn push(&mut self, error: RichError)
        ensures
            final(self)@ == old(self)@.push(error@),
    {
        let ghost before = self.errors@;
        self.errors.push(error);
        assert(error_models(self.errors@) =~= error_models(before).push(error@));
    }

    /// Appends errors as they are.
    pub fn append(&mut self, errors: Vec<RichError>)
        ensures
            final(self)@ == old(self)@ + error_models(errors@),
    {
        let ghost before = self.errors@;
        let ghost added = errors@;
        let mut errors = errors;
        self.errors.append(&mut errors);
        assert(error_models(self.errors@) =~= error_models(before) + error_models(added));
    }

    /// Appends new errors, tagging them with the provided source context. Automatically
    /// handles both single-file and multi-file environments.
    pub fn extend(&mut self, source: &SourceFile, errors: Vec<RichError>)
        ensures
            final(self)@ == old(self)@ + all_in_source(error_models(errors@), source@),
    {
        let ghost start = self@;
        let ghost all = errors@;
        let ghost new_errors = all_in_source(error_models(errors@), source@);
        let mut errors = errors;
        assert(start + new_errors.take(0) =~= start);
        while errors.len() > 0
            invariant
                errors.len() <= all.len(),
                errors@ == all.skip(all.len() - errors.len()),
                new_errors == all_in_source(error_models(all), source@),
                self@ == start + new_errors.take(all.len() - errors.len()),
            decreases errors.len(),
        {
            let ghost done = all.len() - errors.len();
            let error = errors.remove(0);
            assert(error == all[done]);
            self.push(error.with_source(source.clone()));
            assert(errors@ =~= all.skip(done + 1));
            assert(self@ =~= start + new_errors.take(done + 1));
        }
        assert(new_errors.take(all.len() as int) =~= new_errors);
    }

    /// The same idea applies to the `extend()` function: appends the errors of another
    /// collector.
    pub fn extend_with_handler(&mut self, source: &SourceFile, handler: &ErrorCollector)
        ensures
            final(self)@.len() == old(self)@.len() + handler@.len(),
            final(self)@.take(old(self)@.len() as int) == old(self)@,
            same_errors(
                final(self)@.skip(old(self)@.len() as int),
                all_in_source(handler@, source@),
            ),
    {
        let ghost start = self@;
        let copy = handler.clone();
        self.extend(source, copy.errors);
        proof {
            let tail = all_in_source(copy@, source@);
            assert(self@ == start + tail);
            assert(self@.take(start.len() as int) =~= start);
            assert(self@.skip(start.len() as int) =~= tail);
            assert forall|i: int| 0 <= i < tail.len() implies (#[trigger] tail[i]).same(
                all_in_source(handler@, source@)[i],
            ) by {
                assert(copy@[i].same(handler@[i]));
            }
        }
    }

    /// The errors, in order.
    pub fn get(&self) -> (r: &[RichError])
        ensures
            error_models(r@) == self@,
    {
        self.errors.as_slice()
    }

    /// Whether there are any errors.
    pub fn has_errors(&self) -> (r: bool)
        ensures
            r == (self@.len() > 0),
    {
        self.errors.len() > 0
    }

    /// The errors as they are shown.
    pub fn to_string(&self) -> (r: String)
        requires
            forall|i: int| 0 <= i < self@.len() ==> (#[trigger] self@[i]).renderable(),
        ensures
            r@ == report(self@),
    {
        let mut r = String::new();
        let mut i: usize = 0;
        assert(r@ =~= report(self@.take(0)));
        while i < self.errors.len()
            invariant
                i <= self.errors.len(),
                self@.len() == self.errors.len(),
                forall|k: int| 0 <= k < self@.len() ==> (#[trigger] self@[k]).renderable(),
                r@ == report(self@.take(i as int)),
            decreases self.errors.len() - i,
        {
            let ghost before = r@;
            assert(self@[i as int] == self.errors@[i as int]@);
            let text = self.errors[i].to_string();
            r.append(text.as_str());
            r.append("\n\n");
            proof {
                let seen = self@.take(i + 1);
                assert(seen.drop_last() =~= self@.take(i as int));
                assert(seen.last() == self@[i as int]);
            }
            i = i + 1;
        }
        assert(self@.take(i as int) =~= self@);
        r
    }
}

// ---------------------------------------------------------------------------------------
// Laws
// ---------------------------------------------------------------------------------------

/// Errors are shown one after the other: those of a list behind those of another, and a single
/// one with an empty line behind it.
pub proof fn law_errors_are_shown_in_turn(
    a: Seq<RichErrorModel>,
    b: Seq<RichErrorModel>,
    e: RichErrorModel,
)
    ensures
        report(a + b) == report(a) + report(b),
        report(seq![e]) == e.text() + "\n\n"@,
    decreases b.len(),
{
    let one = seq![e];
    assert(one.drop_last() =~= Seq::<RichErrorModel>::empty());
    assert(report(one.drop_last()) =~= Seq::<char>::empty());
    assert(one.last() == e);
    assert(report(one) =~= e.text() + "\n\n"@);
    if b.len() == 0 {
        assert(a + b =~= a);
        assert(report(a) + report(b) =~= report(a));
    } else {
        law_errors_are_shown_in_turn(a, b.drop_last(), e);
        assert((a + b).drop_last() =~= a + b.drop_last());
        assert((a + b).last() == b.last());
        assert(report(a + b) =~= report(a) + report(b));
    }
}

/// An error that is put into a file keeps what it says and where, whichever file it named
/// before; and one that is only located there keeps the file that it names.
pub proof fn law_error_in_a_file(e: RichErrorModel, source: SourceModel, other: SourceModel)
    ensures
        e.in_source(source).error == e.error,
        e.in_source(source).span == e.span,
        e.in_source(source).source == Some(source),
        e.in_source(other).in_source(source) == e.in_source(source),
        e.in_source(other).located(source) == e.in_source(other),
        e.source is None ==> e.located(source) == e.in_source(source),
        e.in_source(source).text() == rendered(message(e.error), source, e.span),
        e.source is None ==> e.text() == message(e.error),
{
}

/// Errors that are put into a file keep their number and their order.
pub proof fn law_errors_in_a_file(
    a: Seq<RichErrorModel>,
    b: Seq<RichErrorModel>,
    source: SourceModel,
)
    ensures
        all_in_source(a + b, source) == all_in_source(a, source) + all_in_source(b, source),
        all_in_source(a, source).len() == a.len(),
        forall|i: int|
            0 <= i < a.len() ==> (#[trigger] all_in_source(a, source)[i]).error == a[i].error
                && all_in_source(a, source)[i].span == a[i].span && all_in_source(a, source)[i].source
                == Some(source),
{
    assert(all_in_source(a + b, source) =~= all_in_source(a, source) + all_in_source(b, source));
}

/// Merging keeps one of two errors: the later one, unless it alone is a grammar error. Of three
/// errors, the same one is kept in whichever order they are merged.
pub proof fn law_merging_keeps_the_later(
    a: RichError,
    b: RichError,
    c: RichError,
    ab: RichError,
    bc: RichError,
    left: RichError,
    right: RichError,
)
    requires
        call_ensures(RichError::merge, (a, b), ab),
        call_ensures(RichError::merge, (b, c), bc),
        call_ensures(RichError::merge, (ab, c), left),
        call_ensures(RichError::merge, (a, bc), right),
    ensures
        ab@ == a@ || ab@ == b@,
        ab@.error is Grammar <==> a@.error is Grammar && b@.error is Grammar,
        b@.error is Grammar == a@.error is Grammar ==> ab@ == b@,
        left@ == right@,
{
}

/// What was expected and found is what the error says, at its place: as many expectations as
/// were given, in order, a token by its text.
pub proof fn law_expectations_are_kept(
    expected: Vec<Expected>,
    found: Option<String>,
    span: Span,
    r: RichError,
)
    requires
        call_ensures(RichError::expected_found, (expected, found, span), r),
    ensures
        r@.span == span,
        r@.source is None,
        r@.error matches Error::Syntax { expected: shown, label, found: f } && f == found
            && label is None && shown@.len() == expected@.len() && forall|i: int|
            0 <= i < expected@.len() ==> (expected@[i] matches Expected::Token(token) ==> (
            #[trigger] shown@[i])@ == token@),
{
    if let Error::Syntax { expected: shown, label, found: f } = r@.error {
        assert(texts(shown@).len() == expected_texts(expected@).len());
        assert forall|i: int| 0 <= i < expected@.len() implies (
        expected@[i] matches Expected::Token(token) ==> (#[trigger] shown@[i])@ == token@) by {
            assert(texts(shown@)[i] == shown@[i]@);
            assert(expected_texts(expected@)[i] == expected_text(expected@[i]));
        }
    }
}

/// A slice of a file is the text that stands between the two ends of the span: what stands
/// before, the slice and what stands behind make up the file.
pub proof fn law_slice_is_the_text_between(
    before: Seq<char>,
    text: Seq<char>,
    after: Seq<char>,
    file: &str,
    span: &Span,
    r: Option<&str>,
)
    requires
        file@ == before + text + after,
        span.start == utf8_len(before),
        span.end == utf8_len(before + text),
        call_ensures(Span::to_slice, (span, file), r),
    ensures
        r matches Some(slice) && slice@ == text,
{
    let whole = file@;
    assert(whole.take(before.len() as int) =~= before);
    assert(whole.take((before + text).len() as int) =~= before + text);
    lemma_boundary(whole, before.len() as int);
    lemma_boundary(whole, (before + text).len() as int);
    lemma_encode_concat(before, text);
    lemma_encode_concat(before + text, after);
    assert(encode_utf8(whole).subrange(span.start as int, span.end as int) =~= encode_utf8(text));
    if let Some(slice) = r {
        encode_utf8_decode_utf8(slice@);
        encode_utf8_decode_utf8(text);
    }
}

/// Errors that count as the same differ in nothing: but for the list of a syntax error, which
/// has the same texts, they are equal; and so are their places.
pub proof fn law_same_errors_are_equal(a: RichErrorModel, b: RichErrorModel)
    requires
        a.same(b),
    ensures
        a.span == b.span,
        a.source == b.source,
        !(a.error is Syntax) ==> a.error == b.error,
        a.error matches Error::Syntax { expected, label, found } ==> (b.error matches Error::Syntax {
            expected: e,
            label: l,
            found: f,
        } && texts(expected@) == texts(e@) && label == l && found == f),
        a.text() == b.text(),
{
}

/// A label is given to a syntax error and to no other: where there is one, it is the label that
/// was given last, and the rest of the error stays as it was.
pub proof fn law_label_is_set(e: &mut RichError, label: &str)
    requires
        call_ensures(RichError::label_with, (e, label), ()),
    ensures
        final(e)@.span == old(e)@.span,
        final(e)@.source == old(e)@.source,
        final(e)@.error is Syntax <==> old(e)@.error is Syntax,
        !(old(e)@.error is Syntax) ==> final(e)@.error == old(e)@.error,
        old(e)@.error matches Error::Syntax { expected, label: _, found } ==> (
        final(e)@.error matches Error::Syntax { expected: es, label: l, found: f } && es
            == expected && f == found && (l matches Some(text) && text@ == label@)),
{
}

/// Collecting takes no error away: what was collected stays in front, and what is added stands
/// behind it, one for one, and, where a file is given, in that file.
pub proof fn law_collected_errors_stay(
    pushed: &mut ErrorCollector,
    error: RichError,
    appended: &mut ErrorCollector,
    extended: &mut ErrorCollector,
    errors: Vec<RichError>,
    source: &SourceFile,
)
    requires
        call_ensures(ErrorCollector::push, (pushed, error), ()),
        call_ensures(ErrorCollector::append, (appended, errors), ()),
        call_ensures(ErrorCollector::extend, (extended, source, errors), ()),
    ensures
        final(pushed)@.len() == old(pushed)@.len() + 1,
        final(pushed)@.last() == error@,
        forall|i: int|
            0 <= i < old(pushed)@.len() ==> final(pushed)@[i] == #[trigger] old(pushed)@[i],
        final(appended)@.len() == old(appended)@.len() + errors@.len(),
        forall|i: int|
            0 <= i < old(appended)@.len() ==> final(appended)@[i] == #[trigger] old(appended)@[i],
        forall|i: int|
            0 <= i < errors@.len() ==> final(appended)@[old(appended)@.len() + i] == (
            #[trigger] errors@[i])@,
        final(extended)@.len() == old(extended)@.len() + errors@.len(),
        forall|i: int|
            0 <= i < old(extended)@.len() ==> final(extended)@[i] == #[trigger] old(extended)@[i],
        forall|i: int|
            0 <= i < errors@.len() ==> final(extended)@[old(extended)@.len() + i]
                == (RichErrorModel {
                error: (#[trigger] errors@[i])@.error,
                span: errors@[i]@.span,
                source: Some(source@),
            }),
{
    let models = error_models(errors@);
    assert forall|i: int| 0 <= i < errors@.len() implies final(appended)@[old(appended)@.len() + i]
        == (#[trigger] errors@[i])@ by {
        assert(models[i] == errors@[i]@);
    }
    assert forall|i: int| 0 <= i < errors@.len() implies final(extended)@[old(extended)@.len() + i]
        == (RichErrorModel {
        error: (#[trigger] errors@[i])@.error,
        span: errors@[i]@.span,
        source: Some(source@),
    }) by {
        assert(models[i] == errors@[i]@);
        assert(all_in_source(models, source@)[i] == models[i].in_source(source@));
    }
}

} // verus!
