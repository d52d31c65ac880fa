//! What error messages show of their errors.
use vstd::prelude::*;

use crate::error::{message, quoted, syntax_message, Error};
use crate::text::{decimal, joined, law_joined_parts};
use crate::unstable::feature_name;

verus! {

/// The texts and numbers of an error that its message shows, in order.
pub open spec fn shown_parts(e: Error) -> Seq<Seq<char>> {
    match e {
        Error::UnstableFeature { feature } => seq![feature_name(feature), feature_name(feature)],
        Error::DependencyPathNotFound { path } => seq![path@],
        Error::DependencyNotADirectory { path } => seq![path@],
        Error::ReservedDependencyKeyword { keyword } => seq![keyword@],
        Error::DuplicateDependencyAlias { alias, context } => seq![alias@, context@],
        Error::InvalidDependencyIdentifier { alias } => seq![alias@],
        Error::Internal { msg } => seq![msg@],
        Error::UnknownLibrary { name } => seq![name@],
        Error::ArraySizeNonZero { size } => seq![decimal(size as nat)],
        Error::ListBoundPow2 { bound } => seq![decimal(bound as nat)],
        Error::BitStringPow2 { len } => seq![decimal(len as nat)],
        Error::CannotParse { msg } => seq![msg@],
        Error::Grammar { msg } => seq![msg@],
        Error::InvalidSimcVersionSyntax { err } => seq![err@],
        Error::SimcVersionMismatch { required, current } => seq![required@, current@],
        Error::IncompatibleMatchArms { first, second } => seq![first@, second@],
        Error::JetDoesNotExist { name } => seq![name@],
        Error::InvalidCast { source, target } => seq![source@, target@],
        Error::FileNotFound { filename } => seq![filename@],
        Error::ExternalFileNotFound { lib, filename } => seq![filename@, lib@],
        Error::LocalFileImportedAsExternal { path } => seq![path@],
        Error::RedefinedItem { name } => seq![name@],
        Error::UnresolvedItem { name } => seq![name@],
        Error::PrivateItem { name } => seq![name@],
        Error::FunctionRedefined { name } => seq![name@],
        Error::FunctionUndefined { name } => seq![name@],
        Error::InvalidNumberOfArguments { expected, found } => seq![decimal(expected as nat), decimal(found as nat)],
        Error::FunctionNotFoldable { name } => seq![name@],
        Error::FunctionNotLoopable { name } => seq![name@],
        Error::ExpressionUnexpectedType { ty } => seq![ty@],
        Error::ExpressionTypeMismatch { expected, found } => seq![expected@, found@],
        Error::IntegerOutOfBounds { ty } => seq![ty@],
        Error::UndefinedVariable { identifier } => seq![identifier@],
        Error::RedefinedAlias { name } => seq![name@],
        Error::RedefinedAliasAsBuiltin { name } => seq![name@],
        Error::UndefinedAlias { name } => seq![name@],
        Error::DuplicateAlias { name } => seq![name@],
        Error::VariableReuseInPattern { identifier } => seq![identifier@],
        Error::WitnessReused { name } => seq![name@],
        Error::WitnessTypeMismatch { name, declared, assigned } => seq![name@, declared@, assigned@],
        Error::WitnessReassigned { name } => seq![name@],
        Error::ModuleRedefined { name } => seq![name@],
        Error::ModuleNotFound { name } => seq![name@],
        Error::ModuleIsPrivate { name } => seq![name@],
        Error::ArgumentMissing { name } => seq![name@],
        Error::ArgumentTypeMismatch { name, declared, assigned } => seq![name@, declared@, assigned@],
        _ => Seq::empty(),
    }
}

/// Whether a text holds the parts one behind the other.
pub open spec fn holds_in_turn(text: Seq<char>, parts: Seq<Seq<char>>) -> bool
    decreases parts.len(),
{
    parts.len() == 0 || exists|before: Seq<char>, after: Seq<char>|
        #![trigger before + parts[0] + after]
        text == before + parts[0] + after && holds_in_turn(after, parts.drop_first())
}

proof fn lemma_holds_one(before: Seq<char>, part: Seq<char>, after: Seq<char>)
    ensures
        holds_in_turn(before + part + after, seq![part]),
{
    let parts = seq![part];
    assert(before + part + after == before + parts[0] + after);
    assert(holds_in_turn(after, parts.drop_first()));
}

proof fn lemma_holds_next(before: Seq<char>, part: Seq<char>, after: Seq<char>, rest: Seq<Seq<char>>)
    requires
        holds_in_turn(after, rest),
    ensures
        holds_in_turn(before + part + after, seq![part] + rest),
{
    let parts = seq![part] + rest;
    assert(before + part + after == before + parts[0] + after);
    assert(parts.drop_first() =~= rest);
}

/// A message shows what its error holds: each name, text and number, in order.
pub proof fn law_message_shows_its_parts(e: Error)
    ensures
        holds_in_turn(message(e), shown_parts(e)),
{
    let end = Seq::<char>::empty();
    match e {
        Error::UnstableFeature { feature } => {
            lemma_holds_one("' feature is not enabled.\nEnable it with: -Z "@, feature_name(feature), end);
            lemma_holds_next("The '"@, feature_name(feature), "' feature is not enabled.\nEnable it with: -Z "@ + feature_name(feature) + end, seq![feature_name(feature)]);
            assert(seq![feature_name(feature)] + seq![feature_name(feature)] =~= seq![feature_name(feature), feature_name(feature)]);
            assert(message(e) =~= "The '"@ + feature_name(feature) + ("' feature is not enabled.\nEnable it with: -Z "@ + feature_name(feature) + end));
        },
        Error::DependencyPathNotFound { path } => {
            lemma_holds_one("Path not found: "@, path@, end);
            assert(message(e) =~= "Path not found: "@ + path@ + end);
        },
        Error::DependencyNotADirectory { path } => {
            lemma_holds_one("Path must be a directory: "@, path@, end);
            assert(message(e) =~= "Path must be a directory: "@ + path@ + end);
        },
        Error::ReservedDependencyKeyword { keyword } => {
            lemma_holds_one("The '"@, keyword@, "' keyword is reserved and cannot be manually mapped. Use the builder's context definitions instead."@);
            assert(message(e) =~= "The '"@ + keyword@ + "' keyword is reserved and cannot be manually mapped. Use the builder's context definitions instead."@);
        },
        Error::DuplicateDependencyAlias { alias, context } => {
            lemma_holds_one("' is defined multiple times for context '"@, context@, "'"@);
            lemma_holds_next("Duplicate dependency mapping: alias '"@, alias@, "' is defined multiple times for context '"@ + context@ + "'"@, seq![context@]);
            assert(seq![alias@] + seq![context@] =~= seq![alias@, context@]);
            assert(message(e) =~= "Duplicate dependency mapping: alias '"@ + alias@ + ("' is defined multiple times for context '"@ + context@ + "'"@));
        },
        Error::InvalidDependencyIdentifier { alias } => {
            lemma_holds_one("Invalid dependency alias '"@, alias@, "': must be a valid identifier and not a reserved keyword"@);
            assert(message(e) =~= "Invalid dependency alias '"@ + alias@ + "': must be a valid identifier and not a reserved keyword"@);
        },
        Error::Internal { msg } => {
            lemma_holds_one("INTERNAL ERROR: "@, msg@, end);
            assert(message(e) =~= "INTERNAL ERROR: "@ + msg@ + end);
        },
        Error::UnknownLibrary { name } => {
            lemma_holds_one("Unknown module or library '"@, name@, "'"@);
            assert(message(e) =~= "Unknown module or library '"@ + name@ + "'"@);
        },
        Error::ArraySizeNonZero { size } => {
            lemma_holds_one("Expected a non-negative integer as array size, found "@, decimal(size as nat), end);
            assert(message(e) =~= "Expected a non-negative integer as array size, found "@ + decimal(size as nat) + end);
        },
        Error::ListBoundPow2 { bound } => {
            lemma_holds_one("Expected a power of two greater than one (2, 4, 8, 16, 32, ...) as list bound, found "@, decimal(bound as nat), end);
            assert(message(e) =~= "Expected a power of two greater than one (2, 4, 8, 16, 32, ...) as list bound, found "@ + decimal(bound as nat) + end);
        },
        Error::BitStringPow2 { len } => {
            lemma_holds_one("Expected a valid bit string length (1, 2, 4, 8, 16, 32, 64, 128, 256), found "@, decimal(len as nat), end);
            assert(message(e) =~= "Expected a valid bit string length (1, 2, 4, 8, 16, 32, 64, 128, 256), found "@ + decimal(len as nat) + end);
        },
        Error::CannotParse { msg } => {
            lemma_holds_one("Cannot parse: "@, msg@, end);
            assert(message(e) =~= "Cannot parse: "@ + msg@ + end);
        },
        Error::Grammar { msg } => {
            lemma_holds_one("Grammar error: "@, msg@, end);
            assert(message(e) =~= "Grammar error: "@ + msg@ + end);
        },
        Error::InvalidSimcVersionSyntax { err } => {
            lemma_holds_one("Invalid version syntax: "@, err@, end);
            assert(message(e) =~= "Invalid version syntax: "@ + err@ + end);
        },
        Error::SimcVersionMismatch { required, current } => {
            lemma_holds_one("`, but the compiler is `"@, current@, "`"@);
            lemma_holds_next("Incompatible compiler version: the file requires `"@, required@, "`, but the compiler is `"@ + current@ + "`"@, seq![current@]);
            assert(seq![required@] + seq![current@] =~= seq![required@, current@]);
            assert(message(e) =~= "Incompatible compiler version: the file requires `"@ + required@ + ("`, but the compiler is `"@ + current@ + "`"@));
        },
        Error::IncompatibleMatchArms { first, second } => {
            lemma_holds_one("` is incompatible with arm `"@, second@, "`"@);
            lemma_holds_next("Match arm `"@, first@, "` is incompatible with arm `"@ + second@ + "`"@, seq![second@]);
            assert(seq![first@] + seq![second@] =~= seq![first@, second@]);
            assert(message(e) =~= "Match arm `"@ + first@ + ("` is incompatible with arm `"@ + second@ + "`"@));
        },
        Error::JetDoesNotExist { name } => {
            lemma_holds_one("Jet `"@, name@, "` does not exist"@);
            assert(message(e) =~= "Jet `"@ + name@ + "` does not exist"@);
        },
        Error::InvalidCast { source, target } => {
            lemma_holds_one("` as values of type `"@, target@, "`"@);
            lemma_holds_next("Cannot cast values of type `"@, source@, "` as values of type `"@ + target@ + "`"@, seq![target@]);
            assert(seq![source@] + seq![target@] =~= seq![source@, target@]);
            assert(message(e) =~= "Cannot cast values of type `"@ + source@ + ("` as values of type `"@ + target@ + "`"@));
        },
        Error::FileNotFound { filename } => {
            lemma_holds_one("Local file `"@, filename@, "` not found"@);
            assert(message(e) =~= "Local file `"@ + filename@ + "` not found"@);
        },
        Error::ExternalFileNotFound { lib, filename } => {
            lemma_holds_one("` not found in external library `"@, lib@, "`"@);
            lemma_holds_next("File `"@, filename@, "` not found in external library `"@ + lib@ + "`"@, seq![lib@]);
            assert(seq![filename@] + seq![lib@] =~= seq![filename@, lib@]);
            assert(message(e) =~= "File `"@ + filename@ + ("` not found in external library `"@ + lib@ + "`"@));
        },
        Error::LocalFileImportedAsExternal { path } => {
            lemma_holds_one("File `"@, path@, "` is part of the local project and must be imported using the `crate::` prefix"@);
            assert(message(e) =~= "File `"@ + path@ + "` is part of the local project and must be imported using the `crate::` prefix"@);
        },
        Error::RedefinedItem { name } => {
            lemma_holds_one("Item `"@, name@, "` was defined multiple times"@);
            assert(message(e) =~= "Item `"@ + name@ + "` was defined multiple times"@);
        },
        Error::UnresolvedItem { name } => {
            lemma_holds_one("Item `"@, name@, "` could not be found"@);
            assert(message(e) =~= "Item `"@ + name@ + "` could not be found"@);
        },
        Error::PrivateItem { name } => {
            lemma_holds_one("Item `"@, name@, "` is private"@);
            assert(message(e) =~= "Item `"@ + name@ + "` is private"@);
        },
        Error::FunctionRedefined { name } => {
            lemma_holds_one("Function `"@, name@, "` was defined multiple times"@);
            assert(message(e) =~= "Function `"@ + name@ + "` was defined multiple times"@);
        },
        Error::FunctionUndefined { name } => {
            lemma_holds_one("Function `"@, name@, "` was called but not defined"@);
            assert(message(e) =~= "Function `"@ + name@ + "` was called but not defined"@);
        },
        Error::InvalidNumberOfArguments { expected, found } => {
            lemma_holds_one(" arguments, found "@, decimal(found as nat), " arguments"@);
            lemma_holds_next("Expected "@, decimal(expected as nat), " arguments, found "@ + decimal(found as nat) + " arguments"@, seq![decimal(found as nat)]);
            assert(seq![decimal(expected as nat)] + seq![decimal(found as nat)] =~= seq![decimal(expected as nat), decimal(found as nat)]);
            assert(message(e) =~= "Expected "@ + decimal(expected as nat) + (" arguments, found "@ + decimal(found as nat) + " arguments"@));
        },
        Error::FunctionNotFoldable { name } => {
            lemma_holds_one("Expected a signature like `fn "@, name@, "(element: E, accumulator: A) -> A` for a fold"@);
            assert(message(e) =~= "Expected a signature like `fn "@ + name@ + "(element: E, accumulator: A) -> A` for a fold"@);
        },
        Error::FunctionNotLoopable { name } => {
            lemma_holds_one("Expected a signature like `fn "@, name@, "(accumulator: A, context: C, counter u{1,2,4,8,16}) -> Either<B, A>` for a for-while loop"@);
            assert(message(e) =~= "Expected a signature like `fn "@ + name@ + "(accumulator: A, context: C, counter u{1,2,4,8,16}) -> Either<B, A>` for a for-while loop"@);
        },
        Error::ExpressionUnexpectedType { ty } => {
            lemma_holds_one("Expected expression of type `"@, ty@, "`; found something else"@);
            assert(message(e) =~= "Expected expression of type `"@ + ty@ + "`; found something else"@);
        },
        Error::ExpressionTypeMismatch { expected, found } => {
            lemma_holds_one("`, found type `"@, found@, "`"@);
            lemma_holds_next("Expected expression of type `"@, expected@, "`, found type `"@ + found@ + "`"@, seq![found@]);
            assert(seq![expected@] + seq![found@] =~= seq![expected@, found@]);
            assert(message(e) =~= "Expected expression of type `"@ + expected@ + ("`, found type `"@ + found@ + "`"@));
        },
        Error::IntegerOutOfBounds { ty } => {
            lemma_holds_one("Value is out of bounds for type `"@, ty@, "`"@);
            assert(message(e) =~= "Value is out of bounds for type `"@ + ty@ + "`"@);
        },
        Error::UndefinedVariable { identifier } => {
            lemma_holds_one("Variable `"@, identifier@, "` is not defined"@);
            assert(message(e) =~= "Variable `"@ + identifier@ + "` is not defined"@);
        },
        Error::RedefinedAlias { name } => {
            lemma_holds_one("Type alias `"@, name@, "` was defined multiple times"@);
            assert(message(e) =~= "Type alias `"@ + name@ + "` was defined multiple times"@);
        },
        Error::RedefinedAliasAsBuiltin { name } => {
            lemma_holds_one("Type alias `"@, name@, "` is already exists as built-in alias"@);
            assert(message(e) =~= "Type alias `"@ + name@ + "` is already exists as built-in alias"@);
        },
        Error::UndefinedAlias { name } => {
            lemma_holds_one("Type alias `"@, name@, "` is not defined"@);
            assert(message(e) =~= "Type alias `"@ + name@ + "` is not defined"@);
        },
        Error::DuplicateAlias { name } => {
            lemma_holds_one("The alias `"@, name@, "` was defined multiple times"@);
            assert(message(e) =~= "The alias `"@ + name@ + "` was defined multiple times"@);
        },
        Error::VariableReuseInPattern { identifier } => {
            lemma_holds_one("Variable `"@, identifier@, "` is used twice in the pattern"@);
            assert(message(e) =~= "Variable `"@ + identifier@ + "` is used twice in the pattern"@);
        },
        Error::WitnessReused { name } => {
            lemma_holds_one("Witness `"@, name@, "` has been used before somewhere in the program"@);
            assert(message(e) =~= "Witness `"@ + name@ + "` has been used before somewhere in the program"@);
        },
        Error::WitnessTypeMismatch { name, declared, assigned } => {
            lemma_holds_one("` but its assigned value is of type `"@, assigned@, "`"@);
            lemma_holds_next("` was declared with type `"@, declared@, "` but its assigned value is of type `"@ + assigned@ + "`"@, seq![assigned@]);
            assert(seq![declared@] + seq![assigned@] =~= seq![declared@, assigned@]);
            lemma_holds_next("Witness `"@, name@, "` was declared with type `"@ + declared@ + ("` but its assigned value is of type `"@ + assigned@ + "`"@), seq![declared@, assigned@]);
            assert(seq![name@] + seq![declared@, assigned@] =~= seq![name@, declared@, assigned@]);
            assert(message(e) =~= "Witness `"@ + name@ + ("` was declared with type `"@ + declared@ + ("` but its assigned value is of type `"@ + assigned@ + "`"@)));
        },
        Error::WitnessReassigned { name } => {
            lemma_holds_one("Witness `"@, name@, "` has already been assigned a value"@);
            assert(message(e) =~= "Witness `"@ + name@ + "` has already been assigned a value"@);
        },
        Error::ModuleRedefined { name } => {
            lemma_holds_one("Module `"@, name@, "` was defined multiple times"@);
            assert(message(e) =~= "Module `"@ + name@ + "` was defined multiple times"@);
        },
        Error::ModuleNotFound { name } => {
            lemma_holds_one("Module `"@, name@, "` not found"@);
            assert(message(e) =~= "Module `"@ + name@ + "` not found"@);
        },
        Error::ModuleIsPrivate { name } => {
            lemma_holds_one("Module `"@, name@, "` is private"@);
            assert(message(e) =~= "Module `"@ + name@ + "` is private"@);
        },
        Error::ArgumentMissing { name } => {
            lemma_holds_one("Parameter `"@, name@, "` is missing an argument"@);
            assert(message(e) =~= "Parameter `"@ + name@ + "` is missing an argument"@);
        },
        Error::ArgumentTypeMismatch { name, declared, assigned } => {
            lemma_holds_one("` but its assigned argument is of type `"@, assigned@, "`"@);
            lemma_holds_next("` was declared with type `"@, declared@, "` but its assigned argument is of type `"@ + assigned@ + "`"@, seq![assigned@]);
            assert(seq![declared@] + seq![assigned@] =~= seq![declared@, assigned@]);
            lemma_holds_next("Parameter `"@, name@, "` was declared with type `"@ + declared@ + ("` but its assigned argument is of type `"@ + assigned@ + "`"@), seq![declared@, assigned@]);
            assert(seq![name@] + seq![declared@, assigned@] =~= seq![name@, declared@, assigned@]);
            assert(message(e) =~= "Parameter `"@ + name@ + ("` was declared with type `"@ + declared@ + ("` but its assigned argument is of type `"@ + assigned@ + "`"@)));
        },
        _ => {},
    }
}

/// What the message of a syntax error shows of what was found: nothing found is shown as the
/// end of the input.
pub proof fn law_nothing_found_is_the_end(
    expected: Seq<Seq<char>>,
    label: Option<String>,
    found: Option<String>,
)
    requires
        found matches Some(text) && text@ == "end of input"@,
    ensures
        syntax_message(expected, label, found) == syntax_message(expected, label, None),
{
}

/// Where what was expected has a label, the label is shown in place of the list, whatever that
/// holds, and before what was found.
pub proof fn law_label_stands_for_the_list(
    a: Seq<Seq<char>>,
    b: Seq<Seq<char>>,
    label: String,
    found: String,
)
    ensures
        syntax_message(a, Some(label), Some(found)) == syntax_message(b, Some(label), Some(found)),
        holds_in_turn(syntax_message(a, Some(label), Some(found)), seq![label@, found@]),
{
    let end = Seq::<char>::empty();
    lemma_holds_one(", found "@, found@, end);
    lemma_holds_next("Expected "@, label@, ", found "@ + found@ + end, seq![found@]);
    assert(seq![label@] + seq![found@] =~= seq![label@, found@]);
    assert(syntax_message(a, Some(label), Some(found)) =~= "Expected "@ + label@ + (", found "@
        + found@ + end));
}

/// Without a label, the message of a syntax error shows each of the texts that were expected,
/// in quotes and in order, and then what was found.
pub proof fn law_expected_texts_are_listed(expected: Seq<Seq<char>>, found: String)
    ensures
        holds_in_turn(
            syntax_message(expected, None, Some(found)),
            if expected.len() == 0 {
                seq![found@]
            } else {
                quoted(expected) + seq!["'"@ + found@ + "'"@]
            },
        ),
{
    let end = Seq::<char>::empty();
    let last = "'"@ + found@ + "'"@;
    let shown = syntax_message(expected, None, Some(found));
    lemma_holds_one(", found "@, last, end);
    if expected.len() == 0 {
        lemma_holds_one("Unexpected "@, found@, end);
        assert(shown =~= "Unexpected "@ + found@ + end);
    } else if expected.len() == 1 {
        let one = "'"@ + expected[0] + "'"@;
        lemma_holds_next("Expected "@, one, ", found "@ + last + end, seq![last]);
        reveal_strlit("Expected '");
        reveal_strlit("', found '");
        reveal_strlit("Expected ");
        reveal_strlit(", found ");
        reveal_strlit("'");
        assert(quoted(expected) + seq![last] =~= seq![one] + seq![last]);
        assert(shown =~= "Expected "@ + one + (", found "@ + last + end));
    } else {
        reveal_strlit(", found '");
        reveal_strlit(", found ");
        reveal_strlit("'");
        let parts = quoted(expected);
        let tail = ", found "@ + last + end;
        lemma_joined_holds("Expected one of "@, parts, tail, seq![last]);
        assert(shown =~= "Expected one of "@ + joined(parts, ", "@) + tail);
    }
}

/// A list that is joined holds its parts in order.
proof fn lemma_joined_holds(
    before: Seq<char>,
    parts: Seq<Seq<char>>,
    after: Seq<char>,
    rest: Seq<Seq<char>>,
)
    requires
        parts.len() > 0,
        holds_in_turn(after, rest),
    ensures
        holds_in_turn(before + joined(parts, ", "@) + after, parts + rest),
    decreases parts.len(),
{
    let first = parts[0];
    if parts.len() == 1 {
        lemma_holds_next(before, first, after, rest);
        assert(parts + rest =~= seq![first] + rest);
    } else {
        let more = parts.drop_first();
        lemma_joined_holds(", "@, more, after, rest);
        let behind = ", "@ + joined(more, ", "@) + after;
        lemma_holds_next(before, first, behind, more + rest);
        law_joined_parts(seq![first], more, ", "@);
        assert(parts =~= seq![first] + more);
        assert(parts + rest =~= seq![first] + (more + rest));
        assert(before + joined(parts, ", "@) + after =~= before + first + behind);
    }
}

} // verus!
