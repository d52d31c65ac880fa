//! Deriving `RequireFeature`: which fields of a type are bound, which are recursed into, and
//! which feature the type itself requires.
//!
//! The syntax of the type comes in as plain values and the plan of the impl goes out as plain
//! values. A name carries the place where it stands, so that an error can point at it.
use vstd::prelude::*;

use crate::requirement::law_number_is_known_from_its_digits;
use crate::text::{concat2, decimal, decimal_text, same_text, texts};

verus! {

// ---------------------------------------------------------------------------------------
// The syntax of a type
// ---------------------------------------------------------------------------------------

/// A name, and the place where it stands.
#[derive(Debug)]
pub struct Name {
    pub text: String,
    pub at: usize,
}

/// Why an impl cannot be derived, and the place of what stands in the way.
#[derive(Debug)]
pub struct ExpandError {
    pub message: String,
    pub at: usize,
}

/// A message, and the place that it is about.
pub struct ExpandErrorModel {
    pub message: Seq<char>,
    pub at: usize,
}

impl View for ExpandError {
    type V = ExpandErrorModel;

    open spec fn view(&self) -> ExpandErrorModel {
        ExpandErrorModel { message: self.message@, at: self.at }
    }
}

/// One argument of an attribute, such as `skip` or `requires(Imports)`.
#[derive(Debug)]
pub struct Argument {
    /// The path that it begins with.
    pub path: Name,
    /// The error for what follows the path, if anything does.
    pub rest: Option<ExpandError>,
    /// The name in parentheses behind the path, or the error for what stands there instead.
    pub feature: Result<Name, ExpandError>,
}

/// An attribute.
#[derive(Debug)]
pub struct Attribute {
    /// The path that it begins with.
    pub path: String,
    /// Its arguments, as far as they can be read.
    pub arguments: Vec<Argument>,
    /// Why no more of them can be read, where there is more.
    pub broken: Option<ExpandError>,
}

/// A field with a name.
#[derive(Debug)]
pub struct NamedField {
    pub name: Name,
    pub attrs: Vec<Attribute>,
}

/// A field without a name.
#[derive(Debug)]
pub struct UnnamedField {
    pub attrs: Vec<Attribute>,
}

/// The fields of a struct or of a variant.
#[derive(Debug)]
pub enum Fields {
    Named(Vec<NamedField>),
    Unnamed(Vec<UnnamedField>),
    Unit,
}

/// A variant of an enum.
#[derive(Debug)]
pub struct Variant {
    pub name: Name,
    pub attrs: Vec<Attribute>,
    pub fields: Fields,
}

/// What a type is made of.
#[derive(Debug)]
pub enum Data {
    Struct(Fields),
    Enum(Vec<Variant>),
    Union,
}

/// A type for which the impl is derived.
#[derive(Debug)]
pub struct TypeInput {
    pub name: Name,
    pub attrs: Vec<Attribute>,
    pub data: Data,
}

// ---------------------------------------------------------------------------------------
// The plan of an impl
// ---------------------------------------------------------------------------------------

/// How the fields are taken apart: not at all; in order, each with a binding or `_`; or by
/// name, each bound or ignored.
pub enum PatternModel {
    Unit,
    Positional(Seq<Option<Seq<char>>>),
    Named(Seq<(Seq<char>, bool)>),
}

/// How one shape of the type is handled: its pattern, the feature that it requires itself,
/// and the bindings to recurse into.
pub struct ArmModel {
    pub pattern: PatternModel,
    pub push: Option<Seq<char>>,
    pub calls: Seq<Seq<char>>,
}

/// How the type is handled: the one shape of a struct, or each variant of an enum by name.
pub enum PlanModel {
    Struct(ArmModel),
    Enum(Seq<(Seq<char>, ArmModel)>),
}

/// How the fields are taken apart.
#[derive(Debug)]
pub enum Pattern {
    Unit,
    Positional(Vec<Option<String>>),
    Named(Vec<(String, bool)>),
}

/// How one shape of the type is handled.
#[derive(Debug)]
pub struct Arm {
    pub pattern: Pattern,
    pub push: Option<String>,
    pub calls: Vec<String>,
}

/// How the type is handled.
#[derive(Debug)]
pub enum Plan {
    Struct(Arm),
    Enum(Vec<(String, Arm)>),
}

/// The text, if there is one.
pub open spec fn text_of(s: Option<String>) -> Option<Seq<char>> {
    match s {
        Some(s) => Some(s@),
        None => None,
    }
}

impl View for Pattern {
    type V = PatternModel;

    open spec fn view(&self) -> PatternModel {
        match *self {
            Pattern::Unit => PatternModel::Unit,
            Pattern::Positional(bindings) => PatternModel::Positional(
                bindings@.map_values(|b: Option<String>| text_of(b)),
            ),
            Pattern::Named(bindings) => PatternModel::Named(
                bindings@.map_values(|b: (String, bool)| (b.0@, b.1)),
            ),
        }
    }
}

impl View for Arm {
    type V = ArmModel;

    open spec fn view(&self) -> ArmModel {
        ArmModel {
            pattern: self.pattern@,
            push: text_of(self.push),
            calls: texts(self.calls@),
        }
    }
}

impl View for Plan {
    type V = PlanModel;

    open spec fn view(&self) -> PlanModel {
        match *self {
            Plan::Struct(arm) => PlanModel::Struct(arm@),
            Plan::Enum(arms) => PlanModel::Enum(
                arms@.map_values(|a: (String, Arm)| (a.0@, a.1@)),
            ),
        }
    }
}

// ---------------------------------------------------------------------------------------
// Attributes
// ---------------------------------------------------------------------------------------

/// What one argument says: that the field is skipped, or what is wrong with it.
pub open spec fn skip_argument(a: Argument) -> Result<bool, ExpandErrorModel> {
    if a.path.text@ == "skip"@ {
        match a.rest {
            None => Ok(true),
            Some(e) => Err(e@),
        }
    } else {
        Err(ExpandErrorModel { message: "expected `skip`"@, at: a.path.at })
    }
}

/// Whether the arguments skip a field; the first that is wrong is an error.
pub open spec fn skip_arguments(before: bool, args: Seq<Argument>) -> Result<bool, ExpandErrorModel>
    decreases args.len(),
{
    if args.len() == 0 {
        Ok(before)
    } else {
        match skip_arguments(before, args.drop_last()) {
            Ok(_) => skip_argument(args.last()),
            Err(e) => Err(e),
        }
    }
}

/// Whether the attributes skip a field or variant.
pub open spec fn skipped(attrs: Seq<Attribute>) -> Result<bool, ExpandErrorModel>
    decreases attrs.len(),
{
    if attrs.len() == 0 {
        Ok(false)
    } else {
        match skipped(attrs.drop_last()) {
            Ok(skip) => if attrs.last().path@ == "require_feature"@ {
                match (skip_arguments(skip, attrs.last().arguments@), attrs.last().broken) {
                    (Ok(_), Some(e)) => Err(e@),
                    (read, _) => read,
                }
            } else {
                Ok(skip)
            },
            Err(e) => Err(e),
        }
    }
}

/// The feature that an argument requires.
pub open spec fn requires_argument(a: Argument) -> Result<(Seq<char>, usize), ExpandErrorModel> {
    if a.path.text@ == "requires"@ {
        match a.feature {
            Ok(name) => Ok((name.text@, name.at)),
            Err(e) => Err(e@),
        }
    } else {
        Err(ExpandErrorModel { message: "expected `requires(FeatureName)`"@, at: a.path.at })
    }
}

/// The feature that the arguments require: the last that is named.
pub open spec fn requires_arguments(
    before: Option<(Seq<char>, usize)>,
    args: Seq<Argument>,
) -> Result<Option<(Seq<char>, usize)>, ExpandErrorModel>
    decreases args.len(),
{
    if args.len() == 0 {
        Ok(before)
    } else {
        match requires_arguments(before, args.drop_last()) {
            Ok(_) => match requires_argument(args.last()) {
                Ok(feature) => Ok(Some(feature)),
                Err(e) => Err(e),
            },
            Err(e) => Err(e),
        }
    }
}

/// The feature that the attributes of a type require.
pub open spec fn required(attrs: Seq<Attribute>) -> Result<
    Option<(Seq<char>, usize)>,
    ExpandErrorModel,
>
    decreases attrs.len(),
{
    if attrs.len() == 0 {
        Ok(None)
    } else {
        match required(attrs.drop_last()) {
            Ok(feature) => if attrs.last().path@ == "require_feature"@ {
                match (requires_arguments(feature, attrs.last().arguments@), attrs.last().broken) {
                    (Ok(_), Some(e)) => Err(e@),
                    (read, _) => read,
                }
            } else {
                Ok(feature)
            },
            Err(e) => Err(e),
        }
    }
}

/// A copy of an error.
fn copy_error(e: &ExpandError) -> (r: ExpandError)
    ensures
        r@ == e@,
{
    ExpandError { message: e.message.clone(), at: e.at }
}

/// An error at a place.
fn error_at(message: &str, at: usize) -> (r: ExpandError)
    ensures
        r@ == (ExpandErrorModel { message: message@, at }),
{
    ExpandError { message: message.to_string(), at }
}

/// The outcome of reading a skip attribute, as its model.
pub open spec fn skip_model(r: Result<bool, ExpandError>) -> Result<bool, ExpandErrorModel> {
    match r {
        Ok(skip) => Ok(skip),
        Err(e) => Err(e@),
    }
}

/// A wrong argument is an error whatever follows it.
proof fn lemma_skip_arguments_prefix(before: bool, args: Seq<Argument>, k: int)
    requires
        0 <= k <= args.len(),
        skip_arguments(before, args.take(k)) is Err,
    ensures
        skip_arguments(before, args) == skip_arguments(before, args.take(k)),
    decreases args.len() - k,
{
    if k < args.len() {
        assert(args.take(k + 1).drop_last() =~= args.take(k));
        lemma_skip_arguments_prefix(before, args, k + 1);
    } else {
        assert(args.take(k) =~= args);
    }
}

proof fn lemma_skipped_prefix(attrs: Seq<Attribute>, k: int)
    requires
        0 <= k <= attrs.len(),
        skipped(attrs.take(k)) is Err,
    ensures
        skipped(attrs) == skipped(attrs.take(k)),
    decreases attrs.len() - k,
{
    if k < attrs.len() {
        assert(attrs.take(k + 1).drop_last() =~= attrs.take(k));
        lemma_skipped_prefix(attrs, k + 1);
    } else {
        assert(attrs.take(k) =~= attrs);
    }
}

proof fn lemma_requires_arguments_prefix(
    before: Option<(Seq<char>, usize)>,
    args: Seq<Argument>,
    k: int,
)
    requires
        0 <= k <= args.len(),
        requires_arguments(before, args.take(k)) is Err,
    ensures
        requires_arguments(before, args) == requires_arguments(before, args.take(k)),
    decreases args.len() - k,
{
    if k < args.len() {
        assert(args.take(k + 1).drop_last() =~= args.take(k));
        lemma_requires_arguments_prefix(before, args, k + 1);
    } else {
        assert(args.take(k) =~= args);
    }
}

proof fn lemma_required_prefix(attrs: Seq<Attribute>, k: int)
    requires
        0 <= k <= attrs.len(),
        required(attrs.take(k)) is Err,
    ensures
        required(attrs) == required(attrs.take(k)),
    decreases attrs.len() - k,
{
    if k < attrs.len() {
        assert(attrs.take(k + 1).drop_last() =~= attrs.take(k));
        lemma_required_prefix(attrs, k + 1);
    } else {
        assert(attrs.take(k) =~= attrs);
    }
}

/// Whether the arguments of one attribute skip a field.
fn read_skip_arguments(before: bool, args: &Vec<Argument>) -> (r: Result<bool, ExpandError>)
    ensures
        skip_model(r) == skip_arguments(before, args@),
{
    let mut skip = before;
    let mut i: usize = 0;
    while i < args.len()
        invariant
            i <= args.len(),
            skip_arguments(before, args@.take(i as int)) == Ok::<bool, ExpandErrorModel>(skip),
        decreases args.len() - i,
    {
        let a = &args[i];
        proof {
            assert(args@.take(i + 1).drop_last() =~= args@.take(i as int));
            if skip_arguments(before, args@.take(i + 1)) is Err {
                lemma_skip_arguments_prefix(before, args@, i + 1);
            }
        }
        if same_text(a.path.text.as_str(), "skip") {
            match &a.rest {
                None => {
                    skip = true;
                },
                Some(e) => {
                    return Err(copy_error(e));
                },
            }
        } else {
            return Err(error_at("expected `skip`", a.path.at));
        }
        i = i + 1;
    }
    assert(args@.take(i as int) =~= args@);
    Ok(skip)
}

/// Parse `#[require_feature(skip)]` on a field or enum variant.
pub fn skip_attr(attrs: &Vec<Attribute>) -> (r: Result<bool, ExpandError>)
    ensures
        skip_model(r) == skipped(attrs@),
{
    let mut skip = false;
    let mut i: usize = 0;
    while i < attrs.len()
        invariant
            i <= attrs.len(),
            skipped(attrs@.take(i as int)) == Ok::<bool, ExpandErrorModel>(skip),
        decreases attrs.len() - i,
    {
        let attr = &attrs[i];
        proof {
            assert(attrs@.take(i + 1).drop_last() =~= attrs@.take(i as int));
            if skipped(attrs@.take(i + 1)) is Err {
                lemma_skipped_prefix(attrs@, i + 1);
            }
        }
        if same_text(attr.path.as_str(), "require_feature") {
            match read_skip_arguments(skip, &attr.arguments) {
                Ok(s) => {
                    skip = s;
                },
                Err(e) => {
                    return Err(e);
                },
            }
            if let Some(e) = &attr.broken {
                return Err(copy_error(e));
            }
        }
        i = i + 1;
    }
    assert(attrs@.take(i as int) =~= attrs@);
    Ok(skip)
}

/// The name and place of a feature, as its model.
pub open spec fn feature_model(f: Option<Name>) -> Option<(Seq<char>, usize)> {
    match f {
        Some(name) => Some((name.text@, name.at)),
        None => None,
    }
}

/// The outcome of reading a requirement, as its model.
pub open spec fn requires_model(r: Result<Option<Name>, ExpandError>) -> Result<
    Option<(Seq<char>, usize)>,
    ExpandErrorModel,
> {
    match r {
        Ok(feature) => Ok(feature_model(feature)),
        Err(e) => Err(e@),
    }
}

/// The feature that the arguments of one attribute require.
fn read_requires_arguments(before: Option<Name>, args: &Vec<Argument>) -> (r: Result<
    Option<Name>,
    ExpandError,
>)
    ensures
        requires_model(r) == requires_arguments(feature_model(before), args@),
{
    let ghost start = feature_model(before);
    let mut feature = before;
    let mut i: usize = 0;
    while i < args.len()
        invariant
            i <= args.len(),
            start == feature_model(before),
            requires_arguments(start, args@.take(i as int)) == Ok::<
                Option<(Seq<char>, usize)>,
                ExpandErrorModel,
            >(feature_model(feature)),
        decreases args.len() - i,
    {
        let a = &args[i];
        proof {
            assert(args@.take(i + 1).drop_last() =~= args@.take(i as int));
            if requires_arguments(start, args@.take(i + 1)) is Err {
                lemma_requires_arguments_prefix(start, args@, i + 1);
            }
        }
        if same_text(a.path.text.as_str(), "requires") {
            match &a.feature {
                Ok(name) => {
                    feature = Some(Name { text: name.text.clone(), at: name.at });
                },
                Err(e) => {
                    return Err(copy_error(e));
                },
            }
        } else {
            return Err(error_at("expected `requires(FeatureName)`", a.path.at));
        }
        i = i + 1;
    }
    assert(args@.take(i as int) =~= args@);
    Ok(feature)
}

/// Parse `#[require_feature(requires(FeatureName))]` on a type.
pub fn requires_attr(attrs: &Vec<Attribute>) -> (r: Result<Option<Name>, ExpandError>)
    ensures
        requires_model(r) == required(attrs@),
{
    let mut feature: Option<Name> = None;
    let mut i: usize = 0;
    while i < attrs.len()
        invariant
            i <= attrs.len(),
            required(attrs@.take(i as int)) == Ok::<Option<(Seq<char>, usize)>, ExpandErrorModel>(
                feature_model(feature),
            ),
        decreases attrs.len() - i,
    {
        let attr = &attrs[i];
        proof {
            assert(attrs@.take(i + 1).drop_last() =~= attrs@.take(i as int));
            if required(attrs@.take(i + 1)) is Err {
                lemma_required_prefix(attrs@, i + 1);
            }
        }
        if same_text(attr.path.as_str(), "require_feature") {
            match read_requires_arguments(feature, &attr.arguments) {
                Ok(f) => {
                    feature = f;
                },
                Err(e) => {
                    return Err(e);
                },
            }
            if let Some(e) = &attr.broken {
                return Err(copy_error(e));
            }
        }
        i = i + 1;
    }
    assert(attrs@.take(i as int) =~= attrs@);
    Ok(feature)
}

// ---------------------------------------------------------------------------------------
// Fields
// ---------------------------------------------------------------------------------------

/// The binding of the field at an index.
pub open spec fn binding_name(index: nat) -> Seq<char> {
    "__field_"@ + decimal(index)
}

/// What is known of fields that were read: how each is bound, and which are recursed into.
pub struct PositionalModel {
    pub bindings: Seq<Option<Seq<char>>>,
    pub calls: Seq<Seq<char>>,
}

/// How unnamed fields are bound. A field that is skipped is ignored; any other is bound and
/// recursed into.
pub open spec fn positional(fields: Seq<UnnamedField>, skip_all: bool) -> Result<
    PositionalModel,
    ExpandErrorModel,
>
    decreases fields.len(),
{
    if fields.len() == 0 {
        Ok(PositionalModel { bindings: Seq::empty(), calls: Seq::empty() })
    } else {
        match positional(fields.drop_last(), skip_all) {
            Ok(m) => {
                let name = binding_name((fields.len() - 1) as nat);
                if skip_all {
                    Ok(PositionalModel { bindings: m.bindings.push(None), calls: m.calls })
                } else {
                    match skipped(fields.last().attrs@) {
                        Ok(true) => Ok(
                            PositionalModel { bindings: m.bindings.push(None), calls: m.calls },
                        ),
                        Ok(false) => Ok(
                            PositionalModel {
                                bindings: m.bindings.push(Some(name)),
                                calls: m.calls.push(name),
                            },
                        ),
                        Err(e) => Err(e),
                    }
                }
            },
            Err(e) => Err(e),
        }
    }
}

/// What is known of named fields that were read.
pub struct NamedModel {
    pub bindings: Seq<(Seq<char>, bool)>,
    pub calls: Seq<Seq<char>>,
}

/// How named fields are bound. A field that is skipped is not recursed into; it is ignored,
/// unless it is the `span` that a requirement needs.
pub open spec fn named(fields: Seq<NamedField>, skip_all: bool, keep_span: bool) -> Result<
    NamedModel,
    ExpandErrorModel,
>
    decreases fields.len(),
{
    if fields.len() == 0 {
        Ok(NamedModel { bindings: Seq::empty(), calls: Seq::empty() })
    } else {
        match named(fields.drop_last(), skip_all, keep_span) {
            Ok(m) => {
                let name = fields.last().name.text@;
                if skip_all {
                    Ok(NamedModel { bindings: m.bindings.push((name, false)), calls: m.calls })
                } else {
                    match skipped(fields.last().attrs@) {
                        Ok(true) => Ok(
                            NamedModel {
                                bindings: m.bindings.push((name, keep_span && name == "span"@)),
                                calls: m.calls,
                            },
                        ),
                        Ok(false) => Ok(
                            NamedModel {
                                bindings: m.bindings.push((name, true)),
                                calls: m.calls.push(name),
                            },
                        ),
                        Err(e) => Err(e),
                    }
                }
            },
            Err(e) => Err(e),
        }
    }
}

/// Whether one of the fields is named `span`.
pub open spec fn has_span(fields: Seq<NamedField>) -> bool {
    exists|i: int| 0 <= i < fields.len() && (#[trigger] fields[i]).name.text@ == "span"@
}

proof fn lemma_positional_prefix(fields: Seq<UnnamedField>, skip_all: bool, k: int)
    requires
        0 <= k <= fields.len(),
        positional(fields.take(k), skip_all) is Err,
    ensures
        positional(fields, skip_all) == positional(fields.take(k), skip_all),
    decreases fields.len() - k,
{
    if k < fields.len() {
        assert(fields.take(k + 1).drop_last() =~= fields.take(k));
        lemma_positional_prefix(fields, skip_all, k + 1);
    } else {
        assert(fields.take(k) =~= fields);
    }
}

proof fn lemma_named_prefix(fields: Seq<NamedField>, skip_all: bool, keep_span: bool, k: int)
    requires
        0 <= k <= fields.len(),
        named(fields.take(k), skip_all, keep_span) is Err,
    ensures
        named(fields, skip_all, keep_span) == named(fields.take(k), skip_all, keep_span),
    decreases fields.len() - k,
{
    if k < fields.len() {
        assert(fields.take(k + 1).drop_last() =~= fields.take(k));
        lemma_named_prefix(fields, skip_all, keep_span, k + 1);
    } else {
        assert(fields.take(k) =~= fields);
    }
}

/// The model of positional bindings and calls.
pub open spec fn positional_model(bindings: Seq<Option<String>>, calls: Seq<String>) -> PositionalModel {
    PositionalModel {
        bindings: bindings.map_values(|b: Option<String>| text_of(b)),
        calls: texts(calls),
    }
}

/// Bind unnamed fields: `_` for one that is skipped, and otherwise a name made of its index,
/// which is also recursed into.
pub fn positional_bindings(fields: &Vec<UnnamedField>, skip_all: bool) -> (r: Result<
    (Vec<Option<String>>, Vec<String>),
    ExpandError,
>)
    ensures
        match r {
            Ok((pats, calls)) => positional(fields@, skip_all) == Ok::<
                PositionalModel,
                ExpandErrorModel,
            >(positional_model(pats@, calls@)),
            Err(e) => positional(fields@, skip_all) == Err::<PositionalModel, ExpandErrorModel>(
                e@,
            ),
        },
{
    let mut pats: Vec<Option<String>> = Vec::new();
    let mut calls: Vec<String> = Vec::new();
    let mut i: usize = 0;
    assert(positional_model(pats@, calls@).bindings =~= Seq::empty());
    assert(positional_model(pats@, calls@).calls =~= Seq::empty());
    while i < fields.len()
        invariant
            i <= fields.len(),
            positional(fields@.take(i as int), skip_all) == Ok::<PositionalModel, ExpandErrorModel>(
                positional_model(pats@, calls@),
            ),
        decreases fields.len() - i,
    {
        let ghost m = positional_model(pats@, calls@);
        proof {
            assert(fields@.take(i + 1).drop_last() =~= fields@.take(i as int));
            if positional(fields@.take(i + 1), skip_all) is Err {
                lemma_positional_prefix(fields@, skip_all, i + 1);
            }
        }
        let skip = if skip_all {
            true
        } else {
            match skip_attr(&fields[i].attrs) {
                Ok(skip) => skip,
                Err(e) => {
                    return Err(e);
                },
            }
        };
        if skip {
            pats.push(None);
            assert(positional_model(pats@, calls@).bindings =~= m.bindings.push(None));
        } else {
            let binding = concat2("__field_", decimal_text(i as u64).as_str());
            let ghost name = binding@;
            pats.push(Some(binding.clone()));
            calls.push(binding);
            assert(positional_model(pats@, calls@).bindings =~= m.bindings.push(Some(name)));
            assert(positional_model(pats@, calls@).calls =~= m.calls.push(name));
        }
        i = i + 1;
    }
    assert(fields@.take(i as int) =~= fields@);
    Ok((pats, calls))
}

/// The model of named bindings and calls.
pub open spec fn named_model(bindings: Seq<(String, bool)>, calls: Seq<String>) -> NamedModel {
    NamedModel {
        bindings: bindings.map_values(|b: (String, bool)| (b.0@, b.1)),
        calls: texts(calls),
    }
}

/// Bind named fields.
fn named_bindings(fields: &Vec<NamedField>, skip_all: bool, keep_span: bool) -> (r: Result<
    (Vec<(String, bool)>, Vec<String>),
    ExpandError,
>)
    ensures
        match r {
            Ok((pats, calls)) => named(fields@, skip_all, keep_span) == Ok::<
                NamedModel,
                ExpandErrorModel,
            >(named_model(pats@, calls@)),
            Err(e) => named(fields@, skip_all, keep_span) == Err::<NamedModel, ExpandErrorModel>(
                e@,
            ),
        },
{
    let mut pats: Vec<(String, bool)> = Vec::new();
    let mut calls: Vec<String> = Vec::new();
    let mut i: usize = 0;
    assert(named_model(pats@, calls@).bindings =~= Seq::empty());
    assert(named_model(pats@, calls@).calls =~= Seq::empty());
    while i < fields.len()
        invariant
            i <= fields.len(),
            named(fields@.take(i as int), skip_all, keep_span) == Ok::<
                NamedModel,
                ExpandErrorModel,
            >(named_model(pats@, calls@)),
        decreases fields.len() - i,
    {
        let ghost m = named_model(pats@, calls@);
        proof {
            assert(fields@.take(i + 1).drop_last() =~= fields@.take(i as int));
            if named(fields@.take(i + 1), skip_all, keep_span) is Err {
                lemma_named_prefix(fields@, skip_all, keep_span, i + 1);
            }
        }
        let field = &fields[i];
        let ghost name = field.name.text@;
        let skip = if skip_all {
            true
        } else {
            match skip_attr(&field.attrs) {
                Ok(skip) => skip,
                Err(e) => {
                    return Err(e);
                },
            }
        };
        if skip {
            let bound = !skip_all && keep_span && same_text(field.name.text.as_str(), "span");
            pats.push((field.name.text.clone(), bound));
            assert(named_model(pats@, calls@).bindings =~= m.bindings.push((name, bound)));
        } else {
            pats.push((field.name.text.clone(), true));
            calls.push(field.name.text.clone());
            assert(named_model(pats@, calls@).bindings =~= m.bindings.push((name, true)));
            assert(named_model(pats@, calls@).calls =~= m.calls.push(name));
        }
        i = i + 1;
    }
    assert(fields@.take(i as int) =~= fields@);
    Ok((pats, calls))
}

// ---------------------------------------------------------------------------------------
// Types
// ---------------------------------------------------------------------------------------

/// The error for a requirement on a type that has no place to attach it to.
pub open spec fn needs_span(feature: (Seq<char>, usize)) -> ExpandErrorModel {
    ExpandErrorModel {
        message: "`requires(...)` needs a field named `span` to attach the requirement to"@,
        at: feature.1,
    }
}

/// How a struct is handled.
pub open spec fn struct_arm(fields: Fields, feature: Option<(Seq<char>, usize)>) -> Result<
    ArmModel,
    ExpandErrorModel,
> {
    match fields {
        Fields::Named(fields) => match named(fields@, false, feature is Some) {
            Ok(m) => match feature {
                Some(f) => if has_span(fields@) {
                    Ok(
                        ArmModel {
                            pattern: PatternModel::Named(m.bindings),
                            push: Some(f.0),
                            calls: m.calls,
                        },
                    )
                } else {
                    Err(needs_span(f))
                },
                None => Ok(
                    ArmModel {
                        pattern: PatternModel::Named(m.bindings),
                        push: None,
                        calls: m.calls,
                    },
                ),
            },
            Err(e) => Err(e),
        },
        Fields::Unnamed(fields) => match feature {
            Some(f) => Err(needs_span(f)),
            None => match positional(fields@, false) {
                Ok(m) => Ok(
                    ArmModel {
                        pattern: PatternModel::Positional(m.bindings),
                        push: None,
                        calls: m.calls,
                    },
                ),
                Err(e) => Err(e),
            },
        },
        Fields::Unit => match feature {
            Some(f) => Err(needs_span(f)),
            None => Ok(
                ArmModel { pattern: PatternModel::Unit, push: None, calls: Seq::empty() },
            ),
        },
    }
}

/// How a variant is handled.
pub open spec fn variant_arm(v: Variant) -> Result<ArmModel, ExpandErrorModel> {
    match skipped(v.attrs@) {
        Ok(skip_all) => match v.fields {
            Fields::Named(fields) => match named(fields@, skip_all, false) {
                Ok(m) => Ok(
                    ArmModel {
                        pattern: PatternModel::Named(m.bindings),
                        push: None,
                        calls: m.calls,
                    },
                ),
                Err(e) => Err(e),
            },
            Fields::Unnamed(fields) => match positional(fields@, skip_all) {
                Ok(m) => Ok(
                    ArmModel {
                        pattern: PatternModel::Positional(m.bindings),
                        push: None,
                        calls: m.calls,
                    },
                ),
                Err(e) => Err(e),
            },
            Fields::Unit => Ok(
                ArmModel { pattern: PatternModel::Unit, push: None, calls: Seq::empty() },
            ),
        },
        Err(e) => Err(e),
    }
}

/// How the variants of an enum are handled.
pub open spec fn enum_arms(variants: Seq<Variant>) -> Result<
    Seq<(Seq<char>, ArmModel)>,
    ExpandErrorModel,
>
    decreases variants.len(),
{
    if variants.len() == 0 {
        Ok(Seq::empty())
    } else {
        match enum_arms(variants.drop_last()) {
            Ok(arms) => match variant_arm(variants.last()) {
                Ok(arm) => Ok(arms.push((variants.last().name.text@, arm))),
                Err(e) => Err(e),
            },
            Err(e) => Err(e),
        }
    }
}

/// How a type is handled, or why no impl can be derived for it.
pub open spec fn expanded(input: TypeInput) -> Result<PlanModel, ExpandErrorModel> {
    match required(input.attrs@) {
        Ok(feature) => match input.data {
            Data::Struct(fields) => match struct_arm(fields, feature) {
                Ok(arm) => Ok(PlanModel::Struct(arm)),
                Err(e) => Err(e),
            },
            Data::Enum(variants) => match feature {
                Some(f) => Err(
                    ExpandErrorModel {
                        message:
                            "`requires(...)` is only supported on structs with a `span` field"@,
                        at: f.1,
                    },
                ),
                None => match enum_arms(variants@) {
                    Ok(arms) => Ok(PlanModel::Enum(arms)),
                    Err(e) => Err(e),
                },
            },
            Data::Union => Err(
                ExpandErrorModel {
                    message: "RequireFeature cannot be derived for unions"@,
                    at: input.name.at,
                },
            ),
        },
        Err(e) => Err(e),
    }
}

/// The outcome of handling one shape, as its model.
pub open spec fn arm_model(r: Result<Arm, ExpandError>) -> Result<ArmModel, ExpandErrorModel> {
    match r {
        Ok(arm) => Ok(arm@),
        Err(e) => Err(e@),
    }
}

/// The error for a requirement on a type that has no place to attach it to.
pub fn requires_needs_span(feature: &Name) -> (r: ExpandError)
    ensures
        r@ == needs_span((feature.text@, feature.at)),
{
    error_at(
        "`requires(...)` needs a field named `span` to attach the requirement to",
        feature.at,
    )
}

/// Whether one of the fields is named `span`.
fn find_span(fields: &Vec<NamedField>) -> (r: bool)
    ensures
        r == has_span(fields@),
{
    let mut i: usize = 0;
    while i < fields.len()
        invariant
            i <= fields.len(),
            forall|k: int| 0 <= k < i ==> (#[trigger] fields@[k]).name.text@ != "span"@,
        decreases fields.len() - i,
    {
        if same_text(fields[i].name.text.as_str(), "span") {
            assert(fields@[i as int].name.text@ == "span"@);
            return true;
        }
        i = i + 1;
    }
    false
}

/// Plan the impl for a struct. A struct that requires a feature itself needs named fields
/// and one of them named `span`.
pub fn expand_struct(fields: &Fields, feature: &Option<Name>) -> (r: Result<Arm, ExpandError>)
    ensures
        arm_model(r) == struct_arm(*fields, feature_model(*feature)),
{
    match fields {
        Fields::Named(fields) => {
            let (pats, calls) = match named_bindings(fields, false, feature.is_some()) {
                Ok(bound) => bound,
                Err(e) => {
                    return Err(e);
                },
            };
            let push = match feature {
                None => None,
                Some(f) => {
                    if !find_span(fields) {
                        return Err(requires_needs_span(f));
                    }
                    Some(f.text.clone())
                },
            };
            Ok(Arm { pattern: Pattern::Named(pats), push, calls })
        },
        Fields::Unnamed(fields) => {
            if let Some(f) = feature {
                return Err(requires_needs_span(f));
            }
            match positional_bindings(fields, false) {
                Ok((pats, calls)) => Ok(
                    Arm { pattern: Pattern::Positional(pats), push: None, calls },
                ),
                Err(e) => Err(e),
            }
        },
        Fields::Unit => {
            if let Some(f) = feature {
                return Err(requires_needs_span(f));
            }
            let arm = Arm { pattern: Pattern::Unit, push: None, calls: Vec::new() };
            assert(arm@.calls =~= Seq::empty());
            Ok(arm)
        },
    }
}

/// Plan the arm for a variant.
fn expand_variant(variant: &Variant) -> (r: Result<Arm, ExpandError>)
    ensures
        arm_model(r) == variant_arm(*variant),
{
    let skip_all = match skip_attr(&variant.attrs) {
        Ok(skip) => skip,
        Err(e) => {
            return Err(e);
        },
    };
    match &variant.fields {
        Fields::Unit => {
            let arm = Arm { pattern: Pattern::Unit, push: None, calls: Vec::new() };
            assert(arm@.calls =~= Seq::empty());
            Ok(arm)
        },
        Fields::Unnamed(fields) => match positional_bindings(fields, skip_all) {
            Ok((pats, calls)) => Ok(Arm { pattern: Pattern::Positional(pats), push: None, calls }),
            Err(e) => Err(e),
        },
        Fields::Named(fields) => match named_bindings(fields, skip_all, false) {
            Ok((pats, calls)) => Ok(Arm { pattern: Pattern::Named(pats), push: None, calls }),
            Err(e) => Err(e),
        },
    }
}

/// The models of the arms.
pub open spec fn arm_models(arms: Seq<(String, Arm)>) -> Seq<(Seq<char>, ArmModel)> {
    arms.map_values(|a: (String, Arm)| (a.0@, a.1@))
}

proof fn lemma_enum_arms_prefix(variants: Seq<Variant>, k: int)
    requires
        0 <= k <= variants.len(),
        enum_arms(variants.take(k)) is Err,
    ensures
        enum_arms(variants) == enum_arms(variants.take(k)),
    decreases variants.len() - k,
{
    if k < variants.len() {
        assert(variants.take(k + 1).drop_last() =~= variants.take(k));
        lemma_enum_arms_prefix(variants, k + 1);
    } else {
        assert(variants.take(k) =~= variants);
    }
}

/// Plan the impl for an enum: an arm for each variant.
pub fn expand_enum(variants: &Vec<Variant>) -> (r: Result<Vec<(String, Arm)>, ExpandError>)
    ensures
        match r {
            Ok(arms) => enum_arms(variants@) == Ok::<Seq<(Seq<char>, ArmModel)>, ExpandErrorModel>(
                arm_models(arms@),
            ),
            Err(e) => enum_arms(variants@) == Err::<Seq<(Seq<char>, ArmModel)>, ExpandErrorModel>(
                e@,
            ),
        },
{
    let mut arms: Vec<(String, Arm)> = Vec::new();
    let mut i: usize = 0;
    assert(arm_models(arms@) =~= Seq::empty());
    while i < variants.len()
        invariant
            i <= variants.len(),
            enum_arms(variants@.take(i as int)) == Ok::<
                Seq<(Seq<char>, ArmModel)>,
                ExpandErrorModel,
            >(arm_models(arms@)),
        decreases variants.len() - i,
    {
        let ghost before = arm_models(arms@);
        proof {
            assert(variants@.take(i + 1).drop_last() =~= variants@.take(i as int));
            if enum_arms(variants@.take(i + 1)) is Err {
                lemma_enum_arms_prefix(variants@, i + 1);
            }
        }
        match expand_variant(&variants[i]) {
            Ok(arm) => {
                let ghost entry = (variants@[i as int].name.text@, arm@);
                arms.push((variants[i].name.text.clone(), arm));
                assert(arm_models(arms@) =~= before.push(entry));
            },
            Err(e) => {
                return Err(e);
            },
        }
        i = i + 1;
    }
    assert(variants@.take(i as int) =~= variants@);
    Ok(arms)
}

/// Plan the impl of `RequireFeature` for a type.
///
/// Structs are destructured exhaustively and enums are matched exhaustively, so the impl
/// always covers the type's current shape. A requirement on the type is only supported on
/// structs with a `span` field, and unions have no impl.
pub fn expand(input: &TypeInput) -> (r: Result<Plan, ExpandError>)
    ensures
        match r {
            Ok(plan) => expanded(*input) == Ok::<PlanModel, ExpandErrorModel>(plan@),
            Err(e) => expanded(*input) == Err::<PlanModel, ExpandErrorModel>(e@),
        },
{
    let required = match requires_attr(&input.attrs) {
        Ok(required) => required,
        Err(e) => {
            return Err(e);
        },
    };
    match &input.data {
        Data::Struct(fields) => match expand_struct(fields, &required) {
            Ok(arm) => Ok(Plan::Struct(arm)),
            Err(e) => Err(e),
        },
        Data::Enum(variants) => {
            if let Some(feature) = &required {
                return Err(
                    error_at(
                        "`requires(...)` is only supported on structs with a `span` field",
                        feature.at,
                    ),
                );
            }
            match expand_enum(variants) {
                Ok(arms) => Ok(Plan::Enum(arms)),
                Err(e) => Err(e),
            }
        },
        Data::Union => Err(
            error_at("RequireFeature cannot be derived for unions", input.name.at),
        ),
    }
}

// ---------------------------------------------------------------------------------------
// Laws
// ---------------------------------------------------------------------------------------

/// The names of fields.
pub open spec fn field_names(fields: Seq<NamedField>) -> Seq<Seq<char>> {
    fields.map_values(|f: NamedField| f.name.text@)
}

/// The names of the fields that are not skipped, in order.
pub open spec fn unskipped_names(fields: Seq<NamedField>) -> Seq<Seq<char>>
    decreases fields.len(),
{
    if fields.len() == 0 {
        Seq::empty()
    } else {
        let rest = unskipped_names(fields.drop_last());
        if skipped(fields.last().attrs@) == Ok::<bool, ExpandErrorModel>(false) {
            rest.push(fields.last().name.text@)
        } else {
            rest
        }
    }
}

/// Named fields are taken apart exhaustively: every field is listed once and in order, and
/// exactly those that are not skipped are recursed into, in order.
pub proof fn law_named_fields_are_exhaustive(fields: Seq<NamedField>, keep_span: bool)
    requires
        named(fields, false, keep_span) is Ok,
    ensures
        (named(fields, false, keep_span)->Ok_0).bindings.map_values(
            |b: (Seq<char>, bool)| b.0,
        ) == field_names(fields),
        (named(fields, false, keep_span)->Ok_0).calls == unskipped_names(fields),
    decreases fields.len(),
{
    let m = named(fields, false, keep_span)->Ok_0;
    if fields.len() > 0 {
        law_named_fields_are_exhaustive(fields.drop_last(), keep_span);
        let before = named(fields.drop_last(), false, keep_span)->Ok_0;
        let names = |b: (Seq<char>, bool)| b.0;
        assert(m.bindings.drop_last() =~= before.bindings);
        assert(m.bindings.map_values(names) =~= before.bindings.map_values(names).push(
            fields.last().name.text@,
        ));
        assert(field_names(fields) =~= field_names(fields.drop_last()).push(
            fields.last().name.text@,
        ));
    } else {
        assert(m.bindings.map_values(|b: (Seq<char>, bool)| b.0) =~= field_names(fields));
    }
}

/// Unnamed fields are taken apart exhaustively: every field has its place in the pattern, and
/// the field at an index is bound to the name of that index or ignored.
pub proof fn law_unnamed_fields_are_exhaustive(fields: Seq<UnnamedField>, skip_all: bool)
    requires
        positional(fields, skip_all) is Ok,
    ensures
        (positional(fields, skip_all)->Ok_0).bindings.len() == fields.len(),
        forall|i: int|
            0 <= i < fields.len() ==> (#[trigger] (positional(
                fields,
                skip_all,
            )->Ok_0).bindings[i]) == if skip_all || skipped(fields[i].attrs@) == Ok::<
                bool,
                ExpandErrorModel,
            >(true) {
                None
            } else {
                Some(binding_name(i as nat))
            },
    decreases fields.len(),
{
    if fields.len() > 0 {
        let rest = fields.drop_last();
        law_unnamed_fields_are_exhaustive(rest, skip_all);
        let m = positional(fields, skip_all)->Ok_0;
        let before = positional(rest, skip_all)->Ok_0;
        assert forall|i: int| 0 <= i < fields.len() implies (#[trigger] m.bindings[i]) == if skip_all
            || skipped(fields[i].attrs@) == Ok::<bool, ExpandErrorModel>(true) {
            None
        } else {
            Some(binding_name(i as nat))
        } by {
            if i < rest.len() {
                assert(m.bindings[i] == before.bindings[i]);
                assert(rest[i] == fields[i]);
            }
        }
    }
}

/// A variant that is skipped is not recursed into.
pub proof fn law_skipped_variant_has_no_calls(v: Variant)
    requires
        skipped(v.attrs@) == Ok::<bool, ExpandErrorModel>(true),
    ensures
        variant_arm(v) matches Ok(arm) && arm.calls.len() == 0,
{
    match v.fields {
        Fields::Named(fields) => lemma_skip_all_named(fields@),
        Fields::Unnamed(fields) => lemma_skip_all_positional(fields@),
        Fields::Unit => {},
    }
}

proof fn lemma_skip_all_named(fields: Seq<NamedField>)
    ensures
        named(fields, true, false) matches Ok(m) && m.calls.len() == 0,
    decreases fields.len(),
{
    if fields.len() > 0 {
        lemma_skip_all_named(fields.drop_last());
    }
}

proof fn lemma_skip_all_positional(fields: Seq<UnnamedField>)
    ensures
        positional(fields, true) matches Ok(m) && m.calls.len() == 0,
    decreases fields.len(),
{
    if fields.len() > 0 {
        lemma_skip_all_positional(fields.drop_last());
    }
}

/// A struct pushes a requirement exactly where its attributes name one, and then its `span`
/// is bound.
pub proof fn law_push_iff_required(fields: Fields, feature: Option<(Seq<char>, usize)>)
    requires
        struct_arm(fields, feature) is Ok,
    ensures
        (struct_arm(fields, feature)->Ok_0).push == match feature {
            Some(f) => Some(f.0),
            None => None,
        },
        feature is Some ==> ((struct_arm(fields, feature)->Ok_0).pattern matches PatternModel::Named(
            bindings,
        ) && bindings.contains(("span"@, true))),
{
    if feature is Some {
        if let Fields::Named(fields) = fields {
            lemma_span_is_bound(fields@);
        }
    }
}

proof fn lemma_span_is_bound(fields: Seq<NamedField>)
    requires
        named(fields, false, true) is Ok,
        has_span(fields),
    ensures
        (named(fields, false, true)->Ok_0).bindings.contains(("span"@, true)),
    decreases fields.len(),
{
    let m = named(fields, false, true)->Ok_0;
    let rest = fields.drop_last();
    let before = named(rest, false, true)->Ok_0;
    if fields.last().name.text@ == "span"@ {
        assert(m.bindings[m.bindings.len() - 1] == ("span"@, true));
    } else {
        let i = choose|i: int|
            0 <= i < fields.len() && (#[trigger] fields[i]).name.text@ == "span"@;
        assert(rest[i] == fields[i]);
        lemma_span_is_bound(rest);
        let k = choose|k: int|
            0 <= k < before.bindings.len() && before.bindings[k] == ("span"@, true);
        assert(m.bindings[k] == ("span"@, true));
    }
}

// ---------------------------------------------------------------------------------------
// What attributes say
// ---------------------------------------------------------------------------------------

/// Whether an argument is `skip` and nothing else.
pub open spec fn is_plain_skip(a: Argument) -> bool {
    a.path.text@ == "skip"@ && a.rest is None
}

/// Whether an attribute holds nothing but `skip`s, as often as it likes.
pub open spec fn is_skip_list(a: Attribute) -> bool {
    a.broken is None && forall|i: int|
        0 <= i < a.arguments@.len() ==> is_plain_skip(#[trigger] a.arguments@[i])
}

proof fn lemma_skip_arguments(before: bool, args: Seq<Argument>)
    ensures
        skip_arguments(before, args) is Ok <==> forall|i: int|
            0 <= i < args.len() ==> is_plain_skip(#[trigger] args[i]),
        skip_arguments(before, args) matches Ok(skip) ==> skip == (before || args.len() > 0),
    decreases args.len(),
{
    if args.len() > 0 {
        let rest = args.drop_last();
        lemma_skip_arguments(before, rest);
        if forall|i: int| 0 <= i < args.len() ==> is_plain_skip(#[trigger] args[i]) {
            assert(is_plain_skip(args[args.len() - 1]));
            assert forall|i: int| 0 <= i < rest.len() implies is_plain_skip(#[trigger] rest[i]) by {
                assert(args[i] == rest[i]);
            }
        }
        if skip_arguments(before, args) is Ok {
            assert forall|i: int| 0 <= i < args.len() implies is_plain_skip(#[trigger] args[i]) by {
                if i < rest.len() {
                    assert(args[i] == rest[i]);
                }
            }
        }
    }
}

/// The attributes of a field or variant can be read exactly where those named `require_feature`
/// hold nothing but `skip`s; and it is skipped exactly where one of them holds one. Other
/// attributes play no part.
pub proof fn law_skipped_iff_marked(attrs: Seq<Attribute>)
    ensures
        skipped(attrs) is Ok <==> forall|i: int|
            0 <= i < attrs.len() && (#[trigger] attrs[i]).path@ == "require_feature"@
                ==> is_skip_list(attrs[i]),
        skipped(attrs) matches Ok(skip) ==> (skip <==> exists|i: int|
            0 <= i < attrs.len() && (#[trigger] attrs[i]).path@ == "require_feature"@
                && attrs[i].arguments@.len() > 0),
    decreases attrs.len(),
{
    if attrs.len() > 0 {
        let rest = attrs.drop_last();
        let last = attrs.last();
        law_skipped_iff_marked(rest);
        assert forall|i: int| 0 <= i < rest.len() implies #[trigger] rest[i] == attrs[i] by {}
        assert(attrs[attrs.len() - 1] == last);
        if let Ok(skip) = skipped(rest) {
            lemma_skip_arguments(skip, last.arguments@);
            assert forall|i: int| 0 <= i < rest.len() && (#[trigger] attrs[i]).path@
                == "require_feature"@ implies is_skip_list(attrs[i]) by {
                assert(rest[i] == attrs[i]);
            }
            if exists|i: int|
                0 <= i < rest.len() && (#[trigger] attrs[i]).path@ == "require_feature"@
                    && attrs[i].arguments@.len() > 0 {
                let i = choose|i: int|
                    0 <= i < rest.len() && (#[trigger] attrs[i]).path@ == "require_feature"@
                        && attrs[i].arguments@.len() > 0;
                assert(rest[i] == attrs[i]);
            }
            if skip {
                let i = choose|i: int|
                    0 <= i < rest.len() && (#[trigger] rest[i]).path@ == "require_feature"@
                        && rest[i].arguments@.len() > 0;
                assert(attrs[i].path@ == "require_feature"@ && attrs[i].arguments@.len() > 0);
            }
        } else {
            let i = choose|i: int|
                0 <= i < rest.len() && (#[trigger] rest[i]).path@ == "require_feature"@
                    && !is_skip_list(rest[i]);
            assert(attrs[i].path@ == "require_feature"@ && !is_skip_list(attrs[i]));
        }
    }
}

/// What is wrong with an argument where `skip` is expected: what follows the word, or else that
/// it is another word, at its place.
pub open spec fn skip_fault(a: Argument) -> ExpandErrorModel {
    if a.path.text@ == "skip"@ {
        (a.rest->0)@
    } else {
        ExpandErrorModel { message: "expected `skip`"@, at: a.path.at }
    }
}

/// The first thing that is wrong with the attributes of a field is what is reported: with `good`
/// attributes before and anything behind, the fault of the first argument that is no `skip`, or
/// where there is none, that the arguments are broken off.
pub proof fn law_first_skip_fault_is_reported(
    good: Seq<Attribute>,
    attr: Attribute,
    k: int,
    behind: Seq<Attribute>,
)
    requires
        skipped(good) is Ok,
        attr.path@ == "require_feature"@,
        0 <= k <= attr.arguments@.len(),
        forall|i: int| 0 <= i < k ==> is_plain_skip(#[trigger] attr.arguments@[i]),
        k < attr.arguments@.len() ==> !is_plain_skip(attr.arguments@[k]),
        k == attr.arguments@.len() ==> attr.broken is Some,
    ensures
        skipped(good + seq![attr] + behind) == Err::<bool, ExpandErrorModel>(
            if k < attr.arguments@.len() {
                skip_fault(attr.arguments@[k])
            } else {
                (attr.broken->0)@
            },
        ),
{
    let args = attr.arguments@;
    let upto = good + seq![attr];
    let all = upto + behind;
    let skip = skipped(good)->Ok_0;
    assert(upto.drop_last() =~= good);
    assert(upto.last() == attr);
    if k < args.len() {
        let fine = args.take(k);
        lemma_skip_arguments(skip, fine);
        assert(args.take(k + 1).drop_last() =~= fine);
        assert(args.take(k + 1).last() == args[k]);
        lemma_skip_arguments_prefix(skip, args, k + 1);
    } else {
        lemma_skip_arguments(skip, args);
    }
    assert(all.take(upto.len() as int) =~= upto);
    lemma_skipped_prefix(all, upto.len() as int);
}

/// Whether an argument is `requires` with the name of a feature.
pub open spec fn names_feature(a: Argument) -> bool {
    a.path.text@ == "requires"@ && a.feature is Ok
}

/// Whether an attribute holds nothing but requirements.
pub open spec fn is_requires_list(a: Attribute) -> bool {
    a.broken is None && forall|i: int|
        0 <= i < a.arguments@.len() ==> names_feature(#[trigger] a.arguments@[i])
}

proof fn lemma_requires_arguments(before: Option<(Seq<char>, usize)>, args: Seq<Argument>)
    ensures
        requires_arguments(before, args) is Ok <==> forall|i: int|
            0 <= i < args.len() ==> names_feature(#[trigger] args[i]),
        requires_arguments(before, args) matches Ok(feature) ==> feature == if args.len() == 0 {
            before
        } else {
            Some(((args.last().feature->Ok_0).text@, (args.last().feature->Ok_0).at))
        },
    decreases args.len(),
{
    if args.len() > 0 {
        let rest = args.drop_last();
        lemma_requires_arguments(before, rest);
        if forall|i: int| 0 <= i < args.len() ==> names_feature(#[trigger] args[i]) {
            assert(names_feature(args[args.len() - 1]));
            assert forall|i: int| 0 <= i < rest.len() implies names_feature(#[trigger] rest[i]) by {
                assert(args[i] == rest[i]);
            }
        }
        if requires_arguments(before, args) is Ok {
            assert forall|i: int| 0 <= i < args.len() implies names_feature(#[trigger] args[i]) by {
                if i < rest.len() {
                    assert(args[i] == rest[i]);
                }
            }
        }
    }
}

/// The attributes of a type can be read exactly where those named `require_feature` hold nothing
/// but requirements; and it requires a feature exactly where one of them names one.
pub proof fn law_required_iff_named(attrs: Seq<Attribute>)
    ensures
        required(attrs) is Ok <==> forall|i: int|
            0 <= i < attrs.len() && (#[trigger] attrs[i]).path@ == "require_feature"@
                ==> is_requires_list(attrs[i]),
        required(attrs) matches Ok(feature) ==> (feature is Some <==> exists|i: int|
            0 <= i < attrs.len() && (#[trigger] attrs[i]).path@ == "require_feature"@
                && attrs[i].arguments@.len() > 0),
    decreases attrs.len(),
{
    if attrs.len() > 0 {
        let rest = attrs.drop_last();
        let last = attrs.last();
        law_required_iff_named(rest);
        assert forall|i: int| 0 <= i < rest.len() implies #[trigger] rest[i] == attrs[i] by {}
        assert(attrs[attrs.len() - 1] == last);
        if let Ok(feature) = required(rest) {
            lemma_requires_arguments(feature, last.arguments@);
            assert forall|i: int| 0 <= i < rest.len() && (#[trigger] attrs[i]).path@
                == "require_feature"@ implies is_requires_list(attrs[i]) by {
                assert(rest[i] == attrs[i]);
            }
            if exists|i: int|
                0 <= i < rest.len() && (#[trigger] attrs[i]).path@ == "require_feature"@
                    && attrs[i].arguments@.len() > 0 {
                let i = choose|i: int|
                    0 <= i < rest.len() && (#[trigger] attrs[i]).path@ == "require_feature"@
                        && attrs[i].arguments@.len() > 0;
                assert(rest[i] == attrs[i]);
            }
            if feature is Some {
                let i = choose|i: int|
                    0 <= i < rest.len() && (#[trigger] rest[i]).path@ == "require_feature"@
                        && rest[i].arguments@.len() > 0;
                assert(attrs[i].path@ == "require_feature"@ && attrs[i].arguments@.len() > 0);
            }
        } else {
            let i = choose|i: int|
                0 <= i < rest.len() && (#[trigger] rest[i]).path@ == "require_feature"@
                    && !is_requires_list(rest[i]);
            assert(attrs[i].path@ == "require_feature"@ && !is_requires_list(attrs[i]));
        }
    }
}

/// The feature that a type requires is the last that its attributes name.
pub proof fn law_last_feature_is_required(
    before: Seq<Attribute>,
    attr: Attribute,
    behind: Seq<Attribute>,
)
    requires
        required(before + seq![attr] + behind) is Ok,
        attr.path@ == "require_feature"@,
        attr.arguments@.len() > 0,
        forall|i: int|
            0 <= i < behind.len() && (#[trigger] behind[i]).path@ == "require_feature"@
                ==> behind[i].arguments@.len() == 0,
    ensures
        attr.arguments@.last().feature is Ok,
        required(before + seq![attr] + behind) == Ok::<
            Option<(Seq<char>, usize)>,
            ExpandErrorModel,
        >(
            Some(
                (
                    (attr.arguments@.last().feature->Ok_0).text@,
                    (attr.arguments@.last().feature->Ok_0).at,
                ),
            ),
        ),
    decreases behind.len(),
{
    let upto = before + seq![attr];
    let all = upto + behind;
    if behind.len() == 0 {
        assert(all =~= upto);
        assert(upto.drop_last() =~= before);
        assert(upto.last() == attr);
        lemma_requires_arguments(required(before)->Ok_0, attr.arguments@);
        assert(names_feature(attr.arguments@[attr.arguments@.len() - 1]));
    } else {
        let rest = behind.drop_last();
        let last = behind.last();
        assert(all.drop_last() =~= upto + rest);
        assert(all.last() == last);
        assert(behind[behind.len() - 1] == last);
        assert forall|i: int|
            0 <= i < rest.len() && (#[trigger] rest[i]).path@ == "require_feature"@ implies rest[i].arguments@.len()
            == 0 by {
            assert(rest[i] == behind[i]);
        }
        law_last_feature_is_required(before, attr, rest);
        lemma_requires_arguments(required(upto + rest)->Ok_0, last.arguments@);
    }
}

// ---------------------------------------------------------------------------------------
// What is bound and what is recursed into
// ---------------------------------------------------------------------------------------

/// Whether a field is marked to be skipped.
pub open spec fn is_marked(attrs: Seq<Attribute>) -> bool {
    skipped(attrs) == Ok::<bool, ExpandErrorModel>(true)
}

/// The bindings among the places of a pattern, in order.
pub open spec fn bound(places: Seq<Option<Seq<char>>>) -> Seq<Seq<char>> {
    places.filter(|p: Option<Seq<char>>| p is Some).map_values(|p: Option<Seq<char>>| p->0)
}

proof fn lemma_bound_push(places: Seq<Option<Seq<char>>>, p: Option<Seq<char>>)
    ensures
        bound(places.push(p)) == match p {
            Some(name) => bound(places).push(name),
            None => bound(places),
        },
{
    reveal(Seq::filter);
    let all = places.push(p);
    assert(all.drop_last() =~= places);
    assert(all.last() == p);
    if let Some(name) = p {
        assert(bound(all) =~= bound(places).push(name));
    }
}

proof fn lemma_positional(fields: Seq<UnnamedField>, skip_all: bool)
    ensures
        positional(fields, skip_all) is Ok <==> skip_all || forall|i: int|
            0 <= i < fields.len() ==> skipped((#[trigger] fields[i]).attrs@) is Ok,
        positional(fields, skip_all) matches Ok(m) ==> m.calls == bound(m.bindings),
    decreases fields.len(),
{
    reveal(Seq::filter);
    if fields.len() > 0 {
        let rest = fields.drop_last();
        lemma_positional(rest, skip_all);
        assert(fields[fields.len() - 1] == fields.last());
        assert forall|i: int| 0 <= i < rest.len() implies #[trigger] rest[i] == fields[i] by {}
        if let Ok(m) = positional(rest, skip_all) {
            assert forall|i: int| 0 <= i < rest.len() && !skip_all implies skipped(
                (#[trigger] fields[i]).attrs@,
            ) is Ok by {
                assert(rest[i] == fields[i]);
            }
            lemma_bound_push(m.bindings, None);
            lemma_bound_push(m.bindings, Some(binding_name((fields.len() - 1) as nat)));
        }
    } else {
        assert(bound(Seq::empty()) =~= Seq::<Seq<char>>::empty());
    }
}

/// Whether an arm takes unnamed fields apart: a place for each field, bound to the name of its
/// index unless it is marked to be skipped, and the bindings recursed into, in order.
pub open spec fn covers_unnamed(fields: Seq<UnnamedField>, arm: ArmModel) -> bool {
    &&& arm.push is None
    &&& arm.pattern matches PatternModel::Positional(places) && {
        &&& places.len() == fields.len()
        &&& forall|i: int|
            0 <= i < fields.len() ==> #[trigger] places[i] == if is_marked(fields[i].attrs@) {
                None
            } else {
                Some("__field_"@ + decimal(i as nat))
            }
        &&& arm.calls == bound(places)
    }
}

/// A tuple struct without a requirement is handled where the attributes of all its fields can be
/// read. Its fields are taken apart in order: a field that is not marked to be skipped is bound
/// to a name of its own and recursed into, and one that is marked is ignored.
pub proof fn law_tuple_struct_is_covered(fields: Vec<UnnamedField>)
    ensures
        struct_arm(Fields::Unnamed(fields), None) is Ok <==> forall|i: int|
            0 <= i < fields@.len() ==> skipped((#[trigger] fields@[i]).attrs@) is Ok,
        struct_arm(Fields::Unnamed(fields), None) matches Ok(arm) ==> covers_unnamed(fields@, arm),
{
    lemma_positional(fields@, false);
    if positional(fields@, false) is Ok {
        law_unnamed_fields_are_exhaustive(fields@, false);
        lemma_binding_is_marked(fields@);
    }
}

proof fn lemma_binding_is_marked(fields: Seq<UnnamedField>)
    requires
        positional(fields, false) is Ok,
    ensures
        forall|i: int|
            0 <= i < fields.len() ==> (#[trigger] (positional(fields, false)->Ok_0).bindings[i])
                == if is_marked(fields[i].attrs@) {
                None
            } else {
                Some("__field_"@ + decimal(i as nat))
            },
{
    law_unnamed_fields_are_exhaustive(fields, false);
}

/// Unmarked fields of a tuple struct or tuple variant are recursed into under names that differ.
pub proof fn law_bindings_differ(i: nat, j: nat)
    ensures
        binding_name(i) == binding_name(j) ==> i == j,
{
    let prefix = "__field_"@;
    if binding_name(i) == binding_name(j) {
        assert(binding_name(i).skip(prefix.len() as int) =~= decimal(i));
        assert(binding_name(j).skip(prefix.len() as int) =~= decimal(j));
        law_number_is_known_from_its_digits(i, j);
    }
}

/// The named fields that are not marked to be skipped, in order.
pub open spec fn unmarked(fields: Seq<NamedField>) -> Seq<NamedField> {
    fields.filter(|f: NamedField| !is_marked(f.attrs@))
}

proof fn lemma_named(fields: Seq<NamedField>, skip_all: bool, keep_span: bool)
    ensures
        named(fields, skip_all, keep_span) is Ok <==> skip_all || forall|i: int|
            0 <= i < fields.len() ==> skipped((#[trigger] fields[i]).attrs@) is Ok,
        named(fields, skip_all, keep_span) matches Ok(m) ==> {
            &&& m.bindings.len() == fields.len()
            &&& forall|i: int|
                0 <= i < fields.len() ==> #[trigger] m.bindings[i] == (
                    fields[i].name.text@,
                    !skip_all && (!is_marked(fields[i].attrs@) || (keep_span
                        && fields[i].name.text@ == "span"@)),
                )
            &&& m.calls == if skip_all {
                Seq::empty()
            } else {
                field_names(unmarked(fields))
            }
        },
    decreases fields.len(),
{
    reveal(Seq::filter);
    if fields.len() > 0 {
        let rest = fields.drop_last();
        let last = fields.last();
        lemma_named(rest, skip_all, keep_span);
        assert(fields[fields.len() - 1] == last);
        assert forall|i: int| 0 <= i < rest.len() implies #[trigger] rest[i] == fields[i] by {}
        if let Ok(before) = named(rest, skip_all, keep_span) {
            assert forall|i: int| 0 <= i < rest.len() && !skip_all implies skipped(
                (#[trigger] fields[i]).attrs@,
            ) is Ok by {
                assert(rest[i] == fields[i]);
            }
            if let Ok(m) = named(fields, skip_all, keep_span) {
                assert forall|i: int| 0 <= i < fields.len() implies #[trigger] m.bindings[i] == (
                    fields[i].name.text@,
                    !skip_all && (!is_marked(fields[i].attrs@) || (keep_span
                        && fields[i].name.text@ == "span"@)),
                ) by {
                    if i < rest.len() {
                        assert(m.bindings[i] == before.bindings[i]);
                        assert(rest[i] == fields[i]);
                    }
                }
                if !skip_all {
                    if is_marked(last.attrs@) {
                        assert(unmarked(fields) =~= unmarked(rest));
                    } else {
                        assert(unmarked(fields) =~= unmarked(rest).push(last));
                        assert(field_names(unmarked(fields)) =~= field_names(
                            unmarked(rest),
                        ).push(last.name.text@));
                    }
                }
            }
        }
    } else {
        assert(field_names(unmarked(fields)) =~= Seq::<Seq<char>>::empty());
    }
}

/// Whether an arm takes named fields apart: each field by its name, in order, bound unless it is
/// marked to be skipped (or is the `span` that a requirement needs), and those that are not
/// marked recursed into, in order.
pub open spec fn covers_named(
    fields: Seq<NamedField>,
    keep_span: bool,
    arm: ArmModel,
) -> bool {
    arm.pattern matches PatternModel::Named(places) && {
        &&& places.len() == fields.len()
        &&& forall|i: int|
            0 <= i < fields.len() ==> (#[trigger] places[i]).0 == fields[i].name.text@
                && places[i].1 == (!is_marked(fields[i].attrs@) || (keep_span
                && fields[i].name.text@ == "span"@))
        &&& arm.calls == field_names(unmarked(fields))
    }
}

/// A struct with named fields is handled where the attributes of all its fields can be read and,
/// if it requires a feature, one of them is named `span`. It pushes that feature and no other.
pub proof fn law_named_struct_is_covered(
    fields: Vec<NamedField>,
    feature: Option<(Seq<char>, usize)>,
)
    ensures
        struct_arm(Fields::Named(fields), feature) is Ok <==> (forall|i: int|
            0 <= i < fields@.len() ==> skipped((#[trigger] fields@[i]).attrs@) is Ok) && (
        feature is Some ==> exists|i: int|
            0 <= i < fields@.len() && (#[trigger] fields@[i]).name.text@ == "span"@),
        struct_arm(Fields::Named(fields), feature) matches Ok(arm) ==> {
            &&& covers_named(fields@, feature is Some, arm)
            &&& feature is None ==> arm.push is None
            &&& feature matches Some(f) ==> arm.push == Some(f.0)
        },
        feature matches Some(f) ==> (forall|i: int|
            0 <= i < fields@.len() ==> skipped((#[trigger] fields@[i]).attrs@) is Ok
                && fields@[i].name.text@ != "span"@) ==> struct_arm(Fields::Named(fields), feature)
            == struct_arm(Fields::Unit, feature),
{
    lemma_named(fields@, false, feature is Some);
}

/// A unit struct is handled exactly where it requires no feature, and there is nothing to
/// recurse into; a tuple struct that requires one is refused at the place of the requirement.
pub proof fn law_struct_without_span_requires_nothing(
    fields: Vec<UnnamedField>,
    feature: (Seq<char>, usize),
)
    ensures
        struct_arm(Fields::Unit, None) matches Ok(arm) && arm.calls.len() == 0 && arm.push is None
            && arm.pattern is Unit,
        struct_arm(Fields::Unit, Some(feature)) matches Err(e) && e.at == feature.1 && e.message
            == "`requires(...)` needs a field named `span` to attach the requirement to"@,
        struct_arm(Fields::Unnamed(fields), Some(feature)) == struct_arm(
            Fields::Unit,
            Some(feature),
        ),
{
}

/// A variant that is not marked to be skipped is handled as a struct of its shape is, and one
/// that is marked has every field ignored, whatever their attributes say.
pub proof fn law_variant_is_covered(v: Variant)
    requires
        skipped(v.attrs@) is Ok,
    ensures
        !is_marked(v.attrs@) ==> variant_arm(v) == struct_arm(v.fields, None),
        is_marked(v.attrs@) ==> (variant_arm(v) matches Ok(arm) && arm.push is None
            && arm.calls.len() == 0 && match v.fields {
            Fields::Unit => arm.pattern is Unit,
            Fields::Unnamed(fields) => arm.pattern matches PatternModel::Positional(places)
                && places.len() == fields@.len() && forall|i: int|
                0 <= i < places.len() ==> #[trigger] places[i] is None,
            Fields::Named(fields) => arm.pattern matches PatternModel::Named(places)
                && places.len() == fields@.len() && forall|i: int|
                0 <= i < places.len() ==> (#[trigger] places[i]).0 == fields@[i].name.text@
                    && !places[i].1,
        }),
{
    match v.fields {
        Fields::Unit => {},
        Fields::Unnamed(fields) => {
            lemma_skip_all_positional(fields@);
            law_unnamed_fields_are_exhaustive(fields@, true);
        },
        Fields::Named(fields) => {
            lemma_skip_all_named(fields@);
            lemma_named(fields@, true, false);
        },
    }
}

/// An enum is matched exhaustively: an arm for each variant, in order, under its name, each as
/// the variant is handled; or the error of the first variant that cannot be.
pub proof fn law_enum_is_covered(variants: Seq<Variant>)
    ensures
        match enum_arms(variants) {
            Ok(arms) => arms.len() == variants.len() && forall|i: int|
                0 <= i < variants.len() ==> (#[trigger] arms[i]).0 == variants[i].name.text@
                    && variant_arm(variants[i]) == Ok::<ArmModel, ExpandErrorModel>(arms[i].1),
            Err(e) => exists|k: int|
                {
                    &&& 0 <= k < variants.len()
                    &&& #[trigger] variant_arm(variants[k]) == Err::<ArmModel, ExpandErrorModel>(e)
                    &&& forall|i: int|
                        0 <= i < k ==> variant_arm(#[trigger] variants[i]) is Ok
                },
        },
    decreases variants.len(),
{
    if variants.len() > 0 {
        let rest = variants.drop_last();
        law_enum_is_covered(rest);
        assert forall|i: int| 0 <= i < rest.len() implies #[trigger] rest[i] == variants[i] by {}
        match enum_arms(rest) {
            Ok(before) => {
                assert forall|i: int| 0 <= i < rest.len() implies variant_arm(
                    #[trigger] variants[i],
                ) is Ok by {
                    assert(rest[i] == variants[i]);
                    assert(before[i].0 == rest[i].name.text@);
                }
                match enum_arms(variants) {
                    Ok(arms) => {
                        assert forall|i: int| 0 <= i < variants.len() implies (
                        #[trigger] arms[i]).0 == variants[i].name.text@ && variant_arm(variants[i])
                            == Ok::<ArmModel, ExpandErrorModel>(arms[i].1) by {
                            if i < rest.len() {
                                assert(arms[i] == before[i]);
                            }
                        }
                    },
                    Err(e) => {
                        assert(variant_arm(variants[variants.len() - 1]) == Err::<
                            ArmModel,
                            ExpandErrorModel,
                        >(e));
                    },
                }
            },
            Err(e) => {
                let k = choose|k: int|
                    {
                        &&& 0 <= k < rest.len()
                        &&& #[trigger] variant_arm(rest[k]) == Err::<ArmModel, ExpandErrorModel>(e)
                        &&& forall|i: int| 0 <= i < k ==> variant_arm(#[trigger] rest[i]) is Ok
                    };
                assert(variant_arm(variants[k]) == Err::<ArmModel, ExpandErrorModel>(e));
                assert forall|i: int| 0 <= i < k implies variant_arm(
                    #[trigger] variants[i],
                ) is Ok by {
                    assert(rest[i] == variants[i]);
                }
            },
        }
    }
}

/// A type is planned by its shape: a struct by its fields and the feature that it requires, an
/// enum by its variants where it requires none; an enum that requires one and a union are
/// refused, each at its place.
pub proof fn law_plan_follows_the_shape(input: TypeInput)
    requires
        required(input.attrs@) is Ok,
    ensures
        match input.data {
            Data::Struct(fields) => match expanded(input) {
                Ok(plan) => plan matches PlanModel::Struct(arm) && struct_arm(
                    fields,
                    required(input.attrs@)->Ok_0,
                ) == Ok::<ArmModel, ExpandErrorModel>(arm),
                Err(e) => struct_arm(fields, required(input.attrs@)->Ok_0) == Err::<
                    ArmModel,
                    ExpandErrorModel,
                >(e),
            },
            Data::Enum(variants) => match required(input.attrs@)->Ok_0 {
                Some(f) => expanded(input) matches Err(e) && e.at == f.1 && e.message
                    == "`requires(...)` is only supported on structs with a `span` field"@,
                None => match expanded(input) {
                    Ok(plan) => plan matches PlanModel::Enum(arms) && arms.len() == variants@.len()
                        && forall|i: int|
                        0 <= i < arms.len() ==> (#[trigger] arms[i]).0 == variants@[i].name.text@
                            && variant_arm(variants@[i]) == Ok::<ArmModel, ExpandErrorModel>(
                            arms[i].1,
                        ),
                    Err(e) => exists|k: int|
                        0 <= k < variants@.len() && #[trigger] variant_arm(variants@[k]) == Err::<
                            ArmModel,
                            ExpandErrorModel,
                        >(e),
                },
            },
            Data::Union => expanded(input) matches Err(e) && e.at == input.name.at && e.message
                == "RequireFeature cannot be derived for unions"@,
        },
{
    if let Data::Enum(variants) = input.data {
        law_enum_is_covered(variants@);
    }
}

/// What is wrong with an argument where a requirement is expected: what stands in the place of
/// the name of a feature, or else that it is another word, at its place.
pub open spec fn requires_fault(a: Argument) -> ExpandErrorModel {
    if a.path.text@ == "requires"@ {
        (a.feature->Err_0)@
    } else {
        ExpandErrorModel { message: "expected `requires(FeatureName)`"@, at: a.path.at }
    }
}

/// The first thing that is wrong with the attributes of a type is what is reported, and no impl
/// is planned for the type: with `good` attributes before and anything behind, the fault of the
/// first argument that names no feature, or where there is none, that the arguments are broken
/// off.
pub proof fn law_first_requires_fault_is_reported(
    good: Seq<Attribute>,
    attr: Attribute,
    k: int,
    behind: Seq<Attribute>,
    input: TypeInput,
)
    requires
        required(good) is Ok,
        attr.path@ == "require_feature"@,
        0 <= k <= attr.arguments@.len(),
        forall|i: int| 0 <= i < k ==> names_feature(#[trigger] attr.arguments@[i]),
        k < attr.arguments@.len() ==> !names_feature(attr.arguments@[k]),
        k == attr.arguments@.len() ==> attr.broken is Some,
        input.attrs@ == good + seq![attr] + behind,
    ensures
        expanded(input) == Err::<PlanModel, ExpandErrorModel>(
            if k < attr.arguments@.len() {
                requires_fault(attr.arguments@[k])
            } else {
                (attr.broken->0)@
            },
        ),
{
    let args = attr.arguments@;
    let upto = good + seq![attr];
    let all = upto + behind;
    let feature = required(good)->Ok_0;
    assert(upto.drop_last() =~= good);
    assert(upto.last() == attr);
    if k < args.len() {
        let fine = args.take(k);
        lemma_requires_arguments(feature, fine);
        assert(args.take(k + 1).drop_last() =~= fine);
        assert(args.take(k + 1).last() == args[k]);
        lemma_requires_arguments_prefix(feature, args, k + 1);
    } else {
        lemma_requires_arguments(feature, args);
    }
    assert(all.take(upto.len() as int) =~= upto);
    lemma_required_prefix(all, upto.len() as int);
}

/// Where the attributes of a field of a struct cannot be read, the first such field tells why
/// the struct is not handled.
pub proof fn law_first_bad_field_is_reported(
    unnamed: Vec<UnnamedField>,
    fields: Vec<NamedField>,
    feature: Option<(Seq<char>, usize)>,
    k: int,
)
    ensures
        0 <= k < unnamed@.len() && skipped(unnamed@[k].attrs@) is Err && (forall|i: int|
            0 <= i < k ==> skipped((#[trigger] unnamed@[i]).attrs@) is Ok) ==> struct_arm(
            Fields::Unnamed(unnamed),
            None,
        ) == Err::<ArmModel, ExpandErrorModel>(skipped(unnamed@[k].attrs@)->Err_0),
        0 <= k < fields@.len() && skipped(fields@[k].attrs@) is Err && (forall|i: int|
            0 <= i < k ==> skipped((#[trigger] fields@[i]).attrs@) is Ok) ==> struct_arm(
            Fields::Named(fields),
            feature,
        ) == Err::<ArmModel, ExpandErrorModel>(skipped(fields@[k].attrs@)->Err_0),
{
    if 0 <= k < unnamed@.len() && skipped(unnamed@[k].attrs@) is Err && (forall|i: int|
        0 <= i < k ==> skipped((#[trigger] unnamed@[i]).attrs@) is Ok) {
        lemma_bad_positional(unnamed@, k, unnamed@.len() as int);
        assert(unnamed@.take(unnamed@.len() as int) =~= unnamed@);
    }
    if 0 <= k < fields@.len() && skipped(fields@[k].attrs@) is Err && (forall|i: int|
        0 <= i < k ==> skipped((#[trigger] fields@[i]).attrs@) is Ok) {
        lemma_bad_named(fields@, feature is Some, k, fields@.len() as int);
        assert(fields@.take(fields@.len() as int) =~= fields@);
    }
}

proof fn lemma_bad_positional(fields: Seq<UnnamedField>, k: int, n: int)
    requires
        0 <= k < n <= fields.len(),
        skipped(fields[k].attrs@) is Err,
        forall|i: int| 0 <= i < k ==> skipped((#[trigger] fields[i]).attrs@) is Ok,
    ensures
        positional(fields.take(n), false) == Err::<PositionalModel, ExpandErrorModel>(
            skipped(fields[k].attrs@)->Err_0,
        ),
    decreases n,
{
    let now = fields.take(n);
    assert(now.drop_last() =~= fields.take(n - 1));
    assert(now.last() == fields[n - 1]);
    if k < n - 1 {
        lemma_bad_positional(fields, k, n - 1);
    } else {
        lemma_positional(fields.take(k), false);
        assert forall|i: int| 0 <= i < k implies skipped(
            (#[trigger] fields.take(k)[i]).attrs@,
        ) is Ok by {
            assert(fields.take(k)[i] == fields[i]);
        }
    }
}

proof fn lemma_bad_named(fields: Seq<NamedField>, keep_span: bool, k: int, n: int)
    requires
        0 <= k < n <= fields.len(),
        skipped(fields[k].attrs@) is Err,
        forall|i: int| 0 <= i < k ==> skipped((#[trigger] fields[i]).attrs@) is Ok,
    ensures
        named(fields.take(n), false, keep_span) == Err::<NamedModel, ExpandErrorModel>(
            skipped(fields[k].attrs@)->Err_0,
        ),
    decreases n,
{
    let now = fields.take(n);
    assert(now.drop_last() =~= fields.take(n - 1));
    assert(now.last() == fields[n - 1]);
    if k < n - 1 {
        lemma_bad_named(fields, keep_span, k, n - 1);
    } else {
        lemma_named(fields.take(k), false, keep_span);
        assert forall|i: int| 0 <= i < k implies skipped(
            (#[trigger] fields.take(k)[i]).attrs@,
        ) is Ok by {
            assert(fields.take(k)[i] == fields[i]);
        }
    }
}

/// What `expand_struct` plans for a tuple struct without a requirement takes its fields apart
/// one for one: those that are not marked to be skipped, and no others, are bound and recursed
/// into.
pub proof fn law_expanded_tuple_struct_is_covered(
    fields: Vec<UnnamedField>,
    r: Result<Arm, ExpandError>,
)
    requires
        call_ensures(expand_struct, (&Fields::Unnamed(fields), &None::<Name>), r),
    ensures
        r is Ok <==> forall|i: int|
            0 <= i < fields@.len() ==> skipped((#[trigger] fields@[i]).attrs@) is Ok,
        r matches Ok(arm) ==> covers_unnamed(fields@, arm@),
{
    law_tuple_struct_is_covered(fields);
}

} // verus!
