//! Unstable features: experimental syntax that has to be enabled by name.
use std::str::FromStr;
use std::sync::Arc;

use vstd::prelude::*;

use crate::blank::lemma_trimmed_empty;
use crate::error::{Error, ErrorCollector, RichError, RichErrorModel, Span};
use crate::source::{SourceFile, SourceModel};
use crate::text::{
    all_white, append_copies, byte_len, concat3, copies, lemma_utf8_len_ascii, same_text, texts,
    trim, trimmed, utf8_len,
};

verus! {

/// An unstable feature.
#[derive(Debug, Clone, Copy, PartialEq, Eq, PartialOrd, Ord, Hash, Structural)]
pub enum UnstableFeature {
    /// Import and module syntax: `use` declarations, modules declared with the `mod` keyword,
    /// import aliases declared with the `as` keyword, and `crate::` paths.
    ///
    /// All of this syntax is gated behind a single feature because it forms one module
    /// system: modules are only reachable through imports, and aliases and `crate::` paths
    /// only occur inside `use` declarations.
    Imports,
}

/// The name by which a feature is enabled.
pub open spec fn feature_name(feature: UnstableFeature) -> Seq<char> {
    match feature {
        UnstableFeature::Imports => "imports"@,
    }
}

/// What a feature is about.
pub open spec fn feature_description(feature: UnstableFeature) -> Seq<char> {
    match feature {
        UnstableFeature::Imports =>
            "Module system syntax: 'use' imports, 'mod' modules, 'as' aliases, 'crate::' paths"@,
    }
}

/// The place of a feature in the order of their declaration.
pub open spec fn rank(feature: UnstableFeature) -> int {
    match feature {
        UnstableFeature::Imports => 0,
    }
}

/// Every feature, in the order of their declaration.
pub open spec fn all_features() -> Seq<UnstableFeature> {
    seq![UnstableFeature::Imports]
}

/// The length in bytes of the longest name among `features`.
pub open spec fn longest_name(features: Seq<UnstableFeature>) -> nat
    decreases features.len(),
{
    if features.len() == 0 {
        0
    } else {
        let rest = longest_name(features.drop_last());
        let last = utf8_len(feature_name(features.last()));
        if last > rest {
            last
        } else {
            rest
        }
    }
}

/// A text with spaces behind it, up to `width` characters.
pub open spec fn padded(text: Seq<char>, width: nat) -> Seq<char> {
    if text.len() < width {
        text + copies(' ', (width - text.len()) as nat)
    } else {
        text
    }
}

/// The line of the help message for a feature.
pub open spec fn help_line(feature: UnstableFeature, width: nat) -> Seq<char> {
    "  "@ + padded(feature_name(feature), width) + " "@ + feature_description(feature)
}

/// The help lines for `features`, each behind a line break.
pub open spec fn help_lines(features: Seq<UnstableFeature>, width: nat) -> Seq<char>
    decreases features.len(),
{
    if features.len() == 0 {
        Seq::empty()
    } else {
        help_lines(features.drop_last(), width) + "\n"@ + help_line(features.last(), width)
    }
}

/// The message for a name that no feature has.
pub open spec fn unknown_feature(name: Seq<char>) -> Seq<char> {
    "Unknown unstable feature: '"@ + name + "'"@
}

/// What a name stands for.
pub open spec fn named_feature(name: Seq<char>) -> Result<UnstableFeature, Seq<char>> {
    if name == "imports"@ {
        Ok(UnstableFeature::Imports)
    } else {
        Err(unknown_feature(name))
    }
}

impl UnstableFeature {
    /// The name by which the feature is enabled.
    pub fn name(&self) -> (r: &'static str)
        ensures
            r@ == feature_name(*self),
    {
        match self {
            UnstableFeature::Imports => "imports",
        }
    }

    /// The name of the feature, as a string of its own.
    pub fn to_string(&self) -> (r: String)
        ensures
            r@ == feature_name(*self),
    {
        self.name().to_string()
    }

    /// The feature with the given name.
    pub fn from_name(s: &str) -> (r: Result<UnstableFeature, String>)
        ensures
            match r {
                Ok(feature) => named_feature(s@) == Ok::<UnstableFeature, Seq<char>>(feature),
                Err(e) => named_feature(s@) == Err::<UnstableFeature, Seq<char>>(e@),
            },
    {
        if same_text(s, "imports") {
            Ok(UnstableFeature::Imports)
        } else {
            Err(concat3("Unknown unstable feature: '", s, "'"))
        }
    }

    /// What the feature is about.
    pub fn description(&self) -> (r: &'static str)
        ensures
            r@ == feature_description(*self),
    {
        match self {
            UnstableFeature::Imports =>
                "Module system syntax: 'use' imports, 'mod' modules, 'as' aliases, 'crate::' paths",
        }
    }

    /// Every feature, in the order of their declaration.
    pub fn all() -> (r: &'static [UnstableFeature])
        ensures
            r@ == all_features(),
    {
        let r: &'static [UnstableFeature] = &[UnstableFeature::Imports];
        assert(r@ =~= all_features());
        r
    }

    /// The help text for the flag that enables features: a headline, and a line for each
    /// feature with its name and description, the descriptions in one column.
    pub fn help_message() -> (r: String)
        ensures
            r@ == "Enable unstable features. Available features:"@ + help_lines(
                all_features(),
                longest_name(all_features()) + 2,
            ),
    {
        let all = UnstableFeature::all();
        let mut max_len: usize = 0;
        let mut i: usize = 0;
        while i < all.len()
            invariant
                i <= all.len(),
                all@ == all_features(),
                max_len == longest_name(all@.take(i as int)),
            decreases all.len() - i,
        {
            let n = byte_len(all[i].name());
            assert(all@.take(i + 1).drop_last() =~= all@.take(i as int));
            if n > max_len {
                max_len = n;
            }
            i = i + 1;
        }
        assert(all@.take(i as int) =~= all@);
        proof {
            lemma_names_are_short();
        }
        let width = max_len + 2;
        let mut r = "Enable unstable features. Available features:".to_string();
        let mut k: usize = 0;
        assert(r@ + help_lines(all@.take(0), width as nat) =~= r@);
        while k < all.len()
            invariant
                k <= all.len(),
                all@ == all_features(),
                r@ == "Enable unstable features. Available features:"@ + help_lines(
                    all@.take(k as int),
                    width as nat,
                ),
            decreases all.len() - k,
        {
            let ghost before = r@;
            let name = all[k].name();
            r.append("\n  ");
            r.append(name);
            let n = name.unicode_len();
            if n < width {
                proof {
                    reveal_strlit(" ");
                }
                append_copies(&mut r, " ", width - n);
            }
            r.append(" ");
            r.append(all[k].description());
            proof {
                let features = all@.take(k + 1);
                assert(features.drop_last() =~= all@.take(k as int));
                reveal_strlit("\n  ");
                reveal_strlit("\n");
                reveal_strlit("  ");
                assert("\n  "@ =~= "\n"@ + "  "@);
                assert(r@ =~= before + ("\n"@ + help_line(features.last(), width as nat)));
                assert(r@ =~= "Enable unstable features. Available features:"@ + help_lines(
                    features,
                    width as nat,
                ));
            }
            k = k + 1;
        }
        assert(all@.take(k as int) =~= all@);
        r
    }
}

/// The names of the features are short.
proof fn lemma_names_are_short()
    ensures
        longest_name(all_features()) == 7,
{
    reveal_with_fuel(longest_name, 2);
    reveal_strlit("imports");
    lemma_utf8_len_ascii("imports"@);
}

impl FromStr for UnstableFeature {
    type Err = String;

    fn from_str(s: &str) -> (r: Result<UnstableFeature, String>)
        ensures
            match r {
                Ok(feature) => named_feature(s@) == Ok::<UnstableFeature, Seq<char>>(feature),
                Err(e) => named_feature(s@) == Err::<UnstableFeature, Seq<char>>(e@),
            },
    {
        UnstableFeature::from_name(s)
    }
}

/// A use of an unstable feature, and where it stands.
#[derive(Debug, Clone, Copy, PartialEq, Eq, Structural)]
pub struct FeatureRequirement {
    pub feature: UnstableFeature,
    pub span: Span,
}

impl FeatureRequirement {
    /// A use of `feature` at `span`.
    pub fn new(feature: UnstableFeature, span: Span) -> (r: FeatureRequirement)
        ensures
            r == (FeatureRequirement { feature, span }),
    {
        FeatureRequirement { feature, span }
    }
}

/// Implemented by parsed syntax nodes that can require unstable compiler features.
///
/// Each node pushes every feature-gated construct it owns (and recursively its children's)
/// into `out`. The caller then checks those uses against the enabled feature set via
/// `UnstableFeatures::check_program`.
pub trait RequireFeature {
    /// The features that the node and its children use, in order. A node that does not say
    /// otherwise uses none.
    open spec fn requirements(&self) -> Seq<FeatureRequirement> {
        Seq::empty()
    }

    /// Append the features that the node and its children use.
    fn feature_requirements(&self, out: &mut Vec<FeatureRequirement>)
        ensures
            final(out)@ == old(out)@ + self.requirements(),
    ;
}

impl<T: RequireFeature + ?Sized> RequireFeature for Arc<T> {
    open spec fn requirements(&self) -> Seq<FeatureRequirement> {
        (**self).requirements()
    }

    fn feature_requirements(&self, out: &mut Vec<FeatureRequirement>) {
        (**self).feature_requirements(out);
    }
}

/// The features that the nodes use, in order.
pub open spec fn requirements_of<T: RequireFeature>(nodes: Seq<T>) -> Seq<FeatureRequirement>
    decreases nodes.len(),
{
    if nodes.len() == 0 {
        Seq::empty()
    } else {
        requirements_of(nodes.drop_last()) + nodes.last().requirements()
    }
}

impl<T: RequireFeature> RequireFeature for [T] {
    open spec fn requirements(&self) -> Seq<FeatureRequirement> {
        requirements_of(self@)
    }

    fn feature_requirements(&self, out: &mut Vec<FeatureRequirement>) {
        let ghost start = out@;
        let mut i: usize = 0;
        assert(start + requirements_of(self@.take(0)) =~= start);
        while i < self.len()
            invariant
                i <= self.len(),
                out@ == start + requirements_of(self@.take(i as int)),
            decreases self.len() - i,
        {
            self[i].feature_requirements(out);
            proof {
                let nodes = self@.take(i + 1);
                assert(nodes.drop_last() =~= self@.take(i as int));
                assert(out@ =~= start + requirements_of(nodes));
            }
            i = i + 1;
        }
        assert(self@.take(i as int) =~= self@);
    }
}

impl<T: RequireFeature> RequireFeature for Option<T> {
    open spec fn requirements(&self) -> Seq<FeatureRequirement> {
        match self {
            Some(inner) => inner.requirements(),
            None => Seq::empty(),
        }
    }

    fn feature_requirements(&self, out: &mut Vec<FeatureRequirement>) {
        match self {
            Some(inner) => inner.feature_requirements(out),
            None => {
                assert(out@ + Seq::<FeatureRequirement>::empty() =~= out@);
            },
        }
    }
}

/// One of two kinds of node.
#[derive(Debug, PartialEq, Eq)]
pub enum Either<L, R> {
    Left(L),
    Right(R),
}

impl<L: RequireFeature, R: RequireFeature> RequireFeature for Either<L, R> {
    open spec fn requirements(&self) -> Seq<FeatureRequirement> {
        match self {
            Either::Left(inner) => inner.requirements(),
            Either::Right(inner) => inner.requirements(),
        }
    }

    fn feature_requirements(&self, out: &mut Vec<FeatureRequirement>) {
        match self {
            Either::Left(inner) => inner.feature_requirements(out),
            Either::Right(inner) => inner.feature_requirements(out),
        }
    }
}

/// The features that are enabled.
#[derive(Debug, PartialEq, Eq)]
pub struct UnstableFeatures {
    enabled_features: Vec<UnstableFeature>,
}

impl View for UnstableFeatures {
    type V = Seq<UnstableFeature>;

    closed spec fn view(&self) -> Seq<UnstableFeature> {
        self.enabled_features@
    }
}

/// The features among `features`, each once and in the order of their declaration.
pub open spec fn canonical(features: Seq<UnstableFeature>) -> Seq<UnstableFeature> {
    all_features().filter(|f: UnstableFeature| features.contains(f))
}

/// The errors for the uses of features that are not enabled, in order.
pub open spec fn disabled_uses(
    enabled: Seq<UnstableFeature>,
    uses: Seq<FeatureRequirement>,
    source: SourceModel,
) -> Seq<RichErrorModel>
    decreases uses.len(),
{
    if uses.len() == 0 {
        Seq::empty()
    } else {
        let rest = disabled_uses(enabled, uses.drop_last(), source);
        if enabled.contains(uses.last().feature) {
            rest
        } else {
            rest.push(
                RichErrorModel {
                    error: Error::UnstableFeature { feature: uses.last().feature },
                    span: uses.last().span,
                    source: Some(source),
                },
            )
        }
    }
}

/// What a list of names stands for: the features of the names that are not blank, or the
/// message for the first of them that no feature has.
pub open spec fn named_features(names: Seq<Seq<char>>) -> Result<Seq<UnstableFeature>, Seq<char>>
    decreases names.len(),
{
    if names.len() == 0 {
        Ok(Seq::empty())
    } else {
        match named_features(names.drop_last()) {
            Ok(features) => {
                let name = trimmed(names.last());
                if name.len() == 0 {
                    Ok(features)
                } else {
                    match named_feature(name) {
                        Ok(feature) => Ok(features.push(feature)),
                        Err(e) => Err(e),
                    }
                }
            },
            Err(e) => Err(e),
        }
    }
}

impl Default for UnstableFeatures {
    fn default() -> (r: Self)
        ensures
            r@ == Seq::<UnstableFeature>::empty(),
    {
        UnstableFeatures { enabled_features: Vec::new() }
    }
}

impl Clone for UnstableFeatures {
    fn clone(&self) -> (r: Self)
        ensures
            r@ == self@,
    {
        let mut enabled_features: Vec<UnstableFeature> = Vec::new();
        let mut i: usize = 0;
        while i < self.enabled_features.len()
            invariant
                i <= self.enabled_features.len(),
                enabled_features@ == self@.take(i as int),
            decreases self.enabled_features.len() - i,
        {
            enabled_features.push(self.enabled_features[i]);
            i = i + 1;
            assert(enabled_features@ =~= self@.take(i as int));
        }
        assert(self@.take(i as int) =~= self@);
        UnstableFeatures { enabled_features }
    }
}

/// Whether `feature` is among `features`.
fn has_feature(features: &Vec<UnstableFeature>, feature: UnstableFeature) -> (r: bool)
    ensures
        r == features@.contains(feature),
{
    let mut i: usize = 0;
    while i < features.len()
        invariant
            i <= features.len(),
            forall|k: int| 0 <= k < i ==> features@[k] != feature,
        decreases features.len() - i,
    {
        if features[i] == feature {
            return true;
        }
        i = i + 1;
    }
    false
}

impl UnstableFeatures {
    /// No feature at all.
    pub fn none() -> (r: UnstableFeatures)
        ensures
            r@ == Seq::<UnstableFeature>::empty(),
    {
        UnstableFeatures::default()
    }

    /// Every feature.
    pub fn all() -> (r: UnstableFeatures)
        ensures
            r@ == all_features(),
    {
        let all = UnstableFeature::all();
        let mut features: Vec<UnstableFeature> = Vec::new();
        let mut i: usize = 0;
        while i < all.len()
            invariant
                i <= all.len(),
                all@ == all_features(),
                features@ == all@.take(i as int),
            decreases all.len() - i,
        {
            features.push(all[i]);
            i = i + 1;
            assert(features@ =~= all@.take(i as int));
        }
        assert(features@ =~= all_features());
        proof {
            lemma_all_is_canonical();
        }
        UnstableFeatures::new(features)
    }

    /// The given features, each once and in the order of their declaration.
    pub fn new(features: Vec<UnstableFeature>) -> (r: UnstableFeatures)
        ensures
            r@ == canonical(features@),
    {
        let all = UnstableFeature::all();
        let ghost among = |f: UnstableFeature| features@.contains(f);
        let mut enabled_features: Vec<UnstableFeature> = Vec::new();
        let mut i: usize = 0;
        assert(all@.take(0).filter(among) =~= Seq::<UnstableFeature>::empty()) by {
            reveal(Seq::filter);
        }
        while i < all.len()
            invariant
                i <= all.len(),
                all@ == all_features(),
                among == (|f: UnstableFeature| features@.contains(f)),
                enabled_features@ == all@.take(i as int).filter(among),
            decreases all.len() - i,
        {
            proof {
                reveal(Seq::filter);
                assert(all@.take(i + 1).drop_last() =~= all@.take(i as int));
            }
            if has_feature(&features, all[i]) {
                enabled_features.push(all[i]);
            }
            i = i + 1;
        }
        assert(all@.take(i as int) =~= all@);
        UnstableFeatures { enabled_features }
    }

    /// Whether `feature` is enabled.
    pub fn is_enabled(&self, feature: UnstableFeature) -> (r: bool)
        ensures
            r == self@.contains(feature),
    {
        has_feature(&self.enabled_features, feature)
    }

    /// Report every use of a feature in `program` that is not enabled, in order, each with
    /// its span and the file.
    pub fn check_program<P: RequireFeature>(
        &self,
        program: &P,
        source: &SourceFile,
        handler: &mut ErrorCollector,
    )
        ensures
            final(handler)@ == old(handler)@ + disabled_uses(
                self@,
                program.requirements(),
                source@,
            ),
    {
        let mut uses: Vec<FeatureRequirement> = Vec::new();
        program.feature_requirements(&mut uses);
        assert(uses@ =~= program.requirements());
        let ghost start = handler@;
        let mut i: usize = 0;
        assert(start + disabled_uses(self@, uses@.take(0), source@) =~= start);
        while i < uses.len()
            invariant
                i <= uses.len(),
                uses@ == program.requirements(),
                handler@ == start + disabled_uses(self@, uses@.take(i as int), source@),
            decreases uses.len() - i,
        {
            let req = uses[i];
            let ghost before = handler@;
            if !self.is_enabled(req.feature) {
                let error = Error::UnstableFeature { feature: req.feature };
                handler.push(RichError::new(error, req.span).with_source(source.clone()));
            }
            proof {
                let seen = uses@.take(i + 1);
                assert(seen.drop_last() =~= uses@.take(i as int));
                assert(handler@ =~= start + disabled_uses(self@, seen, source@));
            }
            i = i + 1;
        }
        assert(uses@.take(i as int) =~= uses@);
    }

    /// The features with the given names. Blank names count for nothing.
    pub fn from_names(names: Vec<String>) -> (r: Result<UnstableFeatures, String>)
        ensures
            match r {
                Ok(features) => named_features(texts(names@)) matches Ok(found)
                    && features@ == canonical(found),
                Err(e) => named_features(texts(names@)) == Err::<
                    Seq<UnstableFeature>,
                    Seq<char>,
                >(e@),
            },
    {
        let mut features: Vec<UnstableFeature> = Vec::new();
        let ghost all = texts(names@);
        let mut i: usize = 0;
        assert(features@ =~= Seq::<UnstableFeature>::empty());
        while i < names.len()
            invariant
                i <= names.len(),
                all == texts(names@),
                named_features(all.take(i as int)) == Ok::<Seq<UnstableFeature>, Seq<char>>(
                    features@,
                ),
            decreases names.len() - i,
        {
            let s = trim(names[i].as_str());
            assert(all.take(i + 1).drop_last() =~= all.take(i as int));
            assert(all.take(i + 1).last() == names[i as int]@);
            if !s.is_empty() {
                match UnstableFeature::from_name(s) {
                    Ok(feature) => {
                        features.push(feature);
                    },
                    Err(e) => {
                        proof {
                            lemma_first_unknown(all, i + 1);
                        }
                        return Err(e);
                    },
                }
            }
            i = i + 1;
        }
        assert(all.take(i as int) =~= all);
        Ok(UnstableFeatures::new(features))
    }
}

/// The message for the first unknown name is the message for the whole list.
proof fn lemma_first_unknown(names: Seq<Seq<char>>, k: int)
    requires
        0 <= k <= names.len(),
        named_features(names.take(k)) is Err,
    ensures
        named_features(names) == named_features(names.take(k)),
    decreases names.len() - k,
{
    if k < names.len() {
        assert(names.take(k + 1).drop_last() =~= names.take(k));
        lemma_first_unknown(names, k + 1);
    } else {
        assert(names.take(k) =~= names);
    }
}

proof fn lemma_all_is_canonical()
    ensures
        canonical(all_features()) == all_features(),
{
    reveal(Seq::filter);
    let all = all_features();
    let among = |f: UnstableFeature| all.contains(f);
    assert(all.drop_last() =~= Seq::<UnstableFeature>::empty());
    assert(all.contains(all[0]));
    assert(all.drop_last().filter(among) =~= Seq::<UnstableFeature>::empty());
    assert(all.filter(among) =~= all);
}

// ---------------------------------------------------------------------------------------
// Laws
// ---------------------------------------------------------------------------------------

/// The list of all features names every one of them, each once, in the order of their
/// declaration.
pub proof fn law_all_is_complete(feature: UnstableFeature)
    ensures
        all_features().contains(feature),
        forall|i: int, j: int|
            0 <= i < j < all_features().len() ==> rank(#[trigger] all_features()[i]) < rank(
                #[trigger] all_features()[j],
            ),
{
    assert(all_features()[0] == UnstableFeature::Imports);
}

/// A feature is found by its name.
pub proof fn law_name_round_trip(feature: UnstableFeature)
    ensures
        named_feature(feature_name(feature)) == Ok::<UnstableFeature, Seq<char>>(feature),
{
}

/// The feature that a name stands for has that name.
pub proof fn law_named_feature_has_name(name: Seq<char>)
    ensures
        named_feature(name) matches Ok(feature) ==> feature_name(feature) == name,
{
}

/// A set of features enables exactly the features that it was made of, and holds each once,
/// in the order of their declaration.
pub proof fn law_canonical_keeps_features(features: Seq<UnstableFeature>)
    ensures
        forall|f: UnstableFeature| #[trigger]
            canonical(features).contains(f) <==> features.contains(f),
        forall|i: int, j: int|
            0 <= i < j < canonical(features).len() ==> rank(#[trigger] canonical(features)[i])
                < rank(#[trigger] canonical(features)[j]),
{
    let among = |f: UnstableFeature| features.contains(f);
    let all = all_features();
    assert forall|f: UnstableFeature| #[trigger] canonical(features).contains(f)
        <==> features.contains(f) by {
        law_all_is_complete(f);
        broadcast use vstd::seq_lib::group_filter_ensures;
        if features.contains(f) {
            let i = choose|i: int| 0 <= i < all.len() && all[i] == f;
            assert(among(all[i]));
            assert(all.filter(among).contains(f));
        }
        if canonical(features).contains(f) {
            let i = choose|i: int|
                0 <= i < canonical(features).len() && canonical(features)[i] == f;
            assert(among(all.filter(among)[i]));
        }
    }
    reveal(Seq::filter);
    assert(all.drop_last() =~= Seq::<UnstableFeature>::empty());
    assert(all.drop_last().filter(among).len() == 0);
    assert(canonical(features).len() <= 1);
}

/// Two lists with the same features make the same set, however often and in which order they
/// name them.
pub proof fn law_same_features_same_set(a: Seq<UnstableFeature>, b: Seq<UnstableFeature>)
    requires
        forall|f: UnstableFeature| #[trigger] a.contains(f) <==> b.contains(f),
    ensures
        canonical(a) == canonical(b),
{
    let in_a = |f: UnstableFeature| a.contains(f);
    let in_b = |f: UnstableFeature| b.contains(f);
    assert(in_a =~= in_b) by {
        assert forall|f: UnstableFeature| #[trigger] in_a(f) == in_b(f) by {
            assert(a.contains(f) <==> b.contains(f));
        }
    }
}

/// Making a set of the features of a set gives that set.
pub proof fn law_canonical_is_stable(features: Seq<UnstableFeature>)
    ensures
        canonical(canonical(features)) == canonical(features),
{
    law_canonical_keeps_features(features);
    law_same_features_same_set(canonical(features), features);
}

/// With every feature enabled, no use is reported.
pub proof fn law_all_enabled_reports_nothing(uses: Seq<FeatureRequirement>, source: SourceModel)
    ensures
        disabled_uses(all_features(), uses, source).len() == 0,
    decreases uses.len(),
{
    if uses.len() > 0 {
        law_all_enabled_reports_nothing(uses.drop_last(), source);
        law_all_is_complete(uses.last().feature);
    }
}

/// A use is reported exactly where its feature is not enabled: nothing is reported for a
/// program all of whose features are, and something is for any other.
pub proof fn law_reported_iff_disabled(
    enabled: Seq<UnstableFeature>,
    uses: Seq<FeatureRequirement>,
    source: SourceModel,
)
    ensures
        disabled_uses(enabled, uses, source).len() == 0 <==> forall|i: int|
            0 <= i < uses.len() ==> enabled.contains((#[trigger] uses[i]).feature),
        forall|i: int|
            0 <= i < uses.len() && !enabled.contains((#[trigger] uses[i]).feature)
                ==> disabled_uses(enabled, uses, source).contains(
                RichErrorModel {
                    error: Error::UnstableFeature { feature: uses[i].feature },
                    span: uses[i].span,
                    source: Some(source),
                },
            ),
    decreases uses.len(),
{
    if uses.len() > 0 {
        let rest = uses.drop_last();
        law_reported_iff_disabled(enabled, rest, source);
        let reported = disabled_uses(enabled, uses, source);
        let before = disabled_uses(enabled, rest, source);
        assert forall|i: int| 0 <= i < rest.len() implies #[trigger] rest[i] == uses[i] by {}
        assert forall|i: int|
            0 <= i < uses.len() && !enabled.contains((#[trigger] uses[i]).feature) implies reported.contains(
            RichErrorModel {
                error: Error::UnstableFeature { feature: uses[i].feature },
                span: uses[i].span,
                source: Some(source),
            },
        ) by {
            let e = RichErrorModel {
                error: Error::UnstableFeature { feature: uses[i].feature },
                span: uses[i].span,
                source: Some(source),
            };
            if i < rest.len() {
                assert(uses[i] == rest[i]);
                assert(before.contains(e));
                let k = choose|k: int| 0 <= k < before.len() && before[k] == e;
                assert(reported[k] == e);
            } else {
                assert(reported[reported.len() - 1] == e);
            }
        }
        if reported.len() == 0 {
            assert forall|i: int| 0 <= i < uses.len() implies enabled.contains(
                (#[trigger] uses[i]).feature,
            ) by {
                if i < rest.len() {
                    assert(uses[i] == rest[i]);
                }
            }
        }
        if forall|i: int| 0 <= i < uses.len() ==> enabled.contains((#[trigger] uses[i]).feature) {
            assert forall|i: int| 0 <= i < rest.len() implies enabled.contains(
                (#[trigger] rest[i]).feature,
            ) by {
                assert(uses[i] == rest[i]);
            }
            assert(enabled.contains(uses[uses.len() - 1].feature));
        }
    }
}

/// The features of a list of nodes are those of its parts, one after the other.
pub proof fn law_requirements_of_parts<T: RequireFeature>(a: Seq<T>, b: Seq<T>)
    ensures
        requirements_of(a + b) == requirements_of(a) + requirements_of(b),
    decreases b.len(),
{
    if b.len() == 0 {
        assert(a + b =~= a);
        assert(requirements_of(a) + requirements_of(b) =~= requirements_of(a));
    } else {
        let rest = b.drop_last();
        law_requirements_of_parts(a, rest);
        assert((a + b).drop_last() =~= a + rest);
        assert((a + b).last() == b.last());
        assert(requirements_of(a + b) =~= requirements_of(a) + requirements_of(b));
    }
}

/// The features of a single node are its own, and no node uses none.
pub proof fn law_requirements_of_one<T: RequireFeature>(node: T)
    ensures
        requirements_of(seq![node]) == node.requirements(),
        requirements_of(Seq::<T>::empty()).len() == 0,
{
    let nodes = seq![node];
    assert(nodes.drop_last() =~= Seq::<T>::empty());
    assert(requirements_of(nodes.drop_last()) =~= Seq::empty());
    assert(nodes.last() == node);
    assert(requirements_of(nodes) =~= node.requirements());
}

/// Every feature that a node of a list uses is among those of the list, and every one of those
/// is used by a node.
pub proof fn law_requirements_are_those_of_the_nodes<T: RequireFeature>(nodes: Seq<T>)
    ensures
        forall|i: int, k: int|
            0 <= i < nodes.len() && 0 <= k < nodes[i].requirements().len()
                ==> requirements_of(nodes).contains(#[trigger] nodes[i].requirements()[k]),
        forall|r: FeatureRequirement| #[trigger]
            requirements_of(nodes).contains(r) ==> exists|i: int|
                0 <= i < nodes.len() && (#[trigger] nodes[i]).requirements().contains(r),
    decreases nodes.len(),
{
    if nodes.len() > 0 {
        let rest = nodes.drop_last();
        let last = nodes.last();
        let all = requirements_of(nodes);
        law_requirements_are_those_of_the_nodes(rest);
        law_requirements_of_parts(rest, seq![last]);
        law_requirements_of_one(last);
        assert(rest + seq![last] =~= nodes);
        assert forall|i: int, k: int|
            0 <= i < nodes.len() && 0 <= k < nodes[i].requirements().len() implies all.contains(
            #[trigger] nodes[i].requirements()[k],
        ) by {
            let r = nodes[i].requirements()[k];
            if i < rest.len() {
                assert(rest[i] == nodes[i]);
                assert(requirements_of(rest).contains(rest[i].requirements()[k]));
                let j = choose|j: int|
                    0 <= j < requirements_of(rest).len() && requirements_of(rest)[j] == r;
                assert(all[j] == r);
            } else {
                assert(all[requirements_of(rest).len() + k] == r);
            }
        }
        assert forall|r: FeatureRequirement| #[trigger] all.contains(r) implies exists|i: int|
            0 <= i < nodes.len() && (#[trigger] nodes[i]).requirements().contains(r) by {
            let j = choose|j: int| 0 <= j < all.len() && all[j] == r;
            if j < requirements_of(rest).len() {
                assert(requirements_of(rest)[j] == r);
                assert(requirements_of(rest).contains(r));
                let i = choose|i: int|
                    0 <= i < rest.len() && (#[trigger] rest[i]).requirements().contains(r);
                assert(nodes[i].requirements().contains(r));
            } else {
                assert(last.requirements()[j - requirements_of(rest).len()] == r);
                assert(nodes[nodes.len() - 1].requirements().contains(r));
            }
        }
    }
}

/// What holds a node uses the features of the node: a shared node, an optional one and one of
/// two kinds; and a slice uses those of its nodes.
pub proof fn law_holders_use_what_they_hold<L: RequireFeature, R: RequireFeature>(
    shared: Arc<L>,
    optional: Option<L>,
    either: Either<L, R>,
    nodes: &[L],
)
    ensures
        shared.requirements() == (*shared).requirements(),
        optional matches Some(node) ==> optional.requirements() == node.requirements(),
        optional is None ==> optional.requirements().len() == 0,
        either matches Either::Left(node) ==> either.requirements() == node.requirements(),
        either matches Either::Right(node) ==> either.requirements() == node.requirements(),
        forall|i: int, k: int|
            0 <= i < nodes@.len() && 0 <= k < nodes@[i].requirements().len()
                ==> nodes.requirements().contains(#[trigger] nodes@[i].requirements()[k]),
        forall|r: FeatureRequirement| #[trigger]
            nodes.requirements().contains(r) ==> exists|i: int|
                0 <= i < nodes@.len() && (#[trigger] nodes@[i]).requirements().contains(r),
{
    law_requirements_are_those_of_the_nodes(nodes@);
}

/// The reports on uses of features are those on their parts, one after the other.
pub proof fn law_reports_on_parts(
    enabled: Seq<UnstableFeature>,
    a: Seq<FeatureRequirement>,
    b: Seq<FeatureRequirement>,
    source: SourceModel,
)
    ensures
        disabled_uses(enabled, a + b, source) == disabled_uses(enabled, a, source) + disabled_uses(
            enabled,
            b,
            source,
        ),
    decreases b.len(),
{
    if b.len() == 0 {
        assert(a + b =~= a);
        assert(disabled_uses(enabled, a, source) + disabled_uses(enabled, b, source)
            =~= disabled_uses(enabled, a, source));
    } else {
        let rest = b.drop_last();
        law_reports_on_parts(enabled, a, rest, source);
        assert((a + b).drop_last() =~= a + rest);
        assert((a + b).last() == b.last());
        assert(disabled_uses(enabled, a + b, source) =~= disabled_uses(enabled, a, source)
            + disabled_uses(enabled, b, source));
    }
}

/// A single use is reported exactly where its feature is not enabled: once, with that feature,
/// where the use stands in the file.
pub proof fn law_report_on_one_use(
    enabled: Seq<UnstableFeature>,
    feature: UnstableFeature,
    span: Span,
    source: SourceModel,
)
    ensures
        enabled.contains(feature) ==> disabled_uses(
            enabled,
            seq![FeatureRequirement { feature, span }],
            source,
        ).len() == 0,
        !enabled.contains(feature) ==> disabled_uses(
            enabled,
            seq![FeatureRequirement { feature, span }],
            source,
        ) == seq![
            RichErrorModel {
                error: Error::UnstableFeature { feature },
                span,
                source: Some(source),
            },
        ],
{
    let uses = seq![FeatureRequirement { feature, span }];
    assert(uses.drop_last() =~= Seq::<FeatureRequirement>::empty());
    assert(uses.last() == uses[0]);
    reveal_with_fuel(disabled_uses, 2);
    if !enabled.contains(feature) {
        assert(disabled_uses(enabled, uses, source) =~= seq![
            RichErrorModel {
                error: Error::UnstableFeature { feature },
                span,
                source: Some(source),
            },
        ]);
    }
}

/// A list of names is read part by part: the features of its parts one after the other, or the
/// message for the first part that cannot be read.
pub proof fn law_names_are_read_in_turn(a: Seq<Seq<char>>, b: Seq<Seq<char>>)
    ensures
        named_features(a + b) == match (named_features(a), named_features(b)) {
            (Ok(x), Ok(y)) => Ok::<Seq<UnstableFeature>, Seq<char>>(x + y),
            (Err(e), _) => Err(e),
            (Ok(_), Err(e)) => Err(e),
        },
    decreases b.len(),
{
    if b.len() == 0 {
        assert(a + b =~= a);
        if let Ok(x) = named_features(a) {
            assert(x + Seq::<UnstableFeature>::empty() =~= x);
        }
    } else {
        let rest = b.drop_last();
        law_names_are_read_in_turn(a, rest);
        assert((a + b).drop_last() =~= a + rest);
        assert((a + b).last() == b.last());
        if let (Ok(x), Ok(y)) = (named_features(a), named_features(b)) {
            let z = named_features(rest)->Ok_0;
            assert(named_features(a + b)->Ok_0 =~= x + y);
        }
    }
}

/// A single name counts without the white space around it: nothing where that leaves nothing,
/// the feature that has the name where one does, and otherwise the message that quotes it.
pub proof fn law_one_name_is_read(name: Seq<char>)
    ensures
        all_white(name) ==> named_features(seq![name]) == Ok::<Seq<UnstableFeature>, Seq<char>>(
            Seq::empty(),
        ),
        forall|f: UnstableFeature|
            trimmed(name) == #[trigger] feature_name(f) ==> named_features(seq![name]) == Ok::<
                Seq<UnstableFeature>,
                Seq<char>,
            >(seq![f]),
        !all_white(name) && (forall|f: UnstableFeature| trimmed(name) != #[trigger] feature_name(f))
            ==> named_features(seq![name]) == Err::<Seq<UnstableFeature>, Seq<char>>(
            "Unknown unstable feature: '"@ + trimmed(name) + "'"@,
        ),
{
    reveal_strlit("imports");
    let names = seq![name];
    assert(names.drop_last() =~= Seq::<Seq<char>>::empty());
    assert(names.last() == name);
    reveal_with_fuel(named_features, 2);
    lemma_trimmed_empty(name);
    assert(Seq::<UnstableFeature>::empty().push(UnstableFeature::Imports) =~= seq![
        UnstableFeature::Imports,
    ]);
    assert(feature_name(UnstableFeature::Imports) == "imports"@);
}

/// The help lines for features are those for their parts, one after the other, and that for a
/// single feature is a line of its own with its name, padded with spaces, and its description.
pub proof fn law_help_lines_of_parts(
    a: Seq<UnstableFeature>,
    b: Seq<UnstableFeature>,
    f: UnstableFeature,
    width: nat,
)
    ensures
        help_lines(a + b, width) == help_lines(a, width) + help_lines(b, width),
        feature_name(f).len() <= width ==> help_lines(seq![f], width) == "\n"@ + "  "@
            + feature_name(f) + copies(' ', (width - feature_name(f).len()) as nat) + " "@
            + feature_description(f),
    decreases b.len(),
{
    if b.len() == 0 {
        assert(a + b =~= a);
        assert(help_lines(a, width) + help_lines(b, width) =~= help_lines(a, width));
    } else {
        let rest = b.drop_last();
        law_help_lines_of_parts(a, rest, f, width);
        assert((a + b).drop_last() =~= a + rest);
        assert((a + b).last() == b.last());
        assert(help_lines(a + b, width) =~= help_lines(a, width) + help_lines(b, width));
    }
    let one = seq![f];
    assert(one.drop_last() =~= Seq::<UnstableFeature>::empty());
    assert(one.last() == f);
    reveal_with_fuel(help_lines, 2);
    if feature_name(f).len() <= width {
        assert(help_lines(one, width) =~= "\n"@ + "  "@ + feature_name(f) + copies(
            ' ',
            (width - feature_name(f).len()) as nat,
        ) + " "@ + feature_description(f));
    }
}

/// The column for the names is as wide as the longest of them: no name is longer, and one is as
/// long.
pub proof fn law_longest_name(features: Seq<UnstableFeature>)
    ensures
        forall|i: int|
            0 <= i < features.len() ==> utf8_len(feature_name(#[trigger] features[i]))
                <= longest_name(features),
        features.len() > 0 ==> exists|i: int|
            0 <= i < features.len() && utf8_len(feature_name(#[trigger] features[i]))
                == longest_name(features),
    decreases features.len(),
{
    if features.len() > 0 {
        let rest = features.drop_last();
        law_longest_name(rest);
        assert forall|i: int| 0 <= i < features.len() implies utf8_len(
            feature_name(#[trigger] features[i]),
        ) <= longest_name(features) by {
            if i < rest.len() {
                assert(rest[i] == features[i]);
            }
        }
        assert(utf8_len(feature_name(features[features.len() - 1])) <= longest_name(features));
        if utf8_len(feature_name(features[features.len() - 1])) < longest_name(features) {
            let i = choose|i: int|
                0 <= i < rest.len() && utf8_len(feature_name(#[trigger] rest[i]))
                    == longest_name(rest);
            assert(features[i] == rest[i]);
        }
    }
}

/// Asking a slice for the features that it uses adds those of each of its nodes, in order, to
/// what was there: what was there stays, every use of every node is among what is added, and
/// nothing else is.
pub proof fn law_uses_of_a_slice_are_added<T: RequireFeature>(
    nodes: &[T],
    out: &mut Vec<FeatureRequirement>,
)
    requires
        call_ensures(<[T] as RequireFeature>::feature_requirements, (nodes, out), ()),
    ensures
        final(out)@.len() >= old(out)@.len(),
        final(out)@.take(old(out)@.len() as int) == old(out)@,
        forall|i: int, k: int|
            0 <= i < nodes@.len() && 0 <= k < nodes@[i].requirements().len() ==> final(out)@.skip(
                old(out)@.len() as int,
            ).contains(#[trigger] nodes@[i].requirements()[k]),
        forall|r: FeatureRequirement| #[trigger]
            final(out)@.skip(old(out)@.len() as int).contains(r) ==> exists|i: int|
                0 <= i < nodes@.len() && (#[trigger] nodes@[i]).requirements().contains(r),
        nodes@.len() == 1 ==> final(out)@ == old(out)@ + nodes@[0].requirements(),
{
    law_requirements_are_those_of_the_nodes(nodes@);
    assert(final(out)@.take(old(out)@.len() as int) =~= old(out)@);
    assert(final(out)@.skip(old(out)@.len() as int) =~= requirements_of(nodes@));
    if nodes@.len() == 1 {
        law_requirements_of_one(nodes@[0]);
        assert(nodes@ =~= seq![nodes@[0]]);
    }
}

} // verus!
