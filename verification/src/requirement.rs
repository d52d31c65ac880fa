//! Versions, and the version ranges that a directive asks for.
use semver::Op as SemverOp;
use vstd::prelude::*;

use crate::text::{copies, decimal, lemma_position_is, lemma_position_of, position_of};

verus! {

// ---------------------------------------------------------------------------------------
// Versions
// ---------------------------------------------------------------------------------------

/// The characters of an identifier: ASCII letters, digits and the hyphen.
pub open spec fn identifier_char(c: char) -> bool {
    ||| 'A' <= c <= 'Z'
    ||| 'a' <= c <= 'z'
    ||| '0' <= c <= '9'
    ||| c == '-'
}

/// Whether `s` is one identifier. A number in a pre-release has no leading zero.
pub open spec fn identifier_ok(s: Seq<char>, pre_release: bool) -> bool {
    &&& s.len() > 0
    &&& forall|i: int| 0 <= i < s.len() ==> identifier_char(#[trigger] s[i])
    &&& pre_release && s.len() > 1 && s[0] == '0' ==> exists|i: int|
        0 <= i < s.len() && !('0' <= #[trigger] s[i] <= '9')
}

/// Whether `s` is a list of identifiers with dots between them.
pub open spec fn identifiers_ok(s: Seq<char>, pre_release: bool) -> bool
    decreases s.len(),
{
    let dot = position_of(s, '.');
    if 0 <= dot < s.len() {
        identifier_ok(s.take(dot), pre_release) && identifiers_ok(s.skip(dot + 1), pre_release)
    } else {
        identifier_ok(s, pre_release)
    }
}

/// Whether `s` can be the pre-release tag of a version; there may be none.
pub open spec fn pre_release_ok(s: Seq<char>) -> bool {
    s.len() == 0 || identifiers_ok(s, true)
}

/// Whether `s` can be the build metadata of a version; there may be none.
pub open spec fn build_ok(s: Seq<char>) -> bool {
    s.len() == 0 || identifiers_ok(s, false)
}

/// What follows the numbers of a version.
pub open spec fn version_tail(pre: Seq<char>, build: Seq<char>) -> Seq<char> {
    (if pre.len() == 0 {
        Seq::empty()
    } else {
        "-"@ + pre
    }) + (if build.len() == 0 {
        Seq::empty()
    } else {
        "+"@ + build
    })
}

/// A version: three numbers, a pre-release tag and build metadata.
pub struct VersionModel {
    pub major: nat,
    pub minor: nat,
    pub patch: nat,
    pub pre: Seq<char>,
    pub build: Seq<char>,
}

impl VersionModel {
    /// Whether the tag and the metadata are spelled as they may be.
    pub open spec fn wf(self) -> bool {
        pre_release_ok(self.pre) && build_ok(self.build)
    }

    /// Whether each number fits in 64 bits.
    pub open spec fn fits(self) -> bool {
        self.major <= u64::MAX && self.minor <= u64::MAX && self.patch <= u64::MAX
    }

    /// The version as text.
    pub open spec fn text(self) -> Seq<char> {
        numbers_text(self.major, self.minor, self.patch) + version_tail(self.pre, self.build)
    }

    /// The version without its pre-release tag.
    pub open spec fn release(self) -> VersionModel {
        VersionModel { pre: Seq::empty(), ..self }
    }
}

/// Three numbers with dots between them.
pub open spec fn numbers_text(major: nat, minor: nat, patch: nat) -> Seq<char> {
    decimal(major) + "."@ + decimal(minor) + "."@ + decimal(patch)
}

/// A semantic version.
#[derive(Debug, PartialEq, Eq)]
pub struct Version {
    pub major: u64,
    pub minor: u64,
    pub patch: u64,
    /// The pre-release tag, empty where there is none.
    pub pre: String,
    /// The build metadata, empty where there is none.
    pub build: String,
}

impl View for Version {
    type V = VersionModel;

    open spec fn view(&self) -> VersionModel {
        VersionModel {
            major: self.major as nat,
            minor: self.minor as nat,
            patch: self.patch as nat,
            pre: self.pre@,
            build: self.build@,
        }
    }
}

impl Clone for Version {
    fn clone(&self) -> (r: Self)
        ensures
            r@ == self@,
    {
        Version {
            major: self.major,
            minor: self.minor,
            patch: self.patch,
            pre: self.pre.clone(),
            build: self.build.clone(),
        }
    }
}

/// The message of `semver::Version::parse` for a text that is no version.
pub uninterp spec fn semver_version_error(text: Seq<char>) -> Seq<char>;

/// Calls `semver::Version::parse`. It takes exactly the texts of versions whose numbers fit
/// in 64 bits, and gives back the version that the text spells; for any other text it fails
/// with a message that depends on the text alone.
#[verifier::external_body]
fn parse_version(text: &str) -> (r: Result<Version, String>)
    ensures
        match r {
            Ok(v) => v@.wf() && v@.text() == text@,
            Err(e) => e@ == semver_version_error(text@) && forall|v: VersionModel|
                v.wf() && v.fits() ==> #[trigger] v.text() != text@,
        },
{
    let v = semver::Version::parse(text).map_err(|e| e.to_string())?;
    Ok(Version {
        major: v.major,
        minor: v.minor,
        patch: v.patch,
        pre: v.pre.to_string(),
        build: v.build.to_string(),
    })
}

impl Version {
    /// Read a version such as `0.6.0-rc.0`.
    pub fn parse(text: &str) -> (r: Result<Version, String>)
        ensures
            match r {
                Ok(v) => v@.wf() && v@.text() == text@,
                Err(e) => e@ == semver_version_error(text@) && forall|v: VersionModel|
                    v.wf() && v.fits() ==> #[trigger] v.text() != text@,
            },
    {
        parse_version(text)
    }
}

// ---------------------------------------------------------------------------------------
// Ranges
// ---------------------------------------------------------------------------------------

/// The operator of a comparator.
#[derive(Clone, Copy, Debug, PartialEq, Eq, Structural)]
pub enum Op {
    Exact,
    Greater,
    GreaterEq,
    Less,
    LessEq,
    Tilde,
    Caret,
    Wildcard,
}

/// One bound of a range, such as `>=0.6.0` or `0.*`.
pub struct ComparatorModel {
    pub op: Op,
    pub major: nat,
    pub minor: Option<nat>,
    pub patch: Option<nat>,
    pub pre: Seq<char>,
}

impl ComparatorModel {
    /// Whether the parts that are given follow each other, and the tag is spelled as it may
    /// be.
    pub open spec fn wf(self) -> bool {
        &&& pre_release_ok(self.pre)
        &&& self.patch is Some ==> self.minor is Some
        &&& self.pre.len() > 0 ==> self.patch is Some
    }

    /// Whether each number fits in 64 bits.
    pub open spec fn fits(self) -> bool {
        &&& self.major <= u64::MAX
        &&& self.minor matches Some(minor) ==> minor <= u64::MAX
        &&& self.patch matches Some(patch) ==> patch <= u64::MAX
    }

    /// The version that it names, as far as it names one.
    pub open spec fn version_text(self) -> Seq<char> {
        decimal(self.major) + match self.minor {
            Some(minor) => "."@ + decimal(minor),
            None => Seq::empty(),
        } + match self.patch {
            Some(patch) => "."@ + decimal(patch),
            None => Seq::empty(),
        } + version_tail(self.pre, Seq::empty())
    }

    /// The comparator as text.
    pub open spec fn text(self) -> Seq<char> {
        op_text(self.op) + self.version_text()
    }

    /// Whether `text` writes its numbers with wildcards in place of those that are not given:
    /// one wildcard, or two where the major version stands alone.
    pub open spec fn is_wild(self, text: Seq<char>) -> bool {
        let numbers = self.version_text();
        &&& self.patch is None
        &&& exists|a: Seq<char>, b: Seq<char>|
            {
                &&& #[trigger] is_wildcard(a)
                &&& #[trigger] is_wildcard(b)
                &&& text == numbers + "."@ + a || (self.minor is None && text == numbers + "."@ + a
                    + "."@ + b)
            }
    }

    /// Its operator, `n` spaces, and `version`.
    pub open spec fn spaced(self, n: nat, version: Seq<char>) -> Seq<char> {
        op_text(self.op) + copies(' ', n) + version
    }

    /// The first release with the numbers that are given.
    pub open spec fn first(self) -> (nat, nat, nat) {
        (
            self.major,
            match self.minor {
                Some(minor) => minor,
                None => 0,
            },
            match self.patch {
                Some(patch) => patch,
                None => 0,
            },
        )
    }

    /// The first release after all those with the numbers that are given. The release itself
    /// comes after its pre-releases.
    pub open spec fn after(self) -> (nat, nat, nat) {
        match (self.minor, self.patch) {
            (Some(minor), Some(patch)) => if self.pre.len() == 0 {
                (self.major, minor, patch + 1)
            } else {
                (self.major, minor, patch)
            },
            (Some(minor), None) => (self.major, minor + 1, 0),
            (None, _) => (self.major + 1, 0, 0),
        }
    }

    /// The first release that the comparator accepts.
    pub open spec fn lower(self) -> (nat, nat, nat) {
        match self.op {
            Op::Greater => self.after(),
            Op::Less | Op::LessEq => (0, 0, 0),
            _ => self.first(),
        }
    }

    /// The first release above those that the comparator accepts, if there is one.
    pub open spec fn upper(self) -> Option<(nat, nat, nat)> {
        match self.op {
            Op::Greater | Op::GreaterEq => None,
            Op::Less => Some(self.first()),
            Op::LessEq | Op::Exact | Op::Wildcard => Some(self.after()),
            Op::Tilde => match self.minor {
                Some(minor) => Some((self.major, minor + 1, 0)),
                None => Some((self.major + 1, 0, 0)),
            },
            Op::Caret => match (self.minor, self.patch) {
                (Some(minor), Some(patch)) if self.major == 0 && minor == 0 => Some(
                    (0, 0, patch + 1),
                ),
                (Some(minor), _) if self.major == 0 => Some((0, minor + 1, 0)),
                _ => Some((self.major + 1, 0, 0)),
            },
        }
    }

    /// Whether the comparator accepts a release.
    pub open spec fn accepts(self, v: (nat, nat, nat)) -> bool {
        !precedes(v, self.lower()) && (self.upper() matches Some(upper) ==> precedes(v, upper))
    }
}

/// Whether release `a` comes before release `b`.
pub open spec fn precedes(a: (nat, nat, nat), b: (nat, nat, nat)) -> bool {
    ||| a.0 < b.0
    ||| a.0 == b.0 && a.1 < b.1
    ||| a.0 == b.0 && a.1 == b.1 && a.2 < b.2
}

/// One bound of a range.
#[derive(Debug, PartialEq, Eq)]
pub struct Comparator {
    pub op: Op,
    pub major: u64,
    pub minor: Option<u64>,
    pub patch: Option<u64>,
    /// The pre-release tag, empty where there is none.
    pub pre: String,
}

impl Clone for Comparator {
    fn clone(&self) -> (r: Self)
        ensures
            r@ == self@,
    {
        Comparator {
            op: self.op,
            major: self.major,
            minor: self.minor,
            patch: self.patch,
            pre: self.pre.clone(),
        }
    }
}

/// The number that is given, if one is.
pub open spec fn as_nat(n: Option<u64>) -> Option<nat> {
    match n {
        Some(n) => Some(n as nat),
        None => None,
    }
}

impl View for Comparator {
    type V = ComparatorModel;

    open spec fn view(&self) -> ComparatorModel {
        ComparatorModel {
            op: self.op,
            major: self.major as nat,
            minor: as_nat(self.minor),
            patch: as_nat(self.patch),
            pre: self.pre@,
        }
    }
}

/// The views of the comparators.
pub open spec fn models(comparators: Seq<Comparator>) -> Seq<ComparatorModel> {
    comparators.map_values(|c: Comparator| c@)
}

/// Whether each of the comparators is one that can be written.
pub open spec fn comparators_ok(comparators: Seq<ComparatorModel>) -> bool {
    forall|i: int| 0 <= i < comparators.len() ==> (#[trigger] comparators[i]).wf()
}

/// How an operator is written. A wildcard is written behind the numbers, not before them.
pub open spec fn op_text(op: Op) -> Seq<char> {
    match op {
        Op::Exact => "="@,
        Op::Greater => ">"@,
        Op::GreaterEq => ">="@,
        Op::Less => "<"@,
        Op::LessEq => "<="@,
        Op::Tilde => "~"@,
        Op::Caret => "^"@,
        Op::Wildcard => Seq::empty(),
    }
}

/// The comparator for an operator, three numbers and a pre-release tag.
pub open spec fn full_comparator(
    op: Op,
    major: nat,
    minor: nat,
    patch: nat,
    pre: Seq<char>,
) -> ComparatorModel {
    ComparatorModel { op, major, minor: Some(minor), patch: Some(patch), pre }
}

/// What `semver::VersionReq::parse` makes of a text: the comparators, or its message.
pub uninterp spec fn semver_requirement(text: Seq<char>) -> Result<Seq<ComparatorModel>, Seq<char>>;

/// Whether `semver::VersionReq::matches` accepts the version with these numbers and this
/// pre-release tag. Build metadata plays no part.
pub uninterp spec fn semver_satisfies(
    comparators: Seq<ComparatorModel>,
    major: nat,
    minor: nat,
    patch: nat,
    pre: Seq<char>,
) -> bool;

/// Whether a text is read as these comparators.
pub open spec fn reads_as(text: Seq<char>, comparators: Seq<ComparatorModel>) -> bool {
    semver_requirement(text) == Ok::<Seq<ComparatorModel>, Seq<char>>(comparators)
}

/// Whether `text` is a wildcard.
pub open spec fn is_wildcard(text: Seq<char>) -> bool {
    text == "*"@ || text == "x"@ || text == "X"@
}

/// What is known of how a text is read, where `r` is what it is read as.
pub open spec fn reading_ok(text: Seq<char>, r: Result<Seq<ComparatorModel>, Seq<char>>) -> bool {
    // The comparators can be written.
    &&& r matches Ok(comparators) ==> comparators_ok(comparators)
    // A wildcard alone stands for no comparator at all.
    &&& is_wildcard(text) ==> r == Ok::<Seq<ComparatorModel>, Seq<char>>(Seq::empty())
    // An operator and a version, or its first numbers, is read as that comparator.
    &&& forall|c: ComparatorModel|
        c.wf() && c.fits() && !(c.op is Wildcard) && text == #[trigger] c.text() ==> r == Ok::<
            Seq<ComparatorModel>,
            Seq<char>,
        >(seq![c])
    // Spaces behind the operator count for nothing, nor do wildcards for numbers that are not
    // given.
    &&& forall|c: ComparatorModel, n: nat, version: Seq<char>|
        c.wf() && c.fits() && !(c.op is Wildcard) && (version == c.version_text() || c.is_wild(
            version,
        )) && text == #[trigger] c.spaced(n, version) ==> r == Ok::<
            Seq<ComparatorModel>,
            Seq<char>,
        >(seq![c])
    // Without an operator, numbers with a wildcard are read as a comparator of their own.
    &&& forall|c: ComparatorModel|
        c.wf() && c.fits() && c.op is Wildcard && #[trigger] c.is_wild(text) ==> r == Ok::<
            Seq<ComparatorModel>,
            Seq<char>,
        >(seq![c])
    // Without an operator and a wildcard, it is read as a caret.
    &&& forall|c: ComparatorModel|
        c.wf() && c.fits() && c.op is Caret && text == #[trigger] c.version_text() ==> r == Ok::<
            Seq<ComparatorModel>,
            Seq<char>,
        >(seq![c])
    // A leading space counts for nothing.
    &&& forall|rest: Seq<char>|
        text == #[trigger] (" "@ + rest) ==> r == semver_requirement(rest)
    // Lists with a comma between them are read one after the other, up to the number of
    // comparators that a list may have.
    &&& forall|a: Seq<char>, b: Seq<char>, x: Seq<ComparatorModel>, y: Seq<ComparatorModel>|
        text == a + ","@ + b && #[trigger] reads_as(a, x) && #[trigger] reads_as(b, y) && x.len()
            > 0 && y.len() > 0 && x.len() + y.len() <= 32 ==> r == Ok::<
            Seq<ComparatorModel>,
            Seq<char>,
        >(x + y)
}

/// Calls `semver::VersionReq::parse`. What it makes of a text depends on the text alone. The
/// comparators that it gives name no patch without a minor version and no pre-release
/// without a patch, and their pre-releases are spelled as they may be. It reads a
/// wildcard (`*`, `x` or `X`) as the empty list; an operator (or none, which means a caret)
/// with one to three numbers, and perhaps a pre-release tag, as the one comparator that this
/// spells, with spaces between the two counting for nothing; wildcards behind one or two
/// numbers as if nothing stood there, except that without an operator they make a wildcard
/// comparator; and lists with a comma between them one after the other, up to 32 comparators.
/// A leading space counts for nothing. Nothing is said of other texts, nor of the wording of
/// a refusal.
#[verifier::external_body]
fn parse_requirement(text: &str) -> (r: Result<Vec<Comparator>, String>)
    ensures
        match r {
            Ok(cs) => semver_requirement(text@) == Ok::<Seq<ComparatorModel>, Seq<char>>(
                models(cs@),
            ) && reading_ok(text@, Ok::<Seq<ComparatorModel>, Seq<char>>(models(cs@))),
            Err(e) => semver_requirement(text@) == Err::<Seq<ComparatorModel>, Seq<char>>(e@)
                && reading_ok(text@, Err::<Seq<ComparatorModel>, Seq<char>>(e@)),
        },
{
    let req = semver::VersionReq::parse(text).map_err(|e| e.to_string())?;
    Ok(req.comparators.into_iter().map(|c| Comparator {
        op: match c.op {
            SemverOp::Exact => Op::Exact,
            SemverOp::Greater => Op::Greater,
            SemverOp::GreaterEq => Op::GreaterEq,
            SemverOp::Less => Op::Less,
            SemverOp::LessEq => Op::LessEq,
            SemverOp::Tilde => Op::Tilde,
            SemverOp::Caret => Op::Caret,
            _ => Op::Wildcard,
        },
        major: c.major, minor: c.minor, patch: c.patch, pre: c.pre.to_string() }).collect())
}

// ---------------------------------------------------------------------------------------
// Precedence
// ---------------------------------------------------------------------------------------

/// The identifiers of a tag: the parts between its dots.
pub open spec fn identifiers(s: Seq<char>) -> Seq<Seq<char>>
    decreases s.len(),
{
    let dot = position_of(s, '.');
    if 0 <= dot < s.len() {
        seq![s.take(dot)] + identifiers(s.skip(dot + 1))
    } else {
        seq![s]
    }
}

/// Whether text `a` comes before text `b` in ASCII order.
pub open spec fn lexically_before(a: Seq<char>, b: Seq<char>) -> bool
    decreases a.len(),
{
    if b.len() == 0 {
        false
    } else if a.len() == 0 {
        true
    } else if a[0] != b[0] {
        a[0] < b[0]
    } else {
        lexically_before(a.drop_first(), b.drop_first())
    }
}

/// Whether identifier `a` comes before identifier `b`: numbers by their value, other texts in
/// ASCII order, and numbers before other texts.
pub open spec fn identifier_before(a: Seq<char>, b: Seq<char>) -> bool {
    if all_digits(a) && all_digits(b) {
        digits_value(a) < digits_value(b)
    } else if all_digits(a) || all_digits(b) {
        all_digits(a)
    } else {
        lexically_before(a, b)
    }
}

/// Whether the identifiers `a` come before the identifiers `b`: by the first in which they
/// differ, or else the shorter list first.
pub open spec fn identifiers_before(a: Seq<Seq<char>>, b: Seq<Seq<char>>) -> bool
    decreases a.len(),
{
    if b.len() == 0 {
        false
    } else if a.len() == 0 {
        true
    } else if a[0] != b[0] {
        identifier_before(a[0], b[0])
    } else {
        identifiers_before(a.drop_first(), b.drop_first())
    }
}

/// Whether the version with pre-release tag `a` comes before that with tag `b` and the same
/// numbers. A release comes after its pre-releases.
pub open spec fn tag_before(a: Seq<char>, b: Seq<char>) -> bool {
    if a == b || a.len() == 0 {
        false
    } else if b.len() == 0 {
        true
    } else {
        identifiers_before(identifiers(a), identifiers(b))
    }
}

/// Whether version `a`, its numbers and its tag, comes before version `b`.
pub open spec fn version_before(
    a: ((nat, nat, nat), Seq<char>),
    b: ((nat, nat, nat), Seq<char>),
) -> bool {
    precedes(a.0, b.0) || (a.0 == b.0 && tag_before(a.1, b.1))
}

impl VersionModel {
    /// The numbers and the tag of the version.
    pub open spec fn point(self) -> ((nat, nat, nat), Seq<char>) {
        ((self.major, self.minor, self.patch), self.pre)
    }
}

impl ComparatorModel {
    /// The numbers and the tag that the comparator names, with zeros for the numbers that it
    /// does not.
    pub open spec fn point(self) -> ((nat, nat, nat), Seq<char>) {
        (self.first(), self.pre)
    }

    /// Whether a pre-release meets the comparator. A comparator with three numbers is held
    /// against it by precedence; one with fewer asks only for its numbers, and a pre-release of
    /// the numbers that it names counts neither as above nor as below nor as equal.
    pub open spec fn meets(self, v: VersionModel) -> bool {
        let numbers = (v.major, v.minor, v.patch);
        match self.op {
            Op::Exact | Op::Wildcard => self.patch is Some && v.point() == self.point(),
            Op::Greater => if self.patch is Some {
                version_before(self.point(), v.point())
            } else {
                !precedes(numbers, self.after())
            },
            Op::GreaterEq => if self.patch is Some {
                !version_before(v.point(), self.point())
            } else {
                !precedes(numbers, self.after())
            },
            Op::Less => if self.patch is Some {
                version_before(v.point(), self.point())
            } else {
                precedes(numbers, self.first())
            },
            Op::LessEq => if self.patch is Some {
                !version_before(self.point(), v.point())
            } else {
                precedes(numbers, self.first())
            },
            Op::Tilde => self.patch is Some && !version_before(v.point(), self.point()) && v.major
                == self.major && Some(v.minor) == self.minor,
            Op::Caret => (if self.patch is Some {
                !version_before(v.point(), self.point())
            } else {
                !precedes(numbers, self.first())
            }) && (self.upper() matches Some(upper) && precedes(numbers, upper)),
        }
    }
}

/// Whether a pre-release meets each of the comparators.
pub open spec fn all_meet(comparators: Seq<ComparatorModel>, v: VersionModel) -> bool {
    forall|i: int| 0 <= i < comparators.len() ==> (#[trigger] comparators[i]).meets(v)
}

/// Whether one of the comparators names a pre-release of the version's own base.
pub open spec fn names_base(comparators: Seq<ComparatorModel>, v: VersionModel) -> bool {
    exists|i: int|
        0 <= i < comparators.len() && (#[trigger] comparators[i]).major == v.major
            && comparators[i].minor == Some(v.minor) && comparators[i].patch == Some(v.patch)
            && comparators[i].pre.len() > 0
}

/// Whether each of the comparators accepts the release with the version's numbers.
pub open spec fn all_accept(comparators: Seq<ComparatorModel>, v: VersionModel) -> bool {
    forall|i: int|
        0 <= i < comparators.len() ==> (#[trigger] comparators[i]).accepts(
            (v.major, v.minor, v.patch),
        )
}

/// Whether the comparators are a single one that names an exact, full version.
pub open spec fn pins(comparators: Seq<ComparatorModel>) -> bool {
    comparators.len() == 1 && comparators[0].op is Exact && comparators[0].patch is Some
}

/// Whether the comparators are a single one with the version's three numbers and tag.
pub open spec fn names_exactly(comparators: Seq<ComparatorModel>, v: VersionModel) -> bool {
    comparators.len() == 1 && comparators[0] == full_comparator(
        comparators[0].op,
        v.major,
        v.minor,
        v.patch,
        v.pre,
    )
}

/// Whether a version satisfies the comparators as they stand. A release does where each of
/// them accepts it. A pre-release does where it is the version of a single `=`. A single
/// comparator with its own numbers and tag it satisfies unless that asks for more or for
/// less. Otherwise it does where a comparator names a pre-release of the same base and each of
/// them is met.
pub open spec fn satisfied(comparators: Seq<ComparatorModel>, v: VersionModel) -> bool {
    if v.pre.len() == 0 {
        all_accept(comparators, v)
    } else if pins(comparators) {
        comparators[0].first() == (v.major, v.minor, v.patch) && comparators[0].pre == v.pre
    } else if names_exactly(comparators, v) {
        !(comparators[0].op is Greater || comparators[0].op is Less)
    } else {
        names_base(comparators, v) && all_meet(comparators, v)
    }
}

/// Calls `semver::VersionReq::matches`. Its answer depends on the comparators, the numbers
/// and the pre-release tag alone. A release satisfies the comparators where it lies within
/// the bounds of each, with the operators as the crate documents them. A pre-release
/// satisfies a single `=` with a full version where it is that version; a single comparator
/// with its own numbers and tag unless the operator is `>` or `<`; and other comparators
/// where one of them has the same three numbers and a pre-release tag and each of them is met,
/// by the order of versions that the crate documents: numbers first, a pre-release before its
/// release, and tags by their identifiers, numeric ones by value and before the others. What a
/// comparator with fewer than three numbers makes of a pre-release is as in the crate's source.
#[verifier::external_body]
fn satisfies(comparators: &Vec<Comparator>, v: &Version) -> (r: bool)
    requires
        comparators_ok(models(comparators@)),
        v@.wf(),
    ensures
        r == semver_satisfies(models(comparators@), v@.major, v@.minor, v@.patch, v@.pre),
        r == satisfied(models(comparators@), v@),
{
    let comparators = comparators.iter().map(|c| semver::Comparator {
        op: match c.op {
            Op::Exact => SemverOp::Exact, Op::Greater => SemverOp::Greater,
            Op::GreaterEq => SemverOp::GreaterEq, Op::Less => SemverOp::Less,
            Op::LessEq => SemverOp::LessEq, Op::Tilde => SemverOp::Tilde,
            Op::Caret => SemverOp::Caret, Op::Wildcard => SemverOp::Wildcard,
        },
        major: c.major, minor: c.minor, patch: c.patch,
        pre: semver::Prerelease::new(&c.pre).unwrap(),
    }).collect();
    let mut version = semver::Version::new(v.major, v.minor, v.patch);
    version.pre = semver::Prerelease::new(&v.pre).unwrap();
    semver::VersionReq { comparators }.matches(&version)
}

/// A version range: the comparators that a version has to meet.
#[derive(Debug, PartialEq, Eq)]
pub struct VersionReq {
    pub comparators: Vec<Comparator>,
}

impl Clone for VersionReq {
    fn clone(&self) -> (r: Self)
        ensures
            r@ == self@,
    {
        let mut comparators: Vec<Comparator> = Vec::new();
        let mut i: usize = 0;
        while i < self.comparators.len()
            invariant
                i <= self.comparators.len(),
                models(comparators@) == self@.take(i as int),
            decreases self.comparators.len() - i,
        {
            let ghost before = comparators@;
            comparators.push(self.comparators[i].clone());
            i = i + 1;
            assert(models(comparators@) =~= models(before).push(self@[i - 1]));
            assert(models(comparators@) =~= self@.take(i as int));
        }
        assert(self@.take(i as int) =~= self@);
        VersionReq { comparators }
    }
}

impl View for VersionReq {
    type V = Seq<ComparatorModel>;

    open spec fn view(&self) -> Seq<ComparatorModel> {
        models(self.comparators@)
    }
}

/// The result of reading a range, as its model.
pub open spec fn reading(r: Result<VersionReq, String>) -> Result<Seq<ComparatorModel>, Seq<char>> {
    match r {
        Ok(req) => Ok(req@),
        Err(e) => Err(e@),
    }
}

impl VersionReq {
    /// Read a range such as `>=0.6.0, <1.0.0`.
    pub fn parse(text: &str) -> (r: Result<VersionReq, String>)
        ensures
            reading(r) == semver_requirement(text@),
            reading_ok(text@, reading(r)),
    {
        match parse_requirement(text) {
            Ok(comparators) => Ok(VersionReq { comparators }),
            Err(e) => Err(e),
        }
    }

    /// Whether a version satisfies the range as it stands.
    pub fn matches(&self, version: &Version) -> (r: bool)
        requires
            comparators_ok(self@),
            version@.wf(),
        ensures
            r == satisfied(self@, version@),
    {
        satisfies(&self.comparators, version)
    }
}

// ---------------------------------------------------------------------------------------
// Requirements
// ---------------------------------------------------------------------------------------

/// Whether one of the comparators names a pre-release.
pub open spec fn names_pre_release(comparators: Seq<ComparatorModel>) -> bool {
    exists|i: int| 0 <= i < comparators.len() && (#[trigger] comparators[i]).pre.len() > 0
}

/// The version that is held against the comparators: without its pre-release tag where they
/// name no pre-release.
pub open spec fn effective(comparators: Seq<ComparatorModel>, v: VersionModel) -> VersionModel {
    if names_pre_release(comparators) {
        v
    } else {
        v.release()
    }
}

/// Whether a version meets a requirement.
pub open spec fn requirement_met(comparators: Seq<ComparatorModel>, v: VersionModel) -> bool {
    satisfied(comparators, effective(comparators, v))
}

/// A parsed directive requirement: the range written inside the quotes, with compiler-aware
/// pre-release handling. A plain release range still accepts a pre-release build of that
/// version.
#[derive(Debug, PartialEq, Eq)]
pub struct VersionRequirement {
    req: VersionReq,
}

impl Clone for VersionRequirement {
    fn clone(&self) -> (r: Self)
        ensures
            r@ == self@,
    {
        proof {
            use_type_invariant(self);
        }
        VersionRequirement { req: self.req.clone() }
    }
}

impl View for VersionRequirement {
    type V = Seq<ComparatorModel>;

    closed spec fn view(&self) -> Seq<ComparatorModel> {
        self.req@
    }
}

/// The result of reading a requirement, as its model.
pub open spec fn requirement_reading(r: Result<VersionRequirement, String>) -> Result<
    Seq<ComparatorModel>,
    Seq<char>,
> {
    match r {
        Ok(req) => Ok(req@),
        Err(e) => Err(e@),
    }
}

impl VersionRequirement {
    #[verifier::type_invariant]
    spec fn inv(&self) -> bool {
        comparators_ok(self.req@)
    }

    /// Parse a requirement string such as `>=0.6.0` or `=0.6.0`.
    pub fn parse(s: &str) -> (r: Result<VersionRequirement, String>)
        ensures
            requirement_reading(r) == semver_requirement(s@),
            reading_ok(s@, requirement_reading(r)),
    {
        match VersionReq::parse(s) {
            Ok(req) => Ok(VersionRequirement { req }),
            Err(e) => Err(e),
        }
    }

    /// The underlying requirement, for external tooling that intersects ranges across a
    /// project's files.
    pub fn req(&self) -> (r: &VersionReq)
        ensures
            r@ == self@,
            comparators_ok(r@),
    {
        proof {
            use_type_invariant(self);
        }
        &self.req
    }

    /// Whether `version` satisfies the requirement, after pre-release normalization (see
    /// `effective_version`).
    pub fn matches(&self, version: &Version) -> (r: bool)
        requires
            version@.wf(),
        ensures
            r == requirement_met(self@, version@),
    {
        proof {
            use_type_invariant(self);
        }
        let effective = self.effective_version(version);
        self.req.matches(&effective)
    }

    /// Strip the compiler's pre-release tag (`0.6.0-rc.0` becomes `0.6.0`) when the
    /// requirement names no pre-release, so a release range still accepts a matching
    /// pre-release compiler.
    pub fn effective_version(&self, version: &Version) -> (r: Version)
        ensures
            r@ == effective(self@, version@),
    {
        let comparators = &self.req.comparators;
        let mut req_allows_pre = false;
        let mut i: usize = 0;
        while i < comparators.len()
            invariant
                i <= comparators.len(),
                self@ == models(comparators@),
                req_allows_pre == exists|k: int|
                    0 <= k < i && (#[trigger] self@[k]).pre.len() > 0,
            decreases comparators.len() - i,
        {
            assert(self@[i as int].pre == comparators[i as int].pre@);
            if !comparators[i].pre.as_str().is_empty() {
                req_allows_pre = true;
            }
            i = i + 1;
        }
        let mut r = version.clone();
        proof {
            if r.pre@.len() == 0 {
                assert(r.pre@ =~= Seq::empty());
            }
        }
        if !req_allows_pre && !version.pre.as_str().is_empty() {
            r.pre = String::new();
        }
        r
    }
}

// ---------------------------------------------------------------------------------------
// Laws
// ---------------------------------------------------------------------------------------

/// A range that names no pre-release takes a pre-release build exactly where it takes the
/// release with the same numbers.
pub proof fn law_release_range_ignores_tag(comparators: Seq<ComparatorModel>, v: VersionModel)
    requires
        !names_pre_release(comparators),
    ensures
        requirement_met(comparators, v) == requirement_met(comparators, v.release()),
        requirement_met(comparators, v) == all_accept(comparators, v),
{
}

/// `*`, the range without comparators, takes every version.
pub proof fn law_star_takes_all(v: VersionModel)
    ensures
        requirement_met(Seq::empty(), v),
{
    assert(!names_pre_release(Seq::empty()));
}

/// Comma-separated bounds hold together: where none of them names a pre-release, the joint
/// range takes the versions that both parts take.
pub proof fn law_bounds_hold_together(
    a: Seq<ComparatorModel>,
    b: Seq<ComparatorModel>,
    v: VersionModel,
)
    requires
        !names_pre_release(a),
        !names_pre_release(b),
    ensures
        requirement_met(a + b, v) <==> requirement_met(a, v) && requirement_met(b, v),
{
    let ab = a + b;
    assert(!names_pre_release(ab)) by {
        assert forall|i: int| 0 <= i < ab.len() implies (#[trigger] ab[i]).pre.len() == 0 by {
            if i < a.len() {
                assert(ab[i] == a[i]);
            } else {
                assert(ab[i] == b[i - a.len()]);
            }
        }
    }
    if all_accept(ab, v) {
        assert forall|i: int| 0 <= i < a.len() implies (#[trigger] a[i]).accepts(
            (v.major, v.minor, v.patch),
        ) by {
            assert(ab[i] == a[i]);
        }
        assert forall|i: int| 0 <= i < b.len() implies (#[trigger] b[i]).accepts(
            (v.major, v.minor, v.patch),
        ) by {
            assert(ab[a.len() + i] == b[i]);
        }
    }
    if all_accept(a, v) && all_accept(b, v) {
        assert forall|i: int| 0 <= i < ab.len() implies (#[trigger] ab[i]).accepts(
            (v.major, v.minor, v.patch),
        ) by {
            if i < a.len() {
                assert(ab[i] == a[i]);
            } else {
                assert(ab[i] == b[i - a.len()]);
            }
        }
    }
}

/// A release meets a list of comparators exactly where every one of them accepts its numbers,
/// whether or not any of them carries a tag.
pub proof fn law_release_meets_iff_each_accepts(
    comparators: Seq<ComparatorModel>,
    v: VersionModel,
)
    requires
        v.pre.len() == 0,
    ensures
        requirement_met(comparators, v) <==> forall|i: int|
            0 <= i < comparators.len() ==> (#[trigger] comparators[i]).accepts(
                (v.major, v.minor, v.patch),
            ),
{
}

/// A pre-release meets a list that names pre-releases exactly where one of the comparators names
/// a pre-release with its numbers, and every one of them is met.
pub proof fn law_pre_release_meets_iff_each_is_met(
    comparators: Seq<ComparatorModel>,
    v: VersionModel,
)
    requires
        comparators_ok(comparators),
        v.pre.len() > 0,
        exists|i: int| 0 <= i < comparators.len() && (#[trigger] comparators[i]).pre.len() > 0,
    ensures
        requirement_met(comparators, v) <==> {
            &&& exists|i: int|
                0 <= i < comparators.len() && (#[trigger] comparators[i]).pre.len() > 0
                    && comparators[i].point().0 == v.point().0
            &&& forall|i: int| 0 <= i < comparators.len() ==> (#[trigger] comparators[i]).meets(v)
        },
{
    assert forall|i: int|
        0 <= i < comparators.len() && (#[trigger] comparators[i]).pre.len() > 0 implies (
    comparators[i].point().0 == v.point().0 <==> comparators[i].major == v.major
        && comparators[i].minor == Some(v.minor) && comparators[i].patch == Some(v.patch)) by {
        assert(comparators[i].wf());
    }
    if comparators.len() == 1 {
        let c = comparators[0];
        assert(c.wf());
        if pins(comparators) {
            assert(all_meet(comparators, v) <==> c.meets(v));
        } else if names_exactly(comparators, v) {
            assert(c.point() == v.point());
            assert(all_meet(comparators, v) <==> c.meets(v));
        }
    }
}

/// How an operator with three numbers, with or without a tag, is met: by precedence. `=` asks
/// for the very version, `>` for a later one, `>=` for none before, `<` for an earlier one, `<=`
/// for none after; `~` for none before with the same major and minor number, and `^` for none
/// before with the same numbers up to the first that is not zero.
pub proof fn law_operators_go_by_precedence(c: ComparatorModel, v: VersionModel)
    requires
        c.wf(),
        c.patch is Some,
    ensures
        (if v.pre.len() == 0 {
            c.accepts((v.major, v.minor, v.patch))
        } else {
            c.meets(v)
        }) <==> match c.op {
            Op::Exact | Op::Wildcard => v.point() == c.point(),
            Op::Greater => version_before(c.point(), v.point()),
            Op::GreaterEq => !version_before(v.point(), c.point()),
            Op::Less => version_before(v.point(), c.point()),
            Op::LessEq => !version_before(c.point(), v.point()),
            Op::Tilde => !version_before(v.point(), c.point()) && v.major == c.major && Some(
                v.minor,
            ) == c.minor,
            Op::Caret => {
                &&& !version_before(v.point(), c.point())
                &&& v.major == c.major
                &&& c.major == 0 ==> Some(v.minor) == c.minor
                &&& c.major == 0 && c.minor == Some(0nat) ==> Some(v.patch) == c.patch
            },
        },
{
    if v.pre.len() == 0 {
        assert(v.pre =~= Seq::<char>::empty());
        if c.pre.len() == 0 {
            assert(c.pre =~= Seq::<char>::empty());
        }
    }
}

/// Comma-separated bounds hold together for a release: whatever tags they carry, the joint range
/// takes it exactly where both parts do.
pub proof fn law_bounds_hold_together_for_releases(
    a: Seq<ComparatorModel>,
    b: Seq<ComparatorModel>,
    v: VersionModel,
)
    requires
        v.pre.len() == 0,
    ensures
        requirement_met(a + b, v) <==> requirement_met(a, v) && requirement_met(b, v),
{
    let numbers = (v.major, v.minor, v.patch);
    let ab = a + b;
    law_release_meets_iff_each_accepts(a, v);
    law_release_meets_iff_each_accepts(b, v);
    law_release_meets_iff_each_accepts(ab, v);
    if requirement_met(ab, v) {
        assert forall|i: int| 0 <= i < a.len() implies (#[trigger] a[i]).accepts(numbers) by {
            assert(ab[i] == a[i]);
        }
        assert forall|i: int| 0 <= i < b.len() implies (#[trigger] b[i]).accepts(numbers) by {
            assert(ab[a.len() + i] == b[i]);
        }
    }
    if requirement_met(a, v) && requirement_met(b, v) {
        assert forall|i: int| 0 <= i < ab.len() implies (#[trigger] ab[i]).accepts(numbers) by {
            if i < a.len() {
                assert(ab[i] == a[i]);
            } else {
                assert(ab[i] == b[i - a.len()]);
            }
        }
    }
}

/// Comma-separated bounds hold together for a pre-release too: a bound that names a pre-release
/// with its numbers, joined with any other bounds, takes it exactly where the first does and
/// every one of the others is met.
pub proof fn law_bounds_hold_together_for_pre_releases(
    a: Seq<ComparatorModel>,
    b: Seq<ComparatorModel>,
    v: VersionModel,
)
    requires
        comparators_ok(a),
        comparators_ok(b),
        v.pre.len() > 0,
        exists|i: int|
            0 <= i < a.len() && (#[trigger] a[i]).pre.len() > 0 && a[i].point().0 == v.point().0,
    ensures
        requirement_met(a + b, v) <==> requirement_met(a, v) && forall|i: int|
            0 <= i < b.len() ==> (#[trigger] b[i]).meets(v),
        requirement_met(b + a, v) <==> requirement_met(a + b, v),
{
    let n = choose|i: int|
        0 <= i < a.len() && (#[trigger] a[i]).pre.len() > 0 && a[i].point().0 == v.point().0;
    let ab = a + b;
    let ba = b + a;
    assert(ab[n] == a[n]);
    assert(ba[b.len() + n] == a[n]);
    assert forall|i: int| 0 <= i < ab.len() implies (#[trigger] ab[i]).wf() by {
        if i < a.len() {
            assert(ab[i] == a[i]);
        } else {
            assert(ab[i] == b[i - a.len()]);
        }
    }
    assert forall|i: int| 0 <= i < ba.len() implies (#[trigger] ba[i]).wf() by {
        if i < b.len() {
            assert(ba[i] == b[i]);
        } else {
            assert(ba[i] == a[i - b.len()]);
        }
    }
    law_pre_release_meets_iff_each_is_met(a, v);
    law_pre_release_meets_iff_each_is_met(ab, v);
    law_pre_release_meets_iff_each_is_met(ba, v);
    if requirement_met(ab, v) {
        assert forall|i: int| 0 <= i < a.len() implies (#[trigger] a[i]).meets(v) by {
            assert(ab[i] == a[i]);
        }
        assert forall|i: int| 0 <= i < b.len() implies (#[trigger] b[i]).meets(v) by {
            assert(ab[a.len() + i] == b[i]);
        }
    }
    if requirement_met(ba, v) {
        assert forall|i: int| 0 <= i < a.len() implies (#[trigger] a[i]).meets(v) by {
            assert(ba[b.len() + i] == a[i]);
        }
        assert forall|i: int| 0 <= i < b.len() implies (#[trigger] b[i]).meets(v) by {
            assert(ba[i] == b[i]);
        }
    }
    if requirement_met(a, v) && forall|i: int| 0 <= i < b.len() ==> (#[trigger] b[i]).meets(v) {
        assert forall|i: int| 0 <= i < ab.len() implies (#[trigger] ab[i]).meets(v) by {
            if i < a.len() {
                assert(ab[i] == a[i]);
            } else {
                assert(ab[i] == b[i - a.len()]);
            }
        }
        assert forall|i: int| 0 <= i < ba.len() implies (#[trigger] ba[i]).meets(v) by {
            if i < b.len() {
                assert(ba[i] == b[i]);
            } else {
                assert(ba[i] == a[i - b.len()]);
            }
        }
    }
}

/// The order of the bounds does not matter, nor does it matter how often one is written: lists
/// with the same bounds take the same versions.
pub proof fn law_same_bounds_same_range(
    a: Seq<ComparatorModel>,
    b: Seq<ComparatorModel>,
    v: VersionModel,
)
    requires
        comparators_ok(a),
        comparators_ok(b),
        forall|c: ComparatorModel| #[trigger] a.contains(c) <==> b.contains(c),
    ensures
        requirement_met(a, v) == requirement_met(b, v),
{
    if requirement_met(a, v) {
        lemma_same_bounds(a, b, v);
    }
    if requirement_met(b, v) {
        lemma_same_bounds(b, a, v);
    }
}

/// What the bounds of one list say, those of a list with the same bounds say.
proof fn lemma_same_bounds(a: Seq<ComparatorModel>, b: Seq<ComparatorModel>, v: VersionModel)
    requires
        comparators_ok(a),
        comparators_ok(b),
        forall|c: ComparatorModel| #[trigger] a.contains(c) <==> b.contains(c),
        requirement_met(a, v),
    ensures
        requirement_met(b, v),
{
    let numbers = (v.major, v.minor, v.patch);
    assert forall|i: int| 0 <= i < b.len() implies exists|k: int|
        0 <= k < a.len() && #[trigger] a[k] == #[trigger] b[i] by {
        assert(b.contains(b[i]));
        assert(a.contains(b[i]));
    }
    assert forall|i: int| 0 <= i < a.len() implies exists|k: int|
        0 <= k < b.len() && #[trigger] b[k] == #[trigger] a[i] by {
        assert(a.contains(a[i]));
        assert(b.contains(a[i]));
    }
    assert(names_pre_release(a) == names_pre_release(b)) by {
        if names_pre_release(a) {
            let i = choose|i: int| 0 <= i < a.len() && (#[trigger] a[i]).pre.len() > 0;
            let k = choose|k: int| 0 <= k < b.len() && #[trigger] b[k] == a[i];
            assert(b[k].pre.len() > 0);
        }
        if names_pre_release(b) {
            let i = choose|i: int| 0 <= i < b.len() && (#[trigger] b[i]).pre.len() > 0;
            let k = choose|k: int| 0 <= k < a.len() && #[trigger] a[k] == b[i];
            assert(a[k].pre.len() > 0);
        }
    }
    if names_pre_release(a) && v.pre.len() > 0 {
        law_pre_release_meets_iff_each_is_met(a, v);
        law_pre_release_meets_iff_each_is_met(b, v);
        let i = choose|i: int|
            0 <= i < a.len() && (#[trigger] a[i]).pre.len() > 0 && a[i].point().0 == v.point().0;
        let k = choose|k: int| 0 <= k < b.len() && #[trigger] b[k] == a[i];
        assert(b[k].pre.len() > 0 && b[k].point().0 == v.point().0);
        assert forall|j: int| 0 <= j < b.len() implies (#[trigger] b[j]).meets(v) by {
            let m = choose|m: int| 0 <= m < a.len() && #[trigger] a[m] == b[j];
            assert(a[m].meets(v));
        }
    } else {
        assert forall|j: int| 0 <= j < b.len() implies (#[trigger] b[j]).accepts(numbers) by {
            let m = choose|m: int| 0 <= m < a.len() && #[trigger] a[m] == b[j];
            assert(a[m].accepts(numbers));
        }
    }
}

/// A range that names a pre-release takes a pre-release build only where it names the same
/// base.
pub proof fn law_pre_release_needs_its_base(comparators: Seq<ComparatorModel>, v: VersionModel)
    requires
        comparators_ok(comparators),
        names_pre_release(comparators),
        v.pre.len() > 0,
        !names_base(comparators, v),
    ensures
        !requirement_met(comparators, v),
{
    if pins(comparators) {
        assert(comparators[0].wf());
    }
}

/// A version that is pinned with `=` and three numbers is the only one taken, up to its
/// pre-release tag and build metadata.
pub proof fn law_exact_pins(major: nat, minor: nat, patch: nat, v: VersionModel)
    ensures
        requirement_met(
            seq![full_comparator(Op::Exact, major, minor, patch, Seq::empty())],
            v,
        ) <==> (v.major == major && v.minor == minor && v.patch == patch),
{
    let c = full_comparator(Op::Exact, major, minor, patch, Seq::empty());
    let cs = seq![c];
    assert(cs[0] == c);
    assert(!names_pre_release(cs));
}

/// A pre-release that is pinned with `=` is the only version taken, up to its build metadata.
pub proof fn law_exact_pins_pre_release(
    major: nat,
    minor: nat,
    patch: nat,
    pre: Seq<char>,
    v: VersionModel,
)
    requires
        pre.len() > 0,
    ensures
        requirement_met(seq![full_comparator(Op::Exact, major, minor, patch, pre)], v) <==> (v.major
            == major && v.minor == minor && v.patch == patch && v.pre == pre),
{
    let c = full_comparator(Op::Exact, major, minor, patch, pre);
    let cs = seq![c];
    assert(cs[0] == c);
    assert(names_pre_release(cs));
}

/// Whether every character of `s` is a decimal digit.
pub open spec fn all_digits(s: Seq<char>) -> bool {
    forall|i: int| 0 <= i < s.len() ==> '0' <= #[trigger] s[i] <= '9'
}

/// The number that decimal digits spell.
pub open spec fn digits_value(s: Seq<char>) -> nat
    decreases s.len(),
{
    if s.len() == 0 {
        0
    } else {
        10 * digits_value(s.drop_last()) + (s.last() as nat - 48) as nat
    }
}

/// A number is spelled with digits, and its spelling gives it back.
proof fn lemma_decimal(n: nat)
    ensures
        decimal(n).len() > 0,
        all_digits(decimal(n)),
        digits_value(decimal(n)) == n,
    decreases n,
{
    if n < 10 {
        assert(decimal(n).drop_last() =~= Seq::<char>::empty());
        assert(digits_value(decimal(n).drop_last()) == 0);
    } else {
        lemma_decimal(n / 10);
        assert(decimal(n).drop_last() =~= decimal(n / 10));
    }
}

/// A number is known from its decimal spelling, which is made of digits alone, has the value of
/// the number, and begins with a zero only where it is zero.
pub proof fn law_number_is_known_from_its_digits(m: nat, n: nat)
    ensures
        decimal(m) == decimal(n) ==> m == n,
        decimal(n).len() > 0,
        all_digits(decimal(n)),
        digits_value(decimal(n)) == n,
        decimal(n)[0] == '0' ==> n == 0,
{
    lemma_decimal(m);
    lemma_decimal(n);
    lemma_no_leading_zero(n);
}

proof fn lemma_no_leading_zero(n: nat)
    ensures
        decimal(n).len() > 0,
        decimal(n)[0] == '0' ==> n == 0,
    decreases n,
{
    lemma_decimal(n);
    if n >= 10 {
        lemma_no_leading_zero(n / 10);
        assert(decimal(n)[0] == decimal(n / 10)[0]);
    }
}

/// Where a text is digits up to a character that is none, the digits and the rest are known.
proof fn lemma_digits_end(a: Seq<char>, x: Seq<char>, b: Seq<char>, y: Seq<char>)
    requires
        all_digits(a),
        all_digits(b),
        x.len() > 0 ==> !('0' <= x[0] <= '9'),
        y.len() > 0 ==> !('0' <= y[0] <= '9'),
        a + x == b + y,
    ensures
        a == b,
        x == y,
{
    let s = a + x;
    if a.len() < b.len() {
        assert(s[a.len() as int] == b[a.len() as int]);
        assert(s[a.len() as int] == x[0]);
    }
    if b.len() < a.len() {
        assert(s[b.len() as int] == a[b.len() as int]);
        assert((b + y)[b.len() as int] == y[0]);
    }
    assert(s.take(a.len() as int) =~= a);
    assert((b + y).take(b.len() as int) =~= b);
    assert(s.skip(a.len() as int) =~= x);
    assert((b + y).skip(b.len() as int) =~= y);
}

/// Identifiers with dots between them hold no plus sign.
proof fn lemma_no_plus(s: Seq<char>, pre_release: bool)
    requires
        identifiers_ok(s, pre_release),
    ensures
        forall|i: int| 0 <= i < s.len() ==> #[trigger] s[i] != '+',
    decreases s.len(),
{
    let dot = position_of(s, '.');
    lemma_position_of(s, '.');
    if dot < s.len() {
        let head = s.take(dot);
        let rest = s.skip(dot + 1);
        lemma_no_plus(rest, pre_release);
        assert forall|i: int| 0 <= i < s.len() implies #[trigger] s[i] != '+' by {
            if i < dot {
                assert(identifier_char(head[i]));
            } else if i > dot {
                assert(rest[i - dot - 1] == s[i]);
            }
        }
    } else {
        assert forall|i: int| 0 <= i < s.len() implies #[trigger] s[i] != '+' by {
            assert(identifier_char(s[i]));
        }
    }
}

/// The tag and the metadata are known from what follows the numbers.
proof fn lemma_tail_unique(a: VersionModel, b: VersionModel)
    requires
        a.wf(),
        b.wf(),
        version_tail(a.pre, a.build) == version_tail(b.pre, b.build),
    ensures
        a.pre == b.pre,
        a.build == b.build,
{
    reveal_strlit("-");
    reveal_strlit("+");
    let s = version_tail(a.pre, a.build);
    let t = version_tail(b.pre, b.build);
    if a.pre.len() > 0 {
        lemma_no_plus(a.pre, true);
        assert(s[0] == '-');
    }
    if b.pre.len() > 0 {
        lemma_no_plus(b.pre, true);
        assert(t[0] == '-');
    }
    if a.pre.len() == 0 && a.build.len() > 0 {
        assert(s[0] == '+');
    }
    if b.pre.len() == 0 && b.build.len() > 0 {
        assert(t[0] == '+');
    }
    assert((a.pre.len() > 0) == (b.pre.len() > 0));
    if a.pre.len() > 0 {
        let m = a.pre.len() as int;
        let n = b.pre.len() as int;
        assert forall|i: int| 0 <= i < m implies s[i + 1] == #[trigger] a.pre[i] by {}
        assert forall|i: int| 0 <= i < n implies t[i + 1] == #[trigger] b.pre[i] by {}
        if m < n {
            if a.build.len() > 0 {
                assert(s[m + 1] == '+');
                assert(t[m + 1] == b.pre[m]);
            }
        }
        if n < m {
            if b.build.len() > 0 {
                assert(t[n + 1] == '+');
                assert(s[n + 1] == a.pre[n]);
            }
        }
        assert(s.subrange(1, m + 1) =~= a.pre);
        assert(t.subrange(1, n + 1) =~= b.pre);
        assert(a.build =~= if a.build.len() == 0 { Seq::empty() } else { s.skip(m + 2) });
        assert(b.build =~= if b.build.len() == 0 { Seq::empty() } else { t.skip(n + 2) });
    } else {
        assert(a.pre =~= b.pre);
        assert(a.build =~= if a.build.len() == 0 { Seq::empty() } else { s.skip(1) });
        assert(b.build =~= if b.build.len() == 0 { Seq::empty() } else { t.skip(1) });
    }
}

/// Concatenation from the left is concatenation from the right.
proof fn lemma_assoc(a: Seq<char>, b: Seq<char>, c: Seq<char>)
    ensures
        (a + b) + c == a + (b + c),
{
    assert((a + b) + c =~= a + (b + c));
}

/// The text of a version, read from the front.
proof fn lemma_text_from_front(v: VersionModel)
    ensures
        v.text() == decimal(v.major) + ("."@ + (decimal(v.minor) + ("."@ + (decimal(v.patch)
            + version_tail(v.pre, v.build))))),
{
    let (d0, d1, d2) = (decimal(v.major), decimal(v.minor), decimal(v.patch));
    let dot = "."@;
    let tail = version_tail(v.pre, v.build);
    lemma_assoc(d0 + dot + d1 + dot, d2, tail);
    lemma_assoc(d0 + dot + d1, dot, d2 + tail);
    lemma_assoc(d0 + dot, d1, dot + (d2 + tail));
    lemma_assoc(d0, dot, d1 + (dot + (d2 + tail)));
}

/// A dot and what follows it are known.
proof fn lemma_after_dot(x: Seq<char>, y: Seq<char>)
    requires
        "."@ + x == "."@ + y,
    ensures
        x == y,
{
    reveal_strlit(".");
    assert(("."@ + x).skip(1) =~= x);
    assert(("."@ + y).skip(1) =~= y);
}

/// A dot is no digit, nor is what begins a tag or metadata.
proof fn lemma_no_digit_first(x: Seq<char>, pre: Seq<char>, build: Seq<char>)
    ensures
        ("."@ + x).len() > 0,
        ("."@ + x)[0] == '.',
        version_tail(pre, build).len() > 0 ==> !('0' <= version_tail(pre, build)[0] <= '9'),
{
    reveal_strlit(".");
    reveal_strlit("-");
    reveal_strlit("+");
}

/// A version is known from its text.
pub proof fn law_text_determines_version(a: VersionModel, b: VersionModel)
    requires
        a.wf(),
        b.wf(),
        a.text() == b.text(),
    ensures
        a == b,
{
    lemma_text_from_front(a);
    lemma_text_from_front(b);
    lemma_decimal(a.major);
    lemma_decimal(a.minor);
    lemma_decimal(a.patch);
    lemma_decimal(b.major);
    lemma_decimal(b.minor);
    lemma_decimal(b.patch);
    let ta = version_tail(a.pre, a.build);
    let tb = version_tail(b.pre, b.build);
    let pa = decimal(a.patch) + ta;
    let pb = decimal(b.patch) + tb;
    let ma = decimal(a.minor) + ("."@ + pa);
    let mb = decimal(b.minor) + ("."@ + pb);
    lemma_no_digit_first(ma, a.pre, a.build);
    lemma_no_digit_first(mb, b.pre, b.build);
    lemma_digits_end(decimal(a.major), "."@ + ma, decimal(b.major), "."@ + mb);
    lemma_after_dot(ma, mb);
    lemma_no_digit_first(pa, a.pre, a.build);
    lemma_no_digit_first(pb, b.pre, b.build);
    lemma_digits_end(decimal(a.minor), "."@ + pa, decimal(b.minor), "."@ + pb);
    lemma_after_dot(pa, pb);
    lemma_digits_end(decimal(a.patch), ta, decimal(b.patch), tb);
    lemma_tail_unique(a, b);
}

/// Where no comparator carries a tag, a version meets the list exactly where every comparator
/// accepts its numbers, whatever tag and build metadata it carries itself.
pub proof fn law_untagged_range_goes_by_numbers(
    comparators: Seq<ComparatorModel>,
    v: VersionModel,
)
    requires
        forall|i: int| 0 <= i < comparators.len() ==> (#[trigger] comparators[i]).pre.len() == 0,
    ensures
        requirement_met(comparators, v) <==> forall|i: int|
            0 <= i < comparators.len() ==> (#[trigger] comparators[i]).accepts(
                (v.major, v.minor, v.patch),
            ),
{
    assert(!names_pre_release(comparators));
}

/// The version that is held against a requirement has the numbers and the build metadata of
/// the version. It keeps the tag where a comparator, whichever it is, carries one, and otherwise
/// has none.
pub proof fn law_effective_version_keeps_numbers(
    comparators: Seq<ComparatorModel>,
    v: VersionModel,
)
    ensures
        effective(comparators, v).major == v.major,
        effective(comparators, v).minor == v.minor,
        effective(comparators, v).patch == v.patch,
        effective(comparators, v).build == v.build,
        (exists|i: int| 0 <= i < comparators.len() && (#[trigger] comparators[i]).pre.len() > 0)
            ==> effective(comparators, v).pre == v.pre,
        (forall|i: int| 0 <= i < comparators.len() ==> (#[trigger] comparators[i]).pre.len() == 0)
            ==> effective(comparators, v).pre.len() == 0,
{
}

/// How an operator with one or two numbers takes releases: by those numbers alone. `^` with a
/// major number of zero asks for the minor number that it names.
pub proof fn law_operators_go_by_the_numbers_given(c: ComparatorModel, v: (nat, nat, nat))
    requires
        c.wf(),
        c.patch is None,
    ensures
        c.accepts(v) <==> match c.minor {
            None => match c.op {
                Op::Greater => v.0 > c.major,
                Op::GreaterEq => v.0 >= c.major,
                Op::Less => v.0 < c.major,
                Op::LessEq => v.0 <= c.major,
                _ => v.0 == c.major,
            },
            Some(minor) => match c.op {
                Op::Greater => v.0 > c.major || (v.0 == c.major && v.1 > minor),
                Op::GreaterEq => v.0 > c.major || (v.0 == c.major && v.1 >= minor),
                Op::Less => v.0 < c.major || (v.0 == c.major && v.1 < minor),
                Op::LessEq => v.0 < c.major || (v.0 == c.major && v.1 <= minor),
                Op::Caret => v.0 == c.major && (if c.major == 0 {
                    v.1 == minor
                } else {
                    v.1 >= minor
                }),
                _ => v.0 == c.major && v.1 == minor,
            },
        },
{
}

/// The order of versions: no version comes before itself, a pre-release comes before its
/// release, and tags that are numbers go by their value.
pub proof fn law_versions_are_ordered(
    numbers: (nat, nat, nat),
    tag: Seq<char>,
    m: nat,
    n: nat,
)
    ensures
        !version_before((numbers, tag), (numbers, tag)),
        tag.len() > 0 ==> version_before((numbers, tag), (numbers, Seq::empty())),
        !version_before((numbers, Seq::empty()), (numbers, tag)),
        version_before((numbers, decimal(m)), (numbers, decimal(n))) <==> m < n,
{
    law_number_is_known_from_its_digits(m, n);
    law_number_is_known_from_its_digits(n, m);
    lemma_one_identifier(m);
    lemma_one_identifier(n);
    let a = identifiers(decimal(m));
    let b = identifiers(decimal(n));
    assert(a[0] == decimal(m) && b[0] == decimal(n));
    reveal_with_fuel(identifiers_before, 2);
}

/// A number is a single identifier.
proof fn lemma_one_identifier(n: nat)
    ensures
        identifiers(decimal(n)) == seq![decimal(n)],
{
    let s = decimal(n);
    lemma_decimal(n);
    assert forall|i: int| 0 <= i < s.len() implies #[trigger] s[i] != '.' by {
        assert('0' <= s[i] <= '9');
    }
    lemma_position_is(s, '.', s.len() as int);
}

/// What `VersionRequirement::matches` answers on two versions with the same numbers is the same
/// where the requirement carries no tag; and on a release it is yes exactly where every
/// comparator of the requirement accepts its numbers, whatever tags they carry.
pub proof fn law_matching_goes_by_each_comparator(
    req: &VersionRequirement,
    a: &Version,
    b: &Version,
    for_a: bool,
    for_b: bool,
)
    requires
        call_ensures(VersionRequirement::matches, (req, a), for_a),
        call_ensures(VersionRequirement::matches, (req, b), for_b),
        a@.major == b@.major && a@.minor == b@.minor && a@.patch == b@.patch,
    ensures
        (forall|i: int| 0 <= i < req@.len() ==> (#[trigger] req@[i]).pre.len() == 0) ==> for_a
            == for_b,
        a@.pre.len() == 0 ==> (for_a <==> forall|i: int|
            0 <= i < req@.len() ==> (#[trigger] req@[i]).accepts(
                (a@.major, a@.minor, a@.patch),
            )),
{
    if forall|i: int| 0 <= i < req@.len() ==> (#[trigger] req@[i]).pre.len() == 0 {
        law_untagged_range_goes_by_numbers(req@, a@);
        law_untagged_range_goes_by_numbers(req@, b@);
    }
}

} // verus!
