//! Packages: how they are named, where they come from, what their manifests say.
use crate::path::FilePath;
use vstd::prelude::*;

verus! {

/// What a package name is.
#[verifier::ext_equal]
pub struct NameModel {
    pub text: Seq<char>,
    pub group: Seq<char>,
    pub name: Seq<char>,
}

/// The name of a package.
#[derive(Debug)]
pub struct Name {
    /// The full name, as it is written in manifests.
    pub text: String,
    /// The group that the package belongs to.
    pub group: String,
    /// The name within the group.
    pub name: String,
}

impl View for Name {
    type V = NameModel;

    open spec fn view(&self) -> NameModel {
        NameModel { text: self.text@, group: self.group@, name: self.name@ }
    }
}

impl Clone for Name {
    fn clone(&self) -> (copy: Self)
        ensures
            copy@ == self@,
    {
        Name { text: self.text.clone(), group: self.group.clone(), name: self.name.clone() }
    }
}

impl Name {
    /// The bytes of the full name.
    pub fn as_bytes(&self) -> (bytes: &[u8])
        ensures
            bytes@ == vstd::utf8::encode_utf8(self@.text),
    {
        self.text.as_str().as_bytes()
    }

    /// Whether two names are the same.
    pub fn same(&self, other: &Name) -> (same: bool)
        ensures
            same == (self@ == other@),
    {
        self.text == other.text && self.group == other.group && self.name == other.name
    }
}

/// Identifies a package.
#[derive(Debug)]
pub struct PackageId {
    pub name: Name,
}

/// What an identifier of a version is.
#[verifier::ext_equal]
pub enum IdentifierModel {
    Numeric(u64),
    AlphaNumeric(Seq<char>),
}

/// An identifier in the pre-release or build part of a version.
#[derive(Debug)]
pub enum Identifier {
    Numeric(u64),
    AlphaNumeric(String),
}

impl View for Identifier {
    type V = IdentifierModel;

    open spec fn view(&self) -> IdentifierModel {
        match *self {
            Identifier::Numeric(number) => IdentifierModel::Numeric(number),
            Identifier::AlphaNumeric(text) => IdentifierModel::AlphaNumeric(text@),
        }
    }
}

/// What a version is.
#[verifier::ext_equal]
pub struct VersionModel {
    pub major: u64,
    pub minor: u64,
    pub patch: u64,
    pub pre: Seq<IdentifierModel>,
    pub build: Seq<IdentifierModel>,
}

/// A semantic version.
#[derive(Debug)]
pub struct Version {
    pub major: u64,
    pub minor: u64,
    pub patch: u64,
    /// The pre-release identifiers.
    pub pre: Vec<Identifier>,
    /// The build metadata.
    pub build: Vec<Identifier>,
}

impl View for Version {
    type V = VersionModel;

    open spec fn view(&self) -> VersionModel {
        VersionModel {
            major: self.major,
            minor: self.minor,
            patch: self.patch,
            pre: self.pre@.map_values(|id: Identifier| id@),
            build: self.build@.map_values(|id: Identifier| id@),
        }
    }
}

/// The digit of a number below ten.
pub open spec fn decimal_digit(value: nat) -> char {
    ('0' as int + value) as char
}

/// A number in decimal digits, without leading zeros.
pub open spec fn decimal(number: nat) -> Seq<char>
    decreases number,
{
    if number < 10 {
        seq![decimal_digit(number)]
    } else {
        decimal(number / 10).push(decimal_digit(number % 10))
    }
}

/// The text of an identifier.
pub open spec fn identifier_text(id: IdentifierModel) -> Seq<char> {
    match id {
        IdentifierModel::Numeric(number) => decimal(number as nat),
        IdentifierModel::AlphaNumeric(text) => text,
    }
}

/// The texts of identifiers, with a dot between any two.
pub open spec fn dotted(ids: Seq<IdentifierModel>) -> Seq<char>
    decreases ids.len(),
{
    if ids.len() == 0 {
        Seq::empty()
    } else if ids.len() == 1 {
        identifier_text(ids[0])
    } else {
        dotted(ids.drop_last()).push('.') + identifier_text(ids.last())
    }
}

/// The text of the three numbers of a version.
pub open spec fn release_text(version: VersionModel) -> Seq<char> {
    decimal(version.major as nat).push('.') + decimal(version.minor as nat).push('.') + decimal(
        version.patch as nat,
    )
}

/// The text of a version: `major.minor.patch`, then the pre-release identifiers behind a `-` and
/// the build metadata behind a `+`, where there are any.
pub open spec fn version_text(version: VersionModel) -> Seq<char> {
    release_text(version) + (if version.pre.len() == 0 {
        Seq::empty()
    } else {
        seq!['-'] + dotted(version.pre)
    }) + (if version.build.len() == 0 {
        Seq::empty()
    } else {
        seq!['+'] + dotted(version.build)
    })
}

impl Version {
    /// Calls `to_string` on a `semver::Version` with the same fields. Trusted: it writes the
    /// numbers in decimal digits, and the identifiers as they are, in the form that
    /// `version_text` describes.
    #[verifier::external_body]
    pub(crate) fn text(&self) -> (text: String)
        ensures
            text@ == version_text(self@),
    {
        let convert = |ids: &Vec<Identifier>| ids.iter().map(|id| match id {
            Identifier::Numeric(number) => semver::Identifier::Numeric(*number),
            Identifier::AlphaNumeric(text) => semver::Identifier::AlphaNumeric(text.clone()),
        }).collect();
        semver::Version {
            major: self.major,
            minor: self.minor,
            patch: self.patch,
            pre: convert(&self.pre),
            build: convert(&self.build),
        }.to_string()
    }
}

/// What a direct resolution is.
#[verifier::ext_equal]
pub enum ResModel {
    Git { text: Seq<char> },
    Tar { text: Seq<char> },
    Dir { url: crate::path::PathModel, text: Seq<char> },
}

impl ResModel {
    /// How the resolution is written.
    pub open spec fn text(self) -> Seq<char> {
        match self {
            ResModel::Git { text } => text,
            ResModel::Tar { text } => text,
            ResModel::Dir { url, text } => text,
        }
    }
}

/// A place that a package or an index can be had from directly. `text` is the whole resolution as
/// it is written, with the commit or tag of a repository and the checksum of a tarball.
#[derive(Debug)]
pub enum DirectRes {
    /// A git repository.
    Git { text: String },
    /// A tarball.
    Tar { text: String },
    /// A local directory.
    Dir { url: FilePath, text: String },
}

impl View for DirectRes {
    type V = ResModel;

    open spec fn view(&self) -> ResModel {
        match *self {
            DirectRes::Git { text } => ResModel::Git { text: text@ },
            DirectRes::Tar { text } => ResModel::Tar { text: text@ },
            DirectRes::Dir { url, text } => ResModel::Dir { url: url@, text: text@ },
        }
    }
}

impl Clone for DirectRes {
    fn clone(&self) -> (copy: Self)
        ensures
            copy@ == self@,
    {
        match self {
            DirectRes::Git { text } => DirectRes::Git { text: text.clone() },
            DirectRes::Tar { text } => DirectRes::Tar { text: text.clone() },
            DirectRes::Dir { url, text } => DirectRes::Dir { url: url.clone(), text: text.clone() },
        }
    }
}

impl DirectRes {
    /// How the resolution is written.
    pub fn text(&self) -> (text: &String)
        ensures
            text@ == self@.text(),
    {
        match self {
            DirectRes::Git { text } => text,
            DirectRes::Tar { text } => text,
            DirectRes::Dir { url: _, text } => text,
        }
    }
}

/// The modules of a library.
#[derive(Debug)]
pub struct LibTarget {
    /// The directory of the modules, relative to the package root.
    pub path: FilePath,
    /// The modules, with dots between the parts of their names.
    pub mods: Vec<String>,
}

/// An executable.
#[derive(Debug)]
pub struct BinTarget {
    /// The name of the executable.
    pub name: String,
    /// The file of the main module, relative to the package root.
    pub main: FilePath,
}

/// The targets that a manifest declares.
#[derive(Debug)]
pub struct ManifestTargets {
    pub lib: Option<LibTarget>,
    pub bin: Vec<BinTarget>,
    pub test: Vec<BinTarget>,
}

/// The manifest of a package.
#[derive(Debug)]
pub struct Manifest {
    /// The name of the package.
    pub name: Name,
    /// What can be built.
    pub targets: ManifestTargets,
}

/// Decimal digits are digits.
proof fn lemma_decimal(number: nat)
    ensures
        decimal(number).len() > 0,
        number >= 10 ==> decimal(number).len() > 1,
        forall|i: int|
            0 <= i < decimal(number).len() ==> '0' <= #[trigger] decimal(number)[i] <= '9',
    decreases number,
{
    if number >= 10 {
        lemma_decimal(number / 10);
    }
}

/// Different numbers are written differently.
proof fn lemma_decimal_is_injective(left: nat, right: nat)
    requires
        decimal(left) == decimal(right),
    ensures
        left == right,
    decreases left,
{
    lemma_decimal(left);
    lemma_decimal(right);
    if left < 10 {
        assert(decimal(left)[0] == decimal_digit(left));
        assert(decimal(right)[0] == decimal_digit(right));
        assert(decimal_digit(left) as int == '0' as int + left);
        assert(decimal_digit(right) as int == '0' as int + right);
    } else {
        assert(decimal(left / 10) =~= decimal(left).drop_last());
        assert(decimal(right / 10) =~= decimal(right).drop_last());
        assert(decimal(left).last() == decimal_digit(left % 10));
        assert(decimal(right).last() == decimal_digit(right % 10));
        assert(decimal_digit(left % 10) as int == '0' as int + left % 10);
        assert(decimal_digit(right % 10) as int == '0' as int + right % 10);
        lemma_decimal_is_injective(left / 10, right / 10);
    }
}

/// The first dot of a text tells where a number that it begins with ends.
proof fn lemma_first_number(left: nat, left_rest: Seq<char>, right: nat, right_rest: Seq<char>)
    requires
        decimal(left).push('.') + left_rest == decimal(right).push('.') + right_rest,
    ensures
        left == right,
        left_rest == right_rest,
{
    let left_digits = decimal(left);
    let right_digits = decimal(right);
    let left_text = left_digits.push('.') + left_rest;
    let right_text = right_digits.push('.') + right_rest;
    lemma_decimal(left);
    lemma_decimal(right);
    if left_digits.len() < right_digits.len() {
        assert(left_text[left_digits.len() as int] == '.');
        assert(right_text[left_digits.len() as int] == right_digits[left_digits.len() as int]);
    } else if right_digits.len() < left_digits.len() {
        assert(right_text[right_digits.len() as int] == '.');
        assert(left_text[right_digits.len() as int] == left_digits[right_digits.len() as int]);
    }
    assert(left_digits =~= left_text.take(left_digits.len() as int));
    assert(right_digits =~= right_text.take(left_digits.len() as int));
    lemma_decimal_is_injective(left, right);
    assert(left_rest =~= left_text.skip(left_digits.len() as int + 1));
    assert(right_rest =~= right_text.skip(left_digits.len() as int + 1));
}

/// Versions without pre-release identifiers and build metadata that are written alike are the same
/// version.
pub proof fn law_releases_are_told_apart(left: VersionModel, right: VersionModel)
    requires
        left.pre.len() == 0,
        left.build.len() == 0,
        right.pre.len() == 0,
        right.build.len() == 0,
        version_text(left) == version_text(right),
    ensures
        left == right,
{
    let left_patch = decimal(left.patch as nat);
    let right_patch = decimal(right.patch as nat);
    let left_minor = decimal(left.minor as nat).push('.') + left_patch;
    let right_minor = decimal(right.minor as nat).push('.') + right_patch;
    assert(version_text(left) =~= decimal(left.major as nat).push('.') + left_minor);
    assert(version_text(right) =~= decimal(right.major as nat).push('.') + right_minor);
    lemma_first_number(left.major as nat, left_minor, right.major as nat, right_minor);
    lemma_first_number(left.minor as nat, left_patch, right.minor as nat, right_patch);
    lemma_decimal_is_injective(left.patch as nat, right.patch as nat);
    assert(left.pre =~= right.pre);
    assert(left.build =~= right.build);
}

/// A number is written with its last decimal digit behind what is written for the rest of it.
pub proof fn law_numbers_are_decimal(number: nat)
    ensures
        number < 10 ==> decimal(number) == seq!["0123456789"@[number as int]],
        number >= 10 ==> decimal(number) == decimal(number / 10).push(
            "0123456789"@[number as int % 10],
        ),
{
    reveal_strlit("0123456789");
}

/// Identifiers are written one behind the other, with a dot between any two: numbers in decimal
/// digits, and others as they are.
pub proof fn law_identifiers_are_dotted(ids: Seq<IdentifierModel>, last: IdentifierModel)
    ensures
        dotted(Seq::empty()) == Seq::<char>::empty(),
        dotted(ids.push(last)) == dotted(ids) + (if ids.len() == 0 {
            Seq::empty()
        } else {
            seq!['.']
        }) + match last {
            IdentifierModel::Numeric(number) => decimal(number as nat),
            IdentifierModel::AlphaNumeric(text) => text,
        },
{
    let text = match last {
        IdentifierModel::Numeric(number) => decimal(number as nat),
        IdentifierModel::AlphaNumeric(text) => text,
    };
    assert(ids.push(last).drop_last() =~= ids);
    if ids.len() == 0 {
        assert(dotted(ids) =~= Seq::<char>::empty());
    }
    assert(dotted(ids.push(last)) =~= dotted(ids) + (if ids.len() == 0 {
        Seq::empty()
    } else {
        seq!['.']
    }) + text);
}

/// A version is written with its three numbers, and with the identifiers behind them if there are
/// any.
pub proof fn law_versions_are_written_in_full(version: VersionModel)
    ensures
        version_text(version) == decimal(version.major as nat) + seq!['.'] + decimal(
            version.minor as nat,
        ) + seq!['.'] + decimal(version.patch as nat) + (if version.pre.len() == 0 {
            Seq::empty()
        } else {
            seq!['-'] + dotted(version.pre)
        }) + (if version.build.len() == 0 {
            Seq::empty()
        } else {
            seq!['+'] + dotted(version.build)
        }),
{
    assert(release_text(version) =~= decimal(version.major as nat) + seq!['.'] + decimal(
        version.minor as nat,
    ) + seq!['.'] + decimal(version.patch as nat));
}

/// A resolution is written as its text, wherever it leads to.
pub proof fn law_resolutions_are_their_text(text: Seq<char>, url: crate::path::PathModel)
    ensures
        (ResModel::Git { text }).text() == text,
        (ResModel::Tar { text }).text() == text,
        (ResModel::Dir { url, text }).text() == text,
{
}

/// Names, identifiers, versions and resolutions are what their fields say.
pub proof fn law_views_show_every_field(
    name: Name,
    id: Identifier,
    version: Version,
    res: DirectRes,
    i: int,
)
    ensures
        name@.text == name.text@,
        name@.group == name.group@,
        name@.name == name.name@,
        id@ == match id {
            Identifier::Numeric(number) => IdentifierModel::Numeric(number),
            Identifier::AlphaNumeric(text) => IdentifierModel::AlphaNumeric(text@),
        },
        version@.major == version.major,
        version@.minor == version.minor,
        version@.patch == version.patch,
        version@.pre.len() == version.pre@.len(),
        version@.build.len() == version.build@.len(),
        0 <= i < version.pre@.len() ==> version@.pre[i] == version.pre@[i]@,
        0 <= i < version.build@.len() ==> version@.build[i] == version.build@[i]@,
        res@ == match res {
            DirectRes::Git { text } => ResModel::Git { text: text@ },
            DirectRes::Tar { text } => ResModel::Tar { text: text@ },
            DirectRes::Dir { url, text } => ResModel::Dir { url: url@, text: text@ },
        },
{
}

} // verus!
