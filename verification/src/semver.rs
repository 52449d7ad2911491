//! Package names, versions and version requirements.
//!
//! What a requirement admits and how versions and requirements are ordered is decided by
//! `deno_semver`.

use std::cmp::Ordering;

use deno_semver::CowVec;
use deno_semver::SmallStackString;
use deno_semver::VersionReq;
use vstd::prelude::*;

use crate::order::compare_text;
use crate::order::lemma_text_order_below;
use crate::order::lemma_text_order_dual;
use crate::order::lemma_text_order_equal;
use crate::order::same_text;
use crate::order::text_order;
use crate::order::Order;
use crate::order::SortKey;

verus! {

/// A version requirement, such as `^1.2` or the tag `latest`, as `deno_semver` holds it.
#[verifier::external_type_specification]
#[verifier::external_body]
pub struct ExVersionReq(deno_semver::VersionReq);

/// A semantic version.
#[derive(Debug, PartialEq, Eq, Hash)]
pub struct Version {
    pub major: u64,
    pub minor: u64,
    pub patch: u64,
    /// The identifiers of the pre-release part, if any.
    pub pre: Vec<String>,
    /// The identifiers of the build part, if any.
    pub build: Vec<String>,
}

/// What a version consists of.
pub struct VersionView {
    pub major: u64,
    pub minor: u64,
    pub patch: u64,
    pub pre: Seq<Seq<char>>,
    pub build: Seq<Seq<char>>,
}

impl DeepView for Version {
    type V = VersionView;

    open spec fn deep_view(&self) -> VersionView {
        VersionView {
            major: self.major,
            minor: self.minor,
            patch: self.patch,
            pre: self.pre.deep_view(),
            build: self.build.deep_view(),
        }
    }
}

/// The name and version of a package.
#[derive(Debug, PartialEq, Eq, Hash)]
pub struct PackageNv {
    pub name: String,
    pub version: Version,
}

/// What a package name and version consist of.
pub struct PackageNvView {
    pub name: Seq<char>,
    pub version: VersionView,
}

impl DeepView for PackageNv {
    type V = PackageNvView;

    open spec fn deep_view(&self) -> PackageNvView {
        PackageNvView { name: self.name@, version: self.version.deep_view() }
    }
}

/// The name of a package and a requirement on its version.
#[derive(Debug, PartialEq, Eq, Hash)]
pub struct PackageReq {
    pub name: String,
    pub version_req: VersionReq,
}

/// What a package requirement consists of.
pub struct PackageReqView {
    pub name: Seq<char>,
    pub version_req: VersionReq,
}

impl DeepView for PackageReq {
    type V = PackageReqView;

    open spec fn deep_view(&self) -> PackageReqView {
        PackageReqView { name: self.name@, version_req: self.version_req }
    }
}

/// The registry that a dependency of a JSR package comes from.
#[derive(Clone, Copy, Debug, PartialEq, Eq, Hash, Structural)]
pub enum PackageKind {
    Jsr,
    Npm,
}

/// A package constraint for a JSR dependency, which could be from npm or JSR.
#[derive(Debug, PartialEq, Eq, Hash)]
pub struct JsrDepPackageReq {
    pub kind: PackageKind,
    pub req: PackageReq,
}

/// What a package constraint for a JSR dependency consists of.
pub struct JsrDepPackageReqView {
    pub kind: PackageKind,
    pub req: PackageReqView,
}

impl DeepView for JsrDepPackageReq {
    type V = JsrDepPackageReqView;

    open spec fn deep_view(&self) -> JsrDepPackageReqView {
        JsrDepPackageReqView { kind: self.kind, req: self.req.deep_view() }
    }
}

/// How `deno_semver` orders two pre-release parts that are neither empty nor the same.
pub uninterp spec fn prerelease_order(a: Seq<Seq<char>>, b: Seq<Seq<char>>) -> Order;

/// How `deno_semver` orders two requirements that are sets of ranges.
pub uninterp spec fn range_set_order(a: VersionReq, b: VersionReq) -> Order;

/// Whether `deno_semver` takes two requirements that are sets of ranges for equal.
pub uninterp spec fn same_range_set(a: VersionReq, b: VersionReq) -> bool;

/// The tag that a requirement names, if it is not a set of ranges.
pub uninterp spec fn requirement_tag(req: VersionReq) -> Option<Seq<char>>;

/// Whether `deno_semver` finds that a version lies in a requirement's set of ranges.
pub uninterp spec fn in_range_set(
    req: VersionReq,
    major: u64,
    minor: u64,
    patch: u64,
    pre: Seq<Seq<char>>,
) -> bool;

/// The order of two numbers.
pub open spec fn number_order(a: u64, b: u64) -> Order {
    if a < b {
        Order::Less
    } else if a > b {
        Order::Greater
    } else {
        Order::Equal
    }
}

/// The precedence of versions: by number first; a release is above its pre-releases; the build
/// part does not count.
pub open spec fn version_order(a: VersionView, b: VersionView) -> Order {
    if a.major != b.major {
        number_order(a.major, b.major)
    } else if a.minor != b.minor {
        number_order(a.minor, b.minor)
    } else if a.patch != b.patch {
        number_order(a.patch, b.patch)
    } else if a.pre == b.pre {
        Order::Equal
    } else if a.pre.len() == 0 {
        Order::Greater
    } else if b.pre.len() == 0 {
        Order::Less
    } else {
        prerelease_order(a.pre, b.pre)
    }
}

/// The order of package names and versions: by name, then by version.
pub open spec fn package_nv_order(a: PackageNvView, b: PackageNvView) -> Order {
    if a.name != b.name {
        text_order(a.name, b.name)
    } else {
        version_order(a.version, b.version)
    }
}

/// The order of version requirements: tags first, in descending order, then sets of ranges.
pub open spec fn version_req_order(a: VersionReq, b: VersionReq) -> Order {
    match (requirement_tag(a), requirement_tag(b)) {
        (Some(left), Some(right)) => text_order(right, left),
        (Some(_), None) => Order::Less,
        (None, Some(_)) => Order::Greater,
        (None, None) => if a == b {
            Order::Equal
        } else {
            range_set_order(a, b)
        },
    }
}

/// The order of package requirements: by name, then by version requirement.
pub open spec fn package_req_order(a: PackageReqView, b: PackageReqView) -> Order {
    if a.name != b.name {
        text_order(a.name, b.name)
    } else {
        version_req_order(a.version_req, b.version_req)
    }
}

/// Whether two version requirements are equal: the same tag, or equal sets of ranges, however
/// they were written.
pub open spec fn same_version_req(a: VersionReq, b: VersionReq) -> bool {
    match (requirement_tag(a), requirement_tag(b)) {
        (Some(left), Some(right)) => left == right,
        (None, None) => a == b || same_range_set(a, b),
        _ => false,
    }
}

/// Whether two constraints on a JSR dependency are equal.
pub open spec fn same_dep_req(a: JsrDepPackageReqView, b: JsrDepPackageReqView) -> bool {
    &&& a.kind == b.kind
    &&& a.req.name == b.req.name
    &&& same_version_req(a.req.version_req, b.req.version_req)
}

/// Whether a version satisfies a requirement that is a set of ranges. The build part does not
/// count.
pub open spec fn satisfies(req: VersionReq, version: VersionView) -> bool {
    in_range_set(req, version.major, version.minor, version.patch, version.pre)
}

/// Calls `<deno_semver::Version as Ord>::cmp`.
///
/// Believed of it: it compares the major, minor and patch numbers in turn; then the pre-release
/// parts, of which an empty one is the greatest and two equal ones compare equal; it never looks
/// at the build parts. The order of two other pre-release parts is left to the named result. As
/// an `Ord` it is total and transitive, which the last five clauses say of the two arguments and
/// any third version.
#[verifier::external_body]
pub(crate) fn compare_versions(a: &Version, b: &Version) -> (r: Order)
    ensures
        r == version_order(a.deep_view(), b.deep_view()),
        a.major == b.major && a.minor == b.minor && a.patch == b.patch && a.pre.deep_view()
            != b.pre.deep_view() && a.pre.len() > 0 && b.pre.len() > 0 ==> r == prerelease_order(
            a.pre.deep_view(),
            b.pre.deep_view(),
        ),
        version_order(b.deep_view(), a.deep_view()) == r.reverse(),
        r is Less ==> forall|c: VersionView|
            version_order(b.deep_view(), c) !is Greater ==> #[trigger] version_order(
                a.deep_view(),
                c,
            ) is Less,
        r is Equal ==> forall|c: VersionView| #[trigger]
            version_order(a.deep_view(), c) == version_order(b.deep_view(), c),
        r is Greater ==> forall|c: VersionView|
            version_order(a.deep_view(), c) !is Greater ==> #[trigger] version_order(
                b.deep_view(),
                c,
            ) is Less,
        r is Less ==> forall|c: VersionView|
            version_order(c, a.deep_view()) !is Greater ==> #[trigger] version_order(
                c,
                b.deep_view(),
            ) is Less,
{
    let parts = |p: &Vec<String>| -> CowVec<SmallStackString> {
        p.iter().map(|s| SmallStackString::from_str(s)).collect()
    };
    let convert = |v: &Version| deno_semver::Version {
        major: v.major,
        minor: v.minor,
        patch: v.patch,
        pre: parts(&v.pre),
        build: parts(&v.build),
    };
    match convert(a).cmp(&convert(b)) {
        Ordering::Less => Order::Less,
        Ordering::Equal => Order::Equal,
        Ordering::Greater => Order::Greater,
    }
}

/// Calls `deno_semver::VersionReq::matches`.
///
/// It panics on a tag, so a tag is left out. For a set of ranges the answer is named: it rests on
/// the requirement and on the numbers and the pre-release part of the version.
#[verifier::external_body]
pub(crate) fn version_req_matches(req: &VersionReq, version: &Version) -> (r: bool)
    requires
        requirement_tag(*req) is None,
    ensures
        r == in_range_set(
            *req,
            version.major,
            version.minor,
            version.patch,
            version.pre.deep_view(),
        ),
{
    let parts = |p: &Vec<String>| -> CowVec<SmallStackString> {
        p.iter().map(|s| SmallStackString::from_str(s)).collect()
    };
    req.matches(&deno_semver::Version {
        major: version.major,
        minor: version.minor,
        patch: version.patch,
        pre: parts(&version.pre),
        build: parts(&version.build),
    })
}

/// Calls `deno_semver::VersionReq::tag`: the tag that the requirement names, or nothing where it
/// is a set of ranges.
#[verifier::external_body]
pub(crate) fn version_req_tag(req: &VersionReq) -> (r: Option<&str>)
    ensures
        r.deep_view() == requirement_tag(*req),
{
    req.tag()
}

/// Calls `<deno_semver::package::PackageReq as Ord>::cmp`.
///
/// Believed of it: it compares the names as text; then a tag comes before a set of ranges, two
/// tags stand in descending order, and the order of two sets of ranges is the named result, which
/// is equality for one and the same set. As an `Ord` it is total and transitive, which the last
/// four clauses say of the two arguments and any third requirement.
#[verifier::external_body]
pub(crate) fn compare_package_reqs(a: &PackageReq, b: &PackageReq) -> (r: Order)
    ensures
        r == package_req_order(a.deep_view(), b.deep_view()),
        a.name@ == b.name@ && requirement_tag(a.version_req) is None && requirement_tag(
            b.version_req,
        ) is None && a.version_req != b.version_req ==> r == range_set_order(
            a.version_req,
            b.version_req,
        ),
        package_req_order(b.deep_view(), a.deep_view()) == r.reverse(),
        r is Less ==> forall|c: PackageReqView|
            package_req_order(b.deep_view(), c) !is Greater ==> #[trigger] package_req_order(
                a.deep_view(),
                c,
            ) is Less,
        r is Equal ==> forall|c: PackageReqView| #[trigger]
            package_req_order(a.deep_view(), c) == package_req_order(b.deep_view(), c),
        r is Greater ==> forall|c: PackageReqView|
            package_req_order(a.deep_view(), c) !is Greater ==> #[trigger] package_req_order(
                b.deep_view(),
                c,
            ) is Less,
{
    let convert = |r: &PackageReq| deno_semver::package::PackageReq {
        name: deno_semver::StackString::from_str(&r.name),
        version_req: r.version_req.clone(),
    };
    match convert(a).cmp(&convert(b)) {
        Ordering::Less => Order::Less,
        Ordering::Equal => Order::Equal,
        Ordering::Greater => Order::Greater,
    }
}

/// Calls `<deno_semver::VersionReq as PartialEq>::eq`.
///
/// Believed of it: a tag equals the same tag and no set of ranges; when two sets of ranges are
/// equal is the named result, and a set equals itself. The text that a requirement was written as
/// does not count. As an `Eq` it is symmetric.
#[verifier::external_body]
pub(crate) fn version_reqs_equal(a: &VersionReq, b: &VersionReq) -> (r: bool)
    ensures
        r == same_version_req(*a, *b),
        requirement_tag(*a) is None && requirement_tag(*b) is None && *a != *b ==> r
            == same_range_set(*a, *b),
        same_version_req(*b, *a) == r,
{
    a == b
}

/// The copy that `<deno_semver::VersionReq as Clone>::clone` makes is the same requirement.
pub assume_specification[ <VersionReq as Clone>::clone ](req: &VersionReq) -> (r: VersionReq)
    ensures
        r == *req,
;

fn copy_texts(texts: &Vec<String>) -> (r: Vec<String>)
    ensures
        r.deep_view() == texts.deep_view(),
{
    let mut r: Vec<String> = Vec::new();
    let mut i: usize = 0;
    while i < texts.len()
        invariant
            i <= texts.len(),
            r.len() == i,
            forall|j: int| 0 <= j < i ==> (#[trigger] r[j])@ == texts[j]@,
        decreases texts.len() - i,
    {
        r.push(texts[i].clone());
        i = i + 1;
    }
    assert(r.deep_view() =~= texts.deep_view());
    r
}

fn same_texts(a: &Vec<String>, b: &Vec<String>) -> (r: bool)
    ensures
        r == (a.deep_view() == b.deep_view()),
{
    if a.len() != b.len() {
        assert(a.deep_view().len() != b.deep_view().len());
        return false;
    }
    let mut i: usize = 0;
    while i < a.len()
        invariant
            i <= a.len(),
            a.len() == b.len(),
            forall|j: int| 0 <= j < i ==> (#[trigger] a[j])@ == b[j]@,
        decreases a.len() - i,
    {
        if !same_text(a[i].as_str(), b[i].as_str()) {
            assert(a.deep_view()[i as int] != b.deep_view()[i as int]);
            return false;
        }
        i = i + 1;
    }
    assert(a.deep_view() =~= b.deep_view());
    true
}

impl Clone for Version {
    fn clone(&self) -> (r: Self)
        ensures
            r.deep_view() == self.deep_view(),
    {
        Version {
            major: self.major,
            minor: self.minor,
            patch: self.patch,
            pre: copy_texts(&self.pre),
            build: copy_texts(&self.build),
        }
    }
}

impl Clone for PackageNv {
    fn clone(&self) -> (r: Self)
        ensures
            r.deep_view() == self.deep_view(),
    {
        PackageNv { name: self.name.clone(), version: self.version.clone() }
    }
}

impl Clone for PackageReq {
    fn clone(&self) -> (r: Self)
        ensures
            r.deep_view() == self.deep_view(),
    {
        PackageReq { name: self.name.clone(), version_req: self.version_req.clone() }
    }
}

impl Clone for JsrDepPackageReq {
    fn clone(&self) -> (r: Self)
        ensures
            r.deep_view() == self.deep_view(),
    {
        JsrDepPackageReq { kind: self.kind, req: self.req.clone() }
    }
}

impl PackageNv {
    /// Whether two packages are the same in name and in every part of the version, the build
    /// part too.
    pub fn same(&self, other: &PackageNv) -> (r: bool)
        ensures
            r == (self.deep_view() == other.deep_view()),
    {
        same_text(self.name.as_str(), other.name.as_str()) && self.version.major
            == other.version.major && self.version.minor == other.version.minor
            && self.version.patch == other.version.patch && same_texts(
            &self.version.pre,
            &other.version.pre,
        ) && same_texts(&self.version.build, &other.version.build)
    }
}

impl JsrDepPackageReq {
    /// Whether two constraints are equal.
    pub fn same(&self, other: &JsrDepPackageReq) -> (r: bool)
        ensures
            r == same_dep_req(self.deep_view(), other.deep_view()),
            r == same_dep_req(other.deep_view(), self.deep_view()),
    {
        self.kind == other.kind && same_text(self.req.name.as_str(), other.req.name.as_str())
            && version_reqs_equal(&self.req.version_req, &other.req.version_req)
    }
}

proof fn lemma_nv_order_by_name(a: PackageNvView, b: PackageNvView)
    requires
        text_order(a.name, b.name) is Less,
    ensures
        forall|c: PackageNvView|
            package_nv_order(b, c) !is Greater ==> #[trigger] package_nv_order(a, c) is Less,
{
    assert forall|c: PackageNvView| package_nv_order(
        b,
        c,
    ) !is Greater implies #[trigger] package_nv_order(a, c) is Less by {
        lemma_text_order_equal(a.name, b.name);
        lemma_text_order_equal(b.name, c.name);
        lemma_text_order_below(a.name, b.name, c.name);
        lemma_text_order_equal(a.name, c.name);
    }
}

impl SortKey for PackageNv {
    open spec fn order(a: PackageNvView, b: PackageNvView) -> Order {
        package_nv_order(a, b)
    }

    proof fn order_reflexive(a: PackageNvView) {
    }

    fn compare(&self, other: &Self) -> (r: Order) {
        let names = compare_text(self.name.as_str(), other.name.as_str());
        let ghost a = self.deep_view();
        let ghost b = other.deep_view();
        proof {
            lemma_text_order_equal(a.name, b.name);
            lemma_text_order_dual(a.name, b.name);
        }
        if names != Order::Equal {
            proof {
                if names is Less {
                    lemma_nv_order_by_name(a, b);
                } else {
                    lemma_nv_order_by_name(b, a);
                }
            }
            return names;
        }
        let r = compare_versions(&self.version, &other.version);
        proof {
            assert forall|c: PackageNvView| a.name != c.name implies #[trigger] package_nv_order(
                a,
                c,
            ) !is Equal && package_nv_order(b, c) == package_nv_order(a, c) by {
                lemma_text_order_equal(a.name, c.name);
            }
        }
        r
    }
}

impl SortKey for PackageReq {
    open spec fn order(a: PackageReqView, b: PackageReqView) -> Order {
        package_req_order(a, b)
    }

    proof fn order_reflexive(a: PackageReqView) {
        match requirement_tag(a.version_req) {
            Some(tag) => {
                lemma_text_order_equal(tag, tag);
            },
            None => {},
        }
    }

    fn compare(&self, other: &Self) -> (r: Order) {
        compare_package_reqs(self, other)
    }
}

} // verus!
