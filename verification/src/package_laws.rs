//! What holds of packages, their versions and their metadata, in terms of what they are made of.

use deno_semver::VersionReq;
use serde_json::Value;
use vstd::prelude::*;
use vstd::utf8::encode_utf8;

use crate::json::content_text;
use crate::json::distinct_names;
use crate::json::json_content;
use crate::json::json_members;
use crate::json::member;
use crate::json::JsonContent;
use crate::json::JsonRef;
use crate::json::Members;
use crate::order::bytes_order;
use crate::order::lemma_text_order_equal;
use crate::order::text_order;
use crate::order::Order;
use crate::order::SortKey;
use crate::ordered_map::index_of;
use crate::ordered_map::law_sorted_keys_lead_to_their_values;
use crate::ordered_map::lemma_lookup_after_entry;
use crate::ordered_map::lemma_lower_bound_splits;
use crate::ordered_map::with_key;
use crate::ordered_map::Entries;
use crate::package_specifiers::after_add_dependency;
use crate::package_specifiers::after_add_export;
use crate::package_specifiers::after_add_nv;
use crate::package_specifiers::after_ensure_package;
use crate::package_specifiers::after_step;
use crate::package_specifiers::deps_sum;
use crate::package_specifiers::distinct_deps;
use crate::package_specifiers::is_required;
use crate::package_specifiers::law_added_dependency_is_found;
use crate::package_specifiers::lengths_sum;
use crate::package_specifiers::no_packages;
use crate::package_specifiers::no_use;
use crate::package_specifiers::with_version;
use crate::package_specifiers::PackageNvInfoView;
use crate::package_specifiers::PackageSpecifiersView;
use crate::package_specifiers::Step;
use crate::packages::export_list;
use crate::packages::export_path;
use crate::packages::module_entry;
use crate::packages::text_members;
use crate::packages::ModuleGraphForm;
use crate::semver::in_range_set;
use crate::semver::package_nv_order;
use crate::semver::package_req_order;
use crate::semver::prerelease_order;
use crate::semver::range_set_order;
use crate::semver::requirement_tag;
use crate::semver::same_dep_req;
use crate::semver::same_range_set;
use crate::semver::same_version_req;
use crate::semver::version_order;
use crate::semver::JsrDepPackageReq;
use crate::semver::JsrDepPackageReqView;
use crate::semver::PackageNv;
use crate::semver::PackageNvView;
use crate::semver::PackageReq;
use crate::semver::PackageReqView;
use crate::semver::Version;
use crate::semver::VersionView;
use crate::version_resolution::is_best;
use crate::version_resolution::none_satisfies;

verus! {

proof fn lemma_first_difference(a: Seq<u8>, b: Seq<u8>, n: int)
    requires
        0 <= n <= a.len(),
        n <= b.len(),
        forall|i: int| 0 <= i < n ==> a[i] == b[i],
    ensures
        bytes_order(a, b) == bytes_order(a.skip(n), b.skip(n)),
    decreases n,
{
    if n == 0 {
        assert(a.skip(0) =~= a);
        assert(b.skip(0) =~= b);
    } else {
        assert(a[0] == b[0]);
        assert forall|i: int| 0 <= i < n - 1 implies a.skip(1)[i] == b.skip(1)[i] by {
            assert(a[i + 1] == b[i + 1]);
        }
        lemma_first_difference(a.skip(1), b.skip(1), n - 1);
        assert(a.skip(1).skip(n - 1) =~= a.skip(n));
        assert(b.skip(1).skip(n - 1) =~= b.skip(n));
    }
}

/// Texts are ordered by the first of their UTF-8 bytes in which they differ, and a text comes
/// before those that go on where it ends.
pub proof fn law_texts_are_ordered_by_the_first_difference(a: Seq<char>, b: Seq<char>, n: int)
    requires
        0 <= n <= encode_utf8(a).len(),
        n <= encode_utf8(b).len(),
        forall|i: int| 0 <= i < n ==> encode_utf8(a)[i] == encode_utf8(b)[i],
    ensures
        n < encode_utf8(a).len() && n < encode_utf8(b).len() && encode_utf8(a)[n] < encode_utf8(
            b,
        )[n] ==> text_order(a, b) is Less,
        n < encode_utf8(a).len() && n < encode_utf8(b).len() && encode_utf8(a)[n] > encode_utf8(
            b,
        )[n] ==> text_order(a, b) is Greater,
        n == encode_utf8(a).len() && n < encode_utf8(b).len() ==> text_order(a, b) is Less,
        n < encode_utf8(a).len() && n == encode_utf8(b).len() ==> text_order(a, b) is Greater,
        n == encode_utf8(a).len() && n == encode_utf8(b).len() ==> text_order(a, b) is Equal,
{
    lemma_first_difference(encode_utf8(a), encode_utf8(b), n);
}

/// The first number in which two versions differ decides, major before minor before patch.
pub proof fn law_first_number_that_differs_decides(a: VersionView, b: VersionView)
    ensures
        a.major < b.major ==> version_order(a, b) is Less,
        a.major > b.major ==> version_order(a, b) is Greater,
        a.major == b.major && a.minor < b.minor ==> version_order(a, b) is Less,
        a.major == b.major && a.minor > b.minor ==> version_order(a, b) is Greater,
        a.major == b.major && a.minor == b.minor && a.patch < b.patch ==> version_order(
            a,
            b,
        ) is Less,
        a.major == b.major && a.minor == b.minor && a.patch > b.patch ==> version_order(
            a,
            b,
        ) is Greater,
{
}

/// Of versions with the same numbers a release is above every pre-release, equal pre-release parts
/// compare equal, and others as `deno_semver` orders them. The build part never counts.
pub proof fn law_prereleases_are_below_their_release(
    a: VersionView,
    b: VersionView,
    build: Seq<Seq<char>>,
)
    requires
        a.major == b.major,
        a.minor == b.minor,
        a.patch == b.patch,
    ensures
        a.pre.len() == 0 && b.pre.len() > 0 ==> version_order(a, b) is Greater,
        a.pre.len() > 0 && b.pre.len() == 0 ==> version_order(a, b) is Less,
        a.pre == b.pre ==> version_order(a, b) is Equal,
        a.pre != b.pre && a.pre.len() > 0 && b.pre.len() > 0 ==> version_order(a, b)
            == prerelease_order(a.pre, b.pre),
        version_order(VersionView { build, ..a }, b) == version_order(a, b),
        version_order(a, VersionView { build, ..b }) == version_order(a, b),
{
}

/// Packages are ordered by name, those of one name by version.
pub proof fn law_packages_are_ordered_by_name_first(a: PackageNvView, b: PackageNvView)
    ensures
        a.name != b.name ==> package_nv_order(a, b) == text_order(a.name, b.name),
        a.name == b.name ==> package_nv_order(a, b) == version_order(a.version, b.version),
{
}

/// Sorted collections of texts, packages and requirements go by the orders of those.
pub proof fn law_collections_go_by_the_orders_of_their_keys(
    texts: (Seq<char>, Seq<char>),
    packages: (PackageNvView, PackageNvView),
    requirements: (PackageReqView, PackageReqView),
)
    ensures
        String::order(texts.0, texts.1) == text_order(texts.0, texts.1),
        PackageNv::order(packages.0, packages.1) == package_nv_order(packages.0, packages.1),
        PackageReq::order(requirements.0, requirements.1) == package_req_order(
            requirements.0,
            requirements.1,
        ),
{
}

/// What a record leads to from a key is what stands beside that key.
pub proof fn law_records_lead_from_their_keys(record: PackageSpecifiersView, i: int)
    requires
        record.wf(),
    ensures
        0 <= i < record.package_reqs.keys.len() ==> record.resolved(record.package_reqs.keys[i])
            == Some(record.package_reqs.values[i]),
        0 <= i < record.packages_by_name.keys.len() ==> record.versions(
            record.packages_by_name.keys[i],
        ) == Some(record.packages_by_name.values[i]),
        0 <= i < record.packages.keys.len() ==> record.info(record.packages.keys[i]) == Some(
            record.packages.values[i],
        ),
{
    if 0 <= i < record.package_reqs.keys.len() {
        law_sorted_keys_lead_to_their_values::<PackageReq, PackageNvView>(record.package_reqs, i);
    }
    if 0 <= i < record.packages_by_name.keys.len() {
        law_sorted_keys_lead_to_their_values::<String, Seq<PackageNvView>>(
            record.packages_by_name,
            i,
        );
    }
    if 0 <= i < record.packages.keys.len() {
        law_sorted_keys_lead_to_their_values::<PackageNv, PackageNvInfoView>(record.packages, i);
    }
}

/// What a record leads to is what stands beside an equal key.
pub proof fn law_records_lead_to_what_stands_beside_an_equal_key(
    record: PackageSpecifiersView,
    req: PackageReqView,
    name: Seq<char>,
    nv: PackageNvView,
)
    ensures
        record.resolved(req) matches Some(found) ==> exists|i: int|
            0 <= i < record.package_reqs.keys.len() && package_req_order(
                #[trigger] record.package_reqs.keys[i],
                req,
            ) is Equal && record.package_reqs.values[i] == found,
        record.versions(name) matches Some(found) ==> exists|i: int|
            0 <= i < record.packages_by_name.keys.len()
                && #[trigger] record.packages_by_name.keys[i] == name
                && record.packages_by_name.values[i] == found,
        record.info(nv) matches Some(found) ==> exists|i: int|
            0 <= i < record.packages.keys.len() && package_nv_order(
                #[trigger] record.packages.keys[i],
                nv,
            ) is Equal && record.packages.values[i] == found,
{
    if let Some(i) = index_of::<PackageReq>(record.package_reqs.keys, req) {
        assert(package_req_order(record.package_reqs.keys[i], req) is Equal);
    }
    if let Some(i) = index_of::<String>(record.packages_by_name.keys, name) {
        lemma_text_order_equal(record.packages_by_name.keys[i], name);
        assert(record.packages_by_name.keys[i] == name);
    }
    if let Some(i) = index_of::<PackageNv>(record.packages.keys, nv) {
        assert(package_nv_order(record.packages.keys[i], nv) is Equal);
    }
}

/// Requirements are ordered by name. Of those on one name tags come first, in descending order, and
/// then the sets of ranges, as `deno_semver` orders them.
pub proof fn law_requirements_are_ordered_by_name_first(a: PackageReqView, b: PackageReqView)
    ensures
        a.name != b.name ==> package_req_order(a, b) == text_order(a.name, b.name),
        a.name == b.name ==> {
            let left = requirement_tag(a.version_req);
            let right = requirement_tag(b.version_req);
            let order = package_req_order(a, b);
            &&& left is Some && right is None ==> order is Less
            &&& left is None && right is Some ==> order is Greater
            &&& left is Some && right is Some ==> order == text_order(right->0, left->0)
            &&& left is None && right is None && a.version_req == b.version_req ==> order is Equal
            &&& left is None && right is None && a.version_req != b.version_req ==> order
                == range_set_order(a.version_req, b.version_req)
        },
{
}

/// Two version requirements are equal exactly where they name the same tag, or are both sets of
/// ranges that are one and the same or that `deno_semver` takes for equal.
pub proof fn law_version_requirements_are_equal_by_what_they_admit(a: VersionReq, b: VersionReq)
    ensures
        same_version_req(a, a),
        requirement_tag(a) is Some && requirement_tag(b) is Some ==> (same_version_req(a, b)
            <==> requirement_tag(a) == requirement_tag(b)),
        requirement_tag(a) is Some != requirement_tag(b) is Some ==> !same_version_req(a, b),
        requirement_tag(a) is None && requirement_tag(b) is None && a != b ==> (same_version_req(
            a,
            b,
        ) <==> same_range_set(a, b)),
{
}

/// Two constraints are the same dependency only where kind, name and version requirement are all
/// equal, whichever registry they are on; and then they are.
pub proof fn law_same_dependency_agrees_in_everything(
    a: JsrDepPackageReqView,
    b: JsrDepPackageReqView,
)
    ensures
        same_dep_req(a, b) ==> a.kind == b.kind,
        same_dep_req(a, b) ==> a.req.name == b.req.name,
        same_dep_req(a, b) ==> same_version_req(a.req.version_req, b.req.version_req),
        a.kind == b.kind && a.req.name == b.req.name && same_version_req(
            a.req.version_req,
            b.req.version_req,
        ) ==> same_dep_req(a, b),
{
}

/// A constraint that was recorded for a package is listed there: with that kind, that name and an
/// equal version requirement, whatever else is listed. Another constraint is listed as it was.
pub proof fn law_recorded_constraint_is_listed(
    before: PackageSpecifiersView,
    nv: PackageNvView,
    dep: JsrDepPackageReqView,
    other: JsrDepPackageReqView,
)
    requires
        before.wf(),
        before.info(nv) is Some,
    ensures
        after_add_dependency(before, nv, dep).info(nv) is Some,
        ({
            let was = (before.info(nv)->0).found_dependencies;
            let is = (after_add_dependency(before, nv, dep).info(nv)->0).found_dependencies;
            let listed = exists|i: int|
                0 <= i < was.len() && (#[trigger] was[i]).kind == dep.kind && was[i].req.name
                    == dep.req.name && same_version_req(
                    was[i].req.version_req,
                    dep.req.version_req,
                );
            &&& exists|i: int|
                0 <= i < is.len() && (#[trigger] is[i]).kind == dep.kind && is[i].req.name
                    == dep.req.name && same_version_req(is[i].req.version_req, dep.req.version_req)
            &&& listed ==> is == was
            &&& !listed ==> is == was.push(dep)
            &&& was.contains(other) ==> is.contains(other)
            &&& is.contains(other) ==> was.contains(other) || other == dep
        }),
{
    law_added_dependency_is_found(before, nv, dep);
    let was = (before.info(nv)->0).found_dependencies;
    let is = (after_add_dependency(before, nv, dep).info(nv)->0).found_dependencies;
    let i = choose|i: int| 0 <= i < is.len() && #[trigger] same_dep_req(is[i], dep);
    assert(is[i].kind == dep.kind);
    if exists|j: int| 0 <= j < was.len() && #[trigger] same_dep_req(was[j], dep) {
        let j = choose|j: int| 0 <= j < was.len() && #[trigger] same_dep_req(was[j], dep);
        assert(was[j].kind == dep.kind);
    } else {
        assert forall|j: int|
            0 <= j < was.len() && (#[trigger] was[j]).kind == dep.kind && was[j].req.name
                == dep.req.name implies !same_version_req(
            was[j].req.version_req,
            dep.req.version_req,
        ) by {
            assert(!same_dep_req(was[j], dep));
        }
        if was.contains(other) {
            let j = choose|j: int| 0 <= j < was.len() && was[j] == other;
            assert(is[j] == other);
        }
    }
}

/// Whether `deno_semver` finds that a requirement admits a version.
pub open spec fn admits(req: VersionReq, version: VersionView) -> bool {
    in_range_set(req, version.major, version.minor, version.patch, version.pre)
}

/// No version is found exactly where `deno_semver` admits none of them, pre-release or not.
pub proof fn law_a_version_is_found_where_one_is_admitted(
    req: VersionReq,
    versions: Seq<VersionView>,
    i: int,
)
    requires
        0 <= i < versions.len(),
    ensures
        none_satisfies(req, versions) ==> !in_range_set(
            req,
            versions[i].major,
            versions[i].minor,
            versions[i].patch,
            versions[i].pre,
        ),
        (forall|j: int| 0 <= j < versions.len() ==> !(#[trigger] admits(req, versions[j])))
            ==> none_satisfies(req, versions),
{
    if none_satisfies(req, versions) {
        assert(!crate::semver::satisfies(req, versions[i]));
    }
    if forall|j: int| 0 <= j < versions.len() ==> !(#[trigger] admits(req, versions[j])) {
        assert forall|j: int| 0 <= j < versions.len() implies !(
        #[trigger] crate::semver::satisfies(req, versions[j])) by {
            assert(!admits(req, versions[j]));
        }
    }
}

/// The version to resolve to is one that `deno_semver` admits, and no version that it admits is
/// above it, or equal and before it. Whatever has that property is the version to resolve to.
pub proof fn law_best_version_is_the_highest_admitted(
    req: VersionReq,
    versions: Seq<VersionView>,
    best: int,
)
    requires
        0 <= best < versions.len(),
    ensures
        is_best(req, versions, best) <==> admits(req, versions[best]) && (forall|i: int|
            0 <= i < versions.len() && #[trigger] admits(req, versions[i]) ==> version_order(
                versions[best],
                versions[i],
            ) !is Less) && (forall|i: int|
            0 <= i < best && #[trigger] admits(req, versions[i]) ==> version_order(
                versions[i],
                versions[best],
            ) is Less),
{
    assert forall|i: int| 0 <= i < versions.len() implies #[trigger] admits(req, versions[i])
        == crate::semver::satisfies(req, versions[i]) by {}
    if is_best(req, versions, best) {
        assert forall|i: int|
            0 <= i < versions.len() && #[trigger] admits(req, versions[i]) implies version_order(
            versions[best],
            versions[i],
        ) !is Less by {
            assert(crate::semver::satisfies(req, versions[i]));
        }
        assert forall|i: int|
            0 <= i < best && #[trigger] admits(req, versions[i]) implies version_order(
            versions[i],
            versions[best],
        ) is Less by {
            assert(crate::semver::satisfies(req, versions[i]));
        }
    } else if admits(req, versions[best]) && (forall|i: int|
        0 <= i < versions.len() && #[trigger] admits(req, versions[i]) ==> version_order(
            versions[best],
            versions[i],
        ) !is Less) && (forall|i: int|
        0 <= i < best && #[trigger] admits(req, versions[i]) ==> version_order(
            versions[i],
            versions[best],
        ) is Less) {
        assert forall|i: int|
            0 <= i < versions.len() && #[trigger] crate::semver::satisfies(
                req,
                versions[i],
            ) implies version_order(versions[best], versions[i]) !is Less by {
            assert(admits(req, versions[i]));
        }
        assert forall|i: int|
            0 <= i < best && #[trigger] crate::semver::satisfies(
                req,
                versions[i],
            ) implies version_order(versions[i], versions[best]) is Less by {
            assert(admits(req, versions[i]));
        }
    }
}

proof fn lemma_member_at(members: Members, name: Seq<char>, i: int)
    requires
        0 <= i < members.len(),
        members[i].0 == name,
        forall|j: int| 0 <= j < i ==> (#[trigger] members[j]).0 != name,
    ensures
        member(members, name) == Some(members[i].1),
    decreases members.len(),
{
    if i > 0 {
        assert(members[0].0 != name);
        assert forall|j: int| 0 <= j < i - 1 implies (#[trigger] members.skip(1)[j]).0 != name by {
            assert(members.skip(1)[j] == members[j + 1]);
        }
        lemma_member_at(members.skip(1), name, i - 1);
    }
}

proof fn lemma_no_member(members: Members, name: Seq<char>)
    requires
        forall|j: int| 0 <= j < members.len() ==> (#[trigger] members[j]).0 != name,
    ensures
        member(members, name) is None,
    decreases members.len(),
{
    if members.len() > 0 {
        assert(members[0].0 != name);
        assert forall|j: int| 0 <= j < members.skip(1).len() implies (
        #[trigger] members.skip(1)[j]).0 != name by {
            assert(members.skip(1)[j] == members[j + 1]);
        }
        lemma_no_member(members.skip(1), name);
    }
}

proof fn lemma_graph_entry(members: Members, specifier: Seq<char>)
    ensures
        member(members, specifier) is Some <==> exists|j: int|
            0 <= j < members.len() && (#[trigger] members[j]).0 == specifier,
        forall|i: int|
            0 <= i < members.len() && (#[trigger] members[i]).0 == specifier && (forall|j: int|
                0 <= j < i ==> (#[trigger] members[j]).0 != specifier) ==> member(
                members,
                specifier,
            ) == Some(members[i].1),
{
    assert forall|i: int|
        0 <= i < members.len() && (#[trigger] members[i]).0 == specifier && (forall|j: int|
            0 <= j < i ==> (#[trigger] members[j]).0 != specifier) implies member(
        members,
        specifier,
    ) == Some(members[i].1) by {
        lemma_member_at(members, specifier, i);
    }
    if exists|j: int| 0 <= j < members.len() && (#[trigger] members[j]).0 == specifier {
        let j = choose|j: int| 0 <= j < members.len() && (#[trigger] members[j]).0 == specifier;
        lemma_some_member(members, specifier, j);
    } else {
        lemma_no_member(members, specifier);
    }
}

/// Whether an entry is what a graph holds of a module: the value of the member of its name,
/// whatever that value holds, and nothing where the graph is not an object or has no such member.
pub open spec fn is_entry_of(
    entry: Option<(ModuleGraphForm, Value)>,
    form: ModuleGraphForm,
    graph: JsonContent,
    specifier: Seq<char>,
) -> bool {
    match graph {
        JsonContent::Object(members) => {
            &&& entry is Some <==> exists|j: int|
                0 <= j < members.len() && (#[trigger] members[j]).0 == specifier
            &&& forall|i: int|
                0 <= i < members.len() && (#[trigger] members[i]).0 == specifier && (forall|j: int|
                    0 <= j < i ==> (#[trigger] members[j]).0 != specifier) ==> entry == Some(
                    (form, members[i].1),
                )
        },
        _ => entry is None,
    }
}

/// A module is in a graph exactly where the graph is an object with a member of its name, and its
/// entry is that member's value, whatever the value holds. The second graph is the one that is
/// looked at where there is one, and else the first.
pub proof fn law_module_is_found_by_its_name(
    first: Option<Value>,
    second: Option<Value>,
    specifier: Seq<char>,
)
    ensures
        first is None && second is None ==> module_entry(first, second, specifier) is None,
        second matches Some(graph) ==> is_entry_of(
            module_entry(first, second, specifier),
            ModuleGraphForm::Second,
            json_content(graph),
            specifier,
        ),
        second is None ==> (first matches Some(graph) ==> is_entry_of(
            module_entry(first, second, specifier),
            ModuleGraphForm::First,
            json_content(graph),
            specifier,
        )),
{
    if let Some(graph) = first {
        if let JsonContent::Object(members) = json_content(graph) {
            lemma_graph_entry(members, specifier);
        }
    }
    if let Some(graph) = second {
        if let JsonContent::Object(members) = json_content(graph) {
            lemma_graph_entry(members, specifier);
        }
    }
}

proof fn lemma_some_member(members: Members, name: Seq<char>, i: int)
    requires
        0 <= i < members.len(),
        members[i].0 == name,
    ensures
        member(members, name) is Some,
    decreases members.len(),
{
    if members[0].0 != name {
        assert(members.skip(1)[i - 1] == members[i]);
        lemma_some_member(members.skip(1), name, i - 1);
    }
}

/// An export name leads to a path exactly where the exports are that path and the name is `.`, or
/// where they are an object with a member of that name that is the path as text.
pub proof fn law_export_is_the_text_under_its_name(
    exports: JsonContent,
    name: Seq<char>,
    path: Seq<char>,
)
    requires
        exports matches JsonContent::Object(members) ==> distinct_names(members),
    ensures
        exports matches JsonContent::Text(text) ==> (export_path(exports, name) == Some(path)
            <==> name == "."@ && path == text),
        exports matches JsonContent::Object(members) ==> (export_path(exports, name) == Some(path)
            <==> exists|i: int|
            0 <= i < members.len() && (#[trigger] members[i]).0 == name && json_content(
                members[i].1,
            ) == JsonContent::Text(path)),
        exports is Other ==> export_path(exports, name) is None,
{
    reveal_strlit(".");
    assert("."@ =~= seq!['.']);
    if let JsonContent::Object(members) = exports {
        if exists|i: int| 0 <= i < members.len() && (#[trigger] members[i]).0 == name {
            let i = choose|i: int| 0 <= i < members.len() && (#[trigger] members[i]).0 == name;
            assert forall|j: int| 0 <= j < i implies (#[trigger] members[j]).0 != name by {
                assert(members[j].0 != members[i].0);
            }
            lemma_member_at(members, name, i);
            assert forall|j: int| 0 <= j < members.len() && (#[trigger] members[j]).0 == name
                implies j == i by {
                if j < i {
                    assert(members[j].0 != members[i].0);
                } else if i < j {
                    assert(members[i].0 != members[j].0);
                }
            }
        } else {
            lemma_no_member(members, name);
        }
    }
}

/// How many of some members are text.
pub open spec fn texts_among(members: Members) -> nat
    decreases members.len(),
{
    if members.len() == 0 {
        0
    } else {
        texts_among(members.drop_last()) + if json_content(members.last().1) is Text {
            1nat
        } else {
            0
        }
    }
}

proof fn lemma_number_of_texts(members: Members)
    ensures
        text_members(members).len() == texts_among(members),
    decreases members.len(),
{
    if members.len() > 0 {
        lemma_number_of_texts(members.drop_last());
    }
}

proof fn lemma_text_member_stands(members: Members, i: int)
    requires
        0 <= i < members.len(),
    ensures
        texts_among(members.take(i)) <= texts_among(members),
        json_content(members[i].1) is Text ==> texts_among(members.take(i)) < texts_among(members)
            && text_members(members)[texts_among(members.take(i)) as int] == (
            members[i].0,
            json_content(members[i].1)->Text_0,
        ),
    decreases members.len(),
{
    let front = members.drop_last();
    lemma_number_of_texts(front);
    if i < front.len() {
        assert(members.take(i) =~= front.take(i));
        assert(front[i] == members[i]);
        lemma_text_member_stands(front, i);
    } else {
        assert(members.take(i) =~= front);
    }
}

/// The list of exports is the one path under `.`, or every member that is text, with its name,
/// behind as many others as there are such members before it.
pub proof fn law_exports_list_every_text_in_its_order(exports: JsonContent, i: int)
    ensures
        exports matches JsonContent::Text(text) ==> export_list(exports) == seq![("."@, text)],
        exports is Other ==> export_list(exports).len() == 0,
        exports matches JsonContent::Object(members) ==> export_list(exports).len() == texts_among(
            members,
        ),
        exports matches JsonContent::Object(members) ==> (0 <= i < members.len() && json_content(
            members[i].1,
        ) is Text ==> texts_among(members.take(i)) < texts_among(members) && export_list(
            exports,
        )[texts_among(members.take(i)) as int] == (
            members[i].0,
            json_content(members[i].1)->Text_0,
        )),
{
    reveal_strlit(".");
    assert("."@ =~= seq!['.']);
    if let JsonContent::Object(members) = exports {
        lemma_number_of_texts(members);
        if 0 <= i < members.len() {
            lemma_text_member_stands(members, i);
        }
    }
}

/// A value that was taken apart holds what it was taken apart into.
pub proof fn law_values_are_taken_apart_whole(text: &str, map: &serde_json::Map<String, Value>)
    ensures
        JsonRef::Text(text).content() == JsonContent::Text(text@),
        JsonRef::Object(map).content() == JsonContent::Object(json_members(*map)),
        JsonRef::Other.content() is Other,
        content_text(JsonContent::Text(text@)) == Some(text@),
        content_text(JsonContent::Object(json_members(*map))) is None,
        content_text(JsonContent::Other) is None,
{
}

/// A new record holds nothing, and neither does that of a new package.
pub proof fn law_new_records_are_empty()
    ensures
        no_packages().package_reqs.keys.len() == 0,
        no_packages().package_reqs.values.len() == 0,
        no_packages().packages_by_name.keys.len() == 0,
        no_packages().packages_by_name.values.len() == 0,
        no_packages().packages.keys.len() == 0,
        no_packages().packages.values.len() == 0,
        no_packages().top_level_packages.len() == 0,
        no_packages().used_yanked_packages.len() == 0,
        no_use().exports.keys.len() == 0,
        no_use().exports.values.len() == 0,
        no_use().found_dependencies.len() == 0,
{
}

/// A version is added behind those that are there, unless it is among them.
pub proof fn law_versions_are_added_at_the_end(list: Seq<PackageNvView>, nv: PackageNvView)
    ensures
        with_version(None, nv) == seq![nv],
        list.contains(nv) ==> with_version(Some(list), nv) == list,
        !list.contains(nv) ==> with_version(Some(list), nv) == list.push(nv),
{
}

/// Resolving a requirement changes what it is mapped to and the versions of its name, and nothing
/// of what the graph uses.
pub proof fn law_resolving_changes_no_package(
    before: PackageSpecifiersView,
    req: PackageReqView,
    nv: PackageNvView,
)
    requires
        before.wf(),
    ensures
        ({
            let after = after_add_nv(before, req, nv);
            &&& after.packages == before.packages
            &&& after.top_level_packages == before.top_level_packages
            &&& after.used_yanked_packages == before.used_yanked_packages
            &&& after.resolved(req) == Some(nv)
            &&& before.versions(req.name) is None ==> after.versions(req.name) == Some(seq![nv])
            &&& before.versions(req.name) matches Some(list) ==> (list.contains(nv)
                ==> after.versions(req.name) == Some(list)) && (!list.contains(nv)
                ==> after.versions(req.name) == Some(list.push(nv)))
            &&& after_step(before, Step::AddNv { req, nv }) == after
        }),
{
    lemma_lookup_after_entry::<PackageReq, PackageNvView>(before.package_reqs, req, nv);
    lemma_lookup_after_entry::<String, Seq<PackageNvView>>(
        before.packages_by_name,
        req.name,
        with_version(before.versions(req.name), nv),
    );
}

/// Finding a package changes no requirement, no version list and no set, and nothing at all where
/// the package was found before.
pub proof fn law_finding_a_package_changes_no_requirement(
    before: PackageSpecifiersView,
    nv: PackageNvView,
)
    requires
        before.wf(),
    ensures
        ({
            let after = after_ensure_package(before, nv);
            &&& after.package_reqs == before.package_reqs
            &&& after.packages_by_name == before.packages_by_name
            &&& after.top_level_packages == before.top_level_packages
            &&& after.used_yanked_packages == before.used_yanked_packages
            &&& before.info(nv) is Some ==> after == before
            &&& before.info(nv) is None ==> after.info(nv) == Some(no_use())
                && after.packages.keys.len() == before.packages.keys.len() + 1
            &&& after_step(before, Step::EnsurePackage { nv }) == after
        }),
{
    lemma_lookup_after_entry::<PackageNv, PackageNvInfoView>(before.packages, nv, no_use());
    lemma_lower_bound_splits::<PackageNv>(before.packages.keys, nv);
}

/// Recording a dependency or an export changes the one package it is recorded of, and of that only
/// the list it goes into.
pub proof fn law_recording_use_changes_one_package(
    before: PackageSpecifiersView,
    nv: PackageNvView,
    dep: JsrDepPackageReqView,
    name: Seq<char>,
    path: Seq<char>,
    i: int,
)
    requires
        before.wf(),
        before.info(nv) is Some,
        0 <= i < before.packages.keys.len(),
    ensures
        ({
            let after = after_add_dependency(before, nv, dep);
            &&& after.package_reqs == before.package_reqs
            &&& after.packages_by_name == before.packages_by_name
            &&& after.top_level_packages == before.top_level_packages
            &&& after.used_yanked_packages == before.used_yanked_packages
            &&& after.packages.keys == before.packages.keys
            &&& index_of::<PackageNv>(before.packages.keys, nv) != Some(i)
                ==> after.packages.values[i] == before.packages.values[i]
            &&& after.packages.values[i].exports == before.packages.values[i].exports
            &&& after_step(before, Step::AddDependency { nv, dep }) == after
        }),
        ({
            let after = after_add_export(before, nv, name, path);
            &&& after.package_reqs == before.package_reqs
            &&& after.packages_by_name == before.packages_by_name
            &&& after.top_level_packages == before.top_level_packages
            &&& after.used_yanked_packages == before.used_yanked_packages
            &&& after.packages.keys == before.packages.keys
            &&& index_of::<PackageNv>(before.packages.keys, nv) != Some(i)
                ==> after.packages.values[i] == before.packages.values[i]
            &&& after.packages.values[i].found_dependencies
                == before.packages.values[i].found_dependencies
            &&& after_step(before, Step::AddExport { nv, name, path }) == after
        }),
{
    lemma_lower_bound_splits::<PackageNv>(before.packages.keys, nv);
}

/// A package that was marked is among those marked, and no other record is touched.
pub proof fn law_marking_a_package_changes_one_set(
    before: PackageSpecifiersView,
    nv: PackageNvView,
)
    ensures
        ({
            let after = after_step(before, Step::AddTopLevelPackage { nv });
            &&& index_of::<PackageNv>(after.top_level_packages, nv) is Some
            &&& after.top_level_packages == with_key::<PackageNv>(before.top_level_packages, nv)
            &&& after.used_yanked_packages == before.used_yanked_packages
            &&& after.packages == before.packages
            &&& after.package_reqs == before.package_reqs
            &&& after.packages_by_name == before.packages_by_name
        }),
        ({
            let after = after_step(before, Step::AddUsedYankedPackage { nv });
            &&& index_of::<PackageNv>(after.used_yanked_packages, nv) is Some
            &&& after.used_yanked_packages == with_key::<PackageNv>(before.used_yanked_packages, nv)
            &&& after.top_level_packages == before.top_level_packages
            &&& after.packages == before.packages
            &&& after.package_reqs == before.package_reqs
            &&& after.packages_by_name == before.packages_by_name
        }),
{
    let top = before.top_level_packages;
    let yanked = before.used_yanked_packages;
    lemma_lookup_after_entry::<PackageNv, PackageNvView>(
        Entries { keys: top, values: top },
        nv,
        nv,
    );
    lemma_lookup_after_entry::<PackageNv, PackageNvView>(
        Entries { keys: yanked, values: yanked },
        nv,
        nv,
    );
}

/// Lengths of lists add up: none come to nothing, one to its length, and two runs of lists to the
/// sum of both.
pub proof fn law_lengths_add_up(
    first: Seq<(PackageNvView, Seq<JsrDepPackageReqView>)>,
    second: Seq<(PackageNvView, Seq<JsrDepPackageReqView>)>,
    nv: PackageNvView,
    deps: Seq<JsrDepPackageReqView>,
)
    ensures
        lengths_sum(Seq::empty()) == 0,
        lengths_sum(seq![(nv, deps)]) == deps.len(),
        lengths_sum(first + second) == lengths_sum(first) + lengths_sum(second),
    decreases second.len(),
{
    let one = seq![(nv, deps)];
    assert(one.drop_last() =~= Seq::empty());
    assert(lengths_sum(one.drop_last()) == 0);
    if second.len() == 0 {
        assert(first + second =~= first);
    } else {
        law_lengths_add_up(first, second.drop_last(), nv, deps);
        assert((first + second).drop_last() =~= first + second.drop_last());
    }
}

/// Dependencies add up over packages as their numbers do.
pub proof fn law_dependencies_add_up(
    first: Seq<PackageNvInfoView>,
    second: Seq<PackageNvInfoView>,
    info: PackageNvInfoView,
)
    ensures
        deps_sum(Seq::empty()) == 0,
        deps_sum(seq![info]) == info.found_dependencies.len(),
        deps_sum(first + second) == deps_sum(first) + deps_sum(second),
    decreases second.len(),
{
    let one = seq![info];
    assert(one.drop_last() =~= Seq::empty());
    assert(deps_sum(one.drop_last()) == 0);
    if second.len() == 0 {
        assert(first + second =~= first);
    } else {
        law_dependencies_add_up(first, second.drop_last(), info);
        assert((first + second).drop_last() =~= first + second.drop_last());
    }
}

/// A name is required exactly where one of the requirements is on it.
pub proof fn law_required_names_are_those_of_requirements(
    package_reqs: Entries<PackageReqView, PackageNvView>,
    name: Seq<char>,
)
    ensures
        is_required(package_reqs, name) <==> package_reqs.keys.map_values(
            |req: PackageReqView| req.name,
        ).contains(name),
{
    let names = package_reqs.keys.map_values(|req: PackageReqView| req.name);
    if is_required(package_reqs, name) {
        let i = choose|i: int|
            0 <= i < package_reqs.keys.len() && (#[trigger] package_reqs.keys[i]).name == name;
        assert(names[i] == name);
    }
    if names.contains(name) {
        let i = choose|i: int| 0 <= i < names.len() && names[i] == name;
        assert(package_reqs.keys[i].name == name);
    }
}

/// The views of versions, packages and constraints show every field as it is.
pub proof fn law_packages_are_shown_as_they_are(
    version: Version,
    nv: PackageNv,
    req: PackageReq,
    dep: JsrDepPackageReq,
)
    ensures
        version.deep_view().major == version.major,
        version.deep_view().minor == version.minor,
        version.deep_view().patch == version.patch,
        version.deep_view().pre.len() == version.pre@.len(),
        forall|i: int|
            0 <= i < version.pre@.len() ==> #[trigger] version.deep_view().pre[i]
                == version.pre@[i]@,
        version.deep_view().build.len() == version.build@.len(),
        forall|i: int|
            0 <= i < version.build@.len() ==> #[trigger] version.deep_view().build[i]
                == version.build@[i]@,
        nv.deep_view().name == nv.name@,
        nv.deep_view().version == nv.version.deep_view(),
        req.deep_view().name == req.name@,
        req.deep_view().version_req == req.version_req,
        dep.deep_view().kind == dep.kind,
        dep.deep_view().req == dep.req.deep_view(),
{
}

/// Two constraints of a list without equal ones differ in kind, in name or in what they require of
/// the version.
pub proof fn law_distinct_constraints_differ_in_something(
    deps: Seq<JsrDepPackageReqView>,
    i: int,
    j: int,
)
    requires
        distinct_deps(deps),
        0 <= i < deps.len(),
        0 <= j < deps.len(),
        i != j,
    ensures
        deps[i].kind != deps[j].kind || deps[i].req.name != deps[j].req.name || !same_version_req(
            deps[i].req.version_req,
            deps[j].req.version_req,
        ),
{
    assert(!same_dep_req(deps[i], deps[j]));
}

/// Exchanging the sides turns before into behind and leaves equal equal.
pub proof fn law_turning_an_order_round_twice_changes_nothing(order: Order)
    ensures
        order.reverse().reverse() == order,
        order is Less <==> order.reverse() is Greater,
        order is Equal <==> order.reverse() is Equal,
{
}

} // verus!
