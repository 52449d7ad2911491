//! The JSR packages that a module graph uses.

use vstd::prelude::*;

use crate::order::lemma_text_order_equal;
use crate::order::text_order;
use crate::order::SortKey;
use crate::ordered_map::entries_wf;
use crate::ordered_map::index_of;
use crate::ordered_map::law_text_map_insert;
use crate::ordered_map::law_the_last_value_of_a_key_wins;
use crate::ordered_map::lemma_entries_after_entry;
use crate::ordered_map::lemma_lookup_after_entry;
use crate::ordered_map::lemma_lower_bound;
use crate::ordered_map::lemma_lower_bound_splits;
use crate::ordered_map::lemma_values_after_entry;
use crate::ordered_map::lookup;
use crate::ordered_map::lower_bound;
use crate::ordered_map::no_entries;
use crate::ordered_map::same_but;
use crate::ordered_map::sorted;
use crate::ordered_map::text_map;
use crate::ordered_map::with_entry;
use crate::ordered_map::with_key;
use crate::ordered_map::Entries;
use crate::ordered_map::OrderedMap;
use crate::ordered_map::OrderedSet;
use crate::semver::package_nv_order;
use crate::semver::package_req_order;
use crate::semver::same_dep_req;
use crate::semver::JsrDepPackageReq;
use crate::semver::JsrDepPackageReqView;
use crate::semver::PackageNv;
use crate::semver::PackageNvView;
use crate::semver::PackageReq;
use crate::semver::PackageReqView;

verus! {

/// What the graph uses of one package.
#[derive(Clone, Debug)]
struct PackageNvInfo {
    /// Collection of exports used.
    exports: OrderedMap<String, String>,
    /// The dependencies found, no two of them equal, in the order they were found.
    found_dependencies: Vec<JsrDepPackageReq>,
}

/// What is recorded of one package.
pub struct PackageNvInfoView {
    pub exports: Entries<Seq<char>, Seq<char>>,
    pub found_dependencies: Seq<JsrDepPackageReqView>,
}

impl DeepView for PackageNvInfo {
    type V = PackageNvInfoView;

    closed spec fn deep_view(&self) -> PackageNvInfoView {
        PackageNvInfoView {
            exports: self.exports.deep_view(),
            found_dependencies: self.found_dependencies.deep_view(),
        }
    }
}

/// The JSR packages that a module graph uses.
#[derive(Clone, Debug)]
pub struct PackageSpecifiers {
    package_reqs: OrderedMap<PackageReq, PackageNv>,
    packages_by_name: OrderedMap<String, Vec<PackageNv>>,
    packages: OrderedMap<PackageNv, PackageNvInfo>,
    /// Cache for packages that have a referrer outside JSR.
    top_level_packages: OrderedSet<PackageNv>,
    used_yanked_packages: OrderedSet<PackageNv>,
}

/// What is recorded of the packages that a module graph uses.
pub struct PackageSpecifiersView {
    /// The package that each requirement was resolved to.
    pub package_reqs: Entries<PackageReqView, PackageNvView>,
    /// The packages that the requirements on a name were resolved to.
    pub packages_by_name: Entries<Seq<char>, Seq<PackageNvView>>,
    /// What the graph uses of each package.
    pub packages: Entries<PackageNvView, PackageNvInfoView>,
    /// The packages that have a referrer outside JSR.
    pub top_level_packages: Seq<PackageNvView>,
    /// The yanked packages in use.
    pub used_yanked_packages: Seq<PackageNvView>,
}

impl DeepView for PackageSpecifiers {
    type V = PackageSpecifiersView;

    closed spec fn deep_view(&self) -> PackageSpecifiersView {
        PackageSpecifiersView {
            package_reqs: self.package_reqs.deep_view(),
            packages_by_name: self.packages_by_name.deep_view(),
            packages: self.packages.deep_view(),
            top_level_packages: self.top_level_packages.deep_view(),
            used_yanked_packages: self.used_yanked_packages.deep_view(),
        }
    }
}

/// Whether no two of the constraints are equal.
pub open spec fn distinct_deps(deps: Seq<JsrDepPackageReqView>) -> bool {
    forall|i: int, j: int|
        0 <= i < deps.len() && 0 <= j < deps.len() && i != j ==> !(#[trigger] same_dep_req(
            deps[i],
            deps[j],
        ))
}

/// Whether the record of one package is sound: its exports sorted, its dependencies distinct.
pub open spec fn info_wf(info: PackageNvInfoView) -> bool {
    &&& entries_wf::<String, Seq<char>>(info.exports)
    &&& distinct_deps(info.found_dependencies)
}

/// Whether some requirement that was resolved is on a name.
pub open spec fn is_required(
    package_reqs: Entries<PackageReqView, PackageNvView>,
    name: Seq<char>,
) -> bool {
    exists|i: int|
        0 <= i < package_reqs.keys.len() && (#[trigger] package_reqs.keys[i]).name == name
}

impl PackageSpecifiersView {
    /// Every map and set is sorted, the list of versions of a name is not empty and holds none
    /// twice, there is a requirement on every name that has such a list, the package that a
    /// requirement was resolved to is listed under the requirement's name, and the record of every
    /// package is sound.
    pub open spec fn wf(self) -> bool {
        &&& entries_wf::<PackageReq, PackageNvView>(self.package_reqs)
        &&& entries_wf::<String, Seq<PackageNvView>>(self.packages_by_name)
        &&& entries_wf::<PackageNv, PackageNvInfoView>(self.packages)
        &&& sorted::<PackageNv>(self.top_level_packages)
        &&& sorted::<PackageNv>(self.used_yanked_packages)
        &&& forall|i: int|
            0 <= i < self.packages_by_name.values.len() ==> (
            #[trigger] self.packages_by_name.values[i]).no_duplicates()
                && self.packages_by_name.values[i].len() > 0
        &&& forall|i: int|
            0 <= i < self.packages_by_name.keys.len() ==> #[trigger] is_required(
                self.package_reqs,
                self.packages_by_name.keys[i],
            )
        &&& forall|i: int|
            0 <= i < self.package_reqs.keys.len() ==> self.lists(
                (#[trigger] self.package_reqs.keys[i]).name,
                self.package_reqs.values[i],
            )
        &&& forall|i: int|
            0 <= i < self.packages.values.len() ==> info_wf(#[trigger] self.packages.values[i])
    }

    /// The package that a requirement was resolved to.
    pub open spec fn resolved(self, req: PackageReqView) -> Option<PackageNvView> {
        lookup::<PackageReq, PackageNvView>(self.package_reqs, req)
    }

    /// The packages that the requirements on a name were resolved to, in the order they came.
    pub open spec fn versions(self, name: Seq<char>) -> Option<Seq<PackageNvView>> {
        lookup::<String, Seq<PackageNvView>>(self.packages_by_name, name)
    }

    /// Whether a package is among those that the requirements on a name were resolved to.
    pub open spec fn lists(self, name: Seq<char>, nv: PackageNvView) -> bool {
        self.versions(name) matches Some(list) && list.contains(nv)
    }

    /// What is recorded of a package.
    pub open spec fn info(self, nv: PackageNvView) -> Option<PackageNvInfoView> {
        lookup::<PackageNv, PackageNvInfoView>(self.packages, nv)
    }
}

/// The record of no packages.
pub open spec fn no_packages() -> PackageSpecifiersView {
    PackageSpecifiersView {
        package_reqs: no_entries(),
        packages_by_name: no_entries(),
        packages: no_entries(),
        top_level_packages: Seq::empty(),
        used_yanked_packages: Seq::empty(),
    }
}

/// The record of a package of which nothing is used yet.
pub open spec fn no_use() -> PackageNvInfoView {
    PackageNvInfoView { exports: no_entries(), found_dependencies: Seq::empty() }
}

/// A list of versions after one was added, unless it was there.
pub open spec fn with_version(
    versions: Option<Seq<PackageNvView>>,
    nv: PackageNvView,
) -> Seq<PackageNvView> {
    match versions {
        Some(list) => if list.contains(nv) {
            list
        } else {
            list.push(nv)
        },
        None => seq![nv],
    }
}

/// A list of constraints after one was added, unless an equal one was there.
pub open spec fn with_dep(
    deps: Seq<JsrDepPackageReqView>,
    dep: JsrDepPackageReqView,
) -> Seq<JsrDepPackageReqView> {
    if exists|i: int| 0 <= i < deps.len() && #[trigger] same_dep_req(deps[i], dep) {
        deps
    } else {
        deps.push(dep)
    }
}

/// The record after a requirement was resolved to a package.
pub open spec fn after_add_nv(
    before: PackageSpecifiersView,
    req: PackageReqView,
    nv: PackageNvView,
) -> PackageSpecifiersView {
    PackageSpecifiersView {
        package_reqs: with_entry::<PackageReq, PackageNvView>(before.package_reqs, req, nv),
        packages_by_name: with_entry::<String, Seq<PackageNvView>>(
            before.packages_by_name,
            req.name,
            with_version(before.versions(req.name), nv),
        ),
        ..before
    }
}

/// The record with another record for one package.
pub open spec fn with_info(
    before: PackageSpecifiersView,
    nv: PackageNvView,
    info: PackageNvInfoView,
) -> PackageSpecifiersView {
    PackageSpecifiersView {
        packages: with_entry::<PackageNv, PackageNvInfoView>(before.packages, nv, info),
        ..before
    }
}

/// The record after a package was found in the graph.
pub open spec fn after_ensure_package(
    before: PackageSpecifiersView,
    nv: PackageNvView,
) -> PackageSpecifiersView {
    if before.info(nv) is Some {
        before
    } else {
        with_info(before, nv, no_use())
    }
}

/// The record after a dependency of a package was found.
pub open spec fn after_add_dependency(
    before: PackageSpecifiersView,
    nv: PackageNvView,
    dep: JsrDepPackageReqView,
) -> PackageSpecifiersView {
    let info = before.info(nv)->0;
    with_info(
        before,
        nv,
        PackageNvInfoView { found_dependencies: with_dep(info.found_dependencies, dep), ..info },
    )
}

/// The record after an export of a package was used.
pub open spec fn after_add_export(
    before: PackageSpecifiersView,
    nv: PackageNvView,
    name: Seq<char>,
    path: Seq<char>,
) -> PackageSpecifiersView {
    let info = before.info(nv)->0;
    with_info(
        before,
        nv,
        PackageNvInfoView {
            exports: with_entry::<String, Seq<char>>(info.exports, name, path),
            ..info
        },
    )
}

/// One change of the record.
pub enum Step {
    AddNv { req: PackageReqView, nv: PackageNvView },
    EnsurePackage { nv: PackageNvView },
    AddDependency { nv: PackageNvView, dep: JsrDepPackageReqView },
    AddExport { nv: PackageNvView, name: Seq<char>, path: Seq<char> },
    AddTopLevelPackage { nv: PackageNvView },
    AddUsedYankedPackage { nv: PackageNvView },
}

/// The record after a change.
pub open spec fn after_step(before: PackageSpecifiersView, step: Step) -> PackageSpecifiersView {
    match step {
        Step::AddNv { req, nv } => after_add_nv(before, req, nv),
        Step::EnsurePackage { nv } => after_ensure_package(before, nv),
        Step::AddDependency { nv, dep } => after_add_dependency(before, nv, dep),
        Step::AddExport { nv, name, path } => after_add_export(before, nv, name, path),
        Step::AddTopLevelPackage { nv } => PackageSpecifiersView {
            top_level_packages: with_key::<PackageNv>(before.top_level_packages, nv),
            ..before
        },
        Step::AddUsedYankedPackage { nv } => PackageSpecifiersView {
            used_yanked_packages: with_key::<PackageNv>(before.used_yanked_packages, nv),
            ..before
        },
    }
}

/// Whether a record follows from another by a change: it is sound, it is what the change makes of
/// the other, and it tells keys apart as the other does. A dependency or an export is recorded only
/// of a package that was found.
#[verifier::opaque]
pub open spec fn is_step(
    before: PackageSpecifiersView,
    step: Step,
    after: PackageSpecifiersView,
) -> bool {
    &&& after.wf()
    &&& after == after_step(before, step)
    &&& match step {
        Step::AddNv { req, .. } => same_but::<PackageReq, PackageNvView>(
            before.package_reqs,
            after.package_reqs,
            req,
        ),
        Step::EnsurePackage { nv } => same_but::<PackageNv, PackageNvInfoView>(
            before.packages,
            after.packages,
            nv,
        ),
        Step::AddDependency { nv, .. } => before.info(nv) is Some && same_but::<
            PackageNv,
            PackageNvInfoView,
        >(before.packages, after.packages, nv),
        Step::AddExport { nv, .. } => before.info(nv) is Some && same_but::<
            PackageNv,
            PackageNvInfoView,
        >(before.packages, after.packages, nv),
        _ => true,
    }
}

/// Every package that was found in the graph, in ascending order, with its dependencies.
pub open spec fn deps_by_package(record: PackageSpecifiersView) -> Seq<
    (PackageNvView, Seq<JsrDepPackageReqView>),
> {
    Seq::new(
        record.packages.keys.len(),
        |i: int| (record.packages.keys[i], record.packages.values[i].found_dependencies),
    )
}

/// The sum of the lengths of lists of dependencies.
pub open spec fn lengths_sum(lists: Seq<(PackageNvView, Seq<JsrDepPackageReqView>)>) -> nat
    decreases lists.len(),
{
    if lists.len() == 0 {
        0
    } else {
        lengths_sum(lists.drop_last()) + lists.last().1.len()
    }
}

/// The number of dependencies found, over all packages.
pub open spec fn deps_sum(infos: Seq<PackageNvInfoView>) -> nat
    decreases infos.len(),
{
    if infos.len() == 0 {
        0
    } else {
        deps_sum(infos.drop_last()) + infos.last().found_dependencies.len()
    }
}

proof fn lemma_deps_sum_take(infos: Seq<PackageNvInfoView>, n: int)
    requires
        0 <= n <= infos.len(),
    ensures
        deps_sum(infos.take(n)) <= deps_sum(infos),
    decreases infos.len(),
{
    if n < infos.len() {
        assert(infos.take(n) =~= infos.drop_last().take(n));
        lemma_deps_sum_take(infos.drop_last(), n);
    } else {
        assert(infos.take(n) =~= infos);
    }
}

/// The record of a package in a sound record is sound.
pub proof fn lemma_info_wf(record: PackageSpecifiersView, nv: PackageNvView)
    requires
        record.wf(),
    ensures
        record.info(nv) matches Some(info) ==> info_wf(info),
{
    if let Some(i) = index_of::<PackageNv>(record.packages.keys, nv) {
        assert(info_wf(record.packages.values[i]));
    }
}

proof fn lemma_with_info_wf(
    before: PackageSpecifiersView,
    nv: PackageNvView,
    info: PackageNvInfoView,
)
    requires
        before.wf(),
        info_wf(info),
        entries_wf::<PackageNv, PackageNvInfoView>(with_info(before, nv, info).packages),
    ensures
        with_info(before, nv, info).wf(),
{
    let after = with_info(before, nv, info);
    lemma_values_after_entry::<PackageNv, PackageNvInfoView>(before.packages, nv, info);
    assert forall|i: int| 0 <= i < after.packages.values.len() implies info_wf(
        #[trigger] after.packages.values[i],
    ) by {
        if after.packages.values[i] != info {
            let j = choose|j: int|
                0 <= j < before.packages.values.len() && before.packages.values[j]
                    == after.packages.values[i];
            assert(info_wf(before.packages.values[j]));
        }
    }
}

/// The names that requirements are on after one was resolved: its own, and those from before.
proof fn lemma_required_after_add_nv(
    before: PackageSpecifiersView,
    req: PackageReqView,
    nv: PackageNvView,
)
    ensures
        is_required(after_add_nv(before, req, nv).package_reqs, req.name),
        forall|name: Seq<char>|
            is_required(before.package_reqs, name) ==> #[trigger] is_required(
                after_add_nv(before, req, nv).package_reqs,
                name,
            ),
{
    let keys = before.package_reqs.keys;
    let after = after_add_nv(before, req, nv);
    let at = lower_bound::<PackageReq>(keys, req) as int;
    lemma_lower_bound_splits::<PackageReq>(keys, req);
    let absent = index_of::<PackageReq>(keys, req) is None;
    if !absent {
        lemma_text_order_equal(keys[at].name, req.name);
    }
    assert(after.package_reqs.keys[at].name == req.name);
    assert forall|name: Seq<char>|
        is_required(before.package_reqs, name) implies #[trigger] is_required(
        after.package_reqs,
        name,
    ) by {
        let i = choose|i: int| 0 <= i < keys.len() && (#[trigger] keys[i]).name == name;
        let moved = if absent && i >= at {
            i + 1
        } else {
            i
        };
        assert(after.package_reqs.keys[moved] == keys[i]);
    }
}

/// After a requirement was resolved, every name with a list of versions is required.
proof fn lemma_names_after_add_nv(
    before: PackageSpecifiersView,
    req: PackageReqView,
    nv: PackageNvView,
)
    requires
        before.wf(),
    ensures
        ({
            let after = after_add_nv(before, req, nv);
            forall|i: int|
                0 <= i < after.packages_by_name.keys.len() ==> #[trigger] is_required(
                    after.package_reqs,
                    after.packages_by_name.keys[i],
                )
        }),
{
    let after = after_add_nv(before, req, nv);
    let list = with_version(before.versions(req.name), nv);
    let by_name = before.packages_by_name;
    lemma_required_after_add_nv(before, req, nv);
    assert forall|i: int| 0 <= i < after.packages_by_name.keys.len() implies #[trigger] is_required(
        after.package_reqs,
        after.packages_by_name.keys[i],
    ) by {
        let name = after.packages_by_name.keys[i];
        lemma_entries_after_entry::<String, Seq<PackageNvView>>(by_name, req.name, list, i);
        if after.packages_by_name.values[i] == list && text_order(name, req.name) is Equal {
            lemma_text_order_equal(name, req.name);
        } else {
            let j = choose|j: int|
                0 <= j < by_name.keys.len() && #[trigger] by_name.keys[j] == name
                    && by_name.values[j] == after.packages_by_name.values[i];
            assert(is_required(before.package_reqs, by_name.keys[j]));
        }
    }
}

/// After a requirement was resolved, the package of every requirement is listed under the
/// requirement's name.
proof fn lemma_lists_after_add_nv(
    before: PackageSpecifiersView,
    req: PackageReqView,
    nv: PackageNvView,
)
    requires
        before.wf(),
    ensures
        ({
            let after = after_add_nv(before, req, nv);
            forall|i: int|
                0 <= i < after.package_reqs.keys.len() ==> after.lists(
                    (#[trigger] after.package_reqs.keys[i]).name,
                    after.package_reqs.values[i],
                )
        }),
{
    let after = after_add_nv(before, req, nv);
    let list = with_version(before.versions(req.name), nv);
    let by_name = before.packages_by_name;
    assert forall|i: int| 0 <= i < after.package_reqs.keys.len() implies after.lists(
        (#[trigger] after.package_reqs.keys[i]).name,
        after.package_reqs.values[i],
    ) by {
        let other = after.package_reqs.keys[i];
        lemma_entries_after_entry::<PackageReq, PackageNvView>(before.package_reqs, req, nv, i);
        lemma_lookup_after_entry::<String, Seq<PackageNvView>>(by_name, req.name, list);
        lemma_with_version_contains(before.versions(req.name), nv);
        if after.package_reqs.values[i] == nv && package_req_order(other, req) is Equal {
            lemma_text_order_equal(other.name, req.name);
        } else {
            let j = choose|j: int|
                0 <= j < before.package_reqs.keys.len()
                    && #[trigger] before.package_reqs.keys[j] == other
                    && before.package_reqs.values[j] == after.package_reqs.values[i];
            assert(before.lists(before.package_reqs.keys[j].name, before.package_reqs.values[j]));
            if other.name == req.name {
                let was = before.versions(req.name)->0;
                let k = choose|k: int|
                    0 <= k < was.len() && was[k] == after.package_reqs.values[i];
                assert(list[k] == after.package_reqs.values[i]);
            } else {
                law_adding_a_package_keeps_other_names(before, req, nv, other.name);
            }
        }
    }}

proof fn lemma_add_nv_wf(before: PackageSpecifiersView, req: PackageReqView, nv: PackageNvView)
    requires
        before.wf(),
        entries_wf::<PackageReq, PackageNvView>(after_add_nv(before, req, nv).package_reqs),
        entries_wf::<String, Seq<PackageNvView>>(after_add_nv(before, req, nv).packages_by_name),
    ensures
        after_add_nv(before, req, nv).wf(),
{
    let after = after_add_nv(before, req, nv);
    let list = with_version(before.versions(req.name), nv);
    let by_name = before.packages_by_name;
    lemma_values_after_entry::<String, Seq<PackageNvView>>(by_name, req.name, list);
    lemma_with_version_contains(before.versions(req.name), nv);
    assert(list.no_duplicates()) by {
        if let Some(i) = index_of::<String>(by_name.keys, req.name) {
            assert(by_name.values[i].no_duplicates());
        }
    }
    assert forall|i: int| 0 <= i < after.packages_by_name.values.len() implies (
    #[trigger] after.packages_by_name.values[i]).no_duplicates()
        && after.packages_by_name.values[i].len() > 0 by {
        if after.packages_by_name.values[i] != list {
            let j = choose|j: int|
                0 <= j < by_name.values.len() && by_name.values[j]
                    == after.packages_by_name.values[i];
            assert(by_name.values[j].no_duplicates());
        }
    }
    lemma_names_after_add_nv(before, req, nv);
    lemma_lists_after_add_nv(before, req, nv);

}

fn contains_nv(list: &Vec<PackageNv>, nv: &PackageNv) -> (r: bool)
    ensures
        r == list.deep_view().contains(nv.deep_view()),
{
    let mut i: usize = 0;
    while i < list.len()
        invariant
            i <= list.len(),
            forall|j: int| 0 <= j < i ==> #[trigger] list.deep_view()[j] != nv.deep_view(),
        decreases list.len() - i,
    {
        if list[i].same(nv) {
            assert(list.deep_view()[i as int] == nv.deep_view());
            return true;
        }
        i = i + 1;
    }
    false
}

fn add_version(by_name: &mut OrderedMap<String, Vec<PackageNv>>, name: &String, nv: &PackageNv)
    requires
        old(by_name).wf(),
    ensures
        final(by_name).wf(),
        final(by_name).deep_view() == with_entry::<String, Seq<PackageNvView>>(
            old(by_name).deep_view(),
            name@,
            with_version(
                lookup::<String, Seq<PackageNvView>>(old(by_name).deep_view(), name@),
                nv.deep_view(),
            ),
        ),
{
    if by_name.contains_key(name) {
        let nvs = by_name.value_mut(name);
        if !contains_nv(nvs, nv) {
            let ghost before = nvs.deep_view();
            nvs.push(nv.clone());
            assert(nvs.deep_view() =~= before.push(nv.deep_view()));
        }
    } else {
        let mut nvs: Vec<PackageNv> = Vec::new();
        nvs.push(nv.clone());
        assert(nvs.deep_view() =~= seq![nv.deep_view()]);
        by_name.insert(name.clone(), nvs);
    }
}

fn contains_dep(list: &Vec<JsrDepPackageReq>, dep: &JsrDepPackageReq) -> (r: bool)
    ensures
        r == exists|i: int|
            0 <= i < list.deep_view().len() && #[trigger] same_dep_req(
                list.deep_view()[i],
                dep.deep_view(),
            ),
        !r ==> forall|i: int|
            0 <= i < list.deep_view().len() ==> !(#[trigger] same_dep_req(
                dep.deep_view(),
                list.deep_view()[i],
            )),
{
    let mut i: usize = 0;
    while i < list.len()
        invariant
            i <= list.len(),
            forall|j: int|
                0 <= j < i ==> !(#[trigger] same_dep_req(list.deep_view()[j], dep.deep_view())),
            forall|j: int|
                0 <= j < i ==> !(#[trigger] same_dep_req(dep.deep_view(), list.deep_view()[j])),
        decreases list.len() - i,
    {
        if list[i].same(dep) {
            assert(same_dep_req(list.deep_view()[i as int], dep.deep_view()));
            return true;
        }
        i = i + 1;
    }
    false
}

impl Default for PackageSpecifiers {
    fn default() -> (r: Self)
        ensures
            r.deep_view() == no_packages(),
            r.deep_view().wf(),
    {
        PackageSpecifiers {
            package_reqs: OrderedMap::new(),
            packages_by_name: OrderedMap::new(),
            packages: OrderedMap::new(),
            top_level_packages: OrderedSet::new(),
            used_yanked_packages: OrderedSet::new(),
        }
    }
}

impl PackageSpecifiers {
    /// Whether no requirement was resolved yet.
    pub fn is_empty(&self) -> (r: bool)
        requires
            self.deep_view().wf(),
        ensures
            r == (self.deep_view().package_reqs.keys.len() == 0),
    {
        self.package_reqs.is_empty()
    }

    /// The total number of JSR packages found in the graph.
    pub fn packages_len(&self) -> (r: usize)
        requires
            self.deep_view().wf(),
        ensures
            r == self.deep_view().packages.keys.len(),
    {
        self.packages.len()
    }

    /// The total number of dependencies of jsr packages found in the graph.
    pub fn package_deps_sum(&self) -> (r: usize)
        requires
            self.deep_view().wf(),
            deps_sum(self.deep_view().packages.values) <= usize::MAX,
        ensures
            r == deps_sum(self.deep_view().packages.values),
            r == lengths_sum(deps_by_package(self.deep_view())),
    {
        proof {
            law_sum_of_dependencies_is_that_of_the_lists(self.deep_view());
        }
        let ghost infos = self.packages.deep_view().values;
        let mut sum: usize = 0;
        let mut i: usize = 0;
        assert(infos.take(0) =~= Seq::empty());
        while i < self.packages.len()
            invariant
                self.packages.wf(),
                infos == self.packages.deep_view().values,
                i <= infos.len(),
                deps_sum(infos) <= usize::MAX,
                sum == deps_sum(infos.take(i as int)),
            decreases infos.len() - i,
        {
            let info = self.packages.value_at(i);
            proof {
                assert(infos.take(i + 1).drop_last() =~= infos.take(i as int));
                lemma_deps_sum_take(infos, i + 1);
            }
            sum = sum + info.found_dependencies.len();
            i = i + 1;
        }
        assert(infos.take(i as int) =~= infos);
        sum
    }

    /// Records that a requirement was resolved to a package.
    pub fn add_nv(&mut self, package_req: PackageReq, nv: PackageNv)
        requires
            old(self).deep_view().wf(),
        ensures
            final(self).deep_view() == after_add_nv(
                old(self).deep_view(),
                package_req.deep_view(),
                nv.deep_view(),
            ),
            final(self).deep_view().wf(),
            same_but::<PackageReq, PackageNvView>(
                old(self).deep_view().package_reqs,
                final(self).deep_view().package_reqs,
                package_req.deep_view(),
            ),
            is_step(
                old(self).deep_view(),
                (Step::AddNv { req: package_req.deep_view(), nv: nv.deep_view() }),
                final(self).deep_view(),
            ),
    {
        proof {
            reveal(is_step);
        }
        let ghost before = self.deep_view();
        let ghost req = package_req.deep_view();
        let ghost added = nv.deep_view();
        add_version(&mut self.packages_by_name, &package_req.name, &nv);
        self.package_reqs.insert(package_req, nv);
        proof {
            lemma_add_nv_wf(before, req, added);
        }
    }

    /// Records that a package was found in the graph.
    pub fn ensure_package(&mut self, nv: PackageNv)
        requires
            old(self).deep_view().wf(),
        ensures
            final(self).deep_view() == after_ensure_package(
                old(self).deep_view(),
                nv.deep_view(),
            ),
            final(self).deep_view().wf(),
            same_but::<PackageNv, PackageNvInfoView>(
                old(self).deep_view().packages,
                final(self).deep_view().packages,
                nv.deep_view(),
            ),
            is_step(
                old(self).deep_view(),
                (Step::EnsurePackage { nv: nv.deep_view() }),
                final(self).deep_view(),
            ),
    {
        proof {
            reveal(is_step);
        }
        if !self.packages.contains_key(&nv) {
            let info = PackageNvInfo { exports: OrderedMap::new(), found_dependencies: Vec::new() };
            assert(info.deep_view() == no_use()) by {
                assert(info.found_dependencies.deep_view() =~= Seq::empty());
            }
            let ghost before = self.deep_view();
            let ghost added = nv.deep_view();
            self.packages.insert(nv, info);
            proof {
                lemma_with_info_wf(before, added, no_use());
            }
        }
    }

    /// Gets the dependencies (package constraints) of JSR packages found in the graph, package by
    /// package in ascending order.
    pub fn packages_with_deps(&self) -> (r: Vec<(&PackageNv, &Vec<JsrDepPackageReq>)>)
        requires
            self.deep_view().wf(),
        ensures
            r.deep_view() == deps_by_package(self.deep_view()),
    {
        let mut r: Vec<(&PackageNv, &Vec<JsrDepPackageReq>)> = Vec::new();
        let mut i: usize = 0;
        while i < self.packages.len()
            invariant
                self.packages.wf(),
                i <= self.packages.deep_view().keys.len(),
                r.len() == i,
                forall|j: int|
                    0 <= j < i ==> (#[trigger] r[j]).0.deep_view()
                        == self.packages.deep_view().keys[j] && r[j].1.deep_view()
                        == self.packages.deep_view().values[j].found_dependencies,
            decreases self.packages.deep_view().keys.len() - i,
        {
            r.push((self.packages.key_at(i), &self.packages.value_at(i).found_dependencies));
            i = i + 1;
        }
        assert(r.deep_view() =~= deps_by_package(self.deep_view()));
        r
    }

    /// Records a dependency of a package that was found in the graph.
    pub fn add_dependency(&mut self, nv: &PackageNv, dep: JsrDepPackageReq)
        requires
            old(self).deep_view().wf(),
            old(self).deep_view().info(nv.deep_view()) is Some,
        ensures
            final(self).deep_view() == after_add_dependency(
                old(self).deep_view(),
                nv.deep_view(),
                dep.deep_view(),
            ),
            final(self).deep_view().wf(),
            same_but::<PackageNv, PackageNvInfoView>(
                old(self).deep_view().packages,
                final(self).deep_view().packages,
                nv.deep_view(),
            ),
            is_step(
                old(self).deep_view(),
                (Step::AddDependency { nv: nv.deep_view(), dep: dep.deep_view() }),
                final(self).deep_view(),
            ),
    {
        proof {
            reveal(is_step);
        }
        let ghost before = self.deep_view();
        let ghost added = dep.deep_view();
        let ghost record = before.info(nv.deep_view())->0;
        let info = self.packages.value_mut(nv);
        let ghost deps = info.found_dependencies.deep_view();
        if !contains_dep(&info.found_dependencies, &dep) {
            info.found_dependencies.push(dep);
            assert(info.found_dependencies.deep_view() =~= deps.push(added));
        }
        proof {
            let after = PackageNvInfoView {
                found_dependencies: with_dep(deps, added),
                ..record
            };
            lemma_info_wf(before, nv.deep_view());
            assert(info_wf(after));
            lemma_with_info_wf(before, nv.deep_view(), after);
        }
    }

    /// Records that an export, a name and its path, of a package that was found in the graph is
    /// used.
    pub fn add_export(&mut self, nv: &PackageNv, export: (String, String))
        requires
            old(self).deep_view().wf(),
            old(self).deep_view().info(nv.deep_view()) is Some,
        ensures
            final(self).deep_view() == after_add_export(
                old(self).deep_view(),
                nv.deep_view(),
                export.0@,
                export.1@,
            ),
            final(self).deep_view().wf(),
            same_but::<PackageNv, PackageNvInfoView>(
                old(self).deep_view().packages,
                final(self).deep_view().packages,
                nv.deep_view(),
            ),
            is_step(
                old(self).deep_view(),
                (Step::AddExport { nv: nv.deep_view(), name: export.0@, path: export.1@ }),
                final(self).deep_view(),
            ),
    {
        proof {
            reveal(is_step);
        }
        let ghost before = self.deep_view();
        let ghost record = before.info(nv.deep_view())->0;
        let ghost name = export.0@;
        let ghost path = export.1@;
        proof {
            lemma_info_wf(before, nv.deep_view());
        }
        let info = self.packages.value_mut(nv);
        info.exports.insert(export.0, export.1);
        proof {
            let after = PackageNvInfoView {
                exports: with_entry::<String, Seq<char>>(record.exports, name, path),
                ..record
            };
            assert(info_wf(after));
            lemma_with_info_wf(before, nv.deep_view(), after);
        }
    }

    /// Records that a package has a referrer outside JSR.
    pub fn add_top_level_package(&mut self, nv: PackageNv)
        requires
            old(self).deep_view().wf(),
        ensures
            final(self).deep_view() == (PackageSpecifiersView {
                top_level_packages: with_key::<PackageNv>(
                    old(self).deep_view().top_level_packages,
                    nv.deep_view(),
                ),
                ..old(self).deep_view()
            }),
            final(self).deep_view().wf(),
            is_step(
                old(self).deep_view(),
                (Step::AddTopLevelPackage { nv: nv.deep_view() }),
                final(self).deep_view(),
            ),
    {
        proof {
            reveal(is_step);
        }
        self.top_level_packages.insert(nv);
    }

    /// The packages that have a referrer outside JSR.
    pub fn top_level_packages(&self) -> (r: &OrderedSet<PackageNv>)
        requires
            self.deep_view().wf(),
        ensures
            r.deep_view() == self.deep_view().top_level_packages,
            r.wf(),
    {
        &self.top_level_packages
    }

    /// Records that a yanked package is in use.
    pub fn add_used_yanked_package(&mut self, nv: PackageNv)
        requires
            old(self).deep_view().wf(),
        ensures
            final(self).deep_view() == (PackageSpecifiersView {
                used_yanked_packages: with_key::<PackageNv>(
                    old(self).deep_view().used_yanked_packages,
                    nv.deep_view(),
                ),
                ..old(self).deep_view()
            }),
            final(self).deep_view().wf(),
            is_step(
                old(self).deep_view(),
                (Step::AddUsedYankedPackage { nv: nv.deep_view() }),
                final(self).deep_view(),
            ),
    {
        proof {
            reveal(is_step);
        }
        self.used_yanked_packages.insert(nv);
    }

    /// The yanked packages in use.
    pub fn used_yanked_packages(&mut self) -> (r: &OrderedSet<PackageNv>)
        requires
            old(self).deep_view().wf(),
        ensures
            r.deep_view() == old(self).deep_view().used_yanked_packages,
            r.wf(),
            final(self).deep_view() == old(self).deep_view(),
    {
        &self.used_yanked_packages
    }

    /// The exports of a package that are used, if the package was found in the graph.
    pub fn package_exports(&self, nv: &PackageNv) -> (r: Option<&OrderedMap<String, String>>)
        requires
            self.deep_view().wf(),
        ensures
            r is Some <==> self.deep_view().info(nv.deep_view()) is Some,
            r matches Some(exports) ==> exports.wf(),
            r matches Some(exports) ==> exports.deep_view() == self.deep_view().info(
                nv.deep_view(),
            )->0.exports,
    {
        match self.packages.get(nv) {
            Some(info) => {
                proof {
                    lemma_info_wf(self.deep_view(), nv.deep_view());
                }
                Some(&info.exports)
            },
            None => None,
        }
    }

    /// The packages that the requirements on a name were resolved to, in the order they came.
    pub fn versions_by_name(&self, name: &str) -> (r: Option<&Vec<PackageNv>>)
        requires
            self.deep_view().wf(),
        ensures
            r.deep_view() == self.deep_view().versions(name@),
            r is Some <==> is_required(self.deep_view().package_reqs, name@),
            r matches Some(list) ==> list.len() > 0,
    {
        proof {
            law_names_with_versions_are_required(self.deep_view(), name@);
        }
        self.packages_by_name.get(&name.to_owned())
    }

    /// The package that each requirement was resolved to.
    pub fn mappings(&self) -> (r: &OrderedMap<PackageReq, PackageNv>)
        requires
            self.deep_view().wf(),
        ensures
            r.deep_view() == self.deep_view().package_reqs,
            r.wf(),
    {
        &self.package_reqs
    }
}

/// A requirement that was resolved to a package is mapped to it, the package is among the versions
/// of its name, and the record is not empty any more.
pub proof fn law_added_package_is_mapped(
    before: PackageSpecifiersView,
    req: PackageReqView,
    nv: PackageNvView,
)
    requires
        before.wf(),
    ensures
        after_add_nv(before, req, nv).resolved(req) == Some(nv),
        after_add_nv(before, req, nv).versions(req.name) is Some,
        after_add_nv(before, req, nv).versions(req.name)->0.contains(nv),
        after_add_nv(before, req, nv).package_reqs.keys.len() > 0,
{
    let list = with_version(before.versions(req.name), nv);
    lemma_lookup_after_entry::<PackageReq, PackageNvView>(before.package_reqs, req, nv);
    lemma_lookup_after_entry::<String, Seq<PackageNvView>>(
        before.packages_by_name,
        req.name,
        list,
    );
    lemma_with_version_contains(before.versions(req.name), nv);
    lemma_lower_bound_splits::<PackageReq>(before.package_reqs.keys, req);
}

proof fn lemma_with_version_contains(versions: Option<Seq<PackageNvView>>, nv: PackageNvView)
    ensures
        with_version(versions, nv).contains(nv),
{
    let list = with_version(versions, nv);
    if versions is None || !(versions->0).contains(nv) {
        assert(list[list.len() - 1] == nv);
    }
}

/// Recording one resolution twice is recording it once.
pub proof fn law_adding_a_package_twice_is_adding_it_once(
    before: PackageSpecifiersView,
    req: PackageReqView,
    nv: PackageNvView,
)
    requires
        before.wf(),
    ensures
        after_add_nv(after_add_nv(before, req, nv), req, nv) == after_add_nv(before, req, nv),
{
    let list = with_version(before.versions(req.name), nv);
    law_the_last_value_of_a_key_wins::<PackageReq, PackageNvView>(
        before.package_reqs,
        req,
        nv,
        nv,
    );
    lemma_lookup_after_entry::<String, Seq<PackageNvView>>(
        before.packages_by_name,
        req.name,
        list,
    );
    lemma_with_version_contains(before.versions(req.name), nv);
    law_the_last_value_of_a_key_wins::<String, Seq<PackageNvView>>(
        before.packages_by_name,
        req.name,
        list,
        list,
    );
}

/// A resolution under one name leaves the versions of every other name as they were.
pub proof fn law_adding_a_package_keeps_other_names(
    before: PackageSpecifiersView,
    req: PackageReqView,
    nv: PackageNvView,
    name: Seq<char>,
)
    requires
        before.wf(),
        name != req.name,
    ensures
        after_add_nv(before, req, nv).versions(name) == before.versions(name),
{
    let list = with_version(before.versions(req.name), nv);
    let after = after_add_nv(before, req, nv);
    law_text_map_insert(before.packages_by_name, req.name, list);
    let was = text_map(before.packages_by_name);
    let is = text_map(after.packages_by_name);
    assert(is.dom().contains(name) == was.dom().contains(name));
    assert(was.dom().contains(name) ==> is[name] == was[name]);
}

/// A package that was found in the graph has a record: the one it had, or else an empty one.
pub proof fn law_found_package_has_a_record(before: PackageSpecifiersView, nv: PackageNvView)
    requires
        before.wf(),
    ensures
        after_ensure_package(before, nv).info(nv) == (if before.info(nv) is Some {
            before.info(nv)
        } else {
            Some(no_use())
        }),
        after_ensure_package(after_ensure_package(before, nv), nv) == after_ensure_package(
            before,
            nv,
        ),
{
    lemma_lookup_after_entry::<PackageNv, PackageNvInfoView>(before.packages, nv, no_use());
}

/// A package that was found in the graph counts once, however often it is found.
pub proof fn law_found_package_counts_once(before: PackageSpecifiersView, nv: PackageNvView)
    requires
        before.wf(),
    ensures
        after_ensure_package(before, nv).packages.keys.len() == before.packages.keys.len() + (
        if before.info(nv) is Some {
            0nat
        } else {
            1nat
        }),
{
    lemma_lower_bound_splits::<PackageNv>(before.packages.keys, nv);
}

/// A name has a list of versions exactly where some requirement that was resolved is on that name.
/// The list is then not empty, holds no package twice, and holds the package that each requirement
/// on the name was resolved to.
pub proof fn law_names_with_versions_are_required(record: PackageSpecifiersView, name: Seq<char>)
    requires
        record.wf(),
    ensures
        record.versions(name) is Some <==> is_required(record.package_reqs, name),
        record.versions(name) matches Some(list) ==> list.len() > 0,
        record.versions(name) matches Some(list) ==> list.no_duplicates(),
        record.versions(name) matches Some(list) ==> forall|req: PackageReqView|
            req.name == name && #[trigger] record.resolved(req) is Some ==> list.contains(
                record.resolved(req)->0,
            ),
{
    let by_name = record.packages_by_name;
    if let Some(i) = index_of::<String>(by_name.keys, name) {
        lemma_text_order_equal(by_name.keys[i], name);
        assert(is_required(record.package_reqs, by_name.keys[i]));
        assert(by_name.values[i].no_duplicates());
    }
    if is_required(record.package_reqs, name) {
        let i = choose|i: int|
            0 <= i < record.package_reqs.keys.len() && (
            #[trigger] record.package_reqs.keys[i]).name == name;
        assert(record.lists(record.package_reqs.keys[i].name, record.package_reqs.values[i]));
    }
    assert forall|req: PackageReqView|
        req.name == name && #[trigger] record.resolved(req) is Some implies record.lists(
        name,
        record.resolved(req)->0,
    ) by {
        law_mapped_package_is_listed(record, req);
    }
}

/// A requirement that was resolved to a package finds that package among the versions of its
/// name.
pub proof fn law_mapped_package_is_listed(record: PackageSpecifiersView, req: PackageReqView)
    requires
        record.wf(),
        record.resolved(req) is Some,
    ensures
        record.versions(req.name) is Some,
        record.versions(req.name)->0.contains(record.resolved(req)->0),
{
    let i = index_of::<PackageReq>(record.package_reqs.keys, req)->0;
    lemma_text_order_equal(record.package_reqs.keys[i].name, req.name);
    assert(record.lists(record.package_reqs.keys[i].name, record.package_reqs.values[i]));
}

/// An export that was recorded is found under its name with its path, and the package's other
/// exports are as they were.
pub proof fn law_added_export_is_found(
    before: PackageSpecifiersView,
    nv: PackageNvView,
    name: Seq<char>,
    path: Seq<char>,
)
    requires
        before.wf(),
        before.info(nv) is Some,
    ensures
        after_add_export(before, nv, name, path).info(nv) is Some,
        text_map(after_add_export(before, nv, name, path).info(nv)->0.exports) == text_map(
            before.info(nv)->0.exports,
        ).insert(name, path),
{
    let info = before.info(nv)->0;
    lemma_info_wf(before, nv);
    law_text_map_insert(info.exports, name, path);
    lemma_lookup_after_entry::<PackageNv, PackageNvInfoView>(
        before.packages,
        nv,
        PackageNvInfoView {
            exports: with_entry::<String, Seq<char>>(info.exports, name, path),
            ..info
        },
    );
}

/// A dependency that was recorded is found: the package lists it or an equal one. What the package
/// listed before it lists still, and its exports are as they were.
pub proof fn law_added_dependency_is_found(
    before: PackageSpecifiersView,
    nv: PackageNvView,
    dep: JsrDepPackageReqView,
)
    requires
        before.wf(),
        before.info(nv) is Some,
    ensures
        after_add_dependency(before, nv, dep).info(nv) is Some,
        ({
            let was = before.info(nv)->0;
            let is = after_add_dependency(before, nv, dep).info(nv)->0;
            &&& is.found_dependencies == with_dep(was.found_dependencies, dep)
            &&& exists|i: int|
                0 <= i < is.found_dependencies.len() && #[trigger] same_dep_req(
                    is.found_dependencies[i],
                    dep,
                )
            &&& was.found_dependencies.is_prefix_of(is.found_dependencies)
            &&& is.exports == was.exports
        }),
{
    let info = before.info(nv)->0;
    let deps = with_dep(info.found_dependencies, dep);
    lemma_lookup_after_entry::<PackageNv, PackageNvInfoView>(
        before.packages,
        nv,
        PackageNvInfoView { found_dependencies: deps, ..info },
    );
    lemma_with_dep_lists(info.found_dependencies, dep);
    assert(info.found_dependencies.is_prefix_of(deps)) by {
        assert(deps.subrange(0, info.found_dependencies.len() as int)
            =~= info.found_dependencies);
    }
}

/// A list of constraints after one was added holds it or an equal one.
pub proof fn lemma_with_dep_lists(deps: Seq<JsrDepPackageReqView>, dep: JsrDepPackageReqView)
    ensures
        exists|i: int|
            0 <= i < with_dep(deps, dep).len() && #[trigger] same_dep_req(
                with_dep(deps, dep)[i],
                dep,
            ),
{
    let after = with_dep(deps, dep);
    if exists|i: int| 0 <= i < deps.len() && #[trigger] same_dep_req(deps[i], dep) {
        let i = choose|i: int| 0 <= i < deps.len() && #[trigger] same_dep_req(deps[i], dep);
        assert(same_dep_req(after[i], dep));
    } else {
        assert(same_dep_req(after[after.len() - 1], dep));
    }
}

/// The number of dependencies found is the sum of the lengths of the packages' lists: one that two
/// packages share counts twice.
pub proof fn law_sum_of_dependencies_is_that_of_the_lists(record: PackageSpecifiersView)
    requires
        record.wf(),
    ensures
        deps_sum(record.packages.values) == lengths_sum(deps_by_package(record)),
{
    let lists = deps_by_package(record);
    let infos = record.packages.values;
    lemma_sums_of_prefixes(lists, infos, infos.len() as int);
    assert(lists.take(infos.len() as int) =~= lists);
    assert(infos.take(infos.len() as int) =~= infos);
}

proof fn lemma_sums_of_prefixes(
    lists: Seq<(PackageNvView, Seq<JsrDepPackageReqView>)>,
    infos: Seq<PackageNvInfoView>,
    n: int,
)
    requires
        0 <= n <= infos.len(),
        lists.len() == infos.len(),
        forall|i: int|
            0 <= i < lists.len() ==> (#[trigger] lists[i]).1 == infos[i].found_dependencies,
    ensures
        deps_sum(infos.take(n)) == lengths_sum(lists.take(n)),
    decreases n,
{
    if n > 0 {
        lemma_sums_of_prefixes(lists, infos, n - 1);
        assert(infos.take(n).drop_last() =~= infos.take(n - 1));
        assert(lists.take(n).drop_last() =~= lists.take(n - 1));
        assert(lists.take(n).last() == lists[n - 1]);
    }
}

/// The packages that are listed with their dependencies are those that were found, in strictly
/// ascending order and each once: every one that is listed has a record, and one that has a record
/// is listed, with the dependencies that the record holds.
pub proof fn law_listed_packages_are_those_found(record: PackageSpecifiersView)
    requires
        record.wf(),
    ensures
        sorted::<PackageNv>(record.packages.keys),
        deps_by_package(record).len() == record.packages.keys.len(),
        forall|i: int|
            0 <= i < deps_by_package(record).len() ==> record.info(
                (#[trigger] deps_by_package(record)[i]).0,
            ) == Some(record.packages.values[i]) && deps_by_package(record)[i].1
                == record.packages.values[i].found_dependencies,
        forall|nv: PackageNvView| #[trigger]
            record.info(nv) is Some ==> exists|i: int|
                0 <= i < deps_by_package(record).len() && package_nv_order(
                    (#[trigger] deps_by_package(record)[i]).0,
                    nv,
                ) is Equal && deps_by_package(record)[i].1 == (record.info(
                    nv,
                )->0).found_dependencies,
{
    let keys = record.packages.keys;
    let lists = deps_by_package(record);
    assert forall|i: int| 0 <= i < lists.len() implies record.info((#[trigger] lists[i]).0) == Some(
        record.packages.values[i],
    ) by {
        PackageNv::order_reflexive(keys[i]);
        assert forall|j: int| 0 <= j < i implies #[trigger] PackageNv::order(
            keys[j],
            keys[i],
        ) is Less by {}
        lemma_lower_bound::<PackageNv>(keys, keys[i], i);
    }
    assert forall|nv: PackageNvView| #[trigger] record.info(nv) is Some implies exists|i: int|
        0 <= i < lists.len() && package_nv_order((#[trigger] lists[i]).0, nv) is Equal && lists[i].1
            == (record.info(nv)->0).found_dependencies by {
        let i = index_of::<PackageNv>(keys, nv)->0;
        assert(lists[i].0 == keys[i]);
    }
}

proof fn lemma_deps_sum_update(infos: Seq<PackageNvInfoView>, i: int, info: PackageNvInfoView)
    requires
        0 <= i < infos.len(),
    ensures
        deps_sum(infos.update(i, info)) + infos[i].found_dependencies.len() == deps_sum(infos)
            + info.found_dependencies.len(),
    decreases infos.len(),
{
    let after = infos.update(i, info);
    if i == infos.len() - 1 {
        assert(after.drop_last() =~= infos.drop_last());
    } else {
        assert(after.drop_last() =~= infos.drop_last().update(i, info));
        assert(infos.drop_last()[i] == infos[i]);
        lemma_deps_sum_update(infos.drop_last(), i, info);
    }
}

/// A dependency that was recorded counts once: the sum grows by one unless the package had an
/// equal one, and not at all when it is recorded again.
pub proof fn law_a_dependency_counts_once(
    before: PackageSpecifiersView,
    nv: PackageNvView,
    dep: JsrDepPackageReqView,
)
    requires
        before.wf(),
        before.info(nv) is Some,
    ensures
        deps_sum(after_add_dependency(before, nv, dep).packages.values) == deps_sum(
            before.packages.values,
        ) + (if exists|i: int|
            0 <= i < (before.info(nv)->0).found_dependencies.len() && #[trigger] same_dep_req(
                (before.info(nv)->0).found_dependencies[i],
                dep,
            ) {
            0nat
        } else {
            1nat
        }),
        after_add_dependency(after_add_dependency(before, nv, dep), nv, dep)
            == after_add_dependency(before, nv, dep),
{
    let info = before.info(nv)->0;
    let deps = with_dep(info.found_dependencies, dep);
    let with = PackageNvInfoView { found_dependencies: deps, ..info };
    let i = index_of::<PackageNv>(before.packages.keys, nv)->0;
    lemma_lower_bound_splits::<PackageNv>(before.packages.keys, nv);
    lemma_deps_sum_update(before.packages.values, i, with);
    lemma_lookup_after_entry::<PackageNv, PackageNvInfoView>(before.packages, nv, with);
    law_the_last_value_of_a_key_wins::<PackageNv, PackageNvInfoView>(
        before.packages,
        nv,
        with,
        with,
    );
    lemma_with_dep_lists(info.found_dependencies, dep);
}

} // verus!
