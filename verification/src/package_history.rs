//! What the record of packages says of the whole history of its changes.

use vstd::prelude::*;

use crate::order::SortKey;
use crate::ordered_map::law_text_map_insert;
use crate::ordered_map::lemma_lookup_after_entry;
use crate::ordered_map::text_map;
use crate::ordered_map::with_entry;
use crate::package_specifiers::deps_by_package;
use crate::package_specifiers::distinct_deps;
use crate::package_specifiers::info_wf;
use crate::package_specifiers::is_step;
use crate::package_specifiers::law_adding_a_package_keeps_other_names;
use crate::package_specifiers::law_listed_packages_are_those_found;
use crate::package_specifiers::lemma_info_wf;
use crate::package_specifiers::lemma_with_dep_lists;
use crate::package_specifiers::no_packages;
use crate::package_specifiers::no_use;
use crate::package_specifiers::with_dep;
use crate::package_specifiers::with_version;
use crate::package_specifiers::PackageNvInfoView;
use crate::package_specifiers::PackageSpecifiersView;
use crate::package_specifiers::Step;
use crate::semver::package_nv_order;
use crate::semver::package_req_order;
use crate::semver::same_dep_req;
use crate::semver::JsrDepPackageReqView;
use crate::semver::PackageNv;
use crate::semver::PackageNvView;
use crate::semver::PackageReq;
use crate::semver::PackageReqView;

verus! {

/// Whether records follow one from another by changes, starting with the empty record.
pub open spec fn is_history(records: Seq<PackageSpecifiersView>, steps: Seq<Step>) -> bool {
    &&& records.len() == steps.len() + 1
    &&& records[0] == no_packages()
    &&& forall|i: int|
        0 <= i < steps.len() ==> is_step(records[i], #[trigger] steps[i], records[i + 1])
}

/// Whether a change is that a package was found.
pub open spec fn finds(step: Step, nv: PackageNvView) -> bool {
    step matches Step::EnsurePackage { nv: found } && package_nv_order(found, nv) is Equal
}

/// Whether a package was ever found.
pub open spec fn was_found(steps: Seq<Step>, nv: PackageNvView) -> bool {
    exists|i: int| 0 <= i < steps.len() && finds(#[trigger] steps[i], nv)
}

/// The dependencies that were given for a package, as often and in the order they were given.
pub open spec fn given_deps(steps: Seq<Step>, nv: PackageNvView) -> Seq<JsrDepPackageReqView>
    decreases steps.len(),
{
    if steps.len() == 0 {
        Seq::empty()
    } else {
        let before = given_deps(steps.drop_last(), nv);
        match steps.last() {
            Step::AddDependency { nv: of, dep } => if package_nv_order(of, nv) is Equal {
                before.push(dep)
            } else {
                before
            },
            _ => before,
        }
    }
}

/// The exports that were given for a package, of each name the last.
pub open spec fn given_exports(steps: Seq<Step>, nv: PackageNvView) -> Map<Seq<char>, Seq<char>>
    decreases steps.len(),
{
    if steps.len() == 0 {
        Map::empty()
    } else {
        let before = given_exports(steps.drop_last(), nv);
        match steps.last() {
            Step::AddExport { nv: of, name, path } => if package_nv_order(of, nv) is Equal {
                before.insert(name, path)
            } else {
                before
            },
            _ => before,
        }
    }
}

/// The package that a requirement was last resolved to.
pub open spec fn last_resolved(steps: Seq<Step>, req: PackageReqView) -> Option<PackageNvView>
    decreases steps.len(),
{
    if steps.len() == 0 {
        None
    } else {
        let before = last_resolved(steps.drop_last(), req);
        match steps.last() {
            Step::AddNv { req: resolved, nv } => if package_req_order(resolved, req) is Equal {
                Some(nv)
            } else {
                before
            },
            _ => before,
        }
    }
}

/// The packages that requirements on a name were resolved to, each once, in the order in which they
/// first came.
pub open spec fn given_versions(steps: Seq<Step>, name: Seq<char>) -> Option<Seq<PackageNvView>>
    decreases steps.len(),
{
    if steps.len() == 0 {
        None
    } else {
        let before = given_versions(steps.drop_last(), name);
        match steps.last() {
            Step::AddNv { req, nv } => if req.name == name {
                Some(with_version(before, nv))
            } else {
                before
            },
            _ => before,
        }
    }
}

/// Constraints without repetition: of equal ones the first.
pub open spec fn without_repetition(deps: Seq<JsrDepPackageReqView>) -> Seq<JsrDepPackageReqView>
    decreases deps.len(),
{
    if deps.len() == 0 {
        Seq::empty()
    } else {
        with_dep(without_repetition(deps.drop_last()), deps.last())
    }
}

/// What is left of constraints without repetition is among them.
pub proof fn law_nothing_is_made_up(deps: Seq<JsrDepPackageReqView>, i: int)
    requires
        0 <= i < without_repetition(deps).len(),
    ensures
        deps.contains(without_repetition(deps)[i]),
    decreases deps.len(),
{
    let before = without_repetition(deps.drop_last());
    if i < before.len() {
        law_nothing_is_made_up(deps.drop_last(), i);
        let j = choose|j: int|
            0 <= j < deps.drop_last().len() && deps.drop_last()[j] == before[i];
        assert(deps[j] == before[i]);
    } else {
        assert(deps[deps.len() - 1] == without_repetition(deps)[i]);
    }
}

/// For each of some constraints, it or an equal one is left without repetition.
pub proof fn law_nothing_is_lost(deps: Seq<JsrDepPackageReqView>, i: int)
    requires
        0 <= i < deps.len(),
    ensures
        exists|j: int|
            0 <= j < without_repetition(deps).len() && #[trigger] same_dep_req(
                without_repetition(deps)[j],
                deps[i],
            ),
    decreases deps.len(),
{
    let before = without_repetition(deps.drop_last());
    if i == deps.len() - 1 {
        lemma_with_dep_lists(before, deps.last());
        let j = choose|j: int|
            0 <= j < without_repetition(deps).len() && #[trigger] same_dep_req(
                with_dep(before, deps.last())[j],
                deps.last(),
            );
        assert(same_dep_req(without_repetition(deps)[j], deps[i]));
    } else {
        law_nothing_is_lost(deps.drop_last(), i);
        let j = choose|j: int|
            0 <= j < before.len() && #[trigger] same_dep_req(before[j], deps.drop_last()[i]);
        assert(same_dep_req(without_repetition(deps)[j], deps[i]));
    }
}

proof fn lemma_step_wf(before: PackageSpecifiersView, step: Step, after: PackageSpecifiersView)
    requires
        is_step(before, step, after),
    ensures
        after.wf(),
{
    reveal(is_step);
}

/// Every record of a history is sound.
pub proof fn law_history_keeps_records_sound(
    records: Seq<PackageSpecifiersView>,
    steps: Seq<Step>,
    i: int,
)
    requires
        is_history(records, steps),
        0 <= i < records.len(),
    ensures
        records[i].wf(),
{
    if i > 0 {
        assert(is_step(records[i - 1], steps[i - 1], records[i]));
        lemma_step_wf(records[i - 1], steps[i - 1], records[i]);
    }
}

proof fn lemma_history_before_last(records: Seq<PackageSpecifiersView>, steps: Seq<Step>)
    requires
        is_history(records, steps),
        steps.len() > 0,
    ensures
        is_history(records.drop_last(), steps.drop_last()),
        is_step(records.drop_last().last(), steps.last(), records.last()),
{
    let n = steps.len() - 1;
    assert forall|i: int| 0 <= i < steps.drop_last().len() implies is_step(
        records.drop_last()[i],
        #[trigger] steps.drop_last()[i],
        records.drop_last()[i + 1],
    ) by {
        assert(is_step(records[i], steps[i], records[i + 1]));
    }
    assert(is_step(records[n], steps[n], records[n + 1]));
}

/// What a change makes of the record of a package.
spec fn info_after(
    info: Option<PackageNvInfoView>,
    step: Step,
    nv: PackageNvView,
) -> Option<PackageNvInfoView> {
    match step {
        Step::EnsurePackage { nv: of } if package_nv_order(of, nv) is Equal => Some(
            match info {
                Some(info) => info,
                None => no_use(),
            },
        ),
        Step::AddDependency { nv: of, dep } if package_nv_order(of, nv) is Equal => Some(
            PackageNvInfoView {
                found_dependencies: with_dep((info->0).found_dependencies, dep),
                ..info->0
            },
        ),
        Step::AddExport { nv: of, name, path } if package_nv_order(of, nv) is Equal => Some(
            PackageNvInfoView {
                exports: with_entry::<String, Seq<char>>((info->0).exports, name, path),
                ..info->0
            },
        ),
        _ => info,
    }
}

/// Whether a change is recorded of a package that has to have been found.
spec fn needs_record(step: Step, nv: PackageNvView) -> bool {
    match step {
        Step::AddDependency { nv: of, .. } => package_nv_order(of, nv) is Equal,
        Step::AddExport { nv: of, .. } => package_nv_order(of, nv) is Equal,
        _ => false,
    }
}

proof fn lemma_info_after_step(
    before: PackageSpecifiersView,
    step: Step,
    after: PackageSpecifiersView,
    nv: PackageNvView,
)
    requires
        before.wf(),
        is_step(before, step, after),
    ensures
        after.info(nv) == info_after(before.info(nv), step, nv),
        needs_record(step, nv) ==> before.info(nv) is Some,
{
    reveal(is_step);
    match step {
        Step::EnsurePackage { nv: of } => {
            lemma_lookup_after_entry::<PackageNv, PackageNvInfoView>(before.packages, of, no_use());
        },
        Step::AddDependency { nv: of, dep } => {
            let info = before.info(of)->0;
            lemma_lookup_after_entry::<PackageNv, PackageNvInfoView>(
                before.packages,
                of,
                PackageNvInfoView {
                    found_dependencies: with_dep(info.found_dependencies, dep),
                    ..info
                },
            );
        },
        Step::AddExport { nv: of, name, path } => {
            let info = before.info(of)->0;
            lemma_lookup_after_entry::<PackageNv, PackageNvInfoView>(
                before.packages,
                of,
                PackageNvInfoView {
                    exports: with_entry::<String, Seq<char>>(info.exports, name, path),
                    ..info
                },
            );
        },
        _ => {},
    }
}

proof fn lemma_info_after_last_step(
    records: Seq<PackageSpecifiersView>,
    steps: Seq<Step>,
    nv: PackageNvView,
)
    requires
        is_history(records, steps),
        steps.len() > 0,
    ensures
        ({
            let was = records.drop_last().last().info(nv);
            &&& records.last().info(nv) == info_after(was, steps.last(), nv)
            &&& needs_record(steps.last(), nv) ==> was is Some
            &&& was matches Some(info) ==> info_wf(info)
        }),
{
    lemma_history_before_last(records, steps);
    law_history_keeps_records_sound(records, steps, steps.len() - 1);
    lemma_info_wf(records.drop_last().last(), nv);
    lemma_info_after_step(records.drop_last().last(), steps.last(), records.last(), nv);
}

proof fn lemma_was_found(steps: Seq<Step>, nv: PackageNvView)
    requires
        steps.len() > 0,
    ensures
        was_found(steps, nv) <==> was_found(steps.drop_last(), nv) || finds(steps.last(), nv),
{
    let front = steps.drop_last();
    if was_found(front, nv) {
        let i = choose|i: int| 0 <= i < front.len() && finds(#[trigger] front[i], nv);
        assert(finds(steps[i], nv));
    }
    if was_found(steps, nv) {
        let i = choose|i: int| 0 <= i < steps.len() && finds(#[trigger] steps[i], nv);
        if i < front.len() {
            assert(finds(front[i], nv));
        }
    }
}

/// After any history of changes, a package has a record exactly where it was ever found, and what
/// is recorded of it is what was given for it: its dependencies are those given, without
/// repetition, no two of them equal, and its exports are those given, the last of each name.
pub proof fn law_a_record_holds_what_was_given(
    records: Seq<PackageSpecifiersView>,
    steps: Seq<Step>,
    nv: PackageNvView,
)
    requires
        is_history(records, steps),
    ensures
        records.last().info(nv) is Some <==> was_found(steps, nv),
        records.last().info(nv) matches Some(info) ==> info.found_dependencies
            == without_repetition(given_deps(steps, nv)),
        records.last().info(nv) matches Some(info) ==> distinct_deps(info.found_dependencies),
        records.last().info(nv) matches Some(info) ==> text_map(info.exports) == given_exports(
            steps,
            nv,
        ),
        records.last().info(nv) is None ==> given_deps(steps, nv).len() == 0 && given_exports(
            steps,
            nv,
        ) == Map::<Seq<char>, Seq<char>>::empty(),
    decreases steps.len(),
{
    if steps.len() > 0 {
        let front = steps.drop_last();
        let was = records.drop_last().last().info(nv);
        lemma_history_before_last(records, steps);
        lemma_was_found(steps, nv);
        lemma_info_after_last_step(records, steps, nv);
        law_a_record_holds_what_was_given(records.drop_last(), front, nv);
        match steps.last() {
            Step::EnsurePackage { .. } => {
                assert(text_map(no_use().exports) =~= Map::empty());
            },
            Step::AddDependency { nv: of, .. } => {
                if package_nv_order(of, nv) is Equal {
                    assert(given_deps(steps, nv).drop_last() =~= given_deps(front, nv));
                }
            },
            Step::AddExport { nv: of, name, path } => {
                if package_nv_order(of, nv) is Equal {
                    law_text_map_insert((was->0).exports, name, path);
                }
            },
            _ => {},
        }
    }
    assert(records.last().info(nv) matches Some(info) ==> info_wf(info)) by {
        law_history_keeps_records_sound(records, steps, steps.len() as int);
        lemma_info_wf(records.last(), nv);
    }
}

/// After any history of changes, the packages that are listed with their dependencies are in
/// strictly ascending order and are those that were ever found, each with the dependencies that
/// were given for it, without repetition.
pub proof fn law_listed_dependencies_are_those_given(
    records: Seq<PackageSpecifiersView>,
    steps: Seq<Step>,
)
    requires
        is_history(records, steps),
    ensures
        ({
            let lists = deps_by_package(records.last());
            &&& forall|i: int, j: int|
                0 <= i < j < lists.len() ==> package_nv_order(
                    (#[trigger] lists[i]).0,
                    (#[trigger] lists[j]).0,
                ) is Less
            &&& forall|i: int|
                0 <= i < lists.len() ==> was_found(steps, (#[trigger] lists[i]).0) && lists[i].1
                    == without_repetition(given_deps(steps, lists[i].0))
            &&& forall|nv: PackageNvView| #[trigger]
                was_found(steps, nv) ==> exists|i: int|
                    0 <= i < lists.len() && package_nv_order(
                        (#[trigger] lists[i]).0,
                        nv,
                    ) is Equal && lists[i].1 == without_repetition(given_deps(steps, nv))
        }),
{
    let record = records.last();
    let lists = deps_by_package(record);
    assert(record.wf()) by {
        law_history_keeps_records_sound(records, steps, steps.len() as int);
    }
    law_listed_packages_are_those_found(record);
    assert forall|i: int, j: int| 0 <= i < j < lists.len() implies package_nv_order(
        (#[trigger] lists[i]).0,
        (#[trigger] lists[j]).0,
    ) is Less by {
        assert(PackageNv::order(record.packages.keys[i], record.packages.keys[j]) is Less);
    }
    assert forall|i: int| 0 <= i < lists.len() implies was_found(steps, (#[trigger] lists[i]).0)
        && lists[i].1 == without_repetition(given_deps(steps, lists[i].0)) by {
        law_a_record_holds_what_was_given(records, steps, lists[i].0);
    }
    assert forall|nv: PackageNvView| #[trigger] was_found(steps, nv) implies exists|i: int|
        0 <= i < lists.len() && package_nv_order((#[trigger] lists[i]).0, nv) is Equal && lists[i].1
            == without_repetition(given_deps(steps, nv)) by {
        law_a_record_holds_what_was_given(records, steps, nv);
        assert(record.info(nv) is Some);
    }
}

proof fn lemma_mappings_after_step(
    before: PackageSpecifiersView,
    step: Step,
    after: PackageSpecifiersView,
    req: PackageReqView,
    name: Seq<char>,
)
    requires
        before.wf(),
        is_step(before, step, after),
    ensures
        after.resolved(req) == match step {
            Step::AddNv { req: resolved, nv } if package_req_order(resolved, req) is Equal => Some(
                nv,
            ),
            _ => before.resolved(req),
        },
        after.versions(name) == match step {
            Step::AddNv { req: resolved, nv } if resolved.name == name => Some(
                with_version(before.versions(name), nv),
            ),
            _ => before.versions(name),
        },
{
    reveal(is_step);
    match step {
        Step::AddNv { req: resolved, nv } => {
            lemma_lookup_after_entry::<PackageReq, PackageNvView>(
                before.package_reqs,
                resolved,
                nv,
            );
            lemma_lookup_after_entry::<String, Seq<PackageNvView>>(
                before.packages_by_name,
                resolved.name,
                with_version(before.versions(resolved.name), nv),
            );
            if resolved.name != name {
                law_adding_a_package_keeps_other_names(before, resolved, nv, name);
            }
        },
        _ => {},
    }
}

/// After any history of changes, a requirement is mapped to the package that it was last resolved
/// to, and a name has the versions that the requirements on it were resolved to.
pub proof fn law_mappings_are_those_given(
    records: Seq<PackageSpecifiersView>,
    steps: Seq<Step>,
    req: PackageReqView,
    name: Seq<char>,
)
    requires
        is_history(records, steps),
    ensures
        records.last().resolved(req) == last_resolved(steps, req),
        records.last().versions(name) == given_versions(steps, name),
    decreases steps.len(),
{
    if steps.len() > 0 {
        let before = records.drop_last().last();
        lemma_history_before_last(records, steps);
        law_mappings_are_those_given(records.drop_last(), steps.drop_last(), req, name);
        assert(before.wf()) by {
            law_history_keeps_records_sound(records, steps, steps.len() - 1);
        }
        lemma_mappings_after_step(before, steps.last(), records.last(), req, name);
    }
}

} // verus!
