//! Picking the version of a package that a requirement resolves to.

use deno_semver::VersionReq;
use vstd::prelude::*;

use crate::order::Order;
use crate::semver::compare_versions;
use crate::semver::requirement_tag;
use crate::semver::satisfies;
use crate::semver::version_order;
use crate::semver::version_req_matches;
use crate::semver::version_req_tag;
use crate::semver::Version;
use crate::semver::VersionView;

verus! {

/// Whether the version at an index is the one to resolve to: it satisfies the requirement, none
/// that does is above it, and those before it that do are below it.
pub open spec fn is_best(req: VersionReq, versions: Seq<VersionView>, best: int) -> bool {
    &&& 0 <= best < versions.len()
    &&& satisfies(req, versions[best])
    &&& forall|i: int|
        0 <= i < versions.len() && #[trigger] satisfies(req, versions[i]) ==> version_order(
            versions[best],
            versions[i],
        ) !is Less
    &&& forall|i: int|
        0 <= i < best && #[trigger] satisfies(req, versions[i]) ==> version_order(
            versions[i],
            versions[best],
        ) is Less
}

/// There is at most one version to resolve to.
pub proof fn law_best_version_is_unique(
    req: VersionReq,
    versions: Seq<VersionView>,
    first: int,
    second: int,
)
    requires
        is_best(req, versions, first),
        is_best(req, versions, second),
    ensures
        first == second,
{
    assert(satisfies(req, versions[first]));
    assert(satisfies(req, versions[second]));
}

/// Whether no version satisfies the requirement.
pub open spec fn none_satisfies(req: VersionReq, versions: Seq<VersionView>) -> bool {
    forall|i: int| 0 <= i < versions.len() ==> !(#[trigger] satisfies(req, versions[i]))
}

/// Decides whether a candidate becomes the best version so far, from whether it satisfies the
/// requirement and from how the best version so far, if there is one, compares with it.
pub fn becomes_best(satisfied: bool, best_to_candidate: Option<Order>) -> (r: bool)
    ensures
        r <==> satisfied && (best_to_candidate is None || best_to_candidate == Some(Order::Less)),
{
    match best_to_candidate {
        Some(order) => satisfied && order == Order::Less,
        None => satisfied,
    }
}

/// Picks the highest version that satisfies the requirement, and of versions that compare equal
/// the first.
///
/// A tag satisfies no test of ranges, so a requirement that is a tag is left out as soon as there
/// is a version to hold against it.
pub fn resolve_version<'a>(version_req: &VersionReq, versions: &Vec<&'a Version>) -> (r: Option<
    &'a Version,
>)
    requires
        versions.len() > 0 ==> requirement_tag(*version_req) is None,
    ensures
        r is None <==> none_satisfies(*version_req, versions.deep_view()),
        r matches Some(version) ==> exists|i: int| #[trigger]
            is_best(*version_req, versions.deep_view(), i) && version == versions[i],
{
    let ghost all = versions.deep_view();
    let mut best: Option<&'a Version> = None;
    let ghost mut at: int = 0;
    let mut i: usize = 0;
    assert(all.take(0) =~= Seq::empty());
    while i < versions.len()
        invariant
            i <= versions.len(),
            all == versions.deep_view(),
            requirement_tag(*version_req) is None || versions.len() == 0,
            best is None <==> none_satisfies(*version_req, all.take(i as int)),
            best matches Some(version) ==> is_best(*version_req, all.take(i as int), at)
                && version == versions[at],
            best is Some ==> forall|j: int|
                0 <= j < i && #[trigger] satisfies(*version_req, all[j]) ==> version_order(
                    all[j],
                    all[at],
                ) !is Greater,
        decreases versions.len() - i,
    {
        let candidate: &'a Version = versions[i];
        let satisfied = version_req_matches(version_req, candidate);
        let order: Option<Order> = match best {
            Some(version) => Some(compare_versions(version, candidate)),
            None => None,
        };
        let ghost seen = all.take(i as int);
        let ghost now = all.take(i + 1);
        proof {
            assert(all[i as int] == candidate.deep_view());
            assert(forall|j: int| 0 <= j < i ==> #[trigger] now[j] == seen[j]);
            assert(now[i as int] == candidate.deep_view());
            assert(satisfied == satisfies(*version_req, now[i as int]));
        }
        if becomes_best(satisfied, order) {
            best = Some(candidate);
            proof {
                assert forall|j: int|
                    0 <= j < i && #[trigger] satisfies(
                        *version_req,
                        now[j],
                    ) implies version_order(now[j], now[i as int]) is Less by {
                    assert(satisfies(*version_req, seen[j]));
                    assert(satisfies(*version_req, all[j]));
                }
                assert forall|j: int|
                    0 <= j < now.len() && #[trigger] satisfies(
                        *version_req,
                        now[j],
                    ) implies version_order(now[i as int], now[j]) !is Less by {
                    if j < i {
                        assert(satisfies(*version_req, seen[j]));
                        assert(version_order(seen[at], seen[j]) !is Less);
                    }
                }
                at = i as int;
            }
        } else {
            proof {
                if best is Some {
                    assert forall|j: int|
                        0 <= j < now.len() && #[trigger] satisfies(
                            *version_req,
                            now[j],
                        ) implies version_order(now[at], now[j]) !is Less by {
                        if j < i {
                            assert(satisfies(*version_req, seen[j]));
                        }
                    }
                    assert forall|j: int|
                        0 <= j < at && #[trigger] satisfies(
                            *version_req,
                            now[j],
                        ) implies version_order(now[j], now[at]) is Less by {
                        assert(satisfies(*version_req, seen[j]));
                    }
                }
            }
        }
        proof {
            if best is None {
                assert forall|j: int| 0 <= j < now.len() implies !(#[trigger] satisfies(
                    *version_req,
                    now[j],
                )) by {
                    if j < i {
                        assert(!satisfies(*version_req, seen[j]));
                    }
                }
            } else {
                assert(satisfies(*version_req, now[at]));
                assert forall|j: int|
                    0 <= j <= i && #[trigger] satisfies(
                        *version_req,
                        all[j],
                    ) implies version_order(all[j], all[at]) !is Greater by {
                    assert(now[j] == all[j]);
                    assert(now[at] == all[at]);
                    assert(satisfies(*version_req, now[j]));
                }
            }
        }
        i = i + 1;
    }
    assert(all.take(i as int) =~= all);
    best
}

/// Picks a version as `resolve_version` does, for any requirement: a tag is handed back in place
/// of a version.
pub fn resolve_version_or_tag<'a>(
    version_req: &VersionReq,
    versions: &Vec<&'a Version>,
) -> (r: Result<Option<&'a Version>, String>)
    ensures
        r is Err <==> requirement_tag(*version_req) is Some,
        r matches Err(tag) ==> requirement_tag(*version_req) == Some(tag@),
        r matches Ok(version) ==> {
            &&& version is None <==> none_satisfies(*version_req, versions.deep_view())
            &&& version matches Some(found) ==> exists|i: int| #[trigger]
                is_best(*version_req, versions.deep_view(), i) && found == versions[i]
        },
{
    match version_req_tag(version_req) {
        Some(tag) => Err(tag.to_owned()),
        None => Ok(resolve_version(version_req, versions)),
    }
}

} // verus!
