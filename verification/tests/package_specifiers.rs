use deno_graph::order::Order;
use deno_graph::order::SortKey;
use deno_graph::package_specifiers::PackageSpecifiers;
use deno_graph::semver::JsrDepPackageReq;
use deno_graph::semver::PackageKind;
use deno_graph::semver::PackageNv;
use deno_graph::semver::PackageReq;
use deno_graph::semver::Version;
use deno_semver::VersionReq;

fn nv(name: &str, major: u64) -> PackageNv {
    PackageNv {
        name: name.to_string(),
        version: Version { major, minor: 0, patch: 0, pre: Vec::new(), build: Vec::new() },
    }
}

fn built(name: &str, build: &str) -> PackageNv {
    let mut nv = nv(name, 1);
    nv.version.build = vec![build.to_string()];
    nv
}

fn req(name: &str, version_req: &str) -> PackageReq {
    PackageReq {
        name: name.to_string(),
        version_req: VersionReq::parse_from_specifier(version_req).unwrap(),
    }
}

fn dep(kind: PackageKind, name: &str, version_req: &str) -> JsrDepPackageReq {
    JsrDepPackageReq { kind, req: req(name, version_req) }
}

#[test]
fn nothing_recorded() {
    let mut packages = PackageSpecifiers::default();
    assert!(packages.is_empty());
    assert_eq!(packages.packages_len(), 0);
    assert_eq!(packages.package_deps_sum(), 0);
    assert!(packages.packages_with_deps().is_empty());
    assert_eq!(packages.top_level_packages().len(), 0);
    assert_eq!(packages.used_yanked_packages().len(), 0);
    assert!(packages.package_exports(&nv("@s/a", 1)).is_none());
    assert!(packages.versions_by_name("@s/a").is_none());
    assert!(packages.mappings().is_empty());
}

#[test]
fn resolved_requirements() {
    let mut packages = PackageSpecifiers::default();
    packages.add_nv(req("@s/b", "1"), nv("@s/b", 1));
    packages.add_nv(req("@s/a", "*"), nv("@s/a", 2));
    packages.add_nv(req("@s/a", "1"), nv("@s/a", 1));
    packages.add_nv(req("@s/a", "2"), nv("@s/a", 2));
    assert!(!packages.is_empty());
    // requirements are no packages of the graph
    assert_eq!(packages.packages_len(), 0);
    assert_eq!(packages.versions_by_name("@s/a"), Some(&vec![nv("@s/a", 2), nv("@s/a", 1)]));
    assert_eq!(packages.versions_by_name("@s/b"), Some(&vec![nv("@s/b", 1)]));
    assert!(packages.versions_by_name("@s/c").is_none());
    let mappings = packages.mappings();
    assert_eq!(mappings.len(), 4);
    assert_eq!(mappings.get(&req("@s/a", "1")), Some(&nv("@s/a", 1)));
    assert_eq!(mappings.get(&req("@s/a", "*")), Some(&nv("@s/a", 2)));
    // by name, then with the narrowest first
    let names: Vec<String> = (0..mappings.len())
        .map(|i| format!("{}@{}", mappings.key_at(i).name, mappings.key_at(i).version_req))
        .collect();
    assert_eq!(names, vec!["@s/a@2", "@s/a@1", "@s/a@*", "@s/b@1"]);
}

#[test]
fn resolving_again() {
    let mut packages = PackageSpecifiers::default();
    packages.add_nv(req("@s/a", "1"), nv("@s/a", 1));
    packages.add_nv(req("@s/a", "1"), nv("@s/a", 1));
    assert_eq!(packages.mappings().len(), 1);
    assert_eq!(packages.versions_by_name("@s/a"), Some(&vec![nv("@s/a", 1)]));
    // written otherwise, but the same requirement: the last package counts
    packages.add_nv(req("@s/a", "1.x"), nv("@s/a", 3));
    assert_eq!(packages.mappings().len(), 1);
    assert_eq!(packages.mappings().get(&req("@s/a", "1")), Some(&nv("@s/a", 3)));
    assert_eq!(packages.mappings().key_at(0).version_req.version_text(), "1");
    assert_eq!(packages.versions_by_name("@s/a"), Some(&vec![nv("@s/a", 1), nv("@s/a", 3)]));
}

#[test]
fn versions_that_differ_in_the_build_part() {
    let mut packages = PackageSpecifiers::default();
    packages.add_nv(req("@s/a", "1"), built("@s/a", "x"));
    packages.add_nv(req("@s/a", "2"), built("@s/a", "y"));
    // different versions of the name
    assert_eq!(packages.versions_by_name("@s/a").unwrap().len(), 2);
    // one package of the graph
    packages.ensure_package(built("@s/a", "x"));
    packages.ensure_package(built("@s/a", "y"));
    assert_eq!(packages.packages_len(), 1);
    assert_eq!(packages.packages_with_deps()[0].0, &built("@s/a", "x"));
}

#[test]
fn order_of_requirements() {
    let order = |a: &str, b: &str| req("@s/a", a).compare(&req("@s/a", b));
    assert_eq!(order("latest", "1"), Order::Less);
    assert_eq!(order("1", "latest"), Order::Greater);
    assert_eq!(order("b", "a"), Order::Less);
    assert_eq!(order("a", "a"), Order::Equal);
    assert_eq!(order("2", "1"), Order::Less);
    assert_eq!(order("1", "1.x"), Order::Equal);
    assert_eq!(req("@s/a", "1").compare(&req("@s/b", "9")), Order::Less);
}

#[test]
fn found_packages() {
    let mut packages = PackageSpecifiers::default();
    packages.ensure_package(nv("@s/b", 1));
    packages.ensure_package(nv("@s/a", 2));
    packages.ensure_package(nv("@s/a", 1));
    packages.ensure_package(nv("@s/b", 1));
    assert_eq!(packages.packages_len(), 3);
    // no requirement was resolved
    assert!(packages.is_empty());
    let found: Vec<PackageNv> =
        packages.packages_with_deps().iter().map(|(nv, _)| (*nv).clone()).collect();
    assert_eq!(found, vec![nv("@s/a", 1), nv("@s/a", 2), nv("@s/b", 1)]);
}

#[test]
fn dependencies_count_once() {
    let mut packages = PackageSpecifiers::default();
    let a = nv("@s/a", 1);
    let b = nv("@s/b", 1);
    packages.ensure_package(a.clone());
    packages.ensure_package(b.clone());
    packages.add_dependency(&a, dep(PackageKind::Jsr, "@s/c", "1"));
    packages.add_dependency(&a, dep(PackageKind::Jsr, "@s/c", "1.x"));
    packages.add_dependency(&a, dep(PackageKind::Npm, "@s/c", "1"));
    packages.add_dependency(&a, dep(PackageKind::Jsr, "@s/c", "latest"));
    packages.add_dependency(&a, dep(PackageKind::Jsr, "@s/d", "1"));
    packages.add_dependency(&b, dep(PackageKind::Jsr, "@s/c", "1"));
    assert_eq!(packages.package_deps_sum(), 5);
    let with_deps = packages.packages_with_deps();
    assert_eq!(with_deps[0].1.len(), 4);
    assert_eq!(with_deps[1].1, &vec![dep(PackageKind::Jsr, "@s/c", "1")]);
    // finding the package again keeps what is known of it
    packages.ensure_package(a);
    assert_eq!(packages.package_deps_sum(), 5);
}

#[test]
fn used_exports() {
    let mut packages = PackageSpecifiers::default();
    let a = nv("@s/a", 1);
    packages.ensure_package(a.clone());
    assert!(packages.package_exports(&a).unwrap().is_empty());
    packages.add_export(&a, ("./x".to_string(), "./x.ts".to_string()));
    packages.add_export(&a, (".".to_string(), "./mod.ts".to_string()));
    packages.add_export(&a, ("./x".to_string(), "./y.ts".to_string()));
    let exports = packages.package_exports(&a).unwrap();
    assert_eq!(exports.len(), 2);
    assert_eq!(exports.get(&"./x".to_string()), Some(&"./y.ts".to_string()));
    assert_eq!(exports.key_at(0), ".");
    assert!(packages.package_exports(&nv("@s/a", 2)).is_none());
}

#[test]
fn top_level_and_yanked_packages() {
    let mut packages = PackageSpecifiers::default();
    packages.add_top_level_package(nv("@s/b", 1));
    packages.add_top_level_package(nv("@s/a", 1));
    packages.add_top_level_package(nv("@s/b", 1));
    assert_eq!(packages.top_level_packages().len(), 2);
    assert_eq!(packages.top_level_packages().at(0), &nv("@s/a", 1));
    assert!(packages.top_level_packages().contains(&nv("@s/b", 1)));
    assert!(!packages.top_level_packages().contains(&nv("@s/b", 2)));
    assert_eq!(packages.used_yanked_packages().len(), 0);
    packages.add_used_yanked_package(nv("@s/c", 1));
    assert_eq!(packages.used_yanked_packages().at(0), &nv("@s/c", 1));
    assert_eq!(packages.packages_len(), 0);
}

#[test]
fn names_with_versions_are_required() {
    let mut packages = PackageSpecifiers::default();
    packages.add_nv(req("@s/b", "1"), nv("@s/b", 1));
    packages.add_nv(req("@s/a", "1"), nv("@s/a", 1));
    packages.add_nv(req("@s/a", "*"), nv("@s/a", 1));
    packages.ensure_package(nv("@s/c", 1));
    packages.add_top_level_package(nv("@s/d", 1));
    let mappings = packages.mappings();
    for name in ["@s/a", "@s/b", "@s/c", "@s/d"] {
        let mapped: Vec<usize> =
            (0..mappings.len()).filter(|i| mappings.key_at(*i).name == name).collect();
        match packages.versions_by_name(name) {
            Some(list) => {
                assert!(!mapped.is_empty());
                assert_eq!(list.len(), 1);
                for i in mapped {
                    assert!(list.contains(mappings.value_at(i)));
                }
            }
            None => assert!(mapped.is_empty()),
        }
    }
    assert!(packages.versions_by_name("@s/a").is_some());
    assert!(packages.versions_by_name("@s/c").is_none());
}

#[test]
fn listed_dependencies_are_those_given() {
    let mut packages = PackageSpecifiers::default();
    let a = nv("@s/a", 1);
    let b = nv("@s/b", 1);
    let c = nv("@s/c", 1);
    for nv in [&b, &c, &a] {
        packages.ensure_package(nv.clone());
    }
    let given = [("@s/y", "1"), ("@s/x", "1"), ("@s/y", "1.x"), ("@s/x", "2")];
    for (name, version_req) in given {
        packages.add_dependency(&a, dep(PackageKind::Jsr, name, version_req));
    }
    packages.add_dependency(&b, dep(PackageKind::Jsr, "@s/y", "1"));
    let listed = packages.packages_with_deps();
    let found: Vec<&PackageNv> = listed.iter().map(|(nv, _)| *nv).collect();
    assert_eq!(found, vec![&a, &b, &c]);
    assert_eq!(listed.len(), packages.packages_len());
    for (nv, _) in &listed {
        assert!(packages.package_exports(nv).is_some());
    }
    for (name, version_req) in given {
        assert!(listed[0].1.contains(&dep(PackageKind::Jsr, name, version_req)));
    }
    assert_eq!(listed[0].1.len(), 3);
    assert_eq!(listed[1].1, &vec![dep(PackageKind::Jsr, "@s/y", "1")]);
    assert!(listed[2].1.is_empty());
    // one that two packages share counts twice
    let sum: usize = listed.iter().map(|(_, deps)| deps.len()).sum();
    assert_eq!(packages.package_deps_sum(), sum);
    assert_eq!(sum, 4);
}

#[test]
fn equality_of_dependencies_turns_round() {
    let deps = [
        dep(PackageKind::Jsr, "@s/a", "1"),
        dep(PackageKind::Jsr, "@s/a", "1.x"),
        dep(PackageKind::Jsr, "@s/a", "latest"),
        dep(PackageKind::Npm, "@s/a", "1"),
        dep(PackageKind::Jsr, "@s/b", "1"),
    ];
    for a in &deps {
        assert!(a.same(a));
        for b in &deps {
            assert_eq!(a.same(b), b.same(a));
        }
    }
    assert!(deps[0].same(&deps[1]));
    assert!(!deps[0].same(&deps[2]));
    assert!(!deps[0].same(&deps[3]));
    assert!(!deps[0].same(&deps[4]));
}
