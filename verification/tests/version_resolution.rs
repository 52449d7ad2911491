use deno_graph::order::Order;
use deno_graph::order::SortKey;
use deno_graph::semver::PackageNv;
use deno_graph::semver::Version;
use deno_graph::version_resolution::becomes_best;
use deno_graph::version_resolution::resolve_version;
use deno_graph::version_resolution::resolve_version_or_tag;
use deno_semver::VersionReq;

fn version(text: &str) -> Version {
    let version = deno_semver::Version::parse_standard(text).unwrap();
    Version {
        major: version.major,
        minor: version.minor,
        patch: version.patch,
        pre: version.pre.iter().map(|part| part.to_string()).collect(),
        build: version.build.iter().map(|part| part.to_string()).collect(),
    }
}

fn req(text: &str) -> VersionReq {
    VersionReq::parse_from_specifier(text).unwrap()
}

fn resolved(req_text: &str, texts: &[&str]) -> Option<Version> {
    let versions: Vec<Version> = texts.iter().map(|text| version(text)).collect();
    resolve_version(&req(req_text), &versions.iter().collect()).cloned()
}

fn order(a: &str, b: &str) -> Order {
    let nv = |text: &str| PackageNv { name: "@scope/a".to_string(), version: version(text) };
    nv(a).compare(&nv(b))
}

#[test]
fn highest_version_wins() {
    assert_eq!(resolved("^1.2", &["1.2.0", "1.10.0", "1.9.9", "2.0.0"]), Some(version("1.10.0")));
    assert_eq!(resolved("1", &["1.0.0", "1.0.1"]), Some(version("1.0.1")));
    assert_eq!(resolved("*", &["0.1.0", "3.0.0", "2.0.0"]), Some(version("3.0.0")));
}

#[test]
fn no_version_satisfies() {
    assert_eq!(resolved("^3", &["1.2.0", "2.0.0"]), None);
    assert_eq!(resolved("^1", &[]), None);
}

#[test]
fn of_equal_versions_the_first_wins() {
    // the build part does not count
    let found = resolved("^1", &["1.0.0+a", "1.0.0+b"]).unwrap();
    assert_eq!(found.build, vec!["a".to_string()]);
}

#[test]
fn a_tag_is_handed_back() {
    let one = version("1.0.0");
    assert_eq!(
        resolve_version_or_tag(&req("latest"), &vec![&one]),
        Err("latest".to_string())
    );
    assert_eq!(resolve_version_or_tag(&req("1"), &vec![&one]), Ok(Some(&one)));
    assert_eq!(resolve_version_or_tag(&req("2"), &vec![&one]), Ok(None));
    // without versions there is nothing to hold against a tag
    assert_eq!(resolve_version(&req("latest"), &vec![]), None);
}

#[test]
fn candidates() {
    assert!(becomes_best(true, None));
    assert!(becomes_best(true, Some(Order::Less)));
    assert!(!becomes_best(true, Some(Order::Equal)));
    assert!(!becomes_best(true, Some(Order::Greater)));
    assert!(!becomes_best(false, None));
    assert!(!becomes_best(false, Some(Order::Less)));
}

#[test]
fn precedence_of_versions() {
    assert_eq!(order("1.0.0", "2.0.0"), Order::Less);
    assert_eq!(order("1.2.0", "1.10.0"), Order::Less);
    assert_eq!(order("1.0.2", "1.0.1"), Order::Greater);
    assert_eq!(order("1.0.0", "1.0.0-rc.1"), Order::Greater);
    assert_eq!(order("1.0.0-alpha", "1.0.0"), Order::Less);
    assert_eq!(order("1.0.0-alpha", "1.0.0-beta"), Order::Less);
    assert_eq!(order("1.0.0-rc.2", "1.0.0-rc.10"), Order::Less);
    assert_eq!(order("1.0.0-rc.1", "1.0.0-rc.1"), Order::Equal);
    assert_eq!(order("1.0.0+a", "1.0.0+b"), Order::Equal);
}

#[test]
fn orders_turn_round() {
    let texts = ["1.0.0", "1.0.0-a", "1.0.0-a.1", "0.9.0", "1.0.0+x"];
    for a in texts {
        for b in texts {
            let turned = match order(b, a) {
                Order::Less => Order::Greater,
                Order::Equal => Order::Equal,
                Order::Greater => Order::Less,
            };
            assert_eq!(order(a, b), turned);
        }
    }
}
