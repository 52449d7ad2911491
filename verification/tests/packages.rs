use std::collections::HashMap;

use deno_graph::packages::export_in;
use deno_graph::packages::is_false;
use deno_graph::packages::JsrPackageInfo;
use deno_graph::packages::JsrPackageInfoVersion;
use deno_graph::packages::JsrPackageVersionInfo;
use deno_graph::packages::JsrPackageVersionManifestEntry;
use deno_graph::packages::ModuleGraphForm;
use deno_graph::json::JsonRef;
use deno_graph::semver::Version;
use serde_json::Value;

fn json(text: &str) -> Value {
    serde_json::from_str(text).unwrap()
}

fn with_exports(text: &str) -> JsrPackageVersionInfo {
    JsrPackageVersionInfo { exports: json(text), ..Default::default() }
}

#[test]
fn flags() {
    assert!(is_false(&false));
    assert!(!is_false(&true));
}

#[test]
fn defaults() {
    assert!(!JsrPackageInfoVersion::default().yanked);
    assert_eq!(JsrPackageVersionManifestEntry::default().checksum, "");
    let info = JsrPackageVersionInfo::default();
    assert_eq!(info.exports, Value::Null);
    assert!(info.module_graph_1.is_none());
    assert!(info.module_graph_2.is_none());
    assert!(info.manifest.is_empty());
    assert_eq!(info.lockfile_checksum, None);
}

#[test]
fn versions_of_a_package() {
    let version =
        Version { major: 1, minor: 0, patch: 0, pre: Vec::new(), build: Vec::new() };
    let mut versions = HashMap::new();
    versions.insert(version.clone(), JsrPackageInfoVersion { yanked: true });
    let info = JsrPackageInfo { versions };
    assert!(info.clone().versions[&version].yanked);
}

#[test]
fn one_export() {
    let info = with_exports("\"./mod.ts\"");
    assert_eq!(info.export("."), Some("./mod.ts"));
    assert_eq!(info.export("./mod.ts"), None);
    assert_eq!(info.export(""), None);
    assert_eq!(info.exports(), vec![(".", "./mod.ts")]);
}

#[test]
fn several_exports() {
    let info = with_exports("{ \".\": \"./mod.ts\", \"./a\": \"./a.ts\", \"./b\": 5, \"./c\": {} }");
    assert_eq!(info.export("."), Some("./mod.ts"));
    assert_eq!(info.export("./a"), Some("./a.ts"));
    assert_eq!(info.export("./b"), None);
    assert_eq!(info.export("./c"), None);
    assert_eq!(info.export("./d"), None);
    assert_eq!(info.exports(), vec![(".", "./mod.ts"), ("./a", "./a.ts")]);
}

#[test]
fn exports_lists_what_export_resolves() {
    let info = with_exports("{ \"./x\": \"./x.ts\", \"./y\": null, \"./z\": \"./z.ts\" }");
    let listed = info.exports();
    assert_eq!(listed.len(), 2);
    for (name, path) in &listed {
        assert_eq!(info.export(name), Some(*path));
    }
}

#[test]
fn no_exports() {
    for text in ["null", "true", "1", "[\"./mod.ts\"]"] {
        let info = with_exports(text);
        assert_eq!(info.export("."), None);
        assert_eq!(info.exports(), vec![]);
    }
    assert_eq!(export_in(JsonRef::Other, "."), None);
    assert_eq!(export_in(JsonRef::Text("./a.ts"), "."), Some("./a.ts"));
}

#[test]
fn module_in_the_second_graph() {
    let info = JsrPackageVersionInfo {
        module_graph_1: Some(json("{ \"/mod.ts\": 1, \"/old.ts\": 1 }")),
        module_graph_2: Some(json("{ \"/mod.ts\": { \"dependencies\": [] } }")),
        ..Default::default()
    };
    let entry = info.module_info("/mod.ts").unwrap();
    assert_eq!(entry.form, ModuleGraphForm::Second);
    assert_eq!(entry.value, json("{ \"dependencies\": [] }"));
    // the first graph is hidden
    assert!(info.module_info("/old.ts").is_none());
}

#[test]
fn module_in_the_first_graph() {
    let info = JsrPackageVersionInfo {
        module_graph_1: Some(json("{ \"/mod.ts\": { \"dependencies\": [1] } }")),
        ..Default::default()
    };
    let entry = info.module_info("/mod.ts").unwrap();
    assert_eq!(entry.form, ModuleGraphForm::First);
    assert_eq!(entry.value, json("{ \"dependencies\": [1] }"));
    assert!(info.module_info("/other.ts").is_none());
}

#[test]
fn no_module_graph() {
    assert!(JsrPackageVersionInfo::default().module_info("/mod.ts").is_none());
    let info = JsrPackageVersionInfo {
        module_graph_1: Some(json("{ \"/mod.ts\": 1 }")),
        module_graph_2: Some(json("[]")),
        ..Default::default()
    };
    assert!(info.module_info("/mod.ts").is_none());
}

#[test]
fn a_copy_of_the_metadata() {
    let info = with_exports("{ \".\": \"./mod.ts\" }");
    assert_eq!(info.clone().export("."), Some("./mod.ts"));
}
