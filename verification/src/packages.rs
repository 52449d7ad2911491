//! What is known of JSR packages: their metadata, and the packages that a module graph uses.

use std::collections::HashMap;

use serde_json::Value;
use vstd::prelude::*;

use crate::json::content_text;
use crate::json::distinct_names;
use crate::json::json_content;
use crate::json::json_entries;
use crate::json::json_member;
use crate::json::json_members;
use crate::json::json_ref;
use crate::json::member;
use crate::json::JsonContent;
use crate::json::JsonRef;
use crate::json::Members;
use crate::order::same_text;
use crate::semver::Version;

verus! {

/// The versions of a package.
#[derive(Clone, Debug)]
pub struct JsrPackageInfo {
    pub versions: HashMap<Version, JsrPackageInfoVersion>,
}

/// Tells whether a flag is unset. An unset flag is left out when it is written.
pub fn is_false(v: &bool) -> (r: bool)
    ensures
        r == !*v,
{
    !*v
}

/// What is known of one version of a package.
#[derive(Clone, Debug)]
pub struct JsrPackageInfoVersion {
    pub yanked: bool,
}

impl Default for JsrPackageInfoVersion {
    fn default() -> (r: Self)
        ensures
            !r.yanked,
    {
        JsrPackageInfoVersion { yanked: false }
    }
}

/// One file of a package version.
#[derive(Clone, Debug)]
pub struct JsrPackageVersionManifestEntry {
    pub checksum: String,
}

impl Default for JsrPackageVersionManifestEntry {
    fn default() -> (r: Self)
        ensures
            r.checksum@ == Seq::<char>::empty(),
    {
        JsrPackageVersionManifestEntry { checksum: String::new() }
    }
}

/// The metadata of one version of a package.
#[derive(Clone, Debug, Default)]
pub struct JsrPackageVersionInfo {
    // ensure the fields on here are resilient to change
    pub exports: Value,
    pub module_graph_1: Option<Value>,
    pub module_graph_2: Option<Value>,
    pub manifest: HashMap<String, JsrPackageVersionManifestEntry>,
    /// Set when the metadata was copied from the global to the local cache. Where it is there, it
    /// goes into the lockfile in place of a checksum of the file's bytes: the vendored metadata
    /// holds less than the global cache, and someone may modify it and then regenerate the
    /// lockfile.
    pub lockfile_checksum: Option<String>,
}

/// The path that an export name leads to. Text is the one export, `.`; of an object, a member
/// that is text.
pub open spec fn export_path(exports: JsonContent, name: Seq<char>) -> Option<Seq<char>> {
    match exports {
        JsonContent::Text(path) => if name == seq!['.'] {
            Some(path)
        } else {
            None
        },
        JsonContent::Object(members) => match member(members, name) {
            Some(value) => content_text(json_content(value)),
            None => None,
        },
        JsonContent::Other => None,
    }
}

/// The members that are text, each with its name, in their order.
pub open spec fn text_members(members: Members) -> Seq<(Seq<char>, Seq<char>)>
    decreases members.len(),
{
    if members.len() == 0 {
        Seq::empty()
    } else {
        let rest = text_members(members.drop_last());
        match content_text(json_content(members.last().1)) {
            Some(text) => rest.push((members.last().0, text)),
            None => rest,
        }
    }
}

/// All export names, each with the path that it leads to.
pub open spec fn export_list(exports: JsonContent) -> Seq<(Seq<char>, Seq<char>)> {
    match exports {
        JsonContent::Text(path) => seq![(seq!['.'], path)],
        JsonContent::Object(members) => text_members(members),
        JsonContent::Other => Seq::empty(),
    }
}

/// Resolves an export name in the exports of a package.
pub fn export_in<'a>(exports: JsonRef<'a>, export_name: &str) -> (r: Option<&'a str>)
    ensures
        r.deep_view() == export_path(exports.content(), export_name@),
{
    match exports {
        JsonRef::Text(path) => {
            proof {
                reveal_strlit(".");
                assert("."@ =~= seq!['.']);
            }
            if same_text(export_name, ".") {
                Some(path)
            } else {
                None
            }
        },
        JsonRef::Object(map) => match json_member(map, export_name) {
            Some(value) => json_ref(value).text(),
            None => None,
        },
        JsonRef::Other => None,
    }
}

/// The export names in the exports of a package, each with the path that it leads to.
pub fn exports_in<'a>(exports: JsonRef<'a>) -> (r: Vec<(&'a str, &'a str)>)
    ensures
        r.deep_view() == export_list(exports.content()),
        exports.content() matches JsonContent::Object(members) ==> distinct_names(members),
{
    let mut r: Vec<(&'a str, &'a str)> = Vec::new();
    match exports {
        JsonRef::Text(path) => {
            proof {
                reveal_strlit(".");
                assert("."@ =~= seq!['.']);
            }
            r.push((".", path));
        },
        JsonRef::Object(map) => {
            let entries = json_entries(map);
            let ghost members = json_members(*map);
            let mut i: usize = 0;
            assert(members.take(0) =~= Seq::empty());
            while i < entries.len()
                invariant
                    i <= entries.len(),
                    entries.len() == members.len(),
                    forall|a: int, b: int|
                        0 <= a < b < entries.len() ==> (#[trigger] entries[a]).0@ != (
                        #[trigger] entries[b]).0@,
                    forall|j: int|
                        0 <= j < entries.len() ==> (#[trigger] entries[j]).0@ == members[j].0
                            && *entries[j].1 == members[j].1,
                    r.deep_view() == text_members(members.take(i as int)),
                decreases entries.len() - i,
            {
                let (name, value) = entries[i];
                let ghost before = r.deep_view();
                proof {
                    assert(members.take(i + 1).drop_last() =~= members.take(i as int));
                    assert(members.take(i + 1).last() == members[i as int]);
                }
                if let Some(path) = json_ref(value).text() {
                    r.push((name, path));
                    assert(r.deep_view() =~= before.push((name@, path@)));
                }
                i = i + 1;
            }
            assert(members.take(i as int) =~= members);
            assert forall|a: int, b: int| 0 <= a < b < members.len() implies (
            #[trigger] members[a]).0 != (#[trigger] members[b]).0 by {
                assert(entries[a].0@ != entries[b].0@);
            }
        },
        JsonRef::Other => {},
    }
    assert(r.deep_view() =~= export_list(exports.content()));
    r
}

/// The entry of a module in a module graph, which is an object with a member for each module.
pub open spec fn graph_entry(graph: JsonContent, specifier: Seq<char>) -> Option<Value> {
    match graph {
        JsonContent::Object(members) => member(members, specifier),
        _ => None,
    }
}

/// Which of the two forms of a module graph an entry has.
#[derive(Clone, Copy, Debug, PartialEq, Eq, Structural)]
pub enum ModuleGraphForm {
    /// The older form, which has to be brought into the newer one before it is read.
    First,
    Second,
}

/// The entry of a module in the module graph of a package version.
#[derive(Clone, Debug)]
pub struct ModuleInfoEntry {
    pub form: ModuleGraphForm,
    pub value: Value,
}

/// The entry of a module, from the second graph where there is one, else from the first.
pub open spec fn module_entry(
    first: Option<Value>,
    second: Option<Value>,
    specifier: Seq<char>,
) -> Option<(ModuleGraphForm, Value)> {
    match (first, second) {
        (_, Some(graph)) => match graph_entry(json_content(graph), specifier) {
            Some(value) => Some((ModuleGraphForm::Second, value)),
            None => None,
        },
        (Some(graph), None) => match graph_entry(json_content(graph), specifier) {
            Some(value) => Some((ModuleGraphForm::First, value)),
            None => None,
        },
        (None, None) => None,
    }
}

/// Finds the entry of a module in a module graph.
pub fn entry_in<'a>(graph: JsonRef<'a>, specifier: &str) -> (r: Option<&'a Value>)
    ensures
        r is Some <==> graph_entry(graph.content(), specifier@) is Some,
        r matches Some(value) ==> graph_entry(graph.content(), specifier@) == Some(*value),
{
    match graph {
        JsonRef::Object(map) => json_member(map, specifier),
        _ => None,
    }
}

impl JsrPackageVersionInfo {
    /// Resolves the provided export key.
    ///
    /// Note: This assumes the provided export name is normalized.
    pub fn export(&self, export_name: &str) -> (r: Option<&str>)
        ensures
            r.deep_view() == export_path(json_content(self.exports), export_name@),
    {
        export_in(json_ref(&self.exports), export_name)
    }

    /// Gets the key and values of the exports map.
    pub fn exports(&self) -> (r: Vec<(&str, &str)>)
        ensures
            r.deep_view() == export_list(json_content(self.exports)),
            forall|i: int|
                0 <= i < r.len() ==> export_path(
                    json_content(self.exports),
                    (#[trigger] r[i]).0@,
                ) == Some(r[i].1@),
            forall|i: int, j: int|
                0 <= i < j < r.len() ==> (#[trigger] r[i]).0@ != (#[trigger] r[j]).0@,
            forall|name: Seq<char>, path: Seq<char>|
                export_path(json_content(self.exports), name) == Some(path)
                    <==> #[trigger] r.deep_view().contains((name, path)),
            json_content(self.exports) matches JsonContent::Object(members) ==> distinct_names(
                members,
            ),
    {
        let r = exports_in(json_ref(&self.exports));
        proof {
            let content = json_content(self.exports);
            assert forall|name: Seq<char>, path: Seq<char>| export_path(content, name) == Some(path)
                <==> #[trigger] r.deep_view().contains((name, path)) by {
                law_export_resolves_what_exports_lists(content, name, path);
            }
            assert forall|i: int| 0 <= i < r.len() implies export_path(
                content,
                (#[trigger] r[i]).0@,
            ) == Some(r[i].1@) by {
                assert(r.deep_view()[i] == (r[i].0@, r[i].1@));
                law_export_resolves_what_exports_lists(content, r[i].0@, r[i].1@);
            }
            assert forall|i: int, j: int| 0 <= i < j < r.len() implies (#[trigger] r[i]).0@ != (
            #[trigger] r[j]).0@ by {
                assert(r.deep_view()[i] == (r[i].0@, r[i].1@));
                assert(r.deep_view()[j] == (r[j].0@, r[j].1@));
                match content {
                    JsonContent::Object(members) => {
                        lemma_text_members_distinct(members);
                        assert(text_members(members)[i].0 != text_members(members)[j].0);
                    },
                    _ => {
                        assert(r.deep_view().len() <= 1);
                    },
                }
            }
        }
        r
    }

    /// Finds what the metadata holds of a module: its entry in the second module graph where the
    /// metadata has one, whether or not the module is in it, and else in the first.
    pub fn module_info(&self, specifier: &str) -> (r: Option<ModuleInfoEntry>)
        ensures
            r is Some <==> module_entry(
                self.module_graph_1,
                self.module_graph_2,
                specifier@,
            ) is Some,
            r matches Some(entry) ==> module_entry(
                self.module_graph_1,
                self.module_graph_2,
                specifier@,
            ) == Some((entry.form, entry.value)),
    {
        if let Some(graph) = &self.module_graph_2 {
            match entry_in(json_ref(graph), specifier) {
                Some(value) => Some(
                    ModuleInfoEntry { form: ModuleGraphForm::Second, value: value.clone() },
                ),
                None => None,
            }
        } else if let Some(graph) = &self.module_graph_1 {
            match entry_in(json_ref(graph), specifier) {
                Some(value) => Some(
                    ModuleInfoEntry { form: ModuleGraphForm::First, value: value.clone() },
                ),
                None => None,
            }
        } else {
            None
        }
    }
}

/// The member that a name stands for is among the members.
proof fn lemma_member(members: Members, name: Seq<char>)
    ensures
        member(members, name) matches Some(value) ==> members.contains((name, value)),
        member(members, name) is None ==> forall|i: int|
            0 <= i < members.len() ==> (#[trigger] members[i]).0 != name,
    decreases members.len(),
{
    if members.len() > 0 && members[0].0 != name {
        lemma_member(members.skip(1), name);
        if let Some(value) = member(members.skip(1), name) {
            let i = choose|i: int|
                0 <= i < members.skip(1).len() && members.skip(1)[i] == (name, value);
            assert(members[i + 1] == (name, value));
        } else {
            assert forall|i: int| 0 <= i < members.len() implies (#[trigger] members[i]).0
                != name by {
                if i > 0 {
                    assert(members.skip(1)[i - 1] == members[i]);
                }
            }
        }
    } else if members.len() > 0 {
        assert(members[0] == (name, members[0].1));
    }
}

/// The listed texts are those of the members that are text.
proof fn lemma_text_members(members: Members, name: Seq<char>, text: Seq<char>)
    ensures
        text_members(members).contains((name, text)) <==> exists|i: int|
            0 <= i < members.len() && (#[trigger] members[i]).0 == name && content_text(
                json_content(members[i].1),
            ) == Some(text),
    decreases members.len(),
{
    if members.len() > 0 {
        let front = members.drop_last();
        lemma_text_members(front, name, text);
        let listed = text_members(members);
        let before = text_members(front);
        if listed.contains((name, text)) {
            let k = choose|k: int| 0 <= k < listed.len() && listed[k] == (name, text);
            if k < before.len() {
                assert(before[k] == (name, text));
                let i = choose|i: int|
                    0 <= i < front.len() && (#[trigger] front[i]).0 == name && content_text(
                        json_content(front[i].1),
                    ) == Some(text);
                assert(members[i] == front[i]);
            } else {
                assert(members[members.len() - 1] == members.last());
            }
        }
        if exists|i: int|
            0 <= i < members.len() && (#[trigger] members[i]).0 == name && content_text(
                json_content(members[i].1),
            ) == Some(text) {
            let i = choose|i: int|
                0 <= i < members.len() && (#[trigger] members[i]).0 == name && content_text(
                    json_content(members[i].1),
                ) == Some(text);
            if i < front.len() {
                assert(front[i] == members[i]);
                let k = choose|k: int| 0 <= k < before.len() && before[k] == (name, text);
                assert(listed[k] == (name, text));
            } else {
                assert(listed[listed.len() - 1] == (name, text));
            }
        }
    }
}

/// Members with distinct names have distinct names in the list of texts.
proof fn lemma_text_members_distinct(members: Members)
    requires
        distinct_names(members),
    ensures
        forall|i: int, j: int|
            0 <= i < j < text_members(members).len() ==> (#[trigger] text_members(members)[i]).0
                != (#[trigger] text_members(members)[j]).0,
    decreases members.len(),
{
    if members.len() > 0 {
        let front = members.drop_last();
        let before = text_members(front);
        lemma_text_members_distinct(front);
        assert forall|i: int| 0 <= i < before.len() implies (#[trigger] before[i]).0
            != members.last().0 by {
            lemma_text_members(front, before[i].0, before[i].1);
            let k = choose|k: int| 0 <= k < front.len() && (#[trigger] front[k]).0 == before[i].0;
            assert(members[k].0 != members[members.len() - 1].0);
        }
    }
}

/// An export name leads to a path exactly where the list of exports holds that name with that
/// path.
pub proof fn law_export_resolves_what_exports_lists(
    exports: JsonContent,
    name: Seq<char>,
    path: Seq<char>,
)
    requires
        exports matches JsonContent::Object(members) ==> distinct_names(members),
    ensures
        export_path(exports, name) == Some(path) <==> export_list(exports).contains((name, path)),
{
    match exports {
        JsonContent::Text(text) => {
            assert(export_list(exports)[0] == (seq!['.'], text));
        },
        JsonContent::Object(members) => {
            lemma_text_members(members, name, path);
            lemma_member(members, name);
            if let Some(value) = member(members, name) {
                let k = choose|k: int| 0 <= k < members.len() && members[k] == (name, value);
                assert(members[k].0 == name);
            }
        },
        JsonContent::Other => {},
    }
}

/// Where the metadata has a second module graph, the first is never looked at.
pub proof fn law_second_module_graph_hides_the_first(
    first: Option<Value>,
    other: Option<Value>,
    second: Value,
    specifier: Seq<char>,
)
    ensures
        module_entry(first, Some(second), specifier) == module_entry(
            other,
            Some(second),
            specifier,
        ),
{
}

} // verus!
