use unused_features::editable_toml::{EditError, TomlEdit};
use unused_features::engine::{finish_trial, prune_dependencies, start_trial};
use unused_features::feature_buffer::DependencyFeaturePermutator;
use unused_features::report::{Report, ReportError, WorkspaceCrate, REPORT_VERSION};
use unused_features::resolver::{resolve_flags, DependencyDeclaration, FlagGraph};

const MANIFEST: &str = r#"[package]
name = "demo"
version = "0.1.0"

# the dependencies
[dependencies]
x = "1.0" # short form
y = { version = "2", default-features = false, features = ["c"] }
z = { version = "3", default-features = false }

[dependencies.w]
version = "4"
"#;

fn names(v: &[&str]) -> Vec<String> {
    v.iter().map(|x| x.to_string()).collect()
}

fn sorted(mut v: Vec<String>) -> Vec<String> {
    v.sort();
    v
}

/// Runs minimization of one dependency; `builds(f)` tells whether the build without `f`
/// succeeds. Returns the final state and the number of trial builds.
fn minimize(
    edit: &mut TomlEdit,
    dependency: &str,
    flags: Vec<String>,
    builds: &dyn Fn(&str) -> bool,
) -> (DependencyFeaturePermutator, usize) {
    let mut p = DependencyFeaturePermutator::new(flags);
    let mut trials = 0;
    let name = dependency.to_string();
    while !p.features_left() {
        let (candidate, text) = start_trial(edit, &mut p, &name);
        if let Some(text) = text {
            trials += 1;
            assert!(text.contains(&format!("{name} = {{")));
            finish_trial(edit, &mut p, builds(&candidate));
        }
    }
    (p, trials)
}

fn entry(doc: &str, name: &str) -> (Option<String>, Option<bool>, Option<Vec<String>>) {
    let d: toml_edit::DocumentMut = doc.parse().unwrap();
    let e = &d["dependencies"][name];
    let version = e.get("version").and_then(|v| v.as_str()).map(|v| v.to_string());
    let defaults = e.get("default-features").and_then(|v| v.as_bool());
    let features = e.get("features").and_then(|v| v.as_array()).map(|a| {
        a.iter().map(|v| v.as_str().unwrap().to_string()).collect::<Vec<String>>()
    });
    (version, defaults, features)
}

#[test]
fn scenario_a_short_form_with_defaults() {
    let graph = FlagGraph {
        flags: vec![("default".to_string(), names(&["a", "b"])), ("a".to_string(), vec![]), ("b".to_string(), vec![])],
    };
    let decl = DependencyDeclaration { name: "x".to_string(), version: Some("1.0".to_string()), default_features: true, features: vec![] };
    let flags = resolve_flags(&decl, &graph);
    assert_eq!(sorted(flags.clone()), names(&["a", "b"]));

    let mut edit = TomlEdit::new(MANIFEST.to_string()).unwrap();
    let loaded = edit.serialize();
    let (p, trials) = minimize(&mut edit, "x", flags, &|f| f == "a");
    assert_eq!(trials, 2);
    assert_eq!(p.successfully_removed_features().clone(), names(&["a"]));
    assert_eq!(p.unsuccessfully_removed_features().clone(), names(&["b"]));
    assert_eq!(edit.serialize(), loaded);

    let mut record = WorkspaceCrate::new("/demo/Cargo.toml");
    record.add_dependency_result(&"x".to_string(), &p);
    assert_eq!(record.dependencies.len(), 1);
    let failures = prune_dependencies(&mut edit, &record);
    assert!(failures.is_empty());
    let pruned = edit.serialize();
    assert_eq!(entry(&pruned, "x"), (Some("1.0".to_string()), Some(false), Some(names(&["b"]))));
    assert!(pruned.contains("# the dependencies"));
    assert!(pruned.contains(r#"y = { version = "2", default-features = false, features = ["c"] }"#));
}

#[test]
fn scenario_b_detailed_form_all_removable() {
    let graph = FlagGraph {
        flags: vec![("c".to_string(), names(&["d"])), ("d".to_string(), vec![])],
    };
    let decl = DependencyDeclaration { name: "y".to_string(), version: Some("2".to_string()), default_features: false, features: names(&["c"]) };
    let flags = resolve_flags(&decl, &graph);
    assert_eq!(sorted(flags.clone()), names(&["c", "d"]));

    let mut edit = TomlEdit::new(MANIFEST.to_string()).unwrap();
    let (p, trials) = minimize(&mut edit, "y", flags, &|_| true);
    assert_eq!(trials, 2);
    assert_eq!(sorted(p.successfully_removed_features().clone()), names(&["c", "d"]));
    assert!(p.unsuccessfully_removed_features().is_empty());

    let mut record = WorkspaceCrate::new("/demo/Cargo.toml");
    record.add_dependency_result(&"y".to_string(), &p);
    let failures = prune_dependencies(&mut edit, &record);
    assert!(failures.is_empty());
    let pruned = edit.serialize();
    assert_eq!(entry(&pruned, "y"), (Some("2".to_string()), Some(false), None));
}

#[test]
fn totality_every_flag_classified_once() {
    let flags = names(&["f1", "f2", "f3", "f4", "f5"]);
    for mask in 0u32..32 {
        let mut edit = TomlEdit::new(MANIFEST.to_string()).unwrap();
        let builds = move |f: &str| {
            let i: u32 = f[1..].parse().unwrap();
            mask & (1 << (i - 1)) != 0
        };
        let (p, trials) = minimize(&mut edit, "z", flags.clone(), &builds);
        assert_eq!(trials, 5);
        let mut all = p.successfully_removed_features().clone();
        all.extend(p.unsuccessfully_removed_features().clone());
        assert_eq!(sorted(all), flags);
        assert_eq!(p.successfully_removed_features().len(), mask.count_ones() as usize);
    }
}

#[test]
fn trial_list_leaves_out_candidate_and_removable_flags() {
    let mut p = DependencyFeaturePermutator::new(names(&["a", "b", "c"]));
    assert_eq!(p.left_count(), 3);
    let (trial, candidate) = p.permutated_features();
    assert_eq!(candidate, "c");
    assert_eq!(trial, names(&["a", "b"]));
    p.record_outcome(true);
    let (trial, candidate) = p.permutated_features();
    assert_eq!(candidate, "b");
    assert_eq!(trial, names(&["a"]));
    p.record_outcome(false);
    let (trial, candidate) = p.permutated_features();
    assert_eq!(candidate, "a");
    assert_eq!(trial, names(&["b"]));
    p.record_outcome(true);
    assert!(p.features_left());
    assert_eq!(p.left_count(), 1);
}

#[test]
fn failed_edit_counts_as_required() {
    let mut edit = TomlEdit::new(MANIFEST.to_string()).unwrap();
    let loaded = edit.serialize();
    let mut p = DependencyFeaturePermutator::new(names(&["a"]));
    let (candidate, text) = start_trial(&mut edit, &mut p, &"absent".to_string());
    assert_eq!(candidate, "a");
    assert!(text.is_none());
    assert_eq!(p.unsuccessfully_removed_features().clone(), names(&["a"]));
    assert!(p.features_left());
    assert_eq!(edit.serialize(), loaded);

    let mut q = DependencyFeaturePermutator::new(names(&["b", "c"]));
    let (candidate, text) = start_trial(&mut edit, &mut q, &"w".to_string());
    assert_eq!(candidate, "c");
    assert!(text.is_none());
    assert_eq!(q.unsuccessfully_removed_features().clone(), names(&["c"]));
    assert_eq!(q.left_count(), 2);
    assert_eq!(edit.serialize(), loaded);
}

#[test]
fn restore_after_edits_gives_back_loaded_text() {
    let mut edit = TomlEdit::new(MANIFEST.to_string()).unwrap();
    let loaded = edit.serialize();
    edit.replace_dependency_features(&"x".to_string(), names(&["q"])).unwrap();
    edit.replace_dependency_features(&"y".to_string(), vec![]).unwrap();
    edit.replace_dependency_features(&"z".to_string(), names(&["r", "s"])).unwrap();
    assert_ne!(edit.serialize(), loaded);
    edit.reset();
    assert_eq!(edit.serialize(), loaded);
    edit.reset();
    assert_eq!(edit.serialize(), loaded);
}

#[test]
fn setting_flags_twice_equals_once() {
    for (dep, flags) in [("x", names(&["a"])), ("x", vec![]), ("y", names(&["c", "e"])), ("y", vec![]), ("z", names(&["k"]))] {
        let mut once = TomlEdit::new(MANIFEST.to_string()).unwrap();
        once.replace_dependency_features(&dep.to_string(), flags.clone()).unwrap();
        let mut twice = TomlEdit::new(MANIFEST.to_string()).unwrap();
        twice.replace_dependency_features(&dep.to_string(), flags.clone()).unwrap();
        twice.replace_dependency_features(&dep.to_string(), flags.clone()).unwrap();
        assert_eq!(once.serialize(), twice.serialize());
    }
}

#[test]
fn short_form_without_flags_gets_no_features_key() {
    let mut edit = TomlEdit::new(MANIFEST.to_string()).unwrap();
    edit.replace_dependency_features(&"x".to_string(), vec![]).unwrap();
    assert_eq!(entry(&edit.serialize(), "x"), (Some("1.0".to_string()), Some(false), None));
}

#[test]
fn detailed_form_gains_default_features_and_flags() {
    let text = "[dependencies]\nv = { version = \"5\" }\n";
    let mut edit = TomlEdit::new(text.to_string()).unwrap();
    edit.replace_dependency_features(&"v".to_string(), names(&["m", "n"])).unwrap();
    assert_eq!(entry(&edit.serialize(), "v"), (Some("5".to_string()), Some(false), Some(names(&["m", "n"]))));
}

#[test]
fn edit_errors() {
    let mut edit = TomlEdit::new(MANIFEST.to_string()).unwrap();
    let loaded = edit.serialize();
    assert_eq!(edit.replace_dependency_features(&"nope".to_string(), vec![]), Err(EditError::DependencyNotFound));
    assert_eq!(edit.replace_dependency_features(&"w".to_string(), vec![]), Err(EditError::MalformedEntry));
    assert_eq!(edit.serialize(), loaded);
    assert_eq!(TomlEdit::new("[package]\nname = \"p\"\n".to_string()).err(), Some(EditError::DependenciesNotFound));
    assert_eq!(TomlEdit::new("this is = = not toml".to_string()).err(), Some(EditError::ManifestParse));
}

#[test]
fn prune_reports_entries_it_cannot_edit() {
    let mut edit = TomlEdit::new(MANIFEST.to_string()).unwrap();
    let mut record = WorkspaceCrate::new("/demo/Cargo.toml");
    record.add_permutated_dependency("w".to_string(), names(&["a"]), names(&["a"]), vec![]);
    record.add_permutated_dependency("gone".to_string(), names(&["a"]), names(&["a"]), vec![]);
    record.add_permutated_dependency("z".to_string(), names(&["a", "b"]), names(&["a"]), names(&["b"]));
    let failures = prune_dependencies(&mut edit, &record);
    assert_eq!(failures, vec![("w".to_string(), EditError::MalformedEntry), ("gone".to_string(), EditError::DependencyNotFound)]);
    assert_eq!(entry(&edit.serialize(), "z"), (Some("3".to_string()), Some(false), Some(names(&["b"]))));
}

#[test]
fn report_omits_dependencies_and_packages_without_removable_flags() {
    let mut none_removable = DependencyFeaturePermutator::new(names(&["a"]));
    let (_, _) = none_removable.permutated_features();
    none_removable.record_outcome(false);
    let mut record = WorkspaceCrate::new("/demo/Cargo.toml");
    record.add_dependency_result(&"x".to_string(), &none_removable);
    assert!(record.dependencies.is_empty());

    let mut report = Report::new("demo");
    assert_eq!(report.version, REPORT_VERSION);
    report.add_workspace_crate("demo".to_string(), record);
    assert!(report.workspace_crates.is_empty());

    let mut some_removable = DependencyFeaturePermutator::new(names(&["a"]));
    let (_, _) = some_removable.permutated_features();
    some_removable.record_outcome(true);
    let mut record = WorkspaceCrate::new("/demo/Cargo.toml");
    record.add_dependency_result(&"x".to_string(), &some_removable);
    report.add_workspace_crate("demo".to_string(), record);
    assert_eq!(report.workspace_crates.len(), 1);
    assert_eq!(report.workspace_crates[0].0, "demo");
    let entry = &report.workspace_crates[0].1.dependencies[0];
    assert_eq!(entry.0, "x");
    assert_eq!(entry.1.successfully_removed_features, names(&["a"]));
    assert_eq!(entry.1.kept_features(), Vec::<String>::new());
}

#[test]
fn report_version_mismatch_is_refused() {
    let r = Report::from_parts(REPORT_VERSION + 1, "demo".to_string(), vec![]);
    assert_eq!(r.err(), Some(ReportError::VersionMismatch { found: REPORT_VERSION + 1 }));
    let ok = Report::from_parts(REPORT_VERSION, "demo".to_string(), vec![]).ok().unwrap();
    assert_eq!(ok.root_name, "demo");
}

#[test]
fn kept_features_keep_original_order() {
    let mut record = WorkspaceCrate::new("p");
    record.add_permutated_dependency("d".to_string(), names(&["a", "b", "c", "e"]), names(&["b", "e"]), names(&["a", "c"]));
    record.add_permutated_dependency("d".to_string(), names(&["a", "b", "c"]), names(&["b"]), names(&["a", "c"]));
    assert_eq!(record.dependencies.len(), 1);
    assert_eq!(record.dependencies[0].1.kept_features(), names(&["a", "c"]));
}

const DETAILED: &str = r#"# top comment
[package]
name = "demo"

[dependencies]
a = "1"   # first
v = { path = "../v", version = "5", optional = true, features = ["a", "b"] }
u = { workspace = true }
z = "3"

[dev-dependencies]
q = "1"
"#;

fn keys_of(doc: &str, name: &str) -> Vec<String> {
    let d: toml_edit::DocumentMut = doc.parse().unwrap();
    d["dependencies"][name].as_inline_table().unwrap().iter().map(|(k, _)| k.to_string()).collect()
}

#[test]
fn inline_entry_keeps_other_keys_and_their_order() {
    let mut edit = TomlEdit::new(DETAILED.to_string()).unwrap();
    edit.replace_dependency_features(&"v".to_string(), names(&["a"])).unwrap();
    let text = edit.serialize();
    assert_eq!(keys_of(&text, "v"), names(&["path", "version", "optional", "features", "default-features"]));
    let d: toml_edit::DocumentMut = text.parse().unwrap();
    assert_eq!(d["dependencies"]["v"]["path"].as_str(), Some("../v"));
    assert_eq!(d["dependencies"]["v"]["optional"].as_bool(), Some(true));
    assert_eq!(entry(&text, "v"), (Some("5".to_string()), Some(false), Some(names(&["a"]))));
}

#[test]
fn text_outside_the_entry_is_unchanged() {
    let mut edit = TomlEdit::new(DETAILED.to_string()).unwrap();
    let loaded = edit.serialize();
    edit.replace_dependency_features(&"v".to_string(), vec![]).unwrap();
    let text = edit.serialize();
    let before: Vec<&str> = loaded.lines().collect();
    let after: Vec<&str> = text.lines().collect();
    assert_eq!(before.len(), after.len());
    for (b, a) in before.iter().zip(after.iter()) {
        if !b.starts_with("v = ") {
            assert_eq!(b, a);
        }
    }
    assert_eq!(keys_of(&text, "v"), names(&["path", "version", "optional", "default-features"]));
}

#[test]
fn short_entry_becomes_table_with_only_the_expected_keys() {
    let mut edit = TomlEdit::new(DETAILED.to_string()).unwrap();
    edit.replace_dependency_features(&"z".to_string(), names(&["m"])).unwrap();
    assert_eq!(keys_of(&edit.serialize(), "z"), names(&["features", "default-features", "version"]));
    let mut edit = TomlEdit::new(DETAILED.to_string()).unwrap();
    edit.replace_dependency_features(&"z".to_string(), vec![]).unwrap();
    assert_eq!(keys_of(&edit.serialize(), "z"), names(&["default-features", "version"]));
}

#[test]
fn workspace_inherited_entry_is_left_alone() {
    let mut edit = TomlEdit::new(DETAILED.to_string()).unwrap();
    let loaded = edit.serialize();
    assert_eq!(edit.replace_dependency_features(&"u".to_string(), names(&["a"])), Ok(()));
    assert_eq!(edit.serialize(), loaded);
}

#[test]
fn setting_flags_twice_keeps_text_on_detailed_entries() {
    for flags in [names(&["a"]), vec![], names(&["x", "y"])] {
        let mut once = TomlEdit::new(DETAILED.to_string()).unwrap();
        once.replace_dependency_features(&"v".to_string(), flags.clone()).unwrap();
        let first = once.serialize();
        once.replace_dependency_features(&"v".to_string(), flags.clone()).unwrap();
        assert_eq!(once.serialize(), first);
    }
}
