use unused_features::resolver::{
    permutable_features, resolve, resolve_flags, DependencyDeclaration, FlagGraph, PackageFlags,
};

fn s(v: &str) -> String {
    v.to_string()
}

fn names(v: &[&str]) -> Vec<String> {
    v.iter().map(|x| x.to_string()).collect()
}

fn sorted(mut v: Vec<String>) -> Vec<String> {
    v.sort();
    v
}

fn graph() -> FlagGraph {
    FlagGraph {
        flags: vec![
            (s("default"), names(&["a", "b"])),
            (s("a"), vec![]),
            (s("b"), vec![]),
            (s("c"), names(&["d", "hidden"])),
            (s("d"), vec![]),
        ],
    }
}

fn decl(name: &str, defaults: bool, features: &[&str]) -> DependencyDeclaration {
    DependencyDeclaration { name: s(name), version: Some(s("1")), default_features: defaults, features: names(features) }
}

#[test]
fn no_defaults_no_explicit_is_empty() {
    assert!(resolve_flags(&decl("x", false, &[]), &graph()).is_empty());
}

#[test]
fn no_defaults_explicit_adds_implied_public_flags() {
    let r = resolve_flags(&decl("x", false, &["c"]), &graph());
    assert_eq!(sorted(r), names(&["c", "d"]));
}

#[test]
fn defaults_only_gives_default_flags() {
    let r = resolve_flags(&decl("x", true, &[]), &graph());
    assert_eq!(sorted(r), names(&["a", "b"]));
}

#[test]
fn defaults_and_explicit_give_union() {
    let r = resolve_flags(&decl("x", true, &["c"]), &graph());
    assert_eq!(sorted(r), names(&["a", "b", "c", "d"]));
}

#[test]
fn private_flags_are_never_included() {
    let r = resolve_flags(&decl("x", false, &["c", "secret"]), &graph());
    assert_eq!(sorted(r), names(&["c", "d"]));
}

#[test]
fn duplicates_are_listed_once() {
    let r = resolve_flags(&decl("x", true, &["a", "a", "b"]), &graph());
    assert_eq!(sorted(r), names(&["a", "b"]));
}

#[test]
fn excluded_dependency_is_absent() {
    assert!(resolve(&decl("x", true, &[]), &graph(), &names(&["x"])).is_none());
    assert_eq!(sorted(resolve(&decl("x", true, &[]), &graph(), &names(&["q"])).unwrap()), names(&["a", "b"]));
}

#[test]
fn scenario_c_dependency_with_empty_set_is_not_minimized() {
    let decls = vec![decl("x", true, &[]), decl("z", false, &[])];
    let pkgs = vec![
        PackageFlags { name: s("x"), graph: graph() },
        PackageFlags { name: s("z"), graph: graph() },
        PackageFlags { name: s("undeclared"), graph: graph() },
    ];
    let r = permutable_features(&decls, &pkgs, &vec![]);
    assert_eq!(r.len(), 1);
    assert_eq!(r[0].name, "x");
    assert_eq!(sorted(r[0].flags.clone()), names(&["a", "b"]));
}

#[test]
fn skipped_packages_are_not_minimized() {
    let decls = vec![decl("x", true, &[]), decl("y", false, &["c"])];
    let pkgs = vec![PackageFlags { name: s("x"), graph: graph() }, PackageFlags { name: s("y"), graph: graph() }];
    let r = permutable_features(&decls, &pkgs, &names(&["x"]));
    assert_eq!(r.len(), 1);
    assert_eq!(r[0].name, "y");
    assert_eq!(sorted(r[0].flags.clone()), names(&["c", "d"]));
}
