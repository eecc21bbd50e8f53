use unused_features::in_memory_toml::{DeclaredDependency, ManifestError, TomlInMemory};

const MANIFEST: &str = r#"[package]
name = "demo"
version = "0.1.0"

[dependencies]
x = "1.0"
y = { version = "2", default-features = false, features = ["c"] }
u = { workspace = true }
"#;

#[test]
fn both_shapes_resolve_to_declarations() {
    let m = TomlInMemory::new(MANIFEST.to_string()).ok().unwrap();
    let decls = m.declarations();
    let x = decls.iter().find(|d| d.name == "x").unwrap();
    assert!(x.default_features);
    assert!(x.features.is_empty());
    assert!(x.version.as_deref().unwrap().contains("1.0"));
    let y = decls.iter().find(|d| d.name == "y").unwrap();
    assert!(!y.default_features);
    assert_eq!(y.features, vec!["c".to_string()]);
    let u = decls.iter().find(|d| d.name == "u").unwrap();
    assert!(u.default_features);
    assert!(u.version.is_none());
}

#[test]
fn canonical_model_edits_and_resets() {
    let mut m = TomlInMemory::new(MANIFEST.to_string()).ok().unwrap();
    m.replace_dependency_feature(&"x".to_string(), vec!["a".to_string()]).unwrap();
    let x = m.dependencies.iter().find(|d| d.0 == "x").unwrap();
    match &x.1 {
        DeclaredDependency::Detailed { default_features, features, .. } => {
            assert!(!default_features);
            assert_eq!(features, &vec!["a".to_string()]);
        }
        _ => panic!("expected a detailed declaration"),
    }
    assert_eq!(m.replace_dependency_feature(&"missing".to_string(), vec![]), Err(ManifestError::DependencyNotFound));
    m.reset_dependencies();
    let x = m.dependencies.iter().find(|d| d.0 == "x").unwrap();
    assert!(matches!(x.1, DeclaredDependency::Simple(_)));
}

#[test]
fn unreadable_manifest_is_refused() {
    assert_eq!(TomlInMemory::new("not = = toml".to_string()).err(), Some(ManifestError::ManifestParse));
}
