use vstd::prelude::*;

use crate::keyed::{keyed_view, keys_of, upsert};
use crate::names::{copy_names, names_of};
use crate::resolver::DependencyDeclaration;

verus! {

#[verifier::external_type_specification]
#[verifier::external_body]
pub struct ExCargoTomlError(cargo_toml::Error);

/// A dependency declaration in one of the manifest's surface shapes.
pub enum DeclaredDependency {
    /// `name = "version"`.
    Simple(String),
    /// `name = { version = ..., default-features = ..., features = [...] }`.
    Detailed { version: Option<String>, default_features: bool, features: Vec<String> },
    /// `name = { workspace = true }`: the declaration lives in the workspace root.
    Inherited { features: Vec<String> },
}

/// The text is a manifest that cargo_toml reads.
pub uninterp spec fn is_cargo_manifest(s: Seq<char>) -> bool;

pub open spec fn option_view(o: Option<String>) -> Option<Seq<char>> {
    match o {
        Some(s) => Some(s@),
        None => None,
    }
}

/// What a declaration in either surface shape states, as plain values.
pub enum DeclaredView {
    Simple(Seq<char>),
    Detailed { version: Option<Seq<char>>, default_features: bool, features: Seq<Seq<char>> },
    Inherited { features: Seq<Seq<char>> },
}

pub open spec fn declared_view(d: DeclaredDependency) -> DeclaredView {
    match d {
        DeclaredDependency::Simple(v) => DeclaredView::Simple(v@),
        DeclaredDependency::Detailed { version, default_features, features } => DeclaredView::Detailed {
            version: option_view(version),
            default_features,
            features: names_of(features@),
        },
        DeclaredDependency::Inherited { features } => DeclaredView::Inherited {
            features: names_of(features@),
        },
    }
}

/// The declarations of a list, by name and shape, in order.
pub open spec fn declared_views(v: Seq<(String, DeclaredDependency)>) -> Seq<
    (Seq<char>, DeclaredView),
> {
    v.map_values(|e: (String, DeclaredDependency)| (e.0@, declared_view(e.1)))
}

/// The dependency declarations that cargo_toml reads from a manifest text, in name order.
pub uninterp spec fn manifest_declarations(s: Seq<char>) -> Seq<(Seq<char>, DeclaredView)>;

/// Relies on `cargo_toml::Manifest::from_str`, whose result depends on the text alone, and on
/// its `dependencies` being a `BTreeMap`, which holds each name once; each declaration is
/// carried over field for field.
#[verifier::external_body]
fn read_declarations(text: &str) -> (r: Result<Vec<(String, DeclaredDependency)>, cargo_toml::Error>)
    ensures
        r.is_ok() == is_cargo_manifest(text@),
        r matches Ok(v) ==> keys_of(v@).no_duplicates() && declared_views(v@)
            == manifest_declarations(text@),
{
    let manifest = cargo_toml::Manifest::from_str(text)?;
    Ok(manifest.dependencies.into_iter().map(|(name, dep)| (name, match dep {
        cargo_toml::Dependency::Simple(req) => DeclaredDependency::Simple(req.to_string()),
        cargo_toml::Dependency::Detailed(d) => DeclaredDependency::Detailed {
            version: d.version.map(|v| v.to_string()),
            default_features: d.default_features,
            features: d.features,
        },
        cargo_toml::Dependency::Inherited(i) => DeclaredDependency::Inherited { features: i.features },
    })).collect())
}

/// A declaration's name, version, defaults setting and explicit flags.
pub struct DeclarationView {
    pub name: Seq<char>,
    pub version: Option<Seq<char>>,
    pub default_features: bool,
    pub features: Seq<Seq<char>>,
}

/// What a declaration in the logical shape states.
pub open spec fn declaration_view(d: DependencyDeclaration) -> DeclarationView {
    DeclarationView {
        name: d.name@,
        version: option_view(d.version),
        default_features: d.default_features,
        features: names_of(d.features@),
    }
}

/// A declaration in one logical shape: a version string declares the version with default
/// flags on and no explicit flags; an inherited declaration is read as defaults on and no
/// explicit flags.
pub open spec fn normalized(name: Seq<char>, d: DeclaredDependency) -> DeclarationView {
    match d {
        DeclaredDependency::Simple(v) => DeclarationView {
            name,
            version: Some(v@),
            default_features: true,
            features: Seq::empty(),
        },
        DeclaredDependency::Detailed { version, default_features, features } => DeclarationView {
            name,
            version: option_view(version),
            default_features,
            features: names_of(features@),
        },
        DeclaredDependency::Inherited { .. } => DeclarationView {
            name,
            version: None,
            default_features: true,
            features: Seq::empty(),
        },
    }
}

/// Two lists declare the same names in the same order, each with the same declaration.
pub open spec fn same_declarations(
    a: Seq<(String, DeclaredDependency)>,
    b: Seq<(String, DeclaredDependency)>,
) -> bool {
    &&& a.len() == b.len()
    &&& forall|i: int|
        0 <= i < a.len() ==> (#[trigger] a[i]).0@ == b[i].0@ && declared_view(a[i].1)
            == declared_view(b[i].1)
}

/// Why the canonical manifest model could not be read or edited.
#[derive(PartialEq, Eq, Structural, Debug, Clone, Copy)]
pub enum ManifestError {
    /// The manifest is not a readable Cargo manifest.
    ManifestParse,
    /// The manifest declares no dependency of the given name.
    DependencyNotFound,
}

fn copy_option(s: &Option<String>) -> (r: Option<String>)
    ensures
        option_view(r) == option_view(*s),
{
    match s {
        Some(v) => Some(v.clone()),
        None => None,
    }
}

/// The declaration of `name` in the logical shape.
pub fn declaration_of(name: &String, d: &DeclaredDependency) -> (r: DependencyDeclaration)
    ensures
        declaration_view(r) == normalized(name@, *d),
{
    let no_features: Vec<String> = Vec::new();
    proof {
        assert(names_of(no_features@) =~= Seq::<Seq<char>>::empty());
    }
    match d {
        DeclaredDependency::Simple(v) => DependencyDeclaration {
            name: name.clone(),
            version: Some(v.clone()),
            default_features: true,
            features: no_features,
        },
        DeclaredDependency::Detailed { version, default_features, features } => {
            DependencyDeclaration {
                name: name.clone(),
                version: copy_option(version),
                default_features: *default_features,
                features: copy_names(features),
            }
        },
        DeclaredDependency::Inherited { .. } => DependencyDeclaration {
            name: name.clone(),
            version: None,
            default_features: true,
            features: no_features,
        },
    }
}

/// A manifest's dependency declarations, read into a model that can be edited but does not
/// keep the text's formatting.
pub struct TomlInMemory {
    pub dependencies: Vec<(String, DeclaredDependency)>,
    pub original_dependencies: Vec<(String, DeclaredDependency)>,
}

impl TomlInMemory {
    /// The declarations by name.
    pub open spec fn declared(&self) -> Map<Seq<char>, DeclaredDependency> {
        keyed_view(self.dependencies@)
    }

    pub open spec fn wf(&self) -> bool {
        keys_of(self.dependencies@).no_duplicates()
    }

    /// Reads the dependency declarations of a manifest.
    pub fn new(toml_contents: String) -> (r: Result<Self, ManifestError>)
        ensures
            r is Ok <==> is_cargo_manifest(toml_contents@),
            r is Err ==> r == Err::<Self, ManifestError>(ManifestError::ManifestParse),
            r matches Ok(t) ==> t.wf() && same_declarations(
                t.original_dependencies@,
                t.dependencies@,
            ) && declared_views(t.dependencies@) == manifest_declarations(toml_contents@),
    {
        match read_declarations(toml_contents.as_str()) {
            Err(_) => Err(ManifestError::ManifestParse),
            Ok(dependencies) => {
                let original_dependencies = copy_declarations(&dependencies);
                Ok(TomlInMemory { dependencies, original_dependencies })
            },
        }
    }

    /// The declarations in the logical shape, in manifest order.
    pub fn declarations(&self) -> (r: Vec<DependencyDeclaration>)
        ensures
            r@.len() == self.dependencies@.len(),
            forall|i: int|
                0 <= i < r@.len() ==> declaration_view(#[trigger] r@[i]) == normalized(
                    self.dependencies@[i].0@,
                    self.dependencies@[i].1,
                ),
    {
        let mut r: Vec<DependencyDeclaration> = Vec::new();
        let mut i: usize = 0;
        while i < self.dependencies.len()
            invariant
                i <= self.dependencies.len(),
                r@.len() == i,
                forall|j: int|
                    0 <= j < i ==> declaration_view(#[trigger] r@[j]) == normalized(
                        self.dependencies@[j].0@,
                        self.dependencies@[j].1,
                    ),
            decreases self.dependencies.len() - i,
        {
            let (name, d) = &self.dependencies[i];
            r.push(declaration_of(name, d));
            i = i + 1;
        }
        r
    }

    /// Sets the flags of dependency `dependency` to `features` with defaults disabled; a
    /// version string becomes a detailed declaration; an inherited one is left as it is.
    pub fn replace_dependency_feature(&mut self, dependency: &String, features: Vec<String>) -> (r:
        Result<(), ManifestError>)
        requires
            old(self).wf(),
        ensures
            final(self).wf(),
            final(self).original_dependencies == old(self).original_dependencies,
            r is Err <==> !old(self).declared().contains_key(dependency@),
            r is Err ==> r == Err::<(), ManifestError>(ManifestError::DependencyNotFound)
                && final(self).declared() == old(self).declared(),
            r is Ok ==> match old(self).declared()[dependency@] {
                DeclaredDependency::Simple(v) => final(self).declared() == old(self).declared().insert(
                    dependency@,
                    (DeclaredDependency::Detailed {
                        version: Some(v),
                        default_features: false,
                        features,
                    }),
                ),
                DeclaredDependency::Detailed { version, .. } => final(self).declared() == old(self).declared().insert(
                    dependency@,
                    (DeclaredDependency::Detailed { version, default_features: false, features }),
                ),
                DeclaredDependency::Inherited { .. } => final(self).declared() == old(self).declared(),
            },
    {
        let mut i: usize = 0;
        while i < self.dependencies.len()
            invariant
                i <= self.dependencies.len(),
                self.wf(),
                self.dependencies@ == old(self).dependencies@,
                self.original_dependencies == old(self).original_dependencies,
                forall|j: int| 0 <= j < i ==> (#[trigger] self.dependencies@[j]).0@ != dependency@,
            decreases self.dependencies.len() - i,
        {
            if self.dependencies[i].0 == *dependency {
                let ghost before = self.dependencies@;
                proof {
                    crate::keyed::lemma_keyed_view_at(before, i as int);
                }
                let replacement = match &self.dependencies[i].1 {
                    DeclaredDependency::Simple(v) => Some(DeclaredDependency::Detailed {
                        version: Some(v.clone()),
                        default_features: false,
                        features,
                    }),
                    DeclaredDependency::Detailed { version, .. } => Some(
                        DeclaredDependency::Detailed {
                            version: version.clone(),
                            default_features: false,
                            features,
                        },
                    ),
                    DeclaredDependency::Inherited { .. } => None,
                };
                if let Some(d) = replacement {
                    upsert(&mut self.dependencies, dependency.clone(), d);
                }
                return Ok(());
            }
            i = i + 1;
        }
        proof {
            if keyed_view(self.dependencies@).contains_key(dependency@) {
                let q = choose|q: int|
                    0 <= q < keys_of(self.dependencies@).len() && keys_of(self.dependencies@)[q]
                        == dependency@;
                assert(self.dependencies@[q].0@ == dependency@);
            }
        }
        Err(ManifestError::DependencyNotFound)
    }

    /// Puts the declarations back as they were read.
    pub fn reset_dependencies(&mut self)
        ensures
            final(self).dependencies@.len() == old(self).original_dependencies@.len(),
            final(self).original_dependencies == old(self).original_dependencies,
            keys_of(final(self).dependencies@) == keys_of(old(self).original_dependencies@),
            same_declarations(final(self).dependencies@, old(self).original_dependencies@),
    {
        self.dependencies = copy_declarations(&self.original_dependencies);
    }
}

fn copy_declaration(d: &DeclaredDependency) -> (r: DeclaredDependency)
    ensures
        declared_view(r) == declared_view(*d),
{
    match d {
        DeclaredDependency::Simple(v) => DeclaredDependency::Simple(v.clone()),
        DeclaredDependency::Detailed { version, default_features, features } => {
            DeclaredDependency::Detailed {
                version: copy_option(version),
                default_features: *default_features,
                features: copy_names(features),
            }
        },
        DeclaredDependency::Inherited { features } => DeclaredDependency::Inherited {
            features: copy_names(features),
        },
    }
}

fn copy_declarations(v: &Vec<(String, DeclaredDependency)>) -> (r: Vec<(String, DeclaredDependency)>)
    ensures
        r@.len() == v@.len(),
        keys_of(r@) == keys_of(v@),
        same_declarations(r@, v@),
{
    let mut r: Vec<(String, DeclaredDependency)> = Vec::new();
    let mut i: usize = 0;
    while i < v.len()
        invariant
            i <= v.len(),
            keys_of(r@) == keys_of(v@).subrange(0, i as int),
            r@.len() == i,
            forall|j: int|
                0 <= j < i ==> (#[trigger] r@[j]).0@ == v@[j].0@ && declared_view(r@[j].1)
                    == declared_view(v@[j].1),
        decreases v.len() - i,
    {
        let ghost before = r@;
        r.push((v[i].0.clone(), copy_declaration(&v[i].1)));
        i = i + 1;
        proof {
            assert(keys_of(r@) =~= keys_of(before).push(v@[i - 1].0@));
            assert(keys_of(r@) =~= keys_of(v@).subrange(0, i as int));
        }
    }
    proof {
        assert(keys_of(v@).subrange(0, v@.len() as int) =~= keys_of(v@));
    }
    r
}

} // verus!
