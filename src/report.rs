use vstd::prelude::*;

use crate::feature_buffer::DependencyFeaturePermutator;
use crate::keyed::{keyed_view, keys_of, upsert};
use crate::names::{copy_names, distinct_names, name_set, names_of};

verus! {

/// The version of the report format that this library writes and reads.
pub const REPORT_VERSION: u16 = 0;

/// What minimization found for one dependency.
pub struct ReportDependencyEntry {
    /// The flags that were enabled, explicitly or implicitly.
    pub original_features: Vec<String>,
    /// The flags whose removal still let the package build.
    pub successfully_removed_features: Vec<String>,
    /// The flags whose removal broke the build.
    pub unsuccessfully_removed_features: Vec<String>,
}

/// The findings for one package, by dependency name.
pub struct WorkspaceCrate {
    /// Full path to the package's manifest.
    pub full_path: String,
    pub dependencies: Vec<(String, ReportDependencyEntry)>,
}

/// The findings for a project, by package name.
pub struct Report {
    pub version: u16,
    /// The name of the root package, or of the workspace.
    pub root_name: String,
    pub workspace_crates: Vec<(String, WorkspaceCrate)>,
}

/// Why a report document was refused.
#[derive(PartialEq, Eq, Structural, Debug, Clone, Copy)]
pub enum ReportError {
    /// The document carries another format version than this library's.
    VersionMismatch { found: u16 },
}

/// The names of `orig` that `removed` does not hold, in order.
pub open spec fn kept_names(orig: Seq<Seq<char>>, removed: Set<Seq<char>>) -> Seq<Seq<char>>
    decreases orig.len(),
{
    if orig.len() == 0 {
        Seq::empty()
    } else if removed.contains(orig.last()) {
        kept_names(orig.drop_last(), removed)
    } else {
        kept_names(orig.drop_last(), removed).push(orig.last())
    }
}

impl ReportDependencyEntry {
    /// Each of the three lists names a flag at most once.
    pub open spec fn wf(&self) -> bool {
        &&& distinct_names(self.original_features@)
        &&& distinct_names(self.successfully_removed_features@)
        &&& distinct_names(self.unsuccessfully_removed_features@)
    }

    /// The entry lists some removable flag.
    pub open spec fn has_removable(&self) -> bool {
        self.successfully_removed_features@.len() > 0
    }

    /// The flags to keep once the removable ones are dropped: the original flags but the
    /// removable ones, in their original order.
    pub fn kept_features(&self) -> (r: Vec<String>)
        ensures
            name_set(r@) == name_set(self.original_features@).difference(
                name_set(self.successfully_removed_features@),
            ),
            forall|i: int|
                0 <= i < r@.len() ==> names_of(self.original_features@).contains(
                    #[trigger] r@[i]@,
                ),
            names_of(r@) == kept_names(
                names_of(self.original_features@),
                name_set(self.successfully_removed_features@),
            ),
    {
        let mut r: Vec<String> = Vec::new();
        let mut i: usize = 0;
        let ghost orig = names_of(self.original_features@);
        let ghost removed = name_set(self.successfully_removed_features@);
        while i < self.original_features.len()
            invariant
                i <= self.original_features.len(),
                orig == names_of(self.original_features@),
                removed == name_set(self.successfully_removed_features@),
                forall|x: Seq<char>|
                    #[trigger] names_of(r@).contains(x) <==> (orig.subrange(0, i as int).contains(x)
                        && !removed.contains(x)),
                forall|j: int| 0 <= j < r@.len() ==> orig.contains(#[trigger] r@[j]@),
                names_of(r@) == kept_names(orig.subrange(0, i as int), removed),
            decreases self.original_features.len() - i,
        {
            let f = &self.original_features[i];
            let ghost before = r@;
            let drop = crate::names::contains_name(&self.successfully_removed_features, f);
            if !drop {
                r.push(f.clone());
            }
            i = i + 1;
            proof {
                crate::names::lemma_name_set_contains(self.successfully_removed_features@, f@);
                let pre = orig.subrange(0, i - 1);
                let cur = orig.subrange(0, i as int);
                assert(cur =~= pre.push(f@));
                assert(orig[i - 1] == f@);
                assert(cur.drop_last() =~= pre);
                if !drop {
                    assert(names_of(r@) =~= names_of(before).push(f@));
                } else {
                    assert(r@ == before);
                }
                assert forall|x: Seq<char>|
                    #[trigger] names_of(r@).contains(x) <==> (cur.contains(x) && !removed.contains(
                        x,
                    )) by {
                    crate::names::lemma_concat_contains(names_of(before), seq![f@], x);
                    crate::names::lemma_concat_contains(pre, seq![f@], x);
                    assert(names_of(before).push(f@) =~= names_of(before) + seq![f@]);
                    assert(pre.push(f@) =~= pre + seq![f@]);
                    assert(seq![f@].contains(x) <==> x == f@) by {
                        if x == f@ {
                            assert(seq![f@][0] == x);
                        }
                    }
                }
                assert forall|j: int| 0 <= j < r@.len() implies orig.contains(#[trigger] r@[j]@) by {
                    if j == before.len() {
                        assert(orig[i - 1] == r@[j]@);
                    } else {
                        assert(r@[j] == before[j]);
                    }
                }
            }
        }
        proof {
            assert(orig.subrange(0, orig.len() as int) =~= orig);
            assert forall|x: Seq<char>| #[trigger] name_set(r@).contains(x) == name_set(
                self.original_features@,
            ).difference(removed).contains(x) by {
                crate::names::lemma_name_set_contains(r@, x);
                crate::names::lemma_name_set_contains(self.original_features@, x);
            }
            assert(name_set(r@) =~= name_set(self.original_features@).difference(removed));
        }
        r
    }
}

impl WorkspaceCrate {
    /// The dependencies' entries by name.
    pub open spec fn entries(&self) -> Map<Seq<char>, ReportDependencyEntry> {
        keyed_view(self.dependencies@)
    }

    /// No dependency is listed twice, and each entry is well formed.
    pub open spec fn wf(&self) -> bool {
        &&& keys_of(self.dependencies@).no_duplicates()
        &&& forall|k: Seq<char>| #[trigger]
            self.entries().contains_key(k) ==> self.entries()[k].wf()
    }

    /// Every listed dependency has some removable flag.
    pub open spec fn lists_only_removable(&self) -> bool {
        forall|k: Seq<char>| #[trigger]
            self.entries().contains_key(k) ==> self.entries()[k].has_removable()
    }

    /// An empty record for the package whose manifest is at `full_path`.
    pub fn new(full_path: &str) -> (r: Self)
        ensures
            r.wf(),
            r.lists_only_removable(),
            r.full_path@ == full_path@,
            r.entries() == Map::<Seq<char>, ReportDependencyEntry>::empty(),
    {
        let r = WorkspaceCrate { full_path: full_path.to_string(), dependencies: Vec::new() };
        proof {
            assert(keys_of(r.dependencies@) =~= Seq::<Seq<char>>::empty());
            assert(r.entries() =~= Map::<Seq<char>, ReportDependencyEntry>::empty());
        }
        r
    }

    /// Records the findings for one dependency, in place of any earlier ones.
    pub fn add_permutated_dependency(
        &mut self,
        dependency_name: String,
        all_features: Vec<String>,
        successfully_removed_features: Vec<String>,
        unsuccessfully_removed_features: Vec<String>,
    )
        requires
            old(self).wf(),
            distinct_names(all_features@),
            distinct_names(successfully_removed_features@),
            distinct_names(unsuccessfully_removed_features@),
        ensures
            final(self).wf(),
            final(self).full_path == old(self).full_path,
            final(self).entries() == old(self).entries().insert(
                dependency_name@,
                (ReportDependencyEntry {
                    original_features: all_features,
                    successfully_removed_features: successfully_removed_features,
                    unsuccessfully_removed_features: unsuccessfully_removed_features,
                }),
            ),
    {
        let entry = ReportDependencyEntry {
            original_features: all_features,
            successfully_removed_features,
            unsuccessfully_removed_features,
        };
        let ghost key = dependency_name@;
        let ghost e = entry;
        let ghost before = self.entries();
        upsert(&mut self.dependencies, dependency_name, entry);
        proof {
            assert(e.wf());
            assert forall|k: Seq<char>| #[trigger]
                self.entries().contains_key(k) implies self.entries()[k].wf() by {
                if k != key {
                    assert(before.contains_key(k));
                }
            }
        }
    }

    /// Records what minimization found for a dependency, where some flag of it proved
    /// removable; a dependency with nothing removable is left out.
    pub fn add_dependency_result(
        &mut self,
        dependency_name: &String,
        permutator: &DependencyFeaturePermutator,
    )
        requires
            old(self).wf(),
            permutator.wf(),
        ensures
            final(self).wf(),
            final(self).full_path == old(self).full_path,
            permutator.view().removable.len() == 0 ==> final(self).entries() == old(self).entries(),
            permutator.view().removable.len() > 0 ==> final(self).entries().contains_key(
                dependency_name@,
            ) && final(self).entries() == old(self).entries().insert(
                dependency_name@,
                final(self).entries()[dependency_name@],
            ) && names_of(final(self).entries()[dependency_name@].original_features@)
                == permutator.view().original && names_of(
                final(self).entries()[dependency_name@].successfully_removed_features@,
            ) == permutator.view().removable && names_of(
                final(self).entries()[dependency_name@].unsuccessfully_removed_features@,
            ) == permutator.view().required,
            old(self).lists_only_removable() ==> final(self).lists_only_removable(),
    {
        let removable = permutator.successfully_removed_features();
        if removable.len() > 0 {
            let all = copy_names(permutator.original_features());
            let ok = copy_names(removable);
            let failed = copy_names(permutator.unsuccessfully_removed_features());
            self.add_permutated_dependency(dependency_name.clone(), all, ok, failed);
            proof {
                assert(final(self).entries().contains_key(dependency_name@));
            }
        }
    }
}

impl Report {
    /// The packages' records by name.
    pub open spec fn crates(&self) -> Map<Seq<char>, WorkspaceCrate> {
        keyed_view(self.workspace_crates@)
    }

    /// No package is listed twice.
    pub open spec fn wf(&self) -> bool {
        keys_of(self.workspace_crates@).no_duplicates()
    }

    /// Every listed package lists some dependency, and each of those has some removable
    /// flag.
    pub open spec fn omits_empty(&self) -> bool {
        forall|k: Seq<char>| #[trigger]
            self.crates().contains_key(k) ==> self.crates()[k].dependencies@.len() > 0
                && self.crates()[k].lists_only_removable()
    }

    /// An empty report of the current version for the project named `root_name`.
    pub fn new(root_name: &str) -> (r: Self)
        ensures
            r.wf(),
            r.omits_empty(),
            r.version == REPORT_VERSION,
            r.root_name@ == root_name@,
            r.crates() == Map::<Seq<char>, WorkspaceCrate>::empty(),
    {
        let r = Report {
            root_name: root_name.to_string(),
            workspace_crates: Vec::new(),
            version: REPORT_VERSION,
        };
        proof {
            assert(keys_of(r.workspace_crates@) =~= Seq::<Seq<char>>::empty());
            assert(r.crates() =~= Map::<Seq<char>, WorkspaceCrate>::empty());
        }
        r
    }

    /// Adds a package's record, in place of any earlier one; a record without
    /// dependencies is left out.
    pub fn add_workspace_crate(&mut self, crate_name: String, workspace_crate: WorkspaceCrate)
        requires
            old(self).wf(),
        ensures
            final(self).wf(),
            final(self).version == old(self).version,
            final(self).root_name == old(self).root_name,
            workspace_crate.dependencies@.len() == 0 ==> final(self).crates() == old(self).crates(),
            workspace_crate.dependencies@.len() > 0 ==> final(self).crates() == old(self).crates().insert(crate_name@, workspace_crate),
            old(self).omits_empty() && workspace_crate.lists_only_removable() ==> final(self).omits_empty(),
    {
        if workspace_crate.dependencies.len() == 0 {
            return;
        }
        let ghost key = crate_name@;
        let ghost c = workspace_crate;
        let ghost before = self.crates();
        upsert(&mut self.workspace_crates, crate_name, workspace_crate);
        proof {
            assert forall|k: Seq<char>| #[trigger]
                self.crates().contains_key(k) && old(self).omits_empty()
                    && c.lists_only_removable() implies self.crates()[k].dependencies@.len() > 0
                && self.crates()[k].lists_only_removable() by {
                if k != key {
                    assert(before.contains_key(k));
                }
            }
        }
    }

    /// A report read back from a document with the given fields; refused where the
    /// document's version is not this library's.
    pub fn from_parts(
        version: u16,
        root_name: String,
        workspace_crates: Vec<(String, WorkspaceCrate)>,
    ) -> (r: Result<Report, ReportError>)
        ensures
            version != REPORT_VERSION <==> r == Err::<Report, ReportError>(
                ReportError::VersionMismatch { found: version },
            ),
            r is Ok <==> version == REPORT_VERSION,
            r matches Ok(rep) ==> rep.version == version && rep.root_name == root_name
                && rep.workspace_crates == workspace_crates,
    {
        if version != REPORT_VERSION {
            Err(ReportError::VersionMismatch { found: version })
        } else {
            Ok(Report { version, root_name, workspace_crates })
        }
    }
}

} // verus!
