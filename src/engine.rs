use vstd::prelude::*;

use crate::editable_toml::{
    dependency_entries, edited_entries, has_dependency_table, has_entry, EditError, EntryView,
    TomlEdit,
};
use crate::feature_buffer::{
    classify, take_candidate, trial, trial_flags, DependencyFeaturePermutator,
};
use crate::names::{name_set, names_of};
use crate::report::{kept_names, ReportDependencyEntry, WorkspaceCrate};

verus! {

/// Starts the next trial build of `dependency`: takes a flag from the queue and writes the
/// trial flag list into the document. Returns the flag left out and the manifest text to
/// build. Where the edit fails, the flag is recorded as required, the document is restored,
/// and no text comes back.
pub fn start_trial(
    edit: &mut TomlEdit,
    permutator: &mut DependencyFeaturePermutator,
    dependency: &String,
) -> (r: (String, Option<String>))
    requires
        old(permutator).wf(),
        old(permutator).view().queue.len() > 0,
        old(permutator).view().candidate is None,
    ensures
        final(permutator).wf(),
        final(edit).loaded() == old(edit).loaded(),
        r.0@ == take_candidate(old(permutator).view()).candidate.unwrap(),
        r.1 is Some <==> has_entry(old(edit).current(), dependency@) && !(dependency_entries(
            old(edit).current(),
        )[dependency@] is Other),
        match r.1 {
            Some(text) => {
                &&& final(permutator).view() == take_candidate(old(permutator).view())
                &&& text@ == final(edit).text()
                &&& has_dependency_table(final(edit).current())
                &&& dependency_entries(final(edit).current()) == edited_entries(
                    dependency_entries(old(edit).current()),
                    dependency@,
                    trial_flags(final(permutator).view()),
                )
            },
            None => {
                &&& final(permutator).view() == trial(old(permutator).view(), false)
                &&& final(edit).current() == old(edit).loaded()
            },
        },
{
    let (features, candidate) = permutator.permutated_features();
    let ghost d0 = edit.current();
    match edit.replace_dependency_features(dependency, features) {
        Ok(()) => (candidate, Some(edit.serialize())),
        Err(e) => {
            proof {
                match e {
                    EditError::ManifestParse => {},
                    EditError::DependenciesNotFound => {},
                    EditError::DependencyNotFound => {},
                    EditError::MalformedEntry => {},
                }
                assert(!(has_entry(d0, dependency@) && !(dependency_entries(d0)[dependency@] is Other)));
            }
            permutator.record_outcome(false);
            edit.reset();
            (candidate, None)
        },
    }
}

/// Ends a trial with the outcome of its build: `built` is false where the build failed or
/// the manifest could not be written. Classifies the flag under test and restores the
/// document.
pub fn finish_trial(edit: &mut TomlEdit, permutator: &mut DependencyFeaturePermutator, built: bool)
    requires
        old(permutator).wf(),
        old(permutator).view().candidate is Some,
    ensures
        final(permutator).wf(),
        final(permutator).view() == classify(old(permutator).view(), built),
        final(edit).current() == old(edit).loaded(),
        final(edit).loaded() == old(edit).loaded(),
{
    permutator.record_outcome(built);
    edit.reset();
}

/// The table after pruning with the given records: each entry that exists and is editable
/// gets the record's original flags but the removable ones.
pub open spec fn pruned_entries(
    m: Map<Seq<char>, EntryView>,
    deps: Seq<(String, ReportDependencyEntry)>,
) -> Map<Seq<char>, EntryView>
    decreases deps.len(),
{
    if deps.len() == 0 {
        m
    } else {
        let prev = pruned_entries(m, deps.drop_last());
        let name = deps.last().0@;
        let e = deps.last().1;
        if prev.contains_key(name) && !(prev[name] is Other) {
            edited_entries(
                prev,
                name,
                kept_names(
                    names_of(e.original_features@),
                    name_set(e.successfully_removed_features@),
                ),
            )
        } else {
            prev
        }
    }
}

/// The records whose entry pruning could not edit, by name, in order.
pub open spec fn pruning_failures(
    m: Map<Seq<char>, EntryView>,
    deps: Seq<(String, ReportDependencyEntry)>,
) -> Seq<Seq<char>>
    decreases deps.len(),
{
    if deps.len() == 0 {
        Seq::empty()
    } else {
        let prev = pruned_entries(m, deps.drop_last());
        let name = deps.last().0@;
        if prev.contains_key(name) && !(prev[name] is Other) {
            pruning_failures(m, deps.drop_last())
        } else {
            pruning_failures(m, deps.drop_last()).push(name)
        }
    }
}

/// Writes the kept flags of every dependency of a package's record into the document:
/// its original flags but the removable ones, with defaults disabled. Returns the
/// dependencies whose entry could not be edited, with the reason.
pub fn prune_dependencies(edit: &mut TomlEdit, record: &WorkspaceCrate) -> (r: Vec<
    (String, EditError),
>)
    requires
        has_dependency_table(old(edit).current()),
    ensures
        has_dependency_table(final(edit).current()),
        final(edit).loaded() == old(edit).loaded(),
        dependency_entries(final(edit).current()) == pruned_entries(
            dependency_entries(old(edit).current()),
            record.dependencies@,
        ),
        r@.map_values(|e: (String, EditError)| e.0@) == pruning_failures(
            dependency_entries(old(edit).current()),
            record.dependencies@,
        ),
{
    let ghost m0 = dependency_entries(edit.current());
    let deps = &record.dependencies;
    let mut failures: Vec<(String, EditError)> = Vec::new();
    let mut i: usize = 0;
    while i < deps.len()
        invariant
            i <= deps.len(),
            has_dependency_table(edit.current()),
            edit.loaded() == old(edit).loaded(),
            m0 == dependency_entries(old(edit).current()),
            dependency_entries(edit.current()) == pruned_entries(m0, deps@.subrange(0, i as int)),
            failures@.map_values(|e: (String, EditError)| e.0@) == pruning_failures(
                m0,
                deps@.subrange(0, i as int),
            ),
        decreases deps.len() - i,
    {
        let (name, entry) = &deps[i];
        let kept = entry.kept_features();
        let ghost k = names_of(kept@);
        let ghost before = failures@;
        let ghost m = dependency_entries(edit.current());
        let ghost cur = deps@.subrange(0, i + 1);
        proof {
            assert(cur.drop_last() =~= deps@.subrange(0, i as int));
            assert(cur.last() == deps@[i as int]);
        }
        let result = edit.replace_dependency_features(name, kept);
        let ghost editable = m.contains_key(name@) && !(m[name@] is Other);
        proof {
            assert(pruned_entries(m0, cur) == if editable {
                edited_entries(m, name@, k)
            } else {
                m
            });
            assert(pruning_failures(m0, cur) == if editable {
                pruning_failures(m0, deps@.subrange(0, i as int))
            } else {
                pruning_failures(m0, deps@.subrange(0, i as int)).push(name@)
            });
            assert(result is Ok <==> editable);
        }
        match result {
            Ok(()) => {},
            Err(e) => {
                failures.push((name.clone(), e));
                proof {
                    assert(failures@.map_values(|e: (String, EditError)| e.0@) =~= before.map_values(
                        |e: (String, EditError)| e.0@,
                    ).push(name@));
                }
            },
        }
        i = i + 1;
    }
    proof {
        assert(deps@.subrange(0, deps@.len() as int) =~= deps@);
    }
    failures
}

} // verus!
