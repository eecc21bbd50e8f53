use vstd::prelude::*;

use crate::names::{
    append_names, copy_names, distinct, lemma_concat_contains, lemma_names_concat, name_set, names_of,
};

verus! {

/// The state of minimization for one dependency, as sequences of flag names.
pub struct PermutatorView {
    pub original: Seq<Seq<char>>,
    pub queue: Seq<Seq<char>>,
    pub removable: Seq<Seq<char>>,
    pub required: Seq<Seq<char>>,
    pub candidate: Option<Seq<char>>,
}

/// The number of flags under test: one or none.
pub open spec fn candidate_count(c: Option<Seq<char>>) -> nat {
    if c is Some {
        1
    } else {
        0
    }
}

/// `x` is in the queue, in a result set, or under test.
pub open spec fn accounted(v: PermutatorView, x: Seq<char>) -> bool {
    v.queue.contains(x) || v.removable.contains(x) || v.required.contains(x) || v.candidate == Some(
        x,
    )
}

/// Every original flag is in exactly one of the queue, the removable set, the required
/// set, or under test, and no list holds a flag twice.
pub open spec fn view_wf(v: PermutatorView) -> bool {
    &&& v.original.no_duplicates()
    &&& v.queue.no_duplicates()
    &&& v.removable.no_duplicates()
    &&& v.required.no_duplicates()
    &&& v.original.len() == v.queue.len() + v.removable.len() + v.required.len()
        + candidate_count(v.candidate)
    &&& forall|x: Seq<char>| #[trigger] v.original.contains(x) <==> accounted(v, x)
    &&& forall|x: Seq<char>|
        #![trigger v.queue.contains(x), v.removable.contains(x)]
        #![trigger v.queue.contains(x), v.required.contains(x)]
        #![trigger v.removable.contains(x), v.required.contains(x)]
        !(v.queue.contains(x) && v.removable.contains(x)) && !(v.queue.contains(x)
            && v.required.contains(x)) && !(v.removable.contains(x) && v.required.contains(x))
    &&& v.candidate matches Some(c) ==> !v.queue.contains(c) && !v.removable.contains(c)
        && !v.required.contains(c)
}

/// Taking the next flag from the queue for a trial build.
pub open spec fn take_candidate(v: PermutatorView) -> PermutatorView {
    PermutatorView {
        queue: v.queue.drop_last(),
        candidate: Some(v.queue.last()),
        ..v
    }
}

/// The flags enabled in the trial build: every flag still queued and every flag found
/// required, which is every original flag but the candidate and the removable ones.
pub open spec fn trial_flags(v: PermutatorView) -> Seq<Seq<char>> {
    v.queue + v.required
}

/// Classifying the candidate by the outcome of its trial build.
pub open spec fn classify(v: PermutatorView, built: bool) -> PermutatorView {
    let c = v.candidate.unwrap();
    if built {
        PermutatorView { removable: v.removable.push(c), candidate: None, ..v }
    } else {
        PermutatorView { required: v.required.push(c), candidate: None, ..v }
    }
}

/// One trial: take a candidate and classify it.
pub open spec fn trial(v: PermutatorView, built: bool) -> PermutatorView {
    classify(take_candidate(v), built)
}

/// The state after trials with the given outcomes, stopping once the queue is empty.
pub open spec fn run(v: PermutatorView, outcomes: Seq<bool>) -> PermutatorView
    decreases outcomes.len(),
{
    if outcomes.len() == 0 || v.queue.len() == 0 {
        v
    } else {
        run(trial(v, outcomes[0]), outcomes.drop_first())
    }
}

/// The state before any trial, for the flags `f`.
pub open spec fn initial_view(f: Seq<Seq<char>>) -> PermutatorView {
    PermutatorView {
        original: f,
        queue: f,
        removable: Seq::empty(),
        required: Seq::empty(),
        candidate: None,
    }
}

proof fn lemma_drop_last_contains(s: Seq<Seq<char>>, x: Seq<char>)
    requires
        s.len() > 0,
        s.no_duplicates(),
    ensures
        s.drop_last().contains(x) <==> (s.contains(x) && x != s.last()),
        s.drop_last().no_duplicates(),
{
    let d = s.drop_last();
    assert(s =~= d.push(s.last()));
    if d.contains(x) {
        let k = choose|k: int| 0 <= k < d.len() && d[k] == x;
        assert(s[k] == x);
        assert(k != s.len() - 1);
    }
    if s.contains(x) && x != s.last() {
        let k = choose|k: int| 0 <= k < s.len() && s[k] == x;
        assert(d[k] == x);
    }
}

proof fn lemma_push_contains(s: Seq<Seq<char>>, c: Seq<char>, x: Seq<char>)
    requires
        s.no_duplicates(),
        !s.contains(c),
    ensures
        s.push(c).contains(x) <==> (s.contains(x) || x == c),
        s.push(c).no_duplicates(),
{
    let p = s.push(c);
    if p.contains(x) {
        let k = choose|k: int| 0 <= k < p.len() && p[k] == x;
        if k < s.len() {
            assert(s[k] == x);
        }
    }
    if s.contains(x) {
        let k = choose|k: int| 0 <= k < s.len() && s[k] == x;
        assert(p[k] == x);
    }
    if x == c {
        assert(p[s.len() as int] == x);
    }
    assert forall|i: int, j: int| 0 <= i < j < p.len() implies p[i] != p[j] by {
        if j == s.len() {
            assert(s[i] == p[i]);
        }
    }
}

/// Taking a candidate keeps the state well formed.
pub proof fn lemma_take_candidate(v: PermutatorView)
    requires
        view_wf(v),
        v.candidate is None,
        v.queue.len() > 0,
    ensures
        view_wf(take_candidate(v)),
        take_candidate(v).queue.len() == v.queue.len() - 1,
{
    let w = take_candidate(v);
    let c = v.queue.last();
    assert(v.queue.contains(c)) by {
        assert(v.queue[v.queue.len() - 1] == c);
    }
    assert forall|x: Seq<char>| #[trigger] w.queue.contains(x) <==> (v.queue.contains(x) && x != c) by {
        lemma_drop_last_contains(v.queue, x);
    }
    lemma_drop_last_contains(v.queue, c);
    assert forall|x: Seq<char>| #[trigger] w.original.contains(x) <==> accounted(w, x) by {
        assert(v.original.contains(x) <==> accounted(v, x));
    }
}

/// Classifying the candidate keeps the state well formed.
pub proof fn lemma_classify(v: PermutatorView, built: bool)
    requires
        view_wf(v),
        v.candidate is Some,
    ensures
        view_wf(classify(v, built)),
        classify(v, built).queue == v.queue,
        classify(v, built).candidate is None,
{
    let w = classify(v, built);
    let c = v.candidate.unwrap();
    assert(!v.queue.contains(c) && !v.removable.contains(c) && !v.required.contains(c));
    if built {
        assert forall|x: Seq<char>| #[trigger] w.removable.contains(x) <==> (v.removable.contains(x)
            || x == c) by {
            lemma_push_contains(v.removable, c, x);
        }
        lemma_push_contains(v.removable, c, c);
    } else {
        assert forall|x: Seq<char>| #[trigger] w.required.contains(x) <==> (v.required.contains(x)
            || x == c) by {
            lemma_push_contains(v.required, c, x);
        }
        lemma_push_contains(v.required, c, c);
    }
    assert forall|x: Seq<char>| #[trigger] w.original.contains(x) <==> accounted(w, x) by {
        assert(v.original.contains(x) <==> accounted(v, x));
    }
}

/// Minimization of a dependency with flags `f` makes exactly one trial build per flag,
/// whatever the builds' outcomes, and ends with every flag either removable or required,
/// never both.
pub proof fn lemma_minimization_total(f: Seq<Seq<char>>, outcomes: Seq<bool>)
    requires
        f.no_duplicates(),
        outcomes.len() == f.len(),
    ensures
        forall|k: int|
            0 <= k < f.len() ==> (#[trigger] run(initial_view(f), outcomes.take(k))).queue.len()
                == f.len() - k,
        run(initial_view(f), outcomes).queue.len() == 0,
        run(initial_view(f), outcomes).candidate is None,
        run(initial_view(f), outcomes).removable.to_set().union(
            run(initial_view(f), outcomes).required.to_set(),
        ) == f.to_set(),
        run(initial_view(f), outcomes).removable.to_set().disjoint(
            run(initial_view(f), outcomes).required.to_set(),
        ),
{
    let v0 = initial_view(f);
    assert(view_wf(v0));
    assert forall|k: int| 0 <= k <= f.len() implies view_wf(#[trigger] run(v0, outcomes.take(k)))
        && run(v0, outcomes.take(k)).queue.len() == f.len() - k && run(
        v0,
        outcomes.take(k),
    ).candidate is None && run(v0, outcomes.take(k)).original == f by {
        lemma_run_prefix(v0, outcomes, k);
    }
    assert(outcomes.take(f.len() as int) =~= outcomes);
    let v = run(v0, outcomes);
    assert(v.removable.to_set().union(v.required.to_set()) =~= f.to_set()) by {
        assert forall|x: Seq<char>| #[trigger] f.to_set().contains(x) <==> v.removable.to_set().union(
            v.required.to_set(),
        ).contains(x) by {
            assert(f.contains(x) <==> accounted(v, x));
        }
    }
    assert(v.removable.to_set().disjoint(v.required.to_set())) by {
        assert forall|x: Seq<char>| !(v.removable.to_set().contains(x) && #[trigger] v.required.to_set().contains(x)) by {
            assert(!(v.removable.contains(x) && v.required.contains(x)));
        }
    }
}

proof fn lemma_run_prefix(v0: PermutatorView, outcomes: Seq<bool>, k: int)
    requires
        view_wf(v0),
        v0.candidate is None,
        v0.queue.len() == outcomes.len(),
        0 <= k <= outcomes.len(),
    ensures
        view_wf(run(v0, outcomes.take(k))),
        run(v0, outcomes.take(k)).queue.len() == v0.queue.len() - k,
        run(v0, outcomes.take(k)).candidate is None,
        run(v0, outcomes.take(k)).original == v0.original,
    decreases k,
{
    if k > 0 {
        let o = outcomes.take(k);
        lemma_take_candidate(v0);
        lemma_classify(take_candidate(v0), o[0]);
        let v1 = trial(v0, o[0]);
        let rest = outcomes.drop_first();
        assert(o.drop_first() =~= rest.take(k - 1));
        assert(o[0] == outcomes[0]);
        lemma_run_prefix(v1, rest, k - 1);
    } else {
        assert(outcomes.take(0).len() == 0);
    }
}

/// Tracks, for one dependency, which of its flags were found removable, which required,
/// and which are still to be tried.
pub struct DependencyFeaturePermutator {
    original_features: Vec<String>,
    successfully_removed_features: Vec<String>,
    unsuccessfully_removed_features: Vec<String>,
    tmp_features: Vec<String>,
    candidate: Option<String>,
}

impl DependencyFeaturePermutator {
    /// The state as sequences of flag names.
    pub closed spec fn view(&self) -> PermutatorView {
        PermutatorView {
            original: names_of(self.original_features@),
            queue: names_of(self.tmp_features@),
            removable: names_of(self.successfully_removed_features@),
            required: names_of(self.unsuccessfully_removed_features@),
            candidate: match self.candidate {
                Some(c) => Some(c@),
                None => None,
            },
        }
    }

    pub open spec fn wf(&self) -> bool {
        view_wf(self.view())
    }

    /// Starts minimization of the given flags; a flag named twice is tried once.
    pub fn new(features: Vec<String>) -> (r: Self)
        ensures
            r.wf(),
            r.view() == initial_view(r.view().original),
            r.view().original.to_set() == name_set(features@),
    {
        let unique = distinct(&features);
        let queue = copy_names(&unique);
        let r = DependencyFeaturePermutator {
            original_features: unique,
            successfully_removed_features: Vec::new(),
            unsuccessfully_removed_features: Vec::new(),
            tmp_features: queue,
            candidate: None,
        };
        proof {
            assert(names_of(r.successfully_removed_features@) =~= Seq::<Seq<char>>::empty());
            assert(r.view() =~= initial_view(r.view().original));
            assert(names_of(r.unsuccessfully_removed_features@) =~= Seq::<Seq<char>>::empty());
            assert(r.view().queue.to_set() =~= r.view().original.to_set());
            assert forall|x: Seq<char>| #[trigger] r.view().queue.contains(x) <==> r.view().original.contains(x) by {
                assert(r.view().queue.to_set().contains(x) == r.view().original.to_set().contains(x));
            }
            assert(r.view().queue.len() == r.view().original.len()) by {
                r.view().queue.unique_seq_to_set();
                r.view().original.unique_seq_to_set();
            }
        }
        r
    }

    /// Takes the next flag from the queue and marks it as under test.
    pub fn remove_feature(&mut self) -> (r: String)
        requires
            old(self).wf(),
            old(self).view().queue.len() > 0,
            old(self).view().candidate is None,
        ensures
            final(self).wf(),
            final(self).view() == take_candidate(old(self).view()),
            final(self).view().candidate == Some(r@),
    {
        let ghost v = self.view();
        let last = self.tmp_features.len() - 1;
        let c = self.tmp_features.remove(last);
        self.candidate = Some(c.clone());
        proof {
            assert(names_of(self.tmp_features@) =~= v.queue.drop_last());
            lemma_take_candidate(v);
            assert(self.view() =~= take_candidate(v));
        }
        c
    }

    /// Takes the next flag to try; returns the flags to build with, which are all the
    /// flags still queued and those found required, and the flag left out.
    pub fn permutated_features(&mut self) -> (r: (Vec<String>, String))
        requires
            old(self).wf(),
            old(self).view().queue.len() > 0,
            old(self).view().candidate is None,
        ensures
            final(self).wf(),
            final(self).view() == take_candidate(old(self).view()),
            final(self).view().candidate == Some(r.1@),
            names_of(r.0@) == trial_flags(final(self).view()),
            names_of(r.0@).to_set() == old(self).view().original.to_set().difference(
                old(self).view().removable.to_set(),
            ).remove(r.1@),
    {
        let removed = self.remove_feature();
        let mut features = copy_names(&self.tmp_features);
        append_names(&mut features, &self.unsuccessfully_removed_features);
        proof {
            lemma_names_concat(self.tmp_features@, self.unsuccessfully_removed_features@);
        }
        proof {
            let v = self.view();
            assert(names_of(features@) =~= trial_flags(v));
            let o = old(self).view();
            assert forall|x: Seq<char>| #[trigger] names_of(features@).to_set().contains(x)
                == o.original.to_set().difference(o.removable.to_set()).remove(removed@).contains(
                x,
            ) by {
                lemma_concat_contains(v.queue, v.required, x);
                assert(v.original.contains(x) <==> accounted(v, x));
            }
            assert(names_of(features@).to_set() =~= o.original.to_set().difference(
                o.removable.to_set(),
            ).remove(removed@));
        }
        (features, removed)
    }

    /// Records the outcome of the trial build without the flag under test: removable
    /// where the build succeeded, required where it failed or could not be made.
    pub fn record_outcome(&mut self, built: bool)
        requires
            old(self).wf(),
            old(self).view().candidate is Some,
        ensures
            final(self).wf(),
            final(self).view() == classify(old(self).view(), built),
    {
        let ghost v = self.view();
        let c = self.candidate.take();
        match c {
            Some(c) => {
                if built {
                    self.successfully_removed_features.push(c);
                } else {
                    self.unsuccessfully_removed_features.push(c);
                }
            },
            None => {},
        }
        proof {
            lemma_classify(v, built);
            assert(names_of(self.successfully_removed_features@) =~= classify(v, built).removable);
            assert(names_of(self.unsuccessfully_removed_features@) =~= classify(v, built).required);
            assert(self.view() =~= classify(v, built));
        }
    }

    /// Whether no flag is left to try.
    pub fn features_left(&self) -> (r: bool)
        ensures
            r == (self.view().queue.len() == 0),
    {
        self.tmp_features.len() == 0
    }

    /// The number of flags still queued or found required.
    pub fn left_count(&self) -> (r: usize)
        requires
            self.wf(),
        ensures
            r == self.view().queue.len() + self.view().required.len(),
    {
        proof {
            assert(self.original_features@.len() == self.view().original.len());
            assert(self.successfully_removed_features@.len() == self.view().removable.len());
        }
        let untried_or_required = self.original_features.len()
            - self.successfully_removed_features.len();
        if self.candidate.is_some() {
            untried_or_required - 1
        } else {
            untried_or_required
        }
    }

    /// The flags that minimization started from.
    pub fn original_features(&self) -> (r: &Vec<String>)
        ensures
            names_of(r@) == self.view().original,
    {
        &self.original_features
    }

    /// The flags found removable.
    pub fn successfully_removed_features(&self) -> (r: &Vec<String>)
        ensures
            names_of(r@) == self.view().removable,
    {
        &self.successfully_removed_features
    }

    /// The flags found required.
    pub fn unsuccessfully_removed_features(&self) -> (r: &Vec<String>)
        ensures
            names_of(r@) == self.view().required,
    {
        &self.unsuccessfully_removed_features
    }
}

} // verus!
