use vstd::prelude::*;

verus! {

/// The character sequences of a list of names.
pub open spec fn names_of(v: Seq<String>) -> Seq<Seq<char>> {
    v.map_values(|s: String| s@)
}

/// A list of names holds no name twice.
pub open spec fn distinct_names(v: Seq<String>) -> bool {
    names_of(v).no_duplicates()
}

/// The set of names in a list.
pub open spec fn name_set(v: Seq<String>) -> Set<Seq<char>> {
    names_of(v).to_set()
}

pub proof fn lemma_name_set_contains(v: Seq<String>, x: Seq<char>)
    ensures
        name_set(v).contains(x) <==> names_of(v).contains(x),
        names_of(v).contains(x) <==> exists|k: int| 0 <= k < v.len() && #[trigger] v[k]@ == x,
{
    if names_of(v).contains(x) {
        let k = choose|k: int| 0 <= k < names_of(v).len() && names_of(v)[k] == x;
        assert(v[k]@ == x);
    }
    if exists|k: int| 0 <= k < v.len() && #[trigger] v[k]@ == x {
        let k = choose|k: int| 0 <= k < v.len() && #[trigger] v[k]@ == x;
        assert(names_of(v)[k] == x);
    }
}

/// Whether `name` occurs in `names`.
pub fn contains_name(names: &Vec<String>, name: &String) -> (r: bool)
    ensures
        r == names_of(names@).contains(name@),
{
    let mut i: usize = 0;
    while i < names.len()
        invariant
            i <= names.len(),
            forall|j: int| 0 <= j < i ==> (#[trigger] names@[j])@ != name@,
        decreases names.len() - i,
    {
        if names[i] == *name {
            proof {
                assert(names_of(names@)[i as int] == name@);
            }
            return true;
        }
        i = i + 1;
    }
    proof {
        lemma_name_set_contains(names@, name@);
    }
    false
}

/// Appends `name` unless it is already present.
pub fn push_unique(names: &mut Vec<String>, name: String)
    requires
        distinct_names(old(names)@),
    ensures
        distinct_names(final(names)@),
        forall|x: Seq<char>|
            #[trigger] names_of(final(names)@).contains(x) <==> (names_of(old(names)@).contains(x) || x
                == name@),
        names_of(old(names)@).contains(name@) ==> final(names)@ == old(names)@,
{
    if !contains_name(names, &name) {
        let ghost before = names@;
        let ghost s = name@;
        names.push(name);
        proof {
            assert(names_of(names@) =~= names_of(before).push(s));
            assert forall|x: Seq<char>|
                names_of(names@).contains(x) <==> (names_of(before).contains(x) || x
                    == s) by {
                if names_of(names@).contains(x) {
                    let k = choose|k: int|
                        0 <= k < names_of(names@).len() && names_of(names@)[k] == x;
                    if k < before.len() {
                        assert(names_of(before)[k] == x);
                    }
                }
                if names_of(before).contains(x) {
                    let k = choose|k: int|
                        0 <= k < names_of(before).len() && names_of(before)[k] == x;
                    assert(names_of(names@)[k] == x);
                }
                if x == s {
                    assert(names_of(names@)[before.len() as int] == x);
                }
            }
        }
    }
}

/// The names of `names` in order, each kept at its first place only.
pub fn distinct(names: &Vec<String>) -> (r: Vec<String>)
    ensures
        distinct_names(r@),
        name_set(r@) == name_set(names@),
{
    let mut r: Vec<String> = Vec::new();
    let mut i: usize = 0;
    while i < names.len()
        invariant
            i <= names.len(),
            distinct_names(r@),
            forall|x: Seq<char>|
                names_of(r@).contains(x) <==> names_of(names@.subrange(0, i as int)).contains(x),
        decreases names.len() - i,
    {
        let ghost prev = names@.subrange(0, i as int);
        push_unique(&mut r, names[i].clone());
        i = i + 1;
        proof {
            let cur = names@.subrange(0, i as int);
            assert(names_of(cur) =~= names_of(prev).push(names@[i - 1]@));
            assert forall|x: Seq<char>| names_of(cur).contains(x) <==> (names_of(prev).contains(x)
                || x == names@[i - 1]@) by {
                if names_of(cur).contains(x) {
                    let k = choose|k: int| 0 <= k < names_of(cur).len() && names_of(cur)[k] == x;
                    if k < prev.len() {
                        assert(names_of(prev)[k] == x);
                    }
                }
                if names_of(prev).contains(x) {
                    let k = choose|k: int| 0 <= k < names_of(prev).len() && names_of(prev)[k] == x;
                    assert(names_of(cur)[k] == x);
                }
                if x == names@[i - 1]@ {
                    assert(names_of(cur)[i - 1] == x);
                }
            }
        }
    }
    proof {
        assert(names@.subrange(0, names@.len() as int) =~= names@);
        assert(name_set(r@) =~= name_set(names@));
    }
    r
}

/// A copy of a list of names.
pub fn copy_names(names: &Vec<String>) -> (r: Vec<String>)
    ensures
        r@ == names@,
{
    let mut r: Vec<String> = Vec::new();
    let mut i: usize = 0;
    while i < names.len()
        invariant
            i <= names.len(),
            r@ == names@.subrange(0, i as int),
        decreases names.len() - i,
    {
        r.push(names[i].clone());
        i = i + 1;
        proof {
            assert(r@ =~= names@.subrange(0, i as int));
        }
    }
    proof {
        assert(names@.subrange(0, names@.len() as int) =~= names@);
    }
    r
}

/// Appends a copy of each name of `extra` to `names`.
pub fn append_names(names: &mut Vec<String>, extra: &Vec<String>)
    ensures
        final(names)@ == old(names)@ + extra@,
{
    let ghost start = names@;
    let mut i: usize = 0;
    while i < extra.len()
        invariant
            i <= extra.len(),
            names@ == start + extra@.subrange(0, i as int),
        decreases extra.len() - i,
    {
        names.push(extra[i].clone());
        i = i + 1;
        proof {
            assert(names@ =~= start + extra@.subrange(0, i as int));
        }
    }
    proof {
        assert(extra@.subrange(0, extra@.len() as int) =~= extra@);
    }
}

pub proof fn lemma_names_concat(a: Seq<String>, b: Seq<String>)
    ensures
        names_of(a + b) == names_of(a) + names_of(b),
{
    assert(names_of(a + b) =~= names_of(a) + names_of(b));
}

pub proof fn lemma_concat_contains(a: Seq<Seq<char>>, b: Seq<Seq<char>>, x: Seq<char>)
    ensures
        (a + b).contains(x) <==> (a.contains(x) || b.contains(x)),
{
    if (a + b).contains(x) {
        let k = choose|k: int| 0 <= k < (a + b).len() && (a + b)[k] == x;
        if k < a.len() {
            assert(a[k] == x);
        } else {
            assert(b[k - a.len()] == x);
        }
    }
    if a.contains(x) {
        let k = choose|k: int| 0 <= k < a.len() && a[k] == x;
        assert((a + b)[k] == x);
    }
    if b.contains(x) {
        let k = choose|k: int| 0 <= k < b.len() && b[k] == x;
        assert((a + b)[a.len() + k] == x);
    }
}

} // verus!
