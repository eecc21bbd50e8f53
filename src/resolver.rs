use vstd::prelude::*;

use crate::names::{contains_name, distinct_names, name_set, names_of, push_unique};

verus! {

/// A dependency as the manifest declares it, with both surface shapes resolved.
pub struct DependencyDeclaration {
    pub name: String,
    pub version: Option<String>,
    pub default_features: bool,
    pub features: Vec<String>,
}

/// The published flags of a dependency: each public flag with the flags it turns on.
pub struct FlagGraph {
    pub flags: Vec<(String, Vec<String>)>,
}

/// The flags that minimization starts from for one dependency.
pub struct DependencyFlags {
    pub name: String,
    pub flags: Vec<String>,
}

/// `f` is a key of the graph.
pub open spec fn is_public(g: Seq<(String, Vec<String>)>, f: Seq<char>) -> bool {
    exists|i: int| 0 <= i < g.len() && (#[trigger] g[i]).0@ == f
}

/// Some entry of `g` among the first `n`, keyed `f`, lists `x`.
pub open spec fn implied_upto(
    g: Seq<(String, Vec<String>)>,
    f: Seq<char>,
    x: Seq<char>,
    n: int,
) -> bool {
    exists|i: int, j: int|
        0 <= i < n && i < g.len() && g[i].0@ == f && 0 <= j < g[i].1@.len() && (
        #[trigger] g[i].1@[j])@ == x
}

/// The graph lists `x` among the flags that `f` turns on.
pub open spec fn implies(g: Seq<(String, Vec<String>)>, f: Seq<char>, x: Seq<char>) -> bool {
    implied_upto(g, f, x, g.len() as int)
}

/// The flag that lists what a dependency enables unless defaults are disabled.
pub open spec fn default_flag() -> Seq<char> {
    seq!['d', 'e', 'f', 'a', 'u', 'l', 't']
}

/// `x` is enabled on a dependency with the given defaults setting and explicit flags.
pub open spec fn in_effective_set(
    g: Seq<(String, Vec<String>)>,
    defaults: bool,
    explicit: Seq<Seq<char>>,
    x: Seq<char>,
) -> bool {
    is_public(g, x) && (explicit.contains(x) || (exists|k: int|
        0 <= k < explicit.len() && implies(g, #[trigger] explicit[k], x)) || (defaults && implies(
        g,
        default_flag(),
        x,
    )))
}

/// The effective flag set of a declaration under a flag graph.
pub open spec fn effective_set(d: DependencyDeclaration, g: Seq<(String, Vec<String>)>) -> Set<
    Seq<char>,
> {
    Set::new(|x: Seq<char>| in_effective_set(g, d.default_features, names_of(d.features@), x))
}

/// The first declaration named `name`.
pub open spec fn find_declaration(d: Seq<DependencyDeclaration>, name: Seq<char>) -> Option<
    DependencyDeclaration,
>
    decreases d.len(),
{
    if d.len() == 0 {
        None
    } else if d[0].name@ == name {
        Some(d[0])
    } else {
        find_declaration(d.drop_first(), name)
    }
}

/// Whether `f` is a key of the graph.
pub fn is_public_flag(graph: &FlagGraph, f: &String) -> (r: bool)
    ensures
        r == is_public(graph.flags@, f@),
{
    let mut i: usize = 0;
    while i < graph.flags.len()
        invariant
            i <= graph.flags.len(),
            forall|k: int| 0 <= k < i ==> (#[trigger] graph.flags@[k]).0@ != f@,
        decreases graph.flags.len() - i,
    {
        if graph.flags[i].0 == *f {
            return true;
        }
        i = i + 1;
    }
    false
}

/// Adds to `r` every public flag that the graph lists under `f`.
pub fn add_implied(graph: &FlagGraph, f: &String, r: &mut Vec<String>)
    requires
        distinct_names(old(r)@),
    ensures
        distinct_names(final(r)@),
        forall|x: Seq<char>|
            #[trigger] names_of(final(r)@).contains(x) <==> (names_of(old(r)@).contains(x) || (is_public(
                graph.flags@,
                x,
            ) && implies(graph.flags@, f@, x))),
{
    let g = &graph.flags;
    let ghost r0 = r@;
    let mut i: usize = 0;
    while i < g.len()
        invariant
            i <= g.len(),
            g@ == graph.flags@,
            distinct_names(r@),
            forall|x: Seq<char>|
                #[trigger] names_of(r@).contains(x) <==> (names_of(r0).contains(x) || (is_public(g@, x)
                    && implied_upto(g@, f@, x, i as int))),
        decreases g.len() - i,
    {
        if g[i].0 == *f {
            let list = &g[i].1;
            let mut j: usize = 0;
            while j < list.len()
                invariant
                    i < g.len(),
                    g@ == graph.flags@,
                    list == g@[i as int].1,
                    g@[i as int].0@ == f@,
                    j <= list.len(),
                    distinct_names(r@),
                    forall|x: Seq<char>|
                        #[trigger] names_of(r@).contains(x) <==> (names_of(r0).contains(x) || (is_public(
                            g@,
                            x,
                        ) && (implied_upto(g@, f@, x, i as int) || exists|j2: int|
                            0 <= j2 < j && (#[trigger] list@[j2])@ == x))),
                decreases list.len() - j,
            {
                let y = &list[j];
                let ghost before = r@;
                let public = is_public_flag(graph, y);
                let ghost yv = y@;
                assert(public == is_public(g@, yv));
                if public {
                    push_unique(r, y.clone());
                }
                j = j + 1;
                proof {
                    assert forall|x: Seq<char>|
                        names_of(r@).contains(x) <==> (names_of(r0).contains(x) || (is_public(
                            g@,
                            x,
                        ) && (implied_upto(g@, f@, x, i as int) || exists|j2: int|
                            0 <= j2 < j && (#[trigger] list@[j2])@ == x))) by {
                        let old_side = exists|j2: int|
                            0 <= j2 < j - 1 && (#[trigger] list@[j2])@ == x;
                        let new_side = exists|j2: int| 0 <= j2 < j && (#[trigger] list@[j2])@ == x;
                        assert(names_of(before).contains(x) <==> (names_of(r0).contains(x) || (
                        is_public(g@, x) && (implied_upto(g@, f@, x, i as int) || old_side))));
                        assert(names_of(r@).contains(x) <==> (names_of(before).contains(x) || (
                        public && x == yv)));
                        if x == y@ {
                            assert(list@[j - 1]@ == x);
                            assert(new_side);
                        }
                        if new_side {
                            let j2 = choose|j2: int| 0 <= j2 < j && (#[trigger] list@[j2])@ == x;
                            if j2 < j - 1 {
                                assert(old_side);
                            } else {
                                assert(x == y@);
                            }
                        }
                        if old_side {
                            let j2 = choose|j2: int|
                                0 <= j2 < j - 1 && (#[trigger] list@[j2])@ == x;
                            assert(new_side);
                        }
                        if !public {
                            assert(r@ == before);
                        }
                    }
                }
            }
        }
        i = i + 1;
        proof {
            assert forall|x: Seq<char>|
                names_of(r@).contains(x) <==> (names_of(r0).contains(x) || (is_public(g@, x)
                    && implied_upto(g@, f@, x, i as int))) by {
                if implied_upto(g@, f@, x, i as int) {
                    let (i2, j2) = choose|i2: int, j2: int|
                        0 <= i2 < i && i2 < g@.len() && g@[i2].0@ == f@ && 0 <= j2
                            < g@[i2].1@.len() && (#[trigger] g@[i2].1@[j2])@ == x;
                    if i2 == i - 1 {
                        assert(g@[i - 1].1@[j2]@ == x);
                    } else {
                        assert(implied_upto(g@, f@, x, i - 1));
                    }
                }
                if g@[i - 1].0@ == f@ && exists|j2: int|
                    0 <= j2 < g@[i - 1].1@.len() && (#[trigger] g@[i - 1].1@[j2])@ == x {
                    let j2 = choose|j2: int|
                        0 <= j2 < g@[i - 1].1@.len() && (#[trigger] g@[i - 1].1@[j2])@ == x;
                    assert(implied_upto(g@, f@, x, i as int));
                }
            }
        }
    }
}

/// The effective flag set of `declaration`: its public explicit flags, the public flags
/// they turn on, and, unless defaults are disabled, the public flags of `default`.
pub fn resolve_flags(declaration: &DependencyDeclaration, graph: &FlagGraph) -> (r: Vec<String>)
    ensures
        distinct_names(r@),
        name_set(r@) == effective_set(*declaration, graph.flags@),
{
    let explicit = &declaration.features;
    let ghost g = graph.flags@;
    let ghost ex = names_of(explicit@);
    let mut r: Vec<String> = Vec::new();
    let mut k: usize = 0;
    while k < explicit.len()
        invariant
            k <= explicit.len(),
            ex == names_of(explicit@),
            g == graph.flags@,
            distinct_names(r@),
            forall|x: Seq<char>|
                #[trigger] names_of(r@).contains(x) <==> is_public(g, x) && (ex.subrange(0, k as int).contains(
                    x,
                ) || exists|k2: int| 0 <= k2 < k && implies(g, #[trigger] ex[k2], x)),
        decreases explicit.len() - k,
    {
        let e = &explicit[k];
        let ghost before = r@;
        let public = is_public_flag(graph, e);
        if public {
            push_unique(&mut r, e.clone());
        }
        let ghost mid = r@;
        add_implied(graph, e, &mut r);
        k = k + 1;
        proof {
            assert(ex[k - 1] == e@);
            assert forall|x: Seq<char>|
                names_of(r@).contains(x) <==> is_public(g, x) && (ex.subrange(0, k as int).contains(
                    x,
                ) || exists|k2: int| 0 <= k2 < k && implies(g, #[trigger] ex[k2], x)) by {
                let pre = ex.subrange(0, k - 1);
                let cur = ex.subrange(0, k as int);
                let old_imp = exists|k2: int| 0 <= k2 < k - 1 && implies(g, #[trigger] ex[k2], x);
                let new_imp = exists|k2: int| 0 <= k2 < k && implies(g, #[trigger] ex[k2], x);
                assert(names_of(before).contains(x) <==> is_public(g, x) && (pre.contains(x)
                    || old_imp));
                assert(names_of(mid).contains(x) <==> (names_of(before).contains(x) || (public
                    && x == e@)));
                assert(names_of(r@).contains(x) <==> (names_of(mid).contains(x) || (is_public(g, x)
                    && implies(g, e@, x))));
                assert(cur =~= pre.push(e@));
                assert(cur.contains(x) <==> (pre.contains(x) || x == e@)) by {
                    if cur.contains(x) {
                        let q = choose|q: int| 0 <= q < cur.len() && cur[q] == x;
                        if q < k - 1 {
                            assert(pre[q] == x);
                        }
                    }
                    if pre.contains(x) {
                        let q = choose|q: int| 0 <= q < pre.len() && pre[q] == x;
                        assert(cur[q] == x);
                    }
                    if x == e@ {
                        assert(cur[k - 1] == x);
                    }
                }
                assert(new_imp <==> (old_imp || implies(g, e@, x))) by {
                    if new_imp {
                        let k2 = choose|k2: int| 0 <= k2 < k && implies(g, #[trigger] ex[k2], x);
                        if k2 < k - 1 {
                            assert(old_imp);
                        }
                    }
                    if old_imp {
                        let k2 = choose|k2: int| 0 <= k2 < k - 1 && implies(g, #[trigger] ex[k2], x);
                        assert(new_imp);
                    }
                    if implies(g, e@, x) {
                        assert(implies(g, ex[k - 1], x));
                    }
                }
            }
        }
    }
    let ghost after = r@;
    if declaration.default_features {
        let d = "default".to_string();
        proof {
            reveal_strlit("default");
            assert(d@ =~= default_flag());
        }
        add_implied(graph, &d, &mut r);
    }
    proof {
        assert(ex.subrange(0, ex.len() as int) =~= ex);
        assert forall|x: Seq<char>| #[trigger]
            name_set(r@).contains(x) == effective_set(*declaration, g).contains(x) by {
            crate::names::lemma_name_set_contains(r@, x);
            assert(names_of(after).contains(x) <==> is_public(g, x) && (ex.contains(x) || exists|
                k2: int,
            | 0 <= k2 < ex.len() && implies(g, #[trigger] ex[k2], x)));
            if !declaration.default_features {
                assert(r@ == after);
            }
        }
        assert(name_set(r@) =~= effective_set(*declaration, g));
    }
    r
}

/// The effective flag set of `declaration`, or `None` where its name is excluded.
pub fn resolve(declaration: &DependencyDeclaration, graph: &FlagGraph, excluded: &Vec<String>) -> (r:
    Option<Vec<String>>)
    ensures
        r is None <==> names_of(excluded@).contains(declaration.name@),
        r matches Some(v) ==> distinct_names(v@) && name_set(v@) == effective_set(
            *declaration,
            graph.flags@,
        ),
{
    if contains_name(excluded, &declaration.name) {
        None
    } else {
        Some(resolve_flags(declaration, graph))
    }
}

/// The index of the first declaration named `name`.
pub fn find_declaration_index(declarations: &Vec<DependencyDeclaration>, name: &String) -> (r:
    Option<usize>)
    ensures
        match r {
            None => find_declaration(declarations@, name@) is None,
            Some(i) => i < declarations@.len() && find_declaration(declarations@, name@) == Some(
                declarations@[i as int],
            ),
        },
{
    let mut i: usize = 0;
    assert(declarations@.subrange(0, declarations@.len() as int) =~= declarations@);
    while i < declarations.len()
        invariant
            i <= declarations.len(),
            find_declaration(declarations@, name@) == find_declaration(
                declarations@.subrange(i as int, declarations@.len() as int),
                name@,
            ),
        decreases declarations.len() - i,
    {
        let ghost rest = declarations@.subrange(i as int, declarations@.len() as int);
        assert(rest.drop_first() =~= declarations@.subrange(i + 1, declarations@.len() as int));
        if declarations[i].name == *name {
            return Some(i);
        }
        i = i + 1;
    }
    None
}

/// A package of the metadata: its name and its published flag graph.
pub struct PackageFlags {
    pub name: String,
    pub graph: FlagGraph,
}

/// The names of a list of dependency flag entries.
pub open spec fn entry_names(r: Seq<DependencyFlags>) -> Seq<Seq<char>> {
    r.map_values(|e: DependencyFlags| e.name@)
}

/// The flags to minimize, by dependency name, for the first `pkgs.len()` packages: a
/// package is taken where it is not skipped, is declared, and has a nonempty effective
/// set; a later package of the same name replaces an earlier one.
pub open spec fn flags_map(
    decls: Seq<DependencyDeclaration>,
    pkgs: Seq<PackageFlags>,
    skip: Seq<Seq<char>>,
) -> Map<Seq<char>, Set<Seq<char>>>
    decreases pkgs.len(),
{
    if pkgs.len() == 0 {
        Map::empty()
    } else {
        let m = flags_map(decls, pkgs.drop_last(), skip);
        let p = pkgs.last();
        if skip.contains(p.name@) {
            m
        } else {
            match find_declaration(decls, p.name@) {
                None => m,
                Some(d) => if effective_set(d, p.graph.flags@).is_empty() {
                    m
                } else {
                    m.insert(p.name@, effective_set(d, p.graph.flags@))
                },
            }
        }
    }
}

/// `r` lists each key of `m` once, with its set.
pub open spec fn lists_map(r: Seq<DependencyFlags>, m: Map<Seq<char>, Set<Seq<char>>>) -> bool {
    &&& entry_names(r).no_duplicates()
    &&& forall|k: Seq<char>| #[trigger] m.contains_key(k) <==> entry_names(r).contains(k)
    &&& forall|i: int|
        0 <= i < r.len() ==> distinct_names((#[trigger] r[i]).flags@) && name_set(r[i].flags@)
            == m[r[i].name@]
}

proof fn lemma_empty_names(v: Seq<String>)
    ensures
        name_set(v).is_empty() <==> v.len() == 0,
{
    if v.len() == 0 {
        assert(name_set(v) =~= Set::empty());
    } else {
        assert(name_set(v).contains(v[0]@)) by {
            assert(names_of(v)[0] == v[0]@);
        }
    }
}

/// Puts `e` in `r`, in place of an entry of the same name where there is one.
fn upsert(r: &mut Vec<DependencyFlags>, e: DependencyFlags, ghost_map: Ghost<Map<Seq<char>, Set<Seq<char>>>>)
    requires
        lists_map(old(r)@, ghost_map@),
        distinct_names(e.flags@),
    ensures
        lists_map(final(r)@, ghost_map@.insert(e.name@, name_set(e.flags@))),
{
    let ghost m = ghost_map@;
    let ghost m2 = m.insert(e.name@, name_set(e.flags@));
    let ghost key = e.name@;
    let mut i: usize = 0;
    while i < r.len()
        invariant
            i <= r.len(),
            r@ == old(r)@,
            key == e.name@,
            m == ghost_map@,
            m2 == m.insert(key, name_set(e.flags@)),
            lists_map(r@, m),
            distinct_names(e.flags@),
            forall|k: int| 0 <= k < i ==> (#[trigger] r@[k]).name@ != key,
        decreases r.len() - i,
    {
        if r[i].name == e.name {
            let ghost before = r@;
            let ghost ev = e;
            r.set(i, e);
            proof {
                assert(r@[i as int] == ev);
                assert(entry_names(r@) =~= entry_names(before));
                assert(entry_names(before)[i as int] == key);
                assert forall|k: Seq<char>| #[trigger] m2.contains_key(k) <==> entry_names(
                    r@,
                ).contains(k) by {
                    if k == key {
                        assert(entry_names(r@)[i as int] == k);
                    } else {
                        assert(m2.contains_key(k) == m.contains_key(k));
                        assert(m.contains_key(k) == entry_names(before).contains(k));
                    }
                }
                assert forall|q: int| 0 <= q < r@.len() implies distinct_names(
                    (#[trigger] r@[q]).flags@,
                ) && name_set(r@[q].flags@) == m2[r@[q].name@] by {
                    if q != i {
                        assert(r@[q] == before[q]);
                        assert(entry_names(before)[q] != entry_names(before)[i as int]);
                    }
                }
            }
            return;
        }
        i = i + 1;
    }
    let ghost before = r@;
    r.push(e);
    proof {
        assert(entry_names(r@) =~= entry_names(before).push(key));
        assert(!entry_names(before).contains(key)) by {
            if entry_names(before).contains(key) {
                let q = choose|q: int| 0 <= q < entry_names(before).len() && entry_names(before)[q] == key;
                assert(before[q].name@ == key);
            }
        }
        assert forall|k: Seq<char>| #[trigger] m2.contains_key(k) <==> entry_names(r@).contains(k) by {
            if k == key {
                assert(entry_names(r@)[before.len() as int] == k);
            } else {
                if entry_names(r@).contains(k) {
                    let q = choose|q: int| 0 <= q < entry_names(r@).len() && entry_names(r@)[q] == k;
                    assert(entry_names(before)[q] == k);
                }
                if entry_names(before).contains(k) {
                    let q = choose|q: int| 0 <= q < entry_names(before).len() && entry_names(before)[q] == k;
                    assert(entry_names(r@)[q] == k);
                }
            }
        }
        assert forall|q: int| 0 <= q < r@.len() implies distinct_names((#[trigger] r@[q]).flags@)
            && name_set(r@[q].flags@) == m2[r@[q].name@] by {
            if q < before.len() {
                assert(r@[q] == before[q]);
                assert(before[q].name@ != key);
            }
        }
    }
}

/// For each package of the metadata that the manifest declares and `skip` does not name,
/// its effective flag set, where that set is not empty.
pub fn permutable_features(
    declarations: &Vec<DependencyDeclaration>,
    packages: &Vec<PackageFlags>,
    skip: &Vec<String>,
) -> (r: Vec<DependencyFlags>)
    ensures
        lists_map(r@, flags_map(declarations@, packages@, names_of(skip@))),
{
    let mut r: Vec<DependencyFlags> = Vec::new();
    let mut i: usize = 0;
    proof {
        assert(packages@.subrange(0, 0).len() == 0);
        assert(entry_names(r@) =~= Seq::<Seq<char>>::empty());
    }
    while i < packages.len()
        invariant
            i <= packages.len(),
            lists_map(r@, flags_map(declarations@, packages@.subrange(0, i as int), names_of(skip@))),
        decreases packages.len() - i,
    {
        let p = &packages[i];
        let ghost pre = packages@.subrange(0, i as int);
        let ghost cur = packages@.subrange(0, i + 1);
        proof {
            assert(cur.drop_last() =~= pre);
            assert(cur.last() == packages@[i as int]);
        }
        if !contains_name(skip, &p.name) {
            match find_declaration_index(declarations, &p.name) {
                None => {},
                Some(d) => {
                    let flags = resolve_flags(&declarations[d], &p.graph);
                    proof {
                        lemma_empty_names(flags@);
                    }
                    if flags.len() > 0 {
                        let e = DependencyFlags { name: p.name.clone(), flags };
                        upsert(&mut r, e, Ghost(flags_map(declarations@, pre, names_of(skip@))));
                    }
                },
            }
        }
        i = i + 1;
    }
    proof {
        assert(packages@.subrange(0, packages@.len() as int) =~= packages@);
    }
    r
}

/// The effective flag set follows the rule for each pairing of the defaults setting with
/// the presence of explicit flags, and never holds a flag that the graph does not publish.
pub proof fn lemma_effective_set_cases(d: DependencyDeclaration, g: Seq<(String, Vec<String>)>)
    ensures
        forall|x: Seq<char>| #[trigger] effective_set(d, g).contains(x) ==> is_public(g, x),
        !d.default_features && d.features@.len() == 0 ==> effective_set(d, g) == Set::<
            Seq<char>,
        >::empty(),
        !d.default_features ==> effective_set(d, g) == Set::new(
            |x: Seq<char>|
                is_public(g, x) && (names_of(d.features@).contains(x) || exists|k: int|
                    0 <= k < d.features@.len() && implies(g, #[trigger] d.features@[k]@, x)),
        ),
        d.default_features && d.features@.len() == 0 ==> effective_set(d, g) == Set::new(
            |x: Seq<char>| is_public(g, x) && implies(g, default_flag(), x),
        ),
        d.default_features ==> effective_set(d, g) == Set::new(
            |x: Seq<char>|
                is_public(g, x) && (names_of(d.features@).contains(x) || exists|k: int|
                    0 <= k < d.features@.len() && implies(g, #[trigger] d.features@[k]@, x)),
        ).union(Set::new(|x: Seq<char>| is_public(g, x) && implies(g, default_flag(), x))),
{
    let ex = names_of(d.features@);
    assert forall|x: Seq<char>| #[trigger] is_public(g, x) implies ((exists|k: int|
        0 <= k < ex.len() && implies(g, #[trigger] ex[k], x)) <==> (exists|k: int|
        0 <= k < d.features@.len() && implies(g, #[trigger] d.features@[k]@, x))) by {
        if exists|k: int| 0 <= k < ex.len() && implies(g, #[trigger] ex[k], x) {
            let k = choose|k: int| 0 <= k < ex.len() && implies(g, #[trigger] ex[k], x);
            assert(implies(g, d.features@[k]@, x));
        }
        if exists|k: int| 0 <= k < d.features@.len() && implies(g, #[trigger] d.features@[k]@, x) {
            let k = choose|k: int|
                0 <= k < d.features@.len() && implies(g, #[trigger] d.features@[k]@, x);
            assert(implies(g, ex[k], x));
        }
    }
    if d.features@.len() == 0 {
        assert(ex.len() == 0);
        assert forall|x: Seq<char>| !(#[trigger] ex.contains(x)) by {}
    }
    assert(!d.default_features && d.features@.len() == 0 ==> effective_set(d, g) =~= Set::<
        Seq<char>,
    >::empty());
    assert(!d.default_features ==> effective_set(d, g) =~= Set::new(
        |x: Seq<char>|
            is_public(g, x) && (names_of(d.features@).contains(x) || exists|k: int|
                0 <= k < d.features@.len() && implies(g, #[trigger] d.features@[k]@, x)),
    ));
    assert(d.default_features && d.features@.len() == 0 ==> effective_set(d, g) =~= Set::new(
        |x: Seq<char>| is_public(g, x) && implies(g, default_flag(), x),
    ));
    assert(d.default_features ==> effective_set(d, g) =~= Set::new(
        |x: Seq<char>|
            is_public(g, x) && (names_of(d.features@).contains(x) || exists|k: int|
                0 <= k < d.features@.len() && implies(g, #[trigger] d.features@[k]@, x)),
    ).union(Set::new(|x: Seq<char>| is_public(g, x) && implies(g, default_flag(), x))));
}

} // verus!
