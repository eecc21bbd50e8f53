use vstd::prelude::*;

verus! {

/// The keys of a list of keyed entries.
pub open spec fn keys_of<V>(s: Seq<(String, V)>) -> Seq<Seq<char>> {
    s.map_values(|e: (String, V)| e.0@)
}

/// A list of keyed entries as a map from key to value; a list with distinct keys.
pub open spec fn keyed_view<V>(s: Seq<(String, V)>) -> Map<Seq<char>, V> {
    Map::new(
        |k: Seq<char>| keys_of(s).contains(k),
        |k: Seq<char>| s[index_of_key(s, k)].1,
    )
}

/// A position of key `k` in `s`.
pub open spec fn index_of_key<V>(s: Seq<(String, V)>, k: Seq<char>) -> int {
    choose|i: int| 0 <= i < s.len() && (#[trigger] s[i]).0@ == k
}

pub proof fn lemma_keyed_view_at<V>(s: Seq<(String, V)>, i: int)
    requires
        keys_of(s).no_duplicates(),
        0 <= i < s.len(),
    ensures
        keyed_view(s).contains_key(s[i].0@),
        keyed_view(s)[s[i].0@] == s[i].1,
{
    let k = s[i].0@;
    assert(keys_of(s)[i] == k);
    assert(exists|q: int| 0 <= q < s.len() && (#[trigger] s[q]).0@ == k) by {
        assert(s[i].0@ == k);
    }
    let j = index_of_key(s, k);
    assert(keys_of(s)[j] == keys_of(s)[i]);
    assert(j == i);
    assert(keyed_view(s).dom().contains(k));
    assert(keyed_view(s)[k] == s[j].1);
}

/// Puts `value` under `key`, in place of the entry of that key where there is one.
pub fn upsert<V>(entries: &mut Vec<(String, V)>, key: String, value: V)
    requires
        keys_of(old(entries)@).no_duplicates(),
    ensures
        keys_of(final(entries)@).no_duplicates(),
        keyed_view(final(entries)@) == keyed_view(old(entries)@).insert(key@, value),
{
    let ghost s0 = entries@;
    let ghost k0 = key@;
    let ghost val = value;
    let mut i: usize = 0;
    while i < entries.len()
        invariant
            i <= entries.len(),
            entries@ == s0,
            s0 == old(entries)@,
            k0 == key@,
            val == value,
            keys_of(s0).no_duplicates(),
            forall|j: int| 0 <= j < i ==> (#[trigger] entries@[j]).0@ != k0,
        decreases entries.len() - i,
    {
        if entries[i].0 == key {
            entries.set(i, (key, value));
            proof {
                let s1 = entries@;
                assert(keys_of(s1) =~= keys_of(s0));
                assert(keys_of(s0)[i as int] == k0);
                assert forall|k: Seq<char>| #[trigger] keyed_view(s1).contains_key(k) <==> keyed_view(
                    s0,
                ).insert(k0, val).contains_key(k) by {
                    if k == k0 {
                        assert(keys_of(s0).contains(k0));
                    }
                }
                assert forall|k: Seq<char>|
                    #[trigger] keyed_view(s1).contains_key(k) implies keyed_view(s1)[k]
                        == keyed_view(s0).insert(k0, val)[k] by {
                    let q = choose|q: int| 0 <= q < s1.len() && keys_of(s1)[q] == k;
                    lemma_keyed_view_at(s1, q);
                    if q != i {
                        lemma_keyed_view_at(s0, q);
                        assert(keys_of(s0)[q] != keys_of(s0)[i as int]);
                    }
                }
                assert(keyed_view(s1) =~= keyed_view(s0).insert(k0, val));
            }
            return;
        }
        i = i + 1;
    }
    entries.push((key, value));
    proof {
        let s1 = entries@;
        assert(keys_of(s1) =~= keys_of(s0).push(k0));
        assert(!keys_of(s0).contains(k0)) by {
            if keys_of(s0).contains(k0) {
                let q = choose|q: int| 0 <= q < keys_of(s0).len() && keys_of(s0)[q] == k0;
                assert(s0[q].0@ == k0);
            }
        }
        assert forall|k: Seq<char>| #[trigger] keys_of(s1).contains(k) <==> (keys_of(s0).contains(k)
            || k == k0) by {
            if keys_of(s1).contains(k) {
                let q = choose|q: int| 0 <= q < keys_of(s1).len() && keys_of(s1)[q] == k;
                if q < s0.len() {
                    assert(keys_of(s0)[q] == k);
                }
            }
            if keys_of(s0).contains(k) {
                let q = choose|q: int| 0 <= q < keys_of(s0).len() && keys_of(s0)[q] == k;
                assert(keys_of(s1)[q] == k);
            }
            if k == k0 {
                assert(keys_of(s1)[s0.len() as int] == k);
            }
        }
        assert forall|a: int, b: int| 0 <= a < b < keys_of(s1).len() implies keys_of(s1)[a]
            != keys_of(s1)[b] by {
            if b == s0.len() {
                assert(keys_of(s0)[a] == keys_of(s1)[a]);
            }
        }
        assert forall|k: Seq<char>|
            #[trigger] keyed_view(s1).contains_key(k) implies keyed_view(s1)[k] == keyed_view(
                s0,
            ).insert(k0, val)[k] by {
            let q = choose|q: int| 0 <= q < s1.len() && keys_of(s1)[q] == k;
            lemma_keyed_view_at(s1, q);
            if q < s0.len() {
                lemma_keyed_view_at(s0, q);
            }
        }
        assert(keyed_view(s1) =~= keyed_view(s0).insert(k0, val));
    }
}

} // verus!
