use vstd::prelude::*;

verus! {

/// True when some entry of `s` carries the identifier `k`.
pub open spec fn assoc_has<V>(s: Seq<(u64, V)>, k: u64) -> bool {
    exists|i: int| 0 <= i < s.len() && #[trigger] s[i].0 == k
}

/// The index of the entry carrying `k`; meaningful only when the
/// identifiers of `s` are distinct and `k` is present.
pub open spec fn assoc_index<V>(s: Seq<(u64, V)>, k: u64) -> int {
    choose|i: int| 0 <= i < s.len() && #[trigger] s[i].0 == k
}

/// No two entries carry the same identifier.
pub open spec fn assoc_distinct<V>(s: Seq<(u64, V)>) -> bool {
    forall|i: int, j: int| 0 <= i < j < s.len() ==> #[trigger] s[i].0 != #[trigger] s[j].0
}

/// The identifier-to-view map that a sequence of entries denotes.
pub open spec fn assoc_view<V: View>(s: Seq<(u64, V)>) -> Map<u64, V::V> {
    Map::new(|k: u64| assoc_has(s, k), |k: u64| s[assoc_index(s, k)].1@)
}

/// An entry known to sit at index `i` determines the denoted map at its
/// identifier.
pub proof fn lemma_assoc_at<V: View>(s: Seq<(u64, V)>, i: int)
    requires
        assoc_distinct(s),
        0 <= i < s.len(),
    ensures
        assoc_view(s).contains_key(s[i].0),
        assoc_view(s)[s[i].0] == s[i].1@,
        assoc_index(s, s[i].0) == i,
{
    assert(assoc_has(s, s[i].0));
    let j = assoc_index(s, s[i].0);
    if i != j {
        assert(s[i].0 != s[j].0);
    }
}

/// Replacing the entry at `i`, identifier kept, updates the denoted map
/// at that identifier and nowhere else.
pub proof fn lemma_assoc_update<V: View>(s: Seq<(u64, V)>, i: int, e: (u64, V))
    requires
        assoc_distinct(s),
        0 <= i < s.len(),
        e.0 == s[i].0,
    ensures
        assoc_distinct(s.update(i, e)),
        assoc_view(s.update(i, e)) == assoc_view(s).insert(s[i].0, e.1@),
{
    let t = s.update(i, e);
    assert forall|a: int, b: int| 0 <= a < b < t.len() implies #[trigger] t[a].0 != #[trigger] t[b].0 by {
        assert(t[a].0 == s[a].0);
        assert(t[b].0 == s[b].0);
    }
    assert forall|k: u64| true implies assoc_has(t, k) == assoc_has(s, k) by {
        if assoc_has(t, k) {
            let a = choose|a: int| 0 <= a < t.len() && #[trigger] t[a].0 == k;
            assert(s[a].0 == k);
        }
        if assoc_has(s, k) {
            let a = choose|a: int| 0 <= a < s.len() && #[trigger] s[a].0 == k;
            assert(t[a].0 == k);
        }
    }
    assert forall|k: u64| assoc_has(t, k) implies assoc_view(t)[k]
        == assoc_view(s).insert(s[i].0, e.1@)[k] by {
        let a = assoc_index(t, k);
        assert(0 <= a < t.len() && t[a].0 == k);
        if k == s[i].0 {
            if a != i {
                assert(t[a].0 == s[a].0 && t[i].0 == s[i].0);
                assert(s[a].0 != s[i].0);
            }
            assert(a == i);
            assert(assoc_view(t)[k] == e.1@);
        } else {
            assert(a != i);
            assert(t[a] == s[a]);
            lemma_assoc_at(s, a);
            assert(assoc_view(t)[k] == s[a].1@);
        }
    }
    assert(assoc_view(t) =~= assoc_view(s).insert(s[i].0, e.1@));
}

/// Taking the entry at `i` out removes its identifier from the denoted
/// map and nothing else.
pub proof fn lemma_assoc_remove<V: View>(s: Seq<(u64, V)>, i: int)
    requires
        assoc_distinct(s),
        0 <= i < s.len(),
    ensures
        assoc_distinct(s.remove(i)),
        assoc_view(s.remove(i)) == assoc_view(s).remove(s[i].0),
{
    let t = s.remove(i);
    assert forall|a: int, b: int| 0 <= a < b < t.len() implies #[trigger] t[a].0
        != #[trigger] t[b].0 by {
        let a0: int = if a < i {
            a
        } else {
            a + 1
        };
        let b0: int = if b < i {
            b
        } else {
            b + 1
        };
        assert(t[a] == s[a0] && t[b] == s[b0]);
    }
    assert forall|k: u64| true implies assoc_has(t, k) == (assoc_has(s, k) && k != s[i].0) by {
        if assoc_has(t, k) {
            let a = choose|a: int| 0 <= a < t.len() && #[trigger] t[a].0 == k;
            let a0: int = if a < i {
                a
            } else {
                a + 1
            };
            assert(s[a0].0 == k);
            if k == s[i].0 {
                assert(a0 != i);
                assert(s[a0].0 != s[i].0);
            }
        }
        if assoc_has(s, k) && k != s[i].0 {
            let a = choose|a: int| 0 <= a < s.len() && #[trigger] s[a].0 == k;
            assert(a != i);
            let a1: int = if a < i {
                a
            } else {
                a - 1
            };
            assert(t[a1].0 == k);
        }
    }
    assert forall|k: u64| assoc_has(t, k) implies assoc_view(t)[k] == assoc_view(s).remove(
        s[i].0,
    )[k] by {
        let a = assoc_index(t, k);
        assert(0 <= a < t.len() && t[a].0 == k);
        let a0: int = if a < i {
            a
        } else {
            a + 1
        };
        assert(t[a] == s[a0]);
        lemma_assoc_at(s, a0);
        assert(assoc_view(t)[k] == t[a].1@);
    }
    assert(assoc_view(t) =~= assoc_view(s).remove(s[i].0));
}

/// Appending an entry with a fresh identifier extends the denoted map by
/// that entry.
pub proof fn lemma_assoc_push<V: View>(s: Seq<(u64, V)>, e: (u64, V))
    requires
        assoc_distinct(s),
        !assoc_has(s, e.0),
    ensures
        assoc_distinct(s.push(e)),
        assoc_view(s.push(e)) == assoc_view(s).insert(e.0, e.1@),
{
    let t = s.push(e);
    assert forall|a: int, b: int| 0 <= a < b < t.len() implies #[trigger] t[a].0 != #[trigger] t[b].0 by {
        if b < s.len() {
            assert(t[a] == s[a] && t[b] == s[b]);
        } else {
            assert(t[a] == s[a] && t[b] == e);
            assert(s[a].0 != e.0) by {
                if s[a].0 == e.0 {
                    assert(assoc_has(s, e.0));
                }
            }
        }
    }
    assert forall|k: u64| true implies assoc_has(t, k) == (assoc_has(s, k) || k == e.0) by {
        if assoc_has(t, k) {
            let a = choose|a: int| 0 <= a < t.len() && #[trigger] t[a].0 == k;
            if a < s.len() {
                assert(s[a].0 == k);
            }
        }
        if assoc_has(s, k) {
            let a = choose|a: int| 0 <= a < s.len() && #[trigger] s[a].0 == k;
            assert(t[a].0 == k);
        }
        if k == e.0 {
            assert(t[s.len() as int].0 == k);
        }
    }
    assert forall|k: u64| assoc_has(t, k) implies assoc_view(t)[k]
        == assoc_view(s).insert(e.0, e.1@)[k] by {
        let a = assoc_index(t, k);
        assert(0 <= a < t.len() && t[a].0 == k);
        if k == e.0 {
            if a < s.len() {
                assert(assoc_has(s, e.0));
            }
            assert(a == s.len());
            assert(assoc_view(t)[k] == e.1@);
        } else {
            assert(a < s.len());
            assert(t[a] == s[a]);
            lemma_assoc_at(s, a);
            assert(assoc_view(t)[k] == s[a].1@);
        }
    }
    assert(assoc_view(t) =~= assoc_view(s).insert(e.0, e.1@));
}

} // verus!
