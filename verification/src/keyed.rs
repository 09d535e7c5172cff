use vstd::prelude::*;

verus! {

/// An association list keyed by byte strings (block hashes): a sequence of
/// key/value pairs, read as a finite map.
pub open spec fn has_key<V>(s: Seq<(Seq<u8>, V)>, k: Seq<u8>) -> bool {
    exists|i: int| 0 <= i < s.len() && #[trigger] s[i].0 == k
}

/// No key occurs twice.
pub open spec fn keys_unique<V>(s: Seq<(Seq<u8>, V)>) -> bool {
    forall|i: int, j: int|
        0 <= i < s.len() && 0 <= j < s.len() && #[trigger] s[i].0 == #[trigger] s[j].0 ==> i == j
}

/// The position at which `k` stands, where it does.
pub open spec fn index_of<V>(s: Seq<(Seq<u8>, V)>, k: Seq<u8>) -> int {
    choose|i: int| 0 <= i < s.len() && #[trigger] s[i].0 == k
}

/// The map that an association list denotes.
pub open spec fn to_map<V>(s: Seq<(Seq<u8>, V)>) -> Map<Seq<u8>, V> {
    Map::new(|k: Seq<u8>| has_key(s, k), |k: Seq<u8>| s[index_of(s, k)].1)
}

/// The entry at position `i` is what the map gives for its key.
pub proof fn lemma_entry<V>(s: Seq<(Seq<u8>, V)>, i: int)
    requires
        keys_unique(s),
        0 <= i < s.len(),
    ensures
        to_map(s).contains_key(s[i].0),
        to_map(s)[s[i].0] == s[i].1,
{
    assert(has_key(s, s[i].0));
    let j = index_of(s, s[i].0);
    assert(s[j].0 == s[i].0);
}

/// Appending a fresh key inserts it into the map.
pub proof fn lemma_push<V>(s: Seq<(Seq<u8>, V)>, k: Seq<u8>, v: V)
    requires
        keys_unique(s),
        !has_key(s, k),
    ensures
        keys_unique(s.push((k, v))),
        to_map(s.push((k, v))) == to_map(s).insert(k, v),
{
    let t = s.push((k, v));
    assert forall|i: int, j: int|
        0 <= i < t.len() && 0 <= j < t.len() && #[trigger] t[i].0 == #[trigger] t[j].0 implies i == j by {
        if i < s.len() && j < s.len() {
            assert(s[i].0 == s[j].0);
        } else if i < s.len() {
            assert(s[i].0 == k);
        } else if j < s.len() {
            assert(s[j].0 == k);
        }
    }
    assert forall|kk: Seq<u8>| #[trigger] has_key(t, kk) == (has_key(s, kk) || kk == k) by {
        if has_key(s, kk) {
            let i = index_of(s, kk);
            assert(t[i].0 == kk);
        }
        if kk == k {
            assert(t[s.len() as int].0 == k);
        }
        if has_key(t, kk) {
            let i = index_of(t, kk);
            if i < s.len() {
                assert(s[i].0 == kk);
            }
        }
    }
    assert forall|kk: Seq<u8>| #[trigger] has_key(t, kk) implies to_map(t)[kk] == to_map(s).insert(
        k,
        v,
    )[kk] by {
        let i = index_of(t, kk);
        assert(t[i].0 == kk);
        if kk == k {
            assert(t[s.len() as int].0 == k);
        } else {
            assert(i < s.len());
            assert(s[i].0 == kk);
            lemma_entry(s, i);
        }
    }
    assert(to_map(t) =~= to_map(s).insert(k, v));
}

/// Removing the entry at position `i` removes its key from the map.
pub proof fn lemma_remove<V>(s: Seq<(Seq<u8>, V)>, i: int)
    requires
        keys_unique(s),
        0 <= i < s.len(),
    ensures
        keys_unique(s.remove(i)),
        to_map(s.remove(i)) == to_map(s).remove(s[i].0),
{
    let t = s.remove(i);
    let k = s[i].0;
    assert forall|a: int, b: int|
        0 <= a < t.len() && 0 <= b < t.len() && #[trigger] t[a].0 == #[trigger] t[b].0 implies a == b by {
        let a2 = if a < i { a } else { a + 1 };
        let b2 = if b < i { b } else { b + 1 };
        assert(t[a] == s[a2]);
        assert(t[b] == s[b2]);
        assert(s[a2].0 == s[b2].0);
    }
    assert forall|kk: Seq<u8>| #[trigger] has_key(t, kk) == (has_key(s, kk) && kk != k) by {
        if has_key(t, kk) {
            let a = index_of(t, kk);
            let a2 = if a < i { a } else { a + 1 };
            assert(t[a] == s[a2]);
            assert(s[a2].0 == kk);
            assert(a2 != i);
        }
        if has_key(s, kk) && kk != k {
            let a2 = index_of(s, kk);
            assert(a2 != i);
            let a = if a2 < i { a2 } else { a2 - 1 };
            assert(t[a] == s[a2]);
        }
    }
    assert forall|kk: Seq<u8>| #[trigger] has_key(t, kk) implies to_map(t)[kk] == to_map(s).remove(
        k,
    )[kk] by {
        let a = index_of(t, kk);
        let a2 = if a < i { a } else { a + 1 };
        assert(t[a] == s[a2]);
        lemma_entry(s, a2);
    }
    assert(to_map(t) =~= to_map(s).remove(k));
}

/// Replacing the value at position `i` updates its key in the map.
pub proof fn lemma_update<V>(s: Seq<(Seq<u8>, V)>, i: int, v: V)
    requires
        keys_unique(s),
        0 <= i < s.len(),
    ensures
        keys_unique(s.update(i, (s[i].0, v))),
        to_map(s.update(i, (s[i].0, v))) == to_map(s).insert(s[i].0, v),
{
    let t = s.update(i, (s[i].0, v));
    let k = s[i].0;
    assert forall|a: int, b: int|
        0 <= a < t.len() && 0 <= b < t.len() && #[trigger] t[a].0 == #[trigger] t[b].0 implies a == b by {
        assert(t[a].0 == s[a].0);
        assert(t[b].0 == s[b].0);
    }
    assert forall|kk: Seq<u8>| #[trigger] has_key(t, kk) == has_key(s, kk) by {
        if has_key(t, kk) {
            let a = index_of(t, kk);
            assert(s[a].0 == kk);
        }
        if has_key(s, kk) {
            let a = index_of(s, kk);
            assert(t[a].0 == kk);
        }
    }
    assert(has_key(s, k)) by {
        assert(s[i].0 == k);
    }
    assert forall|kk: Seq<u8>| #[trigger] has_key(t, kk) implies to_map(t)[kk] == to_map(s).insert(
        k,
        v,
    )[kk] by {
        let a = index_of(t, kk);
        assert(t[a].0 == s[a].0);
        lemma_entry(s, a);
        if kk == k {
            assert(a == i);
        }
    }
    assert(to_map(t) =~= to_map(s).insert(k, v));
}

} // verus!
