//! A small table of values keyed by strings, stored as a vector whose keys
//! are pairwise distinct. Its abstract view is a map from the key's
//! characters to the value.
use vstd::prelude::*;

verus! {

/// One row of a keyed table.
pub struct Keyed<V> {
    pub key: String,
    pub value: V,
}

/// No two rows share a key.
pub open spec fn keys_unique<V>(s: Seq<Keyed<V>>) -> bool {
    forall|i: int, j: int|
        0 <= i < s.len() && 0 <= j < s.len() && i != j ==> #[trigger] s[i].key@ != #[trigger] s[j].key@
}

/// Some row has key `k`.
pub open spec fn has_key<V>(s: Seq<Keyed<V>>, k: Seq<char>) -> bool {
    exists|i: int| 0 <= i < s.len() && #[trigger] s[i].key@ == k
}

/// The map that the rows describe.
pub open spec fn keyed_map<V>(s: Seq<Keyed<V>>) -> Map<Seq<char>, V>
    decreases s.len(),
{
    if s.len() == 0 {
        Map::empty()
    } else {
        keyed_map(s.drop_last()).insert(s.last().key@, s.last().value)
    }
}

pub proof fn lemma_keys_unique_drop_last<V>(s: Seq<Keyed<V>>)
    requires
        s.len() > 0,
        keys_unique(s),
    ensures
        keys_unique(s.drop_last()),
        !has_key(s.drop_last(), s.last().key@),
{
    let d = s.drop_last();
    assert forall|i: int| 0 <= i < d.len() implies d[i].key@ != s.last().key@ by {
        assert(d[i] == s[i]);
    }
}

/// The map's domain is exactly the set of keys of the rows.
pub proof fn lemma_keyed_map_dom<V>(s: Seq<Keyed<V>>, k: Seq<char>)
    ensures
        keyed_map(s).contains_key(k) <==> has_key(s, k),
    decreases s.len(),
{
    if s.len() > 0 {
        let d = s.drop_last();
        lemma_keyed_map_dom(d, k);
        if has_key(d, k) {
            let i = choose|i: int| 0 <= i < d.len() && #[trigger] d[i].key@ == k;
            assert(s[i] == d[i]);
        }
        if has_key(s, k) && s.last().key@ != k {
            let i = choose|i: int| 0 <= i < s.len() && #[trigger] s[i].key@ == k;
            assert(d[i] == s[i]);
        }
    }
}

/// With distinct keys, the map sends each row's key to that row's value.
pub proof fn lemma_keyed_map_index<V>(s: Seq<Keyed<V>>, i: int)
    requires
        keys_unique(s),
        0 <= i < s.len(),
    ensures
        keyed_map(s).contains_key(s[i].key@),
        keyed_map(s)[s[i].key@] == s[i].value,
    decreases s.len(),
{
    let d = s.drop_last();
    if i < s.len() - 1 {
        lemma_keys_unique_drop_last(s);
        assert(d[i] == s[i]);
        lemma_keyed_map_index(d, i);
        assert(s[i].key@ != s[s.len() - 1].key@);
    }
}

/// Replacing the value of a row updates the map at that row's key.
pub proof fn lemma_keyed_map_update<V>(s: Seq<Keyed<V>>, i: int, e: Keyed<V>)
    requires
        keys_unique(s),
        0 <= i < s.len(),
        e.key@ == s[i].key@,
    ensures
        keys_unique(s.update(i, e)),
        keyed_map(s.update(i, e)) == keyed_map(s).insert(e.key@, e.value),
    decreases s.len(),
{
    let u = s.update(i, e);
    assert forall|a: int, b: int|
        0 <= a < u.len() && 0 <= b < u.len() && a != b implies #[trigger] u[a].key@
        != #[trigger] u[b].key@ by {
        assert(u[a].key@ == s[a].key@);
        assert(u[b].key@ == s[b].key@);
    }
    let d = s.drop_last();
    if i == s.len() - 1 {
        assert(u.drop_last() =~= d);
        assert(keyed_map(u) =~= keyed_map(s).insert(e.key@, e.value));
    } else {
        lemma_keys_unique_drop_last(s);
        assert(u.drop_last() =~= d.update(i, e));
        lemma_keyed_map_update(d, i, e);
        assert(s[i].key@ != s.last().key@);
        assert(keyed_map(u) =~= keyed_map(s).insert(e.key@, e.value));
    }
}

/// Appending a row with a fresh key adds that key to the map.
pub proof fn lemma_keyed_map_push<V>(s: Seq<Keyed<V>>, e: Keyed<V>)
    requires
        keys_unique(s),
        !has_key(s, e.key@),
    ensures
        keys_unique(s.push(e)),
        keyed_map(s.push(e)) == keyed_map(s).insert(e.key@, e.value),
{
    let p = s.push(e);
    assert forall|a: int, b: int|
        0 <= a < p.len() && 0 <= b < p.len() && a != b implies #[trigger] p[a].key@
        != #[trigger] p[b].key@ by {
        if a < s.len() {
            assert(p[a] == s[a]);
        }
        if b < s.len() {
            assert(p[b] == s[b]);
        }
    }
    assert(p.drop_last() =~= s);
}

/// Removing a row removes its key from the map.
pub proof fn lemma_keyed_map_remove<V>(s: Seq<Keyed<V>>, i: int)
    requires
        keys_unique(s),
        0 <= i < s.len(),
    ensures
        keys_unique(s.remove(i)),
        keyed_map(s.remove(i)) == keyed_map(s).remove(s[i].key@),
    decreases s.len(),
{
    let r = s.remove(i);
    assert forall|a: int, b: int|
        0 <= a < r.len() && 0 <= b < r.len() && a != b implies #[trigger] r[a].key@
        != #[trigger] r[b].key@ by {
        let sa = if a < i { a } else { a + 1 };
        let sb = if b < i { b } else { b + 1 };
        assert(r[a] == s[sa]);
        assert(r[b] == s[sb]);
    }
    let d = s.drop_last();
    let k = s[i].key@;
    lemma_keys_unique_drop_last(s);
    if i == s.len() - 1 {
        assert(r =~= d);
        lemma_keyed_map_dom(d, k);
        assert(keyed_map(r) =~= keyed_map(s).remove(k));
    } else {
        assert(r.drop_last() =~= d.remove(i));
        assert(r.last() == s.last());
        assert(d[i] == s[i]);
        lemma_keyed_map_remove(d, i);
        assert(s[i].key@ != s.last().key@);
        assert(keyed_map(r) =~= keyed_map(s).remove(k));
    }
}

/// The position of the row with key `key`, if there is one.
pub fn find_key<V>(rows: &Vec<Keyed<V>>, key: &str) -> (r: Option<usize>)
    ensures
        match r {
            Some(i) => i < rows@.len() && rows@[i as int].key@ == key@,
            None => !has_key(rows@, key@),
        },
{
    let wanted = String::from_str(key);
    let mut i: usize = 0;
    while i < rows.len()
        invariant
            i <= rows@.len(),
            wanted@ == key@,
            forall|j: int| 0 <= j < i ==> #[trigger] rows@[j].key@ != key@,
        decreases rows@.len() - i,
    {
        if rows[i].key == wanted {
            return Some(i);
        }
        i = i + 1;
    }
    None
}

} // verus!
