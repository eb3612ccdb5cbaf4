//! The task store is kept as a vector of `(id, task)` pairs with pairwise
//! distinct ids; its mathematical value is the finite map from ids to task
//! values. This module defines that abstraction and proves how pushing,
//! removing and updating entries act on the map.

use vstd::prelude::*;

use crate::models::TodoItem;
use crate::models::TaskView;

verus! {

/// No id occurs twice among the stored pairs.
pub open spec fn distinct_keys(s: Seq<(u32, TodoItem)>) -> bool {
    forall|i: int, j: int|
        0 <= i < j < s.len() ==> (#[trigger] s[i]).0 != (#[trigger] s[j]).0
}

/// Some stored pair carries the id `k`.
pub open spec fn has_key(s: Seq<(u32, TodoItem)>, k: nat) -> bool {
    exists|i: int| 0 <= i < s.len() && (#[trigger] s[i]).0 as nat == k
}

/// The finite map an entry sequence stands for: later entries win, which is
/// immaterial once the ids are distinct.
pub open spec fn map_of(s: Seq<(u32, TodoItem)>) -> Map<nat, TaskView>
    decreases s.len(),
{
    if s.len() == 0 {
        Map::empty()
    } else {
        map_of(s.drop_last()).insert(s.last().0 as nat, s.last().1@)
    }
}

/// The domain of `map_of` is exactly the set of stored ids.
pub proof fn lemma_map_of_dom(s: Seq<(u32, TodoItem)>)
    ensures
        forall|k: nat| #[trigger] map_of(s).dom().contains(k) <==> has_key(s, k),
    decreases s.len(),
{
    if s.len() == 0 {
    } else {
        let dl = s.drop_last();
        lemma_map_of_dom(dl);
        assert forall|k: nat| #[trigger] map_of(s).dom().contains(k) <==> has_key(s, k) by {
            if map_of(s).dom().contains(k) {
                if k == s.last().0 as nat {
                    assert(s.last() == s[s.len() - 1]);
                    assert((s[s.len() - 1]).0 as nat == k);
                } else {
                    assert(map_of(dl).dom().contains(k));
                    assert(has_key(dl, k));
                    let i = choose|i: int| 0 <= i < dl.len() && (#[trigger] dl[i]).0 as nat == k;
                    assert(dl[i] == s[i]);
                    assert((s[i]).0 as nat == k);
                }
            }
            if has_key(s, k) {
                let i = choose|i: int| 0 <= i < s.len() && (#[trigger] s[i]).0 as nat == k;
                if i == s.len() - 1 {
                    assert(s.last() == s[s.len() - 1]);
                    assert(map_of(s).dom().contains(s.last().0 as nat));
                } else {
                    assert(dl[i] == s[i]);
                    assert((dl[i]).0 as nat == k);
                    assert(has_key(dl, k));
                    assert(map_of(dl).dom().contains(k));
                }
            }
        }
    }
}

/// With distinct ids, the map sends each stored id to the view of its task.
pub proof fn lemma_map_of_index(s: Seq<(u32, TodoItem)>, i: int)
    requires
        distinct_keys(s),
        0 <= i < s.len(),
    ensures
        map_of(s).dom().contains(s[i].0 as nat),
        map_of(s)[s[i].0 as nat] == s[i].1@,
    decreases s.len(),
{
    let dl = s.drop_last();
    if i == s.len() - 1 {
    } else {
        assert(distinct_keys(dl)) by {
            assert forall|a: int, b: int|
                0 <= a < b < dl.len() implies (#[trigger] dl[a]).0 != (#[trigger] dl[b]).0 by {
                assert((s[a]).0 != (s[b]).0);
            }
        }
        assert(dl[i] == s[i]);
        lemma_map_of_index(dl, i);
        assert(s.last().0 != s[i].0);
    }
}

/// Removing the entry at index `i` removes exactly its id from the map.
pub proof fn lemma_map_of_remove(s: Seq<(u32, TodoItem)>, i: int)
    requires
        distinct_keys(s),
        0 <= i < s.len(),
    ensures
        distinct_keys(s.remove(i)),
        map_of(s.remove(i)) == map_of(s).remove(s[i].0 as nat),
{
    let t = s.remove(i);
    let k0 = s[i].0 as nat;
    s.remove_ensures(i);
    assert forall|a: int, b: int|
        0 <= a < b < t.len() implies (#[trigger] t[a]).0 != (#[trigger] t[b]).0 by {
        let a2: int = if a < i { a } else { a + 1 };
        let b2: int = if b < i { b } else { b + 1 };
        assert(t[a] == s[a2]);
        assert(t[b] == s[b2]);
        assert((s[a2]).0 != (s[b2]).0);
    }
    lemma_map_of_dom(s);
    lemma_map_of_dom(t);
    assert forall|k: nat| #[trigger] map_of(t).dom().contains(k)
        <==> map_of(s).remove(k0).dom().contains(k) by {
        if map_of(t).dom().contains(k) {
            let a = choose|a: int| 0 <= a < t.len() && (#[trigger] t[a]).0 as nat == k;
            let a2: int = if a < i { a } else { a + 1 };
            assert(t[a] == s[a2]);
            assert((s[a2]).0 as nat == k);
            assert(a2 != i ==> k != k0) by {
                if a2 != i && k == k0 {
                    assert((s[a2]).0 == (s[i]).0);
                }
            }
            assert(k != k0);
        }
        if map_of(s).remove(k0).dom().contains(k) {
            let a = choose|a: int| 0 <= a < s.len() && (#[trigger] s[a]).0 as nat == k;
            assert(a != i);
            let a2: int = if a < i { a } else { a - 1 };
            assert(t[a2] == s[a]);
            assert((t[a2]).0 as nat == k);
        }
    }
    assert forall|k: nat| map_of(t).dom().contains(k)
        implies #[trigger] map_of(t)[k] == map_of(s).remove(k0)[k] by {
        let a = choose|a: int| 0 <= a < t.len() && (#[trigger] t[a]).0 as nat == k;
        lemma_map_of_index(t, a);
        let a2: int = if a < i { a } else { a + 1 };
        assert(t[a] == s[a2]);
        lemma_map_of_index(s, a2);
    }
    assert(map_of(t) =~= map_of(s).remove(k0));
}

/// Replacing the entry at index `i` by a pair with the same id updates the map
/// at exactly that id.
pub proof fn lemma_map_of_update(s: Seq<(u32, TodoItem)>, i: int, p: (u32, TodoItem))
    requires
        distinct_keys(s),
        0 <= i < s.len(),
        p.0 == s[i].0,
    ensures
        distinct_keys(s.update(i, p)),
        map_of(s.update(i, p)) == map_of(s).insert(p.0 as nat, p.1@),
{
    let t = s.update(i, p);
    let k0 = p.0 as nat;
    assert forall|a: int, b: int|
        0 <= a < b < t.len() implies (#[trigger] t[a]).0 != (#[trigger] t[b]).0 by {
        assert((t[a]).0 == (s[a]).0);
        assert((t[b]).0 == (s[b]).0);
        assert((s[a]).0 != (s[b]).0);
    }
    lemma_map_of_dom(s);
    lemma_map_of_dom(t);
    assert forall|k: nat| #[trigger] map_of(t).dom().contains(k)
        <==> map_of(s).insert(k0, p.1@).dom().contains(k) by {
        if map_of(t).dom().contains(k) {
            let a = choose|a: int| 0 <= a < t.len() && (#[trigger] t[a]).0 as nat == k;
            assert((t[a]).0 == (s[a]).0);
            assert((s[a]).0 as nat == k);
        }
        if map_of(s).insert(k0, p.1@).dom().contains(k) {
            if k == k0 {
                assert((t[i]).0 as nat == k);
            } else {
                let a = choose|a: int| 0 <= a < s.len() && (#[trigger] s[a]).0 as nat == k;
                assert((t[a]).0 == (s[a]).0);
                assert((t[a]).0 as nat == k);
            }
        }
    }
    assert forall|k: nat| map_of(t).dom().contains(k)
        implies #[trigger] map_of(t)[k] == map_of(s).insert(k0, p.1@)[k] by {
        if k == k0 {
            lemma_map_of_index(t, i);
        } else {
            let a = choose|a: int| 0 <= a < t.len() && (#[trigger] t[a]).0 as nat == k;
            lemma_map_of_index(t, a);
            assert(a != i);
            assert(t[a] == s[a]);
            lemma_map_of_index(s, a);
        }
    }
    assert(map_of(t) =~= map_of(s).insert(k0, p.1@));
}

/// Appending a pair inserts its id into the map; a fresh id keeps the ids
/// distinct.
pub proof fn lemma_map_of_push(s: Seq<(u32, TodoItem)>, p: (u32, TodoItem))
    ensures
        map_of(s.push(p)) == map_of(s).insert(p.0 as nat, p.1@),
        distinct_keys(s) && !has_key(s, p.0 as nat) ==> distinct_keys(s.push(p)),
{
    let t = s.push(p);
    assert(t.drop_last() =~= s);
    assert(t.last() == p);
    if distinct_keys(s) && !has_key(s, p.0 as nat) {
        assert forall|a: int, b: int|
            0 <= a < b < t.len() implies (#[trigger] t[a]).0 != (#[trigger] t[b]).0 by {
            if b == t.len() - 1 {
                assert(t[a] == s[a]);
                assert(!((s[a]).0 as nat == p.0 as nat));
            } else {
                assert(t[a] == s[a]);
                assert(t[b] == s[b]);
            }
        }
    }
}

} // verus!
