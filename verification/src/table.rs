//! Account-keyed association lists: the shape in which the engine keeps its
//! members and its contributor records, preserving insertion order.

use vstd::prelude::*;

verus! {

use crate::types::AccountId;

/// The first entry stored under `id`, if any.
pub open spec fn find_entry<T>(s: Seq<(AccountId, T)>, id: AccountId) -> Option<T>
    decreases s.len(),
{
    if s.len() == 0 {
        None
    } else if s[0].0 == id {
        Some(s[0].1)
    } else {
        find_entry(s.drop_first(), id)
    }
}

/// Index of the first entry stored under `id`, or -1 when there is none.
pub open spec fn entry_index<T>(s: Seq<(AccountId, T)>, id: AccountId) -> int
    decreases s.len(),
{
    if s.len() == 0 {
        -1
    } else if s[0].0 == id {
        0
    } else {
        let r = entry_index(s.drop_first(), id);
        if r < 0 {
            -1
        } else {
            r + 1
        }
    }
}

/// All keys of the list are distinct.
pub open spec fn unique_ids<T>(s: Seq<(AccountId, T)>) -> bool {
    forall|i: int, j: int| 0 <= i < j < s.len() ==> s[i].0 != s[j].0
}

/// What `entry_index` says about the list.
pub proof fn lemma_entry_index<T>(s: Seq<(AccountId, T)>, id: AccountId)
    ensures
        find_entry(s, id) is None <==> entry_index(s, id) == -1,
        find_entry(s, id) is Some ==> {
            let i = entry_index(s, id);
            &&& 0 <= i < s.len()
            &&& s[i].0 == id
            &&& s[i].1 == find_entry(s, id).unwrap()
            &&& forall|j: int| 0 <= j < i ==> s[j].0 != id
        },
    decreases s.len(),
{
    if s.len() > 0 && s[0].0 != id {
        lemma_entry_index(s.drop_first(), id);
        if find_entry(s, id) is Some {
            let i = entry_index(s, id);
            let i0 = entry_index(s.drop_first(), id);
            assert(i == i0 + 1);
            assert(s.drop_first()[i0] == s[i]);
            assert forall|j: int| 0 <= j < i implies s[j].0 != id by {
                if j > 0 {
                    assert(s.drop_first()[j - 1] == s[j]);
                    assert(s.drop_first()[j - 1].0 != id);
                }
            }
        }
    }
}

/// A present key is found, and at its own index when keys are unique.
pub proof fn lemma_find_entry_present<T>(s: Seq<(AccountId, T)>, id: AccountId, i: int)
    requires
        unique_ids(s),
        0 <= i < s.len(),
        s[i].0 == id,
    ensures
        find_entry(s, id) == Some(s[i].1),
        entry_index(s, id) == i,
    decreases s.len(),
{
    if i > 0 {
        assert(s[0].0 != id);
        assert(s.drop_first()[i - 1] == s[i]);
        assert(unique_ids(s.drop_first())) by {
            assert(forall|x: int, y: int|
                0 <= x < y < s.drop_first().len() ==> s.drop_first()[x] == s[x + 1]
                    && s.drop_first()[y] == s[y + 1]);
        }
        lemma_find_entry_present(s.drop_first(), id, i - 1);
    }
}

/// An absent key is not found.
pub proof fn lemma_find_entry_absent<T>(s: Seq<(AccountId, T)>, id: AccountId)
    requires
        forall|j: int| 0 <= j < s.len() ==> (#[trigger] s[j]).0 != id,
    ensures
        find_entry(s, id) is None,
    decreases s.len(),
{
    if s.len() > 0 {
        assert(forall|j: int|
            0 <= j < s.drop_first().len() ==> (#[trigger] s.drop_first()[j]) == s[j + 1]);
        lemma_find_entry_absent(s.drop_first(), id);
    }
}

/// Appending a fresh key leaves every other lookup unchanged and makes the
/// new key found; it keeps the keys unique.
pub proof fn lemma_find_entry_push<T>(s: Seq<(AccountId, T)>, e: (AccountId, T), id: AccountId)
    requires
        unique_ids(s),
        find_entry(s, e.0) is None,
    ensures
        unique_ids(s.push(e)),
        find_entry(s.push(e), id) == if id == e.0 {
            Some(e.1)
        } else {
            find_entry(s, id)
        },
    decreases s.len(),
{
    lemma_entry_index(s, e.0);
    assert(forall|j: int| 0 <= j < s.len() ==> (#[trigger] s[j]).0 != e.0) by {
        if exists|j: int| 0 <= j < s.len() && (#[trigger] s[j]).0 == e.0 {
            let j = choose|j: int| 0 <= j < s.len() && (#[trigger] s[j]).0 == e.0;
            lemma_find_entry_present(s, e.0, j);
        }
    }
    assert(unique_ids(s.push(e))) by {
        assert(forall|x: int|
            0 <= x < s.len() ==> (#[trigger] s.push(e)[x]) == s[x]);
        assert(s.push(e)[s.len() as int] == e);
    }
    if s.len() == 0 {
        assert(s.push(e)[0] == e);
        assert(s.push(e).drop_first() =~= Seq::<(AccountId, T)>::empty());
        if id != e.0 {
            assert(find_entry(Seq::<(AccountId, T)>::empty(), id) is None);
            assert(find_entry(s.push(e), id) is None);
        }
    } else {
        assert(s.push(e)[0] == s[0]);
        assert(s.push(e).drop_first() =~= s.drop_first().push(e));
        assert(forall|j: int|
            0 <= j < s.drop_first().len() ==> (#[trigger] s.drop_first()[j]) == s[j + 1]);
        assert(unique_ids(s.drop_first()));
        assert(find_entry(s.drop_first(), e.0) is None);
        lemma_find_entry_push(s.drop_first(), e, id);
        if s[0].0 == id {
            assert(id != e.0);
            assert(find_entry(s.push(e), id) == Some(s[0].1));
            assert(find_entry(s, id) == Some(s[0].1));
        } else {
            assert(find_entry(s.push(e), id) == find_entry(s.drop_first().push(e), id));
            assert(find_entry(s, id) == find_entry(s.drop_first(), id));
        }
    }
}

/// Updating an entry in place, keeping its key, changes exactly that key's
/// lookup and keeps the keys unique.
pub proof fn lemma_find_entry_update<T>(
    s: Seq<(AccountId, T)>,
    i: int,
    e: (AccountId, T),
    id: AccountId,
)
    requires
        unique_ids(s),
        0 <= i < s.len(),
        s[i].0 == e.0,
    ensures
        unique_ids(s.update(i, e)),
        find_entry(s.update(i, e), id) == if id == e.0 {
            Some(e.1)
        } else {
            find_entry(s, id)
        },
    decreases s.len(),
{
    assert(unique_ids(s.update(i, e)));
    if i == 0 {
        assert(s.update(i, e)[0] == e);
        assert(s.update(i, e).drop_first() =~= s.drop_first());
        if id != e.0 {
            assert(find_entry(s, id) == find_entry(s.drop_first(), id));
        }
    } else {
        assert(s.update(i, e)[0] == s[0]);
        assert(s.update(i, e).drop_first() =~= s.drop_first().update(i - 1, e));
        assert(unique_ids(s.drop_first())) by {
            assert(forall|x: int|
                0 <= x < s.drop_first().len() ==> (#[trigger] s.drop_first()[x]) == s[x + 1]);
        }
        assert(s.drop_first()[i - 1] == s[i]);
        lemma_find_entry_update(s.drop_first(), i - 1, e, id);
        assert(s[0].0 != e.0);
    }
}

/// Removing an entry changes exactly that key's lookup and keeps the keys
/// unique.
pub proof fn lemma_find_entry_remove<T>(s: Seq<(AccountId, T)>, i: int, id: AccountId)
    requires
        unique_ids(s),
        0 <= i < s.len(),
    ensures
        unique_ids(s.remove(i)),
        find_entry(s.remove(i), id) == if id == s[i].0 {
            None
        } else {
            find_entry(s, id)
        },
    decreases s.len(),
{
    assert(forall|x: int|
        0 <= x < i ==> (#[trigger] s.remove(i)[x]) == s[x]);
    assert(forall|x: int|
        i <= x < s.remove(i).len() ==> (#[trigger] s.remove(i)[x]) == s[x + 1]);
    assert(unique_ids(s.remove(i)));
    if i == 0 {
        assert(s.remove(0) =~= s.drop_first());
        if id == s[0].0 {
            assert(forall|j: int|
                0 <= j < s.drop_first().len() ==> (#[trigger] s.drop_first()[j]).0 != id) by {
                assert(forall|j: int|
                    0 <= j < s.drop_first().len()
                        ==> (#[trigger] s.drop_first()[j]) == s[j + 1]);
            }
            lemma_find_entry_absent(s.drop_first(), id);
        }
    } else {
        assert(s.remove(i)[0] == s[0]);
        assert(s.remove(i).drop_first() =~= s.drop_first().remove(i - 1));
        assert(unique_ids(s.drop_first())) by {
            assert(forall|x: int|
                0 <= x < s.drop_first().len() ==> (#[trigger] s.drop_first()[x]) == s[x + 1]);
        }
        assert(s.drop_first()[i - 1] == s[i]);
        lemma_find_entry_remove(s.drop_first(), i - 1, id);
    }
}

/// Linear scan for the first entry stored under `id`.
pub fn find_index<T>(v: &Vec<(AccountId, T)>, id: AccountId) -> (r: Option<usize>)
    ensures
        match r {
            Some(i) => i < v@.len() && v@[i as int].0 == id && i as int == entry_index(v@, id),
            None => find_entry(v@, id) is None && entry_index(v@, id) == -1,
        },
{
    let ghost s = v@;
    let n = v.len();
    let mut i: usize = 0;
    while i < n
        invariant
            s == v@,
            n == v@.len(),
            i <= n,
            forall|j: int| 0 <= j < i ==> (#[trigger] s[j]).0 != id,
        decreases n - i,
    {
        if v[i].0 == id {
            proof {
                lemma_entry_index(s, id);
                lemma_scan_hits_first(s, id, i as int);
            }
            return Some(i);
        }
        i += 1;
    }
    proof {
        lemma_find_entry_absent(s, id);
        lemma_entry_index(s, id);
    }
    None
}

/// A scan that saw no match before `i` and a match at `i` found the first.
proof fn lemma_scan_hits_first<T>(s: Seq<(AccountId, T)>, id: AccountId, i: int)
    requires
        0 <= i < s.len(),
        s[i].0 == id,
        forall|j: int| 0 <= j < i ==> (#[trigger] s[j]).0 != id,
    ensures
        entry_index(s, id) == i,
        find_entry(s, id) == Some(s[i].1),
    decreases s.len(),
{
    if i > 0 {
        assert(forall|j: int|
            0 <= j < s.drop_first().len() && j < i - 1
                ==> (#[trigger] s.drop_first()[j]) == s[j + 1]);
        assert(s.drop_first()[i - 1] == s[i]);
        lemma_scan_hits_first(s.drop_first(), id, i - 1);
    }
}

} // verus!
