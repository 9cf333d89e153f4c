//! The archive's in-memory index: virtual path to directory entry, stored
//! as a vector of pairs with pairwise-distinct paths, and viewed in
//! contracts as the finite map it denotes.

use vstd::prelude::*;
use crate::codec::Vpk2DirectoryEntry;

verus! {

/// The map an index vector denotes; a later pair for the same path wins.
pub open spec fn assoc_map(s: Seq<(String, Vpk2DirectoryEntry)>) -> Map<
    Seq<char>,
    Vpk2DirectoryEntry,
>
    decreases s.len(),
{
    if s.len() == 0 {
        Map::empty()
    } else {
        assoc_map(s.drop_last()).insert(s.last().0@, s.last().1)
    }
}

/// No two pairs name the same path.
pub open spec fn unique_keys(s: Seq<(String, Vpk2DirectoryEntry)>) -> bool {
    forall|i: int, j: int| 0 <= i < j < s.len() ==> (#[trigger] s[i]).0@ != (#[trigger] s[j]).0@
}

/// A path is in the map exactly when some pair carries it.
pub proof fn lemma_assoc_contains(s: Seq<(String, Vpk2DirectoryEntry)>, p: Seq<char>)
    ensures
        assoc_map(s).contains_key(p) <==> exists|i: int|
            0 <= i < s.len() && (#[trigger] s[i]).0@ == p,
    decreases s.len(),
{
    if s.len() > 0 {
        lemma_assoc_contains(s.drop_last(), p);
        if s.last().0@ == p {
            assert(s[s.len() - 1].0@ == p);
        } else if assoc_map(s).contains_key(p) {
            let i = choose|i: int| 0 <= i < s.drop_last().len() && (#[trigger] s.drop_last()[i]).0@ == p;
            assert(s[i].0@ == p);
        } else {
            assert(forall|i: int| 0 <= i < s.drop_last().len() ==> (#[trigger] s.drop_last()[i]).0@
                != p);
            assert(forall|i: int| 0 <= i < s.len() - 1 ==> (#[trigger] s[i]).0@ != p) by {
                assert(forall|i: int| 0 <= i < s.len() - 1 ==> s.drop_last()[i] == (#[trigger] s[i]));
            }
        }
    }
}

/// With distinct paths, the pair at `i` is what the map stores for it.
pub proof fn lemma_assoc_value(s: Seq<(String, Vpk2DirectoryEntry)>, i: int)
    requires
        unique_keys(s),
        0 <= i < s.len(),
    ensures
        assoc_map(s).contains_key(s[i].0@),
        assoc_map(s)[s[i].0@] == s[i].1,
    decreases s.len(),
{
    if i == s.len() - 1 {
        assert(s.last() == s[i]);
    } else {
        assert(unique_keys(s.drop_last())) by {
            assert(forall|a: int, b: int| 0 <= a < b < s.len() - 1 ==> (#[trigger] s.drop_last()[a]).0@
                != (#[trigger] s.drop_last()[b]).0@) by {
                assert(forall|a: int| 0 <= a < s.len() - 1 ==> s.drop_last()[a] == (#[trigger] s[a]));
            }
        }
        assert(s.drop_last()[i] == s[i]);
        lemma_assoc_value(s.drop_last(), i);
        assert(s.last().0@ != s[i].0@);
    }
}

/// Appending a pair inserts its path.
pub proof fn lemma_assoc_push(
    s: Seq<(String, Vpk2DirectoryEntry)>,
    k: String,
    e: Vpk2DirectoryEntry,
)
    ensures
        assoc_map(s.push((k, e))) == assoc_map(s).insert(k@, e),
{
    assert(s.push((k, e)).drop_last() =~= s);
    assert(s.push((k, e)).last() == (k, e));
}

/// Removing the pair at `i` removes its path, and nothing else.
pub proof fn lemma_assoc_remove(s: Seq<(String, Vpk2DirectoryEntry)>, i: int)
    requires
        unique_keys(s),
        0 <= i < s.len(),
    ensures
        assoc_map(s.remove(i)) =~= assoc_map(s).remove(s[i].0@),
    decreases s.len(),
{
    if i == s.len() - 1 {
        assert(s.remove(i) =~= s.drop_last());
        lemma_assoc_contains(s.drop_last(), s[i].0@);
        assert(forall|a: int| 0 <= a < s.len() - 1 ==> (#[trigger] s.drop_last()[a]).0@ != s[i].0@)
            by {
            assert(forall|a: int| 0 <= a < s.len() - 1 ==> s.drop_last()[a] == (#[trigger] s[a]));
        }
        assert(!assoc_map(s.drop_last()).contains_key(s[i].0@));
        assert(assoc_map(s.remove(i)) =~= assoc_map(s).remove(s[i].0@));
    } else {
        assert(unique_keys(s.drop_last())) by {
            assert(forall|a: int, b: int| 0 <= a < b < s.len() - 1 ==> (#[trigger] s.drop_last()[a]).0@
                != (#[trigger] s.drop_last()[b]).0@) by {
                assert(forall|a: int| 0 <= a < s.len() - 1 ==> s.drop_last()[a] == (#[trigger] s[a]));
            }
        }
        assert(s.drop_last()[i] == s[i]);
        lemma_assoc_remove(s.drop_last(), i);
        assert(s.remove(i).drop_last() =~= s.drop_last().remove(i));
        assert(s.remove(i).last() == s.last());
        assert(s.last().0@ != s[i].0@);
        assert(assoc_map(s.remove(i)) =~= assoc_map(s.drop_last().remove(i)).insert(
            s.last().0@,
            s.last().1,
        ));
        assert(assoc_map(s.remove(i)) =~= assoc_map(s).remove(s[i].0@));
    }
}

/// Finds the position of `path` in the index, if present.
pub fn index_find(files: &Vec<(String, Vpk2DirectoryEntry)>, path: &String) -> (r: Option<usize>)
    ensures
        match r {
            Some(i) => i < files@.len() && files@[i as int].0@ == path@,
            None => forall|i: int| 0 <= i < files@.len() ==> (#[trigger] files@[i]).0@ != path@,
        },
{
    let n = files.len();
    let mut i: usize = 0;
    while i < n
        invariant
            i <= n,
            n == files@.len(),
            forall|j: int| 0 <= j < i ==> (#[trigger] files@[j]).0@ != path@,
        decreases n - i,
    {
        if files[i].0 == *path {
            return Some(i);
        }
        i = i + 1;
    }
    None
}

/// Inserts, or overwrites, the entry for `path`.
pub fn index_upsert(
    files: &mut Vec<(String, Vpk2DirectoryEntry)>,
    path: String,
    e: Vpk2DirectoryEntry,
)
    requires
        unique_keys(old(files)@),
    ensures
        unique_keys(final(files)@),
        assoc_map(final(files)@) =~= assoc_map(old(files)@).insert(path@, e),
        final(files)@.len() <= old(files)@.len() + 1,
{
    let found = index_find(files, &path);
    match found {
        Some(i) => {
            let ghost pre = files@;
            let _ = files.remove(i);
            proof {
                lemma_assoc_remove(pre, i as int);
                assert(unique_keys(files@)) by {
                    assert(forall|a: int, b: int| 0 <= a < b < files@.len() ==> (#[trigger] files@[a]).0@
                        != (#[trigger] files@[b]).0@) by {
                        assert(forall|a: int| 0 <= a < files@.len() ==> #[trigger] files@[a]
                            == if a < i { pre[a] } else { pre[a + 1] });
                    }
                }
                assert(forall|a: int| 0 <= a < files@.len() ==> (#[trigger] files@[a]).0@ != path@)
                    by {
                    assert(forall|a: int| 0 <= a < files@.len() ==> #[trigger] files@[a]
                        == if a < i { pre[a] } else { pre[a + 1] });
                }
            }
            let ghost mid = files@;
            files.push((path, e));
            proof {
                lemma_assoc_push(mid, files@.last().0, e);
                assert(assoc_map(files@) =~= assoc_map(old(files)@).insert(files@.last().0@, e));
                assert(unique_keys(files@)) by {
                    assert(forall|a: int| 0 <= a < mid.len() ==> mid[a] == (#[trigger] files@[a]));
                }
            }
        },
        None => {
            let ghost mid = files@;
            files.push((path, e));
            proof {
                lemma_assoc_push(mid, files@.last().0, e);
                assert(unique_keys(files@)) by {
                    assert(forall|a: int| 0 <= a < mid.len() ==> mid[a] == (#[trigger] files@[a]));
                }
            }
        },
    }
}

/// Takes the entry for `path` out of the index, if present.
pub fn index_remove(files: &mut Vec<(String, Vpk2DirectoryEntry)>, path: &String) -> (r: Option<
    Vpk2DirectoryEntry,
>)
    requires
        unique_keys(old(files)@),
    ensures
        unique_keys(final(files)@),
        match r {
            Some(e) => {
                &&& assoc_map(old(files)@).contains_key(path@)
                &&& e == assoc_map(old(files)@)[path@]
                &&& assoc_map(final(files)@) =~= assoc_map(old(files)@).remove(path@)
                &&& final(files)@.len() == old(files)@.len() - 1
            },
            None => {
                &&& !assoc_map(old(files)@).contains_key(path@)
                &&& *final(files) == *old(files)
            },
        },
{
    let found = index_find(files, &path);
    match found {
        Some(i) => {
            let ghost pre = files@;
            let pair = files.remove(i);
            proof {
                lemma_assoc_value(pre, i as int);
                lemma_assoc_remove(pre, i as int);
                assert(unique_keys(files@)) by {
                    assert(forall|a: int, b: int| 0 <= a < b < files@.len() ==> (#[trigger] files@[a]).0@
                        != (#[trigger] files@[b]).0@) by {
                        assert(forall|a: int| 0 <= a < files@.len() ==> #[trigger] files@[a]
                            == if a < i { pre[a] } else { pre[a + 1] });
                    }
                }
            }
            Some(pair.1)
        },
        None => {
            proof {
                lemma_assoc_contains(files@, path@);
            }
            None
        },
    }
}

/// Looks the entry for `path` up without touching the index.
pub fn index_get(files: &Vec<(String, Vpk2DirectoryEntry)>, path: &String) -> (r: Option<
    Vpk2DirectoryEntry,
>)
    requires
        unique_keys(files@),
    ensures
        match r {
            Some(e) => assoc_map(files@).contains_key(path@) && e == assoc_map(files@)[path@],
            None => !assoc_map(files@).contains_key(path@),
        },
{
    let found = index_find(files, path);
    match found {
        Some(i) => {
            proof {
                lemma_assoc_value(files@, i as int);
            }
            Some(files[i].1)
        },
        None => {
            proof {
                lemma_assoc_contains(files@, path@);
            }
            None
        },
    }
}

} // verus!
