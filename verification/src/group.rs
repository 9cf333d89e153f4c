//! Grouping the flat index into the nested extension/path/name tree the
//! directory file stores, and flattening a parsed tree back into index
//! entries.

use vstd::prelude::*;
use vstd::string::StrSliceExecFns;
use crate::codec::Vpk2DirectoryEntry;
use crate::index::assoc_map;
use crate::paths::{join_keys, join_path, split_dir, split_ext, split_name, split_path};

verus! {

/// An index vector seen as mathematical path/entry pairs.
pub open spec fn iview(fs: Seq<(String, Vpk2DirectoryEntry)>) -> Seq<
    (Seq<char>, Vpk2DirectoryEntry),
> {
    Seq::new(fs.len(), |i: int| (fs[i].0@, fs[i].1))
}

/// A string vector seen as mathematical strings.
pub open spec fn sview(v: Seq<String>) -> Seq<Seq<char>> {
    Seq::new(v.len(), |i: int| v[i]@)
}

/// The distinct values of `s`, each at its first appearance.
pub open spec fn dedup_first(s: Seq<Seq<char>>) -> Seq<Seq<char>>
    decreases s.len(),
{
    if s.len() == 0 {
        s
    } else {
        let pre = dedup_first(s.drop_last());
        if pre.contains(s.last()) {
            pre
        } else {
            pre.push(s.last())
        }
    }
}

/// Carrying extension key `ext`.
pub open spec fn ext_pred(ext: Seq<char>) -> spec_fn((Seq<char>, Vpk2DirectoryEntry)) -> bool {
    |p: (Seq<char>, Vpk2DirectoryEntry)| split_ext(p.0) == ext
}

/// Carrying extension key `ext` and directory key `dir`.
pub open spec fn dir_pred(ext: Seq<char>, dir: Seq<char>) -> spec_fn(
    (Seq<char>, Vpk2DirectoryEntry),
) -> bool {
    |p: (Seq<char>, Vpk2DirectoryEntry)| split_ext(p.0) == ext && split_dir(p.0) == dir
}

/// The pairs whose path carries extension key `ext`.
pub open spec fn sel_ext(m: Seq<(Seq<char>, Vpk2DirectoryEntry)>, ext: Seq<char>) -> Seq<
    (Seq<char>, Vpk2DirectoryEntry),
> {
    m.filter(ext_pred(ext))
}

/// The pairs whose path carries extension key `ext` and directory key `dir`.
pub open spec fn sel_dir(
    m: Seq<(Seq<char>, Vpk2DirectoryEntry)>,
    ext: Seq<char>,
    dir: Seq<char>,
) -> Seq<(Seq<char>, Vpk2DirectoryEntry)> {
    m.filter(dir_pred(ext, dir))
}

/// How a filtering reacts to one more pair at the end.
pub proof fn lemma_filter_push<A>(s: Seq<A>, x: A, pred: spec_fn(A) -> bool)
    ensures
        s.push(x).filter(pred) == if pred(x) {
            s.filter(pred).push(x)
        } else {
            s.filter(pred)
        },
{
    reveal(Seq::filter);
    assert(s.push(x).drop_last() =~= s);
    assert(s.push(x).last() == x);
}

/// The extension keys of the index, in order of first appearance.
pub open spec fn exts_of(m: Seq<(Seq<char>, Vpk2DirectoryEntry)>) -> Seq<Seq<char>> {
    dedup_first(m.map_values(|p: (Seq<char>, Vpk2DirectoryEntry)| split_ext(p.0)))
}

/// The directory keys under one extension, in order of first appearance.
pub open spec fn dirs_of(m: Seq<(Seq<char>, Vpk2DirectoryEntry)>, ext: Seq<char>) -> Seq<
    Seq<char>,
> {
    dedup_first(sel_ext(m, ext).map_values(|p: (Seq<char>, Vpk2DirectoryEntry)| split_dir(p.0)))
}

/// The name/entry pairs under one extension and directory, in index order.
pub open spec fn names_of(
    m: Seq<(Seq<char>, Vpk2DirectoryEntry)>,
    ext: Seq<char>,
    dir: Seq<char>,
) -> Seq<(Seq<char>, Vpk2DirectoryEntry)> {
    sel_dir(m, ext, dir).map_values(
        |p: (Seq<char>, Vpk2DirectoryEntry)| (split_name(p.0), p.1),
    )
}

/// The index grouped by extension, then directory, then name.
pub open spec fn spec_group(m: Seq<(Seq<char>, Vpk2DirectoryEntry)>) -> Seq<
    (Seq<char>, Seq<(Seq<char>, Seq<(Seq<char>, Vpk2DirectoryEntry)>)>),
> {
    exts_of(m).map_values(
        |ext: Seq<char>|
            (
                ext,
                dirs_of(m, ext).map_values(
                    |dir: Seq<char>| (dir, names_of(m, ext, dir)),
                ),
            ),
    )
}

/// The full paths and entries one name level denotes.
pub open spec fn leaves_names(
    ext: Seq<char>,
    dir: Seq<char>,
    ns: Seq<(Seq<char>, Vpk2DirectoryEntry)>,
) -> Seq<(Seq<char>, Vpk2DirectoryEntry)> {
    ns.map_values(|p: (Seq<char>, Vpk2DirectoryEntry)| (join_path(ext, dir, p.0), p.1))
}

/// The full paths and entries one path level denotes, in tree order.
pub open spec fn leaves_dirs(
    ext: Seq<char>,
    ds: Seq<(Seq<char>, Seq<(Seq<char>, Vpk2DirectoryEntry)>)>,
) -> Seq<(Seq<char>, Vpk2DirectoryEntry)>
    decreases ds.len(),
{
    if ds.len() == 0 {
        Seq::empty()
    } else {
        leaves_names(ext, ds[0].0, ds[0].1) + leaves_dirs(ext, ds.drop_first())
    }
}

/// The map the parsed leaves build up, one insert per leaf in order.
pub open spec fn pairs_map(s: Seq<(Seq<char>, Vpk2DirectoryEntry)>) -> Map<
    Seq<char>,
    Vpk2DirectoryEntry,
>
    decreases s.len(),
{
    if s.len() == 0 {
        Map::empty()
    } else {
        pairs_map(s.drop_last()).insert(s.last().0, s.last().1)
    }
}

/// The full paths and entries a whole tree denotes, in tree order.
pub open spec fn spec_leaves(
    t: Seq<(Seq<char>, Seq<(Seq<char>, Seq<(Seq<char>, Vpk2DirectoryEntry)>)>)>,
) -> Seq<(Seq<char>, Vpk2DirectoryEntry)>
    decreases t.len(),
{
    if t.len() == 0 {
        Seq::empty()
    } else {
        leaves_dirs(t[0].0, t[0].1) + spec_leaves(t.drop_first())
    }
}

/// Whether a string vector holds `x`.
fn str_vec_contains(v: &Vec<String>, x: &String) -> (r: bool)
    ensures
        r == sview(v@).contains(x@),
{
    let n = v.len();
    let mut i: usize = 0;
    while i < n
        invariant
            i <= n,
            n == v@.len(),
            forall|j: int| 0 <= j < i ==> sview(v@)[j] != x@,
        decreases n - i,
    {
        if v[i] == *x {
            proof {
                assert(sview(v@)[i as int] == x@);
            }
            return true;
        }
        proof {
            assert(sview(v@)[i as int] == v@[i as int]@);
        }
        i = i + 1;
    }
    proof {
        assert(!sview(v@).contains(x@));
    }
    false
}

/// The extension keys of the index, each at its first appearance.
fn collect_exts(files: &Vec<(String, Vpk2DirectoryEntry)>) -> (r: Vec<String>)
    ensures
        sview(r@) == exts_of(iview(files@)),
{
    let n = files.len();
    let mut exts: Vec<String> = Vec::new();
    proof {
        assert(iview(files@).map_values(
            |p: (Seq<char>, Vpk2DirectoryEntry)| split_ext(p.0),
        ).take(0) =~= Seq::<Seq<char>>::empty());
        assert(sview(exts@) =~= dedup_first(
            iview(files@).map_values(|p: (Seq<char>, Vpk2DirectoryEntry)| split_ext(p.0)).take(0),
        ));
    }
    let mut i: usize = 0;
    while i < n
        invariant
            i <= n,
            n == files@.len(),
            sview(exts@) == dedup_first(
                iview(files@).map_values(
                    |p: (Seq<char>, Vpk2DirectoryEntry)| split_ext(p.0),
                ).take(i as int),
            ),
        decreases n - i,
    {
        let ghost keys = iview(files@).map_values(
            |p: (Seq<char>, Vpk2DirectoryEntry)| split_ext(p.0),
        );
        let (ext, _dir, _name) = split_path(&files[i].0);
        proof {
            assert(keys.take(i + 1).drop_last() =~= keys.take(i as int));
            assert(keys.take(i + 1).last() == keys[i as int]);
            assert(keys[i as int] == ext@);
        }
        let ghost spre = sview(exts@);
        if !str_vec_contains(&exts, &ext) {
            exts.push(ext);
            proof {
                assert(sview(exts@) =~= spre.push(keys[i as int]));
            }
        }
        proof {
            assert(sview(exts@) == dedup_first(keys.take(i + 1)));
        }
        i = i + 1;
    }
    proof {
        let keys = iview(files@).map_values(
            |p: (Seq<char>, Vpk2DirectoryEntry)| split_ext(p.0),
        );
        assert(keys.take(n as int) =~= keys);
    }
    exts
}

/// The directory keys of the index under `ext`, each at its first
/// appearance.
fn collect_dirs(files: &Vec<(String, Vpk2DirectoryEntry)>, ext: &String) -> (r: Vec<String>)
    ensures
        sview(r@) == dirs_of(iview(files@), ext@),
{
    let n = files.len();
    let mut dirs: Vec<String> = Vec::new();
    proof {
        assert(iview(files@).take(0) =~= Seq::<(Seq<char>, Vpk2DirectoryEntry)>::empty());
        assert(sel_ext(iview(files@).take(0), ext@) =~= Seq::<
            (Seq<char>, Vpk2DirectoryEntry),
        >::empty());
        assert(sview(dirs@) =~= dedup_first(
            sel_ext(iview(files@).take(0), ext@).map_values(
                |p: (Seq<char>, Vpk2DirectoryEntry)| split_dir(p.0),
            ),
        ));
    }
    let mut i: usize = 0;
    while i < n
        invariant
            i <= n,
            n == files@.len(),
            sview(dirs@) == dedup_first(
                sel_ext(iview(files@).take(i as int), ext@).map_values(
                    |p: (Seq<char>, Vpk2DirectoryEntry)| split_dir(p.0),
                ),
            ),
        decreases n - i,
    {
        let ghost m = iview(files@);
        let (fext, fdir, _name) = split_path(&files[i].0);
        proof {
            assert(m.take(i + 1).drop_last() =~= m.take(i as int));
            assert(m.take(i + 1).last() == m[i as int]);
            assert(m[i as int].0 == files@[i as int].0@);
        }
        let ghost spre = sview(dirs@);
        proof {
            assert(m.take(i + 1) =~= m.take(i as int).push(m[i as int]));
            lemma_filter_push(m.take(i as int), m[i as int], ext_pred(ext@));
        }
        if fext == *ext {
            let ghost sel_pre = sel_ext(m.take(i as int), ext@);
            proof {
                assert(ext_pred(ext@)(m[i as int]));
                assert(sel_ext(m.take(i + 1), ext@) =~= sel_pre.push(m[i as int]));
                assert(sel_pre.push(m[i as int]).map_values(
                    |p: (Seq<char>, Vpk2DirectoryEntry)| split_dir(p.0),
                ) =~= sel_pre.map_values(
                    |p: (Seq<char>, Vpk2DirectoryEntry)| split_dir(p.0),
                ).push(fdir@));
                assert(sel_ext(m.take(i + 1), ext@).map_values(
                    |p: (Seq<char>, Vpk2DirectoryEntry)| split_dir(p.0),
                ).drop_last() =~= sel_pre.map_values(
                    |p: (Seq<char>, Vpk2DirectoryEntry)| split_dir(p.0),
                ));
                assert(sel_ext(m.take(i + 1), ext@).map_values(
                    |p: (Seq<char>, Vpk2DirectoryEntry)| split_dir(p.0),
                ).last() == fdir@);
            }
            if !str_vec_contains(&dirs, &fdir) {
                dirs.push(fdir);
                proof {
                    assert(sview(dirs@) =~= spre.push(split_dir(m[i as int].0)));
                }
            }
            proof {
                assert(sview(dirs@) == dedup_first(
                    sel_ext(m.take(i + 1), ext@).map_values(
                        |p: (Seq<char>, Vpk2DirectoryEntry)| split_dir(p.0),
                    ),
                ));
            }
        } else {
            proof {
                assert(!ext_pred(ext@)(m[i as int]));
                assert(sel_ext(m.take(i + 1), ext@) =~= sel_ext(m.take(i as int), ext@));
            }
        }
        i = i + 1;
    }
    proof {
        assert(iview(files@).take(n as int) =~= iview(files@));
    }
    dirs
}

/// The name/entry pairs of the index under `ext` and `dir`, in index
/// order.
fn collect_names(
    files: &Vec<(String, Vpk2DirectoryEntry)>,
    ext: &String,
    dir: &String,
) -> (r: Vec<(String, Vpk2DirectoryEntry)>)
    ensures
        crate::codec::nview(r@) == names_of(iview(files@), ext@, dir@),
{
    let n = files.len();
    let mut names: Vec<(String, Vpk2DirectoryEntry)> = Vec::new();
    proof {
        assert(iview(files@).take(0) =~= Seq::<(Seq<char>, Vpk2DirectoryEntry)>::empty());
        assert(sel_dir(iview(files@).take(0), ext@, dir@) =~= Seq::<
            (Seq<char>, Vpk2DirectoryEntry),
        >::empty());
        assert(crate::codec::nview(names@) =~= names_of(iview(files@).take(0), ext@, dir@));
    }
    let mut i: usize = 0;
    while i < n
        invariant
            i <= n,
            n == files@.len(),
            crate::codec::nview(names@) == names_of(iview(files@).take(i as int), ext@, dir@),
        decreases n - i,
    {
        let ghost m = iview(files@);
        let (fext, fdir, fname) = split_path(&files[i].0);
        proof {
            assert(m.take(i + 1).drop_last() =~= m.take(i as int));
            assert(m.take(i + 1).last() == m[i as int]);
            assert(m[i as int].0 == files@[i as int].0@);
        }
        let ghost npre = crate::codec::nview(names@);
        proof {
            assert(m.take(i + 1) =~= m.take(i as int).push(m[i as int]));
            lemma_filter_push(m.take(i as int), m[i as int], dir_pred(ext@, dir@));
        }
        if fext == *ext && fdir == *dir {
            let entry = files[i].1;
            names.push((fname, entry));
            proof {
                assert(dir_pred(ext@, dir@)(m[i as int]));
                assert(sel_dir(m.take(i + 1), ext@, dir@) =~= sel_dir(
                    m.take(i as int),
                    ext@,
                    dir@,
                ).push(m[i as int]));
                assert(crate::codec::nview(names@) =~= npre.push(
                    (split_name(m[i as int].0), m[i as int].1),
                ));
                assert(names_of(m.take(i + 1), ext@, dir@) =~= names_of(
                    m.take(i as int),
                    ext@,
                    dir@,
                ).push((split_name(m[i as int].0), m[i as int].1)));
            }
        } else {
            proof {
                assert(!dir_pred(ext@, dir@)(m[i as int]));
                assert(sel_dir(m.take(i + 1), ext@, dir@) =~= sel_dir(m.take(i as int), ext@, dir@));
                assert(names_of(m.take(i + 1), ext@, dir@) =~= names_of(
                    m.take(i as int),
                    ext@,
                    dir@,
                ));
            }
        }
        i = i + 1;
    }
    proof {
        assert(iview(files@).take(n as int) =~= iview(files@));
    }
    names
}

/// Groups the flat index into the nested tree the directory file stores.
pub fn group_index(files: &Vec<(String, Vpk2DirectoryEntry)>) -> (r: Vec<
    (String, Vec<(String, Vec<(String, Vpk2DirectoryEntry)>)>)>)
    ensures
        crate::codec::eview(r@) == spec_group(iview(files@)),
{
    let ghost m = iview(files@);
    let exts = collect_exts(files);
    let en = exts.len();
    let mut tree: Vec<(String, Vec<(String, Vec<(String, Vpk2DirectoryEntry)>)>)> = Vec::new();
    let mut i: usize = 0;
    while i < en
        invariant
            i <= en,
            en == exts@.len(),
            m == iview(files@),
            sview(exts@) == exts_of(m),
            crate::codec::eview(tree@) =~= spec_group(m).take(i as int),
        decreases en - i,
    {
        let ext = exts[i].clone();
        let dirs = collect_dirs(files, &ext);
        let dn = dirs.len();
        let mut subtree: Vec<(String, Vec<(String, Vpk2DirectoryEntry)>)> = Vec::new();
        let mut j: usize = 0;
        while j < dn
            invariant
                j <= dn,
                dn == dirs@.len(),
                m == iview(files@),
                i < en,
                en == exts_of(m).len(),
                ext@ == exts_of(m)[i as int],
                sview(dirs@) == dirs_of(m, ext@),
                crate::codec::dview(subtree@) =~= dirs_of(m, ext@).map_values(
                    |dir: Seq<char>| (dir, names_of(m, ext@, dir)),
                ).take(j as int),
            decreases dn - j,
        {
            let dir = dirs[j].clone();
            let names = collect_names(files, &ext, &dir);
            let ghost dpre = crate::codec::dview(subtree@);
            subtree.push((dir, names));
            proof {
                let target = dirs_of(m, ext@).map_values(
                    |dir: Seq<char>| (dir, names_of(m, ext@, dir)),
                );
                assert(dir@ == dirs_of(m, ext@)[j as int]);
                assert(crate::codec::dview(subtree@) =~= dpre.push(
                    (dir@, crate::codec::nview(subtree@.last().1@)),
                ));
                assert(crate::codec::nview(subtree@.last().1@) == names_of(m, ext@, dir@));
                assert(target[j as int] == (dir@, names_of(m, ext@, dir@)));
                assert(crate::codec::dview(subtree@) =~= target.take(j + 1));
            }
            j = j + 1;
        }
        let ghost epre = crate::codec::eview(tree@);
        let ghost sub_final = crate::codec::dview(subtree@);
        proof {
            let dtarget = dirs_of(m, ext@).map_values(
                |dir: Seq<char>| (dir, names_of(m, ext@, dir)),
            );
            assert(sub_final =~= dtarget.take(dn as int));
            assert(dtarget.take(dn as int) =~= dtarget);
        }
        tree.push((ext, subtree));
        proof {
            let target = spec_group(m);
            assert(crate::codec::eview(tree@) =~= epre.push((ext@, sub_final)));
            assert(target[i as int] == (
                exts_of(m)[i as int],
                dirs_of(m, exts_of(m)[i as int]).map_values(
                    |dir: Seq<char>| (dir, names_of(m, exts_of(m)[i as int], dir)),
                ),
            ));
            assert(crate::codec::eview(tree@) =~= target.take(i + 1));
        }
        i = i + 1;
    }
    proof {
        assert(spec_group(m).take(en as int) =~= spec_group(m));
    }
    tree
}

/// Flattens a parsed tree into full paths and entries, in tree order.
pub fn tree_leaves(tree: &Vec<(String, Vec<(String, Vec<(String, Vpk2DirectoryEntry)>)>)>) -> (r:
    Vec<(String, Vpk2DirectoryEntry)>)
    ensures
        crate::codec::nview(r@) == spec_leaves(crate::codec::eview(tree@)),
{
    let ghost t = crate::codec::eview(tree@);
    let mut out: Vec<(String, Vpk2DirectoryEntry)> = Vec::new();
    let en = tree.len();
    let mut i: usize = 0;
    proof {
        assert(t.skip(0) =~= t);
        assert(crate::codec::nview(out@) =~= Seq::<(Seq<char>, Vpk2DirectoryEntry)>::empty());
    }
    while i < en
        invariant
            i <= en,
            en == tree@.len(),
            t == crate::codec::eview(tree@),
            spec_leaves(t) =~= crate::codec::nview(out@) + spec_leaves(t.skip(i as int)),
        decreases en - i,
    {
        let ext = &tree[i].0;
        let dirs = &tree[i].1;
        let dn = dirs.len();
        let ghost ds = crate::codec::dview(tree@[i as int].1@);
        proof {
            assert(t.skip(i as int)[0] == t[i as int]);
            assert(t.skip(i as int).drop_first() =~= t.skip(i + 1));
            assert(spec_leaves(t.skip(i as int)) =~= leaves_dirs(t[i as int].0, ds) + spec_leaves(
                t.skip(i + 1),
            ));
            assert(ds.skip(0) =~= ds);
        }
        let mut j: usize = 0;
        while j < dn
            invariant
                j <= dn,
                dn == dirs@.len(),
                ds == crate::codec::dview(dirs@),
                ext@ == t[i as int].0,
                t == crate::codec::eview(tree@),
                i < en == tree@.len(),
                dirs@ == tree@[i as int].1@,
                spec_leaves(t) =~= crate::codec::nview(out@) + leaves_dirs(ext@, ds.skip(j as int))
                    + spec_leaves(t.skip(i + 1)),
            decreases dn - j,
        {
            let dir = &dirs[j].0;
            let names = &dirs[j].1;
            let nn = names.len();
            let ghost ns = crate::codec::nview(dirs@[j as int].1@);
            proof {
                assert(ds.skip(j as int)[0] == ds[j as int]);
                assert(ds.skip(j as int).drop_first() =~= ds.skip(j + 1));
                assert(leaves_dirs(ext@, ds.skip(j as int)) =~= leaves_names(
                    ext@,
                    ds[j as int].0,
                    ns,
                ) + leaves_dirs(ext@, ds.skip(j + 1)));
            }
            let mut k: usize = 0;
            while k < nn
                invariant
                    k <= nn,
                    nn == names@.len(),
                    ns == crate::codec::nview(names@),
                    dir@ == ds[j as int].0,
                    ext@ == t[i as int].0,
                    t == crate::codec::eview(tree@),
                    i < en == tree@.len(),
                    j < dn == dirs@.len(),
                    ds == crate::codec::dview(dirs@),
                    dirs@ == tree@[i as int].1@,
                    names@ == dirs@[j as int].1@,
                    spec_leaves(t) =~= crate::codec::nview(out@) + leaves_names(
                        ext@,
                        dir@,
                        ns.skip(k as int),
                    ) + leaves_dirs(ext@, ds.skip(j + 1)) + spec_leaves(t.skip(i + 1)),
                decreases nn - k,
            {
                let full = join_keys(ext, dir, &names[k].0);
                let entry = names[k].1;
                let ghost opre = crate::codec::nview(out@);
                out.push((full, entry));
                proof {
                    assert(ns.skip(k as int)[0] == ns[k as int]);
                    assert(ns.skip(k as int).drop_first() =~= ns.skip(k + 1));
                    assert(ns[k as int].0 == names@[k as int].0@);
                    assert(leaves_names(ext@, dir@, ns.skip(k as int)) =~= seq![
                        (join_path(ext@, dir@, ns[k as int].0), ns[k as int].1),
                    ] + leaves_names(ext@, dir@, ns.skip(k + 1)));
                    assert(crate::codec::nview(out@) =~= opre.push(
                        (join_path(ext@, dir@, ns[k as int].0), ns[k as int].1),
                    ));
                    assert(spec_leaves(t) =~= crate::codec::nview(out@) + leaves_names(
                        ext@,
                        dir@,
                        ns.skip(k + 1),
                    ) + leaves_dirs(ext@, ds.skip(j + 1)) + spec_leaves(t.skip(i + 1)));
                }
                k = k + 1;
            }
            proof {
                assert(ns.skip(nn as int) =~= Seq::<(Seq<char>, Vpk2DirectoryEntry)>::empty());
                assert(leaves_names(ext@, dir@, ns.skip(nn as int)) =~= Seq::<
                    (Seq<char>, Vpk2DirectoryEntry),
                >::empty());
            }
            j = j + 1;
        }
        proof {
            assert(ds.skip(dn as int) =~= Seq::<
                (Seq<char>, Seq<(Seq<char>, Vpk2DirectoryEntry)>),
            >::empty());
            assert(leaves_dirs(ext@, ds.skip(dn as int)) =~= Seq::<
                (Seq<char>, Vpk2DirectoryEntry),
            >::empty());
        }
        i = i + 1;
    }
    proof {
        assert(t.skip(en as int) =~= Seq::<
            (Seq<char>, Seq<(Seq<char>, Seq<(Seq<char>, Vpk2DirectoryEntry)>)>),
        >::empty());
        assert(spec_leaves(t.skip(en as int)) =~= Seq::<(Seq<char>, Vpk2DirectoryEntry)>::empty());
        assert(crate::codec::nview(out@) =~= spec_leaves(t));
    }
    out
}

} // verus!

// ---------------------------------------------------------------------------
// Grouping loses nothing: the leaves of the grouped tree denote the same
// map as the index they came from
// ---------------------------------------------------------------------------

verus! {

/// All paths of the index survive the trip through the tree.
pub open spec fn all_paths_ok(m: Seq<(Seq<char>, Vpk2DirectoryEntry)>) -> bool {
    forall|i: int| 0 <= i < m.len() ==> crate::paths::path_ok((#[trigger] m[i]).0)
}

/// No two pairs of the index name the same path.
pub open spec fn vunique(m: Seq<(Seq<char>, Vpk2DirectoryEntry)>) -> bool {
    forall|i: int, j: int| 0 <= i < j < m.len() ==> (#[trigger] m[i]).0 != (#[trigger] m[j]).0
}

/// Pairs that agree on the path agree on the entry.
pub open spec fn coherent(s: Seq<(Seq<char>, Vpk2DirectoryEntry)>) -> bool {
    forall|i: int, j: int|
        0 <= i < s.len() && 0 <= j < s.len() && (#[trigger] s[i]).0 == (#[trigger] s[j]).0
            ==> s[i].1 == s[j].1
}

/// Concatenation holds an element exactly when one of its sides does.
pub proof fn lemma_concat_contains<A>(a: Seq<A>, b: Seq<A>, x: A)
    ensures
        (a + b).contains(x) <==> a.contains(x) || b.contains(x),
{
    if a.contains(x) {
        let i = choose|i: int| 0 <= i < a.len() && a[i] == x;
        assert((a + b)[i] == x);
    }
    if b.contains(x) {
        let i = choose|i: int| 0 <= i < b.len() && b[i] == x;
        assert((a + b)[a.len() + i] == x);
    }
    if (a + b).contains(x) {
        let i = choose|i: int| 0 <= i < (a + b).len() && (a + b)[i] == x;
        if i < a.len() {
            assert(a[i] == x);
        } else {
            assert(b[i - a.len()] == x);
        }
    }
}

/// Deduplication holds exactly the values of the original.
pub proof fn lemma_dedup_contains(s: Seq<Seq<char>>, x: Seq<char>)
    ensures
        dedup_first(s).contains(x) <==> s.contains(x),
    decreases s.len(),
{
    if s.len() > 0 {
        lemma_dedup_contains(s.drop_last(), x);
        let pre = dedup_first(s.drop_last());
        if s.contains(x) {
            let i = choose|i: int| 0 <= i < s.len() && s[i] == x;
            if i < s.len() - 1 {
                assert(s.drop_last()[i] == x);
                assert(s.drop_last().contains(x));
                if !pre.contains(s.last()) {
                    let j = choose|j: int| 0 <= j < pre.len() && pre[j] == x;
                    assert(pre.push(s.last())[j] == x);
                }
            } else {
                if pre.contains(s.last()) {
                    assert(dedup_first(s).contains(x));
                } else {
                    assert(pre.push(s.last())[pre.len() as int] == x);
                }
            }
        }
        if dedup_first(s).contains(x) && !s.contains(x) {
            if pre.contains(s.last()) {
                assert(s.drop_last().contains(x));
                let i = choose|i: int| 0 <= i < s.drop_last().len() && s.drop_last()[i] == x;
                assert(s[i] == x);
            } else {
                let j = choose|j: int|
                    0 <= j < pre.push(s.last()).len() && pre.push(s.last())[j] == x;
                if j < pre.len() {
                    assert(pre[j] == x);
                    assert(s.drop_last().contains(x));
                    let i = choose|i: int| 0 <= i < s.drop_last().len() && s.drop_last()[i] == x;
                    assert(s[i] == x);
                } else {
                    assert(s[s.len() - 1] == x);
                }
            }
        }
    }
}

/// A path level's leaves are exactly the leaves of its name levels.
pub proof fn lemma_leaves_dirs_contains(
    ext: Seq<char>,
    ds: Seq<(Seq<char>, Seq<(Seq<char>, Vpk2DirectoryEntry)>)>,
    x: (Seq<char>, Vpk2DirectoryEntry),
)
    ensures
        leaves_dirs(ext, ds).contains(x) <==> exists|j: int|
            0 <= j < ds.len() && leaves_names(ext, (#[trigger] ds[j]).0, ds[j].1).contains(x),
    decreases ds.len(),
{
    if ds.len() > 0 {
        lemma_leaves_dirs_contains(ext, ds.drop_first(), x);
        lemma_concat_contains(
            leaves_names(ext, ds[0].0, ds[0].1),
            leaves_dirs(ext, ds.drop_first()),
            x,
        );
        if leaves_dirs(ext, ds).contains(x) {
            if leaves_names(ext, ds[0].0, ds[0].1).contains(x) {
                assert(leaves_names(ext, ds[0].0, ds[0].1).contains(x));
            } else {
                let j = choose|j: int|
                    0 <= j < ds.drop_first().len() && leaves_names(
                        ext,
                        (#[trigger] ds.drop_first()[j]).0,
                        ds.drop_first()[j].1,
                    ).contains(x);
                assert(ds[j + 1] == ds.drop_first()[j]);
                assert(leaves_names(ext, ds[j + 1].0, ds[j + 1].1).contains(x));
            }
        }
        if exists|j: int|
            0 <= j < ds.len() && leaves_names(ext, (#[trigger] ds[j]).0, ds[j].1).contains(x) {
            let j = choose|j: int|
                0 <= j < ds.len() && leaves_names(ext, (#[trigger] ds[j]).0, ds[j].1).contains(x);
            if j == 0 {
                assert(leaves_dirs(ext, ds).contains(x));
            } else {
                assert(ds.drop_first()[j - 1] == ds[j]);
                assert(leaves_names(
                    ext,
                    ds.drop_first()[j - 1].0,
                    ds.drop_first()[j - 1].1,
                ).contains(x));
                assert(leaves_dirs(ext, ds.drop_first()).contains(x));
            }
        }
    }
}

/// A tree's leaves are exactly the leaves of its path levels.
pub proof fn lemma_spec_leaves_contains(
    t: Seq<(Seq<char>, Seq<(Seq<char>, Seq<(Seq<char>, Vpk2DirectoryEntry)>)>)>,
    x: (Seq<char>, Vpk2DirectoryEntry),
)
    ensures
        spec_leaves(t).contains(x) <==> exists|i: int|
            0 <= i < t.len() && leaves_dirs((#[trigger] t[i]).0, t[i].1).contains(x),
    decreases t.len(),
{
    if t.len() > 0 {
        lemma_spec_leaves_contains(t.drop_first(), x);
        lemma_concat_contains(leaves_dirs(t[0].0, t[0].1), spec_leaves(t.drop_first()), x);
        if spec_leaves(t).contains(x) {
            if leaves_dirs(t[0].0, t[0].1).contains(x) {
                assert(leaves_dirs(t[0].0, t[0].1).contains(x));
            } else {
                let i = choose|i: int|
                    0 <= i < t.drop_first().len() && leaves_dirs(
                        (#[trigger] t.drop_first()[i]).0,
                        t.drop_first()[i].1,
                    ).contains(x);
                assert(t[i + 1] == t.drop_first()[i]);
                assert(leaves_dirs(t[i + 1].0, t[i + 1].1).contains(x));
            }
        }
        if exists|i: int|
            0 <= i < t.len() && leaves_dirs((#[trigger] t[i]).0, t[i].1).contains(x) {
            let i = choose|i: int|
                0 <= i < t.len() && leaves_dirs((#[trigger] t[i]).0, t[i].1).contains(x);
            if i == 0 {
                assert(spec_leaves(t).contains(x));
            } else {
                assert(t.drop_first()[i - 1] == t[i]);
                assert(leaves_dirs(t.drop_first()[i - 1].0, t.drop_first()[i - 1].1).contains(x));
                assert(spec_leaves(t.drop_first()).contains(x));
            }
        }
    }
}

/// Every leaf of the grouped tree is a pair of the index.
pub proof fn lemma_leaf_in_index(
    m: Seq<(Seq<char>, Vpk2DirectoryEntry)>,
    x: (Seq<char>, Vpk2DirectoryEntry),
)
    requires
        all_paths_ok(m),
        spec_leaves(spec_group(m)).contains(x),
    ensures
        m.contains(x),
{
    let t = spec_group(m);
    lemma_spec_leaves_contains(t, x);
    let i = choose|i: int| 0 <= i < t.len() && leaves_dirs((#[trigger] t[i]).0, t[i].1).contains(x);
    let ext = exts_of(m)[i];
    assert(t[i] == (ext, dirs_of(m, ext).map_values(|dir: Seq<char>| (dir, names_of(m, ext, dir)))));
    lemma_leaves_dirs_contains(ext, t[i].1, x);
    let j = choose|j: int|
        0 <= j < t[i].1.len() && leaves_names(ext, (#[trigger] t[i].1[j]).0, t[i].1[j].1).contains(
            x,
        );
    let dir = dirs_of(m, ext)[j];
    assert(t[i].1[j] == (dir, names_of(m, ext, dir)));
    let ns = names_of(m, ext, dir);
    let k = choose|k: int|
        0 <= k < leaves_names(ext, dir, ns).len() && leaves_names(ext, dir, ns)[k] == x;
    let q = sel_dir(m, ext, dir)[k];
    assert(ns[k] == (split_name(q.0), q.1));
    assert(x == (join_path(ext, dir, split_name(q.0)), q.1));
    m.lemma_filter_pred(dir_pred(ext, dir), k);
    assert(m.filter(dir_pred(ext, dir))[k] == q);
    assert(m.filter(dir_pred(ext, dir)).contains(q));
    m.lemma_filter_contains_rev(dir_pred(ext, dir), q);
    assert(m.contains(q));
    let l = choose|l: int| 0 <= l < m.len() && m[l] == q;
    assert(crate::paths::path_ok(q.0));
    assert(dir_pred(ext, dir)(q));
    assert(split_ext(q.0) == ext && split_dir(q.0) == dir);
    assert(join_path(ext, dir, split_name(q.0)) == q.0);
    assert(x == q);
}

/// Every pair of the index appears among the leaves of the grouped tree.
pub proof fn lemma_index_in_leaves(m: Seq<(Seq<char>, Vpk2DirectoryEntry)>, l: int)
    requires
        all_paths_ok(m),
        0 <= l < m.len(),
    ensures
        spec_leaves(spec_group(m)).contains(m[l]),
{
    let t = spec_group(m);
    let p = m[l];
    let ext = split_ext(p.0);
    let dir = split_dir(p.0);
    let ekeys = m.map_values(|q: (Seq<char>, Vpk2DirectoryEntry)| split_ext(q.0));
    assert(ekeys[l] == ext);
    assert(ekeys.contains(ext));
    lemma_dedup_contains(ekeys, ext);
    assert(exts_of(m).contains(ext));
    let i = choose|i: int| 0 <= i < exts_of(m).len() && exts_of(m)[i] == ext;
    assert(t[i] == (ext, dirs_of(m, ext).map_values(|d: Seq<char>| (d, names_of(m, ext, d)))));

    assert(ext_pred(ext)(p));
    m.lemma_filter_contains(ext_pred(ext), l);
    assert(sel_ext(m, ext).contains(p));
    let a = choose|a: int| 0 <= a < sel_ext(m, ext).len() && sel_ext(m, ext)[a] == p;
    let dkeys = sel_ext(m, ext).map_values(|q: (Seq<char>, Vpk2DirectoryEntry)| split_dir(q.0));
    assert(dkeys[a] == dir);
    assert(dkeys.contains(dir));
    lemma_dedup_contains(dkeys, dir);
    assert(dirs_of(m, ext).contains(dir));
    let j = choose|j: int| 0 <= j < dirs_of(m, ext).len() && dirs_of(m, ext)[j] == dir;
    assert(t[i].1[j] == (dir, names_of(m, ext, dir)));

    assert(dir_pred(ext, dir)(p));
    m.lemma_filter_contains(dir_pred(ext, dir), l);
    assert(sel_dir(m, ext, dir).contains(p));
    let c = choose|c: int| 0 <= c < sel_dir(m, ext, dir).len() && sel_dir(m, ext, dir)[c] == p;
    let ns = names_of(m, ext, dir);
    assert(ns[c] == (split_name(p.0), p.1));
    assert(leaves_names(ext, dir, ns)[c] == (join_path(ext, dir, split_name(p.0)), p.1));
    assert(crate::paths::path_ok(p.0));
    assert(join_path(ext, dir, split_name(p.0)) == p.0);
    assert(leaves_names(ext, dir, ns)[c] == p);
    assert(leaves_names(ext, dir, t[i].1[j].1).contains(p));
    lemma_leaves_dirs_contains(ext, t[i].1, p);
    assert(leaves_dirs(t[i].0, t[i].1).contains(p));
    lemma_spec_leaves_contains(t, p);
}

/// Over pairs that agree path-for-path on their entries, the built map
/// stores each pair, and stores nothing else.
pub proof fn lemma_pairs_map_coherent(s: Seq<(Seq<char>, Vpk2DirectoryEntry)>)
    requires
        coherent(s),
    ensures
        forall|i: int|
            0 <= i < s.len() ==> pairs_map(s).contains_key((#[trigger] s[i]).0)
                && pairs_map(s)[(s[i]).0] == s[i].1,
        forall|k: Seq<char>|
            pairs_map(s).contains_key(k) ==> exists|i: int|
                0 <= i < s.len() && (#[trigger] s[i]).0 == k,
    decreases s.len(),
{
    if s.len() > 0 {
        assert(coherent(s.drop_last())) by {
            assert(forall|i: int|
                0 <= i < s.len() - 1 ==> s.drop_last()[i] == (#[trigger] s[i]));
        }
        lemma_pairs_map_coherent(s.drop_last());
        assert(forall|i: int| 0 <= i < s.len() - 1 ==> s.drop_last()[i] == (#[trigger] s[i]));
        assert forall|i: int| 0 <= i < s.len() implies pairs_map(s).contains_key(
            (#[trigger] s[i]).0,
        ) && pairs_map(s)[s[i].0] == s[i].1 by {
            if i == s.len() - 1 {
                assert(s.last() == s[i]);
            } else {
                if s[i].0 == s.last().0 {
                    assert(s[i].1 == s.last().1);
                }
            }
        }
        assert forall|k: Seq<char>| pairs_map(s).contains_key(k) implies exists|i: int|
            0 <= i < s.len() && (#[trigger] s[i]).0 == k by {
            if k == s.last().0 {
                assert(s[s.len() - 1].0 == k);
            } else {
                assert(pairs_map(s) == pairs_map(s.drop_last()).insert(s.last().0, s.last().1));
                assert(pairs_map(s.drop_last()).contains_key(k));
                let i = choose|i: int| 0 <= i < s.drop_last().len() && (#[trigger] s.drop_last()[i]).0 == k;
                assert(s.drop_last()[i] == s[i]);
                assert(s[i].0 == k);
            }
        }
    }
}

/// THE GROUPING LAW: grouping a well-formed index and flattening the
/// grouped tree leaves exactly the original map of paths to entries.
pub proof fn lemma_group_preserves_map(m: Seq<(Seq<char>, Vpk2DirectoryEntry)>)
    requires
        all_paths_ok(m),
        vunique(m),
    ensures
        pairs_map(spec_leaves(spec_group(m))) == pairs_map(m),
{
    let lv = spec_leaves(spec_group(m));
    assert(coherent(m)) by {
        assert forall|i: int, j: int|
            0 <= i < m.len() && 0 <= j < m.len() && (#[trigger] m[i]).0 == (#[trigger] m[j]).0
            implies m[i].1 == m[j].1 by {
            if i != j {
                assert(false);
            }
        }
    }
    assert forall|i: int| 0 <= i < lv.len() implies m.contains(#[trigger] lv[i]) by {
        assert(lv.contains(lv[i]));
        lemma_leaf_in_index(m, lv[i]);
    }
    assert(coherent(lv)) by {
        assert forall|i: int, j: int|
            0 <= i < lv.len() && 0 <= j < lv.len() && (#[trigger] lv[i]).0 == (#[trigger] lv[j]).0
            implies lv[i].1 == lv[j].1 by {
            let a = choose|a: int| 0 <= a < m.len() && m[a] == lv[i];
            let b = choose|b: int| 0 <= b < m.len() && m[b] == lv[j];
            if a != b {
                assert(m[a].0 != m[b].0);
            }
        }
    }
    lemma_pairs_map_coherent(m);
    lemma_pairs_map_coherent(lv);
    assert forall|k: Seq<char>| #[trigger]
        pairs_map(lv).contains_key(k) implies pairs_map(m).contains_key(k) && pairs_map(m)[k]
        == pairs_map(lv)[k] by {
        let i = choose|i: int| 0 <= i < lv.len() && (#[trigger] lv[i]).0 == k;
        assert(m.contains(lv[i]));
        let a = choose|a: int| 0 <= a < m.len() && m[a] == lv[i];
        assert(pairs_map(m)[k] == m[a].1);
        assert(pairs_map(lv)[k] == lv[i].1);
    }
    assert forall|k: Seq<char>| #[trigger]
        pairs_map(m).contains_key(k) implies pairs_map(lv).contains_key(k) by {
        let a = choose|a: int| 0 <= a < m.len() && (#[trigger] m[a]).0 == k;
        lemma_index_in_leaves(m, a);
        let i = choose|i: int| 0 <= i < lv.len() && lv[i] == m[a];
        assert(lv[i].0 == k);
    }
    assert(pairs_map(lv) =~= pairs_map(m));
}

/// The map an index vector denotes is the map its mathematical view
/// denotes.
pub proof fn lemma_assoc_iview(fs: Seq<(String, Vpk2DirectoryEntry)>)
    ensures
        assoc_map(fs) == pairs_map(iview(fs)),
    decreases fs.len(),
{
    if fs.len() > 0 {
        lemma_assoc_iview(fs.drop_last());
        assert(iview(fs).drop_last() =~= iview(fs.drop_last()));
        assert(iview(fs).last() == (fs.last().0@, fs.last().1));
        assert(iview(fs).last() == (fs[fs.len() - 1].0@, fs[fs.len() - 1].1));
    }
}

/// Every string of the grouped tree of a well-formed index frames
/// correctly in the directory file.
pub proof fn lemma_group_strs_ok(m: Seq<(Seq<char>, Vpk2DirectoryEntry)>)
    requires
        all_paths_ok(m),
    ensures
        crate::codec::tree_strs_ok(spec_group(m)),
{
    let t = spec_group(m);
    assert forall|i: int| 0 <= i < t.len() implies crate::codec::tree_str_ok(
        (#[trigger] t[i]).0,
    ) by {
        let ext = exts_of(m)[i];
        let ekeys = m.map_values(|q: (Seq<char>, Vpk2DirectoryEntry)| split_ext(q.0));
        assert(exts_of(m).contains(ext));
        lemma_dedup_contains(ekeys, ext);
        let l = choose|l: int| 0 <= l < ekeys.len() && ekeys[l] == ext;
        assert(split_ext(m[l].0) == ext);
        assert(crate::paths::path_ok(m[l].0));
    }
    assert forall|i: int, j: int|
        0 <= i < t.len() && 0 <= j < (#[trigger] t[i]).1.len() implies crate::codec::tree_str_ok(
        (#[trigger] t[i].1[j]).0,
    ) by {
        let ext = exts_of(m)[i];
        let dir = dirs_of(m, ext)[j];
        assert(t[i].1[j].0 == dir);
        let dkeys = sel_ext(m, ext).map_values(
            |q: (Seq<char>, Vpk2DirectoryEntry)| split_dir(q.0),
        );
        assert(dirs_of(m, ext).contains(dir));
        lemma_dedup_contains(dkeys, dir);
        let a = choose|a: int| 0 <= a < dkeys.len() && dkeys[a] == dir;
        let q = sel_ext(m, ext)[a];
        assert(split_dir(q.0) == dir);
        m.lemma_filter_pred(ext_pred(ext), a);
        assert(sel_ext(m, ext).contains(q));
        m.lemma_filter_contains_rev(ext_pred(ext), q);
        let l = choose|l: int| 0 <= l < m.len() && m[l] == q;
        assert(crate::paths::path_ok(q.0));
    }
    assert forall|i: int, j: int, n: int|
        0 <= i < t.len() && 0 <= j < (#[trigger] t[i]).1.len() && 0 <= n < (#[trigger] t[i].1[j]).1.len()
        implies crate::codec::tree_str_ok((#[trigger] t[i].1[j].1[n]).0) by {
        let ext = exts_of(m)[i];
        let dir = dirs_of(m, ext)[j];
        assert(t[i].1[j].1 == names_of(m, ext, dir));
        let q = sel_dir(m, ext, dir)[n];
        assert(t[i].1[j].1[n] == (split_name(q.0), q.1));
        m.lemma_filter_pred(dir_pred(ext, dir), n);
        assert(sel_dir(m, ext, dir).contains(q));
        m.lemma_filter_contains_rev(dir_pred(ext, dir), q);
        let l = choose|l: int| 0 <= l < m.len() && m[l] == q;
        assert(crate::paths::path_ok(q.0));
    }
}

} // verus!
