//! Virtual-path arithmetic: how a full path falls apart into extension,
//! directory and file name for the directory tree, and how the archive's
//! physical file names are put together.

use vstd::prelude::*;
use vstd::string::StrSliceExecFns;
use vstd::string::StringExecFns;
use crate::codec::tree_str_ok;
use crate::strings::{find_last, format_index3, has_char, dec_digits, zero_pad3, push_char};

verus! {

/// The position of the last occurrence of `c` in `s`, or minus one.
pub open spec fn last_pos(s: Seq<char>, c: char) -> int
    decreases s.len(),
{
    if s.len() == 0 {
        -1
    } else if s.last() == c {
        s.len() - 1
    } else {
        last_pos(s.drop_last(), c)
    }
}

/// What the last-position function promises.
pub proof fn lemma_last_pos(s: Seq<char>, c: char)
    ensures
        -1 <= last_pos(s, c) < s.len(),
        last_pos(s, c) >= 0 ==> s[last_pos(s, c)] == c,
        forall|j: int| last_pos(s, c) < j < s.len() ==> s[j] != c,
        last_pos(s, c) == -1 ==> !has_char(s, c),
    decreases s.len(),
{
    if s.len() > 0 && s.last() != c {
        lemma_last_pos(s.drop_last(), c);
        assert(forall|j: int| 0 <= j < s.len() - 1 ==> s.drop_last()[j] == (#[trigger] s[j]));
    }
}

/// A position after which `c` never occurs again, and where `c` stands, is
/// the last position.
pub proof fn lemma_last_pos_unique(s: Seq<char>, c: char, i: int)
    requires
        0 <= i < s.len(),
        s[i] == c,
        forall|j: int| i < j < s.len() ==> s[j] != c,
    ensures
        last_pos(s, c) == i,
{
    lemma_last_pos(s, c);
    if last_pos(s, c) < i {
        assert(s[i] == c);
    }
    if last_pos(s, c) > i {
        assert(s[last_pos(s, c)] != c);
    }
}

/// The part of the path after its last slash.
pub open spec fn raw_name(p: Seq<char>) -> Seq<char> {
    let s = last_pos(p, '/');
    if s >= 0 {
        p.subrange(s + 1, p.len() as int)
    } else {
        p
    }
}

/// The extension level key of a path: what follows the last dot of its
/// file-name part, or the single-space sentinel when there is no dot.
pub open spec fn split_ext(p: Seq<char>) -> Seq<char> {
    let rn = raw_name(p);
    let d = last_pos(rn, '.');
    if d >= 0 {
        rn.subrange(d + 1, rn.len() as int)
    } else {
        seq![' ']
    }
}

/// The path level key of a path: what precedes the last slash, or the
/// single-space sentinel when there is no slash.
pub open spec fn split_dir(p: Seq<char>) -> Seq<char> {
    let s = last_pos(p, '/');
    if s >= 0 {
        p.subrange(0, s)
    } else {
        seq![' ']
    }
}

/// The name level key of a path: its file-name part up to the last dot,
/// or the single-space sentinel when nothing is left.
pub open spec fn split_name(p: Seq<char>) -> Seq<char> {
    let rn = raw_name(p);
    let d = last_pos(rn, '.');
    let n = if d >= 0 {
        rn.subrange(0, d)
    } else {
        rn
    };
    if n.len() == 0 {
        seq![' ']
    } else {
        n
    }
}

/// A full path put back together from its three keys, each single-space
/// sentinel standing for an absent piece.
pub open spec fn join_path(ext: Seq<char>, dir: Seq<char>, name: Seq<char>) -> Seq<char> {
    (if dir == seq![' '] {
        Seq::<char>::empty()
    } else {
        dir + seq!['/']
    }) + (if name == seq![' '] {
        Seq::<char>::empty()
    } else {
        name
    }) + (if ext == seq![' '] {
        Seq::<char>::empty()
    } else {
        seq!['.'] + ext
    })
}

/// A path that survives the trip through the directory tree: each of its
/// three keys frames correctly, and joining them gives the path back.
pub open spec fn path_ok(p: Seq<char>) -> bool {
    &&& tree_str_ok(split_ext(p))
    &&& tree_str_ok(split_dir(p))
    &&& tree_str_ok(split_name(p))
    &&& join_path(split_ext(p), split_dir(p), split_name(p)) == p
}

/// Splits a path into its extension, directory and name keys.
pub fn split_path(path: &String) -> (r: (String, String, String))
    ensures
        r.0@ == split_ext(path@),
        r.1@ == split_dir(path@),
        r.2@ == split_name(path@),
{
    proof {
        reveal_strlit(" ");
    }
    let s = path.as_str();
    let n = s.unicode_len();
    let slash = find_last(s, '/');
    let dir: String;
    let rawname: String;
    match slash {
        Some(i) => {
            proof {
                lemma_last_pos_unique(path@, '/', i as int);
            }
            dir = s.substring_char(0, i).to_owned();
            rawname = s.substring_char(i + 1, n).to_owned();
        },
        None => {
            proof {
                lemma_last_pos(path@, '/');
                if last_pos(path@, '/') >= 0 {
                    assert(has_char(path@, '/'));
                }
            }
            dir = String::from_str(" ");
            rawname = s.to_owned();
        },
    }
    proof {
        assert(rawname@ == raw_name(path@));
    }
    let rn = rawname.as_str();
    let rlen = rn.unicode_len();
    let dot = find_last(rn, '.');
    let ext: String;
    let mut name: String;
    match dot {
        Some(d) => {
            proof {
                lemma_last_pos_unique(rawname@, '.', d as int);
            }
            ext = rn.substring_char(d + 1, rlen).to_owned();
            name = rn.substring_char(0, d).to_owned();
        },
        None => {
            proof {
                lemma_last_pos(rawname@, '.');
                if last_pos(rawname@, '.') >= 0 {
                    assert(has_char(rawname@, '.'));
                }
            }
            ext = String::from_str(" ");
            name = rn.to_owned();
        },
    }
    if name.as_str().unicode_len() == 0 {
        name = String::from_str(" ");
    }
    (ext, dir, name)
}

/// Joins the three keys of a path back into the full path.
pub fn join_keys(ext: &String, dir: &String, name: &String) -> (r: String)
    ensures
        r@ == join_path(ext@, dir@, name@),
{
    proof {
        reveal_strlit(" ");
    }
    let sentinel = String::from_str(" ");
    proof {
        assert(sentinel@ =~= seq![' ']);
    }
    let mut out = String::new();
    if !(*dir == sentinel) {
        out.append(dir.as_str());
        push_char(&mut out, '/');
    }
    if !(*name == sentinel) {
        out.append(name.as_str());
    }
    if !(*ext == sentinel) {
        push_char(&mut out, '.');
        out.append(ext.as_str());
    }
    proof {
        if dir@ == seq![' '] {
            assert(dir@ == sentinel@);
        }
        if name@ == seq![' '] {
            assert(name@ == sentinel@);
        }
        if ext@ == seq![' '] {
            assert(ext@ == sentinel@);
        }
        assert(out@ =~= join_path(ext@, dir@, name@));
    }
    out
}

/// A path with its extension taken off, as the physical naming scheme
/// wants it: the last dot of the final component goes, unless it leads
/// that component.
pub open spec fn strip_ext_spec(p: Seq<char>) -> Seq<char> {
    let s = last_pos(p, '/');
    let rn = raw_name(p);
    let d = last_pos(rn, '.');
    if d > 0 {
        p.subrange(0, s + 1 + d)
    } else {
        p
    }
}

/// Takes the extension off a path.
pub fn strip_extension(path: &String) -> (r: String)
    ensures
        r@ == strip_ext_spec(path@),
{
    let s = path.as_str();
    let n = s.unicode_len();
    let slash = find_last(s, '/');
    let comp_start: usize;
    match slash {
        Some(i) => {
            proof {
                lemma_last_pos_unique(path@, '/', i as int);
            }
            comp_start = i + 1;
        },
        None => {
            proof {
                lemma_last_pos(path@, '/');
                if last_pos(path@, '/') >= 0 {
                    assert(has_char(path@, '/'));
                }
            }
            comp_start = 0;
        },
    }
    let comp = s.substring_char(comp_start, n);
    proof {
        if comp_start == 0 {
            assert(path@.subrange(0, n as int) =~= path@);
        }
        assert(comp@ == raw_name(path@));
    }
    let clen = comp.unicode_len();
    let dot = find_last(comp, '.');
    match dot {
        Some(d) => {
            proof {
                lemma_last_pos_unique(raw_name(path@), '.', d as int);
            }
            if d > 0 {
                s.substring_char(0, comp_start + d).to_owned()
            } else {
                path.clone()
            }
        },
        None => {
            proof {
                lemma_last_pos(raw_name(path@), '.');
                if last_pos(raw_name(path@), '.') >= 0 {
                    assert(has_char(raw_name(path@), '.'));
                }
            }
            path.clone()
        },
    }
}

/// A path with its extension replaced by the archive extension.
pub open spec fn set_ext_vpk_spec(p: Seq<char>) -> Seq<char> {
    if raw_name(p).len() == 0 {
        p
    } else {
        strip_ext_spec(p) + seq!['.', 'v', 'p', 'k']
    }
}

/// Replaces a path's extension with the archive extension; a path without
/// a final component stays as it is.
pub fn set_ext_vpk(path: &String) -> (r: String)
    ensures
        r@ == set_ext_vpk_spec(path@),
{
    proof {
        reveal_strlit(".vpk");
    }
    let s = path.as_str();
    let n = s.unicode_len();
    let slash = find_last(s, '/');
    let comp_start: usize;
    match slash {
        Some(i) => {
            proof {
                lemma_last_pos_unique(path@, '/', i as int);
            }
            comp_start = i + 1;
        },
        None => {
            proof {
                lemma_last_pos(path@, '/');
                if last_pos(path@, '/') >= 0 {
                    assert(has_char(path@, '/'));
                }
            }
            comp_start = 0;
        },
    }
    if comp_start >= n {
        proof {
            assert(raw_name(path@).len() == 0);
        }
        return path.clone();
    }
    let mut out = strip_extension(path);
    out.append(".vpk");
    proof {
        assert(raw_name(path@).len() > 0);
        assert(out@ =~= set_ext_vpk_spec(path@));
    }
    out
}

/// The physical name of the directory file of an archive at `base`.
pub open spec fn dir_path_spec(base: Seq<char>) -> Seq<char> {
    strip_ext_spec(base) + seq!['_', 'd', 'i', 'r', '.', 'v', 'p', 'k']
}

/// The physical name of chunk `idx` of an archive at `base`.
pub open spec fn archive_path_spec(base: Seq<char>, idx: nat) -> Seq<char> {
    strip_ext_spec(base) + seq!['_'] + zero_pad3(dec_digits(idx)) + seq!['.', 'v', 'p', 'k']
}

/// The directory-file path for an archive at `base`.
pub fn directory_file_path(base: &String) -> (r: String)
    ensures
        r@ == dir_path_spec(base@),
{
    proof {
        reveal_strlit("_dir.vpk");
    }
    let mut out = strip_extension(base);
    out.append("_dir.vpk");
    proof {
        assert(out@ =~= dir_path_spec(base@));
    }
    out
}

/// The chunk-file path for chunk `idx` of an archive at `base`, the index
/// zero-padded to three places.
pub fn archive_file_path(base: &String, idx: u32) -> (r: String)
    ensures
        r@ == archive_path_spec(base@, idx as nat),
{
    proof {
        reveal_strlit("_");
        reveal_strlit(".vpk");
    }
    let mut out = strip_extension(base);
    out.append("_");
    let digits = format_index3(idx);
    out.append(digits.as_str());
    out.append(".vpk");
    proof {
        assert(out@ =~= archive_path_spec(base@, idx as nat));
    }
    out
}

/// The archive base a physical file name points back to: the piece
/// between the last two underscores, under the archive extension.
pub open spec fn base_path_spec(p: Seq<char>) -> Seq<char> {
    let l1 = last_pos(p, '_');
    if l1 < 0 {
        Seq::<char>::empty()
    } else {
        let q = p.subrange(0, l1);
        let l2 = last_pos(q, '_');
        let stem = q.subrange(l2 + 1, q.len() as int);
        set_ext_vpk_spec(stem)
    }
}

/// Recovers the archive base path from a directory or chunk file name.
pub fn get_base_path(path: &String) -> (r: String)
    ensures
        r@ == base_path_spec(path@),
{
    let s = path.as_str();
    let n = s.unicode_len();
    let u1 = find_last(s, '_');
    match u1 {
        Some(l1) => {
            proof {
                lemma_last_pos_unique(path@, '_', l1 as int);
            }
            let q = s.substring_char(0, l1);
            let qlen = q.unicode_len();
            let u2 = find_last(q, '_');
            let stem: String;
            match u2 {
                Some(l2) => {
                    proof {
                        lemma_last_pos_unique(path@.subrange(0, l1 as int), '_', l2 as int);
                    }
                    stem = q.substring_char(l2 + 1, qlen).to_owned();
                },
                None => {
                    proof {
                        lemma_last_pos(path@.subrange(0, l1 as int), '_');
                        if last_pos(path@.subrange(0, l1 as int), '_') >= 0 {
                            assert(has_char(path@.subrange(0, l1 as int), '_'));
                        }
                        assert(path@.subrange(0, l1 as int).subrange(
                            0,
                            l1 as int,
                        ) =~= path@.subrange(0, l1 as int));
                    }
                    stem = q.to_owned();
                },
            }
            set_ext_vpk(&stem)
        },
        None => {
            proof {
                lemma_last_pos(path@, '_');
                if last_pos(path@, '_') >= 0 {
                    assert(has_char(path@, '_'));
                }
            }
            String::new()
        },
    }
}

} // verus!
