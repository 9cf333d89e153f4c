//! Path normalization and small slice conversions.

use vstd::prelude::*;
use vstd::string::StrSliceExecFns;
use crate::strings::push_char;

verus! {

/// The std error returned when a slice does not fit the requested array size.
#[verifier::external_type_specification]
#[verifier::external_body]
pub struct ExTryFromSliceError(core::array::TryFromSliceError);

/// A slice viewed as a fixed-size array reference.
///
/// Relies on the std `TryFrom` conversion from `&[T]` to `&[T; N]`: it
/// succeeds exactly when the slice holds `N` elements, and then returns the
/// same elements.
#[verifier::external_body]
pub fn slice_to_array<T, const N: usize>(value: &[T]) -> (r: Result<
    &[T; N],
    core::array::TryFromSliceError,
>)
    ensures
        r is Ok <==> value@.len() == N,
        r is Ok ==> r->Ok_0@ == value@,
{
    value.try_into()
}

/// `s` without a two-character drive prefix: when the second character is a
/// colon, the first two characters go.
pub open spec fn strip_drive(s: Seq<char>) -> Seq<char> {
    if s.len() >= 2 && s[1] == ':' {
        s.subrange(2, s.len() as int)
    } else {
        s
    }
}

/// `s` with every backslash turned into a forward slash.
pub open spec fn slashify(s: Seq<char>) -> Seq<char> {
    Seq::new(s.len(), |i: int| if s[i] == '\\' { '/' } else { s[i] })
}

/// `s` without a single trailing slash, if it ends in one.
pub open spec fn drop_trailing_slash(s: Seq<char>) -> Seq<char> {
    if s.len() > 0 && s[s.len() - 1] == '/' {
        s.drop_last()
    } else {
        s
    }
}

/// The normal form a virtual path is stored under: no drive prefix, forward
/// slashes only, no trailing slash.
pub open spec fn clean_path_spec(s: Seq<char>) -> Seq<char> {
    drop_trailing_slash(slashify(strip_drive(s)))
}

/// Normalizes a path: strips a drive-letter-style prefix, turns backslashes
/// into forward slashes, and drops one trailing separator.
pub fn clean_path(path: &str) -> (r: String)
    ensures
        r@ == clean_path_spec(path@),
{
    let n = path.unicode_len();
    let start: usize = if n >= 2 && path.get_char(1) == ':' {
        2
    } else {
        0
    };
    let end: usize = if n > start && {
        let last = path.get_char(n - 1);
        last == '/' || last == '\\'
    } {
        n - 1
    } else {
        n
    };
    let mut out = String::new();
    let mut i: usize = start;
    while i < end
        invariant
            start <= i <= end <= n,
            n == path@.len(),
            out@ =~= slashify(path@.subrange(start as int, i as int)),
        decreases end - i,
    {
        let c = path.get_char(i);
        if c == '\\' {
            push_char(&mut out, '/');
        } else {
            push_char(&mut out, c);
        }
        proof {
            assert(out@ =~= slashify(path@.subrange(start as int, i + 1)));
        }
        i = i + 1;
    }
    proof {
        assert(out@ =~= clean_path_spec(path@));
    }
    out
}

} // verus!
