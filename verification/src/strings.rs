//! Verified string helpers shared by the path and directory-codec logic.

use vstd::prelude::*;
use vstd::string::StrSliceExecFns;

verus! {

/// Appends one character to a string.
///
/// Relies on `String::push`: the string grows by exactly that character.
#[verifier::external_body]
pub fn push_char(s: &mut String, c: char)
    ensures
        final(s)@ == old(s)@.push(c),
{
    s.push(c);
}

/// Whether `c` occurs anywhere in `s`.
pub open spec fn has_char(s: Seq<char>, c: char) -> bool {
    exists|i: int| 0 <= i < s.len() && s[i] == c
}

/// The position of the last occurrence of `c` in `s`, if there is one.
pub fn find_last(s: &str, c: char) -> (r: Option<usize>)
    ensures
        match r {
            Some(i) => i < s@.len() && s@[i as int] == c && forall|j: int|
                i < j < s@.len() ==> s@[j] != c,
            None => !has_char(s@, c),
        },
{
    let n = s.unicode_len();
    let mut i: usize = n;
    while i > 0
        invariant
            i <= n,
            n == s@.len(),
            forall|j: int| i <= j < n ==> s@[j] != c,
        decreases i,
    {
        i = i - 1;
        if s.get_char(i) == c {
            return Some(i);
        }
    }
    None
}

/// The characters of the decimal notation of `n`, least significant first.
pub open spec fn rev_digits(n: nat) -> Seq<char>
    decreases n,
{
    let d = (48 + n % 10) as u8 as char;
    if n / 10 == 0 {
        seq![d]
    } else {
        seq![d] + rev_digits(n / 10)
    }
}

/// The characters of the decimal notation of `n`, most significant first.
pub open spec fn dec_digits(n: nat) -> Seq<char>
    decreases n,
{
    let d = (48 + n % 10) as u8 as char;
    if n / 10 == 0 {
        seq![d]
    } else {
        dec_digits(n / 10).push(d)
    }
}

/// `s` padded on the left with zero characters to at least three places.
pub open spec fn zero_pad3(s: Seq<char>) -> Seq<char> {
    if s.len() >= 3 {
        s
    } else {
        Seq::new((3 - s.len()) as nat, |i: int| '0') + s
    }
}

proof fn lemma_rev_digits_reverse(n: nat)
    ensures
        rev_digits(n).reverse() == dec_digits(n),
    decreases n,
{
    if n / 10 == 0 {
        assert(rev_digits(n).reverse() =~= dec_digits(n));
    } else {
        lemma_rev_digits_reverse(n / 10);
        let d = (48 + n % 10) as u8 as char;
        assert(rev_digits(n) =~= seq![d] + rev_digits(n / 10));
        assert((seq![d] + rev_digits(n / 10)).reverse() =~= rev_digits(n / 10).reverse().push(d));
        assert(rev_digits(n).reverse() =~= dec_digits(n));
    }
}

/// The decimal notation of `n`, zero-padded to at least three places, as the
/// chunk-file naming convention asks.
pub fn format_index3(n: u32) -> (r: String)
    ensures
        r@ == zero_pad3(dec_digits(n as nat)),
{
    let mut digits: Vec<char> = Vec::new();
    let mut m: u32 = n;
    loop
        invariant_except_break
            rev_digits(n as nat) =~= digits@ + rev_digits(m as nat),
        ensures
            digits@ == rev_digits(n as nat),
        decreases m,
    {
        let d: char = (48u8 + (m % 10) as u8) as char;
        digits.push(d);
        let next = m / 10;
        if next == 0 {
            proof {
                assert(rev_digits(m as nat) =~= seq![d]);
                assert(rev_digits(n as nat) =~= digits@);
            }
            break;
        }
        proof {
            assert(rev_digits(m as nat) =~= seq![d] + rev_digits((m / 10) as nat));
            assert(rev_digits(n as nat) =~= digits@ + rev_digits((m / 10) as nat));
        }
        m = next;
    }
    let ghost plain = digits@;
    while digits.len() < 3
        invariant
            plain == rev_digits(n as nat),
            digits@.len() >= plain.len(),
            plain.len() >= 3 ==> digits@.len() == plain.len(),
            plain.len() < 3 ==> digits@.len() <= 3,
            digits@ =~= plain + Seq::new((digits@.len() - plain.len()) as nat, |i: int| '0'),
        decreases 3 - digits.len(),
    {
        digits.push('0');
        proof {
            assert(digits@ =~= plain + Seq::new((digits@.len() - plain.len()) as nat, |i: int| '0'));
        }
    }
    let mut out = String::new();
    let mut i: usize = digits.len();
    while i > 0
        invariant
            i <= digits@.len(),
            out@ =~= digits@.subrange(i as int, digits@.len() as int).reverse(),
        decreases i,
    {
        i = i - 1;
        push_char(&mut out, digits[i]);
        proof {
            assert(out@ =~= digits@.subrange(i as int, digits@.len() as int).reverse());
        }
    }
    proof {
        lemma_rev_digits_reverse(n as nat);
        assert(digits@.subrange(0, digits@.len() as int) =~= digits@);
        let z = (digits@.len() - plain.len()) as nat;
        let zeros = Seq::new(z, |i: int| '0');
        assert(digits@.reverse() =~= zeros + plain.reverse());
        assert(out@ =~= zeros + dec_digits(n as nat));
        assert(out@ =~= zero_pad3(dec_digits(n as nat)));
    }
    out
}

} // verus!
