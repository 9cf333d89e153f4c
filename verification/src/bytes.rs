//! Little-endian integer fields, the unit every record of the directory
//! file is built from.

use vstd::prelude::*;

verus! {

/// 256 to the power `n`: the number of values `n` bytes can hold.
pub open spec fn pow256(n: nat) -> nat
    decreases n,
{
    if n == 0 {
        1
    } else {
        256 * pow256((n - 1) as nat)
    }
}

/// The `n` little-endian bytes of `x`.
pub open spec fn le_bytes(x: nat, n: nat) -> Seq<u8>
    decreases n,
{
    if n == 0 {
        Seq::empty()
    } else {
        seq![(x % 256) as u8] + le_bytes(x / 256, (n - 1) as nat)
    }
}

/// The value a little-endian byte sequence denotes.
pub open spec fn le_val(s: Seq<u8>) -> nat
    decreases s.len(),
{
    if s.len() == 0 {
        0
    } else {
        s[0] as nat + 256 * le_val(s.drop_first())
    }
}

pub proof fn lemma_le_bytes_len(x: nat, n: nat)
    ensures
        le_bytes(x, n).len() == n,
    decreases n,
{
    if n > 0 {
        lemma_le_bytes_len(x / 256, (n - 1) as nat);
    }
}

/// Encoding then decoding gives the value back, as long as it fits.
pub proof fn lemma_le_val_of_bytes(x: nat, n: nat)
    requires
        x < pow256(n),
    ensures
        le_val(le_bytes(x, n)) == x,
    decreases n,
{
    if n > 0 {
        lemma_le_bytes_len(x / 256, (n - 1) as nat);
        assert(x / 256 < pow256((n - 1) as nat));
        lemma_le_val_of_bytes(x / 256, (n - 1) as nat);
        let s = le_bytes(x, n);
        assert(s.drop_first() =~= le_bytes(x / 256, (n - 1) as nat));
        assert(le_val(s) == x % 256 + 256 * (x / 256));
    }
}

/// A decoded value fits in as many bytes as were decoded.
pub proof fn lemma_le_val_bound(s: Seq<u8>)
    ensures
        le_val(s) < pow256(s.len() as nat),
    decreases s.len(),
{
    if s.len() > 0 {
        lemma_le_val_bound(s.drop_first());
    }
}

pub proof fn lemma_pow256_mono(m: nat, n: nat)
    requires
        m <= n,
    ensures
        pow256(m) <= pow256(n),
    decreases n,
{
    if m < n {
        lemma_pow256_mono(m, (n - 1) as nat);
    }
}

/// The largest field width used anywhere in the format is sixteen bytes,
/// which is exactly the reach of the accumulator type below.
pub proof fn lemma_pow256_16()
    ensures
        pow256(16) == 0x100000000000000000000000000000000,
{
    reveal_with_fuel(pow256, 17);
}

/// Reads `n` little-endian bytes at `off` as one value.
pub fn read_le(buf: &[u8], off: usize, n: usize) -> (r: u128)
    requires
        n <= 16,
        off + n <= buf@.len(),
    ensures
        r as nat == le_val(buf@.subrange(off as int, off + n)),
{
    proof {
        lemma_pow256_16();
    }
    let m: usize = buf.len();
    let mut acc: u128 = 0;
    let mut k: usize = n;
    while k > 0
        invariant
            k <= n <= 16,
            off + n <= m,
            m == buf@.len(),
            acc as nat == le_val(buf@.subrange(off + k, off + n)),
            (acc as nat) < pow256((n - k) as nat),
            pow256(16) == 0x100000000000000000000000000000000,
        decreases k,
    {
        k = k - 1;
        proof {
            let s = buf@.subrange(off + k, off + n);
            assert(s.drop_first() =~= buf@.subrange(off + k + 1, off + n));
            lemma_pow256_mono((n - k - 1) as nat, 15);
            reveal_with_fuel(pow256, 17);
        }
        acc = acc * 256 + (buf[off + k] as u128);
        proof {
            lemma_pow256_mono((n - k) as nat, 16);
        }
    }
    proof {
        assert(buf@.subrange(off as int, off + n) =~= buf@.subrange(off + 0, off + n));
    }
    acc
}

/// Appends the `n` little-endian bytes of `x`.
pub fn push_le(v: &mut Vec<u8>, x: u128, n: usize)
    requires
        n <= 16,
        (x as nat) < pow256(n as nat),
    ensures
        final(v)@ == old(v)@ + le_bytes(x as nat, n as nat),
{
    let ghost x0: nat = x as nat;
    let ghost base = v@;
    let mut cur: u128 = x;
    let mut k: usize = 0;
    while k < n
        invariant
            k <= n,
            (cur as nat) < pow256((n - k) as nat),
            v@.len() == base.len() + k,
            le_bytes(x0, n as nat) =~= v@.subrange(base.len() as int, v@.len() as int) + le_bytes(
                cur as nat,
                (n - k) as nat,
            ),
            v@.subrange(0, base.len() as int) =~= base,
        decreases n - k,
    {
        let b: u8 = (cur % 256) as u8;
        let ghost vpre = v@;
        let ghost curpre = cur as nat;
        v.push(b);
        cur = cur / 256;
        k = k + 1;
        proof {
            assert(v@.subrange(base.len() as int, v@.len() as int) =~= vpre.subrange(
                base.len() as int,
                vpre.len() as int,
            ) + seq![b]);
            assert(le_bytes(curpre, (n - k + 1) as nat) =~= seq![b] + le_bytes(
                cur as nat,
                (n - k) as nat,
            ));
            assert(le_bytes(x0, n as nat) =~= v@.subrange(base.len() as int, v@.len() as int)
                + le_bytes(cur as nat, (n - k) as nat));
            assert(v@.subrange(0, base.len() as int) =~= base);
        }
    }
    proof {
        lemma_le_bytes_len(x0, n as nat);
        assert(v@ =~= base + le_bytes(x0, n as nat));
    }
}

/// Reads a two-byte field.
pub fn read_u16(buf: &[u8], off: usize) -> (r: u16)
    requires
        off + 2 <= buf@.len(),
    ensures
        r as nat == le_val(buf@.subrange(off as int, off + 2)),
{
    proof {
        lemma_le_val_bound(buf@.subrange(off as int, off + 2));
        reveal_with_fuel(pow256, 3);
    }
    read_le(buf, off, 2) as u16
}

/// Reads a four-byte field.
pub fn read_u32(buf: &[u8], off: usize) -> (r: u32)
    requires
        off + 4 <= buf@.len(),
    ensures
        r as nat == le_val(buf@.subrange(off as int, off + 4)),
{
    proof {
        lemma_le_val_bound(buf@.subrange(off as int, off + 4));
        reveal_with_fuel(pow256, 5);
    }
    read_le(buf, off, 4) as u32
}

/// Reads a sixteen-byte field.
pub fn read_u128(buf: &[u8], off: usize) -> (r: u128)
    requires
        off + 16 <= buf@.len(),
    ensures
        r as nat == le_val(buf@.subrange(off as int, off + 16)),
{
    read_le(buf, off, 16)
}

/// The two little-endian bytes of a `u16` field.
pub open spec fn u16_le(x: u16) -> Seq<u8> {
    le_bytes(x as nat, 2)
}

/// The four little-endian bytes of a `u32` field.
pub open spec fn u32_le(x: u32) -> Seq<u8> {
    le_bytes(x as nat, 4)
}

/// The sixteen little-endian bytes of a `u128` field.
pub open spec fn u128_le(x: u128) -> Seq<u8> {
    le_bytes(x as nat, 16)
}

/// Appends a two-byte field.
pub fn push_u16(v: &mut Vec<u8>, x: u16)
    ensures
        final(v)@ == old(v)@ + u16_le(x),
{
    proof {
        reveal_with_fuel(pow256, 3);
    }
    push_le(v, x as u128, 2)
}

/// Appends a four-byte field.
pub fn push_u32(v: &mut Vec<u8>, x: u32)
    ensures
        final(v)@ == old(v)@ + u32_le(x),
{
    proof {
        reveal_with_fuel(pow256, 5);
    }
    push_le(v, x as u128, 4)
}

/// Appends a sixteen-byte field.
pub fn push_u128(v: &mut Vec<u8>, x: u128)
    ensures
        final(v)@ == old(v)@ + u128_le(x),
{
    proof {
        lemma_pow256_16();
    }
    push_le(v, x, 16)
}

} // verus!
