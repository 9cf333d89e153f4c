//! The 32-bit checksum stamped on every blob stored in an archive: a
//! table-driven, byte-reversed CRC variant, seeded all-ones, with the
//! result bit-inverted at the end.

use vstd::prelude::*;

verus! {

/// Generator polynomial of the byte-reversed CRC variant.
pub const CRC32_POLYNOMIAL: u32 = 0xEDB88320;

/// One halving round of the table generator.
pub open spec fn crc32_table_round(c: u32) -> u32 {
    if c & 1 == 1 {
        CRC32_POLYNOMIAL ^ (c >> 1)
    } else {
        c >> 1
    }
}

/// The table generator iterated `rounds` times.
pub open spec fn crc32_table_iter(c: u32, rounds: nat) -> u32
    decreases rounds,
{
    if rounds == 0 {
        c
    } else {
        crc32_table_round(crc32_table_iter(c, (rounds - 1) as nat))
    }
}

/// The table value for one byte: eight halving rounds from the byte itself.
pub open spec fn crc32_table_entry(b: u8) -> u32 {
    crc32_table_iter(b as u32, 8)
}

/// Folding one byte into a running checksum.
pub open spec fn crc32_step(crc: u32, byte: u8) -> u32 {
    (crc >> 8) ^ crc32_table_entry(byte ^ (crc & 0xFF) as u8)
}

/// The running checksum over a byte sequence, seeded all-ones.
pub open spec fn crc32_accum(s: Seq<u8>) -> u32
    decreases s.len(),
{
    if s.len() == 0 {
        0xFFFFFFFFu32
    } else {
        crc32_step(crc32_accum(s.drop_last()), s.last())
    }
}

/// The checksum of a byte sequence: the running value, bit-inverted.
pub open spec fn crc32_of(s: Seq<u8>) -> u32 {
    !crc32_accum(s)
}

/// Builds the 256-entry lookup table the byte loop indexes into.
fn crc32_table() -> (t: Vec<u32>)
    ensures
        t@.len() == 256,
        forall|i: int| 0 <= i < 256 ==> t@[i] == crc32_table_entry(i as u8),
{
    let mut t: Vec<u32> = Vec::new();
    let mut b: usize = 0;
    while b < 256
        invariant
            b <= 256,
            t@.len() == b,
            forall|i: int| 0 <= i < b ==> t@[i] == crc32_table_entry(i as u8),
        decreases 256 - b,
    {
        let mut c: u32 = b as u32;
        let mut k: usize = 0;
        while k < 8
            invariant
                k <= 8,
                c == crc32_table_iter(b as u32, k as nat),
            decreases 8 - k,
        {
            if c & 1 == 1 {
                c = CRC32_POLYNOMIAL ^ (c >> 1);
            } else {
                c = c >> 1;
            }
            k = k + 1;
        }
        t.push(c);
        b = b + 1;
    }
    t
}

/// The checksum used to stamp archive blobs at write time.
pub fn valve_crc32(data: &[u8]) -> (r: u32)
    ensures
        r == crc32_of(data@),
{
    let table = crc32_table();
    let mut crc: u32 = 0xFFFFFFFF;
    let mut i: usize = 0;
    while i < data.len()
        invariant
            i <= data@.len(),
            table@.len() == 256,
            forall|j: int| 0 <= j < 256 ==> table@[j] == crc32_table_entry(j as u8),
            crc == crc32_accum(data@.subrange(0, i as int)),
        decreases data@.len() - i,
    {
        let b = data[i];
        crc = (crc >> 8) ^ table[(b ^ (crc & 0xFF) as u8) as usize];
        proof {
            let pre = data@.subrange(0, i as int);
            let post = data@.subrange(0, i + 1);
            assert(post.drop_last() =~= pre);
            assert(post.last() == data@[i as int]);
        }
        i = i + 1;
    }
    proof {
        assert(data@.subrange(0, data@.len() as int) =~= data@);
    }
    !crc
}

/// The checksum is a pure function of the byte sequence alone: equal inputs
/// give equal checksums, on every platform and on every run.
pub proof fn lemma_crc32_deterministic(a: Seq<u8>, b: Seq<u8>)
    requires
        a == b,
    ensures
        crc32_of(a) == crc32_of(b),
{
}

/// The checksum of the empty sequence: the all-ones seed, never folded,
/// bit-inverted, which is zero.
pub proof fn lemma_crc32_empty()
    ensures
        crc32_of(Seq::<u8>::empty()) == 0u32,
{
    assert(crc32_accum(Seq::<u8>::empty()) == 0xFFFFFFFFu32);
    assert(!0xFFFFFFFFu32 == 0u32) by (bit_vector);
}

} // verus!
