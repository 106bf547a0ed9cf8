//! Little-endian integer fields inside a byte image.
//!
//! Every multi-byte field of the container is little-endian; these spec
//! functions say what value a field holds, and the executable functions read
//! and write fields against them.

use vstd::prelude::*;

verus! {

/// The value of the little-endian 16-bit field at byte offset `i`.
pub open spec fn le16_at(b: Seq<u8>, i: int) -> int {
    b[i] + 0x100 * b[i + 1]
}

/// The value of the little-endian 32-bit field at byte offset `i`.
pub open spec fn le32_at(b: Seq<u8>, i: int) -> int {
    b[i] + 0x100 * b[i + 1] + 0x10000 * b[i + 2] + 0x1000000 * b[i + 3]
}

/// The value of the little-endian 64-bit field at byte offset `i`.
pub open spec fn le64_at(b: Seq<u8>, i: int) -> int {
    le32_at(b, i) + 0x100000000 * le32_at(b, i + 4)
}

/// Reads the little-endian 16-bit field at offset `i`.
pub fn read_u16(b: &Vec<u8>, i: usize) -> (r: u16)
    requires
        i + 2 <= b@.len(),
    ensures
        r == le16_at(b@, i as int),
{
    let n: usize = b.len();
    assert(i + 2 <= n);
    b[i] as u16 + 0x100 * (b[i + 1] as u16)
}

/// Reads the little-endian 32-bit field at offset `i`.
pub fn read_u32(b: &Vec<u8>, i: usize) -> (r: u32)
    requires
        i + 4 <= b@.len(),
    ensures
        r == le32_at(b@, i as int),
{
    let n: usize = b.len();
    assert(i + 4 <= n);
    b[i] as u32 + 0x100 * (b[i + 1] as u32) + 0x10000 * (b[i + 2] as u32) + 0x1000000 * (b[i
        + 3] as u32)
}

/// Reads the little-endian 64-bit field at offset `i`.
pub fn read_u64(b: &Vec<u8>, i: usize) -> (r: u64)
    requires
        i + 8 <= b@.len(),
    ensures
        r == le64_at(b@, i as int),
{
    let n: usize = b.len();
    assert(i + 8 <= n);
    let lo = read_u32(b, i);
    let hi = read_u32(b, i + 4);
    lo as u64 + 0x100000000 * (hi as u64)
}

/// Appends a 16-bit value to the image, little-endian.
pub fn push_u16(b: &mut Vec<u8>, x: u16)
    ensures
        final(b)@.len() == old(b)@.len() + 2,
        final(b)@.subrange(0, old(b)@.len() as int) == old(b)@,
        forall|k: int| 0 <= k < old(b)@.len() ==> final(b)@[k] == old(b)@[k],
        le16_at(final(b)@, old(b)@.len() as int) == x,
{
    let ghost n = b@.len() as int;
    b.push((x % 0x100) as u8);
    b.push((x / 0x100) as u8);
    assert(b@.subrange(0, n) =~= old(b)@);
}

/// Appends a 32-bit value to the image, little-endian.
pub fn push_u32(b: &mut Vec<u8>, x: u32)
    ensures
        final(b)@.len() == old(b)@.len() + 4,
        final(b)@.subrange(0, old(b)@.len() as int) == old(b)@,
        forall|k: int| 0 <= k < old(b)@.len() ==> final(b)@[k] == old(b)@[k],
        le32_at(final(b)@, old(b)@.len() as int) == x,
{
    let ghost n = b@.len() as int;
    b.push((x % 0x100) as u8);
    b.push((x / 0x100 % 0x100) as u8);
    b.push((x / 0x10000 % 0x100) as u8);
    b.push((x / 0x1000000) as u8);
    assert(b@.subrange(0, n) =~= old(b)@);
}

/// Appends a 64-bit value to the image, little-endian.
pub fn push_u64(b: &mut Vec<u8>, x: u64)
    ensures
        final(b)@.len() == old(b)@.len() + 8,
        final(b)@.subrange(0, old(b)@.len() as int) == old(b)@,
        forall|k: int| 0 <= k < old(b)@.len() ==> final(b)@[k] == old(b)@[k],
        le64_at(final(b)@, old(b)@.len() as int) == x,
{
    let ghost n = b@.len() as int;
    push_u32(b, (x % 0x100000000) as u32);
    push_u32(b, (x / 0x100000000) as u32);
    assert(b@.subrange(0, n) =~= old(b)@);
    assert(b@.subrange(n, n + 4) =~= b@.subrange(n, n + 4));
}

/// Appends `n` zero bytes to the image.
pub fn push_zeros(b: &mut Vec<u8>, n: usize)
    ensures
        final(b)@.len() == old(b)@.len() + n,
        final(b)@.subrange(0, old(b)@.len() as int) == old(b)@,
        forall|k: int| 0 <= k < old(b)@.len() ==> final(b)@[k] == old(b)@[k],
        forall|k: int| old(b)@.len() <= k < final(b)@.len() ==> final(b)@[k] == 0u8,
{
    let ghost orig = b@;
    let ghost start = b@.len() as int;
    let mut j: usize = 0;
    while j < n
        invariant
            j <= n,
            b@.len() == start + j,
            start == orig.len(),
            b@.subrange(0, start) == orig,
            forall|k: int| start <= k < b@.len() ==> b@[k] == 0u8,
        decreases n - j,
    {
        b.push(0u8);
        assert(b@.subrange(0, start) =~= orig);
        j = j + 1;
    }
    assert(final(b)@.subrange(0, start) == orig);
}

/// The `j`-th 32-bit word of the word array that starts at offset `start`.
pub open spec fn word_at(b: Seq<u8>, start: int, j: int) -> int {
    le32_at(b, start + 4 * j)
}

/// Appends `n` copies of a 32-bit value to the image, little-endian.
pub fn push_u32_repeat(b: &mut Vec<u8>, x: u32, n: usize)
    ensures
        final(b)@.len() == old(b)@.len() + 4 * n,
        final(b)@.subrange(0, old(b)@.len() as int) == old(b)@,
        forall|k: int| 0 <= k < old(b)@.len() ==> final(b)@[k] == old(b)@[k],
        forall|j: int| 0 <= j < n ==> #[trigger] word_at(final(b)@, old(b)@.len() as int, j) == x,
{
    let ghost start = b@.len() as int;
    let mut j: usize = 0;
    while j < n
        invariant
            j <= n,
            b@.len() == start + 4 * j,
            0 <= start,
            b@.subrange(0, start) == old(b)@,
            forall|k: int| 0 <= k < start ==> b@[k] == old(b)@[k],
            forall|i: int| 0 <= i < j ==> #[trigger] word_at(b@, start, i) == x,
        decreases n - j,
    {
        let ghost prev = b@;
        push_u32(b, x);
        proof {
            assert(b@.subrange(0, start) =~= old(b)@);
            assert forall|i: int| 0 <= i < j + 1 implies #[trigger] word_at(b@, start, i)
                == x by {
                if i < j {
                    assert(b@[start + 4 * i] == prev[start + 4 * i]);
                    assert(b@[start + 4 * i + 1] == prev[start + 4 * i + 1]);
                    assert(b@[start + 4 * i + 2] == prev[start + 4 * i + 2]);
                    assert(b@[start + 4 * i + 3] == prev[start + 4 * i + 3]);
                    assert(word_at(prev, start, i) == x);
                } else {
                    assert(word_at(b@, start, i) == le32_at(b@, prev.len() as int));
                }
            }
        }
        j = j + 1;
    }
}

/// Writes a 16-bit value into the image in place, little-endian.
pub fn set_u16(b: &mut Vec<u8>, i: usize, x: u16)
    requires
        i + 2 <= old(b)@.len(),
    ensures
        final(b)@.len() == old(b)@.len(),
        le16_at(final(b)@, i as int) == x,
        forall|k: int|
            0 <= k < final(b)@.len() && !(i <= k < i + 2) ==> final(b)@[k] == old(b)@[k],
{
    let n: usize = b.len();
    assert(i + 2 <= n);
    b[i] = (x % 0x100) as u8;
    b[i + 1] = (x / 0x100) as u8;
}

} // verus!
