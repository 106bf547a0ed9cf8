//! Walking the container's sector structures: reading whole sectors of
//! 32-bit words, the inline DIFAT, the spilled DIFAT chain, the FAT, and the
//! chains of directory and MiniFAT sectors.
//!
//! Each walk exists twice: as a spec function that says what a well-formed
//! image holds, and as an executable function proved to return exactly that.

use vstd::prelude::*;

use crate::codec::{le32_at, read_u32};
use crate::consts::{DIR_ENTRY_LEN, END_OF_CHAIN, FREE_SECTOR, MAX_REGULAR_SECTOR};
use crate::direntry::{entry_at, entry_parse_ok, read_entry, DirEntry, EntryModel};
use crate::error::CfbError;
use crate::version::Version;

verus! {

/// Multiplying by the sector length and comparing against the image length
/// is the same as comparing against their quotient.
pub proof fn lemma_sector_bound(sl: int, k: int, blen: int)
    requires
        sl >= 1,
        k >= 0,
        blen >= 0,
    ensures
        (sl * k <= blen) <==> (k <= blen / sl),
{
    assert((sl * k <= blen) ==> (k <= blen / sl)) by (nonlinear_arith)
        requires
            sl >= 1,
            k >= 0,
            blen >= 0,
    ;
    assert((k <= blen / sl) ==> (sl * k <= blen)) by (nonlinear_arith)
        requires
            sl >= 1,
            k >= 0,
            blen >= 0,
    ;
}

/// Decides whether sector `s` is a real sector that lies inside the image.
pub fn check_sector_in_bounds(blen: usize, v: Version, s: u32) -> (r: bool)
    ensures
        r == sector_in_bounds(blen as int, v, s),
{
    let sl = v.sector_len();
    let fits = s <= MAX_REGULAR_SECTOR && 2 + (s as u64) <= (blen as u64) / (sl as u64);
    proof {
        lemma_sector_bound(sl as int, 2 + s as int, blen as int);
        assert(sector_offset(v, s as int) + v.spec_sector_len() == v.spec_sector_len() * (2
            + s as int)) by (nonlinear_arith);
    }
    fits
}

/// The byte offset of a sector: sector 0 starts right after the header,
/// which fills one whole sector.
pub open spec fn sector_offset(v: Version, s: int) -> int {
    v.spec_sector_len() * (1 + s)
}

/// Whether sector `s` is a real sector that lies inside the image.
pub open spec fn sector_in_bounds(blen: int, v: Version, s: u32) -> bool {
    s <= MAX_REGULAR_SECTOR && sector_offset(v, s as int) + v.spec_sector_len() <= blen
}

/// The 32-bit words of sector `s`.
pub open spec fn sector_words(b: Seq<u8>, v: Version, s: u32) -> Seq<u32> {
    Seq::new(
        (v.spec_sector_len() / 4) as nat,
        |j: int| le32_at(b, sector_offset(v, s as int) + 4 * j) as u32,
    )
}

/// Reads the 32-bit words of sector `s`.
pub fn read_sector_words(b: &Vec<u8>, v: Version, s: u32) -> (r: Vec<u32>)
    requires
        sector_in_bounds(b@.len() as int, v, s),
    ensures
        r@ == sector_words(b@, v, s),
{
    let blen: usize = b.len();
    let sl = v.sector_len();
    let off: usize = sl * (1 + s as usize);
    assert(off == sector_offset(v, s as int));
    let count = sl / 4;
    let mut r: Vec<u32> = Vec::new();
    let mut j: usize = 0;
    while j < count
        invariant
            j <= count,
            count == v.spec_sector_len() / 4,
            off == sector_offset(v, s as int),
            off + v.spec_sector_len() <= b@.len(),
            r@ == sector_words(b@, v, s).take(j as int),
        decreases count - j,
    {
        let w = read_u32(b, off + 4 * j);
        r.push(w);
        assert(r@ =~= sector_words(b@, v, s).take(j + 1));
        j = j + 1;
    }
    assert(r@ =~= sector_words(b@, v, s));
    r
}

/// The DIFAT entries stored inline in the header from position `i` on: the
/// run of real sector indices before the first reserved encoding.
pub open spec fn difat_inline(b: Seq<u8>, i: int) -> Seq<u32>
    decreases 109 - i,
{
    if i < 0 || i >= 109 {
        Seq::empty()
    } else {
        let e = le32_at(b, 76 + 4 * i) as u32;
        if e > MAX_REGULAR_SECTOR {
            Seq::empty()
        } else {
            seq![e] + difat_inline(b, i + 1)
        }
    }
}

/// Reads the inline DIFAT entries from position `i` on.
pub fn read_difat_inline(b: &Vec<u8>, i: usize) -> (r: Vec<u32>)
    requires
        b@.len() >= 512,
        i <= 109,
    ensures
        r@ == difat_inline(b@, i as int),
    decreases 109 - i,
{
    if i == 109 {
        return Vec::new();
    }
    let blen: usize = b.len();
    let e = read_u32(b, 76 + 4 * i);
    if e > MAX_REGULAR_SECTOR {
        return Vec::new();
    }
    let mut r: Vec<u32> = Vec::new();
    r.push(e);
    let mut rest = read_difat_inline(b, i + 1);
    r.append(&mut rest);
    assert(r@ =~= difat_inline(b@, i as int));
    r
}

/// The DIFAT entries held in the spilled DIFAT sector chain that starts at
/// `cur`, which the header claims is `left` sectors long. Each DIFAT sector
/// holds one sector's worth of words, the last of which links to the next
/// DIFAT sector. `None` when the chain leaves the image, is longer than
/// claimed, or ends before the claimed count is reached.
pub open spec fn difat_chain(b: Seq<u8>, v: Version, cur: u32, left: int) -> Option<Seq<u32>>
    decreases left,
{
    if cur == END_OF_CHAIN {
        if left == 0 {
            Some(Seq::empty())
        } else {
            None
        }
    } else if left <= 0 {
        None
    } else if !sector_in_bounds(b.len() as int, v, cur) {
        None
    } else {
        let words = sector_words(b, v, cur);
        let next = words[words.len() - 1];
        match difat_chain(b, v, next, left - 1) {
            None => None,
            Some(rest) => Some(words.take(words.len() - 1) + rest),
        }
    }
}

/// Reads the spilled DIFAT chain that starts at `cur`.
pub fn read_difat_chain(b: &Vec<u8>, v: Version, cur: u32, left: u32) -> (r: Result<
    Vec<u32>,
    CfbError,
>)
    ensures
        match r {
            Ok(d) => difat_chain(b@, v, cur, left as int) == Some(d@),
            Err(e) => difat_chain(b@, v, cur, left as int) is None && e == CfbError::BadFormat,
        },
    decreases left,
{
    if cur == END_OF_CHAIN {
        if left == 0 {
            return Ok(Vec::new());
        }
        return Err(CfbError::BadFormat);
    }
    if left == 0 {
        return Err(CfbError::BadFormat);
    }
    let blen: usize = b.len();
    let sl = v.sector_len();
    if !check_sector_in_bounds(blen, v, cur) {
        return Err(CfbError::BadFormat);
    }
    let mut words = read_sector_words(b, v, cur);
    let next = words[words.len() - 1];
    let ghost full = words@;
    words.truncate(words.len() - 1);
    assert(words@ =~= full.take(full.len() - 1));
    match read_difat_chain(b, v, next, left - 1) {
        Ok(mut rest) => {
            let ghost r0 = rest@;
            words.append(&mut rest);
            assert(words@ =~= full.take(full.len() - 1) + r0);
            Ok(words)
        },
        Err(e) => Err(e),
    }
}

/// The FAT assembled from the sectors the DIFAT names, from position `i` on.
/// `None` when a named FAT sector is reserved or leaves the image.
pub open spec fn fat_from_difat(b: Seq<u8>, v: Version, difat: Seq<u32>, i: int) -> Option<
    Seq<u32>,
>
    decreases difat.len() - i,
{
    if i < 0 || i >= difat.len() {
        Some(Seq::empty())
    } else if !sector_in_bounds(b.len() as int, v, difat[i]) {
        None
    } else {
        match fat_from_difat(b, v, difat, i + 1) {
            None => None,
            Some(rest) => Some(sector_words(b, v, difat[i]) + rest),
        }
    }
}

/// Reads the FAT sectors the DIFAT names, from position `i` on.
pub fn read_fat(b: &Vec<u8>, v: Version, difat: &Vec<u32>, i: usize) -> (r: Result<
    Vec<u32>,
    CfbError,
>)
    requires
        i <= difat@.len(),
    ensures
        match r {
            Ok(f) => fat_from_difat(b@, v, difat@, i as int) == Some(f@),
            Err(e) => fat_from_difat(b@, v, difat@, i as int) is None && e == CfbError::BadFormat,
        },
    decreases difat@.len() - i,
{
    if i == difat.len() {
        return Ok(Vec::new());
    }
    let s = difat[i];
    let blen: usize = b.len();
    if !check_sector_in_bounds(blen, v, s) {
        return Err(CfbError::BadFormat);
    }
    let mut words = read_sector_words(b, v, s);
    match read_fat(b, v, difat, i + 1) {
        Ok(mut rest) => {
            let ghost w = words@;
            let ghost r0 = rest@;
            words.append(&mut rest);
            assert(words@ =~= w + r0);
            Ok(words)
        },
        Err(e) => Err(e),
    }
}

/// The word array with its trailing unallocated markers removed.
pub open spec fn trim_free(s: Seq<u32>) -> Seq<u32>
    decreases s.len(),
{
    if s.len() > 0 && s.last() == FREE_SECTOR {
        trim_free(s.drop_last())
    } else {
        s
    }
}

/// Removes the trailing unallocated markers of a word array.
pub fn trim_free_tail(s: &mut Vec<u32>)
    ensures
        final(s)@ == trim_free(old(s)@),
{
    while s.len() > 0 && s[s.len() - 1] == FREE_SECTOR
        invariant
            trim_free(s@) == trim_free(old(s)@),
        decreases s@.len(),
    {
        let ghost prev = s@;
        let _ = s.pop();
        assert(s@ =~= prev.drop_last());
    }
}

/// The models of the directory entries stored in the `k` slots that start at
/// byte offset `o`, or `None` when one of them is malformed.
pub open spec fn sector_entries(b: Seq<u8>, v: Version, o: int, k: int) -> Option<Seq<EntryModel>>
    decreases k,
{
    if k <= 0 {
        Some(Seq::empty())
    } else if !entry_parse_ok(b, o, v) {
        None
    } else {
        match sector_entries(b, v, o + DIR_ENTRY_LEN, k - 1) {
            None => None,
            Some(rest) => Some(seq![entry_at(b, o, v)] + rest),
        }
    }
}

/// Parses the `k` directory entry slots that start at byte offset `o`.
pub fn read_sector_entries(b: &Vec<u8>, v: Version, o: usize, k: usize) -> (r: Result<
    Vec<DirEntry>,
    CfbError,
>)
    requires
        o + k * DIR_ENTRY_LEN <= b@.len(),
    ensures
        match r {
            Ok(d) => {
                &&& sector_entries(b@, v, o as int, k as int) == Some(
                    Seq::new(d@.len(), |i: int| d@[i]@),
                )
                &&& d@.len() == k
                &&& forall|i: int|
                    0 <= i < d@.len() ==> (#[trigger] d@[i]).wf() && 0 <= d@[i]@.offset && d@[i]@.offset
                        + DIR_ENTRY_LEN <= b@.len()
            },
            Err(e) => sector_entries(b@, v, o as int, k as int) is None && e
                == CfbError::BadFormat,
        },
    decreases k,
{
    if k == 0 {
        return Ok(Vec::new());
    }
    let n: usize = b.len();
    assert(o + DIR_ENTRY_LEN <= n);
    let e = match read_entry(b, o, v) {
        Ok(e) => e,
        Err(er) => {
            return Err(er);
        },
    };
    match read_sector_entries(b, v, o + DIR_ENTRY_LEN, k - 1) {
        Ok(mut rest) => {
            let mut d: Vec<DirEntry> = Vec::new();
            let ghost em = e@;
            d.push(e);
            let ghost restview = rest@;
            d.append(&mut rest);
            proof {
                let models = Seq::new(d@.len(), |i: int| d@[i]@);
                let restmodels = Seq::new(restview.len(), |i: int| restview[i]@);
                assert(models =~= seq![em] + restmodels);
            }
            Ok(d)
        },
        Err(er) => Err(er),
    }
}

/// The models of the directory entries held in the sector chain that starts
/// at `cur` and follows the FAT, with a step budget of `left`. `None` when
/// the chain leaves the image, hits a reserved encoding other than the
/// terminator, holds a malformed entry, or runs longer than the budget — a
/// budget of one more than the FAT length rules out exactly the cyclic
/// chains.
pub open spec fn dir_chain(b: Seq<u8>, v: Version, fat: Seq<u32>, cur: u32, left: int) -> Option<
    Seq<EntryModel>,
>
    decreases left,
{
    if cur == END_OF_CHAIN {
        Some(Seq::empty())
    } else if left <= 0 {
        None
    } else if !sector_in_bounds(b.len() as int, v, cur) {
        None
    } else if cur >= fat.len() {
        None
    } else {
        let o = sector_offset(v, cur as int);
        match sector_entries(b, v, o, v.spec_sector_len() / (DIR_ENTRY_LEN as int)) {
            None => None,
            Some(es) => match dir_chain(b, v, fat, fat[cur as int], left - 1) {
                None => None,
                Some(rest) => Some(es + rest),
            },
        }
    }
}

/// Reads the directory entries of the sector chain that starts at `cur`.
pub fn read_dir_chain(b: &Vec<u8>, v: Version, fat: &Vec<u32>, cur: u32, left: usize) -> (r: Result<
    Vec<DirEntry>,
    CfbError,
>)
    ensures
        match r {
            Ok(d) => {
                &&& dir_chain(b@, v, fat@, cur, left as int) == Some(
                    Seq::new(d@.len(), |i: int| d@[i]@),
                )
                &&& forall|i: int|
                    0 <= i < d@.len() ==> (#[trigger] d@[i]).wf() && 0 <= d@[i]@.offset && d@[i]@.offset
                        + DIR_ENTRY_LEN <= b@.len()
            },
            Err(e) => dir_chain(b@, v, fat@, cur, left as int) is None && e == CfbError::BadFormat,
        },
    decreases left,
{
    if cur == END_OF_CHAIN {
        return Ok(Vec::new());
    }
    if left == 0 {
        return Err(CfbError::BadFormat);
    }
    let blen: usize = b.len();
    let sl = v.sector_len();
    if !check_sector_in_bounds(blen, v, cur) {
        return Err(CfbError::BadFormat);
    }
    if cur as usize >= fat.len() {
        return Err(CfbError::BadFormat);
    }
    let o: usize = sl * (1 + cur as usize);
    assert(o == sector_offset(v, cur as int));
    let mut d = match read_sector_entries(b, v, o, sl / DIR_ENTRY_LEN) {
        Ok(d) => d,
        Err(er) => {
            return Err(er);
        },
    };
    let next = fat[cur as usize];
    match read_dir_chain(b, v, fat, next, left - 1) {
        Ok(mut rest) => {
            let ghost dview = d@;
            let ghost restview = rest@;
            d.append(&mut rest);
            proof {
                let models = Seq::new(d@.len(), |i: int| d@[i]@);
                let dmodels = Seq::new(dview.len(), |i: int| dview[i]@);
                let restmodels = Seq::new(restview.len(), |i: int| restview[i]@);
                assert(models =~= dmodels + restmodels);
            }
            Ok(d)
        },
        Err(er) => Err(er),
    }
}

/// The 32-bit words held in the sector chain that starts at `cur` and
/// follows the FAT, with a step budget of `left`; the shape of the MiniFAT.
pub open spec fn word_chain(b: Seq<u8>, v: Version, fat: Seq<u32>, cur: u32, left: int) -> Option<
    Seq<u32>,
>
    decreases left,
{
    if cur == END_OF_CHAIN {
        Some(Seq::empty())
    } else if left <= 0 {
        None
    } else if !sector_in_bounds(b.len() as int, v, cur) {
        None
    } else if cur >= fat.len() {
        None
    } else {
        match word_chain(b, v, fat, fat[cur as int], left - 1) {
            None => None,
            Some(rest) => Some(sector_words(b, v, cur) + rest),
        }
    }
}

/// Reads the words of the sector chain that starts at `cur`.
pub fn read_word_chain(b: &Vec<u8>, v: Version, fat: &Vec<u32>, cur: u32, left: usize) -> (r:
    Result<Vec<u32>, CfbError>)
    ensures
        match r {
            Ok(w) => word_chain(b@, v, fat@, cur, left as int) == Some(w@),
            Err(e) => word_chain(b@, v, fat@, cur, left as int) is None && e
                == CfbError::BadFormat,
        },
    decreases left,
{
    if cur == END_OF_CHAIN {
        return Ok(Vec::new());
    }
    if left == 0 {
        return Err(CfbError::BadFormat);
    }
    let blen: usize = b.len();
    let sl = v.sector_len();
    if !check_sector_in_bounds(blen, v, cur) {
        return Err(CfbError::BadFormat);
    }
    if cur as usize >= fat.len() {
        return Err(CfbError::BadFormat);
    }
    let mut w = read_sector_words(b, v, cur);
    let next = fat[cur as usize];
    match read_word_chain(b, v, fat, next, left - 1) {
        Ok(mut rest) => {
            let ghost wview = w@;
            let ghost r0 = rest@;
            w.append(&mut rest);
            assert(w@ =~= wview + r0);
            Ok(w)
        },
        Err(er) => Err(er),
    }
}

} // verus!
