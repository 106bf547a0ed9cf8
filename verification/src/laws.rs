//! Laws the library holds to, stated over the same spec functions its
//! contracts use and proved once and for all.

use vstd::prelude::*;

use crate::chains::{difat_chain, difat_inline, dir_chain, fat_from_difat, sector_entries,
    sector_in_bounds, sector_words, trim_free, word_chain};
use crate::codec::{le16_at, word_at};
use crate::consts::{DIR_ENTRY_LEN, END_OF_CHAIN, FAT_SECTOR, FREE_SECTOR, OBJ_TYPE_UNALLOCATED};
use crate::container::{create_result, is_create_image, renamed, root_entry_model, spec_open,
    FileModel};
use crate::direntry::{entry_at, entry_parse_ok, padded_unit, unit_at};
use crate::error::CfbError;
use crate::stream::{resolve_seek, seek_result, stream_byte, Stream, SeekFrom};
use crate::version::Version;

verus! {

/// A word array whose entries from `n` on are all unallocated markers trims
/// to the trim of its first `n` entries.
proof fn lemma_trim_free_suffix(s: Seq<u32>, n: int)
    requires
        0 <= n <= s.len(),
        forall|k: int| n <= k < s.len() ==> s[k] == FREE_SECTOR,
    ensures
        trim_free(s) == trim_free(s.take(n)),
    decreases s.len() - n,
{
    if n == s.len() {
        assert(s.take(n) =~= s);
    } else {
        assert(s.last() == FREE_SECTOR);
        let t = s.drop_last();
        assert(t =~= s.take(s.len() - 1));
        lemma_trim_free_suffix(t, n);
        assert(t.take(n) =~= s.take(n));
    }
}

/// A run of `k` all-zero slots parses as `k` unallocated entries.
proof fn lemma_zero_entries(b: Seq<u8>, v: Version, o: int, k: int)
    requires
        0 <= o,
        0 <= k,
        o + k * DIR_ENTRY_LEN <= b.len(),
        forall|i: int| o <= i < o + k * DIR_ENTRY_LEN ==> b[i] == 0u8,
    ensures
        sector_entries(b, v, o, k) is Some,
        sector_entries(b, v, o, k)->Some_0.len() == k,
        forall|i: int|
            0 <= i < k ==> (#[trigger] sector_entries(b, v, o, k)->Some_0[i]).obj_type
                == OBJ_TYPE_UNALLOCATED && sector_entries(b, v, o, k)->Some_0[i].name_units.len()
                == 0,
    decreases k,
{
    if k > 0 {
        assert(le16_at(b, o + 64) == 0);
        assert(entry_parse_ok(b, o, v));
        assert(entry_at(b, o, v).obj_type == 0);
        assert(entry_at(b, o, v).name_units.len() == 0);
        lemma_zero_entries(b, v, o + DIR_ENTRY_LEN, k - 1);
        let es = sector_entries(b, v, o, k)->Some_0;
        let rest = sector_entries(b, v, o + DIR_ENTRY_LEN, k - 1)->Some_0;
        assert(es =~= seq![entry_at(b, o, v)] + rest);
    }
}

/// Round trip: opening the byte image a fresh container writes succeeds and
/// yields the same observable container — the same version, the same
/// allocation tables, a root entry equal to the one written, and every other
/// directory slot unallocated, so the root's child listing is empty.
pub proof fn lemma_create_then_open(m: FileModel, v: Version)
    requires
        create_result(m, v),
    ensures
        spec_open(m.bytes) is Some,
        ({
            let m2 = spec_open(m.bytes)->Some_0;
            &&& m2.bytes == m.bytes
            &&& m2.version == v
            &&& m2.difat == m.difat
            &&& m2.fat == m.fat
            &&& m2.minifat == m.minifat
            &&& m2.cutoff == m.cutoff
            &&& m2.directory.len() == v.spec_sector_len() / (DIR_ENTRY_LEN as int)
            &&& m2.directory[0] == root_entry_model(v)
            &&& (forall|i: int|
                1 <= i < m2.directory.len() ==> (#[trigger] m2.directory[i]).obj_type
                    == OBJ_TYPE_UNALLOCATED)
        }),
{
    let b = m.bytes;
    let sl = v.spec_sector_len();
    assert(is_create_image(b, v));
    assert(le16_at(b, 26) == v.spec_number());
    // The inline DIFAT holds exactly the one FAT sector.
    assert(word_at(b, 76, 1) == FREE_SECTOR);
    assert(difat_inline(b, 1) =~= Seq::<u32>::empty());
    assert(difat_inline(b, 0) =~= seq![0u32]);
    // No spilled DIFAT sectors.
    assert(le16_at(b, 26) == (if v == Version::V3 {
        3int
    } else {
        4int
    }));
    assert(difat_chain(b, v, END_OF_CHAIN, 0) == Some(Seq::<u32>::empty()));
    let difat = difat_inline(b, 0) + difat_chain(b, v, END_OF_CHAIN, 0)->Some_0;
    assert(difat =~= seq![0u32]);
    // The FAT is read from sector 0 and trimmed to its two real entries.
    assert(sector_in_bounds(b.len() as int, v, 0u32));
    let words = sector_words(b, v, 0u32);
    assert(fat_from_difat(b, v, difat, 1) == Some(Seq::<u32>::empty()));
    assert(fat_from_difat(b, v, difat, 0) == Some(words + Seq::<u32>::empty()));
    assert(words + Seq::<u32>::empty() =~= words);
    assert(words[0] == word_at(b, sl, 0));
    assert(words[1] == word_at(b, sl, 1));
    assert forall|k: int| 2 <= k < words.len() implies words[k] == FREE_SECTOR by {
        assert(word_at(b, sl, k) == FREE_SECTOR);
    }
    lemma_trim_free_suffix(words, 2);
    assert(words.take(2) =~= seq![FAT_SECTOR, END_OF_CHAIN]);
    let fat = trim_free(words);
    assert(fat == seq![FAT_SECTOR, END_OF_CHAIN]);
    // The directory chain is the single sector 1.
    assert(sector_in_bounds(b.len() as int, v, 1u32));
    let epd = sl / (DIR_ENTRY_LEN as int);
    assert(entry_at(b, 2 * sl, v) == root_entry_model(v));
    lemma_zero_entries(b, v, 2 * sl + DIR_ENTRY_LEN, epd - 1);
    let rest = sector_entries(b, v, 2 * sl + DIR_ENTRY_LEN, epd - 1)->Some_0;
    assert(sector_entries(b, v, 2 * sl, epd) == Some(seq![entry_at(b, 2 * sl, v)] + rest));
    let es = seq![entry_at(b, 2 * sl, v)] + rest;
    assert(fat[1int] == END_OF_CHAIN);
    assert(dir_chain(b, v, fat, END_OF_CHAIN, b.len() as int - 1) == Some(
        Seq::<crate::direntry::EntryModel>::empty(),
    ));
    assert(dir_chain(b, v, fat, 1u32, b.len() as int) == Some(
        es + Seq::<crate::direntry::EntryModel>::empty(),
    ));
    assert(es + Seq::<crate::direntry::EntryModel>::empty() =~= es);
    assert(es.len() == epd >= 4);
    // No MiniFAT sectors.
    assert(word_chain(b, v, fat, END_OF_CHAIN, b.len() as int) == Some(Seq::<u32>::empty()));
    assert(trim_free(Seq::<u32>::empty()) =~= Seq::<u32>::empty());
    // Put the parse together.
    assert(spec_open(b) is Some);
    let m2 = spec_open(b)->Some_0;
    assert(m2.directory == es);
    assert(m2.fat == m.fat);
    assert(m2.difat =~= m.difat);
    assert(m2.minifat =~= m.minifat);
    assert forall|i: int| 1 <= i < m2.directory.len() implies (#[trigger] m2.directory[i]).obj_type
        == OBJ_TYPE_UNALLOCATED by {
        assert(m2.directory[i] == rest[i - 1]);
    }
}

/// A rename leaves every allocation table as it was, so whatever allocation
/// roles held before it hold after it.
pub proof fn lemma_rename_preserves_allocation_roles(
    m1: FileModel,
    m2: FileModel,
    id: int,
    units: Seq<u16>,
    name: Seq<char>,
)
    requires
        renamed(m1, m2, id, units, name),
    ensures
        difat_marks_fat(m2) <==> difat_marks_fat(m1),
        m2.minifat == m1.minifat,
{
}

/// A fresh container's root name field stands in the normal form the
/// library writes, so renaming the root to its own name — were the root
/// renamable — and every later rename of any entry start from persisted
/// names: the rename no-op law applies to every name the library itself has
/// written.
pub proof fn lemma_create_root_name_persisted(m: FileModel, v: Version)
    requires
        create_result(m, v),
    ensures
        name_persisted(m, 0),
{
    assert(m.directory[0] == root_entry_model(v));
}

/// The on-disk name field of entry `id` already holds exactly the entry's
/// code units: the padded name words and the recorded length agree with the
/// in-memory entry.
pub open spec fn name_persisted(m: FileModel, id: int) -> bool {
    let o = m.directory[id].offset;
    let units = m.directory[id].name_units;
    &&& (forall|k: int| 0 <= k < 32 ==> #[trigger] unit_at(m.bytes, o, k) == padded_unit(units, k))
    &&& le16_at(m.bytes, o + 64) == 2 * (units.len() + 1)
}

/// Renaming an entry to its current name is a no-op on the byte image,
/// provided the name field on disk is in the normal form the library itself
/// writes (name words padded with zeros and the length recorded). An image
/// whose padding after the terminator holds junk is rewritten to the normal
/// form instead.
pub proof fn lemma_rename_same_name_noop(m1: FileModel, m2: FileModel, id: int)
    requires
        0 <= id < m1.directory.len(),
        0 <= m1.directory[id].offset,
        m1.directory[id].offset + DIR_ENTRY_LEN <= m1.bytes.len(),
        m1.directory[id].name_units.len() <= 31,
        name_persisted(m1, id),
        renamed(m1, m2, id, m1.directory[id].name_units, m1.directory[id].name),
    ensures
        m2.bytes == m1.bytes,
        m2.directory == m1.directory,
{
    let o = m1.directory[id].offset;
    let units = m1.directory[id].name_units;
    assert forall|k: int| 0 <= k < m1.bytes.len() implies m2.bytes[k] == m1.bytes[k] by {
        if o <= k < o + 66 {
            if k < o + 64 {
                let w = (k - o) / 2;
                vstd::arithmetic::div_mod::lemma_fundamental_div_mod(k - o, 2);
                assert(0 <= w < 32);
                assert(unit_at(m2.bytes, o, w) == padded_unit(units, w));
                assert(unit_at(m1.bytes, o, w) == padded_unit(units, w));
                assert(m2.bytes[o + 2 * w] + 0x100 * m2.bytes[o + 2 * w + 1] == m1.bytes[o + 2 * w]
                    + 0x100 * m1.bytes[o + 2 * w + 1]);
                assert(k == o + 2 * w || k == o + 2 * w + 1);
            } else {
                assert(m2.bytes[o + 64] + 0x100 * m2.bytes[o + 65] == m1.bytes[o + 64] + 0x100
                    * m1.bytes[o + 65]);
            }
        }
    }
    assert(m2.bytes =~= m1.bytes);
    assert(m2.directory =~= m1.directory);
}

/// Seek law: seeking to an absolute position `p` and then seeking zero bytes
/// from the current position lands on `p` again, leaves the cursor exactly
/// where it was, and returns `p`.
pub proof fn lemma_seek_law(s: Stream, m: FileModel, p: u64)
    requires
        seek_result(s, m, SeekFrom::Start(p)) is Ok,
    ensures
        ({
            let s1 = seek_result(s, m, SeekFrom::Start(p))->Ok_0.0;
            seek_result(s1, m, SeekFrom::Current(0)) == Ok::<(Stream, u64), crate::error::CfbError>(
                (s1, p),
            )
        }),
{
    let s1 = seek_result(s, m, SeekFrom::Start(p))->Ok_0.0;
    assert(s1.offset_from_start == p as int);
    assert(resolve_seek(SeekFrom::Current(0), s1.offset_from_start as int, s1.total_len as int)
        == p as int);
    let r2 = seek_result(s1, m, SeekFrom::Current(0));
    assert(r2 is Ok);
    assert(r2->Ok_0.0 =~= s1);
}

/// The DIFAT indexes exactly the sectors the FAT marks as FAT sectors.
pub open spec fn difat_marks_fat(m: FileModel) -> bool {
    forall|s: int|
        0 <= s < m.fat.len() ==> ((#[trigger] m.fat[s] == FAT_SECTOR) <==> m.difat.contains(
            s as u32,
        ))
}

/// Allocation roles of a fresh container: the DIFAT lists exactly the
/// sectors the FAT marks as FAT sectors, and the MiniFAT is empty, so its
/// chain holds exactly the zero sectors its zero entries need.
pub proof fn lemma_create_allocation_roles(m: FileModel, v: Version)
    requires
        create_result(m, v),
    ensures
        difat_marks_fat(m),
        m.minifat.len() == 0,
{
    assert forall|s: int|
        0 <= s < m.fat.len() implies ((m.fat[s] == FAT_SECTOR) <==> m.difat.contains(
        s as u32,
    )) by {
        if s == 0 {
            assert(m.difat[0] == 0u32);
            assert(m.difat.contains(0u32));
        } else {
            assert(m.fat[s] == END_OF_CHAIN);
            assert(forall|i: int| 0 <= i < m.difat.len() ==> m.difat[i] == 0u32);
        }
    }
}

/// The whole byte content of a stream of length `len`.
pub open spec fn stream_content(m: FileModel, mini: bool, start: u32, len: int) -> Seq<u8> {
    Seq::new(len as nat, |i: int| stream_byte(m, mini, start, i))
}

/// Read law, first half: the bytes one read call hands back are exactly a
/// slice of the stream's content, so reads from offset zero up to the length
/// concatenate to the whole content.
pub proof fn lemma_read_is_content_slice(
    bytes: Seq<u8>,
    m: FileModel,
    mini: bool,
    start: u32,
    off: int,
    k: int,
    len: int,
)
    requires
        0 <= off,
        0 <= k,
        off + k <= len,
        bytes.len() == k,
        forall|j: int| 0 <= j < k ==> bytes[j] == stream_byte(m, mini, start, off + j),
    ensures
        bytes =~= stream_content(m, mini, start, len).subrange(off, off + k),
{
}

/// Read law, joining half: two adjacent slices of the stream's content
/// concatenate to the enclosing slice, so reads collected one after another
/// from offset zero build up exactly the first `L` bytes of the content.
pub proof fn lemma_reads_concatenate(
    m: FileModel,
    mini: bool,
    start: u32,
    a: int,
    b: int,
    c: int,
    len: int,
)
    requires
        0 <= a <= b <= c <= len,
    ensures
        stream_content(m, mini, start, len).subrange(a, b) + stream_content(
            m,
            mini,
            start,
            len,
        ).subrange(b, c) == stream_content(m, mini, start, len).subrange(a, c),
{
    assert(stream_content(m, mini, start, len).subrange(a, b) + stream_content(
        m,
        mini,
        start,
        len,
    ).subrange(b, c) =~= stream_content(m, mini, start, len).subrange(a, c));
}

/// Read law, second half: a read at the end of the stream hands back no
/// bytes.
pub proof fn lemma_read_at_end_is_empty(s: Stream, m: FileModel, max: int)
    requires
        s.offset_from_start == s.total_len,
    ensures
        crate::stream::spec_read_len(s, m, max) <= 0,
{
}

} // verus!
