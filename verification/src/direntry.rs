//! Directory entries: 128-byte on-disk records describing the root, the
//! storages and the streams of a container.

use vstd::prelude::*;

use crate::codec::{le16_at, le32_at, le64_at, push_u16, push_u32, push_u64, push_zeros, read_u16,
    read_u32, read_u64};
use crate::consts::{DIR_ENTRY_LEN, OBJ_TYPE_ROOT};
use crate::error::CfbError;
use crate::names::{decoded_utf16, utf16_lossy, NAME_MAX_UNITS};
use crate::version::Version;

verus! {

/// The mathematical content of a directory entry, together with the byte
/// offset of its 128-byte slot in the image.
#[verifier::ext_equal]
pub ghost struct EntryModel {
    /// The name, decoded from its UTF-16 code units.
    pub name: Seq<char>,
    /// The UTF-16 code units of the name, without the terminator.
    pub name_units: Seq<u16>,
    /// unallocated, storage, stream, or root.
    pub obj_type: u8,
    /// The red/black bit of the sibling tree.
    pub color: u8,
    /// The entry id of the left sibling, or the absence sentinel.
    pub left: u32,
    /// The entry id of the right sibling, or the absence sentinel.
    pub right: u32,
    /// The entry id of the first child, or the absence sentinel.
    pub child: u32,
    /// The first sector of the entry's chain.
    pub start_sector: u32,
    /// The length of the entry's stream in bytes.
    pub stream_len: u64,
    /// Where the 128-byte slot lies in the byte image.
    pub offset: int,
}

/// A directory entry as held in memory. The fields mirror `EntryModel`
/// field for field.
pub struct DirEntry {
    /// The name, decoded from its UTF-16 code units.
    pub name: String,
    /// The UTF-16 code units of the name, without the terminator.
    pub name_units: Vec<u16>,
    /// unallocated, storage, stream, or root.
    pub obj_type: u8,
    /// The red/black bit of the sibling tree.
    pub color: u8,
    /// The entry id of the left sibling, or the absence sentinel.
    pub left: u32,
    /// The entry id of the right sibling, or the absence sentinel.
    pub right: u32,
    /// The entry id of the first child, or the absence sentinel.
    pub child: u32,
    /// The first sector of the entry's chain.
    pub start_sector: u32,
    /// The length of the entry's stream in bytes.
    pub stream_len: u64,
    /// Where the 128-byte slot lies in the byte image.
    pub offset: usize,
}

impl View for DirEntry {
    type V = EntryModel;

    open spec fn view(&self) -> EntryModel {
        EntryModel {
            name: self.name@,
            name_units: self.name_units@,
            obj_type: self.obj_type,
            color: self.color,
            left: self.left,
            right: self.right,
            child: self.child,
            start_sector: self.start_sector,
            stream_len: self.stream_len,
            offset: self.offset as int,
        }
    }
}

impl DirEntry {
    /// The in-memory name agrees with the code units, and the name fits the
    /// on-disk field.
    pub open spec fn wf(&self) -> bool {
        &&& self@.name == decoded_utf16(self@.name_units)
        &&& self@.name_units.len() <= NAME_MAX_UNITS
    }

    /// Whether this entry is the root entry.
    pub open spec fn spec_is_root(&self) -> bool {
        self@.obj_type == OBJ_TYPE_ROOT
    }
}

/// The `k`-th 16-bit word of the name field that starts at offset `start`.
pub open spec fn unit_at(b: Seq<u8>, start: int, k: int) -> int {
    le16_at(b, start + 2 * k)
}

/// The `k`-th word the name field should hold for the given units: the unit
/// itself inside the name, zero padding after it.
pub open spec fn padded_unit(units: Seq<u16>, k: int) -> int {
    if k < units.len() {
        units[k] as int
    } else {
        0
    }
}

/// The length in bytes the name field claims, including the terminator.
pub open spec fn entry_name_len_bytes(b: Seq<u8>, o: int) -> int {
    le16_at(b, o + 64)
}

/// The UTF-16 code units of the name stored at slot offset `o`.
pub open spec fn entry_units(b: Seq<u8>, o: int) -> Seq<u16> {
    let chars = if entry_name_len_bytes(b, o) > 0 {
        entry_name_len_bytes(b, o) / 2 - 1
    } else {
        0
    };
    Seq::new(chars as nat, |j: int| le16_at(b, o + 2 * j) as u16)
}

/// Whether the 128 bytes at offset `o` are a well-formed directory entry:
/// the slot lies inside the image, the recorded name length is even and at
/// most 64, and under V3 the high half of the stream length is zero.
pub open spec fn entry_parse_ok(b: Seq<u8>, o: int, v: Version) -> bool {
    &&& 0 <= o
    &&& o + DIR_ENTRY_LEN <= b.len()
    &&& entry_name_len_bytes(b, o) <= 64
    &&& entry_name_len_bytes(b, o) % 2 == 0
    &&& (v == Version::V3 ==> le32_at(b, o + 124) == 0)
}

/// The entry stored at slot offset `o`, assuming `entry_parse_ok`.
pub open spec fn entry_at(b: Seq<u8>, o: int, v: Version) -> EntryModel {
    EntryModel {
        name: decoded_utf16(entry_units(b, o)),
        name_units: entry_units(b, o),
        obj_type: b[o + 66],
        color: b[o + 67],
        left: le32_at(b, o + 68) as u32,
        right: le32_at(b, o + 72) as u32,
        child: le32_at(b, o + 76) as u32,
        start_sector: le32_at(b, o + 116) as u32,
        stream_len: le64_at(b, o + 120) as u64,
        offset: o,
    }
}

/// Parses the directory entry at slot offset `o`.
pub fn read_entry(b: &Vec<u8>, o: usize, v: Version) -> (r: Result<DirEntry, CfbError>)
    requires
        o + DIR_ENTRY_LEN <= b@.len(),
    ensures
        match r {
            Ok(e) => entry_parse_ok(b@, o as int, v) && e@ == entry_at(b@, o as int, v) && e.wf(),
            Err(e) => !entry_parse_ok(b@, o as int, v) && e == CfbError::BadFormat,
        },
{
    let n: usize = b.len();
    assert(o + DIR_ENTRY_LEN <= n);
    let nlb = read_u16(b, o + 64);
    if nlb > 64 || nlb % 2 != 0 {
        return Err(CfbError::BadFormat);
    }
    let chars: usize = if nlb > 0 {
        (nlb / 2 - 1) as usize
    } else {
        0
    };
    let mut units: Vec<u16> = Vec::new();
    let mut j: usize = 0;
    while j < chars
        invariant
            j <= chars,
            chars <= 31,
            n == b@.len(),
            o + DIR_ENTRY_LEN <= n,
            units@ == Seq::new(j as nat, |k: int| le16_at(b@, o + 2 * k) as u16),
        decreases chars - j,
    {
        let u = read_u16(b, o + 2 * j);
        units.push(u);
        assert(units@ =~= Seq::new((j + 1) as nat, |k: int| le16_at(b@, o + 2 * k) as u16));
        j = j + 1;
    }
    assert(units@ =~= entry_units(b@, o as int));
    let name = utf16_lossy(&units);
    let obj_type = b[o + 66];
    let color = b[o + 67];
    let left = read_u32(b, o + 68);
    let right = read_u32(b, o + 72);
    let child = read_u32(b, o + 76);
    let start_sector = read_u32(b, o + 116);
    let stream_len = read_u64(b, o + 120);
    if matches!(v, Version::V3) && stream_len >= 0x100000000 {
        return Err(CfbError::BadFormat);
    }
    proof {
        if v == Version::V3 {
            assert(le64_at(b@, o + 120) == le32_at(b@, o + 120) + 0x100000000 * le32_at(
                b@,
                o + 124,
            ));
        }
    }
    Ok(
        DirEntry {
            name,
            name_units: units,
            obj_type,
            color,
            left,
            right,
            child,
            start_sector,
            stream_len,
            offset: o,
        },
    )
}

/// Appends an entry's 128-byte on-disk record to the image.
pub fn push_entry(b: &mut Vec<u8>, e: &DirEntry, v: Version)
    requires
        e.wf(),
        v == Version::V3 ==> e@.stream_len < 0x100000000,
    ensures
        final(b)@.len() == old(b)@.len() + DIR_ENTRY_LEN,
        final(b)@.subrange(0, old(b)@.len() as int) == old(b)@,
        forall|k: int| 0 <= k < old(b)@.len() ==> final(b)@[k] == old(b)@[k],
        forall|k: int|
            old(b)@.len() + 80 <= k < old(b)@.len() + 116 ==> final(b)@[k] == 0u8,
        forall|k: int|
            0 <= k < 32 ==> #[trigger] unit_at(final(b)@, old(b)@.len() as int, k) == padded_unit(
                e@.name_units,
                k,
            ),
        le16_at(final(b)@, old(b)@.len() as int + 64) == 2 * (e@.name_units.len() + 1),
        entry_parse_ok(final(b)@, old(b)@.len() as int, v),
        entry_at(final(b)@, old(b)@.len() as int, v) == (EntryModel {
            offset: old(b)@.len() as int,
            ..e@
        }),
{
    let ghost start = b@.len() as int;
    let units_len = e.name_units.len();
    let mut j: usize = 0;
    while j < 32
        invariant
            j <= 32,
            e.wf(),
            units_len == e@.name_units.len(),
            b@.len() == start + 2 * j,
            0 <= start,
            b@.subrange(0, start) == old(b)@,
            forall|k: int| 0 <= k < j ==> #[trigger] unit_at(b@, start, k) == padded_unit(
                e@.name_units,
                k,
            ),
        decreases 32 - j,
    {
        let u: u16 = if j < units_len {
            e.name_units[j]
        } else {
            0
        };
        let ghost prev = b@;
        push_u16(b, u);
        proof {
            assert(b@.subrange(0, start) =~= old(b)@);
            assert forall|k: int| 0 <= k < j + 1 implies #[trigger] unit_at(b@, start, k)
                == padded_unit(e@.name_units, k) by {
                if k < j {
                    assert(b@[start + 2 * k] == prev[start + 2 * k]);
                    assert(b@[start + 2 * k + 1] == prev[start + 2 * k + 1]);
                    assert(unit_at(prev, start, k) == padded_unit(e@.name_units, k));
                } else {
                    assert(unit_at(b@, start, k) == le16_at(b@, prev.len() as int));
                }
            }
        }
        j = j + 1;
    }
    let ghost mid = b@;
    let nlb: u16 = (units_len as u16 + 1) * 2;
    push_u16(b, nlb);
    b.push(e.obj_type);
    b.push(e.color);
    push_u32(b, e.left);
    push_u32(b, e.right);
    push_u32(b, e.child);
    push_zeros(b, 16);  // clsid
    let ghost clsid_done = b@;
    push_u32(b, 0);  // state bits
    let ghost state_done = b@;
    push_u64(b, 0);  // creation time
    push_u64(b, 0);  // modified time
    let ghost times_done = b@;
    push_u32(b, e.start_sector);
    push_u64(b, e.stream_len);
    proof {
        let fb = b@;
        assert forall|k: int| start + 80 <= k < start + 116 implies fb[k] == 0u8 by {
            if k < start + 96 {
                assert(fb[k] == clsid_done[k]);
            } else if k < start + 100 {
                assert(fb[k] == state_done[k]);
                assert(le32_at(state_done, start + 96) == 0);
            } else {
                assert(fb[k] == times_done[k]);
                assert(le64_at(times_done, start + 100) == 0);
                assert(le64_at(times_done, start + 108) == 0);
                assert(le32_at(times_done, start + 100) == 0 && le32_at(times_done, start + 104)
                    == 0 && le32_at(times_done, start + 108) == 0 && le32_at(
                    times_done,
                    start + 112,
                ) == 0);
            }
        }
        assert(fb.subrange(0, start) =~= old(b)@);
        assert(entry_name_len_bytes(fb, start) == nlb);
        assert forall|k: int| 0 <= k < 32 implies #[trigger] unit_at(fb, start, k) == padded_unit(
            e@.name_units,
            k,
        ) by {
            assert(fb[start + 2 * k] == mid[start + 2 * k]);
            assert(fb[start + 2 * k + 1] == mid[start + 2 * k + 1]);
            assert(unit_at(mid, start, k) == padded_unit(e@.name_units, k));
        }
        assert forall|k: int| 0 <= k < start implies fb[k] == old(b)@[k] by {
            assert(fb[k] == mid[k]);
            assert(mid[k] == mid.subrange(0, start)[k]);
        }
        assert forall|k: int| 0 <= k < e@.name_units.len() implies entry_units(fb, start)[k]
            == e@.name_units[k] by {
            assert(entry_units(fb, start)[k] == le16_at(fb, start + 2 * k) as u16);
            assert(unit_at(fb, start, k) == padded_unit(e@.name_units, k));
        }
        assert(entry_units(fb, start) =~= e@.name_units);
        assert(entry_at(fb, start, v) == (EntryModel { offset: start, ..e@ }));
    }
}

/// An entry slot is read the same way from any image that extends the bytes
/// it lies in unchanged.
pub proof fn lemma_entry_at_stable(b1: Seq<u8>, b2: Seq<u8>, o: int, v: Version)
    requires
        0 <= o,
        o + DIR_ENTRY_LEN <= b1.len(),
        b1.len() <= b2.len(),
        forall|k: int| 0 <= k < b1.len() ==> b1[k] == b2[k],
    ensures
        entry_parse_ok(b2, o, v) == entry_parse_ok(b1, o, v),
        entry_parse_ok(b1, o, v) ==> entry_units(b2, o) == entry_units(b1, o) && entry_at(
            b2,
            o,
            v,
        ) == entry_at(b1, o, v),
{
    assert(entry_name_len_bytes(b2, o) == entry_name_len_bytes(b1, o));
    if entry_parse_ok(b1, o, v) {
        assert forall|k: int| 0 <= k < entry_units(b1, o).len() implies entry_units(b2, o)[k]
            == entry_units(b1, o)[k] by {
            assert(b2[o + 2 * k] == b1[o + 2 * k]);
            assert(b2[o + 2 * k + 1] == b1[o + 2 * k + 1]);
        }
        assert(entry_units(b2, o) =~= entry_units(b1, o));
        assert(entry_at(b2, o, v) =~= entry_at(b1, o, v));
    }
}

} // verus!
