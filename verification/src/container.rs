//! The compound file: an in-memory byte image together with the structures
//! parsed out of it — the DIFAT, the FAT, the MiniFAT and the directory.

use vstd::prelude::*;

use crate::chains::{check_sector_in_bounds, difat_chain, difat_inline, dir_chain, fat_from_difat,
    read_difat_chain, read_difat_inline, read_dir_chain, read_fat, read_word_chain, trim_free,
    trim_free_tail, word_chain};
use crate::codec::{le16_at, le32_at, push_u16, push_u32, push_u32_repeat, push_zeros, read_u16,
    read_u32, set_u16, word_at};
use crate::consts::{DIR_ENTRY_LEN, END_OF_CHAIN, FAT_SECTOR, FREE_SECTOR, HEADER_LEN,
    MINI_STREAM_CUTOFF, NO_STREAM, OBJ_TYPE_ROOT};
use crate::direntry::{entry_at, entry_parse_ok, lemma_entry_at_stable, padded_unit, push_entry,
    unit_at, DirEntry, EntryModel};
use crate::error::CfbError;
use crate::names::{decoded_utf16, encode_utf16_units, lemma_utf16_bmp, utf16, utf16_lossy};
use crate::version::Version;

verus! {

/// The mathematical content of a compound file.
#[verifier::ext_equal]
pub ghost struct FileModel {
    /// The format version.
    pub version: Version,
    /// The whole byte image.
    pub bytes: Seq<u8>,
    /// The sector indices of the FAT sectors, in order.
    pub difat: Seq<u32>,
    /// The sector allocation table, trailing unallocated markers trimmed.
    pub fat: Seq<u32>,
    /// The mini-sector allocation table, trailing unallocated markers
    /// trimmed.
    pub minifat: Seq<u32>,
    /// Streams strictly shorter than this live in the mini-stream.
    pub cutoff: u32,
    /// All directory entries, unallocated slots included.
    pub directory: Seq<EntryModel>,
}

/// A directory entry is well formed within an image of `blen` bytes.
pub open spec fn entry_model_wf(e: EntryModel, blen: int) -> bool {
    &&& e.name == decoded_utf16(e.name_units)
    &&& e.name_units.len() <= 31
    &&& 0 <= e.offset
    &&& e.offset + DIR_ENTRY_LEN <= blen
}

/// The container's invariant: entry 0 is the one root entry, and every
/// directory entry is well formed and lies inside the image.
pub open spec fn file_wf(m: FileModel) -> bool {
    &&& root_entry_ok(m.directory)
    &&& forall|i: int|
        0 <= i < m.directory.len() ==> entry_model_wf(
            #[trigger] m.directory[i],
            m.bytes.len() as int,
        )
}

/// How a container changes when entry `id` is renamed to the given code
/// units: the 64-byte name field and the name length are rewritten in place,
/// every other byte and every other structure stays as it was.
pub open spec fn renamed(m1: FileModel, m2: FileModel, id: int, units: Seq<u16>, name: Seq<char>) -> bool {
    let o = m1.directory[id].offset;
    &&& m2.bytes.len() == m1.bytes.len()
    &&& (forall|k: int|
        0 <= k < m2.bytes.len() && !(o <= k < o + 66) ==> m2.bytes[k] == m1.bytes[k])
    &&& (forall|k: int| 0 <= k < 32 ==> #[trigger] unit_at(m2.bytes, o, k) == padded_unit(units, k))
    &&& le16_at(m2.bytes, o + 64) == 2 * (units.len() + 1)
    &&& m2.directory == m1.directory.update(
        id,
        EntryModel { name: name, name_units: units, ..m1.directory[id] },
    )
    &&& m2.version == m1.version
    &&& m2.difat == m1.difat
    &&& m2.fat == m1.fat
    &&& m2.minifat == m1.minifat
    &&& m2.cutoff == m1.cutoff
}

/// A compound file, backed by an in-memory byte image.
pub struct CompoundFile {
    pub(crate) inner: Vec<u8>,
    pub(crate) version: Version,
    pub(crate) difat: Vec<u32>,
    pub(crate) fat: Vec<u32>,
    pub(crate) minifat: Vec<u32>,
    pub(crate) cutoff: u32,
    pub(crate) directory: Vec<DirEntry>,
}

impl View for CompoundFile {
    type V = FileModel;

    closed spec fn view(&self) -> FileModel {
        FileModel {
            version: self.version,
            bytes: self.inner@,
            difat: self.difat@,
            fat: self.fat@,
            minifat: self.minifat@,
            cutoff: self.cutoff,
            directory: Seq::new(self.directory@.len(), |i: int| self.directory@[i]@),
        }
    }
}

/// The directory's root slot: entry 0 exists, is root-typed, and is the
/// only root-typed entry.
pub open spec fn root_entry_ok(dir: Seq<EntryModel>) -> bool {
    &&& dir.len() >= 1
    &&& dir[0].obj_type == OBJ_TYPE_ROOT
    &&& forall|i: int| 1 <= i < dir.len() ==> (#[trigger] dir[i]).obj_type != OBJ_TYPE_ROOT
}

/// Whether the image begins with the compound file magic number.
pub open spec fn is_magic(b: Seq<u8>) -> bool {
    &&& b.len() >= 8
    &&& b[0] == 0xd0u8
    &&& b[1] == 0xcfu8
    &&& b[2] == 0x11u8
    &&& b[3] == 0xe0u8
    &&& b[4] == 0xa1u8
    &&& b[5] == 0xb1u8
    &&& b[6] == 0x1au8
    &&& b[7] == 0xe1u8
}

/// What `open` makes of a byte image: `None` when the image is rejected as
/// malformed, otherwise the parsed container. The header is read first —
/// magic, version tag, sector shift, mini-sector shift (always 6); then the
/// DIFAT (109 inline entries, then
/// the spilled chain, whose length must equal the header's count), the FAT
/// sectors the DIFAT names, the directory chain, and the MiniFAT chain. The
/// step budget of one image length per chain rules out exactly the cyclic
/// chains. An image whose first directory entry is not the root, or that
/// holds a second root-typed entry, is rejected: the format gives every
/// container exactly one root at entry 0, and this library makes that an
/// invariant of every container it holds, checking it once at open, on
/// purpose and beyond the bad-format causes the format lists.
pub open spec fn spec_open(b: Seq<u8>) -> Option<FileModel> {
    if b.len() < HEADER_LEN {
        None
    } else if !is_magic(b) {
        None
    } else if le16_at(b, 26) != 3 && le16_at(b, 26) != 4 {
        None
    } else {
        let v = if le16_at(b, 26) == 3 {
            Version::V3
        } else {
            Version::V4
        };
        if le16_at(b, 30) != v.spec_sector_shift() {
            None
        } else if le16_at(b, 32) != 6 {
            None
        } else {
            match difat_chain(b, v, le32_at(b, 68) as u32, le32_at(b, 72)) {
                None => None,
                Some(spill) => {
                    let difat = difat_inline(b, 0) + spill;
                    match fat_from_difat(b, v, difat, 0) {
                        None => None,
                        Some(fat_raw) => {
                            let fat = trim_free(fat_raw);
                            match dir_chain(b, v, fat, le32_at(b, 48) as u32, b.len() as int) {
                                None => None,
                                Some(dir) => {
                                    if !root_entry_ok(dir) {
                                        None
                                    } else {
                                        match word_chain(
                                            b,
                                            v,
                                            fat,
                                            le32_at(b, 60) as u32,
                                            b.len() as int,
                                        ) {
                                            None => None,
                                            Some(miniraw) => Some(
                                                FileModel {
                                                    version: v,
                                                    bytes: b,
                                                    difat: difat,
                                                    fat: fat,
                                                    minifat: trim_free(miniraw),
                                                    cutoff: le32_at(b, 56) as u32,
                                                    directory: dir,
                                                },
                                            ),
                                        }
                                    }
                                }
                            }
                        },
                    }
                },
            }
        }
    }
}

impl CompoundFile {
    /// The container's invariant.
    pub open spec fn wf(&self) -> bool {
        file_wf(self@)
    }

    /// Returns the CFB format version used for this compound file.
    pub fn version(&self) -> (r: Version)
        ensures
            r == self@.version,
    {
        self.version
    }

    /// Consumes the `CompoundFile`, returning the underlying byte image.
    pub fn into_inner(self) -> (r: Vec<u8>)
        ensures
            r@ == self@.bytes,
    {
        self.inner
    }

    /// How many directory entry slots the container has.
    pub fn entry_count(&self) -> (r: usize)
        ensures
            r == self@.directory.len(),
    {
        self.directory.len()
    }

    /// A copy of the name of entry `id`.
    pub fn entry_name_clone(&self, id: usize) -> (r: String)
        requires
            id < self@.directory.len(),
        ensures
            r@ == self@.directory[id as int].name,
    {
        self.directory[id].name.clone()
    }

    /// The object type of entry `id`.
    pub fn entry_obj_type(&self, id: usize) -> (r: u8)
        requires
            id < self@.directory.len(),
        ensures
            r == self@.directory[id as int].obj_type,
    {
        self.directory[id].obj_type
    }

    /// The first sector of the chain of entry `id`.
    pub fn entry_start_sector(&self, id: usize) -> (r: u32)
        requires
            id < self@.directory.len(),
        ensures
            r == self@.directory[id as int].start_sector,
    {
        self.directory[id].start_sector
    }

    /// The recorded stream length of entry `id`.
    pub fn entry_stream_len(&self, id: usize) -> (r: u64)
        requires
            id < self@.directory.len(),
        ensures
            r == self@.directory[id as int].stream_len,
    {
        self.directory[id].stream_len
    }

    /// The first child of entry `id`, or the absence sentinel.
    pub fn entry_child(&self, id: usize) -> (r: u32)
        requires
            id < self@.directory.len(),
        ensures
            r == self@.directory[id as int].child,
    {
        self.directory[id].child
    }

    /// The sibling links of entry `id`.
    pub fn entry_links(&self, id: usize) -> (r: (u32, u32))
        requires
            id < self@.directory.len(),
        ensures
            r.0 == self@.directory[id as int].left,
            r.1 == self@.directory[id as int].right,
    {
        (self.directory[id].left, self.directory[id].right)
    }

    /// A copy of the name code units of entry `id`.
    pub fn entry_name_units_clone(&self, id: usize) -> (r: Vec<u16>)
        requires
            id < self@.directory.len(),
        ensures
            r@ == self@.directory[id as int].name_units,
    {
        self.directory[id].name_units.clone()
    }

    /// The length of the sector allocation table.
    pub fn fat_len(&self) -> (r: usize)
        ensures
            r == self@.fat.len(),
    {
        self.fat.len()
    }

    /// The FAT link of sector `i`.
    pub fn fat_get(&self, i: usize) -> (r: u32)
        requires
            i < self@.fat.len(),
        ensures
            r == self@.fat[i as int],
    {
        self.fat[i]
    }

    /// The length of the mini-sector allocation table.
    pub fn minifat_len(&self) -> (r: usize)
        ensures
            r == self@.minifat.len(),
    {
        self.minifat.len()
    }

    /// The MiniFAT link of mini-sector `i`.
    pub fn minifat_get(&self, i: usize) -> (r: u32)
        requires
            i < self@.minifat.len(),
        ensures
            r == self@.minifat[i as int],
    {
        self.minifat[i]
    }

    /// The mini-stream cutoff the container was opened with.
    pub fn cutoff(&self) -> (r: u32)
        ensures
            r == self@.cutoff,
    {
        self.cutoff
    }

    /// The length of the byte image.
    pub fn image_len(&self) -> (r: usize)
        ensures
            r == self@.bytes.len(),
    {
        self.inner.len()
    }

    /// A copy of `n` bytes of the image, starting at `off`.
    pub fn read_at(&self, off: usize, n: usize) -> (r: Vec<u8>)
        requires
            off + n <= self@.bytes.len(),
        ensures
            r@ == self@.bytes.subrange(off as int, off + n),
    {
        let blen: usize = self.inner.len();
        assert(off + n <= blen);
        let mut r: Vec<u8> = Vec::new();
        let mut j: usize = 0;
        while j < n
            invariant
                j <= n,
                off + n <= blen,
                blen == self.inner@.len(),
                r@ == self@.bytes.subrange(off as int, off + j),
            decreases n - j,
        {
            r.push(self.inner[off + j]);
            assert(r@ =~= self@.bytes.subrange(off as int, off + j + 1));
            j = j + 1;
        }
        r
    }

    /// Renames entry `id` in place: rewrites the on-disk name field and the
    /// in-memory entry, and touches nothing else.
    pub fn write_entry_name(&mut self, id: usize, units: &Vec<u16>, name: String)
        requires
            old(self).wf(),
            id < old(self)@.directory.len(),
            units@.len() <= 31,
            name@ == decoded_utf16(units@),
        ensures
            final(self).wf(),
            renamed(old(self)@, final(self)@, id as int, units@, name@),
    {
        let o = self.directory[id].offset;
        proof {
            assert(self@.directory[id as int] == self.directory@[id as int]@);
            assert(entry_model_wf(self@.directory[id as int], self@.bytes.len() as int));
        }
        let blen: usize = self.inner.len();
        assert(o + DIR_ENTRY_LEN <= blen);
        let units_len = units.len();
        let mut j: usize = 0;
        let ghost m1 = self@;
        while j < 32
            invariant
                j <= 32,
                units_len == units@.len() <= 31,
                o + DIR_ENTRY_LEN <= blen,
                blen == self.inner@.len(),
                o == m1.directory[id as int].offset,
                0 <= o,
                id < self.directory@.len(),
                self.inner@.len() == m1.bytes.len(),
                self.version == m1.version,
                self.difat@ == m1.difat,
                self.fat@ == m1.fat,
                self.minifat@ == m1.minifat,
                self.cutoff == m1.cutoff,
                self.directory@ =~= old(self).directory@,
                forall|k: int|
                    0 <= k < self.inner@.len() && !(o <= k < o + 2 * j) ==> self.inner@[k]
                        == m1.bytes[k],
                forall|k: int|
                    0 <= k < j ==> #[trigger] unit_at(self.inner@, o as int, k) == padded_unit(
                        units@,
                        k,
                    ),
            decreases 32 - j,
        {
            let u: u16 = if j < units_len {
                units[j]
            } else {
                0
            };
            let ghost prev = self.inner@;
            set_u16(&mut self.inner, o + 2 * j, u);
            proof {
                assert forall|k: int| 0 <= k < j + 1 implies #[trigger] unit_at(
                    self.inner@,
                    o as int,
                    k,
                ) == padded_unit(units@, k) by {
                    if k < j {
                        assert(self.inner@[o + 2 * k] == prev[o + 2 * k]);
                        assert(self.inner@[o + 2 * k + 1] == prev[o + 2 * k + 1]);
                        assert(unit_at(prev, o as int, k) == padded_unit(units@, k));
                    } else {
                        assert(unit_at(self.inner@, o as int, k) == le16_at(
                            self.inner@,
                            o + 2 * j,
                        ));
                    }
                }
            }
            j = j + 1;
        }
        let ghost mid = self.inner@;
        let nlb: u16 = (units_len as u16 + 1) * 2;
        set_u16(&mut self.inner, o + 64, nlb);
        let nm = name.clone();
        let e = &mut self.directory[id];
        e.name = nm;
        e.name_units = units.clone();
        proof {
            let m2 = self@;
            assert forall|k: int| 0 <= k < 32 implies #[trigger] unit_at(m2.bytes, o as int, k)
                == padded_unit(units@, k) by {
                assert(m2.bytes[o + 2 * k] == mid[o + 2 * k]);
                assert(m2.bytes[o + 2 * k + 1] == mid[o + 2 * k + 1]);
                assert(unit_at(mid, o as int, k) == padded_unit(units@, k));
            }
            assert(m2.directory =~= m1.directory.update(
                id as int,
                EntryModel { name: name@, name_units: units@, ..m1.directory[id as int] },
            ));
        }
    }

    /// Opens an existing compound file held in the given byte image. The
    /// image is rejected with a bad-format error exactly when `spec_open`
    /// makes nothing of it.
    pub fn open(inner: Vec<u8>) -> (r: Result<CompoundFile, CfbError>)
        ensures
            match r {
                Ok(c) => spec_open(inner@) == Some(c@) && c.wf() && c@.bytes == inner@,
                Err(e) => spec_open(inner@) is None && e == CfbError::BadFormat,
            },
    {
        let blen: usize = inner.len();
        if blen < HEADER_LEN {
            return Err(CfbError::BadFormat);
        }
        if !(inner[0] == 0xd0 && inner[1] == 0xcf && inner[2] == 0x11 && inner[3] == 0xe0
            && inner[4] == 0xa1 && inner[5] == 0xb1 && inner[6] == 0x1a && inner[7] == 0xe1) {
            return Err(CfbError::BadFormat);
        }
        let vn = read_u16(&inner, 26);
        let version = match Version::from_number(vn) {
            Some(v) => v,
            None => {
                return Err(CfbError::BadFormat);
            },
        };
        if read_u16(&inner, 30) != version.sector_shift() {
            return Err(CfbError::BadFormat);
        }
        if read_u16(&inner, 32) != 6 {
            return Err(CfbError::BadFormat);
        }
        let first_difat = read_u32(&inner, 68);
        let num_difat = read_u32(&inner, 72);
        let mut difat = read_difat_inline(&inner, 0);
        let mut spill = match read_difat_chain(&inner, version, first_difat, num_difat) {
            Ok(s) => s,
            Err(e) => {
                return Err(e);
            },
        };
        let ghost inline0 = difat@;
        let ghost spill0 = spill@;
        difat.append(&mut spill);
        assert(difat@ =~= inline0 + spill0);
        let mut fat = match read_fat(&inner, version, &difat, 0) {
            Ok(f) => f,
            Err(e) => {
                return Err(e);
            },
        };
        trim_free_tail(&mut fat);
        let first_dir = read_u32(&inner, 48);
        let directory = match read_dir_chain(&inner, version, &fat, first_dir, blen) {
            Ok(d) => d,
            Err(e) => {
                return Err(e);
            },
        };
        let ghost dirmodels = Seq::new(directory@.len(), |i: int| directory@[i]@);
        if directory.len() == 0 {
            assert(!root_entry_ok(dirmodels));
            return Err(CfbError::BadFormat);
        }
        if directory[0].obj_type != OBJ_TYPE_ROOT {
            assert(!root_entry_ok(dirmodels));
            return Err(CfbError::BadFormat);
        }
        let dlen = directory.len();
        let mut di: usize = 1;
        #[verifier::loop_isolation(false)]
        while di < dlen
            invariant
                1 <= di <= dlen,
                dlen == directory@.len(),
                dirmodels == Seq::new(directory@.len(), |i: int| directory@[i]@),
                forall|k: int| 1 <= k < di ==> (#[trigger] dirmodels[k]).obj_type != OBJ_TYPE_ROOT,
            decreases dlen - di,
        {
            if directory[di].obj_type == OBJ_TYPE_ROOT {
                assert(dirmodels[di as int].obj_type == OBJ_TYPE_ROOT);
                assert(!root_entry_ok(dirmodels));
                return Err(CfbError::BadFormat);
            }
            assert(dirmodels[di as int].obj_type != OBJ_TYPE_ROOT);
            di = di + 1;
        }
        assert(root_entry_ok(dirmodels));
        let first_mini = read_u32(&inner, 60);
        let mut minifat = match read_word_chain(&inner, version, &fat, first_mini, blen) {
            Ok(w) => w,
            Err(e) => {
                return Err(e);
            },
        };
        trim_free_tail(&mut minifat);
        let cutoff = read_u32(&inner, 56);
        let ghost bytes = inner@;
        let c = CompoundFile { inner, version, difat, fat, minifat, cutoff, directory };
        proof {
            let m = spec_open(bytes)->Some_0;
            assert(spec_open(bytes) is Some);
            assert(m =~= c@);
        }
        Ok(c)
    }

    /// Creates a new compound file with no contents in the given buffer,
    /// which is cleared first; the default version is V4.
    pub fn create(inner: Vec<u8>) -> (c: CompoundFile)
        ensures
            c.wf(),
            create_result(c@, Version::V4),
    {
        CompoundFile::create_with_version(inner, Version::V4)
    }

    /// Creates a new compound file of the given version with no contents in
    /// the given buffer, which is cleared first. The image holds exactly a
    /// header, one FAT sector and one directory sector whose first entry is
    /// the root.
    pub fn create_with_version(inner: Vec<u8>, version: Version) -> (c: CompoundFile)
        ensures
            c.wf(),
            create_result(c@, version),
    {
        let mut b = inner;
        b.clear();
        let sl = version.sector_len();
        // Header: magic, reserved class id, version numbers, geometry.
        b.push(0xd0);
        b.push(0xcf);
        b.push(0x11);
        b.push(0xe0);
        b.push(0xa1);
        b.push(0xb1);
        b.push(0x1a);
        b.push(0xe1);
        push_zeros(&mut b, 16);
        push_u16(&mut b, 0x3e);  // minor version
        push_u16(&mut b, version.number());
        push_u16(&mut b, 0xfffe);  // byte order mark
        push_u16(&mut b, version.sector_shift());
        push_u16(&mut b, 6);  // mini sector shift
        push_zeros(&mut b, 6);
        push_u32(&mut b, if matches!(version, Version::V3) {
            0
        } else {
            1
        });  // num dir sectors, recorded only in V4
        push_u32(&mut b, 1);  // num FAT sectors
        push_u32(&mut b, 1);  // first dir sector
        push_u32(&mut b, 0);  // transaction signature
        push_u32(&mut b, MINI_STREAM_CUTOFF);
        push_u32(&mut b, END_OF_CHAIN);  // first MiniFAT sector
        push_u32(&mut b, 0);  // num MiniFAT sectors
        push_u32(&mut b, END_OF_CHAIN);  // first DIFAT sector
        push_u32(&mut b, 0);  // num DIFAT sectors
        push_u32(&mut b, 0);  // DIFAT entry 0: the one FAT sector
        push_u32_repeat(&mut b, FREE_SECTOR, 108);
        let ghost hdr = b@;
        assert(b@.len() == HEADER_LEN);
        if sl > HEADER_LEN {
            push_zeros(&mut b, sl - HEADER_LEN);
        }
        // Sector 0: the FAT, marking itself, the directory sector, and
        // nothing else.
        push_u32(&mut b, FAT_SECTOR);
        push_u32(&mut b, END_OF_CHAIN);
        push_u32_repeat(&mut b, FREE_SECTOR, sl / 4 - 2);
        let ghost fatdone = b@;
        assert(b@.len() == 2 * sl);
        // Sector 1: the directory, holding the root entry and unallocated
        // slots.
        let root = make_root_entry(2 * sl);
        push_entry(&mut b, &root, version);
        let ghost dirdone = b@;
        push_zeros(&mut b, sl - DIR_ENTRY_LEN);
        assert(b@.len() == 3 * sl);
        proof {
            let fb = b@;
            assert forall|k: int| 1 <= k < 109 implies #[trigger] word_at(fb, 76, k)
                == FREE_SECTOR by {
                assert(word_at(hdr, 80, k - 1) == FREE_SECTOR);
                assert(fb[80 + 4 * (k - 1)] == hdr[80 + 4 * (k - 1)]);
                assert(fb[80 + 4 * (k - 1) + 1] == hdr[80 + 4 * (k - 1) + 1]);
                assert(fb[80 + 4 * (k - 1) + 2] == hdr[80 + 4 * (k - 1) + 2]);
                assert(fb[80 + 4 * (k - 1) + 3] == hdr[80 + 4 * (k - 1) + 3]);
                assert(word_at(fb, 76, k) == le32_at(fb, 80 + 4 * (k - 1)));
            }
            assert forall|k: int| 2 <= k < sl / 4 implies #[trigger] word_at(fb, sl as int, k)
                == FREE_SECTOR by {
                assert(word_at(fatdone, sl as int + 8, k - 2) == FREE_SECTOR);
                assert(fb[sl + 8 + 4 * (k - 2)] == fatdone[sl + 8 + 4 * (k - 2)]);
                assert(fb[sl + 8 + 4 * (k - 2) + 1] == fatdone[sl + 8 + 4 * (k - 2) + 1]);
                assert(fb[sl + 8 + 4 * (k - 2) + 2] == fatdone[sl + 8 + 4 * (k - 2) + 2]);
                assert(fb[sl + 8 + 4 * (k - 2) + 3] == fatdone[sl + 8 + 4 * (k - 2) + 3]);
                assert(word_at(fb, sl as int, k) == le32_at(fb, sl + 8 + 4 * (k - 2)));
            }
            assert forall|k: int| 0 <= k < dirdone.len() implies fb[k] == dirdone[k] by {}
            assert forall|k: int| 2 * sl + 80 <= k < 2 * sl + 116 implies fb[k] == 0u8 by {
                assert(fb[k] == dirdone[k]);
            }
            assert forall|k: int| 0 <= k < 32 implies #[trigger] unit_at(fb, 2 * sl as int, k)
                == padded_unit(utf16("Root Entry"@), k) by {
                assert(fb[2 * sl + 2 * k] == dirdone[2 * sl + 2 * k]);
                assert(fb[2 * sl + 2 * k + 1] == dirdone[2 * sl + 2 * k + 1]);
                assert(unit_at(dirdone, 2 * sl as int, k) == padded_unit(root@.name_units, k));
            }
            assert(fb[2 * sl + 64] == dirdone[2 * sl + 64]);
            assert(fb[2 * sl + 65] == dirdone[2 * sl + 65]);
            assert(le16_at(fb, 2 * sl + 64) == 2 * (utf16("Root Entry"@).len() + 1));
            lemma_entry_at_stable(dirdone, fb, 2 * sl as int, version);
            assert(entry_at(fb, 2 * sl as int, version) =~= root_entry_model(version));
        }
        let mut fat: Vec<u32> = Vec::new();
        fat.push(FAT_SECTOR);
        fat.push(END_OF_CHAIN);
        let mut difat: Vec<u32> = Vec::new();
        difat.push(0);
        let mut directory: Vec<DirEntry> = Vec::new();
        directory.push(root);
        let c = CompoundFile {
            inner: b,
            version,
            difat,
            fat,
            minifat: Vec::new(),
            cutoff: MINI_STREAM_CUTOFF,
            directory,
        };
        proof {
            assert(c@.fat =~= seq![FAT_SECTOR, END_OF_CHAIN]);
            assert(c@.difat =~= seq![0u32]);
            assert(c@.minifat =~= Seq::<u32>::empty());
            assert(c@.directory =~= seq![root_entry_model(version)]);
            assert(is_create_image(c@.bytes, version));
        }
        c
    }
}

/// The root entry of a freshly created container: no children, no
/// mini-stream yet.
pub open spec fn root_entry_model(v: Version) -> EntryModel {
    EntryModel {
        name: decoded_utf16(utf16("Root Entry"@)),
        name_units: utf16("Root Entry"@),
        obj_type: OBJ_TYPE_ROOT,
        color: 0,
        left: NO_STREAM,
        right: NO_STREAM,
        child: NO_STREAM,
        start_sector: END_OF_CHAIN,
        stream_len: 0,
        offset: 2 * v.spec_sector_len(),
    }
}

/// The container `create` builds: one FAT sector marking itself and the
/// directory sector, one DIFAT entry, an empty MiniFAT, a directory holding
/// just the root, and the byte image pinned byte for byte by
/// `is_create_image`.
pub open spec fn create_result(m: FileModel, v: Version) -> bool {
    &&& m.version == v
    &&& m.difat == seq![0u32]
    &&& m.fat == seq![FAT_SECTOR, END_OF_CHAIN]
    &&& m.minifat == Seq::<u32>::empty()
    &&& m.cutoff == MINI_STREAM_CUTOFF
    &&& m.directory == seq![root_entry_model(v)]
    &&& is_create_image(m.bytes, v)
}

/// Pins every byte of a freshly created container: the 512-byte header (its
/// fields, the first DIFAT entry naming sector 0, the rest of the DIFAT
/// free), zero padding up to the sector length, the single FAT sector, and
/// the directory sector holding the root entry and zeroed slots.
pub open spec fn is_create_image(b: Seq<u8>, v: Version) -> bool {
    let sl = v.spec_sector_len();
    &&& b.len() == 3 * sl
    &&& is_magic(b)
    &&& (forall|k: int| 8 <= k < 24 ==> b[k] == 0u8)
    &&& le16_at(b, 24) == 0x3e
    &&& le16_at(b, 26) == v.spec_number()
    &&& le16_at(b, 28) == 0xfffe
    &&& le16_at(b, 30) == v.spec_sector_shift()
    &&& le16_at(b, 32) == 6
    &&& (forall|k: int| 34 <= k < 40 ==> b[k] == 0u8)
    &&& le32_at(b, 40) == (if v == Version::V3 {
        0int
    } else {
        1int
    })
    &&& le32_at(b, 44) == 1
    &&& le32_at(b, 48) == 1
    &&& le32_at(b, 52) == 0
    &&& le32_at(b, 56) == MINI_STREAM_CUTOFF
    &&& le32_at(b, 60) == END_OF_CHAIN
    &&& le32_at(b, 64) == 0
    &&& le32_at(b, 68) == END_OF_CHAIN
    &&& le32_at(b, 72) == 0
    &&& word_at(b, 76, 0) == 0
    &&& (forall|k: int| 1 <= k < 109 ==> #[trigger] word_at(b, 76, k) == FREE_SECTOR)
    &&& (forall|k: int| HEADER_LEN <= k < sl ==> b[k] == 0u8)
    &&& word_at(b, sl, 0) == FAT_SECTOR
    &&& word_at(b, sl, 1) == END_OF_CHAIN
    &&& (forall|k: int| 2 <= k < sl / 4 ==> #[trigger] word_at(b, sl, k) == FREE_SECTOR)
    &&& entry_parse_ok(b, 2 * sl, v)
    &&& entry_at(b, 2 * sl, v) == root_entry_model(v)
    &&& (forall|k: int|
        0 <= k < 32 ==> #[trigger] unit_at(b, 2 * sl, k) == padded_unit(utf16("Root Entry"@), k))
    &&& le16_at(b, 2 * sl + 64) == 2 * (utf16("Root Entry"@).len() + 1)
    &&& (forall|k: int| 2 * sl + 80 <= k < 2 * sl + 116 ==> b[k] == 0u8)
    &&& (forall|k: int| 2 * sl + DIR_ENTRY_LEN <= k < 3 * sl ==> b[k] == 0u8)
}

/// Builds the root directory entry of a fresh container.
fn make_root_entry(offset: usize) -> (r: DirEntry)
    ensures
        r.wf(),
        r@ == (EntryModel { offset: offset as int, ..root_entry_model(Version::V3) }),
        r@.stream_len == 0,
{
    proof {
        reveal_strlit("Root Entry");
        lemma_utf16_bmp("Root Entry"@);
    }
    let units = encode_utf16_units("Root Entry");
    assert(units@.len() == 10);
    let name = utf16_lossy(&units);
    DirEntry {
        name,
        name_units: units,
        obj_type: OBJ_TYPE_ROOT,
        color: 0,
        left: NO_STREAM,
        right: NO_STREAM,
        child: NO_STREAM,
        start_sector: END_OF_CHAIN,
        stream_len: 0,
        offset,
    }
}

} // verus!
