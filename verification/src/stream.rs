//! Stream entries: seekable byte cursors over a directory entry's sector
//! chain. A stream whose recorded length is under the mini-stream cutoff
//! lives in 64-byte mini-sectors inside the mini-stream (the chain owned by
//! the root entry) and is chained through the MiniFAT; any other stream
//! lives in whole sectors chained through the FAT.

use vstd::prelude::*;

use vstd::arithmetic::div_mod::{lemma_fundamental_div_mod, lemma_fundamental_div_mod_converse};

use crate::chains::{check_sector_in_bounds, sector_in_bounds, sector_offset};
use crate::consts::{MAX_REGULAR_SECTOR, MINI_SECTOR_LEN, OBJ_TYPE_STREAM};
use crate::container::{CompoundFile, FileModel};
use crate::error::CfbError;
use crate::names::{encode_utf16_units, utf16, NAME_MAX_UNITS};
use crate::storage::{find_entry, lemma_spec_find_in_range, spec_find, Storage};

verus! {

/// Where a seek starts from.
pub enum SeekFrom {
    /// An absolute position.
    Start(u64),
    /// Relative to the end of the stream.
    End(i64),
    /// Relative to the current position.
    Current(i64),
}

/// The allocation table a stream is chained through.
pub open spec fn table_of(m: FileModel, mini: bool) -> Seq<u32> {
    if mini {
        m.minifat
    } else {
        m.fat
    }
}

/// The granule a stream is stored in: a mini-sector or a whole sector.
pub open spec fn gran_of(m: FileModel, mini: bool) -> int {
    if mini {
        MINI_SECTOR_LEN as int
    } else {
        m.version.spec_sector_len()
    }
}

/// The sector reached from `s` after `k` steps through the table, or `None`
/// when a reserved encoding or an index past the table stands in the way.
pub open spec fn nth_in_chain(table: Seq<u32>, s: u32, k: int) -> Option<u32>
    decreases k,
{
    if k <= 0 {
        Some(s)
    } else if s > MAX_REGULAR_SECTOR || s >= table.len() {
        None
    } else {
        nth_in_chain(table, table[s as int], k - 1)
    }
}

/// Follows `steps` links of a chain from `start`.
pub fn walk_chain(comp: &CompoundFile, mini: bool, start: u32, steps: usize) -> (r: Result<
    u32,
    CfbError,
>)
    ensures
        match r {
            Ok(c) => nth_in_chain(table_of(comp@, mini), start, steps as int) == Some(c),
            Err(e) => nth_in_chain(table_of(comp@, mini), start, steps as int) is None && e
                == CfbError::BadFormat,
        },
{
    let mut cur = start;
    let mut i: usize = 0;
    while i < steps
        invariant
            i <= steps,
            nth_in_chain(table_of(comp@, mini), start, steps as int) == nth_in_chain(
                table_of(comp@, mini),
                cur,
                steps - i,
            ),
        decreases steps - i,
    {
        if cur > MAX_REGULAR_SECTOR {
            return Err(CfbError::BadFormat);
        }
        let len = if mini {
            comp.minifat_len()
        } else {
            comp.fat_len()
        };
        if cur as usize >= len {
            return Err(CfbError::BadFormat);
        }
        cur = if mini {
            comp.minifat_get(cur as usize)
        } else {
            comp.fat_get(cur as usize)
        };
        i = i + 1;
    }
    Ok(cur)
}

/// How many mini-sectors one whole sector holds.
pub open spec fn mini_per_sector(m: FileModel) -> int {
    m.version.spec_sector_len() / (MINI_SECTOR_LEN as int)
}

/// The whole sector of the mini-stream that holds mini-sector `msec`: found
/// by walking the root entry's FAT chain.
pub open spec fn mini_home(m: FileModel, msec: u32) -> Option<u32> {
    nth_in_chain(m.fat, m.directory[0].start_sector, msec as int / mini_per_sector(m))
}

/// Whether byte `ows` of granule `sec` lies at a readable place in the
/// image.
pub open spec fn locatable(m: FileModel, mini: bool, sec: u32, ows: int) -> bool {
    if mini {
        &&& sec <= MAX_REGULAR_SECTOR
        &&& mini_home(m, sec) is Some
        &&& sector_in_bounds(m.bytes.len() as int, m.version, mini_home(m, sec)->Some_0)
    } else {
        sector_in_bounds(m.bytes.len() as int, m.version, sec)
    }
}

/// The byte offset in the image of byte `ows` of granule `sec`, assuming
/// `locatable`.
pub open spec fn spec_locate(m: FileModel, mini: bool, sec: u32, ows: int) -> int {
    if mini {
        sector_offset(m.version, mini_home(m, sec)->Some_0 as int) + (sec as int % mini_per_sector(
            m,
        )) * (MINI_SECTOR_LEN as int) + ows
    } else {
        sector_offset(m.version, sec as int) + ows
    }
}

/// Finds the image offset of byte `ows` of granule `sec`.
fn locate(comp: &CompoundFile, mini: bool, sec: u32, ows: usize) -> (r: Result<usize, CfbError>)
    requires
        comp.wf(),
        0 <= ows < gran_of(comp@, mini),
    ensures
        match r {
            Ok(p) => {
                &&& locatable(comp@, mini, sec, ows as int)
                &&& p == spec_locate(comp@, mini, sec, ows as int)
                &&& p + (gran_of(comp@, mini) - ows) <= comp@.bytes.len()
            },
            Err(e) => !locatable(comp@, mini, sec, ows as int) && e == CfbError::BadFormat,
        },
{
    let blen = comp.image_len();
    let v = comp.version();
    let sl = v.sector_len();
    if !mini {
        if !check_sector_in_bounds(blen, v, sec) {
            return Err(CfbError::BadFormat);
        }
        return Ok(sl * (1 + sec as usize) + ows);
    }
    if sec > MAX_REGULAR_SECTOR {
        return Err(CfbError::BadFormat);
    }
    let q = sl / MINI_SECTOR_LEN;
    let steps = (sec as usize) / q;
    let t = (sec as usize) % q;
    let root_start = comp.entry_start_sector(0);
    let home = match walk_chain(comp, false, root_start, steps) {
        Ok(h) => h,
        Err(e) => {
            return Err(e);
        },
    };
    if !check_sector_in_bounds(blen, v, home) {
        return Err(CfbError::BadFormat);
    }
    assert(t * MINI_SECTOR_LEN + MINI_SECTOR_LEN <= sl);
    Ok(sl * (1 + home as usize) + t * MINI_SECTOR_LEN + ows)
}

/// The byte a stream that starts at `start` holds at logical offset `i`,
/// assuming the chain and the image are sound there.
pub open spec fn stream_byte(m: FileModel, mini: bool, start: u32, i: int) -> u8 {
    let g = gran_of(m, mini);
    let sec = nth_in_chain(table_of(m, mini), start, i / g)->Some_0;
    m.bytes[spec_locate(m, mini, sec, i % g)]
}

/// A stream entry in a compound file, much like a filesystem file: a cursor
/// over the entry's chain.
pub struct Stream {
    /// The entry id of the stream's directory entry.
    pub stream_id: u32,
    /// The stream's length in bytes, as recorded in its entry.
    pub total_len: usize,
    /// The cursor's logical offset.
    pub offset_from_start: usize,
    /// The cursor's offset inside the current granule.
    pub offset_within_sector: usize,
    /// The first granule of the stream's chain.
    pub start_sector: u32,
    /// The granule the cursor stands in.
    pub current_sector: u32,
    /// Whether the stream lives in the mini-stream.
    pub mini: bool,
}

impl Stream {
    /// The cursor agrees with the container: it stands for a directory entry
    /// whose chain it follows, its grid is the one the recorded length
    /// demands, and its position fields are consistent.
    pub open spec fn stream_wf(&self, m: FileModel) -> bool {
        let g = gran_of(m, self.mini);
        &&& 0 <= (self.stream_id as int) < m.directory.len()
        &&& m.directory[self.stream_id as int].start_sector == self.start_sector
        &&& m.directory[self.stream_id as int].stream_len == self.total_len as u64
        &&& self.mini == ((self.total_len as int) < m.cutoff as int)
        &&& self.offset_from_start <= self.total_len
        &&& self.offset_within_sector as int == (self.offset_from_start as int) % g
        &&& nth_in_chain(table_of(m, self.mini), self.start_sector, (self.offset_from_start as int)
            / g) == Some(self.current_sector)
    }

    /// Returns the current length of the stream, in bytes.
    pub fn len(&self) -> (r: usize)
        ensures
            r == self.total_len,
    {
        self.total_len
    }
}

/// Where a seek lands: an absolute position, or one relative to the end or
/// to the cursor.
pub open spec fn resolve_seek(pos: SeekFrom, cur: int, len: int) -> int {
    match pos {
        SeekFrom::Start(d) => d as int,
        SeekFrom::End(d) => len + d as int,
        SeekFrom::Current(d) => cur + d as int,
    }
}

/// What a seek does: a position outside `0..=len` is rejected as an invalid
/// argument; a chain that cannot be walked that far is malformed; otherwise
/// the cursor moves there and the previous logical offset is handed back.
pub open spec fn seek_result(s: Stream, m: FileModel, pos: SeekFrom) -> Result<
    (Stream, u64),
    CfbError,
> {
    let t = resolve_seek(pos, s.offset_from_start as int, s.total_len as int);
    let g = gran_of(m, s.mini);
    if t < 0 || t > s.total_len {
        Err(CfbError::InvalidArgument)
    } else {
        match nth_in_chain(table_of(m, s.mini), s.start_sector, t / g) {
            None => Err(CfbError::BadFormat),
            Some(c) => Ok(
                (
                    Stream {
                        offset_from_start: t as usize,
                        offset_within_sector: (t % g) as usize,
                        current_sector: c,
                        ..s
                    },
                    s.offset_from_start as u64,
                ),
            ),
        }
    }
}

impl Stream {
    /// Moves the cursor and returns the previous logical offset.
    pub fn seek(&mut self, comp: &CompoundFile, pos: SeekFrom) -> (r: Result<u64, CfbError>)
        requires
            comp.wf(),
            old(self).stream_wf(comp@),
        ensures
            final(self).stream_wf(comp@),
            match r {
                Ok(p) => seek_result(*old(self), comp@, pos) == Ok::<(Stream, u64), CfbError>(
                    (*final(self), p),
                ),
                Err(e) => seek_result(*old(self), comp@, pos) == Err::<(Stream, u64), CfbError>(e)
                    && *final(self) == *old(self),
            },
    {
        let total = self.total_len;
        let t128: i128 = match pos {
            SeekFrom::Start(d) => d as i128,
            SeekFrom::End(d) => total as i128 + d as i128,
            SeekFrom::Current(d) => self.offset_from_start as i128 + d as i128,
        };
        if t128 < 0 || t128 > total as i128 {
            return Err(CfbError::InvalidArgument);
        }
        let t = t128 as usize;
        let g: usize = if self.mini {
            MINI_SECTOR_LEN
        } else {
            comp.version().sector_len()
        };
        let c = match walk_chain(comp, self.mini, self.start_sector, t / g) {
            Ok(c) => c,
            Err(e) => {
                return Err(e);
            },
        };
        let prev = self.offset_from_start;
        self.offset_from_start = t;
        self.offset_within_sector = t % g;
        self.current_sector = c;
        Ok(prev as u64)
    }
}

/// How many bytes one read call hands back: bounded by the caller's buffer,
/// by the end of the current granule, and by the end of the stream.
pub open spec fn spec_read_len(s: Stream, m: FileModel, max: int) -> int {
    let g = gran_of(m, s.mini);
    let in_gran = g - s.offset_within_sector;
    let remaining = s.total_len - s.offset_from_start;
    if max <= in_gran && max <= remaining {
        max
    } else if in_gran <= remaining {
        in_gran
    } else {
        remaining
    }
}

/// Whether one read call of `k` bytes can be served: the cursor's granule is
/// readable and the chain reaches the position after the read.
pub open spec fn read_ok(s: Stream, m: FileModel, k: int) -> bool {
    &&& locatable(m, s.mini, s.current_sector, s.offset_within_sector as int)
    &&& nth_in_chain(
        table_of(m, s.mini),
        s.start_sector,
        (s.offset_from_start + k) as int / gran_of(m, s.mini),
    ) is Some
}

impl Stream {
    /// Reads at most `max` bytes in one underlying access: up to the end of
    /// the current granule and the end of the stream. Zero bytes come back
    /// exactly at end of stream or for an empty buffer.
    pub fn read(&mut self, comp: &CompoundFile, max: usize) -> (r: Result<Vec<u8>, CfbError>)
        requires
            comp.wf(),
            old(self).stream_wf(comp@),
        ensures
            final(self).stream_wf(comp@),
            final(self).stream_id == old(self).stream_id,
            final(self).total_len == old(self).total_len,
            final(self).start_sector == old(self).start_sector,
            final(self).mini == old(self).mini,
            match r {
                Ok(bytes) => {
                    let k = spec_read_len(*old(self), comp@, max as int);
                    &&& bytes@.len() == k
                    &&& final(self).offset_from_start == old(self).offset_from_start + k
                    &&& (forall|j: int|
                        0 <= j < k ==> bytes@[j] == stream_byte(
                            comp@,
                            old(self).mini,
                            old(self).start_sector,
                            old(self).offset_from_start + j,
                        ))
                    &&& (k > 0 ==> read_ok(*old(self), comp@, k))
                },
                Err(e) => {
                    &&& e == CfbError::BadFormat
                    &&& *final(self) == *old(self)
                    &&& spec_read_len(*old(self), comp@, max as int) > 0
                    &&& !read_ok(*old(self), comp@, spec_read_len(*old(self), comp@, max as int))
                },
            },
    {
        let g: usize = if self.mini {
            MINI_SECTOR_LEN
        } else {
            comp.version().sector_len()
        };
        let remaining = self.total_len - self.offset_from_start;
        let in_gran = g - self.offset_within_sector;
        let mut k = max;
        if in_gran < k {
            k = in_gran;
        }
        if remaining < k {
            k = remaining;
        }
        if k == 0 {
            return Ok(Vec::new());
        }
        let newoff = self.offset_from_start + k;
        let cur2 = match walk_chain(comp, self.mini, self.start_sector, newoff / g) {
            Ok(c) => c,
            Err(e) => {
                return Err(e);
            },
        };
        let p = match locate(comp, self.mini, self.current_sector, self.offset_within_sector) {
            Ok(p) => p,
            Err(e) => {
                return Err(e);
            },
        };
        let bytes = comp.read_at(p, k);
        let ghost off0 = self.offset_from_start as int;
        let ghost ows0 = self.offset_within_sector as int;
        let ghost cur0 = self.current_sector;
        self.offset_from_start = newoff;
        self.offset_within_sector = newoff % g;
        self.current_sector = cur2;
        proof {
            let m = comp@;
            let gg = g as int;
            let q0 = off0 / gg;
            lemma_fundamental_div_mod(off0, gg);
            assert forall|j: int| 0 <= j < k implies bytes@[j] == stream_byte(
                m,
                self.mini,
                self.start_sector,
                off0 + j,
            ) by {
                lemma_fundamental_div_mod_converse(off0 + j, gg, q0, ows0 + j);
                assert(nth_in_chain(table_of(m, self.mini), self.start_sector, (off0 + j) / gg)
                    == Some(cur0));
                assert(spec_locate(m, self.mini, cur0, ows0 + j) == p + j);
                assert(bytes@[j] == m.bytes[p + j]);
            }
        }
        Ok(bytes)
    }
}

impl Storage {
    /// Opens the stream with the given name among this storage's children.
    /// A name longer than 31 UTF-16 code units is an invalid argument; a
    /// missing name is not-found; a child of another kind is the wrong kind;
    /// a stream whose recorded length cannot be held in memory, or a
    /// corrupt sibling tree, is malformed.
    pub fn open_stream(&self, comp: &CompoundFile, name: &str) -> (r: Result<Stream, CfbError>)
        requires
            comp.wf(),
            self.attached(comp@),
        ensures
            match r {
                Ok(s) => {
                    &&& utf16(name@).len() <= NAME_MAX_UNITS
                    &&& spec_find(
                        comp@.directory,
                        comp@.directory[self.stream_id as int].child,
                        utf16(name@),
                        comp@.directory.len() as int,
                    ) == Ok::<u32, CfbError>(s.stream_id)
                    &&& comp@.directory[s.stream_id as int].obj_type == OBJ_TYPE_STREAM
                    &&& s.stream_wf(comp@)
                    &&& s.offset_from_start == 0
                    &&& s.total_len as u64 == comp@.directory[s.stream_id as int].stream_len
                },
                Err(e) => {
                    if utf16(name@).len() > NAME_MAX_UNITS {
                        e == CfbError::InvalidArgument
                    } else {
                        match spec_find(
                            comp@.directory,
                            comp@.directory[self.stream_id as int].child,
                            utf16(name@),
                            comp@.directory.len() as int,
                        ) {
                            Err(fe) => e == fe,
                            Ok(id) => (comp@.directory[id as int].obj_type != OBJ_TYPE_STREAM && e
                                == CfbError::WrongKind) || (comp@.directory[id as int].obj_type
                                == OBJ_TYPE_STREAM && comp@.directory[id as int].stream_len > (
                            usize::MAX as u64) && e == CfbError::BadFormat),
                        }
                    }
                },
            },
    {
        let units = encode_utf16_units(name);
        if units.len() > NAME_MAX_UNITS {
            return Err(CfbError::InvalidArgument);
        }
        let child = comp.entry_child(self.stream_id as usize);
        let fuel = comp.entry_count();
        let id = match find_entry(comp, child, &units, fuel) {
            Ok(id) => id,
            Err(e) => {
                return Err(e);
            },
        };
        proof {
            lemma_spec_find_in_range(comp@.directory, child, units@, fuel as int);
        }
        let obj = comp.entry_obj_type(id as usize);
        if obj != OBJ_TYPE_STREAM {
            return Err(CfbError::WrongKind);
        }
        let slen = comp.entry_stream_len(id as usize);
        if slen > usize::MAX as u64 {
            return Err(CfbError::BadFormat);
        }
        let total = slen as usize;
        let mini = slen < comp.cutoff() as u64;
        let start = comp.entry_start_sector(id as usize);
        Ok(
            Stream {
                stream_id: id,
                total_len: total,
                offset_from_start: 0,
                offset_within_sector: 0,
                start_sector: start,
                current_sector: start,
                mini,
            },
        )
    }
}

} // verus!
