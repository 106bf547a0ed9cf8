use cfb::{CfbError, CompoundFile, SeekFrom, Version};

fn le16(out: &mut Vec<u8>, x: u16) {
    out.push((x % 0x100) as u8);
    out.push((x / 0x100) as u8);
}

fn le32(out: &mut Vec<u8>, x: u32) {
    out.push((x % 0x100) as u8);
    out.push((x / 0x100 % 0x100) as u8);
    out.push((x / 0x10000 % 0x100) as u8);
    out.push((x / 0x1000000) as u8);
}

fn le64(out: &mut Vec<u8>, x: u64) {
    le32(out, (x % 0x100000000) as u32);
    le32(out, (x / 0x100000000) as u32);
}

const FAT_SECTOR: u32 = 0xfffffffd;
const END_OF_CHAIN: u32 = 0xfffffffe;
const FREE_SECTOR: u32 = 0xffffffff;
const NO_STREAM: u32 = 0xffffffff;

fn dir_entry(
    out: &mut Vec<u8>,
    name: &str,
    obj_type: u8,
    color: u8,
    left: u32,
    right: u32,
    child: u32,
    start: u32,
    len: u64,
) {
    let units: Vec<u16> = name.encode_utf16().collect();
    assert!(units.len() <= 31);
    for &u in &units {
        le16(out, u);
    }
    for _ in units.len()..32 {
        le16(out, 0);
    }
    le16(out, (units.len() as u16 + 1) * 2);
    out.push(obj_type);
    out.push(color);
    le32(out, left);
    le32(out, right);
    le32(out, child);
    for _ in 0..16 {
        out.push(0);
    }
    le32(out, 0);
    le64(out, 0);
    le64(out, 0);
    le32(out, start);
    le64(out, len);
}

/// A V3 image with a 4096-byte stream "big" in the main grid, a 5-byte
/// stream "small" in the mini-stream, and a storage "stor":
/// sector 0 FAT, 1 directory, 2..=9 "big", 10 mini-stream, 11 MiniFAT.
fn build_image() -> (Vec<u8>, Vec<u8>) {
    let mut b: Vec<u8> = Vec::new();
    // header
    b.extend_from_slice(&[0xd0, 0xcf, 0x11, 0xe0, 0xa1, 0xb1, 0x1a, 0xe1]);
    for _ in 0..16 {
        b.push(0);
    }
    le16(&mut b, 0x3e);
    le16(&mut b, 3);
    le16(&mut b, 0xfffe);
    le16(&mut b, 9);
    le16(&mut b, 6);
    for _ in 0..6 {
        b.push(0);
    }
    le32(&mut b, 0); // num dir sectors (V3: zero)
    le32(&mut b, 1); // num FAT sectors
    le32(&mut b, 1); // first dir sector
    le32(&mut b, 0); // txn signature
    le32(&mut b, 4096); // mini stream cutoff
    le32(&mut b, 11); // first MiniFAT sector
    le32(&mut b, 1); // num MiniFAT sectors
    le32(&mut b, END_OF_CHAIN); // first DIFAT sector
    le32(&mut b, 0); // num DIFAT sectors
    le32(&mut b, 0); // DIFAT[0]
    for _ in 1..109 {
        le32(&mut b, FREE_SECTOR);
    }
    assert_eq!(b.len(), 512);
    // sector 0: FAT
    let fat: Vec<u32> = vec![
        FAT_SECTOR,
        END_OF_CHAIN, // directory
        3,
        4,
        5,
        6,
        7,
        8,
        9,
        END_OF_CHAIN, // "big": sectors 2..=9
        END_OF_CHAIN, // mini-stream sector
        END_OF_CHAIN, // MiniFAT sector
    ];
    for &e in &fat {
        le32(&mut b, e);
    }
    for _ in fat.len()..128 {
        le32(&mut b, FREE_SECTOR);
    }
    // sector 1: directory
    dir_entry(&mut b, "Root Entry", 5, 1, NO_STREAM, NO_STREAM, 1, 10, 512);
    dir_entry(&mut b, "big", 2, 1, NO_STREAM, 2, NO_STREAM, 2, 4096);
    dir_entry(&mut b, "small", 2, 1, 3, NO_STREAM, NO_STREAM, 0, 5);
    dir_entry(&mut b, "stor", 1, 0, NO_STREAM, NO_STREAM, NO_STREAM, 0, 0);
    assert_eq!(b.len(), 512 * 3);
    // sectors 2..=9: "big" data
    let mut big: Vec<u8> = Vec::new();
    for i in 0..4096usize {
        big.push((i % 251) as u8);
    }
    b.extend_from_slice(&big);
    // sector 10: the mini-stream, holding "small" in mini-sector 0
    let mut mini: Vec<u8> = Vec::new();
    mini.extend_from_slice(b"world");
    while mini.len() < 512 {
        mini.push(0);
    }
    b.extend_from_slice(&mini);
    // sector 11: MiniFAT
    le32(&mut b, END_OF_CHAIN);
    for _ in 1..128 {
        le32(&mut b, FREE_SECTOR);
    }
    assert_eq!(b.len(), 512 * 13);
    (b, big)
}

#[test]
fn write_and_read_empty_compound_file() {
    let version = Version::V3;

    let comp = CompoundFile::create_with_version(Vec::new(), Version::V3);
    assert_eq!(comp.version(), version);
    {
        let root_storage = comp.root_storage();
        assert_eq!(root_storage.name(), "Root Entry");
    }

    let buffer = comp.into_inner();
    assert_eq!(buffer.len(), 3 * version.sector_len());
    let comp = CompoundFile::open(buffer).expect("open");
    assert_eq!(comp.version(), version);
    {
        let root_storage = comp.root_storage();
        assert_eq!(root_storage.name(), "Root Entry");
    }
}

#[test]
fn empty_v3_container_layout() {
    let comp = CompoundFile::create_with_version(Vec::new(), Version::V3);
    let b = comp.into_inner();
    assert_eq!(b.len(), 1536);
    assert_eq!(&b[0..8], &[0xd0, 0xcf, 0x11, 0xe0, 0xa1, 0xb1, 0x1a, 0xe1]);
    assert_eq!(&b[28..30], &[0xfe, 0xff]); // byte order mark
    assert_eq!(&b[30..32], &[0x09, 0x00]); // sector shift 9
    let comp = CompoundFile::open(b).expect("open");
    let root = comp.root_storage();
    assert_eq!(root.name(), "Root Entry");
    assert!(root.is_root());
    assert_eq!(root.path(), "/");
    // the child listing is empty
    match root.open_stream(&comp, "anything") {
        Err(CfbError::NotFound) => {}
        Err(e) => panic!("unexpected error {:?}", e),
        Ok(_) => panic!("expected not-found"),
    }
}

#[test]
fn empty_v4_container_layout() {
    let comp = CompoundFile::create(Vec::new());
    assert_eq!(comp.version(), Version::V4);
    let b = comp.into_inner();
    assert_eq!(b.len(), 12288);
    assert_eq!(&b[30..32], &[0x0c, 0x00]); // sector shift 12
    assert!(CompoundFile::open(b).is_ok());
}

#[test]
fn bad_magic_is_rejected() {
    let buffer = vec![0u8; 1536];
    let copy = buffer.clone();
    match CompoundFile::open(buffer) {
        Err(CfbError::BadFormat) => {}
        _ => panic!("expected bad-format"),
    }
    // opening consumed its own copy; the caller's image is untouched
    assert_eq!(copy, vec![0u8; 1536]);
}

#[test]
fn unsupported_version_is_rejected() {
    let comp = CompoundFile::create_with_version(Vec::new(), Version::V3);
    let mut b = comp.into_inner();
    b[26] = 5; // version tag neither 3 nor 4
    match CompoundFile::open(b) {
        Err(CfbError::BadFormat) => {}
        _ => panic!("expected bad-format"),
    }
    assert_eq!(Version::from_number(3), Some(Version::V3));
    assert_eq!(Version::from_number(4), Some(Version::V4));
    assert_eq!(Version::from_number(5), None);
}

#[test]
fn read_main_grid_stream() {
    let (image, big) = build_image();
    let comp = CompoundFile::open(image).expect("open");
    let root = comp.root_storage();
    let mut s = root.open_stream(&comp, "big").expect("open_stream");
    assert_eq!(s.len(), 4096);
    let mut out: Vec<u8> = Vec::new();
    loop {
        let part = s.read(&comp, 100).expect("read");
        if part.is_empty() {
            break;
        }
        out.extend_from_slice(&part);
    }
    assert_eq!(out, big);
    // at end of stream every further read returns no bytes
    assert!(s.read(&comp, 1).expect("read at end").is_empty());
}

#[test]
fn read_mini_stream() {
    let (image, _) = build_image();
    let comp = CompoundFile::open(image).expect("open");
    let root = comp.root_storage();
    let mut s = root.open_stream(&comp, "small").expect("open_stream");
    assert_eq!(s.len(), 5);
    let part = s.read(&comp, 64).expect("read");
    assert_eq!(part, b"world");
    assert!(s.read(&comp, 64).expect("read at end").is_empty());
}

#[test]
fn seek_returns_previous_offset() {
    let (image, big) = build_image();
    let comp = CompoundFile::open(image).expect("open");
    let root = comp.root_storage();
    let mut s = root.open_stream(&comp, "big").expect("open_stream");
    assert_eq!(s.seek(&comp, SeekFrom::Start(1000)).expect("seek"), 0);
    // the seek law: Start(p) then Current(0) hands back p
    assert_eq!(s.seek(&comp, SeekFrom::Current(0)).expect("seek"), 1000);
    let part = s.read(&comp, 8).expect("read");
    assert_eq!(part, big[1000..1008].to_vec());
    assert_eq!(s.seek(&comp, SeekFrom::End(-1)).expect("seek"), 1008);
    let part = s.read(&comp, 8).expect("read");
    assert_eq!(part, vec![big[4095]]);
    // out of bounds both ways is an invalid argument
    assert_eq!(s.seek(&comp, SeekFrom::Start(4097)), Err(CfbError::InvalidArgument));
    assert_eq!(s.seek(&comp, SeekFrom::Current(-50000)), Err(CfbError::InvalidArgument));
}

#[test]
fn open_storage_entry_as_stream_is_wrong_kind() {
    let (image, _) = build_image();
    let comp = CompoundFile::open(image).expect("open");
    let root = comp.root_storage();
    match root.open_stream(&comp, "stor") {
        Err(CfbError::WrongKind) => {}
        _ => panic!("expected wrong-kind"),
    }
    match root.open_stream(&comp, "missing") {
        Err(CfbError::NotFound) => {}
        _ => panic!("expected not-found"),
    }
    let long_name: String = std::iter::repeat('x').take(32).collect();
    match root.open_stream(&comp, &long_name) {
        Err(CfbError::InvalidArgument) => {}
        _ => panic!("expected invalid-argument"),
    }
}

#[test]
fn root_cannot_be_renamed() {
    let (image, _) = build_image();
    let mut comp = CompoundFile::open(image).expect("open");
    let mut root = comp.root_storage();
    assert_eq!(root.set_name(&mut comp, "other"), Err(CfbError::InvalidArgument));
    assert_eq!(root.name(), "Root Entry");
    assert!(root.parent(&comp).is_none());
}

#[test]
fn truncated_image_is_rejected() {
    let comp = CompoundFile::create_with_version(Vec::new(), Version::V3);
    let mut b = comp.into_inner();
    b.truncate(600); // cuts into the FAT sector
    match CompoundFile::open(b) {
        Err(CfbError::BadFormat) => {}
        _ => panic!("expected bad-format"),
    }
}

#[test]
fn error_descriptions() {
    assert_eq!(CfbError::BadFormat.describe(), "malformed compound file");
    assert_eq!(CfbError::InvalidArgument.describe(), "invalid argument");
    assert_eq!(CfbError::NotFound.describe(), "not found");
    assert_eq!(CfbError::WrongKind.describe(), "wrong kind of directory entry");
}

#[test]
fn open_storage_and_rename() {
    let (image, _) = build_image();
    let mut comp = CompoundFile::open(image).expect("open");
    let root = comp.root_storage();
    let mut st = root.open_storage(&comp, "stor").expect("open_storage");
    assert_eq!(st.name(), "stor");
    assert_eq!(st.path(), "/stor");
    assert!(!st.is_root());
    // a stream child is the wrong kind for open_storage
    match root.open_storage(&comp, "big") {
        Err(CfbError::WrongKind) => {}
        _ => panic!("expected wrong-kind"),
    }
    // renaming persists: the entry is found under its new name after reopen
    st.set_name(&mut comp, "stuv").expect("set_name");
    assert_eq!(st.name(), "stuv");
    let bytes = comp.into_inner();
    let comp = CompoundFile::open(bytes).expect("reopen");
    let root = comp.root_storage();
    assert!(root.open_storage(&comp, "stuv").is_ok());
    match root.open_storage(&comp, "stor") {
        Err(CfbError::NotFound) => {}
        _ => panic!("expected not-found"),
    }
}

#[test]
fn rename_to_same_name_leaves_image_unchanged() {
    let (image, _) = build_image();
    let before = image.clone();
    let mut comp = CompoundFile::open(image).expect("open");
    let root = comp.root_storage();
    let mut st = root.open_storage(&comp, "stor").expect("open_storage");
    st.set_name(&mut comp, "stor").expect("set_name");
    assert_eq!(comp.into_inner(), before);
}

#[test]
fn rename_rejects_long_names() {
    let (image, _) = build_image();
    let mut comp = CompoundFile::open(image).expect("open");
    let root = comp.root_storage();
    let mut st = root.open_storage(&comp, "stor").expect("open_storage");
    let long_name: String = std::iter::repeat('y').take(32).collect();
    assert_eq!(st.set_name(&mut comp, &long_name), Err(CfbError::InvalidArgument));
    assert_eq!(st.name(), "stor");
    // 31 code units is a valid length, but here the entry sits left of
    // "small", where so long a name would break the sibling ordering
    let edge_name: String = std::iter::repeat('y').take(31).collect();
    assert_eq!(st.set_name(&mut comp, &edge_name), Err(CfbError::InvalidArgument));
    // a name of the same length keeps the entry's place and is accepted
    st.set_name(&mut comp, "qqqq").expect("set_name");
    assert_eq!(st.name(), "qqqq");
}

#[test]
fn rename_to_sibling_name_is_rejected() {
    let (image, _) = build_image();
    let before = image.clone();
    let mut comp = CompoundFile::open(image).expect("open");
    let root = comp.root_storage();
    let mut st = root.open_storage(&comp, "stor").expect("open_storage");
    // an exact duplicate of a sibling's name
    assert_eq!(st.set_name(&mut comp, "big"), Err(CfbError::InvalidArgument));
    // a duplicate under the case-insensitive ordering
    assert_eq!(st.set_name(&mut comp, "BIG"), Err(CfbError::InvalidArgument));
    assert_eq!(st.set_name(&mut comp, "Small"), Err(CfbError::InvalidArgument));
    // a name that would move the entry to the other side of an ancestor
    assert_eq!(st.set_name(&mut comp, "ab"), Err(CfbError::InvalidArgument));
    assert_eq!(st.name(), "stor");
    // the container is untouched and both streams stay readable
    let root = comp.root_storage();
    let mut s = root.open_stream(&comp, "small").expect("open_stream");
    assert_eq!(s.read(&comp, 64).expect("read"), b"world");
    assert!(root.open_stream(&comp, "big").is_ok());
    assert_eq!(comp.into_inner(), before);
}

#[test]
fn parent_is_one_level_up() {
    let (image, _) = build_image();
    let comp = CompoundFile::open(image).expect("open");
    let root = comp.root_storage();
    let st = root.open_storage(&comp, "stor").expect("open_storage");
    assert_eq!(st.path(), "/stor");
    let p = st.parent(&comp).expect("parent");
    assert!(p.is_root());
    assert_eq!(p.path(), "/");
    assert_eq!(p.name(), "Root Entry");
    assert!(p.parent(&comp).is_none());
}

#[test]
fn wrong_mini_sector_shift_is_rejected() {
    let comp = CompoundFile::create_with_version(Vec::new(), Version::V3);
    let mut b = comp.into_inner();
    b[32] = 7; // mini-sector shift must be 6
    match CompoundFile::open(b) {
        Err(CfbError::BadFormat) => {}
        _ => panic!("expected bad-format"),
    }
}

#[test]
fn empty_name_is_rejected() {
    let (image, _) = build_image();
    let comp = CompoundFile::open(image).expect("open");
    let root = comp.root_storage();
    match root.open_storage(&comp, "") {
        Err(CfbError::InvalidArgument) => {}
        _ => panic!("expected invalid-argument"),
    }
}
