//! Directory entry names.
//!
//! On disk a name is a NUL-terminated UTF-16 string of at most 31 code
//! units. The container compares names by code units: first by length, then
//! case-insensitively, upper-casing each unit by the plain ASCII rule.

use vstd::prelude::*;

verus! {

/// The most UTF-16 code units a name may have, not counting the terminator.
pub const NAME_MAX_UNITS: usize = 31;

/// The UTF-16 code units of one character: one unit for the basic plane,
/// a surrogate pair above it.
pub open spec fn utf16_char(c: char) -> Seq<u16> {
    if (c as int) < 0x10000 {
        seq![(c as u32) as u16]
    } else {
        seq![
            (0xD800 + ((c as int) - 0x10000) / 0x400) as u16,
            (0xDC00 + ((c as int) - 0x10000) % 0x400) as u16,
        ]
    }
}

/// The UTF-16 code units of a string.
pub open spec fn utf16(s: Seq<char>) -> Seq<u16>
    decreases s.len(),
{
    if s.len() == 0 {
        Seq::empty()
    } else {
        utf16(s.drop_last()) + utf16_char(s.last())
    }
}

/// Encoding one more character appends its units.
pub proof fn lemma_utf16_take_step(s: Seq<char>, i: int)
    requires
        0 <= i < s.len(),
    ensures
        utf16(s.take(i + 1)) == utf16(s.take(i)) + utf16_char(s[i]),
{
    let t = s.take(i + 1);
    assert(t.drop_last() =~= s.take(i));
    assert(t.last() == s[i]);
}

/// A string of basic-plane characters encodes unit for unit.
pub proof fn lemma_utf16_bmp(s: Seq<char>)
    requires
        forall|i: int| 0 <= i < s.len() ==> (s[i] as int) < 0x10000,
    ensures
        utf16(s) =~= Seq::new(s.len(), |i: int| (s[i] as u32) as u16),
    decreases s.len(),
{
    if s.len() > 0 {
        lemma_utf16_bmp(s.drop_last());
    }
}

/// Encodes a string into UTF-16 code units.
pub fn encode_utf16_units(s: &str) -> (r: Vec<u16>)
    ensures
        r@ == utf16(s@),
{
    let n = s.unicode_len();
    let mut r: Vec<u16> = Vec::new();
    let mut i: usize = 0;
    while i < n
        invariant
            i <= n,
            n == s@.len(),
            r@ == utf16(s@.take(i as int)),
        decreases n - i,
    {
        let c = s.get_char(i);
        let u = c as u32;
        if u < 0x10000 {
            r.push(u as u16);
        } else {
            r.push((0xD800 + (u - 0x10000) / 0x400) as u16);
            r.push((0xDC00 + (u - 0x10000) % 0x400) as u16);
        }
        proof {
            lemma_utf16_take_step(s@, i as int);
        }
        i = i + 1;
    }
    assert(s@.take(n as int) =~= s@);
    r
}

/// A string and its UTF-16 encoding are empty together.
pub proof fn lemma_utf16_empty(s: Seq<char>)
    ensures
        (utf16(s).len() == 0) <==> (s.len() == 0),
{
    if s.len() > 0 {
        assert(utf16_char(s.last()).len() >= 1);
    }
}

/// What `String::from_utf16_lossy` returns for the given code units.
pub uninterp spec fn decoded_utf16(units: Seq<u16>) -> Seq<char>;

/// Relies on `String::from_utf16_lossy`: the result depends on the code
/// units alone; a unit below the surrogate range decodes to the basic-plane
/// character with that scalar value; and decoding inverts encoding — units
/// that are the UTF-16 encoding of a string decode back to that string,
/// surrogate pairs included.
#[verifier::external_body]
pub fn utf16_lossy(units: &Vec<u16>) -> (r: String)
    ensures
        r@ == decoded_utf16(units@),
        (forall|i: int| 0 <= i < units@.len() ==> units@[i] < 0xD800) ==> (r@.len()
            == units@.len() && forall|i: int|
            0 <= i < units@.len() ==> (r@[i] as u32) == units@[i]),
        forall|s: Seq<char>| units@ == #[trigger] utf16(s) ==> r@ == s,
{
    String::from_utf16_lossy(units)
}

/// Upper-cases one code unit by the plain ASCII rule.
pub open spec fn unit_upper(u: u16) -> u16 {
    if 0x61 <= u <= 0x7A {
        (u - 0x20) as u16
    } else {
        u
    }
}

/// Compares equal-length names unit for unit after ASCII upper-casing, from
/// position `i` on: negative, zero or positive as the first name comes
/// first, the names match, or the first name comes last.
pub open spec fn ord_units(a: Seq<u16>, b: Seq<u16>, i: int) -> int
    decreases a.len() - i,
{
    if i < 0 || i >= a.len() || i >= b.len() {
        0
    } else if unit_upper(a[i]) < unit_upper(b[i]) {
        -1
    } else if unit_upper(a[i]) > unit_upper(b[i]) {
        1
    } else {
        ord_units(a, b, i + 1)
    }
}

/// The container's name ordering: a shorter name comes first; names of one
/// length are compared case-insensitively unit for unit.
pub open spec fn name_ord(a: Seq<u16>, b: Seq<u16>) -> int {
    if a.len() < b.len() {
        -1
    } else if a.len() > b.len() {
        1
    } else {
        ord_units(a, b, 0)
    }
}

/// Decides the container's name ordering.
pub fn name_cmp(a: &Vec<u16>, b: &Vec<u16>) -> (r: i8)
    ensures
        r as int == name_ord(a@, b@),
        -1 <= r <= 1,
{
    if a.len() < b.len() {
        return -1;
    }
    if a.len() > b.len() {
        return 1;
    }
    let n = a.len();
    let mut i: usize = 0;
    while i < n
        invariant
            i <= n,
            n == a@.len() == b@.len(),
            ord_units(a@, b@, 0) == ord_units(a@, b@, i as int),
        decreases n - i,
    {
        let ua = a[i];
        let ub = b[i];
        let ca = if 0x61 <= ua && ua <= 0x7A {
            ua - 0x20
        } else {
            ua
        };
        let cb = if 0x61 <= ub && ub <= 0x7A {
            ub - 0x20
        } else {
            ub
        };
        if ca < cb {
            return -1;
        }
        if ca > cb {
            return 1;
        }
        i = i + 1;
    }
    0
}

} // verus!
