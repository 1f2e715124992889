//! Byte-string utilities shared by the protocol codec and the tracking
//! engine: ASCII literals as byte sequences, uppercase hex rendering, and
//! substring/suffix searches over byte vectors.

use vstd::prelude::*;

verus! {

/// The bytes of an ASCII string, character by character.
pub open spec fn str_bytes(s: &str) -> Seq<u8> {
    Seq::new(s@.len(), |i: int| s@[i] as u8)
}

/// Materialize an ASCII literal as a byte vector.
pub fn ascii_bytes(s: &str) -> (r: Vec<u8>)
    requires
        s.is_ascii(),
    ensures
        r@ == str_bytes(s),
{
    broadcast use vstd::string::is_ascii_spec_bytes;

    let r = s.as_bytes_vec();
    proof {
        assert(r@ =~= str_bytes(s));
    }
    r
}

/// The uppercase hex digit for a value below 16.
pub open spec fn spec_hex_digit(v: u8) -> u8
    recommends
        v < 16,
{
    if v < 10 {
        (0x30 + v) as u8
    } else {
        (0x41 + (v - 10)) as u8
    }
}

pub fn hex_digit(v: u8) -> (r: u8)
    requires
        v < 16,
    ensures
        r == spec_hex_digit(v),
{
    if v < 10 {
        0x30 + v
    } else {
        0x41 + (v - 10)
    }
}

/// A 16-bit value as exactly four uppercase hex digits, most significant
/// first (the rendering of the ROM checksum fingerprint).
pub open spec fn spec_hex4(v: u16) -> Seq<u8> {
    seq![
        spec_hex_digit((v / 0x1000 % 0x10) as u8),
        spec_hex_digit((v / 0x100 % 0x10) as u8),
        spec_hex_digit((v / 0x10 % 0x10) as u8),
        spec_hex_digit((v % 0x10) as u8),
    ]
}

pub fn hex4(v: u16) -> (r: Vec<u8>)
    ensures
        r@ == spec_hex4(v),
{
    let mut r: Vec<u8> = Vec::new();
    r.push(hex_digit((v / 0x1000 % 0x10) as u8));
    r.push(hex_digit((v / 0x100 % 0x10) as u8));
    r.push(hex_digit((v / 0x10 % 0x10) as u8));
    r.push(hex_digit((v % 0x10) as u8));
    proof {
        assert(r@ =~= spec_hex4(v));
    }
    r
}

/// A 24-bit console address as exactly six uppercase hex digits, most
/// significant first.
pub open spec fn spec_hex6(v: u32) -> Seq<u8> {
    seq![
        spec_hex_digit((v / 0x100000 % 0x10) as u8),
        spec_hex_digit((v / 0x10000 % 0x10) as u8),
        spec_hex_digit((v / 0x1000 % 0x10) as u8),
        spec_hex_digit((v / 0x100 % 0x10) as u8),
        spec_hex_digit((v / 0x10 % 0x10) as u8),
        spec_hex_digit((v % 0x10) as u8),
    ]
}

pub fn hex6(v: u32) -> (r: Vec<u8>)
    requires
        v < 0x1000000,
    ensures
        r@ == spec_hex6(v),
{
    let mut r: Vec<u8> = Vec::new();
    r.push(hex_digit((v / 0x100000 % 0x10) as u8));
    r.push(hex_digit((v / 0x10000 % 0x10) as u8));
    r.push(hex_digit((v / 0x1000 % 0x10) as u8));
    r.push(hex_digit((v / 0x100 % 0x10) as u8));
    r.push(hex_digit((v / 0x10 % 0x10) as u8));
    r.push(hex_digit((v % 0x10) as u8));
    proof {
        assert(r@ =~= spec_hex6(v));
    }
    r
}

/// A value as uppercase hex with no leading zeroes (a single `0` for zero).
pub open spec fn spec_hex_min(v: u32) -> Seq<u8>
    decreases v,
{
    if v < 0x10 {
        seq![spec_hex_digit(v as u8)]
    } else {
        spec_hex_min(v / 0x10) + seq![spec_hex_digit((v % 0x10) as u8)]
    }
}

pub fn hex_min(v: u32) -> (r: Vec<u8>)
    ensures
        r@ == spec_hex_min(v),
    decreases v,
{
    if v < 0x10 {
        let mut r: Vec<u8> = Vec::new();
        r.push(hex_digit(v as u8));
        proof {
            assert(r@ =~= spec_hex_min(v));
        }
        r
    } else {
        let mut r = hex_min(v / 0x10);
        r.push(hex_digit((v % 0x10) as u8));
        proof {
            assert(r@ =~= spec_hex_min(v));
        }
        r
    }
}

/// The needle occurs in the haystack starting at index `i`.
pub open spec fn spec_match_at(h: Seq<u8>, n: Seq<u8>, i: int) -> bool {
    0 <= i && i + n.len() <= h.len() && h.subrange(i, i + n.len() as int) == n
}

/// The needle occurs somewhere in the haystack.
pub open spec fn spec_contains(h: Seq<u8>, n: Seq<u8>) -> bool {
    exists|i: int| spec_match_at(h, n, i)
}

/// Whether the needle occurs at the given start index.
fn match_at(h: &Vec<u8>, n: &Vec<u8>, i: usize) -> (r: bool)
    requires
        i + n@.len() <= h@.len(),
    ensures
        r == spec_match_at(h@, n@, i as int),
{
    let hl = h.len();
    let mut j: usize = 0;
    while j < n.len()
        invariant
            i + n@.len() <= h@.len(),
            h@.len() <= usize::MAX,
            0 <= j <= n@.len(),
            forall|k: int| 0 <= k < j ==> h@[i + k] == n@[k],
        decreases n@.len() - j,
    {
        if h[i + j] != n[j] {
            proof {
                assert(h@.subrange(i as int, i + n@.len() as int)[j as int] != n@[j as int]);
            }
            return false;
        }
        j += 1;
    }
    proof {
        assert(h@.subrange(i as int, i + n@.len() as int) =~= n@);
    }
    true
}

/// Substring search: does the needle occur anywhere in the haystack?
pub fn contains_bytes(h: &Vec<u8>, n: &Vec<u8>) -> (r: bool)
    ensures
        r == spec_contains(h@, n@),
{
    if n.len() > h.len() {
        proof {
            assert forall|i: int| !spec_match_at(h@, n@, i) by {}
        }
        return false;
    }
    if n.len() == 0 {
        proof {
            assert(h@.subrange(0, 0) =~= n@);
            assert(spec_match_at(h@, n@, 0));
        }
        return true;
    }
    let mut i: usize = 0;
    while i <= h.len() - n.len()
        invariant
            1 <= n@.len() <= h@.len(),
            h@.len() <= usize::MAX,
            0 <= i <= h@.len() - n@.len() + 1,
            forall|k: int| 0 <= k < i ==> !spec_match_at(h@, n@, k),
        decreases h@.len() - n@.len() + 1 - i,
    {
        if match_at(h, n, i) {
            return true;
        }
        i += 1;
    }
    proof {
        assert forall|k: int| !spec_match_at(h@, n@, k) by {
            if i <= k && k + n@.len() <= h@.len() {
                assert(false);
            }
        }
    }
    false
}

/// The needle is a suffix of the haystack.
pub open spec fn spec_ends_with(h: Seq<u8>, n: Seq<u8>) -> bool {
    n.len() <= h.len() && h.subrange(h.len() - n.len(), h.len() as int) == n
}

pub fn ends_with_bytes(h: &Vec<u8>, n: &Vec<u8>) -> (r: bool)
    ensures
        r == spec_ends_with(h@, n@),
{
    if n.len() > h.len() {
        return false;
    }
    match_at(h, n, h.len() - n.len())
}

/// The needle is a prefix of the haystack.
pub open spec fn spec_starts_with(h: Seq<u8>, n: Seq<u8>) -> bool {
    n.len() <= h.len() && h.subrange(0, n.len() as int) == n
}

pub fn starts_with_bytes(h: &Vec<u8>, n: &Vec<u8>) -> (r: bool)
    ensures
        r == spec_starts_with(h@, n@),
{
    if n.len() > h.len() {
        return false;
    }
    match_at(h, n, 0)
}

/// A path separator byte (forward or backward slash).
pub open spec fn spec_is_sep(b: u8) -> bool {
    b == 0x2F || b == 0x5C
}

/// Index just past the last path separator, or 0 when there is none: where
/// the file-name portion of a path starts.
pub open spec fn spec_file_name_start(p: Seq<u8>) -> int
    decreases p.len(),
{
    if p.len() == 0 {
        0
    } else if spec_is_sep(p.last()) {
        p.len() as int
    } else {
        spec_file_name_start(p.drop_last())
    }
}

proof fn lemma_file_name_start_bounds(p: Seq<u8>)
    ensures
        0 <= spec_file_name_start(p) <= p.len(),
        forall|k: int| spec_file_name_start(p) <= k < p.len() ==> !spec_is_sep(p[k]),
        spec_file_name_start(p) > 0 ==> spec_is_sep(p[spec_file_name_start(p) - 1]),
    decreases p.len(),
{
    if p.len() > 0 && !spec_is_sep(p.last()) {
        lemma_file_name_start_bounds(p.drop_last());
        assert forall|k: int| spec_file_name_start(p) <= k < p.len() implies !spec_is_sep(p[k]) by {
            if k < p.len() - 1 {
                assert(p.drop_last()[k] == p[k]);
            }
        }
        if spec_file_name_start(p) > 0 {
            assert(p.drop_last()[spec_file_name_start(p) - 1] == p[spec_file_name_start(p) - 1]);
        }
    }
}

/// The file-name portion of a path: everything after the last `/` or `\`,
/// or the whole path when it holds no separator.
pub fn file_name_part(p: &Vec<u8>) -> (r: Vec<u8>)
    ensures
        r@ == p@.subrange(spec_file_name_start(p@), p@.len() as int),
{
    proof {
        lemma_file_name_start_bounds(p@);
    }
    let mut start: usize = p.len();
    while start > 0 && p[start - 1] != 0x2F && p[start - 1] != 0x5C
        invariant
            start <= p@.len(),
            forall|k: int| start <= k < p@.len() ==> !spec_is_sep(p@[k]),
        decreases start,
    {
        start -= 1;
    }
    proof {
        assert(start == spec_file_name_start(p@)) by {
            lemma_file_name_start_bounds(p@);
            if start < spec_file_name_start(p@) {
                assert(!spec_is_sep(p@[spec_file_name_start(p@) - 1]));
            }
            if start > spec_file_name_start(p@) {
                assert(!spec_is_sep(p@[start - 1]));
            }
        }
    }
    let mut r: Vec<u8> = Vec::new();
    let mut i: usize = start;
    while i < p.len()
        invariant
            start <= i <= p@.len(),
            r@ == p@.subrange(start as int, i as int),
        decreases p@.len() - i,
    {
        r.push(p[i]);
        proof {
            assert(r@ =~= p@.subrange(start as int, i + 1));
        }
        i += 1;
    }
    r
}

/// ASCII lowercasing of one byte.
pub open spec fn spec_lower_byte(b: u8) -> u8 {
    if 0x41 <= b <= 0x5A {
        (b + 0x20) as u8
    } else {
        b
    }
}

/// ASCII lowercasing of a byte string (names are matched against lowercase
/// patterns, and name lookups ignore ASCII case).
pub open spec fn spec_ascii_lower(s: Seq<u8>) -> Seq<u8> {
    Seq::new(s.len(), |i: int| spec_lower_byte(s[i]))
}

/// ASCII-lowercase a byte string.
pub fn ascii_lower(s: &Vec<u8>) -> (r: Vec<u8>)
    ensures
        r@ == spec_ascii_lower(s@),
{
    let mut r: Vec<u8> = Vec::new();
    let mut i: usize = 0;
    while i < s.len()
        invariant
            i <= s@.len(),
            r@ == spec_ascii_lower(s@).take(i as int),
        decreases s@.len() - i,
    {
        let b = s[i];
        if 0x41 <= b && b <= 0x5A {
            r.push(b + 0x20);
        } else {
            r.push(b);
        }
        proof {
            assert(r@ =~= spec_ascii_lower(s@).take(i + 1));
        }
        i += 1;
    }
    proof {
        assert(spec_ascii_lower(s@).take(s@.len() as int) =~= spec_ascii_lower(s@));
    }
    r
}

} // verus!
