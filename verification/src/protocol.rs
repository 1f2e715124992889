//! Device-bridge protocol codec. Every request is a JSON object
//! `{"Opcode": ..., "Space": "SNES", "Operands": [...]}` sent as one text
//! frame; textual replies are JSON objects with a flat string array under a
//! `"Results"` key. Requests are built and replies decoded byte by byte,
//! against an explicit specification of the wire grammar; the socket itself
//! lives outside the library.

use vstd::prelude::*;
use crate::bytestr::{
    ascii_bytes, hex6, hex_min, spec_hex6, spec_hex_digit, spec_hex_min, str_bytes,
};

verus! {

/// Copy a byte vector.
fn copy_bytes(v: &Vec<u8>) -> (r: Vec<u8>)
    ensures
        r@ == v@,
{
    let mut r: Vec<u8> = Vec::new();
    let mut i: usize = 0;
    while i < v.len()
        invariant
            i <= v@.len(),
            r@ == v@.take(i as int),
        decreases v@.len() - i,
    {
        r.push(v[i]);
        proof {
            assert(r@ =~= v@.take(i + 1));
        }
        i += 1;
    }
    proof {
        assert(v@.take(v@.len() as int) =~= v@);
    }
    r
}

// ---------------------------------------------------------------------------
// Request encoding
// ---------------------------------------------------------------------------

/// JSON escaping of one byte: quote and backslash get a backslash escape,
/// control bytes a `\u00XX` escape, and every other byte stands for itself.
pub open spec fn spec_escape_byte(b: u8) -> Seq<u8> {
    if b == 0x22 {
        seq![0x5Cu8, 0x22u8]
    } else if b == 0x5C {
        seq![0x5Cu8, 0x5Cu8]
    } else if b < 0x20 {
        seq![0x5Cu8, 0x75u8, 0x30u8, 0x30u8, spec_hex_digit(b / 0x10), spec_hex_digit(b % 0x10)]
    } else {
        seq![b]
    }
}

/// JSON escaping of a whole byte string.
pub open spec fn spec_escape(s: Seq<u8>) -> Seq<u8>
    decreases s.len(),
{
    if s.len() == 0 {
        Seq::empty()
    } else {
        spec_escape(s.drop_last()) + spec_escape_byte(s.last())
    }
}

/// A byte string as a JSON string token: quoted and escaped.
pub open spec fn spec_json_string(s: Seq<u8>) -> Seq<u8> {
    seq![0x22u8] + spec_escape(s) + seq![0x22u8]
}

/// Append the JSON string token for `s` to `out`.
fn append_json_string(out: &mut Vec<u8>, s: &Vec<u8>)
    ensures
        final(out)@ == old(out)@ + spec_json_string(s@),
{
    out.push(0x22);
    let mut i: usize = 0;
    while i < s.len()
        invariant
            i <= s@.len(),
            out@ == old(out)@ + seq![0x22u8] + spec_escape(s@.take(i as int)),
        decreases s@.len() - i,
    {
        let b = s[i];
        if b == 0x22 {
            out.push(0x5C);
            out.push(0x22);
        } else if b == 0x5C {
            out.push(0x5C);
            out.push(0x5C);
        } else if b < 0x20 {
            out.push(0x5C);
            out.push(0x75);
            out.push(0x30);
            out.push(0x30);
            out.push(crate::bytestr::hex_digit(b / 0x10));
            out.push(crate::bytestr::hex_digit(b % 0x10));
        } else {
            out.push(b);
        }
        proof {
            assert(s@.take(i + 1).drop_last() =~= s@.take(i as int));
            assert(s@.take(i + 1).last() == s@[i as int]);
            assert(out@ =~= old(out)@ + seq![0x22u8] + spec_escape(s@.take(i + 1)));
        }
        i += 1;
    }
    out.push(0x22);
    proof {
        assert(s@.take(s@.len() as int) =~= s@);
        assert(out@ =~= old(out)@ + spec_json_string(s@));
    }
}

/// The opening of every request: opcode and memory space.
pub open spec fn spec_request_head(op: Seq<u8>) -> Seq<u8> {
    seq![0x7Bu8] + spec_json_string(str_bytes("Opcode")) + seq![0x3Au8] + spec_json_string(op)
        + seq![0x2Cu8] + spec_json_string(str_bytes("Space")) + seq![0x3Au8] + spec_json_string(
        str_bytes("SNES"),
    )
}

/// A request without operands.
pub open spec fn spec_request0(op: Seq<u8>) -> Seq<u8> {
    spec_request_head(op) + seq![0x7Du8]
}

/// The opening of the operand array.
pub open spec fn spec_operands_open() -> Seq<u8> {
    seq![0x2Cu8] + spec_json_string(str_bytes("Operands")) + seq![0x3Au8, 0x5Bu8]
}

/// A request with one operand.
pub open spec fn spec_request1(op: Seq<u8>, a: Seq<u8>) -> Seq<u8> {
    spec_request_head(op) + spec_operands_open() + spec_json_string(a) + seq![0x5Du8, 0x7Du8]
}

/// A request with two operands.
pub open spec fn spec_request2(op: Seq<u8>, a: Seq<u8>, b: Seq<u8>) -> Seq<u8> {
    spec_request_head(op) + spec_operands_open() + spec_json_string(a) + seq![0x2Cu8]
        + spec_json_string(b) + seq![0x5Du8, 0x7Du8]
}

/// Append the request head for the given opcode literal.
fn append_request_head(out: &mut Vec<u8>, op: &Vec<u8>)
    ensures
        final(out)@ == old(out)@ + spec_request_head(op@),
{
    proof {
        reveal_strlit("Opcode");
        reveal_strlit("Space");
        reveal_strlit("SNES");
    }
    out.push(0x7B);
    append_json_string(out, &ascii_bytes("Opcode"));
    out.push(0x3A);
    append_json_string(out, op);
    out.push(0x2C);
    append_json_string(out, &ascii_bytes("Space"));
    out.push(0x3A);
    append_json_string(out, &ascii_bytes("SNES"));
    proof {
        assert(out@ =~= old(out)@ + spec_request_head(op@));
    }
}

/// Append the opening of the operand array.
fn append_operands_open(out: &mut Vec<u8>)
    ensures
        final(out)@ == old(out)@ + spec_operands_open(),
{
    proof {
        reveal_strlit("Operands");
    }
    out.push(0x2C);
    append_json_string(out, &ascii_bytes("Operands"));
    out.push(0x3A);
    out.push(0x5B);
    proof {
        assert(out@ =~= old(out)@ + spec_operands_open());
    }
}

/// Build a request without operands.
fn build_request0(op: &Vec<u8>) -> (r: Vec<u8>)
    ensures
        r@ == spec_request0(op@),
{
    let mut out: Vec<u8> = Vec::new();
    append_request_head(&mut out, op);
    out.push(0x7D);
    proof {
        assert(out@ =~= spec_request0(op@));
    }
    out
}

/// Build a request with one operand.
fn build_request1(op: &Vec<u8>, a: &Vec<u8>) -> (r: Vec<u8>)
    ensures
        r@ == spec_request1(op@, a@),
{
    let mut out: Vec<u8> = Vec::new();
    append_request_head(&mut out, op);
    append_operands_open(&mut out);
    append_json_string(&mut out, a);
    out.push(0x5D);
    out.push(0x7D);
    proof {
        assert(out@ =~= spec_request1(op@, a@));
    }
    out
}

/// Build a request with two operands.
fn build_request2(op: &Vec<u8>, a: &Vec<u8>, b: &Vec<u8>) -> (r: Vec<u8>)
    ensures
        r@ == spec_request2(op@, a@, b@),
{
    let mut out: Vec<u8> = Vec::new();
    append_request_head(&mut out, op);
    append_operands_open(&mut out);
    append_json_string(&mut out, a);
    out.push(0x2C);
    append_json_string(&mut out, b);
    out.push(0x5D);
    out.push(0x7D);
    proof {
        assert(out@ =~= spec_request2(op@, a@, b@));
    }
    out
}

/// The discovery request.
pub open spec fn spec_device_list_request() -> Seq<u8> {
    spec_request0(str_bytes("DeviceList"))
}

/// The attach request for one device.
pub open spec fn spec_attach_request(device: Seq<u8>) -> Seq<u8> {
    spec_request1(str_bytes("Attach"), device)
}

/// The application-identification request.
pub open spec fn spec_name_request(app_name: Seq<u8>) -> Seq<u8> {
    spec_request1(str_bytes("Name"), app_name)
}

/// The device-info request.
pub open spec fn spec_info_request() -> Seq<u8> {
    spec_request0(str_bytes("Info"))
}

/// The memory-read request: address as six uppercase hex digits, length as
/// minimal uppercase hex.
pub open spec fn spec_get_address_request(address: u32, size: u32) -> Seq<u8> {
    spec_request2(str_bytes("GetAddress"), spec_hex6(address), spec_hex_min(size))
}

// ---------------------------------------------------------------------------
// Reply decoding
// ---------------------------------------------------------------------------

/// JSON insignificant whitespace.
pub open spec fn spec_is_ws(b: u8) -> bool {
    b == 0x20 || b == 0x09 || b == 0x0A || b == 0x0D
}

/// First index at or after `i` that does not hold whitespace.
pub open spec fn spec_skip_ws(s: Seq<u8>, i: int) -> int
    decreases s.len() - i,
    when 0 <= i <= s.len()
{
    if i < s.len() && spec_is_ws(s[i]) {
        spec_skip_ws(s, i + 1)
    } else {
        i
    }
}

proof fn lemma_skip_ws_bounds(s: Seq<u8>, i: int)
    requires
        0 <= i <= s.len(),
    ensures
        i <= spec_skip_ws(s, i) <= s.len(),
    decreases s.len() - i,
{
    if i < s.len() && spec_is_ws(s[i]) {
        lemma_skip_ws_bounds(s, i + 1);
    }
}

/// The byte that a simple JSON escape stands for, if the escape is one this
/// protocol accepts. Unicode escapes are not among them: a reply using them
/// is treated as undecodable.
pub open spec fn spec_unescape_byte(b: u8) -> Option<u8> {
    if b == 0x22 {
        Some(0x22u8)
    } else if b == 0x5C {
        Some(0x5Cu8)
    } else if b == 0x2F {
        Some(0x2Fu8)
    } else if b == 0x62 {
        Some(0x08u8)
    } else if b == 0x66 {
        Some(0x0Cu8)
    } else if b == 0x6E {
        Some(0x0Au8)
    } else if b == 0x72 {
        Some(0x0Du8)
    } else if b == 0x74 {
        Some(0x09u8)
    } else {
        None
    }
}

/// Parse a JSON string body starting just after the opening quote: the
/// unescaped content and the index just past the closing quote.
pub open spec fn spec_parse_string_body(s: Seq<u8>, i: int) -> Option<(Seq<u8>, int)>
    decreases s.len() - i,
    when 0 <= i <= s.len()
{
    if i >= s.len() {
        None
    } else if s[i] == 0x22 {
        Some((Seq::empty(), i + 1))
    } else if s[i] == 0x5C {
        if i + 1 < s.len() {
            match spec_unescape_byte(s[i + 1]) {
                Some(c) => match spec_parse_string_body(s, i + 2) {
                    Some(t) => Some((seq![c] + t.0, t.1)),
                    None => None,
                },
                None => None,
            }
        } else {
            None
        }
    } else if s[i] < 0x20 {
        None
    } else {
        match spec_parse_string_body(s, i + 1) {
            Some(t) => Some((seq![s[i]] + t.0, t.1)),
            None => None,
        }
    }
}

proof fn lemma_string_body_advances(s: Seq<u8>, i: int)
    requires
        0 <= i <= s.len(),
    ensures
        spec_parse_string_body(s, i) matches Some(t) ==> i < t.1 <= s.len(),
    decreases s.len() - i,
{
    if i < s.len() {
        if s[i] == 0x5C {
            if i + 1 < s.len() {
                lemma_string_body_advances(s, i + 2);
            }
        } else if s[i] != 0x22 && s[i] >= 0x20 {
            lemma_string_body_advances(s, i + 1);
        }
    }
}

/// Parse a non-empty sequence of comma-separated JSON strings followed by
/// the closing bracket, starting at the whitespace before the first string:
/// the decoded strings and the index just past the bracket.
pub open spec fn spec_parse_items(s: Seq<u8>, i: int) -> Option<(Seq<Seq<u8>>, int)>
    decreases s.len() - i,
    when 0 <= i <= s.len()
    via spec_parse_items_decreases
{
    let j = spec_skip_ws(s, i);
    if j < s.len() && s[j] == 0x22 {
        match spec_parse_string_body(s, j + 1) {
            Some(t) => {
                let m = spec_skip_ws(s, t.1);
                if m < s.len() && s[m] == 0x2C {
                    match spec_parse_items(s, m + 1) {
                        Some(r) => Some((seq![t.0] + r.0, r.1)),
                        None => None,
                    }
                } else if m < s.len() && s[m] == 0x5D {
                    Some((seq![t.0], m + 1))
                } else {
                    None
                }
            },
            None => None,
        }
    } else {
        None
    }
}

#[via_fn]
proof fn spec_parse_items_decreases(s: Seq<u8>, i: int) {
    lemma_skip_ws_bounds(s, i);
    let j = spec_skip_ws(s, i);
    if j < s.len() && s[j] == 0x22 {
        lemma_string_body_advances(s, j + 1);
        match spec_parse_string_body(s, j + 1) {
            Some(t) => lemma_skip_ws_bounds(s, t.1),
            None => (),
        }
    }
}

proof fn lemma_items_end_bounds(s: Seq<u8>, i: int)
    requires
        0 <= i <= s.len(),
    ensures
        spec_parse_items(s, i) matches Some(t) ==> i < t.1 <= s.len(),
    decreases s.len() - i,
{
    lemma_skip_ws_bounds(s, i);
    let j = spec_skip_ws(s, i);
    if j < s.len() && s[j] == 0x22 {
        lemma_string_body_advances(s, j + 1);
        match spec_parse_string_body(s, j + 1) {
            Some(t) => {
                lemma_skip_ws_bounds(s, t.1);
                let m = spec_skip_ws(s, t.1);
                if m < s.len() && s[m] == 0x2C {
                    lemma_items_end_bounds(s, m + 1);
                }
            },
            None => (),
        }
    }
}

/// After the items of the reply object: closing brace and nothing but
/// whitespace to the end.
pub open spec fn spec_parse_tail(s: Seq<u8>, i: int, items: Seq<Seq<u8>>) -> Option<Seq<Seq<u8>>>
    recommends
        0 <= i <= s.len(),
{
    let r = spec_skip_ws(s, i);
    if r < s.len() && s[r] == 0x7D && spec_skip_ws(s, r + 1) == s.len() {
        Some(items)
    } else {
        None
    }
}

/// Decode a textual reply: a JSON object whose single member is a flat
/// string array under the key `Results`. The decoded strings, or `None`
/// when the reply does not have that shape.
pub open spec fn spec_parse_results(s: Seq<u8>) -> Option<Seq<Seq<u8>>> {
    let i = spec_skip_ws(s, 0);
    if i < s.len() && s[i] == 0x7B {
        let j = spec_skip_ws(s, i + 1);
        if j < s.len() && s[j] == 0x22 {
            match spec_parse_string_body(s, j + 1) {
                Some(k) => if k.0 == str_bytes("Results") {
                    let m = spec_skip_ws(s, k.1);
                    if m < s.len() && s[m] == 0x3A {
                        let p = spec_skip_ws(s, m + 1);
                        if p < s.len() && s[p] == 0x5B {
                            let q = spec_skip_ws(s, p + 1);
                            if q < s.len() && s[q] == 0x5D {
                                spec_parse_tail(s, q + 1, Seq::empty())
                            } else {
                                match spec_parse_items(s, p + 1) {
                                    Some(t) => spec_parse_tail(s, t.1, t.0),
                                    None => None,
                                }
                            }
                        } else {
                            None
                        }
                    } else {
                        None
                    }
                } else {
                    None
                },
                None => None,
            }
        } else {
            None
        }
    } else {
        None
    }
}

/// Advance past whitespace.
fn skip_ws(s: &Vec<u8>, i: usize) -> (r: usize)
    requires
        i <= s@.len(),
    ensures
        r == spec_skip_ws(s@, i as int),
        i <= r <= s@.len(),
{
    let mut cur: usize = i;
    while cur < s.len() && (s[cur] == 0x20 || s[cur] == 0x09 || s[cur] == 0x0A || s[cur] == 0x0D)
        invariant
            i <= cur <= s@.len(),
            spec_skip_ws(s@, i as int) == spec_skip_ws(s@, cur as int),
        decreases s@.len() - cur,
    {
        cur += 1;
    }
    cur
}

/// Parse a JSON string body starting just after the opening quote.
fn parse_string_body(s: &Vec<u8>, i: usize) -> (r: Option<(Vec<u8>, usize)>)
    requires
        i <= s@.len(),
    ensures
        match r {
            Some(t) => spec_parse_string_body(s@, i as int) == Some((t.0@, t.1 as int)),
            None => spec_parse_string_body(s@, i as int) is None,
        },
    decreases s@.len() - i,
{
    if i >= s.len() {
        return None;
    }
    let b = s[i];
    if b == 0x22 {
        let empty: Vec<u8> = Vec::new();
        proof {
            assert(empty@ =~= Seq::<u8>::empty());
        }
        return Some((empty, i + 1));
    }
    if b == 0x5C {
        if i + 1 < s.len() {
            let e = s[i + 1];
            let c: u8 = if e == 0x22 {
                0x22
            } else if e == 0x5C {
                0x5C
            } else if e == 0x2F {
                0x2F
            } else if e == 0x62 {
                0x08
            } else if e == 0x66 {
                0x0C
            } else if e == 0x6E {
                0x0A
            } else if e == 0x72 {
                0x0D
            } else if e == 0x74 {
                0x09
            } else {
                return None;
            };
            match parse_string_body(s, i + 2) {
                Some((mut t, j)) => {
                    t.insert(0, c);
                    proof {
                        assert(t@ =~= seq![c] + t@.subrange(1, t@.len() as int));
                    }
                    return Some((t, j));
                },
                None => {
                    return None;
                },
            }
        } else {
            return None;
        }
    }
    if b < 0x20 {
        return None;
    }
    match parse_string_body(s, i + 1) {
        Some((mut t, j)) => {
            t.insert(0, b);
            proof {
                assert(t@ =~= seq![b] + t@.subrange(1, t@.len() as int));
            }
            Some((t, j))
        },
        None => None,
    }
}

/// Parse a non-empty comma-separated string list up to and past the closing
/// bracket.
fn parse_items(s: &Vec<u8>, i: usize) -> (r: Option<(Vec<Vec<u8>>, usize)>)
    requires
        i <= s@.len(),
    ensures
        match r {
            Some(t) => spec_parse_items(s@, i as int) == Some((t.0.deep_view(), t.1 as int)),
            None => spec_parse_items(s@, i as int) is None,
        },
    decreases s@.len() - i,
{
    let j = skip_ws(s, i);
    if j < s.len() && s[j] == 0x22 {
        proof {
            lemma_string_body_advances(s@, j + 1);
        }
        match parse_string_body(s, j + 1) {
            Some((first, k)) => {
                let m = skip_ws(s, k);
                if m < s.len() && s[m] == 0x2C {
                    match parse_items(s, m + 1) {
                        Some((mut rest, e)) => {
                            let ghost rest_view = rest.deep_view();
                            let ghost first_view = first@;
                            rest.insert(0, first);
                            proof {
                                assert(rest.deep_view() =~~= seq![first_view] + rest_view);
                            }
                            Some((rest, e))
                        },
                        None => None,
                    }
                } else if m < s.len() && s[m] == 0x5D {
                    let ghost first_view = first@;
                    let mut items: Vec<Vec<u8>> = Vec::new();
                    items.push(first);
                    proof {
                        assert(items.deep_view() =~~= seq![first_view]);
                    }
                    Some((items, m + 1))
                } else {
                    None
                }
            },
            None => None,
        }
    } else {
        None
    }
}

/// Decode a textual reply into its `Results` strings; `None` when the bytes
/// are not a reply of that shape.
pub fn parse_results(s: &Vec<u8>) -> (r: Option<Vec<Vec<u8>>>)
    ensures
        match r {
            Some(items) => spec_parse_results(s@) == Some(items.deep_view()),
            None => spec_parse_results(s@) is None,
        },
{
    let i = skip_ws(s, 0);
    if !(i < s.len() && s[i] == 0x7B) {
        return None;
    }
    let j = skip_ws(s, i + 1);
    if !(j < s.len() && s[j] == 0x22) {
        return None;
    }
    proof {
        lemma_string_body_advances(s@, j + 1);
    }
    let key = match parse_string_body(s, j + 1) {
        Some(k) => k,
        None => {
            return None;
        },
    };
    proof {
        reveal_strlit("Results");
    }
    let results_lit = ascii_bytes("Results");
    if !(key.0 == results_lit) {
        proof {
            assert(key.0@ != str_bytes("Results"));
        }
        return None;
    }
    proof {
        assert(key.0@ =~= str_bytes("Results"));
    }
    let m = skip_ws(s, key.1);
    if !(m < s.len() && s[m] == 0x3A) {
        return None;
    }
    let p = skip_ws(s, m + 1);
    if !(p < s.len() && s[p] == 0x5B) {
        return None;
    }
    let q = skip_ws(s, p + 1);
    if q < s.len() && s[q] == 0x5D {
        let items: Vec<Vec<u8>> = Vec::new();
        proof {
            assert(items.deep_view() =~= Seq::<Seq<u8>>::empty());
        }
        return finish_reply(s, q + 1, items);
    }
    proof {
        lemma_items_end_bounds(s@, p + 1);
    }
    match parse_items(s, p + 1) {
        Some((items, e)) => finish_reply(s, e, items),
        None => None,
    }
}

/// Check the closing brace and trailing whitespace, handing the items back.
fn finish_reply(s: &Vec<u8>, i: usize, items: Vec<Vec<u8>>) -> (r: Option<Vec<Vec<u8>>>)
    requires
        i <= s@.len(),
    ensures
        match r {
            Some(out) => out == items && spec_parse_tail(s@, i as int, items.deep_view())
                == Some(items.deep_view()),
            None => spec_parse_tail(s@, i as int, items.deep_view()) is None,
        },
{
    let t = skip_ws(s, i);
    if t < s.len() && s[t] == 0x7D {
        let end = skip_ws(s, t + 1);
        if end == s.len() {
            return Some(items);
        }
    }
    None
}

// ---------------------------------------------------------------------------
// Client model
// ---------------------------------------------------------------------------

/// The capability flag with which a device forbids reads of the ROM image.
pub open spec fn spec_no_rom_read_flag() -> Seq<u8> {
    str_bytes("NO_ROM_READ")
}

/// Whether a client's cached capability flags permit direct ROM reads.
pub open spec fn spec_can_read_rom(flags: Seq<Vec<u8>>) -> bool {
    forall|k: int| 0 <= k < flags.len() ==> flags[k]@ != spec_no_rom_read_flag()
}

/// Index from which a device-info reply's entries are capability flags;
/// earlier entries are device metadata.
pub const INFO_FLAGS_OFFSET: usize = 3;

/// Protocol client state: which device the caller attached to and the
/// capability flags cached from the last info reply. The frames themselves
/// are produced and consumed by the request and reply methods; carrying
/// them over a socket is the caller's business.
pub struct Usb2SnesClient {
    pub device_name: Option<Vec<u8>>,
    pub flags: Vec<Vec<u8>>,
}

impl Usb2SnesClient {
    /// A fresh client: no device attached, no capability flags cached.
    pub fn new() -> (r: Self)
        ensures
            r.device_name is None,
            r.flags@.len() == 0,
    {
        Usb2SnesClient { device_name: None, flags: Vec::new() }
    }

    /// The discovery request frame.
    pub fn device_list_request(&self) -> (r: Vec<u8>)
        ensures
            r@ == spec_device_list_request(),
    {
        proof {
            reveal_strlit("DeviceList");
        }
        build_request0(&ascii_bytes("DeviceList"))
    }

    /// Decode a discovery reply into the advertised device ids.
    pub fn handle_device_list_reply(&self, reply: &Vec<u8>) -> (r: Option<Vec<Vec<u8>>>)
        ensures
            match r {
                Some(devices) => spec_parse_results(reply@) == Some(devices.deep_view()),
                None => spec_parse_results(reply@) is None,
            },
    {
        parse_results(reply)
    }

    /// The attach request frame for one device; the device is recorded as
    /// current. Success is not confirmed by the bridge — callers validate
    /// via a later info request.
    pub fn attach_request(&mut self, device: &Vec<u8>) -> (r: Vec<u8>)
        ensures
            r@ == spec_attach_request(device@),
            final(self).device_name matches Some(d) && d@ == device@,
            final(self).flags == old(self).flags,
    {
        proof {
            reveal_strlit("Attach");
        }
        self.device_name = Some(copy_bytes(device));
        build_request1(&ascii_bytes("Attach"), device)
    }

    /// The application-identification request frame.
    pub fn register_app_request(&self, app_name: &Vec<u8>) -> (r: Vec<u8>)
        ensures
            r@ == spec_name_request(app_name@),
    {
        proof {
            reveal_strlit("Name");
        }
        build_request1(&ascii_bytes("Name"), app_name)
    }

    /// The device-info request frame.
    pub fn info_request(&self) -> (r: Vec<u8>)
        ensures
            r@ == spec_info_request(),
    {
        proof {
            reveal_strlit("Info");
        }
        build_request0(&ascii_bytes("Info"))
    }

    /// Decode an info reply. All entries from the fixed offset onward are
    /// capability flags and are cached on the client; a shorter reply
    /// leaves the cached flags as they were.
    pub fn handle_info_reply(&mut self, reply: &Vec<u8>) -> (r: Option<Vec<Vec<u8>>>)
        ensures
            final(self).device_name == old(self).device_name,
            match r {
                Some(results) => {
                    &&& spec_parse_results(reply@) == Some(results.deep_view())
                    &&& (if results.deep_view().len() > INFO_FLAGS_OFFSET {
                        final(self).flags.deep_view() == results.deep_view().skip(
                            INFO_FLAGS_OFFSET as int,
                        )
                    } else {
                        final(self).flags == old(self).flags
                    })
                },
                None => spec_parse_results(reply@) is None && final(self).flags == old(
                    self,
                ).flags,
            },
    {
        match parse_results(reply) {
            Some(results) => {
                if results.len() > INFO_FLAGS_OFFSET {
                    let mut flags: Vec<Vec<u8>> = Vec::new();
                    let mut i: usize = INFO_FLAGS_OFFSET;
                    while i < results.len()
                        invariant
                            INFO_FLAGS_OFFSET <= i <= results@.len(),
                            flags.deep_view() =~= results.deep_view().subrange(
                                INFO_FLAGS_OFFSET as int,
                                i as int,
                            ),
                        decreases results@.len() - i,
                    {
                        let ghost pre = flags.deep_view();
                        let c = copy_bytes(&results[i]);
                        proof {
                            assert(c.deep_view() =~= results@[i as int].deep_view());
                        }
                        flags.push(c);
                        proof {
                            assert(flags.deep_view() =~~= pre.push(results.deep_view()[i as int]));
                            assert(flags.deep_view() =~~= results.deep_view().subrange(
                                INFO_FLAGS_OFFSET as int,
                                i + 1,
                            ));
                        }
                        i += 1;
                    }
                    self.flags = flags;
                    proof {
                        assert(self.flags.deep_view() =~~= results.deep_view().skip(
                            INFO_FLAGS_OFFSET as int,
                        ));
                    }
                }
                Some(results)
            },
            None => None,
        }
    }

    /// The memory-read request frame for a region of the 24-bit console
    /// address space.
    pub fn read_memory_request(&self, address: u32, size: u32) -> (r: Vec<u8>)
        requires
            address < 0x1000000,
        ensures
            r@ == spec_get_address_request(address, size),
    {
        proof {
            reveal_strlit("GetAddress");
        }
        build_request2(&ascii_bytes("GetAddress"), &hex6(address), &hex_min(size))
    }

    /// Whether the cached capability flags permit direct ROM reads.
    pub fn can_read_rom(&self) -> (r: bool)
        ensures
            r == spec_can_read_rom(self.flags@),
    {
        proof {
            reveal_strlit("NO_ROM_READ");
        }
        let no_rom_read = ascii_bytes("NO_ROM_READ");
        let mut i: usize = 0;
        while i < self.flags.len()
            invariant
                i <= self.flags@.len(),
                no_rom_read@ == spec_no_rom_read_flag(),
                forall|k: int| 0 <= k < i ==> self.flags@[k]@ != spec_no_rom_read_flag(),
            decreases self.flags@.len() - i,
        {
            if &self.flags[i] == &no_rom_read {
                proof {
                    assert(self.flags@[i as int]@ =~= spec_no_rom_read_flag());
                }
                return false;
            }
            proof {
                if self.flags@[i as int]@ == spec_no_rom_read_flag() {
                    assert(self.flags@[i as int]@ =~= no_rom_read@);
                    assert(false);
                }
            }
            i += 1;
        }
        true
    }
}

} // verus!

