use vstd::prelude::*;

use crate::wire::{
    bytes16, bytes32, encode_request, le16, le32, push_u32, read_i16, read_u16, read_u32,
    request_frame, request_words, signed16, WireError,
};

verus! {

/// The major opcode of the core request that gives an atom's name.
pub const GET_ATOM_NAME: u8 = 17;

/// The minor opcode of the RandR request that lists the monitors.
pub const RANDR_GET_MONITORS: u8 = 42;

fn body_frame(opcode: u8, data: u8, body: &Vec<u8>) -> (r: Vec<u8>)
    requires
        body@.len() <= 16,
    ensures
        r@ == request_frame(opcode, data, body@),
{
    match encode_request(opcode, data, body) {
        Ok(v) => v,
        Err(_) => {
            proof {
                assert(request_words(body@.len()) <= 65535);
            }
            Vec::new()
        },
    }
}

/// Builds the request for the name of `atom`.
pub fn encode_get_atom_name(atom: u32) -> (r: Vec<u8>)
    ensures
        r@ == request_frame(GET_ATOM_NAME, 0, bytes32(atom as int)),
{
    let mut body: Vec<u8> = Vec::new();
    push_u32(&mut body, atom);
    assert(body@ =~= bytes32(atom as int));
    body_frame(GET_ATOM_NAME, 0, &body)
}

/// The name that a get-atom-name reply frame gives: its length is at bytes 8
/// and 9, the name follows the 32-byte header.
pub open spec fn atom_name_reply_spec(f: Seq<u8>) -> Option<Seq<u8>> {
    if f.len() >= 32 && f[0] == 1 && 32 + le16(f[8], f[9]) <= f.len() {
        Some(f.subrange(32, 32 + le16(f[8], f[9])))
    } else {
        None
    }
}

/// Reads the name out of a get-atom-name reply frame.
pub fn decode_get_atom_name_reply(f: &Vec<u8>) -> (r: Result<Vec<u8>, WireError>)
    ensures
        r.is_ok() == atom_name_reply_spec(f@).is_some(),
        r.is_ok() ==> r.unwrap()@ == atom_name_reply_spec(f@).unwrap(),
        r.is_err() ==> r == Err::<Vec<u8>, WireError>(WireError::Malformed),
{
    let len: usize = f.len();
    if len < 32 || f[0] != 1 {
        return Err(WireError::Malformed);
    }
    let n: usize = f[8] as usize + 256 * f[9] as usize;
    if 32 + n > len {
        return Err(WireError::Malformed);
    }
    let mut name: Vec<u8> = Vec::new();
    let mut i: usize = 0;
    while i < n
        invariant
            i <= n,
            32 + n <= len,
            len == f@.len(),
            name@ == f@.subrange(32, 32 + i),
        decreases n - i,
    {
        name.push(f[32 + i]);
        i = i + 1;
        assert(name@ =~= f@.subrange(32, 32 + i));
    }
    Ok(name)
}

/// The body of the RandR request that lists the monitors of the screen of `window`.
pub open spec fn get_monitors_body(window: u32, get_active: bool) -> Seq<u8> {
    bytes32(window as int) + seq![if get_active { 1u8 } else { 0u8 }, 0u8, 0u8, 0u8]
}

/// Builds the RandR request that lists the monitors of the screen of `window`;
/// `randr_opcode` is the major opcode that the server gave the extension.
pub fn encode_get_monitors(randr_opcode: u8, window: u32, get_active: bool) -> (r: Vec<u8>)
    ensures
        r@ == request_frame(randr_opcode, RANDR_GET_MONITORS, get_monitors_body(window, get_active)),
{
    let mut body: Vec<u8> = Vec::new();
    push_u32(&mut body, window);
    body.push(if get_active { 1 } else { 0 });
    body.push(0);
    body.push(0);
    body.push(0);
    assert(body@ =~= get_monitors_body(window, get_active));
    body_frame(randr_opcode, RANDR_GET_MONITORS, &body)
}

/// A monitor as RandR describes it.
#[derive(Debug, Clone, Copy, PartialEq, Eq)]
pub struct MonitorInfo {
    pub name: u32,
    pub primary: bool,
    pub automatic: bool,
    pub x: i16,
    pub y: i16,
    pub width_in_pixels: u16,
    pub height_in_pixels: u16,
    pub width_in_millimeters: u32,
    pub height_in_millimeters: u32,
}

/// The monitor record at offset `p`.
pub open spec fn monitor_at(f: Seq<u8>, p: int) -> MonitorInfo {
    MonitorInfo {
        name: le32(f[p], f[p + 1], f[p + 2], f[p + 3]) as u32,
        primary: f[p + 4] != 0,
        automatic: f[p + 5] != 0,
        x: signed16(le16(f[p + 8], f[p + 9])) as i16,
        y: signed16(le16(f[p + 10], f[p + 11])) as i16,
        width_in_pixels: le16(f[p + 12], f[p + 13]) as u16,
        height_in_pixels: le16(f[p + 14], f[p + 15]) as u16,
        width_in_millimeters: le32(f[p + 16], f[p + 17], f[p + 18], f[p + 19]) as u32,
        height_in_millimeters: le32(f[p + 20], f[p + 21], f[p + 22], f[p + 23]) as u32,
    }
}

/// The `n` monitor records from offset `p`: each is 24 bytes and four bytes
/// per output, whose count is at bytes 6 and 7.
pub open spec fn monitors_from(f: Seq<u8>, p: int, n: nat) -> Option<Seq<MonitorInfo>>
    decreases n,
{
    if n == 0 {
        if p <= f.len() {
            Some(Seq::empty())
        } else {
            None
        }
    } else if p + 24 > f.len() {
        None
    } else {
        match monitors_from(f, p + 24 + 4 * le16(f[p + 6], f[p + 7]), (n - 1) as nat) {
            Some(rest) => Some(seq![monitor_at(f, p)] + rest),
            None => None,
        }
    }
}

/// The monitors that a get-monitors reply frame lists; bytes 12 to 15 count them.
pub open spec fn monitors_reply_spec(f: Seq<u8>) -> Option<Seq<MonitorInfo>> {
    if f.len() >= 32 && f[0] == 1 {
        monitors_from(f, 32, le32(f[12], f[13], f[14], f[15]) as nat)
    } else {
        None
    }
}

/// Reads the monitors out of a get-monitors reply frame.
pub fn decode_get_monitors_reply(f: &Vec<u8>) -> (r: Result<Vec<MonitorInfo>, WireError>)
    ensures
        r.is_ok() == monitors_reply_spec(f@).is_some(),
        r.is_ok() ==> r.unwrap()@ == monitors_reply_spec(f@).unwrap(),
        r.is_err() ==> r == Err::<Vec<MonitorInfo>, WireError>(WireError::Malformed),
{
    let len: usize = f.len();
    if len < 32 || f[0] != 1 {
        return Err(WireError::Malformed);
    }
    let n: u32 = read_u32(f, 12);
    let mut out: Vec<MonitorInfo> = Vec::new();
    let mut p: usize = 32;
    let mut k: u32 = 0;
    while k < n
        invariant
            k <= n,
            n == le32(f@[12], f@[13], f@[14], f@[15]),
            f@[0] == 1,
            len == f@.len(),
            len >= 32,
            p <= len,
            monitors_reply_spec(f@) == match monitors_from(f@, p as int, (n - k) as nat) {
                Some(rest) => Some(out@ + rest),
                None => None,
            },
        decreases n - k,
    {
        if len - p < 24 {
            return Err(WireError::Malformed);
        }
        let m = MonitorInfo {
            name: read_u32(f, p),
            primary: f[p + 4] != 0,
            automatic: f[p + 5] != 0,
            x: read_i16(f, p + 8),
            y: read_i16(f, p + 10),
            width_in_pixels: read_u16(f, p + 12),
            height_in_pixels: read_u16(f, p + 14),
            width_in_millimeters: read_u32(f, p + 16),
            height_in_millimeters: read_u32(f, p + 20),
        };
        let outputs: usize = read_u16(f, p + 6) as usize;
        let size: usize = 24 + 4 * outputs;
        let ghost q = p + size;
        let ghost before = out@;
        if size > len - p {
            proof {
                lemma_monitors_past_end(f@, q as int, (n - k - 1) as nat);
            }
            return Err(WireError::Malformed);
        }
        out.push(m);
        proof {
            assert(m == monitor_at(f@, p as int));
            match monitors_from(f@, q as int, (n - k - 1) as nat) {
                Some(rest) => {
                    assert(before + (seq![m] + rest) =~= out@ + rest);
                },
                None => {},
            }
        }
        p = p + size;
        k = k + 1;
    }
    assert(out@ + Seq::<MonitorInfo>::empty() =~= out@);
    Ok(out)
}

proof fn lemma_monitors_past_end(f: Seq<u8>, p: int, n: nat)
    requires
        p > f.len(),
    ensures
        monitors_from(f, p, n).is_none(),
{
}

/// The major opcode of the core request that lists fonts with their metrics.
pub const LIST_FONTS_WITH_INFO: u8 = 50;

/// The body of a request for at most `max_names` fonts whose names match `pattern`.
pub open spec fn list_fonts_with_info_body(max_names: u16, pattern: Seq<u8>) -> Seq<u8> {
    bytes16(max_names as int) + bytes16(pattern.len() as int) + pattern
}

/// Builds the request that lists the fonts matching `pattern` with their
/// metrics; the server answers with one reply per font and a last, empty one.
pub fn encode_list_fonts_with_info(max_names: u16, pattern: &Vec<u8>) -> (r: Result<Vec<u8>, WireError>)
    ensures
        r.is_ok() <==> pattern@.len() <= 65535,
        r.is_ok() ==> r.unwrap()@ == request_frame(
            LIST_FONTS_WITH_INFO,
            0,
            list_fonts_with_info_body(max_names, pattern@),
        ),
        r.is_err() ==> r == Err::<Vec<u8>, WireError>(WireError::RequestTooLong),
{
    let n: usize = pattern.len();
    if n > 65535 {
        return Err(WireError::RequestTooLong);
    }
    let mut body: Vec<u8> = Vec::new();
    body.push((max_names % 256) as u8);
    body.push((max_names / 256) as u8);
    body.push((n % 256) as u8);
    body.push((n / 256) as u8);
    assert(body@ =~= bytes16(max_names as int) + bytes16(n as int));
    let mut i: usize = 0;
    while i < n
        invariant
            i <= n,
            n == pattern@.len(),
            body@ == bytes16(max_names as int) + bytes16(n as int) + pattern@.subrange(0, i as int),
        decreases n - i,
    {
        body.push(pattern[i]);
        i = i + 1;
        assert(body@ =~= bytes16(max_names as int) + bytes16(n as int) + pattern@.subrange(0, i as int));
    }
    assert(pattern@.subrange(0, n as int) =~= pattern@);
    encode_request(LIST_FONTS_WITH_INFO, 0, &body)
}

/// The writing direction of a font.
#[derive(Debug, Clone, Copy, PartialEq, Eq)]
pub enum DrawDirection {
    LeftToRight,
    RightToLeft,
}

/// One font of a list-fonts-with-info answer.
#[derive(Debug, Clone, PartialEq, Eq)]
pub struct FontInfo {
    pub name: Vec<u8>,
    pub draw_direction: DrawDirection,
    pub min_char_or_byte2: u16,
    pub max_char_or_byte2: u16,
    pub default_char: u16,
    pub properties: u16,
    pub min_byte1: u8,
    pub max_byte1: u8,
    pub all_chars_exist: bool,
    pub font_ascent: i16,
    pub font_descent: i16,
}

/// Where the name of a font-info reply starts: after the 60 fixed bytes and
/// eight bytes per font property, whose count is at bytes 46 and 47.
pub open spec fn font_name_offset(f: Seq<u8>) -> int {
    60 + 8 * le16(f[46], f[47])
}

/// A reply of the list-fonts-with-info series is well formed: a reply frame
/// long enough for its fixed part, and, unless it is the last (name length 0,
/// at byte 1), for its properties, its name, and a known direction (byte 48).
pub open spec fn font_info_reply_ok(f: Seq<u8>) -> bool {
    f.len() >= 32 && f[0] == 1 && (f[1] == 0 || (f.len() >= 60 && font_name_offset(f) + f[1] <= f.len()
        && f[48] <= 1))
}

/// The font that a reply of the series describes (for a reply that is not the last).
pub open spec fn font_info_at(f: Seq<u8>, info: FontInfo) -> bool {
    &&& info.name@ == f.subrange(font_name_offset(f), font_name_offset(f) + f[1])
    &&& info.draw_direction == if f[48] == 0 {
        DrawDirection::LeftToRight
    } else {
        DrawDirection::RightToLeft
    }
    &&& info.min_char_or_byte2 == le16(f[40], f[41])
    &&& info.max_char_or_byte2 == le16(f[42], f[43])
    &&& info.default_char == le16(f[44], f[45])
    &&& info.properties == le16(f[46], f[47])
    &&& info.min_byte1 == f[49]
    &&& info.max_byte1 == f[50]
    &&& info.all_chars_exist == (f[51] != 0)
    &&& info.font_ascent == signed16(le16(f[52], f[53]))
    &&& info.font_descent == signed16(le16(f[54], f[55]))
}

/// Reads one reply of a list-fonts-with-info series: `Ok(None)` for the last,
/// empty one.
pub fn decode_font_info_reply(f: &Vec<u8>) -> (r: Result<Option<FontInfo>, WireError>)
    ensures
        r.is_ok() <==> font_info_reply_ok(f@),
        r.is_err() ==> r == Err::<Option<FontInfo>, WireError>(WireError::Malformed),
        r.is_ok() ==> (r.unwrap().is_none() <==> f@[1] == 0),
        r.is_ok() && r.unwrap().is_some() ==> font_info_at(f@, r.unwrap().unwrap()),
{
    let len: usize = f.len();
    if len < 32 || f[0] != 1 {
        return Err(WireError::Malformed);
    }
    let n: usize = f[1] as usize;
    if n == 0 {
        return Ok(None);
    }
    if len < 60 || f[48] > 1 {
        return Err(WireError::Malformed);
    }
    let props: u16 = read_u16(f, 46);
    let start: usize = 60 + 8 * props as usize;
    if start + n > len {
        return Err(WireError::Malformed);
    }
    let mut name: Vec<u8> = Vec::new();
    let mut i: usize = 0;
    while i < n
        invariant
            i <= n,
            start + n <= len,
            len == f@.len(),
            name@ == f@.subrange(start as int, start + i),
        decreases n - i,
    {
        name.push(f[start + i]);
        i = i + 1;
        assert(name@ =~= f@.subrange(start as int, start + i));
    }
    let draw_direction = if f[48] == 0 {
        DrawDirection::LeftToRight
    } else {
        DrawDirection::RightToLeft
    };
    Ok(
        Some(
            FontInfo {
                name,
                draw_direction,
                min_char_or_byte2: read_u16(f, 40),
                max_char_or_byte2: read_u16(f, 42),
                default_char: read_u16(f, 44),
                properties: props,
                min_byte1: f[49],
                max_byte1: f[50],
                all_chars_exist: f[51] != 0,
                font_ascent: read_i16(f, 52),
                font_descent: read_i16(f, 54),
            },
        ),
    )
}

} // verus!
