use vstd::prelude::*;

verus! {

/// The little-endian value of two bytes.
pub open spec fn le16(lo: u8, hi: u8) -> int {
    lo + 256 * hi
}

/// The little-endian value of four bytes.
pub open spec fn le32(b0: u8, b1: u8, b2: u8, b3: u8) -> int {
    b0 + 256 * b1 + 65536 * b2 + 16777216 * b3
}

/// The two little-endian bytes of `v`.
pub open spec fn bytes16(v: int) -> Seq<u8> {
    seq![(v % 256) as u8, (v / 256 % 256) as u8]
}

/// The four little-endian bytes of `v`.
pub open spec fn bytes32(v: int) -> Seq<u8> {
    seq![
        (v % 256) as u8,
        (v / 256 % 256) as u8,
        (v / 65536 % 256) as u8,
        (v / 16777216 % 256) as u8,
    ]
}

/// `n` zero bytes.
pub open spec fn zeros(n: nat) -> Seq<u8> {
    Seq::new(n, |i: int| 0u8)
}

/// The number of zero bytes that bring `n` bytes to a multiple of four.
pub open spec fn pad_len(n: nat) -> nat {
    ((4 - n % 4) % 4) as nat
}

/// The length of a request frame with a body of `n` bytes, in four-byte units.
pub open spec fn request_words(n: nat) -> nat {
    (4 + n + pad_len(n)) / 4
}

/// A request frame: major opcode, a byte that the request uses as it likes
/// (often a minor opcode), the frame length in four-byte units, then the body
/// padded with zero bytes to a multiple of four.
pub open spec fn request_frame(opcode: u8, data: u8, body: Seq<u8>) -> Seq<u8> {
    seq![opcode, data] + bytes16(request_words(body.len()) as int) + body + zeros(pad_len(body.len()))
}

/// Why a frame could not be built or read.
#[derive(Debug, Clone, Copy, PartialEq, Eq)]
pub enum WireError {
    /// The request does not fit the 16-bit length field.
    RequestTooLong,
    /// The bytes are not a frame of the expected shape.
    Malformed,
}

fn push_u16(v: &mut Vec<u8>, x: u16)
    ensures
        final(v)@ == old(v)@ + bytes16(x as int),
{
    v.push((x % 256) as u8);
    v.push((x / 256) as u8);
    assert(final(v)@ =~= old(v)@ + bytes16(x as int));
}

pub(crate) fn push_u32(v: &mut Vec<u8>, x: u32)
    ensures
        final(v)@ == old(v)@ + bytes32(x as int),
{
    v.push((x % 256) as u8);
    v.push((x / 256 % 256) as u8);
    v.push((x / 65536 % 256) as u8);
    v.push((x / 16777216) as u8);
    assert(final(v)@ =~= old(v)@ + bytes32(x as int));
}

/// A 16-bit two's-complement value.
pub open spec fn signed16(v: int) -> int {
    if v >= 32768 {
        v - 65536
    } else {
        v
    }
}

pub(crate) fn read_u16(d: &Vec<u8>, p: usize) -> (r: u16)
    requires
        p + 2 <= d@.len(),
    ensures
        r == le16(d@[p as int], d@[p + 1]),
{
    let _n: usize = d.len();
    d[p] as u16 + 256 * d[p + 1] as u16
}

pub(crate) fn read_i16(d: &Vec<u8>, p: usize) -> (r: i16)
    requires
        p + 2 <= d@.len(),
    ensures
        r == signed16(le16(d@[p as int], d@[p + 1])),
{
    let _n: usize = d.len();
    let v: i32 = d[p] as i32 + 256 * d[p + 1] as i32;
    if v >= 32768 {
        (v - 65536) as i16
    } else {
        v as i16
    }
}

pub(crate) fn read_u32(d: &Vec<u8>, p: usize) -> (r: u32)
    requires
        p + 4 <= d@.len(),
    ensures
        r == le32(d@[p as int], d@[p + 1], d@[p + 2], d@[p + 3]),
{
    let _n: usize = d.len();
    d[p] as u32 + 256 * d[p + 1] as u32 + 65536 * d[p + 2] as u32 + 16777216 * d[p + 3] as u32
}

/// Reading back the bytes of a 16-bit value gives the value.
pub proof fn lemma_le16(v: int)
    requires
        0 <= v < 65536,
    ensures
        le16(bytes16(v)[0], bytes16(v)[1]) == v,
{
}

/// Reading back the bytes of a 32-bit value gives the value.
pub proof fn lemma_le32(v: int)
    requires
        0 <= v < 0x1_0000_0000,
    ensures
        le32(bytes32(v)[0], bytes32(v)[1], bytes32(v)[2], bytes32(v)[3]) == v,
{
}

/// Builds the frame of a request with major opcode `opcode`, data byte `data`
/// and `body`; fails when the frame would exceed 65535 four-byte units.
pub fn encode_request(opcode: u8, data: u8, body: &Vec<u8>) -> (r: Result<Vec<u8>, WireError>)
    ensures
        r.is_ok() <==> request_words(body@.len()) <= 65535,
        r.is_ok() ==> r.unwrap()@ == request_frame(opcode, data, body@),
        r.is_err() ==> r == Err::<Vec<u8>, WireError>(WireError::RequestTooLong),
{
    let n: usize = body.len();
    let pad: usize = (4 - n % 4) % 4;
    if n > 262136 {
        return Err(WireError::RequestTooLong);
    }
    let words: usize = (4 + n + pad) / 4;
    if words > 65535 {
        return Err(WireError::RequestTooLong);
    }
    let mut v: Vec<u8> = Vec::new();
    v.push(opcode);
    v.push(data);
    push_u16(&mut v, words as u16);
    let mut i: usize = 0;
    while i < n
        invariant
            i <= n,
            n == body@.len(),
            v@ == seq![opcode, data] + bytes16(words as int) + body@.subrange(0, i as int),
        decreases n - i,
    {
        v.push(body[i]);
        i = i + 1;
        assert(v@ =~= seq![opcode, data] + bytes16(words as int) + body@.subrange(0, i as int));
    }
    let ghost before = v@;
    let mut k: usize = 0;
    while k < pad
        invariant
            k <= pad,
            v@ == before + zeros(k as nat),
        decreases pad - k,
    {
        v.push(0);
        k = k + 1;
        assert(v@ =~= before + zeros(k as nat));
    }
    assert(body@.subrange(0, n as int) =~= body@);
    Ok(v)
}

/// Every request frame is a whole number of four-byte units, and its length
/// field gives that number.
pub proof fn lemma_request_frame_len(opcode: u8, data: u8, body: Seq<u8>)
    requires
        request_words(body.len()) <= 65535,
    ensures
        request_frame(opcode, data, body).len() % 4 == 0,
        request_frame(opcode, data, body).len() == 4 * request_words(body.len()),
        le16(request_frame(opcode, data, body)[2], request_frame(opcode, data, body)[3]) == request_words(
            body.len(),
        ),
{
    lemma_le16(request_words(body.len()) as int);
}

/// The major opcode of the core request that asks the server about an extension.
pub const QUERY_EXTENSION: u8 = 98;

/// The major opcode of the core request that lists the server's extensions.
pub const LIST_EXTENSIONS: u8 = 99;

/// The body of a request that asks about the extension `name`: the name's
/// length, two unused bytes, the name.
pub open spec fn query_extension_body(name: Seq<u8>) -> Seq<u8> {
    bytes16(name.len() as int) + seq![0u8, 0u8] + name
}

/// The name that a query-extension request frame asks about, if `f` is one.
pub open spec fn decode_query_extension_spec(f: Seq<u8>) -> Option<Seq<u8>> {
    if f.len() >= 8 && f[0] == QUERY_EXTENSION && 4 * le16(f[2], f[3]) == f.len() && 8 + le16(
        f[4],
        f[5],
    ) <= f.len() {
        Some(f.subrange(8, 8 + le16(f[4], f[5])))
    } else {
        None
    }
}

/// Builds the request that asks the server about the extension `name`.
pub fn encode_query_extension(name: &Vec<u8>) -> (r: Result<Vec<u8>, WireError>)
    ensures
        r.is_ok() <==> name@.len() <= 65535,
        r.is_ok() ==> r.unwrap()@ == request_frame(QUERY_EXTENSION, 0, query_extension_body(name@)),
        r.is_err() ==> r == Err::<Vec<u8>, WireError>(WireError::RequestTooLong),
{
    let n: usize = name.len();
    if n > 65535 {
        return Err(WireError::RequestTooLong);
    }
    let mut body: Vec<u8> = Vec::new();
    push_u16(&mut body, n as u16);
    body.push(0);
    body.push(0);
    let mut i: usize = 0;
    while i < n
        invariant
            i <= n,
            n == name@.len(),
            body@ == bytes16(n as int) + seq![0u8, 0u8] + name@.subrange(0, i as int),
        decreases n - i,
    {
        body.push(name[i]);
        i = i + 1;
        assert(body@ =~= bytes16(n as int) + seq![0u8, 0u8] + name@.subrange(0, i as int));
    }
    assert(name@.subrange(0, n as int) =~= name@);
    encode_request(QUERY_EXTENSION, 0, &body)
}

/// Builds the request that lists the server's extensions.
pub fn encode_list_extensions() -> (r: Vec<u8>)
    ensures
        r@ == request_frame(LIST_EXTENSIONS, 0, Seq::empty()),
{
    let body: Vec<u8> = Vec::new();
    match encode_request(LIST_EXTENSIONS, 0, &body) {
        Ok(v) => v,
        Err(_) => {
            proof {
                assert(false);
            }
            Vec::new()
        },
    }
}

/// Reads the extension name out of a query-extension request frame.
pub fn decode_query_extension(f: &Vec<u8>) -> (r: Option<Vec<u8>>)
    ensures
        r.is_some() == decode_query_extension_spec(f@).is_some(),
        r.is_some() ==> r.unwrap()@ == decode_query_extension_spec(f@).unwrap(),
{
    let len: usize = f.len();
    if len < 8 || f[0] != QUERY_EXTENSION {
        return None;
    }
    let words: usize = f[2] as usize + 256 * f[3] as usize;
    if 4 * words != len {
        return None;
    }
    let n: usize = f[4] as usize + 256 * f[5] as usize;
    if 8 + n > len {
        return None;
    }
    let mut name: Vec<u8> = Vec::new();
    let mut i: usize = 0;
    while i < n
        invariant
            i <= n,
            8 + n <= len,
            len == f@.len(),
            name@ == f@.subrange(8, 8 + i),
        decreases n - i,
    {
        name.push(f[8 + i]);
        i = i + 1;
        assert(name@ =~= f@.subrange(8, 8 + i));
    }
    Some(name)
}

/// Decoding a query-extension request that was just built gives back the name.
pub proof fn lemma_query_extension_round_trip(name: Seq<u8>)
    requires
        name.len() <= 65535,
    ensures
        decode_query_extension_spec(request_frame(QUERY_EXTENSION, 0, query_extension_body(name)))
            == Some(name),
{
    let body = query_extension_body(name);
    let f = request_frame(QUERY_EXTENSION, 0, body);
    lemma_request_frame_len(QUERY_EXTENSION, 0, body);
    lemma_le16(name.len() as int);
    assert(f[4] == body[0] && f[5] == body[1]);
    assert(f.subrange(8, 8 + name.len() as int) =~= name);
}

/// A protocol error that the server reported.
#[derive(Debug, Clone, Copy, PartialEq, Eq)]
pub struct XError {
    pub code: u8,
    pub sequence: u16,
    pub bad_value: u32,
    pub minor_opcode: u16,
    pub major_opcode: u8,
}

/// The 32 bytes of an error frame.
pub open spec fn error_frame(e: XError) -> Seq<u8> {
    seq![0u8, e.code] + bytes16(e.sequence as int) + bytes32(e.bad_value as int) + bytes16(
        e.minor_opcode as int,
    ) + seq![e.major_opcode] + zeros(21)
}

/// The sequence number carried by a reply, error or event frame.
pub open spec fn frame_sequence(f: Seq<u8>) -> u16 {
    le16(f[2], f[3]) as u16
}

/// The error that an error frame describes.
pub open spec fn decode_error_spec(f: Seq<u8>) -> XError {
    XError {
        code: f[1],
        sequence: frame_sequence(f),
        bad_value: le32(f[4], f[5], f[6], f[7]) as u32,
        minor_opcode: le16(f[8], f[9]) as u16,
        major_opcode: f[10],
    }
}

/// Reads the error out of an error frame.
pub fn decode_error(f: &Vec<u8>) -> (r: XError)
    requires
        f@.len() >= 11,
    ensures
        r == decode_error_spec(f@),
{
    XError {
        code: f[1],
        sequence: f[2] as u16 + 256 * f[3] as u16,
        bad_value: f[4] as u32 + 256 * f[5] as u32 + 65536 * f[6] as u32 + 16777216 * f[7] as u32,
        minor_opcode: f[8] as u16 + 256 * f[9] as u16,
        major_opcode: f[10],
    }
}

/// Builds the error frame that describes `e`.
pub fn encode_error(e: XError) -> (r: Vec<u8>)
    ensures
        r@ == error_frame(e),
        r@.len() == 32,
{
    let mut v: Vec<u8> = Vec::new();
    v.push(0);
    v.push(e.code);
    push_u16(&mut v, e.sequence);
    push_u32(&mut v, e.bad_value);
    push_u16(&mut v, e.minor_opcode);
    v.push(e.major_opcode);
    let ghost before = v@;
    let mut k: usize = 0;
    while k < 21
        invariant
            k <= 21,
            v@ == before + zeros(k as nat),
        decreases 21 - k,
    {
        v.push(0);
        k = k + 1;
        assert(v@ =~= before + zeros(k as nat));
    }
    assert(v@ =~= error_frame(e));
    v
}

/// Every error frame is 32 bytes, and decoding one gives back the error it was built from.
pub proof fn lemma_error_round_trip(e: XError)
    ensures
        error_frame(e).len() == 32,
        error_frame(e)[0] == 0,
        decode_error_spec(error_frame(e)) == e,
{
    let f = error_frame(e);
    lemma_le16(e.sequence as int);
    lemma_le16(e.minor_opcode as int);
    lemma_le32(e.bad_value as int);
    assert(f[2] == bytes16(e.sequence as int)[0] && f[3] == bytes16(e.sequence as int)[1]);
    assert(f[8] == bytes16(e.minor_opcode as int)[0] && f[9] == bytes16(e.minor_opcode as int)[1]);
    assert(f[4] == bytes32(e.bad_value as int)[0] && f[5] == bytes32(e.bad_value as int)[1]);
    assert(f[6] == bytes32(e.bad_value as int)[2] && f[7] == bytes32(e.bad_value as int)[3]);
}

/// What the server reported of an extension.
#[derive(Debug, Clone, Copy, PartialEq, Eq)]
pub struct ExtensionInfo {
    pub major_opcode: u8,
    pub first_event: u8,
    pub first_error: u8,
}

/// The outcome that a query-extension reply frame reports: the extension's
/// opcodes where byte 8 says it is present, none where it is absent.
pub open spec fn query_extension_reply_spec(f: Seq<u8>) -> Option<ExtensionInfo> {
    if f[8] != 0 {
        Some(ExtensionInfo { major_opcode: f[9], first_event: f[10], first_error: f[11] })
    } else {
        None
    }
}

/// Reads a query-extension reply; an extension that the server lacks is `Ok(None)`.
pub fn decode_query_extension_reply(f: &Vec<u8>) -> (r: Result<Option<ExtensionInfo>, WireError>)
    ensures
        r.is_ok() <==> (f@.len() >= 32 && f@[0] == 1),
        r.is_ok() ==> r == Ok::<Option<ExtensionInfo>, WireError>(query_extension_reply_spec(f@)),
        r.is_err() ==> r == Err::<Option<ExtensionInfo>, WireError>(WireError::Malformed),
{
    if f.len() < 32 || f[0] != 1 {
        return Err(WireError::Malformed);
    }
    if f[8] != 0 {
        Ok(Some(ExtensionInfo { major_opcode: f[9], first_event: f[10], first_error: f[11] }))
    } else {
        Ok(None)
    }
}

/// `n` names, each a length byte and that many bytes, read from the front of
/// `d`; what follows them is ignored (padding).
pub open spec fn parse_names(d: Seq<u8>, n: nat) -> Option<Seq<Seq<u8>>>
    decreases n,
{
    if n == 0 {
        Some(Seq::empty())
    } else if d.len() == 0 || 1 + d[0] > d.len() {
        None
    } else {
        match parse_names(d.subrange(1 + d[0], d.len() as int), (n - 1) as nat) {
            Some(rest) => Some(seq![d.subrange(1, 1 + d[0])] + rest),
            None => None,
        }
    }
}

/// The extension names that a list-extensions reply frame gives: byte 1 counts
/// them, and they follow the 32-byte header.
pub open spec fn list_extensions_reply_spec(f: Seq<u8>) -> Option<Seq<Seq<u8>>> {
    if f.len() >= 32 && f[0] == 1 {
        parse_names(f.subrange(32, f.len() as int), f[1] as nat)
    } else {
        None
    }
}

/// Reads the extension names out of a list-extensions reply frame.
pub fn decode_list_extensions_reply(f: &Vec<u8>) -> (r: Result<Vec<Vec<u8>>, WireError>)
    ensures
        r.is_ok() == list_extensions_reply_spec(f@).is_some(),
        r.is_ok() ==> r.unwrap()@.map_values(|v: Vec<u8>| v@) == list_extensions_reply_spec(
            f@,
        ).unwrap(),
        r.is_err() ==> r == Err::<Vec<Vec<u8>>, WireError>(WireError::Malformed),
{
    let len: usize = f.len();
    if len < 32 || f[0] != 1 {
        return Err(WireError::Malformed);
    }
    let n: u8 = f[1];
    let ghost d0 = f@.subrange(32, len as int);
    let mut names: Vec<Vec<u8>> = Vec::new();
    let mut pos: usize = 32;
    let mut k: u8 = 0;
    while k < n
        invariant
            32 <= pos <= len,
            len == f@.len(),
            k <= n,
            n == f@[1],
            f@[0] == 1,
            d0 == f@.subrange(32, len as int),
            parse_names(d0, n as nat) == match parse_names(f@.subrange(pos as int, len as int), (n - k) as nat) {
                Some(rest) => Some(names@.map_values(|v: Vec<u8>| v@) + rest),
                None => None,
            },
        decreases n - k,
    {
        let ghost d = f@.subrange(pos as int, len as int);
        if pos >= len {
            assert(d.len() == 0);
            assert(parse_names(d, (n - k) as nat).is_none());
            return Err(WireError::Malformed);
        }
        let l: usize = f[pos] as usize;
        if l + 1 > len - pos {
            assert(d[0] == l && d.len() == len - pos);
            assert(parse_names(d, (n - k) as nat).is_none());
            return Err(WireError::Malformed);
        }
        let mut name: Vec<u8> = Vec::new();
        let mut i: usize = 0;
        while i < l
            invariant
                i <= l,
                pos + 1 + l <= len,
                len == f@.len(),
                name@ == f@.subrange(pos + 1, pos + 1 + i),
            decreases l - i,
        {
            name.push(f[pos + 1 + i]);
            i = i + 1;
            assert(name@ =~= f@.subrange(pos + 1, pos + 1 + i));
        }
        let ghost before = names@.map_values(|v: Vec<u8>| v@);
        let ghost nv = name@;
        names.push(name);
        proof {
            assert(d[0] == l);
            assert(d.subrange(1, 1 + l as int) =~= nv);
            assert(d.subrange(1 + l as int, d.len() as int) =~= f@.subrange(pos + 1 + l, len as int));
            assert(names@.map_values(|v: Vec<u8>| v@) =~= before.push(nv));
            match parse_names(f@.subrange(pos + 1 + l, len as int), (n - k - 1) as nat) {
                Some(rest) => {
                    assert(before + (seq![nv] + rest) =~= before.push(nv) + rest);
                },
                None => {},
            }
        }
        pos = pos + 1 + l;
        k = k + 1;
    }
    proof {
        assert(names@.map_values(|v: Vec<u8>| v@) + Seq::<Seq<u8>>::empty() =~= names@.map_values(
            |v: Vec<u8>| v@,
        ));
    }
    Ok(names)
}

} // verus!
