use vstd::prelude::*;

use crate::wire::{bytes16, le16, le32, pad_len, read_u16, read_u32, zeros, WireError};

verus! {

/// The protocol version that this client speaks.
pub const PROTOCOL_MAJOR: u16 = 11;

pub const PROTOCOL_MINOR: u16 = 0;

/// The setup request: byte order (`l`, little-endian), protocol version, the
/// lengths of the authorization name and data, then both, each padded to four.
pub open spec fn setup_request(auth_name: Seq<u8>, auth_data: Seq<u8>) -> Seq<u8> {
    seq![0x6cu8, 0u8] + bytes16(PROTOCOL_MAJOR as int) + bytes16(PROTOCOL_MINOR as int) + bytes16(
        auth_name.len() as int,
    ) + bytes16(auth_data.len() as int) + seq![0u8, 0u8] + auth_name + zeros(
        pad_len(auth_name.len()),
    ) + auth_data + zeros(pad_len(auth_data.len()))
}

fn push_bytes(v: &mut Vec<u8>, b: &Vec<u8>)
    ensures
        final(v)@ == old(v)@ + b@ + zeros(pad_len(b@.len())),
{
    let ghost start = v@;
    let mut i: usize = 0;
    while i < b.len()
        invariant
            i <= b@.len(),
            v@ == start + b@.subrange(0, i as int),
        decreases b@.len() - i,
    {
        v.push(b[i]);
        i = i + 1;
        assert(v@ =~= start + b@.subrange(0, i as int));
    }
    assert(b@.subrange(0, i as int) =~= b@);
    let ghost mid = v@;
    let pad: usize = (4 - b.len() % 4) % 4;
    let mut k: usize = 0;
    while k < pad
        invariant
            k <= pad,
            v@ == mid + zeros(k as nat),
        decreases pad - k,
    {
        v.push(0);
        k = k + 1;
        assert(v@ =~= mid + zeros(k as nat));
    }
}

/// Builds the setup request; fails where an authorization field is longer
/// than its 16-bit length can say.
pub fn encode_setup_request(auth_name: &Vec<u8>, auth_data: &Vec<u8>) -> (r: Result<Vec<u8>, WireError>)
    ensures
        r.is_ok() <==> (auth_name@.len() <= 65535 && auth_data@.len() <= 65535),
        r.is_ok() ==> r.unwrap()@ == setup_request(auth_name@, auth_data@),
        r.is_err() ==> r == Err::<Vec<u8>, WireError>(WireError::RequestTooLong),
{
    if auth_name.len() > 65535 || auth_data.len() > 65535 {
        return Err(WireError::RequestTooLong);
    }
    let mut v: Vec<u8> = Vec::new();
    v.push(0x6c);
    v.push(0);
    v.push((PROTOCOL_MAJOR % 256) as u8);
    v.push((PROTOCOL_MAJOR / 256) as u8);
    v.push((PROTOCOL_MINOR % 256) as u8);
    v.push((PROTOCOL_MINOR / 256) as u8);
    let n = auth_name.len() as u16;
    let d = auth_data.len() as u16;
    v.push((n % 256) as u8);
    v.push((n / 256) as u8);
    v.push((d % 256) as u8);
    v.push((d / 256) as u8);
    v.push(0);
    v.push(0);
    assert(v@ =~= seq![0x6cu8, 0u8] + bytes16(PROTOCOL_MAJOR as int) + bytes16(PROTOCOL_MINOR as int)
        + bytes16(auth_name@.len() as int) + bytes16(auth_data@.len() as int) + seq![0u8, 0u8]);
    push_bytes(&mut v, auth_name);
    push_bytes(&mut v, auth_data);
    Ok(v)
}

/// How the server answered the setup request, read from the first eight bytes.
#[derive(Debug, Clone, Copy, PartialEq, Eq)]
pub enum SetupStatus {
    /// Refused; the reason text of `reason_len` bytes follows.
    Failed { reason_len: u8, major: u16, minor: u16, extra_words: u16 },
    /// Accepted; `extra_words` four-byte units of setup data follow.
    Success { major: u16, minor: u16, extra_words: u16 },
    /// Further authentication is asked for.
    Authenticate { extra_words: u16 },
}

/// Why a connection could not be set up.
#[derive(Debug, Clone, Copy, PartialEq, Eq)]
pub enum SetupError {
    /// The server speaks another major version of the protocol.
    VersionMismatch { major: u16, minor: u16 },
    /// The server refused; its reason text of `reason_len` bytes follows in
    /// `extra_words` four-byte units.
    Refused { reason_len: u8, extra_words: u16 },
    /// The server asks for further authentication.
    AuthenticationRequired { extra_words: u16 },
}

/// How many four-byte units of setup data follow an accepting status, or why
/// the connection cannot go on.
pub open spec fn accept_setup_spec(s: SetupStatus) -> Result<u16, SetupError> {
    match s {
        SetupStatus::Success { major, minor, extra_words } => if major == PROTOCOL_MAJOR {
            Ok(extra_words)
        } else {
            Err(SetupError::VersionMismatch { major, minor })
        },
        SetupStatus::Failed { reason_len, extra_words, .. } => Err(
            SetupError::Refused { reason_len, extra_words },
        ),
        SetupStatus::Authenticate { extra_words } => Err(
            SetupError::AuthenticationRequired { extra_words },
        ),
    }
}

/// Decides whether the server's setup status lets the connection go on: it
/// must accept, in the major version that this client speaks.
pub fn accept_setup(s: SetupStatus) -> (r: Result<u16, SetupError>)
    ensures
        r == accept_setup_spec(s),
{
    match s {
        SetupStatus::Success { major, minor, extra_words } => if major == PROTOCOL_MAJOR {
            Ok(extra_words)
        } else {
            Err(SetupError::VersionMismatch { major, minor })
        },
        SetupStatus::Failed { reason_len, extra_words, .. } => Err(
            SetupError::Refused { reason_len, extra_words },
        ),
        SetupStatus::Authenticate { extra_words } => Err(
            SetupError::AuthenticationRequired { extra_words },
        ),
    }
}

/// The status that the header of a setup reply gives.
pub open spec fn setup_status_spec(h: Seq<u8>) -> Option<SetupStatus> {
    let major = le16(h[2], h[3]) as u16;
    let minor = le16(h[4], h[5]) as u16;
    let extra = le16(h[6], h[7]) as u16;
    if h[0] == 0 {
        Some(SetupStatus::Failed { reason_len: h[1], major, minor, extra_words: extra })
    } else if h[0] == 1 {
        Some(SetupStatus::Success { major, minor, extra_words: extra })
    } else if h[0] == 2 {
        Some(SetupStatus::Authenticate { extra_words: extra })
    } else {
        None
    }
}

/// Reads the header of the server's answer to the setup request.
pub fn decode_setup_status(h: &Vec<u8>) -> (r: Result<SetupStatus, WireError>)
    ensures
        r.is_ok() <==> (h@.len() >= 8 && setup_status_spec(h@).is_some()),
        r.is_ok() ==> r == Ok::<SetupStatus, WireError>(setup_status_spec(h@).unwrap()),
        r.is_err() ==> r == Err::<SetupStatus, WireError>(WireError::Malformed),
{
    if h.len() < 8 {
        return Err(WireError::Malformed);
    }
    let major: u16 = h[2] as u16 + 256 * h[3] as u16;
    let minor: u16 = h[4] as u16 + 256 * h[5] as u16;
    let extra: u16 = h[6] as u16 + 256 * h[7] as u16;
    if h[0] == 0 {
        Ok(SetupStatus::Failed { reason_len: h[1], major, minor, extra_words: extra })
    } else if h[0] == 1 {
        Ok(SetupStatus::Success { major, minor, extra_words: extra })
    } else if h[0] == 2 {
        Ok(SetupStatus::Authenticate { extra_words: extra })
    } else {
        Err(WireError::Malformed)
    }
}

/// A screen as the server described it at setup.
#[derive(Debug, Clone, Copy, PartialEq, Eq)]
pub struct Screen {
    pub root: u32,
    pub width_in_pixels: u16,
    pub height_in_pixels: u16,
    pub width_in_millimeters: u16,
    pub height_in_millimeters: u16,
    pub root_depth: u8,
}

/// The screen record at offset `p` of the setup data.
pub open spec fn screen_at(d: Seq<u8>, p: int) -> Screen {
    Screen {
        root: le32(d[p], d[p + 1], d[p + 2], d[p + 3]) as u32,
        width_in_pixels: le16(d[p + 20], d[p + 21]) as u16,
        height_in_pixels: le16(d[p + 22], d[p + 23]) as u16,
        width_in_millimeters: le16(d[p + 24], d[p + 25]) as u16,
        height_in_millimeters: le16(d[p + 26], d[p + 27]) as u16,
        root_depth: d[p + 38],
    }
}

/// Where the `n` depth records starting at offset `p` end: each is eight bytes
/// and 24 bytes per visual, whose count is at bytes 2 and 3.
pub open spec fn depths_end(d: Seq<u8>, p: int, n: nat) -> Option<int>
    decreases n,
{
    if n == 0 {
        if p <= d.len() {
            Some(p)
        } else {
            None
        }
    } else if p + 8 > d.len() {
        None
    } else {
        depths_end(d, p + 8 + 24 * le16(d[p + 2], d[p + 3]), (n - 1) as nat)
    }
}

/// The `n` screen records starting at offset `p`: each is 40 bytes, its depth
/// records following, their count at byte 39.
pub open spec fn screens_from(d: Seq<u8>, p: int, n: nat) -> Option<Seq<Screen>>
    decreases n,
{
    if n == 0 {
        Some(Seq::empty())
    } else if p + 40 > d.len() {
        None
    } else {
        match depths_end(d, p + 40, d[p + 39] as nat) {
            Some(e) => match screens_from(d, e, (n - 1) as nat) {
                Some(rest) => Some(seq![screen_at(d, p)] + rest),
                None => None,
            },
            None => None,
        }
    }
}

/// Where the screen records start: after the 32 fixed bytes, the vendor text
/// padded to four, and eight bytes per pixmap format.
pub open spec fn screens_offset(d: Seq<u8>) -> int {
    let vendor = le16(d[16], d[17]);
    32 + vendor + pad_len(vendor as nat) + 8 * d[21]
}

/// The screens that the setup data describe; its byte 20 counts them.
pub open spec fn setup_screens_spec(d: Seq<u8>) -> Option<Seq<Screen>> {
    if d.len() < 32 {
        None
    } else {
        screens_from(d, screens_offset(d), d[20] as nat)
    }
}

/// The facts of a connection that the server gave at setup.
pub struct SetupInfo {
    pub resource_id_base: u32,
    pub resource_id_mask: u32,
    pub screens: Vec<Screen>,
}

fn skip_depths(d: &Vec<u8>, p: usize, n: u8) -> (r: Option<usize>)
    requires
        p <= d@.len(),
    ensures
        match depths_end(d@, p as int, n as nat) {
            Some(e) => r.is_some() && r.unwrap() == e && e <= d@.len(),
            None => r.is_none(),
        },
{
    let mut q: usize = p;
    let mut k: u8 = 0;
    while k < n
        invariant
            k <= n,
            q <= d@.len(),
            depths_end(d@, p as int, n as nat) == depths_end(d@, q as int, (n - k) as nat),
        decreases n - k,
    {
        if d.len() - q < 8 {
            return None;
        }
        let visuals: usize = d[q + 2] as usize + 256 * d[q + 3] as usize;
        let size: usize = 8 + 24 * visuals;
        if size > d.len() - q {
            assert(depths_end(d@, (q + size) as int, (n - k - 1) as nat).is_none()) by {
                lemma_depths_end_bound(d@, (q + size) as int, (n - k - 1) as nat);
            }
            return None;
        }
        q = q + size;
        k = k + 1;
    }
    proof {
        lemma_depths_end_bound(d@, q as int, 0);
    }
    Some(q)
}

proof fn lemma_depths_end_bound(d: Seq<u8>, p: int, n: nat)
    ensures
        depths_end(d, p, n).is_some() ==> p <= depths_end(d, p, n).unwrap() <= d.len(),
        p > d.len() ==> depths_end(d, p, n).is_none(),
    decreases n,
{
    if n > 0 && p + 8 <= d.len() {
        lemma_depths_end_bound(d, p + 8 + 24 * le16(d[p + 2], d[p + 3]), (n - 1) as nat);
    }
}

/// Reads the setup data that follow a successful setup header: the
/// resource-id range and the screens.
pub fn decode_setup(d: &Vec<u8>) -> (r: Result<SetupInfo, WireError>)
    ensures
        r.is_ok() <==> setup_screens_spec(d@).is_some(),
        r.is_ok() ==> r.unwrap().screens@ == setup_screens_spec(d@).unwrap()
            && r.unwrap().resource_id_base == le32(d@[4], d@[5], d@[6], d@[7])
            && r.unwrap().resource_id_mask == le32(d@[8], d@[9], d@[10], d@[11]),
        r.is_err() ==> r == Err::<SetupInfo, WireError>(WireError::Malformed),
{
    let len: usize = d.len();
    if len < 32 {
        return Err(WireError::Malformed);
    }
    let base = read_u32(d, 4);
    let mask = read_u32(d, 8);
    let n: u8 = d[20];
    let mut screens: Vec<Screen> = Vec::new();
    if n == 0 {
        return Ok(SetupInfo { resource_id_base: base, resource_id_mask: mask, screens });
    }
    let vendor: usize = read_u16(d, 16) as usize;
    let start: usize = 32 + vendor + (4 - vendor % 4) % 4 + 8 * d[21] as usize;
    let ghost s0 = start as int;
    assert(s0 == screens_offset(d@));
    let mut p: usize = start;
    let mut k: u8 = 0;
    while k < n
        invariant
            k <= n,
            n == d@[20],
            len == d@.len(),
            len >= 32,
            s0 == screens_offset(d@),
            screens_from(d@, s0, n as nat) == match screens_from(d@, p as int, (n - k) as nat) {
                Some(rest) => Some(screens@ + rest),
                None => None,
            },
        decreases n - k,
    {
        if p > len || len - p < 40 {
            return Err(WireError::Malformed);
        }
        let scr = Screen {
            root: read_u32(d, p),
            width_in_pixels: read_u16(d, p + 20),
            height_in_pixels: read_u16(d, p + 22),
            width_in_millimeters: read_u16(d, p + 24),
            height_in_millimeters: read_u16(d, p + 26),
            root_depth: d[p + 38],
        };
        let e = match skip_depths(d, p + 40, d[p + 39]) {
            Some(e) => e,
            None => {
                return Err(WireError::Malformed);
            },
        };
        let ghost before = screens@;
        screens.push(scr);
        proof {
            assert(scr == screen_at(d@, p as int));
            assert(depths_end(d@, p + 40, d@[p + 39] as nat) == Some(e as int));
            assert(p + 40 <= d@.len());
            assert(screens_from(d@, p as int, (n - k) as nat) == match screens_from(
                d@,
                e as int,
                (n - k - 1) as nat,
            ) {
                Some(rest) => Some(seq![scr] + rest),
                None => None,
            });
            match screens_from(d@, e as int, (n - k - 1) as nat) {
                Some(rest) => {
                    assert(before + (seq![scr] + rest) =~= before.push(scr) + rest);
                },
                None => {},
            }
        }
        p = e;
        k = k + 1;
    }
    assert(screens@ + Seq::<Screen>::empty() =~= screens@);
    Ok(SetupInfo { resource_id_base: base, resource_id_mask: mask, screens })
}

/// Hands out resource ids from the range that the server assigned: the
/// `n`-th id is `base + n`, for `n` up to `mask`.
pub struct ResourceIds {
    pub base: u32,
    pub mask: u32,
    pub used: u64,
}

impl ResourceIds {
    pub fn new(base: u32, mask: u32) -> (r: ResourceIds)
        ensures
            r == (ResourceIds { base, mask, used: 0 }),
    {
        ResourceIds { base, mask, used: 0 }
    }

    /// The next id of the range, or `None` once the range is used up.
    pub fn generate(&mut self) -> (r: Option<u32>)
        ensures
            final(self).base == old(self).base,
            final(self).mask == old(self).mask,
            old(self).used <= old(self).mask && old(self).base + old(self).used <= u32::MAX ==> r
                == Some((old(self).base + old(self).used) as u32) && final(self).used == old(
                self,
            ).used + 1,
            !(old(self).used <= old(self).mask && old(self).base + old(self).used <= u32::MAX) ==> r
                .is_none() && final(self).used == old(self).used,
    {
        if self.used > self.mask as u64 || self.used > (u32::MAX - self.base) as u64 {
            return None;
        }
        let id = self.base + self.used as u32;
        self.used = self.used + 1;
        Some(id)
    }
}

} // verus!
