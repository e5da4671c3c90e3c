use vstd::prelude::*;

use crate::wire::{
    decode_query_extension_reply, encode_query_extension, query_extension_body,
    query_extension_reply_spec, request_frame, ExtensionInfo, WireError, QUERY_EXTENSION,
};

verus! {

/// What the cache says of `name`: `Some(d)` where an entry for it is held (the
/// first one), `d` being `None` for an extension the server lacks; `None` where
/// the server has not been asked yet.
pub open spec fn lookup_spec(c: Seq<(Seq<u8>, Option<ExtensionInfo>)>, name: Seq<u8>) -> Option<
    Option<ExtensionInfo>,
>
    decreases c.len(),
{
    if c.len() == 0 {
        None
    } else if lookup_spec(c.drop_last(), name).is_some() {
        lookup_spec(c.drop_last(), name)
    } else if c.last().0 == name {
        Some(c.last().1)
    } else {
        None
    }
}

/// Recording the server's answer for `name`: a name already held keeps its
/// entry; the result is the descriptor that the cache holds afterwards.
pub open spec fn record_spec(
    c: Seq<(Seq<u8>, Option<ExtensionInfo>)>,
    name: Seq<u8>,
    info: Option<ExtensionInfo>,
) -> (Seq<(Seq<u8>, Option<ExtensionInfo>)>, Option<ExtensionInfo>) {
    match lookup_spec(c, name) {
        Some(d) => (c, d),
        None => (c.push((name, info)), info),
    }
}

proof fn lemma_lookup_prefix(c: Seq<(Seq<u8>, Option<ExtensionInfo>)>, name: Seq<u8>, i: int)
    requires
        0 <= i <= c.len(),
        lookup_spec(c.subrange(0, i), name).is_some(),
    ensures
        lookup_spec(c, name) == lookup_spec(c.subrange(0, i), name),
    decreases c.len() - i,
{
    if i < c.len() {
        let d = c.subrange(0, i + 1);
        assert(d.drop_last() =~= c.subrange(0, i));
        lemma_lookup_prefix(c, name, i + 1);
    } else {
        assert(c.subrange(0, i) =~= c);
    }
}

proof fn lemma_lookup_none_prefix(c: Seq<(Seq<u8>, Option<ExtensionInfo>)>, name: Seq<u8>, i: int)
    requires
        0 <= i < c.len(),
        lookup_spec(c.subrange(0, i), name).is_none(),
    ensures
        lookup_spec(c.subrange(0, i + 1), name) == if c[i].0 == name {
            Some(c[i].1)
        } else {
            None
        },
{
    assert(c.subrange(0, i + 1).drop_last() =~= c.subrange(0, i));
}

fn bytes_eq(a: &Vec<u8>, b: &Vec<u8>) -> (r: bool)
    ensures
        r == (a@ == b@),
{
    if a.len() != b.len() {
        return false;
    }
    let mut i: usize = 0;
    while i < a.len()
        invariant
            i <= a@.len(),
            a@.len() == b@.len(),
            a@.subrange(0, i as int) == b@.subrange(0, i as int),
        decreases a@.len() - i,
    {
        if a[i] != b[i] {
            assert(a@[i as int] != b@[i as int]);
            return false;
        }
        i = i + 1;
        assert(a@.subrange(0, i as int) =~= a@.subrange(0, i - 1).push(a@[i - 1]));
        assert(b@.subrange(0, i as int) =~= b@.subrange(0, i - 1).push(b@[i - 1]));
    }
    assert(a@ =~= a@.subrange(0, i as int));
    assert(b@ =~= b@.subrange(0, i as int));
    true
}

/// One cached answer.
pub struct CacheEntry {
    pub name: Vec<u8>,
    pub info: Option<ExtensionInfo>,
}

/// The answers that the server gave about extensions on this connection.
pub struct ExtensionRegistry {
    entries: Vec<CacheEntry>,
}

impl View for ExtensionRegistry {
    type V = Seq<(Seq<u8>, Option<ExtensionInfo>)>;

    closed spec fn view(&self) -> Seq<(Seq<u8>, Option<ExtensionInfo>)> {
        self.entries@.map_values(|e: CacheEntry| (e.name@, e.info))
    }
}

impl ExtensionRegistry {
    /// An empty cache.
    pub fn new() -> (r: ExtensionRegistry)
        ensures
            r@ == Seq::<(Seq<u8>, Option<ExtensionInfo>)>::empty(),
    {
        let r = ExtensionRegistry { entries: Vec::new() };
        assert(r@ =~= Seq::<(Seq<u8>, Option<ExtensionInfo>)>::empty());
        r
    }

    /// The cached answer for `name`, without asking the server: `None` where it
    /// has not been asked yet.
    pub fn lookup(&self, name: &Vec<u8>) -> (r: Option<Option<ExtensionInfo>>)
        ensures
            r == lookup_spec(self@, name@),
    {
        let ghost c = self@;
        let mut i: usize = 0;
        while i < self.entries.len()
            invariant
                i <= self.entries@.len(),
                c == self@,
                c.len() == self.entries@.len(),
                lookup_spec(c.subrange(0, i as int), name@).is_none(),
            decreases self.entries@.len() - i,
        {
            proof {
                lemma_lookup_none_prefix(c, name@, i as int);
            }
            if bytes_eq(&self.entries[i].name, name) {
                proof {
                    lemma_lookup_prefix(c, name@, i + 1);
                }
                return Some(self.entries[i].info);
            }
            i = i + 1;
        }
        assert(c.subrange(0, i as int) =~= c);
        None
    }

    /// Records the server's answer for `name` unless one is already held, and
    /// returns the descriptor that the cache holds for `name` afterwards.
    pub fn record(&mut self, name: Vec<u8>, info: Option<ExtensionInfo>) -> (r: Option<ExtensionInfo>)
        ensures
            final(self)@ == record_spec(old(self)@, name@, info).0,
            r == record_spec(old(self)@, name@, info).1,
    {
        match self.lookup(&name) {
            Some(d) => d,
            None => {
                let ghost before = self.entries@;
                let ghost nv = name@;
                self.entries.push(CacheEntry { name, info });
                proof {
                    assert(self@ =~= before.map_values(|e: CacheEntry| (e.name@, e.info)).push(
                        (nv, info),
                    ));
                }
                info
            },
        }
    }

    /// Records the answer that a query-extension reply frame gives for `name`.
    /// An extension that the server lacks is recorded and returned as `Ok(None)`.
    pub fn record_reply(&mut self, name: Vec<u8>, reply: &Vec<u8>) -> (r: Result<
        Option<ExtensionInfo>,
        WireError,
    >)
        ensures
            r.is_ok() <==> (reply@.len() >= 32 && reply@[0] == 1),
            r.is_ok() ==> final(self)@ == record_spec(old(self)@, name@, query_extension_reply_spec(reply@)).0
                && r == Ok::<Option<ExtensionInfo>, WireError>(
                record_spec(old(self)@, name@, query_extension_reply_spec(reply@)).1,
            ),
            r.is_err() ==> final(self)@ == old(self)@,
    {
        let info = decode_query_extension_reply(reply)?;
        Ok(self.record(name, info))
    }
}

/// Once the server's answer for a name is recorded, looking the name up gives
/// it without asking again, and recording another answer for it changes
/// nothing: the same descriptor comes back each time.
pub proof fn lemma_cached_answer_is_stable(
    c: Seq<(Seq<u8>, Option<ExtensionInfo>)>,
    name: Seq<u8>,
    info: Option<ExtensionInfo>,
    again: Option<ExtensionInfo>,
)
    ensures
        lookup_spec(record_spec(c, name, info).0, name) == Some(record_spec(c, name, info).1),
        record_spec(record_spec(c, name, info).0, name, again) == (
        record_spec(c, name, info).0,
        record_spec(c, name, info).1,
        ),
{
    if lookup_spec(c, name).is_none() {
        assert(c.push((name, info)).drop_last() =~= c);
    }
}

/// A query-extension reply that says the extension is absent gives "not
/// present", which is recorded and returned as such, never as an error.
pub proof fn lemma_absent_extension(c: Seq<(Seq<u8>, Option<ExtensionInfo>)>, name: Seq<u8>, f: Seq<u8>)
    requires
        f.len() >= 32,
        f[0] == 1,
        f[8] == 0,
        lookup_spec(c, name).is_none(),
    ensures
        query_extension_reply_spec(f) == None::<ExtensionInfo>,
        record_spec(c, name, query_extension_reply_spec(f)).1 == None::<ExtensionInfo>,
        lookup_spec(record_spec(c, name, query_extension_reply_spec(f)).0, name) == Some(
            None::<ExtensionInfo>,
        ),
{
    assert(c.push((name, None::<ExtensionInfo>)).drop_last() =~= c);
}

/// Event codes below this belong to the core protocol.
pub const FIRST_EXTENSION_EVENT: u8 = 64;

/// Error codes below this belong to the core protocol.
pub const FIRST_EXTENSION_ERROR: u8 = 128;

/// The code of an event frame without its "sent by another client" flag (bit 7).
pub open spec fn event_code(b: u8) -> int {
    b as int % 128
}

/// The first event code (or, with `errors`, the first error code) of an extension.
pub open spec fn first_code(info: ExtensionInfo, errors: bool) -> int {
    if errors {
        info.first_error as int
    } else {
        info.first_event as int
    }
}

/// The lowest code that an extension can be given, for events or errors.
pub open spec fn first_extension_code(errors: bool) -> int {
    if errors {
        FIRST_EXTENSION_ERROR as int
    } else {
        FIRST_EXTENSION_EVENT as int
    }
}

/// Entry `i` of the cache is a present extension with events (or errors) whose
/// codes start at or below `code`.
pub open spec fn claims(c: Seq<(Seq<u8>, Option<ExtensionInfo>)>, i: int, code: int, errors: bool) -> bool {
    0 <= i < c.len() && c[i].1.is_some() && first_extension_code(errors) <= first_code(
        c[i].1.unwrap(),
        errors,
    ) <= code
}

/// Where an event or error frame comes from.
#[derive(Debug, Clone, Copy, PartialEq, Eq)]
pub enum EventOrigin {
    /// The core protocol.
    Core,
    /// The extension at this position of the cache.
    Extension(usize),
    /// An extension code whose extension was never queried.
    Unrecognized,
}

/// `r` attributes `code` as the cache `c` says: to the core below `floor`, else
/// to the claiming extension with the highest first code, else to none.
pub open spec fn attributes(
    c: Seq<(Seq<u8>, Option<ExtensionInfo>)>,
    code: int,
    errors: bool,
    r: EventOrigin,
) -> bool {
    if code < first_extension_code(errors) {
        r == EventOrigin::Core
    } else {
        match r {
            EventOrigin::Core => false,
            EventOrigin::Extension(i) => claims(c, i as int, code, errors) && forall|j: int|
                #[trigger] claims(c, j, code, errors) ==> first_code(c[j].1.unwrap(), errors)
                    <= first_code(c[i as int].1.unwrap(), errors),
            EventOrigin::Unrecognized => forall|j: int| !#[trigger] claims(c, j, code, errors),
        }
    }
}

/// What it takes to learn about an extension: the cached answer, or a
/// query-extension request to send.
pub enum ExtensionQuery {
    Cached(Option<ExtensionInfo>),
    Ask(Vec<u8>),
}

impl ExtensionRegistry {
    /// The cached answer for `name` where there is one, so that no request goes
    /// to the server; else the query-extension request for it.
    pub fn query(&self, name: &Vec<u8>) -> (r: Result<ExtensionQuery, WireError>)
        ensures
            match lookup_spec(self@, name@) {
                Some(d) => r matches Ok(ExtensionQuery::Cached(e)) && e == d,
                None => if name@.len() <= 65535 {
                    r matches Ok(ExtensionQuery::Ask(f)) && f@ == request_frame(
                        QUERY_EXTENSION,
                        0,
                        query_extension_body(name@),
                    )
                } else {
                    r matches Err(WireError::RequestTooLong)
                },
            },
    {
        match self.lookup(name) {
            Some(d) => Ok(ExtensionQuery::Cached(d)),
            None => match encode_query_extension(name) {
                Ok(f) => Ok(ExtensionQuery::Ask(f)),
                Err(e) => Err(e),
            },
        }
    }

    /// The number of cached answers.
    pub fn len(&self) -> (r: usize)
        ensures
            r == self@.len(),
    {
        self.entries.len()
    }

    /// The name of the cached extension at position `i`.
    pub fn name_at(&self, i: usize) -> (r: &Vec<u8>)
        requires
            i < self@.len(),
        ensures
            r@ == self@[i as int].0,
    {
        &self.entries[i].name
    }

    fn attribute(&self, c: u8, errors: bool) -> (r: EventOrigin)
        ensures
            attributes(self@, c as int, errors, r),
    {
        let floor: u8 = if errors { FIRST_EXTENSION_ERROR } else { FIRST_EXTENSION_EVENT };
        if c < floor {
            return EventOrigin::Core;
        }
        let mut best: Option<usize> = None;
        let mut best_code: u8 = 0;
        let mut i: usize = 0;
        while i < self.entries.len()
            invariant
                i <= self@.len(),
                self@.len() == self.entries@.len(),
                floor == first_extension_code(errors),
                c >= floor,
                match best {
                    None => forall|j: int| 0 <= j < i ==> !#[trigger] claims(self@, j, c as int, errors),
                    Some(b) => b < i && claims(self@, b as int, c as int, errors) && best_code
                        == first_code(self@[b as int].1.unwrap(), errors) && forall|j: int|
                        0 <= j < i && #[trigger] claims(self@, j, c as int, errors) ==> first_code(
                            self@[j].1.unwrap(),
                            errors,
                        ) <= best_code,
                },
            decreases self@.len() - i,
        {
            assert(self@[i as int] == (self.entries@[i as int].name@, self.entries@[i as int].info));
            match self.entries[i].info {
                Some(info) => {
                    let first: u8 = if errors { info.first_error } else { info.first_event };
                    if floor <= first && first <= c {
                        match best {
                            None => {
                                best = Some(i);
                                best_code = first;
                            },
                            Some(b) => {
                                if first > best_code {
                                    best = Some(i);
                                    best_code = first;
                                }
                            },
                        }
                    }
                },
                None => {},
            }
            i = i + 1;
        }
        match best {
            Some(b) => EventOrigin::Extension(b),
            None => EventOrigin::Unrecognized,
        }
    }

    /// Attributes the event whose first byte is `code` (its flag bit cleared): a
    /// core event below 64, else the queried extension with the highest first
    /// event code (at least 64) not above it, else unrecognized.
    pub fn classify_event(&self, code: u8) -> (r: EventOrigin)
        ensures
            attributes(self@, event_code(code), false, r),
    {
        self.attribute(code % 128, false)
    }

    /// Attributes the error with code `code`: a core error below 128, else the
    /// queried extension with the highest first error code (at least 128) not
    /// above it, else unrecognized.
    pub fn classify_error(&self, code: u8) -> (r: EventOrigin)
        ensures
            attributes(self@, code as int, true, r),
    {
        self.attribute(code, true)
    }
}

} // verus!
