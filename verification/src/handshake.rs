//! The handshake document: what the open packet carries.
//!
//! The document is the object
//! `{"sid":..,"upgrades":[..],"pingInterval":..,"pingTimeout":..,"maxPayload":..}`,
//! written without spaces and with its members in this order.

use vstd::prelude::*;
use vstd::slice::slice_subrange;
use crate::error::DecodeError;
use crate::wire::{
    copy_range, decimal, extend, is_digit, lemma_number_of_decimal, number, push_decimal,
    read_number,
};

verus! {

/// What the handshake tells the client.
#[derive(Debug, PartialEq, Eq)]
pub struct OpenPacket {
    pub sid: Vec<u8>,
    /// Whether the session can be upgraded to a WebSocket.
    pub websocket_upgrade: bool,
    /// Milliseconds between two pings.
    pub ping_interval: u64,
    /// Milliseconds that a pong may take.
    pub ping_timeout: u64,
    /// The largest payload, in bytes, that the client may send at once.
    pub max_payload: u64,
}

/// The mathematical content of an [`OpenPacket`].
pub struct OpenView {
    pub sid: Seq<u8>,
    pub websocket_upgrade: bool,
    pub ping_interval: u64,
    pub ping_timeout: u64,
    pub max_payload: u64,
}

impl View for OpenPacket {
    type V = OpenView;

    open spec fn view(&self) -> OpenView {
        OpenView {
            sid: self.sid@,
            websocket_upgrade: self.websocket_upgrade,
            ping_interval: self.ping_interval,
            ping_timeout: self.ping_timeout,
            max_payload: self.max_payload,
        }
    }
}

/// The text `{"sid":"`.
pub open spec fn key_sid() -> Seq<u8> {
    seq![0x7bu8, 0x22u8, 0x73u8, 0x69u8, 0x64u8, 0x22u8, 0x3au8, 0x22u8]
}

/// The text `","upgrades":[`.
pub open spec fn key_upgrades() -> Seq<u8> {
    seq![0x22u8, 0x2cu8, 0x22u8, 0x75u8, 0x70u8, 0x67u8, 0x72u8, 0x61u8, 0x64u8, 0x65u8, 0x73u8, 0x22u8, 0x3au8, 0x5bu8]
}

/// The text `"websocket"`.
pub open spec fn websocket_name() -> Seq<u8> {
    seq![0x22u8, 0x77u8, 0x65u8, 0x62u8, 0x73u8, 0x6fu8, 0x63u8, 0x6bu8, 0x65u8, 0x74u8, 0x22u8]
}

/// The text `],"pingInterval":`.
pub open spec fn key_ping_interval() -> Seq<u8> {
    seq![0x5du8, 0x2cu8, 0x22u8, 0x70u8, 0x69u8, 0x6eu8, 0x67u8, 0x49u8, 0x6eu8, 0x74u8, 0x65u8, 0x72u8, 0x76u8, 0x61u8, 0x6cu8, 0x22u8, 0x3au8]
}

/// The text `,"pingTimeout":`.
pub open spec fn key_ping_timeout() -> Seq<u8> {
    seq![0x2cu8, 0x22u8, 0x70u8, 0x69u8, 0x6eu8, 0x67u8, 0x54u8, 0x69u8, 0x6du8, 0x65u8, 0x6fu8, 0x75u8, 0x74u8, 0x22u8, 0x3au8]
}

/// The text `,"maxPayload":`.
pub open spec fn key_max_payload() -> Seq<u8> {
    seq![0x2cu8, 0x22u8, 0x6du8, 0x61u8, 0x78u8, 0x50u8, 0x61u8, 0x79u8, 0x6cu8, 0x6fu8, 0x61u8, 0x64u8, 0x22u8, 0x3au8]
}

/// The text `}`.
pub open spec fn closing() -> Seq<u8> {
    seq![0x7du8]
}

/// The place of the first byte `b` in `s`, or the length of `s` where it has
/// none.
pub open spec fn position_of(s: Seq<u8>, b: u8) -> nat
    decreases s.len(),
{
    if s.len() == 0 || s[0] == b {
        0
    } else {
        1 + position_of(s.skip(1), b)
    }
}

/// The session ids that the document can hold as they are: those without
/// `"` and without `\`.
pub open spec fn representable(open: OpenView) -> bool {
    forall|i: int| 0 <= i < open.sid.len() ==> open.sid[i] != 0x22 && open.sid[i] != 0x5c
}

/// The end of a document, from the list's closing bracket on.
pub open spec fn timings_text(ping_interval: u64, ping_timeout: u64, max_payload: u64) -> Seq<u8> {
    key_ping_interval() + decimal(ping_interval as nat) + key_ping_timeout() + decimal(
        ping_timeout as nat,
    ) + key_max_payload() + decimal(max_payload as nat) + closing()
}

/// The list of upgrades, without its brackets.
pub open spec fn upgrades_text(websocket_upgrade: bool) -> Seq<u8> {
    if websocket_upgrade {
        websocket_name()
    } else {
        Seq::empty()
    }
}

/// The document of a handshake.
pub open spec fn document_of(open: OpenView) -> Seq<u8> {
    key_sid() + (open.sid + (key_upgrades() + (upgrades_text(open.websocket_upgrade)
        + timings_text(open.ping_interval, open.ping_timeout, open.max_payload))))
}

/// `s` starts with `text`.
pub open spec fn starts_with(s: Seq<u8>, text: Seq<u8>) -> bool {
    s.len() >= text.len() && s.take(text.len() as int) == text
}

/// What follows `text` at the front of `s`. Where `s` is too short to hold
/// `text` the input has ended early; where it holds something else the format
/// is wrong.
pub open spec fn after(s: Seq<u8>, text: Seq<u8>) -> Result<Seq<u8>, DecodeError> {
    if s.len() < text.len() {
        Err(DecodeError::UnexpectedEof)
    } else if s.take(text.len() as int) != text {
        Err(DecodeError::InvalidFormat)
    } else {
        Ok(s.skip(text.len() as int))
    }
}

/// The number that follows `key` at the front of `s`, and what follows the
/// number.
pub open spec fn member(s: Seq<u8>, key: Seq<u8>) -> Result<(u64, Seq<u8>), DecodeError> {
    match after(s, key) {
        Err(e) => Err(e),
        Ok(rest) => match number(rest) {
            Err(e) => Err(e),
            Ok(None) => Err(DecodeError::InvalidFormat),
            Ok(Some((value, len))) => Ok((value, rest.skip(len as int))),
        },
    }
}

/// The three numbers and the closing brace that end a document.
pub open spec fn timings_in(s: Seq<u8>) -> Result<(u64, u64, u64), DecodeError> {
    match member(s, key_ping_interval()) {
        Err(e) => Err(e),
        Ok((ping_interval, s1)) => match member(s1, key_ping_timeout()) {
            Err(e) => Err(e),
            Ok((ping_timeout, s2)) => match member(s2, key_max_payload()) {
                Err(e) => Err(e),
                Ok((max_payload, s3)) => match after(s3, closing()) {
                    Err(e) => Err(e),
                    Ok(s4) => if s4.len() == 0 {
                        Ok((ping_interval, ping_timeout, max_payload))
                    } else {
                        Err(DecodeError::InvalidFormat)
                    },
                },
            },
        },
    }
}

/// The handshake that a document holds. The session id runs up to the next
/// `"` and may hold no `\`; the list of upgrades is empty or names the
/// WebSocket.
pub open spec fn document_in(s: Seq<u8>) -> Result<OpenView, DecodeError> {
    match after(s, key_sid()) {
        Err(e) => Err(e),
        Ok(s1) => {
            let sid = s1.take(position_of(s1, 0x22) as int);
            if position_of(sid, 0x5c) < sid.len() {
                Err(DecodeError::InvalidFormat)
            } else {
                match after(s1.skip(sid.len() as int), key_upgrades()) {
                    Err(e) => Err(e),
                    Ok(s2) => {
                        let websocket_upgrade = starts_with(s2, websocket_name());
                        let s3 = if websocket_upgrade {
                            s2.skip(websocket_name().len() as int)
                        } else {
                            s2
                        };
                        match timings_in(s3) {
                            Err(e) => Err(e),
                            Ok((ping_interval, ping_timeout, max_payload)) => Ok(
                                OpenView {
                                    sid,
                                    websocket_upgrade,
                                    ping_interval,
                                    ping_timeout,
                                    max_payload,
                                },
                            ),
                        }
                    },
                }
            }
        },
    }
}

fn find(s: &[u8], b: u8) -> (at: usize)
    ensures
        at == position_of(s@, b),
        at <= s@.len(),
{
    let mut i: usize = 0;
    proof {
        assert(s@.skip(0) =~= s@);
    }
    while i < s.len() && s[i] != b
        invariant
            i <= s.len(),
            position_of(s@, b) == i + position_of(s@.skip(i as int), b),
        decreases s.len() - i,
    {
        proof {
            assert(s@.skip(i as int).skip(1) =~= s@.skip(i + 1));
        }
        i += 1;
    }
    i
}

fn has_prefix(data: &[u8], text: &[u8]) -> (r: bool)
    ensures
        r == starts_with(data@, text@),
{
    if data.len() < text.len() {
        return false;
    }
    let mut i: usize = 0;
    while i < text.len()
        invariant
            i <= text.len() <= data.len(),
            forall|k: int| 0 <= k < i ==> data@[k] == text@[k],
        decreases text.len() - i,
    {
        if data[i] != text[i] {
            assert(data@.take(text@.len() as int)[i as int] != text@[i as int]);
            return false;
        }
        i += 1;
    }
    assert(data@.take(text@.len() as int) =~= text@);
    true
}

fn expect<'a>(data: &'a [u8], text: &[u8]) -> (r: Result<&'a [u8], DecodeError>)
    ensures
        match after(data@, text@) {
            Ok(rest) => r matches Ok(found) && found@ == rest,
            Err(e) => r matches Err(e2) && e2 == e,
        },
{
    if data.len() < text.len() {
        Err(DecodeError::UnexpectedEof)
    } else if !has_prefix(data, text) {
        Err(DecodeError::InvalidFormat)
    } else {
        Ok(slice_subrange(data, text.len(), data.len()))
    }
}

fn read_member<'a>(data: &'a [u8], key: &[u8]) -> (r: Result<(u64, &'a [u8]), DecodeError>)
    ensures
        match member(data@, key@) {
            Ok((value, rest)) => r matches Ok((found, left)) && found == value && left@ == rest,
            Err(e) => r matches Err(e2) && e2 == e,
        },
{
    let rest = match expect(data, key) {
        Ok(rest) => rest,
        Err(e) => {
            return Err(e);
        },
    };
    match read_number(rest) {
        Err(e) => Err(e),
        Ok(None) => Err(DecodeError::InvalidFormat),
        Ok(Some((value, len))) => Ok((value, slice_subrange(rest, len, rest.len()))),
    }
}

fn read_timings(data: &[u8]) -> (r: Result<(u64, u64, u64), DecodeError>)
    ensures
        match timings_in(data@) {
            Ok(timings) => r matches Ok(found) && found == timings,
            Err(e) => r matches Err(e2) && e2 == e,
        },
{
    let interval_key: [u8; 17] = [0x5d, 0x2c, 0x22, 0x70, 0x69, 0x6e, 0x67, 0x49, 0x6e, 0x74, 0x65, 0x72, 0x76, 0x61, 0x6c, 0x22, 0x3a];
    assert(interval_key@ =~= key_ping_interval());
    let timeout_key: [u8; 15] = [0x2c, 0x22, 0x70, 0x69, 0x6e, 0x67, 0x54, 0x69, 0x6d, 0x65, 0x6f, 0x75, 0x74, 0x22, 0x3a];
    assert(timeout_key@ =~= key_ping_timeout());
    let payload_key: [u8; 14] = [0x2c, 0x22, 0x6d, 0x61, 0x78, 0x50, 0x61, 0x79, 0x6c, 0x6f, 0x61, 0x64, 0x22, 0x3a];
    assert(payload_key@ =~= key_max_payload());
    let brace: [u8; 1] = [0x7d];
    assert(brace@ =~= closing());
    let (ping_interval, s1) = match read_member(data, interval_key.as_slice()) {
        Ok(found) => found,
        Err(e) => {
            return Err(e);
        },
    };
    let (ping_timeout, s2) = match read_member(s1, timeout_key.as_slice()) {
        Ok(found) => found,
        Err(e) => {
            return Err(e);
        },
    };
    let (max_payload, s3) = match read_member(s2, payload_key.as_slice()) {
        Ok(found) => found,
        Err(e) => {
            return Err(e);
        },
    };
    let s4 = match expect(s3, brace.as_slice()) {
        Ok(rest) => rest,
        Err(e) => {
            return Err(e);
        },
    };
    if s4.len() == 0 {
        Ok((ping_interval, ping_timeout, max_payload))
    } else {
        Err(DecodeError::InvalidFormat)
    }
}

impl OpenPacket {
    /// Writes the handshake document.
    pub fn encode(&self) -> (document: Vec<u8>)
        ensures
            document@ == document_of(self@),
    {
        let sid_key: [u8; 8] = [0x7b, 0x22, 0x73, 0x69, 0x64, 0x22, 0x3a, 0x22];
        assert(sid_key@ =~= key_sid());
        let upgrades_key: [u8; 14] = [0x22, 0x2c, 0x22, 0x75, 0x70, 0x67, 0x72, 0x61, 0x64, 0x65, 0x73, 0x22, 0x3a, 0x5b];
        assert(upgrades_key@ =~= key_upgrades());
        let websocket: [u8; 11] = [0x22, 0x77, 0x65, 0x62, 0x73, 0x6f, 0x63, 0x6b, 0x65, 0x74, 0x22];
        assert(websocket@ =~= websocket_name());
        let interval_key: [u8; 17] = [0x5d, 0x2c, 0x22, 0x70, 0x69, 0x6e, 0x67, 0x49, 0x6e, 0x74, 0x65, 0x72, 0x76, 0x61, 0x6c, 0x22, 0x3a];
        assert(interval_key@ =~= key_ping_interval());
        let timeout_key: [u8; 15] = [0x2c, 0x22, 0x70, 0x69, 0x6e, 0x67, 0x54, 0x69, 0x6d, 0x65, 0x6f, 0x75, 0x74, 0x22, 0x3a];
        assert(timeout_key@ =~= key_ping_timeout());
        let payload_key: [u8; 14] = [0x2c, 0x22, 0x6d, 0x61, 0x78, 0x50, 0x61, 0x79, 0x6c, 0x6f, 0x61, 0x64, 0x22, 0x3a];
        assert(payload_key@ =~= key_max_payload());
        let brace: [u8; 1] = [0x7d];
        assert(brace@ =~= closing());
        let mut document: Vec<u8> = Vec::new();
        extend(&mut document, sid_key.as_slice());
        extend(&mut document, self.sid.as_slice());
        extend(&mut document, upgrades_key.as_slice());
        if self.websocket_upgrade {
            extend(&mut document, websocket.as_slice());
        }
        extend(&mut document, interval_key.as_slice());
        push_decimal(&mut document, self.ping_interval);
        extend(&mut document, timeout_key.as_slice());
        push_decimal(&mut document, self.ping_timeout);
        extend(&mut document, payload_key.as_slice());
        push_decimal(&mut document, self.max_payload);
        extend(&mut document, brace.as_slice());
        assert(document@ =~= document_of(self@));
        document
    }

    /// Reads a handshake document.
    pub fn decode(document: &[u8]) -> (r: Result<OpenPacket, DecodeError>)
        ensures
            match document_in(document@) {
                Ok(open) => r matches Ok(packet) && packet@ == open,
                Err(e) => r matches Err(e2) && e2 == e,
            },
    {
        let sid_key: [u8; 8] = [0x7b, 0x22, 0x73, 0x69, 0x64, 0x22, 0x3a, 0x22];
        assert(sid_key@ =~= key_sid());
        let upgrades_key: [u8; 14] = [0x22, 0x2c, 0x22, 0x75, 0x70, 0x67, 0x72, 0x61, 0x64, 0x65, 0x73, 0x22, 0x3a, 0x5b];
        assert(upgrades_key@ =~= key_upgrades());
        let websocket: [u8; 11] = [0x22, 0x77, 0x65, 0x62, 0x73, 0x6f, 0x63, 0x6b, 0x65, 0x74, 0x22];
        assert(websocket@ =~= websocket_name());
        let s1 = match expect(document, sid_key.as_slice()) {
            Ok(rest) => rest,
            Err(e) => {
                return Err(e);
            },
        };
        let end = find(s1, 0x22);
        let sid_text = slice_subrange(s1, 0, end);
        if find(sid_text, 0x5c) < sid_text.len() {
            return Err(DecodeError::InvalidFormat);
        }
        let s2 = match expect(slice_subrange(s1, end, s1.len()), upgrades_key.as_slice()) {
            Ok(rest) => rest,
            Err(e) => {
                return Err(e);
            },
        };
        let websocket_upgrade = has_prefix(s2, websocket.as_slice());
        let s3 = if websocket_upgrade {
            slice_subrange(s2, websocket.len(), s2.len())
        } else {
            s2
        };
        match read_timings(s3) {
            Err(e) => Err(e),
            Ok((ping_interval, ping_timeout, max_payload)) => Ok(
                OpenPacket {
                    sid: copy_range(s1, 0, end),
                    websocket_upgrade,
                    ping_interval,
                    ping_timeout,
                    max_payload,
                },
            ),
        }
    }
}

proof fn lemma_position_none(s: Seq<u8>, b: u8)
    requires
        forall|i: int| 0 <= i < s.len() ==> s[i] != b,
    ensures
        position_of(s, b) == s.len(),
    decreases s.len(),
{
    if s.len() > 0 {
        assert forall|i: int| 0 <= i < s.skip(1).len() implies s.skip(1)[i] != b by {
            assert(s.skip(1)[i] == s[i + 1]);
        }
        lemma_position_none(s.skip(1), b);
    }
}

proof fn lemma_position_first(name: Seq<u8>, b: u8, rest: Seq<u8>)
    requires
        forall|i: int| 0 <= i < name.len() ==> name[i] != b,
        rest.len() > 0,
        rest[0] == b,
    ensures
        position_of(name + rest, b) == name.len(),
    decreases name.len(),
{
    if name.len() == 0 {
        assert(name + rest =~= rest);
    } else {
        assert((name + rest)[0] == name[0]);
        assert((name + rest).skip(1) =~= name.skip(1) + rest);
        assert forall|i: int| 0 <= i < name.skip(1).len() implies name.skip(1)[i] != b by {
            assert(name.skip(1)[i] == name[i + 1]);
        }
        lemma_position_first(name.skip(1), b, rest);
    }
}

proof fn lemma_after(text: Seq<u8>, rest: Seq<u8>)
    ensures
        after(text + rest, text) == Ok::<_, DecodeError>(rest),
{
    assert((text + rest).take(text.len() as int) =~= text);
    assert((text + rest).skip(text.len() as int) =~= rest);
}

proof fn lemma_member(key: Seq<u8>, value: u64, rest: Seq<u8>)
    requires
        rest.len() == 0 || !is_digit(rest[0]),
    ensures
        member(key + (decimal(value as nat) + rest), key) == Ok::<_, DecodeError>((value, rest)),
{
    lemma_after(key, decimal(value as nat) + rest);
    lemma_number_of_decimal(value, rest);
    assert((decimal(value as nat) + rest).skip(decimal(value as nat).len() as int) =~= rest);
}

proof fn lemma_timings(ping_interval: u64, ping_timeout: u64, max_payload: u64)
    ensures
        timings_in(timings_text(ping_interval, ping_timeout, max_payload)) == Ok::<_, DecodeError>(
            (ping_interval, ping_timeout, max_payload),
        ),
{
    let s = timings_text(ping_interval, ping_timeout, max_payload);
    let s3 = closing();
    let s2 = key_max_payload() + (decimal(max_payload as nat) + s3);
    let s1 = key_ping_timeout() + (decimal(ping_timeout as nat) + s2);
    assert(s =~= key_ping_interval() + (decimal(ping_interval as nat) + s1));
    lemma_member(key_ping_interval(), ping_interval, s1);
    lemma_member(key_ping_timeout(), ping_timeout, s2);
    lemma_member(key_max_payload(), max_payload, s3);
    assert(s3 =~= closing() + Seq::<u8>::empty());
    lemma_after(closing(), Seq::empty());
}

proof fn lemma_sid_part(sid: Seq<u8>, tail: Seq<u8>)
    requires
        forall|i: int| 0 <= i < sid.len() ==> sid[i] != 0x22 && sid[i] != 0x5c,
        tail.len() > 0,
        tail[0] == 0x22,
    ensures
        position_of(sid + tail, 0x22) == sid.len(),
        (sid + tail).take(sid.len() as int) == sid,
        (sid + tail).skip(sid.len() as int) == tail,
        position_of(sid, 0x5c) == sid.len(),
{
    lemma_position_first(sid, 0x22, tail);
    lemma_position_none(sid, 0x5c);
    assert((sid + tail).take(sid.len() as int) =~= sid);
    assert((sid + tail).skip(sid.len() as int) =~= tail);
}

proof fn lemma_upgrade_part(websocket_upgrade: bool, timings: Seq<u8>)
    requires
        timings.len() > 0,
        timings[0] == 0x5d,
    ensures
        starts_with(upgrades_text(websocket_upgrade) + timings, websocket_name())
            == websocket_upgrade,
        websocket_upgrade ==> (upgrades_text(websocket_upgrade) + timings).skip(
            websocket_name().len() as int,
        ) == timings,
        !websocket_upgrade ==> upgrades_text(websocket_upgrade) + timings == timings,
{
    let s2 = upgrades_text(websocket_upgrade) + timings;
    if websocket_upgrade {
        assert(s2.take(websocket_name().len() as int) =~= websocket_name());
        assert(s2.skip(websocket_name().len() as int) =~= timings);
    } else {
        assert(s2 =~= timings);
        if s2.len() >= websocket_name().len() {
            assert(s2.take(websocket_name().len() as int)[0] != websocket_name()[0]);
        }
    }
}

proof fn lemma_timings_first(ping_interval: u64, ping_timeout: u64, max_payload: u64)
    ensures
        timings_text(ping_interval, ping_timeout, max_payload).len() > 0,
        timings_text(ping_interval, ping_timeout, max_payload)[0] == 0x5d,
{
}

proof fn lemma_upgrades_first(tail: Seq<u8>)
    ensures
        (key_upgrades() + tail).len() > 0,
        (key_upgrades() + tail)[0] == 0x22,
{
}

/// Every handshake whose session id is representable comes back from its own
/// document.
pub proof fn lemma_decode_encode(open: OpenView)
    requires
        representable(open),
    ensures
        document_in(document_of(open)) == Ok::<_, DecodeError>(open),
{
    let timings = timings_text(open.ping_interval, open.ping_timeout, open.max_payload);
    let s2 = upgrades_text(open.websocket_upgrade) + timings;
    let s1_tail = key_upgrades() + s2;
    let s1 = open.sid + s1_tail;
    lemma_after(key_sid(), s1);
    lemma_upgrades_first(s2);
    lemma_sid_part(open.sid, s1_tail);
    lemma_after(key_upgrades(), s2);
    lemma_timings_first(open.ping_interval, open.ping_timeout, open.max_payload);
    lemma_upgrade_part(open.websocket_upgrade, timings);
    lemma_timings(open.ping_interval, open.ping_timeout, open.max_payload);
}

} // verus!
