//! Application packets and their text form.
//!
//! The text of a packet is its type digit, then, for the two binary types,
//! the number of attachments and `-`, then the namespace and `,` unless the
//! namespace is the root, then the ack id if there is one, then the payload.

use vstd::prelude::*;
use vstd::slice::slice_subrange;
use crate::error::DecodeError;
use crate::wire::{
    copy_range, decimal, extend, is_digit, lemma_decimal, lemma_number_absent, lemma_number_of_decimal, number, push_decimal, read_number,
};

verus! {

/// The type of an application packet.
#[derive(Clone, Copy, Debug, PartialEq, Eq, Structural)]
pub enum PacketKind {
    Connect,
    Disconnect,
    Event,
    Ack,
    ConnectError,
    BinaryEvent,
    BinaryAck,
}

/// One application packet. The payload is held as it is written on the wire.
#[derive(Debug, PartialEq, Eq)]
pub struct ApplicationPacket {
    pub kind: PacketKind,
    /// The namespace, starting with `/`. The root namespace is `/` alone.
    pub namespace: Vec<u8>,
    pub ack_id: Option<u64>,
    /// The number of binary attachments that follow the packet.
    pub attachments: u64,
    pub payload: Vec<u8>,
}

/// The mathematical content of an [`ApplicationPacket`].
pub struct ApplicationView {
    pub kind: PacketKind,
    pub namespace: Seq<u8>,
    pub ack_id: Option<u64>,
    pub attachments: u64,
    pub payload: Seq<u8>,
}

impl View for ApplicationPacket {
    type V = ApplicationView;

    open spec fn view(&self) -> ApplicationView {
        ApplicationView {
            kind: self.kind,
            namespace: self.namespace@,
            ack_id: self.ack_id,
            attachments: self.attachments,
            payload: self.payload@,
        }
    }
}

/// The digit of a packet type: 0 connect, 1 disconnect, 2 event, 3 ack,
/// 4 connect error, 5 binary event, 6 binary ack.
pub open spec fn kind_code(kind: PacketKind) -> u8 {
    match kind {
        PacketKind::Connect => 0,
        PacketKind::Disconnect => 1,
        PacketKind::Event => 2,
        PacketKind::Ack => 3,
        PacketKind::ConnectError => 4,
        PacketKind::BinaryEvent => 5,
        PacketKind::BinaryAck => 6,
    }
}

/// The packet type that the byte `b` stands for, if any.
pub open spec fn kind_of(b: u8) -> Option<PacketKind> {
    if b == 0x30 {
        Some(PacketKind::Connect)
    } else if b == 0x31 {
        Some(PacketKind::Disconnect)
    } else if b == 0x32 {
        Some(PacketKind::Event)
    } else if b == 0x33 {
        Some(PacketKind::Ack)
    } else if b == 0x34 {
        Some(PacketKind::ConnectError)
    } else if b == 0x35 {
        Some(PacketKind::BinaryEvent)
    } else if b == 0x36 {
        Some(PacketKind::BinaryAck)
    } else {
        None
    }
}

/// The packet types that announce attachments.
pub open spec fn is_binary(kind: PacketKind) -> bool {
    kind == PacketKind::BinaryEvent || kind == PacketKind::BinaryAck
}

/// The root namespace, `/`.
pub open spec fn root() -> Seq<u8> {
    seq![0x2fu8]
}

/// The packets that the text form can hold without ambiguity: the namespace
/// starts with `/` and holds no `,`; only binary types announce attachments;
/// the payload does not start with a digit, nor, in the root namespace, with
/// `/`.
pub open spec fn representable(p: ApplicationView) -> bool {
    &&& p.namespace.len() >= 1
    &&& p.namespace[0] == 0x2f
    &&& forall|i: int| 0 <= i < p.namespace.len() ==> p.namespace[i] != 0x2c
    &&& !is_binary(p.kind) ==> p.attachments == 0
    &&& p.payload.len() > 0 ==> !is_digit(p.payload[0])
    &&& p.payload.len() > 0 && p.namespace == root() ==> p.payload[0] != 0x2f
}

/// The attachment count as it is written: for binary types the number and `-`.
pub open spec fn attachments_text(p: ApplicationView) -> Seq<u8> {
    if is_binary(p.kind) {
        decimal(p.attachments as nat).push(0x2d)
    } else {
        Seq::empty()
    }
}

/// The namespace as it is written: nothing for the root, else the namespace
/// and `,`.
pub open spec fn namespace_text(p: ApplicationView) -> Seq<u8> {
    if p.namespace == root() {
        Seq::empty()
    } else {
        p.namespace.push(0x2c)
    }
}

/// The ack id as it is written.
pub open spec fn ack_text(p: ApplicationView) -> Seq<u8> {
    match p.ack_id {
        Some(id) => decimal(id as nat),
        None => Seq::empty(),
    }
}

/// The text of a packet.
pub open spec fn text_of(p: ApplicationView) -> Seq<u8> {
    seq![(0x30 + kind_code(p.kind)) as u8] + attachments_text(p) + namespace_text(p) + ack_text(p)
        + p.payload
}

/// The place of the first `,` in `s`, or the length of `s` where it has none.
pub open spec fn comma_at(s: Seq<u8>) -> nat
    decreases s.len(),
{
    if s.len() == 0 || s[0] == 0x2c {
        0
    } else {
        1 + comma_at(s.skip(1))
    }
}

/// The attachment count at the front of `s`, and what follows it. A binary
/// type must have its number and `-`; the other types have neither.
pub open spec fn attachments_in(kind: PacketKind, s: Seq<u8>) -> Result<
    (u64, Seq<u8>),
    DecodeError,
> {
    if !is_binary(kind) {
        Ok((0, s))
    } else {
        match number(s) {
            Err(e) => Err(e),
            Ok(None) => Err(DecodeError::InvalidFormat),
            Ok(Some((count, len))) => if len < s.len() && s[len as int] == 0x2d {
                Ok((count, s.skip(len as int + 1)))
            } else {
                Err(DecodeError::InvalidFormat)
            },
        }
    }
}

/// The namespace at the front of `s`, and what follows it. Text that starts
/// with `/` names a namespace, up to the first `,` or to the end; any other
/// text leaves the root namespace.
pub open spec fn namespace_in(s: Seq<u8>) -> (Seq<u8>, Seq<u8>) {
    if s.len() > 0 && s[0] == 0x2f {
        let end = comma_at(s) as int;
        if end < s.len() {
            (s.take(end), s.skip(end + 1))
        } else {
            (s, Seq::empty())
        }
    } else {
        (root(), s)
    }
}

/// The ack id at the front of `s`, if `s` starts with digits, and what
/// follows it.
pub open spec fn ack_in(s: Seq<u8>) -> Result<(Option<u64>, Seq<u8>), DecodeError> {
    match number(s) {
        Err(e) => Err(e),
        Ok(None) => Ok((None, s)),
        Ok(Some((id, len))) => Ok((Some(id), s.skip(len as int))),
    }
}

/// The packet that a text holds.
pub open spec fn packet_in(s: Seq<u8>) -> Result<ApplicationView, DecodeError> {
    if s.len() == 0 {
        Err(DecodeError::UnexpectedEof)
    } else {
        match kind_of(s[0]) {
            None => Err(DecodeError::InvalidFormat),
            Some(kind) => match attachments_in(kind, s.skip(1)) {
                Err(e) => Err(e),
                Ok((attachments, after_count)) => {
                    let (namespace, after_namespace) = namespace_in(after_count);
                    match ack_in(after_namespace) {
                        Err(e) => Err(e),
                        Ok((ack_id, payload)) => Ok(
                            ApplicationView { kind, namespace, ack_id, attachments, payload },
                        ),
                    }
                },
            },
        }
    }
}

fn kind_from(b: u8) -> (r: Option<PacketKind>)
    ensures
        r == kind_of(b),
{
    if b == 0x30 {
        Some(PacketKind::Connect)
    } else if b == 0x31 {
        Some(PacketKind::Disconnect)
    } else if b == 0x32 {
        Some(PacketKind::Event)
    } else if b == 0x33 {
        Some(PacketKind::Ack)
    } else if b == 0x34 {
        Some(PacketKind::ConnectError)
    } else if b == 0x35 {
        Some(PacketKind::BinaryEvent)
    } else if b == 0x36 {
        Some(PacketKind::BinaryAck)
    } else {
        None
    }
}

fn find_comma(s: &[u8]) -> (at: usize)
    ensures
        at == comma_at(s@),
        at <= s@.len(),
{
    let mut i: usize = 0;
    proof {
        assert(s@.skip(0) =~= s@);
    }
    while i < s.len() && s[i] != 0x2c
        invariant
            i <= s.len(),
            comma_at(s@) == i + comma_at(s@.skip(i as int)),
        decreases s.len() - i,
    {
        proof {
            assert(s@.skip(i as int).skip(1) =~= s@.skip(i + 1));
        }
        i += 1;
    }
    i
}

impl PacketKind {
    /// The digit of this packet type.
    pub fn code(&self) -> (code: u8)
        ensures
            code == kind_code(*self),
    {
        match self {
            PacketKind::Connect => 0,
            PacketKind::Disconnect => 1,
            PacketKind::Event => 2,
            PacketKind::Ack => 3,
            PacketKind::ConnectError => 4,
            PacketKind::BinaryEvent => 5,
            PacketKind::BinaryAck => 6,
        }
    }

    /// Whether packets of this type announce attachments.
    pub fn is_binary(&self) -> (r: bool)
        ensures
            r == is_binary(*self),
    {
        match self {
            PacketKind::BinaryEvent => true,
            PacketKind::BinaryAck => true,
            _ => false,
        }
    }
}

impl ApplicationPacket {
    /// Whether the namespace is the root.
    pub fn in_root(&self) -> (r: bool)
        ensures
            r == (self@.namespace == root()),
    {
        let r = self.namespace.len() == 1 && self.namespace[0] == 0x2f;
        if r {
            assert(self@.namespace =~= root());
        }
        r
    }

    /// Writes the packet as text.
    pub fn encode(&self) -> (text: Vec<u8>)
        ensures
            text@ == text_of(self@),
    {
        let mut text: Vec<u8> = Vec::new();
        text.push(0x30 + self.kind.code());
        if self.kind.is_binary() {
            push_decimal(&mut text, self.attachments);
            text.push(0x2d);
        }
        if !self.in_root() {
            extend(&mut text, self.namespace.as_slice());
            text.push(0x2c);
        }
        match self.ack_id {
            Some(id) => push_decimal(&mut text, id),
            None => {},
        }
        extend(&mut text, self.payload.as_slice());
        assert(text@ =~= text_of(self@));
        text
    }

    /// Reads a packet from its text.
    pub fn decode(text: &[u8]) -> (r: Result<ApplicationPacket, DecodeError>)
        ensures
            match packet_in(text@) {
                Ok(p) => r matches Ok(packet) && packet@ == p,
                Err(e) => r matches Err(e2) && e2 == e,
            },
    {
        if text.len() == 0 {
            return Err(DecodeError::UnexpectedEof);
        }
        let kind = match kind_from(text[0]) {
            Some(kind) => kind,
            None => return Err(DecodeError::InvalidFormat),
        };
        let mut rest = slice_subrange(text, 1, text.len());
        let mut attachments: u64 = 0;
        if kind.is_binary() {
            match read_number(rest) {
                Err(e) => return Err(e),
                Ok(None) => return Err(DecodeError::InvalidFormat),
                Ok(Some((count, len))) => {
                    if len < rest.len() && rest[len] == 0x2d {
                        attachments = count;
                        rest = slice_subrange(rest, len + 1, rest.len());
                    } else {
                        return Err(DecodeError::InvalidFormat);
                    }
                },
            }
        }
        let ghost after_count = rest@;
        assert(attachments_in(kind, text@.skip(1)) == Ok::<_, DecodeError>(
            (attachments, after_count),
        ));
        let mut namespace: Vec<u8> = Vec::new();
        if rest.len() > 0 && rest[0] == 0x2f {
            let end = find_comma(rest);
            if end < rest.len() {
                namespace = copy_range(rest, 0, end);
                rest = slice_subrange(rest, end + 1, rest.len());
            } else {
                namespace = copy_range(rest, 0, rest.len());
                rest = slice_subrange(rest, rest.len(), rest.len());
            }
        } else {
            namespace.push(0x2f);
        }
        assert(namespace@ =~= namespace_in(after_count).0);
        assert(rest@ =~= namespace_in(after_count).1);
        let mut ack_id: Option<u64> = None;
        match read_number(rest) {
            Err(e) => return Err(e),
            Ok(None) => {},
            Ok(Some((id, len))) => {
                ack_id = Some(id);
                rest = slice_subrange(rest, len, rest.len());
            },
        }
        let payload = copy_range(rest, 0, rest.len());
        assert(payload@ =~= rest@);
        Ok(ApplicationPacket { kind, namespace, ack_id, attachments, payload })
    }
}

proof fn lemma_comma_at(name: Seq<u8>, rest: Seq<u8>)
    requires
        forall|i: int| 0 <= i < name.len() ==> name[i] != 0x2c,
    ensures
        comma_at(name.push(0x2c) + rest) == name.len(),
    decreases name.len(),
{
    let s = name.push(0x2c) + rest;
    if name.len() > 0 {
        assert(s[0] == name[0]);
        assert(s.skip(1) =~= name.skip(1).push(0x2c) + rest);
        lemma_comma_at(name.skip(1), rest);
    }
}

proof fn lemma_attachments_round(p: ApplicationView, tail: Seq<u8>)
    requires
        !is_binary(p.kind) ==> p.attachments == 0,
    ensures
        attachments_in(p.kind, attachments_text(p) + tail) == Ok::<_, DecodeError>(
            (p.attachments, tail),
        ),
{
    let s = attachments_text(p) + tail;
    if is_binary(p.kind) {
        let digits = decimal(p.attachments as nat);
        let dash = seq![0x2du8] + tail;
        assert(s =~= digits + dash);
        lemma_number_of_decimal(p.attachments, dash);
        assert(s[digits.len() as int] == 0x2d);
        assert(s.skip(digits.len() as int + 1) =~= tail);
    } else {
        assert(s =~= tail);
    }
}

proof fn lemma_namespace_round(p: ApplicationView, tail: Seq<u8>)
    requires
        p.namespace.len() >= 1,
        p.namespace[0] == 0x2f,
        forall|i: int| 0 <= i < p.namespace.len() ==> p.namespace[i] != 0x2c,
        tail.len() > 0 && p.namespace == root() ==> tail[0] != 0x2f,
    ensures
        namespace_in(namespace_text(p) + tail) == (p.namespace, tail),
{
    let s = namespace_text(p) + tail;
    if p.namespace == root() {
        assert(s =~= tail);
    } else {
        assert(s =~= p.namespace.push(0x2c) + tail);
        lemma_comma_at(p.namespace, tail);
        assert(s[0] == p.namespace[0]);
        assert(s.take(p.namespace.len() as int) =~= p.namespace);
        assert(s.skip(p.namespace.len() as int + 1) =~= tail);
    }
}

proof fn lemma_ack_round(p: ApplicationView)
    requires
        p.payload.len() > 0 ==> !is_digit(p.payload[0]),
    ensures
        ack_in(ack_text(p) + p.payload) == Ok::<_, DecodeError>((p.ack_id, p.payload)),
        p.ack_id is Some ==> (ack_text(p) + p.payload).len() > 0 && is_digit(
            (ack_text(p) + p.payload)[0],
        ),
        p.ack_id is None ==> ack_text(p) + p.payload == p.payload,
{
    let s = ack_text(p) + p.payload;
    match p.ack_id {
        Some(id) => {
            lemma_decimal(id as nat);
            lemma_number_of_decimal(id, p.payload);
            assert(s[0] == decimal(id as nat)[0]);
            assert(s.skip(decimal(id as nat).len() as int) =~= p.payload);
        },
        None => {
            assert(s =~= p.payload);
            lemma_number_absent(p.payload);
        },
    }
}

/// Every representable packet comes back from its own text.
pub proof fn lemma_decode_encode(p: ApplicationView)
    requires
        representable(p),
    ensures
        packet_in(text_of(p)) == Ok::<_, DecodeError>(p),
{
    let text = text_of(p);
    let tail_ack = ack_text(p) + p.payload;
    let tail_namespace = namespace_text(p) + tail_ack;
    let tail_count = attachments_text(p) + tail_namespace;
    assert(text.skip(1) =~= tail_count);
    assert(kind_of(text[0]) == Some(p.kind));
    lemma_ack_round(p);
    lemma_namespace_round(p, tail_ack);
    lemma_attachments_round(p, tail_namespace);
}

} // verus!
