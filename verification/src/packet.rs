//! Transport packets and their frames.
//!
//! A frame is one type code followed by the packet's data. On a text
//! transport the code is an ASCII digit, on a binary transport it is the bare
//! number. A frame that does not parse cannot be skipped: the error is fatal
//! to the session.

use vstd::prelude::*;
use crate::wire::{copy_range, extend};

verus! {

/// How frames are written on a transport. It is chosen at the handshake and
/// stays for the session's life.
#[derive(Clone, Copy, Debug, PartialEq, Eq, Structural)]
pub enum Encoding {
    Text,
    Binary,
}

/// Why a frame is not a packet.
#[derive(Clone, Copy, Debug, PartialEq, Eq, Structural)]
pub enum FramingError {
    /// The frame holds no byte.
    Empty,
    /// The first byte is no type code.
    UnknownType,
    /// The packet type takes no data, or not this data.
    UnexpectedData,
}

/// One transport packet.
#[derive(Debug, PartialEq, Eq)]
pub enum Packet {
    /// The handshake; its data is the handshake document.
    Open(Vec<u8>),
    Close,
    /// A heartbeat request, or the probe of a transport that is being tried.
    Ping { probe: bool },
    /// The answer to a ping of the same kind.
    Pong { probe: bool },
    /// An application packet, still encoded.
    Message(Vec<u8>),
    Upgrade,
    Noop,
}

/// The mathematical content of a [`Packet`].
pub enum PacketView {
    Open(Seq<u8>),
    Close,
    Ping { probe: bool },
    Pong { probe: bool },
    Message(Seq<u8>),
    Upgrade,
    Noop,
}

impl View for Packet {
    type V = PacketView;

    open spec fn view(&self) -> PacketView {
        match self {
            Packet::Open(data) => PacketView::Open(data@),
            Packet::Close => PacketView::Close,
            Packet::Ping { probe } => PacketView::Ping { probe: *probe },
            Packet::Pong { probe } => PacketView::Pong { probe: *probe },
            Packet::Message(data) => PacketView::Message(data@),
            Packet::Upgrade => PacketView::Upgrade,
            Packet::Noop => PacketView::Noop,
        }
    }
}

/// The text `probe`.
pub open spec fn probe_text() -> Seq<u8> {
    seq![0x70u8, 0x72u8, 0x6fu8, 0x62u8, 0x65u8]
}

/// The type code of a packet: 0 open, 1 close, 2 ping, 3 pong, 4 message,
/// 5 upgrade, 6 noop.
pub open spec fn type_code(p: PacketView) -> u8 {
    match p {
        PacketView::Open(_) => 0,
        PacketView::Close => 1,
        PacketView::Ping { .. } => 2,
        PacketView::Pong { .. } => 3,
        PacketView::Message(_) => 4,
        PacketView::Upgrade => 5,
        PacketView::Noop => 6,
    }
}

/// The data that follows the type code.
pub open spec fn packet_data(p: PacketView) -> Seq<u8> {
    match p {
        PacketView::Open(data) => data,
        PacketView::Message(data) => data,
        PacketView::Ping { probe } => if probe {
            probe_text()
        } else {
            Seq::empty()
        },
        PacketView::Pong { probe } => if probe {
            probe_text()
        } else {
            Seq::empty()
        },
        _ => Seq::empty(),
    }
}

/// The byte that stands for the type code `code`.
pub open spec fn code_byte(code: u8, encoding: Encoding) -> u8 {
    match encoding {
        Encoding::Text => (0x30 + code) as u8,
        Encoding::Binary => code,
    }
}

/// The frame of a packet.
pub open spec fn frame_of(p: PacketView, encoding: Encoding) -> Seq<u8> {
    seq![code_byte(type_code(p), encoding)] + packet_data(p)
}

/// The type code that the byte `b` stands for, if any.
pub open spec fn code_of(b: u8, encoding: Encoding) -> Option<u8> {
    match encoding {
        Encoding::Text => if 0x30 <= b <= 0x36 {
            Some((b - 0x30) as u8)
        } else {
            None
        },
        Encoding::Binary => if b <= 6 {
            Some(b)
        } else {
            None
        },
    }
}

/// The packet with type code `code` and data `data`.
pub open spec fn packet_of(code: u8, data: Seq<u8>) -> Result<PacketView, FramingError> {
    if code == 0 {
        Ok(PacketView::Open(data))
    } else if code == 4 {
        Ok(PacketView::Message(data))
    } else if code == 2 || code == 3 {
        if data.len() == 0 || data == probe_text() {
            if code == 2 {
                Ok(PacketView::Ping { probe: data.len() != 0 })
            } else {
                Ok(PacketView::Pong { probe: data.len() != 0 })
            }
        } else {
            Err(FramingError::UnexpectedData)
        }
    } else if data.len() != 0 {
        Err(FramingError::UnexpectedData)
    } else if code == 1 {
        Ok(PacketView::Close)
    } else if code == 5 {
        Ok(PacketView::Upgrade)
    } else {
        Ok(PacketView::Noop)
    }
}

/// The packet that a frame holds.
pub open spec fn packet_in(frame: Seq<u8>, encoding: Encoding) -> Result<PacketView, FramingError> {
    if frame.len() == 0 {
        Err(FramingError::Empty)
    } else {
        match code_of(frame[0], encoding) {
            None => Err(FramingError::UnknownType),
            Some(code) => packet_of(code, frame.skip(1)),
        }
    }
}

fn is_probe(data: &[u8]) -> (r: bool)
    ensures
        r == (data@ == probe_text()),
{
    let r = data.len() == 5 && data[0] == 0x70 && data[1] == 0x72 && data[2] == 0x6f && data[3]
        == 0x62 && data[4] == 0x65;
    if r {
        assert(data@ =~= probe_text());
    }
    r
}

impl Packet {
    fn code(&self) -> (code: u8)
        ensures
            code == type_code(self@),
    {
        match self {
            Packet::Open(_) => 0,
            Packet::Close => 1,
            Packet::Ping { .. } => 2,
            Packet::Pong { .. } => 3,
            Packet::Message(_) => 4,
            Packet::Upgrade => 5,
            Packet::Noop => 6,
        }
    }

    /// Writes the packet as one frame.
    pub fn encode(&self, encoding: Encoding) -> (frame: Vec<u8>)
        ensures
            frame@ == frame_of(self@, encoding),
    {
        let mut frame: Vec<u8> = Vec::new();
        let code = self.code();
        match encoding {
            Encoding::Text => frame.push(0x30 + code),
            Encoding::Binary => frame.push(code),
        }
        match self {
            Packet::Open(data) => extend(&mut frame, data.as_slice()),
            Packet::Message(data) => extend(&mut frame, data.as_slice()),
            Packet::Ping { probe } => if *probe {
                Self::push_probe(&mut frame);
            },
            Packet::Pong { probe } => if *probe {
                Self::push_probe(&mut frame);
            },
            _ => {},
        }
        assert(frame@ =~= frame_of(self@, encoding));
        frame
    }

    fn push_probe(out: &mut Vec<u8>)
        ensures
            final(out)@ == old(out)@ + probe_text(),
    {
        out.push(0x70);
        out.push(0x72);
        out.push(0x6f);
        out.push(0x62);
        out.push(0x65);
        assert(out@ =~= old(out)@ + probe_text());
    }

    /// Reads one frame as a packet.
    pub fn decode(frame: &[u8], encoding: Encoding) -> (r: Result<Packet, FramingError>)
        ensures
            match packet_in(frame@, encoding) {
                Ok(p) => r matches Ok(packet) && packet@ == p,
                Err(e) => r matches Err(e2) && e2 == e,
            },
    {
        if frame.len() == 0 {
            return Err(FramingError::Empty);
        }
        let first = frame[0];
        let code: u8 = match encoding {
            Encoding::Text => {
                if first < 0x30 || first > 0x36 {
                    return Err(FramingError::UnknownType);
                }
                first - 0x30
            },
            Encoding::Binary => {
                if first > 6 {
                    return Err(FramingError::UnknownType);
                }
                first
            },
        };
        let data = vstd::slice::slice_subrange(frame, 1, frame.len());
        assert(data@ == frame@.skip(1));
        if code == 0 {
            Ok(Packet::Open(copy_range(frame, 1, frame.len())))
        } else if code == 4 {
            Ok(Packet::Message(copy_range(frame, 1, frame.len())))
        } else if code == 2 || code == 3 {
            let probe = is_probe(data);
            if data.len() != 0 && !probe {
                Err(FramingError::UnexpectedData)
            } else if code == 2 {
                Ok(Packet::Ping { probe })
            } else {
                Ok(Packet::Pong { probe })
            }
        } else if data.len() != 0 {
            Err(FramingError::UnexpectedData)
        } else if code == 1 {
            Ok(Packet::Close)
        } else if code == 5 {
            Ok(Packet::Upgrade)
        } else {
            Ok(Packet::Noop)
        }
    }
}

/// Every packet comes back from its own frame, in either encoding.
pub proof fn lemma_decode_encode(p: PacketView, encoding: Encoding)
    ensures
        packet_in(frame_of(p, encoding), encoding) == Ok::<_, FramingError>(p),
{
    let frame = frame_of(p, encoding);
    assert(frame.skip(1) =~= packet_data(p));
    assert(probe_text().len() == 5);
}

/// A frame holds one packet only: a frame that reads as a packet is the frame
/// of that packet.
pub proof fn lemma_encode_decode(frame: Seq<u8>, encoding: Encoding)
    requires
        packet_in(frame, encoding) is Ok,
    ensures
        frame_of(packet_in(frame, encoding).unwrap(), encoding) == frame,
{
    let p = packet_in(frame, encoding).unwrap();
    assert(probe_text().len() == 5);
    assert(frame_of(p, encoding) =~= seq![frame[0]] + frame.skip(1));
    assert(seq![frame[0]] + frame.skip(1) =~= frame);
}

} // verus!
