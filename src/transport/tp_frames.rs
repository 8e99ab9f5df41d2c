use crate::frame::{le24, le24_bytes, Frame, Header, PGN, PGN_TP_CM, PGN_TP_DT};
use vstd::arithmetic::div_mod::{lemma_div_denominator, lemma_div_is_ordered, lemma_fundamental_div_mod};
use vstd::prelude::*;

verus! {

pub const ADDRESS_GLOBAL: u8 = 0xFF;

pub const CTRL_BAM: u8 = 32;

pub const CTRL_CONN_ABORT: u8 = 255;

pub const CTRL_END_OF_MSG_ACK: u8 = 19;

pub const CTRL_CTS: u8 = 17;

pub const CTRL_RTS: u8 = 16;

/// A data packet of the transport protocol
#[derive(Debug, PartialEq, Eq)]
pub struct TPDT {
    /// address of the other end of the transfer
    pub remote_address: u8,
    /// our address
    pub local_address: u8,
    /// sequence number, starting at 1
    pub sequence_number: u8,
    /// seven payload bytes
    pub data: [u8; 7],
}

impl TPDT {
    /// Reads a data packet received from `header.source_address`; the frame
    /// must carry a destination and at least eight bytes
    pub fn from_frame(header: Header, data: &[u8]) -> (r: Self)
        requires
            header.destination_address is Some,
            data@.len() >= 8,
        ensures
            r.remote_address == header.source_address,
            r.local_address == header.destination_address->Some_0,
            r.sequence_number == data@[0],
            r.data@ == data@.subrange(1, 8),
    {
        let payload: [u8; 7] = [data[1], data[2], data[3], data[4], data[5], data[6], data[7]];
        assert(payload@ =~= data@.subrange(1, 8));
        let local_address = match header.destination_address {
            Some(da) => da,
            None => 0,
        };
        Self {
            remote_address: header.source_address,
            local_address,
            sequence_number: data[0],
            data: payload,
        }
    }

    /// The frame sending this packet from `local_address` to `remote_address`, priority 7
    pub fn to_frame(&self) -> (r: Frame)
        ensures
            r@ == tpdt_frame(self.local_address, self.remote_address, self.sequence_number, self.data@),
    {
        let d = &self.data;
        let bytes: [u8; 8] = [self.sequence_number, d[0], d[1], d[2], d[3], d[4], d[5], d[6]];
        assert(bytes@ =~= seq![self.sequence_number] + self.data@);
        Frame::new(
            Header::new(PGN(PGN_TP_DT), 7, self.local_address, Some(self.remote_address)),
            &bytes,
        )
    }
}

/// The frame of a data packet from `sa` to `da`.
pub open spec fn tpdt_frame(sa: u8, da: u8, sequence: u8, data: Seq<u8>) -> (Header, Seq<u8>) {
    (
        Header { pgn: PGN(PGN_TP_DT), priority: 7, source_address: sa, destination_address: Some(da) },
        seq![sequence] + data,
    )
}

/// Reason carried by a connection abort
#[derive(Debug, Clone, Copy, PartialEq, Eq, Structural)]
pub enum AbortReason {
    /// code 0
    Reserved,
    /// code 1: a session with this peer is already open
    AlreadyConnected,
    /// code 2
    NoResources,
    /// code 3
    Timeout,
    /// code 4
    CTSWhileTransfer,
    /// code 5
    RetransmitLimit,
    /// code 6: a packet came that no session expects
    UnexpectedTransfer,
    /// code 7
    BadSequenceNumber,
    /// code 8
    DuplicateSequenceNumber,
    /// code 9
    MessageSizeToHigh,
    /// code 250, and every unknown code
    Other,
}

/// The abort reason of a raw code.
pub open spec fn abort_reason_of(n: u8) -> AbortReason {
    if n == 0 {
        AbortReason::Reserved
    } else if n == 1 {
        AbortReason::AlreadyConnected
    } else if n == 2 {
        AbortReason::NoResources
    } else if n == 3 {
        AbortReason::Timeout
    } else if n == 4 {
        AbortReason::CTSWhileTransfer
    } else if n == 5 {
        AbortReason::RetransmitLimit
    } else if n == 6 {
        AbortReason::UnexpectedTransfer
    } else if n == 7 {
        AbortReason::BadSequenceNumber
    } else if n == 8 {
        AbortReason::DuplicateSequenceNumber
    } else if n == 9 {
        AbortReason::MessageSizeToHigh
    } else {
        AbortReason::Other
    }
}

/// The raw code of an abort reason.
pub open spec fn abort_code(r: AbortReason) -> u8 {
    match r {
        AbortReason::Reserved => 0,
        AbortReason::AlreadyConnected => 1,
        AbortReason::NoResources => 2,
        AbortReason::Timeout => 3,
        AbortReason::CTSWhileTransfer => 4,
        AbortReason::RetransmitLimit => 5,
        AbortReason::UnexpectedTransfer => 6,
        AbortReason::BadSequenceNumber => 7,
        AbortReason::DuplicateSequenceNumber => 8,
        AbortReason::MessageSizeToHigh => 9,
        AbortReason::Other => 250,
    }
}

impl AbortReason {
    /// The raw code of this reason
    pub fn code(&self) -> (r: u8)
        ensures
            r == abort_code(*self),
    {
        match *self {
            AbortReason::Reserved => 0,
            AbortReason::AlreadyConnected => 1,
            AbortReason::NoResources => 2,
            AbortReason::Timeout => 3,
            AbortReason::CTSWhileTransfer => 4,
            AbortReason::RetransmitLimit => 5,
            AbortReason::UnexpectedTransfer => 6,
            AbortReason::BadSequenceNumber => 7,
            AbortReason::DuplicateSequenceNumber => 8,
            AbortReason::MessageSizeToHigh => 9,
            AbortReason::Other => 250,
        }
    }
}

/// The abort reason of a raw code; unknown codes give `Other`
pub fn from_u8(n: u8) -> (r: AbortReason)
    ensures
        r == abort_reason_of(n),
{
    match n {
        0 => AbortReason::Reserved,
        1 => AbortReason::AlreadyConnected,
        2 => AbortReason::NoResources,
        3 => AbortReason::Timeout,
        4 => AbortReason::CTSWhileTransfer,
        5 => AbortReason::RetransmitLimit,
        6 => AbortReason::UnexpectedTransfer,
        7 => AbortReason::BadSequenceNumber,
        8 => AbortReason::DuplicateSequenceNumber,
        9 => AbortReason::MessageSizeToHigh,
        _ => AbortReason::Other,
    }
}

/// A control message of the transport protocol. `remote_address` is the
/// other end of the connection, `local_address` is ours.
#[derive(Debug, PartialEq, Eq, Structural)]
pub enum TPCM {
    /// request to send
    Rts {
        message_size: u16,
        packet_count: u8,
        max_packets_per_cts: u8,
        pgn: PGN,
        remote_address: u8,
        local_address: u8,
    },
    /// clear to send
    Cts { expected_packets: u8, next_packet_number: u8, pgn: PGN, remote_address: u8, local_address: u8 },
    /// end of message acknowledgement
    EndOfMsg { message_size: u16, packet_count: u8, pgn: PGN, remote_address: u8, local_address: u8 },
    /// connection abort
    Abort { abort_reason: AbortReason, pgn: PGN, remote_address: u8, local_address: u8 },
    /// broadcast announce message
    Bam { message_size: u16, packet_count: u8, pgn: PGN, remote_address: u8, local_address: u8 },
}

/// Little-endian bytes of a 16-bit size.
pub open spec fn le16_bytes(v: u16) -> Seq<u8> {
    seq![(v % 256) as u8, (v / 256) as u8]
}

/// Little-endian value of two bytes.
pub open spec fn le16(b0: u8, b1: u8) -> u16 {
    (b0 as u16 + 256 * (b1 as u16)) as u16
}

/// The remote and local address of a control message.
pub open spec fn tpcm_addresses(v: TPCM) -> (u8, u8) {
    match v {
        TPCM::Rts { remote_address, local_address, .. } => (remote_address, local_address),
        TPCM::Cts { remote_address, local_address, .. } => (remote_address, local_address),
        TPCM::EndOfMsg { remote_address, local_address, .. } => (remote_address, local_address),
        TPCM::Abort { remote_address, local_address, .. } => (remote_address, local_address),
        TPCM::Bam { remote_address, local_address, .. } => (remote_address, local_address),
    }
}

/// The eight data bytes of a control message.
pub open spec fn tpcm_bytes(v: TPCM) -> Seq<u8> {
    match v {
        TPCM::Rts { message_size, packet_count, max_packets_per_cts, pgn, .. } => seq![CTRL_RTS]
            + le16_bytes(message_size) + seq![packet_count, max_packets_per_cts] + le24_bytes(pgn.0),
        TPCM::Cts { expected_packets, next_packet_number, pgn, .. } => seq![
            CTRL_CTS,
            expected_packets,
            next_packet_number,
            0xFFu8,
            0xFFu8,
        ] + le24_bytes(pgn.0),
        TPCM::EndOfMsg { message_size, packet_count, pgn, .. } => seq![CTRL_END_OF_MSG_ACK]
            + le16_bytes(message_size) + seq![packet_count, 0xFFu8] + le24_bytes(pgn.0),
        TPCM::Abort { abort_reason, pgn, .. } => seq![
            CTRL_CONN_ABORT,
            abort_code(abort_reason),
            0xFFu8,
            0xFFu8,
            0xFFu8,
        ] + le24_bytes(pgn.0),
        TPCM::Bam { message_size, packet_count, pgn, .. } => seq![CTRL_BAM] + le16_bytes(message_size)
            + seq![packet_count, 0xFFu8] + le24_bytes(pgn.0),
    }
}

/// The frame of a control message, sent from the local to the remote address with priority 7.
pub open spec fn tpcm_frame(v: TPCM) -> (Header, Seq<u8>) {
    (
        Header {
            pgn: PGN(PGN_TP_CM),
            priority: 7,
            source_address: tpcm_addresses(v).1,
            destination_address: Some(tpcm_addresses(v).0),
        },
        tpcm_bytes(v),
    )
}

/// The control message that a frame received from `sa` and sent to `da` holds,
/// if its control byte is known.
pub open spec fn tpcm_decode(sa: u8, da: u8, d: Seq<u8>) -> Option<TPCM> {
    let pgn = PGN(le24(d[5], d[6], d[7]));
    if da == ADDRESS_GLOBAL && d[0] == CTRL_BAM {
        Some(TPCM::Bam { message_size: le16(d[1], d[2]), packet_count: d[3], pgn, remote_address: sa, local_address: da })
    } else if d[0] == CTRL_RTS {
        Some(TPCM::Rts {
            message_size: le16(d[1], d[2]),
            packet_count: d[3],
            max_packets_per_cts: d[4],
            pgn,
            remote_address: sa,
            local_address: da,
        })
    } else if d[0] == CTRL_CTS {
        Some(TPCM::Cts { expected_packets: d[1], next_packet_number: d[2], pgn, remote_address: sa, local_address: da })
    } else if d[0] == CTRL_END_OF_MSG_ACK {
        Some(TPCM::EndOfMsg { message_size: le16(d[1], d[2]), packet_count: d[3], pgn, remote_address: sa, local_address: da })
    } else if d[0] == CTRL_CONN_ABORT {
        Some(TPCM::Abort { abort_reason: abort_reason_of(d[1]), pgn, remote_address: sa, local_address: da })
    } else {
        None
    }
}

/// The same message seen from the other end: remote and local address exchanged.
pub open spec fn tpcm_reversed(v: TPCM) -> TPCM {
    match v {
        TPCM::Rts { message_size, packet_count, max_packets_per_cts, pgn, remote_address, local_address } =>
            TPCM::Rts { message_size, packet_count, max_packets_per_cts, pgn, remote_address: local_address, local_address: remote_address },
        TPCM::Cts { expected_packets, next_packet_number, pgn, remote_address, local_address } =>
            TPCM::Cts { expected_packets, next_packet_number, pgn, remote_address: local_address, local_address: remote_address },
        TPCM::EndOfMsg { message_size, packet_count, pgn, remote_address, local_address } =>
            TPCM::EndOfMsg { message_size, packet_count, pgn, remote_address: local_address, local_address: remote_address },
        TPCM::Abort { abort_reason, pgn, remote_address, local_address } =>
            TPCM::Abort { abort_reason, pgn, remote_address: local_address, local_address: remote_address },
        TPCM::Bam { message_size, packet_count, pgn, remote_address, local_address } =>
            TPCM::Bam { message_size, packet_count, pgn, remote_address: local_address, local_address: remote_address },
    }
}

fn pgn_bytes(pgn: u32) -> (r: [u8; 3])
    ensures
        r@ == le24_bytes(pgn),
{
    let r: [u8; 3] = [(pgn % 256) as u8, ((pgn / 256) % 256) as u8, ((pgn / 65536) % 256) as u8];
    assert(r@ =~= le24_bytes(pgn));
    r
}

impl TPCM {
    /// Reads the control message of a frame received from
    /// `header.source_address`; `None` for an unknown control byte or a frame
    /// without destination or with fewer than eight bytes
    pub fn from_frame(header: Header, data: &[u8]) -> (r: Option<Self>)
        ensures
            r == (if header.destination_address is Some && data@.len() >= 8 {
                tpcm_decode(header.source_address, header.destination_address->Some_0, data@)
            } else {
                None
            }),
    {
        let da = match header.destination_address {
            Some(da) => da,
            None => {
                return None;
            },
        };
        if data.len() < 8 {
            return None;
        }
        let sa = header.source_address;
        let pgn = PGN(data[5] as u32 + 256 * (data[6] as u32) + 65536 * (data[7] as u32));
        let size: u16 = data[1] as u16 + 256 * (data[2] as u16);
        if da == ADDRESS_GLOBAL && data[0] == CTRL_BAM {
            Some(TPCM::Bam { message_size: size, packet_count: data[3], pgn, remote_address: sa, local_address: da })
        } else if data[0] == CTRL_RTS {
            Some(TPCM::Rts {
                message_size: size,
                packet_count: data[3],
                max_packets_per_cts: data[4],
                pgn,
                remote_address: sa,
                local_address: da,
            })
        } else if data[0] == CTRL_CTS {
            Some(TPCM::Cts { expected_packets: data[1], next_packet_number: data[2], pgn, remote_address: sa, local_address: da })
        } else if data[0] == CTRL_END_OF_MSG_ACK {
            Some(TPCM::EndOfMsg { message_size: size, packet_count: data[3], pgn, remote_address: sa, local_address: da })
        } else if data[0] == CTRL_CONN_ABORT {
            Some(TPCM::Abort { abort_reason: from_u8(data[1]), pgn, remote_address: sa, local_address: da })
        } else {
            None
        }
    }

    /// The frame sending this message from the local to the remote address
    pub fn to_frame(&self) -> (r: Frame)
        ensures
            r@ == tpcm_frame(*self),
    {
        let (bytes, sa, da) = match *self {
            TPCM::Rts { message_size, packet_count, max_packets_per_cts, pgn, remote_address, local_address } => {
                let p = pgn_bytes(pgn.0);
                let b: [u8; 8] = [CTRL_RTS, (message_size % 256) as u8, (message_size / 256) as u8, packet_count, max_packets_per_cts, p[0], p[1], p[2]];
                (b, local_address, remote_address)
            },
            TPCM::Cts { expected_packets, next_packet_number, pgn, remote_address, local_address } => {
                let p = pgn_bytes(pgn.0);
                let b: [u8; 8] = [CTRL_CTS, expected_packets, next_packet_number, 0xFF, 0xFF, p[0], p[1], p[2]];
                (b, local_address, remote_address)
            },
            TPCM::EndOfMsg { message_size, packet_count, pgn, remote_address, local_address } => {
                let p = pgn_bytes(pgn.0);
                let b: [u8; 8] = [CTRL_END_OF_MSG_ACK, (message_size % 256) as u8, (message_size / 256) as u8, packet_count, 0xFF, p[0], p[1], p[2]];
                (b, local_address, remote_address)
            },
            TPCM::Abort { abort_reason, pgn, remote_address, local_address } => {
                let p = pgn_bytes(pgn.0);
                let b: [u8; 8] = [CTRL_CONN_ABORT, abort_reason.code(), 0xFF, 0xFF, 0xFF, p[0], p[1], p[2]];
                (b, local_address, remote_address)
            },
            TPCM::Bam { message_size, packet_count, pgn, remote_address, local_address } => {
                let p = pgn_bytes(pgn.0);
                let b: [u8; 8] = [CTRL_BAM, (message_size % 256) as u8, (message_size / 256) as u8, packet_count, 0xFF, p[0], p[1], p[2]];
                (b, local_address, remote_address)
            },
        };
        assert(bytes@ =~= tpcm_bytes(*self));
        Frame::new(Header::new(PGN(PGN_TP_CM), 7, sa, Some(da)), &bytes)
    }
}

proof fn lemma_le24(p: u32)
    requires
        p < 0x100_0000,
    ensures
        le24(le24_bytes(p)[0], le24_bytes(p)[1], le24_bytes(p)[2]) == p,
{
    let x = p as int;
    lemma_fundamental_div_mod(x, 256);
    lemma_fundamental_div_mod(x / 256, 256);
    lemma_div_denominator(x, 256, 256);
    assert(x / 65536 < 256) by {
        lemma_div_is_ordered(x, 0xFF_FFFF, 65536);
    }
}

proof fn lemma_le16(v: u16)
    ensures
        le16(le16_bytes(v)[0], le16_bytes(v)[1]) == v,
{
    lemma_fundamental_div_mod(v as int, 256);
}

proof fn lemma_abort_code(r: AbortReason)
    ensures
        abort_reason_of(abort_code(r)) == r,
{
}

/// Decoding the frame of a control message, as the other end receives it,
/// gives back the message with its two addresses exchanged. The PGN must fit
/// in its three bytes, and a broadcast announcement goes to the global address.
pub proof fn lemma_tpcm_round_trip(v: TPCM)
    requires
        match v {
            TPCM::Rts { pgn, .. } => pgn.0 < 0x100_0000,
            TPCM::Cts { pgn, .. } => pgn.0 < 0x100_0000,
            TPCM::EndOfMsg { pgn, .. } => pgn.0 < 0x100_0000,
            TPCM::Abort { pgn, .. } => pgn.0 < 0x100_0000,
            TPCM::Bam { pgn, remote_address, .. } => pgn.0 < 0x100_0000 && remote_address == ADDRESS_GLOBAL,
        },
    ensures
        tpcm_decode(tpcm_frame(v).0.source_address, tpcm_frame(v).0.destination_address->Some_0, tpcm_frame(v).1)
            == Some(tpcm_reversed(v)),
{
    match v {
        TPCM::Rts { message_size, pgn, .. } => {
            lemma_le16(message_size);
            lemma_le24(pgn.0);
        },
        TPCM::Cts { pgn, .. } => {
            lemma_le24(pgn.0);
        },
        TPCM::EndOfMsg { message_size, pgn, .. } => {
            lemma_le16(message_size);
            lemma_le24(pgn.0);
        },
        TPCM::Abort { abort_reason, pgn, .. } => {
            lemma_abort_code(abort_reason);
            lemma_le24(pgn.0);
        },
        TPCM::Bam { message_size, pgn, .. } => {
            lemma_le16(message_size);
            lemma_le24(pgn.0);
        },
    }
}

} // verus!
