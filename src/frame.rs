use smallvec::SmallVec;
use vstd::prelude::*;

verus! {

/// PGN contains a unique id, describing the content of a J1939 frame
#[derive(Debug, PartialEq, Eq, Structural, Clone, Copy, PartialOrd, Ord)]
pub struct PGN(pub u32);

/// The PDU-format byte of a PGN.
pub open spec fn pdu_format(pgn: u32) -> u32 {
    (pgn >> 8u32) & 0xFFu32
}

impl PGN {
    /// Creates a new PGN from a u32 number; its validity is not checked
    pub fn new(pgn: u32) -> (r: Self)
        ensures
            r.0 == pgn,
    {
        Self(pgn)
    }

    /// Get a PGN as u32
    pub fn raw(&self) -> (r: u32)
        ensures
            r == self.0,
    {
        self.0
    }

    /// Checks if the pgn is a broadcast pgn as defined by the j1939 standard
    pub fn is_broadcast(&self) -> (r: bool)
        ensures
            r == (pdu_format(self.0) > 240),
    {
        ((self.0 >> 8) & 0xFF) > 240
    }
}

/// Transport Protocol Control Flow PGN (raw value)
pub const PGN_TP_CM: u32 = 0xEC00;
/// Transport Protocol Data Transport PGN
pub const PGN_TP_DT: u32 = 0xEB00;
/// Extended Transport Protocol Control Flow PGN (ISO 11783)
pub const PGN_ETP_CM: u32 = 0xC800;
/// Extended Transport Protocol Data Transport PGN (ISO 11783)
pub const PGN_ETP_DT: u32 = 0xC700;
/// Address claim PGN
pub const PGN_ADDRESSCLAIM: u32 = 0xEE00;
/// Address Command PGN
pub const PGN_ADDRESSCOMMAND: u32 = 0xFED8;
/// PGN Request PGN
pub const PGN_REQUEST: u32 = 0xEA00;
/// ACK PGN
pub const PGN_ACK: u32 = 0xE800;

/// Header of a decoded J1939 Frame
#[derive(Debug, PartialEq, Eq, Structural, Clone, Copy)]
pub struct Header {
    /// parameter group number
    pub pgn: PGN,
    /// priority, 0 (highest) to 7
    pub priority: u8,
    /// address of the sender
    pub source_address: u8,
    /// address of the receiver; absent for broadcast PGNs
    pub destination_address: Option<u8>,
}

/// The header that a 29-bit CAN identifier encodes.
pub open spec fn decode_id(id: u32) -> Header {
    if (id >> 16u32) & 0xFFu32 >= 240 {
        Header {
            pgn: PGN((id >> 8u32) & 0x3FFFFu32),
            priority: ((id >> 26u32) as u8) & 7u8,
            source_address: id as u8,
            destination_address: None,
        }
    } else {
        Header {
            pgn: PGN((id >> 8u32) & 0x3FF00u32),
            priority: ((id >> 26u32) as u8) & 7u8,
            source_address: id as u8,
            destination_address: Some((id >> 8u32) as u8),
        }
    }
}

/// The 29-bit CAN identifier of a header: priority in bits 26 to 28, the PGN
/// from bit 8 on (overlaid with the destination when there is one), the source
/// in bits 0 to 7.
pub open spec fn encode_header(h: Header) -> u32 {
    let base = (h.source_address as u32) | (h.pgn.0 << 8u32) | ((h.priority as u32) << 26u32);
    let id = match h.destination_address {
        Some(da) => base | ((da as u32) << 8u32),
        None => base,
    };
    id & 0x1FFF_FFFFu32
}

/// A header that some 29-bit identifier encodes: an 18-bit PGN, a 3-bit
/// priority, and a destination exactly when the PDU format is below 240, in
/// which case the PGN's low byte is zero.
pub open spec fn valid_header(h: Header) -> bool {
    &&& h.pgn.0 <= 0x3FFFF
    &&& h.priority <= 7
    &&& match h.destination_address {
        Some(_) => pdu_format(h.pgn.0) < 240 && h.pgn.0 & 0xFFu32 == 0,
        None => pdu_format(h.pgn.0) >= 240,
    }
}

impl Header {
    /// Creates a new header; the destination should be absent only for a broadcast PGN
    pub fn new(
        pgn: PGN,
        priority: u8,
        source_address: u8,
        destination_address: Option<u8>,
    ) -> (r: Self)
        ensures
            r == (Header { pgn, priority, source_address, destination_address }),
    {
        Self { pgn, priority, source_address, destination_address }
    }

    /// Returns the PGN
    pub fn pgn(&self) -> (r: PGN)
        ensures
            r == self.pgn,
    {
        self.pgn
    }

    /// Returns the priority
    pub fn priority(&self) -> (r: u8)
        ensures
            r == self.priority,
    {
        self.priority
    }

    /// Returns the source address
    pub fn source_address(&self) -> (r: u8)
        ensures
            r == self.source_address,
    {
        self.source_address
    }

    /// Returns the destination address
    pub fn destination_address(&self) -> (r: Option<u8>)
        ensures
            r == self.destination_address,
    {
        self.destination_address
    }

    /// Decodes a 29-bit CAN identifier
    pub fn from_id(id: u32) -> (r: Self)
        ensures
            r == decode_id(id),
    {
        let priority = ((id >> 26) as u8) & 7;
        let source_address = id as u8;
        if (id >> 16) & 0xFF >= 240 {
            Header { pgn: PGN((id >> 8) & 0x3FFFF), priority, source_address, destination_address: None }
        } else {
            let da: u8 = (id >> 8) as u8;
            Header { pgn: PGN((id >> 8) & 0x3FF00), priority, source_address, destination_address: Some(da) }
        }
    }

    /// Encodes the header as a 29-bit CAN identifier
    pub fn id(&self) -> (r: u32)
        ensures
            r == encode_header(*self),
            r <= 0x1FFF_FFFF,
    {
        let mut id: u32 = self.source_address as u32;
        id = id | (self.pgn.0 << 8);
        id = id | ((self.priority as u32) << 26);
        match self.destination_address {
            Some(da) => {
                id = id | ((da as u32) << 8);
            },
            None => {},
        }
        let r = id & 0x1FFF_FFFF;
        assert(r <= 0x1FFF_FFFF) by (bit_vector)
            requires r == id & 0x1FFF_FFFFu32;
        r
    }
}

impl From<u32> for Header {
    fn from(id: u32) -> (r: Header) {
        Header::from_id(id)
    }
}

impl vstd::std_specs::convert::FromSpecImpl<u32> for Header {
    open spec fn obeys_from_spec() -> bool {
        true
    }

    open spec fn from_spec(id: u32) -> Header {
        decode_id(id)
    }
}

impl From<Header> for u32 {
    fn from(header: Header) -> (r: u32) {
        header.id()
    }
}

impl vstd::std_specs::convert::FromSpecImpl<Header> for u32 {
    open spec fn obeys_from_spec() -> bool {
        true
    }

    open spec fn from_spec(header: Header) -> u32 {
        encode_header(header)
    }
}

/// Decoding the identifier of a valid header gives back that header.
pub proof fn lemma_header_round_trip(h: Header)
    requires
        valid_header(h),
    ensures
        decode_id(encode_header(h)) == h,
{
    let sa = h.source_address as u32;
    let pgn = h.pgn.0;
    let prio = h.priority as u32;
    let base = sa | (pgn << 8u32) | (prio << 26u32);
    assert(sa <= 0xFF && prio <= 7);
    match h.destination_address {
        Some(d) => {
            let da = d as u32;
            assert(da <= 0xFF);
            let id = (base | (da << 8u32)) & 0x1FFF_FFFFu32;
            assert(id == encode_header(h));
            assert((id >> 16u32) & 0xFFu32 == (pgn >> 8u32) & 0xFFu32) by (bit_vector)
                requires id == ((sa | (pgn << 8u32) | (prio << 26u32)) | (da << 8u32)) & 0x1FFF_FFFFu32,
                    sa <= 0xFF, da <= 0xFF, prio <= 7, pgn <= 0x3FFFF;
            assert((id >> 8u32) & 0x3FF00u32 == pgn) by (bit_vector)
                requires id == ((sa | (pgn << 8u32) | (prio << 26u32)) | (da << 8u32)) & 0x1FFF_FFFFu32,
                    sa <= 0xFF, da <= 0xFF, prio <= 7, pgn <= 0x3FFFF, pgn & 0xFFu32 == 0;
            assert((id >> 8u32) & 0xFFu32 == da) by (bit_vector)
                requires id == ((sa | (pgn << 8u32) | (prio << 26u32)) | (da << 8u32)) & 0x1FFF_FFFFu32,
                    sa <= 0xFF, da <= 0xFF, prio <= 7, pgn <= 0x3FFFF, pgn & 0xFFu32 == 0;
            assert(id & 0xFFu32 == sa) by (bit_vector)
                requires id == ((sa | (pgn << 8u32) | (prio << 26u32)) | (da << 8u32)) & 0x1FFF_FFFFu32,
                    sa <= 0xFF, da <= 0xFF, prio <= 7, pgn <= 0x3FFFF;
            assert((id >> 26u32) & 7u32 == prio) by (bit_vector)
                requires id == ((sa | (pgn << 8u32) | (prio << 26u32)) | (da << 8u32)) & 0x1FFF_FFFFu32,
                    sa <= 0xFF, da <= 0xFF, prio <= 7, pgn <= 0x3FFFF;
            assert(((id >> 26u32) as u8) & 7u8 == prio as u8) by (bit_vector)
                requires (id >> 26u32) & 7u32 == prio, prio <= 7;
            assert((id >> 8u32) as u8 == da as u8) by (bit_vector)
                requires (id >> 8u32) & 0xFFu32 == da;
            assert(id as u8 == sa as u8) by (bit_vector)
                requires id & 0xFFu32 == sa;
        },
        None => {
            let id = base & 0x1FFF_FFFFu32;
            assert(id == encode_header(h));
            assert((id >> 16u32) & 0xFFu32 == (pgn >> 8u32) & 0xFFu32) by (bit_vector)
                requires id == (sa | (pgn << 8u32) | (prio << 26u32)) & 0x1FFF_FFFFu32,
                    sa <= 0xFF, prio <= 7, pgn <= 0x3FFFF;
            assert((id >> 8u32) & 0x3FFFFu32 == pgn) by (bit_vector)
                requires id == (sa | (pgn << 8u32) | (prio << 26u32)) & 0x1FFF_FFFFu32,
                    sa <= 0xFF, prio <= 7, pgn <= 0x3FFFF;
            assert(id & 0xFFu32 == sa) by (bit_vector)
                requires id == (sa | (pgn << 8u32) | (prio << 26u32)) & 0x1FFF_FFFFu32,
                    sa <= 0xFF, prio <= 7, pgn <= 0x3FFFF;
            assert((id >> 26u32) & 7u32 == prio) by (bit_vector)
                requires id == (sa | (pgn << 8u32) | (prio << 26u32)) & 0x1FFF_FFFFu32,
                    sa <= 0xFF, prio <= 7, pgn <= 0x3FFFF;
            assert(((id >> 26u32) as u8) & 7u8 == prio as u8) by (bit_vector)
                requires (id >> 26u32) & 7u32 == prio, prio <= 7;
            assert(id as u8 == sa as u8) by (bit_vector)
                requires id & 0xFFu32 == sa;
        },
    }
}

/// Encoding the header that a 29-bit identifier decodes to gives back that identifier.
pub proof fn lemma_id_round_trip(id: u32)
    requires
        id <= 0x1FFF_FFFF,
    ensures
        encode_header(decode_id(id)) == id,
{
    let h = decode_id(id);
    if (id >> 16u32) & 0xFFu32 >= 240 {
        assert(((id as u8) as u32 | (((id >> 8u32) & 0x3FFFFu32) << 8u32)
            | ((((id >> 26u32) as u8) & 7u8) as u32) << 26u32) & 0x1FFF_FFFFu32 == id) by (bit_vector)
            requires id <= 0x1FFF_FFFFu32;
    } else {
        assert((((id as u8) as u32 | (((id >> 8u32) & 0x3FF00u32) << 8u32)
            | ((((id >> 26u32) as u8) & 7u8) as u32) << 26u32) | (((id >> 8u32) as u8) as u32) << 8u32)
            & 0x1FFF_FFFFu32 == id) by (bit_vector)
            requires id <= 0x1FFF_FFFFu32;
    }
}

/// The payload bytes of a frame, stored inline up to eight bytes.
#[verifier::external_body]
#[derive(Debug, PartialEq, Eq)]
pub struct FrameData {
    bytes: SmallVec<[u8; 8]>,
}

/// The bytes held by a frame's payload.
pub uninterp spec fn data_bytes(d: FrameData) -> Seq<u8>;

/// Relies on smallvec::SmallVec::from_slice: the new vector holds a copy of the slice.
#[verifier::external_body]
fn data_from_slice(s: &[u8]) -> (r: FrameData)
    ensures
        data_bytes(r) == s@,
{
    FrameData { bytes: SmallVec::from_slice(s) }
}

/// Relies on smallvec::SmallVec::as_slice: the slice shows the vector's elements in order.
#[verifier::external_body]
fn data_as_slice(d: &FrameData) -> (r: &[u8])
    ensures
        r@ == data_bytes(*d),
{
    d.bytes.as_slice()
}

/// Decoded J1939 Frame; data longer than 8 bytes travels over a transport protocol
#[derive(Debug, PartialEq, Eq)]
pub struct Frame {
    header: Header,
    data: FrameData,
}

impl View for Frame {
    type V = (Header, Seq<u8>);

    closed spec fn view(&self) -> (Header, Seq<u8>) {
        (self.header, data_bytes(self.data))
    }
}

impl Frame {
    /// Creates a new Frame with given Header; the data is copied
    pub fn new(header: Header, data: &[u8]) -> (r: Self)
        ensures
            r@ == (header, data@),
    {
        Self { header, data: data_from_slice(data) }
    }

    /// Returns frame header
    pub fn header(&self) -> (r: &Header)
        ensures
            *r == self@.0,
    {
        &self.header
    }

    /// Returns a view of the frame data
    pub fn data(&self) -> (r: &[u8])
        ensures
            r@ == self@.1,
    {
        data_as_slice(&self.data)
    }

    /// A frame with the same header and data
    pub fn duplicate(&self) -> (r: Self)
        ensures
            r@ == self@,
    {
        Frame::new(self.header, self.data())
    }

    /// Replaces the source address of the header
    pub fn update_source_address(&mut self, address: u8)
        ensures
            final(self)@ == ((Header { source_address: address, ..old(self)@.0 }), old(self)@.1),
    {
        self.header.source_address = address;
    }
}

/// Little-endian value of three bytes.
pub open spec fn le24(b0: u8, b1: u8, b2: u8) -> u32 {
    (b0 as u32 + 256 * (b1 as u32) + 65536 * (b2 as u32)) as u32
}

/// The three low bytes of a value, little-endian.
pub open spec fn le24_bytes(v: u32) -> Seq<u8> {
    seq![(v % 256) as u8, ((v / 256) % 256) as u8, ((v / 65536) % 256) as u8]
}

/// A J1939 Frame specialized to request a specific PGN to be sent on the bus
#[derive(Debug, PartialEq, Eq, Structural, Clone)]
pub struct Request {
    /// the header, on PGN_REQUEST
    pub header: Header,
    /// the requested PGN
    pub pgn: PGN,
}

impl Request {
    /// Creates a new Request; destination 0xFF addresses all control functions
    pub fn new(pgn: PGN, source_address: u8, destination_address: u8) -> (r: Self)
        ensures
            r.header == (Header {
                pgn: PGN(PGN_REQUEST),
                priority: 3,
                source_address,
                destination_address: Some(destination_address),
            }),
            r.pgn == pgn,
    {
        let header = Header {
            pgn: PGN(PGN_REQUEST),
            priority: 3,
            source_address,
            destination_address: Some(destination_address),
        };
        Self { header, pgn }
    }

    /// Returns the [Header]
    pub fn header(&self) -> (r: &Header)
        ensures
            *r == self.header,
    {
        &self.header
    }

    /// Returns the requested PGN
    pub fn pgn(&self) -> (r: &PGN)
        ensures
            *r == self.pgn,
    {
        &self.pgn
    }

    /// Reads a request out of a frame on PGN_REQUEST whose payload is the
    /// three-byte requested PGN; any other frame gives `None`
    pub fn from_frame(frame: &Frame) -> (r: Option<Self>)
        ensures
            r is Some <==> frame@.0.pgn.0 == PGN_REQUEST && frame@.1.len() == 3,
            r matches Some(req) ==> req.header == frame@.0
                && req.pgn.0 == le24(frame@.1[0], frame@.1[1], frame@.1[2]),
    {
        let data = frame.data();
        if frame.header().pgn.0 == PGN_REQUEST && data.len() == 3 {
            let pgn = data[0] as u32 + 256 * (data[1] as u32) + 65536 * (data[2] as u32);
            Some(Self { header: *frame.header(), pgn: PGN(pgn) })
        } else {
            None
        }
    }

    /// The frame carrying this request: the requested PGN in three bytes, little-endian
    pub fn to_frame(&self) -> (r: Frame)
        ensures
            r@ == (self.header, le24_bytes(self.pgn.0)),
    {
        let p = self.pgn.0;
        let bytes: [u8; 3] = [(p % 256) as u8, ((p / 256) % 256) as u8, ((p / 65536) % 256) as u8];
        assert(bytes@ =~= le24_bytes(p));
        Frame::new(self.header, &bytes)
    }
}

/// Ack message type
#[derive(Debug, PartialEq, Eq, Structural, Clone, Copy)]
pub enum AckType {
    /// Request was successful
    PositiveAck,
    /// Request was not successful
    NegativeAck,
    /// requester has no access
    AccessDenied,
    /// unable to respond to the request
    CannotRespond,
    /// Other ack types
    Other(u8),
}

/// The ack type that a raw byte stands for.
pub open spec fn ack_type_of(raw: u8) -> AckType {
    if raw == 0 {
        AckType::PositiveAck
    } else if raw == 1 {
        AckType::NegativeAck
    } else if raw == 2 {
        AckType::AccessDenied
    } else if raw == 3 {
        AckType::CannotRespond
    } else {
        AckType::Other(raw)
    }
}

/// The raw byte of an ack type.
pub open spec fn ack_type_code(t: AckType) -> u8 {
    match t {
        AckType::PositiveAck => 0,
        AckType::NegativeAck => 1,
        AckType::AccessDenied => 2,
        AckType::CannotRespond => 3,
        AckType::Other(raw) => raw,
    }
}

impl AckType {
    /// The ack type of a raw byte
    pub fn from_raw(raw: u8) -> (r: Self)
        ensures
            r == ack_type_of(raw),
    {
        match raw {
            0 => AckType::PositiveAck,
            1 => AckType::NegativeAck,
            2 => AckType::AccessDenied,
            3 => AckType::CannotRespond,
            _ => AckType::Other(raw),
        }
    }

    /// The raw byte of this ack type
    pub fn raw(&self) -> (r: u8)
        ensures
            r == ack_type_code(*self),
    {
        match *self {
            AckType::PositiveAck => 0,
            AckType::NegativeAck => 1,
            AckType::AccessDenied => 2,
            AckType::CannotRespond => 3,
            AckType::Other(raw) => raw,
        }
    }
}

/// Acknowledgement as response for a request
#[derive(Debug, PartialEq, Eq, Structural, Clone)]
pub struct Ack {
    header: Header,
    ack_type: AckType,
    group_function_value: Option<u8>,
    address: u8,
    requested_pgn: PGN,
}

/// The eight payload bytes of an acknowledgement.
pub open spec fn ack_bytes(t: AckType, group: Option<u8>, address: u8, pgn: u32) -> Seq<u8> {
    seq![ack_type_code(t), match group { Some(g) => g, None => 0xFFu8 }, 0xFFu8, 0xFFu8, address]
        + le24_bytes(pgn)
}

impl Ack {
    /// Creates a new ACK; the destination address is used in the header and in the address field
    pub fn new(
        ack_type: AckType,
        group_function_value: Option<u8>,
        pgn: PGN,
        source_address: u8,
        destination_address: u8,
    ) -> (r: Self)
        ensures
            r.spec_header() == (Header {
                pgn: PGN(PGN_ACK),
                priority: 3,
                source_address,
                destination_address: Some(destination_address),
            }),
            r.spec_ack_type() == ack_type,
            r.spec_group_function_value() == group_function_value,
            r.spec_address() == destination_address,
            r.spec_pgn() == pgn,
    {
        let header = Header {
            pgn: PGN(PGN_ACK),
            priority: 3,
            source_address,
            destination_address: Some(destination_address),
        };
        Self { header, ack_type, group_function_value, address: destination_address, requested_pgn: pgn }
    }

    /// The header, in contracts
    pub closed spec fn spec_header(&self) -> Header {
        self.header
    }

    /// The ack type, in contracts
    pub closed spec fn spec_ack_type(&self) -> AckType {
        self.ack_type
    }

    /// The group function value, in contracts
    pub closed spec fn spec_group_function_value(&self) -> Option<u8> {
        self.group_function_value
    }

    /// The answered address, in contracts
    pub closed spec fn spec_address(&self) -> u8 {
        self.address
    }

    /// The requested PGN, in contracts
    pub closed spec fn spec_pgn(&self) -> PGN {
        self.requested_pgn
    }

    /// Returns the [Header]
    pub fn header(&self) -> (r: &Header)
        ensures
            *r == self.spec_header(),
    {
        &self.header
    }

    /// Returns the requested PGN
    pub fn pgn(&self) -> (r: &PGN)
        ensures
            *r == self.spec_pgn(),
    {
        &self.requested_pgn
    }

    /// Returns the type of this Ack message
    pub fn ack_type(&self) -> (r: &AckType)
        ensures
            *r == self.spec_ack_type(),
    {
        &self.ack_type
    }

    /// Returns the optional group function value
    pub fn group_function_value(&self) -> (r: Option<u8>)
        ensures
            r == self.spec_group_function_value(),
    {
        self.group_function_value
    }

    /// Returns the address whose request is answered by this ack
    pub fn address(&self) -> (r: u8)
        ensures
            r == self.spec_address(),
    {
        self.address
    }

    /// Reads an acknowledgement out of a frame on PGN_ACK with eight data
    /// bytes; any other frame gives `None`
    pub fn from_frame(frame: &Frame) -> (r: Option<Self>)
        ensures
            r is Some <==> frame@.0.pgn.0 == PGN_ACK && frame@.1.len() == 8,
            r matches Some(ack) ==> {
                let d = frame@.1;
                &&& ack.spec_header() == frame@.0
                &&& ack.spec_ack_type() == ack_type_of(d[0])
                &&& ack.spec_group_function_value() == (if d[1] == 0xFF { None } else { Some(d[1]) })
                &&& ack.spec_address() == d[4]
                &&& ack.spec_pgn().0 == le24(d[5], d[6], d[7])
            },
    {
        let data = frame.data();
        if frame.header().pgn.0 == PGN_ACK && data.len() == 8 {
            let group_function_value = if data[1] == 0xFF {
                None
            } else {
                Some(data[1])
            };
            let pgn = data[5] as u32 + 256 * (data[6] as u32) + 65536 * (data[7] as u32);
            Some(Self {
                header: *frame.header(),
                ack_type: AckType::from_raw(data[0]),
                group_function_value,
                address: data[4],
                requested_pgn: PGN(pgn),
            })
        } else {
            None
        }
    }

    /// The frame carrying this acknowledgement
    pub fn to_frame(&self) -> (r: Frame)
        ensures
            r@ == (self.spec_header(), ack_bytes(self.spec_ack_type(), self.spec_group_function_value(), self.spec_address(), self.spec_pgn().0)),
    {
        let p = self.requested_pgn.0;
        let group = match self.group_function_value {
            Some(g) => g,
            None => 0xFF,
        };
        let bytes: [u8; 8] = [
            self.ack_type.raw(),
            group,
            0xFF,
            0xFF,
            self.address,
            (p % 256) as u8,
            ((p / 256) % 256) as u8,
            ((p / 65536) % 256) as u8,
        ];
        assert(bytes@ =~= ack_bytes(self.ack_type, self.group_function_value, self.address, p));
        Frame::new(self.header, &bytes)
    }
}

/// `after` is `before` followed by frames whose views are `sent`, in order.
pub open spec fn appended(before: Seq<Frame>, after: Seq<Frame>, sent: Seq<(Header, Seq<u8>)>) -> bool {
    &&& after.len() == before.len() + sent.len()
    &&& after.subrange(0, before.len() as int) == before
    &&& forall|i: int| 0 <= i < sent.len() ==> #[trigger] after[before.len() + i]@ == sent[i]
}

/// Every frame of `s` fits one CAN frame: at most 8 data bytes.
pub open spec fn all_short(s: Seq<Frame>) -> bool {
    forall|i: int| 0 <= i < s.len() ==> (#[trigger] s[i])@.1.len() <= 8
}

/// `after` starts with `before`.
pub open spec fn extends(before: Seq<Frame>, after: Seq<Frame>) -> bool {
    after.len() >= before.len() && after.subrange(0, before.len() as int) == before
}

/// Starting with a sequence that starts with `a` is starting with `a`.
pub proof fn lemma_extends_trans(a: Seq<Frame>, b: Seq<Frame>, c: Seq<Frame>)
    requires
        extends(a, b),
        extends(b, c),
    ensures
        extends(a, c),
{
    assert(c.subrange(0, a.len() as int) =~= c.subrange(0, b.len() as int).subrange(0, a.len() as int));
}

/// Appending nothing.
pub proof fn lemma_appended_none(a: Seq<Frame>)
    ensures
        appended(a, a, Seq::empty()),
{
    assert(a.subrange(0, a.len() as int) =~= a);
}

/// Pushing one frame appends its view.
pub proof fn lemma_appended_push(a: Seq<Frame>, f: Frame)
    ensures
        appended(a, a.push(f), seq![f@]),
{
    assert(a.push(f).subrange(0, a.len() as int) =~= a);
}

/// Two appends in a row append both lists.
pub proof fn lemma_appended_trans(
    a: Seq<Frame>,
    b: Seq<Frame>,
    c: Seq<Frame>,
    s1: Seq<(Header, Seq<u8>)>,
    s2: Seq<(Header, Seq<u8>)>,
)
    requires
        appended(a, b, s1),
        appended(b, c, s2),
    ensures
        appended(a, c, s1 + s2),
{
    assert(c.subrange(0, a.len() as int) =~= b.subrange(0, a.len() as int));
    assert forall|i: int| 0 <= i < (s1 + s2).len() implies #[trigger] c[a.len() + i]@ == (s1 + s2)[i] by {
        if i < s1.len() {
            assert(c[a.len() + i] == c.subrange(0, b.len() as int)[a.len() + i]);
            assert(b[a.len() + i]@ == s1[i]);
        } else {
            assert(c[b.len() + (i - s1.len())]@ == s2[i - s1.len()]);
        }
    }
}

} // verus!
