use vstd::prelude::*;

verus! {

/// The 64-bit NAME of a control function; a lower value wins address arbitration
#[derive(Debug, PartialEq, Eq, Structural, Clone, Copy)]
pub struct Name {
    /// the raw identifier
    pub raw: u64,
}

/// The eight little-endian bytes of a 64-bit value.
pub open spec fn le64_bytes(v: u64) -> Seq<u8> {
    seq![
        (v & 0xFFu64) as u8,
        ((v >> 8u64) & 0xFFu64) as u8,
        ((v >> 16u64) & 0xFFu64) as u8,
        ((v >> 24u64) & 0xFFu64) as u8,
        ((v >> 32u64) & 0xFFu64) as u8,
        ((v >> 40u64) & 0xFFu64) as u8,
        ((v >> 48u64) & 0xFFu64) as u8,
        ((v >> 56u64) & 0xFFu64) as u8,
    ]
}

/// The 64-bit value of eight little-endian bytes.
pub open spec fn le64(d: Seq<u8>) -> u64 {
    (d[0] as u64) | (d[1] as u64) << 8u64 | (d[2] as u64) << 16u64 | (d[3] as u64) << 24u64
        | (d[4] as u64) << 32u64 | (d[5] as u64) << 40u64 | (d[6] as u64) << 48u64 | (d[7] as u64) << 56u64
}

impl Name {
    /// A NAME from its raw identifier
    pub fn from_raw(raw: u64) -> (r: Self)
        ensures
            r.raw == raw,
    {
        Name { raw }
    }

    /// The raw identifier
    pub fn raw(&self) -> (r: u64)
        ensures
            r == self.raw,
    {
        self.raw
    }

    /// Whether the control function may select its own address (the top bit)
    pub fn address_capable(&self) -> (r: bool)
        ensures
            r == (self.raw >= 0x8000_0000_0000_0000),
    {
        self.raw >= 0x8000_0000_0000_0000
    }

    /// The NAME as sent in an address claim
    pub fn to_le_bytes(&self) -> (r: [u8; 8])
        ensures
            r@ == le64_bytes(self.raw),
    {
        let v = self.raw;
        let r: [u8; 8] = [
            (v & 0xFF) as u8,
            ((v >> 8) & 0xFF) as u8,
            ((v >> 16) & 0xFF) as u8,
            ((v >> 24) & 0xFF) as u8,
            ((v >> 32) & 0xFF) as u8,
            ((v >> 40) & 0xFF) as u8,
            ((v >> 48) & 0xFF) as u8,
            ((v >> 56) & 0xFF) as u8,
        ];
        assert(r@ =~= le64_bytes(v));
        r
    }

    /// The NAME carried by eight little-endian bytes
    pub fn from_le_bytes(d: &[u8]) -> (r: Self)
        requires
            d@.len() == 8,
        ensures
            r.raw == le64(d@),
    {
        Name {
            raw: (d[0] as u64) | (d[1] as u64) << 8 | (d[2] as u64) << 16 | (d[3] as u64) << 24 | (d[4] as u64) << 32
                | (d[5] as u64) << 40 | (d[6] as u64) << 48 | (d[7] as u64) << 56,
        }
    }
}

} // verus!
