use j1939::frame::{Header, PGN};

#[test]
fn pgn() {
    let pgn = PGN::new(20);
    assert_eq!(pgn.raw(), 20);
}

#[test]
fn header() {
    let header = Header::new(PGN::new(20), 2, 18, Some(50));
    assert_eq!(header.pgn().raw(), 20);
    assert_eq!(header.priority(), 2);
    assert_eq!(header.source_address(), 18);
    assert_eq!(header.destination_address(), Some(50));
}

#[test]
fn broadcast_header() {
    let id: u32 = 0x3FF2032;
    let header = Header {
        pgn: PGN(0x3FF20),
        priority: 0,
        source_address: 0x32,
        destination_address: None,
    };
    assert_eq!(header, Header::from(id));
    assert_eq!(id, header.into());
}

#[test]
fn p2p_header() {
    let id: u32 = 0x142F1810;
    let header = Header {
        pgn: PGN(0x02F00),
        priority: 5,
        source_address: 0x10,
        destination_address: Some(0x18),
    };
    assert_eq!(header, Header::from(id));
    assert_eq!(id, header.into());
}
