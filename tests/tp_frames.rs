use j1939::frame::{Frame, Header, PGN};
use j1939::transport::tp_frames::{AbortReason, TPCM, TPDT};

#[test]
fn serialize_pdu_tpdt() {
    let frame: Frame = TPDT {
        remote_address: 1,
        local_address: 50,
        sequence_number: 2,
        data: [1, 2, 3, 4, 5, 6, 7],
    }
    .to_frame();
    assert_eq!(
        frame,
        Frame::new(Header::from(0x1CEB0132), &[2, 1, 2, 3, 4, 5, 6, 7])
    )
}

#[test]
fn deserialize_pdu_tpdt() {
    let pdu = TPDT::from_frame(Header::from(0x00EBFF01), &[1, 1, 2, 3, 4, 5, 6, 7]);
    assert_eq!(
        pdu,
        TPDT {
            remote_address: 1,
            local_address: 255,
            sequence_number: 1,
            data: [1, 2, 3, 4, 5, 6, 7]
        }
    );
}

#[test]
fn serialize_pdu_tpcm_bam() {
    let frame: Frame = TPCM::Bam {
        message_size: 20,
        packet_count: 3,
        pgn: PGN::new(0xFEB0),
        remote_address: 255,
        local_address: 0x32,
    }
    .to_frame();
    assert_eq!(
        frame,
        Frame::new(
            Header::from(0x1CECFF32),
            &[32, 20, 0, 3, 255, 0xB0, 0xFE, 0]
        )
    )
}

#[test]
fn deserialize_pdu_tpcm_bam() {
    let pdu = TPCM::from_frame(
        Header::from(0x00ECFF01),
        &[32, 20, 0, 3, 255, 0xB0, 0xFE, 0],
    );
    assert_eq!(
        pdu,
        Some(TPCM::Bam {
            message_size: 20,
            packet_count: 3,
            pgn: PGN::new(0xFEB0),
            remote_address: 1,
            local_address: 0xFF,
        })
    );
}

#[test]
fn serialize_pdu_tpcm_rts() {
    let frame: Frame = TPCM::Rts {
        message_size: 20,
        packet_count: 3,
        pgn: PGN::new(0xFEB0),
        remote_address: 2,
        local_address: 0x32,
        max_packets_per_cts: 1,
    }
    .to_frame();
    assert_eq!(
        frame,
        Frame::new(Header::from(0x1CEC0232), &[16, 20, 0, 3, 1, 176, 254, 0])
    )
}

#[test]
fn deserialize_pdu_tpcm_rts() {
    let pdu = TPCM::from_frame(Header::from(0x18EC9B90), &[16, 20, 0, 3, 1, 0, 223, 0]);
    assert_eq!(
        pdu,
        Some(TPCM::Rts {
            message_size: 20,
            packet_count: 3,
            pgn: PGN::new(0xDF00),
            remote_address: 0x90,
            max_packets_per_cts: 1,
            local_address: 0x9B,
        })
    );
}

#[test]
fn serialize_pdu_tpcm_cts() {
    let frame: Frame = TPCM::Cts {
        pgn: PGN::new(0xDF00),
        remote_address: 0x9B,
        expected_packets: 1,
        next_packet_number: 3,
        local_address: 0x90,
    }
    .to_frame();
    assert_eq!(
        frame,
        Frame::new(Header::from(0x1CEC9B90), &[17, 1, 3, 255, 255, 0, 223, 0])
    )
}

#[test]
fn deserialize_pdu_tpcm_cts() {
    let pdu = TPCM::from_frame(Header::from(0x1CEC909B), &[17, 1, 1, 255, 255, 0, 223, 0]);
    assert_eq!(
        pdu,
        Some(TPCM::Cts {
            pgn: PGN::new(0xDF00),
            remote_address: 0x9B,
            expected_packets: 1,
            next_packet_number: 1,
            local_address: 0x90,
        })
    );
}

#[test]
fn serialize_pdu_tpcm_ack() {
    let frame: Frame = TPCM::EndOfMsg {
        message_size: 20,
        packet_count: 3,
        pgn: PGN::new(0xDF00),
        remote_address: 0x9B,
        local_address: 0x90,
    }
    .to_frame();
    assert_eq!(
        frame,
        Frame::new(Header::from(0x1CEC9B90), &[19, 20, 0, 3, 255, 0, 223, 0])
    )
}

#[test]
fn deserialize_pdu_tpcm_ack() {
    let pdu = TPCM::from_frame(Header::from(0x1CEC909B), &[19, 20, 0, 3, 255, 0, 223, 0]);
    assert_eq!(
        pdu,
        Some(TPCM::EndOfMsg {
            message_size: 20,
            packet_count: 3,
            pgn: PGN::new(0xDF00),
            remote_address: 0x9B,
            local_address: 0x90,
        })
    );
}

#[test]
fn serialize_pdu_tpcm_abort() {
    let frame: Frame = TPCM::Abort {
        pgn: PGN::new(0xFEB0),
        remote_address: 0x90,
        local_address: 0x9B,
        abort_reason: AbortReason::AlreadyConnected,
    }
    .to_frame();
    assert_eq!(
        frame,
        Frame::new(
            Header::from(0x1CEC909B),
            &[255, 1, 255, 255, 255, 0xB0, 0xFE, 0]
        )
    )
}

#[test]
fn deserialize_pdu_tpcm_abort() {
    let pdu = TPCM::from_frame(
        Header::from(0x1CEC909B),
        &[255, 1, 255, 255, 255, 0xB0, 0xFE, 0],
    );
    assert_eq!(
        pdu,
        Some(TPCM::Abort {
            pgn: PGN::new(0xFEB0),
            remote_address: 0x9B,
            abort_reason: AbortReason::AlreadyConnected,
            local_address: 0x90,
        })
    );
}
