use j1939::control_function::AddressState;
use j1939::frame::{Ack, AckType, Frame, Header, Request, PGN};
use j1939::name::Name;
use j1939::stack::{Stack, StackError};
use j1939::transport::tp_frames::{from_u8, AbortReason, TPCM};

fn shuttle(from: &mut Stack, to: &mut Stack, now: u64) {
    for f in from.take_transmit() {
        to.push_can_frame(f.header().id(), f.data(), now).unwrap();
    }
}

fn payload(len: usize) -> Vec<u8> {
    (0..len).map(|i| (i * 7 + 3) as u8).collect()
}

#[test]
fn header_codec_round_trip() {
    let headers = [
        Header::new(PGN::new(0xFEB2), 0, 0x01, None),
        Header::new(PGN::new(0x1F805), 3, 0x1C, None),
        Header::new(PGN::new(0xDF00), 7, 0x90, Some(0x9B)),
        Header::new(PGN::new(0x2EE00), 6, 0xFE, Some(0xFF)),
    ];
    for h in headers {
        let id: u32 = h.into();
        assert!(id <= 0x1FFF_FFFF);
        assert_eq!(Header::from(id), h);
    }
    assert_eq!(u32::from(Header::from(0x18EEFF85)), 0x18EEFF85);
    assert_eq!(Header::new(PGN::new(0xEE00), 6, 0x85, Some(0xFF)).id(), 0x18EEFF85);
}

#[test]
fn tpcm_codec_round_trip() {
    let messages = [
        TPCM::Rts { message_size: 1785, packet_count: 255, max_packets_per_cts: 4, pgn: PGN(0x1FEB0), remote_address: 2, local_address: 3 },
        TPCM::Cts { expected_packets: 2, next_packet_number: 9, pgn: PGN(0xDF00), remote_address: 4, local_address: 5 },
        TPCM::EndOfMsg { message_size: 300, packet_count: 43, pgn: PGN(0xDF00), remote_address: 6, local_address: 7 },
        TPCM::Abort { abort_reason: AbortReason::Timeout, pgn: PGN(0xFEB0), remote_address: 8, local_address: 9 },
        TPCM::Bam { message_size: 20, packet_count: 3, pgn: PGN(0xFEB0), remote_address: 0xFF, local_address: 0x21 },
    ];
    let expected = [
        TPCM::Rts { message_size: 1785, packet_count: 255, max_packets_per_cts: 4, pgn: PGN(0x1FEB0), remote_address: 3, local_address: 2 },
        TPCM::Cts { expected_packets: 2, next_packet_number: 9, pgn: PGN(0xDF00), remote_address: 5, local_address: 4 },
        TPCM::EndOfMsg { message_size: 300, packet_count: 43, pgn: PGN(0xDF00), remote_address: 7, local_address: 6 },
        TPCM::Abort { abort_reason: AbortReason::Timeout, pgn: PGN(0xFEB0), remote_address: 9, local_address: 8 },
        TPCM::Bam { message_size: 20, packet_count: 3, pgn: PGN(0xFEB0), remote_address: 0x21, local_address: 0xFF },
    ];
    for (m, e) in messages.iter().zip(expected) {
        let f = m.to_frame();
        assert_eq!(TPCM::from_frame(*f.header(), f.data()), Some(e));
    }
}

#[test]
fn tpcm_unknown_control_byte_is_dropped() {
    assert_eq!(TPCM::from_frame(Header::from(0x1CEC909B), &[42, 1, 1, 255, 255, 0, 223, 0]), None);
    assert_eq!(TPCM::from_frame(Header::from(0x1CEC909B), &[17, 1, 1]), None);
    // BAM control byte to a specific address is not an announcement
    assert_eq!(TPCM::from_frame(Header::from(0x1CEC909B), &[32, 20, 0, 3, 255, 0xB0, 0xFE, 0]), None);
}

#[test]
fn abort_reason_codes() {
    assert_eq!(from_u8(6), AbortReason::UnexpectedTransfer);
    assert_eq!(from_u8(250), AbortReason::Other);
    assert_eq!(from_u8(77), AbortReason::Other);
    assert_eq!(AbortReason::MessageSizeToHigh.code(), 9);
}

fn rts_cts_transfer(len: usize, pgn: u32, priority: u8) {
    let data = payload(len);
    let mut sender = Stack::new();
    let mut receiver = Stack::new();
    receiver.set_accepted_all(true);
    sender.set_accepted_all(true);
    sender.send_frame(Frame::new(Header::new(PGN::new(pgn), priority, 0x90, Some(0x9B)), &data)).unwrap();
    let mut got = None;
    for _ in 0..600 {
        shuttle(&mut sender, &mut receiver, 0);
        shuttle(&mut receiver, &mut sender, 0);
        sender.process(0).unwrap();
        receiver.process(0).unwrap();
        if let Some(f) = receiver.get_frame() {
            got = Some(f);
            break;
        }
    }
    assert_eq!(got, Some(Frame::new(Header::new(PGN::new(pgn), 0, 0x90, Some(0x9B)), &data)));
}

#[test]
fn rts_cts_delivers_whole_message() {
    rts_cts_transfer(9, 0xDF00, 0);
    rts_cts_transfer(20, 0xDF00, 0);
    rts_cts_transfer(700, 0xC100, 6);
    rts_cts_transfer(1785, 0xDF00, 0);
}

#[test]
fn rts_cts_rejects_oversized_message() {
    let mut sender = Stack::new();
    let data = payload(1786);
    let r = sender.send_frame(Frame::new(Header::new(PGN::new(0xDF00), 0, 0x90, Some(0x9B)), &data));
    assert_eq!(r, Err(StackError::TooLong));
    assert_eq!(sender.take_transmit().len(), 0);
}

fn fast_packet_transfer(len: usize) {
    let data = payload(len);
    let mut sender = Stack::new_with_nema2000(&[PGN(0x1F805)]);
    let mut receiver = Stack::new_with_nema2000(&[PGN(0x1F805)]);
    sender.send_frame(Frame::new(Header::new(PGN::new(0x1F805), 3, 0x1C, None), &data)).unwrap();
    let mut got = None;
    for _ in 0..40 {
        shuttle(&mut sender, &mut receiver, 0);
        if let Some(f) = receiver.get_frame() {
            got = Some(f);
            break;
        }
        sender.process(0).unwrap();
    }
    assert_eq!(got, Some(Frame::new(Header::new(PGN::new(0x1F805), 3, 0x1C, None), &data)));
}

#[test]
fn fast_packet_round_trip() {
    fast_packet_transfer(9);
    fast_packet_transfer(13);
    fast_packet_transfer(14);
    fast_packet_transfer(100);
    fast_packet_transfer(223);
}

#[test]
fn fast_packet_rejects_oversized_message() {
    let mut sender = Stack::new_with_nema2000(&[PGN(0x1F805)]);
    let r = sender.send_frame(Frame::new(Header::new(PGN::new(0x1F805), 3, 0x1C, None), &payload(224)));
    assert_eq!(r, Err(StackError::TooLong));
}

#[test]
fn address_claim_liveness() {
    let mut stack = Stack::new();
    let handle = stack.register_control_function(0x85, Name::from_raw(0xA002_FF00_0000_0000));
    stack.process(0).unwrap();
    stack.process(1500).unwrap();
    assert_eq!(stack.control_function(&handle).address_state(), AddressState::Requested(0));
    stack.process(1501).unwrap();
    assert_eq!(stack.control_function(&handle).address_state(), AddressState::WaitForVeto(1501));
    stack.process(1751).unwrap();
    assert_eq!(stack.control_function(&handle).is_online(), None);
    stack.process(1752).unwrap();
    assert_eq!(stack.control_function(&handle).is_online(), Some(0x85));
    stack.process(100_000).unwrap();
    assert_eq!(stack.control_function(&handle).is_online(), Some(0x85));
}

#[test]
fn address_claim_safety_configurable() {
    let mut stack = Stack::new();
    let handle = stack.register_control_function(0x85, Name::from_raw(0xA002_FF00_0000_0000));
    stack.process(0).unwrap();
    stack.process(1600).unwrap();
    stack.push_can_frame(0x18EEFF85, &[0, 0, 0, 0, 0, 255, 2, 100], 1700).unwrap();
    assert_eq!(stack.control_function(&handle).address_state(), AddressState::WaitForVeto(1700));
    assert_eq!(stack.control_function(&handle).is_online(), None);
    stack.process(1900).unwrap();
    assert_eq!(stack.control_function(&handle).is_online(), None);
    stack.process(1951).unwrap();
    assert_eq!(stack.control_function(&handle).is_online(), Some(0x86));
}

#[test]
fn address_claim_safety_fixed() {
    let mut stack = Stack::new();
    let handle = stack.register_control_function(0x85, Name::from_raw(0x2002_FF00_0000_0000));
    stack.process(0).unwrap();
    stack.push_can_frame(0x18EEFF85, &[0, 0, 0, 0, 0, 255, 2, 1], 10).unwrap();
    stack.process(1000).unwrap();
    assert_eq!(stack.control_function(&handle).address_state(), AddressState::CannotClaim);
    assert_eq!(stack.control_function(&handle).is_online(), None);
}

#[test]
fn address_claim_with_own_name_is_an_error() {
    let mut stack = Stack::new();
    stack.register_control_function(0x85, Name::from_raw(0x2002_FF00_0000_0000));
    stack.process(0).unwrap();
    let r = stack.push_can_frame(0x18EEFF85, &[0, 0, 0, 0, 0, 255, 2, 32], 10);
    assert_eq!(r, Err(StackError::NameConflict));
}

#[test]
fn address_monitor_tracks_claims() {
    let mut stack = Stack::new();
    stack.push_can_frame(0x18EEFF10, &[1, 0, 0, 0, 0, 0, 0, 0], 0).unwrap();
    stack.push_can_frame(0x18EEFF11, &[2, 0, 0, 0, 0, 0, 0, 0], 0).unwrap();
    assert_eq!(stack.control_function_list().len(), 2);
    // the first NAME moves to another address
    stack.push_can_frame(0x18EEFF12, &[1, 0, 0, 0, 0, 0, 0, 0], 0).unwrap();
    let list = stack.control_function_list();
    assert_eq!(list.len(), 2);
    assert_eq!(list.get(&0x12), Some(&Name::from_raw(1)));
    assert_eq!(list.get(&0x10), None);
    // a request for address claims clears the list
    stack.push_can_frame(0x18EAFF13, &[0, 0xEE, 0], 0).unwrap();
    assert_eq!(stack.control_function_list().len(), 0);
}

#[test]
fn cannot_claim_all_addresses_taken() {
    let mut stack = Stack::new();
    let handle = stack.register_control_function(0x85, Name::from_raw(0xA002_FF00_0000_0000));
    stack.process(0).unwrap();
    for a in 127u32..147 {
        stack.push_can_frame(0x18EEFF00 | a, &[a as u8, 1, 0, 0, 0, 0, 0, 0], 10).unwrap();
    }
    stack.push_can_frame(0x18EEFF85, &[0x85, 1, 0, 0, 0, 0, 0, 0], 10).unwrap();
    stack.take_transmit();
    stack.process(1600).unwrap();
    assert_eq!(stack.control_function(&handle).address_state(), AddressState::CannotClaim);
    let sent = stack.take_transmit();
    assert_eq!(sent.len(), 1);
    assert_eq!(sent[0].header().id(), 0x18EEFFFE);
}

#[test]
fn control_function_queue_drops_oldest() {
    let mut stack = Stack::new();
    let handle = stack.register_control_function(0x85, Name::from_raw(0x2002_FF00_0000_0000));
    for i in 0..21u8 {
        stack.push_can_frame(0x00FEB201, &[i], 0).unwrap();
    }
    let cf = stack.control_function(&handle);
    assert_eq!(cf.get_frame().unwrap().data(), &[1]);
    let mut n = 1;
    while cf.get_frame().is_some() {
        n += 1;
    }
    assert_eq!(n, 20);
}

#[test]
fn control_function_send_needs_claimed_address() {
    let mut stack = Stack::new();
    let handle = stack.register_control_function(0x85, Name::from_raw(0x2002_FF00_0000_0000));
    let frame = Frame::new(Header::new(PGN::new(0xFEB2), 6, 0x00, None), &[1, 2]);
    assert!(!stack.control_function(&handle).send_frame(frame));
    stack.process(0).unwrap();
    stack.process(300).unwrap();
    stack.take_transmit();
    let frame = Frame::new(Header::new(PGN::new(0xFEB2), 6, 0x00, None), &[1, 2]);
    assert!(stack.control_function(&handle).send_frame(frame));
    stack.process(310).unwrap();
    let sent = stack.take_transmit();
    assert_eq!(sent.len(), 1);
    assert_eq!(sent[0].header().id(), 0x18FEB285);
    assert_eq!(sent[0].data(), &[1, 2]);
}

#[test]
fn frames_from_one_control_function_reach_the_others() {
    let mut stack = Stack::new();
    let a = stack.register_control_function(0x80, Name::from_raw(0x2002_FF00_0000_0001));
    let b = stack.register_control_function(0x81, Name::from_raw(0x2002_FF00_0000_0002));
    stack.process(0).unwrap();
    stack.process(300).unwrap();
    while stack.control_function(&b).get_frame().is_some() {}
    while stack.control_function(&a).get_frame().is_some() {}
    let frame = Frame::new(Header::new(PGN::new(0xFEB2), 6, 0x00, None), &[9]);
    assert!(stack.control_function(&a).send_frame(frame));
    stack.process(310).unwrap();
    let got = stack.control_function(&b).get_frame().unwrap();
    assert_eq!(got.header().source_address(), 0x80);
    assert_eq!(stack.control_function(&a).get_frame(), None);
}

#[test]
fn request_and_ack_frames() {
    let req = Request::new(PGN::new(0xEE00), 0xFE, 0xFF);
    let f = req.to_frame();
    assert_eq!(f.header().id(), 0x0CEAFFFE);
    assert_eq!(f.data(), &[0, 0xEE, 0]);
    assert_eq!(Request::from_frame(&f), Some(req));
    assert_eq!(Request::from_frame(&Frame::new(*f.header(), &[0, 0xEE])), None);

    let ack = Ack::new(AckType::NegativeAck, Some(4), PGN::new(0xFEB0), 0x21, 0x30);
    let f = ack.to_frame();
    assert_eq!(f.data(), &[1, 4, 0xFF, 0xFF, 0x30, 0xB0, 0xFE, 0]);
    let back = Ack::from_frame(&f).unwrap();
    assert_eq!(back, ack);
    assert_eq!(*back.ack_type(), AckType::NegativeAck);
    assert_eq!(back.group_function_value(), Some(4));
    assert_eq!(back.address(), 0x30);
    assert_eq!(back.pgn().raw(), 0xFEB0);
    assert_eq!(AckType::from_raw(9), AckType::Other(9));
    assert_eq!(AckType::Other(9).raw(), 9);
}

#[test]
fn pgn_broadcast_classification() {
    assert!(PGN::new(0xFEB2).is_broadcast());
    assert!(!PGN::new(0xF000).is_broadcast());
    assert!(!PGN::new(0xDF00).is_broadcast());
    assert_eq!(Name::from_raw(0x8000_0000_0000_0000).address_capable(), true);
    assert_eq!(Name::from_raw(0x7FFF_FFFF_FFFF_FFFF).address_capable(), false);
}

#[test]
fn cts_window_past_the_last_packet_stops_at_the_end() {
    let data = payload(20);
    let mut stack = Stack::new();
    stack.set_accepted_all(true);
    stack.send_frame(Frame::new(Header::new(PGN::new(0xDF00), 0, 0x90, Some(0x9B)), &data)).unwrap();
    stack.take_transmit();
    stack.push_can_frame(0x1CEC909B, &[17, 5, 1, 255, 255, 0, 223, 0], 0).unwrap();
    let mut seqs = Vec::new();
    for _ in 0..6 {
        stack.process(0).unwrap();
        for f in stack.take_transmit() {
            assert_eq!(f.header().id(), 0x1CEB9B90);
            seqs.push(f.data()[0]);
        }
    }
    assert_eq!(seqs, vec![1, 2, 3]);
}

#[test]
fn zero_size_rts_opens_a_session() {
    let mut stack = Stack::new();
    stack.set_accepted_all(true);
    stack.push_can_frame(0x00EC0201, &[16, 0, 0, 0, 1, 176, 254, 0], 0).unwrap();
    let sent = stack.take_transmit();
    assert_eq!(sent.len(), 1);
    assert_eq!(sent[0].header().id(), 0x1CEC0102);
    assert_eq!(sent[0].data(), &[17, 1, 1, 255, 255, 176, 254, 0]);
    stack.push_can_frame(0x00EB0201, &[1, 255, 255, 255, 255, 255, 255, 255], 0).unwrap();
    let sent = stack.take_transmit();
    assert_eq!(sent.len(), 1);
    assert_eq!(sent[0].data(), &[19, 0, 0, 1, 255, 176, 254, 0]);
    assert_eq!(stack.get_frame(), Some(Frame::new(Header::new(PGN::new(0xFEB0), 0, 0x01, Some(0x02)), &[])));
}
