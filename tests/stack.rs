use j1939::control_function::AddressState;
use j1939::frame::{Frame, Header, PGN};
use j1939::name::Name;
use j1939::stack::Stack;
use std::collections::VecDeque;

/// A bus for a stack under test: frames waiting to be received, frames sent, and the clock.
struct TestBus {
    input: VecDeque<(u32, Vec<u8>)>,
    output: VecDeque<(u32, Vec<u8>)>,
    now: u64,
}

impl TestBus {
    fn new() -> Self {
        TestBus { input: VecDeque::new(), output: VecDeque::new(), now: 0 }
    }

    fn push_can_frame(&mut self, id: u32, data: &[u8]) {
        self.input.push_back((id, data.to_vec()));
    }

    fn get_can_frame(&mut self) -> Option<(u32, Vec<u8>)> {
        self.output.pop_front()
    }

    fn set_time(&mut self, now: u64) {
        self.now = now;
    }

    fn flush(&mut self, stack: &mut Stack) {
        for f in stack.take_transmit() {
            self.output.push_back((f.header().id(), f.data().to_vec()));
        }
    }

    fn process(&mut self, stack: &mut Stack) {
        while let Some((id, data)) = self.input.pop_front() {
            stack.push_can_frame(id, &data, self.now).unwrap();
            self.flush(stack);
        }
        stack.process(self.now).unwrap();
        self.flush(stack);
    }

    fn send_frame(&mut self, stack: &mut Stack, frame: Frame) {
        stack.send_frame(frame).unwrap();
        self.flush(stack);
    }
}

fn can(id: u32, data: &[u8]) -> Option<(u32, Vec<u8>)> {
    Some((id, data.to_vec()))
}

/// The default NAME: arbitrary address capable.
fn default_name() -> Name {
    Name::from_raw(0xA002_FF00_0000_0000)
}

/// The default NAME without arbitrary address capability.
fn fixed_name() -> Name {
    Name::from_raw(0x2002_FF00_0000_0000)
}

#[test]
fn response_to_addressclaim_request() {
    let mut bus = TestBus::new();
    let mut stack = Stack::new();
    let handle = stack.register_control_function(0x85, fixed_name());
    assert_eq!(stack.control_function(&handle).address_state(), AddressState::Preferred);
    bus.process(&mut stack);
    assert_eq!(bus.get_can_frame(), can(0x18EEFF85, &[0, 0, 0, 0, 0, 255, 2, 32]));
    assert_eq!(stack.control_function(&handle).address_state(), AddressState::WaitForVeto(0));
    bus.set_time(300);
    bus.process(&mut stack);
    assert_eq!(stack.control_function(&handle).address_state(), AddressState::AddressClaimed);
    bus.push_can_frame(0x00EAFF80, &[0, 0xEE, 0]);
    bus.process(&mut stack);
    assert_eq!(bus.get_can_frame(), can(0x18EEFF85, &[0, 0, 0, 0, 0, 255, 2, 32]));
}

#[test]
fn control_function_address_claim_fixed() {
    let mut bus = TestBus::new();
    let mut stack = Stack::new();
    let handle = stack.register_control_function(0x85, fixed_name());
    assert_eq!(stack.control_function(&handle).address_state(), AddressState::Preferred);
    bus.process(&mut stack);
    assert_eq!(bus.get_can_frame(), can(0x18EEFF85, &[0, 0, 0, 0, 0, 255, 2, 32]));
    assert_eq!(stack.control_function(&handle).address_state(), AddressState::WaitForVeto(0));
    bus.set_time(300);
    bus.process(&mut stack);
    assert_eq!(stack.control_function(&handle).address_state(), AddressState::AddressClaimed);
}

#[test]
fn control_function_address_claim_fixed_failed() {
    let mut bus = TestBus::new();
    let mut stack = Stack::new();
    let handle = stack.register_control_function(0x85, fixed_name());
    assert_eq!(stack.control_function(&handle).address_state(), AddressState::Preferred);
    bus.process(&mut stack);
    assert_eq!(bus.get_can_frame(), can(0x18EEFF85, &[0, 0, 0, 0, 0, 255, 2, 32]));
    assert_eq!(stack.control_function(&handle).address_state(), AddressState::WaitForVeto(0));
    bus.push_can_frame(0x18EEFF85, &[0, 0, 0, 0, 0, 255, 2, 1]);
    bus.process(&mut stack);
    assert_eq!(stack.control_function(&handle).address_state(), AddressState::CannotClaim);
    assert_eq!(bus.get_can_frame(), can(0x18EEFFFE, &[0, 0, 0, 0, 0, 255, 2, 32]));
}

#[test]
fn control_function_address_claim() {
    let mut bus = TestBus::new();
    let mut stack = Stack::new();
    let handle = stack.register_control_function(0x85, default_name());
    assert_eq!(stack.control_function(&handle).address_state(), AddressState::Preferred);
    bus.process(&mut stack);
    assert_eq!(bus.get_can_frame(), can(0x0CEAFFFE, &[0, 238, 0]));
    assert_eq!(stack.control_function(&handle).address_state(), AddressState::Requested(0));
    assert_eq!(bus.get_can_frame(), None);
    bus.set_time(1600);
    bus.process(&mut stack);
    assert_eq!(stack.control_function(&handle).address_state(), AddressState::WaitForVeto(1600));
    bus.set_time(1900);
    bus.process(&mut stack);
    assert_eq!(stack.control_function(&handle).address_state(), AddressState::AddressClaimed);
}

#[test]
fn control_function_address_claim_lower_priority() {
    let mut bus = TestBus::new();
    let mut stack = Stack::new();
    let handle = stack.register_control_function(0x85, default_name());
    assert_eq!(stack.control_function(&handle).address_state(), AddressState::Preferred);
    bus.process(&mut stack);
    assert_eq!(bus.get_can_frame(), can(0x0CEAFFFE, &[0, 238, 0]));
    assert_eq!(stack.control_function(&handle).address_state(), AddressState::Requested(0));
    assert_eq!(bus.get_can_frame(), None);
    bus.set_time(1600);
    bus.process(&mut stack);
    assert_eq!(stack.control_function(&handle).address_state(), AddressState::WaitForVeto(1600));
    assert_eq!(bus.get_can_frame(), can(0x18EEFF85, &[0, 0, 0, 0, 0, 255, 2, 160]));
    bus.push_can_frame(0x18EEFF85, &[0, 0, 0, 0, 0, 255, 2, 100]);
    bus.process(&mut stack);
    assert_eq!(stack.control_function(&handle).address_state(), AddressState::WaitForVeto(1600));
    assert_eq!(bus.get_can_frame(), can(0x18EEFF86, &[0, 0, 0, 0, 0, 255, 2, 160]));
}

#[test]
fn control_function_address_claim_higher_priority() {
    let mut bus = TestBus::new();
    let mut stack = Stack::new();
    let handle = stack.register_control_function(0x85, default_name());
    assert_eq!(stack.control_function(&handle).address_state(), AddressState::Preferred);
    bus.process(&mut stack);
    assert_eq!(bus.get_can_frame(), can(0x0CEAFFFE, &[0, 238, 0]));
    assert_eq!(stack.control_function(&handle).address_state(), AddressState::Requested(0));
    assert_eq!(bus.get_can_frame(), None);
    bus.set_time(1600);
    bus.process(&mut stack);
    assert_eq!(stack.control_function(&handle).address_state(), AddressState::WaitForVeto(1600));
    assert_eq!(bus.get_can_frame(), can(0x18EEFF85, &[0, 0, 0, 0, 0, 255, 2, 160]));
    bus.push_can_frame(0x18EEFF85, &[0, 0, 0, 0, 0, 255, 2, 180]);
    bus.process(&mut stack);
    assert_eq!(bus.get_can_frame(), can(0x18EEFF85, &[0, 0, 0, 0, 0, 255, 2, 160]));
    bus.set_time(1900);
    bus.process(&mut stack);
    assert_eq!(stack.control_function(&handle).address_state(), AddressState::AddressClaimed);
}

#[test]
fn control_function_address_conflict() {
    let mut bus = TestBus::new();
    let mut stack = Stack::new();
    let handle = stack.register_control_function(0x85, default_name());
    assert_eq!(stack.control_function(&handle).address_state(), AddressState::Preferred);
    bus.process(&mut stack);
    assert_eq!(bus.get_can_frame(), can(0x0CEAFFFE, &[0, 238, 0]));
    assert_eq!(stack.control_function(&handle).address_state(), AddressState::Requested(0));
    assert_eq!(bus.get_can_frame(), None);
    bus.push_can_frame(0x18EEFF85, &[0, 0, 0, 0, 0, 255, 2, 100]);
    bus.set_time(1600);
    bus.process(&mut stack);
    assert_eq!(stack.control_function(&handle).address_state(), AddressState::WaitForVeto(1600));
    assert_eq!(bus.get_can_frame(), can(0x18EEFF7F, &[0, 0, 0, 0, 0, 255, 2, 160]));
    assert_eq!(bus.get_can_frame(), None);
    bus.set_time(1900);
    bus.process(&mut stack);
    assert_eq!(stack.control_function(&handle).address_state(), AddressState::AddressClaimed);
    assert_eq!(bus.get_can_frame(), None);
}

#[test]
fn broadcast_rx_short() {
    let mut bus = TestBus::new();
    let mut stack = Stack::new();
    bus.push_can_frame(0x00FEB201, &[1, 2, 3, 4, 5, 6, 7, 8]);
    bus.process(&mut stack);
    assert_eq!(
        stack.get_frame(),
        Some(Frame::new(Header::new(PGN::new(0xFEB2), 0, 0x01, None), &[1, 2, 3, 4, 5, 6, 7, 8]))
    );
}

#[test]
fn broadcast_rx_long() {
    let mut bus = TestBus::new();
    let mut stack = Stack::new();
    bus.push_can_frame(0x00ECFF01, &[32, 20, 0, 3, 255, 0xB0, 0xFE, 0]);
    bus.push_can_frame(0x00EBFF01, &[1, 1, 2, 3, 4, 5, 6, 7]);
    bus.push_can_frame(0x00EBFF01, &[2, 1, 2, 3, 4, 5, 6, 7]);
    bus.push_can_frame(0x00EBFF01, &[3, 1, 2, 3, 4, 5, 6, 255]);
    bus.process(&mut stack);
    assert_eq!(
        stack.get_frame(),
        Some(Frame::new(
            Header::new(PGN::new(0xFEB0), 0, 0x01, Some(255)),
            &[1, 2, 3, 4, 5, 6, 7, 1, 2, 3, 4, 5, 6, 7, 1, 2, 3, 4, 5, 6]
        ))
    );
}

#[test]
fn p2p_rx_short() {
    let mut bus = TestBus::new();
    let mut stack = Stack::new();
    stack.set_accepted_all(true);
    bus.push_can_frame(0x00DC2080, &[1, 2, 3, 4, 5, 6, 7, 8]);
    bus.process(&mut stack);
    assert_eq!(
        stack.get_frame(),
        Some(Frame::new(Header::new(PGN::new(0xDC00), 0, 0x80, Some(0x20)), &[1, 2, 3, 4, 5, 6, 7, 8]))
    );
}

#[test]
fn p2p_rx_short_without_address() {
    let mut bus = TestBus::new();
    let mut stack = Stack::new();
    bus.push_can_frame(0x00DC2001, &[1, 2, 3, 4, 5, 6, 7, 8]);
    bus.process(&mut stack);
    assert_eq!(stack.get_frame(), None);
}

#[test]
fn p2p_rx_short_wrong_address() {
    let mut bus = TestBus::new();
    let mut stack = Stack::new();
    bus.push_can_frame(0x00DC2001, &[1, 2, 3, 4, 5, 6, 7, 8]);
    bus.process(&mut stack);
    assert_eq!(stack.get_frame(), None);
}

#[test]
fn p2p_rx_long() {
    let mut bus = TestBus::new();
    let mut stack = Stack::new();
    stack.set_accepted_all(true);
    bus.push_can_frame(0x00EC0201, &[16, 20, 0, 3, 1, 176, 254, 0]);
    bus.process(&mut stack);
    assert_eq!(bus.get_can_frame(), can(0x1CEC0102, &[17, 1, 1, 255, 255, 176, 254, 0]));
    bus.push_can_frame(0x00EB0201, &[1, 1, 2, 3, 4, 5, 6, 7]);
    bus.process(&mut stack);
    assert_eq!(bus.get_can_frame(), can(0x1CEC0102, &[17, 1, 2, 255, 255, 176, 254, 0]));
    bus.push_can_frame(0x00EB0201, &[2, 1, 2, 3, 4, 5, 6, 7]);
    bus.process(&mut stack);
    assert_eq!(bus.get_can_frame(), can(0x1CEC0102, &[17, 1, 3, 255, 255, 176, 254, 0]));
    bus.push_can_frame(0x00EB0201, &[3, 1, 2, 3, 4, 5, 55, 255]);
    bus.process(&mut stack);
    assert_eq!(bus.get_can_frame(), can(0x1CEC0102, &[19, 20, 0, 3, 255, 176, 254, 0]));
    assert_eq!(
        stack.get_frame(),
        Some(Frame::new(
            Header::new(PGN::new(0xFEB0), 0, 0x01, Some(0x2)),
            &[1, 2, 3, 4, 5, 6, 7, 1, 2, 3, 4, 5, 6, 7, 1, 2, 3, 4, 5, 55]
        ))
    );
    bus.process(&mut stack);
    assert_eq!(bus.get_can_frame(), None);
    assert_eq!(stack.get_frame(), None);
}

#[test]
fn p2p_rx_long_abort_already_connected() {
    let mut bus = TestBus::new();
    let mut stack = Stack::new();
    stack.set_accepted_all(true);
    bus.push_can_frame(0x00EC0201, &[16, 20, 0, 3, 1, 176, 254, 0]);
    bus.process(&mut stack);
    assert_eq!(bus.get_can_frame(), can(0x1CEC0102, &[17, 1, 1, 255, 255, 176, 254, 0]));
    bus.push_can_frame(0x00EC0201, &[16, 20, 0, 3, 1, 176, 254, 0]);
    bus.process(&mut stack);
    assert_eq!(bus.get_can_frame(), can(0x1CEC0102, &[255, 1, 255, 255, 255, 176, 254, 0]));
    bus.process(&mut stack);
    assert_eq!(bus.get_can_frame(), None)
}

#[test]
fn broadcast_tx_short() {
    let mut bus = TestBus::new();
    let mut stack = Stack::new();
    bus.send_frame(
        &mut stack,
        Frame::new(Header::new(PGN::new(0xFEB2), 0, 0x21, None), &[1, 2, 3, 4, 5, 6, 7, 8]),
    );
    bus.process(&mut stack);
    assert_eq!(bus.get_can_frame(), can(0x00FEB221, &[1, 2, 3, 4, 5, 6, 7, 8]))
}

#[test]
fn broadcast_tx_long() {
    let mut bus = TestBus::new();
    let mut stack = Stack::new();
    bus.send_frame(
        &mut stack,
        Frame::new(
            Header::new(PGN::new(0xFEB0), 0, 0x21, None),
            &[1, 2, 3, 4, 5, 6, 7, 1, 2, 3, 4, 5, 6, 7, 1, 2, 3, 4, 5, 6],
        ),
    );
    bus.process(&mut stack);
    assert_eq!(bus.get_can_frame(), can(0x1CECFF21, &[32, 20, 0, 3, 255, 0xB0, 0xFE, 0]));
    bus.process(&mut stack);
    assert_eq!(bus.get_can_frame(), can(0x1CEBFF21, &[1, 1, 2, 3, 4, 5, 6, 7]));
    bus.process(&mut stack);
    assert_eq!(bus.get_can_frame(), can(0x1CEBFF21, &[2, 1, 2, 3, 4, 5, 6, 7]));
    bus.process(&mut stack);
    assert_eq!(bus.get_can_frame(), can(0x1CEBFF21, &[3, 1, 2, 3, 4, 5, 6, 255]));
    bus.process(&mut stack);
    assert_eq!(bus.get_can_frame(), None)
}

#[test]
fn p2p_tx_short() {
    let mut bus = TestBus::new();
    let mut stack = Stack::new();
    bus.send_frame(
        &mut stack,
        Frame::new(Header::new(PGN::new(0xF000), 6, 0x21, Some(0x9B)), &[1, 2, 3, 4, 5, 6, 7, 8]),
    );
    bus.process(&mut stack);
    assert_eq!(bus.get_can_frame(), can(0x18F09B21, &[1, 2, 3, 4, 5, 6, 7, 8]))
}

#[test]
fn p2p_tx_long() {
    let mut bus = TestBus::new();
    let mut stack = Stack::new();
    stack.set_accepted_all(true);
    bus.send_frame(
        &mut stack,
        Frame::new(
            Header::new(PGN::new(0xDF00), 0, 0x90, Some(0x9B)),
            &[1, 2, 3, 4, 5, 6, 7, 1, 2, 3, 4, 5, 6, 7, 1, 2, 3, 4, 5, 6],
        ),
    );
    bus.process(&mut stack);
    assert_eq!(bus.get_can_frame(), can(0x1CEC9B90, &[16, 20, 0, 3, 1, 0, 223, 0]));
    bus.process(&mut stack);
    assert_eq!(bus.get_can_frame(), None);
    bus.push_can_frame(0x1CEC909B, &[17, 1, 1, 255, 255, 0, 223, 0]);
    bus.process(&mut stack);
    assert_eq!(bus.get_can_frame(), can(0x1CEB9B90, &[1, 1, 2, 3, 4, 5, 6, 7]));
    bus.process(&mut stack);
    assert_eq!(bus.get_can_frame(), None);
    bus.push_can_frame(0x1CEC909B, &[17, 1, 2, 255, 255, 0, 223, 0]);
    bus.process(&mut stack);
    assert_eq!(bus.get_can_frame(), can(0x1CEB9B90, &[2, 1, 2, 3, 4, 5, 6, 7]));
    bus.push_can_frame(0x1CEC909B, &[17, 1, 2, 255, 255, 0, 223, 0]);
    bus.process(&mut stack);
    assert_eq!(bus.get_can_frame(), can(0x1CEB9B90, &[2, 1, 2, 3, 4, 5, 6, 7]));
    bus.push_can_frame(0x1CEC909B, &[17, 1, 3, 255, 255, 0, 223, 0]);
    bus.process(&mut stack);
    assert_eq!(bus.get_can_frame(), can(0x1CEB9B90, &[3, 1, 2, 3, 4, 5, 6, 255]));
    bus.push_can_frame(0x1CEC909B, &[19, 20, 0, 3, 255, 0, 223, 0]);
    bus.process(&mut stack);
    assert_eq!(bus.get_can_frame(), None);
}

const FP_DATA: [u8; 43] = [
    59, 80, 75, 166, 229, 223, 32, 128, 198, 181, 39, 169, 179, 198, 6, 128, 205, 146, 152, 121, 247, 66, 1, 128,
    84, 49, 19, 0, 0, 0, 0, 0, 0, 0, 100, 0, 100, 0, 0, 0, 0, 0, 0,
];

#[test]
fn receive_fastpacket() {
    let mut bus = TestBus::new();
    let mut stack = Stack::new_with_nema2000(&[PGN(0x1F805)]);
    bus.push_can_frame(0x0DF8051C, &[64, 43, 59, 80, 75, 166, 229, 223]);
    bus.process(&mut stack);
    bus.push_can_frame(0x0DF8051C, &[65, 32, 128, 198, 181, 39, 169, 179]);
    bus.process(&mut stack);
    bus.push_can_frame(0x0DF8051C, &[66, 198, 6, 128, 205, 146, 152, 121]);
    bus.process(&mut stack);
    bus.push_can_frame(0x0DF8051C, &[67, 247, 66, 1, 128, 84, 49, 19]);
    bus.process(&mut stack);
    bus.push_can_frame(0x0DF8051C, &[68, 0, 0, 0, 0, 0, 0, 0]);
    bus.process(&mut stack);
    bus.push_can_frame(0x0DF8051C, &[69, 100, 0, 100, 0, 0, 0, 0]);
    bus.process(&mut stack);
    bus.push_can_frame(0x0DF8051C, &[70, 0, 0, 255, 255, 255, 255, 255]);
    bus.process(&mut stack);
    assert_eq!(
        stack.get_frame(),
        Some(Frame::new(Header::new(PGN::new(0x1F805), 3, 0x1C, None), &FP_DATA))
    );
}

#[test]
fn transmit_fast_packet() {
    let mut bus = TestBus::new();
    let mut stack = Stack::new_with_nema2000(&[PGN(0x1F805)]);
    bus.send_frame(&mut stack, Frame::new(Header::new(PGN::new(0x1F805), 3, 0x1C, None), &FP_DATA));
    assert_eq!(bus.get_can_frame(), can(0x0DF8051C, &[0, 43, 59, 80, 75, 166, 229, 223]));
    bus.process(&mut stack);
    assert_eq!(bus.get_can_frame(), can(0x0DF8051C, &[1, 32, 128, 198, 181, 39, 169, 179]));
    bus.process(&mut stack);
    assert_eq!(bus.get_can_frame(), can(0x0DF8051C, &[2, 198, 6, 128, 205, 146, 152, 121]));
    bus.process(&mut stack);
    assert_eq!(bus.get_can_frame(), can(0x0DF8051C, &[3, 247, 66, 1, 128, 84, 49, 19]));
    bus.process(&mut stack);
    assert_eq!(bus.get_can_frame(), can(0x0DF8051C, &[4, 0, 0, 0, 0, 0, 0, 0]));
    bus.process(&mut stack);
    assert_eq!(bus.get_can_frame(), can(0x0DF8051C, &[5, 100, 0, 100, 0, 0, 0, 0]));
    bus.process(&mut stack);
    assert_eq!(bus.get_can_frame(), can(0x0DF8051C, &[6, 0, 0, 255, 255, 255, 255, 255]));
    bus.process(&mut stack);
    assert_eq!(bus.get_can_frame(), None);

    // a second message on the PGN uses the next sequence counter
    bus.send_frame(&mut stack, Frame::new(Header::new(PGN::new(0x1F805), 3, 0x1C, None), &FP_DATA));
    assert_eq!(bus.get_can_frame(), can(0x0DF8051C, &[32, 43, 59, 80, 75, 166, 229, 223]));
    bus.process(&mut stack);
    assert_eq!(bus.get_can_frame(), can(0x0DF8051C, &[33, 32, 128, 198, 181, 39, 169, 179]));
    bus.process(&mut stack);
    assert_eq!(bus.get_can_frame(), can(0x0DF8051C, &[34, 198, 6, 128, 205, 146, 152, 121]));
    bus.process(&mut stack);
    assert_eq!(bus.get_can_frame(), can(0x0DF8051C, &[35, 247, 66, 1, 128, 84, 49, 19]));
    bus.process(&mut stack);
    assert_eq!(bus.get_can_frame(), can(0x0DF8051C, &[36, 0, 0, 0, 0, 0, 0, 0]));
    bus.process(&mut stack);
    assert_eq!(bus.get_can_frame(), can(0x0DF8051C, &[37, 100, 0, 100, 0, 0, 0, 0]));
    bus.process(&mut stack);
    assert_eq!(bus.get_can_frame(), can(0x0DF8051C, &[38, 0, 0, 255, 255, 255, 255, 255]));
    bus.process(&mut stack);
    assert_eq!(bus.get_can_frame(), None);
}
