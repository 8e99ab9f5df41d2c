use crate::address::AddressMonitor;
use crate::frame::{le24_bytes, Frame, Header, Request, PGN, PGN_ADDRESSCLAIM, PGN_REQUEST};
use crate::name::{le64, le64_bytes, Name};
use crate::queue::{
    bounded_push, force_push, lemma_bounded_push_len, new_queue, pop, queue_capacity, queued, queued_views,
    QUEUE_CAPACITY,
};
use crate::time::{elapsed_millis, elapsed_spec};
use crossbeam_queue::ArrayQueue;
use vstd::prelude::*;

verus! {

/// Where a control function stands in claiming its address; times are in milliseconds
#[derive(Debug, PartialEq, Eq, Structural, Clone, Copy)]
pub enum AddressState {
    /// asked the bus for its address claims at this time
    Requested(u64),
    /// owns its address
    AddressClaimed,
    /// has done nothing yet
    Preferred,
    /// claimed its address at this time and waits for objections
    WaitForVeto(u64),
    /// found no address
    CannotClaim,
}

/// Two control functions on the bus have the same NAME
#[derive(Debug, PartialEq, Eq, Structural, Clone, Copy)]
pub struct NameConflict;

/// Waiting time for answers to a request for address claims.
pub const REQUEST_TIMEOUT_MS: u64 = 1500;

/// Waiting time for objections to an address claim.
pub const VETO_TIMEOUT_MS: u64 = 250;

/// The address claim of `name` for `address` (0xFE: cannot claim).
pub open spec fn claim_view(address: u8, name: Name) -> (Header, Seq<u8>) {
    (
        Header { pgn: PGN(PGN_ADDRESSCLAIM), priority: 6, source_address: address, destination_address: Some(0xFF) },
        le64_bytes(name.raw),
    )
}

/// The global request for address claims, sent from the null address.
pub open spec fn request_claims_view() -> (Header, Seq<u8>) {
    (
        Header { pgn: PGN(PGN_REQUEST), priority: 3, source_address: 0xFE, destination_address: Some(0xFF) },
        le24_bytes(PGN_ADDRESSCLAIM),
    )
}

/// The lowest address from `a` up to 146 that is not in use.
pub open spec fn lowest_free(used: Map<u8, Name>, a: int) -> Option<u8>
    decreases 147 - a,
{
    if a >= 147 || a < 0 {
        None
    } else if !used.contains_key(a as u8) {
        Some(a as u8)
    } else {
        lowest_free(used, a + 1)
    }
}

/// Whether more than `limit` milliseconds passed from `since` to `now`.
pub open spec fn timed_out(now: u64, since: u64, limit: u64) -> bool {
    match elapsed_spec(now, since) {
        Some(d) => d > limit,
        None => false,
    }
}

/// One step of address management at time `now`: the new state, the new
/// address, and the frame to send, if any.
pub open spec fn address_step(
    state: AddressState,
    address: u8,
    configurable: bool,
    name: Name,
    used: Map<u8, Name>,
    now: u64,
) -> (AddressState, u8, Option<(Header, Seq<u8>)>) {
    match state {
        AddressState::Preferred => if configurable {
            (AddressState::Requested(now), address, Some(request_claims_view()))
        } else {
            (AddressState::WaitForVeto(now), address, Some(claim_view(address, name)))
        },
        AddressState::Requested(t0) => if !timed_out(now, t0, REQUEST_TIMEOUT_MS) {
            (state, address, None)
        } else if !used.contains_key(address) {
            (AddressState::WaitForVeto(now), address, Some(claim_view(address, name)))
        } else {
            match lowest_free(used, 127) {
                Some(a) => (AddressState::WaitForVeto(now), a, Some(claim_view(a, name))),
                None => (AddressState::CannotClaim, address, Some(claim_view(0xFE, name))),
            }
        },
        AddressState::WaitForVeto(t0) => if timed_out(now, t0, VETO_TIMEOUT_MS) {
            (AddressState::AddressClaimed, address, None)
        } else {
            (state, address, None)
        },
        _ => (state, address, None),
    }
}

/// The address a configurable control function moves to after losing `address`.
pub open spec fn next_address(address: u8) -> u8 {
    if address < 128 || address >= 247 {
        128
    } else {
        (address + 1) as u8
    }
}

/// Outcome of a contesting address claim by `theirs` for our `address`, as
/// new state, new address and the frame to send; `None` for an equal NAME.
pub open spec fn contest(
    state: AddressState,
    address: u8,
    configurable: bool,
    ours: Name,
    theirs: u64,
    now: u64,
) -> Option<(AddressState, u8, (Header, Seq<u8>))> {
    if theirs < ours.raw {
        if configurable {
            Some((AddressState::WaitForVeto(now), next_address(address), claim_view(next_address(address), ours)))
        } else {
            Some((AddressState::CannotClaim, address, claim_view(0xFE, ours)))
        }
    } else if theirs > ours.raw {
        Some((state, address, claim_view(address, ours)))
    } else {
        None
    }
}

/// A claim by a lower NAME for the address a control function is waiting to
/// own never leaves it owning that address: it moves on to another address
/// (and waits again) when its address is configurable, and gives up otherwise.
pub proof fn lemma_contest_safety(t0: u64, address: u8, configurable: bool, ours: Name, theirs: u64, now: u64)
    requires
        theirs < ours.raw,
    ensures
        contest(AddressState::WaitForVeto(t0), address, configurable, ours, theirs, now) matches Some(
            (state, new_address, _),
        ) && state != AddressState::AddressClaimed && (if configurable {
            state == AddressState::WaitForVeto(now) && new_address != address
        } else {
            state == AddressState::CannotClaim
        }),
{
}

/// A control function whose preferred address nobody else uses owns it after
/// three steps: the request, then the claim once more than 1500 ms passed,
/// then more than 250 ms later; and it keeps it at every later step. (Gaps
/// of more than half the clock's range read as a clock that went back.)
pub proof fn lemma_claim_liveness(address: u8, name: Name, used: Map<u8, Name>, t0: u64, t1: u64, t2: u64, t3: u64)
    requires
        !used.contains_key(address),
        t0 <= t1 <= t2,
        REQUEST_TIMEOUT_MS < t1 - t0 <= 0x7FFF_FFFF_FFFF_FFFF,
        VETO_TIMEOUT_MS < t2 - t1 <= 0x7FFF_FFFF_FFFF_FFFF,
    ensures
        ({
            let s1 = address_step(AddressState::Preferred, address, true, name, used, t0);
            let s2 = address_step(s1.0, s1.1, true, name, used, t1);
            let s3 = address_step(s2.0, s2.1, true, name, used, t2);
            &&& s3.0 == AddressState::AddressClaimed
            &&& s3.1 == address
            &&& address_step(s3.0, s3.1, true, name, used, t3).0 == AddressState::AddressClaimed
            &&& address_step(s3.0, s3.1, true, name, used, t3).1 == address
        }),
{
    assert(elapsed_spec(t1, t0) == Some((t1 - t0) as u64));
    assert(elapsed_spec(t2, t1) == Some((t2 - t1) as u64));
}

/// What one step of address management at time `now` does to a control function, with the addresses `used` on the bus.
pub open spec fn cf_process_effect(pre: ControlFunction, post: ControlFunction, used: Map<u8, Name>, now: u64) -> bool {
    &&& (({
        let step = address_step(pre.spec_state(), pre.spec_address(),
            pre.spec_configurable(), pre.spec_name(), used, now);
        &&& post.spec_state() == step.0
        &&& post.spec_address() == step.1
        &&& post.sent() == match step.2 {
            Some(f) => bounded_push(pre.sent(), QUEUE_CAPACITY as nat, f),
            None => pre.sent(),
        }
    }))
    &&& (post.received() == pre.received())
    &&& (post.spec_name() == pre.spec_name())
    &&& (post.spec_configurable() == pre.spec_configurable())
}

/// What a frame `f` on the bus at time `now` does to a control function, and whether its NAME was claimed elsewhere (`r`).
pub open spec fn cf_frame_effect(pre: ControlFunction, post: ControlFunction, f: (Header, Seq<u8>), now: u64, r: Result<(), NameConflict>) -> bool {
    &&& (post.spec_name() == pre.spec_name())
    &&& (post.spec_configurable() == pre.spec_configurable())
    &&& (({
        let h = f.0;
        let d = f.1;
        let state = pre.spec_state();
        let address = pre.spec_address();
        let contested = h.pgn.0 == PGN_ADDRESSCLAIM && d.len() == 8 && h.source_address == address
            && (state == AddressState::AddressClaimed || state is WaitForVeto);
        if !accepts(state, address, h.destination_address) {
            post == pre && r is Ok
        } else if h.destination_address is None {
            &&& post.received() == bounded_push(pre.received(), QUEUE_CAPACITY as nat, f)
            &&& post.sent() == pre.sent()
            &&& post.spec_state() == state
            &&& post.spec_address() == address
            &&& r is Ok
        } else if h.pgn.0 == PGN_ADDRESSCLAIM {
            &&& post.received() == pre.received()
            &&& if !contested {
                post == pre && r is Ok
            } else {
                match contest(state, address, pre.spec_configurable(), pre.spec_name(), le64(d), now) {
                    Some((s, a, f)) => {
                        &&& post.spec_state() == s
                        &&& post.spec_address() == a
                        &&& post.sent() == bounded_push(pre.sent(), QUEUE_CAPACITY as nat, f)
                        &&& r is Ok
                    },
                    None => post == pre && r is Err,
                }
            }
        } else if is_claim_request(f) {
            &&& post.received() == pre.received()
            &&& post.spec_state() == state
            &&& post.spec_address() == address
            &&& r is Ok
            &&& post.sent() == if state == AddressState::AddressClaimed || state is WaitForVeto {
                bounded_push(pre.sent(), QUEUE_CAPACITY as nat, claim_view(address, pre.spec_name()))
            } else if state == AddressState::CannotClaim {
                bounded_push(pre.sent(), QUEUE_CAPACITY as nat, claim_view(0xFE, pre.spec_name()))
            } else {
                pre.sent()
            }
        } else {
            &&& post.received() == bounded_push(pre.received(), QUEUE_CAPACITY as nat, f)
            &&& post.sent() == pre.sent()
            &&& post.spec_state() == state
            &&& post.spec_address() == address
            &&& r is Ok
        }
    }))
}

/// `ControlFunction` is an entity with its own address on a J1939 bus: it
/// takes part in address management and sends and receives frames
pub struct ControlFunction {
    name: Name,
    send_queue: ArrayQueue<Frame>,
    receive_queue: ArrayQueue<Frame>,
    address_state: AddressState,
    address: u8,
    address_configurable: bool,
}

impl ControlFunction {
    /// The NAME
    pub closed spec fn spec_name(&self) -> Name {
        self.name
    }

    /// The address-claim state
    pub closed spec fn spec_state(&self) -> AddressState {
        self.address_state
    }

    /// The current address
    pub closed spec fn spec_address(&self) -> u8 {
        self.address
    }

    /// Whether the address may be chosen by the control function
    pub closed spec fn spec_configurable(&self) -> bool {
        self.address_configurable
    }

    /// Frames waiting to be sent, oldest first
    pub closed spec fn sent(&self) -> Seq<(Header, Seq<u8>)> {
        queued_views(self.send_queue)
    }

    /// Frames received for the application, oldest first
    pub closed spec fn received(&self) -> Seq<(Header, Seq<u8>)> {
        queued_views(self.receive_queue)
    }

    /// Both queues hold at most their capacity.
    pub closed spec fn wf(&self) -> bool {
        &&& queue_capacity(self.send_queue) == QUEUE_CAPACITY
        &&& queue_capacity(self.receive_queue) == QUEUE_CAPACITY
        &&& queued(self.send_queue).len() <= QUEUE_CAPACITY
        &&& queued(self.receive_queue).len() <= QUEUE_CAPACITY
    }

    /// A control function with a preferred address; its address is
    /// configurable when its NAME says so
    pub fn new(name: Name, preferred_address: u8) -> (r: Self)
        ensures
            r.wf(),
            r.spec_name() == name,
            r.spec_state() == AddressState::Preferred,
            r.spec_address() == preferred_address,
            r.spec_configurable() == (name.raw >= 0x8000_0000_0000_0000),
            r.sent() == Seq::<(Header, Seq<u8>)>::empty(),
            r.received() == Seq::<(Header, Seq<u8>)>::empty(),
    {
        let r = Self {
            name,
            send_queue: new_queue(QUEUE_CAPACITY),
            receive_queue: new_queue(QUEUE_CAPACITY),
            address_state: AddressState::Preferred,
            address: preferred_address,
            address_configurable: name.address_capable(),
        };
        assert(r.sent() =~= Seq::<(Header, Seq<u8>)>::empty());
        assert(r.received() =~= Seq::<(Header, Seq<u8>)>::empty());
        r
    }

    /// `Some(address)` once the address is claimed, else `None`
    pub fn is_online(&self) -> (r: Option<u8>)
        ensures
            r == (if self.spec_state() == AddressState::AddressClaimed {
                Some(self.spec_address())
            } else {
                None
            }),
    {
        if self.address_state == AddressState::AddressClaimed {
            Some(self.address)
        } else {
            None
        }
    }

    /// The address-claim state
    pub fn address_state(&self) -> (r: AddressState)
        ensures
            r == self.spec_state(),
    {
        self.address_state
    }

    fn push_sent(&mut self, f: Frame)
        requires
            old(self).wf(),
        ensures
            final(self).wf(),
            final(self).sent() == bounded_push(old(self).sent(), QUEUE_CAPACITY as nat, f@),
            final(self).received() == old(self).received(),
            final(self).spec_name() == old(self).spec_name(),
            final(self).spec_state() == old(self).spec_state(),
            final(self).spec_address() == old(self).spec_address(),
            final(self).spec_configurable() == old(self).spec_configurable(),
    {
        proof {
            lemma_bounded_push_len(queued(self.send_queue), QUEUE_CAPACITY as nat, f);
        }
        let ghost before = queued(self.send_queue);
        force_push(&mut self.send_queue, f);
        assert(self.sent() =~= bounded_push(old(self).sent(), QUEUE_CAPACITY as nat, f@)) by {
            if before.len() >= QUEUE_CAPACITY {
                assert(before.drop_first().map_values(|g: Frame| g@) =~= before.map_values(|g: Frame| g@).drop_first());
            }
        }
    }

    fn push_received(&mut self, f: Frame)
        requires
            old(self).wf(),
        ensures
            final(self).wf(),
            final(self).received() == bounded_push(old(self).received(), QUEUE_CAPACITY as nat, f@),
            final(self).sent() == old(self).sent(),
            final(self).spec_name() == old(self).spec_name(),
            final(self).spec_state() == old(self).spec_state(),
            final(self).spec_address() == old(self).spec_address(),
            final(self).spec_configurable() == old(self).spec_configurable(),
    {
        proof {
            lemma_bounded_push_len(queued(self.receive_queue), QUEUE_CAPACITY as nat, f);
        }
        let ghost before = queued(self.receive_queue);
        force_push(&mut self.receive_queue, f);
        assert(self.received() =~= bounded_push(old(self).received(), QUEUE_CAPACITY as nat, f@)) by {
            if before.len() >= QUEUE_CAPACITY {
                assert(before.drop_first().map_values(|g: Frame| g@) =~= before.map_values(|g: Frame| g@).drop_first());
            }
        }
    }

    fn claim_frame(&self, address: u8) -> (r: Frame)
        ensures
            r@ == claim_view(address, self.spec_name()),
    {
        let bytes = self.name.to_le_bytes();
        Frame::new(Header::new(PGN(PGN_ADDRESSCLAIM), 6, address, Some(255)), &bytes)
    }

    /// Sends a frame from this control function: once its address is
    /// claimed, the source address is set to it and the frame is queued for
    /// the next `process` of the stack (returns true); before that, nothing
    /// happens (returns false)
    pub fn send_frame(&mut self, frame: Frame) -> (r: bool)
        requires
            old(self).wf(),
        ensures
            final(self).wf(),
            r == (old(self).spec_state() == AddressState::AddressClaimed),
            final(self).spec_state() == old(self).spec_state(),
            final(self).spec_address() == old(self).spec_address(),
            final(self).spec_name() == old(self).spec_name(),
            final(self).spec_configurable() == old(self).spec_configurable(),
            final(self).received() == old(self).received(),
            final(self).sent() == if r {
                bounded_push(old(self).sent(), QUEUE_CAPACITY as nat, (
                    Header { source_address: old(self).spec_address(), ..frame@.0 },
                    frame@.1,
                ))
            } else {
                old(self).sent()
            },
    {
        if self.address_state == AddressState::AddressClaimed {
            let mut frame = frame;
            frame.update_source_address(self.address);
            self.push_sent(frame);
            true
        } else {
            false
        }
    }

    /// Takes the oldest received frame, if any
    pub fn get_frame(&mut self) -> (r: Option<Frame>)
        requires
            old(self).wf(),
        ensures
            final(self).wf(),
            old(self).received().len() == 0 ==> r is None && final(self).received() == old(self).received(),
            old(self).received().len() > 0 ==> (r matches Some(f) && f@ == old(self).received()[0]
                && final(self).received() == old(self).received().drop_first()),
            final(self).sent() == old(self).sent(),
            final(self).spec_state() == old(self).spec_state(),
            final(self).spec_address() == old(self).spec_address(),
            final(self).spec_name() == old(self).spec_name(),
            final(self).spec_configurable() == old(self).spec_configurable(),
    {
        let r = pop(&mut self.receive_queue);
        assert(self.received() =~= if old(self).received().len() > 0 {
            old(self).received().drop_first()
        } else {
            old(self).received()
        });
        r
    }

    /// Takes the oldest frame waiting to be sent, if any
    pub fn pop_sent(&mut self) -> (r: Option<Frame>)
        requires
            old(self).wf(),
        ensures
            final(self).wf(),
            old(self).sent().len() == 0 ==> r is None && final(self).sent() == old(self).sent(),
            old(self).sent().len() > 0 ==> (r matches Some(f) && f@ == old(self).sent()[0]
                && final(self).sent() == old(self).sent().drop_first()),
            final(self).received() == old(self).received(),
            final(self).spec_state() == old(self).spec_state(),
            final(self).spec_address() == old(self).spec_address(),
            final(self).spec_name() == old(self).spec_name(),
            final(self).spec_configurable() == old(self).spec_configurable(),
    {
        let r = pop(&mut self.send_queue);
        assert(self.sent() =~= if old(self).sent().len() > 0 {
            old(self).sent().drop_first()
        } else {
            old(self).sent()
        });
        r
    }
    /// One step of address management at time `now`, with the addresses in
    /// use that `monitor` knows of
    pub fn process(&mut self, monitor: &AddressMonitor, now: u64)
        requires
            old(self).wf(),
        ensures
            final(self).wf(),
            cf_process_effect(*old(self), *final(self), monitor@, now),
    {
        match self.address_state {
            AddressState::Preferred => {
                if self.address_configurable {
                    let req = Request::new(PGN(PGN_ADDRESSCLAIM), 0xFE, 0xFF).to_frame();
                    self.push_sent(req);
                    self.address_state = AddressState::Requested(now);
                } else {
                    let claim = self.claim_frame(self.address);
                    self.push_sent(claim);
                    self.address_state = AddressState::WaitForVeto(now);
                }
            },
            AddressState::Requested(requested) => {
                let waited = match elapsed_millis(now, requested) {
                    Some(d) => d > REQUEST_TIMEOUT_MS,
                    None => false,
                };
                if waited {
                    if monitor.contains(self.address) {
                        let mut a: u8 = 127;
                        while a < 147 && monitor.contains(a)
                            invariant
                                127 <= a <= 147,
                                lowest_free(monitor@, 127) == lowest_free(monitor@, a as int),
                            decreases 147 - a,
                        {
                            a = a + 1;
                        }
                        if a >= 147 {
                            let claim = self.claim_frame(0xFE);
                            self.push_sent(claim);
                            self.address_state = AddressState::CannotClaim;
                        } else {
                            self.address = a;
                            let claim = self.claim_frame(a);
                            self.push_sent(claim);
                            self.address_state = AddressState::WaitForVeto(now);
                        }
                    } else {
                        let claim = self.claim_frame(self.address);
                        self.push_sent(claim);
                        self.address_state = AddressState::WaitForVeto(now);
                    }
                }
            },
            AddressState::WaitForVeto(requested) => {
                let waited = match elapsed_millis(now, requested) {
                    Some(d) => d > VETO_TIMEOUT_MS,
                    None => false,
                };
                if waited {
                    self.address_state = AddressState::AddressClaimed;
                }
            },
            _ => {},
        }
    }

    /// Looks at a frame on the bus: a frame for the global address, for our
    /// claimed address, or without destination concerns us. A contesting
    /// address claim is settled by NAME; a request for address claims is
    /// answered by our claim (or cannot-claim); anything else goes to the
    /// received frames. An address claim with our own NAME is an error.
    pub fn handle_new_frame(&mut self, frame: &Frame, now: u64) -> (r: Result<(), NameConflict>)
        requires
            old(self).wf(),
        ensures
            final(self).wf(),
            cf_frame_effect(*old(self), *final(self), frame@, now, r),
    {
        let h = *frame.header();
        let targeted = match h.destination_address {
            Some(da) => da == 0xFF || (self.address_state == AddressState::AddressClaimed && self.address == da),
            None => true,
        };
        if !targeted {
            return Ok(());
        }
        if h.destination_address.is_none() {
            self.push_received(frame.duplicate());
            return Ok(());
        }
        if h.pgn.0 == PGN_ADDRESSCLAIM {
            let d = frame.data();
            let waiting = match self.address_state {
                AddressState::AddressClaimed => true,
                AddressState::WaitForVeto(_) => true,
                _ => false,
            };
            if d.len() != 8 || h.source_address != self.address || !waiting {
                return Ok(());
            }
            let theirs = Name::from_le_bytes(d).raw;
            if theirs < self.name.raw {
                if self.address_configurable {
                    if self.address < 128 || self.address >= 247 {
                        self.address = 128;
                    } else {
                        self.address = self.address + 1;
                    }
                    self.address_state = AddressState::WaitForVeto(now);
                    let claim = self.claim_frame(self.address);
                    self.push_sent(claim);
                } else {
                    self.address_state = AddressState::CannotClaim;
                    let claim = self.claim_frame(0xFE);
                    self.push_sent(claim);
                }
                Ok(())
            } else if theirs > self.name.raw {
                let claim = self.claim_frame(self.address);
                self.push_sent(claim);
                Ok(())
            } else {
                Err(NameConflict)
            }
        } else {
            let claim_request = match Request::from_frame(frame) {
                Some(req) => req.pgn.0 == PGN_ADDRESSCLAIM,
                None => false,
            };
            if claim_request {
                match self.address_state {
                    AddressState::AddressClaimed | AddressState::WaitForVeto(_) => {
                        let claim = self.claim_frame(self.address);
                        self.push_sent(claim);
                    },
                    AddressState::CannotClaim => {
                        let claim = self.claim_frame(0xFE);
                        self.push_sent(claim);
                    },
                    _ => {},
                }
            } else {
                self.push_received(frame.duplicate());
            }
            Ok(())
        }
    }
}

/// Whether a control function in `state` at `address` looks at a frame for `da`.
pub open spec fn accepts(state: AddressState, address: u8, da: Option<u8>) -> bool {
    match da {
        Some(d) => d == 0xFF || (state == AddressState::AddressClaimed && address == d),
        None => true,
    }
}

/// Whether a frame is a request for address claims.
pub open spec fn is_claim_request(f: (Header, Seq<u8>)) -> bool {
    f.0.pgn.0 == PGN_REQUEST && f.1.len() == 3 && crate::frame::le24(f.1[0], f.1[1], f.1[2]) == PGN_ADDRESSCLAIM
}

/// A control function waiting to own its address, or owning it, that sees an
/// address claim for that address by a lower NAME never keeps owning that
/// address: a configurable one moves to another address, claims it and waits
/// again; a fixed one gives up and sends a cannot-claim.
pub proof fn lemma_lower_claim_displaces(
    pre: ControlFunction,
    post: ControlFunction,
    f: (Header, Seq<u8>),
    now: u64,
    r: Result<(), NameConflict>,
)
    requires
        cf_frame_effect(pre, post, f, now, r),
        pre.spec_state() == AddressState::AddressClaimed || pre.spec_state() is WaitForVeto,
        f.0.pgn.0 == PGN_ADDRESSCLAIM,
        f.0.destination_address == Some(0xFFu8),
        f.0.source_address == pre.spec_address(),
        f.1.len() == 8,
        le64(f.1) < pre.spec_name().raw,
    ensures
        r is Ok,
        !(post.spec_state() == AddressState::AddressClaimed && post.spec_address() == pre.spec_address()),
        pre.spec_configurable() ==> {
            &&& post.spec_state() == AddressState::WaitForVeto(now)
            &&& post.spec_address() != pre.spec_address()
            &&& post.sent() == bounded_push(pre.sent(), QUEUE_CAPACITY as nat, claim_view(post.spec_address(), pre.spec_name()))
        },
        !pre.spec_configurable() ==> {
            &&& post.spec_state() == AddressState::CannotClaim
            &&& post.sent() == bounded_push(pre.sent(), QUEUE_CAPACITY as nat, claim_view(0xFE, pre.spec_name()))
        },
{
}

} // verus!
