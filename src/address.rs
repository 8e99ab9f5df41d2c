use crate::frame::{Frame, Header, Request, PGN_ADDRESSCLAIM, PGN_REQUEST};
use crate::name::{le64, Name};
use std::collections::BTreeMap;
use vstd::prelude::*;

verus! {

/// What learning from the frame `f` does to the list of addresses in use.
pub open spec fn monitor_effect(pre: Map<u8, Name>, post: Map<u8, Name>, f: (Header, Seq<u8>)) -> bool {
    &&& ((f.0.pgn.0 == PGN_ADDRESSCLAIM && f.1.len() == 8) ==> {
        let sa = f.0.source_address;
        let name = Name { raw: le64(f.1) };
        &&& forall|k: u8| #[trigger] post.contains_key(k)
            <==> (k == sa || (pre.contains_key(k) && pre[k] != name))
        &&& post[sa] == name
        &&& forall|k: u8| k != sa && #[trigger] post.contains_key(k) ==> post[k] == pre[k]
    })
    &&& ((f.0.pgn.0 == PGN_REQUEST && f.1.len() == 3 && f.1[0] == 0x00 && f.1[1] == 0xEE
        && f.1[2] == 0x00) ==> post == Map::<u8, Name>::empty())
    &&& (!((f.0.pgn.0 == PGN_ADDRESSCLAIM && f.1.len() == 8) || (f.0.pgn.0 == PGN_REQUEST
        && f.1.len() == 3 && f.1[0] == 0x00 && f.1[1] == 0xEE && f.1[2] == 0x00))
        ==> post == pre)
}

/// The addresses in use on the bus, as learnt from address claims
pub struct AddressMonitor {
    cf: BTreeMap<u8, Name>,
}

impl View for AddressMonitor {
    type V = Map<u8, Name>;

    closed spec fn view(&self) -> Map<u8, Name> {
        self.cf@
    }
}

impl AddressMonitor {
    /// An empty list
    pub fn new() -> (r: Self)
        ensures
            r@ == Map::<u8, Name>::empty(),
    {
        Self { cf: BTreeMap::new() }
    }

    /// Learns from a frame: an address claim (eight bytes of NAME) records
    /// its NAME under its source address, dropping that NAME from any other
    /// address; a request for address claims clears the list, since every
    /// control function answers it. Other frames change nothing.
    pub fn handle_frame(&mut self, frame: &Frame)
        ensures
            monitor_effect(old(self)@, final(self)@, frame@),
    {
        let pgn = frame.header().pgn.0;
        if pgn == PGN_ADDRESSCLAIM && frame.data().len() == 8 {
            let sa = frame.header().source_address;
            let name = Name::from_le_bytes(frame.data());
            let mut a: u16 = 0;
            while a < 256
                invariant
                    a <= 256,
                    forall|k: u8| #[trigger] self.cf@.contains_key(k)
                        <==> (old(self).cf@.contains_key(k) && (k >= a || old(self).cf@[k] != name)),
                    forall|k: u8| #[trigger] self.cf@.contains_key(k) ==> self.cf@[k] == old(self).cf@[k],
                decreases 256 - a,
            {
                let k = a as u8;
                let same = match self.cf.get(&k) {
                    Some(n) => n.raw == name.raw,
                    None => false,
                };
                if same {
                    self.cf.remove(&k);
                }
                a = a + 1;
            }
            self.cf.insert(sa, name);
        } else if pgn == PGN_REQUEST {
            match Request::from_frame(frame) {
                Some(req) => {
                    if req.pgn.0 == PGN_ADDRESSCLAIM {
                        self.cf.clear();
                    }
                },
                None => {},
            }
        }
    }

    /// Whether `address` is in use
    pub fn contains(&self, address: u8) -> (r: bool)
        ensures
            r == self@.contains_key(address),
    {
        self.cf.contains_key(&address)
    }

    /// The list of control functions on the bus: NAME by source address
    pub fn control_function_list(&self) -> (r: &BTreeMap<u8, Name>)
        ensures
            r@ == self@,
    {
        &self.cf
    }
}

} // verus!
