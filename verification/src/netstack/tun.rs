//! The packet queues between the TUN device and the user-space IP stack.
use vstd::prelude::*;
use std::collections::VecDeque;

verus! {

/// Packets from the TUN device waiting for the stack (`rx`), packets from the stack waiting for
/// the TUN device (`tx`), both oldest first, and the MTU.
#[derive(Debug)]
pub struct PacketDevice {
    pub rx: VecDeque<Vec<u8>>,
    pub tx: VecDeque<Vec<u8>>,
    pub mtu: usize,
}

impl PacketDevice {
    /// An empty device with the given MTU.
    pub fn new(mtu: usize) -> (d: PacketDevice)
        ensures
            d.rx@.len() == 0,
            d.tx@.len() == 0,
            d.mtu == mtu,
    {
        PacketDevice { rx: VecDeque::new(), tx: VecDeque::new(), mtu }
    }

    /// A packet read from the TUN device, queued for the stack.
    pub fn push_tun_packet(&mut self, packet: Vec<u8>)
        ensures
            final(self).rx@ == old(self).rx@.push(packet),
            final(self).tx@ == old(self).tx@,
            final(self).mtu == old(self).mtu,
    {
        self.rx.push_back(packet);
    }

    /// The oldest packet the stack sent, to be written to the TUN device.
    pub fn pop_tun_packet(&mut self) -> (r: Option<Vec<u8>>)
        ensures
            old(self).tx@.len() == 0 ==> r is None && final(self).tx@ == old(self).tx@,
            old(self).tx@.len() > 0 ==> r == Some(old(self).tx@[0]) && final(self).tx@ == old(self).tx@.drop_first(),
            final(self).rx@ == old(self).rx@,
            final(self).mtu == old(self).mtu,
    {
        let r = self.tx.pop_front();
        assert(old(self).tx@.len() > 0 ==> old(self).tx@.subrange(1, old(self).tx@.len() as int) =~= old(self).tx@.drop_first());
        r
    }

    /// The oldest packet from the TUN device, for the stack to receive.
    pub fn receive_packet(&mut self) -> (r: Option<Vec<u8>>)
        ensures
            old(self).rx@.len() == 0 ==> r is None && final(self).rx@ == old(self).rx@,
            old(self).rx@.len() > 0 ==> r == Some(old(self).rx@[0]) && final(self).rx@ == old(self).rx@.drop_first(),
            final(self).tx@ == old(self).tx@,
            final(self).mtu == old(self).mtu,
    {
        let r = self.rx.pop_front();
        assert(old(self).rx@.len() > 0 ==> old(self).rx@.subrange(1, old(self).rx@.len() as int) =~= old(self).rx@.drop_first());
        r
    }

    /// A packet the stack sends, queued for the TUN device.
    pub fn transmit_packet(&mut self, packet: Vec<u8>)
        ensures
            final(self).tx@ == old(self).tx@.push(packet),
            final(self).rx@ == old(self).rx@,
            final(self).mtu == old(self).mtu,
    {
        self.tx.push_back(packet);
    }
}

} // verus!
