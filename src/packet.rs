use vstd::prelude::*;

use crate::chain::PacketKey;
use crate::height::Height;

verus! {

/// A cross-chain transfer unit: its two channel ends, its sequence number,
/// its timeouts and an opaque payload.
#[derive(Debug)]
pub struct Packet {
    pub source_port: u64,
    pub source_channel: u64,
    pub destination_port: u64,
    pub destination_channel: u64,
    pub sequence: u64,
    pub timeout_height: Height,
    pub timeout_timestamp: u64,
    pub data: Vec<u8>,
}

/// Two packets carry the same fields and the same payload.
pub open spec fn same_packet(a: Packet, b: Packet) -> bool {
    a.source_port == b.source_port && a.source_channel == b.source_channel && a.destination_port
        == b.destination_port && a.destination_channel == b.destination_channel && a.sequence
        == b.sequence && a.timeout_height == b.timeout_height && a.timeout_timestamp
        == b.timeout_timestamp && a.data@ == b.data@
}

impl Packet {
    /// Where the packet's commitment is stored on the source chain.
    pub open spec fn source_key_spec(&self) -> PacketKey {
        PacketKey { channel: self.source_channel, sequence: self.sequence }
    }

    /// Where the packet's receipt is stored on the destination chain.
    pub open spec fn destination_key_spec(&self) -> PacketKey {
        PacketKey { channel: self.destination_channel, sequence: self.sequence }
    }

    #[verifier::when_used_as_spec(source_key_spec)]
    pub fn source_key(&self) -> (r: PacketKey)
        ensures
            r == self.source_key_spec(),
    {
        PacketKey { channel: self.source_channel, sequence: self.sequence }
    }

    #[verifier::when_used_as_spec(destination_key_spec)]
    pub fn destination_key(&self) -> (r: PacketKey)
        ensures
            r == self.destination_key_spec(),
    {
        PacketKey { channel: self.destination_channel, sequence: self.sequence }
    }

    /// A copy of the packet, payload included.
    pub fn duplicate(&self) -> (r: Packet)
        ensures
            same_packet(r, *self),
    {
        let data = self.data.clone();
        assert(data@ =~= self.data@);
        Packet {
            source_port: self.source_port,
            source_channel: self.source_channel,
            destination_port: self.destination_port,
            destination_channel: self.destination_channel,
            sequence: self.sequence,
            timeout_height: self.timeout_height,
            timeout_timestamp: self.timeout_timestamp,
            data,
        }
    }
}

} // verus!
