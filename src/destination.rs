use vstd::prelude::*;

use crate::chain::{proof_accepted, ConsensusState, PacketKey, PacketProof};
use crate::error::RelayError;
use crate::height::Height;
use crate::packet::Packet;

verus! {

/// A receive-packet message: the packet, the proof of its commitment on the
/// source chain, the height that proof is bound to, and the signer.
#[derive(Debug)]
pub struct RecvPacketMsg {
    pub packet: Packet,
    pub proof: PacketProof,
    pub proof_height: Height,
    pub signer: u64,
}

/// The destination chain as far as receiving packets goes: the consensus
/// states of the source chain that its on-chain client trusts, the latest
/// of their heights, and the packet receipts written so far.
#[derive(Debug)]
pub struct DestinationChain {
    pub consensus_states: Vec<ConsensusState>,
    pub latest_trusted: Height,
    pub receipts: Vec<PacketKey>,
}

/// No two consensus states are for the same height.
pub open spec fn heights_unique(s: Seq<ConsensusState>) -> bool {
    forall|i: int, j: int|
        0 <= i < s.len() && 0 <= j < s.len() && i != j ==> s[i].height != s[j].height
}

/// Some trusted consensus state lies at `h` and accepts `proof`.
pub open spec fn proof_verified(states: Seq<ConsensusState>, proof: PacketProof, h: Height) -> bool {
    exists|i: int|
        0 <= i < states.len() && states[i].height == h && proof_accepted(
            states[i].root@,
            states[i].height,
            proof,
        )
}

/// Whether executing a receive-packet message with this packet, proof and
/// proof height writes a receipt: the packet has none yet, the proof is for
/// the packet's commitment at the proof height, and a trusted consensus state
/// at that height accepts it.
pub open spec fn recv_accepted(
    receipts: Seq<PacketKey>,
    states: Seq<ConsensusState>,
    packet: Packet,
    proof: PacketProof,
    proof_height: Height,
) -> bool {
    !receipts.contains(packet.destination_key()) && proof.key == packet.source_key()
        && proof.height == proof_height && proof_verified(states, proof, proof_height)
}

/// The receipts after executing the first `n` messages of a batch in order,
/// starting from `receipts`.
pub open spec fn receipts_after(
    receipts: Seq<PacketKey>,
    states: Seq<ConsensusState>,
    msgs: Seq<RecvPacketMsg>,
    n: nat,
) -> Seq<PacketKey>
    decreases n,
{
    if n == 0 || n > msgs.len() {
        receipts
    } else {
        let prev = receipts_after(receipts, states, msgs, (n - 1) as nat);
        let m = msgs[n - 1];
        if recv_accepted(prev, states, m.packet, m.proof, m.proof_height) {
            prev.push(m.packet.destination_key())
        } else {
            prev
        }
    }
}

/// The outcome of message `i` of a batch, executed after those before it:
/// the receipt it wrote, or the failure.
pub open spec fn batch_outcome(
    receipts: Seq<PacketKey>,
    states: Seq<ConsensusState>,
    msgs: Seq<RecvPacketMsg>,
    i: int,
) -> Result<PacketKey, RelayError> {
    let m = msgs[i];
    if recv_accepted(
        receipts_after(receipts, states, msgs, i as nat),
        states,
        m.packet,
        m.proof,
        m.proof_height,
    ) {
        Ok(m.packet.destination_key())
    } else {
        Err(RelayError::TxFailure)
    }
}

impl DestinationChain {
    /// Valid state: one consensus state per height.
    pub open spec fn wf(&self) -> bool {
        heights_unique(self.consensus_states@)
    }

    /// A chain whose client trusts nothing yet and that holds no receipt.
    pub fn new() -> (r: DestinationChain)
        ensures
            r.wf(),
            r.consensus_states@.len() == 0,
            r.latest_trusted == (Height { revision_number: 0, revision_height: 0 }),
            r.receipts@.len() == 0,
    {
        DestinationChain {
            consensus_states: Vec::new(),
            latest_trusted: Height { revision_number: 0, revision_height: 0 },
            receipts: Vec::new(),
        }
    }

    /// The source height that this chain's client has verified, at which
    /// proofs for messages to this chain must be taken.
    pub fn query_trusted_height(&self) -> (r: Height)
        ensures
            r == self.latest_trusted,
    {
        self.latest_trusted
    }

    /// Records a verified consensus state of the source chain. A height the
    /// client already holds is left as it is; the latest trusted height
    /// moves to `cs.height`.
    pub fn update_client(&mut self, cs: ConsensusState) -> (r: bool)
        requires
            old(self).wf(),
        ensures
            final(self).wf(),
            r == !(exists|i: int|
                0 <= i < old(self).consensus_states@.len()
                    && old(self).consensus_states@[i].height == cs.height),
            r ==> final(self).consensus_states@ == old(self).consensus_states@.push(cs),
            !r ==> final(self).consensus_states@ == old(self).consensus_states@,
            final(self).latest_trusted == (if r { cs.height } else { old(self).latest_trusted }),
            final(self).receipts@ == old(self).receipts@,
    {
        if self.find_state(cs.height).is_some() {
            return false;
        }
        let h = cs.height;
        self.consensus_states.push(cs);
        self.latest_trusted = h;
        proof {
            let s = self.consensus_states@;
            assert forall|i: int, j: int|
                0 <= i < s.len() && 0 <= j < s.len() && i != j implies s[i].height
                != s[j].height by {
                if i == s.len() - 1 {
                    assert(old(self).consensus_states@[j].height != h);
                } else if j == s.len() - 1 {
                    assert(old(self).consensus_states@[i].height != h);
                }
            }
        }
        true
    }

    /// The position of the consensus state at height `h`.
    fn find_state(&self, h: Height) -> (r: Option<usize>)
        requires
            self.wf(),
        ensures
            r.is_none() == !(exists|i: int|
                0 <= i < self.consensus_states@.len() && self.consensus_states@[i].height == h),
            r.is_some() ==> r.unwrap() < self.consensus_states@.len()
                && self.consensus_states@[r.unwrap() as int].height == h,
    {
        let mut i: usize = 0;
        while i < self.consensus_states.len()
            invariant
                0 <= i <= self.consensus_states@.len(),
                forall|j: int| 0 <= j < i ==> self.consensus_states@[j].height != h,
            decreases self.consensus_states@.len() - i,
        {
            if self.consensus_states[i].height == h {
                return Some(i);
            }
            i = i + 1;
        }
        None
    }

    /// Whether a receipt for `key` has been written.
    pub fn has_receipt(&self, key: PacketKey) -> (r: bool)
        ensures
            r == self.receipts@.contains(key),
    {
        let mut i: usize = 0;
        while i < self.receipts.len()
            invariant
                0 <= i <= self.receipts@.len(),
                forall|j: int| 0 <= j < i ==> self.receipts@[j] != key,
            decreases self.receipts@.len() - i,
        {
            if self.receipts[i] == key {
                assert(self.receipts@[i as int] == key);
                return true;
            }
            i = i + 1;
        }
        false
    }

    /// Executes a receive-packet message. Where it is accepted the packet's
    /// receipt is written; otherwise the message fails with `TxFailure` and
    /// the chain is left as it was.
    pub fn deliver_recv_packet(&mut self, msg: &RecvPacketMsg) -> (r: Result<(), RelayError>)
        requires
            old(self).wf(),
        ensures
            final(self).wf(),
            r == (if recv_accepted(
                old(self).receipts@,
                old(self).consensus_states@,
                msg.packet,
                msg.proof,
                msg.proof_height,
            ) {
                Ok::<(), RelayError>(())
            } else {
                Err(RelayError::TxFailure)
            }),
            r is Ok ==> final(self).receipts@ == old(self).receipts@.push(
                msg.packet.destination_key(),
            ),
            r is Err ==> final(self).receipts@ == old(self).receipts@,
            final(self).consensus_states@ == old(self).consensus_states@,
            final(self).latest_trusted == old(self).latest_trusted,
    {
        if self.accepts(msg) {
            self.receipts.push(msg.packet.destination_key());
            Ok(())
        } else {
            Err(RelayError::TxFailure)
        }
    }

    /// Executes a batch of messages in order and reports each one's outcome:
    /// the receipt it wrote, as the event of its execution, or its failure.
    /// A rejected message fails alone, and the others still take effect.
    pub fn send_messages_and_wait_commit(&mut self, msgs: &Vec<RecvPacketMsg>) -> (r: Vec<
        Result<PacketKey, RelayError>,
    >)
        requires
            old(self).wf(),
        ensures
            final(self).wf(),
            r@.len() == msgs@.len(),
            forall|i: int|
                0 <= i < msgs@.len() ==> #[trigger] r@[i] == batch_outcome(
                    old(self).receipts@,
                    old(self).consensus_states@,
                    msgs@,
                    i,
                ),
            final(self).receipts@ == receipts_after(
                old(self).receipts@,
                old(self).consensus_states@,
                msgs@,
                msgs@.len(),
            ),
            final(self).consensus_states@ == old(self).consensus_states@,
            final(self).latest_trusted == old(self).latest_trusted,
    {
        let ghost start = self.receipts@;
        let mut results: Vec<Result<PacketKey, RelayError>> = Vec::new();
        let mut i: usize = 0;
        while i < msgs.len()
            invariant
                0 <= i <= msgs@.len(),
                self.wf(),
                results@.len() == i,
                self.consensus_states@ == old(self).consensus_states@,
                self.latest_trusted == old(self).latest_trusted,
                start == old(self).receipts@,
                self.receipts@ == receipts_after(start, self.consensus_states@, msgs@, i as nat),
                forall|k: int|
                    0 <= k < i ==> #[trigger] results@[k] == batch_outcome(
                        start,
                        self.consensus_states@,
                        msgs@,
                        k,
                    ),
            decreases msgs@.len() - i,
        {
            let r = match self.deliver_recv_packet(&msgs[i]) {
                Ok(()) => Ok(msgs[i].packet.destination_key()),
                Err(e) => Err(e),
            };
            results.push(r);
            i = i + 1;
        }
        results
    }

    /// Checks each message of a batch against the current state without
    /// executing any: `Ok` for one the chain would accept now, `TxFailure`
    /// for one it would reject. The chain is left unchanged.
    pub fn send_messages_and_wait_check_tx(&self, msgs: &Vec<RecvPacketMsg>) -> (r: Vec<
        Result<(), RelayError>,
    >)
        requires
            self.wf(),
        ensures
            r@.len() == msgs@.len(),
            forall|i: int|
                0 <= i < msgs@.len() ==> #[trigger] r@[i] == (if recv_accepted(
                    self.receipts@,
                    self.consensus_states@,
                    msgs@[i].packet,
                    msgs@[i].proof,
                    msgs@[i].proof_height,
                ) {
                    Ok::<(), RelayError>(())
                } else {
                    Err(RelayError::TxFailure)
                }),
    {
        let mut results: Vec<Result<(), RelayError>> = Vec::new();
        let mut i: usize = 0;
        while i < msgs.len()
            invariant
                0 <= i <= msgs@.len(),
                self.wf(),
                results@.len() == i,
                forall|k: int|
                    0 <= k < i ==> #[trigger] results@[k] == (if recv_accepted(
                        self.receipts@,
                        self.consensus_states@,
                        msgs@[k].packet,
                        msgs@[k].proof,
                        msgs@[k].proof_height,
                    ) {
                        Ok::<(), RelayError>(())
                    } else {
                        Err(RelayError::TxFailure)
                    }),
            decreases msgs@.len() - i,
        {
            let r = if self.accepts(&msgs[i]) {
                Ok(())
            } else {
                Err(RelayError::TxFailure)
            };
            results.push(r);
            i = i + 1;
        }
        results
    }

    /// Whether the chain would accept `msg` now.
    fn accepts(&self, msg: &RecvPacketMsg) -> (r: bool)
        requires
            self.wf(),
        ensures
            r == recv_accepted(
                self.receipts@,
                self.consensus_states@,
                msg.packet,
                msg.proof,
                msg.proof_height,
            ),
    {
        if self.has_receipt(msg.packet.destination_key()) {
            return false;
        }
        if !(msg.proof.key == msg.packet.source_key()) || !(msg.proof.height == msg.proof_height) {
            return false;
        }
        match self.find_state(msg.proof_height) {
            None => false,
            Some(i) => {
                let ok = self.consensus_states[i].verify_membership(&msg.proof);
                proof {
                    let s = self.consensus_states@;
                    if proof_verified(s, msg.proof, msg.proof_height) {
                        let k = choose|k: int|
                            0 <= k < s.len() && s[k].height == msg.proof_height
                                && proof_accepted(s[k].root@, s[k].height, msg.proof);
                        assert(k == i as int);
                    }
                }
                ok
            },
        }
    }

    /// The sequences among `sequences` whose packets on `channel` have no
    /// receipt yet, in the order given.
    pub fn query_unreceived_packets(&self, channel: u64, sequences: &Vec<u64>) -> (r: Vec<u64>)
        ensures
            r@ == sequences@.filter(
                |q: u64| !self.receipts@.contains(PacketKey { channel, sequence: q }),
            ),
    {
        let ghost f = |q: u64| !self.receipts@.contains(PacketKey { channel, sequence: q });
        let mut out: Vec<u64> = Vec::new();
        let mut i: usize = 0;
        while i < sequences.len()
            invariant
                0 <= i <= sequences@.len(),
                f == (|q: u64| !self.receipts@.contains(PacketKey { channel, sequence: q })),
                out@ == sequences@.subrange(0, i as int).filter(f),
            decreases sequences@.len() - i,
        {
            let q = sequences[i];
            proof {
                let pre = sequences@.subrange(0, i as int);
                assert(sequences@.subrange(0, i + 1) == pre.push(q));
                reveal(Seq::filter);
                assert(pre.push(q).drop_last() == pre);
            }
            if !self.has_receipt(PacketKey { channel, sequence: q }) {
                out.push(q);
            }
            i = i + 1;
        }
        assert(sequences@.subrange(0, sequences@.len() as int) == sequences@);
        out
    }
}

} // verus!
