use vstd::prelude::*;

use crate::chain::{is_root_at, Commitment, SourceChain};
use crate::destination::{recv_accepted, DestinationChain, RecvPacketMsg};
use crate::error::RelayError;
use crate::height::{height_le, Height};
use crate::packet::{same_packet, Packet};

verus! {

/// Relays a packet to its destination by a receive-packet message.
pub struct ReceivePacketRelayer;

/// Every consensus state the client trusts is the source chain's own root
/// at that height.
pub open spec fn client_tracks(
    states: Seq<crate::chain::ConsensusState>,
    commitments: Seq<Commitment>,
) -> bool {
    forall|i: int|
        0 <= i < states.len() ==> is_root_at(#[trigger] states[i].root@, commitments, states[i].height)
}

/// The outcome of relaying `packet` from `src` to a destination with these
/// receipts and trusted consensus states, at the destination-trusted height.
pub open spec fn relay_result(
    src: SourceChain,
    receipts: Seq<crate::chain::PacketKey>,
    states: Seq<crate::chain::ConsensusState>,
    trusted: Height,
    packet: Packet,
) -> Result<(), RelayError> {
    match src.proven_packet_spec(packet.source_key(), trusted) {
        Err(e) => Err(e),
        Ok(p) => if recv_accepted(receipts, states, packet, p, trusted) {
            Ok(())
        } else {
            Err(RelayError::TxFailure)
        },
    }
}

/// Builds the receive-packet message for `packet` with the proof of its
/// commitment taken on `src` at `height`; a failed proof query is passed on.
pub fn build_receive_packet_message(
    src: &SourceChain,
    height: Height,
    packet: &Packet,
    signer: u64,
) -> (r: Result<RecvPacketMsg, RelayError>)
    requires
        src.wf(),
    ensures
        r is Err == src.proven_packet_spec(packet.source_key(), height) is Err,
        r is Err ==> r->Err_0 == src.proven_packet_spec(packet.source_key(), height)->Err_0,
        r is Ok ==> same_packet(r->Ok_0.packet, *packet) && r->Ok_0.proof
            == src.proven_packet_spec(packet.source_key(), height)->Ok_0 && r->Ok_0.proof_height
            == height && r->Ok_0.signer == signer,
{
    match src.proven_packet(packet.source_key(), height) {
        Err(e) => Err(e),
        Ok(proof) => Ok(
            RecvPacketMsg { packet: packet.duplicate(), proof, proof_height: height, signer },
        ),
    }
}

impl ReceivePacketRelayer {
    /// Relays `packet`: takes the source height that the destination's client
    /// trusts, builds the receive-packet message with a proof at that height,
    /// and submits it to the destination. Any error is returned unchanged;
    /// on an error before submission the destination is not touched.
    pub fn relay_packet(
        &self,
        src: &SourceChain,
        dst: &mut DestinationChain,
        packet: &Packet,
        signer: u64,
    ) -> (r: Result<(), RelayError>)
        requires
            src.wf(),
            old(dst).wf(),
        ensures
            final(dst).wf(),
            r == relay_result(
                *src,
                old(dst).receipts@,
                old(dst).consensus_states@,
                old(dst).latest_trusted,
                *packet,
            ),
            r is Ok ==> final(dst).receipts@ == old(dst).receipts@.push(packet.destination_key()),
            r is Err ==> final(dst).receipts@ == old(dst).receipts@,
            final(dst).consensus_states@ == old(dst).consensus_states@,
            final(dst).latest_trusted == old(dst).latest_trusted,
    {
        let source_height = dst.query_trusted_height();
        let message = match build_receive_packet_message(src, source_height, packet, signer) {
            Ok(m) => m,
            Err(e) => return Err(e),
        };
        assert(message.packet.destination_key() == packet.destination_key());
        assert(message.packet.source_key() == packet.source_key());
        dst.deliver_recv_packet(&message)
    }

    /// Decides the next step of an asynchronous relay from its phase and the
    /// event the driver reports.
    pub fn step(&self, phase: RelayPhase, event: RelayEvent) -> (r: (RelayPhase, RelayAction))
        ensures
            r == relay_step(phase, event),
    {
        match (phase, event) {
            (RelayPhase::Start, RelayEvent::Begin) => (
                RelayPhase::QueryingHeight,
                RelayAction::QueryTrustedHeight,
            ),
            (RelayPhase::QueryingHeight, RelayEvent::HeightQueried(Ok(h))) => (
                RelayPhase::Building,
                RelayAction::BuildMessage(h),
            ),
            (RelayPhase::QueryingHeight, RelayEvent::HeightQueried(Err(e))) => (
                RelayPhase::Finished,
                RelayAction::Done(Err(e)),
            ),
            (RelayPhase::Building, RelayEvent::MessageBuilt(Ok(_))) => (
                RelayPhase::Sending,
                RelayAction::SendMessage,
            ),
            (RelayPhase::Building, RelayEvent::MessageBuilt(Err(e))) => (
                RelayPhase::Finished,
                RelayAction::Done(Err(e)),
            ),
            (RelayPhase::Sending, RelayEvent::MessageSent(r)) => (
                RelayPhase::Finished,
                RelayAction::Done(r),
            ),
            _ => (phase, RelayAction::Ignore),
        }
    }
}

/// Where an asynchronous relay of one packet stands.
#[derive(Clone, Copy, Debug, PartialEq, Eq, Structural)]
pub enum RelayPhase {
    Start,
    QueryingHeight,
    Building,
    Sending,
    Finished,
}

/// What the driver of an asynchronous relay reports back.
#[derive(Clone, Copy, Debug)]
pub enum RelayEvent {
    Begin,
    HeightQueried(Result<Height, RelayError>),
    MessageBuilt(Result<(), RelayError>),
    MessageSent(Result<(), RelayError>),
}

/// What the driver is to do next.
#[derive(Clone, Copy, Debug)]
pub enum RelayAction {
    /// Query the source height that the destination's client trusts.
    QueryTrustedHeight,
    /// Build the receive-packet message with a proof at this height.
    BuildMessage(Height),
    /// Submit the built message to the destination.
    SendMessage,
    /// The relay is over, with this outcome.
    Done(Result<(), RelayError>),
    /// The event does not belong to this phase; nothing to do.
    Ignore,
}

/// The next phase and action of an asynchronous relay: query the trusted
/// height, build the message at it, send it; any error ends the relay and
/// is passed on unchanged, and a message is sent only once it was built.
pub open spec fn relay_step(phase: RelayPhase, event: RelayEvent) -> (RelayPhase, RelayAction) {
    match (phase, event) {
        (RelayPhase::Start, RelayEvent::Begin) => (
            RelayPhase::QueryingHeight,
            RelayAction::QueryTrustedHeight,
        ),
        (RelayPhase::QueryingHeight, RelayEvent::HeightQueried(Ok(h))) => (
            RelayPhase::Building,
            RelayAction::BuildMessage(h),
        ),
        (RelayPhase::QueryingHeight, RelayEvent::HeightQueried(Err(e))) => (
            RelayPhase::Finished,
            RelayAction::Done(Err(e)),
        ),
        (RelayPhase::Building, RelayEvent::MessageBuilt(Ok(_))) => (
            RelayPhase::Sending,
            RelayAction::SendMessage,
        ),
        (RelayPhase::Building, RelayEvent::MessageBuilt(Err(e))) => (
            RelayPhase::Finished,
            RelayAction::Done(Err(e)),
        ),
        (RelayPhase::Sending, RelayEvent::MessageSent(r)) => (
            RelayPhase::Finished,
            RelayAction::Done(r),
        ),
        _ => (phase, RelayAction::Ignore),
    }
}

/// A packet whose commitment exists on the source chain at the height the
/// destination's client trusts, where that height is still served and the
/// client's consensus states are the source's own roots, is received by one
/// relay: the result is `Ok` and the destination then holds its receipt.
pub proof fn lemma_relay_writes_receipt(src: SourceChain, dst: DestinationChain, packet: Packet)
    requires
        src.wf(),
        dst.wf(),
        client_tracks(dst.consensus_states@, src.commitments@),
        exists|i: int|
            0 <= i < dst.consensus_states@.len() && dst.consensus_states@[i].height
                == dst.latest_trusted,
        !src.pruned(dst.latest_trusted),
        height_le(dst.latest_trusted, src.latest),
        crate::chain::committed_at(src.commitments@, packet.source_key(), dst.latest_trusted),
        !dst.receipts@.contains(packet.destination_key()),
    ensures
        relay_result(
            src,
            dst.receipts@,
            dst.consensus_states@,
            dst.latest_trusted,
            packet,
        ) == Ok::<(), RelayError>(()),
        dst.receipts@.push(packet.destination_key()).contains(packet.destination_key()),
{
    let h = dst.latest_trusted;
    let states = dst.consensus_states@;
    let i = choose|i: int| 0 <= i < states.len() && states[i].height == h;
    assert(is_root_at(states[i].root@, src.commitments@, h));
    crate::chain::lemma_proven_packet_verifies(src, packet.source_key(), h, states[i].root@);
    let rs = dst.receipts@.push(packet.destination_key());
    assert(rs[rs.len() - 1] == packet.destination_key());
}

/// Executing the same receive-packet message twice leaves the chain as once:
/// after the first execution the message is no longer accepted, so the
/// second fails with `TxFailure` and writes nothing.
pub proof fn lemma_recv_idempotent(
    receipts: Seq<crate::chain::PacketKey>,
    states: Seq<crate::chain::ConsensusState>,
    msg: RecvPacketMsg,
)
    ensures
        ({
            let after = if recv_accepted(
                receipts,
                states,
                msg.packet,
                msg.proof,
                msg.proof_height,
            ) {
                receipts.push(msg.packet.destination_key())
            } else {
                receipts
            };
            !recv_accepted(after, states, msg.packet, msg.proof, msg.proof_height)
        }),
{
    if recv_accepted(receipts, states, msg.packet, msg.proof, msg.proof_height) {
        let after = receipts.push(msg.packet.destination_key());
        assert(after[after.len() - 1] == msg.packet.destination_key());
    }
}

/// A relay sends at most one message and only after building it: the send
/// action comes only from the building phase on a built message, and once
/// the relay is finished every event is ignored.
pub proof fn lemma_send_once(phase: RelayPhase, event: RelayEvent)
    ensures
        relay_step(phase, event).1 is SendMessage ==> phase == RelayPhase::Building
            && event is MessageBuilt && event->MessageBuilt_0 is Ok,
        relay_step(phase, event).1 is SendMessage ==> relay_step(phase, event).0
            == RelayPhase::Sending,
        phase == RelayPhase::Finished ==> relay_step(phase, event) == (
            RelayPhase::Finished,
            RelayAction::Ignore,
        ),
{
}

} // verus!
