use vstd::prelude::*;

use crate::chain::{
    key_present, ChainStatus, Commitment, PacketKey, PacketProof, SourceChain, StatePath, StateProof,
};
use crate::config::ChainConfig;
use crate::error::RelayError;
use crate::height::Height;
use crate::light_client::{
    block_at, can_step, chain_below, chain_from, full_chain, header_precheck, reachable, ClientState, Header, LightClient, PsqlLightClient,
};

verus! {

/// A chain backend that mirrors its chain into an auxiliary store. It holds
/// the chain it decorates and the store's connection string. Its status and
/// proof queries pass on the chain's own answers and errors unchanged, and
/// headers come from the light client handed to `build_header`.
#[derive(Debug)]
pub struct PsqlChain {
    pub chain: SourceChain,
    pub config: ChainConfig,
}

impl PsqlChain {
    pub open spec fn wf(&self) -> bool {
        self.chain.wf() && self.config.psql_conn is Some
    }

    /// Sets the backend up over `chain`. Fails with `ConfigError`, before
    /// anything else, where the configuration names no store connection.
    pub fn bootstrap(config: ChainConfig, chain: SourceChain) -> (r: Result<PsqlChain, RelayError>)
        requires
            chain.wf(),
        ensures
            r is Ok == config.psql_conn is Some,
            r is Ok ==> r->Ok_0.wf() && r->Ok_0.chain == chain && r->Ok_0.config == config,
            r is Err ==> r->Err_0 == RelayError::ConfigError,
    {
        if config.psql_conn.is_none() {
            return Err(RelayError::ConfigError);
        }
        Ok(PsqlChain { chain, config })
    }

    /// The chain's identifier, from its configuration.
    pub fn id(&self) -> (r: &String)
        ensures
            r@ == self.config.id@,
    {
        &self.config.id
    }

    /// The configuration the backend was set up with.
    pub fn config(&self) -> (r: &ChainConfig)
        ensures
            *r == self.config,
    {
        &self.config
    }

    /// The connection string of the auxiliary store.
    pub fn conn(&self) -> (r: &String)
        requires
            self.wf(),
        ensures
            r@ == self.config.psql_conn->Some_0@,
    {
        match self.config.psql_connection() {
            Ok(c) => c,
            Err(_) => &self.config.id,
        }
    }

    /// A light client for this chain that holds no block yet.
    pub fn init_light_client(&self) -> (r: PsqlLightClient)
        ensures
            r.wf(),
            r.0.blocks@.len() == 0,
    {
        PsqlLightClient(LightClient::new())
    }

    /// The decorated chain's current height and its time.
    pub fn query_application_status(&self) -> (r: ChainStatus)
        ensures
            r.height == self.chain.latest,
            r.timestamp == self.chain.timestamp,
    {
        ChainStatus { height: self.chain.latest, timestamp: self.chain.timestamp }
    }

    /// Forwards to the decorated chain's `proven_packet`.
    pub fn proven_packet(&self, key: PacketKey, h: Height) -> (r: Result<PacketProof, RelayError>)
        requires
            self.wf(),
        ensures
            r == self.chain.proven_packet_spec(key, h),
    {
        self.chain.proven_packet(key, h)
    }

    /// Forwards to the decorated chain's proof of a hosted client's state.
    pub fn proven_client_state(&self, client: u64, h: Height) -> (r: Result<StateProof, RelayError>)
        requires
            self.wf(),
        ensures
            r == self.chain.proven_state_spec(StatePath::ClientState { client }, h),
    {
        self.chain.proven_state(StatePath::ClientState { client }, h)
    }

    /// Forwards to the decorated chain's proof of a connection end.
    pub fn proven_connection(&self, connection: u64, h: Height) -> (r: Result<StateProof, RelayError>)
        requires
            self.wf(),
        ensures
            r == self.chain.proven_state_spec(StatePath::Connection { connection }, h),
    {
        self.chain.proven_state(StatePath::Connection { connection }, h)
    }

    /// Forwards to the decorated chain's proof of a channel end.
    pub fn proven_channel(&self, port: u64, channel: u64, h: Height) -> (r: Result<
        StateProof,
        RelayError,
    >)
        requires
            self.wf(),
        ensures
            r == self.chain.proven_state_spec(StatePath::Channel { port, channel }, h),
    {
        self.chain.proven_state(StatePath::Channel { port, channel }, h)
    }

    /// Forwards to the decorated chain's proof of the consensus state that a
    /// hosted client holds at `consensus_height`, taken at height `h`.
    pub fn proven_client_consensus(&self, client: u64, consensus_height: Height, h: Height) -> (r:
        Result<StateProof, RelayError>)
        requires
            self.wf(),
        ensures
            r == self.chain.proven_state_spec(
                StatePath::ClientConsensus { client, height: consensus_height },
                h,
            ),
    {
        self.chain.proven_state(StatePath::ClientConsensus { client, height: consensus_height }, h)
    }

    /// Forwards to the decorated chain's query of unreceived acknowledgements.
    pub fn query_unreceived_acknowledgements(&self, channel: u64, sequences: &Vec<u64>) -> (r: Vec<
        u64,
    >)
        requires
            self.wf(),
        ensures
            r@ == sequences@.filter(
                |q: u64| key_present(self.chain.commitments@, PacketKey { channel, sequence: q }),
            ),
    {
        self.chain.query_unreceived_acknowledgements(channel, sequences)
    }

    /// Forwards to the decorated chain's packet commitment query.
    pub fn query_packet_commitments(&self, channel: u64) -> (r: (Vec<u64>, Height))
        requires
            self.wf(),
        ensures
            r.1 == self.chain.latest,
            r.0@ == self.chain.commitments@.filter(|c: Commitment| c.key.channel == channel).map_values(
                |c: Commitment| c.key.sequence,
            ),
    {
        self.chain.query_packet_commitments(channel)
    }

    /// The header for `target` and the headers that connect it to `trusted`,
    /// from the light client's verified chain.
    pub fn build_header(
        &self,
        trusted: Height,
        target: Height,
        client_state: &ClientState,
        light_client: &PsqlLightClient,
        now: u64,
    ) -> (r: Result<(Header, Vec<Header>), RelayError>)
        requires
            light_client.wf(),
        ensures
            ({
                let s = light_client.0.blocks@;
                let pre = header_precheck(s, trusted, target, client_state.trust_period, now);
                &&& pre is Some ==> r is Err && r->Err_0 == pre->Some_0
                &&& pre is None && r is Err ==> r->Err_0 == RelayError::InsufficientTrust
                &&& pre is None ==> (r is Ok == reachable(s, block_at(s, trusted), target))
                &&& r is Ok ==> chain_from(s, block_at(s, trusted), target, full_chain(r->Ok_0.1@, r->Ok_0.0))
                &&& r is Ok ==> forall|c: Seq<Header>| #[trigger]
                    chain_from(s, block_at(s, trusted), target, c) ==> r->Ok_0.1@.len() + 1 <= c.len()
                &&& r is Ok ==> forall|c: Seq<Header>| #[trigger]
                    chain_from(s, block_at(s, trusted), target, c) && c.len() == r->Ok_0.1@.len() + 1
                        ==> c == full_chain(r->Ok_0.1@, r->Ok_0.0) || chain_below(
                        c,
                        full_chain(r->Ok_0.1@, r->Ok_0.0),
                    )
                &&& pre is None && can_step(block_at(s, trusted), block_at(s, target)) ==> r is Ok
                    && r->Ok_0.1@.len() == 0 && r->Ok_0.0.trusted_height == trusted
            }),
    {
        match light_client.header_and_minimal_set(trusted, target, client_state, now) {
            Ok(v) => Ok((v.target, v.supporting)),
            Err(e) => Err(e),
        }
    }
}

} // verus!
