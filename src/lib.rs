//! Relay core of an inter-chain packet relayer: heights, packets, chain
//! models with proofs, the receive-packet relay engine and the light-client
//! rules that keep a chain of trusted headers contiguous.
pub mod chain;
pub mod config;
pub mod destination;
pub mod error;
pub mod height;
pub mod light_client;
pub mod packet;
pub mod psql;
pub mod relay;
