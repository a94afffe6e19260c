use vstd::prelude::*;

use crate::error::RelayError;

verus! {

/// The resolved configuration of one chain that the relay core reads.
#[derive(Debug)]
pub struct ChainConfig {
    pub id: String,
    pub psql_conn: Option<String>,
    pub trust_period: u64,
}

impl ChainConfig {
    /// The connection string of the auxiliary store; `ConfigError` where the
    /// configuration has none, before any chain is contacted.
    pub fn psql_connection(&self) -> (r: Result<&String, RelayError>)
        ensures
            r is Ok == self.psql_conn is Some,
            r is Ok ==> r->Ok_0@ == self.psql_conn->Some_0@,
            r is Err ==> r->Err_0 == RelayError::ConfigError,
    {
        match &self.psql_conn {
            Some(c) => Ok(c),
            None => Err(RelayError::ConfigError),
        }
    }
}

} // verus!
