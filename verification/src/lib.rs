//! Routing of remote calls over redundant Ethereum node providers.
//!
//! A network is reached through several providers that differ in what they
//! can serve. The capability model says which provider can answer which
//! request, a pool holds the providers of one network, the registry maps
//! network names to pools, and the retry plan decides which provider an
//! operation is tried on next and when it gives up. The operations that are
//! sent this way are listed with the label and the limits that each is
//! retried under.

pub mod capabilities;
pub mod error;
pub mod operations;
pub mod pool;
pub mod registry;
pub mod retry;
