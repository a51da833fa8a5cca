//! BFT finality layer: validator sets with weighted quorum verification,
//! certificates, epoch headers with commitments to the next validator set,
//! the full-node finality state and the light client.
pub mod certificate;
pub mod epoch;
pub mod error;
pub mod light_client;
pub mod state;
pub mod validator;
