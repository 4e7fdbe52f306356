pub mod admission;
pub mod audit;
pub mod capability;
pub mod deployment;
pub mod model;
pub mod nonce;
pub mod recovery;
pub mod state;
