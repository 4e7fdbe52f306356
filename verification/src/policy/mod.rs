pub mod authority;
pub mod cycles;
pub mod files;
pub mod graph;
pub mod hops;
pub mod load;
pub mod model;
pub mod reach;
pub mod resolve;
pub mod scope;
pub mod session;
pub mod snapshot;
pub mod state;
pub mod validate;
