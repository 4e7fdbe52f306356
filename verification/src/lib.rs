pub mod artifact;
pub mod boundary;
pub mod clock;
pub mod crypto;
pub mod enforcement;
pub mod json;
pub mod layout;
pub mod messages;
pub mod payload;
pub mod policy;
pub mod result;
pub mod setup;
pub mod text;
