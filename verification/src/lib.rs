pub mod error;
pub mod types;
pub mod crypto;
pub mod codec;
pub mod store;
pub mod authres;
pub mod upstream;
pub mod flow;
