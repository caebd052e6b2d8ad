//! Record and training-data formats.
pub mod wire;
pub mod common;

pub mod csa;
pub mod csa_header;
pub mod hcpe;
pub mod jkf;
pub mod kif;
pub mod kif_header;
pub mod kif_notation;
pub mod pack;
pub mod sbinpack;
pub mod traversal;
pub mod usi;
pub mod sazpack;
pub mod sazpack_selfplay;
