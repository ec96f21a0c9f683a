pub mod codec;
pub mod curve;
pub mod dkg;
pub mod pbft;
pub mod pbft_control;
pub mod scalar;
pub mod table;
pub mod threshold_bls;
pub mod wal;
