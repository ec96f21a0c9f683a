//! Practical Byzantine fault tolerant consensus: messages, certificates and
//! the replica state machine.
pub mod certificate;
pub mod message;
pub mod quorum;
pub mod state;

pub use self::certificate::{CommitCertificate, NewViewCertificate, PreparedCertificate};
pub use self::message::{PbftMessage, Phase, ViewChangePayload};
pub use self::state::PbftState;
