//! A non-fungible-token registry: identities and their textual form, the
//! ownership and approval state machine, its transaction log with durable
//! paging, and the certification tree for authenticated reads.

pub mod bytes;
pub mod certification;
pub mod codec;
pub mod history;
pub mod identity;
pub mod idset;
pub mod laws;
pub mod model;
pub mod registry;
pub mod stable;
pub mod state;
pub mod types;

pub use crate::certification::CertTree;
pub use crate::codec::MintIndex;
pub use crate::history::{HistoryEntry, StableBytes, HISTORY_ENTRY_BYTES};
pub use crate::identity::{Account, IdentityError, OwnerId, Subaccount};
pub use crate::stable::{StableMemoryError, StableReader, StableWriter};
pub use crate::registry::Registry;
pub use crate::state::State;
