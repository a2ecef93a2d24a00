//! Federations as the observer knows them: an identifier and an immutable
//! config, registered once and never removed.

use vstd::prelude::*;
use crate::decoder::ModuleTable;

verus! {

/// The config of a federation.
#[derive(Clone, Debug, PartialEq, Eq)]
pub struct FederationConfig {
    /// The config's consensus encoding.
    pub raw: Vec<u8>,
    /// The instance-to-kind table that the config carries.
    pub modules: ModuleTable,
}

/// A registered federation.
#[derive(Clone, Debug, PartialEq, Eq)]
pub struct Federation {
    /// The federation's identifier, as encoded for consensus.
    pub federation_id: Vec<u8>,
    pub config: FederationConfig,
}

impl Federation {
    /// The identifier as a byte string.
    pub open spec fn id(&self) -> Seq<u8> {
        self.federation_id@
    }
}

/// What became of a federation offered for registration.
#[derive(Clone, Copy, Debug, PartialEq, Eq, Structural)]
pub enum Registration {
    /// The federation is new: it was registered, and a synchronizer is to be
    /// started for it.
    Registered,
    /// A federation with this identifier is registered already; nothing
    /// changed.
    AlreadyRegistered,
}

/// Why a request was not authorised.
#[derive(Clone, Copy, Debug, PartialEq, Eq, Structural)]
pub enum AuthError {
    /// The bearer token is not the admin token.
    InvalidToken,
}

} // verus!
