//! Shared plain data types of the bridge core: identifiers, the settlement
//! chain partition key, withdrawal applications, and the two error
//! taxonomies.

use vstd::prelude::*;

verus! {

/// Identifier of an account on the embedding chain.
pub type AccountId = u64;

/// Identifier of a registered asset.
pub type AssetId = u64;

/// An amount of an asset.
pub type Balance = u64;

/// A point in time, as the embedding chain reports it.
pub type Timestamp = u64;

/// A foreign-chain block-header or transaction hash, reduced to the opaque
/// identity the tracker actually reads: lookups and equality.
pub type HashId = u64;

/// The settlement chain a token belongs to. `ChainX` is the embedding
/// chain itself; its native asset is never withdrawable through the bridge.
#[derive(Clone, Copy, PartialEq, Eq, Structural, Debug)]
pub enum Chain {
    ChainX,
    Bitcoin,
    Ethereum,
}

/// Number of settlement-chain partitions.
pub const CHAIN_COUNT: usize = 3;

impl Chain {
    /// Partition index of this chain.
    pub open spec fn spec_index_of(self) -> int {
        match self {
            Chain::ChainX => 0,
            Chain::Bitcoin => 1,
            Chain::Ethereum => 2,
        }
    }

    pub fn index_of(self) -> (i: usize)
        ensures
            i == self.spec_index_of(),
            i < CHAIN_COUNT,
    {
        match self {
            Chain::ChainX => 0,
            Chain::Bitcoin => 1,
            Chain::Ethereum => 2,
        }
    }
}

/// Errors of the header-chain tracker.
#[derive(Clone, Copy, PartialEq, Eq, Structural, Debug)]
pub enum ChainErr {
    /// Unknown parent
    UnknownParent,
    /// Not Found
    NotFound,
    /// Ancient fork
    AncientFork,
}

impl ChainErr {
    pub fn info(&self) -> (r: &'static str)
        ensures
            *self == ChainErr::UnknownParent ==> r@ == "Block parent is unknown"@,
            *self == ChainErr::NotFound ==> r@ == "Not to find orphaned side chain in header collection; qed"@,
            *self == ChainErr::AncientFork ==> r@ == "Fork is too long to proceed"@,
    {
        match *self {
            ChainErr::UnknownParent => "Block parent is unknown",
            ChainErr::NotFound => "Not to find orphaned side chain in header collection; qed",
            ChainErr::AncientFork => "Fork is too long to proceed",
        }
    }
}

/// Errors of the withdrawal ledger.
#[derive(Clone, Copy, PartialEq, Eq, Structural, Debug)]
pub enum LedgerErr {
    /// The token is the embedding chain's own asset, or is not registered.
    TokenNotWithdrawable,
    /// The destination address was rejected by the address validator.
    AddressInvalid,
    /// The amount is below the asset's configured minimum.
    BelowMinimum,
    /// The applicant's free balance does not cover the amount.
    InsufficientFreeBalance,
    /// No pending application carries the given serial number.
    ApplicationNotFound,
}

/// A pending withdrawal application. Immutable once created; removed in
/// full when it is finished.
pub struct Application {
    pub id: u32,
    pub applicant: AccountId,
    pub token: AssetId,
    pub balance: Balance,
    pub addr: Vec<u8>,
    pub ext: Vec<u8>,
    pub time: Timestamp,
}

/// Mathematical image of an `Application`.
pub struct AppView {
    pub id: u32,
    pub applicant: AccountId,
    pub token: AssetId,
    pub balance: Balance,
    pub addr: Seq<u8>,
    pub ext: Seq<u8>,
    pub time: Timestamp,
}

impl View for Application {
    type V = AppView;

    open spec fn view(&self) -> AppView {
        AppView {
            id: self.id,
            applicant: self.applicant,
            token: self.token,
            balance: self.balance,
            addr: self.addr@,
            ext: self.ext@,
            time: self.time,
        }
    }
}

impl Clone for Application {
    fn clone(&self) -> (r: Self)
        ensures
            r@ == self@,
    {
        Application {
            id: self.id,
            applicant: self.applicant,
            token: self.token,
            balance: self.balance,
            addr: self.addr.clone(),
            ext: self.ext.clone(),
            time: self.time,
        }
    }
}

/// The minimum a withdrawal of an asset must reach, next to the fee the
/// bridge keeps for relaying it.
#[derive(Clone, Copy, PartialEq, Eq, Structural, Debug)]
pub struct WithdrawalLimit<Balance> {
    pub minimal_withdrawal: Balance,
    pub fee: Balance,
}

} // verus!
