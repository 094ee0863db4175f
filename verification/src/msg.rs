//! The messages a caller can submit and the answers a query returns.

use vstd::prelude::*;

verus! {

/// The instantiation message: fixed registry metadata, no update path.
pub struct InstantiateMsg {
    pub name: String,
    pub symbol: String,
}

/// The three mutating commands.
pub enum ExecuteMsg {
    /// Create or replace the record under `token_id`.
    Mint { token_id: String, owner: String, token_uri: String, price: u128 },
    /// Purchase the token: the attached funds must cover its price.
    Buy { token_id: String },
    /// Set a new asking price; only the owner may.
    UpdatePrice { token_id: String, new_price: u128 },
}

/// The two read-only queries.
pub enum QueryMsg {
    /// One record, or `NotFound`.
    GetNft { token_id: String },
    /// Every record, in ascending token-identifier order.
    GetAllNfts {},
}

/// One record as a query reports it.
#[derive(Debug, Clone, PartialEq, Eq)]
pub struct NftInfoResponse {
    pub token_id: String,
    pub owner: String,
    pub token_uri: String,
    pub price: u128,
}

/// Every record, in ascending token-identifier order.
#[derive(Debug, Clone, PartialEq, Eq)]
pub struct AllNftsResponse {
    pub nfts: Vec<NftInfoResponse>,
}

/// What a query returns: one shape per query message.
#[derive(Debug, Clone, PartialEq, Eq)]
pub enum QueryAnswer {
    Nft(NftInfoResponse),
    AllNfts(AllNftsResponse),
}

} // verus!
