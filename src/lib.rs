//! Reputation-weighted leader election and the batching pipeline that turns
//! pulled transactions into certified batches.
pub mod leader_reputation;
pub mod mixing;
pub mod quorum_store_wrapper;
pub mod selection;
