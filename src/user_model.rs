//! The configuration as it is loaded, and the response handed to clients.

use vstd::prelude::*;

verus! {

/// All configured contexts, in the order they are configured.
#[derive(Debug)]
pub struct ContextsConfig {
    pub contexts: Vec<ContextConfig>,
}

#[derive(Debug)]
pub struct ContextConfig {
    pub name: String,
    pub features: Vec<FeatureConfig>,
    pub segments: Vec<SegmentConfig>,
}

#[derive(Debug)]
pub struct FeatureConfig {
    pub name: String,
    pub description: String,
    pub treatments: Vec<TreatmentConfig>,
}

#[derive(Debug)]
pub struct TreatmentConfig {
    pub probability: i8,
    pub segments: Vec<String>,
    pub value: String,
}

#[derive(Debug)]
pub struct SegmentConfig {
    pub name: String,
    pub user_identifiers: Vec<String>,
}

/// The outcome of a toggle request: `Okay` hands out fresh toggles,
/// `CacheOk` says the client's copy is current, `NotFound` that the context
/// is unknown.
#[derive(Debug, Clone, Copy, PartialEq, Eq, Structural)]
pub enum ResponseStatus {
    Okay,
    NotFound,
    CacheOk,
}

/// The response to a toggle request; hash and toggles are present exactly
/// when the status is `Okay`.
#[derive(Debug)]
pub struct TogglesResponse {
    pub hash: Option<String>,
    pub status: ResponseStatus,
    pub toggles: Option<Vec<(String, String)>>,
}

} // verus!
