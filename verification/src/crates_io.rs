//! The registry's view of a crate: the metadata fields the resolver reads.

use vstd::prelude::*;

verus! {

/// Basic crate metadata, as returned by the registry lookup.
#[derive(Debug)]
pub struct Metadata {
    /// Crate identifier.
    pub id: String,
    /// Human-readable crate name.
    pub name: String,
    /// Human-readable crate description.
    pub description: String,
    /// When the crate was created.
    pub created_at: String,
    /// When the crate was last updated.
    pub updated_at: String,
    /// Keywords associated with the crate.
    pub keywords: Vec<String>,
    /// Crate categories.
    pub categories: Vec<String>,
    /// Crate homepage, if any.
    pub homepage_url: Option<String>,
    /// Documentation URL.
    pub docs_url: Option<String>,
    /// Repository URL.
    pub repo_url: Option<String>,
}

/// Information about a single crate held by the registry.
#[derive(Debug)]
pub struct Crate {
    pub metadata: Metadata,
}

} // verus!
