//! The records that the crawler reads and writes.
use vstd::prelude::*;

verus! {

/// A catalog component (a CPU or a GPU) with its benchmark score. The entry
/// with id 0 is the "unknown" sentinel.
#[derive(Debug, Clone, PartialEq, Eq)]
pub struct Cpu {
    pub id: i64,
    pub name: String,
    pub url: String,
    pub score: i64,
}

/// A stored laptop joined with the two components it refers to.
#[derive(Debug, Clone, PartialEq, Eq)]
pub struct LaptopView {
    pub id: i64,
    pub image: String,
    pub description: String,
    pub composition: String,
    pub url: String,
    pub price: i64,
    pub cpu_id: i64,
    pub gpu_id: i64,
    pub cpu_score: i64,
    pub gpu_score: i64,
    pub cpu_name: String,
    pub gpu_name: String,
}

/// One stored laptop row. An empty composition means "not yet enriched".
#[derive(Debug, Clone, PartialEq, Eq)]
pub struct CatalogRecord {
    pub id: i64,
    pub image: String,
    pub description: String,
    pub composition: String,
    pub url: String,
    pub price: i64,
    pub cpu_id: i64,
    pub gpu_id: i64,
}

/// What a listing page gives of a laptop whose composition has to be read
/// from its own page.
#[derive(Debug, Clone, PartialEq, Eq)]
pub struct LaptopWithNoComposition {
    pub id: i64,
    pub image: String,
    pub description: String,
    pub price: i64,
}

/// One listing as extracted from a page, before its devices are resolved.
#[derive(Debug, Clone, PartialEq, Eq)]
pub struct RawListing {
    pub id: i64,
    pub image: String,
    pub description: String,
    pub price: i64,
    pub url: String,
    pub composition: String,
}

/// What can go wrong when reading what a page or an answer shows.
#[derive(Debug, Clone, PartialEq, Eq, Structural)]
pub enum Error {
    /// A link does not decode as a query string.
    UrlDecode,
    /// A number does not read as one.
    ParseInt,
    /// An expected field is absent or of another kind.
    MissingField,
}

impl CatalogRecord {
    pub open spec fn is_enriched(&self) -> bool {
        self.composition@.len() > 0
    }
}

impl LaptopView {
    pub open spec fn is_enriched(&self) -> bool {
        self.composition@.len() > 0
    }
}

} // verus!
