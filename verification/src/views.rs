//! The values the HTML pages are rendered from.
use std::sync::Arc;
use vstd::prelude::*;

use crate::bus::{Index, Show};
use crate::marta::{Station, TrainArrival};

verus! {

/// How many variations of the not-found page there are.
pub open spec fn not_found_variations() -> usize {
    5
}

/// A number below `n`, drawn at random.
///
/// Calls `fastrand::usize(..n)`, which documents a random `usize` in the range and
/// panics on an empty range (excluded by `n > 0`). The contract says only that the
/// result is below `n`.
#[verifier::external_body]
fn random_below(n: usize) -> (r: usize)
    requires
        n > 0,
    ensures
        r < n,
{
    fastrand::usize(..n)
}

/// The not-found page, in one of its variations.
pub struct Http404Template {
    variation: usize,
}

impl Default for Http404Template {
    /// A not-found page in a variation picked at random.
    fn default() -> (r: Http404Template)
        ensures
            r.spec_variation() < not_found_variations(),
    {
        Http404Template { variation: random_below(5) }
    }
}

impl Http404Template {
    /// Which variation of the page is shown.
    pub closed spec fn spec_variation(&self) -> usize {
        self.variation
    }

    /// Which variation of the page is shown.
    pub fn variation(&self) -> (r: usize)
        ensures
            r == self.spec_variation(),
    {
        self.variation
    }
}

/// The home page: every station.
pub struct HomeResponse {
    pub stations: Vec<Station>,
}

/// The arrivals board.
pub struct TrainsIndexResponse {
    pub stations: Vec<Station>,
    pub starred_stations: Vec<Station>,
    pub nearby_stations: Vec<Station>,
    pub nearby_enabled: bool,
}

/// One station's page.
pub struct TrainsStationResponse {
    pub station_with_arrivals: Station,
    pub is_starred: bool,
    pub train_id: String,
}

/// One train's page.
pub struct TrainsShowResponse {
    pub train_id: String,
    pub arrivals: Vec<Arc<TrainArrival>>,
}

/// The bus route listing.
pub struct BusRoutesIndexResponse {
    pub routes: Vec<Index>,
}

/// One bus route's page.
pub struct BusRoutesShowResponse {
    pub route: Show,
}

} // verus!
