//! Lookup against the OpenStreetMap dataset: every region carries a zone
//! identifier, and none carries an offset.

use vstd::prelude::*;
use crate::index::archive_benign;
use crate::shared::{err_agree, get_intersection, lookup_outcome, Outcome, SpatialtimeError};
use crate::Coordinate;

verus! {

/// The answer of an OpenStreetMap lookup.
#[derive(Clone, Debug, PartialEq)]
pub struct OsmResponse {
    /// The region's zone identifier, such as `America/New_York`.
    pub tzid: String,
}

/// What an OpenStreetMap lookup owes once a region with property map `m`
/// matched: its identifier, or an error naming `tzid` when that property
/// is missing.
pub open spec fn osm_found(m: Map<Seq<char>, Seq<char>>, r: Result<OsmResponse, SpatialtimeError>) -> bool {
    if m.contains_key("tzid"@) {
        r matches Ok(resp) && resp.tzid@ == m["tzid"@]
    } else {
        r matches Err(SpatialtimeError::Properties(p)) && p@ == "tzid"@
    }
}

/// What an OpenStreetMap lookup owes for each outcome of the shared
/// pipeline.
pub open spec fn osm_post(o: Outcome, r: Result<OsmResponse, SpatialtimeError>) -> bool {
    match o {
        Outcome::DecodeFail => r matches Err(SpatialtimeError::Zst),
        Outcome::IndexFail => r matches Err(SpatialtimeError::Fgb),
        Outcome::PropsFail => r matches Err(SpatialtimeError::Geozero),
        Outcome::NoMatch => r matches Err(SpatialtimeError::NoIntersection),
        Outcome::Found(m) => osm_found(m, r),
    }
}

/// Retrieve timezone data from an OpenStreetMap archive for the query
/// point: the identifier of the enclosing region. The archive must be
/// benign for the query (the bundled artifacts are — see
/// `archive_benign`).
pub fn lookup(archive: &[u8], point: &Coordinate) -> (r: Result<OsmResponse, SpatialtimeError>)
    requires
        archive_benign(archive@, *point),
    ensures
        osm_post(lookup_outcome(archive@, point.lon_bits, point.lat_bits), r),
{
    let props = match get_intersection(archive, point) {
        Ok(props) => props,
        Err(e) => return Err(e),
    };
    let tzid = match props.get("tzid") {
        Some(t) => t,
        None => return Err(SpatialtimeError::Properties("tzid".to_owned())),
    };
    Ok(OsmResponse { tzid })
}

/// Whether two OpenStreetMap results carry the same answer.
pub open spec fn osm_agree(r1: Result<OsmResponse, SpatialtimeError>, r2: Result<OsmResponse, SpatialtimeError>) -> bool {
    match (r1, r2) {
        (Result::Ok(a), Result::Ok(b)) => a.tzid@ == b.tzid@,
        (Result::Err(e1), Result::Err(e2)) => err_agree(e1, e2),
        _ => false,
    }
}

/// Repeated OpenStreetMap lookups with the same archive and the same
/// coordinate bits carry the same answer: the contract pins the result,
/// so any two results of such calls agree. In particular a point on a
/// shared edge of two adjacent regions matches the same region on every
/// call, because the index enumerates candidates in the same order each
/// time.
pub proof fn lemma_osm_lookup_deterministic(
    archive: Seq<u8>,
    lon_bits: u64,
    lat_bits: u64,
    r1: Result<OsmResponse, SpatialtimeError>,
    r2: Result<OsmResponse, SpatialtimeError>,
)
    requires
        osm_post(lookup_outcome(archive, lon_bits, lat_bits), r1),
        osm_post(lookup_outcome(archive, lon_bits, lat_bits), r2),
    ensures
        osm_agree(r1, r2),
{
}

} // verus!
