//! Lookup against the Natural Earth dataset: every region carries a
//! numeric UTC offset, and may or may not carry a zone identifier.

use vstd::prelude::*;
use vstd::string::StringExecFns;
use crate::index::archive_benign;
use crate::offset::{parse_utc_offset, spec_parse_offset, UtcOffset};
use crate::shared::{err_agree, get_intersection, lookup_outcome, Outcome, SpatialtimeError};
use crate::Coordinate;

verus! {

/// The answer of a Natural Earth lookup.
#[derive(Clone, Debug, PartialEq)]
pub struct NedResponse {
    /// The region's fixed offset from UTC. Always present in this
    /// dataset.
    pub offset: UtcOffset,
    /// The region's zone identifier, such as `America/New_York`. This
    /// dataset may lack it.
    pub tzid: Option<String>,
}

/// What a Natural Earth lookup owes once a region with property map `m`
/// matched: its parsed offset and its identifier if any, an error naming
/// `offset` when that property is missing, and an error naming the
/// conversion and the offending value when it does not parse.
pub open spec fn ned_found(m: Map<Seq<char>, Seq<char>>, r: Result<NedResponse, SpatialtimeError>) -> bool {
    if !m.contains_key("offset"@) {
        r matches Err(SpatialtimeError::Properties(p)) && p@ == "offset"@
    } else {
        match spec_parse_offset(m["offset"@]) {
            Option::Some(v) => r matches Ok(resp)
                && resp.offset.centihours == v
                && (m.contains_key("tzid"@) ==> (resp.tzid matches Some(t) && t@ == m["tzid"@]))
                && (!m.contains_key("tzid"@) ==> resp.tzid is None),
            Option::None => r matches Err(SpatialtimeError::Properties(p))
                && p@ == "offset conversion: "@ + m["offset"@],
        }
    }
}

/// What a Natural Earth lookup owes for each outcome of the shared
/// pipeline.
pub open spec fn ned_post(o: Outcome, r: Result<NedResponse, SpatialtimeError>) -> bool {
    match o {
        Outcome::DecodeFail => r matches Err(SpatialtimeError::Zst),
        Outcome::IndexFail => r matches Err(SpatialtimeError::Fgb),
        Outcome::PropsFail => r matches Err(SpatialtimeError::Geozero),
        Outcome::NoMatch => r matches Err(SpatialtimeError::NoIntersection),
        Outcome::Found(m) => ned_found(m, r),
    }
}

/// Retrieve timezone data from a Natural Earth archive for the query
/// point: the region's offset, and its identifier when it carries one.
/// The archive must be benign for the query (the bundled artifacts are —
/// see `archive_benign`).
pub fn lookup(archive: &[u8], point: &Coordinate) -> (r: Result<NedResponse, SpatialtimeError>)
    requires
        archive_benign(archive@, *point),
    ensures
        ned_post(lookup_outcome(archive@, point.lon_bits, point.lat_bits), r),
{
    let props = match get_intersection(archive, point) {
        Ok(props) => props,
        Err(e) => return Err(e),
    };
    let tzid = props.get("tzid");
    let offset_prop = match props.get("offset") {
        Some(v) => v,
        None => return Err(SpatialtimeError::Properties("offset".to_owned())),
    };
    let offset = match parse_utc_offset(offset_prop.as_str()) {
        Some(o) => o,
        None => return Err(SpatialtimeError::Properties(
            "offset conversion: ".to_owned().concat(offset_prop.as_str()),
        )),
    };
    Ok(NedResponse { offset, tzid })
}

/// Whether two Natural Earth results carry the same answer.
pub open spec fn ned_agree(r1: Result<NedResponse, SpatialtimeError>, r2: Result<NedResponse, SpatialtimeError>) -> bool {
    match (r1, r2) {
        (Result::Ok(a), Result::Ok(b)) => a.offset == b.offset
            && (a.tzid is Some <==> b.tzid is Some)
            && (a.tzid is Some ==> a.tzid->0@ == b.tzid->0@),
        (Result::Err(e1), Result::Err(e2)) => err_agree(e1, e2),
        _ => false,
    }
}

/// Repeated Natural Earth lookups with the same archive and the same
/// coordinate bits carry the same answer: the contract pins the result,
/// so any two results of such calls agree.
pub proof fn lemma_ned_lookup_deterministic(
    archive: Seq<u8>,
    lon_bits: u64,
    lat_bits: u64,
    r1: Result<NedResponse, SpatialtimeError>,
    r2: Result<NedResponse, SpatialtimeError>,
)
    requires
        ned_post(lookup_outcome(archive, lon_bits, lat_bits), r1),
        ned_post(lookup_outcome(archive, lon_bits, lat_bits), r2),
    ensures
        ned_agree(r1, r2),
{
}

/// A coordinate that resolves to a region carrying an offset but no
/// identifier yields a populated offset and no identifier — never an
/// error.
pub proof fn lemma_offset_without_identifier(
    archive: Seq<u8>,
    lon_bits: u64,
    lat_bits: u64,
    m: Map<Seq<char>, Seq<char>>,
    r: Result<NedResponse, SpatialtimeError>,
)
    requires
        lookup_outcome(archive, lon_bits, lat_bits) == Outcome::Found(m),
        m.contains_key("offset"@),
        spec_parse_offset(m["offset"@]) is Some,
        !m.contains_key("tzid"@),
        ned_post(lookup_outcome(archive, lon_bits, lat_bits), r),
    ensures
        r matches Ok(resp) && resp.tzid is None
            && resp.offset.centihours == spec_parse_offset(m["offset"@])->0,
{
}

} // verus!
