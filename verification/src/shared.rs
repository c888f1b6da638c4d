//! The shared lookup pipeline: decode the archive, query the index for
//! bounding-box candidates, and resolve the first candidate whose
//! geometry truly contains the query point.

use vstd::prelude::*;
use vstd::string::StringExecFns;
use crate::archive::zstd_plain;
use crate::index::{archive_benign, index_scan, open_archive, scan_state, Candidate, OpenFailure};
use crate::offset::UtcOffset;
use crate::props::PropertyMap;
use crate::Coordinate;

verus! {

/// The failures a lookup can end in. Each value names a kind; the
/// variant for a missing or unreadable required property carries the
/// property's name.
#[derive(Clone, Debug, PartialEq)]
pub enum SpatialtimeError {
    /// The embedded archive's compressed bytes cannot be decompressed.
    Zst,
    /// The decompressed bytes are not a well-formed indexed feature
    /// collection, or the index cannot be traversed.
    Fgb,
    /// A matched feature's properties cannot be read.
    Geozero,
    /// A matched feature lacks a required property, or the property does
    /// not parse as its expected type; carries the property's name.
    Properties(String),
    /// The query point lies inside no polygon of the dataset.
    NoIntersection,
}

impl SpatialtimeError {
    /// The error's message, one fixed line per kind; a property failure
    /// names the property.
    pub fn message(&self) -> (r: String)
        ensures
            *self matches SpatialtimeError::Zst ==> r@ == "Error decompressing"@,
            *self matches SpatialtimeError::Fgb ==> r@ == "Error reading flatgeobuf"@,
            *self matches SpatialtimeError::Geozero ==> r@ == "Error parsing with geozero"@,
            (*self matches SpatialtimeError::Properties(name)
                ==> r@ == "Error fetching properties: "@ + name@),
            *self matches SpatialtimeError::NoIntersection ==> r@ == "No intersection found!"@,
    {
        match self {
            SpatialtimeError::Zst => "Error decompressing".to_owned(),
            SpatialtimeError::Fgb => "Error reading flatgeobuf".to_owned(),
            SpatialtimeError::Geozero => "Error parsing with geozero".to_owned(),
            SpatialtimeError::Properties(name) => "Error fetching properties: ".to_owned().concat(
                name.as_str(),
            ),
            SpatialtimeError::NoIntersection => "No intersection found!".to_owned(),
        }
    }
}

/// The generic shape of a resolved answer: an optional UTC offset and an
/// optional region identifier, of which each dataset fills its own
/// subset.
#[derive(Clone, Debug, PartialEq)]
pub struct SpatialtimeResponse {
    /// The region's fixed UTC offset, when the dataset carries one.
    pub offset: Option<UtcOffset>,
    /// The region's zone identifier, when the archive provides one.
    pub tzid: Option<String>,
}

/// Whether two errors report the same failure: the same kind, and for a
/// property failure the same property name.
pub open spec fn err_agree(e1: SpatialtimeError, e2: SpatialtimeError) -> bool {
    match (e1, e2) {
        (SpatialtimeError::Zst, SpatialtimeError::Zst) => true,
        (SpatialtimeError::Fgb, SpatialtimeError::Fgb) => true,
        (SpatialtimeError::Geozero, SpatialtimeError::Geozero) => true,
        (SpatialtimeError::Properties(a), SpatialtimeError::Properties(b)) => a@ == b@,
        (SpatialtimeError::NoIntersection, SpatialtimeError::NoIntersection) => true,
        _ => false,
    }
}

/// The first candidate that is polygonal and contains the query point,
/// in the index's order.
pub open spec fn first_hit(cands: Seq<Candidate>) -> Option<Candidate>
    decreases cands.len(),
{
    if cands.len() == 0 {
        None
    } else if cands[0].polygonal && cands[0].inside {
        Some(cands[0])
    } else {
        first_hit(cands.drop_first())
    }
}

/// How a lookup on the archive bytes and a query point must end.
pub ghost enum Outcome {
    /// The archive does not decompress.
    DecodeFail,
    /// The decompressed bytes do not open as an indexed collection, or
    /// enumerating the candidates hits a read error before any match.
    IndexFail,
    /// The matched feature's properties cannot be read.
    PropsFail,
    /// No candidate truly contains the point.
    NoMatch,
    /// The matched feature's property map.
    Found(Map<Seq<char>, Seq<char>>),
}

/// The outcome that the pipeline owes on `archive` and the query point
/// with the given coordinate bits.
pub open spec fn lookup_outcome(archive: Seq<u8>, lon_bits: u64, lat_bits: u64) -> Outcome {
    match zstd_plain(archive) {
        Option::None => Outcome::DecodeFail,
        Option::Some(fgb) => match index_scan(fgb, lon_bits, lat_bits) {
            Option::None => Outcome::IndexFail,
            Option::Some(scan) => match first_hit(scan.cands) {
                Option::Some(cand) => match cand.props {
                    Option::Some(m) => Outcome::Found(m),
                    Option::None => Outcome::PropsFail,
                },
                Option::None => if scan.clean {
                    Outcome::NoMatch
                } else {
                    Outcome::IndexFail
                },
            },
        },
    }
}

/// Whether the result `r` is the one the outcome `o` owes: the matched
/// feature's property map on a match, and the error of the failing stage
/// otherwise.
pub open spec fn resolves(o: Outcome, r: Result<PropertyMap, SpatialtimeError>) -> bool {
    match o {
        Outcome::DecodeFail => r matches Err(SpatialtimeError::Zst),
        Outcome::IndexFail => r matches Err(SpatialtimeError::Fgb),
        Outcome::PropsFail => r matches Err(SpatialtimeError::Geozero),
        Outcome::NoMatch => r matches Err(SpatialtimeError::NoIntersection),
        Outcome::Found(m) => r matches Ok(p) && p@ == m && p.wf(),
    }
}

/// Decode the archive, enumerate the candidates whose bounding box
/// contains the query point, and yield the property map of the first
/// candidate whose multi-polygon truly contains it; candidates of any
/// other shape are skipped silently, and the enumeration stops at the
/// first true match. The archive must be benign for the query (the
/// bundled artifacts are — see `archive_benign`).
pub fn get_intersection(bytes: &[u8], point: &Coordinate) -> (r: Result<PropertyMap, SpatialtimeError>)
    requires
        archive_benign(bytes@, *point),
    ensures
        resolves(lookup_outcome(bytes@, point.lon_bits, point.lat_bits), r),
{
    let mut scan = match open_archive(bytes, point) {
        Ok(scan) => scan,
        Err(OpenFailure::Decode) => return Err(SpatialtimeError::Zst),
        Err(OpenFailure::Collection) => return Err(SpatialtimeError::Fgb),
    };
    let ghost fgb = zstd_plain(bytes@)->0;
    let ghost sc = index_scan(fgb, point.lon_bits, point.lat_bits)->0;
    let ghost all = sc.cands;
    let ghost mut k: int = 0;
    loop
        invariant
            0 <= k <= all.len(),
            zstd_plain(bytes@) == Some(fgb),
            index_scan(fgb, point.lon_bits, point.lat_bits) == Some(sc),
            all == sc.cands,
            scan_state(scan).ahead == all.skip(k),
            scan_state(scan).clean == sc.clean,
            scan_state(scan).benign,
            first_hit(all) == first_hit(all.skip(k)),
        decreases all.len() - k,
    {
        let step = scan.advance();
        match step {
            Err(_) => {
                proof {
                    assert(all.skip(k).len() == 0);
                    assert(first_hit(all) is None);
                    assert(!sc.clean);
                }
                return Err(SpatialtimeError::Fgb);
            },
            Ok(false) => {
                proof {
                    assert(all.skip(k).len() == 0);
                    assert(first_hit(all) is None);
                    assert(sc.clean);
                }
                return Err(SpatialtimeError::NoIntersection);
            },
            Ok(true) => {},
        }
        proof {
            assert(all.skip(k).len() > 0);
            assert(scan_state(scan).current == Some(all.skip(k)[0]));
            assert(all.skip(k)[0] == all[k]);
            assert(all.skip(k).drop_first() =~= all.skip(k + 1));
        }
        if scan.current_polygonal() {
            if scan.current_contains() {
                proof {
                    assert(first_hit(all.skip(k)) == Some(all[k]));
                }
                match scan.current_properties() {
                    Some(pairs) => {
                        let ghost m = all[k].props->0;
                        let props = PropertyMap::from_pairs(pairs, Ghost(m));
                        return Ok(props);
                    },
                    None => {
                        return Err(SpatialtimeError::Geozero);
                    },
                }
            }
        }
        proof {
            assert(!(all[k].polygonal && all[k].inside));
            assert(first_hit(all.skip(k)) == first_hit(all.skip(k + 1)));
            k = k + 1;
        }
    }
}

} // verus!
