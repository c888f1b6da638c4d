//! The index query engine: decompress the archive, open the bytes as an
//! indexed feature collection and enumerate the features whose stored
//! bounding box contains the query point, in the index's native
//! traversal order.

use vstd::prelude::*;
use crate::archive::zstd_plain;
use crate::props::represents_props;
use crate::Coordinate;
use byteorder::ByteOrder;
use flatgeobuf::{FallibleStreamingIterator, FeatureProperties, FgbReader};
use geo::Intersects;
use geozero::ToGeo;

verus! {

/// What the lookup reads of one candidate feature: whether its geometry
/// materializes as a multi-polygon, whether that multi-polygon contains
/// the query point, and its property map (`None` when reading the
/// properties fails).
pub ghost struct Candidate {
    pub polygonal: bool,
    pub inside: bool,
    pub props: Option<Map<Seq<char>, Seq<char>>>,
}

/// A whole bounding-box query: the candidates in the index's order, and
/// whether enumerating them runs to the end without a read error.
pub ghost struct Scan {
    pub cands: Seq<Candidate>,
    pub clean: bool,
}

/// Where an enumeration stands: the candidate the cursor is on, the
/// candidates still ahead of it, whether the rest of the enumeration
/// ends cleanly, and whether the archive it reads is benign.
pub ghost struct ScanView {
    pub current: Option<Candidate>,
    pub ahead: Seq<Candidate>,
    pub clean: bool,
    pub benign: bool,
}

/// The bounding-box query that the collection bytes `fgb` answer for the
/// query point with the given coordinate bit patterns: `None` when the
/// bytes are not a well-formed indexed collection. A function of the
/// bytes and the point alone — the index enumerates the same candidates
/// in the same order on every run.
pub uninterp spec fn index_scan(fgb: Seq<u8>, lon_bits: u64, lat_bits: u64) -> Option<Scan>;

/// Where the enumeration held by `scan` stands.
pub uninterp spec fn scan_state(scan: CandidateScan) -> ScanView;

/// Whether `archive` keeps the reading crates within their bounds for
/// the query at `point`: decompressing, opening the collection,
/// searching the packed index, materializing the selected features'
/// geometries and reading their properties all return normally, with an
/// error where the input is rejected. This is a real restriction:
/// flatgeobuf slices the raw index nodes and property records without
/// validating them, so a crafted archive can make it panic instead.
/// The embedded artifacts of the dataset build pipeline are well-formed
/// collections, of which this holds at every query point.
pub uninterp spec fn archive_benign(archive: Seq<u8>, point: Coordinate) -> bool;

/// A running bounding-box query: the feature iterator over the indexed
/// collection, and the query point it was opened for.
#[verifier::external_body]
pub struct CandidateScan {
    iter: flatgeobuf::FeatureIter<std::io::Cursor<Vec<u8>>, flatgeobuf::NotSeekable>,
    point: geo::Point,
}

/// Which stage of opening an archive rejected its input.
pub(crate) enum OpenFailure {
    /// The compressed bytes do not decompress.
    Decode,
    /// The decompressed bytes are not a well-formed indexed collection.
    Collection,
}

/// Relies on zstd::stream::copy_decode, flatgeobuf's FgbReader::open and
/// FgbReader::select_bbox_seq: decompress the archive, open the result
/// as an indexed feature collection, and select the features whose
/// stored bounding box intersects the degenerate box at the query point.
/// On an in-memory buffer each step's outcome is a function of the bytes
/// and the point alone. The index search slices raw node bytes
/// unchecked, so the archive is required to be benign for the query.
/// The query point is rebuilt from its bit patterns with byteorder's
/// LittleEndian::read_f64, which reads the floating-point number with
/// those bits.
#[verifier::external_body]
pub(crate) fn open_archive(archive: &[u8], point: &Coordinate) -> (r: Result<
    CandidateScan,
    OpenFailure,
>)
    requires
        archive_benign(archive@, *point),
    ensures
        r matches Err(OpenFailure::Decode) <==> zstd_plain(archive@) is None,
        zstd_plain(archive@) is Some ==> ((r matches Err(OpenFailure::Collection)) <==> index_scan(
            zstd_plain(archive@)->0,
            point.lon_bits,
            point.lat_bits,
        ) is None),
        r matches Ok(scan) ==> scan_state(scan) == (ScanView {
            current: None,
            ahead: index_scan(zstd_plain(archive@)->0, point.lon_bits, point.lat_bits)->0.cands,
            clean: index_scan(zstd_plain(archive@)->0, point.lon_bits, point.lat_bits)->0.clean,
            benign: archive_benign(archive@, *point),
        }),
{
    let mut plain: Vec<u8> = Vec::new();
    if zstd::stream::copy_decode(archive, &mut plain).is_err() {
        return Err(OpenFailure::Decode);
    }
    let x = byteorder::LittleEndian::read_f64(&point.lon_bits.to_le_bytes());
    let y = byteorder::LittleEndian::read_f64(&point.lat_bits.to_le_bytes());
    let opened = match FgbReader::open(std::io::Cursor::new(plain)) {
        Ok(reader) => reader.select_bbox_seq(x, y, x, y),
        Err(e) => Err(e),
    };
    match opened {
        Ok(iter) => Ok(CandidateScan { iter, point: geo::Point::new(x, y) }),
        Err(_) => Err(OpenFailure::Collection),
    }
}

impl CandidateScan {
    /// Relies on FallibleStreamingIterator::next for flatgeobuf's
    /// FeatureIter: it moves the cursor to the next selected feature,
    /// reports the end of the selection, or fails on a read error; each
    /// feature's table structure is verified before it is exposed.
    #[verifier::external_body]
    pub(crate) fn advance(&mut self) -> (r: Result<bool, ()>)
        ensures
            scan_state(*old(self)).ahead.len() > 0 ==> r is Ok && r->Ok_0 == true
                && scan_state(*final(self)) == (ScanView {
                    current: Some(scan_state(*old(self)).ahead[0]),
                    ahead: scan_state(*old(self)).ahead.drop_first(),
                    clean: scan_state(*old(self)).clean,
                    benign: scan_state(*old(self)).benign,
                }),
            scan_state(*old(self)).ahead.len() == 0 && scan_state(*old(self)).clean
                ==> r is Ok && r->Ok_0 == false
                && scan_state(*final(self)) == (ScanView {
                    current: None,
                    ahead: Seq::<Candidate>::empty(),
                    clean: true,
                    benign: scan_state(*old(self)).benign,
                }),
            scan_state(*old(self)).ahead.len() == 0 && !scan_state(*old(self)).clean ==> r is Err,
    {
        match self.iter.next() {
            Ok(Some(_)) => Ok(true),
            Ok(None) => Ok(false),
            Err(_) => Err(()),
        }
    }

    /// Relies on FallibleStreamingIterator::get and geozero's ToGeo: the
    /// cursor's feature materializes as a multi-polygon geometry exactly
    /// when its stored geometry is one; any other shape, and any
    /// geometry the reader rejects, counts as not polygonal. The reader
    /// trusts the feature's stored ring offsets, which is why the
    /// archive must be benign.
    #[verifier::external_body]
    pub(crate) fn current_polygonal(&self) -> (r: bool)
        requires
            scan_state(*self).current is Some,
            scan_state(*self).benign,
        ensures
            r == scan_state(*self).current->0.polygonal,
    {
        match self.iter.get() {
            Some(feature) => matches!(feature.to_geo(), Ok(geo::Geometry::MultiPolygon(_))),
            None => false,
        }
    }

    /// Relies on FallibleStreamingIterator::get, geozero's ToGeo and
    /// geo's Intersects: whether the cursor's multi-polygon contains the
    /// query point, boundary included — a planar point-in-polygon test,
    /// a function of the geometry and the point alone.
    #[verifier::external_body]
    pub(crate) fn current_contains(&self) -> (r: bool)
        requires
            scan_state(*self).current is Some,
            scan_state(*self).current->0.polygonal,
            scan_state(*self).benign,
        ensures
            r == scan_state(*self).current->0.inside,
    {
        if let Some(feature) = self.iter.get() {
            if let Ok(geo::Geometry::MultiPolygon(polygons)) = feature.to_geo() {
                return polygons.intersects(&self.point);
            }
        }
        false
    }

    /// Relies on FallibleStreamingIterator::get and geozero's
    /// FeatureProperties::properties: the cursor's feature yields its
    /// property map — one string value per property name — or fails when
    /// the underlying format cannot be parsed. The reader slices the raw
    /// property records unchecked, which is why the archive must be
    /// benign.
    #[verifier::external_body]
    pub(crate) fn current_properties(&self) -> (r: Option<Vec<(String, String)>>)
        requires
            scan_state(*self).current is Some,
            scan_state(*self).benign,
        ensures
            r is Some <==> scan_state(*self).current->0.props is Some,
            r is Some ==> represents_props(r->0@, scan_state(*self).current->0.props->0),
    {
        match self.iter.get() {
            Some(feature) => match feature.properties() {
                Ok(map) => Some(map.into_iter().collect::<Vec<(String, String)>>()),
                Err(_) => None,
            },
            None => None,
        }
    }
}

} // verus!
