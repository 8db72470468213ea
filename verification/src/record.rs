//! The records that flow through the resolver: one match as the provider
//! returned it, and one output row.

use vstd::prelude::*;

verus! {

/// One candidate location returned by the provider for a query.
///
/// Latitude and longitude stay the decimal strings that the provider sent.
/// The importance score is carried as the bit pattern of its 64-bit IEEE 754
/// value, so it passes through unchanged.
#[derive(Clone, Debug, PartialEq, Eq)]
pub struct GeoData {
    pub place_id: u64,
    pub licence: String,
    pub osm_type: Option<String>,
    pub osm_id: Option<u64>,
    pub lat: String,
    pub lon: String,
    pub display_name: String,
    pub class: String,
    pub kind: String,
    pub importance_bits: u64,
}

/// One output row: a match together with the address that was looked up.
#[derive(Clone, Debug, PartialEq, Eq)]
pub struct AddrGeoData {
    /// The original address used for lookup
    pub address: String,
    pub place_id: u64,
    pub licence: String,
    pub osm_type: Option<String>,
    pub osm_id: Option<u64>,
    pub lat: String,
    pub lon: String,
    pub display_name: String,
    pub class: String,
    pub kind: String,
    pub importance_bits: u64,
}

/// What a `GeoData` holds, as mathematical values.
pub ghost struct GeoMatch {
    pub place_id: u64,
    pub licence: Seq<char>,
    pub osm_type: Option<Seq<char>>,
    pub osm_id: Option<u64>,
    pub lat: Seq<char>,
    pub lon: Seq<char>,
    pub display_name: Seq<char>,
    pub class: Seq<char>,
    pub kind: Seq<char>,
    pub importance_bits: u64,
}

/// What an `AddrGeoData` holds: a match and the address it is tagged with.
pub ghost struct OutputRecord {
    pub address: Seq<char>,
    pub geo: GeoMatch,
}

/// The characters of an optional string.
pub open spec fn optional_text(text: Option<String>) -> Option<Seq<char>> {
    match text {
        Some(t) => Some(t@),
        None => None,
    }
}

impl View for GeoData {
    type V = GeoMatch;

    open spec fn view(&self) -> GeoMatch {
        GeoMatch {
            place_id: self.place_id,
            licence: self.licence@,
            osm_type: optional_text(self.osm_type),
            osm_id: self.osm_id,
            lat: self.lat@,
            lon: self.lon@,
            display_name: self.display_name@,
            class: self.class@,
            kind: self.kind@,
            importance_bits: self.importance_bits,
        }
    }
}

impl View for AddrGeoData {
    type V = OutputRecord;

    open spec fn view(&self) -> OutputRecord {
        OutputRecord {
            address: self.address@,
            geo: GeoMatch {
                place_id: self.place_id,
                licence: self.licence@,
                osm_type: optional_text(self.osm_type),
                osm_id: self.osm_id,
                lat: self.lat@,
                lon: self.lon@,
                display_name: self.display_name@,
                class: self.class@,
                kind: self.kind@,
                importance_bits: self.importance_bits,
            },
        }
    }
}

/// The matches of a list, each as mathematical values.
pub open spec fn matches_view(matches: Seq<GeoData>) -> Seq<GeoMatch> {
    matches.map_values(|m: GeoData| m@)
}

/// The rows of a list, each as mathematical values.
pub open spec fn rows_view(rows: Seq<AddrGeoData>) -> Seq<OutputRecord> {
    rows.map_values(|r: AddrGeoData| r@)
}

/// The rows that a list of matches gives for an address: one per match, in the
/// order of the matches, each tagged with that address.
pub open spec fn tagged(address: Seq<char>, matches: Seq<GeoMatch>) -> Seq<OutputRecord> {
    matches.map_values(|m: GeoMatch| OutputRecord { address, geo: m })
}

impl AddrGeoData {
    /// Pairs one match with the address that was looked up.
    pub fn tag(address: &String, geo: GeoData) -> (row: AddrGeoData)
        ensures
            row@ == (OutputRecord { address: address@, geo: geo@ }),
    {
        AddrGeoData {
            address: address.clone(),
            place_id: geo.place_id,
            licence: geo.licence,
            osm_type: geo.osm_type,
            osm_id: geo.osm_id,
            lat: geo.lat,
            lon: geo.lon,
            display_name: geo.display_name,
            class: geo.class,
            kind: geo.kind,
            importance_bits: geo.importance_bits,
        }
    }

    /// Shapes the output for one address: a row for each match, in order, every
    /// one tagged with `address`.
    pub fn tag_all(address: &String, matches: Vec<GeoData>) -> (rows: Vec<AddrGeoData>)
        ensures
            rows_view(rows@) == tagged(address@, matches_view(matches@)),
    {
        let ghost all = matches@;
        let mut rows: Vec<AddrGeoData> = Vec::new();
        for geo in it: matches
            invariant
                it.seq() == all,
                rows@.len() == it.index(),
                forall|i: int|
                    0 <= i < rows@.len() ==> (#[trigger] rows@[i])@ == (OutputRecord {
                        address: address@,
                        geo: all[i]@,
                    }),
        {
            rows.push(AddrGeoData::tag(address, geo));
        }
        assert(rows_view(rows@) =~= tagged(address@, matches_view(all)));
        rows
    }
}

} // verus!
