//! Distance aggregation and day-boundary rotation.
//!
//! The station keeps one record per vessel: the farthest distance observed
//! since the last rotation, the position and timestamp of that maximum,
//! and a reception count. When a processed message's day-epoch
//! (`timestamp / 86400`) differs from the stored one, the engine hands
//! back a ranked summary of the finished day (at most ten records,
//! farthest first) and starts over with an empty table.
//!
//! Distances are plain integers in meters; the caller computes them from
//! the report's coordinates. Receiver coordinates are held in
//! micro-degrees.

use vstd::prelude::*;

verus! {

use vstd::pervasive::VecAdditionalExecFns;
use vstd::string::StringExecFns;
use crate::aismod::Ais;

broadcast use vstd::seq_lib::group_to_multiset_ensures, vstd::multiset::group_multiset_axioms;

/// Per-vessel aggregate: the farthest observed report of one day.
#[derive(Clone, Copy, PartialEq, Eq, Structural, Debug)]
pub struct ShipData {
    /// Maximum distance from the receiver observed so far, in meters.
    pub distance: u64,
    /// The vessel identifier.
    pub mmsi: u32,
    /// Latitude at the maximum, raw wire units (1/600000 degree).
    pub lat_raw: i32,
    /// Longitude at the maximum, raw wire units (1/600000 degree).
    pub lon_raw: i32,
    /// Timestamp of the report that set the maximum, Unix seconds.
    pub ts: u64,
    /// How many accepted reports this vessel has had today.
    pub rxnum: u32,
    /// True when the record came from a class-A position report.
    pub ais_is_ship: bool,
}

/// Latitude within ±90°, longitude within ±180°, and neither exactly
/// zero (the wire's "unavailable" sentinel), in raw 1/600000-degree units.
pub open spec fn coord_in_range(lat_raw: i32, lon_raw: i32) -> bool {
    &&& -54000000 <= lat_raw <= 54000000
    &&& -108000000 <= lon_raw <= 108000000
    &&& lat_raw != 0
    &&& lon_raw != 0
}

/// The vessel identifier a report names (zero for unknown reports).
pub open spec fn report_mmsi(ais: Ais) -> u32 {
    match ais {
        Ais::Ais1 { mmsi, .. } => mmsi,
        Ais::Ais4 { mmsi, .. } => mmsi,
        Ais::AisUnknown => 0,
    }
}

/// The raw latitude a report carries (zero for unknown reports).
pub open spec fn report_lat(ais: Ais) -> i32 {
    match ais {
        Ais::Ais1 { lat_raw, .. } => lat_raw,
        Ais::Ais4 { lat_raw, .. } => lat_raw,
        Ais::AisUnknown => 0,
    }
}

/// The raw longitude a report carries (zero for unknown reports).
pub open spec fn report_lon(ais: Ais) -> i32 {
    match ais {
        Ais::Ais1 { lon_raw, .. } => lon_raw,
        Ais::Ais4 { lon_raw, .. } => lon_raw,
        Ais::AisUnknown => 0,
    }
}

/// True exactly for class-A position reports.
pub open spec fn report_is_ship(ais: Ais) -> bool {
    ais is Ais1
}

/// A report reaches aggregation exactly when it is a position or
/// base-station report whose coordinates are in range and not the zero
/// sentinel.
pub open spec fn accepted(ais: Ais) -> bool {
    !(ais is AisUnknown) && coord_in_range(report_lat(ais), report_lon(ais))
}

/// A record updated by one further report at distance `d`: the reception
/// count grows by one; distance, position and timestamp are replaced only
/// when `d` is strictly greater than the stored maximum.
pub open spec fn upd_rec(r: ShipData, d: u64, lat_raw: i32, lon_raw: i32, ts: u64) -> ShipData {
    ShipData {
        distance: if d > r.distance { d } else { r.distance },
        lat_raw: if d > r.distance { lat_raw } else { r.lat_raw },
        lon_raw: if d > r.distance { lon_raw } else { r.lon_raw },
        ts: if d > r.distance { ts } else { r.ts },
        rxnum: if r.rxnum == u32::MAX { r.rxnum } else { (r.rxnum + 1) as u32 },
        mmsi: r.mmsi,
        ais_is_ship: r.ais_is_ship,
    }
}

/// The record a vessel's first accepted report of the day creates.
pub open spec fn fresh_rec(mmsi: u32, d: u64, lat_raw: i32, lon_raw: i32, ts: u64, is_ship: bool) -> ShipData {
    ShipData { distance: d, mmsi, lat_raw, lon_raw, ts, rxnum: 1, ais_is_ship: is_ship }
}

/// Some record in `s` belongs to `mmsi`.
pub open spec fn has_mmsi(s: Seq<ShipData>, mmsi: u32) -> bool {
    exists|j: int| 0 <= j < s.len() && (#[trigger] s[j]).mmsi == mmsi
}

/// The index of the record of `mmsi` (unique when the table is
/// well-formed).
pub open spec fn idx_of(s: Seq<ShipData>, mmsi: u32) -> int {
    choose|j: int| 0 <= j < s.len() && (#[trigger] s[j]).mmsi == mmsi
}

/// Distances never increase along the sequence.
pub open spec fn sorted_desc(s: Seq<ShipData>) -> bool {
    forall|i: int, j: int|
        0 <= i <= j < s.len() ==> (#[trigger] s[i]).distance >= (#[trigger] s[j]).distance
}

/// What a rotation summary is: the `min(10, n)` farthest records of the
/// finished day, farthest first; every summarized record is one of the
/// day's records, and none of the records left out lies farther than any
/// summarized one.
pub open spec fn summary_ok(records: Seq<ShipData>, v: Seq<ShipData>) -> bool {
    &&& v.len() == if records.len() < 10 { records.len() } else { 10 }
    &&& sorted_desc(v)
    &&& v.to_multiset().subset_of(records.to_multiset())
    &&& forall|x: ShipData, i: int|
        #[trigger] records.to_multiset().sub(v.to_multiset()).count(x) > 0 && 0 <= i < v.len()
            ==> (#[trigger] v[i]).distance >= x.distance
}

/// What one call hands back to the caller.
pub struct DistanceOutcome {
    /// Present exactly when the call crossed a day boundary: the finished
    /// day's ranked summary.
    pub summary: Option<Vec<ShipData>>,
    /// Whether the report carried usable coordinates and was aggregated.
    pub accepted: bool,
}

/// Picks the up-to-ten farthest records, farthest first.
#[verifier::loop_isolation(false)]
fn top_summary(records: &Vec<ShipData>) -> (v: Vec<ShipData>)
    ensures
        summary_ok(records@, v@),
{
    let mut src: Vec<ShipData> = Vec::new();
    let mut t: usize = 0;
    while t < records.len()
        invariant
            0 <= t <= records@.len(),
            src@ == records@.subrange(0, t as int),
        decreases records@.len() - t,
    {
        src.push(records[t]);
        proof {
            assert(records@.subrange(0, t + 1) =~= records@.subrange(0, t as int).push(
                records@[t as int]));
        }
        t = t + 1;
    }
    proof {
        assert(src@ =~= records@);
    }

    let mut out: Vec<ShipData> = Vec::new();
    while src.len() > 0 && out.len() < 10
        invariant
            out@.to_multiset().add(src@.to_multiset()) == records@.to_multiset(),
            out@.len() + src@.len() == records@.len(),
            out@.len() <= 10,
            sorted_desc(out@),
            forall|i: int, j: int|
                0 <= i < out@.len() && 0 <= j < src@.len() ==> (#[trigger] out@[i]).distance
                    >= (#[trigger] src@[j]).distance,
        decreases src@.len(),
    {
        let mut best: usize = 0;
        let mut j: usize = 1;
        while j < src.len()
            invariant
                0 <= best < src@.len(),
                1 <= j <= src@.len(),
                forall|t2: int| 0 <= t2 < j ==> src@[best as int].distance >= (#[trigger] src@[t2]).distance,
            decreases src@.len() - j,
        {
            if src[j].distance > src[best].distance {
                best = j;
            }
            j = j + 1;
        }
        let ghost src0 = src@;
        let x = src.remove(best);
        out.push(x);
        proof {
            assert(src0.contains(x));
            assert(out@.to_multiset().add(src@.to_multiset()) =~= records@.to_multiset());
            assert forall|jj: int| 0 <= jj < src@.len() implies x.distance
                >= (#[trigger] src@[jj]).distance by {
                if jj < best {
                    assert(src@[jj] == src0[jj]);
                } else {
                    assert(src@[jj] == src0[jj + 1]);
                }
            }
        }
    }
    proof {
        // everything left over is dominated by everything kept
        assert(records@.to_multiset().sub(out@.to_multiset()) =~= src@.to_multiset());
        assert forall|x: ShipData, i: int|
            records@.to_multiset().sub(out@.to_multiset()).count(x) > 0 && 0 <= i < out@.len()
                implies out@[i].distance >= x.distance by {
            assert(src@.to_multiset().count(x) > 0);
            assert(src@.contains(x));
            let jj = choose|jj: int| 0 <= jj < src@.len() && src@[jj] == x;
            assert(out@[i].distance >= src@[jj].distance);
        }
        assert(out@.to_multiset().subset_of(records@.to_multiset()));
    }
    out
}

/// Looks a vessel up in the table.
fn find_by_mmsi(s: &Vec<ShipData>, mmsi: u32) -> (r: Option<usize>)
    ensures
        match r {
            Some(i) => 0 <= i < s@.len() && s@[i as int].mmsi == mmsi,
            None => !has_mmsi(s@, mmsi),
        },
{
    let mut i: usize = 0;
    while i < s.len()
        invariant
            0 <= i <= s@.len(),
            forall|j: int| 0 <= j < i ==> (#[trigger] s@[j]).mmsi != mmsi,
        decreases s@.len() - i,
    {
        if s[i].mmsi == mmsi {
            return Some(i);
        }
        i = i + 1;
    }
    None
}

/// The station: fixed receiver position, the current day-epoch and the
/// per-vessel records of that day.
pub struct RecvPos {
    /// Receiver latitude, micro-degrees.
    pub lat_microdeg: i64,
    /// Receiver longitude, micro-degrees.
    pub lon_microdeg: i64,
    /// Day-epoch of the day being aggregated (`timestamp / 86400`).
    pub day: u64,
    /// One record per vessel heard today.
    pub mmsi_distance: Vec<ShipData>,
}

impl RecvPos {
    /// At most one record per vessel identifier.
    pub open spec fn wf(self) -> bool {
        forall|i: int, j: int|
            0 <= i < j < self.mmsi_distance@.len() ==> (#[trigger] self.mmsi_distance@[i]).mmsi
                != (#[trigger] self.mmsi_distance@[j]).mmsi
    }

    /// A fresh station at the given receiver position. The day-epoch
    /// starts at zero, so the first processed message of a real deployment
    /// rotates immediately.
    pub fn new(lat_microdeg: i64, lon_microdeg: i64) -> (r: RecvPos)
        ensures
            r.wf(),
            r.lat_microdeg == lat_microdeg,
            r.lon_microdeg == lon_microdeg,
            r.day == 0,
            r.mmsi_distance@.len() == 0,
    {
        RecvPos { lat_microdeg, lon_microdeg, day: 0, mmsi_distance: Vec::new() }
    }

    /// Processes one decoded report received at `ts` whose great-circle
    /// distance from the receiver is `dist_m` meters.
    ///
    /// Crossing a day boundary first hands back the finished day's ranked
    /// summary and clears the table. Then, unless the report's coordinates
    /// are out of range or the zero sentinel, the vessel's record is
    /// created (reception count one) or updated: count up by one, maximum
    /// distance, position and timestamp replaced only when `dist_m` is
    /// strictly greater than the stored maximum.
    pub fn distance(&mut self, ais: Ais, ts: u64, dist_m: u64) -> (out: DistanceOutcome)
        requires
            old(self).wf(),
        ensures
            final(self).wf(),
            final(self).lat_microdeg == old(self).lat_microdeg,
            final(self).lon_microdeg == old(self).lon_microdeg,
            final(self).day == ts / 86400,
            (out.summary is Some) == (old(self).day != ts / 86400),
            match out.summary {
                Some(v) => summary_ok(old(self).mmsi_distance@, v@),
                None => true,
            },
            out.accepted == accepted(ais),
            ({
                let base: Seq<ShipData> = if old(self).day != ts / 86400 {
                    Seq::empty()
                } else {
                    old(self).mmsi_distance@
                };
                if !accepted(ais) {
                    final(self).mmsi_distance@ == base
                } else {
                    let mmsi = report_mmsi(ais);
                    if has_mmsi(base, mmsi) {
                        final(self).mmsi_distance@ == base.update(
                            idx_of(base, mmsi),
                            upd_rec(base[idx_of(base, mmsi)], dist_m, report_lat(ais),
                                report_lon(ais), ts),
                        )
                    } else {
                        final(self).mmsi_distance@ == base.push(
                            fresh_rec(mmsi, dist_m, report_lat(ais), report_lon(ais), ts,
                                report_is_ship(ais)),
                        )
                    }
                }
            }),
    {
        let mut summary: Option<Vec<ShipData>> = None;
        if ts / 86400 != self.day {
            let top = top_summary(&self.mmsi_distance);
            summary = Some(top);
            self.mmsi_distance.clear();
            self.day = ts / 86400;
        }
        let ghost base = self.mmsi_distance@;

        let (is_report, mmsi, lat_raw, lon_raw, is_ship): (bool, u32, i32, i32, bool) =
            match ais {
                Ais::Ais1 { mmsi, lon_raw, lat_raw, .. } => (true, mmsi, lat_raw, lon_raw, true),
                Ais::Ais4 { mmsi, lon_raw, lat_raw } => (true, mmsi, lat_raw, lon_raw, false),
                Ais::AisUnknown => (false, 0, 0, 0, false),
            };
        let ok = is_report && -54000000 <= lat_raw && lat_raw <= 54000000 && -108000000
            <= lon_raw && lon_raw <= 108000000 && lat_raw != 0 && lon_raw != 0;
        if !ok {
            return DistanceOutcome { summary, accepted: false };
        }

        match find_by_mmsi(&self.mmsi_distance, mmsi) {
            Some(i) => {
                let r = self.mmsi_distance[i];
                let nr = ShipData {
                    distance: if dist_m > r.distance { dist_m } else { r.distance },
                    lat_raw: if dist_m > r.distance { lat_raw } else { r.lat_raw },
                    lon_raw: if dist_m > r.distance { lon_raw } else { r.lon_raw },
                    ts: if dist_m > r.distance { ts } else { r.ts },
                    rxnum: if r.rxnum == u32::MAX { r.rxnum } else { r.rxnum + 1 },
                    mmsi: r.mmsi,
                    ais_is_ship: r.ais_is_ship,
                };
                proof {
                    assert(has_mmsi(base, mmsi));
                    let j = idx_of(base, mmsi);
                    assert(0 <= j < base.len() && base[j].mmsi == mmsi);
                    assert(j == i as int);
                    assert(nr == upd_rec(base[i as int], dist_m, lat_raw, lon_raw, ts));
                }
                self.mmsi_distance.set(i, nr);
            },
            None => {
                self.mmsi_distance.push(ShipData {
                    distance: dist_m,
                    mmsi,
                    lat_raw,
                    lon_raw,
                    ts,
                    rxnum: 1,
                    ais_is_ship: is_ship,
                });
            },
        }
        DistanceOutcome { summary, accepted: true }
    }
}

/// Law: one further report never lowers a vessel's stored maximum
/// distance, the new maximum is at least the report's own distance, and
/// the reception count grows by exactly one (until it saturates).
pub proof fn lemma_max_distance_monotonic(r: ShipData, d: u64, lat_raw: i32, lon_raw: i32, ts: u64)
    ensures
        upd_rec(r, d, lat_raw, lon_raw, ts).distance >= r.distance,
        upd_rec(r, d, lat_raw, lon_raw, ts).distance >= d,
        upd_rec(r, d, lat_raw, lon_raw, ts).distance == if d > r.distance { d } else { r.distance },
        r.rxnum < u32::MAX ==> upd_rec(r, d, lat_raw, lon_raw, ts).rxnum == r.rxnum + 1,
        upd_rec(r, d, lat_raw, lon_raw, ts).mmsi == r.mmsi,
{
}

pub uninterp spec fn utc_compact_of(ts: u64) -> Seq<char>;

/// Relies on chrono's `DateTime::from_timestamp` and `DateTime::format`:
/// the UTC date and time of a Unix timestamp rendered as
/// `YYYYMMDD_HHMMSS`, a pure function of the timestamp. Timestamps up to
/// the end of year 9999 are within chrono's range.
#[verifier::external_body]
fn utc_compact(ts: u64) -> (r: String)
    requires
        ts <= 253402300799,
    ensures
        r@ == utc_compact_of(ts),
{
    let t = chrono::DateTime::from_timestamp(ts as i64, 0).unwrap();
    t.format("%Y%m%d_%H%M%S").to_string()
}

/// The name of the sink file a rotation at `ts` opens:
/// `ais-<UTC YYYYMMDD_HHMMSS>.txt`.
pub fn sink_file_name(ts: u64) -> (r: String)
    requires
        ts <= 253402300799,
    ensures
        r@ == "ais-"@ + utc_compact_of(ts) + ".txt"@,
{
    let stamp = utc_compact(ts);
    let mut name = String::new();
    name.append("ais-");
    name.append(stamp.as_str());
    name.append(".txt");
    proof {
        assert(name@ =~= "ais-"@ + utc_compact_of(ts) + ".txt"@);
    }
    name
}

} // verus!
