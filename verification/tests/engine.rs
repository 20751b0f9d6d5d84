use aiswatch::aismod::Ais;
use aiswatch::engine::sink_file_name;
use aiswatch::engine::RecvPos;

fn ship(mmsi: u32) -> Ais {
    Ais::Ais1 { mmsi, lon_raw: 600000, lat_raw: 600000, sog_raw: 0, cog_raw: 0 }
}

const DAY: u64 = 86400;

#[test]
fn rotation_on_day_change() {
    // two reports with day-epochs 100 and 101 from the same vessel
    let mut recv = RecvPos::new(0, 0);
    let out1 = recv.distance(ship(7), 100 * DAY, 5000);
    // the stored day-epoch starts at zero, so the first report rotates too
    assert!(out1.summary.is_some());
    assert_eq!(out1.summary.unwrap().len(), 0);
    assert!(out1.accepted);
    assert_eq!(recv.day, 100);
    assert_eq!(recv.mmsi_distance.len(), 1);
    assert_eq!(recv.mmsi_distance[0].rxnum, 1);

    let out2 = recv.distance(ship(7), 101 * DAY + 10, 7000);
    // exactly one rotation: the old record is summarized and cleared,
    // the vessel starts over with reception count 1
    let summary = out2.summary.expect("day change must rotate");
    assert_eq!(summary.len(), 1);
    assert_eq!(summary[0].mmsi, 7);
    assert_eq!(summary[0].distance, 5000);
    assert_eq!(summary[0].rxnum, 1);
    assert_eq!(recv.day, 101);
    assert_eq!(recv.mmsi_distance.len(), 1);
    assert_eq!(recv.mmsi_distance[0].rxnum, 1);
    assert_eq!(recv.mmsi_distance[0].distance, 7000);
}

#[test]
fn no_rotation_within_one_day() {
    let mut recv = RecvPos::new(0, 0);
    recv.distance(ship(7), 100 * DAY, 5000);
    let out = recv.distance(ship(7), 100 * DAY + 1000, 6000);
    assert!(out.summary.is_none());
    assert_eq!(recv.day, 100);
}

#[test]
fn maximum_distance_is_monotonic() {
    // distances [5, 3, 9, 7] within one day: maximum 9, reception count 4
    let mut recv = RecvPos::new(0, 0);
    for (k, d) in [5u64, 3, 9, 7].into_iter().enumerate() {
        recv.distance(ship(42), 100 * DAY + k as u64, d);
    }
    assert_eq!(recv.mmsi_distance.len(), 1);
    assert_eq!(recv.mmsi_distance[0].distance, 9);
    assert_eq!(recv.mmsi_distance[0].rxnum, 4);
    assert_eq!(recv.mmsi_distance[0].ts, 100 * DAY + 2);
}

#[test]
fn vessels_are_kept_apart() {
    let mut recv = RecvPos::new(0, 0);
    recv.distance(ship(1), 100 * DAY, 10);
    recv.distance(ship(2), 100 * DAY + 1, 20);
    recv.distance(ship(1), 100 * DAY + 2, 5);
    assert_eq!(recv.mmsi_distance.len(), 2);
    assert_eq!(recv.mmsi_distance[0].mmsi, 1);
    assert_eq!(recv.mmsi_distance[0].distance, 10);
    assert_eq!(recv.mmsi_distance[0].rxnum, 2);
    assert_eq!(recv.mmsi_distance[1].mmsi, 2);
    assert_eq!(recv.mmsi_distance[1].rxnum, 1);
}

#[test]
fn sentinel_and_out_of_range_coordinates_discarded() {
    let mut recv = RecvPos::new(0, 0);
    let zero_lat = Ais::Ais1 { mmsi: 9, lon_raw: 600000, lat_raw: 0, sog_raw: 0, cog_raw: 0 };
    let zero_lon = Ais::Ais4 { mmsi: 9, lon_raw: 0, lat_raw: 600000 };
    let beyond_lat = Ais::Ais1 {
        mmsi: 9,
        lon_raw: 600000,
        lat_raw: 54000001,
        sog_raw: 0,
        cog_raw: 0,
    };
    let beyond_lon = Ais::Ais4 { mmsi: 9, lon_raw: -108000001, lat_raw: 600000 };
    for ais in [zero_lat, zero_lon, beyond_lat, beyond_lon, Ais::AisUnknown] {
        let out = recv.distance(ais, 100 * DAY, 1000);
        assert!(!out.accepted);
    }
    assert_eq!(recv.mmsi_distance.len(), 0);
    // the rejected reports still moved the day-epoch forward
    assert_eq!(recv.day, 100);
}

#[test]
fn summary_is_top_ten_sorted_descending() {
    let mut recv = RecvPos::new(0, 0);
    for m in 1u32..=12 {
        recv.distance(ship(m), 100 * DAY + m as u64, 100 * m as u64);
    }
    let out = recv.distance(ship(1), 101 * DAY, 1);
    let summary = out.summary.expect("day change must rotate");
    assert_eq!(summary.len(), 10);
    let distances: Vec<u64> = summary.iter().map(|s| s.distance).collect();
    assert_eq!(distances, vec![1200, 1100, 1000, 900, 800, 700, 600, 500, 400, 300]);
}

#[test]
fn sink_file_names_follow_the_clock() {
    assert_eq!(sink_file_name(0), "ais-19700101_000000.txt");
    assert_eq!(sink_file_name(86400), "ais-19700102_000000.txt");
    assert_eq!(sink_file_name(1684246096), "ais-20230516_140816.txt");
}
