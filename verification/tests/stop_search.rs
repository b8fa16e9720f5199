use roundhouse::stops::{runs_listed_trip, scans_readable, stop_name_pattern, trip_ids_named, updates_at_stops};
use roundhouse::transit::{StopTimeUpdate, TripDescriptor, TripUpdate};

fn stu(stop: Option<&str>) -> StopTimeUpdate {
    StopTimeUpdate { stop_sequence: Some(1), stop_id: stop.map(|x| x.to_string()), arrival: None, departure: None }
}

fn update(trip: Option<&str>, stops: Vec<StopTimeUpdate>) -> TripUpdate {
    TripUpdate {
        trip: TripDescriptor {
            trip_id: trip.map(|x| x.to_string()),
            route_id: None,
            direction_id: None,
            start_time: None,
            start_date: None,
        },
        stop_time_update: stops,
        timestamp: None,
        delay: None,
    }
}

#[test]
fn pattern_wraps_and_replaces_spaces() {
    assert_eq!(stop_name_pattern("peachtree st"), "%peachtree%st%");
    assert_eq!(stop_name_pattern(""), "%%");
}

#[test]
fn updates_at_stops_keeps_trips_passing_found_stops() {
    let ups = vec![
        update(Some("a"), vec![stu(Some("5")), stu(Some("7"))]),
        update(Some("b"), vec![stu(Some("6"))]),
        update(Some("c"), vec![stu(None)]),
        update(None, vec![stu(Some("7")), stu(Some("bad"))]),
    ];
    let ids = vec![7, 0];
    assert!(scans_readable(&ups, &ids));
    let kept = updates_at_stops(ups, &ids);
    let trips: Vec<Option<String>> = kept.iter().map(|u| u.trip.trip_id.clone()).collect();
    assert_eq!(trips, vec![Some("a".to_string()), Some("c".to_string()), None]);
    let names = trip_ids_named(&kept);
    assert_eq!(names, vec!["a".to_string(), "c".to_string()]);
}

#[test]
fn unreadable_stop_before_a_match_is_detected() {
    let ups = vec![update(Some("a"), vec![stu(Some("bad")), stu(Some("7"))])];
    assert!(!scans_readable(&ups, &vec![7]));
}

#[test]
fn vehicles_shown_only_for_listed_trips() {
    let ids = vec!["a".to_string(), "c".to_string()];
    assert!(runs_listed_trip(&Some("a".to_string()), &ids));
    assert!(!runs_listed_trip(&Some("b".to_string()), &ids));
    assert!(!runs_listed_trip(&None, &ids));
}
