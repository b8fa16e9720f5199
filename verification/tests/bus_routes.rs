use roundhouse::bus::{
    assemble_trip_details, build_route_index, delay_between, details_available_exec,
    index_ready_exec, next_stop_keys, next_stops_known_exec, route_ids_of_vehicles, sort_routes,
    timeliness_color_for, timeliness_for, trip_ids_of_updates, trip_ids_of_vehicles,
    updates_for_route, TripDetail, TripSummary,
};
use roundhouse::clock::{local_timestamp_today, parse_clock_time, utc_timestamp};
use roundhouse::transit::{
    RouteModel, StopTimeEvent, StopTimeModel, StopTimeUpdate, TripDescriptor, TripModel,
    TripUpdate, VehicleRef,
};

fn s(x: &str) -> Option<String> {
    Some(x.to_string())
}

fn route(id: i64, short: Option<&str>) -> RouteModel {
    RouteModel {
        route_id: id,
        route_short_name: short.map(|x| x.to_string()),
        route_long_name: None,
        route_desc: None,
        route_type: Some(3),
        route_url: None,
        route_text_color: None,
    }
}

fn trip(id: i64) -> TripModel {
    TripModel {
        trip_id: id,
        direction_id: Some(0),
        block_id: None,
        route_id: None,
        service_id: None,
        shape_id: Some(7),
        trip_headsign: s("DOWNTOWN"),
    }
}

fn stop_update(seq: Option<u32>, stop: Option<&str>, departure: Option<i64>) -> StopTimeUpdate {
    StopTimeUpdate {
        stop_sequence: seq,
        stop_id: stop.map(|x| x.to_string()),
        arrival: None,
        departure: departure.map(|t| StopTimeEvent { delay: None, time: Some(t), uncertainty: None }),
    }
}

fn update(trip_id: Option<&str>, route_id: Option<&str>, stops: Vec<StopTimeUpdate>) -> TripUpdate {
    TripUpdate {
        trip: TripDescriptor {
            trip_id: trip_id.map(|x| x.to_string()),
            route_id: route_id.map(|x| x.to_string()),
            direction_id: None,
            start_time: s("08:00:00"),
            start_date: None,
        },
        stop_time_update: stops,
        timestamp: None,
        delay: None,
    }
}

fn vehicle(trip_id: Option<&str>, route_id: Option<&str>) -> VehicleRef {
    VehicleRef { trip_id: trip_id.map(|x| x.to_string()), route_id: route_id.map(|x| x.to_string()) }
}

#[test]
fn timeliness_reads_whole_minutes() {
    assert_eq!(timeliness_for(0), "on time");
    assert_eq!(timeliness_for(125), "2min late");
    assert_eq!(timeliness_for(59), "0min late");
    assert_eq!(timeliness_for(-61), "1min early");
    assert_eq!(timeliness_for(-30), "0min early");
    assert_eq!(timeliness_for(i64::MIN), format!("{}min early", (i64::MIN / 60).abs()));
}

#[test]
fn timeliness_colors() {
    assert_eq!(timeliness_color_for(0), "green");
    assert_eq!(timeliness_color_for(1), "red");
    assert_eq!(timeliness_color_for(-1), "pink");
}

#[test]
fn delay_is_seen_minus_scheduled() {
    assert_eq!(delay_between(1000, Some(1300)), 300);
    assert_eq!(delay_between(1000, Some(900)), -100);
    assert_eq!(delay_between(1000, None), 0);
}

#[test]
fn trip_summary_counts_stops_and_start_time() {
    let with = TripSummary {
        trip_update: Some(update(s("1").as_deref(), Some("5"), vec![stop_update(Some(1), Some("1"), None)])),
        trip: trip(1),
    };
    assert_eq!(with.stops_left(), 1);
    assert_eq!(with.start_time(), "08:00:00");
    let without = TripSummary { trip_update: None, trip: trip(1) };
    assert_eq!(without.stops_left(), 0);
    assert_eq!(without.start_time(), "N/A");
}

#[test]
fn updates_for_route_treat_unreadable_routes_as_zero() {
    let ups = vec![
        update(Some("1"), Some("5"), vec![]),
        update(Some("2"), Some("x"), vec![]),
        update(Some("3"), None, vec![]),
        update(Some("4"), Some("5"), vec![]),
    ];
    let five = updates_for_route(ups.clone(), 5);
    let ids: Vec<Option<String>> = five.iter().map(|u| u.trip.trip_id.clone()).collect();
    assert_eq!(ids, vec![s("1"), s("4")]);
    let zero = updates_for_route(ups, 0);
    assert_eq!(zero.len(), 2);
}

#[test]
fn trip_ids_skip_unreadable() {
    let ups = vec![update(Some("10"), None, vec![]), update(Some("x"), None, vec![]), update(None, None, vec![])];
    assert_eq!(trip_ids_of_updates(&ups), vec![10]);
    let vs = vec![vehicle(Some("3"), Some("9")), vehicle(None, Some("x")), vehicle(Some("4"), None)];
    assert_eq!(trip_ids_of_vehicles(&vs), vec![3, 4]);
    assert_eq!(route_ids_of_vehicles(&vs), vec![9]);
}

#[test]
fn next_stop_keys_pair_trip_and_sequence() {
    let ups = vec![
        update(Some("10"), None, vec![stop_update(Some(4), None, None), stop_update(Some(5), None, None)]),
        update(Some("11"), None, vec![stop_update(Some(2), None, None)]),
    ];
    assert!(next_stops_known_exec(&ups));
    assert_eq!(next_stop_keys(&ups), vec![(10, 4), (11, 2)]);
    let bad = vec![update(Some("10"), None, vec![stop_update(None, None, None)])];
    assert!(!next_stops_known_exec(&bad));
    let no_stops = vec![update(Some("10"), None, vec![])];
    assert!(!next_stops_known_exec(&no_stops));
}

#[test]
fn assemble_pairs_updates_with_schedule_rows() {
    let ups = vec![update(Some("10"), Some("5"), vec![]), update(Some("11"), Some("5"), vec![])];
    let trips = vec![trip(11), trip(10)];
    let stops = vec![
        StopTimeModel { trip_id: 10, stop_sequence: 3, arrival_time: None, departure_time: s("10:00:00"), stop_id: Some(1) },
        StopTimeModel { trip_id: 11, stop_sequence: 8, arrival_time: None, departure_time: s("11:00:00"), stop_id: Some(2) },
    ];
    assert!(details_available_exec(&ups, &trips, &stops));
    let details = assemble_trip_details(ups, &trips, &stops);
    assert_eq!(details.len(), 2);
    assert_eq!(details[0].trip.trip_id, 10);
    assert_eq!(details[0].next_stop_time.stop_sequence, 3);
    assert_eq!(details[1].trip.trip_id, 11);
    assert_eq!(details[1].next_stop_time.stop_sequence, 8);
    assert_eq!(details[1].stops_left(), 0);
    assert!(!details_available_exec(&vec![update(Some("12"), None, vec![])], &trips, &stops));
}

#[test]
fn routes_sort_by_short_name_number_stably() {
    let routes = vec![route(1, Some("10")), route(2, Some("x")), route(3, Some("2")), route(4, None), route(5, Some("-1"))];
    let sorted = sort_routes(routes);
    let ids: Vec<i64> = sorted.iter().map(|r| r.route_id).collect();
    assert_eq!(ids, vec![5, 2, 4, 3, 1]);
}

#[test]
fn route_index_lists_each_vehicle_under_its_route() {
    let routes = vec![route(7, Some("20")), route(5, Some("3"))];
    let vehicles = vec![
        vehicle(Some("100"), Some("7")),
        vehicle(Some("101"), Some("5")),
        vehicle(Some("102"), Some("7")),
        vehicle(None, Some("9")),
    ];
    let ups = vec![
        update(Some("101"), Some("5"), vec![stop_update(Some(1), None, None)]),
        update(Some("100"), Some("7"), vec![]),
        update(Some("100"), Some("8"), vec![stop_update(Some(1), None, None)]),
    ];
    let trips = vec![trip(100), trip(101), trip(102)];
    assert!(index_ready_exec(&routes, &vehicles, &trips));
    let index = build_route_index(routes, &vehicles, &ups, &trips);
    assert_eq!(index.len(), 2);
    assert_eq!(index[0].route.route_id, 5);
    assert_eq!(index[0].trips.len(), 1);
    assert_eq!(index[0].trips[0].trip.trip_id, 101);
    assert_eq!(index[0].trips[0].stops_left(), 1);
    assert_eq!(index[1].route.route_id, 7);
    assert_eq!(index[1].trips.len(), 2);
    assert_eq!(index[1].trips[0].trip.trip_id, 100);
    assert!(index[1].trips[0].trip_update.is_some());
    assert_eq!(index[1].trips[0].stops_left(), 0);
    assert_eq!(index[1].trips[1].trip.trip_id, 102);
    assert!(index[1].trips[1].trip_update.is_none());
}

#[test]
fn route_index_gives_vehicles_to_the_first_route_with_their_id() {
    let routes = vec![route(7, Some("1")), route(7, Some("2"))];
    let vehicles = vec![vehicle(Some("100"), Some("7"))];
    let trips = vec![trip(100)];
    let index = build_route_index(routes, &vehicles, &vec![], &trips);
    assert_eq!(index[0].trips.len(), 1);
    assert_eq!(index[1].trips.len(), 0);
}

#[test]
fn route_index_needs_trips_for_listed_vehicles() {
    let routes = vec![route(7, Some("1"))];
    assert!(!index_ready_exec(&routes, &vec![vehicle(None, Some("7"))], &vec![]));
    assert!(!index_ready_exec(&routes, &vec![vehicle(Some("100"), Some("7"))], &vec![]));
    assert!(index_ready_exec(&routes, &vec![vehicle(None, Some("8"))], &vec![]));
}

#[test]
fn delay_needs_a_readable_schedule_time() {
    let detail = TripDetail {
        trip: trip(1),
        next_stop_time: StopTimeModel { trip_id: 1, stop_sequence: 1, arrival_time: None, departure_time: s("25:10:00"), stop_id: None },
        trip_update: update(Some("1"), Some("5"), vec![stop_update(Some(1), None, Some(1_700_000_000))]),
    };
    assert_eq!(detail.scheduled_seconds(), None);
    assert_eq!(detail.shown_timeliness(), None);
    assert_eq!(detail.shown_timeliness_color(), None);
}

#[test]
fn missing_schedule_time_shows_no_timeliness() {
    let detail = TripDetail {
        trip: trip(1),
        next_stop_time: StopTimeModel { trip_id: 1, stop_sequence: 1, arrival_time: None, departure_time: None, stop_id: None },
        trip_update: update(Some("1"), Some("5"), vec![stop_update(Some(1), None, None)]),
    };
    assert_eq!(detail.scheduled_seconds(), None);
    assert_eq!(detail.shown_timeliness(), None);
    assert_eq!(detail.shown_timeliness_color(), None);
}

#[test]
fn schedule_times_read_as_seconds_after_midnight() {
    assert_eq!(parse_clock_time("14:05:00"), Some(50_700));
    assert_eq!(parse_clock_time("00:00:00"), Some(0));
    assert_eq!(parse_clock_time("23:59:59"), Some(86_399));
    assert_eq!(parse_clock_time("24:10:00"), None);
    assert_eq!(parse_clock_time("noon"), None);
}

#[test]
fn local_timestamp_shows_the_scheduled_time_of_day() {
    let x = local_timestamp_today(43_200).expect("midday exists every day");
    let late = local_timestamp_today(43_260).expect("midday exists every day");
    assert_eq!(late - x, 60);
}

#[test]
fn utc_timestamps_cover_exactly_chronos_range() {
    assert_eq!(utc_timestamp(1_700_000_000), Some(1_700_000_000));
    assert_eq!(utc_timestamp(-8_334_601_228_800), Some(-8_334_601_228_800));
    assert_eq!(utc_timestamp(-8_334_601_228_801), None);
    assert_eq!(utc_timestamp(8_210_266_876_799), Some(8_210_266_876_799));
    assert_eq!(utc_timestamp(8_210_266_876_800), None);
}

#[test]
fn delay_without_prediction_is_zero() {
    let detail = TripDetail {
        trip: trip(1),
        next_stop_time: StopTimeModel { trip_id: 1, stop_sequence: 1, arrival_time: None, departure_time: s("12:00:00"), stop_id: None },
        trip_update: update(Some("1"), Some("5"), vec![stop_update(Some(1), None, None)]),
    };
    // Midday exists in every time zone on every day, so the schedule places.
    assert_eq!(detail.delay(), Some(0));
    assert_eq!(detail.timeliness(), Some("on time".to_string()));
    assert_eq!(detail.timeliness_color(), Some("green"));
    assert_eq!(detail.scheduled_seconds(), Some(43_200));
    assert_eq!(detail.shown_timeliness(), Some("on time".to_string()));
    assert_eq!(detail.shown_timeliness_color(), Some("green"));
}

#[test]
fn delay_is_prediction_minus_local_schedule() {
    let detail = TripDetail {
        trip: trip(1),
        next_stop_time: StopTimeModel { trip_id: 1, stop_sequence: 1, arrival_time: None, departure_time: s("12:00:00"), stop_id: None },
        trip_update: update(Some("1"), Some("5"), vec![stop_update(Some(1), None, Some(0))]),
    };
    let scheduled = local_timestamp_today(43_200).expect("midday exists every day");
    let predicted = scheduled + 125;
    let detail = TripDetail {
        trip_update: update(Some("1"), Some("5"), vec![stop_update(Some(1), None, Some(predicted))]),
        ..detail
    };
    assert_eq!(detail.delay(), Some(125));
    assert_eq!(detail.timeliness(), Some("2min late".to_string()));
    assert_eq!(detail.timeliness_color(), Some("red"));
}

#[test]
fn seen_departure_checks_the_timestamp_range() {
    let mut detail = TripDetail {
        trip: trip(1),
        next_stop_time: StopTimeModel { trip_id: 1, stop_sequence: 1, arrival_time: None, departure_time: s("12:00:00"), stop_id: None },
        trip_update: update(Some("1"), Some("5"), vec![stop_update(Some(1), None, Some(1_700_000_000))]),
    };
    assert_eq!(detail.seen_departure(), Some(1_700_000_000));
    detail.trip_update = update(Some("1"), Some("5"), vec![stop_update(Some(1), None, Some(i64::MAX))]);
    assert_eq!(detail.seen_departure(), None);
    assert_eq!(detail.delay(), Some(0));
}
