use std::sync::Arc;

use roundhouse::marta::{station_names, ui_name_overrides, Station, TrainArrival};
use roundhouse::uri::encode_uri_component;

fn arrival(station: &str, line: &str, direction: &str, train: &str, wait: i64) -> TrainArrival {
    TrainArrival {
        destination: "Doraville".to_string(),
        direction: direction.to_string(),
        event_time: "12:00:00 PM".to_string(),
        line: line.to_string(),
        next_arr: "12:05:00 PM".to_string(),
        station: station.to_string(),
        train_id: train.to_string(),
        is_first_stop: false,
        has_started_trip: true,
        is_realtime: true,
        waiting_seconds: wait,
        waiting_time: "5 min".to_string(),
    }
}

#[test]
fn encode_keeps_unreserved_characters() {
    assert_eq!(encode_uri_component("AZaz09-_.~"), "AZaz09-_.~");
}

#[test]
fn encode_escapes_spaces_and_slashes() {
    assert_eq!(encode_uri_component("five points"), "five%20points");
    assert_eq!(encode_uri_component("gwcc/cnn center"), "gwcc%2Fcnn%20center");
}

#[test]
fn encode_escapes_each_utf8_byte() {
    assert_eq!(encode_uri_component("é"), "%C3%A9");
    assert_eq!(encode_uri_component(""), "");
}

#[test]
fn ui_name_overrides_capitalises_gwcc_only() {
    assert_eq!(ui_name_overrides("gwcc/cnn center"), "GWCC/CNN Center");
    assert_eq!(ui_name_overrides("five points"), "five points");
}

#[test]
fn mutate_strips_station_and_lowercases() {
    let mut a = arrival("FIVE POINTS STATION", "RED", "N", "101", 120);
    a.mutate();
    assert_eq!(a.station, "five points");
    assert_eq!(a.train_id, "101");
}

#[test]
fn mutate_renames_the_old_dome() {
    let mut a = arrival("OMNI DOME STATION", "BLUE", "E", "202", 60);
    a.mutate();
    assert_eq!(a.station, "gwcc/cnn center");
}

#[test]
fn mutate_only_removes_a_trailing_station() {
    let mut a = arrival("AIRPORT TERMINAL", "RED", "N", "1", 0);
    a.mutate();
    assert_eq!(a.station, "airport terminal");
    let mut b = arrival("SHORT", "RED", "N", "1", 0);
    b.mutate();
    assert_eq!(b.station, "short");
    let mut c = arrival(" STATION", "RED", "N", "1", 0);
    c.mutate();
    assert_eq!(c.station, "");
    let mut d = arrival("STATION SQUARE", "RED", "N", "1", 0);
    d.mutate();
    assert_eq!(d.station, "station square");
}

#[test]
fn paused_at_start_needs_realtime_first_stop_not_started() {
    let mut a = arrival("AIRPORT STATION", "RED", "N", "1", 0);
    assert!(!a.paused_at_start());
    a.is_first_stop = true;
    a.has_started_trip = false;
    assert!(a.paused_at_start());
    a.is_realtime = false;
    assert!(!a.paused_at_start());
}

#[test]
fn is_arriving_reads_waiting_time() {
    let mut a = arrival("AIRPORT STATION", "RED", "N", "1", 0);
    assert!(!a.is_arriving());
    a.waiting_time = "Arriving".to_string();
    assert!(a.is_arriving());
}

#[test]
fn wait_min_pads_minutes() {
    let mut a = arrival("AIRPORT STATION", "RED", "N", "1", 125);
    assert_eq!(a.wait_min(), ":02");
    a.waiting_seconds = 5;
    assert_eq!(a.wait_min(), ":00");
    a.waiting_seconds = 600;
    assert_eq!(a.wait_min(), ":10");
    a.waiting_seconds = 6000;
    assert_eq!(a.wait_min(), ":100");
}

#[test]
fn wait_min_rounds_negative_waits_toward_zero() {
    let mut a = arrival("AIRPORT STATION", "RED", "N", "1", -90);
    assert_eq!(a.wait_min(), ":-1");
    a.waiting_seconds = -30;
    assert_eq!(a.wait_min(), ":00");
    a.waiting_seconds = i64::MIN;
    assert_eq!(a.wait_min(), format!(":{:02}", i64::MIN / 60));
}

#[test]
fn train_color_by_line() {
    assert_eq!(arrival("X STATION", "RED", "N", "1", 0).train_color(), "bg-red-400 border-red-500");
    assert_eq!(
        arrival("X STATION", "GOLD", "N", "1", 0).train_color(),
        "bg-yellow-400 border-yellow-500"
    );
    assert_eq!(
        arrival("X STATION", "GREEN", "N", "1", 0).train_color(),
        "bg-green-400 border-green-500"
    );
    assert_eq!(
        arrival("X STATION", "BLUE", "N", "1", 0).train_color(),
        "bg-blue-400 border-blue-500"
    );
    assert_eq!(arrival("X STATION", "PINK", "N", "1", 0).train_color(), "violet-700");
}

#[test]
fn is_destination_compares_upper_cased_destination_with_station_start() {
    let a = arrival("DORAVILLE STATION", "GOLD", "N", "1", 0);
    assert!(a.is_destination());
    let mut b = arrival("DORAVILLE STATION", "GOLD", "N", "1", 0);
    b.mutate();
    assert!(!b.is_destination());
    let c = arrival("AIRPORT STATION", "GOLD", "S", "1", 0);
    assert!(!c.is_destination());
}

#[test]
fn url_and_ui_names_of_arrival_and_station() {
    let mut a = arrival("OMNI DOME STATION", "BLUE", "E", "9", 0);
    a.mutate();
    assert_eq!(a.ui_station_name(), "GWCC/CNN Center");
    assert_eq!(a.url_name(), "gwcc%2Fcnn%20center");
    let s = Station { name: "west end".to_string(), arrivals: vec![Arc::new(a)] };
    assert_eq!(s.ui_station_name(), "west end");
    assert_eq!(s.url_name(), "west%20end");
    let c = s.clone();
    assert_eq!(c.name, "west end");
    assert_eq!(c.arrivals.len(), 1);
}

#[test]
fn station_names_are_the_board_order() {
    let names = station_names();
    assert_eq!(names.len(), 38);
    assert_eq!(names[0], "airport");
    assert_eq!(names[19], "gwcc/cnn center");
    assert_eq!(names[37], "west lake");
}

fn percent_decode(s: &str) -> Vec<u8> {
    let b = s.as_bytes();
    let mut out = Vec::new();
    let mut i = 0;
    while i < b.len() {
        if b[i] == b'%' && i + 2 < b.len() {
            out.push(u8::from_str_radix(&s[i + 1..i + 3], 16).unwrap());
            i += 3;
        } else {
            out.push(b[i]);
            i += 1;
        }
    }
    out
}

#[test]
fn decoding_an_encoding_gives_the_bytes_back() {
    for s in ["gwcc/cnn center", "é%25 ~x", "", "%", "five points"] {
        assert_eq!(percent_decode(&encode_uri_component(s)), s.as_bytes());
    }
    assert_ne!(encode_uri_component("a b"), encode_uri_component("a+b"));
    assert_ne!(encode_uri_component("%20"), encode_uri_component(" "));
}
