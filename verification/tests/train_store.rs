use roundhouse::marta::TrainArrival;
use roundhouse::store::{direction_rank_exec, TrainStore};

fn arrival(station: &str, direction: &str, train: &str, wait: i64) -> TrainArrival {
    TrainArrival {
        destination: "Airport".to_string(),
        direction: direction.to_string(),
        event_time: "e".to_string(),
        line: "RED".to_string(),
        next_arr: "n".to_string(),
        station: station.to_string(),
        train_id: train.to_string(),
        is_first_stop: false,
        has_started_trip: true,
        is_realtime: true,
        waiting_seconds: wait,
        waiting_time: "w".to_string(),
    }
}

fn trains(v: &[std::sync::Arc<TrainArrival>]) -> Vec<String> {
    v.iter().map(|a| a.train_id.clone()).collect()
}

fn feed() -> Vec<TrainArrival> {
    vec![
        arrival("FIVE POINTS STATION", "N", "a", 300),
        arrival("AIRPORT STATION", "N", "b", 60),
        arrival("FIVE POINTS STATION", "S", "c", 120),
        arrival("FIVE POINTS STATION", "N", "d", 120),
        arrival("OMNI DOME STATION", "E", "a", 30),
        arrival("FIVE POINTS STATION", "E", "e", 10),
        arrival("FIVE POINTS STATION", "W", "f", 5),
    ]
}

#[test]
fn groups_arrivals_by_normalised_station_sorted_by_wait() {
    let store = TrainStore::from_feed(feed());
    let five = store.single_station_arrivals("five points");
    assert_eq!(trains(&five), vec!["f", "e", "c", "d", "a"]);
    let airport = store.single_station_arrivals("airport");
    assert_eq!(trains(&airport), vec!["b"]);
    let gwcc = store.single_station_arrivals("gwcc/cnn center");
    assert_eq!(trains(&gwcc), vec!["a"]);
    assert_eq!(gwcc[0].station, "gwcc/cnn center");
}

#[test]
fn equal_waits_keep_feed_order() {
    let store = TrainStore::from_feed(feed());
    let five = store.single_station_arrivals("five points");
    let c = five.iter().position(|x| x.train_id == "c").unwrap();
    let d = five.iter().position(|x| x.train_id == "d").unwrap();
    assert!(c < d);
}

#[test]
fn unknown_station_has_no_arrivals() {
    let store = TrainStore::from_feed(feed());
    assert!(store.single_station_arrivals("FIVE POINTS").is_empty());
    assert!(TrainStore::empty().single_station_arrivals("airport").is_empty());
}

#[test]
fn single_train_arrivals_lists_every_stop_soonest_first() {
    let store = TrainStore::from_feed(feed());
    let a = store.single_train_arrivals("a");
    assert_eq!(a.len(), 2);
    assert_eq!(a[0].waiting_seconds, 30);
    assert_eq!(a[1].waiting_seconds, 300);
    assert!(store.single_train_arrivals("zzz").is_empty());
}

#[test]
fn board_keeps_first_arrival_per_direction_ordered_n_s_e_other() {
    let store = TrainStore::from_feed(feed());
    let board = store.arrivals_by_station();
    assert_eq!(board.len(), 38);
    let five = board.iter().find(|s| s.name == "five points").unwrap();
    // Sorted by wait: f(W,5) e(E,10) c(S,120) d(N,120) a(N,300); first per direction: f e c d.
    assert_eq!(trains(&five.arrivals), vec!["d", "c", "e", "f"]);
    let airport = &board[0];
    assert_eq!(airport.name, "airport");
    assert_eq!(trains(&airport.arrivals), vec!["b"]);
    let lake = &board[37];
    assert_eq!(lake.name, "west lake");
    assert!(lake.arrivals.is_empty());
}

#[test]
fn board_of_empty_store_lists_every_station_without_trains() {
    let board = TrainStore::empty().arrivals_by_station();
    assert_eq!(board.len(), 38);
    assert!(board.iter().all(|s| s.arrivals.is_empty()));
}

#[test]
fn direction_ranks() {
    assert_eq!(direction_rank_exec("N"), 0);
    assert_eq!(direction_rank_exec("S"), 1);
    assert_eq!(direction_rank_exec("E"), 2);
    assert_eq!(direction_rank_exec("W"), 3);
    assert_eq!(direction_rank_exec(""), 3);
}
