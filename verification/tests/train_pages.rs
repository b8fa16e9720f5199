use std::sync::Arc;

use roundhouse::marta::{Station, TrainArrival};
use roundhouse::trains::{
    is_starred, is_train_id, nearest_stations, star_station, starred_cookie_value,
    starred_station_names, starred_stations, station_from_path, unstar_station,
};

fn station(name: &str) -> Station {
    Station { name: name.to_string(), arrivals: Vec::<Arc<TrainArrival>>::new() }
}

#[test]
fn station_path_names_a_known_station() {
    assert_eq!(station_from_path("five points station"), Some("five points".to_string()));
    assert_eq!(station_from_path("gwcc/cnn center station"), Some("gwcc/cnn center".to_string()));
}

#[test]
fn station_path_without_suffix_or_unknown_is_not_found() {
    assert_eq!(station_from_path("five points"), None);
    assert_eq!(station_from_path("nowhere station"), None);
    assert_eq!(station_from_path(" station"), None);
    assert_eq!(station_from_path("FIVE POINTS station"), None);
    assert_eq!(station_from_path(""), None);
}

#[test]
fn train_ids_parse_as_u64() {
    assert!(is_train_id("1234"));
    assert!(is_train_id("+7"));
    assert!(is_train_id("007"));
    assert!(is_train_id("18446744073709551615"));
    assert!(!is_train_id("18446744073709551616"));
    assert!(!is_train_id("-1"));
    assert!(!is_train_id("+"));
    assert!(!is_train_id(""));
    assert!(!is_train_id("12a"));
    assert!(!is_train_id(" 12"));
}

#[test]
fn starred_names_come_from_the_cookie() {
    assert!(starred_station_names(None).is_empty());
    assert_eq!(
        starred_station_names(Some("FIVE POINTS STATION,AIRPORT STATION")),
        vec!["FIVE POINTS STATION".to_string(), "AIRPORT STATION".to_string()]
    );
    assert_eq!(starred_station_names(Some("")), vec!["".to_string()]);
    assert_eq!(starred_station_names(Some("a,,b,")), vec!["a", "", "b", ""]);
}

#[test]
fn star_adds_upper_cased_name_and_cookie_reads_back() {
    let names = starred_station_names(Some("AIRPORT STATION"));
    let names = star_station(names, "west end station");
    assert_eq!(names, vec!["AIRPORT STATION".to_string(), "WEST END STATION".to_string()]);
    let cookie = starred_cookie_value(&names);
    assert_eq!(cookie, "AIRPORT STATION,WEST END STATION");
    assert_eq!(starred_station_names(Some(&cookie)), names);
    assert!(is_starred(&names, "west end station"));
}

#[test]
fn unstar_removes_every_copy() {
    let names = vec![
        "AIRPORT STATION".to_string(),
        "WEST END STATION".to_string(),
        "AIRPORT STATION".to_string(),
    ];
    let names = unstar_station(names, "airport station");
    assert_eq!(names, vec!["WEST END STATION".to_string()]);
    assert!(!is_starred(&names, "airport station"));
    assert_eq!(starred_cookie_value(&Vec::new()), "");
}

#[test]
fn starred_stations_match_by_upper_cased_prefix() {
    let board = vec![station("airport"), station("five points"), station("west end")];
    let names = vec!["WEST END STATION".to_string(), "AIRPORT STATION".to_string()];
    let starred = starred_stations(&board, &names);
    let got: Vec<&str> = starred.iter().map(|s| s.name.as_str()).collect();
    assert_eq!(got, vec!["airport", "west end"]);
    assert!(starred_stations(&board, &Vec::new()).is_empty());
}

#[test]
fn nearest_stations_takes_three_in_order() {
    let board = vec![station("airport"), station("five points"), station("west end"), station("ashby")];
    let order = vec!["west end", "ashby", "airport", "five points"];
    let near = nearest_stations(&order, &board);
    let got: Vec<&str> = near.iter().map(|s| s.name.as_str()).collect();
    assert_eq!(got, vec!["west end", "ashby", "airport"]);
    let two = nearest_stations(&vec!["ashby", "airport"], &board);
    assert_eq!(two.len(), 2);
}
