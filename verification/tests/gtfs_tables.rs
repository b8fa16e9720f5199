use roundhouse::app::App;
use roundhouse::schedule::{
    extract_table, extract_tables, import_tables, ingest_tables, table_for_file, GtfsTable,
};
use roundhouse::views::Http404Template;

#[test]
fn every_table_file_reads_back_as_its_table() {
    for t in ingest_tables() {
        assert_eq!(table_for_file(t.file_name()), Some(t));
    }
    assert_eq!(ingest_tables().len(), 7);
    assert_eq!(import_tables().len(), 7);
}

#[test]
fn other_files_fill_no_table() {
    assert_eq!(table_for_file("agency.txt"), None);
    assert_eq!(table_for_file(""), None);
    assert_eq!(table_for_file("stops.txt"), Some(GtfsTable::Stops));
}

#[test]
fn extraction_order() {
    let names: Vec<&str> = ingest_tables().iter().map(|t| t.file_name()).collect();
    assert_eq!(
        names,
        vec![
            "calendar.txt",
            "calendar_dates.txt",
            "routes.txt",
            "stop_times.txt",
            "shapes.txt",
            "stops.txt",
            "trips.txt"
        ]
    );
}

#[test]
fn version_label_prefers_build_sha() {
    assert_eq!(App::app_version("0.1.0", Some("abc"), Some("def")), "0.1.0 (abc)");
    assert_eq!(App::app_version("0.1.0", None, Some("def")), "0.1.0 (def)");
    assert_eq!(App::app_version("0.1.0", None, None), "0.1.0 (dev)");
}

#[test]
fn not_found_page_variation_is_below_five() {
    for _ in 0..100 {
        assert!(Http404Template::default().variation() < 5);
    }
}

fn archive(entries: &[(&str, &str)]) -> Vec<u8> {
    let mut w = zip::ZipWriter::new(std::io::Cursor::new(Vec::new()));
    for (name, body) in entries {
        w.start_file(*name, zip::write::SimpleFileOptions::default()).unwrap();
        std::io::Write::write_all(&mut w, body.as_bytes()).unwrap();
    }
    w.finish().unwrap().into_inner()
}

#[test]
fn a_table_file_is_read_out_of_the_archive() {
    let zip = archive(&[("routes.txt", "route_id\n1\n"), ("stops.txt", "stop_id\n7\n")]);
    assert_eq!(extract_table(&zip, GtfsTable::Routes), Some(b"route_id\n1\n".to_vec()));
    assert_eq!(extract_table(&zip, GtfsTable::Stops), Some(b"stop_id\n7\n".to_vec()));
    assert_eq!(extract_table(&zip, GtfsTable::Trips), None);
    assert_eq!(extract_table(b"not a zip archive", GtfsTable::Routes), None);
}

#[test]
fn tables_are_read_in_the_order_asked_or_not_at_all() {
    let zip = archive(&[("routes.txt", "r"), ("stops.txt", "s")]);
    assert_eq!(
        extract_tables(&zip, &vec![GtfsTable::Stops, GtfsTable::Routes]),
        Some(vec![b"s".to_vec(), b"r".to_vec()])
    );
    assert_eq!(extract_tables(&zip, &vec![GtfsTable::Stops, GtfsTable::Shapes]), None);
    assert_eq!(extract_tables(&zip, &vec![]), Some(vec![]));
}
