//! The GTFS schedule archive: which files are read from it, in what order, which
//! table each file fills, and the reading of those files out of the archive.
use vstd::prelude::*;

use crate::text::str_eq;

verus! {

/// A table of the GTFS schedule that the importer fills.
#[derive(Clone, Copy, PartialEq, Eq, Structural, Debug)]
pub enum GtfsTable {
    Calendar,
    CalendarDates,
    Routes,
    StopTimes,
    Shapes,
    Stops,
    Trips,
}

/// The file of the archive that holds a table.
pub open spec fn table_file(t: GtfsTable) -> Seq<char> {
    match t {
        GtfsTable::Calendar => "calendar.txt"@,
        GtfsTable::CalendarDates => "calendar_dates.txt"@,
        GtfsTable::Routes => "routes.txt"@,
        GtfsTable::StopTimes => "stop_times.txt"@,
        GtfsTable::Shapes => "shapes.txt"@,
        GtfsTable::Stops => "stops.txt"@,
        GtfsTable::Trips => "trips.txt"@,
    }
}

/// The table a file of the archive fills, if any.
pub open spec fn table_of_file(name: Seq<char>) -> Option<GtfsTable> {
    if name == "calendar.txt"@ {
        Some(GtfsTable::Calendar)
    } else if name == "calendar_dates.txt"@ {
        Some(GtfsTable::CalendarDates)
    } else if name == "routes.txt"@ {
        Some(GtfsTable::Routes)
    } else if name == "stop_times.txt"@ {
        Some(GtfsTable::StopTimes)
    } else if name == "shapes.txt"@ {
        Some(GtfsTable::Shapes)
    } else if name == "stops.txt"@ {
        Some(GtfsTable::Stops)
    } else if name == "trips.txt"@ {
        Some(GtfsTable::Trips)
    } else {
        None
    }
}

impl GtfsTable {
    /// The file of the archive that holds this table.
    pub fn file_name(&self) -> (r: &'static str)
        ensures
            r@ == table_file(*self),
    {
        match self {
            GtfsTable::Calendar => "calendar.txt",
            GtfsTable::CalendarDates => "calendar_dates.txt",
            GtfsTable::Routes => "routes.txt",
            GtfsTable::StopTimes => "stop_times.txt",
            GtfsTable::Shapes => "shapes.txt",
            GtfsTable::Stops => "stops.txt",
            GtfsTable::Trips => "trips.txt",
        }
    }
}

/// The table a file of the archive fills; `None` for any other file.
pub fn table_for_file(name: &str) -> (r: Option<GtfsTable>)
    ensures
        r == table_of_file(name@),
{
    if str_eq(name, "calendar.txt") {
        Some(GtfsTable::Calendar)
    } else if str_eq(name, "calendar_dates.txt") {
        Some(GtfsTable::CalendarDates)
    } else if str_eq(name, "routes.txt") {
        Some(GtfsTable::Routes)
    } else if str_eq(name, "stop_times.txt") {
        Some(GtfsTable::StopTimes)
    } else if str_eq(name, "shapes.txt") {
        Some(GtfsTable::Shapes)
    } else if str_eq(name, "stops.txt") {
        Some(GtfsTable::Stops)
    } else if str_eq(name, "trips.txt") {
        Some(GtfsTable::Trips)
    } else {
        None
    }
}

/// The tables the scheduled ingest task extracts, in extraction order.
pub fn ingest_tables() -> (r: Vec<GtfsTable>)
    ensures
        r@ == seq![
            GtfsTable::Calendar,
            GtfsTable::CalendarDates,
            GtfsTable::Routes,
            GtfsTable::StopTimes,
            GtfsTable::Shapes,
            GtfsTable::Stops,
            GtfsTable::Trips,
        ],
{
    let r = vec![
        GtfsTable::Calendar,
        GtfsTable::CalendarDates,
        GtfsTable::Routes,
        GtfsTable::StopTimes,
        GtfsTable::Shapes,
        GtfsTable::Stops,
        GtfsTable::Trips,
    ];
    assert(r@ =~= seq![
        GtfsTable::Calendar,
        GtfsTable::CalendarDates,
        GtfsTable::Routes,
        GtfsTable::StopTimes,
        GtfsTable::Shapes,
        GtfsTable::Stops,
        GtfsTable::Trips,
    ]);
    r
}

/// The tables the one-off import tool loads, in loading order.
pub fn import_tables() -> (r: Vec<GtfsTable>)
    ensures
        r@ == seq![
            GtfsTable::StopTimes,
            GtfsTable::Trips,
            GtfsTable::Calendar,
            GtfsTable::CalendarDates,
            GtfsTable::Routes,
            GtfsTable::Stops,
            GtfsTable::Shapes,
        ],
{
    let r = vec![
        GtfsTable::StopTimes,
        GtfsTable::Trips,
        GtfsTable::Calendar,
        GtfsTable::CalendarDates,
        GtfsTable::Routes,
        GtfsTable::Stops,
        GtfsTable::Shapes,
    ];
    assert(r@ =~= seq![
        GtfsTable::StopTimes,
        GtfsTable::Trips,
        GtfsTable::Calendar,
        GtfsTable::CalendarDates,
        GtfsTable::Routes,
        GtfsTable::Stops,
        GtfsTable::Shapes,
    ]);
    r
}

/// What the `zip` crate reads out of a ZIP archive under an entry's name: the entry's
/// bytes, or `None` when the archive does not read, has no such entry or the entry
/// does not decompress.
pub uninterp spec fn zip_entry(archive: Seq<u8>, name: Seq<char>) -> Option<Seq<u8>>;

/// The bytes of one entry of a ZIP archive.
///
/// Calls `zip::ZipArchive::new` on the archive's bytes, `by_name(name)` and
/// `std::io::Read::read_to_end` on the entry. The result is a function of the bytes
/// and the name, named `zip_entry`; the archive format and its decompression are not
/// stated.
#[verifier::external_body]
fn archive_entry(archive: &[u8], name: &str) -> (r: Option<Vec<u8>>)
    ensures
        match r {
            Some(v) => zip_entry(archive@, name@) == Some(v@),
            None => zip_entry(archive@, name@) is None,
        },
{
    let mut zip = match zip::ZipArchive::new(std::io::Cursor::new(archive)) {
        Ok(z) => z,
        Err(_) => return None,
    };
    let mut entry = match zip.by_name(name) {
        Ok(e) => e,
        Err(_) => return None,
    };
    let mut bytes: Vec<u8> = Vec::new();
    match std::io::Read::read_to_end(&mut entry, &mut bytes) {
        Ok(_) => Some(bytes),
        Err(_) => None,
    }
}

/// The bytes of the file that holds a table, read out of the schedule archive.
pub fn extract_table(archive: &[u8], table: GtfsTable) -> (r: Option<Vec<u8>>)
    ensures
        match r {
            Some(v) => zip_entry(archive@, table_file(table)) == Some(v@),
            None => zip_entry(archive@, table_file(table)) is None,
        },
{
    archive_entry(archive, table.file_name())
}

/// The files of the given tables, in order, read out of the schedule archive; `None`
/// when any of them cannot be read.
pub fn extract_tables(archive: &[u8], tables: &Vec<GtfsTable>) -> (r: Option<Vec<Vec<u8>>>)
    ensures
        r matches Some(f) ==> f@.len() == tables@.len() && forall|i: int|
            0 <= i < tables@.len() ==> zip_entry(archive@, table_file(#[trigger] tables@[i])) == Some(
                f@[i]@,
            ),
        r is None <==> exists|i: int|
            0 <= i < tables@.len() && zip_entry(archive@, table_file(#[trigger] tables@[i])) is None,
{
    let mut files: Vec<Vec<u8>> = Vec::new();
    let mut i: usize = 0;
    while i < tables.len()
        invariant
            i <= tables@.len(),
            files@.len() == i,
            forall|j: int|
                0 <= j < i ==> zip_entry(archive@, table_file(#[trigger] tables@[j])) == Some(
                    files@[j]@,
                ),
        decreases tables@.len() - i,
    {
        match extract_table(archive, tables[i]) {
            Some(v) => files.push(v),
            None => {
                assert(zip_entry(archive@, table_file(tables@[i as int])) is None);
                return None;
            },
        }
        i = i + 1;
    }
    Some(files)
}

/// Each table's file is read back as that table: the importer fills every table it
/// extracts.
pub proof fn lemma_file_names_roundtrip(t: GtfsTable)
    ensures
        table_of_file(table_file(t)) == Some(t),
{
    reveal_strlit("calendar.txt");
    reveal_strlit("calendar_dates.txt");
    reveal_strlit("routes.txt");
    reveal_strlit("stop_times.txt");
    reveal_strlit("shapes.txt");
    reveal_strlit("stops.txt");
    reveal_strlit("trips.txt");
    assert("calendar.txt"@.len() == 12);
    assert("calendar_dates.txt"@.len() == 18);
    assert("routes.txt"@.len() == 10);
    assert("stop_times.txt"@.len() == 14);
    assert("shapes.txt"@.len() == 10);
    assert("stops.txt"@.len() == 9);
    assert("trips.txt"@.len() == 9);
    assert("routes.txt"@[0] != "shapes.txt"@[0]);
    assert("stops.txt"@[0] != "trips.txt"@[0]);
}

} // verus!
