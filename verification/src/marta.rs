//! Train arrivals as MARTA's real-time feed reports them, and how one arrival is
//! normalised and displayed.
use std::sync::Arc;
use vstd::prelude::*;
use vstd::utf8::encode_utf8;
use vstd::string::StringSliceAdditionalSpecFns;

use crate::text::{
    ascii_lower, ascii_upper, chars_of, digit_char, div60_toward_zero, ends_with, int_decimal,
    is_prefix, is_suffix, push_char, push_int_decimal, starts_with, str_eq, string_of_chars,
    to_ascii_lowercase, to_ascii_uppercase, trunc_div,
};
use crate::uri::{encode_bytes, encode_uri_component};

verus! {

broadcast use vstd::utf8::encode_utf8_decode_utf8;

/// The names of the rail stations, in the order the arrivals board lists them.
pub open spec fn spec_station_names() -> Seq<Seq<char>> {
    seq![
        "airport"@,
        "arts center"@,
        "ashby"@,
        "avondale"@,
        "bankhead"@,
        "brookhaven"@,
        "buckhead"@,
        "chamblee"@,
        "civic center"@,
        "college park"@,
        "decatur"@,
        "doraville"@,
        "dunwoody"@,
        "east lake"@,
        "east point"@,
        "edgewood candler park"@,
        "five points"@,
        "garnett"@,
        "georgia state"@,
        "gwcc/cnn center"@,
        "hamilton e holmes"@,
        "indian creek"@,
        "inman park"@,
        "kensington"@,
        "king memorial"@,
        "lakewood"@,
        "lenox"@,
        "lindbergh"@,
        "medical center"@,
        "midtown"@,
        "north ave"@,
        "north springs"@,
        "oakland city"@,
        "peachtree center"@,
        "sandy springs"@,
        "vine city"@,
        "west end"@,
        "west lake"@,
    ]
}

/// The names of the rail stations, in the order the arrivals board lists them.
pub fn station_names() -> (r: Vec<&'static str>)
    ensures
        r@.map_values(|s: &str| s@) == spec_station_names(),
{
    let r: Vec<&'static str> = vec![
        "airport",
        "arts center",
        "ashby",
        "avondale",
        "bankhead",
        "brookhaven",
        "buckhead",
        "chamblee",
        "civic center",
        "college park",
        "decatur",
        "doraville",
        "dunwoody",
        "east lake",
        "east point",
        "edgewood candler park",
        "five points",
        "garnett",
        "georgia state",
        "gwcc/cnn center",
        "hamilton e holmes",
        "indian creek",
        "inman park",
        "kensington",
        "king memorial",
        "lakewood",
        "lenox",
        "lindbergh",
        "medical center",
        "midtown",
        "north ave",
        "north springs",
        "oakland city",
        "peachtree center",
        "sandy springs",
        "vine city",
        "west end",
        "west lake",
    ];
    assert(r@.map_values(|s: &str| s@) =~= spec_station_names());
    r
}

/// The name shown on screen for a station: CSS capitalises only the first letter,
/// so the one name that needs more is spelled out.
pub open spec fn display_name(name: Seq<char>) -> Seq<char> {
    if name == "gwcc/cnn center"@ {
        "GWCC/CNN Center"@
    } else {
        name
    }
}

/// The on-screen form of a station name.
pub fn ui_name_overrides(name: &str) -> (r: &str)
    ensures
        r@ == display_name(name@),
{
    if str_eq(name, "gwcc/cnn center") {
        "GWCC/CNN Center"
    } else {
        name
    }
}

/// The station name MARTA uses for the station that is now GWCC/CNN Center.
pub open spec fn old_dome_name() -> Seq<char> {
    "OMNI DOME STATION"@
}

/// The suffix the feed puts after every station name.
pub open spec fn feed_suffix() -> Seq<char> {
    " STATION"@
}

/// The normalised station name: the old dome name becomes "gwcc/cnn center"; any other
/// name is lower-cased, its trailing " STATION" removed when it has one.
pub open spec fn normalised_station(station: Seq<char>) -> Seq<char> {
    if station == old_dome_name() {
        "gwcc/cnn center"@
    } else if is_suffix(feed_suffix(), station) {
        ascii_lower(station.subrange(0, station.len() - feed_suffix().len()))
    } else {
        ascii_lower(station)
    }
}

/// The CSS classes for a line's colour.
pub open spec fn line_color(line: Seq<char>) -> Seq<char> {
    if line == "RED"@ {
        "bg-red-400 border-red-500"@
    } else if line == "GOLD"@ {
        "bg-yellow-400 border-yellow-500"@
    } else if line == "GREEN"@ {
        "bg-green-400 border-green-500"@
    } else if line == "BLUE"@ {
        "bg-blue-400 border-blue-500"@
    } else {
        "violet-700"@
    }
}

/// How `{:02}` writes an integer: at least two characters, zero-padded after any sign.
pub open spec fn pad2(v: int) -> Seq<char> {
    if 0 <= v < 10 {
        seq!['0', digit_char(v)]
    } else {
        int_decimal(v)
    }
}

/// One upcoming train at one station, as MARTA's rail feed reports it.
pub struct TrainArrival {
    pub destination: String,
    pub direction: String,
    pub event_time: String,
    pub line: String,
    pub next_arr: String,
    pub station: String,
    pub train_id: String,
    pub is_first_stop: bool,
    pub has_started_trip: bool,
    pub is_realtime: bool,
    pub waiting_seconds: i64,
    pub waiting_time: String,
}

impl TrainArrival {
    /// All fields but the station are equal.
    pub open spec fn same_but_station(self, other: TrainArrival) -> bool {
        &&& self.destination == other.destination
        &&& self.direction == other.direction
        &&& self.event_time == other.event_time
        &&& self.line == other.line
        &&& self.next_arr == other.next_arr
        &&& self.train_id == other.train_id
        &&& self.is_first_stop == other.is_first_stop
        &&& self.has_started_trip == other.has_started_trip
        &&& self.is_realtime == other.is_realtime
        &&& self.waiting_seconds == other.waiting_seconds
        &&& self.waiting_time == other.waiting_time
    }

    /// The train waits at its first stop: it is tracked live but has not started its trip.
    pub fn paused_at_start(&self) -> (r: bool)
        ensures
            r == (self.is_first_stop && self.is_realtime && !self.has_started_trip),
    {
        self.is_first_stop && self.is_realtime && !self.has_started_trip
    }

    /// Normalises the station name the feed gave: lower-case, without " STATION",
    /// and the old dome under its current name (see `normalised_station`).
    pub fn mutate(&mut self)
        ensures
            final(self).station@ == normalised_station(old(self).station@),
            final(self).same_but_station(*old(self)),
    {
        if str_eq(self.station.as_str(), "OMNI DOME STATION") {
            self.station = "gwcc/cnn center".to_owned();
        } else if ends_with(self.station.as_str(), " STATION") {
            proof {
                reveal_strlit(" STATION");
            }
            let cs = chars_of(self.station.as_str());
            let n = cs.len() - 8;
            let mut head: Vec<char> = Vec::new();
            let mut i: usize = 0;
            while i < n
                invariant
                    n == cs@.len() - 8,
                    i <= n,
                    head@ == cs@.subrange(0, i as int),
                decreases n - i,
            {
                head.push(cs[i]);
                i = i + 1;
                assert(head@ =~= cs@.subrange(0, i as int));
            }
            let name = string_of_chars(&head);
            self.station = to_ascii_lowercase(name.as_str());
        } else {
            self.station = to_ascii_lowercase(self.station.as_str());
        }
    }

    /// The train is about to arrive.
    pub fn is_arriving(&self) -> (r: bool)
        ensures
            r == (self.waiting_time@ == "Arriving"@),
    {
        str_eq(self.waiting_time.as_str(), "Arriving")
    }

    /// The on-screen form of the station name.
    pub fn ui_station_name(&self) -> (r: &str)
        ensures
            r@ == display_name(self.station@),
    {
        ui_name_overrides(self.station.as_str())
    }

    /// The station name, percent-encoded for a URL.
    pub fn url_name(&self) -> (r: String)
        ensures
            r@ == encode_bytes(encode_utf8(self.station@)),
    {
        encode_uri_component(self.station.as_str())
    }

    /// The wait in whole minutes, written `:MM` (`format!(":{:02}", secs / 60)`).
    pub fn wait_min(&self) -> (r: String)
        ensures
            r@ == seq![':'] + pad2(trunc_div(self.waiting_seconds as int, 60)),
    {
        let q = div60_toward_zero(self.waiting_seconds);
        let mut r = String::new();
        push_char(&mut r, ':');
        if 0 <= q && q < 10 {
            push_char(&mut r, '0');
            let b: u8 = (48 + q) as u8;
            push_char(&mut r, b as char);
        } else {
            push_int_decimal(&mut r, q);
        }
        assert(r@ =~= seq![':'] + pad2(q as int));
        r
    }

    /// The CSS classes for the train's line colour.
    pub fn train_color(&self) -> (r: &str)
        ensures
            r@ == line_color(self.line@),
    {
        let line = self.line.as_str();
        if str_eq(line, "RED") {
            "bg-red-400 border-red-500"
        } else if str_eq(line, "GOLD") {
            "bg-yellow-400 border-yellow-500"
        } else if str_eq(line, "GREEN") {
            "bg-green-400 border-green-500"
        } else if str_eq(line, "BLUE") {
            "bg-blue-400 border-blue-500"
        } else {
            "violet-700"
        }
    }

    /// The station is the train's destination: the station name starts with the
    /// upper-cased destination (`station.find(DEST) == Some(0)`).
    pub fn is_destination(&self) -> (r: bool)
        ensures
            r == is_prefix(ascii_upper(self.destination@), self.station@),
    {
        let upper = to_ascii_uppercase(self.destination.as_str());
        starts_with(self.station.as_str(), upper.as_str())
    }
}

/// A station with the arrivals shown for it.
pub struct Station {
    pub name: String,
    pub arrivals: Vec<Arc<TrainArrival>>,
}

/// Another handle on the same arrival.
///
/// Calls `Arc::clone`, which the standard library documents as making a new pointer
/// to the same allocation; the contract says the value seen through it is the same.
#[verifier::external_body]
pub fn share_arrival(a: &Arc<TrainArrival>) -> (r: Arc<TrainArrival>)
    ensures
        r == *a,
{
    Arc::clone(a)
}

/// A copy of a list of arrivals, sharing each arrival.
pub fn share_arrivals(v: &Vec<Arc<TrainArrival>>) -> (r: Vec<Arc<TrainArrival>>)
    ensures
        r@ == v@,
{
    let mut r: Vec<Arc<TrainArrival>> = Vec::new();
    let mut i: usize = 0;
    while i < v.len()
        invariant
            i <= v@.len(),
            r@ == v@.subrange(0, i as int),
        decreases v@.len() - i,
    {
        r.push(share_arrival(&v[i]));
        i = i + 1;
        assert(r@ =~= v@.subrange(0, i as int));
    }
    assert(r@ =~= v@);
    r
}

impl Clone for Station {
    fn clone(&self) -> (r: Station)
        ensures
            r.name == self.name,
            r.arrivals@ == self.arrivals@,
    {
        Station { name: self.name.clone(), arrivals: share_arrivals(&self.arrivals) }
    }
}

impl Station {
    /// The on-screen form of the station name.
    pub fn ui_station_name(&self) -> (r: &str)
        ensures
            r@ == display_name(self.name@),
    {
        ui_name_overrides(self.name.as_str())
    }

    /// The station name, percent-encoded for a URL.
    pub fn url_name(&self) -> (r: String)
        ensures
            r@ == encode_bytes(encode_utf8(self.name@)),
    {
        encode_uri_component(self.name.as_str())
    }
}


} // verus!
