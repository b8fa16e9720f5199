//! The parts of a GTFS-realtime feed and of the GTFS schedule tables that the bus
//! pages read, held as plain values.
use vstd::prelude::*;

use crate::text::{parse_i64, parse_i64_spec};

verus! {

/// The character view of an optional string.
pub open spec fn opt_view(o: Option<String>) -> Option<Seq<char>> {
    match o {
        Some(s) => Some(s@),
        None => None,
    }
}

/// The `i64` an optional string parses to, if any (`o.and_then(|s| s.parse().ok())`).
#[verifier::opaque]
pub open spec fn parsed_i64(o: Option<String>) -> Option<int> {
    match o {
        Some(s) => parse_i64_spec(s@),
        None => None,
    }
}

/// `o.as_ref().and_then(|s| s.parse::<i64>().ok())`.
pub fn parse_opt_i64(o: &Option<String>) -> (r: Option<i64>)
    ensures
        match r {
            Some(v) => parsed_i64(*o) == Some(v as int),
            None => parsed_i64(*o) is None,
        },
{
    reveal(parsed_i64);
    match o {
        Some(s) => parse_i64(s.as_str()),
        None => None,
    }
}

/// A copy of an optional string.
pub fn copy_opt_string(o: &Option<String>) -> (r: Option<String>)
    ensures
        r == *o,
{
    match o {
        Some(s) => Some(s.clone()),
        None => None,
    }
}

/// Whether two optional strings are equal.
pub fn opt_string_eq(a: &Option<String>, b: &Option<String>) -> (r: bool)
    ensures
        r == (opt_view(*a) == opt_view(*b)),
{
    match (a, b) {
        (Some(x), Some(y)) => *x == *y,
        (None, None) => true,
        _ => false,
    }
}

/// Which trip a realtime update or vehicle position is about.
pub struct TripDescriptor {
    pub trip_id: Option<String>,
    pub route_id: Option<String>,
    pub direction_id: Option<u32>,
    pub start_time: Option<String>,
    pub start_date: Option<String>,
}

impl Clone for TripDescriptor {
    fn clone(&self) -> (r: TripDescriptor)
        ensures
            r == *self,
    {
        TripDescriptor {
            trip_id: copy_opt_string(&self.trip_id),
            route_id: copy_opt_string(&self.route_id),
            direction_id: self.direction_id,
            start_time: copy_opt_string(&self.start_time),
            start_date: copy_opt_string(&self.start_date),
        }
    }
}

/// When a vehicle is predicted at a stop.
#[derive(Clone, Copy)]
pub struct StopTimeEvent {
    pub delay: Option<i32>,
    pub time: Option<i64>,
    pub uncertainty: Option<i32>,
}

/// The prediction for one stop of a trip.
pub struct StopTimeUpdate {
    pub stop_sequence: Option<u32>,
    pub stop_id: Option<String>,
    pub arrival: Option<StopTimeEvent>,
    pub departure: Option<StopTimeEvent>,
}

impl Clone for StopTimeUpdate {
    fn clone(&self) -> (r: StopTimeUpdate)
        ensures
            r == *self,
    {
        StopTimeUpdate {
            stop_sequence: self.stop_sequence,
            stop_id: copy_opt_string(&self.stop_id),
            arrival: self.arrival,
            departure: self.departure,
        }
    }
}

/// The realtime predictions for one trip.
pub struct TripUpdate {
    pub trip: TripDescriptor,
    pub stop_time_update: Vec<StopTimeUpdate>,
    pub timestamp: Option<u64>,
    pub delay: Option<i32>,
}

impl TripUpdate {
    /// Both updates hold the same values.
    pub open spec fn same(self, other: TripUpdate) -> bool {
        &&& self.trip == other.trip
        &&& self.stop_time_update@ == other.stop_time_update@
        &&& self.timestamp == other.timestamp
        &&& self.delay == other.delay
    }
}

impl Clone for TripUpdate {
    fn clone(&self) -> (r: TripUpdate)
        ensures
            r.same(*self),
    {
        let mut stops: Vec<StopTimeUpdate> = Vec::new();
        let mut i: usize = 0;
        while i < self.stop_time_update.len()
            invariant
                i <= self.stop_time_update@.len(),
                stops@ == self.stop_time_update@.subrange(0, i as int),
            decreases self.stop_time_update@.len() - i,
        {
            stops.push(self.stop_time_update[i].clone());
            i = i + 1;
            assert(stops@ =~= self.stop_time_update@.subrange(0, i as int));
        }
        assert(stops@ =~= self.stop_time_update@);
        TripUpdate {
            trip: self.trip.clone(),
            stop_time_update: stops,
            timestamp: self.timestamp,
            delay: self.delay,
        }
    }
}

/// The part of a vehicle position that the pages match on: its trip and route.
pub struct VehicleRef {
    pub trip_id: Option<String>,
    pub route_id: Option<String>,
}

/// A row of the GTFS `routes` table.
pub struct RouteModel {
    pub route_id: i64,
    pub route_short_name: Option<String>,
    pub route_long_name: Option<String>,
    pub route_desc: Option<String>,
    pub route_type: Option<i64>,
    pub route_url: Option<String>,
    pub route_text_color: Option<String>,
}

/// A row of the GTFS `trips` table.
pub struct TripModel {
    pub trip_id: i64,
    pub direction_id: Option<i64>,
    pub block_id: Option<i64>,
    pub route_id: Option<i64>,
    pub service_id: Option<i64>,
    pub shape_id: Option<i64>,
    pub trip_headsign: Option<String>,
}

impl Clone for TripModel {
    fn clone(&self) -> (r: TripModel)
        ensures
            r == *self,
    {
        TripModel {
            trip_id: self.trip_id,
            direction_id: self.direction_id,
            block_id: self.block_id,
            route_id: self.route_id,
            service_id: self.service_id,
            shape_id: self.shape_id,
            trip_headsign: copy_opt_string(&self.trip_headsign),
        }
    }
}

/// A row of the GTFS `stop_times` table.
pub struct StopTimeModel {
    pub trip_id: i64,
    pub stop_sequence: i64,
    pub arrival_time: Option<String>,
    pub departure_time: Option<String>,
    pub stop_id: Option<i64>,
}

impl Clone for StopTimeModel {
    fn clone(&self) -> (r: StopTimeModel)
        ensures
            r == *self,
    {
        StopTimeModel {
            trip_id: self.trip_id,
            stop_sequence: self.stop_sequence,
            arrival_time: copy_opt_string(&self.arrival_time),
            departure_time: copy_opt_string(&self.departure_time),
            stop_id: self.stop_id,
        }
    }
}

} // verus!
