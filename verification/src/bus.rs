//! The bus route pages: which realtime trips belong to a route, how they are paired
//! with schedule rows, and how late a bus is.
use vstd::prelude::*;

use crate::clock::{
    chrono_clock_seconds, chrono_max_second, chrono_min_second, day_seconds, local_timestamp_today,
    parse_clock_time, utc_timestamp,
};
use crate::ordering::{lemma_stable_insert, lemma_stable_sorted_empty, lemma_stable_sorted_member, stable_sorted};
use crate::text::{nat_decimal, push_char, push_chars, push_nat_decimal, trunc_div, chars_of};
use crate::transit::{
    opt_string_eq, opt_view, parse_opt_i64, parsed_i64, RouteModel, StopTimeModel, TripModel,
    TripUpdate, VehicleRef,
};

verus! {

broadcast use {vstd::seq_lib::group_seq_properties, vstd::seq::group_seq_axioms};


/// The predicted departure of the first remaining stop of the trip, if the feed gives one.
pub open spec fn first_departure(u: TripUpdate) -> Option<i64> {
    if u.stop_time_update@.len() > 0 && u.stop_time_update@[0].departure is Some {
        u.stop_time_update@[0].departure.unwrap().time
    } else {
        None
    }
}

/// The departure the page compares against: the first predicted departure, when
/// `chrono` can place it.
pub open spec fn seen_departure(u: TripUpdate) -> Option<i64> {
    match first_departure(u) {
        Some(t) => if chrono_min_second() <= t <= chrono_max_second() {
            Some(t)
        } else {
            None
        },
        None => None,
    }
}

/// The delay in seconds: predicted minus scheduled departure, or 0 without a prediction.
pub open spec fn delay_spec(scheduled: int, seen: Option<i64>) -> int {
    match seen {
        Some(s) => s - scheduled,
        None => 0,
    }
}

/// The scheduled departure's time of day as `chrono` reads it: seconds after midnight,
/// or `None` when the stop time has no departure or it does not read as `%H:%M:%S`.
pub open spec fn scheduled_clock_seconds(st: StopTimeModel) -> Option<u32> {
    match st.departure_time {
        Some(d) => chrono_clock_seconds(d@),
        None => None,
    }
}

/// How a delay reads: "on time", "Nmin late" or "Nmin early", N the whole minutes.
pub open spec fn timeliness_text(delay: int) -> Seq<char> {
    let q = trunc_div(delay, 60);
    let min = if q < 0 {
        -q
    } else {
        q
    };
    if delay == 0 {
        "on time"@
    } else if delay > 0 {
        nat_decimal(min as nat) + "min late"@
    } else {
        nat_decimal(min as nat) + "min early"@
    }
}

/// The colour a delay is shown in.
pub open spec fn timeliness_color_text(delay: int) -> Seq<char> {
    if delay == 0 {
        "green"@
    } else if delay > 0 {
        "red"@
    } else {
        "pink"@
    }
}

/// The delay in seconds for a scheduled departure and the departure seen in the feed.
pub fn delay_between(scheduled: i64, seen: Option<i64>) -> (r: i64)
    requires
        chrono_min_second() <= scheduled <= chrono_max_second(),
        seen matches Some(s) ==> chrono_min_second() <= s <= chrono_max_second(),
    ensures
        r == delay_spec(scheduled as int, seen),
{
    match seen {
        Some(s) => s - scheduled,
        None => 0,
    }
}

/// The delay is the predicted minus the scheduled departure: a bus predicted before its
/// schedule is early (negative, shown pink), one after it late (positive, shown red), one
/// on it on time (shown green); without a prediction the delay is 0.
pub proof fn lemma_delay_is_prediction_minus_schedule(scheduled: int, predicted: int)
    requires
        i64::MIN <= predicted <= i64::MAX,
    ensures
        delay_spec(scheduled, Some(predicted as i64)) == predicted - scheduled,
        delay_spec(scheduled, None) == 0,
        predicted < scheduled ==> delay_spec(scheduled, Some(predicted as i64)) < 0
            && timeliness_color_text(delay_spec(scheduled, Some(predicted as i64))) == "pink"@,
        predicted > scheduled ==> delay_spec(scheduled, Some(predicted as i64)) > 0
            && timeliness_color_text(delay_spec(scheduled, Some(predicted as i64))) == "red"@,
        predicted == scheduled ==> timeliness_text(delay_spec(scheduled, Some(predicted as i64)))
            == "on time"@ && timeliness_color_text(delay_spec(scheduled, Some(predicted as i64)))
            == "green"@,
{
}

/// How a delay reads on the page.
pub fn timeliness_for(delay: i64) -> (r: String)
    ensures
        r@ == timeliness_text(delay as int),
{
    if delay == 0 {
        let r = "on time".to_owned();
        return r;
    }
    let q: u64 = if delay >= 0 {
        (delay / 60) as u64
    } else {
        (((-(delay + 1)) as u64) + 1) / 60
    };
    assert(q as int == (if trunc_div(delay as int, 60) < 0 {
        -trunc_div(delay as int, 60)
    } else {
        trunc_div(delay as int, 60)
    }));
    let mut r = String::new();
    push_nat_decimal(&mut r, q);
    if delay > 0 {
        let tail = chars_of("min late");
        push_chars(&mut r, &tail);
    } else {
        let tail = chars_of("min early");
        push_chars(&mut r, &tail);
    }
    r
}

/// The colour a delay is shown in.
pub fn timeliness_color_for(delay: i64) -> (r: &'static str)
    ensures
        r@ == timeliness_color_text(delay as int),
{
    if delay == 0 {
        "green"
    } else if delay > 0 {
        "red"
    } else {
        "pink"
    }
}

/// A bus seen on a route, with its realtime trip update if the feed has one.
pub struct TripSummary {
    pub trip_update: Option<TripUpdate>,
    pub trip: TripModel,
}

impl TripSummary {
    /// How many stops the trip has left: the updates the feed gives, or 0 without one.
    pub fn stops_left(&self) -> (r: usize)
        ensures
            r == match self.trip_update {
                Some(u) => u.stop_time_update@.len(),
                None => 0,
            },
    {
        match &self.trip_update {
            Some(u) => u.stop_time_update.len(),
            None => 0,
        }
    }

    /// When the trip started, or "N/A".
    pub fn start_time(&self) -> (r: &str)
        ensures
            r@ == match self.trip_update {
                Some(u) => match u.trip.start_time {
                    Some(s) => s@,
                    None => "N/A"@,
                },
                None => "N/A"@,
            },
    {
        match &self.trip_update {
            Some(u) => match &u.trip.start_time {
                Some(s) => s.as_str(),
                None => "N/A",
            },
            None => "N/A",
        }
    }
}

/// A route with the buses seen on it.
pub struct Index {
    pub route: RouteModel,
    pub trips: Vec<TripSummary>,
}

/// A realtime trip on a route, with its schedule row and its next scheduled stop.
pub struct TripDetail {
    pub trip: TripModel,
    pub next_stop_time: StopTimeModel,
    pub trip_update: TripUpdate,
}

impl TripDetail {
    /// How many stops the trip has left.
    pub fn stops_left(&self) -> (r: usize)
        ensures
            r == self.trip_update.stop_time_update@.len(),
    {
        self.trip_update.stop_time_update.len()
    }

    /// The first predicted departure of the trip, when `chrono` can place it.
    pub fn seen_departure(&self) -> (r: Option<i64>)
        ensures
            r == seen_departure(self.trip_update),
            r matches Some(s) ==> chrono_min_second() <= s <= chrono_max_second(),
    {
        if self.trip_update.stop_time_update.len() > 0 {
            match &self.trip_update.stop_time_update[0].departure {
                Some(dep) => match dep.time {
                    Some(t) => utc_timestamp(t),
                    None => None,
                },
                None => None,
            }
        } else {
            None
        }
    }

    /// The scheduled departure at the next stop as seconds after midnight, when the
    /// stop time has one that `chrono` reads as `%H:%M:%S`.
    pub fn scheduled_seconds(&self) -> (r: Option<u32>)
        ensures
            r == scheduled_clock_seconds(self.next_stop_time),
            r matches Some(s) ==> s < day_seconds(),
    {
        match &self.next_stop_time.departure_time {
            Some(d) => parse_clock_time(d.as_str()),
            None => None,
        }
    }

    /// How many seconds the bus runs behind its schedule at the next stop (negative
    /// when early, 0 without a prediction): the predicted departure minus today's
    /// local timestamp of the scheduled departure. `None` when the local clock skips
    /// or repeats that time today. Which timestamp today's local departure is rests
    /// on the date and the machine's time zone, so the contract says only that it lies
    /// within `chrono`'s range; `delay_between` states the subtraction exactly.
    pub fn delay(&self) -> (r: Option<i64>)
        requires
            scheduled_clock_seconds(self.next_stop_time) is Some,
        ensures
            r matches Some(d) ==> exists|scheduled: int|
                chrono_min_second() <= scheduled <= chrono_max_second() && d == #[trigger] delay_spec(
                    scheduled,
                    seen_departure(self.trip_update),
                ),
    {
        let secs = match self.scheduled_seconds() {
            Some(s) => s,
            None => {
                return None;
            },
        };
        let scheduled = match local_timestamp_today(secs) {
            Some(x) => x,
            None => {
                return None;
            },
        };
        Some(self.delay_at(scheduled))
    }

    /// How many seconds the bus runs behind a given scheduled departure timestamp: the
    /// predicted departure minus `scheduled`, or 0 without a prediction.
    pub fn delay_at(&self, scheduled: i64) -> (r: i64)
        requires
            chrono_min_second() <= scheduled <= chrono_max_second(),
        ensures
            r == match seen_departure(self.trip_update) {
                Some(p) => p - scheduled,
                None => 0,
            },
            r == delay_spec(scheduled as int, seen_departure(self.trip_update)),
    {
        let seen = self.seen_departure();
        delay_between(scheduled, seen)
    }

    /// How the delay reads on the page (see `delay`).
    pub fn timeliness(&self) -> (r: Option<String>)
        requires
            scheduled_clock_seconds(self.next_stop_time) is Some,
        ensures
            r matches Some(t) ==> exists|scheduled: int|
                chrono_min_second() <= scheduled <= chrono_max_second() && t@ == timeliness_text(#[trigger] delay_spec(scheduled, seen_departure(self.trip_update))),
    {
        match self.delay() {
            Some(d) => Some(timeliness_for(d)),
            None => None,
        }
    }

    /// The colour the delay is shown in (see `delay`).
    pub fn timeliness_color(&self) -> (r: Option<&'static str>)
        requires
            scheduled_clock_seconds(self.next_stop_time) is Some,
        ensures
            r matches Some(t) ==> exists|scheduled: int|
                chrono_min_second() <= scheduled <= chrono_max_second() && t@ == timeliness_color_text(#[trigger] delay_spec(scheduled, seen_departure(self.trip_update))),
    {
        match self.delay() {
            Some(d) => Some(timeliness_color_for(d)),
            None => None,
        }
    }

    /// How the delay reads, for any stop time: `None` when the scheduled departure is
    /// missing or unreadable, otherwise as `timeliness`.
    pub fn shown_timeliness(&self) -> (r: Option<String>)
        ensures
            scheduled_clock_seconds(self.next_stop_time) is None ==> r is None,
            r matches Some(t) ==> exists|scheduled: int|
                chrono_min_second() <= scheduled <= chrono_max_second() && t@ == timeliness_text(#[trigger] delay_spec(scheduled, seen_departure(self.trip_update))),
    {
        match self.scheduled_seconds() {
            Some(_) => self.timeliness(),
            None => None,
        }
    }

    /// The colour the delay is shown in, for any stop time: `None` when the scheduled
    /// departure is missing or unreadable, otherwise as `timeliness_color`.
    pub fn shown_timeliness_color(&self) -> (r: Option<&'static str>)
        ensures
            scheduled_clock_seconds(self.next_stop_time) is None ==> r is None,
            r matches Some(t) ==> exists|scheduled: int|
                chrono_min_second() <= scheduled <= chrono_max_second() && t@ == timeliness_color_text(#[trigger] delay_spec(scheduled, seen_departure(self.trip_update))),
    {
        match self.scheduled_seconds() {
            Some(_) => self.timeliness_color(),
            None => None,
        }
    }
}

/// A route with the realtime trips on it.
pub struct Show {
    pub route: RouteModel,
    pub trips: Vec<TripDetail>,
}


/// The route an update claims, read as a number; 0 when it has none or it does not parse.
pub open spec fn update_route_or_zero(u: TripUpdate) -> int {
    match parsed_i64(u.trip.route_id) {
        Some(v) => v,
        None => 0,
    }
}

/// The update is shown on the page of route `route_id`.
pub open spec fn shown_on_route(route_id: i64) -> spec_fn(TripUpdate) -> bool {
    |u: TripUpdate| update_route_or_zero(u) == route_id
}

/// The trip an update names, read as a number; 0 when it has none or it does not parse.
pub open spec fn update_trip_or_zero(u: TripUpdate) -> int {
    match parsed_i64(u.trip.trip_id) {
        Some(v) => v,
        None => 0,
    }
}

/// The trip ids the updates name that parse as numbers, in order.
pub open spec fn update_trip_ids(updates: Seq<TripUpdate>) -> Seq<int> {
    updates.filter_map(|u: TripUpdate| parsed_i64(u.trip.trip_id))
}

/// The realtime updates shown on the page of a route, in feed order.
pub fn updates_for_route(updates: Vec<TripUpdate>, route_id: i64) -> (r: Vec<TripUpdate>)
    ensures
        r@ == updates@.filter(shown_on_route(route_id)),
{
    let ghost orig = updates@;
    let ghost pred = shown_on_route(route_id);
    let mut rest = updates;
    let mut r: Vec<TripUpdate> = Vec::new();
    let ghost mut i: int = 0;
    proof {
        crate::ordering::lemma_filter_none(Seq::<TripUpdate>::empty(), pred);
        assert(orig.subrange(0, 0) =~= Seq::<TripUpdate>::empty());
    }
    while rest.len() > 0
        invariant
            0 <= i <= orig.len(),
            rest@ == orig.subrange(i, orig.len() as int),
            pred == shown_on_route(route_id),
            r@ == orig.subrange(0, i).filter(pred),
        decreases rest@.len(),
    {
        let u = rest.remove(0);
        assert(u == orig[i]);
        proof {
            assert(orig.subrange(0, i + 1) =~= orig.subrange(0, i).push(u));
            orig.subrange(0, i).lemma_filter_push(u, pred);
        }
        let claimed: i64 = match parse_opt_i64(&u.trip.route_id) {
            Some(v) => v,
            None => 0,
        };
        if claimed == route_id {
            r.push(u);
        }
        proof {
            i = i + 1;
        }
        assert(rest@ =~= orig.subrange(i, orig.len() as int));
    }
    assert(orig.subrange(0, i) =~= orig);
    r
}

/// The trip ids of the updates that parse as numbers, in order (the trips to fetch).
pub fn trip_ids_of_updates(updates: &Vec<TripUpdate>) -> (r: Vec<i64>)
    ensures
        r@.map_values(|x: i64| x as int) == update_trip_ids(updates@),
{
    let ghost f = |u: TripUpdate| parsed_i64(u.trip.trip_id);
    let mut r: Vec<i64> = Vec::new();
    let mut i: usize = 0;
    proof {
        assert(updates@.take(0) =~= Seq::<TripUpdate>::empty());
    }
    while i < updates.len()
        invariant
            i <= updates@.len(),
            f == (|u: TripUpdate| parsed_i64(u.trip.trip_id)),
            r@.map_values(|x: i64| x as int) == updates@.take(i as int).filter_map(f),
        decreases updates@.len() - i,
    {
        proof {
            updates@.lemma_filter_map_take_succ(f, i as int);
        }
        let ghost before = r@;
        match parse_opt_i64(&updates[i].trip.trip_id) {
            Some(v) => {
                r.push(v);
                assert(r@.map_values(|x: i64| x as int) =~= before.map_values(|x: i64| x as int) + seq![v as int]);
            },
            None => {},
        }
        i = i + 1;
    }
    assert(updates@.take(updates@.len() as int) =~= updates@);
    r
}

/// Every update names a trip that parses as a number and has a first stop with a
/// stop sequence.
pub open spec fn next_stops_known(updates: Seq<TripUpdate>) -> bool {
    forall|i: int|
        0 <= i < updates.len() ==> {
            &&& parsed_i64(#[trigger] updates[i].trip.trip_id) is Some
            &&& updates[i].stop_time_update@.len() > 0
            &&& updates[i].stop_time_update@[0].stop_sequence is Some
        }
}

/// Whether `next_stops_known` holds.
pub fn next_stops_known_exec(updates: &Vec<TripUpdate>) -> (r: bool)
    ensures
        r == next_stops_known(updates@),
{
    let mut i: usize = 0;
    while i < updates.len()
        invariant
            i <= updates@.len(),
            forall|j: int|
                0 <= j < i ==> {
                    &&& parsed_i64(#[trigger] updates@[j].trip.trip_id) is Some
                    &&& updates@[j].stop_time_update@.len() > 0
                    &&& updates@[j].stop_time_update@[0].stop_sequence is Some
                },
        decreases updates@.len() - i,
    {
        let u = &updates[i];
        match parse_opt_i64(&u.trip.trip_id) {
            Some(_) => {},
            None => {
                return false;
            },
        }
        if u.stop_time_update.len() == 0 {
            return false;
        }
        match u.stop_time_update[0].stop_sequence {
            Some(_) => {},
            None => {
                return false;
            },
        }
        i = i + 1;
    }
    true
}

/// The (trip, stop sequence) of the next stop of each update: the schedule rows to fetch.
pub fn next_stop_keys(updates: &Vec<TripUpdate>) -> (r: Vec<(i64, u32)>)
    requires
        updates@.len() > 0,
        next_stops_known(updates@),
    ensures
        r@.len() == updates@.len(),
        forall|i: int|
            0 <= i < r@.len() ==> Some(#[trigger] r@[i].0 as int) == parsed_i64(updates@[i].trip.trip_id)
                && Some(r@[i].1) == updates@[i].stop_time_update@[0].stop_sequence,
{
    let mut r: Vec<(i64, u32)> = Vec::new();
    let mut i: usize = 0;
    while i < updates.len()
        invariant
            i <= updates@.len(),
            next_stops_known(updates@),
            r@.len() == i,
            forall|j: int|
                0 <= j < i ==> Some(#[trigger] r@[j].0 as int) == parsed_i64(updates@[j].trip.trip_id)
                    && Some(r@[j].1) == updates@[j].stop_time_update@[0].stop_sequence,
        decreases updates@.len() - i,
    {
        let u = &updates[i];
        assert(parsed_i64(updates@[i as int].trip.trip_id) is Some);
        let trip = match parse_opt_i64(&u.trip.trip_id) {
            Some(v) => v,
            None => 0,
        };
        let seq_no = match u.stop_time_update[0].stop_sequence {
            Some(v) => v,
            None => 0,
        };
        r.push((trip, seq_no));
        i = i + 1;
    }
    r
}

/// The index of the first schedule trip with this id.
pub open spec fn first_trip(trips: Seq<TripModel>, id: int) -> int {
    choose|k: int|
        0 <= k < trips.len() && trips[k].trip_id == id && forall|t: int|
            0 <= t < k ==> #[trigger] trips[t].trip_id != id
}

/// Some schedule trip has this id.
pub open spec fn has_trip(trips: Seq<TripModel>, id: int) -> bool {
    exists|k: int| 0 <= k < trips.len() && #[trigger] trips[k].trip_id == id
}

/// The index of the first schedule stop time of this trip.
pub open spec fn first_stop_time(stop_times: Seq<StopTimeModel>, id: int) -> int {
    choose|k: int|
        0 <= k < stop_times.len() && stop_times[k].trip_id == id && forall|t: int|
            0 <= t < k ==> #[trigger] stop_times[t].trip_id != id
}

/// Some schedule stop time belongs to this trip.
pub open spec fn has_stop_time(stop_times: Seq<StopTimeModel>, id: int) -> bool {
    exists|k: int| 0 <= k < stop_times.len() && #[trigger] stop_times[k].trip_id == id
}

/// Finds the first schedule trip with this id.
pub fn find_trip(trips: &Vec<TripModel>, id: i64) -> (r: Option<usize>)
    ensures
        match r {
            Some(k) => has_trip(trips@, id as int) && k as int == first_trip(trips@, id as int)
                && k < trips@.len() && trips@[k as int].trip_id == id,
            None => !has_trip(trips@, id as int),
        },
{
    let mut k: usize = 0;
    while k < trips.len()
        invariant
            k <= trips@.len(),
            forall|t: int| 0 <= t < k ==> #[trigger] trips@[t].trip_id != id,
        decreases trips@.len() - k,
    {
        if trips[k].trip_id == id {
            proof {
                let f = first_trip(trips@, id as int);
                assert(exists|w: int|
                    0 <= w < trips@.len() && trips@[w].trip_id == id && forall|t: int|
                        0 <= t < w ==> #[trigger] trips@[t].trip_id != id);
                if f < k {
                    assert(trips@[f].trip_id != id);
                }
                if k < f {
                    assert(trips@[k as int].trip_id != id);
                }
            }
            return Some(k);
        }
        k = k + 1;
    }
    None
}

/// Finds the first schedule stop time of this trip.
pub fn find_stop_time(stop_times: &Vec<StopTimeModel>, id: i64) -> (r: Option<usize>)
    ensures
        match r {
            Some(k) => has_stop_time(stop_times@, id as int) && k as int == first_stop_time(
                stop_times@,
                id as int,
            ) && k < stop_times@.len() && stop_times@[k as int].trip_id == id,
            None => !has_stop_time(stop_times@, id as int),
        },
{
    let mut k: usize = 0;
    while k < stop_times.len()
        invariant
            k <= stop_times@.len(),
            forall|t: int| 0 <= t < k ==> #[trigger] stop_times@[t].trip_id != id,
        decreases stop_times@.len() - k,
    {
        if stop_times[k].trip_id == id {
            proof {
                let f = first_stop_time(stop_times@, id as int);
                assert(exists|w: int|
                    0 <= w < stop_times@.len() && stop_times@[w].trip_id == id && forall|t: int|
                        0 <= t < w ==> #[trigger] stop_times@[t].trip_id != id);
                if f < k {
                    assert(stop_times@[f].trip_id != id);
                }
                if k < f {
                    assert(stop_times@[k as int].trip_id != id);
                }
            }
            return Some(k);
        }
        k = k + 1;
    }
    None
}

/// Every update has a schedule trip and a next stop time under the trip it names.
pub open spec fn details_available(
    updates: Seq<TripUpdate>,
    trips: Seq<TripModel>,
    stop_times: Seq<StopTimeModel>,
) -> bool {
    forall|i: int| 0 <= i < updates.len() ==> #[trigger] update_available(updates[i], trips, stop_times)
}

/// The update has a schedule trip and a next stop time under the trip it names.
pub open spec fn update_available(
    u: TripUpdate,
    trips: Seq<TripModel>,
    stop_times: Seq<StopTimeModel>,
) -> bool {
    has_trip(trips, update_trip_or_zero(u)) && has_stop_time(stop_times, update_trip_or_zero(u))
}

/// Whether `details_available` holds.
#[verifier::rlimit(40)]
#[verifier::spinoff_prover]
pub fn details_available_exec(
    updates: &Vec<TripUpdate>,
    trips: &Vec<TripModel>,
    stop_times: &Vec<StopTimeModel>,
) -> (r: bool)
    ensures
        r == details_available(updates@, trips@, stop_times@),
{
    let mut i: usize = 0;
    while i < updates.len()
        invariant
            i <= updates@.len(),
            forall|j: int| 0 <= j < i ==> #[trigger] update_available(updates@[j], trips@, stop_times@),
        decreases updates@.len() - i,
    {
        let id: i64 = match parse_opt_i64(&updates[i].trip.trip_id) {
            Some(v) => v,
            None => 0,
        };
        assert(id == update_trip_or_zero(updates@[i as int]));
        match find_trip(trips, id) {
            Some(_) => {},
            None => {
                assert(!update_available(updates@[i as int], trips@, stop_times@));
                return false;
            },
        }
        match find_stop_time(stop_times, id) {
            Some(_) => {},
            None => {
                assert(!update_available(updates@[i as int], trips@, stop_times@));
                return false;
            },
        }
        assert(update_available(updates@[i as int], trips@, stop_times@));
        i = i + 1;
    }
    true
}

/// `d` pairs the update `u` with the first schedule trip under the trip `u` names and
/// the first scheduled stop time of that trip.
pub open spec fn detail_of(
    d: TripDetail,
    u: TripUpdate,
    trips: Seq<TripModel>,
    stop_times: Seq<StopTimeModel>,
) -> bool {
    let id = update_trip_or_zero(u);
    &&& d.trip_update == u
    &&& d.trip == trips[first_trip(trips, id)]
    &&& d.next_stop_time == stop_times[first_stop_time(stop_times, id)]
}

/// Pairs each realtime update with its schedule trip and its next scheduled stop.
pub fn assemble_trip_details(
    updates: Vec<TripUpdate>,
    trips: &Vec<TripModel>,
    stop_times: &Vec<StopTimeModel>,
) -> (r: Vec<TripDetail>)
    requires
        details_available(updates@, trips@, stop_times@),
    ensures
        r@.len() == updates@.len(),
        forall|i: int| 0 <= i < r@.len() ==> #[trigger] detail_of(r@[i], updates@[i], trips@, stop_times@),
{
    let ghost orig = updates@;
    let mut rest = updates;
    let mut r: Vec<TripDetail> = Vec::new();
    let ghost mut i: int = 0;
    while rest.len() > 0
        invariant
            0 <= i <= orig.len(),
            rest@ == orig.subrange(i, orig.len() as int),
            r@.len() == i,
            details_available(orig, trips@, stop_times@),
            forall|j: int| 0 <= j < i ==> #[trigger] detail_of(r@[j], orig[j], trips@, stop_times@),
        decreases rest@.len(),
    {
        let u = rest.remove(0);
        assert(u == orig[i]);
        assert(update_available(orig[i], trips@, stop_times@));
        let id: i64 = match parse_opt_i64(&u.trip.trip_id) {
            Some(v) => v,
            None => 0,
        };
        let k = match find_trip(trips, id) {
            Some(k) => k,
            None => {
                proof {
                    assert(false);
                }
                0
            },
        };
        let s = match find_stop_time(stop_times, id) {
            Some(s) => s,
            None => {
                proof {
                    assert(false);
                }
                0
            },
        };
        let detail = TripDetail {
            trip: trips[k].clone(),
            next_stop_time: stop_times[s].clone(),
            trip_update: u,
        };
        let ghost old_r = r@;
        r.push(detail);
        proof {
            assert(detail_of(r@[i], orig[i], trips@, stop_times@));
            assert forall|j: int| 0 <= j < i + 1 implies #[trigger] detail_of(r@[j], orig[j], trips@, stop_times@) by {
                if j < i {
                    assert(r@[j] == old_r[j]);
                }
            }
            i = i + 1;
        }
        assert(rest@ =~= orig.subrange(i, orig.len() as int));
    }
    r
}


/// The vehicle reports a route that reads as `route_id`.
pub open spec fn vehicle_on_route(route_id: int) -> spec_fn(VehicleRef) -> bool {
    |v: VehicleRef| parsed_i64(v.route_id) == Some(route_id)
}

/// The update is for route `route_id` and names the trip `trip_id`.
pub open spec fn update_matches(u: TripUpdate, route_id: int, trip_id: Option<Seq<char>>) -> bool {
    parsed_i64(u.trip.route_id) == Some(route_id) && opt_view(u.trip.trip_id) == trip_id
}

/// Some update is for this route and trip.
pub open spec fn has_update_for(updates: Seq<TripUpdate>, route_id: int, trip_id: Option<Seq<char>>) -> bool {
    exists|k: int| 0 <= k < updates.len() && #[trigger] update_matches(updates[k], route_id, trip_id)
}

/// The index of the first update for this route and trip.
pub open spec fn first_update_for(updates: Seq<TripUpdate>, route_id: int, trip_id: Option<Seq<char>>) -> int {
    choose|k: int|
        0 <= k < updates.len() && update_matches(updates[k], route_id, trip_id) && forall|t: int|
            0 <= t < k ==> !#[trigger] update_matches(updates[t], route_id, trip_id)
}

/// A vehicle on a route can be listed: it names a trip that reads as a number and
/// that the schedule has.
pub open spec fn vehicle_listable(v: VehicleRef, trips: Seq<TripModel>) -> bool {
    match parsed_i64(v.trip_id) {
        Some(t) => has_trip(trips, t),
        None => false,
    }
}

/// `s` lists the vehicle `v` of route `route_id`: with the first realtime update for
/// the route and the vehicle's trip, if any, and the schedule trip the vehicle names.
pub open spec fn summary_of(
    s: TripSummary,
    v: VehicleRef,
    route_id: int,
    updates: Seq<TripUpdate>,
    trips: Seq<TripModel>,
) -> bool {
    &&& if has_update_for(updates, route_id, opt_view(v.trip_id)) {
        s.trip_update is Some && s.trip_update.unwrap().same(
            updates[first_update_for(updates, route_id, opt_view(v.trip_id))],
        )
    } else {
        s.trip_update is None
    }
    &&& s.trip == trips[first_trip(trips, parsed_i64(v.trip_id).unwrap())]
}

/// Finds the first update for this route and trip.
pub fn find_update(updates: &Vec<TripUpdate>, route_id: i64, trip_id: &Option<String>) -> (r: Option<usize>)
    ensures
        match r {
            Some(k) => has_update_for(updates@, route_id as int, opt_view(*trip_id)) && k
                == first_update_for(updates@, route_id as int, opt_view(*trip_id)) && k < updates@.len(),
            None => !has_update_for(updates@, route_id as int, opt_view(*trip_id)),
        },
{
    let ghost tid = opt_view(*trip_id);
    let mut k: usize = 0;
    while k < updates.len()
        invariant
            k <= updates@.len(),
            tid == opt_view(*trip_id),
            forall|t: int| 0 <= t < k ==> !#[trigger] update_matches(updates@[t], route_id as int, tid),
        decreases updates@.len() - k,
    {
        let u = &updates[k];
        let on_route = match parse_opt_i64(&u.trip.route_id) {
            Some(x) => x == route_id,
            None => false,
        };
        if on_route && opt_string_eq(&u.trip.trip_id, trip_id) {
            proof {
                assert(update_matches(updates@[k as int], route_id as int, tid));
                let f = first_update_for(updates@, route_id as int, tid);
                assert(exists|w: int|
                    0 <= w < updates@.len() && update_matches(updates@[w], route_id as int, tid) && forall|t: int|
                        0 <= t < w ==> !#[trigger] update_matches(updates@[t], route_id as int, tid));
                if f < k {
                    assert(!update_matches(updates@[f], route_id as int, tid));
                }
                if k < f {
                    assert(!update_matches(updates@[k as int], route_id as int, tid));
                }
            }
            return Some(k);
        }
        k = k + 1;
    }
    proof {
        if has_update_for(updates@, route_id as int, tid) {
            let w = choose|w: int| 0 <= w < updates@.len() && #[trigger] update_matches(updates@[w], route_id as int, tid);
            assert(!update_matches(updates@[w], route_id as int, tid));
        }
    }
    None
}

/// Lists one vehicle of a route (see `summary_of`).
pub fn summarize_vehicle(
    v: &VehicleRef,
    route_id: i64,
    updates: &Vec<TripUpdate>,
    trips: &Vec<TripModel>,
) -> (r: TripSummary)
    requires
        vehicle_listable(*v, trips@),
    ensures
        summary_of(r, *v, route_id as int, updates@, trips@),
{
    let trip_update = match find_update(updates, route_id, &v.trip_id) {
        Some(k) => Some(updates[k].clone()),
        None => None,
    };
    let id: i64 = match parse_opt_i64(&v.trip_id) {
        Some(x) => x,
        None => {
            proof {
                assert(false);
            }
            0
        },
    };
    let t = match find_trip(trips, id) {
        Some(t) => t,
        None => {
            proof {
                assert(false);
            }
            0
        },
    };
    TripSummary { trip_update, trip: trips[t].clone() }
}

/// Lists the vehicles of a route in feed order (see `summary_of`).
pub fn summaries_for_route(
    route_id: i64,
    vehicles: &Vec<VehicleRef>,
    updates: &Vec<TripUpdate>,
    trips: &Vec<TripModel>,
) -> (r: Vec<TripSummary>)
    requires
        forall|k: int|
            0 <= k < vehicles@.len() && (vehicle_on_route(route_id as int))(vehicles@[k])
                ==> vehicle_listable(#[trigger] vehicles@[k], trips@),
    ensures
        r@.len() == vehicles@.filter(vehicle_on_route(route_id as int)).len(),
        forall|k: int|
            0 <= k < r@.len() ==> #[trigger] summary_of(
                r@[k],
                vehicles@.filter(vehicle_on_route(route_id as int))[k],
                route_id as int,
                updates@,
                trips@,
            ),
{
    let ghost pred = vehicle_on_route(route_id as int);
    let mut r: Vec<TripSummary> = Vec::new();
    let mut i: usize = 0;
    proof {
        crate::ordering::lemma_filter_none(Seq::<VehicleRef>::empty(), pred);
        assert(vehicles@.subrange(0, 0) =~= Seq::<VehicleRef>::empty());
    }
    while i < vehicles.len()
        invariant
            i <= vehicles@.len(),
            pred == vehicle_on_route(route_id as int),
            forall|k: int|
                0 <= k < vehicles@.len() && pred(vehicles@[k]) ==> vehicle_listable(#[trigger] vehicles@[k], trips@),
            r@.len() == vehicles@.subrange(0, i as int).filter(pred).len(),
            forall|k: int|
                0 <= k < r@.len() ==> #[trigger] summary_of(
                    r@[k],
                    vehicles@.subrange(0, i as int).filter(pred)[k],
                    route_id as int,
                    updates@,
                    trips@,
                ),
        decreases vehicles@.len() - i,
    {
        let v = &vehicles[i];
        let ghost pre = vehicles@.subrange(0, i as int);
        proof {
            assert(vehicles@.subrange(0, i as int + 1) =~= pre.push(*v));
            pre.lemma_filter_push(*v, pred);
        }
        let on_route = match parse_opt_i64(&v.route_id) {
            Some(x) => x == route_id,
            None => false,
        };
        if on_route {
            assert(pred(*v));
            let s = summarize_vehicle(v, route_id, updates, trips);
            let ghost old_r = r@;
            r.push(s);
            proof {
                assert forall|k: int| 0 <= k < r@.len() implies #[trigger] summary_of(
                    r@[k],
                    pre.push(*v).filter(pred)[k],
                    route_id as int,
                    updates@,
                    trips@,
                ) by {
                    if k < old_r.len() {
                        assert(r@[k] == old_r[k]);
                        assert(pre.push(*v).filter(pred)[k] == pre.filter(pred)[k]);
                    }
                }
            }
        }
        i = i + 1;
    }
    assert(vehicles@.subrange(0, vehicles@.len() as int) =~= vehicles@);
    r
}

/// Routes are listed by their short name read as a number (0 when it does not read).
pub open spec fn route_key() -> spec_fn(RouteModel) -> int {
    |r: RouteModel|
        match parsed_i64(r.route_short_name) {
            Some(v) => v,
            None => 0,
        }
}

/// A route whose short name reads as the number `v` is listed under `v` itself.
pub proof fn lemma_route_listed_under_its_number(route: RouteModel, v: int)
    requires
        parsed_i64(route.route_short_name) == Some(v),
    ensures
        (route_key())(route) == v,
{
}

/// In a listing, routes whose short names read as numbers come in increasing numeric
/// order.
pub proof fn lemma_numeric_routes_in_order(
    out: Seq<RouteModel>,
    inp: Seq<RouteModel>,
    i: int,
    j: int,
    a: int,
    b: int,
)
    requires
        stable_sorted(out, inp, route_key()),
        0 <= i < j < out.len(),
        parsed_i64(out[i].route_short_name) == Some(a),
        parsed_i64(out[j].route_short_name) == Some(b),
    ensures
        a <= b,
{
    lemma_route_listed_under_its_number(out[i], a);
    lemma_route_listed_under_its_number(out[j], b);
    assert((route_key())(out[i]) <= (route_key())(out[j]));
}

/// The listing order of a route: its short name read as a number, or 0.
pub fn route_sort_key(route: &RouteModel) -> (r: i64)
    ensures
        r == (route_key())(*route),
        parsed_i64(route.route_short_name) matches Some(v) ==> r == v,
        parsed_i64(route.route_short_name) is None ==> r == 0,
{
    match parse_opt_i64(&route.route_short_name) {
        Some(v) => v,
        None => 0,
    }
}

/// The routes in listing order; routes with equal keys keep their order.
pub fn sort_routes(routes: Vec<RouteModel>) -> (r: Vec<RouteModel>)
    ensures
        stable_sorted(r@, routes@, route_key()),
        forall|i: int, j: int|
            0 <= i < j < r@.len() && parsed_i64(#[trigger] r@[i].route_short_name) is Some
                && parsed_i64(#[trigger] r@[j].route_short_name) is Some ==> parsed_i64(
                r@[i].route_short_name,
            ).unwrap() <= parsed_i64(r@[j].route_short_name).unwrap(),
{
    let ghost orig = routes@;
    let mut rest = routes;
    let mut r: Vec<RouteModel> = Vec::new();
    let mut keys: Vec<i64> = Vec::new();
    let ghost mut i: int = 0;
    proof {
        lemma_stable_sorted_empty(route_key());
        assert(orig.subrange(0, 0) =~= Seq::<RouteModel>::empty());
    }
    while rest.len() > 0
        invariant
            0 <= i <= orig.len(),
            rest@ == orig.subrange(i, orig.len() as int),
            keys@.len() == r@.len(),
            forall|j: int| 0 <= j < r@.len() ==> keys@[j] == (route_key())(#[trigger] r@[j]),
            stable_sorted(r@, orig.subrange(0, i), route_key()),
        decreases rest@.len(),
    {
        let x = rest.remove(0);
        assert(x == orig[i]);
        let k = route_sort_key(&x);
        let mut p: usize = 0;
        while p < keys.len() && keys[p] <= k
            invariant
                p <= keys@.len(),
                keys@.len() == r@.len(),
                forall|j: int| 0 <= j < r@.len() ==> keys@[j] == (route_key())(#[trigger] r@[j]),
                forall|j: int| 0 <= j < p ==> (route_key())(#[trigger] r@[j]) <= k,
            decreases keys@.len() - p,
        {
            p = p + 1;
        }
        proof {
            assert forall|j: int| p <= j < r@.len() implies (route_key())(#[trigger] r@[j]) > k by {
                assert((route_key())(r@[p as int]) > k);
                if j > p {
                    assert((route_key())(r@[p as int]) <= (route_key())(r@[j]));
                }
            }
            lemma_stable_insert(r@, orig.subrange(0, i), route_key(), x, p as int);
            assert(orig.subrange(0, i + 1) =~= orig.subrange(0, i).push(x));
        }
        let ghost old_r = r@;
        let ghost old_keys = keys@;
        r.insert(p, x);
        keys.insert(p, k);
        proof {
            assert forall|j: int| 0 <= j < r@.len() implies keys@[j] == (route_key())(#[trigger] r@[j]) by {
                if j < p {
                    assert(r@[j] == old_r[j] && keys@[j] == old_keys[j]);
                } else if j > p {
                    assert(r@[j] == old_r[j - 1] && keys@[j] == old_keys[j - 1]);
                }
            }
            i = i + 1;
        }
        assert(rest@ =~= orig.subrange(i, orig.len() as int));
    }
    assert(orig.subrange(0, i) =~= orig);
    proof {
        assert forall|i: int, j: int|
            0 <= i < j < r@.len() && parsed_i64(#[trigger] r@[i].route_short_name) is Some
                && parsed_i64(#[trigger] r@[j].route_short_name) is Some implies parsed_i64(
                r@[i].route_short_name,
            ).unwrap() <= parsed_i64(r@[j].route_short_name).unwrap() by {
            lemma_numeric_routes_in_order(
                r@,
                orig,
                i,
                j,
                parsed_i64(r@[i].route_short_name).unwrap(),
                parsed_i64(r@[j].route_short_name).unwrap(),
            );
        }
    }
    r
}

/// The routes of an index listing.
pub open spec fn routes_of(ix: Seq<Index>) -> Seq<RouteModel> {
    ix.map_values(|x: Index| x.route)
}

/// No route before position `i` has the id of the route at `i`.
pub open spec fn first_of_id(routes: Seq<RouteModel>, i: int) -> bool {
    forall|j: int| 0 <= j < i ==> #[trigger] routes[j].route_id != routes[i].route_id
}

/// The vehicles listed under the route at position `i`: those reporting its id, unless
/// an earlier route with the same id has already taken them.
pub open spec fn vehicles_listed(routes: Seq<RouteModel>, i: int, vehicles: Seq<VehicleRef>) -> Seq<VehicleRef> {
    if first_of_id(routes, i) {
        vehicles.filter(vehicle_on_route(routes[i].route_id as int))
    } else {
        Seq::empty()
    }
}

/// Entry `i` of an index listing lists the vehicles of its route (see `summary_of`).
pub open spec fn index_entry_ok(
    ix: Seq<Index>,
    i: int,
    vehicles: Seq<VehicleRef>,
    updates: Seq<TripUpdate>,
    trips: Seq<TripModel>,
) -> bool {
    let listed = vehicles_listed(routes_of(ix), i, vehicles);
    &&& ix[i].trips@.len() == listed.len()
    &&& forall|k: int|
        0 <= k < listed.len() ==> #[trigger] summary_of(
            ix[i].trips@[k],
            listed[k],
            ix[i].route.route_id as int,
            updates,
            trips,
        )
}

/// Every vehicle that reports one of the routes names a trip the schedule has (the
/// listing cannot be built otherwise).
pub open spec fn index_ready(routes: Seq<RouteModel>, vehicles: Seq<VehicleRef>, trips: Seq<TripModel>) -> bool {
    forall|j: int, k: int|
        #![trigger routes[j], vehicles[k]]
        0 <= j < routes.len() && 0 <= k < vehicles.len() && (vehicle_on_route(
            routes[j].route_id as int,
        ))(vehicles[k]) ==> vehicle_listable(vehicles[k], trips)
}

/// Whether `index_ready` holds.
pub fn index_ready_exec(routes: &Vec<RouteModel>, vehicles: &Vec<VehicleRef>, trips: &Vec<TripModel>) -> (r: bool)
    ensures
        r == index_ready(routes@, vehicles@, trips@),
{
    let mut k: usize = 0;
    while k < vehicles.len()
        invariant
            k <= vehicles@.len(),
            forall|j: int, q: int|
                #![trigger routes@[j], vehicles@[q]]
                0 <= j < routes@.len() && 0 <= q < k && (vehicle_on_route(routes@[j].route_id as int))(
                    vehicles@[q],
                ) ==> vehicle_listable(vehicles@[q], trips@),
        decreases vehicles@.len() - k,
    {
        let v = &vehicles[k];
        match parse_opt_i64(&v.route_id) {
            Some(rid) => {
                let mut j: usize = 0;
                let mut on_some = false;
                while j < routes.len() && !on_some
                    invariant
                        j <= routes@.len(),
                        on_some ==> j < routes@.len() && routes@[j as int].route_id == rid,
                        !on_some ==> forall|t: int| 0 <= t < j ==> #[trigger] routes@[t].route_id != rid,
                    decreases routes@.len() - j + (if on_some { 0int } else { 1int }),
                {
                    if routes[j].route_id == rid {
                        on_some = true;
                    } else {
                        j = j + 1;
                    }
                }
                if on_some {
                    let listable = match parse_opt_i64(&v.trip_id) {
                        Some(t) => match find_trip(trips, t) {
                            Some(_) => true,
                            None => false,
                        },
                        None => false,
                    };
                    if !listable {
                        proof {
                            assert(routes@[j as int] == routes@[j as int]);
                            assert(vehicles@[k as int] == vehicles@[k as int]);
                            assert(!vehicle_listable(vehicles@[k as int], trips@));
                        }
                        return false;
                    }
                    assert(vehicle_listable(vehicles@[k as int], trips@));
                }
            },
            None => {},
        }
        k = k + 1;
    }
    true
}

/// The bus route listing: the routes in listing order, each with the vehicles on it
/// and their realtime updates.
pub fn build_route_index(
    routes: Vec<RouteModel>,
    vehicles: &Vec<VehicleRef>,
    updates: &Vec<TripUpdate>,
    trips: &Vec<TripModel>,
) -> (r: Vec<Index>)
    requires
        index_ready(routes@, vehicles@, trips@),
    ensures
        stable_sorted(routes_of(r@), routes@, route_key()),
        forall|i: int| 0 <= i < r@.len() ==> #[trigger] index_entry_ok(r@, i, vehicles@, updates@, trips@),
{
    let ghost input = routes@;
    let sorted = sort_routes(routes);
    let ghost sv = sorted@;
    let mut ids: Vec<i64> = Vec::new();
    let mut q: usize = 0;
    while q < sorted.len()
        invariant
            q <= sorted@.len(),
            ids@.len() == q,
            forall|t: int| 0 <= t < q ==> ids@[t] == #[trigger] sorted@[t].route_id,
        decreases sorted@.len() - q,
    {
        ids.push(sorted[q].route_id);
        q = q + 1;
    }
    let mut rest = sorted;
    let mut r: Vec<Index> = Vec::new();
    while rest.len() > 0
        invariant
            r@.len() <= sv.len(),
            rest@ == sv.subrange(r@.len() as int, sv.len() as int),
            ids@.len() == sv.len(),
            forall|t: int| 0 <= t < sv.len() ==> ids@[t] == #[trigger] sv[t].route_id,
            stable_sorted(sv, input, route_key()),
            index_ready(input, vehicles@, trips@),
            routes_of(r@) == sv.subrange(0, r@.len() as int),
            forall|i: int| 0 <= i < r@.len() ==> #[trigger] index_entry_ok(r@, i, vehicles@, updates@, trips@),
        decreases rest@.len(),
    {
        let n = r.len();
        let route = rest.remove(0);
        assert(route == sv[n as int]);
        let id = route.route_id;
        let mut first = true;
        let mut t: usize = 0;
        while t < n
            invariant
                t <= n,
                n < ids@.len(),
                ids@[n as int] == id,
                first == forall|u: int| 0 <= u < t ==> #[trigger] ids@[u] != id,
            decreases n - t,
        {
            if ids[t] == id {
                first = false;
            }
            t = t + 1;
        }
        assert(first == first_of_id(sv.subrange(0, n as int + 1), n as int)) by {
            assert forall|u: int| 0 <= u < n implies #[trigger] ids@[u] == sv.subrange(0, n as int + 1)[u].route_id by {}
        }
        let listed = if first {
            proof {
                lemma_stable_sorted_member(sv, input, route_key(), n as int);
                let j = choose|j: int| 0 <= j < input.len() && input[j] == sv[n as int];
                assert forall|k: int|
                    0 <= k < vehicles@.len() && (vehicle_on_route(id as int))(vehicles@[k]) implies vehicle_listable(
                    #[trigger] vehicles@[k],
                    trips@,
                ) by {
                    assert(input[j] == input[j]);
                    assert(vehicles@[k] == vehicles@[k]);
                }
            }
            summaries_for_route(id, vehicles, updates, trips)
        } else {
            Vec::new()
        };
        let ghost old_r = r@;
        r.push(Index { route, trips: listed });
        proof {
            assert(routes_of(r@) =~= sv.subrange(0, r@.len() as int)) by {
                assert forall|u: int| 0 <= u < r@.len() implies #[trigger] routes_of(r@)[u] == sv.subrange(0, r@.len() as int)[u] by {
                    if u < n {
                        assert(r@[u] == old_r[u]);
                        assert(routes_of(old_r)[u] == sv.subrange(0, n as int)[u]);
                    }
                }
            }
            assert forall|i: int| 0 <= i < r@.len() implies #[trigger] index_entry_ok(r@, i, vehicles@, updates@, trips@) by {
                if i < n {
                    assert(index_entry_ok(old_r, i, vehicles@, updates@, trips@));
                    assert(r@[i] == old_r[i]);
                    assert forall|u: int| 0 <= u <= i implies #[trigger] routes_of(r@)[u] == routes_of(old_r)[u] by {
                        assert(r@[u] == old_r[u]);
                    }
                    assert(vehicles_listed(routes_of(r@), i, vehicles@) == vehicles_listed(routes_of(old_r), i, vehicles@)) by {
                        assert(first_of_id(routes_of(r@), i) == first_of_id(routes_of(old_r), i));
                    }
                } else {
                    assert(routes_of(r@)[i] == sv[n as int]);
                    assert(first_of_id(routes_of(r@), i) == first);
                    assert forall|u: int| 0 <= u < n implies #[trigger] routes_of(r@)[u].route_id == ids@[u] by {
                        assert(routes_of(r@)[u] == sv[u]);
                    }
                }
            }
        }
        assert(rest@ =~= sv.subrange(r@.len() as int, sv.len() as int));
    }
    assert(sv.subrange(0, r@.len() as int) =~= sv);
    r
}

/// The route ids the vehicles report that read as numbers, in order (the routes to fetch).
pub fn route_ids_of_vehicles(vehicles: &Vec<VehicleRef>) -> (r: Vec<i64>)
    ensures
        r@.map_values(|x: i64| x as int) == vehicles@.filter_map(|v: VehicleRef| parsed_i64(v.route_id)),
{
    let ghost f = |v: VehicleRef| parsed_i64(v.route_id);
    let mut r: Vec<i64> = Vec::new();
    let mut i: usize = 0;
    proof {
        assert(vehicles@.take(0) =~= Seq::<VehicleRef>::empty());
    }
    while i < vehicles.len()
        invariant
            i <= vehicles@.len(),
            f == (|v: VehicleRef| parsed_i64(v.route_id)),
            r@.map_values(|x: i64| x as int) == vehicles@.take(i as int).filter_map(f),
        decreases vehicles@.len() - i,
    {
        proof {
            vehicles@.lemma_filter_map_take_succ(f, i as int);
        }
        let ghost before = r@;
        match parse_opt_i64(&vehicles[i].route_id) {
            Some(v) => {
                r.push(v);
                assert(r@.map_values(|x: i64| x as int) =~= before.map_values(|x: i64| x as int) + seq![v as int]);
            },
            None => {},
        }
        i = i + 1;
    }
    assert(vehicles@.take(vehicles@.len() as int) =~= vehicles@);
    r
}

/// The trip ids the vehicles report that read as numbers, in order (the trips to fetch).
pub fn trip_ids_of_vehicles(vehicles: &Vec<VehicleRef>) -> (r: Vec<i64>)
    ensures
        r@.map_values(|x: i64| x as int) == vehicles@.filter_map(|v: VehicleRef| parsed_i64(v.trip_id)),
{
    let ghost f = |v: VehicleRef| parsed_i64(v.trip_id);
    let mut r: Vec<i64> = Vec::new();
    let mut i: usize = 0;
    proof {
        assert(vehicles@.take(0) =~= Seq::<VehicleRef>::empty());
    }
    while i < vehicles.len()
        invariant
            i <= vehicles@.len(),
            f == (|v: VehicleRef| parsed_i64(v.trip_id)),
            r@.map_values(|x: i64| x as int) == vehicles@.take(i as int).filter_map(f),
        decreases vehicles@.len() - i,
    {
        proof {
            vehicles@.lemma_filter_map_take_succ(f, i as int);
        }
        let ghost before = r@;
        match parse_opt_i64(&vehicles[i].trip_id) {
            Some(v) => {
                r.push(v);
                assert(r@.map_values(|x: i64| x as int) =~= before.map_values(|x: i64| x as int) + seq![v as int]);
            },
            None => {},
        }
        i = i + 1;
    }
    assert(vehicles@.take(vehicles@.len() as int) =~= vehicles@);
    r
}
} // verus!
