//! The stop search page: the name pattern it looks stops up by, and which realtime
//! trips and vehicles it shows for the stops found.
use vstd::prelude::*;

use crate::ordering::lemma_filter_none;
use crate::text::{chars_of, parse_i64, parse_i64_spec, push_char, views};
use crate::transit::{opt_view, StopTimeUpdate, TripUpdate};

verus! {

broadcast use {vstd::seq_lib::group_seq_properties, vstd::seq::group_seq_axioms};

/// The SQL `LIKE` pattern for a stop search: every space becomes `%`, and the whole is
/// wrapped in `%` so the words may appear anywhere in the stop's name.
pub open spec fn name_pattern(name: Seq<char>) -> Seq<char> {
    seq!['%'] + name.map_values(|c: char| if c == ' ' { '%' } else { c }) + seq!['%']
}

/// The search pattern keeps the typed name in place between two `%`, with every space
/// turned into `%`: no space is left, and every other character stays where it was.
pub proof fn lemma_pattern_replaces_every_space(name: Seq<char>)
    ensures
        name_pattern(name).len() == name.len() + 2,
        name_pattern(name)[0] == '%',
        name_pattern(name)[name.len() as int + 1] == '%',
        forall|i: int| 0 <= i < name_pattern(name).len() ==> #[trigger] name_pattern(name)[i] != ' ',
        forall|i: int|
            0 <= i < name.len() ==> #[trigger] name_pattern(name)[i + 1] == (if name[i] == ' ' {
                '%'
            } else {
                name[i]
            }),
{
    let p = name_pattern(name);
    assert forall|i: int| 0 <= i < p.len() implies #[trigger] p[i] != ' ' by {
        if 1 <= i <= name.len() {
            assert(p[i] == (if name[i - 1] == ' ' { '%' } else { name[i - 1] }));
        }
    }
}

/// The `LIKE` pattern for a stop search.
pub fn stop_name_pattern(name: &str) -> (r: String)
    ensures
        r@ == name_pattern(name@),
        forall|i: int| 0 <= i < r@.len() ==> #[trigger] r@[i] != ' ',
{
    let cs = chars_of(name);
    let mut r = String::new();
    push_char(&mut r, '%');
    let mut i: usize = 0;
    while i < cs.len()
        invariant
            cs@ == name@,
            i <= cs@.len(),
            r@ == seq!['%'] + cs@.subrange(0, i as int).map_values(
                |c: char|
                    if c == ' ' {
                        '%'
                    } else {
                        c
                    },
            ),
        decreases cs@.len() - i,
    {
        let c = cs[i];
        if c == ' ' {
            push_char(&mut r, '%');
        } else {
            push_char(&mut r, c);
        }
        i = i + 1;
        assert(r@ =~= seq!['%'] + cs@.subrange(0, i as int).map_values(
            |c: char|
                if c == ' ' {
                    '%'
                } else {
                    c
                },
        ));
    }
    push_char(&mut r, '%');
    assert(cs@.subrange(0, cs@.len() as int) =~= cs@);
    assert(r@ =~= name_pattern(name@));
    proof {
        lemma_pattern_replaces_every_space(name@);
    }
    r
}

/// The stop id of a stop prediction read as a number; a missing id reads as 0.
pub open spec fn stop_id_value(stu: StopTimeUpdate) -> Option<int> {
    match stu.stop_id {
        Some(s) => parse_i64_spec(s@),
        None => Some(0),
    }
}

/// The prediction is for one of the stops found.
pub open spec fn at_found_stop(stu: StopTimeUpdate, stop_ids: Seq<i64>) -> bool {
    match stop_id_value(stu) {
        Some(v) => exists|k: int| 0 <= k < stop_ids.len() && #[trigger] stop_ids[k] == v,
        None => false,
    }
}

/// Scanning the predictions for a found stop meets no unreadable stop id before it
/// stops (the page cannot be built otherwise).
pub open spec fn scan_readable(stus: Seq<StopTimeUpdate>, stop_ids: Seq<i64>) -> bool {
    forall|k: int|
        0 <= k < stus.len() && (forall|j: int| 0 <= j < k ==> !at_found_stop(#[trigger] stus[j], stop_ids))
            ==> #[trigger] stop_id_value(stus[k]) is Some
}

/// The trip passes one of the stops found.
pub open spec fn passes_found_stop(stop_ids: Seq<i64>) -> spec_fn(TripUpdate) -> bool {
    |u: TripUpdate|
        exists|k: int|
            0 <= k < u.stop_time_update@.len() && #[trigger] at_found_stop(u.stop_time_update@[k], stop_ids)
}

/// Whether the prediction is for one of the stops found; `None` when its id is unreadable.
fn stop_matches(stu: &StopTimeUpdate, stop_ids: &Vec<i64>) -> (r: Option<bool>)
    ensures
        match r {
            Some(b) => stop_id_value(*stu) is Some && b == at_found_stop(*stu, stop_ids@),
            None => stop_id_value(*stu) is None,
        },
{
    let v: i64 = match &stu.stop_id {
        Some(s) => match parse_i64(s.as_str()) {
            Some(v) => v,
            None => {
                return None;
            },
        },
        None => 0,
    };
    let mut k: usize = 0;
    while k < stop_ids.len()
        invariant
            k <= stop_ids@.len(),
            stop_id_value(*stu) == Some(v as int),
            forall|t: int| 0 <= t < k ==> #[trigger] stop_ids@[t] != v,
        decreases stop_ids@.len() - k,
    {
        if stop_ids[k] == v {
            return Some(true);
        }
        k = k + 1;
    }
    Some(false)
}

/// Whether every update's scan is readable (see `scan_readable`).
pub fn scans_readable(updates: &Vec<TripUpdate>, stop_ids: &Vec<i64>) -> (r: bool)
    ensures
        r == forall|i: int| 0 <= i < updates@.len() ==> scan_readable(#[trigger] updates@[i].stop_time_update@, stop_ids@),
{
    let mut i: usize = 0;
    while i < updates.len()
        invariant
            i <= updates@.len(),
            forall|j: int| 0 <= j < i ==> scan_readable(#[trigger] updates@[j].stop_time_update@, stop_ids@),
        decreases updates@.len() - i,
    {
        let stus = &updates[i].stop_time_update;
        let mut k: usize = 0;
        let mut done = false;
        while k < stus.len() && !done
            invariant
                k <= stus@.len(),
                i < updates@.len(),
                stus@ == updates@[i as int].stop_time_update@,
                forall|j: int| 0 <= j < k ==> !at_found_stop(#[trigger] stus@[j], stop_ids@),
                forall|j: int| 0 <= j < k ==> #[trigger] stop_id_value(stus@[j]) is Some,
                done ==> k < stus@.len() && at_found_stop(stus@[k as int], stop_ids@),
            decreases stus@.len() - k + (if done { 0int } else { 1int }),
        {
            match stop_matches(&stus[k], stop_ids) {
                Some(true) => {
                    done = true;
                },
                Some(false) => {
                    k = k + 1;
                },
                None => {
                    proof {
                        assert(stop_id_value(stus@[k as int]) is None);
                        assert(!scan_readable(stus@, stop_ids@));
                        assert(stus@ == updates@[i as int].stop_time_update@);
                    }
                    return false;
                },
            }
        }
        proof {
            assert forall|q: int|
                0 <= q < stus@.len() && (forall|j: int| 0 <= j < q ==> !at_found_stop(#[trigger] stus@[j], stop_ids@))
                    implies #[trigger] stop_id_value(stus@[q]) is Some by {
                if q > k {
                    assert(!at_found_stop(stus@[k as int], stop_ids@));
                }
                if q == k {
                    assert(at_found_stop(stus@[k as int], stop_ids@));
                }
            }
        }
        i = i + 1;
    }
    true
}

/// The realtime trips that pass one of the stops found, in feed order.
pub fn updates_at_stops(updates: Vec<TripUpdate>, stop_ids: &Vec<i64>) -> (r: Vec<TripUpdate>)
    requires
        forall|i: int| 0 <= i < updates@.len() ==> scan_readable(#[trigger] updates@[i].stop_time_update@, stop_ids@),
    ensures
        r@ == updates@.filter(passes_found_stop(stop_ids@)),
{
    let ghost orig = updates@;
    let ghost pred = passes_found_stop(stop_ids@);
    let mut rest = updates;
    let mut r: Vec<TripUpdate> = Vec::new();
    let ghost mut i: int = 0;
    proof {
        lemma_filter_none(Seq::<TripUpdate>::empty(), pred);
        assert(orig.subrange(0, 0) =~= Seq::<TripUpdate>::empty());
    }
    while rest.len() > 0
        invariant
            0 <= i <= orig.len(),
            rest@ == orig.subrange(i, orig.len() as int),
            pred == passes_found_stop(stop_ids@),
            forall|q: int| 0 <= q < orig.len() ==> scan_readable(#[trigger] orig[q].stop_time_update@, stop_ids@),
            r@ == orig.subrange(0, i).filter(pred),
        decreases rest@.len(),
    {
        let u = rest.remove(0);
        assert(u == orig[i]);
        assert(scan_readable(u.stop_time_update@, stop_ids@));
        proof {
            assert(orig.subrange(0, i + 1) =~= orig.subrange(0, i).push(u));
            orig.subrange(0, i).lemma_filter_push(u, pred);
        }
        let mut k: usize = 0;
        let mut hit = false;
        while k < u.stop_time_update.len() && !hit
            invariant
                k <= u.stop_time_update@.len(),
                scan_readable(u.stop_time_update@, stop_ids@),
                forall|j: int| 0 <= j < k ==> !at_found_stop(#[trigger] u.stop_time_update@[j], stop_ids@),
                hit ==> k < u.stop_time_update@.len() && at_found_stop(u.stop_time_update@[k as int], stop_ids@),
            decreases u.stop_time_update@.len() - k + (if hit { 0int } else { 1int }),
        {
            assert(stop_id_value(u.stop_time_update@[k as int]) is Some);
            match stop_matches(&u.stop_time_update[k], stop_ids) {
                Some(true) => {
                    hit = true;
                },
                _ => {
                    k = k + 1;
                },
            }
        }
        assert(hit == pred(u));
        if hit {
            r.push(u);
        }
        proof {
            i = i + 1;
        }
        assert(rest@ =~= orig.subrange(i, orig.len() as int));
    }
    assert(orig.subrange(0, i) =~= orig);
    r
}

/// The trip ids the updates name, in order.
pub fn trip_ids_named(updates: &Vec<TripUpdate>) -> (r: Vec<String>)
    ensures
        views(r@) == updates@.filter_map(|u: TripUpdate| opt_view(u.trip.trip_id)),
{
    let ghost f = |u: TripUpdate| opt_view(u.trip.trip_id);
    let mut r: Vec<String> = Vec::new();
    let mut i: usize = 0;
    proof {
        assert(updates@.take(0) =~= Seq::<TripUpdate>::empty());
    }
    while i < updates.len()
        invariant
            i <= updates@.len(),
            f == (|u: TripUpdate| opt_view(u.trip.trip_id)),
            views(r@) == updates@.take(i as int).filter_map(f),
        decreases updates@.len() - i,
    {
        proof {
            updates@.lemma_filter_map_take_succ(f, i as int);
        }
        let ghost before = views(r@);
        match &updates[i].trip.trip_id {
            Some(t) => {
                r.push(t.clone());
                assert(views(r@) =~= before + seq![t@]);
            },
            None => {},
        }
        i = i + 1;
    }
    assert(updates@.take(updates@.len() as int) =~= updates@);
    r
}

/// A vehicle is shown when it runs one of the listed trips.
pub fn runs_listed_trip(trip_id: &Option<String>, ids: &Vec<String>) -> (r: bool)
    ensures
        r == match opt_view(*trip_id) {
            Some(t) => views(ids@).contains(t),
            None => false,
        },
{
    match trip_id {
        Some(t) => {
            let mut k: usize = 0;
            while k < ids.len()
                invariant
                    k <= ids@.len(),
                    opt_view(*trip_id) == Some(t@),
                    forall|j: int| 0 <= j < k ==> #[trigger] ids@[j]@ != t@,
                decreases ids@.len() - k,
            {
                if ids[k] == *t {
                    assert(ids@[k as int]@ == t@);
                    assert(views(ids@)[k as int] == ids@[k as int]@);
                    assert(views(ids@).contains(t@));
                    return true;
                }
                k = k + 1;
            }
            assert forall|j: int| 0 <= j < views(ids@).len() implies views(ids@)[j] != t@ by {
                assert(views(ids@)[j] == ids@[j]@);
            }
            false
        },
        None => false,
    }
}

} // verus!
