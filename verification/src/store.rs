//! The arrivals of one feed fetch, grouped by station, and the views the
//! arrivals board takes of them.
use std::sync::Arc;
use vstd::prelude::*;

use crate::marta::{
    normalised_station, share_arrival, share_arrivals, spec_station_names,
    station_names, Station, TrainArrival,
};
use crate::ordering::{lemma_filter_none, lemma_stable_insert, sorted_by, stable_sorted};
use crate::text::{copy_str, str_eq};

verus! {

broadcast use {vstd::seq_lib::group_seq_properties, vstd::seq::group_seq_axioms};

/// Arrivals are ordered by how long until the train comes.
pub open spec fn wait_key() -> spec_fn(Arc<TrainArrival>) -> int {
    |a: Arc<TrainArrival>| a.waiting_seconds as int
}

/// The arrival is at the named station.
pub open spec fn at_station(name: Seq<char>) -> spec_fn(Arc<TrainArrival>) -> bool {
    |a: Arc<TrainArrival>| a.station@ == name
}

/// The arrival belongs to the given train.
pub open spec fn of_train(train_id: Seq<char>) -> spec_fn(Arc<TrainArrival>) -> bool {
    |a: Arc<TrainArrival>| a.train_id@ == train_id
}

/// `out` is `inp` with its station normalised (see `TrainArrival::mutate`).
pub open spec fn normalised_from(out: TrainArrival, inp: TrainArrival) -> bool {
    out.station@ == normalised_station(inp.station@) && out.same_but_station(inp)
}

/// Each arrival of `out` is the normalised form of the arrival of `inp` at the same place.
pub open spec fn normalised_seq(out: Seq<Arc<TrainArrival>>, inp: Seq<TrainArrival>) -> bool {
    out.len() == inp.len() && forall|i: int| 0 <= i < out.len() ==> normalised_from(*#[trigger] out[i], inp[i])
}

/// No two stations of `groups` share a name.
pub open spec fn distinct_names(groups: Seq<Station>) -> bool {
    forall|i: int, j: int|
        0 <= i < groups.len() && 0 <= j < groups.len() && i != j ==> #[trigger] groups[i].name@
            != #[trigger] groups[j].name@
}

/// Some station of `groups` has this name.
pub open spec fn has_name(groups: Seq<Station>, name: Seq<char>) -> bool {
    exists|j: int| 0 <= j < groups.len() && #[trigger] groups[j].name@ == name
}

/// The arrivals listed under `name`, or none when no station has that name.
pub open spec fn lookup(groups: Seq<Station>, name: Seq<char>) -> Seq<Arc<TrainArrival>> {
    if has_name(groups, name) {
        groups[choose|j: int| 0 <= j < groups.len() && #[trigger] groups[j].name@ == name].arrivals@
    } else {
        Seq::empty()
    }
}

/// All arrivals of `groups`, station after station.
pub open spec fn all_arrivals(groups: Seq<Station>) -> Seq<Arc<TrainArrival>>
    decreases groups.len(),
{
    if groups.len() == 0 {
        Seq::empty()
    } else {
        all_arrivals(groups.drop_last()) + groups.last().arrivals@
    }
}

/// `groups` is how `m` groups by station: one station per name that occurs in `m`,
/// each holding the arrivals at it, ordered by waiting time and, between equal waits,
/// in feed order.
pub open spec fn grouped_from(groups: Seq<Station>, m: Seq<Arc<TrainArrival>>) -> bool {
    &&& distinct_names(groups)
    &&& forall|name: Seq<char>| #[trigger]
        has_name(groups, name) <==> exists|k: int| 0 <= k < m.len() && #[trigger] m[k].station@ == name
    &&& forall|name: Seq<char>|
        stable_sorted(#[trigger] lookup(groups, name), m.filter(at_station(name)), wait_key())
}

/// The direction's place on the board: north, south, east, then everything else.
pub open spec fn direction_rank(d: Seq<char>) -> int {
    if d == "N"@ {
        0
    } else if d == "S"@ {
        1
    } else if d == "E"@ {
        2
    } else {
        3
    }
}

/// Arrivals on the board are ordered by direction.
pub open spec fn rank_key() -> spec_fn(Arc<TrainArrival>) -> int {
    |a: Arc<TrainArrival>| direction_rank(a.direction@)
}

/// The first arrival of each direction, in order: an arrival is kept when no earlier
/// arrival goes the same direction.
pub open spec fn first_per_direction(s: Seq<Arc<TrainArrival>>) -> Seq<Arc<TrainArrival>>
    decreases s.len(),
{
    if s.len() == 0 {
        Seq::empty()
    } else if has_direction(s.drop_last(), s.last().direction@) {
        first_per_direction(s.drop_last())
    } else {
        first_per_direction(s.drop_last()).push(s.last())
    }
}

/// All arrivals that one fetch of the feed reported, grouped by station.
pub struct TrainStore {
    stations: Vec<Station>,
}

/// Where to insert an arrival waiting `k` seconds: after every arrival that waits no longer.
fn wait_insertion_point(v: &Vec<Arc<TrainArrival>>, k: i64) -> (p: usize)
    requires
        sorted_by(v@, wait_key()),
    ensures
        p <= v@.len(),
        forall|i: int| 0 <= i < p ==> (wait_key())(#[trigger] v@[i]) <= k,
        forall|i: int| p <= i < v@.len() ==> (wait_key())(#[trigger] v@[i]) > k,
{
    let mut p: usize = 0;
    while p < v.len()
        invariant
            p <= v@.len(),
            sorted_by(v@, wait_key()),
            forall|i: int| 0 <= i < p ==> (wait_key())(#[trigger] v@[i]) <= k,
        decreases v@.len() - p,
    {
        if v[p].waiting_seconds > k {
            assert forall|i: int| p <= i < v@.len() implies (wait_key())(#[trigger] v@[i]) > k by {
                if i > p {
                    assert((wait_key())(v@[p as int]) <= (wait_key())(v@[i]));
                }
            }
            return p;
        }
        p = p + 1;
    }
    p
}

/// The place of a direction on the board.
pub fn direction_rank_exec(d: &str) -> (r: i64)
    ensures
        r == direction_rank(d@),
{
    if str_eq(d, "N") {
        0
    } else if str_eq(d, "S") {
        1
    } else if str_eq(d, "E") {
        2
    } else {
        3
    }
}

/// Where to insert an arrival of direction rank `k`: after every arrival ranked no later.
fn rank_insertion_point(v: &Vec<Arc<TrainArrival>>, k: i64) -> (p: usize)
    requires
        sorted_by(v@, rank_key()),
    ensures
        p <= v@.len(),
        forall|i: int| 0 <= i < p ==> (rank_key())(#[trigger] v@[i]) <= k,
        forall|i: int| p <= i < v@.len() ==> (rank_key())(#[trigger] v@[i]) > k,
{
    let mut p: usize = 0;
    while p < v.len()
        invariant
            p <= v@.len(),
            sorted_by(v@, rank_key()),
            forall|i: int| 0 <= i < p ==> (rank_key())(#[trigger] v@[i]) <= k,
        decreases v@.len() - p,
    {
        if direction_rank_exec(v[p].direction.as_str()) > k {
            assert forall|i: int| p <= i < v@.len() implies (rank_key())(#[trigger] v@[i]) > k by {
                if i > p {
                    assert((rank_key())(v@[p as int]) <= (rank_key())(v@[i]));
                }
            }
            return p;
        }
        p = p + 1;
    }
    p
}

/// Normalises the station of every arrival of a feed fetch (see `TrainArrival::mutate`).
pub fn normalise_feed(feed: Vec<TrainArrival>) -> (r: Vec<Arc<TrainArrival>>)
    ensures
        normalised_seq(r@, feed@),
{
    let ghost orig = feed@;
    let mut rest = feed;
    let mut r: Vec<Arc<TrainArrival>> = Vec::new();
    let ghost mut i: int = 0;
    while rest.len() > 0
        invariant
            0 <= i <= orig.len(),
            rest@ == orig.subrange(i as int, orig.len() as int),
            r@.len() == i,
            forall|k: int| 0 <= k < i ==> normalised_from(*#[trigger] r@[k], orig[k]),
        decreases rest@.len(),
    {
        let mut a = rest.remove(0);
        assert(a == orig[i]);
        a.mutate();
        r.push(Arc::new(a));
        proof {
            i = i + 1;
        }
        assert(rest@ =~= orig.subrange(i as int, orig.len() as int));
    }
    r
}

impl TrainStore {
    #[verifier::type_invariant]
    spec fn names_distinct(self) -> bool {
        distinct_names(self.stations@)
    }

    /// The stations of the store.
    pub closed spec fn groups(self) -> Seq<Station> {
        self.stations@
    }

    /// A store with no arrivals, as the board shows when the feed cannot be read.
    pub fn empty() -> (r: TrainStore)
        ensures
            r.groups() == Seq::<Station>::empty(),
    {
        TrainStore { stations: Vec::new() }
    }

    /// Groups normalised arrivals by station, each station's arrivals ordered by
    /// waiting time, equal waits in feed order.
    pub fn group(m: Vec<Arc<TrainArrival>>) -> (r: TrainStore)
        ensures
            grouped_from(r.groups(), m@),
    {
        let ghost orig = m@;
        let mut rest = m;
        let mut groups: Vec<Station> = Vec::new();
        let ghost mut i: int = 0;
        while rest.len() > 0
            invariant
                0 <= i <= orig.len(),
                rest@ == orig.subrange(i as int, orig.len() as int),
                distinct_names(groups@),
                forall|name: Seq<char>| #[trigger]
                    has_name(groups@, name) <==> exists|k: int|
                        0 <= k < i && #[trigger] orig[k].station@ == name,
                forall|j: int|
                    0 <= j < groups@.len() ==> stable_sorted(
                        #[trigger] groups@[j].arrivals@,
                        orig.subrange(0, i as int).filter(at_station(groups@[j].name@)),
                        wait_key(),
                    ),
            decreases rest@.len(),
        {
            let x = rest.remove(0);
            assert(x == orig[i]);
            let ghost pre = orig.subrange(0, i as int);
            let ghost old_groups = groups@;
            assert(orig.subrange(0, i as int + 1) =~= pre.push(x));
            // Find the station of this arrival.
            let mut g: usize = 0;
            let mut found = false;
            while g < groups.len() && !found
                invariant
                    g <= groups@.len(),
                    groups@ == old_groups,
                    found ==> g < groups@.len() && groups@[g as int].name@ == x.station@,
                    forall|j: int| 0 <= j < g ==> #[trigger] groups@[j].name@ != x.station@,
                decreases groups@.len() - g + (if found { 0int } else { 1int }),
            {
                if groups[g].name == x.station {
                    found = true;
                } else {
                    g = g + 1;
                }
            }
            if found {
                let mut st = groups.remove(g);
                let p = wait_insertion_point(&st.arrivals, x.waiting_seconds);
                proof {
                    lemma_stable_insert(
                        st.arrivals@,
                        pre.filter(at_station(st.name@)),
                        wait_key(),
                        x,
                        p as int,
                    );
                    pre.lemma_filter_push(x, at_station(st.name@));
                }
                st.arrivals.insert(p, x);
                groups.insert(g, st);
                proof {
                    assert(groups@ =~= old_groups.update(g as int, groups@[g as int]));
                    assert forall|j: int|
                        0 <= j < groups@.len() implies stable_sorted(
                        #[trigger] groups@[j].arrivals@,
                        pre.push(x).filter(at_station(groups@[j].name@)),
                        wait_key(),
                    ) by {
                        if j != g {
                            pre.lemma_filter_push(x, at_station(groups@[j].name@));
                            assert(groups@[j] == old_groups[j]);
                        }
                    }
                    assert forall|name: Seq<char>| #[trigger]
                        has_name(groups@, name) <==> exists|k: int|
                            0 <= k < i + 1 && #[trigger] orig[k].station@ == name by {
                        if has_name(groups@, name) {
                            let j = choose|j: int| 0 <= j < groups@.len() && #[trigger] groups@[j].name@ == name;
                            if j != g {
                                assert(old_groups[j].name@ == name);
                                assert(has_name(old_groups, name));
                            } else {
                                assert(orig[i as int].station@ == name);
                            }
                        }
                        if exists|k: int| 0 <= k < i + 1 && #[trigger] orig[k].station@ == name {
                            let k = choose|k: int| 0 <= k < i + 1 && #[trigger] orig[k].station@ == name;
                            if k < i {
                                assert(has_name(old_groups, name));
                                let j = choose|j: int| 0 <= j < old_groups.len() && #[trigger] old_groups[j].name@ == name;
                                assert(groups@[j].name@ == name);
                            } else {
                                assert(groups@[g as int].name@ == name);
                            }
                        }
                    }
                }
            } else {
                let name = x.station.clone();
                let mut arrivals: Vec<Arc<TrainArrival>> = Vec::new();
                arrivals.push(x);
                groups.push(Station { name, arrivals });
                proof {
                    assert(!has_name(old_groups, x.station@));
                    assert forall|k: int| 0 <= k < pre.len() implies !(at_station(x.station@))(#[trigger] pre[k]) by {
                        assert(pre[k] == orig[k]);
                    }
                    lemma_filter_none(pre, at_station(x.station@));
                    pre.lemma_filter_push(x, at_station(x.station@));
                    assert(pre.push(x).filter(at_station(x.station@)) =~= seq![x]);
                    assert(groups@[groups@.len() - 1].arrivals@ =~= seq![x]);
                    assert forall|j: int|
                        0 <= j < groups@.len() implies stable_sorted(
                        #[trigger] groups@[j].arrivals@,
                        pre.push(x).filter(at_station(groups@[j].name@)),
                        wait_key(),
                    ) by {
                        if j < old_groups.len() {
                            pre.lemma_filter_push(x, at_station(groups@[j].name@));
                            assert(groups@[j] == old_groups[j]);
                        } else {
                            assert forall|kk: int| #[trigger] seq![x].filter(crate::ordering::has_key(wait_key(), kk))
                                == seq![x].filter(crate::ordering::has_key(wait_key(), kk)) by {}
                        }
                    }
                    assert forall|name: Seq<char>| #[trigger]
                        has_name(groups@, name) <==> exists|k: int|
                            0 <= k < i + 1 && #[trigger] orig[k].station@ == name by {
                        if has_name(groups@, name) {
                            let j = choose|j: int| 0 <= j < groups@.len() && #[trigger] groups@[j].name@ == name;
                            if j < old_groups.len() {
                                assert(old_groups[j].name@ == name);
                                assert(has_name(old_groups, name));
                            } else {
                                assert(orig[i as int].station@ == name);
                            }
                        }
                        if exists|k: int| 0 <= k < i + 1 && #[trigger] orig[k].station@ == name {
                            let k = choose|k: int| 0 <= k < i + 1 && #[trigger] orig[k].station@ == name;
                            if k < i {
                                assert(has_name(old_groups, name));
                                let j = choose|j: int| 0 <= j < old_groups.len() && #[trigger] old_groups[j].name@ == name;
                                assert(groups@[j].name@ == name);
                            } else {
                                assert(groups@[groups@.len() - 1].name@ == name);
                            }
                        }
                    }
                }
            }
            proof {
                i = i + 1;
            }
            assert(rest@ =~= orig.subrange(i as int, orig.len() as int));
        }
        proof {
            assert(orig.subrange(0, i as int) =~= orig);
            assert forall|name: Seq<char>|
                stable_sorted(#[trigger] lookup(groups@, name), orig.filter(at_station(name)), wait_key()) by {
                if has_name(groups@, name) {
                    let j = choose|j: int| 0 <= j < groups@.len() && #[trigger] groups@[j].name@ == name;
                    assert(groups@[j].arrivals@ == lookup(groups@, name));
                } else {
                    assert forall|k: int| 0 <= k < orig.len() implies !(at_station(name))(#[trigger] orig[k]) by {
                        if orig[k].station@ == name {
                            assert(has_name(groups@, name));
                        }
                    }
                    lemma_filter_none(orig, at_station(name));
                    crate::ordering::lemma_stable_sorted_empty(wait_key());
                }
            }
        }
        TrainStore { stations: groups }
    }
}


impl TrainStore {
    /// Normalises and groups the arrivals of one feed fetch (what the board caches
    /// between fetches).
    pub fn from_feed(feed: Vec<TrainArrival>) -> (r: TrainStore)
        ensures
            exists|m: Seq<Arc<TrainArrival>>| normalised_seq(m, feed@) && grouped_from(r.groups(), m),
    {
        let m = normalise_feed(feed);
        let ghost mv = m@;
        let r = TrainStore::group(m);
        assert(normalised_seq(mv, feed@) && grouped_from(r.groups(), mv));
        r
    }

    /// The arrivals at the named station, soonest first; none for an unknown name.
    pub fn single_station_arrivals(&self, name: &str) -> (r: Vec<Arc<TrainArrival>>)
        ensures
            r@ == lookup(self.groups(), name@),
    {
        proof {
            use_type_invariant(self);
        }
        let mut j: usize = 0;
        while j < self.stations.len()
            invariant
                j <= self.stations@.len(),
                distinct_names(self.stations@),
                forall|k: int| 0 <= k < j ==> #[trigger] self.stations@[k].name@ != name@,
            decreases self.stations@.len() - j,
        {
            if str_eq(self.stations[j].name.as_str(), name) {
                let r = share_arrivals(&self.stations[j].arrivals);
                proof {
                    assert(has_name(self.stations@, name@));
                    let c = choose|c: int| 0 <= c < self.stations@.len() && #[trigger] self.stations@[c].name@ == name@;
                    assert(c == j as int);
                }
                return r;
            }
            j = j + 1;
        }
        Vec::new()
    }

    /// Every arrival of one train, soonest first; equal waits keep the store's order.
    pub fn single_train_arrivals(&self, train_id: &str) -> (r: Vec<Arc<TrainArrival>>)
        ensures
            stable_sorted(r@, all_arrivals(self.groups()).filter(of_train(train_id@)), wait_key()),
    {
        let ghost pred = of_train(train_id@);
        let ghost groups = self.stations@;
        let mut r: Vec<Arc<TrainArrival>> = Vec::new();
        proof {
            crate::ordering::lemma_stable_sorted_empty(wait_key());
            assert(all_arrivals(groups.subrange(0, 0)) =~= Seq::<Arc<TrainArrival>>::empty());
            lemma_filter_none(Seq::<Arc<TrainArrival>>::empty(), pred);
        }
        let mut g: usize = 0;
        while g < self.stations.len()
            invariant
                g <= groups.len(),
                groups == self.stations@,
                pred == of_train(train_id@),
                stable_sorted(r@, all_arrivals(groups.subrange(0, g as int)).filter(pred), wait_key()),
            decreases groups.len() - g,
        {
            let arrivals = &self.stations[g].arrivals;
            let ghost before = all_arrivals(groups.subrange(0, g as int));
            let mut a: usize = 0;
            while a < arrivals.len()
                invariant
                    a <= arrivals@.len(),
                    arrivals@ == groups[g as int].arrivals@,
                    pred == of_train(train_id@),
                    stable_sorted(r@, (before + arrivals@.subrange(0, a as int)).filter(pred), wait_key()),
                decreases arrivals@.len() - a,
            {
                let x = &arrivals[a];
                let ghost seen = before + arrivals@.subrange(0, a as int);
                assert(before + arrivals@.subrange(0, a as int + 1) =~= seen.push(*x));
                if str_eq(x.train_id.as_str(), train_id) {
                    let p = wait_insertion_point(&r, x.waiting_seconds);
                    proof {
                        lemma_stable_insert(r@, seen.filter(pred), wait_key(), *x, p as int);
                        seen.lemma_filter_push(*x, pred);
                    }
                    r.insert(p, share_arrival(x));
                } else {
                    proof {
                        seen.lemma_filter_push(*x, pred);
                    }
                }
                a = a + 1;
            }
            proof {
                assert(arrivals@.subrange(0, arrivals@.len() as int) =~= arrivals@);
                assert(groups.subrange(0, g as int + 1).drop_last() =~= groups.subrange(0, g as int));
            }
            g = g + 1;
        }
        proof {
            assert(groups.subrange(0, groups.len() as int) =~= groups);
        }
        r
    }
}

/// Some arrival of `s` goes in direction `d`.
pub open spec fn has_direction(s: Seq<Arc<TrainArrival>>, d: Seq<char>) -> bool {
    exists|q: int| 0 <= q < s.len() && #[trigger] s[q].direction@ == d
}

proof fn lemma_has_direction_push(s: Seq<Arc<TrainArrival>>, x: Arc<TrainArrival>, d: Seq<char>)
    ensures
        has_direction(s.push(x), d) == (has_direction(s, d) || x.direction@ == d),
{
    if has_direction(s.push(x), d) {
        let q = choose|q: int| 0 <= q < s.push(x).len() && #[trigger] s.push(x)[q].direction@ == d;
        if q < s.len() {
            assert(s[q].direction@ == d);
        }
    }
    if has_direction(s, d) {
        let q = choose|q: int| 0 <= q < s.len() && #[trigger] s[q].direction@ == d;
        assert(s.push(x)[q].direction@ == d);
    }
    if x.direction@ == d {
        assert(s.push(x)[s.len() as int].direction@ == d);
    }
}

/// The arrival goes in direction `d`.
pub open spec fn goes(d: Seq<char>) -> spec_fn(Arc<TrainArrival>) -> bool {
    |a: Arc<TrainArrival>| a.direction@ == d
}

/// The first element of `s` alone, or nothing when `s` is empty.
pub open spec fn first_only<T>(s: Seq<T>) -> Seq<T> {
    if s.len() == 0 {
        Seq::empty()
    } else {
        seq![s[0]]
    }
}

/// Filtering by a narrower predicate after a wider one is filtering by the narrower.
proof fn lemma_filter_narrow<T>(s: Seq<T>, wide: spec_fn(T) -> bool, narrow: spec_fn(T) -> bool)
    requires
        forall|x: T| #[trigger] narrow(x) ==> wide(x),
    ensures
        s.filter(wide).filter(narrow) == s.filter(narrow),
    decreases s.len(),
{
    if s.len() == 0 {
        assert(s.filter(wide) =~= Seq::<T>::empty());
        assert(s.filter(narrow) =~= Seq::<T>::empty());
        assert(s.filter(wide).filter(narrow) =~= Seq::<T>::empty());
    } else {
        let pre = s.drop_last();
        let x = s.last();
        assert(pre.push(x) =~= s);
        lemma_filter_narrow(pre, wide, narrow);
        pre.lemma_filter_push(x, wide);
        pre.lemma_filter_push(x, narrow);
        if wide(x) {
            pre.filter(wide).lemma_filter_push(x, narrow);
        }
    }
}

/// Keeping the first arrival of each direction keeps, of every direction, exactly
/// the first arrival going that way: at most one per direction, and none lost.
pub proof fn lemma_first_per_direction_keeps_first(s: Seq<Arc<TrainArrival>>, d: Seq<char>)
    ensures
        first_per_direction(s).filter(goes(d)) == first_only(s.filter(goes(d))),
    decreases s.len(),
{
    if s.len() == 0 {
        assert(first_per_direction(s).filter(goes(d)) =~= Seq::<Arc<TrainArrival>>::empty());
        assert(s.filter(goes(d)) =~= Seq::<Arc<TrainArrival>>::empty());
    } else {
        let pre = s.drop_last();
        let x = s.last();
        assert(pre.push(x) =~= s);
        lemma_first_per_direction_keeps_first(pre, d);
        pre.lemma_filter_push(x, goes(d));
        let fp = first_per_direction(pre);
        if has_direction(pre, x.direction@) {
            if x.direction@ == d {
                let q = choose|q: int| 0 <= q < pre.len() && #[trigger] pre[q].direction@ == x.direction@;
                assert(pre.contains(pre[q]));
                assert((goes(d))(pre[q]));
                pre.lemma_filter_contains_rev(goes(d), pre[q]);
                assert(pre.filter(goes(d)).len() > 0);
                assert(first_only(pre.filter(goes(d)).push(x)) =~= first_only(pre.filter(goes(d))));
            }
        } else {
            fp.lemma_filter_push(x, goes(d));
            if x.direction@ == d {
                assert forall|i: int| 0 <= i < pre.len() implies !(goes(d))(#[trigger] pre[i]) by {}
                crate::ordering::lemma_filter_none(pre, goes(d));
                assert(fp.filter(goes(d)) =~= Seq::<Arc<TrainArrival>>::empty());
                assert(first_only(pre.filter(goes(d)).push(x)) =~= seq![x]);
                assert(fp.filter(goes(d)).push(x) =~= seq![x]);
            }
        }
    }
}

/// Ordering the kept arrivals by direction keeps, of every direction, the first
/// arrival of the group going that way.
pub proof fn lemma_board_keeps_first_per_direction(
    board: Seq<Arc<TrainArrival>>,
    group: Seq<Arc<TrainArrival>>,
    d: Seq<char>,
)
    requires
        stable_sorted(board, first_per_direction(group), rank_key()),
    ensures
        board.filter(goes(d)) == first_only(group.filter(goes(d))),
{
    let k = direction_rank(d);
    let wide = crate::ordering::has_key(rank_key(), k);
    assert forall|x: Arc<TrainArrival>| #[trigger] (goes(d))(x) implies wide(x) by {}
    assert(board.filter(wide) == first_per_direction(group).filter(wide));
    lemma_filter_narrow(board, wide, goes(d));
    lemma_filter_narrow(first_per_direction(group), wide, goes(d));
    lemma_first_per_direction_keeps_first(group, d);
}

/// The first arrival of each direction (see `first_per_direction`).
pub fn first_per_direction_exec(v: &Vec<Arc<TrainArrival>>) -> (r: Vec<Arc<TrainArrival>>)
    ensures
        r@ == first_per_direction(v@),
        forall|d: Seq<char>| #[trigger] r@.filter(goes(d)) == first_only(v@.filter(goes(d))),
{
    let mut r: Vec<Arc<TrainArrival>> = Vec::new();
    let mut k: usize = 0;
    proof {
        assert(v@.subrange(0, 0) =~= Seq::<Arc<TrainArrival>>::empty());
    }
    while k < v.len()
        invariant
            k <= v@.len(),
            r@ == first_per_direction(v@.subrange(0, k as int)),
            forall|d: Seq<char>| #[trigger] has_direction(r@, d) == has_direction(v@.subrange(0, k as int), d),
        decreases v@.len() - k,
    {
        let x = &v[k];
        let ghost s = v@.subrange(0, k as int + 1);
        assert(s.drop_last() =~= v@.subrange(0, k as int));
        assert(s =~= v@.subrange(0, k as int).push(*x));
        let mut q: usize = 0;
        let mut dup = false;
        while q < r.len() && !dup
            invariant
                q <= r@.len(),
                dup ==> q < r@.len() && r@[q as int].direction@ == x.direction@,
                !dup ==> forall|t: int| 0 <= t < q ==> #[trigger] r@[t].direction@ != x.direction@,
            decreases r@.len() - q + (if dup { 0int } else { 1int }),
        {
            if r[q].direction == x.direction {
                dup = true;
            } else {
                q = q + 1;
            }
        }
        assert(dup == has_direction(r@, x.direction@));
        let ghost old_r = r@;
        if !dup {
            r.push(share_arrival(x));
        }
        proof {
            assert forall|d: Seq<char>| #[trigger] has_direction(r@, d) == has_direction(s, d) by {
                lemma_has_direction_push(v@.subrange(0, k as int), *x, d);
                lemma_has_direction_push(old_r, *x, d);
                assert(has_direction(old_r, d) == has_direction(v@.subrange(0, k as int), d));
            }
        }
        k = k + 1;
    }
    assert(v@.subrange(0, v@.len() as int) =~= v@);
    proof {
        assert forall|d: Seq<char>| #[trigger] r@.filter(goes(d)) == first_only(v@.filter(goes(d))) by {
            lemma_first_per_direction_keeps_first(v@, d);
        }
    }
    r
}

/// `v` ordered by direction (north, south, east, other), equal directions kept in order.
pub fn sort_by_direction(v: &Vec<Arc<TrainArrival>>) -> (r: Vec<Arc<TrainArrival>>)
    ensures
        stable_sorted(r@, v@, rank_key()),
{
    let mut r: Vec<Arc<TrainArrival>> = Vec::new();
    proof {
        crate::ordering::lemma_stable_sorted_empty(rank_key());
        assert(v@.subrange(0, 0) =~= Seq::<Arc<TrainArrival>>::empty());
    }
    let mut k: usize = 0;
    while k < v.len()
        invariant
            k <= v@.len(),
            stable_sorted(r@, v@.subrange(0, k as int), rank_key()),
        decreases v@.len() - k,
    {
        let x = &v[k];
        let rank = direction_rank_exec(x.direction.as_str());
        let p = rank_insertion_point(&r, rank);
        proof {
            lemma_stable_insert(r@, v@.subrange(0, k as int), rank_key(), *x, p as int);
            assert(v@.subrange(0, k as int + 1) =~= v@.subrange(0, k as int).push(*x));
        }
        r.insert(p, share_arrival(x));
        k = k + 1;
    }
    assert(v@.subrange(0, v@.len() as int) =~= v@);
    r
}

impl TrainStore {
    /// The board: every station in board order, with the first arrival of each
    /// direction, ordered north, south, east, then the rest.
    pub fn arrivals_by_station(&self) -> (r: Vec<Station>)
        ensures
            r@.len() == spec_station_names().len(),
            forall|i: int|
                0 <= i < r@.len() ==> #[trigger] r@[i].name@ == spec_station_names()[i]
                    && stable_sorted(
                    r@[i].arrivals@,
                    first_per_direction(lookup(self.groups(), spec_station_names()[i])),
                    rank_key(),
                ),
            forall|i: int, d: Seq<char>|
                0 <= i < r@.len() ==> #[trigger] r@[i].arrivals@.filter(goes(d)) == first_only(
                    lookup(self.groups(), spec_station_names()[i]).filter(goes(d)),
                ),
    {
        let names = station_names();
        let ghost nv = names@.map_values(|s: &str| s@);
        let mut r: Vec<Station> = Vec::new();
        let mut i: usize = 0;
        while i < names.len()
            invariant
                i <= names@.len(),
                nv == spec_station_names(),
                nv == names@.map_values(|s: &str| s@),
                r@.len() == i,
                forall|k: int|
                    0 <= k < i ==> #[trigger] r@[k].name@ == spec_station_names()[k]
                        && stable_sorted(
                        r@[k].arrivals@,
                        first_per_direction(lookup(self.groups(), spec_station_names()[k])),
                        rank_key(),
                    ),
            decreases names@.len() - i,
        {
            let name: &str = names[i];
            assert(name@ == nv[i as int]);
            let group = self.single_station_arrivals(name);
            let kept = first_per_direction_exec(&group);
            let arrivals = sort_by_direction(&kept);
            r.push(Station { name: copy_str(name), arrivals });
            i = i + 1;
        }
        proof {
            assert forall|i: int, d: Seq<char>| 0 <= i < r@.len() implies #[trigger] r@[i].arrivals@.filter(
                goes(d),
            ) == first_only(lookup(self.groups(), spec_station_names()[i]).filter(goes(d))) by {
                assert(r@[i].name@ == spec_station_names()[i]);
                lemma_board_keeps_first_per_direction(
                    r@[i].arrivals@,
                    lookup(self.groups(), spec_station_names()[i]),
                    d,
                );
            }
        }
        r
    }
}
} // verus!
