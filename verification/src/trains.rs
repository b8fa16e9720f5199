//! The decisions behind the rail pages: which station a URL names, which train ids
//! are valid, and how the starred-stations cookie is read and rewritten.
use vstd::prelude::*;

use crate::marta::{spec_station_names, station_names, Station};
use crate::text::{
    all_free_of, ascii_upper, chars_of, chars_starts_with, copy_str, ends_with, is_prefix,
    is_split_of, is_suffix, join_on, join_with, lemma_split_join_roundtrip, parse_u64,
    parse_u64_spec, split_on, str_eq, string_of_chars, to_ascii_uppercase, views,
};

verus! {

broadcast use {vstd::seq_lib::group_seq_properties, vstd::seq::group_seq_axioms};

/// The suffix every station page's path ends with.
pub open spec fn station_suffix() -> Seq<char> {
    " station"@
}

/// The station a page path names: the path without its " station" suffix, when the
/// path has that suffix and what precedes it is a station's name.
pub open spec fn station_of_path(path: Seq<char>) -> Option<Seq<char>> {
    if is_suffix(station_suffix(), path) && spec_station_names().contains(
        path.subrange(0, path.len() - 8),
    ) {
        Some(path.subrange(0, path.len() - 8))
    } else {
        None
    }
}

/// The station a station page's path names, or `None` when the page does not exist.
pub fn station_from_path(path: &str) -> (r: Option<String>)
    ensures
        match r {
            Some(s) => station_of_path(path@) == Some(s@),
            None => station_of_path(path@) is None,
        },
{
    if !ends_with(path, " station") {
        return None;
    }
    proof {
        reveal_strlit(" station");
        assert(is_suffix(station_suffix(), path@));
    }
    let cs = chars_of(path);
    let mut head: Vec<char> = Vec::new();
    let mut i: usize = 0;
    let n = cs.len() - 8;
    while i < n
        invariant
            n == cs@.len() - 8,
            cs@ == path@,
            i <= n,
            head@ == cs@.subrange(0, i as int),
        decreases n - i,
    {
        head.push(cs[i]);
        i = i + 1;
        assert(head@ =~= cs@.subrange(0, i as int));
    }
    let station = string_of_chars(&head);
    let names = station_names();
    let ghost nv = names@.map_values(|s: &str| s@);
    let mut k: usize = 0;
    while k < names.len()
        invariant
            k <= names@.len(),
            nv == names@.map_values(|s: &str| s@),
            nv == spec_station_names(),
            station@ == path@.subrange(0, path@.len() - 8),
            is_suffix(station_suffix(), path@),
            forall|j: int| 0 <= j < k ==> #[trigger] nv[j] != station@,
        decreases names@.len() - k,
    {
        if str_eq(names[k], station.as_str()) {
            assert(nv[k as int] == station@);
            assert(station@ == path@.subrange(0, path@.len() - 8));
            assert(spec_station_names().contains(station@));
            return Some(station);
        }
        k = k + 1;
    }
    proof {
        assert(station@ == path@.subrange(0, path@.len() - 8));
        if spec_station_names().contains(station@) {
            let j = choose|j: int| 0 <= j < spec_station_names().len() && spec_station_names()[j] == station@;
            assert(nv[j] != station@);
        }
    }
    None
}

/// A train page exists for ids that parse as a `u64`.
pub fn is_train_id(train_id: &str) -> (r: bool)
    ensures
        r == (parse_u64_spec(train_id@) is Some),
{
    match parse_u64(train_id) {
        Some(_) => true,
        None => false,
    }
}

/// The starred station names kept in the `starred_stations` cookie: its value cut at
/// each comma, or none when there is no such cookie.
pub fn starred_station_names(cookie: Option<&str>) -> (r: Vec<String>)
    ensures
        match cookie {
            Some(v) => is_split_of(views(r@), v@, ','),
            None => r@.len() == 0,
        },
{
    match cookie {
        Some(v) => split_on(v, ','),
        None => Vec::new(),
    }
}

/// The cookie value for a list of starred names: the names separated by commas.
pub fn starred_cookie_value(names: &Vec<String>) -> (r: String)
    ensures
        r@ == join_with(views(names@), ','),
{
    join_on(names, ',')
}

/// Stars a station: its upper-cased name is added at the end of the list.
pub fn star_station(names: Vec<String>, station_name: &str) -> (r: Vec<String>)
    ensures
        views(r@) == views(names@).push(ascii_upper(station_name@)),
{
    let mut r = names;
    let ghost before = views(r@);
    r.push(to_ascii_uppercase(station_name));
    assert(views(r@) =~= before.push(ascii_upper(station_name@)));
    r
}

/// The predicate "is not this name".
pub open spec fn other_than(name: Seq<char>) -> spec_fn(Seq<char>) -> bool {
    |n: Seq<char>| n != name
}

/// Unstars a station: every entry equal to its upper-cased name is dropped.
pub fn unstar_station(names: Vec<String>, station_name: &str) -> (r: Vec<String>)
    ensures
        views(r@) == views(names@).filter(other_than(ascii_upper(station_name@))),
{
    let upper = to_ascii_uppercase(station_name);
    let ghost pred = other_than(upper@);
    let ghost orig = views(names@);
    let mut rest = names;
    let mut r: Vec<String> = Vec::new();
    let ghost mut i: int = 0;
    proof {
        assert(orig.subrange(0, 0) =~= Seq::<Seq<char>>::empty());
        crate::ordering::lemma_filter_none(Seq::<Seq<char>>::empty(), pred);
    }
    while rest.len() > 0
        invariant
            0 <= i <= orig.len(),
            views(rest@) == orig.subrange(i, orig.len() as int),
            pred == other_than(upper@),
            views(r@) == orig.subrange(0, i).filter(pred),
        decreases rest@.len(),
    {
        let ghost r0 = rest@;
        assert(views(r0).len() == r0.len());
        let s = rest.remove(0);
        assert(s@ == orig[i]) by {
            assert(s == r0[0]);
            assert(views(r0)[0] == s@);
            assert(orig.subrange(i, orig.len() as int)[0] == orig[i]);
        }
        proof {
            assert(orig.subrange(0, i + 1) =~= orig.subrange(0, i).push(s@));
            orig.subrange(0, i).lemma_filter_push(s@, pred);
        }
        let ghost before = views(r@);
        if !str_eq(s.as_str(), upper.as_str()) {
            r.push(s);
            assert(views(r@) =~= before.push(orig[i]));
        }
        proof {
            i = i + 1;
            assert(views(rest@) =~= orig.subrange(i, orig.len() as int)) by {
                assert(rest@ =~= r0.subrange(1, r0.len() as int));
                assert forall|j: int| 0 <= j < views(rest@).len() implies views(rest@)[j] == orig.subrange(i, orig.len() as int)[j] by {
                    assert(views(rest@)[j] == rest@[j]@);
                    assert(rest@[j] == r0[j + 1]);
                    assert(views(r0)[j + 1] == r0[j + 1]@);
                }
            }
        }
    }
    assert(orig.subrange(0, i) =~= orig);
    r
}

/// Whether the station page's path is starred: the list holds its upper-cased form.
pub fn is_starred(names: &Vec<String>, station_path: &str) -> (r: bool)
    ensures
        r == views(names@).contains(ascii_upper(station_path@)),
{
    let upper = to_ascii_uppercase(station_path);
    let mut i: usize = 0;
    while i < names.len()
        invariant
            i <= names@.len(),
            upper@ == ascii_upper(station_path@),
            forall|j: int| 0 <= j < i ==> #[trigger] names@[j]@ != upper@,
        decreases names@.len() - i,
    {
        if str_eq(names[i].as_str(), upper.as_str()) {
            assert(views(names@)[i as int] == upper@);
            assert(views(names@).contains(upper@));
            return true;
        }
        i = i + 1;
    }
    assert forall|j: int| 0 <= j < views(names@).len() implies views(names@)[j] != upper@ by {
        assert(views(names@)[j] == names@[j]@);
    }
    false
}

/// A station is shown as starred when some starred entry starts with its upper-cased name.
pub open spec fn starred_by(names: Seq<Seq<char>>) -> spec_fn(Station) -> bool {
    |s: Station| exists|j: int| 0 <= j < names.len() && is_prefix(ascii_upper(s.name@), #[trigger] names[j])
}

/// `entry` begins with the whole of `name`.
pub open spec fn begins_with(entry: Seq<char>, name: Seq<char>) -> bool {
    name.len() <= entry.len() && forall|k: int| 0 <= k < name.len() ==> #[trigger] entry[k] == name[k]
}

/// Some entry of `names` begins with the whole upper-cased name of the station.
pub open spec fn entry_begins_with_name(names: Seq<Seq<char>>, st: Station) -> bool {
    exists|j: int| 0 <= j < names.len() && begins_with(#[trigger] names[j], ascii_upper(st.name@))
}

/// A board station is shown as starred exactly when some starred entry begins with the
/// station's whole upper-cased name.
pub proof fn lemma_starred_means_whole_name(names: Seq<Seq<char>>, st: Station)
    ensures
        (starred_by(names))(st) <==> exists|j: int|
            0 <= j < names.len() && begins_with(#[trigger] names[j], ascii_upper(st.name@)),
{
    let u = ascii_upper(st.name@);
    if (starred_by(names))(st) {
        let j = choose|j: int| 0 <= j < names.len() && is_prefix(u, #[trigger] names[j]);
        assert forall|k: int| 0 <= k < u.len() implies #[trigger] names[j][k] == u[k] by {
            assert(names[j].subrange(0, u.len() as int)[k] == names[j][k]);
        }
        assert(begins_with(names[j], u));
    }
    if exists|j: int| 0 <= j < names.len() && begins_with(#[trigger] names[j], u) {
        let j = choose|j: int| 0 <= j < names.len() && begins_with(#[trigger] names[j], u);
        assert(names[j].subrange(0, u.len() as int) =~= u);
        assert(is_prefix(u, names[j]));
    }
}

/// Starring a station's page (its name followed by " station") shows that station as
/// starred; any other station it newly shows has an upper-cased name that begins the
/// new entry.
pub proof fn lemma_star_page_shows_station(names: Seq<Seq<char>>, x: Station, y: Station)
    ensures
        (starred_by(names.push(ascii_upper(x.name@ + station_suffix()))))(x),
        (starred_by(names.push(ascii_upper(x.name@ + station_suffix()))))(y) ==> (starred_by(names))(y)
            || begins_with(ascii_upper(x.name@ + station_suffix()), ascii_upper(y.name@)),
{
    let e = ascii_upper(x.name@ + station_suffix());
    let all = names.push(e);
    let u = ascii_upper(x.name@);
    assert(e.subrange(0, u.len() as int) =~= u);
    assert(is_prefix(u, all[names.len() as int]));
    lemma_starred_means_whole_name(all, y);
    lemma_starred_means_whole_name(names, y);
    if (starred_by(all))(y) {
        let j = choose|j: int| 0 <= j < all.len() && begins_with(#[trigger] all[j], ascii_upper(y.name@));
        if j < names.len() {
            assert(names[j] == all[j]);
        }
    }
}

/// The stations of the board that are starred, in board order.
pub fn starred_stations(stations: &Vec<Station>, names: &Vec<String>) -> (r: Vec<Station>)
    ensures
        r@.len() == stations@.filter(starred_by(views(names@))).len(),
        forall|i: int|
            0 <= i < r@.len() ==> #[trigger] r@[i].name == stations@.filter(
                starred_by(views(names@)),
            )[i].name && r@[i].arrivals@ == stations@.filter(starred_by(views(names@)))[i].arrivals@,
        forall|i: int| 0 <= i < r@.len() ==> #[trigger] entry_begins_with_name(views(names@), r@[i]),
{
    let ghost pred = starred_by(views(names@));
    let mut namechars: Vec<Vec<char>> = Vec::new();
    let mut j: usize = 0;
    while j < names.len()
        invariant
            j <= names@.len(),
            namechars@.len() == j,
            forall|q: int| 0 <= q < j ==> #[trigger] namechars@[q]@ == names@[q]@,
        decreases names@.len() - j,
    {
        namechars.push(chars_of(names[j].as_str()));
        j = j + 1;
    }
    let mut r: Vec<Station> = Vec::new();
    let mut i: usize = 0;
    proof {
        assert(stations@.subrange(0, 0) =~= Seq::<Station>::empty());
        crate::ordering::lemma_filter_none(Seq::<Station>::empty(), pred);
    }
    while i < stations.len()
        invariant
            i <= stations@.len(),
            namechars@.len() == names@.len(),
            forall|q: int| 0 <= q < names@.len() ==> #[trigger] namechars@[q]@ == names@[q]@,
            pred == starred_by(views(names@)),
            r@.len() == stations@.subrange(0, i as int).filter(pred).len(),
            forall|k: int|
                0 <= k < r@.len() ==> #[trigger] r@[k].name == stations@.subrange(0, i as int).filter(
                    pred,
                )[k].name && r@[k].arrivals@ == stations@.subrange(0, i as int).filter(pred)[k].arrivals@,
        decreases stations@.len() - i,
    {
        let st = &stations[i];
        let up = to_ascii_uppercase(st.name.as_str());
        let upc = chars_of(up.as_str());
        let mut q: usize = 0;
        let mut hit = false;
        while q < namechars.len() && !hit
            invariant
                q <= namechars@.len(),
                namechars@.len() == names@.len(),
                forall|t: int| 0 <= t < names@.len() ==> #[trigger] namechars@[t]@ == names@[t]@,
                hit ==> q < names@.len() && is_prefix(upc@, names@[q as int]@),
                !hit ==> forall|t: int| 0 <= t < q ==> !is_prefix(upc@, #[trigger] names@[t]@),
            decreases namechars@.len() - q + (if hit { 0int } else { 1int }),
        {
            if chars_starts_with(&namechars[q], &upc) {
                hit = true;
            } else {
                q = q + 1;
            }
        }
        proof {
            if hit {
                assert(views(names@)[q as int] == names@[q as int]@);
                assert(pred(*st));
            } else {
                if pred(*st) {
                    let t = choose|t: int| 0 <= t < views(names@).len() && is_prefix(ascii_upper(st.name@), #[trigger] views(names@)[t]);
                    assert(views(names@)[t] == names@[t]@);
                    assert(false);
                }
            }
            assert(stations@.subrange(0, i as int + 1) =~= stations@.subrange(0, i as int).push(*st));
            stations@.subrange(0, i as int).lemma_filter_push(*st, pred);
        }
        if hit {
            let copy = st.clone();
            r.push(copy);
        }
        i = i + 1;
    }
    assert(stations@.subrange(0, stations@.len() as int) =~= stations@);
    proof {
        let f = stations@.filter(pred);
        assert forall|i: int| 0 <= i < r@.len() implies #[trigger] entry_begins_with_name(
            views(names@),
            r@[i],
        ) by {
            stations@.lemma_filter_pred(pred, i);
            lemma_starred_means_whole_name(views(names@), f[i]);
            assert(r@[i].name == f[i].name);
        }
    }
    r
}

/// The board stations named by the first three names of `order` (the three nearest
/// stations, nearest first).
pub open spec fn nearest_count(order_len: int) -> int {
    if order_len < 3 {
        order_len
    } else {
        3
    }
}

/// Some station of `stations` has this name.
pub open spec fn station_named(stations: Seq<Station>, name: Seq<char>) -> bool {
    exists|k: int| 0 <= k < stations.len() && #[trigger] stations[k].name@ == name
}

/// The first station of `stations` with this name.
pub open spec fn first_named(stations: Seq<Station>, name: Seq<char>) -> int {
    choose|k: int|
        0 <= k < stations.len() && #[trigger] stations[k].name@ == name && forall|t: int|
            0 <= t < k ==> stations[t].name@ != name
}

/// Entry `i` of `r` is the first station of `stations` named `order[i]`.
pub open spec fn picks_nearest(r: Seq<Station>, stations: Seq<Station>, order: Seq<&str>, i: int) -> bool {
    let k = first_named(stations, order[i]@);
    &&& 0 <= k < stations.len()
    &&& r[i].name == stations[k].name
    &&& r[i].arrivals@ == stations[k].arrivals@
}

/// The board stations for the three nearest station names, nearest first.
pub fn nearest_stations(order: &Vec<&str>, stations: &Vec<Station>) -> (r: Vec<Station>)
    requires
        forall|i: int| 0 <= i < nearest_count(order@.len() as int) ==> station_named(stations@, #[trigger] order@[i]@),
    ensures
        r@.len() == nearest_count(order@.len() as int),
        forall|i: int| 0 <= i < r@.len() ==> #[trigger] picks_nearest(r@, stations@, order@, i),
{
    let count: usize = if order.len() < 3 {
        order.len()
    } else {
        3
    };
    let mut r: Vec<Station> = Vec::new();
    let mut i: usize = 0;
    while i < count
        invariant
            count == nearest_count(order@.len() as int),
            i <= count,
            r@.len() == i,
            forall|q: int| 0 <= q < count ==> station_named(stations@, #[trigger] order@[q]@),
            forall|q: int| 0 <= q < i ==> #[trigger] picks_nearest(r@, stations@, order@, q),
        decreases count - i,
    {
        let name: &str = order[i];
        assert(station_named(stations@, name@));
        let mut k: usize = 0;
        while k < stations.len() && !str_eq(stations[k].name.as_str(), name)
            invariant
                k <= stations@.len(),
                station_named(stations@, name@),
                forall|t: int| 0 <= t < k ==> #[trigger] stations@[t].name@ != name@,
            decreases stations@.len() - k,
        {
            k = k + 1;
        }
        proof {
            if k == stations@.len() {
                let w = choose|w: int| 0 <= w < stations@.len() && #[trigger] stations@[w].name@ == name@;
                assert(false);
            }
            let f = first_named(stations@, name@);
            assert(stations@[k as int].name@ == name@ && forall|t: int| 0 <= t < k ==> stations@[t].name@ != name@);
            assert(exists|w: int|
                0 <= w < stations@.len() && #[trigger] stations@[w].name@ == name@ && forall|t: int|
                    0 <= t < w ==> stations@[t].name@ != name@);
            assert(0 <= f < stations@.len() && stations@[f].name@ == name@ && forall|t: int| 0 <= t < f ==> stations@[t].name@ != name@);
            if f < k {
                assert(stations@[f].name@ != name@);
            }
            if k < f {
                assert(stations@[k as int].name@ != name@);
            }
        }
        let copy = stations[k].clone();
        assert(copy.name == stations@[k as int].name);
        assert(copy.arrivals@ == stations@[k as int].arrivals@);
        let ghost old_r = r@;
        r.push(copy);
        proof {
            assert(first_named(stations@, order@[i as int]@) == k);
            assert forall|q: int| 0 <= q < i + 1 implies #[trigger] picks_nearest(r@, stations@, order@, q) by {
                if q < i {
                    assert(picks_nearest(old_r, stations@, order@, q));
                    assert(r@[q] == old_r[q]);
                } else {
                    assert(order@[q]@ == name@);
                    assert(r@[q] == copy);
                    assert(first_named(stations@, order@[q]@) == k);
                }
            }
        }
        i = i + 1;
    }
    r
}

/// Reading the starred cookie back after writing it gives the same list, when the
/// list is not empty and no entry holds a comma.
pub proof fn lemma_cookie_roundtrip(names: Seq<Seq<char>>, read: Seq<Seq<char>>)
    requires
        names.len() >= 1,
        all_free_of(names, ','),
        is_split_of(read, join_with(names, ','), ','),
    ensures
        read == names,
{
    lemma_split_join_roundtrip(read, names, ',');
}

/// After starring a station, its page shows it as starred.
pub proof fn lemma_star_then_starred(names: Seq<Seq<char>>, station_path: Seq<char>)
    ensures
        names.push(ascii_upper(station_path)).contains(ascii_upper(station_path)),
{
    assert(names.push(ascii_upper(station_path))[names.len() as int] == ascii_upper(station_path));
}

/// After unstarring a station, its page no longer shows it as starred.
pub proof fn lemma_unstar_then_not_starred(names: Seq<Seq<char>>, station_path: Seq<char>)
    ensures
        !names.filter(other_than(ascii_upper(station_path))).contains(ascii_upper(station_path)),
{
    let f = names.filter(other_than(ascii_upper(station_path)));
    if f.contains(ascii_upper(station_path)) {
        let k = choose|k: int| 0 <= k < f.len() && f[k] == ascii_upper(station_path);
        names.lemma_filter_pred(other_than(ascii_upper(station_path)), k);
    }
}


/// Every station of the board has a station page: the path made of its name and
/// " station" names it.
pub proof fn lemma_board_station_has_page(i: int)
    requires
        0 <= i < spec_station_names().len(),
    ensures
        station_of_path(spec_station_names()[i] + station_suffix()) == Some(spec_station_names()[i]),
{
    reveal_strlit(" station");
    let name = spec_station_names()[i];
    let path = name + station_suffix();
    assert(path.subrange(path.len() - 8, path.len() as int) =~= station_suffix());
    assert(path.subrange(0, path.len() - 8) =~= name);
    assert(spec_station_names()[i] == name);
}
} // verus!
