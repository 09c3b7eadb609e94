//! How far a viewer is in a series, and what comes next.

use crate::double;
use crate::double::Double;
use crate::json;
use crate::json::{Json, Object, Value};
use vstd::prelude::*;

verus! {

/// An episode, by its season and its number there.
#[derive(Clone, Copy, Debug, PartialEq, Eq, Structural)]
pub struct Coord {
    pub season: i64,
    pub episode: i64,
}

/// A season as the layout knows it. Only the count matters here; names, art and dates are the client's.
#[derive(Clone, Copy, Debug)]
pub struct SeasonCount {
    pub season: i64,
    pub episodes: i64,
}

/// Where the viewer had got to: the episode last played and how far into it.
#[derive(Clone, Copy, Debug)]
pub struct LastPlayed {
    pub season: i64,
    pub episode: i64,
    pub fraction: Double,
}

// ---------------------------------------------------------------------------------------------------
// The layout.

/// Whether a season is a regular one. Season 0 is extras, not the show: a layout that kept it would make
/// "10 of 10" unreachable, and would offer a Special as the next episode once the finale is done.
pub open spec fn is_regular(s: SeasonCount) -> bool {
    s.season > 0 && s.episodes > 0
}

/// Puts a season into a layout, behind all that do not come later.
pub open spec fn placed(layout: Seq<SeasonCount>, s: SeasonCount) -> Seq<SeasonCount>
    decreases layout.len(),
{
    if layout.len() == 0 || layout.last().season <= s.season {
        layout.push(s)
    } else {
        placed(layout.drop_last(), s).push(layout.last())
    }
}

/// Regular seasons in their order, Specials excluded.
pub open spec fn layout(seasons: Seq<SeasonCount>) -> Seq<SeasonCount>
    decreases seasons.len(),
{
    if seasons.len() == 0 {
        seq![]
    } else if is_regular(seasons.last()) {
        placed(layout(seasons.drop_last()), seasons.last())
    } else {
        layout(seasons.drop_last())
    }
}

/// Whether an episode has aired, judged against the newest aired one. Unknown counts as aired, and so does
/// anything when the newest aired episode is itself a Special: that says nothing about where the regular
/// seasons have got to.
pub open spec fn has_aired(at: Coord, last_aired: Option<Coord>) -> bool {
    match last_aired {
        Some(last) => last.season > 0 ==> at.season < last.season || (at.season == last.season
            && at.episode <= last.episode),
        None => true,
    }
}

/// The episodes of a season.
pub open spec fn episodes_of(s: SeasonCount) -> Seq<Coord> {
    Seq::new(s.episodes as nat, |i: int| Coord { season: s.season, episode: (i + 1) as i64 })
}

/// The episodes of a layout, in order.
pub open spec fn listed(layout: Seq<SeasonCount>) -> Seq<Coord>
    decreases layout.len(),
{
    if layout.len() == 0 {
        seq![]
    } else {
        listed(layout.drop_last()) + episodes_of(layout.last())
    }
}

/// The episodes that make up "the series so far", in order: regular seasons, nothing after `last_aired`.
pub open spec fn so_far(seasons: Seq<SeasonCount>, last_aired: Option<Coord>) -> Seq<Coord> {
    listed(layout(seasons)).filter(|at: Coord| has_aired(at, last_aired))
}

/// How an episode is written.
pub open spec fn coord_json(at: Coord) -> Json {
    Json::Object(
        map!["season"@ => Json::Int(at.season as int), "episode"@ => Json::Int(at.episode as int)],
    )
}

/// How an episode is written, where there is one.
pub open spec fn coord_or_null(at: Option<Coord>) -> Json {
    match at {
        Some(at) => coord_json(at),
        None => Json::Null,
    }
}

/// Writes an episode.
fn coord(at: Coord) -> (v: Value)
    ensures
        v@ == coord_json(at),
{
    let mut out: Object = Object::new();
    out.insert("season".to_owned(), Value::from_i64(at.season));
    out.insert("episode".to_owned(), Value::from_i64(at.episode));
    Value::Object(out)
}

/// Writes an episode, where there is one.
fn coord_if_any(at: Option<Coord>) -> (v: Value)
    ensures
        v@ == coord_or_null(at),
{
    match at {
        Some(at) => coord(at),
        None => Value::Null,
    }
}

/// A season goes where all before do not come later and all behind do.
proof fn placed_between(layout: Seq<SeasonCount>, s: SeasonCount, p: int)
    requires
        0 <= p <= layout.len(),
        p > 0 ==> layout[p - 1].season <= s.season,
        forall|i: int| p <= i < layout.len() ==> (#[trigger] layout[i]).season > s.season,
    ensures
        placed(layout, s) == layout.insert(p, s),
    decreases layout.len(),
{
    if p == layout.len() {
        assert(layout.insert(p, s) =~= layout.push(s));
    } else {
        assert(layout.last() == layout[layout.len() - 1]);
        placed_between(layout.drop_last(), s, p);
        assert(layout.drop_last().insert(p, s).push(layout.last()) =~= layout.insert(p, s));
    }
}

/// Regular seasons in order, Specials excluded.
fn regular(seasons: &[SeasonCount]) -> (r: Vec<SeasonCount>)
    ensures
        r@ == layout(seasons@),
{
    let mut r: Vec<SeasonCount> = Vec::new();
    assert(seasons@.take(0) =~= seq![]);
    for i in 0..seasons.len()
        invariant
            r@ == layout(seasons@.take(i as int)),
    {
        let s: SeasonCount = seasons[i];
        assert(seasons@.take(i + 1).drop_last() =~= seasons@.take(i as int));
        assert(seasons@.take(i + 1).last() == s);
        if s.season > 0 && s.episodes > 0 {
            let mut p: usize = r.len();
            while p > 0 && r[p - 1].season > s.season
                invariant
                    p <= r@.len(),
                    forall|j: int| p <= j < r@.len() ==> (#[trigger] r@[j]).season > s.season,
                decreases p,
            {
                p -= 1;
            }
            proof {
                placed_between(r@, s, p as int);
            }
            r.insert(p, s);
        }
    }
    assert(seasons@.take(seasons@.len() as int) =~= seasons@);
    r
}

/// A season put into a layout in order leaves it in order.
proof fn placed_in_order(layout: Seq<SeasonCount>, s: SeasonCount)
    requires
        in_order(layout),
        is_regular(s),
    ensures
        in_order(placed(layout, s)),
        placed(layout, s).to_multiset() == layout.to_multiset().insert(s),
        placed(layout, s).len() == layout.len() + 1,
        placed(layout, s).last().season <= s.season || placed(layout, s).last() == layout.last(),
    decreases layout.len(),
{
    broadcast use vstd::seq_lib::group_to_multiset_ensures;

    let out = placed(layout, s);
    if layout.len() == 0 || layout.last().season <= s.season {
        assert forall|i: int, j: int|
            #![trigger out[i], out[j]]
            0 <= i < j < out.len() implies out[i].season <= out[j].season by {
            if j == layout.len() && i < layout.len() {
                assert(layout[i].season <= layout[layout.len() - 1].season || i == layout.len() - 1);
            }
        }
    } else {
        let front = layout.drop_last();
        let last = layout.last();
        let inner = placed(front, s);
        placed_in_order(front, s);
        assert(layout =~= front.push(last));
        assert(inner.push(last).to_multiset() == inner.to_multiset().insert(last));
        assert(out.to_multiset() =~= layout.to_multiset().insert(s));
        assert forall|i: int, j: int|
            #![trigger out[i], out[j]]
            0 <= i < j < out.len() implies out[i].season <= out[j].season by {
            if j == inner.len() {
                assert(inner[i].season <= inner.last().season);
                if inner.last() == front.last() && front.len() > 0 {
                    assert(layout[front.len() - 1].season <= layout[layout.len() - 1].season);
                }
            } else {
                assert(inner[i].season <= inner[j].season);
            }
        }
        assert forall|i: int| 0 <= i < out.len() implies is_regular(#[trigger] out[i]) by {
            if i < inner.len() {
                assert(is_regular(inner[i]));
            } else {
                assert(is_regular(layout[layout.len() - 1]));
            }
        }
    }
}

/// Whether seasons are regular and come in their order.
pub open spec fn in_order(layout: Seq<SeasonCount>) -> bool {
    &&& forall|i: int| 0 <= i < layout.len() ==> is_regular(#[trigger] layout[i])
    &&& forall|i: int, j: int|
        #![trigger layout[i], layout[j]]
        0 <= i < j < layout.len() ==> layout[i].season <= layout[j].season
}

/// The layout holds the regular seasons, each as often as it was given, in their order.
pub proof fn the_layout_is_in_order(seasons: Seq<SeasonCount>)
    ensures
        in_order(layout(seasons)),
        layout(seasons).to_multiset() == seasons.filter(|s: SeasonCount| is_regular(s)).to_multiset(),
    decreases seasons.len(),
{
    broadcast use vstd::seq_lib::group_to_multiset_ensures;

    reveal(Seq::filter);
    if seasons.len() > 0 {
        the_layout_is_in_order(seasons.drop_last());
        if is_regular(seasons.last()) {
            placed_in_order(layout(seasons.drop_last()), seasons.last());
        }
    } else {
        assert(seasons.filter(|s: SeasonCount| is_regular(s)) =~= seq![]);
    }
}

/// Whether an episode has aired, judged against the newest aired one.
pub fn is_aired(at: Coord, last_aired: Option<Coord>) -> (r: bool)
    ensures
        r == has_aired(at, last_aired),
{
    match last_aired {
        Some(last) => last.season <= 0 || at.season < last.season || (at.season == last.season
            && at.episode <= last.episode),
        None => true,
    }
}

/// The episodes that make up "the series so far", in order.
fn aired(seasons: &[SeasonCount], last_aired: Option<Coord>) -> (r: Vec<Coord>)
    ensures
        r@ == so_far(seasons@, last_aired),
{
    let regular: Vec<SeasonCount> = regular(seasons);
    let ghost keep = |at: Coord| has_aired(at, last_aired);
    let mut r: Vec<Coord> = Vec::new();
    proof {
        reveal(Seq::filter);
        assert(listed(regular@.take(0)) =~= seq![]);
        the_layout_is_in_order(seasons@);
    }
    for i in 0..regular.len()
        invariant
            keep == (|at: Coord| has_aired(at, last_aired)),
            in_order(regular@),
            r@ == listed(regular@.take(i as int)).filter(keep),
    {
        let s: SeasonCount = regular[i];
        let ghost before = listed(regular@.take(i as int));
        let ghost all = episodes_of(s);
        assert(regular@.take(i + 1).drop_last() =~= regular@.take(i as int));
        assert(regular@.take(i + 1).last() == s);
        let mut n: i64 = 0;
        assert(is_regular(regular@[i as int]));
        assert(before + all.take(0) =~= before);
        while n < s.episodes
            invariant
                keep == (|at: Coord| has_aired(at, last_aired)),
                0 <= n <= s.episodes,
                all == episodes_of(s),
                r@ == (before + all.take(n as int)).filter(keep),
            decreases s.episodes - n,
        {
            let at: Coord = Coord { season: s.season, episode: n + 1 };
            let ghost longer = before + all.take(n + 1);
            assert(longer.last() == at);
            assert(longer.drop_last() =~= before + all.take(n as int));
            proof {
                reveal(Seq::filter);
            }
            if is_aired(at, last_aired) {
                r.push(at);
            }
            n += 1;
        }
        assert(all.take(n as int) =~= all);
    }
    assert(regular@.take(regular@.len() as int) =~= regular@);
    r
}

/// The episodes that make up "the series so far", in order: regular seasons, nothing after `last_aired`.
///
/// Clients need the list itself, not only counts drawn from it: marking a season watched acts on exactly
/// these, and asking for them is what keeps that set from being derived a second way.
pub fn aired_episodes(seasons: &[SeasonCount], last_aired: Option<Coord>) -> (v: Value)
    ensures
        v@ == Json::List(so_far(seasons@, last_aired).map_values(|at: Coord| coord_json(at))),
{
    let episodes: Vec<Coord> = aired(seasons, last_aired);
    let mut out: Vec<Value> = Vec::new();
    for i in 0..episodes.len()
        invariant
            out@.len() == i,
            forall|j: int| 0 <= j < i ==> (#[trigger] out@[j])@ == coord_json(episodes@[j]),
    {
        out.push(coord(episodes[i]));
    }
    assert(json::models(out@) =~= episodes@.map_values(|at: Coord| coord_json(at)));
    Value::Array(out)
}

// ---------------------------------------------------------------------------------------------------
// What was watched, and what comes next.

/// How many of the episodes were watched.
pub open spec fn watched_among(episodes: Seq<Coord>, watched: Seq<Coord>) -> nat {
    episodes.filter(|at: Coord| watched.contains(at)).len()
}

/// The episodes that were not watched, in order.
pub open spec fn unwatched_among(episodes: Seq<Coord>, watched: Seq<Coord>) -> Seq<Coord> {
    episodes.filter(|at: Coord| !watched.contains(at))
}

/// The first of some episodes, if there are any.
pub open spec fn first_of(episodes: Seq<Coord>) -> Option<Coord> {
    if episodes.len() > 0 {
        Some(episodes[0])
    } else {
        None
    }
}

/// How much of a series has been watched, and what to offer next: the first episode of the series so far
/// that was not watched. A series is complete when there are episodes and all of them were watched.
pub open spec fn state_of(
    seasons: Seq<SeasonCount>,
    last_aired: Option<Coord>,
    watched: Seq<Coord>,
) -> Json {
    let episodes = so_far(seasons, last_aired);
    let count = watched_among(episodes, watched);
    Json::Object(
        map![
            "watched"@ => Json::Int(count as int),
            "total"@ => Json::Int(episodes.len() as int),
            "nextUp"@ => coord_or_null(first_of(unwatched_among(episodes, watched))),
            "complete"@ => Json::Bool(episodes.len() > 0 && count >= episodes.len()),
        ],
    )
}

/// Whether an episode is among others.
fn is_among(at: Coord, coords: &[Coord]) -> (r: bool)
    ensures
        r == coords@.contains(at),
{
    for i in 0..coords.len()
        invariant
            forall|j: int| 0 <= j < i ==> coords@[j] != at,
    {
        if coords[i] == at {
            assert(coords@[i as int] == at);
            return true;
        }
    }
    false
}

/// What one more episode adds to what was watched and to what was not.
proof fn one_more(episodes: Seq<Coord>, watched: Seq<Coord>, i: int)
    requires
        0 <= i < episodes.len(),
    ensures
        watched_among(episodes.take(i + 1), watched) == watched_among(episodes.take(i), watched) + (
        if watched.contains(episodes[i]) {
            1int
        } else {
            0
        }),
        unwatched_among(episodes.take(i + 1), watched) == (if watched.contains(episodes[i]) {
            unwatched_among(episodes.take(i), watched)
        } else {
            unwatched_among(episodes.take(i), watched).push(episodes[i])
        }),
{
    reveal(Seq::filter);
    assert(episodes.take(i + 1).drop_last() =~= episodes.take(i));
    assert(episodes.take(i + 1).last() == episodes[i]);
}

/// Of no episodes none was watched.
proof fn none_yet(episodes: Seq<Coord>, watched: Seq<Coord>)
    ensures
        watched_among(episodes.take(0), watched) == 0,
        unwatched_among(episodes.take(0), watched).len() == 0,
{
    reveal(Seq::filter);
}

/// How much of a series has been watched, and what to offer next.
///
/// `watched` are the episodes that the client holds as watched, passed as data because clients keep them in
/// different shapes.
pub fn series_state(
    seasons: &[SeasonCount],
    last_aired: Option<Coord>,
    watched: &[Coord],
) -> (v: Value)
    ensures
        v@ == state_of(seasons@, last_aired, watched@),
{
    let episodes: Vec<Coord> = aired(seasons, last_aired);
    let total: usize = episodes.len();
    let mut count: usize = 0;
    let mut next_up: Option<Coord> = None;
    proof {
        none_yet(episodes@, watched@);
    }
    for i in 0..total
        invariant
            total == episodes@.len(),
            count <= i,
            count == watched_among(episodes@.take(i as int), watched@),
            next_up == first_of(unwatched_among(episodes@.take(i as int), watched@)),
    {
        let at: Coord = episodes[i];
        proof {
            one_more(episodes@, watched@, i as int);
        }
        if is_among(at, watched) {
            count += 1;
        } else if next_up.is_none() {
            next_up = Some(at);
        }
    }
    assert(episodes@.take(total as int) =~= episodes@);
    let mut out: Object = Object::new();
    out.insert("watched".to_owned(), Value::from_u64(count as u64));
    out.insert("total".to_owned(), Value::from_u64(total as u64));
    out.insert("nextUp".to_owned(), coord_if_any(next_up));
    out.insert("complete".to_owned(), Value::Bool(total > 0 && count >= total));
    Value::Object(out)
}

/// Whether `i` is the first place in a layout at which a season is.
pub open spec fn first_season(layout: Seq<SeasonCount>, season: i64, i: int) -> bool {
    &&& 0 <= i < layout.len()
    &&& layout[i].season == season
    &&& forall|j: int| 0 <= j < i ==> (#[trigger] layout[j]).season != season
}

/// The episode immediately after `at` in a layout: the next in its season, else the next season's first.
pub open spec fn following(at: Coord, layout: Seq<SeasonCount>) -> Option<Coord> {
    if exists|i: int| first_season(layout, at.season, i) {
        let i = choose|i: int| first_season(layout, at.season, i);
        if at.episode < layout[i].episodes {
            Some(Coord { season: at.season, episode: (at.episode + 1) as i64 })
        } else if i + 1 < layout.len() {
            Some(Coord { season: layout[i + 1].season, episode: 1 })
        } else {
            None
        }
    } else {
        None
    }
}

/// The episode immediately after `at`, and whether it has aired.
pub open spec fn after(at: Coord, seasons: Seq<SeasonCount>, last_aired: Option<Coord>) -> Json {
    let next = following(at, layout(seasons));
    Json::Object(
        map![
            "next"@ => coord_or_null(next),
            "aired"@ => Json::Bool(next is Some && has_aired(next->0, last_aired)),
        ],
    )
}

/// The episode immediately after `at` in a layout.
fn next_in(at: Coord, layout: &Vec<SeasonCount>) -> (next: Option<Coord>)
    ensures
        next == following(at, layout@),
{
    for i in 0..layout.len()
        invariant
            forall|j: int| 0 <= j < i ==> (#[trigger] layout@[j]).season != at.season,
    {
        if layout[i].season == at.season {
            assert(first_season(layout@, at.season, i as int));
            let ghost k = choose|k: int| first_season(layout@, at.season, k);
            assert(k == i);
            return if at.episode < layout[i].episodes {
                Some(Coord { season: at.season, episode: at.episode + 1 })
            } else if i + 1 < layout.len() {
                Some(Coord { season: layout[i + 1].season, episode: 1 })
            } else {
                None
            };
        }
    }
    None
}

/// The episode immediately after `at` in the layout: the next in its season, else the next season's first.
///
/// `aired` is reported separately rather than folded in, because "nothing listed after this" and "listed but
/// not out yet" are different answers: the first means the series is finished until it is renewed, the
/// second means it is merely waiting for a date.
pub fn episode_after(at: Coord, seasons: &[SeasonCount], last_aired: Option<Coord>) -> (v: Value)
    ensures
        v@ == after(at, seasons@, last_aired),
{
    let layout: Vec<SeasonCount> = regular(seasons);
    let next: Option<Coord> = next_in(at, &layout);
    let out_yet: bool = match next {
        Some(next) => is_aired(next, last_aired),
        None => false,
    };
    let mut out: Object = Object::new();
    out.insert("next".to_owned(), coord_if_any(next));
    out.insert("aired".to_owned(), Value::Bool(out_yet));
    Value::Object(out)
}

/// Whether `i` is the first place at which an episode is.
pub open spec fn first_place(episodes: Seq<Coord>, at: Coord, i: int) -> bool {
    &&& 0 <= i < episodes.len()
    &&& episodes[i] == at
    &&& forall|j: int| 0 <= j < i ==> #[trigger] episodes[j] != at
}

/// The episode that follows another, if both are there.
pub open spec fn successor(episodes: Seq<Coord>, at: Coord) -> Option<Coord> {
    if exists|i: int| first_place(episodes, at, i) && i + 1 < episodes.len() {
        let i = choose|i: int| first_place(episodes, at, i) && i + 1 < episodes.len();
        Some(episodes[i + 1])
    } else {
        None
    }
}

/// How a target is written.
pub open spec fn target(episode: Option<Coord>, fraction: Double, kind: Seq<char>) -> Json {
    Json::Object(
        map![
            "episode"@ => coord_or_null(episode),
            "fraction"@ => json::float(fraction),
            "kind"@ => Json::Text(kind),
        ],
    )
}

/// Where "Continue" should take the viewer.
pub open spec fn continued(
    seasons: Seq<SeasonCount>,
    last_aired: Option<Coord>,
    last_played: Option<LastPlayed>,
) -> Json {
    let zero = Double { bits: 0 };
    let threshold = Double { bits: double::WATCHED };
    let episodes = so_far(seasons, last_aired);
    match last_played {
        None => target(first_of(episodes), zero, "start"@),
        Some(played) => {
            let at = Coord { season: played.season, episode: played.episode };
            if played.fraction.ordered() && played.fraction.rank() < threshold.rank() {
                target(Some(at), played.fraction, "resume"@)
            } else {
                match successor(episodes, at) {
                    Some(next) => target(Some(next), zero, "next"@),
                    None => target(first_of(episodes), zero, "start"@),
                }
            }
        },
    }
}

/// Writes a target.
fn write_target(episode: Option<Coord>, fraction: Double, kind: &str) -> (v: Value)
    ensures
        v@ == target(episode, fraction, kind@),
{
    let mut out: Object = Object::new();
    out.insert("episode".to_owned(), coord_if_any(episode));
    out.insert("fraction".to_owned(), Value::from_double(fraction));
    out.insert("kind".to_owned(), Value::from_str(kind));
    Value::Object(out)
}

/// The episode that follows another, if both are there.
fn next_of(episodes: &Vec<Coord>, at: Coord) -> (next: Option<Coord>)
    ensures
        next == successor(episodes@, at),
{
    for i in 0..episodes.len()
        invariant
            forall|j: int| 0 <= j < i ==> #[trigger] episodes@[j] != at,
    {
        if episodes[i] == at {
            assert(first_place(episodes@, at, i as int));
            assert forall|k: int| first_place(episodes@, at, k) implies k == i by {}
            return if i + 1 < episodes.len() {
                Some(episodes[i + 1])
            } else {
                None
            };
        }
    }
    None
}

/// Where "Continue" should take the viewer: resume the episode last played if it is unfinished, else the one
/// after it, else the first. A finished finale is a rewatch from the start, not a dead end.
pub fn continue_target(
    seasons: &[SeasonCount],
    last_aired: Option<Coord>,
    last_played: Option<LastPlayed>,
) -> (v: Value)
    ensures
        v@ == continued(seasons@, last_aired, last_played),
{
    let zero: Double = Double { bits: 0 };
    let episodes: Vec<Coord> = aired(seasons, last_aired);
    let first: Option<Coord> = if episodes.len() > 0 {
        Some(episodes[0])
    } else {
        None
    };
    match last_played {
        None => write_target(first, zero, "start"),
        Some(played) => {
            let at: Coord = Coord { season: played.season, episode: played.episode };
            if played.fraction.less_than(Double { bits: double::WATCHED }) {
                return write_target(Some(at), played.fraction, "resume");
            }
            match next_of(&episodes, at) {
                Some(next) => write_target(Some(next), zero, "next"),
                None => write_target(first, zero, "start"),
            }
        },
    }
}

// ---------------------------------------------------------------------------------------------------
// Laws.

/// Every episode of a layout is one of its seasons', counted from one.
proof fn listed_episodes(layout: Seq<SeasonCount>, i: int)
    requires
        in_order(layout),
        0 <= i < listed(layout).len(),
    ensures
        exists|k: int|
            0 <= k < layout.len() && (#[trigger] layout[k]).season == listed(layout)[i].season && 1
                <= listed(layout)[i].episode <= layout[k].episodes,
    decreases layout.len(),
{
    let front = layout.drop_last();
    let last = layout.last();
    assert(is_regular(layout[layout.len() - 1]));
    if i < listed(front).len() {
        assert forall|k: int| 0 <= k < front.len() implies is_regular(#[trigger] front[k]) by {
            assert(is_regular(layout[k]));
        }
        listed_episodes(front, i);
        let k = choose|k: int|
            0 <= k < front.len() && (#[trigger] front[k]).season == listed(front)[i].season && 1
                <= listed(front)[i].episode <= front[k].episodes;
        assert(layout[k] == front[k]);
        assert(listed(layout)[i] == listed(front)[i]);
    } else {
        let n = i - listed(front).len();
        assert(listed(layout)[i] == episodes_of(last)[n]);
        assert(layout[layout.len() - 1] == last);
    }
}

/// The series so far holds regular episodes that have aired, and nothing else: no Special, and nothing that
/// is not out yet.
pub proof fn the_series_so_far_has_aired(
    seasons: Seq<SeasonCount>,
    last_aired: Option<Coord>,
    i: int,
)
    requires
        0 <= i < so_far(seasons, last_aired).len(),
    ensures
        has_aired(so_far(seasons, last_aired)[i], last_aired),
        so_far(seasons, last_aired)[i].season > 0,
        so_far(seasons, last_aired)[i].episode >= 1,
        listed(layout(seasons)).contains(so_far(seasons, last_aired)[i]),
{
    let all = listed(layout(seasons));
    let keep = |at: Coord| has_aired(at, last_aired);
    filtered(all, keep, i);
    let j = choose|j: int| 0 <= j < all.len() && all[j] == so_far(seasons, last_aired)[i];
    the_layout_is_in_order(seasons);
    listed_episodes(layout(seasons), j);
    let r = layout(seasons);
    let k = choose|k: int|
        0 <= k < r.len() && (#[trigger] r[k]).season == all[j].season && 1 <= all[j].episode
            <= r[k].episodes;
    assert(is_regular(r[k]));
}

/// Every regular episode that has aired is in the series so far.
pub proof fn nothing_aired_is_missing(seasons: Seq<SeasonCount>, last_aired: Option<Coord>, at: Coord)
    requires
        listed(layout(seasons)).contains(at),
        has_aired(at, last_aired),
    ensures
        so_far(seasons, last_aired).contains(at),
{
    let all = listed(layout(seasons));
    let i = choose|i: int| 0 <= i < all.len() && all[i] == at;
    all.lemma_filter_contains(|at: Coord| has_aired(at, last_aired), i);
}

/// What a filter keeps was there, and passes.
proof fn filtered(all: Seq<Coord>, keep: spec_fn(Coord) -> bool, i: int)
    requires
        0 <= i < all.filter(keep).len(),
    ensures
        all.contains(all.filter(keep)[i]),
        keep(all.filter(keep)[i]),
    decreases all.len(),
{
    reveal(Seq::filter);
    let front = all.drop_last();
    if i < front.filter(keep).len() {
        filtered(front, keep, i);
        let j = choose|j: int| 0 <= j < front.len() && front[j] == front.filter(keep)[i];
        assert(all[j] == all.filter(keep)[i]);
    } else {
        assert(all[all.len() - 1] == all.filter(keep)[i]);
    }
}

/// Every episode was watched or was not.
proof fn watched_or_not(episodes: Seq<Coord>, watched: Seq<Coord>)
    ensures
        watched_among(episodes, watched) + unwatched_among(episodes, watched).len()
            == episodes.len(),
    decreases episodes.len(),
{
    reveal(Seq::filter);
    if episodes.len() > 0 {
        watched_or_not(episodes.drop_last(), watched);
    }
}

/// A series is complete exactly when it has episodes and none of them is left to offer. It never counts
/// more watched episodes than there are.
pub proof fn complete_means_nothing_next(
    seasons: Seq<SeasonCount>,
    last_aired: Option<Coord>,
    watched: Seq<Coord>,
)
    ensures
        ({
            let state = state_of(seasons, last_aired, watched);
            let total = so_far(seasons, last_aired).len();
            &&& state.at("complete"@) == Json::Bool(true) <==> total > 0 && state.at("nextUp"@)
                == Json::Null
            &&& state.at("total"@) == Json::Int(total as int)
            &&& state.at("watched"@) matches Json::Int(n) && 0 <= n <= total
        }),
{
    watched_or_not(so_far(seasons, last_aired), watched);
    reveal_strlit("watched");
    reveal_strlit("total");
    reveal_strlit("nextUp");
    reveal_strlit("complete");
    assert("watched"@.len() == 7 && "total"@.len() == 5 && "nextUp"@.len() == 6 && "complete"@.len()
        == 8);
}

/// Whether everything before place `i` was watched.
pub open spec fn watched_up_to(episodes: Seq<Coord>, watched: Seq<Coord>, i: int) -> bool {
    forall|j: int| 0 <= j < i ==> watched.contains(#[trigger] episodes[j])
}

/// What the first episodes leave to offer.
proof fn offered_among_first(episodes: Seq<Coord>, watched: Seq<Coord>, n: int)
    requires
        0 <= n <= episodes.len(),
    ensures
        match first_of(unwatched_among(episodes.take(n), watched)) {
            Some(next) => !watched.contains(next) && exists|i: int|
                0 <= i < n && #[trigger] episodes[i] == next && watched_up_to(episodes, watched, i),
            None => watched_up_to(episodes, watched, n),
        },
    decreases n,
{
    if n == 0 {
        none_yet(episodes, watched);
    } else {
        offered_among_first(episodes, watched, n - 1);
        one_more(episodes, watched, n - 1);
    }
}

/// What is offered next is an episode of the series so far that was not watched, and every one before it
/// was. Nothing is offered only when all were.
pub proof fn what_is_next_was_not_watched(episodes: Seq<Coord>, watched: Seq<Coord>)
    ensures
        match first_of(unwatched_among(episodes, watched)) {
            Some(next) => !watched.contains(next) && exists|i: int|
                0 <= i < episodes.len() && #[trigger] episodes[i] == next && watched_up_to(
                    episodes,
                    watched,
                    i,
                ),
            None => watched_up_to(episodes, watched, episodes.len() as int),
        },
{
    offered_among_first(episodes, watched, episodes.len() as int);
    assert(episodes.take(episodes.len() as int) =~= episodes);
}

/// What follows an episode is a regular one of the layout.
pub proof fn what_follows_is_listed(at: Coord, seasons: Seq<SeasonCount>)
    requires
        at.episode >= 0,
    ensures
        following(at, layout(seasons)) matches Some(next) ==> next.season > 0 && next.episode >= 1
            && next.season >= at.season && exists|k: int|
            0 <= k < layout(seasons).len() && (#[trigger] layout(seasons)[k]).season == next.season
                && next.episode <= layout(seasons)[k].episodes,
{
    let r = layout(seasons);
    the_layout_is_in_order(seasons);
    if let Some(next) = following(at, r) {
        let i = choose|i: int| first_season(r, at.season, i);
        assert(is_regular(r[i]));
        if at.episode >= r[i].episodes {
            assert(is_regular(r[i + 1]));
            assert(r[i].season <= r[i + 1].season);
        }
    }
}

/// A season put into a layout is there, and so is all that was.
proof fn placed_holds(layout: Seq<SeasonCount>, s: SeasonCount, x: SeasonCount)
    ensures
        placed(layout, s).contains(x) <==> layout.contains(x) || x == s,
    decreases layout.len(),
{
    let out = placed(layout, s);
    if layout.len() == 0 || layout.last().season <= s.season {
        if layout.contains(x) {
            let i = choose|i: int| 0 <= i < layout.len() && layout[i] == x;
            assert(out[i] == x);
        }
        assert(out[layout.len() as int] == s);
    } else {
        let front = layout.drop_last();
        let inner = placed(front, s);
        placed_holds(front, s, x);
        assert(layout[layout.len() - 1] == layout.last());
        assert(out[inner.len() as int] == layout.last());
        if layout.contains(x) && x != layout.last() {
            let i = choose|i: int| 0 <= i < layout.len() && layout[i] == x;
            assert(front[i] == x);
        }
        if front.contains(x) {
            let i = choose|i: int| 0 <= i < front.len() && front[i] == x;
            assert(layout[i] == x);
        }
        if inner.contains(x) {
            let i = choose|i: int| 0 <= i < inner.len() && inner[i] == x;
            assert(out[i] == x);
        }
        if out.contains(x) && x != layout.last() {
            let i = choose|i: int| 0 <= i < out.len() && out[i] == x;
            assert(inner[i] == x);
        }
    }
}

/// The layout holds the regular seasons given, and no others.
pub proof fn layout_holds(seasons: Seq<SeasonCount>, x: SeasonCount)
    ensures
        layout(seasons).contains(x) <==> seasons.contains(x) && is_regular(x),
    decreases seasons.len(),
{
    if seasons.len() > 0 {
        let front = seasons.drop_last();
        let last = seasons.last();
        layout_holds(front, x);
        placed_holds(layout(front), last, x);
        assert(seasons[seasons.len() - 1] == last);
        if seasons.contains(x) && x != last {
            let i = choose|i: int| 0 <= i < seasons.len() && seasons[i] == x;
            assert(front[i] == x);
        }
        if front.contains(x) {
            let i = choose|i: int| 0 <= i < front.len() && front[i] == x;
            assert(seasons[i] == x);
        }
    }
}

/// The episodes of a layout are those of its seasons.
proof fn listed_holds(layout: Seq<SeasonCount>, at: Coord)
    requires
        in_order(layout),
    ensures
        listed(layout).contains(at) <==> exists|k: int|
            0 <= k < layout.len() && is_episode_of(at, #[trigger] layout[k]),
    decreases layout.len(),
{
    if layout.len() > 0 {
        let front = layout.drop_last();
        let last = layout.last();
        let before = listed(front);
        let own = episodes_of(last);
        let all = listed(layout);
        assert(is_regular(layout[layout.len() - 1]));
        assert forall|k: int| 0 <= k < front.len() implies is_regular(#[trigger] front[k]) by {
            assert(is_regular(layout[k]));
        }
        listed_holds(front, at);
        if all.contains(at) {
            let i = choose|i: int| 0 <= i < all.len() && all[i] == at;
            if i < before.len() {
                assert(before[i] == at);
                assert(before.contains(at));
                let k = choose|k: int| 0 <= k < front.len() && is_episode_of(at, #[trigger] front[k]);
                assert(is_episode_of(at, layout[k]));
            } else {
                assert(own[i - before.len()] == at);
                assert(is_episode_of(at, layout[layout.len() - 1]));
            }
        }
        if exists|k: int| 0 <= k < layout.len() && is_episode_of(at, #[trigger] layout[k]) {
            let k = choose|k: int| 0 <= k < layout.len() && is_episode_of(at, #[trigger] layout[k]);
            if k < front.len() {
                assert(is_episode_of(at, front[k]));
                let i = choose|i: int| 0 <= i < before.len() && before[i] == at;
                assert(all[i] == at);
            } else {
                assert(own[at.episode - 1] == at);
                assert(all[before.len() + at.episode - 1] == at);
            }
        }
    }
}

/// Whether an episode is one of a season's.
pub open spec fn is_episode_of(at: Coord, s: SeasonCount) -> bool {
    at.season == s.season && 1 <= at.episode <= s.episodes
}

/// The series so far holds exactly the episodes of the regular seasons given that have aired.
pub proof fn the_series_so_far_is_what_aired(
    seasons: Seq<SeasonCount>,
    last_aired: Option<Coord>,
    at: Coord,
)
    ensures
        so_far(seasons, last_aired).contains(at) <==> has_aired(at, last_aired) && exists|s: SeasonCount|
            #[trigger]
            seasons.contains(s) && is_regular(s) && is_episode_of(at, s),
{
    let r = layout(seasons);
    let all = listed(r);
    let out = so_far(seasons, last_aired);
    the_layout_is_in_order(seasons);
    listed_holds(r, at);
    if out.contains(at) {
        let i = choose|i: int| 0 <= i < out.len() && out[i] == at;
        the_series_so_far_has_aired(seasons, last_aired, i);
        let k = choose|k: int| 0 <= k < r.len() && is_episode_of(at, #[trigger] r[k]);
        assert(r.contains(r[k]));
        layout_holds(seasons, r[k]);
        assert(seasons.contains(r[k]) && is_regular(r[k]) && is_episode_of(at, r[k]));
    }
    if has_aired(at, last_aired) && exists|s: SeasonCount| #[trigger]
        seasons.contains(s) && is_regular(s) && is_episode_of(at, s) {
        let s = choose|s: SeasonCount| #[trigger]
            seasons.contains(s) && is_regular(s) && is_episode_of(at, s);
        layout_holds(seasons, s);
        let k = choose|k: int| 0 <= k < r.len() && r[k] == s;
        assert(is_episode_of(at, r[k]));
        nothing_aired_is_missing(seasons, last_aired, at);
    }
}

/// Whether an episode comes before another: by season, then by number.
pub open spec fn comes_before(a: Coord, b: Coord) -> bool {
    a.season < b.season || (a.season == b.season && a.episode < b.episode)
}

/// Whether episodes come in their order, each once.
pub open spec fn strictly_ascending(episodes: Seq<Coord>) -> bool {
    forall|i: int, j: int|
        #![trigger episodes[i], episodes[j]]
        0 <= i < j < episodes.len() ==> comes_before(episodes[i], episodes[j])
}

/// Whether no two regular seasons have one number.
pub open spec fn numbers_differ(seasons: Seq<SeasonCount>) -> bool {
    forall|i: int, j: int|
        #![trigger seasons[i], seasons[j]]
        0 <= i < j < seasons.len() && is_regular(seasons[i]) && is_regular(seasons[j])
            ==> seasons[i].season != seasons[j].season
}

/// Whether seasons come in their order, each number once.
pub open spec fn strict(layout: Seq<SeasonCount>) -> bool {
    forall|i: int, j: int|
        #![trigger layout[i], layout[j]]
        0 <= i < j < layout.len() ==> layout[i].season < layout[j].season
}

/// A season of another number leaves a strict layout strict.
proof fn placed_is_strict(layout: Seq<SeasonCount>, s: SeasonCount)
    requires
        strict(layout),
        forall|k: int| 0 <= k < layout.len() ==> (#[trigger] layout[k]).season != s.season,
    ensures
        strict(placed(layout, s)),
        forall|k: int|
            0 <= k < placed(layout, s).len() ==> (#[trigger] placed(layout, s)[k]).season
                == s.season || exists|m: int|
                0 <= m < layout.len() && #[trigger] layout[m] == placed(layout, s)[k],
    decreases layout.len(),
{
    let out = placed(layout, s);
    if layout.len() == 0 || layout.last().season <= s.season {
        assert forall|i: int, j: int|
            #![trigger out[i], out[j]]
            0 <= i < j < out.len() implies out[i].season < out[j].season by {
            if j == layout.len() {
                assert(layout[i].season != s.season);
                assert(layout[i].season <= layout[layout.len() - 1].season);
            }
        }
        assert forall|k: int| 0 <= k < out.len() implies (#[trigger] out[k]).season == s.season
            || exists|m: int| 0 <= m < layout.len() && #[trigger] layout[m] == out[k] by {
            if k < layout.len() {
                assert(layout[k] == out[k]);
            }
        }
    } else {
        let front = layout.drop_last();
        let last = layout.last();
        let inner = placed(front, s);
        assert forall|k: int| 0 <= k < front.len() implies (#[trigger] front[k]).season
            != s.season by {
            assert(layout[k].season != s.season);
        }
        assert forall|i: int, j: int|
            #![trigger front[i], front[j]]
            0 <= i < j < front.len() implies front[i].season < front[j].season by {
            assert(layout[i].season < layout[j].season);
        }
        placed_is_strict(front, s);
        assert forall|i: int, j: int|
            #![trigger out[i], out[j]]
            0 <= i < j < out.len() implies out[i].season < out[j].season by {
            if j < inner.len() {
                assert(inner[i].season < inner[j].season);
            } else if inner[i].season != s.season {
                let m = choose|m: int| 0 <= m < front.len() && #[trigger] front[m] == inner[i];
                assert(layout[m].season < layout[layout.len() - 1].season);
            }
        }
        assert forall|k: int| 0 <= k < out.len() implies (#[trigger] out[k]).season == s.season
            || exists|m: int| 0 <= m < layout.len() && #[trigger] layout[m] == out[k] by {
            if k < inner.len() {
                assert(out[k] == inner[k]);
                if inner[k].season != s.season {
                    let m = choose|m: int| 0 <= m < front.len() && #[trigger] front[m] == inner[k];
                    assert(layout[m] == out[k]);
                }
            } else {
                assert(layout[layout.len() - 1] == out[k]);
            }
        }
    }
}

/// Where season numbers differ, the layout is strict.
pub proof fn layout_is_strict(seasons: Seq<SeasonCount>)
    requires
        numbers_differ(seasons),
    ensures
        strict(layout(seasons)),
    decreases seasons.len(),
{
    if seasons.len() > 0 {
        let front = seasons.drop_last();
        let last = seasons.last();
        let r = layout(front);
        assert forall|i: int, j: int|
            #![trigger front[i], front[j]]
            0 <= i < j < front.len() && is_regular(front[i]) && is_regular(
                front[j],
            ) implies front[i].season != front[j].season by {
            assert(seasons[i].season != seasons[j].season);
        }
        layout_is_strict(front);
        if is_regular(last) {
            assert forall|k: int| 0 <= k < r.len() implies (#[trigger] r[k]).season
                != last.season by {
                assert(r.contains(r[k]));
                layout_holds(front, r[k]);
                let i = choose|i: int| 0 <= i < front.len() && front[i] == r[k];
                assert(seasons[i].season != seasons[seasons.len() - 1].season);
            }
            placed_is_strict(r, last);
        }
    }
}

/// The episodes of a strict layout ascend.
proof fn listed_ascends(layout: Seq<SeasonCount>)
    requires
        in_order(layout),
        strict(layout),
    ensures
        strictly_ascending(listed(layout)),
    decreases layout.len(),
{
    if layout.len() > 0 {
        let front = layout.drop_last();
        let last = layout.last();
        let before = listed(front);
        let own = episodes_of(last);
        let all = listed(layout);
        assert(is_regular(layout[layout.len() - 1]));
        assert forall|k: int| 0 <= k < front.len() implies is_regular(#[trigger] front[k]) by {
            assert(is_regular(layout[k]));
        }
        assert forall|i: int, j: int|
            #![trigger front[i], front[j]]
            0 <= i < j < front.len() implies front[i].season < front[j].season by {
            assert(layout[i].season < layout[j].season);
        }
        listed_ascends(front);
        assert forall|i: int, j: int|
            #![trigger all[i], all[j]]
            0 <= i < j < all.len() implies comes_before(all[i], all[j]) by {
            if j < before.len() {
                assert(comes_before(before[i], before[j]));
            } else if i < before.len() {
                listed_episodes(front, i);
                let k = choose|k: int|
                    0 <= k < front.len() && (#[trigger] front[k]).season == before[i].season && 1
                        <= before[i].episode <= front[k].episodes;
                assert(layout[k].season < layout[layout.len() - 1].season);
                assert(all[j] == own[j - before.len()]);
            } else {
                assert(all[i] == own[i - before.len()]);
                assert(all[j] == own[j - before.len()]);
            }
        }
    }
}

/// What a filter keeps of ascending episodes ascends.
proof fn filtered_ascends(all: Seq<Coord>, keep: spec_fn(Coord) -> bool)
    requires
        strictly_ascending(all),
    ensures
        strictly_ascending(all.filter(keep)),
    decreases all.len(),
{
    reveal(Seq::filter);
    if all.len() > 0 {
        let front = all.drop_last();
        let kept = front.filter(keep);
        let out = all.filter(keep);
        assert forall|i: int, j: int|
            #![trigger front[i], front[j]]
            0 <= i < j < front.len() implies comes_before(front[i], front[j]) by {
            assert(comes_before(all[i], all[j]));
        }
        filtered_ascends(front, keep);
        assert forall|i: int, j: int|
            #![trigger out[i], out[j]]
            0 <= i < j < out.len() implies comes_before(out[i], out[j]) by {
            if j < kept.len() {
                assert(comes_before(kept[i], kept[j]));
            } else {
                filtered(front, keep, i);
                let m = choose|m: int| 0 <= m < front.len() && front[m] == kept[i];
                assert(comes_before(all[m], all[all.len() - 1]));
            }
        }
    }
}

/// Where the numbers of the regular seasons differ, the series so far is in order and names no episode
/// twice, however the seasons were given.
pub proof fn the_series_so_far_ascends(seasons: Seq<SeasonCount>, last_aired: Option<Coord>)
    requires
        numbers_differ(seasons),
    ensures
        strictly_ascending(so_far(seasons, last_aired)),
{
    the_layout_is_in_order(seasons);
    layout_is_strict(seasons);
    listed_ascends(layout(seasons));
    filtered_ascends(listed(layout(seasons)), |at: Coord| has_aired(at, last_aired));
}

} // verus!
