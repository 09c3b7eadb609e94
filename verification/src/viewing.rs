//! What a series looks like to its viewer, in the plainest words: which episodes there are, in which order,
//! what was watched of them, and where to go on.

use crate::double;
use crate::double::Double;
use crate::json::Json;
use crate::series;
use crate::series::{Coord, LastPlayed, SeasonCount};
use vstd::prelude::*;

verus! {

/// Whether an episode is out: not after the newest one, by season and then by number. A newest one that is a
/// Special, or none, rules nothing out.
pub open spec fn is_out(at: Coord, last_aired: Option<Coord>) -> bool {
    last_aired matches Some(last) ==> {
        ||| last.season <= 0
        ||| at.season < last.season
        ||| at.season == last.season && at.episode <= last.episode
    }
}

/// Whether an episode is one of a regular season that was given, and is out.
pub open spec fn belongs(at: Coord, seasons: Seq<SeasonCount>, last_aired: Option<Coord>) -> bool {
    &&& at.season > 0
    &&& at.episode >= 1
    &&& is_out(at, last_aired)
    &&& exists|i: int|
        0 <= i < seasons.len() && (#[trigger] seasons[i]).season == at.season && at.episode
            <= seasons[i].episodes
}

/// Whether an episode is before another: in an earlier season, or earlier in the same one.
pub open spec fn precedes(a: Coord, b: Coord) -> bool {
    a.season < b.season || a.season == b.season && a.episode < b.episode
}

/// How an episode is told: by its season and its number.
pub open spec fn spot(at: Coord) -> Json {
    Json::Object(
        map!["season"@ => Json::Int(at.season as int), "episode"@ => Json::Int(at.episode as int)],
    )
}

/// Whether no two of the seasons given have one number, but for Specials and seasons without episodes.
pub open spec fn told_apart(seasons: Seq<SeasonCount>) -> bool {
    forall|i: int, j: int|
        #![trigger seasons[i], seasons[j]]
        0 <= i < j < seasons.len() && seasons[i].season == seasons[j].season ==> seasons[i].season
            <= 0 || seasons[i].episodes <= 0 || seasons[j].episodes <= 0
}

/// An episode has aired exactly when it is out.
pub proof fn aired_is_not_after_the_newest(at: Coord, last_aired: Option<Coord>)
    ensures
        series::has_aired(at, last_aired) <==> is_out(at, last_aired),
        last_aired matches Some(last) ==> (last.season > 0 ==> (series::has_aired(at, last_aired)
            <==> !precedes(last, at))),
        series::coord_json(at) == spot(at),
        series::coord_or_null(Some(at)) == spot(at),
        series::coord_or_null(None) == Json::Null,
{
}

/// The series so far holds exactly the episodes that belong to it.
pub proof fn the_series_so_far_is_what_belongs(
    seasons: Seq<SeasonCount>,
    last_aired: Option<Coord>,
    at: Coord,
)
    ensures
        series::so_far(seasons, last_aired).contains(at) <==> belongs(at, seasons, last_aired),
{
    series::the_series_so_far_is_what_aired(seasons, last_aired, at);
    if belongs(at, seasons, last_aired) {
        let i = choose|i: int|
            0 <= i < seasons.len() && (#[trigger] seasons[i]).season == at.season && at.episode
                <= seasons[i].episodes;
        assert(seasons.contains(seasons[i]));
    }
    if series::so_far(seasons, last_aired).contains(at) {
        let s = choose|s: SeasonCount| #[trigger]
            seasons.contains(s) && series::is_regular(s) && series::is_episode_of(at, s);
        let i = choose|i: int| 0 <= i < seasons.len() && seasons[i] == s;
        assert(seasons[i].season == at.season);
    }
}

/// Where season numbers differ, the series so far goes up, and names nothing twice.
pub proof fn the_series_so_far_goes_up(
    seasons: Seq<SeasonCount>,
    last_aired: Option<Coord>,
    i: int,
    j: int,
)
    requires
        told_apart(seasons),
        0 <= i < j < series::so_far(seasons, last_aired).len(),
    ensures
        precedes(
            series::so_far(seasons, last_aired)[i],
            series::so_far(seasons, last_aired)[j],
        ),
{
    assert(series::numbers_differ(seasons));
    series::the_series_so_far_ascends(seasons, last_aired);
}

/// With no newest episode known there is all that the layout lists; with one, what is left of it when what is
/// not out goes.
pub proof fn what_is_not_out_is_left_out(seasons: Seq<SeasonCount>, last_aired: Option<Coord>)
    ensures
        series::so_far(seasons, last_aired) == series::so_far(seasons, None).filter(
            |at: Coord| is_out(at, last_aired),
        ),
        series::so_far(seasons, None) == series::listed(series::layout(seasons)),
{
    let all = series::listed(series::layout(seasons));
    let keep = |at: Coord| series::has_aired(at, last_aired);
    assert(keep =~= |at: Coord| is_out(at, last_aired));
    everything_passes(all);
}

/// With no newest episode known nothing is left out.
proof fn everything_passes(all: Seq<Coord>)
    ensures
        all.filter(|at: Coord| series::has_aired(at, None)) == all,
    decreases all.len(),
{
    reveal(Seq::filter);
    if all.len() > 0 {
        everything_passes(all.drop_last());
        assert(all.drop_last().push(all.last()) =~= all);
    }
    assert(all.filter(|at: Coord| series::has_aired(at, None)) =~= all);
}

/// A season put into its place stays behind those of its number.
proof fn placed_is_stable(layout: Seq<SeasonCount>, s: SeasonCount, n: i64)
    requires
        forall|i: int, j: int|
            #![trigger layout[i], layout[j]]
            0 <= i < j < layout.len() ==> layout[i].season <= layout[j].season,
    ensures
        series::placed(layout, s).filter(|x: SeasonCount| x.season == n) == if s.season == n {
            layout.filter(|x: SeasonCount| x.season == n).push(s)
        } else {
            layout.filter(|x: SeasonCount| x.season == n)
        },
    decreases layout.len(),
{
    reveal(Seq::filter);
    let keep = |x: SeasonCount| x.season == n;
    let out = series::placed(layout, s);
    if layout.len() == 0 || layout.last().season <= s.season {
        assert(out.drop_last() =~= layout);
    } else {
        let front = layout.drop_last();
        assert forall|i: int, j: int|
            #![trigger front[i], front[j]]
            0 <= i < j < front.len() implies front[i].season <= front[j].season by {
            assert(layout[i].season <= layout[j].season);
        }
        placed_is_stable(front, s, n);
        assert(out.drop_last() =~= series::placed(front, s));
    }
}

/// The layout is the regular seasons, sorted by number; seasons of one number stay in the order in which they
/// were given.
pub proof fn the_layout_is_sorted_and_stable(seasons: Seq<SeasonCount>, n: i64)
    ensures
        forall|i: int, j: int|
            #![trigger series::layout(seasons)[i], series::layout(seasons)[j]]
            0 <= i < j < series::layout(seasons).len() ==> series::layout(seasons)[i].season
                <= series::layout(seasons)[j].season,
        series::layout(seasons).filter(|x: SeasonCount| x.season == n) == seasons.filter(
            |x: SeasonCount| x.season == n && x.season > 0 && x.episodes > 0,
        ),
    decreases seasons.len(),
{
    series::the_layout_is_in_order(seasons);
    reveal(Seq::filter);
    if seasons.len() > 0 {
        let front = seasons.drop_last();
        the_layout_is_sorted_and_stable(front, n);
        if series::is_regular(seasons.last()) {
            placed_is_stable(series::layout(front), seasons.last(), n);
        }
    } else {
        assert(series::layout(seasons).filter(|x: SeasonCount| x.season == n) =~= seq![]);
    }
}

/// How many episodes the first seasons of a layout have.
pub open spec fn episodes_before(layout: Seq<SeasonCount>, i: int) -> int
    decreases i,
{
    if i <= 0 {
        0
    } else {
        episodes_before(layout, i - 1) + layout[i - 1].episodes
    }
}

/// The episodes before a season are counted from those seasons alone.
proof fn counted_alike(layout: Seq<SeasonCount>, i: int)
    requires
        0 <= i < layout.len(),
    ensures
        episodes_before(layout.drop_last(), i) == episodes_before(layout, i),
    decreases i,
{
    if i > 0 {
        counted_alike(layout, i - 1);
        assert(layout.drop_last()[i - 1] == layout[i - 1]);
    }
}

/// Episodes are listed season by season, each season's counted from one, and no more than it has.
pub proof fn episodes_are_counted_from_one(layout: Seq<SeasonCount>, i: int, k: int)
    requires
        forall|j: int| 0 <= j < layout.len() ==> (#[trigger] layout[j]).episodes > 0,
    ensures
        series::listed(layout).len() == episodes_before(layout, layout.len() as int),
        0 <= i < layout.len() && 0 <= k < layout[i].episodes ==> {
            &&& 0 <= episodes_before(layout, i) + k < series::listed(layout).len()
            &&& series::listed(layout)[episodes_before(layout, i) + k] == (Coord {
                season: layout[i].season,
                episode: (k + 1) as i64,
            })
        },
    decreases layout.len(),
{
    if layout.len() > 0 {
        let front = layout.drop_last();
        let last = layout.last();
        let n = front.len() as int;
        assert(layout[n] == last);
        assert(last.episodes > 0);
        assert forall|j: int| 0 <= j < front.len() implies (#[trigger] front[j]).episodes > 0 by {
            assert(layout[j].episodes > 0);
        }
        episodes_are_counted_from_one(front, i, k);
        counted_alike(layout, n);
        if 0 <= i < n {
            counted_alike(layout, i);
        }
    }
}

/// How many places hold an episode that was watched.
proof fn watched_places(episodes: Seq<Coord>, watched: Seq<Coord>)
    ensures
        series::watched_among(episodes, watched) == vstd::set_lib::set_int_range(
            0,
            episodes.len() as int,
        ).filter(|i: int| watched.contains(episodes[i])).len(),
        vstd::set_lib::set_int_range(0, episodes.len() as int).filter(
            |i: int| watched.contains(episodes[i]),
        ).finite(),
    decreases episodes.len(),
{
    reveal(Seq::filter);
    let n = episodes.len() as int;
    let held = vstd::set_lib::set_int_range(0, n).filter(|i: int| watched.contains(episodes[i]));
    vstd::set_lib::lemma_int_range(0, n);
    if n > 0 {
        let front = episodes.drop_last();
        let before = vstd::set_lib::set_int_range(0, n - 1).filter(
            |i: int| watched.contains(front[i]),
        );
        watched_places(front, watched);
        if watched.contains(episodes.last()) {
            assert(held =~= before.insert(n - 1));
        } else {
            assert(held =~= before);
        }
    } else {
        assert(held =~= Set::empty());
    }
}

/// The words of what is told of a series are told apart.
proof fn words_differ()
    ensures
        "watched"@.len() == 7,
        "total"@.len() == 5,
        "nextUp"@.len() == 6,
        "complete"@.len() == 8,
        "complete"@[0] == 'c',
        "next"@.len() == 4,
        "aired"@.len() == 5,
        "episode"@.len() == 7,
        "fraction"@.len() == 8,
        "fraction"@[0] == 'f',
        "kind"@.len() == 4,
        "season"@.len() == 6,
        "start"@.len() == 5,
        "resume"@.len() == 6,
{
    reveal_strlit("watched");
    reveal_strlit("total");
    reveal_strlit("nextUp");
    reveal_strlit("complete");
    reveal_strlit("next");
    reveal_strlit("aired");
    reveal_strlit("episode");
    reveal_strlit("fraction");
    reveal_strlit("kind");
    reveal_strlit("season");
    reveal_strlit("start");
    reveal_strlit("resume");
}

/// What is told of a series: how many episodes there are so far, at how many places one stands that was
/// watched, the first that was not, and whether there are episodes and none is left.
pub proof fn what_is_told_of_a_series(
    seasons: Seq<SeasonCount>,
    last_aired: Option<Coord>,
    watched: Seq<Coord>,
)
    ensures
        ({
            let all = series::so_far(seasons, last_aired);
            let state = series::state_of(seasons, last_aired, watched);
            let next = state.at("nextUp"@);
            &&& state is Object
            &&& state->Object_0.dom() == set!["watched"@, "total"@, "nextUp"@, "complete"@]
            &&& state.at("total"@) == Json::Int(all.len() as int)
            &&& state.at("watched"@) == Json::Int(
                vstd::set_lib::set_int_range(0, all.len() as int).filter(
                    |i: int| watched.contains(all[i]),
                ).len() as int,
            )
            &&& next == Json::Null <==> forall|i: int|
                0 <= i < all.len() ==> watched.contains(#[trigger] all[i])
            &&& next != Json::Null ==> exists|i: int|
                0 <= i < all.len() && next == spot(#[trigger] all[i]) && !watched.contains(all[i])
                    && forall|j: int| 0 <= j < i ==> watched.contains(#[trigger] all[j])
            &&& state.at("complete"@) == Json::Bool(all.len() > 0 && next == Json::Null)
        }),
{
    let all = series::so_far(seasons, last_aired);
    let state = series::state_of(seasons, last_aired, watched);
    words_differ();
    watched_places(all, watched);
    series::what_is_next_was_not_watched(all, watched);
    series::complete_means_nothing_next(seasons, last_aired, watched);
    assert(state->Object_0.dom() =~= set!["watched"@, "total"@, "nextUp"@, "complete"@]);
    match series::first_of(series::unwatched_among(all, watched)) {
        Some(next) => {
            let i = choose|i: int|
                0 <= i < all.len() && #[trigger] all[i] == next && series::watched_up_to(
                    all,
                    watched,
                    i,
                );
            assert(state.at("nextUp"@) == spot(all[i]));
            assert(!watched.contains(all[i]));
        },
        None => {},
    }
}

/// Where season numbers differ, what is offered next is the least of the episodes that belong to the series
/// and were not watched; nothing is offered exactly when there is no such episode.
pub proof fn what_is_offered_is_the_least_unwatched(
    seasons: Seq<SeasonCount>,
    last_aired: Option<Coord>,
    watched: Seq<Coord>,
    at: Coord,
)
    requires
        told_apart(seasons),
    ensures
        ({
            let next = series::state_of(seasons, last_aired, watched).at("nextUp"@);
            &&& next == spot(at) <==> {
                &&& belongs(at, seasons, last_aired)
                &&& !watched.contains(at)
                &&& forall|x: Coord| #[trigger]
                    belongs(x, seasons, last_aired) && precedes(x, at) ==> watched.contains(x)
            }
            &&& next == Json::Null <==> forall|x: Coord| #[trigger]
                belongs(x, seasons, last_aired) ==> watched.contains(x)
        }),
{
    let all = series::so_far(seasons, last_aired);
    let next = series::state_of(seasons, last_aired, watched).at("nextUp"@);
    what_is_told_of_a_series(seasons, last_aired, watched);
    words_differ();
    the_series_so_far_is_what_belongs(seasons, last_aired, at);
    assert forall|x: Coord| #[trigger] belongs(x, seasons, last_aired) implies exists|i: int|
        0 <= i < all.len() && #[trigger] all[i] == x by {
        the_series_so_far_is_what_belongs(seasons, last_aired, x);
    }
    assert forall|i: int| 0 <= i < all.len() implies belongs(
        #[trigger] all[i],
        seasons,
        last_aired,
    ) by {
        assert(all.contains(all[i]));
        the_series_so_far_is_what_belongs(seasons, last_aired, all[i]);
    }
    if next != Json::Null {
        let i = choose|i: int|
            0 <= i < all.len() && next == spot(#[trigger] all[i]) && !watched.contains(all[i])
                && forall|j: int| 0 <= j < i ==> watched.contains(#[trigger] all[j]);
        assert(belongs(all[i], seasons, last_aired));
        assert forall|x: Coord| #[trigger]
            belongs(x, seasons, last_aired) && precedes(x, all[i]) implies watched.contains(x) by {
            let j = choose|j: int| 0 <= j < all.len() && #[trigger] all[j] == x;
            if j > i {
                the_series_so_far_goes_up(seasons, last_aired, i, j);
            }
        }
        spots_differ(at, all[i]);
        if belongs(at, seasons, last_aired) && !watched.contains(at) && forall|x: Coord| #[trigger]
            belongs(x, seasons, last_aired) && precedes(x, at) ==> watched.contains(x) {
            let j = choose|j: int| 0 <= j < all.len() && #[trigger] all[j] == at;
            if i < j {
                the_series_so_far_goes_up(seasons, last_aired, i, j);
            }
            assert(i == j);
        }
    } else {
        assert forall|x: Coord| #[trigger] belongs(x, seasons, last_aired) implies watched.contains(
            x,
        ) by {
            let j = choose|j: int| 0 <= j < all.len() && #[trigger] all[j] == x;
        }
    }
}

/// Different episodes are told differently.
pub proof fn spots_differ(a: Coord, b: Coord)
    ensures
        spot(a) == spot(b) <==> a == b,
        spot(a) is Object,
        spot(a).at("season"@) == Json::Int(a.season as int),
        spot(a).at("episode"@) == Json::Int(a.episode as int),
{
    words_differ();
    assert(spot(a).at("season"@) == Json::Int(a.season as int));
    assert(spot(a).at("episode"@) == Json::Int(a.episode as int));
    assert(spot(b).at("season"@) == Json::Int(b.season as int));
    assert(spot(b).at("episode"@) == Json::Int(b.episode as int));
}

/// What follows an episode: the next of its season; after the season's last, the first of the next season of
/// the layout; after that, and for an episode of no regular season, nothing. It has aired exactly when it is
/// there and out.
pub proof fn what_follows_an_episode(
    at: Coord,
    seasons: Seq<SeasonCount>,
    last_aired: Option<Coord>,
    i: int,
)
    ensures
        ({
            let r = series::layout(seasons);
            let out = series::after(at, seasons, last_aired);
            let next = out.at("next"@);
            &&& out is Object
            &&& out->Object_0.dom() == set!["next"@, "aired"@]
            &&& (forall|j: int| 0 <= j < r.len() ==> (#[trigger] r[j]).season != at.season)
                ==> next == Json::Null
            &&& (0 <= i < r.len() && r[i].season == at.season && forall|j: int|
                0 <= j < i ==> (#[trigger] r[j]).season < at.season) ==> {
                &&& at.episode < r[i].episodes ==> next == spot(
                    Coord { season: at.season, episode: (at.episode + 1) as i64 },
                )
                &&& at.episode >= r[i].episodes && i + 1 < r.len() ==> next == spot(
                    Coord { season: r[i + 1].season, episode: 1 },
                )
                &&& at.episode >= r[i].episodes && i + 1 == r.len() ==> next == Json::Null
            }
            &&& next == Json::Null ==> out.at("aired"@) == Json::Bool(false)
            &&& forall|x: Coord|
                next == #[trigger] spot(x) ==> out.at("aired"@) == Json::Bool(is_out(x, last_aired))
        }),
{
    let r = series::layout(seasons);
    let out = series::after(at, seasons, last_aired);
    words_differ();
    assert(out->Object_0.dom() =~= set!["next"@, "aired"@]);
    if 0 <= i < r.len() && r[i].season == at.season && forall|j: int|
        0 <= j < i ==> (#[trigger] r[j]).season < at.season {
        assert(series::first_season(r, at.season, i));
        let k = choose|k: int| series::first_season(r, at.season, k);
        assert(k == i);
    }
    if let Some(next) = series::following(at, r) {
        assert forall|x: Coord| out.at("next"@) == #[trigger] spot(x) implies x == next by {
            spots_differ(x, next);
        }
    }
}

/// Where season numbers differ, what follows an episode of the series is the least that comes after it,
/// whether it is out or not; after the last there is nothing.
pub proof fn what_follows_is_the_least_after(
    at: Coord,
    seasons: Seq<SeasonCount>,
    last_aired: Option<Coord>,
    x: Coord,
)
    requires
        told_apart(seasons),
        belongs(at, seasons, None),
    ensures
        series::after(at, seasons, last_aired).at("next"@) == spot(x) <==> {
            &&& belongs(x, seasons, None)
            &&& precedes(at, x)
            &&& forall|y: Coord| #[trigger] belongs(y, seasons, None) && precedes(at, y) ==> !precedes(y, x)
        },
        series::after(at, seasons, last_aired).at("next"@) == Json::Null <==> forall|y: Coord|
            #[trigger]
            belongs(y, seasons, None) ==> !precedes(at, y),
{
    let r = series::layout(seasons);
    let next = series::after(at, seasons, last_aired).at("next"@);
    assert(series::numbers_differ(seasons));
    series::the_layout_is_in_order(seasons);
    series::layout_is_strict(seasons);
    let k = choose|k: int|
        0 <= k < seasons.len() && (#[trigger] seasons[k]).season == at.season && at.episode
            <= seasons[k].episodes;
    series::layout_holds(seasons, seasons[k]);
    let i = choose|i: int| 0 <= i < r.len() && r[i] == seasons[k];
    assert forall|j: int| 0 <= j < i implies (#[trigger] r[j]).season < at.season by {
        assert(r[j].season < r[i].season);
    }
    what_follows_an_episode(at, seasons, last_aired, i);
    assert forall|y: Coord| #[trigger] belongs(y, seasons, None) implies exists|j: int|
        0 <= j < r.len() && (#[trigger] r[j]).season == y.season && y.episode <= r[j].episodes by {
        let m = choose|m: int|
            0 <= m < seasons.len() && (#[trigger] seasons[m]).season == y.season && y.episode
                <= seasons[m].episodes;
        series::layout_holds(seasons, seasons[m]);
        let j = choose|j: int| 0 <= j < r.len() && r[j] == seasons[m];
        assert(r[j].season == y.season);
    }
    assert forall|j: int, n: i64|
        0 <= j < r.len() && 1 <= n <= (#[trigger] r[j]).episodes implies #[trigger] belongs(
        Coord { season: r[j].season, episode: n },
        seasons,
        None,
    ) by {
        assert(r.contains(r[j]));
        series::layout_holds(seasons, r[j]);
        let m = choose|m: int| 0 <= m < seasons.len() && seasons[m] == r[j];
        assert(seasons[m].season == r[j].season);
    }
    if at.episode < r[i].episodes {
        let z = Coord { season: at.season, episode: (at.episode + 1) as i64 };
        assert(belongs(z, seasons, None));
        spots_differ(x, z);
    } else if i + 1 < r.len() {
        let z = Coord { season: r[i + 1].season, episode: 1 };
        assert(series::is_regular(r[i + 1]));
        assert(r[i].season < r[i + 1].season);
        assert(belongs(z, seasons, None));
        spots_differ(x, z);
        assert forall|y: Coord| #[trigger] belongs(y, seasons, None) && precedes(at, y) implies !precedes(
            y,
            z,
        ) by {
            let j = choose|j: int|
                0 <= j < r.len() && (#[trigger] r[j]).season == y.season && y.episode
                    <= r[j].episodes;
            if j <= i {
                assert(j == i || r[j].season < r[i].season);
            } else {
                assert(j == i + 1 || r[i + 1].season < r[j].season);
            }
        }
        assert(belongs(x, seasons, None) && precedes(at, x) && !precedes(x, z) && !precedes(z, x)
            ==> x == z);
    } else {
        assert forall|y: Coord| #[trigger] belongs(y, seasons, None) implies !precedes(at, y) by {
            let j = choose|j: int|
                0 <= j < r.len() && (#[trigger] r[j]).season == y.season && y.episode
                    <= r[j].episodes;
            assert(j == i || r[j].season < r[i].season);
        }
    }
}

/// Whether an episode was left before its end: less than 95 in 100 of it were played. What is not a number
/// counts as played to the end.
pub open spec fn is_unfinished(fraction: Double) -> bool {
    ||| fraction.bits < 0x3fee_6666_6666_6666
    ||| 0x8000_0000_0000_0000 <= fraction.bits <= 0xfff0_0000_0000_0000
}

/// Where "Continue" leads, over the series so far. An unfinished episode is resumed where it was left.
/// Otherwise it is what stands behind the first place of the episode last played; and the first of all where
/// nothing was played, where that episode is not in the series so far, or where nothing stands behind it.
pub proof fn where_continue_leads(
    seasons: Seq<SeasonCount>,
    last_aired: Option<Coord>,
    last_played: Option<LastPlayed>,
    i: int,
)
    ensures
        ({
            let all = series::so_far(seasons, last_aired);
            let out = series::continued(seasons, last_aired, last_played);
            let kind = out.at("kind"@);
            let resumed = last_played matches Some(p) && is_unfinished(p.fraction);
            &&& out is Object
            &&& out->Object_0.dom() == set!["episode"@, "fraction"@, "kind"@]
            &&& kind == Json::Text("resume"@) <==> resumed
            &&& kind == Json::Text("resume"@) || kind == Json::Text("next"@) || kind == Json::Text(
                "start"@,
            )
            &&& resumed ==> {
                &&& out.at("episode"@) == spot(
                    Coord { season: last_played->0.season, episode: last_played->0.episode },
                )
                &&& last_played->0.fraction.finite() ==> out.at("fraction"@) == Json::Float(
                    last_played->0.fraction,
                )
                &&& !last_played->0.fraction.finite() ==> out.at("fraction"@) == Json::Null
            }
            &&& !resumed ==> out.at("fraction"@) == Json::Float(Double { bits: 0 })
            &&& kind == Json::Text("start"@) ==> out.at("episode"@) == if all.len() == 0 {
                Json::Null
            } else {
                spot(all[0])
            }
            &&& last_played is None ==> kind == Json::Text("start"@)
            &&& last_played matches Some(p) ==> {
                let at = Coord { season: p.season, episode: p.episode };
                &&& !resumed && 0 <= i < all.len() && all[i] == at && (forall|j: int|
                    0 <= j < i ==> #[trigger] all[j] != at) ==> {
                    &&& kind == Json::Text("next"@) <==> i + 1 < all.len()
                    &&& i + 1 < all.len() ==> out.at("episode"@) == spot(all[i + 1])
                }
                &&& !resumed && !all.contains(at) ==> kind == Json::Text("start"@)
            }
        }),
{
    let all = series::so_far(seasons, last_aired);
    let out = series::continued(seasons, last_aired, last_played);
    words_differ();
    assert(out->Object_0.dom() =~= set!["episode"@, "fraction"@, "kind"@]);
    kinds_differ();
    if let Some(p) = last_played {
        let at = Coord { season: p.season, episode: p.episode };
        double::doubles_are_their_bits(p.fraction);
        double::doubles_are_their_bits(Double { bits: double::WATCHED });
        assert(is_unfinished(p.fraction) <==> p.fraction.ordered() && p.fraction.rank() < (Double {
            bits: double::WATCHED,
        }).rank());
        if 0 <= i < all.len() && all[i] == at && (forall|j: int| 0 <= j < i ==> #[trigger] all[j] != at) {
            assert(series::first_place(all, at, i));
            assert forall|k: int| series::first_place(all, at, k) implies k == i by {}
        }
        if !all.contains(at) {
            assert forall|k: int| !series::first_place(all, at, k) by {}
        }
    }
}

/// The kinds of target are told apart.
proof fn kinds_differ()
    ensures
        "start"@ != "resume"@,
        "start"@ != "next"@,
        "resume"@ != "next"@,
{
    words_differ();
}

/// The first place of an episode.
proof fn has_first_place(all: Seq<Coord>, at: Coord, n: int) -> (i: int)
    requires
        0 <= n < all.len(),
        all[n] == at,
    ensures
        0 <= i <= n,
        all[i] == at,
        forall|j: int| 0 <= j < i ==> #[trigger] all[j] != at,
    decreases n,
{
    if exists|m: int| 0 <= m < n && #[trigger] all[m] == at {
        let m = choose|m: int| 0 <= m < n && #[trigger] all[m] == at;
        has_first_place(all, at, m)
    } else {
        n
    }
}

/// Whatever "Continue" leads to, other than an episode that it resumes, belongs to the series and is out; it
/// leads nowhere only if nothing does and is.
pub proof fn continue_leads_to_what_is_out(
    seasons: Seq<SeasonCount>,
    last_aired: Option<Coord>,
    last_played: Option<LastPlayed>,
)
    ensures
        ({
            let out = series::continued(seasons, last_aired, last_played);
            out.at("kind"@) != Json::Text("resume"@) ==> {
                &&& out.at("episode"@) != Json::Null ==> exists|x: Coord|
                    out.at("episode"@) == #[trigger] spot(x) && belongs(x, seasons, last_aired)
                &&& out.at("episode"@) == Json::Null ==> forall|x: Coord| !#[trigger]
                    belongs(x, seasons, last_aired)
            }
        }),
{
    let all = series::so_far(seasons, last_aired);
    let out = series::continued(seasons, last_aired, last_played);
    assert forall|i: int| 0 <= i < all.len() implies belongs(
        #[trigger] all[i],
        seasons,
        last_aired,
    ) by {
        assert(all.contains(all[i]));
        the_series_so_far_is_what_belongs(seasons, last_aired, all[i]);
    }
    where_continue_leads(seasons, last_aired, last_played, 0);
    kinds_differ();
    if last_played is Some && out.at("kind"@) != Json::Text("resume"@) {
        let at = Coord { season: last_played->0.season, episode: last_played->0.episode };
        if all.contains(at) {
            let n = choose|n: int| 0 <= n < all.len() && all[n] == at;
            let i = has_first_place(all, at, n);
            where_continue_leads(seasons, last_aired, last_played, i);
            if i + 1 < all.len() {
                assert(out.at("episode"@) == spot(all[i + 1]));
                assert(belongs(all[i + 1], seasons, last_aired));
            }
        }
    }
    if all.len() == 0 {
        assert forall|x: Coord| !#[trigger] belongs(x, seasons, last_aired) by {
            the_series_so_far_is_what_belongs(seasons, last_aired, x);
        }
    } else {
        assert(belongs(all[0], seasons, last_aired));
    }
}

/// Where season numbers differ: after a finished episode "next" is answered exactly when that episode belongs
/// to the series so far and something that does comes after it, and it names the least that does. "Start"
/// names the least episode of all.
pub proof fn continue_leads_to_the_least(
    seasons: Seq<SeasonCount>,
    last_aired: Option<Coord>,
    last_played: Option<LastPlayed>,
    x: Coord,
)
    requires
        told_apart(seasons),
    ensures
        ({
            let out = series::continued(seasons, last_aired, last_played);
            &&& last_played matches Some(p) ==> {
                let at = Coord { season: p.season, episode: p.episode };
                &&& out.at("kind"@) == Json::Text("next"@) <==> !is_unfinished(p.fraction) && belongs(
                    at,
                    seasons,
                    last_aired,
                ) && exists|y: Coord| #[trigger] belongs(y, seasons, last_aired) && precedes(at, y)
                &&& out.at("kind"@) == Json::Text("next"@) ==> (out.at("episode"@) == spot(x) <==> {
                    &&& belongs(x, seasons, last_aired)
                    &&& precedes(at, x)
                    &&& forall|y: Coord| #[trigger]
                        belongs(y, seasons, last_aired) && precedes(at, y) ==> !precedes(y, x)
                })
            }
            &&& out.at("kind"@) == Json::Text("start"@) ==> (out.at("episode"@) == spot(x) <==> {
                &&& belongs(x, seasons, last_aired)
                &&& forall|y: Coord| #[trigger] belongs(y, seasons, last_aired) ==> !precedes(y, x)
            })
        }),
{
    let all = series::so_far(seasons, last_aired);
    let out = series::continued(seasons, last_aired, last_played);
    assert forall|y: Coord| #[trigger] belongs(y, seasons, last_aired) implies exists|i: int|
        0 <= i < all.len() && #[trigger] all[i] == y by {
        the_series_so_far_is_what_belongs(seasons, last_aired, y);
    }
    assert forall|i: int| 0 <= i < all.len() implies belongs(
        #[trigger] all[i],
        seasons,
        last_aired,
    ) by {
        assert(all.contains(all[i]));
        the_series_so_far_is_what_belongs(seasons, last_aired, all[i]);
    }
    assert forall|i: int, j: int|
        #![trigger all[i], all[j]]
        0 <= i < j < all.len() implies precedes(all[i], all[j]) by {
        the_series_so_far_goes_up(seasons, last_aired, i, j);
    }
    where_continue_leads(seasons, last_aired, last_played, 0);
    kinds_differ();
    if all.len() > 0 {
        spots_differ(x, all[0]);
        assert(belongs(all[0], seasons, last_aired));
        assert forall|y: Coord| #[trigger] belongs(y, seasons, last_aired) implies !precedes(
            y,
            all[0],
        ) by {
            let j = choose|j: int| 0 <= j < all.len() && #[trigger] all[j] == y;
            if j > 0 {
                assert(precedes(all[0], all[j]));
            }
        }
    }
    if last_played is Some && !is_unfinished(last_played->0.fraction) {
        let at = Coord { season: last_played->0.season, episode: last_played->0.episode };
        the_series_so_far_is_what_belongs(seasons, last_aired, at);
        if all.contains(at) {
            let i = choose|i: int| 0 <= i < all.len() && all[i] == at;
            assert forall|j: int| 0 <= j < i implies #[trigger] all[j] != at by {
                assert(precedes(all[j], all[i]));
            }
            where_continue_leads(seasons, last_aired, last_played, i);
            if i + 1 < all.len() {
                let z = all[i + 1];
                assert(precedes(all[i], all[i + 1]));
                assert(belongs(z, seasons, last_aired));
                spots_differ(x, z);
                assert forall|y: Coord| #[trigger]
                    belongs(y, seasons, last_aired) && precedes(at, y) implies !precedes(y, z) by {
                    let j = choose|j: int| 0 <= j < all.len() && #[trigger] all[j] == y;
                    if j < i {
                        assert(precedes(all[j], all[i]));
                    } else if j > i + 1 {
                        assert(precedes(all[i + 1], all[j]));
                    }
                }
                assert(precedes(at, x) && !precedes(x, z) && !precedes(z, x) ==> x == z);
            } else {
                assert forall|y: Coord| #[trigger] belongs(y, seasons, last_aired) implies !precedes(
                    at,
                    y,
                ) by {
                    let j = choose|j: int| 0 <= j < all.len() && #[trigger] all[j] == y;
                    if j < i {
                        assert(precedes(all[j], all[i]));
                    }
                }
            }
        }
    }
}

/// What "Continue" offers after a finished episode and what follows it are one: where the episode that follows
/// is out, it is offered next; where it is not, or there is none, the series starts over.
pub proof fn continue_offers_what_follows(
    seasons: Seq<SeasonCount>,
    last_aired: Option<Coord>,
    played: LastPlayed,
    at: Coord,
)
    requires
        told_apart(seasons),
        at == (Coord { season: played.season, episode: played.episode }),
        belongs(at, seasons, last_aired),
        !is_unfinished(played.fraction),
    ensures
        ({
            let follows = series::after(at, seasons, last_aired);
            let out = series::continued(seasons, last_aired, Some(played));
            &&& follows.at("aired"@) == Json::Bool(true) ==> out.at("kind"@) == Json::Text("next"@)
                && out.at("episode"@) == follows.at("next"@)
            &&& follows.at("aired"@) != Json::Bool(true) ==> out.at("kind"@) == Json::Text("start"@)
        }),
{
    let follows = series::after(at, seasons, last_aired);
    let out = series::continued(seasons, last_aired, Some(played));
    let r = series::layout(seasons);
    words_differ();
    where_continue_leads(seasons, last_aired, Some(played), 0);
    match series::following(at, r) {
        Some(x) => {
            what_follows_is_the_least_after(at, seasons, last_aired, x);
            continue_leads_to_the_least(seasons, last_aired, Some(played), x);
            if is_out(x, last_aired) {
                assert(belongs(x, seasons, last_aired));
                assert forall|y: Coord| #[trigger]
                    belongs(y, seasons, last_aired) && precedes(at, y) implies !precedes(y, x) by {
                    assert(belongs(y, seasons, None));
                }
            } else {
                assert forall|y: Coord| #[trigger] belongs(y, seasons, last_aired) implies !precedes(
                    at,
                    y,
                ) by {
                    assert(belongs(y, seasons, None));
                }
            }
        },
        None => {
            what_follows_is_the_least_after(at, seasons, last_aired, at);
            continue_leads_to_the_least(seasons, last_aired, Some(played), at);
            assert forall|y: Coord| #[trigger] belongs(y, seasons, last_aired) implies !precedes(
                at,
                y,
            ) by {
                assert(belongs(y, seasons, None));
            }
        },
    }
}

} // verus!
