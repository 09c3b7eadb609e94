//! Series layouts and page orders, on concrete values.

use den_core::double::Double;
use den_core::json::Value;
use den_core::series::{
    aired_episodes, continue_target, episode_after, is_aired, series_state, Coord, LastPlayed,
    SeasonCount,
};
use den_core::tilt::order;

fn at(season: i64, episode: i64) -> Coord {
    Coord { season, episode }
}

fn seasons(counts: &[(i64, i64)]) -> Vec<SeasonCount> {
    counts
        .iter()
        .map(|&(season, episodes)| SeasonCount { season, episodes })
        .collect()
}

fn coord(v: &Value) -> Option<(i64, i64)> {
    if v.is_null() {
        return None;
    }
    Some((
        v.at("season").as_i64().unwrap(),
        v.at("episode").as_i64().unwrap(),
    ))
}

fn coords(v: &Value) -> Vec<(i64, i64)> {
    v.as_array()
        .unwrap()
        .iter()
        .map(|c| coord(c).unwrap())
        .collect()
}

fn f(x: f64) -> Double {
    Double { bits: x.to_bits() }
}

#[test]
fn specials_are_not_the_show() {
    let layout = seasons(&[(2, 1), (0, 9), (1, 2), (3, 0), (-1, 4)]);
    assert_eq!(
        coords(&aired_episodes(&layout, None)),
        [(1, 1), (1, 2), (2, 1)]
    );
    assert_eq!(
        coords(&aired_episodes(&layout, Some(at(1, 1)))),
        [(1, 1)],
        "nothing after the newest aired"
    );
    assert_eq!(
        coords(&aired_episodes(&layout, Some(at(0, 3)))).len(),
        3,
        "a Special says nothing about the regular seasons"
    );
    assert!(coords(&aired_episodes(&[], None)).is_empty());
    assert_eq!(
        coords(&aired_episodes(&seasons(&[(7, 1), (3, 2), (5, 1)]), Some(at(5, 1)))),
        [(3, 1), (3, 2), (5, 1)],
        "in order, however the seasons were given"
    );
}

#[test]
fn airing_goes_by_season_and_then_by_number() {
    assert!(is_aired(at(1, 9), Some(at(2, 1))));
    assert!(is_aired(at(2, 1), Some(at(2, 1))));
    assert!(!is_aired(at(2, 2), Some(at(2, 1))));
    assert!(!is_aired(at(3, 1), Some(at(2, 9))));
    assert!(is_aired(at(9, 9), None));
    assert!(is_aired(at(9, 9), Some(at(0, 1))));
    assert!(is_aired(at(9, 9), Some(at(-1, 1))));
}

#[test]
fn a_series_is_complete_when_nothing_is_left() {
    let layout = seasons(&[(1, 2), (2, 2)]);
    let state = |watched: &[Coord], last| {
        let v = series_state(&layout, last, watched);
        (
            v.at("watched").as_u64().unwrap(),
            v.at("total").as_u64().unwrap(),
            coord(v.at("nextUp")),
            v.at("complete").as_bool().unwrap(),
        )
    };
    assert_eq!(state(&[], None), (0, 4, Some((1, 1)), false));
    assert_eq!(
        state(&[at(1, 1), at(2, 1), at(0, 1), at(9, 9)], None),
        (2, 4, Some((1, 2)), false)
    );
    assert_eq!(
        state(&[at(1, 1), at(1, 2), at(2, 1)], Some(at(2, 1))),
        (3, 3, None, true)
    );
    let none = series_state(&[], None, &[]);
    assert_eq!(none.at("complete").as_bool(), Some(false));
    assert_eq!(none.at("total").as_u64(), Some(0));
    assert!(none.at("nextUp").is_null());
}

#[test]
fn what_follows_is_listed_before_it_airs() {
    let layout = seasons(&[(3, 1), (1, 2), (0, 5)]);
    let after = |c: Coord, last| {
        let v = episode_after(c, &layout, last);
        (coord(v.at("next")), v.at("aired").as_bool().unwrap())
    };
    assert_eq!(after(at(1, 1), None), (Some((1, 2)), true));
    assert_eq!(after(at(1, 2), None), (Some((3, 1)), true));
    assert_eq!(after(at(1, 9), None), (Some((3, 1)), true));
    assert_eq!(after(at(1, 2), Some(at(1, 2))), (Some((3, 1)), false));
    assert_eq!(after(at(3, 1), None), (None, false));
    assert_eq!(after(at(0, 1), None), (None, false));
    assert_eq!(after(at(2, 1), None), (None, false));
}

#[test]
fn continuing_never_ends() {
    let layout = seasons(&[(1, 2), (2, 1)]);
    let target = |season, episode, fraction| {
        let v = continue_target(
            &layout,
            None,
            Some(LastPlayed {
                season,
                episode,
                fraction: f(fraction),
            }),
        );
        (
            coord(v.at("episode")),
            v.at("fraction").as_double(),
            v.at("kind").as_str().unwrap().to_string(),
        )
    };
    let zero = Some(f(0.0));
    assert_eq!(
        target(1, 1, 0.5),
        (Some((1, 1)), Some(f(0.5)), "resume".to_string())
    );
    assert_eq!(
        target(7, 7, 0.94),
        (Some((7, 7)), Some(f(0.94)), "resume".to_string())
    );
    assert_eq!(
        target(1, 1, 0.95),
        (Some((1, 2)), zero, "next".to_string())
    );
    assert_eq!(target(1, 2, 1.0), (Some((2, 1)), zero, "next".to_string()));
    assert_eq!(
        target(2, 1, 1.0),
        (Some((1, 1)), zero, "start".to_string()),
        "a finished finale is a rewatch from the start"
    );
    assert_eq!(
        target(0, 1, 1.0),
        (Some((1, 1)), zero, "start".to_string())
    );
    assert_eq!(
        target(1, 1, f64::NAN),
        (Some((1, 2)), zero, "next".to_string())
    );
    let fresh = continue_target(&layout, None, None);
    assert_eq!(coord(fresh.at("episode")), Some((1, 1)));
    assert_eq!(fresh.at("kind").as_str(), Some("start"));
    let nothing = continue_target(&[], None, None);
    assert!(nothing.at("episode").is_null());
}

// ---------------------------------------------------------------------------------------------------
// The tilt. How a title scores is the caller's; these are the shipped weights over a page.

#[derive(Clone, Copy, Default)]
struct Signals {
    taste: f64,
    dislike: f64,
    year: Option<i32>,
}

const EMBEDDING: f64 = 0.15;

fn tilted(signals: &[Signals], embedding: f64) -> Vec<usize> {
    let n = signals.len();
    let scores: Vec<Double> = signals
        .iter()
        .enumerate()
        .map(|(i, s)| {
            let dislike = s.dislike.max(0.0);
            let era = s.year.map_or(0.0, |year| {
                let d = f64::from(year) - 2010.0;
                (-(d * d) / (2.0 * 10.0 * 10.0)).exp()
            });
            let boost = embedding * s.taste.max(0.0) - 0.35 * (dislike * dislike) + 0.10 * era;
            f(1.0 - (i as f64) / (n as f64) + boost)
        })
        .collect();
    order(&scores)
}

#[test]
fn a_candidate_with_no_signal_keeps_its_place() {
    let signals = vec![Signals::default(); 5];
    assert_eq!(tilted(&signals, EMBEDDING), vec![0, 1, 2, 3, 4]);
}

#[test]
fn the_tilt_only_ever_reorders() {
    // The invariant infinite scroll depends on: 24 in, 24 out, every index exactly once.
    let signals: Vec<Signals> = (0..24)
        .map(|i| Signals {
            taste: f64::from(i) / 24.0,
            dislike: 0.0,
            year: Some(2000 + i),
        })
        .collect();
    let got = tilted(&signals, EMBEDDING);
    assert_eq!(got.len(), 24);
    let mut seen = got.clone();
    seen.sort_unstable();
    assert_eq!(seen, (0..24).collect::<Vec<_>>());
}

#[test]
fn a_strongly_liked_title_at_the_back_moves_forward() {
    let mut signals = vec![Signals::default(); 24];
    signals[23].taste = 1.0;
    let got = tilted(&signals, EMBEDDING);
    // 0.15 over a 24-item page is worth about 3.6 slots, so it climbs but does not take the lead.
    let moved = got.iter().position(|&i| i == 23).unwrap();
    assert!(moved < 23, "it moved forward: {moved}");
    assert!(
        moved > 0,
        "a gentle weight must not let one signal take the lead: {moved}"
    );
}

#[test]
fn a_dislike_pushes_a_title_below_its_incoming_rank() {
    let mut signals = vec![Signals::default(); 10];
    signals[0].dislike = 1.0;
    let got = tilted(&signals, EMBEDDING);
    assert_ne!(got[0], 0, "the disliked title no longer leads");
    let moved = got.iter().position(|&i| i == 0).unwrap();
    assert!(
        (3..=4).contains(&moved),
        "dropped about 3.5 slots, not to the back: {moved}"
    );
}

#[test]
fn the_weights_are_inputs_so_a_tuner_can_move_them() {
    let mut signals = vec![Signals::default(); 24];
    signals[23].taste = 1.0;
    let shipped = tilted(&signals, EMBEDDING);
    let tuned = tilted(&signals, 2.0);
    assert_ne!(shipped, tuned);
    assert_eq!(tuned[0], 23, "a big enough weight does take the lead");
}

#[test]
fn ties_break_on_the_incoming_order_so_the_result_is_stable() {
    let signals = vec![
        Signals {
            taste: 0.5,
            dislike: 0.0,
            year: Some(2010)
        };
        6
    ];
    assert_eq!(tilted(&signals, EMBEDDING), vec![0, 1, 2, 3, 4, 5]);
    let scores: Vec<Double> = [0.0, 3.0, -0.0, 3.0, f64::INFINITY, -1.0]
        .into_iter()
        .map(f)
        .collect();
    assert_eq!(order(&scores), vec![4, 1, 3, 0, 2, 5]);
}

#[test]
fn a_score_that_is_no_number_drops_no_title() {
    let scores: Vec<Double> = [1.0, f64::NAN, 2.0, f64::NAN, 3.0]
        .into_iter()
        .map(f)
        .collect();
    let mut seen = order(&scores);
    seen.sort_unstable();
    assert_eq!(seen, vec![0, 1, 2, 3, 4]);
    assert!(order(&[]).is_empty());
}
