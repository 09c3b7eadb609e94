//! Rows, events, deliveries and the boundary, on concrete values.

use den_core::capture::capture;
use den_core::api::{respond, retry, run, Request, REQUEST_BYTES};
use den_core::delivery::{
    decide, Action, Command, Decision, Kind, Remote, RemoteRating, RemoteTime,
};
use den_core::double::Double;
use den_core::episodes::episode_mark;
use den_core::events::commands;
use den_core::json::{Number, Object, Value};
use den_core::stamp::{Stamp, MAX_SAFE_INTEGER};
use den_core::wire::{merge, name};

/// The library's value for a parsed one.
fn value(v: &serde_json::Value) -> Value {
    match v {
        serde_json::Value::Null => Value::Null,
        serde_json::Value::Bool(b) => Value::Bool(*b),
        serde_json::Value::Number(n) => Value::Number(if let Some(u) = n.as_u64() {
            Number::from_u64(u)
        } else if let Some(i) = n.as_i64() {
            Number::from_i64(i)
        } else {
            let bits = n.as_f64().unwrap().to_bits();
            Number::from_double(Double { bits }).unwrap()
        }),
        serde_json::Value::String(s) => Value::String(s.clone()),
        serde_json::Value::Array(items) => Value::Array(items.iter().map(value).collect()),
        serde_json::Value::Object(entries) => {
            let mut object = Object::new();
            for (k, v) in entries {
                object.insert(k.clone(), value(v));
            }
            Value::Object(object)
        }
    }
}

fn json(text: &str) -> Value {
    value(&serde_json::from_str(text).unwrap())
}

/// The library row that other rows are made from.
fn base() -> Value {
    json(
        r#"{"kind":"rec","schema":2,"title":{"type":"movie","id":550},
            "status":{"value":"none","at":[1000,0,"a"]},
            "reaction":{"value":null,"at":[1000,0,"a"]},
            "deleted":{"value":false,"at":[1000,0,"a"]},
            "dismissed":{"value":false,"at":[1000,0,"a"]},
            "resume":{"value":0,"viewing":0,"at":[1000,0,"a"]},
            "episodesReset":null,"addedAt":1000,"watchedAt":null}"#,
    )
}

fn entries(v: &Value) -> Vec<(String, Value)> {
    let o = v.as_object().unwrap();
    (0..o.len())
        .map(|i| (o.key_at(i).to_string(), o.value_at(i).clone()))
        .collect()
}

fn overlay(base: &Value, delta: &Value) -> Value {
    let mut result = Object::new();
    for (k, v) in entries(base).into_iter().chain(entries(delta)) {
        result.insert(k, v);
    }
    Value::Object(result)
}

fn with(base: &Value, delta: &str) -> Value {
    overlay(base, &json(delta))
}

fn without(base: &Value, key: &str) -> Value {
    let mut result = Object::new();
    for (k, v) in entries(base) {
        if k != key {
            result.insert(k, v);
        }
    }
    Value::Object(result)
}

fn item(list: &Value, i: usize) -> &Value {
    &list.as_array().unwrap()[i]
}

fn len(list: &Value) -> usize {
    list.as_array().unwrap().len()
}

fn stamp(time: i64, counter: u64, device: &str) -> Stamp {
    Stamp(time, counter, device.to_string())
}

fn f(x: f64) -> Double {
    Double { bits: x.to_bits() }
}

/// Answers a request, as the boundary does a text of ordinary size.
fn request(r: Request) -> Value {
    respond(100, Some(r))
}

// ---------------------------------------------------------------------------------------------------
// Merging and clocks.

#[test]
fn signed_zero_progress_keeps_the_newer_stamp() {
    let base = base();
    let newer = with(
        &base,
        r#"{"resume":{"value":-0.0,"viewing":0,"at":[2000,0,"a"]}}"#,
    );
    assert_eq!(
        merge(&base, &newer).unwrap().at("resume").at("at"),
        &json(r#"[2000, 0, "a"]"#)
    );
    assert_eq!(
        merge(&newer, &base).unwrap().at("resume").at("at"),
        &json(r#"[2000, 0, "a"]"#)
    );
}

#[test]
fn den_spec_merge_and_clock_vectors() {
    let base = base();
    for (a, b, merged) in [
        // The later edit of a field wins, field by field.
        (
            r#"{"status":{"value":"watched","at":[3000,0,"a"]},"reaction":{"value":"like","at":[1500,0,"a"]}}"#,
            r#"{"status":{"value":"watchlist","at":[2000,0,"b"]},"reaction":{"value":"love","at":[1600,0,"b"]}}"#,
            r#"{"status":{"value":"watched","at":[3000,0,"a"]},"reaction":{"value":"love","at":[1600,0,"b"]}}"#,
        ),
        // The counter decides within a time, and the device within a counter.
        (
            r#"{"deleted":{"value":true,"at":[3000,2,"a"]},"dismissed":{"value":true,"at":[3000,0,"a"]}}"#,
            r#"{"deleted":{"value":false,"at":[3000,1,"b"]},"dismissed":{"value":false,"at":[3000,0,"b"]}}"#,
            r#"{"deleted":{"value":true,"at":[3000,2,"a"]},"dismissed":{"value":false,"at":[3000,0,"b"]}}"#,
        ),
        // A higher viewing beats progress, progress beats time.
        (
            r#"{"resume":{"value":0.9,"viewing":1,"at":[9000,0,"a"]}}"#,
            r#"{"resume":{"value":0.1,"viewing":2,"at":[2000,0,"b"]}}"#,
            r#"{"resume":{"value":0.1,"viewing":2,"at":[2000,0,"b"]}}"#,
        ),
        (
            r#"{"resume":{"value":0.9,"viewing":1,"at":[2000,0,"a"]}}"#,
            r#"{"resume":{"value":0.1,"viewing":1,"at":[9000,0,"b"]}}"#,
            r#"{"resume":{"value":0.9,"viewing":1,"at":[2000,0,"a"]}}"#,
        ),
        // Known seconds beat unknown ones.
        (
            r#"{"resume":{"value":0.5,"viewing":1,"at":[2000,0,"a"],"seconds":null}}"#,
            r#"{"resume":{"value":0.5,"viewing":1,"at":[2000,0,"a"],"seconds":0}}"#,
            r#"{"resume":{"value":0.5,"viewing":1,"at":[2000,0,"a"],"seconds":0}}"#,
        ),
        // The earliest times and the latest reset.
        (
            r#"{"addedAt":-5,"watchedAt":null,"episodesReset":[1,0,"a"]}"#,
            r#"{"addedAt":7,"watchedAt":400,"episodesReset":[1,1,"a"]}"#,
            r#"{"addedAt":-5,"watchedAt":400,"episodesReset":[1,1,"a"]}"#,
        ),
        (
            r#"{"watchedAt":300,"episodesReset":[1,0,"a"]}"#,
            r#"{"watchedAt":400}"#,
            r#"{"watchedAt":300,"episodesReset":[1,0,"a"]}"#,
        ),
        // The greater schema.
        (r#"{"schema":3}"#, r#"{"schema":1}"#, r#"{"schema":3}"#),
        // Fields that no rule speaks of survive, those of the newer row over the other's.
        (
            r#"{"status":{"value":"none","at":[5000,0,"a"]},"x":1,"y":2}"#,
            r#"{"y":3,"z":[true]}"#,
            r#"{"status":{"value":"none","at":[5000,0,"a"]},"x":1,"y":2,"z":[true]}"#,
        ),
    ] {
        let (a, b, expected) = (with(&base, a), with(&base, b), with(&base, merged));
        assert_eq!(merge(&a, &b).unwrap(), expected);
        assert_eq!(merge(&b, &a).unwrap(), expected);
        assert_eq!(merge(&a, &a).unwrap(), a);
    }
    let a = json(
        r#"{"kind":"set","schema":2,"name":"playback","values":{
            "speed":{"value":1.5,"at":[2000,0,"a"]},"only a":{"value":1,"at":[1,0,"a"]}}}"#,
    );
    let b = json(
        r#"{"kind":"set","schema":2,"name":"playback","values":{
            "speed":{"value":2,"at":[1000,0,"b"]},"only b":{"value":null,"at":[2,0,"b"]}}}"#,
    );
    let expected = json(
        r#"{"kind":"set","schema":2,"name":"playback","values":{
            "speed":{"value":1.5,"at":[2000,0,"a"]},"only a":{"value":1,"at":[1,0,"a"]},
            "only b":{"value":null,"at":[2,0,"b"]}}}"#,
    );
    assert_eq!(merge(&a, &b).unwrap(), expected);
    assert_eq!(merge(&b, &a).unwrap(), expected);
    for (last, seen, now, issued) in [
        (stamp(1000, 0, "dddd"), None, 2000, r#"[2000,0,"dddd"]"#),
        (stamp(1000, 4, "dddd"), None, 1000, r#"[1000,5,"dddd"]"#),
        (stamp(1000, 4, "dddd"), None, 10, r#"[1000,5,"dddd"]"#),
        (
            stamp(1000, 4, "dddd"),
            Some(stamp(5000, 7, "peer")),
            2000,
            r#"[5000,8,"dddd"]"#,
        ),
        (
            stamp(6000, 1, "dddd"),
            Some(stamp(5000, 7, "peer")),
            2000,
            r#"[6000,2,"dddd"]"#,
        ),
        (stamp(-20, 0, "dddd"), None, -10, r#"[-10,0,"dddd"]"#),
    ] {
        let result = request(Request::Issue {
            last,
            seen,
            now,
            device: "dddd".to_string(),
        });
        assert_eq!(result.at("ok"), &json(issued));
    }
}

#[test]
fn merging_is_refused_with_a_reason() {
    let base = base();
    let row = |delta: &str| with(&base, delta);
    let ep = json(
        r#"{"kind":"ep","schema":2,"title":{"type":"tv","id":1},"season":1,"episode":2,
            "progress":{"value":0.5,"viewing":0,"at":[1,0,"a"]}}"#,
    );
    let set = json(r#"{"kind":"set","schema":2,"name":"n","values":{"k":{"value":1,"at":[1,0,"a"]}}}"#);
    for (a, b, error) in [
        (Value::Null, base.clone(), "invalid_row"),
        (row(r#"{"schema":-1}"#), base.clone(), "invalid_integer"),
        (row(r#"{"schema":2.0}"#), base.clone(), "invalid_integer"),
        (row(r#"{"schema":9007199254740992}"#), base.clone(), "invalid_integer"),
        (row(r#"{"kind":7}"#), base.clone(), "invalid_kind"),
        (row(r#"{"kind":"other"}"#), base.clone(), "invalid_kind"),
        (row(r#"{"kind":"ep"}"#), base.clone(), "invalid_kind"),
        (row(r#"{"title":null}"#), base.clone(), "invalid_title"),
        (row(r#"{"title":{"type":"film","id":1}}"#), base.clone(), "invalid_title"),
        (row(r#"{"title":{"type":"movie","id":0}}"#), base.clone(), "invalid_title"),
        (row(r#"{"title":{"type":"movie","id":"1"}}"#), base.clone(), "invalid_integer"),
        (row(r#"{"title":{"type":"movie","id":551}}"#), base.clone(), "identity_mismatch"),
        (base.clone(), set.clone(), "identity_mismatch"),
        (row(r#"{"status":{"value":1,"at":[1,0]}}"#), base.clone(), "invalid_stamp"),
        (row(r#"{"status":{"value":1,"at":[1,-1,"a"]}}"#), base.clone(), "invalid_stamp"),
        (row(r#"{"status":{"value":1,"at":[1,0,"a",0]}}"#), base.clone(), "invalid_stamp"),
        (
            row(r#"{"status":{"value":1,"at":[9007199254740992,0,"a"]}}"#),
            base.clone(),
            "unsafe_stamp",
        ),
        (row(r#"{"status":{"at":[1,0,"a"]}}"#), base.clone(), "invalid_value"),
        (
            row(r#"{"resume":{"value":"x","viewing":0,"at":[1,0,"a"]}}"#),
            base.clone(),
            "invalid_progress",
        ),
        (
            row(r#"{"resume":{"value":0,"viewing":-1,"at":[1,0,"a"]}}"#),
            base.clone(),
            "invalid_integer",
        ),
        (row(r#"{"addedAt":null}"#), base.clone(), "invalid_time"),
        (row(r#"{"addedAt":9007199254740992}"#), base.clone(), "invalid_time"),
        (row(r#"{"watchedAt":"x"}"#), base.clone(), "invalid_time"),
        (with(&ep, r#"{"season":null}"#), ep.clone(), "invalid_integer"),
        (with(&ep, r#"{"title":{"type":"movie","id":1}}"#), ep.clone(), "invalid_kind"),
        (with(&set, r#"{"name":1}"#), set.clone(), "invalid_name"),
        (with(&set, r#"{"values":[]}"#), set.clone(), "invalid_row"),
        (
            with(&set, r#"{"values":{"k":{"at":[1,0,"a"]}}}"#),
            set.clone(),
            "invalid_value",
        ),
    ] {
        assert_eq!(merge(&a, &b), Err(error.to_string()), "{a:?}");
        assert!(merge(&b, &a).is_err());
    }
}

#[test]
fn rows_go_by_their_names() {
    for (row, expected) in [
        (r#"{"kind":"set","schema":1,"name":"é"}"#, "set:é"),
        (
            r#"{"kind":"rec","schema":1,"title":{"type":"tv","id":1399}}"#,
            "rec:tv:1399",
        ),
        (
            r#"{"kind":"ep","schema":1,"title":{"type":"tv","id":9007199254740991},"season":0,"episode":10}"#,
            "ep:tv:9007199254740991:0:10",
        ),
    ] {
        assert_eq!(name(&json(row)), Ok(expected.to_string()));
    }
}

#[test]
fn merging_a_row_with_itself_says_the_same() {
    let base = base();
    assert_eq!(merge(&base, &base).unwrap(), base);
    // A record that says nothing of a reset or a watch says so after.
    let bare = without(&without(&base, "episodesReset"), "watchedAt");
    assert_eq!(merge(&bare, &bare).unwrap(), base);
}

#[test]
fn three_rows_merge_to_the_same_fields() {
    let a = with(
        &base(),
        r#"{"status":{"value":"watched","at":[2000,0,"a"]},"resume":{"value":0.9,"viewing":0,"at":[3000,0,"a"]},
            "addedAt":5,"episodesReset":[7,0,"a"]}"#,
    );
    let b = with(
        &base(),
        r#"{"reaction":{"value":"love","at":[4000,0,"b"]},"resume":{"value":0,"viewing":1,"at":[10,0,"b"]},"watchedAt":90}"#,
    );
    let c = with(
        &base(),
        r#"{"schema":3,"deleted":{"value":true,"at":[5000,0,"c"]},"watchedAt":80,"episodesReset":[8,0,"c"]}"#,
    );
    assert_eq!(name(&merge(&a, &b).unwrap()), name(&a));
    let left = merge(&merge(&a, &b).unwrap(), &c).unwrap();
    let right = merge(&a, &merge(&b, &c).unwrap()).unwrap();
    assert_eq!(left, right);
    assert_eq!(
        left,
        with(
            &base(),
            r#"{"schema":3,"status":{"value":"watched","at":[2000,0,"a"]},"reaction":{"value":"love","at":[4000,0,"b"]},
                "deleted":{"value":true,"at":[5000,0,"c"]},"resume":{"value":0,"viewing":1,"at":[10,0,"b"]},
                "addedAt":5,"watchedAt":80,"episodesReset":[8,0,"c"]}"#
        )
    );
}

#[test]
fn an_outvoted_position_takes_its_stamp_with_it() {
    // The field that no rule speaks of goes with the row last written, so with three rows it matters
    // which two meet first.
    let a = with(&base(), r#"{"resume":{"value":0.1,"viewing":0,"at":[9000,0,"a"]},"x":1}"#);
    let b = with(&base(), r#"{"resume":{"value":0.9,"viewing":0,"at":[100,0,"b"]},"x":2}"#);
    let c = with(&base(), r#"{"status":{"value":"none","at":[5000,0,"c"]},"x":3}"#);
    let left = merge(&merge(&a, &b).unwrap(), &c).unwrap();
    let right = merge(&a, &merge(&b, &c).unwrap()).unwrap();
    assert_eq!(left.at("x"), &json("3"));
    assert_eq!(right.at("x"), &json("1"));
    assert_eq!(left.at("resume"), right.at("resume"));
    assert_eq!(left.at("status"), right.at("status"));
}

#[test]
fn edits_at_one_moment_leave_it_to_the_first() {
    let a = with(&base(), r#"{"status":{"value":"watched","at":[2000,0,"a"]}}"#);
    let b = with(&base(), r#"{"status":{"value":"none","at":[2000,0,"a"]}}"#);
    assert_eq!(merge(&a, &b).unwrap(), a);
    assert_eq!(merge(&b, &a).unwrap(), b);
}

#[test]
fn unsafe_stamps_are_not_issued() {
    let max = MAX_SAFE_INTEGER as i64;
    assert_eq!(stamp(max, MAX_SAFE_INTEGER, "").validate(), Ok(()));
    assert_eq!(stamp(-max, 0, "").validate(), Ok(()));
    for bad in [
        stamp(max + 1, 0, ""),
        stamp(-max - 1, 0, ""),
        stamp(i64::MIN, 0, ""),
        stamp(0, MAX_SAFE_INTEGER + 1, ""),
    ] {
        assert_eq!(bad.validate(), Err("unsafe_stamp".to_string()));
        assert_eq!(
            bad.issue(0, "a".to_string()).map(|_| ()),
            Err("unsafe_stamp".to_string())
        );
    }
    assert!(stamp(0, 0, "").issue(max + 1, "a".to_string()).is_err());
    assert!(stamp(5, MAX_SAFE_INTEGER, "").issue(5, "a".to_string()).is_err());
    assert_eq!(
        stamp(5, MAX_SAFE_INTEGER, "z").issue(6, "a".to_string()),
        Ok(stamp(6, 0, "a"))
    );
    let written = stamp(-7, 3, "é");
    assert_eq!(Stamp::from_value(&written.to_value()), Some(written));
    assert!(stamp(1, 1, "a").precedes(&stamp(1, 1, "b")));
    assert!(stamp(1, 1, "z").precedes(&stamp(1, 1, "é")));
    assert!(!stamp(1, 1, "b").precedes(&stamp(1, 1, "b")));
}

// ---------------------------------------------------------------------------------------------------
// Events.

#[test]
fn explicit_fields_only_and_supersession() {
    let before = base();
    let after = with(
        &before,
        r#"{"status":{"value":"watched","at":[2000,0,"peer"]}, "reaction":{"value":"love","at":[3000,0,"local"]}}"#,
    );
    let event = capture(&before, &after, &stamp(3000, 0, "local"), "action").unwrap();
    assert_eq!(event.at("changes").as_object().unwrap().len(), 1);
    let pushes = commands(&event, &after).unwrap();
    assert_eq!(item(&pushes, 0).at("kind"), &json("\"rating\""));
    assert_eq!(item(&pushes, 0).at("rating"), &json("10"));
    assert_eq!(item(&pushes, 0).at("eventID"), &json("\"action:reaction\""));
    let newer = with(&after, r#"{"reaction":{"value":"like","at":[4000,0,"peer"]}}"#);
    assert_eq!(commands(&event, &newer).unwrap(), json("[]"));
    let mut both = Object::new();
    both.insert("before".to_string(), before.at("status").clone());
    both.insert("after".to_string(), after.at("status").clone());
    let mut changes = event.at("changes").as_object().unwrap().clone();
    changes.insert("status".to_string(), Value::Object(both));
    let mut forged = event.as_object().unwrap().clone();
    forged.insert("changes".to_string(), Value::Object(changes));
    assert!(commands(&Value::Object(forged), &after).is_err());
}

#[test]
fn higher_viewing_undo_and_completion_boundary() {
    let before = json(
        r#"{"kind":"ep","schema":2,"title":{"type":"tv","id":1399},"season":1,"episode":1,"progress":{"value":1,"viewing":1,"at":[5000,0,"a"]}}"#,
    );
    for (progress, kind) in [
        ("0.0", Some("unwatched")),
        ("0.94", None),
        ("0.95", Some("watched")),
        ("1.0", Some("watched")),
    ] {
        let after = with(
            &before,
            &format!(r#"{{"progress":{{"value":{progress},"viewing":2,"at":[2000,0,"b"]}}}}"#),
        );
        assert_eq!(merge(&before, &after).unwrap(), after);
        assert_eq!(merge(&after, &before).unwrap(), after);
        let event = capture(&before, &after, &stamp(2000, 0, "b"), "episode").unwrap();
        let pushes = commands(&event, &after).unwrap();
        assert_eq!(len(&pushes), usize::from(kind.is_some()));
        if let Some(kind) = kind {
            assert_eq!(item(&pushes, 0).at("kind").as_str(), Some(kind));
        }
    }
}

#[test]
fn title_intent_matrix() {
    for media in ["movie", "tv"] {
        for status in ["none", "watchlist", "watched"] {
            for next in ["none", "watchlist", "watched"] {
                let before = with(
                    &base(),
                    &format!(
                        r#"{{"title":{{"type":"{media}","id":550}},"status":{{"value":"{status}","at":[1000,0,"a"]}}}}"#
                    ),
                );
                let after = with(
                    &before,
                    &format!(r#"{{"status":{{"value":"{next}","at":[2000,0,"a"]}}}}"#),
                );
                let event = capture(&before, &after, &stamp(2000, 0, "a"), "action").unwrap();
                let expected = match (media, status, next) {
                    (_, _, "watchlist") => Some("list"),
                    ("movie", _, "watched") => Some("watched"),
                    ("movie", "watched", "none") => Some("unwatched"),
                    _ => None,
                };
                let pushes = commands(&event, &after).unwrap();
                assert_eq!(len(&pushes), usize::from(expected.is_some()));
                if let Some(kind) = expected {
                    assert_eq!(item(&pushes, 0).at("kind").as_str(), Some(kind));
                }
            }
        }
    }
    for (reaction, rating) in [
        ("\"love\"", "10"),
        ("\"like\"", "7"),
        ("\"dislike\"", "2"),
        ("null", "null"),
    ] {
        let before = base();
        let after = with(
            &before,
            &format!(r#"{{"reaction":{{"value":{reaction},"at":[2000,0,"a"]}}}}"#),
        );
        let event = capture(&before, &after, &stamp(2000, 0, "a"), "reaction").unwrap();
        assert_eq!(
            item(&commands(&event, &after).unwrap(), 0).at("rating"),
            &json(rating)
        );
    }
}

#[test]
fn a_command_says_all_that_a_provider_needs() {
    let before = with(&base(), r#"{"status":{"value":"watchlist","at":[1000,0,"a"]}}"#);
    let after = with(&before, r#"{"deleted":{"value":true,"at":[2000,3,"b"]}}"#);
    let event = capture(&before, &after, &stamp(2000, 3, "b"), "gone").unwrap();
    assert_eq!(
        event,
        json(
            r#"{"schema":1,"id":"gone","at":[2000,3,"b"],"before":null,"after":null,
                "changes":{"deleted":{"before":{"value":false,"at":[1000,0,"a"]},"after":{"value":true,"at":[2000,3,"b"]}}}}"#
        )
        .as_object()
        .map(|o| {
            let mut o = o.clone();
            o.insert("before".to_string(), before.clone());
            o.insert("after".to_string(), after.clone());
            Value::Object(o)
        })
        .unwrap()
    );
    assert_eq!(
        commands(&event, &after).unwrap(),
        json(
            r#"[{"kind":"list","title":{"type":"movie","id":550},"season":null,"episode":null,
                 "added":false,"rating":null,"at":2000,"stamp":[2000,3,"b"],"eventID":"gone:deleted"}]"#
        )
    );
}

#[test]
fn an_edit_that_says_nothing_records_nothing() {
    let before = base();
    // Another device's edit, a field by which a user says nothing, and no change at all.
    for after in [
        with(&before, r#"{"status":{"value":"watched","at":[2000,0,"peer"]}}"#),
        with(&before, r#"{"dismissed":{"value":true,"at":[3000,0,"local"]}}"#),
        before.clone(),
    ] {
        assert_eq!(
            capture(&before, &after, &stamp(3000, 0, "local"), "action"),
            Ok(Value::Null)
        );
    }
}

#[test]
fn capturing_is_refused_with_a_reason() {
    let before = base();
    let at = stamp(2000, 0, "a");
    let after = with(&before, r#"{"status":{"value":"watched","at":[2000,0,"a"]}}"#);
    let refused = |b: &Value, a: &Value, at: &Stamp, id: &str| capture(b, a, at, id).unwrap_err();
    assert_eq!(refused(&Value::Null, &after, &at, "x"), "invalid_row");
    assert_eq!(
        refused(&before, &with(&after, r#"{"title":{"type":"tv","id":550}}"#), &at, "x"),
        "identity_mismatch"
    );
    assert_eq!(
        refused(&before, &with(&after, r#"{"schema":1}"#), &at, "x"),
        "unsupported_write_schema"
    );
    assert_eq!(
        refused(&before, &after, &stamp(i64::MAX, 0, "a"), "x"),
        "unsafe_stamp"
    );
    assert_eq!(refused(&before, &after, &at, ""), "invalid_event_id");
    assert_eq!(
        refused(&before, &after, &at, &"é".repeat(65)),
        "invalid_event_id"
    );
    assert!(capture(&before, &after, &at, &"é".repeat(64)).is_ok());
    assert_eq!(
        refused(&without(&before, "status"), &after, &at, "x"),
        "invalid_stamp"
    );
    let set = json(r#"{"kind":"set","schema":2,"name":"n","values":{}}"#);
    assert_eq!(refused(&set, &set, &at, "x"), "invalid_action_target");
}

#[test]
fn translating_is_refused_with_a_reason() {
    let before = base();
    let after = with(&before, r#"{"status":{"value":"watched","at":[2000,0,"a"]}}"#);
    let event = capture(&before, &after, &stamp(2000, 0, "a"), "x").unwrap();
    let refused = |e: &Value, c: &Value| commands(e, c).unwrap_err();
    assert_eq!(
        refused(&with(&event, r#"{"schema":2}"#), &after),
        "invalid_event_schema"
    );
    assert_eq!(
        refused(&with(&event, r#"{"schema":1.0}"#), &after),
        "invalid_event_schema"
    );
    assert_eq!(refused(&with(&event, r#"{"at":1}"#), &after), "invalid_stamp");
    assert_eq!(
        refused(&with(&event, r#"{"id":1}"#), &after),
        "invalid_event_id"
    );
    assert_eq!(
        refused(&with(&event, r#"{"changes":{}}"#), &after),
        "invalid_event_changes"
    );
    assert_eq!(
        refused(&with(&event, r#"{"at":[2000,1,"a"]}"#), &after),
        "invalid_event_changes"
    );
    assert_eq!(refused(&event, &Value::Null), "invalid_row");
    assert_eq!(
        refused(
            &event,
            &with(&after, r#"{"deleted":{"value":"no","at":[1000,0,"a"]}}"#)
        ),
        "invalid_deleted"
    );
    let odd = with(&before, r#"{"reaction":{"value":"meh","at":[2000,0,"a"]}}"#);
    let event = capture(&before, &odd, &stamp(2000, 0, "a"), "x").unwrap();
    assert_eq!(refused(&event, &odd), "invalid_reaction");
    let ep = json(
        r#"{"kind":"ep","schema":2,"title":{"type":"tv","id":1},"season":1,"episode":2,
            "progress":{"value":0.5,"viewing":0,"at":[1,0,"a"]}}"#,
    );
    let odd = with(&ep, r#"{"progress":{"value":"x","at":[2,0,"a"]}}"#);
    let event = capture(&ep, &odd, &stamp(2, 0, "a"), "x").unwrap();
    assert_eq!(refused(&event, &odd), "invalid_progress");
}

#[test]
fn an_event_of_another_title_asks_for_nothing() {
    let before = base();
    let after = with(&before, r#"{"status":{"value":"watched","at":[2000,0,"a"]}}"#);
    let event = capture(&before, &after, &stamp(2000, 0, "a"), "x").unwrap();
    let other = with(&after, r#"{"title":{"type":"movie","id":551}}"#);
    assert_eq!(commands(&event, &other), Ok(json("[]")));
    // A title that was removed since is neither rated nor marked.
    let gone = with(&after, r#"{"deleted":{"value":true,"at":[3000,0,"a"]}}"#);
    assert_eq!(commands(&event, &gone), Ok(json("[]")));
}

// ---------------------------------------------------------------------------------------------------
// Delivery.

fn unwatched() -> Command {
    Command {
        kind: Kind::Unwatched,
        at: 2000,
        current: true,
        baseline: false,
        episode: false,
        added: false,
        rating: None,
    }
}

fn remote() -> Remote {
    Remote {
        authoritative: true,
        account_matches: true,
        simkl: true,
        watched: Some(RemoteTime { at: Some(1000) }),
        listed: None,
        rated: Some(RemoteRating {
            at: Some(1000),
            value: Some(10),
        }),
        any_title_watch: true,
        unknown_or_newer_title_watch: false,
        episodes_complete: false,
    }
}

#[test]
fn removals_do_not_erase_unrelated_remote_state() {
    let mut command = unwatched();
    let mut remote = remote();
    let decision = |c: &Command, r: &Remote| {
        request(Request::Decide {
            command: *c,
            remote: *r,
        })
        .at("ok")
        .at("action")
        .as_str()
        .unwrap()
        .to_string()
    };
    assert_eq!(decision(&command, &remote), "hold");
    remote.rated = None;
    assert_eq!(decision(&command, &remote), "send");
    for at in [None, Some(0), Some(3000)] {
        remote.watched = Some(RemoteTime { at });
        assert_eq!(decision(&command, &remote), "hold");
    }
    remote.watched = None;
    assert_eq!(decision(&command, &remote), "acknowledge");
    command.episode = true;
    assert_eq!(decision(&command, &remote), "hold");
    remote.episodes_complete = true;
    assert_eq!(decision(&command, &remote), "acknowledge");
    remote.account_matches = false;
    assert_eq!(decision(&command, &remote), "hold");
    remote.authoritative = false;
    assert_eq!(decision(&command, &remote), "hold");
    command.current = false;
    assert_eq!(decision(&command, &remote), "superseded");
}

#[test]
fn every_decision_has_its_reason() {
    let none = Remote {
        watched: None,
        rated: None,
        any_title_watch: false,
        ..remote()
    };
    let watched = Command {
        kind: Kind::Watched,
        ..unwatched()
    };
    let add = Command {
        kind: Kind::List,
        added: true,
        ..unwatched()
    };
    let drop = Command {
        kind: Kind::List,
        ..unwatched()
    };
    let rate = Command {
        kind: Kind::Rating,
        rating: Some(7),
        ..unwatched()
    };
    let old = Some(RemoteTime { at: Some(2000) });
    let unknown = Some(RemoteTime { at: None });
    for (command, remote, action, reason) in [
        (
            Command {
                current: false,
                ..watched
            },
            none,
            Action::Superseded,
            "newer_local_intent",
        ),
        (
            watched,
            Remote {
                authoritative: false,
                ..none
            },
            Action::Hold,
            "snapshot_unavailable",
        ),
        (
            watched,
            Remote {
                account_matches: false,
                ..none
            },
            Action::Hold,
            "account_changed",
        ),
        (
            Command {
                at: MAX_SAFE_INTEGER + 1,
                ..watched
            },
            none,
            Action::Hold,
            "invalid_command",
        ),
        (
            Command {
                rating: Some(0),
                ..rate
            },
            none,
            Action::Hold,
            "invalid_command",
        ),
        (
            Command {
                rating: Some(11),
                ..rate
            },
            none,
            Action::Hold,
            "invalid_command",
        ),
        (watched, none, Action::Send, "explicit_current_intent"),
        (
            watched,
            Remote {
                watched: unknown,
                ..none
            },
            Action::Acknowledge,
            "already_seen",
        ),
        (unwatched(), none, Action::Acknowledge, "already_unseen"),
        (
            Command {
                episode: true,
                ..unwatched()
            },
            none,
            Action::Hold,
            "incomplete_episode_coverage",
        ),
        (
            unwatched(),
            Remote {
                watched: unknown,
                ..none
            },
            Action::Hold,
            "remote_order_unknown_or_newer",
        ),
        (
            unwatched(),
            Remote {
                watched: old,
                listed: unknown,
                ..none
            },
            Action::Hold,
            "would_remove_independent_state",
        ),
        (
            unwatched(),
            Remote {
                watched: old,
                listed: unknown,
                simkl: false,
                ..none
            },
            Action::Send,
            "explicit_current_intent",
        ),
        (add, none, Action::Send, "explicit_current_intent"),
        (
            add,
            Remote {
                listed: unknown,
                ..none
            },
            Action::Acknowledge,
            "already_present",
        ),
        (
            Command {
                baseline: true,
                ..add
            },
            Remote {
                any_title_watch: true,
                ..none
            },
            Action::Acknowledge,
            "already_present",
        ),
        (
            add,
            Remote {
                unknown_or_newer_title_watch: true,
                ..none
            },
            Action::Hold,
            "remote_order_unknown_or_newer",
        ),
        (drop, none, Action::Acknowledge, "already_absent"),
        (
            drop,
            Remote {
                listed: unknown,
                ..none
            },
            Action::Hold,
            "remote_order_unknown_or_newer",
        ),
        (
            drop,
            Remote {
                listed: old,
                any_title_watch: true,
                ..none
            },
            Action::Hold,
            "would_remove_independent_state",
        ),
        (
            drop,
            Remote {
                listed: old,
                ..none
            },
            Action::Send,
            "explicit_current_intent",
        ),
        (
            rate,
            Remote {
                rated: Some(RemoteRating {
                    at: None,
                    value: Some(7),
                }),
                ..none
            },
            Action::Acknowledge,
            "rating_already_satisfied",
        ),
        (
            Command {
                baseline: true,
                ..rate
            },
            Remote {
                rated: Some(RemoteRating {
                    at: None,
                    value: Some(2),
                }),
                ..none
            },
            Action::Acknowledge,
            "rating_already_satisfied",
        ),
        (
            rate,
            Remote {
                rated: Some(RemoteRating {
                    at: Some(2001),
                    value: Some(2),
                }),
                ..none
            },
            Action::Hold,
            "remote_order_unknown_or_newer",
        ),
        (rate, none, Action::Send, "explicit_current_intent"),
        (
            Command {
                rating: None,
                ..rate
            },
            none,
            Action::Acknowledge,
            "rating_already_satisfied",
        ),
    ] {
        assert_eq!(
            decide(&command, &remote),
            Decision { action, reason },
            "{command:?} {remote:?}"
        );
    }
}

// ---------------------------------------------------------------------------------------------------
// The boundary.

#[test]
fn shared_binding_contract() {
    let before = base();
    let after = with(&before, r#"{"status":{"value":"watched","at":[2000,0,"a"]}}"#);
    let event = capture(&before, &after, &stamp(2000, 0, "a"), "x").unwrap();
    for (case, ok) in [
        (
            Request::Merge {
                a: before.clone(),
                b: after.clone(),
            },
            after.clone(),
        ),
        (
            Request::Capture {
                before: before.clone(),
                after: after.clone(),
                at: stamp(2000, 0, "a"),
                id: "x".to_string(),
            },
            event.clone(),
        ),
        (
            Request::Commands {
                event: event.clone(),
                current: after.clone(),
            },
            json(
                r#"[{"kind":"watched","title":{"type":"movie","id":550},"season":null,"episode":null,
                     "added":true,"rating":null,"at":2000,"stamp":[2000,0,"a"],"eventID":"x:status"}]"#,
            ),
        ),
        (
            Request::Issue {
                last: stamp(1, 2, "a"),
                seen: None,
                now: 1,
                device: "b".to_string(),
            },
            json(r#"[1,3,"b"]"#),
        ),
        (
            Request::Decide {
                command: unwatched(),
                remote: remote(),
            },
            json(r#"{"action":"hold","reason":"would_remove_independent_state"}"#),
        ),
        (
            Request::Retry {
                attempts: 0,
                now: 1000,
                retry_after: None,
            },
            json("6000"),
        ),
    ] {
        let result = request(case);
        assert_eq!(result.at("version"), &json("1"));
        assert_eq!(result.at("ok"), &ok);
        assert!(!result.as_object().unwrap().contains_key("error"));
    }
    for (case, error) in [
        (
            Request::Merge {
                a: json("{}"),
                b: json("{}"),
            },
            "invalid_integer",
        ),
        (
            Request::Commands {
                event: json("{}"),
                current: json("{}"),
            },
            "invalid_event_schema",
        ),
        (
            Request::Retry {
                attempts: 0,
                now: u64::MAX,
                retry_after: None,
            },
            "time_overflow",
        ),
    ] {
        let result = request(case);
        assert_eq!(result.at("version"), &json("1"));
        assert_eq!(result.at("error").as_str(), Some(error));
        assert!(!result.as_object().unwrap().contains_key("ok"));
    }
}

#[test]
fn errors_are_not_absence_or_acknowledgement() {
    for (bytes, parsed) in [
        ("not json".len(), None),
        (
            "{\"op\":\"merge\",\"a\":{},\"b\":{}}".len(),
            Some(Request::Merge {
                a: json("{}"),
                b: json("{}"),
            }),
        ),
    ] {
        let result = respond(bytes, parsed);
        assert!(result.as_object().unwrap().get("error").is_some());
        assert!(result.as_object().unwrap().get("ok").is_none());
    }
    assert!(request(Request::Issue {
        last: stamp(9007199254740991, 9007199254740991, "a"),
        seen: None,
        now: 0,
        device: "a".to_string(),
    })
    .as_object()
    .unwrap()
    .get("error")
    .is_some());
    assert_eq!(
        request(Request::Retry {
            attempts: 99,
            now: 1000,
            retry_after: Some(2000000)
        })
        .at("ok"),
        &json("2000000")
    );
}

#[test]
fn requests_have_a_size() {
    let retry = || {
        Some(Request::Retry {
            attempts: 0,
            now: 0,
            retry_after: None,
        })
    };
    assert_eq!(respond(REQUEST_BYTES, retry()).at("ok"), &json("5000"));
    assert_eq!(
        respond(REQUEST_BYTES + 1, retry()),
        json(r#"{"version":1,"error":"request_too_large"}"#)
    );
    assert_eq!(
        respond(8, None),
        json(r#"{"version":1,"error":"invalid_request"}"#)
    );
}

#[test]
fn retries_double_up_to_half_an_hour() {
    for (attempts, delay) in [
        (0, 5_000),
        (1, 10_000),
        (2, 20_000),
        (8, 1_280_000),
        (9, 1_800_000),
        (10, 1_800_000),
        (11, 1_800_000),
        (u32::MAX, 1_800_000),
    ] {
        assert_eq!(retry(attempts, 7, None), Ok(delay + 7));
    }
    assert_eq!(retry(0, 0, Some(4_999)), Ok(5_000));
    assert_eq!(retry(0, 0, Some(5_001)), Ok(5_001));
    assert_eq!(
        retry(0, MAX_SAFE_INTEGER - 5_000, None),
        Ok(MAX_SAFE_INTEGER)
    );
    for refused in [
        retry(0, MAX_SAFE_INTEGER - 4_999, None),
        retry(0, u64::MAX, None),
        retry(0, 0, Some(MAX_SAFE_INTEGER + 1)),
    ] {
        assert_eq!(refused, Err("time_overflow".to_string()));
    }
    assert_eq!(
        run(Request::Retry {
            attempts: 3,
            now: 0,
            retry_after: None
        }),
        Ok(json("40000"))
    );
}

// ---------------------------------------------------------------------------------------------------
// Episode marks.

fn episode(progress: &str) -> Value {
    json(&format!(
        r#"{{"kind":"ep","schema":2,"title":{{"type":"tv","id":1}},"season":1,"episode":2,"progress":{progress}}}"#
    ))
}

#[test]
fn an_episode_row_is_an_action() {
    let held = json(r#"{"fraction":0.3,"at":5000}"#);
    let keep = json(r#"{"action":"keep"}"#);
    let row = episode(r#"{"value":0.5,"viewing":0,"at":[6000,0,"a"],"seconds":12}"#);
    let replace = json(r#"{"action":"replace","fraction":0.5,"at":6000,"seconds":12.0}"#);
    assert_eq!(episode_mark(&row, &Value::Null, false), Ok(replace.clone()));
    assert_eq!(episode_mark(&row, &held, false), Ok(replace));
    // Ties go to what is held, and so does anything older, unless the row is the record itself.
    let tie = episode(r#"{"value":1,"viewing":0,"at":[5000,0,"a"]}"#);
    assert_eq!(episode_mark(&tie, &held, false), Ok(keep.clone()));
    assert_eq!(
        episode_mark(&tie, &held, true),
        Ok(json(r#"{"action":"replace","fraction":1.0,"at":5000}"#))
    );
    // A mark without a time of its own loses to anything, a historical time included.
    assert_eq!(
        episode_mark(&tie, &json("{}"), false),
        Ok(json(r#"{"action":"replace","fraction":1.0,"at":5000}"#))
    );
    let historical = episode(r#"{"value":1.0,"viewing":0,"at":[-1000,0,"a"]}"#);
    for mark in [
        "{}",
        r#"{"at":null}"#,
        r#"{"fraction":0.5}"#,
        r#"{"fraction":0.5,"at":null}"#,
        r#"{"fraction":0.5,"at":"x"}"#,
    ] {
        assert_eq!(
            episode_mark(&historical, &json(mark), false),
            Ok(json(r#"{"action":"replace","fraction":1.0,"at":-1000}"#))
        );
    }
    assert_eq!(
        episode_mark(&historical, &json(r#"{"at":-1000}"#), false),
        Ok(keep.clone())
    );
    assert_eq!(
        episode_mark(&historical, &json(r#"{"at":-1001}"#), false),
        Ok(json(r#"{"action":"replace","fraction":1.0,"at":-1000}"#))
    );
    // An un-watch clears whatever is held.
    for zero in ["0", "0.0", "-0.0"] {
        let unwatch = episode(&format!(r#"{{"value":{zero},"viewing":1,"at":[0,0,""]}}"#));
        assert_eq!(
            episode_mark(&unwatch, &held, false),
            Ok(json(r#"{"action":"clear"}"#))
        );
    }
    // A bit without a time adds nothing to what is held.
    let bit = episode(r#"{"value":1,"viewing":0,"at":[0,0,""]}"#);
    for authoritative in [false, true] {
        assert_eq!(episode_mark(&bit, &held, authoritative), Ok(keep.clone()));
        assert_eq!(
            episode_mark(&bit, &Value::Null, authoritative),
            Ok(json(r#"{"action":"flag"}"#))
        );
    }
}

#[test]
fn an_episode_row_is_refused_with_a_reason() {
    for (row, error) in [
        (Value::Null, "invalid_row"),
        (base(), "invalid_kind"),
        (episode(r#"{"value":1,"at":[1,0]}"#), "invalid_stamp"),
        (
            episode(r#"{"value":1,"at":[9007199254740992,0,""]}"#),
            "unsafe_stamp",
        ),
        (episode(r#"{"value":"1","at":[1,0,""]}"#), "invalid_progress"),
        (episode(r#"{"value":1.5,"at":[1,0,""]}"#), "invalid_progress"),
        (episode(r#"{"value":-0.1,"at":[1,0,""]}"#), "invalid_progress"),
        // A bit without a time below the threshold.
        (episode(r#"{"value":0.94,"at":[0,0,""]}"#), "invalid_progress"),
    ] {
        assert_eq!(
            episode_mark(&row, &Value::Null, false),
            Err(error.to_string())
        );
    }
    assert!(episode_mark(&episode(r#"{"value":0.95,"at":[0,0,""]}"#), &Value::Null, false).is_ok());
}

// ---------------------------------------------------------------------------------------------------
// Values.

#[test]
fn values_are_equal_as_json_values_are() {
    assert_eq!(json("0.0"), json("-0.0"));
    assert_eq!(json(r#"{"a":[0.0],"b":1}"#), json(r#"{"b":1,"a":[-0.0]}"#));
    assert!(json("1") != json("1.0"));
    assert!(json("[1]") != json("[1,1]"));
    assert!(json(r#"{"a":1}"#) != json(r#"{"b":1}"#));
    assert!(json("null") != json("false"));
}

#[test]
fn objects_keep_their_names_in_order() {
    let o = json(r#"{"z":1,"a":2,"é":3,"Z":4}"#);
    let names: Vec<String> = entries(&o).into_iter().map(|(k, _)| k).collect();
    assert_eq!(names, ["Z", "a", "z", "é"]);
    let mut o = o.as_object().unwrap().clone();
    o.insert("a".to_string(), Value::Null);
    assert_eq!(o.len(), 4);
    assert_eq!(o.get("a"), Some(&Value::Null));
    assert!(o.get("b").is_none());
}

#[test]
fn integers_become_the_nearest_double() {
    for n in [
        0u64,
        1,
        3,
        1 << 53,
        (1 << 53) + 1,
        (1 << 53) + 3,
        (1 << 54) + 2,
        (1 << 54) + 6,
        9_007_199_254_740_991,
        0x7fff_ffff_ffff_fc00,
        0x7fff_ffff_ffff_fdff,
        u64::MAX,
        u64::MAX - 1024,
        u64::MAX - 1023,
    ] {
        assert_eq!(Double::from_u64(n), f(n as f64), "{n}");
        let i = n as i64;
        assert_eq!(Double::from_i64(i), f(i as f64), "{i}");
    }
    assert_eq!(Double::from_i64(i64::MIN), f(i64::MIN as f64));
}

#[test]
fn doubles_compare_as_numbers_do() {
    let numbers = [
        f64::NEG_INFINITY,
        f64::MIN,
        -1.0,
        -f64::MIN_POSITIVE,
        -5e-324,
        -0.0,
        0.0,
        5e-324,
        0.95,
        1.0,
        f64::MAX,
        f64::INFINITY,
        f64::NAN,
    ];
    for a in numbers {
        assert_eq!(f(a).is_finite(), a.is_finite());
        assert_eq!(f(a).is_zero(), a == 0.0);
        for b in numbers {
            assert_eq!(f(a).less_than(f(b)), a < b, "{a} {b}");
        }
    }
    assert_eq!(den_core::double::WATCHED, 0.95f64.to_bits());
    assert_eq!(den_core::double::ONE, 1.0f64.to_bits());
    assert_eq!(den_core::double::MINUS_ONE, (-1.0f64).to_bits());
}
