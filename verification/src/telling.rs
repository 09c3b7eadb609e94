//! What an edit records and what a record of it comes to, in the plainest words: which fields of which rows
//! say what, and what a provider is asked for it.

use crate::capture;
use crate::double;
use crate::double::Double;
use crate::events;
use crate::json;
use crate::json::Json;
use crate::naming;
use crate::reading;
use crate::stamp;
use crate::stamp::Moment;
use crate::wire;
use vstd::prelude::*;

verus! {

/// Whether a field is one by which a user says something of a record or of an episode.
pub open spec fn is_said(kind: Json, field: Seq<char>) -> bool {
    ||| kind == Json::Text("rec"@) && (field == "status"@ || field == "reaction"@ || field
        == "deleted"@)
    ||| kind == Json::Text("ep"@) && field == "progress"@
}

/// Whether an edit at a moment said something by a field: the field has the stamp of the moment now, and is
/// not what it was.
pub open spec fn says(before: Json, after: Json, at: Moment, field: Seq<char>) -> bool {
    &&& is_said(after.at("kind"@), field)
    &&& reading::moment(after.at(field).at("at"@)) == at
    &&& !json::same(before.at(field), after.at(field))
}

/// Whether every stamp of a row is one.
pub open spec fn is_stamped(row: Json) -> bool {
    if row.at("kind"@) == Json::Text("rec"@) {
        &&& reading::is_stamp(row.at("status"@).at("at"@))
        &&& reading::is_stamp(row.at("resume"@).at("at"@))
        &&& reading::is_stamp(row.at("reaction"@).at("at"@))
        &&& reading::is_stamp(row.at("deleted"@).at("at"@))
        &&& reading::is_stamp(row.at("dismissed"@).at("at"@))
        &&& row.at("episodesReset"@) == Json::Null || reading::is_stamp(row.at("episodesReset"@))
    } else {
        reading::is_stamp(row.at("progress"@).at("at"@))
    }
}

/// A record or an episode is last written at some time exactly when every stamp of it is one.
proof fn stamped_rows_are_dated(row: Json)
    requires
        row.at("kind"@) == Json::Text("rec"@) || row.at("kind"@) == Json::Text("ep"@),
    ensures
        wire::newest_of(row) is Ok <==> is_stamped(row),
{
    kinds_differ();
    if row.at("kind"@) == Json::Text("rec"@) {
        let stamps = wire::record_stamps(row);
        reading::the_latest_is_the_last(stamps);
        if wire::newest_of(row) is Ok {
            assert(reading::is_stamp(stamps[0]) && reading::is_stamp(stamps[1]));
            assert(reading::is_stamp(stamps[2]) && reading::is_stamp(stamps[3]));
            assert(reading::is_stamp(stamps[4]));
            if row.at("episodesReset"@) != Json::Null {
                assert(reading::is_stamp(stamps[5]));
            }
        }
        if is_stamped(row) {
            assert forall|i: int| 0 <= i < stamps.len() implies reading::is_stamp(
                #[trigger] stamps[i],
            ) by {
                assert(i == 0 || i == 1 || i == 2 || i == 3 || i == 4 || i == 5);
            }
        }
    } else {
        let stamps = seq![row.at("progress"@).at("at"@)];
        reading::the_latest_is_the_last(stamps);
        assert(stamps[0] == row.at("progress"@).at("at"@));
    }
}

/// The kinds of row are told apart.
proof fn kinds_differ()
    ensures
        "rec"@ != "ep"@,
        "rec"@ != "set"@,
        "ep"@ != "set"@,
        "movie"@ != "tv"@,
{
    reveal_strlit("rec");
    reveal_strlit("ep");
    reveal_strlit("set");
    reveal_strlit("movie");
    reveal_strlit("tv");
    assert("rec"@[0] != "ep"@[0] && "ep"@[0] != "set"@[0] && "set"@[0] != "rec"@[0]);
    assert("movie"@.len() == 5 && "tv"@.len() == 2);
}

/// When an edit is recorded: both rows are records of one title, or both are one episode; the new one is of
/// the schema in use; the moment is one that every client can hold; the id has from 1 to 128 bytes; and every
/// stamp of both rows is one.
pub proof fn when_an_edit_is_recorded(before: Json, after: Json, at: Moment, id: Seq<char>)
    requires
        at.counter >= 0,
    ensures
        capture::captured(before, after, at, id) is Ok <==> {
            &&& reading::names_record(before) && reading::names_record(after)
                || reading::names_episode(before) && reading::names_episode(after)
            &&& naming::one_thing(before, after)
            &&& after.at("schema"@) == Json::Int(2)
            &&& -9_007_199_254_740_991 <= at.time <= 9_007_199_254_740_991
            &&& at.counter <= 9_007_199_254_740_991
            &&& 1 <= vstd::utf8::encode_utf8(id).len() <= 128
            &&& is_stamped(before)
            &&& is_stamped(after)
        },
{
    kinds_differ();
    reading::rows_with_names(before);
    reading::rows_with_names(after);
    if wire::identity(before) is Ok && wire::identity(after) is Ok {
        naming::one_thing_has_one_name(before, after);
    }
    let kind = after.at("kind"@);
    if kind == before.at("kind"@) && (kind == Json::Text("rec"@) || kind == Json::Text("ep"@)) {
        stamped_rows_are_dated(before);
        stamped_rows_are_dated(after);
    }
}

/// Why an edit is not recorded: the first of these that applies.
pub proof fn why_an_edit_is_not_recorded(before: Json, after: Json, at: Moment, id: Seq<char>)
    requires
        at.counter >= 0,
    ensures
        capture::captured(before, after, at, id) matches Err(e) ==> e == (
        if wire::identity(before) is Err {
            wire::identity(before)->Err_0
        } else if wire::identity(after) is Err {
            wire::identity(after)->Err_0
        } else if !naming::one_thing(before, after) {
            "identity_mismatch"@
        } else if after.at("schema"@) != Json::Int(2) {
            "unsupported_write_schema"@
        } else if at.time < -9_007_199_254_740_991 || at.time > 9_007_199_254_740_991 || at.counter
            > 9_007_199_254_740_991 {
            "unsafe_stamp"@
        } else if vstd::utf8::encode_utf8(id).len() == 0 || vstd::utf8::encode_utf8(id).len() > 128 {
            "invalid_event_id"@
        } else if wire::newest_of(before) is Err {
            wire::newest_of(before)->Err_0
        } else if wire::newest_of(after) is Err {
            wire::newest_of(after)->Err_0
        } else {
            "invalid_action_target"@
        }),
{
    if wire::identity(before) is Ok && wire::identity(after) is Ok {
        naming::one_thing_has_one_name(before, after);
    }
}

/// The words of an event are told apart.
proof fn event_words_differ()
    ensures
        "schema"@.len() == 6,
        "schema"@[0] == 's',
        "id"@.len() == 2,
        "id"@[0] == 'i',
        "at"@.len() == 2,
        "at"@[0] == 'a',
        "before"@.len() == 6,
        "before"@[0] == 'b',
        "after"@.len() == 5,
        "changes"@.len() == 7,
{
    reveal_strlit("schema");
    reveal_strlit("id");
    reveal_strlit("at");
    reveal_strlit("before");
    reveal_strlit("after");
    reveal_strlit("changes");
}

/// What is recorded of an edit: nothing where it said nothing; else both rows, the moment, the id, and of
/// every field by which it said something, and of no other, what it was and what it is.
pub proof fn what_is_recorded_of_an_edit(
    before: Json,
    after: Json,
    at: Moment,
    id: Seq<char>,
    field: Seq<char>,
)
    requires
        capture::captured(before, after, at, id) is Ok,
    ensures
        ({
            let e = capture::captured(before, after, at, id)->Ok_0;
            &&& e == Json::Null <==> forall|f: Seq<char>| !#[trigger] says(before, after, at, f)
            &&& e != Json::Null ==> {
                &&& e is Object
                &&& e->Object_0.dom() == set![
                    "schema"@,
                    "id"@,
                    "at"@,
                    "before"@,
                    "after"@,
                    "changes"@,
                ]
                &&& e.at("schema"@) == Json::Int(1)
                &&& e.at("id"@) == Json::Text(id)
                &&& e.at("at"@) == Json::List(
                    seq![Json::Int(at.time), Json::Int(at.counter), Json::Text(at.device)],
                )
                &&& e.at("before"@) == before
                &&& e.at("after"@) == after
                &&& e.at("changes"@) is Object
                &&& e.at("changes"@)->Object_0.contains_key(field) <==> says(
                    before,
                    after,
                    at,
                    field,
                )
                &&& says(before, after, at, field) ==> {
                    let c = e.at("changes"@).at(field);
                    &&& c is Object
                    &&& c->Object_0.dom() == set!["before"@, "after"@]
                    &&& c.at("before"@) == before.at(field)
                    &&& c.at("after"@) == after.at(field)
                }
            }
        }),
{
    event_words_differ();
    kinds_differ();
    wire::field_names_differ();
    wire::kinds_agree(before, after);
    let e = capture::captured(before, after, at, id)->Ok_0;
    let kind = after.at("kind"@);
    capture::captures_are_explicit(before, after, at, id);
    stamped_rows_are_dated(after);
    assert forall|f: Seq<char>| is_said(kind, f) implies #[trigger] says(before, after, at, f)
        == capture::changed(before, after, at, f) by {
        reading::stamps_are_read(after.at(f).at("at"@));
    }
    assert forall|f: Seq<char>| #[trigger] says(before, after, at, f) == (capture::spoken(kind, f)
        && capture::changed(before, after, at, f)) by {}
    if forall|f: Seq<char>| !#[trigger] says(before, after, at, f) {
        assert forall|f: Seq<char>| #[trigger] capture::spoken(kind, f) implies !capture::changed(
            before,
            after,
            at,
            f,
        ) by {
            assert(!says(before, after, at, f));
        }
        assert(e == Json::Null);
    }
    if e == Json::Null {
        assert forall|f: Seq<char>| !#[trigger] says(before, after, at, f) by {
            if says(before, after, at, f) {
                assert(capture::spoken(kind, f));
            }
        }
    }
    if e != Json::Null {
        assert(e.at("changes"@)->Object_0.contains_key(field) <==> capture::spoken(kind, field)
            && capture::changed(before, after, at, field));
        assert(e.at("at"@)->List_0 =~= seq![
            Json::Int(at.time),
            Json::Int(at.counter),
            Json::Text(at.device),
        ]);
        assert(e->Object_0.dom() =~= set![
            "schema"@,
            "id"@,
            "at"@,
            "before"@,
            "after"@,
            "changes"@,
        ]);
        if says(before, after, at, field) {
            assert(e.at("changes"@).at(field) == capture::change(before.at(field), after.at(field)));
            assert(e.at("changes"@).at(field)->Object_0.dom() =~= set!["before"@, "after"@]);
        }
    }
}

/// Whether an event can be taken: it is of the schema in use, has a stamp and an id, and its rows make it
/// record what it says it changed, and something at all.
pub open spec fn is_event(event: Json) -> bool {
    &&& event.at("schema"@) == Json::Int(1)
    &&& reading::is_stamp(event.at("at"@))
    &&& event.at("id"@) is Text
    &&& capture::captured(
        event.at("before"@),
        event.at("after"@),
        reading::moment(event.at("at"@)),
        event.at("id"@)->Text_0,
    ) matches Ok(again) && again != Json::Null && json::same(
        again.at("changes"@),
        event.at("changes"@),
    )
}

/// When an event is refused, and why: the first of these that applies. What is no event is refused whatever
/// the row is now; so is every event where the row has no name.
pub proof fn when_an_event_is_refused(event: Json, current: Json)
    ensures
        !is_event(event) ==> events::translated(event, current) == Err::<Json, Seq<char>>({
            let at = event.at("at"@);
            let m = reading::moment(at);
            if event.at("schema"@) != Json::Int(1) {
                "invalid_event_schema"@
            } else if !(at is List && at->List_0.len() == 3 && at->List_0[0] is Int && i64::MIN
                <= at->List_0[0]->Int_0 <= i64::MAX && at->List_0[1] is Int && 0
                <= at->List_0[1]->Int_0 <= u64::MAX && at->List_0[2] is Text) {
                "invalid_stamp"@
            } else if !(event.at("id"@) is Text) {
                "invalid_event_id"@
            } else {
                match capture::captured(
                    event.at("before"@),
                    event.at("after"@),
                    m,
                    event.at("id"@)->Text_0,
                ) {
                    Err(e) => e,
                    Ok(_) => "invalid_event_changes"@,
                }
            }
        }),
        is_event(event) && wire::identity(current) is Err ==> events::translated(event, current)
            == Err::<Json, Seq<char>>(wire::identity(current)->Err_0),
{
    let at = event.at("at"@);
    if stamp::parsed(at) is Some && event.at("id"@) is Text {
        assert(stamp::parsed(at)->0 == reading::moment(at));
        if capture::captured(
            event.at("before"@),
            event.at("after"@),
            reading::moment(at),
            event.at("id"@)->Text_0,
        ) is Ok {
            when_an_edit_is_recorded(
                event.at("before"@),
                event.at("after"@),
                reading::moment(at),
                event.at("id"@)->Text_0,
            );
        }
    }
}

/// Whether an event changed a field and the row still says there what the event made it say.
pub open spec fn stands(event: Json, current: Json, field: Seq<char>) -> bool {
    &&& event.at("changes"@) is Object
    &&& event.at("changes"@)->Object_0.contains_key(field)
    &&& json::same(current.at(field), event.at("changes"@).at(field).at("after"@))
}

/// What a provider is asked: a kind of mark, whether to add it, and the rating, of what the row is of, by the
/// event's stamp and under the event's id and the field.
pub open spec fn request(
    event: Json,
    current: Json,
    field: Seq<char>,
    kind: Seq<char>,
    added: bool,
    rating: Json,
) -> Json {
    Json::Object(
        map![
            "kind"@ => Json::Text(kind),
            "title"@ => current.at("title"@),
            "season"@ => current.at("season"@),
            "episode"@ => current.at("episode"@),
            "added"@ => Json::Bool(added),
            "rating"@ => rating,
            "at"@ => event.at("at"@)->List_0[0],
            "stamp"@ => event.at("at"@),
            "eventID"@ => Json::Text(event.at("id"@)->Text_0 + ":"@ + field),
        ],
    )
}

/// The requests of a field, of which there is one or none.
pub open spec fn if_any(asked: bool, request: Json) -> Seq<Json> {
    if asked {
        seq![request]
    } else {
        seq![]
    }
}

/// An event that is taken, and what it is read as.
proof fn events_are_read(event: Json)
    requires
        is_event(event),
    ensures
        events::event_fault(event) is None,
        stamp::parsed(event.at("at"@)) == Some(reading::moment(event.at("at"@))),
        stamp::stamp_json(reading::moment(event.at("at"@))) == event.at("at"@),
        event.at("id"@).text() == Some(event.at("id"@)->Text_0),
        Json::Int(reading::moment(event.at("at"@)).time) == event.at("at"@)->List_0[0],
{
    let at = event.at("at"@);
    assert(stamp::stamp_json(reading::moment(at))->List_0 =~= at->List_0);
}

/// What an event of a record comes to, field by field.
///
/// - A deletion takes the title off the list, where the row is deleted and was on the watchlist before.
/// - A reaction rates the title, where the row is not deleted: 10 for love, 7 for like, 2 for dislike, and no
///   rating for none.
/// - A status lists the title or, for a movie, marks it as seen, or as not seen where it was seen before,
///   where the row is not deleted.
///
/// Nothing else is asked, and nothing by a field that the event did not change or that says something else by
/// now.
pub proof fn what_an_event_of_a_record_comes_to(event: Json, current: Json)
    requires
        is_event(event),
        reading::names_record(current),
        naming::one_thing(current, event.at("after"@)),
    ensures
        ({
            let r = events::translated(event, current);
            let was = event.at("before"@).at("status"@).at("value"@);
            let status = current.at("status"@).at("value"@);
            let reaction = current.at("reaction"@).at("value"@);
            let deleted = current.at("deleted"@).at("value"@);
            let movie = current.at("title"@).at("type"@) == Json::Text("movie"@);
            let gone = stands(event, current, "deleted"@);
            let rated = stands(event, current, "reaction"@);
            let put = stands(event, current, "status"@);
            let known = reaction == Json::Text("love"@) || reaction == Json::Text("like"@)
                || reaction == Json::Text("dislike"@) || reaction == Json::Null;
            let removal = request(event, current, "deleted"@, "list"@, false, Json::Null);
            let rating = request(
                event,
                current,
                "reaction"@,
                "rating"@,
                true,
                if reaction == Json::Text("love"@) {
                    Json::Int(10)
                } else if reaction == Json::Text("like"@) {
                    Json::Int(7)
                } else if reaction == Json::Text("dislike"@) {
                    Json::Int(2)
                } else {
                    Json::Null
                },
            );
            let listing = request(event, current, "status"@, "list"@, true, Json::Null);
            let watch = request(event, current, "status"@, "watched"@, true, Json::Null);
            let unwatch = request(event, current, "status"@, "unwatched"@, true, Json::Null);
            &&& deleted == Json::Bool(true) ==> r == Ok::<Json, Seq<char>>(
                Json::List(if_any(gone && was == Json::Text("watchlist"@), removal)),
            )
            &&& deleted == Json::Bool(false) && (rated ==> known) ==> r == Ok::<Json, Seq<char>>(
                Json::List(
                    if_any(rated, rating) + if_any(put && status == Json::Text("watchlist"@), listing)
                        + if_any(put && movie && status == Json::Text("watched"@), watch) + if_any(
                        put && movie && status == Json::Text("none"@) && was == Json::Text(
                            "watched"@,
                        ),
                        unwatch,
                    ),
                ),
            )
            &&& deleted == Json::Bool(false) && rated && !known ==> r == Err::<Json, Seq<char>>(
                "invalid_reaction"@,
            )
            &&& !(deleted is Bool) && (gone || rated || put) ==> r == Err::<Json, Seq<char>>(
                "invalid_deleted"@,
            )
            &&& !(gone || rated || put) ==> r == Ok::<Json, Seq<char>>(Json::List(seq![]))
        }),
{
    events_are_read(event);
    kinds_differ();
    wire::field_names_differ();
    statuses_differ();
    reading::rows_with_names(current);
    let at = reading::moment(event.at("at"@));
    let id = event.at("id"@)->Text_0;
    let after = event.at("after"@);
    when_an_edit_is_recorded(event.at("before"@), after, at, id);
    reading::rows_with_names(after);
    naming::one_thing_has_one_name(current, after);
    let f0 = Seq::<Seq<char>>::empty();
    let f1 = f0.push("deleted"@);
    let f2 = f1.push("reaction"@);
    let f3 = f2.push("status"@);
    assert(events::spoken_fields(current.at("kind"@)) =~= f3);
    assert(f3.drop_last() =~= f2);
    assert(f2.drop_last() =~= f1);
    assert(f1.drop_last() =~= f0);
    let c0 = events::commands_of(event, current, at, id, f0);
    let c1 = events::commands_of(event, current, at, id, f1);
    let c2 = events::commands_of(event, current, at, id, f2);
    let c3 = events::commands_of(event, current, at, id, f3);
    assert(c0 == Ok::<Seq<Json>, Seq<char>>(seq![]));
    assert(f1.last() == "deleted"@ && f2.last() == "reaction"@ && f3.last() == "status"@);
    let media = current.at("title"@).at("type"@)->Text_0;
    reading::titles_are_read(current, media, current.at("title"@).at("id"@)->Int_0 as u64);
    assert(wire::title_of(current)->Ok_0.0 == media);
    assert forall|field: Seq<char>| #[trigger] stands(event, current, field) == events::still_wins(
        event,
        current,
        field,
    ) by {}
    let was = event.at("before"@).at("status"@).at("value"@);
    assert forall|field: Seq<char>, m: events::Meaning| #[trigger]
        events::command_json(current, at, id, field, m) == request(
            event,
            current,
            field,
            m.kind,
            m.added,
            match m.rating {
                Some(n) => Json::Int(n),
                None => Json::Null,
            },
        ) by {}
    let cs = c3->Ok_0;
    let status = current.at("status"@).at("value"@);
    let put = stands(event, current, "status"@);
    let movie = current.at("title"@).at("type"@) == Json::Text("movie"@);
    let rating = if c2 is Ok && c2->Ok_0.len() > 0 {
        c2->Ok_0[0]
    } else {
        Json::Null
    };
    if current.at("deleted"@).at("value"@) == Json::Bool(true) {
        let removal = request(event, current, "deleted"@, "list"@, false, Json::Null);
        assert(cs =~= if_any(
            stands(event, current, "deleted"@) && was == Json::Text("watchlist"@),
            removal,
        ));
    } else if current.at("deleted"@).at("value"@) == Json::Bool(false) && c2 is Ok {
        assert(c1 == Ok::<Seq<Json>, Seq<char>>(seq![]));
        assert(c2->Ok_0 =~= if_any(stands(event, current, "reaction"@), rating));
        assert(cs =~= c2->Ok_0 + if_any(
            put && status == Json::Text("watchlist"@),
            request(event, current, "status"@, "list"@, true, Json::Null),
        ) + if_any(
            put && movie && status == Json::Text("watched"@),
            request(event, current, "status"@, "watched"@, true, Json::Null),
        ) + if_any(
            put && movie && status == Json::Text("none"@) && was == Json::Text("watched"@),
            request(event, current, "status"@, "unwatched"@, true, Json::Null),
        ));
    }
}

/// Statuses and reactions are told apart.
proof fn statuses_differ()
    ensures
        "watchlist"@.len() == 9,
        "watched"@.len() == 7,
        "none"@.len() == 4,
        "love"@.len() == 4,
        "love"@[1] == 'o',
        "like"@.len() == 4,
        "like"@[1] == 'i',
        "dislike"@.len() == 7,
{
    reveal_strlit("watchlist");
    reveal_strlit("watched");
    reveal_strlit("none");
    reveal_strlit("love");
    reveal_strlit("like");
    reveal_strlit("dislike");
}

/// Whether progress is enough to count as seen: 95 in 100 or more.
pub open spec fn is_seen(v: Json) -> bool {
    ||| v is Int && v->Int_0 >= 1
    ||| v is Float && 0x3fee_6666_6666_6666 <= v->Float_0.bits <= 0x7ff0_0000_0000_0000
}

/// Whether progress is none.
pub open spec fn is_unseen(v: Json) -> bool {
    ||| v == Json::Int(0)
    ||| v is Float && (v->Float_0.bits == 0 || v->Float_0.bits == 0x8000_0000_0000_0000)
}

/// What an event of an episode comes to: it is marked as seen where its progress is enough, as not seen where
/// there is none, and left alone between; by what the event made it say and nothing since.
pub proof fn what_an_event_of_an_episode_comes_to(event: Json, current: Json)
    requires
        is_event(event),
        reading::names_episode(current),
        naming::one_thing(current, event.at("after"@)),
        current.at("progress"@).at("value"@) is Int ==> i64::MIN <= current.at("progress"@).at(
            "value"@,
        )->Int_0 <= u64::MAX,
    ensures
        ({
            let r = events::translated(event, current);
            let v = current.at("progress"@).at("value"@);
            let said = stands(event, current, "progress"@);
            let watch = request(event, current, "progress"@, "watched"@, true, Json::Null);
            let unwatch = request(event, current, "progress"@, "unwatched"@, true, Json::Null);
            &&& said && !(v is Int) && !(v is Float) ==> r == Err::<Json, Seq<char>>(
                "invalid_progress"@,
            )
            &&& !said || v is Int || v is Float ==> r == Ok::<Json, Seq<char>>(
                Json::List(if_any(said && is_seen(v), watch) + if_any(said && is_unseen(v), unwatch)),
            )
        }),
{
    events_are_read(event);
    kinds_differ();
    wire::field_names_differ();
    reading::rows_with_names(current);
    let at = reading::moment(event.at("at"@));
    let id = event.at("id"@)->Text_0;
    let after = event.at("after"@);
    when_an_edit_is_recorded(event.at("before"@), after, at, id);
    reading::rows_with_names(after);
    naming::one_thing_has_one_name(current, after);
    let f0 = Seq::<Seq<char>>::empty();
    let f1 = f0.push("progress"@);
    assert(events::spoken_fields(current.at("kind"@)) =~= f1);
    assert(f1.drop_last() =~= f0);
    assert(f1.last() == "progress"@);
    assert(events::commands_of(event, current, at, id, f0) == Ok::<Seq<Json>, Seq<char>>(seq![]));
    let c = events::commands_of(event, current, at, id, f1);
    let v = current.at("progress"@).at("value"@);
    if v is Int {
        double::whole_numbers_among_fractions(v->Int_0);
        double::doubles_are_their_bits(double::double_of(v->Int_0));
    } else if v is Float {
        double::doubles_are_their_bits(v->Float_0);
    }
    double::doubles_are_their_bits(Double { bits: double::WATCHED });
    let said = stands(event, current, "progress"@);
    assert(said == events::still_wins(event, current, "progress"@));
    let watch = request(event, current, "progress"@, "watched"@, true, Json::Null);
    let unwatch = request(event, current, "progress"@, "unwatched"@, true, Json::Null);
    if c is Ok {
        assert(c->Ok_0 =~= if_any(said && is_seen(v), watch) + if_any(said && is_unseen(v), unwatch));
    }
}

/// An event of one thing asks nothing of another.
pub proof fn events_of_other_rows_ask_for_nothing(event: Json, current: Json)
    requires
        is_event(event),
        wire::identity(current) is Ok,
        !naming::one_thing(current, event.at("after"@)),
    ensures
        events::translated(event, current) == Ok::<Json, Seq<char>>(Json::List(seq![])),
{
    events_are_read(event);
    when_an_edit_is_recorded(
        event.at("before"@),
        event.at("after"@),
        reading::moment(event.at("at"@)),
        event.at("id"@)->Text_0,
    );
    reading::rows_with_names(event.at("after"@));
    naming::one_thing_has_one_name(current, event.at("after"@));
}

/// A removal from the list is asked only of a row that is deleted now and was on the watchlist before the
/// edit. A row that is deleted now asks for nothing but that, and for nothing at all if it was not on the
/// watchlist.
pub proof fn only_the_watchlist_is_left(event: Json, current: Json, i: int)
    requires
        events::translated(event, current) matches Ok(Json::List(requests)) && 0 <= i
            < requests.len(),
    ensures
        ({
            let asked = events::translated(event, current)->Ok_0->List_0[i];
            let was = event.at("before"@).at("status"@).at("value"@);
            let deleted = current.at("deleted"@).at("value"@);
            &&& asked.at("kind"@) == Json::Text("list"@) && asked.at("added"@) == Json::Bool(false)
                ==> was == Json::Text("watchlist"@) && deleted == Json::Bool(true)
                && current.at("kind"@) == Json::Text("rec"@)
            &&& asked.at("added"@) == Json::Bool(false) ==> asked.at("kind"@) == Json::Text("list"@)
            &&& deleted == Json::Bool(true) && current.at("kind"@) == Json::Text("rec"@) ==> was
                == Json::Text("watchlist"@) && asked.at("added"@) == Json::Bool(false)
        }),
{
    kinds_differ();
    request_words_differ();
    let r = events::translated(event, current);
    when_an_event_is_refused(event, current);
    if !naming::one_thing(current, event.at("after"@)) {
        events_of_other_rows_ask_for_nothing(event, current);
    } else {
        reading::rows_with_names(current);
        when_an_edit_is_recorded(
            event.at("before"@),
            event.at("after"@),
            reading::moment(event.at("at"@)),
            event.at("id"@)->Text_0,
        );
        if reading::names_record(current) {
            what_an_event_of_a_record_comes_to(event, current);
        } else {
            let v = current.at("progress"@).at("value"@);
            episodes_add(event, current, i);
        }
    }
}

/// What an event of an episode asks adds a mark.
proof fn episodes_add(event: Json, current: Json, i: int)
    requires
        is_event(event),
        reading::names_episode(current),
        naming::one_thing(current, event.at("after"@)),
        events::translated(event, current) matches Ok(Json::List(requests)) && 0 <= i
            < requests.len(),
    ensures
        events::translated(event, current)->Ok_0->List_0[i].at("added"@) == Json::Bool(true),
{
    kinds_differ();
    request_words_differ();
    events_are_read(event);
    reading::rows_with_names(current);
    let at = reading::moment(event.at("at"@));
    let id = event.at("id"@)->Text_0;
    let after = event.at("after"@);
    when_an_edit_is_recorded(event.at("before"@), after, at, id);
    reading::rows_with_names(after);
    naming::one_thing_has_one_name(current, after);
    let f0 = Seq::<Seq<char>>::empty();
    let f1 = f0.push("progress"@);
    assert(events::spoken_fields(current.at("kind"@)) =~= f1);
    assert(f1.drop_last() =~= f0);
    assert(events::commands_of(event, current, at, id, f0) == Ok::<Seq<Json>, Seq<char>>(seq![]));
}

/// The words of a request are told apart.
proof fn request_words_differ()
    ensures
        "kind"@.len() == 4,
        "title"@.len() == 5,
        "title"@[0] == 't',
        "season"@.len() == 6,
        "season"@[0] == 's',
        "episode"@.len() == 7,
        "episode"@[0] == 'e',
        "episode"@[1] == 'p',
        "added"@.len() == 5,
        "added"@[0] == 'a',
        "rating"@.len() == 6,
        "rating"@[0] == 'r',
        "at"@.len() == 2,
        "stamp"@.len() == 5,
        "stamp"@[0] == 's',
        "eventID"@.len() == 7,
        "eventID"@[1] == 'v',
        "list"@.len() == 4,
        "watched"@.len() == 7,
        "unwatched"@.len() == 9,
{
    reveal_strlit("kind");
    reveal_strlit("title");
    reveal_strlit("season");
    reveal_strlit("episode");
    reveal_strlit("added");
    reveal_strlit("rating");
    reveal_strlit("at");
    reveal_strlit("stamp");
    reveal_strlit("eventID");
    reveal_strlit("list");
    reveal_strlit("watched");
    reveal_strlit("unwatched");
}

/// What is recorded of an edit is an event, and while the row stays as the edit left it, every field by which
/// the edit said something still says it, and no other does.
pub proof fn edits_are_told(before: Json, after: Json, at: Moment, id: Seq<char>, field: Seq<char>)
    requires
        at.counter >= 0,
        capture::captured(before, after, at, id) is Ok,
        capture::captured(before, after, at, id)->Ok_0 != Json::Null,
    ensures
        is_event(capture::captured(before, after, at, id)->Ok_0),
        stands(capture::captured(before, after, at, id)->Ok_0, after, field) <==> says(
            before,
            after,
            at,
            field,
        ),
{
    let e = capture::captured(before, after, at, id)->Ok_0;
    when_an_edit_is_recorded(before, after, at, id);
    what_is_recorded_of_an_edit(before, after, at, id, field);
    assert(reading::moment(e.at("at"@)) == at);
}

/// What a deletion comes to: a title that was on the watchlist goes off the list, and of any other nothing is
/// asked, whatever else the edit said.
pub proof fn what_a_deletion_comes_to(before: Json, after: Json, at: Moment, id: Seq<char>)
    requires
        at.counter >= 0,
        capture::captured(before, after, at, id) is Ok,
        capture::captured(before, after, at, id)->Ok_0 != Json::Null,
        reading::names_record(after),
        says(before, after, at, "deleted"@),
        after.at("deleted"@).at("value"@) == Json::Bool(true),
    ensures
        ({
            let e = capture::captured(before, after, at, id)->Ok_0;
            let r = events::translated(e, after);
            &&& before.at("status"@).at("value"@) == Json::Text("watchlist"@) ==> r == Ok::<
                Json,
                Seq<char>,
            >(Json::List(seq![request(e, after, "deleted"@, "list"@, false, Json::Null)]))
            &&& before.at("status"@).at("value"@) != Json::Text("watchlist"@) ==> r == Ok::<
                Json,
                Seq<char>,
            >(Json::List(seq![]))
        }),
{
    let e = capture::captured(before, after, at, id)->Ok_0;
    edits_are_told(before, after, at, id, "deleted"@);
    what_is_recorded_of_an_edit(before, after, at, id, "deleted"@);
    what_an_event_of_a_record_comes_to(e, after);
}

} // verus!
