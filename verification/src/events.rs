//! From what a user said to what a provider is told.

use crate::capture;
use crate::double;
use crate::double::Double;
use crate::json;
use crate::json::{Json, Object, Value};
use crate::stamp;
use crate::stamp::{Moment, Stamp};
use crate::text;
use crate::wire;
use vstd::prelude::*;
use vstd::string::StringExecFns;

verus! {

/// What a change of a field asks of a provider.
pub struct Meaning {
    pub kind: Seq<char>,
    pub added: bool,
    pub rating: Option<int>,
}

/// What a provider is asked to note as seen, unseen or listed.
pub open spec fn plain(kind: Seq<char>) -> Meaning {
    Meaning { kind, added: true, rating: None }
}

/// What a status asks. A series is seen by its episodes, so only a movie is marked by its status.
pub open spec fn status_means(status: Json, before: Json, media: Seq<char>) -> Option<Meaning> {
    if status == Json::Text("watchlist"@) {
        Some(plain("list"@))
    } else if status == Json::Text("watched"@) && media == "movie"@ {
        Some(plain("watched"@))
    } else if status == Json::Text("none"@) && media == "movie"@ && before == Json::Text(
        "watched"@,
    ) {
        Some(plain("unwatched"@))
    } else {
        None
    }
}

/// The rating that a reaction asks for.
pub open spec fn rating_of(reaction: Json) -> Result<Option<int>, Seq<char>> {
    if reaction == Json::Text("love"@) {
        Ok(Some(10))
    } else if reaction == Json::Text("like"@) {
        Ok(Some(7))
    } else if reaction == Json::Text("dislike"@) {
        Ok(Some(2))
    } else if reaction == Json::Null {
        Ok(None)
    } else {
        Err("invalid_reaction"@)
    }
}

/// What the progress of an episode asks: seen from the threshold on, unseen at nothing.
pub open spec fn progress_means(progress: Double) -> Option<Meaning> {
    if progress.ordered() && progress.rank() >= (Double { bits: double::WATCHED }).rank() {
        Some(plain("watched"@))
    } else if progress.magnitude() == 0 {
        Some(plain("unwatched"@))
    } else {
        None
    }
}

/// What a field that still says what the user said asks of a provider, if anything. `before` is the
/// status before the edit.
pub open spec fn meaning(current: Json, before: Json, field: Seq<char>) -> Result<
    Option<Meaning>,
    Seq<char>,
> {
    if current.at("kind"@) == Json::Text("rec"@) {
        match current.at("deleted"@).at("value"@).truth() {
            None => Err("invalid_deleted"@),
            Some(deleted) => if field == "status"@ && !deleted {
                Ok(
                    status_means(
                        current.at("status"@).at("value"@),
                        before,
                        wire::title_of(current)->Ok_0.0,
                    ),
                )
            } else if field == "reaction"@ && !deleted {
                match rating_of(current.at("reaction"@).at("value"@)) {
                    Ok(rating) => Ok(Some(Meaning { kind: "rating"@, added: true, rating })),
                    Err(e) => Err(e),
                }
            } else if field == "deleted"@ && deleted && before == Json::Text("watchlist"@) {
                Ok(Some(Meaning { kind: "list"@, added: false, rating: None }))
            } else {
                Ok(None)
            },
        }
    } else {
        match current.at("progress"@).at("value"@).double() {
            None => Err("invalid_progress"@),
            Some(progress) => Ok(progress_means(progress)),
        }
    }
}

/// How a command is written.
pub open spec fn command_json(
    current: Json,
    at: Moment,
    id: Seq<char>,
    field: Seq<char>,
    m: Meaning,
) -> Json {
    Json::Object(
        map![
            "kind"@ => Json::Text(m.kind),
            "title"@ => current.at("title"@),
            "season"@ => current.at("season"@),
            "episode"@ => current.at("episode"@),
            "added"@ => Json::Bool(m.added),
            "rating"@ => match m.rating {
                Some(n) => Json::Int(n),
                None => Json::Null,
            },
            "at"@ => Json::Int(at.time),
            "stamp"@ => stamp::stamp_json(at),
            "eventID"@ => Json::Text(id + ":"@ + field),
        ],
    )
}

/// Whether an event changed a field, and the row still says what the event made it say.
pub open spec fn still_wins(event: Json, current: Json, field: Seq<char>) -> bool {
    &&& event.at("changes"@) matches Json::Object(changes) && changes.contains_key(field)
    &&& json::same(current.at(field), event.at("changes"@).at(field).at("after"@))
}

/// The commands of an event, field by field, or the first error in one.
pub open spec fn commands_of(
    event: Json,
    current: Json,
    at: Moment,
    id: Seq<char>,
    fields: Seq<Seq<char>>,
) -> Result<Seq<Json>, Seq<char>>
    decreases fields.len(),
{
    if fields.len() == 0 {
        Ok(seq![])
    } else {
        match commands_of(event, current, at, id, fields.drop_last()) {
            Err(e) => Err(e),
            Ok(so_far) => if !still_wins(event, current, fields.last()) {
                Ok(so_far)
            } else {
                match meaning(
                    current,
                    event.at("before"@).at("status"@).at("value"@),
                    fields.last(),
                ) {
                    Err(e) => Err(e),
                    Ok(None) => Ok(so_far),
                    Ok(Some(m)) => Ok(so_far.push(command_json(current, at, id, fields.last(), m))),
                }
            },
        }
    }
}

/// The fields by which a user says something, in the order of their names.
pub open spec fn spoken_fields(kind: Json) -> Seq<Seq<char>> {
    if kind == Json::Text("rec"@) {
        seq!["deleted"@, "reaction"@, "status"@]
    } else {
        seq!["progress"@]
    }
}

/// The first error in an event: what it says it changed must be what it changed.
pub open spec fn event_fault(event: Json) -> Option<Seq<char>> {
    if event.at("schema"@) != Json::Int(1) {
        Some("invalid_event_schema"@)
    } else if stamp::parsed(event.at("at"@)) is None {
        Some("invalid_stamp"@)
    } else if event.at("id"@).text() is None {
        Some("invalid_event_id"@)
    } else {
        let at = stamp::parsed(event.at("at"@))->0;
        let id = event.at("id"@).text()->0;
        match capture::captured(event.at("before"@), event.at("after"@), at, id) {
            Err(e) => Some(e),
            Ok(again) => if again == Json::Null || !json::same(
                again.at("changes"@),
                event.at("changes"@),
            ) {
                Some("invalid_event_changes"@)
            } else {
                None
            },
        }
    }
}

/// The commands that an event comes to while the row is as it is now.
pub open spec fn translated(event: Json, current: Json) -> Result<Json, Seq<char>> {
    match wire::or(event_fault(event), wire::fault(wire::identity(current))) {
        Some(e) => Err(e),
        None => if wire::identity(current) != wire::identity(event.at("after"@)) {
            Ok(Json::List(seq![]))
        } else {
            match commands_of(
                event,
                current,
                stamp::parsed(event.at("at"@))->0,
                event.at("id"@).text()->0,
                spoken_fields(current.at("kind"@)),
            ) {
                Ok(commands) => Ok(Json::List(commands)),
                Err(e) => Err(e),
            }
        },
    }
}

/// What a change of a field asks of a provider.
struct Intent {
    kind: &'static str,
    added: bool,
    rating: Option<u64>,
}

impl View for Intent {
    type V = Meaning;

    closed spec fn view(&self) -> Meaning {
        Meaning {
            kind: self.kind@,
            added: self.added,
            rating: match self.rating {
                Some(n) => Some(n as int),
                None => None,
            },
        }
    }
}

/// What an answer asks, in place of the value that holds it.
spec fn asked(r: Result<Option<Intent>, String>) -> Result<Option<Meaning>, Seq<char>> {
    match r {
        Ok(Some(intent)) => Ok(Some(intent@)),
        Ok(None) => Ok(None),
        Err(e) => Err(e@),
    }
}

/// What a status asks.
fn of_status(status: &Value, before: &Value, media: &str) -> (r: Option<Intent>)
    ensures
        asked(Ok(r)) == Ok::<Option<Meaning>, Seq<char>>(status_means(status@, before@, media@)),
{
    if status.is_text("watchlist") {
        Some(Intent { kind: "list", added: true, rating: None })
    } else if status.is_text("watched") && text::same(media, "movie") {
        Some(Intent { kind: "watched", added: true, rating: None })
    } else if status.is_text("none") && text::same(media, "movie") && before.is_text("watched") {
        Some(Intent { kind: "unwatched", added: true, rating: None })
    } else {
        None
    }
}

/// What a reaction asks.
fn of_reaction(reaction: &Value) -> (r: Result<Option<Intent>, String>)
    ensures
        asked(r) == (match rating_of(reaction@) {
            Ok(rating) => Ok(Some(Meaning { kind: "rating"@, added: true, rating })),
            Err(e) => Err(e),
        }),
{
    let rating: Option<u64> = if reaction.is_text("love") {
        Some(10)
    } else if reaction.is_text("like") {
        Some(7)
    } else if reaction.is_text("dislike") {
        Some(2)
    } else if reaction.is_null() {
        None
    } else {
        return Err("invalid_reaction".to_owned());
    };
    Ok(Some(Intent { kind: "rating", added: true, rating }))
}

/// What the progress of an episode asks.
fn of_progress(progress: Double) -> (r: Option<Intent>)
    ensures
        asked(Ok(r)) == Ok::<Option<Meaning>, Seq<char>>(progress_means(progress)),
{
    let threshold: Double = Double { bits: double::WATCHED };
    if threshold.less_than(progress) || progress == threshold {
        Some(Intent { kind: "watched", added: true, rating: None })
    } else if progress.is_zero() {
        Some(Intent { kind: "unwatched", added: true, rating: None })
    } else {
        None
    }
}

/// What a field that still says what the user said asks of a provider, if anything.
fn intent(current: &Value, before: &Value, field: &str) -> (r: Result<Option<Intent>, String>)
    requires
        current@.at("kind"@) == Json::Text("rec"@) ==> wire::title_of(current@) is Ok,
    ensures
        asked(r) == meaning(current@, before@, field@),
{
    if current.at("kind").is_text("rec") {
        let deleted: bool = match current.at("deleted").at("value").as_bool() {
            Some(deleted) => deleted,
            None => return Err("invalid_deleted".to_owned()),
        };
        if text::same(field, "status") && !deleted {
            match current.at("title").at("type").as_str() {
                Some(media) => Ok(of_status(current.at("status").at("value"), before, media)),
                None => Err("invalid_title".to_owned()),
            }
        } else if text::same(field, "reaction") && !deleted {
            of_reaction(current.at("reaction").at("value"))
        } else if text::same(field, "deleted") && deleted && before.is_text("watchlist") {
            Ok(Some(Intent { kind: "list", added: false, rating: None }))
        } else {
            Ok(None)
        }
    } else {
        match current.at("progress").at("value").as_double() {
            Some(progress) => Ok(of_progress(progress)),
            None => Err("invalid_progress".to_owned()),
        }
    }
}

/// Writes a command.
fn command(current: &Value, at: &Stamp, id: &str, field: &str, intent: Intent) -> (v: Value)
    ensures
        v@ == command_json(current@, at@, id@, field@, intent@),
{
    let mut event: String = id.to_owned();
    event.append(":");
    event.append(field);
    let rating: Value = match intent.rating {
        Some(n) => Value::from_u64(n),
        None => Value::Null,
    };
    let mut out: Object = Object::new();
    out.insert("kind".to_owned(), Value::from_str(intent.kind));
    out.insert("title".to_owned(), current.at("title").duplicate());
    out.insert("season".to_owned(), current.at("season").duplicate());
    out.insert("episode".to_owned(), current.at("episode").duplicate());
    out.insert("added".to_owned(), Value::Bool(intent.added));
    out.insert("rating".to_owned(), rating);
    out.insert("at".to_owned(), Value::from_i64(at.0));
    out.insert("stamp".to_owned(), at.to_value());
    out.insert("eventID".to_owned(), Value::String(event));
    Value::Object(out)
}

/// What commands say, in place of the values that hold them.
spec fn ordered(r: Result<Vec<Value>, String>) -> Result<Seq<Json>, Seq<char>> {
    match r {
        Ok(commands) => Ok(json::models(commands@)),
        Err(e) => Err(e@),
    }
}

/// Adds the command of one more field to those of the fields before it.
fn add_command(
    event: &Value,
    current: &Value,
    at: &Stamp,
    id: &str,
    field: &str,
    so_far: Vec<Value>,
    Ghost(before): Ghost<Seq<Seq<char>>>,
) -> (r: Result<Vec<Value>, String>)
    requires
        current@.at("kind"@) == Json::Text("rec"@) ==> wire::title_of(current@) is Ok,
        commands_of(event@, current@, at@, id@, before) == Ok::<Seq<Json>, Seq<char>>(
            json::models(so_far@),
        ),
    ensures
        ordered(r) == commands_of(event@, current@, at@, id@, before.push(field@)),
{
    let ghost given = so_far@;
    assert(before.push(field@).drop_last() =~= before);
    let change: Option<&Value> = match event.at("changes").as_object() {
        Some(changes) => changes.get(field),
        None => None,
    };
    let mut commands: Vec<Value> = so_far;
    if let Some(change) = change {
        if current.at(field).same(change.at("after")) {
            match intent(current, event.at("before").at("status").at("value"), field) {
                Err(e) => return Err(e),
                Ok(None) => {},
                Ok(Some(intent)) => {
                    let one: Value = command(current, at, id, field, intent);
                    let ghost model = one@;
                    commands.push(one);
                    assert(json::models(commands@) =~= json::models(given).push(model));
                },
            }
        }
    }
    Ok(commands)
}

/// An error in the first fields is the error of all.
proof fn first_error_stands(
    event: Json,
    current: Json,
    at: Moment,
    id: Seq<char>,
    fields: Seq<Seq<char>>,
    field: Seq<char>,
)
    ensures
        commands_of(event, current, at, id, fields) is Err ==> commands_of(
            event,
            current,
            at,
            id,
            fields.push(field),
        ) == commands_of(event, current, at, id, fields),
{
    assert(fields.push(field).drop_last() =~= fields);
}

/// The fields of a record, one after the other.
proof fn record_fields()
    ensures
        spoken_fields(Json::Text("rec"@)) == Seq::<Seq<char>>::empty().push("deleted"@).push(
            "reaction"@,
        ).push("status"@),
{
    assert(spoken_fields(Json::Text("rec"@)) =~= Seq::<Seq<char>>::empty().push("deleted"@).push(
        "reaction"@,
    ).push("status"@));
}

/// A record that has a name has a title.
proof fn titles_of_records(row: Json)
    requires
        wire::identity(row) is Ok,
    ensures
        row.at("kind"@) == Json::Text("rec"@) ==> wire::title_of(row) is Ok,
{
    reveal_strlit("rec");
    reveal_strlit("set");
    assert("rec"@[0] != "set"@[0]);
}

/// The commands of an event while its record is as it is now.
fn record_commands(event: &Value, current: &Value, at: &Stamp, id: &str) -> (r: Result<
    Vec<Value>,
    String,
>)
    requires
        current@.at("kind"@) == Json::Text("rec"@),
        wire::title_of(current@) is Ok,
    ensures
        ordered(r) == commands_of(
            event@,
            current@,
            at@,
            id@,
            spoken_fields(current@.at("kind"@)),
        ),
{
    let ghost f0 = Seq::<Seq<char>>::empty();
    let ghost f1 = f0.push("deleted"@);
    let ghost f2 = f1.push("reaction"@);
    let none: Vec<Value> = Vec::new();
    assert(json::models(none@) =~= seq![]);
    proof {
        record_fields();
        first_error_stands(event@, current@, at@, id@, f1, "reaction"@);
        first_error_stands(event@, current@, at@, id@, f2, "status"@);
    }
    let c1: Vec<Value> = match add_command(event, current, at, id, "deleted", none, Ghost(f0)) {
        Ok(c) => c,
        Err(e) => return Err(e),
    };
    let c2: Vec<Value> = match add_command(event, current, at, id, "reaction", c1, Ghost(f1)) {
        Ok(c) => c,
        Err(e) => return Err(e),
    };
    add_command(event, current, at, id, "status", c2, Ghost(f2))
}

/// The commands of an event while its episode is as it is now.
fn episode_commands(event: &Value, current: &Value, at: &Stamp, id: &str) -> (r: Result<
    Vec<Value>,
    String,
>)
    requires
        current@.at("kind"@) != Json::Text("rec"@),
    ensures
        ordered(r) == commands_of(
            event@,
            current@,
            at@,
            id@,
            spoken_fields(current@.at("kind"@)),
        ),
{
    let ghost f0 = Seq::<Seq<char>>::empty();
    let none: Vec<Value> = Vec::new();
    assert(json::models(none@) =~= seq![]);
    assert(f0.push("progress"@) =~= spoken_fields(current@.at("kind"@)));
    add_command(event, current, at, id, "progress", none, Ghost(f0))
}

/// Translates what a user said into what a provider is told, as far as it was recorded and still wins. An
/// import never invents an event. Transport, credentials and receipts, and the last look at the account
/// and at the row before sending, are the caller's.
pub fn commands(event: &Value, current: &Value) -> (r: Result<Value, String>)
    ensures
        stamp::told(r) == translated(event@, current@),
{
    match event.at("schema").as_u64() {
        Some(schema) => if schema != 1 {
            return Err("invalid_event_schema".to_owned());
        },
        None => return Err("invalid_event_schema".to_owned()),
    }
    let at: Stamp = match Stamp::from_value(event.at("at")) {
        Some(at) => at,
        None => return Err("invalid_stamp".to_owned()),
    };
    let id: &str = match event.at("id").as_str() {
        Some(id) => id,
        None => return Err("invalid_event_id".to_owned()),
    };
    let again: Value = match capture::capture(event.at("before"), event.at("after"), &at, id) {
        Ok(again) => again,
        Err(e) => return Err(e),
    };
    if again.is_null() || !again.at("changes").same(event.at("changes")) {
        return Err("invalid_event_changes".to_owned());
    }
    let now: String = match wire::name(current) {
        Ok(n) => n,
        Err(e) => return Err(e),
    };
    let then: String = match wire::name(event.at("after")) {
        Ok(n) => n,
        Err(e) => return Err(e),
    };
    let none: Vec<Value> = Vec::new();
    assert(json::models(none@) =~= seq![]);
    if !text::same(now.as_str(), then.as_str()) {
        return Ok(Value::Array(none));
    }
    proof {
        titles_of_records(current@);
    }
    let commands: Result<Vec<Value>, String> = if current.at("kind").is_text("rec") {
        record_commands(event, current, &at, id)
    } else {
        episode_commands(event, current, &at, id)
    };
    match commands {
        Ok(commands) => Ok(Value::Array(commands)),
        Err(e) => Err(e),
    }
}

// ---------------------------------------------------------------------------------------------------
// Laws.

/// How an event that was captured reads.
proof fn events_read_back(
    before: Json,
    after: Json,
    at: Moment,
    id: Seq<char>,
    changes: Map<Seq<char>, Json>,
)
    ensures
        ({
            let e = capture::event_json(before, after, at, id, changes);
            &&& e.at("schema"@) == Json::Int(1)
            &&& e.at("id"@) == Json::Text(id)
            &&& e.at("at"@) == stamp::stamp_json(at)
            &&& e.at("before"@) == before
            &&& e.at("after"@) == after
            &&& e.at("changes"@) == Json::Object(changes)
        }),
{
    reveal_strlit("schema");
    reveal_strlit("id");
    reveal_strlit("at");
    reveal_strlit("before");
    reveal_strlit("after");
    reveal_strlit("changes");
    assert("schema"@.len() == 6 && "before"@.len() == 6 && "schema"@[0] != "before"@[0]);
    assert("id"@.len() == 2 && "at"@.len() == 2 && "id"@[0] != "at"@[0]);
    assert("after"@.len() == 5 && "changes"@.len() == 7);
}

/// What capturing an edit writes is an event that translates: it is never refused as one.
pub proof fn captured_events_are_accepted(before: Json, after: Json, at: Stamp, id: Seq<char>)
    requires
        capture::captured(before, after, at@, id) is Ok,
        capture::captured(before, after, at@, id)->Ok_0 != Json::Null,
    ensures
        event_fault(capture::captured(before, after, at@, id)->Ok_0) is None,
{
    let changes = capture::changes_of(before, after, at@);
    events_read_back(before, after, at@, id, changes);
    stamp::stamps_read_back(at);
}

/// An event that says it changed something else than its rows show is refused, whatever the row is now.
pub proof fn forged_changes_are_refused(event: Json, changes: Json, current: Json)
    requires
        event_fault(event) is None,
        !json::same(event.at("changes"@), changes),
    ensures
        translated(Json::Object(event->Object_0.insert("changes"@, changes)), current) == Err::<
            Json,
            Seq<char>,
        >("invalid_event_changes"@),
{
    reveal_strlit("schema");
    reveal_strlit("id");
    reveal_strlit("at");
    reveal_strlit("before");
    reveal_strlit("after");
    reveal_strlit("changes");
    assert("schema"@.len() == 6 && "before"@.len() == 6 && "id"@.len() == 2 && "at"@.len() == 2
        && "after"@.len() == 5 && "changes"@.len() == 7);
    let forged = Json::Object(event->Object_0.insert("changes"@, changes));
    assert(forged.at("schema"@) == event.at("schema"@));
    assert(forged.at("id"@) == event.at("id"@));
    assert(forged.at("at"@) == event.at("at"@));
    assert(forged.at("before"@) == event.at("before"@));
    assert(forged.at("after"@) == event.at("after"@));
    assert(forged.at("changes"@) == changes);
}

/// An event that is accepted changes only fields by which a user says something.
pub proof fn events_change_only_what_was_said(event: Json, field: Seq<char>)
    requires
        event_fault(event) is None,
        event.at("changes"@) matches Json::Object(changes) && changes.contains_key(field),
    ensures
        capture::spoken(event.at("after"@).at("kind"@), field),
        spoken_fields(event.at("after"@).at("kind"@)).contains(field),
{
    let before = event.at("before"@);
    let after = event.at("after"@);
    let at = stamp::parsed(event.at("at"@))->0;
    let id = event.at("id"@).text()->0;
    let kind = after.at("kind"@);
    let again = capture::captured(before, after, at, id)->Ok_0;
    capture::captures_are_explicit(before, after, at, id);
    let x = again.at("changes"@);
    let y = event.at("changes"@);
    assert(x.normal()->Object_0.contains_key(field) == x->Object_0.contains_key(field));
    assert(y.normal()->Object_0.contains_key(field) == y->Object_0.contains_key(field));
    let fields = spoken_fields(kind);
    if kind == Json::Text("rec"@) {
        assert(fields[0] == "deleted"@ && fields[1] == "reaction"@ && fields[2] == "status"@);
    } else {
        assert(fields[0] == "progress"@);
    }
}

/// An event of another row, or one of which no field still says what it made it say, asks for nothing.
pub proof fn superseded_events_ask_for_nothing(event: Json, current: Json)
    requires
        event_fault(event) is None,
        wire::identity(current) is Ok,
        wire::identity(current) == wire::identity(event.at("after"@)) ==> forall|field: Seq<char>|
            #[trigger]
            spoken_fields(current.at("kind"@)).contains(field) ==> !still_wins(event, current, field),
    ensures
        translated(event, current) == Ok::<Json, Seq<char>>(Json::List(seq![])),
{
    if wire::identity(current) == wire::identity(event.at("after"@)) {
        lost_fields_ask_for_nothing(
            event,
            current,
            stamp::parsed(event.at("at"@))->0,
            event.at("id"@).text()->0,
            spoken_fields(current.at("kind"@)),
        );
    }
}

/// Fields that no longer win ask for nothing.
proof fn lost_fields_ask_for_nothing(
    event: Json,
    current: Json,
    at: Moment,
    id: Seq<char>,
    fields: Seq<Seq<char>>,
)
    requires
        forall|field: Seq<char>| #[trigger]
            fields.contains(field) ==> !still_wins(event, current, field),
    ensures
        commands_of(event, current, at, id, fields) == Ok::<Seq<Json>, Seq<char>>(seq![]),
    decreases fields.len(),
{
    if fields.len() > 0 {
        let front = fields.drop_last();
        assert forall|field: Seq<char>| #[trigger] front.contains(field) implies !still_wins(
            event,
            current,
            field,
        ) by {
            let i = choose|i: int| 0 <= i < front.len() && front[i] == field;
            assert(fields[i] == field);
            assert(fields.contains(field));
        }
        lost_fields_ask_for_nothing(event, current, at, id, front);
        assert(fields.contains(fields.last()));
    }
}

/// Every command comes of a field that the event changed and that still says what the event made it say,
/// and carries the event's stamp and the row's title.
pub proof fn commands_come_of_winning_fields(event: Json, current: Json, i: int)
    requires
        translated(event, current) matches Ok(Json::List(commands)) && 0 <= i < commands.len(),
    ensures
        exists|field: Seq<char>, m: Meaning|
            #![trigger command_json(
                current,
                stamp::parsed(event.at("at"@))->0,
                event.at("id"@).text()->0,
                field,
                m,
            )]
            {
                &&& spoken_fields(current.at("kind"@)).contains(field)
                &&& still_wins(event, current, field)
                &&& translated(event, current)->Ok_0->List_0[i] == command_json(
                    current,
                    stamp::parsed(event.at("at"@))->0,
                    event.at("id"@).text()->0,
                    field,
                    m,
                )
            },
{
    fields_make_commands(
        event,
        current,
        stamp::parsed(event.at("at"@))->0,
        event.at("id"@).text()->0,
        spoken_fields(current.at("kind"@)),
        i,
    );
}

/// Every command comes of a field that still wins.
proof fn fields_make_commands(
    event: Json,
    current: Json,
    at: Moment,
    id: Seq<char>,
    fields: Seq<Seq<char>>,
    i: int,
)
    requires
        commands_of(event, current, at, id, fields) matches Ok(commands) && 0 <= i < commands.len(),
    ensures
        exists|field: Seq<char>, m: Meaning|
            #![trigger command_json(current, at, id, field, m)]
            {
                &&& fields.contains(field)
                &&& still_wins(event, current, field)
                &&& commands_of(event, current, at, id, fields)->Ok_0[i] == command_json(
                    current,
                    at,
                    id,
                    field,
                    m,
                )
            },
    decreases fields.len(),
{
    let front = fields.drop_last();
    let so_far = commands_of(event, current, at, id, front)->Ok_0;
    if i < so_far.len() {
        fields_make_commands(event, current, at, id, front, i);
        let (field, m) = choose|field: Seq<char>, m: Meaning|
            #![trigger command_json(current, at, id, field, m)]
            {
                &&& front.contains(field)
                &&& still_wins(event, current, field)
                &&& so_far[i] == command_json(current, at, id, field, m)
            };
        let j = choose|j: int| 0 <= j < front.len() && front[j] == field;
        assert(fields[j] == field);
        assert(fields.contains(field));
    } else {
        assert(fields.contains(fields.last()));
    }
}

} // verus!
