//! What an edit of a row records.

use crate::json;
use crate::json::{Json, Object, Value};
use crate::stamp;
use crate::stamp::{Moment, Stamp};
use crate::text;
use crate::wire;
use vstd::prelude::*;

verus! {

/// The most bytes that the id of an event may have.
pub const EVENT_ID_BYTES: usize = 128;

/// Whether `id` can name an event.
pub open spec fn names_event(id: Seq<char>) -> bool {
    1 <= vstd::utf8::encode_utf8(id).len() <= EVENT_ID_BYTES
}

/// A field before and after an edit.
pub open spec fn change(before: Json, after: Json) -> Json {
    Json::Object(map!["before"@ => before, "after"@ => after])
}

/// Whether an edit at a moment changed a field: it is stamped with the moment, and is another than before.
pub open spec fn changed(before: Json, after: Json, at: Moment, field: Seq<char>) -> bool {
    wire::written(after.at(field)) == at && !json::same(before.at(field), after.at(field))
}

/// Adds a field to changes, if the edit changed it.
pub open spec fn noted(
    changes: Map<Seq<char>, Json>,
    before: Json,
    after: Json,
    at: Moment,
    field: Seq<char>,
) -> Map<Seq<char>, Json> {
    if changed(before, after, at, field) {
        changes.insert(field, change(before.at(field), after.at(field)))
    } else {
        changes
    }
}

/// What an edit at a moment changed, of the fields by which a user says something.
pub open spec fn changes_of(before: Json, after: Json, at: Moment) -> Map<Seq<char>, Json> {
    let none = Map::<Seq<char>, Json>::empty();
    if after.at("kind"@) == Json::Text("rec"@) {
        let status = noted(none, before, after, at, "status"@);
        let reaction = noted(status, before, after, at, "reaction"@);
        noted(reaction, before, after, at, "deleted"@)
    } else {
        noted(none, before, after, at, "progress"@)
    }
}

/// The first error in an edit.
pub open spec fn capture_fault(before: Json, after: Json, at: Moment, id: Seq<char>) -> Option<
    Seq<char>,
> {
    wire::or(
        wire::or(wire::fault(wire::identity(before)), wire::fault(wire::identity(after))),
        if wire::identity(before) != wire::identity(after) {
            Some("identity_mismatch"@)
        } else if after.at("schema"@) != Json::Int(2) {
            Some("unsupported_write_schema"@)
        } else if !at.safe() {
            Some("unsafe_stamp"@)
        } else if !names_event(id) {
            Some("invalid_event_id"@)
        } else {
            wire::or(
                wire::or(wire::fault(wire::newest_of(before)), wire::fault(wire::newest_of(after))),
                if after.at("kind"@) == Json::Text("rec"@) || after.at("kind"@) == Json::Text("ep"@) {
                    None
                } else {
                    Some("invalid_action_target"@)
                },
            )
        },
    )
}

/// How an event is written.
pub open spec fn event_json(
    before: Json,
    after: Json,
    at: Moment,
    id: Seq<char>,
    changes: Map<Seq<char>, Json>,
) -> Json {
    Json::Object(
        map![
            "schema"@ => Json::Int(1),
            "id"@ => Json::Text(id),
            "at"@ => stamp::stamp_json(at),
            "before"@ => before,
            "after"@ => after,
            "changes"@ => Json::Object(changes),
        ],
    )
}

/// The event that an edit records, or `Null` where the edit changed nothing that a user says.
pub open spec fn captured(before: Json, after: Json, at: Moment, id: Seq<char>) -> Result<
    Json,
    Seq<char>,
> {
    match capture_fault(before, after, at, id) {
        Some(e) => Err(e),
        None => {
            let changes = changes_of(before, after, at);
            if changes == Map::<Seq<char>, Json>::empty() {
                Ok(Json::Null)
            } else {
                Ok(event_json(before, after, at, id, changes))
            }
        },
    }
}

/// Adds a field to changes, if the edit changed it.
fn note(changes: &mut Object, before: &Value, after: &Value, at: &Stamp, field: &str)
    requires
        stamp::read(after@.at(field@).at("at"@)) is Ok,
    ensures
        final(changes)@ == noted(old(changes)@, before@, after@, at@, field@),
{
    let b: &Value = before.at(field);
    let a: &Value = after.at(field);
    if let Ok(t) = stamp::stamp(a.at("at")) {
        if t.is(at) && !b.same(a) {
            let mut both: Object = Object::new();
            both.insert("before".to_owned(), b.duplicate());
            both.insert("after".to_owned(), a.duplicate());
            changes.insert(field.to_owned(), Value::Object(both));
        }
    }
}

/// The event that an edit records. The caller supplies the id and the time. Only an edit by the user may
/// be captured; an import never is.
pub fn capture(before: &Value, after: &Value, at: &Stamp, id: &str) -> (r: Result<Value, String>)
    ensures
        stamp::told(r) == captured(before@, after@, at@, id@),
{
    let nb: String = match wire::name(before) {
        Ok(n) => n,
        Err(e) => return Err(e),
    };
    let na: String = match wire::name(after) {
        Ok(n) => n,
        Err(e) => return Err(e),
    };
    if !text::same(nb.as_str(), na.as_str()) {
        return Err("identity_mismatch".to_owned());
    }
    match wire::integer(after.at("schema")) {
        Ok(schema) => if schema != 2 {
            return Err("unsupported_write_schema".to_owned());
        },
        Err(e) => return Err(e),
    }
    if at.validate().is_err() {
        return Err("unsafe_stamp".to_owned());
    }
    let bytes: usize = id.as_bytes().len();
    if bytes == 0 || bytes > EVENT_ID_BYTES {
        return Err("invalid_event_id".to_owned());
    }
    if let Err(e) = wire::newest(before) {
        return Err(e);
    }
    if let Err(e) = wire::newest(after) {
        return Err(e);
    }
    proof {
        wire::kinds_agree(before@, after@);
    }
    let mut changes: Object = Object::new();
    if after.at("kind").is_text("rec") {
        proof {
            wire::latest_reads_all(wire::record_stamps(after@));
            assert(wire::record_stamps(after@)[0] == after@.at("status"@).at("at"@));
            assert(wire::record_stamps(after@)[2] == after@.at("reaction"@).at("at"@));
            assert(wire::record_stamps(after@)[3] == after@.at("deleted"@).at("at"@));
        }
        note(&mut changes, before, after, at, "status");
        note(&mut changes, before, after, at, "reaction");
        note(&mut changes, before, after, at, "deleted");
    } else if after.at("kind").is_text("ep") {
        proof {
            wire::latest_reads_all(seq![after@.at("progress"@).at("at"@)]);
            assert(seq![after@.at("progress"@).at("at"@)][0] == after@.at("progress"@).at("at"@));
        }
        note(&mut changes, before, after, at, "progress");
    } else {
        return Err("invalid_action_target".to_owned());
    }
    assert(changes@ == changes_of(before@, after@, at@));
    if changes.len() == 0 {
        proof {
            assert forall|k: Seq<char>| !changes@.contains_key(k) by {
                assert(json::sorted_keys(changes@).contains(k) <==> changes@.contains_key(k));
            }
            assert(changes@ =~= Map::<Seq<char>, Json>::empty());
        }
        return Ok(Value::Null);
    }
    assert(changes@ != Map::<Seq<char>, Json>::empty()) by {
        let first = json::sorted_keys(changes@)[0];
        assert(json::sorted_keys(changes@).contains(first));
        assert(changes@.contains_key(first));
    }
    let mut event: Object = Object::new();
    event.insert("schema".to_owned(), Value::from_u64(1));
    event.insert("id".to_owned(), Value::from_str(id));
    event.insert("at".to_owned(), at.to_value());
    event.insert("before".to_owned(), before.duplicate());
    event.insert("after".to_owned(), after.duplicate());
    event.insert("changes".to_owned(), Value::Object(changes));
    Ok(Value::Object(event))
}

/// Whether a field of a kind of row is one by which a user says something.
pub open spec fn spoken(kind: Json, field: Seq<char>) -> bool {
    if kind == Json::Text("rec"@) {
        field == "status"@ || field == "reaction"@ || field == "deleted"@
    } else {
        field == "progress"@
    }
}

/// An event records what the user said and nothing else: exactly those of the fields by which a user says
/// something that the edit stamped and changed. An edit that changed none of them records nothing.
pub proof fn captures_are_explicit(before: Json, after: Json, at: Moment, id: Seq<char>)
    requires
        captured(before, after, at, id) is Ok,
    ensures
        ({
            let event = captured(before, after, at, id)->Ok_0;
            let kind = after.at("kind"@);
            &&& event == Json::Null <==> forall|field: Seq<char>| #[trigger]
                spoken(kind, field) ==> !changed(before, after, at, field)
            &&& event != Json::Null ==> (event.at("changes"@) matches Json::Object(changes)
                && forall|field: Seq<char>| #[trigger]
                changes.contains_key(field) <==> spoken(kind, field) && changed(
                    before,
                    after,
                    at,
                    field,
                ))
            &&& forall|field: Seq<char>|
                #![trigger event.at("changes"@).at(field)]
                event != Json::Null && spoken(kind, field) && changed(before, after, at, field)
                    ==> event.at("changes"@).at(field) == change(before.at(field), after.at(field))
        }),
{
    wire::field_names_differ();
    let kind = after.at("kind"@);
    let changes = changes_of(before, after, at);
    assert forall|field: Seq<char>| #[trigger] changes.contains_key(field) <==> spoken(kind, field)
        && changed(before, after, at, field) by {}
    if changes == Map::<Seq<char>, Json>::empty() {
        assert forall|field: Seq<char>| #[trigger] spoken(kind, field) implies !changed(
            before,
            after,
            at,
            field,
        ) by {
            assert(!changes.contains_key(field));
        }
    } else {
        if forall|field: Seq<char>| #[trigger] spoken(kind, field) ==> !changed(before, after, at, field) {
            assert(changes =~= Map::<Seq<char>, Json>::empty());
        }
    }
}

} // verus!
