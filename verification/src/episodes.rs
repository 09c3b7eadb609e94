//! What one episode row means for the watch state that a client already holds.
//!
//! Clients fold rows into local state on every pull, and they must agree on what a row means, above all on
//! the zero stamp: a watched bit learned without a time is written with it, so that any real edit beats it.
//!
//! The answer is an action rather than a mark, because clients store watch state differently. An action
//! that each can apply to its own store keeps the rule shared without the storage coming with it:
//!
//! - `clear`: the episode was un-watched; hold nothing for it.
//! - `keep`: what is already held still wins; change nothing.
//! - `flag`: watched, with no time known. Worth recording as watched, but it must never displace or restamp
//!   real progress, and it must not be treated as a resume position.
//! - `replace`: take the row's `fraction`, `at`, and `seconds` when present.

use crate::double;
use crate::double::Double;
use crate::json;
use crate::json::{Json, Object, Value};
use crate::reading;
use crate::stamp;
use crate::stamp::Stamp;
use crate::wire;
use vstd::prelude::*;

verus! {

/// How far an episode row says it was watched: a fraction of it.
pub open spec fn fraction_of(row: Json) -> Result<Double, Seq<char>> {
    match row.at("progress"@).at("value"@).double() {
        Some(d) => if d.ordered() && 0 <= d.rank() <= (Double { bits: double::ONE }).rank() {
            Ok(d)
        } else {
            Err("invalid_progress"@)
        },
        None => Err("invalid_progress"@),
    }
}

/// Whether a fraction counts as watched.
pub open spec fn is_watched(fraction: Double) -> bool {
    fraction.rank() >= (Double { bits: double::WATCHED }).rank()
}

/// The first error in an episode row.
pub open spec fn mark_fault(row: Json) -> Option<Seq<char>> {
    wire::or(
        wire::fault(wire::identity(row)),
        if row.at("kind"@) != Json::Text("ep"@) {
            Some("invalid_kind"@)
        } else {
            wire::or(
                wire::fault(stamp::read(row.at("progress"@).at("at"@))),
                wire::fault(fraction_of(row)),
            )
        },
    )
}

/// Whether the mark that a client holds is not before a time. A mark without a time of its own is before
/// any, and loses to anything.
pub open spec fn holds_since(mark: Json, time: int) -> bool {
    mark.at("at"@).signed() matches Some(t) && t >= time
}

/// An action that needs nothing more.
pub open spec fn bare(action: Seq<char>) -> Json {
    Json::Object(map!["action"@ => Json::Text(action)])
}

/// The action that takes the row's progress.
pub open spec fn replacement(fraction: Double, time: int, seconds: Option<Double>) -> Json {
    let taken = map![
        "action"@ => Json::Text("replace"@),
        "fraction"@ => json::float(fraction),
        "at"@ => Json::Int(time),
    ];
    match seconds {
        Some(s) => Json::Object(taken.insert("seconds"@, json::float(s))),
        None => Json::Object(taken),
    }
}

/// What an episode row means to a client that holds `mark`.
///
/// A fraction of zero is an un-watch, and clears what is held whatever its stamp. A bit without a time adds
/// nothing to what is held. Otherwise a row must be newer than what is held, or be the record itself.
pub open spec fn marked(row: Json, mark: Json, authoritative: bool) -> Result<Json, Seq<char>> {
    match mark_fault(row) {
        Some(e) => Err(e),
        None => {
            let fraction = fraction_of(row)->Ok_0;
            let time = wire::written(row.at("progress"@)).time;
            let held = mark is Object;
            if fraction.rank() == 0 {
                Ok(bare("clear"@))
            } else if time == 0 {
                if !is_watched(fraction) {
                    Err("invalid_progress"@)
                } else if held {
                    Ok(bare("keep"@))
                } else {
                    Ok(bare("flag"@))
                }
            } else if !authoritative && held && holds_since(mark, time) {
                Ok(bare("keep"@))
            } else {
                Ok(replacement(fraction, time, row.at("progress"@).at("seconds"@).double()))
            }
        },
    }
}

/// Writes an action that needs nothing more.
fn bare_action(action: &str) -> (v: Value)
    ensures
        v@ == bare(action@),
{
    let mut out: Object = Object::new();
    out.insert("action".to_owned(), Value::from_str(action));
    Value::Object(out)
}

/// How far an episode row says it was watched.
fn fraction(row: &Value) -> (r: Result<Double, String>)
    ensures
        match r {
            Ok(d) => fraction_of(row@) == Ok::<Double, Seq<char>>(d),
            Err(e) => fraction_of(row@) == Err::<Double, Seq<char>>(e@),
        },
{
    let zero: Double = Double { bits: 0 };
    let one: Double = Double { bits: double::ONE };
    match row.at("progress").at("value").as_double() {
        Some(d) => if (d.is_zero() || zero.less_than(d)) && (d == one || d.less_than(one)) {
            Ok(d)
        } else {
            Err("invalid_progress".to_owned())
        },
        None => Err("invalid_progress".to_owned()),
    }
}

/// What an episode row means to a client.
///
/// `mark` is what the client holds now, `{"fraction", "at"}`, or null when it holds nothing.
///
/// `authoritative` marks a row read back from the log's own canonical store rather than reconstructed from
/// local state: it is the record, not a claim about it, so it wins on stamp order. It does not override the
/// zero stamp, which says only that the time is unknown.
pub fn episode_mark(row: &Value, mark: &Value, authoritative: bool) -> (r: Result<Value, String>)
    ensures
        stamp::told(r) == marked(row@, mark@, authoritative),
{
    if let Err(e) = wire::name(row) {
        return Err(e);
    }
    if !row.at("kind").is_text("ep") {
        return Err("invalid_kind".to_owned());
    }
    let at: Stamp = match stamp::stamp(row.at("progress").at("at")) {
        Ok(at) => at,
        Err(e) => return Err(e),
    };
    let value: Double = match fraction(row) {
        Ok(d) => d,
        Err(e) => return Err(e),
    };
    if value.is_zero() {
        return Ok(bare_action("clear"));
    }
    let held: bool = mark.as_object().is_some();
    if at.0 == 0 {
        if value.less_than(Double { bits: double::WATCHED }) {
            return Err("invalid_progress".to_owned());
        }
        // A mark below the threshold is real progress with a real time behind it. A bit without a time must
        // neither overwrite it nor declare it watched.
        return if held {
            Ok(bare_action("keep"))
        } else {
            Ok(bare_action("flag"))
        };
    }
    // A row has to be strictly newer to displace what is held, or two writes in the same millisecond would
    // flip the answer on whichever happened to be asked last.
    if !authoritative && held {
        if let Some(since) = mark.at("at").as_i64() {
            if since >= at.0 {
                return Ok(bare_action("keep"));
            }
        }
    }
    let mut out: Object = Object::new();
    out.insert("action".to_owned(), Value::from_str("replace"));
    out.insert("fraction".to_owned(), Value::from_double(value));
    out.insert("at".to_owned(), Value::from_i64(at.0));
    if let Some(seconds) = row.at("progress").at("seconds").as_double() {
        out.insert("seconds".to_owned(), Value::from_double(seconds));
    }
    Ok(Value::Object(out))
}

// ---------------------------------------------------------------------------------------------------
// Laws.

/// A bit without a time never displaces, restamps or clears what a client holds, not even in a row that is
/// the record itself.
pub proof fn timeless_bits_displace_nothing(row: Json, mark: Json, authoritative: bool)
    requires
        marked(row, mark, authoritative) is Ok,
        wire::written(row.at("progress"@)).time == 0,
        fraction_of(row)->Ok_0.rank() != 0,
    ensures
        mark is Object ==> marked(row, mark, authoritative) == Ok::<Json, Seq<char>>(bare("keep"@)),
        !(mark is Object) ==> marked(row, mark, authoritative) == Ok::<Json, Seq<char>>(
            bare("flag"@),
        ),
{
}

/// An un-watch clears, whatever is held, whenever it was written, and whoever says so.
pub proof fn an_unwatch_always_clears(row: Json, mark: Json, authoritative: bool)
    requires
        mark_fault(row) is None,
        fraction_of(row)->Ok_0.magnitude() == 0,
    ensures
        marked(row, mark, authoritative) == Ok::<Json, Seq<char>>(bare("clear"@)),
{
}

/// A row that only claims the time of what is held does not displace it, and folding a row in again
/// changes nothing: what `replace` takes is kept against the same row.
pub proof fn ties_go_to_what_is_held(row: Json, mark: Json)
    requires
        mark_fault(row) is None,
        fraction_of(row)->Ok_0.rank() != 0,
        wire::written(row.at("progress"@)).time != 0,
        mark is Object,
        mark.at("at"@) == Json::Int(wire::written(row.at("progress"@)).time),
    ensures
        marked(row, mark, false) == Ok::<Json, Seq<char>>(bare("keep"@)),
{
}

/// A mark that has no time of its own loses to any row that has one, a historical time included.
pub proof fn a_mark_without_a_time_loses(row: Json, mark: Json, authoritative: bool)
    requires
        mark_fault(row) is None,
        fraction_of(row)->Ok_0.rank() != 0,
        wire::written(row.at("progress"@)).time != 0,
        mark.at("at"@).signed() is None,
    ensures
        marked(row, mark, authoritative) == Ok::<Json, Seq<char>>(
            replacement(
                fraction_of(row)->Ok_0,
                wire::written(row.at("progress"@)).time,
                row.at("progress"@).at("seconds"@).double(),
            ),
        ),
{
}

/// The record itself, where it knows a time, replaces whatever is held.
pub proof fn the_record_wins(row: Json, mark: Json)
    requires
        mark_fault(row) is None,
        fraction_of(row)->Ok_0.rank() != 0,
        wire::written(row.at("progress"@)).time != 0,
    ensures
        marked(row, mark, true) == Ok::<Json, Seq<char>>(
            replacement(
                fraction_of(row)->Ok_0,
                wire::written(row.at("progress"@)).time,
                row.at("progress"@).at("seconds"@).double(),
            ),
        ),
{
}

/// Whether a value is a fraction: nothing, all, or a double from zero, of either sign, to one.
pub open spec fn is_part(v: Json) -> bool {
    ||| v == Json::Int(0)
    ||| v == Json::Int(1)
    ||| v is Float && (v->Float_0.bits <= 0x3ff0_0000_0000_0000 || v->Float_0.bits
        == 0x8000_0000_0000_0000)
}

/// Whether a value is zero.
pub open spec fn is_nothing(v: Json) -> bool {
    ||| v == Json::Int(0)
    ||| v is Float && (v->Float_0.bits == 0 || v->Float_0.bits == 0x8000_0000_0000_0000)
}

/// Whether a fraction is one at which an episode counts as watched: 95 in 100 or more.
pub open spec fn is_enough(v: Json) -> bool {
    ||| v == Json::Int(1)
    ||| v is Float && 0x3fee_6666_6666_6666 <= v->Float_0.bits <= 0x3ff0_0000_0000_0000
}

/// A fraction is read from zero to one and from nothing else, as the double that it is; it is nothing, and
/// counts as watched, as its bits say.
pub proof fn fractions_are_read(row: Json)
    requires
        row.at("progress"@).at("value"@) is Int ==> i64::MIN <= row.at("progress"@).at(
            "value"@,
        )->Int_0 <= u64::MAX,
    ensures
        ({
            let v = row.at("progress"@).at("value"@);
            &&& fraction_of(row) is Ok <==> is_part(v)
            &&& !is_part(v) ==> fraction_of(row) == Err::<Double, Seq<char>>("invalid_progress"@)
            &&& fraction_of(row) matches Ok(d) ==> {
                &&& v is Float ==> d == v->Float_0
                &&& v == Json::Int(0) ==> d.bits == 0
                &&& v == Json::Int(1) ==> d.bits == 0x3ff0_0000_0000_0000
                &&& d.rank() == 0 <==> is_nothing(v)
                &&& is_watched(d) <==> is_enough(v)
                &&& d.finite()
            }
        }),
{
    let v = row.at("progress"@).at("value"@);
    if v is Int {
        double::whole_numbers_among_fractions(v->Int_0);
        double::doubles_are_their_bits(double::double_of(v->Int_0));
    } else if v is Float {
        double::doubles_are_their_bits(v->Float_0);
    }
    double::doubles_are_their_bits(Double { bits: double::ONE });
    double::doubles_are_their_bits(Double { bits: double::WATCHED });
}

/// When a row means something: it is named as an episode, its progress has a stamp and a fraction, and if no
/// time is known the fraction is nothing or counts as watched. Otherwise the first part that is wrong is
/// told, in that order.
pub proof fn when_a_row_means_something(row: Json, mark: Json, authoritative: bool)
    requires
        row.at("progress"@).at("value"@) is Int ==> i64::MIN <= row.at("progress"@).at(
            "value"@,
        )->Int_0 <= u64::MAX,
    ensures
        ({
            let at = row.at("progress"@).at("at"@);
            let value = row.at("progress"@).at("value"@);
            let r = marked(row, mark, authoritative);
            &&& r is Ok <==> reading::names_episode(row) && reading::is_stamp(at) && is_part(value)
                && (at->List_0[0] == Json::Int(0) ==> is_nothing(value) || is_enough(value))
            &&& wire::identity(row) is Err ==> r == Err::<Json, Seq<char>>(
                wire::identity(row)->Err_0,
            )
            &&& wire::identity(row) is Ok && !reading::names_episode(row) ==> r == Err::<
                Json,
                Seq<char>,
            >("invalid_kind"@)
            &&& reading::names_episode(row) && !reading::is_stamp(at) ==> r == Err::<
                Json,
                Seq<char>,
            >(stamp::read(at)->Err_0)
            &&& reading::names_episode(row) && reading::is_stamp(at) && r is Err ==> r == Err::<
                Json,
                Seq<char>,
            >("invalid_progress"@)
        }),
{
    reading::rows_with_names(row);
    reading::stamps_are_read(row.at("progress"@).at("at"@));
    fractions_are_read(row);
    kinds_of_row();
}

/// The kinds of row are told apart.
proof fn kinds_of_row()
    ensures
        "rec"@ != "ep"@,
        "rec"@ != "set"@,
        "ep"@ != "set"@,
{
    reveal_strlit("rec");
    reveal_strlit("ep");
    reveal_strlit("set");
    assert("rec"@.len() == 3 && "ep"@.len() == 2 && "set"@.len() == 3);
    assert("rec"@[0] == 'r' && "set"@[0] == 's');
}

/// The actions are told apart.
proof fn actions_differ()
    ensures
        "clear"@ != "keep"@,
        "clear"@ != "flag"@,
        "clear"@ != "replace"@,
        "keep"@ != "flag"@,
        "keep"@ != "replace"@,
        "flag"@ != "replace"@,
        "action"@ != "fraction"@,
        "action"@ != "at"@,
        "action"@ != "seconds"@,
        "fraction"@ != "at"@,
        "fraction"@ != "seconds"@,
        "at"@ != "seconds"@,
{
    reveal_strlit("clear");
    reveal_strlit("keep");
    reveal_strlit("flag");
    reveal_strlit("replace");
    reveal_strlit("action");
    reveal_strlit("fraction");
    reveal_strlit("at");
    reveal_strlit("seconds");
    assert("clear"@.len() == 5 && "keep"@.len() == 4 && "flag"@.len() == 4 && "replace"@.len() == 7);
    assert("keep"@[0] == 'k' && "flag"@[0] == 'f');
    assert("action"@.len() == 6 && "fraction"@.len() == 8 && "at"@.len() == 2 && "seconds"@.len() == 7);
}

/// Which action a row means. Zero clears whatever is held. Without a time the row flags an episode of which
/// nothing is held and keeps any other. With a time `time`, what is held is kept exactly when the row is not
/// the record and the mark has a time from `time` on; against a mark of an earlier time, of none, or none at
/// all, the row replaces it.
pub proof fn what_a_row_means(row: Json, mark: Json, authoritative: bool)
    requires
        marked(row, mark, authoritative) is Ok,
        row.at("progress"@).at("value"@) is Int ==> i64::MIN <= row.at("progress"@).at(
            "value"@,
        )->Int_0 <= u64::MAX,
    ensures
        ({
            let value = row.at("progress"@).at("value"@);
            let time = row.at("progress"@).at("at"@)->List_0[0]->Int_0;
            let action = marked(row, mark, authoritative)->Ok_0.at("action"@);
            let since = mark.at("at"@);
            &&& action == Json::Text("clear"@) <==> is_nothing(value)
            &&& action == Json::Text("flag"@) <==> !is_nothing(value) && time == 0 && !(
            mark is Object)
            &&& action == Json::Text("keep"@) <==> !is_nothing(value) && mark is Object && (time == 0
                || !authoritative && since is Int && time <= since->Int_0 <= i64::MAX)
            &&& action == Json::Text("replace"@) <==> !is_nothing(value) && time != 0 && (
            authoritative || !(mark is Object) || !(since is Int) || since->Int_0 < time
                || since->Int_0 > i64::MAX)
        }),
{
    reading::stamps_are_read(row.at("progress"@).at("at"@));
    fractions_are_read(row);
    actions_differ();
}

/// What an action carries. One that replaces has the row's fraction and time, and the seconds that the row
/// has; the others have nothing besides.
pub proof fn what_an_action_carries(row: Json, mark: Json, authoritative: bool)
    requires
        marked(row, mark, authoritative) is Ok,
        row.at("progress"@).at("value"@) is Int ==> i64::MIN <= row.at("progress"@).at(
            "value"@,
        )->Int_0 <= u64::MAX,
        row.at("progress"@).at("seconds"@) is Int ==> i64::MIN <= row.at("progress"@).at(
            "seconds"@,
        )->Int_0 <= u64::MAX,
        row.at("progress"@).at("seconds"@) is Float ==> row.at("progress"@).at(
            "seconds"@,
        )->Float_0.finite(),
    ensures
        ({
            let value = row.at("progress"@).at("value"@);
            let seconds = row.at("progress"@).at("seconds"@);
            let out = marked(row, mark, authoritative)->Ok_0;
            &&& out is Object
            &&& out.at("action"@) != Json::Text("replace"@) ==> out->Object_0.dom()
                == set!["action"@]
            &&& out.at("action"@) == Json::Text("replace"@) ==> {
                &&& out->Object_0.dom() == if seconds is Int || seconds is Float {
                    set!["action"@, "fraction"@, "at"@, "seconds"@]
                } else {
                    set!["action"@, "fraction"@, "at"@]
                }
                &&& out.at("fraction"@) == if value is Float {
                    value
                } else {
                    Json::Float(Double { bits: 0x3ff0_0000_0000_0000 })
                }
                &&& out.at("at"@) == row.at("progress"@).at("at"@)->List_0[0]
                &&& seconds is Float ==> out.at("seconds"@) == seconds
                &&& seconds is Int ==> out.at("seconds"@) is Float && double::holds(
                    out.at("seconds"@)->Float_0,
                    seconds->Int_0,
                )
            }
        }),
{
    reading::stamps_are_read(row.at("progress"@).at("at"@));
    fractions_are_read(row);
    actions_differ();
    let value = row.at("progress"@).at("value"@);
    let seconds = row.at("progress"@).at("seconds"@);
    let out = marked(row, mark, authoritative)->Ok_0;
    if seconds is Int {
        double::integers_have_doubles(seconds->Int_0);
    }
    assert(out->Object_0.dom() =~= if out.at("action"@) != Json::Text("replace"@) {
        set!["action"@]
    } else if seconds is Int || seconds is Float {
        set!["action"@, "fraction"@, "at"@, "seconds"@]
    } else {
        set!["action"@, "fraction"@, "at"@]
    });
}

/// Two marks of one time are answered alike, and a later one is kept wherever an earlier one is: what is held
/// only gains by being newer.
pub proof fn newer_marks_are_kept(row: Json, earlier: Json, later: Json, s: int, t: int)
    requires
        marked(row, earlier, false) is Ok,
        earlier is Object,
        later is Object,
        earlier.at("at"@) == Json::Int(s),
        later.at("at"@) == Json::Int(t),
        s <= t <= i64::MAX,
    ensures
        marked(row, earlier, false)->Ok_0.at("action"@) == Json::Text("keep"@) ==> marked(
            row,
            later,
            false,
        ) == marked(row, earlier, false),
        s == t ==> marked(row, later, false) == marked(row, earlier, false),
        marked(row, later, false)->Ok_0.at("action"@) == Json::Text("replace"@) && i64::MIN <= s
            ==> marked(row, earlier, false) == marked(row, later, false),
{
    actions_differ();
}

} // verus!
