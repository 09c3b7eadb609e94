//! Rows of the library log, version 2: what identifies one, and how two of one identity merge.

use crate::double;
use crate::double::Double;
use crate::json;
use crate::json::{Json, Object, Value};
use crate::stamp;
use crate::stamp::{Moment, Stamp, MAX_SAFE_INTEGER};
use crate::text;
use vstd::prelude::*;
use vstd::string::StringExecFns;

verus! {

// ---------------------------------------------------------------------------------------------------
// Reading a row.

/// The error of an answer, if it is one.
pub open spec fn fault<T>(r: Result<T, Seq<char>>) -> Option<Seq<char>> {
    match r {
        Ok(_) => None,
        Err(e) => Some(e),
    }
}

/// The first of two errors, if there is one.
pub open spec fn or(a: Option<Seq<char>>, b: Option<Seq<char>>) -> Option<Seq<char>> {
    if a is Some {
        a
    } else {
        b
    }
}

/// A whole number without a sign that every client can hold.
pub open spec fn integer_of(v: Json) -> Result<u64, Seq<char>> {
    match v.unsigned() {
        Some(n) => if n <= MAX_SAFE_INTEGER {
            Ok(n)
        } else {
            Err("invalid_integer"@)
        },
        None => Err("invalid_integer"@),
    }
}

/// A time that every client can hold.
pub open spec fn time_of(v: Json) -> Result<i64, Seq<char>> {
    match v.signed() {
        Some(n) => if -MAX_SAFE_INTEGER <= n <= MAX_SAFE_INTEGER {
            Ok(n)
        } else {
            Err("invalid_time"@)
        },
        None => Err("invalid_time"@),
    }
}

/// A finite number.
pub open spec fn number_of(v: Json) -> Result<Double, Seq<char>> {
    match v.double() {
        Some(d) => if d.finite() {
            Ok(d)
        } else {
            Err("invalid_progress"@)
        },
        None => Err("invalid_progress"@),
    }
}

/// What identifies a title: whether it is a movie or a series, and its id, which is not zero.
pub open spec fn title_of(row: Json) -> Result<(Seq<char>, u64), Seq<char>> {
    match row.at("title"@).at("type"@) {
        Json::Text(media) => if media == "movie"@ || media == "tv"@ {
            match integer_of(row.at("title"@).at("id"@)) {
                Ok(id) => if id == 0 {
                    Err("invalid_title"@)
                } else {
                    Ok((media, id))
                },
                Err(e) => Err(e),
            }
        } else {
            Err("invalid_title"@)
        },
        _ => Err("invalid_title"@),
    }
}

/// What identifies a row. A setting goes by its name, a record by its title, an episode by its series,
/// season and number.
pub open spec fn identity(row: Json) -> Result<Seq<char>, Seq<char>> {
    if !(row is Object) {
        Err("invalid_row"@)
    } else if integer_of(row.at("schema"@)) is Err {
        Err("invalid_integer"@)
    } else {
        match row.at("kind"@) {
            Json::Text(kind) => if kind == "set"@ {
                match row.at("name"@) {
                    Json::Text(n) => Ok("set:"@ + n),
                    _ => Err("invalid_name"@),
                }
            } else {
                match title_of(row) {
                    Err(e) => Err(e),
                    Ok((media, id)) => if kind == "rec"@ {
                        Ok("rec:"@ + media + ":"@ + text::decimal(id as nat))
                    } else if kind == "ep"@ && media == "tv"@ {
                        match (integer_of(row.at("season"@)), integer_of(row.at("episode"@))) {
                            (Ok(season), Ok(episode)) => Ok(
                                "ep:"@ + media + ":"@ + text::decimal(id as nat) + ":"@
                                    + text::decimal(season as nat) + ":"@ + text::decimal(
                                    episode as nat,
                                ),
                            ),
                            _ => Err("invalid_integer"@),
                        }
                    } else {
                        Err("invalid_kind"@)
                    },
                }
            },
            _ => Err("invalid_kind"@),
        }
    }
}

/// The latest of the moments that values write, none before the zero stamp, or the first error in them.
pub open spec fn latest_of(stamps: Seq<Json>) -> Result<Moment, Seq<char>>
    decreases stamps.len(),
{
    if stamps.len() == 0 {
        Ok(stamp::zero())
    } else {
        match latest_of(stamps.drop_last()) {
            Err(e) => Err(e),
            Ok(m) => match stamp::read(stamps.last()) {
                Err(e) => Err(e),
                Ok(n) => Ok(stamp::latest(m, n)),
            },
        }
    }
}

/// The stamps of a record.
pub open spec fn record_stamps(row: Json) -> Seq<Json> {
    let fields = seq![
        row.at("status"@).at("at"@),
        row.at("resume"@).at("at"@),
        row.at("reaction"@).at("at"@),
        row.at("deleted"@).at("at"@),
        row.at("dismissed"@).at("at"@),
    ];
    if row.at("episodesReset"@) == Json::Null {
        fields
    } else {
        fields.push(row.at("episodesReset"@))
    }
}

/// The stamps of a setting's values, in the order of their names.
pub open spec fn setting_stamps(values: Map<Seq<char>, Json>) -> Seq<Json> {
    let keys = json::sorted_keys(values);
    Seq::new(keys.len(), |i: int| values[keys[i]].at("at"@))
}

/// When a row was last written.
pub open spec fn newest_of(row: Json) -> Result<Moment, Seq<char>> {
    let kind = row.at("kind"@);
    if kind == Json::Text("rec"@) {
        latest_of(record_stamps(row))
    } else if kind == Json::Text("ep"@) {
        latest_of(seq![row.at("progress"@).at("at"@)])
    } else if kind == Json::Text("set"@) {
        match row.at("values"@) {
            Json::Object(values) => latest_of(setting_stamps(values)),
            _ => Err("invalid_row"@),
        }
    } else {
        Err("invalid_kind"@)
    }
}

/// A whole number without a sign that every client can hold.
pub(crate) fn integer(value: &Value) -> (r: Result<u64, String>)
    ensures
        stamp::told(r) == integer_of(value@),
{
    match value.as_u64() {
        Some(n) => if n <= MAX_SAFE_INTEGER {
            Ok(n)
        } else {
            Err("invalid_integer".to_owned())
        },
        None => Err("invalid_integer".to_owned()),
    }
}

/// A time that every client can hold.
fn time(value: &Value) -> (r: Result<i64, String>)
    ensures
        stamp::told(r) == time_of(value@),
{
    match value.as_i64() {
        Some(n) => if n >= -(MAX_SAFE_INTEGER as i64) && n <= MAX_SAFE_INTEGER as i64 {
            Ok(n)
        } else {
            Err("invalid_time".to_owned())
        },
        None => Err("invalid_time".to_owned()),
    }
}

/// A finite number.
fn number(value: &Value) -> (r: Result<Double, String>)
    ensures
        match r {
            Ok(d) => number_of(value@) == Ok::<Double, Seq<char>>(d),
            Err(e) => number_of(value@) == Err::<Double, Seq<char>>(e@),
        },
{
    match value.as_double() {
        Some(d) => if d.is_finite() {
            Ok(d)
        } else {
            Err("invalid_progress".to_owned())
        },
        None => Err("invalid_progress".to_owned()),
    }
}

/// Appends `:` and a number.
fn append_number(t: &mut String, n: u64)
    ensures
        final(t)@ == old(t)@ + ":"@ + text::decimal(n as nat),
{
    t.append(":");
    let digits: String = text::decimal_of(n);
    t.append(digits.as_str());
}

/// What identifies a row.
pub fn name(row: &Value) -> (r: Result<String, String>)
    ensures
        stamp::told(r) == identity(row@),
{
    if row.as_object().is_none() {
        return Err("invalid_row".to_owned());
    }
    if integer(row.at("schema")).is_err() {
        return Err("invalid_integer".to_owned());
    }
    let kind: &str = match row.at("kind").as_str() {
        Some(kind) => kind,
        None => return Err("invalid_kind".to_owned()),
    };
    if text::same(kind, "set") {
        return match row.at("name").as_str() {
            Some(n) => {
                let mut t: String = "set:".to_owned();
                t.append(n);
                Ok(t)
            },
            None => Err("invalid_name".to_owned()),
        };
    }
    let media: &str = match row.at("title").at("type").as_str() {
        Some(media) => media,
        None => return Err("invalid_title".to_owned()),
    };
    if !text::same(media, "movie") && !text::same(media, "tv") {
        return Err("invalid_title".to_owned());
    }
    let id: u64 = match integer(row.at("title").at("id")) {
        Ok(id) => id,
        Err(e) => return Err(e),
    };
    if id == 0 {
        return Err("invalid_title".to_owned());
    }
    if text::same(kind, "rec") {
        let mut t: String = "rec:".to_owned();
        t.append(media);
        append_number(&mut t, id);
        return Ok(t);
    }
    if text::same(kind, "ep") && text::same(media, "tv") {
        let season: u64 = match integer(row.at("season")) {
            Ok(season) => season,
            Err(e) => return Err(e),
        };
        let episode: u64 = match integer(row.at("episode")) {
            Ok(episode) => episode,
            Err(e) => return Err(e),
        };
        let mut t: String = "ep:".to_owned();
        t.append(media);
        append_number(&mut t, id);
        append_number(&mut t, season);
        append_number(&mut t, episode);
        return Ok(t);
    }
    Err("invalid_kind".to_owned())
}

/// Takes one more stamp into the latest.
fn take_latest(latest: Result<Stamp, String>, at: &Value) -> (r: Result<Stamp, String>)
    ensures
        forall|before: Seq<Json>| #[trigger]
            latest_of(before.push(at@)) == stamp::told(r) || latest_of(before) != stamp::told(latest),
{
    let ghost given = stamp::told(latest);
    assert forall|before: Seq<Json>| #[trigger] latest_of(before.push(at@)) == (match latest_of(
        before,
    ) {
        Err(e) => Err(e),
        Ok(m) => match stamp::read(at@) {
            Err(e) => Err(e),
            Ok(n) => Ok(stamp::latest(m, n)),
        },
    }) by {
        assert(before.push(at@).drop_last() =~= before);
    }
    match latest {
        Ok(s) => match stamp::stamp(at) {
            Ok(t) => Ok(s.later(t)),
            Err(e) => Err(e),
        },
        Err(e) => Err(e),
    }
}

/// When a row was last written.
pub(crate) fn newest(row: &Value) -> (r: Result<Stamp, String>)
    ensures
        stamp::told(r) == newest_of(row@),
{
    let zero: Result<Stamp, String> = Ok(Stamp::default());
    let ghost none: Seq<Json> = seq![];
    if row.at("kind").is_text("rec") {
        let s1: Result<Stamp, String> = take_latest(zero, row.at("status").at("at"));
        let s2: Result<Stamp, String> = take_latest(s1, row.at("resume").at("at"));
        let s3: Result<Stamp, String> = take_latest(s2, row.at("reaction").at("at"));
        let s4: Result<Stamp, String> = take_latest(s3, row.at("deleted").at("at"));
        let s5: Result<Stamp, String> = take_latest(s4, row.at("dismissed").at("at"));
        let ghost f1 = none.push(row@.at("status"@).at("at"@));
        let ghost f2 = f1.push(row@.at("resume"@).at("at"@));
        let ghost f3 = f2.push(row@.at("reaction"@).at("at"@));
        let ghost f4 = f3.push(row@.at("deleted"@).at("at"@));
        let ghost f5 = f4.push(row@.at("dismissed"@).at("at"@));
        assert(latest_of(none) == stamp::told(zero));
        assert(latest_of(f1) == stamp::told(s1));
        assert(latest_of(f2) == stamp::told(s2));
        assert(latest_of(f3) == stamp::told(s3));
        assert(latest_of(f4) == stamp::told(s4));
        assert(latest_of(f5) == stamp::told(s5));
        if row.at("episodesReset").is_null() {
            assert(record_stamps(row@) =~= f5);
            s5
        } else {
            assert(record_stamps(row@) =~= f5.push(row@.at("episodesReset"@)));
            take_latest(s5, row.at("episodesReset"))
        }
    } else if row.at("kind").is_text("ep") {
        assert(latest_of(none) == stamp::told(zero));
        assert(none.push(row@.at("progress"@).at("at"@)) =~= seq![row@.at("progress"@).at("at"@)]);
        take_latest(zero, row.at("progress").at("at"))
    } else if row.at("kind").is_text("set") {
        match row.at("values").as_object() {
            Some(values) => newest_value(values),
            None => Err("invalid_row".to_owned()),
        }
    } else {
        Err("invalid_kind".to_owned())
    }
}

/// When a setting was last written.
fn newest_value(values: &Object) -> (r: Result<Stamp, String>)
    ensures
        stamp::told(r) == latest_of(setting_stamps(values@)),
{
    let ghost stamps = setting_stamps(values@);
    let mut latest: Result<Stamp, String> = Ok(Stamp::default());
    let n: usize = values.len();
    assert(stamps.take(0) =~= seq![]);
    for i in 0..n
        invariant
            n == json::sorted_keys(values@).len(),
            stamps == setting_stamps(values@),
            stamp::told(latest) == latest_of(stamps.take(i as int)),
    {
        let value: &Value = values.value_at(i);
        assert(stamps.take(i + 1) =~= stamps.take(i as int).push(stamps[i as int]));
        latest = take_latest(latest, value.at("at"));
    }
    assert(stamps.take(n as int) =~= stamps);
    latest
}

// ---------------------------------------------------------------------------------------------------
// Merging.

/// Refuses what is not a field with a value.
pub open spec fn valued(field: Json) -> Option<Seq<char>> {
    match field {
        Json::Object(m) => if m.contains_key("value"@) {
            None
        } else {
            Some("invalid_value"@)
        },
        _ => Some("invalid_row"@),
    }
}

/// When a field was written, where it says so.
pub open spec fn written(field: Json) -> Moment {
    stamp::read(field.at("at"@))->Ok_0
}

/// The first error in two fields of which the later one wins.
pub open spec fn later_fault(a: Json, b: Json) -> Option<Seq<char>> {
    or(
        or(valued(a), valued(b)),
        or(fault(stamp::read(b.at("at"@))), fault(stamp::read(a.at("at"@)))),
    )
}

/// Of two fields the one written later, and the first of two written at one moment.
pub open spec fn later_of(a: Json, b: Json) -> Result<Json, Seq<char>> {
    match later_fault(a, b) {
        Some(e) => Err(e),
        None => Ok(
            if written(a).before(written(b)) {
                b
            } else {
                a
            },
        ),
    }
}

/// The seconds of a position, or minus one where they are unknown.
pub open spec fn seconds_of(position: Json) -> Result<Double, Seq<char>> {
    if position.at("seconds"@) == Json::Null {
        Ok(Double { bits: double::MINUS_ONE })
    } else {
        number_of(position.at("seconds"@))
    }
}

/// How far a position is: the viewing, how much of it, when that was written, and the seconds.
pub struct Place {
    pub viewing: int,
    pub value: int,
    pub at: Moment,
    pub seconds: int,
}

impl Place {
    /// Whether this is less far than `other`. A higher viewing counts first, so that starting over is
    /// not outvoted by what was watched before.
    pub open spec fn behind(self, other: Place) -> bool {
        ||| self.viewing < other.viewing
        ||| self.viewing == other.viewing && self.value < other.value
        ||| self.viewing == other.viewing && self.value == other.value && self.at.before(other.at)
        ||| self.viewing == other.viewing && self.value == other.value && self.at == other.at
            && self.seconds < other.seconds
    }
}

/// How far a position is, where it says so.
pub open spec fn place(position: Json) -> Place {
    Place {
        viewing: integer_of(position.at("viewing"@))->Ok_0 as int,
        value: number_of(position.at("value"@))->Ok_0.rank(),
        at: written(position),
        seconds: seconds_of(position)->Ok_0.rank(),
    }
}

/// The first error in two positions of which the further one wins.
pub open spec fn furthest_fault(a: Json, b: Json) -> Option<Seq<char>> {
    or(
        or(
            or(fault(number_of(a.at("value"@))), fault(number_of(b.at("value"@)))),
            or(fault(integer_of(a.at("viewing"@))), fault(integer_of(b.at("viewing"@)))),
        ),
        or(
            or(fault(stamp::read(a.at("at"@))), fault(stamp::read(b.at("at"@)))),
            or(fault(seconds_of(a)), fault(seconds_of(b))),
        ),
    )
}

/// Of two positions the further one, and the first of two that are equally far.
pub open spec fn furthest_of(a: Json, b: Json) -> Result<Json, Seq<char>> {
    match furthest_fault(a, b) {
        Some(e) => Err(e),
        None => Ok(
            if place(a).behind(place(b)) {
                b
            } else {
                a
            },
        ),
    }
}

/// Of two fields the one written later.
fn later(a: &Value, b: &Value) -> (r: Result<Value, String>)
    ensures
        stamp::told(r) == later_of(a@, b@),
{
    match a.as_object() {
        Some(o) => if !o.contains_key("value") {
            return Err("invalid_value".to_owned());
        },
        None => return Err("invalid_row".to_owned()),
    }
    match b.as_object() {
        Some(o) => if !o.contains_key("value") {
            return Err("invalid_value".to_owned());
        },
        None => return Err("invalid_row".to_owned()),
    }
    let tb: Stamp = match stamp::stamp(b.at("at")) {
        Ok(t) => t,
        Err(e) => return Err(e),
    };
    let ta: Stamp = match stamp::stamp(a.at("at")) {
        Ok(t) => t,
        Err(e) => return Err(e),
    };
    if ta.precedes(&tb) {
        Ok(b.duplicate())
    } else {
        Ok(a.duplicate())
    }
}

/// The seconds of a position, or minus one where they are unknown.
fn seconds(position: &Value) -> (r: Result<Double, String>)
    ensures
        match r {
            Ok(d) => seconds_of(position@) == Ok::<Double, Seq<char>>(d),
            Err(e) => seconds_of(position@) == Err::<Double, Seq<char>>(e@),
        },
{
    if position.at("seconds").is_null() {
        Ok(Double { bits: double::MINUS_ONE })
    } else {
        number(position.at("seconds"))
    }
}

/// Of two positions the further one.
fn furthest(a: &Value, b: &Value) -> (r: Result<Value, String>)
    ensures
        stamp::told(r) == furthest_of(a@, b@),
{
    let av: Double = match number(a.at("value")) {
        Ok(v) => v,
        Err(e) => return Err(e),
    };
    let bv: Double = match number(b.at("value")) {
        Ok(v) => v,
        Err(e) => return Err(e),
    };
    let an: u64 = match integer(a.at("viewing")) {
        Ok(n) => n,
        Err(e) => return Err(e),
    };
    let bn: u64 = match integer(b.at("viewing")) {
        Ok(n) => n,
        Err(e) => return Err(e),
    };
    let at: Stamp = match stamp::stamp(a.at("at")) {
        Ok(t) => t,
        Err(e) => return Err(e),
    };
    let bt: Stamp = match stamp::stamp(b.at("at")) {
        Ok(t) => t,
        Err(e) => return Err(e),
    };
    let sa: Double = match seconds(a) {
        Ok(s) => s,
        Err(e) => return Err(e),
    };
    let sb: Double = match seconds(b) {
        Ok(s) => s,
        Err(e) => return Err(e),
    };
    // Numeric equality holds of the two zeros: an order that told them apart would outrank the newer
    // stamp on zero.
    let behind: bool = if an != bn {
        an < bn
    } else if av.less_than(bv) {
        true
    } else if bv.less_than(av) {
        false
    } else if at.precedes(&bt) {
        true
    } else if bt.precedes(&at) {
        false
    } else {
        sa.less_than(sb)
    };
    proof {
        stamp::moments_are_totally_ordered(at@, bt@, at@);
    }
    assert(behind == place(a@).behind(place(b@)));
    if behind {
        Ok(b.duplicate())
    } else {
        Ok(a.duplicate())
    }
}

/// All that two rows say, the second first where both do.
pub open spec fn overlaid(under: Json, over: Json) -> Map<Seq<char>, Json> {
    under->Object_0.union_prefer_right(over->Object_0)
}

/// The greater of two schemas.
pub open spec fn greater_schema(a: Json, b: Json) -> Json {
    let x = integer_of(a.at("schema"@))->Ok_0;
    let y = integer_of(b.at("schema"@))->Ok_0;
    Json::Int(
        if x < y {
            y as int
        } else {
            x as int
        },
    )
}

/// The later of two resets of a series' episodes, where there is one.
pub open spec fn later_reset(a: Json, b: Json) -> Json {
    let x = a.at("episodesReset"@);
    let y = b.at("episodesReset"@);
    if x == Json::Null {
        y
    } else if y == Json::Null {
        x
    } else {
        stamp::stamp_json(stamp::latest(stamp::read(x)->Ok_0, stamp::read(y)->Ok_0))
    }
}

/// The earlier of two times.
pub open spec fn earlier_time(a: Json, b: Json) -> Result<Json, Seq<char>> {
    match (time_of(a), time_of(b)) {
        (Ok(x), Ok(y)) => Ok(
            Json::Int(
                if x <= y {
                    x as int
                } else {
                    y as int
                },
            ),
        ),
        _ => Err("invalid_time"@),
    }
}

/// The earlier of two times, of which either may be absent.
pub open spec fn earlier_watch(a: Json, b: Json) -> Result<Json, Seq<char>> {
    if a == Json::Null && b == Json::Null {
        Ok(Json::Null)
    } else if a == Json::Null {
        earlier_time(b, b)
    } else if b == Json::Null {
        earlier_time(a, a)
    } else {
        earlier_time(a, b)
    }
}

/// The first error in the fields of two records.
pub open spec fn record_fault(a: Json, b: Json) -> Option<Seq<char>> {
    or(
        or(
            or(
                later_fault(a.at("status"@), b.at("status"@)),
                later_fault(a.at("reaction"@), b.at("reaction"@)),
            ),
            or(
                later_fault(a.at("deleted"@), b.at("deleted"@)),
                later_fault(a.at("dismissed"@), b.at("dismissed"@)),
            ),
        ),
        or(
            furthest_fault(a.at("resume"@), b.at("resume"@)),
            or(
                fault(earlier_time(a.at("addedAt"@), b.at("addedAt"@))),
                fault(earlier_watch(a.at("watchedAt"@), b.at("watchedAt"@))),
            ),
        ),
    )
}

/// Two records merged, over what else they say.
pub open spec fn merged_record(a: Json, b: Json, base: Map<Seq<char>, Json>) -> Map<Seq<char>, Json> {
    base.insert("schema"@, greater_schema(a, b)).insert(
        "status"@,
        later_of(a.at("status"@), b.at("status"@))->Ok_0,
    ).insert("reaction"@, later_of(a.at("reaction"@), b.at("reaction"@))->Ok_0).insert(
        "deleted"@,
        later_of(a.at("deleted"@), b.at("deleted"@))->Ok_0,
    ).insert("dismissed"@, later_of(a.at("dismissed"@), b.at("dismissed"@))->Ok_0).insert(
        "resume"@,
        furthest_of(a.at("resume"@), b.at("resume"@))->Ok_0,
    ).insert("episodesReset"@, later_reset(a, b)).insert(
        "addedAt"@,
        earlier_time(a.at("addedAt"@), b.at("addedAt"@))->Ok_0,
    ).insert("watchedAt"@, earlier_watch(a.at("watchedAt"@), b.at("watchedAt"@))->Ok_0)
}

/// Two episodes merged, over what else they say.
pub open spec fn merged_episode(a: Json, b: Json, base: Map<Seq<char>, Json>) -> Map<
    Seq<char>,
    Json,
> {
    base.insert("schema"@, greater_schema(a, b)).insert(
        "progress"@,
        furthest_of(a.at("progress"@), b.at("progress"@))->Ok_0,
    )
}

/// The values of two settings, name by name: of a value that both have, the one written later.
pub open spec fn merged_values(a: Map<Seq<char>, Json>, b: Map<Seq<char>, Json>) -> Map<
    Seq<char>,
    Json,
> {
    Map::new(
        |k: Seq<char>| a.contains_key(k) || b.contains_key(k),
        |k: Seq<char>|
            if !b.contains_key(k) {
                a[k]
            } else if !a.contains_key(k) {
                b[k]
            } else {
                later_of(a[k], b[k])->Ok_0
            },
    )
}

/// The first error, in the order of the names, in the values that two settings both have.
pub open spec fn values_fault(
    keys: Seq<Seq<char>>,
    a: Map<Seq<char>, Json>,
    b: Map<Seq<char>, Json>,
) -> Option<Seq<char>>
    decreases keys.len(),
{
    if keys.len() == 0 {
        None
    } else {
        or(
            values_fault(keys.drop_last(), a, b),
            if a.contains_key(keys.last()) {
                later_fault(a[keys.last()], b[keys.last()])
            } else {
                None
            },
        )
    }
}

/// The values that a setting holds.
pub open spec fn values_of(row: Json) -> Map<Seq<char>, Json> {
    match row.at("values"@) {
        Json::Object(values) => values,
        _ => Map::empty(),
    }
}

/// Two settings merged, over what else they say.
pub open spec fn merged_setting(a: Json, b: Json, base: Map<Seq<char>, Json>) -> Map<
    Seq<char>,
    Json,
> {
    base.insert("schema"@, greater_schema(a, b)).insert(
        "values"@,
        Json::Object(merged_values(values_of(a), values_of(b))),
    )
}

/// What two rows say besides the fields that merge by themselves: all that either says, and of what both
/// say the word of the one that was last written. Of two last written at one moment, the first's.
pub open spec fn merged_base(a: Json, b: Json) -> Map<Seq<char>, Json> {
    if newest_of(a)->Ok_0.before(newest_of(b)->Ok_0) {
        overlaid(a, b)
    } else {
        overlaid(b, a)
    }
}

/// The first error in two rows, apart from their fields.
pub open spec fn merge_fault(a: Json, b: Json) -> Option<Seq<char>> {
    or(
        or(fault(identity(a)), fault(identity(b))),
        if identity(a) != identity(b) {
            Some("identity_mismatch"@)
        } else {
            or(fault(newest_of(b)), fault(newest_of(a)))
        },
    )
}

/// Two rows of one identity merged.
pub open spec fn merged(a: Json, b: Json) -> Result<Json, Seq<char>> {
    let kind = a.at("kind"@);
    match merge_fault(a, b) {
        Some(e) => Err(e),
        None => if kind == Json::Text("rec"@) {
            match record_fault(a, b) {
                Some(e) => Err(e),
                None => Ok(Json::Object(merged_record(a, b, merged_base(a, b)))),
            }
        } else if kind == Json::Text("ep"@) {
            match furthest_fault(a.at("progress"@), b.at("progress"@)) {
                Some(e) => Err(e),
                None => Ok(Json::Object(merged_episode(a, b, merged_base(a, b)))),
            }
        } else {
            match values_fault(json::sorted_keys(values_of(b)), values_of(a), values_of(b)) {
                Some(e) => Err(e),
                None => Ok(Json::Object(merged_setting(a, b, merged_base(a, b)))),
            }
        },
    }
}

/// Where a latest moment is known, every stamp reads.
pub proof fn latest_reads_all(stamps: Seq<Json>)
    requires
        latest_of(stamps) is Ok,
    ensures
        forall|i: int| 0 <= i < stamps.len() ==> stamp::read(#[trigger] stamps[i]) is Ok,
    decreases stamps.len(),
{
    if stamps.len() > 0 {
        let front = stamps.drop_last();
        latest_reads_all(front);
        assert forall|i: int| 0 <= i < stamps.len() implies stamp::read(#[trigger] stamps[i]) is Ok by {
            if i < front.len() {
                assert(front[i] == stamps[i]);
            }
        }
    }
}

/// The reset of a record that was last written at some moment reads.
proof fn resets_read(row: Json)
    requires
        row.at("kind"@) == Json::Text("rec"@),
        newest_of(row) is Ok,
        row.at("episodesReset"@) != Json::Null,
    ensures
        stamp::read(row.at("episodesReset"@)) is Ok,
{
    latest_reads_all(record_stamps(row));
    assert(record_stamps(row)[5] == row.at("episodesReset"@));
}

/// The first names and one more.
proof fn one_more(keys: Seq<Seq<char>>, i: int)
    requires
        0 <= i < keys.len(),
    ensures
        forall|k: Seq<char>| #[trigger]
            keys.take(i + 1).contains(k) <==> keys.take(i).contains(k) || k == keys[i],
{
    let few = keys.take(i);
    let more = keys.take(i + 1);
    assert forall|k: Seq<char>| #[trigger] more.contains(k) <==> few.contains(k) || k == keys[i] by {
        if few.contains(k) {
            let j = choose|j: int| 0 <= j < few.len() && few[j] == k;
            assert(more[j] == k);
        }
        if k == keys[i] {
            assert(more[i] == k);
        }
        if more.contains(k) && k != keys[i] {
            let j = choose|j: int| 0 <= j < more.len() && more[j] == k;
            assert(few[j] == k);
        }
    }
}

/// All that two objects say, the second first where both do.
fn overlay(under: &Object, over: &Object) -> (out: Object)
    ensures
        out@ == under@.union_prefer_right(over@),
{
    let mut out: Object = under.duplicate();
    let n: usize = over.len();
    let ghost keys = json::sorted_keys(over@);
    for i in 0..n
        invariant
            n == keys.len(),
            keys == json::sorted_keys(over@),
            forall|k: Seq<char>| #[trigger]
                out@.contains_key(k) <==> under@.contains_key(k) || keys.take(i as int).contains(k),
            forall|k: Seq<char>| #[trigger]
                out@.contains_key(k) ==> out@[k] == if keys.take(i as int).contains(k) {
                    over@[k]
                } else {
                    under@[k]
                },
    {
        proof {
            one_more(keys, i as int);
        }
        out.insert(over.key_at(i).to_owned(), over.value_at(i).duplicate());
    }
    assert(keys.take(n as int) =~= keys);
    assert(out@ =~= under@.union_prefer_right(over@));
    out
}

/// Puts the greater of two schemas.
fn put_schema(a: &Value, b: &Value, out: &mut Object)
    requires
        integer_of(a@.at("schema"@)) is Ok,
        integer_of(b@.at("schema"@)) is Ok,
    ensures
        final(out)@ == old(out)@.insert("schema"@, greater_schema(a@, b@)),
{
    if let (Ok(x), Ok(y)) = (integer(a.at("schema")), integer(b.at("schema"))) {
        let schema: u64 = if x < y {
            y
        } else {
            x
        };
        out.insert("schema".to_owned(), Value::from_u64(schema));
    }
}

/// The later of two resets of a series' episodes, where there is one.
fn later_of_resets(a: &Value, b: &Value) -> (r: Value)
    requires
        a@.at("kind"@) == Json::Text("rec"@),
        b@.at("kind"@) == Json::Text("rec"@),
        newest_of(a@) is Ok,
        newest_of(b@) is Ok,
    ensures
        r@ == later_reset(a@, b@),
{
    let x: &Value = a.at("episodesReset");
    let y: &Value = b.at("episodesReset");
    if x.is_null() {
        return y.duplicate();
    }
    if y.is_null() {
        return x.duplicate();
    }
    proof {
        resets_read(a@);
        resets_read(b@);
    }
    match (stamp::stamp(x), stamp::stamp(y)) {
        (Ok(s), Ok(t)) => s.later(t).to_value(),
        _ => Value::Null,
    }
}

/// The earlier of two times.
fn earlier(a: &Value, b: &Value) -> (r: Result<Value, String>)
    ensures
        stamp::told(r) == earlier_time(a@, b@),
{
    match (time(a), time(b)) {
        (Ok(x), Ok(y)) => Ok(
            Value::from_i64(
                if x <= y {
                    x
                } else {
                    y
                },
            ),
        ),
        _ => Err("invalid_time".to_owned()),
    }
}

/// The earlier of two times, of which either may be absent.
fn earlier_if_any(a: &Value, b: &Value) -> (r: Result<Value, String>)
    ensures
        stamp::told(r) == earlier_watch(a@, b@),
{
    if a.is_null() && b.is_null() {
        Ok(Value::Null)
    } else if a.is_null() {
        earlier(b, b)
    } else if b.is_null() {
        earlier(a, a)
    } else {
        earlier(a, b)
    }
}

/// Two records merged, over what else they say.
fn merge_records(a: &Value, b: &Value, base: Object) -> (r: Result<Object, String>)
    requires
        a@.at("kind"@) == Json::Text("rec"@),
        b@.at("kind"@) == Json::Text("rec"@),
        integer_of(a@.at("schema"@)) is Ok,
        integer_of(b@.at("schema"@)) is Ok,
        newest_of(a@) is Ok,
        newest_of(b@) is Ok,
    ensures
        stamp::told(r) == (match record_fault(a@, b@) {
            Some(e) => Err(e),
            None => Ok(merged_record(a@, b@, base@)),
        }),
{
    let mut out: Object = base;
    put_schema(a, b, &mut out);
    match later(a.at("status"), b.at("status")) {
        Ok(v) => out.insert("status".to_owned(), v),
        Err(e) => return Err(e),
    }
    match later(a.at("reaction"), b.at("reaction")) {
        Ok(v) => out.insert("reaction".to_owned(), v),
        Err(e) => return Err(e),
    }
    match later(a.at("deleted"), b.at("deleted")) {
        Ok(v) => out.insert("deleted".to_owned(), v),
        Err(e) => return Err(e),
    }
    match later(a.at("dismissed"), b.at("dismissed")) {
        Ok(v) => out.insert("dismissed".to_owned(), v),
        Err(e) => return Err(e),
    }
    match furthest(a.at("resume"), b.at("resume")) {
        Ok(v) => out.insert("resume".to_owned(), v),
        Err(e) => return Err(e),
    }
    out.insert("episodesReset".to_owned(), later_of_resets(a, b));
    match earlier(a.at("addedAt"), b.at("addedAt")) {
        Ok(v) => out.insert("addedAt".to_owned(), v),
        Err(e) => return Err(e),
    }
    match earlier_if_any(a.at("watchedAt"), b.at("watchedAt")) {
        Ok(v) => out.insert("watchedAt".to_owned(), v),
        Err(e) => return Err(e),
    }
    Ok(out)
}

/// The values of two settings, name by name.
fn merge_values(a: &Object, b: &Object) -> (r: Result<Object, String>)
    ensures
        stamp::told(r) == (match values_fault(json::sorted_keys(b@), a@, b@) {
            Some(e) => Err(e),
            None => Ok(merged_values(a@, b@)),
        }),
{
    let mut out: Object = a.duplicate();
    let n: usize = b.len();
    let ghost keys = json::sorted_keys(b@);
    for i in 0..n
        invariant
            n == keys.len(),
            keys == json::sorted_keys(b@),
            json::ascending(keys),
            values_fault(keys.take(i as int), a@, b@) is None,
            forall|k: Seq<char>| #[trigger]
                out@.contains_key(k) <==> a@.contains_key(k) || keys.take(i as int).contains(k),
            forall|k: Seq<char>| #[trigger]
                out@.contains_key(k) ==> out@[k] == if !keys.take(i as int).contains(k) {
                    a@[k]
                } else if !a@.contains_key(k) {
                    b@[k]
                } else {
                    later_of(a@[k], b@[k])->Ok_0
                },
    {
        let ghost seen = keys.take(i as int);
        let ghost key = keys[i as int];
        assert(keys.take(i + 1).drop_last() =~= seen);
        proof {
            one_more(keys, i as int);
        }
        let value: &Value = b.value_at(i);
        let ghost fault_here = if a@.contains_key(key) {
            later_fault(a@[key], b@[key])
        } else {
            None
        };
        proof {
            assert(values_fault(keys.take(i + 1), a@, b@) == fault_here);
            if fault_here is Some {
                values_fault_is_first(keys, a@, b@, i + 1);
            }
        }
        match a.get(b.key_at(i)) {
            Some(prior) => match later(prior, value) {
                Ok(v) => out.insert(b.key_at(i).to_owned(), v),
                Err(e) => return Err(e),
            },
            None => out.insert(b.key_at(i).to_owned(), value.duplicate()),
        }
    }
    assert(keys.take(n as int) =~= keys);
    assert(out@ =~= merged_values(a@, b@));
    Ok(out)
}

/// The first error among the first names is the first of all.
proof fn values_fault_is_first(
    keys: Seq<Seq<char>>,
    a: Map<Seq<char>, Json>,
    b: Map<Seq<char>, Json>,
    n: int,
)
    requires
        0 <= n <= keys.len(),
        values_fault(keys.take(n), a, b) is Some,
    ensures
        values_fault(keys, a, b) == values_fault(keys.take(n), a, b),
    decreases keys.len(),
{
    if n == keys.len() {
        assert(keys.take(n) =~= keys);
    } else {
        assert(keys.drop_last().take(n) =~= keys.take(n));
        values_fault_is_first(keys.drop_last(), a, b, n);
    }
}

/// Two rows of one identity as one. Each field goes by its own rule; fields that no rule speaks of
/// survive, those of the row last written over the other's.
pub fn merge(a: &Value, b: &Value) -> (r: Result<Value, String>)
    ensures
        stamp::told(r) == merged(a@, b@),
{
    let na: String = match name(a) {
        Ok(n) => n,
        Err(e) => return Err(e),
    };
    let nb: String = match name(b) {
        Ok(n) => n,
        Err(e) => return Err(e),
    };
    if !text::same(na.as_str(), nb.as_str()) {
        return Err("identity_mismatch".to_owned());
    }
    let tb: Stamp = match newest(b) {
        Ok(t) => t,
        Err(e) => return Err(e),
    };
    let ta: Stamp = match newest(a) {
        Ok(t) => t,
        Err(e) => return Err(e),
    };
    let (oa, ob): (&Object, &Object) = match (a.as_object(), b.as_object()) {
        (Some(oa), Some(ob)) => (oa, ob),
        _ => return Err("invalid_row".to_owned()),
    };
    let base: Object = if ta.precedes(&tb) {
        overlay(oa, ob)
    } else {
        overlay(ob, oa)
    };
    proof {
        kinds_agree(a@, b@);
    }
    if a.at("kind").is_text("rec") {
        match merge_records(a, b, base) {
            Ok(out) => Ok(Value::Object(out)),
            Err(e) => Err(e),
        }
    } else if a.at("kind").is_text("ep") {
        let mut out: Object = base;
        put_schema(a, b, &mut out);
        match furthest(a.at("progress"), b.at("progress")) {
            Ok(v) => out.insert("progress".to_owned(), v),
            Err(e) => return Err(e),
        }
        Ok(Value::Object(out))
    } else {
        let mut out: Object = base;
        put_schema(a, b, &mut out);
        match (a.at("values").as_object(), b.at("values").as_object()) {
            (Some(va), Some(vb)) => match merge_values(va, vb) {
                Ok(values) => out.insert("values".to_owned(), Value::Object(values)),
                Err(e) => return Err(e),
            },
            _ => return Err("invalid_row".to_owned()),
        }
        Ok(Value::Object(out))
    }
}

/// What the name of a row starts with.
proof fn names_tell_kinds(row: Json)
    requires
        identity(row) is Ok,
    ensures
        identity(row)->Ok_0.len() > 0,
        identity(row)->Ok_0[0] == 'r' || identity(row)->Ok_0[0] == 'e' || identity(row)->Ok_0[0]
            == 's',
        row.at("kind"@) == Json::Text("rec"@) <==> identity(row)->Ok_0[0] == 'r',
        row.at("kind"@) == Json::Text("ep"@) <==> identity(row)->Ok_0[0] == 'e',
        row.at("kind"@) == Json::Text("set"@) <==> identity(row)->Ok_0[0] == 's',
{
    reveal_strlit("rec");
    reveal_strlit("ep");
    reveal_strlit("set");
    reveal_strlit("rec:");
    reveal_strlit("ep:");
    reveal_strlit("set:");
    assert("rec"@[0] == 'r' && "ep"@[0] == 'e' && "set"@[0] == 's');
    if row.at("kind"@) != Json::Text("set"@) {
        let (media, id) = title_of(row)->Ok_0;
        if row.at("kind"@) == Json::Text("rec"@) {
            let rest = media + ":"@ + text::decimal(id as nat);
            assert(identity(row)->Ok_0 =~= "rec:"@ + rest);
        } else {
            let season = integer_of(row.at("season"@))->Ok_0;
            let episode = integer_of(row.at("episode"@))->Ok_0;
            let rest = media + ":"@ + text::decimal(id as nat) + ":"@ + text::decimal(season as nat)
                + ":"@ + text::decimal(episode as nat);
            assert(identity(row)->Ok_0 =~= "ep:"@ + rest);
        }
    }
}

/// Rows of one identity are of one kind.
pub proof fn kinds_agree(a: Json, b: Json)
    requires
        identity(a) is Ok,
        identity(a) == identity(b),
    ensures
        a.at("kind"@) == b.at("kind"@),
        a.at("kind"@) == Json::Text("rec"@) || a.at("kind"@) == Json::Text("ep"@) || a.at("kind"@)
            == Json::Text("set"@),
{
    names_tell_kinds(a);
    names_tell_kinds(b);
}

/// By what the names of fields can be told apart: the length and the first two letters.
pub open spec fn tag(name: Seq<char>) -> (nat, char, char) {
    (name.len(), name[0], name[1])
}

/// No two fields of a row have one name.
pub proof fn field_names_differ()
    ensures
        tag("schema"@) == (6nat, 's', 'c'),
        tag("kind"@) == (4nat, 'k', 'i'),
        tag("name"@) == (4nat, 'n', 'a'),
        tag("title"@) == (5nat, 't', 'i'),
        tag("season"@) == (6nat, 's', 'e'),
        tag("episode"@) == (7nat, 'e', 'p'),
        tag("values"@) == (6nat, 'v', 'a'),
        tag("status"@) == (6nat, 's', 't'),
        tag("reaction"@) == (8nat, 'r', 'e'),
        tag("deleted"@) == (7nat, 'd', 'e'),
        tag("dismissed"@) == (9nat, 'd', 'i'),
        tag("resume"@) == (6nat, 'r', 'e'),
        tag("episodesReset"@) == (13nat, 'e', 'p'),
        tag("addedAt"@) == (7nat, 'a', 'd'),
        tag("watchedAt"@) == (9nat, 'w', 'a'),
        tag("progress"@) == (8nat, 'p', 'r'),
{
    reveal_strlit("schema");
    reveal_strlit("kind");
    reveal_strlit("name");
    reveal_strlit("title");
    reveal_strlit("season");
    reveal_strlit("episode");
    reveal_strlit("values");
    reveal_strlit("status");
    reveal_strlit("reaction");
    reveal_strlit("deleted");
    reveal_strlit("dismissed");
    reveal_strlit("resume");
    reveal_strlit("episodesReset");
    reveal_strlit("addedAt");
    reveal_strlit("watchedAt");
    reveal_strlit("progress");
}

} // verus!
