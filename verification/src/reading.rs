//! What is read in a row, in the plainest words: which JSON values are numbers, times, stamps and titles, and
//! what each is read as.

use crate::double;
use crate::double::Double;
use crate::json;
use crate::json::{Json, Object, Value};
use crate::stamp;
use crate::stamp::Moment;
use crate::text;
use crate::wire;
use vstd::arithmetic::power2;
use vstd::prelude::*;

verus! {

/// The largest whole number that every client can hold exactly: two to the 53rd, less one.
pub open spec fn largest() -> int {
    9_007_199_254_740_991
}

/// Whether a value is a stamp: a list of a time, a counter that is not negative, and the name of a device,
/// with numbers that every client can hold.
pub open spec fn is_stamp(v: Json) -> bool {
    &&& v is List
    &&& v->List_0.len() == 3
    &&& v->List_0[0] is Int
    &&& -largest() <= v->List_0[0]->Int_0 <= largest()
    &&& v->List_0[1] is Int
    &&& 0 <= v->List_0[1]->Int_0 <= largest()
    &&& v->List_0[2] is Text
}

/// The moment that a stamp spells.
pub open spec fn moment(v: Json) -> Moment {
    Moment {
        time: v->List_0[0]->Int_0,
        counter: v->List_0[1]->Int_0,
        device: v->List_0[2]->Text_0,
    }
}

/// Whether bytes come before others, as words in a dictionary do: at the first place where they differ the
/// lesser byte, or the end, comes first.
pub open spec fn bytes_come_before(a: Seq<u8>, b: Seq<u8>) -> bool {
    exists|i: int|
        #![trigger a.take(i)]
        0 <= i < b.len() && i <= a.len() && a.take(i) == b.take(i) && (i == a.len() || a[i] < b[i])
}

/// The two orders of bytes are one.
proof fn dictionary_order(a: Seq<u8>, b: Seq<u8>)
    ensures
        text::bytes_less(a, b) <==> bytes_come_before(a, b),
    decreases a.len(),
{
    if a.len() > 0 && b.len() > 0 && a[0] == b[0] {
        let x = a.drop_first();
        let y = b.drop_first();
        dictionary_order(x, y);
        if bytes_come_before(x, y) {
            let i = choose|i: int|
                #![trigger x.take(i)]
                0 <= i < y.len() && i <= x.len() && x.take(i) == y.take(i) && (i == x.len() || x[i]
                    < y[i]);
            assert(a.take(i + 1) =~= seq![a[0]] + x.take(i));
            assert(b.take(i + 1) =~= seq![b[0]] + y.take(i));
            assert(bytes_come_before(a, b));
        }
        if bytes_come_before(a, b) {
            let i = choose|i: int|
                #![trigger a.take(i)]
                0 <= i < b.len() && i <= a.len() && a.take(i) == b.take(i) && (i == a.len() || a[i]
                    < b[i]);
            assert(i > 0);
            assert(x.take(i - 1) =~= a.take(i).drop_first());
            assert(y.take(i - 1) =~= b.take(i).drop_first());
            assert(bytes_come_before(x, y));
        }
    } else {
        assert(a.take(0) =~= b.take(0));
        if bytes_come_before(a, b) {
            let i = choose|i: int|
                #![trigger a.take(i)]
                0 <= i < b.len() && i <= a.len() && a.take(i) == b.take(i) && (i == a.len() || a[i]
                    < b[i]);
            if i > 0 {
                assert(a.take(i)[0] == a[0]);
                assert(b.take(i)[0] == b[0]);
            }
        }
    }
}

/// Moments go by time, then by counter, then by the UTF-8 bytes of the device.
pub proof fn moments_go_by_time_counter_and_device(a: Moment, b: Moment)
    ensures
        a.time != b.time ==> (a.before(b) <==> a.time < b.time),
        a.time == b.time && a.counter != b.counter ==> (a.before(b) <==> a.counter < b.counter),
        a.time == b.time && a.counter == b.counter ==> (a.before(b) <==> bytes_come_before(
            vstd::utf8::encode_utf8(a.device),
            vstd::utf8::encode_utf8(b.device),
        )),
        stamp::latest(a, b) == b <==> a == b || a.before(b),
        stamp::latest(a, b) == a || stamp::latest(a, b) == b,
{
    dictionary_order(vstd::utf8::encode_utf8(a.device), vstd::utf8::encode_utf8(b.device));
    stamp::moments_are_totally_ordered(a, b, a);
}

/// The value that an object has under a name is the one it was given; under a name that it lacks, and of
/// what is no object, there is nothing.
pub proof fn names_lead_to_their_values(m: Map<Seq<char>, Json>, v: Json, name: Seq<char>)
    ensures
        m.contains_key(name) ==> Json::Object(m).at(name) == m[name],
        !m.contains_key(name) ==> Json::Object(m).at(name) == Json::Null,
        !(v is Object) ==> v.at(name) == Json::Null,
{
}

/// What a value holds is what it means.
pub proof fn values_mean_what_they_hold(b: bool, t: String, items: Vec<Value>, o: Object)
    ensures
        Value::Object(o)@ == Json::Object(o@),
        Value::Null@ == Json::Null,
        Value::Bool(b)@ == Json::Bool(b),
        Value::String(t)@ == Json::Text(t@),
        Value::Array(items)@ is List,
        Value::Array(items)@->List_0.len() == items@.len(),
        forall|i: int|
            0 <= i < items@.len() ==> #[trigger] Value::Array(items)@->List_0[i] == items@[i]@,
{
}

/// A whole number from zero to the largest reads as itself. Nothing else reads as one.
pub proof fn integers_are_read(v: Json, n: int)
    ensures
        0 <= n <= largest() ==> wire::integer_of(Json::Int(n)) is Ok && wire::integer_of(
            Json::Int(n),
        )->Ok_0 == n,
        n < 0 || n > largest() ==> wire::integer_of(Json::Int(n)) == Err::<u64, Seq<char>>(
            "invalid_integer"@,
        ),
        !(v is Int) ==> wire::integer_of(v) == Err::<u64, Seq<char>>("invalid_integer"@),
{
}

/// A whole number no further from zero than the largest reads as the time that it is, before the epoch or
/// after. Nothing else reads as one.
pub proof fn times_are_read(v: Json, n: int)
    ensures
        -largest() <= n <= largest() ==> wire::time_of(Json::Int(n)) is Ok && wire::time_of(
            Json::Int(n),
        )->Ok_0 == n,
        n < -largest() || n > largest() ==> wire::time_of(Json::Int(n)) == Err::<i64, Seq<char>>(
            "invalid_time"@,
        ),
        !(v is Int) ==> wire::time_of(v) == Err::<i64, Seq<char>>("invalid_time"@),
{
}

/// A stamp reads as the moment that it spells, and only a stamp reads as one. A list of the right form with
/// numbers that some client cannot hold is told from what is no stamp at all.
pub proof fn stamps_are_read(v: Json)
    ensures
        is_stamp(v) ==> stamp::read(v) == Ok::<Moment, Seq<char>>(moment(v)),
        stamp::read(v) is Ok ==> is_stamp(v),
        !is_stamp(v) ==> stamp::read(v) == Err::<Moment, Seq<char>>(
            if v is List && v->List_0.len() == 3 && v->List_0[0] is Int && i64::MIN
                <= v->List_0[0]->Int_0 <= i64::MAX && v->List_0[1] is Int && 0
                <= v->List_0[1]->Int_0 <= u64::MAX && v->List_0[2] is Text {
                "unsafe_stamp"@
            } else {
                "invalid_stamp"@
            },
        ),
{
}

/// A stamp is written as a list of its time, its counter and its device.
pub proof fn stamps_are_written(m: Moment)
    ensures
        stamp::stamp_json(m) is List,
        stamp::stamp_json(m)->List_0.len() == 3,
        stamp::stamp_json(m)->List_0[0] == Json::Int(m.time),
        stamp::stamp_json(m)->List_0[1] == Json::Int(m.counter),
        stamp::stamp_json(m)->List_0[2] == Json::Text(m.device),
{
}

/// A device issues a stamp exactly when every client can hold the one it follows and the new one. Where the
/// clock is ahead the stamp has its time and counts from zero; where it is not, the last time is kept and the
/// counter goes up by one.
pub proof fn stamps_are_issued(last: Moment, now: int, device: Seq<char>)
    requires
        0 <= last.counter,
    ensures
        stamp::issued(last, now, device) is Ok <==> {
            &&& -largest() <= last.time <= largest()
            &&& last.counter <= largest()
            &&& now > last.time ==> now <= largest()
            &&& now <= last.time ==> last.counter < largest()
        },
        stamp::issued(last, now, device) is Err ==> stamp::issued(last, now, device) == Err::<
            Moment,
            Seq<char>,
        >("unsafe_stamp"@),
        stamp::issued(last, now, device) matches Ok(m) ==> {
            &&& m.device == device
            &&& now > last.time ==> m.time == now && m.counter == 0
            &&& now <= last.time ==> m.time == last.time && m.counter == last.counter + 1
        },
        last.safe() <==> -largest() <= last.time <= largest() && last.counter <= largest(),
{
}

/// A row is of a title exactly when it names it: a movie or a series, by an id that is not zero.
pub proof fn titles_are_read(row: Json, media: Seq<char>, id: u64)
    ensures
        wire::title_of(row) == Ok::<(Seq<char>, u64), Seq<char>>((media, id)) <==> {
            &&& row.at("title"@).at("type"@) == Json::Text(media)
            &&& media == "movie"@ || media == "tv"@
            &&& row.at("title"@).at("id"@) == Json::Int(id as int)
            &&& 1 <= id <= largest()
        },
{
}

/// Whether a value is a whole number that every client can hold.
pub open spec fn is_whole(v: Json) -> bool {
    v is Int && 0 <= v->Int_0 <= largest()
}

/// Whether a value is a time that every client can hold.
pub open spec fn is_time(v: Json) -> bool {
    v is Int && -largest() <= v->Int_0 <= largest()
}

/// Whether a row is of a title: a movie or a series, by an id that is not zero.
pub open spec fn has_title(row: Json) -> bool {
    &&& row.at("title"@).at("type"@) == Json::Text("movie"@) || row.at("title"@).at("type"@)
        == Json::Text("tv"@)
    &&& is_whole(row.at("title"@).at("id"@))
    &&& row.at("title"@).at("id"@)->Int_0 > 0
}

/// Whether a row is named as a record.
pub open spec fn names_record(row: Json) -> bool {
    &&& row is Object
    &&& is_whole(row.at("schema"@))
    &&& row.at("kind"@) == Json::Text("rec"@)
    &&& has_title(row)
}

/// Whether a row is named as an episode: only a series has some.
pub open spec fn names_episode(row: Json) -> bool {
    &&& row is Object
    &&& is_whole(row.at("schema"@))
    &&& row.at("kind"@) == Json::Text("ep"@)
    &&& has_title(row)
    &&& row.at("title"@).at("type"@) == Json::Text("tv"@)
    &&& is_whole(row.at("season"@))
    &&& is_whole(row.at("episode"@))
}

/// Whether a row is named as a setting.
pub open spec fn names_setting(row: Json) -> bool {
    &&& row is Object
    &&& is_whole(row.at("schema"@))
    &&& row.at("kind"@) == Json::Text("set"@)
    &&& row.at("name"@) is Text
}

/// Records, episodes and settings have names, and nothing else has.
pub proof fn rows_with_names(row: Json)
    ensures
        wire::identity(row) is Ok <==> names_record(row) || names_episode(row) || names_setting(row),
{
    reveal_strlit("rec");
    reveal_strlit("ep");
    reveal_strlit("set");
    assert("rec"@.len() == 3 && "ep"@.len() == 2 && "set"@.len() == 3);
    assert("rec"@[0] == 'r' && "set"@[0] == 's');
}

/// Whether a value is a finite number: a whole one that fits 64 bits, or a finite double.
pub open spec fn is_amount(v: Json) -> bool {
    ||| v is Int && i64::MIN <= v->Int_0 <= u64::MAX
    ||| v is Float && v->Float_0.magnitude() < 0x7ff0_0000_0000_0000
}

/// The place of a finite number among the others.
pub open spec fn level(v: Json) -> int {
    if v is Int {
        double::double_of(v->Int_0).rank()
    } else {
        v->Float_0.rank()
    }
}

/// A finite number reads as itself, a whole one as the double that holds it. Nothing else reads as one.
pub proof fn amounts_are_read(v: Json)
    requires
        v is Int ==> i64::MIN <= v->Int_0 <= u64::MAX,
    ensures
        wire::number_of(v) is Ok <==> is_amount(v),
        is_amount(v) ==> wire::number_of(v)->Ok_0.rank() == level(v),
        is_amount(v) && v is Float ==> wire::number_of(v)->Ok_0 == v->Float_0,
        is_amount(v) && v is Int && -largest() <= v->Int_0 <= largest() ==> wire::number_of(
            v,
        )->Ok_0.value() == v->Int_0 * power2::pow2(1074),
        !is_amount(v) ==> wire::number_of(v) == Err::<Double, Seq<char>>("invalid_progress"@),
{
    if v is Int {
        double::integers_have_doubles(v->Int_0);
        if -largest() <= v->Int_0 <= largest() {
            double::small_integers_are_exact(v->Int_0);
        }
    }
}

/// The seconds of a position are the number that it says. Where it says none, they are less than any that
/// are not negative.
pub proof fn seconds_are_read(position: Json)
    requires
        position.at("seconds"@) is Int ==> i64::MIN <= position.at("seconds"@)->Int_0 <= u64::MAX,
    ensures
        position.at("seconds"@) == Json::Null ==> wire::seconds_of(position) is Ok
            && wire::seconds_of(position)->Ok_0.bits == 0xbff0_0000_0000_0000
            && wire::seconds_of(position)->Ok_0.rank() == -0x3ff0_0000_0000_0000,
        position.at("seconds"@) != Json::Null ==> (wire::seconds_of(position) is Ok <==> is_amount(
            position.at("seconds"@),
        )),
        is_amount(position.at("seconds"@)) ==> wire::seconds_of(position)->Ok_0.rank() == level(
            position.at("seconds"@),
        ),
{
    amounts_are_read(position.at("seconds"@));
}

/// The name of a row, and why it has none, in the order in which the parts are looked at: a setting goes by
/// its name, a record by its title, an episode by its series, season and number.
pub proof fn rows_are_named(row: Json)
    ensures
        ({
            let kind = row.at("kind"@);
            let media = row.at("title"@).at("type"@);
            let id = row.at("title"@).at("id"@);
            let season = row.at("season"@);
            let episode = row.at("episode"@);
            wire::identity(row) == (if !(row is Object) {
                Err("invalid_row"@)
            } else if !is_whole(row.at("schema"@)) {
                Err("invalid_integer"@)
            } else if !(kind is Text) {
                Err("invalid_kind"@)
            } else if kind == Json::Text("set"@) {
                if row.at("name"@) is Text {
                    Ok("set:"@ + row.at("name"@)->Text_0)
                } else {
                    Err("invalid_name"@)
                }
            } else if media != Json::Text("movie"@) && media != Json::Text("tv"@) {
                Err("invalid_title"@)
            } else if !is_whole(id) {
                Err("invalid_integer"@)
            } else if id == Json::Int(0) {
                Err("invalid_title"@)
            } else if kind == Json::Text("rec"@) {
                Ok("rec:"@ + media->Text_0 + ":"@ + text::decimal(id->Int_0 as nat))
            } else if kind != Json::Text("ep"@) || media != Json::Text("tv"@) {
                Err("invalid_kind"@)
            } else if !is_whole(season) || !is_whole(episode) {
                Err("invalid_integer"@)
            } else {
                Ok(
                    "ep:"@ + media->Text_0 + ":"@ + text::decimal(id->Int_0 as nat) + ":"@
                        + text::decimal(season->Int_0 as nat) + ":"@ + text::decimal(
                        episode->Int_0 as nat,
                    ),
                )
            })
        }),
{
}

/// The latest of stamps is one of them, or the zero stamp, and none of them, nor the zero stamp, is after it.
pub proof fn the_latest_is_the_last(stamps: Seq<Json>)
    ensures
        wire::latest_of(stamps) is Ok <==> forall|i: int|
            0 <= i < stamps.len() ==> is_stamp(#[trigger] stamps[i]),
        wire::latest_of(stamps) matches Ok(m) ==> {
            &&& m == (Moment { time: 0, counter: 0, device: seq![] }) || exists|i: int|
                0 <= i < stamps.len() && m == moment(#[trigger] stamps[i])
            &&& !m.before(Moment { time: 0, counter: 0, device: seq![] })
            &&& forall|i: int|
                0 <= i < stamps.len() ==> !m.before(moment(#[trigger] stamps[i]))
        },
    decreases stamps.len(),
{
    let zero = Moment { time: 0, counter: 0, device: seq![] };
    assert(stamp::zero() == zero);
    if stamps.len() > 0 {
        let front = stamps.drop_last();
        let last = stamps.last();
        the_latest_is_the_last(front);
        stamps_are_read(last);
        assert(stamps[stamps.len() - 1] == last);
        if wire::latest_of(stamps) is Ok {
            assert forall|i: int| 0 <= i < stamps.len() implies is_stamp(#[trigger] stamps[i]) by {
                if i < front.len() {
                    assert(front[i] == stamps[i]);
                }
            }
            let m = wire::latest_of(front)->Ok_0;
            let n = moment(last);
            stamp::moments_are_totally_ordered(m, n, zero);
            stamp::moments_are_totally_ordered(n, m, zero);
            stamp::moments_are_totally_ordered(n, zero, m);
            if m != zero {
                let i = choose|i: int| 0 <= i < front.len() && m == moment(#[trigger] front[i]);
                assert(stamps[i] == front[i]);
            }
            let out = wire::latest_of(stamps)->Ok_0;
            assert forall|i: int| 0 <= i < stamps.len() implies !out.before(
                moment(#[trigger] stamps[i]),
            ) by {
                if i < front.len() {
                    assert(front[i] == stamps[i]);
                    stamp::moments_are_totally_ordered(m, n, moment(stamps[i]));
                    stamp::moments_are_totally_ordered(n, moment(stamps[i]), m);
                    stamp::moments_are_totally_ordered(m, moment(stamps[i]), n);
                }
            }
        }
        if forall|i: int| 0 <= i < stamps.len() ==> is_stamp(#[trigger] stamps[i]) {
            assert forall|i: int| 0 <= i < front.len() implies is_stamp(#[trigger] front[i]) by {
                assert(front[i] == stamps[i]);
            }
            assert(is_stamp(stamps[stamps.len() - 1]));
        }
    } else {
        stamp::moments_are_totally_ordered(zero, zero, zero);
    }
}

/// When a row was last written: by the latest of its stamps. Those of a record are its five fields' and its
/// reset, where it has one; that of an episode its progress'; those of a setting its values'.
pub proof fn rows_are_last_written(row: Json)
    requires
        row.at("values"@) is Object ==> row.at("values"@)->Object_0.dom().finite(),
    ensures
        ({
            let written = |v: Json|
                if row.at("kind"@) == Json::Text("rec"@) {
                    ||| v == row.at("status"@).at("at"@)
                    ||| v == row.at("resume"@).at("at"@)
                    ||| v == row.at("reaction"@).at("at"@)
                    ||| v == row.at("deleted"@).at("at"@)
                    ||| v == row.at("dismissed"@).at("at"@)
                    ||| v == row.at("episodesReset"@) && v != Json::Null
                } else if row.at("kind"@) == Json::Text("ep"@) {
                    v == row.at("progress"@).at("at"@)
                } else {
                    exists|k: Seq<char>| #[trigger]
                        row.at("values"@)->Object_0.contains_key(k) && v == row.at(
                            "values"@,
                        )->Object_0[k].at("at"@)
                };
            &&& wire::newest_of(row) is Ok <==> {
                &&& row.at("kind"@) == Json::Text("rec"@) || row.at("kind"@) == Json::Text("ep"@)
                    || row.at("kind"@) == Json::Text("set"@) && row.at("values"@) is Object
                &&& forall|v: Json| #[trigger] written(v) ==> is_stamp(v)
            }
            &&& wire::newest_of(row) matches Ok(m) ==> {
                &&& m == (Moment { time: 0, counter: 0, device: seq![] }) || exists|v: Json| #[trigger]
                    written(v) && m == moment(v)
                &&& !m.before(Moment { time: 0, counter: 0, device: seq![] })
                &&& forall|v: Json| #[trigger] written(v) ==> !m.before(moment(v))
            }
        }),
{
    let kind = row.at("kind"@);
    let written = |v: Json|
        if row.at("kind"@) == Json::Text("rec"@) {
            ||| v == row.at("status"@).at("at"@)
            ||| v == row.at("resume"@).at("at"@)
            ||| v == row.at("reaction"@).at("at"@)
            ||| v == row.at("deleted"@).at("at"@)
            ||| v == row.at("dismissed"@).at("at"@)
            ||| v == row.at("episodesReset"@) && v != Json::Null
        } else if row.at("kind"@) == Json::Text("ep"@) {
            v == row.at("progress"@).at("at"@)
        } else {
            exists|k: Seq<char>| #[trigger]
                row.at("values"@)->Object_0.contains_key(k) && v == row.at(
                    "values"@,
                )->Object_0[k].at("at"@)
        };
    let stamps = if kind == Json::Text("rec"@) {
        wire::record_stamps(row)
    } else if kind == Json::Text("ep"@) {
        seq![row.at("progress"@).at("at"@)]
    } else {
        wire::setting_stamps(row.at("values"@)->Object_0)
    };
    if kind == Json::Text("rec"@) || kind == Json::Text("ep"@) || kind == Json::Text("set"@) && row.at(
        "values"@,
    ) is Object {
        the_latest_is_the_last(stamps);
        assert forall|v: Json| #[trigger] written(v) implies exists|i: int|
            0 <= i < stamps.len() && #[trigger] stamps[i] == v by {
            if kind == Json::Text("rec"@) {
                assert(stamps[0] == row.at("status"@).at("at"@));
                assert(stamps[1] == row.at("resume"@).at("at"@));
                assert(stamps[2] == row.at("reaction"@).at("at"@));
                assert(stamps[3] == row.at("deleted"@).at("at"@));
                assert(stamps[4] == row.at("dismissed"@).at("at"@));
                if row.at("episodesReset"@) != Json::Null {
                    assert(stamps[5] == row.at("episodesReset"@));
                }
            } else if kind == Json::Text("ep"@) {
                assert(stamps[0] == v);
            } else {
                let m = row.at("values"@)->Object_0;
                json::names_can_be_listed(m);
                let keys = json::sorted_keys(m);
                let k = choose|k: Seq<char>| #[trigger] m.contains_key(k) && v == m[k].at("at"@);
                assert(keys.contains(k));
                let i = choose|i: int| 0 <= i < keys.len() && keys[i] == k;
                assert(stamps[i] == v);
            }
        }
        assert forall|i: int| 0 <= i < stamps.len() implies written(#[trigger] stamps[i]) by {
            if kind == Json::Text("rec"@) {
                assert(i == 0 || i == 1 || i == 2 || i == 3 || i == 4 || i == 5);
            } else if kind == Json::Text("ep"@) {
            } else {
                let m = row.at("values"@)->Object_0;
                json::names_can_be_listed(m);
                let keys = json::sorted_keys(m);
                assert(keys.contains(keys[i]));
                assert(m.contains_key(keys[i]));
            }
        }
    }
}

/// Of stamps of which some are none, the first that is none tells why.
pub proof fn the_first_that_is_none_tells(stamps: Seq<Json>, i: int)
    requires
        0 <= i < stamps.len(),
        !is_stamp(stamps[i]),
        forall|j: int| 0 <= j < i ==> is_stamp(#[trigger] stamps[j]),
    ensures
        wire::latest_of(stamps) == Err::<Moment, Seq<char>>(stamp::read(stamps[i])->Err_0),
    decreases stamps.len(),
{
    let front = stamps.drop_last();
    stamps_are_read(stamps[i]);
    if i < front.len() {
        assert(front[i] == stamps[i]);
        assert forall|j: int| 0 <= j < i implies is_stamp(#[trigger] front[j]) by {
            assert(front[j] == stamps[j]);
        }
        the_first_that_is_none_tells(front, i);
    } else {
        the_latest_is_the_last(front);
        assert forall|j: int| 0 <= j < front.len() implies is_stamp(#[trigger] front[j]) by {
            assert(front[j] == stamps[j]);
        }
    }
}

/// The stamps of a row are looked at in one order: of a record, those of status, resume position, reaction,
/// deletion and dismissal, and then the reset, where there is one.
pub proof fn stamps_are_looked_at_in_order(row: Json)
    ensures
        row.at("kind"@) == Json::Text("rec"@) && row.at("episodesReset"@) == Json::Null
            ==> wire::newest_of(row) == wire::latest_of(
            seq![
                row.at("status"@).at("at"@),
                row.at("resume"@).at("at"@),
                row.at("reaction"@).at("at"@),
                row.at("deleted"@).at("at"@),
                row.at("dismissed"@).at("at"@),
            ],
        ),
        row.at("kind"@) == Json::Text("rec"@) && row.at("episodesReset"@) != Json::Null
            ==> wire::newest_of(row) == wire::latest_of(
            seq![
                row.at("status"@).at("at"@),
                row.at("resume"@).at("at"@),
                row.at("reaction"@).at("at"@),
                row.at("deleted"@).at("at"@),
                row.at("dismissed"@).at("at"@),
                row.at("episodesReset"@),
            ],
        ),
        row.at("kind"@) == Json::Text("set"@) && !(row.at("values"@) is Object) ==> wire::newest_of(
            row,
        ) == Err::<Moment, Seq<char>>("invalid_row"@),
{
    reveal_strlit("rec");
    reveal_strlit("ep");
    reveal_strlit("set");
    assert("rec"@.len() == 3 && "ep"@.len() == 2 && "set"@.len() == 3);
    assert("rec"@[0] == 'r' && "set"@[0] == 's');
    assert(wire::record_stamps(row) =~= if row.at("episodesReset"@) == Json::Null {
        seq![
            row.at("status"@).at("at"@),
            row.at("resume"@).at("at"@),
            row.at("reaction"@).at("at"@),
            row.at("deleted"@).at("at"@),
            row.at("dismissed"@).at("at"@),
        ]
    } else {
        seq![
            row.at("status"@).at("at"@),
            row.at("resume"@).at("at"@),
            row.at("reaction"@).at("at"@),
            row.at("deleted"@).at("at"@),
            row.at("dismissed"@).at("at"@),
            row.at("episodesReset"@),
        ]
    });
}

/// An answer is told as what it is, and an error by its own words.
pub proof fn answers_are_told<T: View>(v: T, e: String)
    ensures
        stamp::told(Ok::<T, String>(v)) == Ok::<T::V, Seq<char>>(v@),
        stamp::told(Err::<T, String>(e)) == Err::<T::V, Seq<char>>(e@),
{
}

/// The names of an object come in the order of their bytes, each once, and all of them.
pub proof fn names_come_in_byte_order(m: Map<Seq<char>, Json>, i: int, j: int, name: Seq<char>)
    requires
        m.dom().finite(),
    ensures
        ({
            let keys = json::sorted_keys(m);
            &&& 0 <= i < j < keys.len() ==> bytes_come_before(
                vstd::utf8::encode_utf8(keys[i]),
                vstd::utf8::encode_utf8(keys[j]),
            )
            &&& 0 <= i < keys.len() ==> m.contains_key(keys[i])
            &&& m.contains_key(name) ==> exists|k: int| 0 <= k < keys.len() && keys[k] == name
        }),
{
    let keys = json::sorted_keys(m);
    json::names_can_be_listed(m);
    if 0 <= i < j < keys.len() {
        assert(text::less(keys[i], keys[j]));
        dictionary_order(vstd::utf8::encode_utf8(keys[i]), vstd::utf8::encode_utf8(keys[j]));
    }
    if 0 <= i < keys.len() {
        assert(keys.contains(keys[i]));
    }
    if m.contains_key(name) {
        assert(keys.contains(name));
    }
}

} // verus!
