//! What rows merge to, in the plainest words: which rows merge, and what each field of the merged row is.

use crate::convergence;
use crate::json;
use crate::json::Json;
use crate::naming;
use crate::reading;
use crate::stamp;
use crate::wire;
use vstd::prelude::*;

verus! {

/// Whether a value is a field of a record or of a setting: it has a value and a stamp.
pub open spec fn is_field(v: Json) -> bool {
    &&& v is Object
    &&& v->Object_0.contains_key("value"@)
    &&& reading::is_stamp(v.at("at"@))
}

/// Whether a value is a position: how much of which viewing, when, and the seconds where they are known.
pub open spec fn is_position(v: Json) -> bool {
    &&& reading::is_amount(v.at("value"@))
    &&& reading::is_whole(v.at("viewing"@))
    &&& reading::is_stamp(v.at("at"@))
    &&& v.at("seconds"@) == Json::Null || reading::is_amount(v.at("seconds"@))
}

/// Whether a whole number fits 64 bits, as every one in JSON does that was read.
pub open spec fn fits(v: Json) -> bool {
    v is Int ==> i64::MIN <= v->Int_0 <= u64::MAX
}

/// Whether a row can merge as a record.
pub open spec fn is_record(row: Json) -> bool {
    &&& reading::names_record(row)
    &&& is_field(row.at("status"@))
    &&& is_field(row.at("reaction"@))
    &&& is_field(row.at("deleted"@))
    &&& is_field(row.at("dismissed"@))
    &&& is_position(row.at("resume"@))
    &&& row.at("episodesReset"@) == Json::Null || reading::is_stamp(row.at("episodesReset"@))
    &&& reading::is_time(row.at("addedAt"@))
    &&& row.at("watchedAt"@) == Json::Null || reading::is_time(row.at("watchedAt"@))
}

/// Whether a row can merge as an episode.
pub open spec fn is_episode(row: Json) -> bool {
    &&& reading::names_episode(row)
    &&& is_position(row.at("progress"@))
}

/// Whether a row can merge as a setting, but for the values that it shares with another.
pub open spec fn is_setting(row: Json) -> bool {
    &&& reading::names_setting(row)
    &&& row.at("values"@) is Object
    &&& forall|k: Seq<char>| #[trigger]
        row.at("values"@)->Object_0.contains_key(k) ==> reading::is_stamp(
            row.at("values"@)->Object_0[k].at("at"@),
        )
}

/// The place of a position's seconds among the numbers: of minus one, where they are not known.
pub open spec fn seconds_level(v: Json) -> int {
    if v.at("seconds"@) == Json::Null {
        -0x3ff0_0000_0000_0000
    } else {
        reading::level(v.at("seconds"@))
    }
}

/// Whether the second of two positions is further: by the viewing, then by how much, then by the stamp, then by
/// the seconds.
pub open spec fn is_further(a: Json, b: Json) -> bool {
    let (m, n) = (a.at("viewing"@)->Int_0, b.at("viewing"@)->Int_0);
    let (x, y) = (reading::level(a.at("value"@)), reading::level(b.at("value"@)));
    let (s, t) = (reading::moment(a.at("at"@)), reading::moment(b.at("at"@)));
    if m != n {
        m < n
    } else if x != y {
        x < y
    } else if s != t {
        s.before(t)
    } else {
        seconds_level(a) < seconds_level(b)
    }
}

/// The second of two fields where it was written later, else the first.
pub open spec fn later(a: Json, b: Json) -> Json {
    if reading::moment(a.at("at"@)).before(reading::moment(b.at("at"@))) {
        b
    } else {
        a
    }
}

/// The second of two positions where it is further, else the first.
pub open spec fn furthest(a: Json, b: Json) -> Json {
    if is_further(a, b) {
        b
    } else {
        a
    }
}

/// The lesser of two whole numbers.
pub open spec fn lesser(a: Json, b: Json) -> Json {
    if a->Int_0 <= b->Int_0 {
        a
    } else {
        b
    }
}

/// The greater of two whole numbers.
pub open spec fn greater(a: Json, b: Json) -> Json {
    if a->Int_0 >= b->Int_0 {
        a
    } else {
        b
    }
}

/// Of two fields the later stands, and of two written at one moment the first. Two that are fields never fail.
pub proof fn the_later_field_stands(a: Json, b: Json)
    ensures
        wire::later_of(a, b) is Ok <==> is_field(a) && is_field(b),
        is_field(a) && is_field(b) ==> wire::later_of(a, b) == Ok::<Json, Seq<char>>(later(a, b)),
        wire::later_of(a, b) matches Err(e) ==> e == (if !(a is Object) {
            "invalid_row"@
        } else if !a->Object_0.contains_key("value"@) {
            "invalid_value"@
        } else if !(b is Object) {
            "invalid_row"@
        } else if !b->Object_0.contains_key("value"@) {
            "invalid_value"@
        } else if !reading::is_stamp(b.at("at"@)) {
            stamp::read(b.at("at"@))->Err_0
        } else {
            stamp::read(a.at("at"@))->Err_0
        }),
{
    reading::stamps_are_read(a.at("at"@));
    reading::stamps_are_read(b.at("at"@));
}

/// Of two positions the further stands, and of two that are equally far the first. Two that are positions
/// never fail.
pub proof fn the_further_position_stands(a: Json, b: Json)
    requires
        fits(a.at("value"@)),
        fits(b.at("value"@)),
        fits(a.at("seconds"@)),
        fits(b.at("seconds"@)),
    ensures
        wire::furthest_of(a, b) is Ok <==> is_position(a) && is_position(b),
        is_position(a) && is_position(b) ==> wire::furthest_of(a, b) == Ok::<Json, Seq<char>>(
            furthest(a, b),
        ),
        wire::furthest_of(a, b) matches Err(e) ==> e == (if !reading::is_amount(a.at("value"@))
            || !reading::is_amount(b.at("value"@)) {
            "invalid_progress"@
        } else if !reading::is_whole(a.at("viewing"@)) || !reading::is_whole(b.at("viewing"@)) {
            "invalid_integer"@
        } else if !reading::is_stamp(a.at("at"@)) {
            stamp::read(a.at("at"@))->Err_0
        } else if !reading::is_stamp(b.at("at"@)) {
            stamp::read(b.at("at"@))->Err_0
        } else {
            "invalid_progress"@
        }),
{
    reading::stamps_are_read(a.at("at"@));
    reading::stamps_are_read(b.at("at"@));
    reading::amounts_are_read(a.at("value"@));
    reading::amounts_are_read(b.at("value"@));
    reading::amounts_are_read(a.at("seconds"@));
    reading::amounts_are_read(b.at("seconds"@));
    reading::seconds_are_read(a);
    reading::seconds_are_read(b);
    reading::integers_are_read(a.at("viewing"@), a.at("viewing"@)->Int_0);
    reading::integers_are_read(b.at("viewing"@), b.at("viewing"@)->Int_0);
    stamp::moments_are_totally_ordered(
        reading::moment(a.at("at"@)),
        reading::moment(b.at("at"@)),
        reading::moment(a.at("at"@)),
    );
}

/// The kinds of row are told apart.
proof fn kinds_differ()
    ensures
        "rec"@ != "ep"@,
        "rec"@ != "set"@,
        "ep"@ != "set"@,
{
    reveal_strlit("rec");
    reveal_strlit("ep");
    reveal_strlit("set");
    assert("rec"@[0] != "ep"@[0] && "ep"@[0] != "set"@[0] && "set"@[0] != "rec"@[0]);
}

/// When two records merge: exactly when both are records, and of one title.
pub proof fn when_records_merge(a: Json, b: Json)
    requires
        a.at("kind"@) == Json::Text("rec"@),
        fits(a.at("resume"@).at("value"@)),
        fits(b.at("resume"@).at("value"@)),
        fits(a.at("resume"@).at("seconds"@)),
        fits(b.at("resume"@).at("seconds"@)),
    ensures
        wire::merged(a, b) is Ok <==> is_record(a) && is_record(b) && naming::one_thing(a, b),
{
    kinds_differ();
    reading::rows_with_names(a);
    reading::rows_with_names(b);
    if wire::identity(a) is Ok && wire::identity(b) is Ok {
        naming::one_thing_has_one_name(a, b);
    }
    the_later_field_stands(a.at("status"@), b.at("status"@));
    the_later_field_stands(a.at("reaction"@), b.at("reaction"@));
    the_later_field_stands(a.at("deleted"@), b.at("deleted"@));
    the_later_field_stands(a.at("dismissed"@), b.at("dismissed"@));
    the_further_position_stands(a.at("resume"@), b.at("resume"@));
    reading::times_are_read(a.at("addedAt"@), a.at("addedAt"@)->Int_0);
    reading::times_are_read(b.at("addedAt"@), b.at("addedAt"@)->Int_0);
    reading::times_are_read(a.at("watchedAt"@), a.at("watchedAt"@)->Int_0);
    reading::times_are_read(b.at("watchedAt"@), b.at("watchedAt"@)->Int_0);
    if b.at("kind"@) == Json::Text("rec"@) {
        stamps_of_a_record(a);
        stamps_of_a_record(b);
    }
}

/// A record is last written at some time exactly when every stamp of it is one.
proof fn stamps_of_a_record(row: Json)
    requires
        row.at("kind"@) == Json::Text("rec"@),
    ensures
        wire::newest_of(row) is Ok <==> {
            &&& reading::is_stamp(row.at("status"@).at("at"@))
            &&& reading::is_stamp(row.at("resume"@).at("at"@))
            &&& reading::is_stamp(row.at("reaction"@).at("at"@))
            &&& reading::is_stamp(row.at("deleted"@).at("at"@))
            &&& reading::is_stamp(row.at("dismissed"@).at("at"@))
            &&& row.at("episodesReset"@) == Json::Null || reading::is_stamp(row.at("episodesReset"@))
        },
{
    let stamps = wire::record_stamps(row);
    reading::the_latest_is_the_last(stamps);
    if wire::newest_of(row) is Ok {
        assert(reading::is_stamp(stamps[0]) && reading::is_stamp(stamps[1]));
        assert(reading::is_stamp(stamps[2]) && reading::is_stamp(stamps[3]));
        assert(reading::is_stamp(stamps[4]));
        if row.at("episodesReset"@) != Json::Null {
            assert(reading::is_stamp(stamps[5]));
        }
    } else {
        let i = choose|i: int| 0 <= i < stamps.len() && !reading::is_stamp(#[trigger] stamps[i]);
        assert(i == 0 || i == 1 || i == 2 || i == 3 || i == 4 || i == 5);
    }
}

/// What two records merge to. Of status, reaction, deletion and dismissal the later stands, of the resume
/// position the further one; the later reset of the episodes, where there is one; the earlier time of adding,
/// and of watching where there is one; and the greater schema.
pub proof fn what_records_merge_to(a: Json, b: Json)
    requires
        is_record(a),
        is_record(b),
        naming::one_thing(a, b),
    ensures
        wire::merged(a, b) is Ok,
        ({
            let m = wire::merged(a, b)->Ok_0;
            let (r, s) = (a.at("episodesReset"@), b.at("episodesReset"@));
            let (v, w) = (a.at("watchedAt"@), b.at("watchedAt"@));
            &&& m is Object
            &&& m.at("schema"@) == greater(a.at("schema"@), b.at("schema"@))
            &&& m.at("status"@) == later(a.at("status"@), b.at("status"@))
            &&& m.at("reaction"@) == later(a.at("reaction"@), b.at("reaction"@))
            &&& m.at("deleted"@) == later(a.at("deleted"@), b.at("deleted"@))
            &&& m.at("dismissed"@) == later(a.at("dismissed"@), b.at("dismissed"@))
            &&& m.at("resume"@) == furthest(a.at("resume"@), b.at("resume"@))
            &&& m.at("addedAt"@) == lesser(a.at("addedAt"@), b.at("addedAt"@))
            &&& m.at("watchedAt"@) == if v == Json::Null {
                w
            } else if w == Json::Null {
                v
            } else {
                lesser(v, w)
            }
            &&& m.at("episodesReset"@) == if r == Json::Null {
                s
            } else if s == Json::Null || reading::moment(s).before(reading::moment(r)) {
                r
            } else {
                s
            }
            &&& m->Object_0.contains_key("watchedAt"@)
            &&& m->Object_0.contains_key("episodesReset"@)
        }),
{
    kinds_differ();
    when_records_merge(a, b);
    convergence::merged_record_fields(a, b);
    the_later_field_stands(a.at("status"@), b.at("status"@));
    the_later_field_stands(a.at("reaction"@), b.at("reaction"@));
    the_later_field_stands(a.at("deleted"@), b.at("deleted"@));
    the_later_field_stands(a.at("dismissed"@), b.at("dismissed"@));
    the_further_position_stands(a.at("resume"@), b.at("resume"@));
    reading::times_are_read(a.at("addedAt"@), a.at("addedAt"@)->Int_0);
    reading::times_are_read(b.at("addedAt"@), b.at("addedAt"@)->Int_0);
    reading::times_are_read(a.at("watchedAt"@), a.at("watchedAt"@)->Int_0);
    reading::times_are_read(b.at("watchedAt"@), b.at("watchedAt"@)->Int_0);
    reading::integers_are_read(a.at("schema"@), a.at("schema"@)->Int_0);
    reading::integers_are_read(b.at("schema"@), b.at("schema"@)->Int_0);
    let (r, s) = (a.at("episodesReset"@), b.at("episodesReset"@));
    if r != Json::Null && s != Json::Null {
        reading::stamps_are_read(r);
        reading::stamps_are_read(s);
        let (x, y) = (reading::moment(r), reading::moment(s));
        stamp::moments_are_totally_ordered(x, y, x);
        assert(stamp::stamp_json(x)->List_0 =~= r->List_0);
        assert(stamp::stamp_json(y)->List_0 =~= s->List_0);
    }
}

/// When two episodes merge, exactly, and what to: the further progress and the greater schema.
pub proof fn what_episodes_merge_to(a: Json, b: Json)
    requires
        a.at("kind"@) == Json::Text("ep"@),
        fits(a.at("progress"@).at("value"@)),
        fits(b.at("progress"@).at("value"@)),
        fits(a.at("progress"@).at("seconds"@)),
        fits(b.at("progress"@).at("seconds"@)),
    ensures
        wire::merged(a, b) is Ok <==> is_episode(a) && is_episode(b) && naming::one_thing(a, b),
        wire::merged(a, b) matches Ok(m) ==> {
            &&& m is Object
            &&& m.at("schema"@) == greater(a.at("schema"@), b.at("schema"@))
            &&& m.at("progress"@) == furthest(a.at("progress"@), b.at("progress"@))
        },
{
    kinds_differ();
    reading::rows_with_names(a);
    reading::rows_with_names(b);
    if wire::identity(a) is Ok && wire::identity(b) is Ok {
        naming::one_thing_has_one_name(a, b);
    }
    the_further_position_stands(a.at("progress"@), b.at("progress"@));
    let x = seq![a.at("progress"@).at("at"@)];
    let y = seq![b.at("progress"@).at("at"@)];
    reading::the_latest_is_the_last(x);
    reading::the_latest_is_the_last(y);
    assert(x[0] == a.at("progress"@).at("at"@) && y[0] == b.at("progress"@).at("at"@));
    if wire::merged(a, b) is Ok {
        convergence::merged_episode_fields(a, b);
        reading::integers_are_read(a.at("schema"@), a.at("schema"@)->Int_0);
        reading::integers_are_read(b.at("schema"@), b.at("schema"@)->Int_0);
    }
}

/// A setting is last written at some time exactly when each of its values is.
proof fn stamps_of_a_setting(row: Json)
    requires
        row.at("kind"@) == Json::Text("set"@),
        wire::values_of(row).dom().finite(),
    ensures
        wire::newest_of(row) is Ok <==> row.at("values"@) is Object && forall|k: Seq<char>| #[trigger]
            row.at("values"@)->Object_0.contains_key(k) ==> reading::is_stamp(
                row.at("values"@)->Object_0[k].at("at"@),
            ),
{
    kinds_differ();
    if row.at("values"@) is Object {
        let m = row.at("values"@)->Object_0;
        let keys = json::sorted_keys(m);
        let stamps = wire::setting_stamps(m);
        json::names_can_be_listed(m);
        reading::the_latest_is_the_last(stamps);
        if wire::newest_of(row) is Ok {
            assert forall|k: Seq<char>| #[trigger] m.contains_key(k) implies reading::is_stamp(
                m[k].at("at"@),
            ) by {
                assert(keys.contains(k));
                let i = choose|i: int| 0 <= i < keys.len() && keys[i] == k;
                assert(reading::is_stamp(stamps[i]));
            }
        } else {
            let i = choose|i: int| 0 <= i < stamps.len() && !reading::is_stamp(#[trigger] stamps[i]);
            assert(keys.contains(keys[i]));
            assert(m.contains_key(keys[i]));
        }
    }
}

/// When two settings merge, exactly, and what to: both have values, each with a stamp; of a value that both
/// have, each has one to give, and the later stands; what only one has stays.
pub proof fn what_settings_merge_to(a: Json, b: Json, k: Seq<char>)
    requires
        a.at("kind"@) == Json::Text("set"@),
        wire::values_of(a).dom().finite(),
        wire::values_of(b).dom().finite(),
    ensures
        ({
            let x = a.at("values"@)->Object_0;
            let y = b.at("values"@)->Object_0;
            &&& wire::merged(a, b) is Ok <==> is_setting(a) && is_setting(b) && naming::one_thing(a, b)
                && forall|n: Seq<char>| #[trigger]
                x.contains_key(n) && y.contains_key(n) ==> is_field(x[n]) && is_field(y[n])
            &&& wire::merged(a, b) matches Ok(m) ==> {
                let z = m.at("values"@)->Object_0;
                &&& m is Object
                &&& m.at("schema"@) == greater(a.at("schema"@), b.at("schema"@))
                &&& m.at("values"@) is Object
                &&& z.contains_key(k) <==> x.contains_key(k) || y.contains_key(k)
                &&& x.contains_key(k) && !y.contains_key(k) ==> z[k] == x[k]
                &&& !x.contains_key(k) && y.contains_key(k) ==> z[k] == y[k]
                &&& x.contains_key(k) && y.contains_key(k) ==> z[k] == later(x[k], y[k])
            }
        }),
{
    kinds_differ();
    reading::rows_with_names(a);
    reading::rows_with_names(b);
    if wire::identity(a) is Ok && wire::identity(b) is Ok {
        naming::one_thing_has_one_name(a, b);
    }
    stamps_of_a_setting(a);
    if b.at("kind"@) == Json::Text("set"@) {
        stamps_of_a_setting(b);
    }
    let x = wire::values_of(a);
    let y = wire::values_of(b);
    json::names_can_be_listed(y);
    let keys = json::sorted_keys(y);
    convergence::values_fault_is_some_value(keys, x, y);
    assert forall|n: Seq<char>| x.contains_key(n) && #[trigger] y.contains_key(
        n,
    ) implies (wire::later_fault(x[n], y[n]) is None <==> is_field(x[n]) && is_field(y[n])) by {
        the_later_field_stands(x[n], y[n]);
    }
    assert forall|n: Seq<char>| #[trigger] keys.contains(n) <==> y.contains_key(n) by {}
    if wire::merged(a, b) is Ok {
        convergence::merged_setting_fields(a, b);
        reading::integers_are_read(a.at("schema"@), a.at("schema"@)->Int_0);
        reading::integers_are_read(b.at("schema"@), b.at("schema"@)->Int_0);
        if x.contains_key(k) && y.contains_key(k) {
            the_later_field_stands(x[k], y[k]);
        }
        assert forall|n: Seq<char>| #[trigger] x.contains_key(n) && y.contains_key(n) implies is_field(
            x[n],
        ) && is_field(y[n]) by {
            assert(keys.contains(n));
        }
    } else if is_setting(a) && is_setting(b) && naming::one_thing(a, b) && forall|n: Seq<char>|
        #[trigger]
        x.contains_key(n) && y.contains_key(n) ==> is_field(x[n]) && is_field(y[n]) {
        assert forall|n: Seq<char>| #[trigger] keys.contains(n) && x.contains_key(
            n,
        ) implies wire::later_fault(x[n], y[n]) is None by {
            assert(x.contains_key(n) && y.contains_key(n));
        }
        assert(wire::values_fault(keys, x, y) is None);
    }
}

/// Why two rows do not merge, before any of their fields is looked at: one has no name, they are of different
/// things, or a stamp of one is none, the second's first.
pub proof fn why_rows_do_not_merge(a: Json, b: Json)
    ensures
        wire::identity(a) is Err ==> wire::merged(a, b) == Err::<Json, Seq<char>>(
            wire::identity(a)->Err_0,
        ),
        wire::identity(a) is Ok && wire::identity(b) is Err ==> wire::merged(a, b) == Err::<
            Json,
            Seq<char>,
        >(wire::identity(b)->Err_0),
        wire::identity(a) is Ok && wire::identity(b) is Ok && !naming::one_thing(a, b)
            ==> wire::merged(a, b) == Err::<Json, Seq<char>>("identity_mismatch"@),
        wire::identity(a) is Ok && wire::identity(b) is Ok && naming::one_thing(a, b)
            && wire::newest_of(b) is Err ==> wire::merged(a, b) == Err::<Json, Seq<char>>(
            wire::newest_of(b)->Err_0,
        ),
        wire::identity(a) is Ok && wire::identity(b) is Ok && naming::one_thing(a, b)
            && wire::newest_of(b) is Ok && wire::newest_of(a) is Err ==> wire::merged(a, b) == Err::<
            Json,
            Seq<char>,
        >(wire::newest_of(a)->Err_0),
{
    if wire::identity(a) is Ok && wire::identity(b) is Ok {
        naming::one_thing_has_one_name(a, b);
    }
}

/// Why two records of one title with stamps do not merge: the first field that is wrong tells, in the order
/// status, reaction, deletion, dismissal, resume position, time of adding, time of watching.
pub proof fn why_records_do_not_merge(a: Json, b: Json)
    requires
        reading::names_record(a),
        reading::names_record(b),
        naming::one_thing(a, b),
        wire::newest_of(a) is Ok,
        wire::newest_of(b) is Ok,
        fits(a.at("resume"@).at("value"@)),
        fits(b.at("resume"@).at("value"@)),
        fits(a.at("resume"@).at("seconds"@)),
        fits(b.at("resume"@).at("seconds"@)),
    ensures
        wire::merged(a, b) matches Err(e) ==> e == (if !is_field(a.at("status"@)) || !is_field(
            b.at("status"@),
        ) {
            wire::later_of(a.at("status"@), b.at("status"@))->Err_0
        } else if !is_field(a.at("reaction"@)) || !is_field(b.at("reaction"@)) {
            wire::later_of(a.at("reaction"@), b.at("reaction"@))->Err_0
        } else if !is_field(a.at("deleted"@)) || !is_field(b.at("deleted"@)) {
            wire::later_of(a.at("deleted"@), b.at("deleted"@))->Err_0
        } else if !is_field(a.at("dismissed"@)) || !is_field(b.at("dismissed"@)) {
            wire::later_of(a.at("dismissed"@), b.at("dismissed"@))->Err_0
        } else if !is_position(a.at("resume"@)) || !is_position(b.at("resume"@)) {
            wire::furthest_of(a.at("resume"@), b.at("resume"@))->Err_0
        } else {
            "invalid_time"@
        }),
{
    kinds_differ();
    reading::rows_with_names(a);
    reading::rows_with_names(b);
    naming::one_thing_has_one_name(a, b);
    the_later_field_stands(a.at("status"@), b.at("status"@));
    the_later_field_stands(a.at("reaction"@), b.at("reaction"@));
    the_later_field_stands(a.at("deleted"@), b.at("deleted"@));
    the_later_field_stands(a.at("dismissed"@), b.at("dismissed"@));
    the_further_position_stands(a.at("resume"@), b.at("resume"@));
}

/// Why two rows of one episode with stamps do not merge: their progress is no position.
pub proof fn why_episodes_do_not_merge(a: Json, b: Json)
    requires
        reading::names_episode(a),
        reading::names_episode(b),
        naming::one_thing(a, b),
        wire::newest_of(a) is Ok,
        wire::newest_of(b) is Ok,
    ensures
        wire::merged(a, b) matches Err(e) ==> wire::furthest_of(a.at("progress"@), b.at("progress"@))
            == Err::<Json, Seq<char>>(e),
{
    kinds_differ();
    reading::rows_with_names(a);
    reading::rows_with_names(b);
    naming::one_thing_has_one_name(a, b);
}

/// The first value that is wrong tells, and those before it do not.
proof fn the_first_wrong_value_tells(
    keys: Seq<Seq<char>>,
    a: Map<Seq<char>, Json>,
    b: Map<Seq<char>, Json>,
    i: int,
)
    requires
        0 <= i < keys.len(),
        a.contains_key(keys[i]),
        wire::later_fault(a[keys[i]], b[keys[i]]) is Some,
        forall|j: int|
            0 <= j < i && a.contains_key(#[trigger] keys[j]) ==> wire::later_fault(
                a[keys[j]],
                b[keys[j]],
            ) is None,
    ensures
        wire::values_fault(keys, a, b) == wire::later_fault(a[keys[i]], b[keys[i]]),
    decreases keys.len(),
{
    let front = keys.drop_last();
    if i < front.len() {
        assert(front[i] == keys[i]);
        assert forall|j: int| 0 <= j < i && a.contains_key(
            #[trigger] front[j],
        ) implies wire::later_fault(a[front[j]], b[front[j]]) is None by {
            assert(front[j] == keys[j]);
        }
        the_first_wrong_value_tells(front, a, b, i);
    } else {
        convergence::values_fault_is_some_value(front, a, b);
        assert forall|k: Seq<char>| #[trigger] front.contains(k) && a.contains_key(
            k,
        ) implies wire::later_fault(a[k], b[k]) is None by {
            let j = choose|j: int| 0 <= j < front.len() && front[j] == k;
            assert(keys[j] == k);
        }
    }
}

/// Why two rows of one setting with stamps do not merge: of the values that both have, the first in the order
/// of the names that is no field in one of them tells.
pub proof fn why_settings_do_not_merge(a: Json, b: Json, i: int)
    requires
        is_setting(a),
        is_setting(b),
        naming::one_thing(a, b),
        wire::values_of(a).dom().finite(),
        wire::values_of(b).dom().finite(),
        ({
            let x = a.at("values"@)->Object_0;
            let y = b.at("values"@)->Object_0;
            let keys = json::sorted_keys(y);
            &&& 0 <= i < keys.len()
            &&& x.contains_key(keys[i])
            &&& !is_field(x[keys[i]]) || !is_field(y[keys[i]])
            &&& forall|j: int|
                0 <= j < i && x.contains_key(#[trigger] keys[j]) ==> is_field(x[keys[j]]) && is_field(
                    y[keys[j]],
                )
        }),
    ensures
        ({
            let x = a.at("values"@)->Object_0;
            let y = b.at("values"@)->Object_0;
            let k = json::sorted_keys(y)[i];
            wire::merged(a, b) == Err::<Json, Seq<char>>(wire::later_of(x[k], y[k])->Err_0)
        }),
{
    kinds_differ();
    reading::rows_with_names(a);
    reading::rows_with_names(b);
    naming::one_thing_has_one_name(a, b);
    stamps_of_a_setting(a);
    stamps_of_a_setting(b);
    let x = wire::values_of(a);
    let y = wire::values_of(b);
    let keys = json::sorted_keys(y);
    the_later_field_stands(x[keys[i]], y[keys[i]]);
    assert forall|j: int| 0 <= j < i && x.contains_key(#[trigger] keys[j]) implies wire::later_fault(
        x[keys[j]],
        y[keys[j]],
    ) is None by {
        the_later_field_stands(x[keys[j]], y[keys[j]]);
    }
    the_first_wrong_value_tells(keys, x, y, i);
}

} // verus!
