//! What merging rows promises: devices that hold the same rows come to hold the same row.

use crate::json;
use crate::json::Json;
use crate::stamp;
use crate::wire;
use crate::wire::Place;
use vstd::prelude::*;

verus! {

/// The order of places is a strict total order.
pub proof fn places_are_totally_ordered(a: Place, b: Place, c: Place)
    ensures
        !a.behind(a),
        a != b ==> (a.behind(b) <==> !b.behind(a)),
        a.behind(b) && b.behind(c) ==> a.behind(c),
{
    stamp::moments_are_totally_ordered(a.at, b.at, c.at);
}

/// Whether a clear winner of two fields is there: they were not written at one moment, or are the same.
pub open spec fn settled(a: Json, b: Json) -> bool {
    wire::written(a) == wire::written(b) ==> a == b
}

/// Whether a clear winner of two positions is there: they are not equally far, or are the same.
pub open spec fn apart(a: Json, b: Json) -> bool {
    wire::place(a) == wire::place(b) ==> a == b
}

/// The later of two fields does not depend on which comes first, if a clear winner is there.
pub proof fn later_commutes(a: Json, b: Json)
    requires
        settled(a, b),
    ensures
        wire::later_of(a, b) is Ok <==> wire::later_of(b, a) is Ok,
        wire::later_of(a, b) is Ok ==> wire::later_of(a, b) == wire::later_of(b, a),
{
    stamp::moments_are_totally_ordered(wire::written(a), wire::written(b), wire::written(a));
}

/// The further of two positions does not depend on which comes first, if a clear winner is there.
pub proof fn furthest_commutes(a: Json, b: Json)
    requires
        apart(a, b),
    ensures
        wire::furthest_of(a, b) is Ok <==> wire::furthest_of(b, a) is Ok,
        wire::furthest_of(a, b) is Ok ==> wire::furthest_of(a, b) == wire::furthest_of(b, a),
{
    places_are_totally_ordered(wire::place(a), wire::place(b), wire::place(a));
}

/// The latest of three fields does not depend on which two meet first.
pub proof fn later_is_associative(a: Json, b: Json, c: Json)
    requires
        wire::later_of(a, b) is Ok,
        wire::later_of(b, c) is Ok,
    ensures
        wire::later_of(wire::later_of(a, b)->Ok_0, c) == wire::later_of(a, wire::later_of(b, c)->Ok_0),
        wire::later_of(a, wire::later_of(b, c)->Ok_0) is Ok,
{
    stamp::moments_are_totally_ordered(wire::written(a), wire::written(b), wire::written(c));
    stamp::moments_are_totally_ordered(wire::written(b), wire::written(a), wire::written(c));
    stamp::moments_are_totally_ordered(wire::written(a), wire::written(c), wire::written(b));
    stamp::moments_are_totally_ordered(wire::written(b), wire::written(c), wire::written(a));
    stamp::moments_are_totally_ordered(wire::written(c), wire::written(b), wire::written(a));
}

/// The furthest of three positions does not depend on which two meet first.
pub proof fn furthest_is_associative(a: Json, b: Json, c: Json)
    requires
        wire::furthest_of(a, b) is Ok,
        wire::furthest_of(b, c) is Ok,
    ensures
        wire::furthest_of(wire::furthest_of(a, b)->Ok_0, c) == wire::furthest_of(
            a,
            wire::furthest_of(b, c)->Ok_0,
        ),
        wire::furthest_of(a, wire::furthest_of(b, c)->Ok_0) is Ok,
{
    places_are_totally_ordered(wire::place(a), wire::place(b), wire::place(c));
    places_are_totally_ordered(wire::place(b), wire::place(a), wire::place(c));
    places_are_totally_ordered(wire::place(a), wire::place(c), wire::place(b));
    places_are_totally_ordered(wire::place(b), wire::place(c), wire::place(a));
    places_are_totally_ordered(wire::place(c), wire::place(b), wire::place(a));
}

/// A higher viewing wins, however far the lower one got and whenever it was written: starting over is not
/// outvoted by what was watched before.
pub proof fn a_higher_viewing_wins(a: Json, b: Json)
    requires
        wire::furthest_of(a, b) is Ok,
        wire::place(a).viewing < wire::place(b).viewing,
    ensures
        wire::furthest_of(a, b) == Ok::<Json, Seq<char>>(b),
        wire::furthest_of(b, a) == Ok::<Json, Seq<char>>(b),
{
}

/// Of two zeros, whatever their signs, the newer wins.
pub proof fn a_newer_zero_wins(a: Json, b: Json)
    requires
        wire::furthest_of(a, b) is Ok,
        wire::place(a).viewing == wire::place(b).viewing,
        wire::number_of(a.at("value"@))->Ok_0.magnitude() == 0,
        wire::number_of(b.at("value"@))->Ok_0.magnitude() == 0,
        wire::written(a).before(wire::written(b)),
    ensures
        wire::furthest_of(a, b) == Ok::<Json, Seq<char>>(b),
        wire::furthest_of(b, a) == Ok::<Json, Seq<char>>(b),
{
    stamp::moments_are_totally_ordered(wire::written(a), wire::written(b), wire::written(a));
}

/// The names of the fields of a kind of row that go by rules of their own when two rows merge.
pub open spec fn ruled(kind: Json, field: Seq<char>) -> bool {
    ||| field == "schema"@
    ||| kind == Json::Text("rec"@) && (field == "status"@ || field == "reaction"@ || field
        == "deleted"@ || field == "dismissed"@ || field == "resume"@ || field == "episodesReset"@
        || field == "addedAt"@ || field == "watchedAt"@)
    ||| kind == Json::Text("ep"@) && field == "progress"@
    ||| kind == Json::Text("set"@) && field == "values"@
}

/// No field is lost, and fields that no rule speaks of survive: what either row says is said by the merged
/// one, in the words of the row last written where both speak, and of the first if both were last written
/// at one moment.
pub proof fn unruled_fields_survive(a: Json, b: Json, field: Seq<char>)
    requires
        wire::merged(a, b) is Ok,
        !ruled(a.at("kind"@), field),
    ensures
        ({
            let out = wire::merged(a, b)->Ok_0->Object_0;
            let (older, newer) = if wire::newest_of(a)->Ok_0.before(wire::newest_of(b)->Ok_0) {
                (a->Object_0, b->Object_0)
            } else {
                (b->Object_0, a->Object_0)
            };
            &&& out.contains_key(field) <==> older.contains_key(field) || newer.contains_key(field)
            &&& newer.contains_key(field) ==> out[field] == newer[field]
            &&& older.contains_key(field) && !newer.contains_key(field) ==> out[field]
                == older[field]
        }),
{
    wire::kinds_agree(a, b);
}

/// A row that either side has under a name stays there.
pub proof fn no_field_is_lost(a: Json, b: Json, field: Seq<char>)
    requires
        wire::merged(a, b) is Ok,
        a->Object_0.contains_key(field) || b->Object_0.contains_key(field),
    ensures
        wire::merged(a, b)->Ok_0->Object_0.contains_key(field),
{
    wire::kinds_agree(a, b);
}

/// Values raise an error only where a shared one does.
pub proof fn values_fault_is_some_value(
    keys: Seq<Seq<char>>,
    a: Map<Seq<char>, Json>,
    b: Map<Seq<char>, Json>,
)
    ensures
        wire::values_fault(keys, a, b) is None <==> forall|k: Seq<char>| #[trigger]
            keys.contains(k) && a.contains_key(k) ==> wire::later_fault(a[k], b[k]) is None,
    decreases keys.len(),
{
    if keys.len() > 0 {
        let front = keys.drop_last();
        values_fault_is_some_value(front, a, b);
        assert forall|k: Seq<char>| #[trigger] keys.contains(k) <==> front.contains(k) || k
            == keys.last() by {
            if front.contains(k) {
                let i = choose|i: int| 0 <= i < front.len() && front[i] == k;
                assert(keys[i] == k);
            }
            if keys.contains(k) && k != keys.last() {
                let i = choose|i: int| 0 <= i < keys.len() && keys[i] == k;
                assert(front[i] == k);
            }
        }
        if wire::values_fault(keys, a, b) is None {
            assert forall|k: Seq<char>| #[trigger] keys.contains(k) && a.contains_key(
                k,
            ) implies wire::later_fault(a[k], b[k]) is None by {
                assert(front.contains(k) || k == keys.last());
            }
        }
        if forall|k: Seq<char>| #[trigger]
            keys.contains(k) && a.contains_key(k) ==> wire::later_fault(a[k], b[k]) is None {
            assert(keys.contains(keys.last()));
            assert forall|k: Seq<char>| #[trigger] front.contains(k) && a.contains_key(
                k,
            ) implies wire::later_fault(a[k], b[k]) is None by {
                assert(keys.contains(k));
            }
        }
    }
}

/// The values that two settings share raise an error from either side, or from none.
proof fn values_faults_are_mutual(a: Map<Seq<char>, Json>, b: Map<Seq<char>, Json>)
    requires
        a.dom().finite(),
        b.dom().finite(),
    ensures
        wire::values_fault(json::sorted_keys(b), a, b) is None <==> wire::values_fault(
            json::sorted_keys(a),
            b,
            a,
        ) is None,
{
    let ka = json::sorted_keys(a);
    let kb = json::sorted_keys(b);
    json::names_can_be_listed(a);
    json::names_can_be_listed(b);
    values_fault_is_some_value(kb, a, b);
    values_fault_is_some_value(ka, b, a);
    if wire::values_fault(kb, a, b) is None {
        assert forall|k: Seq<char>| #[trigger] ka.contains(k) && b.contains_key(
            k,
        ) implies wire::later_fault(b[k], a[k]) is None by {
            assert(a.contains_key(k));
            assert(kb.contains(k));
        }
    }
    if wire::values_fault(ka, b, a) is None {
        assert forall|k: Seq<char>| #[trigger] kb.contains(k) && a.contains_key(
            k,
        ) implies wire::later_fault(a[k], b[k]) is None by {
            assert(b.contains_key(k));
            assert(ka.contains(k));
        }
    }
}

/// Two rows merge whichever comes first, or are refused whichever comes first.
pub proof fn refusals_are_mutual(a: Json, b: Json)
    requires
        wire::values_of(a).dom().finite(),
        wire::values_of(b).dom().finite(),
    ensures
        wire::merged(a, b) is Ok <==> wire::merged(b, a) is Ok,
{
    if wire::merge_fault(a, b) is None {
        wire::kinds_agree(a, b);
        values_faults_are_mutual(wire::values_of(a), wire::values_of(b));
    }
}

/// Whether the fields of two rows leave no doubt which of them wins.
pub open spec fn clear_winners(a: Json, b: Json) -> bool {
    &&& a.at("kind"@) == Json::Text("rec"@) ==> {
        &&& settled(a.at("status"@), b.at("status"@))
        &&& settled(a.at("reaction"@), b.at("reaction"@))
        &&& settled(a.at("deleted"@), b.at("deleted"@))
        &&& settled(a.at("dismissed"@), b.at("dismissed"@))
        &&& apart(a.at("resume"@), b.at("resume"@))
    }
    &&& a.at("kind"@) == Json::Text("ep"@) ==> apart(a.at("progress"@), b.at("progress"@))
    &&& a.at("kind"@) == Json::Text("set"@) ==> forall|k: Seq<char>| #[trigger]
        wire::values_of(a).contains_key(k) && wire::values_of(b).contains_key(k) ==> settled(
            wire::values_of(a)[k],
            wire::values_of(b)[k],
        )
    &&& wire::newest_of(a) == wire::newest_of(b) ==> forall|k: Seq<char>| #[trigger]
        a->Object_0.contains_key(k) && b->Object_0.contains_key(k) && !ruled(a.at("kind"@), k)
            ==> a->Object_0[k] == b->Object_0[k]
}

/// Two devices that merge the same two rows, in whatever order, hold the same row after, unless two edits
/// at one moment disagree.
pub proof fn merging_commutes(a: Json, b: Json)
    requires
        wire::values_of(a).dom().finite(),
        wire::values_of(b).dom().finite(),
        wire::merged(a, b) is Ok,
        clear_winners(a, b),
    ensures
        wire::merged(a, b) == wire::merged(b, a),
{
    refusals_are_mutual(a, b);
    wire::kinds_agree(a, b);
    let x = wire::newest_of(a)->Ok_0;
    let y = wire::newest_of(b)->Ok_0;
    stamp::moments_are_totally_ordered(x, y, x);
    let kind = a.at("kind"@);
    let p = wire::merged(a, b)->Ok_0->Object_0;
    let q = wire::merged(b, a)->Ok_0->Object_0;
    if kind == Json::Text("rec"@) {
        later_commutes(a.at("status"@), b.at("status"@));
        later_commutes(a.at("reaction"@), b.at("reaction"@));
        later_commutes(a.at("deleted"@), b.at("deleted"@));
        later_commutes(a.at("dismissed"@), b.at("dismissed"@));
        furthest_commutes(a.at("resume"@), b.at("resume"@));
        stamp::moments_are_totally_ordered(
            stamp::read(a.at("episodesReset"@))->Ok_0,
            stamp::read(b.at("episodesReset"@))->Ok_0,
            x,
        );
    } else if kind == Json::Text("ep"@) {
        furthest_commutes(a.at("progress"@), b.at("progress"@));
    } else {
        let va = wire::values_of(a);
        let vb = wire::values_of(b);
        json::names_can_be_listed(vb);
        values_fault_is_some_value(json::sorted_keys(vb), va, vb);
        assert forall|k: Seq<char>| va.contains_key(k) && vb.contains_key(k) implies wire::later_of(
            va[k],
            vb[k],
        ) == wire::later_of(vb[k], va[k]) by {
            assert(json::sorted_keys(vb).contains(k));
            later_commutes(va[k], vb[k]);
        }
        assert(wire::merged_values(va, vb) =~= wire::merged_values(vb, va));
    }
    reveal_strlit("rec");
    reveal_strlit("ep");
    reveal_strlit("set");
    assert("rec"@[0] != "ep"@[0] && "ep"@[0] != "set"@[0] && "set"@[0] != "rec"@[0]);
    assert(wire::greater_schema(a, b) == wire::greater_schema(b, a));
    assert forall|k: Seq<char>| p.contains_key(k) <==> q.contains_key(k) by {
        if !ruled(kind, k) {
            unruled_fields_survive(a, b, k);
            unruled_fields_survive(b, a, k);
        }
    }
    assert forall|k: Seq<char>| p.contains_key(k) implies p[k] == q[k] by {
        if !ruled(kind, k) {
            unruled_fields_survive(a, b, k);
            unruled_fields_survive(b, a, k);
        }
    }
    assert(p =~= q);
}

/// What a merged record says of the fields that go by rules.
pub proof fn merged_record_fields(a: Json, b: Json)
    requires
        wire::merged(a, b) is Ok,
        a.at("kind"@) == Json::Text("rec"@),
    ensures
        ({
            let m = wire::merged(a, b)->Ok_0;
            &&& m.at("schema"@) == wire::greater_schema(a, b)
            &&& Ok::<Json, Seq<char>>(m.at("status"@)) == wire::later_of(a.at("status"@), b.at("status"@))
            &&& Ok::<Json, Seq<char>>(m.at("reaction"@)) == wire::later_of(
                a.at("reaction"@),
                b.at("reaction"@),
            )
            &&& Ok::<Json, Seq<char>>(m.at("deleted"@)) == wire::later_of(
                a.at("deleted"@),
                b.at("deleted"@),
            )
            &&& Ok::<Json, Seq<char>>(m.at("dismissed"@)) == wire::later_of(
                a.at("dismissed"@),
                b.at("dismissed"@),
            )
            &&& Ok::<Json, Seq<char>>(m.at("resume"@)) == wire::furthest_of(
                a.at("resume"@),
                b.at("resume"@),
            )
            &&& m.at("episodesReset"@) == wire::later_reset(a, b)
            &&& Ok::<Json, Seq<char>>(m.at("addedAt"@)) == wire::earlier_time(
                a.at("addedAt"@),
                b.at("addedAt"@),
            )
            &&& Ok::<Json, Seq<char>>(m.at("watchedAt"@)) == wire::earlier_watch(
                a.at("watchedAt"@),
                b.at("watchedAt"@),
            )
        }),
{
    wire::field_names_differ();
}

/// What a merged episode says of the fields that go by rules.
pub proof fn merged_episode_fields(a: Json, b: Json)
    requires
        wire::merged(a, b) is Ok,
        a.at("kind"@) == Json::Text("ep"@),
    ensures
        ({
            let m = wire::merged(a, b)->Ok_0;
            &&& m.at("schema"@) == wire::greater_schema(a, b)
            &&& Ok::<Json, Seq<char>>(m.at("progress"@)) == wire::furthest_of(
                a.at("progress"@),
                b.at("progress"@),
            )
        }),
{
    wire::field_names_differ();
    reveal_strlit("ep");
    reveal_strlit("rec");
    assert("ep"@.len() != "rec"@.len());
}

/// What a merged setting says of the fields that go by rules.
pub proof fn merged_setting_fields(a: Json, b: Json)
    requires
        wire::merged(a, b) is Ok,
        a.at("kind"@) == Json::Text("set"@),
    ensures
        ({
            let m = wire::merged(a, b)->Ok_0;
            &&& m.at("schema"@) == wire::greater_schema(a, b)
            &&& m.at("values"@) == Json::Object(wire::merged_values(wire::values_of(a), wire::values_of(b)))
        }),
{
    wire::field_names_differ();
    reveal_strlit("ep");
    reveal_strlit("rec");
    reveal_strlit("set");
    assert("ep"@[0] != "set"@[0] && "rec"@[0] != "set"@[0]);
}

/// Every stamp that reads makes the latest known.
pub proof fn latest_is_known(stamps: Seq<Json>)
    requires
        forall|i: int| 0 <= i < stamps.len() ==> stamp::read(#[trigger] stamps[i]) is Ok,
    ensures
        wire::latest_of(stamps) is Ok,
    decreases stamps.len(),
{
    if stamps.len() > 0 {
        let front = stamps.drop_last();
        assert forall|i: int| 0 <= i < front.len() implies stamp::read(#[trigger] front[i]) is Ok by {
            assert(front[i] == stamps[i]);
        }
        latest_is_known(front);
        assert(stamp::read(stamps[stamps.len() - 1]) is Ok);
    }
}

/// The stamps of a record that was last written at some moment read.
pub proof fn record_stamps_read(row: Json)
    requires
        row.at("kind"@) == Json::Text("rec"@),
        wire::newest_of(row) is Ok,
    ensures
        stamp::read(row.at("status"@).at("at"@)) is Ok,
        stamp::read(row.at("resume"@).at("at"@)) is Ok,
        stamp::read(row.at("reaction"@).at("at"@)) is Ok,
        stamp::read(row.at("deleted"@).at("at"@)) is Ok,
        stamp::read(row.at("dismissed"@).at("at"@)) is Ok,
        row.at("episodesReset"@) != Json::Null ==> stamp::read(row.at("episodesReset"@)) is Ok,
{
    let stamps = wire::record_stamps(row);
    wire::latest_reads_all(stamps);
    assert(stamps[0] == row.at("status"@).at("at"@));
    assert(stamps[1] == row.at("resume"@).at("at"@));
    assert(stamps[2] == row.at("reaction"@).at("at"@));
    assert(stamps[3] == row.at("deleted"@).at("at"@));
    assert(stamps[4] == row.at("dismissed"@).at("at"@));
    if row.at("episodesReset"@) != Json::Null {
        assert(stamps[5] == row.at("episodesReset"@));
    }
}

/// The merged row identifies as both rows do, and was last written at some moment: it can be merged again.
pub proof fn merged_rows_stay_rows(a: Json, b: Json)
    requires
        wire::values_of(a).dom().finite(),
        wire::values_of(b).dom().finite(),
        wire::merged(a, b) is Ok,
    ensures
        wire::identity(wire::merged(a, b)->Ok_0) == wire::identity(a),
        wire::newest_of(wire::merged(a, b)->Ok_0) is Ok,
        wire::values_of(wire::merged(a, b)->Ok_0).dom().finite(),
{
    let m = wire::merged(a, b)->Ok_0;
    let kind = a.at("kind"@);
    wire::kinds_agree(a, b);
    wire::field_names_differ();
    reveal_strlit("rec");
    reveal_strlit("ep");
    reveal_strlit("set");
    assert("rec"@[0] != "ep"@[0] && "ep"@[0] != "set"@[0] && "set"@[0] != "rec"@[0]);
    unruled_fields_survive(a, b, "kind"@);
    unruled_fields_survive(a, b, "title"@);
    unruled_fields_survive(a, b, "season"@);
    unruled_fields_survive(a, b, "episode"@);
    unruled_fields_survive(a, b, "name"@);
    assert(m.at("kind"@) == kind);
    if kind == Json::Text("rec"@) {
        merged_record_fields(a, b);
        record_stamps_read(a);
        record_stamps_read(b);
        let stamps = wire::record_stamps(m);
        assert forall|i: int| 0 <= i < stamps.len() implies stamp::read(#[trigger] stamps[i]) is Ok by {
            assert(i == 0 || i == 1 || i == 2 || i == 3 || i == 4 || i == 5);
        }
        latest_is_known(stamps);
    } else if kind == Json::Text("ep"@) {
        merged_episode_fields(a, b);
        latest_is_known(seq![m.at("progress"@).at("at"@)]);
    } else {
        merged_setting_fields(a, b);
        let va = wire::values_of(a);
        let vb = wire::values_of(b);
        let vm = wire::merged_values(va, vb);
        assert(vm.dom() =~= va.dom().union(vb.dom()));
        json::names_can_be_listed(va);
        json::names_can_be_listed(vb);
        json::names_can_be_listed(vm);
        wire::latest_reads_all(wire::setting_stamps(va));
        wire::latest_reads_all(wire::setting_stamps(vb));
        let keys = json::sorted_keys(vm);
        let stamps = wire::setting_stamps(vm);
        assert forall|i: int| 0 <= i < stamps.len() implies stamp::read(#[trigger] stamps[i]) is Ok by {
            let k = keys[i];
            assert(keys.contains(k));
            assert(vm.contains_key(k));
            if va.contains_key(k) {
                let ka = json::sorted_keys(va);
                assert(ka.contains(k));
                let j = choose|j: int| 0 <= j < ka.len() && ka[j] == k;
                assert(wire::setting_stamps(va)[j] == va[k].at("at"@));
            }
            if vb.contains_key(k) {
                let kb = json::sorted_keys(vb);
                assert(kb.contains(k));
                let j = choose|j: int| 0 <= j < kb.len() && kb[j] == k;
                assert(wire::setting_stamps(vb)[j] == vb[k].at("at"@));
            }
            if va.contains_key(k) && vb.contains_key(k) {
                values_fault_is_some_value(json::sorted_keys(vb), va, vb);
                assert(wire::later_fault(va[k], vb[k]) is None);
            }
        }
        latest_is_known(stamps);
    }
}

/// Merging a row with itself changes nothing that it says.
pub proof fn merging_is_idempotent(a: Json, field: Seq<char>)
    requires
        wire::values_of(a).dom().finite(),
        wire::merged(a, a) is Ok,
    ensures
        wire::merged(a, a)->Ok_0.at(field) == a.at(field),
        a.at("kind"@) != Json::Text("rec"@) || (a->Object_0.contains_key("episodesReset"@)
            && a->Object_0.contains_key("watchedAt"@)) ==> wire::merged(a, a) == Ok::<Json, Seq<char>>(a),
{
    let m = wire::merged(a, a)->Ok_0;
    let kind = a.at("kind"@);
    wire::kinds_agree(a, a);
    wire::field_names_differ();
    let newest = wire::newest_of(a)->Ok_0;
    stamp::moments_are_totally_ordered(newest, newest, newest);
    if kind == Json::Text("rec"@) {
        let reset = a.at("episodesReset"@);
        record_stamps_read(a);
        if reset != Json::Null {
            assert(stamp::stamp_json(stamp::read(reset)->Ok_0)->List_0 =~= reset->List_0);
        }
        assert(wire::merged_base(a, a) =~= a->Object_0);
        assert forall|k: Seq<char>| m.at(k) == a.at(k) by {}
        if a->Object_0.contains_key("episodesReset"@) && a->Object_0.contains_key("watchedAt"@) {
            assert(m->Object_0 =~= a->Object_0);
        }
    } else if kind == Json::Text("ep"@) {
        assert(m->Object_0 =~= a->Object_0);
    } else {
        let values = wire::values_of(a);
        json::names_can_be_listed(values);
        values_fault_is_some_value(json::sorted_keys(values), values, values);
        assert forall|k: Seq<char>| values.contains_key(k) implies {
            wire::later_of(values[k], values[k]) == Ok::<Json, Seq<char>>(values[k])
        } by {
            assert(json::sorted_keys(values).contains(k));
        }
        assert(wire::merged_values(values, values) =~= values);
        assert(m->Object_0 =~= a->Object_0);
    }
}

/// The earliest of three times does not depend on which two meet first.
proof fn earlier_is_associative(a: Json, b: Json, c: Json)
    requires
        wire::earlier_time(a, b) is Ok,
        wire::earlier_time(b, c) is Ok,
    ensures
        wire::earlier_time(wire::earlier_time(a, b)->Ok_0, c) == wire::earlier_time(
            a,
            wire::earlier_time(b, c)->Ok_0,
        ),
        wire::earlier_time(a, wire::earlier_time(b, c)->Ok_0) is Ok,
{
}

/// The earliest of three times that may be absent does not depend on which two meet first.
proof fn earlier_watch_is_associative(a: Json, b: Json, c: Json)
    requires
        wire::earlier_watch(a, b) is Ok,
        wire::earlier_watch(b, c) is Ok,
    ensures
        wire::earlier_watch(wire::earlier_watch(a, b)->Ok_0, c) == wire::earlier_watch(
            a,
            wire::earlier_watch(b, c)->Ok_0,
        ),
        wire::earlier_watch(a, wire::earlier_watch(b, c)->Ok_0) is Ok,
{
}

/// The latest of three resets does not depend on which two meet first.
proof fn later_reset_is_associative(a: Json, b: Json, c: Json, m: Json, n: Json)
    requires
        a.at("episodesReset"@) != Json::Null ==> stamp::read(a.at("episodesReset"@)) is Ok,
        b.at("episodesReset"@) != Json::Null ==> stamp::read(b.at("episodesReset"@)) is Ok,
        c.at("episodesReset"@) != Json::Null ==> stamp::read(c.at("episodesReset"@)) is Ok,
        m.at("episodesReset"@) == wire::later_reset(a, b),
        n.at("episodesReset"@) == wire::later_reset(b, c),
    ensures
        wire::later_reset(m, c) == wire::later_reset(a, n),
{
    let x = stamp::read(a.at("episodesReset"@))->Ok_0;
    let y = stamp::read(b.at("episodesReset"@))->Ok_0;
    let z = stamp::read(c.at("episodesReset"@))->Ok_0;
    stamp::moments_are_totally_ordered(x, y, z);
    stamp::moments_are_totally_ordered(y, x, z);
    stamp::moments_are_totally_ordered(x, z, y);
    stamp::moments_are_totally_ordered(y, z, x);
    stamp::moments_are_totally_ordered(z, y, x);
}

/// What rows that were merged from rows of one identity have in common with them.
proof fn rows_of_one_identity(a: Json, b: Json, c: Json)
    requires
        wire::values_of(a).dom().finite(),
        wire::values_of(b).dom().finite(),
        wire::values_of(c).dom().finite(),
        wire::merged(a, b) is Ok,
        wire::merged(b, c) is Ok,
    ensures
        wire::merge_fault(wire::merged(a, b)->Ok_0, c) is None,
        wire::merge_fault(a, wire::merged(b, c)->Ok_0) is None,
        b.at("kind"@) == a.at("kind"@),
        c.at("kind"@) == a.at("kind"@),
        wire::merged(a, b)->Ok_0.at("kind"@) == a.at("kind"@),
        wire::merged(b, c)->Ok_0.at("kind"@) == a.at("kind"@),
        wire::values_of(wire::merged(a, b)->Ok_0).dom().finite(),
        wire::values_of(wire::merged(b, c)->Ok_0).dom().finite(),
{
    let m = wire::merged(a, b)->Ok_0;
    let n = wire::merged(b, c)->Ok_0;
    merged_rows_stay_rows(a, b);
    merged_rows_stay_rows(b, c);
    wire::kinds_agree(a, b);
    wire::kinds_agree(b, c);
    wire::kinds_agree(a, m);
    wire::kinds_agree(b, n);
}

/// Three devices agree on the fields of a record that go by rules.
proof fn records_converge(a: Json, b: Json, c: Json, field: Seq<char>)
    requires
        wire::values_of(a).dom().finite(),
        wire::values_of(b).dom().finite(),
        wire::values_of(c).dom().finite(),
        wire::merged(a, b) is Ok,
        wire::merged(b, c) is Ok,
        a.at("kind"@) == Json::Text("rec"@),
        ruled(a.at("kind"@), field),
    ensures
        wire::merged(wire::merged(a, b)->Ok_0, c) is Ok,
        wire::merged(a, wire::merged(b, c)->Ok_0) is Ok,
        wire::merged(wire::merged(a, b)->Ok_0, c)->Ok_0.at(field) == wire::merged(
            a,
            wire::merged(b, c)->Ok_0,
        )->Ok_0.at(field),
{
    let m = wire::merged(a, b)->Ok_0;
    let n = wire::merged(b, c)->Ok_0;
    rows_of_one_identity(a, b, c);
    merged_record_fields(a, b);
    merged_record_fields(b, c);
    later_is_associative(a.at("status"@), b.at("status"@), c.at("status"@));
    later_is_associative(a.at("reaction"@), b.at("reaction"@), c.at("reaction"@));
    later_is_associative(a.at("deleted"@), b.at("deleted"@), c.at("deleted"@));
    later_is_associative(a.at("dismissed"@), b.at("dismissed"@), c.at("dismissed"@));
    furthest_is_associative(a.at("resume"@), b.at("resume"@), c.at("resume"@));
    earlier_is_associative(a.at("addedAt"@), b.at("addedAt"@), c.at("addedAt"@));
    earlier_watch_is_associative(a.at("watchedAt"@), b.at("watchedAt"@), c.at("watchedAt"@));
    record_stamps_read(a);
    record_stamps_read(b);
    record_stamps_read(c);
    later_reset_is_associative(a, b, c, m, n);
    assert(wire::record_fault(m, c) is None);
    assert(wire::record_fault(a, n) is None);
    merged_record_fields(m, c);
    merged_record_fields(a, n);
    assert(wire::greater_schema(m, c) == wire::greater_schema(a, n));
    reveal_strlit("rec");
    reveal_strlit("ep");
    reveal_strlit("set");
    assert("rec"@[0] != "ep"@[0] && "set"@[0] != "rec"@[0]);
}

/// Three devices agree on the fields of an episode that go by rules.
proof fn episodes_converge(a: Json, b: Json, c: Json, field: Seq<char>)
    requires
        wire::values_of(a).dom().finite(),
        wire::values_of(b).dom().finite(),
        wire::values_of(c).dom().finite(),
        wire::merged(a, b) is Ok,
        wire::merged(b, c) is Ok,
        a.at("kind"@) == Json::Text("ep"@),
        ruled(a.at("kind"@), field),
    ensures
        wire::merged(wire::merged(a, b)->Ok_0, c) is Ok,
        wire::merged(a, wire::merged(b, c)->Ok_0) is Ok,
        wire::merged(wire::merged(a, b)->Ok_0, c)->Ok_0.at(field) == wire::merged(
            a,
            wire::merged(b, c)->Ok_0,
        )->Ok_0.at(field),
{
    let m = wire::merged(a, b)->Ok_0;
    let n = wire::merged(b, c)->Ok_0;
    rows_of_one_identity(a, b, c);
    reveal_strlit("rec");
    reveal_strlit("ep");
    reveal_strlit("set");
    assert("rec"@[0] != "ep"@[0] && "ep"@[0] != "set"@[0]);
    merged_episode_fields(a, b);
    merged_episode_fields(b, c);
    furthest_is_associative(a.at("progress"@), b.at("progress"@), c.at("progress"@));
    assert(wire::merged(m, c) is Ok);
    assert(wire::merged(a, n) is Ok);
    merged_episode_fields(m, c);
    merged_episode_fields(a, n);
    assert(wire::greater_schema(m, c) == wire::greater_schema(a, n));
}

/// Three devices agree on the values of a setting.
proof fn values_converge(
    a: Map<Seq<char>, Json>,
    b: Map<Seq<char>, Json>,
    c: Map<Seq<char>, Json>,
)
    requires
        a.dom().finite(),
        b.dom().finite(),
        c.dom().finite(),
        wire::values_fault(json::sorted_keys(b), a, b) is None,
        wire::values_fault(json::sorted_keys(c), b, c) is None,
    ensures
        ({
            let m = wire::merged_values(a, b);
            let n = wire::merged_values(b, c);
            &&& wire::values_fault(json::sorted_keys(c), m, c) is None <==> wire::values_fault(
                json::sorted_keys(n),
                a,
                n,
            ) is None
            &&& wire::values_fault(json::sorted_keys(c), m, c) is None ==> wire::merged_values(m, c)
                == wire::merged_values(a, n)
        }),
{
    let m = wire::merged_values(a, b);
    let n = wire::merged_values(b, c);
    let kb = json::sorted_keys(b);
    let kc = json::sorted_keys(c);
    let kn = json::sorted_keys(n);
    assert(n.dom() =~= b.dom().union(c.dom()));
    json::names_can_be_listed(b);
    json::names_can_be_listed(c);
    json::names_can_be_listed(n);
    values_fault_is_some_value(kb, a, b);
    values_fault_is_some_value(kc, b, c);
    values_fault_is_some_value(kc, m, c);
    values_fault_is_some_value(kn, a, n);
    assert forall|k: Seq<char>| a.contains_key(k) && b.contains_key(k) implies wire::later_fault(
        a[k],
        b[k],
    ) is None by {
        assert(kb.contains(k));
    }
    assert forall|k: Seq<char>| b.contains_key(k) && c.contains_key(k) implies wire::later_fault(
        b[k],
        c[k],
    ) is None by {
        assert(kc.contains(k));
    }
    assert forall|k: Seq<char>| a.contains_key(k) && b.contains_key(k) && c.contains_key(k) implies {
        &&& wire::later_of(m[k], c[k]) == wire::later_of(a[k], n[k])
        &&& wire::later_fault(m[k], c[k]) is None
        &&& wire::later_fault(a[k], n[k]) is None
    } by {
        later_is_associative(a[k], b[k], c[k]);
    }
    if wire::values_fault(kc, m, c) is None {
        assert forall|k: Seq<char>| #[trigger] kn.contains(k) && a.contains_key(
            k,
        ) implies wire::later_fault(a[k], n[k]) is None by {
            assert(n.contains_key(k));
            if c.contains_key(k) {
                assert(kc.contains(k) && m.contains_key(k));
            }
        }
        assert forall|k: Seq<char>| m.contains_key(k) && c.contains_key(k) implies wire::later_fault(
            m[k],
            c[k],
        ) is None by {
            assert(kc.contains(k));
        }
        assert(wire::merged_values(m, c) =~= wire::merged_values(a, n));
    }
    if wire::values_fault(kn, a, n) is None {
        assert forall|k: Seq<char>| #[trigger] kc.contains(k) && m.contains_key(
            k,
        ) implies wire::later_fault(m[k], c[k]) is None by {
            assert(c.contains_key(k));
            if a.contains_key(k) {
                assert(kn.contains(k)) by {
                    assert(n.contains_key(k));
                }
            }
        }
    }
}

/// Three devices agree on the fields of a setting that go by rules.
proof fn settings_converge(a: Json, b: Json, c: Json, field: Seq<char>)
    requires
        wire::values_of(a).dom().finite(),
        wire::values_of(b).dom().finite(),
        wire::values_of(c).dom().finite(),
        wire::merged(a, b) is Ok,
        wire::merged(b, c) is Ok,
        a.at("kind"@) == Json::Text("set"@),
        ruled(a.at("kind"@), field),
    ensures
        wire::merged(wire::merged(a, b)->Ok_0, c) is Ok <==> wire::merged(
            a,
            wire::merged(b, c)->Ok_0,
        ) is Ok,
        wire::merged(wire::merged(a, b)->Ok_0, c) is Ok ==> wire::merged(
            wire::merged(a, b)->Ok_0,
            c,
        )->Ok_0.at(field) == wire::merged(a, wire::merged(b, c)->Ok_0)->Ok_0.at(field),
{
    let m = wire::merged(a, b)->Ok_0;
    let n = wire::merged(b, c)->Ok_0;
    rows_of_one_identity(a, b, c);
    reveal_strlit("rec");
    reveal_strlit("ep");
    reveal_strlit("set");
    assert("rec"@[0] != "set"@[0] && "ep"@[0] != "set"@[0]);
    merged_setting_fields(a, b);
    merged_setting_fields(b, c);
    values_converge(wire::values_of(a), wire::values_of(b), wire::values_of(c));
    if wire::merged(m, c) is Ok {
        merged_setting_fields(m, c);
        merged_setting_fields(a, n);
        assert(wire::greater_schema(m, c) == wire::greater_schema(a, n));
    }
}

/// Three devices agree on every field that goes by a rule, whichever two of their rows merge first.
///
/// The fields that no rule speaks of go with the row last written. A position that was outvoted takes its
/// stamp with it, so a merged row may count as written before one of those it was merged from; of those
/// fields nothing is said here.
pub proof fn ruled_fields_converge(a: Json, b: Json, c: Json, field: Seq<char>)
    requires
        wire::values_of(a).dom().finite(),
        wire::values_of(b).dom().finite(),
        wire::values_of(c).dom().finite(),
        wire::merged(a, b) is Ok,
        wire::merged(b, c) is Ok,
        ruled(a.at("kind"@), field),
    ensures
        wire::merged(wire::merged(a, b)->Ok_0, c) is Ok <==> wire::merged(
            a,
            wire::merged(b, c)->Ok_0,
        ) is Ok,
        a.at("kind"@) != Json::Text("set"@) ==> wire::merged(wire::merged(a, b)->Ok_0, c) is Ok,
        wire::merged(wire::merged(a, b)->Ok_0, c) is Ok ==> wire::merged(
            wire::merged(a, b)->Ok_0,
            c,
        )->Ok_0.at(field) == wire::merged(a, wire::merged(b, c)->Ok_0)->Ok_0.at(field),
{
    wire::kinds_agree(a, b);
    if a.at("kind"@) == Json::Text("rec"@) {
        records_converge(a, b, c, field);
    } else if a.at("kind"@) == Json::Text("ep"@) {
        episodes_converge(a, b, c, field);
    } else {
        settings_converge(a, b, c, field);
    }
}

} // verus!
