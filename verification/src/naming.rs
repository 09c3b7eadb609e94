//! What the name of a row tells.

use crate::json::Json;
use crate::reading;
use crate::text;
use crate::wire;
use vstd::prelude::*;

verus! {

/// A number in decimal has a digit, and no colon.
proof fn decimal_has_no_colon(n: nat)
    ensures
        text::decimal(n).len() > 0,
        forall|i: int| 0 <= i < text::decimal(n).len() ==> #[trigger] text::decimal(n)[i] != ':',
    decreases n,
{
    if n >= 10 {
        decimal_has_no_colon(n / 10);
        let front = text::decimal(n / 10);
        assert(text::decimal(n) == front.push(text::digit(n % 10)));
        assert forall|i: int| 0 <= i < text::decimal(n).len() implies #[trigger] text::decimal(n)[i]
            != ':' by {
            if i < front.len() {
                assert(text::decimal(n)[i] == front[i]);
            }
        }
    }
}

/// Different numbers are written differently.
proof fn decimal_is_injective(m: nat, n: nat)
    requires
        text::decimal(m) == text::decimal(n),
    ensures
        m == n,
    decreases m,
{
    let a = text::decimal(m);
    let b = text::decimal(n);
    decimal_has_no_colon(m / 10);
    decimal_has_no_colon(n / 10);
    assert(a.last() == text::digit(m % 10));
    assert(b.last() == text::digit(n % 10));
    assert(m % 10 == n % 10);
    if m >= 10 && n >= 10 {
        assert(a.drop_last() =~= text::decimal(m / 10));
        assert(b.drop_last() =~= text::decimal(n / 10));
        decimal_is_injective(m / 10, n / 10);
    } else if m >= 10 {
        assert(a.len() == text::decimal(m / 10).len() + 1);
    } else if n >= 10 {
        assert(b.len() == text::decimal(n / 10).len() + 1);
    }
}

/// What stands before the first colon and what stands behind it are told apart.
proof fn split_at_the_colon(a: Seq<char>, x: Seq<char>, b: Seq<char>, y: Seq<char>)
    requires
        forall|i: int| 0 <= i < a.len() ==> #[trigger] a[i] != ':',
        forall|i: int| 0 <= i < b.len() ==> #[trigger] b[i] != ':',
        a + ":"@ + x == b + ":"@ + y,
    ensures
        a == b,
        x == y,
{
    reveal_strlit(":");
    let s = a + ":"@ + x;
    let t = b + ":"@ + y;
    assert(s[a.len() as int] == ':');
    assert(t[b.len() as int] == ':');
    if a.len() < b.len() {
        assert(t[a.len() as int] == b[a.len() as int]);
    } else if b.len() < a.len() {
        assert(s[b.len() as int] == a[b.len() as int]);
    }
    assert forall|i: int| 0 <= i < a.len() implies a[i] == b[i] by {
        assert(s[i] == a[i]);
        assert(t[i] == b[i]);
    }
    assert(a =~= b);
    assert(x =~= s.skip(a.len() as int + 1));
    assert(y =~= t.skip(b.len() as int + 1));
}

/// Rows of one name are of one thing: of one kind and, a setting of one name, a record of one title, an
/// episode of one number in one season of one series. So a merge never mixes two titles.
pub proof fn one_name_is_one_thing(a: Json, b: Json)
    requires
        wire::identity(a) is Ok,
        wire::identity(a) == wire::identity(b),
    ensures
        a.at("kind"@) == b.at("kind"@),
        a.at("kind"@) == Json::Text("set"@) ==> a.at("name"@) == b.at("name"@),
        a.at("kind"@) != Json::Text("set"@) ==> wire::title_of(a) is Ok && wire::title_of(a)
            == wire::title_of(b),
        a.at("kind"@) == Json::Text("ep"@) ==> wire::integer_of(a.at("season"@)) is Ok
            && wire::integer_of(a.at("season"@)) == wire::integer_of(b.at("season"@)),
        a.at("kind"@) == Json::Text("ep"@) ==> wire::integer_of(a.at("episode"@)) is Ok
            && wire::integer_of(a.at("episode"@)) == wire::integer_of(b.at("episode"@)),
{
    wire::kinds_agree(a, b);
    reveal_strlit("rec");
    reveal_strlit("ep");
    reveal_strlit("set");
    assert("rec"@[0] != "ep"@[0] && "ep"@[0] != "set"@[0] && "set"@[0] != "rec"@[0]);
    reveal_strlit("movie");
    reveal_strlit("tv");
    let kind = a.at("kind"@);
    let m = wire::identity(a)->Ok_0;
    let n = wire::identity(b)->Ok_0;
    if kind == Json::Text("set"@) {
        let x = a.at("name"@)->Text_0;
        let y = b.at("name"@)->Text_0;
        assert(x =~= m.skip("set:"@.len() as int));
        assert(y =~= n.skip("set:"@.len() as int));
    } else {
        let (media, id) = wire::title_of(a)->Ok_0;
        let (other, other_id) = wire::title_of(b)->Ok_0;
        let p = text::decimal(id as nat);
        let q = text::decimal(other_id as nat);
        decimal_has_no_colon(id as nat);
        decimal_has_no_colon(other_id as nat);
        if kind == Json::Text("rec"@) {
            let x = media + ":"@ + p;
            let y = other + ":"@ + q;
            assert(x =~= m.skip("rec:"@.len() as int));
            assert(y =~= n.skip("rec:"@.len() as int));
            split_at_the_colon(media, p, other, q);
            decimal_is_injective(id as nat, other_id as nat);
        } else {
            let season = wire::integer_of(a.at("season"@))->Ok_0;
            let episode = wire::integer_of(a.at("episode"@))->Ok_0;
            let other_season = wire::integer_of(b.at("season"@))->Ok_0;
            let other_episode = wire::integer_of(b.at("episode"@))->Ok_0;
            let s = text::decimal(season as nat);
            let e = text::decimal(episode as nat);
            let t = text::decimal(other_season as nat);
            let f = text::decimal(other_episode as nat);
            decimal_has_no_colon(season as nat);
            decimal_has_no_colon(other_season as nat);
            let x = media + ":"@ + (p + ":"@ + (s + ":"@ + e));
            let y = other + ":"@ + (q + ":"@ + (t + ":"@ + f));
            assert(x =~= m.skip("ep:"@.len() as int));
            assert(y =~= n.skip("ep:"@.len() as int));
            split_at_the_colon(media, p + ":"@ + (s + ":"@ + e), other, q + ":"@ + (t + ":"@ + f));
            split_at_the_colon(p, s + ":"@ + e, q, t + ":"@ + f);
            split_at_the_colon(s, e, t, f);
            decimal_is_injective(id as nat, other_id as nat);
            decimal_is_injective(season as nat, other_season as nat);
            decimal_is_injective(episode as nat, other_episode as nat);
        }
    }
}

/// Whether two rows are of one thing, by what they say of it.
pub open spec fn one_thing(a: Json, b: Json) -> bool {
    &&& a.at("kind"@) == b.at("kind"@)
    &&& a.at("kind"@) == Json::Text("set"@) ==> a.at("name"@) == b.at("name"@)
    &&& a.at("kind"@) != Json::Text("set"@) ==> a.at("title"@).at("type"@) == b.at("title"@).at(
        "type"@,
    ) && a.at("title"@).at("id"@) == b.at("title"@).at("id"@)
    &&& a.at("kind"@) == Json::Text("ep"@) ==> a.at("season"@) == b.at("season"@) && a.at("episode"@)
        == b.at("episode"@)
}

/// Rows that have names have one name exactly when they are of one thing.
pub proof fn one_thing_has_one_name(a: Json, b: Json)
    requires
        wire::identity(a) is Ok,
        wire::identity(b) is Ok,
    ensures
        wire::identity(a) == wire::identity(b) <==> one_thing(a, b),
{
    reading::rows_are_named(a);
    reading::rows_are_named(b);
    reveal_strlit("rec");
    reveal_strlit("ep");
    reveal_strlit("set");
    assert("rec"@[0] != "ep"@[0] && "ep"@[0] != "set"@[0] && "set"@[0] != "rec"@[0]);
    if wire::identity(a) == wire::identity(b) {
        one_name_is_one_thing(a, b);
        if a.at("kind"@) != Json::Text("set"@) {
            let t = wire::title_of(a)->Ok_0;
            reading::titles_are_read(a, t.0, t.1);
            reading::titles_are_read(b, t.0, t.1);
            reading::integers_are_read(a.at("season"@), a.at("season"@)->Int_0);
            reading::integers_are_read(b.at("season"@), b.at("season"@)->Int_0);
            reading::integers_are_read(a.at("episode"@), a.at("episode"@)->Int_0);
            reading::integers_are_read(b.at("episode"@), b.at("episode"@)->Int_0);
        }
    }
}

} // verus!
