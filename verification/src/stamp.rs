//! Logical clocks.
//!
//! Wire tuple order is time, counter, then UTF-8 device bytes. No wall clock is read here.

use crate::json;
use crate::json::{Json, Value};
use crate::text;
use vstd::prelude::*;

verus! {

/// The largest integer that a double-precision number can tell from its neighbours.
pub const MAX_SAFE_INTEGER: u64 = 9_007_199_254_740_991;

/// When a field was written: a time, a counter among writes at one time, and the device that wrote.
#[derive(Debug, PartialEq, Eq, PartialOrd, Ord)]
pub struct Stamp(pub i64, pub u64, pub String);

/// What a stamp means.
pub struct Moment {
    pub time: int,
    pub counter: int,
    pub device: Seq<char>,
}

impl Moment {
    /// Whether this comes before `other`: by time, then by counter, then by the bytes of the device.
    pub open spec fn before(self, other: Moment) -> bool {
        ||| self.time < other.time
        ||| self.time == other.time && self.counter < other.counter
        ||| self.time == other.time && self.counter == other.counter && text::less(
            self.device,
            other.device,
        )
    }

    /// Whether every client can hold the numbers exactly.
    pub open spec fn safe(self) -> bool {
        &&& -MAX_SAFE_INTEGER <= self.time <= MAX_SAFE_INTEGER
        &&& self.counter <= MAX_SAFE_INTEGER
    }
}

/// The later of two moments.
pub open spec fn latest(a: Moment, b: Moment) -> Moment {
    if a.before(b) {
        b
    } else {
        a
    }
}

/// The moment that any other written one may follow: a bit learned without a time is written with it.
pub open spec fn zero() -> Moment {
    Moment { time: 0, counter: 0, device: seq![] }
}

/// The moment that follows `last` on a device whose clock says `now`.
pub open spec fn next(last: Moment, now: int, device: Seq<char>) -> Moment {
    if now > last.time {
        Moment { time: now, counter: 0, device }
    } else {
        Moment { time: last.time, counter: last.counter + 1, device }
    }
}

/// Issues the moment after `last`, if every client can hold both.
pub open spec fn issued(last: Moment, now: int, device: Seq<char>) -> Result<Moment, Seq<char>> {
    if last.safe() && next(last, now, device).safe() {
        Ok(next(last, now, device))
    } else {
        Err("unsafe_stamp"@)
    }
}

/// How a stamp is written.
pub open spec fn stamp_json(m: Moment) -> Json {
    Json::List(seq![Json::Int(m.time), Json::Int(m.counter), Json::Text(m.device)])
}

/// The stamp that a value writes: a list of a time, a counter and a device.
pub open spec fn parsed(v: Json) -> Option<Moment> {
    match v {
        Json::List(items) => if items.len() == 3 && items[0].signed() is Some
            && items[1].unsigned() is Some && items[2].text() is Some {
            Some(
                Moment {
                    time: items[0].signed()->0 as int,
                    counter: items[1].unsigned()->0 as int,
                    device: items[2].text()->0,
                },
            )
        } else {
            None
        },
        _ => None,
    }
}

/// The stamp that a value writes, if every client can hold it.
pub open spec fn read(v: Json) -> Result<Moment, Seq<char>> {
    match parsed(v) {
        None => Err("invalid_stamp"@),
        Some(m) => if m.safe() {
            Ok(m)
        } else {
            Err("unsafe_stamp"@)
        },
    }
}

/// What an answer says, in place of the values that hold it.
pub open spec fn told<T: View>(r: Result<T, String>) -> Result<T::V, Seq<char>> {
    match r {
        Ok(v) => Ok(v@),
        Err(e) => Err(e@),
    }
}

impl View for Stamp {
    type V = Moment;

    open spec fn view(&self) -> Moment {
        Moment { time: self.0 as int, counter: self.1 as int, device: self.2@ }
    }
}

impl Clone for Stamp {
    fn clone(&self) -> (s: Stamp)
        ensures
            s@ == self@,
    {
        Stamp(self.0, self.1, self.2.clone())
    }
}

impl Default for Stamp {
    /// The stamp that any written one may follow.
    fn default() -> (s: Stamp)
        ensures
            s@ == zero(),
    {
        let s: Stamp = Stamp(0, 0, String::new());
        assert(s.2@ =~= seq![]);
        s
    }
}

impl Stamp {
    /// Refuses numbers that some client cannot hold exactly.
    pub fn validate(&self) -> (r: Result<(), String>)
        ensures
            told(r) == (if self@.safe() {
                Ok(())
            } else {
                Err("unsafe_stamp"@)
            }),
    {
        if self.is_safe() {
            Ok(())
        } else {
            Err("unsafe_stamp".to_owned())
        }
    }

    /// Whether every client can hold the numbers exactly.
    fn is_safe(&self) -> (r: bool)
        ensures
            r == self@.safe(),
    {
        self.0 >= -(MAX_SAFE_INTEGER as i64) && self.0 <= MAX_SAFE_INTEGER as i64 && self.1
            <= MAX_SAFE_INTEGER
    }

    /// The stamp of the next write after this one, on a device whose clock says `now`. A clock that
    /// stands still or runs back only raises the counter, so stamps never do.
    pub fn issue(&self, now: i64, device: String) -> (r: Result<Stamp, String>)
        ensures
            told(r) == issued(self@, now as int, device@),
            r matches Ok(s) ==> self@.before(s@),
    {
        if !self.is_safe() {
            return Err("unsafe_stamp".to_owned());
        }
        let stamp: Stamp = if now > self.0 {
            Stamp(now, 0, device)
        } else {
            Stamp(self.0, self.1 + 1, device)
        };
        if !stamp.is_safe() {
            return Err("unsafe_stamp".to_owned());
        }
        Ok(stamp)
    }

    /// Whether this comes before `other`.
    pub fn precedes(&self, other: &Stamp) -> (r: bool)
        ensures
            r == self@.before(other@),
    {
        if self.0 != other.0 {
            self.0 < other.0
        } else if self.1 != other.1 {
            self.1 < other.1
        } else {
            text::precedes(self.2.as_str(), other.2.as_str())
        }
    }

    /// Whether this is the same moment as `other`.
    pub fn is(&self, other: &Stamp) -> (r: bool)
        ensures
            r == (self@ == other@),
    {
        self.0 == other.0 && self.1 == other.1 && text::same(self.2.as_str(), other.2.as_str())
    }

    /// The later of two stamps.
    pub fn later(self, other: Stamp) -> (s: Stamp)
        ensures
            s@ == latest(self@, other@),
    {
        if self.precedes(&other) {
            other
        } else {
            self
        }
    }

    /// Writes the stamp.
    pub fn to_value(&self) -> (v: Value)
        ensures
            v@ == stamp_json(self@),
    {
        let mut items: Vec<Value> = Vec::new();
        items.push(Value::from_i64(self.0));
        items.push(Value::from_u64(self.1));
        items.push(Value::from_str(self.2.as_str()));
        assert(json::models(items@) =~= stamp_json(self@)->List_0);
        Value::Array(items)
    }

    /// The stamp that a value writes.
    pub fn from_value(value: &Value) -> (s: Option<Stamp>)
        ensures
            match s {
                Some(s) => parsed(value@) == Some(s@),
                None => parsed(value@) is None,
            },
    {
        match value.as_array() {
            Some(items) => {
                if items.len() != 3 {
                    return None;
                }
                assert(json::models(items@)[0] == items@[0]@);
                assert(json::models(items@)[1] == items@[1]@);
                assert(json::models(items@)[2] == items@[2]@);
                match (items[0].as_i64(), items[1].as_u64(), items[2].as_str()) {
                    (Some(time), Some(counter), Some(device)) => Some(
                        Stamp(time, counter, device.to_owned()),
                    ),
                    _ => None,
                }
            },
            None => None,
        }
    }
}

/// The stamp that a value writes, if every client can hold it.
pub(crate) fn stamp(value: &Value) -> (r: Result<Stamp, String>)
    ensures
        told(r) == read(value@),
{
    match Stamp::from_value(value) {
        Some(s) => if s.is_safe() {
            Ok(s)
        } else {
            Err("unsafe_stamp".to_owned())
        },
        None => Err("invalid_stamp".to_owned()),
    }
}

/// The order of moments is a strict total order.
pub proof fn moments_are_totally_ordered(a: Moment, b: Moment, c: Moment)
    ensures
        !a.before(a),
        a != b ==> (a.before(b) <==> !b.before(a)),
        a.before(b) && b.before(c) ==> a.before(c),
{
    text::less_is_a_strict_total_order(a.device, b.device, c.device);
}

/// A stamp that is issued comes after the one it was issued from, whatever the clock says.
pub proof fn clocks_never_run_back(last: Moment, now: int, device: Seq<char>)
    ensures
        issued(last, now, device) matches Ok(m) ==> last.before(m) && m.time >= now && m.device
            == device,
{
}

/// What is written of a stamp reads back as the stamp.
pub proof fn stamps_read_back(s: Stamp)
    ensures
        parsed(stamp_json(s@)) == Some(s@),
{
}

} // verus!
