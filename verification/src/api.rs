//! The versioned boundary that every binding calls.
//!
//! A request is one of a few operations; an answer is an envelope that holds either what the operation
//! came to or an error. Invalid input is an error, never an empty state or an acknowledgement.

use crate::capture;
use crate::delivery;
use crate::delivery::{Action, Command, Decision, Remote};
use crate::events;
use crate::json::{Json, Object, Value};
use crate::stamp;
use crate::stamp::{Moment, Stamp, MAX_SAFE_INTEGER};
use crate::wire;
use vstd::arithmetic::power2;
use vstd::prelude::*;

verus! {

/// The most bytes that a request may have.
pub const REQUEST_BYTES: usize = 1_048_576;

/// The first delay of a retry, in milliseconds.
pub const FIRST_DELAY: u64 = 5_000;

/// The most often that the delay of a retry doubles.
pub const DOUBLINGS: u32 = 10;

/// The longest delay of a retry, in milliseconds.
pub const LONGEST_DELAY: u64 = 1_800_000;

/// An operation, with what it works on.
#[derive(Debug)]
#[allow(inconsistent_fields)]
pub enum Request {
    Merge { a: Value, b: Value },
    Capture { before: Value, after: Value, at: Stamp, id: String },
    Commands { event: Value, current: Value },
    Issue { last: Stamp, seen: Option<Stamp>, now: i64, device: String },
    Decide { command: Command, remote: Remote },
    Retry { attempts: u32, now: u64, retry_after: Option<u64> },
}

/// The lesser of two numbers.
pub open spec fn lesser(a: int, b: int) -> int {
    if a < b {
        a
    } else {
        b
    }
}

/// How long to wait after so many attempts: each doubles the delay, up to a longest one.
pub open spec fn delay_after(attempts: u32) -> int {
    lesser(
        FIRST_DELAY * power2::pow2(lesser(attempts as int, DOUBLINGS as int) as nat),
        LONGEST_DELAY as int,
    )
}

/// When to try again: after the delay, and not before the provider allows.
pub open spec fn retry_time(attempts: u32, now: u64, retry_after: Option<u64>) -> int {
    let earliest = now + delay_after(attempts);
    match retry_after {
        Some(allowed) => if allowed > earliest {
            allowed as int
        } else {
            earliest
        },
        None => earliest,
    }
}

/// When to try again, if every client can hold the time.
pub open spec fn retried(attempts: u32, now: u64, retry_after: Option<u64>) -> Result<
    u64,
    Seq<char>,
> {
    if retry_time(attempts, now, retry_after) <= MAX_SAFE_INTEGER {
        Ok(retry_time(attempts, now, retry_after) as u64)
    } else {
        Err("time_overflow"@)
    }
}

/// When to try again: the capped exponential delay of the outbox, with the provider's Retry-After as a
/// lower bound.
pub fn retry(attempts: u32, now: u64, retry_after: Option<u64>) -> (r: Result<u64, String>)
    ensures
        stamp::told(r) == retried(attempts, now, retry_after),
{
    let doublings: u32 = if attempts < DOUBLINGS {
        attempts
    } else {
        DOUBLINGS
    };
    let mut delay: u64 = FIRST_DELAY;
    proof {
        power2::lemma2_to64();
    }
    for i in 0..doublings
        invariant
            doublings <= DOUBLINGS,
            delay == FIRST_DELAY * power2::pow2(i as nat),
            delay <= 5_120_000,
            i <= 10,
    {
        proof {
            power2::lemma2_to64();
            power2::lemma_pow2_unfold((i + 1) as nat);
        }
        delay = delay * 2;
    }
    if delay > LONGEST_DELAY {
        delay = LONGEST_DELAY;
    }
    let mut at: u64 = match now.checked_add(delay) {
        Some(at) => at,
        None => return Err("time_overflow".to_owned()),
    };
    if let Some(allowed) = retry_after {
        if allowed > at {
            at = allowed;
        }
    }
    if at > MAX_SAFE_INTEGER {
        return Err("time_overflow".to_owned());
    }
    Ok(at)
}

/// The stamp of the next write on a device that last wrote at one moment and has seen another.
pub open spec fn issued_after(
    last: Moment,
    seen: Option<Moment>,
    now: int,
    device: Seq<char>,
) -> Result<Moment, Seq<char>> {
    match seen {
        Some(seen) => stamp::issued(stamp::latest(last, seen), now, device),
        None => stamp::issued(last, now, device),
    }
}

/// The name of what becomes of a command.
pub open spec fn action_name(action: Action) -> Seq<char> {
    match action {
        Action::Send => "send"@,
        Action::Acknowledge => "acknowledge"@,
        Action::Superseded => "superseded"@,
        Action::Hold => "hold"@,
    }
}

/// How a decision is written.
pub open spec fn decision_json(d: (Action, Seq<char>)) -> Json {
    Json::Object(map!["action"@ => Json::Text(action_name(d.0)), "reason"@ => Json::Text(d.1)])
}

/// What a request comes to.
pub open spec fn answered(request: Request) -> Result<Json, Seq<char>> {
    match request {
        Request::Merge { a, b } => wire::merged(a@, b@),
        Request::Capture { before, after, at, id } => capture::captured(before@, after@, at@, id@),
        Request::Commands { event, current } => events::translated(event@, current@),
        Request::Issue { last, seen, now, device } => {
            let seen = match seen {
                Some(seen) => Some(seen@),
                None => None,
            };
            match issued_after(last@, seen, now as int, device@) {
                Ok(m) => Ok(stamp::stamp_json(m)),
                Err(e) => Err(e),
            }
        },
        Request::Decide { command, remote } => Ok(decision_json(delivery::decided(command, remote))),
        Request::Retry { attempts, now, retry_after } => match retried(attempts, now, retry_after) {
            Ok(t) => Ok(Json::Int(t as int)),
            Err(e) => Err(e),
        },
    }
}

/// How an answer is written.
pub open spec fn envelope(answer: Result<Json, Seq<char>>) -> Json {
    match answer {
        Ok(v) => Json::Object(map!["version"@ => Json::Int(1), "ok"@ => v]),
        Err(e) => Json::Object(map!["version"@ => Json::Int(1), "error"@ => Json::Text(e)]),
    }
}

/// What a text of so many bytes is answered, when it reads as `request`, or as none.
pub open spec fn response(bytes: int, request: Option<Request>) -> Json {
    envelope(
        if bytes > REQUEST_BYTES {
            Err("request_too_large"@)
        } else {
            match request {
                Some(request) => answered(request),
                None => Err("invalid_request"@),
            }
        },
    )
}

/// The name of what becomes of a command.
fn name_of(action: Action) -> (t: &'static str)
    ensures
        t@ == action_name(action),
{
    match action {
        Action::Send => "send",
        Action::Acknowledge => "acknowledge",
        Action::Superseded => "superseded",
        Action::Hold => "hold",
    }
}

/// Writes a decision.
fn write_decision(d: &Decision) -> (v: Value)
    ensures
        v@ == decision_json(d@),
{
    let mut out: Object = Object::new();
    out.insert("action".to_owned(), Value::from_str(name_of(d.action)));
    out.insert("reason".to_owned(), Value::from_str(d.reason));
    Value::Object(out)
}

/// What a request comes to.
pub fn run(request: Request) -> (r: Result<Value, String>)
    ensures
        stamp::told(r) == answered(request),
{
    match request {
        Request::Merge { a, b } => wire::merge(&a, &b),
        Request::Capture { before, after, at, id } => capture::capture(
            &before,
            &after,
            &at,
            id.as_str(),
        ),
        Request::Commands { event, current } => events::commands(&event, &current),
        Request::Issue { last, seen, now, device } => {
            let last: Stamp = match seen {
                Some(seen) => last.later(seen),
                None => last,
            };
            match last.issue(now, device) {
                Ok(next) => Ok(next.to_value()),
                Err(e) => Err(e),
            }
        },
        Request::Decide { command, remote } => Ok(
            write_decision(&delivery::decide(&command, &remote)),
        ),
        Request::Retry { attempts, now, retry_after } => match retry(attempts, now, retry_after) {
            Ok(t) => Ok(Value::from_u64(t)),
            Err(e) => Err(e),
        },
    }
}

/// Answers a text of so many bytes, given the request that it reads as, or `None` if it reads as none. The
/// answer never throws, and an error is never an empty snapshot or an acknowledgement.
pub fn respond(bytes: usize, request: Option<Request>) -> (v: Value)
    ensures
        v@ == response(bytes as int, request),
{
    let answer: Result<Value, String> = if bytes > REQUEST_BYTES {
        Err("request_too_large".to_owned())
    } else {
        match request {
            Some(request) => run(request),
            None => Err("invalid_request".to_owned()),
        }
    };
    let mut out: Object = Object::new();
    out.insert("version".to_owned(), Value::from_u64(1));
    match answer {
        Ok(v) => out.insert("ok".to_owned(), v),
        Err(e) => out.insert("error".to_owned(), Value::String(e)),
    }
    Value::Object(out)
}

// ---------------------------------------------------------------------------------------------------
// Laws.

/// Every text is answered, in one version, with a result or an error and never with both.
pub proof fn an_answer_is_a_result_or_an_error(bytes: int, request: Option<Request>)
    ensures
        ({
            let answer = response(bytes, request);
            &&& answer is Object
            &&& answer.at("version"@) == Json::Int(1)
            &&& answer->Object_0.contains_key("ok"@) <==> !answer->Object_0.contains_key("error"@)
            &&& answer->Object_0.contains_key("ok"@) <==> bytes <= REQUEST_BYTES && (
            request matches Some(r) && answered(r) is Ok)
        }),
{
    reveal_strlit("version");
    reveal_strlit("ok");
    reveal_strlit("error");
    assert("version"@.len() == 7 && "ok"@.len() == 2 && "error"@.len() == 5);
}

/// A stamp that is issued comes after the last one of the device and after the one it has seen.
pub proof fn stamps_follow_what_was_seen(
    last: Moment,
    seen: Moment,
    now: int,
    device: Seq<char>,
)
    ensures
        issued_after(last, Some(seen), now, device) matches Ok(m) ==> last.before(m) && seen.before(m)
            && m.time >= now,
{
    let from = stamp::latest(last, seen);
    if let Ok(m) = issued_after(last, Some(seen), now, device) {
        stamp::clocks_never_run_back(from, now, device);
        stamp::moments_are_totally_ordered(last, seen, m);
        stamp::moments_are_totally_ordered(seen, last, m);
    }
}

/// A retry waits at least the first delay and no longer than the longest one, unless the provider asks for
/// more; it never comes before the provider allows.
pub proof fn retries_are_bounded(attempts: u32, now: u64, retry_after: Option<u64>)
    ensures
        now + FIRST_DELAY <= retry_time(attempts, now, retry_after),
        retry_after matches Some(allowed) ==> allowed <= retry_time(attempts, now, retry_after),
        retry_time(attempts, now, retry_after) <= now + LONGEST_DELAY || retry_after == Some(
            retry_time(attempts, now, retry_after) as u64,
        ),
{
    let n = lesser(attempts as int, DOUBLINGS as int) as nat;
    power2::lemma_pow2_pos(n);
    assert(FIRST_DELAY * power2::pow2(n) >= FIRST_DELAY) by (nonlinear_arith)
        requires
            power2::pow2(n) > 0,
    ;
}

/// More attempts never shorten the delay.
pub proof fn delays_only_grow(fewer: u32, more: u32)
    requires
        fewer <= more,
    ensures
        delay_after(fewer) <= delay_after(more),
{
    let m = lesser(fewer as int, DOUBLINGS as int) as nat;
    let n = lesser(more as int, DOUBLINGS as int) as nat;
    if m < n {
        power2::lemma_pow2_strictly_increases(m, n);
    }
    assert(FIRST_DELAY * power2::pow2(m) <= FIRST_DELAY * power2::pow2(n)) by (nonlinear_arith)
        requires
            power2::pow2(m) <= power2::pow2(n),
    ;
}

/// When to try again: in 5 seconds after no attempt, in twice as long after each further one, and in half an
/// hour from nine attempts on; later where the provider asks for it. It is told exactly when every client can
/// hold it.
pub proof fn when_to_try_again(attempts: u32, now: u64, retry_after: Option<u64>)
    ensures
        ({
            let delay: int = if attempts == 0 {
                5_000
            } else if attempts == 1 {
                10_000
            } else if attempts == 2 {
                20_000
            } else if attempts == 3 {
                40_000
            } else if attempts == 4 {
                80_000
            } else if attempts == 5 {
                160_000
            } else if attempts == 6 {
                320_000
            } else if attempts == 7 {
                640_000
            } else if attempts == 8 {
                1_280_000
            } else {
                1_800_000
            };
            let r = retried(attempts, now, retry_after);
            &&& r is Ok <==> now + delay <= 9_007_199_254_740_991 && (retry_after is None
                || retry_after->0 <= 9_007_199_254_740_991)
            &&& r matches Ok(t) ==> {
                &&& t >= now + delay
                &&& retry_after matches Some(allowed) ==> t >= allowed
                &&& t == now + delay || retry_after == Some(t)
            }
            &&& r is Err ==> r == Err::<u64, Seq<char>>("time_overflow"@)
        }),
{
    power2::lemma2_to64();
}

/// An operation is carried out on what it was asked of, each by its own rules.
pub proof fn operations_are_carried_out(
    a: Value,
    b: Value,
    at: Stamp,
    id: String,
    command: Command,
    remote: Remote,
    attempts: u32,
    now: u64,
    retry_after: Option<u64>,
)
    ensures
        answered(Request::Merge { a, b }) == wire::merged(a@, b@),
        answered(Request::Capture { before: a, after: b, at, id }) == capture::captured(
            a@,
            b@,
            at@,
            id@,
        ),
        answered(Request::Commands { event: a, current: b }) == events::translated(a@, b@),
        answered(Request::Retry { attempts, now, retry_after }) is Ok <==> retried(
            attempts,
            now,
            retry_after,
        ) is Ok,
        retried(attempts, now, retry_after) matches Ok(t) ==> answered(
            Request::Retry { attempts, now, retry_after },
        ) == Ok::<Json, Seq<char>>(Json::Int(t as int)),
        retried(attempts, now, retry_after) matches Err(e) ==> answered(
            Request::Retry { attempts, now, retry_after },
        ) == Err::<Json, Seq<char>>(e),
        ({
            let r = answered(Request::Decide { command, remote });
            let d = delivery::decided(command, remote);
            &&& r is Ok
            &&& r->Ok_0 is Object
            &&& r->Ok_0->Object_0.dom() == set!["action"@, "reason"@]
            &&& r->Ok_0.at("action"@) == Json::Text("send"@) <==> d.0 == Action::Send
            &&& r->Ok_0.at("action"@) == Json::Text("acknowledge"@) <==> d.0 == Action::Acknowledge
            &&& r->Ok_0.at("action"@) == Json::Text("superseded"@) <==> d.0 == Action::Superseded
            &&& r->Ok_0.at("action"@) == Json::Text("hold"@) <==> d.0 == Action::Hold
            &&& r->Ok_0.at("reason"@) == Json::Text(d.1)
        }),
{
    reveal_strlit("action");
    reveal_strlit("reason");
    reveal_strlit("send");
    reveal_strlit("acknowledge");
    reveal_strlit("superseded");
    reveal_strlit("hold");
    assert("action"@[0] == 'a' && "reason"@[0] == 'r');
    assert("send"@[0] == 's' && "hold"@[0] == 'h' && "acknowledge"@[0] == 'a');
    assert("send"@.len() == 4 && "superseded"@.len() == 10 && "superseded"@[0] == 's');
    let d = delivery::decided(command, remote);
    assert(decision_json(d)->Object_0.dom() =~= set!["action"@, "reason"@]);
}

/// What stamp is issued. It follows the later of the last one and the one seen, where one was: with the time
/// of the clock and a counter of zero where the clock is ahead, and else with the same time and a counter one
/// up; of the device that writes. It is refused exactly where some client could not hold the one it follows
/// or the new one.
pub proof fn what_stamp_is_issued(last: Stamp, seen: Option<Stamp>, now: i64, device: String)
    ensures
        ({
            let r = answered(Request::Issue { last, seen, now, device });
            let (time, counter) = if seen is Some && last@.before(seen->0@) {
                (seen->0@.time, seen->0@.counter)
            } else {
                (last@.time, last@.counter)
            };
            let (next, count) = if now > time {
                (now as int, 0)
            } else {
                (time, counter + 1)
            };
            &&& r is Ok <==> {
                &&& -9_007_199_254_740_991 <= time <= 9_007_199_254_740_991
                &&& counter <= 9_007_199_254_740_991
                &&& next <= 9_007_199_254_740_991
                &&& count <= 9_007_199_254_740_991
            }
            &&& r matches Ok(v) ==> {
                &&& v is List
                &&& v->List_0.len() == 3
                &&& v->List_0[0] == Json::Int(next)
                &&& v->List_0[1] == Json::Int(count)
                &&& v->List_0[2] == Json::Text(device@)
            }
            &&& r is Err ==> r == Err::<Json, Seq<char>>("unsafe_stamp"@)
        }),
{
    let from = if seen is Some && last@.before(seen->0@) {
        seen->0@
    } else {
        last@
    };
    if seen is Some {
        stamp::moments_are_totally_ordered(last@, seen->0@, last@);
        crate::reading::moments_go_by_time_counter_and_device(last@, seen->0@);
    }
    crate::reading::stamps_are_issued(from, now as int, device@);
}

/// What is sent back: the version, and what the request came to or why it came to nothing. A text of more
/// than a mebibyte is refused unread, and one that reads as no request as none.
pub proof fn what_is_sent_back(bytes: int, request: Option<Request>)
    ensures
        ({
            let out = response(bytes, request);
            let why = out.at("error"@);
            &&& out is Object
            &&& out.at("version"@) == Json::Int(1)
            &&& bytes > 1_048_576 ==> why == Json::Text("request_too_large"@)
            &&& bytes <= 1_048_576 && request is None ==> why == Json::Text("invalid_request"@)
            &&& bytes <= 1_048_576 && request is Some && answered(request->0) is Err ==> why
                == Json::Text(answered(request->0)->Err_0)
            &&& bytes <= 1_048_576 && request is Some && answered(request->0) is Ok ==> {
                &&& out->Object_0.dom() == set!["version"@, "ok"@]
                &&& out.at("ok"@) == answered(request->0)->Ok_0
            }
            &&& bytes > 1_048_576 || request is None || answered(request->0) is Err
                ==> out->Object_0.dom() == set!["version"@, "error"@]
        }),
{
    reveal_strlit("version");
    reveal_strlit("ok");
    reveal_strlit("error");
    assert("version"@.len() == 7 && "ok"@.len() == 2 && "error"@.len() == 5);
    let out = response(bytes, request);
    if bytes <= 1_048_576 && request is Some && answered(request->0) is Ok {
        assert(out->Object_0.dom() =~= set!["version"@, "ok"@]);
    } else {
        assert(out->Object_0.dom() =~= set!["version"@, "error"@]);
    }
}

} // verus!
