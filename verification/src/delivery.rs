//! Whether a command is sent to a provider.

use crate::stamp::MAX_SAFE_INTEGER;
use vstd::prelude::*;

verus! {

/// What a command asks for.
#[derive(Clone, Copy, Debug, PartialEq, Eq, Structural)]
pub enum Kind {
    Watched,
    Unwatched,
    List,
    Rating,
}

/// What a provider is to be told of one title or episode.
#[derive(Clone, Copy, Debug)]
pub struct Command {
    pub kind: Kind,
    pub at: u64,
    pub current: bool,
    pub baseline: bool,
    pub episode: bool,
    pub added: bool,
    pub rating: Option<i32>,
}

/// A mark that a provider holds, and when it was made. `None` is a time that is not known.
#[derive(Clone, Copy, Debug)]
pub struct RemoteTime {
    pub at: Option<u64>,
}

/// A rating that a provider holds, and when it was given.
#[derive(Clone, Copy, Debug)]
pub struct RemoteRating {
    pub at: Option<u64>,
    pub value: Option<i32>,
}

/// Facts from a successful provider read, reduced for one title or episode by the platform adapter.
/// `None` for a whole mark means absent; a present mark with `at: None` means unknown ordering.
#[derive(Clone, Copy, Debug)]
pub struct Remote {
    pub authoritative: bool,
    pub account_matches: bool,
    pub simkl: bool,
    pub watched: Option<RemoteTime>,
    pub listed: Option<RemoteTime>,
    pub rated: Option<RemoteRating>,
    pub any_title_watch: bool,
    pub unknown_or_newer_title_watch: bool,
    pub episodes_complete: bool,
}

/// What becomes of a command.
#[derive(Clone, Copy, Debug, PartialEq, Eq, Structural)]
pub enum Action {
    Send,
    Acknowledge,
    Superseded,
    Hold,
}

/// What becomes of a command, and why.
#[derive(Debug, PartialEq, Eq)]
pub struct Decision {
    pub action: Action,
    pub reason: &'static str,
}

impl View for Decision {
    type V = (Action, Seq<char>);

    open spec fn view(&self) -> (Action, Seq<char>) {
        (self.action, self.reason@)
    }
}

/// Whether a mark is known to be no newer than the command.
pub open spec fn is_older(at: Option<u64>, command: Command) -> bool {
    at matches Some(t) && 0 < t <= command.at
}

/// The rating that a provider holds.
pub open spec fn rating_held(remote: Remote) -> Option<i32> {
    match remote.rated {
        Some(rated) => rated.value,
        None => None,
    }
}

/// Whether a command is one that can be sent at all.
pub open spec fn well_formed(command: Command) -> bool {
    &&& command.at <= MAX_SAFE_INTEGER
    &&& command.rating matches Some(n) ==> 1 <= n <= 10
}

/// Why a provider need not be told: it holds already what the command asks for.
pub open spec fn already(command: Command, remote: Remote) -> Option<Seq<char>> {
    match command.kind {
        Kind::Watched => if remote.watched is Some {
            Some("already_seen"@)
        } else {
            None
        },
        Kind::Unwatched => if remote.watched is None && (!command.episode
            || remote.episodes_complete) {
            Some("already_unseen"@)
        } else {
            None
        },
        Kind::List => if command.added {
            if remote.listed is Some || (command.baseline && remote.any_title_watch) {
                Some("already_present"@)
            } else {
                None
            }
        } else if remote.listed is None {
            Some("already_absent"@)
        } else {
            None
        },
        Kind::Rating => if rating_held(remote) == command.rating || (command.baseline
            && rating_held(remote) is Some) {
            Some("rating_already_satisfied"@)
        } else {
            None
        },
    }
}

/// Why a provider must not be told: too little is known, or more would go than the command asks for.
pub open spec fn obstacle(command: Command, remote: Remote) -> Option<Seq<char>> {
    match command.kind {
        Kind::Watched => None,
        Kind::Unwatched => match remote.watched {
            None => Some("incomplete_episode_coverage"@),
            Some(mark) => if !is_older(mark.at, command) {
                Some("remote_order_unknown_or_newer"@)
            } else if remote.simkl && !command.episode && (rating_held(remote) is Some
                || remote.listed is Some) {
                Some("would_remove_independent_state"@)
            } else {
                None
            },
        },
        Kind::List => if command.added {
            if remote.simkl && remote.unknown_or_newer_title_watch {
                Some("remote_order_unknown_or_newer"@)
            } else {
                None
            }
        } else if !is_older(remote.listed->0.at, command) {
            Some("remote_order_unknown_or_newer"@)
        } else if remote.simkl && (remote.any_title_watch || rating_held(remote) is Some) {
            Some("would_remove_independent_state"@)
        } else {
            None
        },
        Kind::Rating => if remote.rated is Some && !is_older(remote.rated->0.at, command) {
            Some("remote_order_unknown_or_newer"@)
        } else {
            None
        },
    }
}

/// What becomes of a command, and why.
pub open spec fn decided(command: Command, remote: Remote) -> (Action, Seq<char>) {
    if !command.current {
        (Action::Superseded, "newer_local_intent"@)
    } else if !remote.authoritative {
        (Action::Hold, "snapshot_unavailable"@)
    } else if !remote.account_matches {
        (Action::Hold, "account_changed"@)
    } else if !well_formed(command) {
        (Action::Hold, "invalid_command"@)
    } else {
        match (already(command, remote), obstacle(command, remote)) {
            (Some(reason), _) => (Action::Acknowledge, reason),
            (None, Some(reason)) => (Action::Hold, reason),
            (None, None) => (Action::Send, "explicit_current_intent"@),
        }
    }
}

/// What becomes of a command, and why.
fn decision(action: Action, reason: &'static str) -> (d: Decision)
    ensures
        d@ == (action, reason@),
{
    Decision { action, reason }
}

/// Whether a mark is known to be no newer than the command.
fn older(at: Option<u64>, command: &Command) -> (r: bool)
    ensures
        r == is_older(at, *command),
{
    match at {
        Some(t) => t > 0 && t <= command.at,
        None => false,
    }
}

/// Whether two ratings are the same.
fn same_rating(a: Option<i32>, b: Option<i32>) -> (r: bool)
    ensures
        r == (a == b),
{
    match (a, b) {
        (Some(m), Some(n)) => m == n,
        (None, None) => true,
        _ => false,
    }
}

/// What becomes of a command, and why. This never performs a write. The caller must recheck the account
/// and the current intent immediately before the request, and persist the provider's receipt only after an
/// actual acknowledgement.
pub fn decide(command: &Command, remote: &Remote) -> (d: Decision)
    ensures
        d@ == decided(*command, *remote),
{
    if !command.current {
        return decision(Action::Superseded, "newer_local_intent");
    }
    if !remote.authoritative {
        return decision(Action::Hold, "snapshot_unavailable");
    }
    if !remote.account_matches {
        return decision(Action::Hold, "account_changed");
    }
    let rating_valid: bool = match command.rating {
        Some(n) => 1 <= n && n <= 10,
        None => true,
    };
    if command.at > MAX_SAFE_INTEGER || !rating_valid {
        return decision(Action::Hold, "invalid_command");
    }
    let rating: Option<i32> = match &remote.rated {
        Some(rated) => rated.value,
        None => None,
    };
    match command.kind {
        Kind::Watched => {
            if remote.watched.is_some() {
                return decision(Action::Acknowledge, "already_seen");
            }
        },
        Kind::Unwatched => {
            let mark: &RemoteTime = match &remote.watched {
                Some(mark) => mark,
                None => return if !command.episode || remote.episodes_complete {
                    decision(Action::Acknowledge, "already_unseen")
                } else {
                    decision(Action::Hold, "incomplete_episode_coverage")
                },
            };
            if !older(mark.at, command) {
                return decision(Action::Hold, "remote_order_unknown_or_newer");
            }
            if remote.simkl && !command.episode && (rating.is_some() || remote.listed.is_some()) {
                return decision(Action::Hold, "would_remove_independent_state");
            }
        },
        Kind::List => {
            if command.added {
                if remote.listed.is_some() || (command.baseline && remote.any_title_watch) {
                    return decision(Action::Acknowledge, "already_present");
                }
                if remote.simkl && remote.unknown_or_newer_title_watch {
                    return decision(Action::Hold, "remote_order_unknown_or_newer");
                }
            } else {
                let listed: &RemoteTime = match &remote.listed {
                    Some(listed) => listed,
                    None => return decision(Action::Acknowledge, "already_absent"),
                };
                if !older(listed.at, command) {
                    return decision(Action::Hold, "remote_order_unknown_or_newer");
                }
                if remote.simkl && (remote.any_title_watch || rating.is_some()) {
                    return decision(Action::Hold, "would_remove_independent_state");
                }
            }
        },
        Kind::Rating => {
            if same_rating(rating, command.rating) || (command.baseline && rating.is_some()) {
                return decision(Action::Acknowledge, "rating_already_satisfied");
            }
            if let Some(rated) = &remote.rated {
                if !older(rated.at, command) {
                    return decision(Action::Hold, "remote_order_unknown_or_newer");
                }
            }
        },
    }
    decision(Action::Send, "explicit_current_intent")
}

// ---------------------------------------------------------------------------------------------------
// Laws.

/// Only what the user still wants is sent, and only on a snapshot that was read from the right account.
pub proof fn only_current_intent_is_sent(command: Command, remote: Remote)
    ensures
        decided(command, remote).0 == Action::Send ==> command.current && remote.authoritative
            && remote.account_matches && well_formed(command),
        decided(command, remote).0 == Action::Superseded <==> !command.current,
{
}

/// A snapshot that could not be read is neither an empty one nor an acknowledgement: without one, and
/// without the right account, what the user wants is held.
pub proof fn nothing_is_acknowledged_unread(command: Command, remote: Remote)
    requires
        !remote.authoritative || !remote.account_matches,
    ensures
        command.current ==> decided(command, remote).0 == Action::Hold,
        decided(command, remote).0 != Action::Acknowledge,
{
}

/// What is acknowledged is there: the provider holds what the command asks for, or a watch in place of it
/// where the command only sets a baseline.
pub proof fn what_is_acknowledged_is_there(command: Command, remote: Remote)
    requires
        decided(command, remote).0 == Action::Acknowledge,
    ensures
        command.kind == Kind::Watched ==> remote.watched is Some,
        command.kind == Kind::Unwatched ==> remote.watched is None,
        command.kind == Kind::List && command.added ==> remote.listed is Some || command.baseline
            && remote.any_title_watch,
        command.kind == Kind::List && !command.added ==> remote.listed is None,
        command.kind == Kind::Rating ==> rating_held(remote) == command.rating || command.baseline
            && rating_held(remote) is Some,
{
}

/// A mark goes, and a rating is replaced, only where it is known to be no newer than the command.
pub proof fn removals_wait_for_order(command: Command, remote: Remote)
    requires
        decided(command, remote).0 == Action::Send,
    ensures
        command.kind == Kind::Unwatched ==> (remote.watched matches Some(mark) && is_older(
            mark.at,
            command,
        )),
        command.kind == Kind::List && !command.added ==> (remote.listed matches Some(mark)
            && is_older(mark.at, command)),
        command.kind == Kind::Rating ==> (remote.rated matches Some(rated) ==> is_older(
            rated.at,
            command,
        )),
{
}

/// Where a provider takes the rest of a title's state with a mark, a removal is sent only if there is no
/// rest: removals do not erase unrelated remote state.
pub proof fn removals_keep_the_rest(command: Command, remote: Remote)
    requires
        decided(command, remote).0 == Action::Send,
        remote.simkl,
    ensures
        command.kind == Kind::Unwatched && !command.episode ==> rating_held(remote) is None
            && remote.listed is None,
        command.kind == Kind::List && !command.added ==> rating_held(remote) is None
            && !remote.any_title_watch,
{
}

/// Whether a command can be answered by what the provider holds: the user still wants it, it is well
/// formed, and the snapshot was read from the right account.
pub open spec fn answerable(command: Command, remote: Remote) -> bool {
    &&& command.current
    &&& remote.authoritative
    &&& remote.account_matches
    &&& command.at <= 9_007_199_254_740_991
    &&& command.rating is None || 1 <= command.rating->0 <= 10
}

/// A watch is sent exactly where the provider holds none, whatever else it holds.
pub proof fn when_a_watch_is_sent(command: Command, remote: Remote)
    requires
        command.kind == Kind::Watched,
    ensures
        decided(command, remote).0 == Action::Send <==> answerable(command, remote)
            && remote.watched is None,
        decided(command, remote) == (Action::Acknowledge, "already_seen"@) <==> answerable(
            command,
            remote,
        ) && remote.watched is Some,
        answerable(command, remote) ==> decided(command, remote).0 != Action::Hold,
{
    reasons_differ();
}

/// An un-watch is sent exactly where the provider holds a watch of a known time that is not after the
/// command, unless a provider that drops the whole title with it holds a rating or a listing besides.
pub proof fn when_an_unwatch_is_sent(command: Command, remote: Remote)
    requires
        command.kind == Kind::Unwatched,
    ensures
        decided(command, remote).0 == Action::Send <==> answerable(command, remote) && (
        remote.watched matches Some(mark) && mark.at matches Some(t) && 0 < t && t <= command.at)
            && (remote.simkl && !command.episode ==> remote.listed is None && (remote.rated is None
            || remote.rated->0.value is None)),
        decided(command, remote) == (Action::Acknowledge, "already_unseen"@) <==> answerable(
            command,
            remote,
        ) && remote.watched is None && (command.episode ==> remote.episodes_complete),
        decided(command, remote) == (Action::Hold, "incomplete_episode_coverage"@) <==> answerable(
            command,
            remote,
        ) && remote.watched is None && command.episode && !remote.episodes_complete,
        decided(command, remote) == (Action::Hold, "remote_order_unknown_or_newer"@)
            <==> answerable(command, remote) && (remote.watched matches Some(mark) && (mark.at is None
            || mark.at->0 == 0 || mark.at->0 > command.at)),
        decided(command, remote) == (Action::Hold, "would_remove_independent_state"@)
            <==> answerable(command, remote) && (remote.watched matches Some(mark) && mark.at
            matches Some(t) && 0 < t && t <= command.at) && remote.simkl && !command.episode && (
        remote.listed is Some || (remote.rated matches Some(rated) && rated.value is Some)),
{
    reasons_differ();
}

/// A listing is sent exactly where the provider holds none, unless the command only sets a baseline and
/// the title was watched, or the provider moves a listed title out of what was watched and a watch may be
/// newer.
pub proof fn when_a_listing_is_sent(command: Command, remote: Remote)
    requires
        command.kind == Kind::List,
        command.added,
    ensures
        decided(command, remote).0 == Action::Send <==> answerable(command, remote)
            && remote.listed is None && !(command.baseline && remote.any_title_watch) && !(
        remote.simkl && remote.unknown_or_newer_title_watch),
        decided(command, remote) == (Action::Acknowledge, "already_present"@) <==> answerable(
            command,
            remote,
        ) && (remote.listed is Some || (command.baseline && remote.any_title_watch)),
        decided(command, remote) == (Action::Hold, "remote_order_unknown_or_newer"@)
            <==> answerable(command, remote) && remote.listed is None && !(command.baseline
            && remote.any_title_watch) && remote.simkl && remote.unknown_or_newer_title_watch,
{
    reasons_differ();
}

/// A removal from the list is sent exactly where the provider lists the title since a known time that is
/// not after the command, unless a provider that drops the whole title with it holds a watch or a rating
/// besides.
pub proof fn when_a_removal_is_sent(command: Command, remote: Remote)
    requires
        command.kind == Kind::List,
        !command.added,
    ensures
        decided(command, remote).0 == Action::Send <==> answerable(command, remote) && (
        remote.listed matches Some(mark) && mark.at matches Some(t) && 0 < t && t <= command.at)
            && (remote.simkl ==> !remote.any_title_watch && (remote.rated is None
            || remote.rated->0.value is None)),
        decided(command, remote) == (Action::Acknowledge, "already_absent"@) <==> answerable(
            command,
            remote,
        ) && remote.listed is None,
        decided(command, remote) == (Action::Hold, "remote_order_unknown_or_newer"@)
            <==> answerable(command, remote) && (remote.listed matches Some(mark) && (mark.at is None
            || mark.at->0 == 0 || mark.at->0 > command.at)),
        decided(command, remote) == (Action::Hold, "would_remove_independent_state"@)
            <==> answerable(command, remote) && (remote.listed matches Some(mark) && mark.at
            matches Some(t) && 0 < t && t <= command.at) && remote.simkl && (remote.any_title_watch
            || (remote.rated matches Some(rated) && rated.value is Some)),
{
    reasons_differ();
}

/// A rating is sent exactly where the provider's differs from it and the provider's entry, where there is
/// one, has a known time that is not after the command. One that only sets a baseline gives way to any
/// rating. A provider without an entry, or with an entry that holds no rating, has none.
pub proof fn when_a_rating_is_sent(command: Command, remote: Remote)
    requires
        command.kind == Kind::Rating,
    ensures
        ({
            let met = match remote.rated {
                Some(rated) => rated.value == command.rating || command.baseline
                    && rated.value is Some,
                None => command.rating is None,
            };
            let settled = match remote.rated {
                Some(rated) => rated.at matches Some(t) && 0 < t && t <= command.at,
                None => true,
            };
            &&& decided(command, remote).0 == Action::Send <==> answerable(command, remote) && !met
                && settled
            &&& decided(command, remote) == (Action::Acknowledge, "rating_already_satisfied"@)
                <==> answerable(command, remote) && met
            &&& decided(command, remote) == (Action::Hold, "remote_order_unknown_or_newer"@)
                <==> answerable(command, remote) && !met && !settled
        }),
{
    reasons_differ();
}

/// What is not answerable is superseded or held, and the first of these that applies is why: the user wants
/// something newer, nothing was read, it was read from another account, or the command is not well formed.
/// Whatever is sent goes for one reason.
pub proof fn when_nothing_is_looked_at(command: Command, remote: Remote)
    ensures
        decided(command, remote) == (Action::Superseded, "newer_local_intent"@) <==> !command.current,
        decided(command, remote) == (Action::Hold, "snapshot_unavailable"@) <==> command.current
            && !remote.authoritative,
        decided(command, remote) == (Action::Hold, "account_changed"@) <==> command.current
            && remote.authoritative && !remote.account_matches,
        decided(command, remote) == (Action::Hold, "invalid_command"@) <==> command.current
            && remote.authoritative && remote.account_matches && (command.at
            > 9_007_199_254_740_991 || (command.rating matches Some(n) && (n < 1 || n > 10))),
        decided(command, remote).0 == Action::Send <==> decided(command, remote) == (
            Action::Send,
            "explicit_current_intent"@,
        ),
{
    reasons_differ();
}

/// The reasons for holding a command back are told apart.
proof fn reasons_differ()
    ensures
        "incomplete_episode_coverage"@.len() == 27,
        "remote_order_unknown_or_newer"@.len() == 29,
        "would_remove_independent_state"@.len() == 30,
        "snapshot_unavailable"@.len() == 20,
        "account_changed"@.len() == 15,
        "account_changed"@[0] == 'a',
        "invalid_command"@.len() == 15,
        "invalid_command"@[0] == 'i',
{
    reveal_strlit("incomplete_episode_coverage");
    reveal_strlit("remote_order_unknown_or_newer");
    reveal_strlit("would_remove_independent_state");
    reveal_strlit("snapshot_unavailable");
    reveal_strlit("account_changed");
    reveal_strlit("invalid_command");
}

/// What has arrived is not sent again: once the provider holds what a command asked for, whenever it noted
/// it, the same command is acknowledged, and so it is from then on.
pub proof fn what_has_arrived_is_not_sent_again(command: Command, remote: Remote, at: Option<u64>)
    requires
        decided(command, remote).0 == Action::Send,
    ensures
        command.kind == Kind::Watched ==> decided(
            command,
            Remote { watched: Some(RemoteTime { at }), ..remote },
        ).0 == Action::Acknowledge,
        command.kind == Kind::Unwatched && !command.episode ==> decided(
            command,
            Remote { watched: None, ..remote },
        ).0 == Action::Acknowledge,
        command.kind == Kind::Unwatched && remote.episodes_complete ==> decided(
            command,
            Remote { watched: None, ..remote },
        ).0 == Action::Acknowledge,
        command.kind == Kind::List && command.added ==> decided(
            command,
            Remote { listed: Some(RemoteTime { at }), ..remote },
        ).0 == Action::Acknowledge,
        command.kind == Kind::List && !command.added ==> decided(
            command,
            Remote { listed: None, ..remote },
        ).0 == Action::Acknowledge,
        command.kind == Kind::Rating ==> decided(
            command,
            Remote { rated: Some(RemoteRating { at, value: command.rating }), ..remote },
        ).0 == Action::Acknowledge,
{
}

/// A later command is not held back where an earlier one is sent: what is known to be no newer than the one
/// is no newer than the other.
pub proof fn later_commands_are_sent_too(earlier: Command, later: Command, remote: Remote)
    requires
        decided(earlier, remote).0 == Action::Send,
        later == (Command { at: later.at, ..earlier }),
        earlier.at <= later.at <= 9_007_199_254_740_991,
    ensures
        decided(later, remote).0 == Action::Send,
{
}

} // verus!
