//! Events of `pactl subscribe`.
use vstd::prelude::*;
use crate::text::{first_found, holds, lemma_first_found, occurs_at, after_prefix, parted_at, same, split_once_at, starts, starts_with, strip_prefix, trim, trimmed};

verus! {

/// A graph change that matters to the audio pipeline's desired state.
#[derive(Debug, Clone, Copy, PartialEq, Eq, Structural)]
pub enum GraphEvent {
    /// A sink was added, changed or removed.
    Sink,
    /// A change of the server (the default sink may have changed).
    Server,
}

/// What a change of this target means.
pub open spec fn event_on(target: Seq<char>) -> Option<GraphEvent> {
    if target == "server"@ {
        Some(GraphEvent::Server)
    } else if target == "sink"@ || starts(target, "sink #"@) {
        Some(GraphEvent::Sink)
    } else {
        None
    }
}

/// The event that a line of `pactl subscribe` tells.
pub open spec fn event_of(line: Seq<char>) -> Option<GraphEvent> {
    match after_prefix(trimmed(line), "Event "@) {
        Some(rest) => match parted_at(rest, " on "@) {
            Some((_, target)) => event_on(trimmed(target)),
            None => None,
        },
        None => None,
    }
}

/// Parse one `pactl subscribe` line, e.g. `Event 'change' on sink #42` is a sink
/// event and `Event 'change' on server` a server event. Other facilities
/// (sink-input, source, client, ...) and other lines are none.
pub fn parse_pactl_event(line: &str) -> (event: Option<GraphEvent>)
    ensures
        event == event_of(line@),
{
    let line = trim(line);
    let rest = match strip_prefix(line.as_str(), "Event ") {
        Some(rest) => rest,
        None => {
            return None;
        },
    };
    let target = match split_once_at(rest.as_str(), " on ") {
        Some((_, target)) => trim(target.as_str()),
        None => {
            return None;
        },
    };
    if same(target.as_str(), "server") {
        Some(GraphEvent::Server)
    } else if same(target.as_str(), "sink") || starts_with(target.as_str(), "sink #") {
        Some(GraphEvent::Sink)
    } else {
        None
    }
}

/// A line tells a change of the server or of a sink where what it says the change is on,
/// behind the first ` on `, is the server, a sink or a numbered sink; a change of anything
/// else, such as a sink input, tells nothing.
pub proof fn events_go_by_their_target(line: Seq<char>, what: Seq<char>, target: Seq<char>)
    requires
        trimmed(line) == "Event "@ + (what + " on "@ + target),
        first_found(what + " on "@ + target, " on "@) == Some(what.len() as int),
    ensures
        event_of(line) == Some(GraphEvent::Server) <==> trimmed(target) == "server"@,
        event_of(line) == Some(GraphEvent::Sink) <==> trimmed(target) == "sink"@ || starts(
            trimmed(target),
            "sink #"@,
        ),
        event_of(line) is None <==> trimmed(target) != "server"@ && trimmed(target) != "sink"@
            && !starts(trimmed(target), "sink #"@),
{
    let rest = what + " on "@ + target;
    let head = "Event "@;
    assert((head + rest).take(head.len() as int) =~= head);
    assert((head + rest).skip(head.len() as int) =~= rest);
    assert(rest.skip(what.len() as int + " on "@.len()) =~= target);
    reveal_strlit("server");
    reveal_strlit("sink");
    reveal_strlit("sink #");
    assert("server"@.len() == 6);
    assert("sink"@.len() == 4);
    if starts("server"@, "sink #"@) {
        assert("server"@.take(6)[1] == 'e');
        assert("sink #"@[1] == 'i');
    }
}

/// Lines that are no events tell nothing, and white space around a line makes no
/// difference.
pub proof fn other_lines_tell_nothing(line: Seq<char>)
    ensures
        !starts(trimmed(line), "Event "@) ==> event_of(line) is None,
        !holds(trimmed(line), " on "@) ==> event_of(line) is None,
        event_of(trimmed(line)) == event_of(line),
{
    crate::text::trimming_is_idempotent(line);
    let l = trimmed(line);
    if let Some(rest) = after_prefix(l, "Event "@) {
        lemma_first_found(rest, " on "@);
        if let Some(n) = first_found(rest, " on "@) {
            let k = "Event "@.len() as int + n;
            assert(l.subrange(k, k + " on "@.len()) =~= rest.subrange(n, n + " on "@.len()));
            assert(occurs_at(l, " on "@, k));
        }
    }
}

} // verus!
