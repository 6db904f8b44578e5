//! Process composition: the role that the arguments ask for, and how a client
//! waits for the per-user engine to be ready.
use crate::text::same_text;
use vstd::prelude::*;
use vstd::string::*;

verus! {

/// What the process is to be.
#[derive(Debug, Clone, Copy, PartialEq, Eq, Structural)]
pub enum Role {
    Engine,
    Worker,
    Client,
}

/// The role that the first argument names.
pub open spec fn role_of(first: Option<Seq<char>>) -> Role {
    if first == Some("engine"@) || first == Some("__pulsar-engine"@) {
        Role::Engine
    } else if first == Some("worker"@) || first == Some("__pulsar-worker"@) {
        Role::Worker
    } else {
        Role::Client
    }
}

fn is_one_of(word: Option<&str>, a: &str, b: &str) -> (res: bool)
    ensures
        res == (word matches Some(w) && (w@ == a@ || w@ == b@)),
{
    match word {
        Some(w) => same_text(w, a) || same_text(w, b),
        None => false,
    }
}

/// The role for a command line of `count` words, the program's name among them.
/// Engine and worker take no further words.
pub fn select_role(first: Option<&str>, count: usize) -> (res: Result<Role, String>)
    ensures
        ({
            let role = role_of(
                match first {
                    Some(w) => Some(w@),
                    None => None,
                },
            );
            &&& res is Ok <==> role == Role::Client || count == 2
            &&& res matches Ok(r) ==> r == role
            &&& res matches Err(text) ==> text@ == (if role == Role::Engine {
                "engine role accepts no user commands; use PULSAR_STATE_DIR for an isolated state directory"@
            } else {
                "worker role reads one bounded engine manifest from standard input"@
            })
        }),
{
    if is_one_of(first, "engine", "__pulsar-engine") {
        if count != 2 {
            return Err(
                "engine role accepts no user commands; use PULSAR_STATE_DIR for an isolated state directory".to_owned(),
            );
        }
        return Ok(Role::Engine);
    }
    if is_one_of(first, "worker", "__pulsar-worker") {
        if count != 2 {
            return Err(
                "worker role reads one bounded engine manifest from standard input".to_owned(),
            );
        }
        return Ok(Role::Worker);
    }
    Ok(Role::Client)
}

/// How long the engine may take to be ready, in milliseconds.
pub const ENGINE_STARTUP_TIMEOUT_MS: u64 = 10000;

/// How long one probe of the endpoint may take, in milliseconds.
pub const ENDPOINT_PROBE_TIMEOUT_MS: u64 = 250;

/// How long to wait between probes, in milliseconds.
pub const RETRY_PAUSE_MS: u64 = 40;

/// The moment by which the engine must be ready, unless it lies beyond the clock.
pub fn startup_deadline(now: u64) -> (res: Result<u64, String>)
    ensures
        res is Ok <==> now + ENGINE_STARTUP_TIMEOUT_MS <= u64::MAX,
        res matches Ok(deadline) ==> deadline == now + ENGINE_STARTUP_TIMEOUT_MS,
        res matches Err(text) ==> text@ == "engine startup timeout overflow"@,
{
    match now.checked_add(ENGINE_STARTUP_TIMEOUT_MS) {
        Some(deadline) => Ok(deadline),
        None => Err("engine startup timeout overflow".to_owned()),
    }
}

/// The milliseconds left until the deadline; none left is an error.
pub fn startup_remaining(deadline: u64, now: u64) -> (res: Result<u64, String>)
    ensures
        res is Ok <==> now < deadline,
        res matches Ok(left) ==> left == deadline - now && left > 0,
        res matches Err(text) ==> text@
            == "engine startup deadline exceeded; inspect the engine before retrying"@,
{
    if now < deadline {
        Ok(deadline - now)
    } else {
        Err("engine startup deadline exceeded; inspect the engine before retrying".to_owned())
    }
}

/// The time that a step takes at most: its own limit, or what is left.
pub open spec fn limited(left: u64, limit: u64) -> u64 {
    if left < limit {
        left
    } else {
        limit
    }
}

/// How long the next probe may take; the deadline must lie ahead.
pub fn probe_timeout(deadline: u64, now: u64) -> (res: Result<u64, String>)
    ensures
        res is Ok <==> now < deadline,
        res matches Ok(t) ==> t == limited((deadline - now) as u64, ENDPOINT_PROBE_TIMEOUT_MS),
        res matches Err(text) ==> text@
            == "engine startup deadline exceeded; inspect the engine before retrying"@,
{
    let left: u64 = match startup_remaining(deadline, now) {
        Ok(left) => left,
        Err(text) => {
            return Err(text);
        },
    };
    if left < ENDPOINT_PROBE_TIMEOUT_MS {
        Ok(left)
    } else {
        Ok(ENDPOINT_PROBE_TIMEOUT_MS)
    }
}

/// How long to wait before the next probe; the deadline must lie ahead.
pub fn retry_pause(deadline: u64, now: u64) -> (res: Result<u64, String>)
    ensures
        res is Ok <==> now < deadline,
        res matches Ok(t) ==> t == limited((deadline - now) as u64, RETRY_PAUSE_MS),
        res matches Err(text) ==> text@
            == "engine startup deadline exceeded; inspect the engine before retrying"@,
{
    let left: u64 = match startup_remaining(deadline, now) {
        Ok(left) => left,
        Err(text) => {
            return Err(text);
        },
    };
    if left < RETRY_PAUSE_MS {
        Ok(left)
    } else {
        Ok(RETRY_PAUSE_MS)
    }
}

/// What a probe of the engine's endpoint met.
#[derive(Debug, Clone, Copy, PartialEq, Eq, Structural)]
pub enum ProbeReply {
    Connected,
    NotFound,
    Refused,
    Failed,
}

/// Whether an engine accepts connections. An endpoint that is neither open nor
/// plainly absent is an error, so that no engine is started beside it.
pub fn endpoint_accepts_connections(reply: ProbeReply) -> (res: Result<bool, String>)
    ensures
        res is Ok <==> reply != ProbeReply::Failed,
        res matches Ok(open) ==> open == (reply == ProbeReply::Connected),
        res matches Err(text) ==> text@
            == "engine endpoint is busy, unresponsive, or inaccessible; existing engine left untouched"@,
{
    match reply {
        ProbeReply::Connected => Ok(true),
        ProbeReply::NotFound | ProbeReply::Refused => Ok(false),
        ProbeReply::Failed => Err(
            "engine endpoint is busy, unresponsive, or inaccessible; existing engine left untouched".to_owned(),
        ),
    }
}

/// How the wait for the engine stands: what is being done.
#[derive(Debug, Clone, Copy, PartialEq, Eq, Structural)]
pub enum StartupPhase {
    /// Probing for an engine that runs already
    FirstProbe,
    /// Starting an engine
    Spawn,
    /// Probing the engine that was started
    Probe,
    /// Looking whether the engine that was started has ended
    ObserveChild,
    /// Probing once more, since it has ended
    LastProbe,
    /// Looking whether another engine holds the instance lock
    InspectLock,
    /// Waiting before the next probe
    Pause,
    /// An engine accepts connections
    Ready,
    /// The engine that was started has ended and no other is there
    Ended,
}

/// What came of the step that was taken.
#[derive(Debug, Clone, Copy, PartialEq, Eq, Structural)]
pub enum StartupEvent {
    /// The question was answered with yes, or the action was carried out
    Yes,
    /// The question was answered with no
    No,
}

/// What follows a step. A first probe that fails starts an engine; from there on
/// none is started any more.
pub open spec fn next_phase(phase: StartupPhase, event: StartupEvent) -> StartupPhase {
    let yes = event == StartupEvent::Yes;
    match phase {
        StartupPhase::FirstProbe => if yes {
            StartupPhase::Ready
        } else {
            StartupPhase::Spawn
        },
        StartupPhase::Spawn => StartupPhase::Probe,
        StartupPhase::Probe => if yes {
            StartupPhase::Ready
        } else {
            StartupPhase::ObserveChild
        },
        StartupPhase::ObserveChild => if yes {
            StartupPhase::LastProbe
        } else {
            StartupPhase::Pause
        },
        StartupPhase::LastProbe => if yes {
            StartupPhase::Ready
        } else {
            StartupPhase::InspectLock
        },
        StartupPhase::InspectLock => if yes {
            StartupPhase::Pause
        } else {
            StartupPhase::Ended
        },
        StartupPhase::Pause => StartupPhase::Probe,
        StartupPhase::Ready => StartupPhase::Ready,
        StartupPhase::Ended => StartupPhase::Ended,
    }
}

/// The step that follows another.
pub fn advance_startup(phase: StartupPhase, event: StartupEvent) -> (next: StartupPhase)
    ensures
        next == next_phase(phase, event),
{
    let yes: bool = event == StartupEvent::Yes;
    match phase {
        StartupPhase::FirstProbe => {
            if yes {
                StartupPhase::Ready
            } else {
                StartupPhase::Spawn
            }
        },
        StartupPhase::Spawn => StartupPhase::Probe,
        StartupPhase::Probe => {
            if yes {
                StartupPhase::Ready
            } else {
                StartupPhase::ObserveChild
            }
        },
        StartupPhase::ObserveChild => {
            if yes {
                StartupPhase::LastProbe
            } else {
                StartupPhase::Pause
            }
        },
        StartupPhase::LastProbe => {
            if yes {
                StartupPhase::Ready
            } else {
                StartupPhase::InspectLock
            }
        },
        StartupPhase::InspectLock => {
            if yes {
                StartupPhase::Pause
            } else {
                StartupPhase::Ended
            }
        },
        StartupPhase::Pause => StartupPhase::Probe,
        StartupPhase::Ready => StartupPhase::Ready,
        StartupPhase::Ended => StartupPhase::Ended,
    }
}

/// The steps of a wait, from the first probe on, each but the last with what came
/// of it.
pub open spec fn phase_after(events: Seq<StartupEvent>) -> StartupPhase
    decreases events.len(),
{
    if events.len() == 0 {
        StartupPhase::FirstProbe
    } else {
        next_phase(phase_after(events.drop_last()), events.last())
    }
}

/// An engine is started at most once in a wait, and only right after the first
/// probe.
pub proof fn lemma_spawned_once(events: Seq<StartupEvent>)
    ensures
        phase_after(events) == StartupPhase::FirstProbe <==> events.len() == 0,
        phase_after(events) == StartupPhase::Spawn ==> events.len() == 1,
    decreases events.len(),
{
    if events.len() > 0 {
        lemma_spawned_once(events.drop_last());
    }
}

/// The wait succeeds only where a probe found an engine, and fails only where the
/// engine that was started had ended and the lock was free.
pub proof fn lemma_outcome_has_cause(events: Seq<StartupEvent>)
    requires
        events.len() > 0,
        phase_after(events.drop_last()) != phase_after(events),
    ensures
        phase_after(events) == StartupPhase::Ready ==> events.last() == StartupEvent::Yes && (
        phase_after(events.drop_last()) == StartupPhase::FirstProbe || phase_after(
            events.drop_last(),
        ) == StartupPhase::Probe || phase_after(events.drop_last()) == StartupPhase::LastProbe),
        phase_after(events) == StartupPhase::Ended ==> events.last() == StartupEvent::No
            && phase_after(events.drop_last()) == StartupPhase::InspectLock,
{
}

/// What is said where the engine that was started ended with `status`.
pub fn ended_message(status: &str) -> (text: String)
    ensures
        text@ == "engine startup exited with "@ + status@
            + "; run 'pulsar engine' to see its diagnostic"@,
{
    let mut text: String = "engine startup exited with ".to_owned();
    text.append(status);
    text.append("; run 'pulsar engine' to see its diagnostic");
    text
}

/// A step takes no longer than its limit and than what is left, and all it can of both.
pub proof fn lemma_limited(left: u64, limit: u64)
    ensures
        limited(left, limit) <= left,
        limited(left, limit) <= limit,
        limited(left, limit) == left || limited(left, limit) == limit,
{
}

/// A probe that finds an engine ends the wait at once. While none is found and the engine
/// that was started runs, or the lock is held, the wait goes on with another probe.
pub proof fn lemma_wait_goes_on()
    ensures
        next_phase(StartupPhase::FirstProbe, StartupEvent::Yes) is Ready,
        next_phase(StartupPhase::Probe, StartupEvent::Yes) is Ready,
        next_phase(StartupPhase::LastProbe, StartupEvent::Yes) is Ready,
        forall|e: StartupEvent| #[trigger]
            next_phase(next_phase(StartupPhase::ObserveChild, StartupEvent::No), e) is Probe,
        forall|e: StartupEvent| #[trigger]
            next_phase(next_phase(StartupPhase::InspectLock, StartupEvent::Yes), e) is Probe,
        forall|e: StartupEvent| #[trigger]
            next_phase(next_phase(StartupPhase::FirstProbe, StartupEvent::No), e) is Probe,
        next_phase(
            next_phase(
                next_phase(
                    next_phase(StartupPhase::Probe, StartupEvent::No),
                    StartupEvent::Yes,
                ),
                StartupEvent::No,
            ),
            StartupEvent::No,
        ) is Ended,
{
}

} // verus!
