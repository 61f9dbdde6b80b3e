//! The decisions of a connection's life: what a connection sets up, and when
//! the start-up reconnect loop tries again.
use vstd::prelude::*;
use crate::config::{AppConfig, Role};
use crate::state::{STATUS_CONNECTED, STATUS_IDLE};

verus! {

/// What a connection sets up.
pub enum SessionPlan {
    /// Capture the local output into the ring and send it to `target_ip`;
    /// the local output is muted meanwhile, so the audio only plays remotely.
    Send { target_ip: String },
    /// Receive into the ring and play with a `buffer_size_ms` jitter buffer.
    Receive { buffer_size_ms: u32 },
}

impl SessionPlan {
    /// Whether the local output is muted while this plan runs.
    pub fn mutes_output(&self) -> (b: bool)
        ensures
            b == (self is Send),
    {
        match self {
            SessionPlan::Send { .. } => true,
            SessionPlan::Receive { .. } => false,
        }
    }
}

/// The connection that `config` asks for.
pub fn plan_session(config: &AppConfig) -> (p: SessionPlan)
    ensures
        config.role == Role::Sender ==> (p matches SessionPlan::Send { target_ip } && target_ip@
            == config.last_server_ip@),
        config.role == Role::Receiver ==> p == (SessionPlan::Receive {
            buffer_size_ms: config.buffer_size_ms,
        }),
{
    match config.role {
        Role::Sender => SessionPlan::Send { target_ip: config.last_server_ip.clone() },
        Role::Receiver => SessionPlan::Receive { buffer_size_ms: config.buffer_size_ms },
    }
}

/// Polls of the status between two reconnect attempts.
pub const RETRY_POLLS: u32 = 50;

/// Milliseconds between two polls of the status.
pub const POLL_INTERVAL_MS: u64 = 100;

/// Milliseconds the loop waits at start-up for the network to come up.
pub const STARTUP_DELAY_MS: u64 = 3_000;

/// Where the start-up reconnect loop stands.
#[derive(Debug, Clone, Copy, PartialEq, Eq, Structural)]
pub enum AutoConnect {
    /// About to look at the status before an attempt.
    Checking,
    /// An attempt is under way.
    Attempting,
    /// After a failed attempt: `polls` status polls done so far.
    Backoff { polls: u32 },
    /// The loop has ended.
    Finished,
}

/// What the reconnect loop asks of its runner.
#[derive(Debug, Clone, Copy, PartialEq, Eq, Structural)]
pub enum AutoAction {
    /// Try to connect, and report whether it worked (`on_attempt`).
    Attempt,
    /// Set the status back to idle, wait `POLL_INTERVAL_MS` and report the status (`on_status`).
    ResetAndPoll,
    /// Wait `POLL_INTERVAL_MS` and report the status (`on_status`).
    Poll,
    /// Report the status now (`on_status`).
    Check,
    /// End the loop.
    Stop,
}

/// The reconnect loop's reaction to reading `status` in state `s`. Before an
/// attempt it attempts only while the status is idle (anything else means the
/// user connected or disconnected by hand) and ends otherwise. While backing
/// off it ends as soon as the status is connected, and after `RETRY_POLLS`
/// polls it checks again. In any other state it ends.
pub open spec fn status_step(s: AutoConnect, status: u8) -> (AutoConnect, AutoAction) {
    match s {
        AutoConnect::Checking => if status == STATUS_IDLE {
            (AutoConnect::Attempting, AutoAction::Attempt)
        } else {
            (AutoConnect::Finished, AutoAction::Stop)
        },
        AutoConnect::Backoff { polls } => if status == STATUS_CONNECTED {
            (AutoConnect::Finished, AutoAction::Stop)
        } else if polls + 1 >= RETRY_POLLS {
            (AutoConnect::Checking, AutoAction::Check)
        } else {
            (AutoConnect::Backoff { polls: (polls + 1) as u32 }, AutoAction::Poll)
        },
        _ => (AutoConnect::Finished, AutoAction::Stop),
    }
}

/// The state after reading each of `statuses` in turn, starting from `s`.
pub open spec fn after_statuses(s: AutoConnect, statuses: Seq<u8>) -> AutoConnect
    decreases statuses.len(),
{
    if statuses.len() == 0 {
        s
    } else {
        after_statuses(status_step(s, statuses[0]).0, statuses.skip(1))
    }
}

proof fn lemma_backoff_from(k: u32, statuses: Seq<u8>)
    requires
        k < RETRY_POLLS,
        statuses.len() + k == RETRY_POLLS,
        forall|i: int| 0 <= i < statuses.len() ==> statuses[i] != STATUS_CONNECTED,
    ensures
        after_statuses(AutoConnect::Backoff { polls: k }, statuses) == AutoConnect::Checking,
        forall|j: int|
            0 <= j < statuses.len() ==> #[trigger] after_statuses(
                AutoConnect::Backoff { polls: k },
                statuses.take(j),
            ) == (AutoConnect::Backoff { polls: (k + j) as u32 }),
    decreases statuses.len(),
{
    let s0 = AutoConnect::Backoff { polls: k };
    let next = status_step(s0, statuses[0]).0;
    let rest = statuses.skip(1);
    assert(after_statuses(s0, statuses) == after_statuses(next, rest));
    assert(after_statuses(s0, statuses.take(0)) == s0) by {
        assert(statuses.take(0) =~= Seq::<u8>::empty());
    }
    if statuses.len() == 1 {
        assert(next == AutoConnect::Checking);
        assert(rest =~= Seq::<u8>::empty());
        assert(after_statuses(next, rest) == next);
    } else {
        assert(next == AutoConnect::Backoff { polls: (k + 1) as u32 });
        lemma_backoff_from((k + 1) as u32, rest);
        assert forall|j: int| 0 <= j < statuses.len() implies #[trigger] after_statuses(
            s0,
            statuses.take(j),
        ) == (AutoConnect::Backoff { polls: (k + j) as u32 }) by {
            if j > 0 {
                let t = statuses.take(j);
                assert(t.skip(1) =~= rest.take(j - 1));
                assert(t[0] == statuses[0]);
                assert(after_statuses(s0, t) == after_statuses(next, t.skip(1)));
                assert(after_statuses(next, rest.take(j - 1)) == (AutoConnect::Backoff {
                    polls: (k + 1 + (j - 1)) as u32,
                }));
            }
        }
    }
}

/// After a failed attempt the loop waits out all `RETRY_POLLS` polls (none of
/// them attempts) unless one sees the connection up, then checks again: with
/// `POLL_INTERVAL_MS` between polls, attempts are `RETRY_POLLS *
/// POLL_INTERVAL_MS` = 5 seconds apart.
pub proof fn lemma_retry_spacing(statuses: Seq<u8>)
    requires
        statuses.len() == RETRY_POLLS,
        forall|i: int| 0 <= i < statuses.len() ==> statuses[i] != STATUS_CONNECTED,
    ensures
        after_statuses(AutoConnect::Backoff { polls: 0 }, statuses) == AutoConnect::Checking,
        forall|j: int|
            0 <= j < RETRY_POLLS ==> #[trigger] after_statuses(
                AutoConnect::Backoff { polls: 0 },
                statuses.take(j),
            ) == (AutoConnect::Backoff { polls: j as u32 }),
        RETRY_POLLS * POLL_INTERVAL_MS == 5_000,
{
    lemma_backoff_from(0, statuses);
}

/// The reconnect loop never overrides the user: it attempts only right after
/// reading an idle status while about to check; any other status read before
/// an attempt (connecting, connected, error: the user is at work) ends it; and
/// reading a connected status ends it in every state, so a live connection is
/// never torn down by a reconnect.
pub proof fn lemma_respects_user(s: AutoConnect, status: u8)
    ensures
        status_step(s, status).1 == AutoAction::Attempt <==> (s == AutoConnect::Checking
            && status == STATUS_IDLE),
        status_step(s, status).1 == AutoAction::Attempt ==> status_step(s, status).0
            == AutoConnect::Attempting,
        s == AutoConnect::Checking && status != STATUS_IDLE ==> status_step(s, status) == (
        AutoConnect::Finished,
        AutoAction::Stop,
        ),
        status == STATUS_CONNECTED ==> status_step(s, status) == (
        AutoConnect::Finished,
        AutoAction::Stop,
        ),
{
}

impl AutoConnect {
    /// The loop, once the network has had time to come up: it checks first.
    pub fn new() -> (s: Self)
        ensures
            s == AutoConnect::Checking,
    {
        AutoConnect::Checking
    }

    /// The status was read; see `status_step`.
    pub fn on_status(&mut self, status: u8) -> (a: AutoAction)
        ensures
            (*final(self), a) == status_step(*old(self), status),
            a == AutoAction::Attempt <==> (*old(self) == AutoConnect::Checking && status
                == STATUS_IDLE),
            *old(self) == AutoConnect::Checking && status != STATUS_IDLE ==> a == AutoAction::Stop
                && *final(self) == AutoConnect::Finished,
            status == STATUS_CONNECTED ==> a == AutoAction::Stop && *final(self)
                == AutoConnect::Finished,
    {
        proof {
            lemma_respects_user(*old(self), status);
        }
        match *self {
            AutoConnect::Checking => {
                if status == STATUS_IDLE {
                    *self = AutoConnect::Attempting;
                    AutoAction::Attempt
                } else {
                    *self = AutoConnect::Finished;
                    AutoAction::Stop
                }
            },
            AutoConnect::Backoff { polls } => {
                if status == STATUS_CONNECTED {
                    *self = AutoConnect::Finished;
                    AutoAction::Stop
                } else if polls >= RETRY_POLLS - 1 {
                    *self = AutoConnect::Checking;
                    AutoAction::Check
                } else {
                    *self = AutoConnect::Backoff { polls: polls + 1 };
                    AutoAction::Poll
                }
            },
            _ => {
                *self = AutoConnect::Finished;
                AutoAction::Stop
            },
        }
    }

    /// An attempt finished. Success ends the loop; a failure resets the status
    /// to idle and starts the wait before the next attempt.
    pub fn on_attempt(&mut self, connected: bool) -> (a: AutoAction)
        ensures
            *old(self) == AutoConnect::Attempting && connected ==> a == AutoAction::Stop
                && *final(self) == AutoConnect::Finished,
            *old(self) == AutoConnect::Attempting && !connected ==> a == AutoAction::ResetAndPoll
                && *final(self) == (AutoConnect::Backoff { polls: 0 }),
            *old(self) != AutoConnect::Attempting ==> a == AutoAction::Stop && *final(self)
                == AutoConnect::Finished,
    {
        if *self == AutoConnect::Attempting && !connected {
            *self = AutoConnect::Backoff { polls: 0 };
            AutoAction::ResetAndPoll
        } else {
            *self = AutoConnect::Finished;
            AutoAction::Stop
        }
    }
}

} // verus!
