//! The loop over the configured servers: which to try, how many at once, and
//! how long to wait between them.
use vstd::prelude::*;

use super::server_entry::{
    base_text, entry_of_endpoint, entry_views, ConfiguredServerEntry,
};
use crate::config::{Ed2kConfig, ServerEntryView};
use crate::text::{eq_ignore_ascii_case, same_text_ignoring_case};

verus! {

/// Milliseconds before the next attempt after a session that stood.
pub const ESTABLISHED_SESSION_RECONNECT_DELAY: u64 = 3_000;

/// Milliseconds between two looks at attempts that run side by side.
pub const PARALLEL_ATTEMPT_POLL_INTERVAL: u64 = 50;

// ---------------------------------------------------------------------------
// Times
// ---------------------------------------------------------------------------
/// Seconds in milliseconds, as far as a `u64` goes.
pub open spec fn millis_of(secs: u64) -> u64 {
    if secs * 1000 <= u64::MAX {
        (secs * 1000) as u64
    } else {
        u64::MAX
    }
}

/// Seconds in milliseconds, as far as a `u64` goes.
pub fn secs_to_millis(secs: u64) -> (r: u64)
    ensures
        r == millis_of(secs),
{
    if secs <= u64::MAX / 1000 {
        secs * 1000
    } else {
        u64::MAX
    }
}

/// `secs`, but at least one.
pub open spec fn at_least_one(secs: u64) -> u64 {
    if secs < 1 {
        1
    } else {
        secs
    }
}

/// The times that the loop goes by, in milliseconds.
#[derive(Debug, Clone, Copy, PartialEq, Eq, Structural)]
pub struct LoopTimes {
    /// Between attempts that failed.
    pub failed_attempt_delay: u64,
    /// For one connection.
    pub connect_timeout: u64,
    /// Without traffic before a session is kept alive.
    pub keepalive_interval: Option<u64>,
    /// For one session.
    pub rotation_interval: Option<u64>,
}

/// `secs` in milliseconds, nothing where it is zero.
pub open spec fn opt_millis(secs: u64) -> Option<u64> {
    if secs == 0 {
        None
    } else {
        Some(millis_of(secs))
    }
}

fn secs_to_opt_millis(secs: u64) -> (r: Option<u64>)
    ensures
        r == opt_millis(secs),
{
    if secs == 0 {
        None
    } else {
        Some(secs_to_millis(secs))
    }
}

fn one_or_more(secs: u64) -> (r: u64)
    ensures
        r == at_least_one(secs),
{
    if secs < 1 {
        1
    } else {
        secs
    }
}

/// The times that the settings give. A keepalive of zero is none, and so is a
/// rotation of zero.
pub fn loop_times(config: &Ed2kConfig) -> (r: LoopTimes)
    ensures
        r.failed_attempt_delay == millis_of(at_least_one(config.reconnect_interval_secs)),
        r.connect_timeout == millis_of(at_least_one(config.server_connect_timeout_secs)),
        r.keepalive_interval == opt_millis(config.keepalive_secs),
        r.rotation_interval == opt_millis(config.session_rotation_secs),
        r.failed_attempt_delay >= 1_000,
        r.connect_timeout >= 1_000,
        r.keepalive_interval is None <==> config.keepalive_secs == 0,
        r.rotation_interval is None <==> config.session_rotation_secs == 0,
{
    LoopTimes {
        failed_attempt_delay: secs_to_millis(one_or_more(config.reconnect_interval_secs)),
        connect_timeout: secs_to_millis(one_or_more(config.server_connect_timeout_secs)),
        keepalive_interval: secs_to_opt_millis(config.keepalive_secs),
        rotation_interval: secs_to_opt_millis(config.session_rotation_secs),
    }
}

// ---------------------------------------------------------------------------
// Which servers
// ---------------------------------------------------------------------------
/// The first position from `i` on of an entry written like `target`, or the
/// end.
pub open spec fn position_named(entries: Seq<ServerEntryView>, target: Seq<char>, i: int) -> int
    decreases entries.len() - i,
{
    if 0 <= i < entries.len() && !same_text_ignoring_case(base_text(entries[i]), target) {
        position_named(entries, target, i + 1)
    } else {
        i
    }
}

/// The servers to try: all of them or, where one is asked for, that one alone,
/// known or not.
pub open spec fn selected(entries: Seq<ServerEntryView>, target: Option<Seq<char>>) -> Seq<
    ServerEntryView,
> {
    match target {
        None => entries,
        Some(t) => {
            let at = position_named(entries, t, 0);
            if at < entries.len() {
                seq![entries[at]]
            } else {
                match entry_of_endpoint(t) {
                    Ok(e) => seq![e],
                    Err(_) => Seq::empty(),
                }
            }
        },
    }
}

/// What an optional text says.
pub open spec fn opt_str(t: Option<&str>) -> Option<Seq<char>> {
    match t {
        Some(s) => Some(s@),
        None => None,
    }
}

/// Copies of entries.
pub fn copy_entries(entries: &Vec<ConfiguredServerEntry>) -> (r: Vec<ConfiguredServerEntry>)
    ensures
        r@ == entries@,
{
    let mut r: Vec<ConfiguredServerEntry> = Vec::with_capacity(entries.len());
    let mut i: usize = 0;
    while i < entries.len()
        invariant
            i <= entries@.len(),
            r@ == entries@.take(i as int),
        decreases entries@.len() - i,
    {
        r.push(entries[i].duplicate());
        assert(r@ =~= entries@.take(i + 1));
        i += 1;
    }
    assert(r@ =~= entries@);
    r
}

/// The servers to try. A server that is asked for stands alone: the session
/// does not stray to another one.
pub fn selected_configured_servers(
    configured_servers: &Vec<ConfiguredServerEntry>,
    target_endpoint: Option<&str>,
) -> (r: Vec<ConfiguredServerEntry>)
    ensures
        entry_views(r@) == selected(entry_views(configured_servers@), opt_str(target_endpoint)),
{
    let target: &str = match target_endpoint {
        Some(t) => t,
        None => return copy_entries(configured_servers),
    };
    let ghost all = entry_views(configured_servers@);
    let mut i: usize = 0;
    while i < configured_servers.len()
        invariant
            i <= configured_servers@.len(),
            all == entry_views(configured_servers@),
            opt_str(target_endpoint) == Some(target@),
            position_named(all, target@, 0) == position_named(all, target@, i as int),
        decreases configured_servers@.len() - i,
    {
        assert(all[i as int] == configured_servers@[i as int]@);
        if eq_ignore_ascii_case(configured_servers[i].base_endpoint_text().as_str(), target) {
            let mut r: Vec<ConfiguredServerEntry> = Vec::new();
            r.push(configured_servers[i].duplicate());
            assert(entry_views(r@) =~= seq![all[i as int]]);
            return r;
        }
        i += 1;
    }
    let mut r: Vec<ConfiguredServerEntry> = Vec::new();
    if let Ok(e) = ConfiguredServerEntry::from_endpoint_text(target) {
        r.push(e);
        assert(entry_views(r@) =~= seq![e@]);
    } else {
        assert(entry_views(r@) =~= Seq::empty());
    }
    r
}

/// How many servers are tried at once: two, unless connecting is to be safe or
/// one server is asked for.
pub fn max_simultaneous_server_attempts(
    safe_server_connect: bool,
    target_endpoint: Option<&str>,
) -> (r: usize)
    ensures
        r == if safe_server_connect || target_endpoint is Some {
            1int
        } else {
            2
        },
{
    if safe_server_connect || target_endpoint.is_some() {
        1
    } else {
        2
    }
}

/// How a cycle over the servers is made.
#[derive(Debug)]
pub enum CyclePlan {
    /// One server behind the other.
    InOrder(Vec<ConfiguredServerEntry>),
    /// Two servers at a time.
    SideBySide(Vec<ConfiguredServerEntry>),
}

impl CyclePlan {
    /// The servers of the cycle.
    pub open spec fn servers(self) -> Seq<ServerEntryView> {
        match self {
            CyclePlan::InOrder(v) => entry_views(v@),
            CyclePlan::SideBySide(v) => entry_views(v@),
        }
    }
}

/// Plans a cycle over the servers.
pub fn plan_cycle(
    configured_servers: &Vec<ConfiguredServerEntry>,
    target_endpoint: Option<&str>,
    safe_server_connect: bool,
) -> (r: CyclePlan)
    ensures
        r.servers() == selected(entry_views(configured_servers@), opt_str(target_endpoint)),
        r is SideBySide <==> !safe_server_connect && target_endpoint is None
            && configured_servers@.len() > 1,
{
    let servers = selected_configured_servers(configured_servers, target_endpoint);
    assert(entry_views(servers@).len() == servers@.len());
    assert(entry_views(configured_servers@).len() == configured_servers@.len());
    if max_simultaneous_server_attempts(safe_server_connect, target_endpoint) == 2 && servers.len()
        > 1 {
        CyclePlan::SideBySide(servers)
    } else {
        CyclePlan::InOrder(servers)
    }
}

// ---------------------------------------------------------------------------
// One behind the other
// ---------------------------------------------------------------------------
/// Why the loop waits.
#[derive(Debug, Clone, Copy, PartialEq, Eq, Structural)]
pub enum RetryReason {
    /// A session that stood is over.
    EstablishedSessionDrop,
    /// An attempt failed before its session stood.
    ConnectOrSessionEnd,
    /// The order starts over.
    ReconnectSignal,
    /// There is no server to try.
    NoConfiguredServerSelected,
}

impl RetryReason {
    /// The name of a reason.
    pub open spec fn name(self) -> Seq<char> {
        match self {
            RetryReason::EstablishedSessionDrop => "established_session_drop"@,
            RetryReason::ConnectOrSessionEnd => "connect_or_session_end"@,
            RetryReason::ReconnectSignal => "reconnect_signal"@,
            RetryReason::NoConfiguredServerSelected => "no_configured_server_selected"@,
        }
    }

    /// The name of a reason.
    pub fn as_str(self) -> (r: &'static str)
        ensures
            r@ == self.name(),
    {
        match self {
            RetryReason::EstablishedSessionDrop => "established_session_drop",
            RetryReason::ConnectOrSessionEnd => "connect_or_session_end",
            RetryReason::ReconnectSignal => "reconnect_signal",
            RetryReason::NoConfiguredServerSelected => "no_configured_server_selected",
        }
    }
}

/// How long to wait after a session, and why.
pub open spec fn retry_after(was_connected: bool, failed_attempt_delay: u64) -> (
    u64,
    RetryReason,
) {
    if was_connected {
        (ESTABLISHED_SESSION_RECONNECT_DELAY, RetryReason::EstablishedSessionDrop)
    } else {
        (failed_attempt_delay, RetryReason::ConnectOrSessionEnd)
    }
}

/// How long to wait after a session, and why.
pub fn session_end_retry_delay(was_connected: bool, failed_attempt_delay: u64) -> (r: (
    u64,
    RetryReason,
))
    ensures
        r == retry_after(was_connected, failed_attempt_delay),
{
    if was_connected {
        (ESTABLISHED_SESSION_RECONNECT_DELAY, RetryReason::EstablishedSessionDrop)
    } else {
        (failed_attempt_delay, RetryReason::ConnectOrSessionEnd)
    }
}

/// What became of an attempt.
#[derive(Debug, Clone, Copy, PartialEq, Eq, Structural)]
pub enum AttemptOutcome {
    /// The server has no address.
    ResolveFailed,
    /// The session was left in good order.
    ContinueOrder,
    /// The order is to start over.
    RestartPreferredOrder,
    /// The session failed.
    Failed { was_connected: bool },
}

/// What follows an attempt.
#[derive(Debug, Clone, Copy, PartialEq, Eq)]
pub struct AttemptFollowUp {
    /// Whether the server counts as failed.
    pub report_failure: bool,
    /// Whether what is known of the connection is to be cleared.
    pub clear_state: bool,
    /// How long to wait, and why.
    pub wait: Option<(u64, RetryReason)>,
    /// Whether the cycle is over.
    pub end_cycle: bool,
}

/// What follows the attempt on server `index` of `count`.
pub open spec fn follow_up(
    outcome: AttemptOutcome,
    index: int,
    count: int,
    reconnect_enabled: bool,
    shutdown: bool,
    failed_attempt_delay: u64,
) -> AttemptFollowUp {
    let may_wait = reconnect_enabled && !shutdown;
    let retry = match outcome {
        AttemptOutcome::ResolveFailed => retry_after(false, failed_attempt_delay),
        AttemptOutcome::ContinueOrder => retry_after(true, failed_attempt_delay),
        AttemptOutcome::RestartPreferredOrder => (
            ESTABLISHED_SESSION_RECONNECT_DELAY,
            RetryReason::ReconnectSignal,
        ),
        AttemptOutcome::Failed { was_connected } => retry_after(
            was_connected,
            failed_attempt_delay,
        ),
    };
    AttemptFollowUp {
        report_failure: outcome is ResolveFailed || outcome is Failed,
        clear_state: outcome is Failed,
        wait: if may_wait && (index + 1 == count || retry.1 != RetryReason::ConnectOrSessionEnd) {
            Some(retry)
        } else {
            None
        },
        end_cycle: outcome is RestartPreferredOrder,
    }
}

/// What follows the attempt on server `index` of `count`: a wait behind the
/// last one and behind every session that stood.
pub fn after_attempt(
    outcome: AttemptOutcome,
    index: usize,
    count: usize,
    reconnect_enabled: bool,
    shutdown: bool,
    failed_attempt_delay: u64,
) -> (r: AttemptFollowUp)
    requires
        index < count,
    ensures
        r == follow_up(
            outcome,
            index as int,
            count as int,
            reconnect_enabled,
            shutdown,
            failed_attempt_delay,
        ),
{
    let retry: (u64, RetryReason) = match outcome {
        AttemptOutcome::ResolveFailed => session_end_retry_delay(false, failed_attempt_delay),
        AttemptOutcome::ContinueOrder => session_end_retry_delay(true, failed_attempt_delay),
        AttemptOutcome::RestartPreferredOrder => (
            ESTABLISHED_SESSION_RECONNECT_DELAY,
            RetryReason::ReconnectSignal,
        ),
        AttemptOutcome::Failed { was_connected } => session_end_retry_delay(
            was_connected,
            failed_attempt_delay,
        ),
    };
    let waits: bool = reconnect_enabled && !shutdown && (index + 1 == count || retry.1
        != RetryReason::ConnectOrSessionEnd);
    AttemptFollowUp {
        report_failure: matches!(
            outcome,
            AttemptOutcome::ResolveFailed | AttemptOutcome::Failed { .. }
        ),
        clear_state: matches!(outcome, AttemptOutcome::Failed { .. }),
        wait: if waits {
            Some(retry)
        } else {
            None
        },
        end_cycle: matches!(outcome, AttemptOutcome::RestartPreferredOrder),
    }
}

/// What follows a cycle.
#[derive(Debug, Clone, Copy, PartialEq, Eq)]
pub enum LoopStep {
    /// The loop is over.
    Stop,
    /// Another cycle, after a wait where one is given.
    Again(Option<(u64, RetryReason)>),
}

/// What follows a cycle of one server behind the other: another one, unless
/// reconnecting is disabled, after a wait where there was no server to try.
pub fn after_cycle(
    attempted_any: bool,
    reconnect_enabled: bool,
    shutdown: bool,
    failed_attempt_delay: u64,
) -> (r: LoopStep)
    ensures
        r == if !reconnect_enabled || shutdown {
            LoopStep::Stop
        } else if attempted_any {
            LoopStep::Again(None)
        } else {
            LoopStep::Again(Some((failed_attempt_delay, RetryReason::NoConfiguredServerSelected)))
        },
        r is Stop <==> shutdown || !reconnect_enabled,
        r matches LoopStep::Again(wait) ==> (wait is None <==> attempted_any),
{
    if !reconnect_enabled || shutdown {
        LoopStep::Stop
    } else if attempted_any {
        LoopStep::Again(None)
    } else {
        LoopStep::Again(Some((failed_attempt_delay, RetryReason::NoConfiguredServerSelected)))
    }
}

// ---------------------------------------------------------------------------
// Side by side
// ---------------------------------------------------------------------------
/// What a cycle of attempts side by side came to.
#[derive(Debug, Clone, Copy, PartialEq, Eq, Structural)]
pub enum ParallelServerCycleOutcome {
    /// No server is left to try.
    Exhausted,
    /// The session that won is over.
    SessionEnded,
    /// The order is to start over.
    RestartPreferredOrder,
    /// The application shuts down.
    Shutdown,
}

/// What follows a cycle of attempts side by side: another one, unless
/// reconnecting is disabled, sooner after a session that stood.
pub fn after_parallel_cycle(
    outcome: ParallelServerCycleOutcome,
    reconnect_enabled: bool,
    failed_attempt_delay: u64,
) -> (r: LoopStep)
    ensures
        r == if outcome is Shutdown || !reconnect_enabled {
            LoopStep::Stop
        } else if outcome is Exhausted {
            LoopStep::Again(Some((failed_attempt_delay, RetryReason::ConnectOrSessionEnd)))
        } else {
            LoopStep::Again(
                Some((ESTABLISHED_SESSION_RECONNECT_DELAY, RetryReason::EstablishedSessionDrop)),
            )
        },
        r is Stop <==> outcome is Shutdown || !reconnect_enabled,
        r matches LoopStep::Again(wait) ==> (wait matches Some((millis, _)) && millis == (
        if outcome is Exhausted {
            failed_attempt_delay
        } else {
            3_000
        })),
{
    match outcome {
        ParallelServerCycleOutcome::Shutdown => LoopStep::Stop,
        ParallelServerCycleOutcome::Exhausted => {
            if reconnect_enabled {
                LoopStep::Again(Some((failed_attempt_delay, RetryReason::ConnectOrSessionEnd)))
            } else {
                LoopStep::Stop
            }
        },
        _ => {
            if reconnect_enabled {
                LoopStep::Again(
                    Some(
                        (ESTABLISHED_SESSION_RECONNECT_DELAY, RetryReason::EstablishedSessionDrop),
                    ),
                )
            } else {
                LoopStep::Stop
            }
        },
    }
}

/// What a cycle came to whose session won, once that session is over.
pub fn winner_ended(restart_preferred_order: bool) -> (r: ParallelServerCycleOutcome)
    ensures
        r == if restart_preferred_order {
            ParallelServerCycleOutcome::RestartPreferredOrder
        } else {
            ParallelServerCycleOutcome::SessionEnded
        },
{
    if restart_preferred_order {
        ParallelServerCycleOutcome::RestartPreferredOrder
    } else {
        ParallelServerCycleOutcome::SessionEnded
    }
}

/// How far an attempt has come.
#[derive(Debug, Clone, Copy, PartialEq, Eq, Structural)]
pub enum AttemptStatus {
    /// It is not logged in yet.
    Running,
    /// It is logged in.
    Connected,
    /// It was left in good order.
    Continued,
    /// It asks for the order to start over.
    Restarted,
    /// It failed.
    Failed,
    /// It was cancelled or broke down.
    Broken,
}

/// An attempt under way.
#[derive(Debug)]
pub struct ParallelServerAttempt {
    pub configured: ConfiguredServerEntry,
    pub status: AttemptStatus,
}

/// A cycle of attempts side by side.
#[derive(Debug)]
pub struct ParallelCycle {
    /// The servers of the cycle.
    pub servers: Vec<ConfiguredServerEntry>,
    /// The next one to try.
    pub next: usize,
    /// The attempts under way.
    pub active: Vec<ParallelServerAttempt>,
}

/// What attempts hold.
pub open spec fn attempt_views(v: Seq<ParallelServerAttempt>) -> Seq<
    (ServerEntryView, AttemptStatus),
> {
    v.map_values(|a: ParallelServerAttempt| (a.configured@, a.status))
}

/// What a look at the attempts comes to.
#[derive(Debug)]
pub enum ParallelPoll {
    /// The cycle is over.
    Done(ParallelServerCycleOutcome),
    /// The attempt at this position won; the others are to be cancelled.
    Won(usize),
    /// Nothing is decided yet.
    Wait,
}

/// The first position from `i` on of an attempt that is logged in, or the end.
pub open spec fn first_connected(active: Seq<(ServerEntryView, AttemptStatus)>, i: int) -> int
    decreases active.len() - i,
{
    if 0 <= i < active.len() && active[i].1 != AttemptStatus::Connected {
        first_connected(active, i + 1)
    } else {
        i
    }
}

/// `active` without the attempt at `i`, whose place the last one takes.
pub open spec fn taken_out(active: Seq<(ServerEntryView, AttemptStatus)>, i: int) -> Seq<
    (ServerEntryView, AttemptStatus),
> {
    active.update(i, active.last()).drop_last()
}

/// What clearing attempts that are over comes to: those left, those that
/// failed, and whether one asks for the order to start over.
pub struct SweepView {
    pub active: Seq<(ServerEntryView, AttemptStatus)>,
    pub failed: Seq<ServerEntryView>,
    pub restart: bool,
}

/// Clears attempts that are over from position `i` on, behind `failed`.
pub open spec fn swept(
    active: Seq<(ServerEntryView, AttemptStatus)>,
    i: int,
    failed: Seq<ServerEntryView>,
) -> SweepView
    decreases active.len() - i,
{
    if !(0 <= i < active.len()) {
        SweepView { active, failed, restart: false }
    } else {
        match active[i].1 {
            AttemptStatus::Running => swept(active, i + 1, failed),
            AttemptStatus::Connected => swept(active, i + 1, failed),
            AttemptStatus::Restarted => SweepView {
                active: taken_out(active, i),
                failed,
                restart: true,
            },
            AttemptStatus::Failed => swept(taken_out(active, i), i, failed.push(active[i].0)),
            AttemptStatus::Continued => swept(taken_out(active, i), i, failed),
            AttemptStatus::Broken => swept(taken_out(active, i), i, failed),
        }
    }
}

impl ParallelCycle {
    /// A cycle over servers, none of them tried yet.
    pub fn new(servers: Vec<ConfiguredServerEntry>) -> (r: Self)
        ensures
            r.servers == servers,
            r.next == 0,
            r.active@.len() == 0,
            r.well_formed(),
    {
        ParallelCycle { servers, next: 0, active: Vec::new() }
    }

    /// No more than two attempts are under way.
    pub open spec fn well_formed(&self) -> bool {
        &&& self.next <= self.servers@.len()
        &&& self.active@.len() <= 2
    }

    /// The next server to try, where fewer than two attempts are under way.
    pub fn next_to_try(&mut self) -> (r: Option<ConfiguredServerEntry>)
        requires
            old(self).well_formed(),
        ensures
            final(self).well_formed(),
            final(self).servers == old(self).servers,
            final(self).active == old(self).active,
            match r {
                Some(e) => {
                    &&& old(self).active@.len() < 2
                    &&& old(self).next < old(self).servers@.len()
                    &&& e == old(self).servers@[old(self).next as int]
                    &&& final(self).next == old(self).next + 1
                },
                None => {
                    &&& old(self).active@.len() >= 2 || old(self).next >= old(self).servers@.len()
                    &&& final(self).next == old(self).next
                },
            },
    {
        if self.active.len() < 2 && self.next < self.servers.len() {
            let e = self.servers[self.next].duplicate();
            self.next = self.next + 1;
            Some(e)
        } else {
            None
        }
    }

    /// Notes that an attempt is under way.
    pub fn attempt_started(&mut self, configured: ConfiguredServerEntry)
        requires
            old(self).well_formed(),
            old(self).active@.len() < 2,
        ensures
            final(self).well_formed(),
            final(self).servers == old(self).servers,
            final(self).next == old(self).next,
            final(self).active@ == old(self).active@.push(
                ParallelServerAttempt { configured, status: AttemptStatus::Running },
            ),
    {
        self.active.push(ParallelServerAttempt { configured, status: AttemptStatus::Running });
    }

    /// Notes how far an attempt has come.
    pub fn set_status(&mut self, index: usize, status: AttemptStatus)
        requires
            old(self).well_formed(),
            index < old(self).active@.len(),
        ensures
            final(self).well_formed(),
            final(self).servers == old(self).servers,
            final(self).next == old(self).next,
            attempt_views(final(self).active@) == attempt_views(old(self).active@).update(
                index as int,
                (old(self).active@[index as int].configured@, status),
            ),
    {
        let ghost before = attempt_views(self.active@);
        let configured = self.active[index].configured.duplicate();
        self.active.set(index, ParallelServerAttempt { configured, status });
        assert(attempt_views(self.active@) =~= before.update(
            index as int,
            (configured@, status),
        ));
    }

    /// Looks at the attempts: the first that is logged in wins; those that are
    /// over are cleared, and the servers of those that failed are handed out.
    pub fn poll(&mut self, shutdown: bool) -> (r: (ParallelPoll, Vec<ConfiguredServerEntry>))
        requires
            old(self).well_formed(),
        ensures
            final(self).well_formed(),
            final(self).servers == old(self).servers,
            final(self).next == old(self).next,
            ({
                let active = attempt_views(old(self).active@);
                let winner = first_connected(active, 0);
                let sweep = swept(active, 0, Seq::empty());
                if shutdown {
                    &&& r.0 == ParallelPoll::Done(ParallelServerCycleOutcome::Shutdown)
                    &&& r.1@.len() == 0
                    &&& final(self).active == old(self).active
                } else if winner < active.len() {
                    &&& r.0 == ParallelPoll::Won(winner as usize)
                    &&& r.1@.len() == 0
                    &&& final(self).active == old(self).active
                } else {
                    &&& entry_views(r.1@) == sweep.failed
                    &&& attempt_views(final(self).active@) == sweep.active
                    &&& r.0 == if sweep.restart {
                        ParallelPoll::Done(ParallelServerCycleOutcome::RestartPreferredOrder)
                    } else if sweep.active.len() == 0 && old(self).next >= old(
                        self,
                    ).servers@.len() {
                        ParallelPoll::Done(ParallelServerCycleOutcome::Exhausted)
                    } else {
                        ParallelPoll::Wait
                    }
                }
            }),
    {
        let mut failed: Vec<ConfiguredServerEntry> = Vec::new();
        if shutdown {
            return (ParallelPoll::Done(ParallelServerCycleOutcome::Shutdown), failed);
        }
        let ghost active = attempt_views(self.active@);
        let mut i: usize = 0;
        while i < self.active.len() && !matches!(self.active[i].status, AttemptStatus::Connected)
            invariant
                i <= self.active@.len(),
                active == attempt_views(self.active@),
                first_connected(active, 0) == first_connected(active, i as int),
            decreases self.active@.len() - i,
        {
            assert(active[i as int] == (
                self.active@[i as int].configured@,
                self.active@[i as int].status,
            ));
            i += 1;
        }
        if i < self.active.len() {
            assert(active[i as int].1 == self.active@[i as int].status);
            return (ParallelPoll::Won(i), failed);
        }
        let mut index: usize = 0;
        assert(entry_views(failed@) =~= Seq::empty());
        while index < self.active.len()
            invariant
                self.well_formed(),
                !shutdown,
                active == attempt_views(old(self).active@),
                first_connected(active, 0) >= active.len(),
                index <= self.active@.len(),
                self.servers == old(self).servers,
                self.next == old(self).next,
                swept(active, 0, Seq::empty()) == swept(
                    attempt_views(self.active@),
                    index as int,
                    entry_views(failed@),
                ),
            ensures
                self.well_formed(),
                index >= self.active@.len(),
                self.servers == old(self).servers,
                self.next == old(self).next,
                swept(active, 0, Seq::empty()) == swept(
                    attempt_views(self.active@),
                    index as int,
                    entry_views(failed@),
                ),
            decreases self.active@.len() - index,
        {
            let ghost now = attempt_views(self.active@);
            assert(now[index as int].1 == self.active@[index as int].status);
            let status: AttemptStatus = self.active[index].status;
            if matches!(status, AttemptStatus::Running | AttemptStatus::Connected) {
                index += 1;
                continue;
            }
            let attempt = self.active.swap_remove(index);
            assert(attempt_views(self.active@) =~= taken_out(now, index as int));
            match status {
                AttemptStatus::Restarted => {
                    return (
                        ParallelPoll::Done(ParallelServerCycleOutcome::RestartPreferredOrder),
                        failed,
                    );
                },
                AttemptStatus::Failed => {
                    let ghost earlier = entry_views(failed@);
                    failed.push(attempt.configured);
                    assert(entry_views(failed@) =~= earlier.push(now[index as int].0));
                },
                _ => {},
            }
        }
        if self.active.len() == 0 && self.next >= self.servers.len() {
            (ParallelPoll::Done(ParallelServerCycleOutcome::Exhausted), failed)
        } else {
            (ParallelPoll::Wait, failed)
        }
    }
}

// ---------------------------------------------------------------------------
// Laws
// ---------------------------------------------------------------------------
/// A server that is asked for is the only one tried.
pub proof fn law_target_is_pinned(entries: Seq<ServerEntryView>, target: Seq<char>)
    ensures
        selected(entries, Some(target)).len() <= 1,
        (exists|i: int|
            0 <= i < entries.len() && same_text_ignoring_case(
                base_text(#[trigger] entries[i]),
                target,
            )) ==> selected(entries, Some(target)).len() == 1 && same_text_ignoring_case(
            base_text(selected(entries, Some(target))[0]),
            target,
        ),
{
    lemma_position_named(entries, target, 0);
}

proof fn lemma_position_named(entries: Seq<ServerEntryView>, target: Seq<char>, i: int)
    requires
        0 <= i <= entries.len(),
    ensures
        i <= position_named(entries, target, i) <= entries.len(),
        position_named(entries, target, i) < entries.len() ==> same_text_ignoring_case(
            base_text(entries[position_named(entries, target, i)]),
            target,
        ),
        forall|k: int|
            i <= k < position_named(entries, target, i) ==> !same_text_ignoring_case(
                base_text(#[trigger] entries[k]),
                target,
            ),
    decreases entries.len() - i,
{
    if i < entries.len() && !same_text_ignoring_case(base_text(entries[i]), target) {
        lemma_position_named(entries, target, i + 1);
    }
}

/// After a session that stood, the loop waits no longer than after a signal to
/// reconnect, wherever the server stands in the order.
pub proof fn law_established_session_drop_reconnects_fast(
    index: int,
    count: int,
    failed_attempt_delay: u64,
)
    ensures
        follow_up(
            AttemptOutcome::Failed { was_connected: true },
            index,
            count,
            true,
            false,
            failed_attempt_delay,
        ).wait == Some(
            (ESTABLISHED_SESSION_RECONNECT_DELAY, RetryReason::EstablishedSessionDrop),
        ),
        follow_up(
            AttemptOutcome::ContinueOrder,
            index,
            count,
            true,
            false,
            failed_attempt_delay,
        ).wait == Some(
            (ESTABLISHED_SESSION_RECONNECT_DELAY, RetryReason::EstablishedSessionDrop),
        ),
{
}

/// A failed attempt that is not the last of its cycle is followed by the next
/// one at once.
pub proof fn law_failed_attempt_moves_on(
    index: int,
    count: int,
    reconnect_enabled: bool,
    shutdown: bool,
    failed_attempt_delay: u64,
)
    requires
        0 <= index,
        index + 1 < count,
    ensures
        follow_up(
            AttemptOutcome::Failed { was_connected: false },
            index,
            count,
            reconnect_enabled,
            shutdown,
            failed_attempt_delay,
        ).wait is None,
{
}

/// Clearing attempts that are over never adds one.
pub proof fn law_sweeping_adds_no_attempt(
    active: Seq<(ServerEntryView, AttemptStatus)>,
    i: int,
    failed: Seq<ServerEntryView>,
)
    requires
        0 <= i <= active.len(),
    ensures
        swept(active, i, failed).active.len() <= active.len(),
    decreases active.len() - i,
{
    if i < active.len() {
        match active[i].1 {
            AttemptStatus::Running => law_sweeping_adds_no_attempt(active, i + 1, failed),
            AttemptStatus::Connected => law_sweeping_adds_no_attempt(active, i + 1, failed),
            AttemptStatus::Restarted => {},
            AttemptStatus::Failed => law_sweeping_adds_no_attempt(
                taken_out(active, i),
                i,
                failed.push(active[i].0),
            ),
            _ => law_sweeping_adds_no_attempt(taken_out(active, i), i, failed),
        }
    }
}

/// Seconds are a thousand milliseconds each, as far as the clock goes; zero of
/// an interval that may be left out is none, and no delay is less than a second.
pub proof fn law_times_are_in_milliseconds(secs: u64)
    ensures
        secs <= 18_446_744_073_709_551 ==> millis_of(secs) == 1000 * secs,
        secs > 18_446_744_073_709_551 ==> millis_of(secs) == u64::MAX,
        opt_millis(0) is None,
        secs > 0 ==> opt_millis(secs) == Some(millis_of(secs)),
        at_least_one(0) == 1,
        secs > 0 ==> at_least_one(secs) == secs,
{
}

/// Without a target every server is tried, in order. A target that is known is
/// tried as the first entry written like it.
pub proof fn law_selection_is_all_or_the_first_named(
    entries: Seq<ServerEntryView>,
    target: Seq<char>,
    i: int,
)
    ensures
        selected(entries, None) == entries,
        0 <= i < entries.len() && same_text_ignoring_case(base_text(entries[i]), target) && (
        forall|k: int|
            0 <= k < i ==> !same_text_ignoring_case(base_text(#[trigger] entries[k]), target))
            ==> selected(entries, Some(target)) == seq![entries[i]],
{
    lemma_position_named(entries, target, 0);
    if 0 <= i < entries.len() && same_text_ignoring_case(base_text(entries[i]), target) {
        let at = position_named(entries, target, 0);
        if at > i {
            assert(!same_text_ignoring_case(base_text(entries[i]), target));
        }
    }
}

/// A target that no entry is written like is tried as it is spelt, or not at
/// all where it spells no endpoint.
pub proof fn law_unknown_target_is_tried_as_spelt(entries: Seq<ServerEntryView>, target: Seq<char>)
    requires
        forall|k: int|
            0 <= k < entries.len() ==> !same_text_ignoring_case(
                base_text(#[trigger] entries[k]),
                target,
            ),
    ensures
        selected(entries, Some(target)) == (match entry_of_endpoint(target) {
            Ok(e) => seq![e],
            Err(_) => Seq::empty(),
        }),
{
    lemma_position_named(entries, target, 0);
}

/// What follows an attempt. A failure is reported, and only that of a session is
/// cleared; an order to start over ends the cycle. The wait is three seconds
/// behind a session that stood or an order, the configured delay behind the last
/// failed attempt, and none where the client shuts down or must not reconnect.
pub proof fn law_what_follows_an_attempt(
    outcome: AttemptOutcome,
    index: int,
    count: int,
    reconnect_enabled: bool,
    shutdown: bool,
    delay: u64,
)
    requires
        0 <= index < count,
    ensures
        ({
            let f = follow_up(outcome, index, count, reconnect_enabled, shutdown, delay);
            &&& f.report_failure <==> outcome is ResolveFailed || outcome is Failed
            &&& f.clear_state <==> outcome is Failed
            &&& f.end_cycle <==> outcome is RestartPreferredOrder
            &&& shutdown || !reconnect_enabled ==> f.wait is None
            &&& reconnect_enabled && !shutdown ==> match outcome {
                AttemptOutcome::RestartPreferredOrder => f.wait == Some(
                    (3_000u64, RetryReason::ReconnectSignal),
                ),
                AttemptOutcome::ContinueOrder => f.wait == Some(
                    (3_000u64, RetryReason::EstablishedSessionDrop),
                ),
                AttemptOutcome::Failed { was_connected } => if was_connected {
                    f.wait == Some((3_000u64, RetryReason::EstablishedSessionDrop))
                } else if index == count - 1 {
                    f.wait == Some((delay, RetryReason::ConnectOrSessionEnd))
                } else {
                    f.wait is None
                },
                AttemptOutcome::ResolveFailed => if index == count - 1 {
                    f.wait == Some((delay, RetryReason::ConnectOrSessionEnd))
                } else {
                    f.wait is None
                },
            }
        }),
{
}

/// The attempt that won is the first that is connected.
pub proof fn law_first_connected_attempt_wins(
    active: Seq<(ServerEntryView, AttemptStatus)>,
    i: int,
)
    requires
        0 <= i <= active.len(),
    ensures
        ({
            let w = first_connected(active, i);
            &&& i <= w <= active.len()
            &&& w < active.len() ==> active[w].1 == AttemptStatus::Connected
            &&& forall|k: int| i <= k < w ==> (#[trigger] active[k]).1 != AttemptStatus::Connected
        }),
    decreases active.len() - i,
{
    if i < active.len() && active[i].1 != AttemptStatus::Connected {
        law_first_connected_attempt_wins(active, i + 1);
    }
}

/// Clearing leaves alone what is under way: where no attempt is over, nothing
/// changes and nothing is reported.
pub proof fn law_running_attempts_are_kept(
    active: Seq<(ServerEntryView, AttemptStatus)>,
    i: int,
    failed: Seq<ServerEntryView>,
)
    requires
        0 <= i <= active.len(),
        forall|k: int|
            i <= k < active.len() ==> (#[trigger] active[k]).1 == AttemptStatus::Running
                || active[k].1 == AttemptStatus::Connected,
    ensures
        swept(active, i, failed) == (SweepView { active, failed, restart: false }),
    decreases active.len() - i,
{
    if i < active.len() {
        law_running_attempts_are_kept(active, i + 1, failed);
    }
}

/// Clearing without an order to start over leaves no attempt that is over, and
/// reports every attempt that failed and no other.
pub proof fn law_finished_attempts_are_cleared(
    active: Seq<(ServerEntryView, AttemptStatus)>,
    i: int,
    failed: Seq<ServerEntryView>,
)
    requires
        0 <= i <= active.len(),
        forall|k: int| 0 <= k < i ==> (#[trigger] active[k]).1 == AttemptStatus::Running
            || active[k].1 == AttemptStatus::Connected,
    ensures
        ({
            let s = swept(active, i, failed);
            &&& !s.restart ==> forall|k: int|
                0 <= k < s.active.len() ==> (#[trigger] s.active[k]).1 == AttemptStatus::Running
                    || s.active[k].1 == AttemptStatus::Connected
            &&& s.failed.len() >= failed.len()
            &&& s.failed.take(failed.len() as int) == failed
            &&& forall|k: int|
                failed.len() <= k < s.failed.len() ==> active.contains(
                    (#[trigger] s.failed[k], AttemptStatus::Failed),
                )
            &&& !s.restart ==> forall|k: int|
                0 <= k < active.len() && (#[trigger] active[k]).1 == AttemptStatus::Failed
                    ==> s.failed.contains(active[k].0)
        }),
    decreases active.len() - i,
{
    if i < active.len() {
        match active[i].1 {
            AttemptStatus::Running => law_finished_attempts_are_cleared(active, i + 1, failed),
            AttemptStatus::Connected => law_finished_attempts_are_cleared(active, i + 1, failed),
            AttemptStatus::Restarted => {
                assert(failed.take(failed.len() as int) =~= failed);
            },
            AttemptStatus::Failed => {
                let less = taken_out(active, i);
                let more = failed.push(active[i].0);
                law_finished_attempts_are_cleared(less, i, more);
                lemma_taken_out(active, i);
                let s = swept(active, i, failed);
                assert(s.failed.take(failed.len() as int) =~= more.take(failed.len() as int)) by {
                    assert(s.failed.take(more.len() as int).take(failed.len() as int)
                        =~= s.failed.take(failed.len() as int));
                }
                assert(more.take(failed.len() as int) =~= failed);
                assert(s.failed[failed.len() as int] == active[i].0) by {
                    assert(s.failed.take(more.len() as int)[failed.len() as int] == more[failed.len() as int]);
                }
                assert forall|k: int| failed.len() <= k < s.failed.len() implies active.contains(
                    (#[trigger] s.failed[k], AttemptStatus::Failed),
                ) by {
                    if k == failed.len() {
                        assert(active[i] == (s.failed[k], AttemptStatus::Failed));
                    } else {
                        assert(less.contains((s.failed[k], AttemptStatus::Failed)));
                    }
                }
                if !s.restart {
                    assert forall|k: int|
                        0 <= k < active.len() && (#[trigger] active[k]).1
                            == AttemptStatus::Failed implies s.failed.contains(active[k].0) by {
                        if k != i {
                            assert(less.contains(active[k]));
                            let m = choose|m: int| 0 <= m < less.len() && less[m] == active[k];
                            assert(less[m].1 == AttemptStatus::Failed);
                        }
                    }
                }
            },
            _ => {
                let less = taken_out(active, i);
                law_finished_attempts_are_cleared(less, i, failed);
                lemma_taken_out(active, i);
                let s = swept(active, i, failed);
                assert forall|k: int| failed.len() <= k < s.failed.len() implies active.contains(
                    (#[trigger] s.failed[k], AttemptStatus::Failed),
                ) by {
                    assert(less.contains((s.failed[k], AttemptStatus::Failed)));
                }
                if !s.restart {
                    assert forall|k: int|
                        0 <= k < active.len() && (#[trigger] active[k]).1
                            == AttemptStatus::Failed implies s.failed.contains(active[k].0) by {
                        assert(less.contains(active[k]));
                        let m = choose|m: int| 0 <= m < less.len() && less[m] == active[k];
                        assert(less[m].1 == AttemptStatus::Failed);
                    }
                }
            },
        }
    } else {
        assert(failed.take(failed.len() as int) =~= failed);
    }
}

proof fn lemma_taken_out(active: Seq<(ServerEntryView, AttemptStatus)>, i: int)
    requires
        0 <= i < active.len(),
    ensures
        forall|k: int|
            0 <= k < active.len() && k != i ==> taken_out(active, i).contains(#[trigger] active[k]),
        forall|x: (ServerEntryView, AttemptStatus)|
            taken_out(active, i).contains(x) ==> active.contains(x),
        forall|k: int| 0 <= k < i ==> taken_out(active, i)[k] == #[trigger] active[k],
{
    let less = taken_out(active, i);
    assert forall|k: int| 0 <= k < active.len() && k != i implies less.contains(
        #[trigger] active[k],
    ) by {
        if k < active.len() - 1 {
            assert(less[k] == active[k]);
        } else {
            assert(less[i] == active[k]);
        }
    }
    assert forall|x: (ServerEntryView, AttemptStatus)| less.contains(x) implies active.contains(
        x,
    ) by {
        let m = choose|m: int| 0 <= m < less.len() && less[m] == x;
        if m == i {
            assert(active[active.len() - 1] == x);
        } else {
            assert(active[m] == x);
        }
    }
}

} // verus!
