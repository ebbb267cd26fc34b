//! The orchestration protocol as a whole-system transition model, and
//! the laws it obeys.
//!
//! The manager alone decides, but the guarantees of the feature are
//! about everything at once: the manager state, the per-token
//! cancellation flags the driver keeps, the set of workers still
//! running, and the result events that reach the sink. This module
//! models that whole system, one atomic transition per protocol event
//! (all of them happen under the driver's one lock, or at a worker's
//! single completion point), and proves the invariants: at most one
//! unflagged worker at any point, cancellation on divergence with no
//! late result, retention on continuation, and coalescing of bursts.

use vstd::prelude::*;

use crate::manager::MgrView;
use crate::manager::mgr_init;
use crate::manager::spec_complete;
use crate::manager::spec_submit;
use crate::manager::spec_timer_fire;

verus! {

/// Everything the running feature consists of: the manager state, the
/// cancellation flag of every token issued so far, the tokens whose
/// workers have not yet finished, the query each token was launched
/// with, and the result events emitted so far.
pub struct SystemState {
    pub mgr: MgrView,
    pub flags: Map<u64, bool>,
    pub running: Set<u64>,
    pub queries: Map<u64, Seq<char>>,
    pub emitted: Seq<(u64, Seq<char>)>,
}

/// One atomic protocol event.
pub enum SystemEvent {
    /// The caller submits a query and a mode; the driver sets the
    /// cancellation flag the manager hands back, under the same lock.
    Submit(Seq<char>, bool),
    /// The debounce timer fires after the active slot has drained: a
    /// fresh token is issued, its flag starts clear, its worker starts.
    TimerFire,
    /// The worker of this token finishes: it reads its flag, emits a
    /// result exactly when the flag is clear, and hands its token back.
    Complete(u64),
}

/// The system as it stands before anything has happened.
pub open spec fn sys_init() -> SystemState {
    SystemState {
        mgr: mgr_init(),
        flags: Map::empty(),
        running: Set::empty(),
        queries: Map::empty(),
        emitted: Seq::empty(),
    }
}

/// When an event can occur: a timer fires only while pending and only
/// once the slot has drained, and only a running worker can complete.
pub open spec fn step_enabled(s: SystemState, e: SystemEvent) -> bool {
    match e {
        SystemEvent::Submit(q, fg) => true,
        SystemEvent::TimerFire => s.mgr.timer_pending && s.mgr.active is None
            && s.mgr.next_token < u64::MAX,
        SystemEvent::Complete(t) => s.running.contains(t),
    }
}

/// How one event changes the system.
pub open spec fn system_step(s: SystemState, e: SystemEvent) -> SystemState {
    match e {
        SystemEvent::Submit(q, fg) => {
            let (m2, cancel, start) = spec_submit(s.mgr, q, fg);
            let flags2 = match cancel {
                Some(t) => s.flags.insert(t, true),
                None => s.flags,
            };
            SystemState {
                mgr: m2,
                flags: flags2,
                running: s.running,
                queries: s.queries,
                emitted: s.emitted,
            }
        },
        SystemEvent::TimerFire => {
            let t = s.mgr.next_token;
            SystemState {
                mgr: spec_timer_fire(s.mgr),
                flags: s.flags.insert(t, false),
                running: s.running.insert(t),
                queries: s.queries.insert(t, s.mgr.latest_query),
                emitted: s.emitted,
            }
        },
        SystemEvent::Complete(t) => {
            let cancelled = s.flags[t];
            SystemState {
                mgr: spec_complete(s.mgr, t),
                flags: s.flags,
                running: s.running.remove(t),
                queries: s.queries,
                emitted: if !cancelled {
                    s.emitted.push((t, s.queries[t]))
                } else {
                    s.emitted
                },
            }
        },
    }
}

/// The protocol invariant: tokens are issued in order; every running
/// worker is on the books; the active slot's worker is running,
/// unflagged, and recorded under its own query; and — the heart of it —
/// a running worker whose flag is clear is the slot's owner.
pub open spec fn sys_inv(s: SystemState) -> bool {
    &&& forall|t: u64| #[trigger] s.flags.dom().contains(t) ==> t < s.mgr.next_token
    &&& forall|t: u64| #[trigger]
        s.running.contains(t) ==> s.flags.dom().contains(t) && s.queries.dom().contains(t)
    &&& (s.mgr.active matches Some(a) ==> s.running.contains(a.1) && s.flags[a.1] == false
        && s.queries[a.1] == a.0)
    &&& forall|t: u64| #[trigger]
        s.running.contains(t) && s.flags[t] == false ==> s.mgr.active == Some((s.queries[t], t))
}

/// The initial system satisfies the invariant.
pub proof fn lemma_init_inv()
    ensures
        sys_inv(sys_init()),
{
}

/// Every enabled event preserves the invariant.
pub proof fn lemma_step_preserves_inv(s: SystemState, e: SystemEvent)
    requires
        sys_inv(s),
        step_enabled(s, e),
    ensures
        sys_inv(system_step(s, e)),
{
}

/// At-most-one-in-flight: in any state satisfying the invariant, two
/// running workers cannot both hold a clear cancellation flag — an
/// unflagged worker owns the single active slot, and the slot holds one
/// token.
pub proof fn lemma_at_most_one_in_flight(s: SystemState, t1: u64, t2: u64)
    requires
        sys_inv(s),
        s.running.contains(t1),
        s.running.contains(t2),
        s.flags[t1] == false,
        s.flags[t2] == false,
    ensures
        t1 == t2,
{
}

/// A sequence of events, each enabled in the state it meets.
pub open spec fn run_enabled(s: SystemState, evs: Seq<SystemEvent>) -> bool
    decreases evs.len(),
{
    evs.len() == 0 || (step_enabled(s, evs.first()) && run_enabled(
        system_step(s, evs.first()),
        evs.drop_first(),
    ))
}

/// The system after a whole sequence of events.
pub open spec fn system_run(s: SystemState, evs: Seq<SystemEvent>) -> SystemState
    decreases evs.len(),
{
    if evs.len() == 0 {
        s
    } else {
        system_run(system_step(s, evs.first()), evs.drop_first())
    }
}

/// The invariant holds along any enabled run.
pub proof fn lemma_run_preserves_inv(s: SystemState, evs: Seq<SystemEvent>)
    requires
        sys_inv(s),
        run_enabled(s, evs),
    ensures
        sys_inv(system_run(s, evs)),
    decreases evs.len(),
{
    if evs.len() > 0 {
        lemma_step_preserves_inv(s, evs.first());
        lemma_run_preserves_inv(system_step(s, evs.first()), evs.drop_first());
    }
}

/// A set cancellation flag stays set: flags are monotonic.
proof fn lemma_step_flag_monotone(s: SystemState, e: SystemEvent, t: u64)
    requires
        sys_inv(s),
        step_enabled(s, e),
        s.flags.dom().contains(t),
        s.flags[t] == true,
    ensures
        system_step(s, e).flags.dom().contains(t),
        system_step(s, e).flags[t] == true,
{
}

/// Cancellation on divergence: submitting a query that the active
/// search's query is no prefix of sets that search's flag and detaches
/// it, in the very transition that records the new query — so the flag
/// is set no later than any timer that the submission starts.
pub proof fn lemma_cancellation_on_divergence(s: SystemState, q: Seq<char>, fg: bool)
    requires
        sys_inv(s),
        s.mgr.active matches Some(a) && !a.0.is_prefix_of(q),
        q != s.mgr.latest_query || fg != s.mgr.latest_force_glob,
    ensures
        ({
            let s2 = system_step(s, SystemEvent::Submit(q, fg));
            let a = s.mgr.active->0;
            s2.flags[a.1] == true && s2.mgr.active is None && sys_inv(s2)
        }),
{
    lemma_step_preserves_inv(s, SystemEvent::Submit(q, fg));
}

/// A worker whose flag is set never emits: after any enabled run from a
/// state where token `t` stands cancelled, every result event beyond
/// those already emitted belongs to some other token.
pub proof fn lemma_cancelled_never_emits(s: SystemState, t: u64, evs: Seq<SystemEvent>)
    requires
        sys_inv(s),
        run_enabled(s, evs),
        s.flags.dom().contains(t),
        s.flags[t] == true,
    ensures
        ({
            let s2 = system_run(s, evs);
            s2.emitted.len() >= s.emitted.len() && s2.emitted.take(s.emitted.len() as int)
                == s.emitted && forall|i: int|
                s.emitted.len() <= i < s2.emitted.len() ==> (#[trigger] s2.emitted[i]).0 != t
        }),
    decreases evs.len(),
{
    if evs.len() > 0 {
        let e = evs.first();
        let s1 = system_step(s, e);
        lemma_step_preserves_inv(s, e);
        lemma_step_flag_monotone(s, e, t);
        lemma_cancelled_never_emits(s1, t, evs.drop_first());
        let s2 = system_run(s, evs);
        assert(s1.emitted.take(s.emitted.len() as int) =~= s.emitted);
        assert(forall|i: int|
            s.emitted.len() <= i < s1.emitted.len() ==> (#[trigger] s1.emitted[i]).0 != t);
        assert forall|i: int| 0 <= i < s.emitted.len() implies s2.emitted[i] == s.emitted[i] by {
            assert(s2.emitted[i] == s2.emitted.take(s1.emitted.len() as int)[i]);
            assert(s1.emitted[i] == s1.emitted.take(s.emitted.len() as int)[i]);
        }
        assert(s2.emitted.take(s.emitted.len() as int) =~= s.emitted);
        assert forall|i: int|
            s.emitted.len() <= i < s2.emitted.len() implies (#[trigger] s2.emitted[i]).0 != t by {
            if i < s1.emitted.len() {
                assert(s2.emitted[i] == s2.emitted.take(s1.emitted.len() as int)[i]);
                assert(s2.emitted[i] == s1.emitted[i]);
            }
        }
    }
}

/// Retention on continuation: submitting a query that extends the
/// active search's query leaves that search in place with its flag
/// untouched, and leaves a timer pending for the new query.
pub proof fn lemma_retention_on_continuation(s: SystemState, q: Seq<char>, fg: bool)
    requires
        sys_inv(s),
        s.mgr.active matches Some(a) && a.0.is_prefix_of(q),
    ensures
        ({
            let s2 = system_step(s, SystemEvent::Submit(q, fg));
            s2.mgr.active == s.mgr.active && s2.flags == s.flags && ((q != s.mgr.latest_query
                || fg != s.mgr.latest_force_glob) ==> s2.mgr.timer_pending
                && s2.mgr.latest_query == q && s2.mgr.latest_force_glob == fg)
        }),
{
}

/// A burst of submissions, folded over the manager state alone.
pub open spec fn submits_run(m: MgrView, subs: Seq<(Seq<char>, bool)>) -> MgrView
    decreases subs.len(),
{
    if subs.len() == 0 {
        m
    } else {
        submits_run(spec_submit(m, subs.first().0, subs.first().1).0, subs.drop_first())
    }
}

/// How many of the submissions in a burst started a debounce timer.
pub open spec fn submits_started(m: MgrView, subs: Seq<(Seq<char>, bool)>) -> int
    decreases subs.len(),
{
    if subs.len() == 0 {
        0int
    } else {
        (if spec_submit(m, subs.first().0, subs.first().1).2 {
            1int
        } else {
            0int
        }) + submits_started(spec_submit(m, subs.first().0, subs.first().1).0, subs.drop_first())
    }
}

/// While a timer is already pending, further submissions start no new
/// timer; they only overwrite the latest query and mode.
proof fn lemma_pending_absorbs(m: MgrView, subs: Seq<(Seq<char>, bool)>)
    requires
        m.timer_pending,
    ensures
        submits_run(m, subs).timer_pending,
        submits_started(m, subs) == 0,
        subs.len() == 0 ==> submits_run(m, subs) == m,
        subs.len() > 0 ==> submits_run(m, subs).latest_query == subs.last().0 && submits_run(
            m,
            subs,
        ).latest_force_glob == subs.last().1,
    decreases subs.len(),
{
    if subs.len() > 0 {
        let m1 = spec_submit(m, subs.first().0, subs.first().1).0;
        lemma_pending_absorbs(m1, subs.drop_first());
        if subs.len() == 1 {
            assert(subs.first() == subs.last());
        } else {
            assert(subs.drop_first().last() == subs.last());
        }
    }
}

/// Coalescing: a burst of submissions that begins while no timer is
/// pending schedules exactly one search — the first effective
/// submission starts the one timer, the rest coalesce — and what that
/// search will carry is the last submission's query and mode.
pub proof fn lemma_coalescing(m: MgrView, subs: Seq<(Seq<char>, bool)>)
    requires
        !m.timer_pending,
        subs.len() > 0,
        subs.first().0 != m.latest_query || subs.first().1 != m.latest_force_glob,
    ensures
        submits_started(m, subs) == 1,
        submits_run(m, subs).timer_pending,
        submits_run(m, subs).latest_query == subs.last().0,
        submits_run(m, subs).latest_force_glob == subs.last().1,
{
    let m1 = spec_submit(m, subs.first().0, subs.first().1).0;
    lemma_pending_absorbs(m1, subs.drop_first());
    if subs.len() == 1 {
        assert(subs.first() == subs.last());
    } else {
        assert(subs.drop_first().last() == subs.last());
    }
}

} // verus!
