//! The debounce/cancel/coalesce core of the file-search feature.
//!
//! `FileSearchManager` is the decision kernel of the orchestration: it
//! holds the shared search state (latest query and mode, whether a
//! debounce timer is pending, and the at-most-one active search) and
//! decides, at each call, what the surrounding driver must do — set a
//! cancellation flag, start a timer, launch a search, emit a result.
//! The driver performs the sleeps, threads and filesystem work and
//! reports back; every decision it acts on is taken, and specified,
//! here.
//!
//! Each active search carries a fresh generation token. The driver keys
//! its shared cancellation flags by token, and a completing worker hands
//! its token back, so a slow, stale worker can never clobber a newer
//! search's slot: the slot is cleared only when the tokens agree.

use vstd::prelude::*;

use crate::glob::has_glob_chars;
use crate::glob::contains_glob_chars;
use crate::text::chars_clone;
use crate::text::chars_eq;
use crate::text::chars_prefix;
use crate::text::chars_to_string;
use crate::text::str_to_chars;

verus! {

/// The search that is currently allowed to run: the query it was
/// launched with and its generation token.
pub struct ActiveSearch {
    pub query: Vec<char>,
    pub token: u64,
}

/// The shared search state and the token generator; see the module
/// documentation.
pub struct FileSearchManager {
    latest_query: Vec<char>,
    latest_force_glob: bool,
    timer_pending: bool,
    active: Option<ActiveSearch>,
    next_token: u64,
}

/// The mathematical state of the manager.
pub struct MgrView {
    pub latest_query: Seq<char>,
    pub latest_force_glob: bool,
    pub timer_pending: bool,
    /// The active search as (query, token), if any.
    pub active: Option<(Seq<char>, u64)>,
    pub next_token: u64,
}

impl View for FileSearchManager {
    type V = MgrView;

    closed spec fn view(&self) -> MgrView {
        MgrView {
            latest_query: self.latest_query@,
            latest_force_glob: self.latest_force_glob,
            timer_pending: self.timer_pending,
            active: match self.active {
                Some(a) => Some((a.query@, a.token)),
                None => None,
            },
            next_token: self.next_token,
        }
    }
}

/// The state of a freshly constructed manager.
pub open spec fn mgr_init() -> MgrView {
    MgrView {
        latest_query: Seq::empty(),
        latest_force_glob: false,
        timer_pending: false,
        active: None,
        next_token: 0,
    }
}

/// What a query submission does to the state, and what it asks of the
/// driver: the token whose cancellation flag must be set, and whether a
/// debounce timer must be started.
///
/// A submission that changes neither the query nor the mode does
/// nothing. Otherwise the latest query and mode are overwritten; an
/// active search whose query is not a prefix of the new query is
/// cancelled and detached, while one that is such a prefix is retained;
/// and a timer is started unless one is already pending.
pub open spec fn spec_submit(m: MgrView, q: Seq<char>, fg: bool) -> (MgrView, Option<u64>, bool) {
    if q == m.latest_query && fg == m.latest_force_glob {
        (m, None::<u64>, false)
    } else {
        let keep = match m.active {
            Some(a) => a.0.is_prefix_of(q),
            None => true,
        };
        let cancel = if keep {
            None::<u64>
        } else {
            Some((m.active->0).1)
        };
        let active2 = if keep {
            m.active
        } else {
            None
        };
        let m2 = MgrView {
            latest_query: q,
            latest_force_glob: fg,
            timer_pending: true,
            active: active2,
            next_token: m.next_token,
        };
        (m2, cancel, !m.timer_pending)
    }
}

/// What the timer firing does to the state: it consumes the pending
/// timer and installs a fresh active search for the latest query, under
/// a new generation token.
pub open spec fn spec_timer_fire(m: MgrView) -> MgrView {
    MgrView {
        latest_query: m.latest_query,
        latest_force_glob: m.latest_force_glob,
        timer_pending: false,
        active: Some((m.latest_query, m.next_token)),
        next_token: (m.next_token + 1) as u64,
    }
}

/// What a completing worker does to the state: the slot is cleared
/// exactly when it still belongs to that worker's token.
pub open spec fn spec_complete(m: MgrView, token: u64) -> MgrView {
    let clear = match m.active {
        Some(a) => a.1 == token,
        None => false,
    };
    MgrView {
        latest_query: m.latest_query,
        latest_force_glob: m.latest_force_glob,
        timer_pending: m.timer_pending,
        active: if clear {
            None
        } else {
            m.active
        },
        next_token: m.next_token,
    }
}

/// What `submit_query` asks of the driver.
pub struct SubmitOutcome {
    /// Set the cancellation flag of this token: its search is obsolete.
    pub cancel: Option<u64>,
    /// Spawn the debounce timer; at most one exists at a time.
    pub start_timer: bool,
}

/// What the fired timer hands to the search worker.
pub struct SearchLaunch {
    pub query: String,
    pub force_glob: bool,
    pub token: u64,
}

impl FileSearchManager {
    /// A manager with no query, no pending timer and no active search.
    pub fn new() -> (r: FileSearchManager)
        ensures
            r@ == mgr_init(),
    {
        let r = FileSearchManager {
            latest_query: Vec::new(),
            latest_force_glob: false,
            timer_pending: false,
            active: None,
            next_token: 0,
        };
        proof {
            assert(r@.latest_query =~= Seq::<char>::empty());
        }
        r
    }

    /// Call whenever the user edits the search token.
    pub fn on_user_query(&mut self, query: String) -> (r: SubmitOutcome)
        ensures
            ({
                let (m2, cancel, start) = spec_submit(old(self)@, query@, false);
                final(self)@ == m2 && r.cancel == cancel && r.start_timer == start
            }),
    {
        self.on_user_query_with_mode(query, false)
    }

    /// Record a query with an explicit mode; when `force_glob` is true
    /// the search will use glob semantics even if the query lacks glob
    /// characters. Returns what the driver must now do.
    pub fn on_user_query_with_mode(&mut self, query: String, force_glob: bool) -> (r:
        SubmitOutcome)
        ensures
            ({
                let (m2, cancel, start) = spec_submit(old(self)@, query@, force_glob);
                final(self)@ == m2 && r.cancel == cancel && r.start_timer == start
            }),
    {
        let q = str_to_chars(query.as_str());
        let query_changed = !chars_eq(&q, &self.latest_query);
        let mode_changed = force_glob != self.latest_force_glob;
        if !(query_changed || mode_changed) {
            return SubmitOutcome { cancel: None, start_timer: false };
        }

        self.latest_query = q;
        self.latest_force_glob = force_glob;

        let mut cancel_tok: Option<u64> = None;
        match &self.active {
            Some(a) => {
                if !chars_prefix(&a.query, &self.latest_query) {
                    cancel_tok = Some(a.token);
                }
            },
            None => {},
        }
        if cancel_tok.is_some() {
            self.active = None;
        }

        let start_timer = !self.timer_pending;
        self.timer_pending = true;
        SubmitOutcome { cancel: cancel_tok, start_timer }
    }

    /// Call from the timer worker once the debounce has elapsed and the
    /// active-search slot has drained. Installs the new active search
    /// and hands back what the search worker needs.
    pub fn timer_fire(&mut self) -> (r: SearchLaunch)
        requires
            old(self)@.timer_pending,
            old(self)@.active is None,
            old(self)@.next_token < u64::MAX,
        ensures
            final(self)@ == spec_timer_fire(old(self)@),
            r.query@ == old(self)@.latest_query,
            r.force_glob == old(self)@.latest_force_glob,
            r.token == old(self)@.next_token,
    {
        let token = self.next_token;
        self.next_token = token + 1;
        self.timer_pending = false;
        let snapshot = chars_clone(&self.latest_query);
        let query = chars_to_string(&snapshot);
        self.active = Some(ActiveSearch { query: snapshot, token });
        SearchLaunch { query, force_glob: self.latest_force_glob, token }
    }

    /// Whether a search is currently active; the timer worker waits for
    /// the slot to drain before it installs the next search.
    pub fn has_active_search(&self) -> (r: bool)
        ensures
            r == (self@.active is Some),
    {
        self.active.is_some()
    }

    /// Whether a debounce timer is pending.
    pub fn is_search_scheduled(&self) -> (r: bool)
        ensures
            r == self@.timer_pending,
    {
        self.timer_pending
    }

    /// The next generation token to be issued.
    pub fn next_token(&self) -> (r: u64)
        ensures
            r == self@.next_token,
    {
        self.next_token
    }

    /// Call when the worker holding `token` has finished, with the value
    /// it read from its cancellation flag at completion. Returns whether
    /// the driver emits a result event; the slot is cleared exactly when
    /// it still belongs to that worker.
    pub fn on_search_complete(&mut self, token: u64, cancelled: bool) -> (emit: bool)
        ensures
            final(self)@ == spec_complete(old(self)@, token),
            emit == !cancelled,
    {
        let mut clear = false;
        match &self.active {
            Some(a) => {
                if a.token == token {
                    clear = true;
                }
            },
            None => {},
        }
        if clear {
            self.active = None;
        }
        !cancelled
    }
}

/// The mode decision and the query a search will actually run with: glob
/// matching is used when forced or when the query holds glob characters,
/// and a forced glob over a literal query gets a trailing wildcard so it
/// behaves as a prefix search.
pub struct SearchPlan {
    pub use_glob: bool,
    pub query: String,
}

/// Decide which engine a search uses and the effective query text.
pub fn plan_search(query: &str, force_glob: bool) -> (r: SearchPlan)
    ensures
        r.use_glob == (force_glob || has_glob_chars(query@)),
        has_glob_chars(query@) || !force_glob ==> r.query@ == query@,
        force_glob && !has_glob_chars(query@) ==> r.query@ == query@.push('*'),
{
    let has_glob = contains_glob_chars(query);
    let use_glob = force_glob || has_glob;
    if use_glob && !has_glob {
        let mut v = str_to_chars(query);
        v.push('*');
        SearchPlan { use_glob, query: chars_to_string(&v) }
    } else {
        SearchPlan { use_glob, query: query.to_owned() }
    }
}

} // verus!
