//! The collecting side of a cancellable directory walk.
//!
//! The walker itself (the code that reads directories) lives outside the
//! library; it drives a `GlobSearch` by reporting, in traversal order,
//! cancellation checkpoints and candidate files. `GlobSearch` decides
//! everything else: whether a relative path is kept, when the walk is
//! full, and that nothing is collected once cancellation has been
//! observed.

use vstd::prelude::*;

use crate::FileMatch;
use crate::glob::GlobMatcher;
use crate::glob::Tok;
use crate::glob::compile;
use crate::glob::glob_match;
use crate::glob::spec_compile;

verus! {

/// The mathematical state of one glob walk: the compiled pattern, the
/// result cap, the relative paths collected so far, and whether a
/// cancellation has been observed.
pub struct WalkModel {
    pub pat: Seq<Tok>,
    pub limit: int,
    pub paths: Seq<Seq<char>>,
    pub stopped: bool,
}

/// One thing a walk reports to the collector: a cancellation-flag
/// reading taken at a checkpoint, or a candidate regular file.
pub enum WalkEvent {
    Checkpoint(bool),
    Offer(Seq<char>),
}

/// How one event changes the state of a walk.
pub open spec fn walk_step(w: WalkModel, e: WalkEvent) -> WalkModel {
    match e {
        WalkEvent::Checkpoint(cancelled) => {
            if cancelled {
                WalkModel { pat: w.pat, limit: w.limit, paths: w.paths, stopped: true }
            } else {
                w
            }
        },
        WalkEvent::Offer(p) => {
            if !w.stopped && w.paths.len() < w.limit && glob_match(w.pat, p) {
                WalkModel { pat: w.pat, limit: w.limit, paths: w.paths.push(p), stopped: w.stopped }
            } else {
                w
            }
        },
    }
}

/// The state of a walk after a whole sequence of events.
pub open spec fn walk_run(w: WalkModel, evs: Seq<WalkEvent>) -> WalkModel
    decreases evs.len(),
{
    if evs.len() == 0 {
        w
    } else {
        walk_step(walk_run(w, evs.drop_last()), evs.last())
    }
}

/// The relative paths of a vector of matches, in order.
pub open spec fn paths_view(rs: Seq<FileMatch>) -> Seq<Seq<char>> {
    Seq::new(rs.len(), |i: int| rs[i].path@)
}

/// Appending one match appends its path.
proof fn lemma_paths_view_push(rs: Seq<FileMatch>, m: FileMatch)
    ensures
        paths_view(rs.push(m)) == paths_view(rs).push(m.path@),
{
    assert forall|i: int| 0 <= i < paths_view(rs.push(m)).len() implies paths_view(rs.push(m))[i]
        == paths_view(rs).push(m.path@)[i] by {
        if i < rs.len() {
            assert(rs.push(m)[i] == rs[i]);
        } else {
            assert(rs.push(m)[i] == m);
        }
    }
    assert(paths_view(rs.push(m)) =~= paths_view(rs).push(m.path@));
}

/// A running glob search: a compiled matcher, a cap on the number of
/// results, and what has been collected so far.
pub struct GlobSearch {
    matcher: GlobMatcher,
    limit: usize,
    results: Vec<FileMatch>,
    stopped: bool,
}

impl View for GlobSearch {
    type V = WalkModel;

    closed spec fn view(&self) -> WalkModel {
        WalkModel {
            pat: self.matcher@,
            limit: self.limit as int,
            paths: paths_view(self.results@),
            stopped: self.stopped,
        }
    }
}

impl GlobSearch {
    /// Every collected match is a plain hit: score zero, no highlight
    /// indices, and never more of them than the cap allows.
    pub closed spec fn inv(&self) -> bool {
        &&& self.results@.len() <= self.limit
        &&& forall|i: int|
            0 <= i < self.results@.len() ==> (#[trigger] self.results@[i]).score == 0
                && self.results@[i].indices is None
    }

    /// Start a walk with a compiled matcher and a result cap.
    pub fn new(matcher: GlobMatcher, limit: usize) -> (r: GlobSearch)
        ensures
            r@.pat == matcher@,
            r@.limit == limit as int,
            r@.paths == Seq::<Seq<char>>::empty(),
            !r@.stopped,
            r.inv(),
    {
        let r = GlobSearch { matcher, limit, results: Vec::new(), stopped: false };
        proof {
            assert(paths_view(r.results@) =~= Seq::<Seq<char>>::empty());
        }
        r
    }

    /// Record one reading of the cancellation flag, taken by the walker
    /// before a filesystem access.
    pub fn note_checkpoint(&mut self, cancelled: bool)
        ensures
            final(self)@ == walk_step(old(self)@, WalkEvent::Checkpoint(cancelled)),
            final(self).inv() == old(self).inv(),
    {
        if cancelled {
            self.stopped = true;
        }
    }

    /// Offer one regular file, as its path relative to the walk root; it
    /// is kept exactly when the walk is still live, not yet full, and the
    /// matcher accepts the path.
    pub fn offer(&mut self, rel_path: &str)
        ensures
            final(self)@ == walk_step(old(self)@, WalkEvent::Offer(rel_path@)),
            old(self).inv() ==> final(self).inv(),
    {
        if self.stopped {
            return ;
        }
        if self.results.len() >= self.limit {
            return ;
        }
        if self.matcher.is_match(rel_path) {
            let ghost rs0 = self.results@;
            let m = FileMatch { score: 0, path: rel_path.to_owned(), indices: None };
            proof {
                lemma_paths_view_push(rs0, m);
            }
            self.results.push(m);
        }
    }

    /// Whether the walker should turn back: the walk was cancelled or is
    /// already full.
    pub fn should_stop(&self) -> (r: bool)
        ensures
            r == (self@.stopped || self@.paths.len() >= self@.limit),
    {
        self.stopped || self.results.len() >= self.limit
    }

    /// Hand out what was collected, in traversal order.
    pub fn into_results(self) -> (r: Vec<FileMatch>)
        ensures
            paths_view(r@) == self@.paths,
            self.inv() ==> r@.len() <= self@.limit && forall|i: int|
                0 <= i < r@.len() ==> (#[trigger] r@[i]).score == 0 && r@[i].indices is None,
    {
        self.results
    }
}

/// Compile a pattern and open a walk for it; a pattern that does not
/// compile means the empty match set, so no walk at all — the caller
/// reports no matches without an error.
pub fn begin_glob_search(pattern: &str, limit: usize) -> (r: Option<GlobSearch>)
    ensures
        r is Some <==> spec_compile(pattern@) is Some,
        r matches Some(gs) ==> ({
            &&& Some(gs@.pat) == spec_compile(pattern@)
            &&& gs@.limit == limit as int
            &&& gs@.paths == Seq::<Seq<char>>::empty()
            &&& !gs@.stopped
            &&& gs.inv()
        }),
{
    match compile(pattern) {
        Some(matcher) => Some(GlobSearch::new(matcher, limit)),
        None => None,
    }
}

/// A walk that is already stopped collects nothing more, whatever else
/// it is offered.
proof fn lemma_stopped_stays(w: WalkModel, evs: Seq<WalkEvent>)
    requires
        w.stopped,
    ensures
        walk_run(w, evs).stopped,
        walk_run(w, evs).paths == w.paths,
    decreases evs.len(),
{
    if evs.len() > 0 {
        lemma_stopped_stays(w, evs.drop_last());
    }
}

/// Cancellation mid-walk: if the reading at checkpoint `k` came back
/// cancelled, the paths collected by the whole walk are exactly the
/// paths collected strictly before that checkpoint — later offers add
/// nothing, so the result set never grows past the cancellation point.
pub proof fn lemma_cancel_freezes_walk(w: WalkModel, evs: Seq<WalkEvent>, k: int)
    requires
        0 <= k < evs.len(),
        evs[k] == WalkEvent::Checkpoint(true),
    ensures
        walk_run(w, evs).paths == walk_run(w, evs.take(k)).paths,
    decreases evs.len() - k,
{
    if k == evs.len() - 1 {
        assert(evs.drop_last() =~= evs.take(k));
    } else {
        lemma_cancel_freezes_walk(w, evs.drop_last(), k);
        assert(evs.drop_last().take(k) =~= evs.take(k));
        let before = walk_run(w, evs.drop_last());
        assert(before.stopped) by {
            lemma_checkpoint_sets_stopped(w, evs.drop_last(), k);
        }
    }
}

/// After a cancelled checkpoint, the walk state reads as stopped.
proof fn lemma_checkpoint_sets_stopped(w: WalkModel, evs: Seq<WalkEvent>, k: int)
    requires
        0 <= k < evs.len(),
        evs[k] == WalkEvent::Checkpoint(true),
    ensures
        walk_run(w, evs).stopped,
    decreases evs.len(),
{
    if k == evs.len() - 1 {
    } else {
        lemma_checkpoint_sets_stopped(w, evs.drop_last(), k);
    }
}

} // verus!
