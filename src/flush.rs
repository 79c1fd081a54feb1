use vstd::prelude::*;

verus! {

/// One step of committing a segment, in the order they must run.
#[derive(Clone, Copy, Debug, PartialEq, Eq, Structural)]
pub enum FlushStep {
    /// Create the working directory `<name>.tmp` under the segments root.
    CreateWorkDir,
    WriteIds,
    WriteVectors,
    WriteMeta,
    SyncIds,
    SyncVectors,
    SyncMeta,
    /// Rename the working directory to the final name: the commit point.
    Rename,
    /// Sync the segments root so that the rename itself is durable.
    SyncRoot,
}

/// The position of a step in the commit sequence.
pub open spec fn step_order(s: FlushStep) -> nat {
    match s {
        FlushStep::CreateWorkDir => 0,
        FlushStep::WriteIds => 1,
        FlushStep::WriteVectors => 2,
        FlushStep::WriteMeta => 3,
        FlushStep::SyncIds => 4,
        FlushStep::SyncVectors => 5,
        FlushStep::SyncMeta => 6,
        FlushStep::Rename => 7,
        FlushStep::SyncRoot => 8,
    }
}

/// The number of steps in a commit.
pub const STEP_COUNT: usize = 9;

fn step_at(i: usize) -> (r: FlushStep)
    requires
        i < STEP_COUNT,
    ensures
        step_order(r) == i,
{
    match i {
        0 => FlushStep::CreateWorkDir,
        1 => FlushStep::WriteIds,
        2 => FlushStep::WriteVectors,
        3 => FlushStep::WriteMeta,
        4 => FlushStep::SyncIds,
        5 => FlushStep::SyncVectors,
        6 => FlushStep::SyncMeta,
        7 => FlushStep::Rename,
        _ => FlushStep::SyncRoot,
    }
}

/// How far a commit has come: the steps completed so far, and whether one
/// failed. A failed commit is never resumed or retried.
pub struct FlushProgress {
    completed: usize,
    failed: bool,
}

impl FlushProgress {
    pub closed spec fn completed_view(&self) -> nat {
        self.completed as nat
    }

    pub closed spec fn failed_view(&self) -> bool {
        self.failed
    }

    pub open spec fn well_formed(&self) -> bool {
        self.completed_view() <= STEP_COUNT
    }

    /// Step `s` has completed.
    pub open spec fn has_completed(&self, s: FlushStep) -> bool {
        step_order(s) < self.completed_view()
    }

    /// Readers can see the segment under its final name.
    pub open spec fn segment_visible(&self) -> bool {
        self.has_completed(FlushStep::Rename)
    }

    /// All three files' contents have been synced.
    pub open spec fn contents_durable(&self) -> bool {
        &&& self.has_completed(FlushStep::SyncIds)
        &&& self.has_completed(FlushStep::SyncVectors)
        &&& self.has_completed(FlushStep::SyncMeta)
    }

    /// A commit that has not started.
    pub fn new() -> (r: FlushProgress)
        ensures
            r.well_formed(),
            r.completed_view() == 0,
            !r.failed_view(),
    {
        FlushProgress { completed: 0, failed: false }
    }

    /// The step to run next; `None` once the commit has finished or failed.
    pub fn next_step(&self) -> (r: Option<FlushStep>)
        requires
            self.well_formed(),
        ensures
            r is None <==> (self.failed_view() || self.completed_view() == STEP_COUNT),
            r matches Some(s) ==> step_order(s) == self.completed_view(),
    {
        if self.failed || self.completed >= STEP_COUNT {
            None
        } else {
            Some(step_at(self.completed))
        }
    }

    /// Records the outcome of the step that `next_step` gave.
    pub fn record(&mut self, succeeded: bool)
        requires
            old(self).well_formed(),
            !old(self).failed_view(),
            old(self).completed_view() < STEP_COUNT,
        ensures
            final(self).well_formed(),
            succeeded ==> final(self).completed_view() == old(self).completed_view() + 1
                && !final(self).failed_view(),
            !succeeded ==> final(self).completed_view() == old(self).completed_view()
                && final(self).failed_view(),
    {
        if succeeded {
            self.completed = self.completed + 1;
        } else {
            self.failed = true;
        }
    }

    /// The commit ran every step.
    pub fn is_committed(&self) -> (r: bool)
        ensures
            r == (!self.failed_view() && self.completed_view() == STEP_COUNT),
    {
        !self.failed && self.completed == STEP_COUNT
    }

    /// The segment is visible under its final name.
    pub fn is_visible(&self) -> (r: bool)
        ensures
            r == self.segment_visible(),
    {
        self.completed > 7
    }
}

/// Whenever a commit stops, by failure or by a crash, a segment that readers
/// can see has all three files synced.
pub proof fn lemma_visible_only_when_durable(p: FlushProgress)
    requires
        p.well_formed(),
    ensures
        p.segment_visible() ==> p.contents_durable(),
{
}

/// A commit that stops after the rename but before the root sync still leaves
/// the segment visible.
pub proof fn lemma_visible_before_root_sync(p: FlushProgress)
    requires
        p.well_formed(),
        p.has_completed(FlushStep::Rename),
        !p.has_completed(FlushStep::SyncRoot),
    ensures
        p.segment_visible(),
        p.contents_durable(),
{
}

} // verus!
