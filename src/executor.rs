//! The migration executor as a state machine: it decides, and a database
//! backend carries out each action it asks for and reports back.
use vstd::prelude::*;
use crate::error::ScurryError;
use crate::history::{
    choose_upgrade_path, divergence, history_mark, upgrade_path, verify_common_history,
};
use crate::models::{history_view, ScurryMetadata};
use crate::versions::{catalog_view, ceiling, DesiredVersion, Version};

verus! {

/// What the backend is asked to do next.
#[derive(Debug)]
pub enum Action {
    /// Create the history table if it is absent.
    EnsureTable,
    /// Take the exclusive lock on the history table, inside the outer scope.
    LockTable,
    /// Read the whole history, ascending by version.
    ReadHistory,
    /// In a nested scope of its own, run this script verbatim, append its
    /// history row, and commit the nested scope.
    Apply(Version),
    /// The run succeeded after applying this many scripts.
    Finished(usize),
    /// The run stopped on this error; scripts applied before it stay applied.
    Aborted(ScurryError),
}

/// What the backend reports after carrying out an action.
#[derive(Debug)]
pub enum Event {
    /// The action succeeded.
    Done,
    /// The history that `ReadHistory` read.
    History(Vec<ScurryMetadata>),
    /// The action failed.
    Failed(ScurryError),
}

/// Where a run stands.
#[derive(Debug, Clone, Copy, PartialEq, Eq, Structural)]
pub enum Stage {
    Idle,
    EnsuringTable,
    Locking,
    ReadingHistory,
    Applying,
    Stopped,
}

/// One run of the executor against one database.
pub struct Migrator {
    /// The catalog, ascending by version.
    pub catalog: Vec<Version>,
    pub target: DesiredVersion,
    /// Whether the backend can take an exclusive lock on the history table.
    pub locking: bool,
    pub stage: Stage,
    /// The scripts to apply, once the history has been read.
    pub plan: Vec<Version>,
    /// While applying: the position in `plan` of the script in flight.
    pub next: usize,
}

impl Migrator {
    /// A run is well formed: while applying, a script of the plan is in flight.
    pub open spec fn wf(&self) -> bool {
        self.stage == Stage::Applying ==> self.next < self.plan@.len()
    }

    /// The event is an answer to the action last asked for.
    pub open spec fn expects(&self, event: Event) -> bool {
        match event {
            Event::Failed(_) => self.stage != Stage::Idle && self.stage != Stage::Stopped,
            Event::Done => self.stage == Stage::EnsuringTable || self.stage == Stage::Locking
                || self.stage == Stage::Applying,
            Event::History(_) => self.stage == Stage::ReadingHistory,
        }
    }

    /// Whether `advance` takes this event now.
    pub fn accepts(&self, event: &Event) -> (r: bool)
        ensures
            r == self.expects(*event),
    {
        match event {
            Event::Failed(_) => self.stage != Stage::Idle && self.stage != Stage::Stopped,
            Event::Done => self.stage == Stage::EnsuringTable || self.stage == Stage::Locking
                || self.stage == Stage::Applying,
            Event::History(_) => self.stage == Stage::ReadingHistory,
        }
    }

    /// A run that has not started, over a catalog sorted by version.
    pub fn new(catalog: Vec<Version>, target: DesiredVersion, locking: bool) -> (r: Migrator)
        ensures
            r.catalog == catalog,
            r.target == target,
            r.locking == locking,
            r.stage == Stage::Idle,
            r.plan@.len() == 0,
            r.wf(),
    {
        Migrator { catalog, target, locking, stage: Stage::Idle, plan: Vec::new(), next: 0 }
    }

    /// Starts the run: the history table must exist before it can be locked.
    pub fn start(&mut self) -> (a: Action)
        requires
            old(self).stage == Stage::Idle,
        ensures
            a is EnsureTable,
            final(self).stage == Stage::EnsuringTable,
            final(self).catalog == old(self).catalog,
            final(self).target == old(self).target,
            final(self).locking == old(self).locking,
            final(self).plan == old(self).plan,
            final(self).wf(),
    {
        self.stage = Stage::EnsuringTable;
        Action::EnsureTable
    }

    /// Takes the backend's report on the last action and says what to do next.
    pub fn advance(&mut self, event: Event) -> (a: Action)
        requires
            old(self).wf(),
            old(self).expects(event),
        ensures
            final(self).wf(),
            final(self).catalog == old(self).catalog,
            final(self).target == old(self).target,
            final(self).locking == old(self).locking,
            match event {
                Event::Failed(e) => a == Action::Aborted(e) && final(self).stage == Stage::Stopped,
                Event::Done => match old(self).stage {
                    Stage::EnsuringTable => if old(self).locking {
                        a is LockTable && final(self).stage == Stage::Locking
                    } else {
                        a is ReadHistory && final(self).stage == Stage::ReadingHistory
                    },
                    Stage::Locking => a is ReadHistory && final(self).stage
                        == Stage::ReadingHistory,
                    _ => {
                        let n = old(self).next + 1;
                        &&& final(self).plan == old(self).plan
                        &&& if n == old(self).plan@.len() {
                            a == Action::Finished(n as usize) && final(self).stage
                                == Stage::Stopped
                        } else {
                            &&& final(self).stage == Stage::Applying
                            &&& final(self).next == n
                            &&& a == Action::Apply(old(self).plan@[n])
                        }
                    },
                },
                Event::History(h) => {
                    let cat = catalog_view(old(self).catalog@);
                    let hist = history_view(h@);
                    let path = upgrade_path(cat, history_mark(hist), ceiling(old(self).target));
                    match divergence(cat, hist) {
                        Some(d) => final(self).stage == Stage::Stopped && match a {
                            Action::Aborted(ScurryError::Consistency(x)) => x@ == d,
                            _ => false,
                        },
                        None => {
                            &&& catalog_view(final(self).plan@) == path
                            &&& if path.len() == 0 {
                                a == Action::Finished(0) && final(self).stage == Stage::Stopped
                            } else {
                                &&& final(self).stage == Stage::Applying
                                &&& final(self).next == 0
                                &&& a == Action::Apply(final(self).plan@[0])
                            }
                        },
                    }
                },
            },
    {
        match event {
            Event::Failed(e) => {
                self.stage = Stage::Stopped;
                Action::Aborted(e)
            },
            Event::Done => {
                if self.stage == Stage::EnsuringTable {
                    if self.locking {
                        self.stage = Stage::Locking;
                        Action::LockTable
                    } else {
                        self.stage = Stage::ReadingHistory;
                        Action::ReadHistory
                    }
                } else if self.stage == Stage::Locking {
                    self.stage = Stage::ReadingHistory;
                    Action::ReadHistory
                } else {
                    let len = self.plan.len();
                    let n = self.next + 1;
                    if n == len {
                        self.stage = Stage::Stopped;
                        Action::Finished(n)
                    } else {
                        self.next = n;
                        Action::Apply(self.plan[n].clone())
                    }
                }
            },
            Event::History(h) => {
                if let Err(e) = verify_common_history(self.catalog.as_slice(), h.as_slice()) {
                    self.stage = Stage::Stopped;
                    return Action::Aborted(e);
                }
                let latest: Option<&ScurryMetadata> = if h.len() == 0 {
                    None
                } else {
                    Some(&h[h.len() - 1])
                };
                let plan = choose_upgrade_path(self.catalog.as_slice(), &latest, &self.target);
                self.plan = plan;
                if self.plan.len() == 0 {
                    self.stage = Stage::Stopped;
                    Action::Finished(0)
                } else {
                    self.stage = Stage::Applying;
                    self.next = 0;
                    Action::Apply(self.plan[0].clone())
                }
            },
        }
    }
}

} // verus!
