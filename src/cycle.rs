use vstd::prelude::*;

use crate::allow_set::AllowSet;
use crate::cidr::Cidr;
use crate::grammar::render_text;
use crate::store::AllowList;

verus! {

/// Where the current cycle stands.
#[derive(Clone, Copy, Debug, PartialEq, Eq, Structural)]
pub enum Stage {
    /// Between cycles, waiting for the next tick.
    Idle,
    /// Waiting for the authoritative set.
    Fetching,
    /// Waiting for the new file text to be written.
    Saving,
    /// Waiting for the hook command to finish.
    Hooking,
}

/// How a cycle ended.
#[derive(Clone, Copy, Debug, PartialEq, Eq, Structural)]
pub enum Report {
    /// The fetched set was the stored one: nothing was written, no hook ran.
    Unchanged,
    /// The new set was written and the hook succeeded.
    Changed,
    /// The fetch failed: nothing was changed.
    FetchFailed,
    /// The new set could not be written. It stays the stored set in memory,
    /// so the next fetch of it is no change; the hook did not run.
    PersistFailed,
    /// The new set was written and the hook failed; the file stays as written.
    HookFailed,
}

/// What the driver of the cycle tells the reconciler.
pub enum Event {
    /// The interval has passed: time for the next cycle.
    Tick,
    /// The fetch returned this set.
    Fetched(AllowSet),
    /// The fetch failed: transport, status or body.
    FetchFailed,
    /// The text handed out by `Write` is in the file.
    Saved,
    /// Writing that text failed.
    SaveFailed,
    /// The hook exited with code 0.
    HookSucceeded,
    /// The hook could not be run, or exited otherwise than with code 0.
    HookFailed,
}

impl Event {
    /// The event for the hook's exit code, `None` when none could be had:
    /// only code 0 is success.
    pub fn from_exit_code(code: Option<i32>) -> (r: Event)
        ensures
            code == Some(0i32) ==> r is HookSucceeded,
            code != Some(0i32) ==> r is HookFailed,
    {
        match code {
            Some(0) => Event::HookSucceeded,
            _ => Event::HookFailed,
        }
    }
}

/// What the reconciler asks of its driver next.
pub enum Action {
    /// Fetch the authoritative set.
    Fetch,
    /// Replace the whole content of the backing file with this text.
    Write(String),
    /// Run the hook command.
    RunHook,
    /// The cycle is over; wait the interval before the next tick.
    Finish(Report),
    /// The event does not belong to this stage; nothing changed.
    Nothing,
}

/// The decisions of the fetch, compare, persist and hook cycle. The store is
/// changed only when a fetch succeeds, and the hook is asked for exactly
/// when a detected change has been written.
pub struct Reconciler {
    store: AllowList,
    stage: Stage,
    detected: Ghost<nat>,
    write_failures: Ghost<nat>,
    hook_runs: Ghost<nat>,
}

impl Reconciler {
    /// The stored set.
    pub closed spec fn stored(&self) -> Set<Cidr> {
        self.store@
    }

    /// The entries in the order in which a write lays them out.
    pub closed spec fn stored_seq(&self) -> Seq<Cidr> {
        self.store.seq()
    }

    pub closed spec fn spec_stage(&self) -> Stage {
        self.stage
    }

    /// How many fetched sets differed from the stored one.
    pub closed spec fn detected(&self) -> nat {
        self.detected@
    }

    /// How many writes of a changed set failed.
    pub closed spec fn write_failures(&self) -> nat {
        self.write_failures@
    }

    /// How many times the hook was asked for.
    pub closed spec fn hook_runs(&self) -> nat {
        self.hook_runs@
    }

    /// Every detected change has run the hook once, failed to be written, or
    /// is being written now.
    pub closed spec fn wf(&self) -> bool {
        &&& self.store.wf()
        &&& self.detected@ == self.hook_runs@ + self.write_failures@ + if self.stage == Stage::Saving {
            1nat
        } else {
            0nat
        }
    }

    /// A reconciler over a loaded store, between cycles.
    pub fn new(store: AllowList) -> (r: Reconciler)
        requires
            store.wf(),
        ensures
            r.wf(),
            r.spec_stage() == Stage::Idle,
            r.stored() == store@,
            r.detected() == 0,
            r.write_failures() == 0,
            r.hook_runs() == 0,
    {
        Reconciler {
            store,
            stage: Stage::Idle,
            detected: Ghost(0),
            write_failures: Ghost(0),
            hook_runs: Ghost(0),
        }
    }

    /// Where the current cycle stands.
    pub fn stage(&self) -> (r: Stage)
        ensures
            r == self.spec_stage(),
    {
        self.stage
    }

    /// The store.
    pub fn store(&self) -> (r: &AllowList)
        ensures
            r@ == self.stored(),
            r.seq() == self.stored_seq(),
            self.wf() ==> r.wf(),
    {
        &self.store
    }

    /// Takes the next event and says what to do.
    pub fn step(&mut self, event: Event) -> (r: Action)
        requires
            old(self).wf(),
            event matches Event::Fetched(c) ==> c.wf(),
        ensures
            final(self).wf(),
            // A tick between cycles starts one.
            old(self).spec_stage() == Stage::Idle && event is Tick ==> {
                &&& r is Fetch
                &&& final(self).spec_stage() == Stage::Fetching
                &&& final(self).stored() == old(self).stored()
                &&& final(self).hook_runs() == old(self).hook_runs()
            },
            // A fetched set is compared with the stored one as a set.
            old(self).spec_stage() == Stage::Fetching && event is Fetched ==> {
                let c = event->Fetched_0;
                &&& final(self).stored() == c@
                &&& final(self).hook_runs() == old(self).hook_runs()
                &&& if old(self).stored() != c@ {
                    &&& r matches Action::Write(t) && t@ == render_text(final(self).stored_seq())
                    &&& final(self).spec_stage() == Stage::Saving
                    &&& final(self).detected() == old(self).detected() + 1
                } else {
                    &&& r matches Action::Finish(Report::Unchanged)
                    &&& final(self).spec_stage() == Stage::Idle
                    &&& final(self).stored_seq() == old(self).stored_seq()
                    &&& final(self).detected() == old(self).detected()
                }
            },
            // A failed fetch changes nothing.
            old(self).spec_stage() == Stage::Fetching && event is FetchFailed ==> {
                &&& r matches Action::Finish(Report::FetchFailed)
                &&& final(self).spec_stage() == Stage::Idle
                &&& final(self).stored() == old(self).stored()
                &&& final(self).stored_seq() == old(self).stored_seq()
                &&& final(self).hook_runs() == old(self).hook_runs()
                &&& final(self).detected() == old(self).detected()
            },
            // A written change runs the hook, once.
            old(self).spec_stage() == Stage::Saving && event is Saved ==> {
                &&& r is RunHook
                &&& final(self).spec_stage() == Stage::Hooking
                &&& final(self).stored() == old(self).stored()
                &&& final(self).hook_runs() == old(self).hook_runs() + 1
            },
            // A failed write ends the cycle; the new set stays stored.
            old(self).spec_stage() == Stage::Saving && event is SaveFailed ==> {
                &&& r matches Action::Finish(Report::PersistFailed)
                &&& final(self).spec_stage() == Stage::Idle
                &&& final(self).stored() == old(self).stored()
                &&& final(self).hook_runs() == old(self).hook_runs()
                &&& final(self).write_failures() == old(self).write_failures() + 1
            },
            // The hook's outcome ends the cycle.
            old(self).spec_stage() == Stage::Hooking && event is HookSucceeded ==> {
                &&& r matches Action::Finish(Report::Changed)
                &&& final(self).spec_stage() == Stage::Idle
                &&& final(self).stored() == old(self).stored()
                &&& final(self).hook_runs() == old(self).hook_runs()
            },
            old(self).spec_stage() == Stage::Hooking && event is HookFailed ==> {
                &&& r matches Action::Finish(Report::HookFailed)
                &&& final(self).spec_stage() == Stage::Idle
                &&& final(self).stored() == old(self).stored()
                &&& final(self).hook_runs() == old(self).hook_runs()
            },
            // An event that does not belong to the stage is ignored.
            !expected(old(self).spec_stage(), event) ==> r is Nothing && *final(self) == *old(self),
            // The hook is asked for only after a written change.
            r is RunHook ==> old(self).spec_stage() == Stage::Saving && event is Saved,
            !(r is RunHook) ==> final(self).hook_runs() == old(self).hook_runs(),
    {
        match (self.stage, event) {
            (Stage::Idle, Event::Tick) => {
                self.stage = Stage::Fetching;
                Action::Fetch
            },
            (Stage::Fetching, Event::Fetched(candidate)) => {
                if self.store.update(candidate) {
                    self.stage = Stage::Saving;
                    self.detected = Ghost(self.detected@ + 1);
                    Action::Write(self.store.save())
                } else {
                    self.stage = Stage::Idle;
                    Action::Finish(Report::Unchanged)
                }
            },
            (Stage::Fetching, Event::FetchFailed) => {
                self.stage = Stage::Idle;
                Action::Finish(Report::FetchFailed)
            },
            (Stage::Saving, Event::Saved) => {
                self.stage = Stage::Hooking;
                self.hook_runs = Ghost(self.hook_runs@ + 1);
                Action::RunHook
            },
            (Stage::Saving, Event::SaveFailed) => {
                self.stage = Stage::Idle;
                self.write_failures = Ghost(self.write_failures@ + 1);
                Action::Finish(Report::PersistFailed)
            },
            (Stage::Hooking, Event::HookSucceeded) => {
                self.stage = Stage::Idle;
                Action::Finish(Report::Changed)
            },
            (Stage::Hooking, Event::HookFailed) => {
                self.stage = Stage::Idle;
                Action::Finish(Report::HookFailed)
            },
            _ => Action::Nothing,
        }
    }
}

/// The hook has been asked for once for each detected change that was
/// written: every detected change either ran the hook, failed to be written,
/// or is being written now. No other cycle asks for it.
pub proof fn lemma_hook_runs_match_written_changes(r: &Reconciler)
    requires
        r.wf(),
    ensures
        r.hook_runs() == r.detected() - r.write_failures() - if r.spec_stage() == Stage::Saving {
            1int
        } else {
            0int
        },
{
}

/// Whether `event` is one that a cycle at `stage` waits for.
pub open spec fn expected(stage: Stage, event: Event) -> bool {
    match stage {
        Stage::Idle => event is Tick,
        Stage::Fetching => event is Fetched || event is FetchFailed,
        Stage::Saving => event is Saved || event is SaveFailed,
        Stage::Hooking => event is HookSucceeded || event is HookFailed,
    }
}

} // verus!
