//! The reconciliation worker: the per-tick state machine, the worker
//! heartbeat, and the single-slot heartbeat channel.
//!
//! One tick walks Load, Enumerate, Check, conditional Sync, Re-check, and
//! always ends by publishing exactly one heartbeat before the worker goes
//! back to sleep. The walk is driven as a state machine: the caller
//! performs the outside work (sleeping, storage, gateway calls) and feeds
//! each outcome back as an event; the machine decides every transition and
//! is verified against the transition relation [`step_rel`].

use vstd::prelude::*;

use crate::persistence::{CpuSelections, PersistentStore};
use crate::selections::{mask_bit, mask_set, mask_to_hashset};
use vstd::std_specs::cmp::PartialEqSpec;

verus! {

/// The staleness threshold for a worker heartbeat, in milliseconds: a
/// heartbeat older than this no longer counts as a live status report.
pub const HEARTBEAT_STALE_PERIOD_MS: i64 = 10_000;

/// The cooldown between two reconciliation ticks, in seconds: the worker's
/// only intentional suspension point.
pub const WORKER_COOLDOWN_PERIOD_SECONDS: u64 = 5;

/// Relies on chrono::Utc::now and DateTime::timestamp_millis: the current
/// UTC wall-clock time as milliseconds since the Unix epoch.
#[verifier::external_body]
fn now_utc_ms() -> i64 {
    chrono::Utc::now().timestamp_millis()
}

/// A timestamped status snapshot, published once per reconciliation tick:
/// the instant it was produced, the sync verdict (absent when no target
/// process ran or an error prevented a verdict), and the error if the tick
/// failed.
#[derive(Debug, Clone)]
pub struct WorkerHeartbeat {
    at_ms: i64,
    is_synced: Option<bool>,
    error: Option<String>,
}

impl WorkerHeartbeat {
    /// The instant this heartbeat was produced, in milliseconds since the
    /// Unix epoch.
    pub closed spec fn spec_at(self) -> i64 {
        self.at_ms
    }

    /// The sync verdict this heartbeat carries.
    pub closed spec fn spec_is_synced(self) -> Option<bool> {
        self.is_synced
    }

    /// The error this heartbeat carries.
    pub closed spec fn spec_error(self) -> Option<String> {
        self.error
    }

    /// A heartbeat stamped with the current wall-clock time.
    pub fn now(is_simulation_synced: Option<bool>, error: Option<String>) -> (r: WorkerHeartbeat)
        ensures
            r.spec_is_synced() == is_simulation_synced,
            r.spec_error() == error,
    {
        WorkerHeartbeat { at_ms: now_utc_ms(), is_synced: is_simulation_synced, error }
    }

    /// A heartbeat stamped with a caller-chosen instant.
    pub fn from_parts(at_ms: i64, is_synced: Option<bool>, error: Option<String>) -> (r:
        WorkerHeartbeat)
        ensures
            r.spec_at() == at_ms,
            r.spec_is_synced() == is_synced,
            r.spec_error() == error,
    {
        WorkerHeartbeat { at_ms, is_synced, error }
    }

    /// The instant this heartbeat was produced, in milliseconds since the
    /// Unix epoch.
    pub fn get_at(&self) -> (r: i64)
        ensures
            r == self.spec_at(),
    {
        self.at_ms
    }

    /// The sync verdict this heartbeat carries.
    pub fn get_is_synced(&self) -> (r: &Option<bool>)
        ensures
            *r == self.spec_is_synced(),
    {
        &self.is_synced
    }

    /// The error this heartbeat carries.
    pub fn get_error(&self) -> (r: &Option<String>)
        ensures
            *r == self.spec_error(),
    {
        &self.error
    }

    /// Whether this heartbeat counts as stale when the clock reads
    /// `now_ms`: stale exactly when more than the staleness threshold has
    /// elapsed since it was produced.
    pub fn is_stale_given(&self, now_ms: i64) -> (stale: bool)
        ensures
            stale == (now_ms - self.spec_at() > HEARTBEAT_STALE_PERIOD_MS),
    {
        (now_ms as i128) - (self.at_ms as i128) > HEARTBEAT_STALE_PERIOD_MS as i128
    }

    /// Whether this heartbeat counts as stale against the wall clock right
    /// now. Staleness is judged at read time, never stored at publish
    /// time, so a consumer sees a crashed worker's last heartbeat go stale
    /// even though nothing re-published.
    pub fn get_is_stale(&self) -> bool {
        self.is_stale_given(now_utc_ms())
    }
}

impl PartialEq for WorkerHeartbeat {
    /// Heartbeats are equal when the instant, the verdict and the error
    /// all agree.
    fn eq(&self, other: &Self) -> (r: bool) {
        let same_sync = match (self.is_synced, other.is_synced) {
            (Option::None, Option::None) => true,
            (Option::Some(a), Option::Some(b)) => a == b,
            _ => false,
        };
        let same_error = match (&self.error, &other.error) {
            (Option::None, Option::None) => true,
            (Option::Some(a), Option::Some(b)) => a.eq(b),
            _ => false,
        };
        self.at_ms == other.at_ms && same_sync && same_error
    }
}

impl vstd::std_specs::cmp::PartialEqSpecImpl for WorkerHeartbeat {
    open spec fn obeys_eq_spec() -> bool {
        true
    }

    open spec fn eq_spec(&self, other: &Self) -> bool {
        &&& self.spec_at() == other.spec_at()
        &&& self.spec_is_synced() == other.spec_is_synced()
        &&& match (self.spec_error(), other.spec_error()) {
            (Option::None, Option::None) => true,
            (Option::Some(a), Option::Some(b)) => a@ == b@,
            _ => false,
        }
    }
}

/// Heartbeats produced at different instants are different values: however
/// the verdicts and errors fall, a tick can never reuse the heartbeat of a
/// tick that ran at another time.
pub proof fn lemma_distinct_instants_distinct_heartbeats(a: WorkerHeartbeat, b: WorkerHeartbeat)
    requires
        a.spec_at() != b.spec_at(),
    ensures
        !a.eq_spec(&b),
{
}

/// What the worker is waiting on within the current reconciliation tick.
///
/// The phases after enumeration carry the desired selection, the matched
/// process ids, and the index of the process whose gateway call is in
/// flight; re-checking also carries the verdict of the first check, which
/// an error heartbeat must report.
pub enum Phase {
    /// Suspended between ticks.
    Sleeping,
    /// Waiting for the persisted configuration.
    Loading,
    /// Waiting for the processes matching the configured name.
    Enumerating { selections: CpuSelections },
    /// Waiting for the affinity of process `procs[next]` during the first
    /// comparison.
    Checking { selections: CpuSelections, procs: Vec<u32>, next: usize },
    /// Waiting for the correction write to process `procs[next]`.
    Syncing { selections: CpuSelections, procs: Vec<u32>, next: usize },
    /// Waiting for the affinity of process `procs[next]` during the
    /// post-correction comparison; `pre_synced` is the first check's
    /// verdict.
    Rechecking { selections: CpuSelections, procs: Vec<u32>, next: usize, pre_synced: bool },
}

/// The outcome of the outside work the machine asked for, fed back by the
/// caller. Errors travel as the plain message text of whatever failed.
pub enum TickEvent {
    /// The cooldown sleep finished.
    Slept,
    /// The persisted configuration was loaded, or loading failed.
    Loaded(Result<PersistentStore, String>),
    /// The ids of the processes whose name matches the configuration.
    Enumerated(Vec<u32>),
    /// One process's current affinity mask was read, or reading failed.
    AffinityRead(Result<usize, String>),
    /// The desired mask was written to one process, or writing failed.
    SyncApplied(Result<(), String>),
}

/// What the caller must do next on the machine's behalf.
pub enum TickAction {
    /// Load the persisted configuration.
    LoadStore,
    /// Enumerate the running processes whose name matches exactly.
    Enumerate { name: String },
    /// Read the current affinity mask of the process with this id.
    ReadAffinity { pid: u32 },
    /// Write this affinity mask to the process with this id.
    SetAffinity { pid: u32, mask: usize },
    /// Publish a heartbeat with this verdict and error, then sleep: the
    /// tick is over.
    Publish { is_synced: Option<bool>, error: Option<String> },
}

/// Which event kind the machine expects in each phase.
pub open spec fn event_fits(ph: Phase, ev: TickEvent) -> bool {
    match ph {
        Phase::Sleeping => ev is Slept,
        Phase::Loading => ev is Loaded,
        Phase::Enumerating { .. } => ev is Enumerated,
        Phase::Checking { .. } => ev is AffinityRead,
        Phase::Syncing { .. } => ev is SyncApplied,
        Phase::Rechecking { .. } => ev is AffinityRead,
    }
}

/// A loaded configuration handed to the machine is well-formed and every
/// selected index fits the native mask (as `PersistentStore::from_rows`
/// guarantees of what it loads).
pub open spec fn event_wf(ev: TickEvent) -> bool {
    match ev {
        TickEvent::Loaded(loaded) => match loaded {
            Ok(store) => store.selections.wf() && store.selections.fits_mask(),
            Err(_) => true,
        },
        _ => true,
    }
}

/// The machine's invariant on its phase: carried selections are
/// well-formed and maskable, and the in-flight process index lies within
/// the non-empty process list.
pub open spec fn phase_inv(ph: Phase) -> bool {
    match ph {
        Phase::Sleeping => true,
        Phase::Loading => true,
        Phase::Enumerating { selections } => selections.wf() && selections.fits_mask(),
        Phase::Checking { selections, procs, next } => selections.wf() && selections.fits_mask()
            && next < procs@.len(),
        Phase::Syncing { selections, procs, next } => selections.wf() && selections.fits_mask()
            && next < procs@.len(),
        Phase::Rechecking { selections, procs, next, pre_synced } => selections.wf()
            && selections.fits_mask() && next < procs@.len(),
    }
}

/// The tick ends: the machine goes back to sleep and the action publishes
/// a heartbeat with exactly this verdict and this error text.
pub open spec fn published(
    ph2: Phase,
    a: TickAction,
    is_synced: Option<bool>,
    error: Option<Seq<char>>,
) -> bool {
    &&& ph2 is Sleeping
    &&& a matches TickAction::Publish { is_synced: s, error: e } && s == is_synced && match (
        e,
        error,
    ) {
        (Option::None, Option::None) => true,
        (Option::Some(m), Option::Some(v)) => m@ == v,
        _ => false,
    }
}

/// The action writes the affinity mask of exactly the desired selection to
/// the process with id `pid`.
pub open spec fn sets_affinity(a: TickAction, pid: u32, selections: CpuSelections) -> bool {
    a matches TickAction::SetAffinity { pid: p, mask } && p == pid && (forall|i: usize|
        #[trigger] mask_bit(mask, i) <==> selections.sel().contains(i))
}

/// The transition relation of one reconciliation tick, straight from the
/// cycle's design: Load, Enumerate (ending the tick early when nothing
/// matches), Check every process (short-circuiting on the first mismatch
/// into Sync, then always Re-check), and publish exactly one heartbeat on
/// every exit, success or failure, before sleeping again.
#[verifier::opaque]
pub open spec fn step_rel(ph: Phase, ev: TickEvent, ph2: Phase, a: TickAction) -> bool {
    match (ph, ev) {
        (Phase::Sleeping, TickEvent::Slept) => ph2 is Loading && a is LoadStore,
        (Phase::Loading, TickEvent::Loaded(loaded)) => match loaded {
            Ok(store) => {
                &&& ph2 matches Phase::Enumerating { selections } && selections.eqv(
                    store.selections,
                )
                &&& a matches TickAction::Enumerate { name } && name@ == store.process@
            },
            Err(e) => published(ph2, a, None, Some(e@)),
        },
        (Phase::Enumerating { selections }, TickEvent::Enumerated(procs)) => {
            if procs@.len() == 0 {
                published(ph2, a, None, None)
            } else {
                &&& ph2 matches Phase::Checking { selections: s2, procs: p2, next } && s2.eqv(
                    selections,
                ) && p2@ == procs@ && next == 0
                &&& a matches TickAction::ReadAffinity { pid } && pid == procs@[0]
            }
        },
        (Phase::Checking { selections, procs, next }, TickEvent::AffinityRead(read)) => match read {
            Err(e) => published(ph2, a, None, Some(e@)),
            Ok(mask) => {
                if mask_set(mask) != selections.sel() {
                    &&& ph2 matches Phase::Syncing { selections: s2, procs: p2, next: n2 }
                        && s2.eqv(selections) && p2@ == procs@ && n2 == 0
                    &&& sets_affinity(a, procs@[0], selections)
                } else if next + 1 < procs@.len() {
                    &&& ph2 matches Phase::Checking { selections: s2, procs: p2, next: n2 }
                        && s2.eqv(selections) && p2@ == procs@ && n2 == next + 1
                    &&& a matches TickAction::ReadAffinity { pid } && pid == procs@[next + 1]
                } else {
                    &&& ph2 matches Phase::Rechecking {
                        selections: s2,
                        procs: p2,
                        next: n2,
                        pre_synced,
                    } && s2.eqv(selections) && p2@ == procs@ && n2 == 0 && pre_synced == true
                    &&& a matches TickAction::ReadAffinity { pid } && pid == procs@[0]
                }
            },
        },
        (Phase::Syncing { selections, procs, next }, TickEvent::SyncApplied(applied)) => match
            applied {
            Err(e) => published(ph2, a, Some(false), Some(e@)),
            Ok(_) => {
                if next + 1 < procs@.len() {
                    &&& ph2 matches Phase::Syncing { selections: s2, procs: p2, next: n2 }
                        && s2.eqv(selections) && p2@ == procs@ && n2 == next + 1
                    &&& sets_affinity(a, procs@[next + 1], selections)
                } else {
                    &&& ph2 matches Phase::Rechecking {
                        selections: s2,
                        procs: p2,
                        next: n2,
                        pre_synced,
                    } && s2.eqv(selections) && p2@ == procs@ && n2 == 0 && pre_synced == false
                    &&& a matches TickAction::ReadAffinity { pid } && pid == procs@[0]
                }
            },
        },
        (
            Phase::Rechecking { selections, procs, next, pre_synced },
            TickEvent::AffinityRead(read),
        ) => match read {
            Err(e) => published(ph2, a, Some(pre_synced), Some(e@)),
            Ok(mask) => {
                if mask_set(mask) != selections.sel() {
                    published(ph2, a, Some(false), None)
                } else if next + 1 < procs@.len() {
                    &&& ph2 matches Phase::Rechecking {
                        selections: s2,
                        procs: p2,
                        next: n2,
                        pre_synced: pre2,
                    } && s2.eqv(selections) && p2@ == procs@ && n2 == next + 1 && pre2
                        == pre_synced
                    &&& a matches TickAction::ReadAffinity { pid } && pid == procs@[next + 1]
                } else {
                    published(ph2, a, Some(true), None)
                }
            },
        },
        _ => false,
    }
}

/// The reconciliation tick machine: it decides every transition of the
/// worker's cycle, while the caller performs the outside work and feeds
/// the outcomes back.
pub struct TickMachine {
    phase: Phase,
}

impl TickMachine {
    /// What the machine is currently waiting on.
    pub closed spec fn spec_phase(self) -> Phase {
        self.phase
    }

    /// The machine's invariant: see [`phase_inv`].
    pub open spec fn inv(self) -> bool {
        phase_inv(self.spec_phase())
    }

    /// A fresh machine, about to sleep before its first tick.
    pub fn new() -> (r: Self)
        ensures
            r.spec_phase() is Sleeping,
            r.inv(),
    {
        TickMachine { phase: Phase::Sleeping }
    }

    /// Feeds one outcome of outside work to the machine; it moves to its
    /// next phase and answers with the next piece of work, exactly as the
    /// transition relation [`step_rel`] prescribes.
    pub fn step(&mut self, event: TickEvent) -> (action: TickAction)
        requires
            old(self).inv(),
            event_fits(old(self).spec_phase(), event),
            event_wf(event),
        ensures
            final(self).inv(),
            step_rel(old(self).spec_phase(), event, final(self).spec_phase(), action),
    {
        proof {
            reveal(step_rel);
        }
        let mut ph = Phase::Sleeping;
        core::mem::swap(&mut self.phase, &mut ph);
        match (ph, event) {
            (Phase::Sleeping, TickEvent::Slept) => {
                self.phase = Phase::Loading;
                TickAction::LoadStore
            },
            (Phase::Loading, TickEvent::Loaded(loaded)) => match loaded {
                Ok(store) => {
                    let action = TickAction::Enumerate { name: store.process };
                    self.phase = Phase::Enumerating { selections: store.selections };
                    action
                },
                Err(e) => {
                    self.phase = Phase::Sleeping;
                    TickAction::Publish { is_synced: None, error: Some(e) }
                },
            },
            (Phase::Enumerating { selections }, TickEvent::Enumerated(procs)) => {
                if procs.len() == 0 {
                    self.phase = Phase::Sleeping;
                    TickAction::Publish { is_synced: None, error: None }
                } else {
                    let pid = procs[0];
                    self.phase = Phase::Checking { selections, procs, next: 0 };
                    TickAction::ReadAffinity { pid }
                }
            },
            (Phase::Checking { selections, procs, next }, TickEvent::AffinityRead(read)) => match
                read {
                Err(e) => {
                    self.phase = Phase::Sleeping;
                    TickAction::Publish { is_synced: None, error: Some(e) }
                },
                Ok(mask) => {
                    let count = procs.len();
                    let same = observed_matches(mask, &selections);
                    if !same {
                        let desired_mask = selections.to_mask();
                        let pid = procs[0];
                        self.phase = Phase::Syncing { selections, procs, next: 0 };
                        TickAction::SetAffinity { pid, mask: desired_mask }
                    } else if next + 1 < count {
                        let pid = procs[next + 1];
                        self.phase = Phase::Checking { selections, procs, next: next + 1 };
                        TickAction::ReadAffinity { pid }
                    } else {
                        let pid = procs[0];
                        self.phase = Phase::Rechecking {
                            selections,
                            procs,
                            next: 0,
                            pre_synced: true,
                        };
                        TickAction::ReadAffinity { pid }
                    }
                },
            },
            (Phase::Syncing { selections, procs, next }, TickEvent::SyncApplied(applied)) => match
                applied {
                Err(e) => {
                    self.phase = Phase::Sleeping;
                    TickAction::Publish { is_synced: Some(false), error: Some(e) }
                },
                Ok(_) => {
                    let count = procs.len();
                    if next + 1 < count {
                        let pid = procs[next + 1];
                        let desired_mask = selections.to_mask();
                        self.phase = Phase::Syncing { selections, procs, next: next + 1 };
                        TickAction::SetAffinity { pid, mask: desired_mask }
                    } else {
                        let pid = procs[0];
                        self.phase = Phase::Rechecking {
                            selections,
                            procs,
                            next: 0,
                            pre_synced: false,
                        };
                        TickAction::ReadAffinity { pid }
                    }
                },
            },
            (
                Phase::Rechecking { selections, procs, next, pre_synced },
                TickEvent::AffinityRead(read),
            ) => match read {
                Err(e) => {
                    self.phase = Phase::Sleeping;
                    TickAction::Publish { is_synced: Some(pre_synced), error: Some(e) }
                },
                Ok(mask) => {
                    let count = procs.len();
                    let same = observed_matches(mask, &selections);
                    if !same {
                        self.phase = Phase::Sleeping;
                        TickAction::Publish { is_synced: Some(false), error: None }
                    } else if next + 1 < count {
                        let pid = procs[next + 1];
                        self.phase = Phase::Rechecking {
                            selections,
                            procs,
                            next: next + 1,
                            pre_synced,
                        };
                        TickAction::ReadAffinity { pid }
                    } else {
                        self.phase = Phase::Sleeping;
                        TickAction::Publish { is_synced: Some(true), error: None }
                    }
                },
            },
            _ => vstd::pervasive::unreached(),
        }
    }
}

/// Whether an observed affinity mask selects exactly the desired CPUs:
/// the observed mask is read back into a selection set (as the worker
/// builds one from a live process) and compared by the selected indices
/// alone.
fn observed_matches(mask: usize, selections: &CpuSelections) -> (r: bool)
    requires
        selections.wf(),
    ensures
        r == (mask_set(mask) == selections.sel()),
{
    let observed = CpuSelections::new_preselected(
        mask_to_hashset(&mask),
        selections.get_cpu_count(),
    );
    observed.eq_selected(selections)
}

/// A run of the tick machine: from phase `ph0`, the `i`th event steps the
/// machine to `phs[i]`, emitting `acts[i]`.
pub open spec fn run_rel(
    ph0: Phase,
    evs: Seq<TickEvent>,
    phs: Seq<Phase>,
    acts: Seq<TickAction>,
) -> bool {
    &&& phs.len() == evs.len()
    &&& acts.len() == evs.len()
    &&& forall|i: int|
        0 <= i < evs.len() ==> step_rel(
            if i == 0 {
                ph0
            } else {
                phs[i - 1]
            },
            #[trigger] evs[i],
            phs[i],
            acts[i],
        )
}

/// A non-empty run decomposes into its first step and the run of the
/// rest.
proof fn lemma_run_tail(ph0: Phase, evs: Seq<TickEvent>, phs: Seq<Phase>, acts: Seq<TickAction>)
    requires
        run_rel(ph0, evs, phs, acts),
        evs.len() > 0,
    ensures
        step_rel(ph0, evs[0], phs[0], acts[0]),
        run_rel(phs[0], evs.skip(1), phs.skip(1), acts.skip(1)),
{
    assert(step_rel(ph0, evs[0], phs[0], acts[0]));
    let evs2 = evs.skip(1);
    let phs2 = phs.skip(1);
    let acts2 = acts.skip(1);
    assert forall|i: int| 0 <= i < evs2.len() implies step_rel(
        if i == 0 {
            phs[0]
        } else {
            phs2[i - 1]
        },
        #[trigger] evs2[i],
        phs2[i],
        acts2[i],
    ) by {
        assert(phs2[i] == phs[i + 1]);
        assert(evs2[i] == evs[i + 1]);
        assert(acts2[i] == acts[i + 1]);
        if i > 0 {
            assert(phs2[i - 1] == phs[i]);
        }
        assert(step_rel(
            if i + 1 == 0 {
                ph0
            } else {
                phs[i]
            },
            evs[i + 1],
            phs[i + 1],
            acts[i + 1],
        ));
    }
}

/// A run splits at `k` into the run of its first `k` steps and the run of
/// the rest, the latter starting from the phase the `k`th step reached.
#[verifier::rlimit(100)]
#[verifier::spinoff_prover]
proof fn lemma_run_split(
    ph0: Phase,
    evs: Seq<TickEvent>,
    phs: Seq<Phase>,
    acts: Seq<TickAction>,
    k: int,
)
    requires
        run_rel(ph0, evs, phs, acts),
        0 < k <= evs.len(),
    ensures
        run_rel(ph0, evs.take(k), phs.take(k), acts.take(k)),
        run_rel(phs[k - 1], evs.skip(k), phs.skip(k), acts.skip(k)),
{
    assert forall|i: int| 0 <= i < k implies step_rel(
        if i == 0 {
            ph0
        } else {
            phs.take(k)[i - 1]
        },
        #[trigger] evs.take(k)[i],
        phs.take(k)[i],
        acts.take(k)[i],
    ) by {
        assert(phs.take(k)[i] == phs[i]);
        assert(evs.take(k)[i] == evs[i]);
        assert(acts.take(k)[i] == acts[i]);
        if i > 0 {
            assert(phs.take(k)[i - 1] == phs[i - 1]);
        }
        assert(step_rel(
            if i == 0 {
                ph0
            } else {
                phs[i - 1]
            },
            evs[i],
            phs[i],
            acts[i],
        ));
    }
    assert forall|i: int| 0 <= i < evs.len() - k implies step_rel(
        if i == 0 {
            phs[k - 1]
        } else {
            phs.skip(k)[i - 1]
        },
        #[trigger] evs.skip(k)[i],
        phs.skip(k)[i],
        acts.skip(k)[i],
    ) by {
        assert(phs.skip(k)[i] == phs[k + i]);
        assert(evs.skip(k)[i] == evs[k + i]);
        assert(acts.skip(k)[i] == acts[k + i]);
        if i > 0 {
            assert(phs.skip(k)[i - 1] == phs[k + i - 1]);
        }
        assert(step_rel(
            if k + i == 0 {
                ph0
            } else {
                phs[k + i - 1]
            },
            evs[k + i],
            phs[k + i],
            acts[k + i],
        ));
    }
}

/// A tick that finds no process matching the target name ends with a
/// heartbeat carrying no sync verdict and no error: an absent target is
/// not an error condition.
pub proof fn lemma_no_target_process(
    selections: CpuSelections,
    ev: TickEvent,
    ph2: Phase,
    a: TickAction,
)
    requires
        ev matches TickEvent::Enumerated(procs) && procs@.len() == 0,
        step_rel(Phase::Enumerating { selections }, ev, ph2, a),
    ensures
        ph2 is Sleeping,
        a matches TickAction::Publish { is_synced, error } && is_synced is None && error is None,
{
    reveal(step_rel);
}

/// A gateway failure while reading a process's affinity during the first
/// check ends the tick with a heartbeat carrying no verdict and the
/// failure's text, and puts the machine back to sleep: the loop proceeds
/// to its next cycle instead of stopping.
pub proof fn lemma_check_failure_continues(
    ph: Phase,
    msg: Seq<char>,
    ev: TickEvent,
    ph2: Phase,
    a: TickAction,
)
    requires
        ph is Checking,
        ev matches TickEvent::AffinityRead(read) && read matches Err(e) && e@ == msg,
        step_rel(ph, ev, ph2, a),
    ensures
        ph2 is Sleeping,
        a matches TickAction::Publish { is_synced, error } && is_synced is None && (error matches
            Some(m) && m@ == msg),
{
    reveal(step_rel);
}

/// The first mismatching affinity read of a check starts the sync pass at
/// the first process, writing it the desired mask.
#[verifier::rlimit(100)]
#[verifier::spinoff_prover]
proof fn lemma_mismatch_begins_sync(
    selections: CpuSelections,
    procs: Vec<u32>,
    next: usize,
    ev: TickEvent,
    ph2: Phase,
    a: TickAction,
)
    requires
        phase_inv(Phase::Checking { selections, procs, next }),
        step_rel(Phase::Checking { selections, procs, next }, ev, ph2, a),
        ev matches TickEvent::AffinityRead(r0) && (r0 matches Ok(m) && mask_set(m)
            != selections.sel()),
    ensures
        ph2 matches Phase::Syncing { selections: s1, procs: p1, next: n1 } && s1.eqv(selections)
            && p1@ == procs@ && n1 == 0,
        sets_affinity(a, procs@[0], selections),
        phase_inv(ph2),
{
    reveal(step_rel);
}

/// One acknowledged write during the sync pass: the machine either moves
/// to the next process's write or, after the last one, hands over to the
/// re-check of the first process with the pre-correction verdict unsynced.
#[verifier::rlimit(100)]
#[verifier::spinoff_prover]
proof fn lemma_sync_step(
    selections: CpuSelections,
    procs: Vec<u32>,
    next: usize,
    ev: TickEvent,
    ph2: Phase,
    a: TickAction,
)
    requires
        phase_inv(Phase::Syncing { selections, procs, next }),
        step_rel(Phase::Syncing { selections, procs, next }, ev, ph2, a),
        ev matches TickEvent::SyncApplied(r) && r is Ok,
    ensures
        phase_inv(ph2),
        next + 1 < procs@.len() ==> (ph2 matches Phase::Syncing { selections: s2, procs: p2, next: n2 }
            && s2.eqv(selections) && p2@ == procs@ && n2 == next + 1) && sets_affinity(
            a,
            procs@[next + 1],
            selections,
        ),
        next + 1 >= procs@.len() ==> (ph2 matches Phase::Rechecking {
            selections: s2,
            procs: p2,
            next: n2,
            pre_synced,
        } && s2.eqv(selections) && p2@ == procs@ && n2 == 0 && pre_synced == false) && (a matches
            TickAction::ReadAffinity { pid } && pid == procs@[0]),
{
    reveal(step_rel);
}

/// One matching affinity read during the re-check pass: the machine
/// either moves to the next process's read or, after the last one, ends
/// the tick published as synced with no error. Nothing is written.
#[verifier::rlimit(100)]
#[verifier::spinoff_prover]
proof fn lemma_recheck_step(
    selections: CpuSelections,
    procs: Vec<u32>,
    next: usize,
    pre_synced: bool,
    ev: TickEvent,
    ph2: Phase,
    a: TickAction,
)
    requires
        phase_inv(Phase::Rechecking { selections, procs, next, pre_synced }),
        step_rel(Phase::Rechecking { selections, procs, next, pre_synced }, ev, ph2, a),
        ev matches TickEvent::AffinityRead(r) && (r matches Ok(m) && mask_set(m)
            == selections.sel()),
    ensures
        !(a is SetAffinity),
        next + 1 < procs@.len() ==> phase_inv(ph2) && (ph2 matches Phase::Rechecking {
            selections: s2,
            procs: p2,
            next: n2,
            pre_synced: pre2,
        } && s2.eqv(selections) && p2@ == procs@ && n2 == next + 1 && pre2 == pre_synced) && (a
            matches TickAction::ReadAffinity { pid } && pid == procs@[next + 1]),
        next + 1 >= procs@.len() ==> published(ph2, a, Some(true), None),
{
    reveal(step_rel);
}

/// A heartbeat is published exactly when a tick ends: a step's action
/// publishes if and only if that step puts the machine back to sleep, so
/// every pass through the cycle — success or any failure — publishes
/// exactly one heartbeat, at its end, and the status channel is never
/// starved.
pub proof fn lemma_publish_exactly_at_tick_end(ph: Phase, ev: TickEvent, ph2: Phase, a: TickAction)
    requires
        step_rel(ph, ev, ph2, a),
    ensures
        (a is Publish) <==> (ph2 is Sleeping),
{
    reveal(step_rel);
}

/// The sync pass: from `Syncing` at process `next`, one successful write
/// acknowledgement per remaining process carries the machine through the
/// rest of the list — writing the desired mask to each process after
/// `next` exactly once, in order — and hands it to the re-check of the
/// first process, with the pre-correction verdict recorded as unsynced.
#[verifier::rlimit(100)]
#[verifier::spinoff_prover]
proof fn lemma_sync_segment(
    selections: CpuSelections,
    procs: Vec<u32>,
    next: usize,
    evs: Seq<TickEvent>,
    phs: Seq<Phase>,
    acts: Seq<TickAction>,
)
    requires
        phase_inv(Phase::Syncing { selections, procs, next }),
        evs.len() == procs@.len() - next,
        run_rel(Phase::Syncing { selections, procs, next }, evs, phs, acts),
        forall|i: int|
            0 <= i < evs.len() ==> ((#[trigger] evs[i]) matches TickEvent::SyncApplied(r) && r
                is Ok),
    ensures
        forall|j: int|
            0 <= j < evs.len() - 1 ==> sets_affinity(
                #[trigger] acts[j],
                procs@[next + 1 + j],
                selections,
            ),
        acts[evs.len() - 1] matches TickAction::ReadAffinity { pid } && pid == procs@[0],
        phs[evs.len() - 1] matches Phase::Rechecking { selections: s2, procs: p2, next: n2, pre_synced }
            && s2.eqv(selections) && p2@ == procs@ && n2 == 0 && pre_synced == false,
        phase_inv(phs[evs.len() - 1]),
    decreases evs.len(),
{
    lemma_run_tail(Phase::Syncing { selections, procs, next }, evs, phs, acts);
    assert(evs[0] matches TickEvent::SyncApplied(r) && r is Ok);
    lemma_sync_step(selections, procs, next, evs[0], phs[0], acts[0]);
    if next + 1 < procs@.len() {
        let ph1 = phs[0];
        let s2 = ph1->Syncing_selections;
        let p2 = ph1->Syncing_procs;
        assert(s2@ == selections@ && s2.sel() == selections.sel());
        assert forall|i: int| 0 <= i < evs.skip(1).len() implies ((#[trigger] evs.skip(1)[i])
            matches TickEvent::SyncApplied(r) && r is Ok) by {
            assert(evs.skip(1)[i] == evs[i + 1]);
        }
        lemma_sync_segment(s2, p2, (next + 1) as usize, evs.skip(1), phs.skip(1), acts.skip(1));
        assert forall|j: int| 0 <= j < evs.len() - 1 implies sets_affinity(
            #[trigger] acts[j],
            procs@[next + 1 + j],
            selections,
        ) by {
            if j > 0 {
                assert(acts.skip(1)[j - 1] == acts[j]);
                assert(sets_affinity(acts[j], p2@[next + 1 + 1 + (j - 1)], s2));
            }
        }
        assert(acts[evs.len() - 1] == acts.skip(1)[evs.len() - 2]);
        assert(phs[evs.len() - 1] == phs.skip(1)[evs.len() - 2]);
    } else {
        assert(evs.len() == 1);
    }
}

/// The re-check pass: from `Rechecking` at process `next`, one matching
/// affinity read per remaining process carries the machine through the
/// rest of the list — writing nothing — and ends the tick with the
/// heartbeat `is_synced = Some(true)` and no error.
#[verifier::rlimit(100)]
#[verifier::spinoff_prover]
proof fn lemma_recheck_segment(
    selections: CpuSelections,
    procs: Vec<u32>,
    next: usize,
    pre_synced: bool,
    evs: Seq<TickEvent>,
    phs: Seq<Phase>,
    acts: Seq<TickAction>,
)
    requires
        phase_inv(Phase::Rechecking { selections, procs, next, pre_synced }),
        evs.len() == procs@.len() - next,
        run_rel(Phase::Rechecking { selections, procs, next, pre_synced }, evs, phs, acts),
        forall|i: int|
            0 <= i < evs.len() ==> ((#[trigger] evs[i]) matches TickEvent::AffinityRead(r) && (r
                matches Ok(m) && mask_set(m) == selections.sel())),
    ensures
        forall|j: int| 0 <= j < evs.len() ==> !((#[trigger] acts[j]) is SetAffinity),
        published(phs[evs.len() - 1], acts[evs.len() - 1], Some(true), None),
    decreases evs.len(),
{
    lemma_run_tail(Phase::Rechecking { selections, procs, next, pre_synced }, evs, phs, acts);
    assert(evs[0] matches TickEvent::AffinityRead(r) && (r matches Ok(m) && mask_set(m)
        == selections.sel()));
    lemma_recheck_step(selections, procs, next, pre_synced, evs[0], phs[0], acts[0]);
    if next + 1 < procs@.len() {
        let ph1 = phs[0];
        let s2 = ph1->Rechecking_selections;
        let p2 = ph1->Rechecking_procs;
        assert(s2@ == selections@ && s2.sel() == selections.sel());
        assert forall|i: int| 0 <= i < evs.skip(1).len() implies ((#[trigger] evs.skip(1)[i])
            matches TickEvent::AffinityRead(r) && (r matches Ok(m) && mask_set(m) == s2.sel())) by {
            assert(evs.skip(1)[i] == evs[i + 1]);
        }
        lemma_recheck_segment(
            s2,
            p2,
            (next + 1) as usize,
            pre_synced,
            evs.skip(1),
            phs.skip(1),
            acts.skip(1),
        );
        assert forall|j: int| 0 <= j < evs.len() implies !((#[trigger] acts[j]) is SetAffinity) by {
            if j > 0 {
                assert(acts.skip(1)[j - 1] == acts[j]);
            }
        }
        assert(acts[evs.len() - 1] == acts.skip(1)[evs.len() - 2]);
        assert(phs[evs.len() - 1] == phs.skip(1)[evs.len() - 2]);
    } else {
        assert(evs.len() == 1);
    }
}

/// The first half of a drift-then-correction tick: the mismatching first
/// affinity read and one acknowledged correction write per matched
/// process. The desired mask is written to every matched process exactly
/// once, in order, and the machine stands at the re-check of the first
/// process with the rest of the run still ahead of it.
#[verifier::rlimit(100)]
#[verifier::spinoff_prover]
proof fn lemma_drift_sync_half(
    selections: CpuSelections,
    procs: Vec<u32>,
    evs: Seq<TickEvent>,
    phs: Seq<Phase>,
    acts: Seq<TickAction>,
)
    requires
        phase_inv(Phase::Checking { selections, procs, next: 0 }),
        evs.len() == 2 * procs@.len() + 1,
        run_rel(Phase::Checking { selections, procs, next: 0 }, evs, phs, acts),
        evs[0] matches TickEvent::AffinityRead(r0) && (r0 matches Ok(m) && mask_set(m)
            != selections.sel()),
        forall|i: int|
            1 <= i <= procs@.len() ==> ((#[trigger] evs[i]) matches TickEvent::SyncApplied(r) && r
                is Ok),
    ensures
        forall|j: int|
            0 <= j < procs@.len() ==> sets_affinity(#[trigger] acts[j], procs@[j], selections),
        acts[procs@.len() as int] matches TickAction::ReadAffinity { pid } && pid == procs@[0],
        phs[procs@.len() as int] matches Phase::Rechecking {
            selections: s2,
            procs: p2,
            next: n2,
            pre_synced,
        } && s2@ == selections@ && s2.spec_cpu_count() == selections.spec_cpu_count() && p2@
            == procs@ && n2 == 0 && pre_synced == false,
        phase_inv(phs[procs@.len() as int]),
        run_rel(
            phs[procs@.len() as int],
            evs.skip(procs@.len() + 1 as int),
            phs.skip(procs@.len() + 1 as int),
            acts.skip(procs@.len() + 1 as int),
        ),
{
    let n = procs@.len() as int;
    lemma_run_tail(Phase::Checking { selections, procs, next: 0 }, evs, phs, acts);
    let ph1 = phs[0];
    lemma_mismatch_begins_sync(selections, procs, 0, evs[0], ph1, acts[0]);
    let s1 = ph1->Syncing_selections;
    let p1 = ph1->Syncing_procs;
    assert(s1@ == selections@ && s1.sel() == selections.sel());

    // The sync pass: events 1 ..= n.
    let evs1 = evs.skip(1);
    let phs1 = phs.skip(1);
    let acts1 = acts.skip(1);
    let sync_evs = evs1.take(n);
    let sync_phs = phs1.take(n);
    let sync_acts = acts1.take(n);
    lemma_run_split(ph1, evs1, phs1, acts1, n);
    assert forall|i: int|
        0 <= i < sync_evs.len() implies (#[trigger] sync_evs[i])
        matches TickEvent::SyncApplied(r) && r is Ok by {
        assert(sync_evs[i] == evs[i + 1]);
    }
    lemma_sync_segment(s1, p1, 0, sync_evs, sync_phs, sync_acts);
    assert(sync_phs[n - 1] == phs[n]);
    assert(sync_acts[n - 1] == acts[n]);

    // The rest of the run starts where the sync pass ended.
    assert(phs1[n - 1] == phs[n]);
    assert(evs1.skip(n) =~= evs.skip(n + 1));
    assert(phs1.skip(n) =~= phs.skip(n + 1));
    assert(acts1.skip(n) =~= acts.skip(n + 1));

    assert forall|j: int| 0 <= j < n implies sets_affinity(
        #[trigger] acts[j],
        procs@[j],
        selections,
    ) by {
        if j > 0 {
            assert(sync_acts[j - 1] == acts[j]);
            assert(sets_affinity(acts[j], p1@[0 + 1 + (j - 1)], s1));
        }
    }
}

/// One drift-then-correction tick: the first check starts with at least
/// one matched process and its first affinity read does not match the
/// desired selection; every correction write succeeds, and every
/// post-correction read matches. Then the desired mask is written to
/// every matched process exactly once, in order, nothing else is written,
/// and the tick ends with the heartbeat `is_synced = Some(true)` and no
/// error.
#[verifier::rlimit(100)]
#[verifier::spinoff_prover]
pub proof fn lemma_drift_then_correction(
    selections: CpuSelections,
    procs: Vec<u32>,
    evs: Seq<TickEvent>,
    phs: Seq<Phase>,
    acts: Seq<TickAction>,
)
    requires
        phase_inv(Phase::Checking { selections, procs, next: 0 }),
        evs.len() == 2 * procs@.len() + 1,
        run_rel(Phase::Checking { selections, procs, next: 0 }, evs, phs, acts),
        evs[0] matches TickEvent::AffinityRead(r0) && (r0 matches Ok(m) && mask_set(m)
            != selections.sel()),
        forall|i: int|
            1 <= i <= procs@.len() ==> ((#[trigger] evs[i]) matches TickEvent::SyncApplied(r) && r
                is Ok),
        forall|i: int|
            procs@.len() < i < evs.len() ==> ((#[trigger] evs[i])
                matches TickEvent::AffinityRead(r) && (r matches Ok(m) && mask_set(m)
                == selections.sel())),
    ensures
        forall|j: int|
            0 <= j < procs@.len() ==> sets_affinity(#[trigger] acts[j], procs@[j], selections),
        forall|j: int| procs@.len() <= j < acts.len() ==> !((#[trigger] acts[j]) is SetAffinity),
        published(phs[evs.len() - 1], acts[evs.len() - 1], Some(true), None),
{
    let n = procs@.len() as int;
    lemma_drift_sync_half(selections, procs, evs, phs, acts);
    let ph_mid = phs[n];
    let s2 = ph_mid->Rechecking_selections;
    let p2 = ph_mid->Rechecking_procs;
    assert(s2.sel() == selections.sel());

    // The re-check pass: events n + 1 ..= 2n.
    let recheck_evs = evs.skip(n + 1);
    let recheck_phs = phs.skip(n + 1);
    let recheck_acts = acts.skip(n + 1);
    assert forall|i: int|
        0 <= i < recheck_evs.len() implies ((#[trigger] recheck_evs[i])
        matches TickEvent::AffinityRead(r) && (r matches Ok(m) && mask_set(m) == s2.sel())) by {
        assert(recheck_evs[i] == evs[n + 1 + i]);
    }
    lemma_recheck_segment(s2, p2, 0, false, recheck_evs, recheck_phs, recheck_acts);

    // Stitch the segments' conclusions back to the whole run's indices.
    assert forall|j: int| n <= j < acts.len() implies !((#[trigger] acts[j]) is SetAffinity) by {
        if j == n {
            assert(acts[n] matches TickAction::ReadAffinity { pid });
        } else {
            assert(recheck_acts[j - n - 1] == acts[j]);
        }
    }
    assert(recheck_acts[n - 1] == acts[2 * n]);
    assert(recheck_phs[n - 1] == phs[2 * n]);
    assert(published(phs[evs.len() - 1], acts[evs.len() - 1], Some(true), None));
}

/// A single-slot, latest-value-wins broadcast of worker status: each
/// publication replaces the previous value outright, so a reader always
/// observes the most recent heartbeat and never a backlog.
pub struct HeartbeatChannel {
    latest: Option<WorkerHeartbeat>,
}

impl HeartbeatChannel {
    /// The most recently published heartbeat, if any.
    pub closed spec fn spec_latest(self) -> Option<WorkerHeartbeat> {
        self.latest
    }

    /// An empty channel: nothing published yet.
    pub fn new() -> (r: Self)
        ensures
            r.spec_latest() is None,
    {
        HeartbeatChannel { latest: None }
    }

    /// Publishes a heartbeat, replacing whatever the slot held: the slot
    /// holds exactly the new value afterwards, whatever it held before.
    pub fn publish(&mut self, heartbeat: WorkerHeartbeat)
        ensures
            final(self).spec_latest() == Some(heartbeat),
    {
        self.latest = Some(heartbeat);
    }

    /// The most recently published heartbeat, if any.
    pub fn latest(&self) -> (r: &Option<WorkerHeartbeat>)
        ensures
            *r == self.spec_latest(),
    {
        &self.latest
    }
}

} // verus!
