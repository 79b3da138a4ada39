//! The process supervisor's restart policy as a pure state machine: the
//! embedding application spawns the worker, reads its event stream and
//! sleeps; every decision - spawn again, wait, stop, notify - is made
//! here, one event at a time.

use vstd::prelude::*;

verus! {

/// Restart attempts allowed before the supervisor gives up.
pub const MAX_RESTARTS: u32 = 5;

/// Fixed backoff, in milliseconds, between a failure and the next attempt.
pub const RESTART_DELAY_MS: u64 = 5000;

/// The bounded restart budget, shared between the supervision loop and
/// any outside inspector.
#[derive(Clone, Copy, PartialEq, Eq, Structural, Debug)]
pub struct RestartState {
    pub restart_count: u32,
    pub max_restarts: u32,
}

/// Where the supervised worker stands.
#[derive(Clone, Copy, PartialEq, Eq, Structural, Debug)]
pub enum WorkerPhase {
    /// No attempt has been made yet.
    Idle,
    /// A spawn was requested and its outcome is awaited.
    Spawning,
    /// The worker process is alive. `handle_present` records whether the
    /// supervisor still owns the child handle: an intentional kill clears
    /// it first, so a later termination event is recognised as clean.
    /// `ready` records whether the worker survived to its ready signal.
    Running { handle_present: bool, ready: bool },
    /// A failure was observed; the loop waits out the backoff delay.
    BackingOff,
    /// Terminal: either a clean stop or an exhausted restart budget.
    Stopped { exhausted: bool },
}

/// What the embedding loop reports to the supervisor.
pub enum SupervisorEvent {
    /// The loop is at its top and asks what to do next.
    Tick,
    /// A requested spawn succeeded or failed.
    SpawnResult(bool),
    /// The worker signalled that it is serving.
    Ready,
    /// The host asked for intentional termination of the worker.
    KillRequested,
    /// The worker's event stream reported an error.
    StreamError,
    /// The worker exited with this status code, if one was seen.
    Terminated(Option<i32>),
}

/// What the embedding loop must do next.
#[derive(Clone, Copy, PartialEq, Eq, Structural, Debug)]
pub enum SupervisorAction {
    /// Launch the worker process.
    SpawnWorker,
    /// Sleep for the backoff delay, then report `Tick`.
    Wait,
    /// Kill the child process whose handle was just released.
    KillWorker,
    /// Tell the host that the restart budget is exhausted. Fires exactly
    /// once per supervised lifecycle.
    EmitMaxRestartsReached,
    /// Nothing to do.
    Nothing,
}

/// The supervisor: the worker's phase plus the restart budget.
#[derive(Clone, Copy, PartialEq, Eq, Structural, Debug)]
pub struct Supervisor {
    pub phase: WorkerPhase,
    pub restarts: RestartState,
}

/// The restart count never exceeds the cap, and a spawn is only in flight
/// or alive while the budget still has room.
pub open spec fn wf(s: Supervisor) -> bool {
    &&& s.restarts.restart_count <= s.restarts.max_restarts
    &&& (s.phase is Spawning || s.phase is Running) ==> s.restarts.restart_count
        < s.restarts.max_restarts
}

/// One transition of the supervision state machine.
///
/// From the terminal phase every event is ignored. A `Tick` either spawns
/// or, with the budget exhausted, stops and notifies - exactly once, since
/// the terminal phase is absorbing. A spawn failure, a stream error and an
/// unexpected termination each consume one unit of budget and back off.
/// Whether a termination was asked for is decided by the handle alone: one
/// observed after `KillRequested` released the handle is clean and stops
/// the loop; one with the handle still held is unexpected, whatever the
/// status code. Only a `Ready` signal resets the budget.
pub open spec fn spec_step(s: Supervisor, ev: SupervisorEvent) -> (Supervisor, SupervisorAction) {
    if s.phase is Stopped {
        (s, SupervisorAction::Nothing)
    } else {
        match ev {
            SupervisorEvent::Tick => {
                if s.phase is Idle || s.phase is BackingOff {
                    if s.restarts.restart_count >= s.restarts.max_restarts {
                        (
                            Supervisor { phase: WorkerPhase::Stopped { exhausted: true }, ..s },
                            SupervisorAction::EmitMaxRestartsReached,
                        )
                    } else {
                        (
                            Supervisor { phase: WorkerPhase::Spawning, ..s },
                            SupervisorAction::SpawnWorker,
                        )
                    }
                } else {
                    (s, SupervisorAction::Nothing)
                }
            },
            SupervisorEvent::SpawnResult(ok) => {
                if s.phase is Spawning {
                    if ok {
                        (
                            Supervisor {
                                phase: WorkerPhase::Running { handle_present: true, ready: false },
                                ..s
                            },
                            SupervisorAction::Nothing,
                        )
                    } else {
                        (
                            Supervisor {
                                phase: WorkerPhase::BackingOff,
                                restarts: RestartState {
                                    restart_count: (s.restarts.restart_count + 1) as u32,
                                    ..s.restarts
                                },
                            },
                            SupervisorAction::Wait,
                        )
                    }
                } else {
                    (s, SupervisorAction::Nothing)
                }
            },
            SupervisorEvent::Ready => {
                match s.phase {
                    WorkerPhase::Running { handle_present, ready: _ } => (
                        Supervisor {
                            phase: WorkerPhase::Running { handle_present, ready: true },
                            restarts: RestartState { restart_count: 0, ..s.restarts },
                        },
                        SupervisorAction::Nothing,
                    ),
                    _ => (s, SupervisorAction::Nothing),
                }
            },
            SupervisorEvent::KillRequested => {
                match s.phase {
                    WorkerPhase::Running { handle_present: true, ready } => (
                        Supervisor {
                            phase: WorkerPhase::Running { handle_present: false, ready },
                            ..s
                        },
                        SupervisorAction::KillWorker,
                    ),
                    _ => (s, SupervisorAction::Nothing),
                }
            },
            SupervisorEvent::StreamError => {
                if s.phase is Running {
                    (
                        Supervisor {
                            phase: WorkerPhase::BackingOff,
                            restarts: RestartState {
                                restart_count: (s.restarts.restart_count + 1) as u32,
                                ..s.restarts
                            },
                        },
                        SupervisorAction::Wait,
                    )
                } else {
                    (s, SupervisorAction::Nothing)
                }
            },
            SupervisorEvent::Terminated(_) => {
                match s.phase {
                    WorkerPhase::Running { handle_present, ready: _ } => {
                        if !handle_present {
                            // the host killed it on purpose: clean stop
                            (
                                Supervisor {
                                    phase: WorkerPhase::Stopped { exhausted: false },
                                    ..s
                                },
                                SupervisorAction::Nothing,
                            )
                        } else {
                            // the handle is still held, so nobody asked for
                            // this termination: restart, whatever the code
                            (
                                Supervisor {
                                    phase: WorkerPhase::BackingOff,
                                    restarts: RestartState {
                                        restart_count: (s.restarts.restart_count + 1) as u32,
                                        ..s.restarts
                                    },
                                },
                                SupervisorAction::Wait,
                            )
                        }
                    },
                    _ => (s, SupervisorAction::Nothing),
                }
            },
        }
    }
}

impl Supervisor {
    /// A fresh supervisor that has not yet attempted a spawn.
    pub fn new(max_restarts: u32) -> (s: Self)
        ensures
            wf(s),
            s.phase == WorkerPhase::Idle,
            s.restarts.restart_count == 0,
            s.restarts.max_restarts == max_restarts,
    {
        Supervisor {
            phase: WorkerPhase::Idle,
            restarts: RestartState { restart_count: 0, max_restarts },
        }
    }

    /// Feeds one event to the state machine and returns what the loop
    /// must do next. Behaves exactly as `spec_step`.
    pub fn step(&mut self, ev: SupervisorEvent) -> (a: SupervisorAction)
        requires
            wf(*old(self)),
        ensures
            wf(*final(self)),
            (*final(self), a) == spec_step(*old(self), ev),
    {
        match self.phase {
            WorkerPhase::Stopped { .. } => SupervisorAction::Nothing,
            _ => match ev {
                SupervisorEvent::Tick => {
                    match self.phase {
                        WorkerPhase::Idle | WorkerPhase::BackingOff => {
                            if self.restarts.restart_count >= self.restarts.max_restarts {
                                self.phase = WorkerPhase::Stopped { exhausted: true };
                                SupervisorAction::EmitMaxRestartsReached
                            } else {
                                self.phase = WorkerPhase::Spawning;
                                SupervisorAction::SpawnWorker
                            }
                        },
                        _ => SupervisorAction::Nothing,
                    }
                },
                SupervisorEvent::SpawnResult(ok) => {
                    match self.phase {
                        WorkerPhase::Spawning => {
                            if ok {
                                self.phase = WorkerPhase::Running {
                                    handle_present: true,
                                    ready: false,
                                };
                                SupervisorAction::Nothing
                            } else {
                                self.restarts.restart_count = self.restarts.restart_count + 1;
                                self.phase = WorkerPhase::BackingOff;
                                SupervisorAction::Wait
                            }
                        },
                        _ => SupervisorAction::Nothing,
                    }
                },
                SupervisorEvent::Ready => {
                    match self.phase {
                        WorkerPhase::Running { handle_present, ready: _ } => {
                            self.phase = WorkerPhase::Running { handle_present, ready: true };
                            self.restarts.restart_count = 0;
                            SupervisorAction::Nothing
                        },
                        _ => SupervisorAction::Nothing,
                    }
                },
                SupervisorEvent::KillRequested => {
                    match self.phase {
                        WorkerPhase::Running { handle_present: true, ready } => {
                            self.phase = WorkerPhase::Running { handle_present: false, ready };
                            SupervisorAction::KillWorker
                        },
                        _ => SupervisorAction::Nothing,
                    }
                },
                SupervisorEvent::StreamError => {
                    match self.phase {
                        WorkerPhase::Running { .. } => {
                            self.restarts.restart_count = self.restarts.restart_count + 1;
                            self.phase = WorkerPhase::BackingOff;
                            SupervisorAction::Wait
                        },
                        _ => SupervisorAction::Nothing,
                    }
                },
                SupervisorEvent::Terminated(_) => {
                    match self.phase {
                        WorkerPhase::Running { handle_present, ready: _ } => {
                            if !handle_present {
                                self.phase = WorkerPhase::Stopped { exhausted: false };
                                SupervisorAction::Nothing
                            } else {
                                self.restarts.restart_count = self.restarts.restart_count + 1;
                                self.phase = WorkerPhase::BackingOff;
                                SupervisorAction::Wait
                            }
                        },
                        _ => SupervisorAction::Nothing,
                    }
                },
            },
        }
    }
}


/// The worker's launch arguments: the fixed listen port, the
/// configuration file and data directory, CORS enablement with the
/// host's allowed origins, and the process token as the worker's own
/// required API key.
pub fn worker_args(config_file_path: &str, data_folder_path: &str, app_token: &str) -> (args: Vec<
    String,
>)
    ensures
        args.deep_view() == seq![
            "--start-server"@,
            "--port"@,
            "39291"@,
            "--config_file_path"@,
            config_file_path@,
            "--data_folder_path"@,
            data_folder_path@,
            "--cors"@,
            "ON"@,
            "--allowed_origins"@,
            "http://localhost:3000,http://localhost:1420,tauri://localhost,http://tauri.localhost"@,
            "config"@,
            "--api_keys"@,
            app_token@,
        ],
{
    let mut args: Vec<String> = Vec::new();
    args.push(String::from_str("--start-server"));
    args.push(String::from_str("--port"));
    args.push(String::from_str("39291"));
    args.push(String::from_str("--config_file_path"));
    args.push(String::from_str(config_file_path));
    args.push(String::from_str("--data_folder_path"));
    args.push(String::from_str(data_folder_path));
    args.push(String::from_str("--cors"));
    args.push(String::from_str("ON"));
    args.push(String::from_str("--allowed_origins"));
    args.push(
        String::from_str(
            "http://localhost:3000,http://localhost:1420,tauri://localhost,http://tauri.localhost",
        ),
    );
    args.push(String::from_str("config"));
    args.push(String::from_str("--api_keys"));
    args.push(String::from_str(app_token));
    proof {
        assert(args.deep_view() =~= seq![
            "--start-server"@,
            "--port"@,
            "39291"@,
            "--config_file_path"@,
            config_file_path@,
            "--data_folder_path"@,
            data_folder_path@,
            "--cors"@,
            "ON"@,
            "--allowed_origins"@,
            "http://localhost:3000,http://localhost:1420,tauri://localhost,http://tauri.localhost"@,
            "config"@,
            "--api_keys"@,
            app_token@,
        ]);
    }
    args
}

/// The state after feeding a whole event sequence, first event first.
pub open spec fn spec_run(s: Supervisor, evs: Seq<SupervisorEvent>) -> Supervisor
    decreases evs.len(),
{
    if evs.len() == 0 {
        s
    } else {
        spec_run(spec_step(s, evs[0]).0, evs.drop_first())
    }
}

/// The actions a whole event sequence produces, in order.
pub open spec fn spec_actions(s: Supervisor, evs: Seq<SupervisorEvent>) -> Seq<SupervisorAction>
    decreases evs.len(),
{
    if evs.len() == 0 {
        Seq::empty()
    } else {
        seq![spec_step(s, evs[0]).1] + spec_actions(spec_step(s, evs[0]).0, evs.drop_first())
    }
}

/// How many exhaustion notifications a run of actions holds.
pub open spec fn count_emits(acts: Seq<SupervisorAction>) -> nat
    decreases acts.len(),
{
    if acts.len() == 0 {
        0
    } else {
        (if acts[0] is EmitMaxRestartsReached {
            1nat
        } else {
            0nat
        }) + count_emits(acts.drop_first())
    }
}

/// How many spawn attempts a run of actions holds.
pub open spec fn count_spawns(acts: Seq<SupervisorAction>) -> nat
    decreases acts.len(),
{
    if acts.len() == 0 {
        0
    } else {
        (if acts[0] is SpawnWorker {
            1nat
        } else {
            0nat
        }) + count_spawns(acts.drop_first())
    }
}

/// A run produces one action per event.
proof fn lemma_actions_len(s: Supervisor, evs: Seq<SupervisorEvent>)
    ensures
        spec_actions(s, evs).len() == evs.len(),
    decreases evs.len(),
{
    if evs.len() > 0 {
        lemma_actions_len(spec_step(s, evs[0]).0, evs.drop_first());
    }
}

/// The terminal phase is absorbing: once stopped, every event is ignored,
/// nothing is ever spawned again and no further notification fires.
pub proof fn lemma_stopped_absorbing(s: Supervisor, evs: Seq<SupervisorEvent>)
    requires
        s.phase is Stopped,
    ensures
        spec_run(s, evs) == s,
        spec_actions(s, evs).len() == evs.len(),
        forall|k: int|
            0 <= k < evs.len() ==> spec_actions(s, evs)[k] == SupervisorAction::Nothing,
        count_emits(spec_actions(s, evs)) == 0,
        count_spawns(spec_actions(s, evs)) == 0,
    decreases evs.len(),
{
    if evs.len() > 0 {
        lemma_stopped_absorbing(s, evs.drop_first());
        let acts = spec_actions(s, evs);
        assert(acts.drop_first() =~= spec_actions(s, evs.drop_first()));
        assert(acts[0] == SupervisorAction::Nothing);
    }
}

/// The exhaustion notification fires at most once over any event
/// sequence, from any live state.
pub proof fn lemma_emit_at_most_once(s: Supervisor, evs: Seq<SupervisorEvent>)
    ensures
        count_emits(spec_actions(s, evs)) <= 1,
    decreases evs.len(),
{
    if evs.len() > 0 {
        let s1 = spec_step(s, evs[0]).0;
        let acts = spec_actions(s, evs);
        assert(acts.drop_first() =~= spec_actions(s1, evs.drop_first()));
        if spec_step(s, evs[0]).1 is EmitMaxRestartsReached {
            assert(s1.phase is Stopped);
            lemma_stopped_absorbing(s1, evs.drop_first());
        } else {
            lemma_emit_at_most_once(s1, evs.drop_first());
        }
    }
}

/// Once the notification has fired, every later action is `Nothing`: in
/// particular no further spawn attempt occurs.
pub proof fn lemma_no_spawn_after_emit(s: Supervisor, evs: Seq<SupervisorEvent>, i: int)
    requires
        0 <= i < evs.len(),
        spec_actions(s, evs)[i] == SupervisorAction::EmitMaxRestartsReached,
    ensures
        forall|j: int|
            i < j < evs.len() ==> spec_actions(s, evs)[j] == SupervisorAction::Nothing,
    decreases evs.len(),
{
    let s1 = spec_step(s, evs[0]).0;
    let acts = spec_actions(s, evs);
    lemma_actions_len(s, evs);
    lemma_actions_len(s1, evs.drop_first());
    assert(acts.drop_first() =~= spec_actions(s1, evs.drop_first()));
    if i == 0 {
        assert(s1.phase is Stopped);
        lemma_stopped_absorbing(s1, evs.drop_first());
        assert forall|j: int| 0 < j < evs.len() implies acts[j] == SupervisorAction::Nothing by {
            assert(acts[j] == spec_actions(s1, evs.drop_first())[j - 1]);
        }
    } else {
        assert(acts.drop_first()[i - 1] == acts[i]);
        assert(spec_actions(s1, evs.drop_first())[i - 1]
            == SupervisorAction::EmitMaxRestartsReached);
        lemma_no_spawn_after_emit(s1, evs.drop_first(), i - 1);
        assert forall|j: int| i < j < evs.len() implies acts[j] == SupervisorAction::Nothing by {
            assert(acts.drop_first()[j - 1] == acts[j]);
            assert(acts[j] == spec_actions(s1, evs.drop_first())[j - 1]);
        }
    }
}

/// Running a concatenated trace equals running its halves in turn.
pub proof fn lemma_run_append(s: Supervisor, a: Seq<SupervisorEvent>, b: Seq<SupervisorEvent>)
    ensures
        spec_run(s, a + b) == spec_run(spec_run(s, a), b),
        spec_actions(s, a + b) == spec_actions(s, a) + spec_actions(spec_run(s, a), b),
    decreases a.len(),
{
    if a.len() == 0 {
        assert(a + b =~= b);
        assert(spec_actions(s, a) + spec_actions(spec_run(s, a), b) =~= spec_actions(s, b));
    } else {
        let s1 = spec_step(s, a[0]).0;
        assert((a + b)[0] == a[0]);
        assert((a + b).drop_first() =~= a.drop_first() + b);
        lemma_run_append(s1, a.drop_first(), b);
        assert(spec_actions(s, a + b) =~= spec_actions(s, a) + spec_actions(spec_run(s, a), b));
    }
}

/// Counting distributes over concatenation.
pub proof fn lemma_count_append(a: Seq<SupervisorAction>, b: Seq<SupervisorAction>)
    ensures
        count_emits(a + b) == count_emits(a) + count_emits(b),
        count_spawns(a + b) == count_spawns(a) + count_spawns(b),
    decreases a.len(),
{
    if a.len() == 0 {
        assert(a + b =~= b);
    } else {
        assert((a + b)[0] == a[0]);
        assert((a + b).drop_first() =~= a.drop_first() + b);
        lemma_count_append(a.drop_first(), b);
    }
}

/// One unexpected-termination cycle: spawn succeeds, the worker dies
/// before its ready signal.
pub open spec fn crash_cycle() -> Seq<SupervisorEvent> {
    seq![
        SupervisorEvent::Tick,
        SupervisorEvent::SpawnResult(true),
        SupervisorEvent::Terminated(None),
    ]
}

/// `n` consecutive unexpected-termination cycles.
pub open spec fn crash_cycles(n: nat) -> Seq<SupervisorEvent>
    decreases n,
{
    if n == 0 {
        Seq::empty()
    } else {
        crash_cycle() + crash_cycles((n - 1) as nat)
    }
}

/// One crash cycle spends exactly one unit of restart budget, spawns
/// exactly once, and fires no notification.
proof fn lemma_crash_cycle_once(s: Supervisor)
    requires
        wf(s),
        s.phase is Idle || s.phase is BackingOff,
        s.restarts.restart_count < s.restarts.max_restarts,
    ensures
        spec_run(s, crash_cycle()) == (Supervisor {
            phase: WorkerPhase::BackingOff,
            restarts: RestartState {
                restart_count: (s.restarts.restart_count + 1) as u32,
                max_restarts: s.restarts.max_restarts,
            },
        }),
        count_emits(spec_actions(s, crash_cycle())) == 0,
        count_spawns(spec_actions(s, crash_cycle())) == 1,
{
    let c = crash_cycle();
    let cd1 = c.drop_first();
    let cd2 = cd1.drop_first();
    let cd3 = cd2.drop_first();
    assert(c[0] == SupervisorEvent::Tick);
    assert(cd1 =~= seq![SupervisorEvent::SpawnResult(true), SupervisorEvent::Terminated(None)]);
    assert(cd2 =~= seq![SupervisorEvent::Terminated(None)]);
    assert(cd3 =~= Seq::<SupervisorEvent>::empty());
    let s1 = spec_step(s, SupervisorEvent::Tick).0;
    let s2 = spec_step(s1, SupervisorEvent::SpawnResult(true)).0;
    let s3 = spec_step(s2, SupervisorEvent::Terminated(None)).0;
    assert(cd1[0] == SupervisorEvent::SpawnResult(true));
    assert(cd2[0] == SupervisorEvent::Terminated(None));
    assert(spec_run(s, c) == spec_run(s1, cd1));
    assert(spec_run(s1, cd1) == spec_run(s2, cd2));
    assert(spec_run(s2, cd2) == spec_run(s3, cd3));
    assert(spec_run(s3, cd3) == s3);
    let a1 = spec_step(s, SupervisorEvent::Tick).1;
    let a2 = spec_step(s1, SupervisorEvent::SpawnResult(true)).1;
    let a3 = spec_step(s2, SupervisorEvent::Terminated(None)).1;
    assert(spec_actions(s, c) == seq![a1] + spec_actions(s1, cd1));
    assert(spec_actions(s1, cd1) == seq![a2] + spec_actions(s2, cd2));
    assert(spec_actions(s2, cd2) == seq![a3] + spec_actions(s3, cd3));
    assert(spec_actions(s3, cd3) == Seq::<SupervisorAction>::empty());
    lemma_count_one(a3);
    lemma_count_one(a2);
    lemma_count_one(a1);
    assert(seq![a3] + Seq::<SupervisorAction>::empty() =~= seq![a3]);
    lemma_count_append(seq![a2], seq![a3]);
    lemma_count_append(seq![a1], seq![a2] + seq![a3]);
    assert(seq![a2] + seq![a3] =~= spec_actions(s1, cd1));
    assert(seq![a1] + (seq![a2] + seq![a3]) =~= spec_actions(s, c));
}

/// Counting a single action.
proof fn lemma_count_one(a: SupervisorAction)
    ensures
        count_emits(seq![a]) == (if a is EmitMaxRestartsReached {
            1nat
        } else {
            0nat
        }),
        count_spawns(seq![a]) == (if a is SpawnWorker {
            1nat
        } else {
            0nat
        }),
{
    assert(seq![a][0] == a);
    assert(seq![a].drop_first() =~= Seq::<SupervisorAction>::empty());
    assert(count_emits(Seq::<SupervisorAction>::empty()) == 0);
    assert(count_spawns(Seq::<SupervisorAction>::empty()) == 0);
}

/// `n` crash cycles spend `n` units of budget, spawn `n` times, and fire
/// no notification, as long as the budget allows.
proof fn lemma_crash_cycles_spend(s: Supervisor, n: nat)
    requires
        wf(s),
        s.phase is Idle || s.phase is BackingOff,
        s.restarts.restart_count + n <= s.restarts.max_restarts,
    ensures
        spec_run(s, crash_cycles(n)) == (if n == 0 {
            s
        } else {
            (Supervisor {
                phase: WorkerPhase::BackingOff,
                restarts: RestartState {
                    restart_count: (s.restarts.restart_count + n) as u32,
                    max_restarts: s.restarts.max_restarts,
                },
            })
        }),
        count_emits(spec_actions(s, crash_cycles(n))) == 0,
        count_spawns(spec_actions(s, crash_cycles(n))) == n,
    decreases n,
{
    if n == 0 {
    } else {
        lemma_crash_cycle_once(s);
        let s1 = spec_run(s, crash_cycle());
        lemma_run_append(s, crash_cycle(), crash_cycles((n - 1) as nat));
        lemma_crash_cycles_spend(s1, (n - 1) as nat);
        lemma_count_append(
            spec_actions(s, crash_cycle()),
            spec_actions(s1, crash_cycles((n - 1) as nat)),
        );
    }
}

/// After `max_restarts` consecutive unexpected terminations, the next
/// tick makes no further spawn attempt: the supervisor stops, exactly one
/// exhaustion notification fires over the whole run, and the worker was
/// spawned exactly `max_restarts` times, whatever events follow.
pub proof fn lemma_restart_budget_exhausted(max: u32, tail: Seq<SupervisorEvent>)
    ensures
        ({
            let s0 = Supervisor {
                phase: WorkerPhase::Idle,
                restarts: RestartState { restart_count: 0, max_restarts: max },
            };
            let evs = crash_cycles(max as nat) + (seq![SupervisorEvent::Tick] + tail);
            &&& spec_run(s0, evs).phase == (WorkerPhase::Stopped { exhausted: true })
            &&& count_emits(spec_actions(s0, evs)) == 1
            &&& count_spawns(spec_actions(s0, evs)) == max as nat
        }),
{
    let s0 = Supervisor {
        phase: WorkerPhase::Idle,
        restarts: RestartState { restart_count: 0, max_restarts: max },
    };
    lemma_crash_cycles_spend(s0, max as nat);
    let s1 = spec_run(s0, crash_cycles(max as nat));
    lemma_run_append(s0, crash_cycles(max as nat), seq![SupervisorEvent::Tick] + tail);
    lemma_count_append(
        spec_actions(s0, crash_cycles(max as nat)),
        spec_actions(s1, seq![SupervisorEvent::Tick] + tail),
    );
    let s2 = spec_step(s1, SupervisorEvent::Tick).0;
    assert(s2.phase == (WorkerPhase::Stopped { exhausted: true }));
    assert((seq![SupervisorEvent::Tick] + tail)[0] == SupervisorEvent::Tick);
    assert((seq![SupervisorEvent::Tick] + tail).drop_first() =~= tail);
    lemma_stopped_absorbing(s2, tail);
    let acts1 = spec_actions(s1, seq![SupervisorEvent::Tick] + tail);
    assert(acts1.drop_first() =~= spec_actions(s2, tail));
    assert(acts1[0] == SupervisorAction::EmitMaxRestartsReached);
}

/// An externally requested kill never consumes restart budget and never
/// triggers another spawn: the kill is acknowledged, the termination that
/// follows ends in the clean terminal phase with the count unchanged, and
/// every later event is ignored.
pub proof fn lemma_kill_never_restarts(
    s: Supervisor,
    code: Option<i32>,
    tail: Seq<SupervisorEvent>,
)
    requires
        wf(s),
        s.phase matches WorkerPhase::Running { handle_present: true, .. },
    ensures
        ({
            let (s1, a1) = spec_step(s, SupervisorEvent::KillRequested);
            let (s2, a2) = spec_step(s1, SupervisorEvent::Terminated(code));
            &&& a1 == SupervisorAction::KillWorker
            &&& s1.restarts == s.restarts
            &&& a2 == SupervisorAction::Nothing
            &&& s2.phase == (WorkerPhase::Stopped { exhausted: false })
            &&& s2.restarts == s.restarts
            &&& count_spawns(spec_actions(s2, tail)) == 0
            &&& spec_run(s2, tail).restarts == s.restarts
        }),
{
    let (s1, a1) = spec_step(s, SupervisorEvent::KillRequested);
    let (s2, a2) = spec_step(s1, SupervisorEvent::Terminated(code));
    lemma_stopped_absorbing(s2, tail);
}

} // verus!
