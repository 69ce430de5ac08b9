//! Looking into a compiled model: profiles, and waiting for the GPU.

use super::model::CompiledModel;
use super::native::{kLiteRtTensorBufferLockModeRead, text_of, Call, Handle, Reply, ReplySpec};
use vstd::prelude::*;

verus! {

/// What is wanted of the profiler.
#[derive(Clone, Copy, PartialEq, Eq, Structural)]
pub enum ProfileTask {
    /// Forget what was collected and collect.
    Start,
    /// Stop collecting.
    Stop,
    /// A summary of what was collected.
    Summary,
}

/// Uses the profiler of a compiled model, one call at a time. A model that was
/// compiled without one has none, and then nothing happens.
pub enum Profiling {
    /// The profiler is to be fetched.
    Fetch { task: ProfileTask, compiled: Handle },
    /// It is to be cleared.
    Reset { profiler: Handle },
    /// It is to start.
    Start { profiler: Handle },
    /// It is to stop.
    Stop { profiler: Handle },
    /// It is to give a summary.
    Summary { profiler: Handle, compiled: Handle },
    /// The end, with the summary where one was asked for and given.
    Done { summary: Option<String> },
}

/// What a [`Profiling`] holds.
pub enum ProfilingSpec {
    Fetch { task: ProfileTask, compiled: Handle },
    Reset { profiler: Handle },
    Start { profiler: Handle },
    Stop { profiler: Handle },
    Summary { profiler: Handle, compiled: Handle },
    Done { summary: Option<Seq<char>> },
}

impl View for Profiling {
    type V = ProfilingSpec;

    open spec fn view(&self) -> ProfilingSpec {
        match *self {
            Profiling::Fetch { task, compiled } => ProfilingSpec::Fetch { task, compiled },
            Profiling::Reset { profiler } => ProfilingSpec::Reset { profiler },
            Profiling::Start { profiler } => ProfilingSpec::Start { profiler },
            Profiling::Stop { profiler } => ProfilingSpec::Stop { profiler },
            Profiling::Summary { profiler, compiled } => ProfilingSpec::Summary {
                profiler,
                compiled,
            },
            Profiling::Done { summary } => ProfilingSpec::Done { summary: text_of(summary) },
        }
    }
}

impl ProfilingSpec {
    /// The call that comes next; none at the end.
    pub open spec fn call(self) -> Option<Call> {
        match self {
            ProfilingSpec::Fetch { task, compiled } => Some(Call::Profiler { compiled }),
            ProfilingSpec::Reset { profiler } => Some(Call::ResetProfiler { profiler }),
            ProfilingSpec::Start { profiler } => Some(Call::StartProfiler { profiler }),
            ProfilingSpec::Stop { profiler } => Some(Call::StopProfiler { profiler }),
            ProfilingSpec::Summary { profiler, compiled } => Some(
                Call::ProfileSummary { profiler, compiled },
            ),
            ProfilingSpec::Done { summary } => None,
        }
    }

    /// Where things stand after a reply.
    pub open spec fn step(self, r: ReplySpec) -> ProfilingSpec {
        match self {
            ProfilingSpec::Fetch { task, compiled } => if r.gave_handle() {
                match task {
                    ProfileTask::Start => ProfilingSpec::Reset { profiler: r.handle },
                    ProfileTask::Stop => ProfilingSpec::Stop { profiler: r.handle },
                    ProfileTask::Summary => ProfilingSpec::Summary {
                        profiler: r.handle,
                        compiled,
                    },
                }
            } else {
                ProfilingSpec::Done { summary: None }
            },
            ProfilingSpec::Reset { profiler } => ProfilingSpec::Start { profiler },
            ProfilingSpec::Start { profiler } => ProfilingSpec::Done { summary: None },
            ProfilingSpec::Stop { profiler } => ProfilingSpec::Done { summary: None },
            ProfilingSpec::Summary { profiler, compiled } => ProfilingSpec::Done {
                summary: if r.ok() {
                    r.text
                } else {
                    None
                },
            },
            ProfilingSpec::Done { summary } => self,
        }
    }
}

impl CompiledModel {
    /// Asks for a summary of what was collected.
    pub fn profile_summary(&self) -> (r: Profiling)
        ensures
            r@ == (ProfilingSpec::Fetch { task: ProfileTask::Summary, compiled: self@.compiled }),
    {
        Profiling::Fetch { task: ProfileTask::Summary, compiled: self.compiled }
    }

    /// Forgets what was collected and starts collecting.
    pub fn profile_start(&self) -> (r: Profiling)
        ensures
            r@ == (ProfilingSpec::Fetch { task: ProfileTask::Start, compiled: self@.compiled }),
    {
        Profiling::Fetch { task: ProfileTask::Start, compiled: self.compiled }
    }

    /// Stops collecting.
    pub fn profile_stop(&self) -> (r: Profiling)
        ensures
            r@ == (ProfilingSpec::Fetch { task: ProfileTask::Stop, compiled: self@.compiled }),
    {
        Profiling::Fetch { task: ProfileTask::Stop, compiled: self.compiled }
    }

    /// Waits until an output is written: its buffer is locked and unlocked, and
    /// nothing is copied. Nothing is done for an output that there is not.
    pub fn sync_output(&self, sig: usize, index: usize) -> (r: Syncing)
        ensures
            r == (match self@.output(sig as int, index as int) {
                Some(s) => Syncing::Lock { buffer: s.buffer },
                None => Syncing::Done,
            }),
    {
        match self.output_buffer(sig, index) {
            Some(buffer) => Syncing::Lock { buffer },
            None => Syncing::Done,
        }
    }
}

impl Profiling {
    /// The call that comes next; none at the end.
    pub fn call(&self) -> (r: Option<Call>)
        ensures
            r == self@.call(),
    {
        match self {
            Profiling::Fetch { task, compiled } => Some(Call::Profiler { compiled: *compiled }),
            Profiling::Reset { profiler } => Some(Call::ResetProfiler { profiler: *profiler }),
            Profiling::Start { profiler } => Some(Call::StartProfiler { profiler: *profiler }),
            Profiling::Stop { profiler } => Some(Call::StopProfiler { profiler: *profiler }),
            Profiling::Summary { profiler, compiled } => Some(
                Call::ProfileSummary { profiler: *profiler, compiled: *compiled },
            ),
            Profiling::Done { summary } => None,
        }
    }

    /// Takes the reply to the call.
    pub fn advance(self, reply: Reply) -> (r: Profiling)
        ensures
            r@ == self@.step(reply@),
    {
        match self {
            Profiling::Fetch { task, compiled } => {
                if reply.has_handle() {
                    match task {
                        ProfileTask::Start => Profiling::Reset { profiler: reply.handle },
                        ProfileTask::Stop => Profiling::Stop { profiler: reply.handle },
                        ProfileTask::Summary => Profiling::Summary {
                            profiler: reply.handle,
                            compiled,
                        },
                    }
                } else {
                    Profiling::Done { summary: None }
                }
            },
            Profiling::Reset { profiler } => Profiling::Start { profiler },
            Profiling::Start { profiler } => Profiling::Done { summary: None },
            Profiling::Stop { profiler } => Profiling::Done { summary: None },
            Profiling::Summary { profiler, compiled } => {
                if reply.is_ok() {
                    Profiling::Done { summary: reply.text }
                } else {
                    Profiling::Done { summary: None }
                }
            },
            other => other,
        }
    }
}

/// Waits for an output, one call at a time.
#[derive(Clone, Copy, PartialEq, Eq, Structural)]
pub enum Syncing {
    Lock { buffer: Handle },
    Unlock { buffer: Handle },
    Done,
}

impl Syncing {
    /// The call that comes next; none at the end.
    pub open spec fn next_call(self) -> Option<Call> {
        match self {
            Syncing::Lock { buffer } => Some(
                Call::Lock { buffer, mode: kLiteRtTensorBufferLockModeRead },
            ),
            Syncing::Unlock { buffer } => Some(Call::Unlock { buffer }),
            Syncing::Done => None,
        }
    }

    /// Where things stand after a reply. What was locked is unlocked.
    pub open spec fn step(self, r: ReplySpec) -> Syncing {
        match self {
            Syncing::Lock { buffer } => if r.ok() {
                Syncing::Unlock { buffer }
            } else {
                Syncing::Done
            },
            _ => Syncing::Done,
        }
    }

    /// The call that comes next; none at the end.
    pub fn call(&self) -> (r: Option<Call>)
        ensures
            r == self.next_call(),
    {
        match *self {
            Syncing::Lock { buffer } => Some(
                Call::Lock { buffer, mode: kLiteRtTensorBufferLockModeRead },
            ),
            Syncing::Unlock { buffer } => Some(Call::Unlock { buffer }),
            Syncing::Done => None,
        }
    }

    /// Takes the reply to the call.
    pub fn advance(self, reply: Reply) -> (r: Syncing)
        ensures
            r == self.step(reply@),
    {
        match self {
            Syncing::Lock { buffer } => {
                if reply.is_ok() {
                    Syncing::Unlock { buffer }
                } else {
                    Syncing::Done
                }
            },
            _ => Syncing::Done,
        }
    }
}

/// Starting a profile fetches the profiler of the compiled model, clears it and
/// starts it; stopping fetches and stops it; a summary is what the profiler gives,
/// where it gives one. Where there is no profiler, that is the end.
pub proof fn profiles_go_by_the_models_profiler(
    compiled: Handle,
    fetched: ReplySpec,
    r: ReplySpec,
    s: ReplySpec,
)
    requires
        fetched.status == 0,
        fetched.handle != 0,
    ensures
        ({
            let p = fetched.handle;
            let none = ProfilingSpec::Done { summary: None };
            let start = ProfilingSpec::Fetch { task: ProfileTask::Start, compiled };
            let stop = ProfilingSpec::Fetch { task: ProfileTask::Stop, compiled };
            let sum = ProfilingSpec::Fetch { task: ProfileTask::Summary, compiled };
            &&& start.call() == Some(Call::Profiler { compiled })
            &&& start.step(fetched).call() == Some(Call::ResetProfiler { profiler: p })
            &&& start.step(fetched).step(r).call() == Some(Call::StartProfiler { profiler: p })
            &&& start.step(fetched).step(r).step(s) == none
            &&& stop.call() == Some(Call::Profiler { compiled })
            &&& stop.step(fetched).call() == Some(Call::StopProfiler { profiler: p })
            &&& stop.step(fetched).step(r) == none
            &&& sum.call() == Some(Call::Profiler { compiled })
            &&& sum.step(fetched).call() == Some(
                Call::ProfileSummary { profiler: p, compiled },
            )
            &&& sum.step(fetched).step(r) == (ProfilingSpec::Done {
                summary: if r.status == 0 {
                    r.text
                } else {
                    None
                },
            })
            &&& none.call() is None
        }),
{
}

/// Without a profiler there is nothing to do.
pub proof fn no_profiler_no_profile(task: ProfileTask, compiled: Handle, r: ReplySpec)
    requires
        r.status != 0 || r.handle == 0,
    ensures
        (ProfilingSpec::Fetch { task, compiled }).step(r) == (ProfilingSpec::Done {
            summary: None,
        }),
{
}

/// Waiting for an output locks its buffer for reading and, where that went well,
/// unlocks it. Then it is over.
pub proof fn waiting_locks_and_unlocks(
    m: CompiledModel,
    sig: usize,
    index: usize,
    w: Syncing,
    locked: ReplySpec,
    r: ReplySpec,
)
    requires
        call_ensures(CompiledModel::sync_output, (&m, sig, index), w),
    ensures
        sig < m.signatures@.len() && index < m.signatures@[sig as int].outputs@.len() ==> {
            let buffer = m.signatures@[sig as int].outputs@[index as int].buffer;
            &&& w.next_call() == Some(Call::Lock { buffer, mode: 0 })
            &&& locked.status == 0 ==> w.step(locked).next_call() == Some(Call::Unlock { buffer })
            &&& locked.status != 0 ==> w.step(locked).next_call() is None
            &&& w.step(locked).step(r).next_call() is None
        },
        sig >= m.signatures@.len() || index >= m.signatures@[sig as int].outputs@.len()
            ==> w.next_call() is None,
{
    super::model::models_are_seen_whole(m, sig as int, index as int);
}

} // verus!
