//! What a run does on a machine.
//!
//! A machine has buffers, locks one of them at a time, and runs signatures on
//! them. Here it sees nothing of a run but its calls.

use super::memory::{
    inputs_arrive, method_gives_what_was_computed, outputs_in, run_with, skipped_inputs_stay,
    Compute, Locks, Memory,
};
use super::replies::{locked_by, output_is_read_whole};
use super::run::{RunSpec, RunStageSpec, RunningSpec};
use super::EngineSpec;
use crate::backends::litert_sys::model::{dims_product, overlaid};
use crate::backends::litert_sys::native::{Call, Handle, ReplySpec};
use crate::tensor::TensorSpec;
use crate::{DType, Method};
use vstd::prelude::*;

verus! {

/// A machine: what its buffers hold, and the one that is locked, with the mode:
/// 0 for reading, 1 for writing.
pub struct Machine {
    pub memory: Memory,
    pub locked: Option<(Handle, i32)>,
}

/// What a machine does where a signature of a compiled model is run on the
/// buffers of its inputs and outputs.
pub type Kernel = spec_fn(Handle, usize, Seq<Handle>, Seq<Handle>, Memory) -> Memory;

/// Where locking puts a buffer.
pub open spec fn lock_address() -> usize {
    1
}

impl Machine {
    /// What a call gives back. Reading gives the bytes of the locked buffer, as
    /// many as asked for.
    pub open spec fn answer(self, call: Call) -> ReplySpec {
        let none = ReplySpec {
            status: 0,
            handle: 0,
            count: 0,
            text: None,
            element_type: 0,
            layouts: seq![],
            bytes: seq![],
        };
        match call {
            Call::Lock { buffer, mode } => ReplySpec { handle: lock_address(), ..none },
            Call::Read { address, len } => ReplySpec {
                bytes: match self.locked {
                    Some((h, mode)) if address == lock_address() && mode == 0 => if len
                        <= self.memory[h].len() {
                        self.memory[h].take(len as int)
                    } else {
                        self.memory[h]
                    },
                    _ => seq![],
                },
                ..none
            },
            _ => none,
        }
    }

    /// The machine after a call. Writing puts the bytes into the locked buffer.
    pub open spec fn after(
        self,
        call: Call,
        bytes: Seq<u8>,
        inputs: Seq<Handle>,
        outputs: Seq<Handle>,
        kernel: Kernel,
    ) -> Machine {
        match call {
            Call::Lock { buffer, mode } => Machine { locked: Some((buffer, mode)), ..self },
            Call::Unlock { buffer } => match self.locked {
                Some((h, mode)) if h == buffer => Machine { locked: None, ..self },
                _ => self,
            },
            Call::Write { address } => match self.locked {
                Some((h, mode)) if address == lock_address() && mode == 1 => Machine {
                    memory: self.memory.insert(h, bytes),
                    ..self
                },
                _ => self,
            },
            Call::Invoke { compiled, sig } => Machine {
                memory: kernel(compiled, sig, inputs, outputs, self.memory),
                ..self
            },
            _ => self,
        }
    }
}

/// The bytes that go with the next call, where it writes.
pub open spec fn payload(run: RunSpec) -> Seq<u8> {
    match run.stage {
        RunStageSpec::Write { next, address } => run.writes[next as int].bytes,
        _ => seq![],
    }
}

/// A run after `n` calls on a machine, with the machine.
pub open spec fn run_on(s: RunningSpec, m: Machine, kernel: Kernel, n: nat) -> (
    RunningSpec,
    Machine,
)
    decreases n,
{
    match s {
        RunningSpec::Working { run } if n > 0 => run_on(
            s.step(m.answer(run.call())),
            m.after(run.call(), payload(run), run.inputs, run.output_buffers(), kernel),
            kernel,
            (n - 1) as nat,
        ),
        _ => (s, m),
    }
}

/// The buffer that a run has locked, and for what.
spec fn locked_for(s: RunningSpec) -> Option<(Handle, i32)> {
    match locked_by(s) {
        Some(h) => Some(
            (
                h,
                match s {
                    RunningSpec::Working { run } => if run.stage is Write || run.stage is Unlock {
                        1i32
                    } else {
                        0
                    },
                    _ => 0,
                },
            ),
        ),
        None => None,
    }
}

/// A run is still about what it started with, and knows the right address.
spec fn on_track(start: RunSpec, s: RunningSpec) -> bool {
    match s {
        RunningSpec::Working { run } => {
            &&& run == (RunSpec { stage: run.stage, ..start })
            &&& match run.stage {
                RunStageSpec::Write { next, address } => address == lock_address(),
                RunStageSpec::LockOutput { outs } => outs.len() < start.outputs.len(),
                RunStageSpec::Read { outs, address } => address == lock_address() && outs.len()
                    < start.outputs.len(),
                _ => true,
            }
        },
        _ => true,
    }
}

proof fn lemma_collect_on_track(start: RunSpec, run: RunSpec, outs: Seq<TensorSpec>)
    requires
        run == (RunSpec { stage: run.stage, ..start }),
    ensures
        on_track(start, run.collect(outs)),
        locked_by(run.collect(outs)) is None,
    decreases run.outputs.len() - outs.len(),
{
    if outs.len() < run.outputs.len() && !run.outputs[outs.len() as int].fetched() {
        lemma_collect_on_track(start, run, outs.push(run.outputs[outs.len() as int].blank()));
    }
}

/// What running a signature does, where it is this one on these buffers.
spec fn computing(start: RunSpec, kernel: Kernel) -> Compute {
    |memory: Memory|
        kernel(start.compiled, start.sig, start.inputs, start.output_buffers(), memory)
}

spec fn all_lock() -> Locks {
    |h: Handle| true
}

proof fn lemma_same_run(start: RunSpec, s: RunningSpec, memory: Memory, kernel: Kernel, n: nat)
    requires
        on_track(start, s),
        forall|i: int|
            0 <= i < start.outputs.len() ==> (#[trigger] start.outputs[i]).slot.byte_len()
                <= usize::MAX,
    ensures
        ({
            let (end, after) = run_with(s, memory, computing(start, kernel), all_lock(), n);
            run_on(s, Machine { memory, locked: locked_for(s) }, kernel, n) == (
                end,
                Machine { memory: after, locked: locked_for(end) },
            )
        }),
    decreases n,
{
    match s {
        RunningSpec::Working { run } if n > 0 => {
            let m = Machine { memory, locked: locked_for(s) };
            let compute = computing(start, kernel);
            let r = super::memory::reply_from(run, memory, all_lock());
            let next = super::memory::memory_after(run, memory, compute);
            let t = run.step(r);
            assert(run.output_buffers() =~= start.output_buffers());
            match run.stage {
                RunStageSpec::Invoke => {
                    lemma_collect_on_track(start, run, seq![]);
                },
                RunStageSpec::Read { outs, address } => {
                    let o = run.outputs[outs.len() as int];
                    let all = memory[o.slot.buffer];
                    assert(start.outputs[outs.len() as int].slot.byte_len() <= usize::MAX);
                    let part = m.answer(run.call()).bytes;
                    assert(overlaid(o.blank().data, all, o.slot.byte_len()) =~= overlaid(
                        o.blank().data,
                        part,
                        o.slot.byte_len(),
                    ));
                    assert(o.filled(all) == o.filled(part));
                },
                RunStageSpec::UnlockOutput { outs } => {
                    lemma_collect_on_track(start, run, outs);
                },
                _ => {},
            }
            assert(s.step(m.answer(run.call())) == t);
            assert(on_track(start, t));
            assert(m.after(run.call(), payload(run), run.inputs, run.output_buffers(), kernel)
                == (Machine { memory: next, locked: locked_for(t) }));
            lemma_same_run(start, t, next, kernel, (n - 1) as nat);
        },
        _ => {},
    }
}

/// A machine runs a method as it is told to by the calls alone. It ends with
/// nothing locked, after the signature has run once: the method's, in its
/// compiled model, on the buffers of its inputs and outputs in their places.
///
/// What the signature found in the buffer of an input is, where the method takes
/// the input from the caller and no other input has the same buffer, what the
/// caller gave for it, cut or filled up with zeros to the size of the input; and
/// where the method takes the input from elsewhere, what was there before.
///
/// What comes back for an output that stays in its buffer is an empty list. Any
/// other comes back in its shape, with all bytes that the signature left in its
/// buffer.
pub proof fn a_machine_runs_the_method(
    e: EngineSpec,
    method: Method,
    k: usize,
    s: usize,
    data: Seq<Seq<u8>>,
    memory: Memory,
    kernel: Kernel,
    inputs: Seq<Handle>,
    outputs: Seq<Handle>,
    i: int,
    b: int,
    o: int,
) -> (r: (nat, Memory))
    requires
        e.routes.at(method) == Some((k, s)),
        k < e.models.len(),
        s < e.models[k as int].signatures.len(),
        inputs.len() == e.models[k as int].signatures[s as int].inputs.len(),
        forall|j: int|
            0 <= j < inputs.len() ==> #[trigger] inputs[j]
                == e.models[k as int].signatures[s as int].inputs[j].buffer,
        outputs.len() == e.models[k as int].signatures[s as int].outputs.len(),
        forall|j: int|
            0 <= j < outputs.len() ==> #[trigger] outputs[j]
                == e.models[k as int].signatures[s as int].outputs[j].buffer,
        forall|j: int|
            0 <= j < outputs.len() ==> 4 * dims_product(
                (#[trigger] e.models[k as int].signatures[s as int].outputs[j]).shape,
            ) <= usize::MAX,
    ensures
        ({
            let sig = e.models[k as int].signatures[s as int];
            let (n, before) = r;
            let after = kernel(e.models[k as int].compiled, s, inputs, outputs, before);
            let start = Machine { memory, locked: None };
            let alone = forall|j: int|
                0 <= j < inputs.len() && j != i ==> #[trigger] inputs[j] != inputs[i];
            let piped_in = exists|l: int|
                0 <= l < e.pipes.len() && #[trigger] e.pipes[l].2 == method && e.pipes[l].3 == i;
            let fed = exists|l: int|
                0 <= l < e.feedback.at(method).len() && #[trigger] e.feedback.at(method)[l].1 == i;
            let piped_on = exists|l: int|
                0 <= l < e.pipes.len() && #[trigger] e.pipes[l].0 == method && e.pipes[l].1 == o;
            let feeds = exists|l: int|
                0 <= l < e.feedback.at(method).len() && #[trigger] e.feedback.at(method)[l].0 == o;
            &&& run_on(e.running(method, data), start, kernel, n) matches (
                RunningSpec::Ran { method: ran, outputs: outs },
                end,
            ) && {
                &&& ran == method
                &&& end == (Machine { memory: after, locked: None })
                &&& outs.len() == sig.outputs.len()
                &&& 0 <= o < outs.len() && (piped_on || feeds) ==> outs[o].shape == seq![0i64]
                    && outs[o].dtype == DType::F32 && outs[o].data.len() == 0
                &&& 0 <= o < outs.len() && !piped_on && !feeds && (forall|d: int|
                    0 <= d < sig.outputs[o].shape.len() ==> #[trigger] sig.outputs[o].shape[d] >= 0)
                    && after[outputs[o]].len() == 4 * dims_product(sig.outputs[o].shape) ==> {
                    &&& outs[o].data == after[outputs[o]]
                    &&& outs[o].shape.len() == sig.outputs[o].shape.len()
                    &&& forall|d: int|
                        0 <= d < outs[o].shape.len() ==> #[trigger] outs[o].shape[d]
                            == sig.outputs[o].shape[d]
                    &&& outs[o].dtype == (if sig.outputs[o].element_type == 2 {
                        DType::I32
                    } else {
                        DType::F32
                    })
                }
            }
            &&& 0 <= i < inputs.len() && i < data.len() && alone && !piped_in && !(fed && e.ran.at(
                method,
            )) && dims_product(sig.inputs[i].shape) > 0 ==> {
                &&& before[inputs[i]].len() == 4 * dims_product(sig.inputs[i].shape)
                &&& 0 <= b < before[inputs[i]].len() ==> before[inputs[i]][b] == (if b
                    < data[i].len() {
                    data[i][b]
                } else {
                    0
                })
            }
            &&& 0 <= i < inputs.len() && alone && (piped_in || fed && e.ran.at(method))
                ==> before[inputs[i]] == memory[inputs[i]]
        }),
{
    let sig = e.models[k as int].signatures[s as int];
    let run = e.planned(method, data);
    let locks = all_lock();
    let compute = computing(run, kernel);
    let before = e.seen(method, data, memory, locks);
    let after = compute(before);
    let want = outputs_in(run.outputs, after, locks);
    assert(run.inputs =~= inputs);
    assert(run.output_buffers() =~= outputs);
    method_gives_what_was_computed(e, method, data, memory, compute, locks);
    let n = choose|n: nat| #[trigger]
        run_with(e.running(method, data), memory, compute, locks, n) == (
            RunningSpec::Ran { method, outputs: want },
            after,
        );
    assert forall|j: int| 0 <= j < run.outputs.len() implies (
    #[trigger] run.outputs[j]).slot.byte_len() <= usize::MAX by {
        assert(run.outputs[j].slot == sig.outputs[j]);
    }
    lemma_same_run(run, e.running(method, data), memory, kernel, n);
    super::run::linked_slots_are_passed_over(e, method, i);
    super::run::linked_slots_are_passed_over(e, method, o);
    if 0 <= o < sig.outputs.len() {
        let out = run.outputs[o];
        super::run::outputs_are_read_over_zeros(out, seq![], 0);
        assert(out.held == e.holds(method, o));
        if !out.held && (forall|d: int|
            0 <= d < sig.outputs[o].shape.len() ==> #[trigger] sig.outputs[o].shape[d] >= 0)
            && after[outputs[o]].len() == 4 * dims_product(sig.outputs[o].shape) {
            output_is_read_whole(out, after[outputs[o]]);
            if !out.fetched() {
                assert(out.blank().data =~= after[outputs[o]]);
            }
            assert(want[o].data == after[outputs[o]]);
        }
    }
    if 0 <= i < inputs.len() && forall|j: int|
        0 <= j < inputs.len() && j != i ==> #[trigger] inputs[j] != inputs[i] {
        assert(e.model_of(method).input(s as int, i) == Some(sig.inputs[i]));
        assert(e.no_other_has(method, i, data.len(), inputs[i]) && e.none_after_has(
            method,
            i,
            data.len(),
        )) by {
            assert forall|j: int|
                j != i && (#[trigger] e.model_of(method).input(s as int, j)) is Some implies
                e.model_of(method).input(s as int, j).unwrap().buffer != inputs[i] by {
                assert(inputs[j] != inputs[i]);
            }
        }
        if e.skips(method, i) {
            skipped_inputs_stay(e, method, data, i, memory, locks);
        } else if i < data.len() && dims_product(sig.inputs[i].shape) > 0 {
            inputs_arrive(e, method, data, i, memory, locks);
        }
    }
    (n, before)
}

} // verus!
