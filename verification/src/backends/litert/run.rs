//! Running a method.
//!
//! A run writes the caller's tensors to the buffers of the inputs, runs the
//! signature, and reads the buffers of the outputs. Inputs that come from a call
//! before or from another method are not written, and outputs that stay in their
//! buffers are not read.

use super::{moved, moved_all, wide, widened, EngineSpec, LiteRtCompiledEngine, Move};
use crate::backends::litert_sys::model::{
    copy_output, dims_product, fitted, overlaid, slot_buffers, BufferWrite, ModelSpec, Slot,
    SlotSpec,
};
use crate::backends::litert_sys::native::{
    kLiteRtElementTypeInt32, kLiteRtTensorBufferLockModeRead, kLiteRtTensorBufferLockModeWrite,
    Call, Handle, Reply, ReplySpec,
};
use crate::tensor::{
    allocatable, can_allocate, element_count, product, tensors_of, zero_tensor, TensorSpec,
};
use crate::text::{integer, push_i32};
use crate::{DType, EngineError, ErrorSpec, Method, Tensor, TensorView};
use vstd::prelude::*;

verus! {

/// The element type of an output tensor: integers where the runtime says so,
/// floats otherwise.
pub open spec fn dtype_of(element_type: i32) -> DType {
    if element_type == kLiteRtElementTypeInt32 {
        DType::I32
    } else {
        DType::F32
    }
}

/// Bytes on their way into a buffer.
pub struct WriteSpec {
    pub buffer: Handle,
    pub bytes: Seq<u8>,
}

impl View for BufferWrite {
    type V = WriteSpec;

    open spec fn view(&self) -> WriteSpec {
        WriteSpec { buffer: self.buffer, bytes: self.bytes@ }
    }
}

/// What a list of writes holds.
pub open spec fn writes_of(v: Seq<BufferWrite>) -> Seq<WriteSpec> {
    Seq::new(v.len(), |i: int| v[i]@)
}

/// An output of a run. One that is held stays in its buffer for the next call.
pub struct Output {
    pub slot: Slot,
    pub held: bool,
}

/// What an [`Output`] holds.
pub struct OutputSpec {
    pub slot: SlotSpec,
    pub held: bool,
}

impl View for Output {
    type V = OutputSpec;

    open spec fn view(&self) -> OutputSpec {
        OutputSpec { slot: self.slot@, held: self.held }
    }
}

/// What a list of outputs holds.
pub open spec fn outputs_of(v: Seq<Output>) -> Seq<OutputSpec> {
    Seq::new(v.len(), |i: int| v[i]@)
}

impl OutputSpec {
    /// The output before anything is read: an empty tensor in the place of one
    /// that is held, zeros for any other.
    pub open spec fn blank(self) -> TensorSpec {
        if self.held {
            zero_tensor(seq![0i64], DType::F32)
        } else {
            zero_tensor(wide(self.slot.shape), dtype_of(self.slot.element_type))
        }
    }

    /// The output with what its buffer holds.
    pub open spec fn filled(self, bytes: Seq<u8>) -> TensorSpec {
        TensorSpec {
            data: overlaid(self.blank().data, bytes, self.slot.byte_len()),
            ..self.blank()
        }
    }

    /// The output is read from its buffer.
    pub open spec fn fetched(self) -> bool {
        !self.held && self.slot.byte_len() > 0
    }

    /// The size of the output can be computed, and memory can hold it.
    pub open spec fn fits(self) -> bool {
        self.held || (self.slot.size_fits() && allocatable(
            wide(self.slot.shape),
            dtype_of(self.slot.element_type),
        ))
    }
}

/// The next thing to ask of the runtime.
pub enum RunStage {
    /// Lock the buffer of a write.
    Lock { next: usize },
    /// Write to it.
    Write { next: usize, address: usize },
    /// Unlock it.
    Unlock { next: usize },
    /// Run the signature.
    Invoke,
    /// Lock the buffer of the next output.
    LockOutput { outs: Vec<Tensor> },
    /// Read it.
    Read { outs: Vec<Tensor>, address: usize },
    /// Unlock the buffer of the output that was read last.
    UnlockOutput { outs: Vec<Tensor> },
}

/// What a [`RunStage`] holds.
pub enum RunStageSpec {
    Lock { next: nat },
    Write { next: nat, address: usize },
    Unlock { next: nat },
    Invoke,
    LockOutput { outs: Seq<TensorSpec> },
    Read { outs: Seq<TensorSpec>, address: usize },
    UnlockOutput { outs: Seq<TensorSpec> },
}

impl View for RunStage {
    type V = RunStageSpec;

    open spec fn view(&self) -> RunStageSpec {
        match *self {
            RunStage::Lock { next } => RunStageSpec::Lock { next: next as nat },
            RunStage::Write { next, address } => RunStageSpec::Write { next: next as nat, address },
            RunStage::Unlock { next } => RunStageSpec::Unlock { next: next as nat },
            RunStage::Invoke => RunStageSpec::Invoke,
            RunStage::LockOutput { outs } => RunStageSpec::LockOutput { outs: tensors_of(outs@) },
            RunStage::Read { outs, address } => RunStageSpec::Read {
                outs: tensors_of(outs@),
                address,
            },
            RunStage::UnlockOutput { outs } => RunStageSpec::UnlockOutput {
                outs: tensors_of(outs@),
            },
        }
    }
}

/// What a run is about: the signature, its buffers, what to write and what to
/// read.
pub struct RunPlan {
    pub method: Method,
    pub compiled: Handle,
    pub sig: usize,
    /// The buffers of all inputs.
    pub inputs: Vec<Handle>,
    pub outputs: Vec<Output>,
    pub writes: Vec<BufferWrite>,
}

/// A run of a method, one call at a time.
pub struct Run {
    pub plan: RunPlan,
    pub stage: RunStage,
}

/// What a [`Run`] holds.
pub struct RunSpec {
    pub method: Method,
    pub compiled: Handle,
    pub sig: usize,
    pub inputs: Seq<Handle>,
    pub outputs: Seq<OutputSpec>,
    pub writes: Seq<WriteSpec>,
    pub stage: RunStageSpec,
}

impl View for RunPlan {
    type V = RunSpec;

    /// A run that is about to run the signature.
    open spec fn view(&self) -> RunSpec {
        RunSpec {
            method: self.method,
            compiled: self.compiled,
            sig: self.sig,
            inputs: self.inputs@,
            outputs: outputs_of(self.outputs@),
            writes: writes_of(self.writes@),
            stage: RunStageSpec::Invoke,
        }
    }
}

impl View for Run {
    type V = RunSpec;

    open spec fn view(&self) -> RunSpec {
        RunSpec { stage: self.stage@, ..self.plan@ }
    }
}

/// Where a run stands.
pub enum Running {
    Working { run: Run },
    /// All outputs are there.
    Ran { method: Method, outputs: Vec<Tensor> },
    Failed { error: EngineError },
}

/// What a [`Running`] holds.
pub enum RunningSpec {
    Working { run: RunSpec },
    Ran { method: Method, outputs: Seq<TensorSpec> },
    Failed { error: ErrorSpec },
}

impl View for Running {
    type V = RunningSpec;

    open spec fn view(&self) -> RunningSpec {
        match *self {
            Running::Working { run } => RunningSpec::Working { run: run@ },
            Running::Ran { method, outputs } => RunningSpec::Ran {
                method,
                outputs: tensors_of(outputs@),
            },
            Running::Failed { error } => RunningSpec::Failed { error: error@ },
        }
    }
}

impl RunSpec {
    /// The sizes of all outputs that are not held can be computed.
    pub open spec fn outputs_fit(self) -> bool {
        forall|i: int| 0 <= i < self.outputs.len() ==> (#[trigger] self.outputs[i]).fits()
    }

    /// The buffers of all outputs.
    pub open spec fn output_buffers(self) -> Seq<Handle> {
        Seq::new(self.outputs.len(), |i: int| self.outputs[i].slot.buffer)
    }

    /// The stage is about a write or an output that the run has.
    pub open spec fn well_formed(self) -> bool {
        match self.stage {
            RunStageSpec::Lock { next } => next < self.writes.len(),
            RunStageSpec::Write { next, address } => next < self.writes.len(),
            RunStageSpec::Unlock { next } => next < self.writes.len(),
            RunStageSpec::Invoke => true,
            RunStageSpec::LockOutput { outs } => self.outputs_fit() && outs.len()
                < self.outputs.len() && self.outputs[outs.len() as int].fetched(),
            RunStageSpec::Read { outs, address } => self.outputs_fit() && outs.len()
                < self.outputs.len() && self.outputs[outs.len() as int].fetched(),
            RunStageSpec::UnlockOutput { outs } => self.outputs_fit() && 0 < outs.len()
                <= self.outputs.len(),
        }
    }

    /// The call that comes next.
    pub open spec fn call(self) -> Call {
        match self.stage {
            RunStageSpec::Lock { next } => Call::Lock {
                buffer: self.writes[next as int].buffer,
                mode: kLiteRtTensorBufferLockModeWrite,
            },
            RunStageSpec::Write { next, address } => Call::Write { address },
            RunStageSpec::Unlock { next } => Call::Unlock {
                buffer: self.writes[next as int].buffer,
            },
            RunStageSpec::Invoke => Call::Invoke { compiled: self.compiled, sig: self.sig },
            RunStageSpec::LockOutput { outs } => Call::Lock {
                buffer: self.outputs[outs.len() as int].slot.buffer,
                mode: kLiteRtTensorBufferLockModeRead,
            },
            RunStageSpec::Read { outs, address } => Call::Read {
                address,
                len: self.outputs[outs.len() as int].slot.byte_len() as usize,
            },
            RunStageSpec::UnlockOutput { outs } => Call::Unlock {
                buffer: self.outputs[outs.len() - 1].slot.buffer,
            },
        }
    }

    /// The same run at another stage.
    pub open spec fn at(self, stage: RunStageSpec) -> RunningSpec {
        RunningSpec::Working { run: RunSpec { stage, ..self } }
    }

    /// Goes on with write `next`, or runs the signature after the last.
    pub open spec fn write_from(self, next: nat) -> RunningSpec {
        if next < self.writes.len() {
            self.at(RunStageSpec::Lock { next })
        } else {
            self.at(RunStageSpec::Invoke)
        }
    }

    /// Goes on with the first output after `outs` that is read.
    pub open spec fn collect(self, outs: Seq<TensorSpec>) -> RunningSpec
        decreases self.outputs.len() - outs.len(),
    {
        if outs.len() >= self.outputs.len() {
            RunningSpec::Ran { method: self.method, outputs: outs }
        } else if self.outputs[outs.len() as int].fetched() {
            self.at(RunStageSpec::LockOutput { outs })
        } else {
            self.collect(outs.push(self.outputs[outs.len() as int].blank()))
        }
    }

    /// Where the run stands after a reply. A buffer that cannot be locked is
    /// passed over: an input stays as it is, an output reads as zeros. A run
    /// that fails carries the runtime's own status.
    pub open spec fn step(self, r: ReplySpec) -> RunningSpec {
        match self.stage {
            RunStageSpec::Lock { next } => if r.gave_handle() {
                self.at(RunStageSpec::Write { next, address: r.handle })
            } else {
                self.write_from(next + 1)
            },
            RunStageSpec::Write { next, address } => self.at(RunStageSpec::Unlock { next }),
            RunStageSpec::Unlock { next } => self.write_from(next + 1),
            RunStageSpec::Invoke => if r.ok() {
                self.collect(seq![])
            } else {
                RunningSpec::Failed {
                    error: ErrorSpec::Execute {
                        method: self.method,
                        code: r.status,
                        msg: "LiteRtRunCompiledModel status="@ + integer(r.status as int),
                    },
                }
            },
            RunStageSpec::LockOutput { outs } => if r.gave_handle() {
                self.at(RunStageSpec::Read { outs, address: r.handle })
            } else {
                self.collect(outs.push(self.outputs[outs.len() as int].blank()))
            },
            RunStageSpec::Read { outs, address } => self.at(
                RunStageSpec::UnlockOutput {
                    outs: outs.push(self.outputs[outs.len() as int].filled(r.bytes)),
                },
            ),
            RunStageSpec::UnlockOutput { outs } => self.collect(outs),
        }
    }
}

impl RunningSpec {
    /// The run may go on.
    pub open spec fn well_formed(self) -> bool {
        match self {
            RunningSpec::Working { run } => run.well_formed(),
            _ => true,
        }
    }

    /// The call that comes next; none when the run has ended.
    pub open spec fn call(self) -> Option<Call> {
        match self {
            RunningSpec::Working { run } => Some(run.call()),
            _ => None,
        }
    }

    /// A reply may be taken: once the signature has run, the sizes of its
    /// outputs are needed.
    pub open spec fn takes(self, r: ReplySpec) -> bool {
        match self {
            RunningSpec::Working { run } => run.stage is Invoke && r.ok() ==> run.outputs_fit(),
            _ => true,
        }
    }

    /// Where the run stands after a reply.
    pub open spec fn step(self, r: ReplySpec) -> RunningSpec {
        match self {
            RunningSpec::Working { run } => run.step(r),
            _ => self,
        }
    }
}

impl Output {
    /// The output before anything is read.
    fn blank(&self) -> (r: Tensor)
        requires
            self@.fits(),
        ensures
            r.contents() == self@.blank(),
    {
        if self.held {
            let mut shape: Vec<i64> = Vec::new();
            shape.push(0);
            proof {
                assert(shape@ =~= seq![0i64]);
                lemma_empty_allocatable();
            }
            Tensor::zeros(shape, DType::F32)
        } else {
            Tensor::zeros(widened(&self.slot.shape), self.dtype())
        }
    }

    /// The element type of its tensor.
    fn dtype(&self) -> (r: DType)
        ensures
            r == dtype_of(self@.slot.element_type),
    {
        if self.slot.element_type == kLiteRtElementTypeInt32 {
            DType::I32
        } else {
            DType::F32
        }
    }

    /// Whether its size can be computed and memory can hold it.
    fn fits(&self) -> (r: bool)
        ensures
            r == self@.fits(),
    {
        self.held || (self.slot.size_fits() && can_allocate(
            widened(&self.slot.shape).as_slice(),
            self.dtype(),
        ))
    }

    /// Whether the output is read from its buffer.
    fn fetched(&self) -> (r: bool)
        requires
            self@.fits(),
        ensures
            r == self@.fetched(),
    {
        !self.held && self.slot.byte_count() > 0
    }
}

proof fn lemma_empty_allocatable()
    ensures
        allocatable(seq![0i64], DType::F32),
{
    let shape = seq![0i64];
    assert forall|k: int| 0 <= k <= shape.len() implies i64::MIN <= #[trigger] product(
        shape.take(k),
    ) <= i64::MAX by {
        if k == 1 {
            assert(shape.take(1).last() == 0);
        }
    }
    assert(product(shape) == product(shape.drop_last()) * 0);
}

impl RunPlan {
    fn at(self, stage: RunStage) -> (r: Running)
        ensures
            r@ == self@.at(stage@),
    {
        Running::Working { run: Run { plan: self, stage } }
    }

    fn write_from(self, next: usize) -> (r: Running)
        ensures
            r@ == self@.write_from(next as nat),
    {
        if next < self.writes.len() {
            self.at(RunStage::Lock { next })
        } else {
            self.at(RunStage::Invoke)
        }
    }

    fn collect(self, done: Vec<Tensor>) -> (r: Running)
        requires
            self@.outputs_fit(),
        ensures
            r@ == self@.collect(tensors_of(done@)),
    {
        let ghost start = tensors_of(done@);
        let mut outs = done;
        while outs.len() < self.outputs.len()
            invariant
                start == tensors_of(done@),
                self@.outputs_fit(),
                self@.collect(start) == self@.collect(tensors_of(outs@)),
            decreases self.outputs.len() - outs.len(),
        {
            let i: usize = outs.len();
            assert(self@.outputs[i as int].fits());
            if self.outputs[i].fetched() {
                return self.at(RunStage::LockOutput { outs });
            }
            let t = self.outputs[i].blank();
            let ghost before = tensors_of(outs@);
            outs.push(t);
            assert(tensors_of(outs@) =~= before.push(self@.outputs[i as int].blank()));
        }
        Running::Ran { method: self.method, outputs: outs }
    }
}

impl Running {
    /// The call that comes next; none when the run has ended.
    pub fn call(&self) -> (r: Option<Call>)
        requires
            self@.well_formed(),
        ensures
            r == self@.call(),
    {
        match self {
            Running::Working { run } => {
                let p = &run.plan;
                Some(
                    match &run.stage {
                        RunStage::Lock { next } => Call::Lock {
                            buffer: p.writes[*next].buffer,
                            mode: kLiteRtTensorBufferLockModeWrite,
                        },
                        RunStage::Write { next, address } => Call::Write { address: *address },
                        RunStage::Unlock { next } => Call::Unlock {
                            buffer: p.writes[*next].buffer,
                        },
                        RunStage::Invoke => Call::Invoke { compiled: p.compiled, sig: p.sig },
                        RunStage::LockOutput { outs } => Call::Lock {
                            buffer: p.outputs[outs.len()].slot.buffer,
                            mode: kLiteRtTensorBufferLockModeRead,
                        },
                        RunStage::Read { outs, address } => {
                            assert(run@.outputs[outs@.len() as int].fits());
                            Call::Read {
                                address: *address,
                                len: p.outputs[outs.len()].slot.byte_count(),
                            }
                        },
                        RunStage::UnlockOutput { outs } => Call::Unlock {
                            buffer: p.outputs[outs.len() - 1].slot.buffer,
                        },
                    },
                )
            },
            _ => None,
        }
    }

    /// The bytes to write, where a write comes next.
    pub fn pending_bytes(&self) -> (r: Option<&[u8]>)
        requires
            self@.well_formed(),
        ensures
            match self@ {
                RunningSpec::Working { run } => match run.stage {
                    RunStageSpec::Write { next, address } => r matches Some(b) && b@
                        == run.writes[next as int].bytes,
                    _ => r is None,
                },
                _ => r is None,
            },
    {
        match self {
            Running::Working { run } => match &run.stage {
                RunStage::Write { next, address } => Some(
                    run.plan.writes[*next].bytes.as_slice(),
                ),
                _ => None,
            },
            _ => None,
        }
    }

    /// The buffers of the inputs and of the outputs, where the signature is run
    /// next.
    pub fn io_buffers(&self) -> (r: Option<(Vec<Handle>, Vec<Handle>)>)
        ensures
            match self@ {
                RunningSpec::Working { run } if run.stage is Invoke => r matches Some(b) && b.0@
                    == run.inputs && b.1@ == run.output_buffers(),
                _ => r is None,
            },
    {
        match self {
            Running::Working { run } => match &run.stage {
                RunStage::Invoke => {
                    let p = &run.plan;
                    let mut outs: Vec<Handle> = Vec::new();
                    let mut i: usize = 0;
                    while i < p.outputs.len()
                        invariant
                            i <= p.outputs.len(),
                            outs@ == p@.output_buffers().take(i as int),
                        decreases p.outputs.len() - i,
                    {
                        outs.push(p.outputs[i].slot.buffer);
                        assert(outs@ =~= p@.output_buffers().take(i + 1));
                        i = i + 1;
                    }
                    assert(outs@ =~= run@.output_buffers());
                    Some((p.inputs.clone(), outs))
                },
                _ => None,
            },
            _ => None,
        }
    }

    /// Whether the sizes of the outputs can be computed, as they have to be once
    /// the signature has run.
    pub fn outputs_fit(&self) -> (r: bool)
        ensures
            r == (self@ matches RunningSpec::Working { run } ==> run.outputs_fit()),
    {
        match self {
            Running::Working { run } => {
                let p = &run.plan;
                let mut i: usize = 0;
                while i < p.outputs.len()
                    invariant
                        i <= p.outputs.len(),
                        p == run.plan,
                        self@ == (RunningSpec::Working { run: run@ }),
                        forall|k: int|
                            0 <= k < i ==> (#[trigger] run@.outputs[k]).fits(),
                    decreases p.outputs.len() - i,
                {
                    if !p.outputs[i].fits() {
                        assert(!run@.outputs[i as int].fits());
                        return false;
                    }
                    i = i + 1;
                }
                true
            },
            _ => true,
        }
    }

    /// Where the run stands after a reply.
    pub fn advance(self, reply: Reply) -> (r: Running)
        requires
            self@.well_formed(),
            self@.takes(reply@),
        ensures
            r@ == self@.step(reply@),
            r@.well_formed(),
    {
        proof {
            running_stays_well_formed(self@, reply@);
        }
        match self {
            Running::Working { run } => {
                let ghost at_stage = run@;
                proof {
                    assert forall|outs: Seq<TensorSpec>| #[trigger]
                        run.plan@.collect(outs) == at_stage.collect(outs) by {
                        lemma_collect_at_any_stage(at_stage, RunStageSpec::Invoke, outs);
                    }
                }
                let plan = run.plan;
                match run.stage {
                    RunStage::Lock { next } => {
                        assert(next < plan.writes.len());
                        if reply.has_handle() {
                            plan.at(RunStage::Write { next, address: reply.handle })
                        } else {
                            plan.write_from(next + 1)
                        }
                    },
                    RunStage::Write { next, address } => plan.at(RunStage::Unlock { next }),
                    RunStage::Unlock { next } => {
                        assert(next < plan.writes.len());
                        plan.write_from(next + 1)
                    },
                    RunStage::Invoke => if reply.is_ok() {
                        let outs: Vec<Tensor> = Vec::new();
                        assert(tensors_of(outs@) =~= seq![]);
                        plan.collect(outs)
                    } else {
                        let mut msg = String::from_str("LiteRtRunCompiledModel status=");
                        push_i32(&mut msg, reply.status);
                        Running::Failed {
                            error: EngineError::Execute {
                                method: plan.method,
                                code: reply.status,
                                msg,
                            },
                        }
                    },
                    RunStage::LockOutput { outs } => if reply.has_handle() {
                        plan.at(RunStage::Read { outs, address: reply.handle })
                    } else {
                        let mut outs = outs;
                        let i: usize = outs.len();
                        assert(plan@.outputs[i as int].fits());
                        let t = plan.outputs[i].blank();
                        let ghost before = tensors_of(outs@);
                        outs.push(t);
                        assert(tensors_of(outs@) =~= before.push(plan@.outputs[i as int].blank()));
                        plan.collect(outs)
                    },
                    RunStage::Read { outs, address } => {
                        let mut outs = outs;
                        let i: usize = outs.len();
                        assert(plan@.outputs[i as int].fits());
                        let mut t = plan.outputs[i].blank();
                        let cap: usize = plan.outputs[i].slot.byte_count();
                        copy_output(&mut t.data, reply.bytes.as_slice(), cap);
                        let ghost before = tensors_of(outs@);
                        outs.push(t);
                        assert(tensors_of(outs@) =~= before.push(
                            plan@.outputs[i as int].filled(reply@.bytes),
                        ));
                        plan.at(RunStage::UnlockOutput { outs })
                    },
                    RunStage::UnlockOutput { outs } => plan.collect(outs),
                }
            },
            other => other,
        }
    }
}

impl EngineSpec {
    /// A method does not take its input `i` from the caller: it comes from the
    /// method's own last call, or a pipe leads to it.
    pub open spec fn skips(self, method: Method, i: int) -> bool {
        ||| self.ran.at(method) && exists|k: int|
            0 <= k < self.feedback.at(method).len() && (#[trigger] self.feedback.at(method)[k]).1
                == i
        ||| exists|k: int|
            0 <= k < self.pipes.len() && (#[trigger] self.pipes[k]).2 == method && self.pipes[k].3
                == i
    }

    /// A method leaves its output `i` in the buffer, for its own next call or for
    /// another method.
    pub open spec fn holds(self, method: Method, i: int) -> bool {
        ||| exists|k: int|
            0 <= k < self.pipes.len() && (#[trigger] self.pipes[k]).0 == method && self.pipes[k].1
                == i
        ||| exists|k: int|
            0 <= k < self.feedback.at(method).len() && (#[trigger] self.feedback.at(method)[k]).0
                == i
    }

    /// The model and the signature that a method runs.
    pub open spec fn model_of(self, method: Method) -> ModelSpec {
        self.models[self.routes.at(method).unwrap().0 as int]
    }

    /// What to write for the first inputs of a method, each cut or filled up to
    /// the size of its buffer.
    pub open spec fn pending(self, method: Method, inputs: Seq<Seq<u8>>) -> Seq<WriteSpec>
        decreases inputs.len(),
    {
        if inputs.len() == 0 {
            seq![]
        } else {
            let before = self.pending(method, inputs.drop_last());
            let i = inputs.len() - 1;
            match self.model_of(method).input(self.routes.at(method).unwrap().1 as int, i) {
                Some(s) if !self.skips(method, i) && s.byte_len() > 0 => before.push(
                    WriteSpec { buffer: s.buffer, bytes: fitted(inputs.last(), s.byte_len()) },
                ),
                _ => before,
            }
        }
    }

    /// The inputs that are written have sizes that can be computed.
    pub open spec fn inputs_fit(self, method: Method, count: nat) -> bool {
        self.routes.at(method) matches Some(route) ==> forall|i: int|
            0 <= i < count && !self.skips(method, i) ==> ((
            #[trigger] self.models[route.0 as int].input(route.1 as int, i)) matches Some(s)
                ==> s.size_fits())
    }

    /// A run of a method that has written nothing yet.
    pub open spec fn planned(self, method: Method, inputs: Seq<Seq<u8>>) -> RunSpec {
        let route = self.routes.at(method).unwrap();
        let s = self.model_of(method).signatures[route.1 as int];
        RunSpec {
            method,
            compiled: self.model_of(method).compiled,
            sig: route.1,
            inputs: slot_buffers(s.inputs),
            outputs: Seq::new(
                s.outputs.len(),
                |i: int| OutputSpec { slot: s.outputs[i], held: self.holds(method, i) },
            ),
            writes: self.pending(method, inputs),
            stage: RunStageSpec::Invoke,
        }
    }

    /// Where a run of a method starts.
    pub open spec fn running(self, method: Method, inputs: Seq<Seq<u8>>) -> RunningSpec {
        match self.routes.at(method) {
            None => RunningSpec::Failed { error: ErrorSpec::MethodNotFound(method) },
            Some(route) => if route.1 >= self.model_of(method).signatures.len() {
                RunningSpec::Failed {
                    error: ErrorSpec::Execute {
                        method,
                        code: -1i32,
                        msg: "签名下标越界: "@ + integer(route.1 as int),
                    },
                }
            } else {
                self.planned(method, inputs).write_from(0)
            },
        }
    }

    /// The engine once a run of a method has started.
    pub open spec fn started(self, method: Method) -> EngineSpec {
        if self.routes.at(method) is Some {
            EngineSpec { ran: self.ran.with(method, true), ..self }
        } else {
            self
        }
    }
}

/// The bytes of a list of inputs.
pub open spec fn input_bytes_of(inputs: Seq<TensorView<'_>>) -> Seq<Seq<u8>> {
    Seq::new(inputs.len(), |i: int| inputs[i].data@)
}

impl LiteRtCompiledEngine {
    fn skips(&self, method: Method, i: usize) -> (r: bool)
        ensures
            r == self@.skips(method, i as int),
    {
        if *self.ran.get(method) {
            let pairs = self.feedback.get(method);
            let mut k: usize = 0;
            while k < pairs.len()
                invariant
                    k <= pairs.len(),
                    self@.ran.at(method),
                    pairs@ == self@.feedback.at(method),
                    forall|j: int| 0 <= j < k ==> (#[trigger] pairs@[j]).1 != i,
                decreases pairs.len() - k,
            {
                if pairs[k].1 == i {
                    assert(self@.feedback.at(method)[k as int].1 == i);
                    return true;
                }
                k = k + 1;
            }
        }
        let mut k: usize = 0;
        while k < self.pipes.len()
            invariant
                k <= self.pipes.len(),
                self@.ran.at(method) ==> forall|j: int|
                    0 <= j < self@.feedback.at(method).len() ==> (
                    #[trigger] self@.feedback.at(method)[j]).1 != i,
                forall|j: int|
                    0 <= j < k ==> !((#[trigger] self@.pipes[j]).2 == method && self@.pipes[j].3
                        == i),
            decreases self.pipes.len() - k,
        {
            let p = self.pipes[k];
            if p.2 == method && p.3 == i {
                assert(self@.pipes[k as int] == p);
                return true;
            }
            k = k + 1;
        }
        false
    }

    fn holds(&self, method: Method, i: usize) -> (r: bool)
        ensures
            r == self@.holds(method, i as int),
    {
        let mut k: usize = 0;
        while k < self.pipes.len()
            invariant
                k <= self.pipes.len(),
                forall|j: int|
                    0 <= j < k ==> !((#[trigger] self@.pipes[j]).0 == method && self@.pipes[j].1
                        == i),
            decreases self.pipes.len() - k,
        {
            let p = self.pipes[k];
            if p.0 == method && p.1 == i {
                assert(self@.pipes[k as int] == p);
                return true;
            }
            k = k + 1;
        }
        let pairs = self.feedback.get(method);
        let mut k: usize = 0;
        while k < pairs.len()
            invariant
                k <= pairs.len(),
                pairs@ == self@.feedback.at(method),
                forall|j: int|
                    0 <= j < self@.pipes.len() ==> !((#[trigger] self@.pipes[j]).0 == method
                        && self@.pipes[j].1 == i),
                forall|j: int| 0 <= j < k ==> (#[trigger] pairs@[j]).0 != i,
            decreases pairs.len() - k,
        {
            if pairs[k].0 == i {
                assert(self@.feedback.at(method)[k as int].0 == i);
                return true;
            }
            k = k + 1;
        }
        false
    }

    fn pending(&self, method: Method, route: (usize, usize), inputs: &[TensorView<'_>]) -> (r: Vec<
        BufferWrite,
    >)
        requires
            self@.well_formed(),
            self@.routes.at(method) == Some(route),
            self@.inputs_fit(method, inputs@.len()),
        ensures
            writes_of(r@) == self@.pending(method, input_bytes_of(inputs@)),
    {
        let (mi, sig) = route;
        let ghost all = input_bytes_of(inputs@);
        let mut out: Vec<BufferWrite> = Vec::new();
        let mut i: usize = 0;
        assert(writes_of(out@) =~= self@.pending(method, all.take(0)));
        while i < inputs.len()
            invariant
                i <= inputs.len(),
                (mi, sig) == route,
                mi < self.models.len(),
                self@.routes.at(method) == Some(route),
                self@.inputs_fit(method, inputs@.len()),
                all == input_bytes_of(inputs@),
                writes_of(out@) == self@.pending(method, all.take(i as int)),
            decreases inputs.len() - i,
        {
            proof {
                assert(all.take(i + 1).drop_last() =~= all.take(i as int));
                assert(all.take(i + 1).last() == inputs@[i as int].data@);
                assert(self@.model_of(method) == self.models@[mi as int]@);
            }
            let ghost slot = self@.models[mi as int].input(sig as int, i as int);
            if !self.skips(method, i) {
                let bytes = inputs[i].data.to_bytes();
                assert(slot matches Some(s) ==> s.size_fits());
                match self.models[mi].set_input_bytes(sig, i, bytes.as_slice()) {
                    Some(w) => {
                        let ghost before = writes_of(out@);
                        out.push(w);
                        assert(writes_of(out@) =~= before.push(w@));
                    },
                    None => {},
                }
            }
            i = i + 1;
        }
        assert(all.take(inputs@.len() as int) =~= all);
        out
    }

    /// Whether the inputs that are to be written have sizes that can be computed.
    pub fn inputs_fit(&self, method: Method, count: usize) -> (r: bool)
        requires
            self@.well_formed(),
        ensures
            r == self@.inputs_fit(method, count as nat),
    {
        let (mi, sig) = match *self.routes.get(method) {
            Some(route) => route,
            None => {
                return true;
            },
        };
        assert(self@.routes.at(method) == Some((mi, sig)));
        if sig >= self.models[mi].signatures.len() {
            return true;
        }
        let slots = &self.models[mi].signatures[sig].inputs;
        let ghost model = self@.models[mi as int];
        let mut i: usize = 0;
        while i < count && i < slots.len()
            invariant
                i <= count,
                i <= slots.len(),
                model == self@.models[mi as int],
                model.signatures.len() > sig,
                model.signatures[sig as int].inputs.len() == slots@.len(),
                forall|j: int|
                    0 <= j < slots@.len() ==> #[trigger] model.input(sig as int, j) == Some(
                        slots@[j]@,
                    ),
                self@.routes.at(method) == Some((mi, sig)),
                forall|j: int|
                    0 <= j < i && !self@.skips(method, j) ==> ((#[trigger] model.input(
                        sig as int,
                        j,
                    )) matches Some(s) ==> s.size_fits()),
            decreases slots.len() - i,
        {
            if !self.skips(method, i) && !slots[i].size_fits() {
                assert(model.input(sig as int, i as int) == Some(slots@[i as int]@));
                return false;
            }
            i = i + 1;
        }
        true
    }

    fn planned_outputs(&self, method: Method, route: (usize, usize)) -> (r: Vec<Output>)
        requires
            self@.well_formed(),
            self@.routes.at(method) == Some(route),
            route.1 < self@.model_of(method).signatures.len(),
        ensures
            outputs_of(r@) == self@.planned(method, seq![]).outputs,
    {
        let (mi, sig) = route;
        let ghost want = self@.planned(method, seq![]).outputs;
        assert(self@.model_of(method) == self.models@[mi as int]@);
        let slots = &self.models[mi].signatures[sig].outputs;
        let mut out: Vec<Output> = Vec::new();
        let mut i: usize = 0;
        while i < slots.len()
            invariant
                i <= slots.len(),
                want.len() == slots.len(),
                forall|k: int|
                    0 <= k < want.len() ==> #[trigger] want[k] == (OutputSpec {
                        slot: slots@[k]@,
                        held: self@.holds(method, k),
                    }),
                outputs_of(out@) == want.take(i as int),
            decreases slots.len() - i,
        {
            let s = &slots[i];
            let o = Output {
                slot: Slot {
                    buffer: s.buffer,
                    shape: s.shape.clone(),
                    element_type: s.element_type,
                },
                held: self.holds(method, i),
            };
            let ghost before = outputs_of(out@);
            out.push(o);
            assert(outputs_of(out@) =~= before.push(o@));
            assert(outputs_of(out@) =~= want.take(i + 1));
            i = i + 1;
        }
        assert(outputs_of(out@) =~= want);
        out
    }

    /// Starts a run of a method. From here on it counts as having run.
    pub fn run(&mut self, method: Method, inputs: &[TensorView<'_>]) -> (r: Running)
        requires
            old(self)@.well_formed(),
            old(self)@.inputs_fit(method, inputs@.len()),
        ensures
            r@ == old(self)@.running(method, input_bytes_of(inputs@)),
            r@.well_formed(),
            final(self)@ == old(self)@.started(method),
            final(self)@.well_formed(),
    {
        let ghost before = self@;
        match *self.routes.get(method) {
            None => Running::Failed { error: EngineError::MethodNotFound(method) },
            Some(route) => {
                assert(self@.routes.at(method) == Some(route));
                let (mi, sig) = route;
                assert(self@.model_of(method) == self.models@[mi as int]@);
                match self.models[mi].invoke(sig) {
                    Err(msg) => {
                        self.ran.set(method, true);
                        Running::Failed { error: EngineError::Execute { method, code: -1, msg } }
                    },
                    Ok(_) => {
                        let writes = self.pending(method, route, inputs);
                        let outputs = self.planned_outputs(method, route);
                        let buffers = self.models[mi].input_buffers(sig);
                        let plan = RunPlan {
                            method,
                            compiled: self.models[mi].compiled,
                            sig,
                            inputs: buffers,
                            outputs,
                            writes,
                        };
                        assert(plan@ == before.planned(method, input_bytes_of(inputs@)));
                        self.ran.set(method, true);
                        plan.write_from(0)
                    },
                }
            },
        }
    }

    fn make_move(
        &mut self,
        from: (usize, usize),
        out_idx: usize,
        to: (usize, usize),
        in_idx: usize,
    )
        requires
            from.0 < old(self)@.models.len(),
            to.0 < old(self)@.models.len(),
        ensures
            final(self)@ == (EngineSpec {
                models: moved(
                    old(self)@.models,
                    Move {
                        from_model: from.0 as int,
                        from_sig: from.1 as int,
                        out_idx: out_idx as int,
                        to_model: to.0 as int,
                        to_sig: to.1 as int,
                        in_idx: in_idx as int,
                    },
                ),
                ..old(self)@
            }),
    {
        let ghost before = self@.models;
        let ghost m = Move {
            from_model: from.0 as int,
            from_sig: from.1 as int,
            out_idx: out_idx as int,
            to_model: to.0 as int,
            to_sig: to.1 as int,
            in_idx: in_idx as int,
        };
        if from.0 == to.0 {
            let _ = self.models[from.0].swap_across(from.1, out_idx, to.1, in_idx);
        } else {
            match (
                self.models[from.0].output_buffer(from.1, out_idx),
                self.models[to.0].input_buffer(to.1, in_idx),
            ) {
                (Some(o), Some(i)) => {
                    // What the first model has just written becomes the second's
                    // input; the second's old input is where the first writes
                    // next. Nothing is allocated.
                    let _ = self.models[from.0].take_output_buffer(from.1, out_idx, i);
                    let _ = self.models[to.0].take_input_buffer(to.1, in_idx, o);
                },
                _ => {},
            }
        }
        assert(self@.models =~= moved(before, m));
    }

    /// Ends a run: every output that is to be an input changes places with that
    /// input's buffer, and the outputs go to the caller.
    pub fn finish_run(&mut self, running: Running) -> (r: crate::Result<Vec<Tensor>>)
        requires
            old(self)@.well_formed(),
            running@ !is Working,
            running@ matches RunningSpec::Ran { method, outputs } ==> old(self)@.routes.at(
                method,
            ) is Some,
        ensures
            match running@ {
                RunningSpec::Ran { method, outputs } => {
                    &&& r matches Ok(v) && tensors_of(v@) == outputs
                    &&& final(self)@ == old(self)@.finished(method)
                },
                RunningSpec::Failed { error } => {
                    &&& r matches Err(e) && e@ == error
                    &&& final(self)@ == old(self)@
                },
                RunningSpec::Working { run } => false,
            },
            final(self)@.well_formed(),
    {
        match running {
            Running::Ran { method, outputs } => {
                self.settle(method);
                Ok(outputs)
            },
            Running::Failed { error } => Err(error),
            Running::Working { run } => vstd::pervasive::unreached(),
        }
    }

    fn settle(&mut self, method: Method)
        requires
            old(self)@.well_formed(),
            old(self)@.routes.at(method) is Some,
        ensures
            final(self)@ == old(self)@.finished(method),
            final(self)@.well_formed(),
    {
        let ghost before = self@;
        let ghost feeds = before.feedback_moves(method, before.feedback.at(method).len() as int);
        let route = match *self.routes.get(method) {
            Some(route) => route,
            None => {
                return;
            },
        };
        let n: usize = self.feedback.get(method).len();
        let mut k: usize = 0;
        while k < n
            invariant
                k <= n,
                before.well_formed(),
                before.routes.at(method) == Some(route),
                n == before.feedback.at(method).len(),
                feeds == before.feedback_moves(method, n as int),
                self@ == (EngineSpec {
                    models: moved_all(before.models, feeds.take(k as int)),
                    ..before
                }),
                self@.models.len() == before.models.len(),
            decreases n - k,
        {
            let pair = self.feedback.get(method)[k];
            proof {
                assert(pair == before.feedback.at(method)[k as int]);
                assert(feeds.take(k + 1).drop_last() =~= feeds.take(k as int));
                assert(feeds.take(k + 1).last() == before.feedback_move(method, pair));
            }
            self.make_move(route, pair.0, route, pair.1);
            k = k + 1;
        }
        assert(feeds.take(n as int) =~= feeds);
        let mut k: usize = 0;
        assert(feeds + before.pipe_moves(method, 0) =~= feeds);
        while k < self.pipes.len()
            invariant
                k <= self.pipes.len(),
                before.well_formed(),
                self@ == (EngineSpec {
                    models: moved_all(
                        before.models,
                        feeds + before.pipe_moves(method, k as int),
                    ),
                    ..before
                }),
                self@.models.len() == before.models.len(),
            decreases self.pipes.len() - k,
        {
            let pipe = self.pipes[k];
            let (from, out_idx, to, in_idx) = pipe;
            assert(pipe == before.pipes[k as int]);
            if from == method {
                match (*self.routes.get(from), *self.routes.get(to)) {
                    (Some(f), Some(t)) => {
                        proof {
                            let done = feeds + before.pipe_moves(method, k as int);
                            let next = feeds + before.pipe_moves(method, k + 1);
                            assert(before.routes.at(from) == Some(f));
                            assert(before.routes.at(to) == Some(t));
                            assert(next.drop_last() =~= done);
                            assert(next.last() == before.pipe_move(pipe));
                        }
                        self.make_move(f, out_idx, t, in_idx);
                    },
                    _ => {},
                }
            }
            k = k + 1;
        }
    }
}

/// What is collected does not depend on the stage that a run is at.
pub proof fn lemma_collect_at_any_stage(run: RunSpec, stage: RunStageSpec, outs: Seq<TensorSpec>)
    ensures
        (RunSpec { stage, ..run }).collect(outs) == run.collect(outs),
    decreases run.outputs.len() - outs.len(),
{
    if outs.len() < run.outputs.len() && !run.outputs[outs.len() as int].fetched() {
        lemma_collect_at_any_stage(
            run,
            stage,
            outs.push(run.outputs[outs.len() as int].blank()),
        );
    }
}

/// A run that has reached an output stays well-formed.
proof fn lemma_collect_well_formed(run: RunSpec, outs: Seq<TensorSpec>)
    requires
        run.outputs_fit(),
    ensures
        run.collect(outs).well_formed(),
    decreases run.outputs.len() - outs.len(),
{
    if outs.len() < run.outputs.len() && !run.outputs[outs.len() as int].fetched() {
        lemma_collect_well_formed(run, outs.push(run.outputs[outs.len() as int].blank()));
    }
    assert forall|s: RunStageSpec| #[trigger]
        (RunSpec { stage: s, ..run }).outputs_fit() by {
        let other = RunSpec { stage: s, ..run };
        assert forall|i: int| 0 <= i < other.outputs.len() implies (
        #[trigger] other.outputs[i]).fits() by {
            assert(run.outputs[i].fits());
        }
    }
}

/// Whatever the runtime replies, a run goes from one well-formed stage to the
/// next.
pub proof fn running_stays_well_formed(s: RunningSpec, r: ReplySpec)
    requires
        s.well_formed(),
        s.takes(r),
    ensures
        s.step(r).well_formed(),
{
    match s {
        RunningSpec::Working { run } => match run.stage {
            RunStageSpec::Invoke => {
                if r.ok() {
                    lemma_collect_well_formed(run, seq![]);
                }
            },
            RunStageSpec::LockOutput { outs } => {
                if !r.gave_handle() {
                    lemma_collect_well_formed(
                        run,
                        outs.push(run.outputs[outs.len() as int].blank()),
                    );
                } else {
                    let next = RunSpec {
                        stage: RunStageSpec::Read { outs, address: r.handle },
                        ..run
                    };
                    assert(next.outputs == run.outputs);
                    assert(next.outputs_fit());
                }
            },
            RunStageSpec::Read { outs, address } => {
                let more = outs.push(run.outputs[outs.len() as int].filled(r.bytes));
                let next = RunSpec { stage: RunStageSpec::UnlockOutput { outs: more }, ..run };
                assert(next.outputs == run.outputs);
                assert(next.outputs_fit());
            },
            RunStageSpec::UnlockOutput { outs } => {
                lemma_collect_well_formed(run, outs);
            },
            _ => {},
        },
        _ => {},
    }
}

/// A method does not take its input from the caller in two cases: where a pipe
/// leads to that input, and where one of the method's feedbacks does and the
/// method has run. A method leaves an output in its buffer where a pipe or one of
/// its feedbacks starts at that output. So it is for every input and output.
pub proof fn linked_slots_are_passed_over(e: EngineSpec, method: Method, i: int)
    ensures
        e.skips(method, i) <==> {
            ||| e.ran.at(method) && exists|k: int|
                0 <= k < e.feedback.at(method).len() && #[trigger] e.feedback.at(method)[k].1 == i
            ||| exists|k: int|
                0 <= k < e.pipes.len() && #[trigger] e.pipes[k].2 == method && e.pipes[k].3 == i
        },
        e.holds(method, i) <==> {
            ||| exists|k: int|
                0 <= k < e.feedback.at(method).len() && #[trigger] e.feedback.at(method)[k].0 == i
            ||| exists|k: int|
                0 <= k < e.pipes.len() && #[trigger] e.pipes[k].0 == method && e.pipes[k].1 == i
        },
{
}

/// An input more means a write more, at the end, unless the method passes it
/// over, has no such input or the input has no bytes. What is written goes to the
/// input's buffer: as many bytes as the input has, the caller's as far as they
/// reach and 0 from there on. Without inputs nothing is written.
pub proof fn inputs_are_written_in_order(
    e: EngineSpec,
    method: Method,
    inputs: Seq<Seq<u8>>,
    data: Seq<u8>,
    b: int,
)
    requires
        e.routes.at(method) is Some,
    ensures
        e.pending(method, Seq::empty()) == Seq::<WriteSpec>::empty(),
        ({
            let (k, s) = e.routes.at(method).unwrap();
            let i = inputs.len() as int;
            let sigs = e.models[k as int].signatures;
            let there = s < sigs.len() && i < sigs[s as int].inputs.len();
            let slot = sigs[s as int].inputs[i];
            let old_writes = e.pending(method, inputs);
            let writes = e.pending(method, inputs.push(data));
            if there && !e.skips(method, i) && dims_product(slot.shape) > 0 {
                &&& writes.len() == old_writes.len() + 1
                &&& writes.drop_last() == old_writes
                &&& writes.last().buffer == slot.buffer
                &&& writes.last().bytes.len() == 4 * dims_product(slot.shape)
                &&& 0 <= b < writes.last().bytes.len() ==> writes.last().bytes[b] == (if b
                    < data.len() {
                    data[b]
                } else {
                    0
                })
            } else {
                writes == old_writes
            }
        }),
{
    let more = inputs.push(data);
    assert(more.drop_last() =~= inputs);
    assert(e.pending(method, more).drop_last() =~= e.pending(method, inputs) || e.pending(
        method,
        more,
    ) == e.pending(method, inputs));
}

/// A run is of the method's signature in its compiled model, with the buffers of
/// all its inputs and outputs, each in its place.
pub proof fn runs_are_of_the_methods_signature(
    e: EngineSpec,
    method: Method,
    inputs: Seq<Seq<u8>>,
    k: usize,
    s: usize,
    i: int,
)
    requires
        e.routes.at(method) == Some((k, s)),
        s < e.models[k as int].signatures.len(),
    ensures
        ({
            let sig = e.models[k as int].signatures[s as int];
            let run = e.planned(method, inputs);
            &&& run.method == method && run.compiled == e.models[k as int].compiled && run.sig == s
            &&& run.inputs.len() == sig.inputs.len()
            &&& 0 <= i < sig.inputs.len() ==> run.inputs[i] == sig.inputs[i].buffer
            &&& run.outputs.len() == sig.outputs.len() && run.output_buffers().len()
                == sig.outputs.len()
            &&& 0 <= i < sig.outputs.len() ==> run.outputs[i].slot == sig.outputs[i]
                && run.output_buffers()[i] == sig.outputs[i].buffer && run.outputs[i].held
                == e.holds(method, i)
            &&& run.writes == e.pending(method, inputs)
            &&& e.running(method, inputs) == (RunningSpec::Working {
                run: RunSpec {
                    stage: if run.writes.len() > 0 {
                        RunStageSpec::Lock { next: 0 }
                    } else {
                        RunStageSpec::Invoke
                    },
                    ..run
                },
            })
        }),
{
}

/// A run of a method that the engine does not have fails at once and says so; so
/// does one of a signature that the model does not have. From then on a method
/// that the engine has counts as having run, and nothing else changes.
pub proof fn runs_that_cannot_start(
    e: EngineSpec,
    method: Method,
    inputs: Seq<Seq<u8>>,
    other: Method,
)
    ensures
        e.routes.at(method) is None ==> e.running(method, inputs) == (RunningSpec::Failed {
            error: ErrorSpec::MethodNotFound(method),
        }) && e.started(method) == e,
        e.routes.at(method) matches Some((k, s)) ==> {
            &&& s >= e.models[k as int].signatures.len() ==> e.running(method, inputs) == (
            RunningSpec::Failed {
                error: ErrorSpec::Execute {
                    method,
                    code: -1i32,
                    msg: "签名下标越界: "@ + integer(s as int),
                },
            })
            &&& e.started(method).ran.at(method)
            &&& other != method ==> e.started(method).ran.at(other) == e.ran.at(other)
            &&& e.started(method) == (EngineSpec {
                models: e.models,
                routes: e.routes,
                feedback: e.feedback,
                pipes: e.pipes,
                ran: e.started(method).ran,
                on_gpu: e.on_gpu,
            })
        },
{
}

/// An output is read unless it is held or has no elements. It comes back in its
/// own shape, as integers where the runtime says so and as floats otherwise: its
/// bytes are those of the buffer, as many as the output has, over zeros. One that
/// is held comes back as an empty list of floats.
pub proof fn outputs_are_read_over_zeros(o: OutputSpec, bytes: Seq<u8>, b: int)
    ensures
        o.fetched() <==> !o.held && dims_product(o.slot.shape) > 0,
        o.held ==> o.blank().shape == seq![0i64] && o.blank().dtype == DType::F32
            && o.blank().data.len() == 0,
        !o.held ==> {
            &&& o.blank().shape == wide(o.slot.shape)
            &&& o.slot.element_type == 2 ==> o.blank().dtype == DType::I32
            &&& o.slot.element_type != 2 ==> o.blank().dtype == DType::F32
            &&& o.blank().data.len() == 4 * element_count(wide(o.slot.shape))
        },
        0 <= b < o.blank().data.len() ==> o.blank().data[b] == 0,
        o.filled(bytes).shape == o.blank().shape,
        o.filled(bytes).dtype == o.blank().dtype,
        o.filled(bytes).data.len() == o.blank().data.len(),
        0 <= b < o.blank().data.len() ==> o.filled(bytes).data[b] == (if b < bytes.len() && b < 4
            * dims_product(o.slot.shape) {
            bytes[b]
        } else {
            0
        }),
{
    assert(seq![0i64].drop_last() =~= Seq::<i64>::empty());
    assert(product(seq![0i64]) == product(seq![0i64].drop_last()) * 0);
    assert(element_count(seq![0i64]) == 0);
    assert(0 * DType::F32.width() == 0);
    let n = element_count(wide(o.slot.shape));
    assert(n * dtype_of(o.slot.element_type).width() == n * 4);
}

/// What goes along with a run's calls: where a write comes next, the bytes of that
/// write; where the signature is run next, the buffers of its inputs and of its
/// outputs, all of them and in order; with any other call, nothing.
pub proof fn bytes_and_buffers_go_along(
    plan: RunPlan,
    stage: RunStage,
    bytes: Option<&[u8]>,
    buffers: Option<(Vec<Handle>, Vec<Handle>)>,
    i: int,
)
    requires
        call_ensures(
            Running::pending_bytes,
            (&(Running::Working { run: Run { plan, stage } }),),
            bytes,
        ),
        call_ensures(
            Running::io_buffers,
            (&(Running::Working { run: Run { plan, stage } }),),
            buffers,
        ),
    ensures
        match stage {
            RunStage::Write { next, address } => bytes matches Some(b) && (next
                < plan.writes@.len() ==> b@ == plan.writes@[next as int].bytes@),
            _ => bytes is None,
        },
        stage is Invoke <==> buffers is Some,
        buffers matches Some(b) ==> {
            &&& b.0@ == plan.inputs@
            &&& b.1@.len() == plan.outputs@.len()
            &&& 0 <= i < plan.outputs@.len() ==> b.1@[i] == plan.outputs@[i].slot.buffer
        },
{
    match stage {
        RunStage::Write { next, address } => {
            if next < plan.writes@.len() {
                assert(plan@.writes[next as int] == plan.writes@[next as int]@);
            }
        },
        _ => {},
    }
    if 0 <= i < plan.outputs@.len() {
        assert(plan@.outputs[i] == plan.outputs@[i]@);
    }
}

/// The bytes that a run takes are those of the caller's tensors, in order.
pub proof fn inputs_are_taken_in_order(inputs: Seq<TensorView<'_>>, i: int)
    ensures
        input_bytes_of(inputs).len() == inputs.len(),
        0 <= i < inputs.len() ==> input_bytes_of(inputs)[i] == inputs[i].data@,
{
}

/// A run that fails in the runtime says which method it was of and carries the
/// runtime's own status; one that succeeds does not fail any more.
pub proof fn runs_fail_with_the_runtimes_status(run: RunSpec, r: ReplySpec)
    requires
        run.stage is Invoke,
    ensures
        r.status != 0 ==> run.step(r) == (RunningSpec::Failed {
            error: ErrorSpec::Execute {
                method: run.method,
                code: r.status,
                msg: "LiteRtRunCompiledModel status="@ + integer(r.status as int),
            },
        }),
        r.status == 0 ==> run.step(r) !is Failed,
{
    lemma_collect_goes_well(run, seq![]);
}

proof fn lemma_collect_goes_well(run: RunSpec, outs: Seq<TensorSpec>)
    ensures
        run.collect(outs) !is Failed,
    decreases run.outputs.len() - outs.len(),
{
    if outs.len() < run.outputs.len() && !run.outputs[outs.len() as int].fetched() {
        lemma_collect_goes_well(run, outs.push(run.outputs[outs.len() as int].blank()));
    }
}

/// What a run needs of sizes, and no more. An output that is held needs nothing.
/// Any other needs a size that can be computed and a shape that can be held; an
/// input that is written needs a size that can be computed. Replies are taken as
/// they come, but for the one that says the signature has run: by then the sizes
/// of the outputs have to be known.
pub proof fn runs_need_sizes_alone(
    e: EngineSpec,
    method: Method,
    count: nat,
    o: OutputSpec,
    run: RunSpec,
    r: ReplySpec,
)
    ensures
        o.held ==> o.fits(),
        !o.held ==> (o.fits() <==> o.slot.size_fits() && allocatable(
            wide(o.slot.shape),
            if o.slot.element_type == 2 {
                DType::I32
            } else {
                DType::F32
            },
        )),
        run.outputs_fit() <==> forall|i: int|
            0 <= i < run.outputs.len() ==> (#[trigger] run.outputs[i]).fits(),
        e.routes.at(method) is None ==> e.inputs_fit(method, count),
        e.routes.at(method) matches Some((k, s)) ==> (e.inputs_fit(method, count) <==> forall|
            i: int,
        |
            0 <= i < count && !e.skips(method, i) && 0 <= s < e.models[k as int].signatures.len()
                && i < e.models[k as int].signatures[s as int].inputs.len() ==> (
            #[trigger] e.models[k as int].signatures[s as int].inputs[i]).size_fits()),
        (RunningSpec::Working { run }).takes(r) <==> (run.stage is Invoke && r.status == 0
            ==> run.outputs_fit()),
{
    if let Some((k, s)) = e.routes.at(method) {
        let m = e.models[k as int];
        if e.inputs_fit(method, count) {
            assert forall|i: int|
                0 <= i < count && !e.skips(method, i) && 0 <= s < m.signatures.len() && i
                    < m.signatures[s as int].inputs.len() implies (
            #[trigger] m.signatures[s as int].inputs[i]).size_fits() by {
                assert(m.input(s as int, i) == Some(m.signatures[s as int].inputs[i]));
            }
        }
    }
}

} // verus!
