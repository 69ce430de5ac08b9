//! Compiling a model and making the buffers of its signatures.
//!
//! Both succeed or fail together: a GPU often compiles a model and then cannot
//! make its buffers. Whatever a failed build has made it gives back, so that the
//! build can be tried again for other hardware.

use super::layout::{compact_layout, LiteRtLayout, LiteRtRankedTensorType};
use super::metadata::{all_well_formed, metas, MetaSpec, SignatureMeta};
use super::model::{
    all_buffers, collect_buffers, signatures, slots, Signature, SignatureSpec, Slot, SlotSpec,
};
use super::native::{
    kLiteRtHwAcceleratorCpu, kLiteRtHwAcceleratorGpu, kLiteRtTensorBufferLockModeWrite, Call,
    Handle, LiteRtStatus, Reply, ReplySpec, Side,
};
use crate::text::{integer, push_i32, push_usize};
use vstd::prelude::*;

verus! {

/// The name under which the runtime looks for the CPU options.
pub fn cpu_options_identifier() -> (r: &'static str)
    ensures
        r@ == "xnnpack"@,
{
    "xnnpack"
}

/// The CPU options: how many threads to use.
pub fn cpu_options_toml(num_threads: i32) -> (r: String)
    ensures
        r@ == "num_threads = "@ + integer(num_threads as int) + "\n"@,
{
    let mut r = String::from_str("num_threads = ");
    push_i32(&mut r, num_threads);
    r.append("\n");
    r
}

/// The hardware to compile for. The CPU is always in it: it takes the operators
/// that the GPU does not.
pub open spec fn accelerators_for(gpu: bool) -> i32 {
    if gpu {
        (kLiteRtHwAcceleratorGpu + kLiteRtHwAcceleratorCpu) as i32
    } else {
        kLiteRtHwAcceleratorCpu
    }
}

/// The hardware to compile for.
pub fn accelerator_mask(gpu: bool) -> (r: i32)
    ensures
        r == accelerators_for(gpu),
{
    if gpu {
        assert(2i32 | 1i32 == 3i32) by (bit_vector);
        kLiteRtHwAcceleratorGpu | kLiteRtHwAcceleratorCpu
    } else {
        kLiteRtHwAcceleratorCpu
    }
}

/// What a list of shapes holds.
pub open spec fn shapes(v: Seq<Vec<i32>>) -> Seq<Seq<i32>> {
    Seq::new(v.len(), |i: int| v[i]@)
}

/// Slots in the caller's order, from what the runtime gave in its own.
pub open spec fn arranged(
    order: Seq<usize>,
    buffers: Seq<Handle>,
    shapes: Seq<Seq<i32>>,
    types: Seq<i32>,
) -> Seq<SlotSpec> {
    Seq::new(
        order.len(),
        |j: int|
            SlotSpec {
                buffer: buffers[order[j] as int],
                shape: shapes[order[j] as int],
                element_type: types[order[j] as int],
            },
    )
}

fn arrange(
    order: &Vec<usize>,
    buffers: &Vec<Handle>,
    shape_list: &Vec<Vec<i32>>,
    types: &Vec<i32>,
) -> (r: Vec<Slot>)
    requires
        buffers@.len() == types@.len(),
        shape_list@.len() == types@.len(),
        forall|j: int| 0 <= j < order@.len() ==> #[trigger] order@[j] < types@.len(),
    ensures
        slots(r@) == arranged(order@, buffers@, shapes(shape_list@), types@),
{
    let ghost want = arranged(order@, buffers@, shapes(shape_list@), types@);
    let mut out: Vec<Slot> = Vec::new();
    let mut j: usize = 0;
    while j < order.len()
        invariant
            j <= order.len(),
            want == arranged(order@, buffers@, shapes(shape_list@), types@),
            buffers@.len() == types@.len(),
            shape_list@.len() == types@.len(),
            forall|j: int| 0 <= j < order@.len() ==> #[trigger] order@[j] < types@.len(),
            out@.len() == j,
            forall|k: int| 0 <= k < j ==> (#[trigger] out@[k])@ == want[k],
        decreases order.len() - j,
    {
        let i: usize = order[j];
        let slot = Slot {
            buffer: buffers[i],
            shape: shape_list[i].clone(),
            element_type: types[i],
        };
        assert(slot@ == want[j as int]);
        out.push(slot);
        j = j + 1;
    }
    assert(slots(out@) =~= want);
    out
}

/// What a build has made so far: the compiled model, the finished signatures,
/// and of the next one its shapes and buffers in the runtime's order.
pub struct Work {
    pub compiled: Handle,
    pub done: Vec<Signature>,
    pub input_shapes: Vec<Vec<i32>>,
    pub output_shapes: Option<Vec<Vec<i32>>>,
    pub inputs: Vec<Handle>,
    pub outputs: Vec<Handle>,
}

/// What a [`Work`] holds.
pub struct WorkSpec {
    pub compiled: Handle,
    pub done: Seq<SignatureSpec>,
    pub input_shapes: Seq<Seq<i32>>,
    pub output_shapes: Option<Seq<Seq<i32>>>,
    pub inputs: Seq<Handle>,
    pub outputs: Seq<Handle>,
}

impl View for Work {
    type V = WorkSpec;

    open spec fn view(&self) -> WorkSpec {
        WorkSpec {
            compiled: self.compiled,
            done: signatures(self.done@),
            input_shapes: shapes(self.input_shapes@),
            output_shapes: match self.output_shapes {
                Some(v) => Some(shapes(v@)),
                None => None,
            },
            inputs: self.inputs@,
            outputs: self.outputs@,
        }
    }
}

impl WorkSpec {
    /// Nothing is made yet of the signature after `done`.
    pub open spec fn fresh(compiled: Handle, done: Seq<SignatureSpec>) -> WorkSpec {
        WorkSpec {
            compiled,
            done,
            input_shapes: seq![],
            output_shapes: None,
            inputs: seq![],
            outputs: seq![],
        }
    }

    /// No more is made than the signature calls for.
    pub open spec fn well_formed(self, meta: MetaSpec) -> bool {
        &&& self.input_shapes.len() <= meta.input_types.len()
        &&& self.inputs.len() <= meta.input_types.len()
        &&& self.outputs.len() <= meta.output_types.len()
        &&& match self.output_shapes {
            Some(v) => v.len() == meta.output_types.len() && self.input_shapes.len()
                == meta.input_types.len(),
            None => self.inputs.len() == 0 && self.outputs.len() == 0,
        }
    }

    /// Some buffer is still to be made.
    pub open spec fn lacks_buffer(self, meta: MetaSpec) -> bool {
        self.inputs.len() < meta.input_types.len() || self.outputs.len() < meta.output_types.len()
    }

    /// The argument whose buffer is made next.
    pub open spec fn next_buffer(self, meta: MetaSpec) -> (Side, usize) {
        if self.inputs.len() < meta.input_types.len() {
            (Side::Input, self.inputs.len() as usize)
        } else {
            (Side::Output, self.outputs.len() as usize)
        }
    }

    /// The type of the tensor that the next buffer is for.
    pub open spec fn next_tensor_type(self, meta: MetaSpec) -> LiteRtRankedTensorType {
        let i = self.next_buffer(meta).1 as int;
        if self.next_buffer(meta).0 is Input {
            LiteRtRankedTensorType {
                element_type: meta.input_types[i],
                layout: compact_layout(self.input_shapes[i]),
            }
        } else {
            LiteRtRankedTensorType {
                element_type: meta.output_types[i],
                layout: compact_layout(self.output_shapes.unwrap()[i]),
            }
        }
    }

    /// With the next buffer made.
    pub open spec fn with_buffer(self, meta: MetaSpec, buffer: Handle) -> WorkSpec {
        if self.next_buffer(meta).0 is Input {
            WorkSpec { inputs: self.inputs.push(buffer), ..self }
        } else {
            WorkSpec { outputs: self.outputs.push(buffer), ..self }
        }
    }

    /// The signature, when all of it is made.
    pub open spec fn signature(self, meta: MetaSpec) -> SignatureSpec {
        SignatureSpec {
            key: meta.key,
            inputs: arranged(meta.input_order, self.inputs, self.input_shapes, meta.input_types),
            outputs: arranged(
                meta.output_order,
                self.outputs,
                self.output_shapes.unwrap(),
                meta.output_types,
            ),
        }
    }

    /// All buffers made so far.
    pub open spec fn buffers(self) -> Seq<Handle> {
        all_buffers(self.done) + self.inputs + self.outputs
    }
}

/// The next thing to ask of the runtime.
pub enum BuildStage {
    /// Make options.
    Options,
    /// Set the hardware in them.
    Accelerators { options: Handle },
    /// Make CPU options.
    CpuOptions { options: Handle },
    /// Put them among the options.
    AddCpuOptions { options: Handle, cpu_options: Handle },
    /// Compile.
    Compile { options: Handle },
    /// Give back the options.
    DropOptions { options: Handle, status: LiteRtStatus, compiled: Handle },
    /// Ask for the shape of the next input.
    InputLayout { work: Work },
    /// Ask for the shapes of all outputs.
    OutputLayouts { work: Work },
    /// Ask what the next buffer has to be like.
    Requirements { work: Work },
    /// Make it.
    Create { work: Work, requirements: Handle },
    /// Ask how large it is.
    Size { work: Work, requirements: Handle, buffer: Handle },
    /// Lock it.
    Lock { work: Work, buffer: Handle, size: usize },
    /// Fill it with zeros: what is left in memory may be no number, and a mask
    /// of zeros does not hide that.
    Clear { work: Work, buffer: Handle, address: usize, size: usize },
    /// Unlock it.
    Unlock { work: Work, buffer: Handle },
    /// After a failure, give back the buffers from `next` on, then the compiled
    /// model.
    Release { compiled: Handle, buffers: Vec<Handle>, next: usize, error: String },
}

/// What a [`BuildStage`] holds.
pub enum BuildStageSpec {
    Options,
    Accelerators { options: Handle },
    CpuOptions { options: Handle },
    AddCpuOptions { options: Handle, cpu_options: Handle },
    Compile { options: Handle },
    DropOptions { options: Handle, status: LiteRtStatus, compiled: Handle },
    InputLayout { work: WorkSpec },
    OutputLayouts { work: WorkSpec },
    Requirements { work: WorkSpec },
    Create { work: WorkSpec, requirements: Handle },
    Size { work: WorkSpec, requirements: Handle, buffer: Handle },
    Lock { work: WorkSpec, buffer: Handle, size: usize },
    Clear { work: WorkSpec, buffer: Handle, address: usize, size: usize },
    Unlock { work: WorkSpec, buffer: Handle },
    Release { compiled: Handle, buffers: Seq<Handle>, next: nat, error: Seq<char> },
}

impl View for BuildStage {
    type V = BuildStageSpec;

    open spec fn view(&self) -> BuildStageSpec {
        match *self {
            BuildStage::Options => BuildStageSpec::Options,
            BuildStage::Accelerators { options } => BuildStageSpec::Accelerators { options },
            BuildStage::CpuOptions { options } => BuildStageSpec::CpuOptions { options },
            BuildStage::AddCpuOptions { options, cpu_options } => BuildStageSpec::AddCpuOptions {
                options,
                cpu_options,
            },
            BuildStage::Compile { options } => BuildStageSpec::Compile { options },
            BuildStage::DropOptions { options, status, compiled } => BuildStageSpec::DropOptions {
                options,
                status,
                compiled,
            },
            BuildStage::InputLayout { work } => BuildStageSpec::InputLayout { work: work@ },
            BuildStage::OutputLayouts { work } => BuildStageSpec::OutputLayouts { work: work@ },
            BuildStage::Requirements { work } => BuildStageSpec::Requirements { work: work@ },
            BuildStage::Create { work, requirements } => BuildStageSpec::Create {
                work: work@,
                requirements,
            },
            BuildStage::Size { work, requirements, buffer } => BuildStageSpec::Size {
                work: work@,
                requirements,
                buffer,
            },
            BuildStage::Lock { work, buffer, size } => BuildStageSpec::Lock {
                work: work@,
                buffer,
                size,
            },
            BuildStage::Clear { work, buffer, address, size } => BuildStageSpec::Clear {
                work: work@,
                buffer,
                address,
                size,
            },
            BuildStage::Unlock { work, buffer } => BuildStageSpec::Unlock { work: work@, buffer },
            BuildStage::Release { compiled, buffers, next, error } => BuildStageSpec::Release {
                compiled,
                buffers: buffers@,
                next: next as nat,
                error: error@,
            },
        }
    }
}

/// What is to be built, and for which hardware.
pub struct BuildPlan {
    pub environment: Handle,
    pub model: Handle,
    pub metas: Vec<SignatureMeta>,
    pub gpu: bool,
    pub num_threads: i32,
}

impl View for BuildPlan {
    type V = BuilderSpec;

    /// A build that has not begun.
    open spec fn view(&self) -> BuilderSpec {
        BuilderSpec::start(
            self.environment,
            self.model,
            metas(self.metas@),
            self.gpu,
            self.num_threads,
        )
    }
}

/// Compiles a model and makes its buffers, one call at a time.
pub struct Builder {
    pub plan: BuildPlan,
    pub stage: BuildStage,
}

/// What a [`Builder`] holds.
pub struct BuilderSpec {
    pub environment: Handle,
    pub model: Handle,
    pub metas: Seq<MetaSpec>,
    pub gpu: bool,
    pub num_threads: i32,
    pub stage: BuildStageSpec,
}

impl View for Builder {
    type V = BuilderSpec;

    open spec fn view(&self) -> BuilderSpec {
        BuilderSpec { stage: self.stage@, ..self.plan@ }
    }
}

/// Where a build stands after a reply.
pub enum BuildNext {
    More(Builder),
    Done { compiled: Handle, signatures: Vec<Signature> },
    /// Everything the build had made is given back.
    Failed { error: String, metas: Vec<SignatureMeta> },
}

/// What a [`BuildNext`] holds.
pub enum BuildNextSpec {
    More(BuilderSpec),
    Done { compiled: Handle, signatures: Seq<SignatureSpec> },
    Failed { error: Seq<char>, metas: Seq<MetaSpec> },
}

impl View for BuildNext {
    type V = BuildNextSpec;

    open spec fn view(&self) -> BuildNextSpec {
        match *self {
            BuildNext::More(b) => BuildNextSpec::More(b@),
            BuildNext::Done { compiled, signatures: v } => BuildNextSpec::Done {
                compiled,
                signatures: signatures(v@),
            },
            BuildNext::Failed { error, metas: v } => BuildNextSpec::Failed {
                error: error@,
                metas: metas(v@),
            },
        }
    }
}

impl BuilderSpec {
    /// A build starts with its options.
    pub open spec fn start(
        environment: Handle,
        model: Handle,
        metas: Seq<MetaSpec>,
        gpu: bool,
        num_threads: i32,
    ) -> BuilderSpec {
        BuilderSpec {
            environment,
            model,
            metas,
            gpu,
            num_threads,
            stage: BuildStageSpec::Options,
        }
    }

    /// The signature that is being made.
    pub open spec fn current(self, work: WorkSpec) -> MetaSpec {
        self.metas[work.done.len() as int]
    }

    /// The work is on a signature, and there is no more of it than called for.
    pub open spec fn work_well_formed(self, work: WorkSpec) -> bool {
        work.done.len() < self.metas.len() && work.well_formed(self.current(work))
    }

    /// The stage asks for something that is missing.
    pub open spec fn well_formed(self) -> bool {
        &&& all_well_formed(self.metas)
        &&& match self.stage {
            BuildStageSpec::InputLayout { work } => self.work_well_formed(work)
                && work.input_shapes.len() < self.current(work).input_types.len()
                && work.output_shapes is None,
            BuildStageSpec::OutputLayouts { work } => self.work_well_formed(work)
                && work.input_shapes.len() == self.current(work).input_types.len()
                && work.output_shapes is None,
            BuildStageSpec::Requirements { work } => self.work_well_formed(work)
                && work.output_shapes is Some && work.lacks_buffer(self.current(work)),
            BuildStageSpec::Create { work, requirements } => self.work_well_formed(work)
                && work.output_shapes is Some && work.lacks_buffer(self.current(work)),
            BuildStageSpec::Size { work, requirements, buffer } => self.work_well_formed(work)
                && work.output_shapes is Some,
            BuildStageSpec::Lock { work, buffer, size } => self.work_well_formed(work)
                && work.output_shapes is Some,
            BuildStageSpec::Clear { work, buffer, address, size } => self.work_well_formed(work)
                && work.output_shapes is Some,
            BuildStageSpec::Unlock { work, buffer } => self.work_well_formed(work)
                && work.output_shapes is Some,
            BuildStageSpec::Release { compiled, buffers, next, error } => next <= buffers.len(),
            _ => true,
        }
    }

    /// The call that comes next.
    pub open spec fn call(self) -> Call {
        match self.stage {
            BuildStageSpec::Options => Call::CreateOptions,
            BuildStageSpec::Accelerators { options } => Call::SetAccelerators {
                options,
                accelerators: accelerators_for(self.gpu),
            },
            BuildStageSpec::CpuOptions { options } => Call::CreateCpuOptions {
                num_threads: self.num_threads,
            },
            BuildStageSpec::AddCpuOptions { options, cpu_options } => Call::AddCpuOptions {
                options,
                cpu_options,
            },
            BuildStageSpec::Compile { options } => Call::Compile {
                environment: self.environment,
                model: self.model,
                options,
            },
            BuildStageSpec::DropOptions { options, status, compiled } => Call::DestroyOptions {
                options,
            },
            BuildStageSpec::InputLayout { work } => Call::InputLayout {
                compiled: work.compiled,
                sig: work.done.len() as usize,
                index: work.input_shapes.len() as usize,
            },
            BuildStageSpec::OutputLayouts { work } => Call::OutputLayouts {
                compiled: work.compiled,
                sig: work.done.len() as usize,
                count: self.current(work).output_types.len() as usize,
            },
            BuildStageSpec::Requirements { work } => Call::Requirements {
                compiled: work.compiled,
                sig: work.done.len() as usize,
                side: work.next_buffer(self.current(work)).0,
                index: work.next_buffer(self.current(work)).1,
            },
            BuildStageSpec::Create { work, requirements } => Call::CreateBuffer {
                environment: self.environment,
                tensor_type: work.next_tensor_type(self.current(work)),
                requirements,
            },
            BuildStageSpec::Size { work, requirements, buffer } => Call::BufferSize {
                requirements,
            },
            BuildStageSpec::Lock { work, buffer, size } => Call::Lock {
                buffer,
                mode: kLiteRtTensorBufferLockModeWrite,
            },
            BuildStageSpec::Clear { work, buffer, address, size } => Call::Clear { address, size },
            BuildStageSpec::Unlock { work, buffer } => Call::Unlock { buffer },
            BuildStageSpec::Release { compiled, buffers, next, error } => if next < buffers.len() {
                Call::DestroyBuffer { buffer: buffers[next as int] }
            } else {
                Call::DestroyCompiled { compiled }
            },
        }
    }

    /// The same build at another stage.
    pub open spec fn at(self, stage: BuildStageSpec) -> BuildNextSpec {
        BuildNextSpec::More(BuilderSpec { stage, ..self })
    }

    /// Begins with the first signature that is not made; done after the last.
    pub open spec fn begin(self, compiled: Handle, done: Seq<SignatureSpec>) -> BuildNextSpec {
        let work = WorkSpec::fresh(compiled, done);
        if done.len() >= self.metas.len() {
            BuildNextSpec::Done { compiled, signatures: done }
        } else if self.current(work).input_types.len() > 0 {
            self.at(BuildStageSpec::InputLayout { work })
        } else {
            self.at(BuildStageSpec::OutputLayouts { work })
        }
    }

    /// Goes on with what the signature still lacks: the shapes of its inputs,
    /// those of its outputs, its buffers.
    pub open spec fn go_on(self, work: WorkSpec) -> BuildNextSpec {
        let meta = self.current(work);
        if work.input_shapes.len() < meta.input_types.len() {
            self.at(BuildStageSpec::InputLayout { work })
        } else if work.output_shapes is None {
            self.at(BuildStageSpec::OutputLayouts { work })
        } else if work.lacks_buffer(meta) {
            self.at(BuildStageSpec::Requirements { work })
        } else {
            self.begin(work.compiled, work.done.push(work.signature(meta)))
        }
    }

    /// Gives everything back and fails.
    pub open spec fn give_up(self, work: WorkSpec, error: Seq<char>) -> BuildNextSpec {
        self.at(
            BuildStageSpec::Release {
                compiled: work.compiled,
                buffers: work.buffers(),
                next: 0,
                error,
            },
        )
    }

    /// Fails with nothing to give back.
    pub open spec fn fail(self, error: Seq<char>) -> BuildNextSpec {
        BuildNextSpec::Failed { error, metas: self.metas }
    }

    /// Where the build stands after a reply.
    pub open spec fn step(self, r: ReplySpec) -> BuildNextSpec {
        let status = integer(r.status as int);
        match self.stage {
            BuildStageSpec::Options => if !r.ok() {
                self.fail("LiteRtCreateOptions status="@ + status)
            } else {
                self.at(BuildStageSpec::Accelerators { options: r.handle })
            },
            BuildStageSpec::Accelerators { options } => if self.num_threads > 0 {
                self.at(BuildStageSpec::CpuOptions { options })
            } else {
                self.at(BuildStageSpec::Compile { options })
            },
            BuildStageSpec::CpuOptions { options } => if r.ok() {
                self.at(BuildStageSpec::AddCpuOptions { options, cpu_options: r.handle })
            } else {
                self.at(BuildStageSpec::Compile { options })
            },
            BuildStageSpec::AddCpuOptions { options, cpu_options } => self.at(
                BuildStageSpec::Compile { options },
            ),
            BuildStageSpec::Compile { options } => self.at(
                BuildStageSpec::DropOptions { options, status: r.status, compiled: r.handle },
            ),
            BuildStageSpec::DropOptions { options, status: compile_status, compiled } => if compile_status
                != 0 {
                self.fail("LiteRtCreateCompiledModel status="@ + integer(compile_status as int))
            } else {
                self.begin(compiled, seq![])
            },
            BuildStageSpec::InputLayout { work } => if !r.ok() {
                self.give_up(
                    work,
                    "LiteRtGetCompiledModelInputTensorLayout("@ + integer(work.done.len() as int)
                        + ","@ + integer(work.input_shapes.len() as int) + ") status="@ + status,
                )
            } else {
                self.go_on(WorkSpec { input_shapes: work.input_shapes.push(r.shape(0)), ..work })
            },
            BuildStageSpec::OutputLayouts { work } => if !r.ok() {
                self.give_up(
                    work,
                    "LiteRtGetCompiledModelOutputTensorLayouts("@ + integer(
                        work.done.len() as int,
                    ) + ") status="@ + status,
                )
            } else {
                self.go_on(
                    WorkSpec {
                        output_shapes: Some(
                            Seq::new(
                                self.current(work).output_types.len(),
                                |i: int| r.shape(i),
                            ),
                        ),
                        ..work
                    },
                )
            },
            BuildStageSpec::Requirements { work } => if !r.gave_handle() {
                self.give_up(
                    work,
                    "取第 "@ + integer(work.next_buffer(self.current(work)).1 as int)
                        + " 个张量的缓冲需求 status="@ + status,
                )
            } else {
                self.at(BuildStageSpec::Create { work, requirements: r.handle })
            },
            BuildStageSpec::Create { work, requirements } => if !r.gave_handle() {
                self.give_up(
                    work,
                    "LiteRtCreateManagedTensorBufferFromRequirements(第 "@ + integer(
                        work.next_buffer(self.current(work)).1 as int,
                    ) + " 个) status="@ + status,
                )
            } else {
                self.at(
                    BuildStageSpec::Size {
                        work: work.with_buffer(self.current(work), r.handle),
                        requirements,
                        buffer: r.handle,
                    },
                )
            },
            BuildStageSpec::Size { work, requirements, buffer } => if r.ok() && r.count > 0 {
                self.at(BuildStageSpec::Lock { work, buffer, size: r.count })
            } else {
                self.go_on(work)
            },
            BuildStageSpec::Lock { work, buffer, size } => if r.gave_handle() {
                self.at(BuildStageSpec::Clear { work, buffer, address: r.handle, size })
            } else {
                self.go_on(work)
            },
            BuildStageSpec::Clear { work, buffer, address, size } => self.at(
                BuildStageSpec::Unlock { work, buffer },
            ),
            BuildStageSpec::Unlock { work, buffer } => self.go_on(work),
            BuildStageSpec::Release { compiled, buffers, next, error } => if next
                < buffers.len() {
                self.at(
                    BuildStageSpec::Release { compiled, buffers, next: next + 1, error },
                )
            } else {
                self.fail(error)
            },
        }
    }
}

impl BuildNextSpec {
    /// The build may go on, or its signatures may be built again.
    pub open spec fn well_formed(self) -> bool {
        match self {
            BuildNextSpec::More(b) => b.well_formed(),
            BuildNextSpec::Done { compiled, signatures } => true,
            BuildNextSpec::Failed { error, metas } => all_well_formed(metas),
        }
    }
}

impl Work {
    fn fresh(compiled: Handle, done: Vec<Signature>) -> (r: Self)
        ensures
            r@ == WorkSpec::fresh(compiled, signatures(done@)),
    {
        let r = Work {
            compiled,
            done,
            input_shapes: Vec::new(),
            output_shapes: None,
            inputs: Vec::new(),
            outputs: Vec::new(),
        };
        assert(r@.input_shapes =~= seq![]);
        assert(r@.inputs =~= seq![]);
        assert(r@.outputs =~= seq![]);
        r
    }

    fn next_buffer(&self, meta: &SignatureMeta) -> (r: (Side, usize))
        ensures
            r == self@.next_buffer(meta@),
    {
        if self.inputs.len() < meta.input_types.len() {
            (Side::Input, self.inputs.len())
        } else {
            (Side::Output, self.outputs.len())
        }
    }

    fn next_tensor_type(&self, meta: &SignatureMeta) -> (r: LiteRtRankedTensorType)
        requires
            self@.well_formed(meta@),
            self@.output_shapes is Some,
            self@.lacks_buffer(meta@),
        ensures
            r == self@.next_tensor_type(meta@),
    {
        if self.inputs.len() < meta.input_types.len() {
            let i: usize = self.inputs.len();
            LiteRtRankedTensorType {
                element_type: meta.input_types[i],
                layout: LiteRtLayout::from_dims(self.input_shapes[i].as_slice()),
            }
        } else {
            let i: usize = self.outputs.len();
            match &self.output_shapes {
                Some(v) => LiteRtRankedTensorType {
                    element_type: meta.output_types[i],
                    layout: LiteRtLayout::from_dims(v[i].as_slice()),
                },
                None => LiteRtRankedTensorType {
                    element_type: meta.output_types[i],
                    layout: LiteRtLayout::zeroed(),
                },
            }
        }
    }

    fn add_buffer(&mut self, meta: &SignatureMeta, buffer: Handle)
        ensures
            final(self)@ == old(self)@.with_buffer(meta@, buffer),
    {
        if self.inputs.len() < meta.input_types.len() {
            self.inputs.push(buffer);
        } else {
            self.outputs.push(buffer);
        }
    }

    fn finish(self, meta: &SignatureMeta) -> (r: Vec<Signature>)
        requires
            self@.well_formed(meta@),
            self@.output_shapes is Some,
            !self@.lacks_buffer(meta@),
            meta@.well_formed(),
        ensures
            signatures(r@) == self@.done.push(self@.signature(meta@)),
    {
        let ghost want = self@.signature(meta@);
        let ghost before = self@.done;
        let output_shapes = match self.output_shapes {
            Some(v) => v,
            None => Vec::new(),
        };
        let s = Signature {
            key: meta.key.clone(),
            inputs: arrange(
                &meta.input_order,
                &self.inputs,
                &self.input_shapes,
                &meta.input_types,
            ),
            outputs: arrange(&meta.output_order, &self.outputs, &output_shapes, &meta.output_types),
        };
        assert(s@ == want);
        let mut done = self.done;
        done.push(s);
        assert(signatures(done@) =~= before.push(want));
        done
    }

    fn buffers(&self) -> (r: Vec<Handle>)
        ensures
            r@ == self@.buffers(),
    {
        let mut out = collect_buffers(&self.done);
        let ghost done = all_buffers(self@.done);
        let mut i: usize = 0;
        while i < self.inputs.len()
            invariant
                i <= self.inputs.len(),
                out@ == done + self.inputs@.take(i as int),
            decreases self.inputs.len() - i,
        {
            out.push(self.inputs[i]);
            assert(out@ =~= done + self.inputs@.take(i + 1));
            i = i + 1;
        }
        let ghost so_far = out@;
        assert(so_far =~= done + self.inputs@);
        let mut i: usize = 0;
        while i < self.outputs.len()
            invariant
                i <= self.outputs.len(),
                out@ == so_far + self.outputs@.take(i as int),
            decreases self.outputs.len() - i,
        {
            out.push(self.outputs[i]);
            assert(out@ =~= so_far + self.outputs@.take(i + 1));
            i = i + 1;
        }
        assert(out@ =~= self@.buffers());
        out
    }
}

impl BuildPlan {
    fn at(self, stage: BuildStage) -> (r: BuildNext)
        ensures
            r@ == self@.at(stage@),
    {
        BuildNext::More(Builder { plan: self, stage })
    }

    fn begin(self, compiled: Handle, done: Vec<Signature>) -> (r: BuildNext)
        requires
            all_well_formed(self@.metas),
        ensures
            r@ == self@.begin(compiled, signatures(done@)),
            r@.well_formed(),
    {
        if done.len() >= self.metas.len() {
            return BuildNext::Done { compiled, signatures: done };
        }
        let inputs: usize = self.metas[done.len()].input_types.len();
        let work = Work::fresh(compiled, done);
        if inputs > 0 {
            self.at(BuildStage::InputLayout { work })
        } else {
            self.at(BuildStage::OutputLayouts { work })
        }
    }

    fn go_on(self, work: Work) -> (r: BuildNext)
        requires
            all_well_formed(self@.metas),
            self@.work_well_formed(work@),
        ensures
            r@ == self@.go_on(work@),
            r@.well_formed(),
    {
        let index: usize = work.done.len();
        let n_in: usize = self.metas[index].input_types.len();
        let n_out: usize = self.metas[index].output_types.len();
        if work.input_shapes.len() < n_in {
            return self.at(BuildStage::InputLayout { work });
        }
        if work.output_shapes.is_none() {
            return self.at(BuildStage::OutputLayouts { work });
        }
        if work.inputs.len() < n_in || work.outputs.len() < n_out {
            return self.at(BuildStage::Requirements { work });
        }
        let compiled: Handle = work.compiled;
        assert(self@.metas[index as int].well_formed());
        let done = work.finish(&self.metas[index]);
        self.begin(compiled, done)
    }

    fn give_up(self, work: Work, error: String) -> (r: BuildNext)
        ensures
            r@ == self@.give_up(work@, error@),
            all_well_formed(self@.metas) ==> r@.well_formed(),
    {
        let buffers = work.buffers();
        self.at(BuildStage::Release { compiled: work.compiled, buffers, next: 0, error })
    }

    fn fail(self, error: String) -> (r: BuildNext)
        ensures
            r@ == self@.fail(error@),
            all_well_formed(self@.metas) ==> r@.well_formed(),
    {
        BuildNext::Failed { error, metas: self.metas }
    }
}

impl Builder {
    /// Starts a build.
    pub fn new(
        environment: Handle,
        model: Handle,
        signature_metas: Vec<SignatureMeta>,
        gpu: bool,
        num_threads: i32,
    ) -> (r: Self)
        requires
            all_well_formed(metas(signature_metas@)),
        ensures
            r@ == BuilderSpec::start(environment, model, metas(signature_metas@), gpu, num_threads),
            r@.well_formed(),
    {
        Builder {
            plan: BuildPlan { environment, model, metas: signature_metas, gpu, num_threads },
            stage: BuildStage::Options,
        }
    }

    /// The call that comes next.
    pub fn call(&self) -> (r: Call)
        requires
            self@.well_formed(),
        ensures
            r == self@.call(),
    {
        match &self.stage {
            BuildStage::Options => Call::CreateOptions,
            BuildStage::Accelerators { options } => Call::SetAccelerators {
                options: *options,
                accelerators: accelerator_mask(self.plan.gpu),
            },
            BuildStage::CpuOptions { options } => Call::CreateCpuOptions {
                num_threads: self.plan.num_threads,
            },
            BuildStage::AddCpuOptions { options, cpu_options } => Call::AddCpuOptions {
                options: *options,
                cpu_options: *cpu_options,
            },
            BuildStage::Compile { options } => Call::Compile {
                environment: self.plan.environment,
                model: self.plan.model,
                options: *options,
            },
            BuildStage::DropOptions { options, status, compiled } => Call::DestroyOptions {
                options: *options,
            },
            BuildStage::InputLayout { work } => Call::InputLayout {
                compiled: work.compiled,
                sig: work.done.len(),
                index: work.input_shapes.len(),
            },
            BuildStage::OutputLayouts { work } => Call::OutputLayouts {
                compiled: work.compiled,
                sig: work.done.len(),
                count: self.plan.metas[work.done.len()].output_types.len(),
            },
            BuildStage::Requirements { work } => {
                let (side, index) = work.next_buffer(&self.plan.metas[work.done.len()]);
                Call::Requirements { compiled: work.compiled, sig: work.done.len(), side, index }
            },
            BuildStage::Create { work, requirements } => Call::CreateBuffer {
                environment: self.plan.environment,
                tensor_type: work.next_tensor_type(&self.plan.metas[work.done.len()]),
                requirements: *requirements,
            },
            BuildStage::Size { work, requirements, buffer } => Call::BufferSize {
                requirements: *requirements,
            },
            BuildStage::Lock { work, buffer, size } => Call::Lock {
                buffer: *buffer,
                mode: kLiteRtTensorBufferLockModeWrite,
            },
            BuildStage::Clear { work, buffer, address, size } => Call::Clear {
                address: *address,
                size: *size,
            },
            BuildStage::Unlock { work, buffer } => Call::Unlock { buffer: *buffer },
            BuildStage::Release { compiled, buffers, next, error } => {
                if *next < buffers.len() {
                    Call::DestroyBuffer { buffer: buffers[*next] }
                } else {
                    Call::DestroyCompiled { compiled: *compiled }
                }
            },
        }
    }

    /// Takes the reply to the call.
    pub fn advance(self, reply: Reply) -> (r: BuildNext)
        requires
            self@.well_formed(),
        ensures
            r@ == self@.step(reply@),
            r@.well_formed(),
    {
        let plan = self.plan;
        match self.stage {
            BuildStage::Options => {
                if !reply.is_ok() {
                    let mut e = String::from_str("LiteRtCreateOptions status=");
                    push_i32(&mut e, reply.status);
                    return plan.fail(e);
                }
                plan.at(BuildStage::Accelerators { options: reply.handle })
            },
            BuildStage::Accelerators { options } => {
                if plan.num_threads > 0 {
                    plan.at(BuildStage::CpuOptions { options })
                } else {
                    plan.at(BuildStage::Compile { options })
                }
            },
            BuildStage::CpuOptions { options } => {
                if reply.is_ok() {
                    plan.at(BuildStage::AddCpuOptions { options, cpu_options: reply.handle })
                } else {
                    plan.at(BuildStage::Compile { options })
                }
            },
            BuildStage::AddCpuOptions { options, cpu_options } => plan.at(
                BuildStage::Compile { options },
            ),
            BuildStage::Compile { options } => plan.at(
                BuildStage::DropOptions {
                    options,
                    status: reply.status,
                    compiled: reply.handle,
                },
            ),
            BuildStage::DropOptions { options, status, compiled } => {
                if status != 0 {
                    let mut e = String::from_str("LiteRtCreateCompiledModel status=");
                    push_i32(&mut e, status);
                    return plan.fail(e);
                }
                let done: Vec<Signature> = Vec::new();
                assert(signatures(done@) =~= seq![]);
                plan.begin(compiled, done)
            },
            BuildStage::InputLayout { work } => {
                if !reply.is_ok() {
                    let mut e = String::from_str("LiteRtGetCompiledModelInputTensorLayout(");
                    push_usize(&mut e, work.done.len());
                    e.append(",");
                    push_usize(&mut e, work.input_shapes.len());
                    e.append(") status=");
                    push_i32(&mut e, reply.status);
                    return plan.give_up(work, e);
                }
                let ghost before = work@;
                let mut work = work;
                work.input_shapes.push(reply.shape_of(0));
                assert(work@.input_shapes =~= before.input_shapes.push(reply@.shape(0)));
                plan.go_on(work)
            },
            BuildStage::OutputLayouts { work } => {
                if !reply.is_ok() {
                    let mut e = String::from_str("LiteRtGetCompiledModelOutputTensorLayouts(");
                    push_usize(&mut e, work.done.len());
                    e.append(") status=");
                    push_i32(&mut e, reply.status);
                    return plan.give_up(work, e);
                }
                let n: usize = plan.metas[work.done.len()].output_types.len();
                let ghost want = Seq::new(n as nat, |i: int| reply@.shape(i));
                let mut v: Vec<Vec<i32>> = Vec::new();
                let mut i: usize = 0;
                while i < n
                    invariant
                        i <= n,
                        want == Seq::new(n as nat, |i: int| reply@.shape(i)),
                        v@.len() == i,
                        forall|k: int| 0 <= k < i ==> (#[trigger] v@[k])@ == want[k],
                    decreases n - i,
                {
                    v.push(reply.shape_of(i));
                    i = i + 1;
                }
                assert(shapes(v@) =~= want);
                let mut work = work;
                work.output_shapes = Some(v);
                plan.go_on(work)
            },
            BuildStage::Requirements { work } => {
                if !reply.has_handle() {
                    let (_, index) = work.next_buffer(&plan.metas[work.done.len()]);
                    let mut e = String::from_str("取第 ");
                    push_usize(&mut e, index);
                    e.append(" 个张量的缓冲需求 status=");
                    push_i32(&mut e, reply.status);
                    return plan.give_up(work, e);
                }
                plan.at(BuildStage::Create { work, requirements: reply.handle })
            },
            BuildStage::Create { work, requirements } => {
                if !reply.has_handle() {
                    let (_, index) = work.next_buffer(&plan.metas[work.done.len()]);
                    let mut e = String::from_str(
                        "LiteRtCreateManagedTensorBufferFromRequirements(第 ",
                    );
                    push_usize(&mut e, index);
                    e.append(" 个) status=");
                    push_i32(&mut e, reply.status);
                    return plan.give_up(work, e);
                }
                let mut work = work;
                work.add_buffer(&plan.metas[work.done.len()], reply.handle);
                plan.at(BuildStage::Size { work, requirements, buffer: reply.handle })
            },
            BuildStage::Size { work, requirements, buffer } => {
                if reply.is_ok() && reply.count > 0 {
                    plan.at(BuildStage::Lock { work, buffer, size: reply.count })
                } else {
                    plan.go_on(work)
                }
            },
            BuildStage::Lock { work, buffer, size } => {
                if reply.has_handle() {
                    plan.at(BuildStage::Clear { work, buffer, address: reply.handle, size })
                } else {
                    plan.go_on(work)
                }
            },
            BuildStage::Clear { work, buffer, address, size } => plan.at(
                BuildStage::Unlock { work, buffer },
            ),
            BuildStage::Unlock { work, buffer } => plan.go_on(work),
            BuildStage::Release { compiled, buffers, next, error } => {
                if next < buffers.len() {
                    plan.at(BuildStage::Release { compiled, buffers, next: next + 1, error })
                } else {
                    plan.fail(error)
                }
            },
        }
    }
}

} // verus!
