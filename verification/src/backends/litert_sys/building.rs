//! What a build ends with.
//!
//! What is built is what the runtime gave: the compiled model, every shape and
//! every buffer can be traced to the reply that gave it. And a build ends; it
//! ends well where the runtime does what it is asked.

use super::builder::{
    accelerators_for, BuildNextSpec, BuildStageSpec, BuilderSpec, WorkSpec,
};
use super::layout::{compact_layout, LiteRtRankedTensorType};
use super::ledger::build_stays_well_formed;
use super::metadata::MetaSpec;
use super::model::{SignatureSpec, SlotSpec};
use super::native::{kLiteRtTensorBufferLockModeWrite, Call, Event, Handle, ReplySpec, Side};
use super::order::lemma_small_indices;
use crate::text::integer;
use vstd::prelude::*;

verus! {

/// The event in which the model is compiled.
pub open spec fn compile_at(ev: Seq<Event>, num_threads: i32) -> int {
    if num_threads <= 0 {
        2
    } else if !ev[2].reply.ok() {
        3
    } else {
        4
    }
}

/// The first `n` events of a build are about its options: they are made, the
/// hardware is set, and the CPU gets its threads where their number is given and
/// the runtime has such options.
pub open spec fn options_told(ev: Seq<Event>, gpu: bool, num_threads: i32, n: int) -> bool {
    let options = ev[0].reply.handle;
    &&& n > 0 ==> ev[0].call is CreateOptions && ev[0].reply.ok()
    &&& n > 1 ==> ev[1].call == (Call::SetAccelerators {
        options,
        accelerators: accelerators_for(gpu),
    })
    &&& n > 2 && num_threads > 0 ==> ev[2].call == (Call::CreateCpuOptions { num_threads })
    &&& n > 3 && num_threads > 0 && ev[2].reply.ok() ==> ev[3].call == (Call::AddCpuOptions {
        options,
        cpu_options: ev[2].reply.handle,
    })
}

/// The model was compiled with those options, and this came of it.
pub open spec fn compiled_told(
    ev: Seq<Event>,
    environment: Handle,
    model: Handle,
    gpu: bool,
    num_threads: i32,
    compiled: Handle,
) -> bool {
    let t = compile_at(ev, num_threads);
    &&& t < ev.len()
    &&& options_told(ev, gpu, num_threads, t)
    &&& ev[t].call == (Call::Compile { environment, model, options: ev[0].reply.handle })
    &&& ev[t].reply.ok() && ev[t].reply.handle == compiled
}

/// The runtime gave the shape of input `k` of signature `i`.
pub open spec fn gives_input_shape(
    e: Event,
    compiled: Handle,
    i: int,
    k: int,
    shape: Seq<i32>,
) -> bool {
    &&& e.call == (Call::InputLayout { compiled, sig: i as usize, index: k as usize })
    &&& e.reply.ok() && e.reply.shape(0) == shape
}

/// The runtime gave the shapes of all `count` outputs of signature `i`, that of
/// output `k` among them.
pub open spec fn gives_output_shape(
    e: Event,
    compiled: Handle,
    i: int,
    count: nat,
    k: int,
    shape: Seq<i32>,
) -> bool {
    &&& e.call == (Call::OutputLayouts { compiled, sig: i as usize, count: count as usize })
    &&& e.reply.ok() && e.reply.shape(k) == shape
}

/// The runtime said what the buffer of an argument has to be like, and then made
/// one like that.
pub open spec fn gives_buffer(
    asked: Event,
    made: Event,
    environment: Handle,
    compiled: Handle,
    i: int,
    side: Side,
    k: int,
    tensor_type: LiteRtRankedTensorType,
    buffer: Handle,
) -> bool {
    &&& asked.call == (Call::Requirements { compiled, sig: i as usize, side, index: k as usize })
    &&& asked.reply.gave_handle()
    &&& made.call == (Call::CreateBuffer {
        environment,
        tensor_type,
        requirements: asked.reply.handle,
    })
    &&& made.reply.gave_handle() && made.reply.handle == buffer
}

/// Some event gives the shape of an input.
pub open spec fn input_shape_told(
    ev: Seq<Event>,
    compiled: Handle,
    i: int,
    k: int,
    shape: Seq<i32>,
) -> bool {
    exists|t: int|
        0 <= t < ev.len() && gives_input_shape(#[trigger] ev[t], compiled, i, k, shape)
}

/// Some event gives the shape of an output.
pub open spec fn output_shape_told(
    ev: Seq<Event>,
    compiled: Handle,
    i: int,
    count: nat,
    k: int,
    shape: Seq<i32>,
) -> bool {
    exists|t: int|
        0 <= t < ev.len() && gives_output_shape(#[trigger] ev[t], compiled, i, count, k, shape)
}

/// Some two events, one after the other, give the buffer of an argument.
pub open spec fn buffer_told(
    ev: Seq<Event>,
    environment: Handle,
    compiled: Handle,
    i: int,
    side: Side,
    k: int,
    tensor_type: LiteRtRankedTensorType,
    buffer: Handle,
) -> bool {
    exists|t: int|
        0 <= t < ev.len() - 1 && gives_buffer(
            #[trigger] ev[t],
            ev[t + 1],
            environment,
            compiled,
            i,
            side,
            k,
            tensor_type,
            buffer,
        )
}

/// The type of a tensor without strides.
pub open spec fn tensor_type_of(element_type: i32, shape: Seq<i32>) -> LiteRtRankedTensorType {
    LiteRtRankedTensorType { element_type, layout: compact_layout(shape) }
}

/// An input of signature `i` has the type that was read for it, the shape that
/// compiling gave it, and a buffer that was made for it.
pub open spec fn input_told(
    ev: Seq<Event>,
    environment: Handle,
    compiled: Handle,
    i: int,
    meta: MetaSpec,
    k: int,
    slot: SlotSpec,
) -> bool {
    &&& slot.element_type == meta.input_types[k]
    &&& input_shape_told(ev, compiled, i, k, slot.shape)
    &&& buffer_told(
        ev,
        environment,
        compiled,
        i,
        Side::Input,
        k,
        tensor_type_of(slot.element_type, slot.shape),
        slot.buffer,
    )
}

/// The same for an output.
pub open spec fn output_told(
    ev: Seq<Event>,
    environment: Handle,
    compiled: Handle,
    i: int,
    meta: MetaSpec,
    k: int,
    slot: SlotSpec,
) -> bool {
    &&& slot.element_type == meta.output_types[k]
    &&& output_shape_told(ev, compiled, i, meta.output_types.len(), k, slot.shape)
    &&& buffer_told(
        ev,
        environment,
        compiled,
        i,
        Side::Output,
        k,
        tensor_type_of(slot.element_type, slot.shape),
        slot.buffer,
    )
}

/// A signature has its key, and every input and output was told, in the order in
/// which callers pass them.
pub open spec fn signature_told(
    ev: Seq<Event>,
    environment: Handle,
    compiled: Handle,
    i: int,
    meta: MetaSpec,
    sig: SignatureSpec,
) -> bool {
    &&& sig.key == meta.key
    &&& sig.inputs.len() == meta.input_order.len()
    &&& sig.outputs.len() == meta.output_order.len()
    &&& forall|j: int|
        0 <= j < sig.inputs.len() ==> input_told(
            ev,
            environment,
            compiled,
            i,
            meta,
            meta.input_order[j] as int,
            #[trigger] sig.inputs[j],
        )
    &&& forall|j: int|
        0 <= j < sig.outputs.len() ==> output_told(
            ev,
            environment,
            compiled,
            i,
            meta,
            meta.output_order[j] as int,
            #[trigger] sig.outputs[j],
        )
}

/// The first signatures were told.
pub open spec fn signatures_told(
    ev: Seq<Event>,
    environment: Handle,
    compiled: Handle,
    metas: Seq<MetaSpec>,
    done: Seq<SignatureSpec>,
) -> bool {
    &&& done.len() <= metas.len()
    &&& forall|i: int|
        0 <= i < done.len() ==> signature_told(
            ev,
            environment,
            compiled,
            i,
            metas[i],
            #[trigger] done[i],
        )
}

/// What has been made of the next signature was told.
spec fn parts_told(
    ev: Seq<Event>,
    environment: Handle,
    meta: MetaSpec,
    work: WorkSpec,
) -> bool {
    let i = work.done.len() as int;
    &&& forall|k: int|
        0 <= k < work.input_shapes.len() ==> input_shape_told(
            ev,
            work.compiled,
            i,
            k,
            #[trigger] work.input_shapes[k],
        )
    &&& forall|k: int|
        work.output_shapes is Some && 0 <= k < work.output_shapes.unwrap().len()
            ==> output_shape_told(
            ev,
            work.compiled,
            i,
            meta.output_types.len(),
            k,
            #[trigger] work.output_shapes.unwrap()[k],
        )
    &&& forall|k: int|
        0 <= k < work.inputs.len() ==> buffer_told(
            ev,
            environment,
            work.compiled,
            i,
            Side::Input,
            k,
            tensor_type_of(meta.input_types[k], work.input_shapes[k]),
            #[trigger] work.inputs[k],
        )
    &&& forall|k: int|
        0 <= k < work.outputs.len() ==> buffer_told(
            ev,
            environment,
            work.compiled,
            i,
            Side::Output,
            k,
            tensor_type_of(meta.output_types[k], work.output_shapes.unwrap()[k]),
            #[trigger] work.outputs[k],
        )
}

impl BuilderSpec {
    /// What has been made was told by the events since the build began.
    spec fn work_told(self, ev: Seq<Event>, work: WorkSpec) -> bool {
        &&& self.work_well_formed(work)
        &&& compiled_told(
            ev,
            self.environment,
            self.model,
            self.gpu,
            self.num_threads,
            work.compiled,
        )
        &&& signatures_told(ev, self.environment, work.compiled, self.metas, work.done)
        &&& parts_told(ev, self.environment, self.current(work), work)
    }

    /// Where the build stands is where the events since it began lead.
    pub closed spec fn told(self, ev: Seq<Event>) -> bool {
        let options = ev[0].reply.handle;
        let n = ev.len() as int;
        match self.stage {
            BuildStageSpec::Options => n == 0,
            BuildStageSpec::Accelerators { options: h } => {
                &&& n == 1 && h == options
                &&& options_told(ev, self.gpu, self.num_threads, n)
            },
            BuildStageSpec::CpuOptions { options: h } => {
                &&& n == 2 && h == options && self.num_threads > 0
                &&& options_told(ev, self.gpu, self.num_threads, n)
            },
            BuildStageSpec::AddCpuOptions { options: h, cpu_options } => {
                &&& n == 3 && h == options && self.num_threads > 0
                &&& ev[2].reply.ok() && cpu_options == ev[2].reply.handle
                &&& options_told(ev, self.gpu, self.num_threads, n)
            },
            BuildStageSpec::Compile { options: h } => {
                &&& n == compile_at(ev, self.num_threads) && h == options
                &&& options_told(ev, self.gpu, self.num_threads, n)
            },
            BuildStageSpec::DropOptions { options: h, status, compiled } => {
                let t = compile_at(ev, self.num_threads);
                &&& n == t + 1
                &&& options_told(ev, self.gpu, self.num_threads, t)
                &&& ev[t].call == (Call::Compile {
                    environment: self.environment,
                    model: self.model,
                    options,
                })
                &&& ev[t].reply.status == status && ev[t].reply.handle == compiled
            },
            BuildStageSpec::InputLayout { work } => self.work_told(ev, work),
            BuildStageSpec::OutputLayouts { work } => self.work_told(ev, work),
            BuildStageSpec::Requirements { work } => self.work_told(ev, work),
            BuildStageSpec::Create { work, requirements } => {
                &&& self.work_told(ev, work)
                &&& n > 0
                &&& ev.last().call == (Call::Requirements {
                    compiled: work.compiled,
                    sig: work.done.len() as usize,
                    side: work.next_buffer(self.current(work)).0,
                    index: work.next_buffer(self.current(work)).1,
                })
                &&& ev.last().reply.gave_handle() && ev.last().reply.handle == requirements
            },
            BuildStageSpec::Size { work, requirements, buffer } => self.work_told(ev, work),
            BuildStageSpec::Lock { work, buffer, size } => self.work_told(ev, work),
            BuildStageSpec::Clear { work, buffer, address, size } => self.work_told(ev, work),
            BuildStageSpec::Unlock { work, buffer } => self.work_told(ev, work),
            BuildStageSpec::Release { compiled, buffers, next, error } => true,
        }
    }
}

proof fn lemma_input_shape_stays(
    ev: Seq<Event>,
    e: Event,
    compiled: Handle,
    i: int,
    k: int,
    shape: Seq<i32>,
)
    requires
        input_shape_told(ev, compiled, i, k, shape),
    ensures
        input_shape_told(ev.push(e), compiled, i, k, shape),
{
    let t = choose|t: int|
        0 <= t < ev.len() && gives_input_shape(#[trigger] ev[t], compiled, i, k, shape);
    assert(ev.push(e)[t] == ev[t]);
}

proof fn lemma_output_shape_stays(
    ev: Seq<Event>,
    e: Event,
    compiled: Handle,
    i: int,
    count: nat,
    k: int,
    shape: Seq<i32>,
)
    requires
        output_shape_told(ev, compiled, i, count, k, shape),
    ensures
        output_shape_told(ev.push(e), compiled, i, count, k, shape),
{
    let t = choose|t: int|
        0 <= t < ev.len() && gives_output_shape(#[trigger] ev[t], compiled, i, count, k, shape);
    assert(ev.push(e)[t] == ev[t]);
}

proof fn lemma_buffer_stays(
    ev: Seq<Event>,
    e: Event,
    environment: Handle,
    compiled: Handle,
    i: int,
    side: Side,
    k: int,
    tensor_type: LiteRtRankedTensorType,
    buffer: Handle,
)
    requires
        buffer_told(ev, environment, compiled, i, side, k, tensor_type, buffer),
    ensures
        buffer_told(ev.push(e), environment, compiled, i, side, k, tensor_type, buffer),
{
    let t = choose|t: int|
        0 <= t < ev.len() - 1 && gives_buffer(
            #[trigger] ev[t],
            ev[t + 1],
            environment,
            compiled,
            i,
            side,
            k,
            tensor_type,
            buffer,
        );
    assert(ev.push(e)[t] == ev[t]);
    assert(ev.push(e)[t + 1] == ev[t + 1]);
}

proof fn lemma_signature_stays(
    ev: Seq<Event>,
    e: Event,
    environment: Handle,
    compiled: Handle,
    i: int,
    meta: MetaSpec,
    sig: SignatureSpec,
)
    requires
        signature_told(ev, environment, compiled, i, meta, sig),
    ensures
        signature_told(ev.push(e), environment, compiled, i, meta, sig),
{
    let more = ev.push(e);
    assert forall|j: int| 0 <= j < sig.inputs.len() implies input_told(
        more,
        environment,
        compiled,
        i,
        meta,
        meta.input_order[j] as int,
        #[trigger] sig.inputs[j],
    ) by {
        let s = sig.inputs[j];
        let k = meta.input_order[j] as int;
        let ty = tensor_type_of(s.element_type, s.shape);
        assert(input_told(ev, environment, compiled, i, meta, k, s));
        lemma_input_shape_stays(ev, e, compiled, i, k, s.shape);
        lemma_buffer_stays(ev, e, environment, compiled, i, Side::Input, k, ty, s.buffer);
    }
    assert forall|j: int| 0 <= j < sig.outputs.len() implies output_told(
        more,
        environment,
        compiled,
        i,
        meta,
        meta.output_order[j] as int,
        #[trigger] sig.outputs[j],
    ) by {
        let s = sig.outputs[j];
        let k = meta.output_order[j] as int;
        let ty = tensor_type_of(s.element_type, s.shape);
        assert(output_told(ev, environment, compiled, i, meta, k, s));
        lemma_output_shape_stays(ev, e, compiled, i, meta.output_types.len(), k, s.shape);
        lemma_buffer_stays(ev, e, environment, compiled, i, Side::Output, k, ty, s.buffer);
    }
}

proof fn lemma_parts_stay(
    ev: Seq<Event>,
    e: Event,
    environment: Handle,
    meta: MetaSpec,
    work: WorkSpec,
)
    requires
        parts_told(ev, environment, meta, work),
    ensures
        parts_told(ev.push(e), environment, meta, work),
{
    let more = ev.push(e);
    let i = work.done.len() as int;
    assert forall|k: int| 0 <= k < work.input_shapes.len() implies input_shape_told(
        more,
        work.compiled,
        i,
        k,
        #[trigger] work.input_shapes[k],
    ) by {
        lemma_input_shape_stays(ev, e, work.compiled, i, k, work.input_shapes[k]);
    }
    assert forall|k: int|
        work.output_shapes is Some && 0 <= k
            < work.output_shapes.unwrap().len() implies output_shape_told(
        more,
        work.compiled,
        i,
        meta.output_types.len(),
        k,
        #[trigger] work.output_shapes.unwrap()[k],
    ) by {
        lemma_output_shape_stays(
            ev,
            e,
            work.compiled,
            i,
            meta.output_types.len(),
            k,
            work.output_shapes.unwrap()[k],
        );
    }
    assert forall|k: int| 0 <= k < work.inputs.len() implies buffer_told(
        more,
        environment,
        work.compiled,
        i,
        Side::Input,
        k,
        tensor_type_of(meta.input_types[k], work.input_shapes[k]),
        #[trigger] work.inputs[k],
    ) by {
        lemma_buffer_stays(
            ev,
            e,
            environment,
            work.compiled,
            i,
            Side::Input,
            k,
            tensor_type_of(meta.input_types[k], work.input_shapes[k]),
            work.inputs[k],
        );
    }
    assert forall|k: int| 0 <= k < work.outputs.len() implies buffer_told(
        more,
        environment,
        work.compiled,
        i,
        Side::Output,
        k,
        tensor_type_of(meta.output_types[k], work.output_shapes.unwrap()[k]),
        #[trigger] work.outputs[k],
    ) by {
        lemma_buffer_stays(
            ev,
            e,
            environment,
            work.compiled,
            i,
            Side::Output,
            k,
            tensor_type_of(meta.output_types[k], work.output_shapes.unwrap()[k]),
            work.outputs[k],
        );
    }
}

proof fn lemma_work_stays(ev: Seq<Event>, e: Event, b: BuilderSpec, work: WorkSpec)
    requires
        b.work_told(ev, work),
    ensures
        b.work_told(ev.push(e), work),
{
    let more = ev.push(e);
    assert forall|t: int| 0 <= t < ev.len() implies #[trigger] more[t] == ev[t] by {}
    assert forall|i: int| 0 <= i < work.done.len() implies signature_told(
        more,
        b.environment,
        work.compiled,
        i,
        b.metas[i],
        #[trigger] work.done[i],
    ) by {
        lemma_signature_stays(
            ev,
            e,
            b.environment,
            work.compiled,
            i,
            b.metas[i],
            work.done[i],
        );
    }
    lemma_parts_stay(ev, e, b.environment, b.current(work), work);
}

/// What a build ends with was told.
spec fn next_told(b: BuilderSpec, ev: Seq<Event>, next: BuildNextSpec) -> bool {
    match next {
        BuildNextSpec::More(n) => n == (BuilderSpec { stage: n.stage, ..b }) && n.told(ev),
        BuildNextSpec::Done { compiled, signatures } => {
            &&& compiled_told(ev, b.environment, b.model, b.gpu, b.num_threads, compiled)
            &&& signatures.len() == b.metas.len()
            &&& signatures_told(ev, b.environment, compiled, b.metas, signatures)
        },
        BuildNextSpec::Failed { error, metas } => metas == b.metas,
    }
}

proof fn lemma_begin_told(
    ev: Seq<Event>,
    b: BuilderSpec,
    compiled: Handle,
    done: Seq<SignatureSpec>,
)
    requires
        b.well_formed(),
        compiled_told(ev, b.environment, b.model, b.gpu, b.num_threads, compiled),
        signatures_told(ev, b.environment, compiled, b.metas, done),
    ensures
        next_told(b, ev, b.begin(compiled, done)),
{
    if done.len() < b.metas.len() {
        assert(b.work_told(ev, WorkSpec::fresh(compiled, done)));
    }
}

proof fn lemma_whole_signature(
    ev: Seq<Event>,
    environment: Handle,
    meta: MetaSpec,
    work: WorkSpec,
)
    requires
        meta.well_formed(),
        work.well_formed(meta),
        work.output_shapes is Some,
        !work.lacks_buffer(meta),
        parts_told(ev, environment, meta, work),
    ensures
        signature_told(
            ev,
            environment,
            work.compiled,
            work.done.len() as int,
            meta,
            work.signature(meta),
        ),
{
    let i = work.done.len() as int;
    let sig = work.signature(meta);
    assert forall|j: int| 0 <= j < sig.inputs.len() implies input_told(
        ev,
        environment,
        work.compiled,
        i,
        meta,
        meta.input_order[j] as int,
        #[trigger] sig.inputs[j],
    ) by {
        let k = meta.input_order[j] as int;
        assert(k < meta.input_types.len());
        assert(sig.inputs[j].shape == work.input_shapes[k]);
        assert(sig.inputs[j].buffer == work.inputs[k]);
    }
    assert forall|j: int| 0 <= j < sig.outputs.len() implies output_told(
        ev,
        environment,
        work.compiled,
        i,
        meta,
        meta.output_order[j] as int,
        #[trigger] sig.outputs[j],
    ) by {
        let k = meta.output_order[j] as int;
        assert(k < meta.output_types.len());
        assert(sig.outputs[j].shape == work.output_shapes.unwrap()[k]);
        assert(sig.outputs[j].buffer == work.outputs[k]);
    }
}

proof fn lemma_go_on_told(ev: Seq<Event>, b: BuilderSpec, work: WorkSpec)
    requires
        b.well_formed(),
        b.work_told(ev, work),
    ensures
        next_told(b, ev, b.go_on(work)),
{
    let meta = b.current(work);
    assert(meta.well_formed());
    if work.input_shapes.len() == meta.input_types.len() && work.output_shapes is Some
        && !work.lacks_buffer(meta) {
        let done = work.done.push(work.signature(meta));
        lemma_whole_signature(ev, b.environment, meta, work);
        assert forall|i: int| 0 <= i < done.len() implies signature_told(
            ev,
            b.environment,
            work.compiled,
            i,
            b.metas[i],
            #[trigger] done[i],
        ) by {
            if i < work.done.len() {
                assert(done[i] == work.done[i]);
            }
        }
        lemma_begin_told(ev, b, work.compiled, done);
    }
}

proof fn lemma_layout_told(ev: Seq<Event>, b: BuilderSpec, r: ReplySpec)
    requires
        b.well_formed(),
        b.told(ev),
        b.stage is InputLayout || b.stage is OutputLayouts,
        r.ok(),
    ensures
        next_told(b, ev.push(Event { call: b.call(), reply: r }), b.step(r)),
{
    let e = Event { call: b.call(), reply: r };
    let more = ev.push(e);
    assert(more[ev.len() as int] == e);
    match b.stage {
        BuildStageSpec::InputLayout { work } => {
            lemma_work_stays(ev, e, b, work);
            let next = WorkSpec { input_shapes: work.input_shapes.push(r.shape(0)), ..work };
            let i = work.done.len() as int;
            let n = work.input_shapes.len() as int;
            assert(gives_input_shape(more[ev.len() as int], work.compiled, i, n, r.shape(0)));
            assert forall|k: int| 0 <= k < next.input_shapes.len() implies input_shape_told(
                more,
                next.compiled,
                i,
                k,
                #[trigger] next.input_shapes[k],
            ) by {
                if k < n {
                    assert(next.input_shapes[k] == work.input_shapes[k]);
                }
            }
            lemma_go_on_told(more, b, next);
        },
        BuildStageSpec::OutputLayouts { work } => {
            lemma_work_stays(ev, e, b, work);
            let count = b.current(work).output_types.len();
            let v = Seq::new(count, |k: int| r.shape(k));
            let next = WorkSpec { output_shapes: Some(v), ..work };
            let i = work.done.len() as int;
            assert forall|k: int| 0 <= k < v.len() implies output_shape_told(
                more,
                next.compiled,
                i,
                count,
                k,
                #[trigger] v[k],
            ) by {
                assert(gives_output_shape(
                    more[ev.len() as int],
                    work.compiled,
                    i,
                    count,
                    k,
                    v[k],
                ));
            }
            lemma_go_on_told(more, b, next);
        },
        _ => {},
    }
}

/// The next buffer has the number of those of its side that are made.
proof fn lemma_next_buffer(b: BuilderSpec, work: WorkSpec)
    requires
        b.well_formed(),
        b.work_well_formed(work),
        work.lacks_buffer(b.current(work)),
    ensures
        work.next_buffer(b.current(work)).1 as int == if work.next_buffer(
            b.current(work),
        ).0 is Input {
            work.inputs.len() as int
        } else {
            work.outputs.len() as int
        },
{
    let meta = b.current(work);
    assert(b.metas[work.done.len() as int].well_formed());
    if work.inputs.len() < meta.input_types.len() {
        lemma_small_indices(meta.input_order, meta.input_types.len());
    } else {
        lemma_small_indices(meta.output_order, meta.output_types.len());
    }
}

proof fn lemma_create_told(ev: Seq<Event>, b: BuilderSpec, r: ReplySpec)
    requires
        b.well_formed(),
        b.told(ev),
        b.stage is Create,
        r.gave_handle(),
    ensures
        next_told(b, ev.push(Event { call: b.call(), reply: r }), b.step(r)),
{
    let e = Event { call: b.call(), reply: r };
    let more = ev.push(e);
    match b.stage {
        BuildStageSpec::Create { work, requirements } => {
            let meta = b.current(work);
            let (side, index) = work.next_buffer(meta);
            let i = work.done.len() as int;
            let k = index as int;
            let next = work.with_buffer(meta, r.handle);
            let ty = work.next_tensor_type(meta);
            let t = ev.len() - 1;
            lemma_work_stays(ev, e, b, work);
            lemma_next_buffer(b, work);
            assert(more[t] == ev.last());
            assert(more[t + 1] == e);
            assert(gives_buffer(
                more[t],
                more[t + 1],
                b.environment,
                work.compiled,
                i,
                side,
                k,
                ty,
                r.handle,
            ));
            assert(buffer_told(
                more,
                b.environment,
                work.compiled,
                i,
                side,
                k,
                ty,
                r.handle,
            ));
            assert forall|j: int| 0 <= j < next.inputs.len() implies buffer_told(
                more,
                b.environment,
                next.compiled,
                i,
                Side::Input,
                j,
                tensor_type_of(meta.input_types[j], next.input_shapes[j]),
                #[trigger] next.inputs[j],
            ) by {
                if j < work.inputs.len() {
                    assert(next.inputs[j] == work.inputs[j]);
                } else {
                    assert(side is Input && j == k);
                }
            }
            assert forall|j: int| 0 <= j < next.outputs.len() implies buffer_told(
                more,
                b.environment,
                next.compiled,
                i,
                Side::Output,
                j,
                tensor_type_of(meta.output_types[j], next.output_shapes.unwrap()[j]),
                #[trigger] next.outputs[j],
            ) by {
                if j < work.outputs.len() {
                    assert(next.outputs[j] == work.outputs[j]);
                } else {
                    assert(side is Output && j == k);
                }
            }
            assert(parts_told(more, b.environment, meta, next));
            assert(b.work_told(more, next));
        },
        _ => {},
    }
}

proof fn lemma_options_told(ev: Seq<Event>, b: BuilderSpec, r: ReplySpec)
    requires
        b.well_formed(),
        b.told(ev),
        b.options_left() > 0,
    ensures
        next_told(b, ev.push(Event { call: b.call(), reply: r }), b.step(r)),
{
    let e = Event { call: b.call(), reply: r };
    let more = ev.push(e);
    assert forall|t: int| 0 <= t < ev.len() implies #[trigger] more[t] == ev[t] by {}
    assert(more[ev.len() as int] == e);
    match b.stage {
        BuildStageSpec::DropOptions { options, status, compiled } => {
            if status == 0 {
                lemma_begin_told(more, b, compiled, seq![]);
            }
        },
        _ => {},
    }
}

/// Whatever the runtime replies, what a build makes is what it was told.
pub(crate) proof fn building_is_told(ev: Seq<Event>, b: BuilderSpec, r: ReplySpec)
    requires
        b.well_formed(),
        b.told(ev),
    ensures
        ({
            let more = ev.push(Event { call: b.call(), reply: r });
            match b.step(r) {
                BuildNextSpec::More(n) => n == (BuilderSpec { stage: n.stage, ..b }) && n.told(more),
                BuildNextSpec::Done { compiled, signatures } => {
                    &&& compiled_told(more, b.environment, b.model, b.gpu, b.num_threads, compiled)
                    &&& signatures.len() == b.metas.len()
                    &&& signatures_told(more, b.environment, compiled, b.metas, signatures)
                },
                BuildNextSpec::Failed { error, metas } => metas == b.metas,
            }
        }),
{
    let e = Event { call: b.call(), reply: r };
    let more = ev.push(e);
    match b.stage {
        BuildStageSpec::InputLayout { work } => {
            if r.ok() {
                lemma_layout_told(ev, b, r);
            }
        },
        BuildStageSpec::OutputLayouts { work } => {
            if r.ok() {
                lemma_layout_told(ev, b, r);
            }
        },
        BuildStageSpec::Requirements { work } => {
            lemma_work_stays(ev, e, b, work);
        },
        BuildStageSpec::Create { work, requirements } => {
            if r.gave_handle() {
                lemma_create_told(ev, b, r);
            }
        },
        BuildStageSpec::Size { work, requirements, buffer } => {
            lemma_work_stays(ev, e, b, work);
            lemma_go_on_told(more, b, work);
        },
        BuildStageSpec::Lock { work, buffer, size } => {
            lemma_work_stays(ev, e, b, work);
            lemma_go_on_told(more, b, work);
        },
        BuildStageSpec::Clear { work, buffer, address, size } => {
            lemma_work_stays(ev, e, b, work);
        },
        BuildStageSpec::Unlock { work, buffer } => {
            lemma_work_stays(ev, e, b, work);
            lemma_go_on_told(more, b, work);
        },
        BuildStageSpec::Release { compiled, buffers, next, error } => {},
        _ => {
            lemma_options_told(ev, b, r);
        },
    }
}

/// A build that has not begun has been told nothing.
pub(crate) proof fn building_starts_untold(b: BuilderSpec)
    requires
        b.stage is Options,
    ensures
        b.told(seq![]),
{
}

impl BuilderSpec {
    /// The runtime does what it is asked. It need not take the CPU options, nor
    /// let buffers be cleared.
    pub open spec fn answered_by(self, r: ReplySpec) -> bool {
        match self.stage {
            BuildStageSpec::Options => r.ok(),
            BuildStageSpec::Compile { options } => r.ok(),
            BuildStageSpec::InputLayout { work } => r.ok(),
            BuildStageSpec::OutputLayouts { work } => r.ok(),
            BuildStageSpec::Requirements { work } => r.gave_handle(),
            BuildStageSpec::Create { work, requirements } => r.gave_handle(),
            _ => true,
        }
    }

    /// Nothing has gone wrong so far.
    pub open spec fn sound(self) -> bool {
        match self.stage {
            BuildStageSpec::DropOptions { options, status, compiled } => status == 0,
            BuildStageSpec::Release { compiled, buffers, next, error } => false,
            _ => true,
        }
    }

    /// Whether the build is still making things, rather than giving them back.
    pub open spec fn makes(self) -> int {
        if self.stage is Release {
            0
        } else {
            1
        }
    }

    /// How many calls are left until the model is compiled, counted generously.
    pub closed spec fn options_left(self) -> int {
        match self.stage {
            BuildStageSpec::Options => 6,
            BuildStageSpec::Accelerators { options } => 5,
            BuildStageSpec::CpuOptions { options } => 4,
            BuildStageSpec::AddCpuOptions { options, cpu_options } => 3,
            BuildStageSpec::Compile { options } => 2,
            BuildStageSpec::DropOptions { options, status, compiled } => 1,
            _ => 0,
        }
    }

    spec fn work_left(self, work: WorkSpec) -> int {
        let meta = self.current(work);
        (meta.input_types.len() - work.input_shapes.len()) + (if work.output_shapes is None {
            1int
        } else {
            0
        }) + (meta.input_types.len() - work.inputs.len()) + (meta.output_types.len()
            - work.outputs.len())
    }

    /// How many signatures are left to make.
    pub closed spec fn signatures_left(self) -> int {
        match self.stage {
            BuildStageSpec::InputLayout { work } => self.metas.len() - work.done.len(),
            BuildStageSpec::OutputLayouts { work } => self.metas.len() - work.done.len(),
            BuildStageSpec::Requirements { work } => self.metas.len() - work.done.len(),
            BuildStageSpec::Create { work, requirements } => self.metas.len() - work.done.len(),
            BuildStageSpec::Size { work, requirements, buffer } => self.metas.len()
                - work.done.len(),
            BuildStageSpec::Lock { work, buffer, size } => self.metas.len() - work.done.len(),
            BuildStageSpec::Clear { work, buffer, address, size } => self.metas.len()
                - work.done.len(),
            BuildStageSpec::Unlock { work, buffer } => self.metas.len() - work.done.len(),
            _ => 0,
        }
    }

    /// How many calls are left for the current signature, counted generously.
    pub closed spec fn calls_left(self) -> int {
        match self.stage {
            BuildStageSpec::InputLayout { work } => 10 * self.work_left(work),
            BuildStageSpec::OutputLayouts { work } => 10 * self.work_left(work),
            BuildStageSpec::Requirements { work } => 10 * self.work_left(work),
            BuildStageSpec::Create { work, requirements } => 10 * self.work_left(work) - 1,
            BuildStageSpec::Size { work, requirements, buffer } => 10 * self.work_left(work) + 5,
            BuildStageSpec::Lock { work, buffer, size } => 10 * self.work_left(work) + 4,
            BuildStageSpec::Clear { work, buffer, address, size } => 10 * self.work_left(work) + 3,
            BuildStageSpec::Unlock { work, buffer } => 10 * self.work_left(work) + 2,
            BuildStageSpec::Release { compiled, buffers, next, error } => buffers.len() - next,
            _ => 0,
        }
    }
}

/// The build `n` is nearer its end than `b`.
pub open spec fn nearer(n: BuilderSpec, b: BuilderSpec) -> bool {
    &&& n.makes() >= 0 && n.options_left() >= 0 && n.signatures_left() >= 0 && n.calls_left() >= 0
    &&& n.makes() < b.makes() || (n.makes() == b.makes() && (n.options_left() < b.options_left()
        || (n.options_left() == b.options_left() && (n.signatures_left() < b.signatures_left() || (
    n.signatures_left() == b.signatures_left() && n.calls_left() < b.calls_left())))))
}

proof fn lemma_begin_nearer(b: BuilderSpec, compiled: Handle, done: Seq<SignatureSpec>)
    requires
        b.stage !is Release,
        b.options_left() == 1 || b.options_left() == 0 && b.signatures_left() > b.metas.len()
            - done.len(),
    ensures
        match b.begin(compiled, done) {
            BuildNextSpec::More(n) => nearer(n, b) && n.sound(),
            BuildNextSpec::Done { compiled, signatures } => true,
            BuildNextSpec::Failed { error, metas } => false,
        },
{
}

proof fn lemma_go_on_nearer(b: BuilderSpec, work: WorkSpec)
    requires
        b.stage !is Release,
        b.work_well_formed(work),
        b.options_left() == 0,
        b.signatures_left() == b.metas.len() - work.done.len(),
        b.calls_left() > 10 * b.work_left(work),
    ensures
        match b.go_on(work) {
            BuildNextSpec::More(n) => nearer(n, b) && n.sound(),
            BuildNextSpec::Done { compiled, signatures } => true,
            BuildNextSpec::Failed { error, metas } => false,
        },
{
    let meta = b.current(work);
    if work.input_shapes.len() == meta.input_types.len() && work.output_shapes is Some
        && !work.lacks_buffer(meta) {
        lemma_begin_nearer(b, work.compiled, work.done.push(work.signature(meta)));
    }
}

/// Every reply brings a build nearer its end. It fails exactly where the runtime
/// does not do what it is asked.
pub(crate) proof fn building_goes_on(b: BuilderSpec, r: ReplySpec)
    requires
        b.well_formed(),
    ensures
        match b.step(r) {
            BuildNextSpec::More(n) => {
                &&& n == (BuilderSpec { stage: n.stage, ..b })
                &&& nearer(n, b)
                &&& n.sound() == (b.sound() && b.answered_by(r))
            },
            BuildNextSpec::Done { compiled, signatures } => b.sound() && b.answered_by(r),
            BuildNextSpec::Failed { error, metas } => !(b.sound() && b.answered_by(r)) && metas
                == b.metas,
        },
{
    build_stays_well_formed(b, r);
    match b.stage {
        BuildStageSpec::DropOptions { options, status, compiled } => {
            lemma_begin_nearer(b, compiled, seq![]);
        },
        BuildStageSpec::InputLayout { work } => {
            lemma_go_on_nearer(
                b,
                WorkSpec { input_shapes: work.input_shapes.push(r.shape(0)), ..work },
            );
        },
        BuildStageSpec::OutputLayouts { work } => {
            let v = Seq::new(b.current(work).output_types.len(), |i: int| r.shape(i));
            lemma_go_on_nearer(b, WorkSpec { output_shapes: Some(v), ..work });
        },
        BuildStageSpec::Size { work, requirements, buffer } => {
            lemma_go_on_nearer(b, work);
        },
        BuildStageSpec::Lock { work, buffer, size } => {
            lemma_go_on_nearer(b, work);
        },
        BuildStageSpec::Unlock { work, buffer } => {
            lemma_go_on_nearer(b, work);
        },
        _ => {},
    }
}

/// A new buffer is filled with zeros before anything else is done with it, over
/// the size that the runtime gives it: what was left in memory may be no number,
/// and a mask of zeros does not hide that.
pub proof fn new_buffers_are_cleared(
    b: BuilderSpec,
    made: ReplySpec,
    size: ReplySpec,
    locked: ReplySpec,
    cleared: ReplySpec,
)
    requires
        b.stage is Create,
        made.gave_handle(),
        size.ok() && size.count > 0,
        locked.gave_handle(),
    ensures
        b.call() is CreateBuffer,
        b.step(made) matches BuildNextSpec::More(b1) && b1.call() is BufferSize && (b1.step(
            size,
        ) matches BuildNextSpec::More(b2) && b2.call() == (Call::Lock {
            buffer: made.handle,
            mode: kLiteRtTensorBufferLockModeWrite,
        }) && (b2.step(locked) matches BuildNextSpec::More(b3) && b3.call() == (Call::Clear {
            address: locked.handle,
            size: size.count,
        }) && (b3.step(cleared) matches BuildNextSpec::More(b4) && b4.call() == (Call::Unlock {
            buffer: made.handle,
        })))),
{
}

/// A runtime refuses to build in these ways alone: it does not make options, does
/// not compile, does not say what shape an input or what shapes the outputs have,
/// does not say what a buffer has to be like, or makes none. Any other reply is as
/// good as any.
pub proof fn builds_are_refused_by_these_calls(b: BuilderSpec, r: ReplySpec)
    ensures
        match b.call() {
            Call::CreateOptions
            | Call::Compile { .. }
            | Call::InputLayout { .. }
            | Call::OutputLayouts { .. } => b.answered_by(r) <==> r.status == 0,
            Call::Requirements { .. } | Call::CreateBuffer { .. } => b.answered_by(r) <==> r.status
                == 0 && r.handle != 0,
            _ => b.answered_by(r),
        },
{
}

/// A build asks for the CPU, and for the GPU too where it is for the GPU.
pub proof fn the_cpu_is_always_asked_for(r: i32, s: i32)
    requires
        call_ensures(super::builder::accelerator_mask, (true,), r),
        call_ensures(super::builder::accelerator_mask, (false,), s),
    ensures
        r == 3,
        s == 1,
        accelerators_for(true) == 3,
        accelerators_for(false) == 1,
{
}

/// In the caller's order, place `j` of the slots has the buffer, the shape and the
/// type of the argument that belongs there.
pub proof fn slots_are_arranged(
    order: Seq<usize>,
    buffers: Seq<Handle>,
    shapes: Seq<Seq<i32>>,
    types: Seq<i32>,
    j: int,
)
    requires
        0 <= j < order.len(),
    ensures
        ({
            let slots = super::builder::arranged(order, buffers, shapes, types);
            &&& slots.len() == order.len()
            &&& slots[j].buffer == buffers[order[j] as int]
            &&& slots[j].shape == shapes[order[j] as int]
            &&& slots[j].element_type == types[order[j] as int]
        }),
{
}

/// Where the runtime refuses, the error says which call it was, about what, and
/// with which status. Where something has been made, it is given back first: all
/// buffers, then the compiled model.
pub proof fn refused_builds_say_why(b: BuilderSpec, r: ReplySpec, s: ReplySpec)
    requires
        b.metas.len() <= usize::MAX,
        b.well_formed(),
        !b.answered_by(r),
    ensures
        ({
            let status = integer(r.status as int);
            match b.call() {
                Call::CreateOptions => b.step(r) == (BuildNextSpec::Failed {
                    error: "LiteRtCreateOptions status="@ + status,
                    metas: b.metas,
                }),
                Call::Compile { environment, model, options } => b.step(r) matches
                    BuildNextSpec::More(n) && n.call() == (Call::DestroyOptions { options })
                    && n.step(s) == (BuildNextSpec::Failed {
                    error: "LiteRtCreateCompiledModel status="@ + status,
                    metas: b.metas,
                }),
                Call::InputLayout { compiled, sig, index } => b.step(r) matches
                    BuildNextSpec::More(n) && n.stage matches BuildStageSpec::Release {
                    compiled: c,
                    buffers,
                    next,
                    error,
                } && c == compiled && next == 0 && error
                    == "LiteRtGetCompiledModelInputTensorLayout("@ + integer(sig as int) + ","@
                    + integer(index as int) + ") status="@ + status,
                Call::OutputLayouts { compiled, sig, count } => b.step(r) matches
                    BuildNextSpec::More(n) && n.stage matches BuildStageSpec::Release {
                    compiled: c,
                    buffers,
                    next,
                    error,
                } && c == compiled && next == 0 && error
                    == "LiteRtGetCompiledModelOutputTensorLayouts("@ + integer(sig as int)
                    + ") status="@ + status,
                Call::Requirements { compiled, sig, side, index } => b.step(r) matches
                    BuildNextSpec::More(n) && n.stage matches BuildStageSpec::Release {
                    compiled: c,
                    buffers,
                    next,
                    error,
                } && c == compiled && next == 0 && error == "取第 "@ + integer(index as int)
                    + " 个张量的缓冲需求 status="@ + status,
                Call::CreateBuffer { .. } => b.step(r) matches BuildNextSpec::More(n)
                    && n.stage is Release,
                _ => false,
            }
        }),
{
    match b.stage {
        BuildStageSpec::InputLayout { work } => {
            lemma_small_indices(b.current(work).input_order, b.current(work).input_types.len());
        },
        _ => {},
    }
}

/// What a failed build gives back: its buffers one by one and in order, and the
/// compiled model after the last. Then it has failed, with the error it had.
pub proof fn failed_builds_give_back_in_order(
    b: BuilderSpec,
    compiled: Handle,
    buffers: Seq<Handle>,
    next: nat,
    error: Seq<char>,
    r: ReplySpec,
)
    requires
        b.stage == (BuildStageSpec::Release { compiled, buffers, next, error }),
    ensures
        next < buffers.len() ==> b.call() == (Call::DestroyBuffer { buffer: buffers[next as int] })
            && b.step(r) == BuildNextSpec::More(
            BuilderSpec {
                stage: BuildStageSpec::Release { compiled, buffers, next: next + 1, error },
                ..b
            },
        ),
        next >= buffers.len() ==> b.call() == (Call::DestroyCompiled { compiled }) && b.step(r) == (
        BuildNextSpec::Failed { error, metas: b.metas }),
{
}

} // verus!
