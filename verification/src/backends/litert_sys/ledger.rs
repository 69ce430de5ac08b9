//! What a model holds of the runtime, from the first call that opens it on.

use super::builder::{arranged, BuildNextSpec, BuildStageSpec, BuilderSpec, WorkSpec};
use super::metadata::{all_well_formed, reading_stays_well_formed, MetaSpec};
use super::model::{
    all_buffers, signature_buffers, slot_buffers, ModelSpec, SignatureSpec,
};
use super::native::{created, destroyed, Call, Handle, ReplySpec, Resource};
use super::opening::{OpenStageSpec, OpeningSpec};
use super::order::{is_permutation, permutation_keeps_multiset};
use vstd::multiset::Multiset;
use vstd::prelude::*;

verus! {

/// A list of buffers as resources.
pub open spec fn buffer_resources(buffers: Seq<Handle>) -> Multiset<Resource> {
    buffers.map_values(|b: Handle| Resource::Buffer(b)).to_multiset()
}

/// A compiled model with its buffers.
pub open spec fn compiled_resources(compiled: Handle, buffers: Seq<Handle>) -> Multiset<Resource> {
    buffer_resources(buffers).insert(Resource::Compiled(compiled))
}

/// What is held after a call, by what its reply brought and it did away with.
pub open spec fn held_after(
    held: Multiset<Resource>,
    call: Call,
    reply: ReplySpec,
) -> Multiset<Resource> {
    let grown = match created(call, reply) {
        Some(r) => held.insert(r),
        None => held,
    };
    match destroyed(call) {
        Some(r) => grown.remove(r),
        None => grown,
    }
}

/// A call does away with nothing that is not held.
pub open spec fn only_destroys(held: Multiset<Resource>, call: Call) -> bool {
    destroyed(call) matches Some(r) ==> held.count(r) > 0
}

impl WorkSpec {
    /// What the work so far holds.
    pub open spec fn held(self) -> Multiset<Resource> {
        compiled_resources(self.compiled, self.buffers())
    }
}

impl BuilderSpec {
    /// What a build holds besides the model.
    pub open spec fn held(self) -> Multiset<Resource> {
        match self.stage {
            BuildStageSpec::Options => Multiset::empty(),
            BuildStageSpec::Accelerators { options } => Multiset::singleton(
                Resource::Options(options),
            ),
            BuildStageSpec::CpuOptions { options } => Multiset::singleton(
                Resource::Options(options),
            ),
            BuildStageSpec::AddCpuOptions { options, cpu_options } => Multiset::singleton(
                Resource::Options(options),
            ),
            BuildStageSpec::Compile { options } => Multiset::singleton(Resource::Options(options)),
            BuildStageSpec::DropOptions { options, status, compiled } => if status == 0 {
                Multiset::singleton(Resource::Options(options)).insert(Resource::Compiled(compiled))
            } else {
                Multiset::singleton(Resource::Options(options))
            },
            BuildStageSpec::InputLayout { work } => work.held(),
            BuildStageSpec::OutputLayouts { work } => work.held(),
            BuildStageSpec::Requirements { work } => work.held(),
            BuildStageSpec::Create { work, requirements } => work.held(),
            BuildStageSpec::Size { work, requirements, buffer } => work.held(),
            BuildStageSpec::Lock { work, buffer, size } => work.held(),
            BuildStageSpec::Clear { work, buffer, address, size } => work.held(),
            BuildStageSpec::Unlock { work, buffer } => work.held(),
            BuildStageSpec::Release { compiled, buffers, next, error } => compiled_resources(
                compiled,
                buffers.skip(next as int),
            ),
        }
    }
}

impl BuildNextSpec {
    /// What a build holds besides the model.
    pub open spec fn held(self) -> Multiset<Resource> {
        match self {
            BuildNextSpec::More(b) => b.held(),
            BuildNextSpec::Done { compiled, signatures } => compiled_resources(
                compiled,
                all_buffers(signatures),
            ),
            BuildNextSpec::Failed { error, metas } => Multiset::empty(),
        }
    }
}

impl ModelSpec {
    /// What an open model holds.
    pub open spec fn held(self) -> Multiset<Resource> {
        compiled_resources(self.compiled, all_buffers(self.signatures)).insert(
            Resource::Model(self.model),
        )
    }
}

impl OpeningSpec {
    /// What is held while a model is being opened, and after.
    pub open spec fn held(self) -> Multiset<Resource> {
        match self {
            OpeningSpec::Working { request, stage } => match stage {
                OpenStageSpec::Environment => Multiset::empty(),
                OpenStageSpec::Model { environment } => Multiset::empty(),
                OpenStageSpec::Metadata { environment, reader } => Multiset::singleton(
                    Resource::Model(reader.model),
                ),
                OpenStageSpec::Build { builder, gpu_error } => builder.held().insert(
                    Resource::Model(builder.model),
                ),
                OpenStageSpec::DropModel { model, error } => Multiset::singleton(
                    Resource::Model(model),
                ),
            },
            OpeningSpec::Opened { model } => model.held(),
            OpeningSpec::Failed { error } => Multiset::empty(),
        }
    }
}

proof fn lemma_resources_concat(a: Seq<Handle>, b: Seq<Handle>)
    ensures
        buffer_resources(a + b) == buffer_resources(a).add(buffer_resources(b)),
{
    let f = |b: Handle| Resource::Buffer(b);
    assert((a + b).map_values(f) =~= a.map_values(f) + b.map_values(f));
    vstd::seq_lib::lemma_multiset_commutative(a.map_values(f), b.map_values(f));
}

proof fn lemma_resources_push(a: Seq<Handle>, b: Handle)
    ensures
        buffer_resources(a.push(b)) == buffer_resources(a).insert(Resource::Buffer(b)),
{
    let f = |b: Handle| Resource::Buffer(b);
    assert(a.push(b).map_values(f) =~= a.map_values(f).push(f(b)));
    vstd::seq_lib::to_multiset_build(a.map_values(f), f(b));
}

proof fn lemma_resources_first(a: Seq<Handle>)
    requires
        a.len() > 0,
    ensures
        buffer_resources(a) == buffer_resources(a.drop_first()).insert(Resource::Buffer(a[0])),
{
    broadcast use vstd::multiset::group_multiset_axioms;

    assert(a =~= seq![a[0]] + a.drop_first());
    lemma_resources_concat(seq![a[0]], a.drop_first());
    lemma_resources_push(seq![], a[0]);
    lemma_no_resources();
    assert(seq![a[0]] =~= Seq::<Handle>::empty().push(a[0]));
    assert(buffer_resources(a) =~= buffer_resources(a.drop_first()).insert(
        Resource::Buffer(a[0]),
    ));
}

proof fn lemma_no_resources()
    ensures
        buffer_resources(seq![]) == Multiset::<Resource>::empty(),
{
    let f = |b: Handle| Resource::Buffer(b);
    let none = Seq::<Handle>::empty().map_values(f);
    assert(none =~= Seq::<Resource>::empty());
    vstd::seq_lib::to_multiset_len(none);
    vstd::multiset::lemma_multiset_empty_len(none.to_multiset());
}

proof fn lemma_resources_permuted(
    order: Seq<usize>,
    buffers: Seq<Handle>,
    shapes: Seq<Seq<i32>>,
    types: Seq<i32>,
)
    requires
        is_permutation(order, buffers.len()),
    ensures
        buffer_resources(slot_buffers(arranged(order, buffers, shapes, types)))
            == buffer_resources(buffers),
{
    let f = |b: Handle| Resource::Buffer(b);
    let s = buffers.map_values(f);
    permutation_keeps_multiset(order, s);
    assert(slot_buffers(arranged(order, buffers, shapes, types)).map_values(f) =~= Seq::new(
        order.len(),
        |j: int| s[order[j] as int],
    ));
}

proof fn lemma_finished_signature(work: WorkSpec, meta: MetaSpec)
    requires
        meta.well_formed(),
        work.well_formed(meta),
        !work.lacks_buffer(meta),
        work.output_shapes is Some,
    ensures
        buffer_resources(all_buffers(work.done.push(work.signature(meta)))) == buffer_resources(
            work.buffers(),
        ),
{
    broadcast use vstd::multiset::group_multiset_axioms;

    let s = work.signature(meta);
    let done = work.done.push(s);
    assert(done.drop_last() =~= work.done);
    lemma_resources_permuted(meta.input_order, work.inputs, work.input_shapes, meta.input_types);
    lemma_resources_permuted(
        meta.output_order,
        work.outputs,
        work.output_shapes.unwrap(),
        meta.output_types,
    );
    lemma_resources_concat(slot_buffers(s.inputs), slot_buffers(s.outputs));
    lemma_resources_concat(all_buffers(work.done), signature_buffers(s));
    lemma_resources_concat(all_buffers(work.done), work.inputs);
    lemma_resources_concat(all_buffers(work.done) + work.inputs, work.outputs);
    assert(buffer_resources(all_buffers(done)) =~= buffer_resources(work.buffers()));
}

proof fn lemma_begin_holds(b: BuilderSpec, compiled: Handle, done: Seq<SignatureSpec>)
    ensures
        b.begin(compiled, done).held() == compiled_resources(compiled, all_buffers(done)),
{
    let work = WorkSpec::fresh(compiled, done);
    assert(work.buffers() =~= all_buffers(done));
}

proof fn lemma_go_on_holds(b: BuilderSpec, work: WorkSpec)
    requires
        all_well_formed(b.metas),
        b.work_well_formed(work),
    ensures
        b.go_on(work).held() == work.held(),
{
    let meta = b.current(work);
    assert(meta.well_formed());
    if work.input_shapes.len() >= meta.input_types.len() && work.output_shapes is Some
        && !work.lacks_buffer(meta) {
        lemma_finished_signature(work, meta);
        lemma_begin_holds(b, work.compiled, work.done.push(work.signature(meta)));
    }
}

proof fn lemma_new_buffer(work: WorkSpec, meta: MetaSpec, buffer: Handle)
    requires
        work.well_formed(meta),
        work.lacks_buffer(meta),
    ensures
        work.with_buffer(meta, buffer).held() == work.held().insert(Resource::Buffer(buffer)),
{
    broadcast use vstd::multiset::group_multiset_axioms;

    let next = work.with_buffer(meta, buffer);
    let done = all_buffers(work.done);
    lemma_resources_concat(done, work.inputs);
    lemma_resources_concat(done + work.inputs, work.outputs);
    lemma_resources_concat(done, next.inputs);
    lemma_resources_concat(done + next.inputs, next.outputs);
    lemma_resources_push(work.inputs, buffer);
    lemma_resources_push(work.outputs, buffer);
    assert(next.held() =~= work.held().insert(Resource::Buffer(buffer)));
}

/// After every reply a build holds what it held before, with what the call
/// brought and without what it did away with. In particular a failed build holds
/// nothing.
pub proof fn build_keeps_account(b: BuilderSpec, r: ReplySpec)
    requires
        b.well_formed(),
    ensures
        b.step(r).held() == held_after(b.held(), b.call(), r),
        only_destroys(b.held(), b.call()),
{
    broadcast use vstd::multiset::group_multiset_axioms;

    let next = b.step(r);
    match b.stage {
        BuildStageSpec::DropOptions { options, status, compiled } => {
            lemma_begin_holds(b, compiled, seq![]);
            lemma_no_resources();
            assert(all_buffers(seq![]) =~= seq![]);
        },
        BuildStageSpec::InputLayout { work } => {
            lemma_go_on_holds(
                b,
                WorkSpec { input_shapes: work.input_shapes.push(r.shape(0)), ..work },
            );
            assert(work.buffers().skip(0) =~= work.buffers());
        },
        BuildStageSpec::OutputLayouts { work } => {
            lemma_go_on_holds(
                b,
                WorkSpec {
                    output_shapes: Some(
                        Seq::new(b.current(work).output_types.len(), |i: int| r.shape(i)),
                    ),
                    ..work
                },
            );
            assert(work.buffers().skip(0) =~= work.buffers());
        },
        BuildStageSpec::Requirements { work } => {
            assert(work.buffers().skip(0) =~= work.buffers());
        },
        BuildStageSpec::Create { work, requirements } => {
            lemma_new_buffer(work, b.current(work), r.handle);
            assert(work.buffers().skip(0) =~= work.buffers());
        },
        BuildStageSpec::Size { work, requirements, buffer } => {
            lemma_go_on_holds(b, work);
        },
        BuildStageSpec::Lock { work, buffer, size } => {
            lemma_go_on_holds(b, work);
        },
        BuildStageSpec::Unlock { work, buffer } => {
            lemma_go_on_holds(b, work);
        },
        BuildStageSpec::Release { compiled, buffers, next: at, error } => {
            let left = buffers.skip(at as int);
            if at < buffers.len() {
                lemma_resources_first(left);
                assert(left.drop_first() =~= buffers.skip((at + 1) as int));
            } else {
                assert(left =~= seq![]);
                lemma_no_resources();
            }
        },
        _ => {},
    }
    assert(next.held() =~= held_after(b.held(), b.call(), r));
}

proof fn lemma_more_held(held: Multiset<Resource>, extra: Resource, call: Call, r: ReplySpec)
    requires
        only_destroys(held, call),
    ensures
        held_after(held.insert(extra), call, r) == held_after(held, call, r).insert(extra),
        only_destroys(held.insert(extra), call),
{
    broadcast use vstd::multiset::group_multiset_axioms;

    assert(held_after(held.insert(extra), call, r) =~= held_after(held, call, r).insert(extra));
}

proof fn lemma_same_model(b: BuilderSpec, r: ReplySpec)
    ensures
        b.step(r) matches BuildNextSpec::More(next) ==> next.model == b.model,
{
}

/// After every reply an opening holds what it held before, with what the call
/// brought and without what it did away with.
pub proof fn opening_keeps_account(s: OpeningSpec, r: ReplySpec)
    requires
        s.well_formed(),
        s.call() is Some,
    ensures
        s.step(r).held() == held_after(s.held(), s.call().unwrap(), r),
        only_destroys(s.held(), s.call().unwrap()),
{
    broadcast use vstd::multiset::group_multiset_axioms;

    match s {
        OpeningSpec::Working { request, stage } => match stage {
            OpenStageSpec::Build { builder, gpu_error } => {
                build_keeps_account(builder, r);
                lemma_more_held(
                    builder.held(),
                    Resource::Model(builder.model),
                    builder.call(),
                    r,
                );
                lemma_same_model(builder, r);
                let none = Multiset::<Resource>::empty();
                assert(none.insert(Resource::Model(builder.model)) =~= Multiset::singleton(
                    Resource::Model(builder.model),
                ));
            },
            OpenStageSpec::Metadata { environment, reader } => {
                let none = Multiset::<Resource>::empty();
                assert(none.insert(Resource::Model(reader.model)) =~= Multiset::singleton(
                    Resource::Model(reader.model),
                ));
            },
            OpenStageSpec::Model { environment } => {
                assert(s.step(r).held() =~= held_after(s.held(), s.call().unwrap(), r));
            },
            OpenStageSpec::DropModel { model, error } => {
                assert(s.step(r).held() =~= held_after(s.held(), s.call().unwrap(), r));
            },
            _ => {},
        },
        _ => {},
    }
}

proof fn lemma_begin_well_formed(b: BuilderSpec, compiled: Handle, done: Seq<SignatureSpec>)
    requires
        all_well_formed(b.metas),
    ensures
        b.begin(compiled, done).well_formed(),
{
}

proof fn lemma_go_on_well_formed(b: BuilderSpec, work: WorkSpec)
    requires
        all_well_formed(b.metas),
        b.work_well_formed(work),
    ensures
        b.go_on(work).well_formed(),
{
    let meta = b.current(work);
    lemma_begin_well_formed(b, work.compiled, work.done.push(work.signature(meta)));
}

/// A build keeps in order whatever the runtime replies.
pub proof fn build_stays_well_formed(b: BuilderSpec, r: ReplySpec)
    requires
        b.well_formed(),
    ensures
        b.step(r).well_formed(),
{
    match b.stage {
        BuildStageSpec::DropOptions { options, status, compiled } => {
            lemma_begin_well_formed(b, compiled, seq![]);
        },
        BuildStageSpec::InputLayout { work } => {
            lemma_go_on_well_formed(
                b,
                WorkSpec { input_shapes: work.input_shapes.push(r.shape(0)), ..work },
            );
        },
        BuildStageSpec::OutputLayouts { work } => {
            lemma_go_on_well_formed(
                b,
                WorkSpec {
                    output_shapes: Some(
                        Seq::new(b.current(work).output_types.len(), |i: int| r.shape(i)),
                    ),
                    ..work
                },
            );
        },
        BuildStageSpec::Size { work, requirements, buffer } => {
            lemma_go_on_well_formed(b, work);
        },
        BuildStageSpec::Lock { work, buffer, size } => {
            lemma_go_on_well_formed(b, work);
        },
        BuildStageSpec::Unlock { work, buffer } => {
            lemma_go_on_well_formed(b, work);
        },
        _ => {},
    }
}

/// An opening keeps in order whatever the runtime replies.
pub proof fn opening_stays_well_formed(s: OpeningSpec, r: ReplySpec)
    requires
        s.well_formed(),
    ensures
        s.step(r).well_formed(),
{
    match s {
        OpeningSpec::Working { request, stage } => match stage {
            OpenStageSpec::Metadata { environment, reader } => {
                reading_stays_well_formed(reader, r);
            },
            OpenStageSpec::Build { builder, gpu_error } => {
                build_stays_well_formed(builder, r);
            },
            _ => {},
        },
        _ => {},
    }
}

/// An opening after a number of replies.
pub open spec fn opening_after(s: OpeningSpec, replies: Seq<ReplySpec>) -> OpeningSpec
    decreases replies.len(),
{
    if replies.len() == 0 {
        s
    } else {
        opening_after(s, replies.drop_last()).step(replies.last())
    }
}

/// What the calls of an opening have brought into being and not done away with.
pub open spec fn live_after(s: OpeningSpec, replies: Seq<ReplySpec>) -> Multiset<Resource>
    decreases replies.len(),
{
    if replies.len() == 0 {
        s.held()
    } else {
        let before = live_after(s, replies.drop_last());
        match opening_after(s, replies.drop_last()).call() {
            Some(call) => held_after(before, call, replies.last()),
            None => before,
        }
    }
}

/// Whatever the runtime replies, what is alive in it is what the opening holds:
/// nothing after a failure, and after success the model, the compiled model and
/// the buffers of its signatures, each once.
pub proof fn opening_leaks_nothing(
    bytes: Seq<u8>,
    want_gpu: bool,
    num_threads: i32,
    replies: Seq<ReplySpec>,
)
    ensures
        ({
            let start = OpeningSpec::start(bytes, want_gpu, num_threads);
            let end = opening_after(start, replies);
            &&& end.well_formed()
            &&& live_after(start, replies) == end.held()
            &&& end is Failed ==> live_after(start, replies) == Multiset::<Resource>::empty()
            &&& end matches OpeningSpec::Opened { model } ==> live_after(start, replies)
                == model.held()
        }),
    decreases replies.len(),
{
    let start = OpeningSpec::start(bytes, want_gpu, num_threads);
    if replies.len() > 0 {
        opening_leaks_nothing(bytes, want_gpu, num_threads, replies.drop_last());
        let before = opening_after(start, replies.drop_last());
        opening_stays_well_formed(before, replies.last());
        if before.call() is Some {
            opening_keeps_account(before, replies.last());
        }
    }
}

/// What is held after calls that only do away with things.
pub open spec fn held_after_all(held: Multiset<Resource>, calls: Seq<Call>) -> Multiset<Resource>
    decreases calls.len(),
{
    if calls.len() == 0 {
        held
    } else {
        let before = held_after_all(held, calls.drop_last());
        match destroyed(calls.last()) {
            Some(r) => before.remove(r),
            None => before,
        }
    }
}

proof fn lemma_buffers_released(m: ModelSpec, k: int)
    requires
        0 <= k <= all_buffers(m.signatures).len(),
    ensures
        held_after_all(m.held(), m.release_calls().take(k)) == compiled_resources(
            m.compiled,
            all_buffers(m.signatures).skip(k),
        ).insert(Resource::Model(m.model)),
    decreases k,
{
    let buffers = all_buffers(m.signatures);
    let calls = m.release_calls();
    if k == 0 {
        assert(buffers.skip(0) =~= buffers);
    } else {
        lemma_buffers_released(m, k - 1);
        assert(calls.take(k).drop_last() =~= calls.take(k - 1));
        assert(calls.take(k).last() == (Call::DestroyBuffer { buffer: buffers[k - 1] }));
        lemma_one_buffer_less(m, k - 1);
    }
}

proof fn lemma_one_buffer_less(m: ModelSpec, k: int)
    requires
        0 <= k < all_buffers(m.signatures).len(),
    ensures
        ({
            let buffers = all_buffers(m.signatures);
            let b = Resource::Buffer(buffers[k]);
            let before = compiled_resources(m.compiled, buffers.skip(k)).insert(
                Resource::Model(m.model),
            );
            &&& before.count(b) > 0
            &&& before.remove(b) == compiled_resources(m.compiled, buffers.skip(k + 1)).insert(
                Resource::Model(m.model),
            )
        }),
{
    broadcast use vstd::multiset::group_multiset_axioms;

    let buffers = all_buffers(m.signatures);
    let left = buffers.skip(k);
    lemma_resources_first(left);
    assert(left.drop_first() =~= buffers.skip(k + 1));
    assert(compiled_resources(m.compiled, left).insert(Resource::Model(m.model)).remove(
        Resource::Buffer(buffers[k]),
    ) =~= compiled_resources(m.compiled, buffers.skip(k + 1)).insert(Resource::Model(m.model)));
}

/// Releasing a model does away with everything it holds, and each thing once.
pub proof fn release_frees_everything_once(m: ModelSpec)
    ensures
        held_after_all(m.held(), m.release_calls()) == Multiset::<Resource>::empty(),
        forall|j: int|
            0 <= j < m.release_calls().len() ==> only_destroys(
                held_after_all(m.held(), m.release_calls().take(j)),
                #[trigger] m.release_calls()[j],
            ),
{
    broadcast use vstd::multiset::group_multiset_axioms;

    let buffers = all_buffers(m.signatures);
    let calls = m.release_calls();
    let n = buffers.len() as int;
    lemma_buffers_released(m, n);
    lemma_no_resources();
    assert(buffers.skip(n) =~= seq![]);
    let c1 = calls.take(n + 1);
    assert(c1.drop_last() =~= calls.take(n));
    assert(c1.last() == (Call::DestroyCompiled { compiled: m.compiled }));
    assert(held_after_all(m.held(), c1) =~= Multiset::singleton(Resource::Model(m.model)));
    assert(calls.drop_last() =~= c1);
    assert(calls.last() == (Call::DestroyModel { model: m.model }));
    assert(held_after_all(m.held(), calls) =~= Multiset::<Resource>::empty());
    assert forall|j: int| 0 <= j < calls.len() implies only_destroys(
        held_after_all(m.held(), calls.take(j)),
        #[trigger] calls[j],
    ) by {
        if j < n {
            lemma_buffers_released(m, j);
            lemma_one_buffer_less(m, j);
            assert(calls[j] == (Call::DestroyBuffer { buffer: buffers[j] }));
        } else if j == n {
            assert(calls[j] == (Call::DestroyCompiled { compiled: m.compiled }));
        } else if j == n + 1 {
            assert(calls[j] == (Call::DestroyModel { model: m.model }));
        }
    }
}

} // verus!
