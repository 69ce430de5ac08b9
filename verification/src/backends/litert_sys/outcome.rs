//! What opening a model ends with.

use super::building::{
    building_goes_on, building_is_told, building_starts_untold, compiled_told, signatures_told,
};
use super::ledger::{opening_after, opening_stays_well_formed};
use super::metadata::{MetaNextSpec, MetaSpec};
use super::model::ModelSpec;
use super::native::{Call, Event, Handle, ReplySpec};
use super::opening::{OpenStageSpec, OpeningSpec, RequestSpec};
use super::reading::{metas_told, reading_goes_on, reading_is_told, reading_starts_untold};
use vstd::prelude::*;

verus! {

/// What an opening asked of the runtime and was told.
pub open spec fn events_of(s: OpeningSpec, replies: Seq<ReplySpec>) -> Seq<Event>
    decreases replies.len(),
{
    if replies.len() == 0 {
        seq![]
    } else {
        let before = events_of(s, replies.drop_last());
        match opening_after(s, replies.drop_last()).call() {
            Some(call) => before.push(Event { call, reply: replies.last() }),
            None => before,
        }
    }
}

/// The first two events of an opening: the runtime gave its environment, and made
/// a model of the bytes.
pub open spec fn handles_told(ev: Seq<Event>, environment: Handle, model: Handle) -> bool {
    &&& ev.len() >= 2
    &&& ev[0].call is Environment && ev[0].reply.gave_handle()
    &&& ev[0].reply.handle == environment
    &&& ev[1].call == (Call::CreateModel { environment })
    &&& ev[1].reply.ok() && ev[1].reply.handle == model
}

/// A model holds what the runtime gave. Up to event `m` its signatures were read,
/// and since event `b` it was built, for the hardware that it is on.
pub open spec fn model_told(
    ev: Seq<Event>,
    num_threads: i32,
    metas: Seq<MetaSpec>,
    m: int,
    b: int,
    model: ModelSpec,
) -> bool {
    let environment = ev[0].reply.handle;
    &&& 2 <= m <= b <= ev.len()
    &&& handles_told(ev, environment, model.model)
    &&& metas_told(ev.subrange(2, m), model.model, metas.len(), metas)
    &&& compiled_told(
        ev.skip(b),
        environment,
        model.model,
        model.on_gpu,
        num_threads,
        model.compiled,
    )
    &&& model.signatures.len() == metas.len()
    &&& signatures_told(ev.skip(b), environment, model.compiled, metas, model.signatures)
}

/// Where an opening stands is where its events lead.
spec fn opening_told(
    s: OpeningSpec,
    want_gpu: bool,
    num_threads: i32,
    ev: Seq<Event>,
    metas: Seq<MetaSpec>,
    m: int,
    b: int,
) -> bool {
    match s {
        OpeningSpec::Working { request, stage } => {
            &&& request.want_gpu == want_gpu && request.num_threads == num_threads
            &&& match stage {
                OpenStageSpec::Environment => ev.len() == 0,
                OpenStageSpec::Model { environment } => {
                    &&& ev.len() == 1
                    &&& ev[0].call is Environment && ev[0].reply.gave_handle()
                    &&& ev[0].reply.handle == environment
                },
                OpenStageSpec::Metadata { environment, reader } => {
                    &&& handles_told(ev, environment, reader.model)
                    &&& reader.told(ev.skip(2), m)
                },
                OpenStageSpec::Build { builder, gpu_error } => {
                    &&& 2 <= m <= b <= ev.len()
                    &&& handles_told(ev, builder.environment, builder.model)
                    &&& builder.metas == metas
                    &&& metas_told(ev.subrange(2, m), builder.model, metas.len(), metas)
                    &&& builder.told(ev.skip(b))
                    &&& (b == m) == (gpu_error is None)
                },
                OpenStageSpec::DropModel { model, error } => true,
            }
        },
        OpeningSpec::Opened { model } => model_told(ev, num_threads, metas, m, b, model) && (b == m)
            == (model.on_gpu == want_gpu),
        OpeningSpec::Failed { error } => true,
    }
}

proof fn lemma_build_step_told(
    s: OpeningSpec,
    want_gpu: bool,
    num_threads: i32,
    ev: Seq<Event>,
    metas: Seq<MetaSpec>,
    m: int,
    b: int,
    r: ReplySpec,
) -> (b2: int)
    requires
        s.well_formed(),
        opening_told(s, want_gpu, num_threads, ev, metas, m, b),
        s matches OpeningSpec::Working { request, stage } && stage is Build,
    ensures
        opening_told(
            s.step(r),
            want_gpu,
            num_threads,
            ev.push(Event { call: s.call().unwrap(), reply: r }),
            metas,
            m,
            b2,
        ),
{
    let e = Event { call: s.call().unwrap(), reply: r };
    let more = ev.push(e);
    match s {
        OpeningSpec::Working { request, stage: OpenStageSpec::Build { builder, gpu_error } } => {
            building_is_told(ev.skip(b), builder, r);
            assert(more.skip(b) =~= ev.skip(b).push(e));
            assert(more.subrange(2, m) =~= ev.subrange(2, m));
            assert(more[0] == ev[0] && more[1] == ev[1]);
            if builder.step(r) is Failed && builder.gpu {
                match s.step(r) {
                    OpeningSpec::Working {
                        request: q,
                        stage: OpenStageSpec::Build { builder: n, gpu_error: g },
                    } => {
                        building_starts_untold(n);
                    },
                    _ => {},
                }
                assert(more.skip(more.len() as int) =~= seq![]);
                more.len() as int
            } else {
                b
            }
        },
        _ => b,
    }
}

proof fn lemma_step_told(
    s: OpeningSpec,
    want_gpu: bool,
    num_threads: i32,
    ev: Seq<Event>,
    metas: Seq<MetaSpec>,
    m: int,
    b: int,
    r: ReplySpec,
) -> (r2: (Seq<MetaSpec>, int, int))
    requires
        s.well_formed(),
        opening_told(s, want_gpu, num_threads, ev, metas, m, b),
        s is Working,
    ensures
        opening_told(
            s.step(r),
            want_gpu,
            num_threads,
            ev.push(Event { call: s.call().unwrap(), reply: r }),
            r2.0,
            r2.1,
            r2.2,
        ),
{
    let e = Event { call: s.call().unwrap(), reply: r };
    let more = ev.push(e);
    match s {
        OpeningSpec::Working { request, stage } => match stage {
            OpenStageSpec::Model { environment } => {
                assert(more.skip(2) =~= seq![]);
                reading_starts_untold(r.handle);
                (metas, 0, 0)
            },
            OpenStageSpec::Metadata { environment, reader } => {
                let a = reading_is_told(ev.skip(2), m, reader, r);
                assert(more.skip(2) =~= ev.skip(2).push(e));
                assert(more[0] == ev[0] && more[1] == ev[1]);
                match reader.step(r) {
                    MetaNextSpec::Done(read) => {
                        let n = more.len() as int;
                        assert(more.subrange(2, n) =~= more.skip(2));
                        assert(more.skip(n) =~= seq![]);
                        match s.step(r) {
                            OpeningSpec::Working {
                                request: q,
                                stage: OpenStageSpec::Build { builder, gpu_error },
                            } => {
                                building_starts_untold(builder);
                            },
                            _ => {},
                        }
                        (read, n, n)
                    },
                    _ => (metas, a, a),
                }
            },
            OpenStageSpec::Build { builder, gpu_error } => {
                let b2 = lemma_build_step_told(s, want_gpu, num_threads, ev, metas, m, b, r);
                (metas, m, b2)
            },
            _ => (metas, m, b),
        },
        _ => (metas, m, b),
    }
}

proof fn lemma_opening_told(
    bytes: Seq<u8>,
    want_gpu: bool,
    num_threads: i32,
    replies: Seq<ReplySpec>,
) -> (r: (Seq<MetaSpec>, int, int))
    ensures
        ({
            let start = OpeningSpec::start(bytes, want_gpu, num_threads);
            opening_told(
                opening_after(start, replies),
                want_gpu,
                num_threads,
                events_of(start, replies),
                r.0,
                r.1,
                r.2,
            )
        }),
    decreases replies.len(),
{
    let start = OpeningSpec::start(bytes, want_gpu, num_threads);
    if replies.len() == 0 {
        (seq![], 0, 0)
    } else {
        let rest = replies.drop_last();
        let (metas, m, b) = lemma_opening_told(bytes, want_gpu, num_threads, rest);
        let before = opening_after(start, rest);
        opened_as_requested(bytes, want_gpu, num_threads, rest);
        if before is Working {
            lemma_step_told(
                before,
                want_gpu,
                num_threads,
                events_of(start, rest),
                metas,
                m,
                b,
                replies.last(),
            )
        } else {
            (metas, m, b)
        }
    }
}

/// Whatever the runtime replies, a model that opens holds what the runtime gave:
/// the model made of the bytes, the compiled model, and for every signature its
/// key, and the type, the shape and the buffer of each argument, in the order of
/// the numbers in their names. It was built a second time exactly where it is not
/// on the hardware that was wanted.
pub proof fn model_holds_what_the_runtime_gave(
    bytes: Seq<u8>,
    want_gpu: bool,
    num_threads: i32,
    replies: Seq<ReplySpec>,
)
    ensures
        ({
            let start = OpeningSpec::start(bytes, want_gpu, num_threads);
            opening_after(start, replies) matches OpeningSpec::Opened { model } ==> exists|
                metas: Seq<MetaSpec>,
                m: int,
                b: int,
            | #[trigger]
                model_told(events_of(start, replies), num_threads, metas, m, b, model) && (b == m)
                    == (model.on_gpu == want_gpu)
        }),
{
    let start = OpeningSpec::start(bytes, want_gpu, num_threads);
    let (metas, m, b) = lemma_opening_told(bytes, want_gpu, num_threads, replies);
    match opening_after(start, replies) {
        OpeningSpec::Opened { model } => {
            assert(model_told(events_of(start, replies), num_threads, metas, m, b, model));
        },
        _ => {},
    }
}

/// Whatever the runtime replies, a model that opens holds the bytes it was
/// opened from, and it is on the GPU only where that was wanted.
pub proof fn opened_as_requested(
    bytes: Seq<u8>,
    want_gpu: bool,
    num_threads: i32,
    replies: Seq<ReplySpec>,
)
    ensures
        ({
            let start = OpeningSpec::start(bytes, want_gpu, num_threads);
            match opening_after(start, replies) {
                OpeningSpec::Working { request, stage } => request == (RequestSpec {
                    bytes,
                    want_gpu,
                    num_threads,
                }),
                OpeningSpec::Opened { model } => model.bytes == bytes && (model.on_gpu
                    ==> want_gpu),
                OpeningSpec::Failed { error } => true,
            }
        }),
        opening_after(OpeningSpec::start(bytes, want_gpu, num_threads), replies).well_formed(),
    decreases replies.len(),
{
    let start = OpeningSpec::start(bytes, want_gpu, num_threads);
    if replies.len() > 0 {
        opened_as_requested(bytes, want_gpu, num_threads, replies.drop_last());
        let before = opening_after(start, replies.drop_last());
        opening_stays_well_formed(before, replies.last());
    }
}

/// Replies without end, one after the other.
pub type Replies = spec_fn(nat) -> ReplySpec;

/// The first `n` replies.
pub open spec fn first(replies: Replies, n: nat) -> Seq<ReplySpec> {
    Seq::new(n, |i: int| replies(i as nat))
}

impl OpeningSpec {
    /// The runtime does what it is asked. Where `gpu` is false, nothing is
    /// expected of it while it builds for the GPU.
    pub open spec fn answered_by(self, r: ReplySpec, gpu: bool) -> bool {
        match self {
            OpeningSpec::Working { request, stage } => match stage {
                OpenStageSpec::Environment => r.gave_handle(),
                OpenStageSpec::Model { environment } => r.ok(),
                OpenStageSpec::Metadata { environment, reader } => reader.answered_by(r),
                OpenStageSpec::Build { builder, gpu_error } => builder.gpu && !gpu
                    || builder.answered_by(r),
                OpenStageSpec::DropModel { model, error } => true,
            },
            _ => true,
        }
    }

    /// Nothing has gone wrong so far.
    spec fn sound(self, gpu: bool) -> bool {
        match self {
            OpeningSpec::Working { request, stage } => match stage {
                OpenStageSpec::Metadata { environment, reader } => reader.sound(),
                OpenStageSpec::Build { builder, gpu_error } => {
                    &&& builder.gpu && !gpu || builder.sound()
                    &&& gpu ==> gpu_error is None
                },
                OpenStageSpec::DropModel { model, error } => false,
                _ => true,
            },
            OpeningSpec::Opened { model } => true,
            OpeningSpec::Failed { error } => false,
        }
    }

    spec fn phase(self) -> int {
        match self {
            OpeningSpec::Working { request, stage } => match stage {
                OpenStageSpec::Environment => 5,
                OpenStageSpec::Model { environment } => 4,
                OpenStageSpec::Metadata { environment, reader } => if reader.stage is Count {
                    3
                } else {
                    2
                },
                OpenStageSpec::Build { builder, gpu_error } => if builder.gpu {
                    1
                } else {
                    0
                },
                OpenStageSpec::DropModel { model, error } => 0,
            },
            _ => 0,
        }
    }

    spec fn left(self) -> (int, int, int, int) {
        match self {
            OpeningSpec::Working { request, stage } => match stage {
                OpenStageSpec::Metadata { environment, reader } => (
                    reader.signatures_left(),
                    reader.calls_left(),
                    0,
                    0,
                ),
                OpenStageSpec::Build { builder, gpu_error } => (
                    builder.makes(),
                    builder.options_left(),
                    builder.signatures_left(),
                    builder.calls_left(),
                ),
                _ => (0, 0, 0, 0),
            },
            _ => (0, 0, 0, 0),
        }
    }
}

/// The opening `n` is nearer its end than `s`.
spec fn opening_nearer(n: OpeningSpec, s: OpeningSpec) -> bool {
    let a = n.left();
    let b = s.left();
    &&& n.phase() >= 0
    &&& n.phase() < s.phase() || (n.phase() == s.phase() && a.0 >= 0 && a.1 >= 0 && a.2 >= 0
        && a.3 >= 0 && (a.0 < b.0 || (a.0 == b.0 && (a.1 < b.1 || (a.1 == b.1 && (a.2 < b.2 || (a.2
        == b.2 && a.3 < b.3)))))))
}

proof fn lemma_opening_goes_on(s: OpeningSpec, r: ReplySpec, gpu: bool)
    requires
        s is Working,
        s.well_formed(),
        s.sound(gpu),
        s.answered_by(r, gpu),
    ensures
        s.step(r).sound(gpu),
        s.step(r) is Working ==> opening_nearer(s.step(r), s),
        s.step(r) matches OpeningSpec::Opened { model } ==> s matches OpeningSpec::Working {
            request,
            stage,
        } && (gpu ==> model.on_gpu == request.want_gpu),
{
    match s {
        OpeningSpec::Working { request, stage } => match stage {
            OpenStageSpec::Metadata { environment, reader } => {
                reading_goes_on(reader, r);
            },
            OpenStageSpec::Build { builder, gpu_error } => {
                building_goes_on(builder, r);
            },
            _ => {},
        },
        _ => {},
    }
}

proof fn lemma_opening_ends(
    bytes: Seq<u8>,
    want_gpu: bool,
    num_threads: i32,
    replies: Replies,
    gpu: bool,
    n: nat,
) -> (k: nat)
    requires
        forall|j: nat|
            opening_after(
                OpeningSpec::start(bytes, want_gpu, num_threads),
                first(replies, j),
            ).answered_by(#[trigger] replies(j), gpu),
        opening_after(
            OpeningSpec::start(bytes, want_gpu, num_threads),
            first(replies, n),
        ).sound(gpu),
        opening_after(OpeningSpec::start(bytes, want_gpu, num_threads), first(replies, n)) is Working,
    ensures
        ({
            let start = OpeningSpec::start(bytes, want_gpu, num_threads);
            &&& k > 0
            &&& opening_after(start, first(replies, (k - 1) as nat)) is Working
            &&& opening_after(start, first(replies, k)) matches OpeningSpec::Opened { model } && (
            gpu ==> model.on_gpu == want_gpu)
        }),
    decreases
            opening_after(
                OpeningSpec::start(bytes, want_gpu, num_threads),
                first(replies, n),
            ).phase(),
            opening_after(
                OpeningSpec::start(bytes, want_gpu, num_threads),
                first(replies, n),
            ).left().0,
            opening_after(
                OpeningSpec::start(bytes, want_gpu, num_threads),
                first(replies, n),
            ).left().1,
            opening_after(
                OpeningSpec::start(bytes, want_gpu, num_threads),
                first(replies, n),
            ).left().2,
            opening_after(
                OpeningSpec::start(bytes, want_gpu, num_threads),
                first(replies, n),
            ).left().3,
{
    let start = OpeningSpec::start(bytes, want_gpu, num_threads);
    let s = opening_after(start, first(replies, n));
    let r = replies(n);
    opened_as_requested(bytes, want_gpu, num_threads, first(replies, n));
    assert(first(replies, n + 1).drop_last() =~= first(replies, n));
    assert(first(replies, n + 1).last() == r);
    assert(s.answered_by(r, gpu));
    lemma_opening_goes_on(s, r, gpu);
    assert(opening_after(start, first(replies, n + 1)) == s.step(r));
    if s.step(r) is Working {
        lemma_opening_ends(bytes, want_gpu, num_threads, replies, gpu, n + 1)
    } else {
        n + 1
    }
}

/// A model opens, whatever becomes of the build for the GPU, where the runtime
/// does what it is asked apart from that.
pub proof fn model_opens(bytes: Seq<u8>, want_gpu: bool, num_threads: i32, replies: Replies)
    requires
        forall|n: nat|
            opening_after(
                OpeningSpec::start(bytes, want_gpu, num_threads),
                first(replies, n),
            ).answered_by(#[trigger] replies(n), false),
    ensures
        exists|n: nat|
            n > 0 && opening_after(
                OpeningSpec::start(bytes, want_gpu, num_threads),
                first(replies, (n - 1) as nat),
            ) is Working && #[trigger] opening_after(
                OpeningSpec::start(bytes, want_gpu, num_threads),
                first(replies, n),
            ) is Opened,
{
    assert(first(replies, 0) =~= seq![]);
    let n = lemma_opening_ends(bytes, want_gpu, num_threads, replies, false, 0);
}

/// Where the runtime does all that it is asked, a model opens on the hardware
/// that was wanted.
pub proof fn model_opens_where_wanted(
    bytes: Seq<u8>,
    want_gpu: bool,
    num_threads: i32,
    replies: Replies,
)
    requires
        forall|n: nat|
            opening_after(
                OpeningSpec::start(bytes, want_gpu, num_threads),
                first(replies, n),
            ).answered_by(#[trigger] replies(n), true),
    ensures
        exists|n: nat|
            n > 0 && opening_after(
                OpeningSpec::start(bytes, want_gpu, num_threads),
                first(replies, (n - 1) as nat),
            ) is Working && (#[trigger] opening_after(
                OpeningSpec::start(bytes, want_gpu, num_threads),
                first(replies, n),
            ) matches OpeningSpec::Opened { model } && model.on_gpu == want_gpu),
{
    assert(first(replies, 0) =~= seq![]);
    let n = lemma_opening_ends(bytes, want_gpu, num_threads, replies, true, 0);
}

/// While it builds for the GPU, the runtime does not do what it is asked: reply
/// `k` says so.
pub open spec fn gpu_refused_at(s: OpeningSpec, replies: Seq<ReplySpec>, k: int) -> bool {
    &&& 0 <= k < replies.len()
    &&& opening_after(s, replies.take(k)) matches OpeningSpec::Working {
        request,
        stage: OpenStageSpec::Build { builder, gpu_error },
    } && builder.gpu && !builder.answered_by(replies[k])
}

/// What opens will not be on the GPU.
spec fn off_gpu(s: OpeningSpec) -> bool {
    match s {
        OpeningSpec::Working { request, stage } => match stage {
            OpenStageSpec::Build { builder, gpu_error } => !builder.gpu || !builder.sound(),
            OpenStageSpec::DropModel { model, error } => true,
            _ => false,
        },
        OpeningSpec::Opened { model } => !model.on_gpu,
        OpeningSpec::Failed { error } => true,
    }
}

/// A GPU that does not take a model is not used: the model is built for the CPU
/// instead, whatever else the runtime replies.
pub proof fn refused_gpu_is_not_used(
    bytes: Seq<u8>,
    want_gpu: bool,
    num_threads: i32,
    replies: Seq<ReplySpec>,
    k: int,
)
    requires
        gpu_refused_at(OpeningSpec::start(bytes, want_gpu, num_threads), replies, k),
    ensures
        opening_after(
            OpeningSpec::start(bytes, want_gpu, num_threads),
            replies,
        ) matches OpeningSpec::Opened { model } ==> !model.on_gpu,
{
    lemma_off_gpu(bytes, want_gpu, num_threads, replies, k);
}

proof fn lemma_off_gpu(
    bytes: Seq<u8>,
    want_gpu: bool,
    num_threads: i32,
    replies: Seq<ReplySpec>,
    k: int,
)
    requires
        gpu_refused_at(OpeningSpec::start(bytes, want_gpu, num_threads), replies, k),
    ensures
        off_gpu(opening_after(OpeningSpec::start(bytes, want_gpu, num_threads), replies)),
    decreases replies.len(),
{
    let start = OpeningSpec::start(bytes, want_gpu, num_threads);
    let rest = replies.drop_last();
    let r = replies.last();
    let before = opening_after(start, rest);
    opened_as_requested(bytes, want_gpu, num_threads, rest);
    if k < rest.len() {
        assert(rest.take(k) =~= replies.take(k));
        lemma_off_gpu(bytes, want_gpu, num_threads, rest, k);
    } else {
        assert(replies.take(k) =~= rest);
    }
    match before {
        OpeningSpec::Working { request, stage: OpenStageSpec::Build { builder, gpu_error } } => {
            building_goes_on(builder, r);
        },
        _ => {},
    }
}

/// A model that opens was compiled, last of all, for the hardware that it is on:
/// options were made, the accelerators were set in them, 3 for the GPU with the
/// CPU and 1 for the CPU alone, and the number of threads was handed on where it
/// is above 0; with those options the model was compiled.
pub proof fn models_are_compiled_for_their_hardware(
    bytes: Seq<u8>,
    want_gpu: bool,
    num_threads: i32,
    replies: Seq<ReplySpec>,
) -> (r: (int, int))
    ensures
        ({
            let start = OpeningSpec::start(bytes, want_gpu, num_threads);
            let ev = events_of(start, replies);
            let (b, t) = r;
            opening_after(start, replies) matches OpeningSpec::Opened { model } ==> {
                &&& 2 <= b && b + 2 <= t < ev.len()
                &&& ev[b].call is CreateOptions
                &&& ev[b + 1].call == (Call::SetAccelerators {
                    options: ev[b].reply.handle,
                    accelerators: if model.on_gpu {
                        3
                    } else {
                        1
                    },
                })
                &&& num_threads > 0 ==> ev[b + 2].call == (Call::CreateCpuOptions { num_threads })
                &&& num_threads > 0 && ev[b + 2].reply.status == 0 ==> ev[b + 3].call == (
                Call::AddCpuOptions {
                    options: ev[b].reply.handle,
                    cpu_options: ev[b + 2].reply.handle,
                })
                &&& ev[t].call == (Call::Compile {
                    environment: ev[0].reply.handle,
                    model: model.model,
                    options: ev[b].reply.handle,
                })
                &&& ev[t].reply.status == 0 && ev[t].reply.handle == model.compiled
                &&& num_threads <= 0 ==> t == b + 2
            }
        }),
{
    let start = OpeningSpec::start(bytes, want_gpu, num_threads);
    let (metas, m, b) = lemma_opening_told(bytes, want_gpu, num_threads, replies);
    let ev = events_of(start, replies);
    let t = super::building::compile_at(ev.skip(b), num_threads);
    match opening_after(start, replies) {
        OpeningSpec::Opened { model } => {
            let built = ev.skip(b);
            assert(built[0] == ev[b] && built[1] == ev[b + 1] && built[2] == ev[b + 2]);
            assert(built[t] == ev[b + t]);
            if num_threads > 0 && ev[b + 2].reply.status == 0 {
                assert(built[3] == ev[b + 3]);
            }
        },
        _ => {},
    }
    (b, b + t)
}

/// A GPU that does not compile a model, or makes no buffer for it, is not used:
/// where the runtime refused any of that in a build for the GPU, what opens is on
/// the CPU.
pub proof fn a_gpu_that_refuses_is_not_used(
    bytes: Seq<u8>,
    num_threads: i32,
    replies: Seq<ReplySpec>,
    k: int,
)
    requires
        0 <= k < replies.len(),
        opening_after(
            OpeningSpec::start(bytes, true, num_threads),
            replies.take(k),
        ) matches OpeningSpec::Working {
            request,
            stage: OpenStageSpec::Build { builder, gpu_error },
        } && builder.gpu,
        opening_after(
            OpeningSpec::start(bytes, true, num_threads),
            replies.take(k),
        ).call() matches Some(call) && (call is Compile || call is InputLayout
            || call is OutputLayouts || call is Requirements || call is CreateBuffer),
        replies[k].status != 0,
    ensures
        opening_after(
            OpeningSpec::start(bytes, true, num_threads),
            replies,
        ) matches OpeningSpec::Opened { model } ==> !model.on_gpu,
{
    let start = OpeningSpec::start(bytes, true, num_threads);
    match opening_after(start, replies.take(k)) {
        OpeningSpec::Working { request, stage: OpenStageSpec::Build { builder, gpu_error } } => {
            super::building::builds_are_refused_by_these_calls(builder, replies[k]);
        },
        _ => {},
    }
    assert(gpu_refused_at(start, replies, k));
    refused_gpu_is_not_used(bytes, true, num_threads, replies, k);
}

} // verus!
