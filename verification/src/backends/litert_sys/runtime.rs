//! What opening a model does on a runtime.
//!
//! A runtime answers calls, and each answer depends on what the call names. Here
//! it sees nothing of an opening but its calls.

use super::building::{
    buffer_told, gives_buffer, gives_input_shape, gives_output_shape, input_shape_told, input_told,
    output_shape_told, output_told, signature_told,
};
use super::layout::{compact_layout, LiteRtLayout, LiteRtRankedTensorType};
use super::ledger::opening_after;
use super::metadata::MetaSpec;
use super::model::{ModelSpec, SlotSpec};
use super::native::{Call, Event, Handle, ReplySpec, Side};
use super::opening::OpeningSpec;
use super::order::{argument_order, order_of, texts};
use super::outcome::{
    events_of, first, model_holds_what_the_runtime_gave, model_opens_where_wanted, model_told,
    opened_as_requested, Replies,
};
use super::reading::{meta_told, metas_told, name_told, names_in, type_told};
use vstd::prelude::*;

verus! {

/// A runtime that does what it is asked: what each call gives, by what the call
/// names.
pub struct Runtime {
    pub environment: Handle,
    /// The model made in an environment.
    pub model: spec_fn(Handle) -> Handle,
    /// How many signatures a model has.
    pub signatures: spec_fn(Handle) -> usize,
    /// A signature of a model.
    pub signature: spec_fn(Handle, usize) -> Handle,
    /// The key of a signature.
    pub key: spec_fn(Handle) -> Seq<char>,
    /// How many inputs or outputs a signature has.
    pub arguments: spec_fn(Handle, Side) -> usize,
    /// The tensor behind one of them.
    pub tensor: spec_fn(Handle, Side, usize) -> Handle,
    /// The element type of a tensor.
    pub element_type: spec_fn(Handle) -> i32,
    /// The name of an argument, where it has one.
    pub name: spec_fn(Handle, Side, usize) -> Option<Seq<char>>,
    pub options: Handle,
    /// What compiling gives for an environment, a model and options.
    pub compiled: spec_fn(Handle, Handle, Handle) -> Handle,
    /// The layout of an input of a signature of a compiled model.
    pub input_layout: spec_fn(Handle, usize, usize) -> LiteRtLayout,
    /// The layouts of so many outputs.
    pub output_layouts: spec_fn(Handle, usize, usize) -> Seq<LiteRtLayout>,
    /// What the buffer of an argument has to be like.
    pub requirements: spec_fn(Handle, usize, Side, usize) -> Handle,
    /// The buffer made in an environment for a tensor like that.
    pub buffer: spec_fn(Handle, LiteRtRankedTensorType, Handle) -> Handle,
}

impl Runtime {
    /// What a call gives back.
    pub open spec fn answer(self, call: Call) -> ReplySpec {
        let ok = ReplySpec {
            status: 0,
            handle: 0,
            count: 0,
            text: None,
            element_type: 0,
            layouts: seq![],
            bytes: seq![],
        };
        match call {
            Call::Environment => ReplySpec { handle: self.environment, ..ok },
            Call::CreateModel { environment } => ReplySpec {
                handle: (self.model)(environment),
                ..ok
            },
            Call::CountSignatures { model } => ReplySpec { count: (self.signatures)(model), ..ok },
            Call::Signature { model, index } => ReplySpec {
                handle: (self.signature)(model, index),
                ..ok
            },
            Call::SignatureKey { signature } => ReplySpec {
                text: Some((self.key)(signature)),
                ..ok
            },
            Call::CountArguments { signature, side } => ReplySpec {
                count: (self.arguments)(signature, side),
                ..ok
            },
            Call::Argument { signature, side, index } => ReplySpec {
                handle: (self.tensor)(signature, side, index),
                ..ok
            },
            Call::ArgumentType { tensor } => ReplySpec {
                element_type: (self.element_type)(tensor),
                ..ok
            },
            Call::ArgumentName { signature, side, index } => ReplySpec {
                text: (self.name)(signature, side, index),
                ..ok
            },
            Call::CreateOptions => ReplySpec { handle: self.options, ..ok },
            Call::Compile { environment, model, options } => ReplySpec {
                handle: (self.compiled)(environment, model, options),
                ..ok
            },
            Call::InputLayout { compiled, sig, index } => ReplySpec {
                layouts: seq![(self.input_layout)(compiled, sig, index)],
                ..ok
            },
            Call::OutputLayouts { compiled, sig, count } => ReplySpec {
                layouts: (self.output_layouts)(compiled, sig, count),
                ..ok
            },
            Call::Requirements { compiled, sig, side, index } => ReplySpec {
                handle: (self.requirements)(compiled, sig, side, index),
                ..ok
            },
            Call::CreateBuffer { environment, tensor_type, requirements } => ReplySpec {
                handle: (self.buffer)(environment, tensor_type, requirements),
                ..ok
            },
            _ => ok,
        }
    }

    /// An opening after `n` calls.
    pub open spec fn opens(self, s: OpeningSpec, n: nat) -> OpeningSpec
        decreases n,
    {
        if n == 0 {
            s
        } else {
            let before = self.opens(s, (n - 1) as nat);
            match before.call() {
                Some(call) => before.step(self.answer(call)),
                None => before,
            }
        }
    }

    /// What the runtime answers, one call after the other.
    spec fn replies(self, s: OpeningSpec) -> Replies {
        |n: nat|
            match self.opens(s, n).call() {
                Some(call) => self.answer(call),
                None => self.answer(Call::Environment),
            }
    }
}

/// The runtime said this.
spec fn all_answered(rt: Runtime, ev: Seq<Event>) -> bool {
    forall|t: int| 0 <= t < ev.len() ==> (#[trigger] ev[t]).reply == rt.answer(ev[t].call)
}

proof fn lemma_same_opening(rt: Runtime, s: OpeningSpec, n: nat)
    ensures
        opening_after(s, first(rt.replies(s), n)) == rt.opens(s, n),
        all_answered(rt, events_of(s, first(rt.replies(s), n))),
    decreases n,
{
    let all = first(rt.replies(s), n);
    if n > 0 {
        lemma_same_opening(rt, s, (n - 1) as nat);
        assert(all.drop_last() =~= first(rt.replies(s), (n - 1) as nat));
        assert(all.last() == (rt.replies(s))((n - 1) as nat));
    }
}

proof fn lemma_all_given(
    rt: Runtime,
    bytes: Seq<u8>,
    want_gpu: bool,
    num_threads: i32,
) -> (r: (nat, ModelSpec, Seq<Event>, Seq<MetaSpec>, int, int))
    requires
        rt.environment != 0,
        forall|m: Handle| #[trigger] (rt.signatures)(m) > 0,
        forall|c: Handle, s: usize, side: Side, i: usize| #[trigger]
            (rt.requirements)(c, s, side, i) != 0,
        forall|e: Handle, t: LiteRtRankedTensorType, q: Handle| #[trigger]
            (rt.buffer)(e, t, q) != 0,
    ensures
        rt.opens(OpeningSpec::start(bytes, want_gpu, num_threads), r.0) == (OpeningSpec::Opened {
            model: r.1,
        }),
        r.1.on_gpu == want_gpu,
        r.1.bytes == bytes,
        all_answered(rt, r.2),
        model_told(r.2, num_threads, r.3, r.4, r.5, r.1),
{
    let start = OpeningSpec::start(bytes, want_gpu, num_threads);
    let replies = rt.replies(start);
    assert forall|n: nat|
        opening_after(start, first(replies, n)).answered_by(#[trigger] replies(n), true) by {
        lemma_same_opening(rt, start, n);
    }
    model_opens_where_wanted(bytes, want_gpu, num_threads, replies);
    let n = choose|n: nat|
        n > 0 && opening_after(start, first(replies, (n - 1) as nat)) is Working && (
        #[trigger] opening_after(start, first(replies, n)) matches OpeningSpec::Opened { model }
            && model.on_gpu == want_gpu);
    lemma_same_opening(rt, start, n);
    opened_as_requested(bytes, want_gpu, num_threads, first(replies, n));
    model_holds_what_the_runtime_gave(bytes, want_gpu, num_threads, first(replies, n));
    let model = opening_after(start, first(replies, n))->model;
    let ev = events_of(start, first(replies, n));
    let (metas, m, b) = choose|metas: Seq<MetaSpec>, m: int, b: int| #[trigger]
        model_told(ev, num_threads, metas, m, b, model) && (b == m) == (model.on_gpu == want_gpu);
    (n, model, ev, metas, m, b)
}

/// The events of one signature are some of the events.
proof fn lemma_one_meta(
    ev: Seq<Event>,
    model: Handle,
    total: nat,
    metas: Seq<MetaSpec>,
    i: int,
) -> (r: (int, int))
    requires
        metas_told(ev, model, total, metas),
        0 <= i < metas.len(),
    ensures
        0 <= r.0 <= r.1 <= ev.len(),
        meta_told(ev.subrange(r.0, r.1), model, i, metas[i]),
    decreases metas.len(),
{
    let a = choose|a: int|
        0 <= a <= ev.len() && metas_told(ev.take(a), model, total, metas.drop_last()) && meta_told(
            #[trigger] ev.skip(a),
            model,
            metas.len() - 1,
            metas.last(),
        );
    if i == metas.len() - 1 {
        assert(ev.subrange(a, ev.len() as int) =~= ev.skip(a));
        (a, ev.len() as int)
    } else {
        let (x, y) = lemma_one_meta(ev.take(a), model, total, metas.drop_last(), i);
        assert(ev.take(a).subrange(x, y) =~= ev.subrange(x, y));
        (x, y)
    }
}

/// The number of signatures is the first thing that is read.
proof fn lemma_count_told(ev: Seq<Event>, model: Handle, total: nat, metas: Seq<MetaSpec>)
    requires
        metas_told(ev, model, total, metas),
    ensures
        ev.len() > 0,
        ev[0].call == (Call::CountSignatures { model }),
        ev[0].reply.count == total,
    decreases metas.len(),
{
    if metas.len() > 0 {
        let a = choose|a: int|
            0 <= a <= ev.len() && metas_told(ev.take(a), model, total, metas.drop_last())
                && meta_told(#[trigger] ev.skip(a), model, metas.len() - 1, metas.last());
        lemma_count_told(ev.take(a), model, total, metas.drop_last());
        assert(ev.take(a)[0] == ev[0]);
    }
}

/// What a runtime says of an argument: its name, or nothing.
pub open spec fn argument_name(rt: Runtime, h: Handle, side: Side, k: usize) -> Seq<char> {
    match (rt.name)(h, side, k) {
        Some(t) => t,
        None => seq![],
    }
}

proof fn lemma_meta_given(rt: Runtime, ev: Seq<Event>, model: Handle, i: int, meta: MetaSpec)
    requires
        all_answered(rt, ev),
        meta_told(ev, model, i, meta),
        0 <= i <= usize::MAX,
    ensures
        ({
            let h = (rt.signature)(model, i as usize);
            let n_in = (rt.arguments)(h, Side::Input);
            let n_out = (rt.arguments)(h, Side::Output);
            &&& meta.key == (rt.key)(h)
            &&& meta.input_types.len() == n_in
            &&& meta.output_types.len() == n_out
            &&& forall|k: int|
                0 <= k < n_in ==> #[trigger] meta.input_types[k] == (rt.element_type)(
                    (rt.tensor)(h, Side::Input, k as usize),
                )
            &&& forall|k: int|
                0 <= k < n_out ==> #[trigger] meta.output_types[k] == (rt.element_type)(
                    (rt.tensor)(h, Side::Output, k as usize),
                )
            &&& meta.input_order == order_of(
                Seq::new(n_in as nat, |k: int| argument_name(rt, h, Side::Input, k as usize)),
            )
            &&& meta.output_order == order_of(
                Seq::new(n_out as nat, |k: int| argument_name(rt, h, Side::Output, k as usize)),
            )
        }),
{
    let h = (rt.signature)(model, i as usize);
    let n_in = meta.input_types.len() as int;
    let n_out = meta.output_types.len() as int;
    let names = 4 + 2 * (n_in + n_out);
    assert(ev[0].reply == rt.answer(ev[0].call));
    assert(ev[1].reply == rt.answer(ev[1].call));
    assert(ev[2].reply == rt.answer(ev[2].call));
    assert(ev[3].reply == rt.answer(ev[3].call));
    assert(n_in == (rt.arguments)(h, Side::Input));
    assert(n_out == (rt.arguments)(h, Side::Output));
    assert forall|k: int| 0 <= k < n_in implies #[trigger] meta.input_types[k] == (
    rt.element_type)((rt.tensor)(h, Side::Input, k as usize)) by {
        assert(type_told(ev, 4, h, Side::Input, k, meta.input_types[k]));
        let t = 4 + 2 * k;
        assert(ev[t].reply == rt.answer(ev[t].call));
        assert(ev[t + 1].reply == rt.answer(ev[t + 1].call));
    }
    assert forall|k: int| 0 <= k < n_out implies #[trigger] meta.output_types[k] == (
    rt.element_type)((rt.tensor)(h, Side::Output, k as usize)) by {
        assert(type_told(ev, 4 + 2 * n_in, h, Side::Output, k, meta.output_types[k]));
        let t = 4 + 2 * n_in + 2 * k;
        assert(ev[t].reply == rt.answer(ev[t].call));
        assert(ev[t + 1].reply == rt.answer(ev[t + 1].call));
    }
    let input_names = names_in(ev, names, n_in as nat);
    let output_names = names_in(ev, names + n_in, n_out as nat);
    assert forall|k: int| 0 <= k < n_in implies #[trigger] input_names[k] == argument_name(
        rt,
        h,
        Side::Input,
        k as usize,
    ) by {
        assert(name_told(ev, names, h, Side::Input, k, input_names[k]));
        assert(ev[names + k].reply == rt.answer(ev[names + k].call));
    }
    assert forall|k: int| 0 <= k < n_out implies #[trigger] output_names[k] == argument_name(
        rt,
        h,
        Side::Output,
        k as usize,
    ) by {
        assert(name_told(ev, names + n_in, h, Side::Output, k, output_names[k]));
        assert(ev[names + n_in + k].reply == rt.answer(ev[names + n_in + k].call));
    }
    assert(input_names =~= Seq::new(
        n_in as nat,
        |k: int| argument_name(rt, h, Side::Input, k as usize),
    ));
    assert(output_names =~= Seq::new(
        n_out as nat,
        |k: int| argument_name(rt, h, Side::Output, k as usize),
    ));
}

proof fn lemma_input_given(
    rt: Runtime,
    ev: Seq<Event>,
    environment: Handle,
    compiled: Handle,
    i: int,
    meta: MetaSpec,
    k: int,
    slot: SlotSpec,
)
    requires
        all_answered(rt, ev),
        input_told(ev, environment, compiled, i, meta, k, slot),
    ensures
        slot.element_type == meta.input_types[k],
        slot.shape == (rt.input_layout)(compiled, i as usize, k as usize).shape(),
        slot.buffer == (rt.buffer)(
            environment,
            LiteRtRankedTensorType {
                element_type: slot.element_type,
                layout: compact_layout(slot.shape),
            },
            (rt.requirements)(compiled, i as usize, Side::Input, k as usize),
        ),
{
    assert(input_shape_told(ev, compiled, i, k, slot.shape));
    let t = choose|t: int|
        0 <= t < ev.len() && gives_input_shape(#[trigger] ev[t], compiled, i, k, slot.shape);
    assert(ev[t].reply == rt.answer(ev[t].call));
    let ty = super::building::tensor_type_of(slot.element_type, slot.shape);
    assert(buffer_told(ev, environment, compiled, i, Side::Input, k, ty, slot.buffer));
    let u = choose|u: int|
        0 <= u < ev.len() - 1 && gives_buffer(
            #[trigger] ev[u],
            ev[u + 1],
            environment,
            compiled,
            i,
            Side::Input,
            k,
            ty,
            slot.buffer,
        );
    assert(ev[u].reply == rt.answer(ev[u].call));
    assert(ev[u + 1].reply == rt.answer(ev[u + 1].call));
}

proof fn lemma_output_given(
    rt: Runtime,
    ev: Seq<Event>,
    environment: Handle,
    compiled: Handle,
    i: int,
    meta: MetaSpec,
    k: int,
    slot: SlotSpec,
)
    requires
        all_answered(rt, ev),
        output_told(ev, environment, compiled, i, meta, k, slot),
    ensures
        slot.element_type == meta.output_types[k],
        ({
            let layouts = (rt.output_layouts)(
                compiled,
                i as usize,
                meta.output_types.len() as usize,
            );
            slot.shape == (if k < layouts.len() {
                layouts[k].shape()
            } else {
                seq![]
            })
        }),
        slot.buffer == (rt.buffer)(
            environment,
            LiteRtRankedTensorType {
                element_type: slot.element_type,
                layout: compact_layout(slot.shape),
            },
            (rt.requirements)(compiled, i as usize, Side::Output, k as usize),
        ),
{
    assert(output_shape_told(ev, compiled, i, meta.output_types.len(), k, slot.shape));
    let t = choose|t: int|
        0 <= t < ev.len() && gives_output_shape(
            #[trigger] ev[t],
            compiled,
            i,
            meta.output_types.len(),
            k,
            slot.shape,
        );
    assert(ev[t].reply == rt.answer(ev[t].call));
    let ty = super::building::tensor_type_of(slot.element_type, slot.shape);
    assert(buffer_told(ev, environment, compiled, i, Side::Output, k, ty, slot.buffer));
    let u = choose|u: int|
        0 <= u < ev.len() - 1 && gives_buffer(
            #[trigger] ev[u],
            ev[u + 1],
            environment,
            compiled,
            i,
            Side::Output,
            k,
            ty,
            slot.buffer,
        );
    assert(ev[u].reply == rt.answer(ev[u].call));
    assert(ev[u + 1].reply == rt.answer(ev[u + 1].call));
}

/// A runtime that does what it is asked opens the model, on the hardware that was
/// wanted, and the model is as the runtime says.
///
/// It has every signature of the model, each in its place and under its key. Each
/// signature has every input and every output: in place `j` the argument that
/// [`argument_order`] puts there, going by the names that the runtime gives the
/// arguments, an argument without a name having the empty one. That slot has the
/// argument's own element type, the shape that compiling gave it, and the buffer
/// that was made for it.
pub proof fn a_runtime_opens_the_model(
    rt: Runtime,
    bytes: Seq<u8>,
    want_gpu: bool,
    num_threads: i32,
    i: usize,
    side: Side,
    names: Vec<String>,
    order: Vec<usize>,
    j: int,
) -> (n: nat)
    requires
        rt.environment != 0,
        forall|m: Handle| #[trigger] (rt.signatures)(m) > 0,
        forall|c: Handle, s: usize, side: Side, i: usize| #[trigger]
            (rt.requirements)(c, s, side, i) != 0,
        forall|e: Handle, t: LiteRtRankedTensorType, q: Handle| #[trigger]
            (rt.buffer)(e, t, q) != 0,
        i < (rt.signatures)((rt.model)(rt.environment)),
        ({
            let h = (rt.signature)((rt.model)(rt.environment), i);
            &&& names@.len() == (rt.arguments)(h, side)
            &&& forall|k: int|
                0 <= k < names@.len() ==> (#[trigger] names@[k])@ == (match (rt.name)(
                    h,
                    side,
                    k as usize,
                ) {
                    Some(t) => t,
                    None => seq![],
                })
        }),
        call_ensures(argument_order, (&names,), order),
        0 <= j < names@.len(),
    ensures
        ({
            let m = (rt.model)(rt.environment);
            let c = (rt.compiled)(rt.environment, m, rt.options);
            let h = (rt.signature)(m, i);
            let k = order@[j];
            rt.opens(OpeningSpec::start(bytes, want_gpu, num_threads), n) matches
                OpeningSpec::Opened { model } && {
                let sig = model.signatures[i as int];
                let slot = if side is Input {
                    sig.inputs[j]
                } else {
                    sig.outputs[j]
                };
                &&& model.bytes == bytes && model.on_gpu == want_gpu && model.model == m
                    && model.compiled == c
                &&& model.signatures.len() == (rt.signatures)(m)
                &&& sig.key == (rt.key)(h)
                &&& sig.inputs.len() == (rt.arguments)(h, Side::Input)
                &&& sig.outputs.len() == (rt.arguments)(h, Side::Output)
                &&& slot.element_type == (rt.element_type)((rt.tensor)(h, side, k))
                &&& side is Input ==> slot.shape == (rt.input_layout)(c, i, k).shape()
                &&& side is Output && k < (rt.output_layouts)(
                    c,
                    i,
                    (rt.arguments)(h, Side::Output),
                ).len() ==> slot.shape == (rt.output_layouts)(
                    c,
                    i,
                    (rt.arguments)(h, Side::Output),
                )[k as int].shape()
                &&& slot.buffer == (rt.buffer)(
                    rt.environment,
                    LiteRtRankedTensorType {
                        element_type: slot.element_type,
                        layout: compact_layout(slot.shape),
                    },
                    (rt.requirements)(c, i, side, k),
                )
            }
        }),
{
    let (n, model, ev, metas, m, b) = lemma_all_given(rt, bytes, want_gpu, num_threads);
    let read = ev.subrange(2, m);
    let built = ev.skip(b);
    assert(ev[0].reply == rt.answer(ev[0].call));
    assert(ev[1].reply == rt.answer(ev[1].call));
    lemma_part_answered(rt, ev, 2, m);
    lemma_part_answered(rt, ev, b, ev.len() as int);
    assert(ev.subrange(b, ev.len() as int) =~= built);
    lemma_count_told(read, model.model, metas.len(), metas);
    assert(read[0].reply == rt.answer(read[0].call));
    assert(metas.len() == (rt.signatures)(model.model));
    let meta = metas[i as int];
    let (x, y) = lemma_one_meta(read, model.model, metas.len(), metas, i as int);
    lemma_part_answered(rt, read, x, y);
    lemma_meta_given(rt, read.subrange(x, y), model.model, i as int, meta);
    let t = super::building::compile_at(built, num_threads);
    assert(built[0].reply == rt.answer(built[0].call));
    assert(built[t].reply == rt.answer(built[t].call));
    let sig = model.signatures[i as int];
    let c = model.compiled;
    assert(signature_told(built, rt.environment, c, i as int, meta, sig));
    let h = (rt.signature)(model.model, i);
    lemma_order_lengths(rt, h, meta);
    let said = Seq::new(
        names@.len(),
        |k: int| argument_name(rt, h, side, k as usize),
    );
    assert(texts(names@) =~= said);
    assert(names.len() == names@.len());
    super::order::order_permutes(texts(names@), order@);
    let k = order@[j] as int;
    assert(order@[j] < names@.len());
    if side is Input {
        assert(meta.input_order == order@);
        assert(input_told(built, rt.environment, c, i as int, meta, k, sig.inputs[j]));
        lemma_input_given(rt, built, rt.environment, c, i as int, meta, k, sig.inputs[j]);
    } else {
        assert(meta.output_order == order@);
        assert(output_told(built, rt.environment, c, i as int, meta, k, sig.outputs[j]));
        lemma_output_given(rt, built, rt.environment, c, i as int, meta, k, sig.outputs[j]);
    }
    n
}

proof fn lemma_order_lengths(rt: Runtime, h: Handle, meta: MetaSpec)
    requires
        meta.input_order == order_of(
            Seq::new(
                (rt.arguments)(h, Side::Input) as nat,
                |k: int| argument_name(rt, h, Side::Input, k as usize),
            ),
        ),
        meta.output_order == order_of(
            Seq::new(
                (rt.arguments)(h, Side::Output) as nat,
                |k: int| argument_name(rt, h, Side::Output, k as usize),
            ),
        ),
    ensures
        meta.input_order.len() == (rt.arguments)(h, Side::Input),
        meta.output_order.len() == (rt.arguments)(h, Side::Output),
{
    super::order::order_exists(
        Seq::new(
            (rt.arguments)(h, Side::Input) as nat,
            |k: int| argument_name(rt, h, Side::Input, k as usize),
        ),
    );
    super::order::order_exists(
        Seq::new(
            (rt.arguments)(h, Side::Output) as nat,
            |k: int| argument_name(rt, h, Side::Output, k as usize),
        ),
    );
}

proof fn lemma_part_answered(rt: Runtime, ev: Seq<Event>, x: int, y: int)
    requires
        all_answered(rt, ev),
        0 <= x <= y <= ev.len(),
    ensures
        all_answered(rt, ev.subrange(x, y)),
{
    let part = ev.subrange(x, y);
    assert forall|t: int| 0 <= t < part.len() implies (#[trigger] part[t]).reply == rt.answer(
        part[t].call,
    ) by {
        assert(ev[x + t].reply == rt.answer(ev[x + t].call));
    }
}

} // verus!
