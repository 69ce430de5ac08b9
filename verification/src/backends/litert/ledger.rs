//! What an engine holds of the runtime, from the first call that opens it on.

use super::flow::{buffers_held, model_alike, run_keeps_buffers};
use super::memory::buffers_distinct;
use super::opening::{
    file_error, pair_engine, single_engine, EngineCallSpec, EngineOpeningSpec,
    EngineReplySpec, PathsSpec,
};
use super::{release_all, EngineSpec};
use crate::backends::litert_sys::ledger::{
    buffer_resources, held_after, only_destroys, opening_keeps_account, opening_stays_well_formed,
};
use crate::backends::litert_sys::model::{all_buffers, ModelSpec};
use crate::backends::litert_sys::native::{
    created, destroyed, Call, Handle, ReplySpec, Resource,
};
use crate::backends::litert_sys::opening::OpeningSpec;
use crate::{ErrorSpec, Method, Prefer};
use vstd::multiset::Multiset;
use vstd::prelude::*;

verus! {

/// What a list of calls does away with.
pub open spec fn resources_of(calls: Seq<Call>) -> Multiset<Resource> {
    calls.map_values(|c: Call| destroyed(c).unwrap()).to_multiset()
}

/// Every call does away with something.
pub open spec fn all_destroy(calls: Seq<Call>) -> bool {
    forall|i: int| 0 <= i < calls.len() ==> destroyed(#[trigger] calls[i]) is Some
}

/// What a list of models holds.
pub open spec fn models_held(models: Seq<ModelSpec>) -> Multiset<Resource>
    decreases models.len(),
{
    if models.len() == 0 {
        Multiset::empty()
    } else {
        models_held(models.drop_last()).add(models.last().held())
    }
}

impl EngineSpec {
    /// What the engine holds.
    pub open spec fn held(self) -> Multiset<Resource> {
        models_held(self.models)
    }
}

impl EngineOpeningSpec {
    /// What is held while an engine is being opened, and after.
    pub open spec fn held(self) -> Multiset<Resource> {
        match self {
            EngineOpeningSpec::Single { opening } => opening.held(),
            EngineOpeningSpec::ReadEncoder { paths, num_threads } => Multiset::empty(),
            EngineOpeningSpec::OpenEncoder { paths, num_threads, opening } => opening.held(),
            EngineOpeningSpec::ReadDecoder { paths, num_threads, encoder } => encoder.held(),
            EngineOpeningSpec::OpenDecoder { paths, encoder, opening } => opening.held().add(
                encoder.held(),
            ),
            EngineOpeningSpec::Release { calls, next, error } => resources_of(
                calls.skip(next as int),
            ),
            EngineOpeningSpec::Opened { engine } => engine.held(),
            EngineOpeningSpec::Failed { error } => Multiset::empty(),
        }
    }

    /// What is given back after a failure is all there is to do.
    pub open spec fn sound(self) -> bool {
        &&& self.well_formed()
        &&& self matches EngineOpeningSpec::Release { calls, next, error } ==> all_destroy(calls)
    }
}

proof fn lemma_release_calls(m: ModelSpec)
    ensures
        all_destroy(m.release_calls()),
        resources_of(m.release_calls()) == m.held(),
        m.release_calls().len() > 0,
{
    broadcast use vstd::seq_lib::group_to_multiset_ensures;
    broadcast use vstd::multiset::group_multiset_axioms;

    let buffers = all_buffers(m.signatures);
    let as_resources = buffers.map_values(|b: Handle| Resource::Buffer(b));
    let calls = m.release_calls();
    assert(calls.map_values(|c: Call| destroyed(c).unwrap()) =~= as_resources.push(
        Resource::Compiled(m.compiled),
    ).push(Resource::Model(m.model)));
    assert(resources_of(calls) =~= m.held());
}

proof fn lemma_release_both(decoder: ModelSpec, encoder: ModelSpec)
    ensures
        all_destroy(decoder.release_calls() + encoder.release_calls()),
        resources_of(decoder.release_calls() + encoder.release_calls()) == decoder.held().add(
            encoder.held(),
        ),
{
    let d = decoder.release_calls();
    let e = encoder.release_calls();
    lemma_release_calls(decoder);
    lemma_release_calls(encoder);
    let f = |c: Call| destroyed(c).unwrap();
    assert((d + e).map_values(f) =~= d.map_values(f) + e.map_values(f));
    vstd::seq_lib::lemma_multiset_commutative(d.map_values(f), e.map_values(f));
}

proof fn lemma_first_call(calls: Seq<Call>)
    requires
        calls.len() > 0,
        all_destroy(calls),
    ensures
        resources_of(calls).count(destroyed(calls[0]).unwrap()) > 0,
        resources_of(calls).remove(destroyed(calls[0]).unwrap()) == resources_of(
            calls.drop_first(),
        ),
{
    broadcast use vstd::seq_lib::group_to_multiset_ensures;
    broadcast use vstd::multiset::group_multiset_axioms;

    let f = |c: Call| destroyed(c).unwrap();
    let all = calls.map_values(f);
    assert(all.drop_first() =~= calls.drop_first().map_values(f));
    assert(all =~= seq![all[0]] + all.drop_first());
    vstd::seq_lib::lemma_multiset_commutative(seq![all[0]], all.drop_first());
    assert(seq![all[0]] =~= Seq::<Resource>::empty().push(all[0]));
    assert(resources_of(calls).remove(all[0]) =~= resources_of(calls.drop_first()));
}

proof fn lemma_beside(
    before: Multiset<Resource>,
    other: Multiset<Resource>,
    call: Call,
    r: ReplySpec,
)
    requires
        only_destroys(before, call),
    ensures
        held_after(before.add(other), call, r) == held_after(before, call, r).add(other),
        only_destroys(before.add(other), call),
{
    broadcast use vstd::multiset::group_multiset_axioms;

    assert(held_after(before.add(other), call, r) =~= held_after(before, call, r).add(other));
}

proof fn lemma_single_held(model: ModelSpec)
    ensures
        single_engine(model).held() == model.held(),
        single_engine(model).well_formed(),
{
    broadcast use vstd::multiset::group_multiset_axioms;

    let models = single_engine(model).models;
    assert(models.drop_last() =~= seq![]);
    assert(models_held(models.drop_last()) =~= Multiset::<Resource>::empty());
    assert(models_held(models) =~= model.held());
}

proof fn lemma_pair_held(encoder: ModelSpec, decoder: ModelSpec, prefill: usize, step: usize)
    ensures
        pair_engine(encoder, decoder, prefill, step).held() == decoder.held().add(encoder.held()),
        pair_engine(encoder, decoder, prefill, step).well_formed(),
{
    broadcast use vstd::multiset::group_multiset_axioms;

    let models = pair_engine(encoder, decoder, prefill, step).models;
    assert(models.drop_last() =~= seq![encoder]);
    assert(seq![encoder].drop_last() =~= seq![]);
    assert(models_held(seq![encoder].drop_last()) =~= Multiset::<Resource>::empty());
    assert(models_held(seq![encoder]) =~= encoder.held());
    assert(models_held(models) =~= decoder.held().add(encoder.held()));
}

proof fn lemma_given_up(calls: Seq<Call>, error: ErrorSpec)
    requires
        all_destroy(calls),
        calls.len() > 0,
    ensures
        EngineOpeningSpec::give_up(calls, error).sound(),
        EngineOpeningSpec::give_up(calls, error).held() == resources_of(calls),
{
    assert(calls.skip(0) =~= calls);
}

proof fn lemma_with_decoder(paths: PathsSpec, encoder: ModelSpec, decoder: ModelSpec)
    ensures
        EngineOpeningSpec::with_decoder(paths, encoder, decoder).sound(),
        EngineOpeningSpec::with_decoder(paths, encoder, decoder).held() == decoder.held().add(
            encoder.held(),
        ),
{
    lemma_release_both(decoder, encoder);
    lemma_release_calls(decoder);
    let all = decoder.release_calls() + encoder.release_calls();
    match EngineOpeningSpec::with_decoder(paths, encoder, decoder) {
        EngineOpeningSpec::Release { calls, next, error } => {
            lemma_given_up(all, error);
        },
        _ => {
            lemma_pair_held(
                encoder,
                decoder,
                decoder.signature_named(Some("prefill"@)).unwrap(),
                decoder.signature_named(Some("decode"@)).unwrap(),
            );
        },
    }
}

proof fn lemma_given_back(calls: Seq<Call>, next: nat, r: ReplySpec)
    requires
        next < calls.len(),
        all_destroy(calls),
    ensures
        only_destroys(resources_of(calls.skip(next as int)), calls[next as int]),
        held_after(resources_of(calls.skip(next as int)), calls[next as int], r) == resources_of(
            calls.skip(next as int + 1),
        ),
        next + 1 == calls.len() ==> resources_of(calls.skip(next as int + 1)) == Multiset::<
            Resource,
        >::empty(),
{
    broadcast use vstd::seq_lib::group_to_multiset_ensures;
    broadcast use vstd::multiset::group_multiset_axioms;

    let left = calls.skip(next as int);
    assert(left[0] == calls[next as int]);
    assert(all_destroy(left)) by {
        assert forall|i: int| 0 <= i < left.len() implies destroyed(#[trigger] left[i]) is Some by {
            assert(left[i] == calls[next + i]);
        }
    }
    lemma_first_call(left);
    assert(left.drop_first() =~= calls.skip(next as int + 1));
    if next + 1 == calls.len() {
        assert(calls.skip(next as int + 1).map_values(|c: Call| destroyed(c).unwrap()) =~= seq![]);
        assert(resources_of(calls.skip(next as int + 1)) =~= Multiset::<Resource>::empty());
    }
}

/// Every call of an opening engine changes what is held by what the call makes
/// or does away with, and does away with nothing that is not held.
pub proof fn engine_opening_keeps_account(s: EngineOpeningSpec, r: EngineReplySpec)
    requires
        s.sound(),
        s.takes(r),
    ensures
        s.step(r).sound(),
        match (s.call(), r) {
            (Some(EngineCallSpec::Native(call)), EngineReplySpec::Native(reply)) => {
                &&& only_destroys(s.held(), call)
                &&& s.step(r).held() == held_after(s.held(), call, reply)
            },
            _ => s.step(r).held() == s.held(),
        },
{
    match s {
        EngineOpeningSpec::Single { opening } => {
            let reply = r->Native_0;
            opening_keeps_account(opening, reply);
            opening_stays_well_formed(opening, reply);
            if let OpeningSpec::Opened { model } = opening.step(reply) {
                lemma_single_held(model);
            }
        },
        EngineOpeningSpec::OpenEncoder { paths, num_threads, opening } => {
            let reply = r->Native_0;
            opening_keeps_account(opening, reply);
            opening_stays_well_formed(opening, reply);
        },
        EngineOpeningSpec::ReadDecoder { paths, num_threads, encoder } => match r {
            EngineReplySpec::File(Ok(bytes)) => {
                lemma_nothing_beside(encoder.held());
            },
            EngineReplySpec::File(Err(e)) => {
                lemma_release_calls(encoder);
                lemma_given_up(encoder.release_calls(), file_error(paths.decoder, e));
            },
            _ => {},
        },
        EngineOpeningSpec::OpenDecoder { paths, encoder, opening } => {
            let reply = r->Native_0;
            let call = opening.call().unwrap();
            opening_keeps_account(opening, reply);
            opening_stays_well_formed(opening, reply);
            lemma_beside(opening.held(), encoder.held(), call, reply);
            match opening.step(reply) {
                OpeningSpec::Opened { model } => {
                    lemma_with_decoder(paths, encoder, model);
                },
                OpeningSpec::Failed { error } => {
                    lemma_release_calls(encoder);
                    lemma_given_up(encoder.release_calls(), ErrorSpec::Load(error));
                    lemma_nothing_beside(encoder.held());
                },
                _ => {},
            }
        },
        EngineOpeningSpec::Release { calls, next, error } => {
            lemma_given_back(calls, next, r->Native_0);
        },
        _ => {},
    }
}

proof fn lemma_nothing_beside(held: Multiset<Resource>)
    ensures
        Multiset::<Resource>::empty().add(held) == held,
{
    broadcast use vstd::multiset::group_multiset_axioms;

    assert(Multiset::<Resource>::empty().add(held) =~= held);
}

/// An opening after a number of replies, each to what came next.
pub open spec fn engine_after(s: EngineOpeningSpec, replies: Seq<EngineReplySpec>) -> EngineOpeningSpec
    decreases replies.len(),
{
    if replies.len() == 0 {
        s
    } else {
        engine_after(s, replies.drop_last()).step(replies.last())
    }
}

/// Each reply is to what came next.
pub open spec fn replies_fit(s: EngineOpeningSpec, replies: Seq<EngineReplySpec>) -> bool
    decreases replies.len(),
{
    replies.len() == 0 || (replies_fit(s, replies.drop_last()) && engine_after(
        s,
        replies.drop_last(),
    ).takes(replies.last()))
}

/// What the calls of an opening have brought into being and not done away with.
pub open spec fn engine_live_after(s: EngineOpeningSpec, replies: Seq<EngineReplySpec>) -> Multiset<
    Resource,
>
    decreases replies.len(),
{
    if replies.len() == 0 {
        s.held()
    } else {
        let before = engine_live_after(s, replies.drop_last());
        match (engine_after(s, replies.drop_last()).call(), replies.last()) {
            (Some(EngineCallSpec::Native(call)), EngineReplySpec::Native(reply)) => held_after(
                before,
                call,
                reply,
            ),
            _ => before,
        }
    }
}

proof fn lemma_engine_account(s: EngineOpeningSpec, replies: Seq<EngineReplySpec>)
    requires
        s.sound(),
        replies_fit(s, replies),
    ensures
        engine_after(s, replies).sound(),
        engine_live_after(s, replies) == engine_after(s, replies).held(),
    decreases replies.len(),
{
    if replies.len() > 0 {
        lemma_engine_account(s, replies.drop_last());
        engine_opening_keeps_account(engine_after(s, replies.drop_last()), replies.last());
    }
}

/// Whatever the files hold and the runtime replies, what is alive in it is what
/// the opening holds: nothing once it has failed, and the engine's models once
/// it is open. The files of recognition are opened from `paths`, a single model
/// from `bytes`.
pub proof fn engine_opening_leaks_nothing(
    paths: PathsSpec,
    bytes: Seq<u8>,
    prefer: Prefer,
    num_threads: i32,
    of_files: bool,
    replies: Seq<EngineReplySpec>,
)
    requires
        ({
            let start = if of_files {
                EngineOpeningSpec::of_files(paths, num_threads)
            } else {
                EngineOpeningSpec::of_bytes(bytes, prefer, num_threads)
            };
            replies_fit(start, replies)
        }),
    ensures
        ({
            let start = if of_files {
                EngineOpeningSpec::of_files(paths, num_threads)
            } else {
                EngineOpeningSpec::of_bytes(bytes, prefer, num_threads)
            };
            let end = engine_after(start, replies);
            &&& end is Failed ==> engine_live_after(start, replies) == Multiset::<Resource>::empty()
            &&& end matches EngineOpeningSpec::Opened { engine } ==> engine_live_after(
                start,
                replies,
            ) == engine.held()
        }),
{
    let start = if of_files {
        EngineOpeningSpec::of_files(paths, num_threads)
    } else {
        EngineOpeningSpec::of_bytes(bytes, prefer, num_threads)
    };
    lemma_engine_account(start, replies);
}

/// The runtime never gives a buffer that is alive already.
pub open spec fn gives_new_buffers(s: EngineOpeningSpec, replies: Seq<EngineReplySpec>) -> bool
    decreases replies.len(),
{
    replies.len() == 0 || (gives_new_buffers(s, replies.drop_last()) && match (
        engine_after(s, replies.drop_last()).call(),
        replies.last(),
    ) {
        (Some(EngineCallSpec::Native(call)), EngineReplySpec::Native(reply)) => match created(
            call,
            reply,
        ) {
            Some(Resource::Buffer(h)) => engine_live_after(s, replies.drop_last()).count(
                Resource::Buffer(h),
            ) == 0,
            _ => true,
        },
        _ => true,
    })
}

proof fn lemma_buffers_once(s: EngineOpeningSpec, replies: Seq<EngineReplySpec>, h: Handle)
    requires
        s.held() == Multiset::<Resource>::empty(),
        gives_new_buffers(s, replies),
    ensures
        engine_live_after(s, replies).count(Resource::Buffer(h)) <= 1,
    decreases replies.len(),
{
    broadcast use vstd::multiset::group_multiset_axioms;

    if replies.len() > 0 {
        lemma_buffers_once(s, replies.drop_last(), h);
    }
}

/// An engine opens with no buffer in two places, where the runtime never gives a
/// buffer that is alive already.
pub proof fn engine_opens_with_distinct_buffers(
    paths: PathsSpec,
    bytes: Seq<u8>,
    prefer: Prefer,
    num_threads: i32,
    of_files: bool,
    replies: Seq<EngineReplySpec>,
)
    requires
        ({
            let start = if of_files {
                EngineOpeningSpec::of_files(paths, num_threads)
            } else {
                EngineOpeningSpec::of_bytes(bytes, prefer, num_threads)
            };
            replies_fit(start, replies) && gives_new_buffers(start, replies)
        }),
    ensures
        ({
            let start = if of_files {
                EngineOpeningSpec::of_files(paths, num_threads)
            } else {
                EngineOpeningSpec::of_bytes(bytes, prefer, num_threads)
            };
            engine_after(start, replies) matches EngineOpeningSpec::Opened { engine }
                ==> buffers_distinct(engine.models)
        }),
{
    let start = if of_files {
        EngineOpeningSpec::of_files(paths, num_threads)
    } else {
        EngineOpeningSpec::of_bytes(bytes, prefer, num_threads)
    };
    lemma_engine_account(start, replies);
    match engine_after(start, replies) {
        EngineOpeningSpec::Opened { engine } => {
            assert forall|h: Handle| #[trigger] buffers_held(engine.models).count(h) <= 1 by {
                lemma_buffers_once(start, replies, h);
                lemma_count_held(engine.models, Resource::Buffer(h));
            }
        },
        _ => {},
    }
}

/// Releasing an engine does away with what it holds, no less and no more.
pub proof fn release_frees_the_engine(models: Seq<ModelSpec>)
    ensures
        all_destroy(release_all(models)),
        resources_of(release_all(models)) == models_held(models),
    decreases models.len(),
{
    broadcast use vstd::seq_lib::group_to_multiset_ensures;
    broadcast use vstd::multiset::group_multiset_axioms;

    if models.len() == 0 {
        assert(release_all(models).map_values(|c: Call| destroyed(c).unwrap()) =~= seq![]);
        assert(resources_of(release_all(models)) =~= Multiset::<Resource>::empty());
    } else {
        let a = release_all(models.drop_last());
        let b = models.last().release_calls();
        release_frees_the_engine(models.drop_last());
        lemma_release_calls(models.last());
        let f = |c: Call| destroyed(c).unwrap();
        assert((a + b).map_values(f) =~= a.map_values(f) + b.map_values(f));
        vstd::seq_lib::lemma_multiset_commutative(a.map_values(f), b.map_values(f));
    }
}

proof fn lemma_buffer_count(buffers: Seq<Handle>, r: Resource)
    ensures
        buffer_resources(buffers).count(r) == (match r {
            Resource::Buffer(h) => buffers.to_multiset().count(h),
            _ => 0,
        }),
    decreases buffers.len(),
{
    broadcast use vstd::seq_lib::group_to_multiset_ensures;
    broadcast use vstd::multiset::group_multiset_axioms;

    let f = |b: Handle| Resource::Buffer(b);
    if buffers.len() == 0 {
        assert(buffers.map_values(f) =~= seq![]);
        assert(buffers =~= seq![]);
    } else {
        let rest = buffers.drop_last();
        lemma_buffer_count(rest, r);
        assert(buffers =~= rest.push(buffers.last()));
        assert(buffers.map_values(f) =~= rest.map_values(f).push(f(buffers.last())));
    }
}

/// What models hold, counted: a model and a compiled model each, and buffers.
spec fn count_held(models: Seq<ModelSpec>, r: Resource) -> nat
    decreases models.len(),
{
    match r {
        Resource::Buffer(h) => buffers_held(models).count(h),
        Resource::Options(h) => 0,
        _ => if models.len() == 0 {
            0
        } else {
            count_held(models.drop_last(), r) + (if r == Resource::Model(models.last().model) || r
                == Resource::Compiled(models.last().compiled) {
                1nat
            } else {
                0
            })
        },
    }
}

proof fn lemma_count_held(models: Seq<ModelSpec>, r: Resource)
    ensures
        models_held(models).count(r) == count_held(models, r),
    decreases models.len(),
{
    broadcast use vstd::multiset::group_multiset_axioms;

    if models.len() > 0 {
        lemma_count_held(models.drop_last(), r);
        lemma_buffer_count(all_buffers(models.last().signatures), r);
    }
}

proof fn lemma_alike_count(a: Seq<ModelSpec>, b: Seq<ModelSpec>, r: Resource)
    requires
        a.len() == b.len(),
        forall|k: int|
            0 <= k < a.len() ==> (#[trigger] a[k]).model == b[k].model && a[k].compiled
                == b[k].compiled,
        r is Model || r is Compiled,
    ensures
        count_held(a, r) == count_held(b, r),
    decreases a.len(),
{
    if a.len() > 0 {
        let x = a.drop_last();
        let y = b.drop_last();
        assert forall|k: int| 0 <= k < x.len() implies (#[trigger] x[k]).model == y[k].model
            && x[k].compiled == y[k].compiled by {
            assert(a[k].model == b[k].model);
        }
        lemma_alike_count(x, y, r);
        assert(a[a.len() - 1].model == b[b.len() - 1].model);
    }
}

/// A run changes nothing of what the engine holds, so that releasing it frees
/// everything once, however often it has run.
pub proof fn run_keeps_what_is_held(e: EngineSpec, method: Method)
    requires
        e.well_formed(),
        e.links_usable(),
        e.routes.at(method) is Some,
    ensures
        e.finished(method).held() == e.held(),
{
    run_keeps_buffers(e, method);
    let a = e.models;
    let b = e.finished(method).models;
    assert forall|k: int| 0 <= k < a.len() implies (#[trigger] a[k]).model == b[k].model
        && a[k].compiled == b[k].compiled by {
        assert(model_alike(a[k], b[k]));
    }
    assert forall|r: Resource| #[trigger] models_held(b).count(r) == models_held(a).count(r) by {
        lemma_count_held(a, r);
        lemma_count_held(b, r);
        if r is Model || r is Compiled {
            lemma_alike_count(a, b, r);
        }
    }
    assert(models_held(b) =~= models_held(a));
}

} // verus!
