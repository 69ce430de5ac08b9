//! What holds of an engine however it has been used.

use super::flow::{
    alike, lemma_alike_is_transitive, links_stay_usable, model_alike, models_alike,
    moves_change_buffers_alone, run_keeps_buffers,
};
use super::memory::{buffers_distinct, buffers_stay_distinct};
use super::replies::{run_returns_every_output, running_after, stands_for};
use super::run::RunningSpec;
use super::EngineSpec;
use crate::backends::litert_sys::native::ReplySpec;
use crate::tensor::{zero_tensor, TensorSpec};
use crate::{DType, Method};
use vstd::prelude::*;

verus! {

/// Something that is done with an open engine.
pub enum Use {
    /// `feed_output_back`
    FeedBack { method: Method, out_index: usize, in_index: usize },
    /// `pipe_output`
    Pipe { from: Method, out_index: usize, to: Method, in_index: usize },
    /// `run`, which ends well or not
    Run { method: Method, well: bool },
}

impl EngineSpec {
    /// The engine after it has been used.
    pub open spec fn after_use(self, u: Use) -> EngineSpec {
        match u {
            Use::FeedBack { method, out_index, in_index } => if self.can_feed_back(
                method,
                out_index,
                in_index,
            ) {
                self.fed_back(method, out_index, in_index)
            } else {
                self
            },
            Use::Pipe { from, out_index, to, in_index } => if self.can_pipe(
                from,
                out_index,
                to,
                in_index,
            ) {
                self.piped(from, out_index, to, in_index)
            } else {
                self
            },
            Use::Run { method, well } => if well && self.routes.at(method) is Some {
                self.after_run(method)
            } else {
                self.started(method)
            },
        }
    }

    /// The engine after it has been used a number of times.
    pub open spec fn after_uses(self, uses: Seq<Use>) -> EngineSpec
        decreases uses.len(),
    {
        if uses.len() == 0 {
            self
        } else {
            self.after_uses(uses.drop_last()).after_use(uses.last())
        }
    }
}

proof fn lemma_one_use(e: EngineSpec, u: Use)
    requires
        e.well_formed(),
        e.links_usable(),
    ensures
        ({
            let f = e.after_use(u);
            &&& f.well_formed() && f.links_usable()
            &&& f.routes == e.routes
            &&& models_alike(e.models, f.models)
            &&& buffers_distinct(e.models) ==> buffers_distinct(f.models)
        }),
{
    moves_change_buffers_alone(e.models, seq![]);
    match u {
        Use::FeedBack { method, out_index, in_index } => {
            links_stay_usable(e, method);
        },
        Use::Pipe { from, out_index, to, in_index } => {
            links_stay_usable(e, from);
        },
        Use::Run { method, well } => {
            links_stay_usable(e, method);
            if well && e.routes.at(method) is Some {
                links_stay_usable(e.started(method), method);
                run_keeps_buffers(e.started(method), method);
                if buffers_distinct(e.models) {
                    buffers_stay_distinct(e, method);
                }
            }
        },
    }
}

/// However an engine is used, it stays in order: its routes lead to models, its
/// links can be followed, its models are what they were but for their buffers,
/// and no buffer comes to be in two places.
pub proof fn used_engine_stays_in_order(e: EngineSpec, uses: Seq<Use>)
    requires
        e.well_formed(),
        e.links_usable(),
    ensures
        ({
            let f = e.after_uses(uses);
            &&& f.well_formed() && f.links_usable()
            &&& f.routes == e.routes
            &&& models_alike(e.models, f.models)
            &&& buffers_distinct(e.models) ==> buffers_distinct(f.models)
        }),
    decreases uses.len(),
{
    if uses.len() == 0 {
        moves_change_buffers_alone(e.models, seq![]);
    } else {
        let before = e.after_uses(uses.drop_last());
        used_engine_stays_in_order(e, uses.drop_last());
        lemma_one_use(before, uses.last());
        lemma_alike_is_transitive(
            e.models,
            before.models,
            before.after_use(uses.last()).models,
        );
    }
}

proof fn lemma_still_held(e: EngineSpec, u: Use, method: Method, o: int)
    requires
        e.holds(method, o),
    ensures
        e.after_use(u).holds(method, o),
{
    let f = e.after_use(u);
    if exists|k: int|
        0 <= k < e.pipes.len() && (#[trigger] e.pipes[k]).0 == method && e.pipes[k].1 == o {
        let k = choose|k: int|
            0 <= k < e.pipes.len() && (#[trigger] e.pipes[k]).0 == method && e.pipes[k].1 == o;
        assert(f.pipes[k] == e.pipes[k]);
    } else {
        let k = choose|k: int|
            0 <= k < e.feedback.at(method).len() && (#[trigger] e.feedback.at(method)[k]).0 == o;
        assert(f.feedback.at(method)[k] == e.feedback.at(method)[k]);
    }
}

proof fn lemma_held_for_good(e: EngineSpec, uses: Seq<Use>, method: Method, o: int)
    requires
        e.holds(method, o),
    ensures
        e.after_uses(uses).holds(method, o),
    decreases uses.len(),
{
    if uses.len() > 0 {
        lemma_held_for_good(e, uses.drop_last(), method, o);
        lemma_still_held(e.after_uses(uses.drop_last()), uses.last(), method, o);
    }
}

/// An output that is fed back or piped is held.
proof fn lemma_registered_is_held(
    e: EngineSpec,
    method: Method,
    out_index: usize,
    to: Method,
    in_index: usize,
)
    ensures
        e.fed_back(method, out_index, in_index).holds(method, out_index as int),
        e.piped(method, out_index, to, in_index).holds(method, out_index as int),
{
    let pair = (out_index, in_index);
    let f = e.fed_back(method, out_index, in_index);
    let pairs = f.feedback.at(method);
    assert(pairs.contains(pair)) by {
        if !e.feedback.at(method).contains(pair) {
            assert(pairs[e.feedback.at(method).len() as int] == pair);
        }
    }
    let k = choose|k: int| 0 <= k < pairs.len() && pairs[k] == pair;
    assert(f.feedback.at(method)[k].0 == out_index);
    let entry = (method, out_index, to, in_index);
    let g = e.piped(method, out_index, to, in_index);
    assert(g.pipes.contains(entry)) by {
        if !e.pipes.contains(entry) {
            assert(g.pipes[e.pipes.len() as int] == entry);
        }
    }
    let j = choose|j: int| 0 <= j < g.pipes.len() && g.pipes[j] == entry;
    assert(g.pipes[j].0 == method && g.pipes[j].1 == out_index);
}

/// The tensor in the place of an output that is not returned.
pub open spec fn empty_tensor() -> TensorSpec {
    zero_tensor(seq![0i64], DType::F32)
}

proof fn lemma_held_is_not_returned(
    e: EngineSpec,
    method: Method,
    o: int,
    inputs: Seq<Seq<u8>>,
    replies: Seq<ReplySpec>,
)
    requires
        e.routes.at(method) is Some,
        e.holds(method, o),
        e.model_of(method).output(e.routes.at(method).unwrap().1 as int, o) is Some,
    ensures
        running_after(e.running(method, inputs), replies) matches RunningSpec::Ran {
            method: m,
            outputs,
        } ==> {
            &&& outputs.len() == e.model_of(method).signatures[e.routes.at(
                method,
            ).unwrap().1 as int].outputs.len()
            &&& outputs[o] == empty_tensor()
        },
{
    let start = e.planned(method, inputs);
    run_returns_every_output(start, replies);
    match running_after(e.running(method, inputs), replies) {
        RunningSpec::Ran { method: m, outputs } => {
            assert(stands_for(outputs[o], start.outputs[o]));
            assert(start.outputs[o].held);
        },
        _ => {},
    }
}

/// An output that is fed back is not returned, from the first run on and however
/// the engine is used: an empty tensor stands in its place, and every other
/// output keeps its index.
pub proof fn fed_back_output_is_not_returned(
    e: EngineSpec,
    method: Method,
    out_index: usize,
    in_index: usize,
    uses: Seq<Use>,
    inputs: Seq<Seq<u8>>,
    replies: Seq<ReplySpec>,
)
    requires
        e.well_formed(),
        e.links_usable(),
        e.can_feed_back(method, out_index, in_index),
    ensures
        running_after(
            e.fed_back(method, out_index, in_index).after_uses(uses).running(method, inputs),
            replies,
        ) matches RunningSpec::Ran { method: m, outputs } ==> {
            &&& outputs.len() == e.model_of(method).signatures[e.routes.at(
                method,
            ).unwrap().1 as int].outputs.len()
            &&& outputs[out_index as int] == empty_tensor()
        },
{
    let linked = e.fed_back(method, out_index, in_index);
    let f = linked.after_uses(uses);
    links_stay_usable(e, method);
    used_engine_stays_in_order(linked, uses);
    lemma_registered_is_held(e, method, out_index, method, in_index);
    lemma_held_for_good(linked, uses, method, out_index as int);
    lemma_output_still_there(e, f, method, out_index as int);
    lemma_held_is_not_returned(f, method, out_index as int, inputs, replies);
}

/// The same of an output that is piped to another method.
pub proof fn piped_output_is_not_returned(
    e: EngineSpec,
    method: Method,
    out_index: usize,
    to: Method,
    in_index: usize,
    uses: Seq<Use>,
    inputs: Seq<Seq<u8>>,
    replies: Seq<ReplySpec>,
)
    requires
        e.well_formed(),
        e.links_usable(),
        e.can_pipe(method, out_index, to, in_index),
    ensures
        running_after(
            e.piped(method, out_index, to, in_index).after_uses(uses).running(method, inputs),
            replies,
        ) matches RunningSpec::Ran { method: m, outputs } ==> {
            &&& outputs.len() == e.model_of(method).signatures[e.routes.at(
                method,
            ).unwrap().1 as int].outputs.len()
            &&& outputs[out_index as int] == empty_tensor()
        },
{
    let linked = e.piped(method, out_index, to, in_index);
    let f = linked.after_uses(uses);
    links_stay_usable(e, method);
    used_engine_stays_in_order(linked, uses);
    lemma_registered_is_held(e, method, out_index, to, in_index);
    lemma_held_for_good(linked, uses, method, out_index as int);
    lemma_output_still_there(e, f, method, out_index as int);
    lemma_held_is_not_returned(f, method, out_index as int, inputs, replies);
}

proof fn lemma_output_still_there(e: EngineSpec, f: EngineSpec, method: Method, o: int)
    requires
        e.well_formed(),
        e.routes.at(method) is Some,
        f.routes == e.routes,
        models_alike(e.models, f.models),
        e.model_of(method).output(e.routes.at(method).unwrap().1 as int, o) is Some,
    ensures
        ({
            let sig = e.routes.at(method).unwrap().1 as int;
            &&& f.model_of(method).output(sig, o) is Some
            &&& f.model_of(method).signatures[sig].outputs.len() == e.model_of(
                method,
            ).signatures[sig].outputs.len()
        }),
{
    let route = e.routes.at(method).unwrap();
    let x = e.models[route.0 as int];
    let y = f.models[route.0 as int];
    assert(model_alike(x, y));
    assert(alike(x.output(route.1 as int, o), y.output(route.1 as int, o)));
    assert(x.signatures[route.1 as int].key == y.signatures[route.1 as int].key);
}

} // verus!
