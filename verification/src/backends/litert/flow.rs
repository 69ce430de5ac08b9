//! How buffers travel between outputs and inputs.
//!
//! Feedback and pipes move buffers, never bytes: after a run an output's buffer
//! is the input's, and the input's is where the output is written next.

use super::opening::{pair_engine, single_engine};
use super::{can_move, move_input, move_output, moved, moved_all, EngineSpec, Move};
use crate::backends::litert_sys::model::{
    all_buffers, replacing_a_buffer, ModelSpec, SlotSpec,
};
use crate::backends::litert_sys::native::{Handle, Side};
use crate::Method;
use vstd::multiset::Multiset;
use vstd::prelude::*;

verus! {

/// Two slots differ at most in their buffers.
pub open spec fn alike(a: Option<SlotSpec>, b: Option<SlotSpec>) -> bool {
    match (a, b) {
        (Some(x), Some(y)) => x.shape == y.shape && x.element_type == y.element_type,
        (None, None) => true,
        _ => false,
    }
}

/// Two models differ at most in their buffers.
pub open spec fn model_alike(a: ModelSpec, b: ModelSpec) -> bool {
    &&& a.bytes == b.bytes && a.model == b.model && a.compiled == b.compiled && a.on_gpu == b.on_gpu
    &&& a.signatures.len() == b.signatures.len()
    &&& forall|s: int|
        0 <= s < a.signatures.len() ==> (#[trigger] a.signatures[s]).key == b.signatures[s].key
            && a.signatures[s].inputs.len() == b.signatures[s].inputs.len()
            && a.signatures[s].outputs.len() == b.signatures[s].outputs.len()
    &&& forall|s: int, i: int| alike(#[trigger] a.input(s, i), b.input(s, i))
    &&& forall|s: int, i: int| alike(#[trigger] a.output(s, i), b.output(s, i))
}

/// The models differ at most in their buffers.
pub open spec fn models_alike(a: Seq<ModelSpec>, b: Seq<ModelSpec>) -> bool {
    &&& a.len() == b.len()
    &&& forall|k: int| 0 <= k < a.len() ==> model_alike(#[trigger] a[k], b[k])
}

/// A move is between models that exist.
pub open spec fn move_within(models: Seq<ModelSpec>, m: Move) -> bool {
    0 <= m.from_model < models.len() && 0 <= m.to_model < models.len()
}

/// All buffers of all models.
pub open spec fn buffers_held(models: Seq<ModelSpec>) -> Multiset<Handle>
    decreases models.len(),
{
    if models.len() == 0 {
        Multiset::empty()
    } else {
        buffers_held(models.drop_last()).add(all_buffers(models.last().signatures).to_multiset())
    }
}

/// A move is to a given input.
pub open spec fn leads_to(m: Move, k: int, s: int, i: int) -> bool {
    m.to_model == k && m.to_sig == s && m.in_idx == i
}

/// A move is from a given output.
pub open spec fn starts_at(m: Move, k: int, s: int, i: int) -> bool {
    m.from_model == k && m.from_sig == s && m.out_idx == i
}

/// A move that can be made has both its ends.
proof fn lemma_ends_exist(models: Seq<ModelSpec>, m: Move)
    requires
        can_move(models, m),
    ensures
        move_output(models, m) is Some,
        move_input(models, m) is Some,
{
}

/// What one move does to every input and output.
proof fn lemma_one_move(models: Seq<ModelSpec>, m: Move)
    requires
        move_within(models, m),
    ensures
        moved(models, m).len() == models.len(),
        !can_move(models, m) ==> moved(models, m) == models,
        can_move(models, m) ==> forall|k: int, s: int, i: int|
            0 <= k < models.len() ==> #[trigger] moved(models, m)[k].input(s, i) == (if leads_to(
                m,
                k,
                s,
                i,
            ) {
                Some(models[k].input(s, i).unwrap().with_buffer(move_output(models, m).unwrap().buffer))
            } else {
                models[k].input(s, i)
            }),
        can_move(models, m) ==> forall|k: int, s: int, i: int|
            0 <= k < models.len() ==> #[trigger] moved(models, m)[k].output(s, i) == (if starts_at(
                m,
                k,
                s,
                i,
            ) {
                Some(models[k].output(s, i).unwrap().with_buffer(move_input(models, m).unwrap().buffer))
            } else {
                models[k].output(s, i)
            }),
        models_alike(models, moved(models, m)),
{
    if can_move(models, m) {
        lemma_ends_exist(models, m);
        let o = move_output(models, m).unwrap().buffer;
        let i = move_input(models, m).unwrap().buffer;
        let mid = models.update(
            m.from_model,
            models[m.from_model].with_output(m.from_sig, m.out_idx, i),
        );
        let end = moved(models, m);
        assert(end == mid.update(
            m.to_model,
            mid[m.to_model].with_input(m.to_sig, m.in_idx, o),
        ));
        assert forall|k: int| 0 <= k < models.len() implies model_alike(
            #[trigger] models[k],
            end[k],
        ) by {
            assert(k != m.from_model ==> mid[k] == models[k]);
            assert(k != m.to_model ==> end[k] == mid[k]);
        }
    } else {
        assert forall|k: int| 0 <= k < models.len() implies model_alike(
            #[trigger] models[k],
            models[k],
        ) by {}
    }
}

pub(crate) proof fn lemma_alike_is_transitive(a: Seq<ModelSpec>, b: Seq<ModelSpec>, c: Seq<ModelSpec>)
    requires
        models_alike(a, b),
        models_alike(b, c),
    ensures
        models_alike(a, c),
{
    assert forall|k: int| 0 <= k < a.len() implies model_alike(#[trigger] a[k], c[k]) by {
        assert(model_alike(a[k], b[k]));
        assert(model_alike(b[k], c[k]));
        assert forall|s: int, i: int| alike(#[trigger] a[k].input(s, i), c[k].input(s, i)) by {
            assert(alike(a[k].input(s, i), b[k].input(s, i)));
            assert(alike(b[k].input(s, i), c[k].input(s, i)));
        }
        assert forall|s: int, i: int| alike(#[trigger] a[k].output(s, i), c[k].output(s, i)) by {
            assert(alike(a[k].output(s, i), b[k].output(s, i)));
            assert(alike(b[k].output(s, i), c[k].output(s, i)));
        }
        assert forall|s: int| 0 <= s < a[k].signatures.len() implies (
        #[trigger] a[k].signatures[s]).key == c[k].signatures[s].key
            && a[k].signatures[s].inputs.len() == c[k].signatures[s].inputs.len()
            && a[k].signatures[s].outputs.len() == c[k].signatures[s].outputs.len() by {
            assert(a[k].signatures[s].key == b[k].signatures[s].key);
            assert(b[k].signatures[s].key == c[k].signatures[s].key);
        }
    }
}

/// Whether a move can be made does not depend on buffers.
proof fn lemma_alike_moves(a: Seq<ModelSpec>, b: Seq<ModelSpec>, m: Move)
    requires
        models_alike(a, b),
        move_within(a, m),
    ensures
        can_move(a, m) == can_move(b, m),
{
    assert(model_alike(a[m.from_model], b[m.from_model]));
    assert(model_alike(a[m.to_model], b[m.to_model]));
    assert(alike(
        a[m.from_model].output(m.from_sig, m.out_idx),
        b[m.from_model].output(m.from_sig, m.out_idx),
    ));
    assert(alike(
        a[m.to_model].input(m.to_sig, m.in_idx),
        b[m.to_model].input(m.to_sig, m.in_idx),
    ));
}

/// All moves are between models that exist.
pub open spec fn moves_within(models: Seq<ModelSpec>, moves: Seq<Move>) -> bool {
    forall|k: int| 0 <= k < moves.len() ==> move_within(models, #[trigger] moves[k])
}

/// Moves change nothing of the models but their buffers: shapes, element types,
/// keys and handles stay.
pub proof fn moves_change_buffers_alone(models: Seq<ModelSpec>, moves: Seq<Move>)
    requires
        moves_within(models, moves),
    ensures
        models_alike(models, moved_all(models, moves)),
    decreases moves.len(),
{
    if moves.len() == 0 {
        assert forall|k: int| 0 <= k < models.len() implies model_alike(
            #[trigger] models[k],
            models[k],
        ) by {}
    } else {
        let rest = moves.drop_last();
        assert(moves_within(models, rest)) by {
            assert forall|k: int| 0 <= k < rest.len() implies move_within(
                models,
                #[trigger] rest[k],
            ) by {
                assert(rest[k] == moves[k]);
            }
        }
        moves_change_buffers_alone(models, rest);
        let mid = moved_all(models, rest);
        assert(move_within(models, moves[moves.len() - 1]));
        lemma_one_move(mid, moves.last());
        lemma_alike_is_transitive(models, mid, moved(mid, moves.last()));
    }
}


proof fn lemma_update_model(models: Seq<ModelSpec>, k: int, m: ModelSpec, h: Handle)
    requires
        0 <= k < models.len(),
    ensures
        buffers_held(models.update(k, m)).count(h) + all_buffers(
            models[k].signatures,
        ).to_multiset().count(h) == buffers_held(models).count(h) + all_buffers(
            m.signatures,
        ).to_multiset().count(h),
    decreases models.len(),
{
    let w = models.update(k, m);
    if k == models.len() - 1 {
        assert(w.drop_last() =~= models.drop_last());
    } else {
        assert(w.drop_last() =~= models.drop_last().update(k, m));
        lemma_update_model(models.drop_last(), k, m, h);
    }
}

/// A move neither loses nor doubles a buffer.
proof fn lemma_move_keeps_buffers(models: Seq<ModelSpec>, m: Move)
    requires
        move_within(models, m),
    ensures
        buffers_held(moved(models, m)) == buffers_held(models),
{
    if can_move(models, m) {
        lemma_ends_exist(models, m);
        let o = move_output(models, m).unwrap().buffer;
        let i = move_input(models, m).unwrap().buffer;
        let a = models[m.from_model];
        let a2 = a.with_output(m.from_sig, m.out_idx, i);
        let mid = models.update(m.from_model, a2);
        let b = mid[m.to_model];
        let b2 = b.with_input(m.to_sig, m.in_idx, o);
        let end = moved(models, m);
        assert(end == mid.update(m.to_model, b2));
        replacing_a_buffer(a, Side::Output, m.from_sig, m.out_idx, i);
        replacing_a_buffer(b, Side::Input, m.to_sig, m.in_idx, o);
        assert forall|h: Handle| #[trigger]
            buffers_held(end).count(h) == buffers_held(models).count(h) by {
            lemma_update_model(models, m.from_model, a2, h);
            lemma_update_model(mid, m.to_model, b2, h);
        }
        assert(buffers_held(end) =~= buffers_held(models));
    }
}

/// Moves neither lose nor double a buffer, so that none is freed twice or never.
pub proof fn moves_keep_buffers(models: Seq<ModelSpec>, moves: Seq<Move>)
    requires
        moves_within(models, moves),
    ensures
        buffers_held(moved_all(models, moves)) == buffers_held(models),
    decreases moves.len(),
{
    if moves.len() > 0 {
        let rest = moves.drop_last();
        assert(moves_within(models, rest)) by {
            assert forall|k: int| 0 <= k < rest.len() implies move_within(
                models,
                #[trigger] rest[k],
            ) by {
                assert(rest[k] == moves[k]);
            }
        }
        moves_keep_buffers(models, rest);
        moves_change_buffers_alone(models, rest);
        assert(move_within(models, moves[moves.len() - 1]));
        lemma_move_keeps_buffers(moved_all(models, rest), moves.last());
    }
}

/// No two moves have an end in common.
pub open spec fn moves_apart(moves: Seq<Move>) -> bool {
    forall|j: int, k: int|
        0 <= j < k < moves.len() ==> {
            let a = #[trigger] moves[j];
            let b = #[trigger] moves[k];
            &&& !starts_at(a, b.from_model, b.from_sig, b.out_idx)
            &&& !leads_to(a, b.to_model, b.to_sig, b.in_idx)
        }
}

/// All moves can be made.
pub open spec fn all_can_move(models: Seq<ModelSpec>, moves: Seq<Move>) -> bool {
    forall|k: int| 0 <= k < moves.len() ==> can_move(models, #[trigger] moves[k])
}

/// Moves that have no end in common deliver: each input has the buffer that its
/// output had, each output has the one that its input had, and whatever no move
/// touches stays.
pub proof fn moves_deliver(models: Seq<ModelSpec>, moves: Seq<Move>)
    requires
        moves_within(models, moves),
        all_can_move(models, moves),
        moves_apart(moves),
    ensures
        ({
            let end = moved_all(models, moves);
            &&& forall|j: int|
                0 <= j < moves.len() ==> {
                    let m = #[trigger] moves[j];
                    &&& move_input(end, m) == Some(
                        move_input(models, m).unwrap().with_buffer(
                            move_output(models, m).unwrap().buffer,
                        ),
                    )
                    &&& move_output(end, m) == Some(
                        move_output(models, m).unwrap().with_buffer(
                            move_input(models, m).unwrap().buffer,
                        ),
                    )
                }
            &&& forall|k: int, s: int, i: int|
                0 <= k < models.len() && (forall|j: int|
                    0 <= j < moves.len() ==> !leads_to(#[trigger] moves[j], k, s, i))
                    ==> #[trigger] end[k].input(s, i) == models[k].input(s, i)
            &&& forall|k: int, s: int, i: int|
                0 <= k < models.len() && (forall|j: int|
                    0 <= j < moves.len() ==> !starts_at(#[trigger] moves[j], k, s, i))
                    ==> #[trigger] end[k].output(s, i) == models[k].output(s, i)
        }),
    decreases moves.len(),
{
    if moves.len() > 0 {
        let rest = moves.drop_last();
        let last = moves.last();
        let mid = moved_all(models, rest);
        let end = moved_all(models, moves);
        assert forall|k: int| 0 <= k < rest.len() implies #[trigger] rest[k] == moves[k] by {}
        assert(last == moves[moves.len() - 1]);
        assert(moves_within(models, rest) && all_can_move(models, rest) && moves_apart(rest)) by {
            assert forall|k: int| 0 <= k < rest.len() implies move_within(
                models,
                #[trigger] rest[k],
            ) && can_move(models, rest[k]) by {
                assert(rest[k] == moves[k]);
            }
        }
        moves_deliver(models, rest);
        moves_change_buffers_alone(models, rest);
        assert(move_within(models, last) && can_move(models, last));
        lemma_alike_moves(models, mid, last);
        lemma_one_move(mid, last);
        // The last move finds its ends as they were.
        assert(move_input(mid, last) == move_input(models, last)) by {
            assert forall|j: int| 0 <= j < rest.len() implies !leads_to(
                #[trigger] rest[j],
                last.to_model,
                last.to_sig,
                last.in_idx,
            ) by {
                assert(rest[j] == moves[j]);
            }
        }
        assert(move_output(mid, last) == move_output(models, last)) by {
            assert forall|j: int| 0 <= j < rest.len() implies !starts_at(
                #[trigger] rest[j],
                last.from_model,
                last.from_sig,
                last.out_idx,
            ) by {
                assert(rest[j] == moves[j]);
            }
        }
        assert forall|j: int| 0 <= j < moves.len() implies {
            let m = #[trigger] moves[j];
            &&& move_input(end, m) == Some(
                move_input(models, m).unwrap().with_buffer(move_output(models, m).unwrap().buffer),
            )
            &&& move_output(end, m) == Some(
                move_output(models, m).unwrap().with_buffer(move_input(models, m).unwrap().buffer),
            )
        } by {
            let m = moves[j];
            assert(move_within(models, m));
            if j < rest.len() {
                assert(rest[j] == m);
                assert(!leads_to(m, last.to_model, last.to_sig, last.in_idx));
                assert(!starts_at(m, last.from_model, last.from_sig, last.out_idx));
                assert(end[m.to_model].input(m.to_sig, m.in_idx) == mid[m.to_model].input(
                    m.to_sig,
                    m.in_idx,
                ));
                assert(end[m.from_model].output(m.from_sig, m.out_idx) == mid[m.from_model].output(
                    m.from_sig,
                    m.out_idx,
                ));
            } else {
                assert(end[m.to_model].input(m.to_sig, m.in_idx) is Some);
                assert(end[m.from_model].output(m.from_sig, m.out_idx) is Some);
            }
        }
        assert forall|k: int, s: int, i: int|
            0 <= k < models.len() && (forall|j: int|
                0 <= j < moves.len() ==> !leads_to(#[trigger] moves[j], k, s, i)) implies
            #[trigger] end[k].input(s, i) == models[k].input(s, i) by {
            assert(!leads_to(moves[moves.len() - 1], k, s, i));
            assert forall|j: int| 0 <= j < rest.len() implies !leads_to(
                #[trigger] rest[j],
                k,
                s,
                i,
            ) by {
                assert(rest[j] == moves[j]);
            }
            assert(end[k].input(s, i) == mid[k].input(s, i));
        }
        assert forall|k: int, s: int, i: int|
            0 <= k < models.len() && (forall|j: int|
                0 <= j < moves.len() ==> !starts_at(#[trigger] moves[j], k, s, i)) implies
            #[trigger] end[k].output(s, i) == models[k].output(s, i) by {
            assert(!starts_at(moves[moves.len() - 1], k, s, i));
            assert forall|j: int| 0 <= j < rest.len() implies !starts_at(
                #[trigger] rest[j],
                k,
                s,
                i,
            ) by {
                assert(rest[j] == moves[j]);
            }
            assert(end[k].output(s, i) == mid[k].output(s, i));
        }
    }
}


impl EngineSpec {
    /// Every feedback and every pipe that is registered can be followed.
    pub open spec fn links_usable(self) -> bool {
        &&& forall|m: Method, k: int|
            0 <= k < self.feedback.at(m).len() ==> {
                let pair = #[trigger] self.feedback.at(m)[k];
                self.can_feed_back(m, pair.0, pair.1)
            }
        &&& forall|k: int|
            0 <= k < self.pipes.len() ==> {
                let p = #[trigger] self.pipes[k];
                self.can_pipe(p.0, p.1, p.2, p.3)
            }
    }
}

/// What can be registered does not depend on buffers.
proof fn lemma_alike_links(a: EngineSpec, b: EngineSpec)
    requires
        a.well_formed(),
        a.links_usable(),
        models_alike(a.models, b.models),
        b == (EngineSpec { models: b.models, ran: b.ran, ..a }),
    ensures
        b.well_formed(),
        b.links_usable(),
{
    assert forall|m: Method, k: int| 0 <= k < b.feedback.at(m).len() implies {
        let pair = #[trigger] b.feedback.at(m)[k];
        b.can_feed_back(m, pair.0, pair.1)
    } by {
        let pair = a.feedback.at(m)[k];
        assert(a.can_feed_back(m, pair.0, pair.1));
        let r = a.routes.at(m).unwrap();
        let x = a.models[r.0 as int];
        let y = b.models[r.0 as int];
        assert(model_alike(x, y));
        assert(alike(x.input(r.1 as int, pair.1 as int), y.input(r.1 as int, pair.1 as int)));
        assert(alike(x.output(r.1 as int, pair.0 as int), y.output(r.1 as int, pair.0 as int)));
    }
    assert forall|k: int| 0 <= k < b.pipes.len() implies {
        let p = #[trigger] b.pipes[k];
        b.can_pipe(p.0, p.1, p.2, p.3)
    } by {
        let p = a.pipes[k];
        assert(a.can_pipe(p.0, p.1, p.2, p.3));
        let f = a.routes.at(p.0).unwrap();
        let t = a.routes.at(p.2).unwrap();
        assert(a.routes.at(p.0) is Some && a.routes.at(p.2) is Some);
        assert(model_alike(a.models[f.0 as int], b.models[f.0 as int]));
        assert(model_alike(a.models[t.0 as int], b.models[t.0 as int]));
        assert(alike(
            a.models[f.0 as int].output(f.1 as int, p.1 as int),
            b.models[f.0 as int].output(f.1 as int, p.1 as int),
        ));
        assert(alike(
            a.models[t.0 as int].input(t.1 as int, p.3 as int),
            b.models[t.0 as int].input(t.1 as int, p.3 as int),
        ));
    }
    assert forall|m: Method|
        (#[trigger] b.routes.at(m)) is Some implies b.routes.at(m).unwrap().0
        < b.models.len() by {
        assert(a.routes.at(m) == b.routes.at(m));
    }
}

/// The moves of pipes come from pipes.
proof fn lemma_pipe_moves(e: EngineSpec, method: Method, n: int)
    requires
        0 <= n <= e.pipes.len(),
    ensures
        forall|k: int|
            0 <= k < e.pipe_moves(method, n).len() ==> exists|j: int|
                0 <= j < n && (#[trigger] e.pipes[j]).0 == method && e.routes.at(e.pipes[j].0) is Some
                    && e.routes.at(e.pipes[j].2) is Some && #[trigger] e.pipe_moves(method, n)[k]
                    == e.pipe_move(e.pipes[j]),
        forall|j: int|
            0 <= j < n && (#[trigger] e.pipes[j]).0 == method && e.routes.at(e.pipes[j].0) is Some
                && e.routes.at(e.pipes[j].2) is Some ==> e.pipe_moves(method, n).contains(
                e.pipe_move(e.pipes[j]),
            ),
    decreases n,
{
    if n > 0 {
        lemma_pipe_moves(e, method, n - 1);
        let before = e.pipe_moves(method, n - 1);
        let after = e.pipe_moves(method, n);
        let p = e.pipes[n - 1];
        assert forall|k: int| 0 <= k < after.len() implies exists|j: int|
            0 <= j < n && (#[trigger] e.pipes[j]).0 == method && e.routes.at(e.pipes[j].0) is Some
                && e.routes.at(e.pipes[j].2) is Some && #[trigger] after[k] == e.pipe_move(
                e.pipes[j],
            ) by {
            if k < before.len() {
                assert(after[k] == before[k]);
                let j = choose|j: int|
                    0 <= j < n - 1 && (#[trigger] e.pipes[j]).0 == method && e.routes.at(
                        e.pipes[j].0,
                    ) is Some && e.routes.at(e.pipes[j].2) is Some && before[k] == e.pipe_move(
                        e.pipes[j],
                    );
                assert(after[k] == e.pipe_move(e.pipes[j]));
            } else {
                assert(after[k] == e.pipe_move(e.pipes[n - 1]));
            }
        }
        assert forall|j: int|
            0 <= j < n && (#[trigger] e.pipes[j]).0 == method && e.routes.at(e.pipes[j].0) is Some
                && e.routes.at(e.pipes[j].2) is Some implies after.contains(
            e.pipe_move(e.pipes[j]),
        ) by {
            if j < n - 1 {
                assert(before.contains(e.pipe_move(e.pipes[j])));
                let k = choose|k: int|
                    0 <= k < before.len() && before[k] == e.pipe_move(e.pipes[j]);
                assert(after[k] == before[k]);
            } else {
                assert(after[after.len() - 1] == e.pipe_move(e.pipes[j]));
            }
        }
    }
}

/// The moves that follow a run can be made.
proof fn lemma_moves_usable(e: EngineSpec, method: Method)
    requires
        e.well_formed(),
        e.links_usable(),
        e.routes.at(method) is Some,
    ensures
        moves_within(e.models, e.moves(method)),
        all_can_move(e.models, e.moves(method)),
{
    let n = e.feedback.at(method).len() as int;
    let feeds = e.feedback_moves(method, n);
    let pipes = e.pipe_moves(method, e.pipes.len() as int);
    let moves = e.moves(method);
    lemma_pipe_moves(e, method, e.pipes.len() as int);
    assert forall|k: int| 0 <= k < moves.len() implies move_within(e.models, #[trigger] moves[k])
        && can_move(e.models, moves[k]) by {
        if k < n {
            let pair = e.feedback.at(method)[k];
            assert(moves[k] == e.feedback_move(method, pair));
            assert(e.can_feed_back(method, pair.0, pair.1));
        } else {
            assert(moves[k] == pipes[k - n]);
            let j = choose|j: int|
                0 <= j < e.pipes.len() && (#[trigger] e.pipes[j]).0 == method && e.routes.at(
                    e.pipes[j].0,
                ) is Some && e.routes.at(e.pipes[j].2) is Some && pipes[k - n] == e.pipe_move(
                    e.pipes[j],
                );
            let p = e.pipes[j];
            assert(e.can_pipe(p.0, p.1, p.2, p.3));
        }
    }
}

/// Registering and running leave every link usable: what was found to agree once
/// agrees for good.
pub proof fn links_stay_usable(e: EngineSpec, method: Method)
    requires
        e.well_formed(),
        e.links_usable(),
    ensures
        e.started(method).well_formed() && e.started(method).links_usable(),
        e.routes.at(method) is Some ==> e.finished(method).well_formed() && e.finished(
            method,
        ).links_usable(),
        forall|o: usize, i: usize|
            e.can_feed_back(method, o, i) ==> (#[trigger] e.fed_back(method, o, i)).well_formed()
                && e.fed_back(method, o, i).links_usable(),
        forall|o: usize, to: Method, i: usize|
            e.can_pipe(method, o, to, i) ==> (#[trigger] e.piped(method, o, to, i)).well_formed()
                && e.piped(method, o, to, i).links_usable(),
{
    moves_change_buffers_alone(e.models, seq![]);
    lemma_alike_links(e, e.started(method));
    if e.routes.at(method) is Some {
        lemma_moves_usable(e, method);
        moves_change_buffers_alone(e.models, e.moves(method));
        lemma_alike_links(e, e.finished(method));
    }
    assert forall|o: usize, i: usize| e.can_feed_back(method, o, i) implies (
    #[trigger] e.fed_back(method, o, i)).well_formed() && e.fed_back(
        method,
        o,
        i,
    ).links_usable() by {
        let f = e.fed_back(method, o, i);
        assert forall|m: Method, k: int| 0 <= k < f.feedback.at(m).len() implies {
            let pair = #[trigger] f.feedback.at(m)[k];
            f.can_feed_back(m, pair.0, pair.1)
        } by {
            if k < e.feedback.at(m).len() {
                let pair = e.feedback.at(m)[k];
                assert(e.can_feed_back(m, pair.0, pair.1));
                assert(f.feedback.at(m)[k] == pair);
            }
        }
        assert forall|k: int| 0 <= k < f.pipes.len() implies {
            let p = #[trigger] f.pipes[k];
            f.can_pipe(p.0, p.1, p.2, p.3)
        } by {
            let p = e.pipes[k];
            assert(e.can_pipe(p.0, p.1, p.2, p.3));
        }
        assert forall|m: Method|
            (#[trigger] f.routes.at(m)) is Some implies f.routes.at(m).unwrap().0
            < f.models.len() by {
            assert(e.routes.at(m) == f.routes.at(m));
        }
    }
    assert forall|o: usize, to: Method, i: usize| e.can_pipe(method, o, to, i) implies (
    #[trigger] e.piped(method, o, to, i)).well_formed() && e.piped(
        method,
        o,
        to,
        i,
    ).links_usable() by {
        let f = e.piped(method, o, to, i);
        assert forall|m: Method, k: int| 0 <= k < f.feedback.at(m).len() implies {
            let pair = #[trigger] f.feedback.at(m)[k];
            f.can_feed_back(m, pair.0, pair.1)
        } by {
            let pair = e.feedback.at(m)[k];
            assert(e.can_feed_back(m, pair.0, pair.1));
        }
        assert forall|k: int| 0 <= k < f.pipes.len() implies {
            let p = #[trigger] f.pipes[k];
            f.can_pipe(p.0, p.1, p.2, p.3)
        } by {
            if k < e.pipes.len() {
                let p = e.pipes[k];
                assert(e.can_pipe(p.0, p.1, p.2, p.3));
                assert(f.pipes[k] == p);
            }
        }
        assert forall|m: Method|
            (#[trigger] f.routes.at(m)) is Some implies f.routes.at(m).unwrap().0
            < f.models.len() by {
            assert(e.routes.at(m) == f.routes.at(m));
        }
    }
}

/// A run leaves every buffer with some input or output, and every model as it
/// was but for them.
pub proof fn run_keeps_buffers(e: EngineSpec, method: Method)
    requires
        e.well_formed(),
        e.links_usable(),
        e.routes.at(method) is Some,
    ensures
        buffers_held(e.finished(method).models) == buffers_held(e.models),
        models_alike(e.models, e.finished(method).models),
{
    lemma_moves_usable(e, method);
    moves_keep_buffers(e.models, e.moves(method));
    moves_change_buffers_alone(e.models, e.moves(method));
}

/// Feedback and pipes deliver. After a run, the input at the far end of each
/// link has the very buffer that the output had, with what the run wrote in it;
/// so it is where no two links of the method have an end in common. Inputs that
/// no link leads to keep their buffers.
pub proof fn outputs_become_inputs(e: EngineSpec, method: Method)
    requires
        e.well_formed(),
        e.links_usable(),
        e.routes.at(method) is Some,
        moves_apart(e.moves(method)),
    ensures
        forall|k: int|
            0 <= k < e.feedback.at(method).len() ==> {
                let m = e.feedback_move(method, #[trigger] e.feedback.at(method)[k]);
                move_input(e.finished(method).models, m) == Some(
                    move_input(e.models, m).unwrap().with_buffer(
                        move_output(e.models, m).unwrap().buffer,
                    ),
                )
            },
        forall|k: int|
            0 <= k < e.pipes.len() && (#[trigger] e.pipes[k]).0 == method ==> {
                let m = e.pipe_move(e.pipes[k]);
                move_input(e.finished(method).models, m) == Some(
                    move_input(e.models, m).unwrap().with_buffer(
                        move_output(e.models, m).unwrap().buffer,
                    ),
                )
            },
        forall|k: int, s: int, i: int|
            0 <= k < e.models.len() && (forall|j: int|
                0 <= j < e.moves(method).len() ==> !leads_to(#[trigger] e.moves(method)[j], k, s, i))
                ==> #[trigger] e.finished(method).models[k].input(s, i) == e.models[k].input(s, i),
{
    lemma_moves_usable(e, method);
    moves_deliver(e.models, e.moves(method));
    let n = e.feedback.at(method).len() as int;
    let moves = e.moves(method);
    let pipes = e.pipe_moves(method, e.pipes.len() as int);
    lemma_pipe_moves(e, method, e.pipes.len() as int);
    assert forall|k: int| 0 <= k < e.feedback.at(method).len() implies {
        let m = e.feedback_move(method, #[trigger] e.feedback.at(method)[k]);
        move_input(e.finished(method).models, m) == Some(
            move_input(e.models, m).unwrap().with_buffer(move_output(e.models, m).unwrap().buffer),
        )
    } by {
        assert(moves[k] == e.feedback_move(method, e.feedback.at(method)[k]));
    }
    assert forall|k: int| 0 <= k < e.pipes.len() && (#[trigger] e.pipes[k]).0 == method implies {
        let m = e.pipe_move(e.pipes[k]);
        move_input(e.finished(method).models, m) == Some(
            move_input(e.models, m).unwrap().with_buffer(move_output(e.models, m).unwrap().buffer),
        )
    } by {
        let p = e.pipes[k];
        assert(e.can_pipe(p.0, p.1, p.2, p.3));
        assert(pipes.contains(e.pipe_move(p)));
        let j = choose|j: int| 0 <= j < pipes.len() && pipes[j] == e.pipe_move(p);
        assert(moves[n + j] == pipes[j]);
    }
}

/// Some model is on the GPU.
pub open spec fn any_on_gpu(models: Seq<ModelSpec>) -> bool {
    exists|k: int| 0 <= k < models.len() && (#[trigger] models[k]).on_gpu
}

impl EngineSpec {
    /// The engine says it is on the GPU exactly where one of its models is.
    pub open spec fn reports_truly(self) -> bool {
        self.on_gpu == any_on_gpu(self.models)
    }
}

/// An engine reports the hardware that it is on, from the moment it opens: what
/// is registered and what is run does not change it.
pub proof fn engine_reports_its_hardware(e: EngineSpec, method: Method)
    requires
        e.well_formed(),
        e.links_usable(),
        e.reports_truly(),
    ensures
        e.started(method).reports_truly(),
        e.routes.at(method) is Some ==> e.finished(method).reports_truly(),
        forall|o: usize, i: usize| (#[trigger] e.fed_back(method, o, i)).reports_truly(),
        forall|o: usize, to: Method, i: usize| (
        #[trigger] e.piped(method, o, to, i)).reports_truly(),
{
    if e.routes.at(method) is Some {
        run_keeps_buffers(e, method);
        let f = e.finished(method);
        assert forall|k: int| 0 <= k < e.models.len() implies (#[trigger] e.models[k]).on_gpu
            == f.models[k].on_gpu by {
            assert(model_alike(e.models[k], f.models[k]));
        }
        if f.on_gpu {
            let k = choose|k: int| 0 <= k < e.models.len() && (#[trigger] e.models[k]).on_gpu;
            assert(f.models[k].on_gpu);
        } else {
            assert forall|k: int| 0 <= k < f.models.len() implies !(
            #[trigger] f.models[k]).on_gpu by {
                assert(!e.models[k].on_gpu);
            }
        }
    }
}

/// Engines open without links, and report their hardware.
pub proof fn engines_open_unlinked(
    encoder: ModelSpec,
    decoder: ModelSpec,
    prefill: usize,
    step: usize,
)
    ensures
        ({
            let single = single_engine(encoder);
            single.well_formed() && single.links_usable() && single.reports_truly()
        }),
        ({
            let pair = pair_engine(encoder, decoder, prefill, step);
            pair.well_formed() && pair.links_usable() && pair.reports_truly()
        }),
{
    let single = single_engine(encoder);
    let pair = pair_engine(encoder, decoder, prefill, step);
    assert(single.models[0] == encoder);
    assert(pair.models[0] == encoder);
    assert(pair.models[1] == decoder);
}

} // verus!
