//! What holds of a run whatever the runtime replies.

use super::run::{OutputSpec, RunSpec, RunStageSpec, RunningSpec};
use super::wide;
use crate::backends::litert_sys::model::dims_product;
use crate::backends::litert_sys::native::{Call, Handle, ReplySpec};
use crate::tensor::{product, TensorSpec};
use crate::text::integer;
use crate::{ErrorSpec, Method};
use vstd::prelude::*;

verus! {

/// A run after a number of replies.
pub open spec fn running_after(s: RunningSpec, replies: Seq<ReplySpec>) -> RunningSpec
    decreases replies.len(),
{
    if replies.len() == 0 {
        s
    } else {
        running_after(s, replies.drop_last()).step(replies.last())
    }
}

/// A tensor stands for an output: shape, element type and length are the
/// output's, and one that is not read from its buffer is blank.
pub open spec fn stands_for(t: TensorSpec, o: OutputSpec) -> bool {
    &&& t.shape == o.blank().shape
    &&& t.dtype == o.blank().dtype
    &&& t.data.len() == o.blank().data.len()
    &&& !o.fetched() ==> t == o.blank()
}

/// The tensors stand for the first outputs.
pub open spec fn all_stand_for(outs: Seq<TensorSpec>, outputs: Seq<OutputSpec>) -> bool {
    &&& outs.len() <= outputs.len()
    &&& forall|i: int| 0 <= i < outs.len() ==> stands_for(#[trigger] outs[i], outputs[i])
}

/// The error of a run that failed, with what the runtime replied when asked to
/// run the signature.
pub open spec fn refused(method: Method, r: ReplySpec) -> ErrorSpec {
    ErrorSpec::Execute {
        method,
        code: r.status,
        msg: "LiteRtRunCompiledModel status="@ + integer(r.status as int),
    }
}

/// The signature was asked to run, and reply `k` refused.
pub open spec fn refused_at(start: RunSpec, replies: Seq<ReplySpec>, k: int) -> bool {
    &&& 0 <= k < replies.len()
    &&& !replies[k].ok()
    &&& running_after(start.write_from(0), replies.take(k)).call() == Some(
        Call::Invoke { compiled: start.compiled, sig: start.sig },
    )
}

/// A run is still about what it started with.
spec fn on_course(start: RunSpec, s: RunningSpec) -> bool {
    match s {
        RunningSpec::Working { run } => {
            &&& run == (RunSpec { stage: run.stage, ..start })
            &&& match run.stage {
                RunStageSpec::LockOutput { outs } => all_stand_for(outs, start.outputs)
                    && outs.len() < start.outputs.len()
                    && start.outputs[outs.len() as int].fetched(),
                RunStageSpec::Read { outs, address } => all_stand_for(outs, start.outputs)
                    && outs.len() < start.outputs.len()
                    && start.outputs[outs.len() as int].fetched(),
                RunStageSpec::UnlockOutput { outs } => all_stand_for(outs, start.outputs),
                _ => true,
            }
        },
        RunningSpec::Ran { method, outputs } => method == start.method && outputs.len()
            == start.outputs.len() && all_stand_for(outputs, start.outputs),
        RunningSpec::Failed { error } => true,
    }
}

proof fn lemma_one_more(outs: Seq<TensorSpec>, outputs: Seq<OutputSpec>, t: TensorSpec)
    requires
        all_stand_for(outs, outputs),
        outs.len() < outputs.len(),
        stands_for(t, outputs[outs.len() as int]),
    ensures
        all_stand_for(outs.push(t), outputs),
{
    let more = outs.push(t);
    assert forall|i: int| 0 <= i < more.len() implies stands_for(#[trigger] more[i], outputs[i]) by {
        if i < outs.len() {
            assert(more[i] == outs[i]);
        }
    }
}

proof fn lemma_collect_on_course(start: RunSpec, run: RunSpec, outs: Seq<TensorSpec>)
    requires
        run == (RunSpec { stage: run.stage, ..start }),
        all_stand_for(outs, start.outputs),
    ensures
        on_course(start, run.collect(outs)),
    decreases run.outputs.len() - outs.len(),
{
    if outs.len() < run.outputs.len() && !run.outputs[outs.len() as int].fetched() {
        let t = run.outputs[outs.len() as int].blank();
        lemma_one_more(outs, start.outputs, t);
        lemma_collect_on_course(start, run, outs.push(t));
    }
}

proof fn lemma_step_on_course(start: RunSpec, s: RunningSpec, r: ReplySpec)
    requires
        on_course(start, s),
    ensures
        on_course(start, s.step(r)),
{
    match s {
        RunningSpec::Working { run } => match run.stage {
            RunStageSpec::Invoke => {
                if r.ok() {
                    lemma_collect_on_course(start, run, seq![]);
                }
            },
            RunStageSpec::LockOutput { outs } => {
                let o = run.outputs[outs.len() as int];
                if !r.gave_handle() {
                    // A buffer that cannot be locked reads as zeros.
                    lemma_one_more(outs, start.outputs, o.blank());
                    lemma_collect_on_course(start, run, outs.push(o.blank()));
                }
            },
            RunStageSpec::Read { outs, address } => {
                let o = run.outputs[outs.len() as int];
                lemma_one_more(outs, start.outputs, o.filled(r.bytes));
            },
            RunStageSpec::UnlockOutput { outs } => {
                lemma_collect_on_course(start, run, outs);
            },
            _ => {},
        },
        _ => {},
    }
}

/// A run that ends well returns every output at its own index, as long as its
/// shape and element type say. Those that are held or have no bytes are blank:
/// a held one is an empty tensor that keeps the others' indices right. A run
/// fails only where the runtime refuses to run the signature, and the error says
/// which method failed and carries the runtime's own status.
pub proof fn run_returns_every_output(start: RunSpec, replies: Seq<ReplySpec>)
    ensures
        match running_after(start.write_from(0), replies) {
            RunningSpec::Ran { method, outputs } => {
                &&& method == start.method
                &&& outputs.len() == start.outputs.len()
                &&& forall|i: int|
                    0 <= i < outputs.len() ==> stands_for(#[trigger] outputs[i], start.outputs[i])
                        && outputs[i].well_formed()
            },
            RunningSpec::Failed { error } => exists|k: int| #[trigger]
                refused_at(start, replies, k) && error == refused(start.method, replies[k]),
            RunningSpec::Working { run } => true,
        },
{
    lemma_run_on_course(start, replies);
    match running_after(start.write_from(0), replies) {
        RunningSpec::Ran { method, outputs } => {
            assert forall|i: int| 0 <= i < outputs.len() implies stands_for(
                #[trigger] outputs[i],
                start.outputs[i],
            ) && outputs[i].well_formed() by {
                assert(start.outputs[i].blank().well_formed());
            }
        },
        RunningSpec::Failed { error } => {
            lemma_failed_by(start, replies);
        },
        _ => {},
    }
}

proof fn lemma_collect_never_fails(run: RunSpec, outs: Seq<TensorSpec>)
    ensures
        run.collect(outs) !is Failed,
    decreases run.outputs.len() - outs.len(),
{
    if outs.len() < run.outputs.len() && !run.outputs[outs.len() as int].fetched() {
        lemma_collect_never_fails(run, outs.push(run.outputs[outs.len() as int].blank()));
    }
}

proof fn lemma_failed_by(start: RunSpec, replies: Seq<ReplySpec>)
    requires
        running_after(start.write_from(0), replies) is Failed,
    ensures
        exists|k: int| #[trigger]
            refused_at(start, replies, k) && running_after(start.write_from(0), replies)
                == (RunningSpec::Failed { error: refused(start.method, replies[k]) }),
    decreases replies.len(),
{
    let rest = replies.drop_last();
    let r = replies.last();
    let before = running_after(start.write_from(0), rest);
    lemma_run_on_course(start, rest);
    match before {
        RunningSpec::Working { run } => {
            match run.stage {
                RunStageSpec::Invoke => {
                    lemma_collect_never_fails(run, seq![]);
                },
                RunStageSpec::LockOutput { outs } => {
                    lemma_collect_never_fails(
                        run,
                        outs.push(run.outputs[outs.len() as int].blank()),
                    );
                },
                RunStageSpec::UnlockOutput { outs } => {
                    lemma_collect_never_fails(run, outs);
                },
                _ => {},
            }
            assert(replies.take(replies.len() - 1) =~= rest);
            assert(refused_at(start, replies, replies.len() - 1));
        },
        _ => {
            lemma_failed_by(start, rest);
            let k = choose|k: int| #[trigger]
                refused_at(start, rest, k) && before == (RunningSpec::Failed {
                    error: refused(start.method, rest[k]),
                });
            assert(replies.take(k) =~= rest.take(k));
            assert(refused_at(start, replies, k));
        },
    }
}

proof fn lemma_run_on_course(start: RunSpec, replies: Seq<ReplySpec>)
    ensures
        on_course(start, running_after(start.write_from(0), replies)),
    decreases replies.len(),
{
    if replies.len() > 0 {
        let rest = replies.drop_last();
        lemma_run_on_course(start, rest);
        lemma_step_on_course(start, running_after(start.write_from(0), rest), replies.last());
    }
}

/// The buffer that a run has locked.
pub open spec fn locked_by(s: RunningSpec) -> Option<Handle> {
    match s {
        RunningSpec::Working { run } => match run.stage {
            RunStageSpec::Write { next, address } => Some(run.writes[next as int].buffer),
            RunStageSpec::Unlock { next } => Some(run.writes[next as int].buffer),
            RunStageSpec::Read { outs, address } => Some(
                run.outputs[outs.len() as int].slot.buffer,
            ),
            RunStageSpec::UnlockOutput { outs } => Some(run.outputs[outs.len() - 1].slot.buffer),
            _ => None,
        },
        _ => None,
    }
}

/// The buffer that is locked after a call.
pub open spec fn locked_after(locked: Option<Handle>, call: Call, r: ReplySpec) -> Option<Handle> {
    match call {
        Call::Lock { buffer, mode } => if r.gave_handle() {
            Some(buffer)
        } else {
            locked
        },
        Call::Unlock { buffer } => None,
        _ => locked,
    }
}

/// A call respects locks: no second buffer is locked, only the locked one is
/// written, read or unlocked, and the model runs with none locked.
pub open spec fn respects_locks(locked: Option<Handle>, call: Call) -> bool {
    match call {
        Call::Lock { buffer, mode } => locked is None,
        Call::Invoke { compiled, sig } => locked is None,
        Call::Unlock { buffer } => locked == Some(buffer),
        Call::Write { address } => locked is Some,
        Call::Read { address, len } => locked is Some,
        _ => true,
    }
}

proof fn lemma_collect_unlocked(run: RunSpec, outs: Seq<TensorSpec>)
    ensures
        locked_by(run.collect(outs)) is None,
    decreases run.outputs.len() - outs.len(),
{
    if outs.len() < run.outputs.len() && !run.outputs[outs.len() as int].fetched() {
        lemma_collect_unlocked(run, outs.push(run.outputs[outs.len() as int].blank()));
    }
}

/// Every buffer that a run locks it unlocks before anything else happens to
/// buffers, whatever the runtime replies. A run that has ended leaves none
/// locked.
pub proof fn locks_are_paired(s: RunningSpec, r: ReplySpec)
    ensures
        match s.call() {
            Some(call) => respects_locks(locked_by(s), call) && locked_by(s.step(r))
                == locked_after(locked_by(s), call, r),
            None => locked_by(s) is None,
        },
{
    match s {
        RunningSpec::Working { run } => match run.stage {
            RunStageSpec::Invoke => {
                lemma_collect_unlocked(run, seq![]);
            },
            RunStageSpec::LockOutput { outs } => {
                lemma_collect_unlocked(run, outs.push(run.outputs[outs.len() as int].blank()));
            },
            RunStageSpec::UnlockOutput { outs } => {
                lemma_collect_unlocked(run, outs);
            },
            _ => {},
        },
        _ => {},
    }
}

/// No dimension is negative.
pub open spec fn all_natural(shape: Seq<i32>) -> bool {
    forall|i: int| 0 <= i < shape.len() ==> #[trigger] shape[i] >= 0
}

proof fn lemma_same_count(shape: Seq<i32>)
    requires
        all_natural(shape),
    ensures
        product(wide(shape)) == dims_product(shape),
    decreases shape.len(),
{
    if shape.len() > 0 {
        let rest = shape.drop_last();
        assert forall|i: int| 0 <= i < rest.len() implies #[trigger] rest[i] >= 0 by {
            assert(rest[i] == shape[i]);
        }
        lemma_same_count(rest);
        assert(wide(shape).drop_last() =~= wide(rest));
        assert(shape[shape.len() - 1] >= 0);
        assert(wide(shape).last() == shape.last());
        assert(dims_product(shape) == dims_product(rest) * (shape.last() as nat));
    }
}

/// The tensor of an output is exactly as long as its buffer, so that an output
/// is read whole: nothing of it is cut off and nothing is left over.
pub proof fn output_is_read_whole(o: OutputSpec, bytes: Seq<u8>)
    requires
        all_natural(o.slot.shape),
        !o.held,
        bytes.len() == o.slot.byte_len(),
    ensures
        o.blank().data.len() == o.slot.byte_len(),
        o.filled(bytes).data == bytes,
{
    lemma_same_count(o.slot.shape);
    assert(o.blank().dtype.width() == 4);
    assert(o.filled(bytes).data =~= bytes);
}

} // verus!
