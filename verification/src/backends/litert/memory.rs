//! What a run computes, and what it leaves for the next.
//!
//! Here the runtime's buffers are a memory: a run writes the caller's bytes to
//! it, the signature turns it into another, and the outputs are read from that.

use super::flow::{
    alike, buffers_held, leads_to, links_stay_usable, model_alike, moves_apart,
    outputs_become_inputs, run_keeps_buffers,
};
use super::run::{
    lemma_collect_at_any_stage, OutputSpec, RunSpec, RunStageSpec, RunningSpec, WriteSpec,
};
use super::{move_input, move_output, EngineSpec};
use crate::backends::litert_sys::model::{
    all_buffers, fitted, lemma_signature_within, signature_buffers, slot_buffers, ModelSpec,
};
use crate::backends::litert_sys::native::{Call, Handle, ReplySpec};
use crate::tensor::TensorSpec;
use crate::Method;
use vstd::prelude::*;

verus! {

/// What the buffers hold.
pub type Memory = Map<Handle, Seq<u8>>;

/// What running a signature does to the buffers.
pub type Compute = spec_fn(Memory) -> Memory;

/// The buffers that can be locked.
pub type Locks = spec_fn(Handle) -> bool;

/// The reply of a runtime that does all that a run asks, but for the buffers that
/// cannot be locked.
pub open spec fn reply_from(run: RunSpec, memory: Memory, locks: Locks) -> ReplySpec {
    ReplySpec {
        status: 0,
        handle: match run.call() {
            Call::Lock { buffer, mode } => if locks(buffer) {
                1
            } else {
                0
            },
            _ => 0,
        },
        count: 0,
        text: None,
        element_type: 0,
        layouts: seq![],
        bytes: match run.stage {
            RunStageSpec::Read { outs, address } => memory[run.outputs[outs.len() as int].slot.buffer],
            _ => seq![],
        },
    }
}

/// The memory after the call that comes next.
pub open spec fn memory_after(run: RunSpec, memory: Memory, compute: Compute) -> Memory {
    match run.stage {
        RunStageSpec::Write { next, address } => memory.insert(
            run.writes[next as int].buffer,
            run.writes[next as int].bytes,
        ),
        RunStageSpec::Invoke => compute(memory),
        _ => memory,
    }
}

/// A run after `n` calls to such a runtime, with the memory.
pub open spec fn run_with(
    s: RunningSpec,
    memory: Memory,
    compute: Compute,
    locks: Locks,
    n: nat,
) -> (RunningSpec, Memory)
    decreases n,
{
    match s {
        RunningSpec::Working { run } if n > 0 => run_with(
            run.step(reply_from(run, memory, locks)),
            memory_after(run, memory, compute),
            compute,
            locks,
            (n - 1) as nat,
        ),
        _ => (s, memory),
    }
}

/// The memory after the first `n` writes. Buffers that cannot be locked stay as
/// they are.
pub open spec fn written(memory: Memory, writes: Seq<WriteSpec>, locks: Locks, n: int) -> Memory
    decreases n,
{
    if n <= 0 {
        memory
    } else if locks(writes[n - 1].buffer) {
        written(memory, writes, locks, n - 1).insert(writes[n - 1].buffer, writes[n - 1].bytes)
    } else {
        written(memory, writes, locks, n - 1)
    }
}

/// The outputs as the memory gives them: empty tensors in the place of those
/// that are held, zeros for those that cannot be locked.
pub open spec fn outputs_in(outputs: Seq<OutputSpec>, memory: Memory, locks: Locks) -> Seq<
    TensorSpec,
> {
    Seq::new(
        outputs.len(),
        |i: int|
            if outputs[i].fetched() && locks(outputs[i].slot.buffer) {
                outputs[i].filled(memory[outputs[i].slot.buffer])
            } else {
                outputs[i].blank()
            },
    )
}

proof fn lemma_outputs_read(
    run: RunSpec,
    outs: Seq<TensorSpec>,
    memory: Memory,
    compute: Compute,
    locks: Locks,
) -> (n: nat)
    requires
        outs.len() <= run.outputs.len(),
        outs == outputs_in(run.outputs, memory, locks).take(outs.len() as int),
    ensures
        run_with(run.collect(outs), memory, compute, locks, n) == (
            RunningSpec::Ran {
                method: run.method,
                outputs: outputs_in(run.outputs, memory, locks),
            },
            memory,
        ),
    decreases run.outputs.len() - outs.len(),
{
    let want = outputs_in(run.outputs, memory, locks);
    if outs.len() == run.outputs.len() {
        assert(outs =~= want);
        0
    } else {
        let i = outs.len() as int;
        let o = run.outputs[i];
        let more = outs.push(want[i]);
        assert(more =~= want.take(i + 1));
        let rest = lemma_outputs_read(run, more, memory, compute, locks);
        if o.fetched() {
            let locked = RunSpec { stage: RunStageSpec::LockOutput { outs }, ..run };
            let s0 = RunningSpec::Working { run: locked };
            if locks(o.slot.buffer) {
                let reading = RunSpec { stage: RunStageSpec::Read { outs, address: 1 }, ..run };
                let read = RunSpec { stage: RunStageSpec::UnlockOutput { outs: more }, ..run };
                lemma_collect_at_any_stage(
                    run,
                    RunStageSpec::UnlockOutput { outs: more },
                    more,
                );
                assert(read.step(reply_from(read, memory, locks)) == run.collect(more));
                assert(reading.step(reply_from(reading, memory, locks)) == (RunningSpec::Working {
                    run: read,
                }));
                assert(locked.step(reply_from(locked, memory, locks)) == (RunningSpec::Working {
                    run: reading,
                }));
                let s2 = RunningSpec::Working { run: read };
                let s1 = RunningSpec::Working { run: reading };
                assert(run_with(s2, memory, compute, locks, rest + 1) == run_with(
                    run.collect(more),
                    memory,
                    compute,
                    locks,
                    rest,
                ));
                assert(run_with(s1, memory, compute, locks, rest + 2) == run_with(
                    s2,
                    memory,
                    compute,
                    locks,
                    rest + 1,
                ));
                assert(run_with(s0, memory, compute, locks, rest + 3) == run_with(
                    s1,
                    memory,
                    compute,
                    locks,
                    rest + 2,
                ));
                rest + 3
            } else {
                lemma_collect_at_any_stage(run, RunStageSpec::LockOutput { outs }, more);
                assert(locked.step(reply_from(locked, memory, locks)) == run.collect(more));
                assert(run_with(s0, memory, compute, locks, rest + 1) == run_with(
                    run.collect(more),
                    memory,
                    compute,
                    locks,
                    rest,
                ));
                rest + 1
            }
        } else {
            rest
        }
    }
}

proof fn lemma_inputs_written(
    run: RunSpec,
    k: nat,
    memory: Memory,
    compute: Compute,
    locks: Locks,
) -> (n: nat)
    requires
        k <= run.writes.len(),
        run.stage is Invoke,
    ensures
        ({
            let before = written(memory, run.writes, locks, run.writes.len() as int);
            run_with(
                run.write_from(k),
                written(memory, run.writes, locks, k as int),
                compute,
                locks,
                n,
            ) == (
                RunningSpec::Ran {
                    method: run.method,
                    outputs: outputs_in(run.outputs, compute(before), locks),
                },
                compute(before),
            )
        }),
    decreases run.writes.len() - k,
{
    let before = written(memory, run.writes, locks, run.writes.len() as int);
    let now = written(memory, run.writes, locks, k as int);
    if k == run.writes.len() {
        let after = compute(before);
        assert(run.write_from(k) == (RunningSpec::Working { run }));
        assert(Seq::<TensorSpec>::empty() =~= outputs_in(run.outputs, after, locks).take(0));
        let rest = lemma_outputs_read(run, seq![], after, compute, locks);
        assert(run.step(reply_from(run, now, locks)) == run.collect(seq![]));
        assert(run_with(run.write_from(k), now, compute, locks, rest + 1) == run_with(
            run.collect(seq![]),
            after,
            compute,
            locks,
            rest,
        ));
        rest + 1
    } else {
        let rest = lemma_inputs_written(run, k + 1, memory, compute, locks);
        let next = written(memory, run.writes, locks, k as int + 1);
        let locked = RunSpec { stage: RunStageSpec::Lock { next: k }, ..run };
        let s0 = RunningSpec::Working { run: locked };
        if locks(run.writes[k as int].buffer) {
            let writing = RunSpec { stage: RunStageSpec::Write { next: k, address: 1 }, ..run };
            let unlocking = RunSpec { stage: RunStageSpec::Unlock { next: k }, ..run };
            assert(unlocking.write_from(k + 1) == run.write_from(k + 1));
            assert(unlocking.step(reply_from(unlocking, next, locks)) == run.write_from(k + 1));
            assert(writing.step(reply_from(writing, now, locks)) == (RunningSpec::Working {
                run: unlocking,
            }));
            assert(memory_after(writing, now, compute) == next);
            assert(locked.step(reply_from(locked, now, locks)) == (RunningSpec::Working {
                run: writing,
            }));
            let s2 = RunningSpec::Working { run: unlocking };
            let s1 = RunningSpec::Working { run: writing };
            assert(run_with(s2, next, compute, locks, rest + 1) == run_with(
                run.write_from(k + 1),
                next,
                compute,
                locks,
                rest,
            ));
            assert(run_with(s1, now, compute, locks, rest + 2) == run_with(
                s2,
                next,
                compute,
                locks,
                rest + 1,
            ));
            assert(run_with(s0, now, compute, locks, rest + 3) == run_with(
                s1,
                now,
                compute,
                locks,
                rest + 2,
            ));
            rest + 3
        } else {
            assert(locked.write_from(k + 1) == run.write_from(k + 1));
            assert(locked.step(reply_from(locked, now, locks)) == run.write_from(k + 1));
            assert(run_with(s0, now, compute, locks, rest + 1) == run_with(
                run.write_from(k + 1),
                now,
                compute,
                locks,
                rest,
            ));
            rest + 1
        }
    }
}

/// A run gives what the signature computes from the caller's inputs. The run
/// writes its inputs, the signature turns that memory into another, and the
/// outputs are read from it. What cannot be locked is passed over.
pub proof fn run_gives_what_was_computed(
    run: RunSpec,
    memory: Memory,
    compute: Compute,
    locks: Locks,
)
    requires
        run.stage is Invoke,
    ensures
        ({
            let before = written(memory, run.writes, locks, run.writes.len() as int);
            exists|n: nat| #[trigger]
                run_with(run.write_from(0), memory, compute, locks, n) == (
                    RunningSpec::Ran {
                        method: run.method,
                        outputs: outputs_in(run.outputs, compute(before), locks),
                    },
                    compute(before),
                )
        }),
{
    let n = lemma_inputs_written(run, 0, memory, compute, locks);
    assert(written(memory, run.writes, locks, 0) == memory);
}

/// No buffer is in two places.
pub open spec fn buffers_distinct(models: Seq<ModelSpec>) -> bool {
    forall|h: Handle| #[trigger] buffers_held(models).count(h) <= 1
}

proof fn lemma_model_within(models: Seq<ModelSpec>, k: int, h: Handle)
    requires
        0 <= k < models.len(),
    ensures
        buffers_held(models).count(h) >= all_buffers(models[k].signatures).to_multiset().count(h),
    decreases models.len(),
{
    if k < models.len() - 1 {
        assert(models.drop_last()[k] == models[k]);
        lemma_model_within(models.drop_last(), k, h);
    }
}

/// Where no buffer is in two places, the inputs of a signature have different
/// ones.
proof fn lemma_inputs_differ(models: Seq<ModelSpec>, k: int, s: int, i: int, j: int)
    requires
        buffers_distinct(models),
        0 <= k < models.len(),
        models[k].input(s, i) is Some,
        models[k].input(s, j) is Some,
        i != j,
    ensures
        models[k].input(s, i).unwrap().buffer != models[k].input(s, j).unwrap().buffer,
{
    broadcast use vstd::seq_lib::group_to_multiset_ensures;

    let sig = models[k].signatures[s];
    let b = slot_buffers(sig.inputs);
    let all = signature_buffers(sig);
    vstd::seq_lib::lemma_multiset_commutative(b, slot_buffers(sig.outputs));
    assert forall|h: Handle| b.to_multiset().contains(h) implies #[trigger] b.to_multiset().count(h)
        == 1 by {
        lemma_model_within(models, k, h);
        lemma_signature_within(models[k].signatures, s, h);
        assert(buffers_held(models).count(h) <= 1);
        assert(all.to_multiset().count(h) >= b.to_multiset().count(h));
    }
    b.lemma_multiset_has_no_duplicates_conv();
    assert(b[i] == sig.inputs[i].buffer);
    assert(b[j] == sig.inputs[j].buffer);
}

/// A write is for an input that a run does not skip.
spec fn is_for(e: EngineSpec, method: Method, w: WriteSpec, j: int) -> bool {
    !e.skips(method, j) && match e.model_of(method).input(
        e.routes.at(method).unwrap().1 as int,
        j,
    ) {
        Some(s) => w.buffer == s.buffer,
        None => false,
    }
}

/// What a run writes is for inputs that it does not skip.
proof fn lemma_pending(e: EngineSpec, method: Method, inputs: Seq<Seq<u8>>, k: int) -> (j: int)
    requires
        e.routes.at(method) is Some,
        0 <= k < e.pending(method, inputs).len(),
    ensures
        0 <= j < inputs.len(),
        is_for(e, method, e.pending(method, inputs)[k], j),
    decreases inputs.len(),
{
    let before = e.pending(method, inputs.drop_last());
    if k < before.len() {
        lemma_pending(e, method, inputs.drop_last(), k)
    } else {
        inputs.len() - 1
    }
}

/// A run does not write to the buffer of an input that it skips.
proof fn lemma_skipped_is_left_alone(
    e: EngineSpec,
    method: Method,
    i: int,
    inputs: Seq<Seq<u8>>,
    buffer: Handle,
)
    requires
        e.routes.at(method) is Some,
        e.skips(method, i),
        e.no_other_has(method, i, inputs.len(), buffer),
    ensures
        forall|k: int|
            0 <= k < e.pending(method, inputs).len() ==> (#[trigger] e.pending(
                method,
                inputs,
            )[k]).buffer != buffer,
{
    assert forall|k: int| 0 <= k < e.pending(method, inputs).len() implies (#[trigger] e.pending(
        method,
        inputs,
    )[k]).buffer != buffer by {
        let j = lemma_pending(e, method, inputs, k);
        assert(e.model_of(method).input(e.routes.at(method).unwrap().1 as int, j) is Some);
    }
}

proof fn lemma_written_elsewhere(
    memory: Memory,
    writes: Seq<WriteSpec>,
    locks: Locks,
    n: int,
    h: Handle,
)
    requires
        0 <= n <= writes.len(),
        forall|k: int| 0 <= k < n ==> (#[trigger] writes[k]).buffer != h,
    ensures
        written(memory, writes, locks, n)[h] == memory[h],
    decreases n,
{
    if n > 0 {
        lemma_written_elsewhere(memory, writes, locks, n - 1, h);
    }
}

/// The first writes are the same whatever follows.
proof fn lemma_written_first(
    memory: Memory,
    writes: Seq<WriteSpec>,
    last: WriteSpec,
    locks: Locks,
    n: int,
)
    requires
        0 <= n <= writes.len(),
    ensures
        written(memory, writes.push(last), locks, n) == written(memory, writes, locks, n),
    decreases n,
{
    if n > 0 {
        lemma_written_first(memory, writes, last, locks, n - 1);
    }
}

impl EngineSpec {
    /// The buffer of an input of a method.
    pub open spec fn input_buffer(self, method: Method, i: int) -> Handle {
        self.model_of(method).input(
            self.routes.at(method).unwrap().1 as int,
            i,
        ).unwrap().buffer
    }

    /// The buffer of an output of a method.
    pub open spec fn output_buffer(self, method: Method, i: int) -> Handle {
        self.model_of(method).output(
            self.routes.at(method).unwrap().1 as int,
            i,
        ).unwrap().buffer
    }

    /// Of the first `count` inputs of a method, none but input `i` has this buffer.
    pub open spec fn no_other_has(
        self,
        method: Method,
        i: int,
        count: nat,
        buffer: Handle,
    ) -> bool {
        let sig = self.routes.at(method).unwrap().1 as int;
        forall|j: int|
            0 <= j < count && j != i && (#[trigger] self.model_of(method).input(sig, j)) is Some
                ==> self.model_of(method).input(sig, j).unwrap().buffer != buffer
    }

    /// Of the first `count` inputs of a method, none after input `i` has its
    /// buffer.
    pub open spec fn none_after_has(self, method: Method, i: int, count: nat) -> bool {
        let sig = self.routes.at(method).unwrap().1 as int;
        forall|j: int|
            i < j < count && (#[trigger] self.model_of(method).input(sig, j)) is Some
                ==> self.model_of(method).input(sig, j).unwrap().buffer != self.input_buffer(
                method,
                i,
            )
    }

    /// What the buffers hold when a run of a method has written its inputs: what
    /// the signature sees.
    pub open spec fn seen(
        self,
        method: Method,
        inputs: Seq<Seq<u8>>,
        memory: Memory,
        locks: Locks,
    ) -> Memory {
        let writes = self.pending(method, inputs);
        written(memory, writes, locks, writes.len() as int)
    }

    /// The engine once a run of a method has ended well.
    pub open spec fn after_run(self, method: Method) -> EngineSpec {
        self.started(method).finished(method)
    }

    /// Nothing is fed back and nothing is piped.
    pub open spec fn unlinked(self) -> bool {
        &&& forall|m: Method| (#[trigger] self.feedback.at(m)).len() == 0
        &&& self.pipes.len() == 0
    }
}

/// Running a method gives what its signature computes from what it sees.
pub proof fn method_gives_what_was_computed(
    e: EngineSpec,
    method: Method,
    inputs: Seq<Seq<u8>>,
    memory: Memory,
    compute: Compute,
    locks: Locks,
)
    requires
        e.routes.at(method) is Some,
        e.routes.at(method).unwrap().1 < e.model_of(method).signatures.len(),
    ensures
        ({
            let after = compute(e.seen(method, inputs, memory, locks));
            exists|n: nat| #[trigger]
                run_with(e.running(method, inputs), memory, compute, locks, n) == (
                    RunningSpec::Ran {
                        method,
                        outputs: outputs_in(e.planned(method, inputs).outputs, after, locks),
                    },
                    after,
                )
        }),
{
    run_gives_what_was_computed(e.planned(method, inputs), memory, compute, locks);
}

/// What the caller gives arrives. The signature sees as each input that is not
/// skipped, and whose buffer can be locked, what the caller gave for it, cut or
/// filled up with zeros to the size of the buffer. So it is where no later input
/// is written to the same buffer.
pub proof fn inputs_arrive(
    e: EngineSpec,
    method: Method,
    inputs: Seq<Seq<u8>>,
    i: int,
    memory: Memory,
    locks: Locks,
)
    requires
        e.routes.at(method) is Some,
        e.none_after_has(method, i, inputs.len()),
        0 <= i < inputs.len(),
        !e.skips(method, i),
        e.model_of(method).input(e.routes.at(method).unwrap().1 as int, i) matches Some(s)
            && s.byte_len() > 0 && locks(s.buffer),
    ensures
        ({
            let s = e.model_of(method).input(e.routes.at(method).unwrap().1 as int, i).unwrap();
            e.seen(method, inputs, memory, locks)[s.buffer] == fitted(inputs[i], s.byte_len())
        }),
    decreases inputs.len(),
{
    let rest = inputs.drop_last();
    let before = e.pending(method, rest);
    let writes = e.pending(method, inputs);
    let last = inputs.len() - 1;
    if i == last {
        lemma_written_first(memory, before, writes.last(), locks, before.len() as int);
    } else {
        inputs_arrive(e, method, rest, i, memory, locks);
        if writes != before {
            assert(writes == before.push(writes.last()));
            lemma_written_first(memory, before, writes.last(), locks, before.len() as int);
            assert(e.model_of(method).input(
                e.routes.at(method).unwrap().1 as int,
                last,
            ) is Some);
        }
    }
}

/// An input that is skipped is left alone: the signature sees what its buffer
/// held before the run. So it is where no other input has the same buffer.
pub proof fn skipped_inputs_stay(
    e: EngineSpec,
    method: Method,
    inputs: Seq<Seq<u8>>,
    i: int,
    memory: Memory,
    locks: Locks,
)
    requires
        e.routes.at(method) is Some,
        e.skips(method, i),
        e.no_other_has(method, i, inputs.len(), e.input_buffer(method, i)),
    ensures
        e.seen(method, inputs, memory, locks)[e.input_buffer(method, i)]
            == memory[e.input_buffer(method, i)],
{
    let writes = e.pending(method, inputs);
    lemma_skipped_is_left_alone(e, method, i, inputs, e.input_buffer(method, i));
    lemma_written_elsewhere(
        memory,
        writes,
        locks,
        writes.len() as int,
        e.input_buffer(method, i),
    );
}

/// Where no buffer is in two places, the inputs of a method are apart.
pub proof fn distinct_inputs_are_apart(e: EngineSpec, method: Method, i: int, count: nat)
    requires
        e.well_formed(),
        e.routes.at(method) is Some,
        buffers_distinct(e.models),
        e.model_of(method).input(e.routes.at(method).unwrap().1 as int, i) is Some,
    ensures
        e.no_other_has(method, i, count, e.input_buffer(method, i)),
        e.none_after_has(method, i, count),
{
    let route = e.routes.at(method).unwrap();
    assert forall|j: int|
        j != i && (#[trigger] e.model_of(method).input(route.1 as int, j)) is Some implies
        e.model_of(method).input(route.1 as int, j).unwrap().buffer != e.input_buffer(
        method,
        i,
    ) by {
        lemma_inputs_differ(e.models, route.0 as int, route.1 as int, i, j);
    }
}

/// No buffer comes to be in two places: not by registering, not by running.
pub proof fn buffers_stay_distinct(e: EngineSpec, method: Method)
    requires
        e.well_formed(),
        e.links_usable(),
        buffers_distinct(e.models),
    ensures
        e.routes.at(method) is Some ==> buffers_distinct(e.after_run(method).models),
        forall|o: usize, i: usize|
            buffers_distinct((#[trigger] e.fed_back(method, o, i)).models),
        forall|o: usize, to: Method, i: usize|
            buffers_distinct((#[trigger] e.piped(method, o, to, i)).models),
{
    links_stay_usable(e, method);
    if e.routes.at(method) is Some {
        run_keeps_buffers(e.started(method), method);
    }
}

/// A fed-back output is the next call's input without being copied. Where no two
/// links of the method have an end in common, the next run of the method sees
/// as the input what the last run left in the buffer of the output.
pub proof fn next_call_reads_what_the_last_wrote(
    e: EngineSpec,
    method: Method,
    k: int,
    inputs: Seq<Seq<u8>>,
    memory: Memory,
    locks: Locks,
)
    requires
        e.well_formed(),
        e.links_usable(),
        e.routes.at(method) is Some,
        moves_apart(e.moves(method)),
        buffers_distinct(e.models),
        0 <= k < e.feedback.at(method).len(),
    ensures
        ({
            let after = e.after_run(method);
            let (o, i) = e.feedback.at(method)[k];
            &&& after.skips(method, i as int)
            &&& after.seen(method, inputs, memory, locks)[after.input_buffer(method, i as int)]
                == memory[e.output_buffer(method, o as int)]
        }),
{
    let after = e.after_run(method);
    let begun = e.started(method);
    let pair = e.feedback.at(method)[k];
    links_stay_usable(e, method);
    links_stay_usable(begun, method);
    lemma_same_moves(e, method);
    outputs_become_inputs(begun, method);
    run_keeps_buffers(begun, method);
    let m = begun.feedback_move(method, begun.feedback.at(method)[k]);
    assert(move_input(after.models, m) == Some(
        move_input(begun.models, m).unwrap().with_buffer(
            move_output(begun.models, m).unwrap().buffer,
        ),
    ));
    assert(after.feedback.at(method)[k].1 == pair.1);
    assert(after.skips(method, pair.1 as int));
    distinct_inputs_are_apart(after, method, pair.1 as int, inputs.len());
    skipped_inputs_stay(after, method, inputs, pair.1 as int, memory, locks);
}

/// Starting a run changes no link.
proof fn lemma_same_moves(e: EngineSpec, method: Method)
    ensures
        e.started(method).moves(method) == e.moves(method),
{
    lemma_same_pipe_moves(e, method, e.pipes.len() as int);
    assert(e.started(method).moves(method) =~= e.moves(method));
}

proof fn lemma_same_pipe_moves(e: EngineSpec, method: Method, n: int)
    ensures
        e.started(method).pipe_moves(method, n) == e.pipe_moves(method, n),
    decreases n,
{
    if n > 0 {
        lemma_same_pipe_moves(e, method, n - 1);
    }
}

/// A piped output is the other method's input without being copied. Where no two
/// links of the first method have an end in common, a run of the second sees as
/// the input what the run of the first left in the buffer of the output.
pub proof fn piped_call_reads_what_the_other_wrote(
    e: EngineSpec,
    method: Method,
    k: int,
    inputs: Seq<Seq<u8>>,
    memory: Memory,
    locks: Locks,
)
    requires
        e.well_formed(),
        e.links_usable(),
        moves_apart(e.moves(method)),
        buffers_distinct(e.models),
        0 <= k < e.pipes.len(),
        e.pipes[k].0 == method,
    ensures
        ({
            let after = e.after_run(method);
            let (_, o, to, i) = e.pipes[k];
            &&& after.skips(to, i as int)
            &&& after.seen(to, inputs, memory, locks)[after.input_buffer(to, i as int)]
                == memory[e.output_buffer(method, o as int)]
        }),
{
    let after = e.after_run(method);
    let begun = e.started(method);
    let p = e.pipes[k];
    assert(e.can_pipe(p.0, p.1, p.2, p.3));
    links_stay_usable(e, method);
    links_stay_usable(begun, method);
    lemma_same_moves(e, method);
    outputs_become_inputs(begun, method);
    run_keeps_buffers(begun, method);
    let m = begun.pipe_move(begun.pipes[k]);
    assert(move_input(after.models, m) == Some(
        move_input(begun.models, m).unwrap().with_buffer(
            move_output(begun.models, m).unwrap().buffer,
        ),
    ));
    assert(after.pipes[k] == p);
    assert(after.skips(p.2, p.3 as int));
    distinct_inputs_are_apart(after, p.2, p.3 as int, inputs.len());
    skipped_inputs_stay(after, p.2, inputs, p.3 as int, memory, locks);
}

/// A method with one feedback pair and no pipe makes one move. After a run the
/// input has the buffer of the output, and all other inputs have their own.
proof fn lemma_one_feedback(e: EngineSpec, method: Method, o: usize, i: usize)
    requires
        e.well_formed(),
        e.unlinked(),
        e.can_feed_back(method, o, i),
    ensures
        ({
            let sig = e.routes.at(method).unwrap().1 as int;
            let next = e.fed_back(method, o, i).after_run(method);
            &&& next.well_formed()
            &&& next.routes == e.routes
            &&& next.skips(method, i as int)
            &&& next.input_buffer(method, i as int) == e.output_buffer(method, o as int)
            &&& forall|j: int|
                j != i ==> #[trigger] next.model_of(method).input(sig, j) == e.model_of(
                    method,
                ).input(sig, j)
        }),
{
    let linked = e.fed_back(method, o, i);
    let begun = linked.started(method);
    let next = linked.after_run(method);
    let route = e.routes.at(method).unwrap();
    links_stay_usable(e, method);
    links_stay_usable(linked, method);
    links_stay_usable(begun, method);
    assert(e.feedback.at(method).len() == 0);
    assert(!e.feedback.at(method).contains((o, i)));
    assert(linked.feedback.at(method) =~= seq![(o, i)]);
    assert(begun.feedback.at(method)[0] == (o, i));
    assert(begun.pipe_moves(method, 0).len() == 0);
    assert(begun.moves(method).len() == 1);
    let m = begun.feedback_move(method, (o, i));
    assert(begun.moves(method)[0] == m);
    outputs_become_inputs(begun, method);
    assert(move_input(next.models, m) is Some);
    assert(next.feedback.at(method)[0].1 == i);
    assert(next.ran.at(method));
    assert forall|j: int| j != i implies #[trigger] next.model_of(method).input(
        route.1 as int,
        j,
    ) == e.model_of(method).input(route.1 as int, j) by {
        assert forall|k: int| 0 <= k < begun.moves(method).len() implies !leads_to(
            #[trigger] begun.moves(method)[k],
            route.0 as int,
            route.1 as int,
            j,
        ) by {}
        assert(begun.finished(method).models[route.0 as int].input(route.1 as int, j)
            == begun.models[route.0 as int].input(route.1 as int, j));
    }
}

/// The same for a method with one pipe, and the method that it leads to.
proof fn lemma_one_pipe(e: EngineSpec, from: Method, o: usize, to: Method, i: usize)
    requires
        e.well_formed(),
        e.unlinked(),
        e.can_pipe(from, o, to, i),
    ensures
        ({
            let sig = e.routes.at(to).unwrap().1 as int;
            let next = e.piped(from, o, to, i).after_run(from);
            &&& next.well_formed()
            &&& next.routes == e.routes
            &&& next.skips(to, i as int)
            &&& next.input_buffer(to, i as int) == e.output_buffer(from, o as int)
            &&& forall|j: int|
                j != i ==> #[trigger] next.model_of(to).input(sig, j) == e.model_of(to).input(
                    sig,
                    j,
                )
        }),
{
    let entry = (from, o, to, i);
    let linked = e.piped(from, o, to, i);
    let begun = linked.started(from);
    let next = linked.after_run(from);
    let route = e.routes.at(to).unwrap();
    links_stay_usable(e, from);
    links_stay_usable(linked, from);
    links_stay_usable(begun, from);
    assert(linked.pipes =~= seq![entry]);
    assert(linked.feedback.at(from) == e.feedback.at(from));
    assert(begun.feedback.at(from).len() == 0);
    assert(begun.pipes[0] == entry);
    assert(begun.pipe_moves(from, 0).len() == 0);
    let m = begun.pipe_move(entry);
    assert(begun.pipe_moves(from, 1) =~= seq![m]);
    assert(begun.moves(from) =~= seq![m]);
    outputs_become_inputs(begun, from);
    assert(begun.pipes[0].0 == from);
    assert(move_input(next.models, m) is Some);
    assert(next.pipes[0] == entry);
    assert(next.skips(to, i as int));
    assert forall|j: int| j != i implies #[trigger] next.model_of(to).input(route.1 as int, j)
        == e.model_of(to).input(route.1 as int, j) by {
        assert forall|k: int| 0 <= k < begun.moves(from).len() implies !leads_to(
            #[trigger] begun.moves(from)[k],
            route.0 as int,
            route.1 as int,
            j,
        ) by {
            assert(begun.moves(from)[k] == m);
        }
        assert(begun.finished(from).models[route.0 as int].input(route.1 as int, j)
            == begun.models[route.0 as int].input(route.1 as int, j));
    }
}

/// Where no buffer is in two places, an output that can be fed back is apart from
/// all inputs of its method.
pub proof fn distinct_feedback_is_apart(
    e: EngineSpec,
    method: Method,
    o: usize,
    i: usize,
    count: nat,
)
    requires
        e.well_formed(),
        e.unlinked(),
        buffers_distinct(e.models),
        e.can_feed_back(method, o, i),
    ensures
        e.no_other_has(method, i as int, count, e.output_buffer(method, o as int)),
{
    let linked = e.fed_back(method, o, i);
    let next = linked.after_run(method);
    let sig = e.routes.at(method).unwrap().1 as int;
    lemma_one_feedback(e, method, o, i);
    links_stay_usable(e, method);
    buffers_stay_distinct(linked, method);
    assert(alike(
        e.model_of(method).input(sig, i as int),
        next.model_of(method).input(sig, i as int),
    )) by {
        links_stay_usable(linked, method);
        run_keeps_buffers(linked.started(method), method);
        assert(model_alike(e.model_of(method), next.model_of(method)));
    }
    distinct_inputs_are_apart(next, method, i as int, count);
    assert forall|j: int|
        0 <= j < count && j != i && (#[trigger] e.model_of(method).input(sig, j)) is Some implies
        e.model_of(method).input(sig, j).unwrap().buffer != e.output_buffer(method, o as int) by {
        assert(next.model_of(method).input(sig, j) == e.model_of(method).input(sig, j));
    }
}

/// Where no buffer is in two places, an output that can be piped is apart from
/// all inputs of the other method.
pub proof fn distinct_pipe_is_apart(
    e: EngineSpec,
    from: Method,
    o: usize,
    to: Method,
    i: usize,
    count: nat,
)
    requires
        e.well_formed(),
        e.unlinked(),
        buffers_distinct(e.models),
        e.can_pipe(from, o, to, i),
    ensures
        e.no_other_has(to, i as int, count, e.output_buffer(from, o as int)),
{
    let linked = e.piped(from, o, to, i);
    let next = linked.after_run(from);
    let sig = e.routes.at(to).unwrap().1 as int;
    lemma_one_pipe(e, from, o, to, i);
    links_stay_usable(e, from);
    buffers_stay_distinct(linked, from);
    assert(alike(
        e.model_of(to).input(sig, i as int),
        next.model_of(to).input(sig, i as int),
    )) by {
        links_stay_usable(linked, from);
        run_keeps_buffers(linked.started(from), from);
        assert(model_alike(e.model_of(to), next.model_of(to)));
    }
    distinct_inputs_are_apart(next, to, i as int, count);
    assert forall|j: int|
        0 <= j < count && j != i && (#[trigger] e.model_of(to).input(sig, j)) is Some implies
        e.model_of(to).input(sig, j).unwrap().buffer != e.output_buffer(from, o as int) by {
        assert(next.model_of(to).input(sig, j) == e.model_of(to).input(sig, j));
    }
}

/// A loop that feeds on itself: where one output of a method is fed back to one
/// of its inputs, and the method has run once since, its next run sees as the
/// input exactly the bytes that the last run produced as the output, unless
/// another of its inputs is written to that very buffer. What the caller gives
/// for the input makes no difference.
pub proof fn loop_feeds_on_itself(
    e: EngineSpec,
    method: Method,
    o: usize,
    i: usize,
    first: Seq<Seq<u8>>,
    second: Seq<Seq<u8>>,
    other: Seq<Seq<u8>>,
    memory: Memory,
    compute: Compute,
    locks: Locks,
)
    requires
        e.well_formed(),
        e.unlinked(),
        e.can_feed_back(method, o, i),
        e.no_other_has(method, i as int, second.len(), e.output_buffer(method, o as int)),
        second.len() == other.len(),
        forall|j: int| 0 <= j < second.len() && j != i ==> #[trigger] second[j] == other[j],
    ensures
        ({
            let linked = e.fed_back(method, o, i);
            let produced = compute(linked.seen(method, first, memory, locks));
            let next = linked.after_run(method);
            &&& next.seen(method, second, produced, locks)[next.input_buffer(method, i as int)]
                == produced[linked.output_buffer(method, o as int)]
            &&& next.running(method, second) == next.running(method, other)
        }),
{
    let linked = e.fed_back(method, o, i);
    let produced = compute(linked.seen(method, first, memory, locks));
    let next = linked.after_run(method);
    let sig = e.routes.at(method).unwrap().1 as int;
    lemma_one_feedback(e, method, o, i);
    assert forall|j: int|
        0 <= j < second.len() && j != i && (#[trigger] next.model_of(method).input(
            sig,
            j,
        )) is Some implies next.model_of(method).input(sig, j).unwrap().buffer
        != next.input_buffer(method, i as int) by {
        assert(e.model_of(method).input(sig, j) is Some);
    }
    skipped_inputs_stay(next, method, second, i as int, produced, locks);
    skipped_inputs_are_ignored(next, method, second, other);
}

/// The first call of a round takes its input from the caller: where an output of
/// a method is fed back to an input that no pipe leads to, the method's next run
/// sees as that input what the caller gives, whether or not it has run before,
/// unless a later input is written to that very buffer. Registering again starts
/// over.
pub proof fn round_starts_from_the_caller(
    e: EngineSpec,
    method: Method,
    o: usize,
    i: usize,
    inputs: Seq<Seq<u8>>,
    memory: Memory,
    locks: Locks,
)
    requires
        e.can_feed_back(method, o, i),
        e.none_after_has(method, i as int, inputs.len()),
        forall|k: int| 0 <= k < e.pipes.len() ==> {
            let p = #[trigger] e.pipes[k];
            !(p.2 == method && p.3 == i)
        },
        i < inputs.len(),
        e.model_of(method).input(
            e.routes.at(method).unwrap().1 as int,
            i as int,
        ).unwrap().byte_len() > 0,
        locks(e.input_buffer(method, i as int)),
    ensures
        ({
            let linked = e.fed_back(method, o, i);
            let s = e.model_of(method).input(
                e.routes.at(method).unwrap().1 as int,
                i as int,
            ).unwrap();
            linked.seen(method, inputs, memory, locks)[s.buffer] == fitted(
                inputs[i as int],
                s.byte_len(),
            )
        }),
{
    let linked = e.fed_back(method, o, i);
    registering_starts_a_new_round(e, method, o, i, i as int);
    assert(linked.model_of(method) == e.model_of(method));
    inputs_arrive(linked, method, inputs, i as int, memory, locks);
}

/// One method feeds another: where one output of a method is piped to one input
/// of another, and the first has run since, a run of the second sees as the
/// input exactly the bytes that the first produced as the output, unless another
/// of its inputs is written to that very buffer. So it is inside one model and
/// between two. What the caller gives for the input makes no difference.
pub proof fn pipe_feeds_the_other(
    e: EngineSpec,
    from: Method,
    o: usize,
    to: Method,
    i: usize,
    first: Seq<Seq<u8>>,
    second: Seq<Seq<u8>>,
    other: Seq<Seq<u8>>,
    memory: Memory,
    compute: Compute,
    locks: Locks,
)
    requires
        e.well_formed(),
        e.unlinked(),
        e.can_pipe(from, o, to, i),
        e.no_other_has(to, i as int, second.len(), e.output_buffer(from, o as int)),
        second.len() == other.len(),
        forall|j: int| 0 <= j < second.len() && j != i ==> #[trigger] second[j] == other[j],
    ensures
        ({
            let linked = e.piped(from, o, to, i);
            let produced = compute(linked.seen(from, first, memory, locks));
            let next = linked.after_run(from);
            &&& next.seen(to, second, produced, locks)[next.input_buffer(to, i as int)]
                == produced[linked.output_buffer(from, o as int)]
            &&& next.running(to, second) == next.running(to, other)
        }),
{
    let linked = e.piped(from, o, to, i);
    let produced = compute(linked.seen(from, first, memory, locks));
    let next = linked.after_run(from);
    let sig = e.routes.at(to).unwrap().1 as int;
    lemma_one_pipe(e, from, o, to, i);
    assert forall|j: int|
        0 <= j < second.len() && j != i && (#[trigger] next.model_of(to).input(
            sig,
            j,
        )) is Some implies next.model_of(to).input(sig, j).unwrap().buffer != next.input_buffer(
        to,
        i as int,
    ) by {
        assert(e.model_of(to).input(sig, j) is Some);
    }
    skipped_inputs_stay(next, to, second, i as int, produced, locks);
    skipped_inputs_are_ignored(next, to, second, other);
}

/// A pipe counts from its declaration on: what the caller gives for the input it
/// leads to makes no difference, though nothing has run yet.
pub proof fn piped_input_is_ignored(
    e: EngineSpec,
    from: Method,
    o: usize,
    to: Method,
    i: usize,
    a: Seq<Seq<u8>>,
    b: Seq<Seq<u8>>,
)
    requires
        a.len() == b.len(),
        forall|j: int| 0 <= j < a.len() && j != i ==> #[trigger] a[j] == b[j],
    ensures
        e.piped(from, o, to, i).running(to, a) == e.piped(from, o, to, i).running(to, b),
{
    let entry = (from, o, to, i);
    let linked = e.piped(from, o, to, i);
    assert(linked.pipes.contains(entry)) by {
        if !e.pipes.contains(entry) {
            assert(linked.pipes[e.pipes.len() as int] == entry);
        }
    }
    let k = choose|k: int| 0 <= k < linked.pipes.len() && linked.pipes[k] == entry;
    assert(linked.pipes[k].2 == to && linked.pipes[k].3 == i);
    skipped_inputs_are_ignored(linked, to, a, b);
}

/// Registering feedback starts a new round: the next call takes every input from
/// the caller, but for those that a pipe leads to.
pub proof fn registering_starts_a_new_round(
    e: EngineSpec,
    method: Method,
    out_index: usize,
    in_index: usize,
    i: int,
)
    ensures
        e.fed_back(method, out_index, in_index).skips(method, i) <==> exists|k: int|
            0 <= k < e.pipes.len() && (#[trigger] e.pipes[k]).2 == method && e.pipes[k].3 == i,
{
    assert(e.fed_back(method, out_index, in_index).pipes == e.pipes);
}

/// What the caller gives for an input that is skipped is ignored: two calls that
/// agree on all other inputs are one.
pub proof fn skipped_inputs_are_ignored(
    e: EngineSpec,
    method: Method,
    a: Seq<Seq<u8>>,
    b: Seq<Seq<u8>>,
)
    requires
        a.len() == b.len(),
        forall|i: int| 0 <= i < a.len() && !e.skips(method, i) ==> #[trigger] a[i] == b[i],
    ensures
        e.pending(method, a) == e.pending(method, b),
        e.running(method, a) == e.running(method, b),
    decreases a.len(),
{
    if a.len() > 0 {
        let x = a.drop_last();
        let y = b.drop_last();
        assert forall|i: int| 0 <= i < x.len() && !e.skips(method, i) implies #[trigger] x[i]
            == y[i] by {
            assert(a[i] == b[i]);
        }
        skipped_inputs_are_ignored(e, method, x, y);
        if !e.skips(method, a.len() - 1) {
            assert(a[a.len() - 1] == b[b.len() - 1]);
        }
    } else {
        assert(a =~= b);
    }
}

} // verus!
