//! The LiteRT engine.
//!
//! It goes through LiteRT's compiled models, which have several signatures and
//! can use the GPU.
//!
//! Model files, in `model_dir`:
//! `prefix_enc.tflite` has one signature,
//! `decoder.tflite` has two, `prefill` and `decode`, which share their weights.

pub mod flow;
pub mod ledger;
pub mod machine;
pub mod memory;
pub mod opening;
pub mod outcome;
pub mod replies;
pub mod run;
pub mod uses;

use super::litert_sys::model::{
    exchange_undoes_itself, same_shape, CompiledModel, ModelSpec, SlotSpec,
};
use super::litert_sys::native::Call;
use crate::methods::PerMethod;
use crate::Method;
use vstd::prelude::*;

verus! {

/// An engine of compiled models.
///
/// Recognition has two of them, an encoder and a decoder with two signatures;
/// hand detection has one with a single signature.
pub struct LiteRtCompiledEngine {
    pub models: Vec<CompiledModel>,
    /// The model and the signature in it that each method runs. `prefill` and
    /// `step` are two signatures of one decoder: compiling it twice would hold
    /// its weights twice.
    pub routes: PerMethod<Option<(usize, usize)>>,
    /// The outputs of each method that become inputs of its next call, as pairs
    /// of an output and an input. A KV cache has many: every layer has its own.
    pub feedback: PerMethod<Vec<(usize, usize)>>,
    /// The outputs of a method that become inputs of another. What the caller
    /// gives for such an input is ignored from the declaration on.
    pub pipes: Vec<(Method, usize, Method, usize)>,
    /// The methods that have run. Feedback counts from the second call on: the
    /// first takes its inputs from the caller.
    pub ran: PerMethod<bool>,
    pub on_gpu: bool,
}

/// What a [`LiteRtCompiledEngine`] holds.
pub struct EngineSpec {
    pub models: Seq<ModelSpec>,
    pub routes: PerMethod<Option<(usize, usize)>>,
    pub feedback: PerMethod<Seq<(usize, usize)>>,
    pub pipes: Seq<(Method, usize, Method, usize)>,
    pub ran: PerMethod<bool>,
    pub on_gpu: bool,
}

/// What a list of models holds.
pub open spec fn models_of(v: Seq<CompiledModel>) -> Seq<ModelSpec> {
    Seq::new(v.len(), |i: int| v[i]@)
}

impl View for LiteRtCompiledEngine {
    type V = EngineSpec;

    open spec fn view(&self) -> EngineSpec {
        EngineSpec {
            models: models_of(self.models@),
            routes: self.routes,
            feedback: PerMethod {
                prefix_enc: self.feedback.prefix_enc@,
                prefill: self.feedback.prefill@,
                step: self.feedback.step@,
            },
            pipes: self.pipes@,
            ran: self.ran,
            on_gpu: self.on_gpu,
        }
    }
}

/// A buffer on its way from an output to an input: the model, signature and
/// index of each.
pub struct Move {
    pub from_model: int,
    pub from_sig: int,
    pub out_idx: int,
    pub to_model: int,
    pub to_sig: int,
    pub in_idx: int,
}

/// The output that a move starts from.
pub open spec fn move_output(models: Seq<ModelSpec>, m: Move) -> Option<SlotSpec> {
    models[m.from_model].output(m.from_sig, m.out_idx)
}

/// The input that a move leads to.
pub open spec fn move_input(models: Seq<ModelSpec>, m: Move) -> Option<SlotSpec> {
    models[m.to_model].input(m.to_sig, m.in_idx)
}

/// A move can be made: both ends are there, and inside one model they agree.
pub open spec fn can_move(models: Seq<ModelSpec>, m: Move) -> bool {
    if m.from_model == m.to_model {
        models[m.from_model].across_match(m.from_sig, m.out_idx, m.to_sig, m.in_idx)
    } else {
        move_output(models, m) is Some && move_input(models, m) is Some
    }
}

/// The models after the buffers at the two ends of a move have changed places;
/// as they were where it cannot be made.
pub open spec fn moved(models: Seq<ModelSpec>, m: Move) -> Seq<ModelSpec> {
    if !can_move(models, m) {
        models
    } else {
        let o = move_output(models, m).unwrap().buffer;
        let i = move_input(models, m).unwrap().buffer;
        let mid = models.update(
            m.from_model,
            models[m.from_model].with_output(m.from_sig, m.out_idx, i),
        );
        mid.update(m.to_model, mid[m.to_model].with_input(m.to_sig, m.in_idx, o))
    }
}

/// The models after a number of moves, in order.
pub open spec fn moved_all(models: Seq<ModelSpec>, moves: Seq<Move>) -> Seq<ModelSpec>
    decreases moves.len(),
{
    if moves.len() == 0 {
        models
    } else {
        moved(moved_all(models, moves.drop_last()), moves.last())
    }
}

impl EngineSpec {
    /// Every route leads to a model.
    pub open spec fn well_formed(self) -> bool {
        forall|m: Method|
            (#[trigger] self.routes.at(m)) matches Some(r) ==> r.0 < self.models.len()
    }

    /// The output of a method that is fed back to its own input.
    pub open spec fn feedback_move(self, method: Method, pair: (usize, usize)) -> Move {
        let r = self.routes.at(method).unwrap();
        Move {
            from_model: r.0 as int,
            from_sig: r.1 as int,
            out_idx: pair.0 as int,
            to_model: r.0 as int,
            to_sig: r.1 as int,
            in_idx: pair.1 as int,
        }
    }

    /// The output of a method that is piped to an input of another.
    pub open spec fn pipe_move(self, pipe: (Method, usize, Method, usize)) -> Move {
        let f = self.routes.at(pipe.0).unwrap();
        let t = self.routes.at(pipe.2).unwrap();
        Move {
            from_model: f.0 as int,
            from_sig: f.1 as int,
            out_idx: pipe.1 as int,
            to_model: t.0 as int,
            to_sig: t.1 as int,
            in_idx: pipe.3 as int,
        }
    }

    /// The moves of the first `n` feedback pairs of a method.
    pub open spec fn feedback_moves(self, method: Method, n: int) -> Seq<Move> {
        Seq::new(n as nat, |k: int| self.feedback_move(method, self.feedback.at(method)[k]))
    }

    /// The moves of those of the first `n` pipes that start at a method.
    pub open spec fn pipe_moves(self, method: Method, n: int) -> Seq<Move>
        decreases n,
    {
        if n <= 0 {
            seq![]
        } else {
            let p = self.pipes[n - 1];
            let before = self.pipe_moves(method, n - 1);
            if p.0 == method && self.routes.at(p.0) is Some && self.routes.at(p.2) is Some {
                before.push(self.pipe_move(p))
            } else {
                before
            }
        }
    }

    /// The moves that follow a run of a method: feedback first, then pipes.
    pub open spec fn moves(self, method: Method) -> Seq<Move> {
        self.feedback_moves(method, self.feedback.at(method).len() as int) + self.pipe_moves(
            method,
            self.pipes.len() as int,
        )
    }

    /// The engine after a run of a method.
    pub open spec fn finished(self, method: Method) -> EngineSpec {
        EngineSpec { models: moved_all(self.models, self.moves(method)), ..self }
    }

    /// An output of a method can be fed back to one of its inputs.
    pub open spec fn can_feed_back(self, method: Method, out_index: usize, in_index: usize) -> bool {
        match self.routes.at(method) {
            Some(r) => self.models[r.0 as int].io_match(r.1 as int, in_index as int, out_index as int),
            None => false,
        }
    }

    /// With feedback registered: the pair is kept once, and the method counts as
    /// not having run.
    pub open spec fn fed_back(self, method: Method, out_index: usize, in_index: usize) -> EngineSpec {
        let pairs = self.feedback.at(method);
        EngineSpec {
            feedback: self.feedback.with(
                method,
                if pairs.contains((out_index, in_index)) {
                    pairs
                } else {
                    pairs.push((out_index, in_index))
                },
            ),
            ran: self.ran.with(method, false),
            ..self
        }
    }

    /// An output of one method can be piped to an input of another: inside one
    /// model their shapes agree, across models their element types too.
    pub open spec fn can_pipe(
        self,
        from: Method,
        out_index: usize,
        to: Method,
        in_index: usize,
    ) -> bool {
        match (self.routes.at(from), self.routes.at(to)) {
            (Some(f), Some(t)) => if f.0 == t.0 {
                self.models[f.0 as int].across_match(
                    f.1 as int,
                    out_index as int,
                    t.1 as int,
                    in_index as int,
                )
            } else {
                match (
                    self.models[f.0 as int].output(f.1 as int, out_index as int),
                    self.models[t.0 as int].input(t.1 as int, in_index as int),
                ) {
                    (Some(o), Some(i)) => o.shape == i.shape && o.element_type == i.element_type,
                    _ => false,
                }
            },
            _ => false,
        }
    }

    /// With a pipe registered: it is kept once, and neither method counts as
    /// having run.
    pub open spec fn piped(
        self,
        from: Method,
        out_index: usize,
        to: Method,
        in_index: usize,
    ) -> EngineSpec {
        let entry = (from, out_index, to, in_index);
        EngineSpec {
            pipes: if self.pipes.contains(entry) {
                self.pipes
            } else {
                self.pipes.push(entry)
            },
            ran: self.ran.with(from, false).with(to, false),
            ..self
        }
    }
}

fn has_pair(v: &Vec<(usize, usize)>, pair: (usize, usize)) -> (r: bool)
    ensures
        r == v@.contains(pair),
{
    let mut k: usize = 0;
    while k < v.len()
        invariant
            k <= v.len(),
            forall|j: int| 0 <= j < k ==> #[trigger] v@[j] != pair,
        decreases v.len() - k,
    {
        if v[k].0 == pair.0 && v[k].1 == pair.1 {
            assert(v@[k as int] == pair);
            return true;
        }
        k = k + 1;
    }
    false
}

fn has_pipe(
    v: &Vec<(Method, usize, Method, usize)>,
    pipe: (Method, usize, Method, usize),
) -> (r: bool)
    ensures
        r == v@.contains(pipe),
{
    let mut k: usize = 0;
    while k < v.len()
        invariant
            k <= v.len(),
            forall|j: int| 0 <= j < k ==> #[trigger] v@[j] != pipe,
        decreases v.len() - k,
    {
        let p = v[k];
        if p.0 == pipe.0 && p.1 == pipe.1 && p.2 == pipe.2 && p.3 == pipe.3 {
            assert(v@[k as int] == pipe);
            return true;
        }
        k = k + 1;
    }
    false
}

impl LiteRtCompiledEngine {
    /// The name of the backend: which hardware it uses.
    pub fn backend_name(&self) -> (r: &'static str)
        ensures
            r@ == if self@.on_gpu {
                "litert-gpu"@
            } else {
                "litert-xnnpack"@
            },
    {
        if self.on_gpu {
            "litert-gpu"
        } else {
            "litert-xnnpack"
        }
    }

    /// Whether the engine has a method.
    pub fn has_method(&self, method: Method) -> (r: bool)
        ensures
            r == (self@.routes.at(method) is Some),
    {
        self.routes.get(method).is_some()
    }

    /// The shape of an output of a method: none for a method that the engine
    /// does not have, empty for an output that the method does not have.
    pub fn output_shape(&self, method: Method, index: usize) -> (r: Option<Vec<i64>>)
        requires
            self@.well_formed(),
        ensures
            match (self@.routes.at(method), r) {
                (Some(route), Some(shape)) => shape@ == (match self@.models[route.0 as int].output(
                    route.1 as int,
                    index as int,
                ) {
                    Some(s) => wide(s.shape),
                    None => seq![],
                }),
                (None, None) => true,
                _ => false,
            },
    {
        match *self.routes.get(method) {
            None => None,
            Some(route) => {
                assert(self@.routes.at(method) == Some(route));
                let shape = self.models[route.0].output_shape(route.1, index);
                let r = widened(&shape);
                assert(wide(seq![]) =~= seq![]);
                Some(r)
            },
        }
    }

    /// Registers that an output of a method is to be an input of its next call.
    /// The engine refuses where the two do not agree. Registering again starts a
    /// new round, whose first call takes its inputs from the caller.
    pub fn feed_output_back(&mut self, method: Method, out_index: usize, in_index: usize) -> (r:
        bool)
        requires
            old(self)@.well_formed(),
        ensures
            r == old(self)@.can_feed_back(method, out_index, in_index),
            r <==> (match old(self).routes.at(method) {
                Some((k, s)) => {
                    let sigs = old(self).models@[k as int].signatures@;
                    &&& s < sigs.len()
                    &&& out_index < sigs[s as int].outputs@.len()
                    &&& in_index < sigs[s as int].inputs@.len()
                    &&& sigs[s as int].outputs@[out_index as int].shape@
                        == sigs[s as int].inputs@[in_index as int].shape@
                    &&& sigs[s as int].outputs@[out_index as int].element_type
                        == sigs[s as int].inputs@[in_index as int].element_type
                },
                None => false,
            }),
            final(self)@ == (if r {
                old(self)@.fed_back(method, out_index, in_index)
            } else {
                old(self)@
            }),
            final(self)@.well_formed(),
    {
        let ghost before = self@;
        match *self.routes.get(method) {
            None => false,
            Some(route) => {
                assert(self@.routes.at(method) == Some(route));
                let (mi, sig) = route;
                let ghost m0 = self.models@[mi as int]@;
                if !self.models[mi].swap_io_buffers(sig, in_index, out_index) {
                    assert(self@.models =~= before.models);
                    return false;
                }
                // That was a trial. The exchange itself follows each run.
                let _ = self.models[mi].swap_io_buffers(sig, in_index, out_index);
                proof {
                    exchange_undoes_itself(
                        m0,
                        sig as int,
                        out_index as int,
                        sig as int,
                        in_index as int,
                    );
                    assert(self@.models =~= before.models);
                }
                self.add_pair(method, (out_index, in_index));
                self.ran.set(method, false);
                true
            },
        }
    }

    fn add_pair(&mut self, method: Method, pair: (usize, usize))
        ensures
            final(self)@ == (EngineSpec {
                feedback: old(self)@.feedback.with(
                    method,
                    if old(self)@.feedback.at(method).contains(pair) {
                        old(self)@.feedback.at(method)
                    } else {
                        old(self)@.feedback.at(method).push(pair)
                    },
                ),
                ..old(self)@
            }),
    {
        if !has_pair(self.feedback.get(method), pair) {
            match method {
                Method::PrefixEnc => self.feedback.prefix_enc.push(pair),
                Method::Prefill => self.feedback.prefill.push(pair),
                Method::Step => self.feedback.step.push(pair),
            }
        }
    }

    /// Registers that an output of one method is to be an input of another. The
    /// engine refuses where the two do not agree.
    pub fn pipe_output(
        &mut self,
        from: Method,
        out_index: usize,
        to: Method,
        in_index: usize,
    ) -> (r: bool)
        requires
            old(self)@.well_formed(),
        ensures
            r == old(self)@.can_pipe(from, out_index, to, in_index),
            r <==> (match (old(self).routes.at(from), old(self).routes.at(to)) {
                (Some((k, s)), Some((l, t))) => {
                    let a = old(self).models@[k as int].signatures@;
                    let b = old(self).models@[l as int].signatures@;
                    &&& s < a.len()
                    &&& t < b.len()
                    &&& out_index < a[s as int].outputs@.len()
                    &&& in_index < b[t as int].inputs@.len()
                    &&& a[s as int].outputs@[out_index as int].shape@
                        == b[t as int].inputs@[in_index as int].shape@
                    &&& k != l || s == t ==> a[s as int].outputs@[out_index as int].element_type
                        == b[t as int].inputs@[in_index as int].element_type
                },
                _ => false,
            }),
            final(self)@ == (if r {
                old(self)@.piped(from, out_index, to, in_index)
            } else {
                old(self)@
            }),
            final(self)@.well_formed(),
    {
        let ghost before = self@;
        let (fmi, fsig, tmi, tsig) = match (*self.routes.get(from), *self.routes.get(to)) {
            (Some(f), Some(t)) => (f.0, f.1, t.0, t.1),
            _ => {
                return false;
            },
        };
        assert(self@.routes.at(from) == Some((fmi, fsig)));
        assert(self@.routes.at(to) == Some((tmi, tsig)));
        if fmi == tmi {
            let ghost m0 = self.models@[fmi as int]@;
            if !self.models[fmi].swap_across(fsig, out_index, tsig, in_index) {
                assert(self@.models =~= before.models);
                return false;
            }
            // That was a trial. The exchange itself follows each run of `from`.
            let _ = self.models[fmi].swap_across(fsig, out_index, tsig, in_index);
            proof {
                exchange_undoes_itself(
                    m0,
                    fsig as int,
                    out_index as int,
                    tsig as int,
                    in_index as int,
                );
                assert(self@.models =~= before.models);
            }
        } else {
            // Buffers of one environment may change places across models, but
            // nothing checks that they agree.
            let ok = match (
                self.models[fmi].output_spec(fsig, out_index),
                self.models[tmi].input_spec(tsig, in_index),
            ) {
                (Some(o), Some(i)) => same_shape(o.0, i.0) && o.1 == i.1,
                _ => false,
            };
            if !ok {
                return false;
            }
        }
        let entry = (from, out_index, to, in_index);
        if !has_pipe(&self.pipes, entry) {
            self.pipes.push(entry);
        }
        self.ran.set(from, false);
        self.ran.set(to, false);
        true
    }
}

/// The calls that give back everything that some models hold, model by model.
pub open spec fn release_all(models: Seq<ModelSpec>) -> Seq<Call>
    decreases models.len(),
{
    if models.len() == 0 {
        seq![]
    } else {
        release_all(models.drop_last()) + models.last().release_calls()
    }
}

impl LiteRtCompiledEngine {
    /// The calls that give back to the runtime everything the engine holds.
    pub fn release(&self) -> (r: Vec<Call>)
        ensures
            r@ == release_all(self@.models),
    {
        let mut out: Vec<Call> = Vec::new();
        let mut i: usize = 0;
        assert(out@ =~= release_all(self@.models.take(0)));
        while i < self.models.len()
            invariant
                i <= self.models.len(),
                out@ == release_all(self@.models.take(i as int)),
            decreases self.models.len() - i,
        {
            proof {
                let next = self@.models.take(i + 1);
                assert(next.drop_last() =~= self@.models.take(i as int));
                assert(next.last() == self.models@[i as int]@);
            }
            out = join_calls(out, self.models[i].release());
            i = i + 1;
        }
        assert(self@.models.take(self@.models.len() as int) =~= self@.models);
        out
    }
}

/// One list of calls after another.
pub fn join_calls(first: Vec<Call>, second: Vec<Call>) -> (r: Vec<Call>)
    ensures
        r@ == first@ + second@,
{
    let mut out = first;
    let ghost start = out@;
    let mut i: usize = 0;
    assert(out@ =~= start + second@.take(0));
    while i < second.len()
        invariant
            i <= second.len(),
            out@ == start + second@.take(i as int),
        decreases second.len() - i,
    {
        out.push(second[i]);
        assert(out@ =~= start + second@.take(i + 1));
        i = i + 1;
    }
    assert(out@ =~= start + second@);
    out
}

/// A shape in 64 bits.
pub open spec fn wide(shape: Seq<i32>) -> Seq<i64> {
    Seq::new(shape.len(), |i: int| shape[i] as i64)
}

/// A shape in 64 bits.
pub fn widened(shape: &Vec<i32>) -> (r: Vec<i64>)
    ensures
        r@ == wide(shape@),
{
    let mut out: Vec<i64> = Vec::new();
    let mut i: usize = 0;
    while i < shape.len()
        invariant
            i <= shape.len(),
            out@ == wide(shape@).take(i as int),
        decreases shape.len() - i,
    {
        out.push(shape[i] as i64);
        assert(out@ =~= wide(shape@).take(i + 1));
        i = i + 1;
    }
    assert(out@ =~= wide(shape@));
    out
}

/// What an engine is said to hold is what it holds: its models, in order, and the
/// links of each method, in order.
pub proof fn engines_are_seen_whole(e: LiteRtCompiledEngine, k: int)
    ensures
        e@.models.len() == e.models@.len(),
        0 <= k < e.models@.len() ==> e@.models[k] == e.models@[k]@,
        e@.routes == e.routes,
        e@.feedback.at(Method::PrefixEnc) == e.feedback.prefix_enc@,
        e@.feedback.at(Method::Prefill) == e.feedback.prefill@,
        e@.feedback.at(Method::Step) == e.feedback.step@,
        e@.pipes == e.pipes@,
        e@.ran == e.ran,
        e@.on_gpu == e.on_gpu,
{
}

/// Feedback is taken wherever the engine has the method and the method's
/// signature has that output and that input, with equal shapes, of whatever rank,
/// and equal element types; and nowhere else.
pub proof fn feedback_is_taken_where_slots_agree(
    e: EngineSpec,
    method: Method,
    out_index: usize,
    in_index: usize,
)
    ensures
        e.can_feed_back(method, out_index, in_index) <==> (match e.routes.at(method) {
            Some((k, s)) => {
                let sigs = e.models[k as int].signatures;
                &&& s < sigs.len()
                &&& out_index < sigs[s as int].outputs.len()
                &&& in_index < sigs[s as int].inputs.len()
                &&& sigs[s as int].outputs[out_index as int].shape
                    == sigs[s as int].inputs[in_index as int].shape
                &&& sigs[s as int].outputs[out_index as int].element_type
                    == sigs[s as int].inputs[in_index as int].element_type
            },
            None => false,
        }),
{
}

/// A pipe is taken wherever the engine has both methods, the one's signature has
/// that output and the other's that input, with equal shapes of whatever rank;
/// their element types have to be equal unless the two are different signatures
/// of one model.
pub proof fn pipes_are_taken_where_slots_agree(
    e: EngineSpec,
    from: Method,
    out_index: usize,
    to: Method,
    in_index: usize,
)
    ensures
        e.can_pipe(from, out_index, to, in_index) <==> (match (e.routes.at(from), e.routes.at(to)) {
            (Some((k, s)), Some((l, t))) => {
                let a = e.models[k as int].signatures;
                let b = e.models[l as int].signatures;
                &&& s < a.len()
                &&& t < b.len()
                &&& out_index < a[s as int].outputs.len()
                &&& in_index < b[t as int].inputs.len()
                &&& a[s as int].outputs[out_index as int].shape
                    == b[t as int].inputs[in_index as int].shape
                &&& k != l || s == t ==> a[s as int].outputs[out_index as int].element_type
                    == b[t as int].inputs[in_index as int].element_type
            },
            _ => false,
        }),
{
}

/// A link that is registered is kept, after those that were there, and once. The
/// methods that it is about count as not having run. All else stays.
pub proof fn links_are_kept_once(
    e: EngineSpec,
    method: Method,
    out_index: usize,
    to: Method,
    in_index: usize,
    other: Method,
)
    ensures
        ({
            let f = e.fed_back(method, out_index, in_index);
            let pair = (out_index, in_index);
            let (a, b) = (e.feedback.at(method), f.feedback.at(method));
            &&& b == a && a.contains(pair) || b == a.push(pair) && !a.contains(pair)
            &&& other != method ==> f.feedback.at(other) == e.feedback.at(other)
            &&& !f.ran.at(method)
            &&& other != method ==> f.ran.at(other) == e.ran.at(other)
            &&& f.models == e.models && f.routes == e.routes && f.pipes == e.pipes && f.on_gpu
                == e.on_gpu
        }),
        ({
            let f = e.piped(method, out_index, to, in_index);
            let pipe = (method, out_index, to, in_index);
            &&& f.pipes == e.pipes && e.pipes.contains(pipe) || f.pipes == e.pipes.push(pipe)
                && !e.pipes.contains(pipe)
            &&& !f.ran.at(method) && !f.ran.at(to)
            &&& other != method && other != to ==> f.ran.at(other) == e.ran.at(other)
            &&& f.models == e.models && f.routes == e.routes && f.feedback == e.feedback
                && f.on_gpu == e.on_gpu
        }),
{
}

/// A move crosses the buffers at its two ends, wherever both are there: between
/// two models whatever they are like, inside one where their shapes are equal,
/// and inside one signature where their element types are too. No other slot
/// changes its buffer, and none its shape or element type.
pub proof fn a_move_crosses_two_buffers(models: Seq<ModelSpec>, m: Move, k: int, s: int, i: int)
    requires
        0 <= m.from_model < models.len(),
        0 <= m.to_model < models.len(),
        0 <= m.from_sig < models[m.from_model].signatures.len(),
        0 <= m.to_sig < models[m.to_model].signatures.len(),
        0 <= m.out_idx < models[m.from_model].signatures[m.from_sig].outputs.len(),
        0 <= m.in_idx < models[m.to_model].signatures[m.to_sig].inputs.len(),
        0 <= k < models.len(),
        0 <= s < models[k].signatures.len(),
    ensures
        ({
            let o = models[m.from_model].signatures[m.from_sig].outputs[m.out_idx];
            let p = models[m.to_model].signatures[m.to_sig].inputs[m.in_idx];
            let made = m.from_model != m.to_model || o.shape == p.shape && (m.from_sig != m.to_sig
                || o.element_type == p.element_type);
            let after = moved(models, m);
            let (a, b) = (models[k].signatures[s], after[k].signatures[s]);
            &&& !made ==> after == models
            &&& after.len() == models.len()
            &&& after[k].compiled == models[k].compiled && after[k].model == models[k].model
                && after[k].bytes == models[k].bytes && after[k].on_gpu == models[k].on_gpu
            &&& after[k].signatures.len() == models[k].signatures.len()
            &&& b.key == a.key && b.inputs.len() == a.inputs.len() && b.outputs.len()
                == a.outputs.len()
            &&& 0 <= i < a.inputs.len() ==> b.inputs[i].shape == a.inputs[i].shape
                && b.inputs[i].element_type == a.inputs[i].element_type && b.inputs[i].buffer == (
            if made && k == m.to_model && s == m.to_sig && i == m.in_idx {
                o.buffer
            } else {
                a.inputs[i].buffer
            })
            &&& 0 <= i < a.outputs.len() ==> b.outputs[i].shape == a.outputs[i].shape
                && b.outputs[i].element_type == a.outputs[i].element_type && b.outputs[i].buffer
                == (if made && k == m.from_model && s == m.from_sig && i == m.out_idx {
                p.buffer
            } else {
                a.outputs[i].buffer
            })
        }),
{
}

proof fn lemma_earlier_pipes(e: EngineSpec, f: EngineSpec, method: Method, n: int)
    requires
        0 <= n <= e.pipes.len() <= f.pipes.len(),
        f.routes == e.routes,
        forall|k: int| 0 <= k < e.pipes.len() ==> #[trigger] f.pipes[k] == e.pipes[k],
    ensures
        f.pipe_moves(method, n) == e.pipe_moves(method, n),
    decreases n,
{
    if n > 0 {
        lemma_earlier_pipes(e, f, method, n - 1);
        assert(f.pipes[n - 1] == e.pipes[n - 1]);
    }
}

/// After a run of a method come its feedbacks, all of them and in order, and then
/// the pipes that start at it and whose methods the engine has, all of them and
/// in order: a pipe more means a move more at the end, and an engine without
/// links makes none.
pub proof fn links_move_in_order(
    e: EngineSpec,
    method: Method,
    k: int,
    pipe: (Method, usize, Method, usize),
)
    requires
        e.routes.at(method) is Some,
    ensures
        e.pipes.len() == 0 ==> e.moves(method).len() == e.feedback.at(method).len(),
        0 <= k < e.feedback.at(method).len() ==> k < e.moves(method).len() && e.moves(method)[k]
            == (Move {
            from_model: e.routes.at(method).unwrap().0 as int,
            from_sig: e.routes.at(method).unwrap().1 as int,
            out_idx: e.feedback.at(method)[k].0 as int,
            to_model: e.routes.at(method).unwrap().0 as int,
            to_sig: e.routes.at(method).unwrap().1 as int,
            in_idx: e.feedback.at(method)[k].1 as int,
        }),
        ({
            let f = EngineSpec { pipes: e.pipes.push(pipe), ..e };
            f.moves(method) == (match e.routes.at(pipe.2) {
                Some((l, t)) if pipe.0 == method => e.moves(method).push(
                    Move {
                        from_model: e.routes.at(method).unwrap().0 as int,
                        from_sig: e.routes.at(method).unwrap().1 as int,
                        out_idx: pipe.1 as int,
                        to_model: l as int,
                        to_sig: t as int,
                        in_idx: pipe.3 as int,
                    },
                ),
                _ => e.moves(method),
            })
        }),
{
    let f = EngineSpec { pipes: e.pipes.push(pipe), ..e };
    lemma_earlier_pipes(e, f, method, e.pipes.len() as int);
    assert(f.pipes[e.pipes.len() as int] == pipe);
    let n = e.feedback.at(method).len() as int;
    assert(f.feedback_moves(method, n) =~= e.feedback_moves(method, n));
    assert(f.pipe_moves(method, f.pipes.len() as int) == if pipe.0 == method && e.routes.at(
        pipe.2,
    ) is Some {
        e.pipe_moves(method, e.pipes.len() as int).push(e.pipe_move(pipe))
    } else {
        e.pipe_moves(method, e.pipes.len() as int)
    });
    if pipe.0 == method && e.routes.at(pipe.2) is Some {
        assert(f.moves(method) =~= e.moves(method).push(e.pipe_move(pipe)));
    } else {
        assert(f.moves(method) =~= e.moves(method));
    }
}

/// Moves are made one after another, each on what the last one left, and change
/// nothing of an engine but its models.
pub proof fn moves_are_made_in_order(e: EngineSpec, method: Method, moves: Seq<Move>, m: Move)
    ensures
        moved_all(e.models, Seq::empty()) == e.models,
        moved_all(e.models, moves.push(m)) == moved(moved_all(e.models, moves), m),
        e.finished(method) == (EngineSpec {
            models: moved_all(e.models, e.moves(method)),
            routes: e.routes,
            feedback: e.feedback,
            pipes: e.pipes,
            ran: e.ran,
            on_gpu: e.on_gpu,
        }),
{
    assert(moves.push(m).drop_last() =~= moves);
}

/// An engine is given back model by model, all of them and in order.
pub proof fn models_are_given_back_in_order(models: Seq<ModelSpec>, m: ModelSpec)
    ensures
        release_all(Seq::empty()) == Seq::<Call>::empty(),
        release_all(models.push(m)) == release_all(models) + m.release_calls(),
{
    assert(models.push(m).drop_last() =~= models);
}

/// A shape in 64 bits has the same dimensions.
pub proof fn shapes_widen_in_place(shape: Seq<i32>, i: int)
    ensures
        wide(shape).len() == shape.len(),
        0 <= i < shape.len() ==> wide(shape)[i] == shape[i],
{
}

/// An engine is in order where each of its methods leads to a model that it has.
pub proof fn engines_in_order_have_their_models(e: EngineSpec)
    ensures
        e.well_formed() <==> (e.routes.prefix_enc matches Some(r) ==> r.0 < e.models.len()) && (
        e.routes.prefill matches Some(r) ==> r.0 < e.models.len()) && (e.routes.step matches Some(r)
            ==> r.0 < e.models.len()),
{
    let (a, b, c) = (
        e.routes.at(Method::PrefixEnc),
        e.routes.at(Method::Prefill),
        e.routes.at(Method::Step),
    );
    assert(a == e.routes.prefix_enc && b == e.routes.prefill && c == e.routes.step);
}

} // verus!
