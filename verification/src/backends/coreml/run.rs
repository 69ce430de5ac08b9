//! Running a Core ML model.

use super::{CoreMlEngine, CoreMlSpec};
use crate::tensor::{
    allocatable, count_elements, element_count, tensors_of, TensorData, TensorSpec,
};
use crate::text::{integer, push_i32};
use crate::{DType, EngineError, ErrorSpec, Method, Tensor, TensorView};
use vstd::prelude::*;

verus! {

/// A call to the native model.
#[derive(Debug, Clone, Copy, PartialEq, Eq)]
pub enum CoreMlCall {
    /// `cml_model_run` on what [`CoreMlEngine::run_inputs`] gives, with the names
    /// where `named`.
    Run { handle: usize, named: bool },
    /// Read the shape of an output.
    Shape { outputs: usize, index: usize },
    /// Read `len` bytes of an output.
    Data { outputs: usize, index: usize, len: usize },
    /// `cml_tensors_free`
    FreeOutputs { outputs: usize, count: usize },
}

/// What a call gave back. A call fills in what it has; the rest stays empty.
pub struct CoreMlReply {
    pub rc: i32,
    pub code: i32,
    /// The outputs; 0 where there are none.
    pub outputs: usize,
    pub count: usize,
    pub shape: Vec<i64>,
    pub data: Vec<u8>,
}

/// What a [`CoreMlReply`] says.
pub struct CoreMlReplySpec {
    pub rc: i32,
    pub code: i32,
    pub outputs: usize,
    pub count: usize,
    pub shape: Seq<i64>,
    pub data: Seq<u8>,
}

impl View for CoreMlReply {
    type V = CoreMlReplySpec;

    open spec fn view(&self) -> CoreMlReplySpec {
        CoreMlReplySpec {
            rc: self.rc,
            code: self.code,
            outputs: self.outputs,
            count: self.count,
            shape: self.shape@,
            data: self.data@,
        }
    }
}

/// Where a run stands.
pub enum CoreMlRunning {
    /// The model is to be run.
    Start { method: Method, handle: usize, named: bool },
    /// The shape of the next output is to be read.
    Shape { outputs: usize, count: usize, outs: Vec<Tensor> },
    /// Its bytes are to be read.
    Data { outputs: usize, count: usize, outs: Vec<Tensor>, shape: Vec<i64> },
    /// All outputs are copied, and are to be given back.
    Free { outputs: usize, count: usize, outs: Vec<Tensor> },
    Ran { outs: Vec<Tensor> },
    Failed { error: EngineError },
}

/// What a [`CoreMlRunning`] holds.
pub enum CoreMlRunningSpec {
    Start { method: Method, handle: usize, named: bool },
    Shape { outputs: usize, count: usize, outs: Seq<TensorSpec> },
    Data { outputs: usize, count: usize, outs: Seq<TensorSpec>, shape: Seq<i64> },
    Free { outputs: usize, count: usize, outs: Seq<TensorSpec> },
    Ran { outs: Seq<TensorSpec> },
    Failed { error: ErrorSpec },
}

impl View for CoreMlRunning {
    type V = CoreMlRunningSpec;

    open spec fn view(&self) -> CoreMlRunningSpec {
        match *self {
            CoreMlRunning::Start { method, handle, named } => CoreMlRunningSpec::Start {
                method,
                handle,
                named,
            },
            CoreMlRunning::Shape { outputs, count, outs } => CoreMlRunningSpec::Shape {
                outputs,
                count,
                outs: tensors_of(outs@),
            },
            CoreMlRunning::Data { outputs, count, outs, shape } => CoreMlRunningSpec::Data {
                outputs,
                count,
                outs: tensors_of(outs@),
                shape: shape@,
            },
            CoreMlRunning::Free { outputs, count, outs } => CoreMlRunningSpec::Free {
                outputs,
                count,
                outs: tensors_of(outs@),
            },
            CoreMlRunning::Ran { outs } => CoreMlRunningSpec::Ran { outs: tensors_of(outs@) },
            CoreMlRunning::Failed { error } => CoreMlRunningSpec::Failed { error: error@ },
        }
    }
}

impl CoreMlRunningSpec {
    /// There is an output to read where one is read.
    pub open spec fn well_formed(self) -> bool {
        match self {
            CoreMlRunningSpec::Shape { outputs, count, outs } => outs.len() < count,
            CoreMlRunningSpec::Data { outputs, count, outs, shape } => outs.len() < count
                && allocatable(shape, DType::F32),
            _ => true,
        }
    }

    /// The call that comes next; none when the run has ended.
    pub open spec fn call(self) -> Option<CoreMlCall> {
        match self {
            CoreMlRunningSpec::Start { method, handle, named } => Some(
                CoreMlCall::Run { handle, named },
            ),
            CoreMlRunningSpec::Shape { outputs, count, outs } => Some(
                CoreMlCall::Shape { outputs, index: outs.len() as usize },
            ),
            CoreMlRunningSpec::Data { outputs, count, outs, shape } => Some(
                CoreMlCall::Data {
                    outputs,
                    index: outs.len() as usize,
                    len: (element_count(shape) * 4) as usize,
                },
            ),
            CoreMlRunningSpec::Free { outputs, count, outs } => Some(
                CoreMlCall::FreeOutputs { outputs, count },
            ),
            _ => None,
        }
    }

    /// A reply may be taken: the size of a shape can be computed, and as many
    /// bytes come as were asked for.
    pub open spec fn takes(self, r: CoreMlReplySpec) -> bool {
        match self {
            CoreMlRunningSpec::Shape { outputs, count, outs } => allocatable(r.shape, DType::F32),
            CoreMlRunningSpec::Data { outputs, count, outs, shape } => r.data.len()
                == element_count(shape) * 4,
            _ => true,
        }
    }

    /// Goes on with the next output.
    pub open spec fn read_from(
        outputs: usize,
        count: usize,
        outs: Seq<TensorSpec>,
    ) -> CoreMlRunningSpec {
        if outs.len() < count {
            CoreMlRunningSpec::Shape { outputs, count, outs }
        } else {
            CoreMlRunningSpec::Free { outputs, count, outs }
        }
    }

    /// Where the run stands after a reply.
    pub open spec fn step(self, r: CoreMlReplySpec) -> CoreMlRunningSpec {
        match self {
            CoreMlRunningSpec::Start { method, handle, named } => if r.rc != 0 || r.outputs == 0 {
                CoreMlRunningSpec::Failed {
                    error: ErrorSpec::Execute {
                        method,
                        code: r.code,
                        msg: "rc="@ + integer(r.rc as int),
                    },
                }
            } else {
                CoreMlRunningSpec::read_from(r.outputs, r.count, seq![])
            },
            CoreMlRunningSpec::Shape { outputs, count, outs } => CoreMlRunningSpec::Data {
                outputs,
                count,
                outs,
                shape: r.shape,
            },
            CoreMlRunningSpec::Data { outputs, count, outs, shape } => {
                CoreMlRunningSpec::read_from(
                    outputs,
                    count,
                    outs.push(TensorSpec { shape, dtype: DType::F32, data: r.data }),
                )
            },
            CoreMlRunningSpec::Free { outputs, count, outs } => CoreMlRunningSpec::Ran { outs },
            _ => self,
        }
    }
}

/// The shapes of a list of tensors.
pub open spec fn shapes_of(outs: Seq<TensorSpec>) -> Seq<Seq<i64>> {
    Seq::new(outs.len(), |i: int| outs[i].shape)
}

/// A tensor on its way to the native model, with the name of the input where the
/// names are used.
pub struct CoreMlInput<'a> {
    pub name: Option<&'a str>,
    pub shape: &'a [i64],
    /// The element type as the native model counts them; 0 stands for floats.
    pub dtype: i32,
    pub data: TensorData<'a>,
}

/// What a [`CoreMlInput`] says.
pub struct CoreMlInputSpec {
    pub name: Option<Seq<char>>,
    pub shape: Seq<i64>,
    pub dtype: i32,
    pub data: Seq<u8>,
}

impl<'a> View for CoreMlInput<'a> {
    type V = CoreMlInputSpec;

    open spec fn view(&self) -> CoreMlInputSpec {
        CoreMlInputSpec {
            name: match self.name {
                Some(n) => Some(n@),
                None => None,
            },
            shape: self.shape@,
            dtype: self.dtype,
            data: self.data@,
        }
    }
}

/// What a list of inputs says.
pub open spec fn native_inputs_of(v: Seq<CoreMlInput<'_>>) -> Seq<CoreMlInputSpec> {
    Seq::new(v.len(), |i: int| v[i]@)
}

impl CoreMlSpec {
    /// The names of the inputs are used: there is one for each.
    pub open spec fn uses_names(self, count: nat) -> bool {
        self.input_names.len() == count
    }

    /// What is handed to the native model: the caller's tensors in order, each
    /// with the name of its position where the names are used.
    pub open spec fn handed_over(self, inputs: Seq<TensorView<'_>>) -> Seq<CoreMlInputSpec> {
        Seq::new(
            inputs.len(),
            |i: int|
                CoreMlInputSpec {
                    name: if self.uses_names(inputs.len()) {
                        Some(self.input_names[i])
                    } else {
                        None
                    },
                    shape: inputs[i].shape@,
                    dtype: 0,
                    data: inputs[i].data@,
                },
        )
    }

    /// Where a run starts. Only floats can be handed to the model. The names of
    /// the inputs are used where there is one for each.
    pub open spec fn running(self, method: Method, dtypes: Seq<DType>) -> CoreMlRunningSpec {
        if exists|i: int| 0 <= i < dtypes.len() && #[trigger] dtypes[i] != DType::F32 {
            CoreMlRunningSpec::Failed {
                error: ErrorSpec::Shape(
                    "Core ML 后端目前只收 f32 输入（模型 IO 都是 fp32）"@,
                ),
            }
        } else {
            CoreMlRunningSpec::Start {
                method,
                handle: self.handle,
                named: self.uses_names(dtypes.len()),
            }
        }
    }
}

/// The element types of a list of inputs.
pub open spec fn dtypes_of(inputs: Seq<TensorView<'_>>) -> Seq<DType> {
    Seq::new(inputs.len(), |i: int| inputs[i].dtype)
}

impl CoreMlEngine {
    /// Starts a run. There is one model and so one thing to run: the method only
    /// says what an error is about.
    pub fn run(&self, method: Method, inputs: &[TensorView<'_>]) -> (r: CoreMlRunning)
        ensures
            r@ == self@.running(method, dtypes_of(inputs@)),
            r@.well_formed(),
    {
        let mut i: usize = 0;
        while i < inputs.len()
            invariant
                i <= inputs.len(),
                forall|k: int| 0 <= k < i ==> #[trigger] dtypes_of(inputs@)[k] == DType::F32,
            decreases inputs.len() - i,
        {
            if inputs[i].dtype != DType::F32 {
                assert(dtypes_of(inputs@)[i as int] != DType::F32);
                return CoreMlRunning::Failed {
                    error: EngineError::Shape(
                        String::from_str("Core ML 后端目前只收 f32 输入（模型 IO 都是 fp32）"),
                    ),
                };
            }
            i = i + 1;
        }
        CoreMlRunning::Start {
            method,
            handle: self.handle,
            named: self.input_names.len() == inputs.len(),
        }
    }

    /// What a run hands to the native model.
    pub fn run_inputs<'a>(&'a self, inputs: &[TensorView<'a>]) -> (r: Vec<CoreMlInput<'a>>)
        ensures
            native_inputs_of(r@) == self@.handed_over(inputs@),
            r@.len() == inputs@.len(),
            forall|i: int|
                0 <= i < r@.len() ==> (#[trigger] r@[i]).shape@ == inputs@[i].shape@
                    && r@[i].data@ == inputs@[i].data@ && r@[i].dtype == 0,
            forall|i: int|
                0 <= i < r@.len() ==> (match (#[trigger] r@[i]).name {
                    Some(name) => self.input_names@.len() == inputs@.len() && name@
                        == self.input_names@[i]@,
                    None => self.input_names@.len() != inputs@.len(),
                }),
    {
        let named = self.input_names.len() == inputs.len();
        let mut r: Vec<CoreMlInput<'a>> = Vec::new();
        let mut i: usize = 0;
        while i < inputs.len()
            invariant
                i <= inputs.len(),
                named == self@.uses_names(inputs@.len()),
                r@.len() == i,
                forall|k: int| 0 <= k < i ==> (#[trigger] r@[k])@ == self@.handed_over(inputs@)[k],
                forall|k: int|
                    0 <= k < i ==> (#[trigger] r@[k]).shape@ == inputs@[k].shape@ && r@[k].data@
                        == inputs@[k].data@ && r@[k].dtype == 0,
                forall|k: int|
                    0 <= k < i ==> (match (#[trigger] r@[k]).name {
                        Some(name) => self.input_names@.len() == inputs@.len() && name@
                            == self.input_names@[k]@,
                        None => self.input_names@.len() != inputs@.len(),
                    }),
            decreases inputs.len() - i,
        {
            let name = if named {
                Some(self.input_names[i].as_str())
            } else {
                None
            };
            r.push(
                CoreMlInput { name, shape: inputs[i].shape, dtype: 0, data: inputs[i].data },
            );
            i = i + 1;
        }
        assert(native_inputs_of(r@) =~= self@.handed_over(inputs@));
        r
    }

    /// Ends a run: the shapes of its outputs are kept, and the outputs go to the
    /// caller. After a failure the shapes of the run before stay.
    pub fn finish_run(&mut self, running: CoreMlRunning) -> (r: crate::Result<Vec<Tensor>>)
        requires
            running@.call() is None,
        ensures
            match running@ {
                CoreMlRunningSpec::Ran { outs } => r matches Ok(v) && tensors_of(v@) == outs,
                CoreMlRunningSpec::Failed { error } => r matches Err(e) && e@ == error,
                _ => false,
            },
            final(self)@ == old(self)@.ended(running@),
    {
        match running {
            CoreMlRunning::Ran { outs } => {
                let ghost want = shapes_of(tensors_of(outs@));
                let mut shapes: Vec<Vec<i64>> = Vec::new();
                let mut i: usize = 0;
                while i < outs.len()
                    invariant
                        i <= outs.len(),
                        want == shapes_of(tensors_of(outs@)),
                        shapes@.len() == i,
                        forall|k: int| 0 <= k < i ==> (#[trigger] shapes@[k])@ == want[k],
                    decreases outs.len() - i,
                {
                    shapes.push(outs[i].shape.clone());
                    i = i + 1;
                }
                self.last_shapes = shapes;
                assert(self@.last_shapes =~= want);
                Ok(outs)
            },
            CoreMlRunning::Failed { error } => Err(error),
            _ => vstd::pervasive::unreached(),
        }
    }
}

impl CoreMlRunning {
    /// The call that comes next; none when the run has ended.
    pub fn call(&self) -> (r: Option<CoreMlCall>)
        requires
            self@.well_formed(),
        ensures
            r == self@.call(),
    {
        match self {
            CoreMlRunning::Start { method, handle, named } => Some(
                CoreMlCall::Run { handle: *handle, named: *named },
            ),
            CoreMlRunning::Shape { outputs, count, outs } => Some(
                CoreMlCall::Shape { outputs: *outputs, index: outs.len() },
            ),
            CoreMlRunning::Data { outputs, count, outs, shape } => {
                let n: usize = count_elements(shape.as_slice());
                Some(CoreMlCall::Data { outputs: *outputs, index: outs.len(), len: n * 4 })
            },
            CoreMlRunning::Free { outputs, count, outs } => Some(
                CoreMlCall::FreeOutputs { outputs: *outputs, count: *count },
            ),
            _ => None,
        }
    }

    fn read_from(outputs: usize, count: usize, outs: Vec<Tensor>) -> (r: CoreMlRunning)
        ensures
            r@ == CoreMlRunningSpec::read_from(outputs, count, tensors_of(outs@)),
            r@.well_formed(),
    {
        if outs.len() < count {
            CoreMlRunning::Shape { outputs, count, outs }
        } else {
            CoreMlRunning::Free { outputs, count, outs }
        }
    }

    /// Takes the reply to the call.
    pub fn advance(self, reply: CoreMlReply) -> (r: CoreMlRunning)
        requires
            self@.well_formed(),
            self@.takes(reply@),
        ensures
            r@ == self@.step(reply@),
            r@.well_formed(),
    {
        match self {
            CoreMlRunning::Start { method, handle, named } => {
                if reply.rc != 0 || reply.outputs == 0 {
                    let mut msg = String::from_str("rc=");
                    push_i32(&mut msg, reply.rc);
                    CoreMlRunning::Failed {
                        error: EngineError::Execute { method, code: reply.code, msg },
                    }
                } else {
                    let outs: Vec<Tensor> = Vec::new();
                    assert(tensors_of(outs@) =~= seq![]);
                    Self::read_from(reply.outputs, reply.count, outs)
                }
            },
            CoreMlRunning::Shape { outputs, count, outs } => CoreMlRunning::Data {
                outputs,
                count,
                outs,
                shape: reply.shape,
            },
            CoreMlRunning::Data { outputs, count, outs, shape } => {
                let mut outs = outs;
                let ghost before = tensors_of(outs@);
                let t = Tensor { shape, dtype: DType::F32, data: reply.data };
                outs.push(t);
                assert(tensors_of(outs@) =~= before.push(t.contents()));
                Self::read_from(outputs, count, outs)
            },
            CoreMlRunning::Free { outputs, count, outs } => CoreMlRunning::Ran { outs },
            other => other,
        }
    }
}

/// A run after a number of replies.
pub open spec fn run_after(s: CoreMlRunningSpec, replies: Seq<CoreMlReplySpec>) -> CoreMlRunningSpec
    decreases replies.len(),
{
    if replies.len() == 0 {
        s
    } else {
        run_after(s, replies.drop_last()).step(replies.last())
    }
}

/// Every reply may be taken when it comes.
pub open spec fn all_taken(s: CoreMlRunningSpec, replies: Seq<CoreMlReplySpec>) -> bool {
    forall|k: int|
        0 <= k < replies.len() ==> run_after(s, #[trigger] replies.take(k)).takes(replies[k])
}

/// Output `i` as the replies tell it: the first reply is about the run, and then
/// there are two for each output, its shape and its bytes.
pub open spec fn told(replies: Seq<CoreMlReplySpec>, i: int) -> TensorSpec {
    TensorSpec {
        shape: replies[1 + 2 * i].shape,
        dtype: DType::F32,
        data: replies[2 + 2 * i].data,
    }
}

/// The tensors are the first outputs that the replies tell of, each as long as
/// its shape says.
pub open spec fn all_told(outs: Seq<TensorSpec>, replies: Seq<CoreMlReplySpec>) -> bool {
    forall|i: int|
        0 <= i < outs.len() ==> #[trigger] outs[i] == told(replies, i) && outs[i].well_formed()
}

/// The reply to the run itself gives outputs.
pub open spec fn gave_outputs(r: CoreMlReplySpec) -> bool {
    r.rc == 0 && r.outputs != 0
}

/// How far a run is after the replies.
spec fn keeps_count(s: CoreMlRunningSpec, method: Method, replies: Seq<CoreMlReplySpec>) -> bool {
    let n = replies.len();
    match s {
        CoreMlRunningSpec::Start { method: m, handle, named } => n == 0 && m == method,
        CoreMlRunningSpec::Shape { outputs, count, outs } => {
            &&& n == 1 + 2 * outs.len() && gave_outputs(replies[0])
            &&& count == replies[0].count && outs.len() < count
            &&& all_told(outs, replies)
        },
        CoreMlRunningSpec::Data { outputs, count, outs, shape } => {
            &&& n == 2 + 2 * outs.len() && gave_outputs(replies[0])
            &&& count == replies[0].count && outs.len() < count
            &&& all_told(outs, replies)
            &&& shape == replies[n - 1].shape
        },
        CoreMlRunningSpec::Free { outputs, count, outs } => {
            &&& n == 1 + 2 * outs.len() && gave_outputs(replies[0])
            &&& outs.len() == replies[0].count
            &&& all_told(outs, replies)
        },
        CoreMlRunningSpec::Ran { outs } => {
            &&& n >= 2 + 2 * outs.len() && gave_outputs(replies[0])
            &&& outs.len() == replies[0].count
            &&& all_told(outs, replies)
        },
        CoreMlRunningSpec::Failed { error } => {
            &&& n > 0 && !gave_outputs(replies[0])
            &&& error == (ErrorSpec::Execute {
                method,
                code: replies[0].code,
                msg: "rc="@ + integer(replies[0].rc as int),
            })
        },
    }
}

proof fn lemma_told_before(
    outs: Seq<TensorSpec>,
    before: Seq<CoreMlReplySpec>,
    replies: Seq<CoreMlReplySpec>,
)
    requires
        before == replies.drop_last(),
        replies.len() > 0,
        before.len() >= 1 + 2 * outs.len(),
        all_told(outs, before),
    ensures
        all_told(outs, replies),
{
    assert forall|i: int| 0 <= i < outs.len() implies #[trigger] outs[i] == told(replies, i)
        && outs[i].well_formed() by {
        assert(replies[1 + 2 * i] == before[1 + 2 * i]);
        assert(replies[2 + 2 * i] == before[2 + 2 * i]);
    }
}

proof fn lemma_keeps_count(
    method: Method,
    handle: usize,
    named: bool,
    replies: Seq<CoreMlReplySpec>,
)
    requires
        all_taken(CoreMlRunningSpec::Start { method, handle, named }, replies),
    ensures
        keeps_count(
            run_after(CoreMlRunningSpec::Start { method, handle, named }, replies),
            method,
            replies,
        ),
    decreases replies.len(),
{
    let start = CoreMlRunningSpec::Start { method, handle, named };
    if replies.len() > 0 {
        let before = replies.drop_last();
        let r = replies.last();
        assert(all_taken(start, before)) by {
            assert forall|k: int| 0 <= k < before.len() implies run_after(
                start,
                #[trigger] before.take(k),
            ).takes(before[k]) by {
                assert(before.take(k) =~= replies.take(k));
            }
        }
        lemma_keeps_count(method, handle, named, before);
        assert(replies.take(replies.len() - 1) =~= before);
        let s = run_after(start, before);
        assert(s.takes(r));
        assert(before.len() > 0 ==> before[0] == replies[0]);
        match s {
            CoreMlRunningSpec::Shape { outputs, count, outs } => {
                lemma_told_before(outs, before, replies);
            },
            CoreMlRunningSpec::Data { outputs, count, outs, shape } => {
                lemma_told_before(outs, before, replies);
                let i = outs.len() as int;
                let t = TensorSpec { shape, dtype: DType::F32, data: r.data };
                let more = outs.push(t);
                assert(replies[1 + 2 * i] == before[1 + 2 * i]);
                assert(t == told(replies, i));
                assert(element_count(shape) * t.dtype.width() == element_count(shape) * 4);
                assert forall|j: int| 0 <= j < more.len() implies #[trigger] more[j] == told(
                    replies,
                    j,
                ) && more[j].well_formed() by {
                    if j < i {
                        assert(more[j] == outs[j]);
                    }
                }
            },
            CoreMlRunningSpec::Free { outputs, count, outs } => {
                lemma_told_before(outs, before, replies);
            },
            CoreMlRunningSpec::Ran { outs } => {
                lemma_told_before(outs, before, replies);
            },
            _ => {},
        }
    }
}

/// A run that ends well returns as many outputs as the model gave, in order, each
/// with the shape and the bytes that were read for it. A run fails only where the
/// model gives no outputs, and the error carries its code.
pub proof fn outputs_are_read_whole(
    method: Method,
    handle: usize,
    named: bool,
    replies: Seq<CoreMlReplySpec>,
)
    requires
        all_taken(CoreMlRunningSpec::Start { method, handle, named }, replies),
    ensures
        match run_after(CoreMlRunningSpec::Start { method, handle, named }, replies) {
            CoreMlRunningSpec::Ran { outs } => {
                &&& gave_outputs(replies[0])
                &&& outs.len() == replies[0].count
                &&& replies.len() >= 2 + 2 * outs.len()
                &&& all_told(outs, replies)
            },
            CoreMlRunningSpec::Failed { error } => {
                &&& replies.len() > 0 && !gave_outputs(replies[0])
                &&& error == (ErrorSpec::Execute {
                    method,
                    code: replies[0].code,
                    msg: "rc="@ + integer(replies[0].rc as int),
                })
            },
            _ => true,
        },
{
    lemma_keeps_count(method, handle, named, replies);
}

impl CoreMlSpec {
    /// The engine after a run has ended: it keeps the shapes of the outputs, and
    /// after a failure those of the run before.
    pub open spec fn ended(self, s: CoreMlRunningSpec) -> CoreMlSpec {
        match s {
            CoreMlRunningSpec::Ran { outs } => CoreMlSpec { last_shapes: shapes_of(outs), ..self },
            _ => self,
        }
    }

    /// What the engine answers when asked for the shape of an output.
    pub open spec fn shape_at(self, index: int) -> Option<Seq<i64>> {
        if 0 <= index < self.last_shapes.len() {
            Some(self.last_shapes[index])
        } else {
            None
        }
    }
}

/// A run that ends well decides what shapes the engine gives: those of the tensors
/// that were returned, which are of floats and as many as the model gave. A run
/// that fails carries the model's code and leaves the shapes as they were.
pub proof fn run_decides_the_shapes(
    e: CoreMlSpec,
    method: Method,
    dtypes: Seq<DType>,
    replies: Seq<CoreMlReplySpec>,
    index: int,
)
    requires
        e.running(method, dtypes) is Start,
        all_taken(e.running(method, dtypes), replies),
    ensures
        ({
            let end = run_after(e.running(method, dtypes), replies);
            match end {
                CoreMlRunningSpec::Ran { outs } => {
                    &&& outs.len() == replies[0].count
                    &&& forall|i: int|
                        0 <= i < outs.len() ==> (#[trigger] outs[i]).dtype == DType::F32
                            && outs[i].data.len() == 4 * element_count(outs[i].shape)
                    &&& e.ended(end).shape_at(index) == (if 0 <= index < outs.len() {
                        Some(outs[index].shape)
                    } else {
                        None
                    })
                },
                CoreMlRunningSpec::Failed { error } => {
                    &&& error == (ErrorSpec::Execute {
                        method,
                        code: replies[0].code,
                        msg: "rc="@ + integer(replies[0].rc as int),
                    })
                    &&& e.ended(end).shape_at(index) == e.shape_at(index)
                },
                _ => true,
            }
        }),
{
    outputs_are_read_whole(method, e.handle, e.uses_names(dtypes.len()), replies);
    match run_after(e.running(method, dtypes), replies) {
        CoreMlRunningSpec::Ran { outs } => {
            assert forall|i: int| 0 <= i < outs.len() implies (#[trigger] outs[i]).dtype
                == DType::F32 && outs[i].data.len() == 4 * element_count(outs[i].shape) by {
                assert(outs[i] == told(replies, i) && outs[i].well_formed());
                assert(element_count(outs[i].shape) * outs[i].dtype.width() == element_count(
                    outs[i].shape,
                ) * 4);
            }
        },
        _ => {},
    }
}

/// The native outputs that a run has to give back.
pub open spec fn outputs_alive(s: CoreMlRunningSpec) -> Option<(usize, usize)> {
    match s {
        CoreMlRunningSpec::Shape { outputs, count, outs } => Some((outputs, count)),
        CoreMlRunningSpec::Data { outputs, count, outs, shape } => Some((outputs, count)),
        CoreMlRunningSpec::Free { outputs, count, outs } => Some((outputs, count)),
        _ => None,
    }
}

/// What a model gives is given back once, after all of it is read. A run that
/// has ended has nothing left to give back.
pub proof fn outputs_are_given_back_once(s: CoreMlRunningSpec, r: CoreMlReplySpec)
    ensures
        match s.call() {
            Some(CoreMlCall::Run { handle, named }) => outputs_alive(s) is None && outputs_alive(
                s.step(r),
            ) == (if r.rc == 0 && r.outputs != 0 {
                Some((r.outputs, r.count))
            } else {
                None
            }),
            Some(CoreMlCall::FreeOutputs { outputs, count }) => outputs_alive(s) == Some(
                (outputs, count),
            ) && outputs_alive(s.step(r)) is None,
            Some(_) => outputs_alive(s) is Some && outputs_alive(s.step(r)) == outputs_alive(s),
            None => outputs_alive(s) is None,
        },
{
}

/// Names go with their positions. Where as many names were pinned as there are
/// inputs, the tensor in each place is handed over under the name that was pinned
/// in that place, however many there are; where not, none has a name. Shape and
/// bytes are the caller's.
pub proof fn names_go_with_their_positions<'a>(
    unnamed: CoreMlEngine,
    names: &[&str],
    engine: CoreMlEngine,
    inputs: &[TensorView<'a>],
    r: Vec<CoreMlInput<'a>>,
    i: int,
)
    requires
        call_ensures(CoreMlEngine::with_input_names, (unnamed, names), Ok(engine)),
        call_ensures(CoreMlEngine::run_inputs, (&engine, inputs), r),
        0 <= i < inputs@.len(),
    ensures
        engine.handle == unnamed.handle,
        r@.len() == inputs@.len(),
        names@.len() == inputs@.len() ==> (r@[i].name matches Some(name) && name@ == names@[i]@),
        names@.len() != inputs@.len() ==> r@[i].name is None,
        r@[i].shape@ == inputs@[i].shape@,
        r@[i].data@ == inputs@[i].data@,
        r@[i].dtype == 0,
{
    assert(engine@.input_names.len() == engine.input_names@.len());
    assert(r@[i].name is Some || r@[i].name is None);
    if names@.len() == inputs@.len() {
        assert(engine@.input_names[i] == engine.input_names@[i]@);
        assert(engine@.input_names[i] == names@[i]@);
    }
}

/// What is handed over is what the caller gave, in the caller's order, under the
/// pinned names in theirs.
pub proof fn inputs_are_handed_over_in_order(e: CoreMlSpec, inputs: Seq<TensorView<'_>>, i: int)
    requires
        0 <= i < inputs.len(),
    ensures
        e.handed_over(inputs).len() == inputs.len(),
        e.handed_over(inputs)[i].shape == inputs[i].shape@,
        e.handed_over(inputs)[i].data == inputs[i].data@,
        e.handed_over(inputs)[i].dtype == 0,
        e.input_names.len() == inputs.len() ==> e.handed_over(inputs)[i].name == Some(
            e.input_names[i],
        ),
        e.input_names.len() != inputs.len() ==> e.handed_over(inputs)[i].name is None,
{
}

/// A run starts where every input is of floats, and fails at once where one is
/// not. It uses the names where there is one for each input.
pub proof fn floats_alone_are_run(e: CoreMlSpec, method: Method, dtypes: Seq<DType>)
    ensures
        (forall|i: int| 0 <= i < dtypes.len() ==> #[trigger] dtypes[i] == DType::F32) ==> e.running(
            method,
            dtypes,
        ) == (CoreMlRunningSpec::Start {
            method,
            handle: e.handle,
            named: e.input_names.len() == dtypes.len(),
        }),
        (exists|i: int| 0 <= i < dtypes.len() && #[trigger] dtypes[i] != DType::F32) ==> e.running(
            method,
            dtypes,
        ) == (CoreMlRunningSpec::Failed {
            error: ErrorSpec::Shape("Core ML 后端目前只收 f32 输入（模型 IO 都是 fp32）"@),
        }),
{
}

/// The answer of a model that gives these outputs, to a call about them.
pub open spec fn answer_with(outs: Seq<TensorSpec>, call: CoreMlCall) -> CoreMlReplySpec {
    let none = CoreMlReplySpec {
        rc: 0,
        code: 0,
        outputs: 0,
        count: 0,
        shape: seq![],
        data: seq![],
    };
    match call {
        CoreMlCall::Run { handle, named } => CoreMlReplySpec {
            outputs: 1,
            count: outs.len() as usize,
            ..none
        },
        CoreMlCall::Shape { outputs, index } => CoreMlReplySpec {
            shape: outs[index as int].shape,
            ..none
        },
        CoreMlCall::Data { outputs, index, len } => CoreMlReplySpec {
            data: outs[index as int].data.take(len as int),
            ..none
        },
        CoreMlCall::FreeOutputs { outputs, count } => none,
    }
}

/// A run after `n` calls to such a model.
pub open spec fn served_with(s: CoreMlRunningSpec, outs: Seq<TensorSpec>, n: nat) -> CoreMlRunningSpec
    decreases n,
{
    match s.call() {
        Some(call) if n > 0 => served_with(s.step(answer_with(outs, call)), outs, (n - 1) as nat),
        _ => s,
    }
}

proof fn lemma_outputs_copied(outs: Seq<TensorSpec>, k: nat)
    requires
        k <= outs.len() <= usize::MAX,
        forall|i: int|
            0 <= i < outs.len() ==> (#[trigger] outs[i]).dtype == DType::F32
                && outs[i].data.len() == 4 * element_count(outs[i].shape) && outs[i].data.len()
                <= usize::MAX,
    ensures
        served_with(
            CoreMlRunningSpec::read_from(1, outs.len() as usize, outs.take(k as int)),
            outs,
            (2 * (outs.len() - k) + 1) as nat,
        ) == (CoreMlRunningSpec::Ran { outs }),
    decreases outs.len() - k,
{
    let count = outs.len() as usize;
    let done = outs.take(k as int);
    let s = CoreMlRunningSpec::read_from(1, count, done);
    if k == outs.len() {
        assert(done =~= outs);
        let freed = s.step(answer_with(outs, s.call().unwrap()));
        assert(freed == (CoreMlRunningSpec::Ran { outs }));
        assert(served_with(freed, outs, 0) == freed);
    } else {
        lemma_outputs_copied(outs, k + 1);
        let o = outs[k as int];
        let data = CoreMlRunningSpec::Data { outputs: 1, count, outs: done, shape: o.shape };
        assert(s.step(answer_with(outs, s.call().unwrap())) == data);
        assert(element_count(o.shape) * 4 == o.data.len());
        assert(o.data.take(o.data.len() as int) =~= o.data);
        assert(outs.take(k as int + 1) =~= done.push(o));
        let next = CoreMlRunningSpec::read_from(1, count, outs.take(k as int + 1));
        assert(data.step(answer_with(outs, data.call().unwrap())) == next);
        let n = (2 * (outs.len() - k - 1) + 1) as nat;
        assert(served_with(data, outs, n + 1) == served_with(next, outs, n));
        assert(served_with(s, outs, n + 2) == served_with(data, outs, n + 1));
    }
}

/// A run returns what the model gives: all of its outputs, in order, with their
/// shapes and every byte of them. Each is asked for once, and then all are given
/// back.
pub proof fn a_run_returns_what_the_model_gives(
    method: Method,
    handle: usize,
    named: bool,
    outs: Seq<TensorSpec>,
)
    requires
        outs.len() <= usize::MAX,
        forall|i: int|
            0 <= i < outs.len() ==> (#[trigger] outs[i]).dtype == DType::F32
                && outs[i].data.len() == 4 * element_count(outs[i].shape) && outs[i].data.len()
                <= usize::MAX,
    ensures
        served_with(
            CoreMlRunningSpec::Start { method, handle, named },
            outs,
            (2 * outs.len() + 2) as nat,
        ) == (CoreMlRunningSpec::Ran { outs }),
        (CoreMlRunningSpec::Start { method, handle, named }).call() == Some(
            CoreMlCall::Run { handle, named },
        ),
{
    let start = CoreMlRunningSpec::Start { method, handle, named };
    assert(outs.take(0) =~= seq![]);
    lemma_outputs_copied(outs, 0);
    let s = CoreMlRunningSpec::read_from(1, outs.len() as usize, seq![]);
    assert(start.step(answer_with(outs, start.call().unwrap())) == s);
    assert(served_with(start, outs, (2 * outs.len() + 2) as nat) == served_with(
        s,
        outs,
        (2 * outs.len() + 1) as nat,
    ));
}

/// A model that gives no outputs fails the run, and the error says which method
/// it was, with the code and the status that the model gave.
pub proof fn a_run_fails_with_the_models_code(
    method: Method,
    handle: usize,
    named: bool,
    r: CoreMlReplySpec,
)
    ensures
        r.rc != 0 || r.outputs == 0 ==> (CoreMlRunningSpec::Start { method, handle, named }).step(r)
            == (CoreMlRunningSpec::Failed {
            error: ErrorSpec::Execute {
                method,
                code: r.code,
                msg: "rc="@ + integer(r.rc as int),
            },
        }),
        r.rc == 0 && r.outputs != 0 ==> (CoreMlRunningSpec::Start { method, handle, named }).step(r)
            !is Failed,
{
}

/// After a run that ended well the engine gives, for each output, the shape of the
/// tensor that was returned; after any other it gives what it gave before. The
/// model and the names stay.
pub proof fn shapes_are_those_returned(
    e: CoreMlSpec,
    outs: Seq<TensorSpec>,
    error: ErrorSpec,
    i: int,
)
    ensures
        ({
            let f = e.ended(CoreMlRunningSpec::Ran { outs });
            &&& f.shape_at(i) == (if 0 <= i < outs.len() {
                Some(outs[i].shape)
            } else {
                None
            })
            &&& f.last_shapes.len() == outs.len()
            &&& f.handle == e.handle && f.input_names == e.input_names
        }),
        e.ended(CoreMlRunningSpec::Failed { error }) == e,
        e.shape_at(i) == (if 0 <= i < e.last_shapes.len() {
            Some(e.last_shapes[i])
        } else {
            None
        }),
{
}

/// The element types that a run looks at are those of the caller's tensors, in
/// order.
pub proof fn types_are_looked_at_in_order(inputs: Seq<TensorView<'_>>, i: int)
    ensures
        dtypes_of(inputs).len() == inputs.len(),
        0 <= i < inputs.len() ==> dtypes_of(inputs)[i] == inputs[i].dtype,
{
}

/// A reply is taken as it comes, but that the elements of a shape can be counted
/// and held, and that as many bytes come as the shape has.
pub proof fn replies_are_taken_as_they_come(s: CoreMlRunningSpec, r: CoreMlReplySpec)
    ensures
        match s {
            CoreMlRunningSpec::Shape { outputs, count, outs } => s.takes(r) <==> allocatable(
                r.shape,
                DType::F32,
            ),
            CoreMlRunningSpec::Data { outputs, count, outs, shape } => s.takes(r) <==> r.data.len()
                == 4 * element_count(shape),
            _ => s.takes(r),
        },
{
}

} // verus!
