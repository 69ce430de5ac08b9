//! The models of recognition: one Core ML model for each method.
//!
//! Files, in `model_dir`: `prefix_enc`, and either `decoder`, which holds
//! `prefill` and `step` as functions that share their weights, or
//! `decoder_prefill` and `decoder_step`. A compiled `.mlmodelc` is preferred to
//! a `.mlpackage`, which is compiled when it is first loaded.

use super::run::{dtypes_of, shapes_of, CoreMlRunning, CoreMlRunningSpec};
use super::{
    any_nul, compiled_in, compiled_path, load_for, load_of, package_in, package_path,
    CoreMlEngine, CoreMlLoad, CoreMlSpec, LoadSpec,
};
use crate::tensor::tensors_of;
use crate::text::{has_nul, integer, str_texts};
use crate::{EngineConfig, EngineError, ErrorSpec, Method, Tensor, TensorView};
use vstd::multiset::Multiset;
use vstd::prelude::*;

verus! {

/// One engine for each method.
pub struct CoreMlPipeline {
    pub prefix_enc: CoreMlEngine,
    pub prefill: CoreMlEngine,
    pub step: CoreMlEngine,
}

/// What a [`CoreMlPipeline`] holds.
pub struct PipelineSpec {
    pub prefix_enc: CoreMlSpec,
    pub prefill: CoreMlSpec,
    pub step: CoreMlSpec,
}

impl View for CoreMlPipeline {
    type V = PipelineSpec;

    open spec fn view(&self) -> PipelineSpec {
        PipelineSpec {
            prefix_enc: self.prefix_enc@,
            prefill: self.prefill@,
            step: self.step@,
        }
    }
}

impl PipelineSpec {
    /// The engine of a method.
    pub open spec fn engine(self, method: Method) -> CoreMlSpec {
        match method {
            Method::PrefixEnc => self.prefix_enc,
            Method::Prefill => self.prefill,
            Method::Step => self.step,
        }
    }

    /// With another engine for one method.
    pub open spec fn with_engine(self, method: Method, engine: CoreMlSpec) -> PipelineSpec {
        match method {
            Method::PrefixEnc => PipelineSpec { prefix_enc: engine, ..self },
            Method::Prefill => PipelineSpec { prefill: engine, ..self },
            Method::Step => PipelineSpec { step: engine, ..self },
        }
    }
}

impl CoreMlPipeline {
    /// The engine of a method.
    pub fn engine(&self, method: Method) -> (r: &CoreMlEngine)
        ensures
            r@ == self@.engine(method),
    {
        match method {
            Method::PrefixEnc => &self.prefix_enc,
            Method::Prefill => &self.prefill,
            Method::Step => &self.step,
        }
    }

    /// The name of the backend.
    pub fn backend_name(&self) -> (r: &'static str)
        ensures
            r@ == "coreml"@,
    {
        "coreml"
    }

    /// Whether there is a method: there are all three.
    pub fn has_method(&self, _method: Method) -> (r: bool)
        ensures
            r,
    {
        true
    }

    /// Starts a run of the method's engine, through its one entry.
    pub fn run(&self, method: Method, inputs: &[TensorView<'_>]) -> (r: CoreMlRunning)
        ensures
            r@ == self@.engine(method).running(Method::PrefixEnc, dtypes_of(inputs@)),
            r@.well_formed(),
    {
        self.engine(method).run(Method::PrefixEnc, inputs)
    }

    /// Ends a run of the method's engine.
    pub fn finish_run(&mut self, method: Method, running: CoreMlRunning) -> (r: crate::Result<
        Vec<Tensor>,
    >)
        requires
            running@.call() is None,
        ensures
            match running@ {
                CoreMlRunningSpec::Ran { outs } => {
                    &&& r matches Ok(v) && tensors_of(v@) == outs
                    &&& final(self)@ == old(self)@.with_engine(
                        method,
                        CoreMlSpec {
                            last_shapes: shapes_of(outs),
                            ..old(self)@.engine(method)
                        },
                    )
                },
                CoreMlRunningSpec::Failed { error } => {
                    &&& r matches Err(e) && e@ == error
                    &&& final(self)@ == old(self)@
                },
                _ => false,
            },
    {
        match method {
            Method::PrefixEnc => self.prefix_enc.finish_run(running),
            Method::Prefill => self.prefill.finish_run(running),
            Method::Step => self.step.finish_run(running),
        }
    }

    /// The shape of an output of the method's last run.
    pub fn output_shape(&self, method: Method, index: usize) -> (r: Option<Vec<i64>>)
        ensures
            match r {
                Some(shape) => index < self@.engine(method).last_shapes.len() && shape@
                    == self@.engine(method).last_shapes[index as int],
                None => index >= self@.engine(method).last_shapes.len(),
            },
    {
        self.engine(method).output_shape(Method::PrefixEnc, index)
    }
}

/// The next thing to do for an opening.
pub enum PipelineCall<'a> {
    /// See whether there is a file or directory.
    Exists { path: String },
    /// `cml_model_load`
    Load(&'a CoreMlLoad),
    /// `cml_model_free`
    FreeModel { handle: usize },
}

/// What a [`PipelineCall`] says.
pub enum PipelineCallSpec {
    Exists { path: Seq<char> },
    Load(LoadSpec),
    FreeModel { handle: usize },
}

impl<'a> View for PipelineCall<'a> {
    type V = PipelineCallSpec;

    open spec fn view(&self) -> PipelineCallSpec {
        match *self {
            PipelineCall::Exists { path } => PipelineCallSpec::Exists { path: path@ },
            PipelineCall::Load(load) => PipelineCallSpec::Load(load@),
            PipelineCall::FreeModel { handle } => PipelineCallSpec::FreeModel { handle },
        }
    }
}

/// What came of it: whether the path is there, or the loaded model, 0 for none,
/// with the error code.
#[derive(Clone, Copy)]
pub struct PipelineReply {
    pub exists: bool,
    pub handle: usize,
    pub code: i32,
}

/// What an opening does next.
pub enum PipelineStage {
    /// Look for a compiled decoder.
    FindDecoder,
    /// See whether the decoder is there.
    CheckDecoder { path: String },
    /// Look for a compiled `decoder_prefill`.
    FindPrefill,
    /// Load the prefill engine. `merged` is the decoder where it is there.
    LoadPrefill { load: CoreMlLoad, merged: Option<String> },
    /// Look for a compiled `decoder_step`.
    FindStep { prefill: CoreMlEngine },
    /// Load the step engine.
    LoadStep { load: CoreMlLoad, prefill: CoreMlEngine },
    /// Look for a compiled `prefix_enc`.
    FindEncoder { prefill: CoreMlEngine, step: CoreMlEngine },
    /// Load the encoder.
    LoadEncoder { load: CoreMlLoad, prefill: CoreMlEngine, step: CoreMlEngine },
    /// After a failure, models that are loaded already are freed.
    Free { handles: Vec<usize>, next: usize, error: EngineError },
}

/// What a [`PipelineStage`] holds.
pub enum PipelineStageSpec {
    FindDecoder,
    CheckDecoder { path: Seq<char> },
    FindPrefill,
    LoadPrefill { load: LoadSpec, merged: Option<Seq<char>> },
    FindStep { prefill: CoreMlSpec },
    LoadStep { load: LoadSpec, prefill: CoreMlSpec },
    FindEncoder { prefill: CoreMlSpec, step: CoreMlSpec },
    LoadEncoder { load: LoadSpec, prefill: CoreMlSpec, step: CoreMlSpec },
    Free { handles: Seq<usize>, next: nat, error: ErrorSpec },
}

impl View for PipelineStage {
    type V = PipelineStageSpec;

    open spec fn view(&self) -> PipelineStageSpec {
        match *self {
            PipelineStage::FindDecoder => PipelineStageSpec::FindDecoder,
            PipelineStage::CheckDecoder { path } => PipelineStageSpec::CheckDecoder {
                path: path@,
            },
            PipelineStage::FindPrefill => PipelineStageSpec::FindPrefill,
            PipelineStage::LoadPrefill { load, merged } => PipelineStageSpec::LoadPrefill {
                load: load@,
                merged: match merged {
                    Some(path) => Some(path@),
                    None => None,
                },
            },
            PipelineStage::FindStep { prefill } => PipelineStageSpec::FindStep {
                prefill: prefill@,
            },
            PipelineStage::LoadStep { load, prefill } => PipelineStageSpec::LoadStep {
                load: load@,
                prefill: prefill@,
            },
            PipelineStage::FindEncoder { prefill, step } => PipelineStageSpec::FindEncoder {
                prefill: prefill@,
                step: step@,
            },
            PipelineStage::LoadEncoder { load, prefill, step } => PipelineStageSpec::LoadEncoder {
                load: load@,
                prefill: prefill@,
                step: step@,
            },
            PipelineStage::Free { handles, next, error } => PipelineStageSpec::Free {
                handles: handles@,
                next: next as nat,
                error: error@,
            },
        }
    }
}

/// Where the models are, and how many threads they get.
pub struct ModelSource {
    pub dir: String,
    pub num_threads: i32,
}

/// Opens a pipeline, one call at a time.
pub enum PipelineOpening {
    Working { source: ModelSource, stage: PipelineStage },
    Opened { pipeline: CoreMlPipeline },
    /// Every model that was loaded is freed.
    Failed { error: EngineError },
}

/// What a [`PipelineOpening`] holds.
pub enum PipelineOpeningSpec {
    Working { dir: Seq<char>, num_threads: i32, stage: PipelineStageSpec },
    Opened { pipeline: PipelineSpec },
    Failed { error: ErrorSpec },
}

impl View for PipelineOpening {
    type V = PipelineOpeningSpec;

    open spec fn view(&self) -> PipelineOpeningSpec {
        match *self {
            PipelineOpening::Working { source, stage } => PipelineOpeningSpec::Working {
                dir: source.dir@,
                num_threads: source.num_threads,
                stage: stage@,
            },
            PipelineOpening::Opened { pipeline } => PipelineOpeningSpec::Opened {
                pipeline: pipeline@,
            },
            PipelineOpening::Failed { error } => PipelineOpeningSpec::Failed { error: error@ },
        }
    }
}

/// The file of a model: the compiled one where it is there.
pub open spec fn file_of(dir: Seq<char>, name: Seq<char>, compiled: bool) -> Seq<char> {
    if compiled {
        compiled_path(dir, name)
    } else {
        package_path(dir, name)
    }
}

/// The names of the encoder's inputs.
pub open spec fn encoder_names() -> Seq<Seq<char>> {
    seq!["img"@, "stroke"@, "stroke_real_len"@]
}

/// The names of the inputs of `prefill`.
pub open spec fn prefill_names() -> Seq<Seq<char>> {
    seq!["prefix"@]
}

/// The names of the inputs of `step`.
pub open spec fn step_names() -> Seq<Seq<char>> {
    seq!["token_id"@, "pos"@, "past_kv"@]
}

/// The pipeline of three loaded models.
pub open spec fn pipeline_of(
    prefix_enc: CoreMlSpec,
    prefill: CoreMlSpec,
    step: CoreMlSpec,
) -> PipelineSpec {
    PipelineSpec {
        prefix_enc: CoreMlSpec { input_names: encoder_names(), ..prefix_enc },
        prefill: CoreMlSpec { input_names: prefill_names(), ..prefill },
        step: CoreMlSpec { input_names: step_names(), ..step },
    }
}

impl PipelineOpeningSpec {
    /// Opening starts with the decoder.
    pub open spec fn start(dir: Seq<char>, num_threads: i32) -> PipelineOpeningSpec {
        PipelineOpeningSpec::Working { dir, num_threads, stage: PipelineStageSpec::FindDecoder }
    }

    /// There is something to free where something is freed.
    pub open spec fn well_formed(self) -> bool {
        match self {
            PipelineOpeningSpec::Working { dir, num_threads, stage } => match stage {
                PipelineStageSpec::Free { handles, next, error } => next < handles.len(),
                _ => true,
            },
            _ => true,
        }
    }

    /// What comes next; nothing when opening has ended.
    pub open spec fn call(self) -> Option<PipelineCallSpec> {
        match self {
            PipelineOpeningSpec::Working { dir, num_threads, stage } => Some(
                match stage {
                    PipelineStageSpec::FindDecoder => PipelineCallSpec::Exists {
                        path: compiled_path(dir, "decoder"@),
                    },
                    PipelineStageSpec::CheckDecoder { path } => PipelineCallSpec::Exists { path },
                    PipelineStageSpec::FindPrefill => PipelineCallSpec::Exists {
                        path: compiled_path(dir, "decoder_prefill"@),
                    },
                    PipelineStageSpec::LoadPrefill { load, merged } => PipelineCallSpec::Load(load),
                    PipelineStageSpec::FindStep { prefill } => PipelineCallSpec::Exists {
                        path: compiled_path(dir, "decoder_step"@),
                    },
                    PipelineStageSpec::LoadStep { load, prefill } => PipelineCallSpec::Load(load),
                    PipelineStageSpec::FindEncoder { prefill, step } => PipelineCallSpec::Exists {
                        path: compiled_path(dir, "prefix_enc"@),
                    },
                    PipelineStageSpec::LoadEncoder { load, prefill, step } => {
                        PipelineCallSpec::Load(load)
                    },
                    PipelineStageSpec::Free { handles, next, error } => {
                        PipelineCallSpec::FreeModel { handle: handles[next as int] }
                    },
                },
            ),
            _ => None,
        }
    }

    /// Frees what is loaded and fails.
    pub open spec fn give_up(
        dir: Seq<char>,
        num_threads: i32,
        handles: Seq<usize>,
        error: ErrorSpec,
    ) -> PipelineOpeningSpec {
        if handles.len() == 0 {
            PipelineOpeningSpec::Failed { error }
        } else {
            PipelineOpeningSpec::Working {
                dir,
                num_threads,
                stage: PipelineStageSpec::Free { handles, next: 0, error },
            }
        }
    }

    /// Where opening stands after a reply. The decoder comes first and the
    /// encoder last; a failure frees what is loaded, the last first.
    pub open spec fn reply(self, r: PipelineReply) -> PipelineOpeningSpec {
        match self {
            PipelineOpeningSpec::Working { dir, num_threads, stage } => {
                let at = |s: PipelineStageSpec|
                    PipelineOpeningSpec::Working { dir, num_threads, stage: s };
                let fail = |handles: Seq<usize>, error: ErrorSpec|
                    PipelineOpeningSpec::give_up(dir, num_threads, handles, error);
                match stage {
                    PipelineStageSpec::FindDecoder => at(
                        PipelineStageSpec::CheckDecoder {
                            path: file_of(dir, "decoder"@, r.exists),
                        },
                    ),
                    PipelineStageSpec::CheckDecoder { path } => if r.exists {
                        match load_of(path, Some("prefill"@), num_threads) {
                            Ok(load) => at(
                                PipelineStageSpec::LoadPrefill { load, merged: Some(path) },
                            ),
                            Err(e) => fail(seq![], e),
                        }
                    } else {
                        at(PipelineStageSpec::FindPrefill)
                    },
                    PipelineStageSpec::FindPrefill => match load_of(
                        file_of(dir, "decoder_prefill"@, r.exists),
                        None,
                        num_threads,
                    ) {
                        Ok(load) => at(PipelineStageSpec::LoadPrefill { load, merged: None }),
                        Err(e) => fail(seq![], e),
                    },
                    PipelineStageSpec::LoadPrefill { load, merged } => match load.loaded(
                        r.handle,
                        r.code,
                    ) {
                        Err(e) => fail(seq![], e),
                        Ok(prefill) => match merged {
                            None => at(PipelineStageSpec::FindStep { prefill }),
                            Some(path) => match load_of(path, Some("step"@), num_threads) {
                                Ok(load) => at(PipelineStageSpec::LoadStep { load, prefill }),
                                Err(e) => fail(seq![prefill.handle], e),
                            },
                        },
                    },
                    PipelineStageSpec::FindStep { prefill } => match load_of(
                        file_of(dir, "decoder_step"@, r.exists),
                        None,
                        num_threads,
                    ) {
                        Ok(load) => at(PipelineStageSpec::LoadStep { load, prefill }),
                        Err(e) => fail(seq![prefill.handle], e),
                    },
                    PipelineStageSpec::LoadStep { load, prefill } => match load.loaded(
                        r.handle,
                        r.code,
                    ) {
                        Ok(step) => at(PipelineStageSpec::FindEncoder { prefill, step }),
                        Err(e) => fail(seq![prefill.handle], e),
                    },
                    PipelineStageSpec::FindEncoder { prefill, step } => match load_of(
                        file_of(dir, "prefix_enc"@, r.exists),
                        None,
                        num_threads,
                    ) {
                        Ok(load) => at(PipelineStageSpec::LoadEncoder { load, prefill, step }),
                        Err(e) => fail(seq![step.handle, prefill.handle], e),
                    },
                    PipelineStageSpec::LoadEncoder { load, prefill, step } => match load.loaded(
                        r.handle,
                        r.code,
                    ) {
                        Ok(prefix_enc) => PipelineOpeningSpec::Opened {
                            pipeline: pipeline_of(prefix_enc, prefill, step),
                        },
                        Err(e) => fail(seq![step.handle, prefill.handle], e),
                    },
                    PipelineStageSpec::Free { handles, next, error } => if next + 1
                        < handles.len() {
                        at(PipelineStageSpec::Free { handles, next: next + 1, error })
                    } else {
                        PipelineOpeningSpec::Failed { error }
                    },
                }
            },
            _ => self,
        }
    }
}

fn file_in(dir: &str, name: &str, compiled: bool) -> (r: String)
    ensures
        r@ == file_of(dir@, name@, compiled),
{
    if compiled {
        compiled_in(dir, name)
    } else {
        package_in(dir, name)
    }
}

fn give_up(source: ModelSource, handles: Vec<usize>, error: EngineError) -> (r: PipelineOpening)
    ensures
        r@ == PipelineOpeningSpec::give_up(source.dir@, source.num_threads, handles@, error@),
        r@.well_formed(),
{
    if handles.len() == 0 {
        PipelineOpening::Failed { error }
    } else {
        PipelineOpening::Working { source, stage: PipelineStage::Free { handles, next: 0, error } }
    }
}

fn one_handle(a: usize) -> (r: Vec<usize>)
    ensures
        r@ == seq![a],
{
    let r = vec![a];
    assert(r@ =~= seq![a]);
    r
}

fn two_handles(a: usize, b: usize) -> (r: Vec<usize>)
    ensures
        r@ == seq![a, b],
{
    let r = vec![a, b];
    assert(r@ =~= seq![a, b]);
    r
}

fn pin(engine: CoreMlEngine, names: &[&str]) -> (r: CoreMlEngine)
    requires
        !any_nul(str_texts(names@)),
    ensures
        r@ == (CoreMlSpec { input_names: str_texts(names@), ..engine@ }),
{
    match engine.with_input_names(names) {
        Ok(pinned) => pinned,
        Err(e) => vstd::pervasive::unreached(),
    }
}

proof fn lemma_names_clean()
    ensures
        !any_nul(encoder_names()),
        !any_nul(prefill_names()),
        !any_nul(step_names()),
{
    reveal_strlit("img");
    reveal_strlit("stroke");
    reveal_strlit("stroke_real_len");
    reveal_strlit("prefix");
    reveal_strlit("token_id");
    reveal_strlit("pos");
    reveal_strlit("past_kv");
    assert(!has_nul("img"@));
    assert(!has_nul("stroke"@));
    assert(!has_nul("stroke_real_len"@));
    assert(!has_nul("prefix"@));
    assert(!has_nul("token_id"@));
    assert(!has_nul("pos"@));
    assert(!has_nul("past_kv"@));
}

fn assemble(prefix_enc: CoreMlEngine, prefill: CoreMlEngine, step: CoreMlEngine) -> (r:
    CoreMlPipeline)
    ensures
        r@ == pipeline_of(prefix_enc@, prefill@, step@),
{
    let a = ["img", "stroke", "stroke_real_len"];
    let b = ["prefix"];
    let c = ["token_id", "pos", "past_kv"];
    proof {
        lemma_names_clean();
        assert(str_texts(a@) =~= encoder_names());
        assert(str_texts(b@) =~= prefill_names());
        assert(str_texts(c@) =~= step_names());
    }
    CoreMlPipeline {
        prefix_enc: pin(prefix_enc, a.as_slice()),
        prefill: pin(prefill, b.as_slice()),
        step: pin(step, c.as_slice()),
    }
}

impl CoreMlPipeline {
    /// Starts opening the models of recognition in a directory.
    pub fn open(cfg: &EngineConfig) -> (r: PipelineOpening)
        ensures
            r@ == PipelineOpeningSpec::start(cfg.model_dir@, cfg.num_threads),
            r@.well_formed(),
    {
        PipelineOpening::Working {
            source: ModelSource {
                dir: String::from_str(cfg.model_dir.as_str()),
                num_threads: cfg.num_threads,
            },
            stage: PipelineStage::FindDecoder,
        }
    }
}

impl PipelineOpening {
    /// What comes next; nothing when opening has ended.
    pub fn call(&self) -> (r: Option<PipelineCall<'_>>)
        requires
            self@.well_formed(),
        ensures
            match (self@.call(), r) {
                (Some(want), Some(call)) => call@ == want,
                (None, None) => true,
                _ => false,
            },
    {
        match self {
            PipelineOpening::Working { source, stage } => {
                let dir = source.dir.as_str();
                Some(
                    match stage {
                        PipelineStage::FindDecoder => PipelineCall::Exists {
                            path: compiled_in(dir, "decoder"),
                        },
                        PipelineStage::CheckDecoder { path } => PipelineCall::Exists {
                            path: String::from_str(path.as_str()),
                        },
                        PipelineStage::FindPrefill => PipelineCall::Exists {
                            path: compiled_in(dir, "decoder_prefill"),
                        },
                        PipelineStage::LoadPrefill { load, merged } => PipelineCall::Load(load),
                        PipelineStage::FindStep { prefill } => PipelineCall::Exists {
                            path: compiled_in(dir, "decoder_step"),
                        },
                        PipelineStage::LoadStep { load, prefill } => PipelineCall::Load(load),
                        PipelineStage::FindEncoder { prefill, step } => PipelineCall::Exists {
                            path: compiled_in(dir, "prefix_enc"),
                        },
                        PipelineStage::LoadEncoder { load, prefill, step } => PipelineCall::Load(
                            load,
                        ),
                        PipelineStage::Free { handles, next, error } => PipelineCall::FreeModel {
                            handle: handles[*next],
                        },
                    },
                )
            },
            _ => None,
        }
    }

    /// Takes the reply to what came next.
    pub fn advance(self, reply: PipelineReply) -> (r: PipelineOpening)
        requires
            self@.well_formed(),
        ensures
            r@ == self@.reply(reply),
            r@.well_formed(),
    {
        match self {
            PipelineOpening::Working { source, stage } => match stage {
                PipelineStage::FindDecoder => {
                    let path = file_in(source.dir.as_str(), "decoder", reply.exists);
                    PipelineOpening::Working { source, stage: PipelineStage::CheckDecoder { path } }
                },
                PipelineStage::CheckDecoder { path } => {
                    if reply.exists {
                        match load_for(path.as_str(), Some("prefill"), source.num_threads) {
                            Ok(load) => PipelineOpening::Working {
                                source,
                                stage: PipelineStage::LoadPrefill { load, merged: Some(path) },
                            },
                            Err(e) => give_up(source, Vec::new(), e),
                        }
                    } else {
                        PipelineOpening::Working { source, stage: PipelineStage::FindPrefill }
                    }
                },
                PipelineStage::FindPrefill => {
                    let path = file_in(source.dir.as_str(), "decoder_prefill", reply.exists);
                    match load_for(path.as_str(), None, source.num_threads) {
                        Ok(load) => PipelineOpening::Working {
                            source,
                            stage: PipelineStage::LoadPrefill { load, merged: None },
                        },
                        Err(e) => give_up(source, Vec::new(), e),
                    }
                },
                PipelineStage::LoadPrefill { load, merged } => match load.loaded(
                    reply.handle,
                    reply.code,
                ) {
                    Err(e) => give_up(source, Vec::new(), e),
                    Ok(prefill) => match merged {
                        None => PipelineOpening::Working {
                            source,
                            stage: PipelineStage::FindStep { prefill },
                        },
                        Some(path) => match load_for(
                            path.as_str(),
                            Some("step"),
                            source.num_threads,
                        ) {
                            Ok(load) => PipelineOpening::Working {
                                source,
                                stage: PipelineStage::LoadStep { load, prefill },
                            },
                            Err(e) => give_up(source, one_handle(prefill.handle), e),
                        },
                    },
                },
                PipelineStage::FindStep { prefill } => {
                    let path = file_in(source.dir.as_str(), "decoder_step", reply.exists);
                    match load_for(path.as_str(), None, source.num_threads) {
                        Ok(load) => PipelineOpening::Working {
                            source,
                            stage: PipelineStage::LoadStep { load, prefill },
                        },
                        Err(e) => give_up(source, one_handle(prefill.handle), e),
                    }
                },
                PipelineStage::LoadStep { load, prefill } => match load.loaded(
                    reply.handle,
                    reply.code,
                ) {
                    Ok(step) => PipelineOpening::Working {
                        source,
                        stage: PipelineStage::FindEncoder { prefill, step },
                    },
                    Err(e) => give_up(source, one_handle(prefill.handle), e),
                },
                PipelineStage::FindEncoder { prefill, step } => {
                    let path = file_in(source.dir.as_str(), "prefix_enc", reply.exists);
                    match load_for(path.as_str(), None, source.num_threads) {
                        Ok(load) => PipelineOpening::Working {
                            source,
                            stage: PipelineStage::LoadEncoder { load, prefill, step },
                        },
                        Err(e) => give_up(source, two_handles(step.handle, prefill.handle), e),
                    }
                },
                PipelineStage::LoadEncoder { load, prefill, step } => match load.loaded(
                    reply.handle,
                    reply.code,
                ) {
                    Ok(prefix_enc) => PipelineOpening::Opened {
                        pipeline: assemble(prefix_enc, prefill, step),
                    },
                    Err(e) => give_up(source, two_handles(step.handle, prefill.handle), e),
                },
                PipelineStage::Free { handles, next, error } => {
                    if next < handles.len() - 1 {
                        PipelineOpening::Working {
                            source,
                            stage: PipelineStage::Free { handles, next: next + 1, error },
                        }
                    } else {
                        PipelineOpening::Failed { error }
                    }
                },
            },
            other => other,
        }
    }
}

impl PipelineOpeningSpec {
    /// The models that are loaded and not freed.
    pub open spec fn held(self) -> Multiset<usize> {
        match self {
            PipelineOpeningSpec::Working { dir, num_threads, stage } => match stage {
                PipelineStageSpec::FindStep { prefill } => Multiset::singleton(prefill.handle),
                PipelineStageSpec::LoadStep { load, prefill } => Multiset::singleton(
                    prefill.handle,
                ),
                PipelineStageSpec::FindEncoder { prefill, step } => Multiset::singleton(
                    prefill.handle,
                ).insert(step.handle),
                PipelineStageSpec::LoadEncoder { load, prefill, step } => Multiset::singleton(
                    prefill.handle,
                ).insert(step.handle),
                PipelineStageSpec::Free { handles, next, error } => handles.skip(
                    next as int,
                ).to_multiset(),
                _ => Multiset::empty(),
            },
            PipelineOpeningSpec::Opened { pipeline } => Multiset::singleton(
                pipeline.prefill.handle,
            ).insert(pipeline.step.handle).insert(pipeline.prefix_enc.handle),
            PipelineOpeningSpec::Failed { error } => Multiset::empty(),
        }
    }
}

/// The models that are loaded after a call.
pub open spec fn loaded_after(held: Multiset<usize>, call: PipelineCallSpec, r: PipelineReply) -> Multiset<
    usize,
> {
    match call {
        PipelineCallSpec::Exists { path } => held,
        PipelineCallSpec::Load(load) => if r.handle == 0 {
            held
        } else {
            held.insert(r.handle)
        },
        PipelineCallSpec::FreeModel { handle } => held.remove(handle),
    }
}

proof fn lemma_given_up(dir: Seq<char>, num_threads: i32, handles: Seq<usize>, error: ErrorSpec)
    ensures
        PipelineOpeningSpec::give_up(dir, num_threads, handles, error).held()
            == handles.to_multiset(),
{
    broadcast use vstd::seq_lib::group_to_multiset_ensures;
    broadcast use vstd::multiset::group_multiset_axioms;

    assert(handles.skip(0) =~= handles);
    if handles.len() == 0 {
        assert(handles =~= seq![]);
        assert(handles.to_multiset() =~= Multiset::empty());
    }
}

proof fn lemma_few(a: usize, b: usize)
    ensures
        seq![a].to_multiset() == Multiset::singleton(a),
        seq![a, b].to_multiset() == Multiset::singleton(b).insert(a),
        Seq::<usize>::empty().to_multiset() == Multiset::<usize>::empty(),
{
    broadcast use vstd::seq_lib::group_to_multiset_ensures;
    broadcast use vstd::multiset::group_multiset_axioms;

    assert(seq![a] =~= Seq::<usize>::empty().push(a));
    assert(seq![a, b] =~= seq![a].push(b));
    assert(Seq::<usize>::empty().to_multiset() =~= Multiset::empty());
    assert(seq![a].to_multiset() =~= Multiset::singleton(a));
    assert(seq![a, b].to_multiset() =~= Multiset::singleton(b).insert(a));
}

proof fn lemma_first_freed(handles: Seq<usize>, next: nat)
    requires
        next < handles.len(),
    ensures
        handles.skip(next as int).to_multiset().count(handles[next as int]) > 0,
        handles.skip(next as int).to_multiset().remove(handles[next as int]) == handles.skip(
            next as int + 1,
        ).to_multiset(),
        next + 1 == handles.len() ==> handles.skip(next as int + 1).to_multiset() == Multiset::<
            usize,
        >::empty(),
{
    broadcast use vstd::seq_lib::group_to_multiset_ensures;
    broadcast use vstd::multiset::group_multiset_axioms;

    let left = handles.skip(next as int);
    let rest = handles.skip(next as int + 1);
    assert(left =~= seq![left[0]] + rest);
    vstd::seq_lib::lemma_multiset_commutative(seq![left[0]], rest);
    lemma_few(left[0], left[0]);
    assert(left.to_multiset().remove(left[0]) =~= rest.to_multiset());
    if next + 1 == handles.len() {
        assert(rest =~= seq![]);
        lemma_few(left[0], left[0]);
    }
}

/// Every call of an opening changes what is loaded by what it loads or frees, and
/// frees nothing that is not loaded.
pub proof fn pipeline_opening_keeps_account(s: PipelineOpeningSpec, r: PipelineReply)
    requires
        s.well_formed(),
    ensures
        s.reply(r).well_formed(),
        s.call() matches Some(call) ==> {
            &&& s.reply(r).held() == loaded_after(s.held(), call, r)
            &&& call matches PipelineCallSpec::FreeModel { handle } ==> s.held().count(handle) > 0
        },
{
    match s {
        PipelineOpeningSpec::Working { dir, num_threads, stage } => {
            assert forall|handles: Seq<usize>, e: ErrorSpec|
                (#[trigger] PipelineOpeningSpec::give_up(dir, num_threads, handles, e)).held()
                    == handles.to_multiset() by {
                lemma_given_up(dir, num_threads, handles, e);
            }
            lemma_few(0, 0);
            match stage {
                PipelineStageSpec::LoadPrefill { load, merged } => {
                    lemma_few(r.handle, r.handle);
                    assert(Multiset::<usize>::empty().insert(r.handle) =~= Multiset::singleton(
                        r.handle,
                    ));
                },
                PipelineStageSpec::FindStep { prefill } => {
                    lemma_few(prefill.handle, prefill.handle);
                },
                PipelineStageSpec::LoadStep { load, prefill } => {
                    lemma_few(prefill.handle, prefill.handle);
                },
                PipelineStageSpec::FindEncoder { prefill, step } => {
                    lemma_few(step.handle, prefill.handle);
                },
                PipelineStageSpec::LoadEncoder { load, prefill, step } => {
                    lemma_few(step.handle, prefill.handle);
                },
                PipelineStageSpec::Free { handles, next, error } => {
                    lemma_first_freed(handles, next);
                },
                _ => {},
            }
        },
        _ => {},
    }
}

/// An opening after a number of replies.
pub open spec fn pipeline_after(s: PipelineOpeningSpec, replies: Seq<PipelineReply>) -> PipelineOpeningSpec
    decreases replies.len(),
{
    if replies.len() == 0 {
        s
    } else {
        pipeline_after(s, replies.drop_last()).reply(replies.last())
    }
}

/// The models that the calls of an opening have loaded and not freed.
pub open spec fn pipeline_loaded(s: PipelineOpeningSpec, replies: Seq<PipelineReply>) -> Multiset<
    usize,
>
    decreases replies.len(),
{
    if replies.len() == 0 {
        Multiset::empty()
    } else {
        let before = pipeline_loaded(s, replies.drop_last());
        match pipeline_after(s, replies.drop_last()).call() {
            Some(call) => loaded_after(before, call, replies.last()),
            None => before,
        }
    }
}

/// Whatever files there are and whichever models load, a failed opening leaves
/// no model loaded, and an open pipeline holds its three and no more.
pub proof fn pipeline_opening_leaks_nothing(
    dir: Seq<char>,
    num_threads: i32,
    replies: Seq<PipelineReply>,
)
    ensures
        ({
            let start = PipelineOpeningSpec::start(dir, num_threads);
            let end = pipeline_after(start, replies);
            &&& end.well_formed()
            &&& pipeline_loaded(start, replies) == end.held()
            &&& end is Failed ==> pipeline_loaded(start, replies) == Multiset::<usize>::empty()
        }),
    decreases replies.len(),
{
    let start = PipelineOpeningSpec::start(dir, num_threads);
    if replies.len() > 0 {
        pipeline_opening_leaks_nothing(dir, num_threads, replies.drop_last());
        pipeline_opening_keeps_account(pipeline_after(start, replies.drop_last()), replies.last());
    }
}

/// What a device answers: which paths there are, and what loading gives. Each
/// load is asked for once, so the handle may be a new one every time.
pub struct Device {
    pub exists: spec_fn(Seq<char>) -> bool,
    pub load: spec_fn(LoadSpec) -> usize,
}

impl Device {
    /// The answer to a call.
    pub open spec fn answer(self, call: PipelineCallSpec) -> PipelineReply {
        match call {
            PipelineCallSpec::Exists { path } => PipelineReply {
                exists: (self.exists)(path),
                handle: 0,
                code: 0,
            },
            PipelineCallSpec::Load(load) => PipelineReply {
                exists: false,
                handle: (self.load)(load),
                code: 0,
            },
            PipelineCallSpec::FreeModel { handle } => PipelineReply {
                exists: false,
                handle: 0,
                code: 0,
            },
        }
    }

    /// The file of a model: the compiled one where it is there.
    pub open spec fn file(self, dir: Seq<char>, name: Seq<char>) -> Seq<char> {
        file_of(dir, name, (self.exists)(compiled_path(dir, name)))
    }

    /// A model of its own.
    pub open spec fn whole(self, dir: Seq<char>, name: Seq<char>, num_threads: i32) -> LoadSpec {
        LoadSpec { path: self.file(dir, name), function: None, num_threads }
    }

    /// A function of the merged decoder.
    pub open spec fn part(self, dir: Seq<char>, name: Seq<char>, num_threads: i32) -> LoadSpec {
        LoadSpec { path: self.file(dir, "decoder"@), function: Some(name), num_threads }
    }

    /// The models to load for `prefix_enc`, `prefill` and `step`.
    pub open spec fn loads(self, dir: Seq<char>, num_threads: i32) -> (LoadSpec, LoadSpec, LoadSpec) {
        let encoder = self.whole(dir, "prefix_enc"@, num_threads);
        if (self.exists)(self.file(dir, "decoder"@)) {
            (
                encoder,
                self.part(dir, "prefill"@, num_threads),
                self.part(dir, "step"@, num_threads),
            )
        } else {
            (
                encoder,
                self.whole(dir, "decoder_prefill"@, num_threads),
                self.whole(dir, "decoder_step"@, num_threads),
            )
        }
    }
}

/// An opening after `n` calls that a device answers.
pub open spec fn pipeline_on(device: Device, s: PipelineOpeningSpec, n: nat) -> PipelineOpeningSpec
    decreases n,
{
    match s.call() {
        Some(call) if n > 0 => pipeline_on(
            device,
            s.reply(device.answer(call)),
            (n - 1) as nat,
        ),
        _ => s,
    }
}

proof fn lemma_no_nul(dir: Seq<char>, name: Seq<char>, compiled: bool)
    requires
        !has_nul(dir),
        !has_nul(name),
    ensures
        !has_nul(file_of(dir, name, compiled)),
{
    reveal_strlit("/");
    reveal_strlit(".mlmodelc");
    reveal_strlit(".mlpackage");
    let path = file_of(dir, name, compiled);
    assert forall|i: int| 0 <= i < path.len() implies path[i] != '\0' by {
        if i < dir.len() {
            assert(path[i] == dir[i]);
        } else if i > dir.len() && i < dir.len() + 1 + name.len() {
            assert(path[i] == name[i - dir.len() - 1]);
        }
    }
}

proof fn lemma_encoder_comes_last(
    device: Device,
    dir: Seq<char>,
    num_threads: i32,
    prefill: CoreMlSpec,
    step: CoreMlSpec,
    n: nat,
)
    requires
        !has_nul(dir),
        (device.load)(device.whole(dir, "prefix_enc"@, num_threads)) != 0,
        n >= 2,
    ensures
        pipeline_on(
            device,
            PipelineOpeningSpec::Working {
                dir,
                num_threads,
                stage: PipelineStageSpec::FindEncoder { prefill, step },
            },
            n,
        ) == (PipelineOpeningSpec::Opened {
            pipeline: pipeline_of(
                CoreMlSpec::fresh((device.load)(device.whole(dir, "prefix_enc"@, num_threads))),
                prefill,
                step,
            ),
        }),
{
    reveal_strlit("prefix_enc");
    lemma_no_nul(dir, "prefix_enc"@, (device.exists)(compiled_path(dir, "prefix_enc"@)));
    let load = device.whole(dir, "prefix_enc"@, num_threads);
    let s0 = PipelineOpeningSpec::Working {
        dir,
        num_threads,
        stage: PipelineStageSpec::FindEncoder { prefill, step },
    };
    let s1 = PipelineOpeningSpec::Working {
        dir,
        num_threads,
        stage: PipelineStageSpec::LoadEncoder { load, prefill, step },
    };
    let s2 = PipelineOpeningSpec::Opened {
        pipeline: pipeline_of(CoreMlSpec::fresh((device.load)(load)), prefill, step),
    };
    assert(s0.reply(device.answer(s0.call().unwrap())) == s1);
    assert(s1.reply(device.answer(s1.call().unwrap())) == s2);
    assert(pipeline_on(device, s2, (n - 2) as nat) == s2);
    assert(pipeline_on(device, s1, (n - 1) as nat) == pipeline_on(device, s2, (n - 2) as nat));
}

proof fn lemma_merged_decoder(device: Device, dir: Seq<char>, num_threads: i32, n: nat)
    requires
        !has_nul(dir),
        (device.exists)(device.file(dir, "decoder"@)),
        (device.load)(device.part(dir, "prefill"@, num_threads)) != 0,
        (device.load)(device.part(dir, "step"@, num_threads)) != 0,
        n >= 3,
    ensures
        pipeline_on(
            device,
            PipelineOpeningSpec::Working {
                dir,
                num_threads,
                stage: PipelineStageSpec::CheckDecoder { path: device.file(dir, "decoder"@) },
            },
            n,
        ) == pipeline_on(
            device,
            PipelineOpeningSpec::Working {
                dir,
                num_threads,
                stage: PipelineStageSpec::FindEncoder {
                    prefill: CoreMlSpec::fresh(
                        (device.load)(device.part(dir, "prefill"@, num_threads)),
                    ),
                    step: CoreMlSpec::fresh((device.load)(device.part(dir, "step"@, num_threads))),
                },
            },
            (n - 3) as nat,
        ),
{
    reveal_strlit("decoder");
    reveal_strlit("prefill");
    reveal_strlit("step");
    assert(!has_nul("prefill"@));
    assert(!has_nul("step"@));
    let path = device.file(dir, "decoder"@);
    lemma_no_nul(dir, "decoder"@, (device.exists)(compiled_path(dir, "decoder"@)));
    let b = device.part(dir, "prefill"@, num_threads);
    let c = device.part(dir, "step"@, num_threads);
    let prefill = CoreMlSpec::fresh((device.load)(b));
    let at = |stage: PipelineStageSpec| PipelineOpeningSpec::Working { dir, num_threads, stage };
    let s0 = at(PipelineStageSpec::CheckDecoder { path });
    let s1 = at(PipelineStageSpec::LoadPrefill { load: b, merged: Some(path) });
    let s2 = at(PipelineStageSpec::LoadStep { load: c, prefill });
    let s3 = at(
        PipelineStageSpec::FindEncoder { prefill, step: CoreMlSpec::fresh((device.load)(c)) },
    );
    assert(s0.reply(device.answer(s0.call().unwrap())) == s1);
    assert(s1.reply(device.answer(s1.call().unwrap())) == s2);
    assert(s2.reply(device.answer(s2.call().unwrap())) == s3);
    assert(pipeline_on(device, s2, (n - 2) as nat) == pipeline_on(device, s3, (n - 3) as nat));
    assert(pipeline_on(device, s1, (n - 1) as nat) == pipeline_on(device, s2, (n - 2) as nat));
}

proof fn lemma_split_decoder(device: Device, dir: Seq<char>, num_threads: i32, n: nat)
    requires
        !has_nul(dir),
        !(device.exists)(device.file(dir, "decoder"@)),
        (device.load)(device.whole(dir, "decoder_prefill"@, num_threads)) != 0,
        (device.load)(device.whole(dir, "decoder_step"@, num_threads)) != 0,
        n >= 5,
    ensures
        pipeline_on(
            device,
            PipelineOpeningSpec::Working {
                dir,
                num_threads,
                stage: PipelineStageSpec::CheckDecoder { path: device.file(dir, "decoder"@) },
            },
            n,
        ) == pipeline_on(
            device,
            PipelineOpeningSpec::Working {
                dir,
                num_threads,
                stage: PipelineStageSpec::FindEncoder {
                    prefill: CoreMlSpec::fresh(
                        (device.load)(device.whole(dir, "decoder_prefill"@, num_threads)),
                    ),
                    step: CoreMlSpec::fresh(
                        (device.load)(device.whole(dir, "decoder_step"@, num_threads)),
                    ),
                },
            },
            (n - 5) as nat,
        ),
{
    reveal_strlit("decoder_prefill");
    reveal_strlit("decoder_step");
    lemma_no_nul(dir, "decoder_prefill"@, (device.exists)(compiled_path(dir, "decoder_prefill"@)));
    lemma_no_nul(dir, "decoder_step"@, (device.exists)(compiled_path(dir, "decoder_step"@)));
    let b = device.whole(dir, "decoder_prefill"@, num_threads);
    let c = device.whole(dir, "decoder_step"@, num_threads);
    let prefill = CoreMlSpec::fresh((device.load)(b));
    let at = |stage: PipelineStageSpec| PipelineOpeningSpec::Working { dir, num_threads, stage };
    let s0 = at(PipelineStageSpec::CheckDecoder { path: device.file(dir, "decoder"@) });
    let s1 = at(PipelineStageSpec::FindPrefill);
    let s2 = at(PipelineStageSpec::LoadPrefill { load: b, merged: None });
    let s3 = at(PipelineStageSpec::FindStep { prefill });
    let s4 = at(PipelineStageSpec::LoadStep { load: c, prefill });
    let s5 = at(
        PipelineStageSpec::FindEncoder { prefill, step: CoreMlSpec::fresh((device.load)(c)) },
    );
    assert(s0.reply(device.answer(s0.call().unwrap())) == s1);
    assert(s1.reply(device.answer(s1.call().unwrap())) == s2);
    assert(s2.reply(device.answer(s2.call().unwrap())) == s3);
    assert(s3.reply(device.answer(s3.call().unwrap())) == s4);
    assert(s4.reply(device.answer(s4.call().unwrap())) == s5);
    assert(pipeline_on(device, s4, (n - 4) as nat) == pipeline_on(device, s5, (n - 5) as nat));
    assert(pipeline_on(device, s3, (n - 3) as nat) == pipeline_on(device, s4, (n - 4) as nat));
    assert(pipeline_on(device, s2, (n - 2) as nat) == pipeline_on(device, s3, (n - 3) as nat));
    assert(pipeline_on(device, s1, (n - 1) as nat) == pipeline_on(device, s2, (n - 2) as nat));
}

/// A device that has the models opens the pipeline: a merged decoder serves both
/// `prefill` and `step`, a compiled model is taken where it is there, and each
/// engine knows the names of its inputs in the order in which callers give them.
pub proof fn pipeline_opens(device: Device, dir: Seq<char>, num_threads: i32)
    requires
        !has_nul(dir),
        ({
            let (a, b, c) = device.loads(dir, num_threads);
            (device.load)(a) != 0 && (device.load)(b) != 0 && (device.load)(c) != 0
        }),
    ensures
        ({
            let (a, b, c) = device.loads(dir, num_threads);
            pipeline_on(device, PipelineOpeningSpec::start(dir, num_threads), 8) == (
            PipelineOpeningSpec::Opened {
                pipeline: pipeline_of(
                    CoreMlSpec::fresh((device.load)(a)),
                    CoreMlSpec::fresh((device.load)(b)),
                    CoreMlSpec::fresh((device.load)(c)),
                ),
            })
        }),
{
    let s0 = PipelineOpeningSpec::start(dir, num_threads);
    let path = device.file(dir, "decoder"@);
    let s1 = PipelineOpeningSpec::Working {
        dir,
        num_threads,
        stage: PipelineStageSpec::CheckDecoder { path },
    };
    let (a, b, c) = device.loads(dir, num_threads);
    let prefill = CoreMlSpec::fresh((device.load)(b));
    let step = CoreMlSpec::fresh((device.load)(c));
    assert(s0.reply(device.answer(s0.call().unwrap())) == s1);
    assert(pipeline_on(device, s0, 8) == pipeline_on(device, s1, 7));
    if (device.exists)(path) {
        lemma_merged_decoder(device, dir, num_threads, 7);
        lemma_encoder_comes_last(device, dir, num_threads, prefill, step, 4);
    } else {
        lemma_split_decoder(device, dir, num_threads, 7);
        lemma_encoder_comes_last(device, dir, num_threads, prefill, step, 2);
    }
}

/// Each method has its own engine, and a change to one leaves the others.
pub proof fn engines_are_kept_apart(
    p: PipelineSpec,
    method: Method,
    engine: CoreMlSpec,
    other: Method,
)
    ensures
        p.engine(Method::PrefixEnc) == p.prefix_enc,
        p.engine(Method::Prefill) == p.prefill,
        p.engine(Method::Step) == p.step,
        p.with_engine(method, engine).engine(method) == engine,
        other != method ==> p.with_engine(method, engine).engine(other) == p.engine(other),
{
}

/// The files of a pipeline. A compiled model is taken where it is there, and a
/// package where not. Where the decoder so found is there, `prefill` and `step`
/// are functions of it; where not, they are models of their own. Each engine has
/// the model that was loaded for it, with all the threads asked for, and the
/// names of its inputs in the order in which callers give them.
///
/// `files` are those found for `prefix_enc`, `decoder`, `decoder_prefill` and
/// `decoder_step`.
pub proof fn pipeline_opens_from_its_files(
    device: Device,
    dir: Seq<char>,
    num_threads: i32,
    names: Seq<Seq<char>>,
    files: Seq<Seq<char>>,
    encoder: LoadSpec,
    prefill: LoadSpec,
    step: LoadSpec,
)
    requires
        !dir.contains('\0'),
        names == seq!["prefix_enc"@, "decoder"@, "decoder_prefill"@, "decoder_step"@],
        files.len() == 4,
        forall|i: int|
            0 <= i < 4 ==> #[trigger] files[i] == (if (device.exists)(
                dir + "/"@ + names[i] + ".mlmodelc"@,
            ) {
                dir + "/"@ + names[i] + ".mlmodelc"@
            } else {
                dir + "/"@ + names[i] + ".mlpackage"@
            }),
        encoder == (LoadSpec { path: files[0], function: None, num_threads }),
        (device.exists)(files[1]) ==> prefill == (LoadSpec {
            path: files[1],
            function: Some("prefill"@),
            num_threads,
        }) && step == (LoadSpec { path: files[1], function: Some("step"@), num_threads }),
        !(device.exists)(files[1]) ==> prefill == (LoadSpec {
            path: files[2],
            function: None,
            num_threads,
        }) && step == (LoadSpec { path: files[3], function: None, num_threads }),
        (device.load)(encoder) != 0,
        (device.load)(prefill) != 0,
        (device.load)(step) != 0,
    ensures
        pipeline_on(device, PipelineOpeningSpec::start(dir, num_threads), 8) matches
            PipelineOpeningSpec::Opened { pipeline } && {
            &&& pipeline.prefix_enc.handle == (device.load)(encoder)
            &&& pipeline.prefix_enc.input_names == seq!["img"@, "stroke"@, "stroke_real_len"@]
            &&& pipeline.prefill.handle == (device.load)(prefill)
            &&& pipeline.prefill.input_names == seq!["prefix"@]
            &&& pipeline.step.handle == (device.load)(step)
            &&& pipeline.step.input_names == seq!["token_id"@, "pos"@, "past_kv"@]
            &&& pipeline.prefix_enc.last_shapes.len() == 0 && pipeline.prefill.last_shapes.len()
                == 0 && pipeline.step.last_shapes.len() == 0
        },
{
    assert(files[0] == device.file(dir, "prefix_enc"@));
    assert(files[1] == device.file(dir, "decoder"@));
    assert(files[2] == device.file(dir, "decoder_prefill"@));
    assert(files[3] == device.file(dir, "decoder_step"@));
    assert(device.loads(dir, num_threads) == (encoder, prefill, step));
    pipeline_opens(device, dir, num_threads);
}

/// A model that does not load fails the opening: the error says its code and its
/// path. What was loaded before it is freed, the last first, and then the opening
/// has failed.
pub proof fn a_model_that_does_not_load(
    dir: Seq<char>,
    num_threads: i32,
    load: LoadSpec,
    merged: Option<Seq<char>>,
    prefill: CoreMlSpec,
    step: CoreMlSpec,
    r: PipelineReply,
    s: PipelineReply,
)
    requires
        r.handle == 0,
    ensures
        ({
            let at = |stage: PipelineStageSpec|
                PipelineOpeningSpec::Working { dir, num_threads, stage };
            let error = ErrorSpec::Load(
                "Core ML 加载失败 (code="@ + integer(r.code as int) + "): "@ + load.path,
            );
            let failed = PipelineOpeningSpec::Failed { error };
            let first = at(PipelineStageSpec::LoadPrefill { load, merged });
            let second = at(PipelineStageSpec::LoadStep { load, prefill });
            let third = at(PipelineStageSpec::LoadEncoder { load, prefill, step });
            &&& first.reply(r) == failed
            &&& second.reply(r).call() == Some(
                PipelineCallSpec::FreeModel { handle: prefill.handle },
            )
            &&& second.reply(r).reply(s) == failed
            &&& third.reply(r).call() == Some(PipelineCallSpec::FreeModel { handle: step.handle })
            &&& third.reply(r).reply(s).call() == Some(
                PipelineCallSpec::FreeModel { handle: prefill.handle },
            )
            &&& third.reply(r).reply(s).reply(s) == failed
        }),
{
}

} // verus!
