//! Opening an engine: from the bytes of one model, or from the files of
//! recognition.

use super::{join_calls, EngineSpec, LiteRtCompiledEngine};
use crate::backends::litert_sys::model::{
    key_names_first_signature, CompiledModel, ModelSpec,
};
use crate::backends::litert_sys::native::{Call, Reply, ReplySpec};
use crate::backends::litert_sys::opening::{Opening, OpeningSpec};
use crate::methods::PerMethod;
use crate::text::{
    debug_list, debug_strings, is_path_to, is_plain, is_verbatim, join_path,
};
use crate::{EngineConfig, EngineError, ErrorSpec, Prefer};
use vstd::prelude::*;

verus! {

/// The next thing to do for an opening.
pub enum EngineCall {
    /// Read a whole file.
    ReadFile { path: String },
    /// Call the runtime.
    Native(Call),
}

/// What an [`EngineCall`] says.
pub enum EngineCallSpec {
    ReadFile { path: Seq<char> },
    Native(Call),
}

impl View for EngineCall {
    type V = EngineCallSpec;

    open spec fn view(&self) -> EngineCallSpec {
        match *self {
            EngineCall::ReadFile { path } => EngineCallSpec::ReadFile { path: path@ },
            EngineCall::Native(call) => EngineCallSpec::Native(call),
        }
    }
}

/// What came of it.
pub enum EngineReply {
    /// The file's bytes, or why it could not be read.
    File(std::result::Result<Vec<u8>, String>),
    /// The runtime's reply.
    Native(Reply),
}

/// What an [`EngineReply`] says.
pub enum EngineReplySpec {
    File(std::result::Result<Seq<u8>, Seq<char>>),
    Native(ReplySpec),
}

impl View for EngineReply {
    type V = EngineReplySpec;

    open spec fn view(&self) -> EngineReplySpec {
        match *self {
            EngineReply::File(Ok(bytes)) => EngineReplySpec::File(Ok(bytes@)),
            EngineReply::File(Err(e)) => EngineReplySpec::File(Err(e@)),
            EngineReply::Native(reply) => EngineReplySpec::Native(reply@),
        }
    }
}

/// Opens an engine, one call at a time.
pub enum EngineOpening {
    /// A model whose bytes are at hand.
    Single { opening: Opening },
    /// The encoder's file is to be read.
    ReadEncoder { paths: ModelPaths, num_threads: i32 },
    OpenEncoder { paths: ModelPaths, num_threads: i32, opening: Opening },
    /// The decoder's file is to be read.
    ReadDecoder { paths: ModelPaths, num_threads: i32, encoder: CompiledModel },
    OpenDecoder { paths: ModelPaths, encoder: CompiledModel, opening: Opening },
    /// After a failure, models that are open already are given back.
    Release { calls: Vec<Call>, next: usize, error: EngineError },
    Opened { engine: LiteRtCompiledEngine },
    Failed { error: EngineError },
}

/// What an [`EngineOpening`] holds.
pub enum EngineOpeningSpec {
    Single { opening: OpeningSpec },
    ReadEncoder { paths: PathsSpec, num_threads: i32 },
    OpenEncoder { paths: PathsSpec, num_threads: i32, opening: OpeningSpec },
    ReadDecoder { paths: PathsSpec, num_threads: i32, encoder: ModelSpec },
    OpenDecoder { paths: PathsSpec, encoder: ModelSpec, opening: OpeningSpec },
    Release { calls: Seq<Call>, next: nat, error: ErrorSpec },
    Opened { engine: EngineSpec },
    Failed { error: ErrorSpec },
}

impl View for EngineOpening {
    type V = EngineOpeningSpec;

    open spec fn view(&self) -> EngineOpeningSpec {
        match *self {
            EngineOpening::Single { opening } => EngineOpeningSpec::Single { opening: opening@ },
            EngineOpening::ReadEncoder { paths, num_threads } => EngineOpeningSpec::ReadEncoder {
                paths: paths@,
                num_threads,
            },
            EngineOpening::OpenEncoder { paths, num_threads, opening } => {
                EngineOpeningSpec::OpenEncoder { paths: paths@, num_threads, opening: opening@ }
            },
            EngineOpening::ReadDecoder { paths, num_threads, encoder } => {
                EngineOpeningSpec::ReadDecoder { paths: paths@, num_threads, encoder: encoder@ }
            },
            EngineOpening::OpenDecoder { paths, encoder, opening } => {
                EngineOpeningSpec::OpenDecoder {
                    paths: paths@,
                    encoder: encoder@,
                    opening: opening@,
                }
            },
            EngineOpening::Release { calls, next, error } => EngineOpeningSpec::Release {
                calls: calls@,
                next: next as nat,
                error: error@,
            },
            EngineOpening::Opened { engine } => EngineOpeningSpec::Opened { engine: engine@ },
            EngineOpening::Failed { error } => EngineOpeningSpec::Failed { error: error@ },
        }
    }
}

/// The files of recognition, as paths.
pub struct ModelPaths {
    pub encoder: String,
    pub decoder: String,
}

/// What a [`ModelPaths`] holds.
pub struct PathsSpec {
    pub encoder: Seq<char>,
    pub decoder: Seq<char>,
}

impl View for ModelPaths {
    type V = PathsSpec;

    open spec fn view(&self) -> PathsSpec {
        PathsSpec { encoder: self.encoder@, decoder: self.decoder@ }
    }
}

impl PathsSpec {
    /// The paths are those of the two files in a directory. A verbatim directory
    /// may be normalised on the way.
    pub open spec fn lie_in(self, dir: Seq<char>) -> bool {
        is_verbatim(dir) || {
            &&& is_path_to(self.encoder, dir, "prefix_enc.tflite"@)
            &&& is_path_to(self.decoder, dir, "decoder.tflite"@)
        }
    }
}

/// A file could not be read.
pub open spec fn file_error(path: Seq<char>, e: Seq<char>) -> ErrorSpec {
    ErrorSpec::Load(path + ": "@ + e)
}

/// The decoder lacks a signature. `keys` is a text that lists the ones it has.
pub open spec fn lacks_signature(path: Seq<char>, key: Seq<char>, keys: Seq<char>) -> ErrorSpec {
    ErrorSpec::Load(path + " 里没有签名 "@ + key + "（有的是 "@ + keys + "）"@)
}

/// The decoder lacks a signature.
pub open spec fn missing_signature(
    path: Seq<char>,
    key: Seq<char>,
    decoder: ModelSpec,
) -> ErrorSpec {
    lacks_signature(path, key, debug_strings(decoder.keys()))
}

/// The engine of one model with a single method.
pub open spec fn single_engine(model: ModelSpec) -> EngineSpec {
    EngineSpec {
        models: seq![model],
        routes: PerMethod { prefix_enc: Some((0usize, 0usize)), prefill: None, step: None },
        feedback: PerMethod { prefix_enc: seq![], prefill: seq![], step: seq![] },
        pipes: seq![],
        ran: PerMethod { prefix_enc: false, prefill: false, step: false },
        on_gpu: model.on_gpu,
    }
}

/// The engine of an encoder and a decoder. It is on the GPU where either is.
pub open spec fn pair_engine(
    encoder: ModelSpec,
    decoder: ModelSpec,
    prefill: usize,
    step: usize,
) -> EngineSpec {
    EngineSpec {
        models: seq![encoder, decoder],
        routes: PerMethod {
            prefix_enc: Some((0usize, 0usize)),
            prefill: Some((1usize, prefill)),
            step: Some((1usize, step)),
        },
        feedback: PerMethod { prefix_enc: seq![], prefill: seq![], step: seq![] },
        pipes: seq![],
        ran: PerMethod { prefix_enc: false, prefill: false, step: false },
        on_gpu: encoder.on_gpu || decoder.on_gpu,
    }
}

impl EngineOpeningSpec {
    /// Opening a model whose bytes are at hand.
    pub open spec fn of_bytes(bytes: Seq<u8>, prefer: Prefer, num_threads: i32) -> EngineOpeningSpec {
        EngineOpeningSpec::Single {
            opening: OpeningSpec::start(bytes, prefer == Prefer::LiteRtGpu, num_threads),
        }
    }

    /// Opening the models of recognition.
    pub open spec fn of_files(paths: PathsSpec, num_threads: i32) -> EngineOpeningSpec {
        EngineOpeningSpec::ReadEncoder { paths, num_threads }
    }

    /// The parts are well-formed, and a model that is being opened is not open.
    pub open spec fn well_formed(self) -> bool {
        match self {
            EngineOpeningSpec::Single { opening } => opening.well_formed() && opening is Working,
            EngineOpeningSpec::OpenEncoder { paths, num_threads, opening } => opening.well_formed()
                && opening is Working,
            EngineOpeningSpec::OpenDecoder { paths, encoder, opening } => opening.well_formed()
                && opening is Working,
            EngineOpeningSpec::Release { calls, next, error } => next < calls.len(),
            EngineOpeningSpec::Opened { engine } => engine.well_formed(),
            _ => true,
        }
    }

    /// What comes next; nothing when opening has ended.
    pub open spec fn call(self) -> Option<EngineCallSpec> {
        match self {
            EngineOpeningSpec::Single { opening } => Some(
                EngineCallSpec::Native(opening.call().unwrap()),
            ),
            EngineOpeningSpec::ReadEncoder { paths, num_threads } => Some(
                EngineCallSpec::ReadFile { path: paths.encoder },
            ),
            EngineOpeningSpec::OpenEncoder { paths, num_threads, opening } => Some(
                EngineCallSpec::Native(opening.call().unwrap()),
            ),
            EngineOpeningSpec::ReadDecoder { paths, num_threads, encoder } => Some(
                EngineCallSpec::ReadFile { path: paths.decoder },
            ),
            EngineOpeningSpec::OpenDecoder { paths, encoder, opening } => Some(
                EngineCallSpec::Native(opening.call().unwrap()),
            ),
            EngineOpeningSpec::Release { calls, next, error } => Some(
                EngineCallSpec::Native(calls[next as int]),
            ),
            _ => None,
        }
    }

    /// A reply is to what comes next.
    pub open spec fn takes(self, r: EngineReplySpec) -> bool {
        match self.call() {
            Some(EngineCallSpec::ReadFile { path }) => r is File,
            Some(EngineCallSpec::Native(call)) => r is Native,
            None => true,
        }
    }

    /// Gives back what is open and fails. Nothing is open where there are no
    /// calls.
    pub open spec fn give_up(calls: Seq<Call>, error: ErrorSpec) -> EngineOpeningSpec {
        EngineOpeningSpec::Release { calls, next: 0, error }
    }

    /// With the decoder open, its two signatures are looked up. Where one is
    /// missing, the decoder is given back, and then the encoder.
    pub open spec fn with_decoder(
        paths: PathsSpec,
        encoder: ModelSpec,
        decoder: ModelSpec,
    ) -> EngineOpeningSpec {
        let all = decoder.release_calls() + encoder.release_calls();
        match decoder.signature_named(Some("prefill"@)) {
            None => EngineOpeningSpec::give_up(
                all,
                missing_signature(paths.decoder, "prefill"@, decoder),
            ),
            Some(prefill) => match decoder.signature_named(Some("decode"@)) {
                None => EngineOpeningSpec::give_up(
                    all,
                    missing_signature(paths.decoder, "decode"@, decoder),
                ),
                Some(step) => EngineOpeningSpec::Opened {
                    engine: pair_engine(encoder, decoder, prefill, step),
                },
            },
        }
    }

    /// Where opening stands after the runtime's reply.
    pub open spec fn native_step(self, r: ReplySpec) -> EngineOpeningSpec {
        match self {
            EngineOpeningSpec::Single { opening } => match opening.step(r) {
                OpeningSpec::Opened { model } => EngineOpeningSpec::Opened {
                    engine: single_engine(model),
                },
                OpeningSpec::Failed { error } => EngineOpeningSpec::Failed {
                    error: ErrorSpec::Load(error),
                },
                next => EngineOpeningSpec::Single { opening: next },
            },
            EngineOpeningSpec::OpenEncoder { paths, num_threads, opening } => match opening.step(r) {
                OpeningSpec::Opened { model } => EngineOpeningSpec::ReadDecoder {
                    paths,
                    num_threads,
                    encoder: model,
                },
                OpeningSpec::Failed { error } => EngineOpeningSpec::Failed {
                    error: ErrorSpec::Load(error),
                },
                next => EngineOpeningSpec::OpenEncoder { paths, num_threads, opening: next },
            },
            EngineOpeningSpec::OpenDecoder { paths, encoder, opening } => match opening.step(r) {
                OpeningSpec::Opened { model } => EngineOpeningSpec::with_decoder(
                    paths,
                    encoder,
                    model,
                ),
                OpeningSpec::Failed { error } => EngineOpeningSpec::give_up(
                    encoder.release_calls(),
                    ErrorSpec::Load(error),
                ),
                next => EngineOpeningSpec::OpenDecoder { paths, encoder, opening: next },
            },
            EngineOpeningSpec::Release { calls, next, error } => if next + 1 < calls.len() {
                EngineOpeningSpec::Release { calls, next: next + 1, error }
            } else {
                EngineOpeningSpec::Failed { error }
            },
            _ => self,
        }
    }

    /// Where opening stands after a file has been read. Both models are asked to
    /// be on the GPU.
    pub open spec fn file_step(self, r: std::result::Result<Seq<u8>, Seq<char>>) -> EngineOpeningSpec {
        match self {
            EngineOpeningSpec::ReadEncoder { paths, num_threads } => match r {
                Ok(bytes) => EngineOpeningSpec::OpenEncoder {
                    paths,
                    num_threads,
                    opening: OpeningSpec::start(bytes, true, num_threads),
                },
                Err(e) => EngineOpeningSpec::Failed { error: file_error(paths.encoder, e) },
            },
            EngineOpeningSpec::ReadDecoder { paths, num_threads, encoder } => match r {
                Ok(bytes) => EngineOpeningSpec::OpenDecoder {
                    paths,
                    encoder,
                    opening: OpeningSpec::start(bytes, true, num_threads),
                },
                Err(e) => EngineOpeningSpec::give_up(
                    encoder.release_calls(),
                    file_error(paths.decoder, e),
                ),
            },
            _ => self,
        }
    }

    /// Where opening stands after a reply.
    pub open spec fn step(self, r: EngineReplySpec) -> EngineOpeningSpec {
        match r {
            EngineReplySpec::File(f) => self.file_step(f),
            EngineReplySpec::Native(n) => self.native_step(n),
        }
    }
}

fn read_error(path: String, e: String) -> (r: EngineError)
    ensures
        r@ == file_error(path@, e@),
{
    let mut m = path;
    m.append(": ");
    m.append(e.as_str());
    EngineError::Load(m)
}

/// The error for a decoder that lacks a signature, with a text that lists the
/// ones it has.
pub fn lacks_signature_error(path: &str, key: &str, keys: &str) -> (r: EngineError)
    ensures
        r@ == lacks_signature(path@, key@, keys@),
{
    let mut m = String::from_str(path);
    m.append(" 里没有签名 ");
    m.append(key);
    m.append("（有的是 ");
    m.append(keys);
    m.append("）");
    EngineError::Load(m)
}

fn no_signature(path: &str, key: &str, decoder: &CompiledModel) -> (r: EngineError)
    ensures
        r@ == missing_signature(path@, key@, decoder@),
{
    let keys = debug_list(&decoder.signature_keys());
    lacks_signature_error(path, key, keys.as_str())
}

proof fn lemma_plain_names()
    ensures
        is_plain("prefix_enc.tflite"@),
        is_plain("decoder.tflite"@),
{
    reveal_strlit("prefix_enc.tflite");
    reveal_strlit("decoder.tflite");
}

impl LiteRtCompiledEngine {
    /// Starts opening a model with a single method, on the GPU where that is
    /// preferred. Its method is [`Method::PrefixEnc`](crate::Method::PrefixEnc).
    pub fn open_bytes(bytes: &[u8], cfg: &EngineConfig) -> (r: EngineOpening)
        ensures
            r@ == EngineOpeningSpec::of_bytes(bytes@, cfg.prefer, cfg.num_threads),
            r@.well_formed(),
    {
        let want_gpu = cfg.prefer == Prefer::LiteRtGpu;
        EngineOpening::Single { opening: CompiledModel::new(bytes, want_gpu, cfg.num_threads) }
    }

    /// Starts opening the models of recognition in a directory. Both are asked
    /// to be on the GPU; the CPU takes what the GPU does not.
    pub fn open(cfg: &EngineConfig) -> (r: EngineOpening)
        ensures
            r@ matches EngineOpeningSpec::ReadEncoder { paths, num_threads } && paths.lie_in(
                cfg.model_dir@,
            ) && num_threads == cfg.num_threads,
            r@.well_formed(),
    {
        let dir = cfg.model_dir.as_str();
        proof {
            lemma_plain_names();
        }
        let encoder = join_path(dir, "prefix_enc.tflite");
        let decoder = join_path(dir, "decoder.tflite");
        Self::open_files(ModelPaths { encoder, decoder }, cfg.num_threads)
    }

    /// Starts opening the models of recognition from their two files.
    pub fn open_files(paths: ModelPaths, num_threads: i32) -> (r: EngineOpening)
        ensures
            r@ == EngineOpeningSpec::of_files(paths@, num_threads),
            r@.well_formed(),
    {
        EngineOpening::ReadEncoder { paths, num_threads }
    }

    fn single(model: CompiledModel) -> (r: Self)
        ensures
            r@ == single_engine(model@),
            r@.well_formed(),
    {
        let on_gpu = model.on_gpu;
        let mut models: Vec<CompiledModel> = Vec::new();
        models.push(model);
        let r = LiteRtCompiledEngine {
            models,
            routes: PerMethod { prefix_enc: Some((0usize, 0usize)), prefill: None, step: None },
            feedback: PerMethod { prefix_enc: Vec::new(), prefill: Vec::new(), step: Vec::new() },
            pipes: Vec::new(),
            ran: PerMethod { prefix_enc: false, prefill: false, step: false },
            on_gpu,
        };
        assert(r@.models =~= seq![model@]);
        r
    }

    fn pair(encoder: CompiledModel, decoder: CompiledModel, prefill: usize, step: usize) -> (r: Self)
        ensures
            r@ == pair_engine(encoder@, decoder@, prefill, step),
            r@.well_formed(),
    {
        let on_gpu = encoder.on_gpu || decoder.on_gpu;
        let mut models: Vec<CompiledModel> = Vec::new();
        models.push(encoder);
        models.push(decoder);
        let r = LiteRtCompiledEngine {
            models,
            routes: PerMethod {
                prefix_enc: Some((0usize, 0usize)),
                prefill: Some((1usize, prefill)),
                step: Some((1usize, step)),
            },
            feedback: PerMethod { prefix_enc: Vec::new(), prefill: Vec::new(), step: Vec::new() },
            pipes: Vec::new(),
            ran: PerMethod { prefix_enc: false, prefill: false, step: false },
            on_gpu,
        };
        assert(r@.models =~= seq![encoder@, decoder@]);
        r
    }
}

impl EngineOpening {
    /// What comes next; nothing when opening has ended.
    pub fn call(&self) -> (r: Option<EngineCall>)
        requires
            self@.well_formed(),
        ensures
            match (self@.call(), r) {
                (Some(want), Some(call)) => call@ == want,
                (None, None) => true,
                _ => false,
            },
    {
        match self {
            EngineOpening::Single { opening } => native(opening),
            EngineOpening::ReadEncoder { paths, num_threads } => Some(
                EngineCall::ReadFile { path: String::from_str(paths.encoder.as_str()) },
            ),
            EngineOpening::OpenEncoder { paths, num_threads, opening } => native(opening),
            EngineOpening::ReadDecoder { paths, num_threads, encoder } => Some(
                EngineCall::ReadFile { path: String::from_str(paths.decoder.as_str()) },
            ),
            EngineOpening::OpenDecoder { paths, encoder, opening } => native(opening),
            EngineOpening::Release { calls, next, error } => Some(EngineCall::Native(calls[*next])),
            EngineOpening::Opened { engine } => None,
            EngineOpening::Failed { error } => None,
        }
    }

    /// The bytes of the model that is being opened.
    pub fn model_bytes(&self) -> (r: Option<&[u8]>)
        requires
            self@.well_formed(),
        ensures
            match (self@.current(), r) {
                (Some(opening), Some(b)) => opening matches OpeningSpec::Working { request, stage }
                    && b@ == request.bytes,
                (None, None) => true,
                _ => false,
            },
    {
        match self {
            EngineOpening::Single { opening } => opening.model_bytes(),
            EngineOpening::OpenEncoder { paths, num_threads, opening } => opening.model_bytes(),
            EngineOpening::OpenDecoder { paths, encoder, opening } => opening.model_bytes(),
            _ => None,
        }
    }

    fn with_decoder(paths: ModelPaths, encoder: CompiledModel, decoder: CompiledModel) -> (r:
        EngineOpening)
        ensures
            r@ == EngineOpeningSpec::with_decoder(paths@, encoder@, decoder@),
            r@.well_formed(),
    {
        match decoder.signature_index(Some("prefill")) {
            None => EngineOpening::Release {
                calls: join_calls(decoder.release(), encoder.release()),
                next: 0,
                error: no_signature(paths.decoder.as_str(), "prefill", &decoder),
            },
            Some(prefill) => match decoder.signature_index(Some("decode")) {
                None => EngineOpening::Release {
                    calls: join_calls(decoder.release(), encoder.release()),
                    next: 0,
                    error: no_signature(paths.decoder.as_str(), "decode", &decoder),
                },
                Some(step) => EngineOpening::Opened {
                    engine: LiteRtCompiledEngine::pair(encoder, decoder, prefill, step),
                },
            },
        }
    }

    fn native_reply(self, reply: Reply) -> (r: EngineOpening)
        requires
            self@.well_formed(),
        ensures
            r@ == self@.native_step(reply@),
            r@.well_formed(),
    {
        match self {
            EngineOpening::Single { opening } => match opening.advance(reply) {
                Opening::Opened { model } => EngineOpening::Opened {
                    engine: LiteRtCompiledEngine::single(model),
                },
                Opening::Failed { error } => EngineOpening::Failed {
                    error: EngineError::Load(error),
                },
                next => EngineOpening::Single { opening: next },
            },
            EngineOpening::OpenEncoder { paths, num_threads, opening } => match opening.advance(
                reply,
            ) {
                Opening::Opened { model } => EngineOpening::ReadDecoder {
                    paths,
                    num_threads,
                    encoder: model,
                },
                Opening::Failed { error } => EngineOpening::Failed {
                    error: EngineError::Load(error),
                },
                next => EngineOpening::OpenEncoder { paths, num_threads, opening: next },
            },
            EngineOpening::OpenDecoder { paths, encoder, opening } => match opening.advance(reply) {
                Opening::Opened { model } => Self::with_decoder(paths, encoder, model),
                Opening::Failed { error } => EngineOpening::Release {
                    calls: encoder.release(),
                    next: 0,
                    error: EngineError::Load(error),
                },
                next => EngineOpening::OpenDecoder { paths, encoder, opening: next },
            },
            EngineOpening::Release { calls, next, error } => if next < calls.len() - 1 {
                EngineOpening::Release { calls, next: next + 1, error }
            } else {
                EngineOpening::Failed { error }
            },
            other => other,
        }
    }

    fn file_reply(self, file: std::result::Result<Vec<u8>, String>) -> (r: EngineOpening)
        requires
            self@.well_formed(),
        ensures
            r@ == self@.file_step(
                match file {
                    Ok(bytes) => Ok(bytes@),
                    Err(e) => Err(e@),
                },
            ),
            r@.well_formed(),
    {
        match self {
            EngineOpening::ReadEncoder { paths, num_threads } => match file {
                Ok(bytes) => EngineOpening::OpenEncoder {
                    paths,
                    num_threads,
                    opening: CompiledModel::from_owned(bytes, true, num_threads),
                },
                Err(e) => EngineOpening::Failed {
                    error: read_error(paths.encoder, e),
                },
            },
            EngineOpening::ReadDecoder { paths, num_threads, encoder } => match file {
                Ok(bytes) => EngineOpening::OpenDecoder {
                    paths,
                    encoder,
                    opening: CompiledModel::from_owned(bytes, true, num_threads),
                },
                Err(e) => EngineOpening::Release {
                    calls: encoder.release(),
                    next: 0,
                    error: read_error(paths.decoder, e),
                },
            },
            other => other,
        }
    }

    /// Takes the reply to what came next.
    pub fn advance(self, reply: EngineReply) -> (r: EngineOpening)
        requires
            self@.well_formed(),
            self@.takes(reply@),
        ensures
            r@ == self@.step(reply@),
            r@.well_formed(),
    {
        match reply {
            EngineReply::File(file) => self.file_reply(file),
            EngineReply::Native(reply) => self.native_reply(reply),
        }
    }
}

fn native(opening: &Opening) -> (r: Option<EngineCall>)
    requires
        opening@.well_formed(),
        opening@ is Working,
    ensures
        r matches Some(call) && call@ == EngineCallSpec::Native(opening@.call().unwrap()),
{
    match opening.call() {
        Some(call) => Some(EngineCall::Native(call)),
        None => None,
    }
}

impl EngineOpeningSpec {
    /// The model that is being opened.
    pub open spec fn current(self) -> Option<OpeningSpec> {
        match self {
            EngineOpeningSpec::Single { opening } => Some(opening),
            EngineOpeningSpec::OpenEncoder { paths, num_threads, opening } => Some(opening),
            EngineOpeningSpec::OpenDecoder { paths, encoder, opening } => Some(opening),
            _ => None,
        }
    }
}

/// Where recognition opens, `prefill` and `step` run the signatures of the
/// decoder that are named for them, or its only one.
pub proof fn routes_lead_to_named_signatures(paths: PathsSpec, encoder: ModelSpec, decoder: ModelSpec)
    requires
        decoder.signatures.len() <= usize::MAX,
    ensures
        EngineOpeningSpec::with_decoder(paths, encoder, decoder) matches EngineOpeningSpec::Opened {
            engine,
        } ==> {
            &&& engine.routes.prefix_enc == Some((0usize, 0usize))
            &&& engine.routes.prefill matches Some((m, i)) && m == 1 && i
                < decoder.signatures.len() && (decoder.signatures.len() == 1
                || decoder.signatures[i as int].key == "prefill"@)
            &&& engine.routes.step matches Some((m, i)) && m == 1 && i < decoder.signatures.len()
                && (decoder.signatures.len() == 1 || decoder.signatures[i as int].key
                == "decode"@)
        },
{
    key_names_first_signature(decoder, "prefill"@, 0);
    key_names_first_signature(decoder, "decode"@, 0);
}

/// An engine of one model has that model, runs its first signature as
/// [`Method::PrefixEnc`](crate::Method::PrefixEnc) and has no other method. It is
/// without links, has run nothing, and is on the GPU where the model is.
pub proof fn one_model_serves_one_method(model: ModelSpec)
    ensures
        ({
            let e = single_engine(model);
            &&& e.models.len() == 1 && e.models[0] == model && e.on_gpu == model.on_gpu
            &&& e.routes.prefix_enc == Some((0usize, 0usize))
            &&& e.routes.prefill is None && e.routes.step is None
            &&& e.feedback.prefix_enc.len() == 0 && e.feedback.prefill.len() == 0
                && e.feedback.step.len() == 0 && e.pipes.len() == 0
            &&& !e.ran.prefix_enc && !e.ran.prefill && !e.ran.step
        }),
{
}

/// Where the decoder has the signatures `prefill` and `decode`, the engine opens:
/// `prefix_enc` is the encoder's first signature, `prefill` the decoder's first of
/// that key and `step` its first with the key `decode`. It is without links, has
/// run nothing, and is on the GPU where either model is.
pub proof fn two_models_serve_three_methods(
    paths: PathsSpec,
    encoder: ModelSpec,
    decoder: ModelSpec,
    p: usize,
    s: usize,
)
    requires
        1 < decoder.signatures.len() <= usize::MAX,
        p < decoder.signatures.len(),
        s < decoder.signatures.len(),
        decoder.signatures[p as int].key == "prefill"@,
        forall|k: int| 0 <= k < p ==> (#[trigger] decoder.signatures[k]).key != "prefill"@,
        decoder.signatures[s as int].key == "decode"@,
        forall|k: int| 0 <= k < s ==> (#[trigger] decoder.signatures[k]).key != "decode"@,
    ensures
        EngineOpeningSpec::with_decoder(paths, encoder, decoder) matches EngineOpeningSpec::Opened {
            engine: e,
        } && {
            &&& e.models.len() == 2 && e.models[0] == encoder && e.models[1] == decoder
            &&& e.routes.prefix_enc == Some((0usize, 0usize))
            &&& e.routes.prefill == Some((1usize, p))
            &&& e.routes.step == Some((1usize, s))
            &&& e.feedback.prefix_enc.len() == 0 && e.feedback.prefill.len() == 0
                && e.feedback.step.len() == 0 && e.pipes.len() == 0
            &&& !e.ran.prefix_enc && !e.ran.prefill && !e.ran.step
            &&& e.on_gpu <==> encoder.on_gpu || decoder.on_gpu
        },
{
    key_names_first_signature(decoder, "prefill"@, 0);
    key_names_first_signature(decoder, "decode"@, 0);
}

/// A decoder that lacks one of the two signatures does not open: both models are
/// given back, the decoder first, and the error names the file, the signature that
/// is missing and those that are there.
pub proof fn a_decoder_lacks_a_signature(
    paths: PathsSpec,
    encoder: ModelSpec,
    decoder: ModelSpec,
    keys: Seq<Seq<char>>,
)
    requires
        decoder.signatures.len() != 1,
        decoder.signatures.len() <= usize::MAX,
        keys.len() == decoder.signatures.len(),
        forall|k: int| 0 <= k < keys.len() ==> #[trigger] keys[k] == decoder.signatures[k].key,
        forall|k: int| 0 <= k < keys.len() ==> #[trigger] keys[k] != "prefill"@,
    ensures
        EngineOpeningSpec::with_decoder(paths, encoder, decoder) == (EngineOpeningSpec::Release {
            calls: decoder.release_calls() + encoder.release_calls(),
            next: 0,
            error: ErrorSpec::Load(
                paths.decoder + " 里没有签名 "@ + "prefill"@ + "（有的是 "@ + debug_strings(keys)
                    + "）"@,
            ),
        }),
{
    key_names_first_signature(decoder, "prefill"@, 0);
    assert(decoder.keys() =~= keys);
    match decoder.key_from("prefill"@, 0) {
        Some(i) => {
            assert(keys[i as int] == decoder.signatures[i as int].key);
        },
        None => {},
    }
}

/// The same of a decoder that has `prefill` and lacks `decode`.
pub proof fn a_decoder_lacks_the_other_signature(
    paths: PathsSpec,
    encoder: ModelSpec,
    decoder: ModelSpec,
    keys: Seq<Seq<char>>,
    p: int,
)
    requires
        decoder.signatures.len() != 1,
        decoder.signatures.len() <= usize::MAX,
        keys.len() == decoder.signatures.len(),
        forall|k: int| 0 <= k < keys.len() ==> #[trigger] keys[k] == decoder.signatures[k].key,
        0 <= p < keys.len() && keys[p] == "prefill"@,
        forall|k: int| 0 <= k < keys.len() ==> #[trigger] keys[k] != "decode"@,
    ensures
        EngineOpeningSpec::with_decoder(paths, encoder, decoder) == (EngineOpeningSpec::Release {
            calls: decoder.release_calls() + encoder.release_calls(),
            next: 0,
            error: ErrorSpec::Load(
                paths.decoder + " 里没有签名 "@ + "decode"@ + "（有的是 "@ + debug_strings(keys)
                    + "）"@,
            ),
        }),
{
    key_names_first_signature(decoder, "prefill"@, 0);
    key_names_first_signature(decoder, "decode"@, 0);
    assert(decoder.keys() =~= keys);
    assert(decoder.signatures[p].key == keys[p]);
    match decoder.key_from("decode"@, 0) {
        Some(i) => {
            assert(keys[i as int] == decoder.signatures[i as int].key);
        },
        None => {},
    }
}

/// The models of recognition are read from `prefix_enc.tflite` and
/// `decoder.tflite` in their directory, each of them whole, and both are asked to
/// be on the GPU with the threads that were asked for. A file that cannot be read
/// is an error that names it.
pub proof fn recognition_is_read_from_two_files(
    cfg: EngineConfig,
    r: EngineOpening,
    encoder: ModelSpec,
    bytes: Seq<u8>,
    why: Seq<char>,
)
    requires
        call_ensures(LiteRtCompiledEngine::open, (&cfg,), r),
    ensures
        r@ matches EngineOpeningSpec::ReadEncoder { paths, num_threads } && {
            let dir = cfg.model_dir@;
            let enc = "prefix_enc.tflite"@;
            let dec = "decoder.tflite"@;
            let next = EngineOpeningSpec::ReadDecoder { paths, num_threads, encoder };
            &&& num_threads == cfg.num_threads
            &&& dir.len() == 0 ==> paths.encoder == enc && paths.decoder == dec
            &&& dir.len() > 0 && !"\\\\?\\"@.is_prefix_of(dir) ==> {
                ||| paths.encoder == dir + "/"@ + enc
                ||| paths.encoder == dir + "\\"@ + enc
                ||| paths.encoder == dir + enc && (dir.last() == '/' || dir.last() == '\\'
                    || dir.last() == ':')
            }
            &&& dir.len() > 0 && !"\\\\?\\"@.is_prefix_of(dir) ==> {
                ||| paths.decoder == dir + "/"@ + dec
                ||| paths.decoder == dir + "\\"@ + dec
                ||| paths.decoder == dir + dec && (dir.last() == '/' || dir.last() == '\\'
                    || dir.last() == ':')
            }
            &&& r@.call() == Some(EngineCallSpec::ReadFile { path: paths.encoder })
            &&& r@.file_step(Ok(bytes)) == (EngineOpeningSpec::OpenEncoder {
                paths,
                num_threads,
                opening: OpeningSpec::start(bytes, true, cfg.num_threads),
            })
            &&& r@.file_step(Err(why)) == (EngineOpeningSpec::Failed {
                error: ErrorSpec::Load(paths.encoder + ": "@ + why),
            })
            &&& next.call() == Some(EngineCallSpec::ReadFile { path: paths.decoder })
            &&& next.file_step(Ok(bytes)) == (EngineOpeningSpec::OpenDecoder {
                paths,
                encoder,
                opening: OpeningSpec::start(bytes, true, cfg.num_threads),
            })
            &&& next.file_step(Err(why)) == (EngineOpeningSpec::Release {
                calls: encoder.release_calls(),
                next: 0,
                error: ErrorSpec::Load(paths.decoder + ": "@ + why),
            })
        },
{
    reveal_strlit("\\\\?\\");
    if cfg.model_dir@.len() == 0 {
        assert(!"\\\\?\\"@.is_prefix_of(cfg.model_dir@));
    }
}

/// A model at hand is asked to be on the GPU where that is preferred, and not
/// elsewhere.
pub proof fn the_gpu_is_asked_for_where_preferred(bytes: &[u8], cfg: EngineConfig, r: EngineOpening)
    requires
        call_ensures(LiteRtCompiledEngine::open_bytes, (bytes, &cfg), r),
    ensures
        r@ == (EngineOpeningSpec::Single {
            opening: OpeningSpec::start(bytes@, cfg.prefer == Prefer::LiteRtGpu, cfg.num_threads),
        }),
{
}

/// The bytes of a model that is being opened are at hand until it is open.
pub proof fn model_bytes_are_at_hand(s: EngineOpeningSpec)
    ensures
        s matches EngineOpeningSpec::Single { opening } ==> s.current() == Some(opening),
        s matches EngineOpeningSpec::OpenEncoder { paths, num_threads, opening } ==> s.current()
            == Some(opening),
        s matches EngineOpeningSpec::OpenDecoder { paths, encoder, opening } ==> s.current()
            == Some(opening),
        s is ReadEncoder || s is ReadDecoder || s is Release || s is Opened || s is Failed
            ==> s.current() is None,
{
}

} // verus!
