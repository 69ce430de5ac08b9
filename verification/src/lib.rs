//! Inference on the device, behind one interface.
//!
//! Callers depend on [`Engine`] alone and need not know whether LiteRT or Core
//! ML is underneath. Both backends offer the same methods, `prefix_enc`,
//! `prefill` and `step`, and hide whether a model file holds one of them or
//! several. Models with a single method, such as those for hand detection, are
//! entered through [`Method::PrefixEnc`].
//!
//! This crate holds the decisions: what to ask of a native runtime, in which
//! order, and what its replies mean. It calls no runtime itself. Each operation
//! that needs one is a value that says which call comes next and takes the
//! reply.

pub mod backends;
pub mod methods;
pub mod tensor;
pub mod text;

pub use tensor::{DType, Tensor, TensorView};

use crate::backends::coreml::{load_agrees, load_of, CoreMlEngine, CoreMlLoad};
use crate::backends::litert::opening::{EngineOpening, EngineOpeningSpec};
use crate::backends::litert::LiteRtCompiledEngine;
use crate::text::{ends_in, integer, push_i32};
use vstd::prelude::*;

verus! {

/// A method of a model that can be called.
#[derive(Debug, Clone, Copy, PartialEq, Eq, Hash, Structural)]
pub enum Method {
    /// Strokes, and an image where there is one, to prefix embeddings.
    PrefixEnc,
    /// Prefix embeddings to the first KV cache.
    Prefill,
    /// Token, position and KV cache to logits and KV cache.
    Step,
}

/// The name of a method's variant.
pub open spec fn variant_name(method: Method) -> Seq<char> {
    match method {
        Method::PrefixEnc => "PrefixEnc"@,
        Method::Prefill => "Prefill"@,
        Method::Step => "Step"@,
    }
}

impl Method {
    /// The method's name inside a model with several.
    pub fn signature(self) -> (r: &'static str)
        ensures
            r@ == (match self {
                Method::PrefixEnc => "forward"@,
                Method::Prefill => "prefill"@,
                Method::Step => "step"@,
            }),
    {
        match self {
            Method::PrefixEnc => "forward",
            Method::Prefill => "prefill",
            Method::Step => "step",
        }
    }

    /// The name of the variant.
    pub fn variant(self) -> (r: &'static str)
        ensures
            r@ == variant_name(self),
    {
        match self {
            Method::PrefixEnc => "PrefixEnc",
            Method::Prefill => "Prefill",
            Method::Step => "Step",
        }
    }
}

/// What can go wrong in an engine.
#[derive(Debug)]
pub enum EngineError {
    /// A model file is missing or malformed.
    Load(String),
    /// There is no such method, `prefill` in a model with one signature say.
    MethodNotFound(Method),
    /// An input does not have the shape that the model takes.
    Shape(String),
    /// The backend failed; `code` is its own error code.
    Execute { method: Method, code: i32, msg: String },
    /// The backend is not part of this build.
    Unavailable(&'static str),
}

/// What an [`EngineError`] says.
pub enum ErrorSpec {
    Load(Seq<char>),
    MethodNotFound(Method),
    Shape(Seq<char>),
    Execute { method: Method, code: i32, msg: Seq<char> },
    Unavailable(Seq<char>),
}

impl View for EngineError {
    type V = ErrorSpec;

    open spec fn view(&self) -> ErrorSpec {
        match *self {
            EngineError::Load(m) => ErrorSpec::Load(m@),
            EngineError::MethodNotFound(m) => ErrorSpec::MethodNotFound(m),
            EngineError::Shape(m) => ErrorSpec::Shape(m@),
            EngineError::Execute { method, code, msg } => ErrorSpec::Execute {
                method,
                code,
                msg: msg@,
            },
            EngineError::Unavailable(b) => ErrorSpec::Unavailable(b@),
        }
    }
}

impl ErrorSpec {
    /// The error in words.
    pub open spec fn message(self) -> Seq<char> {
        match self {
            ErrorSpec::Load(m) => "模型加载失败: "@ + m,
            ErrorSpec::MethodNotFound(m) => "方法不存在: "@ + variant_name(m),
            ErrorSpec::Shape(m) => "形状不匹配: "@ + m,
            ErrorSpec::Execute { method, code, msg } => variant_name(method) + " 执行失败 (code="@
                + integer(code as int) + "): "@ + msg,
            ErrorSpec::Unavailable(b) => "后端未编入本次构建: "@ + b,
        }
    }
}

impl EngineError {
    /// The error in words.
    pub fn message(&self) -> (r: String)
        ensures
            r@ == self@.message(),
    {
        match self {
            EngineError::Load(m) => {
                let mut r = String::from_str("模型加载失败: ");
                r.append(m.as_str());
                r
            },
            EngineError::MethodNotFound(m) => {
                let mut r = String::from_str("方法不存在: ");
                r.append(m.variant());
                r
            },
            EngineError::Shape(m) => {
                let mut r = String::from_str("形状不匹配: ");
                r.append(m.as_str());
                r
            },
            EngineError::Execute { method, code, msg } => {
                let mut r = String::from_str(method.variant());
                r.append(" 执行失败 (code=");
                push_i32(&mut r, *code);
                r.append("): ");
                r.append(msg.as_str());
                r
            },
            EngineError::Unavailable(b) => {
                let mut r = String::from_str("后端未编入本次构建: ");
                r.append(b);
                r
            },
        }
    }
}

/// What an engine returns.
pub type Result<T> = std::result::Result<T, EngineError>;

/// An inference engine, whatever its backend.
///
/// An implementation has the runtime to itself while `&mut self` lasts; sharing
/// an engine between threads takes a lock around it.
pub trait Engine: Send {
    /// The backend's name, for logs and benchmarks.
    fn backend_name(&self) -> &'static str;

    /// Runs a method. Inputs come in the order of the model's signature; all
    /// outputs are returned.
    fn run(&mut self, method: Method, inputs: &[TensorView<'_>]) -> Result<Vec<Tensor>>;

    /// The shape of an output. Some backends do not know it while shapes are
    /// dynamic.
    fn output_shape(&mut self, method: Method, index: usize) -> Option<Vec<i64>>;

    /// Whether the engine has a method.
    fn has_method(&self, method: Method) -> bool;

    /// Declares that an output of a method is to be an input of its next call,
    /// without passing through the caller.
    ///
    /// This is for the KV cache of a decoder: sending it in and fetching it back
    /// whole at every step is mere copying. Where the backend can do this it
    /// says so by true. The first call after that starts from the caller's
    /// tensor; from the second on that tensor is ignored. The output is not
    /// returned. By default the backend cannot.
    fn feed_output_back(
        &mut self,
        _method: Method,
        _out_index: usize,
        _in_index: usize,
    ) -> (r: bool)
        default_ensures
            !r,
            &*final(self) == &*old(self),
    {
        false
    }

    /// Declares that an output of one method is to be an input of another.
    ///
    /// This hands the KV cache that `prefill` computes to the first `step`. Once
    /// declared, the caller's tensor for that input is ignored and the output is
    /// not returned. By default the backend cannot.
    fn pipe_output(
        &mut self,
        _from: Method,
        _out_index: usize,
        _to: Method,
        _in_index: usize,
    ) -> (r: bool)
        default_ensures
            !r,
            &*final(self) == &*old(self),
    {
        false
    }
}

/// Which backend is preferred.
///
/// It is no more than a preference: a build with one backend uses that one.
#[derive(Clone, Copy, PartialEq, Eq, Debug, Structural)]
pub enum Prefer {
    /// The build's own order. Recognition uses this.
    Auto,
    /// LiteRT, on the GPU where it can be. Hand detection uses this: its models
    /// are small, and it is to leave the CPU to recognition.
    LiteRtGpu,
}

impl Default for Prefer {
    fn default() -> (r: Self)
        ensures
            r == Prefer::Auto,
    {
        Prefer::Auto
    }
}

/// How to make an engine.
#[derive(Debug, Clone)]
pub struct EngineConfig {
    /// The directory of the models; each backend has its own file names in it.
    pub model_dir: String,
    /// The number of CPU threads; 0 leaves it to the backend. For LiteRT on the
    /// CPU 4 is a good choice where cores differ in speed.
    pub num_threads: i32,
    /// The backend that is wanted. Where it is not there another takes its place.
    pub prefer: Prefer,
}

impl Default for EngineConfig {
    fn default() -> (r: Self)
        ensures
            r.model_dir@ == Seq::<char>::empty(),
            r.num_threads == 0,
            r.prefer == Prefer::Auto,
    {
        let model_dir = String::new();
        EngineConfig { model_dir, num_threads: 0, prefer: Prefer::Auto }
    }
}

/// The backends that a build has. Native libraries exist on some platforms only:
/// LiteRT on Android, Core ML on Apple's.
#[derive(Clone, Copy, PartialEq, Eq, Debug, Structural)]
pub struct Backends {
    pub litert: bool,
    pub coreml: bool,
}

/// A model in the bytes is opened by LiteRT, or by nothing.
pub open spec fn opens_bytes(
    r: Result<EngineOpening>,
    bytes: Seq<u8>,
    prefer: Prefer,
    num_threads: i32,
    backends: Backends,
) -> bool {
    match r {
        Ok(opening) => {
            &&& backends.litert
            &&& opening@ == EngineOpeningSpec::of_bytes(bytes, prefer, num_threads)
            &&& opening@.well_formed()
        },
        Err(e) => !backends.litert && e@ == ErrorSpec::Unavailable("未编入任何推理后端"@),
    }
}

/// Starts opening a model with a single method from its bytes. Its method is
/// [`Method::PrefixEnc`].
pub fn open_from_bytes(bytes: &[u8], cfg: &EngineConfig, backends: Backends) -> (r: Result<
    EngineOpening,
>)
    ensures
        opens_bytes(r, bytes@, cfg.prefer, cfg.num_threads, backends),
{
    if backends.litert {
        Ok(LiteRtCompiledEngine::open_bytes(bytes, cfg))
    } else {
        Err(EngineError::Unavailable("未编入任何推理后端"))
    }
}

/// A path names a Core ML model.
pub open spec fn names_coreml(path: Seq<char>) -> bool {
    ".mlpackage"@.is_suffix_of(path) || ".mlmodelc"@.is_suffix_of(path)
}

/// How a model file is opened.
pub enum PathOpening {
    /// Core ML loads it itself, where its path can be handed over.
    CoreMl(Result<CoreMlLoad>),
    /// Its bytes are read, and go to [`open_file`].
    ReadFile,
}

/// How to open a model with a single method from a file. Core ML takes files
/// only; it gets its own kinds, where it is there.
pub fn open_path(path: &str, cfg: &EngineConfig, backends: Backends) -> (r: PathOpening)
    ensures
        match r {
            PathOpening::CoreMl(load) => {
                &&& backends.coreml && names_coreml(path@)
                &&& load_agrees(load, load_of(path@, None, cfg.num_threads))
            },
            PathOpening::ReadFile => !(backends.coreml && names_coreml(path@)),
        },
{
    if backends.coreml && (ends_in(path, ".mlpackage") || ends_in(path, ".mlmodelc")) {
        PathOpening::CoreMl(CoreMlEngine::open_path(path, cfg))
    } else {
        PathOpening::ReadFile
    }
}

/// Starts opening the model that was read from a file, or says why it could not
/// be read.
pub fn open_file(
    path: &str,
    file: std::result::Result<Vec<u8>, String>,
    cfg: &EngineConfig,
    backends: Backends,
) -> (r: Result<EngineOpening>)
    ensures
        match file {
            Ok(bytes) => opens_bytes(r, bytes@, cfg.prefer, cfg.num_threads, backends),
            Err(e) => r matches Err(error) && error@ == ErrorSpec::Load(
                "读模型失败 "@ + path@ + ": "@ + e@,
            ),
        },
{
    match file {
        Ok(bytes) => open_from_bytes(bytes.as_slice(), cfg, backends),
        Err(e) => {
            let mut m = String::from_str("读模型失败 ");
            m.append(path);
            m.append(": ");
            m.append(e.as_str());
            Err(EngineError::Load(m))
        },
    }
}

/// An error in words says what kind it is and then all that is known of it: the
/// whole text, the method, the code.
pub proof fn errors_say_all_they_know(e: EngineError, r: String, name: &'static str)
    requires
        call_ensures(EngineError::message, (&e,), r),
        e matches EngineError::MethodNotFound(m) ==> call_ensures(Method::variant, (m,), name),
        e matches EngineError::Execute { method, code, msg } ==> call_ensures(
            Method::variant,
            (method,),
            name,
        ),
    ensures
        match e {
            EngineError::Load(m) => r@ == "模型加载失败: "@ + m@,
            EngineError::MethodNotFound(m) => r@ == "方法不存在: "@ + name@,
            EngineError::Shape(m) => r@ == "形状不匹配: "@ + m@,
            EngineError::Execute { method, code, msg } => r@ == name@ + " 执行失败 (code="@
                + integer(code as int) + "): "@ + msg@,
            EngineError::Unavailable(b) => r@ == "后端未编入本次构建: "@ + b@,
        },
{
}

/// Methods are told apart by their names.
pub proof fn methods_have_names_of_their_own(method: Method, r: &'static str)
    requires
        call_ensures(Method::variant, (method,), r),
    ensures
        method == Method::PrefixEnc ==> r@ == "PrefixEnc"@,
        method == Method::Prefill ==> r@ == "Prefill"@,
        method == Method::Step ==> r@ == "Step"@,
{
}

/// Core ML opens a file whose path ends in `.mlpackage` or `.mlmodelc`, whatever
/// comes before, where Core ML is there; of any other the bytes are read. Core ML
/// is asked for that very path, as a whole model.
pub proof fn core_ml_opens_its_own_files(
    path: &str,
    cfg: EngineConfig,
    backends: Backends,
    r: PathOpening,
)
    requires
        call_ensures(open_path, (path, &cfg, backends), r),
    ensures
        r is CoreMl <==> backends.coreml && (".mlpackage"@.is_suffix_of(path@)
            || ".mlmodelc"@.is_suffix_of(path@)),
        r matches PathOpening::CoreMl(Ok(load)) ==> load.path@ == path@ && load.function is None
            && load.num_threads == cfg.num_threads && !path@.contains('\0'),
        r matches PathOpening::CoreMl(Err(e)) ==> path@.contains('\0') && e@ == ErrorSpec::Load(
            "路径含 NUL"@,
        ),
{
    crate::backends::coreml::loads_ask_for_what_was_asked(path@, None, cfg.num_threads);
    match r {
        PathOpening::CoreMl(Ok(load)) => {
            assert(load@.path == load.path@);
            assert(load@.function is None);
            assert(load.function is None);
        },
        _ => {},
    }
}

/// Bytes are opened by LiteRT where it is there, all of them as they are, with
/// the GPU where it is preferred and with the threads asked for. Where it is not
/// there, that is the error. A file that could not be read is an error that names
/// it.
pub proof fn bytes_are_opened_by_litert(
    path: &str,
    file: std::result::Result<Vec<u8>, String>,
    cfg: EngineConfig,
    backends: Backends,
    r: Result<EngineOpening>,
)
    requires
        call_ensures(open_file, (path, file, &cfg, backends), r),
    ensures
        match file {
            Ok(bytes) => {
                &&& r is Ok <==> backends.litert
                &&& r matches Ok(opening) ==> opening@ == EngineOpeningSpec::of_bytes(
                    bytes@,
                    cfg.prefer,
                    cfg.num_threads,
                )
                &&& r matches Err(e) ==> e@ == ErrorSpec::Unavailable("未编入任何推理后端"@)
            },
            Err(why) => r matches Err(e) && e@ == ErrorSpec::Load(
                "读模型失败 "@ + path@ + ": "@ + why@,
            ),
        },
{
}

} // verus!
