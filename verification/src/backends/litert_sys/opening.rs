//! Opening a model from its bytes.
//!
//! A model is opened for the GPU where that is wanted, and for the CPU where the
//! GPU is not wanted or does not take it: the accelerator may be missing, and a
//! device may have neither OpenCL nor a recent OpenGL ES.

use super::builder::{BuildNext, BuildNextSpec, Builder, BuilderSpec};
use super::metadata::{MetaNext, MetaNextSpec, MetadataReader, ReaderSpec};
use super::model::{CompiledModel, ModelSpec};
use super::native::{text_of, Call, Handle, Reply, ReplySpec};
use crate::text::{integer, push_i32};
use std::sync::Arc;
use vstd::prelude::*;

verus! {

/// What is to be opened, and for which hardware.
pub struct OpenRequest {
    pub bytes: Arc<Vec<u8>>,
    pub want_gpu: bool,
    pub num_threads: i32,
}

/// What an [`OpenRequest`] holds.
pub struct RequestSpec {
    pub bytes: Seq<u8>,
    pub want_gpu: bool,
    pub num_threads: i32,
}

impl View for OpenRequest {
    type V = RequestSpec;

    open spec fn view(&self) -> RequestSpec {
        RequestSpec {
            bytes: self.bytes@,
            want_gpu: self.want_gpu,
            num_threads: self.num_threads,
        }
    }
}

/// The next thing to ask of the runtime.
pub enum OpenStage {
    /// Its environment.
    Environment,
    /// A model of the bytes.
    Model { environment: Handle },
    /// The model's signatures.
    Metadata { environment: Handle, reader: MetadataReader },
    /// The compiled model and its buffers. `gpu_error` says why the GPU did not
    /// take it, where it was tried.
    Build { builder: Builder, gpu_error: Option<String> },
    /// After a failure, to give back the model.
    DropModel { model: Handle, error: String },
}

/// What an [`OpenStage`] holds.
pub enum OpenStageSpec {
    Environment,
    Model { environment: Handle },
    Metadata { environment: Handle, reader: ReaderSpec },
    Build { builder: BuilderSpec, gpu_error: Option<Seq<char>> },
    DropModel { model: Handle, error: Seq<char> },
}

impl View for OpenStage {
    type V = OpenStageSpec;

    open spec fn view(&self) -> OpenStageSpec {
        match *self {
            OpenStage::Environment => OpenStageSpec::Environment,
            OpenStage::Model { environment } => OpenStageSpec::Model { environment },
            OpenStage::Metadata { environment, reader } => OpenStageSpec::Metadata {
                environment,
                reader: reader@,
            },
            OpenStage::Build { builder, gpu_error } => OpenStageSpec::Build {
                builder: builder@,
                gpu_error: text_of(gpu_error),
            },
            OpenStage::DropModel { model, error } => OpenStageSpec::DropModel {
                model,
                error: error@,
            },
        }
    }
}

/// Opens a model, one call at a time.
pub enum Opening {
    Working { request: OpenRequest, stage: OpenStage },
    Opened { model: CompiledModel },
    /// Everything made on the way is given back.
    Failed { error: String },
}

/// What an [`Opening`] holds.
pub enum OpeningSpec {
    Working { request: RequestSpec, stage: OpenStageSpec },
    Opened { model: ModelSpec },
    Failed { error: Seq<char> },
}

impl View for Opening {
    type V = OpeningSpec;

    open spec fn view(&self) -> OpeningSpec {
        match *self {
            Opening::Working { request, stage } => OpeningSpec::Working {
                request: request@,
                stage: stage@,
            },
            Opening::Opened { model } => OpeningSpec::Opened { model: model@ },
            Opening::Failed { error } => OpeningSpec::Failed { error: error@ },
        }
    }
}

impl OpeningSpec {
    /// Opening starts with the environment.
    pub open spec fn start(bytes: Seq<u8>, want_gpu: bool, num_threads: i32) -> OpeningSpec {
        OpeningSpec::Working {
            request: RequestSpec { bytes, want_gpu, num_threads },
            stage: OpenStageSpec::Environment,
        }
    }

    /// The parts are well-formed, and what they are about is the same model.
    pub open spec fn well_formed(self) -> bool {
        match self {
            OpeningSpec::Working { request, stage } => match stage {
                OpenStageSpec::Metadata { environment, reader } => reader.well_formed(),
                OpenStageSpec::Build { builder, gpu_error } => {
                    &&& builder.well_formed()
                    &&& builder.num_threads == request.num_threads
                    &&& gpu_error is None ==> builder.gpu == request.want_gpu
                    &&& gpu_error is Some ==> request.want_gpu && !builder.gpu
                },
                _ => true,
            },
            _ => true,
        }
    }

    /// The call that comes next; none when opening has ended.
    pub open spec fn call(self) -> Option<Call> {
        match self {
            OpeningSpec::Working { request, stage } => Some(
                match stage {
                    OpenStageSpec::Environment => Call::Environment,
                    OpenStageSpec::Model { environment } => Call::CreateModel { environment },
                    OpenStageSpec::Metadata { environment, reader } => reader.call(),
                    OpenStageSpec::Build { builder, gpu_error } => builder.call(),
                    OpenStageSpec::DropModel { model, error } => Call::DestroyModel { model },
                },
            ),
            _ => None,
        }
    }

    /// Where opening stands after a reply.
    pub open spec fn step(self, r: ReplySpec) -> OpeningSpec {
        match self {
            OpeningSpec::Working { request, stage } => match stage {
                OpenStageSpec::Environment => if r.gave_handle() {
                    OpeningSpec::Working {
                        request,
                        stage: OpenStageSpec::Model { environment: r.handle },
                    }
                } else {
                    OpeningSpec::Failed { error: "LiteRtCreateEnvironment 失败"@ }
                },
                OpenStageSpec::Model { environment } => if r.ok() {
                    OpeningSpec::Working {
                        request,
                        stage: OpenStageSpec::Metadata {
                            environment,
                            reader: ReaderSpec::start(r.handle),
                        },
                    }
                } else {
                    OpeningSpec::Failed {
                        error: "LiteRtCreateModelFromBuffer status="@ + integer(r.status as int),
                    }
                },
                OpenStageSpec::Metadata { environment, reader } => OpeningSpec::Working {
                    request,
                    stage: match reader.step(r) {
                        MetaNextSpec::More(next) => OpenStageSpec::Metadata {
                            environment,
                            reader: next,
                        },
                        MetaNextSpec::Done(metas) => OpenStageSpec::Build {
                            builder: BuilderSpec::start(
                                environment,
                                reader.model,
                                metas,
                                request.want_gpu,
                                request.num_threads,
                            ),
                            gpu_error: None,
                        },
                        MetaNextSpec::Failed(error) => OpenStageSpec::DropModel {
                            model: reader.model,
                            error,
                        },
                    },
                },
                OpenStageSpec::Build { builder, gpu_error } => match builder.step(r) {
                    BuildNextSpec::More(next) => OpeningSpec::Working {
                        request,
                        stage: OpenStageSpec::Build { builder: next, gpu_error },
                    },
                    BuildNextSpec::Done { compiled, signatures } => OpeningSpec::Opened {
                        model: ModelSpec {
                            bytes: request.bytes,
                            model: builder.model,
                            compiled,
                            signatures,
                            on_gpu: builder.gpu,
                        },
                    },
                    BuildNextSpec::Failed { error, metas } => OpeningSpec::Working {
                        request,
                        stage: if builder.gpu {
                            OpenStageSpec::Build {
                                builder: BuilderSpec::start(
                                    builder.environment,
                                    builder.model,
                                    metas,
                                    false,
                                    request.num_threads,
                                ),
                                gpu_error: Some(error),
                            }
                        } else {
                            OpenStageSpec::DropModel {
                                model: builder.model,
                                error: match gpu_error {
                                    Some(first) => "GPU 与 CPU 都失败: "@ + first + " / "@ + error,
                                    None => error,
                                },
                            }
                        },
                    },
                },
                OpenStageSpec::DropModel { model, error } => OpeningSpec::Failed { error },
            },
            _ => self,
        }
    }
}

impl CompiledModel {
    /// Starts opening a copy of a model's bytes. Shapes need not be given: they
    /// are settled when the model is compiled.
    pub fn new(model_bytes: &[u8], want_gpu: bool, num_threads: i32) -> (r: Opening)
        ensures
            r@ == OpeningSpec::start(model_bytes@, want_gpu, num_threads),
            r@.well_formed(),
    {
        Self::from_owned(vstd::slice::slice_to_vec(model_bytes), want_gpu, num_threads)
    }

    /// Starts opening a model, taking its bytes.
    pub fn from_owned(bytes: Vec<u8>, want_gpu: bool, num_threads: i32) -> (r: Opening)
        ensures
            r@ == OpeningSpec::start(bytes@, want_gpu, num_threads),
            r@.well_formed(),
    {
        Self::from_shared(Arc::new(bytes), want_gpu, num_threads)
    }

    /// Starts opening a model whose bytes others may share. The runtime does not
    /// copy them, so one copy serves every compilation.
    pub fn from_shared(bytes: Arc<Vec<u8>>, want_gpu: bool, num_threads: i32) -> (r: Opening)
        ensures
            r@ == OpeningSpec::start(bytes@, want_gpu, num_threads),
            r@.well_formed(),
    {
        Opening::Working {
            request: OpenRequest { bytes, want_gpu, num_threads },
            stage: OpenStage::Environment,
        }
    }
}

impl Opening {
    /// The call that comes next; none when opening has ended.
    pub fn call(&self) -> (r: Option<Call>)
        requires
            self@.well_formed(),
        ensures
            r == self@.call(),
    {
        match self {
            Opening::Working { request, stage } => match stage {
                OpenStage::Environment => Some(Call::Environment),
                OpenStage::Model { environment } => Some(
                    Call::CreateModel { environment: *environment },
                ),
                OpenStage::Metadata { environment, reader } => Some(reader.call()),
                OpenStage::Build { builder, gpu_error } => Some(builder.call()),
                OpenStage::DropModel { model, error } => Some(Call::DestroyModel { model: *model }),
            },
            _ => None,
        }
    }

    /// The bytes that the model is made of, while it is being opened.
    pub fn model_bytes(&self) -> (r: Option<&[u8]>)
        ensures
            match (self@, r) {
                (OpeningSpec::Working { request, stage }, Some(b)) => b@ == request.bytes,
                (OpeningSpec::Working { request, stage }, None) => false,
                (_, b) => b is None,
            },
    {
        match self {
            Opening::Working { request, stage } => Some(request.bytes.as_slice()),
            _ => None,
        }
    }

    /// Takes the reply to the call.
    pub fn advance(self, reply: Reply) -> (r: Opening)
        requires
            self@.well_formed(),
        ensures
            r@ == self@.step(reply@),
            r@.well_formed(),
    {
        match self {
            Opening::Working { request, stage } => match stage {
                OpenStage::Environment => {
                    if reply.has_handle() {
                        Opening::Working {
                            request,
                            stage: OpenStage::Model { environment: reply.handle },
                        }
                    } else {
                        Opening::Failed { error: String::from_str("LiteRtCreateEnvironment 失败") }
                    }
                },
                OpenStage::Model { environment } => {
                    if reply.is_ok() {
                        Opening::Working {
                            request,
                            stage: OpenStage::Metadata {
                                environment,
                                reader: MetadataReader::new(reply.handle),
                            },
                        }
                    } else {
                        let mut error = String::from_str("LiteRtCreateModelFromBuffer status=");
                        push_i32(&mut error, reply.status);
                        Opening::Failed { error }
                    }
                },
                OpenStage::Metadata { environment, reader } => {
                    let model: Handle = reader.model;
                    let stage = match reader.advance(reply) {
                        MetaNext::More(next) => OpenStage::Metadata { environment, reader: next },
                        MetaNext::Done(metas) => OpenStage::Build {
                            builder: Builder::new(
                                environment,
                                model,
                                metas,
                                request.want_gpu,
                                request.num_threads,
                            ),
                            gpu_error: None,
                        },
                        MetaNext::Failed(error) => OpenStage::DropModel { model, error },
                    };
                    Opening::Working { request, stage }
                },
                OpenStage::Build { builder, gpu_error } => {
                    let environment: Handle = builder.plan.environment;
                    let model: Handle = builder.plan.model;
                    let gpu: bool = builder.plan.gpu;
                    match builder.advance(reply) {
                        BuildNext::More(next) => Opening::Working {
                            request,
                            stage: OpenStage::Build { builder: next, gpu_error },
                        },
                        BuildNext::Done { compiled, signatures } => Opening::Opened {
                            model: CompiledModel {
                                bytes: request.bytes,
                                model,
                                compiled,
                                signatures,
                                on_gpu: gpu,
                            },
                        },
                        BuildNext::Failed { error, metas } => {
                            if gpu {
                                let num_threads: i32 = request.num_threads;
                                return Opening::Working {
                                    request,
                                    stage: OpenStage::Build {
                                        builder: Builder::new(
                                            environment,
                                            model,
                                            metas,
                                            false,
                                            num_threads,
                                        ),
                                        gpu_error: Some(error),
                                    },
                                };
                            }
                            let error = match gpu_error {
                                Some(first) => {
                                    let mut e = String::from_str("GPU 与 CPU 都失败: ");
                                    e.append(first.as_str());
                                    e.append(" / ");
                                    e.append(error.as_str());
                                    e
                                },
                                None => error,
                            };
                            Opening::Working {
                                request,
                                stage: OpenStage::DropModel { model, error },
                            }
                        },
                    }
                },
                OpenStage::DropModel { model, error } => Opening::Failed { error },
            },
            other => other,
        }
    }
}

/// An opening that fails says why. Where neither the GPU nor the CPU takes the
/// model, it says what each of them said. The model is given back first.
pub proof fn failed_openings_say_why(
    request: RequestSpec,
    environment: Handle,
    builder: BuilderSpec,
    gpu_error: Option<Seq<char>>,
    r: ReplySpec,
    s: ReplySpec,
)
    ensures
        ({
            let at = |stage: OpenStageSpec| OpeningSpec::Working { request, stage };
            &&& r.status != 0 || r.handle == 0 ==> at(OpenStageSpec::Environment).step(r) == (
            OpeningSpec::Failed { error: "LiteRtCreateEnvironment 失败"@ })
            &&& r.status != 0 ==> at(OpenStageSpec::Model { environment }).step(r) == (
            OpeningSpec::Failed {
                error: "LiteRtCreateModelFromBuffer status="@ + integer(r.status as int),
            })
            &&& builder.step(r) matches BuildNextSpec::Failed { error, metas } ==> {
                let next = at(OpenStageSpec::Build { builder, gpu_error }).step(r);
                if builder.gpu {
                    next == at(
                        OpenStageSpec::Build {
                            builder: BuilderSpec::start(
                                builder.environment,
                                builder.model,
                                metas,
                                false,
                                request.num_threads,
                            ),
                            gpu_error: Some(error),
                        },
                    )
                } else {
                    &&& next.call() == Some(Call::DestroyModel { model: builder.model })
                    &&& next.step(s) == (OpeningSpec::Failed {
                        error: match gpu_error {
                            Some(first) => "GPU 与 CPU 都失败: "@ + first + " / "@ + error,
                            None => error,
                        },
                    })
                }
            }
        }),
{
}

} // verus!
