//! The calls into the LiteRT runtime, as values.
//!
//! The runtime is a C library. Nothing here calls it: the modules of this
//! directory decide which call comes next from the replies so far, and the
//! program around the library makes the call. Handles are addresses, and 0
//! stands for a null pointer.

use super::layout::{LiteRtLayout, LiteRtRankedTensorType};
use vstd::prelude::*;

verus! {

/// A status that the runtime returns; zero is success.
pub type LiteRtStatus = i32;

/// The address of an object that the runtime owns.
pub type Handle = usize;

/// The call succeeded.
#[allow(non_upper_case_globals)]
pub const kLiteRtStatusOk: LiteRtStatus = 0;

/// Run on the CPU.
#[allow(non_upper_case_globals)]
pub const kLiteRtHwAcceleratorCpu: i32 = 1;

/// Run on the GPU.
#[allow(non_upper_case_globals)]
pub const kLiteRtHwAcceleratorGpu: i32 = 2;

/// Run on the NPU. No mask holds it: it takes a vendor's dispatch library.
#[allow(non_upper_case_globals)]
pub const kLiteRtHwAcceleratorNpu: i32 = 4;

/// Elements are 32-bit floats.
#[allow(non_upper_case_globals)]
pub const kLiteRtElementTypeFloat32: i32 = 1;

/// Elements are 32-bit integers.
#[allow(non_upper_case_globals)]
pub const kLiteRtElementTypeInt32: i32 = 2;

/// Lock a buffer to read it.
#[allow(non_upper_case_globals)]
pub const kLiteRtTensorBufferLockModeRead: i32 = 0;

/// Lock a buffer to write it.
#[allow(non_upper_case_globals)]
pub const kLiteRtTensorBufferLockModeWrite: i32 = 1;

/// The inputs or the outputs of a signature.
#[derive(Debug, Clone, Copy, PartialEq, Eq, Structural)]
pub enum Side {
    Input,
    Output,
}

/// One call into the runtime.
#[derive(Debug, Clone, Copy, PartialEq, Eq)]
pub enum Call {
    /// The process-wide environment, made once and kept.
    Environment,
    /// `LiteRtCreateModelFromBuffer`, on the bytes being opened.
    CreateModel { environment: Handle },
    /// `LiteRtDestroyModel`
    DestroyModel { model: Handle },
    /// `LiteRtGetNumModelSignatures`
    CountSignatures { model: Handle },
    /// `LiteRtGetModelSignature`
    Signature { model: Handle, index: usize },
    /// `LiteRtGetSignatureKey`
    SignatureKey { signature: Handle },
    /// `LiteRtGetNumSignatureInputs`, `LiteRtGetNumSignatureOutputs`
    CountArguments { signature: Handle, side: Side },
    /// `LiteRtGetSignatureInputTensorByIndex` and its twin for outputs
    Argument { signature: Handle, side: Side, index: usize },
    /// `LiteRtGetRankedTensorType`
    ArgumentType { tensor: Handle },
    /// `LiteRtGetSignatureInputName`, `LiteRtGetSignatureOutputName`
    ArgumentName { signature: Handle, side: Side, index: usize },
    /// `LiteRtCreateOptions`
    CreateOptions,
    /// `LiteRtSetOptionsHardwareAccelerators`
    SetAccelerators { options: Handle, accelerators: i32 },
    /// `LiteRtCreateOpaqueOptions` with the text of
    /// [`cpu_options_toml`](super::builder::cpu_options_toml)
    CreateCpuOptions { num_threads: i32 },
    /// `LiteRtAddOpaqueOptions`
    AddCpuOptions { options: Handle, cpu_options: Handle },
    /// `LiteRtCreateCompiledModel`
    Compile { environment: Handle, model: Handle, options: Handle },
    /// `LiteRtDestroyOptions`
    DestroyOptions { options: Handle },
    /// `LiteRtDestroyCompiledModel`
    DestroyCompiled { compiled: Handle },
    /// `LiteRtGetCompiledModelInputTensorLayout`
    InputLayout { compiled: Handle, sig: usize, index: usize },
    /// `LiteRtGetCompiledModelOutputTensorLayouts`, which updates the
    /// allocation: the decoding signature does not run without that
    OutputLayouts { compiled: Handle, sig: usize, count: usize },
    /// `LiteRtGetCompiledModelInputBufferRequirements` and its twin for outputs
    Requirements { compiled: Handle, sig: usize, side: Side, index: usize },
    /// `LiteRtCreateManagedTensorBufferFromRequirements`
    CreateBuffer {
        environment: Handle,
        tensor_type: LiteRtRankedTensorType,
        requirements: Handle,
    },
    /// `LiteRtGetTensorBufferRequirementsBufferSize`
    BufferSize { requirements: Handle },
    /// `LiteRtDestroyTensorBuffer`
    DestroyBuffer { buffer: Handle },
    /// `LiteRtLockTensorBuffer`
    Lock { buffer: Handle, mode: i32 },
    /// Zeros `size` bytes of a locked buffer.
    Clear { address: usize, size: usize },
    /// Writes the bytes of a pending input to a locked buffer.
    Write { address: usize },
    /// Reads `len` bytes of a locked buffer.
    Read { address: usize, len: usize },
    /// `LiteRtUnlockTensorBuffer`
    Unlock { buffer: Handle },
    /// `LiteRtRunCompiledModel` on the buffers of a signature
    Invoke { compiled: Handle, sig: usize },
    /// `LiteRtCompiledModelGetProfiler`
    Profiler { compiled: Handle },
    /// `LiteRtResetProfiler`
    ResetProfiler { profiler: Handle },
    /// `LiteRtStartProfiler`
    StartProfiler { profiler: Handle },
    /// `LiteRtStopProfiler`
    StopProfiler { profiler: Handle },
    /// `LiteRtGetProfileSummary`
    ProfileSummary { profiler: Handle, compiled: Handle },
}

/// What a call gave back. A call fills in what it has; the rest stays empty.
pub struct Reply {
    pub status: LiteRtStatus,
    /// A handle, or the address of a locked buffer.
    pub handle: usize,
    /// A count or a size.
    pub count: usize,
    /// A key or a name; none for a null pointer.
    pub text: Option<String>,
    pub element_type: i32,
    pub layouts: Vec<LiteRtLayout>,
    pub bytes: Vec<u8>,
}

/// What a [`Reply`] says.
pub struct ReplySpec {
    pub status: LiteRtStatus,
    pub handle: usize,
    pub count: usize,
    pub text: Option<Seq<char>>,
    pub element_type: i32,
    pub layouts: Seq<LiteRtLayout>,
    pub bytes: Seq<u8>,
}

/// The text of an optional string.
pub open spec fn text_of(text: Option<String>) -> Option<Seq<char>> {
    match text {
        Some(s) => Some(s@),
        None => None,
    }
}

impl View for Reply {
    type V = ReplySpec;

    open spec fn view(&self) -> ReplySpec {
        ReplySpec {
            status: self.status,
            handle: self.handle,
            count: self.count,
            text: text_of(self.text),
            element_type: self.element_type,
            layouts: self.layouts@,
            bytes: self.bytes@,
        }
    }
}

impl ReplySpec {
    /// The call succeeded.
    pub open spec fn ok(self) -> bool {
        self.status == kLiteRtStatusOk
    }

    /// The call succeeded and gave a pointer.
    pub open spec fn gave_handle(self) -> bool {
        self.status == kLiteRtStatusOk && self.handle != 0
    }

    /// The shape of layout `i`; that of a scalar where there is none.
    pub open spec fn shape(self, i: int) -> Seq<i32> {
        if i < self.layouts.len() {
            self.layouts[i].shape()
        } else {
            seq![]
        }
    }
}

impl Reply {
    /// A reply that holds a status and nothing else.
    pub fn of_status(status: LiteRtStatus) -> (r: Reply)
        ensures
            r@ == (ReplySpec {
                status,
                handle: 0,
                count: 0,
                text: None,
                element_type: 0,
                layouts: seq![],
                bytes: seq![],
            }),
    {
        let r = Reply {
            status,
            handle: 0,
            count: 0,
            text: None,
            element_type: 0,
            layouts: Vec::new(),
            bytes: Vec::new(),
        };
        assert(r.layouts@ =~= seq![]);
        assert(r.bytes@ =~= seq![]);
        r
    }

    /// Whether the call succeeded.
    pub fn is_ok(&self) -> (r: bool)
        ensures
            r == self@.ok(),
    {
        self.status == kLiteRtStatusOk
    }

    /// Whether the call succeeded and gave a pointer.
    pub fn has_handle(&self) -> (r: bool)
        ensures
            r == self@.gave_handle(),
    {
        self.status == kLiteRtStatusOk && self.handle != 0
    }

    /// The shape of layout `i`; that of a scalar where there is none.
    pub fn shape_of(&self, i: usize) -> (r: Vec<i32>)
        ensures
            r@ == self@.shape(i as int),
    {
        if i < self.layouts.len() {
            self.layouts[i].dims()
        } else {
            let r: Vec<i32> = Vec::new();
            assert(r@ =~= seq![]);
            r
        }
    }
}

/// A call with what it gave back.
pub struct Event {
    pub call: Call,
    pub reply: ReplySpec,
}

/// What the runtime owns on behalf of a model.
pub enum Resource {
    Model(Handle),
    Options(Handle),
    Compiled(Handle),
    Buffer(Handle),
}

/// What a call with this reply brought into being.
pub open spec fn created(call: Call, reply: ReplySpec) -> Option<Resource> {
    match call {
        Call::CreateModel { .. } if reply.ok() => Some(Resource::Model(reply.handle)),
        Call::CreateOptions if reply.ok() => Some(Resource::Options(reply.handle)),
        Call::Compile { .. } if reply.ok() => Some(Resource::Compiled(reply.handle)),
        Call::CreateBuffer { .. } if reply.gave_handle() => Some(Resource::Buffer(reply.handle)),
        _ => None,
    }
}

/// What a call does away with.
pub open spec fn destroyed(call: Call) -> Option<Resource> {
    match call {
        Call::DestroyModel { model } => Some(Resource::Model(model)),
        Call::DestroyOptions { options } => Some(Resource::Options(options)),
        Call::DestroyCompiled { compiled } => Some(Resource::Compiled(compiled)),
        Call::DestroyBuffer { buffer } => Some(Resource::Buffer(buffer)),
        _ => None,
    }
}

/// A reply is read as it is written: status 0 is success, and a pointer is given
/// where it is not null.
pub proof fn replies_are_read_as_written(r: Reply, i: int)
    ensures
        r@.status == r.status && r@.handle == r.handle && r@.count == r.count && r@.element_type
            == r.element_type && r@.layouts == r.layouts@ && r@.bytes == r.bytes@,
        r.text matches Some(s) ==> r@.text == Some(s@),
        r.text is None ==> r@.text is None,
        r@.ok() <==> r.status == 0,
        r@.gave_handle() <==> r.status == 0 && r.handle != 0,
        0 <= i < r.layouts@.len() ==> r@.shape(i) == r.layouts@[i].shape(),
        i >= r.layouts@.len() ==> r@.shape(i).len() == 0,
{
}

/// Four calls bring something into being where they succeed: a model, options, a
/// compiled model, and a buffer where one is given. Four do away with what they
/// are told to. No other call does either.
pub proof fn four_calls_create_and_four_destroy(call: Call, r: ReplySpec)
    ensures
        call is CreateModel && r.status == 0 ==> created(call, r) == Some(
            Resource::Model(r.handle),
        ),
        call is CreateOptions && r.status == 0 ==> created(call, r) == Some(
            Resource::Options(r.handle),
        ),
        call is Compile && r.status == 0 ==> created(call, r) == Some(Resource::Compiled(r.handle)),
        call is CreateBuffer && r.status == 0 && r.handle != 0 ==> created(call, r) == Some(
            Resource::Buffer(r.handle),
        ),
        created(call, r) is Some ==> r.status == 0 && (call is CreateModel || call is CreateOptions
            || call is Compile || call is CreateBuffer && r.handle != 0),
        match call {
            Call::DestroyModel { model } => destroyed(call) == Some(Resource::Model(model)),
            Call::DestroyOptions { options } => destroyed(call) == Some(Resource::Options(options)),
            Call::DestroyCompiled { compiled } => destroyed(call) == Some(
                Resource::Compiled(compiled),
            ),
            Call::DestroyBuffer { buffer } => destroyed(call) == Some(Resource::Buffer(buffer)),
            _ => destroyed(call) is None,
        },
{
}

} // verus!
