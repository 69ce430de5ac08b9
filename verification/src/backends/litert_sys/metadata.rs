//! Reading a model's signatures before it is compiled: their keys, and for
//! every input and output its element type and its place among the arguments.
//!
//! Shapes are not read here. Compiling settles them, but leaves types alone.

use super::native::{Call, Handle, LiteRtStatus, Reply, ReplySpec, Side};
use super::order::{argument_order, is_permutation, order_exists, order_of, order_permutes, texts};
use crate::text::{integer, push_i32, push_usize};
use vstd::prelude::*;

verus! {

/// What is known of a signature before the model is compiled.
pub struct SignatureMeta {
    pub key: String,
    pub input_types: Vec<i32>,
    pub output_types: Vec<i32>,
    /// From the caller's position to the runtime's.
    pub input_order: Vec<usize>,
    pub output_order: Vec<usize>,
}

/// What a [`SignatureMeta`] holds.
pub struct MetaSpec {
    pub key: Seq<char>,
    pub input_types: Seq<i32>,
    pub output_types: Seq<i32>,
    pub input_order: Seq<usize>,
    pub output_order: Seq<usize>,
}

impl View for SignatureMeta {
    type V = MetaSpec;

    open spec fn view(&self) -> MetaSpec {
        MetaSpec {
            key: self.key@,
            input_types: self.input_types@,
            output_types: self.output_types@,
            input_order: self.input_order@,
            output_order: self.output_order@,
        }
    }
}

/// What a list of signature descriptions holds.
pub open spec fn metas(v: Seq<SignatureMeta>) -> Seq<MetaSpec> {
    Seq::new(v.len(), |i: int| v[i]@)
}

impl MetaSpec {
    /// The orders rearrange the inputs and the outputs.
    pub open spec fn well_formed(self) -> bool {
        &&& is_permutation(self.input_order, self.input_types.len())
        &&& is_permutation(self.output_order, self.output_types.len())
    }
}

/// All descriptions are well-formed.
pub open spec fn all_well_formed(v: Seq<MetaSpec>) -> bool {
    forall|i: int| 0 <= i < v.len() ==> (#[trigger] v[i]).well_formed()
}

/// What has been read of one signature: types first, then names, inputs before
/// outputs.
pub struct SignatureRead {
    pub signature: Handle,
    pub key: String,
    pub n_in: usize,
    pub n_out: usize,
    pub input_types: Vec<i32>,
    pub output_types: Vec<i32>,
    pub input_names: Vec<String>,
    pub output_names: Vec<String>,
}

/// What a [`SignatureRead`] holds.
pub struct ReadSpec {
    pub signature: Handle,
    pub key: Seq<char>,
    pub n_in: usize,
    pub n_out: usize,
    pub input_types: Seq<i32>,
    pub output_types: Seq<i32>,
    pub input_names: Seq<Seq<char>>,
    pub output_names: Seq<Seq<char>>,
}

impl View for SignatureRead {
    type V = ReadSpec;

    open spec fn view(&self) -> ReadSpec {
        ReadSpec {
            signature: self.signature,
            key: self.key@,
            n_in: self.n_in,
            n_out: self.n_out,
            input_types: self.input_types@,
            output_types: self.output_types@,
            input_names: texts(self.input_names@),
            output_names: texts(self.output_names@),
        }
    }
}

impl ReadSpec {
    /// No more is read than there is.
    pub open spec fn well_formed(self) -> bool {
        &&& self.input_types.len() <= self.n_in
        &&& self.output_types.len() <= self.n_out
        &&& self.input_names.len() <= self.n_in
        &&& self.output_names.len() <= self.n_out
    }

    /// Some type is still to be read.
    pub open spec fn lacks_type(self) -> bool {
        self.input_types.len() < self.n_in || self.output_types.len() < self.n_out
    }

    /// The argument whose type is read next.
    pub open spec fn next_type(self) -> (Side, usize) {
        if self.input_types.len() < self.n_in {
            (Side::Input, self.input_types.len() as usize)
        } else {
            (Side::Output, self.output_types.len() as usize)
        }
    }

    /// Some name is still to be read.
    pub open spec fn lacks_name(self) -> bool {
        self.input_names.len() < self.n_in || self.output_names.len() < self.n_out
    }

    /// The argument whose name is read next.
    pub open spec fn next_name(self) -> (Side, usize) {
        if self.input_names.len() < self.n_in {
            (Side::Input, self.input_names.len() as usize)
        } else {
            (Side::Output, self.output_names.len() as usize)
        }
    }

    /// With the next type read.
    pub open spec fn with_type(self, ty: i32) -> ReadSpec {
        if self.next_type().0 is Input {
            ReadSpec { input_types: self.input_types.push(ty), ..self }
        } else {
            ReadSpec { output_types: self.output_types.push(ty), ..self }
        }
    }

    /// With the next name read; an argument without one has the empty name.
    pub open spec fn with_name(self, name: Option<Seq<char>>) -> ReadSpec {
        let text = match name {
            Some(t) => t,
            None => seq![],
        };
        if self.next_name().0 is Input {
            ReadSpec { input_names: self.input_names.push(text), ..self }
        } else {
            ReadSpec { output_names: self.output_names.push(text), ..self }
        }
    }

    /// What has been read says this of the signature.
    pub open spec fn meta(self) -> MetaSpec {
        MetaSpec {
            key: self.key,
            input_types: self.input_types,
            output_types: self.output_types,
            input_order: order_of(self.input_names),
            output_order: order_of(self.output_names),
        }
    }

    /// How a failure to read a type begins.
    pub open spec fn type_error(self) -> Seq<char> {
        "签名 "@ + self.key + (if self.next_type().0 is Input {
            " 的输入类型: "@
        } else {
            " 的输出类型: "@
        })
    }
}

/// The next thing to ask of the runtime.
pub enum MetaStage {
    /// How many signatures there are.
    Count,
    /// The handle of the first signature that is not read yet.
    Signature,
    /// Its key.
    Key { signature: Handle },
    /// How many inputs it has.
    Inputs { signature: Handle, key: String },
    /// How many outputs it has.
    Outputs { signature: Handle, key: String, status: LiteRtStatus, n_in: usize },
    /// The tensor behind an argument.
    Tensor { read: SignatureRead },
    /// That tensor's type.
    Type { read: SignatureRead, tensor: Handle },
    /// The name of an argument.
    Name { read: SignatureRead },
}

/// What a [`MetaStage`] holds.
pub enum MetaStageSpec {
    Count,
    Signature,
    Key { signature: Handle },
    Inputs { signature: Handle, key: Seq<char> },
    Outputs { signature: Handle, key: Seq<char>, status: LiteRtStatus, n_in: usize },
    Tensor { read: ReadSpec },
    Type { read: ReadSpec, tensor: Handle },
    Name { read: ReadSpec },
}

impl View for MetaStage {
    type V = MetaStageSpec;

    open spec fn view(&self) -> MetaStageSpec {
        match *self {
            MetaStage::Count => MetaStageSpec::Count,
            MetaStage::Signature => MetaStageSpec::Signature,
            MetaStage::Key { signature } => MetaStageSpec::Key { signature },
            MetaStage::Inputs { signature, key } => MetaStageSpec::Inputs { signature, key: key@ },
            MetaStage::Outputs { signature, key, status, n_in } => MetaStageSpec::Outputs {
                signature,
                key: key@,
                status,
                n_in,
            },
            MetaStage::Tensor { read } => MetaStageSpec::Tensor { read: read@ },
            MetaStage::Type { read, tensor } => MetaStageSpec::Type { read: read@, tensor },
            MetaStage::Name { read } => MetaStageSpec::Name { read: read@ },
        }
    }
}

/// Reads a model's signatures, one call at a time.
pub struct MetadataReader {
    pub model: Handle,
    pub total: usize,
    pub done: Vec<SignatureMeta>,
    pub stage: MetaStage,
}

/// What a [`MetadataReader`] holds.
pub struct ReaderSpec {
    pub model: Handle,
    pub total: usize,
    pub done: Seq<MetaSpec>,
    pub stage: MetaStageSpec,
}

impl View for MetadataReader {
    type V = ReaderSpec;

    open spec fn view(&self) -> ReaderSpec {
        ReaderSpec {
            model: self.model,
            total: self.total,
            done: metas(self.done@),
            stage: self.stage@,
        }
    }
}

/// Where reading stands after a reply.
pub enum MetaNext {
    More(MetadataReader),
    Done(Vec<SignatureMeta>),
    Failed(String),
}

/// What a [`MetaNext`] holds.
pub enum MetaNextSpec {
    More(ReaderSpec),
    Done(Seq<MetaSpec>),
    Failed(Seq<char>),
}

impl View for MetaNext {
    type V = MetaNextSpec;

    open spec fn view(&self) -> MetaNextSpec {
        match *self {
            MetaNext::More(r) => MetaNextSpec::More(r@),
            MetaNext::Done(v) => MetaNextSpec::Done(metas(v@)),
            MetaNext::Failed(e) => MetaNextSpec::Failed(e@),
        }
    }
}

impl ReaderSpec {
    /// Reading starts with the number of signatures.
    pub open spec fn start(model: Handle) -> ReaderSpec {
        ReaderSpec { model, total: 0, done: seq![], stage: MetaStageSpec::Count }
    }

    /// The signatures read so far are in order, and the stage asks for something
    /// that is missing.
    pub open spec fn well_formed(self) -> bool {
        all_well_formed(self.done) && self.stage_well_formed()
    }

    /// The stage asks for something that is missing.
    pub open spec fn stage_well_formed(self) -> bool {
        &&& self.stage is Count ==> self.done.len() == 0
        &&& self.stage !is Count ==> self.done.len() < self.total
        &&& match self.stage {
            MetaStageSpec::Tensor { read } => read.well_formed() && read.lacks_type(),
            MetaStageSpec::Type { read, tensor } => read.well_formed() && read.lacks_type(),
            MetaStageSpec::Name { read } => read.well_formed() && !read.lacks_type()
                && read.lacks_name(),
            _ => true,
        }
    }

    /// The call that comes next.
    pub open spec fn call(self) -> Call {
        match self.stage {
            MetaStageSpec::Count => Call::CountSignatures { model: self.model },
            MetaStageSpec::Signature => Call::Signature {
                model: self.model,
                index: self.done.len() as usize,
            },
            MetaStageSpec::Key { signature } => Call::SignatureKey { signature },
            MetaStageSpec::Inputs { signature, key } => Call::CountArguments {
                signature,
                side: Side::Input,
            },
            MetaStageSpec::Outputs { signature, key, status, n_in } => Call::CountArguments {
                signature,
                side: Side::Output,
            },
            MetaStageSpec::Tensor { read } => Call::Argument {
                signature: read.signature,
                side: read.next_type().0,
                index: read.next_type().1,
            },
            MetaStageSpec::Type { read, tensor } => Call::ArgumentType { tensor },
            MetaStageSpec::Name { read } => Call::ArgumentName {
                signature: read.signature,
                side: read.next_name().0,
                index: read.next_name().1,
            },
        }
    }

    /// The same reader at another stage.
    pub open spec fn at(self, stage: MetaStageSpec) -> ReaderSpec {
        ReaderSpec { stage, ..self }
    }

    /// Goes on with what the signature still lacks; with the next signature
    /// where it lacks nothing; and is done after the last.
    pub open spec fn go_on(self, read: ReadSpec) -> MetaNextSpec {
        if read.lacks_type() {
            MetaNextSpec::More(self.at(MetaStageSpec::Tensor { read }))
        } else if read.lacks_name() {
            MetaNextSpec::More(self.at(MetaStageSpec::Name { read }))
        } else if self.done.len() + 1 < self.total {
            MetaNextSpec::More(
                ReaderSpec {
                    done: self.done.push(read.meta()),
                    stage: MetaStageSpec::Signature,
                    ..self
                },
            )
        } else {
            MetaNextSpec::Done(self.done.push(read.meta()))
        }
    }

    /// Where reading stands after a reply.
    pub open spec fn step(self, r: ReplySpec) -> MetaNextSpec {
        let status = integer(r.status as int);
        let index = integer(self.done.len() as int);
        match self.stage {
            MetaStageSpec::Count => if !r.ok() {
                MetaNextSpec::Failed("LiteRtGetNumModelSignatures status="@ + status)
            } else if r.count == 0 {
                MetaNextSpec::Failed("模型里没有签名"@)
            } else {
                MetaNextSpec::More(
                    ReaderSpec { total: r.count, stage: MetaStageSpec::Signature, ..self },
                )
            },
            MetaStageSpec::Signature => if !r.ok() {
                MetaNextSpec::Failed(
                    "LiteRtGetModelSignature("@ + index + ") status="@ + status,
                )
            } else {
                MetaNextSpec::More(self.at(MetaStageSpec::Key { signature: r.handle }))
            },
            MetaStageSpec::Key { signature } => match r.text {
                Some(key) if r.ok() => MetaNextSpec::More(
                    self.at(MetaStageSpec::Inputs { signature, key }),
                ),
                _ => MetaNextSpec::Failed(
                    "LiteRtGetSignatureKey("@ + index + ") status="@ + status,
                ),
            },
            MetaStageSpec::Inputs { signature, key } => MetaNextSpec::More(
                self.at(
                    MetaStageSpec::Outputs { signature, key, status: r.status, n_in: r.count },
                ),
            ),
            MetaStageSpec::Outputs { signature, key, status: status_in, n_in } => if status_in
                != 0 || !r.ok() {
                MetaNextSpec::Failed(
                    "签名 "@ + key + " 的输入/输出个数取不到: "@ + integer(status_in as int) + "/"@
                        + status,
                )
            } else {
                self.go_on(
                    ReadSpec {
                        signature,
                        key,
                        n_in,
                        n_out: r.count,
                        input_types: seq![],
                        output_types: seq![],
                        input_names: seq![],
                        output_names: seq![],
                    },
                )
            },
            MetaStageSpec::Tensor { read } => if !r.ok() {
                MetaNextSpec::Failed(
                    read.type_error() + ("取第 "@ + integer(read.next_type().1 as int)
                        + " 个张量 status="@ + status),
                )
            } else {
                MetaNextSpec::More(self.at(MetaStageSpec::Type { read, tensor: r.handle }))
            },
            MetaStageSpec::Type { read, tensor } => if !r.ok() {
                MetaNextSpec::Failed(
                    read.type_error() + ("第 "@ + integer(read.next_type().1 as int)
                        + " 个张量的 RankedTensorType status="@ + status),
                )
            } else {
                self.go_on(read.with_type(r.element_type))
            },
            MetaStageSpec::Name { read } => self.go_on(
                read.with_name(
                    if r.ok() {
                        r.text
                    } else {
                        None
                    },
                ),
            ),
        }
    }
}

impl SignatureRead {
    fn next_type(&self) -> (r: (Side, usize))
        ensures
            r == self@.next_type(),
    {
        if self.input_types.len() < self.n_in {
            (Side::Input, self.input_types.len())
        } else {
            (Side::Output, self.output_types.len())
        }
    }

    fn next_name(&self) -> (r: (Side, usize))
        ensures
            r == self@.next_name(),
    {
        if self.input_names.len() < self.n_in {
            (Side::Input, self.input_names.len())
        } else {
            (Side::Output, self.output_names.len())
        }
    }

    fn add_type(&mut self, ty: i32)
        ensures
            final(self)@ == old(self)@.with_type(ty),
    {
        if self.input_types.len() < self.n_in {
            self.input_types.push(ty);
        } else {
            self.output_types.push(ty);
        }
    }

    fn add_name(&mut self, name: Option<String>)
        ensures
            final(self)@ == old(self)@.with_name(super::native::text_of(name)),
    {
        let text = match name {
            Some(t) => t,
            None => String::new(),
        };
        let ghost before = self@;
        if self.input_names.len() < self.n_in {
            self.input_names.push(text);
            assert(texts(self.input_names@) =~= before.input_names.push(text@));
        } else {
            self.output_names.push(text);
            assert(texts(self.output_names@) =~= before.output_names.push(text@));
        }
    }

    fn into_meta(self) -> (r: SignatureMeta)
        requires
            self@.well_formed(),
            !self@.lacks_type(),
            !self@.lacks_name(),
        ensures
            r@ == self@.meta(),
            r@.well_formed(),
    {
        let input_order = argument_order(&self.input_names);
        let output_order = argument_order(&self.output_names);
        proof {
            order_permutes(texts(self.input_names@), input_order@);
            order_permutes(texts(self.output_names@), output_order@);
        }
        SignatureMeta {
            key: self.key,
            input_types: self.input_types,
            output_types: self.output_types,
            input_order,
            output_order,
        }
    }

    fn type_error(&self) -> (r: String)
        ensures
            r@ == self@.type_error(),
    {
        let mut e = String::from_str("签名 ");
        e.append(self.key.as_str());
        if self.input_types.len() < self.n_in {
            e.append(" 的输入类型: ");
        } else {
            e.append(" 的输出类型: ");
        }
        e
    }
}

impl MetadataReader {
    /// Starts reading the signatures of a model.
    pub fn new(model: Handle) -> (r: Self)
        ensures
            r@ == ReaderSpec::start(model),
            r@.well_formed(),
    {
        let r = MetadataReader { model, total: 0, done: Vec::new(), stage: MetaStage::Count };
        assert(r@.done =~= seq![]);
        r
    }

    /// The call that comes next.
    pub fn call(&self) -> (r: Call)
        ensures
            r == self@.call(),
    {
        match &self.stage {
            MetaStage::Count => Call::CountSignatures { model: self.model },
            MetaStage::Signature => Call::Signature { model: self.model, index: self.done.len() },
            MetaStage::Key { signature } => Call::SignatureKey { signature: *signature },
            MetaStage::Inputs { signature, key } => Call::CountArguments {
                signature: *signature,
                side: Side::Input,
            },
            MetaStage::Outputs { signature, key, status, n_in } => Call::CountArguments {
                signature: *signature,
                side: Side::Output,
            },
            MetaStage::Tensor { read } => {
                let (side, index) = read.next_type();
                Call::Argument { signature: read.signature, side, index }
            },
            MetaStage::Type { read, tensor } => Call::ArgumentType { tensor: *tensor },
            MetaStage::Name { read } => {
                let (side, index) = read.next_name();
                Call::ArgumentName { signature: read.signature, side, index }
            },
        }
    }

    fn go_on(model: Handle, total: usize, done: Vec<SignatureMeta>, read: SignatureRead) -> (r:
        MetaNext)
        requires
            all_well_formed(metas(done@)),
            done@.len() < total,
            read@.well_formed(),
        ensures
            r@ == (ReaderSpec { model, total, done: metas(done@), stage: MetaStageSpec::Count }).go_on(
                read@,
            ),
            r@.well_formed(),
    {
        if read.input_types.len() < read.n_in || read.output_types.len() < read.n_out {
            return MetaNext::More(
                MetadataReader { model, total, done, stage: MetaStage::Tensor { read } },
            );
        }
        if read.input_names.len() < read.n_in || read.output_names.len() < read.n_out {
            return MetaNext::More(
                MetadataReader { model, total, done, stage: MetaStage::Name { read } },
            );
        }
        let ghost meta = read@.meta();
        let ghost before = metas(done@);
        let mut done = done;
        done.push(read.into_meta());
        proof {
            assert(metas(done@) =~= before.push(meta));
            assert(all_well_formed(metas(done@)));
        }
        if done.len() < total {
            MetaNext::More(MetadataReader { model, total, done, stage: MetaStage::Signature })
        } else {
            MetaNext::Done(done)
        }
    }

    /// Takes the reply to the call.
    pub fn advance(self, reply: Reply) -> (r: MetaNext)
        requires
            self@.well_formed(),
        ensures
            r@ == self@.step(reply@),
            r@.well_formed(),
    {
        let model: Handle = self.model;
        let total: usize = self.total;
        let index: usize = self.done.len();
        let done = self.done;
        match self.stage {
            MetaStage::Count => {
                if !reply.is_ok() {
                    let mut e = String::from_str("LiteRtGetNumModelSignatures status=");
                    push_i32(&mut e, reply.status);
                    return MetaNext::Failed(e);
                }
                if reply.count == 0 {
                    return MetaNext::Failed(String::from_str("模型里没有签名"));
                }
                MetaNext::More(
                    MetadataReader { model, total: reply.count, done, stage: MetaStage::Signature },
                )
            },
            MetaStage::Signature => {
                if !reply.is_ok() {
                    let mut e = String::from_str("LiteRtGetModelSignature(");
                    push_usize(&mut e, index);
                    e.append(") status=");
                    push_i32(&mut e, reply.status);
                    return MetaNext::Failed(e);
                }
                MetaNext::More(
                    MetadataReader {
                        model,
                        total,
                        done,
                        stage: MetaStage::Key { signature: reply.handle },
                    },
                )
            },
            MetaStage::Key { signature } => {
                if reply.is_ok() {
                    if let Some(key) = reply.text {
                        return MetaNext::More(
                            MetadataReader {
                                model,
                                total,
                                done,
                                stage: MetaStage::Inputs { signature, key },
                            },
                        );
                    }
                }
                let mut e = String::from_str("LiteRtGetSignatureKey(");
                push_usize(&mut e, index);
                e.append(") status=");
                push_i32(&mut e, reply.status);
                MetaNext::Failed(e)
            },
            MetaStage::Inputs { signature, key } => {
                MetaNext::More(
                    MetadataReader {
                        model,
                        total,
                        done,
                        stage: MetaStage::Outputs {
                            signature,
                            key,
                            status: reply.status,
                            n_in: reply.count,
                        },
                    },
                )
            },
            MetaStage::Outputs { signature, key, status, n_in } => {
                if status != 0 || !reply.is_ok() {
                    let mut e = String::from_str("签名 ");
                    e.append(key.as_str());
                    e.append(" 的输入/输出个数取不到: ");
                    push_i32(&mut e, status);
                    e.append("/");
                    push_i32(&mut e, reply.status);
                    return MetaNext::Failed(e);
                }
                let read = SignatureRead {
                    signature,
                    key,
                    n_in,
                    n_out: reply.count,
                    input_types: Vec::new(),
                    output_types: Vec::new(),
                    input_names: Vec::new(),
                    output_names: Vec::new(),
                };
                proof {
                    assert(read@.input_types =~= seq![]);
                    assert(read@.output_types =~= seq![]);
                    assert(read@.input_names =~= seq![]);
                    assert(read@.output_names =~= seq![]);
                }
                Self::go_on(model, total, done, read)
            },
            MetaStage::Tensor { read } => {
                if !reply.is_ok() {
                    let mut e = read.type_error();
                    let mut what = String::from_str("取第 ");
                    push_usize(&mut what, read.next_type().1);
                    what.append(" 个张量 status=");
                    push_i32(&mut what, reply.status);
                    e.append(what.as_str());
                    return MetaNext::Failed(e);
                }
                MetaNext::More(
                    MetadataReader {
                        model,
                        total,
                        done,
                        stage: MetaStage::Type { read, tensor: reply.handle },
                    },
                )
            },
            MetaStage::Type { read, tensor } => {
                if !reply.is_ok() {
                    let mut e = read.type_error();
                    let mut what = String::from_str("第 ");
                    push_usize(&mut what, read.next_type().1);
                    what.append(" 个张量的 RankedTensorType status=");
                    push_i32(&mut what, reply.status);
                    e.append(what.as_str());
                    return MetaNext::Failed(e);
                }
                let mut read = read;
                read.add_type(reply.element_type);
                Self::go_on(model, total, done, read)
            },
            MetaStage::Name { read } => {
                let name = if reply.is_ok() {
                    reply.text
                } else {
                    None
                };
                let mut read = read;
                read.add_name(name);
                Self::go_on(model, total, done, read)
            },
        }
    }
}

impl MetaNextSpec {
    /// Reading may go on, or a model may be built of what was read.
    pub open spec fn well_formed(self) -> bool {
        match self {
            MetaNextSpec::More(s) => s.well_formed(),
            MetaNextSpec::Done(v) => all_well_formed(v),
            MetaNextSpec::Failed(e) => true,
        }
    }
}

/// Reading keeps in order whatever the runtime replies.
pub proof fn reading_stays_well_formed(s: ReaderSpec, r: ReplySpec)
    requires
        s.well_formed(),
    ensures
        s.step(r).well_formed(),
{
    match s.stage {
        MetaStageSpec::Outputs { signature, key, status, n_in } => {
            let read = ReadSpec {
                signature,
                key,
                n_in,
                n_out: r.count,
                input_types: seq![],
                output_types: seq![],
                input_names: seq![],
                output_names: seq![],
            };
            lemma_go_on_well_formed(s, read);
        },
        MetaStageSpec::Type { read, tensor } => {
            lemma_go_on_well_formed(s, read.with_type(r.element_type));
        },
        MetaStageSpec::Name { read } => {
            let name = if r.ok() {
                r.text
            } else {
                None
            };
            lemma_go_on_well_formed(s, read.with_name(name));
        },
        _ => {},
    }
}

proof fn lemma_go_on_well_formed(s: ReaderSpec, read: ReadSpec)
    requires
        all_well_formed(s.done),
        s.done.len() < s.total,
        read.well_formed(),
    ensures
        s.go_on(read).well_formed(),
{
    if !read.lacks_type() && !read.lacks_name() {
        order_exists(read.input_names);
        order_exists(read.output_names);
        order_permutes(read.input_names, order_of(read.input_names));
        order_permutes(read.output_names, order_of(read.output_names));
        assert(read.meta().well_formed());
    }
}

} // verus!
