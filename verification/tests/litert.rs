//! The LiteRT engine against a runtime made of plain values.

use edge_infer::backends::litert::opening::{
    lacks_signature_error, EngineCall, EngineOpening, EngineReply, ModelPaths,
};
use edge_infer::backends::litert::run::Running;
use edge_infer::backends::litert::LiteRtCompiledEngine;
use edge_infer::backends::litert_sys::layout::LiteRtLayout;
use edge_infer::backends::litert_sys::model::CompiledModel;
use edge_infer::backends::litert_sys::native::{Call, Reply, Side};
use edge_infer::backends::litert_sys::opening::Opening;
use edge_infer::{DType, EngineConfig, EngineError, Method, Prefer, Tensor, TensorView};
use std::collections::HashMap;
use std::path::Path;

const FLOAT: i32 = 1;
const INT: i32 = 2;

#[derive(Clone)]
struct Argument {
    name: &'static str,
    element_type: i32,
    dims: Vec<i32>,
}

#[derive(Clone)]
struct Sig {
    key: &'static str,
    inputs: Vec<Argument>,
    outputs: Vec<Argument>,
}

fn arg(name: &'static str, element_type: i32, dims: &[i32]) -> Argument {
    Argument { name, element_type, dims: dims.to_vec() }
}

/// A runtime. Everything it gives out is a number; what lives is listed, and
/// buffers have bytes.
struct Fake {
    next: usize,
    live: Vec<(&'static str, usize)>,
    models: HashMap<usize, Vec<Sig>>,
    compiled_of: HashMap<usize, usize>,
    files: Vec<Vec<Sig>>,
    memory: HashMap<usize, Vec<u8>>,
    locked: Option<usize>,
    log: Vec<Call>,
    accelerators: i32,
    gpu_status: i32,
    /// The call, counted from 0, that fails with status 7.
    fail_at: Option<usize>,
    invoke_status: i32,
    lock_fails: bool,
    cleared: Vec<usize>,
}

const LOCK_BASE: usize = 1_000_000;

impl Fake {
    fn new(files: Vec<Vec<Sig>>) -> Fake {
        Fake {
            next: 100,
            live: Vec::new(),
            models: HashMap::new(),
            compiled_of: HashMap::new(),
            files,
            memory: HashMap::new(),
            locked: None,
            log: Vec::new(),
            accelerators: 0,
            gpu_status: 0,
            fail_at: None,
            invoke_status: 0,
            lock_fails: false,
            cleared: Vec::new(),
        }
    }

    fn make(&mut self, kind: &'static str) -> usize {
        self.next += 1;
        self.live.push((kind, self.next));
        self.next
    }

    fn destroy(&mut self, kind: &'static str, handle: usize) {
        let at = self.live.iter().position(|&x| x == (kind, handle));
        match at {
            Some(i) => {
                self.live.remove(i);
            }
            None => panic!("{kind} {handle} is not alive"),
        }
    }

    fn sig_of(&self, signature: usize) -> Sig {
        self.models[&(signature / 1000)][signature % 1000].clone()
    }

    fn arguments(sig: &Sig, side: Side) -> &Vec<Argument> {
        match side {
            Side::Input => &sig.inputs,
            Side::Output => &sig.outputs,
        }
    }

    fn layout(a: &Argument) -> LiteRtLayout {
        LiteRtLayout::from_dims(&a.dims)
    }

    fn answer(&mut self, call: Call, bytes: Option<&[u8]>, io: Option<(Vec<usize>, Vec<usize>)>) -> Reply {
        let count = self.log.len();
        self.log.push(call);
        let mut r = Reply::of_status(0);
        if self.fail_at == Some(count) {
            if matches!(call, Call::Unlock { .. }) {
                self.locked = None;
            }
            r.status = 7;
            return r;
        }
        match call {
            Call::Environment => r.handle = 1,
            Call::CreateModel { environment } => {
                assert_eq!(environment, 1);
                r.handle = self.make("model");
                let sigs = self.files.remove(0);
                self.models.insert(r.handle, sigs);
            }
            Call::DestroyModel { model } => self.destroy("model", model),
            Call::CountSignatures { model } => r.count = self.models[&model].len(),
            Call::Signature { model, index } => r.handle = model * 1000 + index,
            Call::SignatureKey { signature } => r.text = Some(self.sig_of(signature).key.to_string()),
            Call::CountArguments { signature, side } => {
                r.count = Fake::arguments(&self.sig_of(signature), side).len()
            }
            Call::Argument { signature, side, index } => {
                let offset = if side == Side::Input { 0 } else { 500 };
                r.handle = signature * 1000 + offset + index
            }
            Call::ArgumentType { tensor } => {
                let sig = self.sig_of(tensor / 1000);
                let i = tensor % 1000;
                r.element_type = if i >= 500 {
                    sig.outputs[i - 500].element_type
                } else {
                    sig.inputs[i].element_type
                };
            }
            Call::ArgumentName { signature, side, index } => {
                r.text = Some(Fake::arguments(&self.sig_of(signature), side)[index].name.to_string())
            }
            Call::CreateOptions => r.handle = self.make("options"),
            Call::SetAccelerators { options, accelerators } => {
                assert!(self.live.contains(&("options", options)));
                self.accelerators = accelerators;
            }
            Call::CreateCpuOptions { num_threads } => {
                assert!(num_threads > 0);
                r.handle = 55;
            }
            Call::AddCpuOptions { options, cpu_options } => {
                assert!(self.live.contains(&("options", options)));
                assert_eq!(cpu_options, 55);
            }
            Call::Compile { environment, model, options } => {
                assert_eq!(environment, 1);
                assert!(self.live.contains(&("model", model)));
                assert!(self.live.contains(&("options", options)));
                if self.accelerators == 3 && self.gpu_status != 0 {
                    r.status = self.gpu_status;
                } else {
                    r.handle = self.make("compiled");
                    self.compiled_of.insert(r.handle, model);
                }
            }
            Call::DestroyOptions { options } => self.destroy("options", options),
            Call::DestroyCompiled { compiled } => self.destroy("compiled", compiled),
            Call::InputLayout { compiled, sig, index } => {
                let s = self.models[&self.compiled_of[&compiled]][sig].clone();
                r.layouts = vec![Fake::layout(&s.inputs[index])];
            }
            Call::OutputLayouts { compiled, sig, count } => {
                let s = self.models[&self.compiled_of[&compiled]][sig].clone();
                assert_eq!(count, s.outputs.len());
                r.layouts = s.outputs.iter().map(Fake::layout).collect();
            }
            Call::Requirements { compiled, sig, side, index } => {
                let s = self.models[&self.compiled_of[&compiled]][sig].clone();
                let a = &Fake::arguments(&s, side)[index];
                let n: i32 = a.dims.iter().product();
                r.handle = 10_000 + (n as usize) * 4;
            }
            Call::CreateBuffer { environment, tensor_type, requirements } => {
                assert_eq!(environment, 1);
                let n: i32 = tensor_type.layout.dims().iter().product();
                assert_eq!(requirements, 10_000 + (n as usize) * 4);
                r.handle = self.make("buffer");
                self.memory.insert(r.handle, vec![0xEE; (n as usize) * 4]);
            }
            Call::BufferSize { requirements } => r.count = requirements - 10_000,
            Call::DestroyBuffer { buffer } => self.destroy("buffer", buffer),
            Call::Lock { buffer, .. } => {
                assert!(self.live.contains(&("buffer", buffer)));
                assert_eq!(self.locked, None);
                if self.lock_fails {
                    r.status = 3;
                } else {
                    self.locked = Some(buffer);
                    r.handle = LOCK_BASE + buffer;
                }
            }
            Call::Clear { address, size } => {
                let b = address - LOCK_BASE;
                assert_eq!(self.locked, Some(b));
                assert_eq!(self.memory[&b].len(), size);
                self.memory.insert(b, vec![0; size]);
                self.cleared.push(b);
            }
            Call::Write { address } => {
                let b = address - LOCK_BASE;
                assert_eq!(self.locked, Some(b));
                let data = bytes.expect("bytes to write").to_vec();
                assert_eq!(data.len(), self.memory[&b].len());
                self.memory.insert(b, data);
            }
            Call::Read { address, len } => {
                let b = address - LOCK_BASE;
                assert_eq!(self.locked, Some(b));
                r.bytes = self.memory[&b][..len].to_vec();
            }
            Call::Unlock { buffer } => {
                assert_eq!(self.locked, Some(buffer));
                self.locked = None;
            }
            Call::Invoke { .. } => {
                assert_eq!(self.locked, None);
                r.status = self.invoke_status;
                if self.invoke_status == 0 {
                    let (ins, outs) = io.expect("buffers");
                    self.compute(&ins, &outs);
                }
            }
            _ => panic!("{call:?} was not expected"),
        }
        r
    }

    /// Word `j` of output `k` is the sum of the words `j` of all inputs, plus
    /// `k + 1`.
    fn compute(&mut self, ins: &[usize], outs: &[usize]) {
        for (k, o) in outs.iter().enumerate() {
            let n = self.memory[o].len() / 4;
            let mut bytes = Vec::new();
            for j in 0..n {
                let mut sum = k as u32 + 1;
                for i in ins {
                    if let Some(w) = words(&self.memory[i]).get(j) {
                        sum = sum.wrapping_add(*w);
                    }
                }
                bytes.extend_from_slice(&sum.to_ne_bytes());
            }
            self.memory.insert(*o, bytes);
        }
    }
}

fn words(bytes: &[u8]) -> Vec<u32> {
    bytes.chunks(4).map(|c| u32::from_ne_bytes([c[0], c[1], c[2], c[3]])).collect()
}

fn open_model(fake: &mut Fake, want_gpu: bool, num_threads: i32) -> Result<CompiledModel, String> {
    let mut s = CompiledModel::new(&[1, 2, 3], want_gpu, num_threads);
    loop {
        match s.call() {
            Some(call) => {
                assert_eq!(s.model_bytes(), Some(&[1u8, 2, 3][..]));
                let reply = fake.answer(call, None, None);
                s = s.advance(reply);
            }
            None => match s {
                Opening::Opened { model } => return Ok(model),
                Opening::Failed { error } => return Err(error),
                Opening::Working { .. } => unreachable!(),
            },
        }
    }
}

fn finish(fake: &mut Fake, start: EngineOpening, files: &HashMap<String, Result<Vec<u8>, String>>) -> Result<LiteRtCompiledEngine, EngineError> {
    let mut s = start;
    loop {
        let reply = match s.call() {
            Some(EngineCall::ReadFile { path }) => EngineReply::File(files[&path].clone()),
            Some(EngineCall::Native(call)) => EngineReply::Native(fake.answer(call, None, None)),
            None => match s {
                EngineOpening::Opened { engine } => return Ok(engine),
                EngineOpening::Failed { error } => return Err(error),
                _ => unreachable!(),
            },
        };
        s = s.advance(reply);
    }
}

fn run(fake: &mut Fake, engine: &mut LiteRtCompiledEngine, method: Method, inputs: &[TensorView<'_>]) -> Result<Vec<Tensor>, EngineError> {
    assert!(engine.inputs_fit(method, inputs.len()));
    let mut s: Running = engine.run(method, inputs);
    while let Some(call) = s.call() {
        if matches!(call, Call::Invoke { .. }) {
            assert!(s.outputs_fit());
        }
        let reply = fake.answer(call, s.pending_bytes(), s.io_buffers());
        s = s.advance(reply);
    }
    assert_eq!(fake.locked, None);
    engine.finish_run(s)
}

fn detector() -> Vec<Sig> {
    vec![Sig {
        key: "anything",
        inputs: vec![arg("args_0", FLOAT, &[1, 2])],
        outputs: vec![arg("output_0", FLOAT, &[2]), arg("output_1", INT, &[1])],
    }]
}

fn single(fake: &mut Fake, cfg: &EngineConfig) -> Result<LiteRtCompiledEngine, EngineError> {
    let files = HashMap::new();
    finish(fake, LiteRtCompiledEngine::open_bytes(&[9, 9], cfg), &files)
}

/// An encoder with one output, and a decoder whose two signatures pass a cache.
fn recognition() -> Vec<Vec<Sig>> {
    vec![
        vec![Sig {
            key: "serving",
            inputs: vec![arg("args_0", FLOAT, &[2])],
            outputs: vec![arg("output_0", FLOAT, &[3])],
        }],
        vec![
            Sig {
                key: "decode",
                inputs: vec![arg("args_0", INT, &[1]), arg("args_1", FLOAT, &[4])],
                outputs: vec![arg("output_0", FLOAT, &[2]), arg("output_1", FLOAT, &[4])],
            },
            Sig {
                key: "prefill",
                inputs: vec![arg("args_0", FLOAT, &[3])],
                outputs: vec![arg("output_0", FLOAT, &[4])],
            },
        ],
    ]
}

fn file(name: &str) -> String {
    Path::new("/m").join(name).display().to_string()
}

fn recognition_files() -> HashMap<String, Result<Vec<u8>, String>> {
    let mut files = HashMap::new();
    files.insert(file("prefix_enc.tflite"), Ok(vec![1]));
    files.insert(file("decoder.tflite"), Ok(vec![2]));
    files
}

fn recognition_config() -> EngineConfig {
    EngineConfig { model_dir: "/m".to_string(), num_threads: 4, prefer: Prefer::Auto }
}

fn recognition_engine(fake: &mut Fake) -> LiteRtCompiledEngine {
    let cfg = recognition_config();
    match finish(fake, LiteRtCompiledEngine::open(&cfg), &recognition_files()) {
        Ok(engine) => engine,
        Err(e) => panic!("{}", e.message()),
    }
}

fn floats(t: &Tensor) -> Vec<u32> {
    t.as_f32_bits().unwrap()
}

#[test]
fn model_opens_with_what_the_runtime_says() {
    let mut fake = Fake::new(vec![recognition().remove(1)]);
    let m = open_model(&mut fake, false, 0).unwrap();
    assert!(!m.on_gpu);
    assert_eq!(m.signature_keys(), vec!["decode", "prefill"]);
    assert_eq!(m.signature_index(Some("prefill")), Some(1));
    assert_eq!(m.signature_index(Some("decode")), Some(0));
    assert_eq!(m.signature_index(Some("step")), None);
    assert_eq!(m.signature_index(None), None);
    assert_eq!(m.input_shape(0, 1), vec![4]);
    assert_eq!(m.input_shape(0, 2), Vec::<i32>::new());
    assert_eq!(m.output_shape(1, 0), vec![4]);
    assert_eq!(m.output_count(0), 2);
    assert_eq!(m.output_count(2), 0);
    assert_eq!(m.input_bytes(0, 1), 16);
    assert_eq!(m.output_bytes(0, 0), 8);
    assert_eq!(m.output_bytes(0, 9), 0);
    assert_eq!(m.output_type(0, 0), FLOAT);
    assert_eq!(m.output_type(5, 0), FLOAT);
    assert_eq!(
        m.describe(0),
        "key=decode in=[[1], [4]]/[2, 1] out=[[2], [4]]/[1, 1]"
    );
    assert_eq!(m.describe(2), "签名 2 不存在");
    assert!(fake.live.iter().all(|x| x.0 != "options"));
    // Every buffer was cleared before use.
    assert_eq!(fake.cleared.len(), 6);
    assert!(fake.memory.values().all(|b| b.iter().all(|&x| x == 0)));
}

#[test]
fn threads_are_set_only_where_wanted() {
    for threads in [0, -1, 4] {
        let mut fake = Fake::new(vec![detector()]);
        assert!(open_model(&mut fake, false, threads).is_ok());
        let asked = fake.log.iter().any(|c| matches!(c, Call::CreateCpuOptions { num_threads: 4 }));
        assert_eq!(asked, threads == 4);
        assert_eq!(fake.accelerators, 1);
    }
}

#[test]
fn gpu_is_used_where_wanted() {
    let mut fake = Fake::new(vec![detector()]);
    let m = open_model(&mut fake, true, 0).unwrap();
    assert!(m.on_gpu);
    assert_eq!(fake.accelerators, 3);
}

#[test]
fn cpu_takes_over_from_the_gpu() {
    let mut fake = Fake::new(vec![detector()]);
    fake.gpu_status = 5;
    let m = open_model(&mut fake, true, 0).unwrap();
    assert!(!m.on_gpu);
    assert_eq!(fake.accelerators, 1);
    for call in m.release() {
        fake.answer(call, None, None);
    }
    assert_eq!(fake.live, vec![]);
}

#[test]
fn both_failures_are_reported() {
    let mut fake = Fake::new(vec![detector()]);
    fake.gpu_status = 5;
    // The GPU build takes four calls after the signatures are read; the options
    // of the CPU build fail.
    let mut probe = Fake::new(vec![detector()]);
    probe.gpu_status = 5;
    open_model(&mut probe, true, 0).unwrap();
    let second = probe
        .log
        .iter()
        .enumerate()
        .filter(|(_, c)| matches!(c, Call::CreateOptions))
        .map(|(i, _)| i)
        .nth(1)
        .unwrap();
    fake.fail_at = Some(second);
    let e = open_model(&mut fake, true, 0).err().unwrap();
    assert_eq!(
        e,
        "GPU 与 CPU 都失败: LiteRtCreateCompiledModel status=5 / LiteRtCreateOptions status=7"
    );
    assert_eq!(fake.live, vec![]);
}

#[test]
fn failing_anywhere_leaves_nothing_alive() {
    let mut probe = Fake::new(vec![recognition().remove(1)]);
    open_model(&mut probe, false, 4).unwrap();
    let mut failed = 0;
    for k in 0..probe.log.len() {
        let mut fake = Fake::new(vec![recognition().remove(1)]);
        fake.fail_at = Some(k);
        match open_model(&mut fake, false, 4) {
            Ok(m) => {
                for call in m.release() {
                    fake.answer(call, None, None);
                }
            }
            Err(_) => failed += 1,
        }
        // A destroy that was answered by an error is not counted as done.
        let spared = match probe.log[k] {
            Call::DestroyOptions { .. } => 1,
            _ => 0,
        };
        assert_eq!(fake.live.len(), spared, "call {k}: {:?}", probe.log[k]);
    }
    assert!(failed > 20);
}

#[test]
fn opening_errors_name_the_call() {
    let cases: Vec<(fn(&Call) -> bool, &str)> = vec![
        (|c| matches!(c, Call::Environment), "LiteRtCreateEnvironment 失败"),
        (|c| matches!(c, Call::CreateModel { .. }), "LiteRtCreateModelFromBuffer status=7"),
        (|c| matches!(c, Call::CountSignatures { .. }), "LiteRtGetNumModelSignatures status=7"),
        (|c| matches!(c, Call::Signature { .. }), "LiteRtGetModelSignature(0) status=7"),
        (|c| matches!(c, Call::SignatureKey { .. }), "LiteRtGetSignatureKey(0) status=7"),
        (
            |c| matches!(c, Call::CountArguments { side: Side::Input, .. }),
            "签名 anything 的输入/输出个数取不到: 7/0",
        ),
        (
            |c| matches!(c, Call::CountArguments { side: Side::Output, .. }),
            "签名 anything 的输入/输出个数取不到: 0/7",
        ),
        (
            |c| matches!(c, Call::Argument { side: Side::Input, .. }),
            "签名 anything 的输入类型: 取第 0 个张量 status=7",
        ),
        (
            |c| matches!(c, Call::Argument { side: Side::Output, index: 1, .. }),
            "签名 anything 的输出类型: 取第 1 个张量 status=7",
        ),
        (
            |c| matches!(c, Call::ArgumentType { .. }),
            "签名 anything 的输入类型: 第 0 个张量的 RankedTensorType status=7",
        ),
        (|c| matches!(c, Call::CreateOptions), "LiteRtCreateOptions status=7"),
        (|c| matches!(c, Call::Compile { .. }), "LiteRtCreateCompiledModel status=7"),
        (
            |c| matches!(c, Call::InputLayout { .. }),
            "LiteRtGetCompiledModelInputTensorLayout(0,0) status=7",
        ),
        (
            |c| matches!(c, Call::OutputLayouts { .. }),
            "LiteRtGetCompiledModelOutputTensorLayouts(0) status=7",
        ),
        (|c| matches!(c, Call::Requirements { .. }), "取第 0 个张量的缓冲需求 status=7"),
        (
            |c| matches!(c, Call::CreateBuffer { .. }),
            "LiteRtCreateManagedTensorBufferFromRequirements(第 0 个) status=7",
        ),
    ];
    let mut probe = Fake::new(vec![detector()]);
    open_model(&mut probe, false, 0).unwrap();
    for (is, want) in cases {
        let k = probe.log.iter().position(is).unwrap();
        let mut fake = Fake::new(vec![detector()]);
        fake.fail_at = Some(k);
        assert_eq!(open_model(&mut fake, false, 0).err().unwrap(), want);
    }
}

#[test]
fn arguments_come_in_the_order_of_their_numbers() {
    // The runtime sorts names as text, so that args_10 comes before args_2.
    let names = ["args_0", "args_1", "args_10", "args_2", "args_3", "args_4", "args_5", "args_6",
        "args_7", "args_8", "args_9"];
    let inputs = names
        .iter()
        .map(|&n| arg(n, FLOAT, &[n[5..].parse::<i32>().unwrap() + 1]))
        .collect();
    let sigs = vec![Sig { key: "k", inputs, outputs: vec![arg("output_0", INT, &[1])] }];
    let mut fake = Fake::new(vec![sigs]);
    let m = open_model(&mut fake, false, 0).unwrap();
    for i in 0..names.len() {
        assert_eq!(m.input_shape(0, i), vec![i as i32 + 1]);
    }
}

#[test]
fn nameless_arguments_keep_the_order_of_the_runtime() {
    let sigs = vec![Sig {
        key: "k",
        inputs: vec![arg("b_1", FLOAT, &[1]), arg("a_0", FLOAT, &[2])],
        outputs: vec![],
    }];
    let mut probe = Fake::new(vec![sigs.clone()]);
    let m = open_model(&mut probe, false, 0).unwrap();
    assert_eq!(m.input_shape(0, 0), vec![2]);
    // Without one of the names the numbers are not used.
    let k = probe.log.iter().position(|c| matches!(c, Call::ArgumentName { .. })).unwrap();
    let mut fake = Fake::new(vec![sigs]);
    fake.fail_at = Some(k);
    let m = open_model(&mut fake, false, 0).unwrap();
    assert_eq!(m.input_shape(0, 0), vec![1]);
}

#[test]
fn single_model_engine_runs() {
    let mut fake = Fake::new(vec![detector()]);
    let cfg = EngineConfig { model_dir: String::new(), num_threads: 0, prefer: Prefer::LiteRtGpu };
    let mut e = single(&mut fake, &cfg).ok().unwrap();
    assert_eq!(e.backend_name(), "litert-gpu");
    assert!(e.has_method(Method::PrefixEnc));
    assert!(!e.has_method(Method::Prefill));
    assert!(!e.has_method(Method::Step));
    assert_eq!(e.output_shape(Method::PrefixEnc, 0), Some(vec![2]));
    assert_eq!(e.output_shape(Method::PrefixEnc, 7), Some(vec![]));
    assert_eq!(e.output_shape(Method::Step, 0), None);
    let data = [10u32, 20];
    let outs = run(&mut fake, &mut e, Method::PrefixEnc, &[TensorView::f32_bits(&[1, 2], &data)])
        .ok()
        .unwrap();
    assert_eq!(outs.len(), 2);
    assert_eq!(outs[0].dtype, DType::F32);
    assert_eq!(outs[0].shape, vec![2]);
    assert_eq!(floats(&outs[0]), vec![11, 21]);
    assert_eq!(outs[1].dtype, DType::I32);
    assert_eq!(outs[1].data, 12u32.to_ne_bytes().to_vec());
    assert!(outs[1].as_f32_bits().is_none());
    for call in e.release() {
        fake.answer(call, None, None);
    }
    assert_eq!(fake.live, vec![]);
}

#[test]
fn cpu_engine_says_so() {
    let mut fake = Fake::new(vec![detector()]);
    let e = single(&mut fake, &EngineConfig::default()).ok().unwrap();
    assert_eq!(e.backend_name(), "litert-xnnpack");
    assert_eq!(fake.accelerators, 1);
}

#[test]
fn inputs_are_cut_and_filled() {
    let mut fake = Fake::new(vec![detector()]);
    let mut e = single(&mut fake, &EngineConfig::default()).ok().unwrap();
    let long = [1u32, 2, 3, 4];
    let outs = run(&mut fake, &mut e, Method::PrefixEnc, &[TensorView::f32_bits(&[4], &long)]).ok().unwrap();
    assert_eq!(floats(&outs[0]), vec![2, 3]);
    let short = [5u32];
    let outs = run(&mut fake, &mut e, Method::PrefixEnc, &[TensorView::f32_bits(&[1], &short)]).ok().unwrap();
    assert_eq!(floats(&outs[0]), vec![6, 1]);
    // Tensors beyond the inputs are ignored; an input that is not given stays.
    let data = [7i32, 8];
    let view = TensorView::i32(&[2], &data);
    let outs = run(&mut fake, &mut e, Method::PrefixEnc, &[view, view, view]).ok().unwrap();
    assert_eq!(floats(&outs[0]), vec![8, 9]);
    let outs = run(&mut fake, &mut e, Method::PrefixEnc, &[]).ok().unwrap();
    assert_eq!(floats(&outs[0]), vec![8, 9]);
}

#[test]
fn unknown_method_is_refused() {
    let mut fake = Fake::new(vec![detector()]);
    let mut e = single(&mut fake, &EngineConfig::default()).ok().unwrap();
    let r = run(&mut fake, &mut e, Method::Step, &[]);
    assert!(matches!(r, Err(EngineError::MethodNotFound(Method::Step))));
}

#[test]
fn model_without_signatures_does_not_open() {
    let mut fake = Fake::new(vec![vec![]]);
    let message = single(&mut fake, &EngineConfig::default()).err().unwrap().message();
    assert_eq!(message, "模型加载失败: 模型里没有签名");
    assert_eq!(fake.live, vec![]);
}

#[test]
fn signature_out_of_range_is_reported() {
    let mut fake = Fake::new(vec![detector()]);
    let mut e = single(&mut fake, &EngineConfig::default()).ok().unwrap();
    e.routes.prefix_enc = Some((0, 9));
    let message = run(&mut fake, &mut e, Method::PrefixEnc, &[]).err().unwrap().message();
    assert_eq!(message, "PrefixEnc 执行失败 (code=-1): 签名下标越界: 9");
}

#[test]
fn failed_invocation_is_reported() {
    let mut fake = Fake::new(vec![detector()]);
    let mut e = single(&mut fake, &EngineConfig::default()).ok().unwrap();
    fake.invoke_status = 12;
    match run(&mut fake, &mut e, Method::PrefixEnc, &[]) {
        Err(EngineError::Execute { method, code, msg }) => {
            assert_eq!(method, Method::PrefixEnc);
            assert_eq!(code, 12);
            assert_eq!(msg, "LiteRtRunCompiledModel status=12");
        }
        _ => panic!("the run should fail"),
    }
    fake.invoke_status = -3;
    let message = run(&mut fake, &mut e, Method::PrefixEnc, &[]).err().unwrap().message();
    assert_eq!(message, "PrefixEnc 执行失败 (code=-3): LiteRtRunCompiledModel status=-3");
}

#[test]
fn buffers_that_cannot_be_locked_are_passed_over() {
    let mut fake = Fake::new(vec![detector()]);
    let mut e = single(&mut fake, &EngineConfig::default()).ok().unwrap();
    fake.lock_fails = true;
    let data = [10u32, 20];
    let outs = run(&mut fake, &mut e, Method::PrefixEnc, &[TensorView::f32_bits(&[2], &data)]).ok().unwrap();
    assert_eq!(floats(&outs[0]), vec![0, 0]);
    assert_eq!(outs[1].data, vec![0, 0, 0, 0]);
}

#[test]
fn recognition_opens_from_a_directory() {
    let mut fake = Fake::new(recognition());
    let e = recognition_engine(&mut fake);
    assert_eq!(e.backend_name(), "litert-gpu");
    assert!(e.has_method(Method::PrefixEnc));
    assert!(e.has_method(Method::Prefill));
    assert!(e.has_method(Method::Step));
    assert_eq!(e.output_shape(Method::Prefill, 0), Some(vec![4]));
    assert_eq!(e.output_shape(Method::Step, 0), Some(vec![2]));
    for call in e.release() {
        fake.answer(call, None, None);
    }
    assert_eq!(fake.live, vec![]);
}

#[test]
fn files_lie_in_the_directory() {
    for dir in ["/m", "/m/", "", "models"] {
        let cfg = EngineConfig { model_dir: dir.to_string(), ..recognition_config() };
        let want = Path::new(dir).join("prefix_enc.tflite").display().to_string();
        match LiteRtCompiledEngine::open(&cfg).call() {
            Some(EngineCall::ReadFile { path }) => assert_eq!(path, want),
            _ => panic!("the encoder's file comes first"),
        }
    }
    let paths = ModelPaths { encoder: "a.bin".to_string(), decoder: "b.bin".to_string() };
    let opening = LiteRtCompiledEngine::open_files(paths, 2);
    assert!(matches!(opening.call(), Some(EngineCall::ReadFile { path }) if path == "a.bin"));
}

#[test]
fn missing_files_are_reported() {
    let cfg = recognition_config();
    let mut fake = Fake::new(recognition());
    let mut files = recognition_files();
    files.insert(file("prefix_enc.tflite"), Err("no such file".to_string()));
    let e = finish(&mut fake, LiteRtCompiledEngine::open(&cfg), &files).err().unwrap();
    assert_eq!(
        e.message(),
        format!("模型加载失败: {}: no such file", file("prefix_enc.tflite"))
    );

    let mut fake = Fake::new(recognition());
    let mut files = recognition_files();
    files.insert(file("decoder.tflite"), Err("denied".to_string()));
    let e = finish(&mut fake, LiteRtCompiledEngine::open(&cfg), &files).err().unwrap();
    assert_eq!(e.message(), format!("模型加载失败: {}: denied", file("decoder.tflite")));
    assert_eq!(fake.live, vec![]);
}

#[test]
fn missing_signatures_are_reported() {
    let cfg = recognition_config();
    let mut models = recognition();
    models[1][1].key = "pre\"fill";
    let mut fake = Fake::new(models);
    let e = finish(&mut fake, LiteRtCompiledEngine::open(&cfg), &recognition_files()).err().unwrap();
    assert_eq!(
        e.message(),
        format!(
            "模型加载失败: {} 里没有签名 prefill（有的是 [\"decode\", \"pre\\\"fill\"]）",
            file("decoder.tflite")
        )
    );
    assert_eq!(fake.live, vec![]);

    let mut models = recognition();
    models[1][0].key = "step";
    let mut fake = Fake::new(models);
    let e = finish(&mut fake, LiteRtCompiledEngine::open(&cfg), &recognition_files()).err().unwrap();
    assert_eq!(
        e.message(),
        format!(
            "模型加载失败: {} 里没有签名 decode（有的是 [\"step\", \"prefill\"]）",
            file("decoder.tflite")
        )
    );
    assert_eq!(fake.live, vec![]);
}

#[test]
fn failed_decoder_gives_the_encoder_back() {
    let cfg = recognition_config();
    let mut probe = Fake::new(recognition());
    recognition_engine(&mut probe);
    let second = probe
        .log
        .iter()
        .enumerate()
        .filter(|(_, c)| matches!(c, Call::CreateModel { .. }))
        .map(|(i, _)| i)
        .nth(1)
        .unwrap();
    let mut fake = Fake::new(recognition());
    fake.fail_at = Some(second);
    let e = finish(&mut fake, LiteRtCompiledEngine::open(&cfg), &recognition_files()).err().unwrap();
    assert_eq!(e.message(), "模型加载失败: LiteRtCreateModelFromBuffer status=7");
    assert_eq!(fake.live, vec![]);
}

#[test]
fn feedback_needs_matching_tensors() {
    let mut fake = Fake::new(recognition());
    let mut e = recognition_engine(&mut fake);
    // Shapes differ, indices are out of range, the method is not there.
    assert!(!e.feed_output_back(Method::Step, 0, 1));
    assert!(!e.feed_output_back(Method::Step, 2, 1));
    assert!(!e.feed_output_back(Method::Step, 1, 5));
    assert!(e.feed_output_back(Method::Step, 1, 1));

    // Equal shapes of different element types do not do.
    let sigs = vec![Sig {
        key: "k",
        inputs: vec![arg("args_0", INT, &[2])],
        outputs: vec![arg("output_0", FLOAT, &[2])],
    }];
    let mut fake = Fake::new(vec![sigs]);
    let mut e = single(&mut fake, &EngineConfig::default()).ok().unwrap();
    assert!(!e.feed_output_back(Method::PrefixEnc, 0, 0));
    assert!(!e.feed_output_back(Method::Prefill, 0, 0));
}

#[test]
fn feedback_skips_copies_from_the_second_call_on() {
    let mut fake = Fake::new(recognition());
    let mut e = recognition_engine(&mut fake);
    assert!(e.feed_output_back(Method::Step, 1, 1));
    let cache = [1u32, 2, 3, 4];
    let other = [100u32, 100, 100, 100];
    let token = [10i32];
    let token_view = TensorView::i32(&[1], &token);
    // The first call takes the caller's cache.
    let outs = run(&mut fake, &mut e, Method::Step, &[token_view, TensorView::f32_bits(&[4], &cache)]).ok().unwrap();
    assert_eq!(floats(&outs[0]), vec![12, 3]);
    // The cache that it computed stays where it is: [13, 4, 5, 6].
    assert_eq!(outs[1].shape, vec![0]);
    assert_eq!(outs[1].data, vec![]);
    // The second uses it and ignores what the caller gives.
    let outs = run(&mut fake, &mut e, Method::Step, &[token_view, TensorView::f32_bits(&[4], &other)]).ok().unwrap();
    assert_eq!(floats(&outs[0]), vec![24, 5]);
    let outs = run(&mut fake, &mut e, Method::Step, &[token_view]).ok().unwrap();
    assert_eq!(floats(&outs[0]), vec![36, 7]);
    // Registering again starts a new round.
    assert!(e.feed_output_back(Method::Step, 1, 1));
    let outs = run(&mut fake, &mut e, Method::Step, &[token_view, TensorView::f32_bits(&[4], &cache)]).ok().unwrap();
    assert_eq!(floats(&outs[0]), vec![12, 3]);
    // Buffers have moved about; all of them are freed, each once.
    for call in e.release() {
        fake.answer(call, None, None);
    }
    assert_eq!(fake.live, vec![]);
}

#[test]
fn linked_outputs_are_never_returned() {
    let mut fake = Fake::new(recognition());
    let mut e = recognition_engine(&mut fake);
    assert!(e.feed_output_back(Method::Step, 1, 1));
    let token = [10i32];
    let inputs = [TensorView::i32(&[1], &token)];
    for round in 0..4 {
        if round == 2 {
            // Other links and failed runs change nothing of it.
            assert!(e.pipe_output(Method::Prefill, 0, Method::Step, 1));
            fake.invoke_status = 9;
            assert!(run(&mut fake, &mut e, Method::Step, &inputs).is_err());
            fake.invoke_status = 0;
        }
        let outs = run(&mut fake, &mut e, Method::Step, &inputs).ok().unwrap();
        assert_eq!(outs.len(), 2);
        assert_eq!(outs[0].shape, vec![2]);
        assert_eq!(outs[1].shape, vec![0]);
        assert_eq!(outs[1].dtype, DType::F32);
        assert_eq!(outs[1].data, vec![]);
    }
}

#[test]
fn pipes_hand_outputs_over() {
    let mut fake = Fake::new(recognition());
    let mut e = recognition_engine(&mut fake);
    // Between models, and between signatures of one model.
    assert!(e.pipe_output(Method::PrefixEnc, 0, Method::Prefill, 0));
    assert!(e.pipe_output(Method::Prefill, 0, Method::Step, 1));
    assert!(e.feed_output_back(Method::Step, 1, 1));
    let strokes = [1u32, 2];
    let outs = run(&mut fake, &mut e, Method::PrefixEnc, &[TensorView::f32_bits(&[2], &strokes)]).ok().unwrap();
    assert_eq!(outs[0].shape, vec![0]);
    // The encoder's output is [2, 3, 1].
    let junk = [9u32, 9, 9];
    let outs = run(&mut fake, &mut e, Method::Prefill, &[TensorView::f32_bits(&[3], &junk)]).ok().unwrap();
    assert_eq!(outs[0].shape, vec![0]);
    // The cache is [3, 4, 2, 1].
    let token = [10i32];
    let junk = [9u32, 9, 9, 9];
    let inputs = [TensorView::i32(&[1], &token), TensorView::f32_bits(&[4], &junk)];
    let outs = run(&mut fake, &mut e, Method::Step, &inputs).ok().unwrap();
    assert_eq!(floats(&outs[0]), vec![14, 5]);
    // The next cache is [15, 6, 4, 3].
    let outs = run(&mut fake, &mut e, Method::Step, &inputs).ok().unwrap();
    assert_eq!(floats(&outs[0]), vec![26, 7]);
    for call in e.release() {
        fake.answer(call, None, None);
    }
    assert_eq!(fake.live, vec![]);
}

#[test]
fn pipes_need_matching_tensors() {
    let mut fake = Fake::new(recognition());
    let mut e = recognition_engine(&mut fake);
    assert!(!e.pipe_output(Method::PrefixEnc, 0, Method::Step, 1));
    assert!(!e.pipe_output(Method::Prefill, 0, Method::Step, 0));
    assert!(!e.pipe_output(Method::Prefill, 1, Method::Step, 1));
    assert!(!e.pipe_output(Method::Prefill, 0, Method::Step, 2));
    let mut fake = Fake::new(vec![detector()]);
    let mut e = single(&mut fake, &EngineConfig::default()).ok().unwrap();
    assert!(!e.pipe_output(Method::PrefixEnc, 0, Method::Step, 0));
}

#[test]
fn piped_input_is_ignored_from_the_declaration_on() {
    let mut fake = Fake::new(recognition());
    let mut e = recognition_engine(&mut fake);
    assert!(e.pipe_output(Method::Prefill, 0, Method::Step, 1));
    let token = [10i32];
    for word in [1u32, 500] {
        let cache = [word; 4];
        let inputs = [TensorView::i32(&[1], &token), TensorView::f32_bits(&[4], &cache)];
        // The source has not run: the buffer is as it was made, of zeros.
        let outs = run(&mut fake, &mut e, Method::Step, &inputs).ok().unwrap();
        assert_eq!(floats(&outs[0]), vec![11, 1]);
    }
}

#[test]
fn one_pipe_feeds_the_other_method() {
    // Between two models.
    for word in [0u32, 77] {
        let mut fake = Fake::new(recognition());
        let mut e = recognition_engine(&mut fake);
        assert!(e.pipe_output(Method::PrefixEnc, 0, Method::Prefill, 0));
        let strokes = [1u32, 2];
        assert!(run(&mut fake, &mut e, Method::PrefixEnc, &[TensorView::f32_bits(&[2], &strokes)]).is_ok());
        // The encoder's output is [2, 3, 1].
        let junk = [word; 3];
        let outs = run(&mut fake, &mut e, Method::Prefill, &[TensorView::f32_bits(&[3], &junk)]).ok().unwrap();
        assert_eq!(floats(&outs[0]), vec![3, 4, 2, 1]);
    }
    // Inside one model.
    for word in [0u32, 77] {
        let mut fake = Fake::new(recognition());
        let mut e = recognition_engine(&mut fake);
        assert!(e.pipe_output(Method::Prefill, 0, Method::Step, 1));
        let prefix = [5u32, 6, 7];
        assert!(run(&mut fake, &mut e, Method::Prefill, &[TensorView::f32_bits(&[3], &prefix)]).is_ok());
        // The cache is [6, 7, 8, 1].
        let token = [10i32];
        let junk = [word; 4];
        let inputs = [TensorView::i32(&[1], &token), TensorView::f32_bits(&[4], &junk)];
        let outs = run(&mut fake, &mut e, Method::Step, &inputs).ok().unwrap();
        assert_eq!(floats(&outs[0]), vec![17, 8]);
        assert_eq!(floats(&outs[1]), vec![18, 9, 10, 3]);
    }
}

#[test]
fn engine_opens_with_distinct_buffers() {
    let mut fake = Fake::new(recognition());
    let mut e = recognition_engine(&mut fake);
    let buffers = |e: &LiteRtCompiledEngine| {
        let mut v = vec![
            e.models[0].input_buffer(0, 0),
            e.models[0].output_buffer(0, 0),
            e.models[1].input_buffer(0, 0),
            e.models[1].input_buffer(0, 1),
            e.models[1].output_buffer(0, 0),
            e.models[1].output_buffer(0, 1),
            e.models[1].input_buffer(1, 0),
            e.models[1].output_buffer(1, 0),
        ];
        v.sort();
        v
    };
    let opened = buffers(&e);
    for k in 1..opened.len() {
        assert_ne!(opened[k - 1], opened[k]);
    }
    // Running moves them about, and neither loses nor doubles one.
    assert!(e.feed_output_back(Method::Step, 1, 1));
    let token = [10i32];
    assert!(run(&mut fake, &mut e, Method::Step, &[TensorView::i32(&[1], &token)]).is_ok());
    assert_eq!(buffers(&e), opened);
}

#[test]
fn missing_signature_is_told_with_the_list_of_those_there_are() {
    let e = lacks_signature_error("/m/decoder.tflite", "decode", "[a, b]");
    match e {
        EngineError::Load(msg) => {
            assert_eq!(msg, "/m/decoder.tflite 里没有签名 decode（有的是 [a, b]）")
        }
        _ => panic!("a model that lacks a signature does not load"),
    }
}

#[test]
fn trial_exchanges_are_undone() {
    let mut fake = Fake::new(recognition());
    let mut e = recognition_engine(&mut fake);
    let before = (
        e.models[1].output_buffer(0, 1),
        e.models[1].input_buffer(0, 1),
        e.models[1].output_buffer(1, 0),
    );
    assert!(e.feed_output_back(Method::Step, 1, 1));
    assert!(e.pipe_output(Method::Prefill, 0, Method::Step, 1));
    let after = (
        e.models[1].output_buffer(0, 1),
        e.models[1].input_buffer(0, 1),
        e.models[1].output_buffer(1, 0),
    );
    assert_eq!(before, after);
}

#[test]
fn links_are_kept_once() {
    let mut fake = Fake::new(recognition());
    let mut e = recognition_engine(&mut fake);
    for _ in 0..3 {
        assert!(e.feed_output_back(Method::Step, 1, 1));
        assert!(e.pipe_output(Method::Prefill, 0, Method::Step, 1));
    }
    assert_eq!(e.feedback.step.len(), 1);
    assert_eq!(e.pipes.len(), 1);
}

#[test]
fn buffers_can_be_exchanged_by_hand() {
    let mut fake = Fake::new(recognition());
    let mut e = recognition_engine(&mut fake);
    let m = &mut e.models[1];
    let o = m.output_buffer(0, 1).unwrap();
    let i = m.input_buffer(0, 1).unwrap();
    assert!(m.swap_io_buffers(0, 1, 1));
    assert_eq!(m.output_buffer(0, 1), Some(i));
    assert_eq!(m.input_buffer(0, 1), Some(o));
    assert!(!m.swap_io_buffers(0, 0, 1));
    assert!(!m.swap_io_buffers(7, 0, 0));
    assert!(m.swap_across(0, 1, 0, 1));
    assert_eq!(m.output_buffer(0, 1), Some(o));
    let p = m.output_buffer(1, 0).unwrap();
    assert!(m.swap_across(1, 0, 0, 1));
    assert_eq!(m.output_buffer(1, 0), Some(i));
    assert_eq!(m.input_buffer(0, 1), Some(p));
    assert!(!m.swap_across(1, 0, 0, 0));
    let q = m.output_buffer(0, 0).unwrap();
    assert_eq!(m.take_output_buffer(0, 0, 77), Some(q));
    assert_eq!(m.output_buffer(0, 0), Some(77));
    assert_eq!(m.take_output_buffer(0, 9, 77), None);
    assert_eq!(m.take_input_buffer(0, 1, 78), Some(p));
    assert_eq!(m.input_buffer(0, 1), Some(78));
    assert_eq!(m.take_input_buffer(9, 1, 78), None);
    assert_eq!(m.input_spec(0, 0), Some((&[1][..], INT)));
    assert_eq!(m.output_spec(0, 1), Some((&[4][..], FLOAT)));
    assert_eq!(m.input_spec(0, 4), None);
    assert_eq!(m.output_spec(3, 0), None);
}
