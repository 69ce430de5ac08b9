use edge_infer::backends::coreml::pipeline::{
    CoreMlPipeline, PipelineCall, PipelineOpening, PipelineReply,
};
use edge_infer::backends::coreml::run::{CoreMlCall, CoreMlReply, CoreMlRunning};
use edge_infer::backends::coreml::{CoreMlEngine, CoreMlLoad};
use edge_infer::backends::litert::opening::EngineOpening;
use edge_infer::tensor::ByteOrder;
use edge_infer::{
    open_file, open_from_bytes, open_path, Backends, DType, Engine, EngineConfig, EngineError,
    Method, PathOpening, Prefer, Result, Tensor, TensorView,
};
use std::collections::HashSet;

const ALL: Backends = Backends { litert: true, coreml: true };
const NONE: Backends = Backends { litert: false, coreml: false };

#[test]
fn methods_have_names() {
    assert_eq!(Method::PrefixEnc.signature(), "forward");
    assert_eq!(Method::Prefill.signature(), "prefill");
    assert_eq!(Method::Step.signature(), "step");
    assert_eq!(Method::Step.variant(), format!("{:?}", Method::Step));
    assert_eq!(Method::Prefill.variant(), format!("{:?}", Method::Prefill));
    assert_eq!(Method::PrefixEnc.variant(), format!("{:?}", Method::PrefixEnc));
}

#[test]
fn errors_in_words() {
    assert_eq!(EngineError::Load("x".to_string()).message(), "模型加载失败: x");
    assert_eq!(EngineError::MethodNotFound(Method::Prefill).message(), "方法不存在: Prefill");
    assert_eq!(EngineError::Shape("y".to_string()).message(), "形状不匹配: y");
    assert_eq!(
        EngineError::Execute { method: Method::Step, code: -3, msg: "z".to_string() }.message(),
        "Step 执行失败 (code=-3): z"
    );
    assert_eq!(EngineError::Unavailable("b").message(), "后端未编入本次构建: b");
}

#[test]
fn configuration_defaults() {
    let cfg = EngineConfig::default();
    assert_eq!(cfg.model_dir, "");
    assert_eq!(cfg.num_threads, 0);
    assert_eq!(cfg.prefer, Prefer::Auto);
    assert_eq!(Prefer::default(), Prefer::Auto);
}

struct Bare;

impl Engine for Bare {
    fn backend_name(&self) -> &'static str {
        "bare"
    }

    fn run(&mut self, method: Method, _inputs: &[TensorView<'_>]) -> Result<Vec<Tensor>> {
        Err(EngineError::MethodNotFound(method))
    }

    fn output_shape(&mut self, _method: Method, _index: usize) -> Option<Vec<i64>> {
        None
    }

    fn has_method(&self, _method: Method) -> bool {
        false
    }
}

#[test]
fn engines_link_nothing_by_default() {
    let mut e: Box<dyn Engine> = Box::new(Bare);
    assert!(!e.feed_output_back(Method::Step, 0, 0));
    assert!(!e.pipe_output(Method::Prefill, 0, Method::Step, 0));
}

#[test]
fn bytes_go_to_litert() {
    let cfg = EngineConfig::default();
    assert!(matches!(open_from_bytes(&[1], &cfg, ALL), Ok(EngineOpening::Single { .. })));
    let e = open_from_bytes(&[1], &cfg, NONE).err().unwrap();
    assert_eq!(e.message(), "后端未编入本次构建: 未编入任何推理后端");
    let apple = Backends { litert: false, coreml: true };
    assert!(open_from_bytes(&[1], &cfg, apple).is_err());
}

#[test]
fn paths_go_by_their_kind() {
    let cfg = EngineConfig { model_dir: String::new(), num_threads: 3, prefer: Prefer::Auto };
    for path in ["/a/hand.mlpackage", "/a/hand.mlmodelc"] {
        match open_path(path, &cfg, ALL) {
            PathOpening::CoreMl(Ok(load)) => {
                assert_eq!(load.path, path);
                assert_eq!(load.function, None);
                assert_eq!(load.num_threads, 3);
            }
            _ => panic!("{path} is for Core ML"),
        }
        let android = Backends { litert: true, coreml: false };
        assert!(matches!(open_path(path, &cfg, android), PathOpening::ReadFile));
    }
    assert!(matches!(open_path("/a/hand.tflite", &cfg, ALL), PathOpening::ReadFile));
}

#[test]
fn unreadable_file_is_reported() {
    let cfg = EngineConfig::default();
    let e = open_file("/a.tflite", Err("gone".to_string()), &cfg, ALL).err().unwrap();
    assert_eq!(e.message(), "模型加载失败: 读模型失败 /a.tflite: gone");
    assert!(open_file("/a.tflite", Ok(vec![1]), &cfg, ALL).is_ok());
    assert!(open_file("/a.tflite", Ok(vec![1]), &cfg, NONE).is_err());
}

fn load_error(r: Result<CoreMlLoad>) -> String {
    r.err().unwrap().message()
}

#[test]
fn texts_with_nul_are_refused() {
    let cfg = EngineConfig::default();
    assert_eq!(load_error(CoreMlEngine::open_path("a\0b", &cfg)), "模型加载失败: 路径含 NUL");
    assert_eq!(
        load_error(CoreMlEngine::open_function("a", Some("f\0"), &cfg)),
        "模型加载失败: 函数名含 NUL"
    );
    let engine = CoreMlEngine::open_path("a", &cfg).ok().unwrap().loaded(5, 0).ok().unwrap();
    let e = engine.with_input_names(&["ok", "n\0"]).err().unwrap();
    assert_eq!(e.message(), "模型加载失败: 输入名含 NUL");
}

#[test]
fn model_that_does_not_load_is_reported() {
    let cfg = EngineConfig::default();
    let load = CoreMlEngine::open_in_dir("/d", "hand", &cfg).ok().unwrap();
    assert_eq!(load.path, "/d/hand.mlpackage");
    let e = load.loaded(0, -4).err().unwrap();
    assert_eq!(e.message(), "模型加载失败: Core ML 加载失败 (code=-4): /d/hand.mlpackage");
}

fn engine(names: &[&str]) -> CoreMlEngine {
    let cfg = EngineConfig::default();
    let load = CoreMlEngine::open_function("m.mlmodelc", Some("f"), &cfg).ok().unwrap();
    assert_eq!(load.function, Some("f".to_string()));
    load.loaded(5, 0).ok().unwrap().with_input_names(names).ok().unwrap()
}

fn reply() -> CoreMlReply {
    CoreMlReply { rc: 0, code: 0, outputs: 0, count: 0, shape: vec![], data: vec![] }
}

/// Answers a run with the given outputs.
fn drive(start: CoreMlRunning, outputs: &[(Vec<i64>, Vec<u8>)]) -> (CoreMlRunning, Vec<CoreMlCall>) {
    let mut s = start;
    let mut log = Vec::new();
    while let Some(call) = s.call() {
        log.push(call);
        let mut r = reply();
        match call {
            CoreMlCall::Run { .. } => {
                r.outputs = 40;
                r.count = outputs.len();
            }
            CoreMlCall::Shape { outputs: o, index } => {
                assert_eq!(o, 40);
                r.shape = outputs[index].0.clone();
            }
            CoreMlCall::Data { index, len, .. } => r.data = outputs[index].1[..len].to_vec(),
            CoreMlCall::FreeOutputs { outputs: o, count } => {
                assert_eq!((o, count), (40, outputs.len()));
            }
        }
        s = s.advance(r);
    }
    (s, log)
}

#[test]
fn coreml_run_copies_and_frees_its_outputs() {
    let mut e = engine(&["x"]);
    assert_eq!(e.backend_name(), "coreml");
    assert!(e.has_method(Method::PrefixEnc));
    assert!(!e.has_method(Method::Step));
    assert_eq!(e.output_shape(Method::PrefixEnc, 0), None);
    let data = [1u32, 2];
    let view = TensorView::f32_bits(&[2], &data);
    let outputs = vec![(vec![1, 2], vec![1, 2, 3, 4, 5, 6, 7, 8]), (vec![0], vec![])];
    let (s, log) = drive(e.run(Method::PrefixEnc, &[view]), &outputs);
    assert_eq!(log[0], CoreMlCall::Run { handle: 5, named: true });
    assert_eq!(log[2], CoreMlCall::Data { outputs: 40, index: 0, len: 8 });
    let frees = log.iter().filter(|c| matches!(c, CoreMlCall::FreeOutputs { .. })).count();
    assert_eq!(frees, 1);
    assert_eq!(log.len(), 6);
    let outs = e.finish_run(s).ok().unwrap();
    assert_eq!(outs.len(), 2);
    assert_eq!(outs[0].shape, vec![1, 2]);
    assert_eq!(outs[0].dtype, DType::F32);
    assert_eq!(outs[0].data, vec![1, 2, 3, 4, 5, 6, 7, 8]);
    assert_eq!(outs[1].data, vec![]);
    assert_eq!(e.output_shape(Method::Step, 0), Some(vec![1, 2]));
    assert_eq!(e.output_shape(Method::PrefixEnc, 1), Some(vec![0]));
    assert_eq!(e.output_shape(Method::PrefixEnc, 2), None);
    // Names are left out where there is not one for each input.
    let (_, log) = drive(e.run(Method::PrefixEnc, &[view, view]), &[]);
    assert_eq!(log[0], CoreMlCall::Run { handle: 5, named: false });
    assert_eq!(log.len(), 2);
}

#[test]
fn coreml_inputs_have_the_names_of_their_positions() {
    let e = engine(&["strokes", "mask"]);
    let a = [1u32, 2];
    let b = [3u32];
    let inputs = [
        TensorView::f32_bits_in(ByteOrder::Little, &[1, 2], &a),
        TensorView::f32_bits_in(ByteOrder::Little, &[1], &b),
    ];
    let handed = e.run_inputs(&inputs);
    assert_eq!(handed.len(), 2);
    assert_eq!(handed[0].name, Some("strokes"));
    assert_eq!(handed[0].shape, &[1, 2]);
    assert_eq!(handed[0].dtype, 0);
    assert_eq!(handed[0].data.to_bytes(), vec![1, 0, 0, 0, 2, 0, 0, 0]);
    assert_eq!(handed[1].name, Some("mask"));
    assert_eq!(handed[1].shape, &[1]);
    assert_eq!(handed[1].data.to_bytes(), vec![3, 0, 0, 0]);
    // With another number of inputs there are no names.
    let handed = e.run_inputs(&inputs[..1]);
    assert_eq!(handed.len(), 1);
    assert_eq!(handed[0].name, None);
    assert_eq!(handed[0].data.to_bytes(), vec![1, 0, 0, 0, 2, 0, 0, 0]);
}

#[test]
fn coreml_takes_floats_only() {
    let mut e = engine(&[]);
    let data = [1i32];
    let s = e.run(Method::PrefixEnc, &[TensorView::i32(&[1], &data)]);
    assert_eq!(s.call(), None);
    let message = e.finish_run(s).err().unwrap().message();
    assert_eq!(message, "形状不匹配: Core ML 后端目前只收 f32 输入（模型 IO 都是 fp32）");
}

#[test]
fn coreml_failure_keeps_the_last_shapes() {
    let mut e = engine(&[]);
    let (s, _) = drive(e.run(Method::PrefixEnc, &[]), &[(vec![3], vec![0; 12])]);
    assert!(e.finish_run(s).is_ok());
    for (rc, outputs) in [(2, 40), (0, 0)] {
        let mut r = reply();
        r.rc = rc;
        r.code = -9;
        r.outputs = outputs;
        let s = e.run(Method::Step, &[]).advance(r);
        let message = e.finish_run(s).err().unwrap().message();
        assert_eq!(message, format!("Step 执行失败 (code=-9): rc={rc}"));
        assert_eq!(e.output_shape(Method::PrefixEnc, 0), Some(vec![3]));
    }
}

/// Opens a pipeline on a device that has some paths. Loading gives 11, 12, 13
/// in turn, or fails at the given turn.
fn open_pipeline(paths: &[&str], fail: Option<usize>) -> (Result<CoreMlPipeline>, Vec<String>, Vec<usize>) {
    let cfg = EngineConfig { model_dir: "/m".to_string(), num_threads: 2, prefer: Prefer::Auto };
    let there: HashSet<&str> = paths.iter().copied().collect();
    let mut loads = Vec::new();
    let mut freed = Vec::new();
    let mut s = CoreMlPipeline::open(&cfg);
    loop {
        let mut r = PipelineReply { exists: false, handle: 0, code: 0 };
        match s.call() {
            Some(PipelineCall::Exists { path }) => r.exists = there.contains(path.as_str()),
            Some(PipelineCall::Load(load)) => {
                if fail == Some(loads.len()) {
                    r.code = 6;
                } else {
                    r.handle = 11 + loads.len();
                }
                let f = load.function.clone().unwrap_or_default();
                loads.push(format!("{}#{f}", load.path));
            }
            Some(PipelineCall::FreeModel { handle }) => freed.push(handle),
            None => {
                let r = match s {
                    PipelineOpening::Opened { pipeline } => Ok(pipeline),
                    PipelineOpening::Failed { error } => Err(error),
                    _ => unreachable!(),
                };
                return (r, loads, freed);
            }
        }
        s = s.advance(r);
    }
}

#[test]
fn pipeline_prefers_a_merged_decoder() {
    let (r, loads, freed) = open_pipeline(&["/m/decoder.mlmodelc", "/m/prefix_enc.mlmodelc"], None);
    let p = r.ok().unwrap();
    assert_eq!(
        loads,
        vec!["/m/decoder.mlmodelc#prefill", "/m/decoder.mlmodelc#step", "/m/prefix_enc.mlmodelc#"]
    );
    assert_eq!(freed, Vec::<usize>::new());
    assert_eq!(p.engine(Method::Prefill).handle, 11);
    assert_eq!(p.engine(Method::Step).handle, 12);
    assert_eq!(p.engine(Method::PrefixEnc).handle, 13);
    assert_eq!(p.prefix_enc.input_names, vec!["img", "stroke", "stroke_real_len"]);
    assert_eq!(p.prefill.input_names, vec!["prefix"]);
    assert_eq!(p.step.input_names, vec!["token_id", "pos", "past_kv"]);
    assert_eq!(p.backend_name(), "coreml");
    assert!(p.has_method(Method::Step));
}

#[test]
fn pipeline_takes_packages_and_split_decoders() {
    let (r, loads, _) = open_pipeline(&["/m/decoder.mlpackage"], None);
    assert!(r.is_ok());
    assert_eq!(
        loads,
        vec!["/m/decoder.mlpackage#prefill", "/m/decoder.mlpackage#step", "/m/prefix_enc.mlpackage#"]
    );
    let (r, loads, _) = open_pipeline(&["/m/decoder_step.mlmodelc"], None);
    assert!(r.is_ok());
    assert_eq!(
        loads,
        vec!["/m/decoder_prefill.mlpackage#", "/m/decoder_step.mlmodelc#", "/m/prefix_enc.mlpackage#"]
    );
}

#[test]
fn failed_pipeline_frees_what_it_loaded() {
    for paths in [vec![], vec!["/m/decoder.mlmodelc"]] {
        let want: [Vec<usize>; 3] = [vec![], vec![11], vec![12, 11]];
        for k in 0..3 {
            let (r, loads, freed) = open_pipeline(&paths, Some(k));
            let message = r.err().unwrap().message();
            assert!(message.contains("Core ML 加载失败 (code=6)"));
            assert_eq!(loads.len(), k + 1);
            assert_eq!(freed, want[k]);
        }
    }
}

#[test]
fn pipeline_routes_by_method() {
    let (r, _, _) = open_pipeline(&[], None);
    let mut p = r.ok().unwrap();
    let data = [0u32; 3];
    let view = TensorView::f32_bits(&[3], &data);
    let (s, log) = drive(p.run(Method::Step, &[view, view, view]), &[(vec![2], vec![0; 8])]);
    assert_eq!(log[0], CoreMlCall::Run { handle: 12, named: true });
    assert!(p.finish_run(Method::Step, s).is_ok());
    assert_eq!(p.output_shape(Method::Step, 0), Some(vec![2]));
    assert_eq!(p.output_shape(Method::Prefill, 0), None);
    // Each engine has one entry, and its errors name that.
    let mut r = reply();
    r.rc = 1;
    let s = p.run(Method::Prefill, &[view]).advance(r);
    let message = p.finish_run(Method::Prefill, s).err().unwrap().message();
    assert_eq!(message, "PrefixEnc 执行失败 (code=0): rc=1");
}
