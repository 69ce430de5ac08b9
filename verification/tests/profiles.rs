use edge_infer::backends::litert_sys::model::{CompiledModel, Signature, Slot};
use edge_infer::backends::litert_sys::native::{Call, Reply};
use edge_infer::backends::litert_sys::profile::{Profiling, Syncing};
use std::sync::Arc;

fn model() -> CompiledModel {
    let slot = |buffer: usize| Slot { buffer, shape: vec![2, 2], element_type: 1 };
    CompiledModel {
        bytes: Arc::new(vec![]),
        model: 1,
        compiled: 2,
        signatures: vec![Signature {
            key: "k".to_string(),
            inputs: vec![slot(3)],
            outputs: vec![slot(4)],
        }],
        on_gpu: false,
    }
}

fn drive(start: Profiling, profiler: usize, text: Option<&str>) -> (Vec<Call>, Option<String>) {
    let mut s = start;
    let mut log = Vec::new();
    loop {
        match s.call() {
            Some(call) => {
                log.push(call);
                let mut r = Reply::of_status(0);
                match call {
                    Call::Profiler { .. } => r.handle = profiler,
                    Call::ProfileSummary { .. } => r.text = text.map(|t| t.to_string()),
                    _ => {}
                }
                s = s.advance(r);
            }
            None => match s {
                Profiling::Done { summary } => return (log, summary),
                _ => unreachable!(),
            },
        }
    }
}

#[test]
fn profiling_goes_through_the_profiler() {
    let m = model();
    let (log, summary) = drive(m.profile_start(), 9, None);
    assert_eq!(
        log,
        vec![
            Call::Profiler { compiled: 2 },
            Call::ResetProfiler { profiler: 9 },
            Call::StartProfiler { profiler: 9 },
        ]
    );
    assert_eq!(summary, None);
    let (log, _) = drive(m.profile_stop(), 9, None);
    assert_eq!(log[1..], [Call::StopProfiler { profiler: 9 }]);
    let (log, summary) = drive(m.profile_summary(), 9, Some("fast"));
    assert_eq!(log[1..], [Call::ProfileSummary { profiler: 9, compiled: 2 }]);
    assert_eq!(summary, Some("fast".to_string()));
    let (_, summary) = drive(m.profile_summary(), 9, None);
    assert_eq!(summary, None);
}

#[test]
fn model_without_profiler_is_left_alone() {
    let m = model();
    for s in [m.profile_start(), m.profile_stop(), m.profile_summary()] {
        let (log, summary) = drive(s, 0, Some("x"));
        assert_eq!(log.len(), 1);
        assert_eq!(summary, None);
    }
    let s = m.profile_summary().advance(Reply::of_status(1));
    assert!(matches!(s, Profiling::Done { summary: None }));
}

#[test]
fn syncing_locks_and_unlocks() {
    let m = model();
    let s = m.sync_output(0, 0);
    assert_eq!(s.call(), Some(Call::Lock { buffer: 4, mode: 0 }));
    let s = s.advance(Reply::of_status(0));
    assert_eq!(s.call(), Some(Call::Unlock { buffer: 4 }));
    assert!(s.advance(Reply::of_status(0)) == Syncing::Done);
    assert!(m.sync_output(0, 0).advance(Reply::of_status(2)) == Syncing::Done);
    assert!(m.sync_output(0, 1) == Syncing::Done);
    assert!(m.sync_output(1, 0) == Syncing::Done);
}

#[test]
fn release_gives_back_buffers_first() {
    assert_eq!(
        model().release(),
        vec![
            Call::DestroyBuffer { buffer: 3 },
            Call::DestroyBuffer { buffer: 4 },
            Call::DestroyCompiled { compiled: 2 },
            Call::DestroyModel { model: 1 },
        ]
    );
}

#[test]
fn bytes_of_one_slot() {
    let m = model();
    let w = m.set_input_bytes(0, 0, &[1, 2, 3]).unwrap();
    assert_eq!(w.buffer, 3);
    assert_eq!(w.bytes.len(), 16);
    assert_eq!(w.bytes[..4], [1, 2, 3, 0]);
    assert!(m.set_input_bytes(0, 1, &[1]).is_none());
    let r = m.get_output_bytes(0, 0).unwrap();
    assert_eq!((r.buffer, r.len), (4, 16));
    assert!(m.get_output_bytes(2, 0).is_none());
    assert_eq!(m.invoke(0), Ok(Call::Invoke { compiled: 2, sig: 0 }));
    assert_eq!(m.invoke(1), Err("签名下标越界: 1".to_string()));
    // One signature answers to any key.
    assert_eq!(m.signature_index(Some("other")), Some(0));
    assert_eq!(m.signature_index(None), Some(0));
}
