use etl_pipeline::{build_report, memory_used_kb, track_memory_and_time, EtlError, MemorySampler};
use std::time::Duration;

#[test]
fn memory_growth_in_kilobytes() {
    assert_eq!(memory_used_kb(1024, 4096), 3);
    assert_eq!(memory_used_kb(0, 2047), 1);
    assert_eq!(memory_used_kb(5000, 5000), 0);
}

#[test]
fn memory_that_shrank_reports_zero() {
    assert_eq!(memory_used_kb(9000, 1000), 0);
    assert_eq!(memory_used_kb(u64::MAX, 0), 0);
}

#[test]
fn report_from_samples() {
    let r = build_report("Load", Duration::from_millis(12), 10_240, 30_720);
    assert_eq!(r.name, "Load");
    assert_eq!(r.elapsed, Duration::from_millis(12));
    assert_eq!(r.memory_used_kb, 20);
    let r = build_report("Read", Duration::from_millis(1), 30_720, 10_240);
    assert_eq!(r.memory_used_kb, 0);
}

#[test]
fn tracking_keeps_the_result() {
    let mut sampler = MemorySampler::new();
    let (ok, report) = track_memory_and_time("Create", &mut sampler, || Ok::<u32, EtlError>(7));
    assert_eq!(ok.unwrap(), 7);
    assert_eq!(report.name, "Create");
    let (err, report) =
        track_memory_and_time("Delete", &mut sampler, || Err::<u32, EtlError>(EtlError::NoSuchTable));
    assert!(matches!(err, Err(EtlError::NoSuchTable)));
    assert_eq!(report.name, "Delete");
    assert!(report.memory_used_kb <= report.after_bytes / 1024);
}
