use radiance::perf::{FramePerformanceSample, OutputUpdateStats, PerfReporter};
use std::time::Duration;

#[test]
fn absorbing_output_stats() {
    let mut sample = FramePerformanceSample { queue_submits: 2, graph_paints: 1, ..Default::default() };
    let output = OutputUpdateStats {
        total: Duration::from_millis(3),
        queue_submits: 1,
        graph_paints: 2,
        surface_passes: 3,
        presented_windows: 4,
        did_vsync: true,
    };
    sample.absorb_output_update(&output);
    assert_eq!(sample.output_update, Duration::from_millis(3));
    assert_eq!(sample.queue_submits, 3);
    assert_eq!(sample.graph_paints, 3);
    assert_eq!(sample.surface_passes, 3);
    assert_eq!(sample.presented_windows, 4);
    assert!(!sample.did_vsync);
}

#[test]
fn reporter_batches_samples() {
    let mut reporter = PerfReporter::new(3);
    assert!(reporter.push(FramePerformanceSample::default()).is_none());
    assert!(reporter.push(FramePerformanceSample::default()).is_none());
    let batch = reporter.push(FramePerformanceSample { queue_submits: 9, ..Default::default() }).unwrap();
    assert_eq!(batch.len(), 3);
    assert_eq!(batch[2].queue_submits, 9);
    assert!(reporter.samples.is_empty());
    assert!(reporter.push(FramePerformanceSample::default()).is_none());
    assert_eq!(reporter.samples.len(), 1);
}

#[test]
fn flushing_an_empty_reporter() {
    let mut reporter = PerfReporter::new(240);
    assert!(reporter.flush().is_none());
    reporter.push(FramePerformanceSample::default());
    assert_eq!(reporter.flush().map(|b| b.len()), Some(1));
    assert!(reporter.flush().is_none());
}

#[test]
fn zero_interval_reports_every_frame() {
    let mut reporter = PerfReporter::default();
    assert_eq!(reporter.push(FramePerformanceSample::default()).map(|b| b.len()), Some(1));
}
