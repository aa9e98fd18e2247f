//! Frame performance samples and the reporter that batches them.
use vstd::prelude::*;
use std::time::Duration;

verus! {

/// What one frame took, stage by stage, and how much work it did.
#[derive(Debug, Clone, Copy, Default)]
pub struct FramePerformanceSample {
    pub total: Duration,
    pub mir_poll: Duration,
    pub ctx_update: Duration,
    pub autosave: Duration,
    pub preview_paint: Duration,
    pub ui_bg_paint: Duration,
    pub ui_cpu: Duration,
    pub output_update: Duration,
    pub ui_gpu: Duration,
    pub ui_present: Duration,
    pub queue_submits: u32,
    pub graph_paints: u32,
    pub surface_passes: u32,
    pub presented_windows: u32,
    pub did_vsync: bool,
}

/// What updating the output windows took, and how much work it did.
#[derive(Debug, Clone, Copy, Default)]
pub struct OutputUpdateStats {
    pub total: Duration,
    pub queue_submits: u32,
    pub graph_paints: u32,
    pub surface_passes: u32,
    pub presented_windows: u32,
    pub did_vsync: bool,
}

impl FramePerformanceSample {
    /// Takes the output windows' update into the frame: its time, and its
    /// work added to the frame's counts.
    pub fn absorb_output_update(&mut self, output: &OutputUpdateStats)
        requires
            old(self).queue_submits + output.queue_submits <= u32::MAX,
            old(self).graph_paints + output.graph_paints <= u32::MAX,
            old(self).surface_passes + output.surface_passes <= u32::MAX,
            old(self).presented_windows + output.presented_windows <= u32::MAX,
        ensures
            final(self).output_update == output.total,
            final(self).queue_submits == old(self).queue_submits + output.queue_submits,
            final(self).graph_paints == old(self).graph_paints + output.graph_paints,
            final(self).surface_passes == old(self).surface_passes + output.surface_passes,
            final(self).presented_windows == old(self).presented_windows
                + output.presented_windows,
            final(self).total == old(self).total,
            final(self).mir_poll == old(self).mir_poll,
            final(self).ctx_update == old(self).ctx_update,
            final(self).autosave == old(self).autosave,
            final(self).preview_paint == old(self).preview_paint,
            final(self).ui_bg_paint == old(self).ui_bg_paint,
            final(self).ui_cpu == old(self).ui_cpu,
            final(self).ui_gpu == old(self).ui_gpu,
            final(self).ui_present == old(self).ui_present,
            final(self).did_vsync == old(self).did_vsync,
    {
        self.output_update = output.total;
        self.queue_submits = self.queue_submits + output.queue_submits;
        self.graph_paints = self.graph_paints + output.graph_paints;
        self.surface_passes = self.surface_passes + output.surface_passes;
        self.presented_windows = self.presented_windows + output.presented_windows;
    }
}

/// Collects frame samples and hands them on in batches for reporting.
#[derive(Debug, Default)]
pub struct PerfReporter {
    pub report_every_frames: usize,
    pub samples: Vec<FramePerformanceSample>,
}

impl PerfReporter {
    /// A reporter that reports every `report_every_frames` frames.
    pub fn new(report_every_frames: usize) -> (r: Self)
        ensures
            r.report_every_frames == report_every_frames,
            r.samples@.len() == 0,
    {
        PerfReporter { report_every_frames, samples: Vec::new() }
    }

    /// The samples collected so far, to be reported, when there are any;
    /// the reporter then starts a new batch.
    pub fn flush(&mut self) -> (batch: Option<Vec<FramePerformanceSample>>)
        ensures
            final(self).report_every_frames == old(self).report_every_frames,
            old(self).samples@.len() == 0 ==> batch is None && final(self).samples@
                == old(self).samples@,
            old(self).samples@.len() > 0 ==> (batch matches Some(b) && b@ == old(self).samples@
                && final(self).samples@.len() == 0),
    {
        if self.samples.len() == 0 {
            return None;
        }
        let mut batch: Vec<FramePerformanceSample> = Vec::new();
        std::mem::swap(&mut batch, &mut self.samples);
        Some(batch)
    }

    /// Adds a frame's sample; once the batch holds `report_every_frames`
    /// samples, it is handed on for reporting and a new batch starts.
    pub fn push(&mut self, sample: FramePerformanceSample) -> (batch: Option<
        Vec<FramePerformanceSample>,
    >)
        requires
            old(self).samples@.len() < usize::MAX,
        ensures
            final(self).report_every_frames == old(self).report_every_frames,
            old(self).samples@.len() + 1 >= old(self).report_every_frames ==> (batch matches Some(
                b,
            ) && b@ == old(self).samples@.push(sample) && final(self).samples@.len() == 0),
            old(self).samples@.len() + 1 < old(self).report_every_frames ==> batch is None
                && final(self).samples@ == old(self).samples@.push(sample),
    {
        self.samples.push(sample);
        if self.samples.len() >= self.report_every_frames {
            self.flush()
        } else {
            None
        }
    }
}

} // verus!
