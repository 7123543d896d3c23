//! A rolling record of what the GPU was holding, kept so a crash report can show the run-up to a
//! device loss rather than the wreckage afterwards.
//!
//! Samples are taken while the renderer is healthy, at most once a second, and the last ten
//! minutes of them are kept. Beside the ring, the highest value each counter ever reached is kept
//! with the time it was reached, so a climb that fell back, or that scrolled out of the ring, still
//! shows in the report.
use std::collections::VecDeque;
use vstd::prelude::*;
use vstd::string::*;

use crate::allocator_report::{summarise, summary_spec, AllocatorReport};
use crate::hal_counters::{object_count, HalCounters};
use crate::text::{
    decimal, decimal_string, fixed_point, fixed_point_string, left_aligned, push_char,
    push_decimal, push_fixed_point, push_left_aligned, push_right_aligned, right_aligned,
};

verus! {

/// How often a sample is taken, in milliseconds.
pub const SAMPLE_INTERVAL_MS: u64 = 1000;

/// How often a sample is taken, in nanoseconds.
pub const SAMPLE_INTERVAL_NS: u64 = 1_000_000_000;

/// How many samples the ring keeps: ten minutes at one a second.
pub const MAX_SAMPLES: usize = 600;

/// How many fields of a sample are charted.
pub const TRACKED_FIELDS: usize = 20;

/// Everything worth knowing about one moment.
#[derive(Clone, Copy, Debug, PartialEq, Eq, Structural)]
pub struct GpuSample {
    /// Milliseconds since the recorder started.
    pub at_ms: u64,
    pub textures: u64,
    pub texture_views: u64,
    pub buffers: u64,
    pub bind_groups: u64,
    pub bind_group_layouts: u64,
    pub samplers: u64,
    pub render_pipelines: u64,
    pub compute_pipelines: u64,
    pub pipeline_layouts: u64,
    pub shader_modules: u64,
    pub command_encoders: u64,
    pub query_sets: u64,
    pub fences: u64,
    /// The count a Vulkan driver caps, separately from the bytes in use.
    pub memory_allocations: u64,
    pub texture_memory_bytes: u64,
    pub buffer_memory_bytes: u64,
    /// Blocks the allocator has reserved from the driver, and how much they hold in total.
    pub allocator_blocks: u64,
    pub allocator_reserved_bytes: u64,
    /// The largest contiguous free run in any block: the real ceiling on the next allocation.
    pub allocator_largest_free_run_bytes: u64,
    /// 1 when the backend supplied an allocator report, 0 when it did not, so that the zeroes
    /// above are not read as an unfragmented allocator.
    pub allocator_report_available: u64,
}

/// The sample with every field zero.
pub open spec fn zero_sample() -> GpuSample {
    GpuSample {
        at_ms: 0,
        textures: 0,
        texture_views: 0,
        buffers: 0,
        bind_groups: 0,
        bind_group_layouts: 0,
        samplers: 0,
        render_pipelines: 0,
        compute_pipelines: 0,
        pipeline_layouts: 0,
        shader_modules: 0,
        command_encoders: 0,
        query_sets: 0,
        fences: 0,
        memory_allocations: 0,
        texture_memory_bytes: 0,
        buffer_memory_bytes: 0,
        allocator_blocks: 0,
        allocator_reserved_bytes: 0,
        allocator_largest_free_run_bytes: 0,
        allocator_report_available: 0,
    }
}

impl Default for GpuSample {
    fn default() -> (r: Self)
        ensures
            r == zero_sample(),
    {
        GpuSample {
            at_ms: 0,
            textures: 0,
            texture_views: 0,
            buffers: 0,
            bind_groups: 0,
            bind_group_layouts: 0,
            samplers: 0,
            render_pipelines: 0,
            compute_pipelines: 0,
            pipeline_layouts: 0,
            shader_modules: 0,
            command_encoders: 0,
            query_sets: 0,
            fences: 0,
            memory_allocations: 0,
            texture_memory_bytes: 0,
            buffer_memory_bytes: 0,
            allocator_blocks: 0,
            allocator_reserved_bytes: 0,
            allocator_largest_free_run_bytes: 0,
            allocator_report_available: 0,
        }
    }
}

/// The name of the `i`-th charted field.
pub open spec fn tracked_name(i: int) -> Seq<char> {
    if i == 0 {
        "textures"@
    } else if i == 1 {
        "texture_views"@
    } else if i == 2 {
        "buffers"@
    } else if i == 3 {
        "bind_groups"@
    } else if i == 4 {
        "bind_group_layouts"@
    } else if i == 5 {
        "samplers"@
    } else if i == 6 {
        "render_pipelines"@
    } else if i == 7 {
        "compute_pipelines"@
    } else if i == 8 {
        "pipeline_layouts"@
    } else if i == 9 {
        "shader_modules"@
    } else if i == 10 {
        "command_encoders"@
    } else if i == 11 {
        "query_sets"@
    } else if i == 12 {
        "fences"@
    } else if i == 13 {
        "memory_allocations"@
    } else if i == 14 {
        "texture_memory_bytes"@
    } else if i == 15 {
        "buffer_memory_bytes"@
    } else if i == 16 {
        "allocator_blocks"@
    } else if i == 17 {
        "allocator_reserved_bytes"@
    } else if i == 18 {
        "allocator_largest_free_run_bytes"@
    } else {
        "allocator_report_available"@
    }
}

/// The value of the `i`-th charted field of a sample.
pub open spec fn tracked_value(s: GpuSample, i: int) -> u64 {
    if i == 0 {
        s.textures
    } else if i == 1 {
        s.texture_views
    } else if i == 2 {
        s.buffers
    } else if i == 3 {
        s.bind_groups
    } else if i == 4 {
        s.bind_group_layouts
    } else if i == 5 {
        s.samplers
    } else if i == 6 {
        s.render_pipelines
    } else if i == 7 {
        s.compute_pipelines
    } else if i == 8 {
        s.pipeline_layouts
    } else if i == 9 {
        s.shader_modules
    } else if i == 10 {
        s.command_encoders
    } else if i == 11 {
        s.query_sets
    } else if i == 12 {
        s.fences
    } else if i == 13 {
        s.memory_allocations
    } else if i == 14 {
        s.texture_memory_bytes
    } else if i == 15 {
        s.buffer_memory_bytes
    } else if i == 16 {
        s.allocator_blocks
    } else if i == 17 {
        s.allocator_reserved_bytes
    } else if i == 18 {
        s.allocator_largest_free_run_bytes
    } else {
        s.allocator_report_available
    }
}

/// The sample taken at `at_ms` from the device counters and, where the backend gives one, the
/// allocator's report. Counters are carried over as `as` casts them; the allocator fields are the
/// report's summary, or zero with the availability flag clear.
pub open spec fn capture_spec(
    hal: HalCounters,
    report: Option<AllocatorReport>,
    at_ms: u64,
) -> GpuSample {
    let f = match report {
        Some(r) => summary_spec(r),
        None => crate::allocator_report::AllocatorFragmentation {
            blocks: 0,
            live_allocations: 0,
            reserved_bytes: 0,
            allocated_bytes: 0,
            free_bytes: 0,
            largest_free_run_bytes: 0,
        },
    };
    GpuSample {
        at_ms,
        textures: hal.textures as u64,
        texture_views: hal.texture_views as u64,
        buffers: hal.buffers as u64,
        bind_groups: hal.bind_groups as u64,
        bind_group_layouts: hal.bind_group_layouts as u64,
        samplers: hal.samplers as u64,
        render_pipelines: hal.render_pipelines as u64,
        compute_pipelines: hal.compute_pipelines as u64,
        pipeline_layouts: hal.pipeline_layouts as u64,
        shader_modules: hal.shader_modules as u64,
        command_encoders: hal.command_encoders as u64,
        query_sets: hal.query_sets as u64,
        fences: hal.fences as u64,
        memory_allocations: hal.memory_allocations as u64,
        texture_memory_bytes: hal.texture_memory as u64,
        buffer_memory_bytes: hal.buffer_memory as u64,
        allocator_blocks: f.blocks as u64,
        allocator_reserved_bytes: f.reserved_bytes,
        allocator_largest_free_run_bytes: f.largest_free_run_bytes,
        allocator_report_available: if report is Some {
            1
        } else {
            0
        },
    }
}

/// The fields of one sample, joined as `"name":value` pairs up to the `k`-th.
pub open spec fn json_fields(s: GpuSample, k: int) -> Seq<char>
    decreases k,
{
    if k <= 0 {
        Seq::empty()
    } else {
        json_fields(s, k - 1) + (if k > 1 {
            seq![',']
        } else {
            Seq::empty()
        }) + seq!['"'] + tracked_name(k - 1) + seq!['"', ':'] + decimal(
            tracked_value(s, k - 1) as nat,
        )
    }
}

/// One flat JSON object holding every charted field and then the sample's time.
pub open spec fn json_line(s: GpuSample) -> Seq<char> {
    seq!['{'] + json_fields(s, TRACKED_FIELDS as int) + seq![',', '"'] + "at_ms"@ + seq!['"', ':']
        + decimal(s.at_ms as nat) + seq!['}']
}

impl GpuSample {
    /// The sample taken at `at_ms` from the device counters and the allocator's report, where
    /// the backend supplied one.
    pub fn capture(hal: &HalCounters, report: Option<&AllocatorReport>, at_ms: u64) -> (r: Self)
        ensures
            r == capture_spec(
                *hal,
                match report {
                    Some(x) => Some(*x),
                    None => None,
                },
                at_ms,
            ),
    {
        let (blocks, reserved, largest, available) = match report {
            Some(x) => {
                let f = summarise(x);
                (f.blocks as u64, f.reserved_bytes, f.largest_free_run_bytes, 1u64)
            },
            None => (0u64, 0u64, 0u64, 0u64),
        };
        GpuSample {
            at_ms,
            textures: hal.textures as u64,
            texture_views: hal.texture_views as u64,
            buffers: hal.buffers as u64,
            bind_groups: hal.bind_groups as u64,
            bind_group_layouts: hal.bind_group_layouts as u64,
            samplers: hal.samplers as u64,
            render_pipelines: hal.render_pipelines as u64,
            compute_pipelines: hal.compute_pipelines as u64,
            pipeline_layouts: hal.pipeline_layouts as u64,
            shader_modules: hal.shader_modules as u64,
            command_encoders: hal.command_encoders as u64,
            query_sets: hal.query_sets as u64,
            fences: hal.fences as u64,
            memory_allocations: hal.memory_allocations as u64,
            texture_memory_bytes: hal.texture_memory as u64,
            buffer_memory_bytes: hal.buffer_memory as u64,
            allocator_blocks: blocks,
            allocator_reserved_bytes: reserved,
            allocator_largest_free_run_bytes: largest,
            allocator_report_available: available,
        }
    }

    /// The fields worth charting over time, as (name, value) pairs, so the peak table, the
    /// trajectory and the JSON line all walk the same set.
    pub fn tracked_fields(&self) -> (r: [(&'static str, u64); 20])
        ensures
            forall|i: int|
                0 <= i < TRACKED_FIELDS ==> (#[trigger] r@[i]).0@ == tracked_name(i) && r@[i].1
                    == tracked_value(*self, i),
    {
        let r = [
            ("textures", self.textures),
            ("texture_views", self.texture_views),
            ("buffers", self.buffers),
            ("bind_groups", self.bind_groups),
            ("bind_group_layouts", self.bind_group_layouts),
            ("samplers", self.samplers),
            ("render_pipelines", self.render_pipelines),
            ("compute_pipelines", self.compute_pipelines),
            ("pipeline_layouts", self.pipeline_layouts),
            ("shader_modules", self.shader_modules),
            ("command_encoders", self.command_encoders),
            ("query_sets", self.query_sets),
            ("fences", self.fences),
            ("memory_allocations", self.memory_allocations),
            ("texture_memory_bytes", self.texture_memory_bytes),
            ("buffer_memory_bytes", self.buffer_memory_bytes),
            ("allocator_blocks", self.allocator_blocks),
            ("allocator_reserved_bytes", self.allocator_reserved_bytes),
            ("allocator_largest_free_run_bytes", self.allocator_largest_free_run_bytes),
            ("allocator_report_available", self.allocator_report_available),
        ];
        r
    }

    /// One JSON object per sample, for the full-history dump.
    pub fn to_json_line(&self) -> (r: String)
        ensures
            r@ == json_line(*self),
    {
        let fields = self.tracked_fields();
        let mut line = String::new();
        push_char(&mut line, '{');
        let mut i: usize = 0;
        while i < 20
            invariant
                i <= 20,
                line@ == seq!['{'] + json_fields(*self, i as int),
                forall|j: int|
                    0 <= j < TRACKED_FIELDS ==> (#[trigger] fields@[j]).0@ == tracked_name(j)
                        && fields@[j].1 == tracked_value(*self, j),
            decreases 20 - i,
        {
            if i > 0 {
                push_char(&mut line, ',');
            }
            push_char(&mut line, '"');
            line.append(fields[i].0);
            push_char(&mut line, '"');
            push_char(&mut line, ':');
            push_decimal(&mut line, fields[i].1);
            proof {
                let t = fields@[i as int];
                assert(t.0@ == tracked_name(i as int));
            }
            i += 1;
            assert(line@ =~= seq!['{'] + json_fields(*self, i as int));
        }
        push_char(&mut line, ',');
        push_char(&mut line, '"');
        line.append("at_ms");
        push_char(&mut line, '"');
        push_char(&mut line, ':');
        push_decimal(&mut line, self.at_ms);
        push_char(&mut line, '}');
        assert(line@ =~= json_line(*self));
        line
    }
}

/// The highest value the `i`-th charted field reached over a history of samples.
pub open spec fn peak_value(h: Seq<GpuSample>, i: int) -> u64
    decreases h.len(),
{
    if h.len() == 0 {
        0
    } else if h.len() == 1 {
        tracked_value(h[0], i)
    } else {
        let before = peak_value(h.drop_last(), i);
        let v = tracked_value(h.last(), i);
        if v > before {
            v
        } else {
            before
        }
    }
}

/// When the `i`-th charted field first reached its peak.
pub open spec fn peak_at(h: Seq<GpuSample>, i: int) -> u64
    decreases h.len(),
{
    if h.len() == 0 {
        0
    } else if h.len() == 1 {
        h[0].at_ms
    } else if tracked_value(h.last(), i) > peak_value(h.drop_last(), i) {
        h.last().at_ms
    } else {
        peak_at(h.drop_last(), i)
    }
}

/// The part of a history the ring still holds: its last `MAX_SAMPLES` samples.
pub open spec fn ring_window(h: Seq<GpuSample>) -> Seq<GpuSample> {
    if h.len() > MAX_SAMPLES {
        h.subrange(h.len() - MAX_SAMPLES, h.len() as int)
    } else {
        h
    }
}

/// How many samples of a history the ring has let go, stopping at `u64::MAX`.
pub open spec fn dropped_since(h: Seq<GpuSample>) -> int {
    let n = h.len() - ring_window(h).len();
    if n > u64::MAX {
        u64::MAX as int
    } else {
        n
    }
}

/// Whether a sample is due at `now_ns`, given when the last one was taken (both in nanoseconds
/// since the recorder started): a full interval has passed since it.
pub open spec fn sample_due(last_ns: Option<u64>, now_ns: u64) -> bool {
    match last_ns {
        None => true,
        Some(last) => now_ns >= last + SAMPLE_INTERVAL_NS,
    }
}

/// The rolling record.
pub struct GpuTimeline {
    last_sample_ns: Option<u64>,
    samples: VecDeque<GpuSample>,
    /// Highest value seen for each charted field, and when. Kept apart from the ring because the
    /// ring forgets.
    peaks: Vec<(&'static str, u64, u64)>,
    /// Samples dropped off the front of the ring, stopping at `u64::MAX`.
    dropped: u64,
    /// Every sample ever pushed, oldest first.
    history: Ghost<Seq<GpuSample>>,
}

impl GpuTimeline {
    /// Every sample recorded so far, oldest first, including those the ring has dropped.
    pub closed spec fn history(&self) -> Seq<GpuSample> {
        self.history@
    }

    /// The samples the ring holds, oldest first.
    pub closed spec fn window(&self) -> Seq<GpuSample> {
        self.samples@
    }

    /// How many samples fell off the front of the ring.
    pub closed spec fn dropped_count(&self) -> nat {
        self.dropped as nat
    }

    /// When the last sample was taken, if one was.
    pub closed spec fn last_sample_ns(&self) -> Option<u64> {
        self.last_sample_ns
    }

    /// The ring holds the last samples of the history, the count of the rest is kept, and the
    /// peak table agrees with the whole history.
    pub closed spec fn wf(&self) -> bool {
        &&& self.samples@ == ring_window(self.history@)
        &&& self.dropped as int == dropped_since(self.history@)
        &&& self.peaks@.len() == if self.history@.len() == 0 {
            0
        } else {
            TRACKED_FIELDS as int
        }
        &&& self.history@.len() > 0 ==> forall|i: int|
            0 <= i < TRACKED_FIELDS ==> (#[trigger] self.peaks@[i]).0@ == tracked_name(i)
                && self.peaks@[i].1 == peak_value(self.history@, i) && self.peaks@[i].2
                == peak_at(self.history@, i)
    }

    /// An empty record.
    pub fn new() -> (r: Self)
        ensures
            r.wf(),
            r.history() == Seq::<GpuSample>::empty(),
            r.window() == Seq::<GpuSample>::empty(),
            r.dropped_count() == 0,
            r.last_sample_ns() == None::<u64>,
    {
        GpuTimeline {
            last_sample_ns: None,
            samples: VecDeque::with_capacity(MAX_SAMPLES),
            peaks: Vec::new(),
            dropped: 0,
            history: Ghost(Seq::empty()),
        }
    }

    /// Whether nothing has been recorded.
    pub fn is_empty(&self) -> (r: bool)
        requires
            self.wf(),
        ensures
            r == (self.history().len() == 0),
    {
        self.samples.len() == 0
    }

    /// Record one sample: it joins the ring, the oldest sample leaves when the ring is full, and
    /// every peak it beats is replaced.
    pub fn push(&mut self, sample: GpuSample)
        requires
            old(self).wf(),
        ensures
            final(self).wf(),
            final(self).history() == old(self).history().push(sample),
            final(self).window() == ring_window(final(self).history()),
            final(self).dropped_count() == dropped_since(final(self).history()),
            final(self).last_sample_ns() == old(self).last_sample_ns(),
    {
        let ghost h = self.history@;
        let ghost h2 = h.push(sample);
        let ghost s0 = self.samples@;
        let ghost d0 = self.dropped;
        let ghost l0 = self.last_sample_ns;
        assert(s0 == ring_window(h));
        assert(d0 == dropped_since(h));
        let fields = sample.tracked_fields();
        if self.peaks.len() == 0 {
            let mut peaks: Vec<(&'static str, u64, u64)> = Vec::new();
            let mut i: usize = 0;
            while i < 20
                invariant
                    i <= 20,
                    h.len() == 0,
                    h2 == h.push(sample),
                    peaks@.len() == i,
                    forall|j: int|
                        0 <= j < TRACKED_FIELDS ==> (#[trigger] fields@[j]).0@ == tracked_name(j)
                            && fields@[j].1 == tracked_value(sample, j),
                    forall|j: int|
                        0 <= j < i ==> (#[trigger] peaks@[j]).0@ == tracked_name(j) && peaks@[j].1
                            == peak_value(h2, j) && peaks@[j].2 == peak_at(h2, j),
                decreases 20 - i,
            {
                let (name, value) = fields[i];
                proof {
                    assert(h2.len() == 1);
                    assert(h2[0] == sample);
                }
                peaks.push((name, value, sample.at_ms));
                i += 1;
            }
            self.peaks = peaks;
        } else {
            let mut i: usize = 0;
            while i < 20
                invariant
                    i <= 20,
                    h.len() > 0,
                    h2 == h.push(sample),
                    self.samples@ == s0,
                    self.dropped == d0,
                    self.history@ == h,
                    self.last_sample_ns == l0,
                    self.peaks@.len() == TRACKED_FIELDS,
                    forall|j: int|
                        0 <= j < TRACKED_FIELDS ==> (#[trigger] fields@[j]).0@ == tracked_name(j)
                            && fields@[j].1 == tracked_value(sample, j),
                    forall|j: int|
                        0 <= j < i ==> (#[trigger] self.peaks@[j]).0@ == tracked_name(j)
                            && self.peaks@[j].1 == peak_value(h2, j) && self.peaks@[j].2
                            == peak_at(h2, j),
                    forall|j: int|
                        i <= j < TRACKED_FIELDS ==> (#[trigger] self.peaks@[j]).0@ == tracked_name(
                            j,
                        ) && self.peaks@[j].1 == peak_value(h, j) && self.peaks@[j].2 == peak_at(
                            h,
                            j,
                        ),
                decreases 20 - i,
            {
                let value = fields[i].1;
                let current = self.peaks[i];
                proof {
                    assert(h2.drop_last() =~= h);
                    assert(h2.last() == sample);
                }
                if value > current.1 {
                    self.peaks.set(i, (current.0, value, sample.at_ms));
                }
                i += 1;
            }
        }
        assert(self.samples@ == s0 && self.dropped == d0);
        if self.samples.len() == MAX_SAMPLES {
            assert(h.len() >= MAX_SAMPLES);
            self.samples.pop_front();
            self.dropped = self.dropped.saturating_add(1);
        }
        self.samples.push_back(sample);
        proof {
            self.history@ = h2;
            if h.len() >= MAX_SAMPLES {
                assert(s0 =~= h.subrange(h.len() - MAX_SAMPLES, h.len() as int));
                assert(self.samples@ =~= h2.subrange(h2.len() - MAX_SAMPLES, h2.len() as int));
            } else {
                assert(self.samples@ =~= h2);
            }
        }
    }

    /// Take a sample if a second has passed since the last one; safe to call every frame.
    ///
    /// `now_ns` is the time since the recorder started, in nanoseconds; the sample is stamped
    /// with it in whole milliseconds. Returns the sample when one was taken, so a caller writing
    /// the full history elsewhere writes exactly what was recorded.
    pub fn maybe_sample(
        &mut self,
        now_ns: u64,
        hal: &HalCounters,
        report: Option<&AllocatorReport>,
    ) -> (r: Option<GpuSample>)
        requires
            old(self).wf(),
        ensures
            final(self).wf(),
            sample_due(old(self).last_sample_ns(), now_ns) ==> {
                let sample = capture_spec(
                    *hal,
                    match report {
                        Some(x) => Some(*x),
                        None => None,
                    },
                    now_ns / 1_000_000,
                );
                &&& r == Some(sample)
                &&& final(self).history() == old(self).history().push(sample)
                &&& final(self).last_sample_ns() == Some(now_ns)
            },
            !sample_due(old(self).last_sample_ns(), now_ns) ==> r == None::<GpuSample>
                && *final(self) == *old(self),
    {
        if let Some(last) = self.last_sample_ns {
            if now_ns < last || now_ns - last < SAMPLE_INTERVAL_NS {
                return None;
            }
        }
        self.last_sample_ns = Some(now_ns);
        let sample = GpuSample::capture(hal, report, now_ns / 1_000_000);
        self.push(sample);
        Some(sample)
    }
}

impl Default for GpuTimeline {
    fn default() -> (r: Self)
        ensures
            r.wf(),
            r.history() == Seq::<GpuSample>::empty(),
            r.window() == Seq::<GpuSample>::empty(),
            r.dropped_count() == 0,
            r.last_sample_ns() == None::<u64>,
    {
        Self::new()
    }
}

/// A time in milliseconds, shown in seconds with one decimal.
pub open spec fn seconds_text(ms: u64) -> Seq<char> {
    fixed_point(ms as nat, 1000, 1)
}

/// A size in bytes, shown in mebibytes with one decimal.
pub open spec fn mebibytes_text(bytes: u64) -> Seq<char> {
    fixed_point(bytes as nat, 1048576, 1)
}

/// The report's opening line: how many samples, the span they cover, and what the ring lost.
pub open spec fn report_header(samples: Seq<GpuSample>, dropped: nat) -> Seq<char> {
    decimal(samples.len()) + " samples covering "@ + seconds_text(samples[0].at_ms) + "s to "@
        + seconds_text(samples.last().at_ms) + "s after the renderer started"@ + (if dropped > 0 {
        " ("@ + decimal(dropped) + " earlier samples dropped from the ring)"@
    } else {
        Seq::empty()
    }) + "\n\n"@
}

/// The peak table's column headings.
pub open spec fn peak_heading() -> Seq<char> {
    "  "@ + left_aligned(""@, 22) + " "@ + right_aligned("peak"@, 12) + " "@ + right_aligned(
        "final"@,
        12,
    ) + " "@ + right_aligned("peak at"@, 10) + "\n"@
}

/// One row of the peak table.
pub open spec fn peak_row(name: Seq<char>, peak: u64, final_value: u64, peak_ms: u64) -> Seq<
    char,
> {
    "  "@ + left_aligned(name, 22) + " "@ + right_aligned(decimal(peak as nat), 12) + " "@
        + right_aligned(decimal(final_value as nat), 12) + " "@ + right_aligned(
        seconds_text(peak_ms),
        9,
    ) + "s\n"@
}

/// The first `k` rows of the peak table, for a history and its final sample.
pub open spec fn peak_rows(h: Seq<GpuSample>, last: GpuSample, k: int) -> Seq<char>
    decreases k,
{
    if k <= 0 {
        Seq::empty()
    } else {
        peak_rows(h, last, k - 1) + peak_row(
            tracked_name(k - 1),
            peak_value(h, k - 1),
            tracked_value(last, k - 1),
            peak_at(h, k - 1),
        )
    }
}

/// Peak against final for every charted field, with the time of each peak.
pub open spec fn peak_table(h: Seq<GpuSample>, last: GpuSample) -> Seq<char> {
    "peak vs final:\n"@ + peak_heading() + peak_rows(h, last, TRACKED_FIELDS as int)
}

/// Every how many samples the trajectory shows one, so that it stays near thirty rows.
pub open spec fn trajectory_step(n: nat) -> nat {
    let step = (n + 29) / 30;
    if step > 1 {
        step
    } else {
        1
    }
}

/// The trajectory's title, which says how it was thinned.
pub open spec fn trajectory_title(step: nat) -> Seq<char> {
    if step > 1 {
        "trajectory (every "@ + decimal(step) + " samples):\n"@
    } else {
        "trajectory:\n"@
    }
}

/// The trajectory's column headings.
pub open spec fn trajectory_heading() -> Seq<char> {
    "  "@ + right_aligned("at"@, 8) + " "@ + right_aligned("textures"@, 9) + " "@ + right_aligned(
        "views"@,
        9,
    ) + " "@ + right_aligned("buffers"@, 9) + " "@ + right_aligned("allocs"@, 7) + " "@
        + right_aligned("tex MB"@, 11) + " "@ + right_aligned("buf MB"@, 11) + "\n"@
}

/// One row of the trajectory.
pub open spec fn trajectory_row(s: GpuSample) -> Seq<char> {
    "  "@ + right_aligned(seconds_text(s.at_ms), 7) + "s "@ + right_aligned(
        decimal(s.textures as nat),
        9,
    ) + " "@ + right_aligned(decimal(s.texture_views as nat), 9) + " "@ + right_aligned(
        decimal(s.buffers as nat),
        9,
    ) + " "@ + right_aligned(decimal(s.memory_allocations as nat), 7) + " "@ + right_aligned(
        mebibytes_text(s.texture_memory_bytes),
        11,
    ) + " "@ + right_aligned(mebibytes_text(s.buffer_memory_bytes), 11) + "\n"@
}

/// Whether the trajectory shows the sample at `index`: every `step`-th one, and always the last.
pub open spec fn trajectory_shows(n: nat, step: nat, index: int) -> bool {
    index % (step as int) == 0 || index == n - 1
}

/// The trajectory rows among the first `k` samples.
pub open spec fn trajectory_rows(samples: Seq<GpuSample>, step: nat, k: int) -> Seq<char>
    decreases k,
{
    if k <= 0 {
        Seq::empty()
    } else {
        trajectory_rows(samples, step, k - 1) + (if trajectory_shows(
            samples.len(),
            step,
            k - 1,
        ) {
            trajectory_row(samples[k - 1])
        } else {
            Seq::empty()
        })
    }
}

/// The samples themselves, thinned to something readable.
pub open spec fn trajectory(samples: Seq<GpuSample>) -> Seq<char> {
    let step = trajectory_step(samples.len());
    trajectory_title(step) + trajectory_heading() + trajectory_rows(
        samples,
        step,
        samples.len() as int,
    )
}

/// The crash-file report for a history, the window the ring holds and the count it dropped.
pub open spec fn report_text(h: Seq<GpuSample>, window: Seq<GpuSample>, dropped: nat) -> Seq<
    char,
> {
    if window.len() == 0 {
        "No samples were taken before the device was lost."@
    } else {
        report_header(window, dropped) + peak_table(h, window.last()) + "\n"@ + trajectory(window)
    }
}

fn push_peak_row(s: &mut String, name: &str, peak: u64, final_value: u64, peak_ms: u64)
    ensures
        final(s)@ == old(s)@ + peak_row(name@, peak, final_value, peak_ms),
{
    s.append("  ");
    push_left_aligned(s, name, 22);
    s.append(" ");
    push_right_aligned(s, decimal_string(peak).as_str(), 12);
    s.append(" ");
    push_right_aligned(s, decimal_string(final_value).as_str(), 12);
    s.append(" ");
    push_right_aligned(s, fixed_point_string(peak_ms, 1000, 1).as_str(), 9);
    s.append("s\n");
    assert(final(s)@ =~= old(s)@ + peak_row(name@, peak, final_value, peak_ms));
}

fn push_trajectory_row(s: &mut String, sample: &GpuSample)
    ensures
        final(s)@ == old(s)@ + trajectory_row(*sample),
{
    let mut row = String::new();
    row.append("  ");
    assert(row@ =~= "  "@);
    push_right_aligned(&mut row, fixed_point_string(sample.at_ms, 1000, 1).as_str(), 7);
    row.append("s ");
    push_right_aligned(&mut row, decimal_string(sample.textures).as_str(), 9);
    row.append(" ");
    push_right_aligned(&mut row, decimal_string(sample.texture_views).as_str(), 9);
    row.append(" ");
    push_right_aligned(&mut row, decimal_string(sample.buffers).as_str(), 9);
    row.append(" ");
    push_right_aligned(&mut row, decimal_string(sample.memory_allocations).as_str(), 7);
    row.append(" ");
    push_right_aligned(
        &mut row,
        fixed_point_string(sample.texture_memory_bytes, 1048576, 1).as_str(),
        11,
    );
    row.append(" ");
    push_right_aligned(
        &mut row,
        fixed_point_string(sample.buffer_memory_bytes, 1048576, 1).as_str(),
        11,
    );
    row.append("\n");
    s.append(row.as_str());
}

fn trajectory_heading_string() -> (r: String)
    ensures
        r@ == trajectory_heading(),
{
    let mut row = String::new();
    row.append("  ");
    assert(row@ =~= "  "@);
    push_right_aligned(&mut row, "at", 8);
    row.append(" ");
    push_right_aligned(&mut row, "textures", 9);
    row.append(" ");
    push_right_aligned(&mut row, "views", 9);
    row.append(" ");
    push_right_aligned(&mut row, "buffers", 9);
    row.append(" ");
    push_right_aligned(&mut row, "allocs", 7);
    row.append(" ");
    push_right_aligned(&mut row, "tex MB", 11);
    row.append(" ");
    push_right_aligned(&mut row, "buf MB", 11);
    row.append("\n");
    row
}

impl GpuTimeline {
    /// The report that goes into a crash file.
    pub fn report(&self) -> (r: String)
        requires
            self.wf(),
        ensures
            r@ == report_text(self.history(), self.window(), self.dropped_count()),
    {
        if self.samples.len() == 0 {
            return String::from_str("No samples were taken before the device was lost.");
        }
        let n = self.samples.len();
        let first = self.samples[0];
        let last = self.samples[n - 1];
        let mut report = String::new();
        push_decimal(&mut report, n as u64);
        report.append(" samples covering ");
        push_fixed_point(&mut report, first.at_ms, 1000, 1);
        report.append("s to ");
        push_fixed_point(&mut report, last.at_ms, 1000, 1);
        report.append("s after the renderer started");
        if self.dropped > 0 {
            report.append(" (");
            push_decimal(&mut report, self.dropped);
            report.append(" earlier samples dropped from the ring)");
        }
        report.append("\n\n");
        let ghost header = report@;
        assert(header =~= report_header(self.samples@, self.dropped as nat));
        self.push_peak_table(&mut report, &last);
        report.append("\n");
        self.push_trajectory(&mut report);
        assert(report@ =~= report_text(self.history(), self.window(), self.dropped_count()));
        report
    }

    /// Peak against final, with the time each peak happened.
    fn push_peak_table(&self, table: &mut String, last: &GpuSample)
        requires
            self.wf(),
            self.history().len() > 0,
        ensures
            final(table)@ == old(table)@ + peak_table(self.history(), *last),
    {
        table.append("peak vs final:\n");
        table.append("  ");
        push_left_aligned(table, "", 22);
        table.append(" ");
        push_right_aligned(table, "peak", 12);
        table.append(" ");
        push_right_aligned(table, "final", 12);
        table.append(" ");
        push_right_aligned(table, "peak at", 10);
        table.append("\n");
        let ghost start = table@;
        assert(start =~= old(table)@ + "peak vs final:\n"@ + peak_heading());
        let fields = last.tracked_fields();
        let mut i: usize = 0;
        while i < 20
            invariant
                i <= 20,
                self.wf(),
                self.history().len() > 0,
                table@ == start + peak_rows(self.history(), *last, i as int),
                forall|j: int|
                    0 <= j < TRACKED_FIELDS ==> (#[trigger] fields@[j]).0@ == tracked_name(j)
                        && fields@[j].1 == tracked_value(*last, j),
            decreases 20 - i,
        {
            let (name, peak, peak_ms) = self.peaks[i];
            proof {
                assert(self.peaks@[i as int].0@ == tracked_name(i as int));
            }
            push_peak_row(table, name, peak, fields[i].1, peak_ms);
            i += 1;
            assert(table@ =~= start + peak_rows(self.history(), *last, i as int));
        }
        assert(final(table)@ =~= old(table)@ + peak_table(self.history(), *last));
    }

    /// The samples themselves, thinned to roughly thirty rows; the last is always shown.
    fn push_trajectory(&self, table: &mut String)
        requires
            self.wf(),
            self.window().len() > 0,
        ensures
            final(table)@ == old(table)@ + trajectory(self.window()),
    {
        let n = self.samples.len();
        let rounded_up = n / 30 + if n % 30 == 0 {
            0
        } else {
            1
        };
        let step = if rounded_up > 1 {
            rounded_up
        } else {
            1
        };
        assert(step == trajectory_step(n as nat)) by (nonlinear_arith)
            requires
                rounded_up == n / 30 + if n % 30 == 0 {
                    0int
                } else {
                    1int
                },
                step == if rounded_up > 1 {
                    rounded_up
                } else {
                    1
                },
                n >= 1,
        ;
        if step > 1 {
            table.append("trajectory (every ");
            push_decimal(table, step as u64);
            table.append(" samples):\n");
        } else {
            table.append("trajectory:\n");
        }
        table.append(trajectory_heading_string().as_str());
        let ghost start = table@;
        assert(start =~= old(table)@ + trajectory_title(step as nat) + trajectory_heading());
        let last_index = n - 1;
        let mut index: usize = 0;
        while index < n
            invariant
                index <= n,
                n == self.samples@.len(),
                n >= 1,
                step >= 1,
                last_index == n - 1,
                table@ == start + trajectory_rows(self.samples@, step as nat, index as int),
            decreases n - index,
        {
            if index % step == 0 || index == last_index {
                let sample = self.samples[index];
                push_trajectory_row(table, &sample);
            }
            index += 1;
            assert(table@ =~= start + trajectory_rows(self.samples@, step as nat, index as int));
        }
        assert(final(table)@ =~= old(table)@ + trajectory(self.window()));
    }
}

/// A peak is never below any value the field took: a count that climbed and fell back still
/// shows its height, even after the sample that held it has left the ring.
pub proof fn law_peak_covers_every_recorded_value(h: Seq<GpuSample>, i: int, j: int)
    requires
        0 <= j < h.len(),
    ensures
        tracked_value(h[j], i) <= peak_value(h, i),
    decreases h.len(),
{
    if h.len() > 1 && j < h.len() - 1 {
        law_peak_covers_every_recorded_value(h.drop_last(), i, j);
        assert(h.drop_last()[j] == h[j]);
    }
}

/// A peak is a value the field really took, and its time is that of the first sample that
/// reached it.
pub proof fn law_peak_was_recorded(h: Seq<GpuSample>, i: int)
    requires
        h.len() > 0,
    ensures
        exists|j: int|
            0 <= j < h.len() && tracked_value(#[trigger] h[j], i) == peak_value(h, i) && h[j].at_ms
                == peak_at(h, i),
    decreases h.len(),
{
    if h.len() == 1 {
        assert(tracked_value(h[0], i) == peak_value(h, i));
    } else {
        let before = h.drop_last();
        law_peak_was_recorded(before, i);
        if tracked_value(h.last(), i) > peak_value(before, i) {
            assert(tracked_value(h[h.len() - 1], i) == peak_value(h, i));
        } else {
            let j = choose|j: int|
                0 <= j < before.len() && tracked_value(#[trigger] before[j], i) == peak_value(
                    before,
                    i,
                ) && before[j].at_ms == peak_at(before, i);
            assert(h[j] == before[j]);
        }
    }
}

/// The ring holds the latest samples, newest last, never more than `MAX_SAMPLES` of them, and
/// forgets only what is older.
pub proof fn law_ring_keeps_the_latest(h: Seq<GpuSample>)
    ensures
        ring_window(h).len() == if h.len() > MAX_SAMPLES {
            MAX_SAMPLES as int
        } else {
            h.len() as int
        },
        forall|k: int|
            0 <= k < ring_window(h).len() ==> #[trigger] ring_window(h)[ring_window(h).len() - 1 - k]
                == h[h.len() - 1 - k],
{
}

/// A captured sample charts what the device reported: its first fourteen fields are the
/// live-object counts in the order the device's counter list gives them, its two memory fields
/// are the device's texture and buffer memory, its allocator fields are the allocator report's
/// summary (zero, and marked unavailable, when there is none), and it carries the time it was
/// taken.
pub proof fn law_a_sample_charts_each_counter_under_its_own_name(
    hal: HalCounters,
    report: Option<AllocatorReport>,
    at_ms: u64,
)
    ensures
        forall|i: int|
            0 <= i < 14 ==> #[trigger] tracked_value(capture_spec(hal, report, at_ms), i)
                == object_count(hal, i) as u64,
        capture_spec(hal, report, at_ms).texture_memory_bytes == hal.texture_memory as u64,
        capture_spec(hal, report, at_ms).buffer_memory_bytes == hal.buffer_memory as u64,
        capture_spec(hal, report, at_ms).at_ms == at_ms,
        report matches Some(r) ==> capture_spec(hal, report, at_ms).allocator_blocks
            == r.blocks.len() && capture_spec(hal, report, at_ms).allocator_reserved_bytes
            == r.total_reserved_bytes && capture_spec(
            hal,
            report,
            at_ms,
        ).allocator_largest_free_run_bytes == summary_spec(r).largest_free_run_bytes
            && capture_spec(hal, report, at_ms).allocator_report_available == 1,
        report is None ==> capture_spec(hal, report, at_ms).allocator_blocks == 0
            && capture_spec(hal, report, at_ms).allocator_reserved_bytes == 0 && capture_spec(
            hal,
            report,
            at_ms,
        ).allocator_largest_free_run_bytes == 0 && capture_spec(
            hal,
            report,
            at_ms,
        ).allocator_report_available == 0,
{
    let s = capture_spec(hal, report, at_ms);
    assert forall|i: int| 0 <= i < 14 implies #[trigger] tracked_value(s, i) == object_count(hal, i)
        as u64 by {
        if i == 13 {
            assert(tracked_value(s, 13) == s.memory_allocations);
        }
    }
}

/// The last sample is the closest look at the failure, and the trajectory never thins it away.
pub proof fn law_trajectory_shows_the_last_sample(samples: Seq<GpuSample>)
    requires
        samples.len() > 0,
    ensures
        trajectory_shows(
            samples.len(),
            trajectory_step(samples.len()),
            samples.len() - 1,
        ),
{
}

} // verus!
