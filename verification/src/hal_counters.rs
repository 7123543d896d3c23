//! The device's live-object and memory counters, and the plain-text account of them that goes
//! into a crash report.
//!
//! `memory_allocations` is the one to read first: it counts real driver allocations, and Vulkan
//! caps those per device, so a driver can report running out of device memory on that limit while
//! most of the card is still free.
use vstd::prelude::*;
use vstd::string::*;

use crate::text::{
    decimal, fixed_point, left_aligned, push_char, push_decimal, push_fixed_point, push_left_aligned,
};

verus! {

/// The device's live-object and memory counters at one moment, as wgpu-hal reports them.
#[derive(Clone, Copy, Debug, Default, PartialEq, Eq, Structural)]
pub struct HalCounters {
    pub buffers: isize,
    pub textures: isize,
    pub texture_views: isize,
    pub bind_groups: isize,
    pub bind_group_layouts: isize,
    pub render_pipelines: isize,
    pub compute_pipelines: isize,
    pub pipeline_layouts: isize,
    pub samplers: isize,
    pub command_encoders: isize,
    pub shader_modules: isize,
    pub query_sets: isize,
    pub fences: isize,
    /// Bytes of device memory attributed to buffers.
    pub buffer_memory: isize,
    /// Bytes of device memory attributed to textures.
    pub texture_memory: isize,
    /// Real driver allocations; Vulkan caps these per device.
    pub memory_allocations: isize,
}

/// The `i`-th counter of the live-object list, in report order.
pub open spec fn object_count(hal: HalCounters, i: int) -> isize {
    if i == 0 {
        hal.textures
    } else if i == 1 {
        hal.texture_views
    } else if i == 2 {
        hal.buffers
    } else if i == 3 {
        hal.bind_groups
    } else if i == 4 {
        hal.bind_group_layouts
    } else if i == 5 {
        hal.samplers
    } else if i == 6 {
        hal.render_pipelines
    } else if i == 7 {
        hal.compute_pipelines
    } else if i == 8 {
        hal.pipeline_layouts
    } else if i == 9 {
        hal.shader_modules
    } else if i == 10 {
        hal.command_encoders
    } else if i == 11 {
        hal.query_sets
    } else if i == 12 {
        hal.fences
    } else {
        hal.memory_allocations
    }
}

/// The label of the `i`-th counter of the live-object list.
pub open spec fn object_label(i: int) -> Seq<char> {
    if i == 0 {
        "textures"@
    } else if i == 1 {
        "texture views"@
    } else if i == 2 {
        "buffers"@
    } else if i == 3 {
        "bind groups"@
    } else if i == 4 {
        "bind group layouts"@
    } else if i == 5 {
        "samplers"@
    } else if i == 6 {
        "render pipelines"@
    } else if i == 7 {
        "compute pipelines"@
    } else if i == 8 {
        "pipeline layouts"@
    } else if i == 9 {
        "shader modules"@
    } else if i == 10 {
        "command encoders"@
    } else if i == 11 {
        "query sets"@
    } else if i == 12 {
        "fences"@
    } else {
        "memory allocations"@
    }
}

/// How many counters the live-object list shows.
pub const OBJECT_COUNTERS: usize = 14;

/// An integer in decimal, with a minus sign when negative.
pub open spec fn signed_decimal(n: int) -> Seq<char> {
    if n < 0 {
        seq!['-'] + decimal((-n) as nat)
    } else {
        decimal(n as nat)
    }
}

/// A byte count in mebibytes with one decimal, with a minus sign when negative.
pub open spec fn signed_mebibytes(n: int) -> Seq<char> {
    if n < 0 {
        seq!['-'] + fixed_point((-n) as nat, 1048576, 1)
    } else {
        fixed_point(n as nat, 1048576, 1)
    }
}

/// One line of the live-object list.
pub open spec fn object_line(label: Seq<char>, count: isize) -> Seq<char> {
    "  "@ + left_aligned(label, 20) + " "@ + signed_decimal(count as int) + "\n"@
}

/// The first `k` lines of the live-object list.
pub open spec fn object_lines(hal: HalCounters, k: int) -> Seq<char>
    decreases k,
{
    if k <= 0 {
        Seq::empty()
    } else {
        object_lines(hal, k - 1) + object_line(object_label(k - 1), object_count(hal, k - 1))
    }
}

/// One line of the memory section.
pub open spec fn memory_line(label: Seq<char>, bytes: isize) -> Seq<char> {
    "  "@ + left_aligned(label, 20) + " "@ + signed_mebibytes(bytes as int) + " MB\n"@
}

/// The whole account: every live-object count, then the memory wgpu-hal attributes to textures
/// and to buffers.
pub open spec fn hal_counters_text(hal: HalCounters) -> Seq<char> {
    "live GPU objects:\n"@ + object_lines(hal, OBJECT_COUNTERS as int)
        + "\nGPU memory attributed by wgpu-hal:\n"@ + memory_line("textures"@, hal.texture_memory)
        + memory_line("buffers"@, hal.buffer_memory)
}

fn push_signed_decimal(s: &mut String, n: isize)
    ensures
        final(s)@ == old(s)@ + signed_decimal(n as int),
{
    if n < 0 {
        push_char(s, '-');
        let magnitude: u64 = (0i128 - n as i128) as u64;
        push_decimal(s, magnitude);
    } else {
        push_decimal(s, n as u64);
    }
    assert(final(s)@ =~= old(s)@ + signed_decimal(n as int));
}

fn push_signed_mebibytes(s: &mut String, n: isize)
    ensures
        final(s)@ == old(s)@ + signed_mebibytes(n as int),
{
    if n < 0 {
        push_char(s, '-');
        let magnitude: u64 = (0i128 - n as i128) as u64;
        push_fixed_point(s, magnitude, 1048576, 1);
    } else {
        push_fixed_point(s, n as u64, 1048576, 1);
    }
    assert(final(s)@ =~= old(s)@ + signed_mebibytes(n as int));
}

fn push_object_line(s: &mut String, label: &str, count: isize)
    ensures
        final(s)@ == old(s)@ + object_line(label@, count),
{
    let mut line = String::new();
    line.append("  ");
    assert(line@ =~= "  "@);
    push_left_aligned(&mut line, label, 20);
    line.append(" ");
    push_signed_decimal(&mut line, count);
    line.append("\n");
    s.append(line.as_str());
}

fn push_memory_line(s: &mut String, label: &str, bytes: isize)
    ensures
        final(s)@ == old(s)@ + memory_line(label@, bytes),
{
    let mut line = String::new();
    line.append("  ");
    assert(line@ =~= "  "@);
    push_left_aligned(&mut line, label, 20);
    line.append(" ");
    push_signed_mebibytes(&mut line, bytes);
    line.append(" MB\n");
    s.append(line.as_str());
}

/// The live-object counts, as (label, count) pairs in report order.
fn object_counts(hal: &HalCounters) -> (r: [(&'static str, isize); 14])
    ensures
        forall|i: int|
            0 <= i < OBJECT_COUNTERS ==> (#[trigger] r@[i]).0@ == object_label(i) && r@[i].1
                == object_count(*hal, i),
{
    [
        ("textures", hal.textures),
        ("texture views", hal.texture_views),
        ("buffers", hal.buffers),
        ("bind groups", hal.bind_groups),
        ("bind group layouts", hal.bind_group_layouts),
        ("samplers", hal.samplers),
        ("render pipelines", hal.render_pipelines),
        ("compute pipelines", hal.compute_pipelines),
        ("pipeline layouts", hal.pipeline_layouts),
        ("shader modules", hal.shader_modules),
        ("command encoders", hal.command_encoders),
        ("query sets", hal.query_sets),
        ("fences", hal.fences),
        ("memory allocations", hal.memory_allocations),
    ]
}

/// How many GPU objects were alive and how much memory wgpu-hal attributes to them, for a crash
/// report.
pub fn format_hal_counters(hal: &HalCounters) -> (r: String)
    ensures
        r@ == hal_counters_text(*hal),
{
    let counts = object_counts(hal);
    let mut report = String::from_str("live GPU objects:\n");
    let ghost start = report@;
    let mut i: usize = 0;
    while i < 14
        invariant
            i <= 14,
            report@ == start + object_lines(*hal, i as int),
            forall|j: int|
                0 <= j < OBJECT_COUNTERS ==> (#[trigger] counts@[j]).0@ == object_label(j)
                    && counts@[j].1 == object_count(*hal, j),
        decreases 14 - i,
    {
        let (label, count) = counts[i];
        proof {
            assert(counts@[i as int].0@ == object_label(i as int));
        }
        push_object_line(&mut report, label, count);
        i += 1;
        assert(report@ =~= start + object_lines(*hal, i as int));
    }
    report.append("\nGPU memory attributed by wgpu-hal:\n");
    push_memory_line(&mut report, "textures", hal.texture_memory);
    push_memory_line(&mut report, "buffers", hal.buffer_memory);
    assert(report@ =~= hal_counters_text(*hal));
    report
}

} // verus!
