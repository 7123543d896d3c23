//! Device policies of the render backend: memory hints, submission retirement and the sizes
//! filters work on.
use std::collections::VecDeque;
use vstd::prelude::*;
use vstd::string::*;

use crate::switches::bytes_equal;

verus! {

/// Which graphics API an adapter is driven through.
#[derive(Clone, Copy, Debug, Eq, PartialEq, Structural)]
pub enum Backend {
    Noop,
    Vulkan,
    Metal,
    Dx12,
    Gl,
    BrowserWebGpu,
}

/// How the device's memory allocator sizes the blocks it asks the driver for.
#[derive(Clone, Copy, Debug, Eq, PartialEq, Structural)]
pub enum MemoryHints {
    /// Large blocks, asked for rarely.
    Performance,
    /// Small blocks, to keep unused reservations low.
    MemoryUsage,
}

/// What the renderer needs to know about an adapter.
#[derive(Clone, Debug)]
pub struct AdapterInfo {
    pub name: String,
    pub vendor: u32,
    pub backend: Backend,
}

/// PCI vendor id of AMD.
pub const AMD_VENDOR_ID: u32 = 0x1002;

/// How many frames may be in flight on AMD's Vulkan driver before the oldest is waited on.
pub const AMD_VULKAN_MAX_FRAMES_IN_FLIGHT: usize = 2;

/// Whether an adapter is an AMD card driven through Vulkan.
pub open spec fn is_amd_vulkan_spec(info: AdapterInfo) -> bool {
    info.vendor == AMD_VENDOR_ID && info.backend == Backend::Vulkan
}

pub fn is_amd_vulkan(info: &AdapterInfo) -> (r: bool)
    ensures
        r == is_amd_vulkan_spec(*info),
{
    info.vendor == AMD_VENDOR_ID && info.backend == Backend::Vulkan
}

/// The memory policy for an adapter: large blocks for every adapter.
pub fn memory_hints_for_adapter_info(adapter_info: &AdapterInfo) -> (r: MemoryHints)
    ensures
        r == MemoryHints::Performance,
{
    MemoryHints::Performance
}

/// How many submissions may be in flight: bounded on AMD Vulkan, unbounded elsewhere.
pub fn submission_retirement_limit_for_adapter_info(adapter_info: &AdapterInfo) -> (r: Option<
    usize,
>)
    ensures
        is_amd_vulkan_spec(*adapter_info) ==> r == Some(AMD_VULKAN_MAX_FRAMES_IN_FLIGHT),
        !is_amd_vulkan_spec(*adapter_info) ==> r is None,
{
    if is_amd_vulkan(adapter_info) {
        Some(AMD_VULKAN_MAX_FRAMES_IN_FLIGHT)
    } else {
        None
    }
}

/// The characters `str::trim` removes: Unicode's `White_Space`.
pub open spec fn is_whitespace_spec(c: char) -> bool {
    ||| c == '\t'
    ||| c == '\n'
    ||| c == '\u{b}'
    ||| c == '\u{c}'
    ||| c == '\r'
    ||| c == ' '
    ||| c == '\u{85}'
    ||| c == '\u{a0}'
    ||| c == '\u{1680}'
    ||| ('\u{2000}' <= c && c <= '\u{200a}')
    ||| c == '\u{2028}'
    ||| c == '\u{2029}'
    ||| c == '\u{202f}'
    ||| c == '\u{205f}'
    ||| c == '\u{3000}'
}

pub fn is_whitespace(c: char) -> (r: bool)
    ensures
        r == is_whitespace_spec(c),
{
    c == '\t' || c == '\n' || c == '\u{b}' || c == '\u{c}' || c == '\r' || c == ' ' || c
        == '\u{85}' || c == '\u{a0}' || c == '\u{1680}' || ('\u{2000}' <= c && c <= '\u{200a}')
        || c == '\u{2028}' || c == '\u{2029}' || c == '\u{202f}' || c == '\u{205f}' || c
        == '\u{3000}'
}

/// `s` without leading whitespace.
pub open spec fn trim_start_spec(s: Seq<char>) -> Seq<char>
    decreases s.len(),
{
    if s.len() > 0 && is_whitespace_spec(s[0]) {
        trim_start_spec(s.drop_first())
    } else {
        s
    }
}

/// `s` without trailing whitespace.
pub open spec fn trim_end_spec(s: Seq<char>) -> Seq<char>
    decreases s.len(),
{
    if s.len() > 0 && is_whitespace_spec(s.last()) {
        trim_end_spec(s.drop_last())
    } else {
        s
    }
}

/// `s` without leading or trailing whitespace, as `str::trim` gives it.
pub open spec fn trim_spec(s: Seq<char>) -> Seq<char> {
    trim_end_spec(trim_start_spec(s))
}

/// A character with ASCII letters folded to lower case.
pub open spec fn lower_char(c: char) -> char {
    if 'A' <= c && c <= 'Z' {
        ((c as u32) + 32) as char
    } else {
        c
    }
}

/// `s` with ASCII letters folded to lower case, as `str::to_ascii_lowercase` gives it.
pub open spec fn lower_spec(s: Seq<char>) -> Seq<char> {
    s.map_values(|c: char| lower_char(c))
}

/// The memory policy a value names, after trimming and without regard to ASCII case:
/// `performance`, or `usage`, `memoryusage` and `memory-usage`.
pub open spec fn memory_policy_spec(value: Seq<char>) -> Option<MemoryHints> {
    let name = lower_spec(trim_spec(value));
    if name == seq!['p', 'e', 'r', 'f', 'o', 'r', 'm', 'a', 'n', 'c', 'e'] {
        Some(MemoryHints::Performance)
    } else if name == seq!['u', 's', 'a', 'g', 'e'] || name == seq![
        'm',
        'e',
        'm',
        'o',
        'r',
        'y',
        'u',
        's',
        'a',
        'g',
        'e',
    ] || name == seq!['m', 'e', 'm', 'o', 'r', 'y', '-', 'u', 's', 'a', 'g', 'e'] {
        Some(MemoryHints::MemoryUsage)
    } else {
        None
    }
}

proof fn lemma_trim_start_skip(s: Seq<char>, i: int)
    requires
        0 <= i <= s.len(),
        forall|j: int| 0 <= j < i ==> is_whitespace_spec(s[j]),
    ensures
        trim_start_spec(s) == trim_start_spec(s.subrange(i, s.len() as int)),
    decreases i,
{
    if i > 0 {
        assert(s.drop_first() =~= s.subrange(1, s.len() as int));
        lemma_trim_start_skip(s.drop_first(), i - 1);
        assert(s.drop_first().subrange(i - 1, s.drop_first().len() as int) =~= s.subrange(
            i,
            s.len() as int,
        ));
    } else {
        assert(s.subrange(0, s.len() as int) =~= s);
    }
}

proof fn lemma_trim_end_skip(s: Seq<char>, e: int)
    requires
        0 <= e <= s.len(),
        forall|j: int| e <= j < s.len() ==> is_whitespace_spec(s[j]),
    ensures
        trim_end_spec(s) == trim_end_spec(s.subrange(0, e)),
    decreases s.len() - e,
{
    if e < s.len() {
        assert(s.drop_last() =~= s.subrange(0, s.len() - 1));
        lemma_trim_end_skip(s.drop_last(), e);
        assert(s.drop_last().subrange(0, e) =~= s.subrange(0, e));
    } else {
        assert(s.subrange(0, e) =~= s);
    }
}

/// Whether `text[start..end]`, folded to ASCII lower case, is exactly `word`.
fn lower_range_is(text: &str, start: usize, end: usize, word: &[char]) -> (r: bool)
    requires
        start <= end <= text@.len(),
    ensures
        r == (lower_spec(text@.subrange(start as int, end as int)) == word@),
{
    let ghost piece = text@.subrange(start as int, end as int);
    if end - start != word.len() {
        assert(lower_spec(piece).len() != word@.len());
        return false;
    }
    let mut i: usize = 0;
    while i < word.len()
        invariant
            i <= word@.len() == end - start,
            start <= end <= text@.len(),
            piece == text@.subrange(start as int, end as int),
            forall|j: int| 0 <= j < i ==> lower_char(piece[j]) == word@[j],
        decreases word.len() - i,
    {
        let c = text.get_char(start + i);
        let lowered = if 'A' <= c && c <= 'Z' {
            (((c as u32) + 32) as u8) as char
        } else {
            c
        };
        if lowered != word[i] {
            assert(lower_spec(piece)[i as int] != word@[i as int]);
            return false;
        }
        i += 1;
    }
    assert(lower_spec(piece) =~= word@);
    true
}

/// The character positions `str::trim` keeps: `value[start..end]` is the trimmed text.
pub fn trimmed_bounds(value: &str) -> (r: (usize, usize))
    ensures
        r.0 <= r.1 <= value@.len(),
        value@.subrange(r.0 as int, r.1 as int) == trim_spec(value@),
{
    let len = value.unicode_len();
    let mut start: usize = 0;
    while start < len && is_whitespace(value.get_char(start))
        invariant
            start <= len == value@.len(),
            forall|j: int| 0 <= j < start ==> is_whitespace_spec(value@[j]),
        decreases len - start,
    {
        start += 1;
    }
    let mut end: usize = len;
    while end > start && is_whitespace(value.get_char(end - 1))
        invariant
            start <= end <= len == value@.len(),
            forall|j: int| end <= j < len ==> is_whitespace_spec(value@[j]),
        decreases end - start,
    {
        end -= 1;
    }
    proof {
        lemma_trim_start_skip(value@, start as int);
        let rest = value@.subrange(start as int, len as int);
        if start < len {
            assert(rest[0] == value@[start as int]);
        }
        assert(trim_start_spec(rest) == rest);
        lemma_trim_end_skip(rest, end - start);
        let kept = rest.subrange(0, end - start);
        assert(kept =~= value@.subrange(start as int, end as int));
        if end > start {
            assert(kept.last() == value@[end - 1]);
        }
        assert(trim_end_spec(kept) == kept);
        assert(trim_spec(value@) == value@.subrange(start as int, end as int));
    }
    (start, end)
}

/// Parse an explicit device memory policy, trimmed and without regard to ASCII case.
pub fn parse_memory_policy(value: &str) -> (r: Option<MemoryHints>)
    ensures
        r == memory_policy_spec(value@),
{
    let (start, end) = trimmed_bounds(value);
    let performance = ['p', 'e', 'r', 'f', 'o', 'r', 'm', 'a', 'n', 'c', 'e'];
    let usage = ['u', 's', 'a', 'g', 'e'];
    let memoryusage = ['m', 'e', 'm', 'o', 'r', 'y', 'u', 's', 'a', 'g', 'e'];
    let memory_usage = ['m', 'e', 'm', 'o', 'r', 'y', '-', 'u', 's', 'a', 'g', 'e'];
    assert(performance@ =~= seq!['p', 'e', 'r', 'f', 'o', 'r', 'm', 'a', 'n', 'c', 'e']);
    assert(usage@ =~= seq!['u', 's', 'a', 'g', 'e']);
    assert(memoryusage@ =~= seq!['m', 'e', 'm', 'o', 'r', 'y', 'u', 's', 'a', 'g', 'e']);
    assert(memory_usage@ =~= seq!['m', 'e', 'm', 'o', 'r', 'y', '-', 'u', 's', 'a', 'g', 'e']);
    if lower_range_is(value, start, end, &performance) {
        Some(MemoryHints::Performance)
    } else if lower_range_is(value, start, end, &usage) || lower_range_is(
        value,
        start,
        end,
        &memoryusage,
    ) || lower_range_is(value, start, end, &memory_usage) {
        Some(MemoryHints::MemoryUsage)
    } else {
        None
    }
}

/// The memory policy in force: an explicit override if one was given, otherwise the adapter's
/// own default.
pub fn effective_memory_hints(override_hint: Option<MemoryHints>, adapter_info: &AdapterInfo) -> (r:
    MemoryHints)
    ensures
        r == match override_hint {
            Some(hint) => hint,
            None => MemoryHints::Performance,
        },
{
    match override_hint {
        Some(hint) => hint,
        None => memory_hints_for_adapter_info(adapter_info),
    }
}

/// The region of a cache texture that filters should read: the logical size, clipped to what
/// the texture actually holds.
pub fn bitmap_cache_filter_source_size(capacity: (u32, u32), logical_size: (u32, u32)) -> (r: (
    u32,
    u32,
))
    ensures
        r.0 == (if logical_size.0 < capacity.0 {
            logical_size.0
        } else {
            capacity.0
        }),
        r.1 == (if logical_size.1 < capacity.1 {
            logical_size.1
        } else {
            capacity.1
        }),
{
    (
        if logical_size.0 < capacity.0 {
            logical_size.0
        } else {
            capacity.0
        },
        if logical_size.1 < capacity.1 {
            logical_size.1
        } else {
            capacity.1
        },
    )
}

/// The cap on how many cache entries are blurred together in one atlas.
pub const DEFAULT_MAX_ATLAS_GROUP: usize = 8;

/// The same cap on a card that cannot spare the memory.
pub const LOW_VRAM_MAX_ATLAS_GROUP: usize = 3;

/// The filter atlas's configuration.
#[derive(Clone, Copy, Debug)]
pub struct FilterAtlasSettings {
    pub max_group: usize,
}

impl FilterAtlasSettings {
    pub fn new() -> (r: FilterAtlasSettings)
        ensures
            r.max_group == DEFAULT_MAX_ATLAS_GROUP,
    {
        FilterAtlasSettings { max_group: DEFAULT_MAX_ATLAS_GROUP }
    }
}

/// Whether a render target of this size fits the device: neither side may pass its largest 2D
/// texture dimension. A renderer for a target that does not fit is refused.
pub fn render_target_size_supported(width: u32, height: u32, max_texture_dimension_2d: u32) -> (r:
    bool)
    ensures
        r == (width <= max_texture_dimension_2d && height <= max_texture_dimension_2d),
{
    !(width > max_texture_dimension_2d || height > max_texture_dimension_2d)
}

/// Whether `AETHER_FILTER_ATLAS`, when set, switches the filter atlas off: only `0`, `off` and
/// `false`, exactly, do.
pub open spec fn filter_atlas_off_spec(value: Seq<u8>) -> bool {
    value == seq![48u8] || value == seq![111u8, 102u8, 102u8] || value == seq![
        102u8,
        97u8,
        108u8,
        115u8,
        101u8,
    ]
}

/// Whether cache entries sharing a blur kernel may be blurred together in one atlas, given the
/// value of `AETHER_FILTER_ATLAS`: on unless it is `0`, `off` or `false`.
pub fn filter_atlas_enabled(value: Option<&str>) -> (r: bool)
    ensures
        r == match value {
            Some(v) => !filter_atlas_off_spec(v.spec_bytes()),
            None => true,
        },
{
    match value {
        Some(v) => {
            let b = v.as_bytes();
            let zero: [u8; 1] = [48u8];
            let off: [u8; 3] = [111u8, 102u8, 102u8];
            let f: [u8; 5] = [102u8, 97u8, 108u8, 115u8, 101u8];
            assert(zero@ =~= seq![48u8]);
            assert(off@ =~= seq![111u8, 102u8, 102u8]);
            assert(f@ =~= seq![102u8, 97u8, 108u8, 115u8, 101u8]);
            !(bytes_equal(b, &zero) || bytes_equal(b, &off) || bytes_equal(b, &f))
        },
        None => true,
    }
}

/// Hold atlas groups to what a low VRAM card can afford.
pub fn set_filter_atlas_low_vram(settings: &mut FilterAtlasSettings, low_vram: bool)
    ensures
        final(settings).max_group == (if low_vram {
            LOW_VRAM_MAX_ATLAS_GROUP
        } else {
            DEFAULT_MAX_ATLAS_GROUP
        }),
{
    settings.max_group = if low_vram {
        LOW_VRAM_MAX_ATLAS_GROUP
    } else {
        DEFAULT_MAX_ATLAS_GROUP
    };
}

/// The atlas group cap in force.
pub fn filter_atlas_max_group(settings: &FilterAtlasSettings) -> (r: usize)
    ensures
        r == settings.max_group,
{
    settings.max_group
}

/// Submissions in flight, oldest first, waited on once more than `max_in_flight` are queued.
pub struct SubmissionRetirement<T> {
    max_in_flight: Option<usize>,
    submissions: VecDeque<T>,
}

impl<T> SubmissionRetirement<T> {
    /// The submissions still in flight, oldest first.
    pub closed spec fn in_flight(&self) -> Seq<T> {
        self.submissions@
    }

    pub closed spec fn limit(&self) -> Option<usize> {
        self.max_in_flight
    }

    /// Never more in flight than the limit, and nothing tracked without one.
    pub open spec fn wf(&self) -> bool {
        match self.limit() {
            Some(max) => self.in_flight().len() <= max,
            None => self.in_flight().len() == 0,
        }
    }

    pub fn new(max_in_flight: Option<usize>) -> (r: SubmissionRetirement<T>)
        ensures
            r.limit() == max_in_flight,
            r.in_flight() == Seq::<T>::empty(),
            r.wf(),
    {
        SubmissionRetirement { max_in_flight, submissions: VecDeque::new() }
    }

    /// Queue a submission; once more than the limit are in flight, hand back the oldest, which
    /// the caller must wait on. Without a limit nothing is tracked.
    pub fn push(&mut self, submission: T) -> (r: Option<T>)
        requires
            old(self).wf(),
        ensures
            final(self).wf(),
            final(self).limit() == old(self).limit(),
            old(self).limit() is None ==> r is None && final(self).in_flight() == old(
                self,
            ).in_flight(),
            old(self).limit() is Some ==> {
                let queued = old(self).in_flight().push(submission);
                if queued.len() > old(self).limit()->0 {
                    r == Some(queued[0]) && final(self).in_flight() == queued.drop_first()
                } else {
                    r is None && final(self).in_flight() == queued
                }
            },
    {
        let max_in_flight = match self.max_in_flight {
            Some(max) => max,
            None => {
                return None;
            },
        };
        self.submissions.push_back(submission);
        if self.submissions.len() > max_in_flight {
            let oldest = self.submissions.pop_front();
            proof {
                assert(self.submissions@ =~= old(self).in_flight().push(submission).drop_first());
            }
            oldest
        } else {
            None
        }
    }

    /// Queue a direct submission; it shares the frame's retirement budget.
    pub fn push_direct(&mut self, submission: T) -> (r: Option<T>)
        requires
            old(self).wf(),
        ensures
            final(self).wf(),
            final(self).limit() == old(self).limit(),
            old(self).limit() is None ==> r is None && final(self).in_flight() == old(
                self,
            ).in_flight(),
            old(self).limit() is Some ==> {
                let queued = old(self).in_flight().push(submission);
                if queued.len() > old(self).limit()->0 {
                    r == Some(queued[0]) && final(self).in_flight() == queued.drop_first()
                } else {
                    r is None && final(self).in_flight() == queued
                }
            },
    {
        self.push(submission)
    }

    /// Queue a submission for a render target; it shares the frame's retirement budget.
    pub fn push_target(&mut self, submission: T) -> (r: Option<T>)
        requires
            old(self).wf(),
        ensures
            final(self).wf(),
            final(self).limit() == old(self).limit(),
            old(self).limit() is None ==> r is None && final(self).in_flight() == old(
                self,
            ).in_flight(),
            old(self).limit() is Some ==> {
                let queued = old(self).in_flight().push(submission);
                if queued.len() > old(self).limit()->0 {
                    r == Some(queued[0]) && final(self).in_flight() == queued.drop_first()
                } else {
                    r is None && final(self).in_flight() == queued
                }
            },
    {
        self.push(submission)
    }
}

} // verus!
