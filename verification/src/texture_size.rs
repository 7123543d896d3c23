//! How many bytes a texture occupies: every mip level, counted in whole blocks of its format,
//! times its array layers and its sample count.
use vstd::prelude::*;
use wgpu_types::{TextureFormat, TextureUsages};

verus! {

#[verifier::external_type_specification]
#[verifier::external_body]
pub struct ExTextureFormat(TextureFormat);

#[verifier::external_type_specification]
#[verifier::external_body]
pub struct ExTextureUsages(TextureUsages);

/// The width and height, in texels, of one block of a texture format.
pub uninterp spec fn format_block_dimensions(format: TextureFormat) -> (u32, u32);

/// The bytes one block of a texture format occupies when no aspect is named, or `None` where the
/// format gives no single figure (combined depth-stencil, multi-planar and `Depth24Plus`).
pub uninterp spec fn format_block_copy_size(format: TextureFormat) -> Option<u32>;

/// `TextureFormat::block_dimensions` from wgpu-types. Its source gives (1, 1) for uncompressed
/// formats and at most 12 on a side for the block-compressed ones.
#[verifier::external_body]
fn block_dimensions(format: &TextureFormat) -> (r: (u32, u32))
    ensures
        r == format_block_dimensions(*format),
        1 <= r.0 <= 12,
        1 <= r.1 <= 12,
{
    format.block_dimensions()
}

/// `TextureFormat::block_copy_size(None)` from wgpu-types. Its source gives sizes between 1 and 16
/// bytes where it gives one at all.
#[verifier::external_body]
fn block_copy_size(format: &TextureFormat) -> (r: Option<u32>)
    ensures
        r == format_block_copy_size(*format),
        r matches Some(b) ==> 1 <= b <= 16,
{
    format.block_copy_size(None)
}

/// The size of a texture: width, height, and depth or array layer count.
#[derive(Clone, Copy, Debug, Hash, PartialEq, Eq, Structural)]
pub struct Extent3d {
    pub width: u32,
    pub height: u32,
    pub depth_or_array_layers: u32,
}

/// Everything about a texture that decides whether a pooled one can stand in for it: a texture is
/// reused only where size, usage, format and sample count all match.
#[derive(Clone, Copy, Debug, Hash, PartialEq, Eq)]
pub struct TextureKey {
    pub size: Extent3d,
    pub usage: TextureUsages,
    pub format: TextureFormat,
    pub sample_count: u32,
}

/// `x` halved `l` times, rounding down: the same as `x >> l`.
pub open spec fn halved(x: int, l: nat) -> int
    decreases l,
{
    if l == 0 {
        x
    } else {
        halved(x, (l - 1) as nat) / 2
    }
}

/// A side of mip level `l`: the full side halved `l` times, but never below one texel.
pub open spec fn mip_side(x: u32, l: nat) -> int {
    let h = halved(x as int, l);
    if h < 1 {
        1
    } else {
        h
    }
}

/// `a / b` rounded up.
pub open spec fn div_ceil(a: int, b: int) -> int {
    (a + b - 1) / b
}

/// The bytes of mip level `l`: its whole blocks, times the block size, the layers and the samples.
pub open spec fn level_bytes(
    size: Extent3d,
    block: (u32, u32),
    block_bytes: u32,
    sample_count: u32,
    l: nat,
) -> int {
    div_ceil(mip_side(size.width, l), block.0 as int) * div_ceil(
        mip_side(size.height, l),
        block.1 as int,
    ) * block_bytes * size.depth_or_array_layers * sample_count
}

/// The bytes of the first `levels` mip levels together.
pub open spec fn texture_bytes(
    size: Extent3d,
    block: (u32, u32),
    block_bytes: u32,
    sample_count: u32,
    levels: nat,
) -> int
    decreases levels,
{
    if levels == 0 {
        0
    } else {
        texture_bytes(size, block, block_bytes, sample_count, (levels - 1) as nat) + level_bytes(
            size,
            block,
            block_bytes,
            sample_count,
            (levels - 1) as nat,
        )
    }
}

/// The estimate for a format with the given block dimensions and block size: `None` where the
/// format has no single block size or the total does not fit in 64 bits.
pub open spec fn estimate_spec(
    size: Extent3d,
    block: (u32, u32),
    block_bytes: Option<u32>,
    mip_level_count: u32,
    sample_count: u32,
) -> Option<u64> {
    match block_bytes {
        None => None,
        Some(b) => {
            let total = texture_bytes(size, block, b, sample_count, mip_level_count as nat);
            if total <= u64::MAX {
                Some(total as u64)
            } else {
                None
            }
        },
    }
}

proof fn lemma_texture_bytes_nonnegative(
    size: Extent3d,
    block: (u32, u32),
    b: u32,
    samples: u32,
    n: nat,
)
    requires
        block.0 >= 1,
        block.1 >= 1,
    ensures
        texture_bytes(size, block, b, samples, n) >= 0,
    decreases n,
{
    if n > 0 {
        lemma_texture_bytes_nonnegative(size, block, b, samples, (n - 1) as nat);
        lemma_level_bytes_nonnegative(size, block, b, samples, (n - 1) as nat);
    }
}

proof fn lemma_texture_bytes_monotone(
    size: Extent3d,
    block: (u32, u32),
    b: u32,
    samples: u32,
    a: nat,
    c: nat,
)
    requires
        a <= c,
        block.0 >= 1,
        block.1 >= 1,
    ensures
        0 <= texture_bytes(size, block, b, samples, a) <= texture_bytes(size, block, b, samples, c),
    decreases c,
{
    if a == c {
        lemma_texture_bytes_nonnegative(size, block, b, samples, a);
    } else {
        lemma_texture_bytes_monotone(size, block, b, samples, a, (c - 1) as nat);
        lemma_level_bytes_nonnegative(size, block, b, samples, (c - 1) as nat);
    }
}

proof fn lemma_halved_nonnegative(x: int, l: nat)
    requires
        x >= 0,
    ensures
        0 <= halved(x, l) <= x,
    decreases l,
{
    if l > 0 {
        lemma_halved_nonnegative(x, (l - 1) as nat);
    }
}

proof fn lemma_level_bytes_nonnegative(
    size: Extent3d,
    block: (u32, u32),
    b: u32,
    samples: u32,
    l: nat,
)
    requires
        block.0 >= 1,
        block.1 >= 1,
    ensures
        level_bytes(size, block, b, samples, l) >= 0,
{
    let w = div_ceil(mip_side(size.width, l), block.0 as int);
    let h = div_ceil(mip_side(size.height, l), block.1 as int);
    assert(w >= 1) by (nonlinear_arith)
        requires
            w == (mip_side(size.width, l) + block.0 - 1) / (block.0 as int),
            mip_side(size.width, l) >= 1,
            block.0 >= 1,
    ;
    assert(h >= 1) by (nonlinear_arith)
        requires
            h == (mip_side(size.height, l) + block.1 - 1) / (block.1 as int),
            mip_side(size.height, l) >= 1,
            block.1 >= 1,
    ;
    assert(w * h * b * size.depth_or_array_layers * samples >= 0) by (nonlinear_arith)
        requires
            w >= 1,
            h >= 1,
            b >= 0,
            size.depth_or_array_layers >= 0,
            samples >= 0,
    ;
}

/// `x * y`, or `None` once the product passes `u64::MAX`.
fn mul_within_u64(x: u128, y: u32) -> (r: Option<u128>)
    requires
        x <= u64::MAX,
    ensures
        match r {
            Some(p) => p == x * y && p <= u64::MAX,
            None => x * y > u64::MAX,
        },
{
    assert(x * y <= u64::MAX * u32::MAX) by (nonlinear_arith)
        requires
            x <= u64::MAX,
            y <= u32::MAX,
    ;
    let p = x * (y as u128);
    if p > u64::MAX as u128 {
        None
    } else {
        Some(p)
    }
}

/// The bytes of one mip level whose sides are `w` and `h`, or `None` when they pass `u64::MAX`.
fn level_bytes_checked(
    w: u32,
    h: u32,
    block: (u32, u32),
    block_bytes: u32,
    layers: u32,
    sample_count: u32,
) -> (r: Option<u64>)
    requires
        block.0 >= 1,
        block.1 >= 1,
    ensures
        match r {
            Some(v) => v == div_ceil(w as int, block.0 as int) * div_ceil(h as int, block.1 as int)
                * block_bytes * layers * sample_count,
            None => div_ceil(w as int, block.0 as int) * div_ceil(h as int, block.1 as int)
                * block_bytes * layers * sample_count > u64::MAX,
        },
{
    let bw: u64 = (w / block.0) as u64 + if w % block.0 == 0 {
        0
    } else {
        1
    };
    let bh: u64 = (h / block.1) as u64 + if h % block.1 == 0 {
        0
    } else {
        1
    };
    assert(bw == div_ceil(w as int, block.0 as int)) by (nonlinear_arith)
        requires
            bw == w / block.0 + if w % block.0 == 0 {
                0int
            } else {
                1int
            },
            block.0 >= 1,
    ;
    assert(bh == div_ceil(h as int, block.1 as int)) by (nonlinear_arith)
        requires
            bh == h / block.1 + if h % block.1 == 0 {
                0int
            } else {
                1int
            },
            block.1 >= 1,
    ;
    let ghost want = bw * bh * block_bytes * layers * sample_count;
    if block_bytes == 0 || layers == 0 || sample_count == 0 || bw == 0 || bh == 0 {
        assert(want == 0) by (nonlinear_arith)
            requires
                want == bw * bh * block_bytes * layers * sample_count,
                block_bytes == 0 || layers == 0 || sample_count == 0 || bw == 0 || bh == 0,
        ;
        return Some(0);
    }
    assert(bw <= u32::MAX && bh <= u32::MAX) by (nonlinear_arith)
        requires
            bw == w / block.0 + if w % block.0 == 0 {
                0int
            } else {
                1int
            },
            bh == h / block.1 + if h % block.1 == 0 {
                0int
            } else {
                1int
            },
            block.0 >= 1,
            block.1 >= 1,
            w <= u32::MAX,
            h <= u32::MAX,
    ;
    assert(bw * bh <= u32::MAX * u32::MAX) by (nonlinear_arith)
        requires
            bw <= u32::MAX,
            bh <= u32::MAX,
    ;
    let p1: u128 = (bw as u128) * (bh as u128);
    assert(p1 <= u64::MAX) by (nonlinear_arith)
        requires
            p1 == bw * bh,
            bw <= u32::MAX,
            bh <= u32::MAX,
    ;
    let p2 = match mul_within_u64(p1, block_bytes) {
        Some(p) => p,
        None => {
            assert(want > u64::MAX) by (nonlinear_arith)
                requires
                    want == p1 * block_bytes * layers * sample_count,
                    p1 * block_bytes > u64::MAX,
                    layers >= 1,
                    sample_count >= 1,
            ;
            return None;
        },
    };
    let p3 = match mul_within_u64(p2, layers) {
        Some(p) => p,
        None => {
            assert(want > u64::MAX) by (nonlinear_arith)
                requires
                    want == p2 * layers * sample_count,
                    p2 * layers > u64::MAX,
                    sample_count >= 1,
            ;
            return None;
        },
    };
    match mul_within_u64(p3, sample_count) {
        Some(p) => Some(p as u64),
        None => None,
    }
}

/// The bytes a texture with the given block dimensions and block size occupies, or `None` where
/// there is no single block size or the total passes `u64::MAX`.
pub fn estimate_texture_bytes_for_blocks(
    size: Extent3d,
    block: (u32, u32),
    block_bytes: Option<u32>,
    mip_level_count: u32,
    sample_count: u32,
) -> (r: Option<u64>)
    requires
        block.0 >= 1,
        block.1 >= 1,
    ensures
        r == estimate_spec(size, block, block_bytes, mip_level_count, sample_count),
{
    let b = match block_bytes {
        None => return None,
        Some(b) => b,
    };
    let mut total: u64 = 0;
    let mut w: u32 = size.width;
    let mut h: u32 = size.height;
    let mut level: u32 = 0;
    while level < mip_level_count
        invariant
            level <= mip_level_count,
            block_bytes == Some(b),
            block.0 >= 1,
            block.1 >= 1,
            w == halved(size.width as int, level as nat),
            h == halved(size.height as int, level as nat),
            total == texture_bytes(size, block, b, sample_count, level as nat),
        decreases mip_level_count - level,
    {
        let lw = if w < 1 {
            1
        } else {
            w
        };
        let lh = if h < 1 {
            1
        } else {
            h
        };
        let this_level = level_bytes_checked(
            lw,
            lh,
            block,
            b,
            size.depth_or_array_layers,
            sample_count,
        );
        proof {
            lemma_halved_nonnegative(size.width as int, (level + 1) as nat);
            lemma_halved_nonnegative(size.height as int, (level + 1) as nat);
            assert(mip_side(size.width, level as nat) == lw);
            assert(mip_side(size.height, level as nat) == lh);
            assert(texture_bytes(size, block, b, sample_count, (level + 1) as nat) == total
                + level_bytes(size, block, b, sample_count, level as nat));
            lemma_texture_bytes_nonnegative(size, block, b, sample_count, level as nat);
        }
        match this_level {
            None => {
                proof {
                    lemma_texture_bytes_monotone(
                        size,
                        block,
                        b,
                        sample_count,
                        (level + 1) as nat,
                        mip_level_count as nat,
                    );
                    assert(level_bytes(size, block, b, sample_count, level as nat) > u64::MAX);
                    assert(texture_bytes(size, block, b, sample_count, (level + 1) as nat)
                        > u64::MAX);
                    assert(texture_bytes(size, block, b, sample_count, mip_level_count as nat)
                        > u64::MAX);
                }
                return None;
            },
            Some(v) => {
                if v > u64::MAX - total {
                    proof {
                        lemma_texture_bytes_monotone(
                            size,
                            block,
                            b,
                            sample_count,
                            (level + 1) as nat,
                            mip_level_count as nat,
                        );
                        assert(texture_bytes(size, block, b, sample_count, (level + 1) as nat)
                            > u64::MAX);
                        assert(texture_bytes(size, block, b, sample_count, mip_level_count as nat)
                            > u64::MAX);
                    }
                    return None;
                }
                total = total + v;
            },
        }
        w = w / 2;
        h = h / 2;
        level = level + 1;
    }
    Some(total)
}

/// An estimate of the bytes a texture occupies: every mip level counted in whole blocks of its
/// format, times its layers and samples. `None` for formats without a single block size, such as
/// `Depth24Plus`, and where the total passes `u64::MAX`.
pub fn estimate_texture_bytes(
    size: Extent3d,
    format: TextureFormat,
    mip_level_count: u32,
    sample_count: u32,
) -> (r: Option<u64>)
    ensures
        r == estimate_spec(
            size,
            format_block_dimensions(format),
            format_block_copy_size(format),
            mip_level_count,
            sample_count,
        ),
{
    let block = block_dimensions(&format);
    let block_bytes = block_copy_size(&format);
    estimate_texture_bytes_for_blocks(size, block, block_bytes, mip_level_count, sample_count)
}

} // verus!
