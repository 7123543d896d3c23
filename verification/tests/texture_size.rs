use aether_render::texture_size::{
    estimate_texture_bytes, estimate_texture_bytes_for_blocks, Extent3d, TextureKey,
};
use wgpu_types::{TextureFormat, TextureUsages};

#[test]
fn texture_estimator_handles_blocks_mips_layers_and_samples() {
    assert_eq!(
        estimate_texture_bytes(
            Extent3d {
                width: 4,
                height: 2,
                depth_or_array_layers: 1,
            },
            TextureFormat::Rgba8Unorm,
            1,
            1,
        ),
        Some(32),
    );
    assert_eq!(
        estimate_texture_bytes(
            Extent3d {
                width: 7,
                height: 5,
                depth_or_array_layers: 1,
            },
            TextureFormat::Bc1RgbaUnorm,
            1,
            1,
        ),
        Some(32),
    );
    assert_eq!(
        estimate_texture_bytes(
            Extent3d {
                width: 8,
                height: 8,
                depth_or_array_layers: 1,
            },
            TextureFormat::Rgba8Unorm,
            4,
            1,
        ),
        Some(340),
    );
    assert_eq!(
        estimate_texture_bytes(
            Extent3d {
                width: 4,
                height: 4,
                depth_or_array_layers: 3,
            },
            TextureFormat::Rgba8Unorm,
            1,
            4,
        ),
        Some(768),
    );
    assert_eq!(
        estimate_texture_bytes(
            Extent3d {
                width: 4,
                height: 4,
                depth_or_array_layers: 1,
            },
            TextureFormat::Depth24Plus,
            1,
            1,
        ),
        None,
    );
}

#[test]
fn mip_levels_below_one_texel_still_count_one_block() {
    // 2x1 with four levels: 2x1, 1x1, 1x1, 1x1 texels of four bytes.
    assert_eq!(
        estimate_texture_bytes(
            Extent3d {
                width: 2,
                height: 1,
                depth_or_array_layers: 1,
            },
            TextureFormat::Rgba8Unorm,
            4,
            1,
        ),
        Some(20),
    );
}

#[test]
fn an_estimate_past_sixty_four_bits_is_refused() {
    let huge = Extent3d {
        width: u32::MAX,
        height: u32::MAX,
        depth_or_array_layers: u32::MAX,
    };
    assert_eq!(
        estimate_texture_bytes_for_blocks(huge, (1, 1), Some(16), 1, 1),
        None
    );
    assert_eq!(
        estimate_texture_bytes_for_blocks(huge, (1, 1), Some(16), 1, 0),
        Some(0)
    );
    assert_eq!(
        estimate_texture_bytes_for_blocks(huge, (1, 1), None, 1, 1),
        None
    );
}

#[test]
fn the_block_size_reported_by_the_format_is_what_is_counted() {
    // A 16-byte format would give 64 for this extent; four bytes per texel gives 16.
    let size = Extent3d {
        width: 2,
        height: 2,
        depth_or_array_layers: 1,
    };
    assert_eq!(estimate_texture_bytes(size, TextureFormat::Rgba8Unorm, 1, 1), Some(16));
    assert_eq!(estimate_texture_bytes(size, TextureFormat::Rgba32Float, 1, 1), Some(64));
}

#[test]
fn texture_key_requires_every_descriptor_field_to_match() {
    let base = TextureKey {
        size: Extent3d {
            width: 64,
            height: 32,
            depth_or_array_layers: 1,
        },
        usage: TextureUsages::RENDER_ATTACHMENT,
        format: TextureFormat::Rgba8Unorm,
        sample_count: 1,
    };
    assert_ne!(
        base,
        TextureKey {
            sample_count: 4,
            ..base
        }
    );
    assert_ne!(
        base,
        TextureKey {
            format: TextureFormat::Rgba8UnormSrgb,
            ..base
        }
    );
    assert_ne!(
        base,
        TextureKey {
            usage: TextureUsages::TEXTURE_BINDING,
            ..base
        }
    );
    assert_ne!(
        base,
        TextureKey {
            size: Extent3d {
                width: 65,
                ..base.size
            },
            ..base
        }
    );
}
