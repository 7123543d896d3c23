use aether_render::blend_region::{quantise_region, BlendRegion};

#[test]
fn quantising_snaps_a_region_out_to_the_grid() {
    let region = quantise_region(
        BlendRegion {
            x: 400,
            y: 300,
            width: 80,
            height: 60,
        },
        (0, 0),
        2560,
        1440,
        128,
    );

    assert_eq!(
        region,
        BlendRegion {
            x: 384,
            y: 256,
            width: 128,
            height: 128
        }
    );
}

#[test]
fn quantising_only_ever_grows_a_region() {
    for (x, y, w, h) in [
        (400, 300, 80, 60),
        (0, 0, 1, 1),
        (2000, 1000, 500, 400),
        (7, 9, 3, 5),
    ] {
        let exact = BlendRegion {
            x,
            y,
            width: w,
            height: h,
        };
        let snapped = quantise_region(exact, (0, 0), 2560, 1440, 128);

        assert!(snapped.x <= exact.x, "{snapped:?} starts after {exact:?}");
        assert!(snapped.y <= exact.y, "{snapped:?} starts below {exact:?}");
        assert!(
            snapped.x + snapped.width >= exact.x + exact.width,
            "{snapped:?} ends before {exact:?}"
        );
        assert!(
            snapped.y + snapped.height >= exact.y + exact.height,
            "{snapped:?} ends above {exact:?}"
        );
    }
}

#[test]
fn quantising_never_escapes_the_parent() {
    let region = quantise_region(
        BlendRegion {
            x: 2500,
            y: 1400,
            width: 60,
            height: 40,
        },
        (0, 0),
        2560,
        1440,
        128,
    );

    assert_eq!(region.x + region.width, 2560);
    assert_eq!(region.y + region.height, 1440);
}

#[test]
fn quantising_a_nested_region_snaps_relative_to_its_parents_corner() {
    let region = quantise_region(
        BlendRegion {
            x: 900,
            y: 600,
            width: 50,
            height: 50,
        },
        (800, 500),
        400,
        300,
        128,
    );

    assert_eq!(
        region,
        BlendRegion {
            x: 800,
            y: 500,
            width: 256,
            height: 256
        }
    );
}

#[test]
fn a_zero_grid_is_a_grid_of_one_pixel() {
    let exact = BlendRegion {
        x: 7,
        y: 9,
        width: 3,
        height: 5,
    };
    assert_eq!(quantise_region(exact, (0, 0), 100, 100, 0), exact);
}

#[test]
fn a_region_past_the_parent_keeps_a_one_pixel_size() {
    let region = quantise_region(
        BlendRegion {
            x: 300,
            y: 300,
            width: 10,
            height: 10,
        },
        (0, 0),
        100,
        100,
        64,
    );
    assert_eq!((region.width, region.height), (1, 1));
}

#[test]
fn a_full_region_is_recognised_as_the_whole_parent() {
    let region = BlendRegion::at((800, 500), 400, 300);
    assert_eq!(
        region,
        BlendRegion {
            x: 800,
            y: 500,
            width: 400,
            height: 300
        }
    );
    assert!(region.is_full((800, 500), 400, 300));
    assert!(!region.is_full((0, 0), 400, 300));
}
