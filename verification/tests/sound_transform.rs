use aether_render::sound_transform::SoundTransform;

fn transform(volume: i32, ll: i32, lr: i32, rl: i32, rr: i32) -> SoundTransform {
    SoundTransform {
        volume,
        left_to_left: ll,
        left_to_right: lr,
        right_to_left: rl,
        right_to_right: rr,
    }
}

#[test]
fn concatenating_the_default_changes_nothing() {
    let t = transform(50, 80, 20, 10, 90);
    assert_eq!(t.concat(SoundTransform::default()), t);
    assert_eq!(SoundTransform::default().concat(t), t);
}

#[test]
fn volumes_multiply_as_percentages() {
    let half = transform(50, 100, 0, 0, 100);
    assert_eq!(half.concat(half).volume, 25);
    // Negative volumes come out as their absolute value.
    let negative = transform(-50, 100, 0, 0, 100);
    assert_eq!(negative.concat(half).volume, 25);
}

#[test]
fn channels_mix_as_a_matrix_product() {
    let a = transform(100, 50, 50, 0, 100);
    let b = transform(100, 100, 0, 50, 50);
    let c = a.concat(b);
    // ll = (50*100 + 0*0) / 100, lr = (50*100 + 100*0) / 100,
    // rl = (50*50 + 0*50) / 100, rr = (50*50 + 100*50) / 100
    assert_eq!(c, transform(100, 50, 50, 25, 75));
}

#[test]
fn products_are_masked_to_thirty_bits() {
    let big = transform(0x4000_0000, 100, 0, 0, 100);
    let full = transform(100, 100, 0, 0, 100);
    assert_eq!(big.concat(full).volume, 0);
}

#[test]
fn pan_round_trips_through_with_pan() {
    for pan in [-100, -37, 0, 1, 64, 100] {
        assert_eq!(SoundTransform::default().with_pan(pan).pan(), pan);
    }
    let panned = SoundTransform::default().with_pan(30);
    assert_eq!(panned, transform(100, 70, 0, 0, 100));
    let panned = SoundTransform::default().with_pan(-30);
    assert_eq!(panned, transform(100, 100, 0, 0, 70));
}
