use aether_render::text::{fixed_point_string, push_percent};

/// A small deterministic generator, so a failure can be replayed.
fn next(state: &mut u64) -> u64 {
    *state = state
        .wrapping_mul(6364136223846793005)
        .wrapping_add(1442695040888963407);
    *state ^ (*state >> 29)
}

fn printed(n: u64, d: u64, k: u32) -> String {
    match k {
        1 => format!("{:.1}", n as f64 / d as f64),
        2 => format!("{:.2}", n as f64 / d as f64),
        _ => format!("{:.3}", n as f64 / d as f64),
    }
}

fn samples() -> Vec<u64> {
    let mut out: Vec<u64> = (0..20_000).collect();
    let mut state = 7;
    for shift in 0..64 {
        for _ in 0..200 {
            out.push(next(&mut state) >> shift);
        }
    }
    for n in [
        5_000_000,
        15_000_000,
        25_000_000,
        35_000_000,
        45_000_000,
        39_600_000_000,
        (1 << 53) - 1,
        1 << 53,
        (1 << 53) + 1,
        (1 << 54) + 3,
        u64::MAX,
        u64::MAX - 1,
        262_144,
        786_432,
    ] {
        out.push(n);
    }
    for k in 0..20_000u64 {
        // Exact decimal ties of the GB and MB figures.
        out.push(k * 10_000_000 + 5_000_000);
        out.push(k * 100_000 + 50_000);
    }
    out
}

#[test]
fn figures_print_as_the_floating_point_formatting_does() {
    for n in samples() {
        for (d, k) in [(1_000_000_000, 2), (1_000_000_000, 1), (1_000_000, 1), (1000, 1), (1_048_576, 1)] {
            assert_eq!(fixed_point_string(n, d, k), printed(n, d, k), "{n} / {d} to {k} places");
        }
    }
}

#[test]
fn a_gigabyte_figure_on_a_decimal_tie_follows_the_double() {
    assert_eq!(fixed_point_string(5_000_000, 1_000_000_000, 2), "0.01");
    assert_eq!(fixed_point_string(15_000_000, 1_000_000_000, 2), "0.01");
    assert_eq!(fixed_point_string(39_600_000_000, 1_000_000_000, 2), "39.60");
    assert_eq!(fixed_point_string(262_144, 1_048_576, 1), "0.2");
}

#[test]
fn percentages_print_as_the_floating_point_formatting_does() {
    let mut state = 11;
    let mut cases: Vec<(u64, u64)> = Vec::new();
    for whole in 1..300u64 {
        for part in 0..=whole {
            cases.push((part, whole));
        }
    }
    for shift in 0..64 {
        for _ in 0..300 {
            let whole = (next(&mut state) >> shift).max(1);
            let part = next(&mut state) >> shift;
            cases.push((part, whole));
        }
    }
    cases.push((u64::MAX, 1));
    cases.push((u64::MAX, u64::MAX));
    for (part, whole) in cases {
        let mut figure = String::new();
        push_percent(&mut figure, part, whole);
        assert_eq!(
            figure,
            format!("{:.1}", part as f64 * 100.0 / whole as f64),
            "{part} of {whole}"
        );
    }
}
