use spi_driver::divisor::clock_divisor;

#[test]
fn bucket_boundaries() {
    // ratio -> selector, at both ends of every bucket
    let cases: [(u32, u8); 16] = [
        (1, 0b000),
        (2, 0b000),
        (3, 0b001),
        (5, 0b001),
        (6, 0b010),
        (11, 0b010),
        (12, 0b011),
        (23, 0b011),
        (24, 0b100),
        (47, 0b100),
        (48, 0b101),
        (95, 0b101),
        (96, 0b110),
        (191, 0b110),
        (192, 0b111),
        (100_000, 0b111),
    ];
    for (ratio, expected) in cases {
        assert_eq!(clock_divisor(ratio, 1), expected, "ratio {ratio}");
    }
}

#[test]
fn divisor_for_1mhz_from_48mhz() {
    // ratio 48 falls in the [48, 95] bucket
    assert_eq!(clock_divisor(48_000_000, 1_000_000), 0b101);
}

#[test]
fn divisor_is_deterministic() {
    assert_eq!(
        clock_divisor(8_000_000, 500_000),
        clock_divisor(8_000_000, 500_000)
    );
}

#[test]
fn divisor_monotonic_in_ratio() {
    let mut last: u8 = 0;
    for ratio in 1..=400u32 {
        let k = clock_divisor(ratio, 1);
        assert!(k >= last, "selector dropped at ratio {ratio}");
        last = k;
    }
}

#[test]
fn effective_rate_within_request_for_exact_power_ratios() {
    // for ratios that are powers of two the selected divisor is large
    // enough and the effective rate stays at or below the request
    for (f_in, f_req) in [
        (48_000_000u32, 1_000_000u32),
        (8_000_000, 1_000_000),
        (4_000_000, 2_000_000),
        (64_000_000, 1_000_000),
    ] {
        let k = clock_divisor(f_in, f_req);
        let effective = f_in / (1u32 << (k as u32 + 1));
        assert!(effective <= f_req, "f_in {f_in} f_req {f_req} k {k}");
    }
}

#[test]
fn effective_rate_can_overshoot_in_upper_bucket_half() {
    // ratio 5 selects divisor 4, whose effective rate exceeds the request:
    // the rate bound holds only when f_in <= f_req * 2^(k + 1)
    let k = clock_divisor(5_000_000, 1_000_000);
    assert_eq!(k, 0b001);
    let effective = 5_000_000u32 / (1u32 << (k as u32 + 1));
    assert!(effective > 1_000_000);
}
