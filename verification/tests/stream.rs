//! Exact output streams, the bound on their density, the ends of the range
//! and repeatability.

use pdm::{Modulator, Pdm};

fn bits_u8(pdm: &mut Pdm<u8>, n: usize) -> String {
    let mut out = String::new();
    for _ in 0..n {
        out.push(if pdm.update() { '1' } else { '0' });
    }
    out
}

fn bits_i8(pdm: &mut Pdm<i8>, n: usize) -> String {
    let mut out = String::new();
    for _ in 0..n {
        out.push(if pdm.update() { '1' } else { '0' });
    }
    out
}

fn accepts_modulator<T: Modulator>(_engine: &Pdm<T>) {}

#[test]
fn every_integer_type_modulates() {
    accepts_modulator(&Pdm::<u8>::new());
    accepts_modulator(&Pdm::<u16>::new());
    accepts_modulator(&Pdm::<u32>::new());
    accepts_modulator(&Pdm::<u64>::new());
    accepts_modulator(&Pdm::<i8>::new());
    accepts_modulator(&Pdm::<i16>::new());
    accepts_modulator(&Pdm::<i32>::new());
    accepts_modulator(&Pdm::<i64>::new());
}

#[test]
fn first_update_of_u8_at_42_is_low() {
    // Stage 0 becomes 42 - 255, stage 1 becomes that minus 255.
    let mut pdm = Pdm::<u8>::new();
    pdm.set_value(42);
    assert!(!pdm.update());
}

#[test]
fn stream_of_u8_at_42() {
    let mut pdm = Pdm::<u8>::new();
    pdm.set_value(42);
    assert_eq!(bits_u8(&mut pdm, 32), "00000000000011000000001000100000");
}

#[test]
fn stream_of_i8_at_minus_42() {
    let mut pdm = Pdm::<i8>::new();
    pdm.set_value(-42);
    assert_eq!(bits_i8(&mut pdm, 32), "00010100010100010100010100011000");
}

#[test]
fn stream_of_u16_at_42000() {
    let mut pdm = Pdm::<u16>::new();
    pdm.set_value(42_000);
    let mut out = String::new();
    for _ in 0..24 {
        out.push(if pdm.update() { '1' } else { '0' });
    }
    assert_eq!(out, "000111110010111100111001");
}

#[test]
fn stream_of_i32_at_minus_420_million() {
    let mut pdm = Pdm::<i32>::new();
    pdm.set_value(-420_000_000);
    let mut out = String::new();
    for _ in 0..24 {
        out.push(if pdm.update() { '1' } else { '0' });
    }
    assert_eq!(out, "000110010100100110001010");
}

#[test]
fn stream_of_u64() {
    let mut pdm = Pdm::<u64>::new();
    pdm.set_value(1_223_000_000_000_000_000);
    let mut out = String::new();
    for _ in 0..40 {
        out.push(if pdm.update() { '1' } else { '0' });
    }
    assert_eq!(out, "0000000000000000000000000000001100000000");
}

#[test]
fn new_engine_starts_from_zero() {
    // Without a call of set_value the setpoint is zero: a signed engine
    // then alternates in pairs, an unsigned one stays low.
    let mut signed = Pdm::<i8>::new();
    assert_eq!(bits_i8(&mut signed, 16), "0011001100110011");
    let mut unsigned = Pdm::<u8>::new();
    assert_eq!(bits_u8(&mut unsigned, 12), "000000000000");
}

#[test]
fn default_is_new() {
    let mut a = Pdm::<i8>::default();
    let mut b = Pdm::<i8>::new();
    a.set_value(-42);
    b.set_value(-42);
    assert_eq!(bits_i8(&mut a, 64), bits_i8(&mut b, 64));
    let mut c = Pdm::<i64>::default();
    let mut d = Pdm::<i64>::new();
    for _ in 0..64 {
        assert_eq!(c.update(), d.update());
    }
}

#[test]
fn set_value_keeps_the_stages() {
    // The stream goes on from where the stages are, it does not start over.
    let mut pdm = Pdm::<u8>::new();
    pdm.set_value(10);
    let mut out = bits_u8(&mut pdm, 10);
    pdm.set_value(200);
    out.push_str(&bits_u8(&mut pdm, 15));
    pdm.set_value(128);
    out.push_str(&bits_u8(&mut pdm, 15));
    assert_eq!(out, "0000000000000001111111111111111111110000");
}

#[test]
fn density_of_u8_stays_within_three_spans() {
    let mut pdm = Pdm::<u8>::new();
    pdm.set_value(42);
    let mut highs: i64 = 0;
    for n in 1..=500_000i64 {
        if pdm.update() {
            highs += 1;
        }
        let excess = 255 * highs - n * 42;
        assert!(-3 * 255 <= excess && excess <= 3 * 255, "after {}: {}", n, excess);
    }
    assert_eq!(highs, 82_352);
}

#[test]
fn density_of_i16_stays_within_three_spans() {
    let mut pdm = Pdm::<i16>::new();
    pdm.set_value(4_200);
    let mut sum: i64 = 0;
    let mut highs: i64 = 0;
    for n in 1..=500_000i64 {
        if pdm.update() {
            sum += 32_767;
            highs += 1;
        } else {
            sum -= 32_767;
        }
        let excess = sum - n * 4_200;
        assert!(-3 * 65_534 <= excess && excess <= 3 * 65_534, "after {}: {}", n, excess);
    }
    assert_eq!(highs, 282_044);
}

#[test]
fn density_of_u64_stays_within_three_spans() {
    let mut pdm = Pdm::<u64>::new();
    pdm.set_value(1_223_000_000_000_000_000);
    let max = u64::MAX as i128;
    let mut highs: i128 = 0;
    for n in 1..=200_000i128 {
        if pdm.update() {
            highs += 1;
        }
        let excess = max * highs - n * 1_223_000_000_000_000_000;
        assert!(-3 * max <= excess && excess <= 3 * max, "after {}: {}", n, excess);
    }
}

#[test]
fn zero_setpoint_unsigned_stays_low() {
    let mut small = Pdm::<u8>::new();
    small.set_value(0);
    assert_eq!(bits_u8(&mut small, 100), "0".repeat(100));
    let mut wide = Pdm::<u32>::new();
    wide.set_value(0);
    for _ in 0..100_000 {
        assert!(!wide.update());
    }
}

#[test]
fn zero_setpoint_signed_is_balanced() {
    let mut pdm = Pdm::<i16>::new();
    pdm.set_value(0);
    let mut highs: i64 = 0;
    for n in 1..=100_000i64 {
        if pdm.update() {
            highs += 1;
        }
        assert!((2 * highs - n).abs() <= 6);
    }
    assert_eq!(highs, 50_000);
}

#[test]
fn top_setpoint_is_high_from_the_second_output() {
    let mut unsigned = Pdm::<u8>::new();
    unsigned.set_value(u8::MAX);
    assert!(!unsigned.update());
    for _ in 0..1_000_000 {
        assert!(unsigned.update());
    }
    let mut signed = Pdm::<i8>::new();
    signed.set_value(i8::MAX);
    assert_eq!(bits_i8(&mut signed, 200), format!("0{}", "1".repeat(199)));
    let mut wide = Pdm::<i64>::new();
    wide.set_value(i64::MAX);
    assert!(!wide.update());
    for _ in 0..100_000 {
        assert!(wide.update());
    }
}

#[test]
fn bottom_setpoint_is_low() {
    let mut unsigned = Pdm::<u16>::new();
    unsigned.set_value(0);
    for _ in 0..30_000 {
        assert!(!unsigned.update());
    }
    let mut signed = Pdm::<i8>::new();
    signed.set_value(-i8::MAX);
    assert_eq!(bits_i8(&mut signed, 200), "0".repeat(200));
    let mut wide = Pdm::<i32>::new();
    wide.set_value(-i32::MAX);
    for _ in 0..100_000 {
        assert!(!wide.update());
    }
}

#[test]
fn long_runs_near_the_ends_do_not_overflow() {
    // One below the top is where the second stage of an unsigned engine
    // swings furthest; one from either end for a signed engine.
    let mut a = Pdm::<u8>::new();
    a.set_value(254);
    let mut b = Pdm::<u8>::new();
    b.set_value(1);
    let mut c = Pdm::<i8>::new();
    c.set_value(126);
    let mut d = Pdm::<i8>::new();
    d.set_value(-126);
    let mut highs = [0i64; 4];
    let n: i64 = 3_000_000;
    for _ in 0..n {
        highs[0] += a.update() as i64;
        highs[1] += b.update() as i64;
        highs[2] += c.update() as i64;
        highs[3] += d.update() as i64;
    }
    assert!((255 * highs[0] - n * 254).abs() <= 3 * 255);
    assert!((255 * highs[1] - n).abs() <= 3 * 255);
    assert!((254 * highs[2] - n * (126 + 127)).abs() <= 3 * 254);
    assert!((254 * highs[3] - n).abs() <= 3 * 254);
}

#[test]
fn every_u8_setpoint_above_zero_runs_long() {
    for v in 1..=u8::MAX {
        let mut pdm = Pdm::<u8>::new();
        pdm.set_value(v);
        let mut highs: i64 = 0;
        let n: i64 = 40_000;
        for _ in 0..n {
            highs += pdm.update() as i64;
        }
        assert!((255 * highs - n * v as i64).abs() <= 3 * 255, "setpoint {}", v);
    }
}

#[test]
fn every_interior_i8_setpoint_runs_long() {
    for v in -126..=126i8 {
        let mut pdm = Pdm::<i8>::new();
        pdm.set_value(v);
        let mut highs: i64 = 0;
        let n: i64 = 40_000;
        for _ in 0..n {
            highs += pdm.update() as i64;
        }
        assert!((254 * highs - n * (v as i64 + 127)).abs() <= 3 * 254, "setpoint {}", v);
    }
}

#[test]
fn same_commands_give_same_bits() {
    let mut a = Pdm::<u16>::new();
    let mut b = Pdm::<u16>::new();
    let setpoints: [u16; 5] = [42_000, 7, 30_000, 65_000, 12_345];
    for round in 0..5_000usize {
        if round % 37 == 0 {
            let v = setpoints[(round / 37) % 5];
            a.set_value(v);
            b.set_value(v);
        }
        assert_eq!(a.update(), b.update(), "round {}", round);
    }
}

#[test]
fn an_engine_continues_like_one_in_the_same_state() {
    // Two engines driven alike are in the same state after the first
    // batch; the second batch then gives each the same bits again.
    let mut a = Pdm::<i32>::new();
    let mut b = Pdm::<i32>::new();
    a.set_value(-420_000_000);
    b.set_value(-420_000_000);
    for _ in 0..1_000 {
        a.update();
        b.update();
    }
    a.set_value(1_000_000_000);
    b.set_value(1_000_000_000);
    for _ in 0..1_000 {
        assert_eq!(a.update(), b.update());
    }
}
