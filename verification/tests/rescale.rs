use rnnoise4j::rescale::rescale;

/// The same computation in native binary32 arithmetic.
fn in_floats(raw: &[f32]) -> Vec<i16> {
    let mut max = f32::MIN;
    let mut min = f32::MAX;
    for &v in raw {
        if v > max {
            max = v;
        }
        if v < min {
            min = v;
        }
    }
    let scale = f32::min(1f32, 32766f32 / f32::max(f32::abs(max), f32::abs(min)));
    raw.iter().map(|v| (v * scale) as i16).collect()
}

fn bits_of(raw: &[f32]) -> Vec<u32> {
    raw.iter().map(|v| v.to_bits()).collect()
}

fn agree(raw: &[f32]) {
    assert_eq!(rescale(&bits_of(raw)), in_floats(raw));
}

/// A small generator of reproducible bit patterns.
fn next(state: &mut u64) -> u32 {
    *state = state.wrapping_mul(6364136223846793005).wrapping_add(1442695040888963407);
    (*state >> 32) as u32
}

#[test]
fn rescale_leaves_small_buffers_unscaled() {
    let raw = [0.0f32, 1.0, -1.0, 1.5, -1.5, 0.999, -0.999, 32766.0, -32766.0, 12345.678];
    assert_eq!(rescale(&bits_of(&raw)), vec![0, 1, -1, 1, -1, 0, 0, 32766, -32766, 12345]);
    agree(&raw);
}

#[test]
fn rescale_scales_peak_to_full_scale() {
    let raw = [65532.0f32, -65532.0, 32766.0, 2.0, 0.5];
    assert_eq!(rescale(&bits_of(&raw)), vec![32766, -32766, 16383, 1, 0]);
    agree(&raw);
}

#[test]
fn rescale_agrees_with_floats_just_above_full_scale() {
    let mut peak = 32766.0f32;
    for _ in 0..2000 {
        peak = f32::from_bits(peak.to_bits() + 1);
        agree(&[peak, -peak, 1.0, 32766.0, 16383.5, peak / 3.0]);
    }
}

#[test]
fn rescale_agrees_with_floats_on_random_audio() {
    let mut state = 7u64;
    for round in 0..400 {
        let spread = 1u32 << (round % 24);
        let mut raw = Vec::new();
        for _ in 0..64 {
            let v = (next(&mut state) % (2 * spread)) as f32 - spread as f32;
            let f = (next(&mut state) % 1000) as f32 / 1000.0;
            raw.push(v + f);
        }
        agree(&raw);
    }
}

#[test]
fn rescale_agrees_with_floats_on_random_patterns() {
    let mut state = 99u64;
    for _ in 0..3000 {
        let mut raw = Vec::new();
        for _ in 0..8 {
            raw.push(f32::from_bits(next(&mut state)));
        }
        agree(&raw);
    }
}

#[test]
fn rescale_agrees_with_floats_on_random_peaks() {
    let mut state = 3u64;
    for _ in 0..20000 {
        let peak_bits = 0x46FF_FC00 + next(&mut state) % (0x7F80_0000 - 0x46FF_FC00 + 1);
        let peak = f32::from_bits(peak_bits);
        let mut raw = vec![peak];
        for _ in 0..6 {
            let m = next(&mut state) % (peak_bits + 1);
            let s = next(&mut state) & 0x8000_0000;
            raw.push(f32::from_bits(m | s));
        }
        raw.push(peak * 0.5);
        raw.push(-peak);
        agree(&raw);
    }
}

#[test]
fn rescale_handles_values_that_are_not_numbers() {
    let raw = [f32::NAN, 1.0, -f32::NAN, 40000.0];
    assert_eq!(rescale(&bits_of(&raw)), vec![0, 0, 0, 32765]);
    agree(&raw);
    agree(&[f32::NAN, f32::NAN]);
    agree(&[f32::INFINITY, 1.0, -5.0, f32::NAN]);
    agree(&[f32::NEG_INFINITY, 1.0e30]);
    agree(&[f32::MAX, f32::MIN, 1.0, f32::MIN_POSITIVE, 1.0e-45]);
    agree(&[]);
}

#[test]
fn rescale_of_joined_buffers_within_full_scale_is_the_join() {
    let a = [1.5f32, -200.25, 32766.0, 0.0];
    let b = [-32765.5f32, 7.0, f32::NAN];
    let mut joined = a.to_vec();
    joined.extend_from_slice(&b);
    let mut parts = rescale(&bits_of(&a));
    parts.extend_from_slice(&rescale(&bits_of(&b)));
    assert_eq!(rescale(&bits_of(&joined)), parts);
    assert_eq!(parts, vec![1, -200, 32766, 0, -32765, 7, 0]);
}

#[test]
fn rescale_of_joined_buffers_above_full_scale_uses_one_peak() {
    let a = [40000.0f32, 100.0];
    let b = [20000.0f32, 10000.0];
    let mut joined = a.to_vec();
    joined.extend_from_slice(&b);
    // alone, the second buffer needs no scaling; joined, it is scaled with the first
    assert_eq!(rescale(&bits_of(&b)), vec![20000, 10000]);
    assert_eq!(rescale(&bits_of(&joined)), in_floats(&joined));
    assert_ne!(rescale(&bits_of(&joined))[2], 20000);
}
