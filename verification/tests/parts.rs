use rnnoise4j::binary32::{biased_exponent_of, convert, magnitude_of, negative, significand_of};
use rnnoise4j::error::{DenoiseError, Stage};
use rnnoise4j::frames::whole;
use rnnoise4j::rescale::{peak_of, rescale};
use rnnoise4j::rounding::{bit_length_of, nearest_even_of, pow2_of};

#[test]
fn whole_tells_frame_multiples() {
    assert!(whole(0));
    assert!(whole(480));
    assert!(whole(960));
    assert!(!whole(1));
    assert!(!whole(479));
    assert!(!whole(481));
}

#[test]
fn exception_classes_and_messages() {
    assert_eq!(DenoiseError::InvalidState.exception_class(), "java/lang/IllegalStateException");
    assert_eq!(DenoiseError::InvalidState.message(), "Denoiser is closed");
    assert_eq!(DenoiseError::InvalidArgument.exception_class(), "java/lang/IllegalArgumentException");
    assert_eq!(DenoiseError::InvalidArgument.message(), "Input length must be a multiple of 480");
    assert_eq!(
        DenoiseError::ConversionFailure(Stage::InputLength).exception_class(),
        "java/lang/RuntimeException"
    );
    assert_eq!(DenoiseError::AllocationFailure.exception_class(), "java/lang/OutOfMemoryError");
    assert_eq!(DenoiseError::AllocationFailure.message(), "Failed to allocate denoiser");
}

#[test]
fn conversion_failures_name_their_stage() {
    assert_eq!(Stage::HandleRead.prefix(), "Failed to get denoiser pointer: ");
    assert_eq!(Stage::HandleConvert.prefix(), "Failed to convert denoiser pointer to long: ");
    assert_eq!(Stage::InputLength.prefix(), "Failed to get input length: ");
    assert_eq!(Stage::InputRead.prefix(), "Failed to convert short array: ");
    assert_eq!(Stage::OutputCreate.prefix(), "Failed to create short array: ");
    assert_eq!(Stage::OutputWrite.prefix(), "Failed populate short array: ");
    assert_eq!(
        DenoiseError::ConversionFailure(Stage::OutputWrite).message(),
        "Failed populate short array: "
    );
}

#[test]
fn fields_of_a_pattern() {
    let x = (-6.5f32).to_bits();
    assert!(negative(x));
    assert!(!negative(6.5f32.to_bits()));
    assert_eq!(magnitude_of(x), 6.5f32.to_bits());
    assert_eq!(biased_exponent_of(x), 129);
    // 6.5 = 13 * 2^-1 = 0xD0_0000 * 2^-21
    assert_eq!(significand_of(x), 0xD0_0000);
    assert_eq!(biased_exponent_of(0), 0);
    assert_eq!(significand_of(1), 1);
    assert_eq!(significand_of(1.0f32.to_bits()), 0x80_0000);
    assert_eq!(biased_exponent_of(f32::INFINITY.to_bits()), 255);
}

#[test]
fn convert_drops_the_fraction() {
    assert_eq!(convert(0.0f32.to_bits()), 0);
    assert_eq!(convert((-0.0f32).to_bits()), 0);
    assert_eq!(convert(0.99f32.to_bits()), 0);
    assert_eq!(convert(1.0f32.to_bits()), 1);
    assert_eq!(convert((-1.99f32).to_bits()), -1);
    assert_eq!(convert(2.5f32.to_bits()), 2);
    assert_eq!(convert(32766.9f32.to_bits()), 32766);
    assert_eq!(convert(32767.0f32.to_bits()), 32767);
    assert_eq!(convert((-32767.5f32).to_bits()), -32767);
    assert_eq!(convert(1.0e-40f32.to_bits()), 0);
}

#[test]
fn convert_stops_at_the_bounds() {
    assert_eq!(convert(32768.0f32.to_bits()), 32767);
    assert_eq!(convert((-32768.0f32).to_bits()), -32768);
    assert_eq!(convert((-32769.0f32).to_bits()), -32768);
    assert_eq!(convert(1.0e9f32.to_bits()), 32767);
    assert_eq!(convert(f32::MAX.to_bits()), 32767);
    assert_eq!(convert(f32::INFINITY.to_bits()), 32767);
    assert_eq!(convert(f32::NEG_INFINITY.to_bits()), -32768);
    assert_eq!(convert(f32::NAN.to_bits()), 0);
    assert_eq!(convert(0xFFC0_0001), 0);
}

#[test]
fn convert_agrees_with_the_cast() {
    let mut state = 11u64;
    for _ in 0..200000 {
        state = state.wrapping_mul(6364136223846793005).wrapping_add(1442695040888963407);
        let bits = (state >> 32) as u32;
        assert_eq!(convert(bits), f32::from_bits(bits) as i16);
    }
}

#[test]
fn powers_and_bit_lengths() {
    assert_eq!(pow2_of(0), 1);
    assert_eq!(pow2_of(10), 1024);
    assert_eq!(pow2_of(63), 1u64 << 63);
    assert_eq!(bit_length_of(0), 0);
    assert_eq!(bit_length_of(1), 1);
    assert_eq!(bit_length_of(2), 2);
    assert_eq!(bit_length_of(255), 8);
    assert_eq!(bit_length_of(256), 9);
    assert_eq!(bit_length_of(u64::MAX), 64);
}

#[test]
fn nearest_even_rounds_halves_to_even() {
    assert_eq!(nearest_even_of(10, 4), 2);
    assert_eq!(nearest_even_of(14, 4), 4);
    assert_eq!(nearest_even_of(9, 4), 2);
    assert_eq!(nearest_even_of(11, 4), 3);
    assert_eq!(nearest_even_of(12, 4), 3);
    assert_eq!(nearest_even_of(7, 2), 4);
    assert_eq!(nearest_even_of(5, 2), 2);
    assert_eq!(nearest_even_of(0, 3), 0);
    assert_eq!(nearest_even_of(u64::MAX - 1, 1), u64::MAX - 1);
}

#[test]
fn peak_is_the_largest_magnitude_among_numbers() {
    assert_eq!(peak_of(&[]), 0);
    assert_eq!(peak_of(&[f32::NAN.to_bits()]), 0);
    let raw = [1.0f32.to_bits(), (-7.5f32).to_bits(), f32::NAN.to_bits(), 3.0f32.to_bits()];
    assert_eq!(peak_of(&raw), 7.5f32.to_bits());
    assert_eq!(peak_of(&[f32::NEG_INFINITY.to_bits(), 5.0f32.to_bits()]), f32::INFINITY.to_bits());
}

#[test]
fn zeros_of_either_sign_rescale_to_zero() {
    let raw = [0u32, 0x8000_0000, 0, 0x8000_0000];
    assert_eq!(rescale(&raw), vec![0i16; 4]);
}

#[test]
fn infinite_peak_silences_the_buffer() {
    let raw = [f32::INFINITY.to_bits(), 100.0f32.to_bits(), (-3.0e38f32).to_bits()];
    assert_eq!(rescale(&raw), vec![0i16; 3]);
}

#[test]
fn rescale_of_nothing_is_nothing() {
    assert_eq!(rescale(&[]), Vec::<i16>::new());
}
