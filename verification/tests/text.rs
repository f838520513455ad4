use piper_poc::text::{push_decimal, str_eq, str_le};
use piper_poc::wav::{wav_format, WavFormat, WavSampleFormat, BITS_PER_SAMPLE};

fn decimal(x: i32) -> String {
    let mut s = String::from("n=");
    push_decimal(&mut s, x);
    s
}

#[test]
fn decimal_matches_display() {
    for x in [0, 7, 10, 99, 100, 12345, -1, -10, -905, i32::MAX, i32::MIN] {
        assert_eq!(decimal(x), format!("n={x}"));
    }
}

#[test]
fn order_matches_string_order() {
    let words = ["", "a", "ab", "b", "B", "æ", "z", "å", "aa", "a b"];
    for a in words {
        for b in words {
            assert_eq!(str_le(a, b), a <= b, "{a:?} <= {b:?}");
            assert_eq!(str_eq(a, b), a == b, "{a:?} == {b:?}");
        }
    }
}

#[test]
fn wav_output_is_mono_16_bit() {
    assert_eq!(
        wav_format(22050),
        WavFormat {
            channels: 1,
            sample_rate: 22050,
            bits_per_sample: 16,
            sample_format: WavSampleFormat::Int,
        }
    );
    assert_eq!(BITS_PER_SAMPLE, 16);
}
