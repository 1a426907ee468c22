use transcribe::audio::{collect_samples, AudioFormat};

#[test]
fn mono_16k_is_supported() {
    assert!(AudioFormat { channels: 1, sample_rate: 16000 }.is_supported());
}

#[test]
fn stereo_is_not_supported() {
    assert!(!AudioFormat { channels: 2, sample_rate: 16000 }.is_supported());
}

#[test]
fn other_rates_are_not_supported() {
    assert!(!AudioFormat { channels: 1, sample_rate: 44100 }.is_supported());
    assert!(!AudioFormat { channels: 1, sample_rate: 8000 }.is_supported());
}

#[test]
fn samples_are_kept_in_order() {
    let decoded: Vec<Result<i16, String>> = vec![Ok(32767), Ok(-32768), Ok(0), Ok(5)];
    assert_eq!(collect_samples(&decoded), Ok(vec![32767, -32768, 0, 5]));
}

#[test]
fn first_bad_sample_fails_the_load() {
    let decoded: Vec<Result<i16, String>> =
        vec![Ok(1), Ok(2), Err("bad".to_string()), Ok(3), Err("worse".to_string())];
    assert_eq!(collect_samples(&decoded), Err(2));
}

#[test]
fn hundred_silent_samples() {
    let decoded: Vec<Result<i16, String>> = vec![Ok(0); 100];
    assert_eq!(collect_samples(&decoded), Ok(vec![0i16; 100]));
}

#[test]
fn no_samples() {
    let decoded: Vec<Result<i16, String>> = Vec::new();
    assert_eq!(collect_samples(&decoded), Ok(Vec::new()));
}
