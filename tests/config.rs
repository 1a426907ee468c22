use transcribe::config::DecodingConfig;

#[test]
fn english_beam_search_configuration() {
    let c = DecodingConfig::english();
    assert_eq!(c.beam_size, 5);
    assert_eq!(c.patience_tenths, 15);
    assert_eq!(c.language, "en");
    assert!(!c.translate);
    assert!(c.suppress_blank);
    assert!(c.suppress_non_speech);
    assert!(c.token_timestamps);
}
