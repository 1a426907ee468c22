use vstd::prelude::*;

verus! {

/// How the inference engine decodes: beam search over English speech, with
/// timestamps and with blank and non-speech tokens suppressed.
pub struct DecodingConfig {
    /// Width of the beam.
    pub beam_size: i32,
    /// Beam-search patience, in tenths.
    pub patience_tenths: u32,
    /// Language code of the speech.
    pub language: String,
    /// Whether to translate rather than transcribe.
    pub translate: bool,
    pub suppress_blank: bool,
    pub suppress_non_speech: bool,
    pub token_timestamps: bool,
}

impl DecodingConfig {
    /// The one configuration the transcriber runs with.
    pub fn english() -> (r: DecodingConfig)
        ensures
            r.beam_size == 5,
            r.patience_tenths == 15,
            r.language@ == "en"@,
            !r.translate,
            r.suppress_blank,
            r.suppress_non_speech,
            r.token_timestamps,
    {
        DecodingConfig {
            beam_size: 5,
            patience_tenths: 15,
            language: <String as vstd::string::StringExecFns>::from_str("en"),
            translate: false,
            suppress_blank: true,
            suppress_non_speech: true,
            token_timestamps: true,
        }
    }
}

} // verus!
