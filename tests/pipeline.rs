use transcribe::audio::AudioFormat;
use transcribe::pipeline::{first_step, is_done, next_step, Event, Failure, Step};

fn drive(events: &[Event]) -> Step {
    let mut step = first_step();
    for e in events {
        step = next_step(&step, e);
    }
    step
}

const MONO_16K: AudioFormat = AudioFormat { channels: 1, sample_rate: 16000 };

#[test]
fn full_run_finishes() {
    let events = [
        Event::ModelFound(true),
        Event::AudioFound(true),
        Event::ModelLoaded(true),
        Event::AudioOpened(Some(MONO_16K)),
        Event::SamplesDecoded(true),
        Event::Transcribed(true),
        Event::ReportWritten(true),
    ];
    let mut step = first_step();
    let expected = [
        Step::CheckAudio,
        Step::LoadModel,
        Step::OpenAudio,
        Step::DecodeSamples,
        Step::Transcribe,
        Step::WriteReport,
        Step::Finished,
    ];
    assert_eq!(step, Step::CheckModel);
    for (e, want) in events.iter().zip(expected.iter()) {
        step = next_step(&step, e);
        assert_eq!(step, *want);
    }
    assert!(is_done(&step));
}

#[test]
fn missing_model_aborts_before_audio() {
    let step = drive(&[Event::ModelFound(false), Event::AudioFound(true), Event::ModelLoaded(true)]);
    assert_eq!(step, Step::Aborted(Failure::ModelMissing));
}

#[test]
fn missing_audio_aborts() {
    assert_eq!(drive(&[Event::ModelFound(true), Event::AudioFound(false)]), Step::Aborted(Failure::AudioMissing));
}

#[test]
fn stereo_aborts_before_inference() {
    let stereo = AudioFormat { channels: 2, sample_rate: 16000 };
    let step = drive(&[
        Event::ModelFound(true),
        Event::AudioFound(true),
        Event::ModelLoaded(true),
        Event::AudioOpened(Some(stereo)),
        Event::SamplesDecoded(true),
        Event::Transcribed(true),
        Event::ReportWritten(true),
    ]);
    assert_eq!(step, Step::Aborted(Failure::UnsupportedFormat { channels: 2, sample_rate: 16000 }));
}

#[test]
fn wrong_rate_aborts_before_inference() {
    let step = drive(&[
        Event::ModelFound(true),
        Event::AudioFound(true),
        Event::ModelLoaded(true),
        Event::AudioOpened(Some(AudioFormat { channels: 1, sample_rate: 44100 })),
    ]);
    assert_eq!(step, Step::Aborted(Failure::UnsupportedFormat { channels: 1, sample_rate: 44100 }));
}

#[test]
fn each_failure_has_its_step() {
    let ok = [
        Event::ModelFound(true),
        Event::AudioFound(true),
        Event::ModelLoaded(true),
        Event::AudioOpened(Some(MONO_16K)),
        Event::SamplesDecoded(true),
        Event::Transcribed(true),
    ];
    assert_eq!(drive(&[ok[0], ok[1], Event::ModelLoaded(false)]), Step::Aborted(Failure::ModelLoad));
    assert_eq!(drive(&[ok[0], ok[1], ok[2], Event::AudioOpened(None)]), Step::Aborted(Failure::AudioOpen));
    assert_eq!(drive(&[ok[0], ok[1], ok[2], ok[3], Event::SamplesDecoded(false)]), Step::Aborted(Failure::SampleDecode));
    assert_eq!(drive(&[ok[0], ok[1], ok[2], ok[3], ok[4], Event::Transcribed(false)]), Step::Aborted(Failure::Inference));
    let mut all = ok.to_vec();
    all.push(Event::ReportWritten(false));
    assert_eq!(drive(&all), Step::Aborted(Failure::ReportWrite));
}

#[test]
fn unrelated_event_is_ignored() {
    assert_eq!(next_step(&Step::CheckModel, &Event::Transcribed(true)), Step::CheckModel);
    assert!(!is_done(&Step::CheckModel));
}

#[test]
fn aborted_run_stays_aborted() {
    let s = Step::Aborted(Failure::Inference);
    assert_eq!(next_step(&s, &Event::ReportWritten(true)), s);
    assert!(is_done(&s));
}
