use vstd::prelude::*;
use crate::audio::AudioFormat;

verus! {

/// Why a transcription run stopped before its end.
#[derive(Clone, Copy, Debug, PartialEq, Eq, Structural)]
pub enum Failure {
    ModelMissing,
    AudioMissing,
    ModelLoad,
    AudioOpen,
    UnsupportedFormat { channels: u16, sample_rate: u32 },
    SampleDecode,
    Inference,
    ReportWrite,
}

/// The work that a run asks for next, or how it ended.
#[derive(Clone, Copy, Debug, PartialEq, Eq, Structural)]
pub enum Step {
    CheckModel,
    CheckAudio,
    LoadModel,
    OpenAudio,
    DecodeSamples,
    Transcribe,
    WriteReport,
    Finished,
    Aborted(Failure),
}

/// What came of the work that a step asked for.
#[derive(Clone, Copy, Debug, PartialEq, Eq, Structural)]
pub enum Event {
    ModelFound(bool),
    AudioFound(bool),
    ModelLoaded(bool),
    AudioOpened(Option<AudioFormat>),
    SamplesDecoded(bool),
    Transcribed(bool),
    ReportWritten(bool),
}

/// The step of a run after `event` answered `step`. An event that does not
/// answer the current step leaves it as it is.
pub open spec fn step_after(step: Step, event: Event) -> Step {
    match (step, event) {
        (Step::CheckModel, Event::ModelFound(ok)) => if ok {
            Step::CheckAudio
        } else {
            Step::Aborted(Failure::ModelMissing)
        },
        (Step::CheckAudio, Event::AudioFound(ok)) => if ok {
            Step::LoadModel
        } else {
            Step::Aborted(Failure::AudioMissing)
        },
        (Step::LoadModel, Event::ModelLoaded(ok)) => if ok {
            Step::OpenAudio
        } else {
            Step::Aborted(Failure::ModelLoad)
        },
        (Step::OpenAudio, Event::AudioOpened(header)) => match header {
            None => Step::Aborted(Failure::AudioOpen),
            Some(format) => if format.supported() {
                Step::DecodeSamples
            } else {
                Step::Aborted(
                    Failure::UnsupportedFormat {
                        channels: format.channels,
                        sample_rate: format.sample_rate,
                    },
                )
            },
        },
        (Step::DecodeSamples, Event::SamplesDecoded(ok)) => if ok {
            Step::Transcribe
        } else {
            Step::Aborted(Failure::SampleDecode)
        },
        (Step::Transcribe, Event::Transcribed(ok)) => if ok {
            Step::WriteReport
        } else {
            Step::Aborted(Failure::Inference)
        },
        (Step::WriteReport, Event::ReportWritten(ok)) => if ok {
            Step::Finished
        } else {
            Step::Aborted(Failure::ReportWrite)
        },
        _ => step,
    }
}

/// The step reached from `start` after the events, in order.
pub open spec fn run_from(start: Step, events: Seq<Event>) -> Step
    decreases events.len(),
{
    if events.len() == 0 {
        start
    } else {
        step_after(run_from(start, events.drop_last()), events.last())
    }
}

/// The step that a run reaches after the events, in order.
pub open spec fn run(events: Seq<Event>) -> Step {
    run_from(Step::CheckModel, events)
}

/// The first step of every run.
pub fn first_step() -> (r: Step)
    ensures
        r == run(Seq::<Event>::empty()),
{
    Step::CheckModel
}

/// The step after `event` answered `step`.
pub fn next_step(step: &Step, event: &Event) -> (r: Step)
    ensures
        r == step_after(*step, *event),
{
    match (step, event) {
        (Step::CheckModel, Event::ModelFound(ok)) => if *ok {
            Step::CheckAudio
        } else {
            Step::Aborted(Failure::ModelMissing)
        },
        (Step::CheckAudio, Event::AudioFound(ok)) => if *ok {
            Step::LoadModel
        } else {
            Step::Aborted(Failure::AudioMissing)
        },
        (Step::LoadModel, Event::ModelLoaded(ok)) => if *ok {
            Step::OpenAudio
        } else {
            Step::Aborted(Failure::ModelLoad)
        },
        (Step::OpenAudio, Event::AudioOpened(header)) => match header {
            None => Step::Aborted(Failure::AudioOpen),
            Some(format) => if format.is_supported() {
                Step::DecodeSamples
            } else {
                Step::Aborted(
                    Failure::UnsupportedFormat {
                        channels: format.channels,
                        sample_rate: format.sample_rate,
                    },
                )
            },
        },
        (Step::DecodeSamples, Event::SamplesDecoded(ok)) => if *ok {
            Step::Transcribe
        } else {
            Step::Aborted(Failure::SampleDecode)
        },
        (Step::Transcribe, Event::Transcribed(ok)) => if *ok {
            Step::WriteReport
        } else {
            Step::Aborted(Failure::Inference)
        },
        (Step::WriteReport, Event::ReportWritten(ok)) => if *ok {
            Step::Finished
        } else {
            Step::Aborted(Failure::ReportWrite)
        },
        _ => *step,
    }
}

/// Whether a run has ended, well or not.
pub fn is_done(step: &Step) -> (r: bool)
    ensures
        r == (*step is Finished || *step is Aborted),
{
    match step {
        Step::Finished | Step::Aborted(_) => true,
        _ => false,
    }
}

/// Events that follow an abort change nothing.
pub proof fn lemma_abort_is_final(f: Failure, events: Seq<Event>)
    ensures
        run_from(Step::Aborted(f), events) == Step::Aborted(f),
    decreases events.len(),
{
    if events.len() > 0 {
        lemma_abort_is_final(f, events.drop_last());
    }
}

proof fn lemma_run_concat(start: Step, a: Seq<Event>, b: Seq<Event>)
    ensures
        run_from(start, a + b) == run_from(run_from(start, a), b),
    decreases b.len(),
{
    if b.len() == 0 {
        assert(a + b =~= a);
    } else {
        lemma_run_concat(start, a, b.drop_last());
        assert((a + b).drop_last() =~= a + b.drop_last());
    }
}

/// When the model is missing, the run aborts on the first event and stays
/// aborted: the audio is never looked at.
pub proof fn lemma_missing_model_aborts_first(events: Seq<Event>)
    requires
        events.len() > 0,
        events[0] == Event::ModelFound(false),
    ensures
        forall|k: int|
            1 <= k <= events.len() ==> #[trigger] run(events.subrange(0, k)) == Step::Aborted(
                Failure::ModelMissing,
            ),
{
    assert forall|k: int| 1 <= k <= events.len() implies #[trigger] run(events.subrange(0, k))
        == Step::Aborted(Failure::ModelMissing) by {
        let first = events.subrange(0, 1);
        let rest = events.subrange(1, k);
        assert(events.subrange(0, k) =~= first + rest);
        assert(first.drop_last() =~= Seq::<Event>::empty());
        assert(run_from(Step::CheckModel, first.drop_last()) == Step::CheckModel);
        assert(first.last() == events[0]);
        assert(run(first) == Step::Aborted(Failure::ModelMissing));
        lemma_run_concat(Step::CheckModel, first, rest);
        lemma_abort_is_final(Failure::ModelMissing, rest);
    }
}

/// Audio that is not mono at 16 kHz aborts the run as soon as its header is
/// read, and whatever follows, the run never transcribes nor writes a report.
pub proof fn lemma_unsupported_format_aborts(
    before: Seq<Event>,
    format: AudioFormat,
    after: Seq<Event>,
)
    requires
        run(before) == Step::OpenAudio,
        !format.supported(),
    ensures
        run(before.push(Event::AudioOpened(Some(format))) + after) == Step::Aborted(
            Failure::UnsupportedFormat { channels: format.channels, sample_rate: format.sample_rate },
        ),
{
    let opened = before.push(Event::AudioOpened(Some(format)));
    assert(opened.drop_last() =~= before);
    lemma_run_concat(Step::CheckModel, opened, after);
    lemma_abort_is_final(
        Failure::UnsupportedFormat { channels: format.channels, sample_rate: format.sample_rate },
        after,
    );
}

} // verus!
