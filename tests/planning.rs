use silence_cutter::detect::SilenceSegment;
use silence_cutter::plan::{
    plan_batches, plan_excision, plan_speech_segments, summarize_job, total_silence_us,
    ExcisionPlan, SpeechSegment,
};
use silence_cutter::render::{RenderAction, RenderEvent, RenderProgress};

fn sil(a: u64, b: u64) -> SilenceSegment {
    SilenceSegment::new(a, b, 0)
}

#[test]
fn scenario_one_silence_two_kept_stretches() {
    let speech = plan_speech_segments(&[sil(1_000_000, 2_000_000)], 3_000_000);
    assert_eq!(
        speech,
        vec![
            SpeechSegment { start_us: 0, end_us: 1_000_000 },
            SpeechSegment { start_us: 2_000_000, end_us: 3_000_000 }
        ]
    );
    // batches hold up to ten stretches, so both go in one batch
    let batches = plan_batches(&speech);
    assert_eq!(batches.len(), 1);
    assert_eq!(batches[0].segments, speech);
    assert_eq!(batches[0].seek_start_us, 0);
    assert_eq!(batches[0].index, 0);
}

#[test]
fn scenario_no_silence_keeps_everything() {
    let speech = plan_speech_segments(&[], 2_000_000);
    assert_eq!(speech, vec![SpeechSegment { start_us: 0, end_us: 2_000_000 }]);
    assert_eq!(plan_batches(&speech).len(), 1);
    let r = summarize_job("in.mp4".into(), "out.mp4".into(), 2_000_000, &[], 5);
    assert_eq!(r.total_silence_removed_us, 0);
    assert_eq!(r.processed_duration_us, 2_000_000);
}

#[test]
fn no_silences_means_copy_and_zero_segments() {
    assert!(matches!(plan_excision(&[], 5_000_000), ExcisionPlan::CopySource));
    let r = summarize_job("a.mp4".into(), "b.mp4".into(), 5_000_000, &[], 12);
    assert_eq!(r.silence_segments, 0);
    assert!(r.success);
    assert!(r.error_message.is_none());
}

#[test]
fn render_plan_when_there_are_silences() {
    match plan_excision(&[sil(0, 500_000)], 3_000_000) {
        ExcisionPlan::Render { speech, batches } => {
            assert_eq!(speech, vec![SpeechSegment { start_us: 500_000, end_us: 3_000_000 }]);
            assert_eq!(batches.len(), 1);
            assert_eq!(batches[0].seek_start_us, 500_000);
        }
        ExcisionPlan::CopySource => panic!("expected a render plan"),
    }
}

#[test]
fn edges_shorter_than_10ms_are_not_kept() {
    let speech = plan_speech_segments(&[sil(10_000, 1_000_000), sil(1_005_000, 2_995_000)], 3_000_000);
    assert!(speech.is_empty());
    let speech = plan_speech_segments(&[sil(10_001, 1_000_000)], 1_010_001);
    assert_eq!(
        speech,
        vec![
            SpeechSegment { start_us: 0, end_us: 10_001 },
            SpeechSegment { start_us: 1_000_000, end_us: 1_010_001 }
        ]
    );
}

#[test]
fn kept_stretches_are_disjoint_and_increasing() {
    let sils: Vec<SilenceSegment> =
        (0..25u64).map(|i| sil(i * 1_000_000 + 400_000, i * 1_000_000 + 700_000)).collect();
    let speech = plan_speech_segments(&sils, 25_000_000);
    assert_eq!(speech.len(), 26);
    for s in &speech {
        assert!(s.start_us < s.end_us);
    }
    for w in speech.windows(2) {
        assert!(w[0].end_us <= w[1].start_us);
        assert!(w[0].start_us < w[1].start_us);
    }
    let batches = plan_batches(&speech);
    assert_eq!(batches.len(), 3);
    assert_eq!(batches[2].segments.len(), 6);
    let flat: Vec<SpeechSegment> = batches.iter().flat_map(|b| b.segments.clone()).collect();
    assert_eq!(flat, speech);
}

#[test]
fn durations_add_up() {
    let sils = vec![sil(1_000_000, 1_500_000), sil(4_000_000, 4_250_000)];
    let r = summarize_job("i".into(), "o".into(), 10_000_000, &sils, 7);
    assert_eq!(r.total_silence_removed_us, 750_000);
    assert_eq!(r.processed_duration_us, 9_250_000);
    assert_eq!(r.processed_duration_us + r.total_silence_removed_us as i128, 10_000_000);
    assert_eq!(r.silence_segments, 2);
    assert_eq!(total_silence_us(&sils), Some(750_000));
    assert_eq!(total_silence_us(&[sil(0, u64::MAX), sil(0, 1)]), None);
}

#[test]
fn scenario_cancel_after_first_batch() {
    let mut p = RenderProgress::new(3);
    assert_eq!(
        p.step(RenderEvent::BatchFinished, 3000),
        RenderAction::Report { percent_bp: 3100, eta_ms: 6000 }
    );
    assert_eq!(p.step(RenderEvent::Tick { cancel_requested: false }, 3100), RenderAction::Wait);
    assert_eq!(p.step(RenderEvent::Tick { cancel_requested: true }, 3200), RenderAction::Abort);
    assert_eq!(p.completed, 1);
    assert!(!p.is_done());
}

#[test]
fn render_progress_reaches_91_percent() {
    let mut p = RenderProgress::new(2);
    assert_eq!(
        p.step(RenderEvent::BatchFinished, 1000),
        RenderAction::Report { percent_bp: 4600, eta_ms: 1000 }
    );
    assert_eq!(
        p.step(RenderEvent::BatchFinished, 2500),
        RenderAction::Report { percent_bp: 9100, eta_ms: 0 }
    );
    assert!(p.is_done());
    let mut q = RenderProgress::new(2);
    assert_eq!(q.step(RenderEvent::BatchFailed, 10), RenderAction::Fail);
    assert_eq!(q.completed, 0);
}
