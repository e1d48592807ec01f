use rtp_engine::audio_proc::frame::{frame_len, FrameAccumulator, FRAME_MS};

/// Collect every frame the accumulator emits for a given input.
fn frames_for(acc: &mut FrameAccumulator<f32>, input: &[f32]) -> Vec<f32> {
    let mut out = Vec::new();
    acc.push(input, &mut out, |_| {});
    out
}

#[test]
fn frame_length_matches_ten_milliseconds() {
    assert_eq!(frame_len(8_000), 80);
    assert_eq!(frame_len(16_000), 160);
    assert_eq!(frame_len(48_000), 480);
    // The definition, restated independently of the constant.
    assert_eq!(frame_len(48_000), 48_000 * FRAME_MS / 1000);
}

#[test]
fn unsupported_rates_are_refused_not_approximated() {
    // 44.1k divides evenly into 10 ms but WebRTC cannot take it; accepting
    // it here would push a wrong-rate frame into the processor.
    assert!(FrameAccumulator::<f32>::new(44_100).is_none());
    assert!(FrameAccumulator::<f32>::new(0).is_none());
    assert!(FrameAccumulator::<f32>::new(22_050).is_none());
    for rate in [8_000, 16_000, 32_000, 48_000] {
        assert!(FrameAccumulator::<f32>::new(rate).is_some(), "rate {rate}");
    }
}

#[test]
fn a_short_buffer_yields_nothing_and_is_held() {
    let mut acc = FrameAccumulator::<f32>::new(48_000).expect("supported rate");
    let out = frames_for(&mut acc, &[0.5; 100]);
    assert!(
        out.is_empty(),
        "100 samples is less than one 480-sample frame"
    );
    assert_eq!(acc.pending_len(), 100);
}

#[test]
fn samples_split_across_calls_are_rejoined() {
    let mut acc = FrameAccumulator::<f32>::new(48_000).expect("supported rate");
    let mut out = Vec::new();
    // 480 samples delivered as 200 + 200 + 80.
    acc.push(&[1.0; 200], &mut out, |_| {});
    acc.push(&[2.0; 200], &mut out, |_| {});
    assert!(out.is_empty(), "no whole frame yet");
    acc.push(&[3.0; 80], &mut out, |_| {});
    assert_eq!(out.len(), 480, "the frame completes on the third push");
    assert_eq!(acc.pending_len(), 0);
    // Order preserved across the splice.
    assert!((out[0] - 1.0).abs() < f32::EPSILON);
    assert!((out[250] - 2.0).abs() < f32::EPSILON);
    assert!((out[479] - 3.0).abs() < f32::EPSILON);
}

#[test]
fn a_large_buffer_yields_several_frames_and_keeps_the_remainder() {
    let mut acc = FrameAccumulator::<f32>::new(48_000).expect("supported rate");
    // 1100 = two 480-sample frames with 140 left over.
    let out = frames_for(&mut acc, &[1.0; 1100]);
    assert_eq!(out.len(), 960);
    assert_eq!(acc.pending_len(), 140);
}

/// The property that matters: nothing is invented and nothing is lost.
#[test]
fn every_sample_is_emitted_exactly_once_in_order() {
    let mut acc = FrameAccumulator::<f32>::new(16_000).expect("supported rate");
    let mut out = Vec::new();
    // Irregular sizes, like a real device callback.
    let mut next = 0.0_f32;
    for chunk in [37_usize, 160, 1, 400, 12, 999, 160] {
        let input: Vec<f32> = (0..chunk)
            .map(|_| {
                next += 1.0;
                next
            })
            .collect();
        acc.push(&input, &mut out, |_| {});
    }
    let total: usize = 37 + 160 + 1 + 400 + 12 + 999 + 160;
    assert_eq!(out.len() + acc.pending_len(), total, "no samples lost");
    // Emitted samples are the original sequence, unpermuted.
    for (i, v) in out.iter().enumerate() {
        let expected = (i + 1) as f32;
        assert!(
            (*v - expected).abs() < f32::EPSILON,
            "sample {i} out of order"
        );
    }
}

#[test]
fn the_callback_sees_a_whole_frame_and_its_edits_are_kept() {
    let mut acc = FrameAccumulator::<f32>::new(8_000).expect("supported rate");
    let mut out = Vec::new();
    let mut seen_len = 0;
    acc.push(&[1.0; 80], &mut out, |frame| {
        seen_len = frame.len();
        // Stand in for what the processor does: rewrite in place.
        for s in frame.iter_mut() {
            *s = -*s;
        }
    });
    assert_eq!(seen_len, 80, "the callback must see exactly one frame");
    assert!(
        out.iter().all(|s| (*s + 1.0).abs() < f32::EPSILON),
        "edits must reach the output"
    );
}

#[test]
fn reset_drops_the_partial_frame() {
    let mut acc = FrameAccumulator::<f32>::new(48_000).expect("supported rate");
    let _ = frames_for(&mut acc, &[1.0; 100]);
    assert_eq!(acc.pending_len(), 100);
    acc.reset();
    assert_eq!(acc.pending_len(), 0);
    // After a reset the next frame starts clean rather than splicing.
    let out = frames_for(&mut acc, &[2.0; 480]);
    assert_eq!(out.len(), 480);
    assert!(out.iter().all(|s| (*s - 2.0).abs() < f32::EPSILON));
}

#[test]
fn an_empty_push_is_harmless() {
    let mut acc = FrameAccumulator::<f32>::new(48_000).expect("supported rate");
    let out = frames_for(&mut acc, &[]);
    assert!(out.is_empty());
    assert_eq!(acc.pending_len(), 0);
}

/// Steady state must not grow the buffer: a leak here would be unbounded
/// on a long call.
#[test]
fn pending_never_reaches_a_whole_frame_after_a_push() {
    let mut acc = FrameAccumulator::<f32>::new(48_000).expect("supported rate");
    let mut out = Vec::new();
    for _ in 0..200 {
        acc.push(&[0.25; 333], &mut out, |_| {});
        assert!(
            acc.pending_len() < acc.frame_len(),
            "a whole frame was left unemitted"
        );
    }
}

#[test]
fn how_samples_are_chunked_does_not_matter() {
    let input: Vec<f32> = (0..1000).map(|i| i as f32).collect();
    let mut whole = FrameAccumulator::<f32>::new(16_000).expect("supported rate");
    let at_once = frames_for(&mut whole, &input);
    let mut parts = FrameAccumulator::<f32>::new(16_000).expect("supported rate");
    let mut in_parts = Vec::new();
    for chunk in input.chunks(7) {
        parts.push(chunk, &mut in_parts, |_| {});
    }
    assert_eq!(at_once, in_parts);
    assert_eq!(whole.pending_len(), parts.pending_len());
    assert_eq!(at_once.len(), 960);
}

#[test]
fn integer_samples_are_framed_too() {
    let mut acc = FrameAccumulator::<i16>::new(8_000).expect("supported rate");
    let mut out = vec![7i16];
    acc.push(&[1; 81], &mut out, |frame| frame[0] = 9);
    assert_eq!(out.len(), 81);
    assert_eq!(out[..3], [7, 9, 1]);
    assert_eq!(acc.pending_len(), 1);
}
