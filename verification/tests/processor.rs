use rtp_engine::audio_proc::processor::{
    backend_settings, is_available, BackendAction, BackendSettings, NoiseLevel, ProcessorDefaults,
    Side, VoiceProcessor, VoiceProcessorConfig,
};

#[test]
fn a_default_config_enables_nothing() {
    let config = VoiceProcessorConfig::default();
    assert!(!config.is_any_enabled());
    assert!(!config.echo_cancellation);
    assert_eq!(config.noise_level, NoiseLevel::Moderate);
}

#[test]
fn the_desktop_preset_turns_on_the_things_the_softphone_advertises() {
    let config = VoiceProcessorConfig::desktop_default();
    assert!(config.echo_cancellation, "the marketing copy claims AEC");
    assert!(config.noise_suppression, "the marketing copy claims NS");
    assert!(config.is_any_enabled());
}

#[test]
fn a_disabled_processor_never_reports_active() {
    let mut vp = VoiceProcessor::disabled();
    assert!(!vp.is_active());
    // Attaching both sides must not bring a disabled processor to life.
    let _capture = vp.capture_path::<f32>(48_000);
    let _render = vp.render_path::<f32>(48_000);
    assert!(!vp.is_active());
}

#[test]
fn a_disabled_processor_passes_capture_audio_through_untouched() {
    let mut vp = VoiceProcessor::disabled();
    let mut capture = vp.capture_path::<f32>(48_000);
    let input: Vec<f32> = (0..1000).map(|i| (i as f32) / 1000.0).collect();
    let out = capture.process(&vp, &input, |_| {});
    assert_eq!(out.len(), input.len(), "nothing may be held back when off");
    assert_eq!(out, input.as_slice(), "samples must be unmodified");
}

#[test]
fn render_analysis_is_harmless_when_disabled() {
    let mut vp = VoiceProcessor::disabled();
    let mut render = vp.render_path::<f32>(48_000);
    render.analyze(&vp, &[0.5; 480], |_| {});
    render.analyze(&vp, &[], |_| {});
    render.reset();
    assert!(!vp.is_active());
}

#[test]
fn mismatched_device_rates_disable_processing_rather_than_guess() {
    let mut vp = VoiceProcessor::new(VoiceProcessorConfig::desktop_default());
    let _capture = vp.capture_path::<f32>(48_000);
    let _render = vp.render_path::<f32>(16_000);
    assert!(
        !vp.is_active(),
        "two rates cannot share one canceller; it must refuse"
    );
}

#[test]
fn an_unsupported_shared_rate_disables_processing() {
    let mut vp = VoiceProcessor::new(VoiceProcessorConfig::desktop_default());
    // 44.1 kHz frames evenly at 10 ms but the backend cannot accept it.
    let _capture = vp.capture_path::<f32>(44_100);
    let _render = vp.render_path::<f32>(44_100);
    assert!(!vp.is_active());
}

#[test]
fn one_side_alone_does_not_start_processing() {
    let mut vp = VoiceProcessor::new(VoiceProcessorConfig::desktop_default());
    let mut capture = vp.capture_path::<f32>(48_000);
    assert!(
        !vp.is_active(),
        "echo cancellation needs the render side too"
    );
    // And capture still works, unprocessed, while waiting.
    let input = [0.25_f32; 960];
    assert_eq!(capture.process(&vp, &input, |_| {}), input.as_slice());
}

/// Asserts that, with a backend at hand, the whole
/// negotiation reaches `Active` for a realistic device pair.
#[test]
fn matching_supported_rates_start_the_backend() {
    let mut vp = VoiceProcessor::with_backend(VoiceProcessorConfig::desktop_default(), true);
    let _capture = vp.capture_path::<f32>(48_000);
    let _render = vp.render_path::<f32>(48_000);
    assert!(vp.is_active(), "48 kHz on both sides must negotiate");
}

/// The property that makes this safe to wire into a live call: whatever the
/// processor does to the samples, it must not lose or invent any beyond the
/// single frame it is allowed to hold back.
#[test]
fn capture_conserves_samples_within_one_frame() {
    let mut vp = VoiceProcessor::with_backend(VoiceProcessorConfig::desktop_default(), true);
    let mut capture = vp.capture_path::<f32>(48_000);
    let mut render = vp.render_path::<f32>(48_000);
    assert!(vp.is_active());

    let mut fed = 0_usize;
    let mut emitted = 0_usize;
    for chunk in [128_usize, 480, 1024, 17, 960] {
        render.analyze(&vp, &vec![0.0; chunk], |_| {});
        let input = vec![0.1_f32; chunk];
        emitted += capture.process(&vp, &input, |_| {}).len();
        fed += chunk;
        assert!(
            fed - emitted < 480,
            "more than one 10 ms frame is being held back"
        );
    }
}

#[test]
fn a_processor_without_a_backend_stays_off() {
    assert!(!is_available());
    let mut vp = VoiceProcessor::new(VoiceProcessorConfig::desktop_default());
    assert_eq!(vp.config(), VoiceProcessorConfig::desktop_default());
    vp.attach(Side::Capture, 48_000);
    vp.attach(Side::Render, 48_000);
    assert!(!vp.is_active());
    assert_eq!(vp.take_action(), BackendAction::Nothing);
}

#[test]
fn the_order_of_the_sides_does_not_matter() {
    let config = VoiceProcessorConfig::desktop_default();
    for (capture, render) in [(48_000, 48_000), (16_000, 48_000), (44_100, 44_100), (8_000, 8_000)]
    {
        let mut first = VoiceProcessor::with_backend(config, true);
        first.attach(Side::Capture, capture);
        first.attach(Side::Render, render);
        let mut second = VoiceProcessor::with_backend(config, true);
        second.attach(Side::Render, render);
        second.attach(Side::Capture, capture);
        assert_eq!(first.is_active(), second.is_active());
        assert_eq!(first.is_active(), capture == render && capture != 44_100);
    }
}

#[test]
fn an_active_processor_asks_for_its_backend_once() {
    let config = VoiceProcessorConfig::desktop_default();
    let mut vp = VoiceProcessor::with_backend(config, true);
    vp.attach(Side::Capture, 16_000);
    assert_eq!(vp.take_action(), BackendAction::Nothing);
    vp.attach(Side::Render, 16_000);
    match vp.take_action() {
        BackendAction::Start { rate, settings } => {
            assert_eq!(rate, 16_000);
            assert_eq!(settings, backend_settings(&config));
        }
        other => panic!("unexpected {other:?}"),
    }
    assert_eq!(vp.take_action(), BackendAction::Nothing);
    vp.backend_failed();
    assert!(!vp.is_active());
    vp.attach(Side::Capture, 16_000);
    assert!(!vp.is_active());
}

#[test]
fn the_settings_follow_the_configuration() {
    let off = backend_settings(&VoiceProcessorConfig::default());
    assert_eq!(
        off,
        BackendSettings {
            high_pass_filter: false,
            echo_canceller: false,
            noise_suppression: None,
            adaptive_digital_gain: false,
        }
    );
    let on = backend_settings(&VoiceProcessorConfig {
        noise_level: NoiseLevel::VeryHigh,
        ..VoiceProcessorConfig::desktop_default()
    });
    assert_eq!(
        on,
        BackendSettings {
            high_pass_filter: true,
            echo_canceller: true,
            noise_suppression: Some(NoiseLevel::VeryHigh),
            adaptive_digital_gain: true,
        }
    );
}

#[test]
fn active_paths_hand_over_whole_frames() {
    let mut vp = VoiceProcessor::with_backend(VoiceProcessorConfig::desktop_default(), true);
    let mut capture = vp.capture_path::<f32>(8_000);
    let mut render = vp.render_path::<f32>(8_000);
    assert_eq!(capture.device_rate(), 8_000);
    assert_eq!(render.device_rate(), 8_000);
    let played: Vec<f32> = (0..250).map(|i| i as f32).collect();
    let mut seen = Vec::new();
    render.analyze(&vp, &played[..170], |frame| seen.push(frame.to_vec()));
    assert_eq!(seen, [&played[..80], &played[80..160]]);
    // What was held back completes the next frame.
    render.analyze(&vp, &played[170..], |frame| seen.push(frame.to_vec()));
    assert_eq!(seen.len(), 3);
    assert_eq!(seen[2], played[160..240]);
    let out = capture.process(&vp, &[0.5; 100], |frame| {
        for s in frame.iter_mut() {
            *s = 0.0;
        }
    });
    assert_eq!(out, vec![0.0; 80]);
    capture.reset();
    let out = capture.process(&vp, &[0.25; 80], |_| {});
    assert_eq!(out, vec![0.25; 80]);
}

#[test]
fn new_processors_pick_up_the_default() {
    let mut defaults = ProcessorDefaults::new();
    assert!(!defaults.default_config().is_any_enabled());
    let early = VoiceProcessor::from_default(&defaults, true);
    defaults.set_default_config(VoiceProcessorConfig::desktop_default());
    let mut late = VoiceProcessor::from_default(&defaults, true);
    assert_eq!(late.config(), VoiceProcessorConfig::desktop_default());
    // The one from before keeps what it started with.
    assert_eq!(early.config(), VoiceProcessorConfig::default());
    late.attach(Side::Capture, 48_000);
    late.attach(Side::Render, 48_000);
    assert!(late.is_active());
    let mut without = VoiceProcessor::from_default(&defaults, false);
    without.attach(Side::Capture, 48_000);
    without.attach(Side::Render, 48_000);
    assert!(!without.is_active());
}
