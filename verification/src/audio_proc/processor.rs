//! The duplex voice processor: when echo cancellation and noise suppression run,
//! and on which frames.
//!
//! The canceller needs the microphone signal and the signal being played, at one
//! sample rate. Neither rate is known until the devices are open, so the two
//! sides report theirs, and whichever comes second completes the negotiation.
//! Until then, and whenever negotiation fails, audio passes through untouched.
//!
//! The canceller itself is the caller's: the processor says when to start,
//! restart or stop it, and hands it whole frames.

use vstd::prelude::*;

use super::frame::{self, FrameAccumulator};

verus! {

/// How aggressively to suppress background noise.
#[derive(Debug, Clone, Copy, PartialEq, Eq, Structural)]
pub enum NoiseLevel {
    /// Least suppression, least speech distortion.
    Low,
    /// The sane default for a headset or handset.
    Moderate,
    /// For a noisy room, at some cost to voice quality.
    High,
    /// Maximum suppression. Audibly processes the voice.
    VeryHigh,
}

impl Default for NoiseLevel {
    fn default() -> (level: Self)
        ensures
            level == NoiseLevel::Moderate,
    {
        NoiseLevel::Moderate
    }
}

/// What the voice processor should do to the capture stream.
#[derive(Debug, Clone, Copy, PartialEq, Eq, Structural)]
pub struct VoiceProcessorConfig {
    /// Subtract the speaker signal from the microphone signal.
    pub echo_cancellation: bool,
    /// Attenuate steady background noise.
    pub noise_suppression: bool,
    /// How hard noise suppression works. Ignored when it is off.
    pub noise_level: NoiseLevel,
    /// Bring a quiet or loud microphone toward a usable level.
    pub gain_control: bool,
}

/// Everything off.
pub open spec fn all_off() -> VoiceProcessorConfig {
    VoiceProcessorConfig {
        echo_cancellation: false,
        noise_suppression: false,
        noise_level: NoiseLevel::Moderate,
        gain_control: false,
    }
}

impl Default for VoiceProcessorConfig {
    fn default() -> (config: Self)
        ensures
            config == all_off(),
    {
        VoiceProcessorConfig {
            echo_cancellation: false,
            noise_suppression: false,
            noise_level: NoiseLevel::Moderate,
            gain_control: false,
        }
    }
}

impl VoiceProcessorConfig {
    /// Whether anything is enabled at all.
    pub open spec fn any_enabled(self) -> bool {
        self.echo_cancellation || self.noise_suppression || self.gain_control
    }

    /// The settings a desktop softphone wants: cancel echo, suppress noise,
    /// normalise level.
    pub fn desktop_default() -> (config: Self)
        ensures
            config == (VoiceProcessorConfig {
                echo_cancellation: true,
                noise_suppression: true,
                noise_level: NoiseLevel::Moderate,
                gain_control: true,
            }),
    {
        VoiceProcessorConfig {
            echo_cancellation: true,
            noise_suppression: true,
            noise_level: NoiseLevel::Moderate,
            gain_control: true,
        }
    }

    /// Whether anything is enabled at all.
    pub fn is_any_enabled(&self) -> (yes: bool)
        ensures
            yes == self.any_enabled(),
    {
        self.echo_cancellation || self.noise_suppression || self.gain_control
    }
}

/// The configuration that new processors pick up: a user's preference, which
/// applies to every call. A processor keeps what it started with.
#[derive(Debug, Clone, Copy, PartialEq, Eq, Structural)]
pub struct ProcessorDefaults {
    /// The configuration.
    pub config: VoiceProcessorConfig,
}

impl ProcessorDefaults {
    /// Everything off.
    pub fn new() -> (defaults: Self)
        ensures
            defaults.config == all_off(),
    {
        ProcessorDefaults { config: VoiceProcessorConfig::default() }
    }

    /// Sets the voice processing that every later processor will use.
    pub fn set_default_config(&mut self, config: VoiceProcessorConfig)
        ensures
            final(self).config == config,
    {
        self.config = config;
    }

    /// The configuration that new processors will pick up.
    pub fn default_config(&self) -> (config: VoiceProcessorConfig)
        ensures
            config == self.config,
    {
        self.config
    }
}

/// Whether this library can do voice processing by itself. It holds no backend;
/// an application that links one says so to [`VoiceProcessor::with_backend`].
pub fn is_available() -> (available: bool)
    ensures
        !available,
{
    false
}

/// Which half of the duplex path reports a rate.
#[derive(Debug, Clone, Copy, PartialEq, Eq, Structural)]
pub enum Side {
    /// The microphone.
    Capture,
    /// The speaker.
    Render,
}

/// The processor's lifecycle.
#[derive(Debug, Clone, Copy, PartialEq, Eq, Structural)]
pub enum ProcessorState {
    /// Waiting for both sides to report their device rate.
    Negotiating {
        /// Rate of the microphone.
        capture: Option<u32>,
        /// Rate of the speaker.
        render: Option<u32>,
    },
    /// Both rates agreed and the backend is running.
    Active {
        /// The rate.
        rate: u32,
    },
    /// Off for the rest of the call: not available, not configured, the two
    /// devices disagreed on a rate, or the backend refused to start.
    Disabled,
}

/// How the backend is to be set up.
#[derive(Debug, Clone, Copy, PartialEq, Eq, Structural)]
pub struct BackendSettings {
    /// Cut off what lies below the voice band, which makes the canceller
    /// converge better.
    pub high_pass_filter: bool,
    /// Cancel echo; the delay between the streams is the backend's to estimate.
    pub echo_canceller: bool,
    /// Suppress noise, this hard.
    pub noise_suppression: Option<NoiseLevel>,
    /// Control the level digitally.
    pub adaptive_digital_gain: bool,
}

/// What the owner of the backend has to do now.
#[derive(Debug, Clone, Copy, PartialEq, Eq, Structural)]
pub enum BackendAction {
    /// Nothing.
    Nothing,
    /// Start it; where that fails, report [`VoiceProcessor::backend_failed`].
    Start {
        /// Sample rate of both streams.
        rate: u32,
        /// How to set it up.
        settings: BackendSettings,
    },
    /// Drop the adapted echo estimate: a stream was restarted.
    Reinitialize,
    /// Stop it.
    Stop,
}

/// The settings that a configuration asks for.
pub open spec fn settings_for(config: VoiceProcessorConfig) -> BackendSettings {
    BackendSettings {
        high_pass_filter: config.echo_cancellation,
        echo_canceller: config.echo_cancellation,
        noise_suppression: if config.noise_suppression {
            Some(config.noise_level)
        } else {
            None
        },
        adaptive_digital_gain: config.gain_control,
    }
}

/// What two device rates lead to: processing, where both are the same supported
/// rate.
pub open spec fn negotiated(capture: u32, render: u32) -> ProcessorState {
    if capture == render && frame::supported(capture) {
        ProcessorState::Active { rate: capture }
    } else {
        ProcessorState::Disabled
    }
}

/// The state once a side has reported `rate`.
pub open spec fn attached(state: ProcessorState, side: Side, rate: u32) -> ProcessorState {
    match state {
        ProcessorState::Negotiating { capture, render } => match side {
            Side::Capture => match render {
                Some(other) => negotiated(rate, other),
                None => ProcessorState::Negotiating { capture: Some(rate), render },
            },
            Side::Render => match capture {
                Some(other) => negotiated(other, rate),
                None => ProcessorState::Negotiating { capture, render: Some(rate) },
            },
        },
        ProcessorState::Active { rate: active } => if active == rate {
            state
        } else {
            ProcessorState::Disabled
        },
        ProcessorState::Disabled => state,
    }
}

/// What a change of state means for the backend.
pub open spec fn action_for(
    before: ProcessorState,
    after: ProcessorState,
    config: VoiceProcessorConfig,
) -> BackendAction {
    match (before, after) {
        (ProcessorState::Active { .. }, ProcessorState::Active { .. }) => BackendAction::Reinitialize,
        (ProcessorState::Active { .. }, _) => BackendAction::Stop,
        (_, ProcessorState::Active { rate }) => BackendAction::Start {
            rate,
            settings: settings_for(config),
        },
        _ => BackendAction::Nothing,
    }
}

/// Echo canceller and noise suppressor for one call.
#[derive(Debug)]
pub struct VoiceProcessor {
    state: ProcessorState,
    config: VoiceProcessorConfig,
    action: BackendAction,
}

/// How a backend is to be set up for a configuration.
pub fn backend_settings(config: &VoiceProcessorConfig) -> (settings: BackendSettings)
    ensures
        settings == settings_for(*config),
{
    BackendSettings {
        high_pass_filter: config.echo_cancellation,
        echo_canceller: config.echo_cancellation,
        noise_suppression: if config.noise_suppression {
            Some(config.noise_level)
        } else {
            None
        },
        adaptive_digital_gain: config.gain_control,
    }
}

impl VoiceProcessor {
    /// Where the processor stands.
    pub closed spec fn state(&self) -> ProcessorState {
        self.state
    }

    /// What the processor was asked to do.
    pub closed spec fn asked(&self) -> VoiceProcessorConfig {
        self.config
    }

    /// What the owner of the backend has to do.
    pub closed spec fn pending(&self) -> BackendAction {
        self.action
    }

    /// Creates a processor for one call, for a host with a backend (`available`)
    /// or without one. A processor that has nothing to do is disabled from the
    /// beginning.
    pub fn with_backend(config: VoiceProcessorConfig, available: bool) -> (vp: Self)
        ensures
            vp.asked() == config,
            vp.pending() == BackendAction::Nothing,
            vp.state() == if config.any_enabled() && available {
                ProcessorState::Negotiating { capture: None, render: None }
            } else {
                ProcessorState::Disabled
            },
    {
        let state = if config.is_any_enabled() && available {
            ProcessorState::Negotiating { capture: None, render: None }
        } else {
            ProcessorState::Disabled
        };
        VoiceProcessor { state, config, action: BackendAction::Nothing }
    }

    /// Creates a processor for one call.
    ///
    /// Without a backend in this library that is a disabled processor, one that
    /// copies audio through untouched. That is not an error: the caller's code
    /// path is identical either way.
    pub fn new(config: VoiceProcessorConfig) -> (vp: Self)
        ensures
            vp.asked() == config,
            vp.pending() == BackendAction::Nothing,
            vp.state() == ProcessorState::Disabled,
    {
        VoiceProcessor::with_backend(config, is_available())
    }

    /// A processor with the default configuration, for a host with a backend
    /// (`available`) or without one.
    pub fn from_default(defaults: &ProcessorDefaults, available: bool) -> (vp: Self)
        ensures
            vp.asked() == defaults.config,
            vp.pending() == BackendAction::Nothing,
            vp.state() == if defaults.config.any_enabled() && available {
                ProcessorState::Negotiating { capture: None, render: None }
            } else {
                ProcessorState::Disabled
            },
    {
        VoiceProcessor::with_backend(defaults.default_config(), available)
    }

    /// A processor that does nothing.
    pub fn disabled() -> (vp: Self)
        ensures
            vp.asked() == all_off(),
            vp.pending() == BackendAction::Nothing,
            vp.state() == ProcessorState::Disabled,
    {
        VoiceProcessor::new(VoiceProcessorConfig::default())
    }

    /// What this processor was asked to do.
    pub fn config(&self) -> (config: VoiceProcessorConfig)
        ensures
            config == self.asked(),
    {
        self.config
    }

    /// Whether the backend is running and actually processing audio.
    pub fn is_active(&self) -> (active: bool)
        ensures
            active == (self.state() is Active),
    {
        match self.state {
            ProcessorState::Active { .. } => true,
            _ => false,
        }
    }

    /// Decides whether two device rates can support processing.
    fn negotiate(capture_rate: u32, render_rate: u32) -> (state: ProcessorState)
        ensures
            state == negotiated(capture_rate, render_rate),
    {
        if capture_rate != render_rate {
            return ProcessorState::Disabled;
        }
        match FrameAccumulator::<u8>::new(capture_rate) {
            Some(_) => ProcessorState::Active { rate: capture_rate },
            None => ProcessorState::Disabled,
        }
    }

    /// Records one side's device rate and decides on processing once both are
    /// known.
    pub fn attach(&mut self, side: Side, rate: u32)
        ensures
            final(self).asked() == old(self).asked(),
            final(self).state() == attached(old(self).state(), side, rate),
            final(self).pending() == action_for(
                old(self).state(),
                final(self).state(),
                old(self).asked(),
            ),
    {
        let before = self.state;
        match before {
            ProcessorState::Negotiating { capture, render } => {
                let (capture, render): (Option<u32>, Option<u32>) = match side {
                    Side::Capture => (Some(rate), render),
                    Side::Render => (capture, Some(rate)),
                };
                self.state = match (capture, render) {
                    (Some(capture_rate), Some(render_rate)) => VoiceProcessor::negotiate(
                        capture_rate,
                        render_rate,
                    ),
                    _ => ProcessorState::Negotiating { capture, render },
                };
            },
            ProcessorState::Active { rate: active } => {
                if active != rate {
                    self.state = ProcessorState::Disabled;
                }
            },
            ProcessorState::Disabled => {},
        }
        self.action = match (before, self.state) {
            (
                ProcessorState::Active { .. },
                ProcessorState::Active { .. },
            ) => BackendAction::Reinitialize,
            (ProcessorState::Active { .. }, _) => BackendAction::Stop,
            (_, ProcessorState::Active { rate }) => BackendAction::Start {
                rate,
                settings: backend_settings(&self.config),
            },
            _ => BackendAction::Nothing,
        };
    }

    /// Takes the action that the last report of a rate led to.
    pub fn take_action(&mut self) -> (action: BackendAction)
        ensures
            action == old(self).pending(),
            final(self).pending() == BackendAction::Nothing,
            final(self).state() == old(self).state(),
            final(self).asked() == old(self).asked(),
    {
        let action = self.action;
        self.action = BackendAction::Nothing;
        action
    }

    /// The backend refused to start: processing is off for the rest of the call.
    pub fn backend_failed(&mut self)
        ensures
            final(self).state() == ProcessorState::Disabled,
            final(self).pending() == BackendAction::Nothing,
            final(self).asked() == old(self).asked(),
    {
        self.state = ProcessorState::Disabled;
        self.action = BackendAction::Nothing;
    }

    /// Takes the microphone-side handle, reporting the capture device's rate.
    pub fn capture_path<T: Copy>(&mut self, device_rate: u32) -> (path: CapturePath<T>)
        ensures
            final(self).asked() == old(self).asked(),
            final(self).state() == attached(old(self).state(), Side::Capture, device_rate),
            final(self).pending() == action_for(
                old(self).state(),
                final(self).state(),
                old(self).asked(),
            ),
            path.wf(),
            path.rate() == device_rate,
            path.held() == Seq::<T>::empty(),
    {
        self.attach(Side::Capture, device_rate);
        CapturePath { accumulator: FrameAccumulator::new(device_rate), device_rate }
    }

    /// Takes the speaker-side handle, reporting the playback device's rate.
    pub fn render_path<T: Copy>(&mut self, device_rate: u32) -> (path: RenderPath<T>)
        ensures
            final(self).asked() == old(self).asked(),
            final(self).state() == attached(old(self).state(), Side::Render, device_rate),
            final(self).pending() == action_for(
                old(self).state(),
                final(self).state(),
                old(self).asked(),
            ),
            path.wf(),
            path.rate() == device_rate,
            path.held() == Seq::<T>::empty(),
    {
        self.attach(Side::Render, device_rate);
        RenderPath { accumulator: FrameAccumulator::new(device_rate), device_rate }
    }
}

/// The microphone side of the processor.
#[derive(Debug)]
pub struct CapturePath<T> {
    accumulator: Option<FrameAccumulator<T>>,
    device_rate: u32,
}

/// Whether a processor works on a path opened at `rate`.
pub open spec fn works_on(state: ProcessorState, rate: u32) -> bool {
    state == ProcessorState::Active { rate } && frame::supported(rate)
}

impl<T: Copy> CapturePath<T> {
    /// The sample rate this path was opened at.
    pub closed spec fn rate(&self) -> u32 {
        self.device_rate
    }

    /// Samples held back, waiting for the rest of a frame.
    pub closed spec fn held(&self) -> Seq<T> {
        match self.accumulator {
            Some(a) => a.held(),
            None => Seq::empty(),
        }
    }

    /// Whether the path can frame exactly the rates that the processor supports.
    pub closed spec fn wf(&self) -> bool {
        match self.accumulator {
            Some(a) => frame::supported(self.device_rate) && a.wf() && a.len()
                == self.device_rate as int / 100,
            None => !frame::supported(self.device_rate),
        }
    }

    /// The sample rate this path was opened at.
    pub fn device_rate(&self) -> (rate: u32)
        ensures
            rate == self.rate(),
    {
        self.device_rate
    }

    /// Runs the microphone buffer through the processor, `on_frame` being what
    /// the backend does to a frame.
    ///
    /// Up to one 10 ms frame is held back to complete the next one. When
    /// processing is off the input is returned unchanged and nothing is held
    /// back.
    pub fn process<F: FnMut(&mut [T])>(
        &mut self,
        processor: &VoiceProcessor,
        input: &[T],
        on_frame: F,
    ) -> (out: Vec<T>)
        requires
            old(self).wf(),
            forall|frame: &mut [T]|
                (*frame)@.len() == old(self).rate() as int / 100 ==> #[trigger] on_frame.requires(
                    (frame,),
                ),
            forall|frame: &mut [T]| #[trigger]
                on_frame.ensures((frame,), ()) ==> (*final(frame))@.len() == (*frame)@.len(),
        ensures
            final(self).wf(),
            final(self).rate() == old(self).rate(),
            !works_on(processor.state(), old(self).rate()) ==> {
                &&& out@ == input@
                &&& final(self).held() == old(self).held()
            },
            works_on(processor.state(), old(self).rate()) ==> {
                let all = old(self).held() + input@;
                let len = old(self).rate() as int / 100;
                let n = all.len() as int / len;
                &&& final(self).held() == all.skip(n * len)
                &&& final(self).held().len() < len
                &&& out@.len() == n * len
                &&& out@.len() + final(self).held().len() == all.len()
                &&& forall|k: int|
                    #![trigger frame::is_frame(k, n)]
                    frame::is_frame(k, n) ==> exists|frame: &mut [T]| #[trigger]
                        on_frame.ensures((frame,), ()) && (*frame)@ == frame::frame_at(all, len, k)
                            && (*final(frame))@ == frame::frame_at(out@, len, k)
            },
    {
        let mut out: Vec<T> = Vec::new();
        let ghost all = self.held() + input@;
        let ghost len = self.device_rate as int / 100;
        match processor.state {
            ProcessorState::Active { rate } => {
                if rate == self.device_rate {
                    match &mut self.accumulator {
                        Some(accumulator) => {
                            accumulator.push(input, &mut out, on_frame);
                            assert(out@.skip(0) =~= out@);
                            proof {
                                let fed = all.len() as int;
                                assert(0 <= fed / len * len <= fed) by (nonlinear_arith)
                                    requires
                                        fed >= 0,
                                        len > 0,
                                ;
                            }
                            return out;
                        },
                        None => {},
                    }
                }
            },
            _ => {},
        }
        frame::append_all(&mut out, input);
        assert(out@ =~= input@);
        out
    }

    /// Discards the partial frame, for a stream restart.
    pub fn reset(&mut self)
        requires
            old(self).wf(),
        ensures
            final(self).wf(),
            final(self).rate() == old(self).rate(),
            final(self).held() == Seq::<T>::empty(),
    {
        match &mut self.accumulator {
            Some(accumulator) => {
                accumulator.reset();
            },
            None => {},
        }
    }
}

/// The speaker side of the processor: it shows the canceller what is about to be
/// played and never modifies it.
#[derive(Debug)]
pub struct RenderPath<T> {
    accumulator: Option<FrameAccumulator<T>>,
    device_rate: u32,
}

impl<T: Copy> RenderPath<T> {
    /// The sample rate this path was opened at.
    pub closed spec fn rate(&self) -> u32 {
        self.device_rate
    }

    /// Samples held back, waiting for the rest of a frame.
    pub closed spec fn held(&self) -> Seq<T> {
        match self.accumulator {
            Some(a) => a.held(),
            None => Seq::empty(),
        }
    }

    /// Whether the path can frame exactly the rates that the processor supports.
    pub closed spec fn wf(&self) -> bool {
        match self.accumulator {
            Some(a) => frame::supported(self.device_rate) && a.wf() && a.len()
                == self.device_rate as int / 100,
            None => !frame::supported(self.device_rate),
        }
    }

    /// The sample rate this path was opened at.
    pub fn device_rate(&self) -> (rate: u32)
        ensures
            rate == self.rate(),
    {
        self.device_rate
    }

    /// Shows the canceller the samples being handed to the speaker, frame by
    /// frame, `on_frame` being how it looks at one.
    pub fn analyze<F: FnMut(&mut [T])>(
        &mut self,
        processor: &VoiceProcessor,
        played: &[T],
        on_frame: F,
    )
        requires
            old(self).wf(),
            forall|frame: &mut [T]|
                (*frame)@.len() == old(self).rate() as int / 100 ==> #[trigger] on_frame.requires(
                    (frame,),
                ),
            forall|frame: &mut [T]| #[trigger]
                on_frame.ensures((frame,), ()) ==> (*final(frame))@.len() == (*frame)@.len(),
        ensures
            final(self).wf(),
            final(self).rate() == old(self).rate(),
            final(self).held() == if works_on(processor.state(), old(self).rate()) {
                let all = old(self).held() + played@;
                let len = old(self).rate() as int / 100;
                all.skip(all.len() as int / len * len)
            } else {
                old(self).held()
            },
            works_on(processor.state(), old(self).rate()) ==> {
                let all = old(self).held() + played@;
                let len = old(self).rate() as int / 100;
                let n = all.len() as int / len;
                forall|k: int|
                    #![trigger frame::is_frame(k, n)]
                    frame::is_frame(k, n) ==> exists|frame: &mut [T]| #[trigger]
                        on_frame.ensures((frame,), ()) && (*frame)@ == frame::frame_at(all, len, k)
            },
    {
        match processor.state {
            ProcessorState::Active { rate } => {
                if rate == self.device_rate {
                    match &mut self.accumulator {
                        Some(accumulator) => {
                            let mut scratch: Vec<T> = Vec::new();
                            accumulator.push(played, &mut scratch, on_frame);
                        },
                        None => {},
                    }
                }
            },
            _ => {},
        }
    }

    /// Discards the partial frame, for a stream restart.
    pub fn reset(&mut self)
        requires
            old(self).wf(),
        ensures
            final(self).wf(),
            final(self).rate() == old(self).rate(),
            final(self).held() == Seq::<T>::empty(),
    {
        match &mut self.accumulator {
            Some(accumulator) => {
                accumulator.reset();
            },
            None => {},
        }
    }
}

/// The order in which the two sides report does not matter.
pub proof fn law_order_of_sides_does_not_matter(capture: u32, render: u32)
    ensures
        ({
            let start = ProcessorState::Negotiating { capture: None, render: None };
            attached(attached(start, Side::Capture, capture), Side::Render, render) == attached(
                attached(start, Side::Render, render),
                Side::Capture,
                capture,
            )
        }),
{
}

/// Processing begins only once both sides have reported one supported rate.
pub proof fn law_processing_needs_one_supported_rate(capture: u32, render: u32)
    ensures
        ({
            let start = ProcessorState::Negotiating { capture: None, render: None };
            let one = attached(start, Side::Capture, capture);
            let both = attached(one, Side::Render, render);
            &&& !(one is Active)
            &&& both is Active <==> capture == render && frame::supported(capture)
        }),
{
}

/// A disabled processor stays disabled, whatever the devices report.
pub proof fn law_disabled_stays_disabled(side: Side, rate: u32, config: VoiceProcessorConfig)
    ensures
        attached(ProcessorState::Disabled, side, rate) == ProcessorState::Disabled,
        action_for(
            ProcessorState::Disabled,
            attached(ProcessorState::Disabled, side, rate),
            config,
        ) == BackendAction::Nothing,
{
}

/// What a configuration asks of the backend: each part is on just where it was asked
/// for, the noise suppressor at the level that was asked for, and the high-pass filter
/// goes with the canceller.
pub proof fn law_settings_follow_the_configuration(config: VoiceProcessorConfig)
    ensures
        settings_for(config).echo_canceller == config.echo_cancellation,
        settings_for(config).high_pass_filter == config.echo_cancellation,
        settings_for(config).adaptive_digital_gain == config.gain_control,
        config.noise_suppression ==> settings_for(config).noise_suppression == Some(
            config.noise_level,
        ),
        !config.noise_suppression ==> settings_for(config).noise_suppression is None,
        config.any_enabled() <==> config.echo_cancellation || config.noise_suppression
            || config.gain_control,
        !all_off().any_enabled(),
        all_off().noise_level == NoiseLevel::Moderate,
{
}

/// Processing runs at 8, 16, 32 or 48 kHz, on frames of 10 ms, and only on paths that
/// were opened at the rate that was agreed on.
pub proof fn law_processing_keeps_to_its_rate(state: ProcessorState, rate: u32)
    ensures
        frame::supported(rate) <==> rate == 8000 || rate == 16000 || rate == 32000 || rate == 48000,
        works_on(state, rate) ==> state == (ProcessorState::Active { rate }),
        frame::supported(rate) && state == (ProcessorState::Active { rate }) ==> works_on(
            state,
            rate,
        ),
        !(state is Active) ==> !works_on(state, rate),
{
}

/// How a processor goes through a call: it waits for both sides, starts the backend
/// once when they agree, drops the echo estimate when a stream restarts at the same
/// rate, and stops for good when a rate changes or the sides disagree.
pub proof fn law_processor_goes_through_a_call(
    capture: u32,
    render: u32,
    side: Side,
    again: u32,
    config: VoiceProcessorConfig,
)
    ensures
        ({
            let start = ProcessorState::Negotiating { capture: None, render: None };
            let one = attached(start, Side::Capture, capture);
            let two = attached(one, Side::Render, render);
            let agreed = capture == render && (capture == 8000 || capture == 16000 || capture
                == 32000 || capture == 48000);
            &&& one == (ProcessorState::Negotiating { capture: Some(capture), render: None })
            &&& action_for(start, one, config) == BackendAction::Nothing
            &&& agreed ==> two == (ProcessorState::Active { rate: capture })
            &&& agreed ==> action_for(one, two, config) == (BackendAction::Start {
                rate: capture,
                settings: settings_for(config),
            })
            &&& !agreed ==> two == ProcessorState::Disabled && action_for(one, two, config)
                == BackendAction::Nothing
            &&& agreed && again == capture ==> attached(two, side, again) == two && action_for(
                two,
                attached(two, side, again),
                config,
            ) == BackendAction::Reinitialize
            &&& agreed && again != capture ==> attached(two, side, again)
                == ProcessorState::Disabled && action_for(
                two,
                attached(two, side, again),
                config,
            ) == BackendAction::Stop
        }),
{
}

/// A side that reports anew before the other one does is taken at its last word.
pub proof fn law_last_report_counts(first: u32, second: u32, other: u32)
    ensures
        ({
            let start = ProcessorState::Negotiating { capture: None, render: None };
            &&& attached(attached(start, Side::Capture, first), Side::Capture, second) == attached(
                start,
                Side::Capture,
                second,
            )
            &&& attached(attached(start, Side::Render, first), Side::Render, second) == attached(
                start,
                Side::Render,
                second,
            )
        }),
{
}

} // verus!
