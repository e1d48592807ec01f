//! Echo cancellation and noise suppression for device audio: re-framing, and
//! the negotiation of sample rates. The canceller itself is the caller's.

pub mod frame;
pub mod processor;

pub use frame::{frame_len, FrameAccumulator, FRAME_MS};
pub use processor::{
    is_available, CapturePath, NoiseLevel, ProcessorDefaults, RenderPath, VoiceProcessor,
    VoiceProcessorConfig,
};
