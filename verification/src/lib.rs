//! A verified RTP media engine for VoIP applications.
//!
//! The building blocks for real-time audio communication, each with a contract
//! that says what it does and a proof that it does so:
//!
//! - codecs: G.711 (mu-law and A-law), and the framing of Opus and G.729;
//! - RTP and RTCP: packets, parsing and statistics;
//! - SRTP and SRTCP with AES-CM-128-HMAC-SHA1-80, and their keys in SDP;
//! - a jitter buffer, call recording, STUN, voice processing and sessions.
//!
//! The library works on bytes, samples and times. Sockets, audio devices, files
//! and timers belong to the application around it.

pub mod audio_proc;
pub mod bytes;
pub mod clock;
pub mod codec;
pub mod crypto;
pub mod device;
pub mod error;
pub mod jitter;
pub mod net;
pub mod recorder;
pub mod resample;
pub mod rtp;
pub mod session;
pub mod srtp;
pub mod stun;
pub mod text;

pub use codec::CodecType;
pub use device::{AudioDevice, AudioDevices};
pub use error::Error;
pub use jitter::{JitterBuffer, JitterConfig, JitterMode, JitterStats};
pub use recorder::{generate_recording_filename, CallRecorder, RecorderHandle};
pub use rtp::RtpStats;
pub use session::MediaSession;
pub use srtp::SrtpContext;
pub use stun::{StunResult, DEFAULT_STUN_SERVERS};
