//! Knob: the verified core of a per-application audio mixer.
//!
//! The library holds the decisions and the wire formats of the mixer; the
//! host application performs the CoreAudio, ScreenCaptureKit and shared-memory
//! work around them.
pub mod bytes;
pub mod driver_ipc;
pub mod text;
pub mod devices;
pub mod routing;
pub mod router;
pub mod settings;
pub mod resampler;
pub mod capture;
