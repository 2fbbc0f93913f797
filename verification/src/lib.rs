//! A polyphonic, MIDI-controlled additive ("organ"-style) software synthesizer
//! core, written in fixed-point arithmetic.
//!
//! The signal path is `Waveform` -> `Oscillator` -> `Note` -> per-channel
//! `InternalSynth` (voice pool plus filter chain) -> top-level `Synth`
//! dispatcher.  MIDI packets are parsed into `midi::Message` values and routed
//! to the addressed channel's engine; the render side asks every engine for
//! its next sample and sums them.
//!
//! All quantities are integers:
//! - signal values, gains, envelope levels and phase positions are in
//!   nano-units (`units::SCALE` stands for 1.0),
//! - frequencies are in millihertz,
//! - filter coefficients and frequency ratios are in permille.
//!
//! Audio device handling, MIDI transport and configuration-file parsing are
//! host concerns and live outside this crate; the core consumes plain values.

pub mod config;
pub mod engine;
pub mod envelope;
pub mod filters;
pub mod midi;
pub mod note;
pub mod oscillator;
pub mod stop;
pub mod synth;
pub mod units;
pub mod waveform;
