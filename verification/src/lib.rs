//! Channel-side text handling for a voice-oriented webhook channel: a
//! formatter that turns assistant replies into text that is safe to speak,
//! and the webhook channel's configuration, signature checks, voice-event
//! metadata normalisation and message framing.

pub mod text;
pub mod outside;
pub mod audio_safe;
pub mod timing;
pub mod voice;
pub mod webhook;
