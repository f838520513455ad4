//! Verified core of a small text-to-speech front end for the piper synthesizer:
//! voice discovery, the synthesis protocol, audio buffer handling and the
//! decisions behind the user interface.

pub mod text;
pub mod voices;
pub mod playback;
pub mod synthesis;
pub mod controls;
pub mod wav;
