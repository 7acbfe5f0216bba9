//! The services a dictation session is built from.
pub mod vocab;
pub mod vocab_laws;
pub mod transcription;
pub mod refinement;
pub mod audio;
pub mod focus;
pub mod paste;
