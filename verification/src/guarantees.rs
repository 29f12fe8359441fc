//! What callers can rely on, stated on the rows, texts and numbers that they hand in and get
//! back.

pub mod backfill;
pub mod enrollment;
pub mod lease;
pub mod lease_calls;
pub mod media;
pub mod platform;
pub mod recording;
pub mod recording_calls;
pub mod recovery;
pub mod sound;
pub mod submission;
pub mod upload;
pub mod upload_calls;
pub mod wording;
