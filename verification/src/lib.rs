//! What a recording server decides, apart from the files, processes, network and database around
//! it: which route to record from, what becomes of a finished segment, when it is uploaded again,
//! how the ledger of a session is rebuilt, and when a customer's recording ends.

pub mod attempt_lease;
pub mod audio_normalization;
pub mod chance;
pub mod cookie_health;
pub mod cover_generator;
pub mod disk_space;
pub mod download;
pub mod ffmpeg_args;
pub mod ffmpeg_scan;
pub mod guarantees;
pub mod headers;
pub mod identifier;
pub mod lifecycle_backfill;
pub mod missing_segment;
pub mod order;
pub mod parse;
pub mod path_safety;
pub mod recording_lease;
pub mod recovery_eligibility;
pub mod recovery_scheduler;
pub mod redaction;
pub mod route_health;
pub mod segment_enrollment;
pub mod submission_scheduler;
pub mod text;
pub mod time;
pub mod timestamp_repair;
pub mod urls;
