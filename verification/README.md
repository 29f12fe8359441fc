# biliup_common

The rules of a recording server: when a live stream is downloaded, over which route, when a
recording ends, what becomes of each recorded segment, and how segments and sessions find their
way to the archive. The rules are written in Verus; each function states what it returns or
changes, and the statements are proved.

- `src/` is the library. It makes decisions on plain values and touches neither files nor the
  network nor the database. The modules follow the server's subjects: `route_health` and
  `download` for recording, `segment_enrollment`, `missing_segment`, `attempt_lease`,
  `recovery_eligibility`, `recovery_scheduler` and `submission_scheduler` for the way of a segment
  to the archive, `recording_lease` for how long a room is recorded, `audio_normalization`,
  `timestamp_repair` and `ffmpeg_scan` for what happens to a file before its upload,
  `lifecycle_backfill` for rows of an older form, `cookie_health` and `redaction` for logins and
  logs, `path_safety`, `disk_space`, `cover_generator` and `headers` for the rest. Public proof
  functions named `law_...` state what holds across functions.
- `tests/` runs the library on concrete values.
- `app/` is the server around it: processes, files, HTTP, SQLite, and what is floating point.

What the library takes from other crates stands behind small functions marked
`#[verifier::external_body]`, each with a note on what is believed of the crate.
