//! The reference sample: claiming the next recording for it, and making it.
use crate::audio_normalization::STALE_CLAIM_SECS;
use crate::chance::random_u64;
use crate::text::{hex_spec, hex_text, occurs_at, opt_view, own, starts_with};
use crate::time::{stamp, stamped, Span, Timestamp, NANOS_PER_SEC};
use vstd::prelude::*;
use vstd::string::*;

verus! {

/// The directory of the sample below the working directory.
pub const SAMPLE_DIR: &'static str = "audio-normalization";

/// The file of the sample.
pub const SAMPLE_FILE: &'static str = "sample.m4a";

/// The file that asks for the next recording to be sampled.
pub const CAPTURE_NEXT: &'static str = "capture-next";

/// What the name of a claim begins with.
pub const CLAIM_PREFIX: &'static str = "capture-in-progress-";

/// `name` below `directory`.
pub open spec fn below(directory: Seq<char>, name: Seq<char>) -> Seq<char> {
    if directory.len() == 0 {
        name
    } else if directory.last() == '/' {
        directory + name
    } else {
        directory + "/"@ + name
    }
}

/// `name` below `directory`.
pub fn join_path(directory: &str, name: &str) -> (path: String)
    ensures
        path@ == below(directory@, name@),
{
    let chars: Vec<char> = crate::text::chars_of(directory);
    let mut path: String = own(directory);
    if chars.len() > 0 && chars[chars.len() - 1] != '/' {
        path.append("/");
    }
    path.append(name);
    assert(path@ =~= below(directory@, name@));
    path
}

/// Where the sample and the claims on it are kept.
#[derive(Debug)]
pub struct AudioSampleStore {
    root: String,
}

/// A claim on the next recording.
#[derive(Debug)]
pub struct CaptureClaim {
    pub path: String,
}

/// What is known of the sample.
#[derive(Debug)]
pub struct AudioSampleStatus {
    pub sample_ready: bool,
    pub capture_pending: bool,
    pub updated_at: Option<String>,
    pub size_bytes: Option<u64>,
}

/// What is done with a claim.
#[derive(Debug, Clone, Copy, PartialEq, Eq, Structural)]
pub enum ClaimStep {
    Keep,
    /// The claim goes away: the next recording is asked for already.
    Remove,
    /// The claim becomes the request again.
    Rearm,
}

/// The name of a claim.
pub open spec fn claim_name(nonce: u64) -> Seq<char> {
    CLAIM_PREFIX@ + hex_spec(nonce as nat, 16)
}

/// The name of a clip that is cut out of a recording.
pub open spec fn clip_name(nonce: u64) -> Seq<char> {
    "sample-raw-"@ + hex_spec(nonce as nat, 16) + ".m4a"@
}

/// The name of a normalized clip before it becomes the sample.
pub open spec fn candidate_name(nonce: u64) -> Seq<char> {
    "sample-new-"@ + hex_spec(nonce as nat, 16) + ".m4a"@
}

impl AudioSampleStore {
    /// The directory of the store.
    pub closed spec fn directory(&self) -> Seq<char> {
        self.root@
    }

    /// The store of a server that works in `root`.
    pub fn for_working_directory(root: &str) -> (store: AudioSampleStore)
        ensures
            store.directory() == below(root@, SAMPLE_DIR@),
    {
        AudioSampleStore { root: join_path(root, SAMPLE_DIR) }
    }

    /// Where the sample is.
    pub fn sample_path(&self) -> (path: String)
        ensures
            path@ == below(self.directory(), SAMPLE_FILE@),
    {
        join_path(self.root.as_str(), SAMPLE_FILE)
    }

    /// Where the request for the next recording is.
    pub fn request_path(&self) -> (path: String)
        ensures
            path@ == below(self.directory(), CAPTURE_NEXT@),
    {
        join_path(self.root.as_str(), CAPTURE_NEXT)
    }

    /// The claim on the next recording that is told apart by `nonce`.
    pub fn claim_under(&self, nonce: u64) -> (claim: CaptureClaim)
        ensures
            claim.path@ == below(self.directory(), claim_name(nonce)),
    {
        let mut name: String = own(CLAIM_PREFIX);
        let digits: String = hex_text(nonce as u128, 16);
        name.append(digits.as_str());
        CaptureClaim { path: join_path(self.root.as_str(), name.as_str()) }
    }

    /// A fresh claim on the next recording.
    pub fn fresh_claim(&self) -> (claim: CaptureClaim)
        ensures
            exists|nonce: u64|
                claim.path@ == below(self.directory(), #[trigger] claim_name(nonce)),
    {
        let nonce: u64 = random_u64();
        let claim: CaptureClaim = self.claim_under(nonce);
        assert(claim.path@ == below(self.directory(), claim_name(nonce)));
        claim
    }

    /// Where the clip that is told apart by `nonce` is cut to.
    pub fn clip_path(&self, nonce: u64) -> (path: String)
        ensures
            path@ == below(self.directory(), clip_name(nonce)),
    {
        let mut name: String = own("sample-raw-");
        let digits: String = hex_text(nonce as u128, 16);
        name.append(digits.as_str());
        name.append(".m4a");
        join_path(self.root.as_str(), name.as_str())
    }

    /// A fresh place for a clip.
    pub fn fresh_clip_path(&self) -> (path: String)
        ensures
            exists|nonce: u64| path@ == below(self.directory(), #[trigger] clip_name(nonce)),
    {
        let nonce: u64 = random_u64();
        let path: String = self.clip_path(nonce);
        assert(path@ == below(self.directory(), clip_name(nonce)));
        path
    }

    /// Where the normalized clip that is told apart by `nonce` waits to become the sample.
    pub fn candidate_path(&self, nonce: u64) -> (path: String)
        ensures
            path@ == below(self.directory(), candidate_name(nonce)),
    {
        let mut name: String = own("sample-new-");
        let digits: String = hex_text(nonce as u128, 16);
        name.append(digits.as_str());
        name.append(".m4a");
        join_path(self.root.as_str(), name.as_str())
    }

    /// A fresh place for a normalized clip.
    pub fn fresh_candidate_path(&self) -> (path: String)
        ensures
            exists|nonce: u64| path@ == below(self.directory(), #[trigger] candidate_name(nonce)),
    {
        let nonce: u64 = random_u64();
        let path: String = self.candidate_path(nonce);
        assert(path@ == below(self.directory(), candidate_name(nonce)));
        path
    }
}

/// Whether a file of the store is a claim.
pub fn is_claim(name: &str) -> (yes: bool)
    ensures
        yes == occurs_at(name@, CLAIM_PREFIX@, 0),
{
    starts_with(name, CLAIM_PREFIX)
}

/// Whether a claim of the given age is too old; one of unknown age is not.
pub open spec fn is_stale(age: Option<Span>) -> bool {
    age matches Some(a) && a@ > STALE_CLAIM_SECS * NANOS_PER_SEC
}

/// What is done with a claim that is given back.
pub open spec fn given_back(request_exists: bool) -> ClaimStep {
    if request_exists {
        ClaimStep::Remove
    } else {
        ClaimStep::Rearm
    }
}

/// The number of requests after a step on a claim, and the number of claims.
pub open spec fn counts_after(step: ClaimStep, requests: int, claims: int) -> (int, int) {
    match step {
        ClaimStep::Keep => (requests, claims),
        ClaimStep::Remove => (requests, claims - 1),
        ClaimStep::Rearm => (requests + 1, claims - 1),
    }
}

/// A request is neither lost nor doubled: a claim that is given back leaves exactly one request,
/// and one that is kept leaves everything as it is.
pub proof fn law_a_request_is_neither_lost_nor_doubled(
    age: Option<Span>,
    requests: int,
    claims: int,
)
    requires
        0 <= requests <= 1,
        claims >= 1,
    ensures
        counts_after(given_back(requests == 1), requests, claims) == (1int, claims - 1),
        counts_after(
            if is_stale(age) {
                given_back(requests == 1)
            } else {
                ClaimStep::Keep
            },
            requests,
            claims,
        ) == (if is_stale(age) {
            (1int, claims - 1)
        } else {
            (requests, claims)
        }),
{
}

/// What is done with a claim of the given age, where that is known: one that is too old becomes
/// the request again, or goes away where there is one.
pub fn stale_claim_step(age: Option<Span>, request_exists: bool) -> (step: ClaimStep)
    ensures
        step == (if is_stale(age) {
            given_back(request_exists)
        } else {
            ClaimStep::Keep
        }),
{
    let stale: bool = match age {
        Some(a) => !Span::from_secs(STALE_CLAIM_SECS).at_least(&a),
        None => false,
    };
    if !stale {
        ClaimStep::Keep
    } else if request_exists {
        ClaimStep::Remove
    } else {
        ClaimStep::Rearm
    }
}

/// What is done with a claim whose sample could not be made.
pub fn retry_later(request_exists: bool) -> (step: ClaimStep)
    ensures
        step == given_back(request_exists),
{
    if request_exists {
        ClaimStep::Remove
    } else {
        ClaimStep::Rearm
    }
}

/// What is known of the sample, from the size and the time of its file (where it is there), the
/// request and the number of claims.
pub fn sample_status(
    size_bytes: Option<u64>,
    updated_at: Option<String>,
    request_exists: bool,
    claims: usize,
) -> (status: AudioSampleStatus)
    ensures
        status.sample_ready == (size_bytes is Some),
        status.capture_pending == (request_exists || claims > 0),
        status.updated_at == updated_at,
        status.size_bytes == size_bytes,
{
    AudioSampleStatus {
        sample_ready: size_bytes.is_some(),
        capture_pending: request_exists || claims > 0,
        updated_at,
        size_bytes,
    }
}

/// What is known of the sample, where its file was last written at `modified`.
pub fn sample_status_at(
    size_bytes: Option<u64>,
    modified: Option<Timestamp>,
    request_exists: bool,
    claims: usize,
) -> (status: AudioSampleStatus)
    ensures
        status.sample_ready == (size_bytes is Some),
        status.capture_pending == (request_exists || claims > 0),
        opt_view(status.updated_at) == (match modified {
            Some(reading) => Some(stamped(reading)),
            None => None,
        }),
        status.size_bytes == size_bytes,
{
    let updated_at: Option<String> = match modified {
        Some(reading) => Some(stamp(reading)),
        None => None,
    };
    sample_status(size_bytes, updated_at, request_exists, claims)
}

/// What making a sample does next.
#[derive(Debug, Clone, Copy, PartialEq, Eq, Structural)]
pub enum SampleStep {
    /// Look into the recording.
    Probe,
    /// Cut a clip out of it.
    Extract,
    /// Look into the clip.
    CheckClip,
    /// Normalize the clip; the clip itself is kept.
    Normalize,
    /// Look into the normalized clip.
    CheckSample,
    /// Make it the sample.
    Commit,
    /// The sample is made.
    Done,
    /// It is not; `remove_clip` tells whether the clip is still to be removed.
    Failed { reason: SampleFailure, remove_clip: bool },
}

/// Why a sample was not made.
#[derive(Debug, Clone, Copy, PartialEq, Eq, Structural)]
pub enum SampleFailure {
    ProbeFailed,
    NoAudio,
    ExtractionFailed,
    EmptyClip,
    NotNormalized,
    ReplacedSource,
    InvalidSample,
    CommitFailed,
}

/// What came of a step of making a sample.
#[derive(Debug, Clone, Copy, PartialEq, Eq, Structural)]
pub enum SampleEvent {
    /// Whether the recording could be looked into, and then whether it has sound.
    Probed(Option<bool>),
    Extracted(bool),
    /// The size of the clip, and whether it has a length.
    ClipChecked { bytes: u64, has_duration: bool },
    /// Whether an output was made, and then whether it took the place of the clip.
    Normalized(Option<bool>),
    /// Whether the output could be looked into, and then whether it has sound and a length.
    SampleChecked(Option<bool>),
    Committed(bool),
}

/// The step that follows `event`.
pub open spec fn sample_after(event: SampleEvent) -> SampleStep {
    match event {
        SampleEvent::Probed(found) => match found {
            None => SampleStep::Failed { reason: SampleFailure::ProbeFailed, remove_clip: false },
            Some(false) => SampleStep::Failed { reason: SampleFailure::NoAudio, remove_clip: false },
            Some(true) => SampleStep::Extract,
        },
        SampleEvent::Extracted(done) => if done {
            SampleStep::CheckClip
        } else {
            SampleStep::Failed { reason: SampleFailure::ExtractionFailed, remove_clip: true }
        },
        SampleEvent::ClipChecked { bytes, has_duration } => if bytes > 0 && has_duration {
            SampleStep::Normalize
        } else {
            SampleStep::Failed { reason: SampleFailure::EmptyClip, remove_clip: true }
        },
        SampleEvent::Normalized(made) => match made {
            None => SampleStep::Failed { reason: SampleFailure::NotNormalized, remove_clip: true },
            Some(true) => SampleStep::Failed {
                reason: SampleFailure::ReplacedSource,
                remove_clip: true,
            },
            Some(false) => SampleStep::CheckSample,
        },
        SampleEvent::SampleChecked(good) => if good == Some(true) {
            SampleStep::Commit
        } else {
            SampleStep::Failed { reason: SampleFailure::InvalidSample, remove_clip: true }
        },
        SampleEvent::Committed(done) => if done {
            SampleStep::Done
        } else {
            SampleStep::Failed { reason: SampleFailure::CommitFailed, remove_clip: true }
        },
    }
}

/// The step that follows `event`.
pub fn after_sample_event(event: SampleEvent) -> (step: SampleStep)
    ensures
        step == sample_after(event),
{
    match event {
        SampleEvent::Probed(found) => match found {
            None => SampleStep::Failed { reason: SampleFailure::ProbeFailed, remove_clip: false },
            Some(has_audio) => if has_audio {
                SampleStep::Extract
            } else {
                SampleStep::Failed { reason: SampleFailure::NoAudio, remove_clip: false }
            },
        },
        SampleEvent::Extracted(done) => if done {
            SampleStep::CheckClip
        } else {
            SampleStep::Failed { reason: SampleFailure::ExtractionFailed, remove_clip: true }
        },
        SampleEvent::ClipChecked { bytes, has_duration } => if bytes > 0 && has_duration {
            SampleStep::Normalize
        } else {
            SampleStep::Failed { reason: SampleFailure::EmptyClip, remove_clip: true }
        },
        SampleEvent::Normalized(made) => match made {
            None => SampleStep::Failed { reason: SampleFailure::NotNormalized, remove_clip: true },
            Some(replaced) => if replaced {
                SampleStep::Failed { reason: SampleFailure::ReplacedSource, remove_clip: true }
            } else {
                SampleStep::CheckSample
            },
        },
        SampleEvent::SampleChecked(good) => match good {
            Some(usable) => if usable {
                SampleStep::Commit
            } else {
                SampleStep::Failed { reason: SampleFailure::InvalidSample, remove_clip: true }
            },
            None => SampleStep::Failed { reason: SampleFailure::InvalidSample, remove_clip: true },
        },
        SampleEvent::Committed(done) => if done {
            SampleStep::Done
        } else {
            SampleStep::Failed { reason: SampleFailure::CommitFailed, remove_clip: true }
        },
    }
}

} // verus!
