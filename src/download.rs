//! The download engine's decisions: what follows each attempt of a download
//! (retry after a delay, or finish with an outcome), how a batch of downloads
//! is judged, and where mirrored files are fetched from and stored.
//!
//! The fetching itself is done by the caller, which reports each attempt and
//! performs the step that comes back: a finished download is moved from its
//! `.part` file into place only when it succeeded, and its `.part` file is
//! removed otherwise.

use vstd::prelude::*;

use crate::text::{opt_text, texts, concat, owned, push_str, split, split_on, str_eq, to_chars, from_chars, slice_to};

verus! {

/// Why a download failed.
#[derive(Debug, Clone, PartialEq, Eq)]
pub enum DownloadError {
    /// The server answered 404: the file does not exist upstream.
    NotFound,
    /// The file's SHA-256 differs from the expected one.
    ChecksumMismatch { expected: String, actual: String },
    /// The transfer failed; worth retrying.
    Transport { message: String },
    /// A local file operation failed.
    Io { message: String },
}

/// What one attempt of a download gave.
#[derive(Debug, Clone, PartialEq, Eq)]
pub enum Attempt {
    /// The file was received into its `.part` file; this is its SHA-256, in
    /// lowercase hex.
    Fetched { sha256: String },
    /// The server answered 404.
    NotFound,
    /// The transfer failed.
    Transport { message: String },
}

/// What to do after an attempt.
#[derive(Debug, PartialEq, Eq)]
pub enum DownloadStep {
    /// Wait `delay_ms` milliseconds, then make attempt number `next_attempt`.
    Retry { next_attempt: usize, delay_ms: u64 },
    /// The download is over, with this outcome.
    Finish(Result<(), DownloadError>),
}

/// The first retry waits this long, in milliseconds.
pub const BACKOFF_BASE_MS: u64 = 250;

/// No retry waits longer than this, in milliseconds.
pub const BACKOFF_CAP_MS: u64 = 8000;

/// The wait before the retry that follows attempt `attempt` (counted from 0):
/// doubling from the base, capped.
pub open spec fn backoff(attempt: nat) -> nat
    decreases attempt,
{
    if attempt == 0 {
        BACKOFF_BASE_MS as nat
    } else {
        let d = 2 * backoff((attempt - 1) as nat);
        if d > BACKOFF_CAP_MS {
            BACKOFF_CAP_MS as nat
        } else {
            d
        }
    }
}

proof fn lemma_backoff_bounded(attempt: nat)
    ensures
        backoff(attempt) <= BACKOFF_CAP_MS,
    decreases attempt,
{
    if attempt > 0 {
        lemma_backoff_bounded((attempt - 1) as nat);
    }
}

/// The wait before the retry that follows attempt `attempt`.
pub fn backoff_delay(attempt: usize) -> (r: u64)
    ensures
        r == backoff(attempt as nat),
{
    let mut d: u64 = BACKOFF_BASE_MS;
    let mut i: usize = 0;
    while i < attempt
        invariant
            i <= attempt,
            d == backoff(i as nat),
            d <= BACKOFF_CAP_MS,
        decreases attempt - i,
    {
        proof {
            lemma_backoff_bounded(i as nat);
        }
        if 2 * d > BACKOFF_CAP_MS {
            d = BACKOFF_CAP_MS;
        } else {
            d = 2 * d;
        }
        i = i + 1;
    }
    d
}

/// How a finished download ended.
pub enum Outcome {
    Done,
    Missing,
    Mismatch,
    Failed,
}

/// What an attempt gave, as far as the decision goes.
pub enum AttemptKind {
    Fetched(Seq<char>),
    Missing,
    Failed,
}

/// The decision after an attempt, as far as it goes.
pub enum StepKind {
    Retry(nat, nat),
    Finish(Outcome),
}

/// The decision after attempt `attempt` (counted from 0) of a download that
/// may be retried `retries` times: a 404 ends it at once; a failed transfer
/// is retried while retries are left; a received file ends it, as a mismatch
/// when its hash is not the expected one.
pub open spec fn step_of(attempt: nat, retries: nat, expected: Option<Seq<char>>, a: AttemptKind) -> StepKind {
    match a {
        AttemptKind::Missing => StepKind::Finish(Outcome::Missing),
        AttemptKind::Failed => if attempt < retries {
            StepKind::Retry(attempt + 1, backoff(attempt))
        } else {
            StepKind::Finish(Outcome::Failed)
        },
        AttemptKind::Fetched(h) => match expected {
            Some(e) => if e == h {
                StepKind::Finish(Outcome::Done)
            } else {
                StepKind::Finish(Outcome::Mismatch)
            },
            None => StepKind::Finish(Outcome::Done),
        },
    }
}

impl Attempt {
    /// What the attempt gave, as far as the decision goes.
    pub open spec fn kind(&self) -> AttemptKind {
        match self {
            Attempt::Fetched { sha256 } => AttemptKind::Fetched(sha256@),
            Attempt::NotFound => AttemptKind::Missing,
            Attempt::Transport { .. } => AttemptKind::Failed,
        }
    }
}

impl DownloadStep {
    /// The decision, as far as it goes.
    pub open spec fn kind(&self) -> StepKind {
        match self {
            DownloadStep::Retry { next_attempt, delay_ms } => StepKind::Retry(*next_attempt as nat, *delay_ms as nat),
            DownloadStep::Finish(Ok(())) => StepKind::Finish(Outcome::Done),
            DownloadStep::Finish(Err(DownloadError::NotFound)) => StepKind::Finish(Outcome::Missing),
            DownloadStep::Finish(Err(DownloadError::ChecksumMismatch { .. })) => StepKind::Finish(Outcome::Mismatch),
            DownloadStep::Finish(Err(_)) => StepKind::Finish(Outcome::Failed),
        }
    }
}

/// What follows attempt `attempt` (counted from 0) of a download that may be
/// retried `retries` times, with `expected` as the file's SHA-256 when known.
pub fn after_attempt(attempt: usize, retries: usize, expected: Option<&str>, outcome: Attempt) -> (r: DownloadStep)
    ensures
        r.kind() == step_of(attempt as nat, retries as nat, opt_text(expected), outcome.kind()),
        outcome matches Attempt::Transport { message } ==> (r matches DownloadStep::Finish(Err(e)) ==> (e matches DownloadError::Transport { message: m } && m@ == message@)),
        outcome matches Attempt::Fetched { sha256 } ==> (r matches DownloadStep::Finish(Err(e)) ==> (e matches DownloadError::ChecksumMismatch { expected: x, actual } && actual@ == sha256@ && opt_text(expected) == Some(x@))),
{
    match outcome {
        Attempt::NotFound => DownloadStep::Finish(Err(DownloadError::NotFound)),
        Attempt::Transport { message } => {
            if attempt < retries {
                let delay_ms = backoff_delay(attempt);
                DownloadStep::Retry { next_attempt: attempt + 1, delay_ms }
            } else {
                DownloadStep::Finish(Err(DownloadError::Transport { message }))
            }
        },
        Attempt::Fetched { sha256 } => match expected {
            Some(e) => {
                if str_eq(e, sha256.as_str()) {
                    DownloadStep::Finish(Ok(()))
                } else {
                    DownloadStep::Finish(Err(DownloadError::ChecksumMismatch { expected: owned(e), actual: sha256 }))
                }
            },
            None => DownloadStep::Finish(Ok(())),
        },
    }
}

/// A whole download, attempt by attempt, from attempt `attempt` on, given
/// what each attempt gives: how it ends and after how many attempts; `None`
/// when `outcomes` runs out first.
pub open spec fn run_download(outcomes: Seq<AttemptKind>, attempt: nat, retries: nat, expected: Option<Seq<char>>) -> Option<(Outcome, nat)>
    decreases outcomes.len() - attempt,
{
    if attempt >= outcomes.len() {
        None
    } else {
        match step_of(attempt, retries, expected, outcomes[attempt as int]) {
            StepKind::Retry(next, _) => if next == attempt + 1 {
                run_download(outcomes, attempt + 1, retries, expected)
            } else {
                None
            },
            StepKind::Finish(o) => Some((o, attempt + 1)),
        }
    }
}

/// A download whose target is missing upstream ends as not found after a
/// single attempt, whatever the retry budget.
pub proof fn lemma_not_found_is_not_retried(outcomes: Seq<AttemptKind>, retries: nat, expected: Option<Seq<char>>)
    requires
        outcomes.len() >= 1,
        outcomes[0] == AttemptKind::Missing,
    ensures
        run_download(outcomes, 0, retries, expected) == Some((Outcome::Missing, 1nat)),
{
}

/// A download whose first `k` attempts fail in transfer, with `k` within the
/// retry budget, and whose next attempt receives the expected file, succeeds
/// after `k + 1` attempts.
pub proof fn lemma_transient_failures_recovered(outcomes: Seq<AttemptKind>, k: nat, retries: nat, expected: Option<Seq<char>>, h: Seq<char>)
    requires
        k <= retries,
        outcomes.len() == k + 1,
        forall|i: int| 0 <= i < k ==> outcomes[i] == AttemptKind::Failed,
        outcomes[k as int] == AttemptKind::Fetched(h),
        expected is None || expected == Some(h),
    ensures
        run_download(outcomes, 0, retries, expected) == Some((Outcome::Done, k + 1)),
{
    lemma_run_from(outcomes, k, retries, expected, h, 0);
}

proof fn lemma_run_from(outcomes: Seq<AttemptKind>, k: nat, retries: nat, expected: Option<Seq<char>>, h: Seq<char>, from: nat)
    requires
        k <= retries,
        from <= k,
        outcomes.len() == k + 1,
        forall|i: int| 0 <= i < k ==> outcomes[i] == AttemptKind::Failed,
        outcomes[k as int] == AttemptKind::Fetched(h),
        expected is None || expected == Some(h),
    ensures
        run_download(outcomes, from, retries, expected) == Some((Outcome::Done, k + 1)),
    decreases k - from,
{
    if from < k {
        lemma_run_from(outcomes, k, retries, expected, h, from + 1);
    }
}

/// A download that receives a file whose hash is not the expected one ends
/// as a mismatch, so its file is never moved into place.
pub proof fn lemma_mismatch_is_final(outcomes: Seq<AttemptKind>, retries: nat, e: Seq<char>, h: Seq<char>)
    requires
        outcomes.len() >= 1,
        outcomes[0] == AttemptKind::Fetched(h),
        e != h,
    ensures
        run_download(outcomes, 0, retries, Some(e)) == Some((Outcome::Mismatch, 1nat)),
{
}

/// Why a channel or rustup-init sync failed.
#[derive(Debug, Clone, PartialEq, Eq)]
pub enum SyncError {
    /// Some downloads of a batch failed (404s not counted).
    FailedDownloads { count: usize },
    /// A single download failed.
    Download(DownloadError),
    /// A manifest could not be read.
    Manifest { message: String },
    /// A local file operation failed.
    Io { message: String },
}

/// The download counts as a failure: an error other than 404.
pub open spec fn is_failure(r: Result<(), DownloadError>) -> bool {
    r matches Err(e) && !(e is NotFound)
}

/// How many downloads of a batch failed, 404s not counted.
pub open spec fn failures(rs: Seq<Result<(), DownloadError>>) -> nat
    decreases rs.len(),
{
    if rs.len() == 0 {
        0
    } else {
        failures(rs.drop_last()) + if is_failure(rs.last()) {
            1nat
        } else {
            0nat
        }
    }
}

proof fn lemma_failures_bounded(rs: Seq<Result<(), DownloadError>>)
    ensures
        failures(rs) <= rs.len(),
    decreases rs.len(),
{
    if rs.len() > 0 {
        lemma_failures_bounded(rs.drop_last());
    }
}

/// How a batch of downloads ends: success when none failed (404s being
/// benign), else a single error that counts the failures.
pub fn batch_outcome(results: &[Result<(), DownloadError>]) -> (r: Result<(), SyncError>)
    ensures
        r is Ok <==> failures(results@) == 0,
        r matches Err(e) ==> (e matches SyncError::FailedDownloads { count } && count == failures(results@)),
{
    let mut count: usize = 0;
    let mut i: usize = 0;
    while i < results.len()
        invariant
            i <= results.len(),
            count == failures(results@.take(i as int)),
        decreases results.len() - i,
    {
        proof {
            assert(results@.take(i + 1).drop_last() =~= results@.take(i as int));
            lemma_failures_bounded(results@.take(i as int));
        }
        let failed = match &results[i] {
            Ok(()) => false,
            Err(DownloadError::NotFound) => false,
            Err(_) => true,
        };
        if failed {
            count = count + 1;
        }
        i = i + 1;
    }
    assert(results@.take(i as int) =~= results@);
    if count == 0 {
        Ok(())
    } else {
        Err(SyncError::FailedDownloads { count })
    }
}

/// `<p>.part`: where a download is staged before it is moved into place.
pub fn part_path(p: &str) -> (r: String)
    ensures
        r@ == p@ + ".part"@,
{
    concat(p, ".part")
}

/// The hash that a `.sha256` file states: its text up to the first space,
/// tab, carriage return or newline.
pub open spec fn stated_hash(text: Seq<char>) -> Seq<char>
    decreases text.len(),
{
    if text.len() == 0 {
        Seq::empty()
    } else if text[0] == ' ' || text[0] == '\t' || text[0] == '\r' || text[0] == '\n' {
        Seq::empty()
    } else {
        seq![text[0]] + stated_hash(text.drop_first())
    }
}

/// The hash that a `.sha256` file states.
pub fn sha256_file_hash(text: &str) -> (r: String)
    ensures
        r@ == stated_hash(text@),
{
    let cs = to_chars(text);
    let mut i: usize = 0;
    assert(cs@.skip(0) =~= cs@);
    assert(cs@.take(0) + stated_hash(cs@) =~= stated_hash(cs@));
    while i < cs.len() && cs[i] != ' ' && cs[i] != '\t' && cs[i] != '\r' && cs[i] != '\n'
        invariant
            i <= cs.len(),
            cs@ == text@,
            stated_hash(text@) == cs@.take(i as int) + stated_hash(cs@.skip(i as int)),
        decreases cs.len() - i,
    {
        assert(cs@.skip(i as int).drop_first() =~= cs@.skip(i + 1));
        assert(cs@.take(i + 1) =~= cs@.take(i as int) + seq![cs@[i as int]]);
        i = i + 1;
    }
    assert(stated_hash(cs@.skip(i as int)) =~= Seq::<char>::empty());
    assert(cs@.take(i as int) + Seq::<char>::empty() =~= cs@.take(i as int));
    from_chars(slice_to(&cs, i).as_slice())
}

/// Where a file of a channel release is fetched from, and its path segments
/// below the mirror root.
pub fn target_download(source: &str, path: &str) -> (r: (String, Vec<String>))
    ensures
        r.0@ == source@ + seq!['/'] + path@,
        r.1.deep_view() == split_on(path@, '/'),
{
    let mut url = concat(source, "/");
    push_str(&mut url, path);
    proof {
        reveal_strlit("/");
    }
    assert(url@ =~= source@ + seq!['/'] + path@);
    (url, split(path, '/'))
}

/// `rustup-init.exe` on Windows targets, `rustup-init` on the others.
pub open spec fn init_file_name_of(is_exe: bool) -> Seq<char> {
    if is_exe {
        "rustup-init.exe"@
    } else {
        "rustup-init"@
    }
}

/// The locations of one platform's `rustup-init`.
#[derive(Debug, Clone, PartialEq, Eq)]
pub struct InitFiles {
    /// Where it is fetched from.
    pub url: String,
    /// Its path below the mirror root under the versioned archive:
    /// `rustup/archive/<version>/<platform>/<file>`.
    pub archive_path: Vec<String>,
    /// Its path below the mirror root where rustup looks for it:
    /// `rustup/dist/<platform>/<file>`.
    pub dist_path: Vec<String>,
}

/// The locations of one platform's `rustup-init`.
pub fn rustup_init_files(source: &str, platform: &str, is_exe: bool, rustup_version: &str) -> (r: InitFiles)
    ensures
        r.url@ == source@ + "/rustup/dist/"@ + platform@ + seq!['/'] + init_file_name_of(is_exe),
        texts(r.archive_path@) == seq!["rustup"@, "archive"@, rustup_version@, platform@, init_file_name_of(is_exe)],
        texts(r.dist_path@) == seq!["rustup"@, "dist"@, platform@, init_file_name_of(is_exe)],
{
    let file = if is_exe { owned("rustup-init.exe") } else { owned("rustup-init") };
    let mut url = concat(source, "/rustup/dist/");
    push_str(&mut url, platform);
    push_str(&mut url, "/");
    push_str(&mut url, file.as_str());
    proof {
        reveal_strlit("/");
    }
    assert(url@ =~= source@ + "/rustup/dist/"@ + platform@ + seq!['/'] + init_file_name_of(is_exe));
    let mut archive_path: Vec<String> = Vec::new();
    archive_path.push(owned("rustup"));
    archive_path.push(owned("archive"));
    archive_path.push(owned(rustup_version));
    archive_path.push(owned(platform));
    archive_path.push(owned(file.as_str()));
    let mut dist_path: Vec<String> = Vec::new();
    dist_path.push(owned("rustup"));
    dist_path.push(owned("dist"));
    dist_path.push(owned(platform));
    dist_path.push(file);
    assert(texts(archive_path@) =~= seq!["rustup"@, "archive"@, rustup_version@, platform@, init_file_name_of(is_exe)]);
    assert(texts(dist_path@) =~= seq!["rustup"@, "dist"@, platform@, init_file_name_of(is_exe)]);
    InitFiles { url, archive_path, dist_path }
}

/// Where the rustup release file is fetched from.
pub fn rustup_release_url(source: &str) -> (r: String)
    ensures
        r@ == source@ + "/rustup/release-stable.toml"@,
{
    concat(source, "/rustup/release-stable.toml")
}

} // verus!
