//! The decisions of one download run: what a mirror's answer means for the
//! cache file and the byte counts, what the task shows meanwhile, and what
//! becomes of it when every mirror fails.
use vstd::prelude::*;
use crate::text::{concat_str, decimal, u64_to_string, views};

verus! {

/// The byte counts of the attempt at one mirror: the bytes already in the
/// cache file when it started (a resumed download asks for the rest), the
/// bytes downloaded, and the expected total when known.
pub struct DownloadProgress {
    pub start: u64,
    pub downloaded: u64,
    pub total_bytes: Option<u64>,
}

/// What a mirror's answer means.
pub struct ResponsePlan {
    /// The mirror sent the whole file although the rest was asked for: the
    /// cache file is emptied and the download starts over.
    pub restart: bool,
    /// The answer is a success (2xx) and its body is the download.
    pub accepted: bool,
}

/// Starts the attempt at a mirror with `cached` bytes in the cache file.
pub fn begin_mirror(cached: u64, total_bytes: Option<u64>) -> (r: DownloadProgress)
    ensures
        r.start == cached,
        r.downloaded == cached,
        r.total_bytes == total_bytes,
{
    DownloadProgress { start: cached, downloaded: cached, total_bytes }
}

/// Whether an HTTP status is a success (200 to 299).
pub open spec fn is_success(status: u16) -> bool {
    200 <= status <= 299
}

/// Takes a mirror's answer: a `200` to a resumed request starts over from
/// zero; a success is accepted; an accepted answer's length sets the
/// expected total (the bytes already there plus the length for a partial
/// answer, `206`). The resumed start and the length fit a `u64` together.
pub fn on_response(p: &mut DownloadProgress, status: u16, content_length: Option<u64>) -> (r: ResponsePlan)
    requires
        status == 206 && content_length is Some ==> old(p).start + content_length->0 <= u64::MAX,
    ensures
        r.restart == (old(p).start > 0 && status == 200),
        r.accepted == (is_success(status) || status == 206),
        final(p).start == if r.restart { 0 } else { old(p).start },
        final(p).downloaded == if r.restart { 0 } else { old(p).downloaded },
        final(p).total_bytes == if r.accepted && content_length is Some {
            Some((if status == 206 { final(p).start + content_length->0 } else { content_length->0 as int }) as u64)
        } else {
            old(p).total_bytes
        },
{
    let restart = p.start > 0 && status == 200;
    if restart {
        p.start = 0;
        p.downloaded = 0;
    }
    let accepted = (200 <= status && status <= 299) || status == 206;
    if accepted {
        if let Some(length) = content_length {
            p.total_bytes = Some(if status == 206 { p.start + length } else { length });
        }
    }
    ResponsePlan { restart, accepted }
}

/// Counts a chunk of `len` bytes (the count fits a `u64`).
pub fn on_chunk(p: &mut DownloadProgress, len: u64)
    requires
        old(p).downloaded + len <= u64::MAX,
    ensures
        final(p).downloaded == old(p).downloaded + len,
        final(p).start == old(p).start,
        final(p).total_bytes == old(p).total_bytes,
{
    p.downloaded = p.downloaded + len;
}

/// The `Range` header value of a resumed request: `bytes=<start>-`.
pub fn range_header(start: u64) -> (r: String)
    ensures
        r@ == "bytes="@ + decimal(start as nat) + "-"@,
{
    concat_str(concat_str("bytes=", u64_to_string(start).as_str()).as_str(), "-")
}

/// The `Range` header of a request to a mirror: the rest of the file from
/// the bytes already in the cache file, or none when it is empty.
pub fn resume_range(p: &DownloadProgress) -> (r: Option<String>)
    ensures
        match r {
            Some(h) => p.start > 0 && h@ == "bytes="@ + decimal(p.start as nat) + "-"@,
            None => p.start == 0,
        },
{
    if p.start > 0 { Some(range_header(p.start)) } else { None }
}

/// What a task shows while its attempt at a mirror goes on.
pub enum AttemptStage {
    Preparing,
    Sending,
    FailedTryingNext,
    Http(String),
    OpeningCache,
    WaitingForData,
    StalledSwitching,
    FailedSwitching,
}

pub open spec fn stage_text(label: Seq<char>, stage: AttemptStage) -> Seq<char> {
    match stage {
        AttemptStage::Preparing => label + ": preparing request"@,
        AttemptStage::Sending => label + ": sending request"@,
        AttemptStage::FailedTryingNext => label + " failed, trying next mirror"@,
        AttemptStage::Http(status) => label + ": HTTP "@ + status@,
        AttemptStage::OpeningCache => label + ": opening cache"@,
        AttemptStage::WaitingForData => label + ": waiting for data"@,
        AttemptStage::StalledSwitching => label + " stalled, switching mirror"@,
        AttemptStage::FailedSwitching => label + " failed, switching mirror"@,
    }
}

/// The message a task shows at a stage of its attempt at mirror `label`
/// (`Http` takes the status as the HTTP library prints it).
pub fn attempt_message(label: &str, stage: &AttemptStage) -> (r: String)
    ensures
        r@ == stage_text(label@, *stage),
{
    match stage {
        AttemptStage::Preparing => concat_str(label, ": preparing request"),
        AttemptStage::Sending => concat_str(label, ": sending request"),
        AttemptStage::FailedTryingNext => concat_str(label, " failed, trying next mirror"),
        AttemptStage::Http(status) => concat_str(concat_str(label, ": HTTP ").as_str(), status.as_str()),
        AttemptStage::OpeningCache => concat_str(label, ": opening cache"),
        AttemptStage::WaitingForData => concat_str(label, ": waiting for data"),
        AttemptStage::StalledSwitching => concat_str(label, " stalled, switching mirror"),
        AttemptStage::FailedSwitching => concat_str(label, " failed, switching mirror"),
    }
}

/// How long a download may receive nothing before its mirror is dropped.
pub const DOWNLOAD_STALL_TIMEOUT_SECS: u64 = 30;

/// The error recorded for a mirror: `<label>: <what went wrong>`.
pub fn mirror_error(label: &str, what: &str) -> (r: String)
    ensures
        r@ == label@ + ": "@ + what@,
{
    concat_str(concat_str(label, ": ").as_str(), what)
}

/// The error recorded when a mirror sends nothing for the stall timeout.
pub fn stall_error(label: &str) -> (r: String)
    ensures
        r@ == label@ + ": stalled for "@ + decimal(DOWNLOAD_STALL_TIMEOUT_SECS as nat) + " seconds"@,
{
    concat_str(concat_str(concat_str(label, ": stalled for ").as_str(), u64_to_string(DOWNLOAD_STALL_TIMEOUT_SECS).as_str()).as_str(), " seconds")
}

/// The errors joined by `; `.
pub open spec fn joined(errors: Seq<Seq<char>>) -> Seq<char>
    decreases errors.len(),
{
    if errors.len() == 0 {
        Seq::empty()
    } else if errors.len() == 1 {
        errors[0]
    } else {
        joined(errors.drop_last()) + "; "@ + errors.last()
    }
}

/// The message of a task whose every mirror failed.
pub fn all_mirrors_failed(errors: &Vec<String>) -> (r: String)
    ensures
        r@ == "all mirrors failed: "@ + joined(views(errors@)),
{
    let ghost es = views(errors@);
    let mut text = String::new();
    let mut i: usize = 0;
    assert(es.take(0) =~= Seq::<Seq<char>>::empty());
    while i < errors.len()
        invariant
            i <= errors.len(),
            es == views(errors@),
            text@ == joined(es.take(i as int)),
        decreases errors.len() - i,
    {
        proof {
            assert(es.take(i + 1).drop_last() =~= es.take(i as int));
            assert(es.take(i + 1).last() == errors@[i as int]@);
        }
        if i == 0 {
            text = errors[0].clone();
            assert(es.take(1) =~= seq![errors@[0]@]);
        } else {
            text = concat_str(concat_str(text.as_str(), "; ").as_str(), errors[i].as_str());
        }
        i = i + 1;
    }
    assert(es.take(errors.len() as int) =~= es);
    concat_str("all mirrors failed: ", text.as_str())
}

}
