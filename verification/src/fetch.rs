//! The decisions of the range fetcher: what a response status means, where the length of a file
//! is found, what a failed transfer calls for, and when progress is published.
//!
//! The requests themselves are made elsewhere; every function here takes what came back as plain
//! values.

use crate::text::{
    chars_of, contains, contains_seq, decimal, parse_decimal, parse_number, parse_u64,
    push_decimal, split_chars, split_on, views,
};
use vstd::prelude::*;

verus! {

/// What a response status means to the fetcher.
#[derive(Debug, Clone, Copy, PartialEq, Eq, Structural)]
pub enum StatusClass {
    /// Any status from 200 to 299.
    Success,
    /// 403, 404 or 410: the link is signed or time-bound and is no longer good.
    Expired,
    /// Every other status.
    Failure,
}

/// The class of a response status.
pub open spec fn status_class(status: u16) -> StatusClass {
    if 200 <= status <= 299 {
        StatusClass::Success
    } else if status == 403 || status == 404 || status == 410 {
        StatusClass::Expired
    } else {
        StatusClass::Failure
    }
}

/// Classifies a response status.
pub fn classify_status(status: u16) -> (class: StatusClass)
    ensures
        class == status_class(status),
{
    if 200 <= status && status <= 299 {
        StatusClass::Success
    } else if status == 403 || status == 404 || status == 410 {
        StatusClass::Expired
    } else {
        StatusClass::Failure
    }
}

/// Why a fetch failed.
#[derive(Debug)]
pub enum FetchError {
    /// Neither the `HEAD` request nor the ranged probe gave a length.
    CannotDetermineSize,
    /// The server answered 403, 404 or 410.
    ExpiredLink,
    /// The transfer was cancelled between two chunks.
    PausedByUser,
    /// The server answered with another status that is no success.
    Status(u16),
    /// The transport or the disk failed; holds its message as it came.
    Transport(String),
}

/// View of a [`FetchError`].
pub enum FetchErrorView {
    CannotDetermineSize,
    ExpiredLink,
    PausedByUser,
    Status(u16),
    Transport(Seq<char>),
}

impl View for FetchError {
    type V = FetchErrorView;

    open spec fn view(&self) -> FetchErrorView {
        match self {
            FetchError::CannotDetermineSize => FetchErrorView::CannotDetermineSize,
            FetchError::ExpiredLink => FetchErrorView::ExpiredLink,
            FetchError::PausedByUser => FetchErrorView::PausedByUser,
            FetchError::Status(status) => FetchErrorView::Status(*status),
            FetchError::Transport(message) => FetchErrorView::Transport(message@),
        }
    }
}

impl DeepView for FetchError {
    type V = FetchErrorView;

    open spec fn deep_view(&self) -> FetchErrorView {
        self@
    }
}

impl FetchErrorView {
    /// The text by which the error is reported and recognised.
    pub open spec fn message(self) -> Seq<char> {
        match self {
            FetchErrorView::CannotDetermineSize => "Could not determine file size"@,
            FetchErrorView::ExpiredLink => "ExpiredLink"@,
            FetchErrorView::PausedByUser => "PausedByUser"@,
            FetchErrorView::Status(status) => "Download failed: "@ + decimal(status as nat),
            FetchErrorView::Transport(message) => message,
        }
    }
}

impl FetchError {
    /// The text by which the error is reported and recognised.
    pub fn message(&self) -> (text: String)
        ensures
            text@ == self@.message(),
    {
        match self {
            FetchError::CannotDetermineSize => "Could not determine file size".to_string(),
            FetchError::ExpiredLink => "ExpiredLink".to_string(),
            FetchError::PausedByUser => "PausedByUser".to_string(),
            FetchError::Status(status) => {
                let mut text = "Download failed: ".to_string();
                push_decimal(&mut text, *status as u128);
                text
            },
            FetchError::Transport(message) => message.clone(),
        }
    }
}

/// What a failed transfer calls for.
#[derive(Debug, Clone, Copy, PartialEq, Eq, Structural)]
pub enum FailureKind {
    /// The user paused the task: stop without a new status.
    Paused,
    /// The link expired: ask for a fresh one.
    Expired,
    /// Anything else: try again after a pause.
    Transient,
}

/// A failure is told by its message: one that holds `PausedByUser` is a pause, else one that holds
/// `ExpiredLink` is an expired link, and every other one is transient.
pub open spec fn failure_kind(message: Seq<char>) -> FailureKind {
    if contains_seq(message, "PausedByUser"@) {
        FailureKind::Paused
    } else if contains_seq(message, "ExpiredLink"@) {
        FailureKind::Expired
    } else {
        FailureKind::Transient
    }
}

/// Tells from its message what a failed transfer calls for.
pub fn classify_failure(message: &str) -> (kind: FailureKind)
    ensures
        kind == failure_kind(message@),
{
    if contains(message, "PausedByUser") {
        FailureKind::Paused
    } else if contains(message, "ExpiredLink") {
        FailureKind::Expired
    } else {
        FailureKind::Transient
    }
}

/// Whether the message of a failure tells of an expired link.
pub fn is_expired_link(message: &str) -> (expired: bool)
    ensures
        expired == contains_seq(message@, "ExpiredLink"@),
{
    contains(message, "ExpiredLink")
}

/// What the answer to the `HEAD` request settles.
#[derive(Debug, Clone, Copy, PartialEq, Eq, Structural)]
pub enum HeadVerdict {
    /// The file has this many bytes.
    Length(u64),
    /// The link has expired.
    Expired,
    /// Nothing: ask again with a ranged `GET` for the first byte.
    Probe,
}

/// A length read from a header: the value of a decimal number, if the text is one that fits.
pub open spec fn header_number(text: Option<Seq<char>>) -> Option<nat> {
    match text {
        Some(t) => parse_decimal(t, u64::MAX as nat),
        None => None,
    }
}

/// A length that is there and is not zero.
pub open spec fn positive(length: Option<u64>) -> Option<u64> {
    match length {
        Some(n) if n > 0 => Some(n),
        _ => None,
    }
}

/// The verdict on a `HEAD` answer. An expired status says so. A success gives the length that the
/// transport reports where that is positive, else the one written in the `Content-Length` header
/// where that is positive. Everything else calls for the probe.
pub open spec fn head_verdict(
    status: u16,
    transport_length: Option<u64>,
    content_length: Option<Seq<char>>,
) -> HeadVerdict {
    match status_class(status) {
        StatusClass::Expired => HeadVerdict::Expired,
        StatusClass::Failure => HeadVerdict::Probe,
        StatusClass::Success => match positive(transport_length) {
            Some(n) => HeadVerdict::Length(n),
            None => match header_number(content_length) {
                Some(n) if n > 0 => HeadVerdict::Length(n as u64),
                _ => HeadVerdict::Probe,
            },
        },
    }
}

/// Decides what the answer to the `HEAD` request settles. `transport_length` is the body length
/// as the transport reports it, `content_length` the text of the `Content-Length` header.
pub fn length_from_head(
    status: u16,
    transport_length: Option<u64>,
    content_length: Option<&str>,
) -> (verdict: HeadVerdict)
    ensures
        verdict == head_verdict(
            status,
            transport_length,
            match content_length {
                Some(t) => Some(t@),
                None => None,
            },
        ),
{
    match classify_status(status) {
        StatusClass::Expired => HeadVerdict::Expired,
        StatusClass::Failure => HeadVerdict::Probe,
        StatusClass::Success => {
            match transport_length {
                Some(n) => {
                    if n > 0 {
                        return HeadVerdict::Length(n);
                    }
                },
                None => {},
            }
            match content_length {
                Some(text) => {
                    match parse_u64(text) {
                        Some(n) => {
                            if n > 0 {
                                return HeadVerdict::Length(n);
                            }
                        },
                        None => {},
                    }
                },
                None => {},
            }
            HeadVerdict::Probe
        },
    }
}

/// What stands after the last `/` of `text`: all of it where it has none.
pub open spec fn after_last_slash(text: Seq<char>) -> Seq<char> {
    split_on(text, '/').last()
}

/// The length that the answer to the ranged probe gives: on success, the number after the last
/// `/` of the `Content-Range` header.
pub open spec fn probe_length(status: u16, content_range: Option<Seq<char>>) -> Result<
    u64,
    FetchErrorView,
> {
    match status_class(status) {
        StatusClass::Expired => Err(FetchErrorView::ExpiredLink),
        StatusClass::Failure => Err(FetchErrorView::CannotDetermineSize),
        StatusClass::Success => match content_range {
            Some(text) => match parse_decimal(after_last_slash(text), u64::MAX as nat) {
                Some(n) => Ok(n as u64),
                None => Err(FetchErrorView::CannotDetermineSize),
            },
            None => Err(FetchErrorView::CannotDetermineSize),
        },
    }
}

/// View of the outcome of a length discovery.
pub open spec fn length_view(r: Result<u64, FetchError>) -> Result<u64, FetchErrorView> {
    match r {
        Ok(n) => Ok(n),
        Err(e) => Err(e@),
    }
}

/// Reads the length of the file from the answer to a `GET` for its first byte. `content_range`
/// is the text of the `Content-Range` header.
pub fn length_from_probe(status: u16, content_range: Option<&str>) -> (r: Result<u64, FetchError>)
    ensures
        length_view(r) == probe_length(
            status,
            match content_range {
                Some(t) => Some(t@),
                None => None,
            },
        ),
{
    match classify_status(status) {
        StatusClass::Expired => Err(FetchError::ExpiredLink),
        StatusClass::Failure => Err(FetchError::CannotDetermineSize),
        StatusClass::Success => match content_range {
            Some(text) => {
                let chars = chars_of(text);
                let pieces = split_chars(&chars, '/');
                let total = &pieces[pieces.len() - 1];
                assert(total@ == views(pieces@).last());
                match parse_number(total, u64::MAX) {
                    Some(n) => Ok(n),
                    None => Err(FetchError::CannotDetermineSize),
                }
            },
            None => Err(FetchError::CannotDetermineSize),
        },
    }
}

/// The value of the `Range` header that asks for the bytes from `start` to `end`, both included.
pub open spec fn range_header_spec(start: u64, end: u64) -> Seq<char> {
    "bytes="@ + decimal(start as nat) + "-"@ + decimal(end as nat)
}

/// The value of the `Range` header that asks for the bytes from `start` to `end`, both included.
pub fn range_header(start: u64, end: u64) -> (value: String)
    ensures
        value@ == range_header_spec(start, end),
{
    let mut value = "bytes=".to_string();
    push_decimal(&mut value, start as u128);
    value.append("-");
    push_decimal(&mut value, end as u128);
    value
}

/// What the status of the answer to a ranged `GET` means for the transfer.
pub open spec fn transfer_verdict(status: u16) -> Result<(), FetchErrorView> {
    match status_class(status) {
        StatusClass::Success => Ok(()),
        StatusClass::Expired => Err(FetchErrorView::ExpiredLink),
        StatusClass::Failure => Err(FetchErrorView::Status(status)),
    }
}

/// Decides from the status of the answer to a ranged `GET` whether its body is the range.
pub fn check_transfer_status(status: u16) -> (r: Result<(), FetchError>)
    ensures
        match r {
            Ok(_) => transfer_verdict(status) is Ok,
            Err(e) => transfer_verdict(status) == Err::<(), FetchErrorView>(e@),
        },
{
    match classify_status(status) {
        StatusClass::Success => Ok(()),
        StatusClass::Expired => Err(FetchError::ExpiredLink),
        StatusClass::Failure => Err(FetchError::Status(status)),
    }
}

/// Number of bytes after which the progress of a transfer is published.
pub const PROGRESS_UPDATE_THRESHOLD: u64 = 524288;

/// What to do with a chunk that has arrived.
#[derive(Debug, Clone, Copy, PartialEq, Eq, Structural)]
pub enum ChunkStep {
    /// A pause was asked for: drop the chunk and fail with `PausedByUser`.
    Abort,
    /// Write the chunk, then add `publish` to the shared progress counter and carry `carry`
    /// unpublished bytes on.
    Write { publish: u64, carry: u64 },
}

/// The step for a chunk of `chunk_len` bytes that arrives while `unpublished` bytes are written
/// but not yet published. Bytes are published in batches: once the unpublished ones reach the
/// threshold, all of them are published at once.
pub open spec fn chunk_step_spec(unpublished: u64, chunk_len: usize, cancel: bool) -> ChunkStep {
    if cancel {
        ChunkStep::Abort
    } else {
        let written = if unpublished + chunk_len > u64::MAX {
            u64::MAX
        } else {
            (unpublished + chunk_len) as u64
        };
        if written >= PROGRESS_UPDATE_THRESHOLD {
            ChunkStep::Write { publish: written, carry: 0 }
        } else {
            ChunkStep::Write { publish: 0, carry: written }
        }
    }
}

/// Decides what to do with a chunk that has arrived. `cancel` is the task's cancel flag as read
/// after the chunk came in and before anything of it is written.
pub fn chunk_step(unpublished: u64, chunk_len: usize, cancel: bool) -> (step: ChunkStep)
    ensures
        step == chunk_step_spec(unpublished, chunk_len, cancel),
{
    if cancel {
        return ChunkStep::Abort;
    }
    let written = unpublished.saturating_add(chunk_len as u64);
    if written >= PROGRESS_UPDATE_THRESHOLD {
        ChunkStep::Write { publish: written, carry: 0 }
    } else {
        ChunkStep::Write { publish: 0, carry: written }
    }
}

/// No byte is lost or counted twice: what a written chunk publishes and what it carries on are,
/// together, what was carried before and the chunk.
pub proof fn lemma_chunk_step_accounts(unpublished: u64, chunk_len: usize)
    requires
        unpublished + chunk_len <= u64::MAX,
    ensures
        chunk_step_spec(unpublished, chunk_len, false) matches ChunkStep::Write { publish, carry }
            && publish + carry == unpublished + chunk_len && carry < PROGRESS_UPDATE_THRESHOLD,
{
}

/// A raised cancel flag stops the transfer at the next chunk, whatever has been written.
pub proof fn lemma_cancel_aborts(unpublished: u64, chunk_len: usize)
    ensures
        chunk_step_spec(unpublished, chunk_len, true) == ChunkStep::Abort,
{
}

} // verus!
