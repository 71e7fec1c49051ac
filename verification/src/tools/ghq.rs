//! Finding the checkout of a repository, and fetching it where there is none.
use vstd::prelude::*;

use crate::text::{chars_of, join2, join3, trim, trimmed};

verus! {

/// Failures of the repository tool.
#[derive(Debug, Clone, PartialEq, Eq)]
pub enum GhqError {
    /// The binary is not on the path.
    NotFound { message: String },
    /// The binary ran and failed.
    NonZeroExit { message: String },
    /// The binary could not be started or waited for.
    Io { message: String },
    /// A fetched repository is still not listed.
    NotFoundAfterGet { identifier: String },
}

impl GhqError {
    pub open spec fn text(&self) -> Seq<char> {
        match self {
            GhqError::NotFound { message } => "ghq binary not found on PATH: "@ + message@,
            GhqError::NonZeroExit { message } => "ghq exited non-zero: "@ + message@,
            GhqError::Io { message } => "ghq spawn/io error: "@ + message@,
            GhqError::NotFoundAfterGet { identifier } => "ghq get succeeded but `"@ + identifier@
                + "` still not found via list -p"@,
        }
    }

    /// The error in words.
    pub fn message(&self) -> (s: String)
        ensures
            s@ == self.text(),
    {
        match self {
            GhqError::NotFound { message } => join2(
                "ghq binary not found on PATH: ",
                message.as_str(),
            ),
            GhqError::NonZeroExit { message } => join2("ghq exited non-zero: ", message.as_str()),
            GhqError::Io { message } => join2("ghq spawn/io error: ", message.as_str()),
            GhqError::NotFoundAfterGet { identifier } => join3(
                "ghq get succeeded but `",
                identifier.as_str(),
                "` still not found via list -p",
            ),
        }
    }
}

/// Sorts a failure to start `op`: `missing` says that the binary is not there.
pub fn classify_io(missing: bool, op: &str, cause: &str) -> (e: GhqError)
    ensures
        missing ==> (e matches GhqError::NotFound { message } && message@
            == "`ghq` not found while running "@ + op@),
        !missing ==> (e matches GhqError::Io { message } && message@ == op@ + ": "@ + cause@),
{
    if missing {
        GhqError::NotFound { message: join2("`ghq` not found while running ", op) }
    } else {
        GhqError::Io { message: join3(op, ": ", cause) }
    }
}

/// The path that a listing names. An unknown repository makes the listing fail
/// or come out blank.
pub fn listed_path(success: bool, stdout: &str) -> (r: Option<String>)
    ensures
        r is Some == (success && trimmed(stdout@).len() > 0),
        r matches Some(p) ==> p@ == trimmed(stdout@),
{
    if !success {
        return None;
    }
    let path = trim(stdout);
    if chars_of(path.as_str()).len() == 0 {
        return None;
    }
    Some(path)
}

/// How a fetch went.
pub fn fetch_outcome(success: bool, stderr: &str) -> (r: Result<(), GhqError>)
    ensures
        r is Ok == success,
        r matches Err(e) ==> e matches GhqError::NonZeroExit { message } && message@ == trimmed(
            stderr@,
        ),
{
    if success {
        Ok(())
    } else {
        Err(GhqError::NonZeroExit { message: trim(stderr) })
    }
}

/// What is under way while a checkout is looked for.
#[derive(Debug, Clone, Copy, PartialEq, Eq, Structural)]
pub enum CloneStage {
    /// The first listing.
    Listing,
    /// The fetch of a repository that was not listed.
    Fetching,
    /// The listing after the fetch.
    Checking,
}

/// What came of it.
#[derive(Debug)]
pub enum CloneEvent {
    Listed(Result<Option<String>, GhqError>),
    Fetched(Result<(), GhqError>),
}

/// What follows.
#[derive(Debug)]
pub enum CloneNext {
    Run(CloneStage),
    Done(Result<String, GhqError>),
}

/// The event answers the stage.
pub open spec fn answers(stage: CloneStage, event: CloneEvent) -> bool {
    stage is Fetching <==> event is Fetched
}

/// What follows an event.
pub open spec fn clone_next(stage: CloneStage, full: Seq<char>, event: CloneEvent, next: CloneNext) -> bool {
    match event {
        CloneEvent::Listed(Err(e)) => next == CloneNext::Done(Err(e)),
        CloneEvent::Listed(Ok(Some(p))) => next == CloneNext::Done(Ok(p)),
        CloneEvent::Listed(Ok(None)) => if stage is Listing {
            next == CloneNext::Run(CloneStage::Fetching)
        } else {
            next matches CloneNext::Done(Err(GhqError::NotFoundAfterGet { identifier }))
                && identifier@ == full
        },
        CloneEvent::Fetched(Err(e)) => next == CloneNext::Done(Err(e)),
        CloneEvent::Fetched(Ok(_)) => next == CloneNext::Run(CloneStage::Checking),
    }
}

/// Lookup or fetch: what follows an event. The first stage is the listing.
pub fn ensure_cloned(stage: CloneStage, full: &str, event: CloneEvent) -> (next: CloneNext)
    requires
        answers(stage, event),
    ensures
        clone_next(stage, full@, event, next),
{
    match event {
        CloneEvent::Listed(Err(e)) => CloneNext::Done(Err(e)),
        CloneEvent::Listed(Ok(Some(path))) => CloneNext::Done(Ok(path)),
        CloneEvent::Listed(Ok(None)) => match stage {
            CloneStage::Listing => CloneNext::Run(CloneStage::Fetching),
            _ => CloneNext::Done(Err(GhqError::NotFoundAfterGet { identifier: full.to_owned() })),
        },
        CloneEvent::Fetched(Err(e)) => CloneNext::Done(Err(e)),
        CloneEvent::Fetched(Ok(_)) => CloneNext::Run(CloneStage::Checking),
    }
}

/// How far a search has come.
pub open spec fn stage_rank(stage: CloneStage) -> nat {
    match stage {
        CloneStage::Listing => 2,
        CloneStage::Fetching => 1,
        CloneStage::Checking => 0,
    }
}

/// A search ends: each step leaves fewer behind it, so a repository is fetched
/// at most once.
pub proof fn law_search_ends(
    stage: CloneStage,
    full: Seq<char>,
    event: CloneEvent,
    next: CloneNext,
)
    requires
        answers(stage, event),
        clone_next(stage, full, event, next),
    ensures
        next matches CloneNext::Run(s) ==> stage_rank(s) < stage_rank(stage),
{
}

/// How a checkout is come by: one that is listed is taken; one that is not is
/// fetched, once, and looked for again; what is still not there is reported by
/// its name; and any failure is passed on.
pub proof fn law_checkouts_are_come_by(
    stage: CloneStage,
    full: Seq<char>,
    event: CloneEvent,
    next: CloneNext,
)
    requires
        answers(stage, event),
        clone_next(stage, full, event, next),
    ensures
        event matches CloneEvent::Listed(Ok(Some(p))) ==> next == CloneNext::Done(Ok(p)),
        event matches CloneEvent::Listed(Err(e)) ==> next == CloneNext::Done(Err(e)),
        event matches CloneEvent::Fetched(Err(e)) ==> next == CloneNext::Done(Err(e)),
        event matches CloneEvent::Fetched(Ok(_)) ==> next == CloneNext::Run(CloneStage::Checking),
        event matches CloneEvent::Listed(Ok(None)) ==> (stage is Listing ==> next
            == CloneNext::Run(CloneStage::Fetching)),
        event matches CloneEvent::Listed(Ok(None)) ==> (stage is Checking ==> (next
            matches CloneNext::Done(Err(GhqError::NotFoundAfterGet { identifier })) && identifier@
            == full)),
{
}

} // verus!
