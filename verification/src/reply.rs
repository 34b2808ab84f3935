//! What a request is answered with: a status and a body.

use vstd::prelude::*;
use vstd::string::StringExecFns;

use crate::record::views;
use crate::record::FileRecord;
use crate::record::FileRecordView;
use crate::text::decimal;
use crate::text::decimal_string;

verus! {

/// The outcome class of a request.
#[derive(Debug, Clone, Copy, PartialEq, Eq)]
pub enum Status {
    Success,
    Created,
    BadRequest,
    NotFound,
    ServerError,
}

/// The number that stands for `status` on the wire.
pub open spec fn code_of(status: Status) -> int {
    match status {
        Status::Success => 200,
        Status::Created => 201,
        Status::BadRequest => 400,
        Status::NotFound => 404,
        Status::ServerError => 500,
    }
}

impl Status {
    /// The number that stands for this status on the wire.
    pub fn code(&self) -> (code: u16)
        ensures
            code == code_of(*self),
    {
        match self {
            Status::Success => 200,
            Status::Created => 201,
            Status::BadRequest => 400,
            Status::NotFound => 404,
            Status::ServerError => 500,
        }
    }
}

/// The body of a reply.
#[derive(Debug, PartialEq, Eq)]
pub enum Body {
    /// The uniform envelope: a message and, for a listing, the files.
    Envelope { msg: String, files: Option<Vec<FileRecord>> },
    /// The content of a file, sent as it is.
    Raw(String),
}

/// The mathematical value of a [`Body`].
pub enum BodyView {
    Envelope { msg: Seq<char>, files: Option<Seq<FileRecordView>> },
    Raw(Seq<char>),
}

impl View for Body {
    type V = BodyView;

    open spec fn view(&self) -> BodyView {
        match self {
            Body::Envelope { msg, files } => BodyView::Envelope {
                msg: msg@,
                files: match files {
                    Some(list) => Some(views(list@)),
                    None => None,
                },
            },
            Body::Raw(content) => BodyView::Raw(content@),
        }
    }
}

/// A status together with a body.
#[derive(Debug, PartialEq, Eq)]
pub struct Reply {
    pub status: Status,
    pub body: Body,
}

/// The mathematical value of a [`Reply`].
pub struct ReplyView {
    pub status: Status,
    pub body: BodyView,
}

impl View for Reply {
    type V = ReplyView;

    open spec fn view(&self) -> ReplyView {
        ReplyView { status: self.status, body: self.body@ }
    }
}

/// The reply that carries `msg` in an envelope without files.
pub open spec fn message_reply(status: Status, msg: Seq<char>) -> ReplyView {
    ReplyView { status, body: BodyView::Envelope { msg, files: None } }
}

/// The reply that carries `content` as it is.
pub open spec fn content_reply(content: Seq<char>) -> ReplyView {
    ReplyView { status: Status::Success, body: BodyView::Raw(content) }
}

/// The message that confirms an upload under `name`.
pub open spec fn stored_message(name: Seq<char>) -> Seq<char> {
    "Stored file '"@ + name + "'"@
}

/// The message for an upload under `name` whose durable write failed.
pub open spec fn write_failed_message(name: Seq<char>) -> Seq<char> {
    "Failed to store file '"@ + name + "'"@
}

/// The message for a download of `name` where nothing is stored under it.
pub open spec fn not_found_message(name: Seq<char>) -> Seq<char> {
    "File '"@ + name + "' not found in store"@
}

/// The message of a listing of `count` files.
pub open spec fn listing_message(count: nat) -> Seq<char> {
    if count == 0 {
        "Got no files"@
    } else {
        "Got "@ + decimal(count) + " files"@
    }
}

/// The line that reports how many files a scan of the disk found.
pub open spec fn startup_summary(count: nat) -> Seq<char> {
    "cdn: Found "@ + decimal(count) + " File(s) on disk, loading into memory store"@
}

/// Builds the reply that carries `msg` in an envelope without files.
pub fn response(status: Status, msg: &str) -> (reply: Reply)
    ensures
        reply@ == message_reply(status, msg@),
{
    Reply { status, body: Body::Envelope { msg: msg.to_owned(), files: None } }
}

/// Puts `name` between `before` and `after`.
fn quote(before: &str, name: &str, after: &str) -> (out: String)
    ensures
        out@ == before@ + name@ + after@,
{
    let mut out = before.to_owned();
    out.append(name);
    out.append(after);
    out
}

/// Builds the message that confirms an upload under `name`.
pub fn stored_text(name: &str) -> (out: String)
    ensures
        out@ == stored_message(name@),
{
    quote("Stored file '", name, "'")
}

/// Builds the message for an upload under `name` whose durable write
/// failed.
pub fn write_failed_text(name: &str) -> (out: String)
    ensures
        out@ == write_failed_message(name@),
{
    quote("Failed to store file '", name, "'")
}

/// Builds the message for a download of `name` where nothing is stored
/// under it.
pub fn not_found_text(name: &str) -> (out: String)
    ensures
        out@ == not_found_message(name@),
{
    quote("File '", name, "' not found in store")
}

/// Builds the message of a listing of `count` files.
pub fn listing_text(count: usize) -> (out: String)
    ensures
        out@ == listing_message(count as nat),
{
    if count == 0 {
        "Got no files".to_owned()
    } else {
        let number = decimal_string(count);
        quote("Got ", number.as_str(), " files")
    }
}

/// Builds the line that reports how many files a scan of the disk found.
pub fn startup_text(count: usize) -> (out: String)
    ensures
        out@ == startup_summary(count as nat),
{
    let number = decimal_string(count);
    quote("cdn: Found ", number.as_str(), " File(s) on disk, loading into memory store")
}

} // verus!
