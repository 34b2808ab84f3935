//! The request rules: which operation a method and a path select, and what
//! each operation answers.
//!
//! Nothing here touches the disk or the network. An upload is decided in
//! steps: the caller reads the body, hands it to [`upload`], performs the
//! durable write that a [`Step::Persist`] asks for, and reports how the
//! write went to [`complete_upload`], which alone updates the index.
//!
//! An upload is stored under the final component of the name that the
//! client gives, so no directory that a client names reaches the index or
//! the disk. A name without a final component names no file: the write
//! cannot work, is not asked for, and is answered as a write that failed.
//! A download looks up the final component of its name, or the name as it
//! stands where it has none.

use vstd::prelude::*;

use crate::form::form_pairs;
use crate::form::parse_form;
use crate::pairs::find_last;
use crate::pairs::last_value;
use crate::path::after_first_segment;
use crate::path::final_component;
use crate::path::leaf_name;
use crate::path::lemma_run_len_is;
use crate::path::lemma_segments_after_separator;
use crate::path::lemma_segments_of_piece;
use crate::path::lemma_skip_separators_is;
use crate::path::path_segments;
use crate::path::split_first_segment;
use crate::path::sanitize_name;
use crate::path::sanitized;
use crate::path::segments;
use crate::record::clone_text;
use crate::record::views;
use crate::reply::content_reply;
use crate::reply::listing_message;
use crate::reply::listing_text;
use crate::reply::message_reply;
use crate::reply::not_found_message;
use crate::reply::not_found_text;
use crate::reply::response;
use crate::reply::stored_message;
use crate::reply::stored_text;
use crate::reply::write_failed_message;
use crate::reply::write_failed_text;
use crate::reply::Body;
use crate::reply::BodyView;
use crate::reply::Reply;
use crate::reply::ReplyView;
use crate::reply::Status;
use crate::store::listing;
use crate::store::put_name;
use crate::store::FileStore;
use crate::text::same_text;

verus! {

/// The method of a request, as far as the rules tell methods apart.
#[derive(Debug, Clone, Copy, PartialEq, Eq)]
pub enum Method {
    Get,
    Post,
    Other,
}

/// The operation that a request selects.
#[derive(Debug, PartialEq, Eq)]
pub enum Route {
    /// List the stored names.
    List,
    /// Store a file; the body holds its name and content.
    Upload,
    /// Send the content stored under the name.
    Download(String),
    /// A download that names no file.
    MissingName,
    /// Anything else.
    Unknown,
}

/// The mathematical value of a [`Route`].
pub enum RouteView {
    List,
    Upload,
    Download(Seq<char>),
    MissingName,
    Unknown,
}

impl View for Route {
    type V = RouteView;

    open spec fn view(&self) -> RouteView {
        match self {
            Route::List => RouteView::List,
            Route::Upload => RouteView::Upload,
            Route::Download(name) => RouteView::Download(name@),
            Route::MissingName => RouteView::MissingName,
            Route::Unknown => RouteView::Unknown,
        }
    }
}

/// The operation selected by `method` and `path`.
///
/// A listing is a `GET` of the one segment `files`; an upload is a `POST`
/// of the one segment `file`. A `GET` whose first segment is `file` is a
/// download: it names what follows that segment, as the client wrote it,
/// and names nothing where no segment follows. Every other request selects
/// nothing.
pub open spec fn route_of(method: Method, path: Seq<char>) -> RouteView {
    let parts = segments(path);
    if parts.len() == 0 {
        RouteView::Unknown
    } else if parts.len() == 1 {
        if method == Method::Get && parts[0] == "files"@ {
            RouteView::List
        } else if method == Method::Post && parts[0] == "file"@ {
            RouteView::Upload
        } else if method == Method::Get && parts[0] == "file"@ {
            RouteView::MissingName
        } else {
            RouteView::Unknown
        }
    } else if method == Method::Get && parts[0] == "file"@ {
        RouteView::Download(after_first_segment(path))
    } else {
        RouteView::Unknown
    }
}

/// Selects the operation for `method` and `path`.
pub fn route(method: Method, path: &str) -> (selected: Route)
    ensures
        selected@ == route_of(method, path@),
{
    let (first, rest) = match split_first_segment(path) {
        Some(split) => split,
        None => {
            return Route::Unknown;
        },
    };
    let alone = path_segments(rest.as_str()).len() == 0;
    assert(segments(path@)[0] == first@);
    assert(alone <==> segments(path@).len() == 1);
    proof {
        reveal_strlit("file");
        reveal_strlit("files");
        assert("files"@.len() != "file"@.len());
    }
    match method {
        Method::Get => {
            if same_text(first.as_str(), "file") {
                if alone {
                    Route::MissingName
                } else {
                    Route::Download(rest)
                }
            } else if alone && same_text(first.as_str(), "files") {
                Route::List
            } else {
                Route::Unknown
            }
        },
        Method::Post => {
            if alone && same_text(first.as_str(), "file") {
                Route::Upload
            } else {
                Route::Unknown
            }
        },
        Method::Other => Route::Unknown,
    }
}

/// The listed routes select what they are listed for.
pub proof fn lemma_listed_routes()
    ensures
        route_of(Method::Get, "/files"@) == RouteView::List,
        route_of(Method::Post, "/file"@) == RouteView::Upload,
        route_of(Method::Get, "/file"@) == RouteView::MissingName,
{
    reveal_strlit("/files");
    reveal_strlit("/file");
    reveal_strlit("files");
    reveal_strlit("file");
    assert(!"files"@.contains('/'));
    assert(!"file"@.contains('/'));
    assert("/files"@ =~= seq!['/'] + "files"@);
    assert("/file"@ =~= seq!['/'] + "file"@);
    assert("files"@.len() != "file"@.len());
    lemma_segments_after_separator("files"@);
    lemma_segments_after_separator("file"@);
    lemma_segments_of_piece("files"@, Seq::empty());
    lemma_segments_of_piece("file"@, Seq::empty());
}

/// A `GET` of `/file/` followed by a path that has a segment is a download
/// of that path, as the client wrote it.
pub proof fn lemma_download_route(name: Seq<char>)
    requires
        segments(name).len() > 0,
    ensures
        route_of(Method::Get, "/file/"@ + name) == RouteView::Download(name),
{
    reveal_strlit("/file/");
    reveal_strlit("file");
    reveal_strlit("files");
    let file = "file"@;
    let path = "/file/"@ + name;
    let from = file + seq!['/'] + name;
    assert(!file.contains('/'));
    assert(path =~= seq!['/'] + from);
    lemma_segments_after_separator(from);
    lemma_segments_of_piece(file, name);
    lemma_skip_separators_is(path, 1);
    assert(path.skip(1) =~= from);
    lemma_run_len_is(from, 4);
    assert(from.skip(5) =~= name);
}

/// What the caller does next for a request.
#[derive(Debug, PartialEq, Eq)]
pub enum Step {
    /// Send this reply; the request is done.
    Reply(Reply),
    /// Read the body of the request and hand it to [`upload`].
    ReadBody,
    /// Write `content` durably under `name`, which is a plain file name,
    /// then report to [`complete_upload`] whether that worked.
    Persist { name: String, content: String },
}

/// The mathematical value of a [`Step`].
pub enum StepView {
    Reply(ReplyView),
    ReadBody,
    Persist { name: Seq<char>, content: Seq<char> },
}

impl View for Step {
    type V = StepView;

    open spec fn view(&self) -> StepView {
        match self {
            Step::Reply(reply) => StepView::Reply(reply@),
            Step::ReadBody => StepView::ReadBody,
            Step::Persist { name, content } => StepView::Persist {
                name: name@,
                content: content@,
            },
        }
    }
}

/// The answer to a listing of `names`.
pub open spec fn all_reply(names: Seq<Seq<char>>) -> ReplyView {
    ReplyView {
        status: Status::Success,
        body: BodyView::Envelope {
            msg: listing_message(names.len()),
            files: Some(listing(names)),
        },
    }
}

/// The answer to a download of `name` from `index`: the content stored
/// under the sanitized name (nothing, for a record without content), or
/// the report that nothing is stored under it.
pub open spec fn download_reply(
    index: Map<Seq<char>, Option<Seq<char>>>,
    name: Seq<char>,
) -> ReplyView {
    let key = sanitized(name);
    if index.contains_key(key) {
        match index[key] {
            Some(content) => content_reply(content),
            None => content_reply(Seq::empty()),
        }
    } else {
        message_reply(Status::NotFound, not_found_message(key))
    }
}

/// The refusal of an upload that does not say what to store, or under
/// which name.
pub open spec fn missing_fields_reply() -> ReplyView {
    message_reply(Status::BadRequest, "Missing name or content in request body"@)
}

/// The step that follows the form fields `pairs` of an upload. The last
/// `name` and the last `content` given count, and a field given without a
/// value is given. The upload is refused exactly where a field is missing.
/// Otherwise the file is stored under the final component of `name`; where
/// `name` has none, no write can work, and the answer is the one for a
/// write that failed.
pub open spec fn upload_step(pairs: Seq<(Seq<char>, Seq<char>)>) -> StepView {
    match (last_value(pairs, "name"@), last_value(pairs, "content"@)) {
        (Some(name), Some(content)) => match final_component(name) {
            Some(leaf) => StepView::Persist { name: leaf, content },
            None => StepView::Reply(upload_reply(name, false)),
        },
        _ => StepView::Reply(missing_fields_reply()),
    }
}

/// The index after an upload of `content` under `name` whose durable write
/// went as `written` says.
pub open spec fn index_after(
    index: Map<Seq<char>, Option<Seq<char>>>,
    name: Seq<char>,
    content: Seq<char>,
    written: bool,
) -> Map<Seq<char>, Option<Seq<char>>> {
    if written {
        index.insert(name, Some(content))
    } else {
        index
    }
}

/// The listing order after an upload under `name` whose durable write went
/// as `written` says.
pub open spec fn names_after(names: Seq<Seq<char>>, name: Seq<char>, written: bool) -> Seq<
    Seq<char>,
> {
    if written {
        put_name(names, name)
    } else {
        names
    }
}

/// The answer to an upload under `name` whose durable write went as
/// `written` says.
pub open spec fn upload_reply(name: Seq<char>, written: bool) -> ReplyView {
    if written {
        message_reply(Status::Created, stored_message(name))
    } else {
        message_reply(Status::ServerError, write_failed_message(name))
    }
}

/// The first step for a request with `method` and `path`, against a store
/// whose index is `index` and whose listing order is `names`.
pub open spec fn first_step(
    index: Map<Seq<char>, Option<Seq<char>>>,
    names: Seq<Seq<char>>,
    method: Method,
    path: Seq<char>,
) -> StepView {
    match route_of(method, path) {
        RouteView::List => StepView::Reply(all_reply(names)),
        RouteView::Upload => StepView::ReadBody,
        RouteView::Download(name) => StepView::Reply(download_reply(index, name)),
        RouteView::MissingName => StepView::Reply(
            message_reply(Status::BadRequest, "No file path given"@),
        ),
        RouteView::Unknown => StepView::Reply(message_reply(Status::NotFound, "Not Found"@)),
    }
}

/// Lists the stored names: an envelope that reports their number and
/// carries one record per name, without content.
pub fn all(store: &FileStore) -> (reply: Reply)
    ensures
        reply@ == all_reply(store.names()),
{
    let files = store.list_all();
    assert(files.len() == views(files@).len() == store.names().len());
    let msg = listing_text(files.len());
    Reply { status: Status::Success, body: Body::Envelope { msg, files: Some(files) } }
}

/// Answers a download of `file_name`: the name is sanitized, looked up in
/// the index, and its content sent as it is.
pub fn download(store: &FileStore, file_name: &str) -> (reply: Reply)
    ensures
        reply@ == download_reply(store@, file_name@),
{
    let key = sanitize_name(file_name);
    match store.get(key.as_str()) {
        Some(record) => {
            let content = match clone_text(&record.content) {
                Some(text) => text,
                None => String::new(),
            };
            Reply { status: Status::Success, body: Body::Raw(content) }
        },
        None => {
            let msg = not_found_text(key.as_str());
            response(Status::NotFound, msg.as_str())
        },
    }
}

/// Decides an upload from its form fields.
pub fn upload_fields(pairs: &Vec<(String, String)>) -> (step: Step)
    ensures
        step@ == upload_step(pairs.deep_view()),
{
    let name = find_last(pairs, "name");
    let content = find_last(pairs, "content");
    match (name, content) {
        (Some(name), Some(content)) => match leaf_name(name.as_str()) {
            Some(leaf) => Step::Persist { name: leaf, content },
            None => {
                let msg = write_failed_text(name.as_str());
                Step::Reply(response(Status::ServerError, msg.as_str()))
            },
        },
        _ => Step::Reply(
            response(Status::BadRequest, "Missing name or content in request body"),
        ),
    }
}

/// Decides an upload from the body of the request, which is read as a
/// form.
pub fn upload(body: &[u8]) -> (step: Step)
    ensures
        step@ == upload_step(form_pairs(body@)),
{
    let pairs = parse_form(body);
    upload_fields(&pairs)
}

/// Finishes an upload once the durable write was tried. After a write that
/// worked the index holds `content` under `name`; after one that failed the
/// index is as it was.
pub fn complete_upload(
    store: &mut FileStore,
    name: String,
    content: String,
    written: bool,
) -> (reply: Reply)
    ensures
        final(store)@ == index_after(old(store)@, name@, content@, written),
        final(store).names() == names_after(old(store).names(), name@, written),
        reply@ == upload_reply(name@, written),
{
    if written {
        let msg = stored_text(name.as_str());
        store.put(name, content);
        response(Status::Created, msg.as_str())
    } else {
        let msg = write_failed_text(name.as_str());
        response(Status::ServerError, msg.as_str())
    }
}

/// Takes a request as far as it goes without its body: a reply for a
/// listing, a download or a request that selects nothing, and
/// [`Step::ReadBody`] for an upload.
pub fn response_handler(store: &FileStore, method: Method, path: &str) -> (step: Step)
    ensures
        step@ == first_step(store@, store.names(), method, path@),
{
    match route(method, path) {
        Route::List => Step::Reply(all(store)),
        Route::Upload => Step::ReadBody,
        Route::Download(name) => Step::Reply(download(store, name.as_str())),
        Route::MissingName => Step::Reply(response(Status::BadRequest, "No file path given")),
        Route::Unknown => Step::Reply(response(Status::NotFound, "Not Found")),
    }
}

} // verus!
