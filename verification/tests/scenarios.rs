use rust_cdn::handler::complete_upload;
use rust_cdn::handler::download;
use rust_cdn::handler::response_handler;
use rust_cdn::handler::upload;
use rust_cdn::handler::Method;
use rust_cdn::handler::Step;
use rust_cdn::record::FileRecord;
use rust_cdn::reply::Body;
use rust_cdn::reply::Reply;
use rust_cdn::reply::Status;
use rust_cdn::store::FileStore;

fn envelope(status: Status, msg: &str) -> Reply {
    Reply { status, body: Body::Envelope { msg: msg.to_string(), files: None } }
}

fn raw(content: &str) -> Reply {
    Reply { status: Status::Success, body: Body::Raw(content.to_string()) }
}

/// Drives one request to its reply, as a server would; `disk_ok` says
/// whether the durable write works.
fn serve(store: &mut FileStore, method: Method, path: &str, body: &[u8], disk_ok: bool) -> Reply {
    let mut step = response_handler(store, method, path);
    loop {
        step = match step {
            Step::Reply(reply) => return reply,
            Step::ReadBody => upload(body),
            Step::Persist { name, content } => {
                Step::Reply(complete_upload(store, name, content, disk_ok))
            }
        };
    }
}

#[test]
fn upload_then_download() {
    let mut store = FileStore::new();
    assert_eq!(response_handler(&store, Method::Post, "/file"), Step::ReadBody);
    let step = upload(b"name=hello.txt&content=world");
    assert_eq!(
        step,
        Step::Persist { name: "hello.txt".to_string(), content: "world".to_string() }
    );
    let reply = match step {
        Step::Persist { name, content } => complete_upload(&mut store, name, content, true),
        _ => unreachable!(),
    };
    assert_eq!(reply.status.code(), 201);
    assert_eq!(reply, envelope(Status::Created, "Stored file 'hello.txt'"));
    let step = response_handler(&store, Method::Get, "/file/hello.txt");
    assert_eq!(step, Step::Reply(raw("world")));
}

#[test]
fn listing_of_an_empty_store() {
    let mut store = FileStore::new();
    let reply = serve(&mut store, Method::Get, "/files", b"", true);
    assert_eq!(reply.status.code(), 200);
    assert_eq!(
        reply.body,
        Body::Envelope { msg: "Got no files".to_string(), files: Some(vec![]) }
    );
}

#[test]
fn listing_reports_the_number_of_files() {
    let mut store = FileStore::new();
    serve(&mut store, Method::Post, "/file", b"name=a.txt&content=1", true);
    let reply = serve(&mut store, Method::Get, "/files", b"", true);
    assert_eq!(
        reply,
        Reply {
            status: Status::Success,
            body: Body::Envelope {
                msg: "Got 1 files".to_string(),
                files: Some(vec![FileRecord { name: "a.txt".to_string(), content: None }]),
            },
        }
    );
    serve(&mut store, Method::Post, "/file", b"name=b.txt&content=2", true);
    let reply = serve(&mut store, Method::Get, "/files", b"", true);
    assert_eq!(
        reply.body,
        Body::Envelope {
            msg: "Got 2 files".to_string(),
            files: Some(vec![
                FileRecord { name: "a.txt".to_string(), content: None },
                FileRecord { name: "b.txt".to_string(), content: None },
            ]),
        }
    );
}

#[test]
fn upload_without_content_is_refused() {
    let mut store = FileStore::new();
    let reply = serve(&mut store, Method::Post, "/file", b"name=hello.txt", true);
    assert_eq!(reply.status.code(), 400);
    assert_eq!(
        reply,
        envelope(Status::BadRequest, "Missing name or content in request body")
    );
    assert_eq!(store.len(), 0);
}

#[test]
fn upload_without_name_is_refused() {
    let mut store = FileStore::new();
    let reply = serve(&mut store, Method::Post, "/file", b"content=world", true);
    assert_eq!(
        reply,
        envelope(Status::BadRequest, "Missing name or content in request body")
    );
    let reply = serve(&mut store, Method::Post, "/file", b"", true);
    assert_eq!(
        reply,
        envelope(Status::BadRequest, "Missing name or content in request body")
    );
    assert_eq!(store.len(), 0);
}

#[test]
fn upload_with_empty_content_stores_an_empty_text() {
    let mut store = FileStore::new();
    let reply = serve(&mut store, Method::Post, "/file", b"name=empty.txt&content=", true);
    assert_eq!(reply, envelope(Status::Created, "Stored file 'empty.txt'"));
    assert_eq!(
        store.get("empty.txt"),
        Some(&FileRecord { name: "empty.txt".to_string(), content: Some(String::new()) })
    );
    assert_eq!(serve(&mut store, Method::Get, "/file/empty.txt", b"", true), raw(""));
}

#[test]
fn download_of_an_unknown_file() {
    let mut store = FileStore::new();
    let reply = serve(&mut store, Method::Get, "/file/unknown.txt", b"", true);
    assert_eq!(reply.status.code(), 404);
    assert_eq!(
        reply,
        envelope(Status::NotFound, "File 'unknown.txt' not found in store")
    );
}

#[test]
fn download_without_a_name() {
    let mut store = FileStore::new();
    let reply = serve(&mut store, Method::Get, "/file", b"", true);
    assert_eq!(reply.status.code(), 400);
    assert_eq!(reply, envelope(Status::BadRequest, "No file path given"));
    let reply = serve(&mut store, Method::Get, "/file/", b"", true);
    assert_eq!(reply, envelope(Status::BadRequest, "No file path given"));
}

#[test]
fn download_of_a_file_named_file() {
    let mut store = FileStore::new();
    store.put("file".to_string(), "inner".to_string());
    assert_eq!(serve(&mut store, Method::Get, "/file/file", b"", true), raw("inner"));
}

#[test]
fn download_looks_up_the_leaf_of_a_traversal_path() {
    let mut store = FileStore::new();
    store.put("passwd".to_string(), "not the real one".to_string());
    assert_eq!(download(&store, "../../etc/passwd"), raw("not the real one"));
    let empty = FileStore::new();
    assert_eq!(
        download(&empty, "../../etc/passwd"),
        envelope(Status::NotFound, "File 'passwd' not found in store")
    );
}

#[test]
fn download_of_a_record_without_content_sends_nothing() {
    let mut store = FileStore::new();
    store.insert(FileRecord { name: "blob".to_string(), content: None });
    assert_eq!(download(&store, "blob"), raw(""));
}

#[test]
fn failed_write_leaves_the_index_untouched() {
    let mut store = FileStore::new();
    serve(&mut store, Method::Post, "/file", b"name=a.txt&content=old", true);
    let reply = serve(&mut store, Method::Post, "/file", b"name=a.txt&content=new", false);
    assert_eq!(reply.status.code(), 500);
    assert_eq!(reply, envelope(Status::ServerError, "Failed to store file 'a.txt'"));
    assert_eq!(serve(&mut store, Method::Get, "/file/a.txt", b"", true), raw("old"));
    let reply = serve(&mut store, Method::Post, "/file", b"name=b.txt&content=x", false);
    assert_eq!(reply, envelope(Status::ServerError, "Failed to store file 'b.txt'"));
    assert_eq!(store.len(), 1);
    assert_eq!(store.get("b.txt"), None);
}

#[test]
fn reupload_replaces_the_content() {
    let mut store = FileStore::new();
    serve(&mut store, Method::Post, "/file", b"name=a.txt&content=one", true);
    serve(&mut store, Method::Post, "/file", b"name=a.txt&content=two", true);
    assert_eq!(serve(&mut store, Method::Get, "/file/a.txt", b"", true), raw("two"));
    assert_eq!(store.len(), 1);
}

#[test]
fn unknown_routes_are_not_found() {
    let mut store = FileStore::new();
    let not_found = envelope(Status::NotFound, "Not Found");
    assert_eq!(not_found.status.code(), 404);
    assert_eq!(serve(&mut store, Method::Get, "/", b"", true), not_found);
    assert_eq!(serve(&mut store, Method::Get, "", b"", true), not_found);
    assert_eq!(serve(&mut store, Method::Get, "/other", b"", true), not_found);
    assert_eq!(serve(&mut store, Method::Get, "/files/extra", b"", true), not_found);
    let body = b"name=a&content=b";
    assert_eq!(serve(&mut store, Method::Post, "/file/extra", body, true), not_found);
    assert_eq!(store.len(), 0);
    assert_eq!(serve(&mut store, Method::Post, "/files", b"", true), not_found);
    assert_eq!(serve(&mut store, Method::Other, "/files", b"", true), not_found);
    assert_eq!(serve(&mut store, Method::Other, "/file", b"", true), not_found);
    assert_eq!(serve(&mut store, Method::Other, "/file/a", b"", true), not_found);
}

#[test]
fn request_for_a_traversal_path_looks_up_the_leaf() {
    let mut store = FileStore::new();
    store.put("passwd".to_string(), "x".to_string());
    let reply = serve(&mut store, Method::Get, "/file/../../etc/passwd", b"", true);
    assert_eq!(reply.status.code(), 200);
    assert_eq!(reply, raw("x"));
    let mut empty = FileStore::new();
    assert_eq!(
        serve(&mut empty, Method::Get, "/file/../../etc/passwd", b"", true),
        envelope(Status::NotFound, "File 'passwd' not found in store")
    );
}

#[test]
fn upload_under_a_traversal_name_stores_the_leaf() {
    let mut store = FileStore::new();
    let reply = serve(&mut store, Method::Post, "/file", b"name=../evil.txt&content=x", true);
    assert_eq!(reply, envelope(Status::Created, "Stored file 'evil.txt'"));
    assert_eq!(store.len(), 1);
    assert_eq!(store.get("../evil.txt"), None);
    assert_eq!(
        store.get("evil.txt"),
        Some(&FileRecord { name: "evil.txt".to_string(), content: Some("x".to_string()) })
    );
    assert_eq!(serve(&mut store, Method::Get, "/file/../evil.txt", b"", true), raw("x"));
    assert_eq!(serve(&mut store, Method::Get, "/file/evil.txt", b"", true), raw("x"));
}

#[test]
fn upload_under_two_spellings_of_a_name_replaces_the_file() {
    let mut store = FileStore::new();
    serve(&mut store, Method::Post, "/file", b"name=a.txt&content=old", true);
    serve(&mut store, Method::Post, "/file", b"name=./a.txt&content=new", true);
    assert_eq!(store.len(), 1);
    assert_eq!(serve(&mut store, Method::Get, "/file/a.txt", b"", true), raw("new"));
}

#[test]
fn upload_under_a_name_that_names_no_file_is_a_server_error() {
    let mut store = FileStore::new();
    store.put("a".to_string(), "old".to_string());
    let cases = [
        (&b"name=&content=x"[..], "Failed to store file ''"),
        (b"name=..&content=x", "Failed to store file '..'"),
        (b"name=a/..&content=x", "Failed to store file 'a/..'"),
    ];
    for (body, msg) in cases {
        let reply = serve(&mut store, Method::Post, "/file", body, true);
        assert_eq!(reply.status.code(), 500);
        assert_eq!(reply, envelope(Status::ServerError, msg));
    }
    assert_eq!(store.len(), 1);
    assert_eq!(serve(&mut store, Method::Get, "/file/a", b"", true), raw("old"));
}
