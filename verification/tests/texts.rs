use rust_cdn::reply::listing_text;
use rust_cdn::reply::not_found_text;
use rust_cdn::reply::response;
use rust_cdn::reply::startup_text;
use rust_cdn::reply::stored_text;
use rust_cdn::reply::write_failed_text;
use rust_cdn::reply::Body;
use rust_cdn::reply::Reply;
use rust_cdn::reply::Status;
use rust_cdn::text::chars_of;
use rust_cdn::text::decimal_string;
use rust_cdn::text::same_text;

#[test]
fn decimal_of_small_numbers() {
    assert_eq!(decimal_string(0), "0");
    assert_eq!(decimal_string(7), "7");
    assert_eq!(decimal_string(9), "9");
    assert_eq!(decimal_string(10), "10");
    assert_eq!(decimal_string(42), "42");
    assert_eq!(decimal_string(100), "100");
    assert_eq!(decimal_string(1234567890), "1234567890");
}

#[test]
fn decimal_of_the_largest_number() {
    assert_eq!(decimal_string(usize::MAX), usize::MAX.to_string());
}

#[test]
fn decimal_agrees_with_the_usual_writing() {
    for n in 0..2000usize {
        assert_eq!(decimal_string(n), n.to_string());
    }
}

#[test]
fn chars_of_a_text() {
    assert_eq!(chars_of(""), Vec::<char>::new());
    assert_eq!(chars_of("a/b"), vec!['a', '/', 'b']);
    assert_eq!(chars_of("\u{e9}\u{1f600}"), vec!['\u{e9}', '\u{1f600}']);
}

#[test]
fn same_text_compares_characters() {
    assert!(same_text("", ""));
    assert!(same_text("file", "file"));
    assert!(!same_text("file", "files"));
    assert!(!same_text("file", "File"));
    assert!(!same_text("", " "));
}

#[test]
fn status_codes() {
    assert_eq!(Status::Success.code(), 200);
    assert_eq!(Status::Created.code(), 201);
    assert_eq!(Status::BadRequest.code(), 400);
    assert_eq!(Status::NotFound.code(), 404);
    assert_eq!(Status::ServerError.code(), 500);
}

#[test]
fn messages_quote_the_name() {
    assert_eq!(stored_text("hello.txt"), "Stored file 'hello.txt'");
    assert_eq!(stored_text(""), "Stored file ''");
    assert_eq!(not_found_text("unknown.txt"), "File 'unknown.txt' not found in store");
    assert_eq!(write_failed_text("a b"), "Failed to store file 'a b'");
}

#[test]
fn listing_message_counts() {
    assert_eq!(listing_text(0), "Got no files");
    assert_eq!(listing_text(1), "Got 1 files");
    assert_eq!(listing_text(2), "Got 2 files");
    assert_eq!(listing_text(1000), "Got 1000 files");
}

#[test]
fn startup_line_counts() {
    assert_eq!(startup_text(0), "cdn: Found 0 File(s) on disk, loading into memory store");
    assert_eq!(startup_text(12), "cdn: Found 12 File(s) on disk, loading into memory store");
}

#[test]
fn response_wraps_the_message() {
    assert_eq!(
        response(Status::NotFound, "Not Found"),
        Reply {
            status: Status::NotFound,
            body: Body::Envelope { msg: "Not Found".to_string(), files: None },
        }
    );
}
