use fpb::dispatch::{respond_to, static_page, RequestOutcome, RunOutcome};
use fpb::extract::extract_command;
use fpb::request::{header_content_length, route_request, Route};
use fpb::response::build_response;

#[test]
fn content_length_counts_body_bytes() {
    let r = build_response(200, "hi");
    assert_eq!(
        r,
        "HTTP/1.1 200 OK\r\nContent-Length: 2\r\nContent-Type: text/plain\r\n\r\nhi"
    );
}

#[test]
fn content_length_counts_bytes_not_characters() {
    // One character, two bytes in UTF-8.
    let r = build_response(200, "\u{e9}");
    assert!(r.starts_with("HTTP/1.1 200 OK\r\nContent-Length: 2\r\n"));
}

#[test]
fn get_root_serves_html_page() {
    assert_eq!(route_request("GET / HTTP/1.1\r\n"), Route::StaticPage);
    let (status, body) = respond_to(&RequestOutcome::StaticPage);
    assert_eq!(status, 200);
    assert_eq!(body, static_page());
    let response = build_response(status, &body);
    assert!(response.starts_with("HTTP/1.1 200 OK\r\n"));
    assert!(response.contains("Content-Type: text/html\r\n"));
    assert!(response.contains("<!DOCTYPE html"));
}

#[test]
fn post_interpreter_without_body_is_rejected() {
    assert_eq!(
        route_request("POST /api/interpreter HTTP/1.1\r\n"),
        Route::Interpreter
    );
    assert_eq!(header_content_length("Content-Length: 0\r\n"), Some(0));
    let (status, body) = respond_to(&RequestOutcome::MissingBody);
    assert_eq!(status, 400);
    assert_eq!(body, "Bad Request: Missing body");
    let response = build_response(status, &body);
    assert!(response.starts_with("HTTP/1.1 400 Bad Request\r\n"));
    assert!(response.contains("Content-Type: text/plain\r\n"));
}

#[test]
fn post_interpreter_with_unparseable_body_is_rejected() {
    assert_eq!(extract_command("not-json"), None);
    let (status, body) = respond_to(&RequestOutcome::BadPayload);
    assert_eq!(status, 400);
    assert_eq!(body, "Bad Request: Invalid JSON");
}

#[test]
fn command_runs_and_output_is_returned() {
    let cmd = extract_command("{\"command\": \"print(1+1)\"}");
    assert_eq!(cmd, Some("print(1+1)".to_string()));
    let outcome = RequestOutcome::Ran(RunOutcome::Completed {
        stdout: "2\n".to_string(),
        stderr: String::new(),
    });
    let (status, body) = respond_to(&outcome);
    assert_eq!(status, 200);
    assert_eq!(body, "2\n");
    let response = build_response(status, &body);
    assert!(response.starts_with("HTTP/1.1 200 OK\r\nContent-Length: 2\r\n"));
}

#[test]
fn interpreter_errors_ride_in_a_successful_response() {
    let outcome = RequestOutcome::Ran(RunOutcome::Completed {
        stdout: String::new(),
        stderr: "NameError: name 'x' is not defined\n".to_string(),
    });
    let (status, body) = respond_to(&outcome);
    assert_eq!(status, 200);
    assert_eq!(body, "Error: NameError: name 'x' is not defined\n\nOutput: ");
    assert!(body.starts_with("Error: "));
}

#[test]
fn launch_failure_is_an_internal_error() {
    let outcome = RequestOutcome::Ran(RunOutcome::LaunchFailed {
        error: "No such file or directory (os error 2)".to_string(),
    });
    let (status, body) = respond_to(&outcome);
    assert_eq!(status, 500);
    assert_eq!(
        body,
        "Failed to execute python: No such file or directory (os error 2)"
    );
}

#[test]
fn unknown_routes_are_not_found() {
    assert_eq!(route_request("GET /missing HTTP/1.1\r\n"), Route::Unknown);
    assert_eq!(route_request("PUT /api/interpreter HTTP/1.1\r\n"), Route::Unknown);
    assert_eq!(route_request(""), Route::Unknown);
    let (status, body) = respond_to(&RequestOutcome::NotFound);
    assert_eq!(status, 404);
    assert_eq!(body, "Not Found");
    let response = build_response(status, &body);
    assert!(response.starts_with("HTTP/1.1 404 Not Found\r\n"));
}

#[test]
fn read_failure_is_an_internal_error() {
    let (status, body) = respond_to(&RequestOutcome::ReadFailure);
    assert_eq!(status, 500);
    assert_eq!(body, "Internal Server Error");
    let response = build_response(status, &body);
    assert!(response.starts_with("HTTP/1.1 500 Internal Server Error\r\n"));
}

#[test]
fn unrecognised_status_shares_the_bad_request_phrase() {
    let r = build_response(418, "x");
    assert!(r.starts_with("HTTP/1.1 418 Bad Request\r\n"));
}

#[test]
fn request_line_is_trimmed_before_routing() {
    assert_eq!(route_request("  GET / HTTP/1.1  \r\n"), Route::StaticPage);
}

#[test]
fn header_declares_content_length() {
    assert_eq!(header_content_length("Content-Length: 42\r\n"), Some(42));
    assert_eq!(header_content_length("CONTENT-LENGTH:7\r\n"), Some(7));
    assert_eq!(header_content_length("content-length: +5\r\n"), Some(5));
    assert_eq!(header_content_length("Host: localhost:6914\r\n"), None);
    assert_eq!(header_content_length("Content-Type: text/plain\r\n"), None);
}

#[test]
fn unparseable_content_length_defaults_to_zero() {
    assert_eq!(header_content_length("Content-Length: abc\r\n"), Some(0));
    assert_eq!(header_content_length("Content-Length:\r\n"), Some(0));
    assert_eq!(
        header_content_length("Content-Length: 99999999999999999999999999\r\n"),
        Some(0)
    );
}
