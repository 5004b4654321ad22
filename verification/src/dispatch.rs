//! The per-connection decisions: what each way a request can go is answered
//! with, as a status code and a body for the response writer.

use vstd::prelude::*;

verus! {

/// What became of one attempt to run the interpreter.
pub enum RunOutcome {
    /// The process was launched and has exited; its two output streams were
    /// captured whole.
    Completed { stdout: String, stderr: String },
    /// The process could not be started at all; `error` is the launcher's
    /// own description.
    LaunchFailed { error: String },
}

/// Every way the handling of one connection can end. Each carries exactly
/// the information the response needs.
pub enum RequestOutcome {
    /// `GET /`: the static informational page is served.
    StaticPage,
    /// Any unrecognised method or path.
    NotFound,
    /// The connection failed while the request was being read.
    ReadFailure,
    /// The scratch directory or file could not be created or written.
    FilesystemFailure,
    /// `POST /api/interpreter` with no body or a zero `Content-Length`.
    MissingBody,
    /// A body from which no command could be extracted.
    BadPayload,
    /// The interpreter pipeline ran to this outcome.
    Ran(RunOutcome),
}

/// The informational page served on `GET /`.
pub open spec fn static_page_text() -> Seq<char> {
    "<!DOCTYPE html>\n<html lang=\"en\">\n<head>\n    <meta charset=\"UTF-8\">\n    <meta name=\"viewport\" content=\"width=device-width, initial-scale=1.0\">\n    <title>Flurion's Python Bindings for MinePy mod</title>\n</head>\n<body>\n    <h1>Helper is running.</h1>\n</body>\n</html>"@
}

/// The status code each outcome is answered with. A completed interpreter
/// run is a success even when the interpreter wrote to standard error: the
/// caller reads the body, not the status, to tell those apart.
pub open spec fn status_of(o: RequestOutcome) -> u32 {
    match o {
        RequestOutcome::StaticPage => 200,
        RequestOutcome::NotFound => 404,
        RequestOutcome::ReadFailure => 500,
        RequestOutcome::FilesystemFailure => 500,
        RequestOutcome::MissingBody => 400,
        RequestOutcome::BadPayload => 400,
        RequestOutcome::Ran(r) => match r {
            RunOutcome::Completed { .. } => 200,
            RunOutcome::LaunchFailed { .. } => 500,
        },
    }
}

/// The body that reports a completed or failed interpreter run: standard
/// output verbatim when standard error stayed empty, otherwise the error
/// text and the output, each under its prefix.
pub open spec fn run_body(r: RunOutcome) -> Seq<char> {
    match r {
        RunOutcome::Completed { stdout, stderr } => {
            if stderr@.len() == 0 {
                stdout@
            } else {
                "Error: "@ + stderr@ + "\nOutput: "@ + stdout@
            }
        },
        RunOutcome::LaunchFailed { error } => "Failed to execute python: "@ + error@,
    }
}

/// The response body for each outcome.
pub open spec fn body_of(o: RequestOutcome) -> Seq<char> {
    match o {
        RequestOutcome::StaticPage => static_page_text(),
        RequestOutcome::NotFound => "Not Found"@,
        RequestOutcome::ReadFailure => "Internal Server Error"@,
        RequestOutcome::FilesystemFailure => "Internal Server Error"@,
        RequestOutcome::MissingBody => "Bad Request: Missing body"@,
        RequestOutcome::BadPayload => "Bad Request: Invalid JSON"@,
        RequestOutcome::Ran(r) => run_body(r),
    }
}

/// Maps an outcome to the status code and body of its response, exactly as
/// [`status_of`] and [`body_of`] lay them down.
pub fn respond_to(o: &RequestOutcome) -> (r: (u32, String))
    ensures
        r.0 == status_of(*o),
        r.1@ == body_of(*o),
{
    match o {
        RequestOutcome::StaticPage => (200, static_page()),
        RequestOutcome::NotFound => (404, String::from_str("Not Found")),
        RequestOutcome::ReadFailure => (500, String::from_str("Internal Server Error")),
        RequestOutcome::FilesystemFailure => (500, String::from_str("Internal Server Error")),
        RequestOutcome::MissingBody => (400, String::from_str("Bad Request: Missing body")),
        RequestOutcome::BadPayload => (400, String::from_str("Bad Request: Invalid JSON")),
        RequestOutcome::Ran(run) => match run {
            RunOutcome::Completed { stdout, stderr } => {
                if stderr.as_str().is_empty() {
                    (200, stdout.clone())
                } else {
                    let mut b = String::from_str("Error: ");
                    b.append(stderr.as_str());
                    b.append("\nOutput: ");
                    b.append(stdout.as_str());
                    proof {
                        assert(b@ =~= run_body(*run));
                    }
                    (200, b)
                }
            },
            RunOutcome::LaunchFailed { error } => {
                let mut b = String::from_str("Failed to execute python: ");
                b.append(error.as_str());
                (500, b)
            },
        },
    }
}

/// The static informational page, exactly [`static_page_text`].
pub fn static_page() -> (r: String)
    ensures
        r@ == static_page_text(),
{
    String::from_str(
        "<!DOCTYPE html>\n<html lang=\"en\">\n<head>\n    <meta charset=\"UTF-8\">\n    <meta name=\"viewport\" content=\"width=device-width, initial-scale=1.0\">\n    <title>Flurion's Python Bindings for MinePy mod</title>\n</head>\n<body>\n    <h1>Helper is running.</h1>\n</body>\n</html>",
    )
}

} // verus!
