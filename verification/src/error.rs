//! The error that a tool call ends with, and the messages that the fetch gives.

use vstd::prelude::*;

verus! {

/// The message for a URL that leads to a private or loopback address.
pub const FETCH_URL_NON_PUBLIC: &'static str =
    "FetchURL does not fetch private or loopback addresses.";

/// The message for a URL of another scheme than http and https.
pub const FETCH_URL_SCHEME: &'static str = "FetchURL supports only http and https URLs.";

/// The message for a URL without a host.
pub const FETCH_URL_INCOMPLETE: &'static str =
    "FetchURL requires a fully-formed public http or https URL.";

/// The message for a host whose addresses could not be found.
pub const FETCH_URL_UNVERIFIED: &'static str =
    "FetchURL could not verify that the URL is public.";

/// The message for a page behind too many redirects.
pub const FETCH_URL_TOO_MANY_REDIRECTS: &'static str = "FetchURL failed: too many redirects.";

/// The message for a response that announces more than the fetch takes.
pub const FETCH_URL_TOO_LARGE: &'static str =
    "FetchURL refused a response that exceeded the size limit.";

/// An error that a tool call ends with.
#[derive(Debug, PartialEq, Eq)]
pub enum FunctionCallError {
    /// The text is handed to the model as the result of the call.
    RespondToModel(String),
}

impl View for FunctionCallError {
    type V = Seq<char>;

    open spec fn view(&self) -> Seq<char> {
        match self {
            FunctionCallError::RespondToModel(text) => text@,
        }
    }
}

/// The error with the given message.
pub(crate) fn respond(message: &str) -> (err: FunctionCallError)
    ensures
        err@ == message@,
{
    FunctionCallError::RespondToModel(message.to_string())
}

/// The error whose message is `before`, `detail` and `after` in a row.
pub(crate) fn respond_with(before: &str, detail: &str, after: &str) -> (err: FunctionCallError)
    ensures
        err@ == before@ + detail@ + after@,
{
    let mut message = before.to_string();
    message.append(detail);
    message.append(after);
    FunctionCallError::RespondToModel(message)
}

/// The refusal of a URL that leads to a private or loopback address.
pub fn non_public_url_error() -> (err: FunctionCallError)
    ensures
        err@ == FETCH_URL_NON_PUBLIC@,
{
    respond(FETCH_URL_NON_PUBLIC)
}

/// The failure that the HTTP client reports as `detail`.
pub fn fetch_failed(detail: &str) -> (err: FunctionCallError)
    ensures
        err@ == "FetchURL failed: "@ + detail@,
{
    let err = respond_with("FetchURL failed: ", detail, "");
    proof {
        reveal_strlit("");
        assert(err@ == "FetchURL failed: "@ + detail@);
    }
    err
}

/// The failure of a URL that cannot be read, with what is wrong with it.
pub fn invalid_url(detail: &str) -> (err: FunctionCallError)
    ensures
        err@ == "Invalid URL: "@ + detail@,
{
    let err = respond_with("Invalid URL: ", detail, "");
    proof {
        reveal_strlit("");
        assert(err@ == "Invalid URL: "@ + detail@);
    }
    err
}

/// The failure of a response with the status that `status_text` spells.
pub fn http_failure(status_text: &str) -> (err: FunctionCallError)
    ensures
        err@ == "FetchURL failed with HTTP "@ + status_text@ + "."@,
{
    respond_with("FetchURL failed with HTTP ", status_text, ".")
}

/// An error hands the model its text and nothing else.
pub proof fn law_error_text(message: String)
    ensures
        FunctionCallError::RespondToModel(message)@ == message@,
{
}

/// The messages read as promised.
pub proof fn law_messages()
    ensures
        FETCH_URL_NON_PUBLIC@ == "FetchURL does not fetch private or loopback addresses."@,
        FETCH_URL_SCHEME@ == "FetchURL supports only http and https URLs."@,
        FETCH_URL_INCOMPLETE@ == "FetchURL requires a fully-formed public http or https URL."@,
        FETCH_URL_UNVERIFIED@ == "FetchURL could not verify that the URL is public."@,
        FETCH_URL_TOO_MANY_REDIRECTS@ == "FetchURL failed: too many redirects."@,
        FETCH_URL_TOO_LARGE@ == "FetchURL refused a response that exceeded the size limit."@,
{
}

} // verus!
