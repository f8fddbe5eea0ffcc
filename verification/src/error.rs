//! What can go wrong with a built-in HTTP provider.

use vstd::prelude::*;

verus! {

/// How every error about a provider's endpoint starts.
pub const INVALID_ENDPOINT: &'static str = "Invalid provider endpoint:";

/// An error of a built-in HTTP provider.
#[derive(Clone, Debug, PartialEq, Eq)]
pub enum BuiltinHttpError {
    /// The base URL is no URL.
    InvalidEndpointUrl { message: String },
    /// The base URL is neither `http` nor `https`.
    EndpointUnsupportedScheme { scheme: String },
    /// The base URL names no host.
    EndpointMissingHost,
    /// The base URL has a query or a fragment.
    EndpointHasQueryOrFragment,
    /// The response broke off.
    SseStream { message: String },
}

/// What a `BuiltinHttpError` says.
pub enum HttpFault {
    InvalidUrl(Seq<char>),
    UnsupportedScheme(Seq<char>),
    MissingHost,
    QueryOrFragment,
    Stream(Seq<char>),
}

impl View for BuiltinHttpError {
    type V = HttpFault;

    open spec fn view(&self) -> HttpFault {
        match self {
            BuiltinHttpError::InvalidEndpointUrl { message } => HttpFault::InvalidUrl(message@),
            BuiltinHttpError::EndpointUnsupportedScheme { scheme } => HttpFault::UnsupportedScheme(
                scheme@,
            ),
            BuiltinHttpError::EndpointMissingHost => HttpFault::MissingHost,
            BuiltinHttpError::EndpointHasQueryOrFragment => HttpFault::QueryOrFragment,
            BuiltinHttpError::SseStream { message } => HttpFault::Stream(message@),
        }
    }
}

/// The text of an error.
pub open spec fn fault_text(fault: HttpFault) -> Seq<char> {
    match fault {
        HttpFault::InvalidUrl(message) => INVALID_ENDPOINT@ + " "@ + message,
        HttpFault::UnsupportedScheme(scheme) => INVALID_ENDPOINT@ + " unsupported scheme "@
            + scheme,
        HttpFault::MissingHost => INVALID_ENDPOINT@ + " missing host"@,
        HttpFault::QueryOrFragment => INVALID_ENDPOINT@ + " query and fragment are not supported"@,
        HttpFault::Stream(message) => "SSE stream failed: "@ + message,
    }
}

impl BuiltinHttpError {
    /// The text of the error.
    pub fn describe(&self) -> (text: String)
        ensures
            text@ == fault_text(self@),
    {
        let mut text: String = INVALID_ENDPOINT.to_owned();
        match self {
            BuiltinHttpError::InvalidEndpointUrl { message } => {
                text.append(" ");
                text.append(message.as_str());
            },
            BuiltinHttpError::EndpointUnsupportedScheme { scheme } => {
                text.append(" unsupported scheme ");
                text.append(scheme.as_str());
            },
            BuiltinHttpError::EndpointMissingHost => {
                text.append(" missing host");
            },
            BuiltinHttpError::EndpointHasQueryOrFragment => {
                text.append(" query and fragment are not supported");
            },
            BuiltinHttpError::SseStream { message } => {
                text = "SSE stream failed: ".to_owned();
                text.append(message.as_str());
            },
        }
        text
    }
}

/// Every error about an endpoint is told as one: its text starts with `INVALID_ENDPOINT`.
pub proof fn law_endpoint_errors_name_the_endpoint(fault: HttpFault)
    requires
        !(fault is Stream),
    ensures
        INVALID_ENDPOINT@.is_prefix_of(fault_text(fault)),
{
    let text = fault_text(fault);
    assert(text.subrange(0, INVALID_ENDPOINT@.len() as int) =~= INVALID_ENDPOINT@);
}

/// An error says which it is, and holds the message or the scheme that caused it as it is.
pub proof fn law_error_holds_its_cause(cause: Seq<char>)
    ensures
        fault_text(HttpFault::InvalidUrl(cause)) == "Invalid provider endpoint:"@ + " "@ + cause,
        fault_text(HttpFault::UnsupportedScheme(cause)) == "Invalid provider endpoint:"@
            + " unsupported scheme "@ + cause,
        fault_text(HttpFault::Stream(cause)) == "SSE stream failed: "@ + cause,
        cause.is_suffix_of(fault_text(HttpFault::InvalidUrl(cause))),
        cause.is_suffix_of(fault_text(HttpFault::UnsupportedScheme(cause))),
        cause.is_suffix_of(fault_text(HttpFault::Stream(cause))),
        fault_text(HttpFault::MissingHost) == "Invalid provider endpoint:"@ + " missing host"@,
        fault_text(HttpFault::QueryOrFragment) == "Invalid provider endpoint:"@
            + " query and fragment are not supported"@,
{
    let url = fault_text(HttpFault::InvalidUrl(cause));
    let scheme = fault_text(HttpFault::UnsupportedScheme(cause));
    let stream = fault_text(HttpFault::Stream(cause));
    assert(url.subrange(url.len() - cause.len(), url.len() as int) =~= cause);
    assert(scheme.subrange(scheme.len() - cause.len(), scheme.len() as int) =~= cause);
    assert(stream.subrange(stream.len() - cause.len(), stream.len() as int) =~= cause);
}

/// What an error says is its kind and its cause, and nothing of either is lost.
pub proof fn law_error_says_its_kind_and_cause(error: BuiltinHttpError)
    ensures
        error matches BuiltinHttpError::InvalidEndpointUrl { message } ==> error@
            == HttpFault::InvalidUrl(message@),
        error matches BuiltinHttpError::EndpointUnsupportedScheme { scheme } ==> error@
            == HttpFault::UnsupportedScheme(scheme@),
        error is EndpointMissingHost ==> error@ == HttpFault::MissingHost,
        error is EndpointHasQueryOrFragment ==> error@ == HttpFault::QueryOrFragment,
        error matches BuiltinHttpError::SseStream { message } ==> error@ == HttpFault::Stream(
            message@,
        ),
{
}

} // verus!
