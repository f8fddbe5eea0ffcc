//! Base URLs of providers and the endpoints below them.

use crate::delta::{self, ChatDelta, Delta, StopReason};
use crate::error::{self, BuiltinHttpError, HttpFault};
use crate::text::{self, ends_with, same_text, trim_end_char};
use vstd::prelude::*;

verus! {

/// Where Anthropic takes messages.
pub const MESSAGES_PATH: &'static str = "/v1/messages";

/// The parts of a URL that decide whether a provider can be reached by it.
#[derive(Clone, Debug, PartialEq, Eq)]
pub struct UrlParts {
    pub scheme: String,
    pub host: Option<String>,
    pub query: Option<String>,
    pub fragment: Option<String>,
    /// The URL as a whole, in its normal form.
    pub full: String,
}

/// What `UrlParts` say.
pub struct Url {
    pub scheme: Seq<char>,
    pub host: Option<Seq<char>>,
    pub query: Option<Seq<char>>,
    pub fragment: Option<Seq<char>>,
    pub full: Seq<char>,
}

/// What an optional string says.
pub open spec fn optional_text(text: Option<String>) -> Option<Seq<char>> {
    match text {
        Some(text) => Some(text@),
        None => None,
    }
}

impl View for UrlParts {
    type V = Url;

    open spec fn view(&self) -> Url {
        Url {
            scheme: self.scheme@,
            host: optional_text(self.host),
            query: optional_text(self.query),
            fragment: optional_text(self.fragment),
            full: self.full@,
        }
    }
}

/// What came of reading a URL: its parts, or what is wrong with it.
pub open spec fn parsed_view(parsed: Result<UrlParts, String>) -> Result<Url, Seq<char>> {
    match parsed {
        Ok(parts) => Ok(parts@),
        Err(message) => Err(message@),
    }
}

/// What `reqwest::Url::parse` reads from a text: the parts of the URL, as its accessors give
/// them, or the text of the error.
pub uninterp spec fn url_parse(text: Seq<char>) -> Result<Url, Seq<char>>;

/// `reqwest::Url::parse`, and the parts of the URL by `scheme`, `host_str`, `query`, `fragment`
/// and `as_str`: they depend on the text alone. The name `url_parse` stands for the URL
/// grammar.
#[verifier::external_body]
pub(crate) fn parse_url(text: &str) -> (parsed: Result<UrlParts, String>)
    ensures
        parsed_view(parsed) == url_parse(text@),
{
    match reqwest::Url::parse(text) {
        Ok(url) => Ok(
            UrlParts {
                scheme: url.scheme().to_string(),
                host: url.host_str().map(|host| host.to_string()),
                query: url.query().map(|query| query.to_string()),
                fragment: url.fragment().map(|fragment| fragment.to_string()),
                full: url.as_str().to_string(),
            },
        ),
        Err(error) => Err(error.to_string()),
    }
}

/// The base URL that a URL gives: it has to be `http` or `https`, to name a host, and to have
/// neither query nor fragment. Slashes at its end are dropped.
pub open spec fn base_url_of(parsed: Result<Url, Seq<char>>) -> Result<Seq<char>, HttpFault> {
    match parsed {
        Err(message) => Err(HttpFault::InvalidUrl(message)),
        Ok(url) => if url.scheme != "http"@ && url.scheme != "https"@ {
            Err(HttpFault::UnsupportedScheme(url.scheme))
        } else if url.host is None {
            Err(HttpFault::MissingHost)
        } else if url.query is Some || url.fragment is Some {
            Err(HttpFault::QueryOrFragment)
        } else {
            Ok(text::without_trailing(url.full, '/'))
        },
    }
}

/// What came of normalizing a base URL.
pub open spec fn normalized_view(result: Result<String, BuiltinHttpError>) -> Result<
    Seq<char>,
    HttpFault,
> {
    match result {
        Ok(base) => Ok(base@),
        Err(error) => Err(error@),
    }
}

/// The base URL that a parsed URL gives, or why a provider cannot be reached by it.
pub fn checked_base_url(parsed: Result<UrlParts, String>) -> (base: Result<
    String,
    BuiltinHttpError,
>)
    ensures
        normalized_view(base) == base_url_of(parsed_view(parsed)),
{
    let url = match parsed {
        Ok(url) => url,
        Err(message) => {
            return Err(BuiltinHttpError::InvalidEndpointUrl { message });
        },
    };
    if !same_text(url.scheme.as_str(), "http") && !same_text(url.scheme.as_str(), "https") {
        return Err(BuiltinHttpError::EndpointUnsupportedScheme { scheme: url.scheme });
    }
    if url.host.is_none() {
        return Err(BuiltinHttpError::EndpointMissingHost);
    }
    if url.query.is_some() || url.fragment.is_some() {
        return Err(BuiltinHttpError::EndpointHasQueryOrFragment);
    }
    Ok(trim_end_char(url.full.as_str(), '/').to_owned())
}

/// Normalizes the base URL of a provider.
pub fn normalize_provider_base_url(base_url: &str) -> (base: Result<String, BuiltinHttpError>)
    ensures
        normalized_view(base) == base_url_of(url_parse(base_url@)),
{
    checked_base_url(parse_url(base_url))
}

/// A base URL without white space around it and slashes at its end.
pub open spec fn bare_base(base_url: Seq<char>) -> Seq<char> {
    text::without_trailing(text::trimmed(base_url), '/')
}

/// The endpoint for `path` below a base URL. A base URL that is an endpoint for `path` already
/// stays what it is, and the version in Anthropic's path is not repeated.
pub open spec fn endpoint(base_url: Seq<char>, path: Seq<char>) -> Seq<char> {
    let base = bare_base(base_url);
    if path.is_suffix_of(base) {
        base
    } else if path == MESSAGES_PATH@ && "/v1"@.is_suffix_of(base) {
        base + "/messages"@
    } else {
        base + path
    }
}

/// The endpoint for `path` below a base URL.
pub fn provider_endpoint(base_url: &str, path: &str) -> (url: String)
    ensures
        url@ == endpoint(base_url@, path@),
{
    let base = trim_end_char(base_url.trim(), '/');
    let mut url: String = base.to_owned();
    if ends_with(base, path) {
        return url;
    }
    if same_text(path, MESSAGES_PATH) && ends_with(base, "/v1") {
        url.append("/messages");
    } else {
        url.append(path);
    }
    url
}

/// How a turn ends that cannot start: with the error, and as aborted.
pub open spec fn refused(fault: HttpFault) -> Seq<Delta> {
    seq![Delta::Error(error::fault_text(fault)), Delta::Done(StopReason::Aborted)]
}

/// The events of a turn that cannot start.
pub fn refused_turn(error: &BuiltinHttpError) -> (deltas: Vec<ChatDelta>)
    ensures
        delta::all_viewed(deltas@) == refused(error@),
{
    let mut deltas: Vec<ChatDelta> = Vec::new();
    deltas.push(ChatDelta::Error(error.describe()));
    deltas.push(ChatDelta::Done { stop_reason: StopReason::Aborted });
    assert(delta::all_viewed(deltas@) =~= refused(error@));
    deltas
}

/// Where to send the request of a turn, or the events of the turn where its provider cannot be
/// reached.
pub fn turn_endpoint(base_url: &str, path: &str) -> (target: Result<String, Vec<ChatDelta>>)
    ensures
        match (target, base_url_of(url_parse(base_url@))) {
            (Ok(url), Ok(base)) => url@ == endpoint(base, path@),
            (Err(deltas), Err(fault)) => delta::all_viewed(deltas@) == refused(fault),
            _ => false,
        },
{
    match normalize_provider_base_url(base_url) {
        Ok(base) => Ok(provider_endpoint(base.as_str(), path)),
        Err(error) => Err(refused_turn(&error)),
    }
}

/// A base URL is taken from a URL only if it is `http` or `https`, names a host, and has neither
/// query nor fragment; and no slash is left at its end.
pub proof fn law_accepted_base_url(url: Url)
    requires
        base_url_of(Ok(url)) is Ok,
    ensures
        url.scheme == "http"@ || url.scheme == "https"@,
        url.host is Some,
        url.query is None,
        url.fragment is None,
        base_url_of(Ok(url))->Ok_0.is_prefix_of(url.full),
        base_url_of(Ok(url))->Ok_0.len() > 0 ==> base_url_of(Ok(url))->Ok_0.last() != '/',
{
    text::lemma_without_trailing(url.full, '/');
}

/// To normalize a base URL that was normalized changes nothing, if it is read again as the same
/// URL, be it with the slash that an empty path is given.
pub proof fn law_normalized_base_url_is_stable(url: Url, again: Url)
    requires
        base_url_of(Ok(url)) is Ok,
        again.full == base_url_of(Ok(url))->Ok_0 || again.full == base_url_of(Ok(url))->Ok_0
            + "/"@,
        again.scheme == url.scheme,
        again.host == url.host,
        again.query == url.query,
        again.fragment == url.fragment,
    ensures
        base_url_of(Ok(again)) == base_url_of(Ok(url)),
{
    let base = text::without_trailing(url.full, '/');
    reveal_strlit("/");
    text::lemma_without_trailing(url.full, '/');
    text::lemma_without_trailing_run(base, "/"@, '/');
}

/// A turn whose provider cannot be reached is answered with exactly two events: an error that
/// names the endpoint, and the end of the turn as aborted.
pub proof fn law_refused_turn_names_the_endpoint(parsed: Result<Url, Seq<char>>)
    requires
        base_url_of(parsed) is Err,
    ensures
        ({
            let turn = refused(base_url_of(parsed)->Err_0);
            &&& turn.len() == 2
            &&& turn[0] matches Delta::Error(message) && error::INVALID_ENDPOINT@.is_prefix_of(
                message,
            )
            &&& turn[1] == Delta::Done(StopReason::Aborted)
        }),
{
    error::law_endpoint_errors_name_the_endpoint(base_url_of(parsed)->Err_0);
}

/// An endpoint leads to its path, whatever the base URL is.
pub proof fn law_endpoint_ends_with_its_path(base_url: Seq<char>, path: Seq<char>)
    ensures
        path.is_suffix_of(endpoint(base_url, path)),
{
    let base = bare_base(base_url);
    let url = endpoint(base_url, path);
    if path.is_suffix_of(base) {
    } else if path == MESSAGES_PATH@ && "/v1"@.is_suffix_of(base) {
        reveal_strlit("/v1");
        reveal_strlit("/messages");
        reveal_strlit("/v1/messages");
        assert(base =~= base.take(base.len() - 3) + "/v1"@);
        assert(url.subrange(url.len() - path.len(), url.len() as int) =~= path);
    } else {
        assert(url.subrange(url.len() - path.len(), url.len() as int) =~= path);
    }
}

/// A base URL that is a full endpoint already is preserved, but for white space around it and
/// slashes at its end.
pub proof fn law_full_endpoint_is_preserved(base_url: Seq<char>, path: Seq<char>)
    requires
        path.is_suffix_of(bare_base(base_url)),
    ensures
        endpoint(base_url, path) == bare_base(base_url),
{
}

proof fn lemma_bare_base_is_inside(base_url: Seq<char>)
    ensures
        bare_base(base_url).len() > 0 ==> !text::white_space(bare_base(base_url).first()),
{
    text::lemma_trimmed_start(base_url);
    text::lemma_trimmed_end(text::trimmed_start(base_url));
    text::lemma_without_trailing(text::trimmed(base_url), '/');
}

/// An endpoint is an endpoint for its path: to take it for a base URL changes nothing. The path
/// must not start with white space, nor end with white space or a slash, since a base URL is
/// freed of them.
pub proof fn law_endpoint_is_stable(base_url: Seq<char>, path: Seq<char>)
    requires
        path.len() > 0,
        !text::white_space(path.first()),
        !text::white_space(path.last()),
        path.last() != '/',
    ensures
        endpoint(endpoint(base_url, path), path) == endpoint(base_url, path),
{
    let url = endpoint(base_url, path);
    law_endpoint_ends_with_its_path(base_url, path);
    lemma_bare_base_is_inside(base_url);
    assert(url.last() == path.last()) by {
        assert(url.subrange(url.len() - path.len(), url.len() as int).last() == url.last());
    }
    let base = bare_base(base_url);
    reveal_strlit("/v1");
    if base.len() > 0 {
        assert(url.first() == base.first());
    } else {
        assert(url =~= path);
    }
}

/// White space around a base URL makes no difference to the endpoints below it.
pub proof fn law_white_space_makes_no_difference(
    before: Seq<char>,
    base_url: Seq<char>,
    behind: Seq<char>,
    path: Seq<char>,
)
    requires
        forall|i: int| 0 <= i < before.len() ==> text::white_space(#[trigger] before[i]),
        forall|i: int| 0 <= i < behind.len() ==> text::white_space(#[trigger] behind[i]),
    ensures
        endpoint(before + base_url + behind, path) == endpoint(base_url, path),
{
    text::lemma_trimmed_away(before);
    text::lemma_trimmed_away(behind);
    text::lemma_trimmed_start_concat(before, base_url);
    text::lemma_trimmed_start_concat(before + base_url, behind);
    text::lemma_trimmed_end_concat(text::trimmed_start(base_url), behind);
}

/// Slashes behind a base URL make no difference to the endpoints below it. Where white space
/// stands at the end of the base URL, slashes would put it inside.
pub proof fn law_trailing_slashes_make_no_difference(
    base_url: Seq<char>,
    slashes: Seq<char>,
    path: Seq<char>,
)
    requires
        forall|i: int| 0 <= i < slashes.len() ==> #[trigger] slashes[i] == '/',
        slashes.len() > 0 && text::trimmed(base_url).len() > 0 ==> !text::white_space(
            base_url.last(),
        ),
    ensures
        endpoint(base_url + slashes, path) == endpoint(base_url, path),
{
    let start = text::trimmed_start(base_url);
    if slashes.len() == 0 {
        assert(base_url + slashes =~= base_url);
    } else {
        text::lemma_trimmed_start(base_url);
        text::lemma_trimmed_start_concat(base_url, slashes);
        text::lemma_without_trailing_run(start, slashes, '/');
        assert(slashes.first() == '/' && slashes.last() == '/');
        if start.len() > 0 {
            assert(start =~= seq![start.first()] + start.drop_first());
            text::lemma_trimmed_end_concat(seq![start.first()], start.drop_first());
            assert(text::trimmed_end(seq![start.first()]) == seq![start.first()]);
            assert((start + slashes).last() == '/');
        } else {
            assert(start + slashes =~= slashes);
        }
    }
}

/// Every URL that a provider can be reached by is accepted, and no other: it has to be `http` or
/// `https`, to name a host, whichever, and to have neither query nor fragment. What is taken of
/// it is its text up to the slashes at its end.
pub proof fn law_reachable_url_is_accepted(url: Url)
    ensures
        base_url_of(Ok(url)) is Ok <==> {
            &&& url.scheme == "http"@ || url.scheme == "https"@
            &&& url.host is Some
            &&& url.query is None
            &&& url.fragment is None
        },
        base_url_of(Ok(url)) matches Ok(base) ==> {
            &&& base.is_prefix_of(url.full)
            &&& forall|i: int| base.len() <= i < url.full.len() ==> #[trigger] url.full[i] == '/'
            &&& base.len() > 0 ==> base.last() != '/'
        },
{
    lemma_dropped_are_trailing(url.full, '/');
}

/// A base URL is refused for what is wrong with it, and the scheme goes before the host, the
/// host before query and fragment.
pub proof fn law_base_url_is_refused_for_its_fault(url: Url, message: Seq<char>)
    ensures
        base_url_of(Err(message)) == Err::<Seq<char>, HttpFault>(HttpFault::InvalidUrl(message)),
        url.scheme != "http"@ && url.scheme != "https"@ ==> base_url_of(Ok(url)) == Err::<
            Seq<char>,
            HttpFault,
        >(HttpFault::UnsupportedScheme(url.scheme)),
        (url.scheme == "http"@ || url.scheme == "https"@) && url.host is None ==> base_url_of(
            Ok(url),
        ) == Err::<Seq<char>, HttpFault>(HttpFault::MissingHost),
        (url.scheme == "http"@ || url.scheme == "https"@) && url.host is Some && (url.query is Some
            || url.fragment is Some) ==> base_url_of(Ok(url)) == Err::<Seq<char>, HttpFault>(
            HttpFault::QueryOrFragment,
        ),
{
}

proof fn lemma_dropped_are_trailing(text: Seq<char>, c: char)
    ensures
        text::without_trailing(text, c).is_prefix_of(text),
        forall|i: int|
            text::without_trailing(text, c).len() <= i < text.len() ==> #[trigger] text[i] == c,
        text::without_trailing(text, c).len() > 0 ==> text::without_trailing(text, c).last() != c,
    decreases text.len(),
{
    if text.len() > 0 && text.last() == c {
        lemma_dropped_are_trailing(text.drop_last(), c);
        assert forall|i: int|
            text::without_trailing(text, c).len() <= i < text.len() implies #[trigger] text[i]
            == c by {
            if i < text.len() - 1 {
                assert(text[i] == text.drop_last()[i]);
            }
        }
    }
}

/// The parts of a URL are taken as they are.
pub proof fn law_url_parts_are_kept(parts: UrlParts)
    ensures
        parts@.scheme == parts.scheme@,
        parts@.full == parts.full@,
        parts@.host is Some <==> parts.host is Some,
        parts.host is Some ==> parts@.host == Some(parts.host->0@),
        parts@.query is Some <==> parts.query is Some,
        parts@.fragment is Some <==> parts.fragment is Some,
        parsed_view(Ok(parts)) == Ok::<Url, Seq<char>>(parts@),
{
}

/// What came of normalizing is told as it is.
pub proof fn law_normalized_result_is_kept(result: Result<String, BuiltinHttpError>)
    ensures
        result matches Ok(base) ==> normalized_view(result) == Ok::<Seq<char>, HttpFault>(base@),
        result matches Err(error) ==> normalized_view(result) == Err::<Seq<char>, HttpFault>(
            error@,
        ),
{
}

/// An endpoint is the base URL, freed of the white space around it and the slashes at its end,
/// followed by the path and nothing else, unless the base URL ends with the path already or,
/// for Anthropic's path, with its version.
pub proof fn law_endpoint_is_base_and_path(base_url: Seq<char>, path: Seq<char>)
    ensures
        ({
            let base = text::without_trailing(text::trimmed(base_url), '/');
            let url = endpoint(base_url, path);
            &&& base.is_prefix_of(url)
            &&& path.is_suffix_of(base) ==> url == base
            &&& !path.is_suffix_of(base) && path == "/v1/messages"@ && "/v1"@.is_suffix_of(base)
                ==> url == base + "/messages"@
            &&& !path.is_suffix_of(base) && !(path == "/v1/messages"@ && "/v1"@.is_suffix_of(base))
                ==> url == base + path && url.len() == base.len() + path.len()
        }),
{
    let base = text::without_trailing(text::trimmed(base_url), '/');
    let url = endpoint(base_url, path);
    assert(url.subrange(0, base.len() as int) =~= base);
}

/// What is put behind a path is put behind its endpoint, where the base URL ends with neither
/// path and none is Anthropic's.
pub proof fn law_path_is_put_behind_as_it_is(
    base_url: Seq<char>,
    path: Seq<char>,
    more: Seq<char>,
)
    requires
        !path.is_suffix_of(text::without_trailing(text::trimmed(base_url), '/')),
        !(path + more).is_suffix_of(text::without_trailing(text::trimmed(base_url), '/')),
        path != "/v1/messages"@,
        path + more != "/v1/messages"@,
    ensures
        endpoint(base_url, path + more) == endpoint(base_url, path) + more,
{
    assert(endpoint(base_url, path + more) =~= endpoint(base_url, path) + more);
}

/// A turn that cannot start is answered with the text of its fault and its end as aborted, and
/// with nothing else.
pub proof fn law_refused_turn_tells_its_fault(fault: HttpFault)
    ensures
        refused(fault).len() == 2,
        refused(fault)[0] == Delta::Error(error::fault_text(fault)),
        refused(fault)[1] == Delta::Done(StopReason::Aborted),
{
}

} // verus!
