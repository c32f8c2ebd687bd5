//! The requests that go to the upstream providers, and which of their answers are failures.
use vstd::prelude::*;

use crate::adaptor::{build_claude_messages_url, build_openai_chat_url, endpoint};
use crate::error::{ProxyError, ProxyResult};
use crate::request::{streaming_body, with_stream_options};
use crate::text::{concat, utf8_lossy, utf8_lossy_text};
use crate::types::ChannelProvider;

verus! {

/// The headers by which a provider knows its client.
pub open spec fn credential_headers(provider: ChannelProvider, api_key: Seq<char>) -> Seq<
    (Seq<char>, Seq<char>),
> {
    match provider {
        ChannelProvider::Anthropic => seq![
            ("x-api-key"@, api_key),
            ("anthropic-version"@, "2023-06-01"@),
        ],
        ChannelProvider::OpenaiCompatible => seq![("Authorization"@, "Bearer "@ + api_key)],
    }
}

/// The views of headers.
pub open spec fn header_views(v: Seq<(String, String)>) -> Seq<(Seq<char>, Seq<char>)> {
    v.map_values(|h: (String, String)| (h.0@, h.1@))
}

/// The headers by which a provider knows its client.
pub fn auth_headers(provider: ChannelProvider, api_key: &str) -> (r: Vec<(String, String)>)
    ensures
        header_views(r@) == credential_headers(provider, api_key@),
{
    let mut r: Vec<(String, String)> = Vec::new();
    match provider {
        ChannelProvider::Anthropic => {
            r.push(("x-api-key".to_owned(), api_key.to_owned()));
            r.push(("anthropic-version".to_owned(), "2023-06-01".to_owned()));
        },
        ChannelProvider::OpenaiCompatible => {
            r.push(("Authorization".to_owned(), concat("Bearer ", api_key)));
        },
    }
    proof {
        assert(header_views(r@) =~= credential_headers(provider, api_key@));
    }
    r
}

/// A request to an upstream provider, sent as a POST.
#[derive(Debug, PartialEq, Eq)]
pub struct UpstreamRequest {
    pub url: String,
    pub headers: Vec<(String, String)>,
    pub body: String,
}

/// Where a provider takes requests for completions.
pub open spec fn completion_url(provider: ChannelProvider, base_url: Seq<char>) -> Seq<char> {
    match provider {
        ChannelProvider::Anthropic => endpoint(base_url, "/messages"@),
        ChannelProvider::OpenaiCompatible => endpoint(base_url, "/chat/completions"@),
    }
}

/// The request for a completion: the body is sent as it is, but a streaming request to an OpenAI
/// compatible provider asks for usage reports too.
pub fn upstream_request(
    provider: ChannelProvider,
    base_url: &str,
    api_key: &str,
    body: &str,
    streaming: bool,
) -> (r: UpstreamRequest)
    ensures
        r.url@ == completion_url(provider, base_url@),
        header_views(r.headers@) == credential_headers(provider, api_key@).push(
            ("Content-Type"@, "application/json"@),
        ),
        r.body@ == if streaming && provider == ChannelProvider::OpenaiCompatible {
            streaming_body(body@)
        } else {
            body@
        },
{
    let mut headers = auth_headers(provider, api_key);
    let ghost known = headers@;
    headers.push(("Content-Type".to_owned(), "application/json".to_owned()));
    proof {
        assert(header_views(headers@) =~= header_views(known).push(
            ("Content-Type"@, "application/json"@),
        ));
    }
    match provider {
        ChannelProvider::Anthropic => UpstreamRequest {
            url: build_claude_messages_url(base_url),
            headers,
            body: body.to_owned(),
        },
        ChannelProvider::OpenaiCompatible => UpstreamRequest {
            url: build_openai_chat_url(base_url),
            headers,
            body: if streaming {
                with_stream_options(body)
            } else {
                body.to_owned()
            },
        },
    }
}

/// Whether an answer with this status is a failure.
pub fn is_failure_status(status: u16) -> (r: bool)
    ensures
        r == (status >= 400),
{
    status >= 400
}

/// The answer of a provider, or the failure that its status makes it: the failure holds the
/// status and the text of the body.
pub fn accept_answer(status: u16, body: Vec<u8>) -> (r: ProxyResult<(u16, Vec<u8>)>)
    ensures
        match r {
            Ok(answer) => status < 400 && answer == (status, body),
            Err(e) => status >= 400 && (e matches ProxyError::Upstream { status: s, body: text }
                && s == status && text@ == utf8_lossy(body@)),
        },
{
    if is_failure_status(status) {
        Err(ProxyError::Upstream { status, body: utf8_lossy_text(body.as_slice()) })
    } else {
        Ok((status, body))
    }
}

/// The key of a request goes into the header of its provider, and into no other.
pub proof fn law_keys_go_into_their_header(provider: ChannelProvider, api_key: Seq<char>)
    ensures
        provider == ChannelProvider::OpenaiCompatible ==> {
            &&& credential_headers(provider, api_key).len() == 1
            &&& credential_headers(provider, api_key)[0] == ("Authorization"@, "Bearer "@ + api_key)
        },
        provider == ChannelProvider::Anthropic ==> {
            &&& credential_headers(provider, api_key).len() == 2
            &&& credential_headers(provider, api_key)[0] == ("x-api-key"@, api_key)
            &&& credential_headers(provider, api_key)[1].0 == "anthropic-version"@
        },
{
}

/// A request for a completion goes to the path that its provider has for it.
pub proof fn law_completions_go_to_their_path(base_url: Seq<char>)
    ensures
        completion_url(ChannelProvider::OpenaiCompatible, base_url) == endpoint(
            base_url,
            "/chat/completions"@,
        ),
        completion_url(ChannelProvider::Anthropic, base_url) == endpoint(base_url, "/messages"@),
{
}

} // verus!
