//! The media proxy: what is asked of the upstream, and what of its answer is passed on.
//!
//! The forwarder decides; the caller performs the request and streams the body.

use vstd::prelude::*;
use vstd::slice::slice_to_vec;
use vstd::string::{StrSliceExecFns, StringSliceAdditionalSpecFns};
use vstd::utf8::encode_utf8;
use crate::assoc::first_value;
use crate::credentials::{Token, TokenModel};
use crate::dispatch::{ErrorKind, Failure};
use crate::headers::{HeaderList, Headers};
use crate::pattern::ParamSet;
use crate::router::Method;
use crate::template::{origin_is_fixed, origin_len, render, ProxyTemplate};
use crate::text::same_text;

verus! {

/// Why the upstream did not deliver.
#[derive(Clone, Copy, Debug, PartialEq, Eq, Structural)]
pub enum Fault {
    /// The upstream URL is not one that can be asked for.
    InvalidUri,
    /// The connection failed.
    Connection,
    /// The upstream did not answer in time.
    Timeout,
    /// The upstream answered with a status that is no media response.
    Status(u16),
}

/// Why a request could not be forwarded.
#[derive(Clone, Copy, Debug, PartialEq, Eq, Structural)]
pub enum ForwardError {
    /// A placeholder of the template has no captured parameter.
    TemplateSubstitution,
    /// The upstream could not be asked, did not answer, or answered with no media.
    UpstreamUnavailable(Fault),
}

/// A name for what `http::Uri::from_str`, reached through hyper, decides of a text:
/// whether it parses as a URI.
pub uninterp spec fn uri_accepted(text: Seq<char>) -> bool;

/// `http::Uri::from_str` parses a text as a URI; whether it succeeds depends on the
/// text alone.
#[verifier::external_body]
fn parses_as_uri(text: &str) -> (ok: bool)
    ensures
        ok == uri_accepted(text@),
{
    text.parse::<hyper::Uri>().is_ok()
}

/// The header of the inbound request called `name`, if it has one, as a list.
pub open spec fn picked(inbound: HeaderList, name: Seq<char>) -> HeaderList {
    match first_value(inbound, name) {
        Some(value) => seq![(name, value)],
        None => Seq::empty(),
    }
}

/// The headers of the inbound request that are passed to the upstream: those of range
/// and conditional requests, and no other.
pub open spec fn request_headers(inbound: HeaderList) -> HeaderList {
    picked(inbound, "range"@) + picked(inbound, "if-modified-since"@) + picked(
        inbound,
        "cache-control"@,
    )
}

/// The authorization header for a token, as a list.
pub open spec fn authorization(token: Option<TokenModel>) -> HeaderList {
    match token {
        Some(t) => seq![("authorization"@, "Bearer ".spec_bytes() + encode_utf8(t.value))],
        None => Seq::empty(),
    }
}

/// Whether a header of the upstream's answer is withheld from the client: it tells of
/// the upstream's own infrastructure.
pub open spec fn withheld(name: Seq<char>) -> bool {
    ||| name == "access-control-expose-headers"@
    ||| name == "server"@
    ||| name == "vary"@
    ||| name == "etag"@
    ||| name == "x-cdn"@
    ||| name == "x-cdn-client-region"@
    ||| name == "x-cdn-name"@
    ||| name == "x-cdn-server-region"@
    ||| name == "x-reddit-cdn"@
    ||| name == "x-reddit-video-features"@
    ||| name == "nel"@
    ||| name == "report-to"@
}

/// The headers of the upstream's answer that are passed on, in their order.
pub open spec fn response_headers(upstream: HeaderList) -> HeaderList
    decreases upstream.len(),
{
    if upstream.len() == 0 {
        upstream
    } else if withheld(upstream.last().0) {
        response_headers(upstream.drop_last())
    } else {
        response_headers(upstream.drop_last()).push(upstream.last())
    }
}

/// Whether a status of the upstream is a media response: a success, or the answer
/// that a conditional request is still good.
pub open spec fn media_status(status: u16) -> bool {
    (200 <= status < 300) || status == 304
}

/// What is asked of the upstream.
#[derive(Clone, Debug, PartialEq, Eq)]
pub struct ForwardPlan {
    /// The absolute upstream URL.
    pub uri: String,
    /// The method, which is that of the inbound request.
    pub method: Method,
    /// The headers of the upstream request.
    pub headers: Headers,
}

/// The mathematical model of a [`ForwardPlan`].
pub struct PlanModel {
    pub uri: Seq<char>,
    pub method: Method,
    pub headers: HeaderList,
}

impl View for ForwardPlan {
    type V = PlanModel;

    open spec fn view(&self) -> PlanModel {
        PlanModel { uri: self.uri@, method: self.method, headers: self.headers@ }
    }
}

/// The plan for an upstream URL, given whether it parses as a URI.
pub open spec fn planned(
    url: Seq<char>,
    accepted: bool,
    method: Method,
    inbound: HeaderList,
    token: Option<TokenModel>,
) -> Result<PlanModel, ForwardError> {
    if accepted {
        Ok(PlanModel { uri: url, method, headers: request_headers(inbound) + authorization(token) })
    } else {
        Err(ForwardError::UpstreamUnavailable(Fault::InvalidUri))
    }
}

/// The status and headers of an answer.
#[derive(Clone, Debug, PartialEq, Eq)]
pub struct ResponseHead {
    pub status: u16,
    pub headers: Headers,
}

/// How the request to the upstream ended.
#[derive(Clone, Debug, PartialEq, Eq)]
pub enum UpstreamOutcome {
    /// The connection failed.
    Unreachable,
    /// The upstream did not answer in time.
    TimedOut,
    /// The upstream answered.
    Answered(ResponseHead),
}

/// What the client gets for an outcome: the status and the passed-on headers of a
/// media response, or the fault.
pub open spec fn accepted_head(outcome: UpstreamOutcome) -> Result<(u16, HeaderList), ForwardError> {
    match outcome {
        UpstreamOutcome::Unreachable => Err(ForwardError::UpstreamUnavailable(Fault::Connection)),
        UpstreamOutcome::TimedOut => Err(ForwardError::UpstreamUnavailable(Fault::Timeout)),
        UpstreamOutcome::Answered(head) => if media_status(head.status) {
            Ok((head.status, response_headers(head.headers@)))
        } else {
            Err(ForwardError::UpstreamUnavailable(Fault::Status(head.status)))
        },
    }
}

/// The upstream is sent no inbound header but those of range and conditional requests.
pub proof fn request_headers_are_allowed(inbound: HeaderList, i: int)
    requires
        0 <= i < request_headers(inbound).len(),
    ensures
        ({
            let (name, value) = request_headers(inbound)[i];
            &&& name == "range"@ || name == "if-modified-since"@ || name == "cache-control"@
            &&& first_value(inbound, name) == Some(value)
        }),
{
}

/// The client is sent no withheld header, and every other header of the upstream.
pub proof fn response_headers_are_filtered(upstream: HeaderList)
    ensures
        forall|i: int|
            0 <= i < response_headers(upstream).len() ==> !withheld(
                (#[trigger] response_headers(upstream)[i]).0,
            ) && upstream.contains(response_headers(upstream)[i]),
        forall|i: int|
            0 <= i < upstream.len() && !withheld((#[trigger] upstream[i]).0)
                ==> response_headers(upstream).contains(upstream[i]),
    decreases upstream.len(),
{
    if upstream.len() > 0 {
        let before = upstream.drop_last();
        let kept = response_headers(before);
        let all = response_headers(upstream);
        response_headers_are_filtered(before);
        assert forall|i: int| 0 <= i < all.len() implies !withheld((#[trigger] all[i]).0)
            && upstream.contains(all[i]) by {
            if i < kept.len() {
                assert(all[i] == kept[i]);
                let j = choose|j: int| 0 <= j < before.len() && before[j] == kept[i];
                assert(upstream[j] == kept[i]);
            } else {
                assert(all[i] == upstream[upstream.len() - 1]);
            }
        }
        assert forall|i: int|
            0 <= i < upstream.len() && !withheld((#[trigger] upstream[i]).0) implies all.contains(
            upstream[i],
        ) by {
            if i < before.len() {
                assert(before[i] == upstream[i]);
                let j = choose|j: int| 0 <= j < kept.len() && kept[j] == before[i];
                assert(all[j] == upstream[i]);
            } else {
                assert(all[all.len() - 1] == upstream[i]);
            }
        }
    }
}

/// Whether a header of the upstream's answer is withheld from the client.
pub fn is_withheld(name: &str) -> (r: bool)
    ensures
        r == withheld(name@),
{
    same_text(name, "access-control-expose-headers") || same_text(name, "server") || same_text(
        name,
        "vary",
    ) || same_text(name, "etag") || same_text(name, "x-cdn") || same_text(
        name,
        "x-cdn-client-region",
    ) || same_text(name, "x-cdn-name") || same_text(name, "x-cdn-server-region") || same_text(
        name,
        "x-reddit-cdn",
    ) || same_text(name, "x-reddit-video-features") || same_text(name, "nel") || same_text(
        name,
        "report-to",
    )
}

/// Copies the first header called `name` from `inbound` to the end of `out`.
fn pick(out: &mut Headers, inbound: &Headers, name: &str)
    ensures
        final(out)@ == old(out)@ + picked(inbound@, name@),
{
    let ghost before = out@;
    match inbound.get(name) {
        Some(value) => {
            out.append(name, slice_to_vec(value.as_slice()));
            assert(before.push((name@, value@)) == before + seq![(name@, value@)]);
        },
        None => {
            assert(before + HeaderList::empty() == before);
        },
    }
}

/// The headers of the inbound request that are passed to the upstream.
pub fn upstream_request_headers(inbound: &Headers) -> (out: Headers)
    ensures
        out@ == request_headers(inbound@),
{
    let mut out = Headers::new();
    assert(out@ + picked(inbound@, "range"@) == picked(inbound@, "range"@));
    pick(&mut out, inbound, "range");
    pick(&mut out, inbound, "if-modified-since");
    pick(&mut out, inbound, "cache-control");
    out
}

/// The headers of the upstream's answer that are passed on to the client.
pub fn client_response_headers(upstream: &Headers) -> (out: Headers)
    ensures
        out@ == response_headers(upstream@),
{
    let ghost all = upstream@;
    let mut out = Headers::new();
    let mut i: usize = 0;
    assert(all.take(0) == HeaderList::empty());
    while i < upstream.len()
        invariant
            i <= all.len(),
            all == upstream@,
            out@ == response_headers(all.take(i as int)),
        decreases all.len() - i,
    {
        assert(all.take(i + 1).drop_last() == all.take(i as int));
        assert(all.take(i + 1).last() == all[i as int]);
        let name = upstream.name_at(i);
        if !is_withheld(name.as_str()) {
            out.append(name.as_str(), slice_to_vec(upstream.value_at(i).as_slice()));
        }
        i += 1;
    }
    assert(all.take(all.len() as int) == all);
    out
}

/// The plan for an upstream URL of which it is known whether it parses as a URI.
pub fn plan_for(
    url: String,
    accepted: bool,
    method: Method,
    inbound: &Headers,
    token: Option<&Token>,
) -> (r: Result<ForwardPlan, ForwardError>)
    ensures
        match r {
            Ok(plan) => planned(
                url@,
                accepted,
                method,
                inbound@,
                match token {
                    Some(t) => Some(t@),
                    None => None,
                },
            ) == Ok::<PlanModel, ForwardError>(plan@),
            Err(e) => planned(
                url@,
                accepted,
                method,
                inbound@,
                match token {
                    Some(t) => Some(t@),
                    None => None,
                },
            ) == Err::<PlanModel, ForwardError>(e),
        },
{
    if !accepted {
        return Err(ForwardError::UpstreamUnavailable(Fault::InvalidUri));
    }
    let mut headers = upstream_request_headers(inbound);
    let ghost before = headers@;
    match token {
        Some(t) => {
            let mut value = "Bearer ".as_bytes_vec();
            let mut secret = t.value().as_str().as_bytes_vec();
            value.append(&mut secret);
            headers.append("authorization", value);
            assert(headers@ == before + authorization(Some(t@)));
        },
        None => {
            assert(before + authorization(None) == before);
        },
    }
    Ok(ForwardPlan { uri: url, method, headers })
}

/// What is asked of the upstream for a request that a proxy route serves.
///
/// The URL is the template filled with the captured parameters: its scheme and host
/// are the template's. The method is the inbound one. Of the inbound headers only those
/// of range and conditional requests are passed; the token, if one is given, is
/// attached as a bearer authorization.
///
/// Fails if a placeholder has no captured parameter, or if the URL does not parse.
pub fn plan(
    method: Method,
    inbound: &Headers,
    template: &ProxyTemplate,
    params: &ParamSet,
    token: Option<&Token>,
) -> (r: Result<ForwardPlan, ForwardError>)
    ensures
        match render(template@, params@) {
            None => r == Err::<ForwardPlan, ForwardError>(ForwardError::TemplateSubstitution),
            Some(url) => match r {
                Ok(plan) => planned(
                    url,
                    uri_accepted(url),
                    method,
                    inbound@,
                    match token {
                        Some(t) => Some(t@),
                        None => None,
                    },
                ) == Ok::<PlanModel, ForwardError>(plan@),
                Err(e) => planned(
                    url,
                    uri_accepted(url),
                    method,
                    inbound@,
                    match token {
                        Some(t) => Some(t@),
                        None => None,
                    },
                ) == Err::<PlanModel, ForwardError>(e),
            },
        },
        r matches Ok(plan) ==> origin_len(plan@.uri) == Some(template@.origin.len() as int)
            && plan@.uri.take(template@.origin.len() as int) == template@.origin,
{
    match template.render(params) {
        Err(_) => Err(ForwardError::TemplateSubstitution),
        Ok(url) => {
            proof {
                use_type_invariant(template);
                origin_is_fixed(template@, params@);
            }
            let accepted = parses_as_uri(url.as_str());
            plan_for(url, accepted, method, inbound, token)
        },
    }
}

/// Judges how the request to the upstream ended: a media response is passed on with
/// its status and the headers that are not withheld; anything else is a fault.
pub fn accept(outcome: UpstreamOutcome) -> (r: Result<ResponseHead, ForwardError>)
    ensures
        match r {
            Ok(head) => accepted_head(outcome) == Ok::<(u16, HeaderList), ForwardError>(
                (head.status, head.headers@),
            ),
            Err(e) => accepted_head(outcome) == Err::<(u16, HeaderList), ForwardError>(e),
        },
{
    match outcome {
        UpstreamOutcome::Unreachable => Err(ForwardError::UpstreamUnavailable(Fault::Connection)),
        UpstreamOutcome::TimedOut => Err(ForwardError::UpstreamUnavailable(Fault::Timeout)),
        UpstreamOutcome::Answered(head) => {
            if (200 <= head.status && head.status < 300) || head.status == 304 {
                let headers = client_response_headers(&head.headers);
                Ok(ResponseHead { status: head.status, headers })
            } else {
                Err(ForwardError::UpstreamUnavailable(Fault::Status(head.status)))
            }
        },
    }
}

/// The failure that the dispatcher renders for a forwarding error.
pub fn failure_of(error: ForwardError) -> (failure: Failure)
    ensures
        failure.kind == match error {
            ForwardError::TemplateSubstitution => ErrorKind::TemplateSubstitution,
            ForwardError::UpstreamUnavailable(_) => ErrorKind::UpstreamUnavailable,
        },
        failure.message@ == match error {
            ForwardError::TemplateSubstitution => "the route has no value for a parameter of its upstream address"@,
            ForwardError::UpstreamUnavailable(Fault::InvalidUri) => "the upstream address is not valid"@,
            ForwardError::UpstreamUnavailable(Fault::Connection) => "the upstream could not be reached"@,
            ForwardError::UpstreamUnavailable(Fault::Timeout) => "the upstream did not answer in time"@,
            ForwardError::UpstreamUnavailable(Fault::Status(_)) => "the upstream answered with an unexpected status"@,
        },
{
    match error {
        ForwardError::TemplateSubstitution => Failure {
            kind: ErrorKind::TemplateSubstitution,
            message: "the route has no value for a parameter of its upstream address".to_owned(),
        },
        ForwardError::UpstreamUnavailable(Fault::InvalidUri) => Failure {
            kind: ErrorKind::UpstreamUnavailable,
            message: "the upstream address is not valid".to_owned(),
        },
        ForwardError::UpstreamUnavailable(Fault::Connection) => Failure {
            kind: ErrorKind::UpstreamUnavailable,
            message: "the upstream could not be reached".to_owned(),
        },
        ForwardError::UpstreamUnavailable(Fault::Timeout) => Failure {
            kind: ErrorKind::UpstreamUnavailable,
            message: "the upstream did not answer in time".to_owned(),
        },
        ForwardError::UpstreamUnavailable(Fault::Status(_)) => Failure {
            kind: ErrorKind::UpstreamUnavailable,
            message: "the upstream answered with an unexpected status".to_owned(),
        },
    }
}

} // verus!
