//! The dispatcher: resolution of a request, and the default headers that every response
//! leaves with.

use vstd::prelude::*;
use vstd::string::{StrSliceExecFns, StringExecFns, StringSliceAdditionalSpecFns};
use vstd::utf8::encode_utf8;
use crate::assoc::{
    distinct_keys, first_value, lemma_merged_has_extra, lemma_merged_twice, merged,
};
use crate::headers::{text_value, valid_value, HeaderList, Headers};
use crate::forward::ResponseHead;
use crate::path::split_segments;
use crate::response::{Response, ResponseModel};
use crate::router::{resolve_route, Method, Resolution, Router};

verus! {

/// The kinds of failure that the gateway tells apart.
#[derive(Clone, Copy, Debug, PartialEq, Eq, Structural)]
pub enum ErrorKind {
    /// No registered route serves the request.
    RouteNotFound,
    /// The upstream could not be reached, timed out, or answered with an unexpected status.
    UpstreamUnavailable,
    /// A template names a parameter that the route did not capture.
    TemplateSubstitution,
    /// The upstream credential could not be refreshed.
    TokenRefreshFailed,
    /// A bundled asset could not be decoded.
    AssetDecode,
}

/// A failure on its way to the client.
#[derive(Clone, Debug, PartialEq, Eq)]
pub struct Failure {
    pub kind: ErrorKind,
    /// What the error page says.
    pub message: String,
}

/// The status that a failure is answered with: 404 where nothing was found, 500 otherwise.
pub open spec fn status_of(kind: ErrorKind) -> u16 {
    match kind {
        ErrorKind::RouteNotFound => 404,
        _ => 500,
    }
}

/// The policy that scripts, styles and media come from the gateway itself.
pub open spec fn content_policy() -> Seq<u8> {
    "default-src 'none'; font-src 'self'; script-src 'self' blob:; manifest-src 'self'; media-src 'self' data: blob: about:; style-src 'self' 'unsafe-inline'; base-uri 'none'; img-src 'self' data:; form-action 'self'; frame-ancestors 'none'; connect-src 'self'; worker-src blob:;".spec_bytes()
}

/// The headers that every response carries, whatever the configuration.
pub open spec fn fixed_headers() -> HeaderList {
    seq![
        ("referrer-policy"@, "no-referrer".spec_bytes()),
        ("x-content-type-options"@, "nosniff".spec_bytes()),
        ("x-frame-options"@, "DENY".spec_bytes()),
        ("content-security-policy"@, content_policy()),
    ]
}

/// The value of the transport security header for a maximum age.
pub open spec fn transport_security(max_age: Seq<char>) -> Seq<u8> {
    encode_utf8("max-age="@ + max_age)
}

/// The default headers: the fixed ones and, where a maximum age is configured and
/// gives a value that can be sent, the transport security header.
pub open spec fn default_header_list(max_age: Option<Seq<char>>) -> HeaderList {
    match max_age {
        Some(age) => if valid_value(transport_security(age)) {
            fixed_headers().push(("strict-transport-security"@, transport_security(age)))
        } else {
            fixed_headers()
        },
        None => fixed_headers(),
    }
}

/// The response that leaves the dispatcher for what a handler returned: the handler's
/// response, or an error page for its failure, with the default headers set in it.
pub open spec fn finished(defaults: HeaderList, outcome: Result<ResponseModel, (ErrorKind, Seq<char>)>)
    -> ResponseModel {
    match outcome {
        Ok(response) => ResponseModel {
            status: response.status,
            headers: merged(response.headers, defaults),
            body: response.body,
        },
        Err((kind, message)) => ResponseModel {
            status: status_of(kind),
            headers: merged(
                seq![("content-type"@, "text/plain; charset=utf-8".spec_bytes())],
                defaults,
            ),
            body: encode_utf8(message),
        },
    }
}

/// The default headers name no header twice.
pub proof fn lemma_defaults_distinct(max_age: Option<Seq<char>>)
    ensures
        distinct_keys(default_header_list(max_age)),
{
    reveal_strlit("referrer-policy");
    reveal_strlit("x-content-type-options");
    reveal_strlit("x-frame-options");
    reveal_strlit("content-security-policy");
    reveal_strlit("strict-transport-security");
    assert("referrer-policy"@[0] != "x-frame-options"@[0]);
    let list = default_header_list(max_age);
    assert forall|i: int, j: int| 0 <= i < j < list.len() implies (#[trigger] list[i]).0 != (
    #[trigger] list[j]).0 by {
        assert(list[i].0.len() != list[j].0.len() || (i == 0 && j == 2));
    }
}

/// The default headers are on every response that leaves the dispatcher, with their
/// values, whether a handler answered or failed; so a response and an error page carry
/// the same default names.
pub proof fn defaults_on_every_response(
    max_age: Option<Seq<char>>,
    outcome: Result<ResponseModel, (ErrorKind, Seq<char>)>,
    i: int,
)
    requires
        0 <= i < default_header_list(max_age).len(),
    ensures
        ({
            let defaults = default_header_list(max_age);
            first_value(finished(defaults, outcome).headers, defaults[i].0) == Some(defaults[i].1)
        }),
{
    let defaults = default_header_list(max_age);
    lemma_defaults_distinct(max_age);
    match outcome {
        Ok(response) => {
            lemma_merged_has_extra(response.headers, defaults, i);
        },
        Err((kind, message)) => {
            lemma_merged_has_extra(
                seq![("content-type"@, "text/plain; charset=utf-8".spec_bytes())],
                defaults,
                i,
            );
        },
    }
}

/// Setting the default headers once is enough: a second merge changes no header's value.
pub proof fn defaults_merge_once(
    max_age: Option<Seq<char>>,
    headers: HeaderList,
    name: Seq<char>,
)
    ensures
        ({
            let defaults = default_header_list(max_age);
            first_value(merged(merged(headers, defaults), defaults), name) == first_value(
                merged(headers, defaults),
                name,
            )
        }),
{
    lemma_defaults_distinct(max_age);
    lemma_merged_twice(headers, default_header_list(max_age), name);
}

/// The default headers for a configuration.
pub fn default_headers(max_age: Option<&str>) -> (headers: Headers)
    ensures
        headers@ == default_header_list(
            match max_age {
                Some(age) => Some(age@),
                None => None,
            },
        ),
{
    let mut headers = Headers::new();
    headers.append("referrer-policy", "no-referrer".as_bytes_vec());
    headers.append("x-content-type-options", "nosniff".as_bytes_vec());
    headers.append("x-frame-options", "DENY".as_bytes_vec());
    headers.append(
        "content-security-policy",
        "default-src 'none'; font-src 'self'; script-src 'self' blob:; manifest-src 'self'; media-src 'self' data: blob: about:; style-src 'self' 'unsafe-inline'; base-uri 'none'; img-src 'self' data:; form-action 'self'; frame-ancestors 'none'; connect-src 'self'; worker-src blob:;".as_bytes_vec(),
    );
    assert(headers@ == fixed_headers());
    match max_age {
        Some(age) => {
            let mut text = String::from_str("max-age=");
            text.append(age);
            match text_value(text.as_str()) {
                Some(value) => {
                    headers.append("strict-transport-security", value);
                },
                None => {},
            }
        },
        None => {},
    }
    headers
}

/// The dispatcher: a route table and the default headers, both fixed at startup.
pub struct Dispatcher {
    router: Router,
    defaults: Headers,
    max_age: Ghost<Option<Seq<char>>>,
}

impl Dispatcher {
    /// The default headers are those of the configuration.
    #[verifier::type_invariant]
    pub open spec fn valid(&self) -> bool {
        self.defaults() == default_header_list(self.max_age())
    }

    /// The route table.
    pub closed spec fn routes(&self) -> Router {
        self.router
    }

    /// The default headers.
    pub closed spec fn defaults(&self) -> HeaderList {
        self.defaults@
    }

    /// The configured maximum age of the transport security header.
    pub closed spec fn max_age(&self) -> Option<Seq<char>> {
        self.max_age@
    }

    /// A dispatcher over the routes, with the default headers of the configuration.
    pub fn new(router: Router, max_age: Option<&str>) -> (dispatcher: Dispatcher)
        ensures
            dispatcher.routes() == router,
            dispatcher.max_age() == match max_age {
                Some(age) => Some(age@),
                None => None,
            },
            dispatcher.defaults() == default_header_list(dispatcher.max_age()),
    {
        let defaults = default_headers(max_age);
        Dispatcher {
            router,
            defaults,
            max_age: Ghost(
                match max_age {
                    Some(age) => Some(age@),
                    None => None,
                },
            ),
        }
    }

    /// The route table.
    pub fn router(&self) -> (router: &Router)
        ensures
            *router == self.routes(),
    {
        &self.router
    }

    /// The default headers.
    pub fn default_headers(&self) -> (headers: &Headers)
        ensures
            headers@ == self.defaults(),
            headers@ == default_header_list(self.max_age()),
    {
        proof {
            use_type_invariant(self);
        }
        &self.defaults
    }

    /// Finds the route that serves a request; see [`Router::resolve`].
    pub fn resolve(&self, method: Method, path: &str) -> (r: Option<Resolution<'_>>)
        ensures
            match r {
                Some(found) => resolve_route(self.routes()@, method, split_segments(path@))
                    == Some((found.route as int, found.params@)) && found.route
                    < self.routes()@.len() && found.handler@
                    == self.routes()@[found.route as int].handler,
                None => resolve_route(self.routes()@, method, split_segments(path@)) is None,
            },
    {
        self.router.resolve(method, path)
    }

    /// Turns what a handler returned into the response that is sent: the default
    /// headers are set in the handler's response, or in the error page that stands for
    /// its failure.
    pub fn finish(&self, outcome: Result<Response, Failure>) -> (r: Response)
        ensures
            r@ == finished(
                self.defaults(),
                match outcome {
                    Ok(response) => Ok(response@),
                    Err(failure) => Err((failure.kind, failure.message@)),
                },
            ),
    {
        let mut response = match outcome {
            Ok(response) => response,
            Err(failure) => {
                let mut headers = Headers::new();
                headers.append("content-type", "text/plain; charset=utf-8".as_bytes_vec());
                assert(headers@ == seq![
                    ("content-type"@, "text/plain; charset=utf-8".spec_bytes()),
                ]);
                let status: u16 = match failure.kind {
                    ErrorKind::RouteNotFound => 404,
                    _ => 500,
                };
                Response { status, headers, body: failure.message.as_str().as_bytes_vec() }
            },
        };
        response.headers.merge(&self.defaults);
        response
    }

    /// The response for a request that nothing serves: an error page with `message`,
    /// with the default headers.
    pub fn not_found(&self, message: &str) -> (r: Response)
        ensures
            r@ == finished(self.defaults(), Err((ErrorKind::RouteNotFound, message@))),
            r@.status == 404,
            r@.body == encode_utf8(message@),
    {
        self.finish(Err(Failure { kind: ErrorKind::RouteNotFound, message: message.to_owned() }))
    }

    /// Sets the default headers in the head of a response whose body is streamed.
    pub fn finish_head(&self, head: ResponseHead) -> (r: ResponseHead)
        ensures
            r.status == head.status,
            r.headers@ == merged(head.headers@, self.defaults()),
    {
        let mut head = head;
        head.headers.merge(&self.defaults);
        head
    }
}

} // verus!
