use gateway::credentials::Token;
use gateway::dispatch::ErrorKind;
use gateway::forward::{
    accept, client_response_headers, failure_of, is_withheld, plan, plan_for,
    upstream_request_headers, Fault, ForwardError, ResponseHead, UpstreamOutcome,
};
use gateway::headers::Headers;
use gateway::path::split_path;
use gateway::pattern::{ParamSet, Pattern};
use gateway::router::Method;
use gateway::template::ProxyTemplate;

fn headers(pairs: &[(&str, &str)]) -> Headers {
    let mut out = Headers::new();
    for (name, value) in pairs {
        out.append(name, value.as_bytes().to_vec());
    }
    out
}

fn captured(pattern: &str, path: &str) -> ParamSet {
    Pattern::parse(pattern).unwrap().capture(&split_path(path)).unwrap()
}

#[test]
fn only_range_and_conditional_headers_go_upstream() {
    let inbound = headers(&[
        ("cookie", "session=1"),
        ("cache-control", "no-cache"),
        ("host", "gateway.example"),
        ("range", "bytes=0-99"),
        ("authorization", "Basic x"),
        ("if-modified-since", "Wed, 21 Oct 2015 07:28:00 GMT"),
        ("range", "bytes=5-6"),
    ]);
    assert_eq!(
        upstream_request_headers(&inbound),
        headers(&[
            ("range", "bytes=0-99"),
            ("if-modified-since", "Wed, 21 Oct 2015 07:28:00 GMT"),
            ("cache-control", "no-cache"),
        ])
    );
    assert_eq!(upstream_request_headers(&headers(&[("cookie", "a")])), Headers::new());
    assert_eq!(upstream_request_headers(&Headers::new()), Headers::new());
}

#[test]
fn infrastructure_headers_are_withheld_from_the_client() {
    let upstream = headers(&[
        ("content-type", "image/jpeg"),
        ("server", "upstream"),
        ("etag", "\"abc\""),
        ("content-length", "3"),
        ("vary", "accept"),
        ("x-cdn", "f"),
        ("x-cdn-client-region", "eu"),
        ("x-cdn-name", "f"),
        ("x-cdn-server-region", "eu"),
        ("x-reddit-cdn", "f"),
        ("x-reddit-video-features", "x"),
        ("nel", "{}"),
        ("report-to", "{}"),
        ("access-control-expose-headers", "x"),
        ("cache-control", "max-age=60"),
        ("set-cookie", "a=1"),
        ("set-cookie", "b=2"),
    ]);
    assert_eq!(
        client_response_headers(&upstream),
        headers(&[
            ("content-type", "image/jpeg"),
            ("content-length", "3"),
            ("cache-control", "max-age=60"),
            ("set-cookie", "a=1"),
            ("set-cookie", "b=2"),
        ])
    );
    assert!(is_withheld("server"));
    assert!(is_withheld("report-to"));
    assert!(!is_withheld("content-type"));
    assert!(!is_withheld("x-cdn-other"));
    assert!(!is_withheld(""));
}

#[test]
fn plan_fills_the_template_and_keeps_the_method() {
    let template = ProxyTemplate::parse("https://i.example/{path}").unwrap();
    let params = captured("/img/*path", "/img/a/b.jpg");
    let inbound = headers(&[("range", "bytes=0-1"), ("cookie", "c")]);
    let plan = plan(Method::Get, &inbound, &template, &params, None).unwrap();
    assert_eq!(plan.uri, "https://i.example/a/b.jpg");
    assert_eq!(plan.method, Method::Get);
    assert_eq!(plan.headers, headers(&[("range", "bytes=0-1")]));
    let plan = gateway::forward::plan(Method::Head, &Headers::new(), &template, &params, None)
        .unwrap();
    assert_eq!(plan.method, Method::Head);
    assert_eq!(plan.headers, Headers::new());
}

#[test]
fn plan_attaches_the_token() {
    let template = ProxyTemplate::parse("https://oauth.example/{path}").unwrap();
    let params = captured("/api/*path", "/api/r/popular.json");
    let token = Token::new("secret-1", 1000).unwrap();
    let inbound = headers(&[("if-modified-since", "x"), ("authorization", "Basic client")]);
    let plan = plan(Method::Get, &inbound, &template, &params, Some(&token)).unwrap();
    assert_eq!(plan.uri, "https://oauth.example/r/popular.json");
    assert_eq!(
        plan.headers,
        headers(&[("if-modified-since", "x"), ("authorization", "Bearer secret-1")])
    );
}

#[test]
fn plan_fails_without_a_value_for_a_placeholder() {
    let template = ProxyTemplate::parse("https://i.example/{path}").unwrap();
    let params = captured("/img/:id", "/img/x");
    assert_eq!(
        plan(Method::Get, &Headers::new(), &template, &params, None),
        Err(ForwardError::TemplateSubstitution)
    );
}

#[test]
fn plan_fails_where_the_address_does_not_parse() {
    let template = ProxyTemplate::parse("https://i.example/{path}").unwrap();
    let params = captured("/img/*path", "/img/a b.jpg");
    assert_eq!(
        plan(Method::Get, &Headers::new(), &template, &params, None),
        Err(ForwardError::UpstreamUnavailable(Fault::InvalidUri))
    );
    let params = captured("/img/*path", "/img/a%20b.jpg");
    assert!(plan(Method::Get, &Headers::new(), &template, &params, None).is_ok());
}

#[test]
fn plan_for_goes_by_what_it_is_told_of_the_address() {
    let inbound = headers(&[("range", "bytes=1-2")]);
    let plan = plan_for("https://i.example/x".to_string(), true, Method::Post, &inbound, None)
        .unwrap();
    assert_eq!(plan.uri, "https://i.example/x");
    assert_eq!(plan.method, Method::Post);
    assert_eq!(plan.headers, inbound);
    assert_eq!(
        plan_for("https://i.example/x".to_string(), false, Method::Post, &inbound, None),
        Err(ForwardError::UpstreamUnavailable(Fault::InvalidUri))
    );
}

#[test]
fn media_answers_are_passed_on() {
    for status in [200u16, 204, 206, 299, 304] {
        let head = ResponseHead {
            status,
            headers: headers(&[("content-type", "video/mp4"), ("server", "s")]),
        };
        let passed = accept(UpstreamOutcome::Answered(head)).unwrap();
        assert_eq!(passed.status, status);
        assert_eq!(passed.headers, headers(&[("content-type", "video/mp4")]));
    }
}

#[test]
fn other_answers_are_faults() {
    for status in [0u16, 100, 199, 300, 301, 303, 305, 403, 404, 500, 503, u16::MAX] {
        let head = ResponseHead { status, headers: Headers::new() };
        assert_eq!(
            accept(UpstreamOutcome::Answered(head)),
            Err(ForwardError::UpstreamUnavailable(Fault::Status(status)))
        );
    }
    assert_eq!(
        accept(UpstreamOutcome::Unreachable),
        Err(ForwardError::UpstreamUnavailable(Fault::Connection))
    );
    assert_eq!(
        accept(UpstreamOutcome::TimedOut),
        Err(ForwardError::UpstreamUnavailable(Fault::Timeout))
    );
}

#[test]
fn forwarding_errors_become_failures() {
    let failure = failure_of(ForwardError::TemplateSubstitution);
    assert_eq!(failure.kind, ErrorKind::TemplateSubstitution);
    for fault in [Fault::InvalidUri, Fault::Connection, Fault::Timeout, Fault::Status(502)] {
        let failure = failure_of(ForwardError::UpstreamUnavailable(fault));
        assert_eq!(failure.kind, ErrorKind::UpstreamUnavailable);
        assert!(failure.message.contains("upstream"));
    }
    assert_eq!(
        failure_of(ForwardError::UpstreamUnavailable(Fault::Timeout)).message,
        "the upstream did not answer in time"
    );
}
