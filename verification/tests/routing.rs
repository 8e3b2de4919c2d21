use gateway::path::split_path;
use gateway::pattern::{ParamSet, Pattern, PatternError};
use gateway::router::{Handler, Method, RegisterError, Router};
use gateway::template::ProxyTemplate;

fn param(params: &ParamSet, name: &str) -> Option<String> {
    params.get(name).cloned()
}

fn pairs(params: &ParamSet) -> Vec<(String, String)> {
    let mut out = Vec::new();
    for i in 0..params.len() {
        out.push((params.name_at(i).clone(), params.value_at(i).clone()));
    }
    out
}

fn segments(path: &str) -> Vec<String> {
    split_path(path)
}

fn table() -> Router {
    let mut router = Router::new();
    router.register(Method::Get, "/style.css", Handler::Local(1)).unwrap();
    router.register(Method::Get, "/settings", Handler::Local(2)).unwrap();
    router.register(Method::Post, "/settings", Handler::Local(3)).unwrap();
    router
        .register(
            Method::Get,
            "/vid/:id/:size",
            Handler::Proxy(ProxyTemplate::parse("https://v.example/{id}/DASH_{size}").unwrap()),
        )
        .unwrap();
    router
        .register(
            Method::Get,
            "/img/*path",
            Handler::Proxy(ProxyTemplate::parse("https://i.example/{path}").unwrap()),
        )
        .unwrap();
    router.register(Method::Get, "/", Handler::Local(4)).unwrap();
    router.register(Method::Get, "/*", Handler::Local(99)).unwrap();
    router
}

#[test]
fn split_drops_empty_segments() {
    assert_eq!(segments("/img/a/b/c.jpg"), vec!["img", "a", "b", "c.jpg"]);
    assert_eq!(segments("/"), Vec::<String>::new());
    assert_eq!(segments(""), Vec::<String>::new());
    assert_eq!(segments("//a///b//"), vec!["a", "b"]);
    assert_eq!(segments("a/b"), vec!["a", "b"]);
    assert_eq!(segments("/a/"), vec!["a"]);
}

#[test]
fn wildcard_captures_the_rest_of_the_path() {
    let pattern = Pattern::parse("/img/*path").unwrap();
    let params = pattern.capture(&segments("/img/a/b/c.jpg")).unwrap();
    assert_eq!(param(&params, "path"), Some("a/b/c.jpg".to_string()));
    assert_eq!(params.len(), 1);
}

#[test]
fn wildcard_may_capture_nothing() {
    let pattern = Pattern::parse("/img/*path").unwrap();
    let params = pattern.capture(&segments("/img")).unwrap();
    assert_eq!(param(&params, "path"), Some(String::new()));
    let params = pattern.capture(&segments("/img/")).unwrap();
    assert_eq!(param(&params, "path"), Some(String::new()));
    assert!(pattern.capture(&segments("/")).is_none());
    assert!(pattern.capture(&segments("/image/a")).is_none());
}

#[test]
fn named_parameters_capture_one_segment_each() {
    let pattern = Pattern::parse("/vid/:id/:size").unwrap();
    let params = pattern.capture(&segments("/vid/abc123/1080")).unwrap();
    assert_eq!(
        pairs(&params),
        vec![
            ("id".to_string(), "abc123".to_string()),
            ("size".to_string(), "1080".to_string())
        ]
    );
    assert_eq!(param(&params, "other"), None);
    assert!(pattern.capture(&segments("/vid/abc123")).is_none());
    assert!(pattern.capture(&segments("/vid/abc123/1080/extra")).is_none());
    assert!(pattern.capture(&segments("/VID/abc123/1080")).is_none());
}

#[test]
fn named_and_wildcard_together() {
    let pattern = Pattern::parse("/hls/:id/*path").unwrap();
    let params = pattern.capture(&segments("/hls/xyz/audio/seg-1.ts")).unwrap();
    assert_eq!(
        pairs(&params),
        vec![
            ("id".to_string(), "xyz".to_string()),
            ("path".to_string(), "audio/seg-1.ts".to_string())
        ]
    );
    assert!(pattern.capture(&segments("/hls")).is_none());
}

#[test]
fn literal_pattern_matches_only_itself() {
    let pattern = Pattern::parse("/r/popular.rss").unwrap();
    assert_eq!(pattern.capture(&segments("/r/popular.rss")).unwrap().len(), 0);
    assert!(pattern.capture(&segments("/r/popular")).is_none());
    let root = Pattern::parse("/").unwrap();
    assert!(root.capture(&segments("/")).is_some());
    assert!(root.capture(&segments("/a")).is_none());
}

#[test]
fn pattern_with_wildcard_before_the_end_is_refused() {
    assert_eq!(Pattern::parse("/a/*rest/b").unwrap_err(), PatternError::WildcardNotLast);
    assert_eq!(Pattern::parse("/*a/*b").unwrap_err(), PatternError::WildcardNotLast);
    assert_eq!(Pattern::parse("/*a/:a").unwrap_err(), PatternError::WildcardNotLast);
}

#[test]
fn pattern_with_a_name_twice_is_refused() {
    assert_eq!(Pattern::parse("/:id/x/:id").unwrap_err(), PatternError::DuplicateParam);
    assert_eq!(Pattern::parse("/:p/*p").unwrap_err(), PatternError::DuplicateParam);
    assert!(Pattern::parse("/:id/x/:size").is_ok());
}

#[test]
fn pattern_knows_its_parameters() {
    let pattern = Pattern::parse("/preview/:loc/award_images/:fullname/:id").unwrap();
    assert!(pattern.has_param("loc"));
    assert!(pattern.has_param("fullname"));
    assert!(pattern.has_param("id"));
    assert!(!pattern.has_param("award_images"));
    assert!(!pattern.has_param("preview"));
    assert!(!pattern.is_catch_all());
    assert!(Pattern::parse("/*").unwrap().is_catch_all());
    assert!(!Pattern::parse("/*rest").unwrap().is_catch_all());
    assert!(!Pattern::parse("/a/*").unwrap().is_catch_all());
}

#[test]
fn register_reports_each_error() {
    let mut router = Router::new();
    assert_eq!(
        router.register(Method::Get, "/*x/y", Handler::Local(1)),
        Err(RegisterError::WildcardNotLast)
    );
    assert_eq!(
        router.register(Method::Get, "/:x/:x", Handler::Local(1)),
        Err(RegisterError::DuplicateParam)
    );
    let template = ProxyTemplate::parse("https://i.example/{path}").unwrap();
    assert_eq!(
        router.register(Method::Get, "/img/:id", Handler::Proxy(template)),
        Err(RegisterError::UndeclaredParam)
    );
    assert_eq!(router.len(), 0);
    let template = ProxyTemplate::parse("https://i.example/{path}").unwrap();
    assert_eq!(router.register(Method::Get, "/img/*path", Handler::Proxy(template)), Ok(()));
    assert_eq!(router.len(), 1);
    assert_eq!(router.route(0).method(), Method::Get);
    assert!(router.route(0).pattern().has_param("path"));
}

#[test]
fn first_registered_route_wins() {
    let mut router = Router::new();
    router.register(Method::Get, "/a/:x", Handler::Local(1)).unwrap();
    router.register(Method::Get, "/a/b", Handler::Local(2)).unwrap();
    router.register(Method::Get, "/*rest", Handler::Local(3)).unwrap();
    let found = router.resolve(Method::Get, "/a/b").unwrap();
    assert_eq!(found.route, 0);
    assert!(matches!(found.handler, Handler::Local(1)));
    assert_eq!(param(&found.params, "x"), Some("b".to_string()));
    let found = router.resolve(Method::Get, "/c/d/e").unwrap();
    assert_eq!(found.route, 2);
    assert_eq!(param(&found.params, "rest"), Some("c/d/e".to_string()));
}

#[test]
fn resolve_picks_the_route_of_the_method() {
    let router = table();
    let found = router.resolve(Method::Get, "/settings").unwrap();
    assert_eq!(found.route, 1);
    assert!(matches!(found.handler, Handler::Local(2)));
    let found = router.resolve(Method::Post, "/settings").unwrap();
    assert_eq!(found.route, 2);
    assert!(matches!(found.handler, Handler::Local(3)));
    let found = router.resolve(Method::Get, "/settings/").unwrap();
    assert_eq!(found.route, 1);
}

#[test]
fn unmatched_path_goes_to_the_catch_all() {
    let router = table();
    let found = router.resolve(Method::Get, "/does/not/exist").unwrap();
    assert_eq!(found.route, 6);
    assert!(matches!(found.handler, Handler::Local(99)));
    assert_eq!(param(&found.params, ""), Some("does/not/exist".to_string()));
}

#[test]
fn method_without_a_route_goes_to_the_catch_all() {
    let router = table();
    let found = router.resolve(Method::Post, "/style.css").unwrap();
    assert_eq!(found.route, 6);
    assert!(matches!(found.handler, Handler::Local(99)));
    let found = router.resolve(Method::Delete, "/vid/abc/720").unwrap();
    assert_eq!(found.route, 6);
    assert_eq!(param(&found.params, ""), Some("vid/abc/720".to_string()));
}

#[test]
fn without_a_catch_all_nothing_is_found() {
    let mut router = Router::new();
    assert!(router.resolve(Method::Get, "/").is_none());
    router.register(Method::Get, "/a", Handler::Local(1)).unwrap();
    router.register(Method::Get, "/*rest", Handler::Local(2)).unwrap();
    assert!(router.resolve(Method::Get, "/a").is_some());
    assert!(router.resolve(Method::Post, "/a").is_none());
    assert!(router.resolve(Method::Post, "/b").is_none());
}

#[test]
fn root_path_resolves_to_its_own_route() {
    let router = table();
    let found = router.resolve(Method::Get, "/").unwrap();
    assert_eq!(found.route, 5);
    let found = router.resolve(Method::Get, "").unwrap();
    assert_eq!(found.route, 5);
    let found = router.resolve(Method::Head, "/").unwrap();
    assert_eq!(found.route, 6);
    assert_eq!(param(&found.params, ""), Some(String::new()));
}

#[test]
fn resolve_is_deterministic() {
    let router = table();
    for path in ["/vid/abc123/1080", "/img/a/b.jpg", "/nothing", "/", "/settings"] {
        for method in [Method::Get, Method::Post, Method::Other] {
            let first = router.resolve(method, path).unwrap();
            let second = router.resolve(method, path).unwrap();
            assert_eq!(first.route, second.route);
            assert_eq!(first.params, second.params);
        }
    }
}

#[test]
fn resolved_proxy_route_renders_its_template() {
    let router = table();
    let found = router.resolve(Method::Get, "/vid/abc123/1080").unwrap();
    assert_eq!(found.route, 3);
    match found.handler {
        Handler::Proxy(template) => {
            assert_eq!(
                template.render(&found.params).unwrap(),
                "https://v.example/abc123/DASH_1080"
            );
        }
        Handler::Local(_) => panic!("the route is a proxy route"),
    }
    let found = router.resolve(Method::Get, "/img/a/b/c.jpg").unwrap();
    match found.handler {
        Handler::Proxy(template) => {
            assert_eq!(template.render(&found.params).unwrap(), "https://i.example/a/b/c.jpg");
        }
        Handler::Local(_) => panic!("the route is a proxy route"),
    }
}
