use gateway::path::split_path;
use gateway::pattern::Pattern;
use gateway::template::{ProxyTemplate, TemplateError};

fn captured(pattern: &str, path: &str) -> gateway::pattern::ParamSet {
    Pattern::parse(pattern).unwrap().capture(&split_path(path)).unwrap()
}

#[test]
fn template_substitution_fills_the_placeholder() {
    let template = ProxyTemplate::parse("https://i.example/{path}").unwrap();
    let params = captured("/img/*path", "/img/a/b.jpg");
    assert_eq!(template.render(&params).unwrap(), "https://i.example/a/b.jpg");
}

#[test]
fn template_with_several_placeholders() {
    let template = ProxyTemplate::parse("https://v.example/{id}/DASH_{size}").unwrap();
    let params = captured("/vid/:id/:size", "/vid/abc123/1080");
    assert_eq!(template.render(&params).unwrap(), "https://v.example/abc123/DASH_1080");
    let template = ProxyTemplate::parse("http://h.example:8080/x/{size}{id}/{id}?q").unwrap();
    assert_eq!(template.render(&params).unwrap(), "http://h.example:8080/x/1080abc123/abc123?q");
}

#[test]
fn template_without_placeholder_or_path() {
    let params = captured("/", "/");
    let template = ProxyTemplate::parse("https://static.example").unwrap();
    assert_eq!(template.render(&params).unwrap(), "https://static.example");
    let template = ProxyTemplate::parse("https://static.example/fixed/file.js").unwrap();
    assert_eq!(template.render(&params).unwrap(), "https://static.example/fixed/file.js");
}

#[test]
fn template_with_unknown_parameter_cannot_be_filled() {
    let template = ProxyTemplate::parse("https://i.example/{path}").unwrap();
    let params = captured("/img/:id", "/img/x");
    assert_eq!(template.render(&params), Err(TemplateError::UnknownParam));
}

#[test]
fn template_fits_a_pattern_that_declares_its_placeholders() {
    let template = ProxyTemplate::parse("https://v.example/{id}/DASH_{size}").unwrap();
    assert!(template.fits(&Pattern::parse("/vid/:id/:size").unwrap()));
    assert!(template.fits(&Pattern::parse("/vid/:size/:id/*rest").unwrap()));
    assert!(!template.fits(&Pattern::parse("/vid/:id").unwrap()));
    assert!(!template.fits(&Pattern::parse("/vid/id/size").unwrap()));
    let fixed = ProxyTemplate::parse("https://v.example/fixed").unwrap();
    assert!(fixed.fits(&Pattern::parse("/anything").unwrap()));
}

#[test]
fn template_needs_an_origin() {
    for text in [
        "",
        "i.example/{path}",
        "/img/{path}",
        "https:/i.example/x",
        "https//i.example/x",
        "://i.example/x",
        "https://",
        "https:///x",
        "ht tp://i.example/x",
        "https://i.example?x=1",
        "https://user@i.example/x",
        "https://i.example#frag",
    ] {
        assert_eq!(ProxyTemplate::parse(text).err(), Some(TemplateError::Origin), "{text}");
    }
}

#[test]
fn template_with_placeholder_in_the_host_is_refused() {
    assert_eq!(
        ProxyTemplate::parse("https://{point}.thumbs.example/{id}").err(),
        Some(TemplateError::Origin)
    );
    assert_eq!(
        ProxyTemplate::parse("https://i.example{path}/x").err(),
        Some(TemplateError::Origin)
    );
    assert_eq!(ProxyTemplate::parse("{scheme}://i.example/x").err(), Some(TemplateError::Origin));
}

#[test]
fn template_with_unbalanced_braces_is_refused() {
    for text in [
        "https://i.example/{path",
        "https://i.example/path}",
        "https://i.example/{a{b}}",
        "https://i.example/{a}/}",
        "https://i.example/{",
    ] {
        assert_eq!(ProxyTemplate::parse(text).err(), Some(TemplateError::Placeholder), "{text}");
    }
}

#[test]
fn captured_text_cannot_move_the_origin() {
    let template = ProxyTemplate::parse("https://i.example/{path}").unwrap();
    for path in ["/img/@evil.example/x", "/img/..//evil.example", "/img/%2F%2Fevil.example", "/img/#x"] {
        let params = captured("/img/*path", path);
        let url = template.render(&params).unwrap();
        assert!(url.starts_with("https://i.example/"), "{url}");
    }
    let params = captured("/img/*path", "/img/@evil.example/x");
    assert_eq!(template.render(&params).unwrap(), "https://i.example/@evil.example/x");
}
