//! Responses, and the fixed responses that the gateway answers with by itself.

use vstd::prelude::*;
use vstd::string::{StrSliceExecFns, StringExecFns, StringSliceAdditionalSpecFns};
use vstd::utf8::{decode_utf8, valid_utf8};
use crate::assoc::lemma_without_absent;
use crate::headers::{text_value, valid_value, HeaderList, Headers};
use crate::text::views;

verus! {

/// A response: status, headers and body.
#[derive(Clone, Debug, PartialEq, Eq)]
pub struct Response {
    pub status: u16,
    pub headers: Headers,
    pub body: Vec<u8>,
}

/// The mathematical model of a [`Response`].
pub struct ResponseModel {
    pub status: u16,
    pub headers: HeaderList,
    pub body: Seq<u8>,
}

impl View for Response {
    type V = ResponseModel;

    open spec fn view(&self) -> ResponseModel {
        ResponseModel { status: self.status, headers: self.headers@, body: self.body@ }
    }
}

/// The caching policy of the assets that may be kept for long.
pub open spec fn long_lived() -> Seq<u8> {
    "public, max-age=1209600, s-maxage=86400".spec_bytes()
}

/// A successful response with the given content type and body, and with the
/// long-lived caching policy if `cached`.
pub open spec fn content(content_type: Seq<u8>, cached: bool, body: Seq<u8>) -> ResponseModel {
    ResponseModel {
        status: 200,
        headers: if cached {
            seq![("content-type"@, content_type), ("cache-control"@, long_lived())]
        } else {
            seq![("content-type"@, content_type)]
        },
        body,
    }
}

/// What [`resource`] answers. A content type that cannot be sent as a header value
/// leaves an empty response, which still gets the caching policy if that was asked for.
pub open spec fn resource_model(body: Seq<u8>, content_type: Seq<u8>, cached: bool)
    -> ResponseModel {
    if valid_value(content_type) {
        content(content_type, cached, body)
    } else {
        ResponseModel {
            status: 200,
            headers: if cached {
                seq![("cache-control"@, long_lived())]
            } else {
                Seq::empty()
            },
            body: Seq::empty(),
        }
    }
}

/// The stylesheet that is served: the base sheet, then each theme after a line break.
pub open spec fn stylesheet(base: Seq<char>, themes: Seq<Seq<char>>) -> Seq<char>
    decreases themes.len(),
{
    if themes.len() == 0 {
        base
    } else {
        stylesheet(base, themes.drop_last()) + seq!['\n'] + themes.last()
    }
}

/// The text that stands for the bytes one by one: each byte is the character with
/// that code.
pub open spec fn byte_chars(bytes: Seq<u8>) -> Seq<char> {
    bytes.map_values(|b: u8| b as char)
}

fn build(content_type: &str, cached: bool, body: Vec<u8>) -> (r: Response)
    ensures
        r@ == content(content_type.spec_bytes(), cached, body@),
{
    let mut headers = Headers::new();
    headers.append("content-type", content_type.as_bytes_vec());
    if cached {
        headers.append("cache-control", "public, max-age=1209600, s-maxage=86400".as_bytes_vec());
    }
    assert(headers@ == content(content_type.spec_bytes(), cached, body@).headers);
    Response { status: 200, headers, body }
}

/// The logo of the web application manifest.
pub fn pwa_logo(image: Vec<u8>) -> (r: Response)
    ensures
        r@ == content("image/png".spec_bytes(), false, image@),
{
    build("image/png", false, image)
}

/// The icon for home screens.
pub fn iphone_logo(image: Vec<u8>) -> (r: Response)
    ensures
        r@ == content("image/png".spec_bytes(), false, image@),
{
    build("image/png", false, image)
}

/// The site icon; it may be kept for long.
pub fn favicon(icon: Vec<u8>) -> (r: Response)
    ensures
        r@ == content("image/vnd.microsoft.icon".spec_bytes(), true, icon@),
{
    build("image/vnd.microsoft.icon", true, icon)
}

/// The font; it may be kept for long.
pub fn font(data: Vec<u8>) -> (r: Response)
    ensures
        r@ == content("font/woff2".spec_bytes(), true, data@),
{
    build("font/woff2", true, data)
}

/// The search description; it may be kept for long.
pub fn opensearch(description: Vec<u8>) -> (r: Response)
    ensures
        r@ == content("application/opensearchdescription+xml".spec_bytes(), true, description@),
{
    build("application/opensearchdescription+xml", true, description)
}

/// A text resource with the content type that the caller names.
pub fn resource(body: &str, content_type: &str, cache: bool) -> (r: Response)
    ensures
        r@ == resource_model(body.spec_bytes(), content_type.spec_bytes(), cache),
{
    let mut response = match text_value(content_type) {
        Some(value) => {
            let mut headers = Headers::new();
            headers.append("content-type", value);
            Response { status: 200, headers, body: body.as_bytes_vec() }
        },
        None => Response { status: 200, headers: Headers::new(), body: Vec::new() },
    };
    let ghost before = response.headers@;
    if cache {
        proof {
            reveal_strlit("content-type");
            reveal_strlit("cache-control");
            assert("content-type"@ != "cache-control"@) by {
                assert("content-type"@[1] != "cache-control"@[1]);
            }
            lemma_without_absent(before, "cache-control"@);
        }
        response.headers.insert(
            "cache-control",
            "public, max-age=1209600, s-maxage=86400".as_bytes_vec(),
        );
    }
    assert(response.headers@ == resource_model(
        body.spec_bytes(),
        content_type.spec_bytes(),
        cache,
    ).headers);
    response
}

/// The stylesheet: the base sheet and the themes, in order; it may be kept for long.
pub fn style(base: &str, themes: &Vec<String>) -> (r: Response)
    ensures
        r@ == content(
            "text/css".spec_bytes(),
            true,
            vstd::utf8::encode_utf8(stylesheet(base@, views(themes@))),
        ),
{
    let ghost all = views(themes@);
    let mut sheet = String::from_str(base);
    let mut i: usize = 0;
    assert(all.take(0) == Seq::<Seq<char>>::empty());
    while i < themes.len()
        invariant
            i <= themes.len(),
            all == views(themes@),
            sheet@ == stylesheet(base@, all.take(i as int)),
        decreases themes.len() - i,
    {
        assert(all.take(i + 1).drop_last() == all.take(i as int));
        assert(all.take(i + 1).last() == themes@[i as int]@);
        let ghost before = sheet@;
        sheet.push('\n');
        assert(before.push('\n') == before + seq!['\n']);
        sheet.append(themes[i].as_str());
        i += 1;
    }
    assert(all.take(themes.len() as int) == all);
    build("text/css", true, sheet.as_str().as_bytes_vec())
}

/// The feed of recent changes, as it was fetched.
pub fn proxy_commit_info(feed: &str) -> (r: Response)
    ensures
        r@ == content("application/atom+xml".spec_bytes(), false, feed.spec_bytes()),
{
    build("application/atom+xml", false, feed.as_bytes_vec())
}

/// The list of public instances, as it was fetched.
pub fn proxy_instances(list: &str) -> (r: Response)
    ensures
        r@ == content("application/json".spec_bytes(), false, list.spec_bytes()),
{
    build("application/json", false, list.as_bytes_vec())
}

/// The text of a fetched body, read byte by byte.
pub fn body_text(bytes: &[u8]) -> (text: String)
    ensures
        text@ == byte_chars(bytes@),
{
    let mut text = String::new();
    let mut i: usize = 0;
    while i < bytes.len()
        invariant
            i <= bytes.len(),
            text@ == byte_chars(bytes@.take(i as int)),
        decreases bytes.len() - i,
    {
        text.push(bytes[i] as char);
        assert(bytes@.take(i + 1) == bytes@.take(i as int).push(bytes@[i as int]));
        assert(byte_chars(bytes@.take(i + 1)) == byte_chars(bytes@.take(i as int)).push(
            bytes@[i as int] as char,
        ));
        i += 1;
    }
    assert(bytes@.take(bytes.len() as int) == bytes@);
    text
}

/// Why a bundled asset is refused at startup.
#[derive(Clone, Copy, Debug, PartialEq, Eq)]
pub enum AssetError {
    /// The asset is meant to be text and is not UTF-8.
    NotText,
}

/// `String::from_utf8` of std gives the text that the bytes encode, and fails exactly
/// if the bytes are not UTF-8.
#[verifier::external_body]
fn utf8_text(bytes: Vec<u8>) -> (r: Option<String>)
    ensures
        match r {
            Some(text) => valid_utf8(bytes@) && text@ == decode_utf8(bytes@),
            None => !valid_utf8(bytes@),
        },
{
    String::from_utf8(bytes).ok()
}

/// Checks a bundled text asset once, before any request is served.
pub fn text_asset(bytes: Vec<u8>) -> (r: Result<String, AssetError>)
    ensures
        match r {
            Ok(text) => valid_utf8(bytes@) && text@ == decode_utf8(bytes@),
            Err(e) => !valid_utf8(bytes@),
        },
{
    match utf8_text(bytes) {
        Some(text) => Ok(text),
        None => Err(AssetError::NotText),
    }
}

} // verus!
