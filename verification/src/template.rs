//! Upstream URL templates: a fixed origin followed by a path with `{name}` placeholders.

use vstd::prelude::*;
use crate::pattern::{lookup, param_names, ParamSet, Pattern};
use crate::text::{chars_of, string_of, views};

verus! {

/// One piece of a template's path.
#[derive(Clone, Debug, PartialEq, Eq)]
pub enum Part {
    /// Text that is copied as it stands.
    Text(String),
    /// `{name}`: replaced by the text captured under `name`.
    Slot(String),
}

/// The mathematical model of a [`Part`].
pub enum PartModel {
    Text(Seq<char>),
    Slot(Seq<char>),
}

impl View for Part {
    type V = PartModel;

    open spec fn view(&self) -> PartModel {
        match self {
            Part::Text(t) => PartModel::Text(t@),
            Part::Slot(n) => PartModel::Slot(n@),
        }
    }
}

/// The mathematical model of a [`ProxyTemplate`].
pub struct TemplateModel {
    /// Scheme, `://` and host, as written in the template.
    pub origin: Seq<char>,
    /// What follows the origin.
    pub parts: Seq<PartModel>,
}

/// Why a template is refused, or cannot be filled.
#[derive(Clone, Copy, Debug, PartialEq, Eq)]
pub enum TemplateError {
    /// The text does not begin with a scheme, `://` and a host that ends at the first
    /// `/` or at the end of the text. A placeholder inside the host is such a case.
    Origin,
    /// A `{` without its `}`, a `{` inside a placeholder, or a `}` outside one.
    Placeholder,
    /// A placeholder names a parameter that is not there.
    UnknownParam,
}

/// A character of a URI scheme.
pub open spec fn scheme_char(c: char) -> bool {
    ('a' <= c <= 'z') || ('A' <= c <= 'Z') || ('0' <= c <= '9') || c == '+' || c == '-' || c
        == '.'
}

/// A character of a host, with an optional port.
pub open spec fn host_char(c: char) -> bool {
    ('a' <= c <= 'z') || ('A' <= c <= 'Z') || ('0' <= c <= '9') || c == '.' || c == '-' || c
        == ':'
}

/// The length of the longest prefix of `s` whose characters all satisfy `accepted`.
pub open spec fn prefix_len(s: Seq<char>, accepted: spec_fn(char) -> bool) -> nat
    decreases s.len(),
{
    if s.len() == 0 || !accepted(s[0]) {
        0
    } else {
        1 + prefix_len(s.drop_first(), accepted)
    }
}

/// The length of the origin of `t`: a non-empty scheme, `://`, and a non-empty host
/// that is followed by `/` or by nothing.
pub open spec fn origin_len(t: Seq<char>) -> Option<int> {
    let a = prefix_len(t, |c: char| scheme_char(c)) as int;
    if a == 0 || t.len() < a + 3 || t[a] != ':' || t[a + 1] != '/' || t[a + 2] != '/' {
        None
    } else {
        let h = prefix_len(t.skip(a + 3), |c: char| host_char(c)) as int;
        let end = a + 3 + h;
        if h == 0 || (end < t.len() && t[end] != '/') {
            None
        } else {
            Some(end)
        }
    }
}

/// The text run that has been read, as a part, if it is not empty.
pub open spec fn flush(text: Seq<char>) -> Seq<PartModel> {
    if text.len() == 0 {
        Seq::empty()
    } else {
        seq![PartModel::Text(text)]
    }
}

/// `first` followed by `rest`, where reading `rest` succeeded.
pub open spec fn then_parts(first: Seq<PartModel>, rest: Option<Seq<PartModel>>) -> Option<
    Seq<PartModel>,
> {
    match rest {
        Some(parts) => Some(first + parts),
        None => None,
    }
}

/// Reading the parts of a template's path one character at a time. `text` is the text
/// run that is being read; `slot` is the name that is being read inside braces, if any.
pub open spec fn parts_from(s: Seq<char>, text: Seq<char>, slot: Option<Seq<char>>) -> Option<
    Seq<PartModel>,
>
    decreases s.len(),
{
    if s.len() == 0 {
        if slot is Some {
            None
        } else {
            Some(flush(text))
        }
    } else {
        let c = s[0];
        let rest = s.drop_first();
        match slot {
            Some(name) => if c == '}' {
                then_parts(seq![PartModel::Slot(name)], parts_from(rest, Seq::empty(), None))
            } else if c == '{' {
                None
            } else {
                parts_from(rest, text, Some(name.push(c)))
            },
            None => if c == '{' {
                then_parts(flush(text), parts_from(rest, Seq::empty(), Some(Seq::empty())))
            } else if c == '}' {
                None
            } else {
                parts_from(rest, text.push(c), None)
            },
        }
    }
}

/// The parts of a template's path.
pub open spec fn parts_of(path: Seq<char>) -> Option<Seq<PartModel>> {
    parts_from(path, Seq::empty(), None)
}

/// What a template's text stands for.
pub open spec fn template_of(t: Seq<char>) -> Result<TemplateModel, TemplateError> {
    match origin_len(t) {
        None => Err(TemplateError::Origin),
        Some(end) => match parts_of(t.skip(end)) {
            None => Err(TemplateError::Placeholder),
            Some(parts) => Ok(TemplateModel { origin: t.take(end), parts }),
        },
    }
}

/// The parts with every placeholder replaced by the text captured under its name.
pub open spec fn render_parts(parts: Seq<PartModel>, params: Seq<(Seq<char>, Seq<char>)>)
    -> Option<Seq<char>>
    decreases parts.len(),
{
    if parts.len() == 0 {
        Some(Seq::empty())
    } else {
        match render_parts(parts.drop_last(), params) {
            None => None,
            Some(done) => match parts.last() {
                PartModel::Text(t) => Some(done + t),
                PartModel::Slot(n) => match lookup(params, n) {
                    Some(value) => Some(done + value),
                    None => None,
                },
            },
        }
    }
}

/// The upstream URL that the template gives for the captured parameters.
pub open spec fn render(t: TemplateModel, params: Seq<(Seq<char>, Seq<char>)>) -> Option<
    Seq<char>,
> {
    match render_parts(t.parts, params) {
        Some(path) => Some(t.origin + path),
        None => None,
    }
}

/// Every placeholder of `parts` is one of `names`.
pub open spec fn declared(parts: Seq<PartModel>, names: Seq<Seq<char>>) -> bool {
    forall|i: int|
        0 <= i < parts.len() ==> ((#[trigger] parts[i]) matches PartModel::Slot(n)
            ==> names.contains(n))
}

fn is_scheme_char(c: char) -> (r: bool)
    ensures
        r == scheme_char(c),
{
    ('a' <= c && c <= 'z') || ('A' <= c && c <= 'Z') || ('0' <= c && c <= '9') || c == '+' || c
        == '-' || c == '.'
}

fn is_host_char(c: char) -> (r: bool)
    ensures
        r == host_char(c),
{
    ('a' <= c && c <= 'z') || ('A' <= c && c <= 'Z') || ('0' <= c && c <= '9') || c == '.' || c
        == '-' || c == ':'
}

/// Where the scheme of `chars` ends.
fn scan_scheme(chars: &Vec<char>) -> (end: usize)
    ensures
        end == prefix_len(chars@, |c: char| scheme_char(c)),
        end <= chars.len(),
{
    let ghost accepted = |c: char| scheme_char(c);
    let mut i: usize = 0;
    assert(chars@.skip(0) == chars@);
    while i < chars.len() && is_scheme_char(chars[i])
        invariant
            i <= chars.len(),
            accepted == (|c: char| scheme_char(c)),
            prefix_len(chars@, accepted) == i + prefix_len(chars@.skip(i as int), accepted),
        decreases chars.len() - i,
    {
        assert(chars@.skip(i as int).drop_first() == chars@.skip(i + 1));
        assert(accepted(chars@.skip(i as int)[0]));
        i += 1;
    }
    assert(i < chars.len() ==> !accepted(chars@.skip(i as int)[0]));
    i
}

/// Where the host that begins at `from` ends.
fn scan_host(chars: &Vec<char>, from: usize) -> (end: usize)
    requires
        from <= chars.len(),
    ensures
        end - from == prefix_len(chars@.skip(from as int), |c: char| host_char(c)),
        from <= end <= chars.len(),
{
    let ghost accepted = |c: char| host_char(c);
    let mut i: usize = from;
    while i < chars.len() && is_host_char(chars[i])
        invariant
            from <= i <= chars.len(),
            accepted == (|c: char| host_char(c)),
            prefix_len(chars@.skip(from as int), accepted) == (i - from) + prefix_len(
                chars@.skip(i as int),
                accepted,
            ),
        decreases chars.len() - i,
    {
        assert(chars@.skip(i as int).drop_first() == chars@.skip(i + 1));
        assert(accepted(chars@.skip(i as int)[0]));
        i += 1;
    }
    assert(i < chars.len() ==> !accepted(chars@.skip(i as int)[0]));
    i
}

/// Where the origin of `chars` ends, if they begin with one.
fn scan_origin(chars: &Vec<char>) -> (r: Option<usize>)
    ensures
        match r {
            Some(end) => origin_len(chars@) == Some(end as int) && end <= chars.len(),
            None => origin_len(chars@) is None,
        },
{
    let a = scan_scheme(chars);
    let n = chars.len();
    if a == 0 || n - a < 3 || chars[a] != ':' || chars[a + 1] != '/' || chars[a + 2] != '/' {
        return None;
    }
    let end = scan_host(chars, a + 3);
    if end == a + 3 || (end < n && chars[end] != '/') {
        return None;
    }
    Some(end)
}

/// The text from `from` on, read as the parts of a template's path.
fn read_parts(chars: &Vec<char>, from: usize) -> (r: Option<Vec<Part>>)
    requires
        from <= chars.len(),
    ensures
        match r {
            Some(parts) => parts_of(chars@.skip(from as int)) == Some(views(parts@)),
            None => parts_of(chars@.skip(from as int)) is None,
        },
{
    let ghost s = chars@;
    let ghost goal = parts_of(s.skip(from as int));
    let mut parts: Vec<Part> = Vec::new();
    let mut text = String::new();
    let mut name = String::new();
    let mut in_slot = false;
    let mut i: usize = from;
    assert(then_parts(views(parts@), goal) == goal) by {
        if goal is Some {
            assert(views(parts@) + goal.unwrap() == goal.unwrap());
        }
    }
    while i < chars.len()
        invariant
            from <= i <= chars.len(),
            s == chars@,
            in_slot ==> text@.len() == 0,
            goal == parts_of(s.skip(from as int)),
            goal == then_parts(
                views(parts@),
                parts_from(
                    s.skip(i as int),
                    text@,
                    if in_slot {
                        Some(name@)
                    } else {
                        None
                    },
                ),
            ),
        decreases chars.len() - i,
    {
        let c = chars[i];
        let ghost here = s.skip(i as int);
        let ghost before = views(parts@);
        assert(here.len() > 0 && here[0] == c);
        assert(here.drop_first() == s.skip(i + 1));
        let ghost next = parts_from(here.drop_first(), Seq::empty(), None);
        let ghost read = text@;
        let ghost label = name@;
        if in_slot {
            if c == '}' {
                assert(parts_from(here, read, Some(label)) == then_parts(
                    seq![PartModel::Slot(label)],
                    next,
                ));
                proof {
                    if next is Some {
                        assert(before + (seq![PartModel::Slot(label)] + next.unwrap())
                            == before.push(PartModel::Slot(label)) + next.unwrap());
                    }
                }
                parts.push(Part::Slot(name));
                assert(views(parts@) == before.push(PartModel::Slot(label)));
                name = String::new();
                in_slot = false;
                text = String::new();
            } else if c == '{' {
                return None;
            } else {
                name.push(c);
                assert(parts_from(here, read, Some(label)) == parts_from(
                    here.drop_first(),
                    read,
                    Some(label.push(c)),
                ));
            }
        } else {
            if c == '{' {
                let ghost inside = parts_from(here.drop_first(), Seq::empty(), Some(Seq::empty()));
                assert(parts_from(here, read, None) == then_parts(flush(read), inside));
                if !text.as_str().is_empty() {
                    proof {
                        if inside is Some {
                            assert(before + (seq![PartModel::Text(read)] + inside.unwrap())
                                == before.push(PartModel::Text(read)) + inside.unwrap());
                        }
                    }
                    parts.push(Part::Text(text));
                    assert(views(parts@) == before.push(PartModel::Text(read)));
                    text = String::new();
                } else {
                    assert(read == Seq::<char>::empty());
                    proof {
                        if inside is Some {
                            assert(before + (Seq::<PartModel>::empty() + inside.unwrap())
                                == before + inside.unwrap());
                        }
                    }
                }
                name = String::new();
                in_slot = true;
            } else if c == '}' {
                return None;
            } else {
                text.push(c);
                assert(parts_from(here, read, None) == parts_from(
                    here.drop_first(),
                    read.push(c),
                    None,
                ));
            }
        }
        i += 1;
    }
    assert(s.skip(chars.len() as int).len() == 0);
    if in_slot {
        return None;
    }
    let ghost before = views(parts@);
    if !text.as_str().is_empty() {
        assert(before + seq![PartModel::Text(text@)] == before.push(PartModel::Text(text@)));
        parts.push(Part::Text(text));
        assert(views(parts@) == before.push(PartModel::Text(text@)));
    } else {
        assert(before + Seq::<PartModel>::empty() == before);
    }
    Some(parts)
}

/// `t` begins with a scheme of `a` characters, `://`, and a host that ends at `end`.
pub open spec fn origin_at(t: Seq<char>, a: int, end: int) -> bool {
    &&& 0 < a && a + 3 < end <= t.len()
    &&& forall|k: int| 0 <= k < a ==> scheme_char(#[trigger] t[k])
    &&& t[a] == ':' && t[a + 1] == '/' && t[a + 2] == '/'
    &&& forall|k: int| a + 3 <= k < end ==> host_char(#[trigger] t[k])
    &&& (end == t.len() || t[end] == '/')
}

/// The invariant of a template: its origin is an origin and nothing more, and what
/// follows it begins with `/`.
pub open spec fn template_well_formed(t: TemplateModel) -> bool {
    &&& origin_len(t.origin) == Some(t.origin.len() as int)
    &&& t.parts.len() > 0 ==> (t.parts[0] matches PartModel::Text(x) && x.len() > 0 && x[0]
        == '/')
}

/// The longest accepted prefix is accepted, and ends at the first refused character.
pub proof fn lemma_prefix_len_bounds(s: Seq<char>, accepted: spec_fn(char) -> bool)
    ensures
        prefix_len(s, accepted) <= s.len(),
        forall|k: int| 0 <= k < prefix_len(s, accepted) ==> accepted(#[trigger] s[k]),
        prefix_len(s, accepted) < s.len() ==> !accepted(s[prefix_len(s, accepted) as int]),
    decreases s.len(),
{
    if s.len() > 0 && accepted(s[0]) {
        let rest = s.drop_first();
        lemma_prefix_len_bounds(rest, accepted);
        assert forall|k: int| 0 <= k < prefix_len(s, accepted) implies accepted(
            #[trigger] s[k],
        ) by {
            if k > 0 {
                assert(s[k] == rest[k - 1]);
            }
        }
        if prefix_len(s, accepted) < s.len() {
            assert(s[prefix_len(s, accepted) as int] == rest[prefix_len(rest, accepted) as int]);
        }
    }
}

/// A prefix that is accepted and ends at a refused character is the longest one.
pub proof fn lemma_prefix_len_is(s: Seq<char>, accepted: spec_fn(char) -> bool, m: int)
    requires
        0 <= m <= s.len(),
        forall|k: int| 0 <= k < m ==> accepted(#[trigger] s[k]),
        m < s.len() ==> !accepted(s[m]),
    ensures
        prefix_len(s, accepted) == m,
    decreases s.len(),
{
    if m > 0 {
        let rest = s.drop_first();
        assert forall|k: int| 0 <= k < m - 1 implies accepted(#[trigger] rest[k]) by {
            assert(rest[k] == s[k + 1]);
        }
        if m - 1 < rest.len() {
            assert(rest[m - 1] == s[m]);
        }
        assert(accepted(s[0]));
        lemma_prefix_len_is(rest, accepted, m - 1);
    }
}

/// A text that has the shape of an origin up to `end` has an origin of that length.
pub proof fn lemma_origin_at(t: Seq<char>, a: int, end: int)
    requires
        origin_at(t, a, end),
    ensures
        origin_len(t) == Some(end),
{
    let scheme = |c: char| scheme_char(c);
    let host = |c: char| host_char(c);
    assert forall|k: int| 0 <= k < a implies scheme(#[trigger] t[k]) by {
        assert(scheme_char(t[k]));
    }
    lemma_prefix_len_is(t, scheme, a);
    let rest = t.skip(a + 3);
    assert forall|k: int| 0 <= k < end - (a + 3) implies host(#[trigger] rest[k]) by {
        assert(rest[k] == t[k + a + 3]);
        assert(host_char(t[k + a + 3]));
    }
    if end < t.len() {
        assert(rest[end - (a + 3)] == t[end]);
    }
    lemma_prefix_len_is(rest, host, end - (a + 3));
}

/// The origin of a text has the shape of an origin.
pub proof fn lemma_origin_len(t: Seq<char>)
    requires
        origin_len(t) is Some,
    ensures
        origin_at(t, prefix_len(t, |c: char| scheme_char(c)) as int, origin_len(t).unwrap()),
{
    let scheme = |c: char| scheme_char(c);
    let host = |c: char| host_char(c);
    let a = prefix_len(t, scheme) as int;
    let rest = t.skip(a + 3);
    let h = prefix_len(rest, host) as int;
    lemma_prefix_len_bounds(t, scheme);
    lemma_prefix_len_bounds(rest, host);
    assert forall|k: int| 0 <= k < a implies scheme_char(#[trigger] t[k]) by {
        assert(scheme(t[k]));
    }
    assert forall|k: int| a + 3 <= k < a + 3 + h implies host_char(#[trigger] t[k]) by {
        assert(host(rest[k - (a + 3)]));
        assert(rest[k - (a + 3)] == t[k]);
    }
}

/// A text run that has begun stays the beginning of the first part.
pub proof fn lemma_parts_begin(s: Seq<char>, text: Seq<char>)
    requires
        text.len() > 0,
        parts_from(s, text, None) is Some,
    ensures
        ({
            let parts = parts_from(s, text, None).unwrap();
            parts.len() > 0 && (parts[0] matches PartModel::Text(x) && x.len() > 0 && x[0]
                == text[0])
        }),
    decreases s.len(),
{
    if s.len() > 0 {
        let c = s[0];
        if c != '{' && c != '}' {
            lemma_parts_begin(s.drop_first(), text.push(c));
        }
    }
}

/// What a template's text stands for is well formed.
pub proof fn lemma_template_of_well_formed(text: Seq<char>)
    requires
        template_of(text) is Ok,
    ensures
        template_well_formed(template_of(text).unwrap()),
{
    let end = origin_len(text).unwrap();
    let a = prefix_len(text, |c: char| scheme_char(c)) as int;
    lemma_origin_len(text);
    let origin = text.take(end);
    assert(origin_at(origin, a, end));
    lemma_origin_at(origin, a, end);
    let path = text.skip(end);
    if path.len() > 0 {
        assert(path[0] == text[end]);
        assert(parts_of(path) == parts_from(path.drop_first(), seq!['/'], None)) by {
            assert(Seq::<char>::empty().push('/') == seq!['/']);
        }
        lemma_parts_begin(path.drop_first(), seq!['/']);
    }
}

/// The rendered text begins as the first part does.
pub proof fn lemma_render_begins(parts: Seq<PartModel>, params: Seq<(Seq<char>, Seq<char>)>)
    requires
        parts.len() > 0,
        parts[0] matches PartModel::Text(x) && x.len() > 0,
        render_parts(parts, params) is Some,
    ensures
        ({
            let r = render_parts(parts, params).unwrap();
            r.len() > 0 && (parts[0] matches PartModel::Text(x) && r[0] == x[0])
        }),
    decreases parts.len(),
{
    let before = parts.drop_last();
    if parts.len() == 1 {
        assert(render_parts(before, params) == Some(Seq::<char>::empty()));
    } else {
        assert(before[0] == parts[0]);
        lemma_render_begins(before, params);
    }
}

/// The origin is fixed: whatever the captured parameters hold, the URL that a
/// template renders begins with the template's origin, and its origin ends there.
pub proof fn origin_is_fixed(t: TemplateModel, params: Seq<(Seq<char>, Seq<char>)>)
    requires
        template_well_formed(t),
        render(t, params) is Some,
    ensures
        ({
            let url = render(t, params).unwrap();
            &&& origin_len(url) == Some(t.origin.len() as int)
            &&& url.take(t.origin.len() as int) == t.origin
        }),
{
    let url = render(t, params).unwrap();
    let path = render_parts(t.parts, params).unwrap();
    let n = t.origin.len() as int;
    let a = prefix_len(t.origin, |c: char| scheme_char(c)) as int;
    lemma_origin_len(t.origin);
    if t.parts.len() > 0 {
        lemma_render_begins(t.parts, params);
        assert(url[n] == path[0]);
    } else {
        assert(path.len() == 0);
    }
    assert forall|k: int| 0 <= k < n implies #[trigger] url[k] == t.origin[k] by {}
    assert(origin_at(url, a, n));
    lemma_origin_at(url, a, n);
    assert(url.take(n) == t.origin);
}

/// A failure to fill a placeholder is not mended by the parts that follow.
pub proof fn lemma_render_prefix(
    parts: Seq<PartModel>,
    params: Seq<(Seq<char>, Seq<char>)>,
    k: int,
)
    requires
        0 <= k <= parts.len(),
        render_parts(parts.take(k), params) is None,
    ensures
        render_parts(parts, params) is None,
    decreases parts.len() - k,
{
    if k < parts.len() {
        assert(parts.take(k + 1).drop_last() == parts.take(k));
        lemma_render_prefix(parts, params, k + 1);
    } else {
        assert(parts.take(k) == parts);
    }
}

/// A template whose placeholders are all declared can be filled from any set of
/// parameters that carries the declared names.
pub proof fn lemma_declared_renders(
    parts: Seq<PartModel>,
    names: Seq<Seq<char>>,
    params: Seq<(Seq<char>, Seq<char>)>,
)
    requires
        declared(parts, names),
        forall|n: Seq<char>| names.contains(n) ==> lookup(params, n) is Some,
    ensures
        render_parts(parts, params) is Some,
    decreases parts.len(),
{
    if parts.len() > 0 {
        let before = parts.drop_last();
        assert forall|i: int| 0 <= i < before.len() implies ((#[trigger] before[i]) matches PartModel::Slot(
            n,
        ) ==> names.contains(n)) by {
            assert(before[i] == parts[i]);
        }
        lemma_declared_renders(before, names, params);
        assert(parts.last() == parts[parts.len() - 1]);
    }
}

/// A validated upstream URL template.
#[derive(Debug)]
pub struct ProxyTemplate {
    origin: String,
    parts: Vec<Part>,
}

impl View for ProxyTemplate {
    type V = TemplateModel;

    closed spec fn view(&self) -> TemplateModel {
        TemplateModel { origin: self.origin@, parts: views(self.parts@) }
    }
}

impl ProxyTemplate {
    /// Every template is well formed.
    #[verifier::type_invariant]
    pub open spec fn valid(&self) -> bool {
        template_well_formed(self@)
    }

    /// Reads a template such as `https://i.example/{path}`.
    pub fn parse(text: &str) -> (r: Result<ProxyTemplate, TemplateError>)
        ensures
            match r {
                Ok(t) => template_of(text@) == Ok::<TemplateModel, TemplateError>(t@),
                Err(e) => template_of(text@) == Err::<TemplateModel, TemplateError>(e),
            },
    {
        let chars = chars_of(text);
        match scan_origin(&chars) {
            None => Err(TemplateError::Origin),
            Some(end) => match read_parts(&chars, end) {
                None => Err(TemplateError::Placeholder),
                Some(parts) => {
                    let origin = string_of(&chars, 0, end);
                    proof {
                        assert(chars@.subrange(0, end as int) == text@.take(end as int));
                        lemma_template_of_well_formed(text@);
                    }
                    Ok(ProxyTemplate { origin, parts })
                },
            },
        }
    }

    /// The origin: scheme, `://` and host, as written in the template.
    pub fn origin(&self) -> (origin: &String)
        ensures
            origin@ == self@.origin,
    {
        &self.origin
    }

    /// Whether every placeholder names a parameter of `pattern`.
    pub fn fits(&self, pattern: &Pattern) -> (ok: bool)
        ensures
            ok == declared(self@.parts, param_names(pattern@)),
    {
        let ghost parts = views(self.parts@);
        let ghost names = param_names(pattern@);
        let mut i: usize = 0;
        while i < self.parts.len()
            invariant
                i <= self.parts.len(),
                parts == views(self.parts@),
                names == param_names(pattern@),
                forall|j: int|
                    0 <= j < i ==> ((#[trigger] parts[j]) matches PartModel::Slot(n)
                        ==> names.contains(n)),
            decreases self.parts.len() - i,
        {
            assert(parts[i as int] == self.parts@[i as int]@);
            match &self.parts[i] {
                Part::Text(_) => {},
                Part::Slot(name) => {
                    if !pattern.has_param(name.as_str()) {
                        return false;
                    }
                },
            }
            i += 1;
        }
        true
    }

    /// The upstream URL for the captured parameters: the origin, then the path with
    /// every placeholder replaced. Fails exactly if a placeholder has no parameter.
    pub fn render(&self, params: &ParamSet) -> (r: Result<String, TemplateError>)
        ensures
            match r {
                Ok(url) => render(self@, params@) == Some(url@),
                Err(e) => e == TemplateError::UnknownParam && render(self@, params@) is None,
            },
    {
        let ghost parts = views(self.parts@);
        let mut url = self.origin.clone();
        let ghost mut done = Seq::<char>::empty();
        let mut i: usize = 0;
        assert(parts.take(0) == Seq::<PartModel>::empty());
        assert(self.origin@ + done == self.origin@);
        while i < self.parts.len()
            invariant
                i <= self.parts.len(),
                parts == views(self.parts@),
                render_parts(parts.take(i as int), params@) == Some(done),
                url@ == self.origin@ + done,
            decreases self.parts.len() - i,
        {
            assert(parts.take(i + 1).drop_last() == parts.take(i as int));
            assert(parts.take(i + 1).last() == self.parts@[i as int]@);
            match &self.parts[i] {
                Part::Text(text) => {
                    url.append(text.as_str());
                    proof {
                        assert(self.origin@ + done + text@ == self.origin@ + (done + text@));
                        done = done + text@;
                    }
                },
                Part::Slot(name) => {
                    match params.get(name.as_str()) {
                        Some(value) => {
                            url.append(value.as_str());
                            proof {
                                assert(self.origin@ + done + value@ == self.origin@ + (done
                                    + value@));
                                done = done + value@;
                            }
                        },
                        None => {
                            proof {
                                lemma_render_prefix(parts, params@, i + 1);
                            }
                            return Err(TemplateError::UnknownParam);
                        },
                    }
                },
            }
            i += 1;
        }
        assert(parts.take(self.parts.len() as int) == parts);
        Ok(url)
    }
}

} // verus!
