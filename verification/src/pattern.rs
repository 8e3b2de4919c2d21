//! Route patterns: ordered segment matchers, and the parameters they capture.

use vstd::prelude::*;
use crate::path::{join_from, join_segments, split_path, split_segments};
use crate::text::{chars_of, string_of, views};

verus! {

/// One matcher of a route pattern.
#[derive(Clone, Debug, PartialEq, Eq)]
pub enum Segment {
    /// Matches one path segment that equals the text.
    Literal(String),
    /// `:name`: captures exactly one path segment.
    Named(String),
    /// `*name`: captures every remaining path segment, joined with `/`.
    Wildcard(String),
}

/// The mathematical model of a [`Segment`].
pub enum SegmentModel {
    Literal(Seq<char>),
    Named(Seq<char>),
    Wildcard(Seq<char>),
}

impl View for Segment {
    type V = SegmentModel;

    open spec fn view(&self) -> SegmentModel {
        match self {
            Segment::Literal(t) => SegmentModel::Literal(t@),
            Segment::Named(n) => SegmentModel::Named(n@),
            Segment::Wildcard(n) => SegmentModel::Wildcard(n@),
        }
    }
}

/// Why a pattern is refused at registration.
#[derive(Clone, Copy, Debug, PartialEq, Eq)]
pub enum PatternError {
    /// A wildcard segment stands before the final segment.
    WildcardNotLast,
    /// Two parameters of the pattern have the same name.
    DuplicateParam,
}

/// The matcher that one segment of a pattern's text stands for.
pub open spec fn segment_of(text: Seq<char>) -> SegmentModel {
    if text.len() > 0 && text[0] == ':' {
        SegmentModel::Named(text.skip(1))
    } else if text.len() > 0 && text[0] == '*' {
        SegmentModel::Wildcard(text.skip(1))
    } else {
        SegmentModel::Literal(text)
    }
}

/// The matchers that a pattern's text stands for.
pub open spec fn pattern_of(text: Seq<char>) -> Seq<SegmentModel> {
    split_segments(text).map_values(|t: Seq<char>| segment_of(t))
}

/// The parameter names of a pattern, in order.
pub open spec fn param_names(p: Seq<SegmentModel>) -> Seq<Seq<char>>
    decreases p.len(),
{
    if p.len() == 0 {
        Seq::empty()
    } else {
        match p.last() {
            SegmentModel::Literal(_) => param_names(p.drop_last()),
            SegmentModel::Named(n) => param_names(p.drop_last()).push(n),
            SegmentModel::Wildcard(n) => param_names(p.drop_last()).push(n),
        }
    }
}

/// A wildcard, if present, is the final segment.
pub open spec fn wildcard_last(p: Seq<SegmentModel>) -> bool {
    forall|i: int| 0 <= i < p.len() && (#[trigger] p[i]) is Wildcard ==> i == p.len() - 1
}

/// The reason for which a pattern is refused, if any. A misplaced wildcard is reported
/// before a repeated name.
pub open spec fn pattern_error(p: Seq<SegmentModel>) -> Option<PatternError> {
    if !wildcard_last(p) {
        Some(PatternError::WildcardNotLast)
    } else if !param_names(p).no_duplicates() {
        Some(PatternError::DuplicateParam)
    } else {
        None
    }
}

/// The invariant of a registered pattern.
pub open spec fn well_formed(p: Seq<SegmentModel>) -> bool {
    pattern_error(p) is None
}

impl Segment {
    /// The matcher that one segment of a pattern's text stands for.
    pub fn from_text(text: &str) -> (segment: Segment)
        ensures
            segment@ == segment_of(text@),
    {
        let chars = chars_of(text);
        let n = chars.len();
        if n > 0 && chars[0] == ':' {
            assert(chars@.subrange(1, n as int) == text@.skip(1));
            Segment::Named(string_of(&chars, 1, n))
        } else if n > 0 && chars[0] == '*' {
            assert(chars@.subrange(1, n as int) == text@.skip(1));
            Segment::Wildcard(string_of(&chars, 1, n))
        } else {
            assert(chars@.subrange(0, n as int) == text@);
            Segment::Literal(string_of(&chars, 0, n))
        }
    }
}

/// Whether no wildcard stands before the final segment.
fn wildcard_is_last(segments: &Vec<Segment>) -> (ok: bool)
    ensures
        ok == wildcard_last(views(segments@)),
{
    let ghost p = views(segments@);
    let mut i: usize = 0;
    while i < segments.len() && i + 1 < segments.len()
        invariant
            p == views(segments@),
            forall|j: int| 0 <= j < i && j < p.len() ==> !((#[trigger] p[j]) is Wildcard),
        decreases segments.len() - i,
    {
        match &segments[i] {
            Segment::Wildcard(_) => {
                assert(p[i as int] is Wildcard);
                return false;
            },
            _ => {},
        }
        i += 1;
    }
    true
}

/// The parameter names of the segments, in order.
fn names_of(segments: &Vec<Segment>) -> (names: Vec<String>)
    ensures
        views(names@) == param_names(views(segments@)),
{
    let ghost p = views(segments@);
    let mut names: Vec<String> = Vec::new();
    let mut i: usize = 0;
    assert(p.take(0) == Seq::<SegmentModel>::empty());
    while i < segments.len()
        invariant
            i <= segments.len(),
            p == views(segments@),
            views(names@) == param_names(p.take(i as int)),
        decreases segments.len() - i,
    {
        let ghost before = views(names@);
        assert(p.take(i + 1).drop_last() == p.take(i as int));
        assert(p.take(i + 1).last() == p[i as int]);
        match &segments[i] {
            Segment::Literal(_) => {},
            Segment::Named(n) => {
                names.push(n.clone());
                assert(views(names@) == before.push(n@));
            },
            Segment::Wildcard(n) => {
                names.push(n.clone());
                assert(views(names@) == before.push(n@));
            },
        }
        i += 1;
    }
    assert(p.take(segments.len() as int) == p);
    names
}

/// Whether no text occurs twice in `names`.
fn all_distinct(names: &Vec<String>) -> (ok: bool)
    ensures
        ok == views(names@).no_duplicates(),
{
    let ghost v = views(names@);
    let mut i: usize = 0;
    while i < names.len()
        invariant
            i <= names.len(),
            v == views(names@),
            forall|a: int, b: int| 0 <= a < b < i ==> v[a] != v[b],
        decreases names.len() - i,
    {
        let mut j: usize = 0;
        while j < i
            invariant
                j <= i < names.len(),
                v == views(names@),
                forall|a: int| 0 <= a < j ==> v[a] != v[i as int],
            decreases i - j,
        {
            if names[j] == names[i] {
                assert(v[j as int] == v[i as int]);
                return false;
            }
            j += 1;
        }
        i += 1;
    }
    true
}

/// A validated route pattern.
#[derive(Debug)]
pub struct Pattern {
    segments: Vec<Segment>,
}

impl View for Pattern {
    type V = Seq<SegmentModel>;

    closed spec fn view(&self) -> Seq<SegmentModel> {
        views(self.segments@)
    }
}

impl Pattern {
    /// Every pattern is well formed: a wildcard only at the end, no name twice.
    #[verifier::type_invariant]
    pub open spec fn valid(&self) -> bool {
        well_formed(self@)
    }

    /// Reads a pattern such as `/vid/:id/:size` or `/img/*path`.
    ///
    /// Fails if a wildcard stands before the final segment or if a parameter name
    /// occurs twice, and in no other case.
    pub fn parse(text: &str) -> (r: Result<Pattern, PatternError>)
        ensures
            match r {
                Ok(p) => p@ == pattern_of(text@) && pattern_error(pattern_of(text@)) is None,
                Err(e) => pattern_error(pattern_of(text@)) == Some(e),
            },
    {
        let parts = split_path(text);
        let ghost texts = split_segments(text@);
        let ghost target = pattern_of(text@);
        let mut segments: Vec<Segment> = Vec::new();
        let mut i: usize = 0;
        assert(target.take(0) == Seq::<SegmentModel>::empty());
        while i < parts.len()
            invariant
                i <= parts.len(),
                texts == split_segments(text@),
                target == pattern_of(text@),
                views(parts@) == texts,
                views(segments@) == target.take(i as int),
            decreases parts.len() - i,
        {
            let ghost before = views(segments@);
            let segment = Segment::from_text(parts[i].as_str());
            assert(parts@[i as int]@ == texts[i as int]);
            assert(target[i as int] == segment_of(texts[i as int]));
            segments.push(segment);
            assert(views(segments@) == before.push(segment@));
            assert(target.take(i + 1) == target.take(i as int).push(target[i as int]));
            i += 1;
        }
        assert(target.take(parts.len() as int) == target);
        if !wildcard_is_last(&segments) {
            return Err(PatternError::WildcardNotLast);
        }
        let names = names_of(&segments);
        if !all_distinct(&names) {
            return Err(PatternError::DuplicateParam);
        }
        Ok(Pattern { segments })
    }
}

/// Whether the pattern accepts the path segments, position by position: a literal
/// equals its segment, a named parameter takes exactly one segment, a final wildcard
/// takes every remaining segment (possibly none).
pub open spec fn accepts(p: Seq<SegmentModel>, segments: Seq<Seq<char>>) -> bool {
    &&& wildcard_last(p)
    &&& if p.len() > 0 && p.last() is Wildcard {
        segments.len() >= p.len() - 1
    } else {
        segments.len() == p.len()
    }
    &&& forall|i: int|
        0 <= i < p.len() ==> ((#[trigger] p[i]) matches SegmentModel::Literal(t) ==> i
            < segments.len() && segments[i] == t)
}

/// What the parameters of the pattern capture from the path segments, in the
/// pattern's order: pairs of a name and the captured text.
pub open spec fn captures(p: Seq<SegmentModel>, segments: Seq<Seq<char>>) -> Seq<
    (Seq<char>, Seq<char>),
>
    decreases p.len(),
{
    if p.len() == 0 {
        Seq::empty()
    } else {
        let i = p.len() - 1;
        match p.last() {
            SegmentModel::Literal(_) => captures(p.drop_last(), segments),
            SegmentModel::Named(n) => captures(p.drop_last(), segments).push((n, segments[i])),
            SegmentModel::Wildcard(n) => captures(p.drop_last(), segments).push(
                (n, join_segments(segments.skip(i))),
            ),
        }
    }
}

/// The result of matching a pattern against path segments.
pub open spec fn match_segments(p: Seq<SegmentModel>, segments: Seq<Seq<char>>) -> Option<
    Seq<(Seq<char>, Seq<char>)>,
> {
    if accepts(p, segments) {
        Some(captures(p, segments))
    } else {
        None
    }
}

/// The text captured under `name`, if any.
pub open spec fn lookup(params: Seq<(Seq<char>, Seq<char>)>, name: Seq<char>) -> Option<
    Seq<char>,
>
    decreases params.len(),
{
    if params.len() == 0 {
        None
    } else if params[0].0 == name {
        Some(params[0].1)
    } else {
        lookup(params.drop_first(), name)
    }
}

/// The parameters captured from one request path.
#[derive(Clone, Debug, PartialEq, Eq)]
pub struct ParamSet {
    entries: Vec<(String, String)>,
}

impl View for ParamSet {
    type V = Seq<(Seq<char>, Seq<char>)>;

    closed spec fn view(&self) -> Seq<(Seq<char>, Seq<char>)> {
        views(self.entries@)
    }
}

impl ParamSet {
    /// The number of captured parameters.
    pub fn len(&self) -> (n: usize)
        ensures
            n == self@.len(),
    {
        self.entries.len()
    }

    /// The name of the parameter at `index`.
    pub fn name_at(&self, index: usize) -> (name: &String)
        requires
            index < self@.len(),
        ensures
            name@ == self@[index as int].0,
    {
        &self.entries[index].0
    }

    /// The text captured by the parameter at `index`.
    pub fn value_at(&self, index: usize) -> (value: &String)
        requires
            index < self@.len(),
        ensures
            value@ == self@[index as int].1,
    {
        &self.entries[index].1
    }

    /// The text captured under `name`.
    pub fn get(&self, name: &str) -> (r: Option<&String>)
        ensures
            match r {
                Some(value) => lookup(self@, name@) == Some(value@),
                None => lookup(self@, name@) is None,
            },
    {
        let key = name.to_owned();
        let ghost all = self@;
        let mut i: usize = 0;
        assert(all.skip(0) == all);
        while i < self.entries.len()
            invariant
                i <= self.entries.len(),
                all == self@,
                key@ == name@,
                lookup(all, name@) == lookup(all.skip(i as int), name@),
            decreases self.entries.len() - i,
        {
            assert(all.skip(i as int).drop_first() == all.skip(i + 1));
            assert(all.skip(i as int)[0] == all[i as int]);
            if self.entries[i].0 == key {
                return Some(&self.entries[i].1);
            }
            i += 1;
        }
        None
    }
}

impl Pattern {
    /// Matches the pattern against the segments of a path and hands out what its
    /// parameters capture.
    pub fn capture(&self, segments: &Vec<String>) -> (r: Option<ParamSet>)
        ensures
            match r {
                Some(params) => match_segments(self@, views(segments@)) == Some(params@),
                None => match_segments(self@, views(segments@)) is None,
            },
            r matches Some(params) ==> names_of_pairs(params@) == param_names(self@)
                && names_of_pairs(params@).no_duplicates(),
    {
        proof {
            use_type_invariant(self);
            lemma_capture_names(self@, views(segments@));
        }
        let ghost p = self@;
        let ghost path = views(segments@);
        let n = self.segments.len();
        let ends_wild = n > 0 && match &self.segments[n - 1] {
            Segment::Wildcard(_) => true,
            _ => false,
        };
        assert(ends_wild == (p.len() > 0 && p.last() is Wildcard));
        if ends_wild {
            if segments.len() < n - 1 {
                return None;
            }
        } else if segments.len() != n {
            return None;
        }
        let mut entries: Vec<(String, String)> = Vec::new();
        let mut i: usize = 0;
        assert(p.take(0) == Seq::<SegmentModel>::empty());
        while i < n
            invariant
                i <= n == self.segments.len(),
                p == self@,
                path == views(segments@),
                wildcard_last(p),
                ends_wild == (p.len() > 0 && p.last() is Wildcard),
                if ends_wild {
                    segments.len() >= n - 1
                } else {
                    segments.len() == n
                },
                forall|j: int|
                    0 <= j < i ==> ((#[trigger] p[j]) matches SegmentModel::Literal(t) ==> j
                        < path.len() && path[j] == t),
                views(entries@) == captures(p.take(i as int), path),
            decreases n - i,
        {
            let ghost before = views(entries@);
            assert(p.take(i + 1).drop_last() == p.take(i as int));
            assert(p.take(i + 1).last() == p[i as int]);
            assert(p[i as int] == self.segments@[i as int]@);
            match &self.segments[i] {
                Segment::Literal(text) => {
                    assert(i < segments.len());
                    if !(segments[i] == *text) {
                        assert(path[i as int] == segments@[i as int]@);
                        return None;
                    }
                    assert(path[i as int] == segments@[i as int]@);
                },
                Segment::Named(name) => {
                    assert(i < segments.len());
                    let entry = (name.clone(), segments[i].clone());
                    entries.push(entry);
                    assert(views(entries@) == before.push((name@, path[i as int])));
                },
                Segment::Wildcard(name) => {
                    assert(i == n - 1);
                    let entry = (name.clone(), join_from(segments, i));
                    entries.push(entry);
                    assert(views(entries@) == before.push(
                        (name@, join_segments(path.skip(i as int))),
                    ));
                },
            }
            i += 1;
        }
        assert(p.take(n as int) == p);
        Some(ParamSet { entries })
    }
}

/// The first components of the pairs, in order.
pub open spec fn names_of_pairs(params: Seq<(Seq<char>, Seq<char>)>) -> Seq<Seq<char>> {
    params.map_values(|pair: (Seq<char>, Seq<char>)| pair.0)
}

/// The captured parameters carry the names of the pattern, in the pattern's order.
pub proof fn lemma_capture_names(p: Seq<SegmentModel>, segments: Seq<Seq<char>>)
    ensures
        names_of_pairs(captures(p, segments)) == param_names(p),
    decreases p.len(),
{
    if p.len() > 0 {
        lemma_capture_names(p.drop_last(), segments);
        let before = captures(p.drop_last(), segments);
        match p.last() {
            SegmentModel::Literal(_) => {},
            SegmentModel::Named(n) => {
                let pair = (n, segments[p.len() - 1]);
                assert(names_of_pairs(before.push(pair)) == names_of_pairs(before).push(n));
            },
            SegmentModel::Wildcard(n) => {
                let pair = (n, join_segments(segments.skip(p.len() - 1)));
                assert(names_of_pairs(before.push(pair)) == names_of_pairs(before).push(n));
            },
        }
    } else {
        assert(names_of_pairs(captures(p, segments)) == param_names(p));
    }
}

/// A name has a captured text exactly if some pair carries it.
pub proof fn lemma_lookup_finds(params: Seq<(Seq<char>, Seq<char>)>, name: Seq<char>)
    ensures
        lookup(params, name) is Some <==> names_of_pairs(params).contains(name),
    decreases params.len(),
{
    let names = names_of_pairs(params);
    if params.len() == 0 {
        assert(!names.contains(name));
    } else if params[0].0 == name {
        assert(names[0] == name);
    } else {
        let rest = params.drop_first();
        lemma_lookup_finds(rest, name);
        let rest_names = names_of_pairs(rest);
        assert(rest_names == names.drop_first());
        if names.contains(name) {
            let i = choose|i: int| 0 <= i < names.len() && names[i] == name;
            assert(rest_names[i - 1] == name);
        }
        if rest_names.contains(name) {
            let i = choose|i: int| 0 <= i < rest_names.len() && rest_names[i] == name;
            assert(names[i + 1] == name);
        }
    }
}

impl Pattern {
    /// Whether `name` is one of the pattern's parameters.
    pub fn has_param(&self, name: &str) -> (found: bool)
        ensures
            found == param_names(self@).contains(name@),
    {
        let key = name.to_owned();
        let names = names_of(&self.segments);
        let ghost all = views(names@);
        let mut i: usize = 0;
        while i < names.len()
            invariant
                i <= names.len(),
                all == views(names@),
                all == param_names(self@),
                key@ == name@,
                forall|j: int| 0 <= j < i ==> all[j] != name@,
            decreases names.len() - i,
        {
            if names[i] == key {
                assert(all[i as int] == name@);
                return true;
            }
            i += 1;
        }
        false
    }
}

/// The pattern `/*`: one wildcard without a name.
pub open spec fn is_catch_all(p: Seq<SegmentModel>) -> bool {
    p.len() == 1 && p[0] == SegmentModel::Wildcard(Seq::empty())
}

/// The pattern `/*` accepts every path.
pub proof fn lemma_catch_all_accepts(p: Seq<SegmentModel>, segments: Seq<Seq<char>>)
    requires
        is_catch_all(p),
    ensures
        accepts(p, segments),
        captures(p, segments) == seq![(Seq::<char>::empty(), join_segments(segments))],
{
    assert(p.last() == p[0]);
    assert(captures(p.drop_last(), segments) == Seq::<(Seq<char>, Seq<char>)>::empty());
    assert(segments.skip(0) == segments);
    assert(Seq::<(Seq<char>, Seq<char>)>::empty().push(
        (Seq::<char>::empty(), join_segments(segments)),
    ) == seq![(Seq::<char>::empty(), join_segments(segments))]);
}

impl Pattern {
    /// Whether this is the pattern `/*`.
    pub fn is_catch_all(&self) -> (r: bool)
        ensures
            r == is_catch_all(self@),
    {
        if self.segments.len() != 1 {
            return false;
        }
        match &self.segments[0] {
            Segment::Wildcard(name) => {
                let empty = name.as_str().is_empty();
                assert(empty ==> name@ == Seq::<char>::empty());
                empty
            },
            _ => false,
        }
    }
}

} // verus!
