//! Resource definitions: path patterns made of static and dynamic segments.
//!
//! A pattern is split at every `/`. A segment of the form `{name}`, with a
//! name of at least one byte and no brace in it, is dynamic: it matches any
//! non-empty path segment and captures it under `name`. Every other segment
//! is static and matches the path segment that equals it, or, where the
//! router ignores case, the one that equals it up to the case of ASCII
//! letters.

use vstd::prelude::*;
use vstd::string::StringSliceAdditionalSpecFns;
use crate::bytes::{
    bytes_eq, bytes_eq_ignore_case, copy_bytes, copy_range, eq_ignore_case, lower,
};
use crate::path::{
    first_slash, join, join_segments, lemma_segments_view_push, lemma_first_slash_bounds,
    lemma_first_slash_is, lemma_split_join, lemma_split_segments, segments_view, slash_free,
    split, split_path, SLASH,
};

verus! {

/// The byte that opens a dynamic segment.
pub const OPEN: u8 = 123;

/// The byte that closes a dynamic segment.
pub const CLOSE: u8 = 125;

/// One segment of a pattern.
#[derive(Clone, Debug, PartialEq, Eq)]
pub enum Segment {
    /// Literal text.
    Static(Vec<u8>),
    /// A placeholder, with the name under which it captures.
    Dynamic(Vec<u8>),
}

/// What a [`Segment`] stands for.
pub enum SegmentView {
    Static(Seq<u8>),
    Dynamic(Seq<u8>),
}

impl View for Segment {
    type V = SegmentView;

    open spec fn view(&self) -> SegmentView {
        match self {
            Segment::Static(text) => SegmentView::Static(text@),
            Segment::Dynamic(name) => SegmentView::Dynamic(name@),
        }
    }
}

/// A value captured by a dynamic segment.
#[derive(Clone, Debug, PartialEq, Eq)]
pub struct Param {
    pub name: Vec<u8>,
    pub value: Vec<u8>,
}

/// What a [`Param`] stands for.
pub struct ParamView {
    pub name: Seq<u8>,
    pub value: Seq<u8>,
}

impl View for Param {
    type V = ParamView;

    open spec fn view(&self) -> ParamView {
        ParamView { name: self.name@, value: self.value@ }
    }
}

/// The segments that a vector of segments stands for.
pub open spec fn pattern_view(v: Seq<Segment>) -> Seq<SegmentView> {
    Seq::new(v.len(), |i: int| v[i]@)
}

/// The captures that a vector of params stands for.
pub open spec fn params_view(v: Seq<Param>) -> Seq<ParamView> {
    Seq::new(v.len(), |i: int| v[i]@)
}

/// A pattern segment of the form `{name}`.
pub open spec fn is_placeholder(part: Seq<u8>) -> bool {
    &&& part.len() >= 3
    &&& part[0] == OPEN
    &&& part[part.len() - 1] == CLOSE
    &&& forall|i: int| 1 <= i < part.len() - 1 ==> part[i] != OPEN && part[i] != CLOSE
}

/// The segment that one piece of a pattern denotes.
pub open spec fn parse_segment(part: Seq<u8>) -> SegmentView {
    if is_placeholder(part) {
        SegmentView::Dynamic(part.subrange(1, part.len() - 1))
    } else {
        SegmentView::Static(part)
    }
}

/// The segments that a pattern denotes.
pub open spec fn parse_pattern(pattern: Seq<u8>) -> Seq<SegmentView> {
    Seq::new(split(pattern).len(), |i: int| parse_segment(split(pattern)[i]))
}

/// Whether one pattern segment accepts one path segment.
pub open spec fn segment_matches(segment: SegmentView, part: Seq<u8>, ignore_case: bool) -> bool {
    match segment {
        SegmentView::Static(text) => if ignore_case {
            eq_ignore_case(text, part)
        } else {
            text == part
        },
        SegmentView::Dynamic(_) => part.len() > 0,
    }
}

/// Whether the first `n` pattern segments accept the path segments at their
/// positions.
pub open spec fn segments_match(
    segments: Seq<SegmentView>,
    parts: Seq<Seq<u8>>,
    ignore_case: bool,
    n: int,
) -> bool {
    forall|i: int| 0 <= i < n ==> segment_matches(#[trigger] segments[i], parts[i], ignore_case)
}

/// Whether a pattern accepts a path: both have the same number of segments
/// and each pattern segment accepts the path segment at its position.
pub open spec fn pattern_matches(
    segments: Seq<SegmentView>,
    path: Seq<u8>,
    ignore_case: bool,
) -> bool {
    &&& split(path).len() == segments.len()
    &&& segments_match(segments, split(path), ignore_case, segments.len() as int)
}

/// The captures of the first `n` segments: one for each dynamic segment, in
/// pattern order, holding the path segment at its position as it stands.
pub open spec fn captures_upto(segments: Seq<SegmentView>, parts: Seq<Seq<u8>>, n: int) -> Seq<
    ParamView,
>
    decreases n,
{
    if n <= 0 {
        Seq::empty()
    } else {
        let before = captures_upto(segments, parts, n - 1);
        match segments[n - 1] {
            SegmentView::Static(_) => before,
            SegmentView::Dynamic(name) => before.push(ParamView { name, value: parts[n - 1] }),
        }
    }
}

/// What a pattern captures from a path that it accepts.
pub open spec fn captures(segments: Seq<SegmentView>, path: Seq<u8>) -> Seq<ParamView> {
    captures_upto(segments, split(path), segments.len() as int)
}

/// Number of dynamic segments among the first `n`.
pub open spec fn dynamic_count(segments: Seq<SegmentView>, n: int) -> nat
    decreases n,
{
    if n <= 0 {
        0
    } else {
        dynamic_count(segments, n - 1) + if segments[n - 1] is Dynamic {
            1nat
        } else {
            0nat
        }
    }
}

/// The first `n` segments with the dynamic ones replaced, in order, by
/// `values`.
pub open spec fn expand_upto(segments: Seq<SegmentView>, values: Seq<Seq<u8>>, n: int) -> Seq<
    Seq<u8>,
>
    decreases n,
{
    if n <= 0 {
        Seq::empty()
    } else {
        let before = expand_upto(segments, values, n - 1);
        match segments[n - 1] {
            SegmentView::Static(text) => before.push(text),
            SegmentView::Dynamic(_) => before.push(
                values[dynamic_count(segments, n - 1) as int],
            ),
        }
    }
}

/// The path that a pattern generates from `values`: `None` where there are
/// fewer values than dynamic segments; values beyond that number are unused.
pub open spec fn generate(segments: Seq<SegmentView>, values: Seq<Seq<u8>>) -> Option<Seq<u8>> {
    if dynamic_count(segments, segments.len() as int) <= values.len() {
        Some(join(expand_upto(segments, values, segments.len() as int)))
    } else {
        None
    }
}

/// Segments as a pattern can denote them: at least one, and no separator in
/// a static one.
pub open spec fn well_formed(segments: Seq<SegmentView>) -> bool {
    &&& segments.len() >= 1
    &&& forall|i: int|
        0 <= i < segments.len() ==> (#[trigger] segments[i] matches SegmentView::Static(text)
            ==> slash_free(text))
}

/// Every pattern denotes well-formed segments.
pub proof fn lemma_parse_well_formed(pattern: Seq<u8>)
    ensures
        well_formed(parse_pattern(pattern)),
{
    lemma_split_segments(pattern);
    let segments = parse_pattern(pattern);
    assert forall|i: int| 0 <= i < segments.len() implies (
    #[trigger] segments[i] matches SegmentView::Static(text) ==> slash_free(text)) by {
        assert(slash_free(split(pattern)[i]));
    }
}

/// A name and the pattern registered under it.
#[derive(Clone, Debug, PartialEq, Eq)]
pub struct ResourceDef {
    name: Vec<u8>,
    segments: Vec<Segment>,
}

/// What a [`ResourceDef`] stands for.
pub struct ResourceDefView {
    pub name: Seq<u8>,
    pub segments: Seq<SegmentView>,
}

impl View for ResourceDef {
    type V = ResourceDefView;

    open spec fn view(&self) -> ResourceDefView {
        ResourceDefView { name: self.name(), segments: self.segments() }
    }
}

impl ResourceDef {
    /// The name; empty for an unnamed resource.
    pub closed spec fn name(&self) -> Seq<u8> {
        self.name@
    }

    /// The pattern's segments.
    pub closed spec fn segments(&self) -> Seq<SegmentView> {
        pattern_view(self.segments@)
    }

    /// Whether the segments are such as a pattern denotes. This holds of
    /// every definition that [`ResourceDef::new`] made, under any name.
    pub open spec fn wf(&self) -> bool {
        well_formed(self.segments())
    }

    /// Whether this definition accepts `path`.
    pub open spec fn matches(&self, path: Seq<u8>, ignore_case: bool) -> bool {
        pattern_matches(self.segments(), path, ignore_case)
    }

    /// An unnamed definition for `pattern`.
    pub fn new(pattern: &str) -> (def: ResourceDef)
        ensures
            def.wf(),
            def.name() == Seq::<u8>::empty(),
            def.segments() == parse_pattern(pattern.spec_bytes()),
    {
        let parts = split_path(pattern.as_bytes());
        let mut segments: Vec<Segment> = Vec::new();
        let mut i: usize = 0;
        while i < parts.len()
            invariant
                i <= parts.len(),
                segments.len() == i,
                forall|k: int|
                    0 <= k < i ==> (#[trigger] segments@[k])@ == parse_segment(parts@[k]@),
            decreases parts.len() - i,
        {
            let segment = parse_part(parts[i].as_slice());
            segments.push(segment);
            i += 1;
        }
        proof {
            lemma_parse_well_formed(pattern.spec_bytes());
            assert(pattern_view(segments@) =~= parse_pattern(pattern.spec_bytes())) by {
                assert forall|k: int| 0 <= k < segments.len() implies pattern_view(segments@)[k]
                    == parse_pattern(pattern.spec_bytes())[k] by {
                    assert(segments_view(parts@)[k] == parts@[k]@);
                }
            }
        }
        ResourceDef { name: Vec::new(), segments }
    }

    /// The same definition under `name`.
    pub fn named(self, name: &str) -> (def: ResourceDef)
        ensures
            def.name() == name.spec_bytes(),
            def.segments() == self.segments(),
    {
        ResourceDef { name: copy_bytes(name.as_bytes()), segments: self.segments }
    }

    /// Whether the definition has the name `name`.
    pub fn has_name(&self, name: &[u8]) -> (r: bool)
        ensures
            r == (self.name() == name@),
    {
        bytes_eq(self.name.as_slice(), name)
    }

    /// A fresh copy of the definition.
    pub fn duplicate(&self) -> (def: ResourceDef)
        ensures
            def.name() == self.name(),
            def.segments() == self.segments(),
    {
        let mut segments: Vec<Segment> = Vec::new();
        let mut i: usize = 0;
        while i < self.segments.len()
            invariant
                i <= self.segments.len(),
                segments.len() == i,
                forall|k: int| 0 <= k < i ==> (#[trigger] segments@[k])@ == self.segments@[k]@,
            decreases self.segments.len() - i,
        {
            let segment = match &self.segments[i] {
                Segment::Static(text) => Segment::Static(copy_bytes(text.as_slice())),
                Segment::Dynamic(name) => Segment::Dynamic(copy_bytes(name.as_slice())),
            };
            segments.push(segment);
            i += 1;
        }
        assert(pattern_view(segments@) =~= pattern_view(self.segments@));
        ResourceDef { name: copy_bytes(self.name.as_slice()), segments }
    }

    /// Whether the definition has a name at all.
    pub fn is_named(&self) -> (r: bool)
        ensures
            r == (self.name().len() > 0),
    {
        self.name.len() > 0
    }

    /// Matches `path` against the pattern and returns what the dynamic
    /// segments captured.
    pub fn match_path(&self, path: &[u8], ignore_case: bool) -> (found: Option<Vec<Param>>)
        ensures
            found is Some <==> self.matches(path@, ignore_case),
            found matches Some(params) ==> params_view(params@) == captures(
                self.segments(),
                path@,
            ),
    {
        let parts = split_path(path);
        if parts.len() != self.segments.len() {
            return None;
        }
        let ghost segments = self.segments();
        let ghost pieces = split(path@);
        let mut params: Vec<Param> = Vec::new();
        let mut i: usize = 0;
        while i < parts.len()
            invariant
                i <= parts.len(),
                parts.len() == self.segments.len(),
                segments == pattern_view(self.segments@),
                pieces == segments_view(parts@),
                pieces == split(path@),
                segments_match(segments, pieces, ignore_case, i as int),
                params_view(params@) == captures_upto(segments, pieces, i as int),
            decreases parts.len() - i,
        {
            let part = parts[i].as_slice();
            assert(pieces[i as int] == part@);
            assert(segments[i as int] == self.segments@[i as int]@);
            match &self.segments[i] {
                Segment::Static(text) => {
                    let same = if ignore_case {
                        bytes_eq_ignore_case(text.as_slice(), part)
                    } else {
                        bytes_eq(text.as_slice(), part)
                    };
                    if !same {
                        assert(!segment_matches(segments[i as int], pieces[i as int], ignore_case));
                        return None;
                    }
                },
                Segment::Dynamic(name) => {
                    if part.len() == 0 {
                        assert(!segment_matches(segments[i as int], pieces[i as int], ignore_case));
                        return None;
                    }
                    let param = Param { name: copy_bytes(name.as_slice()), value: copy_bytes(part) };
                    let ghost before = params@;
                    params.push(param);
                    assert(params_view(params@) =~= params_view(before).push(param@));
                },
            }
            i += 1;
        }
        Some(params)
    }

    /// Whether the definition accepts `path`.
    pub fn is_match(&self, path: &[u8], ignore_case: bool) -> (r: bool)
        ensures
            r == self.matches(path@, ignore_case),
    {
        self.match_path(path, ignore_case).is_some()
    }

    /// The path that the pattern generates when its dynamic segments are
    /// replaced, in order, by `values`.
    pub fn resource_path(&self, values: &Vec<Vec<u8>>) -> (path: Option<Vec<u8>>)
        ensures
            path is Some <==> generate(self.segments(), segments_view(values@)) is Some,
            path matches Some(p) ==> Some(p@) == generate(
                self.segments(),
                segments_view(values@),
            ),
    {
        let ghost segments = self.segments();
        let ghost given = segments_view(values@);
        let mut pieces: Vec<Vec<u8>> = Vec::new();
        let mut used: usize = 0;
        let mut i: usize = 0;
        while i < self.segments.len()
            invariant
                i <= self.segments.len(),
                segments == pattern_view(self.segments@),
                given == segments_view(values@),
                used == dynamic_count(segments, i as int),
                used <= values.len(),
                used <= i,
                segments_view(pieces@) == expand_upto(segments, given, i as int),
            decreases self.segments.len() - i,
        {
            assert(segments[i as int] == self.segments@[i as int]@);
            let piece = match &self.segments[i] {
                Segment::Static(text) => copy_bytes(text.as_slice()),
                Segment::Dynamic(_) => {
                    if used >= values.len() {
                        proof {
                            lemma_dynamic_count_monotonic(
                                segments,
                                i + 1,
                                self.segments.len() as int,
                            );
                        }
                        return None;
                    }
                    assert(given[used as int] == values@[used as int]@);
                    let value = copy_bytes(values[used].as_slice());
                    used += 1;
                    value
                },
            };
            let ghost before = pieces@;
            pieces.push(piece);
            proof {
                lemma_segments_view_push(before, pieces@, piece);
            }
            i += 1;
        }
        Some(join_segments(&pieces))
    }
}

/// Reads one piece of a pattern.
pub fn parse_part(part: &[u8]) -> (segment: Segment)
    ensures
        segment@ == parse_segment(part@),
{
    let n = part.len();
    if n < 3 || part[0] != OPEN || part[n - 1] != CLOSE {
        return Segment::Static(copy_bytes(part));
    }
    let mut i: usize = 1;
    while i < n - 1
        invariant
            3 <= n == part.len(),
            1 <= i <= n - 1,
            forall|k: int| 1 <= k < i ==> part@[k] != OPEN && part@[k] != CLOSE,
        decreases n - i,
    {
        if part[i] == OPEN || part[i] == CLOSE {
            return Segment::Static(copy_bytes(part));
        }
        i += 1;
    }
    Segment::Dynamic(copy_range(part, 1, n - 1))
}

/// The number of dynamic segments grows with the number of segments counted.
pub proof fn lemma_dynamic_count_monotonic(segments: Seq<SegmentView>, i: int, j: int)
    requires
        i <= j,
    ensures
        dynamic_count(segments, i) <= dynamic_count(segments, j),
    decreases j - i,
{
    if i < j {
        lemma_dynamic_count_monotonic(segments, i, j - 1);
    }
}

/// What `expand_upto` builds: one piece for each segment, a static segment's
/// own text or the value that stands in for a dynamic one.
pub proof fn lemma_expand_upto(segments: Seq<SegmentView>, values: Seq<Seq<u8>>, n: int)
    requires
        0 <= n <= segments.len(),
    ensures
        expand_upto(segments, values, n).len() == n,
        forall|i: int|
            0 <= i < n ==> #[trigger] expand_upto(segments, values, n)[i] == match segments[i] {
                SegmentView::Static(text) => text,
                SegmentView::Dynamic(_) => values[dynamic_count(segments, i) as int],
            },
    decreases n,
{
    if n > 0 {
        lemma_expand_upto(segments, values, n - 1);
    }
}

/// The captures of a path whose segments are an expansion of the pattern are
/// the values that were put in.
proof fn lemma_captures_of_expansion(segments: Seq<SegmentView>, values: Seq<Seq<u8>>, n: int)
    requires
        0 <= n <= segments.len(),
        dynamic_count(segments, n) <= values.len(),
    ensures
        captures_upto(
            segments,
            expand_upto(segments, values, segments.len() as int),
            n,
        ).len() == dynamic_count(segments, n),
        forall|k: int|
            0 <= k < dynamic_count(segments, n) ==> (#[trigger] captures_upto(
                segments,
                expand_upto(segments, values, segments.len() as int),
                n,
            )[k]).value == values[k],
    decreases n,
{
    if n > 0 {
        lemma_dynamic_count_monotonic(segments, n - 1, n);
        lemma_captures_of_expansion(segments, values, n - 1);
        lemma_expand_upto(segments, values, segments.len() as int);
    }
}

/// A generated path is accepted by the pattern that generated it, whether
/// or not case is ignored, and the pattern captures from it the very values
/// that went in, provided that each of them is one non-empty path segment.
pub proof fn lemma_generated_path_matches(
    segments: Seq<SegmentView>,
    values: Seq<Seq<u8>>,
    ignore_case: bool,
)
    requires
        well_formed(segments),
        dynamic_count(segments, segments.len() as int) <= values.len(),
        forall|k: int|
            0 <= k < dynamic_count(segments, segments.len() as int) ==> (#[trigger] values[k]).len()
                > 0 && slash_free(values[k]),
    ensures
        generate(segments, values) matches Some(path) && pattern_matches(
            segments,
            path,
            ignore_case,
        ) && captures(segments, path).len() == dynamic_count(segments, segments.len() as int)
            && forall|k: int|
            0 <= k < dynamic_count(segments, segments.len() as int) ==> (#[trigger] captures(
                segments,
                path,
            )[k]).value == values[k],
{
    let n = segments.len() as int;
    let pieces = expand_upto(segments, values, n);
    lemma_expand_upto(segments, values, n);
    assert forall|i: int| 0 <= i < n implies slash_free(#[trigger] pieces[i]) && segment_matches(
        segments[i],
        pieces[i],
        ignore_case,
    ) by {
        lemma_dynamic_count_monotonic(segments, i + 1, n);
        match segments[i] {
            SegmentView::Static(text) => {},
            SegmentView::Dynamic(_) => {
                assert(dynamic_count(segments, i + 1) == dynamic_count(segments, i) + 1);
                let k = dynamic_count(segments, i) as int;
                assert(values[k].len() > 0 && slash_free(values[k]));
            },
        }
    }
    lemma_split_join(pieces);
    lemma_captures_of_expansion(segments, values, n);
}

/// Two paths that differ only in the case of ASCII letters have their
/// separators at the same places, and their segments differ only in case.
pub proof fn lemma_split_ignore_case(p: Seq<u8>, q: Seq<u8>)
    requires
        eq_ignore_case(p, q),
    ensures
        split(p).len() == split(q).len(),
        forall|i: int|
            0 <= i < split(p).len() ==> eq_ignore_case(#[trigger] split(p)[i], split(q)[i]),
    decreases p.len(),
{
    lemma_first_slash_bounds(p);
    let k = first_slash(p);
    let head = q.take(k);
    assert forall|i: int| 0 <= i < head.len() implies head[i] != SLASH by {
        assert(p.take(k)[i] == p[i]);
        assert(lower(p[i]) == lower(q[i]));
    }
    if k < p.len() {
        assert(lower(p[k]) == lower(q[k]));
    }
    lemma_first_slash_is(q, k);
    if k >= p.len() {
    } else {
        let (pr, qr) = (p.skip(k + 1), q.skip(k + 1));
        assert forall|i: int| 0 <= i < pr.len() implies lower(#[trigger] pr[i]) == lower(
            qr[i],
        ) by {
            assert(lower(p[i + k + 1]) == lower(q[i + k + 1]));
        }
        lemma_split_ignore_case(pr, qr);
        assert forall|i: int| 0 <= i < split(p).len() implies eq_ignore_case(
            #[trigger] split(p)[i],
            split(q)[i],
        ) by {
            if i == 0 {
                assert forall|j: int| 0 <= j < k implies lower(#[trigger] p.take(k)[j]) == lower(
                    q.take(k)[j],
                ) by {
                    assert(lower(p[j]) == lower(q[j]));
                }
            } else {
                assert(split(p)[i] == split(pr)[i - 1]);
                assert(split(q)[i] == split(qr)[i - 1]);
            }
        }
    }
}

/// Where the router ignores case, two paths that differ only in the case of
/// ASCII letters are accepted by the same patterns.
pub proof fn lemma_ignore_case_matches(segments: Seq<SegmentView>, p: Seq<u8>, q: Seq<u8>)
    requires
        eq_ignore_case(p, q),
        pattern_matches(segments, p, true),
    ensures
        pattern_matches(segments, q, true),
{
    lemma_split_ignore_case(p, q);
    assert forall|i: int| 0 <= i < segments.len() implies segment_matches(
        #[trigger] segments[i],
        split(q)[i],
        true,
    ) by {
        assert(segment_matches(segments[i], split(p)[i], true));
        let (a, b) = (split(p)[i], split(q)[i]);
        assert(eq_ignore_case(a, b));
        match segments[i] {
            SegmentView::Static(text) => {
                assert forall|j: int| 0 <= j < text.len() implies lower(#[trigger] text[j])
                    == lower(b[j]) by {
                    assert(lower(a[j]) == lower(b[j]));
                }
            },
            SegmentView::Dynamic(_) => {},
        }
    }
}

/// A path that a pattern accepts exactly is also accepted when case is
/// ignored.
pub proof fn lemma_exact_match_ignores_case(segments: Seq<SegmentView>, path: Seq<u8>)
    requires
        pattern_matches(segments, path, false),
    ensures
        pattern_matches(segments, path, true),
{
    assert forall|i: int| 0 <= i < segments.len() implies segment_matches(
        #[trigger] segments[i],
        split(path)[i],
        true,
    ) by {
        assert(segment_matches(segments[i], split(path)[i], false));
    }
}

/// Every captured value is a segment of the path as the client sent it, at
/// the position of a dynamic segment: ignoring case changes which paths are
/// accepted, never what is captured.
pub proof fn lemma_captures_verbatim(segments: Seq<SegmentView>, path: Seq<u8>, n: int)
    requires
        0 <= n <= segments.len(),
    ensures
        forall|k: int|
            0 <= k < captures_upto(segments, split(path), n).len() ==> exists|i: int|
                0 <= i < n && segments[i] == SegmentView::Dynamic(
                    (#[trigger] captures_upto(segments, split(path), n)[k]).name,
                ) && captures_upto(segments, split(path), n)[k].value == split(path)[i],
    decreases n,
{
    if n > 0 {
        lemma_captures_verbatim(segments, path, n - 1);
        let now = captures_upto(segments, split(path), n);
        let before = captures_upto(segments, split(path), n - 1);
        assert forall|k: int| 0 <= k < now.len() implies exists|i: int|
            0 <= i < n && segments[i] == SegmentView::Dynamic((#[trigger] now[k]).name)
                && now[k].value == split(path)[i] by {
            if k < before.len() {
                assert(now[k] == before[k]);
                let i = choose|i: int|
                    0 <= i < n - 1 && segments[i] == SegmentView::Dynamic(before[k].name)
                        && before[k].value == split(path)[i];
                assert(0 <= i < n && segments[i] == SegmentView::Dynamic(now[k].name)
                    && now[k].value == split(path)[i]);
            } else {
                let i = n - 1;
                assert(0 <= i < n && segments[i] == SegmentView::Dynamic(now[k].name)
                    && now[k].value == split(path)[i]);
            }
        }
    }
}

} // verus!
