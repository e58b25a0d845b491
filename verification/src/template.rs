//! Path templates: parsing, matching against a request path, shape
//! equivalence and the specificity order among templates.

use vstd::prelude::*;
use crate::error::RegistrationError;
use crate::text::{bytes_eq, copy_range, pieces, split, views};

verus! {

/// One segment of a path template.
#[derive(Debug, PartialEq, Eq)]
pub enum Segment {
    /// Matches exactly this text.
    Literal(Vec<u8>),
    /// Matches any non-empty segment and binds it to this name.
    Param(Vec<u8>),
}

/// The mathematical value of a [`Segment`].
pub enum SegmentView {
    Literal(Seq<u8>),
    Param(Seq<u8>),
}

impl SegmentView {
    /// Whether the segment is a literal.
    pub open spec fn is_literal(self) -> bool {
        self is Literal
    }

    /// The text a literal carries, or the name a parameter binds.
    pub open spec fn text(self) -> Seq<u8> {
        match self {
            SegmentView::Literal(t) => t,
            SegmentView::Param(t) => t,
        }
    }

    /// Whether the segment accepts `value` as the path segment at its place.
    pub open spec fn accepts(self, value: Seq<u8>) -> bool {
        match self {
            SegmentView::Literal(t) => t == value,
            SegmentView::Param(_) => value.len() > 0,
        }
    }

    /// Whether two segments are interchangeable for conflict detection:
    /// equal literals, or two parameters whatever their names.
    pub open spec fn same_shape(self, other: SegmentView) -> bool {
        match (self, other) {
            (SegmentView::Literal(a), SegmentView::Literal(b)) => a == b,
            (SegmentView::Param(_), SegmentView::Param(_)) => true,
            _ => false,
        }
    }
}

impl View for Segment {
    type V = SegmentView;

    open spec fn view(&self) -> SegmentView {
        match self {
            Segment::Literal(t) => SegmentView::Literal(t@),
            Segment::Param(t) => SegmentView::Param(t@),
        }
    }
}

/// The segments of a request path or of a template text: `None` unless the
/// text starts with `/`; the lone `/` has no segment; otherwise the pieces
/// between the slashes that follow the first one.
pub open spec fn path_segments(p: Seq<u8>) -> Option<Seq<Seq<u8>>> {
    if p.len() == 0 || p[0] != 47 {
        None
    } else if p.len() == 1 {
        Some(Seq::empty())
    } else {
        Some(pieces(p.subrange(1, p.len() as int), 47))
    }
}

/// Whether `s` holds an opening or closing brace.
pub open spec fn has_brace(s: Seq<u8>) -> bool {
    exists|i: int| 0 <= i < s.len() && (s[i] == 123 || s[i] == 125)
}

/// Whether a piece of template text is written as a parameter: `{...}`.
pub open spec fn is_param_text(part: Seq<u8>) -> bool {
    part.len() >= 2 && part[0] == 123 && part[part.len() - 1] == 125
}

/// Whether a piece of template text is a well-formed segment: a non-empty
/// name in braces, or a non-empty literal; no brace inside either.
pub open spec fn valid_part(part: Seq<u8>) -> bool {
    if is_param_text(part) {
        part.len() > 2 && !has_brace(part.subrange(1, part.len() - 1))
    } else {
        part.len() > 0 && !has_brace(part)
    }
}

/// The segment that a well-formed piece of template text denotes.
pub open spec fn segment_of(part: Seq<u8>) -> SegmentView {
    if is_param_text(part) {
        SegmentView::Param(part.subrange(1, part.len() - 1))
    } else {
        SegmentView::Literal(part)
    }
}

/// The segments that pieces of template text denote, in order.
pub open spec fn segments_of(parts: Seq<Seq<u8>>) -> Seq<SegmentView> {
    parts.map_values(|part: Seq<u8>| segment_of(part))
}

/// Whether no two parameters of the template share a name.
pub open spec fn names_distinct(t: Seq<SegmentView>) -> bool {
    forall|i: int, j: int|
        0 <= i < j < t.len() && !t[i].is_literal() && !t[j].is_literal() ==> t[i].text()
            != t[j].text()
}

/// The template that a text denotes, if it is well formed.
pub open spec fn template_of(text: Seq<u8>) -> Option<Seq<SegmentView>> {
    match path_segments(text) {
        None => None,
        Some(parts) => if (forall|i: int| 0 <= i < parts.len() ==> valid_part(#[trigger] parts[i]))
            && names_distinct(segments_of(parts)) {
            Some(segments_of(parts))
        } else {
            None
        },
    }
}

/// Whether a template matches a path, segment by segment.
pub open spec fn template_matches(t: Seq<SegmentView>, path: Seq<Seq<u8>>) -> bool {
    &&& t.len() == path.len()
    &&& forall|i: int| 0 <= i < t.len() ==> (#[trigger] t[i]).accepts(path[i])
}

/// Whether two templates have the same shape: the same length, and at each
/// place equal literals or two parameters.
pub open spec fn equivalent(a: Seq<SegmentView>, b: Seq<SegmentView>) -> bool {
    &&& a.len() == b.len()
    &&& forall|i: int| 0 <= i < a.len() ==> (#[trigger] a[i]).same_shape(b[i])
}

/// How many segments of the template are literals.
pub open spec fn literal_count(t: Seq<SegmentView>) -> nat
    decreases t.len(),
{
    if t.len() == 0 {
        0
    } else {
        literal_count(t.drop_last()) + if t.last().is_literal() {
            1nat
        } else {
            0nat
        }
    }
}

/// Whether `a` and `b` agree, up to place `n`, on where their literals are.
pub open spec fn same_kinds(a: Seq<SegmentView>, b: Seq<SegmentView>, n: int) -> bool {
    forall|j: int| 0 <= j < n ==> (#[trigger] a[j]).is_literal() == b[j].is_literal()
}

/// Whether, at the first place where one template has a literal and the
/// other a parameter, the literal is `a`'s.
pub open spec fn leads(a: Seq<SegmentView>, b: Seq<SegmentView>) -> bool {
    exists|i: int|
        0 <= i < a.len() && i < b.len() && (#[trigger] a[i]).is_literal() && !b[i].is_literal()
            && same_kinds(a, b, i)
}

/// The specificity order: the template with more literals ranks above; with
/// as many, the one whose literal comes first where the two differ.
pub open spec fn outranks(a: Seq<SegmentView>, b: Seq<SegmentView>) -> bool {
    ||| literal_count(a) > literal_count(b)
    ||| (literal_count(a) == literal_count(b) && leads(a, b))
}

/// The template under a prefix of literal segments.
pub open spec fn prefixed(prefix: Seq<Seq<u8>>, t: Seq<SegmentView>) -> Seq<SegmentView> {
    literals_of(prefix) + t
}

/// The result of comparing two templates in the specificity order.
#[derive(Clone, Copy, Debug, PartialEq, Eq)]
pub enum Rank {
    Above,
    Level,
    Below,
}

/// A parsed path template.
#[derive(Debug, PartialEq, Eq)]
pub struct PathTemplate {
    segments: Vec<Segment>,
}

impl View for PathTemplate {
    type V = Seq<SegmentView>;

    closed spec fn view(&self) -> Seq<SegmentView> {
        segment_views(self.segments@)
    }
}

/// The values of a run of segments.
pub open spec fn segment_views(v: Seq<Segment>) -> Seq<SegmentView> {
    v.map_values(|s: Segment| s@)
}

/// The literal segments that a prefix stands for.
pub open spec fn literals_of(prefix: Seq<Seq<u8>>) -> Seq<SegmentView> {
    prefix.map_values(|l: Seq<u8>| SegmentView::Literal(l))
}

/// Splits a path into its segments.
pub fn split_path(p: &[u8]) -> (out: Option<Vec<Vec<u8>>>)
    ensures
        match out {
            Some(v) => path_segments(p@) == Some(views(v@)),
            None => path_segments(p@) is None,
        },
{
    let n = p.len();
    if n == 0 || p[0] != 47 {
        return None;
    }
    if n == 1 {
        let v: Vec<Vec<u8>> = Vec::new();
        assert(views(v@) =~= Seq::<Seq<u8>>::empty());
        return Some(v);
    }
    let rest = copy_range(p, 1, n);
    Some(split(rest.as_slice(), 47))
}

/// Whether `s` holds a brace between `from` and `to`.
fn brace_within(s: &[u8], from: usize, to: usize) -> (found: bool)
    requires
        from <= to <= s@.len(),
    ensures
        found == has_brace(s@.subrange(from as int, to as int)),
{
    let ghost part = s@.subrange(from as int, to as int);
    let mut i: usize = from;
    while i < to
        invariant
            from <= i <= to <= s@.len(),
            part == s@.subrange(from as int, to as int),
            forall|k: int| 0 <= k < i - from ==> part[k] != 123 && part[k] != 125,
        decreases to - i,
    {
        if s[i] == 123 || s[i] == 125 {
            assert(part[i - from] == s@[i as int]);
            return true;
        }
        i += 1;
    }
    false
}

/// Reads one piece of template text as a segment.
fn parse_segment(part: &[u8]) -> (out: Option<Segment>)
    ensures
        match out {
            Some(s) => valid_part(part@) && s@ == segment_of(part@),
            None => !valid_part(part@),
        },
{
    let n = part.len();
    if n >= 2 && part[0] == 123 && part[n - 1] == 125 {
        if n == 2 || brace_within(part, 1, n - 1) {
            None
        } else {
            Some(Segment::Param(copy_range(part, 1, n - 1)))
        }
    } else {
        if n == 0 || brace_within(part, 0, n) {
            assert(part@.subrange(0, n as int) =~= part@);
            None
        } else {
            assert(part@.subrange(0, n as int) =~= part@);
            Some(Segment::Literal(copy_range(part, 0, n)))
        }
    }
}

impl PathTemplate {
    /// Parses a template text such as `/users/{id}`.
    pub fn parse(text: &[u8]) -> (out: Result<PathTemplate, RegistrationError>)
        ensures
            match template_of(text@) {
                Some(t) => out is Ok && out->Ok_0@ == t,
                None => out == Err::<PathTemplate, _>(RegistrationError::InvalidPathTemplate),
            },
    {
        let parts = match split_path(text) {
            Some(parts) => parts,
            None => {
                return Err(RegistrationError::InvalidPathTemplate);
            },
        };
        let ghost texts = views(parts@);
        let mut segments: Vec<Segment> = Vec::new();
        let mut i: usize = 0;
        while i < parts.len()
            invariant
                0 <= i <= parts.len(),
                texts == views(parts@),
                path_segments(text@) == Some(texts),
                segments@.len() == i,
                forall|k: int| 0 <= k < i ==> valid_part(#[trigger] texts[k]),
                forall|k: int| 0 <= k < i ==> (#[trigger] segments@[k])@ == segment_of(texts[k]),
                names_distinct(segments_of(texts.subrange(0, i as int))),
            decreases parts.len() - i,
        {
            let seg = match parse_segment(parts[i].as_slice()) {
                Some(seg) => seg,
                None => {
                    assert(!valid_part(texts[i as int]));
                    return Err(RegistrationError::InvalidPathTemplate);
                },
            };
            assert(texts[i as int] == parts@[i as int]@);
            let ghost longer = segments_of(texts.subrange(0, i + 1));
            let mut clash = false;
            if let Segment::Param(name) = &seg {
                let mut j: usize = 0;
                while j < i
                    invariant
                        0 <= j <= i < parts.len(),
                        segments@.len() == i,
                        texts == views(parts@),
                        seg@ == segment_of(texts[i as int]),
                        seg == Segment::Param(*name),
                        forall|k: int|
                            0 <= k < i ==> (#[trigger] segments@[k])@ == segment_of(texts[k]),
                        !clash ==> forall|k: int|
                            0 <= k < j && !segment_of(#[trigger] texts[k]).is_literal()
                                ==> segment_of(texts[k]).text() != name@,
                        clash ==> exists|k: int|
                            0 <= k < i && !segment_of(#[trigger] texts[k]).is_literal()
                                && segment_of(texts[k]).text() == name@,
                    decreases i - j,
                {
                    if let Segment::Param(earlier) = &segments[j] {
                        if bytes_eq(earlier.as_slice(), name.as_slice()) {
                            clash = true;
                            assert(!segment_of(texts[j as int]).is_literal());
                        }
                    }
                    j += 1;
                }
            }
            if clash {
                proof {
                    let full = segments_of(texts);
                    let k = choose|k: int|
                        0 <= k < i && !segment_of(#[trigger] texts[k]).is_literal() && segment_of(
                            texts[k],
                        ).text() == seg@.text();
                    assert(full[k] == segment_of(texts[k]));
                    assert(full[i as int] == segment_of(texts[i as int]));
                    assert(!names_distinct(full));
                }
                return Err(RegistrationError::InvalidPathTemplate);
            }
            proof {
                let shorter = segments_of(texts.subrange(0, i as int));
                assert forall|a: int, b: int|
                    0 <= a < b < longer.len() && !longer[a].is_literal()
                        && !longer[b].is_literal() implies longer[a].text() != longer[b].text() by {
                    assert(longer[a] == segment_of(texts[a]));
                    assert(longer[b] == segment_of(texts[b]));
                    if b < i {
                        assert(shorter[a] == segment_of(texts[a]));
                        assert(shorter[b] == segment_of(texts[b]));
                    }
                }
            }
            segments.push(seg);
            i += 1;
        }
        assert(texts.subrange(0, i as int) =~= texts);
        let out = PathTemplate { segments };
        assert(out@ =~= segments_of(texts));
        Ok(out)
    }

    /// The number of segments.
    pub fn len(&self) -> (n: usize)
        ensures
            n == self@.len(),
    {
        self.segments.len()
    }

    /// The segment at place `i`.
    pub fn segment(&self, i: usize) -> (s: &Segment)
        requires
            i < self@.len(),
        ensures
            s@ == self@[i as int],
    {
        &self.segments[i]
    }

    /// Whether the template matches the path segments.
    pub fn matches(&self, path: &Vec<Vec<u8>>) -> (yes: bool)
        ensures
            yes == template_matches(self@, views(path@)),
    {
        if self.segments.len() != path.len() {
            return false;
        }
        let mut i: usize = 0;
        while i < self.segments.len()
            invariant
                0 <= i <= self.segments.len(),
                self.segments.len() == path.len(),
                forall|k: int| 0 <= k < i ==> (#[trigger] self@[k]).accepts(views(path@)[k]),
            decreases self.segments.len() - i,
        {
            let ok = match &self.segments[i] {
                Segment::Literal(t) => bytes_eq(t.as_slice(), path[i].as_slice()),
                Segment::Param(_) => path[i].len() > 0,
            };
            assert(ok == self@[i as int].accepts(views(path@)[i as int]));
            if !ok {
                return false;
            }
            i += 1;
        }
        true
    }

    /// Whether the two templates have the same shape.
    pub fn equivalent_to(&self, other: &PathTemplate) -> (yes: bool)
        ensures
            yes == equivalent(self@, other@),
    {
        if self.segments.len() != other.segments.len() {
            return false;
        }
        let mut i: usize = 0;
        while i < self.segments.len()
            invariant
                0 <= i <= self.segments.len(),
                self.segments.len() == other.segments.len(),
                forall|k: int| 0 <= k < i ==> (#[trigger] self@[k]).same_shape(other@[k]),
            decreases self.segments.len() - i,
        {
            let ok = match (&self.segments[i], &other.segments[i]) {
                (Segment::Literal(a), Segment::Literal(b)) => bytes_eq(a.as_slice(), b.as_slice()),
                (Segment::Param(_), Segment::Param(_)) => true,
                _ => false,
            };
            assert(ok == self@[i as int].same_shape(other@[i as int]));
            if !ok {
                return false;
            }
            i += 1;
        }
        true
    }

    /// The place of the parameter called `name`, if the template has one.
    pub fn param_position(&self, name: &[u8]) -> (at: Option<usize>)
        ensures
            match at {
                Some(i) => param_place(self@, name@) == Some(i as int),
                None => param_place(self@, name@) is None,
            },
    {
        let mut i: usize = 0;
        while i < self.segments.len()
            invariant
                0 <= i <= self.segments.len(),
                param_place(self@, name@) == param_place_from(self@, name@, i as int),
            decreases self.segments.len() - i,
        {
            if let Segment::Param(n) = &self.segments[i] {
                if bytes_eq(n.as_slice(), name) {
                    return Some(i);
                }
            }
            i += 1;
        }
        None
    }

    /// A copy of the template under a prefix of literal segments.
    pub fn with_prefix(&self, prefix: &Vec<Vec<u8>>) -> (out: PathTemplate)
        ensures
            out@ == prefixed(views(prefix@), self@),
    {
        let mut segments: Vec<Segment> = Vec::new();
        let ghost lits = literals_of(views(prefix@));
        let mut i: usize = 0;
        assert(segment_views(segments@) =~= lits.subrange(0, 0));
        while i < prefix.len()
            invariant
                0 <= i <= prefix.len(),
                lits == literals_of(views(prefix@)),
                segment_views(segments@) == lits.subrange(0, i as int),
            decreases prefix.len() - i,
        {
            let n = prefix[i].len();
            let copy = copy_range(prefix[i].as_slice(), 0, n);
            assert(copy@ =~= prefix@[i as int]@);
            let ghost before = segment_views(segments@);
            let seg = Segment::Literal(copy);
            assert(seg@ == lits[i as int]);
            segments.push(seg);
            assert(segment_views(segments@) =~= before.push(seg@));
            i += 1;
            assert(lits.subrange(0, i as int) =~= before.push(seg@));
        }
        assert(lits.subrange(0, i as int) =~= lits);
        assert(self@.subrange(0, 0) =~= Seq::<SegmentView>::empty());
        assert(lits + self@.subrange(0, 0) =~= lits);
        let mut j: usize = 0;
        while j < self.segments.len()
            invariant
                0 <= j <= self.segments.len(),
                segment_views(segments@) == lits + self@.subrange(0, j as int),
            decreases self.segments.len() - j,
        {
            let seg = match &self.segments[j] {
                Segment::Literal(t) => {
                    let copy = copy_range(t.as_slice(), 0, t.len());
                    assert(copy@ =~= t@);
                    Segment::Literal(copy)
                },
                Segment::Param(t) => {
                    let copy = copy_range(t.as_slice(), 0, t.len());
                    assert(copy@ =~= t@);
                    Segment::Param(copy)
                },
            };
            assert(seg@ == self@[j as int]);
            let ghost before = segment_views(segments@);
            segments.push(seg);
            assert(segment_views(segments@) =~= before.push(seg@));
            j += 1;
            assert(lits + self@.subrange(0, j as int) =~= before.push(seg@));
        }
        assert(self@.subrange(0, j as int) =~= self@);
        PathTemplate { segments }
    }

    /// The number of literal segments.
    pub fn literals(&self) -> (n: usize)
        ensures
            n == literal_count(self@),
    {
        let mut n: usize = 0;
        let mut i: usize = 0;
        assert(self@.subrange(0, 0) =~= Seq::<SegmentView>::empty());
        while i < self.segments.len()
            invariant
                0 <= i <= self.segments.len(),
                n <= i,
                n == literal_count(self@.subrange(0, i as int)),
            decreases self.segments.len() - i,
        {
            assert(self@.subrange(0, i + 1).drop_last() =~= self@.subrange(0, i as int));
            assert(self@.subrange(0, i + 1).last() == self@[i as int]);
            if let Segment::Literal(_) = &self.segments[i] {
                n += 1;
            }
            i += 1;
        }
        assert(self@.subrange(0, i as int) =~= self@);
        n
    }

    /// Compares the two templates in the specificity order.
    pub fn rank(&self, other: &PathTemplate) -> (r: Rank)
        ensures
            r == Rank::Above <==> outranks(self@, other@),
            r == Rank::Below <==> outranks(other@, self@),
    {
        let mine = self.literals();
        let theirs = other.literals();
        if mine > theirs {
            return Rank::Above;
        }
        if mine < theirs {
            return Rank::Below;
        }
        let mut i: usize = 0;
        while i < self.segments.len() && i < other.segments.len()
            invariant
                0 <= i <= self.segments.len(),
                i <= other.segments.len(),
                literal_count(self@) == literal_count(other@),
                same_kinds(self@, other@, i as int),
                same_kinds(other@, self@, i as int),
            decreases self.segments.len() - i,
        {
            let a = match &self.segments[i] {
                Segment::Literal(_) => true,
                Segment::Param(_) => false,
            };
            let b = match &other.segments[i] {
                Segment::Literal(_) => true,
                Segment::Param(_) => false,
            };
            assert(a == self@[i as int].is_literal());
            assert(b == other@[i as int].is_literal());
            if a && !b {
                proof {
                    lemma_leads_first(self@, other@, i as int);
                }
                return Rank::Above;
            }
            if b && !a {
                proof {
                    lemma_leads_first(other@, self@, i as int);
                }
                return Rank::Below;
            }
            i += 1;
        }
        proof {
            lemma_no_lead(self@, other@, i as int);
            lemma_no_lead(other@, self@, i as int);
        }
        Rank::Level
    }
}

/// The place of the first parameter called `name` at or after `from`.
pub open spec fn param_place_from(t: Seq<SegmentView>, name: Seq<u8>, from: int) -> Option<int>
    decreases t.len() - from,
{
    if from < 0 || from >= t.len() {
        None
    } else if !t[from].is_literal() && t[from].text() == name {
        Some(from)
    } else {
        param_place_from(t, name, from + 1)
    }
}

/// The place of the first parameter called `name`.
pub open spec fn param_place(t: Seq<SegmentView>, name: Seq<u8>) -> Option<int> {
    param_place_from(t, name, 0)
}

/// What `param_place_from` finds is in range and is a parameter of that name.
pub proof fn lemma_param_place_from(t: Seq<SegmentView>, name: Seq<u8>, from: int)
    requires
        0 <= from,
    ensures
        match param_place_from(t, name, from) {
            Some(i) => from <= i < t.len() && !t[i].is_literal() && t[i].text() == name,
            None => forall|k: int|
                from <= k < t.len() ==> t[k].is_literal() || t[k].text() != name,
        },
    decreases t.len() - from,
{
    if from < t.len() && !(!t[from].is_literal() && t[from].text() == name) {
        lemma_param_place_from(t, name, from + 1);
    }
}

/// Where two templates first differ in kind decides `leads` both ways.
pub proof fn lemma_leads_first(a: Seq<SegmentView>, b: Seq<SegmentView>, i: int)
    requires
        0 <= i < a.len(),
        i < b.len(),
        same_kinds(a, b, i),
        a[i].is_literal(),
        !b[i].is_literal(),
    ensures
        leads(a, b),
        !leads(b, a),
{
    if leads(b, a) {
        let k = choose|k: int|
            0 <= k < b.len() && k < a.len() && (#[trigger] b[k]).is_literal() && !a[k].is_literal()
                && same_kinds(b, a, k);
        if k < i {
            assert(a[k].is_literal() == b[k].is_literal());
        } else if k > i {
            assert(b[i].is_literal() == a[i].is_literal());
        }
    }
}

/// Templates that agree in kind over their common length have no lead.
pub proof fn lemma_no_lead(a: Seq<SegmentView>, b: Seq<SegmentView>, n: int)
    requires
        same_kinds(a, b, n),
        n >= a.len() || n >= b.len(),
    ensures
        !leads(a, b),
{
    if leads(a, b) {
        let k = choose|k: int|
            0 <= k < a.len() && k < b.len() && (#[trigger] a[k]).is_literal() && !b[k].is_literal()
                && same_kinds(a, b, k);
        assert(a[k].is_literal() == b[k].is_literal());
    }
}

} // verus!
