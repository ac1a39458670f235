//! Simple path matcher, e.g. `{"People"}[]{"Height"}`.

use super::{strip_roots, Combinator, MatchMaker};
use crate::error;
use crate::path::{
    collect_chars, is_digit, key_end, lemma_key_end_bounds, Element, Path, SpecElement,
};
use crate::streamer::ParsedKind;
use crate::text::{parse_usize, parse_usize_spec, split_chars, split_seq};
use vstd::prelude::*;

verus! {

/// A range of array indexes `min..=max` (both bounds included), a missing
/// bound is unlimited.
pub type IndexRange = (Option<usize>, Option<usize>);

/// Model of an element of a simple matcher.
pub enum SpecSimpleElement {
    /// An object key (`None` matches every key)
    Key(Option<Seq<char>>),
    /// Array indexes (no ranges match every index)
    Index(Seq<IndexRange>),
    /// `?` matches exactly one element
    Single,
    /// `*` matches any number of elements
    Any,
}

/// Array index match, a list of index ranges.
#[derive(Debug, Clone)]
pub struct IndexMatch(pub Vec<IndexRange>);

/// An element of a simple matcher.
#[derive(Debug, Clone)]
pub enum SimplePathElement {
    Key(Option<String>),
    Index(IndexMatch),
    WildCardSingle,
    WildCardAny,
}

impl View for SimplePathElement {
    type V = SpecSimpleElement;

    open spec fn view(&self) -> SpecSimpleElement {
        match self {
            SimplePathElement::Key(None) => SpecSimpleElement::Key(None),
            SimplePathElement::Key(Some(k)) => SpecSimpleElement::Key(Some(k@)),
            SimplePathElement::Index(m) => SpecSimpleElement::Index(m.0@),
            SimplePathElement::WildCardSingle => SpecSimpleElement::Single,
            SimplePathElement::WildCardAny => SpecSimpleElement::Any,
        }
    }
}

/// Whether the index lies in the range.
pub open spec fn in_range(range: IndexRange, idx: usize) -> bool {
    &&& match range.1 {
        Some(max) => idx <= max,
        None => true,
    }
    &&& match range.0 {
        Some(min) => idx >= min,
        None => true,
    }
}

/// Whether a matcher element matches a path element.
pub open spec fn element_matches(pattern: SpecSimpleElement, element: SpecElement) -> bool {
    match pattern {
        SpecSimpleElement::Key(None) => element is Key,
        SpecSimpleElement::Key(Some(key)) => element == SpecElement::Key(key),
        SpecSimpleElement::Index(ranges) => match element {
            SpecElement::Index(idx) => ranges.len() == 0 || exists|i: int|
                0 <= i < ranges.len() && in_range(#[trigger] ranges[i], idx),
            _ => false,
        },
        SpecSimpleElement::Single => true,
        SpecSimpleElement::Any => true,
    }
}

/// Whether the matcher elements match the path elements
/// (`*` may stand for any number of path elements).
pub open spec fn simple_match(pattern: Seq<SpecSimpleElement>, path: Seq<SpecElement>) -> bool
    decreases pattern.len() + path.len(),
{
    if pattern.len() == 0 {
        path.len() == 0
    } else if pattern[0] is Any {
        simple_match(pattern.skip(1), path) || (path.len() > 0 && simple_match(
            pattern,
            path.skip(1),
        ))
    } else {
        path.len() > 0 && element_matches(pattern[0], path[0]) && simple_match(
            pattern.skip(1),
            path.skip(1),
        )
    }
}

/// Parses an optional bound of a range (empty means unlimited).
pub open spec fn parse_bound(s: Seq<char>) -> Option<Option<usize>> {
    if s.len() == 0 {
        Some(None)
    } else {
        match parse_usize_spec(s) {
            Some(v) => Some(Some(v)),
            None => None,
        }
    }
}

/// Parses a single item of an index match, e.g. `3`, `4-5`, `-3` or `6-`.
pub open spec fn range_parse(item: Seq<char>) -> Option<IndexRange> {
    let parts = split_seq(item, '-');
    if parts.len() == 1 {
        match parse_usize_spec(item) {
            Some(i) => Some((Some(i), Some(i))),
            None => None,
        }
    } else if parts.len() == 2 {
        match (parse_bound(parts[0]), parse_bound(parts[1])) {
            (Some(start), Some(end)) => match (start, end) {
                (Some(s), Some(e)) => if s >= e {
                    None
                } else {
                    Some((start, end))
                },
                (None, None) => None,
                _ => Some((start, end)),
            },
            _ => None,
        }
    } else {
        None
    }
}

/// Parses the items of an index match.
pub open spec fn ranges_parse(items: Seq<Seq<char>>) -> Option<Seq<IndexRange>>
    decreases items.len(),
{
    if items.len() == 0 {
        Some(Seq::empty())
    } else {
        match (range_parse(items[0]), ranges_parse(items.skip(1))) {
            (Some(r), Some(rest)) => Some(seq![r] + rest),
            _ => None,
        }
    }
}

/// Whether a character may appear between `[` and `]`.
pub open spec fn is_index_char(c: char) -> bool {
    is_digit(c) || c == '-' || c == ','
}

/// First position at or after `i` which does not hold an index character.
pub open spec fn index_end(s: Seq<char>, i: int) -> int
    decreases s.len() - i,
{
    if i < 0 || i >= s.len() {
        s.len() as int
    } else if is_index_char(s[i]) {
        index_end(s, i + 1)
    } else {
        i
    }
}

/// Prepends an element to an optional sequence.
pub open spec fn prepend_simple(e: SpecSimpleElement, rest: Option<Seq<SpecSimpleElement>>) -> Option<
    Seq<SpecSimpleElement>,
> {
    match rest {
        Some(elems) => Some(seq![e] + elems),
        None => None,
    }
}

/// Parses a simple matcher definition, e.g. `{"users"}[]{"name"}`.
pub open spec fn simple_parse(s: Seq<char>) -> Option<Seq<SpecSimpleElement>>
    decreases s.len(),
{
    if s.len() == 0 {
        Some(Seq::empty())
    } else if s[0] == '?' {
        prepend_simple(SpecSimpleElement::Single, simple_parse(s.skip(1)))
    } else if s[0] == '*' {
        prepend_simple(SpecSimpleElement::Any, simple_parse(s.skip(1)))
    } else if s[0] == '[' {
        let j = index_end(s, 1);
        proof {
            lemma_index_end_bounds(s, 1);
        }
        if j >= s.len() || s[j] != ']' {
            None
        } else if j == 1 {
            prepend_simple(SpecSimpleElement::Index(Seq::empty()), simple_parse(s.skip(j + 1)))
        } else {
            match ranges_parse(split_seq(s.subrange(1, j), ',')) {
                Some(ranges) => prepend_simple(
                    SpecSimpleElement::Index(ranges),
                    simple_parse(s.skip(j + 1)),
                ),
                None => None,
            }
        }
    } else if s[0] == '{' {
        if s.len() < 2 {
            None
        } else if s[1] == '}' {
            prepend_simple(SpecSimpleElement::Key(None), simple_parse(s.skip(2)))
        } else if s[1] == '"' {
            proof {
                lemma_key_end_bounds(s, 2);
            }
            match key_end(s, 2) {
                Some(j) => if j + 1 >= s.len() || s[j + 1] != '}' {
                    None
                } else {
                    prepend_simple(
                        SpecSimpleElement::Key(Some(s.subrange(2, j))),
                        simple_parse(s.skip(j + 2)),
                    )
                },
                None => None,
            }
        } else {
            None
        }
    } else {
        None
    }
}

pub proof fn lemma_index_end_bounds(s: Seq<char>, i: int)
    requires
        0 <= i <= s.len(),
    ensures
        i <= index_end(s, i) <= s.len(),
        index_end(s, i) < s.len() ==> !is_index_char(s[index_end(s, i)]),
    decreases s.len() - i,
{
    if i < s.len() && is_index_char(s[i]) {
        lemma_index_end_bounds(s, i + 1);
    }
}


/// Matcher based on a path expression, e.g. `{"People"}[0]{"Height"}`.
///
/// * `{"People"}[0]{"Height"}` - height of the first person
/// * `{"People"}[]{"Height"}` - heights of all people
/// * `{"People"}[0]{}` - all attributes of the first person
/// * `{"People"}[1,3-5,7-]` - people with the given indexes
/// * `?` matches a single element, `*` any number of elements
#[derive(Debug, Clone)]
pub struct Simple {
    path: Vec<SimplePathElement>,
}

impl View for Simple {
    type V = Seq<SpecSimpleElement>;

    closed spec fn view(&self) -> Seq<SpecSimpleElement> {
        self.path@.map_values(|e: SimplePathElement| e@)
    }
}

/// Whether the index lies in one of the ranges.
fn in_ranges(ranges: &Vec<IndexRange>, idx: usize) -> (r: bool)
    ensures
        r == (ranges@.len() == 0 || exists|i: int| 0 <= i < ranges@.len() && in_range(#[trigger] ranges@[i], idx)),
{
    if ranges.len() == 0 {
        return true;
    }
    let n = ranges.len();
    for i in 0..n
        invariant
            n == ranges@.len(),
            forall|j: int| 0 <= j < i ==> !in_range(#[trigger] ranges@[j], idx),
    {
        let (min_opt, max_opt) = ranges[i];
        let below_max = match max_opt {
            Some(max) => idx <= max,
            None => true,
        };
        let above_min = match min_opt {
            Some(min) => idx >= min,
            None => true,
        };
        if below_max && above_min {
            assert(in_range(ranges@[i as int], idx));
            return true;
        }
    }
    false
}

/// Whether a matcher element matches a path element.
fn element_match(pattern: &SimplePathElement, element: &Element) -> (r: bool)
    ensures
        r == element_matches(pattern@, element@),
{
    match pattern {
        SimplePathElement::Key(None) => element.is_key(),
        SimplePathElement::Key(Some(key)) => match element {
            Element::Key(pkey) => *key == *pkey,
            _ => false,
        },
        SimplePathElement::Index(matches) => match element {
            Element::Index(idx) => in_ranges(&matches.0, *idx),
            _ => false,
        },
        SimplePathElement::WildCardAny => true,
        SimplePathElement::WildCardSingle => true,
    }
}

/// One step of `simple_match`.
proof fn lemma_simple_match_step(pattern: Seq<SpecSimpleElement>, path: Seq<SpecElement>, a: int, b: int)
    requires
        0 <= a < pattern.len(),
        0 <= b <= path.len(),
    ensures
        simple_match(pattern.skip(a), path.skip(b)) == if pattern[a] is Any {
            simple_match(pattern.skip(a + 1), path.skip(b)) || (b < path.len() && simple_match(
                pattern.skip(a),
                path.skip(b + 1),
            ))
        } else {
            b < path.len() && element_matches(pattern[a], path[b]) && simple_match(
                pattern.skip(a + 1),
                path.skip(b + 1),
            )
        },
{
    assert(pattern.skip(a).skip(1) =~= pattern.skip(a + 1));
    assert(pattern.skip(a)[0] == pattern[a]);
    if b < path.len() {
        assert(path.skip(b).skip(1) =~= path.skip(b + 1));
        assert(path.skip(b)[0] == path[b]);
    }
}

proof fn lemma_strip_roots_prefix(path: Seq<SpecElement>, i: int)
    requires
        0 <= i < path.len(),
    ensures
        strip_roots(path.take(i + 1)) == if path[i] is Root {
            strip_roots(path.take(i))
        } else {
            strip_roots(path.take(i)).push(path[i])
        },
{
    assert(path.take(i + 1).drop_last() =~= path.take(i));
}

impl Simple {
    /// Creates a new simple matcher from a path expression,
    /// e.g. `{"users"}[0]{"addresses"}{}`.
    pub fn new(path_expr: &str) -> (r: Result<Self, error::Matcher>)
        ensures
            match r {
                Ok(m) => simple_parse(path_expr@) == Some(m@),
                Err(error::Matcher::Parse(msg)) => simple_parse(path_expr@) is None && msg@
                    == path_expr@,
            },
    {
        Self::from_str(path_expr)
    }

    /// Parses the matcher from a path expression.
    pub fn from_str(path: &str) -> (r: Result<Self, error::Matcher>)
        ensures
            match r {
                Ok(m) => simple_parse(path@) == Some(m@),
                Err(error::Matcher::Parse(msg)) => simple_parse(path@) is None && msg@ == path@,
            },
    {
        let chars = collect_chars(path);
        let mut result: Vec<SimplePathElement> = Vec::new();
        assert(chars@.skip(0) =~= chars@);
        if parse_simple_elements(&chars, 0, &mut result) {
            let m = Simple { path: result };
            assert(m@ =~= result@.skip(0).map_values(|e: SimplePathElement| e@));
            Ok(m)
        } else {
            Err(error::Matcher::Parse(path.to_string()))
        }
    }

    /// Elements which are not the root marker.
    fn non_root_positions(path: &Path) -> (r: Vec<usize>)
        ensures
            r@.len() == strip_roots(path@).len(),
            forall|j: int| 0 <= j < r@.len() ==> #[trigger] r@[j] < path@.len() && path@[r@[j] as int]
                == strip_roots(path@)[j],
    {
        let elements = path.get_path();
        let n = elements.len();
        let mut res: Vec<usize> = Vec::new();
        for i in 0..n
            invariant
                n == elements@.len(),
                elements@.map_values(|e: Element| e@) == path@,
                res@.len() == strip_roots(path@.take(i as int)).len(),
                forall|j: int| 0 <= j < res@.len() ==> #[trigger] res@[j] < i && path@[res@[j] as int]
                    == strip_roots(path@.take(i as int))[j],
        {
            proof {
                lemma_strip_roots_prefix(path@, i as int);
            }
            assert(path@[i as int] == elements@[i as int]@);
            if !elements[i].is_root() {
                res.push(i);
            }
        }
        assert(path@.take(n as int) =~= path@);
        res
    }
}

impl Simple {
    /// Paths which elements (without the root marker) match the matcher are accepted.
    pub open spec fn accepts(&self, path: Seq<SpecElement>, kind: ParsedKind) -> bool {
        simple_match(self@, strip_roots(path))
    }
}

impl MatchMaker for Simple {
    open spec fn spec_match(&self, path: Seq<SpecElement>, kind: ParsedKind) -> bool {
        self.accepts(path, kind)
    }

    fn match_path(&self, path: &Path, _kind: ParsedKind) -> (r: bool) {
        let positions = Self::non_root_positions(path);
        let elements = path.get_path();
        let ghost pat = self@;
        let ghost q = strip_roots(path@);
        let n = self.path.len();
        let m = positions.len();
        // `next[b]` tells whether `pat[a + 1..]` matches `q[b..]` (b < m),
        // `next_end` whether it matches the empty rest
        let mut next: Vec<bool> = Vec::new();
        for b in 0..m
            invariant
                next@.len() == b,
                forall|j: int| 0 <= j < b ==> #[trigger] next@[j] == false,
        {
            next.push(false);
        }
        let mut next_end = true;
        proof {
            assert forall|j: int| 0 <= j < m implies #[trigger] next@[j] == simple_match(
                pat.skip(n as int),
                q.skip(j),
            ) by {
                assert(pat.skip(n as int).len() == 0);
            }
            assert(pat.skip(n as int).len() == 0);
            assert(q.skip(m as int).len() == 0);
        }
        let mut a = n;
        while a > 0
            invariant
                a <= n,
                n == self.path@.len(),
                pat == self@,
                pat.len() == n,
                m == q.len(),
                m == positions@.len(),
                elements@.map_values(|e: Element| e@) == path@,
                forall|j: int| 0 <= j < m ==> #[trigger] positions@[j] < path@.len() && path@[positions@[
                    j] as int] == q[j],
                next@.len() == m,
                forall|j: int| 0 <= j < m ==> #[trigger] next@[j] == simple_match(pat.skip(a as int), q.skip(j)),
                next_end == simple_match(pat.skip(a as int), q.skip(m as int)),
            decreases a,
        {
            a = a - 1;
            assert(pat[a as int] == self.path@[a as int]@);
            let any = match self.path[a] {
                SimplePathElement::WildCardAny => true,
                _ => false,
            };
            proof {
                lemma_simple_match_step(pat, q, a as int, m as int);
            }
            let cur_end = if any {
                next_end
            } else {
                false
            };
            let mut cur: Vec<bool> = Vec::new();
            for b in 0..m
                invariant
                    cur@.len() == b,
            {
                cur.push(false);
            }
            let mut b = m;
            while b > 0
                invariant
                    b <= m,
                    a < n,
                    n == self.path@.len(),
                    pat == self@,
                    pat.len() == n,
                    m == q.len(),
                    m == positions@.len(),
                    any == (pat[a as int] is Any),
                    elements@.map_values(|e: Element| e@) == path@,
                    forall|j: int| 0 <= j < m ==> #[trigger] positions@[j] < path@.len() && path@[positions@[
                        j] as int] == q[j],
                    next@.len() == m,
                    cur@.len() == m,
                    forall|j: int| 0 <= j < m ==> #[trigger] next@[j] == simple_match(pat.skip(a + 1), q.skip(j)),
                    next_end == simple_match(pat.skip(a + 1), q.skip(m as int)),
                    cur_end == simple_match(pat.skip(a as int), q.skip(m as int)),
                    forall|j: int| b <= j < m ==> #[trigger] cur@[j] == simple_match(pat.skip(a as int), q.skip(j)),
                decreases b,
            {
                b = b - 1;
                proof {
                    lemma_simple_match_step(pat, q, a as int, b as int);
                }
                let later = if b + 1 < m {
                    cur[b + 1]
                } else {
                    cur_end
                };
                let later_next = if b + 1 < m {
                    next[b + 1]
                } else {
                    next_end
                };
                let value = if any {
                    next[b] || later
                } else {
                    let pos = positions[b];
                    assert(q[b as int] == elements@[pos as int]@);
                    element_match(&self.path[a], &elements[pos]) && later_next
                };
                cur.set(b, value);
            }
            next = cur;
            next_end = cur_end;
        }
        assert(pat.skip(0) =~= pat);
        assert(q.skip(0) =~= q);
        if m == 0 {
            next_end
        } else {
            next[0]
        }
    }

    fn into_combinator(self) -> (c: Combinator) {
        Combinator::Matcher(super::combinator::Leaf::Simple(self))
    }
}

/// Parses an optional bound of an index range.
fn parse_bound_exec(s: &[char]) -> (r: Option<Option<usize>>)
    ensures
        r == parse_bound(s@),
{
    if s.len() == 0 {
        Some(None)
    } else {
        match parse_usize(s) {
            Some(v) => Some(Some(v)),
            None => None,
        }
    }
}

/// Parses a single item of an index match.
fn parse_range(item: &[char]) -> (r: Option<IndexRange>)
    ensures
        r == range_parse(item@),
{
    let parts = split_chars(item, '-');
    if parts.len() == 1 {
        match parse_usize(item) {
            Some(i) => Some((Some(i), Some(i))),
            None => None,
        }
    } else if parts.len() == 2 {
        let start = parse_bound_exec(parts[0].as_slice());
        let end = parse_bound_exec(parts[1].as_slice());
        match (start, end) {
            (Some(start), Some(end)) => match (start, end) {
                (Some(s), Some(e)) => if s >= e {
                    None
                } else {
                    Some((start, end))
                },
                (None, None) => None,
                _ => Some((start, end)),
            },
            _ => None,
        }
    } else {
        None
    }
}

/// Parses the content of `[...]` (which is not empty).
fn parse_index_match(content: &[char]) -> (r: Option<IndexMatch>)
    ensures
        r matches Some(m) ==> ranges_parse(split_seq(content@, ',')) == Some(m.0@),
        r is None ==> ranges_parse(split_seq(content@, ',')) is None,
{
    let items = split_chars(content, ',');
    let ghost all = split_seq(content@, ',');
    let n = items.len();
    let mut result: Vec<IndexRange> = Vec::new();
    let mut i: usize = 0;
    assert(all.skip(0) =~= all);
    proof {
        match ranges_parse(all) {
            Some(rest) => {
                assert(result@ + rest =~= rest);
            },
            None => {},
        }
    }
    while i < n
        invariant
            all == split_seq(content@, ','),
            n == items@.len(),
            n == all.len(),
            i <= n,
            forall|j: int| 0 <= j < n ==> #[trigger] items@[j]@ == all[j],
            ranges_parse(all) == match ranges_parse(all.skip(i as int)) {
                Some(rest) => Some(result@ + rest),
                None => None::<Seq<IndexRange>>,
            },
        decreases n - i,
    {
        let ghost rest = all.skip(i as int);
        assert(rest[0] == all[i as int]);
        assert(rest.skip(1) =~= all.skip(i + 1));
        match parse_range(items[i].as_slice()) {
            Some(range) => {
                let ghost old_result = result@;
                result.push(range);
                proof {
                    match ranges_parse(all.skip(i + 1)) {
                        Some(tail) => {
                            assert(old_result + (seq![range] + tail) =~= result@ + tail);
                        },
                        None => {},
                    }
                }
            },
            None => {
                assert(ranges_parse(rest) is None);
                assert(ranges_parse(all) is None);
                assert(all == split_seq(content@, ','));
                return None;
            },
        }
        i = i + 1;
    }
    assert(all.skip(n as int) =~= Seq::<Seq<char>>::empty());
    assert(result@ + Seq::<IndexRange>::empty() =~= result@);
    Some(IndexMatch(result))
}

/// Scans index characters starting at `start`.
fn scan_index_chars(chars: &Vec<char>, start: usize) -> (r: usize)
    requires
        start <= chars@.len(),
    ensures
        r == index_end(chars@, start as int),
{
    proof {
        lemma_index_end_bounds(chars@, start as int);
    }
    let mut j = start;
    while j < chars.len() && ((chars[j] >= '0' && chars[j] <= '9') || chars[j] == '-' || chars[j]
        == ',')
        invariant
            start <= j <= chars@.len(),
            index_end(chars@, start as int) == index_end(chars@, j as int),
        decreases chars@.len() - j,
    {
        j = j + 1;
    }
    j
}

proof fn lemma_index_end_shift(s: Seq<char>, pos: int, i: int)
    requires
        0 <= pos <= s.len(),
        0 <= i,
    ensures
        index_end(s.skip(pos), i) == index_end(s, pos + i) - pos,
    decreases s.len() - pos - i,
{
    if pos + i < s.len() {
        assert(s.skip(pos)[i] == s[pos + i]);
        if is_index_char(s[pos + i]) {
            lemma_index_end_shift(s, pos, i + 1);
        }
    }
}

/// Parses the elements of a simple matcher definition from `pos` on.
fn parse_simple_elements(chars: &Vec<char>, pos: usize, out: &mut Vec<SimplePathElement>) -> (ok: bool)
    requires
        pos <= chars@.len(),
    ensures
        ok ==> simple_parse(chars@.skip(pos as int)) == Some(
            final(out)@.skip(old(out)@.len() as int).map_values(|e: SimplePathElement| e@),
        ) && final(out)@.len() >= old(out)@.len() && final(out)@.take(old(out)@.len() as int)
            == old(out)@,
        !ok ==> simple_parse(chars@.skip(pos as int)) is None,
    decreases chars@.len() - pos,
{
    let ghost s = chars@.skip(pos as int);
    if pos == chars.len() {
        assert(out@.skip(old(out)@.len() as int).map_values(|e: SimplePathElement| e@) =~= Seq::<
            SpecSimpleElement,
        >::empty());
        assert(out@.take(old(out)@.len() as int) =~= old(out)@);
        return true;
    }
    assert(s[0] == chars@[pos as int]);
    let c = chars[pos];
    let next_pos: usize;
    let element: SimplePathElement;
    if c == '?' {
        element = SimplePathElement::WildCardSingle;
        next_pos = pos + 1;
    } else if c == '*' {
        element = SimplePathElement::WildCardAny;
        next_pos = pos + 1;
    } else if c == '[' {
        let j = scan_index_chars(chars, pos + 1);
        proof {
            lemma_index_end_bounds(chars@, pos + 1);
            lemma_index_end_shift(chars@, pos as int, 1);
        }
        if j >= chars.len() || chars[j] != ']' {
            return false;
        }
        if j == pos + 1 {
            element = SimplePathElement::Index(IndexMatch(Vec::new()));
            assert(element@ == SpecSimpleElement::Index(Seq::empty()));
        } else {
            let content = crate::text::copy_range(chars.as_slice(), pos + 1, j);
            assert(content@ =~= s.subrange(1, j - pos));
            match parse_index_match(content.as_slice()) {
                Some(m) => {
                    element = SimplePathElement::Index(m);
                },
                None => {
                    return false;
                },
            }
        }
        next_pos = j + 1;
    } else if c == '{' {
        if pos + 1 >= chars.len() {
            return false;
        }
        assert(s[1] == chars@[pos + 1]);
        if chars[pos + 1] == '}' {
            element = SimplePathElement::Key(None);
            next_pos = pos + 2;
        } else if chars[pos + 1] == '"' {
            let end = crate::path::scan_key(chars, pos + 2);
            proof {
                crate::path::lemma_key_end_shift(chars@, pos as int, 2);
                lemma_key_end_bounds(chars@, pos + 2);
            }
            match end {
                None => {
                    return false;
                },
                Some(j) => {
                    if j + 1 >= chars.len() || chars[j + 1] != '}' {
                        return false;
                    }
                    let key = crate::path::chars_to_string(chars, pos + 2, j);
                    assert(key@ =~= s.subrange(2, j - pos));
                    element = SimplePathElement::Key(Some(key));
                    next_pos = j + 2;
                },
            }
        } else {
            return false;
        }
    } else {
        return false;
    }
    assert(s.skip(next_pos - pos) =~= chars@.skip(next_pos as int));
    assert(simple_parse(s) == prepend_simple(element@, simple_parse(chars@.skip(next_pos as int))));
    out.push(element);
    let ghost mid = out@;
    let ok = parse_simple_elements(chars, next_pos, out);
    proof {
        if ok {
            assert(out@.take(mid.len() as int) == mid);
            assert forall|k: int| 0 <= k < mid.len() implies out@[k] == mid[k] by {
                assert(out@.take(mid.len() as int)[k] == out@[k]);
            }
            assert(out@.take(old(out)@.len() as int) =~= old(out)@);
            assert(out@[old(out)@.len() as int] == mid[old(out)@.len() as int]);
            assert(out@.skip(old(out)@.len() as int).map_values(|e: SimplePathElement| e@) =~= seq![
                element@] + out@.skip(mid.len() as int).map_values(|e: SimplePathElement| e@));
        }
    }
    ok
}

/// The text `[item]` of an index element with a single item.
pub open spec fn index_text(item: Seq<char>) -> Seq<char> {
    seq!['['] + item + seq![']']
}

/// The decimal text of a number.
pub open spec fn num_text(n: usize) -> Seq<char> {
    crate::path::decimal(n as nat)
}

/// A number's text is read back as the number; it holds no separator.
proof fn lemma_num_text(n: usize)
    ensures
        parse_usize_spec(num_text(n)) == Some(n),
        parse_bound(num_text(n)) == Some(Some(n)),
        num_text(n).len() > 0,
        forall|i: int| 0 <= i < num_text(n).len() ==> is_digit(#[trigger] num_text(n)[i]),
{
    crate::path::lemma_decimal_digits(n as nat);
    let t = num_text(n);
    assert(t[0] != '+');
    assert(crate::text::all_digits(t));
}

/// Splitting text without the separator gives the text itself.
proof fn lemma_split_single(a: Seq<char>, c: char)
    requires
        forall|i: int| 0 <= i < a.len() ==> a[i] != c,
    ensures
        split_seq(a, c) == seq![a],
{
    crate::text::lemma_find_char_unique(a, c, a.len() as int);
}

/// Splitting `a-b` at `-` gives `a` and `b`.
proof fn lemma_split_dash(a: Seq<char>, b: Seq<char>)
    requires
        forall|i: int| 0 <= i < a.len() ==> a[i] != '-',
        forall|i: int| 0 <= i < b.len() ==> b[i] != '-',
    ensures
        split_seq(a + seq!['-'] + b, '-') == seq![a, b],
{
    let t = a + seq!['-'] + b;
    assert forall|k: int| 0 <= k < a.len() implies t[k] != '-' by {
        assert(t[k] == a[k]);
    }
    crate::text::lemma_find_char_unique(t, '-', a.len() as int);
    assert(t.take(a.len() as int) =~= a);
    assert(t.skip(a.len() + 1int) =~= b);
    lemma_split_single(b, '-');
    assert(split_seq(t, '-') =~= seq![a, b]);
}

/// `index_end` runs over index characters up to the first other one.
proof fn lemma_index_end_run(s: Seq<char>, i: int, j: int)
    requires
        0 <= i <= j < s.len(),
        forall|k: int| i <= k < j ==> is_index_char(#[trigger] s[k]),
        !is_index_char(s[j]),
    ensures
        index_end(s, i) == j,
    decreases j - i,
{
    if i < j {
        lemma_index_end_run(s, i + 1, j);
    }
}

/// A single item between brackets is parsed as one index element with the
/// range of the item.
proof fn lemma_single_item(item: Seq<char>)
    requires
        item.len() > 0,
        forall|k: int| 0 <= k < item.len() ==> is_index_char(#[trigger] item[k]),
        forall|k: int| 0 <= k < item.len() ==> item[k] != ',',
    ensures
        simple_parse(index_text(item)) == match range_parse(item) {
            Some(r) => Some(seq![SpecSimpleElement::Index(seq![r])]),
            None => None::<Seq<SpecSimpleElement>>,
        },
{
    let t = index_text(item);
    let j: int = item.len() + 1int;
    assert forall|k: int| 1 <= k < j implies is_index_char(#[trigger] t[k]) by {
        assert(t[k] == item[k - 1]);
    }
    assert(t[j] == ']');
    lemma_index_end_run(t, 1, j);
    assert(t.subrange(1, j) =~= item);
    lemma_split_single(item, ',');
    let items = seq![item];
    assert(items.skip(1) =~= Seq::<Seq<char>>::empty());
    assert(t.skip(j + 1) =~= Seq::<char>::empty());
    assert(items[0] == item);
    assert(ranges_parse(Seq::<Seq<char>>::empty()) == Some(Seq::<IndexRange>::empty()));
    assert(simple_parse(Seq::<char>::empty()) == Some(Seq::<SpecSimpleElement>::empty()));
    if let Some(r) = range_parse(item) {
        assert(ranges_parse(items) == Some(seq![r] + Seq::<IndexRange>::empty()));
        assert(seq![r] + Seq::<IndexRange>::empty() =~= seq![r]);
        assert(seq![SpecSimpleElement::Index(seq![r])] + Seq::<SpecSimpleElement>::empty()
            =~= seq![SpecSimpleElement::Index(seq![r])]);
    }
}

/// An index element with one range matches an index exactly when the range
/// holds it.
proof fn lemma_match_single(r: IndexRange, idx: usize)
    ensures
        simple_match(seq![SpecSimpleElement::Index(seq![r])], seq![SpecElement::Index(idx)])
            == in_range(r, idx),
{
    let p = seq![SpecSimpleElement::Index(seq![r])];
    let q = seq![SpecElement::Index(idx)];
    assert(p.skip(1) =~= Seq::<SpecSimpleElement>::empty());
    assert(q.skip(1) =~= Seq::<SpecElement>::empty());
    assert(seq![r][0] == r);
    assert(seq![r].len() == 1);
    assert(simple_match(Seq::<SpecSimpleElement>::empty(), Seq::<SpecElement>::empty()));
    assert(p[0] == SpecSimpleElement::Index(seq![r]));
    assert(q[0] == SpecElement::Index(idx));
    assert(element_matches(p[0], q[0]) == in_range(r, idx));
    assert(simple_match(p, q) == element_matches(p[0], q[0]));
}

/// `[N-]` is a matcher whose element matches exactly the indexes from `N` up.
pub proof fn lemma_index_from(n: usize, idx: usize)
    ensures
        simple_parse(index_text(num_text(n) + seq!['-'])) is Some,
        simple_match(
            simple_parse(index_text(num_text(n) + seq!['-']))->0,
            seq![SpecElement::Index(idx)],
        ) <==> idx >= n,
{
    lemma_num_text(n);
    let a = num_text(n);
    let item = a + seq!['-'];
    assert(a + seq!['-'] + Seq::<char>::empty() =~= item);
    lemma_split_dash(a, Seq::empty());
    assert(range_parse(item) == Some((Some(n), None::<usize>)));
    assert forall|k: int| 0 <= k < item.len() implies is_index_char(#[trigger] item[k]) && item[k]
        != ',' by {
        if k < a.len() {
            assert(item[k] == a[k]);
        }
    }
    lemma_single_item(item);
    lemma_match_single((Some(n), None), idx);
}

/// `[-M]` is a matcher whose element matches exactly the indexes up to `M`
/// (`M` included).
pub proof fn lemma_index_up_to(m: usize, idx: usize)
    ensures
        simple_parse(index_text(seq!['-'] + num_text(m))) is Some,
        simple_match(
            simple_parse(index_text(seq!['-'] + num_text(m)))->0,
            seq![SpecElement::Index(idx)],
        ) <==> idx <= m,
{
    lemma_num_text(m);
    let b = num_text(m);
    let item = seq!['-'] + b;
    assert(Seq::<char>::empty() + seq!['-'] + b =~= item);
    lemma_split_dash(Seq::empty(), b);
    assert(parse_bound(Seq::<char>::empty()) == Some(None::<usize>));
    assert(range_parse(item) == Some((None::<usize>, Some(m))));
    assert forall|k: int| 0 <= k < item.len() implies is_index_char(#[trigger] item[k]) && item[k]
        != ',' by {
        if k > 0 {
            assert(item[k] == b[k - 1]);
        }
    }
    lemma_single_item(item);
    lemma_match_single((None, Some(m)), idx);
}

/// `[N-M]` with `N < M` is a matcher whose element matches exactly the
/// indexes from `N` to `M` (both included); with `N >= M` it is no matcher.
pub proof fn lemma_index_between(n: usize, m: usize, idx: usize)
    ensures
        n < m ==> simple_parse(index_text(num_text(n) + seq!['-'] + num_text(m))) is Some,
        n < m ==> (simple_match(
            simple_parse(index_text(num_text(n) + seq!['-'] + num_text(m)))->0,
            seq![SpecElement::Index(idx)],
        ) <==> n <= idx <= m),
        n >= m ==> simple_parse(index_text(num_text(n) + seq!['-'] + num_text(m))) is None,
{
    lemma_num_text(n);
    lemma_num_text(m);
    let a = num_text(n);
    let b = num_text(m);
    let item = a + seq!['-'] + b;
    lemma_split_dash(a, b);
    assert forall|k: int| 0 <= k < item.len() implies is_index_char(#[trigger] item[k]) && item[k]
        != ',' by {
        if k < a.len() {
            assert(item[k] == a[k]);
        } else if k > a.len() {
            assert(item[k] == b[k - a.len() - 1]);
        }
    }
    lemma_single_item(item);
    if n < m {
        assert(range_parse(item) == Some((Some(n), Some(m))));
        lemma_match_single((Some(n), Some(m)), idx);
    } else {
        assert(range_parse(item) is None);
    }
}

/// `[N]` is a matcher whose element matches exactly the index `N`.
pub proof fn lemma_index_single(n: usize, idx: usize)
    ensures
        simple_parse(index_text(num_text(n))) is Some,
        simple_match(simple_parse(index_text(num_text(n)))->0, seq![SpecElement::Index(idx)])
            <==> idx == n,
{
    lemma_num_text(n);
    let a = num_text(n);
    lemma_split_single(a, '-');
    assert(range_parse(a) == Some((Some(n), Some(n))));
    assert forall|k: int| 0 <= k < a.len() implies is_index_char(#[trigger] a[k]) && a[k] != ',' by {}
    lemma_single_item(a);
    lemma_match_single((Some(n), Some(n)), idx);
}


} // verus!
