//! Paths inside a JSON document, e.g. `{"users"}[0]{"name"}`.

use crate::error;
use vstd::prelude::*;

verus! {

/// Mathematical model of a path element.
pub enum SpecElement {
    Root,
    Key(Seq<char>),
    Index(usize),
}

/// A single element of a path.
///
/// `Root` marks the top of the document; it is rendered as an empty string
/// and it does not count into the depth of a path.
#[derive(Debug, PartialEq)]
pub enum Element {
    Root,
    Key(String),
    Index(usize),
}

impl View for Element {
    type V = SpecElement;

    open spec fn view(&self) -> SpecElement {
        match self {
            Element::Root => SpecElement::Root,
            Element::Key(key) => SpecElement::Key(key@),
            Element::Index(idx) => SpecElement::Index(*idx),
        }
    }
}

impl Clone for Element {
    fn clone(&self) -> (r: Self)
        ensures
            r@ == self@,
    {
        match self {
            Element::Root => Element::Root,
            Element::Key(key) => Element::Key(key.clone()),
            Element::Index(idx) => Element::Index(*idx),
        }
    }
}

impl Element {
    /// Whether the element is an object key.
    pub fn is_key(&self) -> (r: bool)
        ensures
            r == (self@ is Key),
    {
        match self {
            Element::Key(_) => true,
            _ => false,
        }
    }

    /// Whether the element is the root marker.
    pub fn is_root(&self) -> (r: bool)
        ensures
            r == (self@ is Root),
    {
        match self {
            Element::Root => true,
            _ => false,
        }
    }

    /// Compares two elements.
    pub fn same_as(&self, other: &Element) -> (r: bool)
        ensures
            r == (self@ == other@),
    {
        match (self, other) {
            (Element::Root, Element::Root) => true,
            (Element::Key(a), Element::Key(b)) => *a == *b,
            (Element::Index(a), Element::Index(b)) => *a == *b,
            _ => false,
        }
    }
}

/// Number of elements of a path which are not the root marker.
pub open spec fn depth_of(path: Seq<SpecElement>) -> nat
    decreases path.len(),
{
    if path.len() == 0 {
        0
    } else {
        depth_of(path.drop_last()) + if path.last() is Root {
            0nat
        } else {
            1nat
        }
    }
}

/// The characters of a decimal digit.
pub open spec fn digit_char(d: nat) -> char {
    if d == 0 {
        '0'
    } else if d == 1 {
        '1'
    } else if d == 2 {
        '2'
    } else if d == 3 {
        '3'
    } else if d == 4 {
        '4'
    } else if d == 5 {
        '5'
    } else if d == 6 {
        '6'
    } else if d == 7 {
        '7'
    } else if d == 8 {
        '8'
    } else {
        '9'
    }
}

/// Decimal representation of a number (without leading zeros).
pub open spec fn decimal(n: nat) -> Seq<char>
    decreases n,
{
    if n < 10 {
        seq![digit_char(n)]
    } else {
        decimal(n / 10).push(digit_char(n % 10))
    }
}

/// Textual representation of a path element.
pub open spec fn render_element(e: SpecElement) -> Seq<char> {
    match e {
        SpecElement::Root => Seq::empty(),
        SpecElement::Key(key) => seq!['{', '"'] + key + seq!['"', '}'],
        SpecElement::Index(idx) => seq!['['] + decimal(idx as nat) + seq![']'],
    }
}

/// Textual representation of a path, e.g. `{"users"}[0]`.
pub open spec fn render_path(path: Seq<SpecElement>) -> Seq<char>
    decreases path.len(),
{
    if path.len() == 0 {
        Seq::empty()
    } else {
        render_path(path.drop_last()) + render_element(path.last())
    }
}

/// Appends a character to a string.
#[verifier::external_body]
pub(crate) fn string_push(s: &mut String, c: char)
    ensures
        final(s)@ == old(s)@.push(c),
{
    s.push(c);
}

/// The exec counterpart of `digit_char`.
fn make_digit(d: usize) -> (c: char)
    requires
        d < 10,
    ensures
        c == digit_char(d as nat),
{
    if d == 0 {
        '0'
    } else if d == 1 {
        '1'
    } else if d == 2 {
        '2'
    } else if d == 3 {
        '3'
    } else if d == 4 {
        '4'
    } else if d == 5 {
        '5'
    } else if d == 6 {
        '6'
    } else if d == 7 {
        '7'
    } else if d == 8 {
        '8'
    } else {
        '9'
    }
}

/// Appends the decimal representation of `n` to `out`.
pub fn push_decimal(out: &mut String, n: usize)
    ensures
        final(out)@ == old(out)@ + decimal(n as nat),
    decreases n,
{
    if n < 10 {
        string_push(out, make_digit(n));
    } else {
        push_decimal(out, n / 10);
        string_push(out, make_digit(n % 10));
        assert(decimal(n as nat) == decimal((n / 10) as nat).push(digit_char((n % 10) as nat)));
    }
}

/// Represents the path in a json, e.g. `{"users"}[0]`.
#[derive(Debug, PartialEq)]
pub struct Path {
    path: Vec<Element>,
}

impl View for Path {
    type V = Seq<SpecElement>;

    closed spec fn view(&self) -> Seq<SpecElement> {
        self.path@.map_values(|e: Element| e@)
    }
}

impl Clone for Path {
    fn clone(&self) -> (r: Self)
        ensures
            r@ == self@,
    {
        let mut res: Vec<Element> = Vec::new();
        let n = self.path.len();
        for i in 0..n
            invariant
                n == self.path.len(),
                res@.len() == i,
                forall|j: int| 0 <= j < i ==> #[trigger] res@[j]@ == self.path@[j]@,
        {
            res.push(self.path[i].clone());
        }
        let r = Path { path: res };
        assert(r@ =~= self@);
        r
    }
}

impl Path {
    /// Creates an empty path.
    pub fn new() -> (r: Self)
        ensures
            r@ == Seq::<SpecElement>::empty(),
    {
        let r = Path { path: Vec::new() };
        assert(r@ =~= Seq::<SpecElement>::empty());
        r
    }

    /// Removes the last path element.
    ///
    /// The last remaining element is never removed.
    pub fn pop(&mut self)
        requires
            old(self)@.len() >= 2,
        ensures
            final(self)@ == old(self)@.drop_last(),
    {
        self.path.pop();
        assert(self@ =~= old(self)@.drop_last());
    }

    /// Appends a path element.
    pub fn push(&mut self, element: Element)
        ensures
            final(self)@ == old(self)@.push(element@),
    {
        self.path.push(element);
        assert(self@ =~= old(self)@.push(element@));
    }

    /// Returns the path depth (the root marker is not counted).
    pub fn depth(&self) -> (r: usize)
        ensures
            r == depth_of(self@),
    {
        let n = self.path.len();
        let mut count: usize = 0;
        for i in 0..n
            invariant
                n == self.path.len(),
                count == depth_of(self@.take(i as int)),
                count <= i,
        {
            assert(self@.take(i + 1).drop_last() =~= self@.take(i as int));
            if !self.path[i].is_root() {
                count = count + 1;
            }
        }
        assert(self@.take(n as int) =~= self@);
        count
    }

    /// Returns the elements of the path.
    pub fn get_path(&self) -> (r: &[Element])
        ensures
            r@.map_values(|e: Element| e@) == self@,
    {
        self.path.as_slice()
    }

    /// Number of stored elements (including the root marker).
    pub fn len(&self) -> (r: usize)
        ensures
            r == self@.len(),
    {
        self.path.len()
    }

    /// Compares two paths element by element.
    pub fn same_as(&self, other: &Path) -> (r: bool)
        ensures
            r == (self@ == other@),
    {
        let n = self.path.len();
        if n != other.path.len() {
            assert(self@.len() != other@.len());
            return false;
        }
        for i in 0..n
            invariant
                n == self.path.len(),
                n == other.path.len(),
                forall|j: int| 0 <= j < i ==> self@[j] == other@[j],
        {
            if !self.path[i].same_as(&other.path[i]) {
                assert(self@[i as int] != other@[i as int]);
                return false;
            }
        }
        assert(self@ =~= other@);
        true
    }

    /// Textual representation of the path, e.g. `{"users"}[0]{"name"}`.
    pub fn to_string(&self) -> (r: String)
        ensures
            r@ == render_path(self@),
    {
        let mut res = String::new();
        let n = self.path.len();
        for i in 0..n
            invariant
                n == self.path.len(),
                res@ == render_path(self@.take(i as int)),
        {
            assert(self@.take(i + 1).drop_last() =~= self@.take(i as int));
            match &self.path[i] {
                Element::Root => {},
                Element::Key(key) => {
                    string_push(&mut res, '{');
                    string_push(&mut res, '"');
                    res.append(key.as_str());
                    string_push(&mut res, '"');
                    string_push(&mut res, '}');
                },
                Element::Index(idx) => {
                    string_push(&mut res, '[');
                    push_decimal(&mut res, *idx);
                    string_push(&mut res, ']');
                },
            }
            assert(res@ =~= render_path(self@.take(i + 1)));
        }
        assert(self@.take(n as int) =~= self@);
        res
    }
}


/// Collects the characters of a string.
pub fn collect_chars(s: &str) -> (r: Vec<char>)
    ensures
        r@ == s@,
{
    let mut res: Vec<char> = Vec::new();
    for c in it: s.chars()
        invariant
            res@ == it.seq().take(it.index() as int),
    {
        res.push(c);
    }
    res
}


/// Outcome of parsing a path string.
pub enum PathParse {
    /// The string describes these elements.
    Parsed(Seq<SpecElement>),
    /// The string is not a path.
    Invalid,
    /// The string contains an array index which is empty or does not fit `usize`.
    BadIndex,
}

/// Whether a character is an ASCII digit.
pub open spec fn is_digit(c: char) -> bool {
    '0' <= c && c <= '9'
}

/// Numeric value of a digit character.
pub open spec fn digit_value(c: char) -> nat {
    (c as int - '0' as int) as nat
}

/// Numeric value of a sequence of digits.
pub open spec fn digits_value(d: Seq<char>) -> nat
    decreases d.len(),
{
    if d.len() == 0 {
        0
    } else {
        digits_value(d.drop_last()) * 10 + digit_value(d.last())
    }
}

/// First position at or after `i` which does not hold a digit.
pub open spec fn digits_end(s: Seq<char>, i: int) -> int
    decreases s.len() - i,
{
    if i < 0 || i >= s.len() {
        s.len() as int
    } else if is_digit(s[i]) {
        digits_end(s, i + 1)
    } else {
        i
    }
}

/// Position of the quote which terminates a key starting at `i`.
///
/// A backslash escapes the character which follows it.
pub open spec fn key_end(s: Seq<char>, i: int) -> Option<int>
    decreases s.len() - i,
{
    if i < 0 || i >= s.len() {
        None
    } else if s[i] == '\\' {
        if i + 1 >= s.len() {
            None
        } else {
            key_end(s, i + 2)
        }
    } else if s[i] == '"' {
        Some(i)
    } else {
        key_end(s, i + 1)
    }
}

/// Prepends an element to a parse outcome.
pub open spec fn prepend_element(e: SpecElement, rest: PathParse) -> PathParse {
    match rest {
        PathParse::Parsed(elems) => PathParse::Parsed(seq![e] + elems),
        other => other,
    }
}

/// Parses a path string, e.g. `{"users"}[0]`.
pub open spec fn parse_path(s: Seq<char>) -> PathParse
    decreases s.len(),
{
    if s.len() == 0 {
        PathParse::Parsed(Seq::empty())
    } else if s[0] == '[' {
        let j = digits_end(s, 1);
        proof {
            lemma_digits_end_bounds(s, 1);
        }
        if j >= s.len() || s[j] != ']' {
            PathParse::Invalid
        } else if j == 1 || digits_value(s.subrange(1, j)) > usize::MAX {
            PathParse::BadIndex
        } else {
            prepend_element(
                SpecElement::Index(digits_value(s.subrange(1, j)) as usize),
                parse_path(s.skip(j + 1)),
            )
        }
    } else if s[0] == '{' {
        if s.len() < 2 || s[1] != '"' {
            PathParse::Invalid
        } else {
            proof {
                lemma_key_end_bounds(s, 2);
            }
            match key_end(s, 2) {
                Some(j) => if j + 1 >= s.len() || s[j + 1] != '}' {
                    PathParse::Invalid
                } else {
                    prepend_element(SpecElement::Key(s.subrange(2, j)), parse_path(s.skip(j + 2)))
                },
                None => PathParse::Invalid,
            }
        }
    } else {
        PathParse::Invalid
    }
}

pub proof fn lemma_digits_end_bounds(s: Seq<char>, i: int)
    requires
        0 <= i <= s.len(),
    ensures
        i <= digits_end(s, i) <= s.len(),
        forall|k: int| i <= k < digits_end(s, i) ==> is_digit(#[trigger] s[k]),
        digits_end(s, i) < s.len() ==> !is_digit(s[digits_end(s, i)]),
    decreases s.len() - i,
{
    if i < s.len() && is_digit(s[i]) {
        lemma_digits_end_bounds(s, i + 1);
    }
}

pub proof fn lemma_key_end_bounds(s: Seq<char>, i: int)
    requires
        0 <= i,
    ensures
        key_end(s, i) matches Some(j) ==> i <= j < s.len() && s[j] == '"',
    decreases s.len() - i,
{
    if 0 <= i < s.len() {
        if s[i] == '\\' && i + 1 < s.len() {
            lemma_key_end_bounds(s, i + 2);
        } else if s[i] != '"' {
            lemma_key_end_bounds(s, i + 1);
        }
    }
}

proof fn lemma_digits_value_prefix(d: Seq<char>, k: int)
    requires
        0 <= k <= d.len(),
        forall|i: int| 0 <= i < d.len() ==> is_digit(#[trigger] d[i]),
    ensures
        digits_value(d.take(k)) <= digits_value(d),
    decreases d.len(),
{
    if k < d.len() {
        assert(d.drop_last().take(k) =~= d.take(k));
        lemma_digits_value_prefix(d.drop_last(), k);
    } else {
        assert(d.take(k) =~= d);
    }
}

/// Scans the digits of an array index starting at `start` (just after `[`).
fn scan_index(chars: &Vec<char>, start: usize) -> (r: (usize, usize, bool))
    requires
        1 <= start <= chars@.len(),
    ensures
        r.0 == digits_end(chars@, start as int),
        r.2 == (digits_value(chars@.subrange(start as int, r.0 as int)) <= usize::MAX),
        r.2 ==> r.1 == digits_value(chars@.subrange(start as int, r.0 as int)),
{
    proof {
        lemma_digits_end_bounds(chars@, start as int);
    }
    let ghost end = digits_end(chars@, start as int);
    let mut j = start;
    let mut value: usize = 0;
    let mut fits = true;
    while j < chars.len() && '0' <= chars[j] && chars[j] <= '9'
        invariant
            start <= j <= end,
            end <= chars@.len(),
            forall|k: int| start <= k < end ==> is_digit(#[trigger] chars@[k]),
            end < chars@.len() ==> !is_digit(chars@[end]),
            fits ==> value == digits_value(chars@.subrange(start as int, j as int)),
            !fits ==> digits_value(chars@.subrange(start as int, j as int)) > usize::MAX,
        decreases chars@.len() - j,
    {
        let ghost prev = chars@.subrange(start as int, j as int);
        let ghost next = chars@.subrange(start as int, j + 1);
        assert(next.drop_last() =~= prev);
        let d = (chars[j] as u32 - '0' as u32) as usize;
        if fits {
            if value > (usize::MAX - d) / 10 {
                fits = false;
                assert(digits_value(next) > usize::MAX) by (nonlinear_arith)
                    requires
                        digits_value(next) == value * 10 + d,
                        value > (usize::MAX - d) / 10,
                        d < 10,
                ;
            } else {
                assert(value * 10 + d <= usize::MAX) by (nonlinear_arith)
                    requires
                        value <= (usize::MAX - d) / 10,
                        d < 10,
                ;
                value = value * 10 + d;
            }
        } else {
            assert(digits_value(next) >= digits_value(prev) * 10) by (nonlinear_arith)
                requires
                    digits_value(next) == digits_value(prev) * 10 + digit_value(chars@[j as int]),
            ;
        }
        j = j + 1;
    }
    (j, value, fits)
}

/// Scans a key starting at `start` (just after `{"`), returns the position
/// of the terminating quote.
pub fn scan_key(chars: &Vec<char>, start: usize) -> (r: Option<usize>)
    requires
        start <= chars@.len(),
    ensures
        r == (match key_end(chars@, start as int) {
            Some(j) => Some(j as usize),
            None => None::<usize>,
        }),
{
    let mut j = start;
    while j < chars.len()
        invariant
            start <= j,
            key_end(chars@, start as int) == key_end(chars@, j as int),
        decreases chars@.len() - j,
    {
        if chars[j] == '\\' {
            if j + 1 >= chars.len() {
                return None;
            }
            j = j + 2;
        } else if chars[j] == '"' {
            return Some(j);
        } else {
            j = j + 1;
        }
    }
    None
}

/// Builds a string from a range of characters.
pub fn chars_to_string(chars: &Vec<char>, from: usize, to: usize) -> (r: String)
    requires
        from <= to <= chars@.len(),
    ensures
        r@ == chars@.subrange(from as int, to as int),
{
    let mut res = String::new();
    let mut i = from;
    while i < to
        invariant
            from <= i <= to,
            to <= chars@.len(),
            res@ == chars@.subrange(from as int, i as int),
        decreases to - i,
    {
        string_push(&mut res, chars[i]);
        i = i + 1;
        assert(res@ =~= chars@.subrange(from as int, i as int));
    }
    res
}

/// Parses the elements of a path string from position `pos` on.
fn parse_elements(chars: &Vec<char>, pos: usize, out: &mut Vec<Element>) -> (ok: bool)
    requires
        pos <= chars@.len(),
    ensures
        ok ==> parse_path(chars@.skip(pos as int)) == PathParse::Parsed(
            final(out)@.skip(old(out)@.len() as int).map_values(|e: Element| e@),
        ) && final(out)@.len() >= old(out)@.len() && final(out)@.take(old(out)@.len() as int)
            == old(out)@,
        !ok ==> !(parse_path(chars@.skip(pos as int)) is Parsed),
    decreases chars@.len() - pos,
{
    let ghost s = chars@.skip(pos as int);
    if pos == chars.len() {
        assert(out@.skip(old(out)@.len() as int).map_values(|e: Element| e@) =~= Seq::<
            SpecElement,
        >::empty());
        assert(out@.take(old(out)@.len() as int) =~= old(out)@);
        return true;
    }
    assert(s[0] == chars@[pos as int]);
    if chars[pos] == '[' {
        let (j, value, fits) = scan_index(chars, pos + 1);
        proof {
            lemma_digits_end_bounds(chars@, pos + 1);
            lemma_digits_end_shift(chars@, pos as int, 1);
            assert(chars@.subrange(pos + 1, j as int) =~= s.subrange(1, j - pos));
        }
        if j >= chars.len() || chars[j] != ']' {
            return false;
        }
        if j == pos + 1 || !fits {
            return false;
        }
        assert(s.skip(j - pos + 1) =~= chars@.skip(j + 1));
        out.push(Element::Index(value));
        let ghost mid = out@;
        let ok = parse_elements(chars, j + 1, out);
        proof {
            if ok {
                assert(out@.take(mid.len() as int) == mid);
                assert forall|k: int| 0 <= k < mid.len() implies out@[k] == mid[k] by {
                    assert(out@.take(mid.len() as int)[k] == out@[k]);
                }
                assert(out@.take(old(out)@.len() as int) =~= old(out)@);
                assert(out@.skip(old(out)@.len() as int).map_values(|e: Element| e@) =~= seq![
                    SpecElement::Index(value)] + out@.skip(mid.len() as int).map_values(
                    |e: Element| e@)) by {
                    assert(out@[old(out)@.len() as int] == mid[old(out)@.len() as int]);
                }
            }
        }
        ok
    } else if chars[pos] == '{' {
        if pos + 1 >= chars.len() || chars[pos + 1] != '"' {
            assert(s.len() < 2 || s[1] != '"');
            return false;
        }
        assert(s[1] == '"');
        let end = scan_key(chars, pos + 2);
        proof {
            lemma_key_end_shift(chars@, pos as int, 2);
            lemma_key_end_bounds(chars@, pos + 2);
        }
        match end {
            None => false,
            Some(j) => {
                if j + 1 >= chars.len() || chars[j + 1] != '}' {
                    return false;
                }
                let key = chars_to_string(chars, pos + 2, j);
                assert(key@ =~= s.subrange(2, j - pos));
                assert(s.skip(j - pos + 2) =~= chars@.skip(j + 2));
                out.push(Element::Key(key));
                let ghost mid = out@;
                let ok = parse_elements(chars, j + 2, out);
                proof {
                    if ok {
                        assert(out@.take(mid.len() as int) == mid);
                        assert forall|k: int| 0 <= k < mid.len() implies out@[k] == mid[k] by {
                            assert(out@.take(mid.len() as int)[k] == out@[k]);
                        }
                        assert(out@.take(old(out)@.len() as int) =~= old(out)@);
                        assert(out@.skip(old(out)@.len() as int).map_values(
                            |e: Element| e@,
                        ) =~= seq![SpecElement::Key(key@)] + out@.skip(
                            mid.len() as int,
                        ).map_values(|e: Element| e@)) by {
                            assert(out@[old(out)@.len() as int] == mid[old(out)@.len() as int]);
                        }
                    }
                }
                ok
            },
        }
    } else {
        false
    }
}

proof fn lemma_digits_end_shift(s: Seq<char>, pos: int, i: int)
    requires
        0 <= pos <= s.len(),
        0 <= i,
    ensures
        digits_end(s.skip(pos), i) == digits_end(s, pos + i) - pos,
    decreases s.len() - pos - i,
{
    if pos + i < s.len() {
        assert(s.skip(pos)[i] == s[pos + i]);
        if is_digit(s[pos + i]) {
            lemma_digits_end_shift(s, pos, i + 1);
        }
    }
}

pub proof fn lemma_key_end_shift(s: Seq<char>, pos: int, i: int)
    requires
        0 <= pos <= s.len(),
        0 <= i,
    ensures
        key_end(s.skip(pos), i) == (match key_end(s, pos + i) {
            Some(j) => Some(j - pos),
            None => None::<int>,
        }),
    decreases s.len() - pos - i,
{
    if pos + i < s.len() {
        assert(s.skip(pos)[i] == s[pos + i]);
        if s[pos + i] == '\\' {
            if pos + i + 1 < s.len() {
                assert(s.skip(pos).len() == s.len() - pos);
                lemma_key_end_shift(s, pos, i + 2);
            }
        } else if s[pos + i] != '"' {
            lemma_key_end_shift(s, pos, i + 1);
        }
    }
}


impl Path {
    /// Parses a path from its textual representation, e.g. `{"users"}[0]`.
    ///
    /// The resulting path starts with the root marker. A string which is
    /// no path (an index which is empty or too large included) gives an
    /// error holding the string.
    pub fn try_from(path_str: &str) -> (r: Result<Path, error::Path>)
        ensures
            match r {
                Ok(p) => parse_path(path_str@) matches PathParse::Parsed(elems) && p@ == seq![
                    SpecElement::Root,
                ] + elems,
                Err(e) => !(parse_path(path_str@) is Parsed) && e.path@ == path_str@,
            },
    {
        let chars = collect_chars(path_str);
        let mut elements: Vec<Element> = Vec::new();
        elements.push(Element::Root);
        assert(chars@.skip(0) =~= chars@);
        if parse_elements(&chars, 0, &mut elements) {
            let p = Path { path: elements };
            assert(p@ =~= seq![SpecElement::Root] + elements@.skip(1).map_values(|e: Element| e@))
                by {
                assert(elements@.take(1)[0] == elements@[0]);
            }
            Ok(p)
        } else {
            Err(error::Path::new(path_str))
        }
    }
}

} // verus!

verus! {

/// A key is closed when the key scanner stops exactly at its end: it has no
/// unescaped quote and does not end with an escaping backslash.
pub open spec fn key_closed(k: Seq<char>) -> bool {
    key_end(k.push('"'), 0) == Some(k.len() as int)
}

/// Whether a path can be written down and read back: it has no root marker
/// and its keys are closed.
pub open spec fn renderable(p: Seq<SpecElement>) -> bool {
    forall|i: int|
        0 <= i < p.len() ==> match #[trigger] p[i] {
            SpecElement::Root => false,
            SpecElement::Key(k) => key_closed(k),
            SpecElement::Index(_) => true,
        }
}

/// Rendering a path with an element in front.
proof fn lemma_render_prepend(e: SpecElement, rest: Seq<SpecElement>)
    ensures
        render_path(seq![e] + rest) == render_element(e) + render_path(rest),
    decreases rest.len(),
{
    let whole = seq![e] + rest;
    if rest.len() == 0 {
        assert(whole =~= seq![e]);
        assert(whole.drop_last() =~= Seq::<SpecElement>::empty());
        assert(whole.last() == e);
        assert(render_path(whole) == render_path(whole.drop_last()) + render_element(whole.last()));
        assert(render_path(Seq::<SpecElement>::empty()) == Seq::<char>::empty());
        assert(render_element(e) + render_path(rest) =~= render_element(e));
        assert(Seq::<char>::empty() + render_element(e) =~= render_element(e));
    } else {
        lemma_render_prepend(e, rest.drop_last());
        assert(whole.drop_last() =~= seq![e] + rest.drop_last());
        assert(whole.last() == rest.last());
        assert(render_path(whole) == render_path(whole.drop_last()) + render_element(whole.last()));
        assert(render_path(rest) == render_path(rest.drop_last()) + render_element(rest.last()));
        assert(render_element(e) + render_path(rest.drop_last()) + render_element(rest.last())
            =~= render_element(e) + (render_path(rest.drop_last()) + render_element(rest.last())));
    }
}

/// The digits of a decimal representation.
pub proof fn lemma_decimal_digits(n: nat)
    ensures
        decimal(n).len() >= 1,
        forall|i: int| 0 <= i < decimal(n).len() ==> is_digit(#[trigger] decimal(n)[i]),
        digits_value(decimal(n)) == n,
    decreases n,
{
    if n >= 10 {
        lemma_decimal_digits(n / 10);
        lemma_digit_char(n % 10);
        let d = decimal(n);
        assert(d.drop_last() =~= decimal(n / 10));
        assert(forall|i: int| 0 <= i < d.len() - 1 ==> d[i] == decimal(n / 10)[i]);
        assert(d.last() == digit_char(n % 10));
        assert(digits_value(d) == digits_value(d.drop_last()) * 10 + digit_value(d.last()));
        assert((n / 10) * 10 + n % 10 == n) by (nonlinear_arith);
    } else {
        lemma_digit_char(n);
        let d = decimal(n);
        assert(d.drop_last() =~= Seq::<char>::empty());
        assert(digits_value(d) == digits_value(d.drop_last()) * 10 + digit_value(d.last()));
    }
}

/// A digit character has the value it stands for.
proof fn lemma_digit_char(d: nat)
    requires
        d < 10,
    ensures
        is_digit(digit_char(d)),
        digit_value(digit_char(d)) == d,
{
}

/// Where a run of digits ends.
proof fn lemma_digits_end_at(s: Seq<char>, i: int, j: int)
    requires
        0 <= i <= j <= s.len(),
        forall|k: int| i <= k < j ==> is_digit(#[trigger] s[k]),
        j < s.len() ==> !is_digit(s[j]),
    ensures
        digits_end(s, i) == j,
    decreases j - i,
{
    if i < j {
        lemma_digits_end_at(s, i + 1, j);
    }
}

/// The key scanner does not look past the quote it stops at.
proof fn lemma_key_end_extend(t: Seq<char>, u: Seq<char>, i: int)
    requires
        0 <= i,
        key_end(t, i) is Some,
    ensures
        key_end(t + u, i) == key_end(t, i),
    decreases t.len() - i,
{
    if i < t.len() {
        assert((t + u)[i] == t[i]);
        if t[i] == '\\' {
            if i + 1 < t.len() {
                lemma_key_end_extend(t, u, i + 2);
            }
        } else if t[i] != '"' {
            lemma_key_end_extend(t, u, i + 1);
        }
    }
}

/// Reading the textual form of a path gives the path back (for paths whose
/// keys are closed and which hold no root marker).
pub proof fn lemma_parse_render(p: Seq<SpecElement>)
    requires
        renderable(p),
    ensures
        parse_path(render_path(p)) == PathParse::Parsed(p),
    decreases p.len(),
{
    if p.len() == 0 {
        assert(p =~= Seq::<SpecElement>::empty());
        assert(render_path(p) =~= Seq::<char>::empty());
    } else {
        let e = p[0];
        let rest = p.skip(1);
        assert(p =~= seq![e] + rest);
        assert(renderable(rest)) by {
            assert forall|i: int| 0 <= i < rest.len() implies match #[trigger] rest[i] {
                SpecElement::Root => false,
                SpecElement::Key(k) => key_closed(k),
                SpecElement::Index(_) => true,
            } by {
                assert(rest[i] == p[i + 1]);
            }
        }
        lemma_parse_render(rest);
        lemma_render_prepend(e, rest);
        let r = render_path(rest);
        let s = render_path(p);
        assert(s == render_element(e) + r);
        assert(match p[0] {
            SpecElement::Root => false,
            SpecElement::Key(k) => key_closed(k),
            SpecElement::Index(_) => true,
        });
        match e {
            SpecElement::Root => {},
            SpecElement::Index(n) => {
                lemma_parse_index(n, r);
                assert(seq![SpecElement::Index(n)] + rest =~= p);
            },
            SpecElement::Key(k) => {
                lemma_parse_key(k, r);
                assert(seq![SpecElement::Key(k)] + rest =~= p);
            },
        }
    }
}

/// Reading an index in front of a text.
proof fn lemma_parse_index(n: usize, r: Seq<char>)
    ensures
        parse_path(render_element(SpecElement::Index(n)) + r) == prepend_element(
            SpecElement::Index(n),
            parse_path(r),
        ),
{
    let s = render_element(SpecElement::Index(n)) + r;
    let d = decimal(n as nat);
    lemma_decimal_digits(n as nat);
    let l = d.len() as int;
    assert(s =~= seq!['['] + d + seq![']'] + r);
    assert forall|k: int| 1 <= k < 1 + l implies is_digit(#[trigger] s[k]) by {
        assert(s[k] == d[k - 1]);
    }
    assert(s[1 + l] == ']');
    lemma_digits_end_at(s, 1, 1 + l);
    assert(s.subrange(1, 1 + l) =~= d);
    assert(s.skip(1 + l + 1) =~= r);
}

/// Reading a closed key in front of a text.
proof fn lemma_parse_key(k: Seq<char>, r: Seq<char>)
    requires
        key_closed(k),
    ensures
        parse_path(render_element(SpecElement::Key(k)) + r) == prepend_element(
            SpecElement::Key(k),
            parse_path(r),
        ),
{
    let s = render_element(SpecElement::Key(k)) + r;
    let l = k.len() as int;
    assert(s =~= seq!['{', '"'] + k + seq!['"', '}'] + r);
    let t = s.skip(2);
    assert(t =~= k.push('"') + (seq!['}'] + r));
    lemma_key_end_extend(k.push('"'), seq!['}'] + r, 0);
    lemma_key_end_shift(s, 2, 0);
    assert(key_end(s, 2) == Some(2 + l));
    assert(s[2 + l + 1] == '}');
    assert(s.subrange(2, 2 + l) =~= k);
    assert(s.skip(2 + l + 2) =~= r);
}

} // verus!
