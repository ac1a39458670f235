//! Handler which counts the matched paths (array indexes are reduced to `[]`),
//! to analyse the structure of a JSON.

use crate::error;
use crate::path::{Element, Path, SpecElement};
use crate::streamer::{kind_name, ParsedKind, Token};
use vstd::prelude::*;

verus! {

/// Strict lexicographic order of byte strings.
pub open spec fn bytes_lt(a: Seq<u8>, b: Seq<u8>) -> bool
    decreases a.len(),
{
    if a.len() == 0 {
        b.len() > 0
    } else if b.len() == 0 {
        false
    } else if a[0] != b[0] {
        a[0] < b[0]
    } else {
        bytes_lt(a.skip(1), b.skip(1))
    }
}

/// Order of strings (by their UTF-8 bytes, as `String`s are ordered).
pub open spec fn str_lt(a: Seq<char>, b: Seq<char>) -> bool {
    bytes_lt(vstd::utf8::encode_utf8(a), vstd::utf8::encode_utf8(b))
}

/// Textual form of a path element where array indexes are reduced to `[]`.
pub open spec fn reduced_element(e: SpecElement) -> Seq<char> {
    match e {
        SpecElement::Root => Seq::empty(),
        SpecElement::Key(k) => "{\""@ + k + "\"}"@,
        SpecElement::Index(_) => "[]"@,
    }
}

/// Textual form of a path where array indexes are reduced to `[]`,
/// e.g. `{"users"}[0]{"name"}` -> `{"users"}[]{"name"}`.
pub open spec fn reduced_path(path: Seq<SpecElement>) -> Seq<char>
    decreases path.len(),
{
    if path.len() == 0 {
        Seq::empty()
    } else {
        reduced_path(path.drop_last()) + reduced_element(path.last())
    }
}

/// The key under which a path is counted (with its kind, e.g. `<number>`,
/// when types are grouped as well).
pub open spec fn analyser_key(path: Seq<SpecElement>, kind: Option<ParsedKind>) -> Seq<char> {
    match kind {
        Some(k) => reduced_path(path) + "<"@ + kind_name(k) + ">"@,
        None => reduced_path(path),
    }
}

/// Counts with one more occurrence of `key`; the entries are kept sorted.
pub open spec fn analyser_add(entries: Seq<(Seq<char>, usize)>, key: Seq<char>) -> Seq<
    (Seq<char>, usize),
>
    decreases entries.len(),
{
    if entries.len() == 0 {
        seq![(key, 1usize)]
    } else if entries[0].0 == key {
        entries.update(0, (key, if entries[0].1 == usize::MAX {
            usize::MAX
        } else {
            (entries[0].1 + 1) as usize
        }))
    } else if str_lt(key, entries[0].0) {
        seq![(key, 1usize)] + entries
    } else {
        seq![entries[0]] + analyser_add(entries.skip(1), key)
    }
}

/// Entries are sorted by their keys (so no key occurs twice).
pub open spec fn entries_sorted(entries: Seq<(Seq<char>, usize)>) -> bool {
    forall|i: int, j: int| 0 <= i < j < entries.len() ==> str_lt(entries[i].0, entries[j].0)
}

/// `bytes_lt` is irreflexive.
pub proof fn lemma_bytes_lt_irreflexive(a: Seq<u8>)
    ensures
        !bytes_lt(a, a),
    decreases a.len(),
{
    if a.len() > 0 {
        lemma_bytes_lt_irreflexive(a.skip(1));
    }
}

/// `bytes_lt` is transitive.
pub proof fn lemma_bytes_lt_transitive(a: Seq<u8>, b: Seq<u8>, c: Seq<u8>)
    requires
        bytes_lt(a, b),
        bytes_lt(b, c),
    ensures
        bytes_lt(a, c),
    decreases a.len(),
{
    if a.len() > 0 && b.len() > 0 && c.len() > 0 && a[0] == b[0] && b[0] == c[0] {
        lemma_bytes_lt_transitive(a.skip(1), b.skip(1), c.skip(1));
    }
}

/// `bytes_lt` is total on different strings.
pub proof fn lemma_bytes_lt_total(a: Seq<u8>, b: Seq<u8>)
    requires
        a != b,
    ensures
        bytes_lt(a, b) || bytes_lt(b, a),
    decreases a.len(),
{
    if a.len() > 0 && b.len() > 0 && a[0] == b[0] {
        if a.skip(1) == b.skip(1) {
            assert(a =~= seq![a[0]] + a.skip(1));
            assert(b =~= seq![b[0]] + b.skip(1));
        }
        lemma_bytes_lt_total(a.skip(1), b.skip(1));
    } else if a.len() == 0 && b.len() == 0 {
        assert(a =~= b);
    }
}

/// Different strings have different UTF-8 encodings.
proof fn lemma_encode_injective(a: Seq<char>, b: Seq<char>)
    requires
        vstd::utf8::encode_utf8(a) == vstd::utf8::encode_utf8(b),
    ensures
        a == b,
{
    vstd::utf8::encode_utf8_decode_utf8(a);
    vstd::utf8::encode_utf8_decode_utf8(b);
}

/// Adding an occurrence keeps the entries sorted.
pub proof fn lemma_analyser_add_sorted(entries: Seq<(Seq<char>, usize)>, key: Seq<char>)
    requires
        entries_sorted(entries),
    ensures
        entries_sorted(analyser_add(entries, key)),
        forall|i: int|
            0 <= i < analyser_add(entries, key).len() ==> (#[trigger] analyser_add(entries, key)[i]).0
                == key || exists|j: int| 0 <= j < entries.len() && entries[j].0 == analyser_add(
                entries,
                key,
            )[i].0,
    decreases entries.len(),
{
    let r = analyser_add(entries, key);
    if entries.len() == 0 {
    } else if entries[0].0 == key {
        assert forall|i: int, j: int| 0 <= i < j < r.len() implies str_lt(r[i].0, r[j].0) by {
            assert(r[i].0 == entries[i].0);
            assert(r[j].0 == entries[j].0);
        }
        assert forall|i: int| 0 <= i < r.len() implies (#[trigger] r[i]).0 == key || exists|j: int|
            0 <= j < entries.len() && entries[j].0 == r[i].0 by {
            if i > 0 {
                assert(entries[i].0 == r[i].0);
            }
        }
    } else if str_lt(key, entries[0].0) {
        assert forall|i: int, j: int| 0 <= i < j < r.len() implies str_lt(r[i].0, r[j].0) by {
            if i == 0 {
                assert(r[j].0 == entries[j - 1].0);
                if j > 1 {
                    assert(str_lt(entries[0].0, entries[j - 1].0));
                    lemma_bytes_lt_transitive(
                        vstd::utf8::encode_utf8(key),
                        vstd::utf8::encode_utf8(entries[0].0),
                        vstd::utf8::encode_utf8(entries[j - 1].0),
                    );
                }
            } else {
                assert(r[i].0 == entries[i - 1].0);
                assert(r[j].0 == entries[j - 1].0);
            }
        }
        assert forall|i: int| 0 <= i < r.len() implies (#[trigger] r[i]).0 == key || exists|j: int|
            0 <= j < entries.len() && entries[j].0 == r[i].0 by {
            if i > 0 {
                assert(entries[i - 1].0 == r[i].0);
            }
        }
    } else {
        let tail = entries.skip(1);
        assert(entries_sorted(tail)) by {
            assert forall|i: int, j: int| 0 <= i < j < tail.len() implies str_lt(
                tail[i].0,
                tail[j].0,
            ) by {
                assert(tail[i] == entries[i + 1]);
                assert(tail[j] == entries[j + 1]);
            }
        }
        lemma_analyser_add_sorted(tail, key);
        let rt = analyser_add(tail, key);
        assert(r =~= seq![entries[0]] + rt);
        // key is after the first entry
        if vstd::utf8::encode_utf8(key) == vstd::utf8::encode_utf8(entries[0].0) {
            lemma_encode_injective(key, entries[0].0);
        }
        lemma_bytes_lt_total(vstd::utf8::encode_utf8(key), vstd::utf8::encode_utf8(entries[0].0));
        assert forall|i: int, j: int| 0 <= i < j < r.len() implies str_lt(r[i].0, r[j].0) by {
            if i == 0 {
                assert(r[j] == rt[j - 1]);
                let k = rt[j - 1].0;
                if k == key {
                } else {
                    let m = choose|m: int| 0 <= m < tail.len() && tail[m].0 == k;
                    assert(tail[m] == entries[m + 1]);
                }
            } else {
                assert(r[i] == rt[i - 1]);
                assert(r[j] == rt[j - 1]);
            }
        }
        assert forall|i: int| 0 <= i < r.len() implies (#[trigger] r[i]).0 == key || exists|j: int|
            0 <= j < entries.len() && entries[j].0 == r[i].0 by {
            if i == 0 {
                assert(entries[0].0 == r[i].0);
            } else {
                assert(rt[i - 1] == r[i]);
                if r[i].0 != key {
                    let m = choose|m: int| 0 <= m < tail.len() && tail[m].0 == rt[i - 1].0;
                    assert(entries[m + 1].0 == r[i].0);
                }
            }
        }
    }
}

/// Compares byte strings lexicographically.
fn bytes_less(a: &[u8], b: &[u8]) -> (r: bool)
    ensures
        r == bytes_lt(a@, b@),
{
    let n = a.len();
    let m = b.len();
    let mut i: usize = 0;
    assert(a@.skip(0) =~= a@);
    assert(b@.skip(0) =~= b@);
    while i < n && i < m
        invariant
            n == a@.len(),
            m == b@.len(),
            i <= n,
            i <= m,
            a@.subrange(0, i as int) == b@.subrange(0, i as int),
            bytes_lt(a@, b@) == bytes_lt(a@.skip(i as int), b@.skip(i as int)),
        decreases n - i,
    {
        if a[i] != b[i] {
            return a[i] < b[i];
        }
        assert(a@.skip(i as int).skip(1) =~= a@.skip(i + 1));
        assert(b@.skip(i as int).skip(1) =~= b@.skip(i + 1));
        assert(a@.subrange(0, i + 1) =~= a@.subrange(0, i as int).push(a@[i as int]));
        assert(b@.subrange(0, i + 1) =~= b@.subrange(0, i as int).push(b@[i as int]));
        i = i + 1;
    }
    assert(i == n ==> a@.skip(i as int).len() == 0);
    assert(i == m ==> b@.skip(i as int).len() == 0);
    i == n && i < m
}

/// Appends the reduced form of a path element.
fn push_reduced(out: &mut String, e: &Element)
    ensures
        final(out)@ == old(out)@ + reduced_element(e@),
{
    match e {
        Element::Root => {
            assert(old(out)@ + Seq::<char>::empty() =~= old(out)@);
        },
        Element::Key(key) => {
            crate::path::string_push(out, '{');
            crate::path::string_push(out, '"');
            out.append(key.as_str());
            crate::path::string_push(out, '"');
            crate::path::string_push(out, '}');
            proof {
                reveal_strlit("{\"");
                reveal_strlit("\"}");
            }
            assert(final(out)@ =~= old(out)@ + reduced_element(e@));
        },
        Element::Index(_) => {
            crate::path::string_push(out, '[');
            crate::path::string_push(out, ']');
            proof {
                reveal_strlit("[]");
            }
            assert(final(out)@ =~= old(out)@ + reduced_element(e@));
        },
    }
}

/// Converts a path to the key used for counting.
fn to_reduced_array_str(path: &Path, kind: Option<ParsedKind>) -> (r: String)
    ensures
        r@ == analyser_key(path@, kind),
{
    let mut res = String::new();
    let elements = path.get_path();
    let n = elements.len();
    let mut i: usize = 0;
    while i < n
        invariant
            n == elements@.len(),
            elements@.map_values(|e: Element| e@) == path@,
            i <= n,
            res@ == reduced_path(path@.take(i as int)),
        decreases n - i,
    {
        assert(path@.take(i + 1).drop_last() =~= path@.take(i as int));
        assert(path@[i as int] == elements@[i as int]@);
        push_reduced(&mut res, &elements[i]);
        i = i + 1;
    }
    assert(path@.take(n as int) =~= path@);
    match kind {
        Some(k) => {
            crate::path::string_push(&mut res, '<');
            res.append(k.as_ref());
            crate::path::string_push(&mut res, '>');
            proof {
                reveal_strlit("<");
                reveal_strlit(">");
            }
            assert(res@ =~= analyser_key(path@, kind));
        },
        None => {},
    }
    res
}

/// View of counted entries.
pub open spec fn entries_of(v: Seq<(String, usize)>) -> Seq<(Seq<char>, usize)> {
    v.map_values(|e: (String, usize)| entry_view(e))
}

/// Adds one occurrence of the key to sorted entries.
fn add_occurrence(paths: &mut Vec<(String, usize)>, key: String)
    requires
        entries_sorted(entries_of(old(paths)@)),
    ensures
        entries_of(final(paths)@) == analyser_add(entries_of(old(paths)@), key@),
        entries_sorted(entries_of(final(paths)@)),
{
    let ghost e = entries_of(paths@);
    let ghost k = key@;
    proof {
        lemma_analyser_add_sorted(e, k);
    }
    let key_bytes = key.as_str().as_bytes();
    let n = paths.len();
    let mut i: usize = 0;
    assert(e.take(0) + analyser_add(e.skip(0), k) =~= analyser_add(e, k)) by {
        assert(e.skip(0) =~= e);
    }
    while i < n
        invariant
            n == paths@.len(),
            i <= n,
            entries_sorted(analyser_add(e, k)),
            entries_of(paths@) == e,
            e == entries_of(old(paths)@),
            key@ == k,
            key_bytes@ == vstd::utf8::encode_utf8(k),
            analyser_add(e, k) == e.take(i as int) + analyser_add(e.skip(i as int), k),
        decreases n - i,
    {
        let ghost rest = e.skip(i as int);
        assert(rest[0] == e[i as int]);
        assert(rest.skip(1) =~= e.skip(i + 1));
        if paths[i].0 == key {
            let c = paths[i].1;
            let new_c = c.saturating_add(1);
            let old_item = paths.remove(i);
            paths.insert(i, (old_item.0, new_c));
            assert(entries_of(paths@) =~= analyser_add(e, k));
            return;
        }
        let other_bytes = paths[i].0.as_str().as_bytes();
        if bytes_less(key_bytes, other_bytes) {
            paths.insert(i, (key, 1));
            assert(entries_of(paths@) =~= analyser_add(e, k));
            return;
        }
        assert(e.take(i + 1) =~= e.take(i as int).push(e[i as int]));
        assert(e.take(i as int) + (seq![e[i as int]] + analyser_add(e.skip(i + 1), k))
            =~= e.take(i + 1) + analyser_add(e.skip(i + 1), k));
        i = i + 1;
    }
    paths.push((key, 1));
    assert(e.skip(n as int) =~= Seq::<(Seq<char>, usize)>::empty());
    assert(e.take(n as int) =~= e);
    assert(entries_of(paths@) =~= analyser_add(e, k));
}

/// Handler which counts the matched paths.
pub struct Analyser {
    paths: Vec<(String, usize)>,
    group_types: bool,
}

/// View of a counted entry.
pub open spec fn entry_view(e: (String, usize)) -> (Seq<char>, usize) {
    (e.0@, e.1)
}

impl Analyser {
    /// Counted paths, sorted by path.
    pub closed spec fn entries(&self) -> Seq<(Seq<char>, usize)> {
        entries_of(self.paths@)
    }

    /// Whether paths are counted together with the kind of the value.
    pub closed spec fn groups_types(&self) -> bool {
        self.group_types
    }

    /// The entries are always sorted by path.
    #[verifier::type_invariant]
    closed spec fn sorted_inv(&self) -> bool {
        entries_sorted(self.entries())
    }

    /// Creates a new analyser.
    pub fn new() -> (r: Self)
        ensures
            r.entries().len() == 0,
            !r.groups_types(),
    {
        let r = Analyser { paths: Vec::new(), group_types: false };
        assert(r.entries() =~= Seq::empty());
        r
    }

    /// Creates the analyser from a string: empty, or `true`/`false` telling
    /// whether the paths are grouped by the kind of the value as well.
    pub fn from_str(input: &str) -> (r: Result<Self, error::Handler>)
        ensures
            input@.len() == 0 ==> (r matches Ok(a) && !a.groups_types() && a.entries().len() == 0),
            input@.len() > 0 ==> match crate::cli::parse_bool_spec(input@) {
                Some(b) => r matches Ok(a) && a.groups_types() == b && a.entries().len() == 0,
                None => r matches Err(e) && e.reason@ == "provided string was not `true` or `false`"@,
            },
    {
        let chars = crate::path::collect_chars(input);
        if chars.len() == 0 {
            return Ok(Analyser::new());
        }
        match crate::cli::parse_bool(input) {
            Some(b) => Ok(Analyser::new().set_group_types(b)),
            None => Err(error::Handler::new("provided string was not `true` or `false`")),
        }
    }

    /// Sets whether the paths are grouped by the kind of the value as well.
    pub fn set_group_types(self, group_types: bool) -> (r: Self)
        ensures
            r.entries() == self.entries(),
            r.groups_types() == group_types,
    {
        proof {
            use_type_invariant(&self);
        }
        Analyser { group_types, paths: self.paths }
    }

    /// Results of the analysis: paths with their counts, sorted by path.
    pub fn results(&self) -> (r: Vec<(String, usize)>)
        ensures
            r@.map_values(|e: (String, usize)| entry_view(e)) == self.entries(),
            entries_sorted(r@.map_values(|e: (String, usize)| entry_view(e))),
    {
        proof {
            use_type_invariant(self);
        }
        let mut res: Vec<(String, usize)> = Vec::new();
        let n = self.paths.len();
        for i in 0..n
            invariant
                n == self.paths@.len(),
                res@.len() == i,
                res@.map_values(|e: (String, usize)| entry_view(e)) == self.entries().take(i as int),
        {
            let (p, c) = &self.paths[i];
            let item = (p.clone(), *c);
            assert(entry_view(item) == self.entries()[i as int]);
            let ghost prev = res@;
            res.push(item);
            proof {
                let mv = res@.map_values(|e: (String, usize)| entry_view(e));
                let want = self.entries().take(i + 1);
                assert forall|j: int| 0 <= j < want.len() implies mv[j] == want[j] by {
                    if j < i {
                        assert(res@[j] == prev[j]);
                        assert(prev.map_values(|e: (String, usize)| entry_view(e))[j] == want[j]);
                    }
                }
                assert(mv =~= want);
            }
        }
        assert(self.entries().take(n as int) =~= self.entries());
        res
    }

    /// Counts the path where a match starts.
    pub fn start(&mut self, path: &Path, _matcher_idx: usize, token: Token) -> (r: Result<
        Option<Vec<u8>>,
        error::Handler,
    >)
        ensures
            final(self).groups_types() == old(self).groups_types(),
            r is Err <==> !(token is Start),
            r is Ok ==> r == Ok::<Option<Vec<u8>>, error::Handler>(None),
            match token {
                Token::Start(_, kind) => final(self).entries() == analyser_add(
                    old(self).entries(),
                    analyser_key(
                        path@,
                        if old(self).groups_types() {
                            Some(kind)
                        } else {
                            None
                        },
                    ),
                ),
                _ => final(self).entries() == old(self).entries(),
            },
    {
        proof {
            use_type_invariant(&*self);
        }
        let kind = match token {
            Token::Start(_, kind) => kind,
            _ => {
                return Err(error::Handler::new("Invalid token"));
            },
        };
        let key = to_reduced_array_str(
            path,
            if self.group_types {
                Some(kind)
            } else {
                None
            },
        );
        let mut paths: Vec<(String, usize)> = Vec::new();
        std::mem::swap(&mut paths, &mut self.paths);
        add_occurrence(&mut paths, key);
        self.paths = paths;
        Ok(None)
    }
}

} // verus!
